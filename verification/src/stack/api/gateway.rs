//! The gateway: the compiler that turns a set of endpoints into the blocks
//! of a document.

use crate::stack::api::deployment::GatewayDeployment;
use crate::stack::api::domain_name::Domain;
use crate::stack::api::endpoint::ApiEndpoint;
use crate::stack::api::error::{CompileError, ErrorView};
use crate::stack::api::path_tree::{
    all_valid, first_invalid, lemma_resolution_unique, lemma_routes_resolved, resolve, resolves,
};
use crate::stack::api::stage::Stage;
use crate::stack::tf::{
    combined, reference, render_block, FieldView, ResourceView, Terraform, TerraformEntity,
    TfDataType, TfField, TfResource, TfVar, VarView,
};
use crate::stack::Shared;
use crate::text::{
    decimal, decimal_string, distinct, find_repeat, first_repeat, hash_text, hash_text_pair,
    find_repeated_name, indices, join, join_texts, lemma_first_repeat, lowercased, same_text,
    sort_order, sorted_order, text_hash, text_pair_hash, texts,
};
use vstd::prelude::*;
use vstd::string::*;

verus! {

/// A gateway: a named API with a stage, a domain and endpoints.
#[derive(Clone, Debug)]
pub struct ApiGateway {
    pub name: String,
    pub domain: Option<Shared<Domain>>,
    pub stage_name: String,
    pub endpoints: Vec<ApiEndpoint>,
}

impl Default for ApiGateway {
    /// A gateway without a name, a stage, a domain or endpoints.
    fn default() -> (gateway: Self)
        ensures
            gateway.name@ == Seq::<char>::empty(),
            gateway.stage_name@ == Seq::<char>::empty(),
            gateway.domain is None,
            gateway.endpoints@ == Seq::<ApiEndpoint>::empty(),
    {
        ApiGateway {
            name: String::new(),
            domain: None,
            stage_name: String::new(),
            endpoints: Vec::new(),
        }
    }
}

/// A node of the gateway's resource tree: a path, and the reference to the
/// node above it.
#[derive(Debug)]
pub struct ResourcePath {
    pub parent_id: TfVar,
    pub resource_path: String,
}

/// What a resource path says.
pub struct PathView {
    pub parent_id: VarView,
    pub resource_path: Seq<char>,
}

impl View for ResourcePath {
    type V = PathView;

    open spec fn view(&self) -> PathView {
        PathView { parent_id: self.parent_id@, resource_path: self.resource_path@ }
    }
}

impl Clone for ResourcePath {
    fn clone(&self) -> (r: Self)
        ensures
            r == *self,
    {
        ResourcePath { parent_id: self.parent_id.clone(), resource_path: self.resource_path.clone() }
    }
}

/// What each of the resource paths says.
pub open spec fn path_views(paths: Seq<ResourcePath>) -> Seq<PathView> {
    Seq::new(paths.len(), |i: int| paths[i]@)
}

/// The key from which the identifier of a path is derived: the hash of the
/// path, as a decimal numeral.
pub open spec fn path_unique_id(path: Seq<char>) -> Seq<char> {
    decimal(text_hash(path) as nat)
}

/// The identifier of the node of a path. It depends on the path alone.
pub open spec fn path_identifier(path: Seq<char>) -> Seq<char> {
    "resource_path_"@ + path_unique_id(path)
}

/// The reference to an attribute of the node of a path.
pub open spec fn path_var(path: Seq<char>, field: Seq<char>) -> VarView {
    VarView {
        data_type: TfDataType::Resource,
        kind_name: "aws_api_gateway_resource"@,
        identifier: path_identifier(path),
        field,
    }
}

/// The identifiers of the nodes, in order.
pub open spec fn path_identifiers(paths: Seq<PathView>) -> Seq<Seq<char>> {
    Seq::new(paths.len(), |i: int| path_identifier(paths[i].resource_path))
}

/// The paths of the nodes, in order.
pub open spec fn path_texts(paths: Seq<PathView>) -> Seq<Seq<char>> {
    Seq::new(paths.len(), |i: int| paths[i].resource_path)
}

/// The block that declares a node of the resource tree of `gateway`.
pub open spec fn path_resource(gateway: &ApiGateway, path: PathView) -> ResourceView {
    ResourceView {
        tf_type: "resource"@,
        resource_name: "aws_api_gateway_resource"@,
        resource_identifier: path_identifier(path.resource_path),
        fields: seq![
            ("rest_api_id"@, FieldView::Variable(gateway.spec_var_rest_api("id"@))),
            ("parent_id"@, FieldView::Variable(path.parent_id)),
            ("path_part"@, FieldView::String(path.resource_path)),
        ],
    }
}

/// Whether one of the nodes stands for exactly this route.
pub open spec fn resolved(paths: Seq<PathView>, route: Seq<char>) -> bool {
    exists|k: int| 0 <= k < paths.len() && (#[trigger] paths[k]).resource_path == route
}

/// `i` is the first route for which there is no node.
pub open spec fn first_unresolved_at(routes: Seq<Seq<char>>, paths: Seq<PathView>, i: int) -> bool {
    &&& 0 <= i < routes.len()
    &&& !resolved(paths, routes[i])
    &&& forall|j: int| 0 <= j < i ==> resolved(paths, #[trigger] routes[j])
}

/// Whether there is a node for every route.
pub open spec fn all_resolved(routes: Seq<Seq<char>>, paths: Seq<PathView>) -> bool {
    forall|j: int| 0 <= j < routes.len() ==> resolved(paths, #[trigger] routes[j])
}

/// The first route for which there is no node, where there is one.
pub open spec fn first_unresolved(routes: Seq<Seq<char>>, paths: Seq<PathView>) -> int {
    choose|i: int| first_unresolved_at(routes, paths, i)
}

impl ResourcePath {
    /// A node for `resource_path`, below the node that `parent_id` refers
    /// to.
    pub fn new(parent_id: TfVar, resource_path: &str) -> (r: Self)
        ensures
            r@ == (PathView { parent_id: parent_id@, resource_path: resource_path@ }),
    {
        ResourcePath { parent_id, resource_path: resource_path.to_owned() }
    }

    pub fn unique_id(&self) -> (s: String)
        ensures
            s@ == path_unique_id(self.resource_path@),
    {
        decimal_string(hash_text(self.resource_path.as_str()))
    }

    pub fn tf_identifier(&self) -> (s: String)
        ensures
            s@ == path_identifier(self.resource_path@),
    {
        let mut s = "resource_path_".to_owned();
        s.append(self.unique_id().as_str());
        s
    }

    /// The reference to an attribute of the node's block.
    pub fn var(&self, field: &str) -> (v: TfVar)
        ensures
            v@ == path_var(self.resource_path@, field@),
    {
        reference(
            TfDataType::Resource,
            "aws_api_gateway_resource",
            self.tf_identifier().as_str(),
            field,
        )
    }

    /// Renders the block that declares the node in the tree of `gateway`.
    pub fn create_terraform(&self, gateway: &ApiGateway) -> (tf: Terraform)
        ensures
            tf@ == render_block(path_resource(gateway, self@)),
    {
        let mut r = TfResource::new_resource(
            "aws_api_gateway_resource",
            self.tf_identifier().as_str(),
        );
        r.add_field("rest_api_id", TfField::Variable(gateway.var_gateway_rest_api("id")));
        r.add_field("parent_id", TfField::Variable(self.parent_id.clone()));
        r.add_field("path_part", TfField::String(self.resource_path.clone()));
        proof {
            reveal_strlit("rest_api_id");
            reveal_strlit("parent_id");
            reveal_strlit("path_part");
            assert("rest_api_id"@.len() == 11);
            assert("parent_id"@.len() == 9 && "parent_id"@[2] == 'r');
            assert("path_part"@.len() == 9 && "path_part"@[2] == 't');
            assert(r@.fields =~= path_resource(gateway, self@).fields);
        }
        r.create_terraform()
    }
}

fn find_path(paths: &Vec<ResourcePath>, route: &str) -> (r: Option<usize>)
    ensures
        match r {
            Some(k) => k < paths.len() && paths[k as int].resource_path@ == route@,
            None => !resolved(path_views(paths@), route@),
        },
{
    let mut k: usize = 0;
    while k < paths.len()
        invariant
            k <= paths.len(),
            forall|j: int| 0 <= j < k ==> (#[trigger] path_views(paths@)[j]).resource_path != route@,
        decreases paths.len() - k,
    {
        if same_text(paths[k].resource_path.as_str(), route) {
            return Some(k);
        }
        k += 1;
    }
    None
}

impl ApiGateway {
    /// The key from which the identifier is derived: the hash of the name
    /// and the stage's name, as a decimal numeral.
    pub open spec fn spec_unique_key(&self) -> Seq<char> {
        decimal(text_pair_hash(self.name@, self.stage_name@) as nat)
    }

    pub open spec fn spec_tf_identifier(&self) -> Seq<char> {
        "gateway_"@ + self.spec_unique_key()
    }

    /// The reference to an attribute of the gateway's own block.
    pub open spec fn spec_var_rest_api(&self, field: Seq<char>) -> VarView {
        VarView {
            data_type: TfDataType::Resource,
            kind_name: "aws_api_gateway_rest_api"@,
            identifier: self.spec_tf_identifier(),
            field,
        }
    }

    /// The reference to an attribute of the block that maps the domain to
    /// the gateway.
    pub open spec fn spec_var_path_mapping(&self, field: Seq<char>) -> VarView {
        VarView {
            data_type: TfDataType::Resource,
            kind_name: "aws_api_gateway_base_path_mapping"@,
            identifier: self.spec_tf_identifier(),
            field,
        }
    }

    /// The names of the endpoints, in the order in which they were given.
    pub open spec fn spec_names(&self) -> Seq<Seq<char>> {
        Seq::new(self.endpoints.len() as nat, |i: int| self.endpoints[i].name@)
    }

    /// The routes of the endpoints, in the order in which they were given.
    pub open spec fn spec_routes(&self) -> Seq<Seq<char>> {
        Seq::new(self.endpoints.len() as nat, |i: int| self.endpoints[i].route@)
    }

    /// The identifiers of the endpoints' functions, in the order in which
    /// the endpoints were given.
    pub open spec fn spec_functions(&self) -> Seq<Seq<char>> {
        Seq::new(self.endpoints.len() as nat, |i: int| self.endpoints[i].lambda.spec_tf_identifier())
    }

    /// The endpoints in the order of their names. This is the order in
    /// which they are written out, whatever the order in which they were
    /// given.
    pub open spec fn spec_ordered(&self) -> Seq<ApiEndpoint> {
        Seq::new(
            self.endpoints.len() as nat,
            |i: int| self.endpoints[sorted_order(self.spec_names())[i]],
        )
    }

    /// The stage of the gateway.
    pub open spec fn spec_stage(&self) -> Stage {
        Stage { stage_name: self.stage_name }
    }

    /// The block that declares the gateway itself.
    pub open spec fn spec_rest_api_resource(&self) -> ResourceView {
        ResourceView {
            tf_type: "resource"@,
            resource_name: "aws_api_gateway_rest_api"@,
            resource_identifier: self.spec_tf_identifier(),
            fields: seq![("name"@, FieldView::String(self.name@))],
        }
    }

    /// The block that maps `domain` to the stage of the gateway.
    pub open spec fn spec_path_mapping_resource(&self, domain: &Domain) -> ResourceView {
        ResourceView {
            tf_type: "resource"@,
            resource_name: "aws_api_gateway_base_path_mapping"@,
            resource_identifier: self.spec_tf_identifier(),
            fields: seq![
                (
                    "domain_name"@,
                    FieldView::Variable(
                        VarView {
                            data_type: TfDataType::Resource,
                            kind_name: "aws_api_gateway_domain_name"@,
                            identifier: domain.spec_tf_identifier(),
                            field: "domain_name"@,
                        },
                    ),
                ),
                ("api_id"@, FieldView::Variable(self.spec_var_rest_api("id"@))),
                (
                    "stage_name"@,
                    FieldView::Variable(
                        VarView {
                            data_type: TfDataType::Resource,
                            kind_name: "aws_api_gateway_stage"@,
                            identifier: self.spec_stage().spec_tf_identifier(),
                            field: "stage_name"@,
                        },
                    ),
                ),
            ],
        }
    }

    /// The blocks of the nodes of the resource tree, one per node, in the
    /// order of the nodes.
    pub open spec fn spec_path_blocks(&self, paths: Seq<PathView>) -> Seq<Seq<char>> {
        Seq::new(paths.len(), |i: int| render_block(path_resource(self, paths[i])))
    }

    /// The blocks of the endpoints, four per endpoint, in the order of the
    /// endpoints' names. Each endpoint hangs on the node of its own route.
    pub open spec fn spec_endpoint_blocks(&self) -> Seq<Seq<char>> {
        Seq::new(
            self.endpoints.len() as nat,
            |i: int| self.spec_ordered()[i].spec_terraform(self, self.spec_ordered()[i].route@),
        )
    }

    /// The document of the gateway, given the nodes of its resource tree:
    /// the gateway and the mapping of its domain, the stage, the nodes, the
    /// endpoints, and the deployment.
    pub open spec fn spec_document(&self, paths: Seq<PathView>) -> Seq<char> {
        let deployment = GatewayDeployment { gateway: self };
        combined(
            combined(
                combined(
                    combined(
                        combined(
                            render_block(self.spec_rest_api_resource()),
                            render_block(self.spec_path_mapping_resource(&*self.domain->Some_0)),
                        ),
                        render_block(self.spec_stage().spec_resource(self, &deployment)),
                    ),
                    join(self.spec_path_blocks(paths), "\n"@),
                ),
                join(self.spec_endpoint_blocks(), "\n"@),
            ),
            render_block(deployment.spec_resource()),
        )
    }

    /// Why the gateway cannot be compiled with these nodes, if it cannot.
    /// The first of these that holds decides: two endpoints share a name,
    /// whatever the capitalization; the gateway has no domain; two endpoints share a function, so that
    /// their blocks would share an identifier; two nodes share an
    /// identifier; there is no node for the route of an endpoint.
    pub open spec fn spec_compile_failure(&self, paths: Seq<PathView>) -> Option<ErrorView> {
        let names = self.spec_names();
        let functions = self.spec_functions();
        let nodes = path_identifiers(paths);
        let routes = self.spec_routes();
        if !distinct(lowercased(names)) {
            Some(ErrorView::DuplicateName { name: names[first_repeat(lowercased(names))] })
        } else if self.domain is None {
            Some(ErrorView::MissingDomainConfiguration { gateway: self.name@ })
        } else if !distinct(functions) {
            Some(ErrorView::IdentifierCollision { identifier: functions[first_repeat(functions)] })
        } else if !distinct(nodes) {
            Some(ErrorView::IdentifierCollision { identifier: nodes[first_repeat(nodes)] })
        } else if !all_resolved(routes, paths) {
            Some(
                ErrorView::UnresolvedRoute {
                    endpoint: names[first_unresolved(routes, paths)],
                    route: routes[first_unresolved(routes, paths)],
                },
            )
        } else {
            None
        }
    }

    pub fn unique_key(&self) -> (s: String)
        ensures
            s@ == self.spec_unique_key(),
    {
        decimal_string(hash_text_pair(self.name.as_str(), self.stage_name.as_str()))
    }

    pub fn tf_identifier(&self) -> (s: String)
        ensures
            s@ == self.spec_tf_identifier(),
    {
        let mut s = "gateway_".to_owned();
        s.append(self.unique_key().as_str());
        s
    }

    /// The reference to an attribute of the gateway's own block.
    pub fn var_gateway_rest_api(&self, field: &str) -> (v: TfVar)
        ensures
            v@ == self.spec_var_rest_api(field@),
    {
        reference(
            TfDataType::Resource,
            "aws_api_gateway_rest_api",
            self.tf_identifier().as_str(),
            field,
        )
    }

    /// The reference to an attribute of the gateway's own block, which is
    /// also the root of its resource tree.
    pub fn var_gateway_resource(&self, field: &str) -> (v: TfVar)
        ensures
            v@ == self.spec_var_rest_api(field@),
    {
        self.var_gateway_rest_api(field)
    }

    /// The reference to an attribute of the block that maps the domain to
    /// the gateway.
    pub fn var_path_mapping_resource(&self, field: &str) -> (v: TfVar)
        ensures
            v@ == self.spec_var_path_mapping(field@),
    {
        reference(
            TfDataType::Resource,
            "aws_api_gateway_base_path_mapping",
            self.tf_identifier().as_str(),
            field,
        )
    }

    /// The names of the endpoints, in the order in which they were given.
    pub fn names(&self) -> (names: Vec<String>)
        ensures
            texts(names@) == self.spec_names(),
            names.len() == self.endpoints.len(),
    {
        let mut names: Vec<String> = Vec::new();
        let mut i: usize = 0;
        while i < self.endpoints.len()
            invariant
                i <= self.endpoints.len(),
                names.len() == i,
                texts(names@) == self.spec_names().take(i as int),
            decreases self.endpoints.len() - i,
        {
            let ghost before = texts(names@);
            let name = self.endpoints[i].name.clone();
            names.push(name);
            assert(texts(names@) =~= before.push(name@));
            assert(texts(names@) =~= self.spec_names().take(i + 1));
            i += 1;
        }
        assert(texts(names@) =~= self.spec_names());
        names
    }

    /// The identifiers of the endpoints' functions, in the order in which
    /// the endpoints were given.
    pub fn functions(&self) -> (functions: Vec<String>)
        ensures
            texts(functions@) == self.spec_functions(),
            functions.len() == self.endpoints.len(),
    {
        let mut functions: Vec<String> = Vec::new();
        let mut i: usize = 0;
        while i < self.endpoints.len()
            invariant
                i <= self.endpoints.len(),
                functions.len() == i,
                texts(functions@) == self.spec_functions().take(i as int),
            decreases self.endpoints.len() - i,
        {
            let ghost before = texts(functions@);
            let identifier = self.endpoints[i].lambda.tf_identifier();
            functions.push(identifier);
            assert(texts(functions@) =~= before.push(identifier@));
            assert(texts(functions@) =~= self.spec_functions().take(i + 1));
            i += 1;
        }
        assert(texts(functions@) =~= self.spec_functions());
        functions
    }

    /// The identifiers of the nodes handed in.
    fn node_identifiers(resource_paths: &Vec<ResourcePath>) -> (nodes: Vec<String>)
        ensures
            texts(nodes@) == path_identifiers(path_views(resource_paths@)),
    {
        let ghost paths = path_views(resource_paths@);
        let mut nodes: Vec<String> = Vec::new();
        let mut i: usize = 0;
        while i < resource_paths.len()
            invariant
                i <= resource_paths.len(),
                paths == path_views(resource_paths@),
                texts(nodes@) == path_identifiers(paths).take(i as int),
            decreases resource_paths.len() - i,
        {
            let ghost before = texts(nodes@);
            let identifier = resource_paths[i].tf_identifier();
            nodes.push(identifier);
            assert(texts(nodes@) =~= before.push(identifier@));
            assert(texts(nodes@) =~= path_identifiers(paths).take(i + 1));
            i += 1;
        }
        assert(texts(nodes@) =~= path_identifiers(paths));
        nodes
    }

    /// Finds the node of every endpoint's route.
    fn locate(&self, resource_paths: &Vec<ResourcePath>) -> (r: Result<Vec<usize>, CompileError>)
        ensures
            match r {
                Ok(found) => all_resolved(self.spec_routes(), path_views(resource_paths@))
                    && self.located(resource_paths@, found@),
                Err(e) => !all_resolved(self.spec_routes(), path_views(resource_paths@)) && e@ == (
                ErrorView::UnresolvedRoute {
                    endpoint: self.spec_names()[first_unresolved(
                        self.spec_routes(),
                        path_views(resource_paths@),
                    )],
                    route: self.spec_routes()[first_unresolved(
                        self.spec_routes(),
                        path_views(resource_paths@),
                    )],
                }),
            },
    {
        let ghost paths = path_views(resource_paths@);
        let ghost routes = self.spec_routes();
        let mut found: Vec<usize> = Vec::new();
        let mut i: usize = 0;
        while i < self.endpoints.len()
            invariant
                i <= self.endpoints.len(),
                found.len() == i,
                paths == path_views(resource_paths@),
                routes == self.spec_routes(),
                forall|j: int| 0 <= j < i ==> resolved(paths, #[trigger] routes[j]),
                forall|j: int|
                    0 <= j < i ==> (#[trigger] found[j]) < resource_paths.len()
                        && resource_paths[found[j] as int].resource_path@
                        == self.endpoints[j].route@,
            decreases self.endpoints.len() - i,
        {
            match find_path(resource_paths, self.endpoints[i].route.as_str()) {
                Some(k) => {
                    assert(paths[k as int].resource_path == routes[i as int]);
                    found.push(k);
                },
                None => {
                    proof {
                        assert(first_unresolved_at(routes, paths, i as int));
                        let other = first_unresolved(routes, paths);
                        assert(first_unresolved_at(routes, paths, other));
                        assert(other == i);
                    }
                    return Err(
                        CompileError::UnresolvedRoute {
                            endpoint: self.endpoints[i].name.clone(),
                            route: self.endpoints[i].route.clone(),
                        },
                    );
                },
            }
            i += 1;
        }
        Ok(found)
    }

    /// `found` tells, for each endpoint, which of `paths` is the node of
    /// its route.
    pub open spec fn located(&self, paths: Seq<ResourcePath>, found: Seq<usize>) -> bool {
        &&& found.len() == self.endpoints.len()
        &&& forall|j: int|
            0 <= j < found.len() ==> (#[trigger] found[j]) < paths.len() && paths[found[j] as int].resource_path@
                == self.endpoints[j].route@
    }

    /// Checks the endpoints and the nodes, and finds the node of every
    /// endpoint's route.
    fn check(&self, resource_paths: &Vec<ResourcePath>) -> (r: Result<Vec<usize>, CompileError>)
        ensures
            match r {
                Ok(found) => self.spec_compile_failure(path_views(resource_paths@)) is None
                    && self.located(resource_paths@, found@),
                Err(e) => self.spec_compile_failure(path_views(resource_paths@)) == Some(e@),
            },
    {
        let names = self.names();
        match find_repeated_name(&names) {
            Some(i) => {
                return Err(CompileError::DuplicateName { name: names[i].clone() });
            },
            None => {},
        }
        if self.domain.is_none() {
            return Err(CompileError::MissingDomainConfiguration { gateway: self.name.clone() });
        }
        let functions = self.functions();
        match find_repeat(&functions) {
            Some(i) => {
                proof {
                    lemma_first_repeat(texts(functions@), i as int);
                }
                return Err(CompileError::IdentifierCollision { identifier: functions[i].clone() });
            },
            None => {},
        }
        let nodes = Self::node_identifiers(resource_paths);
        match find_repeat(&nodes) {
            Some(i) => {
                proof {
                    lemma_first_repeat(texts(nodes@), i as int);
                }
                return Err(CompileError::IdentifierCollision { identifier: nodes[i].clone() });
            },
            None => {},
        }
        self.locate(resource_paths)
    }

    /// Renders the gateway's own block and the block that maps `domain` to
    /// it.
    fn render_gateway(&self, domain: &Domain) -> (tf: Terraform)
        ensures
            tf@ == combined(
                render_block(self.spec_rest_api_resource()),
                render_block(self.spec_path_mapping_resource(domain)),
            ),
    {
        let identifier = self.tf_identifier();
        let mut gateway_resource = TfResource::new_resource(
            "aws_api_gateway_rest_api",
            identifier.as_str(),
        );
        gateway_resource.add_field("name", TfField::String(self.name.clone()));
        assert(gateway_resource@.fields =~= self.spec_rest_api_resource().fields);

        let stage = Stage { stage_name: self.stage_name.clone() };
        assert(stage == self.spec_stage());

        let mut path_mapping_resource = TfResource::new_resource(
            "aws_api_gateway_base_path_mapping",
            identifier.as_str(),
        );
        path_mapping_resource.add_field("domain_name", TfField::Variable(domain.var("domain_name")));
        path_mapping_resource.add_field("api_id", TfField::Variable(self.var_gateway_rest_api("id")));
        path_mapping_resource.add_field("stage_name", TfField::Variable(stage.var("stage_name")));
        proof {
            reveal_strlit("domain_name");
            reveal_strlit("api_id");
            reveal_strlit("stage_name");
            assert("domain_name"@.len() == 11);
            assert("api_id"@.len() == 6);
            assert("stage_name"@.len() == 10);
            assert(path_mapping_resource@.fields =~= self.spec_path_mapping_resource(domain).fields);
        }
        gateway_resource.create_terraform().combine(&path_mapping_resource.create_terraform())
    }

    /// Renders the blocks of the nodes.
    fn render_paths(&self, resource_paths: &Vec<ResourcePath>) -> (tf: Terraform)
        ensures
            tf@ == join(self.spec_path_blocks(path_views(resource_paths@)), "\n"@),
    {
        let ghost paths = path_views(resource_paths@);
        let mut blocks: Vec<String> = Vec::new();
        let mut i: usize = 0;
        while i < resource_paths.len()
            invariant
                i <= resource_paths.len(),
                paths == path_views(resource_paths@),
                texts(blocks@) == self.spec_path_blocks(paths).take(i as int),
            decreases resource_paths.len() - i,
        {
            let ghost before = texts(blocks@);
            let block = resource_paths[i].create_terraform(self);
            blocks.push(block.0);
            assert(texts(blocks@) =~= before.push(block@));
            assert(texts(blocks@) =~= self.spec_path_blocks(paths).take(i + 1));
            i += 1;
        }
        assert(texts(blocks@) =~= self.spec_path_blocks(paths));
        Terraform(join_texts(&blocks, "\n"))
    }

    /// Renders the blocks of the endpoints, in the order of their names.
    fn render_endpoints(&self, resource_paths: &Vec<ResourcePath>, found: &Vec<usize>) -> (tf:
        Terraform)
        requires
            self.located(resource_paths@, found@),
        ensures
            tf@ == join(self.spec_endpoint_blocks(), "\n"@),
    {
        let names = self.names();
        let order = sort_order(&names);
        let ghost ordered = self.spec_ordered();
        proof {
            assert forall|i: int| 0 <= i < order.len() implies 0 <= #[trigger] order[i]
                < self.endpoints.len() && ordered[i] == self.endpoints[order[i] as int] by {
                assert(indices(order@)[i] == order[i] as int);
            }
        }
        let mut blocks: Vec<String> = Vec::new();
        let mut k: usize = 0;
        while k < order.len()
            invariant
                k <= order.len(),
                order.len() == self.endpoints.len(),
                self.located(resource_paths@, found@),
                ordered == self.spec_ordered(),
                forall|i: int|
                    0 <= i < order.len() ==> 0 <= #[trigger] order[i] < self.endpoints.len()
                        && ordered[i] == self.endpoints[order[i] as int],
                texts(blocks@) == self.spec_endpoint_blocks().take(k as int),
            decreases order.len() - k,
        {
            let ghost before = texts(blocks@);
            let at = order[k];
            let endpoint = &self.endpoints[at];
            let path = &resource_paths[found[at]];
            let block = endpoint.create_terraform(self, path);
            blocks.push(block.0);
            assert(texts(blocks@) =~= before.push(block@));
            assert(texts(blocks@) =~= self.spec_endpoint_blocks().take(k + 1));
            k += 1;
        }
        assert(texts(blocks@) =~= self.spec_endpoint_blocks());
        Terraform(join_texts(&blocks, "\n"))
    }

    /// Compiles the gateway with the nodes of its resource tree handed in:
    /// checks the endpoints and the nodes, then renders every block.
    ///
    /// Nothing is rendered unless every check has passed.
    pub fn compile(&self, resource_paths: &Vec<ResourcePath>) -> (r: Result<
        Terraform,
        CompileError,
    >)
        ensures
            match r {
                Ok(tf) => self.spec_compile_failure(path_views(resource_paths@)) is None && tf@
                    == self.spec_document(path_views(resource_paths@)),
                Err(e) => self.spec_compile_failure(path_views(resource_paths@)) == Some(e@),
            },
    {
        let found = match self.check(resource_paths) {
            Ok(found) => found,
            Err(e) => {
                return Err(e);
            },
        };
        let domain = match &self.domain {
            Some(domain) => domain,
            None => {
                return Err(CompileError::MissingDomainConfiguration { gateway: self.name.clone() });
            },
        };
        let gateway_tf = self.render_gateway(domain);
        let resource_tf = self.render_paths(resource_paths);
        let deployment = GatewayDeployment { gateway: self };
        let deployment_tf = deployment.create_terraform();
        let endpoints_tf = self.render_endpoints(resource_paths, &found);
        let stage = Stage { stage_name: self.stage_name.clone() };
        assert(stage == self.spec_stage());
        let stage_tf = stage.create_terraform(self, &deployment);
        Ok(
            gateway_tf.combine(&stage_tf).combine(&resource_tf).combine(&endpoints_tf).combine(
                &deployment_tf,
            ),
        )
    }

    /// The routes of the endpoints, in the order in which they were given.
    pub fn routes(&self) -> (routes: Vec<String>)
        ensures
            texts(routes@) == self.spec_routes(),
            routes.len() == self.endpoints.len(),
    {
        let mut routes: Vec<String> = Vec::new();
        let mut i: usize = 0;
        while i < self.endpoints.len()
            invariant
                i <= self.endpoints.len(),
                routes.len() == i,
                texts(routes@) == self.spec_routes().take(i as int),
            decreases self.endpoints.len() - i,
        {
            let ghost before = texts(routes@);
            let route = self.endpoints[i].route.clone();
            routes.push(route);
            assert(texts(routes@) =~= before.push(route@));
            assert(texts(routes@) =~= self.spec_routes().take(i + 1));
            i += 1;
        }
        assert(texts(routes@) =~= self.spec_routes());
        routes
    }

    /// The nodes of the gateway's resource tree: the only sequence of nodes
    /// that resolves the routes of the endpoints.
    pub open spec fn spec_paths(&self) -> Seq<PathView> {
        choose|paths: Seq<PathView>| resolves(self, self.spec_routes(), paths)
    }

    /// Resolves the routes of the endpoints into the nodes of the resource
    /// tree. A route with an empty segment is refused; the first such route
    /// is reported.
    pub fn resolve_paths(&self) -> (r: Result<Vec<ResourcePath>, CompileError>)
        ensures
            match r {
                Ok(paths) => all_valid(self.spec_routes()) && resolves(
                    self,
                    self.spec_routes(),
                    path_views(paths@),
                ) && path_views(paths@) == self.spec_paths(),
                Err(e) => !all_valid(self.spec_routes()) && e@ == (ErrorView::InvalidRoute {
                    route: self.spec_routes()[first_invalid(self.spec_routes())],
                }),
            },
    {
        let listed = self.routes();
        let paths = match resolve(self, &listed) {
            Ok(paths) => paths,
            Err(e) => {
                return Err(e);
            },
        };
        proof {
            lemma_resolution_unique(
                self,
                self.spec_routes(),
                self.spec_routes(),
                path_views(paths@),
                self.spec_paths(),
            );
        }
        Ok(paths)
    }

    /// Why the gateway cannot be compiled, if it cannot. The first of
    /// these that holds decides: two endpoints share a name, whatever the
    /// capitalization; a route has an
    /// empty segment; the gateway has no domain; two endpoints share a
    /// function; two nodes of the resource tree share an identifier.
    pub open spec fn spec_failure(&self) -> Option<ErrorView> {
        let names = self.spec_names();
        let routes = self.spec_routes();
        if !distinct(lowercased(names)) {
            Some(ErrorView::DuplicateName { name: names[first_repeat(lowercased(names))] })
        } else if !all_valid(routes) {
            Some(ErrorView::InvalidRoute { route: routes[first_invalid(routes)] })
        } else {
            self.spec_compile_failure(self.spec_paths())
        }
    }

    /// Compiles the gateway: resolves the routes into the nodes of the
    /// resource tree, checks the endpoints and the nodes, and renders the
    /// document.
    ///
    /// The document depends on the set of endpoints alone, not on their
    /// order: nodes are written in the order of their paths, endpoints in
    /// the order of their names. Every route finds its node, so no route is
    /// left unresolved.
    pub fn create_terraform(&self) -> (r: Result<Terraform, CompileError>)
        ensures
            match r {
                Ok(tf) => self.spec_failure() is None && tf@ == self.spec_document(
                    self.spec_paths(),
                ),
                Err(e) => self.spec_failure() == Some(e@) && !(e@ is UnresolvedRoute),
            },
    {
        let names = self.names();
        match find_repeated_name(&names) {
            Some(i) => {
                return Err(CompileError::DuplicateName { name: names[i].clone() });
            },
            None => {},
        }
        let paths = match self.resolve_paths() {
            Ok(paths) => paths,
            Err(e) => {
                return Err(e);
            },
        };
        proof {
            lemma_routes_resolved(self, self.spec_routes(), self.spec_paths());
        }
        self.compile(&paths)
    }
}

} // verus!
