//! From the loaded configuration to the documents of a whole deployment:
//! the endpoints are grouped by the domain under which they are served, and
//! each domain gets a gateway and a document of its own.

use crate::cloud::api::{ApiDefinition, DefinitionView};
use crate::config::api::api_config::{ApiConfig, EndpointView};
use crate::stack::api::deployment::GatewayDeployment;
use crate::stack::api::domain_name::Domain;
use crate::stack::api::endpoint::ApiEndpoint;
use crate::stack::api::error::{CompileError, ErrorView};
use crate::stack::api::gateway::ApiGateway;
use crate::stack::api::laws::{
    alike, alike_endpoints, lemma_alike_compile_alike, lemma_dependencies_complete,
};
use crate::stack::iam::role::Role;
use crate::stack::lambda::{LambdaFunction, LambdaRuntime};
use crate::stack::region::Provider;
use crate::stack::tf::{dependencies, render_block, FieldView, Terraform};
use crate::stack::{share, Shared};
use crate::text::{clone_texts, join, join_texts, lemma_once, once, same_text, texts};
use vstd::prelude::*;
use vstd::string::*;

verus! {

/// The endpoints that are served under one domain.
#[derive(Debug)]
pub struct DomainGroup {
    pub domain: String,
    pub endpoints: Vec<ApiDefinition>,
}

/// What each of the definitions says.
pub open spec fn definition_views(definitions: Seq<ApiDefinition>) -> Seq<DefinitionView> {
    Seq::new(definitions.len(), |i: int| definitions[i]@)
}

/// The definition of an endpoint of an API that lies at `root`.
pub open spec fn definition_of(endpoint: EndpointView, root: Seq<char>) -> DefinitionView {
    DefinitionView {
        name: endpoint.name,
        method: endpoint.method,
        route: endpoint.route,
        file: endpoint.file,
        root,
        read: endpoint.read,
        write: endpoint.write,
    }
}

/// The definitions of the endpoints of an API, in order.
pub open spec fn definitions_in(api: &ApiConfig) -> Seq<DefinitionView> {
    Seq::new(api.endpoints.len() as nat, |i: int| definition_of(api.endpoints[i]@, api.root@))
}

/// The definitions of the endpoints of all APIs that are served under
/// `domain`, API after API.
pub open spec fn in_domain(apis: Seq<ApiConfig>, domain: Seq<char>) -> Seq<DefinitionView>
    decreases apis.len(),
{
    if apis.len() == 0 {
        Seq::empty()
    } else if apis.last().domain@ == domain {
        in_domain(apis.drop_last(), domain) + definitions_in(&apis.last())
    } else {
        in_domain(apis.drop_last(), domain)
    }
}

/// The domains of the APIs, in order.
pub open spec fn domains_of(apis: Seq<ApiConfig>) -> Seq<Seq<char>> {
    Seq::new(apis.len(), |i: int| apis[i].domain@)
}

/// The domains of the groups, in order.
pub open spec fn group_domains(groups: Seq<DomainGroup>) -> Seq<Seq<char>> {
    Seq::new(groups.len(), |i: int| groups[i].domain@)
}

/// Whether the groups are the APIs grouped by domain: one group for each
/// domain, in the order in which the domains first come, and in each group
/// the endpoints of the APIs of that domain, and no others.
pub open spec fn grouped(apis: Seq<ApiConfig>, groups: Seq<DomainGroup>) -> bool {
    &&& group_domains(groups) == once(domains_of(apis))
    &&& forall|g: int|
        0 <= g < groups.len() ==> definition_views((#[trigger] groups[g]).endpoints@) == in_domain(
            apis,
            groups[g].domain@,
        )
}

proof fn lemma_in_domain_empty(apis: Seq<ApiConfig>, domain: Seq<char>)
    requires
        !domains_of(apis).contains(domain),
    ensures
        in_domain(apis, domain) == Seq::<DefinitionView>::empty(),
    decreases apis.len(),
{
    if apis.len() > 0 {
        assert(domains_of(apis)[apis.len() - 1] == apis.last().domain@);
        assert forall|t: Seq<char>| domains_of(apis.drop_last()).contains(t) implies domains_of(
            apis,
        ).contains(t) by {
            let x = choose|x: int|
                0 <= x < domains_of(apis.drop_last()).len() && domains_of(apis.drop_last())[x] == t;
            assert(domains_of(apis)[x] == t);
        }
        lemma_in_domain_empty(apis.drop_last(), domain);
    }
}

/// Every definition of a domain comes from an API of that domain.
pub proof fn lemma_in_domain_member(apis: Seq<ApiConfig>, domain: Seq<char>, k: int)
    requires
        0 <= k < in_domain(apis, domain).len(),
    ensures
        exists|x: int, y: int|
            0 <= x < apis.len() && 0 <= y < apis[x].endpoints.len() && apis[x].domain@ == domain
                && in_domain(apis, domain)[k] == #[trigger] definition_of(
                apis[x].endpoints[y]@,
                apis[x].root@,
            ),
    decreases apis.len(),
{
    if apis.len() > 0 {
        let init = apis.drop_last();
        let last = apis.last();
        let before = in_domain(init, domain);
        if k < before.len() {
            lemma_in_domain_member(init, domain, k);
            let (x, y) = choose|x: int, y: int|
                0 <= x < init.len() && 0 <= y < init[x].endpoints.len() && init[x].domain@ == domain
                    && before[k] == #[trigger] definition_of(init[x].endpoints[y]@, init[x].root@);
            assert(apis[x] == init[x]);
            assert(in_domain(apis, domain)[k] == definition_of(
                apis[x].endpoints[y]@,
                apis[x].root@,
            ));
        } else {
            let x = apis.len() - 1;
            let y = k - before.len();
            assert(in_domain(apis, domain)[k] == definition_of(
                apis[x].endpoints[y]@,
                apis[x].root@,
            ));
        }
    }
}

fn find_group(groups: &Vec<DomainGroup>, domain: &str) -> (r: Option<usize>)
    ensures
        match r {
            Some(g) => g < groups.len() && groups[g as int].domain@ == domain@,
            None => !group_domains(groups@).contains(domain@),
        },
{
    let mut g: usize = 0;
    while g < groups.len()
        invariant
            g <= groups.len(),
            forall|j: int| 0 <= j < g ==> #[trigger] group_domains(groups@)[j] != domain@,
        decreases groups.len() - g,
    {
        if same_text(groups[g].domain.as_str(), domain) {
            return Some(g);
        }
        g += 1;
    }
    None
}

fn append_definitions(list: &mut Vec<ApiDefinition>, api: &ApiConfig)
    ensures
        definition_views(final(list)@) == definition_views(old(list)@) + definitions_in(api),
{
    let ghost before = definition_views(list@);
    let mut i: usize = 0;
    assert(definition_views(list@) =~= before + definitions_in(api).take(0));
    while i < api.endpoints.len()
        invariant
            i <= api.endpoints.len(),
            definition_views(list@) == before + definitions_in(api).take(i as int),
        decreases api.endpoints.len() - i,
    {
        let ghost listed = definition_views(list@);
        let endpoint = &api.endpoints[i];
        let definition = ApiDefinition {
            name: endpoint.name.clone(),
            method: endpoint.method,
            route: endpoint.route.clone(),
            file: endpoint.file.clone(),
            root: api.root.clone(),
            read: clone_texts(&endpoint.read),
            write: clone_texts(&endpoint.write),
        };
        assert(definition@ == definition_of(endpoint@, api.root@));
        list.push(definition);
        assert(definition_views(list@) =~= listed.push(definition@));
        assert(listed.push(definition@) =~= before + definitions_in(api).take(i + 1));
        i += 1;
    }
    assert(definitions_in(api).take(api.endpoints.len() as int) =~= definitions_in(api));
}

/// Groups the endpoints of the APIs by the domain under which they are
/// served.
pub fn group_by_domain(apis: &Vec<ApiConfig>) -> (groups: Vec<DomainGroup>)
    ensures
        grouped(apis@, groups@),
{
    let mut groups: Vec<DomainGroup> = Vec::new();
    let mut i: usize = 0;
    proof {
        assert(apis@.take(0) =~= Seq::empty());
        assert(group_domains(groups@) =~= once(domains_of(apis@.take(0))));
    }
    while i < apis.len()
        invariant
            i <= apis.len(),
            grouped(apis@.take(i as int), groups@),
        decreases apis.len() - i,
    {
        let api = &apis[i];
        let ghost done = apis@.take(i as int);
        let ghost now = apis@.take(i + 1);
        let ghost before = groups@;
        proof {
            assert(now.drop_last() =~= done);
            assert(now.last() == apis@[i as int]);
            assert(domains_of(now).drop_last() =~= domains_of(done));
            assert(domains_of(now).last() == api.domain@);
            lemma_once(domains_of(done));
        }
        let g = match find_group(&groups, api.domain.as_str()) {
            Some(g) => {
                proof {
                    assert(group_domains(before)[g as int] == api.domain@);
                    assert(once(domains_of(done)).contains(api.domain@));
                    assert(once(domains_of(now)) == once(domains_of(done)));
                }
                g
            },
            None => {
                groups.push(DomainGroup { domain: api.domain.clone(), endpoints: Vec::new() });
                proof {
                    assert(!once(domains_of(done)).contains(api.domain@));
                    assert(once(domains_of(now)) == once(domains_of(done)).push(api.domain@));
                    lemma_in_domain_empty(done, api.domain@);
                    assert(group_domains(groups@) =~= group_domains(before).push(api.domain@));
                    assert(definition_views(groups@[before.len() as int].endpoints@)
                        =~= Seq::<DefinitionView>::empty());
                }
                groups.len() - 1
            },
        };
        let ghost mid = groups@;
        proof {
            assert(group_domains(mid) == once(domains_of(now)));
            assert forall|k: int| 0 <= k < mid.len() implies definition_views(
                (#[trigger] mid[k]).endpoints@,
            ) == in_domain(done, mid[k].domain@) by {
                if k < before.len() {
                    assert(mid[k] == before[k]);
                }
            }
        }
        let mut group = groups.remove(g);
        append_definitions(&mut group.endpoints, api);
        groups.insert(g, group);
        proof {
            assert(groups@ =~= mid.update(g as int, group));
            assert(group_domains(groups@) =~= group_domains(mid));
            assert(distinct_domains(group_domains(mid))) by {
                lemma_once(domains_of(now));
            }
            assert forall|k: int| 0 <= k < groups.len() implies definition_views(
                (#[trigger] groups@[k]).endpoints@,
            ) == in_domain(now, groups@[k].domain@) by {
                if k != g {
                    assert(groups@[k] == mid[k]);
                    assert(group_domains(mid)[k] != group_domains(mid)[g as int]);
                }
            }
        }
        i += 1;
    }
    proof {
        assert(apis@.take(apis.len() as int) =~= apis@);
    }
    groups
}

/// No domain occurs twice.
pub open spec fn distinct_domains(domains: Seq<Seq<char>>) -> bool {
    forall|i: int, j: int| 0 <= i < domains.len() && 0 <= j < domains.len() && i != j ==> #[trigger] domains[i]
        != #[trigger] domains[j]
}

/// Whether the endpoint is the one that the definition stands for: the
/// function is the file of the definition below the root of its API, run
/// under `role`.
pub open spec fn endpoint_built(
    endpoint: &ApiEndpoint,
    definition: DefinitionView,
    role: &Shared<Role>,
) -> bool {
    &&& endpoint.name@ == definition.name
    &&& endpoint.http_method == definition.method
    &&& endpoint.route@ == definition.route
    &&& endpoint.lambda.file_path@ == definition.root + "/"@ + definition.file
    &&& endpoint.lambda.runtime == LambdaRuntime::NodeJs20
    &&& endpoint.lambda.role == *role
    &&& endpoint.lambda.environment_variables@.len() == 0
}

/// Whether the gateway is the one of the group: named after the domain,
/// served under `domain`, with the endpoints of the group and no others.
pub open spec fn gateway_built(
    gateway: &ApiGateway,
    group: &DomainGroup,
    domain: &Shared<Domain>,
    role: &Shared<Role>,
    stage_name: Seq<char>,
) -> bool {
    &&& gateway.name@ == group.domain@
    &&& gateway.stage_name@ == stage_name
    &&& gateway.domain == Some(*domain)
    &&& gateway.endpoints.len() == group.endpoints.len()
    &&& forall|i: int|
        0 <= i < gateway.endpoints.len() ==> endpoint_built(
            #[trigger] &gateway.endpoints[i],
            group.endpoints[i]@,
            role,
        )
}

/// Makes the gateway of a group of endpoints.
pub fn gateway_of(
    group: &DomainGroup,
    domain: &Shared<Domain>,
    role: &Shared<Role>,
    stage_name: &str,
) -> (gateway: ApiGateway)
    ensures
        gateway_built(&gateway, group, domain, role, stage_name@),
{
    let mut endpoints: Vec<ApiEndpoint> = Vec::new();
    let mut i: usize = 0;
    while i < group.endpoints.len()
        invariant
            i <= group.endpoints.len(),
            endpoints.len() == i,
            forall|k: int|
                0 <= k < i ==> endpoint_built(#[trigger] &endpoints[k], group.endpoints[k]@, role),
        decreases group.endpoints.len() - i,
    {
        let definition = &group.endpoints[i];
        let mut file_path = definition.root.clone();
        file_path.append("/");
        file_path.append(definition.file.as_str());
        let endpoint = ApiEndpoint {
            name: definition.name.clone(),
            lambda: LambdaFunction {
                role: share(role),
                runtime: LambdaRuntime::NodeJs20,
                file_path,
                environment_variables: Vec::new(),
            },
            http_method: definition.method,
            route: definition.route.clone(),
        };
        endpoints.push(endpoint);
        i += 1;
    }
    ApiGateway {
        name: group.domain.clone(),
        domain: Some(share(domain)),
        stage_name: stage_name.to_owned(),
        endpoints,
    }
}

/// Whether a domain of this name is registered.
pub open spec fn registered(domains: Seq<Shared<Domain>>, name: Seq<char>) -> bool {
    exists|k: int| 0 <= k < domains.len() && (#[trigger] domains[k]).certificate.domain@ == name
}

/// `k` is the first registered domain of this name.
pub open spec fn registered_at(domains: Seq<Shared<Domain>>, name: Seq<char>, k: int) -> bool {
    &&& 0 <= k < domains.len()
    &&& domains[k].certificate.domain@ == name
    &&& forall|j: int| 0 <= j < k ==> (#[trigger] domains[j]).certificate.domain@ != name
}

/// Looks for the registered domain of a name.
pub fn find_domain(domains: &Vec<Shared<Domain>>, name: &str) -> (r: Option<usize>)
    ensures
        match r {
            Some(k) => registered_at(domains@, name@, k as int),
            None => !registered(domains@, name@),
        },
{
    let mut k: usize = 0;
    while k < domains.len()
        invariant
            k <= domains.len(),
            forall|j: int| 0 <= j < k ==> (#[trigger] domains[j]).certificate.domain@ != name@,
        decreases domains.len() - k,
    {
        if same_text(domains[k].certificate.domain.as_str(), name) {
            return Some(k);
        }
        k += 1;
    }
    None
}

/// The document of a gateway with the nodes of its own routes.
#[verifier::opaque]
pub open spec fn document_of(gateway: ApiGateway) -> Seq<char> {
    gateway.spec_document(gateway.spec_paths())
}

/// Why a gateway cannot be compiled, if it cannot.
#[verifier::opaque]
pub open spec fn failure_of(gateway: ApiGateway) -> Option<ErrorView> {
    gateway.spec_failure()
}

/// Whether the gateway can be compiled.
pub open spec fn compiles(gateway: ApiGateway) -> bool {
    failure_of(gateway) is None
}

/// The document of a domain: the provider, the role, the certificate and
/// the domain of the gateway, and the gateway with all that hangs on it.
pub open spec fn domain_document(
    provider: &Provider,
    role: &Shared<Role>,
    gateway: ApiGateway,
) -> Seq<char> {
    join(
        seq![
            provider.spec_terraform(),
            render_block(role.spec_resource()),
            render_block(gateway.domain->Some_0.certificate.spec_resource()),
            render_block(gateway.domain->Some_0.spec_resource()),
            document_of(gateway),
        ],
        "\n"@,
    )
}

/// The documents of the gateways, one for each, in order.
pub open spec fn domain_documents(
    provider: &Provider,
    role: &Shared<Role>,
    gateways: Seq<ApiGateway>,
) -> Seq<Seq<char>> {
    Seq::new(gateways.len(), |i: int| domain_document(provider, role, gateways[i]))
}

fn compile_gateway(gateway: &ApiGateway) -> (r: Result<Terraform, CompileError>)
    ensures
        match r {
            Ok(tf) => failure_of(*gateway) is None && gateway.domain is Some && tf@ == document_of(
                *gateway,
            ),
            Err(e) => failure_of(*gateway) == Some(e@),
        },
{
    reveal(document_of);
    reveal(failure_of);
    gateway.create_terraform()
}

fn shared_parts(provider: &Provider, role: &Shared<Role>, domain: &Domain) -> (parts: Vec<String>)
    ensures
        texts(parts@) == seq![
            provider.spec_terraform(),
            render_block(role.spec_resource()),
            render_block(domain.certificate.spec_resource()),
            render_block(domain.spec_resource()),
        ],
{
    let mut parts: Vec<String> = Vec::new();
    parts.push(provider.create_terraform().0);
    parts.push(role.create_terraform().0);
    parts.push(domain.certificate.create_terraform().0);
    parts.push(domain.create_terraform().0);
    assert(texts(parts@) =~= seq![
        provider.spec_terraform(),
        render_block(role.spec_resource()),
        render_block(domain.certificate.spec_resource()),
        render_block(domain.spec_resource()),
    ]);
    parts
}

/// Compiles the document of a domain. Every domain is compiled for itself,
/// so that nothing of one domain shows in the document of another.
pub fn compile_domain(provider: &Provider, role: &Shared<Role>, gateway: &ApiGateway) -> (r:
    Result<Terraform, CompileError>)
    ensures
        match r {
            Ok(tf) => failure_of(*gateway) is None && gateway.domain is Some && tf@
                == domain_document(provider, role, *gateway),
            Err(e) => failure_of(*gateway) == Some(e@),
        },
{
    let document = match compile_gateway(gateway) {
        Ok(document) => document,
        Err(e) => {
            return Err(e);
        },
    };
    let mut parts = match &gateway.domain {
        Some(domain) => shared_parts(provider, role, domain),
        None => Vec::new(),
    };
    let ghost before = texts(parts@);
    parts.push(document.0);
    assert(texts(parts@) =~= before.push(document@));
    assert(before.push(document@) =~= seq![
        provider.spec_terraform(),
        render_block(role.spec_resource()),
        render_block(gateway.domain->Some_0.certificate.spec_resource()),
        render_block(gateway.domain->Some_0.spec_resource()),
        document_of(*gateway),
    ]);
    Ok(Terraform(join_texts(&parts, "\n")))
}

/// `i` is the first gateway that cannot be compiled.
pub open spec fn first_failing_at(gateways: Seq<ApiGateway>, i: int) -> bool {
    &&& 0 <= i < gateways.len()
    &&& !compiles(gateways[i])
    &&& forall|j: int| 0 <= j < i ==> compiles(#[trigger] gateways[j])
}

/// Whether every gateway can be compiled.
pub open spec fn all_compile(gateways: Seq<ApiGateway>) -> bool {
    forall|j: int| 0 <= j < gateways.len() ==> compiles(#[trigger] gateways[j])
}

/// Why the gateways cannot be compiled, if they cannot: the failure of the
/// first gateway that has one.
pub open spec fn spec_cloud_failure(gateways: Seq<ApiGateway>) -> Option<ErrorView> {
    if all_compile(gateways) {
        None
    } else {
        failure_of(gateways[choose|i: int| first_failing_at(gateways, i)])
    }
}

/// What each of the documents holds.
pub open spec fn document_texts(documents: Seq<Terraform>) -> Seq<Seq<char>> {
    Seq::new(documents.len(), |i: int| documents[i]@)
}

/// Compiles the document of each gateway, in order. The first gateway that
/// cannot be compiled ends the compilation with its error.
pub fn compile_domains(provider: &Provider, role: &Shared<Role>, gateways: &Vec<ApiGateway>) -> (r:
    Result<Vec<Terraform>, CompileError>)
    ensures
        match r {
            Ok(documents) => spec_cloud_failure(gateways@) is None && document_texts(documents@)
                == domain_documents(provider, role, gateways@),
            Err(e) => spec_cloud_failure(gateways@) == Some(e@),
        },
{
    let mut documents: Vec<Terraform> = Vec::new();
    let mut i: usize = 0;
    proof {
        assert(document_texts(documents@) =~= domain_documents(provider, role, gateways@).take(0));
    }
    while i < gateways.len()
        invariant
            i <= gateways.len(),
            forall|j: int| 0 <= j < i ==> compiles(#[trigger] gateways[j]),
            document_texts(documents@) == domain_documents(provider, role, gateways@).take(
                i as int,
            ),
        decreases gateways.len() - i,
    {
        let ghost before = document_texts(documents@);
        match compile_domain(provider, role, &gateways[i]) {
            Ok(document) => {
                documents.push(document);
                proof {
                    assert(document_texts(documents@) =~= before.push(document@));
                    assert(before.push(document@) =~= domain_documents(
                        provider,
                        role,
                        gateways@,
                    ).take(i + 1));
                }
            },
            Err(e) => {
                proof {
                    assert(!compiles(gateways@[i as int]));
                    assert(first_failing_at(gateways@, i as int));
                    let other = choose|x: int| first_failing_at(gateways@, x);
                    assert(first_failing_at(gateways@, other));
                    assert(other == i);
                }
                return Err(e);
            },
        }
        i += 1;
    }
    proof {
        assert(domain_documents(provider, role, gateways@).take(gateways.len() as int)
            =~= domain_documents(provider, role, gateways@));
    }
    Ok(documents)
}

/// `g` is the first name for which no domain is registered.
pub open spec fn first_unregistered_at(
    names: Seq<Seq<char>>,
    domains: Seq<Shared<Domain>>,
    g: int,
) -> bool {
    &&& 0 <= g < names.len()
    &&& !registered(domains, names[g])
    &&& forall|j: int| 0 <= j < g ==> registered(domains, #[trigger] names[j])
}

/// Whether a domain is registered for every name.
pub open spec fn all_registered(names: Seq<Seq<char>>, domains: Seq<Shared<Domain>>) -> bool {
    forall|j: int| 0 <= j < names.len() ==> registered(domains, #[trigger] names[j])
}

/// The first name for which no domain is registered, where there is one.
pub open spec fn first_unregistered(names: Seq<Seq<char>>, domains: Seq<Shared<Domain>>) -> int {
    choose|g: int| first_unregistered_at(names, domains, g)
}

/// Whether the gateway is the one of the group, served under the first
/// registered domain of the group's name.
pub open spec fn served(
    domains: Seq<Shared<Domain>>,
    gateway: &ApiGateway,
    group: &DomainGroup,
    role: &Shared<Role>,
    stage_name: Seq<char>,
) -> bool {
    exists|k: int|
        registered_at(domains, group.domain@, k) && #[trigger] gateway_built(
            gateway,
            group,
            &domains[k],
            role,
            stage_name,
        )
}

/// Whether the gateways are those of the APIs: one for each domain, in the
/// order in which the domains first come, each served under the first
/// registered domain of its name and holding the endpoints of the APIs of
/// that domain, and no others.
pub open spec fn cloud_built(
    apis: Seq<ApiConfig>,
    domains: Seq<Shared<Domain>>,
    role: &Shared<Role>,
    stage_name: Seq<char>,
    gateways: Seq<ApiGateway>,
) -> bool {
    exists|groups: Seq<DomainGroup>| #[trigger]
        grouped(apis, groups) && gateways.len() == groups.len() && forall|g: int|
            0 <= g < groups.len() ==> #[trigger] served(
                domains,
                &gateways[g],
                &groups[g],
                role,
                stage_name,
            )
}

/// Makes the gateways of the APIs: groups the endpoints by domain and makes
/// one gateway for each group. A group for whose domain none is registered
/// ends the making; the first such group is reported.
pub fn build_gateways(
    role: &Shared<Role>,
    domains: &Vec<Shared<Domain>>,
    stage_name: &str,
    apis: &Vec<ApiConfig>,
) -> (r: Result<Vec<ApiGateway>, CompileError>)
    ensures
        match r {
            Ok(gateways) => all_registered(once(domains_of(apis@)), domains@) && cloud_built(
                apis@,
                domains@,
                role,
                stage_name@,
                gateways@,
            ),
            Err(e) => !all_registered(once(domains_of(apis@)), domains@) && e@ == (
            ErrorView::MissingDomainConfiguration {
                gateway: once(domains_of(apis@))[first_unregistered(
                    once(domains_of(apis@)),
                    domains@,
                )],
            }),
        },
{
    let groups = group_by_domain(apis);
    let ghost names = once(domains_of(apis@));
    let mut gateways: Vec<ApiGateway> = Vec::new();
    let mut g: usize = 0;
    while g < groups.len()
        invariant
            g <= groups.len(),
            gateways.len() == g,
            grouped(apis@, groups@),
            names == once(domains_of(apis@)),
            forall|j: int| 0 <= j < g ==> registered(domains@, #[trigger] names[j]),
            forall|j: int|
                0 <= j < g ==> #[trigger] served(
                    domains@,
                    &gateways[j],
                    &groups[j],
                    role,
                    stage_name@,
                ),
        decreases groups.len() - g,
    {
        assert(group_domains(groups@)[g as int] == groups[g as int].domain@);
        match find_domain(domains, groups[g].domain.as_str()) {
            Some(k) => {
                let gateway = gateway_of(&groups[g], &domains[k], role, stage_name);
                let ghost before = gateways@;
                gateways.push(gateway);
                proof {
                    assert forall|j: int| 0 <= j < g + 1 implies #[trigger] served(
                        domains@,
                        &gateways[j],
                        &groups[j],
                        role,
                        stage_name@,
                    ) by {
                        if j < g {
                            assert(gateways[j] == before[j]);
                            assert(served(domains@, &before[j], &groups[j], role, stage_name@));
                        } else {
                            assert(gateway_built(
                                &gateways[j],
                                &groups[j],
                                &domains[k as int],
                                role,
                                stage_name@,
                            ));
                        }
                    }
                }
            },
            None => {
                proof {
                    assert(first_unregistered_at(names, domains@, g as int));
                    let other = first_unregistered(names, domains@);
                    assert(first_unregistered_at(names, domains@, other));
                    assert(other == g);
                }
                return Err(
                    CompileError::MissingDomainConfiguration { gateway: groups[g].domain.clone() },
                );
            },
        }
        g += 1;
    }
    proof {
        assert(all_registered(names, domains@));
        assert(grouped(apis@, groups@) && gateways@.len() == groups@.len());
    }
    Ok(gateways)
}

/// The addresses of the method and of the integration of an endpoint whose
/// function is the file at `file_path`.
pub open spec fn is_address_of(file_path: Seq<char>, address: Seq<char>) -> bool {
    let function = "lambda_"@ + crate::text::decimal(crate::text::text_hash(file_path) as nat);
    ||| address == crate::stack::tf::render_address(
        crate::stack::tf::TfDataType::Resource,
        "aws_api_gateway_method"@,
        "endpoint_"@ + function,
    )
    ||| address == crate::stack::tf::render_address(
        crate::stack::tf::TfDataType::Resource,
        "aws_api_gateway_integration"@,
        "integration_"@ + ("endpoint_"@ + function),
    )
}

/// Cross-domain isolation: whatever the deployment of the gateway of a
/// domain depends on is the method or the integration of an endpoint of an
/// API of that same domain. Endpoints of other domains do not come in.
pub proof fn lemma_domains_isolated(
    apis: Seq<ApiConfig>,
    group: &DomainGroup,
    gateway: &ApiGateway,
    domain: &Shared<Domain>,
    role: &Shared<Role>,
    stage_name: Seq<char>,
    address: Seq<char>,
)
    requires
        definition_views(group.endpoints@) == in_domain(apis, group.domain@),
        gateway_built(gateway, group, domain, role, stage_name),
        dependencies((GatewayDeployment { gateway }).spec_resource().fields).contains(
            FieldView::Raw(address),
        ),
    ensures
        exists|x: int, y: int|
            0 <= x < apis.len() && 0 <= y < apis[x].endpoints.len() && apis[x].domain@
                == group.domain@ && #[trigger] is_address_of(
                apis[x].root@ + "/"@ + apis[x].endpoints[y].file@,
                address,
            ),
{
    lemma_dependencies_complete(gateway, address);
    let i = choose|i: int|
        0 <= i < gateway.endpoints.len() && (address == (
        #[trigger] gateway.endpoints@[i]).spec_method_address() || address
            == gateway.endpoints@[i].spec_integration_address());
    let endpoint = gateway.endpoints@[i];
    assert(endpoint_built(&gateway.endpoints[i], group.endpoints[i]@, role));
    assert(definition_views(group.endpoints@)[i] == group.endpoints[i]@);
    lemma_in_domain_member(apis, group.domain@, i);
    let (x, y) = choose|x: int, y: int|
        0 <= x < apis.len() && 0 <= y < apis[x].endpoints.len() && apis[x].domain@ == group.domain@
            && in_domain(apis, group.domain@)[i] == #[trigger] definition_of(
            apis[x].endpoints[y]@,
            apis[x].root@,
        );
    assert(endpoint.lambda.file_path@ == apis[x].root@ + "/"@ + apis[x].endpoints[y].file@);
    assert(is_address_of(apis[x].root@ + "/"@ + apis[x].endpoints[y].file@, address));
}

/// The gateways of the APIs are determined in all that they say: whatever
/// gateways are those of the APIs, they are alike one by one.
pub proof fn lemma_built_alike(
    apis: Seq<ApiConfig>,
    domains: Seq<Shared<Domain>>,
    role: &Shared<Role>,
    stage_name: Seq<char>,
    a: Seq<ApiGateway>,
    b: Seq<ApiGateway>,
)
    requires
        cloud_built(apis, domains, role, stage_name, a),
        cloud_built(apis, domains, role, stage_name, b),
    ensures
        a.len() == b.len(),
        forall|g: int| 0 <= g < a.len() ==> alike(#[trigger] &a[g], &b[g]),
{
    let ga = choose|groups: Seq<DomainGroup>| #[trigger]
        grouped(apis, groups) && a.len() == groups.len() && forall|g: int|
            0 <= g < groups.len() ==> #[trigger] served(
                domains,
                &a[g],
                &groups[g],
                role,
                stage_name,
            );
    let gb = choose|groups: Seq<DomainGroup>| #[trigger]
        grouped(apis, groups) && b.len() == groups.len() && forall|g: int|
            0 <= g < groups.len() ==> #[trigger] served(
                domains,
                &b[g],
                &groups[g],
                role,
                stage_name,
            );
    assert(group_domains(ga).len() == group_domains(gb).len());
    assert forall|g: int| 0 <= g < a.len() implies alike(#[trigger] &a[g], &b[g]) by {
        assert(served(domains, &a[g], &ga[g], role, stage_name));
        assert(served(domains, &b[g], &gb[g], role, stage_name));
        let ka = choose|k: int|
            registered_at(domains, ga[g].domain@, k) && #[trigger] gateway_built(
                &a[g],
                &ga[g],
                &domains[k],
                role,
                stage_name,
            );
        let kb = choose|k: int|
            registered_at(domains, gb[g].domain@, k) && #[trigger] gateway_built(
                &b[g],
                &gb[g],
                &domains[k],
                role,
                stage_name,
            );
        assert(group_domains(ga)[g] == ga[g].domain@);
        assert(group_domains(gb)[g] == gb[g].domain@);
        assert(ka == kb);
        let da = definition_views(ga[g].endpoints@);
        let db = definition_views(gb[g].endpoints@);
        assert(da == db);
        assert(gateway_built(&a[g], &ga[g], &domains[ka], role, stage_name));
        assert(gateway_built(&b[g], &gb[g], &domains[kb], role, stage_name));
        assert(da.len() == ga[g].endpoints.len());
        assert(db.len() == gb[g].endpoints.len());
        assert(a[g].endpoints.len() == b[g].endpoints.len());
        assert forall|i: int| 0 <= i < a[g].endpoints.len() implies alike_endpoints(
            #[trigger] &a[g].endpoints[i],
            &b[g].endpoints[i],
        ) by {
            assert(endpoint_built(&a[g].endpoints[i], ga[g].endpoints[i]@, role));
            assert(endpoint_built(&b[g].endpoints[i], gb[g].endpoints[i]@, role));
            assert(da[i] == ga[g].endpoints[i]@);
            assert(db[i] == gb[g].endpoints[i]@);
            assert(crate::stack::lambda::variable_views(
                a[g].endpoints[i].lambda.environment_variables@,
            ) =~= crate::stack::lambda::variable_views(
                b[g].endpoints[i].lambda.environment_variables@,
            ));
        }
    }
}

/// The gateways of the APIs are served under the same domains, whatever
/// gateways they are.
proof fn lemma_same_domain(
    apis: Seq<ApiConfig>,
    domains: Seq<Shared<Domain>>,
    role: &Shared<Role>,
    stage_name: Seq<char>,
    a: Seq<ApiGateway>,
    b: Seq<ApiGateway>,
    g: int,
)
    requires
        cloud_built(apis, domains, role, stage_name, a),
        cloud_built(apis, domains, role, stage_name, b),
        0 <= g < a.len(),
    ensures
        a.len() == b.len(),
        a[g].domain == b[g].domain,
        a[g].domain is Some,
{
    let ga = choose|groups: Seq<DomainGroup>| #[trigger]
        grouped(apis, groups) && a.len() == groups.len() && forall|g: int|
            0 <= g < groups.len() ==> #[trigger] served(
                domains,
                &a[g],
                &groups[g],
                role,
                stage_name,
            );
    let gb = choose|groups: Seq<DomainGroup>| #[trigger]
        grouped(apis, groups) && b.len() == groups.len() && forall|g: int|
            0 <= g < groups.len() ==> #[trigger] served(
                domains,
                &b[g],
                &groups[g],
                role,
                stage_name,
            );
    assert(group_domains(ga).len() == group_domains(gb).len());
    assert(served(domains, &a[g], &ga[g], role, stage_name));
    assert(served(domains, &b[g], &gb[g], role, stage_name));
    let ka = choose|k: int|
        registered_at(domains, ga[g].domain@, k) && #[trigger] gateway_built(
            &a[g],
            &ga[g],
            &domains[k],
            role,
            stage_name,
        );
    let kb = choose|k: int|
        registered_at(domains, gb[g].domain@, k) && #[trigger] gateway_built(
            &b[g],
            &gb[g],
            &domains[k],
            role,
            stage_name,
        );
    assert(group_domains(ga)[g] == ga[g].domain@);
    assert(group_domains(gb)[g] == gb[g].domain@);
    assert(ka == kb);
}

/// The compilation of the APIs is determined: whatever gateways are those
/// of the APIs, their compilation fails for the same reason or gives the
/// same documents.
pub proof fn lemma_cloud_determined(
    provider: &Provider,
    apis: Seq<ApiConfig>,
    domains: Seq<Shared<Domain>>,
    role: &Shared<Role>,
    stage_name: Seq<char>,
    a: Seq<ApiGateway>,
    b: Seq<ApiGateway>,
)
    requires
        cloud_built(apis, domains, role, stage_name, a),
        cloud_built(apis, domains, role, stage_name, b),
    ensures
        spec_cloud_failure(a) == spec_cloud_failure(b),
        spec_cloud_failure(a) is None ==> domain_documents(provider, role, a) == domain_documents(
            provider,
            role,
            b,
        ),
{
    lemma_built_alike(apis, domains, role, stage_name, a, b);
    assert forall|g: int| 0 <= g < a.len() implies failure_of(#[trigger] a[g]) == failure_of(b[g])
        && (failure_of(a[g]) is None ==> document_of(a[g]) == document_of(b[g])) by {
        reveal(failure_of);
        reveal(document_of);
        assert(alike(&a[g], &b[g]));
        lemma_alike_compile_alike(&a[g], &b[g]);
    }
    assert forall|i: int| first_failing_at(a, i) <==> first_failing_at(b, i) by {
        if first_failing_at(a, i) {
            assert(failure_of(a[i]) == failure_of(b[i]));
            assert forall|j: int| 0 <= j < i implies compiles(#[trigger] b[j]) by {
                assert(compiles(a[j]));
                assert(failure_of(a[j]) == failure_of(b[j]));
            }
        }
        if first_failing_at(b, i) {
            assert(failure_of(a[i]) == failure_of(b[i]));
            assert forall|j: int| 0 <= j < i implies compiles(#[trigger] a[j]) by {
                assert(compiles(b[j]));
                assert(failure_of(a[j]) == failure_of(b[j]));
            }
        }
    }
    if all_compile(a) {
        assert forall|j: int| 0 <= j < b.len() implies compiles(#[trigger] b[j]) by {
            assert(compiles(a[j]));
            assert(failure_of(a[j]) == failure_of(b[j]));
        }
        assert(domain_documents(provider, role, a) =~= domain_documents(provider, role, b)) by {
            assert forall|j: int| 0 <= j < a.len() implies domain_documents(provider, role, a)[j]
                == domain_documents(provider, role, b)[j] by {
                assert(compiles(a[j]));
                assert(failure_of(a[j]) == failure_of(b[j]));
                lemma_same_domain(apis, domains, role, stage_name, a, b, j);
            }
        }
    } else {
        let j = choose|j: int| 0 <= j < a.len() && !compiles(#[trigger] a[j]);
        assert(failure_of(a[j]) == failure_of(b[j]));
        assert(!compiles(b[j]));
        lemma_first_failing(a, j);
        let i = choose|i: int| first_failing_at(a, i);
        assert(first_failing_at(b, i));
        let k = choose|k: int| first_failing_at(b, k);
        assert(first_failing_at(b, k));
        assert(i == k);
        assert(failure_of(a[i]) == failure_of(b[i]));
    }
}

proof fn lemma_first_failing(gateways: Seq<ApiGateway>, j: int)
    requires
        0 <= j < gateways.len(),
        !compiles(gateways[j]),
    ensures
        exists|i: int| first_failing_at(gateways, i),
    decreases j,
{
    if exists|x: int| 0 <= x < j && !compiles(#[trigger] gateways[x]) {
        let x = choose|x: int| 0 <= x < j && !compiles(#[trigger] gateways[x]);
        lemma_first_failing(gateways, x);
    } else {
        assert(first_failing_at(gateways, j));
    }
}

/// Compiles the APIs of a deployment: one document for each domain, in the
/// order in which the domains first come.
pub fn compile_cloud(
    provider: &Provider,
    role: &Shared<Role>,
    domains: &Vec<Shared<Domain>>,
    stage_name: &str,
    apis: &Vec<ApiConfig>,
) -> (r: Result<Vec<Terraform>, CompileError>)
    ensures
        match r {
            Ok(documents) => all_registered(once(domains_of(apis@)), domains@) && exists|
                gateways: Seq<ApiGateway>,
            | #[trigger]
                cloud_built(apis@, domains@, role, stage_name@, gateways) && spec_cloud_failure(
                    gateways,
                ) is None && document_texts(documents@) == domain_documents(
                    provider,
                    role,
                    gateways,
                ),
            Err(e) => if all_registered(once(domains_of(apis@)), domains@) {
                exists|gateways: Seq<ApiGateway>| #[trigger]
                    cloud_built(apis@, domains@, role, stage_name@, gateways) && spec_cloud_failure(
                        gateways,
                    ) == Some(e@)
            } else {
                e@ == (ErrorView::MissingDomainConfiguration {
                    gateway: once(domains_of(apis@))[first_unregistered(
                        once(domains_of(apis@)),
                        domains@,
                    )],
                })
            },
        },
{
    let gateways = match build_gateways(role, domains, stage_name, apis) {
        Ok(gateways) => gateways,
        Err(e) => {
            return Err(e);
        },
    };
    compile_domains(provider, role, &gateways)
}

} // verus!
