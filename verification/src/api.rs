//! The generator that fills templates: one file for every node of the
//! resource tree, one for every endpoint.

use crate::cloud::api::ApiDefinition;
use crate::stack::api::gateway::{path_views, ApiGateway, PathView};
use crate::stack::api::error::{CompileError, ErrorView};
use crate::stack::api::path_tree::{
    all_valid, first_invalid, is_prefix_path, resolve, resolves, segments, sep,
};
pub use crate::stack::api::path_tree::PathNode;
use crate::text::{
    decimal, decimal_string, hash_text, join, join_texts, lemma_split_pieces, replace_text,
    replaced, split_text, strictly_sorted, text_hash, texts,
};
use vstd::prelude::*;
use vstd::string::*;

verus! {

/// A file to write: where, and what.
#[derive(Clone, Debug)]
pub struct GeneratedFile {
    pub path: String,
    pub content: String,
}

/// What a file to write says.
pub struct FileView {
    pub path: Seq<char>,
    pub content: Seq<char>,
}

impl View for GeneratedFile {
    type V = FileView;

    open spec fn view(&self) -> FileView {
        FileView { path: self.path@, content: self.content@ }
    }
}

/// The route of a node: the route above it and its own segment.
pub open spec fn node_route(route_so_far: Seq<char>, subroute: Seq<char>) -> Seq<char> {
    if route_so_far.len() == 0 {
        subroute
    } else {
        route_so_far + "/"@ + subroute
    }
}

/// The reference to the node above: the root of the gateway where nothing
/// is above, else the node of the route above.
pub open spec fn node_parent(route_so_far: Seq<char>) -> Seq<char> {
    if route_so_far.len() == 0 {
        "aws_api_gateway_rest_api.api_gateway.root_resource_id"@
    } else {
        "aws_api_gateway_resource.api_resource_"@ + decimal(text_hash(route_so_far) as nat)
            + ".id"@
    }
}

/// The file of a node: the template with the hash of the node's route, the
/// node's segment and the reference to the node above filled in. The file
/// is named after the hash.
pub open spec fn node_file(
    template: Seq<char>,
    route_so_far: Seq<char>,
    subroute: Seq<char>,
) -> FileView {
    let hash = decimal(text_hash(node_route(route_so_far, subroute)) as nat);
    FileView {
        path: "terraform/generated/api/resource_path_"@ + hash + ".tf"@,
        content: replaced(
            replaced(
                replaced(template, "{resource_path_hash}"@, hash),
                "{resource_path}"@,
                subroute,
            ),
            "{parent_id}"@,
            node_parent(route_so_far),
        ),
    }
}

/// Makes the file of a node of the resource tree.
pub fn resource_path_file(template: &str, route_so_far: &str, subroute: &str) -> (file:
    GeneratedFile)
    ensures
        file@ == node_file(template@, route_so_far@, subroute@),
{
    let route_here = if route_so_far.is_empty() {
        subroute.to_owned()
    } else {
        let mut s = route_so_far.to_owned();
        s.append("/");
        s.append(subroute);
        s
    };
    let hash_here = decimal_string(hash_text(route_here.as_str()));
    let parent_id = if route_so_far.is_empty() {
        "aws_api_gateway_rest_api.api_gateway.root_resource_id".to_owned()
    } else {
        let mut s = "aws_api_gateway_resource.api_resource_".to_owned();
        s.append(decimal_string(hash_text(route_so_far)).as_str());
        s.append(".id");
        s
    };
    let content = replace_text(template, "{resource_path_hash}", hash_here.as_str());
    let content = replace_text(content.as_str(), "{resource_path}", subroute);
    let content = replace_text(content.as_str(), "{parent_id}", parent_id.as_str());
    let mut path = "terraform/generated/api/resource_path_".to_owned();
    path.append(hash_here.as_str());
    path.append(".tf");
    GeneratedFile { path, content }
}

/// The routes of the definitions, in order.
pub open spec fn definition_routes(api_defs: Seq<ApiDefinition>) -> Seq<Seq<char>> {
    Seq::new(api_defs.len(), |i: int| api_defs[i].route@)
}

/// Whether `paths` lists, in order and each once, the routes and what the
/// routes begin with.
pub open spec fn lists_prefixes(routes: Seq<Seq<char>>, paths: Seq<Seq<char>>) -> bool {
    &&& strictly_sorted(paths)
    &&& forall|t: Seq<char>| paths.contains(t) <==> is_prefix_path(routes, t)
}

/// There is one listing of the routes and of what they begin with.
pub proof fn lemma_listing_unique(routes: Seq<Seq<char>>, a: Seq<Seq<char>>, b: Seq<Seq<char>>)
    requires
        lists_prefixes(routes, a),
        lists_prefixes(routes, b),
    ensures
        a == b,
{
    assert forall|t: Seq<char>| a.contains(t) <==> b.contains(t) by {
        assert(a.contains(t) <==> is_prefix_path(routes, t));
        assert(b.contains(t) <==> is_prefix_path(routes, t));
    }
    crate::text::lemma_strictly_sorted_unique(a, b);
}

/// The file of the node of a path: the last segment is the node's own, the
/// segments before it are the route above.
pub open spec fn path_file(template: Seq<char>, path: Seq<char>) -> FileView {
    node_file(template, join(segments(path).drop_last(), sep()), segments(path).last())
}

/// Makes the files of the resource tree of the definitions: one for every
/// route and for everything a route begins with, in the order of the paths.
/// A route with an empty segment is refused; the first such route is
/// reported, and no file is made.
pub fn setup_api_dir(api_defs: &Vec<ApiDefinition>, template: &str) -> (r: Result<
    Vec<GeneratedFile>,
    CompileError,
>)
    ensures
        match r {
            Ok(files) => all_valid(definition_routes(api_defs@)) && exists|paths: Seq<Seq<char>>|
             #[trigger]
                lists_prefixes(definition_routes(api_defs@), paths) && files.len() == paths.len()
                    && forall|i: int|
                    0 <= i < files.len() ==> (#[trigger] files[i])@ == path_file(
                        template@,
                        paths[i],
                    ),
            Err(e) => !all_valid(definition_routes(api_defs@)) && e@ == (ErrorView::InvalidRoute {
                route: definition_routes(api_defs@)[first_invalid(definition_routes(api_defs@))],
            }),
        },
{
    let mut routes: Vec<String> = Vec::new();
    let mut i: usize = 0;
    while i < api_defs.len()
        invariant
            i <= api_defs.len(),
            texts(routes@) == definition_routes(api_defs@).take(i as int),
        decreases api_defs.len() - i,
    {
        let ghost before = texts(routes@);
        let route = api_defs[i].route.clone();
        routes.push(route);
        assert(texts(routes@) =~= before.push(route@));
        assert(texts(routes@) =~= definition_routes(api_defs@).take(i + 1));
        i += 1;
    }
    assert(texts(routes@) =~= definition_routes(api_defs@));

    // The nodes are those of any gateway: only their paths are used.
    let gateway = ApiGateway::default();
    let nodes = match resolve(&gateway, &routes) {
        Ok(nodes) => nodes,
        Err(e) => {
            return Err(e);
        },
    };
    let ghost paths = crate::stack::api::gateway::path_texts(path_views(nodes@));
    proof {
        lemma_lists_prefixes(&gateway, texts(routes@), path_views(nodes@));
    }
    let mut files: Vec<GeneratedFile> = Vec::new();
    let mut i: usize = 0;
    while i < nodes.len()
        invariant
            i <= nodes.len(),
            files.len() == i,
            paths == crate::stack::api::gateway::path_texts(path_views(nodes@)),
            forall|k: int| 0 <= k < i ==> (#[trigger] files[k])@ == path_file(template@, paths[k]),
        decreases nodes.len() - i,
    {
        let mut segs = split_text(nodes[i].resource_path.as_str(), '/');
        proof {
            lemma_split_pieces(nodes[i as int].resource_path@, '/');
            reveal_strlit("/");
            assert("/"@ =~= sep());
        }
        let ghost all = texts(segs@);
        let subroute = segs.pop().unwrap();
        proof {
            assert(texts(segs@) =~= all.drop_last());
            assert(subroute@ == all.last());
        }
        let route_so_far = join_texts(&segs, "/");
        let file = resource_path_file(template, route_so_far.as_str(), subroute.as_str());
        files.push(file);
        i += 1;
    }
    Ok(files)
}

proof fn lemma_lists_prefixes(gateway: &ApiGateway, routes: Seq<Seq<char>>, nodes: Seq<PathView>)
    requires
        resolves(gateway, routes, nodes),
    ensures
        lists_prefixes(routes, crate::stack::api::gateway::path_texts(nodes)),
{
    let paths = crate::stack::api::gateway::path_texts(nodes);
    assert forall|t: Seq<char>| paths.contains(t) <==> is_prefix_path(routes, t) by {
        if paths.contains(t) {
            let i = choose|i: int| 0 <= i < paths.len() && paths[i] == t;
            assert(nodes[i].resource_path == t);
        }
        if is_prefix_path(routes, t) {
            let (r, k) = choose|r: int, k: int|
                0 <= r < routes.len() && 1 <= k <= segments(routes[r]).len() && t
                    == #[trigger] crate::stack::api::path_tree::prefix_path(routes[r], k);
            assert(crate::stack::api::gateway::resolved(
                nodes,
                crate::stack::api::path_tree::prefix_path(routes[r], k),
            ));
            let j = choose|j: int| 0 <= j < nodes.len() && (#[trigger] nodes[j]).resource_path == t;
            assert(paths[j] == t);
        }
    }
}

/// The file of an endpoint: the template with the endpoint's name, the
/// runtime, the method, what the endpoint depends on, the route and the
/// hash of the route filled in. The file is named after the endpoint.
pub open spec fn definition_file(
    template: Seq<char>,
    api_def: &ApiDefinition,
    depends_on: Seq<char>,
) -> FileView {
    FileView {
        path: "terraform/generated/api/"@ + api_def.name@ + ".tf"@,
        content: replaced(
            replaced(
                replaced(
                    replaced(
                        replaced(
                            replaced(template, "{function_name}"@, api_def.name@),
                            "{runtime}"@,
                            "nodejs20.x"@,
                        ),
                        "{http_method}"@,
                        api_def.method.spec_name(),
                    ),
                    "{depends_on}"@,
                    depends_on,
                ),
                "{resource_path}"@,
                api_def.route@,
            ),
            "{resource_path_hash}"@,
            decimal(text_hash(api_def.route@) as nat),
        ),
    }
}

/// Makes the file of an endpoint.
pub fn process_api_definition(api_def: &ApiDefinition, depends_on: &str, template: &str) -> (file:
    GeneratedFile)
    ensures
        file@ == definition_file(template@, api_def, depends_on@),
{
    let resource_hash = decimal_string(hash_text(api_def.route.as_str()));
    let content = replace_text(template, "{function_name}", api_def.name.as_str());
    let content = replace_text(content.as_str(), "{runtime}", "nodejs20.x");
    let content = replace_text(content.as_str(), "{http_method}", api_def.method.name());
    let content = replace_text(content.as_str(), "{depends_on}", depends_on);
    let content = replace_text(content.as_str(), "{resource_path}", api_def.route.as_str());
    let content = replace_text(
        content.as_str(),
        "{resource_path_hash}",
        resource_hash.as_str(),
    );
    let mut path = "terraform/generated/api/".to_owned();
    path.append(api_def.name.as_str());
    path.append(".tf");
    GeneratedFile { path, content }
}

/// Where the code of an endpoint lies: the file of the definition below the
/// root of its API.
pub fn lambda_source_path(api_def: &ApiDefinition) -> (path: String)
    ensures
        path@ == api_def.root@ + "/"@ + api_def.file@,
{
    let mut path = api_def.root.clone();
    path.append("/");
    path.append(api_def.file.as_str());
    path
}

/// Where the archive of an endpoint's code is written.
pub fn lambda_archive_path(api_def: &ApiDefinition) -> (path: String)
    ensures
        path@ == "terraform/generated/api/lambda_function_"@ + api_def.name@ + ".zip"@,
{
    let mut path = "terraform/generated/api/lambda_function_".to_owned();
    path.append(api_def.name.as_str());
    path.append(".zip");
    path
}

} // verus!
