//! Loading the definitions of an API: what the files found under its root
//! say, once the variables are replaced.

use crate::cloud::api::{method_parsed, ApiDefinitionError, DefinitionErrorView, HttpMethod};
use crate::config::api::api_config::{endpoint_views, ApiConfig, ApiEndpoint, EndpointView};
use crate::config::{substitute, ConfigVariables, ContainsVariables};
use crate::stack::api::path_tree::{segments, valid_route};
use crate::text::{
    clone_texts, distinct, filled, filled_texts, find_repeated_name, join, join_texts,
    lemma_filled, lemma_split_join, lemma_split_pieces, lowercased, same_text, split, split_text,
    texts,
};
use vstd::prelude::*;
use vstd::string::*;

verus! {

/// An API as the configuration names it.
#[derive(Debug)]
pub struct ApiConfigRaw {
    pub name: String,
    pub root: String,
    pub domain: String,
    pub prefix: Option<String>,
}

impl Clone for ApiConfigRaw {
    fn clone(&self) -> (r: Self)
        ensures
            r == *self,
    {
        let prefix = match &self.prefix {
            Some(prefix) => Some(prefix.clone()),
            None => None,
        };
        ApiConfigRaw {
            name: self.name.clone(),
            root: self.root.clone(),
            domain: self.domain.clone(),
            prefix,
        }
    }
}

impl ContainsVariables for ApiConfigRaw {
    open spec fn substituted(&self, vars: Seq<(Seq<char>, Seq<char>)>, after: &Self) -> bool {
        &&& self.name.substituted(vars, &after.name)
        &&& self.root.substituted(vars, &after.root)
        &&& self.domain.substituted(vars, &after.domain)
        &&& self.prefix.substituted(vars, &after.prefix)
    }

    fn replace_variables(&mut self, vars: &ConfigVariables) {
        self.name.replace_variables(vars);
        self.root.replace_variables(vars);
        self.domain.replace_variables(vars);
        self.prefix.replace_variables(vars);
    }
}

/// An endpoint as a file of definitions names it.
#[derive(Debug)]
pub struct ApiEndpointRaw {
    pub name: String,
    pub method: String,
    pub route: Option<String>,
    pub file: String,
    pub read: Option<Vec<String>>,
    pub write: Option<Vec<String>>,
}

/// Whether two lists hold the same texts, or both are missing.
pub open spec fn same_list(a: Option<Vec<String>>, b: Option<Vec<String>>) -> bool {
    match (a, b) {
        (Some(x), Some(y)) => x@ == y@,
        (None, None) => true,
        _ => false,
    }
}

impl Clone for ApiEndpointRaw {
    fn clone(&self) -> (r: Self)
        ensures
            r.name == self.name,
            r.method == self.method,
            r.route == self.route,
            r.file == self.file,
            same_list(r.read, self.read),
            same_list(r.write, self.write),
    {
        let route = match &self.route {
            Some(route) => Some(route.clone()),
            None => None,
        };
        let read = match &self.read {
            Some(list) => Some(clone_texts(list)),
            None => None,
        };
        let write = match &self.write {
            Some(list) => Some(clone_texts(list)),
            None => None,
        };
        ApiEndpointRaw {
            name: self.name.clone(),
            method: self.method.clone(),
            route,
            file: self.file.clone(),
            read,
            write,
        }
    }
}

impl ContainsVariables for ApiEndpointRaw {
    open spec fn substituted(&self, vars: Seq<(Seq<char>, Seq<char>)>, after: &Self) -> bool {
        &&& self.method.substituted(vars, &after.method)
        &&& self.route.substituted(vars, &after.route)
        &&& self.file.substituted(vars, &after.file)
        &&& self.name.substituted(vars, &after.name)
        &&& self.read.substituted(vars, &after.read)
        &&& self.write.substituted(vars, &after.write)
    }

    fn replace_variables(&mut self, vars: &ConfigVariables) {
        self.method.replace_variables(vars);
        self.route.replace_variables(vars);
        self.file.replace_variables(vars);
        self.name.replace_variables(vars);
        self.read.replace_variables(vars);
        self.write.replace_variables(vars);
    }
}

/// What a file of definitions holds.
#[derive(Debug)]
pub struct ApiEndpointsRaw {
    pub api: Vec<ApiEndpointRaw>,
}

/// A file of definitions found under the root of an API: where it lies,
/// and what it holds, or why it could not be read or parsed.
#[derive(Debug)]
pub struct EndpointFile {
    pub path: String,
    pub content: Result<ApiEndpointsRaw, ApiDefinitionError>,
}

/// Whether what was found is a file of definitions.
pub fn is_endpoints_file(file_name: &str, is_dir: bool) -> (r: bool)
    ensures
        r == (!is_dir && file_name@ == "endpoints.toml"@),
{
    !is_dir && same_text(file_name, "endpoints.toml")
}

/// Each of the texts with the variables replaced; nothing where there is no
/// list.
pub open spec fn substituted_list(list: Option<Vec<String>>, vars: Seq<(Seq<char>, Seq<char>)>) -> Seq<
    Seq<char>,
> {
    match list {
        Some(l) => Seq::new(l.len() as nat, |i: int| substitute(l[i]@, vars)),
        None => Seq::empty(),
    }
}

/// What `prefix` stands for: nothing where there is none.
pub open spec fn prefix_text(prefix: Option<String>) -> Seq<char> {
    match prefix {
        Some(p) => p@,
        None => Seq::empty(),
    }
}

/// The segments of the route of an endpoint: those of the prefix of the
/// API, then those of the route that the definition names or, where it
/// names none, of the place of the file below the root of the API. Empty
/// segments are left out, so that no slash stands at either end and none
/// beside another.
pub open spec fn route_parts(
    raw: &ApiEndpointRaw,
    vars: Seq<(Seq<char>, Seq<char>)>,
    prefix: Seq<char>,
    below_root: Seq<char>,
) -> Seq<Seq<char>> {
    filled(
        split(
            prefix + seq!['/'] + (match raw.route {
                Some(r) => substitute(r@, vars),
                None => below_root,
            }),
            '/',
        ),
    )
}

/// The route of an endpoint: its segments with a slash between neighbours.
pub open spec fn route_of(
    raw: &ApiEndpointRaw,
    vars: Seq<(Seq<char>, Seq<char>)>,
    prefix: Seq<char>,
    below_root: Seq<char>,
) -> Seq<char> {
    join(route_parts(raw, vars, prefix, below_root), seq!['/'])
}

/// The endpoint that a definition stands for, or why there is none: no
/// segment is left for its route, or its method is not understood.
pub open spec fn endpoint_of(
    raw: &ApiEndpointRaw,
    vars: Seq<(Seq<char>, Seq<char>)>,
    prefix: Seq<char>,
    below_root: Seq<char>,
) -> Result<EndpointView, DefinitionErrorView> {
    if route_parts(raw, vars, prefix, below_root).len() == 0 {
        Err(DefinitionErrorView::InvalidPath)
    } else {
        match method_parsed(substitute(raw.method@, vars)) {
            Ok(method) => Ok(
                EndpointView {
                    name: substitute(raw.name@, vars),
                    method,
                    route: route_of(raw, vars, prefix, below_root),
                    file: substitute(raw.file@, vars),
                    read: substituted_list(raw.read, vars),
                    write: substituted_list(raw.write, vars),
                },
            ),
            Err(_) => Err(DefinitionErrorView::InvalidMethod(substitute(raw.method@, vars))),
        }
    }
}

/// The route of an endpoint is well formed: none of its segments is empty.
pub proof fn lemma_route_valid(
    raw: &ApiEndpointRaw,
    vars: Seq<(Seq<char>, Seq<char>)>,
    prefix: Seq<char>,
    below_root: Seq<char>,
)
    requires
        route_parts(raw, vars, prefix, below_root).len() > 0,
    ensures
        valid_route(route_of(raw, vars, prefix, below_root)),
        segments(route_of(raw, vars, prefix, below_root)) == route_parts(
            raw,
            vars,
            prefix,
            below_root,
        ),
{
    let text = prefix + seq!['/'] + (match raw.route {
        Some(r) => substitute(r@, vars),
        None => below_root,
    });
    lemma_split_pieces(text, '/');
    lemma_filled(split(text, '/'), '/');
    lemma_split_join(route_parts(raw, vars, prefix, below_root), '/');
}

/// The endpoints that the definitions of one file stand for, in order, or
/// the first error among them.
pub open spec fn endpoints_of(
    raws: Seq<ApiEndpointRaw>,
    vars: Seq<(Seq<char>, Seq<char>)>,
    prefix: Seq<char>,
    below_root: Seq<char>,
) -> Result<Seq<EndpointView>, DefinitionErrorView>
    decreases raws.len(),
{
    if raws.len() == 0 {
        Ok(Seq::empty())
    } else {
        match endpoints_of(raws.drop_last(), vars, prefix, below_root) {
            Err(e) => Err(e),
            Ok(before) => match endpoint_of(&raws.last(), vars, prefix, below_root) {
                Err(e) => Err(e),
                Ok(endpoint) => Ok(before.push(endpoint)),
            },
        }
    }
}

/// The endpoints that the files stand for, file after file, or the first
/// error: a file that could not be read or parsed, a route without a
/// segment, or a method that was not understood.
pub open spec fn listed_definitions(
    root: Seq<char>,
    prefix: Seq<char>,
    vars: Seq<(Seq<char>, Seq<char>)>,
    files: Seq<EndpointFile>,
) -> Result<Seq<EndpointView>, DefinitionErrorView>
    decreases files.len(),
{
    if files.len() == 0 {
        Ok(Seq::empty())
    } else {
        match listed_definitions(root, prefix, vars, files.drop_last()) {
            Err(e) => Err(e),
            Ok(before) => match files.last().content {
                Err(e) => Err(e@),
                Ok(data) => match endpoints_of(
                    data.api@,
                    vars,
                    prefix,
                    files.last().path@.skip(root.len() as int),
                ) {
                    Err(e) => Err(e),
                    Ok(endpoints) => Ok(before + endpoints),
                },
            },
        }
    }
}

/// The names of the endpoints, in order.
pub open spec fn endpoint_names(endpoints: Seq<EndpointView>) -> Seq<Seq<char>> {
    Seq::new(endpoints.len(), |i: int| endpoints[i].name)
}

/// The endpoints of an API, as its files define them: the endpoints that
/// the files stand for, unless two of them share a name, whatever the
/// capitalization.
pub open spec fn definitions(
    root: Seq<char>,
    prefix: Seq<char>,
    vars: Seq<(Seq<char>, Seq<char>)>,
    files: Seq<EndpointFile>,
) -> Result<Seq<EndpointView>, DefinitionErrorView> {
    match listed_definitions(root, prefix, vars, files) {
        Err(e) => Err(e),
        Ok(endpoints) => if distinct(lowercased(endpoint_names(endpoints))) {
            Ok(endpoints)
        } else {
            Err(DefinitionErrorView::DuplicateNameFound)
        },
    }
}

proof fn lemma_endpoints_valid(
    raws: Seq<ApiEndpointRaw>,
    vars: Seq<(Seq<char>, Seq<char>)>,
    prefix: Seq<char>,
    below_root: Seq<char>,
)
    requires
        endpoints_of(raws, vars, prefix, below_root) is Ok,
    ensures
        forall|i: int|
            0 <= i < endpoints_of(raws, vars, prefix, below_root)->Ok_0.len() ==> valid_route(
                (#[trigger] endpoints_of(raws, vars, prefix, below_root)->Ok_0[i]).route,
            ),
    decreases raws.len(),
{
    if raws.len() > 0 {
        lemma_endpoints_valid(raws.drop_last(), vars, prefix, below_root);
        lemma_route_valid(&raws.last(), vars, prefix, below_root);
    }
}

proof fn lemma_listed_valid(
    root: Seq<char>,
    prefix: Seq<char>,
    vars: Seq<(Seq<char>, Seq<char>)>,
    files: Seq<EndpointFile>,
)
    requires
        listed_definitions(root, prefix, vars, files) is Ok,
    ensures
        forall|i: int|
            0 <= i < listed_definitions(root, prefix, vars, files)->Ok_0.len() ==> valid_route(
                (#[trigger] listed_definitions(root, prefix, vars, files)->Ok_0[i]).route,
            ),
    decreases files.len(),
{
    if files.len() > 0 {
        lemma_listed_valid(root, prefix, vars, files.drop_last());
        lemma_endpoints_valid(
            files.last().content->Ok_0.api@,
            vars,
            prefix,
            files.last().path@.skip(root.len() as int),
        );
    }
}

/// What the loader hands on is fit for the compiler: no two endpoints of an
/// API share a name, whatever the capitalization, and no route has an empty
/// segment.
pub proof fn lemma_definitions_sound(
    root: Seq<char>,
    prefix: Seq<char>,
    vars: Seq<(Seq<char>, Seq<char>)>,
    files: Seq<EndpointFile>,
)
    requires
        definitions(root, prefix, vars, files) is Ok,
    ensures
        distinct(lowercased(endpoint_names(definitions(root, prefix, vars, files)->Ok_0))),
        forall|i: int|
            0 <= i < definitions(root, prefix, vars, files)->Ok_0.len() ==> valid_route(
                (#[trigger] definitions(root, prefix, vars, files)->Ok_0[i]).route,
            ),
{
    lemma_listed_valid(root, prefix, vars, files);
}

/// Whether every file lies at a path at least as long as the root.
pub open spec fn below_root(root: Seq<char>, files: Seq<EndpointFile>) -> bool {
    forall|i: int| 0 <= i < files.len() ==> root.len() <= (#[trigger] files[i]).path@.len()
}

fn endpoint_from_raw(raw: &ApiEndpointRaw, vars: &ConfigVariables, prefix: &str, below: &str) -> (r:
    Result<ApiEndpoint, ApiDefinitionError>)
    ensures
        match r {
            Ok(endpoint) => endpoint_of(raw, vars@, prefix@, below@) == Ok::<
                EndpointView,
                DefinitionErrorView,
            >(endpoint@),
            Err(e) => endpoint_of(raw, vars@, prefix@, below@) == Err::<
                EndpointView,
                DefinitionErrorView,
            >(e@),
        },
{
    let mut x = raw.clone();
    x.replace_variables(vars);
    let mut whole = prefix.to_owned();
    whole.append("/");
    match &x.route {
        Some(named) => {
            whole.append(named.as_str());
        },
        None => {
            whole.append(below);
        },
    }
    proof {
        reveal_strlit("/");
        assert("/"@ =~= seq!['/']);
    }
    let parts = filled_texts(&split_text(whole.as_str(), '/'));
    if parts.len() == 0 {
        return Err(ApiDefinitionError::InvalidPath);
    }
    let route = join_texts(&parts, "/");
    let method = match HttpMethod::try_from(x.method.as_str()) {
        Ok(method) => method,
        Err(_) => {
            return Err(ApiDefinitionError::InvalidMethod(x.method));
        },
    };
    let read = match x.read {
        Some(list) => list,
        None => Vec::new(),
    };
    let write = match x.write {
        Some(list) => list,
        None => Vec::new(),
    };
    let endpoint = ApiEndpoint { read, write, name: x.name, file: x.file, route, method };
    proof {
        assert(texts(endpoint.read@) =~= substituted_list(raw.read, vars@));
        assert(texts(endpoint.write@) =~= substituted_list(raw.write, vars@));
    }
    Ok(endpoint)
}

fn endpoints_from_file(
    data: &ApiEndpointsRaw,
    vars: &ConfigVariables,
    prefix: &str,
    below: &str,
    result: &mut Vec<ApiEndpoint>,
) -> (r: Result<(), ApiDefinitionError>)
    ensures
        match r {
            Ok(_) => endpoints_of(data.api@, vars@, prefix@, below@) matches Ok(endpoints)
                && endpoint_views(final(result)@) == endpoint_views(old(result)@) + endpoints,
            Err(e) => endpoints_of(data.api@, vars@, prefix@, below@) == Err::<
                Seq<EndpointView>,
                DefinitionErrorView,
            >(e@),
        },
{
    let ghost before = endpoint_views(result@);
    let mut i: usize = 0;
    proof {
        assert(data.api@.take(0) =~= Seq::empty());
        assert(before + Seq::<EndpointView>::empty() =~= before);
    }
    while i < data.api.len()
        invariant
            i <= data.api.len(),
            endpoints_of(data.api@.take(i as int), vars@, prefix@, below@) matches Ok(endpoints)
                && endpoint_views(result@) == before + endpoints,
        decreases data.api.len() - i,
    {
        proof {
            assert(data.api@.take(i + 1).drop_last() =~= data.api@.take(i as int));
            assert(data.api@.take(i + 1).last() == data.api@[i as int]);
        }
        let ghost done = endpoints_of(data.api@.take(i as int), vars@, prefix@, below@)->Ok_0;
        let ghost listed = endpoint_views(result@);
        match endpoint_from_raw(&data.api[i], vars, prefix, below) {
            Ok(endpoint) => {
                result.push(endpoint);
                proof {
                    assert(endpoint_views(result@) =~= listed.push(endpoint@));
                    assert(listed.push(endpoint@) =~= before + done.push(endpoint@));
                }
            },
            Err(e) => {
                proof {
                    lemma_first_error(data.api@, i + 1, vars@, prefix@, below@);
                }
                return Err(e);
            },
        }
        i += 1;
    }
    proof {
        assert(data.api@.take(data.api.len() as int) =~= data.api@);
    }
    Ok(())
}

/// An error among the first definitions is the error of them all.
proof fn lemma_first_error(
    raws: Seq<ApiEndpointRaw>,
    n: int,
    vars: Seq<(Seq<char>, Seq<char>)>,
    prefix: Seq<char>,
    below: Seq<char>,
)
    requires
        0 <= n <= raws.len(),
        endpoints_of(raws.take(n), vars, prefix, below) is Err,
    ensures
        endpoints_of(raws, vars, prefix, below) == endpoints_of(raws.take(n), vars, prefix, below),
    decreases raws.len() - n,
{
    if n < raws.len() {
        assert(raws.take(n + 1).drop_last() =~= raws.take(n));
        lemma_first_error(raws, n + 1, vars, prefix, below);
    } else {
        assert(raws.take(n) =~= raws);
    }
}

/// An error among the first files is the error of them all.
proof fn lemma_first_file_error(
    root: Seq<char>,
    prefix: Seq<char>,
    vars: Seq<(Seq<char>, Seq<char>)>,
    files: Seq<EndpointFile>,
    n: int,
)
    requires
        0 <= n <= files.len(),
        listed_definitions(root, prefix, vars, files.take(n)) is Err,
    ensures
        listed_definitions(root, prefix, vars, files) == listed_definitions(
            root,
            prefix,
            vars,
            files.take(n),
        ),
    decreases files.len() - n,
{
    if n < files.len() {
        assert(files.take(n + 1).drop_last() =~= files.take(n));
        lemma_first_file_error(root, prefix, vars, files, n + 1);
    } else {
        assert(files.take(n) =~= files);
    }
}

/// Makes the endpoints of an API from the files of definitions found under
/// its root. The files are taken in order; the first file that could not be
/// read or parsed, the first route without a segment, or the first method
/// that is not understood, ends the loading. Endpoints that share a name,
/// whatever the capitalization, are refused.
pub fn create_api_definitions(
    api_config: &ApiConfig,
    vars: &ConfigVariables,
    files: &Vec<EndpointFile>,
) -> (r: Result<Vec<ApiEndpoint>, ApiDefinitionError>)
    requires
        below_root(api_config.root@, files@),
    ensures
        match r {
            Ok(endpoints) => {
                &&& definitions(api_config.root@, prefix_text(api_config.prefix), vars@, files@)
                    == Ok::<Seq<EndpointView>, DefinitionErrorView>(endpoint_views(endpoints@))
                &&& distinct(lowercased(endpoint_names(endpoint_views(endpoints@))))
                &&& forall|i: int|
                    0 <= i < endpoints.len() ==> valid_route((#[trigger] endpoints[i]).route@)
            },
            Err(e) => definitions(
                api_config.root@,
                prefix_text(api_config.prefix),
                vars@,
                files@,
            ) == Err::<Seq<EndpointView>, DefinitionErrorView>(e@),
        },
{
    let mut result: Vec<ApiEndpoint> = Vec::new();
    let prefix: &str = match &api_config.prefix {
        Some(p) => p.as_str(),
        None => "",
    };
    proof {
        reveal_strlit("");
        assert(prefix@ =~= prefix_text(api_config.prefix));
    }
    let root_len = api_config.root.as_str().unicode_len();
    let ghost root = api_config.root@;
    let mut i: usize = 0;
    proof {
        assert(files@.take(0) =~= Seq::empty());
        assert(endpoint_views(result@) =~= Seq::empty());
    }
    while i < files.len()
        invariant
            i <= files.len(),
            root == api_config.root@,
            root_len == root.len(),
            prefix@ == prefix_text(api_config.prefix),
            below_root(root, files@),
            listed_definitions(root, prefix@, vars@, files@.take(i as int)) == Ok::<
                Seq<EndpointView>,
                DefinitionErrorView,
            >(endpoint_views(result@)),
        decreases files.len() - i,
    {
        proof {
            assert(files@.take(i + 1).drop_last() =~= files@.take(i as int));
            assert(files@.take(i + 1).last() == files@[i as int]);
        }
        let file = &files[i];
        let data = match &file.content {
            Ok(data) => data,
            Err(e) => {
                proof {
                    lemma_first_file_error(root, prefix@, vars@, files@, i + 1);
                }
                return Err(e.clone());
            },
        };
        let path_len = file.path.as_str().unicode_len();
        let below = file.path.as_str().substring_char(root_len, path_len);
        proof {
            assert(below@ =~= file.path@.skip(root.len() as int));
        }
        match endpoints_from_file(data, vars, prefix, below, &mut result) {
            Ok(_) => {},
            Err(e) => {
                proof {
                    lemma_first_file_error(root, prefix@, vars@, files@, i + 1);
                }
                return Err(e);
            },
        }
        i += 1;
    }
    proof {
        assert(files@.take(files.len() as int) =~= files@);
    }
    let mut names: Vec<String> = Vec::new();
    let mut i: usize = 0;
    while i < result.len()
        invariant
            i <= result.len(),
            texts(names@) == endpoint_names(endpoint_views(result@)).take(i as int),
        decreases result.len() - i,
    {
        let ghost before = texts(names@);
        let name = result[i].name.clone();
        names.push(name);
        assert(texts(names@) =~= before.push(name@));
        assert(texts(names@) =~= endpoint_names(endpoint_views(result@)).take(i + 1));
        i += 1;
    }
    assert(texts(names@) =~= endpoint_names(endpoint_views(result@)));
    if find_repeated_name(&names).is_some() {
        return Err(ApiDefinitionError::DuplicateNameFound);
    }
    proof {
        lemma_definitions_sound(root, prefix@, vars@, files@);
        assert forall|i: int| 0 <= i < result.len() implies valid_route(
            (#[trigger] result[i]).route@,
        ) by {
            assert(endpoint_views(result@)[i].route == result[i].route@);
        }
    }
    Ok(result)
}

/// An API with its endpoints loaded from the files found under its root.
pub open spec fn loaded(
    raw: &ApiConfigRaw,
    vars: Seq<(Seq<char>, Seq<char>)>,
    files: Seq<EndpointFile>,
    config: &ApiConfig,
) -> bool {
    &&& config.name == raw.name
    &&& config.root == raw.root
    &&& config.domain == raw.domain
    &&& config.prefix == raw.prefix
    &&& definitions(raw.root@, prefix_text(raw.prefix), vars, files) == Ok::<
        Seq<EndpointView>,
        DefinitionErrorView,
    >(endpoint_views(config.endpoints@))
}

/// Why an API cannot be loaded from these files, if it cannot.
pub open spec fn load_error(
    raw: &ApiConfigRaw,
    vars: Seq<(Seq<char>, Seq<char>)>,
    files: Seq<EndpointFile>,
) -> Option<DefinitionErrorView> {
    match definitions(raw.root@, prefix_text(raw.prefix), vars, files) {
        Ok(_) => None,
        Err(e) => Some(e),
    }
}

/// Loads an API: takes over what the configuration names and makes its
/// endpoints from the files.
pub fn load_raw_api_config(raw: ApiConfigRaw, vars: &ConfigVariables, files: &Vec<EndpointFile>) -> (r:
    Result<ApiConfig, ApiDefinitionError>)
    requires
        below_root(raw.root@, files@),
    ensures
        match r {
            Ok(config) => loaded(&raw, vars@, files@, &config),
            Err(e) => load_error(&raw, vars@, files@) == Some(e@),
        },
{
    let mut api_def = ApiConfig {
        name: raw.name,
        endpoints: Vec::new(),
        domain: raw.domain,
        root: raw.root,
        prefix: raw.prefix,
    };
    match create_api_definitions(&api_def, vars, files) {
        Ok(endpoints) => {
            api_def.endpoints = endpoints;
            Ok(api_def)
        },
        Err(e) => Err(e),
    }
}

/// An API as the configuration names it, with the files found under its
/// root.
#[derive(Debug)]
pub struct ApiSource {
    pub config: ApiConfigRaw,
    pub files: Vec<EndpointFile>,
}

/// Whether the files of every API lie below its root.
pub open spec fn sources_below_root(sources: Seq<ApiSource>) -> bool {
    forall|i: int|
        0 <= i < sources.len() ==> below_root(
            (#[trigger] sources[i]).config.root@,
            sources[i].files@,
        )
}

/// `i` is the first API that cannot be loaded.
pub open spec fn first_failing_at(
    sources: Seq<ApiSource>,
    vars: Seq<(Seq<char>, Seq<char>)>,
    i: int,
) -> bool {
    &&& 0 <= i < sources.len()
    &&& load_error(&sources[i].config, vars, sources[i].files@) is Some
    &&& forall|j: int|
        0 <= j < i ==> load_error(&(#[trigger] sources[j]).config, vars, sources[j].files@) is None
}

/// Loads the APIs in order. The first API that cannot be loaded ends the
/// loading with its error.
pub fn load_api_configs(api_defs: Vec<ApiSource>, vars: &ConfigVariables) -> (r: Result<
    Vec<ApiConfig>,
    ApiDefinitionError,
>)
    requires
        sources_below_root(api_defs@),
    ensures
        match r {
            Ok(configs) => configs.len() == api_defs.len() && forall|i: int|
                0 <= i < configs.len() ==> loaded(
                    &api_defs[i].config,
                    vars@,
                    api_defs[i].files@,
                    #[trigger] &configs[i],
                ),
            Err(e) => exists|i: int|
                first_failing_at(api_defs@, vars@, i) && load_error(
                    &api_defs[i].config,
                    vars@,
                    api_defs[i].files@,
                ) == Some(e@),
        },
{
    let mut configs: Vec<ApiConfig> = Vec::new();
    let mut i: usize = 0;
    while i < api_defs.len()
        invariant
            i <= api_defs.len(),
            configs.len() == i,
            sources_below_root(api_defs@),
            forall|j: int|
                0 <= j < i ==> loaded(
                    &api_defs[j].config,
                    vars@,
                    api_defs[j].files@,
                    #[trigger] &configs[j],
                ),
        decreases api_defs.len() - i,
    {
        let source = &api_defs[i];
        let raw = source.config.clone();
        match load_raw_api_config(raw, vars, &source.files) {
            Ok(config) => {
                configs.push(config);
            },
            Err(e) => {
                proof {
                    assert forall|j: int| 0 <= j < i implies load_error(
                        &(#[trigger] api_defs@[j]).config,
                        vars@,
                        api_defs@[j].files@,
                    ) is None by {
                        assert(loaded(&api_defs[j].config, vars@, api_defs[j].files@, &configs[j]));
                    }
                    assert(first_failing_at(api_defs@, vars@, i as int));
                }
                return Err(e);
            },
        }
        i += 1;
    }
    Ok(configs)
}

} // verus!
