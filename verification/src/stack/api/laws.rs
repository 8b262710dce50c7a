//! What holds of every compilation: the dependencies of a deployment are
//! complete, and the order in which the endpoints are given does not show
//! in the document.

use crate::stack::api::deployment::{dependency_list, trigger_lines, GatewayDeployment};
use crate::stack::api::endpoint::ApiEndpoint;
use crate::stack::api::gateway::{all_resolved, resolved, ApiGateway, PathView};
use crate::stack::api::path_tree::{
    all_valid, is_prefix_path, lemma_resolution_unique, parent_of, prefix_path, resolves,
    segments, valid_route,
};
use crate::stack::tf::{dependencies, first_at, has_key, key_index, FieldView, TerraformEntity};
use crate::text::{
    distinct, in_order, lemma_lowercased_distinct, lemma_sorted_order_sorts, lemma_sorted_walk,
    lemma_strictly_sorted_unique, lists, lowercased, sorted_order,
};
use vstd::prelude::*;

verus! {

/// Whether an address is that of the method or of the integration of one
/// of the endpoints.
pub open spec fn is_method_or_integration(endpoints: Seq<ApiEndpoint>, address: Seq<char>) -> bool {
    exists|i: int|
        0 <= i < endpoints.len() && (address == (#[trigger] endpoints[i]).spec_method_address()
            || address == endpoints[i].spec_integration_address())
}

proof fn lemma_dependency_list(endpoints: Seq<ApiEndpoint>, address: Seq<char>)
    ensures
        dependency_list(endpoints).contains(FieldView::Raw(address)) <==> is_method_or_integration(
            endpoints,
            address,
        ),
        forall|k: int|
            0 <= k < dependency_list(endpoints).len() ==> (#[trigger] dependency_list(
                endpoints,
            )[k]) is Raw,
    decreases endpoints.len(),
{
    let list = dependency_list(endpoints);
    let entry = FieldView::Raw(address);
    if endpoints.len() > 0 {
        let init = endpoints.drop_last();
        let last = endpoints.last();
        lemma_dependency_list(init, address);
        let before = dependency_list(init);
        assert(list == before.push(FieldView::Raw(last.spec_method_address())).push(
            FieldView::Raw(last.spec_integration_address()),
        ));
        if list.contains(entry) {
            let k = choose|k: int| 0 <= k < list.len() && list[k] == entry;
            if k < before.len() {
                assert(before[k] == entry);
                assert(before.contains(entry));
                let i = choose|i: int|
                    0 <= i < init.len() && (address == (#[trigger] init[i]).spec_method_address()
                        || address == init[i].spec_integration_address());
                assert(endpoints[i] == init[i]);
            } else {
                assert(endpoints[endpoints.len() - 1] == last);
            }
        }
        if is_method_or_integration(endpoints, address) {
            let i = choose|i: int|
                0 <= i < endpoints.len() && (address == (
                #[trigger] endpoints[i]).spec_method_address() || address
                    == endpoints[i].spec_integration_address());
            if i < init.len() {
                assert(init[i] == endpoints[i]);
                assert(is_method_or_integration(init, address));
                let k = choose|k: int| 0 <= k < before.len() && before[k] == entry;
                assert(list[k] == entry);
            } else if address == last.spec_method_address() {
                assert(list[before.len() as int] == entry);
            } else {
                assert(list[before.len() as int + 1] == entry);
            }
        }
    } else {
        if is_method_or_integration(endpoints, address) {
            let i = choose|i: int|
                0 <= i < endpoints.len() && (address == (
                #[trigger] endpoints[i]).spec_method_address() || address
                    == endpoints[i].spec_integration_address());
        }
    }
}

/// The endpoints in the order of their names are the endpoints: each stands
/// there, and nothing else does.
pub proof fn lemma_ordered_is_rearranged(gateway: &ApiGateway)
    ensures
        gateway.spec_ordered().len() == gateway.endpoints.len(),
        forall|i: int|
            0 <= i < gateway.endpoints.len() ==> gateway.spec_ordered().contains(
                #[trigger] gateway.endpoints[i],
            ),
        forall|k: int|
            0 <= k < gateway.spec_ordered().len() ==> gateway.endpoints@.contains(
                #[trigger] gateway.spec_ordered()[k],
            ),
{
    let names = gateway.spec_names();
    let order = sorted_order(names);
    let ordered = gateway.spec_ordered();
    lemma_sorted_order_sorts(names);
    assert forall|i: int| 0 <= i < gateway.endpoints.len() implies ordered.contains(
        #[trigger] gateway.endpoints[i],
    ) by {
        assert(lists(order, i));
        let k = choose|k: int| 0 <= k < order.len() && #[trigger] order[k] == i;
        assert(ordered[k] == gateway.endpoints[i]);
    }
    assert forall|k: int| 0 <= k < ordered.len() implies gateway.endpoints@.contains(
        #[trigger] ordered[k],
    ) by {
        assert(0 <= order[k] < names.len());
        assert(gateway.endpoints@[order[k]] == ordered[k]);
    }
}

/// Dependency completeness: what the deployment of a gateway depends on is
/// the method and the integration of every endpoint of the gateway, no
/// more and no less.
pub proof fn lemma_dependencies_complete(gateway: &ApiGateway, address: Seq<char>)
    ensures
        dependencies((GatewayDeployment { gateway }).spec_resource().fields).contains(
            FieldView::Raw(address),
        ) <==> is_method_or_integration(gateway.endpoints@, address),
        forall|k: int|
            0 <= k < dependencies((GatewayDeployment { gateway }).spec_resource().fields).len()
                ==> (#[trigger] dependencies(
                (GatewayDeployment { gateway }).spec_resource().fields,
            )[k]) is Raw,
{
    let deployment = GatewayDeployment { gateway };
    let fields = deployment.spec_resource().fields;
    let base = deployment.spec_base_fields();
    let ordered = gateway.spec_ordered();
    let listed = dependency_list(ordered);
    reveal_strlit("rest_api_id");
    reveal_strlit("lifecycle");
    reveal_strlit("depends_on");
    reveal_strlit("triggers");
    assert("rest_api_id"@.len() == 11);
    assert("lifecycle"@.len() == 9);
    assert("depends_on"@.len() == 10);
    assert("triggers"@.len() == 8);
    lemma_dependency_list(ordered, address);
    lemma_ordered_is_rearranged(gateway);
    if ordered.len() == 0 {
        assert(!has_key(fields, "depends_on"@)) by {
            if has_key(fields, "depends_on"@) {
                let i = choose|i: int| first_at(fields, "depends_on"@, i);
                assert(fields[i].0 == "depends_on"@);
            }
        }
        assert(dependencies(fields) =~= listed);
    } else {
        assert(first_at(fields, "depends_on"@, 2));
        let k = key_index(fields, "depends_on"@);
        assert(first_at(fields, "depends_on"@, k));
        assert(k == 2);
        assert(dependencies(fields) == listed);
    }
    if is_method_or_integration(ordered, address) {
        let k = choose|k: int|
            0 <= k < ordered.len() && (address == (#[trigger] ordered[k]).spec_method_address()
                || address == ordered[k].spec_integration_address());
        assert(gateway.endpoints@.contains(ordered[k]));
        let i = choose|i: int| 0 <= i < gateway.endpoints.len() && gateway.endpoints@[i] == ordered[k];
        assert(address == gateway.endpoints@[i].spec_method_address() || address
            == gateway.endpoints@[i].spec_integration_address());
    }
    if is_method_or_integration(gateway.endpoints@, address) {
        let i = choose|i: int|
            0 <= i < gateway.endpoints.len() && (address == (
            #[trigger] gateway.endpoints@[i]).spec_method_address() || address
                == gateway.endpoints@[i].spec_integration_address());
        assert(ordered.contains(gateway.endpoints[i]));
        let k = choose|k: int| 0 <= k < ordered.len() && ordered[k] == gateway.endpoints[i];
        assert(address == ordered[k].spec_method_address() || address
            == ordered[k].spec_integration_address());
    }
}

/// `perm` lists each of the positions below `n` once.
pub open spec fn permutes(perm: Seq<int>, n: int) -> bool {
    &&& perm.len() == n
    &&& forall|i: int| 0 <= i < perm.len() ==> 0 <= #[trigger] perm[i] < n
    &&& forall|i: int, j: int| 0 <= i < j < perm.len() ==> #[trigger] perm[i] != #[trigger] perm[j]
    &&& forall|k: int| 0 <= k < n ==> #[trigger] lists(perm, k)
}

/// `b` holds the endpoints of `a` in another order: the endpoint at `i` in
/// `b` is the one at `perm[i]` in `a`.
pub open spec fn rearranged(a: Seq<ApiEndpoint>, b: Seq<ApiEndpoint>, perm: Seq<int>) -> bool {
    &&& a.len() == b.len()
    &&& permutes(perm, a.len() as int)
    &&& forall|i: int| 0 <= i < b.len() ==> #[trigger] b[i] == a[perm[i]]
}

/// The two gateways agree in all but their endpoints.
pub open spec fn same_settings(a: &ApiGateway, b: &ApiGateway) -> bool {
    &&& a.name@ == b.name@
    &&& a.stage_name@ == b.stage_name@
    &&& a.domain == b.domain
}

proof fn lemma_rearranged_keys(a: Seq<Seq<char>>, b: Seq<Seq<char>>, perm: Seq<int>)
    requires
        a.len() == b.len(),
        permutes(perm, a.len() as int),
        forall|i: int| 0 <= i < b.len() ==> #[trigger] b[i] == a[perm[i]],
    ensures
        distinct(a) <==> distinct(b),
        forall|t: Seq<char>| a.contains(t) <==> b.contains(t),
{
    assert forall|t: Seq<char>| a.contains(t) <==> b.contains(t) by {
        if a.contains(t) {
            let k = choose|k: int| 0 <= k < a.len() && a[k] == t;
            assert(lists(perm, k));
            let i = choose|i: int| 0 <= i < perm.len() && #[trigger] perm[i] == k;
            assert(b[i] == t);
        }
        if b.contains(t) {
            let i = choose|i: int| 0 <= i < b.len() && b[i] == t;
            assert(a[perm[i]] == t);
        }
    }
    if distinct(a) {
        assert forall|i: int, j: int| 0 <= i < j < b.len() implies #[trigger] b[i]
            != #[trigger] b[j] by {
            assert(perm[i] != perm[j]);
            if perm[i] < perm[j] {
                assert(a[perm[i]] != a[perm[j]]);
            } else {
                assert(a[perm[j]] != a[perm[i]]);
            }
        }
    }
    if distinct(b) {
        assert forall|x: int, y: int| 0 <= x < y < a.len() implies #[trigger] a[x]
            != #[trigger] a[y] by {
            assert(lists(perm, x));
            assert(lists(perm, y));
            let i = choose|i: int| 0 <= i < perm.len() && #[trigger] perm[i] == x;
            let j = choose|j: int| 0 <= j < perm.len() && #[trigger] perm[j] == y;
            assert(b[i] == a[x]);
            assert(b[j] == a[y]);
            if i < j {
                assert(b[i] != b[j]);
            } else {
                assert(b[j] != b[i]);
            }
        }
    }
}

/// The endpoints in the order of their names do not depend on the order in
/// which the endpoints were given.
pub proof fn lemma_same_order(a: &ApiGateway, b: &ApiGateway, perm: Seq<int>)
    requires
        rearranged(a.endpoints@, b.endpoints@, perm),
        distinct(a.spec_names()),
    ensures
        a.spec_ordered() == b.spec_ordered(),
{
    let na = a.spec_names();
    let nb = b.spec_names();
    assert forall|i: int| 0 <= i < nb.len() implies #[trigger] nb[i] == na[perm[i]] by {
        assert(b.endpoints@[i] == a.endpoints@[perm[i]]);
    }
    lemma_rearranged_keys(na, nb, perm);
    let oa = sorted_order(na);
    let ob = sorted_order(nb);
    lemma_sorted_order_sorts(na);
    lemma_sorted_order_sorts(nb);
    lemma_sorted_walk(na, oa);
    lemma_sorted_walk(nb, ob);
    let wa = in_order(na, oa);
    let wb = in_order(nb, ob);
    assert forall|t: Seq<char>| wa.contains(t) <==> wb.contains(t) by {
        assert(wa.contains(t) <==> na.contains(t));
        assert(wb.contains(t) <==> nb.contains(t));
    }
    lemma_strictly_sorted_unique(wa, wb);
    assert forall|k: int| 0 <= k < a.endpoints.len() implies a.spec_ordered()[k]
        == b.spec_ordered()[k] by {
        assert(wa[k] == wb[k]);
        let x = oa[k];
        let y = perm[ob[k]];
        assert(0 <= ob[k] < nb.len());
        assert(nb[ob[k]] == na[y]);
        assert(na[x] == na[y]);
        if x < y {
            assert(na[x] != na[y]);
        }
        if y < x {
            assert(na[y] != na[x]);
        }
        assert(b.endpoints@[ob[k]] == a.endpoints@[perm[ob[k]]]);
    }
    assert(a.spec_ordered() =~= b.spec_ordered());
}

proof fn lemma_same_prefixes(ra: Seq<Seq<char>>, rb: Seq<Seq<char>>, perm: Seq<int>)
    requires
        ra.len() == rb.len(),
        permutes(perm, ra.len() as int),
        forall|i: int| 0 <= i < rb.len() ==> #[trigger] rb[i] == ra[perm[i]],
    ensures
        forall|t: Seq<char>| is_prefix_path(ra, t) <==> is_prefix_path(rb, t),
{
    assert forall|t: Seq<char>| is_prefix_path(ra, t) <==> is_prefix_path(rb, t) by {
        if is_prefix_path(ra, t) {
            let (r, k) = choose|r: int, k: int|
                0 <= r < ra.len() && 1 <= k <= segments(ra[r]).len() && t
                    == #[trigger] prefix_path(ra[r], k);
            assert(lists(perm, r));
            let i = choose|i: int| 0 <= i < perm.len() && #[trigger] perm[i] == r;
            assert(rb[i] == ra[r]);
            assert(t == prefix_path(rb[i], k));
        }
        if is_prefix_path(rb, t) {
            let (r, k) = choose|r: int, k: int|
                0 <= r < rb.len() && 1 <= k <= segments(rb[r]).len() && t
                    == #[trigger] prefix_path(rb[r], k);
            assert(rb[r] == ra[perm[r]]);
            assert(t == prefix_path(ra[perm[r]], k));
        }
    }
}

proof fn lemma_same_validity(ra: Seq<Seq<char>>, rb: Seq<Seq<char>>, perm: Seq<int>)
    requires
        ra.len() == rb.len(),
        permutes(perm, ra.len() as int),
        forall|i: int| 0 <= i < rb.len() ==> #[trigger] rb[i] == ra[perm[i]],
    ensures
        all_valid(ra) <==> all_valid(rb),
{
    if all_valid(ra) {
        assert forall|i: int| 0 <= i < rb.len() implies valid_route(#[trigger] rb[i]) by {
            assert(valid_route(ra[perm[i]]));
        }
    }
    if all_valid(rb) {
        assert forall|x: int| 0 <= x < ra.len() implies valid_route(#[trigger] ra[x]) by {
            assert(lists(perm, x));
            let i = choose|i: int| 0 <= i < perm.len() && #[trigger] perm[i] == x;
            assert(valid_route(rb[i]));
        }
    }
}

proof fn lemma_same_resolved(
    ra: Seq<Seq<char>>,
    rb: Seq<Seq<char>>,
    perm: Seq<int>,
    paths: Seq<PathView>,
)
    requires
        ra.len() == rb.len(),
        permutes(perm, ra.len() as int),
        forall|i: int| 0 <= i < rb.len() ==> #[trigger] rb[i] == ra[perm[i]],
    ensures
        all_resolved(ra, paths) <==> all_resolved(rb, paths),
{
    if all_resolved(ra, paths) {
        assert forall|i: int| 0 <= i < rb.len() implies resolved(paths, #[trigger] rb[i]) by {
            assert(resolved(paths, ra[perm[i]]));
        }
    }
    if all_resolved(rb, paths) {
        assert forall|x: int| 0 <= x < ra.len() implies resolved(paths, #[trigger] ra[x]) by {
            assert(lists(perm, x));
            let i = choose|i: int| 0 <= i < perm.len() && #[trigger] perm[i] == x;
            assert(resolved(paths, rb[i]));
        }
    }
}

proof fn lemma_resolves_for(
    a: &ApiGateway,
    b: &ApiGateway,
    routes: Seq<Seq<char>>,
    paths: Seq<PathView>,
)
    requires
        a.name@ == b.name@,
        a.stage_name@ == b.stage_name@,
        resolves(b, routes, paths),
    ensures
        resolves(a, routes, paths),
{
    assert forall|i: int| 0 <= i < paths.len() implies (#[trigger] paths[i]).parent_id == parent_of(
        a,
        paths[i].resource_path,
    ) by {
        assert(paths[i].parent_id == parent_of(b, paths[i].resource_path));
    }
}

/// The nodes of the resource tree do not depend on the order in which the
/// endpoints were given.
pub proof fn lemma_same_paths(a: &ApiGateway, b: &ApiGateway, perm: Seq<int>)
    requires
        same_settings(a, b),
        rearranged(a.endpoints@, b.endpoints@, perm),
    ensures
        a.spec_paths() == b.spec_paths(),
        resolves(a, a.spec_routes(), a.spec_paths()),
        all_valid(a.spec_routes()) <==> all_valid(b.spec_routes()),
        all_resolved(a.spec_routes(), a.spec_paths()) <==> all_resolved(
            b.spec_routes(),
            a.spec_paths(),
        ),
{
    let ra = a.spec_routes();
    let rb = b.spec_routes();
    assert forall|i: int| 0 <= i < rb.len() implies #[trigger] rb[i] == ra[perm[i]] by {
        assert(b.endpoints@[i] == a.endpoints@[perm[i]]);
    }
    crate::stack::api::path_tree::lemma_resolution_exists(a, ra);
    crate::stack::api::path_tree::lemma_resolution_exists(b, rb);
    let pa = a.spec_paths();
    let pb = b.spec_paths();
    lemma_same_prefixes(ra, rb, perm);
    lemma_resolves_for(a, b, rb, pb);
    lemma_resolution_unique(a, ra, rb, pa, pb);
    lemma_same_validity(ra, rb, perm);
    lemma_same_resolved(ra, rb, perm, pa);
}

/// Determinism: the document of a gateway depends on its set of endpoints,
/// not on the order in which they are given. Two gateways that differ in
/// the order of their endpoints alone either both fail or compile to the
/// same document, character for character.
pub proof fn lemma_order_independent(a: &ApiGateway, b: &ApiGateway, perm: Seq<int>)
    requires
        same_settings(a, b),
        rearranged(a.endpoints@, b.endpoints@, perm),
    ensures
        a.spec_failure() is None <==> b.spec_failure() is None,
        a.spec_failure() is None ==> a.spec_document(a.spec_paths()) == b.spec_document(
            b.spec_paths(),
        ),
{
    let na = lowercased(a.spec_names());
    let nb = lowercased(b.spec_names());
    assert forall|i: int| 0 <= i < nb.len() implies #[trigger] nb[i] == na[perm[i]] by {
        assert(b.endpoints@[i] == a.endpoints@[perm[i]]);
    }
    lemma_rearranged_keys(na, nb, perm);
    let fa = a.spec_functions();
    let fb = b.spec_functions();
    assert forall|i: int| 0 <= i < fb.len() implies #[trigger] fb[i] == fa[perm[i]] by {
        assert(b.endpoints@[i] == a.endpoints@[perm[i]]);
    }
    lemma_rearranged_keys(fa, fb, perm);
    lemma_same_paths(a, b, perm);
    let paths = a.spec_paths();
    if a.spec_failure() is None {
        lemma_lowercased_distinct(a.spec_names());
        lemma_same_order(a, b, perm);
        lemma_same_document(a, b, paths);
    }
}

/// Two gateways that agree in their settings and in their endpoints, taken
/// in the order of their names, have the same document.
proof fn lemma_same_document(a: &ApiGateway, b: &ApiGateway, paths: Seq<PathView>)
    requires
        same_settings(a, b),
        a.endpoints.len() == b.endpoints.len(),
        a.spec_ordered() == b.spec_ordered(),
    ensures
        a.spec_document(paths) == b.spec_document(paths),
{
    assert(a.spec_tf_identifier() == b.spec_tf_identifier());
    assert(a.spec_rest_api_resource() == b.spec_rest_api_resource());
    assert(a.spec_stage().spec_tf_identifier() == b.spec_stage().spec_tf_identifier());
    assert(a.spec_path_mapping_resource(&*a.domain->Some_0) == b.spec_path_mapping_resource(
        &*b.domain->Some_0,
    ));
    let da = GatewayDeployment { gateway: a };
    let db = GatewayDeployment { gateway: b };
    assert(a.spec_stage().spec_resource(a, &da) == b.spec_stage().spec_resource(b, &db));
    assert(a.spec_path_blocks(paths) =~= b.spec_path_blocks(paths));
    assert(a.spec_endpoint_blocks() =~= b.spec_endpoint_blocks()) by {
        assert forall|i: int| 0 <= i < a.endpoints.len() implies a.spec_endpoint_blocks()[i]
            == b.spec_endpoint_blocks()[i] by {
            let e = a.spec_ordered()[i];
            assert(e.spec_method_resource(a, e.route@) == e.spec_method_resource(b, e.route@));
            assert(e.spec_permission_resource(a) == e.spec_permission_resource(b));
            assert(e.spec_integration().spec_resource(a, e.route@)
                == e.spec_integration().spec_resource(b, e.route@));
        }
    }
    assert(da.spec_base_fields() == db.spec_base_fields());
    assert(da.spec_resource() == db.spec_resource());
}

/// Whether two endpoints say the same: the same name, route and method, and
/// functions with the same code, runtime, role and environment.
pub open spec fn alike_endpoints(a: &ApiEndpoint, b: &ApiEndpoint) -> bool {
    &&& a.name@ == b.name@
    &&& a.route@ == b.route@
    &&& a.http_method == b.http_method
    &&& a.lambda.file_path@ == b.lambda.file_path@
    &&& a.lambda.runtime == b.lambda.runtime
    &&& a.lambda.role.name@ == b.lambda.role.name@
    &&& crate::stack::lambda::variable_views(a.lambda.environment_variables@)
        == crate::stack::lambda::variable_views(b.lambda.environment_variables@)
}

/// Whether two gateways say the same: the same name and stage, domains of
/// the same name, and endpoints that say the same, in the same order.
pub open spec fn alike(a: &ApiGateway, b: &ApiGateway) -> bool {
    &&& a.name@ == b.name@
    &&& a.stage_name@ == b.stage_name@
    &&& a.domain is None <==> b.domain is None
    &&& a.domain is Some ==> a.domain->Some_0.certificate.domain@
        == b.domain->Some_0.certificate.domain@
    &&& a.endpoints.len() == b.endpoints.len()
    &&& forall|i: int|
        0 <= i < a.endpoints.len() ==> alike_endpoints(
            #[trigger] &a.endpoints[i],
            &b.endpoints[i],
        )
}

proof fn lemma_alike_blocks(a: &ApiGateway, b: &ApiGateway, x: &ApiEndpoint, y: &ApiEndpoint)
    requires
        a.name@ == b.name@,
        a.stage_name@ == b.stage_name@,
        alike_endpoints(x, y),
    ensures
        x.spec_terraform(a, x.route@) == y.spec_terraform(b, y.route@),
        x.spec_method_address() == y.spec_method_address(),
        x.spec_integration_address() == y.spec_integration_address(),
{
    assert(x.lambda.spec_resource() == y.lambda.spec_resource());
    assert(x.spec_method_resource(a, x.route@) == y.spec_method_resource(b, y.route@));
    assert(x.spec_permission_resource(a) == y.spec_permission_resource(b));
    assert(x.spec_integration().spec_resource(a, x.route@) == y.spec_integration().spec_resource(
        b,
        y.route@,
    ));
}

proof fn lemma_alike_dependencies(
    a: &ApiGateway,
    b: &ApiGateway,
    x: Seq<ApiEndpoint>,
    y: Seq<ApiEndpoint>,
)
    requires
        a.name@ == b.name@,
        a.stage_name@ == b.stage_name@,
        x.len() == y.len(),
        forall|i: int| 0 <= i < x.len() ==> alike_endpoints(#[trigger] &x[i], &y[i]),
    ensures
        dependency_list(x) == dependency_list(y),
        trigger_lines(x) == trigger_lines(y),
    decreases x.len(),
{
    if x.len() > 0 {
        assert forall|i: int| 0 <= i < x.drop_last().len() implies alike_endpoints(
            #[trigger] &x.drop_last()[i],
            &y.drop_last()[i],
        ) by {
            assert(alike_endpoints(&x[i], &y[i]));
        }
        lemma_alike_dependencies(a, b, x.drop_last(), y.drop_last());
        assert(alike_endpoints(&x[x.len() - 1], &y[y.len() - 1]));
        lemma_alike_blocks(a, b, &x.last(), &y.last());
    }
    assert forall|i: int| 0 <= i < x.len() implies trigger_lines(x)[i] == trigger_lines(y)[i] by {
        assert(alike_endpoints(&x[i], &y[i]));
        lemma_alike_blocks(a, b, &x[i], &y[i]);
    }
    assert(trigger_lines(x) =~= trigger_lines(y));
}

/// Gateways that say the same compile alike: both fail for the same reason,
/// or both give the same document, character for character. Nothing but
/// what the gateways say goes into the compilation.
pub proof fn lemma_alike_compile_alike(a: &ApiGateway, b: &ApiGateway)
    requires
        alike(a, b),
    ensures
        a.spec_failure() == b.spec_failure(),
        a.spec_failure() is None ==> a.spec_document(a.spec_paths()) == b.spec_document(
            b.spec_paths(),
        ),
{
    let names = a.spec_names();
    let routes = a.spec_routes();
    assert(names =~= b.spec_names()) by {
        assert forall|i: int| 0 <= i < names.len() implies names[i] == b.spec_names()[i] by {
            assert(alike_endpoints(&a.endpoints[i], &b.endpoints[i]));
        }
    }
    assert(routes =~= b.spec_routes()) by {
        assert forall|i: int| 0 <= i < routes.len() implies routes[i] == b.spec_routes()[i] by {
            assert(alike_endpoints(&a.endpoints[i], &b.endpoints[i]));
        }
    }
    assert(a.spec_functions() =~= b.spec_functions()) by {
        assert forall|i: int| 0 <= i < a.endpoints.len() implies a.spec_functions()[i]
            == b.spec_functions()[i] by {
            assert(alike_endpoints(&a.endpoints[i], &b.endpoints[i]));
        }
    }
    crate::stack::api::path_tree::lemma_resolution_exists(a, routes);
    crate::stack::api::path_tree::lemma_resolution_exists(b, routes);
    lemma_resolves_for(a, b, routes, b.spec_paths());
    lemma_resolution_unique(a, routes, routes, a.spec_paths(), b.spec_paths());
    let paths = a.spec_paths();
    assert(a.spec_compile_failure(paths) == b.spec_compile_failure(paths));
    if a.spec_failure() is None {
        lemma_alike_documents(a, b, paths);
    }
}

proof fn lemma_alike_documents(a: &ApiGateway, b: &ApiGateway, paths: Seq<PathView>)
    requires
        alike(a, b),
        a.spec_names() == b.spec_names(),
        a.domain is Some,
    ensures
        a.spec_document(paths) == b.spec_document(paths),
{
    let order = sorted_order(a.spec_names());
    lemma_sorted_order_sorts(a.spec_names());
    let x = a.spec_ordered();
    let y = b.spec_ordered();
    assert forall|i: int| 0 <= i < x.len() implies alike_endpoints(#[trigger] &x[i], &y[i]) by {
        assert(0 <= order[i] < a.endpoints.len());
        assert(alike_endpoints(&a.endpoints[order[i]], &b.endpoints[order[i]]));
    }
    assert(a.spec_tf_identifier() == b.spec_tf_identifier());
    assert(a.spec_rest_api_resource() == b.spec_rest_api_resource());
    assert(a.spec_stage().spec_tf_identifier() == b.spec_stage().spec_tf_identifier());
    assert(a.spec_path_mapping_resource(&*a.domain->Some_0) == b.spec_path_mapping_resource(
        &*b.domain->Some_0,
    ));
    let da = GatewayDeployment { gateway: a };
    let db = GatewayDeployment { gateway: b };
    assert(a.spec_stage().spec_resource(a, &da) == b.spec_stage().spec_resource(b, &db));
    assert(a.spec_path_blocks(paths) =~= b.spec_path_blocks(paths));
    assert(a.spec_endpoint_blocks() =~= b.spec_endpoint_blocks()) by {
        assert forall|i: int| 0 <= i < a.endpoints.len() implies a.spec_endpoint_blocks()[i]
            == b.spec_endpoint_blocks()[i] by {
            assert(alike_endpoints(&x[i], &y[i]));
            lemma_alike_blocks(a, b, &x[i], &y[i]);
        }
    }
    lemma_alike_dependencies(a, b, x, y);
    assert(da.spec_base_fields() == db.spec_base_fields());
    assert(da.spec_resource() == db.spec_resource());
}

} // verus!
