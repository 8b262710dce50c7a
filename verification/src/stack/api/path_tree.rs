//! The path resolver: one node of the gateway's resource tree for every
//! route and for every prefix of a route, each exactly once.

use crate::stack::api::gateway::{
    path_texts, path_var, path_views, resolved, ApiGateway, PathView, ResourcePath,
};
use crate::stack::api::error::{CompileError, ErrorView};
use crate::stack::tf::VarView;
use crate::text::{
    lemma_once, once, distinct, free_of, in_order, indices, join, lemma_join_injective, lemma_sorted_walk,
    lemma_split_join, lemma_split_pieces, lists, sort_order, sorts, split, split_text,
    strictly_sorted, texts,
};
use vstd::prelude::*;
use vstd::string::*;

verus! {

/// What stands between the segments of a path.
pub open spec fn sep() -> Seq<char> {
    seq!['/']
}

/// The segments of a route.
pub open spec fn segments(route: Seq<char>) -> Seq<Seq<char>> {
    split(route, '/')
}

/// The path made of the first `k` segments of a route.
pub open spec fn prefix_path(route: Seq<char>, k: int) -> Seq<char> {
    join(segments(route).take(k), sep())
}

/// Whether `path` is a route, or what a route begins with, cut between two
/// segments.
pub open spec fn is_prefix_path(routes: Seq<Seq<char>>, path: Seq<char>) -> bool {
    exists|r: int, k: int|
        0 <= r < routes.len() && 1 <= k <= segments(routes[r]).len() && path
            == #[trigger] prefix_path(routes[r], k)
}

/// The reference to the node above the node of `segs`: the root of the
/// gateway's tree for a single segment, else the node of the path without
/// its last segment.
pub open spec fn parent_ref(gateway: &ApiGateway, segs: Seq<Seq<char>>) -> VarView {
    if segs.len() <= 1 {
        gateway.spec_var_rest_api("root_resource_id"@)
    } else {
        path_var(join(segs.drop_last(), sep()), "id"@)
    }
}

/// The reference to the node above the node of `path`.
pub open spec fn parent_of(gateway: &ApiGateway, path: Seq<char>) -> VarView {
    parent_ref(gateway, segments(path))
}

/// What the path resolver owes: the nodes stand in the order of their
/// paths, so none occurs twice; each stands for a route or for what a route
/// begins with; every route and everything a route begins with has its
/// node; and each node refers to the node above it.
pub open spec fn resolves(gateway: &ApiGateway, routes: Seq<Seq<char>>, paths: Seq<PathView>) -> bool {
    &&& strictly_sorted(path_texts(paths))
    &&& forall|i: int|
        0 <= i < paths.len() ==> is_prefix_path(routes, (#[trigger] paths[i]).resource_path)
    &&& forall|r: int, k: int|
        0 <= r < routes.len() && 1 <= k <= segments(routes[r]).len() ==> resolved(
            paths,
            #[trigger] prefix_path(routes[r], k),
        )
    &&& forall|i: int|
        0 <= i < paths.len() ==> (#[trigger] paths[i]).parent_id == parent_of(
            gateway,
            paths[i].resource_path,
        )
}

/// Whether no segment of the route is empty.
pub open spec fn valid_route(route: Seq<char>) -> bool {
    forall|i: int| 0 <= i < segments(route).len() ==> (#[trigger] segments(route)[i]).len() > 0
}

/// Whether every route is valid.
pub open spec fn all_valid(routes: Seq<Seq<char>>) -> bool {
    forall|i: int| 0 <= i < routes.len() ==> valid_route(#[trigger] routes[i])
}

/// `i` is the first route that is not valid.
pub open spec fn first_invalid_at(routes: Seq<Seq<char>>, i: int) -> bool {
    &&& 0 <= i < routes.len()
    &&& !valid_route(routes[i])
    &&& forall|j: int| 0 <= j < i ==> valid_route(#[trigger] routes[j])
}

/// The first route that is not valid, where there is one.
pub open spec fn first_invalid(routes: Seq<Seq<char>>) -> int {
    choose|i: int| first_invalid_at(routes, i)
}

/// The segments of a route, where none of them is empty.
pub fn valid_segments(route: &str) -> (r: Option<Vec<String>>)
    ensures
        match r {
            Some(segs) => valid_route(route@) && texts(segs@) == segments(route@),
            None => !valid_route(route@),
        },
{
    let segs = split_text(route, '/');
    let mut i: usize = 0;
    while i < segs.len()
        invariant
            i <= segs.len(),
            texts(segs@) == segments(route@),
            forall|j: int| 0 <= j < i ==> (#[trigger] segments(route@)[j]).len() > 0,
        decreases segs.len() - i,
    {
        assert(texts(segs@)[i as int] == segs[i as int]@);
        if segs[i].as_str().is_empty() {
            return None;
        }
        i += 1;
    }
    Some(segs)
}

/// Whether no segment of the route is empty.
pub fn is_valid_route(route: &str) -> (valid: bool)
    ensures
        valid == valid_route(route@),
{
    valid_segments(route).is_some()
}

/// The nodes of a set of routes are determined: whatever the order of the
/// routes, and however often a route occurs, there is one sequence of nodes
/// that resolves them.
pub proof fn lemma_resolution_unique(
    gateway: &ApiGateway,
    routes: Seq<Seq<char>>,
    others: Seq<Seq<char>>,
    paths: Seq<PathView>,
    other_paths: Seq<PathView>,
)
    requires
        resolves(gateway, routes, paths),
        resolves(gateway, others, other_paths),
        forall|path: Seq<char>| is_prefix_path(routes, path) <==> is_prefix_path(others, path),
    ensures
        paths == other_paths,
{
    let x = path_texts(paths);
    let y = path_texts(other_paths);
    assert forall|t: Seq<char>| x.contains(t) <==> y.contains(t) by {
        if x.contains(t) {
            let i = choose|i: int| 0 <= i < x.len() && x[i] == t;
            assert(paths[i].resource_path == t);
            assert(is_prefix_path(routes, t));
            assert(is_prefix_path(others, t));
            let (r, k) = choose|r: int, k: int|
                0 <= r < others.len() && 1 <= k <= segments(others[r]).len() && t
                    == #[trigger] prefix_path(others[r], k);
            assert(resolved(other_paths, prefix_path(others[r], k)));
            let j = choose|j: int|
                0 <= j < other_paths.len() && (#[trigger] other_paths[j]).resource_path == t;
            assert(y[j] == t);
        }
        if y.contains(t) {
            let i = choose|i: int| 0 <= i < y.len() && y[i] == t;
            assert(other_paths[i].resource_path == t);
            assert(is_prefix_path(others, t));
            assert(is_prefix_path(routes, t));
            let (r, k) = choose|r: int, k: int|
                0 <= r < routes.len() && 1 <= k <= segments(routes[r]).len() && t
                    == #[trigger] prefix_path(routes[r], k);
            assert(resolved(paths, prefix_path(routes[r], k)));
            let j = choose|j: int|
                0 <= j < paths.len() && (#[trigger] paths[j]).resource_path == t;
            assert(x[j] == t);
        }
    }
    crate::text::lemma_strictly_sorted_unique(x, y);
    assert forall|i: int| 0 <= i < paths.len() implies paths[i] == other_paths[i] by {
        assert(x[i] == y[i]);
        assert(paths[i].parent_id == parent_of(gateway, paths[i].resource_path));
        assert(other_paths[i].parent_id == parent_of(gateway, other_paths[i].resource_path));
    }
    assert(x.len() == y.len());
    assert(paths =~= other_paths);
}

/// Everything that the route begins with, the shortest first.
spec fn prefixes_of(route: Seq<char>) -> Seq<Seq<char>> {
    Seq::new(segments(route).len(), |k: int| prefix_path(route, k + 1))
}

/// Everything that one of the routes begins with, as often as it comes.
spec fn all_prefixes(routes: Seq<Seq<char>>) -> Seq<Seq<char>>
    decreases routes.len(),
{
    if routes.len() == 0 {
        Seq::empty()
    } else {
        all_prefixes(routes.drop_last()) + prefixes_of(routes.last())
    }
}

proof fn lemma_all_prefixes(routes: Seq<Seq<char>>, t: Seq<char>)
    ensures
        all_prefixes(routes).contains(t) <==> is_prefix_path(routes, t),
    decreases routes.len(),
{
    if routes.len() > 0 {
        let init = routes.drop_last();
        let last = routes.last();
        lemma_all_prefixes(init, t);
        let a = all_prefixes(init);
        let b = prefixes_of(last);
        if (a + b).contains(t) {
            let m = choose|m: int| 0 <= m < (a + b).len() && (a + b)[m] == t;
            if m < a.len() {
                assert(a[m] == t);
                assert(a.contains(t));
                let (r, k) = choose|r: int, k: int|
                    0 <= r < init.len() && 1 <= k <= segments(init[r]).len() && t
                        == #[trigger] prefix_path(init[r], k);
                assert(t == prefix_path(routes[r], k));
            } else {
                let k = m - a.len();
                assert(b[k] == t);
                assert(t == prefix_path(routes[routes.len() - 1], k + 1));
            }
        }
        if is_prefix_path(routes, t) {
            let (r, k) = choose|r: int, k: int|
                0 <= r < routes.len() && 1 <= k <= segments(routes[r]).len() && t
                    == #[trigger] prefix_path(routes[r], k);
            if r < init.len() {
                assert(t == prefix_path(init[r], k));
                assert(is_prefix_path(init, t));
                let m = choose|m: int| 0 <= m < a.len() && a[m] == t;
                assert((a + b)[m] == t);
            } else {
                assert(b[k - 1] == t);
                assert((a + b)[a.len() + k - 1] == t);
            }
        }
    } else {
        if is_prefix_path(routes, t) {
            let (r, k) = choose|r: int, k: int|
                0 <= r < routes.len() && 1 <= k <= segments(routes[r]).len() && t
                    == #[trigger] prefix_path(routes[r], k);
        }
    }
}

/// Every set of routes can be resolved.
pub proof fn lemma_resolution_exists(gateway: &ApiGateway, routes: Seq<Seq<char>>)
    ensures
        exists|paths: Seq<PathView>| resolves(gateway, routes, paths),
{
    let keys = once(all_prefixes(routes));
    lemma_once(all_prefixes(routes));
    let order = crate::text::sorted_order(keys);
    crate::text::lemma_sorted_order_sorts(keys);
    lemma_sorted_walk(keys, order);
    let walk = in_order(keys, order);
    let paths = Seq::new(
        walk.len(),
        |i: int| PathView { parent_id: parent_of(gateway, walk[i]), resource_path: walk[i] },
    );
    assert(path_texts(paths) =~= walk);
    assert forall|t: Seq<char>| walk.contains(t) <==> is_prefix_path(routes, t) by {
        lemma_all_prefixes(routes, t);
        assert(keys.contains(t) <==> all_prefixes(routes).contains(t));
    }
    assert forall|i: int| 0 <= i < paths.len() implies is_prefix_path(
        routes,
        (#[trigger] paths[i]).resource_path,
    ) by {
        assert(walk.contains(walk[i]));
    }
    assert forall|r: int, k: int|
        0 <= r < routes.len() && 1 <= k <= segments(routes[r]).len() implies resolved(
        paths,
        #[trigger] prefix_path(routes[r], k),
    ) by {
        let t = prefix_path(routes[r], k);
        assert(is_prefix_path(routes, t));
        assert(walk.contains(t));
        let i = choose|i: int| 0 <= i < walk.len() && walk[i] == t;
        assert(paths[i].resource_path == t);
    }
    assert(resolves(gateway, routes, paths));
}

/// Every route has its node among the nodes that resolve the routes.
pub proof fn lemma_routes_resolved(gateway: &ApiGateway, routes: Seq<Seq<char>>, paths: Seq<PathView>)
    requires
        resolves(gateway, routes, paths),
    ensures
        crate::stack::api::gateway::all_resolved(routes, paths),
{
    assert forall|j: int| 0 <= j < routes.len() implies resolved(paths, #[trigger] routes[j]) by {
        let segs = segments(routes[j]);
        lemma_split_pieces(routes[j], '/');
        crate::text::lemma_join_split(routes[j], '/');
        assert(segs.take(segs.len() as int) =~= segs);
        assert(prefix_path(routes[j], segs.len() as int) == routes[j]);
        assert(resolved(paths, prefix_path(routes[j], segs.len() as int)));
    }
}

/// Routes that were resolved keep their nodes when more routes are added:
/// the same path, the same node above, and so the same identifier.
pub proof fn lemma_nodes_stable(
    gateway: &ApiGateway,
    routes: Seq<Seq<char>>,
    more: Seq<Seq<char>>,
    paths: Seq<PathView>,
    more_paths: Seq<PathView>,
)
    requires
        resolves(gateway, routes, paths),
        resolves(gateway, routes + more, more_paths),
    ensures
        forall|i: int| 0 <= i < paths.len() ==> more_paths.contains(#[trigger] paths[i]),
{
    assert forall|i: int| 0 <= i < paths.len() implies more_paths.contains(
        #[trigger] paths[i],
    ) by {
        let t = paths[i].resource_path;
        assert(is_prefix_path(routes, t));
        let (r, k) = choose|r: int, k: int|
            0 <= r < routes.len() && 1 <= k <= segments(routes[r]).len() && t
                == #[trigger] prefix_path(routes[r], k);
        assert((routes + more)[r] == routes[r]);
        assert(resolved(more_paths, prefix_path((routes + more)[r], k)));
        let j = choose|j: int|
            0 <= j < more_paths.len() && (#[trigger] more_paths[j]).resource_path == t;
        assert(more_paths[j].parent_id == parent_of(gateway, t));
        assert(paths[i].parent_id == parent_of(gateway, t));
        assert(more_paths[j] == paths[i]);
    }
}

/// Whether a text can be a segment: it is not empty and free of the
/// separator.
pub open spec fn plain(seg: Seq<char>) -> bool {
    seg.len() > 0 && forall|k: int| 0 <= k < seg.len() ==> seg[k] != '/'
}

/// Whether `p` is what `full` begins with, and not empty.
pub open spec fn is_prefix(p: Seq<Seq<char>>, full: Seq<Seq<char>>) -> bool {
    0 < p.len() <= full.len() && p == full.take(p.len() as int)
}

/// A node of the tree of routes. Its children are named by the segment that
/// leads to them; no two children share a name.
#[derive(Debug)]
pub struct PathNode {
    pub children: Vec<(String, PathNode)>,
}

/// The names of the children.
pub open spec fn child_keys(children: Seq<(String, PathNode)>) -> Seq<Seq<char>> {
    Seq::new(children.len(), |i: int| children[i].0@)
}

/// Whether one of the children is named `key`.
pub open spec fn has_child(children: Seq<(String, PathNode)>, key: Seq<char>) -> bool {
    exists|i: int| 0 <= i < children.len() && (#[trigger] children[i]).0@ == key
}

/// Which of the children is named `key`, where one is.
pub open spec fn child_index(children: Seq<(String, PathNode)>, key: Seq<char>) -> int {
    choose|i: int| 0 <= i < children.len() && (#[trigger] children[i]).0@ == key
}

/// Whether the path `segs` leads from these children to a node: a child is
/// named by the first segment, and the path ends there or goes on below it.
pub open spec fn reach(children: Seq<(String, PathNode)>, segs: Seq<Seq<char>>) -> bool
    decreases segs.len(),
{
    &&& segs.len() > 0
    &&& has_child(children, segs[0])
    &&& (segs.len() == 1 || reach(
        children[child_index(children, segs[0])].1.children@,
        segs.drop_first(),
    ))
}

/// The paths put below a child named `key`: the child itself, then each
/// path of `sub` behind the child's name.
pub open spec fn below(key: Seq<char>, sub: Seq<Seq<Seq<char>>>) -> Seq<Seq<Seq<char>>> {
    seq![seq![key]] + Seq::new(sub.len(), |i: int| seq![key] + sub[i])
}

/// The paths to all nodes below these children: each child before what is
/// below it, the children in order.
pub open spec fn walk_all(children: Seq<(String, PathNode)>) -> Seq<Seq<Seq<char>>>
    decreases children, 0nat,
{
    if children.len() == 0 {
        Seq::empty()
    } else {
        walk_all(children.drop_last()) + below(children.last().0@, children.last().1.walk())
    }
}

/// The node of the path `segs` in the tree of `gateway`.
pub open spec fn node_view(gateway: &ApiGateway, segs: Seq<Seq<char>>) -> PathView {
    PathView { parent_id: parent_ref(gateway, segs), resource_path: join(segs, sep()) }
}

/// The nodes of the paths `rel`, each taken behind `prefix`.
pub open spec fn placed(
    gateway: &ApiGateway,
    prefix: Seq<Seq<char>>,
    rel: Seq<Seq<Seq<char>>>,
) -> Seq<PathView> {
    Seq::new(rel.len(), |i: int| node_view(gateway, prefix + rel[i]))
}

impl PathNode {
    /// No two children share a name, no name is empty or holds the
    /// separator, and the same holds below.
    pub open spec fn wf(&self) -> bool
        decreases self,
    {
        &&& distinct(child_keys(self.children@))
        &&& forall|i: int| 0 <= i < self.children.len() ==> plain((#[trigger] self.children[i]).0@)
        &&& forall|i: int| 0 <= i < self.children.len() ==> (#[trigger] self.children[i]).1.wf()
    }

    /// Whether the path `segs` leads from this node to a node below it.
    pub open spec fn contains(&self, segs: Seq<Seq<char>>) -> bool {
        reach(self.children@, segs)
    }

    /// The paths to all nodes below this one, a node before what is below
    /// it.
    pub open spec fn walk(&self) -> Seq<Seq<Seq<char>>>
        decreases self, 1nat,
    {
        walk_all(self.children@)
    }

    /// A node without children.
    pub fn new() -> (node: Self)
        ensures
            node.wf(),
            node.children@.len() == 0,
            forall|p: Seq<Seq<char>>| !node.contains(p),
    {
        PathNode { children: Vec::new() }
    }

    /// Adds the route and everything it begins with to the tree. A route
    /// with an empty segment is refused, and the tree stays as it was.
    pub fn add_path(&mut self, path: &str) -> (r: Result<(), CompileError>)
        requires
            old(self).wf(),
        ensures
            final(self).wf(),
            match r {
                Ok(_) => valid_route(path@) && forall|p: Seq<Seq<char>>|
                    final(self).contains(p) <==> (old(self).contains(p) || is_prefix(
                        p,
                        segments(path@),
                    )),
                Err(e) => !valid_route(path@) && e@ == (ErrorView::InvalidRoute { route: path@ })
                    && *final(self) == *old(self),
            },
    {
        let segs = match valid_segments(path) {
            Some(segs) => segs,
            None => {
                return Err(CompileError::InvalidRoute { route: path.to_owned() });
            },
        };
        proof {
            lemma_split_pieces(path@, '/');
            assert forall|k: int| 0 <= k < segs.len() implies plain(#[trigger] segs[k]@) by {
                assert(texts(segs@)[k] == segs[k]@);
                assert(segments(path@)[k].len() > 0);
                assert forall|c: int| 0 <= c < segs[k]@.len() implies segs[k]@[c] != '/' by {
                    assert(texts(segs@)[k][c] != '/');
                }
            }
            assert(texts(segs@).skip(0) =~= texts(segs@));
        }
        self.insert(&segs, 0);
        Ok(())
    }

    fn insert(&mut self, segs: &Vec<String>, from: usize)
        requires
            old(self).wf(),
            from <= segs.len(),
            forall|k: int| 0 <= k < segs.len() ==> plain(#[trigger] segs[k]@),
        ensures
            final(self).wf(),
            forall|p: Seq<Seq<char>>|
                final(self).contains(p) <==> (old(self).contains(p) || is_prefix(
                    p,
                    texts(segs@).skip(from as int),
                )),
        decreases segs.len() - from,
    {
        if from >= segs.len() {
            return ;
        }
        let ghost before = *self;
        let ghost seg = segs[from as int]@;
        let ghost rest = texts(segs@).skip(from + 1);
        proof {
            assert(texts(segs@).skip(from as int) =~= seq![seg] + rest);
        }
        let i = match find_child(&self.children, &segs[from]) {
            Some(i) => i,
            None => {
                let fresh = PathNode::new();
                self.children.push((segs[from].clone(), fresh));
                proof {
                    assert(self.children@.drop_last() =~= before.children@);
                    lemma_push_child(before, *self, seg);
                }
                self.children.len() - 1
            },
        };
        let ghost mid = *self;
        let (key, mut child) = self.children.remove(i);
        child.insert(segs, from + 1);
        self.children.insert(i, (key, child));
        proof {
            assert(self.children@ =~= mid.children@.update(i as int, (key, child)));
            lemma_insert_step(mid, *self, i as int, seg, rest);
            assert forall|p: Seq<Seq<char>>|
                self.contains(p) <==> (before.contains(p) || is_prefix(p, seq![seg] + rest)) by {
                if p == seq![seg] {
                    assert((seq![seg] + rest).take(1) =~= seq![seg]);
                }
            }
        }
    }
}

fn find_child(children: &Vec<(String, PathNode)>, seg: &String) -> (r: Option<usize>)
    ensures
        match r {
            Some(i) => i < children.len() && children[i as int].0@ == seg@,
            None => forall|j: int| 0 <= j < children.len() ==> (#[trigger] children[j]).0@ != seg@,
        },
{
    let mut i: usize = 0;
    while i < children.len()
        invariant
            i <= children.len(),
            forall|j: int| 0 <= j < i ==> (#[trigger] children[j]).0@ != seg@,
        decreases children.len() - i,
    {
        if children[i].0 == *seg {
            return Some(i);
        }
        i += 1;
    }
    None
}

/// Where names are distinct, the child with a name is the one that has it.
proof fn lemma_child_index(children: Seq<(String, PathNode)>, key: Seq<char>, i: int)
    requires
        distinct(child_keys(children)),
        0 <= i < children.len(),
        children[i].0@ == key,
    ensures
        has_child(children, key),
        child_index(children, key) == i,
{
    let c = child_index(children, key);
    if c < i {
        assert(child_keys(children)[c] != child_keys(children)[i]);
    }
    if i < c {
        assert(child_keys(children)[i] != child_keys(children)[c]);
    }
}

/// A path leads on from its first segment exactly if what follows leads on
/// from there.
proof fn lemma_prefix_step(p: Seq<Seq<char>>, full: Seq<Seq<char>>)
    requires
        p.len() > 0,
        full.len() > 0,
    ensures
        is_prefix(p, full) <==> (p[0] == full[0] && (p.len() == 1 || is_prefix(
            p.drop_first(),
            full.skip(1),
        ))),
{
    if is_prefix(p, full) {
        assert(p[0] == full.take(p.len() as int)[0]);
        if p.len() > 1 {
            assert(p.drop_first() =~= full.skip(1).take(p.len() - 1));
        }
    }
    if p[0] == full[0] && (p.len() == 1 || is_prefix(p.drop_first(), full.skip(1))) {
        if p.len() == 1 {
            assert(p =~= full.take(1));
        } else {
            let q = p.drop_first();
            assert(q == full.skip(1).take(q.len() as int));
            assert forall|k: int| 0 <= k < p.len() implies p[k] == full.take(p.len() as int)[k] by {
                if k > 0 {
                    assert(p[k] == q[k - 1]);
                    assert(q[k - 1] == full.skip(1).take(q.len() as int)[k - 1]);
                }
            }
            assert(p =~= full.take(p.len() as int));
        }
    }
}

/// A new child without children adds one path: the one that ends at it.
proof fn lemma_push_child(before: PathNode, after: PathNode, seg: Seq<char>)
    requires
        before.wf(),
        plain(seg),
        forall|j: int| 0 <= j < before.children.len() ==> (#[trigger] before.children[j]).0@ != seg,
        after.children@.len() == before.children@.len() + 1,
        after.children@.drop_last() == before.children@,
        after.children@.last().0@ == seg,
        after.children@.last().1.wf(),
        after.children@.last().1.children@.len() == 0,
    ensures
        after.wf(),
        forall|p: Seq<Seq<char>>| after.contains(p) <==> (before.contains(p) || p == seq![seg]),
{
    let n = before.children@.len() as int;
    assert forall|j: int| 0 <= j < n implies after.children[j] == before.children[j] by {
        assert(after.children@.drop_last()[j] == after.children@[j]);
    }
    assert(distinct(child_keys(after.children@))) by {
        assert forall|a: int, b: int| 0 <= a < b < after.children.len() implies #[trigger] child_keys(
            after.children@,
        )[a] != #[trigger] child_keys(after.children@)[b] by {
            if b < n {
                assert(child_keys(before.children@)[a] != child_keys(before.children@)[b]);
            } else {
                assert(before.children[a].0@ != seg);
            }
        }
    }
    assert forall|p: Seq<Seq<char>>| after.contains(p) <==> (before.contains(p) || p == seq![
        seg,
    ]) by {
        if p.len() > 0 {
            let key = p[0];
            if key == seg {
                lemma_child_index(after.children@, seg, n);
                assert(!has_child(before.children@, seg));
                if p.len() == 1 {
                    assert(p =~= seq![seg]);
                } else {
                    assert(!reach(after.children[n].1.children@, p.drop_first()));
                    assert(p.len() != seq![seg].len());
                }
            } else {
                assert(p[0] != seq![seg][0]);
                if has_child(after.children@, key) {
                    let j = child_index(after.children@, key);
                    assert(before.children[j].0@ == key);
                    lemma_child_index(before.children@, key, j);
                }
                if has_child(before.children@, key) {
                    let j = child_index(before.children@, key);
                    assert(after.children[j].0@ == key);
                    lemma_child_index(after.children@, key, j);
                }
            }
        }
    }
}

/// Adding paths below one child adds the same paths, behind the child's
/// name, to the node.
proof fn lemma_insert_step(
    mid: PathNode,
    after: PathNode,
    i: int,
    seg: Seq<char>,
    rest: Seq<Seq<char>>,
)
    requires
        mid.wf(),
        0 <= i < mid.children.len(),
        mid.children[i].0@ == seg,
        after.children@.len() == mid.children@.len(),
        forall|j: int|
            0 <= j < mid.children.len() && j != i ==> #[trigger] after.children[j]
                == mid.children[j],
        after.children[i].0 == mid.children[i].0,
        after.children[i].1.wf(),
        forall|q: Seq<Seq<char>>|
            after.children[i].1.contains(q) <==> (mid.children[i].1.contains(q) || is_prefix(
                q,
                rest,
            )),
    ensures
        after.wf(),
        forall|p: Seq<Seq<char>>|
            after.contains(p) <==> (mid.contains(p) || is_prefix(p, seq![seg] + rest)),
{
    let full = seq![seg] + rest;
    assert(full.skip(1) =~= rest);
    assert forall|j: int| 0 <= j < after.children.len() implies (#[trigger] after.children[j]).0
        == mid.children[j].0 by {}
    assert(child_keys(after.children@) =~= child_keys(mid.children@));
    assert forall|j: int| 0 <= j < after.children.len() implies plain(
        (#[trigger] after.children[j]).0@,
    ) by {
        assert(plain(mid.children[j].0@));
    }
    assert forall|j: int| 0 <= j < after.children.len() implies (#[trigger] after.children[j]).1.wf() by {
        if j != i {
            assert(mid.children[j].1.wf());
        }
    }
    assert forall|p: Seq<Seq<char>>|
        after.contains(p) <==> (mid.contains(p) || is_prefix(p, full)) by {
        if p.len() > 0 {
            lemma_prefix_step(p, full);
            let key = p[0];
            let q = p.drop_first();
            if key == seg {
                lemma_child_index(after.children@, seg, i);
                lemma_child_index(mid.children@, seg, i);
                assert(after.children[i].1.contains(q) <==> (mid.children[i].1.contains(q)
                    || is_prefix(q, rest)));
            } else {
                if has_child(after.children@, key) {
                    let j = child_index(after.children@, key);
                    assert(mid.children[j].0@ == key);
                    lemma_child_index(mid.children@, key, j);
                }
                if has_child(mid.children@, key) {
                    let j = child_index(mid.children@, key);
                    assert(after.children[j].0@ == key);
                    lemma_child_index(after.children@, key, j);
                }
            }
        }
    }
}

/// What stands in one of two sequences stands in the two put together.
proof fn lemma_concat_contains(a: Seq<Seq<Seq<char>>>, b: Seq<Seq<Seq<char>>>, p: Seq<Seq<char>>)
    ensures
        (a + b).contains(p) <==> (a.contains(p) || b.contains(p)),
{
    if (a + b).contains(p) {
        let m = choose|m: int| 0 <= m < (a + b).len() && (a + b)[m] == p;
        if m < a.len() {
            assert(a[m] == p);
        } else {
            assert(b[m - a.len()] == p);
        }
    }
    if a.contains(p) {
        let m = choose|m: int| 0 <= m < a.len() && a[m] == p;
        assert((a + b)[m] == p);
    }
    if b.contains(p) {
        let m = choose|m: int| 0 <= m < b.len() && b[m] == p;
        assert((a + b)[a.len() + m] == p);
    }
}

/// The paths below a child are the child's name, alone or followed by a
/// path from the child.
proof fn lemma_below_contains(key: Seq<char>, sub: Seq<Seq<Seq<char>>>, p: Seq<Seq<char>>)
    ensures
        below(key, sub).contains(p) <==> (p.len() > 0 && p[0] == key && (p.len() == 1
            || sub.contains(p.drop_first()))),
{
    let w = below(key, sub);
    if w.contains(p) {
        let m = choose|m: int| 0 <= m < w.len() && w[m] == p;
        if m > 0 {
            assert(p == seq![key] + sub[m - 1]);
            assert(p.drop_first() =~= sub[m - 1]);
        }
    }
    if p.len() > 0 && p[0] == key {
        if p.len() == 1 {
            assert(p =~= seq![key]);
            assert(w[0] == p);
        } else if sub.contains(p.drop_first()) {
            let m = choose|m: int| 0 <= m < sub.len() && sub[m] == p.drop_first();
            assert(seq![key] + sub[m] =~= p);
            assert(w[m + 1] == p);
        }
    }
}

/// The walk of a tree lists the paths that the tree holds, each once; each
/// is a sequence of segments free of the separator.
proof fn lemma_walk_all(children: Seq<(String, PathNode)>)
    requires
        distinct(child_keys(children)),
        forall|i: int| 0 <= i < children.len() ==> plain((#[trigger] children[i]).0@),
        forall|i: int| 0 <= i < children.len() ==> (#[trigger] children[i]).1.wf(),
    ensures
        forall|p: Seq<Seq<char>>| walk_all(children).contains(p) <==> reach(children, p),
        forall|a: int, b: int|
            0 <= a < b < walk_all(children).len() ==> #[trigger] walk_all(children)[a]
                != #[trigger] walk_all(children)[b],
        forall|a: int|
            0 <= a < walk_all(children).len() ==> {
                &&& (#[trigger] walk_all(children)[a]).len() > 0
                &&& free_of(walk_all(children)[a], '/')
                &&& has_child(children, walk_all(children)[a][0])
            },
    decreases children,
{
    if children.len() == 0 {
        assert forall|p: Seq<Seq<char>>| !reach(children, p) by {}
    } else {
        let n = children.len() as int;
        let init = children.drop_last();
        let last = children.last();
        let key = last.0@;
        let sub = last.1.walk();
        assert(children[n - 1].1.wf());
        assert(plain(children[n - 1].0@));
        assert forall|a: int, b: int| 0 <= a < b < init.len() implies #[trigger] child_keys(init)[a]
            != #[trigger] child_keys(init)[b] by {
            assert(child_keys(children)[a] != child_keys(children)[b]);
        }
        assert forall|i: int| 0 <= i < init.len() implies plain((#[trigger] init[i]).0@) by {
            assert(plain(children[i].0@));
        }
        assert forall|i: int| 0 <= i < init.len() implies (#[trigger] init[i]).1.wf() by {
            assert(children[i].1.wf());
        }
        lemma_walk_all(init);
        lemma_walk_all(last.1.children@);
        let w0 = walk_all(init);
        let w1 = below(key, sub);
        let w = walk_all(children);
        assert(w == w0 + w1);
        assert(sub == walk_all(last.1.children@));
        assert(!has_child(init, key)) by {
            if has_child(init, key) {
                let j = child_index(init, key);
                assert(child_keys(children)[j] != child_keys(children)[n - 1]);
            }
        }
        assert forall|p: Seq<Seq<char>>| w.contains(p) <==> reach(children, p) by {
            lemma_below_contains(key, sub, p);
            lemma_concat_contains(w0, w1, p);
            assert(w0.contains(p) <==> reach(init, p));
            if p.len() > 0 {
                if p[0] == key {
                    lemma_child_index(children, key, n - 1);
                    assert(!reach(init, p));
                    assert(children[n - 1] == last);
                    if p.len() > 1 {
                        assert(sub.contains(p.drop_first()) <==> reach(
                            last.1.children@,
                            p.drop_first(),
                        ));
                        assert(reach(children, p) <==> reach(last.1.children@, p.drop_first()));
                    } else {
                        assert(reach(children, p));
                    }
                } else {
                    assert(!w1.contains(p));
                    if has_child(children, p[0]) {
                        let j = child_index(children, p[0]);
                        assert(init[j].0@ == p[0]);
                        lemma_child_index(init, p[0], j);
                    }
                    if has_child(init, p[0]) {
                        let j = child_index(init, p[0]);
                        assert(children[j].0@ == p[0]);
                        lemma_child_index(children, p[0], j);
                    }
                }
            }
        }
        assert forall|a: int| 0 <= a < w.len() implies {
            &&& (#[trigger] w[a]).len() > 0
            &&& free_of(w[a], '/')
            &&& has_child(children, w[a][0])
        } by {
            if a < w0.len() {
                assert(w[a] == w0[a]);
                let j = child_index(init, w0[a][0]);
                assert(children[j].0@ == w0[a][0]);
            } else {
                let c = a - w0.len();
                assert(w[a] == w1[c]);
                assert(children[n - 1].0@ == key);
                if c > 0 {
                    let below_path = sub[c - 1];
                    assert(w1[c] == seq![key] + below_path);
                    assert(free_of(below_path, '/'));
                    assert forall|x: int, y: int|
                        0 <= x < w1[c].len() && 0 <= y < w1[c][x].len() implies #[trigger] w1[c][x][y]
                        != '/' by {
                        if x > 0 {
                            assert(w1[c][x] == below_path[x - 1]);
                            assert(below_path[x - 1][y] != '/');
                        }
                    }
                }
            }
        }
        assert forall|a: int, b: int| 0 <= a < b < w.len() implies #[trigger] w[a]
            != #[trigger] w[b] by {
            if b < w0.len() {
                assert(w0[a] != w0[b]);
            } else if a >= w0.len() {
                let c = a - w0.len();
                let d = b - w0.len();
                assert(w[a] == w1[c]);
                assert(w[b] == w1[d]);
                assert(w1[d] == seq![key] + sub[d - 1]);
                assert(sub[d - 1].len() > 0);
                if c > 0 {
                    assert(w1[c] == seq![key] + sub[c - 1]);
                    assert(sub[c - 1] != sub[d - 1]);
                    assert((seq![key] + sub[c - 1]).drop_first() =~= sub[c - 1]);
                    assert((seq![key] + sub[d - 1]).drop_first() =~= sub[d - 1]);
                } else {
                    assert(w1[c].len() == 1);
                }
            } else {
                let d = b - w0.len();
                assert(w[a] == w0[a]);
                assert(w[b] == w1[d]);
                assert(w1[d][0] == key);
                assert(has_child(init, w0[a][0]));
            }
        }
    }
}

/// Whether `p` is what one of the first `n` routes begins with.
pub open spec fn covered(routes: Seq<Seq<char>>, n: int, p: Seq<Seq<char>>) -> bool {
    exists|x: int| 0 <= x < n && is_prefix(p, segments(#[trigger] routes[x]))
}

/// Walks the tree and makes a node for every path, each node before those
/// below it.
fn recurse(
    gateway: &ApiGateway,
    route_tree: &PathNode,
    path_so_far: Option<&ResourcePath>,
    route_so_far: &str,
    Ghost(prefix): Ghost<Seq<Seq<char>>>,
) -> (paths: Vec<ResourcePath>)
    requires
        path_so_far is None <==> prefix.len() == 0,
        prefix.len() > 0 ==> route_so_far@ == join(prefix, sep()) && path_so_far->0.resource_path@
            == join(prefix, sep()),
    ensures
        path_views(paths@) == placed(gateway, prefix, route_tree.walk()),
    decreases route_tree,
{
    let mut paths: Vec<ResourcePath> = Vec::new();
    let mut idx: usize = 0;
    proof {
        assert(route_tree.children@.take(0) =~= Seq::empty());
        assert(path_views(paths@) =~= placed(
            gateway,
            prefix,
            walk_all(route_tree.children@.take(0)),
        ));
    }
    while idx < route_tree.children.len()
        invariant
            idx <= route_tree.children.len(),
            path_so_far is None <==> prefix.len() == 0,
            prefix.len() > 0 ==> route_so_far@ == join(prefix, sep())
                && path_so_far->0.resource_path@ == join(prefix, sep()),
            path_views(paths@) == placed(
                gateway,
                prefix,
                walk_all(route_tree.children@.take(idx as int)),
            ),
        decreases route_tree.children.len() - idx,
    {
        let subroute = &route_tree.children[idx].0;
        let child = &route_tree.children[idx].1;
        let ghost here = prefix.push(subroute@);
        let route_here = match path_so_far {
            None => subroute.clone(),
            Some(_) => {
                let mut s = route_so_far.to_owned();
                s.append("/");
                s.append(subroute.as_str());
                s
            },
        };
        let parent_id = match path_so_far {
            Some(above) => above.var("id"),
            None => gateway.var_gateway_rest_api("root_resource_id"),
        };
        let rp = ResourcePath { parent_id, resource_path: route_here };
        proof {
            reveal_strlit("/");
            assert("/"@ =~= sep());
            assert(here.drop_last() =~= prefix);
            assert(rp@ == node_view(gateway, here));
        }
        let mut sub = recurse(gateway, child, Some(&rp), rp.resource_path.as_str(), Ghost(here));
        let ghost before = path_views(paths@);
        let ghost below_views = path_views(sub@);
        let ghost done = route_tree.children@.take(idx as int);
        let ghost now = route_tree.children@.take(idx + 1);
        paths.push(rp);
        paths.append(&mut sub);
        proof {
            assert(now.drop_last() =~= done);
            assert(now.last() == route_tree.children@[idx as int]);
            let w1 = below(subroute@, child.walk());
            assert(walk_all(now) == walk_all(done) + w1);
            assert(path_views(paths@) =~= before + seq![rp@] + below_views);
            assert forall|i: int| 0 <= i < w1.len() implies #[trigger] placed(gateway, prefix, w1)[i]
                == (seq![rp@] + below_views)[i] by {
                if i == 0 {
                    assert(prefix + w1[0] =~= here);
                } else {
                    assert(w1[i] == seq![subroute@] + child.walk()[i - 1]);
                    assert(prefix + w1[i] =~= here + child.walk()[i - 1]);
                }
            }
            assert(placed(gateway, prefix, w1) =~= seq![rp@] + below_views);
            assert(placed(gateway, prefix, walk_all(done) + w1) =~= placed(
                gateway,
                prefix,
                walk_all(done),
            ) + placed(gateway, prefix, w1));
        }
        idx += 1;
    }
    proof {
        assert(route_tree.children@.take(route_tree.children.len() as int)
            =~= route_tree.children@);
    }
    paths
}

/// Walks the tree: makes the node of every path that the tree holds, each
/// once, a node before those below it.
pub fn walk_tree(gateway: &ApiGateway, route_tree: &PathNode) -> (paths: Vec<ResourcePath>)
    requires
        route_tree.wf(),
    ensures
        path_views(paths@) == placed(gateway, Seq::empty(), route_tree.walk()),
{
    recurse(gateway, route_tree, None, "", Ghost(Seq::empty()))
}

/// The walk of a tree makes no node twice: no two of its nodes share a
/// path.
pub proof fn lemma_walk_distinct(gateway: &ApiGateway, tree: PathNode)
    requires
        tree.wf(),
    ensures
        distinct(path_texts(placed(gateway, Seq::empty(), tree.walk()))),
{
    let w = tree.walk();
    let nodes = placed(gateway, Seq::empty(), w);
    let keys = path_texts(nodes);
    lemma_walk_all(tree.children@);
    assert(w == walk_all(tree.children@));
    assert forall|a: int, b: int| 0 <= a < b < keys.len() implies #[trigger] keys[a]
        != #[trigger] keys[b] by {
        assert(Seq::<Seq<char>>::empty() + w[a] =~= w[a]);
        assert(Seq::<Seq<char>>::empty() + w[b] =~= w[b]);
        assert(nodes[a] == node_view(gateway, w[a]));
        assert(nodes[b] == node_view(gateway, w[b]));
        assert(w[a] != w[b]);
        if keys[a] == keys[b] {
            lemma_join_injective(w[a], w[b], '/');
        }
    }
}

/// Adding routes to a tree changes no node that was there: the walk of the
/// larger tree makes every node that the walk of the smaller one makes, with
/// the same path and the same node above, and so the same identifier.
pub proof fn lemma_walk_stable(gateway: &ApiGateway, small: PathNode, large: PathNode)
    requires
        small.wf(),
        large.wf(),
        forall|p: Seq<Seq<char>>| small.contains(p) ==> large.contains(p),
    ensures
        forall|i: int|
            0 <= i < placed(gateway, Seq::empty(), small.walk()).len() ==> placed(
                gateway,
                Seq::empty(),
                large.walk(),
            ).contains(#[trigger] placed(gateway, Seq::empty(), small.walk())[i]),
{
    let ws = small.walk();
    let wl = large.walk();
    lemma_walk_all(small.children@);
    lemma_walk_all(large.children@);
    assert(ws == walk_all(small.children@));
    assert(wl == walk_all(large.children@));
    let before = placed(gateway, Seq::empty(), ws);
    let after = placed(gateway, Seq::empty(), wl);
    assert forall|i: int| 0 <= i < before.len() implies after.contains(#[trigger] before[i]) by {
        assert(ws.contains(ws[i]));
        assert(small.contains(ws[i]));
        assert(large.contains(ws[i]));
        assert(wl.contains(ws[i]));
        let j = choose|j: int| 0 <= j < wl.len() && wl[j] == ws[i];
        assert(after[j] == before[i]);
    }
}

/// What the walk of a tree that holds the routes, put in the order of the
/// paths, owes the resolver's contract.
proof fn lemma_resolves(
    gateway: &ApiGateway,
    routes: Seq<Seq<char>>,
    tree: PathNode,
    nodes: Seq<PathView>,
    order: Seq<int>,
    sorted: Seq<PathView>,
)
    requires
        tree.wf(),
        forall|p: Seq<Seq<char>>| tree.contains(p) <==> covered(routes, routes.len() as int, p),
        nodes == placed(gateway, Seq::empty(), tree.walk()),
        sorts(order, path_texts(nodes)),
        sorted.len() == nodes.len(),
        forall|i: int| 0 <= i < sorted.len() ==> #[trigger] sorted[i] == nodes[order[i]],
    ensures
        resolves(gateway, routes, sorted),
{
    let w = tree.walk();
    let keys = path_texts(nodes);
    lemma_walk_all(tree.children@);
    assert(w == walk_all(tree.children@));
    assert forall|m: int| 0 <= m < w.len() implies (#[trigger] nodes[m]) == node_view(
        gateway,
        w[m],
    ) by {
        assert(Seq::<Seq<char>>::empty() + w[m] =~= w[m]);
    }
    assert forall|a: int, b: int| 0 <= a < b < keys.len() implies #[trigger] keys[a]
        != #[trigger] keys[b] by {
        assert(nodes[a] == node_view(gateway, w[a]));
        assert(nodes[b] == node_view(gateway, w[b]));
        assert(w[a] != w[b]);
        if keys[a] == keys[b] {
            lemma_join_injective(w[a], w[b], '/');
        }
    }
    lemma_sorted_walk(keys, order);
    assert(path_texts(sorted) =~= in_order(keys, order));
    assert forall|i: int| 0 <= i < sorted.len() implies is_prefix_path(
        routes,
        (#[trigger] sorted[i]).resource_path,
    ) by {
        let m = order[i];
        assert(nodes[m] == node_view(gateway, w[m]));
        assert(w.contains(w[m]));
        assert(tree.contains(w[m]));
        let x = choose|x: int| 0 <= x < routes.len() && is_prefix(w[m], segments(#[trigger] routes[x]));
        let k = w[m].len() as int;
        assert(sorted[i].resource_path == prefix_path(routes[x], k));
    }
    assert forall|r: int, k: int|
        0 <= r < routes.len() && 1 <= k <= segments(routes[r]).len() implies resolved(
        sorted,
        #[trigger] prefix_path(routes[r], k),
    ) by {
        let p = segments(routes[r]).take(k);
        assert(is_prefix(p, segments(routes[r])));
        assert(covered(routes, routes.len() as int, p));
        assert(tree.contains(p));
        assert(w.contains(p));
        let m = choose|m: int| 0 <= m < w.len() && w[m] == p;
        assert(nodes[m] == node_view(gateway, w[m]));
        assert(lists(order, m));
        let i = choose|i: int| 0 <= i < order.len() && #[trigger] order[i] == m;
        assert(sorted[i].resource_path == prefix_path(routes[r], k));
    }
    assert forall|i: int| 0 <= i < sorted.len() implies (#[trigger] sorted[i]).parent_id
        == parent_of(gateway, sorted[i].resource_path) by {
        let m = order[i];
        assert(nodes[m] == node_view(gateway, w[m]));
        lemma_split_join(w[m], '/');
    }
}

/// Resolves the routes: makes the nodes of the resource tree of `gateway`.
/// A route with an empty segment is refused; the first such route is
/// reported, and no node is made.
pub fn resolve(gateway: &ApiGateway, routes: &Vec<String>) -> (r: Result<
    Vec<ResourcePath>,
    CompileError,
>)
    ensures
        match r {
            Ok(paths) => all_valid(texts(routes@)) && resolves(
                gateway,
                texts(routes@),
                path_views(paths@),
            ),
            Err(e) => !all_valid(texts(routes@)) && e@ == (ErrorView::InvalidRoute {
                route: texts(routes@)[first_invalid(texts(routes@))],
            }),
        },
{
    let mut tree = PathNode::new();
    let mut r: usize = 0;
    while r < routes.len()
        invariant
            r <= routes.len(),
            tree.wf(),
            forall|j: int| 0 <= j < r ==> valid_route(#[trigger] texts(routes@)[j]),
            forall|p: Seq<Seq<char>>| tree.contains(p) <==> covered(texts(routes@), r as int, p),
        decreases routes.len() - r,
    {
        let ghost before = tree;
        assert(texts(routes@)[r as int] == routes[r as int]@);
        match tree.add_path(routes[r].as_str()) {
            Ok(_) => {},
            Err(e) => {
                proof {
                    assert(first_invalid_at(texts(routes@), r as int));
                    let other = first_invalid(texts(routes@));
                    assert(first_invalid_at(texts(routes@), other));
                    assert(other == r);
                }
                return Err(e);
            },
        }
        proof {
            assert forall|p: Seq<Seq<char>>|
                tree.contains(p) <==> covered(texts(routes@), r + 1, p) by {
                if covered(texts(routes@), r + 1, p) {
                    let x = choose|x: int|
                        0 <= x < r + 1 && is_prefix(p, segments(#[trigger] texts(routes@)[x]));
                    if x < r {
                        assert(covered(texts(routes@), r as int, p));
                    }
                }
                if before.contains(p) {
                    let x = choose|x: int|
                        0 <= x < r && is_prefix(p, segments(#[trigger] texts(routes@)[x]));
                    assert(0 <= x < r + 1);
                }
            }
        }
        r += 1;
    }
    let nodes = recurse(gateway, &tree, None, "", Ghost(Seq::empty()));
    let mut keys: Vec<String> = Vec::new();
    let mut i: usize = 0;
    while i < nodes.len()
        invariant
            i <= nodes.len(),
            texts(keys@) == path_texts(path_views(nodes@)).take(i as int),
        decreases nodes.len() - i,
    {
        let ghost before = texts(keys@);
        let key = nodes[i].resource_path.clone();
        keys.push(key);
        assert(texts(keys@) =~= before.push(key@));
        assert(texts(keys@) =~= path_texts(path_views(nodes@)).take(i + 1));
        i += 1;
    }
    assert(texts(keys@) =~= path_texts(path_views(nodes@)));
    let order = sort_order(&keys);
    let mut paths: Vec<ResourcePath> = Vec::new();
    let mut i: usize = 0;
    while i < order.len()
        invariant
            i <= order.len(),
            paths.len() == i,
            order.len() == nodes.len(),
            forall|k: int| 0 <= k < order.len() ==> 0 <= #[trigger] indices(order@)[k] < nodes.len(),
            forall|k: int|
                0 <= k < i ==> (#[trigger] path_views(paths@)[k]) == path_views(
                    nodes@,
                )[indices(order@)[k]],
        decreases order.len() - i,
    {
        assert(0 <= indices(order@)[i as int] < nodes.len());
        let ghost before = paths@;
        let node = nodes[order[i]].clone();
        paths.push(node);
        proof {
            assert forall|k: int| 0 <= k < i + 1 implies (#[trigger] path_views(paths@)[k])
                == path_views(nodes@)[indices(order@)[k]] by {
                if k < i {
                    assert(path_views(before)[k] == path_views(nodes@)[indices(order@)[k]]);
                    assert(paths@[k] == before[k]);
                }
            }
        }
        i += 1;
    }
    proof {
        lemma_resolves(
            gateway,
            texts(routes@),
            tree,
            path_views(nodes@),
            indices(order@),
            path_views(paths@),
        );
    }
    Ok(paths)
}

} // verus!
