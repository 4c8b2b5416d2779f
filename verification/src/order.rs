//! The dependency resolver.
//!
//! [`determine_wakeup_order`] turns a server list into a wake order in
//! which every dependency precedes its dependents, or reports the first
//! structural fault it meets: a `depends` entry that names no server, or a
//! dependency cycle. The traversal is a three-colour depth-first search,
//! visiting servers in input order so that the result is deterministic:
//! ties between independent subgraphs are broken by input order, and which
//! fault is reported, with which name, is fixed. The whole behaviour is
//! pinned by [`spec_resolve`], a specification-level rendition of the same
//! traversal, whose outcome the executable resolver provably returns.

use vstd::prelude::*;
use vstd::seq_lib::*;

use crate::config::{
    all_checks_valid, valid_check, validate_health_check, Server, ServerConfigError, ServerView,
};

verus! {

/// `s` depends on a server named `name`.
pub open spec fn mentions_dep(s: ServerView, name: Seq<char>) -> bool {
    exists|k: int| 0 <= k < s.depends.len() && s.depends[k] == name
}

/// Some server in the set is named `name`.
pub open spec fn has_server_named(servers: Seq<ServerView>, name: Seq<char>) -> bool {
    exists|j: int| 0 <= j < servers.len() && servers[j].name == name
}

/// Every `depends` entry of every server names a server of the set.
pub open spec fn all_deps_defined(servers: Seq<ServerView>) -> bool {
    forall|i: int, k: int|
        0 <= i < servers.len() && 0 <= k < servers[i].depends.len() ==> has_server_named(
            servers,
            #[trigger] servers[i].depends[k],
        )
}

/// `name` is depended on by some server, yet no server bears it.
pub open spec fn undefined_dep(servers: Seq<ServerView>, name: Seq<char>) -> bool {
    &&& exists|i: int, k: int|
        0 <= i < servers.len() && 0 <= k < servers[i].depends.len() && servers[i].depends[k]
            == name
    &&& !has_server_named(servers, name)
}

/// `path` lists positions of servers that form a dependency cycle: each
/// entry depends on the name of the next, and the last depends on the name
/// of the first.
pub open spec fn is_cycle(servers: Seq<ServerView>, path: Seq<int>) -> bool {
    &&& path.len() > 0
    &&& forall|t: int| 0 <= t < path.len() ==> 0 <= #[trigger] path[t] < servers.len()
    &&& forall|t: int|
        0 <= t < path.len() - 1 ==> mentions_dep(servers[#[trigger] path[t]], servers[path[t + 1]].name)
    &&& mentions_dep(servers[path.last()], servers[path[0]].name)
}

/// The `depends` relation of the set contains a cycle.
pub open spec fn has_cycle(servers: Seq<ServerView>) -> bool {
    exists|path: Seq<int>| is_cycle(servers, path)
}

/// The set contains a cycle running through a server named `name`.
pub open spec fn cycle_through(servers: Seq<ServerView>, name: Seq<char>) -> bool {
    exists|path: Seq<int>, t: int|
        is_cycle(servers, path) && 0 <= t < path.len() && servers[path[t]].name == name
}

/// `s` is one of the entries of `order`.
pub open spec fn appears_in(order: Seq<ServerView>, s: ServerView) -> bool {
    exists|j: int| 0 <= j < order.len() && #[trigger] order[j] == s
}

/// Some entry of `order` before position `i` is a server named `name`.
pub open spec fn dep_before(order: Seq<ServerView>, i: int, name: Seq<char>) -> bool {
    exists|j: int| 0 <= j < i && #[trigger] order[j].name == name
}

/// The output is safe to wake in order: every dependency of an entry names
/// an earlier entry.
pub open spec fn wake_ordered(order: Seq<ServerView>) -> bool {
    forall|i: int, k: int|
        0 <= i < order.len() && 0 <= k < order[i].depends.len() ==> dep_before(
            order,
            i,
            #[trigger] order[i].depends[k],
        )
}

/// Position of the first server bearing `name`, scanning from `from`.
pub open spec fn first_index_from(servers: Seq<ServerView>, name: Seq<char>, from: int) -> Option<
    int,
>
    decreases servers.len() - from,
{
    if from < 0 || from >= servers.len() {
        None
    } else if servers[from].name == name {
        Some(from)
    } else {
        first_index_from(servers, name, from + 1)
    }
}

/// Position of the first server bearing `name`, if any does.
pub open spec fn first_index_named(servers: Seq<ServerView>, name: Seq<char>) -> Option<int> {
    first_index_from(servers, name, 0)
}

proof fn lemma_first_index_props(servers: Seq<ServerView>, name: Seq<char>, from: int)
    requires
        0 <= from,
    ensures
        match first_index_from(servers, name, from) {
            Some(p) => from <= p < servers.len() && servers[p].name == name && forall|q: int|
                from <= q < p ==> (#[trigger] servers[q]).name != name,
            None => forall|q: int|
                from <= q < servers.len() ==> (#[trigger] servers[q]).name != name,
        },
    decreases servers.len() - from,
{
    if from < servers.len() && servers[from].name != name {
        lemma_first_index_props(servers, name, from + 1);
    }
}

/// A structural fault, as the traversal reports it.
pub enum ResolveFault {
    /// A `depends` entry names no server; carries that name.
    Undefined(Seq<char>),
    /// A dependency cycle was closed; carries the name of the in-progress
    /// server at which the back edge was found.
    Circular(Seq<char>),
}

/// State of the specification-level traversal — the colouring and the
/// order built so far — or the fault that stopped it.
pub enum Traversal {
    Go { color: Seq<u8>, order: Seq<int> },
    Fault(ResolveFault),
}

/// Pointwise maximum of two colourings. Along the traversal the second
/// argument always dominates the first, so the join is the identity on the
/// second; it only makes evident that recursion never un-colours a server,
/// which founds the termination measure.
pub open spec fn color_join(a: Seq<u8>, b: Seq<u8>) -> Seq<u8> {
    Seq::new(a.len(), |t: int| if 0 <= t < b.len() && a[t] <= b[t] { b[t] } else { a[t] })
}

/// Marks the visited node done and appends it to the order.
pub open spec fn finishing(i: int, t: Traversal) -> Traversal {
    match t {
        Traversal::Go { color, order } => Traversal::Go {
            color: color.update(i, 2),
            order: order.push(i),
        },
        Traversal::Fault(f) => Traversal::Fault(f),
    }
}

/// One node of the specification-level three-colour traversal: the node is
/// marked in progress, its `depends` entries are traversed in their listed
/// order, and the node is then marked done and appended to the order.
pub open spec fn dfs_visit(
    servers: Seq<ServerView>,
    i: int,
    color: Seq<u8>,
    order: Seq<int>,
) -> Traversal
    decreases 2 * count_matching(color, 0), 0int, 0int,
        when 0 <= i < color.len() && color[i] == 0
{
    proof {
        lemma_count_update(color, i, 1, 0);
    }
    finishing(i, dfs_deps(servers, i, 0, color.update(i, 1), order))
}

/// The dependencies of node `i` from position `k` on: an entry naming no
/// server is the `Undefined` fault, one naming an in-progress server closes
/// a cycle and is the `Circular` fault with that server's name, a done
/// server is passed over, and an unvisited one is visited first.
pub open spec fn dfs_deps(
    servers: Seq<ServerView>,
    i: int,
    k: int,
    color: Seq<u8>,
    order: Seq<int>,
) -> Traversal
    decreases 2 * count_matching(color, 0), 1int, servers[i].depends.len() - k,
{
    if k < 0 || k >= servers[i].depends.len() {
        Traversal::Go { color, order }
    } else {
        let d = servers[i].depends[k];
        match first_index_named(servers, d) {
            Option::None => Traversal::Fault(ResolveFault::Undefined(d)),
            Option::Some(j) => {
                if 0 <= j < color.len() && color[j] == 1 {
                    Traversal::Fault(ResolveFault::Circular(servers[j].name))
                } else if 0 <= j < color.len() && color[j] == 2 {
                    dfs_deps(servers, i, k + 1, color, order)
                } else {
                    match dfs_visit(servers, j, color, order) {
                        Traversal::Go { color: c2, order: o2 } => {
                            proof {
                                lemma_join_zeros(color, c2);
                            }
                            dfs_deps(servers, i, k + 1, color_join(color, c2), o2)
                        },
                        Traversal::Fault(f) => Traversal::Fault(f),
                    }
                }
            },
        }
    }
}

/// The outer traversal: roots are taken in input order, so ties between
/// independent subgraphs are broken deterministically.
pub open spec fn resolve_rest(
    servers: Seq<ServerView>,
    i: int,
    color: Seq<u8>,
    order: Seq<int>,
) -> Traversal
    decreases 2 * count_matching(color, 0) + if i <= servers.len() {
        servers.len() - i
    } else {
        0int
    }, 2int, 0int,
{
    if i >= servers.len() {
        Traversal::Go { color, order }
    } else if 0 <= i < color.len() && color[i] == 0 {
        match dfs_visit(servers, i, color, order) {
            Traversal::Go { color: c2, order: o2 } => {
                proof {
                    lemma_join_zeros(color, c2);
                }
                resolve_rest(servers, i + 1, color_join(color, c2), o2)
            },
            Traversal::Fault(f) => Traversal::Fault(f),
        }
    } else {
        resolve_rest(servers, i + 1, color, order)
    }
}

/// The whole specification-level resolution: the three-colour depth-first
/// traversal over the input, everything unvisited, nothing ordered yet. It
/// fixes deterministically both the produced order and which fault, with
/// which name, stops a malformed set.
pub open spec fn spec_resolve(servers: Seq<ServerView>) -> Traversal {
    resolve_rest(servers, 0, Seq::new(servers.len(), |t: int| 0u8), Seq::empty())
}

/// The servers standing at positions `idx` of the input.
pub open spec fn picked(servers: Seq<ServerView>, idx: Seq<int>) -> Seq<ServerView> {
    Seq::new(idx.len(), |t: int| servers[idx[t]])
}

/// The positions of `s`, as mathematical integers.
pub open spec fn to_ints(s: Seq<usize>) -> Seq<int> {
    Seq::new(s.len(), |t: int| s[t] as int)
}

pub proof fn lemma_join_zeros(a: Seq<u8>, b: Seq<u8>)
    ensures
        count_matching(color_join(a, b), 0) <= count_matching(a, 0),
{
    assert forall|t: int| 0 <= t < a.len() && color_join(a, b)[t] == 0 implies a[t] == 0 by {}
    lemma_count_le(a, color_join(a, b), 0);
}

/// How many entries of `s` equal `v`.
pub closed spec fn count_matching(s: Seq<u8>, v: u8) -> nat
    decreases s.len(),
{
    if s.len() == 0 {
        0
    } else {
        count_matching(s.drop_last(), v) + if s.last() == v {
            1nat
        } else {
            0nat
        }
    }
}

pub proof fn lemma_count_update(s: Seq<u8>, i: int, v: u8, c: u8)
    requires
        0 <= i < s.len(),
    ensures
        count_matching(s.update(i, v), c) == count_matching(s, c) - (if s[i] == c {
            1int
        } else {
            0int
        }) + (if v == c {
            1int
        } else {
            0int
        }),
    decreases s.len(),
{
    if i == s.len() - 1 {
        assert(s.update(i, v).drop_last() =~= s.drop_last());
    } else {
        lemma_count_update(s.drop_last(), i, v, c);
        assert(s.update(i, v).drop_last() =~= s.drop_last().update(i, v));
    }
}

pub proof fn lemma_count_le(s: Seq<u8>, t: Seq<u8>, v: u8)
    requires
        s.len() == t.len(),
        forall|j: int| 0 <= j < t.len() && t[j] == v ==> s[j] == v,
    ensures
        count_matching(t, v) <= count_matching(s, v),
    decreases s.len(),
{
    if s.len() > 0 {
        lemma_count_le(s.drop_last(), t.drop_last(), v);
    }
}

proof fn lemma_count_all(s: Seq<u8>, v: u8)
    requires
        forall|j: int| 0 <= j < s.len() ==> s[j] == v,
    ensures
        count_matching(s, v) == s.len(),
    decreases s.len(),
{
    if s.len() > 0 {
        lemma_count_all(s.drop_last(), v);
    }
}

proof fn lemma_count_none(s: Seq<u8>, v: u8)
    requires
        forall|j: int| 0 <= j < s.len() ==> s[j] != v,
    ensures
        count_matching(s, v) == 0,
    decreases s.len(),
{
    if s.len() > 0 {
        lemma_count_none(s.drop_last(), v);
    }
}

/// Every colour is one of unvisited (0), in progress (1), done (2).
spec fn colors_ok(c: Seq<u8>) -> bool {
    forall|j: int| 0 <= j < c.len() ==> #[trigger] c[j] == 0 || c[j] == 1 || c[j] == 2
}

/// Some entry of `sorted` below position `bound` is a server named `name`.
spec fn name_listed_before(
    servers: Seq<ServerView>,
    sorted: Seq<usize>,
    bound: int,
    name: Seq<char>,
) -> bool {
    exists|u: int| 0 <= u < bound && servers[#[trigger] sorted[u] as int].name == name
}

proof fn lemma_listed_before_push(
    servers: Seq<ServerView>,
    sorted: Seq<usize>,
    x: usize,
    bound: int,
    name: Seq<char>,
)
    requires
        name_listed_before(servers, sorted, bound, name),
        bound <= sorted.len(),
    ensures
        name_listed_before(servers, sorted.push(x), bound, name),
{
    let u = choose|u: int|
        0 <= u < bound && servers[#[trigger] sorted[u] as int].name == name;
    assert(sorted.push(x)[u] == sorted[u]);
}

/// `sorted` lists exactly the done servers, without repetition, and each
/// entry's dependencies are satisfied by earlier entries.
spec fn sorted_ok(servers: Seq<ServerView>, color: Seq<u8>, sorted: Seq<usize>) -> bool {
    &&& color.len() == servers.len()
    &&& forall|t: int| 0 <= t < sorted.len() ==> (#[trigger] sorted[t] as int) < servers.len()
    &&& forall|t: int| 0 <= t < sorted.len() ==> color[#[trigger] sorted[t] as int] == 2
    &&& forall|j: int|
        0 <= j < color.len() && color[j] == 2 ==> exists|t: int|
            0 <= t < sorted.len() && sorted[t] as int == j
    &&& forall|t1: int, t2: int|
        0 <= t1 < t2 < sorted.len() ==> #[trigger] sorted[t1] != #[trigger] sorted[t2]
    &&& sorted.len() == count_matching(color, 2)
    &&& forall|t: int, k: int|
        0 <= t < sorted.len() && 0 <= k < servers[sorted[t] as int].depends.len()
            ==> name_listed_before(
            servers,
            sorted,
            t,
            #[trigger] servers[sorted[t] as int].depends[k],
        )
}

/// The ghost traversal stack: a chain of in-progress servers, each
/// depending on the name of the next, holding exactly the servers coloured
/// in progress.
spec fn stack_ok(servers: Seq<ServerView>, color: Seq<u8>, stack: Seq<int>) -> bool {
    &&& color.len() == servers.len()
    &&& forall|t: int|
        0 <= t < stack.len() ==> 0 <= #[trigger] stack[t] < servers.len() && color[stack[t]] == 1
    &&& forall|j: int|
        0 <= j < color.len() && color[j] == 1 ==> exists|t: int|
            0 <= t < stack.len() && stack[t] == j
    &&& forall|t: int|
        0 <= t < stack.len() - 1 ==> mentions_dep(
            servers[#[trigger] stack[t]],
            servers[stack[t + 1]].name,
        )
}

/// Finding a back-edge from the node on top of the traversal stack to an
/// in-progress node closes a real dependency cycle through that node.
proof fn lemma_cycle_found(
    sv: Seq<ServerView>,
    color: Seq<u8>,
    stack2: Seq<int>,
    i: int,
    j: int,
)
    requires
        stack_ok(sv, color, stack2),
        stack2.len() > 0,
        stack2.last() == i,
        0 <= j < sv.len(),
        0 <= j < color.len(),
        color[j] == 1,
        mentions_dep(sv[i], sv[j].name),
    ensures
        cycle_through(sv, sv[j].name),
{
    let t = choose|t: int| 0 <= t < stack2.len() && stack2[t] == j;
    let path = stack2.subrange(t, stack2.len() as int);
    assert(path[0] == j);
    assert(path.last() == i);
    assert forall|w: int| 0 <= w < path.len() - 1 implies mentions_dep(
        sv[#[trigger] path[w]],
        sv[path[w + 1]].name,
    ) by {
        assert(path[w] == stack2[t + w]);
        assert(path[w + 1] == stack2[t + w + 1]);
    }
    assert(is_cycle(sv, path));
}

/// Position of the first server bearing `name`, if one does.
fn find_server(servers: &Vec<Server>, name: &String) -> (r: Option<usize>)
    ensures
        r matches Some(j) ==> j < servers@.len() && servers.deep_view()[j as int].name == name@
            && first_index_named(servers.deep_view(), name@) == Some(j as int),
        r is None ==> !has_server_named(servers.deep_view(), name@) && first_index_named(
            servers.deep_view(),
            name@,
        ) is None,
{
    let mut j: usize = 0;
    let n = servers.len();
    while j < n
        invariant
            n == servers@.len(),
            j <= n,
            forall|p: int| 0 <= p < j ==> servers.deep_view()[p].name != name@,
        decreases n - j,
    {
        if servers[j].name == *name {
            proof {
                lemma_first_index_props(servers.deep_view(), name@, 0);
            }
            return Some(j);
        }
        j = j + 1;
    }
    proof {
        lemma_first_index_props(servers.deep_view(), name@, 0);
    }
    None
}

#[verifier::rlimit(100)]
fn dfs(
    servers: &Vec<Server>,
    i: usize,
    color: &mut Vec<u8>,
    sorted: &mut Vec<usize>,
    Ghost(stack): Ghost<Seq<int>>,
) -> (r: Result<(), ServerConfigError>)
    requires
        i < servers@.len(),
        old(color)@[i as int] == 0,
        colors_ok(old(color)@),
        sorted_ok(servers.deep_view(), old(color)@, old(sorted)@),
        stack_ok(servers.deep_view(), old(color)@, stack),
        stack.len() > 0 ==> mentions_dep(
            servers.deep_view()[stack.last()],
            servers.deep_view()[i as int].name,
        ),
    ensures
        final(color)@.len() == old(color)@.len(),
        colors_ok(final(color)@),
        forall|j: int| 0 <= j < final(color)@.len() ==> old(color)@[j] <= #[trigger] final(color)@[j],
        count_matching(final(color)@, 0) <= count_matching(old(color)@, 0),
        sorted_ok(servers.deep_view(), final(color)@, final(sorted)@),
        old(sorted)@.is_prefix_of(final(sorted)@),
        r is Ok ==> final(color)@[i as int] == 2,
        r is Ok ==> forall|j: int|
            0 <= j < final(color)@.len() ==> (old(color)@[j] == 1 <==> #[trigger] final(color)@[j]
                == 1),
        r matches Err(ServerConfigError::UndefinedDependency(nm)) ==> undefined_dep(
            servers.deep_view(),
            nm@,
        ),
        r matches Err(ServerConfigError::CircularDependency(nm)) ==> cycle_through(
            servers.deep_view(),
            nm@,
        ),
        r is Err ==> (r matches Err(ServerConfigError::UndefinedDependency(_)) || r matches Err(
            ServerConfigError::CircularDependency(_),
        )),
        r is Ok ==> dfs_visit(servers.deep_view(), i as int, old(color)@, to_ints(old(sorted)@))
            == (Traversal::Go { color: final(color)@, order: to_ints(final(sorted)@) }),
        r matches Err(ServerConfigError::UndefinedDependency(nm)) ==> dfs_visit(
            servers.deep_view(),
            i as int,
            old(color)@,
            to_ints(old(sorted)@),
        ) == Traversal::Fault(ResolveFault::Undefined(nm@)),
        r matches Err(ServerConfigError::CircularDependency(nm)) ==> dfs_visit(
            servers.deep_view(),
            i as int,
            old(color)@,
            to_ints(old(sorted)@),
        ) == Traversal::Fault(ResolveFault::Circular(nm@)),
    decreases count_matching(old(color)@, 0),
{
    let ghost sv = servers.deep_view();
    let ghost pre = color@;
    proof {
        lemma_count_update(pre, i as int, 1, 0);
        lemma_count_update(pre, i as int, 1, 2);
    }
    color.set(i, 1);
    let ghost stack2 = stack.push(i as int);
    let ghost entry_zeros = count_matching(pre, 0);
    proof {
        assert(color@ == pre.update(i as int, 1));
        assert forall|j: int| 0 <= j < color@.len() && color@[j] == 1 implies exists|t: int|
            0 <= t < stack2.len() && stack2[t] == j by {
            if j != i as int {
                assert(pre[j] == 1);
                let t = choose|t: int| 0 <= t < stack.len() && stack[t] == j;
                assert(stack2[t] == j);
            } else {
                assert(stack2[stack2.len() - 1] == j);
            }
        }
        assert(stack_ok(sv, color@, stack2));
        assert forall|j: int| 0 <= j < color@.len() && color@[j] == 2 implies exists|t: int|
            0 <= t < sorted@.len() && sorted@[t] as int == j by {
            assert(pre[j] == 2);
        }
        assert(sorted_ok(sv, color@, sorted@));
        assert(dfs_visit(sv, i as int, pre, to_ints(old(sorted)@)) == finishing(
            i as int,
            dfs_deps(sv, i as int, 0, color@, to_ints(sorted@)),
        ));
    }

    let srv = &servers[i];
    let n_deps = srv.depends.len();
    let mut k: usize = 0;
    while k < n_deps
        invariant
            i < servers@.len(),
            n_deps == sv[i as int].depends.len(),
            *srv == servers@[i as int],
            sv == servers.deep_view(),
            pre == old(color)@,
            pre.len() == sv.len(),
            pre[i as int] == 0,
            colors_ok(pre),
            k <= n_deps,
            color@.len() == sv.len(),
            colors_ok(color@),
            color@[i as int] == 1,
            forall|j: int| 0 <= j < color@.len() ==> pre.update(i as int, 1)[j] <= #[trigger] color@[j],
            forall|j: int|
                0 <= j < color@.len() ==> (pre.update(i as int, 1)[j] == 1 <==> #[trigger] color@[j]
                    == 1),
            count_matching(color@, 0) <= entry_zeros - 1,
            count_matching(pre, 0) == entry_zeros,
            sorted_ok(sv, color@, sorted@),
            stack_ok(sv, color@, stack2),
            stack2 == stack.push(i as int),
            old(sorted)@.is_prefix_of(sorted@),
            dfs_visit(sv, i as int, pre, to_ints(old(sorted)@)) == finishing(
                i as int,
                dfs_deps(sv, i as int, k as int, color@, to_ints(sorted@)),
            ),
            forall|q: int|
                0 <= q < k ==> exists|j: int|
                    0 <= j < sv.len() && #[trigger] sv[j].name == #[trigger] sv[i as int].depends[q]
                        && color@[j] == 2,
        decreases n_deps - k,
    {
        let dep = &srv.depends[k];
        assert(dep@ == sv[i as int].depends[k as int]);
        match find_server(servers, dep) {
            None => {
                proof {
                    assert(dfs_deps(sv, i as int, k as int, color@, to_ints(sorted@))
                        == Traversal::Fault(ResolveFault::Undefined(dep@)));
                }
                return Err(ServerConfigError::UndefinedDependency(dep.clone()));
            },
            Some(j) => {
                let cj = color[j];
                if cj == 1 {
                    let nm = servers[j].name.clone();
                    proof {
                        assert(mentions_dep(sv[i as int], sv[j as int].name));
                        lemma_cycle_found(sv, color@, stack2, i as int, j as int);
                        assert(dfs_deps(sv, i as int, k as int, color@, to_ints(sorted@))
                            == Traversal::Fault(ResolveFault::Circular(sv[j as int].name)));
                    }
                    return Err(ServerConfigError::CircularDependency(nm));
                } else if cj == 0 {
                    let ghost mid = color@;
                    let ghost smid = sorted@;
                    match dfs(servers, j, color, sorted, Ghost(stack2)) {
                        Err(e) => {
                            proof {
                                lemma_count_le(pre, mid, 0);
                            }
                            return Err(e);
                        },
                        Ok(()) => {
                            proof {
                                lemma_count_le(mid, color@, 0);
                                assert(color_join(mid, color@) =~= color@);
                                assert(dfs_deps(sv, i as int, k as int, mid, to_ints(smid))
                                    == dfs_deps(
                                    sv,
                                    i as int,
                                    k + 1,
                                    color@,
                                    to_ints(sorted@),
                                ));
                            }
                        },
                    }
                } else {
                    proof {
                        assert(dfs_deps(sv, i as int, k as int, color@, to_ints(sorted@))
                            == dfs_deps(sv, i as int, k + 1, color@, to_ints(sorted@)));
                    }
                }
            },
        }
        k = k + 1;
    }
    let ghost before_done = color@;
    let ghost prev_sorted = sorted@;
    proof {
        lemma_count_update(before_done, i as int, 2, 0);
        lemma_count_update(before_done, i as int, 2, 2);
        assert(dfs_deps(sv, i as int, n_deps as int, before_done, to_ints(prev_sorted))
            == (Traversal::Go { color: before_done, order: to_ints(prev_sorted) }));
    }
    color.set(i, 2);
    sorted.push(i);
    proof {
        assert(to_ints(prev_sorted.push(i)) =~= to_ints(prev_sorted).push(i as int));
        assert(dfs_visit(sv, i as int, pre, to_ints(old(sorted)@)) == (Traversal::Go {
            color: final(color)@,
            order: to_ints(final(sorted)@),
        }));
    }
    proof {
        assert forall|t: int, k2: int|
            0 <= t < sorted@.len() && 0 <= k2 < sv[sorted@[t] as int].depends.len()
            implies name_listed_before(
            sv,
            sorted@,
            t,
            #[trigger] sv[sorted@[t] as int].depends[k2],
        ) by {
            if t < prev_sorted.len() {
                assert(sorted@[t] == prev_sorted[t]);
                lemma_listed_before_push(
                    sv,
                    prev_sorted,
                    i,
                    t,
                    sv[prev_sorted[t] as int].depends[k2],
                );
            } else {
                // the new entry: each of its dependencies is done, hence
                // already listed
                assert(sorted@[t] == i);
                let dep = sv[i as int].depends[k2];
                let j = choose|j: int|
                    0 <= j < sv.len() && #[trigger] sv[j].name == dep && before_done[j] == 2;
                let u = choose|u: int|
                    0 <= u < prev_sorted.len() && prev_sorted[u] as int == j;
                assert(sorted@[u] as int == j);
                assert(sv[sorted@[u] as int].name == dep);
            }
        }
        assert forall|j: int| 0 <= j < color@.len() && color@[j] == 2 implies exists|t: int|
            0 <= t < sorted@.len() && sorted@[t] as int == j by {
            if j == i as int {
                assert(sorted@[sorted@.len() - 1] as int == j);
            } else {
                assert(before_done[j] == 2);
                let t = choose|t: int|
                    0 <= t < prev_sorted.len() && prev_sorted[t] as int == j;
                assert(sorted@[t] as int == j);
            }
        }
        assert forall|t: int| 0 <= t < sorted@.len() implies color@[(#[trigger] sorted@[t]) as int]
            == 2 by {
            if t < prev_sorted.len() {
                assert(sorted@[t] == prev_sorted[t]);
                assert(before_done[prev_sorted[t] as int] == 2);
            } else {
                assert(sorted@[t] == i);
            }
        }
        assert forall|t1: int, t2: int| 0 <= t1 < t2 < sorted@.len() implies #[trigger] sorted@[t1]
            != #[trigger] sorted@[t2] by {
            if t2 == sorted@.len() - 1 {
                assert(sorted@[t1] == prev_sorted[t1]);
                assert(before_done[prev_sorted[t1] as int] == 2);
                assert(before_done[i as int] == 1);
            }
        }
        assert(sorted_ok(sv, color@, sorted@));
    }
    Ok(())
}

/// Orders `servers` so that every dependency precedes its dependents, or
/// reports the first structural fault the traversal meets. Servers are
/// visited in input order, so ties between independent subgraphs are broken
/// deterministically. On success the result is a rearrangement of the
/// input; an `UndefinedDependency` names the first `depends` entry the
/// traversal meets that no server bears, and a `CircularDependency` names
/// the in-progress server at which the traversal closes a back edge — a
/// server on a real dependency cycle. The result is exactly the outcome of
/// [`spec_resolve`].
pub fn determine_wakeup_order(servers: &Vec<Server>) -> (r: Result<Vec<Server>, ServerConfigError>)
    ensures
        r matches Ok(order) ==> {
            &&& order.deep_view().len() == servers.deep_view().len()
            &&& wake_ordered(order.deep_view())
            &&& forall|i: int|
                0 <= i < servers.deep_view().len() ==> appears_in(
                    order.deep_view(),
                    #[trigger] servers.deep_view()[i],
                )
            &&& forall|j: int|
                0 <= j < order.deep_view().len() ==> appears_in(
                    servers.deep_view(),
                    #[trigger] order.deep_view()[j],
                )
        },
        r matches Err(ServerConfigError::UndefinedDependency(nm)) ==> undefined_dep(
            servers.deep_view(),
            nm@,
        ),
        r matches Err(ServerConfigError::CircularDependency(nm)) ==> cycle_through(
            servers.deep_view(),
            nm@,
        ),
        r is Err ==> (r matches Err(ServerConfigError::UndefinedDependency(_)) || r matches Err(
            ServerConfigError::CircularDependency(_),
        )),
        all_deps_defined(servers.deep_view()) && !has_cycle(servers.deep_view()) ==> r is Ok,
        r matches Ok(order) ==> (spec_resolve(servers.deep_view()) matches Traversal::Go {
            order: idx,
            ..
        } && order.deep_view() == picked(servers.deep_view(), idx)),
        r matches Err(ServerConfigError::UndefinedDependency(nm)) ==> spec_resolve(
            servers.deep_view(),
        ) == Traversal::Fault(ResolveFault::Undefined(nm@)),
        r matches Err(ServerConfigError::CircularDependency(nm)) ==> spec_resolve(
            servers.deep_view(),
        ) == Traversal::Fault(ResolveFault::Circular(nm@)),
{
    let ghost sv = servers.deep_view();
    let n = servers.len();
    let mut color: Vec<u8> = Vec::new();
    let mut p: usize = 0;
    while p < n
        invariant
            p <= n,
            color@.len() == p,
            forall|j: int| 0 <= j < p ==> color@[j] == 0,
        decreases n - p,
    {
        color.push(0);
        p = p + 1;
    }
    let mut sorted: Vec<usize> = Vec::new();
    proof {
        lemma_count_none(color@, 2);
        assert(sorted_ok(sv, color@, sorted@));
        assert(stack_ok(sv, color@, Seq::<int>::empty()));
        assert(color@ =~= Seq::new(sv.len(), |t: int| 0u8));
        assert(to_ints(sorted@) =~= Seq::<int>::empty());
        assert(resolve_rest(sv, 0, color@, to_ints(sorted@)) == spec_resolve(sv));
    }
    let mut i: usize = 0;
    while i < n
        invariant
            i <= n,
            n == servers@.len(),
            sv == servers.deep_view(),
            color@.len() == n,
            colors_ok(color@),
            forall|j: int| 0 <= j < i ==> #[trigger] color@[j] == 2,
            forall|j: int| 0 <= j < n ==> #[trigger] color@[j] != 1,
            sorted_ok(sv, color@, sorted@),
            resolve_rest(sv, i as int, color@, to_ints(sorted@)) == spec_resolve(sv),
        decreases n - i,
    {
        let ghost mid = color@;
        let ghost smid = sorted@;
        if color[i] == 0 {
            proof {
                assert(stack_ok(sv, color@, Seq::<int>::empty()));
            }
            match dfs(servers, i, &mut color, &mut sorted, Ghost(Seq::empty())) {
                Err(e) => {
                    proof {
                        assert(resolve_rest(sv, i as int, mid, to_ints(smid)) == spec_resolve(
                            sv,
                        ));
                    }
                    return Err(e);
                },
                Ok(()) => {
                    proof {
                        assert(color_join(mid, color@) =~= color@);
                        assert(resolve_rest(sv, i as int, mid, to_ints(smid)) == resolve_rest(
                            sv,
                            i + 1,
                            color@,
                            to_ints(sorted@),
                        ));
                    }
                },
            }
        } else {
            proof {
                assert(resolve_rest(sv, i as int, color@, to_ints(sorted@)) == resolve_rest(
                    sv,
                    i + 1,
                    color@,
                    to_ints(sorted@),
                ));
            }
        }
        i = i + 1;
    }
    proof {
        lemma_count_all(color@, 2);
        assert(sorted@.len() == n);
        assert(resolve_rest(sv, n as int, color@, to_ints(sorted@)) == (Traversal::Go {
            color: color@,
            order: to_ints(sorted@),
        }));
    }
    let mut out: Vec<Server> = Vec::new();
    let mut t: usize = 0;
    while t < n
        invariant
            t <= n,
            n == servers@.len(),
            sv == servers.deep_view(),
            sorted@.len() == n,
            sorted_ok(sv, color@, sorted@),
            out@.len() == t,
            forall|u: int| 0 <= u < t ==> #[trigger] out@[u]@ == sv[sorted@[u] as int],
        decreases n - t,
    {
        let idx = sorted[t];
        proof {
            assert(sv[idx as int] == servers@[idx as int]@);
        }
        out.push(servers[idx].clone());
        t = t + 1;
    }
    proof {
        assert forall|u: int| 0 <= u < n implies #[trigger] out.deep_view()[u]
            == sv[sorted@[u] as int] by {
            assert(out.deep_view()[u] == out@[u]@);
        }
    }
    proof {
        assert forall|i2: int, k: int|
            0 <= i2 < out.deep_view().len() && 0 <= k
                < out.deep_view()[i2].depends.len() implies dep_before(
            out.deep_view(),
            i2,
            #[trigger] out.deep_view()[i2].depends[k],
        ) by {
            assert(out.deep_view()[i2] == sv[sorted@[i2] as int]);
            assert(name_listed_before(sv, sorted@, i2, sv[sorted@[i2] as int].depends[k]));
            let u = choose|u: int|
                0 <= u < i2 && sv[#[trigger] sorted@[u] as int].name
                    == sv[sorted@[i2] as int].depends[k];
            assert(out.deep_view()[u].name == sv[sorted@[u] as int].name);
            assert(dep_before(out.deep_view(), i2, out.deep_view()[i2].depends[k]));
        }
        assert(wake_ordered(out.deep_view()));
        assert forall|i2: int| 0 <= i2 < sv.len() implies appears_in(
            out.deep_view(),
            #[trigger] sv[i2],
        ) by {
            assert(color@[i2] == 2);
            let t2 = choose|t2: int| 0 <= t2 < sorted@.len() && sorted@[t2] as int == i2;
            assert(out.deep_view()[t2] == sv[i2]);
        }
        assert forall|j: int| 0 <= j < out.deep_view().len() implies appears_in(
            sv,
            #[trigger] out.deep_view()[j],
        ) by {
            assert(out.deep_view()[j] == sv[sorted@[j] as int]);
        }
        assert(out.deep_view() =~= picked(sv, to_ints(sorted@)));
    }
    Ok(out)
}

/// Validates every health check of every server, then orders the set for
/// waking. The result is the wake order; each kind of structural fault is
/// reported by its own error, and a set whose checks are complete, whose
/// dependencies are all defined and whose dependency graph is acyclic is
/// always accepted.
pub fn parse_server_dependencies(servers: Vec<Server>) -> (r: Result<
    Vec<Server>,
    ServerConfigError,
>)
    ensures
        r matches Ok(order) ==> {
            &&& all_checks_valid(servers.deep_view())
            &&& order.deep_view().len() == servers.deep_view().len()
            &&& wake_ordered(order.deep_view())
            &&& forall|i: int|
                0 <= i < servers.deep_view().len() ==> appears_in(
                    order.deep_view(),
                    #[trigger] servers.deep_view()[i],
                )
            &&& forall|j: int|
                0 <= j < order.deep_view().len() ==> appears_in(
                    servers.deep_view(),
                    #[trigger] order.deep_view()[j],
                )
        },
        r matches Err(ServerConfigError::BadHealthCheckDefinition(_)) ==> !all_checks_valid(
            servers.deep_view(),
        ),
        // validation runs before ordering: a structural error means every
        // check passed
        r matches Err(ServerConfigError::UndefinedDependency(_)) ==> all_checks_valid(
            servers.deep_view(),
        ),
        r matches Err(ServerConfigError::CircularDependency(_)) ==> all_checks_valid(
            servers.deep_view(),
        ),
        r matches Err(ServerConfigError::UndefinedDependency(nm)) ==> undefined_dep(
            servers.deep_view(),
            nm@,
        ),
        r matches Err(ServerConfigError::CircularDependency(nm)) ==> cycle_through(
            servers.deep_view(),
            nm@,
        ),
        r is Err ==> !(r matches Err(ServerConfigError::ParseError(_))),
        all_checks_valid(servers.deep_view()) && all_deps_defined(servers.deep_view())
            && !has_cycle(servers.deep_view()) ==> r is Ok,
        r matches Ok(order) ==> (spec_resolve(servers.deep_view()) matches Traversal::Go {
            order: idx,
            ..
        } && order.deep_view() == picked(servers.deep_view(), idx)),
        r matches Err(ServerConfigError::UndefinedDependency(nm)) ==> spec_resolve(
            servers.deep_view(),
        ) == Traversal::Fault(ResolveFault::Undefined(nm@)),
        r matches Err(ServerConfigError::CircularDependency(nm)) ==> spec_resolve(
            servers.deep_view(),
        ) == Traversal::Fault(ResolveFault::Circular(nm@)),
{
    let ghost sv = servers.deep_view();
    let n = servers.len();
    let mut i: usize = 0;
    while i < n
        invariant
            i <= n,
            n == servers@.len(),
            sv == servers.deep_view(),
            forall|i2: int, k: int|
                0 <= i2 < i && 0 <= k < sv[i2].check.len() ==> valid_check(
                    #[trigger] sv[i2].check[k],
                ),
        decreases n - i,
    {
        let srv = &servers[i];
        let m = srv.check.len();
        let mut k: usize = 0;
        while k < m
            invariant
                i < n,
                n == servers@.len(),
                sv == servers.deep_view(),
                *srv == servers@[i as int],
                m == sv[i as int].check.len(),
                k <= m,
                forall|k2: int| 0 <= k2 < k ==> valid_check(#[trigger] sv[i as int].check[k2]),
            decreases m - k,
        {
            match validate_health_check(&srv.check[k]) {
                Ok(()) => {
                    proof {
                        assert(srv.check[k as int]@ == sv[i as int].check[k as int]);
                    }
                },
                Err(e) => {
                    proof {
                        assert(srv.check[k as int]@ == sv[i as int].check[k as int]);
                        assert(!valid_check(sv[i as int].check[k as int]));
                    }
                    return Err(e);
                },
            }
            k = k + 1;
        }
        i = i + 1;
    }
    determine_wakeup_order(&servers)
}

} // verus!
