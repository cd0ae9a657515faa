use vstd::prelude::*;
use vstd::set_lib::*;
use crate::error::ReleaseError;
use crate::metadata::{Metadata, ResolveNode};

verus! {

/// The adjacency lists as sequences.
pub open spec fn adj_view(adj: Seq<Vec<usize>>) -> Seq<Seq<usize>> {
    adj.map_values(|d: Vec<usize>| d@)
}

/// Every dependency listed in `adj` is a vertex of `adj` and one of `members`.
pub open spec fn graph_wf(adj: Seq<Seq<usize>>, members: Seq<usize>) -> bool {
    forall|v: int, k: int|
        0 <= v < adj.len() && 0 <= k < adj[v].len() ==> #[trigger] adj[v][k] < adj.len()
            && members.contains(adj[v][k])
}

/// `rank` puts every dependency strictly below its dependent.
pub open spec fn is_ranking(adj: Seq<Seq<usize>>, rank: Seq<nat>) -> bool {
    &&& rank.len() == adj.len()
    &&& forall|v: int, k: int|
        0 <= v < adj.len() && 0 <= k < adj[v].len() ==> rank[#[trigger] adj[v][k] as int]
            < rank[v]
}

/// No element occurs twice.
pub open spec fn distinct(s: Seq<usize>) -> bool {
    forall|i: int, j: int| 0 <= i < s.len() && 0 <= j < s.len() && i != j ==> s[i] != s[j]
}

/// Every dependency of a listed vertex is listed too.
pub open spec fn closed(adj: Seq<Seq<usize>>, order: Seq<usize>) -> bool {
    forall|i: int, k: int|
        0 <= i < order.len() && 0 <= k < adj[order[i] as int].len() ==> order.contains(
            #[trigger] adj[order[i] as int][k],
        )
}

/// Each listed dependency comes before its dependent.
pub open spec fn deps_first(adj: Seq<Seq<usize>>, order: Seq<usize>) -> bool {
    forall|i: int, j: int, k: int|
        0 <= i < order.len() && 0 <= j < order.len() && 0 <= k < adj[order[i] as int].len()
            && #[trigger] adj[order[i] as int][k] == #[trigger] order[j] ==> j < i
}

pub open spec fn visited_set(vis: Seq<bool>) -> Set<int> {
    Set::new(|i: int| 0 <= i < vis.len() && vis[i])
}

/// Visited, but not yet appended to the order.
pub open spec fn in_progress(vis: Seq<bool>, order: Seq<usize>, s: int) -> bool {
    vis[s] && !order.contains(s as usize)
}

/// Depth-first visit of `v` from the state `(vis, order)`: nothing when
/// `v` is already visited, else mark it, visit its dependencies in turn,
/// then append it. `fuel` bounds the depth.
pub open spec fn dfs_visit(
    adj: Seq<Seq<usize>>,
    v: usize,
    vis: Seq<bool>,
    order: Seq<usize>,
    fuel: nat,
) -> (Seq<bool>, Seq<usize>)
    decreases fuel, 1int, 0int,
{
    if fuel == 0 || vis[v as int] {
        (vis, order)
    } else {
        let st = dfs_deps(adj, adj[v as int], 0, vis.update(v as int, true), order, (fuel - 1) as nat);
        (st.0, st.1.push(v))
    }
}

/// Visits `deps[i..]` in turn.
pub open spec fn dfs_deps(
    adj: Seq<Seq<usize>>,
    deps: Seq<usize>,
    i: int,
    vis: Seq<bool>,
    order: Seq<usize>,
    fuel: nat,
) -> (Seq<bool>, Seq<usize>)
    decreases fuel, 2int, deps.len() - i,
{
    if i < 0 || i >= deps.len() {
        (vis, order)
    } else {
        let st = dfs_visit(adj, deps[i], vis, order, fuel);
        dfs_deps(adj, deps, i + 1, st.0, st.1, fuel)
    }
}

/// Visits `members[i..]` in turn, each with depth bound `adj.len() + 1`.
pub open spec fn dfs_members(
    adj: Seq<Seq<usize>>,
    members: Seq<usize>,
    i: int,
    vis: Seq<bool>,
    order: Seq<usize>,
) -> (Seq<bool>, Seq<usize>)
    decreases members.len() - i,
{
    if i < 0 || i >= members.len() {
        (vis, order)
    } else {
        let st = dfs_visit(adj, members[i], vis, order, (adj.len() + 1) as nat);
        dfs_members(adj, members, i + 1, st.0, st.1)
    }
}

/// The depth-first post-order of `members` over `adj`.
pub open spec fn dfs_postorder(adj: Seq<Seq<usize>>, members: Seq<usize>) -> Seq<usize> {
    dfs_members(adj, members, 0, Seq::new(adj.len(), |i: int| false), Seq::empty()).1
}

pub open spec fn dfs_inv(
    adj: Seq<Seq<usize>>,
    members: Seq<usize>,
    vis: Seq<bool>,
    order: Seq<usize>,
    rank: Seq<nat>,
    acyclic: bool,
) -> bool {
    &&& vis.len() == adj.len()
    &&& forall|i: int|
        0 <= i < order.len() ==> #[trigger] order[i] < adj.len() && vis[order[i] as int]
            && members.contains(order[i])
    &&& distinct(order)
    &&& acyclic ==> is_ranking(adj, rank) && closed(adj, order) && deps_first(adj, order)
}

proof fn lemma_visited_bounded(vis: Seq<bool>)
    ensures
        visited_set(vis).finite(),
        visited_set(vis).len() <= vis.len(),
{
    lemma_int_range(0, vis.len() as int);
    lemma_len_subset(visited_set(vis), set_int_range(0, vis.len() as int));
}

/// Depth-first visit of `v`: its unvisited dependencies are appended first,
/// then `v` itself.
fn sort_workspace_inner(
    adj: &Vec<Vec<usize>>,
    v: usize,
    visited: &mut Vec<bool>,
    sorted: &mut Vec<usize>,
    Ghost(members): Ghost<Seq<usize>>,
    Ghost(rank): Ghost<Seq<nat>>,
    Ghost(acyclic): Ghost<bool>,
    Ghost(fuel): Ghost<nat>,
)
    requires
        fuel >= adj.len() - visited_set(old(visited)@).len() + 1,
        graph_wf(adj_view(adj@), members),
        v < adj.len(),
        members.contains(v),
        dfs_inv(adj_view(adj@), members, old(visited)@, old(sorted)@, rank, acyclic),
        acyclic ==> forall|s: int|
            0 <= s < adj.len() && #[trigger] in_progress(old(visited)@, old(sorted)@, s) ==> rank[s]
                > rank[v as int],
    ensures
        dfs_inv(adj_view(adj@), members, final(visited)@, final(sorted)@, rank, acyclic),
        final(sorted)@.subrange(0, old(sorted)@.len() as int) == old(sorted)@,
        old(sorted)@.len() <= final(sorted)@.len(),
        forall|s: int|
            0 <= s < adj.len() ==> (#[trigger] in_progress(final(visited)@, final(sorted)@, s)
                <==> in_progress(old(visited)@, old(sorted)@, s)),
        forall|s: int| 0 <= s < adj.len() && old(visited)@[s] ==> #[trigger] final(visited)@[s],
        final(visited)@[v as int],
        acyclic ==> final(sorted)@.contains(v),
        visited_set(old(visited)@).len() <= visited_set(final(visited)@).len(),
        (final(visited)@, final(sorted)@) == dfs_visit(
            adj_view(adj@),
            v,
            old(visited)@,
            old(sorted)@,
            fuel,
        ),
    decreases adj.len() - visited_set(old(visited)@).len(),
{
    let ghost g = adj_view(adj@);
    proof {
        lemma_visited_bounded(old(visited)@);
    }
    if visited[v] {
        proof {
            if acyclic && !sorted@.contains(v) {
                assert(in_progress(visited@, sorted@, v as int));
            }
        }
        return;
    }
    let ghost vis0 = visited@;
    let ghost sorted0 = sorted@;
    visited.set(v, true);
    proof {
        assert(visited_set(visited@) == visited_set(vis0).insert(v as int));
        lemma_visited_bounded(visited@);
        assert(!sorted0.contains(v)) by {
            if sorted0.contains(v) {
                let i = choose|i: int| 0 <= i < sorted0.len() && sorted0[i] == v;
                assert(vis0[sorted0[i] as int]);
            }
        }
    }
    let deps = &adj[v];
    assert(deps@ == g[v as int]);
    let mut i: usize = 0;
    while i < deps.len()
        invariant
            g == adj_view(adj@),
            vis0 == old(visited)@,
            graph_wf(g, members),
            deps@ == g[v as int],
            v < adj.len(),
            members.contains(v),
            i <= deps.len(),
            dfs_inv(g, members, visited@, sorted@, rank, acyclic),
            sorted@.subrange(0, sorted0.len() as int) == sorted0,
            sorted0.len() <= sorted@.len(),
            forall|s: int|
                0 <= s < adj.len() && s != v ==> (#[trigger] in_progress(visited@, sorted@, s)
                    <==> in_progress(vis0, sorted0, s)),
            in_progress(visited@, sorted@, v as int),
            forall|s: int| 0 <= s < adj.len() && vis0[s] ==> #[trigger] visited@[s],
            visited@[v as int],
            !vis0[v as int],
            visited_set(vis0).len() + 1 <= visited_set(visited@).len(),
            visited_set(vis0).len() < adj.len() + 1,
            acyclic ==> forall|s: int|
                0 <= s < adj.len() && #[trigger] in_progress(vis0, sorted0, s) ==> rank[s]
                    > rank[v as int],
            acyclic ==> forall|k: int| 0 <= k < i ==> sorted@.contains(#[trigger] deps@[k]),
            fuel >= adj.len() - visited_set(vis0).len() + 1,
            dfs_deps(g, deps@, i as int, visited@, sorted@, (fuel - 1) as nat) == dfs_deps(
                g,
                deps@,
                0,
                vis0.update(v as int, true),
                sorted0,
                (fuel - 1) as nat,
            ),
        decreases deps.len() - i,
    {
        let d = deps[i];
        proof {
            lemma_visited_bounded(visited@);
            if acyclic {
                assert forall|s: int|
                    0 <= s < adj.len() && #[trigger] in_progress(visited@, sorted@, s) implies rank[s]
                    > rank[d as int] by {
                    assert(rank[d as int] < rank[v as int]);
                    if s != v {
                        assert(in_progress(vis0, sorted0, s));
                    }
                }
            }
        }
        let ghost vis1 = visited@;
        let ghost sorted1 = sorted@;
        sort_workspace_inner(
            adj,
            d,
            visited,
            sorted,
            Ghost(members),
            Ghost(rank),
            Ghost(acyclic),
            Ghost((fuel - 1) as nat),
        );
        proof {
            assert(dfs_deps(g, deps@, i as int, vis1, sorted1, (fuel - 1) as nat) == dfs_deps(
                g,
                deps@,
                i + 1,
                visited@,
                sorted@,
                (fuel - 1) as nat,
            ));
            assert forall|k: int| 0 <= k < sorted1.len() implies sorted@[k] == sorted1[k] by {
                assert(sorted@.subrange(0, sorted1.len() as int)[k] == sorted@[k]);
            }
            assert(sorted@.subrange(0, sorted0.len() as int) =~= sorted0) by {
                assert forall|k: int| 0 <= k < sorted0.len() implies sorted@[k] == sorted0[k] by {
                    assert(sorted1.subrange(0, sorted0.len() as int)[k] == sorted1[k]);
                }
            }
            if acyclic {
                assert forall|k: int| 0 <= k < i + 1 implies sorted@.contains(
                    #[trigger] deps@[k],
                ) by {
                    if k < i {
                        assert(sorted1.contains(deps@[k]));
                        let j = choose|j: int| 0 <= j < sorted1.len() && sorted1[j] == deps@[k];
                        assert(sorted@[j] == deps@[k]);
                    }
                }
            }
        }
        i = i + 1;
    }
    let ghost sorted2 = sorted@;
    assert(dfs_deps(g, deps@, i as int, visited@, sorted@, (fuel - 1) as nat) == (visited@, sorted@));
    sorted.push(v);
    proof {
        assert(!sorted2.contains(v));
        assert forall|x: usize| sorted2.contains(x) implies sorted@.contains(x) by {
            let j = choose|j: int| 0 <= j < sorted2.len() && sorted2[j] == x;
            assert(sorted@[j] == x);
        }
        assert forall|s: int| 0 <= s < adj.len() && s != v implies (in_progress(
            visited@,
            sorted@,
            s,
        ) <==> in_progress(visited@, sorted2, s)) by {
            if sorted@.contains(s as usize) {
                let j = choose|j: int| 0 <= j < sorted@.len() && sorted@[j] == s as usize;
                if j < sorted2.len() {
                    assert(sorted2[j] == s as usize);
                }
            }
        }
        assert(sorted@[sorted2.len() as int] == v);
        assert(sorted@.contains(v));
        assert(!in_progress(vis0, sorted0, v as int));
        assert forall|s: int| 0 <= s < adj.len() implies (#[trigger] in_progress(
            visited@,
            sorted@,
            s,
        ) <==> in_progress(vis0, sorted0, s)) by {
            if s != v {
                assert(in_progress(visited@, sorted@, s) <==> in_progress(visited@, sorted2, s));
                assert(in_progress(visited@, sorted2, s) <==> in_progress(vis0, sorted0, s));
            }
        }
        assert(sorted@.subrange(0, sorted0.len() as int) =~= sorted0) by {
            assert forall|k: int| 0 <= k < sorted0.len() implies sorted@[k] == sorted0[k] by {
                assert(sorted2.subrange(0, sorted0.len() as int)[k] == sorted2[k]);
            }
        }
        if acyclic {
            assert forall|a: int, k: int|
                0 <= a < sorted@.len() && 0 <= k < g[sorted@[a] as int].len() implies sorted@.contains(
                #[trigger] g[sorted@[a] as int][k],
            ) by {
                if a < sorted2.len() {
                    assert(sorted2[a] == sorted@[a]);
                    assert(sorted2.contains(g[sorted2[a] as int][k]));
                } else {
                    assert(sorted@.contains(deps@[k]));
                }
            }
            assert forall|a: int, b: int, k: int|
                0 <= a < sorted@.len() && 0 <= b < sorted@.len() && 0 <= k < g[sorted@[
                    a
                ] as int].len() && #[trigger] g[sorted@[a] as int][k] == #[trigger] sorted@[b]
                implies b < a by {
                if a < sorted2.len() {
                    assert(sorted2[a] == sorted@[a]);
                    assert(sorted2.contains(g[sorted2[a] as int][k]));
                    if b == sorted2.len() {
                        assert(!sorted2.contains(v));
                    } else {
                        assert(sorted2[b] == sorted@[b]);
                    }
                } else {
                    assert(a == sorted2.len());
                    assert(sorted2.contains(deps@[k]));
                    let j = choose|j: int| 0 <= j < sorted2.len() && sorted2[j] == deps@[k];
                    assert(sorted@[j] == sorted@[b]);
                    if b == a {
                        assert(sorted@[b] == v);
                        assert(rank[deps@[k] as int] < rank[v as int]);
                    }
                }
            }
        }
    }
}

/// Depth-first post-order of `members` over `adj`: for each member in turn,
/// its not yet listed dependencies come first, then the member itself.
pub fn dfs_order(adj: &Vec<Vec<usize>>, members: &Vec<usize>) -> (r: Vec<usize>)
    requires
        graph_wf(adj_view(adj@), members@),
        forall|i: int| 0 <= i < members@.len() ==> #[trigger] members@[i] < adj.len(),
    ensures
        distinct(r@),
        forall|i: int| 0 <= i < r@.len() ==> members@.contains(#[trigger] r@[i]),
        forall|i: int| 0 <= i < members@.len() ==> r@.contains(#[trigger] members@[i]),
        forall|rank: Seq<nat>|
            #[trigger] is_ranking(adj_view(adj@), rank) ==> deps_first(
                adj_view(adj@),
                r@,
            ),
        r@ == dfs_postorder(adj_view(adj@), members@),
{
    let ghost g = adj_view(adj@);
    let ghost acyclic = exists|rank: Seq<nat>| is_ranking(g, rank);
    let ghost rank = if acyclic {
        choose|rank: Seq<nat>| is_ranking(g, rank)
    } else {
        Seq::empty()
    };
    let mut visited: Vec<bool> = Vec::new();
    let mut n: usize = 0;
    while n < adj.len()
        invariant
            n <= adj.len(),
            visited@.len() == n,
            forall|s: int| 0 <= s < n ==> !#[trigger] visited@[s],
        decreases adj.len() - n,
    {
        visited.push(false);
        n = n + 1;
    }
    let mut sorted: Vec<usize> = Vec::new();
    let mut i: usize = 0;
    assert(visited@ =~= Seq::new(adj@.len(), |i: int| false));
    while i < members.len()
        invariant
            dfs_members(g, members@, i as int, visited@, sorted@) == dfs_members(
                g,
                members@,
                0,
                Seq::new(adj@.len(), |i: int| false),
                Seq::empty(),
            ),
            g.len() == adj@.len(),
            g == adj_view(adj@),
            graph_wf(g, members@),
            forall|k: int| 0 <= k < members@.len() ==> #[trigger] members@[k] < adj.len(),
            i <= members.len(),
            acyclic ==> is_ranking(g, rank),
            dfs_inv(g, members@, visited@, sorted@, rank, acyclic),
            forall|s: int| 0 <= s < adj.len() ==> !#[trigger] in_progress(visited@, sorted@, s),
            forall|k: int| 0 <= k < i ==> sorted@.contains(#[trigger] members@[k]),
        decreases members.len() - i,
    {
        let ghost sorted1 = sorted@;
        let ghost vis1 = visited@;
        proof {
            lemma_visited_bounded(visited@);
        }
        sort_workspace_inner(
            adj,
            members[i],
            &mut visited,
            &mut sorted,
            Ghost(members@),
            Ghost(rank),
            Ghost(acyclic),
            Ghost((adj.len() + 1) as nat),
        );
        proof {
            assert(dfs_members(g, members@, i as int, vis1, sorted1) == dfs_members(
                g,
                members@,
                i + 1,
                visited@,
                sorted@,
            ));
            assert(!in_progress(visited@, sorted@, members@[i as int] as int));
            assert forall|k: int| 0 <= k < i + 1 implies sorted@.contains(#[trigger] members@[k]) by {
                if k < i {
                    let j = choose|j: int| 0 <= j < sorted1.len() && sorted1[j] == members@[k];
                    assert(sorted@.subrange(0, sorted1.len() as int)[j] == sorted@[j]);
                }
            }
        }
        i = i + 1;
    }
    sorted
}

/// `x` is a dependency of `p` in one of the first `upto` resolve nodes, and
/// both are flagged as workspace members.
pub open spec fn edge_upto(
    nodes: Seq<ResolveNode>,
    flags: Seq<bool>,
    upto: int,
    p: int,
    x: usize,
) -> bool {
    &&& flags[p]
    &&& flags[x as int]
    &&& exists|k: int|
        0 <= k < upto && #[trigger] nodes[k].id == p as usize && nodes[k].dependencies@.contains(x)
}

/// The dependencies of `p`'s resolve node that are flagged, in resolve order;
/// none when `p` is not flagged or has no node.
pub open spec fn node_deps(nodes: Seq<ResolveNode>, flags: Seq<bool>, p: int) -> Seq<usize> {
    if flags[p] && exists|k: int| 0 <= k < nodes.len() && #[trigger] nodes[k].id == p as usize {
        let k = choose|k: int| 0 <= k < nodes.len() && #[trigger] nodes[k].id == p as usize;
        nodes[k].dependencies@.filter(|d: usize| flags[d as int])
    } else {
        Seq::empty()
    }
}

/// Which packages are workspace members.
pub open spec fn membership(meta: Metadata) -> Seq<bool> {
    Seq::new(meta.packages@.len(), |p: int| meta.is_member(p))
}

/// The in-workspace dependency lists of all packages, indexed by package.
pub open spec fn workspace_adj(meta: Metadata) -> Seq<Seq<usize>> {
    match meta.resolve {
        Some(nodes) => Seq::new(
            meta.packages@.len(),
            |p: int| node_deps(nodes@, membership(meta), p),
        ),
        None => Seq::new(meta.packages@.len(), |p: int| Seq::<usize>::empty()),
    }
}

/// Flags the workspace members among the `n` packages.
fn member_flags(members: &Vec<usize>, n: usize) -> (r: Vec<bool>)
    requires
        forall|i: int| 0 <= i < members@.len() ==> #[trigger] members@[i] < n,
    ensures
        r@.len() == n,
        forall|p: int| 0 <= p < n ==> (#[trigger] r@[p] <==> members@.contains(p as usize)),
{
    let mut flags: Vec<bool> = Vec::new();
    let mut k: usize = 0;
    while k < n
        invariant
            k <= n,
            flags@.len() == k,
            forall|p: int| 0 <= p < k ==> !#[trigger] flags@[p],
        decreases n - k,
    {
        flags.push(false);
        k = k + 1;
    }
    let mut i: usize = 0;
    while i < members.len()
        invariant
            i <= members.len(),
            flags@.len() == n,
            forall|j: int| 0 <= j < members@.len() ==> #[trigger] members@[j] < n,
            forall|p: int|
                0 <= p < n ==> (#[trigger] flags@[p] <==> members@.subrange(0, i as int).contains(
                    p as usize,
                )),
        decreases members.len() - i,
    {
        let m = members[i];
        flags.set(m, true);
        proof {
            assert forall|p: int| 0 <= p < n implies (#[trigger] flags@[p] <==> members@.subrange(
                0,
                i + 1,
            ).contains(p as usize)) by {
                let pre = members@.subrange(0, i as int);
                let post = members@.subrange(0, i + 1);
                if pre.contains(p as usize) {
                    let j = choose|j: int| 0 <= j < pre.len() && pre[j] == p as usize;
                    assert(post[j] == p as usize);
                }
                if post.contains(p as usize) && p != m {
                    let j = choose|j: int| 0 <= j < post.len() && post[j] == p as usize;
                    assert(pre[j] == p as usize);
                }
                if p == m {
                    assert(post[i as int] == m);
                }
            }
        }
        i = i + 1;
    }
    assert(members@.subrange(0, members@.len() as int) == members@);
    flags
}

/// The dependencies among `deps` that are flagged.
fn flagged_deps(deps: &Vec<usize>, flags: &Vec<bool>) -> (r: Vec<usize>)
    requires
        forall|j: int| 0 <= j < deps@.len() ==> #[trigger] deps@[j] < flags@.len(),
    ensures
        forall|x: usize| #[trigger] r@.contains(x) <==> deps@.contains(x) && flags@[x as int],
        forall|j: int| 0 <= j < r@.len() ==> flags@[#[trigger] r@[j] as int] && r@[j] < flags@.len(),
        r@ == deps@.filter(|d: usize| flags@[d as int]),
{
    broadcast use Seq::lemma_filter_push;

    let ghost pred = |d: usize| flags@[d as int];
    let mut r: Vec<usize> = Vec::new();
    let mut i: usize = 0;
    while i < deps.len()
        invariant
            i <= deps.len(),
            forall|j: int| 0 <= j < deps@.len() ==> #[trigger] deps@[j] < flags@.len(),
            forall|x: usize|
                #[trigger] r@.contains(x) <==> deps@.subrange(0, i as int).contains(x)
                    && flags@[x as int],
            forall|j: int| 0 <= j < r@.len() ==> flags@[#[trigger] r@[j] as int] && r@[j] < flags@.len(),
            pred == (|d: usize| flags@[d as int]),
            r@ == deps@.subrange(0, i as int).filter(pred),
        decreases deps.len() - i,
    {
        let d = deps[i];
        let ghost r0 = r@;
        if flags[d] {
            r.push(d);
        }
        proof {
            assert forall|x: usize| #[trigger] r@.contains(x) <==> deps@.subrange(
                0,
                i + 1,
            ).contains(x) && flags@[x as int] by {
                let pre = deps@.subrange(0, i as int);
                let post = deps@.subrange(0, i + 1);
                if pre.contains(x) {
                    let j = choose|j: int| 0 <= j < pre.len() && pre[j] == x;
                    assert(post[j] == x);
                }
                if post.contains(x) && x != d {
                    let j = choose|j: int| 0 <= j < post.len() && post[j] == x;
                    assert(pre[j] == x);
                }
                if x == d {
                    assert(post[i as int] == d);
                }
                if r0.contains(x) {
                    let j = choose|j: int| 0 <= j < r0.len() && r0[j] == x;
                    assert(r@[j] == x);
                }
                if r@.contains(x) && x != d {
                    let j = choose|j: int| 0 <= j < r@.len() && r@[j] == x;
                    assert(r0[j] == x);
                }
                if x == d && flags@[d as int] {
                    assert(r@[r0.len() as int] == d);
                }
            }
            assert(deps@.subrange(0, i + 1) =~= deps@.subrange(0, i as int).push(d));
            deps@.subrange(0, i as int).lemma_filter_push(d, pred);
            assert(pred(d) == flags@[d as int]);
        }
        i = i + 1;
    }
    assert(deps@.subrange(0, deps@.len() as int) == deps@);
    r
}

/// In-workspace adjacency lists, indexed by package: for each member, its
/// dependencies that are members too; empty for other packages.
fn workspace_adjacency(nodes: &Vec<ResolveNode>, flags: &Vec<bool>) -> (r: Vec<Vec<usize>>)
    requires
        forall|k: int| 0 <= k < nodes@.len() ==> #[trigger] nodes@[k].id < flags@.len(),
        forall|k: int, j: int|
            0 <= k < nodes@.len() && 0 <= j < nodes@[k].dependencies@.len()
                ==> #[trigger] nodes@[k].dependencies@[j] < flags@.len(),
        forall|k1: int, k2: int|
            0 <= k1 < nodes@.len() && 0 <= k2 < nodes@.len() && k1 != k2
                ==> #[trigger] nodes@[k1].id != #[trigger] nodes@[k2].id,
    ensures
        r@.len() == flags@.len(),
        forall|p: int, x: usize|
            0 <= p < flags@.len() ==> (#[trigger] adj_view(r@)[p].contains(x) <==> edge_upto(
                nodes@,
                flags@,
                nodes@.len() as int,
                p,
                x,
            )),
        forall|p: int, j: int|
            0 <= p < r@.len() && 0 <= j < r@[p]@.len() ==> flags@[#[trigger] r@[p]@[j] as int]
                && r@[p]@[j] < flags@.len(),
        forall|p: int| 0 <= p < flags@.len() ==> #[trigger] adj_view(r@)[p] == node_deps(nodes@, flags@, p),
{
    let n = flags.len();
    let mut adj: Vec<Vec<usize>> = Vec::new();
    let mut p: usize = 0;
    while p < n
        invariant
            p <= n,
            n == flags@.len(),
            adj@.len() == p,
            forall|q: int| 0 <= q < p ==> #[trigger] adj@[q]@.len() == 0,
        decreases n - p,
    {
        adj.push(Vec::new());
        p = p + 1;
    }
    let mut i: usize = 0;
    while i < nodes.len()
        invariant
            i <= nodes.len(),
            n == flags@.len(),
            adj@.len() == n,
            forall|k: int| 0 <= k < nodes@.len() ==> #[trigger] nodes@[k].id < flags@.len(),
            forall|k: int, j: int|
                0 <= k < nodes@.len() && 0 <= j < nodes@[k].dependencies@.len()
                    ==> #[trigger] nodes@[k].dependencies@[j] < flags@.len(),
            forall|k1: int, k2: int|
                0 <= k1 < nodes@.len() && 0 <= k2 < nodes@.len() && k1 != k2
                    ==> #[trigger] nodes@[k1].id != #[trigger] nodes@[k2].id,
            forall|q: int, x: usize|
                0 <= q < n ==> (#[trigger] adj_view(adj@)[q].contains(x) <==> edge_upto(
                    nodes@,
                    flags@,
                    i as int,
                    q,
                    x,
                )),
            forall|q: int, j: int|
                0 <= q < adj@.len() && 0 <= j < adj@[q]@.len() ==> flags@[
                    #[trigger] adj@[q]@[j] as int
                ] && adj@[q]@[j] < flags@.len(),
            forall|q: int|
                0 <= q < n ==> #[trigger] adj_view(adj@)[q] == if exists|k: int|
                    0 <= k < i && #[trigger] nodes@[k].id == q as usize {
                    node_deps(nodes@, flags@, q)
                } else {
                    Seq::<usize>::empty()
                },
        decreases nodes.len() - i,
    {
        let node = &nodes[i];
        let id = node.id;
        let ghost adj0 = adj@;
        if flags[id] {
            let deps = flagged_deps(&node.dependencies, flags);
            adj.set(id, deps);
        }
        proof {
            assert forall|q: int| 0 <= q < n implies #[trigger] adj_view(adj@)[q] == if exists|k: int|
                0 <= k < i + 1 && #[trigger] nodes@[k].id == q as usize {
                node_deps(nodes@, flags@, q)
            } else {
                Seq::<usize>::empty()
            } by {
                if q == id {
                    let c = choose|k: int| 0 <= k < nodes@.len() && #[trigger] nodes@[k].id == q as usize;
                    assert(nodes@[i as int].id == q as usize);
                    assert(c == i);
                    if !flags@[q] {
                        if exists|k: int| 0 <= k < i && #[trigger] nodes@[k].id == q as usize {
                            let k = choose|k: int| 0 <= k < i && #[trigger] nodes@[k].id == q as usize;
                            assert(nodes@[k].id != nodes@[i as int].id);
                        }
                    }
                } else {
                    assert(adj_view(adj@)[q] == adj_view(adj0)[q]);
                    if exists|k: int| 0 <= k < i + 1 && #[trigger] nodes@[k].id == q as usize {
                        let k = choose|k: int| 0 <= k < i + 1 && #[trigger] nodes@[k].id == q as usize;
                        assert(k != i);
                        assert(exists|k: int| 0 <= k < i && #[trigger] nodes@[k].id == q as usize);
                    }
                }
            }
            assert forall|q: int, x: usize| 0 <= q < n implies (#[trigger] adj_view(
                adj@,
            )[q].contains(x) <==> edge_upto(nodes@, flags@, i + 1, q, x)) by {
                if q != id {
                    assert(adj_view(adj@)[q] == adj_view(adj0)[q]);
                    if edge_upto(nodes@, flags@, i + 1, q, x) {
                        let k = choose|k: int|
                            0 <= k < i + 1 && #[trigger] nodes@[k].id == q as usize
                                && nodes@[k].dependencies@.contains(x);
                        assert(k != i);
                        assert(edge_upto(nodes@, flags@, i as int, q, x));
                    }
                } else {
                    if edge_upto(nodes@, flags@, i as int, q, x) {
                        let k = choose|k: int|
                            0 <= k < i && #[trigger] nodes@[k].id == q as usize
                                && nodes@[k].dependencies@.contains(x);
                        assert(nodes@[k].id != nodes@[i as int].id);
                    }
                    if flags@[q] {
                        if node.dependencies@.contains(x) && flags@[x as int] {
                            assert(nodes@[i as int].id == q as usize);
                        }
                    } else {
                        assert(!edge_upto(nodes@, flags@, i + 1, q, x));
                    }
                }
            }
        }
        i = i + 1;
    }
    proof {
        assert forall|q: int| 0 <= q < n implies #[trigger] adj_view(adj@)[q] == node_deps(nodes@, flags@, q) by {
            if !(exists|k: int| 0 <= k < nodes@.len() && #[trigger] nodes@[k].id == q as usize) {
                assert(node_deps(nodes@, flags@, q) == Seq::<usize>::empty());
            }
        }
    }
    adj
}

/// The publish order of the workspace members: a depth-first post-order over
/// the in-workspace dependency graph, members taken in their listed order.
///
/// Every member appears exactly once. When the members have no dependency
/// cycle, each package comes after all of its in-workspace dependencies.
pub fn sort_workspace(meta: &Metadata) -> (r: Result<Vec<usize>, ReleaseError>)
    requires
        meta.wf(),
    ensures
        meta.resolve is None <==> r is Err,
        r is Err ==> r == Err::<Vec<usize>, ReleaseError>(ReleaseError::UnresolvedDependencies),
        r matches Ok(order) ==> {
            &&& distinct(order@)
            &&& forall|i: int| 0 <= i < order@.len() ==> meta.is_member(#[trigger] order@[i] as int)
            &&& forall|i: int|
                0 <= i < meta.workspace_members@.len() ==> order@.contains(
                    #[trigger] meta.workspace_members@[i],
                )
            &&& meta.workspace_acyclic() ==> forall|i: int, j: int|
                0 <= i < order@.len() && 0 <= j < order@.len() && #[trigger] meta.workspace_edge(
                    order@[i] as int,
                    order@[j] as int,
                ) ==> j < i
            &&& order@ == dfs_postorder(workspace_adj(*meta), meta.workspace_members@)
        },
{
    let nodes = match &meta.resolve {
        None => return Err(ReleaseError::UnresolvedDependencies),
        Some(nodes) => nodes,
    };
    let n = meta.packages.len();
    let flags = member_flags(&meta.workspace_members, n);
    let adj = workspace_adjacency(nodes, &flags);
    let ghost g = adj_view(adj@);
    proof {
        assert forall|p: int, x: usize|
            0 <= p < n implies (#[trigger] g[p].contains(x) <==> meta.workspace_edge(
            p,
            x as int,
        )) by {
            if g[p].contains(x) {
                assert(edge_upto(nodes@, flags@, nodes@.len() as int, p, x));
                let k = choose|k: int|
                    0 <= k < nodes@.len() && #[trigger] nodes@[k].id == p as usize
                        && nodes@[k].dependencies@.contains(x);
                let j = choose|j: int|
                    0 <= j < nodes@[k].dependencies@.len() && nodes@[k].dependencies@[j] == x;
                assert(nodes@[k].dependencies@[j] < n);
            }
            if meta.workspace_edge(p, x as int) {
                assert(edge_upto(nodes@, flags@, nodes@.len() as int, p, x));
            }
        }
        assert forall|v: int, k: int|
            0 <= v < g.len() && 0 <= k < g[v].len() implies #[trigger] g[v][k] < g.len()
            && meta.workspace_members@.contains(g[v][k]) by {
            assert(adj@[v]@[k] == g[v][k]);
            assert(flags@[adj@[v]@[k] as int]);
        }
    }
    let order = dfs_order(&adj, &meta.workspace_members);
    proof {
        assert(flags@ =~= membership(*meta));
        assert(g =~= workspace_adj(*meta));
        if meta.workspace_acyclic() {
            let rank = choose|rank: Seq<nat>|
                rank.len() == meta.num_packages() && forall|a: int, b: int|
                    #[trigger] meta.workspace_edge(a, b) ==> rank[b] < rank[a];
            assert forall|v: int, k: int|
                0 <= v < g.len() && 0 <= k < g[v].len() implies rank[#[trigger] g[v][k] as int]
                < rank[v] by {
                assert(g[v].contains(g[v][k]));
                assert(meta.workspace_edge(v, g[v][k] as int));
            }
            assert(is_ranking(g, rank));
            assert forall|i: int, j: int|
                0 <= i < order@.len() && 0 <= j < order@.len() && #[trigger] meta.workspace_edge(
                    order@[i] as int,
                    order@[j] as int,
                ) implies j < i by {
                let a = order@[i] as int;
                assert(meta.workspace_members@.contains(order@[i]));
                assert(g[a].contains(order@[j]));
                let k = choose|k: int| 0 <= k < g[a].len() && g[a][k] == order@[j];
                assert(g[order@[i] as int][k] == order@[j]);
            }
        }
        assert forall|i: int| 0 <= i < order@.len() implies meta.is_member(
            #[trigger] order@[i] as int,
        ) by {
            let j = choose|j: int|
                0 <= j < meta.workspace_members@.len() && meta.workspace_members@[j] == order@[i];
            assert(meta.workspace_members@[j] < n);
        }
    }
    Ok(order)
}

} // verus!
