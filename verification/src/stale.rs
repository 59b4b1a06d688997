//! Staleness analysis over the include-dependency graph.
//!
//! Files are identified by indices into a file table; the graph is an
//! adjacency list mapping each file to the files it includes. A source must
//! be recompiled exactly when some file reachable from it along include
//! edges (the source itself included) is out of date relative to the
//! source's object file: the object is missing, the file cannot be read, or
//! the file's modification time is strictly newer than the object's.

use vstd::prelude::*;

verus! {

broadcast use vstd::seq_lib::lemma_seq_contains_after_push;

/// Every edge of the adjacency list points at a valid file index.
pub open spec fn graph_wf(g: Seq<Seq<usize>>) -> bool {
    forall|i: int, y: usize| 0 <= i < g.len() && g[i].contains(y) ==> (y as int) < g.len()
}

/// `p` is a non-empty walk in `g` from `src` to `dst` along include edges.
pub open spec fn is_path(g: Seq<Seq<usize>>, p: Seq<usize>, src: usize, dst: usize) -> bool {
    &&& p.len() > 0
    &&& p[0] == src
    &&& p[p.len() - 1] == dst
    &&& forall|k: int| 0 <= k < p.len() ==> (p[k] as int) < g.len()
    &&& forall|k: int| 0 <= k < p.len() - 1 ==> g[p[k] as int].contains(p[k + 1])
}

/// `dst` is reachable from `src` (in zero or more include steps).
pub open spec fn reaches(g: Seq<Seq<usize>>, src: usize, dst: usize) -> bool {
    exists|p: Seq<usize>| is_path(g, p, src, dst)
}

/// File `i` alone is out of date relative to an object timestamp: the object
/// is missing, the file could not be read, or the file is strictly newer.
pub open spec fn file_outdated(mtimes: Seq<Option<u64>>, obj: Option<u64>, i: int) -> bool {
    obj is None || mtimes[i] is None || mtimes[i].unwrap() > obj.unwrap()
}

/// A source is stale exactly when some file reachable from it is out of
/// date relative to the source's object file.
pub open spec fn spec_stale(
    g: Seq<Seq<usize>>,
    mtimes: Seq<Option<u64>>,
    obj: Option<u64>,
    src: usize,
) -> bool {
    exists|j: usize| reaches(g, src, j) && file_outdated(mtimes, obj, j as int)
}

/// Number of `true` entries of a boolean sequence.
pub closed spec fn count_true(s: Seq<bool>) -> int
    decreases s.len(),
{
    if s.len() == 0 {
        0
    } else {
        count_true(s.drop_last()) + if s.last() {
            1int
        } else {
            0int
        }
    }
}

proof fn lemma_count_true_bounds(s: Seq<bool>)
    ensures
        0 <= count_true(s) <= s.len(),
    decreases s.len(),
{
    if s.len() > 0 {
        lemma_count_true_bounds(s.drop_last());
    }
}

proof fn lemma_count_true_set(s: Seq<bool>, i: int)
    requires
        0 <= i < s.len(),
        !s[i],
    ensures
        count_true(s.update(i, true)) == count_true(s) + 1,
    decreases s.len(),
{
    let t = s.update(i, true);
    if i == s.len() - 1 {
        assert(t.drop_last() =~= s.drop_last());
    } else {
        assert(t.drop_last() =~= s.drop_last().update(i, true));
        lemma_count_true_set(s.drop_last(), i);
    }
}

/// Every visited vertex's successors are visited, except for vertices still
/// waiting on the work stack.
spec fn closed_except_stack(g: Seq<Seq<usize>>, vis: Seq<bool>, stack: Seq<usize>) -> bool {
    forall|j: usize, y: usize|
        (j as int) < g.len() && vis[j as int] && !stack.contains(j) && #[trigger] g[j as int].contains(
            y,
        ) ==> vis[y as int]
}

/// Indexing the nested view of an adjacency list agrees with indexing the
/// views of its rows.
proof fn lemma_deep_view_graph(g: &Vec<Vec<usize>>)
    ensures
        g.deep_view().len() == g@.len(),
        forall|i: int| 0 <= i < g@.len() ==> g.deep_view()[i] == g@[i]@,
{
    assert forall|i: int| 0 <= i < g@.len() implies g.deep_view()[i] == g@[i]@ by {
        assert(g.deep_view()[i] =~= g@[i]@);
    }
}

/// One include step extends reachability.
proof fn lemma_reaches_step(g: Seq<Seq<usize>>, src: usize, x: usize, y: usize)
    requires
        reaches(g, src, x),
        (x as int) < g.len(),
        g[x as int].contains(y),
        (y as int) < g.len(),
    ensures
        reaches(g, src, y),
{
    let p = choose|p: Seq<usize>| is_path(g, p, src, x);
    let q = p.push(y);
    assert(q[q.len() - 1] == y);
    assert forall|k: int| 0 <= k < q.len() - 1 implies g[q[k] as int].contains(q[k + 1]) by {
        if k < p.len() - 1 {
            assert(g[p[k] as int].contains(p[k + 1]));
        }
    }
    assert(is_path(g, q, src, y));
}

/// Reachability stays within the file table.
proof fn lemma_reaches_bound(g: Seq<Seq<usize>>, src: usize, dst: usize)
    requires
        reaches(g, src, dst),
    ensures
        (dst as int) < g.len(),
{
    let p = choose|p: Seq<usize>| is_path(g, p, src, dst);
    assert((p[p.len() - 1] as int) < g.len());
}

/// A set of vertices that contains `src` and is closed under include edges
/// contains everything reachable from `src`.
proof fn lemma_path_visits(g: Seq<Seq<usize>>, vis: Seq<bool>, p: Seq<usize>, src: usize, dst: usize)
    requires
        vis.len() == g.len(),
        is_path(g, p, src, dst),
        vis[src as int],
        closed_except_stack(g, vis, Seq::<usize>::empty()),
    ensures
        vis[dst as int],
    decreases p.len(),
{
    if p.len() == 1 {
        assert(dst == src);
    } else {
        let mid = p[1];
        assert(g[src as int].contains(mid));
        assert(!Seq::<usize>::empty().contains(src));
        assert(vis[mid as int]);
        let q = p.subrange(1, p.len() as int);
        assert(q[0] == mid);
        assert(q[q.len() - 1] == dst);
        assert forall|k: int| 0 <= k < q.len() - 1 implies g[q[k] as int].contains(q[k + 1]) by {
            assert(g[p[k + 1] as int].contains(p[k + 2]));
        }
        assert(is_path(g, q, mid, dst));
        lemma_path_visits(g, vis, q, mid, dst);
    }
}

/// Marks, by depth-first traversal with an explicit work stack, exactly the
/// files reachable from `src` along include edges. A cyclic graph is handled
/// like any other: a file is never expanded twice.
pub fn reachable_from(g: &Vec<Vec<usize>>, src: usize) -> (vis: Vec<bool>)
    requires
        graph_wf(g.deep_view()),
        src < g.len(),
    ensures
        vis.len() == g.len(),
        forall|j: usize| (j as int) < g.len() ==> (vis[j as int] <==> reaches(g.deep_view(), src, j)),
{
    let ghost gg = g.deep_view();
    proof {
        lemma_deep_view_graph(g);
    }
    let n = g.len();
    let mut vis: Vec<bool> = vec![false; n];
    let ghost v0 = vis@;
    proof {
        lemma_count_all_false(v0);
        lemma_count_true_set(v0, src as int);
    }
    vis.set(src, true);
    proof {
        assert(vis@ =~= v0.update(src as int, true));
    }
    let mut stack: Vec<usize> = Vec::new();
    stack.push(src);
    let mut count: usize = 1;
    proof {
        let p = seq![src];
        assert(is_path(gg, p, src, src));
    }
    while stack.len() != 0
        invariant
            gg == g.deep_view(),
            graph_wf(gg),
            n == g.len(),
            src < n,
            vis.len() == n,
            vis[src as int],
            count == count_true(vis@),
            forall|k: int| 0 <= k < stack.len() ==> (stack@[k] as int) < n && vis[stack@[k] as int],
            forall|j: usize| (j as int) < n && vis[j as int] ==> reaches(gg, src, j),
            closed_except_stack(gg, vis@, stack@),
        decreases n - count, stack.len(),
    {
        proof {
            lemma_deep_view_graph(g);
        }
        let ghost c0 = count;
        let ghost spre = stack@;
        let x = stack.pop().unwrap();
        let ghost stack_mid = stack@;
        proof {
            assert(spre =~= stack_mid.push(x));
        }
        let mut e: usize = 0;
        while e < g[x].len()
            invariant
                gg == g.deep_view(),
                graph_wf(gg),
                n == g.len(),
                src < n,
                (x as int) < n,
                e <= g[x as int]@.len(),
                vis.len() == n,
                vis[src as int],
                vis[x as int],
                count == count_true(vis@),
                count >= c0,
                count - c0 >= stack@.len() - stack_mid.len(),
                forall|k: int|
                    0 <= k < stack.len() ==> (stack@[k] as int) < n && vis[stack@[k] as int],
                forall|j: usize| (j as int) < n && vis[j as int] ==> reaches(gg, src, j),
                closed_except_stack(gg, vis@, stack@.push(x)),
                forall|k: int| 0 <= k < e ==> vis[gg[x as int][k] as int],
            decreases g[x as int]@.len() - e,
        {
            let y = g[x][e];
            proof {
                lemma_deep_view_graph(g);
                assert(gg[x as int][e as int] == y);
                assert(gg[x as int].contains(gg[x as int][e as int]));
                lemma_reaches_step(gg, src, x, y);
            }
            let ghost vpre = vis@;
            if !vis[y] {
                proof {
                    lemma_count_true_set(vis@, y as int);
                    lemma_count_true_bounds(vis@.update(y as int, true));
                }
                vis.set(y, true);
                stack.push(y);
                count = count + 1;
            }
            proof {
                assert(vis@[y as int]);
                assert forall|k2: int| 0 <= k2 < e + 1 implies vis@[gg[x as int][k2] as int] by {
                    assert(gg[x as int].contains(gg[x as int][k2]));
                    if k2 < e {
                        assert(vpre[gg[x as int][k2] as int]);
                    } else {
                        assert(gg[x as int][k2] == y);
                    }
                }
            }
            e = e + 1;
        }
        proof {
            lemma_count_true_bounds(vis@);
            assert forall|j: usize, y: usize|
                (j as int) < n && vis@[j as int] && !stack@.contains(j) && #[trigger] gg[j as int].contains(
                    y,
                ) implies vis@[y as int] by {
                if j == x {
                    let k = choose|k: int| 0 <= k < gg[x as int].len() && gg[x as int][k] == y;
                    assert(vis@[gg[x as int][k] as int]);
                } else {
                    assert(!stack@.push(x).contains(j));
                }
            }
        }
    }
    proof {
        assert forall|j: usize| (j as int) < n && reaches(gg, src, j) implies vis@[j as int] by {
            let p = choose|p: Seq<usize>| is_path(gg, p, src, j);
            assert(closed_except_stack(gg, vis@, Seq::<usize>::empty())) by {
                assert(forall|j2: usize| !Seq::<usize>::empty().contains(j2));
            }
            lemma_path_visits(gg, vis@, p, src, j);
        }
    }
    vis
}

proof fn lemma_count_all_false(s: Seq<bool>)
    requires
        forall|k: int| 0 <= k < s.len() ==> !s[k],
    ensures
        count_true(s) == 0,
    decreases s.len(),
{
    if s.len() > 0 {
        lemma_count_all_false(s.drop_last());
    }
}

/// Decides whether one source must be recompiled: its object timestamp is
/// `obj` (`None` when the object file does not exist), and `mtimes` gives
/// each file's modification time (`None` when the file cannot be read).
pub fn is_stale(g: &Vec<Vec<usize>>, mtimes: &Vec<Option<u64>>, obj: Option<u64>, src: usize) -> (r:
    bool)
    requires
        graph_wf(g.deep_view()),
        mtimes.len() == g.len(),
        src < g.len(),
    ensures
        r == spec_stale(g.deep_view(), mtimes@, obj, src),
{
    let ghost gg = g.deep_view();
    let vis = reachable_from(g, src);
    let n = g.len();
    let mut j: usize = 0;
    while j < n
        invariant
            gg == g.deep_view(),
            n == g.len(),
            mtimes.len() == n,
            src < n,
            vis.len() == n,
            forall|k: usize| (k as int) < n ==> (vis[k as int] <==> reaches(gg, src, k)),
            forall|k: usize| (k as int) < j ==> !(vis[k as int] && file_outdated(mtimes@, obj, k as int)),
        decreases n - j,
    {
        if vis[j] {
            let out = match obj {
                Option::None => true,
                Option::Some(ob) => match mtimes[j] {
                    Option::None => true,
                    Option::Some(m) => m > ob,
                },
            };
            if out {
                proof {
                    assert(reaches(gg, src, j) && file_outdated(mtimes@, obj, j as int));
                }
                return true;
            }
        }
        j = j + 1;
    }
    proof {
        assert forall|k: usize| !(reaches(gg, src, k) && file_outdated(mtimes@, obj, k as int)) by {
            if reaches(gg, src, k) {
                lemma_reaches_bound(gg, src, k);
            }
        }
    }
    false
}

/// Selects, in order, the positions of the sources that must be recompiled.
/// `sources[k]` is the file index of the `k`-th source and `objs[k]` its
/// object file's timestamp.
pub fn select_stale(
    g: &Vec<Vec<usize>>,
    mtimes: &Vec<Option<u64>>,
    sources: &Vec<usize>,
    objs: &Vec<Option<u64>>,
) -> (r: Vec<usize>)
    requires
        graph_wf(g.deep_view()),
        mtimes.len() == g.len(),
        objs.len() == sources.len(),
        forall|k: int| 0 <= k < sources.len() ==> (sources[k] as int) < g.len(),
    ensures
        forall|i: int, j: int| 0 <= i < j < r.len() ==> r[i] < r[j],
        forall|k: int| 0 <= k < r.len() ==> (r[k] as int) < sources.len(),
        forall|k: usize|
            (k as int) < sources.len() ==> (r@.contains(k) <==> spec_stale(
                g.deep_view(),
                mtimes@,
                objs[k as int],
                sources[k as int],
            )),
{
    let ghost gg = g.deep_view();
    let mut r: Vec<usize> = Vec::new();
    let mut k: usize = 0;
    while k < sources.len()
        invariant
            gg == g.deep_view(),
            graph_wf(gg),
            mtimes.len() == g.len(),
            objs.len() == sources.len(),
            forall|i: int| 0 <= i < sources.len() ==> (sources[i] as int) < g.len(),
            k <= sources.len(),
            forall|i: int, j: int| 0 <= i < j < r.len() ==> r[i] < r[j],
            forall|i: int| 0 <= i < r.len() ==> (r[i] as int) < k,
            forall|i: usize|
                (i as int) < k ==> (r@.contains(i) <==> spec_stale(
                    gg,
                    mtimes@,
                    objs[i as int],
                    sources[i as int],
                )),
        decreases sources.len() - k,
    {
        let ghost r0 = r@;
        let stale = is_stale(g, mtimes, objs[k], sources[k]);
        if stale {
            r.push(k);
            proof {
                assert(r@ == r0.push(k));
                assert forall|i: usize| (i as int) < k + 1 implies (r@.contains(i) <==> spec_stale(
                    gg,
                    mtimes@,
                    objs[i as int],
                    sources[i as int],
                )) by {
                    if (i as int) < k as int && r0.contains(i) {
                        assert(r@.contains(i));
                    }
                }
            }
        } else {
            proof {
                assert forall|i: usize| (i as int) < k + 1 implies (r@.contains(i) <==> spec_stale(
                    gg,
                    mtimes@,
                    objs[i as int],
                    sources[i as int],
                )) by {
                    if i == k && r@.contains(i) {
                        let w = choose|w: int| 0 <= w < r@.len() && r@[w] == i;
                        assert((r@[w] as int) < k as int);
                    }
                }
            }
        }
        k = k + 1;
    }
    r
}

/// A source with no object file is always stale.
pub proof fn lemma_missing_object_is_stale(
    g: Seq<Seq<usize>>,
    mtimes: Seq<Option<u64>>,
    src: usize,
)
    requires
        (src as int) < g.len(),
    ensures
        spec_stale(g, mtimes, Option::None, src),
{
    let p = seq![src];
    assert(is_path(g, p, src, src));
    assert(reaches(g, src, src) && file_outdated(mtimes, Option::None, src as int));
}

/// A source whose object is present and at least as new as the source and
/// every file it transitively includes is not stale.
pub proof fn lemma_fresh_object_not_stale(
    g: Seq<Seq<usize>>,
    mtimes: Seq<Option<u64>>,
    obj: Option<u64>,
    src: usize,
)
    requires
        obj is Some,
        forall|j: usize|
            reaches(g, src, j) ==> mtimes[j as int] is Some && mtimes[j as int].unwrap()
                <= obj.unwrap(),
    ensures
        !spec_stale(g, mtimes, obj, src),
{
}

/// Staleness of a source depends only on the timestamps of the files it
/// reaches: touching files outside that set cannot change the answer.
pub proof fn lemma_stale_depends_only_on_reachable(
    g: Seq<Seq<usize>>,
    mt1: Seq<Option<u64>>,
    mt2: Seq<Option<u64>>,
    obj: Option<u64>,
    src: usize,
)
    requires
        forall|j: usize| reaches(g, src, j) ==> mt1[j as int] == mt2[j as int],
    ensures
        spec_stale(g, mt1, obj, src) == spec_stale(g, mt2, obj, src),
{
    assert forall|j: usize| reaches(g, src, j) implies (file_outdated(mt1, obj, j as int)
        == file_outdated(mt2, obj, j as int)) by {
        assert(mt1[j as int] == mt2[j as int]);
    }
}

/// Touching a header that a source transitively includes, so that the header
/// becomes newer than the source's object, makes that source stale.
pub proof fn lemma_touched_header_makes_stale(
    g: Seq<Seq<usize>>,
    mtimes: Seq<Option<u64>>,
    obj: Option<u64>,
    src: usize,
    h: usize,
)
    requires
        reaches(g, src, h),
        file_outdated(mtimes, obj, h as int),
    ensures
        spec_stale(g, mtimes, obj, src),
{
}

} // verus!
