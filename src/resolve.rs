//! Linearisation of a dependency graph given as adjacency lists: vertex `a`
//! lists the vertices it depends on, which must come before it.
use vstd::prelude::*;

verus! {

/// `a` depends on `b` in the adjacency lists `g`.
pub open spec fn edge(g: Seq<Vec<usize>>, a: int, b: int) -> bool {
    0 <= a < g.len() && 0 <= b < g.len() && g[a]@.contains(b as usize)
}

/// The dependency relation of the adjacency lists `g`.
pub open spec fn graph_rel(g: Seq<Vec<usize>>) -> spec_fn(int, int) -> bool {
    |a: int, b: int| edge(g, a, b)
}

/// Every listed dependency is a vertex of `g`.
pub open spec fn graph_wf(g: Seq<Vec<usize>>) -> bool {
    forall|a: int, k: int| 0 <= a < g.len() && 0 <= k < g[a].len() ==> g[a][k] < g.len()
}

/// `x` stands somewhere in `order`.
pub open spec fn appears(order: Seq<usize>, x: int) -> bool {
    exists|i: int| 0 <= i < order.len() && order[i] as int == x
}

/// `order` lists each of `0 .. n` exactly once, and nothing else.
pub open spec fn is_permutation(order: Seq<usize>, n: int) -> bool {
    &&& order.len() == n
    &&& order.no_duplicates()
    &&& forall|i: int| 0 <= i < order.len() ==> order[i] < n
    &&& forall|x: int| 0 <= x < n ==> #[trigger] appears(order, x)
}

/// In `order`, whatever a vertex depends on under `rel` stands before it.
pub open spec fn respects(rel: spec_fn(int, int) -> bool, order: Seq<usize>) -> bool {
    forall|i: int, j: int|
        0 <= i < order.len() && 0 <= j < order.len() && #[trigger] rel(order[i] as int, order[j] as int)
            ==> j < i
}

/// `p` is a closed walk of `rel` over the vertices `0 .. n`.
pub open spec fn is_cycle(rel: spec_fn(int, int) -> bool, n: int, p: Seq<int>) -> bool {
    &&& p.len() >= 2
    &&& p[0] == p[p.len() - 1]
    &&& forall|k: int| 0 <= k < p.len() ==> 0 <= #[trigger] p[k] < n
    &&& forall|k: int| 0 <= k < p.len() - 1 ==> #[trigger] rel(p[k], p[k + 1])
}

/// Some closed walk of `rel` exists over the vertices `0 .. n`.
pub open spec fn has_cycle(rel: spec_fn(int, int) -> bool, n: int) -> bool {
    exists|p: Seq<int>| is_cycle(rel, n, p)
}

/// Where `x` stands in `order`.
pub open spec fn position(order: Seq<usize>, x: int) -> int {
    choose|i: int| 0 <= i < order.len() && order[i] as int == x
}

proof fn lemma_position(order: Seq<usize>, n: int, x: int)
    requires
        is_permutation(order, n),
        0 <= x < n,
    ensures
        0 <= position(order, x) < order.len(),
        order[position(order, x)] as int == x,
{
    assert(appears(order, x));
}

proof fn lemma_positions_fall(rel: spec_fn(int, int) -> bool, n: int, order: Seq<usize>, p: Seq<int>, k: int)
    requires
        is_permutation(order, n),
        respects(rel, order),
        is_cycle(rel, n, p),
        1 <= k < p.len(),
    ensures
        position(order, p[k]) < position(order, p[0]),
    decreases k,
{
    if k > 1 {
        lemma_positions_fall(rel, n, order, p, k - 1);
    }
    assert(0 <= p[k - 1] < n && 0 <= p[k] < n);
    lemma_position(order, n, p[k - 1]);
    lemma_position(order, n, p[k]);
    let m = k - 1;
    assert(rel(p[m], p[m + 1]));
    let i = position(order, p[k - 1]);
    let j = position(order, p[k]);
    assert(rel(order[i] as int, order[j] as int));
}

/// A relation that some order of its vertices respects has no cycle.
pub proof fn lemma_ordered_is_acyclic(rel: spec_fn(int, int) -> bool, n: int, order: Seq<usize>)
    requires
        is_permutation(order, n),
        respects(rel, order),
    ensures
        !has_cycle(rel, n),
{
    if has_cycle(rel, n) {
        let p = choose|p: Seq<int>| is_cycle(rel, n, p);
        lemma_positions_fall(rel, n, order, p, p.len() - 1);
    }
}

/// Where a vertex stands in the traversal.
#[derive(Clone, Copy, PartialEq, Eq, Structural)]
enum Mark {
    Untouched,
    InProgress,
    Done,
}

spec fn untouched(s: Seq<Mark>) -> nat
    decreases s.len(),
{
    if s.len() == 0 {
        0
    } else {
        untouched(s.drop_last()) + if s.last() == Mark::Untouched {
            1nat
        } else {
            0nat
        }
    }
}

proof fn lemma_untouched_update(s: Seq<Mark>, i: int, m: Mark)
    requires
        0 <= i < s.len(),
    ensures
        untouched(s.update(i, m)) + (if s[i] == Mark::Untouched { 1int } else { 0int })
            == untouched(s) + (if m == Mark::Untouched { 1int } else { 0int }),
    decreases s.len(),
{
    let t = s.update(i, m);
    if i == s.len() - 1 {
        assert(t.drop_last() =~= s.drop_last());
    } else {
        assert(t.drop_last() =~= s.drop_last().update(i, m));
        lemma_untouched_update(s.drop_last(), i, m);
    }
}

proof fn lemma_untouched_none(s: Seq<Mark>)
    requires
        forall|k: int| 0 <= k < s.len() ==> s[k] != Mark::Untouched,
    ensures
        untouched(s) == 0,
    decreases s.len(),
{
    if s.len() > 0 {
        lemma_untouched_none(s.drop_last());
    }
}

/// What the traversal keeps true of the marks and of the order built so far:
/// the order holds exactly the finished vertices, once each, dependencies
/// first, and a finished vertex depends only on finished ones.
spec fn progress(g: Seq<Vec<usize>>, marks: Seq<Mark>, order: Seq<usize>) -> bool {
    &&& marks.len() == g.len()
    &&& order.no_duplicates()
    &&& forall|i: int| 0 <= i < order.len() ==> order[i] < g.len() && marks[order[i] as int] == Mark::Done
    &&& forall|x: int| 0 <= x < g.len() && marks[x] == Mark::Done ==> appears(order, x)
    &&& respects(graph_rel(g), order)
    &&& forall|x: int, b: int| marks[x] == Mark::Done && #[trigger] edge(g, x, b) ==> marks[b] == Mark::Done
}

/// The vertices in progress are those on `path`, a walk of the graph.
spec fn on_path(g: Seq<Vec<usize>>, marks: Seq<Mark>, path: Seq<int>) -> bool {
    &&& forall|k: int| 0 <= k < path.len() ==> 0 <= #[trigger] path[k] < g.len()
    &&& forall|x: int| 0 <= x < g.len() ==> (marks[x] == Mark::InProgress <==> path.contains(x))
    &&& forall|k: int| 0 <= k < path.len() - 1 ==> #[trigger] edge(g, path[k], path[k + 1])
}

/// Finished vertices stay finished, and the set in progress is unchanged.
spec fn moves_on(old_marks: Seq<Mark>, new_marks: Seq<Mark>) -> bool {
    &&& new_marks.len() == old_marks.len()
    &&& forall|x: int| 0 <= x < old_marks.len() && old_marks[x] == Mark::Done ==> new_marks[x] == Mark::Done
    &&& forall|x: int|
        0 <= x < old_marks.len() ==> (new_marks[x] == Mark::InProgress <==> old_marks[x] == Mark::InProgress)
}

proof fn lemma_cycle_on_path(g: Seq<Vec<usize>>, marks: Seq<Mark>, path: Seq<int>, b: int)
    requires
        on_path(g, marks, path),
        path.len() > 0,
        0 <= b < g.len(),
        marks[b] == Mark::InProgress,
        edge(g, path.last(), b),
    ensures
        has_cycle(graph_rel(g), g.len() as int),
{
    let k = choose|k: int| 0 <= k < path.len() && path[k] == b;
    let p = path.subrange(k, path.len() as int).push(b);
    let rel = graph_rel(g);
    assert forall|i: int| 0 <= i < p.len() - 1 implies #[trigger] rel(p[i], p[i + 1]) by {
        if i < p.len() - 2 {
            assert(edge(g, path[k + i], path[k + i + 1]));
        }
    }
    assert(is_cycle(rel, g.len() as int, p));
}

/// Finishes `v` and everything it depends on, appending them to `order`;
/// false where a dependency leads back to a vertex in progress.
fn visit(g: &Vec<Vec<usize>>, v: usize, marks: &mut Vec<Mark>, order: &mut Vec<usize>, Ghost(path): Ghost<Seq<int>>) -> (ok: bool)
    requires
        graph_wf(g@),
        v < g.len(),
        old(marks)@.len() == g.len(),
        old(marks)@[v as int] == Mark::Untouched,
        progress(g@, old(marks)@, old(order)@),
        on_path(g@, old(marks)@, path),
        path.len() > 0 ==> edge(g@, path.last(), v as int),
    ensures
        ok ==> progress(g@, final(marks)@, final(order)@),
        ok ==> moves_on(old(marks)@, final(marks)@.update(v as int, Mark::Untouched)),
        ok ==> final(marks)@[v as int] == Mark::Done,
        ok ==> untouched(final(marks)@) <= untouched(old(marks)@),
        ok ==> final(order)@.len() == old(order)@.len() + untouched(old(marks)@) - untouched(final(marks)@),
        !ok ==> has_cycle(graph_rel(g@), g.len() as int),
    decreases untouched(old(marks)@),
{
    let ghost m_in = marks@;
    let ghost o_in = order@;
    proof {
        lemma_untouched_update(marks@, v as int, Mark::InProgress);
    }
    marks.set(v, Mark::InProgress);
    let ghost m0 = marks@;
    let ghost here = path.push(v as int);
    assert(on_path(g@, marks@, here)) by {
        assert forall|x: int| 0 <= x < g.len() implies (marks@[x] == Mark::InProgress <==> here.contains(x)) by {
            if x != v {
                assert(m_in[x] == Mark::InProgress <==> path.contains(x));
                if path.contains(x) {
                    let k = choose|k: int| 0 <= k < path.len() && path[k] == x;
                    assert(here[k] == x);
                }
                if here.contains(x) {
                    let k = choose|k: int| 0 <= k < here.len() && here[k] == x;
                    assert(path[k] == x);
                }
            } else {
                assert(here[path.len() as int] == x);
            }
        }
        assert forall|k: int| 0 <= k < here.len() - 1 implies #[trigger] edge(g@, here[k], here[k + 1]) by {
            if k < path.len() - 1 {
                assert(edge(g@, path[k], path[k + 1]));
            }
        }
    }
    let deps = &g[v];
    let mut i: usize = 0;
    while i < deps.len()
        invariant
            graph_wf(g@),
            v < g.len(),
            deps == g@[v as int],
            0 <= i <= deps.len(),
            marks@[v as int] == Mark::InProgress,
            progress(g@, marks@, order@),
            on_path(g@, marks@, here),
            here.len() > 0 && here.last() == v as int,
            moves_on(m0, marks@),
            untouched(marks@) <= untouched(m0),
            order@.len() == o_in.len() + untouched(m0) - untouched(marks@),
            untouched(m0) + 1 == untouched(m_in),
            old(marks)@ == m_in,
            forall|k: int| 0 <= k < i ==> marks@[deps@[k] as int] == Mark::Done,
        decreases deps.len() - i,
    {
        let b = deps[i];
        assert(edge(g@, v as int, b as int));
        if marks[b] == Mark::InProgress {
            proof {
                lemma_cycle_on_path(g@, marks@, here, b as int);
            }
            return false;
        } else if marks[b] == Mark::Untouched {
            let ghost m1 = marks@;
            let ok = visit(g, b, marks, order, Ghost(here));
            if !ok {
                return false;
            }
            assert(moves_on(m0, marks@)) by {
                assert forall|x: int| 0 <= x < m0.len() && x != b implies
                    (marks@[x] == Mark::InProgress <==> m1[x] == Mark::InProgress) by {
                    assert(marks@.update(b as int, Mark::Untouched)[x] == marks@[x]);
                }
            }
        }
        i = i + 1;
    }
    proof {
        lemma_untouched_update(marks@, v as int, Mark::Done);
    }
    let ghost m2 = marks@;
    let ghost o2 = order@;
    marks.set(v, Mark::Done);
    order.push(v);
    assert(forall|b: int| edge(g@, v as int, b) ==> m2[b] == Mark::Done) by {
        assert forall|b: int| edge(g@, v as int, b) implies m2[b] == Mark::Done by {
            let k = choose|k: int| 0 <= k < deps@.len() && deps@[k] == b as usize;
        }
    }
    assert(!o2.contains(v)) by {
        if o2.contains(v) {
            let k = choose|k: int| 0 <= k < o2.len() && o2[k] == v;
        }
    }
    assert(progress(g@, marks@, order@)) by {
        assert forall|x: int| 0 <= x < g.len() && marks@[x] == Mark::Done implies appears(order@, x) by {
            if x == v {
                assert(order@[o2.len() as int] == v);
            } else {
                let k = choose|k: int| 0 <= k < o2.len() && o2[k] as int == x;
                assert(order@[k] == o2[k]);
            }
        }
        assert forall|ii: int, jj: int|
            0 <= ii < order@.len() && 0 <= jj < order@.len() && #[trigger] graph_rel(g@)(order@[ii] as int, order@[jj] as int)
            implies jj < ii by {
            if ii < o2.len() && jj == o2.len() {
                assert(m2[o2[ii] as int] == Mark::Done);
            }
            if ii < o2.len() && jj < o2.len() {
                assert(graph_rel(g@)(o2[ii] as int, o2[jj] as int));
            }
        }
    }
    assert(moves_on(m_in, marks@.update(v as int, Mark::Untouched))) by {
        assert forall|x: int| 0 <= x < m_in.len() && x != v implies marks@.update(v as int, Mark::Untouched)[x] == m2[x] by {}
    }
    true
}

/// An order of the vertices of `g` with every dependency first, or `None`
/// where `g` has a cycle.
pub fn linearize(g: &Vec<Vec<usize>>) -> (r: Option<Vec<usize>>)
    requires
        graph_wf(g@),
    ensures
        match r {
            Some(order) => is_permutation(order@, g.len() as int) && respects(graph_rel(g@), order@),
            None => has_cycle(graph_rel(g@), g.len() as int),
        },
{
    let n = g.len();
    let mut marks: Vec<Mark> = Vec::new();
    let mut k: usize = 0;
    while k < n
        invariant
            k <= n,
            marks@.len() == k,
            untouched(marks@) == k,
            forall|x: int| 0 <= x < k ==> marks@[x] == Mark::Untouched,
        decreases n - k,
    {
        let ghost before = marks@;
        marks.push(Mark::Untouched);
        assert(marks@.drop_last() =~= before);
        k = k + 1;
    }
    let mut order: Vec<usize> = Vec::new();
    let mut v: usize = 0;
    while v < n
        invariant
            graph_wf(g@),
            n == g.len(),
            v <= n,
            progress(g@, marks@, order@),
            on_path(g@, marks@, Seq::empty()),
            forall|x: int| 0 <= x < v ==> marks@[x] == Mark::Done,
            order@.len() + untouched(marks@) == n,
        decreases n - v,
    {
        if marks[v] == Mark::Untouched {
            let ghost m1 = marks@;
            if !visit(g, v, &mut marks, &mut order, Ghost(Seq::empty())) {
                return None;
            }
            assert(on_path(g@, marks@, Seq::empty())) by {
                assert forall|x: int| 0 <= x < g.len() implies marks@[x] != Mark::InProgress by {
                    if x != v {
                        assert(marks@.update(v as int, Mark::Untouched)[x] == marks@[x]);
                        assert(m1[x] != Mark::InProgress) by {
                            assert(!Seq::<int>::empty().contains(x));
                        }
                    }
                }
            }
        }
        v = v + 1;
    }
    proof {
        lemma_untouched_none(marks@);
    }
    Some(order)
}

} // verus!
