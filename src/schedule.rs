//! Schedule entries, their `before` / `after` constraints, and the schedule
//! that resolves them into an order.
use vstd::prelude::*;

use crate::label::{label_eq, PhaseLabel, RawPhaseLabel};
use crate::resolve::{
    edge, graph_rel, graph_wf, has_cycle, is_cycle, is_permutation, lemma_ordered_is_acyclic,
    linearize, respects,
};

verus! {

/// Whether `s` holds a token that matches `l`.
pub open spec fn holds_label(s: Seq<RawPhaseLabel>, l: RawPhaseLabel) -> bool {
    exists|k: int| 0 <= k < s.len() && label_eq(#[trigger] s[k]@, l@)
}

/// Whether some token of `a` matches a token of `b`.
pub open spec fn shares_label(a: Seq<RawPhaseLabel>, b: Seq<RawPhaseLabel>) -> bool {
    exists|x: int| 0 <= x < a.len() && holds_label(b, #[trigger] a[x])
}

/// Entry `a` of `entries` depends on entry `b`, which must come first: `b`
/// is constrained before a label of `a`, or `a` after a label of `b`.
#[verifier::opaque]
pub open spec fn depends_on(entries: Seq<PhaseScheduleEntry>, a: int, b: int) -> bool {
    &&& 0 <= a < entries.len()
    &&& 0 <= b < entries.len()
    &&& shares_label(entries[b].before@, entries[a].labels@) || shares_label(
        entries[a].after@,
        entries[b].labels@,
    )
}

/// The dependency relation among the positions of `entries`.
pub open spec fn dependency(entries: Seq<PhaseScheduleEntry>) -> spec_fn(int, int) -> bool {
    |a: int, b: int| depends_on(entries, a, b)
}

/// `order` is a valid linearisation of `entries`: each position once, every
/// dependency before what depends on it.
pub open spec fn is_phase_order(entries: Seq<PhaseScheduleEntry>, order: Seq<usize>) -> bool {
    is_permutation(order, entries.len() as int) && respects(dependency(entries), order)
}

/// What resolving `entries` may give: a valid order exactly when the
/// constraints have no cycle, and the cycle error otherwise.
pub open spec fn is_resolution(entries: Seq<PhaseScheduleEntry>, r: Result<Seq<usize>, ScheduleError>) -> bool {
    match r {
        Ok(order) => is_phase_order(entries, order) && !has_cycle(dependency(entries), entries.len() as int),
        Err(e) => e == ScheduleError::CyclicDependency && has_cycle(dependency(entries), entries.len() as int),
    }
}

/// In a valid order, an entry constrained before a label stands before every
/// other entry that carries that label.
pub proof fn lemma_before_precedes(entries: Seq<PhaseScheduleEntry>, order: Seq<usize>, i: int, j: int)
    requires
        is_phase_order(entries, order),
        0 <= i < entries.len(),
        0 <= j < entries.len(),
        i != j,
        shares_label(entries[i].before@, entries[j].labels@),
    ensures
        forall|pi: int, pj: int|
            0 <= pi < order.len() && 0 <= pj < order.len() && order[pi] as int == i && order[pj] as int == j
                ==> pi < pj,
{
    reveal(depends_on);
    assert(depends_on(entries, j, i));
    assert forall|pi: int, pj: int|
        0 <= pi < order.len() && 0 <= pj < order.len() && order[pi] as int == i && order[pj] as int == j implies pi
        < pj by {
        assert(dependency(entries)(order[pj] as int, order[pi] as int));
    }
}

/// In a valid order, an entry constrained after a label stands after every
/// other entry that carries that label.
pub proof fn lemma_after_follows(entries: Seq<PhaseScheduleEntry>, order: Seq<usize>, i: int, j: int)
    requires
        is_phase_order(entries, order),
        0 <= i < entries.len(),
        0 <= j < entries.len(),
        i != j,
        shares_label(entries[i].after@, entries[j].labels@),
    ensures
        forall|pi: int, pj: int|
            0 <= pi < order.len() && 0 <= pj < order.len() && order[pi] as int == i && order[pj] as int == j
                ==> pj < pi,
{
    reveal(depends_on);
    assert(depends_on(entries, i, j));
    assert forall|pi: int, pj: int|
        0 <= pi < order.len() && 0 <= pj < order.len() && order[pi] as int == i && order[pj] as int == j implies pj
        < pi by {
        assert(dependency(entries)(order[pi] as int, order[pj] as int));
    }
}

/// Two entries each constrained before a label of the other form a cycle.
pub proof fn lemma_mutual_before_is_cycle(entries: Seq<PhaseScheduleEntry>, i: int, j: int)
    requires
        0 <= i < entries.len(),
        0 <= j < entries.len(),
        shares_label(entries[i].before@, entries[j].labels@),
        shares_label(entries[j].before@, entries[i].labels@),
    ensures
        has_cycle(dependency(entries), entries.len() as int),
{
    reveal(depends_on);
    let p = seq![i, j, i];
    assert(depends_on(entries, i, j));
    assert(depends_on(entries, j, i));
    assert(is_cycle(dependency(entries), entries.len() as int, p));
}

/// An entry constrained before or after one of its own labels forms a cycle.
pub proof fn lemma_self_reference_is_cycle(entries: Seq<PhaseScheduleEntry>, i: int)
    requires
        0 <= i < entries.len(),
        shares_label(entries[i].before@, entries[i].labels@) || shares_label(
            entries[i].after@,
            entries[i].labels@,
        ),
    ensures
        has_cycle(dependency(entries), entries.len() as int),
{
    reveal(depends_on);
    let p = seq![i, i];
    assert(depends_on(entries, i, i));
    assert(is_cycle(dependency(entries), entries.len() as int, p));
}

/// An empty schedule has no cycle, and its only valid order is empty.
pub proof fn lemma_empty_schedule(order: Seq<usize>)
    ensures
        !has_cycle(dependency(Seq::empty()), 0),
        is_phase_order(Seq::empty(), order) ==> order.len() == 0,
{
    if has_cycle(dependency(Seq::empty()), 0) {
        let p = choose|p: Seq<int>| is_cycle(dependency(Seq::empty()), 0, p);
        assert(0 <= p[0] < 0);
    }
}

/// Resolving the same entries twice succeeds both times or fails both
/// times, and each success is a valid order.
pub proof fn lemma_resolution_repeatable(
    entries: Seq<PhaseScheduleEntry>,
    r1: Result<Seq<usize>, ScheduleError>,
    r2: Result<Seq<usize>, ScheduleError>,
)
    requires
        is_resolution(entries, r1),
        is_resolution(entries, r2),
    ensures
        r1 is Ok <==> r2 is Ok,
        r1 is Ok ==> is_phase_order(entries, r1->Ok_0),
        r2 is Ok ==> is_phase_order(entries, r2->Ok_0),
        r1 is Err ==> r1 == r2,
{
}

/// No two tokens of `s` match: `s` is a set of tokens.
pub open spec fn is_token_set(s: Seq<RawPhaseLabel>) -> bool {
    forall|i: int, j: int| 0 <= i < j < s.len() ==> !#[trigger] label_eq(s[i]@, s[j]@)
}

/// `s` with `t` added, unless a matching token is there.
pub open spec fn with_label(s: Seq<RawPhaseLabel>, t: RawPhaseLabel) -> Seq<RawPhaseLabel> {
    if holds_label(s, t) {
        s
    } else {
        s.push(t)
    }
}

/// Puts `label` into the token set `set`, unless a matching token is there.
pub fn insert_label(set: &mut Vec<RawPhaseLabel>, label: RawPhaseLabel)
    ensures
        final(set)@ == with_label(old(set)@, label),
        is_token_set(old(set)@) ==> is_token_set(final(set)@),
{
    let ghost t = label;
    if !contains_label(set, &label) {
        set.push(label);
        proof {
            let s0 = old(set)@;
            assert forall|i: int, j: int| 0 <= i < j < set@.len() && is_token_set(s0) implies !#[trigger] label_eq(
                set@[i]@,
                set@[j]@,
            ) by {
                if j == s0.len() {
                    assert(set@[j] == t);
                    assert(set@[i] == s0[i]);
                } else {
                    assert(set@[i] == s0[i] && set@[j] == s0[j]);
                }
            }
        }
    }
}

/// Whether `set` holds a token that matches `label`.
pub fn contains_label(set: &Vec<RawPhaseLabel>, label: &RawPhaseLabel) -> (r: bool)
    ensures
        r == holds_label(set@, *label),
{
    let mut k: usize = 0;
    while k < set.len()
        invariant
            k <= set.len(),
            forall|j: int| 0 <= j < k ==> !label_eq(set@[j]@, label@),
        decreases set.len() - k,
    {
        if set[k] == *label {
            return true;
        }
        k = k + 1;
    }
    false
}

/// Whether some token of `a` matches a token of `b`.
fn any_shared(a: &Vec<RawPhaseLabel>, b: &Vec<RawPhaseLabel>) -> (r: bool)
    ensures
        r == shares_label(a@, b@),
{
    let mut k: usize = 0;
    while k < a.len()
        invariant
            k <= a.len(),
            forall|j: int| 0 <= j < k ==> !holds_label(b@, #[trigger] a@[j]),
        decreases a.len() - k,
    {
        if contains_label(b, &a[k]) {
            return true;
        }
        k = k + 1;
    }
    false
}

/// Something that can be added to a schedule.
pub trait PhaseScheduleCoercion: Sized {
    /// The entry that `self` stands for.
    spec fn entry_spec(self) -> PhaseScheduleEntry;

    fn entry(self) -> (r: PhaseScheduleEntry)
        ensures
            r == self.entry_spec(),
    ;

    fn label<L: PhaseLabel>(self, label: L) -> PhaseScheduleEntry;

    fn before<L: PhaseLabel>(self, label: L) -> PhaseScheduleEntry;

    fn after<L: PhaseLabel>(self, label: L) -> PhaseScheduleEntry;
}

/// One schedulable unit: the labels naming it, the labels it must precede
/// and the labels it must follow.
pub struct PhaseScheduleEntry {
    pub labels: Vec<RawPhaseLabel>,
    pub before: Vec<RawPhaseLabel>,
    pub after: Vec<RawPhaseLabel>,
}

impl PhaseScheduleEntry {
    /// Each of the three token lists is a set.
    pub open spec fn wf(&self) -> bool {
        &&& is_token_set(self.labels@)
        &&& is_token_set(self.before@)
        &&& is_token_set(self.after@)
    }

    /// An entry with no labels and no constraints.
    pub fn new() -> (r: Self)
        ensures
            r.labels@.len() == 0,
            r.before@.len() == 0,
            r.after@.len() == 0,
            r.wf(),
    {
        PhaseScheduleEntry { labels: Vec::new(), before: Vec::new(), after: Vec::new() }
    }
}

impl PhaseScheduleCoercion for PhaseScheduleEntry {
    open spec fn entry_spec(self) -> PhaseScheduleEntry {
        self
    }

    fn entry(self) -> (r: PhaseScheduleEntry)
        ensures
            r == self,
    {
        self
    }

    fn label<L: PhaseLabel>(self, label: L) -> (r: PhaseScheduleEntry)
        ensures
            r.labels@ == with_label(self.labels@, label.phase_token()),
            r.before@ == self.before@,
            r.after@ == self.after@,
            self.wf() ==> r.wf(),
    {
        let mut e = self;
        insert_label(&mut e.labels, label.raw_label());
        e
    }

    fn before<L: PhaseLabel>(self, label: L) -> (r: PhaseScheduleEntry)
        ensures
            r.before@ == with_label(self.before@, label.phase_token()),
            r.labels@ == self.labels@,
            r.after@ == self.after@,
            self.wf() ==> r.wf(),
    {
        let mut e = self;
        insert_label(&mut e.before, label.raw_label());
        e
    }

    fn after<L: PhaseLabel>(self, label: L) -> (r: PhaseScheduleEntry)
        ensures
            r.after@ == with_label(self.after@, label.phase_token()),
            r.labels@ == self.labels@,
            r.before@ == self.before@,
            self.wf() ==> r.wf(),
    {
        let mut e = self;
        insert_label(&mut e.after, label.raw_label());
        e
    }
}

/// The one way resolution fails.
#[derive(Clone, Copy, Debug, PartialEq, Eq, Structural)]
pub enum ScheduleError {
    CyclicDependency,
}

impl ScheduleError {
    /// A sentence that describes the error.
    pub fn message(&self) -> (r: &'static str)
        ensures
            r@ == "cyclic dependency in schedule"@,
    {
        match self {
            ScheduleError::CyclicDependency => "cyclic dependency in schedule",
        }
    }
}

/// An ordered list of entries; an entry's position is its identity.
pub struct PhaseSchedule {
    entries: Vec<PhaseScheduleEntry>,
}

impl View for PhaseSchedule {
    type V = Seq<PhaseScheduleEntry>;

    closed spec fn view(&self) -> Seq<PhaseScheduleEntry> {
        self.entries@
    }
}

impl Default for PhaseSchedule {
    fn default() -> (r: Self)
        ensures
            r@.len() == 0,
    {
        PhaseSchedule::new()
    }
}

impl PhaseSchedule {
    /// An empty schedule.
    pub fn new() -> (r: Self)
        ensures
            r@.len() == 0,
    {
        PhaseSchedule { entries: Vec::new() }
    }

    /// Appends `phase`'s entry at the next position.
    pub fn add_phase<P: PhaseScheduleCoercion>(&mut self, phase: P)
        ensures
            final(self)@ == old(self)@.push(phase.entry_spec()),
    {
        let e = phase.entry();
        self.entries.push(e);
    }

    /// Whether the entry at `a` depends on the one at `b`.
    fn depends(&self, a: usize, b: usize) -> (r: bool)
        requires
            a < self@.len(),
            b < self@.len(),
        ensures
            r == depends_on(self@, a as int, b as int),
    {
        proof {
            reveal(depends_on);
        }
        any_shared(&self.entries[b].before, &self.entries[a].labels) || any_shared(
            &self.entries[a].after,
            &self.entries[b].labels,
        )
    }

    /// For each position, the positions it depends on.
    fn dependency_lists(&self) -> (g: Vec<Vec<usize>>)
        ensures
            g@.len() == self@.len(),
            graph_wf(g@),
            forall|a: int, b: int|
                0 <= a < self@.len() && 0 <= b < self@.len() ==> (#[trigger] edge(g@, a, b) <==> depends_on(
                    self@,
                    a,
                    b,
                )),
    {
        let n = self.entries.len();
        let mut g: Vec<Vec<usize>> = Vec::new();
        let mut a: usize = 0;
        while a < n
            invariant
                n == self@.len(),
                a <= n,
                g@.len() == a,
                forall|x: int, k: int| 0 <= x < a && 0 <= k < g@[x].len() ==> g@[x][k] < n,
                forall|x: int, y: usize|
                    0 <= x < a && y < n ==> (#[trigger] g@[x]@.contains(y) <==> depends_on(self@, x, y as int)),
            decreases n - a,
        {
            let mut row: Vec<usize> = Vec::new();
            let mut b: usize = 0;
            while b < n
                invariant
                    n == self@.len(),
                    a < n,
                    b <= n,
                    forall|k: int| 0 <= k < row@.len() ==> row@[k] < b,
                    forall|y: usize|
                        y < n ==> (#[trigger] row@.contains(y) <==> (y < b && depends_on(self@, a as int, y as int))),
                decreases n - b,
            {
                let ghost old_row = row@;
                let d = self.depends(a, b);
                if d {
                    row.push(b);
                }
                proof {
                    assert forall|y: usize| y < n implies (#[trigger] row@.contains(y) <==> (y < b + 1
                        && depends_on(self@, a as int, y as int))) by {
                        if row@.contains(y) && y != b {
                            let k = choose|k: int| 0 <= k < row@.len() && row@[k] == y;
                            if d {
                                assert(k < old_row.len());
                            }
                            assert(old_row[k] == y);
                        }
                        if old_row.contains(y) {
                            let k = choose|k: int| 0 <= k < old_row.len() && old_row[k] == y;
                            assert(row@[k] == y);
                        }
                        if y == b && d {
                            assert(row@[row@.len() - 1] == b);
                        }
                        if y == b && old_row.contains(y) {
                            let k = choose|k: int| 0 <= k < old_row.len() && old_row[k] == y;
                            assert(old_row[k] < b);
                        }
                    }
                }
                b = b + 1;
            }
            let ghost old_g = g@;
            g.push(row);
            proof {
                assert forall|x: int, y: usize| 0 <= x < a + 1 && y < n implies (#[trigger] g@[x]@.contains(y)
                    <==> depends_on(self@, x, y as int)) by {
                    if x < a {
                        assert(g@[x] == old_g[x]);
                    }
                }
            }
            a = a + 1;
        }
        proof {
            assert forall|x: int, y: int|
                0 <= x < self@.len() && 0 <= y < self@.len() implies (#[trigger] edge(g@, x, y) <==> depends_on(
                self@,
                x,
                y,
            )) by {
                assert(g@[x]@.contains(y as usize) <==> depends_on(self@, x, (y as usize) as int));
            }
        }
        g
    }

    /// An order of the entries' positions in which every entry comes after
    /// all it depends on; the cycle error exactly when the constraints
    /// form a cycle.
    pub fn phase_order(&self) -> (r: Result<Vec<usize>, ScheduleError>)
        ensures
            is_resolution(
                self@,
                match r {
                    Ok(order) => Ok(order@),
                    Err(e) => Err(e),
                },
            ),
    {
        let g = self.dependency_lists();
        proof {
            reveal(depends_on);
            assert(graph_rel(g@) =~= dependency(self@));
        }
        match linearize(&g) {
            Some(order) => {
                proof {
                    lemma_ordered_is_acyclic(dependency(self@), self@.len() as int, order@);
                }
                Ok(order)
            },
            None => Err(ScheduleError::CyclicDependency),
        }
    }
}

} // verus!
