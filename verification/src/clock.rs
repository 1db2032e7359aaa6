//! The vector-clock realization of the causal-ordering half of the clock
//! abstraction.

use core::cmp::Ordering;
use vstd::prelude::*;
use vstd::std_specs::cmp::{PartialEqSpec, PartialOrdSpec};

use crate::NodeId;

verus! {

/// The untrusted reference clock: a mapping from node id to how many
/// computations that node is known to have causally contributed. A node
/// without an entry has count 0. This type realizes only the causal-ordering
/// half of the clock abstraction; it carries no proof part, so it is a
/// reference realization, unsuitable for adversarial settings.
#[derive(Debug)]
pub struct OrdinaryClock {
    entries: Vec<(NodeId, u32)>,
}

/// The count that a sequence of per-node entries gives to `id`: the first
/// entry for `id` decides; a node without an entry counts 0.
pub open spec fn seq_count(s: Seq<(NodeId, u32)>, id: NodeId) -> u32
    decreases s.len(),
{
    if s.len() == 0 {
        0u32
    } else if s[0].0 == id {
        s[0].1
    } else {
        seq_count(s.skip(1), id)
    }
}

/// The larger of two counts.
pub open spec fn count_max(a: u32, b: u32) -> u32 {
    if a >= b {
        a
    } else {
        b
    }
}

/// The largest count that any clock among `deps` gives to `id`; 0 when
/// `deps` is empty.
pub open spec fn max_count(deps: Seq<&OrdinaryClock>, id: NodeId) -> u32
    decreases deps.len(),
{
    if deps.len() == 0 {
        0u32
    } else {
        count_max(max_count(deps.drop_last(), id), deps.last().spec_count(id))
    }
}

/// When the first `j` entries of `s` hold no entry for `id`, the count of
/// `id` is decided by the rest alone.
proof fn lemma_seq_count_no_hit(s: Seq<(NodeId, u32)>, id: NodeId, j: int)
    requires
        0 <= j <= s.len(),
        forall|k: int| 0 <= k < j ==> s[k].0 != id,
    ensures
        seq_count(s, id) == seq_count(s.skip(j), id),
    decreases j,
{
    if j > 0 {
        assert(s[0].0 != id);
        assert(forall|k: int| 0 <= k < j - 1 ==> s.skip(1)[k].0 != id);
        lemma_seq_count_no_hit(s.skip(1), id, j - 1);
        assert(s.skip(1).skip(j - 1) =~= s.skip(j));
    } else {
        assert(s.skip(0) =~= s);
    }
}

/// Replacing the first entry for `id` changes the count of `id` to the new
/// value and leaves every other node's count alone.
proof fn lemma_seq_count_update(s: Seq<(NodeId, u32)>, j: int, id: NodeId, c: u32)
    requires
        0 <= j < s.len(),
        s[j].0 == id,
        forall|k: int| 0 <= k < j ==> s[k].0 != id,
    ensures
        seq_count(s.update(j, (id, c)), id) == c,
        forall|nid: NodeId|
            nid != id ==> seq_count(s.update(j, (id, c)), nid) == seq_count(s, nid),
    decreases j,
{
    let s2 = s.update(j, (id, c));
    if j == 0 {
        assert(s2[0] == (id, c));
        assert(s2.skip(1) =~= s.skip(1));
        assert forall|nid: NodeId| nid != id implies seq_count(s2, nid) == seq_count(s, nid) by {
            assert(seq_count(s2, nid) == seq_count(s2.skip(1), nid));
            assert(seq_count(s, nid) == seq_count(s.skip(1), nid));
        }
    } else {
        assert(s2[0] == s[0]);
        assert(s.skip(1).update(j - 1, (id, c)) =~= s2.skip(1));
        assert(forall|k: int| 0 <= k < j - 1 ==> s.skip(1)[k].0 != id);
        lemma_seq_count_update(s.skip(1), j - 1, id, c);
        assert(seq_count(s2, id) == seq_count(s2.skip(1), id));
        assert forall|nid: NodeId| nid != id implies seq_count(s2, nid) == seq_count(s, nid) by {
            if s[0].0 != nid {
                assert(seq_count(s2, nid) == seq_count(s2.skip(1), nid));
                assert(seq_count(s2.skip(1), nid) == seq_count(s.skip(1), nid));
                assert(seq_count(s, nid) == seq_count(s.skip(1), nid));
            }
        }
    }
}

/// Appending an entry leaves every other node's count alone, and decides the
/// count of its own node when no earlier entry did.
proof fn lemma_seq_count_push(s: Seq<(NodeId, u32)>, id: NodeId, c: u32)
    ensures
        (forall|k: int| 0 <= k < s.len() ==> s[k].0 != id) ==> seq_count(
            s.push((id, c)),
            id,
        ) == c,
        forall|nid: NodeId| nid != id ==> seq_count(s.push((id, c)), nid) == seq_count(s, nid),
    decreases s.len(),
{
    let s2 = s.push((id, c));
    if s.len() == 0 {
        assert(s2[0] == (id, c));
        assert(s2.skip(1) =~= Seq::<(NodeId, u32)>::empty());
        assert forall|nid: NodeId| nid != id implies seq_count(s2, nid) == seq_count(s, nid) by {
            assert(seq_count(s2, nid) == seq_count(s2.skip(1), nid));
        }
    } else {
        assert(s2[0] == s[0]);
        assert(s2.skip(1) =~= s.skip(1).push((id, c)));
        lemma_seq_count_push(s.skip(1), id, c);
        assert forall|nid: NodeId| nid != id implies seq_count(s2, nid) == seq_count(s, nid) by {
            if s[0].0 != nid {
                assert(seq_count(s2, nid) == seq_count(s2.skip(1), nid));
                assert(seq_count(s, nid) == seq_count(s.skip(1), nid));
            }
        }
        if forall|k: int| 0 <= k < s.len() ==> s[k].0 != id {
            assert(s[0].0 != id);
            assert(forall|k: int| 0 <= k < s.skip(1).len() ==> s.skip(1)[k].0 != id);
            assert(seq_count(s2, id) == seq_count(s2.skip(1), id));
        }
    }
}

/// The largest count over a set of clocks is at least each clock's own count.
proof fn lemma_max_count_ge(deps: Seq<&OrdinaryClock>, i: int, id: NodeId)
    requires
        0 <= i < deps.len(),
    ensures
        max_count(deps, id) >= deps[i].spec_count(id),
    decreases deps.len(),
{
    if i < deps.len() - 1 {
        lemma_max_count_ge(deps.drop_last(), i, id);
    }
}

impl OrdinaryClock {
    /// How many computations node `id` is known to have causally contributed.
    pub closed spec fn spec_count(self, id: NodeId) -> u32 {
        seq_count(self.entries@, id)
    }

    /// Causal "greater-or-equal": every node's count here is at least its
    /// count in `other`.
    pub open spec fn spec_dominates(self, other: Self) -> bool {
        forall|id: NodeId| self.spec_count(id) >= other.spec_count(id)
    }

    /// All counts are zero: no computation has causally contributed yet.
    pub open spec fn spec_is_genesis(self) -> bool {
        forall|id: NodeId| self.spec_count(id) == 0
    }

    /// The empty clock, starting point of every causal history.
    pub fn new_genesis() -> (r: Self)
        ensures
            r.spec_is_genesis(),
    {
        let r = OrdinaryClock { entries: Vec::new() };
        proof {
            assert forall|id: NodeId| r.spec_count(id) == 0 by {
                assert(r.entries@.len() == 0);
            }
        }
        r
    }

    /// Builds a clock from raw per-node entries, as read off a wire
    /// representation. When a node appears more than once, its first entry
    /// decides the count.
    pub fn from_entries(entries: Vec<(NodeId, u32)>) -> (r: Self)
        ensures
            forall|id: NodeId| r.spec_count(id) == seq_count(entries@, id),
    {
        OrdinaryClock { entries }
    }

    /// The per-node entries, for writing the clock out; `seq_count` over the
    /// returned entries agrees with this clock's counts.
    pub fn entries(&self) -> (r: &Vec<(NodeId, u32)>)
        ensures
            forall|id: NodeId| seq_count(r@, id) == self.spec_count(id),
    {
        &self.entries
    }

    /// Looks one node's count up.
    pub fn count_of(&self, id: NodeId) -> (r: u32)
        ensures
            r == self.spec_count(id),
    {
        let mut j: usize = 0;
        while j < self.entries.len()
            invariant
                j <= self.entries.len(),
                forall|k: int| 0 <= k < j ==> self.entries@[k].0 != id,
            decreases self.entries.len() - j,
        {
            if self.entries[j].0 == id {
                proof {
                    lemma_seq_count_no_hit(self.entries@, id, j as int);
                    assert(self.entries@.skip(j as int)[0] == self.entries@[j as int]);
                }
                return self.entries[j].1;
            }
            j += 1;
        }
        proof {
            lemma_seq_count_no_hit(self.entries@, id, self.entries@.len() as int);
        }
        0
    }

    /// Whether every node's count here is at least its count in `other`.
    pub fn dominates(&self, other: &Self) -> (r: bool)
        ensures
            r == self.spec_dominates(*other),
    {
        let mut j: usize = 0;
        while j < other.entries.len()
            invariant
                j <= other.entries.len(),
                forall|k: int| 0 <= k < j ==> self.spec_count(#[trigger] other.entries@[k].0)
                    >= other.spec_count(other.entries@[k].0),
            decreases other.entries.len() - j,
        {
            let id = other.entries[j].0;
            if self.count_of(id) < other.count_of(id) {
                assert(!self.spec_dominates(*other)) by {
                    assert(self.spec_count(id) < other.spec_count(id));
                }
                return false;
            }
            j += 1;
        }
        proof {
            assert forall|id: NodeId| self.spec_count(id) >= other.spec_count(id) by {
                if exists|k: int| 0 <= k < other.entries@.len() && other.entries@[k].0 == id {
                    let k = choose|k: int|
                        0 <= k < other.entries@.len() && other.entries@[k].0 == id;
                    assert(self.spec_count(other.entries@[k].0) >= other.spec_count(
                        other.entries@[k].0,
                    ));
                } else {
                    lemma_seq_count_no_hit(other.entries@, id, other.entries@.len() as int);
                }
            }
        }
        true
    }

    /// Whether this clock is genesis: every node's count is zero.
    pub fn is_genesis(&self) -> (r: bool)
        ensures
            r == self.spec_is_genesis(),
    {
        let mut j: usize = 0;
        while j < self.entries.len()
            invariant
                j <= self.entries.len(),
                forall|k: int| 0 <= k < j ==> self.spec_count(#[trigger] self.entries@[k].0) == 0,
            decreases self.entries.len() - j,
        {
            let id = self.entries[j].0;
            if self.count_of(id) != 0 {
                assert(!self.spec_is_genesis());
                return false;
            }
            j += 1;
        }
        proof {
            assert forall|id: NodeId| self.spec_count(id) == 0 by {
                if exists|k: int| 0 <= k < self.entries@.len() && self.entries@[k].0 == id {
                    let k = choose|k: int|
                        0 <= k < self.entries@.len() && self.entries@[k].0 == id;
                    assert(self.spec_count(self.entries@[k].0) == 0);
                } else {
                    lemma_seq_count_no_hit(self.entries@, id, self.entries@.len() as int);
                }
            }
        }
        true
    }

    /// Raises node `id`'s count to at least `c`, leaving every other node's
    /// count alone.
    #[verifier::loop_isolation(false)]
    fn raise(&mut self, id: NodeId, c: u32)
        ensures
            forall|nid: NodeId|
                final(self).spec_count(nid) == if nid == id {
                    count_max(old(self).spec_count(nid), c)
                } else {
                    old(self).spec_count(nid)
                },
    {
        let ghost orig = self.entries@;
        let mut j: usize = 0;
        while j < self.entries.len()
            invariant
                j <= self.entries.len(),
                self.entries@ == orig,
                forall|k: int| 0 <= k < j ==> self.entries@[k].0 != id,
            decreases self.entries.len() - j,
        {
            if self.entries[j].0 == id {
                proof {
                    lemma_seq_count_no_hit(orig, id, j as int);
                    assert(orig.skip(j as int)[0] == orig[j as int]);
                    assert(seq_count(orig, id) == orig[j as int].1);
                }
                if self.entries[j].1 < c {
                    self.entries[j] = (id, c);
                    proof {
                        lemma_seq_count_update(orig, j as int, id, c);
                        assert(self.entries@ =~= orig.update(j as int, (id, c)));
                        assert(self.spec_count(id) == c);
                        assert forall|nid: NodeId| nid != id implies self.spec_count(nid) == old(
                            self,
                        ).spec_count(nid) by {
                            assert(seq_count(orig.update(j as int, (id, c)), nid) == seq_count(
                                orig,
                                nid,
                            ));
                        }
                    }
                } else {
                    proof {
                        assert(self.spec_count(id) == count_max(old(self).spec_count(id), c));
                    }
                }
                return;
            }
            j += 1;
        }
        proof {
            lemma_seq_count_no_hit(orig, id, orig.len() as int);
        }
        self.entries.push((id, c));
        proof {
            lemma_seq_count_push(orig, id, c);
        }
    }

    /// Folds `other`'s counts in: every node's count becomes the larger of
    /// the two clocks' counts.
    fn merge_from(&mut self, other: &Self)
        ensures
            forall|nid: NodeId|
                final(self).spec_count(nid) == count_max(
                    old(self).spec_count(nid),
                    other.spec_count(nid),
                ),
    {
        let ghost base = *old(self);
        let mut j: usize = 0;
        while j < other.entries.len()
            invariant
                j <= other.entries.len(),
                forall|nid: NodeId|
                    self.spec_count(nid) == if covered(other.entries@, j as int, nid) {
                        count_max(base.spec_count(nid), other.spec_count(nid))
                    } else {
                        base.spec_count(nid)
                    },
            decreases other.entries.len() - j,
        {
            let id = other.entries[j].0;
            let c = other.count_of(id);
            self.raise(id, c);
            proof {
                assert forall|nid: NodeId|
                    self.spec_count(nid) == if covered(other.entries@, j + 1, nid) {
                        count_max(base.spec_count(nid), other.spec_count(nid))
                    } else {
                        base.spec_count(nid)
                    } by {
                    if nid == id {
                        assert(covered(other.entries@, j + 1, nid)) by {
                            assert(other.entries@[j as int].0 == nid);
                        }
                    } else {
                        assert(covered(other.entries@, j + 1, nid) == covered(
                            other.entries@,
                            j as int,
                            nid,
                        )) by {
                            if covered(other.entries@, j + 1, nid) {
                                let k = choose|k: int|
                                    0 <= k < j + 1 && other.entries@[k].0 == nid;
                                assert(k < j);
                            }
                        }
                    }
                }
            }
            j += 1;
        }
        proof {
            assert forall|nid: NodeId|
                self.spec_count(nid) == count_max(
                    base.spec_count(nid),
                    other.spec_count(nid),
                ) by {
                if !covered(other.entries@, other.entries@.len() as int, nid) {
                    lemma_seq_count_no_hit(other.entries@, nid, other.entries@.len() as int);
                    assert(other.spec_count(nid) == 0);
                }
            }
        }
    }

    /// The vector-clock merge-and-advance: every node's count becomes the
    /// largest count over `deps`, and the producing node `id` gets one more
    /// on top, standing for one more unit of work by that node, so the
    /// result compares strictly causally after every clock in `deps`.
    pub fn new(deps: &[&OrdinaryClock], id: NodeId) -> (r: Self)
        requires
            max_count(deps@, id) < u32::MAX,
        ensures
            forall|nid: NodeId| nid != id ==> r.spec_count(nid) == max_count(deps@, nid),
            r.spec_count(id) == max_count(deps@, id) + 1,
            forall|i: int|
                0 <= i < deps@.len() ==> r.partial_cmp_spec(deps@[i]) == Some(Ordering::Greater),
    {
        let mut acc = OrdinaryClock { entries: Vec::new() };
        proof {
            assert forall|nid: NodeId| acc.spec_count(nid) == max_count(deps@.take(0), nid) by {
                assert(acc.entries@.len() == 0);
                assert(deps@.take(0).len() == 0);
            }
        }
        let mut i: usize = 0;
        while i < deps.len()
            invariant
                i <= deps.len(),
                forall|nid: NodeId| acc.spec_count(nid) == max_count(deps@.take(i as int), nid),
            decreases deps.len() - i,
        {
            let dep: &OrdinaryClock = deps[i];
            acc.merge_from(dep);
            proof {
                assert(deps@.take(i + 1).drop_last() =~= deps@.take(i as int));
                assert(deps@.take(i + 1).last() == deps@[i as int]);
            }
            i += 1;
        }
        proof {
            assert(deps@.take(deps@.len() as int) =~= deps@);
        }
        let below = acc.count_of(id);
        acc.raise(id, below + 1);
        proof {
            assert forall|i: int|
                0 <= i < deps@.len() implies acc.partial_cmp_spec(deps@[i]) == Some(
                Ordering::Greater,
            ) by {
                assert forall|nid: NodeId|
                    acc.spec_count(nid) >= deps@[i].spec_count(nid) by {
                    lemma_max_count_ge(deps@, i, nid);
                }
                lemma_max_count_ge(deps@, i, id);
                assert(deps@[i].spec_count(id) < acc.spec_count(id));
                assert(!deps@[i].spec_dominates(acc));
            }
        }
        acc
    }
}

/// Whether one of the first `j` entries of `s` is an entry for `nid`.
spec fn covered(s: Seq<(NodeId, u32)>, j: int, nid: NodeId) -> bool {
    exists|k: int| 0 <= k < j && s[k].0 == nid
}

impl Clone for OrdinaryClock {
    /// The clone carries the same counts.
    fn clone(&self) -> (r: Self)
        ensures
            forall|id: NodeId| r.spec_count(id) == self.spec_count(id),
    {
        let mut entries: Vec<(NodeId, u32)> = Vec::new();
        let mut j: usize = 0;
        while j < self.entries.len()
            invariant
                j <= self.entries.len(),
                entries@ == self.entries@.take(j as int),
            decreases self.entries.len() - j,
        {
            entries.push(self.entries[j]);
            proof {
                assert(entries@ =~= self.entries@.take(j + 1));
            }
            j += 1;
        }
        proof {
            assert(entries@ =~= self.entries@);
        }
        OrdinaryClock { entries }
    }
}

impl PartialEq for OrdinaryClock {
    /// Two clocks are equal when each dominates the other, that is, when
    /// they carry the same counts; the stored entry order does not matter.
    fn eq(&self, other: &Self) -> (r: bool) {
        self.dominates(other) && other.dominates(self)
    }
}

impl vstd::std_specs::cmp::PartialEqSpecImpl for OrdinaryClock {
    open spec fn obeys_eq_spec() -> bool {
        true
    }

    open spec fn eq_spec(&self, other: &Self) -> bool {
        self.spec_dominates(*other) && other.spec_dominates(*self)
    }
}

impl PartialOrd for OrdinaryClock {
    /// Derives the four outcomes from the two-directional domination test;
    /// `None` means the clocks are causally incomparable.
    fn partial_cmp(&self, other: &Self) -> (r: Option<Ordering>) {
        match (self.dominates(other), other.dominates(self)) {
            (true, true) => Some(Ordering::Equal),
            (true, false) => Some(Ordering::Greater),
            (false, true) => Some(Ordering::Less),
            (false, false) => None,
        }
    }

    fn ge(&self, other: &Self) -> (r: bool) {
        self.dominates(other)
    }
}

impl vstd::std_specs::cmp::PartialOrdSpecImpl for OrdinaryClock {
    open spec fn obeys_partial_cmp_spec() -> bool {
        true
    }

    open spec fn partial_cmp_spec(&self, other: &Self) -> Option<Ordering> {
        if self.spec_dominates(*other) && other.spec_dominates(*self) {
            Some(Ordering::Equal)
        } else if self.spec_dominates(*other) {
            Some(Ordering::Greater)
        } else if other.spec_dominates(*self) {
            Some(Ordering::Less)
        } else {
            None
        }
    }
}

/// Comparing clock A to clock B gives exactly the inverse of comparing B to
/// A: the causal order is antisymmetric.
pub proof fn lemma_partial_cmp_antisymmetric(a: OrdinaryClock, b: OrdinaryClock)
    ensures
        a.partial_cmp_spec(&b) == (match b.partial_cmp_spec(&a) {
            Some(Ordering::Less) => Some(Ordering::Greater),
            Some(Ordering::Equal) => Some(Ordering::Equal),
            Some(Ordering::Greater) => Some(Ordering::Less),
            None => None::<Ordering>,
        }),
{
}

/// Every clock compares equal to itself.
pub proof fn lemma_partial_cmp_reflexive(a: OrdinaryClock)
    ensures
        a.partial_cmp_spec(&a) == Some(Ordering::Equal),
        a.eq_spec(&a),
{
}

/// A genesis clock compares causally before every non-genesis clock, and
/// equal to every genesis clock.
pub proof fn lemma_genesis_precedes(g: OrdinaryClock, c: OrdinaryClock)
    requires
        g.spec_is_genesis(),
    ensures
        !c.spec_is_genesis() ==> g.partial_cmp_spec(&c) == Some(Ordering::Less),
        c.spec_is_genesis() ==> g.partial_cmp_spec(&c) == Some(Ordering::Equal),
{
    assert(c.spec_dominates(g));
    if !c.spec_is_genesis() {
        let id = choose|id: NodeId| c.spec_count(id) != 0;
        assert(g.spec_count(id) < c.spec_count(id));
        assert(!g.spec_dominates(c));
    }
}

} // verus!
