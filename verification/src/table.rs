//! The ports of the proxy by identifier.
use vstd::prelude::*;
use crate::port::{Port, PortId, PortView};

verus! {

/// The position of the entry for `id`, or the number of entries.
pub open spec fn position(entries: Seq<(PortId, Port)>, id: PortId) -> int
    decreases entries.len(),
{
    if entries.len() == 0 {
        0
    } else if entries[0].0 == id {
        0
    } else {
        1 + position(entries.skip(1), id)
    }
}

/// Ports by identifier, kept in ascending order of the identifiers.
pub struct PortTable {
    entries: Vec<(PortId, Port)>,
}

impl View for PortTable {
    type V = Map<PortId, PortView>;

    closed spec fn view(&self) -> Map<PortId, PortView> {
        Map::new(
            |id: PortId| position(self.entries@, id) < self.entries@.len(),
            |id: PortId| self.entries@[position(self.entries@, id)].1@,
        )
    }
}

proof fn lemma_position(entries: Seq<(PortId, Port)>, id: PortId)
    ensures
        0 <= position(entries, id) <= entries.len(),
        position(entries, id) < entries.len() ==> entries[position(entries, id)].0 == id,
        forall|i: int| 0 <= i < position(entries, id) ==> entries[i].0 != id,
    decreases entries.len(),
{
    if entries.len() > 0 && entries[0].0 != id {
        lemma_position(entries.skip(1), id);
        assert forall|i: int| 0 <= i < position(entries, id) implies entries[i].0 != id by {
            if i > 0 {
                assert(entries[i] == entries.skip(1)[i - 1]);
            }
        }
    }
}

proof fn lemma_position_at(entries: Seq<(PortId, Port)>, i: int)
    requires
        0 <= i < entries.len(),
        ascending(entries),
    ensures
        position(entries, entries[i].0) == i,
{
    lemma_position(entries, entries[i].0);
}

/// The identifiers rise from entry to entry.
pub open spec fn ascending(entries: Seq<(PortId, Port)>) -> bool {
    forall|i: int, j: int| 0 <= i < j < entries.len() ==> entries[i].0 < entries[j].0
}

/// The identifiers in `ids` rise from one to the next.
pub open spec fn rising(ids: Seq<PortId>) -> bool {
    forall|i: int, j: int| 0 <= i < j < ids.len() ==> ids[i] < ids[j]
}

impl PortTable {
    /// The entries are in order and no identifier occurs twice.
    pub closed spec fn wf(&self) -> bool {
        ascending(self.entries@)
    }

    /// A table without ports.
    pub fn new() -> (t: PortTable)
        ensures
            t.wf(),
            t@ == Map::<PortId, PortView>::empty(),
    {
        let t = PortTable { entries: Vec::new() };
        assert(t@ =~= Map::<PortId, PortView>::empty());
        t
    }

    fn find(&self, id: PortId) -> (k: usize)
        ensures
            k == position(self.entries@, id),
    {
        let mut k: usize = 0;
        proof {
            assert(self.entries@.skip(0) =~= self.entries@);
        }
        while k < self.entries.len()
            invariant
                k <= self.entries@.len(),
                position(self.entries@, id) == k + position(self.entries@.skip(k as int), id),
            decreases self.entries@.len() - k,
        {
            proof {
                assert(self.entries@.skip(k as int).skip(1) =~= self.entries@.skip(k + 1));
                assert(self.entries@.skip(k as int)[0] == self.entries@[k as int]);
            }
            if self.entries[k].0 == id {
                return k;
            }
            k = k + 1;
        }
        k
    }

    /// Whether there is a port `id`.
    pub fn contains(&self, id: PortId) -> (r: bool)
        ensures
            r == self@.dom().contains(id),
    {
        self.find(id) < self.entries.len()
    }

    /// The port `id`.
    pub fn get(&self, id: PortId) -> (r: Option<&Port>)
        ensures
            match r {
                Some(p) => self@.dom().contains(id) && self@[id] == p@,
                None => !self@.dom().contains(id),
            },
    {
        let k = self.find(id);
        if k < self.entries.len() {
            Some(&self.entries[k].1)
        } else {
            None
        }
    }

    /// The port `id`, to be changed in place.
    pub fn get_mut(&mut self, id: PortId) -> (r: Option<&mut Port>)
        requires
            old(self).wf(),
        ensures
            final(self).wf(),
            match r {
                Some(p) => old(self)@.dom().contains(id) && p@ == old(self)@[id]
                    && final(self)@ == old(self)@.insert(id, final(p)@),
                None => !old(self)@.dom().contains(id) && final(self)@ == old(self)@,
            },
    {
        let k = self.find(id);
        proof {
            lemma_position(self.entries@, id);
        }
        if k < self.entries.len() {
            let ghost before = self.entries@;
            let r = &mut self.entries[k].1;
            proof {
                let after = before.update(k as int, (before[k as int].0, *final(r)));
                assert(ascending(after)) by {
                    assert forall|i: int, j: int| 0 <= i < j < after.len() implies after[i].0
                        < after[j].0 by {
                        assert(before[i].0 < before[j].0);
                    }
                }
                assert forall|other: PortId| #[trigger] position(after, other) == position(before, other) by {
                    lemma_position(before, other);
                    lemma_position(after, other);
                    let p = position(before, other);
                    let q = position(after, other);
                    if p < q {
                        assert(after[p].0 == other);
                    } else if q < p {
                        assert(before[q].0 == other);
                    }
                }
                lemma_position_at(before, k as int);
                assert forall|other: PortId| other != id && position(before, other) < before.len() implies #[trigger] after[position(before, other)] == before[position(before, other)] by {
                    lemma_position(before, other);
                }
            }
            Some(r)
        } else {
            None
        }
    }

    /// Adds the port `id`, whose identifier is above all others.
    pub fn insert_last(&mut self, id: PortId, port: Port)
        requires
            old(self).wf(),
            forall|other: PortId| old(self)@.dom().contains(other) ==> other < id,
        ensures
            final(self).wf(),
            final(self)@ == old(self)@.insert(id, port@),
    {
        let ghost before = self.entries@;
        self.entries.push((id, port));
        proof {
            let after = self.entries@;
            assert forall|i: int| 0 <= i < before.len() implies before[i].0 < id by {
                lemma_position_at(before, i);
                assert(old(self)@.dom().contains(before[i].0));
            }
            assert(ascending(after));
            lemma_position_at(after, before.len() as int);
            assert forall|other: PortId|
                #[trigger] self@.dom().contains(other) == old(self)@.insert(id, port@).dom().contains(
                    other,
                ) by {
                lemma_position(after, other);
                lemma_position(before, other);
                if other != id && position(after, other) < after.len() {
                    assert(before[position(after, other)].0 == other);
                }
                if position(before, other) < before.len() {
                    lemma_position_at(after, position(before, other));
                }
            }
            assert forall|other: PortId| #[trigger] self@.dom().contains(other) implies self@[other]
                == old(self)@.insert(id, port@)[other] by {
                lemma_position(after, other);
                lemma_position(before, other);
                if other != id {
                    assert(before[position(after, other)].0 == other);
                    lemma_position_at(before, position(after, other));
                }
            }
            assert(self@ =~= old(self)@.insert(id, port@));
        }
    }

    /// Takes the port `id` out of the table.
    pub fn remove(&mut self, id: PortId) -> (r: Option<Port>)
        requires
            old(self).wf(),
        ensures
            final(self).wf(),
            final(self)@ == old(self)@.remove(id),
            match r {
                Some(p) => old(self)@.dom().contains(id) && p@ == old(self)@[id],
                None => !old(self)@.dom().contains(id),
            },
    {
        let k = self.find(id);
        let ghost before = self.entries@;
        proof {
            lemma_position(before, id);
        }
        if k < self.entries.len() {
            let e = self.entries.remove(k);
            proof {
                let after = self.entries@;
                assert(after =~= before.remove(k as int));
                assert(ascending(after)) by {
                    assert forall|i: int, j: int| 0 <= i < j < after.len() implies after[i].0
                        < after[j].0 by {
                        let bi = if i < k { i } else { i + 1 };
                        let bj = if j < k { j } else { j + 1 };
                        assert(after[i] == before[bi] && after[j] == before[bj]);
                        assert(before[bi].0 < before[bj].0);
                    }
                }
                assert forall|other: PortId| self@.dom().contains(other) == old(self)@.remove(id).dom().contains(other) by {
                    lemma_position(before, other);
                    lemma_position(after, other);
                    let p = position(before, other);
                    let q = position(after, other);
                    if q < after.len() {
                        let b = if q < k { q } else { q + 1 };
                        assert(after[q] == before[b]);
                        lemma_position_at(before, b);
                        lemma_position_at(before, k as int);
                    }
                    if p < before.len() && other != id {
                        let a = if p < k { p } else { p - 1 };
                        assert(after[a] == before[p]);
                    }
                }
                assert forall|other: PortId| #[trigger] self@.dom().contains(other) implies self@[other] == old(self)@[other] by {
                    lemma_position(after, other);
                    let q = position(after, other);
                    let b = if q < k { q } else { q + 1 };
                    assert(after[q] == before[b]);
                    lemma_position_at(before, b);
                }
                assert(self@ =~= old(self)@.remove(id));
            }
            Some(e.1)
        } else {
            assert(self@ =~= old(self)@.remove(id));
            None
        }
    }

    /// The identifiers of all ports, in ascending order.
    pub fn ids(&self) -> (r: Vec<PortId>)
        requires
            self.wf(),
        ensures
            rising(r@),
            forall|id: PortId| r@.contains(id) <==> self@.dom().contains(id),
    {
        let mut r: Vec<PortId> = Vec::new();
        let mut k: usize = 0;
        while k < self.entries.len()
            invariant
                ascending(self.entries@),
                k <= self.entries@.len(),
                r@.len() == k,
                forall|i: int| 0 <= i < k ==> r@[i] == self.entries@[i].0,
            decreases self.entries@.len() - k,
        {
            r.push(self.entries[k].0);
            k = k + 1;
        }
        proof {
            assert forall|id: PortId| r@.contains(id) <==> self@.dom().contains(id) by {
                lemma_position(self.entries@, id);
                if self@.dom().contains(id) {
                    assert(r@[position(self.entries@, id)] == id);
                }
                if r@.contains(id) {
                    let i = choose|i: int| 0 <= i < r@.len() && r@[i] == id;
                    lemma_position_at(self.entries@, i);
                }
            }
        }
        r
    }
}

} // verus!
