//! Tables that take the references of a fragment to those of the document.
use vstd::prelude::*;
use std::collections::HashMap;
use crate::reference::MAX_REF;

verus! {

/// What went wrong while references were looked up.
pub enum RemapFault {
    /// The reference has no entry and the table hands out no new ones.
    Unknown(i32),
    /// The reference has no entry and no new reference is left.
    Exhausted,
}

/// Whether the number `v` was handed out to a reference that had no entry in
/// `before` and has one in `after`.
pub open spec fn taken_by(before: Map<i32, i32>, after: Map<i32, i32>, v: int) -> bool {
    exists|k: i32| !before.contains_key(k) && #[trigger] after.contains_key(k) && after[k] == v
}

/// The mathematical content of a [`RefTable`].
pub struct TableView {
    /// The entries: old number to new number.
    pub map: Map<i32, i32>,
    /// The number that the next new entry gets, where the table hands out new ones.
    pub fresh: Option<int>,
    /// The first fault met, if any.
    pub fault: Option<RemapFault>,
}

impl TableView {
    /// The state after `id` has been looked up, and the answer given.
    pub open spec fn step(self, id: i32) -> (TableView, i32) {
        if self.map.contains_key(id) {
            (self, self.map[id])
        } else {
            match self.fresh {
                Some(n) if n < MAX_REF => (
                    TableView { map: self.map.insert(id, n as i32), fresh: Some(n + 1), ..self },
                    n as i32,
                ),
                Some(_) => (
                    TableView { fault: Some(self.fault.unwrap_or(RemapFault::Exhausted)), ..self },
                    1i32,
                ),
                None => (
                    TableView { fault: Some(self.fault.unwrap_or(RemapFault::Unknown(id))), ..self },
                    1i32,
                ),
            }
        }
    }

    /// The state after every reference of `asks` has been looked up in turn.
    pub open spec fn run(self, asks: Seq<i32>) -> TableView
        decreases asks.len(),
    {
        if asks.len() == 0 {
            self
        } else {
            self.run(asks.drop_last()).step(asks.last()).0
        }
    }

    /// Looking references up keeps a table well formed, and a table that
    /// hands out new references goes on doing so.
    pub proof fn lemma_run_keeps_wf(self, asks: Seq<i32>)
        requires
            self.wf(),
        ensures
            self.run(asks).wf(),
            self.fresh is Some <==> self.run(asks).fresh is Some,
        decreases asks.len(),
    {
        if asks.len() > 0 {
            self.lemma_run_keeps_wf(asks.drop_last());
        }
    }

    /// A table that hands out no new references keeps its entries, and the
    /// only fault it can record is an unknown reference.
    pub proof fn lemma_run_fixed(self, asks: Seq<i32>)
        requires
            self.fresh is None,
            self.fault is None,
        ensures
            self.run(asks).map == self.map,
            self.run(asks).fresh is None,
            self.run(asks).fault matches Some(f) ==> f is Unknown,
            self.run(asks).fault is None <==> forall|i: int|
                0 <= i < asks.len() ==> self.map.contains_key(#[trigger] asks[i]),
        decreases asks.len(),
    {
        if asks.len() > 0 {
            self.lemma_run_fixed(asks.drop_last());
            let before = self.run(asks.drop_last());
            if before.fault is None {
                if self.map.contains_key(asks.last()) {
                    assert forall|i: int| 0 <= i < asks.len() implies self.map.contains_key(
                        #[trigger] asks[i],
                    ) by {
                        if i < asks.len() - 1 {
                            assert(asks.drop_last()[i] == asks[i]);
                        }
                    }
                } else {
                    assert(!self.map.contains_key(asks[asks.len() - 1]));
                }
            } else {
                let i = choose|i: int|
                    0 <= i < asks.drop_last().len() && !self.map.contains_key(
                        #[trigger] asks.drop_last()[i],
                    );
                assert(!self.map.contains_key(asks[i]));
            }
        }
    }

    /// What looking up the references `asks` has done to a table that hands
    /// out new references, where `self` is the table before and `after` the
    /// table behind: the entries there were stand as they stood; every
    /// reference asked for has an entry; and the new entries take the
    /// references asked for, one for one, onto the numbers handed out.
    pub open spec fn imports(self, after: TableView, asks: Seq<i32>) -> bool {
        let first = self.fresh->0;
        let next = after.fresh->0;
        &&& first <= next
        &&& forall|k: i32| #[trigger]
            after.map.contains_key(k) ==> self.map.contains_key(k) || asks.contains(k)
        &&& forall|k: i32| #[trigger] asks.contains(k) ==> after.map.contains_key(k)
        &&& forall|k: i32| #[trigger]
            self.map.contains_key(k) ==> after.map.contains_key(k) && after.map[k] == self.map[k]
        &&& forall|k: i32|
            !self.map.contains_key(k) && #[trigger] after.map.contains_key(k) ==> first
                <= after.map[k] < next
        &&& forall|j: i32, k: i32|
            !self.map.contains_key(j) && !self.map.contains_key(k) && #[trigger] after.map.contains_key(
                j,
            ) && #[trigger] after.map.contains_key(k) && j != k ==> after.map[j] != after.map[k]
        &&& forall|v: int| first <= v < next ==> #[trigger] taken_by(self.map, after.map, v)
    }

    /// Bringing a fragment to the references of a host takes exactly as
    /// many new references as the fragment mentions references that are not
    /// pinned, one for each, and leaves the pinned ones as they were pinned.
    pub proof fn lemma_run_imports(self, asks: Seq<i32>)
        requires
            self.wf(),
            self.fresh is Some,
            self.fault is None,
            self.run(asks).fault is None,
        ensures
            self.run(asks).fresh is Some,
            self.imports(self.run(asks), asks),
        decreases asks.len(),
    {
        let first = self.fresh->0;
        if asks.len() == 0 {
            assert(forall|k: i32| !asks.contains(k));
        } else {
            let front = asks.drop_last();
            let id = asks.last();
            let middle = self.run(front);
            let after = self.run(asks);
            self.lemma_run_fresh_grows(front);
            self.lemma_run_keeps_wf(front);
            assert(middle.fault is None);
            self.lemma_run_imports(front);
            let next = middle.fresh->0;
            assert(asks[asks.len() - 1] == id);
            assert forall|k: i32| #[trigger] after.map.contains_key(k) implies self.map.contains_key(
                k,
            ) || asks.contains(k) by {
                if k != id {
                    assert(middle.map.contains_key(k));
                    if front.contains(k) {
                        let i = choose|i: int| 0 <= i < front.len() && front[i] == k;
                        assert(asks[i] == k);
                    }
                }
            }
            assert forall|k: i32| #[trigger] asks.contains(k) implies after.map.contains_key(k) by {
                let i = choose|i: int| 0 <= i < asks.len() && asks[i] == k;
                if i < front.len() {
                    assert(front[i] == k);
                    assert(front.contains(k));
                    assert(middle.map.contains_key(k));
                }
            }
            assert forall|k: i32| #[trigger] self.map.contains_key(k) implies after.map.contains_key(
                k,
            ) && after.map[k] == self.map[k] by {
                assert(middle.map.contains_key(k));
            }
            if !middle.map.contains_key(id) {
                assert(after.map == middle.map.insert(id, next as i32));
                assert(after.fresh == Some(next + 1));
                assert forall|v: int| first <= v < next + 1 implies #[trigger] taken_by(
                    self.map,
                    after.map,
                    v,
                ) by {
                    if v < next {
                        assert(taken_by(self.map, middle.map, v));
                        let k = choose|k: i32|
                            !self.map.contains_key(k) && #[trigger] middle.map.contains_key(k)
                                && middle.map[k] == v;
                        assert(k != id);
                        assert(after.map.contains_key(k) && after.map[k] == v);
                    } else {
                        assert(!self.map.contains_key(id)) by {
                            if self.map.contains_key(id) {
                                assert(middle.map.contains_key(id));
                            }
                        }
                        assert(next < MAX_REF);
                        assert(after.map.contains_key(id) && after.map[id] == v);
                    }
                }
                assert forall|j: i32, k: i32|
                    !self.map.contains_key(j) && !self.map.contains_key(k)
                        && #[trigger] after.map.contains_key(j) && #[trigger] after.map.contains_key(
                        k,
                    ) && j != k implies after.map[j] != after.map[k] by {
                    if j != id {
                        assert(middle.map.contains_key(j));
                    }
                    if k != id {
                        assert(middle.map.contains_key(k));
                    }
                }
                assert forall|k: i32|
                    !self.map.contains_key(k) && #[trigger] after.map.contains_key(k) implies first
                    <= after.map[k] < next + 1 by {
                    if k != id {
                        assert(middle.map.contains_key(k));
                    }
                }
            } else {
                assert(after == middle);
            }
        }
    }

    /// The number for the next new entry never goes back.
    pub proof fn lemma_run_fresh_grows(self, asks: Seq<i32>)
        requires
            self.fresh is Some,
        ensures
            self.run(asks).fresh is Some,
            self.run(asks).fresh->0 >= self.fresh->0,
        decreases asks.len(),
    {
        if asks.len() > 0 {
            self.lemma_run_fresh_grows(asks.drop_last());
        }
    }

    /// Every new number is a valid reference, and so is the next one to hand out.
    pub open spec fn wf(self) -> bool {
        &&& forall|k: i32| self.map.contains_key(k) ==> #[trigger] self.map[k] >= 1
        &&& self.fresh matches Some(n) ==> 1 <= n <= MAX_REF
    }
}

/// A table from old references to new ones. A lookup of a reference without an
/// entry either gives it the next unused number or records a fault.
pub struct RefTable {
    entries: HashMap<i32, i32>,
    fresh: Option<i32>,
    fault: Option<RemapFault>,
}

impl View for RefTable {
    type V = TableView;

    closed spec fn view(&self) -> TableView {
        TableView {
            map: self.entries@,
            fresh: match self.fresh {
                Some(n) => Some(n as int),
                None => None,
            },
            fault: self.fault,
        }
    }
}

impl RefTable {
    /// A table with the given entries that answers only for those.
    pub fn fixed(entries: HashMap<i32, i32>) -> (table: RefTable)
        requires
            forall|k: i32| entries@.contains_key(k) ==> #[trigger] entries@[k] >= 1,
        ensures
            table@ == (TableView { map: entries@, fresh: None, fault: None }),
            table@.wf(),
    {
        RefTable { entries, fresh: None, fault: None }
    }

    /// A table with the given entries that gives every other reference the
    /// next unused number, starting at `next`.
    pub fn growing(entries: HashMap<i32, i32>, next: i32) -> (table: RefTable)
        requires
            forall|k: i32| entries@.contains_key(k) ==> #[trigger] entries@[k] >= 1,
            next >= 1,
        ensures
            table@ == (TableView { map: entries@, fresh: Some(next as int), fault: None }),
            table@.wf(),
    {
        RefTable { entries, fresh: Some(next), fault: None }
    }

    /// Looks `id` up. Without an entry, a growing table makes one; any other
    /// table, and a growing one that has run out of numbers, records the fault
    /// and answers 1.
    pub fn resolve(&mut self, id: i32) -> (new: i32)
        requires
            old(self)@.wf(),
        ensures
            final(self)@ == old(self)@.step(id).0,
            new == old(self)@.step(id).1,
            final(self)@.wf(),
            new >= 1,
    {
        broadcast use vstd::std_specs::hash::group_hash_axioms;
        match self.entries.get(&id) {
            Some(new) => *new,
            None => {
                match self.fresh {
                    Some(n) => {
                        if n < MAX_REF {
                            self.entries.insert(id, n);
                            self.fresh = Some(n + 1);
                            n
                        } else {
                            if self.fault.is_none() {
                                self.fault = Some(RemapFault::Exhausted);
                            }
                            1
                        }
                    },
                    None => {
                        if self.fault.is_none() {
                            self.fault = Some(RemapFault::Unknown(id));
                        }
                        1
                    },
                }
            },
        }
    }

    /// The entry for `id`, if there is one. Nothing is recorded.
    pub fn get(&self, id: i32) -> (new: Option<i32>)
        ensures
            new == if self@.map.contains_key(id) {
                Some(self@.map[id])
            } else {
                None
            },
    {
        broadcast use vstd::std_specs::hash::group_hash_axioms;
        match self.entries.get(&id) {
            Some(new) => Some(*new),
            None => None,
        }
    }

    /// The first fault met so far.
    pub fn fault(&self) -> (fault: Option<RemapFault>)
        ensures
            fault == self@.fault,
    {
        match &self.fault {
            Some(RemapFault::Unknown(id)) => Some(RemapFault::Unknown(*id)),
            Some(RemapFault::Exhausted) => Some(RemapFault::Exhausted),
            None => None,
        }
    }

    /// The number that the next new entry gets, where the table hands out new ones.
    pub fn fresh(&self) -> (fresh: Option<i32>)
        ensures
            fresh matches Some(n) ==> self@.fresh == Some(n as int),
            fresh is None ==> self@.fresh is None,
    {
        self.fresh
    }
}

} // verus!
