//! The per-screen order table: every order a screen has observed and not yet
//! seen resolved, keyed by order id, with the originating screen recorded so
//! commits and aborts can be routed home.
use vstd::prelude::*;

use crate::flavors::FlavorGrams;

verus! {

/// What a screen remembers about one in-flight order.
#[derive(Clone, Copy, Debug, PartialEq, Eq, Structural)]
pub struct OrderRecord {
    pub screen_id: i32,
    pub details: FlavorGrams,
    pub completed: bool,
}

/// The ids of the records owned by `from`, in table order.
pub open spec fn spec_changed_ids(s: Seq<(i32, OrderRecord)>, from: i32) -> Seq<i32>
    decreases s.len(),
{
    if s.len() == 0 {
        Seq::empty()
    } else {
        let rest = spec_changed_ids(s.drop_last(), from);
        if s.last().1.screen_id == from {
            rest.push(s.last().0)
        } else {
            rest
        }
    }
}

/// Maps order ids to their records at one screen.
#[derive(Clone, Debug)]
pub struct OrderTable {
    pub entries: Vec<(i32, OrderRecord)>,
}

impl OrderTable {
    /// No order id appears twice.
    pub open spec fn wf(self) -> bool {
        forall|i: int, j: int|
            0 <= i < j < self.entries@.len() ==> (#[trigger] self.entries@[i]).0
                != (#[trigger] self.entries@[j]).0
    }

    /// Whether the table has an entry for this order.
    pub open spec fn has_order(self, order_id: i32) -> bool {
        exists|i: int| 0 <= i < self.entries@.len() && (#[trigger] self.entries@[i]).0 == order_id
    }

    /// The position of this order's entry.
    pub open spec fn order_index(self, order_id: i32) -> int {
        choose|i: int| 0 <= i < self.entries@.len() && (#[trigger] self.entries@[i]).0 == order_id
    }

    /// The record stored for this order.
    pub open spec fn spec_record_of(self, order_id: i32) -> OrderRecord {
        self.entries@[self.order_index(order_id)].1
    }

    /// An empty table.
    pub fn new() -> (r: OrderTable)
        ensures
            r.entries@ =~= Seq::<(i32, OrderRecord)>::empty(),
            r.wf(),
    {
        OrderTable { entries: Vec::new() }
    }

    /// Finds the position of an order's entry, if it has one.
    fn find_index(&self, order_id: i32) -> (r: Option<usize>)
        ensures
            match r {
                Some(i) => i < self.entries@.len() && self.entries@[i as int].0 == order_id,
                None => !self.has_order(order_id),
            },
    {
        let mut i: usize = 0;
        while i < self.entries.len()
            invariant
                i <= self.entries@.len(),
                forall|j: int| 0 <= j < i ==> (#[trigger] self.entries@[j]).0 != order_id,
            decreases self.entries@.len() - i,
        {
            if self.entries[i].0 == order_id {
                return Some(i);
            }
            i += 1;
        }
        None
    }

    /// Records an order as in flight and not yet completed; a second sighting
    /// of the same id overwrites the first.
    pub fn add_order(&mut self, screen_id: i32, order_id: i32, details: FlavorGrams)
        requires
            old(self).wf(),
        ensures
            final(self).wf(),
            final(self).has_order(order_id),
            final(self).spec_record_of(order_id) == (OrderRecord {
                screen_id,
                details,
                completed: false,
            }),
            forall|q: i32| q != order_id ==> #[trigger] final(self).has_order(q) == old(self).has_order(q),
            forall|q: i32| q != order_id && old(self).has_order(q) ==> #[trigger] final(self).spec_record_of(q) == old(self).spec_record_of(q),
    {
        let record = OrderRecord { screen_id, details, completed: false };
        match self.find_index(order_id) {
            Some(i) => {
                proof {
                    lemma_order_unique_index(*self, order_id, i as int);
                }
                self.entries.remove(i);
                self.entries.insert(i, (order_id, record));
                proof {
                    assert(self.entries@ =~= old(self).entries@.update(
                        i as int,
                        (order_id, record),
                    ));
                    lemma_order_same_keys(*old(self), *self, order_id, i as int);
                }
            },
            None => {
                self.entries.push((order_id, record));
                proof {
                    let n = old(self).entries@.len() as int;
                    lemma_order_push_keeps(*old(self), *self, order_id);
                    lemma_order_unique_index(*self, order_id, n);
                }
            },
        }
    }

    /// Removes an order, returning its originating screen and details when it
    /// was present.
    pub fn remove_order(&mut self, order_id: i32) -> (r: Option<(i32, FlavorGrams)>)
        requires
            old(self).wf(),
        ensures
            final(self).wf(),
            !final(self).has_order(order_id),
            match r {
                Some(p) => old(self).has_order(order_id) && p == (
                old(self).spec_record_of(order_id).screen_id,
                old(self).spec_record_of(order_id).details,
                ),
                None => !old(self).has_order(order_id) && final(self).entries@ == old(self).entries@,
            },
            forall|q: i32| q != order_id ==> #[trigger] final(self).has_order(q) == old(self).has_order(q),
            forall|q: i32| q != order_id && old(self).has_order(q) ==> #[trigger] final(self).spec_record_of(q) == old(self).spec_record_of(q),
    {
        match self.find_index(order_id) {
            Some(i) => {
                proof {
                    lemma_order_unique_index(*self, order_id, i as int);
                }
                let entry = self.entries.remove(i);
                proof {
                    lemma_order_remove_keeps(*old(self), *self, order_id, i as int);
                }
                Some((entry.1.screen_id, entry.1.details))
            },
            None => None,
        }
    }

    /// Reassigns every order owned by `from_screen_id` to `to_screen_id` and
    /// returns the ids that changed hands, in table order.
    pub fn transfer_orders(&mut self, from_screen_id: i32, to_screen_id: i32) -> (r: Vec<i32>)
        requires
            old(self).wf(),
        ensures
            final(self).wf(),
            final(self).entries@.len() == old(self).entries@.len(),
            forall|i: int|
                0 <= i < old(self).entries@.len() ==> #[trigger] final(self).entries@[i] == {
                    let e = old(self).entries@[i];
                    if e.1.screen_id == from_screen_id {
                        (e.0, OrderRecord { screen_id: to_screen_id, ..e.1 })
                    } else {
                        e
                    }
                },
            r@ == spec_changed_ids(old(self).entries@, from_screen_id),
    {
        let mut changed: Vec<i32> = Vec::new();
        let mut i: usize = 0;
        while i < self.entries.len()
            invariant
                i <= self.entries@.len(),
                self.entries@.len() == old(self).entries@.len(),
                forall|j: int| i <= j < old(self).entries@.len() ==> #[trigger] self.entries@[j]
                    == old(self).entries@[j],
                forall|j: int|
                    0 <= j < i ==> #[trigger] self.entries@[j] == {
                        let e = old(self).entries@[j];
                        if e.1.screen_id == from_screen_id {
                            (e.0, OrderRecord { screen_id: to_screen_id, ..e.1 })
                        } else {
                            e
                        }
                    },
                changed@ == spec_changed_ids(
                    old(self).entries@.take(i as int),
                    from_screen_id,
                ),
            decreases self.entries@.len() - i,
        {
            let e = self.entries[i];
            proof {
                assert(old(self).entries@.take(i + 1).drop_last() =~= old(self).entries@.take(
                    i as int,
                ));
            }
            if e.1.screen_id == from_screen_id {
                let updated = OrderRecord {
                    screen_id: to_screen_id,
                    details: e.1.details,
                    completed: e.1.completed,
                };
                self.entries.remove(i);
                self.entries.insert(i, (e.0, updated));
                changed.push(e.0);
            }
            i += 1;
        }
        proof {
            assert(old(self).entries@.take(old(self).entries@.len() as int) =~= old(self).entries@);
            assert forall|p: int, q: int| 0 <= p < q < self.entries@.len() implies (
            #[trigger] self.entries@[p]).0 != (#[trigger] self.entries@[q]).0 by {
                assert(self.entries@[p].0 == old(self).entries@[p].0);
                assert(self.entries@[q].0 == old(self).entries@[q].0);
            }
        }
        changed
    }
}

/// In a well-formed table an order's entry position is unique.
proof fn lemma_order_unique_index(t: OrderTable, order_id: i32, i: int)
    requires
        t.wf(),
        0 <= i < t.entries@.len(),
        t.entries@[i].0 == order_id,
    ensures
        t.has_order(order_id),
        t.order_index(order_id) == i,
{
    let j = t.order_index(order_id);
    assert(0 <= j < t.entries@.len() && t.entries@[j].0 == order_id);
}

/// Replacing one entry in place leaves every other order's lookup unchanged.
proof fn lemma_order_same_keys(a: OrderTable, b: OrderTable, order_id: i32, i: int)
    requires
        a.wf(),
        0 <= i < a.entries@.len(),
        b.entries@.len() == a.entries@.len(),
        a.entries@[i].0 == order_id,
        b.entries@[i].0 == order_id,
        forall|j: int| 0 <= j < a.entries@.len() && j != i ==> #[trigger] b.entries@[j]
            == a.entries@[j],
    ensures
        b.wf(),
        forall|q: i32| #[trigger] b.has_order(q) == a.has_order(q),
        forall|q: i32| q != order_id && a.has_order(q) ==> #[trigger] b.spec_record_of(q)
            == a.spec_record_of(q),
        b.has_order(order_id),
        b.order_index(order_id) == i,
{
    assert(forall|j: int| 0 <= j < a.entries@.len() ==> (#[trigger] b.entries@[j]).0
        == a.entries@[j].0);
    assert forall|q: i32| #[trigger] b.has_order(q) == a.has_order(q) by {
        if a.has_order(q) {
            let j = a.order_index(q);
            assert(b.entries@[j].0 == q);
        }
        if b.has_order(q) {
            let j = b.order_index(q);
            assert(a.entries@[j].0 == q);
        }
    }
    lemma_order_unique_index(b, order_id, i);
    assert forall|q: i32| q != order_id && a.has_order(q) implies #[trigger] b.spec_record_of(q)
        == a.spec_record_of(q) by {
        let j = a.order_index(q);
        assert(b.entries@[j].0 == q);
        lemma_order_unique_index(b, q, j);
    }
}

/// Pushing a fresh entry leaves every other order's lookup unchanged.
proof fn lemma_order_push_keeps(a: OrderTable, b: OrderTable, order_id: i32)
    requires
        a.wf(),
        !a.has_order(order_id),
        b.entries@.len() == a.entries@.len() + 1,
        b.entries@[a.entries@.len() as int].0 == order_id,
        forall|j: int| 0 <= j < a.entries@.len() ==> #[trigger] b.entries@[j] == a.entries@[j],
    ensures
        b.wf(),
        forall|q: i32| q != order_id ==> #[trigger] b.has_order(q) == a.has_order(q),
        forall|q: i32| q != order_id && a.has_order(q) ==> #[trigger] b.spec_record_of(q)
            == a.spec_record_of(q),
{
    let n = a.entries@.len() as int;
    assert forall|i: int, j: int| 0 <= i < j < b.entries@.len() implies (
    #[trigger] b.entries@[i]).0 != (#[trigger] b.entries@[j]).0 by {
        if j == n {
            assert(b.entries@[i] == a.entries@[i]);
            if b.entries@[i].0 == order_id {
                assert(a.has_order(order_id));
            }
        }
    }
    assert forall|q: i32| q != order_id implies #[trigger] b.has_order(q) == a.has_order(q) by {
        if a.has_order(q) {
            let j = a.order_index(q);
            assert(b.entries@[j].0 == q);
        }
        if b.has_order(q) {
            let j = b.order_index(q);
            assert(j != n);
            assert(a.entries@[j].0 == q);
        }
    }
    assert forall|q: i32| q != order_id && a.has_order(q) implies #[trigger] b.spec_record_of(q)
        == a.spec_record_of(q) by {
        let j = a.order_index(q);
        assert(b.entries@[j].0 == q);
        lemma_order_unique_index(b, q, j);
    }
}

/// Removing one order's entry leaves every other order's lookup unchanged.
proof fn lemma_order_remove_keeps(a: OrderTable, b: OrderTable, order_id: i32, i: int)
    requires
        a.wf(),
        0 <= i < a.entries@.len(),
        a.entries@[i].0 == order_id,
        b.entries@ == a.entries@.remove(i),
    ensures
        b.wf(),
        !b.has_order(order_id),
        forall|q: i32| q != order_id ==> #[trigger] b.has_order(q) == a.has_order(q),
        forall|q: i32| q != order_id && a.has_order(q) ==> #[trigger] b.spec_record_of(q)
            == a.spec_record_of(q),
{
    let n = a.entries@.len() as int;
    assert(forall|j: int| 0 <= j < i ==> #[trigger] b.entries@[j] == a.entries@[j]);
    assert(forall|j: int| i <= j < n - 1 ==> #[trigger] b.entries@[j] == a.entries@[j + 1]);
    assert forall|p: int, q: int| 0 <= p < q < b.entries@.len() implies (
    #[trigger] b.entries@[p]).0 != (#[trigger] b.entries@[q]).0 by {
        let pa = if p < i {
            p
        } else {
            p + 1
        };
        let qa = if q < i {
            q
        } else {
            q + 1
        };
        assert(b.entries@[p] == a.entries@[pa]);
        assert(b.entries@[q] == a.entries@[qa]);
    }
    assert(!b.has_order(order_id)) by {
        if b.has_order(order_id) {
            let j = b.order_index(order_id);
            let ja = if j < i {
                j
            } else {
                j + 1
            };
            assert(a.entries@[ja].0 == order_id);
        }
    }
    assert forall|q: i32| q != order_id implies #[trigger] b.has_order(q) == a.has_order(q) by {
        if a.has_order(q) {
            let j = a.order_index(q);
            let jb = if j < i {
                j
            } else {
                j - 1
            };
            assert(j != i);
            assert(b.entries@[jb].0 == q);
        }
        if b.has_order(q) {
            let j = b.order_index(q);
            let ja = if j < i {
                j
            } else {
                j + 1
            };
            assert(a.entries@[ja].0 == q);
        }
    }
    assert forall|q: i32| q != order_id && a.has_order(q) implies #[trigger] b.spec_record_of(q)
        == a.spec_record_of(q) by {
        let j = a.order_index(q);
        assert(j != i);
        let jb = if j < i {
            j
        } else {
            j - 1
        };
        assert(b.entries@[jb].0 == q);
        assert(b.entries@[jb] == a.entries@[j]);
        lemma_order_unique_index(b, q, jb);
    }
}

} // verus!
