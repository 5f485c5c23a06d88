//! The per-robot orders bookkeeping: which orders each robot of the ring is
//! currently responsible for. The leader uses it for least-loaded dispatch;
//! every robot uses it to reconstruct assignments when a peer dies.
use vstd::prelude::*;

use crate::flavors::FlavorGrams;

verus! {

/// One order: its gateway-assigned id and the grams required per flavor.
#[derive(Clone, Copy, Debug, PartialEq, Eq, Structural)]
pub struct Order {
    pub order_id: usize,
    pub order_details: FlavorGrams,
}

/// The orders currently assigned to one robot, oldest first.
#[derive(Clone, Debug)]
pub struct OrdersList {
    pub orders: Vec<Order>,
}

impl OrdersList {
    /// An empty list.
    pub fn new() -> (r: OrdersList)
        ensures
            r.orders@ =~= Seq::<Order>::empty(),
    {
        OrdersList { orders: Vec::new() }
    }

    /// Appends an order.
    pub fn add_order(&mut self, order_id: usize, order_details: FlavorGrams)
        ensures
            final(self).orders@ == old(self).orders@.push(Order { order_id, order_details }),
    {
        self.orders.push(Order { order_id, order_details });
    }

    /// Drops every order with the given id.
    pub fn remove_order(&mut self, order_id: usize)
        ensures
            final(self).orders@ == old(self).orders@.filter(|o: Order| o.order_id != order_id),
    {
        let mut kept: Vec<Order> = Vec::new();
        let mut i: usize = 0;
        while i < self.orders.len()
            invariant
                i <= self.orders.len(),
                kept@ == self.orders@.take(i as int).filter(|o: Order| o.order_id != order_id),
            decreases self.orders.len() - i,
        {
            let o = self.orders[i];
            proof {
                reveal_with_fuel(Seq::filter, 2);
                assert(self.orders@.take(i + 1).drop_last() =~= self.orders@.take(i as int));
            }
            if o.order_id != order_id {
                kept.push(o);
            }
            i += 1;
        }
        assert(self.orders@.take(self.orders@.len() as int) =~= self.orders@);
        self.orders = kept;
    }
}

/// Copies an order list element by element.
fn copy_orders(v: &Vec<Order>) -> (r: Vec<Order>)
    ensures
        r@ == v@,
{
    let mut r: Vec<Order> = Vec::new();
    let mut i: usize = 0;
    while i < v.len()
        invariant
            i <= v@.len(),
            r@ == v@.take(i as int),
        decreases v@.len() - i,
    {
        r.push(v[i]);
        proof {
            assert(v@.take(i + 1) =~= v@.take(i as int).push(v@[i as int]));
        }
        i += 1;
    }
    assert(v@.take(v@.len() as int) =~= v@);
    r
}

/// Maps each live robot id to the list of orders assigned to it.
#[derive(Clone, Debug)]
pub struct OrdersTable {
    pub entries: Vec<(usize, OrdersList)>,
}

impl OrdersTable {
    /// No robot id appears twice.
    pub open spec fn wf(self) -> bool {
        forall|i: int, j: int|
            0 <= i < j < self.entries@.len() ==> (#[trigger] self.entries@[i]).0
                != (#[trigger] self.entries@[j]).0
    }

    /// Whether the table has an entry for this robot.
    pub open spec fn has_robot(self, robot_id: usize) -> bool {
        exists|i: int| 0 <= i < self.entries@.len() && (#[trigger] self.entries@[i]).0 == robot_id
    }

    /// The position of this robot's entry.
    pub open spec fn robot_index(self, robot_id: usize) -> int {
        choose|i: int| 0 <= i < self.entries@.len() && (#[trigger] self.entries@[i]).0 == robot_id
    }

    /// The orders assigned to this robot.
    pub open spec fn spec_orders_of(self, robot_id: usize) -> Seq<Order> {
        self.entries@[self.robot_index(robot_id)].1.orders@
    }

    /// An empty table.
    pub fn new() -> (r: OrdersTable)
        ensures
            r.entries@ =~= Seq::<(usize, OrdersList)>::empty(),
            r.wf(),
    {
        OrdersTable { entries: Vec::new() }
    }

    /// Gives every robot id below `n` an empty orders list.
    pub fn initialize(&mut self, n: usize)
        requires
            old(self).entries@.len() == 0,
        ensures
            final(self).wf(),
            final(self).entries@.len() == n,
            forall|i: int| 0 <= i < n ==> (#[trigger] final(self).entries@[i]).0 == i,
            forall|i: int| 0 <= i < n ==> (#[trigger] final(self).entries@[i]).1.orders@.len()
                == 0,
    {
        let mut robot_id: usize = 0;
        while robot_id < n
            invariant
                robot_id <= n,
                self.entries@.len() == robot_id,
                forall|i: int| 0 <= i < robot_id ==> (#[trigger] self.entries@[i]).0 == i,
                forall|i: int| 0 <= i < robot_id ==> (#[trigger] self.entries@[i]).1.orders@.len()
                    == 0,
            decreases n - robot_id,
        {
            self.entries.push((robot_id, OrdersList::new()));
            robot_id += 1;
        }
    }

    /// Finds the position of a robot's entry, if it has one.
    fn find_index(&self, robot_id: usize) -> (r: Option<usize>)
        ensures
            match r {
                Some(i) => i < self.entries@.len() && self.entries@[i as int].0 == robot_id,
                None => !self.has_robot(robot_id),
            },
    {
        let mut i: usize = 0;
        while i < self.entries.len()
            invariant
                i <= self.entries@.len(),
                forall|j: int| 0 <= j < i ==> (#[trigger] self.entries@[j]).0 != robot_id,
            decreases self.entries@.len() - i,
        {
            if self.entries[i].0 == robot_id {
                return Some(i);
            }
            i += 1;
        }
        None
    }

    /// The orders of one robot, or `None` when the robot has no entry.
    pub fn get_robot_orders(&self, robot_id: usize) -> (r: Option<OrdersList>)
        requires
            self.wf(),
        ensures
            match r {
                Some(l) => self.has_robot(robot_id) && l.orders@ == self.spec_orders_of(robot_id),
                None => !self.has_robot(robot_id),
            },
    {
        match self.find_index(robot_id) {
            Some(i) => {
                proof {
                    lemma_unique_index(*self, robot_id, i as int);
                }
                Some(OrdersList { orders: copy_orders(&self.entries[i].1.orders) })
            },
            None => None,
        }
    }

    /// Appends an order to a robot's list, creating the entry if absent.
    pub fn add_order_for_robot(
        &mut self,
        robot_id: usize,
        order_id: usize,
        order_details: FlavorGrams,
    )
        requires
            old(self).wf(),
        ensures
            final(self).wf(),
            final(self).has_robot(robot_id),
            final(self).spec_orders_of(robot_id) == if old(self).has_robot(robot_id) {
                old(self).spec_orders_of(robot_id).push(Order { order_id, order_details })
            } else {
                seq![Order { order_id, order_details }]
            },
            forall|r: usize| r != robot_id ==> #[trigger] final(self).has_robot(r) == old(self).has_robot(r),
            forall|r: usize| r != robot_id && old(self).has_robot(r) ==> #[trigger] final(self).spec_orders_of(r) == old(self).spec_orders_of(r),
    {
        match self.find_index(robot_id) {
            Some(i) => {
                proof {
                    lemma_unique_index(*self, robot_id, i as int);
                }
                let mut entry = self.entries.remove(i);
                entry.1.add_order(order_id, order_details);
                self.entries.insert(i, entry);
                proof {
                    assert(self.entries@ =~= old(self).entries@.update(
                        i as int,
                        self.entries@[i as int],
                    ));
                    lemma_same_keys_same_lookup(*old(self), *self, robot_id, i as int);
                }
            },
            None => {
                let mut list = OrdersList::new();
                list.add_order(order_id, order_details);
                self.entries.push((robot_id, list));
                proof {
                    let n = old(self).entries@.len() as int;
                    assert(self.entries@[n].0 == robot_id);
                    lemma_push_keeps_others(*old(self), *self, robot_id);
                    lemma_unique_index(*self, robot_id, n);
                    assert(self.spec_orders_of(robot_id) =~= seq![
                        Order { order_id, order_details },
                    ]);
                }
            },
        }
    }

    /// Removes one order from a robot's list; a missing robot is left alone.
    pub fn remove_order_for_robot(&mut self, robot_id: usize, order_id: usize)
        requires
            old(self).wf(),
        ensures
            final(self).wf(),
            forall|r: usize| #[trigger] final(self).has_robot(r) == old(self).has_robot(r),
            old(self).has_robot(robot_id) ==> final(self).spec_orders_of(robot_id) == old(self).spec_orders_of(robot_id).filter(|o: Order| o.order_id != order_id),
            forall|r: usize| r != robot_id && old(self).has_robot(r) ==> #[trigger] final(self).spec_orders_of(r) == old(self).spec_orders_of(r),
    {
        match self.find_index(robot_id) {
            Some(i) => {
                proof {
                    lemma_unique_index(*self, robot_id, i as int);
                }
                let mut entry = self.entries.remove(i);
                entry.1.remove_order(order_id);
                self.entries.insert(i, entry);
                proof {
                    assert(self.entries@ =~= old(self).entries@.update(
                        i as int,
                        self.entries@[i as int],
                    ));
                    lemma_same_keys_same_lookup(*old(self), *self, robot_id, i as int);
                }
            },
            None => {},
        }
    }

    /// The robot with the fewest assigned orders; ties go to the smallest id.
    pub fn robot_with_least_orders(&self) -> (r: Option<usize>)
        requires
            self.wf(),
        ensures
            match r {
                Some(id) => {
                    &&& self.has_robot(id)
                    &&& forall|i: int|
                        0 <= i < self.entries@.len() ==> {
                            let other = #[trigger] self.entries@[i];
                            self.spec_orders_of(id).len() < other.1.orders@.len() || (
                            self.spec_orders_of(id).len() == other.1.orders@.len() && id
                                <= other.0)
                        }
                },
                None => self.entries@.len() == 0,
            },
    {
        if self.entries.len() == 0 {
            return None;
        }
        let mut best_id: usize = self.entries[0].0;
        let mut best_count: usize = self.entries[0].1.orders.len();
        proof {
            lemma_unique_index(*self, best_id, 0);
        }
        let mut i: usize = 1;
        while i < self.entries.len()
            invariant
                self.wf(),
                1 <= i <= self.entries@.len(),
                self.has_robot(best_id),
                self.spec_orders_of(best_id).len() == best_count,
                forall|j: int|
                    0 <= j < i ==> {
                        let other = #[trigger] self.entries@[j];
                        best_count < other.1.orders@.len() || (best_count == other.1.orders@.len()
                            && best_id <= other.0)
                    },
            decreases self.entries@.len() - i,
        {
            let cand_id = self.entries[i].0;
            let cand_count = self.entries[i].1.orders.len();
            if cand_count < best_count || (cand_count == best_count && cand_id < best_id) {
                best_id = cand_id;
                best_count = cand_count;
                proof {
                    lemma_unique_index(*self, best_id, i as int);
                }
            }
            i += 1;
        }
        Some(best_id)
    }

    /// Drops a robot's entry and all its orders.
    pub fn remove_robot(&mut self, robot_id: usize)
        requires
            old(self).wf(),
        ensures
            final(self).wf(),
            !final(self).has_robot(robot_id),
            forall|r: usize| r != robot_id ==> #[trigger] final(self).has_robot(r) == old(self).has_robot(r),
            forall|r: usize| r != robot_id && old(self).has_robot(r) ==> #[trigger] final(self).spec_orders_of(r) == old(self).spec_orders_of(r),
    {
        match self.find_index(robot_id) {
            Some(i) => {
                proof {
                    lemma_unique_index(*self, robot_id, i as int);
                }
                self.entries.remove(i);
                proof {
                    lemma_remove_keeps_others(*old(self), *self, robot_id, i as int);
                }
            },
            None => {},
        }
    }
}

/// In a well-formed table a robot's entry position is unique, so any found
/// position is the `robot_index`.
proof fn lemma_unique_index(t: OrdersTable, robot_id: usize, i: int)
    requires
        t.wf(),
        0 <= i < t.entries@.len(),
        t.entries@[i].0 == robot_id,
    ensures
        t.has_robot(robot_id),
        t.robot_index(robot_id) == i,
{
    let j = t.robot_index(robot_id);
    assert(0 <= j < t.entries@.len() && t.entries@[j].0 == robot_id);
}

/// Updating one entry in place leaves every other robot's lookup unchanged.
proof fn lemma_same_keys_same_lookup(a: OrdersTable, b: OrdersTable, robot_id: usize, i: int)
    requires
        a.wf(),
        0 <= i < a.entries@.len(),
        b.entries@.len() == a.entries@.len(),
        a.entries@[i].0 == robot_id,
        b.entries@[i].0 == robot_id,
        forall|j: int| 0 <= j < a.entries@.len() && j != i ==> #[trigger] b.entries@[j]
            == a.entries@[j],
    ensures
        b.wf(),
        forall|r: usize| #[trigger] b.has_robot(r) == a.has_robot(r),
        forall|r: usize| r != robot_id && a.has_robot(r) ==> #[trigger] b.spec_orders_of(r)
            == a.spec_orders_of(r),
        b.has_robot(robot_id),
        b.robot_index(robot_id) == i,
{
    assert(forall|j: int| 0 <= j < a.entries@.len() ==> (#[trigger] b.entries@[j]).0
        == a.entries@[j].0);
    assert forall|r: usize| #[trigger] b.has_robot(r) == a.has_robot(r) by {
        if a.has_robot(r) {
            let j = a.robot_index(r);
            assert(b.entries@[j].0 == r);
        }
        if b.has_robot(r) {
            let j = b.robot_index(r);
            assert(a.entries@[j].0 == r);
        }
    }
    lemma_unique_index(b, robot_id, i);
    assert forall|r: usize| r != robot_id && a.has_robot(r) implies #[trigger] b.spec_orders_of(r)
        == a.spec_orders_of(r) by {
        let j = a.robot_index(r);
        assert(b.entries@[j].0 == r);
        lemma_unique_index(b, r, j);
    }
}

/// Pushing a fresh entry leaves every other robot's lookup unchanged.
proof fn lemma_push_keeps_others(a: OrdersTable, b: OrdersTable, robot_id: usize)
    requires
        a.wf(),
        !a.has_robot(robot_id),
        b.entries@.len() == a.entries@.len() + 1,
        b.entries@[a.entries@.len() as int].0 == robot_id,
        forall|j: int| 0 <= j < a.entries@.len() ==> #[trigger] b.entries@[j] == a.entries@[j],
    ensures
        b.wf(),
        forall|r: usize| r != robot_id ==> #[trigger] b.has_robot(r) == a.has_robot(r),
        forall|r: usize| r != robot_id && a.has_robot(r) ==> #[trigger] b.spec_orders_of(r)
            == a.spec_orders_of(r),
{
    let n = a.entries@.len() as int;
    assert forall|i: int, j: int| 0 <= i < j < b.entries@.len() implies (
    #[trigger] b.entries@[i]).0 != (#[trigger] b.entries@[j]).0 by {
        if j == n {
            assert(b.entries@[i] == a.entries@[i]);
            if b.entries@[i].0 == robot_id {
                assert(a.has_robot(robot_id));
            }
        }
    }
    assert forall|r: usize| r != robot_id implies #[trigger] b.has_robot(r) == a.has_robot(r) by {
        if a.has_robot(r) {
            let j = a.robot_index(r);
            assert(b.entries@[j].0 == r);
        }
        if b.has_robot(r) {
            let j = b.robot_index(r);
            assert(j != n);
            assert(a.entries@[j].0 == r);
        }
    }
    assert forall|r: usize| r != robot_id && a.has_robot(r) implies #[trigger] b.spec_orders_of(r)
        == a.spec_orders_of(r) by {
        let j = a.robot_index(r);
        assert(b.entries@[j].0 == r);
        lemma_unique_index(b, r, j);
    }
}

/// Removing one robot's entry leaves every other robot's lookup unchanged.
proof fn lemma_remove_keeps_others(a: OrdersTable, b: OrdersTable, robot_id: usize, i: int)
    requires
        a.wf(),
        0 <= i < a.entries@.len(),
        a.entries@[i].0 == robot_id,
        b.entries@ == a.entries@.remove(i),
    ensures
        b.wf(),
        !b.has_robot(robot_id),
        forall|r: usize| r != robot_id ==> #[trigger] b.has_robot(r) == a.has_robot(r),
        forall|r: usize| r != robot_id && a.has_robot(r) ==> #[trigger] b.spec_orders_of(r)
            == a.spec_orders_of(r),
{
    let n = a.entries@.len() as int;
    assert(forall|j: int| 0 <= j < i ==> #[trigger] b.entries@[j] == a.entries@[j]);
    assert(forall|j: int| i <= j < n - 1 ==> #[trigger] b.entries@[j] == a.entries@[j + 1]);
    assert forall|p: int, q: int| 0 <= p < q < b.entries@.len() implies (
    #[trigger] b.entries@[p]).0 != (#[trigger] b.entries@[q]).0 by {
        let pa = if p < i {
            p
        } else {
            p + 1
        };
        let qa = if q < i {
            q
        } else {
            q + 1
        };
        assert(b.entries@[p] == a.entries@[pa]);
        assert(b.entries@[q] == a.entries@[qa]);
    }
    assert(!b.has_robot(robot_id)) by {
        if b.has_robot(robot_id) {
            let j = b.robot_index(robot_id);
            let ja = if j < i {
                j
            } else {
                j + 1
            };
            assert(a.entries@[ja].0 == robot_id);
        }
    }
    assert forall|r: usize| r != robot_id implies #[trigger] b.has_robot(r) == a.has_robot(r) by {
        if a.has_robot(r) {
            let j = a.robot_index(r);
            let jb = if j < i {
                j
            } else {
                j - 1
            };
            assert(j != i);
            assert(b.entries@[jb].0 == r);
        }
        if b.has_robot(r) {
            let j = b.robot_index(r);
            let ja = if j < i {
                j
            } else {
                j + 1
            };
            assert(a.entries@[ja].0 == r);
        }
    }
    assert forall|r: usize| r != robot_id && a.has_robot(r) implies #[trigger] b.spec_orders_of(r)
        == a.spec_orders_of(r) by {
        let j = a.robot_index(r);
        assert(j != i);
        let jb = if j < i {
            j
        } else {
            j - 1
        };
        assert(b.entries@[jb].0 == r);
        assert(b.entries@[jb] == a.entries@[j]);
        lemma_unique_index(b, r, jb);
    }
}

} // verus!
