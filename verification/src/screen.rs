//! The screen node's decision core: ring membership, leadership pointers,
//! the per-screen order table, and the messages a screen emits. The caller
//! owns the sockets and queues: it feeds events in and carries the returned
//! messages to the ring, the robot leader, or the gateway.
use vstd::prelude::*;

use crate::messages::{Abort, Commit, Election, MessageType, Order, OrderScreen, ScreenIntroduction};
use crate::network::Ring;
use crate::order_table::OrderTable;
use crate::flavors::FlavorGrams;

verus! {

/// One screen's replicated control state.
pub struct Screen {
    pub is_leader: bool,
    pub id: usize,
    pub robot_leader_id: usize,
    pub leader_id: usize,
    pub network_size: usize,
    pub network: Ring,
    pub order_table: OrderTable,
    pub orders_path: String,
}

impl Screen {
    /// The screen invariant: the ring has no duplicate nodes and the order
    /// table has no duplicate ids.
    pub open spec fn wf(self) -> bool {
        &&& self.network.wf()
        &&& self.order_table.wf()
    }

    /// A fresh screen: screen 0 starts as leader of the screen ring, and
    /// robot 0 as leader of the robot ring.
    pub fn new(id: usize, network_size: usize, orders_path: String) -> (r: Screen)
        ensures
            r.wf(),
            r.id == id,
            r.is_leader == (id == 0),
            r.leader_id == 0,
            r.robot_leader_id == 0,
            r.network_size == network_size,
            r.network.nodes@.len() == 0,
            r.order_table.entries@.len() == 0,
            r.orders_path@ == orders_path@,
    {
        Screen {
            is_leader: id == 0,
            id,
            robot_leader_id: 0,
            leader_id: 0,
            network_size,
            network: Ring { nodes: Vec::new() },
            order_table: OrderTable::new(),
            orders_path,
        }
    }

    /// Builds the initial ring over all screens: screen 0 sends to the last
    /// screen, and every other screen sends to its predecessor by id.
    pub fn initialize_network(&mut self)
        requires
            old(self).network_size >= 1,
        ensures
            final(self).network.wf(),
            final(self).network.nodes@.len() == old(self).network_size,
            final(self).network.nodes@[0] == 0,
            forall|k: int| 1 <= k < old(self).network_size ==> final(self).network.nodes@[k]
                == old(self).network_size - k,
            forall|n: usize| final(self).network.spec_contains(n) <==> n < old(self).network_size,
            final(self).order_table == old(self).order_table,
            final(self).id == old(self).id,
            final(self).is_leader == old(self).is_leader,
            final(self).leader_id == old(self).leader_id,
            final(self).robot_leader_id == old(self).robot_leader_id,
            final(self).network_size == old(self).network_size,
    {
        self.network = Ring::initialize(self.network_size);
    }

    /// The screen this one sends to, or `None` when this screen is not in the
    /// ring.
    pub fn find_next_id(&self) -> (r: Option<usize>)
        requires
            self.wf(),
        ensures
            match r {
                Some(succ) => self.network.spec_contains(self.id) && succ
                    == self.network.spec_successor(self.id),
                None => !self.network.spec_contains(self.id),
            },
    {
        self.network.successor_of(self.id)
    }

    /// The screen this one reads from.
    pub fn find_prev_screen(&self, self_id: usize) -> (r: Option<usize>)
        requires
            self.wf(),
        ensures
            match r {
                Some(prev) => self.network.spec_contains(self_id) && self.network.spec_contains(
                    prev,
                ) && self_id == self.network.spec_successor(prev) && prev
                    == self.network.spec_predecessor(self_id),
                None => !self.network.spec_contains(self_id),
            },
    {
        self.network.predecessor_of(self_id)
    }

    /// Records the outcome of an election; a screen that learns it won marks
    /// itself leader.
    pub fn set_new_leader(&mut self, my_id: usize, new_leader_id: usize)
        ensures
            final(self).leader_id == new_leader_id,
            final(self).is_leader == (old(self).is_leader || my_id == new_leader_id),
            final(self).network == old(self).network,
            final(self).order_table == old(self).order_table,
            final(self).id == old(self).id,
            final(self).robot_leader_id == old(self).robot_leader_id,
            final(self).network_size == old(self).network_size,
    {
        self.leader_id = new_leader_id;
        if my_id == new_leader_id {
            self.is_leader = true;
        }
    }

    /// Records the robot ring's current leader.
    pub fn set_new_robot_leader(&mut self, new_robot_leader_id: usize)
        ensures
            final(self).robot_leader_id == new_robot_leader_id,
            final(self).leader_id == old(self).leader_id,
            final(self).is_leader == old(self).is_leader,
            final(self).network == old(self).network,
            final(self).order_table == old(self).order_table,
            final(self).id == old(self).id,
            final(self).network_size == old(self).network_size,
    {
        self.robot_leader_id = new_robot_leader_id;
    }

    /// Whether this screen currently sends to the given screen.
    pub fn is_connected_to_me(&self, dead_screen_id: usize) -> (r: bool)
        requires
            self.wf(),
        ensures
            r == (self.network.spec_contains(self.id) && self.network.spec_successor(self.id)
                == dead_screen_id),
    {
        match self.network.successor_of(self.id) {
            Some(succ) => succ == dead_screen_id,
            None => false,
        }
    }

    /// Whether the given id is the current screen leader.
    pub fn is_leader(&self, id: usize) -> (r: bool)
        ensures
            r == (self.leader_id == id),
    {
        self.leader_id == id
    }

    /// Whether this screen is the leader.
    pub fn i_am_leader(&self) -> (r: bool)
        ensures
            r == self.is_leader,
    {
        self.is_leader
    }

    /// The election message this screen sends when it detects the leader
    /// died: it nominates itself.
    pub fn send_leader_election_message(&self, id: usize, dead_leader_id: usize) -> (m:
        MessageType)
        ensures
            m == MessageType::Election(
                Election { sender_id: id, current_candidate_id: id, dead_leader_id },
            ),
    {
        MessageType::Election(Election { sender_id: id, current_candidate_id: id, dead_leader_id })
    }

    /// Records an observed order; the leader additionally forwards it to the
    /// robot leader as an `Order` message.
    pub fn apply_order(&mut self, order: &OrderScreen) -> (m: Option<MessageType>)
        requires
            old(self).wf(),
            order.sender_id <= i32::MAX as usize,
            order.order_id <= i32::MAX as usize,
        ensures
            final(self).wf(),
            final(self).order_table.has_order(order.order_id as i32),
            final(self).order_table.spec_record_of(order.order_id as i32) == (
            crate::order_table::OrderRecord {
                screen_id: order.sender_id as i32,
                details: order.order_details,
                completed: false,
            }),
            forall|q: i32| q != order.order_id as i32 ==> #[trigger] final(self).order_table.has_order(q) == old(self).order_table.has_order(q),
            forall|q: i32|
                q != order.order_id as i32 && old(self).order_table.has_order(q)
                    ==> #[trigger] final(self).order_table.spec_record_of(q) == old(self).order_table.spec_record_of(q),
            m == if old(self).is_leader {
                Some(
                    MessageType::Order(
                        Order { order_id: order.order_id, order_details: order.order_details },
                    ),
                )
            } else {
                Option::<MessageType>::None
            },
            final(self).is_leader == old(self).is_leader,
            final(self).leader_id == old(self).leader_id,
            final(self).network == old(self).network,
    {
        self.order_table.add_order(
            order.sender_id as i32,
            order.order_id as i32,
            order.order_details,
        );
        if self.is_leader {
            Some(
                MessageType::Order(
                    Order { order_id: order.order_id, order_details: order.order_details },
                ),
            )
        } else {
            None
        }
    }

    /// Handles an `Abort` for an order this screen knows: the order leaves
    /// the table, and if this screen originated it, the abort is forwarded to
    /// the gateway link. Returns the dropped details alongside the message.
    pub fn abort_order(&mut self, abort: &Abort) -> (r: (
        Option<MessageType>,
        Option<FlavorGrams>,
    ))
        requires
            old(self).wf(),
            abort.order_id <= i32::MAX as usize,
        ensures
            final(self).wf(),
            !final(self).order_table.has_order(abort.order_id as i32),
            ({
                let id = abort.order_id as i32;
                if old(self).order_table.has_order(id) {
                    &&& r.1 == Some(old(self).order_table.spec_record_of(id).details)
                    &&& r.0 == if old(self).order_table.spec_record_of(id).screen_id
                        == old(self).id as i32 {
                        Some(MessageType::Abort(Abort { order_id: abort.order_id }))
                    } else {
                        Option::<MessageType>::None
                    }
                } else {
                    &&& r.0 is None
                    &&& r.1 is None
                    &&& final(self).order_table.entries@ == old(self).order_table.entries@
                }
            }),
            forall|q: i32| q != abort.order_id as i32 ==> #[trigger] final(self).order_table.has_order(q) == old(self).order_table.has_order(q),
            forall|q: i32|
                q != abort.order_id as i32 && old(self).order_table.has_order(q) ==> #[trigger] final(self).order_table.spec_record_of(q) == old(self).order_table.spec_record_of(q),
            final(self).is_leader == old(self).is_leader,
            final(self).leader_id == old(self).leader_id,
            final(self).network == old(self).network,
    {
        let id = abort.order_id as i32;
        match self.order_table.remove_order(id) {
            Some((screen_id, details)) => {
                if screen_id == self.id as i32 {
                    (Some(MessageType::Abort(Abort { order_id: abort.order_id })), Some(details))
                } else {
                    (None, Some(details))
                }
            },
            None => (None, None),
        }
    }

    /// Handles a `Commit`, symmetric with `abort_order`.
    pub fn commit_order(&mut self, commit: &Commit) -> (r: (
        Option<MessageType>,
        Option<FlavorGrams>,
    ))
        requires
            old(self).wf(),
            commit.order_id <= i32::MAX as usize,
        ensures
            final(self).wf(),
            !final(self).order_table.has_order(commit.order_id as i32),
            ({
                let id = commit.order_id as i32;
                if old(self).order_table.has_order(id) {
                    &&& r.1 == Some(old(self).order_table.spec_record_of(id).details)
                    &&& r.0 == if old(self).order_table.spec_record_of(id).screen_id
                        == old(self).id as i32 {
                        Some(MessageType::Commit(Commit { order_id: commit.order_id }))
                    } else {
                        Option::<MessageType>::None
                    }
                } else {
                    &&& r.0 is None
                    &&& r.1 is None
                    &&& final(self).order_table.entries@ == old(self).order_table.entries@
                }
            }),
            forall|q: i32| q != commit.order_id as i32 ==> #[trigger] final(self).order_table.has_order(q) == old(self).order_table.has_order(q),
            forall|q: i32|
                q != commit.order_id as i32 && old(self).order_table.has_order(q) ==> #[trigger] final(self).order_table.spec_record_of(q) == old(self).order_table.spec_record_of(q),
            final(self).is_leader == old(self).is_leader,
            final(self).leader_id == old(self).leader_id,
            final(self).network == old(self).network,
    {
        let id = commit.order_id as i32;
        match self.order_table.remove_order(id) {
            Some((screen_id, details)) => {
                if screen_id == self.id as i32 {
                    (Some(MessageType::Commit(Commit { order_id: commit.order_id })), Some(details))
                } else {
                    (None, Some(details))
                }
            },
            None => (None, None),
        }
    }

    /// Moves every order owned by a dead screen to its successor, returning
    /// the order ids that changed hands.
    pub fn transfer_orders(&mut self, dead_id: usize, transfer_id: usize) -> (r: Vec<i32>)
        requires
            old(self).wf(),
            dead_id <= i32::MAX as usize,
            transfer_id <= i32::MAX as usize,
        ensures
            final(self).wf(),
            r@ == crate::order_table::spec_changed_ids(
                old(self).order_table.entries@,
                dead_id as i32,
            ),
            final(self).network == old(self).network,
            final(self).is_leader == old(self).is_leader,
    {
        self.order_table.transfer_orders(dead_id as i32, transfer_id as i32)
    }

    /// The frame a screen opens its robot-leader connection with: an ordinary
    /// introduction, or the takeover introduction when a freshly elected
    /// screen leader reconnects.
    pub fn introduction_message(&self, is_new_leader: bool) -> (m: MessageType)
        ensures
            m == if is_new_leader {
                MessageType::NewLeaderIntroduction(self.id)
            } else {
                MessageType::ScreenIntroduction(ScreenIntroduction { sender_id: self.id })
            },
    {
        if is_new_leader {
            MessageType::NewLeaderIntroduction(self.id)
        } else {
            MessageType::ScreenIntroduction(ScreenIntroduction { sender_id: self.id })
        }
    }

    /// Splices a dead screen out of the ring: the screen that wrote to the
    /// dead one now writes to the dead one's old successor, every other edge
    /// is unchanged, and the live count drops by one.
    pub fn update_network(&mut self, dead_id: usize)
        requires
            old(self).wf(),
        ensures
            final(self).wf(),
            !final(self).network.spec_contains(dead_id),
            forall|other: usize| other != dead_id ==> (#[trigger] final(self).network.spec_contains(other) <==> old(self).network.spec_contains(other)),
            old(self).network.spec_contains(dead_id) ==> final(self).network.nodes@ == old(self).network.nodes@.remove(
                crate::network::seq_node_index(old(self).network.nodes@, dead_id),
            ),
            !old(self).network.spec_contains(dead_id) ==> final(self).network.nodes@ == old(self).network.nodes@,
            final(self).network_size == if old(self).network_size > 0 {
                (old(self).network_size - 1) as usize
            } else {
                0usize
            },
            final(self).order_table == old(self).order_table,
            final(self).is_leader == old(self).is_leader,
            final(self).leader_id == old(self).leader_id,
            final(self).robot_leader_id == old(self).robot_leader_id,
            final(self).id == old(self).id,
    {
        self.network.remove(dead_id);
        if self.network_size > 0 {
            self.network_size = self.network_size - 1;
        }
    }
}

} // verus!
