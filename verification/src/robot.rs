//! The robot node's decision core: the stock table, the per-flavor token
//! replicas, the orders table, and the leader's dispatch rule. The caller
//! owns sockets, queues and the preparation delay; it feeds orders, tokens
//! and deaths in and carries the returned actions out.
use vstd::prelude::*;

use crate::flavors::{FlavorGrams, FlavorInfo, IceCreamFlavor};
use crate::messages::{
    Abort, MessageType, Order, OrderData, Prepare, RobotIntroduction, Token, TokenData, UpdateData,
};
use crate::network::Ring;
use crate::robot_orders_table::{Order as AssignedOrder, OrdersList, OrdersTable};
use crate::stock_table::{
    lemma_flavor_cases, spec_can_subtract, spec_has_enough, Stock,
};
use crate::INITIAL_GRAMS_AMOUNT;

verus! {

/// What a robot asks its caller to do after a step: send a message to the
/// ring successor, send one over the screen-leader bridge, or hand an
/// addressed `Prepare` to this robot's own preparation queue.
pub enum RobotAction {
    /// Send a message to the ring successor.
    SendRing(MessageType),
    /// Send a message over the screen-leader bridge.
    SendScreen(MessageType),
    /// Hand an addressed `Prepare` to this robot's own preparation queue.
    DeliverLocalPrepare(MessageType),
    /// Hand an arriving `Token` to this robot's own token queue.
    DeliverLocalToken(MessageType),
    /// Drain and stop the current ring sender: the successor changed.
    KillSender,
    /// Open a fresh connection to the (new) ring successor.
    Reconnect,
    /// Open the screen-leader bridge; `true` marks a takeover introduction.
    ConnectScreen(bool),
}

/// The per-flavor token replicas a robot keeps.
#[derive(Clone, Copy, Debug, PartialEq, Eq, Structural)]
pub struct TokensTable {
    pub vanilla: FlavorInfo,
    pub chocolate: FlavorInfo,
    pub strawberry: FlavorInfo,
    pub mint: FlavorInfo,
}

impl TokensTable {
    /// The replica entry for one flavor.
    pub open spec fn spec_get(self, f: IceCreamFlavor) -> FlavorInfo {
        match f {
            IceCreamFlavor::Vanilla => self.vanilla,
            IceCreamFlavor::Chocolate => self.chocolate,
            IceCreamFlavor::Strawberry => self.strawberry,
            IceCreamFlavor::Mint => self.mint,
        }
    }

    /// Reads the replica entry for one flavor.
    pub fn get(&self, f: IceCreamFlavor) -> (r: FlavorInfo)
        ensures
            r == self.spec_get(f),
    {
        match f {
            IceCreamFlavor::Vanilla => self.vanilla,
            IceCreamFlavor::Chocolate => self.chocolate,
            IceCreamFlavor::Strawberry => self.strawberry,
            IceCreamFlavor::Mint => self.mint,
        }
    }

    /// Replaces the replica entry for one flavor.
    pub fn set(&mut self, f: IceCreamFlavor, info: FlavorInfo)
        ensures
            final(self).spec_get(f) == info,
            forall|g: IceCreamFlavor| g != f ==> #[trigger] final(self).spec_get(g) == old(self).spec_get(g),
    {
        match f {
            IceCreamFlavor::Vanilla => self.vanilla = info,
            IceCreamFlavor::Chocolate => self.chocolate = info,
            IceCreamFlavor::Strawberry => self.strawberry = info,
            IceCreamFlavor::Mint => self.mint = info,
        }
    }
}

/// One robot's replicated control state.
pub struct Robot {
    pub is_leader: bool,
    pub id: usize,
    pub tokens_table: TokensTable,
    pub screen_leader_id: usize,
    pub leader_id: usize,
    pub stock_table: Stock,
    pub network: Ring,
    pub orders_table: OrdersTable,
}

impl Robot {
    /// The robot invariant: the ring has no duplicate nodes and the orders
    /// table has no duplicate robot ids.
    pub open spec fn wf(self) -> bool {
        &&& self.network.wf()
        &&& self.orders_table.wf()
    }

    /// A fresh robot: robot 0 starts as the ring leader, every flavor's
    /// replica starts at the initial stock with no token present.
    pub fn new(id: usize, network_size: usize, now: u64) -> (r: Robot)
        requires
            network_size >= 1,
        ensures
            r.wf(),
            r.id == id,
            r.is_leader == (id == 0),
            r.leader_id == 0,
            r.screen_leader_id == 0,
            r.network.nodes@.len() == network_size,
            r.network.nodes@[0] == 0,
            forall|k: int| 1 <= k < network_size ==> r.network.nodes@[k] == network_size - k,
            forall|n: usize| r.network.spec_contains(n) <==> n < network_size,
            r.orders_table.entries@.len() == network_size,
            forall|f: IceCreamFlavor| !(#[trigger] r.tokens_table.spec_get(f)).has_token,
            forall|f: IceCreamFlavor| (#[trigger] r.tokens_table.spec_get(f)).stock
                == INITIAL_GRAMS_AMOUNT,
            forall|f: IceCreamFlavor| #[trigger] r.stock_table.stock_table.spec_get(f)
                == INITIAL_GRAMS_AMOUNT as int,
    {
        let info = FlavorInfo {
            has_token: false,
            stock: INITIAL_GRAMS_AMOUNT,
            last_modification_timestamp: now,
        };
        let mut orders_table = OrdersTable::new();
        orders_table.initialize(network_size);
        let r = Robot {
            is_leader: id == 0,
            id,
            tokens_table: TokensTable {
                vanilla: info,
                chocolate: info,
                strawberry: info,
                mint: info,
            },
            screen_leader_id: 0,
            leader_id: 0,
            stock_table: Stock::new(now),
            network: Ring::initialize(network_size),
            orders_table,
        };
        proof {
            assert forall|f: IceCreamFlavor| !(#[trigger] r.tokens_table.spec_get(f)).has_token
                && (#[trigger] r.tokens_table.spec_get(f)).stock == INITIAL_GRAMS_AMOUNT by {
                lemma_flavor_cases(f);
            }
        }
        r
    }

    /// The frame a robot opens its screen-leader connection with: an ordinary
    /// introduction, or the takeover introduction when a freshly elected
    /// robot leader reconnects.
    pub fn introduction_message(&self, is_new_leader_introduction: bool) -> (m: MessageType)
        ensures
            m == if is_new_leader_introduction {
                MessageType::NewLeaderIntroduction(self.id)
            } else {
                MessageType::RobotIntroduction(RobotIntroduction { sender_id: self.id })
            },
    {
        if is_new_leader_introduction {
            MessageType::NewLeaderIntroduction(self.id)
        } else {
            MessageType::RobotIntroduction(RobotIntroduction { sender_id: self.id })
        }
    }

    /// Whether the given id is the current robot leader.
    pub fn is_leader(&self, id: usize) -> (r: bool)
        ensures
            r == (self.leader_id == id),
    {
        self.leader_id == id
    }

    /// Records the outcome of an election; a robot that learns it won marks
    /// itself leader.
    pub fn set_new_leader(&mut self, my_id: usize, new_leader_id: usize)
        ensures
            final(self).leader_id == new_leader_id,
            final(self).is_leader == (old(self).is_leader || my_id == new_leader_id),
            final(self).network == old(self).network,
            final(self).orders_table == old(self).orders_table,
            final(self).stock_table == old(self).stock_table,
            final(self).tokens_table == old(self).tokens_table,
            final(self).id == old(self).id,
            final(self).screen_leader_id == old(self).screen_leader_id,
    {
        self.leader_id = new_leader_id;
        if my_id == new_leader_id {
            self.is_leader = true;
        }
    }

    /// Records the screen ring's current leader.
    pub fn set_screen_leader(&mut self, screen_leader_id: usize)
        ensures
            final(self).screen_leader_id == screen_leader_id,
            final(self).leader_id == old(self).leader_id,
            final(self).is_leader == old(self).is_leader,
            final(self).network == old(self).network,
            final(self).orders_table == old(self).orders_table,
            final(self).stock_table == old(self).stock_table,
            final(self).tokens_table == old(self).tokens_table,
            final(self).id == old(self).id,
    {
        self.screen_leader_id = screen_leader_id;
    }

    /// Whether this robot holds the flavor's token right now.
    pub fn has_token(&self, flavor: IceCreamFlavor) -> (r: bool)
        ensures
            r == self.tokens_table.spec_get(flavor).has_token,
    {
        self.tokens_table.get(flavor).has_token
    }

    /// Marks whether this robot holds the flavor's token.
    pub fn set_token_status(&mut self, flavor: IceCreamFlavor, status: bool)
        ensures
            final(self).tokens_table.spec_get(flavor).has_token == status,
            final(self).tokens_table.spec_get(flavor).stock == old(self).tokens_table.spec_get(
                flavor,
            ).stock,
            forall|g: IceCreamFlavor| g != flavor ==> #[trigger] final(self).tokens_table.spec_get(
                g,
            ) == old(self).tokens_table.spec_get(g),
            final(self).stock_table == old(self).stock_table,
            final(self).orders_table == old(self).orders_table,
            final(self).network == old(self).network,
            final(self).leader_id == old(self).leader_id,
            final(self).is_leader == old(self).is_leader,
            final(self).id == old(self).id,
            final(self).screen_leader_id == old(self).screen_leader_id,
    {
        let mut info = self.tokens_table.get(flavor);
        info.has_token = status;
        self.tokens_table.set(flavor, info);
    }

    /// The stock replica last read from the flavor's token.
    pub fn get_flavor_stock(&self, flavor: IceCreamFlavor) -> (r: i32)
        ensures
            r == self.tokens_table.spec_get(flavor).stock,
    {
        self.tokens_table.get(flavor).stock
    }

    /// Updates the flavor's replica from a passing token: the stock seen on
    /// the token minus what this robot just used, stamped now.
    pub fn update_tokens_table(
        &mut self,
        flavor: IceCreamFlavor,
        read_ammount: i32,
        used_ammount: i32,
        now: u64,
    )
        requires
            i32::MIN <= read_ammount - used_ammount <= i32::MAX,
        ensures
            final(self).tokens_table.spec_get(flavor).stock == read_ammount - used_ammount,
            final(self).tokens_table.spec_get(flavor).last_modification_timestamp == now,
            final(self).tokens_table.spec_get(flavor).has_token == old(self).tokens_table.spec_get(flavor).has_token,
            forall|g: IceCreamFlavor| g != flavor ==> #[trigger] final(self).tokens_table.spec_get(
                g,
            ) == old(self).tokens_table.spec_get(g),
            final(self).stock_table == old(self).stock_table,
            final(self).orders_table == old(self).orders_table,
            final(self).network == old(self).network,
            final(self).leader_id == old(self).leader_id,
            final(self).is_leader == old(self).is_leader,
            final(self).id == old(self).id,
            final(self).screen_leader_id == old(self).screen_leader_id,
    {
        let mut info = self.tokens_table.get(flavor);
        info.stock = read_ammount - used_ammount;
        info.last_modification_timestamp = now;
        self.tokens_table.set(flavor, info);
    }

    /// Whether this robot touched the flavor's token after the given instant.
    pub fn is_timestamp_greater(&self, flavor: IceCreamFlavor, timestamp: u64) -> (r: bool)
        ensures
            r == (self.tokens_table.spec_get(flavor).last_modification_timestamp > timestamp),
    {
        self.tokens_table.get(flavor).last_modification_timestamp > timestamp
    }

    /// The robot this one sends to.
    pub fn find_next_id(&self) -> (r: Option<usize>)
        requires
            self.wf(),
        ensures
            match r {
                Some(succ) => self.network.spec_contains(self.id) && succ
                    == self.network.spec_successor(self.id),
                None => !self.network.spec_contains(self.id),
            },
    {
        self.network.successor_of(self.id)
    }

    /// The robot this one reads from.
    pub fn find_prev_robot(&self, self_id: usize) -> (r: Option<usize>)
        requires
            self.wf(),
        ensures
            match r {
                Some(prev) => self.network.spec_contains(self_id) && self.network.spec_contains(
                    prev,
                ) && self_id == self.network.spec_successor(prev) && prev
                    == self.network.spec_predecessor(self_id),
                None => !self.network.spec_contains(self_id),
            },
    {
        self.network.predecessor_of(self_id)
    }

    /// Whether this robot currently sends to the given robot.
    pub fn is_connected_to_me(&self, dead_robot_id: usize) -> (r: bool)
        requires
            self.wf(),
        ensures
            r == (self.network.spec_contains(self.id) && self.network.spec_successor(self.id)
                == dead_robot_id),
    {
        match self.network.successor_of(self.id) {
            Some(succ) => succ == dead_robot_id,
            None => false,
        }
    }

    /// Whether only two robots are live.
    pub fn is_net_size_2(&self) -> (r: bool)
        ensures
            r == (self.network.nodes@.len() == 2),
    {
        self.network.len() == 2
    }

    /// Splices a dead robot out of the ring: the dead robot's predecessor now
    /// sends to the dead robot's old successor, and every other edge is
    /// unchanged, so the ring stays one simple cycle over the survivors.
    pub fn update_network(&mut self, dead_id: usize)
        requires
            old(self).wf(),
        ensures
            final(self).wf(),
            !final(self).network.spec_contains(dead_id),
            forall|other: usize| other != dead_id ==> (#[trigger] final(self).network.spec_contains(other) <==> old(self).network.spec_contains(other)),
            old(self).network.spec_contains(dead_id) ==> final(self).network.nodes@ == old(self).network.nodes@.remove(
                crate::network::seq_node_index(old(self).network.nodes@, dead_id),
            ),
            !old(self).network.spec_contains(dead_id) ==> final(self).network.nodes@ == old(self).network.nodes@,
            final(self).orders_table == old(self).orders_table,
            final(self).stock_table == old(self).stock_table,
            final(self).tokens_table == old(self).tokens_table,
            final(self).leader_id == old(self).leader_id,
            final(self).is_leader == old(self).is_leader,
            final(self).id == old(self).id,
            final(self).screen_leader_id == old(self).screen_leader_id,
    {
        self.network.remove(dead_id);
    }

    /// Whether the stock can satisfy an order.
    pub fn has_enough_stock(&self, order_details: &FlavorGrams) -> (r: bool)
        ensures
            r == spec_has_enough(self.stock_table.stock_table, *order_details),
    {
        self.stock_table.has_enough_stock(order_details)
    }

    /// The robot with the fewest assigned orders, ties to the smallest id.
    pub fn find_target_robot(&self) -> (r: Option<usize>)
        requires
            self.wf(),
        ensures
            match r {
                Some(id) => {
                    &&& self.orders_table.has_robot(id)
                    &&& forall|i: int|
                        0 <= i < self.orders_table.entries@.len() ==> {
                            let other = #[trigger] self.orders_table.entries@[i];
                            self.orders_table.spec_orders_of(id).len() < other.1.orders@.len() || (
                            self.orders_table.spec_orders_of(id).len() == other.1.orders@.len()
                                && id <= other.0)
                        }
                },
                None => self.orders_table.entries@.len() == 0,
            },
    {
        self.orders_table.robot_with_least_orders()
    }

    /// Simulates one token use: the token leaves with the grams deducted.
    /// The caller performs the preparation delay itself.
    pub fn use_token(&self, token: Token, ammount: i32) -> (r: Token)
        requires
            i32::MIN <= token.available_ammount - ammount <= i32::MAX,
        ensures
            r.flavour == token.flavour,
            r.available_ammount == token.available_ammount - ammount,
            r.sender_id == token.sender_id,
            r.last_modified_by_id == token.last_modified_by_id,
            r.last_modification_timestamp == token.last_modification_timestamp,
    {
        Token { available_ammount: token.available_ammount - ammount, ..token }
    }

    /// The orders currently assigned to one robot, if it has a slot.
    pub fn get_robot_orders(&self, robot_id: usize) -> (r: Option<
        crate::robot_orders_table::OrdersList,
    >)
        requires
            self.wf(),
        ensures
            match r {
                Some(l) => self.orders_table.has_robot(robot_id) && l.orders@
                    == self.orders_table.spec_orders_of(robot_id),
                None => !self.orders_table.has_robot(robot_id),
            },
    {
        self.orders_table.get_robot_orders(robot_id)
    }

    /// Records a dispatched order in a robot's slot.
    pub fn add_new_order(&mut self, robot_id: usize, order_id: usize, order_details: FlavorGrams)
        requires
            old(self).wf(),
        ensures
            final(self).wf(),
            final(self).orders_table.has_robot(robot_id),
            final(self).orders_table.spec_orders_of(robot_id) == if old(self).orders_table.has_robot(robot_id) {
                old(self).orders_table.spec_orders_of(robot_id).push(
                    crate::robot_orders_table::Order { order_id, order_details },
                )
            } else {
                seq![crate::robot_orders_table::Order { order_id, order_details }]
            },
            forall|r: usize| r != robot_id ==> #[trigger] final(self).orders_table.has_robot(r)
                == old(self).orders_table.has_robot(r),
            forall|r: usize|
                r != robot_id && old(self).orders_table.has_robot(r) ==> #[trigger] final(self).orders_table.spec_orders_of(r) == old(self).orders_table.spec_orders_of(r),
            final(self).stock_table == old(self).stock_table,
            final(self).tokens_table == old(self).tokens_table,
            final(self).network == old(self).network,
            final(self).leader_id == old(self).leader_id,
            final(self).is_leader == old(self).is_leader,
            final(self).id == old(self).id,
            final(self).screen_leader_id == old(self).screen_leader_id,
    {
        self.orders_table.add_order_for_robot(robot_id, order_id, order_details);
    }

    /// Drops a finished order from a robot's slot.
    pub fn remove_completed_order(&mut self, robot_id: usize, order_id: usize)
        requires
            old(self).wf(),
        ensures
            final(self).wf(),
            forall|r: usize| #[trigger] final(self).orders_table.has_robot(r) == old(self).orders_table.has_robot(r),
            old(self).orders_table.has_robot(robot_id) ==> final(self).orders_table.spec_orders_of(robot_id) == old(self).orders_table.spec_orders_of(
                robot_id,
            ).filter(|o: crate::robot_orders_table::Order| o.order_id != order_id),
            forall|r: usize|
                r != robot_id && old(self).orders_table.has_robot(r) ==> #[trigger] final(self).orders_table.spec_orders_of(r) == old(self).orders_table.spec_orders_of(r),
            final(self).stock_table == old(self).stock_table,
            final(self).tokens_table == old(self).tokens_table,
            final(self).network == old(self).network,
            final(self).leader_id == old(self).leader_id,
            final(self).is_leader == old(self).is_leader,
            final(self).id == old(self).id,
            final(self).screen_leader_id == old(self).screen_leader_id,
    {
        self.orders_table.remove_order_for_robot(robot_id, order_id);
    }

    /// Drops a dead robot's whole slot.
    pub fn remove_dead_from_orders_table(&mut self, dead_id: usize)
        requires
            old(self).wf(),
        ensures
            final(self).wf(),
            !final(self).orders_table.has_robot(dead_id),
            forall|r: usize| r != dead_id ==> #[trigger] final(self).orders_table.has_robot(r)
                == old(self).orders_table.has_robot(r),
            forall|r: usize|
                r != dead_id && old(self).orders_table.has_robot(r) ==> #[trigger] final(self).orders_table.spec_orders_of(r) == old(self).orders_table.spec_orders_of(r),
            final(self).stock_table == old(self).stock_table,
            final(self).tokens_table == old(self).tokens_table,
            final(self).network == old(self).network,
            final(self).leader_id == old(self).leader_id,
            final(self).is_leader == old(self).is_leader,
            final(self).id == old(self).id,
            final(self).screen_leader_id == old(self).screen_leader_id,
    {
        self.orders_table.remove_robot(dead_id);
    }

    /// One step of the flavor-acquisition loop a target robot runs while
    /// preparing an order: an arriving token is used when its flavor is still
    /// required and no preparation is busy, and passed on untouched otherwise.
    /// Either way exactly one token of that flavor leaves this robot, so the
    /// one-token-per-flavor invariant is preserved at this node.
    pub fn handle_token_during_prepare(
        &mut self,
        required: &mut Vec<IceCreamFlavor>,
        busy: bool,
        token: Token,
        order_details: &FlavorGrams,
        now: u64,
    ) -> (r: (Token, bool))
        requires
            i32::MIN <= token.available_ammount - order_details.spec_get(token.flavour)
                <= i32::MAX,
        ensures
            r.1 == (old(required)@.contains(token.flavour) && !busy),
            r.0.flavour == token.flavour,
            r.0.sender_id == token.sender_id,
            r.0.last_modified_by_id == token.last_modified_by_id,
            r.0.last_modification_timestamp == token.last_modification_timestamp,
            !final(self).tokens_table.spec_get(token.flavour).has_token,
            final(self).tokens_table.spec_get(token.flavour).last_modification_timestamp == now,
            forall|g: IceCreamFlavor| g != token.flavour ==> #[trigger] final(self).tokens_table.spec_get(g) == old(self).tokens_table.spec_get(g),
            if r.1 {
                &&& r.0.available_ammount == token.available_ammount - order_details.spec_get(
                    token.flavour,
                )
                &&& final(required)@ == old(required)@.filter(
                    |g: IceCreamFlavor| g != token.flavour,
                )
                &&& final(self).tokens_table.spec_get(token.flavour).stock
                    == token.available_ammount - order_details.spec_get(token.flavour)
            } else {
                &&& r.0.available_ammount == token.available_ammount
                &&& final(required)@ == old(required)@
                &&& final(self).tokens_table.spec_get(token.flavour).stock
                    == token.available_ammount
            },
            final(self).stock_table == old(self).stock_table,
            final(self).orders_table == old(self).orders_table,
            final(self).network == old(self).network,
            final(self).leader_id == old(self).leader_id,
            final(self).is_leader == old(self).is_leader,
    {
        let flavour = token.flavour;
        if contains_flavor(required, flavour) && !busy {
            let amount = order_details.get(flavour);
            let used = self.use_token(token, amount);
            self.set_token_status(flavour, false);
            self.update_tokens_table(flavour, token.available_ammount, amount, now);
            retain_other_flavors(required, flavour);
            (used, true)
        } else {
            self.set_token_status(flavour, false);
            self.update_tokens_table(flavour, token.available_ammount, 0, now);
            (token, false)
        }
    }

    /// What a robot does once an order's last required flavor is prepared:
    /// the leader commits it to the screen leader, clears its own slot and
    /// announces the delivery; any other robot reports completion up the ring
    /// and lets the leader do the rest.
    pub fn complete_order(&mut self, my_id: usize, order_id: usize) -> (actions: Vec<RobotAction>)
        requires
            old(self).wf(),
        ensures
            final(self).wf(),
            final(self).stock_table == old(self).stock_table,
            final(self).tokens_table == old(self).tokens_table,
            final(self).network == old(self).network,
            final(self).leader_id == old(self).leader_id,
            if old(self).leader_id == my_id {
                &&& actions@ =~= seq![
                    RobotAction::SendScreen(
                        MessageType::Commit(crate::messages::Commit { order_id }),
                    ),
                    RobotAction::SendRing(
                        MessageType::OrderDelivered(
                            crate::messages::OrderDelivered { robot_id_maker: my_id, order_id },
                        ),
                    ),
                ]
                &&& forall|r: usize| #[trigger] final(self).orders_table.has_robot(r) == old(self).orders_table.has_robot(r)
                &&& (old(self).orders_table.has_robot(my_id) ==> final(self).orders_table.spec_orders_of(my_id) == old(self).orders_table.spec_orders_of(
                    my_id,
                ).filter(|o: crate::robot_orders_table::Order| o.order_id != order_id))
                &&& forall|r: usize|
                    r != my_id && old(self).orders_table.has_robot(r) ==> #[trigger] final(self).orders_table.spec_orders_of(r) == old(self).orders_table.spec_orders_of(r)
            } else {
                &&& actions@ =~= seq![
                    RobotAction::SendRing(
                        MessageType::OrderComplete(
                            crate::messages::OrderComplete { robot_id_maker: my_id, order_id },
                        ),
                    ),
                ]
                &&& final(self).orders_table == old(self).orders_table
            },
    {
        let mut actions: Vec<RobotAction> = Vec::new();
        if self.is_leader(my_id) {
            actions.push(RobotAction::SendScreen(MessageType::Commit(crate::messages::Commit {
                order_id,
            })));
            self.remove_completed_order(my_id, order_id);
            actions.push(RobotAction::SendRing(MessageType::OrderDelivered(
                crate::messages::OrderDelivered { robot_id_maker: my_id, order_id },
            )));
        } else {
            actions.push(RobotAction::SendRing(MessageType::OrderComplete(
                crate::messages::OrderComplete { robot_id_maker: my_id, order_id },
            )));
        }
        actions
    }

    /// The stock compensation after a robot dies with assigned orders: the
    /// first order is treated as irrecoverable — its deduction stands, and is
    /// deducted once more along the re-dispatch path, the source's deliberate
    /// choice — while every later order's speculative deduction is returned.
    /// Each change is broadcast so all replicas converge.
    pub fn recover_stock_from_lost_orders(
        &mut self,
        lost: &OrdersList,
        now: u64,
    ) -> (actions: Vec<RobotAction>)
        requires
            old(self).wf(),
            spec_comp_in_bounds(old(self).stock_table.stock_table, lost.orders@),
        ensures
            final(self).wf(),
            forall|f: IceCreamFlavor| #[trigger] final(self).stock_table.stock_table.spec_get(f)
                == spec_comp_val(
                old(self).stock_table.stock_table,
                lost.orders@,
                lost.orders@.len() as int,
                f,
            ),
            actions@ == spec_comp_actions(lost.orders@, now),
            lost.orders@.len() == 0 ==> final(self).stock_table == old(self).stock_table,
            lost.orders@.len() > 0 ==> final(self).stock_table.last_modification_timestamp == now,
            final(self).orders_table == old(self).orders_table,
            final(self).tokens_table == old(self).tokens_table,
            final(self).network == old(self).network,
            final(self).leader_id == old(self).leader_id,
            final(self).is_leader == old(self).is_leader,
            final(self).id == old(self).id,
            final(self).screen_leader_id == old(self).screen_leader_id,
    {
        let ghost init = old(self).stock_table.stock_table;
        let ghost orders = lost.orders@;
        let mut actions: Vec<RobotAction> = Vec::new();
        let mut i: usize = 0;
        while i < lost.orders.len()
            invariant
                i <= orders.len(),
                orders == lost.orders@,
                spec_comp_in_bounds(init, orders),
                forall|f: IceCreamFlavor| #[trigger] self.stock_table.stock_table.spec_get(f)
                    == spec_comp_val(init, orders, i as int, f),
                i == 0 ==> self.stock_table == old(self).stock_table,
                i > 0 ==> self.stock_table.last_modification_timestamp == now,
                actions@.len() == i,
                forall|j: int|
                    0 <= j < i ==> #[trigger] actions@[j] == RobotAction::SendRing(
                        MessageType::UpdateStock(
                            UpdateData {
                                modified_values: orders[j].order_details,
                                timestamp: now,
                                subtract: j == 0,
                            },
                        ),
                    ),
                self.orders_table == old(self).orders_table,
                self.tokens_table == old(self).tokens_table,
                self.network == old(self).network,
                self.leader_id == old(self).leader_id,
                self.is_leader == old(self).is_leader,
                self.id == old(self).id,
                self.screen_leader_id == old(self).screen_leader_id,
            decreases orders.len() - i,
        {
            let details = lost.orders[i].order_details;
            if i == 0 {
                proof {
                    assert forall|f: IceCreamFlavor|
                        i32::MIN <= #[trigger] (self.stock_table.stock_table.spec_get(f)
                            - details.spec_get(f)) <= i32::MAX by {
                        assert(spec_comp_val(init, orders, 1, f) == init.spec_get(f)
                            - orders[0].order_details.spec_get(f));
                    }
                }
                self.stock_table.subtract_with_timestamp(&details, now);
            } else {
                proof {
                    assert forall|f: IceCreamFlavor|
                        i32::MIN <= #[trigger] (self.stock_table.stock_table.spec_get(f)
                            + details.spec_get(f)) <= i32::MAX by {
                        assert(spec_comp_val(init, orders, i + 1, f) == spec_comp_val(
                            init,
                            orders,
                            i as int,
                            f,
                        ) + orders[i as int].order_details.spec_get(f));
                    }
                }
                self.stock_table.add_with_timestamp(&details, now);
            }
            actions.push(RobotAction::SendRing(MessageType::UpdateStock(UpdateData {
                modified_values: details,
                timestamp: now,
                subtract: i == 0,
            })));
            proof {
                assert forall|f: IceCreamFlavor| #[trigger] self.stock_table.stock_table.spec_get(
                    f,
                ) == spec_comp_val(init, orders, i + 1, f) by {}
            }
            i += 1;
        }
        proof {
            assert(actions@ =~= spec_comp_actions(orders, now));
        }
        actions
    }

    /// Re-dispatches one lost order, exactly as the leader's dispatch rule
    /// does but without touching the stock: its deduction already happened
    /// before the robot died, and the compensation settled the difference.
    pub fn reassign_one(&mut self, order: AssignedOrder) -> (actions: Vec<RobotAction>)
        requires
            old(self).wf(),
        ensures
            final(self).wf(),
            spec_reassign_step(*old(self), *final(self), order, actions@),
    {
        let mut actions: Vec<RobotAction> = Vec::new();
        if self.stock_table.has_enough_stock(&order.order_details) {
            let target = match self.find_target_robot() {
                Some(t) => t,
                None => self.id,
            };
            self.orders_table.add_order_for_robot(target, order.order_id, order.order_details);
            actions.push(RobotAction::SendRing(MessageType::NewOrder(OrderData {
                target_id: target,
                order_id: order.order_id,
                order_details: order.order_details,
            })));
            let prepare = MessageType::Prepare(Prepare {
                sender_id: self.id,
                target_id: target,
                order_id: order.order_id,
                order_details: order.order_details,
            });
            if target != self.id {
                actions.push(RobotAction::SendRing(prepare));
            } else {
                actions.push(RobotAction::DeliverLocalPrepare(prepare));
            }
            actions
        } else {
            actions.push(RobotAction::SendScreen(MessageType::Abort(Abort {
                order_id: order.order_id,
            })));
            actions
        }
    }

    /// Re-dispatches every order a dead robot was responsible for, in order:
    /// each order with enough stock left goes to the then least-loaded robot,
    /// announced with `NewOrder` and an addressed `Prepare`; each order the
    /// stock can no longer cover is aborted to the screen leader.
    pub fn reassign_lost_orders(&mut self, lost: &OrdersList) -> (actions: Vec<RobotAction>)
        requires
            old(self).wf(),
        ensures
            final(self).wf(),
            spec_reassign_rel(*old(self), *final(self), lost.orders@, actions@),
            final(self).stock_table == old(self).stock_table,
            final(self).tokens_table == old(self).tokens_table,
            final(self).network == old(self).network,
            final(self).leader_id == old(self).leader_id,
            final(self).is_leader == old(self).is_leader,
            final(self).id == old(self).id,
            final(self).screen_leader_id == old(self).screen_leader_id,
    {
        let ghost orders = lost.orders@;
        let mut actions: Vec<RobotAction> = Vec::new();
        let mut i: usize = 0;
        proof {
            assert(orders.take(0) =~= Seq::<AssignedOrder>::empty());
        }
        while i < lost.orders.len()
            invariant
                i <= orders.len(),
                orders == lost.orders@,
                self.wf(),
                spec_reassign_rel(*old(self), *self, orders.take(i as int), actions@),
                self.stock_table == old(self).stock_table,
                self.tokens_table == old(self).tokens_table,
                self.network == old(self).network,
                self.leader_id == old(self).leader_id,
                self.is_leader == old(self).is_leader,
                self.id == old(self).id,
                self.screen_leader_id == old(self).screen_leader_id,
            decreases orders.len() - i,
        {
            let ghost pre = *self;
            let ghost prev_actions = actions@;
            let order = lost.orders[i];
            let mut step = self.reassign_one(order);
            let ghost step_actions = step@;
            actions.append(&mut step);
            proof {
                lemma_reassign_snoc(
                    *old(self),
                    pre,
                    *self,
                    orders.take(i as int),
                    order,
                    prev_actions,
                    step_actions,
                );
                assert(orders.take(i + 1) =~= orders.take(i as int).push(orders[i as int]));
            }
            i += 1;
        }
        proof {
            assert(orders.take(orders.len() as int) =~= orders);
        }
        actions
    }

    /// The full recovery a leader runs after learning a robot died: probe for
    /// every token the leader does not hold, drop the dead robot's slot and
    /// tell the ring to do the same, compensate the stock for the dead
    /// robot's orders, and re-dispatch them.
    pub fn recover_from_dead_robot(
        &mut self,
        dead_id: usize,
        now: u64,
    ) -> (actions: Vec<RobotAction>)
        requires
            old(self).wf(),
            spec_comp_in_bounds(
                old(self).stock_table.stock_table,
                spec_lost_orders(*old(self), dead_id),
            ),
        ensures
            final(self).wf(),
            spec_recovery_post(*old(self), *final(self), dead_id, now, actions@),
            final(self).network == old(self).network,
            final(self).tokens_table == old(self).tokens_table,
            final(self).leader_id == old(self).leader_id,
            final(self).is_leader == old(self).is_leader,
            final(self).id == old(self).id,
            final(self).screen_leader_id == old(self).screen_leader_id,
    {
        let ghost lost_spec = spec_lost_orders(*old(self), dead_id);
        let probes = self.recover_lost_tokens(now);
        let mut actions: Vec<RobotAction> = Vec::new();
        let mut i: usize = 0;
        while i < probes.len()
            invariant
                i <= probes@.len(),
                probes@ == spec_probes(self.tokens_table, now),
                actions@.len() == i,
                forall|j: int| 0 <= j < i ==> #[trigger] actions@[j] == RobotAction::SendRing(
                    probes@[j],
                ),
                *self == *old(self),
            decreases probes@.len() - i,
        {
            actions.push(RobotAction::SendRing(probes[i]));
            i += 1;
        }
        let lost_opt = self.get_robot_orders(dead_id);
        self.remove_dead_from_orders_table(dead_id);
        actions.push(RobotAction::SendRing(MessageType::RemoveRobot(dead_id)));
        let ghost base_actions = actions@;
        let ghost np = spec_probes(old(self).tokens_table, now).len() as int;
        proof {
            assert(base_actions.len() == np + 1);
            assert(forall|j: int| 0 <= j < np ==> #[trigger] base_actions[j]
                == RobotAction::SendRing(spec_probes(old(self).tokens_table, now)[j]));
            assert(base_actions[np] == RobotAction::SendRing(MessageType::RemoveRobot(dead_id)));
        }
        match lost_opt {
            Some(l) => {
                proof {
                    assert(l.orders@ == lost_spec);
                }
                let mut comp = self.recover_stock_from_lost_orders(&l, now);
                let ghost comp_view = comp@;
                actions.append(&mut comp);
                let ghost mid = *self;
                let ghost actions_before = actions@;
                let mut rd = self.reassign_lost_orders(&l);
                let ghost rd_view = rd@;
                actions.append(&mut rd);
                proof {
                    let nc = lost_spec.len() as int;
                    assert(actions_before =~= base_actions + comp_view);
                    assert(actions_before.len() == np + 1 + nc);
                    assert(actions@ =~= actions_before + rd_view);
                    assert(forall|j: int| 0 <= j < np ==> #[trigger] actions@[j]
                        == RobotAction::SendRing(spec_probes(old(self).tokens_table, now)[j]));
                    assert(actions@[np] == RobotAction::SendRing(
                        MessageType::RemoveRobot(dead_id),
                    ));
                    assert(actions@.subrange(np + 1, np + 1 + nc) =~= spec_comp_actions(
                        lost_spec,
                        now,
                    ));
                    assert(actions@.skip(np + 1 + nc) =~= rd_view);
                    assert(spec_reassign_rel(mid, *self, lost_spec, actions@.skip(np + 1 + nc)));
                }
            },
            None => {
                proof {
                    assert(lost_spec =~= Seq::<AssignedOrder>::empty());
                    let mid = *self;
                    assert(actions@ == base_actions);
                    assert(actions@.subrange(np + 1, np + 1) =~= spec_comp_actions(
                        lost_spec,
                        now,
                    ));
                    assert(actions@.skip(np + 1) =~= Seq::<RobotAction>::empty());
                    assert(spec_reassign_rel(mid, *self, lost_spec, actions@.skip(np + 1)));
                }
            },
        }
        actions
    }

    /// The lone survivor's takeover when the other of two robots dies: close
    /// the ring on itself, take leadership, re-mint every token it does not
    /// hold from its replicas, settle the dead robot's orders, and reopen the
    /// screen bridge with a takeover introduction.
    #[verifier::rlimit(100)]
    #[verifier::spinoff_prover]
    fn survive_alone(&mut self, my_id: usize, dead: usize, now: u64) -> (actions: Vec<
        RobotAction,
    >)
        requires
            old(self).wf(),
            spec_comp_in_bounds(
                old(self).stock_table.stock_table,
                spec_lost_orders(*old(self), dead),
            ),
        ensures
            spec_survivor_post(*old(self), *final(self), my_id, dead, now, actions@),
    {
        self.update_network(dead);
        let mut actions: Vec<RobotAction> = Vec::new();
        actions.push(RobotAction::KillSender);
        actions.push(RobotAction::Reconnect);
        if !self.is_leader(my_id) {
            self.set_new_leader(my_id, my_id);
        }
        let ghost remints = spec_remints(old(self).tokens_table, my_id, now);
        if !self.has_token(IceCreamFlavor::Vanilla) {
            actions.push(RobotAction::SendRing(MessageType::Token(Token {
                sender_id: my_id,
                flavour: IceCreamFlavor::Vanilla,
                last_modified_by_id: my_id,
                last_modification_timestamp: now,
                available_ammount: self.get_flavor_stock(IceCreamFlavor::Vanilla),
            })));
        }
        if !self.has_token(IceCreamFlavor::Chocolate) {
            actions.push(RobotAction::SendRing(MessageType::Token(Token {
                sender_id: my_id,
                flavour: IceCreamFlavor::Chocolate,
                last_modified_by_id: my_id,
                last_modification_timestamp: now,
                available_ammount: self.get_flavor_stock(IceCreamFlavor::Chocolate),
            })));
        }
        if !self.has_token(IceCreamFlavor::Strawberry) {
            actions.push(RobotAction::SendRing(MessageType::Token(Token {
                sender_id: my_id,
                flavour: IceCreamFlavor::Strawberry,
                last_modified_by_id: my_id,
                last_modification_timestamp: now,
                available_ammount: self.get_flavor_stock(IceCreamFlavor::Strawberry),
            })));
        }
        if !self.has_token(IceCreamFlavor::Mint) {
            actions.push(RobotAction::SendRing(MessageType::Token(Token {
                sender_id: my_id,
                flavour: IceCreamFlavor::Mint,
                last_modified_by_id: my_id,
                last_modification_timestamp: now,
                available_ammount: self.get_flavor_stock(IceCreamFlavor::Mint),
            })));
        }
        proof {
            assert(actions@.subrange(2, actions@.len() as int) =~= remints);
        }
        let ghost nr = remints.len() as int;
        let lost_opt = self.get_robot_orders(dead);
        let ghost lost = spec_lost_orders(*old(self), dead);
        self.remove_dead_from_orders_table(dead);
        let ghost base_actions = actions@;
        match lost_opt {
            Some(l) => {
                proof {
                    assert(l.orders@ == lost);
                }
                let mut comp = self.recover_stock_from_lost_orders(&l, now);
                let ghost comp_view = comp@;
                actions.append(&mut comp);
                let ghost mid = *self;
                let ghost before_rd = actions@;
                let mut rd = self.reassign_lost_orders(&l);
                let ghost rd_view = rd@;
                actions.append(&mut rd);
                actions.push(RobotAction::ConnectScreen(true));
                proof {
                    let nc = lost.len() as int;
                    assert(before_rd =~= base_actions + comp_view);
                    assert(actions@ =~= before_rd + rd_view + seq![
                        RobotAction::ConnectScreen(true),
                    ]);
                    assert(actions@.subrange(2, 2 + nr) =~= remints);
                    assert(actions@.subrange(2 + nr, 2 + nr + nc) =~= spec_comp_actions(
                        lost,
                        now,
                    ));
                    assert(actions@.subrange(2 + nr + nc, actions@.len() - 1) =~= rd_view);
                    assert(spec_reassign_rel(
                        mid,
                        *self,
                        lost,
                        actions@.subrange(2 + nr + nc, actions@.len() - 1),
                    ));
                }
            },
            None => {
                let ghost mid = *self;
                actions.push(RobotAction::ConnectScreen(true));
                proof {
                    assert(lost =~= Seq::<AssignedOrder>::empty());
                    assert(actions@ =~= base_actions + seq![RobotAction::ConnectScreen(true)]);
                    assert(actions@.subrange(2, 2 + nr) =~= remints);
                    assert(actions@.subrange(2 + nr, 2 + nr) =~= spec_comp_actions(lost, now));
                    assert(actions@.subrange(2 + nr, actions@.len() - 1)
                        =~= Seq::<RobotAction>::empty());
                    assert(spec_reassign_rel(
                        mid,
                        *self,
                        lost,
                        actions@.subrange(2 + nr, actions@.len() - 1),
                    ));
                }
            },
        }
        actions
    }

    /// The general death handling when more robots survive: announce the
    /// death on the ring, nominate itself exactly when the dead robot was the
    /// leader, splice the ring, and run the full recovery if this robot leads.
    #[verifier::rlimit(100)]
    #[verifier::spinoff_prover]
    fn announce_death(&mut self, my_id: usize, dead: usize, now: u64) -> (actions: Vec<
        RobotAction,
    >)
        requires
            old(self).wf(),
            spec_comp_in_bounds(
                old(self).stock_table.stock_table,
                spec_lost_orders(*old(self), dead),
            ),
        ensures
            spec_announce_post(*old(self), *final(self), my_id, dead, now, actions@),
    {
        let mut actions: Vec<RobotAction> = Vec::new();
        actions.push(RobotAction::SendRing(MessageType::DeadRobot(
            crate::messages::DeadRobot { sender_id: my_id, dead_robot_id: dead },
        )));
        if self.is_leader(dead) {
            actions.push(RobotAction::SendRing(MessageType::Election(
                crate::messages::Election {
                    sender_id: my_id,
                    current_candidate_id: my_id,
                    dead_leader_id: dead,
                },
            )));
        }
        self.update_network(dead);
        if self.is_leader(my_id) {
            let ghost spliced = *self;
            let ghost before = actions@;
            let ghost k = actions@.len() as int;
            let mut rec = self.recover_from_dead_robot(dead, now);
            let ghost rec_view = rec@;
            actions.append(&mut rec);
            proof {
                assert(k == if old(self).leader_id == dead {
                    2int
                } else {
                    1int
                });
                assert(actions@ =~= before + rec_view);
                assert(actions@[0] == before[0]);
                assert(old(self).leader_id == dead ==> actions@[1] == before[1]);
                assert(actions@.skip(k) =~= rec_view);
                assert(spec_recovery_post(spliced, *self, dead, now, actions@.skip(k)));
                lemma_announce_post_leader(
                    *old(self),
                    *self,
                    my_id,
                    dead,
                    now,
                    actions@,
                    spliced,
                );
            }
        } else {
            proof {
                lemma_announce_post_nonleader(*old(self), *self, my_id, dead, now, actions@);
            }
        }
        actions
    }

    /// What a robot does when its ring predecessor dies (a read of zero bytes
    /// or a socket error): with only two robots live, the survivor closes the
    /// ring on itself, takes leadership, re-mints every token it does not
    /// hold from its replicas, settles the dead robot's orders and reopens
    /// the screen bridge; otherwise it announces the death, starts an
    /// election exactly when the dead robot was the leader, splices the ring,
    /// and, if it is itself the leader, runs the full recovery.
    pub fn handle_peer_death(&mut self, my_id: usize, now: u64) -> (actions: Vec<RobotAction>)
        requires
            old(self).wf(),
            forall|r: usize|
                old(self).orders_table.has_robot(r) ==> spec_comp_in_bounds(
                    old(self).stock_table.stock_table,
                    #[trigger] old(self).orders_table.spec_orders_of(r),
                ),
        ensures
            final(self).wf(),
            spec_peer_death_post(*old(self), *final(self), my_id, now, actions@),
    {
        let prev = self.find_prev_robot(my_id);
        match prev {
            None => Vec::new(),
            Some(dead) => {
                if self.is_net_size_2() {
                    self.survive_alone(my_id, dead, now)
                } else {
                    self.announce_death(my_id, dead, now)
                }
            },
        }
    }

    /// One step of the ring receiver: what a robot does with a message read
    /// from its predecessor, as a function from state and message to new
    /// state and actions. Broadcasts are processed locally and forwarded;
    /// leader-only messages are absorbed at the leader; an `Election`
    /// converges on the smallest live id; a winning candidate takes over and
    /// runs the full recovery for the dead leader.
    pub fn handle_ring_message(
        &mut self,
        my_id: usize,
        msg: &MessageType,
        now: u64,
    ) -> (actions: Vec<RobotAction>)
        requires
            old(self).wf(),
            msg matches MessageType::UpdateStock(u) ==> (old(self).leader_id != my_id
                ==> if u.subtract {
                crate::stock_table::spec_can_subtract(
                    old(self).stock_table.stock_table,
                    u.modified_values,
                )
            } else {
                crate::stock_table::spec_can_add(
                    old(self).stock_table.stock_table,
                    u.modified_values,
                )
            }),
            ((msg matches MessageType::Election(e) && e.current_candidate_id == my_id) || (
            msg matches MessageType::DeadRobot(d) && old(self).leader_id == my_id)) ==> forall|
                r: usize,
            |
                old(self).orders_table.has_robot(r) ==> spec_comp_in_bounds(
                    old(self).stock_table.stock_table,
                    #[trigger] old(self).orders_table.spec_orders_of(r),
                ),
        ensures
            final(self).wf(),
            spec_ring_message_post(*old(self), *final(self), my_id, *msg, now, actions@),
    {
        let mut actions: Vec<RobotAction> = Vec::new();
        match msg {
            MessageType::DeadRobot(d) => {
                let dead = d.dead_robot_id;
                if self.is_connected_to_me(dead) {
                    actions.push(RobotAction::KillSender);
                    self.update_network(dead);
                    actions.push(RobotAction::Reconnect);
                } else {
                    self.update_network(dead);
                    actions.push(RobotAction::SendRing(*msg));
                }
                if self.is_leader(my_id) {
                    let ghost pre = *self;
                    let ghost k = actions@.len() as int;
                    let mut rec = self.recover_from_dead_robot(dead, now);
                    let ghost rec_view = rec@;
                    actions.append(&mut rec);
                    proof {
                        assert(actions@.skip(k) =~= rec_view);
                        assert(spec_recovery_post(pre, *self, dead, now, actions@.skip(k)));
                        assert(spec_recovery_from(pre, *self, dead, now, actions@.skip(k)));
                        assert(spec_ring_message_post(
                            *old(self),
                            *self,
                            my_id,
                            *msg,
                            now,
                            actions@,
                        ));
                    }
                } else {
                    proof {
                        assert(spec_ring_message_post(
                            *old(self),
                            *self,
                            my_id,
                            *msg,
                            now,
                            actions@,
                        ));
                    }
                }
            },
            MessageType::Election(e) => {
                if e.current_candidate_id == my_id {
                    self.set_new_leader(my_id, my_id);
                    actions.push(RobotAction::SendRing(MessageType::NewLeader(
                        crate::messages::NewLeader {
                            sender_id: my_id,
                            new_leader_id: my_id,
                            dead_leader_id: e.dead_leader_id,
                        },
                    )));
                    let ghost pre = *self;
                    let mut rec = self.recover_from_dead_robot(e.dead_leader_id, now);
                    let ghost rec_view = rec@;
                    actions.append(&mut rec);
                    actions.push(RobotAction::ConnectScreen(true));
                    proof {
                        assert(actions@.subrange(1, actions@.len() - 1) =~= rec_view);
                        assert(spec_recovery_post(
                            pre,
                            *self,
                            e.dead_leader_id,
                            now,
                            actions@.subrange(1, actions@.len() - 1),
                        ));
                        assert(spec_recovery_from(
                            pre,
                            *self,
                            e.dead_leader_id,
                            now,
                            actions@.subrange(1, actions@.len() - 1),
                        ));
                        assert(spec_ring_message_post(
                            *old(self),
                            *self,
                            my_id,
                            *msg,
                            now,
                            actions@,
                        ));
                    }
                } else if e.current_candidate_id > my_id {
                    actions.push(RobotAction::SendRing(MessageType::Election(
                        crate::messages::Election {
                            sender_id: my_id,
                            current_candidate_id: my_id,
                            dead_leader_id: e.dead_leader_id,
                        },
                    )));
                } else {
                    actions.push(RobotAction::SendRing(*msg));
                }
                proof {
                    assert(spec_ring_message_post(*old(self), *self, my_id, *msg, now, actions@));
                }
            },
            MessageType::PossibleLostToken(t) => {
                if self.is_leader(my_id) {
                    actions.push(RobotAction::SendRing(MessageType::Token(Token {
                        sender_id: my_id,
                        flavour: t.flavor,
                        last_modified_by_id: my_id,
                        last_modification_timestamp: t.timestamp,
                        available_ammount: t.stock,
                    })));
                } else if self.has_token(t.flavor) {
                    actions.push(RobotAction::SendRing(MessageType::TokenFound(t.flavor)));
                } else if self.is_timestamp_greater(t.flavor, t.timestamp) {
                    actions.push(RobotAction::SendRing(MessageType::TokenFound(t.flavor)));
                } else {
                    actions.push(RobotAction::SendRing(*msg));
                }
                proof {
                    assert(spec_ring_message_post(*old(self), *self, my_id, *msg, now, actions@));
                }
            },
            MessageType::TokenFound(_) => {
                if !self.is_leader(my_id) {
                    actions.push(RobotAction::SendRing(*msg));
                }
                proof {
                    assert(spec_ring_message_post(*old(self), *self, my_id, *msg, now, actions@));
                }
            },
            MessageType::NewOrder(od) => {
                if !self.is_leader(my_id) {
                    self.add_new_order(od.target_id, od.order_id, od.order_details);
                    actions.push(RobotAction::SendRing(*msg));
                }
                proof {
                    assert(spec_ring_message_post(*old(self), *self, my_id, *msg, now, actions@));
                }
            },
            MessageType::RemoveRobot(dead_id) => {
                if !self.is_leader(my_id) {
                    self.remove_dead_from_orders_table(*dead_id);
                    actions.push(RobotAction::SendRing(*msg));
                }
                proof {
                    assert(spec_ring_message_post(*old(self), *self, my_id, *msg, now, actions@));
                }
            },
            MessageType::OrderComplete(oc) => {
                if self.is_leader(my_id) {
                    actions.push(RobotAction::SendScreen(MessageType::Commit(
                        crate::messages::Commit { order_id: oc.order_id },
                    )));
                    self.remove_completed_order(oc.robot_id_maker, oc.order_id);
                    actions.push(RobotAction::SendRing(MessageType::OrderDelivered(
                        crate::messages::OrderDelivered {
                            robot_id_maker: oc.robot_id_maker,
                            order_id: oc.order_id,
                        },
                    )));
                } else {
                    actions.push(RobotAction::SendRing(*msg));
                }
                proof {
                    assert(spec_ring_message_post(*old(self), *self, my_id, *msg, now, actions@));
                }
            },
            MessageType::OrderDelivered(od) => {
                if !self.is_leader(my_id) {
                    self.remove_completed_order(od.robot_id_maker, od.order_id);
                    actions.push(RobotAction::SendRing(*msg));
                }
                proof {
                    assert(spec_ring_message_post(*old(self), *self, my_id, *msg, now, actions@));
                }
            },
            MessageType::UpdateStock(u) => {
                if !self.is_leader(my_id) {
                    if u.subtract {
                        self.stock_table.subtract_with_timestamp(&u.modified_values, u.timestamp);
                    } else {
                        self.stock_table.add_with_timestamp(&u.modified_values, u.timestamp);
                    }
                    actions.push(RobotAction::SendRing(*msg));
                }
                proof {
                    assert(spec_ring_message_post(*old(self), *self, my_id, *msg, now, actions@));
                }
            },
            MessageType::NewLeader(d) => {
                if d.new_leader_id != my_id {
                    self.set_new_leader(my_id, d.new_leader_id);
                    actions.push(RobotAction::SendRing(*msg));
                }
                proof {
                    assert(spec_ring_message_post(*old(self), *self, my_id, *msg, now, actions@));
                }
            },
            MessageType::UpdateScreenLeader(id) => {
                if !self.is_leader(my_id) {
                    self.set_screen_leader(*id);
                    actions.push(RobotAction::SendRing(*msg));
                }
                proof {
                    assert(spec_ring_message_post(*old(self), *self, my_id, *msg, now, actions@));
                }
            },
            MessageType::AllConnected(_) => {
                if my_id == 0 {
                    actions.push(RobotAction::Reconnect);
                    let minted = self.initialize_tokens(now);
                    let mut i: usize = 0;
                    while i < minted.len()
                        invariant
                            i <= minted@.len(),
                            minted@.len() == 4,
                            actions@.len() == 1 + i,
                            actions@[0] == RobotAction::Reconnect,
                            forall|j: int| 0 <= j < i ==> #[trigger] actions@[1 + j]
                                == RobotAction::SendRing(minted@[j]),
                            forall|j: int|
                                0 <= j < 4 ==> ((#[trigger] minted@[j]) matches
                                    MessageType::Token(t) && t.sender_id == self.id
                                    && t.last_modified_by_id == self.id && t.available_ammount
                                    == INITIAL_GRAMS_AMOUNT && t.last_modification_timestamp
                                    == now),
                            *self == *old(self),
                        decreases minted@.len() - i,
                    {
                        actions.push(RobotAction::SendRing(minted[i]));
                        i += 1;
                    }
                    proof {
                        assert forall|j: int|
                            1 <= j < 5 implies ((#[trigger] actions@[j]) matches
                            RobotAction::SendRing(MessageType::Token(t)) && t.sender_id == self.id
                            && t.last_modified_by_id == self.id && t.available_ammount
                            == INITIAL_GRAMS_AMOUNT && t.last_modification_timestamp == now) by {
                            assert(actions@[1 + (j - 1)] == RobotAction::SendRing(
                                minted@[j - 1],
                            ));
                            assert(actions@[j] == RobotAction::SendRing(minted@[j - 1]));
                        }
                    }
                } else {
                    actions.push(RobotAction::SendRing(*msg));
                }
                proof {
                    assert(spec_ring_message_post(*old(self), *self, my_id, *msg, now, actions@));
                }
            },
            MessageType::Token(t) => {
                self.set_token_status(t.flavour, true);
                actions.push(RobotAction::DeliverLocalToken(*msg));
                proof {
                    assert(spec_ring_message_post(*old(self), *self, my_id, *msg, now, actions@));
                }
            },
            MessageType::Prepare(p) => {
                if p.target_id == my_id {
                    actions.push(RobotAction::DeliverLocalPrepare(*msg));
                } else {
                    actions.push(RobotAction::SendRing(*msg));
                }
                proof {
                    assert(spec_ring_message_post(*old(self), *self, my_id, *msg, now, actions@));
                }
            },
            _ => {
                proof {
                    assert(spec_ring_message_post(*old(self), *self, my_id, *msg, now, actions@));
                }
            },
        }
        actions
    }

    /// Mints the four initial tokens, one per flavor, each carrying the full
    /// initial stock. Exactly one token per flavor enters the ring.
    pub fn initialize_tokens(&self, now: u64) -> (r: Vec<MessageType>)
        ensures
            r@.len() == 4,
            forall|i: int|
                0 <= i < 4 ==> ((#[trigger] r@[i]) matches MessageType::Token(t) && t.sender_id
                    == self.id && t.last_modified_by_id == self.id && t.available_ammount
                    == INITIAL_GRAMS_AMOUNT && t.last_modification_timestamp == now),
            (r@[0] matches MessageType::Token(t) && t.flavour == IceCreamFlavor::Chocolate),
            (r@[1] matches MessageType::Token(t) && t.flavour == IceCreamFlavor::Vanilla),
            (r@[2] matches MessageType::Token(t) && t.flavour == IceCreamFlavor::Strawberry),
            (r@[3] matches MessageType::Token(t) && t.flavour == IceCreamFlavor::Mint),
    {
        let mut r: Vec<MessageType> = Vec::new();
        r.push(MessageType::Token(Token {
            sender_id: self.id,
            flavour: IceCreamFlavor::Chocolate,
            last_modified_by_id: self.id,
            last_modification_timestamp: now,
            available_ammount: INITIAL_GRAMS_AMOUNT,
        }));
        r.push(MessageType::Token(Token {
            sender_id: self.id,
            flavour: IceCreamFlavor::Vanilla,
            last_modified_by_id: self.id,
            last_modification_timestamp: now,
            available_ammount: INITIAL_GRAMS_AMOUNT,
        }));
        r.push(MessageType::Token(Token {
            sender_id: self.id,
            flavour: IceCreamFlavor::Strawberry,
            last_modified_by_id: self.id,
            last_modification_timestamp: now,
            available_ammount: INITIAL_GRAMS_AMOUNT,
        }));
        r.push(MessageType::Token(Token {
            sender_id: self.id,
            flavour: IceCreamFlavor::Mint,
            last_modified_by_id: self.id,
            last_modification_timestamp: now,
            available_ammount: INITIAL_GRAMS_AMOUNT,
        }));
        r
    }

    /// The leader's probes after a peer death: for every flavor whose token
    /// this leader does not hold, in canonical flavor order, a timestamped
    /// probe carrying the leader's replica stock. A flavor whose token is in
    /// hand needs no probe.
    pub fn recover_lost_tokens(&self, now: u64) -> (r: Vec<MessageType>)
        ensures
            r@ == spec_probes(self.tokens_table, now),
    {
        let mut r: Vec<MessageType> = Vec::new();
        if !self.has_token(IceCreamFlavor::Vanilla) {
            r.push(MessageType::PossibleLostToken(TokenData {
                flavor: IceCreamFlavor::Vanilla,
                timestamp: now,
                stock: self.get_flavor_stock(IceCreamFlavor::Vanilla),
            }));
        }
        if !self.has_token(IceCreamFlavor::Chocolate) {
            r.push(MessageType::PossibleLostToken(TokenData {
                flavor: IceCreamFlavor::Chocolate,
                timestamp: now,
                stock: self.get_flavor_stock(IceCreamFlavor::Chocolate),
            }));
        }
        if !self.has_token(IceCreamFlavor::Strawberry) {
            r.push(MessageType::PossibleLostToken(TokenData {
                flavor: IceCreamFlavor::Strawberry,
                timestamp: now,
                stock: self.get_flavor_stock(IceCreamFlavor::Strawberry),
            }));
        }
        if !self.has_token(IceCreamFlavor::Mint) {
            r.push(MessageType::PossibleLostToken(TokenData {
                flavor: IceCreamFlavor::Mint,
                timestamp: now,
                stock: self.get_flavor_stock(IceCreamFlavor::Mint),
            }));
        }
        assert(r@ =~= spec_probes(self.tokens_table, now));
        r
    }

    /// The leader's dispatch rule for one authorized order. With enough
    /// stock, the stock is speculatively deducted and broadcast, the least
    /// loaded robot gets the order, and the ring learns the assignment before
    /// the addressed `Prepare`; a `Prepare` addressed to the leader itself is
    /// delivered locally. With too little stock, the order is aborted to the
    /// screen leader and nothing changes.
    pub fn handle_order(&mut self, order: &Order, now: u64) -> (actions: Vec<RobotAction>)
        requires
            old(self).wf(),
            spec_can_subtract(old(self).stock_table.stock_table, order.order_details),
        ensures
            final(self).wf(),
            final(self).network == old(self).network,
            final(self).tokens_table == old(self).tokens_table,
            if spec_has_enough(old(self).stock_table.stock_table, order.order_details) {
                &&& forall|f: IceCreamFlavor| #[trigger] final(self).stock_table.stock_table.spec_get(f) == old(self).stock_table.stock_table.spec_get(
                    f,
                ) - order.order_details.spec_get(f)
                &&& actions@.len() == 3
                &&& (actions@[0] matches RobotAction::SendRing(m) && m
                    == MessageType::UpdateStock(
                    UpdateData {
                        modified_values: order.order_details,
                        timestamp: now,
                        subtract: true,
                    },
                ))
                &&& (actions@[1] matches RobotAction::SendRing(
                    MessageType::NewOrder(od),
                ) && {
                    &&& od.order_id == order.order_id
                    &&& od.order_details == order.order_details
                    &&& (old(self).orders_table.entries@.len() == 0 ==> od.target_id == old(self).id)
                    &&& (old(self).orders_table.entries@.len() > 0 ==> old(self).orders_table.has_robot(od.target_id) && (forall|i: int|
                        0 <= i < old(self).orders_table.entries@.len() ==> {
                            let other = #[trigger] old(self).orders_table.entries@[i];
                            old(self).orders_table.spec_orders_of(od.target_id).len()
                                < other.1.orders@.len() || (old(self).orders_table.spec_orders_of(
                                od.target_id,
                            ).len() == other.1.orders@.len() && od.target_id <= other.0)
                        }))
                    &&& final(self).orders_table.has_robot(od.target_id)
                    &&& final(self).orders_table.spec_orders_of(od.target_id) == if old(self).orders_table.has_robot(od.target_id) {
                        old(self).orders_table.spec_orders_of(od.target_id).push(
                            crate::robot_orders_table::Order {
                                order_id: order.order_id,
                                order_details: order.order_details,
                            },
                        )
                    } else {
                        seq![
                            crate::robot_orders_table::Order {
                                order_id: order.order_id,
                                order_details: order.order_details,
                            },
                        ]
                    }
                    &&& (od.target_id != old(self).id ==> (actions@[2] matches
                        RobotAction::SendRing(m2) && m2 == MessageType::Prepare(
                        Prepare {
                            sender_id: old(self).id,
                            target_id: od.target_id,
                            order_id: order.order_id,
                            order_details: order.order_details,
                        },
                    )))
                    &&& (od.target_id == old(self).id ==> (actions@[2] matches
                        RobotAction::DeliverLocalPrepare(m2) && m2 == MessageType::Prepare(
                        Prepare {
                            sender_id: old(self).id,
                            target_id: od.target_id,
                            order_id: order.order_id,
                            order_details: order.order_details,
                        },
                    )))
                })
            } else {
                &&& final(self).stock_table == old(self).stock_table
                &&& final(self).orders_table == old(self).orders_table
                &&& actions@.len() == 1
                &&& (actions@[0] matches RobotAction::SendScreen(m) && m == MessageType::Abort(
                    Abort { order_id: order.order_id },
                ))
            },
    {
        let mut actions: Vec<RobotAction> = Vec::new();
        if self.stock_table.has_enough_stock(&order.order_details) {
            let timestamp = self.stock_table.subtract_stock(&order.order_details, now);
            actions.push(RobotAction::SendRing(MessageType::UpdateStock(UpdateData {
                modified_values: order.order_details,
                timestamp,
                subtract: true,
            })));
            let target = match self.find_target_robot() {
                Some(t) => t,
                None => self.id,
            };
            self.orders_table.add_order_for_robot(target, order.order_id, order.order_details);
            actions.push(RobotAction::SendRing(MessageType::NewOrder(OrderData {
                target_id: target,
                order_id: order.order_id,
                order_details: order.order_details,
            })));
            let prepare = MessageType::Prepare(Prepare {
                sender_id: self.id,
                target_id: target,
                order_id: order.order_id,
                order_details: order.order_details,
            });
            if target != self.id {
                actions.push(RobotAction::SendRing(prepare));
            } else {
                actions.push(RobotAction::DeliverLocalPrepare(prepare));
            }
            actions
        } else {
            actions.push(RobotAction::SendScreen(MessageType::Abort(Abort {
                order_id: order.order_id,
            })));
            actions
        }
    }
}

/// The probes for the flavors whose tokens this table does not hold, in
/// canonical flavor order.
pub open spec fn spec_probes(t: TokensTable, now: u64) -> Seq<MessageType> {
    let a = if !t.vanilla.has_token {
        seq![
            MessageType::PossibleLostToken(
                TokenData { flavor: IceCreamFlavor::Vanilla, timestamp: now, stock: t.vanilla.stock },
            ),
        ]
    } else {
        Seq::empty()
    };
    let b = if !t.chocolate.has_token {
        seq![
            MessageType::PossibleLostToken(
                TokenData {
                    flavor: IceCreamFlavor::Chocolate,
                    timestamp: now,
                    stock: t.chocolate.stock,
                },
            ),
        ]
    } else {
        Seq::empty()
    };
    let c = if !t.strawberry.has_token {
        seq![
            MessageType::PossibleLostToken(
                TokenData {
                    flavor: IceCreamFlavor::Strawberry,
                    timestamp: now,
                    stock: t.strawberry.stock,
                },
            ),
        ]
    } else {
        Seq::empty()
    };
    let d = if !t.mint.has_token {
        seq![
            MessageType::PossibleLostToken(
                TokenData { flavor: IceCreamFlavor::Mint, timestamp: now, stock: t.mint.stock },
            ),
        ]
    } else {
        Seq::empty()
    };
    a + b + c + d
}


/// Whether the list of still-required flavors holds this one.
fn contains_flavor(v: &Vec<IceCreamFlavor>, f: IceCreamFlavor) -> (r: bool)
    ensures
        r == v@.contains(f),
{
    let mut i: usize = 0;
    while i < v.len()
        invariant
            i <= v@.len(),
            forall|j: int| 0 <= j < i ==> v@[j] != f,
        decreases v@.len() - i,
    {
        if v[i] == f {
            assert(v@.contains(f));
            return true;
        }
        i += 1;
    }
    assert(!v@.contains(f));
    false
}

/// Drops every occurrence of one flavor from the required list.
fn retain_other_flavors(v: &mut Vec<IceCreamFlavor>, f: IceCreamFlavor)
    ensures
        final(v)@ == old(v)@.filter(|g: IceCreamFlavor| g != f),
{
    let mut kept: Vec<IceCreamFlavor> = Vec::new();
    let mut i: usize = 0;
    while i < v.len()
        invariant
            i <= v@.len(),
            kept@ == v@.take(i as int).filter(|g: IceCreamFlavor| g != f),
        decreases v@.len() - i,
    {
        let g = v[i];
        proof {
            reveal_with_fuel(Seq::filter, 2);
            assert(v@.take(i + 1).drop_last() =~= v@.take(i as int));
        }
        if g != f {
            kept.push(g);
        }
        i += 1;
    }
    assert(v@.take(v@.len() as int) =~= v@);
    *v = kept;
}


/// The stock per flavor after compensating the first `k` of a dead robot's
/// orders: the first order's deduction is repeated (it was actively consuming
/// tokens when the robot died, so its grams are gone), and every later
/// order's earlier speculative deduction is returned.
pub open spec fn spec_comp_val(
    init: FlavorGrams,
    orders: Seq<AssignedOrder>,
    k: int,
    f: IceCreamFlavor,
) -> int
    decreases k,
{
    if k <= 0 {
        init.spec_get(f)
    } else if k == 1 {
        init.spec_get(f) - orders[0].order_details.spec_get(f)
    } else {
        spec_comp_val(init, orders, k - 1, f) + orders[k - 1].order_details.spec_get(f)
    }
}

/// Every intermediate compensated stock stays within `i32`.
pub open spec fn spec_comp_in_bounds(init: FlavorGrams, orders: Seq<AssignedOrder>) -> bool {
    forall|k: int, f: IceCreamFlavor|
        1 <= k <= orders.len() ==> i32::MIN <= #[trigger] spec_comp_val(init, orders, k, f)
            <= i32::MAX
}

/// The broadcasts the compensation emits: one timestamped stock delta per
/// lost order, a subtraction for the first and an addition for the rest.
pub open spec fn spec_comp_actions(orders: Seq<AssignedOrder>, now: u64) -> Seq<RobotAction> {
    Seq::new(
        orders.len(),
        |i: int|
            RobotAction::SendRing(
                MessageType::UpdateStock(
                    UpdateData {
                        modified_values: orders[i].order_details,
                        timestamp: now,
                        subtract: i == 0,
                    },
                ),
            ),
    )
}


/// How re-dispatching one lost order changes the robot: the stock is left
/// alone; with enough stock the order joins the least-loaded robot's slot
/// and the ring learns the assignment before the addressed `Prepare`, the
/// leader's own target being served locally; otherwise exactly one abort
/// goes to the screen leader and nothing changes.
pub open spec fn spec_reassign_step(
    a: Robot,
    b: Robot,
    order: AssignedOrder,
    acts: Seq<RobotAction>,
) -> bool {
    &&& b.stock_table == a.stock_table
    &&& b.tokens_table == a.tokens_table
    &&& b.network == a.network
    &&& b.leader_id == a.leader_id
    &&& b.is_leader == a.is_leader
    &&& b.id == a.id
    &&& b.screen_leader_id == a.screen_leader_id
    &&& b.orders_table.wf()
    &&& if spec_has_enough(a.stock_table.stock_table, order.order_details) {
        &&& acts.len() == 2
        &&& (acts[0] matches RobotAction::SendRing(MessageType::NewOrder(od)) && {
            &&& od.order_id == order.order_id
            &&& od.order_details == order.order_details
            &&& (a.orders_table.entries@.len() == 0 ==> od.target_id == a.id)
            &&& (a.orders_table.entries@.len() > 0 ==> a.orders_table.has_robot(od.target_id) && (
            forall|i: int|
                0 <= i < a.orders_table.entries@.len() ==> {
                    let other = #[trigger] a.orders_table.entries@[i];
                    a.orders_table.spec_orders_of(od.target_id).len() < other.1.orders@.len() || (
                    a.orders_table.spec_orders_of(od.target_id).len() == other.1.orders@.len()
                        && od.target_id <= other.0)
                }))
            &&& b.orders_table.has_robot(od.target_id)
            &&& b.orders_table.spec_orders_of(od.target_id) == if a.orders_table.has_robot(
                od.target_id,
            ) {
                a.orders_table.spec_orders_of(od.target_id).push(
                    AssignedOrder { order_id: order.order_id, order_details: order.order_details },
                )
            } else {
                seq![
                    AssignedOrder { order_id: order.order_id, order_details: order.order_details },
                ]
            }
            &&& (forall|r: usize| r != od.target_id ==> #[trigger] b.orders_table.has_robot(r)
                == a.orders_table.has_robot(r))
            &&& (forall|r: usize|
                r != od.target_id && a.orders_table.has_robot(r)
                    ==> #[trigger] b.orders_table.spec_orders_of(r)
                    == a.orders_table.spec_orders_of(r))
            &&& (od.target_id != a.id ==> acts[1] == RobotAction::SendRing(
                MessageType::Prepare(
                    Prepare {
                        sender_id: a.id,
                        target_id: od.target_id,
                        order_id: order.order_id,
                        order_details: order.order_details,
                    },
                ),
            ))
            &&& (od.target_id == a.id ==> acts[1] == RobotAction::DeliverLocalPrepare(
                MessageType::Prepare(
                    Prepare {
                        sender_id: a.id,
                        target_id: od.target_id,
                        order_id: order.order_id,
                        order_details: order.order_details,
                    },
                ),
            ))
        })
    } else {
        &&& acts.len() == 1
        &&& acts[0] == RobotAction::SendScreen(
            MessageType::Abort(Abort { order_id: order.order_id }),
        )
        &&& b.orders_table == a.orders_table
    }
}

/// How re-dispatching a whole list of lost orders changes the robot: the
/// steps happen in list order, each from the state the previous one left.
pub open spec fn spec_reassign_rel(
    a: Robot,
    b: Robot,
    orders: Seq<AssignedOrder>,
    actions: Seq<RobotAction>,
) -> bool
    decreases orders.len(),
{
    if orders.len() == 0 {
        b == a && actions.len() == 0
    } else {
        exists|mid: Robot, n: int|
            0 <= n <= actions.len() && #[trigger] spec_reassign_step(
                a,
                mid,
                orders[0],
                actions.take(n),
            ) && spec_reassign_rel(mid, b, orders.drop_first(), actions.skip(n))
    }
}

/// Extending a re-dispatch run by one more order extends the relation.
proof fn lemma_reassign_snoc(
    a: Robot,
    m: Robot,
    b: Robot,
    orders: Seq<AssignedOrder>,
    order: AssignedOrder,
    acts1: Seq<RobotAction>,
    acts2: Seq<RobotAction>,
)
    requires
        spec_reassign_rel(a, m, orders, acts1),
        spec_reassign_step(m, b, order, acts2),
    ensures
        spec_reassign_rel(a, b, orders.push(order), acts1 + acts2),
    decreases orders.len(),
{
    let all = acts1 + acts2;
    let pushed = orders.push(order);
    assert(pushed[0] == if orders.len() == 0 {
        order
    } else {
        orders[0]
    });
    if orders.len() == 0 {
        assert(m == a && acts1.len() == 0);
        let n = acts2.len() as int;
        assert(all.take(n) =~= acts2);
        assert(all.skip(n) =~= Seq::<RobotAction>::empty());
        assert(pushed.drop_first() =~= Seq::<AssignedOrder>::empty());
        assert(spec_reassign_step(a, b, pushed[0], all.take(n)));
        assert(spec_reassign_rel(b, b, pushed.drop_first(), all.skip(n)));
    } else {
        let (mid1, n1) = choose|mid1: Robot, n1: int|
            0 <= n1 <= acts1.len() && #[trigger] spec_reassign_step(
                a,
                mid1,
                orders[0],
                acts1.take(n1),
            ) && spec_reassign_rel(mid1, m, orders.drop_first(), acts1.skip(n1));
        lemma_reassign_snoc(mid1, m, b, orders.drop_first(), order, acts1.skip(n1), acts2);
        assert(all.take(n1) =~= acts1.take(n1));
        assert(all.skip(n1) =~= acts1.skip(n1) + acts2);
        assert(pushed.drop_first() =~= orders.drop_first().push(order));
        assert(spec_reassign_step(a, mid1, pushed[0], all.take(n1)));
        assert(spec_reassign_rel(mid1, b, pushed.drop_first(), all.skip(n1)));
    }
}


/// The orders a dead robot was responsible for, or nothing if it had no slot.
pub open spec fn spec_lost_orders(a: Robot, dead_id: usize) -> Seq<AssignedOrder> {
    if a.orders_table.has_robot(dead_id) {
        a.orders_table.spec_orders_of(dead_id)
    } else {
        Seq::empty()
    }
}

/// What a leader's recovery after a robot death does: first the token probes,
/// then the ring-wide `RemoveRobot`, then the stock compensation broadcasts,
/// then the re-dispatch of the lost orders from the compensated state.
pub open spec fn spec_recovery_post(
    a: Robot,
    b: Robot,
    dead_id: usize,
    now: u64,
    actions: Seq<RobotAction>,
) -> bool {
    let lost = spec_lost_orders(a, dead_id);
    let probes = spec_probes(a.tokens_table, now);
    let np = probes.len() as int;
    let nc = lost.len() as int;
    &&& actions.len() >= np + 1 + nc
    &&& (forall|i: int| 0 <= i < np ==> #[trigger] actions[i] == RobotAction::SendRing(probes[i]))
    &&& actions[np] == RobotAction::SendRing(MessageType::RemoveRobot(dead_id))
    &&& actions.subrange(np + 1, np + 1 + nc) == spec_comp_actions(lost, now)
    &&& exists|mid: Robot|
        #[trigger] spec_reassign_rel(mid, b, lost, actions.skip(np + 1 + nc)) && {
            &&& mid.id == a.id
            &&& mid.is_leader == a.is_leader
            &&& mid.leader_id == a.leader_id
            &&& mid.screen_leader_id == a.screen_leader_id
            &&& mid.network == a.network
            &&& mid.tokens_table == a.tokens_table
            &&& mid.orders_table.wf()
            &&& !mid.orders_table.has_robot(dead_id)
            &&& (forall|r: usize| r != dead_id ==> #[trigger] mid.orders_table.has_robot(r)
                == a.orders_table.has_robot(r))
            &&& (forall|r: usize|
                r != dead_id && a.orders_table.has_robot(r)
                    ==> #[trigger] mid.orders_table.spec_orders_of(r)
                    == a.orders_table.spec_orders_of(r))
            &&& (forall|f: IceCreamFlavor| #[trigger] mid.stock_table.stock_table.spec_get(f)
                == spec_comp_val(a.stock_table.stock_table, lost, nc, f))
        }
}


/// The tokens a lone survivor re-mints: one per flavor it does not hold, in
/// canonical flavor order, each carrying the survivor's replica stock.
pub open spec fn spec_remints(t: TokensTable, my_id: usize, now: u64) -> Seq<RobotAction> {
    let a = if !t.vanilla.has_token {
        seq![
            RobotAction::SendRing(
                MessageType::Token(
                    Token {
                        sender_id: my_id,
                        flavour: IceCreamFlavor::Vanilla,
                        last_modified_by_id: my_id,
                        last_modification_timestamp: now,
                        available_ammount: t.vanilla.stock,
                    },
                ),
            ),
        ]
    } else {
        Seq::empty()
    };
    let b = if !t.chocolate.has_token {
        seq![
            RobotAction::SendRing(
                MessageType::Token(
                    Token {
                        sender_id: my_id,
                        flavour: IceCreamFlavor::Chocolate,
                        last_modified_by_id: my_id,
                        last_modification_timestamp: now,
                        available_ammount: t.chocolate.stock,
                    },
                ),
            ),
        ]
    } else {
        Seq::empty()
    };
    let c = if !t.strawberry.has_token {
        seq![
            RobotAction::SendRing(
                MessageType::Token(
                    Token {
                        sender_id: my_id,
                        flavour: IceCreamFlavor::Strawberry,
                        last_modified_by_id: my_id,
                        last_modification_timestamp: now,
                        available_ammount: t.strawberry.stock,
                    },
                ),
            ),
        ]
    } else {
        Seq::empty()
    };
    let d = if !t.mint.has_token {
        seq![
            RobotAction::SendRing(
                MessageType::Token(
                    Token {
                        sender_id: my_id,
                        flavour: IceCreamFlavor::Mint,
                        last_modified_by_id: my_id,
                        last_modification_timestamp: now,
                        available_ammount: t.mint.stock,
                    },
                ),
            ),
        ]
    } else {
        Seq::empty()
    };
    a + b + c + d
}


/// What the lone survivor's takeover does: leadership taken, ring closed on
/// itself, re-mints for the tokens it lacks, the dead robot's orders settled,
/// and the screen bridge reopened last.
pub open spec fn spec_survivor_post(
    a: Robot,
    b: Robot,
    my_id: usize,
    dead: usize,
    now: u64,
    actions: Seq<RobotAction>,
) -> bool {
    let lost = spec_lost_orders(a, dead);
    let remints = spec_remints(a.tokens_table, my_id, now);
    let nr = remints.len() as int;
    let nc = lost.len() as int;
    &&& b.wf()
    &&& b.id == a.id
    &&& b.screen_leader_id == a.screen_leader_id
    &&& b.tokens_table == a.tokens_table
    &&& b.leader_id == my_id
    &&& (a.network.spec_contains(dead) ==> b.network.nodes@ == a.network.nodes@.remove(
        crate::network::seq_node_index(a.network.nodes@, dead),
    ))
    &&& (!a.network.spec_contains(dead) ==> b.network.nodes@ == a.network.nodes@)
    &&& actions.len() >= 2 + nr + nc + 1
    &&& actions[0] == RobotAction::KillSender
    &&& actions[1] == RobotAction::Reconnect
    &&& actions.subrange(2, 2 + nr) == remints
    &&& actions.subrange(2 + nr, 2 + nr + nc) == spec_comp_actions(lost, now)
    &&& actions.last() == RobotAction::ConnectScreen(true)
    &&& exists|mid: Robot|
        #[trigger] spec_reassign_rel(
            mid,
            b,
            lost,
            actions.subrange(2 + nr + nc, actions.len() - 1),
        ) && {
            &&& mid.id == a.id
            &&& mid.leader_id == my_id
            &&& mid.tokens_table == a.tokens_table
            &&& mid.orders_table.wf()
            &&& !mid.orders_table.has_robot(dead)
            &&& (forall|f: IceCreamFlavor| #[trigger] mid.stock_table.stock_table.spec_get(f)
                == spec_comp_val(a.stock_table.stock_table, lost, nc, f))
        }
}

/// What the general death handling does: the `DeadRobot` broadcast, a
/// self-nomination exactly when the dead robot led, the ring splice, and the
/// full recovery when this robot leads.
pub open spec fn spec_announce_post(
    a: Robot,
    b: Robot,
    my_id: usize,
    dead: usize,
    now: u64,
    actions: Seq<RobotAction>,
) -> bool {
    let k: int = if a.leader_id == dead {
        2
    } else {
        1
    };
    &&& b.wf()
    &&& b.id == a.id
    &&& b.screen_leader_id == a.screen_leader_id
    &&& b.tokens_table == a.tokens_table
    &&& b.leader_id == a.leader_id
    &&& b.is_leader == a.is_leader
    &&& (a.network.spec_contains(dead) ==> b.network.nodes@ == a.network.nodes@.remove(
        crate::network::seq_node_index(a.network.nodes@, dead),
    ))
    &&& (!a.network.spec_contains(dead) ==> b.network.nodes@ == a.network.nodes@)
    &&& actions.len() >= k
    &&& actions[0] == RobotAction::SendRing(
        MessageType::DeadRobot(
            crate::messages::DeadRobot { sender_id: my_id, dead_robot_id: dead },
        ),
    )
    &&& (a.leader_id == dead ==> actions[1] == RobotAction::SendRing(
        MessageType::Election(
            crate::messages::Election {
                sender_id: my_id,
                current_candidate_id: my_id,
                dead_leader_id: dead,
            },
        ),
    ))
    &&& if a.leader_id != my_id {
        &&& actions.len() == k
        &&& b.stock_table == a.stock_table
        &&& b.orders_table == a.orders_table
    } else {
        spec_recovery_from(a, b, dead, now, actions.skip(k))
    }
}

/// The recovery suffix started from some state that differs from `a` only in
/// its ring: the probes, the removal, the compensation and the re-dispatch
/// all act on `a`'s tables and stock.
pub open spec fn spec_recovery_from(
    a: Robot,
    b: Robot,
    dead: usize,
    now: u64,
    rest: Seq<RobotAction>,
) -> bool {
    exists|spliced: Robot|
        {
            &&& spliced.id == a.id
            &&& spliced.is_leader == a.is_leader
            &&& spliced.leader_id == a.leader_id
            &&& spliced.screen_leader_id == a.screen_leader_id
            &&& spliced.tokens_table == a.tokens_table
            &&& spliced.stock_table == a.stock_table
            &&& spliced.orders_table == a.orders_table
            &&& #[trigger] spec_recovery_post(spliced, b, dead, now, rest)
        }
}

/// What handling a predecessor death does: nothing when this robot is not in
/// the ring; the lone-survivor takeover when only two robots were live; the
/// announce-and-recover path otherwise. The dead robot is this robot's ring
/// predecessor.
pub open spec fn spec_peer_death_post(
    a: Robot,
    b: Robot,
    my_id: usize,
    now: u64,
    actions: Seq<RobotAction>,
) -> bool {
    &&& (!a.network.spec_contains(my_id) ==> actions.len() == 0 && b == a)
    &&& (a.network.spec_contains(my_id) ==> ({
        let dead = a.network.spec_predecessor(my_id);
        if a.network.nodes@.len() == 2 {
            spec_survivor_post(a, b, my_id, dead, now, actions)
        } else {
            spec_announce_post(a, b, my_id, dead, now, actions)
        }
    }))
}


/// Assembles the announce-path postcondition for a leader, from its pieces.
proof fn lemma_announce_post_leader(
    a: Robot,
    b: Robot,
    my_id: usize,
    dead: usize,
    now: u64,
    actions: Seq<RobotAction>,
    spliced: Robot,
)
    requires
        a.leader_id == my_id,
        b.wf(),
        b.id == a.id,
        b.screen_leader_id == a.screen_leader_id,
        b.tokens_table == a.tokens_table,
        b.leader_id == a.leader_id,
        b.is_leader == a.is_leader,
        a.network.spec_contains(dead) ==> b.network.nodes@ == a.network.nodes@.remove(
            crate::network::seq_node_index(a.network.nodes@, dead),
        ),
        !a.network.spec_contains(dead) ==> b.network.nodes@ == a.network.nodes@,
        actions.len() >= if a.leader_id == dead {
            2int
        } else {
            1int
        },
        actions[0] == RobotAction::SendRing(
            MessageType::DeadRobot(
                crate::messages::DeadRobot { sender_id: my_id, dead_robot_id: dead },
            ),
        ),
        a.leader_id == dead ==> actions[1] == RobotAction::SendRing(
            MessageType::Election(
                crate::messages::Election {
                    sender_id: my_id,
                    current_candidate_id: my_id,
                    dead_leader_id: dead,
                },
            ),
        ),
        spliced.id == a.id,
        spliced.is_leader == a.is_leader,
        spliced.leader_id == a.leader_id,
        spliced.screen_leader_id == a.screen_leader_id,
        spliced.tokens_table == a.tokens_table,
        spliced.stock_table == a.stock_table,
        spliced.orders_table == a.orders_table,
        spec_recovery_post(
            spliced,
            b,
            dead,
            now,
            actions.skip(
                if a.leader_id == dead {
                    2int
                } else {
                    1int
                },
            ),
        ),
    ensures
        spec_announce_post(a, b, my_id, dead, now, actions),
{
    let k: int = if a.leader_id == dead {
        2
    } else {
        1
    };
    assert(spec_recovery_post(spliced, b, dead, now, actions.skip(k)));
    assert(spec_recovery_from(a, b, dead, now, actions.skip(k)));
}

/// Assembles the announce-path postcondition for a non-leader, from its
/// pieces.
proof fn lemma_announce_post_nonleader(
    a: Robot,
    b: Robot,
    my_id: usize,
    dead: usize,
    now: u64,
    actions: Seq<RobotAction>,
)
    requires
        a.leader_id != my_id,
        b.wf(),
        b.id == a.id,
        b.screen_leader_id == a.screen_leader_id,
        b.tokens_table == a.tokens_table,
        b.leader_id == a.leader_id,
        b.is_leader == a.is_leader,
        b.stock_table == a.stock_table,
        b.orders_table == a.orders_table,
        a.network.spec_contains(dead) ==> b.network.nodes@ == a.network.nodes@.remove(
            crate::network::seq_node_index(a.network.nodes@, dead),
        ),
        !a.network.spec_contains(dead) ==> b.network.nodes@ == a.network.nodes@,
        actions.len() == if a.leader_id == dead {
            2int
        } else {
            1int
        },
        actions[0] == RobotAction::SendRing(
            MessageType::DeadRobot(
                crate::messages::DeadRobot { sender_id: my_id, dead_robot_id: dead },
            ),
        ),
        a.leader_id == dead ==> actions[1] == RobotAction::SendRing(
            MessageType::Election(
                crate::messages::Election {
                    sender_id: my_id,
                    current_candidate_id: my_id,
                    dead_leader_id: dead,
                },
            ),
        ),
    ensures
        spec_announce_post(a, b, my_id, dead, now, actions),
{
}


/// What one ring-receiver step does, by message kind. Messages that are not
/// part of the ring protocol at this point — orders, introductions and local
/// sentinels — are dropped without effect.
pub open spec fn spec_ring_message_post(
    a: Robot,
    b: Robot,
    my_id: usize,
    msg: MessageType,
    now: u64,
    actions: Seq<RobotAction>,
) -> bool {
    &&& b.wf()
    &&& b.id == a.id
    &&& match msg {
        MessageType::DeadRobot(d) => spec_dead_robot_post(a, b, my_id, d.dead_robot_id, now, actions, msg),
        MessageType::Election(e) => {
            if e.current_candidate_id == my_id {
                &&& b.leader_id == my_id
                &&& actions.len() >= 2
                &&& actions[0] == RobotAction::SendRing(
                    MessageType::NewLeader(
                        crate::messages::NewLeader {
                            sender_id: my_id,
                            new_leader_id: my_id,
                            dead_leader_id: e.dead_leader_id,
                        },
                    ),
                )
                &&& actions.last() == RobotAction::ConnectScreen(true)
                &&& spec_recovery_from(
                    Robot { leader_id: my_id, is_leader: true, ..a },
                    b,
                    e.dead_leader_id,
                    now,
                    actions.subrange(1, actions.len() - 1),
                )
            } else if e.current_candidate_id > my_id {
                &&& b == a
                &&& actions.len() == 1
                &&& actions[0] == RobotAction::SendRing(
                    MessageType::Election(
                        crate::messages::Election {
                            sender_id: my_id,
                            current_candidate_id: my_id,
                            dead_leader_id: e.dead_leader_id,
                        },
                    ),
                )
            } else {
                &&& b == a
                &&& actions.len() == 1
                &&& actions[0] == RobotAction::SendRing(msg)
            }
        },
        MessageType::PossibleLostToken(t) => {
            &&& b == a
            &&& actions.len() == 1
            &&& if a.leader_id == my_id {
                actions[0] == RobotAction::SendRing(
                    MessageType::Token(
                        Token {
                            sender_id: my_id,
                            flavour: t.flavor,
                            last_modified_by_id: my_id,
                            last_modification_timestamp: t.timestamp,
                            available_ammount: t.stock,
                        },
                    ),
                )
            } else if a.tokens_table.spec_get(t.flavor).has_token || a.tokens_table.spec_get(
                t.flavor,
            ).last_modification_timestamp > t.timestamp {
                actions[0] == RobotAction::SendRing(MessageType::TokenFound(t.flavor))
            } else {
                actions[0] == RobotAction::SendRing(msg)
            }
        },
        MessageType::TokenFound(_) => {
            &&& b == a
            &&& if a.leader_id == my_id {
                actions.len() == 0
            } else {
                actions.len() == 1 && actions[0] == RobotAction::SendRing(msg)
            }
        },
        MessageType::NewOrder(od) => {
            if a.leader_id == my_id {
                &&& b == a
                &&& actions.len() == 0
            } else {
                &&& actions.len() == 1
                &&& actions[0] == RobotAction::SendRing(msg)
                &&& b.stock_table == a.stock_table
                &&& b.tokens_table == a.tokens_table
                &&& b.network == a.network
                &&& b.leader_id == a.leader_id
                &&& b.orders_table.has_robot(od.target_id)
                &&& b.orders_table.spec_orders_of(od.target_id) == if a.orders_table.has_robot(
                    od.target_id,
                ) {
                    a.orders_table.spec_orders_of(od.target_id).push(
                        AssignedOrder { order_id: od.order_id, order_details: od.order_details },
                    )
                } else {
                    seq![
                        AssignedOrder { order_id: od.order_id, order_details: od.order_details },
                    ]
                }
                &&& (forall|r: usize| r != od.target_id ==> #[trigger] b.orders_table.has_robot(r)
                    == a.orders_table.has_robot(r))
                &&& (forall|r: usize|
                    r != od.target_id && a.orders_table.has_robot(r)
                        ==> #[trigger] b.orders_table.spec_orders_of(r)
                        == a.orders_table.spec_orders_of(r))
            }
        },
        MessageType::RemoveRobot(dead_id) => {
            if a.leader_id == my_id {
                &&& b == a
                &&& actions.len() == 0
            } else {
                &&& actions.len() == 1
                &&& actions[0] == RobotAction::SendRing(msg)
                &&& b.stock_table == a.stock_table
                &&& b.tokens_table == a.tokens_table
                &&& b.network == a.network
                &&& b.leader_id == a.leader_id
                &&& !b.orders_table.has_robot(dead_id)
                &&& (forall|r: usize| r != dead_id ==> #[trigger] b.orders_table.has_robot(r)
                    == a.orders_table.has_robot(r))
                &&& (forall|r: usize|
                    r != dead_id && a.orders_table.has_robot(r)
                        ==> #[trigger] b.orders_table.spec_orders_of(r)
                        == a.orders_table.spec_orders_of(r))
            }
        },
        MessageType::OrderComplete(oc) => {
            if a.leader_id == my_id {
                &&& actions.len() == 2
                &&& actions[0] == RobotAction::SendScreen(
                    MessageType::Commit(crate::messages::Commit { order_id: oc.order_id }),
                )
                &&& actions[1] == RobotAction::SendRing(
                    MessageType::OrderDelivered(
                        crate::messages::OrderDelivered {
                            robot_id_maker: oc.robot_id_maker,
                            order_id: oc.order_id,
                        },
                    ),
                )
                &&& b.stock_table == a.stock_table
                &&& b.tokens_table == a.tokens_table
                &&& b.network == a.network
                &&& b.leader_id == a.leader_id
                &&& (forall|r: usize| #[trigger] b.orders_table.has_robot(r)
                    == a.orders_table.has_robot(r))
                &&& (a.orders_table.has_robot(oc.robot_id_maker) ==> b.orders_table.spec_orders_of(
                    oc.robot_id_maker,
                ) == a.orders_table.spec_orders_of(oc.robot_id_maker).filter(
                    |o: AssignedOrder| o.order_id != oc.order_id,
                ))
                &&& (forall|r: usize|
                    r != oc.robot_id_maker && a.orders_table.has_robot(r)
                        ==> #[trigger] b.orders_table.spec_orders_of(r)
                        == a.orders_table.spec_orders_of(r))
            } else {
                &&& b == a
                &&& actions.len() == 1
                &&& actions[0] == RobotAction::SendRing(msg)
            }
        },
        MessageType::OrderDelivered(od) => {
            if a.leader_id == my_id {
                &&& b == a
                &&& actions.len() == 0
            } else {
                &&& actions.len() == 1
                &&& actions[0] == RobotAction::SendRing(msg)
                &&& b.stock_table == a.stock_table
                &&& b.tokens_table == a.tokens_table
                &&& b.network == a.network
                &&& b.leader_id == a.leader_id
                &&& (forall|r: usize| #[trigger] b.orders_table.has_robot(r)
                    == a.orders_table.has_robot(r))
                &&& (a.orders_table.has_robot(od.robot_id_maker) ==> b.orders_table.spec_orders_of(
                    od.robot_id_maker,
                ) == a.orders_table.spec_orders_of(od.robot_id_maker).filter(
                    |o: AssignedOrder| o.order_id != od.order_id,
                ))
                &&& (forall|r: usize|
                    r != od.robot_id_maker && a.orders_table.has_robot(r)
                        ==> #[trigger] b.orders_table.spec_orders_of(r)
                        == a.orders_table.spec_orders_of(r))
            }
        },
        MessageType::UpdateStock(u) => {
            if a.leader_id == my_id {
                &&& b == a
                &&& actions.len() == 0
            } else {
                &&& actions.len() == 1
                &&& actions[0] == RobotAction::SendRing(msg)
                &&& b.orders_table == a.orders_table
                &&& b.tokens_table == a.tokens_table
                &&& b.network == a.network
                &&& b.leader_id == a.leader_id
                &&& (forall|f: IceCreamFlavor| #[trigger] b.stock_table.stock_table.spec_get(f)
                    == if u.subtract {
                    a.stock_table.stock_table.spec_get(f) - u.modified_values.spec_get(f)
                } else {
                    a.stock_table.stock_table.spec_get(f) + u.modified_values.spec_get(f)
                })
                &&& b.stock_table.last_modification_timestamp == u.timestamp
            }
        },
        MessageType::NewLeader(d) => {
            if d.new_leader_id != my_id {
                &&& actions.len() == 1
                &&& actions[0] == RobotAction::SendRing(msg)
                &&& b.leader_id == d.new_leader_id
                &&& b.is_leader == (a.is_leader || my_id == d.new_leader_id)
                &&& b.stock_table == a.stock_table
                &&& b.tokens_table == a.tokens_table
                &&& b.network == a.network
                &&& b.orders_table == a.orders_table
            } else {
                &&& b == a
                &&& actions.len() == 0
            }
        },
        MessageType::UpdateScreenLeader(id) => {
            if a.leader_id == my_id {
                &&& b == a
                &&& actions.len() == 0
            } else {
                &&& actions.len() == 1
                &&& actions[0] == RobotAction::SendRing(msg)
                &&& b.screen_leader_id == id
                &&& b.stock_table == a.stock_table
                &&& b.tokens_table == a.tokens_table
                &&& b.network == a.network
                &&& b.orders_table == a.orders_table
                &&& b.leader_id == a.leader_id
            }
        },
        MessageType::AllConnected(_) => {
            &&& b == a
            &&& if my_id == 0 {
                &&& actions.len() == 5
                &&& actions[0] == RobotAction::Reconnect
                &&& (forall|j: int|
                    1 <= j < 5 ==> ((#[trigger] actions[j]) matches RobotAction::SendRing(
                        MessageType::Token(t),
                    ) && t.sender_id == a.id && t.last_modified_by_id == a.id
                        && t.available_ammount == INITIAL_GRAMS_AMOUNT
                        && t.last_modification_timestamp == now))
            } else {
                actions.len() == 1 && actions[0] == RobotAction::SendRing(msg)
            }
        },
        MessageType::Token(t) => {
            &&& actions.len() == 1
            &&& actions[0] == RobotAction::DeliverLocalToken(msg)
            &&& b.tokens_table.spec_get(t.flavour).has_token
            &&& b.tokens_table.spec_get(t.flavour).stock == a.tokens_table.spec_get(
                t.flavour,
            ).stock
            &&& (forall|g: IceCreamFlavor| g != t.flavour ==> #[trigger] b.tokens_table.spec_get(g)
                == a.tokens_table.spec_get(g))
            &&& b.stock_table == a.stock_table
            &&& b.orders_table == a.orders_table
            &&& b.network == a.network
            &&& b.leader_id == a.leader_id
        },
        MessageType::Prepare(p) => {
            &&& b == a
            &&& actions.len() == 1
            &&& if p.target_id == my_id {
                actions[0] == RobotAction::DeliverLocalPrepare(msg)
            } else {
                actions[0] == RobotAction::SendRing(msg)
            }
        },
        _ => b == a && actions.len() == 0,
    }
}

/// What handling a `DeadRobot` broadcast does: repair the ring — replacing
/// the sender link when the dead robot was this robot's successor, otherwise
/// forwarding the broadcast — and, at the leader, run the full recovery.
pub open spec fn spec_dead_robot_post(
    a: Robot,
    b: Robot,
    my_id: usize,
    dead: usize,
    now: u64,
    actions: Seq<RobotAction>,
    msg: MessageType,
) -> bool {
    let connected = a.network.spec_contains(a.id) && a.network.spec_successor(a.id) == dead;
    let k: int = if connected {
        2
    } else {
        1
    };
    &&& (a.network.spec_contains(dead) ==> b.network.nodes@ == a.network.nodes@.remove(
        crate::network::seq_node_index(a.network.nodes@, dead),
    ))
    &&& (!a.network.spec_contains(dead) ==> b.network.nodes@ == a.network.nodes@)
    &&& b.tokens_table == a.tokens_table
    &&& b.leader_id == a.leader_id
    &&& b.screen_leader_id == a.screen_leader_id
    &&& actions.len() >= k
    &&& (connected ==> actions[0] == RobotAction::KillSender && actions[1]
        == RobotAction::Reconnect)
    &&& (!connected ==> actions[0] == RobotAction::SendRing(msg))
    &&& if a.leader_id != my_id {
        &&& actions.len() == k
        &&& b.stock_table == a.stock_table
        &&& b.orders_table == a.orders_table
    } else {
        spec_recovery_from(a, b, dead, now, actions.skip(k))
    }
}

} // verus!


