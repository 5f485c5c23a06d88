use heladeria::flavors::{default_flavors, FlavorGrams, IceCreamFlavor};
use heladeria::gateway::{Gateway, GatewayResponse, LogKind, render_log_entry, render_response};
use heladeria::messages::{
    deserialize_message, serialize_message, Abort, Commit, FrameBuffer, MessageType, Order,
    OrderScreen, Prepare, Token, UpdateData,
};
use heladeria::network::Ring;
use heladeria::order_table::OrderTable;
use heladeria::robot::{Robot, RobotAction};
use heladeria::robot_orders_table::{OrdersList, OrdersTable};
use heladeria::screen::Screen;
use heladeria::screen_orders::{
    order_details_of, parse_gateway_reply, validate_flavours, Flavor, Order as FileOrder,
};
use heladeria::stock_table::Stock;
use heladeria::text::{parse_u32, str_eq, u64_to_string};
use heladeria::INITIAL_GRAMS_AMOUNT;

fn grams(v: i32, c: i32, s: i32, m: i32) -> FlavorGrams {
    FlavorGrams { vanilla: v, chocolate: c, strawberry: s, mint: m }
}

#[test]
fn text_helpers() {
    assert_eq!(u64_to_string(0), "0");
    assert_eq!(u64_to_string(12345), "12345");
    assert_eq!(parse_u32("0"), Some(0));
    assert_eq!(parse_u32("4294967295"), Some(u32::MAX));
    assert_eq!(parse_u32("4294967296"), None);
    assert_eq!(parse_u32(""), None);
    assert_eq!(parse_u32("12a"), None);
    assert!(str_eq("COMMIT", "COMMIT"));
    assert!(!str_eq("COMMIT", "ABORT"));
}

#[test]
fn flavor_vocabulary() {
    let all = IceCreamFlavor::iter();
    assert_eq!(all.len(), 4);
    assert_eq!(default_flavors().len(), 4);
    assert_eq!(IceCreamFlavor::from_name("Mint"), Some(IceCreamFlavor::Mint));
    assert_eq!(IceCreamFlavor::from_name("Vanilla"), Some(IceCreamFlavor::Vanilla));
    assert_eq!(IceCreamFlavor::from_name("Banana Split"), None);
    assert_eq!(IceCreamFlavor::Strawberry.name(), "Strawberry");
}

#[test]
fn invalid_flavor_is_discarded() {
    // An order naming an unknown flavor is rejected before authorization, so
    // nothing of it ever reaches the gateway log.
    let bad = FileOrder {
        flavors: vec![Flavor { name: "Banana Split".to_string(), grams: 100 }],
    };
    assert!(!validate_flavours(&bad));
    let good = FileOrder {
        flavors: vec![
            Flavor { name: "Mint".to_string(), grams: 100 },
            Flavor { name: "Vanilla".to_string(), grams: 150 },
        ],
    };
    assert!(validate_flavours(&good));
    assert_eq!(good.to_string(), "Mint,100g;Vanilla,150g;");
}

#[test]
fn stock_accounting() {
    let mut stock = Stock::new(7);
    assert_eq!(stock.stock_table.get(IceCreamFlavor::Mint), INITIAL_GRAMS_AMOUNT);
    // The over-stock request cannot be satisfied.
    assert!(!stock.has_enough_stock(&grams(0, 0, 0, 10001)));
    assert!(stock.has_enough_stock(&grams(0, 0, 0, 10000)));
    let ts = stock.subtract_stock(&grams(100, 0, 0, 200), 9);
    assert_eq!(ts, 9);
    assert_eq!(stock.stock_table.get(IceCreamFlavor::Vanilla), INITIAL_GRAMS_AMOUNT - 100);
    assert_eq!(stock.stock_table.get(IceCreamFlavor::Mint), INITIAL_GRAMS_AMOUNT - 200);
    stock.add_with_timestamp(&grams(100, 0, 0, 0), 11);
    assert_eq!(stock.stock_table.get(IceCreamFlavor::Vanilla), INITIAL_GRAMS_AMOUNT);
    assert_eq!(stock.last_modification_timestamp, 11);
}

#[test]
fn orders_table_least_loaded() {
    let mut table = OrdersTable::new();
    table.initialize(3);
    table.add_order_for_robot(0, 1, grams(0, 0, 0, 100));
    table.add_order_for_robot(1, 2, grams(0, 0, 0, 100));
    // Robot 2 has no orders, so it is the least loaded.
    assert_eq!(table.robot_with_least_orders(), Some(2));
    table.add_order_for_robot(2, 3, grams(0, 0, 0, 100));
    // All tied: the smallest id wins.
    assert_eq!(table.robot_with_least_orders(), Some(0));
    table.remove_order_for_robot(1, 2);
    assert_eq!(table.robot_with_least_orders(), Some(1));
    let lost = table.get_robot_orders(0).unwrap();
    assert_eq!(lost.orders.len(), 1);
    assert_eq!(lost.orders[0].order_id, 1);
    table.remove_robot(0);
    assert!(table.get_robot_orders(0).is_none());
}

#[test]
fn screen_order_table_transfer() {
    let mut table = OrderTable::new();
    table.add_order(0, 1, grams(0, 0, 0, 100));
    table.add_order(0, 2, grams(100, 0, 0, 0));
    table.add_order(1, 3, grams(0, 200, 0, 0));
    // Screen 0 dies; its orders move to screen 2.
    let changed = table.transfer_orders(0, 2);
    assert_eq!(changed, vec![1, 2]);
    let (owner, _) = table.remove_order(1).unwrap();
    assert_eq!(owner, 2);
    let (owner3, _) = table.remove_order(3).unwrap();
    assert_eq!(owner3, 1);
    assert!(table.remove_order(99).is_none());
}

#[test]
fn ring_is_a_single_cycle() {
    let ring = Ring::initialize(3);
    // Node i sends to i - 1, and node 0 wraps to the last node.
    assert_eq!(ring.successor_of(0), Some(2));
    assert_eq!(ring.successor_of(2), Some(1));
    assert_eq!(ring.successor_of(1), Some(0));
    assert_eq!(ring.predecessor_of(2), Some(0));
    let mut ring = ring;
    ring.remove(2);
    // The dead node is spliced out; the cycle closes over the survivors.
    assert_eq!(ring.successor_of(0), Some(1));
    assert_eq!(ring.successor_of(1), Some(0));
    assert_eq!(ring.successor_of(2), None);
    assert_eq!(ring.len(), 2);
}

#[test]
fn codec_round_trips_every_shape() {
    let samples = vec![
        MessageType::Token(Token {
            sender_id: 3,
            flavour: IceCreamFlavor::Mint,
            last_modified_by_id: 1,
            last_modification_timestamp: 123456789,
            available_ammount: 9800,
        }),
        MessageType::Prepare(Prepare {
            sender_id: 0,
            target_id: 2,
            order_id: 7,
            order_details: grams(100, 0, 0, 150),
        }),
        MessageType::OrderScreen(OrderScreen {
            sender_id: 1,
            order_id: 4,
            order_details: grams(0, 150, 0, 200),
        }),
        MessageType::Order(Order { order_id: 9, order_details: grams(1, 2, 3, 4) }),
        MessageType::UpdateStock(UpdateData {
            modified_values: grams(0, 0, 0, -50),
            timestamp: 42,
            subtract: true,
        }),
        MessageType::Commit(Commit { order_id: 5 }),
        MessageType::Abort(Abort { order_id: 6 }),
        MessageType::TokenFound(IceCreamFlavor::Chocolate),
        MessageType::Kill(),
        MessageType::RemoveRobot(8),
    ];
    for m in samples {
        let wire = serialize_message(&m);
        let mut framer = FrameBuffer::new();
        framer.push_chunk(&wire);
        let body = framer.pop_frame().expect("complete frame");
        assert_eq!(deserialize_message(&body), Some(m));
        assert!(framer.pop_frame().is_none());
    }
}

#[test]
fn framing_survives_partial_and_concatenated_reads() {
    let a = MessageType::Commit(Commit { order_id: 1 });
    let b = MessageType::TokenFound(IceCreamFlavor::Vanilla);
    let mut wire = serialize_message(&a);
    wire.extend(serialize_message(&b));
    let mut framer = FrameBuffer::new();
    // Deliver the two records in three arbitrary chunks.
    let (first, rest) = wire.split_at(5);
    let (second, third) = rest.split_at(3);
    framer.push_chunk(first);
    framer.push_chunk(second);
    framer.push_chunk(third);
    let body_a = framer.pop_frame().expect("first frame");
    assert_eq!(deserialize_message(&body_a), Some(a));
    let body_b = framer.pop_frame().expect("second frame");
    assert_eq!(deserialize_message(&body_b), Some(b));
    assert!(framer.pop_frame().is_none());
}

#[test]
fn deserialize_rejects_malformed_bodies() {
    assert_eq!(deserialize_message(&vec![]), None);
    assert_eq!(deserialize_message(&vec![200]), None);
    // A Commit body truncated to 5 bytes.
    assert_eq!(deserialize_message(&vec![19, 1, 0, 0, 0]), None);
}

#[test]
fn happy_path_log() {
    // Two authorized orders, both committed: the log pairs every PREPARE
    // with exactly one COMMIT and the ids are dense from 1.
    let mut g = Gateway::new(0);
    let r1 = g.handle_prepare("Mint,100g;Vanilla,150g;".to_string(), 50);
    assert!(matches!(r1, GatewayResponse::CommitId(1)));
    let r2 = g.handle_prepare("Mint,200g;Vanilla,150g;Chocolate,150g;".to_string(), 0);
    assert!(matches!(r2, GatewayResponse::CommitId(2)));
    assert_eq!(g.current_order_id, 3);
    assert!(g.handle_commit("1").is_none());
    assert!(g.handle_commit("2").is_none());
    assert_eq!(g.log.len(), 4);
    assert_eq!(render_log_entry(&g.log[0]), "PREPARE,1,Mint,100g;Vanilla,150g;");
    assert_eq!(render_log_entry(&g.log[1]), "PREPARE,2,Mint,200g;Vanilla,150g;Chocolate,150g;");
    assert_eq!(render_log_entry(&g.log[2]), "COMMIT,1,Mint,100g;Vanilla,150g;");
    assert_eq!(render_log_entry(&g.log[3]), "COMMIT,2,Mint,200g;Vanilla,150g;Chocolate,150g;");
    assert!(g.orders_table.is_empty());
    // A second COMMIT for the same id is silently dropped: never two
    // resolutions for one order.
    assert!(g.handle_commit("1").is_none());
    assert_eq!(g.log.len(), 4);
}

#[test]
fn full_rejection_leaves_log_empty() {
    let mut g = Gateway::new(100);
    let responses = g.process_message_text("PREPARE,Mint,100g;\nPREPARE,Vanilla,150g;");
    for r in &responses {
        assert_eq!(r, "ABORT\n");
    }
    assert!(g.log.is_empty());
    assert!(g.orders_table.is_empty());
}

#[test]
fn over_stock_order_is_aborted() {
    // The gateway authorizes the order, the robot leader finds the stock
    // short and aborts it, and the gateway logs the ABORT.
    let stock = Stock::new(0);
    let details = grams(0, 0, 0, 10001);
    assert!(!stock.has_enough_stock(&details));
    let mut g = Gateway::new(0);
    let r = g.handle_prepare("Mint,10001g;".to_string(), 10);
    assert!(matches!(r, GatewayResponse::CommitId(1)));
    assert!(g.handle_abort("1").is_none());
    assert_eq!(g.log.len(), 2);
    assert_eq!(render_log_entry(&g.log[0]), "PREPARE,1,Mint,10001g;");
    assert_eq!(render_log_entry(&g.log[1]), "ABORT,1,Mint,10001g;");
}

#[test]
fn gateway_command_protocol() {
    let mut g = Gateway::new(0);
    let responses = g.process_message_text("PREPARE,Mint,100g;,ORDERS");
    assert_eq!(responses.len(), 2);
    assert_eq!(responses[0], "COMMIT,1\n");
    assert_eq!(responses[1], "ORDERS,1:Mint,100g;\n");
    let bad = g.process_message_text("COMMIT,zzz");
    assert_eq!(bad, vec!["Invalid order ID\n".to_string()]);
    let unknown = g.process_message_text("HELLO");
    assert_eq!(unknown, vec!["Unknown command\n".to_string()]);
    assert_eq!(render_response(&GatewayResponse::Rejected), "ABORT\n");
    assert_eq!(g.log.len(), 1);
    assert_eq!(g.log[0].kind, LogKind::Prepare);
}

#[test]
fn screen_leader_death_recovery() {
    // Three screens; leader 0 dies. Its ring neighbor detects the death,
    // inherits its orders, splices the ring, and starts an election that the
    // smallest surviving id wins.
    let mut s1 = Screen::new(1, 3, "orders.json".to_string());
    s1.initialize_network();
    // Screen 1 reads from screen 2 and writes to screen 0.
    assert_eq!(s1.find_next_id(), Some(0));
    assert_eq!(s1.find_prev_screen(1), Some(2));
    // An order originated at screen 0 is on the books.
    let m = s1.apply_order(&OrderScreen { sender_id: 0, order_id: 1, order_details: grams(0, 0, 0, 100) });
    assert!(m.is_none());
    // Screen 0 dies: transfer its orders to screen 1 and repair the ring.
    let moved = s1.transfer_orders(0, 1);
    assert_eq!(moved, vec![1]);
    s1.update_network(0);
    assert_eq!(s1.find_next_id(), Some(2));
    assert!(s1.is_leader(0));
    let election = s1.send_leader_election_message(1, 0);
    match election {
        MessageType::Election(e) => {
            assert_eq!(e.current_candidate_id, 1);
            assert_eq!(e.dead_leader_id, 0);
        },
        _ => panic!("expected an election message"),
    }
    // The election comes back around: screen 1 is the new leader.
    s1.set_new_leader(1, 1);
    assert!(s1.i_am_leader());
    // The transferred order now resolves at its new owner.
    let (msg, details) = s1.commit_order(&Commit { order_id: 1 });
    assert!(matches!(msg, Some(MessageType::Commit(_))));
    assert_eq!(details, Some(grams(0, 0, 0, 100)));
}

#[test]
fn screen_routes_orders() {
    let mut s0 = Screen::new(0, 2, "orders.json".to_string());
    s0.initialize_network();
    assert!(s0.i_am_leader());
    let m = s0.apply_order(&OrderScreen { sender_id: 0, order_id: 1, order_details: grams(0, 0, 0, 100) });
    match m {
        Some(MessageType::Order(o)) => assert_eq!(o.order_id, 1),
        _ => panic!("the leader forwards orders to the robot leader"),
    }
    // An abort for an order another screen originated is dropped locally.
    let mut s0b = Screen::new(0, 2, "orders.json".to_string());
    s0b.initialize_network();
    s0b.apply_order(&OrderScreen { sender_id: 1, order_id: 2, order_details: grams(5, 0, 0, 0) });
    let (msg, details) = s0b.abort_order(&Abort { order_id: 2 });
    assert!(msg.is_none());
    assert_eq!(details, Some(grams(5, 0, 0, 0)));
    // An abort for an unknown order does nothing.
    let (msg2, details2) = s0b.abort_order(&Abort { order_id: 9 });
    assert!(msg2.is_none());
    assert!(details2.is_none());
}

#[test]
fn robot_leader_dispatch() {
    let mut leader = Robot::new(0, 2, 5);
    assert!(leader.is_leader(0));
    // An order the stock can satisfy: deduct, broadcast, assign, prepare.
    let order = Order { order_id: 1, order_details: grams(0, 0, 0, 100) };
    let actions = leader.handle_order(&order, 6);
    assert_eq!(actions.len(), 3);
    assert!(matches!(
        &actions[0],
        RobotAction::SendRing(MessageType::UpdateStock(u)) if u.subtract && u.timestamp == 6
    ));
    assert!(matches!(
        &actions[1],
        RobotAction::SendRing(MessageType::NewOrder(od)) if od.order_id == 1
    ));
    assert_eq!(
        leader.stock_table.stock_table.get(IceCreamFlavor::Mint),
        INITIAL_GRAMS_AMOUNT - 100
    );
    // An order beyond the stock is aborted toward the screen leader and the
    // stock is untouched.
    let too_big = Order { order_id: 2, order_details: grams(0, 0, 0, 10000) };
    let actions2 = leader.handle_order(&too_big, 7);
    assert_eq!(actions2.len(), 1);
    assert!(matches!(
        &actions2[0],
        RobotAction::SendScreen(MessageType::Abort(a)) if a.order_id == 2
    ));
    assert_eq!(
        leader.stock_table.stock_table.get(IceCreamFlavor::Mint),
        INITIAL_GRAMS_AMOUNT - 100
    );
}

#[test]
fn robot_token_bookkeeping() {
    let mut robot = Robot::new(0, 3, 1);
    // Minting puts exactly one token per flavor on the ring.
    let minted = robot.initialize_tokens(2);
    assert_eq!(minted.len(), 4);
    for m in &minted {
        assert!(matches!(m, MessageType::Token(t) if t.available_ammount == INITIAL_GRAMS_AMOUNT));
    }
    // A token in hand is never probed; a missing one is probed with the
    // leader's replica stock and the probe timestamp.
    robot.set_token_status(IceCreamFlavor::Mint, true);
    let probes = robot.recover_lost_tokens(9);
    assert_eq!(probes.len(), 3);
    for p in &probes {
        match p {
            MessageType::PossibleLostToken(d) => {
                assert_ne!(d.flavor, IceCreamFlavor::Mint);
                assert_eq!(d.timestamp, 9);
                assert_eq!(d.stock, INITIAL_GRAMS_AMOUNT);
            }
            _ => panic!("expected a probe"),
        }
    }
    // A token used for 100 grams leaves with 100 grams fewer.
    let token = Token {
        sender_id: 0,
        flavour: IceCreamFlavor::Mint,
        last_modified_by_id: 0,
        last_modification_timestamp: 2,
        available_ammount: 10000,
    };
    let used = robot.use_token(token, 100);
    assert_eq!(used.available_ammount, 9900);
    assert_eq!(used.flavour, IceCreamFlavor::Mint);
    // The replica records what was read minus what was used.
    robot.update_tokens_table(IceCreamFlavor::Mint, 10000, 100, 3);
    assert_eq!(robot.get_flavor_stock(IceCreamFlavor::Mint), 9900);
    assert!(robot.is_timestamp_greater(IceCreamFlavor::Mint, 2));
    assert!(!robot.is_timestamp_greater(IceCreamFlavor::Mint, 3));
}

#[test]
fn robot_ring_death_handling() {
    let mut r1 = Robot::new(1, 3, 1);
    assert_eq!(r1.find_next_id(), Some(0));
    assert_eq!(r1.find_prev_robot(1), Some(2));
    assert!(r1.is_connected_to_me(0));
    assert!(!r1.is_net_size_2());
    // The leader (robot 0) dies: splice it out and start an election.
    r1.update_network(0);
    assert!(r1.is_net_size_2());
    assert_eq!(r1.find_next_id(), Some(2));
    assert!(r1.is_leader(0));
    r1.set_new_leader(1, 1);
    assert!(r1.is_leader(1));
    r1.set_screen_leader(2);
    assert_eq!(r1.screen_leader_id, 2);
}

#[test]
fn robot_token_acquisition_step() {
    let mut robot = Robot::new(1, 3, 1);
    let details = grams(0, 0, 0, 300);
    let mut required = vec![IceCreamFlavor::Mint, IceCreamFlavor::Vanilla];
    let token = Token {
        sender_id: 0,
        flavour: IceCreamFlavor::Mint,
        last_modified_by_id: 0,
        last_modification_timestamp: 4,
        available_ammount: 10000,
    };
    // A required flavor's token is used: grams deducted, flavor done.
    let (out, used) = robot.handle_token_during_prepare(&mut required, false, token, &details, 5);
    assert!(used);
    assert_eq!(out.available_ammount, 9700);
    assert_eq!(out.flavour, IceCreamFlavor::Mint);
    assert_eq!(required, vec![IceCreamFlavor::Vanilla]);
    assert_eq!(robot.get_flavor_stock(IceCreamFlavor::Mint), 9700);
    // A token that is not required passes through untouched.
    let other = Token {
        sender_id: 0,
        flavour: IceCreamFlavor::Chocolate,
        last_modified_by_id: 0,
        last_modification_timestamp: 4,
        available_ammount: 8000,
    };
    let (passed, used2) = robot.handle_token_during_prepare(&mut required, false, other, &details, 6);
    assert!(!used2);
    assert_eq!(passed.available_ammount, 8000);
    assert_eq!(required, vec![IceCreamFlavor::Vanilla]);
    // A required token arriving while a preparation is busy is forwarded too.
    let vanilla = Token {
        sender_id: 0,
        flavour: IceCreamFlavor::Vanilla,
        last_modified_by_id: 0,
        last_modification_timestamp: 4,
        available_ammount: 9000,
    };
    let (passed2, used3) = robot.handle_token_during_prepare(&mut required, true, vanilla, &details, 7);
    assert!(!used3);
    assert_eq!(passed2.available_ammount, 9000);
    assert_eq!(required.len(), 1);
}

#[test]
fn robot_order_completion() {
    // The leader commits to the screen leader and announces the delivery.
    let mut leader = Robot::new(0, 2, 1);
    leader.add_new_order(0, 7, grams(0, 0, 0, 100));
    let acts = leader.complete_order(0, 7);
    assert_eq!(acts.len(), 2);
    assert!(matches!(&acts[0], RobotAction::SendScreen(MessageType::Commit(c)) if c.order_id == 7));
    assert!(matches!(
        &acts[1],
        RobotAction::SendRing(MessageType::OrderDelivered(d)) if d.order_id == 7
    ));
    assert!(leader.get_robot_orders(0).unwrap().orders.is_empty());
    // A non-leader reports completion up the ring.
    let mut worker = Robot::new(1, 2, 1);
    let acts2 = worker.complete_order(1, 9);
    assert_eq!(acts2.len(), 1);
    assert!(matches!(
        &acts2[0],
        RobotAction::SendRing(MessageType::OrderComplete(c)) if c.order_id == 9 && c.robot_id_maker == 1
    ));
}

#[test]
fn robot_stock_compensation() {
    // Robot 1 died holding two orders: the first one's grams are gone for
    // good (and deducted once more, the source's deliberate choice), the
    // second one's speculative deduction is returned.
    let mut leader = Robot::new(0, 3, 1);
    let lost = OrdersList {
        orders: vec![
            heladeria::robot_orders_table::Order { order_id: 1, order_details: grams(0, 0, 0, 100) },
            heladeria::robot_orders_table::Order { order_id: 2, order_details: grams(0, 0, 0, 50) },
        ],
    };
    let acts = leader.recover_stock_from_lost_orders(&lost, 9);
    assert_eq!(acts.len(), 2);
    assert!(matches!(
        &acts[0],
        RobotAction::SendRing(MessageType::UpdateStock(u)) if u.subtract && u.timestamp == 9
    ));
    assert!(matches!(
        &acts[1],
        RobotAction::SendRing(MessageType::UpdateStock(u)) if !u.subtract
    ));
    assert_eq!(
        leader.stock_table.stock_table.get(IceCreamFlavor::Mint),
        INITIAL_GRAMS_AMOUNT - 100 + 50
    );
}

#[test]
fn robot_reassigns_lost_orders() {
    let mut leader = Robot::new(0, 3, 1);
    let lost = OrdersList {
        orders: vec![
            heladeria::robot_orders_table::Order { order_id: 1, order_details: grams(0, 0, 0, 100) },
            heladeria::robot_orders_table::Order {
                order_id: 2,
                order_details: grams(0, 0, 0, 10001),
            },
        ],
    };
    let acts = leader.reassign_lost_orders(&lost);
    // The affordable order is re-dispatched with NewOrder + Prepare — all
    // slots are tied empty, so the smallest id, the leader itself, wins the
    // assignment and serves the Prepare locally; the over-stock order is
    // aborted to the screen leader.
    assert_eq!(acts.len(), 3);
    assert!(matches!(
        &acts[0],
        RobotAction::SendRing(MessageType::NewOrder(od)) if od.order_id == 1 && od.target_id == 0
    ));
    assert!(matches!(
        &acts[1],
        RobotAction::DeliverLocalPrepare(MessageType::Prepare(p)) if p.order_id == 1
    ));
    assert!(matches!(
        &acts[2],
        RobotAction::SendScreen(MessageType::Abort(a)) if a.order_id == 2
    ));
    // The stock itself is untouched by re-dispatch.
    assert_eq!(leader.stock_table.stock_table.get(IceCreamFlavor::Mint), INITIAL_GRAMS_AMOUNT);
}

#[test]
fn robot_election_steps() {
    // A circulating election converges on the smallest live id.
    let mut r1 = Robot::new(1, 3, 1);
    let election = MessageType::Election(heladeria::messages::Election {
        sender_id: 2,
        current_candidate_id: 2,
        dead_leader_id: 0,
    });
    let acts = r1.handle_ring_message(1, &election, 5);
    // Candidate 2 loses to this robot's smaller id 1.
    assert_eq!(acts.len(), 1);
    assert!(matches!(
        &acts[0],
        RobotAction::SendRing(MessageType::Election(e)) if e.current_candidate_id == 1
    ));
    // A smaller candidate passes through unchanged.
    let mut r2 = Robot::new(2, 3, 1);
    let smaller = MessageType::Election(heladeria::messages::Election {
        sender_id: 1,
        current_candidate_id: 1,
        dead_leader_id: 0,
    });
    let acts2 = r2.handle_ring_message(2, &smaller, 5);
    assert_eq!(acts2.len(), 1);
    assert!(matches!(
        &acts2[0],
        RobotAction::SendRing(MessageType::Election(e)) if e.current_candidate_id == 1
    ));
    // The election returning to its candidate makes it leader: it announces
    // itself, probes for every token it does not hold, tells the ring to
    // forget the dead robot, and reconnects to the screen leader.
    let own = MessageType::Election(heladeria::messages::Election {
        sender_id: 2,
        current_candidate_id: 1,
        dead_leader_id: 0,
    });
    let acts3 = r1.handle_ring_message(1, &own, 6);
    assert!(r1.is_leader(1));
    assert!(matches!(
        &acts3[0],
        RobotAction::SendRing(MessageType::NewLeader(n)) if n.new_leader_id == 1 && n.dead_leader_id == 0
    ));
    // Four probes (no tokens in hand), then the RemoveRobot broadcast.
    for j in 1..5 {
        assert!(matches!(&acts3[j], RobotAction::SendRing(MessageType::PossibleLostToken(_))));
    }
    assert!(matches!(
        &acts3[5],
        RobotAction::SendRing(MessageType::RemoveRobot(0))
    ));
    assert!(matches!(acts3.last().unwrap(), RobotAction::ConnectScreen(true)));
}

#[test]
fn robot_ring_message_steps() {
    // A non-leader applies a stock broadcast and forwards it.
    let mut r1 = Robot::new(1, 3, 1);
    let update = MessageType::UpdateStock(UpdateData {
        modified_values: grams(0, 0, 0, 100),
        timestamp: 4,
        subtract: true,
    });
    let acts = r1.handle_ring_message(1, &update, 5);
    assert_eq!(acts.len(), 1);
    assert!(matches!(&acts[0], RobotAction::SendRing(MessageType::UpdateStock(_))));
    assert_eq!(r1.stock_table.stock_table.get(IceCreamFlavor::Mint), INITIAL_GRAMS_AMOUNT - 100);
    // A NewOrder broadcast updates the replica table and travels on.
    let new_order = MessageType::NewOrder(heladeria::messages::OrderData {
        target_id: 2,
        order_id: 7,
        order_details: grams(0, 0, 0, 100),
    });
    r1.handle_ring_message(1, &new_order, 6);
    assert_eq!(r1.get_robot_orders(2).unwrap().orders.len(), 1);
    // An arriving token is marked held and handed to the token queue.
    let token = MessageType::Token(Token {
        sender_id: 0,
        flavour: IceCreamFlavor::Mint,
        last_modified_by_id: 0,
        last_modification_timestamp: 4,
        available_ammount: 9900,
    });
    let acts3 = r1.handle_ring_message(1, &token, 7);
    assert!(r1.has_token(IceCreamFlavor::Mint));
    assert!(matches!(&acts3[0], RobotAction::DeliverLocalToken(_)));
    // An addressed Prepare is delivered locally at its target, forwarded
    // elsewhere.
    let prepare = MessageType::Prepare(Prepare {
        sender_id: 0,
        target_id: 1,
        order_id: 7,
        order_details: grams(0, 0, 0, 100),
    });
    let acts4 = r1.handle_ring_message(1, &prepare, 8);
    assert!(matches!(&acts4[0], RobotAction::DeliverLocalPrepare(_)));
    // A probe for a token this robot holds draws TokenFound.
    let probe = MessageType::PossibleLostToken(heladeria::messages::TokenData {
        flavor: IceCreamFlavor::Mint,
        timestamp: 2,
        stock: 9900,
    });
    let acts5 = r1.handle_ring_message(1, &probe, 9);
    assert!(matches!(
        &acts5[0],
        RobotAction::SendRing(MessageType::TokenFound(IceCreamFlavor::Mint))
    ));
}

#[test]
fn robot_peer_death_paths() {
    // Three robots: robot 1's predecessor (robot 2) dies. Robot 1 announces
    // the death, splices the ring, and starts no election: 2 did not lead.
    let mut r1 = Robot::new(1, 3, 1);
    let acts = r1.handle_peer_death(1, 5);
    assert!(matches!(
        &acts[0],
        RobotAction::SendRing(MessageType::DeadRobot(d)) if d.dead_robot_id == 2 && d.sender_id == 1
    ));
    assert_eq!(acts.len(), 1);
    assert_eq!(r1.network.len(), 2);
    // Two robots left: robot 0 dies; robot 1 survives alone, takes over,
    // re-mints all four tokens and reopens the screen bridge.
    let acts2 = r1.handle_peer_death(1, 6);
    assert!(matches!(&acts2[0], RobotAction::KillSender));
    assert!(matches!(&acts2[1], RobotAction::Reconnect));
    assert!(r1.is_leader(1));
    let minted: Vec<_> = acts2
        .iter()
        .filter(|a| matches!(a, RobotAction::SendRing(MessageType::Token(_))))
        .collect();
    assert_eq!(minted.len(), 4);
    assert!(matches!(acts2.last().unwrap(), RobotAction::ConnectScreen(true)));
    assert_eq!(r1.network.len(), 1);
}

#[test]
fn gateway_reply_parsing() {
    assert_eq!(parse_gateway_reply("COMMIT,17"), Some(17));
    assert_eq!(parse_gateway_reply("ABORT"), Some(0));
    assert_eq!(parse_gateway_reply("COMMIT"), None);
    assert_eq!(parse_gateway_reply("COMMIT,xy"), None);
    assert_eq!(parse_gateway_reply("hello"), None);
}

#[test]
fn order_details_aggregation() {
    let order = FileOrder {
        flavors: vec![
            Flavor { name: "Mint".to_string(), grams: 100 },
            Flavor { name: "Vanilla".to_string(), grams: 150 },
            Flavor { name: "Mint".to_string(), grams: 25 },
        ],
    };
    let details = order_details_of(&order);
    assert_eq!(details.get(IceCreamFlavor::Mint), 125);
    assert_eq!(details.get(IceCreamFlavor::Vanilla), 150);
    assert_eq!(details.get(IceCreamFlavor::Chocolate), 0);
}
