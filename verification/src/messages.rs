//! The inter-node wire protocol: the message vocabulary shared by robots,
//! screens and the gateway bridge, and its binary codec. Every record is
//! length-prefixed so receivers can recover whole messages from a TCP stream
//! that delivers several records in one read or one record across reads.
use vstd::prelude::*;

use crate::flavors::{FlavorGrams, IceCreamFlavor};

verus! {

// ---------------------------------------------------------------------------
// Message vocabulary
// ---------------------------------------------------------------------------
/// A robot that stopped responding.
#[derive(Clone, Copy, Debug, PartialEq, Eq, Structural)]
pub struct DeadRobot {
    pub sender_id: usize,
    pub dead_robot_id: usize,
}

/// A screen that stopped responding.
#[derive(Clone, Copy, Debug, PartialEq, Eq, Structural)]
pub struct DeadScreen {
    pub sender_id: usize,
    pub dead_screen_id: usize,
}

/// An authorized order announced on the screen ring.
#[derive(Clone, Copy, Debug, PartialEq, Eq, Structural)]
pub struct OrderScreen {
    pub sender_id: usize,
    pub order_id: usize,
    pub order_details: FlavorGrams,
}

/// An order sent from the screen leader to the robot leader.
#[derive(Clone, Copy, Debug, PartialEq, Eq, Structural)]
pub struct Order {
    pub order_id: usize,
    pub order_details: FlavorGrams,
}

/// An order that must be rolled back.
#[derive(Clone, Copy, Debug, PartialEq, Eq, Structural)]
pub struct Abort {
    pub order_id: usize,
}

/// An order that completed.
#[derive(Clone, Copy, Debug, PartialEq, Eq, Structural)]
pub struct Commit {
    pub order_id: usize,
}

/// A timestamped stock delta, broadcast so all replicas converge.
#[derive(Clone, Copy, Debug, PartialEq, Eq, Structural)]
pub struct UpdateData {
    pub modified_values: FlavorGrams,
    pub timestamp: u64,
    pub subtract: bool,
}

/// A non-leader robot finished preparing an order.
#[derive(Clone, Copy, Debug, PartialEq, Eq, Structural)]
pub struct OrderComplete {
    pub robot_id_maker: usize,
    pub order_id: usize,
}

/// The leader announces a finished order to the ring.
#[derive(Clone, Copy, Debug, PartialEq, Eq, Structural)]
pub struct OrderDelivered {
    pub robot_id_maker: usize,
    pub order_id: usize,
}

/// A dispatched order, broadcast so every robot updates its orders table.
#[derive(Clone, Copy, Debug, PartialEq, Eq, Structural)]
pub struct OrderData {
    pub target_id: usize,
    pub order_id: usize,
    pub order_details: FlavorGrams,
}

/// A newly elected leader announcing itself.
#[derive(Clone, Copy, Debug, PartialEq, Eq, Structural)]
pub struct NewLeader {
    pub sender_id: usize,
    pub new_leader_id: usize,
    pub dead_leader_id: usize,
}

/// A circulating election message carrying the best candidate so far.
#[derive(Clone, Copy, Debug, PartialEq, Eq, Structural)]
pub struct Election {
    pub sender_id: usize,
    pub current_candidate_id: usize,
    pub dead_leader_id: usize,
}

/// The last node of a ring reports that the ring is fully connected.
#[derive(Clone, Copy, Debug, PartialEq, Eq, Structural)]
pub struct AllConnected {
    pub sender_id: usize,
}

/// The exclusive capability to deplete one flavor's stock.
#[derive(Clone, Copy, Debug, PartialEq, Eq, Structural)]
pub struct Token {
    pub sender_id: usize,
    pub flavour: IceCreamFlavor,
    pub last_modified_by_id: usize,
    pub last_modification_timestamp: u64,
    pub available_ammount: i32,
}

/// A robot introducing itself on a fresh connection.
#[derive(Clone, Copy, Debug, PartialEq, Eq, Structural)]
pub struct RobotIntroduction {
    pub sender_id: usize,
}

/// A screen introducing itself on a fresh connection.
#[derive(Clone, Copy, Debug, PartialEq, Eq, Structural)]
pub struct ScreenIntroduction {
    pub sender_id: usize,
}

/// The robot leader addressing one robot with an order to prepare.
#[derive(Clone, Copy, Debug, PartialEq, Eq, Structural)]
pub struct Prepare {
    pub sender_id: usize,
    pub target_id: usize,
    pub order_id: usize,
    pub order_details: FlavorGrams,
}

/// A probe for a token that may have died with its holder.
#[derive(Clone, Copy, Debug, PartialEq, Eq, Structural)]
pub struct TokenData {
    pub flavor: IceCreamFlavor,
    pub timestamp: u64,
    pub stock: i32,
}

/// A local sentinel that tells a sender task to drain and exit.
#[derive(Clone, Copy, Debug, PartialEq, Eq, Structural)]
pub struct Kill {}

/// Every message that crosses a node boundary or a local queue.
#[derive(Clone, Copy, Debug, PartialEq, Eq, Structural)]
pub enum MessageType {
    DeadRobot(DeadRobot),
    DeadScreen(DeadScreen),
    NewLeader(NewLeader),
    Election(Election),
    RemoveRobot(usize),
    AllConnected(AllConnected),
    Token(Token),
    OrderScreen(OrderScreen),
    Order(Order),
    Prepare(Prepare),
    Kill(),
    NewOrder(OrderData),
    RobotIntroduction(RobotIntroduction),
    ScreenIntroduction(ScreenIntroduction),
    OrderComplete(OrderComplete),
    OrderDelivered(OrderDelivered),
    UpdateStock(UpdateData),
    PossibleLostToken(TokenData),
    TokenFound(IceCreamFlavor),
    Commit(Commit),
    Abort(Abort),
    NewLeaderIntroduction(usize),
    UpdateRobotLeader(usize),
    UpdateScreenLeader(usize),
}

// ---------------------------------------------------------------------------
// Little-endian field encodings
// ---------------------------------------------------------------------------
/// The little-endian bytes of a 64-bit value.
pub open spec fn spec_u64_le(x: u64) -> Seq<u8> {
    seq![
        (x & 0xff) as u8,
        ((x >> 8) & 0xff) as u8,
        ((x >> 16) & 0xff) as u8,
        ((x >> 24) & 0xff) as u8,
        ((x >> 32) & 0xff) as u8,
        ((x >> 40) & 0xff) as u8,
        ((x >> 48) & 0xff) as u8,
        ((x >> 56) & 0xff) as u8,
    ]
}

/// The 64-bit value read from eight little-endian bytes.
pub open spec fn spec_u64_at(b: Seq<u8>, pos: int) -> u64 {
    (b[pos] as u64) | ((b[pos + 1] as u64) << 8) | ((b[pos + 2] as u64) << 16) | ((b[pos + 3]
        as u64) << 24) | ((b[pos + 4] as u64) << 32) | ((b[pos + 5] as u64) << 40) | ((b[pos + 6]
        as u64) << 48) | ((b[pos + 7] as u64) << 56)
}

/// The little-endian bytes of a 32-bit value.
pub open spec fn spec_u32_le(x: u32) -> Seq<u8> {
    seq![
        (x & 0xff) as u8,
        ((x >> 8) & 0xff) as u8,
        ((x >> 16) & 0xff) as u8,
        ((x >> 24) & 0xff) as u8,
    ]
}

/// The 32-bit value read from four little-endian bytes.
pub open spec fn spec_u32_at(b: Seq<u8>, pos: int) -> u32 {
    (b[pos] as u32) | ((b[pos + 1] as u32) << 8) | ((b[pos + 2] as u32) << 16) | ((b[pos + 3]
        as u32) << 24)
}

/// A gram count carried as its 32-bit two's-complement pattern.
pub open spec fn spec_i32_le(x: i32) -> Seq<u8> {
    spec_u32_le(x as u32)
}

/// The gram count read back from four little-endian bytes.
pub open spec fn spec_i32_at(b: Seq<u8>, pos: int) -> i32 {
    spec_u32_at(b, pos) as i32
}

/// A node id carried as a 64-bit value.
pub open spec fn spec_usize_le(x: usize) -> Seq<u8> {
    spec_u64_le(x as u64)
}

/// The node id read back, when it fits this machine's `usize`.
pub open spec fn spec_usize_at(b: Seq<u8>, pos: int) -> Option<usize> {
    if spec_u64_at(b, pos) <= usize::MAX as u64 {
        Some(spec_u64_at(b, pos) as usize)
    } else {
        None
    }
}

/// The tag byte of a flavor.
pub open spec fn spec_flavor_tag(f: IceCreamFlavor) -> u8 {
    match f {
        IceCreamFlavor::Vanilla => 0,
        IceCreamFlavor::Chocolate => 1,
        IceCreamFlavor::Strawberry => 2,
        IceCreamFlavor::Mint => 3,
    }
}

/// The flavor of a tag byte, if it is one.
pub open spec fn spec_flavor_of_tag(t: u8) -> Option<IceCreamFlavor> {
    if t == 0 {
        Some(IceCreamFlavor::Vanilla)
    } else if t == 1 {
        Some(IceCreamFlavor::Chocolate)
    } else if t == 2 {
        Some(IceCreamFlavor::Strawberry)
    } else if t == 3 {
        Some(IceCreamFlavor::Mint)
    } else {
        None
    }
}

/// The byte of a boolean.
pub open spec fn spec_bool_byte(v: bool) -> u8 {
    if v {
        1
    } else {
        0
    }
}

/// The boolean of a byte, if it is one.
pub open spec fn spec_bool_of_byte(t: u8) -> Option<bool> {
    if t == 0 {
        Some(false)
    } else if t == 1 {
        Some(true)
    } else {
        None
    }
}

/// The sixteen bytes of a per-flavor gram table, in canonical flavor order.
pub open spec fn spec_details_le(d: FlavorGrams) -> Seq<u8> {
    spec_i32_le(d.vanilla) + spec_i32_le(d.chocolate) + spec_i32_le(d.strawberry) + spec_i32_le(
        d.mint,
    )
}

/// The gram table read back from sixteen bytes.
pub open spec fn spec_details_at(b: Seq<u8>, pos: int) -> FlavorGrams {
    FlavorGrams {
        vanilla: spec_i32_at(b, pos),
        chocolate: spec_i32_at(b, pos + 4),
        strawberry: spec_i32_at(b, pos + 8),
        mint: spec_i32_at(b, pos + 12),
    }
}

/// Masking to a byte never exceeds a byte.
proof fn lemma_mask64_is_byte(y: u64)
    ensures
        y & 0xff <= 0xff,
{
    assert(y & 0xff <= 0xff) by (bit_vector);
}

/// Masking to a byte never exceeds a byte.
proof fn lemma_mask32_is_byte(y: u32)
    ensures
        y & 0xff <= 0xff,
{
    assert(y & 0xff <= 0xff) by (bit_vector);
}

/// Reading back the little-endian bytes of a 64-bit value gives it back.
pub proof fn lemma_u64_roundtrip(x: u64)
    ensures
        spec_u64_at(spec_u64_le(x), 0) == x,
{
    assert((((x & 0xff) as u8) as u64) | ((((x >> 8) & 0xff) as u8) as u64) << 8 | ((((x >> 16)
        & 0xff) as u8) as u64) << 16 | ((((x >> 24) & 0xff) as u8) as u64) << 24 | ((((x >> 32)
        & 0xff) as u8) as u64) << 32 | ((((x >> 40) & 0xff) as u8) as u64) << 40 | ((((x >> 48)
        & 0xff) as u8) as u64) << 48 | ((((x >> 56) & 0xff) as u8) as u64) << 56 == x)
        by (bit_vector);
}

/// Reading back the little-endian bytes of a 32-bit value gives it back.
pub proof fn lemma_u32_roundtrip(x: u32)
    ensures
        spec_u32_at(spec_u32_le(x), 0) == x,
{
    assert((((x & 0xff) as u8) as u32) | ((((x >> 8) & 0xff) as u8) as u32) << 8 | ((((x >> 16)
        & 0xff) as u8) as u32) << 16 | ((((x >> 24) & 0xff) as u8) as u32) << 24 == x)
        by (bit_vector);
}

/// Reading back the bytes of a gram count gives it back.
pub proof fn lemma_i32_roundtrip(x: i32)
    ensures
        spec_i32_at(spec_i32_le(x), 0) == x,
{
    lemma_u32_roundtrip(x as u32);
    assert(((x as u32) as i32) == x) by (bit_vector);
}

// ---------------------------------------------------------------------------
// Executable field encoders and decoders
// ---------------------------------------------------------------------------
/// Appends the eight little-endian bytes of a 64-bit value.
fn push_u64_le(out: &mut Vec<u8>, x: u64)
    ensures
        final(out)@ == old(out)@ + spec_u64_le(x),
{
    proof {
        lemma_mask64_is_byte(x);
        lemma_mask64_is_byte(x >> 8);
        lemma_mask64_is_byte(x >> 16);
        lemma_mask64_is_byte(x >> 24);
        lemma_mask64_is_byte(x >> 32);
        lemma_mask64_is_byte(x >> 40);
        lemma_mask64_is_byte(x >> 48);
        lemma_mask64_is_byte(x >> 56);
    }
    out.push((x & 0xff) as u8);
    out.push(((x >> 8) & 0xff) as u8);
    out.push(((x >> 16) & 0xff) as u8);
    out.push(((x >> 24) & 0xff) as u8);
    out.push(((x >> 32) & 0xff) as u8);
    out.push(((x >> 40) & 0xff) as u8);
    out.push(((x >> 48) & 0xff) as u8);
    out.push(((x >> 56) & 0xff) as u8);
    assert(out@ =~= old(out)@ + spec_u64_le(x));
}

/// Appends the four little-endian bytes of a 32-bit value.
fn push_u32_le(out: &mut Vec<u8>, x: u32)
    ensures
        final(out)@ == old(out)@ + spec_u32_le(x),
{
    proof {
        lemma_mask32_is_byte(x);
        lemma_mask32_is_byte(x >> 8);
        lemma_mask32_is_byte(x >> 16);
        lemma_mask32_is_byte(x >> 24);
    }
    out.push((x & 0xff) as u8);
    out.push(((x >> 8) & 0xff) as u8);
    out.push(((x >> 16) & 0xff) as u8);
    out.push(((x >> 24) & 0xff) as u8);
    assert(out@ =~= old(out)@ + spec_u32_le(x));
}

/// Appends a gram count.
fn push_i32_le(out: &mut Vec<u8>, x: i32)
    ensures
        final(out)@ == old(out)@ + spec_i32_le(x),
{
    push_u32_le(out, x as u32);
}

/// Appends a node id.
fn push_usize_le(out: &mut Vec<u8>, x: usize)
    ensures
        final(out)@ == old(out)@ + spec_usize_le(x),
{
    push_u64_le(out, x as u64);
}

/// Appends a gram table.
fn push_details(out: &mut Vec<u8>, d: &FlavorGrams)
    ensures
        final(out)@ == old(out)@ + spec_details_le(*d),
{
    push_i32_le(out, d.vanilla);
    push_i32_le(out, d.chocolate);
    push_i32_le(out, d.strawberry);
    push_i32_le(out, d.mint);
    assert(out@ =~= old(out)@ + spec_details_le(*d));
}

/// Appends a flavor tag byte.
fn push_flavor(out: &mut Vec<u8>, f: IceCreamFlavor)
    ensures
        final(out)@ == old(out)@ + seq![spec_flavor_tag(f)],
{
    let t: u8 = match f {
        IceCreamFlavor::Vanilla => 0,
        IceCreamFlavor::Chocolate => 1,
        IceCreamFlavor::Strawberry => 2,
        IceCreamFlavor::Mint => 3,
    };
    out.push(t);
    assert(out@ =~= old(out)@ + seq![spec_flavor_tag(f)]);
}

/// Reads a 64-bit value at a byte offset.
fn get_u64_le(b: &Vec<u8>, pos: usize) -> (r: u64)
    requires
        pos + 8 <= b@.len(),
    ensures
        r == spec_u64_at(b@, pos as int),
{
    let n = b.len();
    assert(pos + 8 <= n);
    (b[pos] as u64) | ((b[pos + 1] as u64) << 8u64) | ((b[pos + 2] as u64) << 16u64) | ((b[pos + 3]
        as u64) << 24u64) | ((b[pos + 4] as u64) << 32u64) | ((b[pos + 5] as u64) << 40u64) | ((
    b[pos + 6] as u64) << 48u64) | ((b[pos + 7] as u64) << 56u64)
}

/// Reads a 32-bit value at a byte offset.
fn get_u32_le(b: &Vec<u8>, pos: usize) -> (r: u32)
    requires
        pos + 4 <= b@.len(),
    ensures
        r == spec_u32_at(b@, pos as int),
{
    let n = b.len();
    assert(pos + 4 <= n);
    (b[pos] as u32) | ((b[pos + 1] as u32) << 8u32) | ((b[pos + 2] as u32) << 16u32) | ((b[pos + 3]
        as u32) << 24u32)
}

/// Reads a gram count at a byte offset.
fn get_i32_le(b: &Vec<u8>, pos: usize) -> (r: i32)
    requires
        pos + 4 <= b@.len(),
    ensures
        r == spec_i32_at(b@, pos as int),
{
    get_u32_le(b, pos) as i32
}

/// Reads a node id at a byte offset; an id too wide for this machine is
/// rejected.
fn get_usize_le(b: &Vec<u8>, pos: usize) -> (r: Option<usize>)
    requires
        pos + 8 <= b@.len(),
    ensures
        r == spec_usize_at(b@, pos as int),
{
    let v = get_u64_le(b, pos);
    if v <= usize::MAX as u64 {
        Some(v as usize)
    } else {
        None
    }
}

/// Reads a flavor tag at a byte offset.
fn get_flavor(b: &Vec<u8>, pos: usize) -> (r: Option<IceCreamFlavor>)
    requires
        pos < b@.len(),
    ensures
        r == spec_flavor_of_tag(b@[pos as int]),
{
    let t = b[pos];
    if t == 0 {
        Some(IceCreamFlavor::Vanilla)
    } else if t == 1 {
        Some(IceCreamFlavor::Chocolate)
    } else if t == 2 {
        Some(IceCreamFlavor::Strawberry)
    } else if t == 3 {
        Some(IceCreamFlavor::Mint)
    } else {
        None
    }
}

/// Reads a boolean byte at a byte offset.
fn get_bool(b: &Vec<u8>, pos: usize) -> (r: Option<bool>)
    requires
        pos < b@.len(),
    ensures
        r == spec_bool_of_byte(b@[pos as int]),
{
    let t = b[pos];
    if t == 0 {
        Some(false)
    } else if t == 1 {
        Some(true)
    } else {
        None
    }
}

/// Reads a gram table at a byte offset.
fn get_details(b: &Vec<u8>, pos: usize) -> (r: FlavorGrams)
    requires
        pos + 16 <= b@.len(),
    ensures
        r == spec_details_at(b@, pos as int),
{
    let n = b.len();
    assert(pos + 16 <= n);
    FlavorGrams {
        vanilla: get_i32_le(b, pos),
        chocolate: get_i32_le(b, pos + 4),
        strawberry: get_i32_le(b, pos + 8),
        mint: get_i32_le(b, pos + 12),
    }
}


// ---------------------------------------------------------------------------
// Message bodies
// ---------------------------------------------------------------------------
/// The body bytes of a message: a tag byte followed by its fields.
pub open spec fn spec_encode_body(m: MessageType) -> Seq<u8> {
    match m {
        MessageType::DeadRobot(d) => seq![0u8] + spec_usize_le(d.sender_id) + spec_usize_le(
            d.dead_robot_id,
        ),
        MessageType::DeadScreen(d) => seq![1u8] + spec_usize_le(d.sender_id) + spec_usize_le(
            d.dead_screen_id,
        ),
        MessageType::NewLeader(d) => seq![2u8] + spec_usize_le(d.sender_id) + spec_usize_le(
            d.new_leader_id,
        ) + spec_usize_le(d.dead_leader_id),
        MessageType::Election(d) => seq![3u8] + spec_usize_le(d.sender_id) + spec_usize_le(
            d.current_candidate_id,
        ) + spec_usize_le(d.dead_leader_id),
        MessageType::RemoveRobot(id) => seq![4u8] + spec_usize_le(id),
        MessageType::AllConnected(d) => seq![5u8] + spec_usize_le(d.sender_id),
        MessageType::Token(t) => seq![6u8] + spec_usize_le(t.sender_id) + seq![
            spec_flavor_tag(t.flavour),
        ] + spec_usize_le(t.last_modified_by_id) + spec_u64_le(t.last_modification_timestamp)
            + spec_i32_le(t.available_ammount),
        MessageType::OrderScreen(o) => seq![7u8] + spec_usize_le(o.sender_id) + spec_usize_le(
            o.order_id,
        ) + spec_details_le(o.order_details),
        MessageType::Order(o) => seq![8u8] + spec_usize_le(o.order_id) + spec_details_le(
            o.order_details,
        ),
        MessageType::Prepare(pr) => seq![9u8] + spec_usize_le(pr.sender_id) + spec_usize_le(
            pr.target_id,
        ) + spec_usize_le(pr.order_id) + spec_details_le(pr.order_details),
        MessageType::Kill() => seq![10u8],
        MessageType::NewOrder(o) => seq![11u8] + spec_usize_le(o.target_id) + spec_usize_le(
            o.order_id,
        ) + spec_details_le(o.order_details),
        MessageType::RobotIntroduction(d) => seq![12u8] + spec_usize_le(d.sender_id),
        MessageType::ScreenIntroduction(d) => seq![13u8] + spec_usize_le(d.sender_id),
        MessageType::OrderComplete(d) => seq![14u8] + spec_usize_le(d.robot_id_maker)
            + spec_usize_le(d.order_id),
        MessageType::OrderDelivered(d) => seq![15u8] + spec_usize_le(d.robot_id_maker)
            + spec_usize_le(d.order_id),
        MessageType::UpdateStock(u) => seq![16u8] + spec_details_le(u.modified_values)
            + spec_u64_le(u.timestamp) + seq![spec_bool_byte(u.subtract)],
        MessageType::PossibleLostToken(t) => seq![17u8] + seq![spec_flavor_tag(t.flavor)]
            + spec_u64_le(t.timestamp) + spec_i32_le(t.stock),
        MessageType::TokenFound(f) => seq![18u8] + seq![spec_flavor_tag(f)],
        MessageType::Commit(c) => seq![19u8] + spec_usize_le(c.order_id),
        MessageType::Abort(a) => seq![20u8] + spec_usize_le(a.order_id),
        MessageType::NewLeaderIntroduction(id) => seq![21u8] + spec_usize_le(id),
        MessageType::UpdateRobotLeader(id) => seq![22u8] + spec_usize_le(id),
        MessageType::UpdateScreenLeader(id) => seq![23u8] + spec_usize_le(id),
    }
}

/// Every message body is short: one tag byte and at most a few fields.
pub proof fn lemma_body_len(m: MessageType)
    ensures
        1 <= spec_encode_body(m).len() <= 64,
{
}

/// The message a body decodes to, if it is well formed: the tag selects the
/// variant, the length must match exactly, and every field must parse.
pub open spec fn spec_decode_body(b: Seq<u8>) -> Option<MessageType> {
    if b.len() < 1 {
        None
    } else {
        let tag = b[0];
        if tag == 0 {
            if b.len() == 17 {
                match (spec_usize_at(b, 1), spec_usize_at(b, 9)) {
                    (Some(s), Some(d)) => Some(
                        MessageType::DeadRobot(DeadRobot { sender_id: s, dead_robot_id: d }),
                    ),
                    _ => None,
                }
            } else {
                None
            }
        } else if tag == 1 {
            if b.len() == 17 {
                match (spec_usize_at(b, 1), spec_usize_at(b, 9)) {
                    (Some(s), Some(d)) => Some(
                        MessageType::DeadScreen(DeadScreen { sender_id: s, dead_screen_id: d }),
                    ),
                    _ => None,
                }
            } else {
                None
            }
        } else if tag == 2 {
            if b.len() == 25 {
                match (spec_usize_at(b, 1), spec_usize_at(b, 9), spec_usize_at(b, 17)) {
                    (Some(s), Some(n), Some(d)) => Some(
                        MessageType::NewLeader(
                            NewLeader { sender_id: s, new_leader_id: n, dead_leader_id: d },
                        ),
                    ),
                    _ => None,
                }
            } else {
                None
            }
        } else if tag == 3 {
            if b.len() == 25 {
                match (spec_usize_at(b, 1), spec_usize_at(b, 9), spec_usize_at(b, 17)) {
                    (Some(s), Some(c), Some(d)) => Some(
                        MessageType::Election(
                            Election { sender_id: s, current_candidate_id: c, dead_leader_id: d },
                        ),
                    ),
                    _ => None,
                }
            } else {
                None
            }
        } else if tag == 4 {
            if b.len() == 9 {
                match spec_usize_at(b, 1) {
                    Some(id) => Some(MessageType::RemoveRobot(id)),
                    None => None,
                }
            } else {
                None
            }
        } else if tag == 5 {
            if b.len() == 9 {
                match spec_usize_at(b, 1) {
                    Some(s) => Some(MessageType::AllConnected(AllConnected { sender_id: s })),
                    None => None,
                }
            } else {
                None
            }
        } else if tag == 6 {
            if b.len() == 30 {
                match (spec_usize_at(b, 1), spec_flavor_of_tag(b[9]), spec_usize_at(b, 10)) {
                    (Some(s), Some(f), Some(l)) => Some(
                        MessageType::Token(
                            Token {
                                sender_id: s,
                                flavour: f,
                                last_modified_by_id: l,
                                last_modification_timestamp: spec_u64_at(b, 18),
                                available_ammount: spec_i32_at(b, 26),
                            },
                        ),
                    ),
                    _ => None,
                }
            } else {
                None
            }
        } else if tag == 7 {
            if b.len() == 33 {
                match (spec_usize_at(b, 1), spec_usize_at(b, 9)) {
                    (Some(s), Some(o)) => Some(
                        MessageType::OrderScreen(
                            OrderScreen {
                                sender_id: s,
                                order_id: o,
                                order_details: spec_details_at(b, 17),
                            },
                        ),
                    ),
                    _ => None,
                }
            } else {
                None
            }
        } else if tag == 8 {
            if b.len() == 25 {
                match spec_usize_at(b, 1) {
                    Some(o) => Some(
                        MessageType::Order(
                            Order { order_id: o, order_details: spec_details_at(b, 9) },
                        ),
                    ),
                    None => None,
                }
            } else {
                None
            }
        } else if tag == 9 {
            if b.len() == 41 {
                match (spec_usize_at(b, 1), spec_usize_at(b, 9), spec_usize_at(b, 17)) {
                    (Some(s), Some(t), Some(o)) => Some(
                        MessageType::Prepare(
                            Prepare {
                                sender_id: s,
                                target_id: t,
                                order_id: o,
                                order_details: spec_details_at(b, 25),
                            },
                        ),
                    ),
                    _ => None,
                }
            } else {
                None
            }
        } else if tag == 10 {
            if b.len() == 1 {
                Some(MessageType::Kill())
            } else {
                None
            }
        } else if tag == 11 {
            if b.len() == 33 {
                match (spec_usize_at(b, 1), spec_usize_at(b, 9)) {
                    (Some(t), Some(o)) => Some(
                        MessageType::NewOrder(
                            OrderData {
                                target_id: t,
                                order_id: o,
                                order_details: spec_details_at(b, 17),
                            },
                        ),
                    ),
                    _ => None,
                }
            } else {
                None
            }
        } else if tag == 12 {
            if b.len() == 9 {
                match spec_usize_at(b, 1) {
                    Some(s) => Some(
                        MessageType::RobotIntroduction(RobotIntroduction { sender_id: s }),
                    ),
                    None => None,
                }
            } else {
                None
            }
        } else if tag == 13 {
            if b.len() == 9 {
                match spec_usize_at(b, 1) {
                    Some(s) => Some(
                        MessageType::ScreenIntroduction(ScreenIntroduction { sender_id: s }),
                    ),
                    None => None,
                }
            } else {
                None
            }
        } else if tag == 14 {
            if b.len() == 17 {
                match (spec_usize_at(b, 1), spec_usize_at(b, 9)) {
                    (Some(ma), Some(o)) => Some(
                        MessageType::OrderComplete(
                            OrderComplete { robot_id_maker: ma, order_id: o },
                        ),
                    ),
                    _ => None,
                }
            } else {
                None
            }
        } else if tag == 15 {
            if b.len() == 17 {
                match (spec_usize_at(b, 1), spec_usize_at(b, 9)) {
                    (Some(ma), Some(o)) => Some(
                        MessageType::OrderDelivered(
                            OrderDelivered { robot_id_maker: ma, order_id: o },
                        ),
                    ),
                    _ => None,
                }
            } else {
                None
            }
        } else if tag == 16 {
            if b.len() == 26 {
                match spec_bool_of_byte(b[25]) {
                    Some(sub) => Some(
                        MessageType::UpdateStock(
                            UpdateData {
                                modified_values: spec_details_at(b, 1),
                                timestamp: spec_u64_at(b, 17),
                                subtract: sub,
                            },
                        ),
                    ),
                    None => None,
                }
            } else {
                None
            }
        } else if tag == 17 {
            if b.len() == 14 {
                match spec_flavor_of_tag(b[1]) {
                    Some(f) => Some(
                        MessageType::PossibleLostToken(
                            TokenData {
                                flavor: f,
                                timestamp: spec_u64_at(b, 2),
                                stock: spec_i32_at(b, 10),
                            },
                        ),
                    ),
                    None => None,
                }
            } else {
                None
            }
        } else if tag == 18 {
            if b.len() == 2 {
                match spec_flavor_of_tag(b[1]) {
                    Some(f) => Some(MessageType::TokenFound(f)),
                    None => None,
                }
            } else {
                None
            }
        } else if tag == 19 {
            if b.len() == 9 {
                match spec_usize_at(b, 1) {
                    Some(o) => Some(MessageType::Commit(Commit { order_id: o })),
                    None => None,
                }
            } else {
                None
            }
        } else if tag == 20 {
            if b.len() == 9 {
                match spec_usize_at(b, 1) {
                    Some(o) => Some(MessageType::Abort(Abort { order_id: o })),
                    None => None,
                }
            } else {
                None
            }
        } else if tag == 21 {
            if b.len() == 9 {
                match spec_usize_at(b, 1) {
                    Some(id) => Some(MessageType::NewLeaderIntroduction(id)),
                    None => None,
                }
            } else {
                None
            }
        } else if tag == 22 {
            if b.len() == 9 {
                match spec_usize_at(b, 1) {
                    Some(id) => Some(MessageType::UpdateRobotLeader(id)),
                    None => None,
                }
            } else {
                None
            }
        } else if tag == 23 {
            if b.len() == 9 {
                match spec_usize_at(b, 1) {
                    Some(id) => Some(MessageType::UpdateScreenLeader(id)),
                    None => None,
                }
            } else {
                None
            }
        } else {
            None
        }
    }
}


// ---------------------------------------------------------------------------
// Records on the wire: length prefix, then body
// ---------------------------------------------------------------------------
/// A full wire record: the body length as four little-endian bytes, then the
/// body itself.
pub open spec fn spec_frame(m: MessageType) -> Seq<u8> {
    spec_u32_le(spec_encode_body(m).len() as u32) + spec_encode_body(m)
}

/// Serializes a message as one length-prefixed record.
pub fn serialize_message(message: &MessageType) -> (r: Vec<u8>)
    ensures
        r@ == spec_frame(*message),
{
    let mut body: Vec<u8> = Vec::new();
    match message {
        MessageType::DeadRobot(d) => {
            body.push(0u8);
            push_usize_le(&mut body, d.sender_id);
            push_usize_le(&mut body, d.dead_robot_id);
            assert(body@ =~= spec_encode_body(*message));
        },
        MessageType::DeadScreen(d) => {
            body.push(1u8);
            push_usize_le(&mut body, d.sender_id);
            push_usize_le(&mut body, d.dead_screen_id);
            assert(body@ =~= spec_encode_body(*message));
        },
        MessageType::NewLeader(d) => {
            body.push(2u8);
            push_usize_le(&mut body, d.sender_id);
            push_usize_le(&mut body, d.new_leader_id);
            push_usize_le(&mut body, d.dead_leader_id);
            assert(body@ =~= spec_encode_body(*message));
        },
        MessageType::Election(d) => {
            body.push(3u8);
            push_usize_le(&mut body, d.sender_id);
            push_usize_le(&mut body, d.current_candidate_id);
            push_usize_le(&mut body, d.dead_leader_id);
            assert(body@ =~= spec_encode_body(*message));
        },
        MessageType::RemoveRobot(id) => {
            body.push(4u8);
            push_usize_le(&mut body, *id);
            assert(body@ =~= spec_encode_body(*message));
        },
        MessageType::AllConnected(d) => {
            body.push(5u8);
            push_usize_le(&mut body, d.sender_id);
            assert(body@ =~= spec_encode_body(*message));
        },
        MessageType::Token(t) => {
            body.push(6u8);
            push_usize_le(&mut body, t.sender_id);
            push_flavor(&mut body, t.flavour);
            push_usize_le(&mut body, t.last_modified_by_id);
            push_u64_le(&mut body, t.last_modification_timestamp);
            push_i32_le(&mut body, t.available_ammount);
            assert(body@ =~= spec_encode_body(*message));
        },
        MessageType::OrderScreen(o) => {
            body.push(7u8);
            push_usize_le(&mut body, o.sender_id);
            push_usize_le(&mut body, o.order_id);
            push_details(&mut body, &o.order_details);
            assert(body@ =~= spec_encode_body(*message));
        },
        MessageType::Order(o) => {
            body.push(8u8);
            push_usize_le(&mut body, o.order_id);
            push_details(&mut body, &o.order_details);
            assert(body@ =~= spec_encode_body(*message));
        },
        MessageType::Prepare(pr) => {
            body.push(9u8);
            push_usize_le(&mut body, pr.sender_id);
            push_usize_le(&mut body, pr.target_id);
            push_usize_le(&mut body, pr.order_id);
            push_details(&mut body, &pr.order_details);
            assert(body@ =~= spec_encode_body(*message));
        },
        MessageType::Kill() => {
            body.push(10u8);
            assert(body@ =~= spec_encode_body(*message));
        },
        MessageType::NewOrder(o) => {
            body.push(11u8);
            push_usize_le(&mut body, o.target_id);
            push_usize_le(&mut body, o.order_id);
            push_details(&mut body, &o.order_details);
            assert(body@ =~= spec_encode_body(*message));
        },
        MessageType::RobotIntroduction(d) => {
            body.push(12u8);
            push_usize_le(&mut body, d.sender_id);
            assert(body@ =~= spec_encode_body(*message));
        },
        MessageType::ScreenIntroduction(d) => {
            body.push(13u8);
            push_usize_le(&mut body, d.sender_id);
            assert(body@ =~= spec_encode_body(*message));
        },
        MessageType::OrderComplete(d) => {
            body.push(14u8);
            push_usize_le(&mut body, d.robot_id_maker);
            push_usize_le(&mut body, d.order_id);
            assert(body@ =~= spec_encode_body(*message));
        },
        MessageType::OrderDelivered(d) => {
            body.push(15u8);
            push_usize_le(&mut body, d.robot_id_maker);
            push_usize_le(&mut body, d.order_id);
            assert(body@ =~= spec_encode_body(*message));
        },
        MessageType::UpdateStock(u) => {
            body.push(16u8);
            push_details(&mut body, &u.modified_values);
            push_u64_le(&mut body, u.timestamp);
            body.push(if u.subtract { 1u8 } else { 0u8 });
            assert(body@ =~= spec_encode_body(*message));
        },
        MessageType::PossibleLostToken(t) => {
            body.push(17u8);
            push_flavor(&mut body, t.flavor);
            push_u64_le(&mut body, t.timestamp);
            push_i32_le(&mut body, t.stock);
            assert(body@ =~= spec_encode_body(*message));
        },
        MessageType::TokenFound(f) => {
            body.push(18u8);
            push_flavor(&mut body, *f);
            assert(body@ =~= spec_encode_body(*message));
        },
        MessageType::Commit(c) => {
            body.push(19u8);
            push_usize_le(&mut body, c.order_id);
            assert(body@ =~= spec_encode_body(*message));
        },
        MessageType::Abort(a) => {
            body.push(20u8);
            push_usize_le(&mut body, a.order_id);
            assert(body@ =~= spec_encode_body(*message));
        },
        MessageType::NewLeaderIntroduction(id) => {
            body.push(21u8);
            push_usize_le(&mut body, *id);
            assert(body@ =~= spec_encode_body(*message));
        },
        MessageType::UpdateRobotLeader(id) => {
            body.push(22u8);
            push_usize_le(&mut body, *id);
            assert(body@ =~= spec_encode_body(*message));
        },
        MessageType::UpdateScreenLeader(id) => {
            body.push(23u8);
            push_usize_le(&mut body, *id);
            assert(body@ =~= spec_encode_body(*message));
        },
    }
    proof {
        lemma_body_len(*message);
    }
    let n = body.len() as u32;
    let mut out: Vec<u8> = Vec::new();
    push_u32_le(&mut out, n);
    out.append(&mut body);
    assert(out@ =~= spec_frame(*message));
    out
}

/// Deserializes one record body, accepting exactly the bodies that
/// `spec_decode_body` accepts. The argument is a body as `FrameBuffer`
/// returns it, not a whole framed record: the four-byte length prefix must
/// already be stripped.
pub fn deserialize_message(b: &Vec<u8>) -> (r: Option<MessageType>)
    ensures
        r == spec_decode_body(b@),
{
    let len = b.len();
    if len < 1 {
        return None;
    }
    let tag = b[0];
    if tag == 0 {
        if len == 17 {
            match (get_usize_le(b, 1), get_usize_le(b, 9)) {
                (Some(s), Some(d)) => Some(
                    MessageType::DeadRobot(DeadRobot { sender_id: s, dead_robot_id: d }),
                ),
                _ => None,
            }
        } else {
            None
        }
    } else if tag == 1 {
        if len == 17 {
            match (get_usize_le(b, 1), get_usize_le(b, 9)) {
                (Some(s), Some(d)) => Some(
                    MessageType::DeadScreen(DeadScreen { sender_id: s, dead_screen_id: d }),
                ),
                _ => None,
            }
        } else {
            None
        }
    } else if tag == 2 {
        if len == 25 {
            match (get_usize_le(b, 1), get_usize_le(b, 9), get_usize_le(b, 17)) {
                (Some(s), Some(n), Some(d)) => Some(
                    MessageType::NewLeader(
                        NewLeader { sender_id: s, new_leader_id: n, dead_leader_id: d },
                    ),
                ),
                _ => None,
            }
        } else {
            None
        }
    } else if tag == 3 {
        if len == 25 {
            match (get_usize_le(b, 1), get_usize_le(b, 9), get_usize_le(b, 17)) {
                (Some(s), Some(c), Some(d)) => Some(
                    MessageType::Election(
                        Election { sender_id: s, current_candidate_id: c, dead_leader_id: d },
                    ),
                ),
                _ => None,
            }
        } else {
            None
        }
    } else if tag == 4 {
        if len == 9 {
            match get_usize_le(b, 1) {
                Some(id) => Some(MessageType::RemoveRobot(id)),
                None => None,
            }
        } else {
            None
        }
    } else if tag == 5 {
        if len == 9 {
            match get_usize_le(b, 1) {
                Some(s) => Some(MessageType::AllConnected(AllConnected { sender_id: s })),
                None => None,
            }
        } else {
            None
        }
    } else if tag == 6 {
        if len == 30 {
            match (get_usize_le(b, 1), get_flavor(b, 9), get_usize_le(b, 10)) {
                (Some(s), Some(f), Some(l)) => Some(
                    MessageType::Token(
                        Token {
                            sender_id: s,
                            flavour: f,
                            last_modified_by_id: l,
                            last_modification_timestamp: get_u64_le(b, 18),
                            available_ammount: get_i32_le(b, 26),
                        },
                    ),
                ),
                _ => None,
            }
        } else {
            None
        }
    } else if tag == 7 {
        if len == 33 {
            match (get_usize_le(b, 1), get_usize_le(b, 9)) {
                (Some(s), Some(o)) => Some(
                    MessageType::OrderScreen(
                        OrderScreen {
                            sender_id: s,
                            order_id: o,
                            order_details: get_details(b, 17),
                        },
                    ),
                ),
                _ => None,
            }
        } else {
            None
        }
    } else if tag == 8 {
        if len == 25 {
            match get_usize_le(b, 1) {
                Some(o) => Some(
                    MessageType::Order(Order { order_id: o, order_details: get_details(b, 9) }),
                ),
                None => None,
            }
        } else {
            None
        }
    } else if tag == 9 {
        if len == 41 {
            match (get_usize_le(b, 1), get_usize_le(b, 9), get_usize_le(b, 17)) {
                (Some(s), Some(t), Some(o)) => Some(
                    MessageType::Prepare(
                        Prepare {
                            sender_id: s,
                            target_id: t,
                            order_id: o,
                            order_details: get_details(b, 25),
                        },
                    ),
                ),
                _ => None,
            }
        } else {
            None
        }
    } else if tag == 10 {
        if len == 1 {
            Some(MessageType::Kill())
        } else {
            None
        }
    } else if tag == 11 {
        if len == 33 {
            match (get_usize_le(b, 1), get_usize_le(b, 9)) {
                (Some(t), Some(o)) => Some(
                    MessageType::NewOrder(
                        OrderData { target_id: t, order_id: o, order_details: get_details(b, 17) },
                    ),
                ),
                _ => None,
            }
        } else {
            None
        }
    } else if tag == 12 {
        if len == 9 {
            match get_usize_le(b, 1) {
                Some(s) => Some(MessageType::RobotIntroduction(RobotIntroduction { sender_id: s })),
                None => None,
            }
        } else {
            None
        }
    } else if tag == 13 {
        if len == 9 {
            match get_usize_le(b, 1) {
                Some(s) => Some(
                    MessageType::ScreenIntroduction(ScreenIntroduction { sender_id: s }),
                ),
                None => None,
            }
        } else {
            None
        }
    } else if tag == 14 {
        if len == 17 {
            match (get_usize_le(b, 1), get_usize_le(b, 9)) {
                (Some(ma), Some(o)) => Some(
                    MessageType::OrderComplete(OrderComplete { robot_id_maker: ma, order_id: o }),
                ),
                _ => None,
            }
        } else {
            None
        }
    } else if tag == 15 {
        if len == 17 {
            match (get_usize_le(b, 1), get_usize_le(b, 9)) {
                (Some(ma), Some(o)) => Some(
                    MessageType::OrderDelivered(OrderDelivered { robot_id_maker: ma, order_id: o }),
                ),
                _ => None,
            }
        } else {
            None
        }
    } else if tag == 16 {
        if len == 26 {
            match get_bool(b, 25) {
                Some(sub) => Some(
                    MessageType::UpdateStock(
                        UpdateData {
                            modified_values: get_details(b, 1),
                            timestamp: get_u64_le(b, 17),
                            subtract: sub,
                        },
                    ),
                ),
                None => None,
            }
        } else {
            None
        }
    } else if tag == 17 {
        if len == 14 {
            match get_flavor(b, 1) {
                Some(f) => Some(
                    MessageType::PossibleLostToken(
                        TokenData { flavor: f, timestamp: get_u64_le(b, 2), stock: get_i32_le(b, 10) },
                    ),
                ),
                None => None,
            }
        } else {
            None
        }
    } else if tag == 18 {
        if len == 2 {
            match get_flavor(b, 1) {
                Some(f) => Some(MessageType::TokenFound(f)),
                None => None,
            }
        } else {
            None
        }
    } else if tag == 19 {
        if len == 9 {
            match get_usize_le(b, 1) {
                Some(o) => Some(MessageType::Commit(Commit { order_id: o })),
                None => None,
            }
        } else {
            None
        }
    } else if tag == 20 {
        if len == 9 {
            match get_usize_le(b, 1) {
                Some(o) => Some(MessageType::Abort(Abort { order_id: o })),
                None => None,
            }
        } else {
            None
        }
    } else if tag == 21 {
        if len == 9 {
            match get_usize_le(b, 1) {
                Some(id) => Some(MessageType::NewLeaderIntroduction(id)),
                None => None,
            }
        } else {
            None
        }
    } else if tag == 22 {
        if len == 9 {
            match get_usize_le(b, 1) {
                Some(id) => Some(MessageType::UpdateRobotLeader(id)),
                None => None,
            }
        } else {
            None
        }
    } else if tag == 23 {
        if len == 9 {
            match get_usize_le(b, 1) {
                Some(id) => Some(MessageType::UpdateScreenLeader(id)),
                None => None,
            }
        } else {
            None
        }
    } else {
        None
    }
}


// ---------------------------------------------------------------------------
// Round trip: decoding an encoded body yields the original message
// ---------------------------------------------------------------------------
/// A 64-bit field embedded at an offset reads back as its value.
proof fn lemma_u64_field(b: Seq<u8>, pos: int, x: u64)
    requires
        0 <= pos,
        pos + 8 <= b.len(),
        b.subrange(pos, pos + 8) == spec_u64_le(x),
    ensures
        spec_u64_at(b, pos) == x,
{
    let s = spec_u64_le(x);
    assert(b[pos] == s[0]) by {
        assert(b.subrange(pos, pos + 8)[0] == b[pos]);
    }
    assert(b[pos + 1] == s[1]) by {
        assert(b.subrange(pos, pos + 8)[1] == b[pos + 1]);
    }
    assert(b[pos + 2] == s[2]) by {
        assert(b.subrange(pos, pos + 8)[2] == b[pos + 2]);
    }
    assert(b[pos + 3] == s[3]) by {
        assert(b.subrange(pos, pos + 8)[3] == b[pos + 3]);
    }
    assert(b[pos + 4] == s[4]) by {
        assert(b.subrange(pos, pos + 8)[4] == b[pos + 4]);
    }
    assert(b[pos + 5] == s[5]) by {
        assert(b.subrange(pos, pos + 8)[5] == b[pos + 5]);
    }
    assert(b[pos + 6] == s[6]) by {
        assert(b.subrange(pos, pos + 8)[6] == b[pos + 6]);
    }
    assert(b[pos + 7] == s[7]) by {
        assert(b.subrange(pos, pos + 8)[7] == b[pos + 7]);
    }
    lemma_u64_roundtrip(x);
    assert(spec_u64_at(b, pos) == spec_u64_at(s, 0));
}

/// A node-id field embedded at an offset reads back as its value.
proof fn lemma_usize_field(b: Seq<u8>, pos: int, x: usize)
    requires
        0 <= pos,
        pos + 8 <= b.len(),
        b.subrange(pos, pos + 8) == spec_usize_le(x),
    ensures
        spec_usize_at(b, pos) == Some(x),
{
    lemma_u64_field(b, pos, x as u64);
}

/// A 32-bit field embedded at an offset reads back as its value.
proof fn lemma_u32_field(b: Seq<u8>, pos: int, x: u32)
    requires
        0 <= pos,
        pos + 4 <= b.len(),
        b.subrange(pos, pos + 4) == spec_u32_le(x),
    ensures
        spec_u32_at(b, pos) == x,
{
    let s = spec_u32_le(x);
    assert(b[pos] == s[0]) by {
        assert(b.subrange(pos, pos + 4)[0] == b[pos]);
    }
    assert(b[pos + 1] == s[1]) by {
        assert(b.subrange(pos, pos + 4)[1] == b[pos + 1]);
    }
    assert(b[pos + 2] == s[2]) by {
        assert(b.subrange(pos, pos + 4)[2] == b[pos + 2]);
    }
    assert(b[pos + 3] == s[3]) by {
        assert(b.subrange(pos, pos + 4)[3] == b[pos + 3]);
    }
    lemma_u32_roundtrip(x);
    assert(spec_u32_at(b, pos) == spec_u32_at(s, 0));
}

/// A gram-count field embedded at an offset reads back as its value.
proof fn lemma_i32_field(b: Seq<u8>, pos: int, x: i32)
    requires
        0 <= pos,
        pos + 4 <= b.len(),
        b.subrange(pos, pos + 4) == spec_i32_le(x),
    ensures
        spec_i32_at(b, pos) == x,
{
    lemma_u32_field(b, pos, x as u32);
    assert(((x as u32) as i32) == x) by (bit_vector);
}

/// A gram-table field embedded at an offset reads back as its value.
proof fn lemma_details_field(b: Seq<u8>, pos: int, d: FlavorGrams)
    requires
        0 <= pos,
        pos + 16 <= b.len(),
        b.subrange(pos, pos + 16) == spec_details_le(d),
    ensures
        spec_details_at(b, pos) == d,
{
    assert forall|k: int| 0 <= k < 4 implies b.subrange(pos, pos + 4)[k] == spec_i32_le(
        d.vanilla,
    )[k] by {
        assert(b.subrange(pos, pos + 16)[k] == b[pos + k]);
        assert(spec_details_le(d)[k] == spec_i32_le(d.vanilla)[k]);
    }
    assert(b.subrange(pos, pos + 4) =~= spec_i32_le(d.vanilla));
    assert forall|k: int| 0 <= k < 4 implies b.subrange(pos + 4, pos + 8)[k] == spec_i32_le(
        d.chocolate,
    )[k] by {
        assert(b.subrange(pos, pos + 16)[4 + k] == b[pos + 4 + k]);
        assert(spec_details_le(d)[4 + k] == spec_i32_le(d.chocolate)[k]);
    }
    assert(b.subrange(pos + 4, pos + 8) =~= spec_i32_le(d.chocolate));
    assert forall|k: int| 0 <= k < 4 implies b.subrange(pos + 8, pos + 12)[k] == spec_i32_le(
        d.strawberry,
    )[k] by {
        assert(b.subrange(pos, pos + 16)[8 + k] == b[pos + 8 + k]);
        assert(spec_details_le(d)[8 + k] == spec_i32_le(d.strawberry)[k]);
    }
    assert(b.subrange(pos + 8, pos + 12) =~= spec_i32_le(d.strawberry));
    assert forall|k: int| 0 <= k < 4 implies b.subrange(pos + 12, pos + 16)[k] == spec_i32_le(
        d.mint,
    )[k] by {
        assert(b.subrange(pos, pos + 16)[12 + k] == b[pos + 12 + k]);
        assert(spec_details_le(d)[12 + k] == spec_i32_le(d.mint)[k]);
    }
    assert(b.subrange(pos + 12, pos + 16) =~= spec_i32_le(d.mint));
    lemma_i32_field(b, pos, d.vanilla);
    lemma_i32_field(b, pos + 4, d.chocolate);
    lemma_i32_field(b, pos + 8, d.strawberry);
    lemma_i32_field(b, pos + 12, d.mint);
}

/// Decoding an encoded body yields the message that was encoded: the codec
/// loses nothing.
/// Decoding an encoded body yields the message that was encoded: the codec
/// loses nothing.
pub proof fn lemma_codec_round_trip(m: MessageType)
    ensures
        spec_decode_body(spec_encode_body(m)) == Some(m),
{
    match m {
        MessageType::DeadRobot(d) => lemma_rt_deadrobot(m),
        MessageType::DeadScreen(d) => lemma_rt_deadscreen(m),
        MessageType::NewLeader(d) => lemma_rt_newleader(m),
        MessageType::Election(d) => lemma_rt_election(m),
        MessageType::RemoveRobot(id) => lemma_rt_removerobot(m),
        MessageType::AllConnected(d) => lemma_rt_allconnected(m),
        MessageType::Token(t) => lemma_rt_token(m),
        MessageType::OrderScreen(o) => lemma_rt_orderscreen(m),
        MessageType::Order(o) => lemma_rt_order(m),
        MessageType::Prepare(pr) => lemma_rt_prepare(m),
        MessageType::Kill() => lemma_rt_kill(m),
        MessageType::NewOrder(o) => lemma_rt_neworder(m),
        MessageType::RobotIntroduction(d) => lemma_rt_robotintroduction(m),
        MessageType::ScreenIntroduction(d) => lemma_rt_screenintroduction(m),
        MessageType::OrderComplete(d) => lemma_rt_ordercomplete(m),
        MessageType::OrderDelivered(d) => lemma_rt_orderdelivered(m),
        MessageType::UpdateStock(u) => lemma_rt_updatestock(m),
        MessageType::PossibleLostToken(t) => lemma_rt_possiblelosttoken(m),
        MessageType::TokenFound(f) => lemma_rt_tokenfound(m),
        MessageType::Commit(c) => lemma_rt_commit(m),
        MessageType::Abort(a) => lemma_rt_abort(m),
        MessageType::NewLeaderIntroduction(id) => lemma_rt_newleaderintroduction(m),
        MessageType::UpdateRobotLeader(id) => lemma_rt_updaterobotleader(m),
        MessageType::UpdateScreenLeader(id) => lemma_rt_updatescreenleader(m),
    }
}

proof fn lemma_rt_deadrobot(m: MessageType)
    requires
        m matches MessageType::DeadRobot(d),
    ensures
        spec_decode_body(spec_encode_body(m)) == Some(m),
{
    let b = spec_encode_body(m);
    if let MessageType::DeadRobot(d) = m {
            assert(b.subrange(1, 9) =~= spec_usize_le(d.sender_id));
            assert(b.subrange(9, 17) =~= spec_usize_le(d.dead_robot_id));
            lemma_usize_field(b, 1, d.sender_id);
            lemma_usize_field(b, 9, d.dead_robot_id);
        
    }
}

proof fn lemma_rt_deadscreen(m: MessageType)
    requires
        m matches MessageType::DeadScreen(d),
    ensures
        spec_decode_body(spec_encode_body(m)) == Some(m),
{
    let b = spec_encode_body(m);
    if let MessageType::DeadScreen(d) = m {
            assert(b.subrange(1, 9) =~= spec_usize_le(d.sender_id));
            assert(b.subrange(9, 17) =~= spec_usize_le(d.dead_screen_id));
            lemma_usize_field(b, 1, d.sender_id);
            lemma_usize_field(b, 9, d.dead_screen_id);
        
    }
}

proof fn lemma_rt_newleader(m: MessageType)
    requires
        m matches MessageType::NewLeader(d),
    ensures
        spec_decode_body(spec_encode_body(m)) == Some(m),
{
    let b = spec_encode_body(m);
    if let MessageType::NewLeader(d) = m {
            assert(b.subrange(1, 9) =~= spec_usize_le(d.sender_id));
            assert(b.subrange(9, 17) =~= spec_usize_le(d.new_leader_id));
            assert(b.subrange(17, 25) =~= spec_usize_le(d.dead_leader_id));
            lemma_usize_field(b, 1, d.sender_id);
            lemma_usize_field(b, 9, d.new_leader_id);
            lemma_usize_field(b, 17, d.dead_leader_id);
        
    }
}

proof fn lemma_rt_election(m: MessageType)
    requires
        m matches MessageType::Election(d),
    ensures
        spec_decode_body(spec_encode_body(m)) == Some(m),
{
    let b = spec_encode_body(m);
    if let MessageType::Election(d) = m {
            assert(b.subrange(1, 9) =~= spec_usize_le(d.sender_id));
            assert(b.subrange(9, 17) =~= spec_usize_le(d.current_candidate_id));
            assert(b.subrange(17, 25) =~= spec_usize_le(d.dead_leader_id));
            lemma_usize_field(b, 1, d.sender_id);
            lemma_usize_field(b, 9, d.current_candidate_id);
            lemma_usize_field(b, 17, d.dead_leader_id);
        
    }
}

proof fn lemma_rt_removerobot(m: MessageType)
    requires
        m matches MessageType::RemoveRobot(id),
    ensures
        spec_decode_body(spec_encode_body(m)) == Some(m),
{
    let b = spec_encode_body(m);
    if let MessageType::RemoveRobot(id) = m {
            assert(b.subrange(1, 9) =~= spec_usize_le(id));
            lemma_usize_field(b, 1, id);
        
    }
}

proof fn lemma_rt_allconnected(m: MessageType)
    requires
        m matches MessageType::AllConnected(d),
    ensures
        spec_decode_body(spec_encode_body(m)) == Some(m),
{
    let b = spec_encode_body(m);
    if let MessageType::AllConnected(d) = m {
            assert(b.subrange(1, 9) =~= spec_usize_le(d.sender_id));
            lemma_usize_field(b, 1, d.sender_id);
        
    }
}

proof fn lemma_rt_token(m: MessageType)
    requires
        m matches MessageType::Token(t),
    ensures
        spec_decode_body(spec_encode_body(m)) == Some(m),
{
    let b = spec_encode_body(m);
    if let MessageType::Token(t) = m {
            assert(b.subrange(1, 9) =~= spec_usize_le(t.sender_id));
            assert(b[9] == spec_flavor_tag(t.flavour));
            assert(b.subrange(10, 18) =~= spec_usize_le(t.last_modified_by_id));
            assert(b.subrange(18, 26) =~= spec_u64_le(t.last_modification_timestamp));
            assert(b.subrange(26, 30) =~= spec_i32_le(t.available_ammount));
            lemma_usize_field(b, 1, t.sender_id);
            lemma_usize_field(b, 10, t.last_modified_by_id);
            lemma_u64_field(b, 18, t.last_modification_timestamp);
            lemma_i32_field(b, 26, t.available_ammount);
        
    }
}

proof fn lemma_rt_orderscreen(m: MessageType)
    requires
        m matches MessageType::OrderScreen(o),
    ensures
        spec_decode_body(spec_encode_body(m)) == Some(m),
{
    let b = spec_encode_body(m);
    if let MessageType::OrderScreen(o) = m {
            assert(b.subrange(1, 9) =~= spec_usize_le(o.sender_id));
            assert(b.subrange(9, 17) =~= spec_usize_le(o.order_id));
            assert(b.subrange(17, 33) =~= spec_details_le(o.order_details));
            lemma_usize_field(b, 1, o.sender_id);
            lemma_usize_field(b, 9, o.order_id);
            lemma_details_field(b, 17, o.order_details);
        
    }
}

proof fn lemma_rt_order(m: MessageType)
    requires
        m matches MessageType::Order(o),
    ensures
        spec_decode_body(spec_encode_body(m)) == Some(m),
{
    let b = spec_encode_body(m);
    if let MessageType::Order(o) = m {
            assert(b.subrange(1, 9) =~= spec_usize_le(o.order_id));
            assert(b.subrange(9, 25) =~= spec_details_le(o.order_details));
            lemma_usize_field(b, 1, o.order_id);
            lemma_details_field(b, 9, o.order_details);
        
    }
}

proof fn lemma_rt_prepare(m: MessageType)
    requires
        m matches MessageType::Prepare(pr),
    ensures
        spec_decode_body(spec_encode_body(m)) == Some(m),
{
    let b = spec_encode_body(m);
    if let MessageType::Prepare(pr) = m {
            assert(b.subrange(1, 9) =~= spec_usize_le(pr.sender_id));
            assert(b.subrange(9, 17) =~= spec_usize_le(pr.target_id));
            assert(b.subrange(17, 25) =~= spec_usize_le(pr.order_id));
            assert(b.subrange(25, 41) =~= spec_details_le(pr.order_details));
            lemma_usize_field(b, 1, pr.sender_id);
            lemma_usize_field(b, 9, pr.target_id);
            lemma_usize_field(b, 17, pr.order_id);
            lemma_details_field(b, 25, pr.order_details);
        
    }
}

proof fn lemma_rt_kill(m: MessageType)
    requires
        m matches MessageType::Kill(),
    ensures
        spec_decode_body(spec_encode_body(m)) == Some(m),
{
    let b = spec_encode_body(m);
    if let MessageType::Kill() = m {

    }
}

proof fn lemma_rt_neworder(m: MessageType)
    requires
        m matches MessageType::NewOrder(o),
    ensures
        spec_decode_body(spec_encode_body(m)) == Some(m),
{
    let b = spec_encode_body(m);
    if let MessageType::NewOrder(o) = m {
            assert(b.subrange(1, 9) =~= spec_usize_le(o.target_id));
            assert(b.subrange(9, 17) =~= spec_usize_le(o.order_id));
            assert(b.subrange(17, 33) =~= spec_details_le(o.order_details));
            lemma_usize_field(b, 1, o.target_id);
            lemma_usize_field(b, 9, o.order_id);
            lemma_details_field(b, 17, o.order_details);
        
    }
}

proof fn lemma_rt_robotintroduction(m: MessageType)
    requires
        m matches MessageType::RobotIntroduction(d),
    ensures
        spec_decode_body(spec_encode_body(m)) == Some(m),
{
    let b = spec_encode_body(m);
    if let MessageType::RobotIntroduction(d) = m {
            assert(b.subrange(1, 9) =~= spec_usize_le(d.sender_id));
            lemma_usize_field(b, 1, d.sender_id);
        
    }
}

proof fn lemma_rt_screenintroduction(m: MessageType)
    requires
        m matches MessageType::ScreenIntroduction(d),
    ensures
        spec_decode_body(spec_encode_body(m)) == Some(m),
{
    let b = spec_encode_body(m);
    if let MessageType::ScreenIntroduction(d) = m {
            assert(b.subrange(1, 9) =~= spec_usize_le(d.sender_id));
            lemma_usize_field(b, 1, d.sender_id);
        
    }
}

proof fn lemma_rt_ordercomplete(m: MessageType)
    requires
        m matches MessageType::OrderComplete(d),
    ensures
        spec_decode_body(spec_encode_body(m)) == Some(m),
{
    let b = spec_encode_body(m);
    if let MessageType::OrderComplete(d) = m {
            assert(b.subrange(1, 9) =~= spec_usize_le(d.robot_id_maker));
            assert(b.subrange(9, 17) =~= spec_usize_le(d.order_id));
            lemma_usize_field(b, 1, d.robot_id_maker);
            lemma_usize_field(b, 9, d.order_id);
        
    }
}

proof fn lemma_rt_orderdelivered(m: MessageType)
    requires
        m matches MessageType::OrderDelivered(d),
    ensures
        spec_decode_body(spec_encode_body(m)) == Some(m),
{
    let b = spec_encode_body(m);
    if let MessageType::OrderDelivered(d) = m {
            assert(b.subrange(1, 9) =~= spec_usize_le(d.robot_id_maker));
            assert(b.subrange(9, 17) =~= spec_usize_le(d.order_id));
            lemma_usize_field(b, 1, d.robot_id_maker);
            lemma_usize_field(b, 9, d.order_id);
        
    }
}

proof fn lemma_rt_updatestock(m: MessageType)
    requires
        m matches MessageType::UpdateStock(u),
    ensures
        spec_decode_body(spec_encode_body(m)) == Some(m),
{
    let b = spec_encode_body(m);
    if let MessageType::UpdateStock(u) = m {
            assert(b.subrange(1, 17) =~= spec_details_le(u.modified_values));
            assert(b.subrange(17, 25) =~= spec_u64_le(u.timestamp));
            assert(b[25] == spec_bool_byte(u.subtract));
            lemma_details_field(b, 1, u.modified_values);
            lemma_u64_field(b, 17, u.timestamp);
        
    }
}

proof fn lemma_rt_possiblelosttoken(m: MessageType)
    requires
        m matches MessageType::PossibleLostToken(t),
    ensures
        spec_decode_body(spec_encode_body(m)) == Some(m),
{
    let b = spec_encode_body(m);
    if let MessageType::PossibleLostToken(t) = m {
            assert(b[1] == spec_flavor_tag(t.flavor));
            assert(b.subrange(2, 10) =~= spec_u64_le(t.timestamp));
            assert(b.subrange(10, 14) =~= spec_i32_le(t.stock));
            lemma_u64_field(b, 2, t.timestamp);
            lemma_i32_field(b, 10, t.stock);
        
    }
}

proof fn lemma_rt_tokenfound(m: MessageType)
    requires
        m matches MessageType::TokenFound(f),
    ensures
        spec_decode_body(spec_encode_body(m)) == Some(m),
{
    let b = spec_encode_body(m);
    if let MessageType::TokenFound(f) = m {
            assert(b[1] == spec_flavor_tag(f));
        
    }
}

proof fn lemma_rt_commit(m: MessageType)
    requires
        m matches MessageType::Commit(c),
    ensures
        spec_decode_body(spec_encode_body(m)) == Some(m),
{
    let b = spec_encode_body(m);
    if let MessageType::Commit(c) = m {
            assert(b.subrange(1, 9) =~= spec_usize_le(c.order_id));
            lemma_usize_field(b, 1, c.order_id);
        
    }
}

proof fn lemma_rt_abort(m: MessageType)
    requires
        m matches MessageType::Abort(a),
    ensures
        spec_decode_body(spec_encode_body(m)) == Some(m),
{
    let b = spec_encode_body(m);
    if let MessageType::Abort(a) = m {
            assert(b.subrange(1, 9) =~= spec_usize_le(a.order_id));
            lemma_usize_field(b, 1, a.order_id);
        
    }
}

proof fn lemma_rt_newleaderintroduction(m: MessageType)
    requires
        m matches MessageType::NewLeaderIntroduction(id),
    ensures
        spec_decode_body(spec_encode_body(m)) == Some(m),
{
    let b = spec_encode_body(m);
    if let MessageType::NewLeaderIntroduction(id) = m {
            assert(b.subrange(1, 9) =~= spec_usize_le(id));
            lemma_usize_field(b, 1, id);
        
    }
}

proof fn lemma_rt_updaterobotleader(m: MessageType)
    requires
        m matches MessageType::UpdateRobotLeader(id),
    ensures
        spec_decode_body(spec_encode_body(m)) == Some(m),
{
    let b = spec_encode_body(m);
    if let MessageType::UpdateRobotLeader(id) = m {
            assert(b.subrange(1, 9) =~= spec_usize_le(id));
            lemma_usize_field(b, 1, id);
        
    }
}

proof fn lemma_rt_updatescreenleader(m: MessageType)
    requires
        m matches MessageType::UpdateScreenLeader(id),
    ensures
        spec_decode_body(spec_encode_body(m)) == Some(m),
{
    let b = spec_encode_body(m);
    if let MessageType::UpdateScreenLeader(id) = m {
            assert(b.subrange(1, 9) =~= spec_usize_le(id));
            lemma_usize_field(b, 1, id);
        
    }
}

// ---------------------------------------------------------------------------
// Frame recovery from a byte stream
// ---------------------------------------------------------------------------
/// How a byte stream splits into the first complete record body and the
/// remainder, when a complete record has arrived.
pub open spec fn spec_frame_split(b: Seq<u8>) -> Option<(Seq<u8>, Seq<u8>)> {
    if b.len() >= 4 {
        let n = spec_u32_at(b, 0) as int;
        if b.len() >= 4 + n {
            Some((b.subrange(4, 4 + n), b.subrange(4 + n, b.len() as int)))
        } else {
            None
        }
    } else {
        None
    }
}

/// Accumulates raw bytes read from a socket and hands back whole record
/// bodies: several records in one read and one record split across reads are
/// both recovered intact.
pub struct FrameBuffer {
    pub buf: Vec<u8>,
}

impl FrameBuffer {
    /// An empty buffer.
    pub fn new() -> (r: FrameBuffer)
        ensures
            r.buf@ =~= Seq::<u8>::empty(),
    {
        FrameBuffer { buf: Vec::new() }
    }

    /// Appends the bytes of one socket read.
    pub fn push_chunk(&mut self, chunk: &[u8])
        ensures
            final(self).buf@ == old(self).buf@ + chunk@,
    {
        let clen = chunk.len();
        let mut i: usize = 0;
        while i < clen
            invariant
                i <= clen,
                clen == chunk@.len(),
                self.buf@ == old(self).buf@ + chunk@.take(i as int),
            decreases clen - i,
        {
            self.buf.push(chunk[i]);
            proof {
                assert(chunk@.take(i + 1) =~= chunk@.take(i as int).push(chunk@[i as int]));
            }
            i += 1;
        }
        proof {
            assert(chunk@.take(clen as int) =~= chunk@);
        }
    }

    /// Pops the first complete record body, if one has fully arrived.
    pub fn pop_frame(&mut self) -> (r: Option<Vec<u8>>)
        ensures
            match r {
                Some(body) => spec_frame_split(old(self).buf@) == Some(
                    (body@, final(self).buf@),
                ),
                None => spec_frame_split(old(self).buf@) is None && final(self).buf@ == old(
                    self,
                ).buf@,
            },
    {
        let blen = self.buf.len();
        if blen < 4 {
            return None;
        }
        let n32 = get_u32_le(&self.buf, 0);
        let n = n32 as usize;
        if blen - 4 < n {
            return None;
        }
        let mut body: Vec<u8> = Vec::new();
        let mut i: usize = 0;
        while i < n
            invariant
                i <= n,
                4 + n <= blen,
                blen == self.buf@.len(),
                self.buf@ == old(self).buf@,
                body@ == self.buf@.subrange(4, 4 + i as int),
            decreases n - i,
        {
            body.push(self.buf[4 + i]);
            proof {
                assert(self.buf@.subrange(4, 4 + (i + 1) as int) =~= self.buf@.subrange(
                    4,
                    4 + i as int,
                ).push(self.buf@[4 + i as int]));
            }
            i += 1;
        }
        let mut rest: Vec<u8> = Vec::new();
        let mut j: usize = 4 + n;
        while j < blen
            invariant
                4 + n <= j <= blen,
                blen == self.buf@.len(),
                self.buf@ == old(self).buf@,
                rest@ == self.buf@.subrange(4 + n as int, j as int),
            decreases blen - j,
        {
            rest.push(self.buf[j]);
            proof {
                assert(self.buf@.subrange(4 + n as int, j + 1) =~= self.buf@.subrange(
                    4 + n as int,
                    j as int,
                ).push(self.buf@[j as int]));
            }
            j += 1;
        }
        self.buf = rest;
        Some(body)
    }
}

/// A serialized record followed by any further bytes splits back into exactly
/// that record's body and the further bytes; decoding the body yields the
/// original message. Together with `lemma_codec_round_trip` this says the
/// framing tolerates concatenated records and partial reads.
pub proof fn lemma_wire_round_trip(m: MessageType, rest: Seq<u8>)
    ensures
        spec_frame_split(spec_frame(m) + rest) == Some((spec_encode_body(m), rest)),
        spec_decode_body(spec_encode_body(m)) == Some(m),
{
    let body = spec_encode_body(m);
    lemma_body_len(m);
    let b = spec_frame(m) + rest;
    assert(b.subrange(0, 4) =~= spec_u32_le(body.len() as u32));
    lemma_u32_field(b, 0, body.len() as u32);
    assert(spec_u32_at(b, 0) as int == body.len() as int);
    assert(b.subrange(4, 4 + body.len() as int) =~= body);
    assert(b.subrange(4 + body.len() as int, b.len() as int) =~= rest);
    lemma_codec_round_trip(m);
}

} // verus!



