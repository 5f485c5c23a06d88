//! The gateway: payment authorization, order-id assignment, and the durable
//! append-only transaction log that is the system's recovery authority.
//!
//! The state here is the gateway's decision core. The caller owns the TCP
//! side and the log file: it hands complete command texts in, sends the
//! returned response lines back, and appends each newly returned log line to
//! the file, in order.
use vstd::prelude::*;

use crate::text::{
    parse_u32, spec_digits_value, spec_join_commas, spec_no_comma, spec_parses_as_u32, spec_trim,
    spec_u64_string, spec_views, split_commas, str_eq, trim_ws, u64_to_string,
};

verus! {

/// The three kinds of transaction-log lines.
#[derive(Clone, Copy, Debug, PartialEq, Eq, Structural)]
pub enum LogKind {
    Prepare,
    Commit,
    Abort,
}

/// Whether a log line resolves an order rather than opening one.
pub open spec fn spec_is_resolution(k: LogKind) -> bool {
    k != LogKind::Prepare
}

/// One transaction-log line: a kind, the order id, and the detail text the
/// client supplied with the original authorization request.
#[derive(Clone, Debug)]
pub struct LogEntry {
    pub kind: LogKind,
    pub order_id: u32,
    pub details: String,
}

/// The order ids of the `PREPARE` lines, in log order.
pub open spec fn spec_prepare_ids(log: Seq<LogEntry>) -> Seq<u32>
    decreases log.len(),
{
    if log.len() == 0 {
        Seq::empty()
    } else {
        let rest = spec_prepare_ids(log.drop_last());
        if log.last().kind == LogKind::Prepare {
            rest.push(log.last().order_id)
        } else {
            rest
        }
    }
}

/// The ids are exactly 1, 2, 3, ... in order: dense and strictly increasing.
#[verifier::opaque]
pub open spec fn spec_ids_dense(ids: Seq<u32>) -> bool {
    forall|i: int| 0 <= i < ids.len() ==> #[trigger] ids[i] as int == i + 1
}

/// What makes a transaction log legal.
///
/// - the `PREPARE` ids are dense, starting at 1, so no two `PREPARE` lines
///   share an id;
/// - no two `COMMIT`/`ABORT` lines share an order id, so each order is
///   resolved at most once, and never both committed and aborted;
/// - every `COMMIT`/`ABORT` line is preceded by a `PREPARE` line with the
///   same id and the same details.
#[verifier::opaque]
pub open spec fn spec_log_wf(log: Seq<LogEntry>) -> bool {
    &&& spec_ids_dense(spec_prepare_ids(log))
    &&& forall|i: int, j: int|
        0 <= i < j < log.len() && (#[trigger] log[i]).kind == LogKind::Prepare && (
        #[trigger] log[j]).kind == LogKind::Prepare ==> log[i].order_id != log[j].order_id
    &&& forall|i: int, j: int|
        0 <= i < j < log.len() && spec_is_resolution(#[trigger] log[i].kind) && spec_is_resolution(
            #[trigger] log[j].kind,
        ) ==> log[i].order_id != log[j].order_id
    &&& forall|j: int|
        0 <= j < log.len() && spec_is_resolution(#[trigger] log[j].kind) ==> spec_paired(log, j)
}

/// Whether the resolution line at position `j` is paired: some earlier
/// `PREPARE` line carries the same order id and the same details.
#[verifier::opaque]
pub open spec fn spec_paired(log: Seq<LogEntry>, j: int) -> bool {
    exists|i: int|
        0 <= i < j && (#[trigger] log[i]).kind == LogKind::Prepare && log[i].order_id
            == log[j].order_id && log[i].details@ == log[j].details@
}

/// Whether the log resolves this order id.
#[verifier::opaque]
pub open spec fn spec_resolved(log: Seq<LogEntry>, id: u32) -> bool {
    exists|j: int| 0 <= j < log.len() && spec_is_resolution((#[trigger] log[j]).kind) && log[j].order_id
        == id
}

/// One response line of the gateway protocol.
#[derive(Clone, Debug)]
pub enum GatewayResponse {
    /// `COMMIT,<id>`: the payment was authorized under this order id.
    CommitId(u32),
    /// `ABORT`: the payment was rejected.
    Rejected,
    /// `Invalid order ID`: the id of a `COMMIT`/`ABORT` command is malformed.
    InvalidOrderId,
    /// `Unknown command`: the first token names no command.
    UnknownCommand,
    /// `ORDERS,<id>:<details>,...`: the orders prepared but not yet resolved.
    InFlightOrders(Vec<(u32, String)>),
}

/// No order id appears twice in the in-flight table.
#[verifier::opaque]
pub open spec fn spec_table_keys_distinct(t: Seq<(u32, String)>) -> bool {
    forall|i: int, j: int| 0 <= i < j < t.len() ==> (#[trigger] t[i]).0 != (#[trigger] t[j]).0
}

/// Every in-flight id was assigned: positive and below the next id.
#[verifier::opaque]
pub open spec fn spec_table_ids_below(t: Seq<(u32, String)>, current: u32) -> bool {
    forall|i: int| 0 <= i < t.len() ==> 1 <= (#[trigger] t[i]).0 < current
}

/// Whether some `PREPARE` line carries this id and these details.
#[verifier::opaque]
pub open spec fn spec_backed_one(log: Seq<LogEntry>, id: u32, details: Seq<char>) -> bool {
    exists|k: int|
        0 <= k < log.len() && (#[trigger] log[k]).kind == LogKind::Prepare && log[k].order_id
            == id && log[k].details@ == details
}

/// Every in-flight entry is backed by a `PREPARE` line with its id and
/// details.
#[verifier::opaque]
pub open spec fn spec_table_backed(log: Seq<LogEntry>, t: Seq<(u32, String)>) -> bool {
    forall|i: int|
        0 <= i < t.len() ==> spec_backed_one(log, (#[trigger] t[i]).0, t[i].1@)
}

/// No in-flight order has been resolved.
#[verifier::opaque]
pub open spec fn spec_table_unresolved(log: Seq<LogEntry>, t: Seq<(u32, String)>) -> bool {
    forall|i: int| 0 <= i < t.len() ==> !spec_resolved(log, (#[trigger] t[i]).0)
}

/// Whether the in-flight table holds this order id.
#[verifier::opaque]
pub open spec fn spec_table_has(t: Seq<(u32, String)>, id: u32) -> bool {
    exists|i: int| 0 <= i < t.len() && (#[trigger] t[i]).0 == id
}

/// Every prepared order that the log does not resolve is in flight.
#[verifier::opaque]
pub open spec fn spec_unresolved_in_table(log: Seq<LogEntry>, t: Seq<(u32, String)>) -> bool {
    forall|k: int|
        0 <= k < log.len() && (#[trigger] log[k]).kind == LogKind::Prepare && !spec_resolved(
            log,
            log[k].order_id,
        ) ==> spec_table_has(t, log[k].order_id)
}

/// The gateway's state: the rejection setting, the next order id, the
/// in-flight orders, and the transaction log.
pub struct Gateway {
    pub rejection_percentage: u8,
    pub current_order_id: u32,
    pub orders_table: Vec<(u32, String)>,
    pub log: Vec<LogEntry>,
}

impl Gateway {
    /// Whether the in-flight table has this order.
    pub open spec fn has_id(self, id: u32) -> bool {
        exists|i: int| 0 <= i < self.orders_table@.len() && (#[trigger] self.orders_table@[i]).0
            == id
    }

    /// The position of this order in the in-flight table.
    pub open spec fn id_index(self, id: u32) -> int {
        choose|i: int| 0 <= i < self.orders_table@.len() && (#[trigger] self.orders_table@[i]).0
            == id
    }

    /// The detail text stored for an in-flight order.
    pub open spec fn spec_details_of(self, id: u32) -> Seq<char> {
        self.orders_table@[self.id_index(id)].1@
    }

    /// The gateway invariant: the log is legal, the next id continues the
    /// dense sequence, and the in-flight table holds exactly the prepared but
    /// unresolved orders, with the details their `PREPARE` lines carry.
    pub open spec fn wf(self) -> bool {
        &&& spec_log_wf(self.log@)
        &&& self.current_order_id as int == 1 + spec_prepare_ids(self.log@).len()
        &&& spec_table_keys_distinct(self.orders_table@)
        &&& spec_table_ids_below(self.orders_table@, self.current_order_id)
        &&& spec_table_backed(self.log@, self.orders_table@)
        &&& spec_table_unresolved(self.log@, self.orders_table@)
        &&& spec_unresolved_in_table(self.log@, self.orders_table@)
    }

    /// A fresh gateway: the first order will get id 1, nothing is in flight,
    /// and the log is empty.
    pub fn new(rejection_percentage: u8) -> (r: Gateway)
        ensures
            r.wf(),
            r.rejection_percentage == rejection_percentage,
            r.current_order_id == 1,
            r.orders_table@.len() == 0,
            r.log@.len() == 0,
    {
        let g = Gateway {
            rejection_percentage,
            current_order_id: 1,
            orders_table: Vec::new(),
            log: Vec::new(),
        };
        proof {
            lemma_empty_gateway_wf(g);
        }
        g
    }

    /// Finds an in-flight order's position.
    fn find_index(&self, id: u32) -> (r: Option<usize>)
        ensures
            match r {
                Some(i) => i < self.orders_table@.len() && self.orders_table@[i as int].0 == id,
                None => !self.has_id(id),
            },
    {
        let mut i: usize = 0;
        while i < self.orders_table.len()
            invariant
                i <= self.orders_table@.len(),
                forall|j: int| 0 <= j < i ==> (#[trigger] self.orders_table@[j]).0 != id,
            decreases self.orders_table@.len() - i,
        {
            if self.orders_table[i].0 == id {
                return Some(i);
            }
            i += 1;
        }
        None
    }

    /// Handles a `PREPARE` command: with the drawn percentage at or above the
    /// rejection setting the payment is authorized, the order gets the next
    /// id, the `PREPARE` line is logged, and the order becomes in-flight;
    /// otherwise the request is rejected and nothing changes.
    #[verifier::rlimit(60)]
    pub fn handle_prepare(&mut self, order_details: String, draw: u8) -> (resp: GatewayResponse)
        requires
            old(self).wf(),
            old(self).current_order_id < u32::MAX,
            draw < 100,
        ensures
            final(self).wf(),
            final(self).rejection_percentage == old(self).rejection_percentage,
            if draw >= old(self).rejection_percentage {
                &&& resp == GatewayResponse::CommitId(old(self).current_order_id)
                &&& final(self).current_order_id == old(self).current_order_id + 1
                &&& final(self).log@.len() == old(self).log@.len() + 1
                &&& final(self).log@ == old(self).log@.push(
                    LogEntry {
                        kind: LogKind::Prepare,
                        order_id: old(self).current_order_id,
                        details: final(self).log@.last().details,
                    },
                )
                &&& final(self).log@.last().details@ == order_details@
                &&& final(self).orders_table@.len() == old(self).orders_table@.len() + 1
                &&& final(self).orders_table@.last().0 == old(self).current_order_id
                &&& final(self).orders_table@.last().1@ == order_details@
                &&& forall|t: int|
                    0 <= t < old(self).orders_table@.len() ==> #[trigger] final(self).orders_table@[t] == old(self).orders_table@[t]
            } else {
                &&& resp == GatewayResponse::Rejected
                &&& final(self).current_order_id == old(self).current_order_id
                &&& final(self).log@ == old(self).log@
                &&& final(self).orders_table@ == old(self).orders_table@
            },
    {
        if draw >= self.rejection_percentage {
            let new_order_id = self.current_order_id;
            let entry = LogEntry {
                kind: LogKind::Prepare,
                order_id: new_order_id,
                details: order_details.clone(),
            };
            self.current_order_id = self.current_order_id + 1;
            self.orders_table.push((new_order_id, order_details));
            self.log.push(entry);
            proof {
                let log = old(self).log@;
                let e = self.log@.last();
                let te = self.orders_table@.last();
                assert(self.log@ =~= log.push(e));
                assert(self.orders_table@ =~= old(self).orders_table@.push(te));
                lemma_log_wf_push_prepare(log, e);
                lemma_prepare_ids_push(log, e);
                lemma_table_push_prepare_keys(old(self).orders_table@, te, new_order_id);
                lemma_table_push_prepare_backed(log, old(self).orders_table@, e, te);
                lemma_table_push_prepare_unresolved(
                    log,
                    old(self).orders_table@,
                    e,
                    te,
                    new_order_id,
                );
                lemma_table_push_prepare_covers(log, old(self).orders_table@, e, te);
            }
            GatewayResponse::CommitId(new_order_id)
        } else {
            GatewayResponse::Rejected
        }
    }

    /// Resolves an in-flight order: logs the `COMMIT`/`ABORT` line with the
    /// details recorded at authorization and drops the order from the table.
    /// An id that is not in flight is silently dropped, so an order is never
    /// resolved twice.
    pub fn resolve_order(&mut self, order_id: u32, kind: LogKind) -> (logged: bool)
        requires
            old(self).wf(),
            spec_is_resolution(kind),
        ensures
            final(self).wf(),
            final(self).current_order_id == old(self).current_order_id,
            final(self).rejection_percentage == old(self).rejection_percentage,
            logged == old(self).has_id(order_id),
            if old(self).has_id(order_id) {
                &&& final(self).log@.len() == old(self).log@.len() + 1
                &&& final(self).log@ == old(self).log@.push(final(self).log@.last())
                &&& final(self).log@.last().kind == kind
                &&& final(self).log@.last().order_id == order_id
                &&& final(self).log@.last().details@ == old(self).spec_details_of(order_id)
                &&& final(self).orders_table@ == old(self).orders_table@.remove(
                    old(self).id_index(order_id),
                )
            } else {
                &&& final(self).log@ == old(self).log@
                &&& final(self).orders_table@ == old(self).orders_table@
            },
    {
        match self.find_index(order_id) {
            Some(i) => {
                proof {
                    lemma_table_unique_index(*self, order_id, i as int);
                }
                let entry = self.orders_table.remove(i);
                let log_entry = LogEntry { kind, order_id, details: entry.1 };
                self.log.push(log_entry);
                proof {
                    let log = old(self).log@;
                    let t = old(self).orders_table@;
                    let e = self.log@.last();
                    assert(self.log@ =~= log.push(e));
                    assert(old(self).has_id(order_id));
                    assert(old(self).id_index(order_id) == i as int);
                    assert(old(self).spec_details_of(order_id) == t[i as int].1@);
                    assert(e.details@ == t[i as int].1@);
                    lemma_resolution_table_facts(log, t, i as int);
                    lemma_log_wf_push_resolution(log, e);
                    lemma_prepare_ids_push(log, e);
                    lemma_table_remove_keys(t, i as int, old(self).current_order_id);
                    lemma_table_remove_backed(log, t, e, i as int);
                    lemma_table_remove_unresolved(log, t, e, i as int);
                    lemma_table_remove_covers(log, t, e, i as int);
                }
                true
            },
            None => false,
        }
    }

    /// Handles a `COMMIT` command: a malformed id draws the error line; a
    /// well-formed one resolves the order if it is in flight.
    pub fn handle_commit(&mut self, id_text: &str) -> (resp: Option<GatewayResponse>)
        requires
            old(self).wf(),
        ensures
            final(self).wf(),
            final(self).current_order_id == old(self).current_order_id,
            final(self).rejection_percentage == old(self).rejection_percentage,
            !spec_parses_as_u32(id_text@) ==> resp == Some(GatewayResponse::InvalidOrderId)
                && final(self).log@ == old(self).log@ && final(self).orders_table@ == old(self).orders_table@,
            spec_parses_as_u32(id_text@) ==> resp is None && spec_resolve_step(
                *old(self),
                *final(self),
                spec_digits_value(id_text@) as u32,
                LogKind::Commit,
            ),
    {
        match parse_u32(id_text) {
            Some(id) => {
                self.resolve_order(id, LogKind::Commit);
                None
            },
            None => Some(GatewayResponse::InvalidOrderId),
        }
    }

    /// Handles an `ABORT` command, symmetric with `COMMIT`.
    pub fn handle_abort(&mut self, id_text: &str) -> (resp: Option<GatewayResponse>)
        requires
            old(self).wf(),
        ensures
            final(self).wf(),
            final(self).current_order_id == old(self).current_order_id,
            final(self).rejection_percentage == old(self).rejection_percentage,
            !spec_parses_as_u32(id_text@) ==> resp == Some(GatewayResponse::InvalidOrderId)
                && final(self).log@ == old(self).log@ && final(self).orders_table@ == old(self).orders_table@,
            spec_parses_as_u32(id_text@) ==> resp is None && spec_resolve_step(
                *old(self),
                *final(self),
                spec_digits_value(id_text@) as u32,
                LogKind::Abort,
            ),
    {
        match parse_u32(id_text) {
            Some(id) => {
                self.resolve_order(id, LogKind::Abort);
                None
            },
            None => Some(GatewayResponse::InvalidOrderId),
        }
    }

    /// Handles an `ORDERS` command: a copy of the in-flight table.
    pub fn handle_orders(&self) -> (r: Vec<(u32, String)>)
        ensures
            r@.len() == self.orders_table@.len(),
            forall|i: int|
                0 <= i < r@.len() ==> (#[trigger] r@[i]).0 == self.orders_table@[i].0 && r@[i].1@
                    == self.orders_table@[i].1@,
    {
        let mut r: Vec<(u32, String)> = Vec::new();
        let mut i: usize = 0;
        while i < self.orders_table.len()
            invariant
                i <= self.orders_table@.len(),
                r@.len() == i,
                forall|j: int|
                    0 <= j < i ==> (#[trigger] r@[j]).0 == self.orders_table@[j].0 && r@[j].1@
                        == self.orders_table@[j].1@,
            decreases self.orders_table@.len() - i,
        {
            let id = self.orders_table[i].0;
            let details = self.orders_table[i].1.clone();
            r.push((id, details));
            i += 1;
        }
        r
    }

    /// Dispatches one command segment `parts[start .. end]` on its first
    /// token. A `PREPARE` segment rejoins its remaining tokens into the
    /// detail string; `COMMIT`/`ABORT` take their id from the second token,
    /// and a missing id is malformed.
    pub fn handle_message(
        &mut self,
        parts: &Vec<String>,
        start: usize,
        end: usize,
        draw: u8,
    ) -> (resp: Option<GatewayResponse>)
        requires
            old(self).wf(),
            old(self).current_order_id < u32::MAX,
            start < end <= parts@.len(),
            draw < 100,
        ensures
            final(self).wf(),
            final(self).rejection_percentage == old(self).rejection_percentage,
            spec_command_of(parts@[start as int]@) == GatewayCommand::PrepareCmd
                ==> spec_prepare_step(
                *old(self),
                *final(self),
                resp,
                spec_join_commas(spec_views(parts@).subrange(start + 1, end as int)),
                draw,
            ),
            spec_command_of(parts@[start as int]@) == GatewayCommand::CommitCmd
                ==> spec_command_resolve(
                *old(self),
                *final(self),
                resp,
                parts@,
                start as int,
                end as int,
                LogKind::Commit,
            ),
            spec_command_of(parts@[start as int]@) == GatewayCommand::AbortCmd
                ==> spec_command_resolve(
                *old(self),
                *final(self),
                resp,
                parts@,
                start as int,
                end as int,
                LogKind::Abort,
            ),
            spec_command_of(parts@[start as int]@) == GatewayCommand::OrdersCmd
                ==> (resp matches Some(
                GatewayResponse::InFlightOrders(_),
            )) && final(self).log@ == old(self).log@ && final(self).orders_table@ == old(self).orders_table@,
            spec_command_of(parts@[start as int]@) == GatewayCommand::UnknownCmd ==> resp == Some(
                GatewayResponse::UnknownCommand,
            ) && final(self).log@ == old(self).log@ && final(self).orders_table@ == old(self).orders_table@,
    {
        let command = classify_command(parts[start].as_str());
        match command {
            GatewayCommand::PrepareCmd => {
                let details = join_commas(parts, start + 1, end);
                Some(self.handle_prepare(details, draw))
            },
            GatewayCommand::CommitCmd => {
                if end == start + 1 {
                    Some(GatewayResponse::InvalidOrderId)
                } else {
                    self.handle_commit(parts[start + 1].as_str())
                }
            },
            GatewayCommand::AbortCmd => {
                if end == start + 1 {
                    Some(GatewayResponse::InvalidOrderId)
                } else {
                    self.handle_abort(parts[start + 1].as_str())
                }
            },
            GatewayCommand::OrdersCmd => Some(
                GatewayResponse::InFlightOrders(self.handle_orders()),
            ),
            GatewayCommand::UnknownCmd => Some(GatewayResponse::UnknownCommand),
        }
    }

    /// Whether the random draw authorizes a payment under this gateway's
    /// rejection setting. With rejection 0 every payment is authorized; with
    /// rejection 100, none.
    pub fn authorize_payment(&self) -> (r: bool)
        ensures
            self.rejection_percentage == 0 ==> r,
            self.rejection_percentage == 100 ==> !r,
    {
        let draw = draw_percentage();
        draw >= self.rejection_percentage
    }

    /// Processes one payload read from a client connection: trims it, splits
    /// it on commas, recovers each command segment at a command-keyword
    /// boundary, handles the segments in order — drawing one authorization
    /// per `PREPARE` — and returns the rendered response lines in segment
    /// order. The log only grows, so the caller can mirror each new line to
    /// the durable file; `handle_message` pins down each segment's step for
    /// its draw, and a segment met with an exhausted id space is refused with
    /// the rejection line.
    pub fn process_message_text(&mut self, text: &str) -> (responses: Vec<String>)
        requires
            old(self).wf(),
        ensures
            final(self).wf(),
            final(self).rejection_percentage == old(self).rejection_percentage,
            old(self).log@ == final(self).log@.take(old(self).log@.len() as int),
            exists|parts: Seq<String>, segments: Seq<(usize, usize)>, draws: Seq<u8>|
                {
                    &&& spec_split_of(spec_trim(text@), parts)
                    &&& spec_segmentation_of(parts, segments)
                    &&& #[trigger] spec_segments_rel(
                        *old(self),
                        *final(self),
                        parts,
                        segments,
                        draws,
                        spec_views(responses@),
                    )
                },
            old(self).rejection_percentage == 100 && old(self).orders_table@.len() == 0 ==> final(self).log@ == old(self).log@ && final(self).orders_table@.len() == 0,
    {
        let trimmed = trim_ws(text);
        let parts = split_commas(trimmed.as_str());
        let segments = split_segments(&parts);
        let mut responses: Vec<String> = Vec::new();
        let ghost start_state = *old(self);
        let ghost mut draws: Seq<u8> = Seq::empty();
        let mut k: usize = 0;
        proof {
            assert(segments@.take(0) =~= Seq::<(usize, usize)>::empty());
            assert(spec_views(responses@) =~= Seq::<Seq<char>>::empty());
        }
        while k < segments.len()
            invariant
                k <= segments@.len(),
                self.wf(),
                self.rejection_percentage == old(self).rejection_percentage,
                self.log@.len() >= old(self).log@.len(),
                old(self).log@ == self.log@.take(old(self).log@.len() as int),
                forall|j: int|
                    0 <= j < segments@.len() ==> 0 <= (#[trigger] segments@[j]).0
                        < segments@[j].1 <= parts@.len(),
                draws.len() == k,
                spec_segments_rel(
                    *old(self),
                    *self,
                    parts@,
                    segments@.take(k as int),
                    draws,
                    spec_views(responses@),
                ),
                old(self).rejection_percentage == 100 && old(self).orders_table@.len() == 0
                    ==> self.log@ == old(self).log@ && self.orders_table@.len() == 0,
            decreases segments@.len() - k,
        {
            let (seg_start, seg_end) = segments[k];
            let ghost pre = *self;
            let ghost prev_responses = responses@;
            let ghost prev_log_len = self.log@.len() as int;
            if self.current_order_id < u32::MAX {
                let draw = draw_percentage();
                let resp = self.handle_message(&parts, seg_start, seg_end, draw);
                match &resp {
                    Some(r) => {
                        responses.push(render_response(r));
                    },
                    None => {},
                }
                proof {
                    assert(spec_seg_step(pre, *self, resp, parts@, segments@[k as int], draw));
                    lemma_segments_snoc(
                        *old(self),
                        pre,
                        *self,
                        parts@,
                        segments@.take(k as int),
                        segments@[k as int],
                        draws,
                        draw,
                        spec_views(prev_responses),
                        resp,
                    );
                    assert(segments@.take(k + 1) =~= segments@.take(k as int).push(
                        segments@[k as int],
                    ));
                    match resp {
                        Some(r) => {
                            assert(spec_views(responses@) =~= spec_views(prev_responses) + seq![
                                spec_response_text(r),
                            ]);
                        },
                        None => {
                            assert(spec_views(responses@) =~= spec_views(prev_responses));
                            assert(spec_views(responses@) =~= spec_views(prev_responses)
                                + Seq::<Seq<char>>::empty());
                        },
                    }
                    draws = draws.push(draw);
                    assert(old(self).log@ =~= self.log@.take(old(self).log@.len() as int)) by {
                        let oldlen = old(self).log@.len() as int;
                        let prelen = pre.log@.len() as int;
                        assert(pre.log@ == self.log@.take(prelen));
                        assert(old(self).log@ == pre.log@.take(oldlen));
                        assert(forall|i: int| 0 <= i < prelen ==> pre.log@[i] == #[trigger] self.log@[i]);
                        assert(forall|i: int| 0 <= i < oldlen ==> old(self).log@[i]
                            == #[trigger] pre.log@[i]);
                    }
                }
            } else {
                // The id space is exhausted; authorizing more orders would
                // wrap the counter, so the segment is refused outright.
                responses.push(render_response(&GatewayResponse::Rejected));
                proof {
                    let resp = Some(GatewayResponse::Rejected);
                    assert(spec_seg_step(pre, *self, resp, parts@, segments@[k as int], 0u8));
                    lemma_segments_snoc(
                        *old(self),
                        pre,
                        *self,
                        parts@,
                        segments@.take(k as int),
                        segments@[k as int],
                        draws,
                        0u8,
                        spec_views(prev_responses),
                        resp,
                    );
                    assert(segments@.take(k + 1) =~= segments@.take(k as int).push(
                        segments@[k as int],
                    ));
                    assert(spec_views(responses@) =~= spec_views(prev_responses) + seq![
                        spec_response_text(GatewayResponse::Rejected),
                    ]);
                    draws = draws.push(0u8);
                }
            }
            k += 1;
        }
        proof {
            assert(segments@.take(segments@.len() as int) =~= segments@);
            assert(spec_split_of(spec_trim(text@), parts@));
            assert(spec_segmentation_of(parts@, segments@));
        }
        responses
    }
}

/// Relies on rand::thread_rng/// Relies on rand::thread_rng and Rng::gen_range: a uniformly distributed
/// value in `0 .. 100`; `gen_range` returns a value of the given non-empty
/// range and nothing more is promised of it.
#[verifier::external_body]
fn draw_percentage() -> (r: u8)
    ensures
        r < 100,
{
    rand::Rng::gen_range(&mut rand::thread_rng(), 0..100u8)
}

/// How one dispatched command segment changes the gateway: the named form of
/// `handle_message`'s contract, used to chain segments.
pub open spec fn spec_handle_message_rel(
    a: Gateway,
    b: Gateway,
    resp: Option<GatewayResponse>,
    parts: Seq<String>,
    start: int,
    end: int,
    draw: u8,
) -> bool {
    &&& b.wf()
    &&& b.rejection_percentage == a.rejection_percentage
    &&& (spec_command_of(parts[start]@) == GatewayCommand::PrepareCmd ==> spec_prepare_step(
        a,
        b,
        resp,
        spec_join_commas(spec_views(parts).subrange(start + 1, end)),
        draw,
    ))
    &&& (spec_command_of(parts[start]@) == GatewayCommand::CommitCmd ==> spec_command_resolve(
        a,
        b,
        resp,
        parts,
        start,
        end,
        LogKind::Commit,
    ))
    &&& (spec_command_of(parts[start]@) == GatewayCommand::AbortCmd ==> spec_command_resolve(
        a,
        b,
        resp,
        parts,
        start,
        end,
        LogKind::Abort,
    ))
    &&& (spec_command_of(parts[start]@) == GatewayCommand::OrdersCmd ==> (resp matches Some(
        GatewayResponse::InFlightOrders(_),
    )) && b.log@ == a.log@ && b.orders_table@ == a.orders_table@)
    &&& (spec_command_of(parts[start]@) == GatewayCommand::UnknownCmd ==> resp == Some(
        GatewayResponse::UnknownCommand,
    ) && b.log@ == a.log@ && b.orders_table@ == a.orders_table@)
}

/// How handling one `COMMIT`/`ABORT` command segment changes the gateway:
/// a missing or malformed id draws the error line and changes nothing; a
/// well-formed id resolves the order exactly when it is in flight.
pub open spec fn spec_command_resolve(
    a: Gateway,
    b: Gateway,
    resp: Option<GatewayResponse>,
    parts: Seq<String>,
    start: int,
    end: int,
    kind: LogKind,
) -> bool {
    if end == start + 1 || !spec_parses_as_u32(parts[start + 1]@) {
        &&& resp == Some(GatewayResponse::InvalidOrderId)
        &&& b.log@ == a.log@
        &&& b.orders_table@ == a.orders_table@
    } else {
        &&& resp is None
        &&& spec_resolve_step(a, b, spec_digits_value(parts[start + 1]@) as u32, kind)
    }
}

/// How handling one `PREPARE` request changes the gateway, for a given draw.
pub open spec fn spec_prepare_step(
    a: Gateway,
    b: Gateway,
    resp: Option<GatewayResponse>,
    details: Seq<char>,
    draw: u8,
) -> bool {
    if draw >= a.rejection_percentage {
        &&& resp == Some(GatewayResponse::CommitId(a.current_order_id))
        &&& b.current_order_id == a.current_order_id + 1
        &&& b.log@.len() == a.log@.len() + 1
        &&& b.log@ == a.log@.push(b.log@.last())
        &&& b.log@.last().kind == LogKind::Prepare
        &&& b.log@.last().order_id == a.current_order_id
        &&& b.log@.last().details@ == details
        &&& b.orders_table@.len() == a.orders_table@.len() + 1
        &&& b.orders_table@.last().0 == a.current_order_id
        &&& b.orders_table@.last().1@ == details
        &&& forall|t: int|
            0 <= t < a.orders_table@.len() ==> #[trigger] b.orders_table@[t] == a.orders_table@[t]
    } else {
        &&& resp == Some(GatewayResponse::Rejected)
        &&& b.current_order_id == a.current_order_id
        &&& b.log@ == a.log@
        &&& b.orders_table@ == a.orders_table@
    }
}

/// The command a first token names.
#[derive(Clone, Copy, Debug, PartialEq, Eq, Structural)]
pub enum GatewayCommand {
    PrepareCmd,
    CommitCmd,
    AbortCmd,
    OrdersCmd,
    UnknownCmd,
}

/// Which command a token names, if any.
pub open spec fn spec_command_of(s: Seq<char>) -> GatewayCommand {
    if s == "PREPARE"@ {
        GatewayCommand::PrepareCmd
    } else if s == "COMMIT"@ {
        GatewayCommand::CommitCmd
    } else if s == "ABORT"@ {
        GatewayCommand::AbortCmd
    } else if s == "ORDERS"@ {
        GatewayCommand::OrdersCmd
    } else {
        GatewayCommand::UnknownCmd
    }
}

/// Which command a token names, if any.
pub fn classify_command(s: &str) -> (r: GatewayCommand)
    ensures
        r == spec_command_of(s@),
{
    if str_eq(s, "PREPARE") {
        GatewayCommand::PrepareCmd
    } else if str_eq(s, "COMMIT") {
        GatewayCommand::CommitCmd
    } else if str_eq(s, "ABORT") {
        GatewayCommand::AbortCmd
    } else if str_eq(s, "ORDERS") {
        GatewayCommand::OrdersCmd
    } else {
        GatewayCommand::UnknownCmd
    }
}

/// Whether a token is one of the four command keywords.
pub open spec fn spec_is_command(s: Seq<char>) -> bool {
    s == "PREPARE"@ || s == "COMMIT"@ || s == "ABORT"@ || s == "ORDERS"@
}

/// Whether a token is one of the four command keywords.
pub fn is_command(part: &str) -> (r: bool)
    ensures
        r == spec_is_command(part@),
{
    str_eq(part, "PREPARE") || str_eq(part, "COMMIT") || str_eq(part, "ABORT") || str_eq(
        part,
        "ORDERS",
    )
}

/// Joins the tokens `parts[start .. end]` back with commas.
pub fn join_commas(parts: &Vec<String>, start: usize, end: usize) -> (r: String)
    requires
        start <= end <= parts@.len(),
    ensures
        r@ == spec_join_commas(spec_views(parts@).subrange(start as int, end as int)),
{
    let views = Ghost(spec_views(parts@));
    let mut r = String::new();
    let mut i: usize = start;
    proof {
        assert(views@.subrange(start as int, start as int) =~= Seq::<Seq<char>>::empty());
    }
    while i < end
        invariant
            start <= i <= end <= parts@.len(),
            views@ == spec_views(parts@),
            r@ == spec_join_commas(views@.subrange(start as int, i as int)),
        decreases end - i,
    {
        proof {
            assert(views@.subrange(start as int, i + 1).drop_last() =~= views@.subrange(
                start as int,
                i as int,
            ));
            assert(views@.subrange(start as int, i + 1).last() == parts@[i as int]@);
        }
        if i > start {
            r.append(",");
            proof {
                reveal_strlit(",");
            }
        }
        r.append(parts[i].as_str());
        i += 1;
    }
    r
}

/// Cuts the token list into command segments: a new segment begins at every
/// later token that is itself a command keyword, so several commands packed
/// into one payload are recovered.
pub fn split_segments(parts: &Vec<String>) -> (segments: Vec<(usize, usize)>)
    ensures
        parts@.len() == 0 ==> segments@.len() == 0,
        parts@.len() > 0 ==> segments@.len() >= 1 && segments@[0].0 == 0
            && segments@.last().1 == parts@.len(),
        forall|j: int| 0 <= j < segments@.len() ==> 0 <= (#[trigger] segments@[j]).0
            < segments@[j].1 <= parts@.len(),
        forall|j: int| 0 < j < segments@.len() ==> (#[trigger] segments@[j]).0 == segments@[
            j - 1].1,
        forall|j: int, k: int|
            0 <= j < segments@.len() && (#[trigger] segments@[j]).0 < k < segments@[j].1
                ==> !spec_is_command((#[trigger] parts@[k])@),
        forall|j: int| 0 < j < segments@.len() ==> spec_is_command(
            parts@[(#[trigger] segments@[j]).0 as int]@,
        ),
{
    let n = parts.len();
    let mut segments: Vec<(usize, usize)> = Vec::new();
    if n == 0 {
        return segments;
    }
    let mut seg_start: usize = 0;
    let mut i: usize = 1;
    while i < n
        invariant
            1 <= i <= n,
            n == parts@.len(),
            seg_start < i,
            segments@.len() == 0 ==> seg_start == 0,
            segments@.len() > 0 ==> segments@[0].0 == 0 && segments@.last().1 == seg_start,
            forall|j: int| 0 <= j < segments@.len() ==> 0 <= (#[trigger] segments@[j]).0
                < segments@[j].1 <= n,
            forall|j: int| 0 < j < segments@.len() ==> (#[trigger] segments@[j]).0 == segments@[
                j - 1].1,
            forall|j: int, k: int|
                0 <= j < segments@.len() && (#[trigger] segments@[j]).0 < k < segments@[j].1
                    ==> !spec_is_command((#[trigger] parts@[k])@),
            forall|j: int| 0 < j < segments@.len() ==> spec_is_command(
                parts@[(#[trigger] segments@[j]).0 as int]@,
            ),
            segments@.len() > 0 ==> spec_is_command(parts@[seg_start as int]@),
            forall|k: int| seg_start < k < i ==> !spec_is_command((#[trigger] parts@[k])@),
        decreases n - i,
    {
        if is_command(parts[i].as_str()) {
            segments.push((seg_start, i));
            seg_start = i;
        }
        i += 1;
    }
    segments.push((seg_start, n));
    segments
}

/// The text of a log-line kind.
pub open spec fn spec_kind_text(k: LogKind) -> Seq<char> {
    match k {
        LogKind::Prepare => "PREPARE"@,
        LogKind::Commit => "COMMIT"@,
        LogKind::Abort => "ABORT"@,
    }
}

/// The text of one transaction-log line: `<KIND>,<id>,<details>`.
pub open spec fn spec_log_line(e: LogEntry) -> Seq<char> {
    spec_kind_text(e.kind) + ","@ + spec_u64_string(e.order_id as int) + ","@ + e.details@
}

/// Renders one transaction-log line.
pub fn render_log_entry(e: &LogEntry) -> (r: String)
    ensures
        r@ == spec_log_line(*e),
{
    let mut r = match e.kind {
        LogKind::Prepare => "PREPARE".to_owned(),
        LogKind::Commit => "COMMIT".to_owned(),
        LogKind::Abort => "ABORT".to_owned(),
    };
    r.append(",");
    let id_text = u64_to_string(e.order_id as u64);
    r.append(id_text.as_str());
    r.append(",");
    r.append(e.details.as_str());
    r
}

/// The items of an `ORDERS` response, one `,<id>:<details>` per entry.
pub open spec fn spec_orders_items(v: Seq<(u32, String)>) -> Seq<char>
    decreases v.len(),
{
    if v.len() == 0 {
        Seq::empty()
    } else {
        spec_orders_items(v.drop_last()) + ","@ + spec_u64_string(v.last().0 as int) + ":"@
            + v.last().1@
    }
}

/// The full text of one response line, newline included.
pub open spec fn spec_response_text(resp: GatewayResponse) -> Seq<char> {
    match resp {
        GatewayResponse::CommitId(id) => "COMMIT,"@ + spec_u64_string(id as int) + "
"@,
        GatewayResponse::Rejected => "ABORT
"@,
        GatewayResponse::InvalidOrderId => "Invalid order ID
"@,
        GatewayResponse::UnknownCommand => "Unknown command
"@,
        GatewayResponse::InFlightOrders(v) => "ORDERS"@ + spec_orders_items(v@) + "
"@,
    }
}

/// Renders one response line, newline included.
pub fn render_response(resp: &GatewayResponse) -> (r: String)
    ensures
        r@ == spec_response_text(*resp),
{
    match resp {
        GatewayResponse::CommitId(id) => {
            let mut r = "COMMIT,".to_owned();
            let id_text = u64_to_string(*id as u64);
            r.append(id_text.as_str());
            r.append("
");
            r
        },
        GatewayResponse::Rejected => "ABORT
".to_owned(),
        GatewayResponse::InvalidOrderId => "Invalid order ID
".to_owned(),
        GatewayResponse::UnknownCommand => "Unknown command
".to_owned(),
        GatewayResponse::InFlightOrders(v) => {
            let mut r = "ORDERS".to_owned();
            let mut i: usize = 0;
            while i < v.len()
                invariant
                    i <= v@.len(),
                    r@ == "ORDERS"@ + spec_orders_items(v@.take(i as int)),
                decreases v@.len() - i,
            {
                proof {
                    assert(v@.take(i + 1).drop_last() =~= v@.take(i as int));
                    assert(v@.take(i + 1).last() == v@[i as int]);
                }
                r.append(",");
                let id_text = u64_to_string(v[i].0 as u64);
                r.append(id_text.as_str());
                r.append(":");
                r.append(v[i].1.as_str());
                i += 1;
            }
            proof {
                assert(v@.take(v@.len() as int) =~= v@);
            }
            r.append("
");
            r
        },
    }
}



/// A gateway with an empty log and table satisfies the invariant.
#[verifier::spinoff_prover]
proof fn lemma_empty_gateway_wf(g: Gateway)
    requires
        g.log@.len() == 0,
        g.orders_table@.len() == 0,
        g.current_order_id == 1,
    ensures
        g.wf(),
{
    reveal(spec_log_wf);
    reveal(spec_resolved);
    reveal(spec_ids_dense);
    reveal(spec_table_keys_distinct);
    reveal(spec_table_ids_below);
    reveal(spec_table_backed);
    reveal(spec_table_unresolved);
    reveal(spec_unresolved_in_table);
}

/// Appending a `PREPARE` line appends its id to the prepare ids; appending a
/// resolution leaves them unchanged.
proof fn lemma_prepare_ids_push(log: Seq<LogEntry>, e: LogEntry)
    ensures
        e.kind == LogKind::Prepare ==> spec_prepare_ids(log.push(e)) == spec_prepare_ids(
            log,
        ).push(e.order_id),
        e.kind != LogKind::Prepare ==> spec_prepare_ids(log.push(e)) == spec_prepare_ids(log),
{
    assert(log.push(e).drop_last() =~= log);
}

/// Every `PREPARE` line's id is one of the prepare ids, so under a dense log
/// it is at most the number of `PREPARE` lines.
proof fn lemma_prepare_id_bounded(log: Seq<LogEntry>, i: int)
    requires
        spec_ids_dense(spec_prepare_ids(log)),
        0 <= i < log.len(),
        log[i].kind == LogKind::Prepare,
    ensures
        1 <= log[i].order_id as int <= spec_prepare_ids(log).len(),
    decreases log.len(),
{
    reveal(spec_ids_dense);
    lemma_prepare_ids_push(log.drop_last(), log.last());
    assert(log.drop_last().push(log.last()) =~= log);
    if i == log.len() - 1 {
        let ids = spec_prepare_ids(log);
        assert(ids.last() == log[i].order_id);
        assert(ids[ids.len() - 1] as int == ids.len());
    } else {
        let rest = log.drop_last();
        assert(spec_ids_dense(spec_prepare_ids(rest))) by {
            let ids = spec_prepare_ids(log);
            let rids = spec_prepare_ids(rest);
            assert(forall|k: int| 0 <= k < rids.len() ==> rids[k] == ids[k]);
        }
        lemma_prepare_id_bounded(rest, i);
        assert(spec_prepare_ids(rest).len() <= spec_prepare_ids(log).len());
    }
}

/// A resolved order's id is the id of some `PREPARE` line.
#[verifier::rlimit(100)]
#[verifier::spinoff_prover]
proof fn lemma_resolution_id_bounded(log: Seq<LogEntry>, j: int)
    requires
        spec_log_wf(log),
        0 <= j < log.len(),
        spec_is_resolution(log[j].kind),
    ensures
        1 <= log[j].order_id as int <= spec_prepare_ids(log).len(),
{
    reveal(spec_log_wf);
    reveal(spec_paired);
    assert(spec_paired(log, j));
    let i = choose|i: int|
        0 <= i < j && (#[trigger] log[i]).kind == LogKind::Prepare && log[i].order_id
            == log[j].order_id && log[i].details@ == log[j].details@;
    lemma_prepare_id_bounded(log, i);
}

/// Appending a non-resolution line resolves nothing new.
proof fn lemma_resolved_push_nonres(log: Seq<LogEntry>, e: LogEntry)
    requires
        !spec_is_resolution(e.kind),
    ensures
        forall|id: u32| #[trigger] spec_resolved(log.push(e), id) == spec_resolved(log, id),
{
    reveal(spec_resolved);
    let log2 = log.push(e);
    assert forall|id: u32| #[trigger] spec_resolved(log2, id) == spec_resolved(log, id) by {
        if spec_resolved(log2, id) {
            let j = choose|j: int|
                0 <= j < log2.len() && spec_is_resolution((#[trigger] log2[j]).kind)
                    && log2[j].order_id == id;
            assert(j < log.len());
            assert(spec_is_resolution(log[j].kind) && log[j].order_id == id);
        }
        if spec_resolved(log, id) {
            let j = choose|j: int|
                0 <= j < log.len() && spec_is_resolution((#[trigger] log[j]).kind)
                    && log[j].order_id == id;
            assert(spec_is_resolution(log2[j].kind) && log2[j].order_id == id);
        }
    }
}

/// Appending the next `PREPARE` line keeps the log legal.
#[verifier::rlimit(100)]
#[verifier::spinoff_prover]
proof fn lemma_log_wf_push_prepare(log: Seq<LogEntry>, e: LogEntry)
    requires
        spec_log_wf(log),
        e.kind == LogKind::Prepare,
        e.order_id as int == 1 + spec_prepare_ids(log).len(),
    ensures
        spec_log_wf(log.push(e)),
{
    reveal(spec_log_wf);
    reveal(spec_ids_dense);
    let log2 = log.push(e);
    lemma_prepare_ids_push(log, e);
    let ids = spec_prepare_ids(log);
    let ids2 = spec_prepare_ids(log2);
    assert(spec_ids_dense(ids2)) by {
        assert(forall|k: int| 0 <= k < ids.len() ==> ids2[k] == ids[k]);
        assert(ids2[ids.len() as int] == e.order_id);
    }
    assert forall|i: int, j: int|
        0 <= i < j < log2.len() && (#[trigger] log2[i]).kind == LogKind::Prepare && (
        #[trigger] log2[j]).kind == LogKind::Prepare implies log2[i].order_id
        != log2[j].order_id by {
        if j == log.len() {
            lemma_prepare_id_bounded(log, i);
        }
    }
    assert forall|j: int|
        0 <= j < log2.len() && spec_is_resolution(#[trigger] log2[j].kind) implies spec_paired(
        log2,
        j,
    ) by {
        assert(j < log.len());
        assert(spec_paired(log, j));
        lemma_paired_push(log, e, j);
    }
}

/// A paired resolution stays paired after more lines are appended.
proof fn lemma_paired_push(log: Seq<LogEntry>, e: LogEntry, j: int)
    requires
        0 <= j < log.len(),
        spec_paired(log, j),
    ensures
        spec_paired(log.push(e), j),
{
    reveal(spec_paired);
    let log2 = log.push(e);
    let i = choose|i: int|
        0 <= i < j && (#[trigger] log[i]).kind == LogKind::Prepare && log[i].order_id
            == log[j].order_id && log[i].details@ == log[j].details@;
    assert(log2[i] == log[i] && log2[j] == log[j]);
    assert(log2[i].kind == LogKind::Prepare && log2[i].order_id == log2[j].order_id
        && log2[i].details@ == log2[j].details@);
}

/// Authorizing a new order keeps the table keys distinct and bounded.
proof fn lemma_table_push_prepare_keys(t: Seq<(u32, String)>, te: (u32, String), current: u32)
    requires
        current < u32::MAX,
        spec_table_keys_distinct(t),
        spec_table_ids_below(t, current),
        te.0 == current,
        1 <= current,
    ensures
        spec_table_keys_distinct(t.push(te)),
        spec_table_ids_below(t.push(te), (current + 1) as u32),
{
    reveal(spec_table_keys_distinct);
    reveal(spec_table_ids_below);
    let t2 = t.push(te);
    assert(forall|i: int| 0 <= i < t.len() ==> t2[i] == t[i]);
    assert(t2[t.len() as int] == te);
}

/// A `PREPARE` line keeps backing an order after more lines are appended.
proof fn lemma_backed_one_push(log: Seq<LogEntry>, e: LogEntry, id: u32, details: Seq<char>)
    requires
        spec_backed_one(log, id, details),
    ensures
        spec_backed_one(log.push(e), id, details),
{
    reveal(spec_backed_one);
    let log2 = log.push(e);
    let k = choose|k: int|
        0 <= k < log.len() && (#[trigger] log[k]).kind == LogKind::Prepare && log[k].order_id
            == id && log[k].details@ == details;
    assert(log2[k] == log[k]);
    assert(log2[k].kind == LogKind::Prepare && log2[k].order_id == id && log2[k].details@
        == details);
}

/// Authorizing a new order keeps every in-flight entry backed by a `PREPARE`
/// line.
proof fn lemma_table_push_prepare_backed(
    log: Seq<LogEntry>,
    t: Seq<(u32, String)>,
    e: LogEntry,
    te: (u32, String),
)
    requires
        spec_table_backed(log, t),
        e.kind == LogKind::Prepare,
        te.0 == e.order_id,
        te.1@ == e.details@,
    ensures
        spec_table_backed(log.push(e), t.push(te)),
{
    reveal(spec_table_backed);
    let log2 = log.push(e);
    let t2 = t.push(te);
    assert forall|i: int| 0 <= i < t2.len() implies spec_backed_one(
        log2,
        (#[trigger] t2[i]).0,
        t2[i].1@,
    ) by {
        if i < t.len() {
            assert(t2[i] == t[i]);
            assert(spec_backed_one(log, t[i].0, t[i].1@));
            lemma_backed_one_push(log, e, t[i].0, t[i].1@);
        } else {
            assert(t2[i] == te);
            assert(spec_backed_one(log2, te.0, te.1@)) by {
                reveal(spec_backed_one);
                let k = log.len() as int;
                assert(log2[k] == e);
                assert(log2[k].kind == LogKind::Prepare && log2[k].order_id == te.0
                    && log2[k].details@ == te.1@);
            }
        }
    }
}

/// Authorizing a new order leaves every in-flight order unresolved.
proof fn lemma_table_push_prepare_unresolved(
    log: Seq<LogEntry>,
    t: Seq<(u32, String)>,
    e: LogEntry,
    te: (u32, String),
    current: u32,
)
    requires
        spec_log_wf(log),
        current as int == 1 + spec_prepare_ids(log).len(),
        spec_table_unresolved(log, t),
        e.kind == LogKind::Prepare,
        e.order_id == current,
        te.0 == current,
    ensures
        spec_table_unresolved(log.push(e), t.push(te)),
{
    reveal(spec_table_unresolved);
    lemma_resolved_push_nonres(log, e);
    let log2 = log.push(e);
    let t2 = t.push(te);
    assert forall|i: int| 0 <= i < t2.len() implies !spec_resolved(log2, (#[trigger] t2[i]).0) by {
        if i < t.len() {
            assert(t2[i] == t[i]);
            assert(!spec_resolved(log, t[i].0));
        } else {
            assert(t2[i] == te);
            if spec_resolved(log, current) {
                reveal(spec_resolved);
                let j = choose|j: int|
                    0 <= j < log.len() && spec_is_resolution((#[trigger] log[j]).kind)
                        && log[j].order_id == current;
                lemma_resolution_id_bounded(log, j);
            }
        }
    }
}

/// Authorizing a new order keeps every unresolved `PREPARE` line in flight.
proof fn lemma_table_push_prepare_covers(
    log: Seq<LogEntry>,
    t: Seq<(u32, String)>,
    e: LogEntry,
    te: (u32, String),
)
    requires
        spec_unresolved_in_table(log, t),
        e.kind == LogKind::Prepare,
        te.0 == e.order_id,
    ensures
        spec_unresolved_in_table(log.push(e), t.push(te)),
{
    reveal(spec_unresolved_in_table);
    reveal(spec_table_has);
    lemma_resolved_push_nonres(log, e);
    let log2 = log.push(e);
    let t2 = t.push(te);
    assert forall|k: int|
        0 <= k < log2.len() && (#[trigger] log2[k]).kind == LogKind::Prepare && !spec_resolved(
            log2,
            log2[k].order_id,
        ) implies spec_table_has(t2, log2[k].order_id) by {
        if k < log.len() {
            assert(log2[k] == log[k]);
            assert(spec_table_has(t, log[k].order_id));
            let i = choose|i: int| 0 <= i < t.len() && (#[trigger] t[i]).0 == log[k].order_id;
            assert(t2[i] == t[i]);
            assert(t2[i].0 == log2[k].order_id);
        } else {
            assert(log2[k] == e);
            assert(t2[t.len() as int] == te);
            assert(t2[t.len() as int].0 == log2[k].order_id);
        }
    }
}


/// How resolving one order changes the gateway: if the order is in flight its
/// resolution line is appended and it leaves the table; otherwise nothing
/// changes.
pub open spec fn spec_resolve_step(a: Gateway, b: Gateway, order_id: u32, kind: LogKind) -> bool {
    if a.has_id(order_id) {
        &&& b.log@.len() == a.log@.len() + 1
        &&& b.log@ == a.log@.push(b.log@.last())
        &&& b.log@.last().kind == kind
        &&& b.log@.last().order_id == order_id
        &&& b.log@.last().details@ == a.spec_details_of(order_id)
        &&& b.orders_table@ == a.orders_table@.remove(a.id_index(order_id))
    } else {
        &&& b.log@ == a.log@
        &&& b.orders_table@ == a.orders_table@
    }
}

/// In a table with distinct keys, a found position is the unique index.
proof fn lemma_table_unique_index(g: Gateway, id: u32, i: int)
    requires
        spec_table_keys_distinct(g.orders_table@),
        0 <= i < g.orders_table@.len(),
        g.orders_table@[i].0 == id,
    ensures
        g.has_id(id),
        g.id_index(id) == i,
{
    reveal(spec_table_keys_distinct);
    assert(g.has_id(id));
    let k = g.id_index(id);
    assert(0 <= k < g.orders_table@.len() && g.orders_table@[k].0 == id);
}

/// The entry picked for resolution is backed by a `PREPARE` line and not yet
/// resolved.
proof fn lemma_resolution_table_facts(log: Seq<LogEntry>, t: Seq<(u32, String)>, i: int)
    requires
        spec_table_backed(log, t),
        spec_table_unresolved(log, t),
        0 <= i < t.len(),
    ensures
        spec_backed_one(log, t[i].0, t[i].1@),
        !spec_resolved(log, t[i].0),
{
    reveal(spec_table_backed);
    reveal(spec_table_unresolved);
}

/// Appending a resolution line resolves exactly its own order id.
proof fn lemma_resolved_push_res(log: Seq<LogEntry>, e: LogEntry)
    requires
        spec_is_resolution(e.kind),
    ensures
        forall|id: u32| #[trigger] spec_resolved(log.push(e), id) == (spec_resolved(log, id) || id
            == e.order_id),
{
    reveal(spec_resolved);
    let log2 = log.push(e);
    assert forall|id: u32| #[trigger] spec_resolved(log2, id) == (spec_resolved(log, id) || id
        == e.order_id) by {
        if spec_resolved(log2, id) {
            let j = choose|j: int|
                0 <= j < log2.len() && spec_is_resolution((#[trigger] log2[j]).kind)
                    && log2[j].order_id == id;
            if j < log.len() {
                assert(spec_is_resolution(log[j].kind) && log[j].order_id == id);
            }
        }
        if spec_resolved(log, id) {
            let j = choose|j: int|
                0 <= j < log.len() && spec_is_resolution((#[trigger] log[j]).kind)
                    && log[j].order_id == id;
            assert(spec_is_resolution(log2[j].kind) && log2[j].order_id == id);
        }
        if id == e.order_id {
            assert(spec_is_resolution(log2[log.len() as int].kind) && log2[log.len() as int].order_id
                == id);
        }
    }
}

/// Appending a backed, first resolution of an order keeps the log legal.
#[verifier::rlimit(100)]
#[verifier::spinoff_prover]
proof fn lemma_log_wf_push_resolution(log: Seq<LogEntry>, e: LogEntry)
    requires
        spec_log_wf(log),
        spec_is_resolution(e.kind),
        spec_backed_one(log, e.order_id, e.details@),
        !spec_resolved(log, e.order_id),
    ensures
        spec_log_wf(log.push(e)),
{
    reveal(spec_log_wf);
    let log2 = log.push(e);
    lemma_prepare_ids_push(log, e);
    assert(spec_prepare_ids(log2) == spec_prepare_ids(log));
    assert(forall|i: int| 0 <= i < log.len() ==> log2[i] == log[i]);
    assert forall|i: int, j: int|
        0 <= i < j < log2.len() && spec_is_resolution(#[trigger] log2[i].kind)
            && spec_is_resolution(#[trigger] log2[j].kind) implies log2[i].order_id
        != log2[j].order_id by {
        if j == log.len() {
            if log2[i].order_id == e.order_id {
                reveal(spec_resolved);
                assert(spec_resolved(log, e.order_id));
            }
        }
    }
    assert forall|j: int|
        0 <= j < log2.len() && spec_is_resolution(#[trigger] log2[j].kind) implies spec_paired(
        log2,
        j,
    ) by {
        if j < log.len() {
            assert(spec_paired(log, j));
            lemma_paired_push(log, e, j);
        } else {
            reveal(spec_paired);
            reveal(spec_backed_one);
            let k = choose|k: int|
                0 <= k < log.len() && (#[trigger] log[k]).kind == LogKind::Prepare
                    && log[k].order_id == e.order_id && log[k].details@ == e.details@;
            assert(log2[k] == log[k]);
            assert(0 <= k < j && log2[k].kind == LogKind::Prepare && log2[k].order_id
                == log2[j].order_id && log2[k].details@ == log2[j].details@);
        }
    }
}

/// Removing an entry keeps the table keys distinct and bounded.
proof fn lemma_table_remove_keys(t: Seq<(u32, String)>, i: int, current: u32)
    requires
        spec_table_keys_distinct(t),
        spec_table_ids_below(t, current),
        0 <= i < t.len(),
    ensures
        spec_table_keys_distinct(t.remove(i)),
        spec_table_ids_below(t.remove(i), current),
{
    reveal(spec_table_keys_distinct);
    reveal(spec_table_ids_below);
    let t2 = t.remove(i);
    assert(forall|j: int| 0 <= j < i ==> t2[j] == t[j]);
    assert(forall|j: int| i <= j < t.len() - 1 ==> t2[j] == t[j + 1]);
    assert forall|p: int, q: int| 0 <= p < q < t2.len() implies (#[trigger] t2[p]).0 != (
    #[trigger] t2[q]).0 by {
        let pa = if p < i {
            p
        } else {
            p + 1
        };
        let qa = if q < i {
            q
        } else {
            q + 1
        };
        assert(t2[p] == t[pa] && t2[q] == t[qa]);
    }
}

/// Removing an entry keeps the remaining entries backed.
proof fn lemma_table_remove_backed(log: Seq<LogEntry>, t: Seq<(u32, String)>, e: LogEntry, i: int)
    requires
        spec_table_backed(log, t),
        0 <= i < t.len(),
    ensures
        spec_table_backed(log.push(e), t.remove(i)),
{
    reveal(spec_table_backed);
    let t2 = t.remove(i);
    assert forall|j: int| 0 <= j < t2.len() implies spec_backed_one(
        log.push(e),
        (#[trigger] t2[j]).0,
        t2[j].1@,
    ) by {
        let ja = if j < i {
            j
        } else {
            j + 1
        };
        assert(t2[j] == t[ja]);
        assert(spec_backed_one(log, t[ja].0, t[ja].1@));
        lemma_backed_one_push(log, e, t[ja].0, t[ja].1@);
    }
}

/// After resolving one order, the remaining in-flight orders are still
/// unresolved.
proof fn lemma_table_remove_unresolved(
    log: Seq<LogEntry>,
    t: Seq<(u32, String)>,
    e: LogEntry,
    i: int,
)
    requires
        spec_table_keys_distinct(t),
        spec_table_unresolved(log, t),
        spec_is_resolution(e.kind),
        0 <= i < t.len(),
        t[i].0 == e.order_id,
    ensures
        spec_table_unresolved(log.push(e), t.remove(i)),
{
    reveal(spec_table_keys_distinct);
    reveal(spec_table_unresolved);
    lemma_resolved_push_res(log, e);
    let t2 = t.remove(i);
    assert forall|j: int| 0 <= j < t2.len() implies !spec_resolved(
        log.push(e),
        (#[trigger] t2[j]).0,
    ) by {
        let ja = if j < i {
            j
        } else {
            j + 1
        };
        assert(t2[j] == t[ja]);
        assert(!spec_resolved(log, t[ja].0));
        assert(t[ja].0 != t[i].0);
    }
}

/// After resolving one order, every other unresolved `PREPARE` line is still
/// in flight.
proof fn lemma_table_remove_covers(log: Seq<LogEntry>, t: Seq<(u32, String)>, e: LogEntry, i: int)
    requires
        spec_unresolved_in_table(log, t),
        spec_is_resolution(e.kind),
        0 <= i < t.len(),
        t[i].0 == e.order_id,
    ensures
        spec_unresolved_in_table(log.push(e), t.remove(i)),
{
    reveal(spec_unresolved_in_table);
    reveal(spec_table_has);
    lemma_resolved_push_res(log, e);
    let log2 = log.push(e);
    let t2 = t.remove(i);
    assert forall|k: int|
        0 <= k < log2.len() && (#[trigger] log2[k]).kind == LogKind::Prepare && !spec_resolved(
            log2,
            log2[k].order_id,
        ) implies spec_table_has(t2, log2[k].order_id) by {
        assert(k < log.len());
        assert(log2[k] == log[k]);
        assert(!spec_resolved(log, log[k].order_id));
        assert(log[k].order_id != e.order_id);
        assert(spec_table_has(t, log[k].order_id));
        let j = choose|j: int| 0 <= j < t.len() && (#[trigger] t[j]).0 == log[k].order_id;
        assert(j != i);
        let jb = if j < i {
            j
        } else {
            j - 1
        };
        assert(t2[jb] == t[j]);
        assert(t2[jb].0 == log2[k].order_id);
    }
}


/// The gateway assigns order ids densely from 1, strictly increasing in log
/// order: for every `PREPARE,id,d` line, `id` is exactly one more than the
/// number of earlier `PREPARE` lines.
pub proof fn lemma_order_ids_dense(g: Gateway)
    requires
        g.wf(),
    ensures
        spec_ids_dense(spec_prepare_ids(g.log@)),
        forall|i: int, j: int|
            0 <= i < j < spec_prepare_ids(g.log@).len() ==> #[trigger] spec_prepare_ids(
                g.log@,
            )[i] < #[trigger] spec_prepare_ids(g.log@)[j],
{
    reveal(spec_log_wf);
    reveal(spec_ids_dense);
}

/// Each prepared order is resolved at most once and never both committed and
/// aborted, each `PREPARE` line has a fresh id, and every `COMMIT`/`ABORT`
/// line is preceded by the `PREPARE` line it matches, with the same details.
#[verifier::rlimit(100)]
#[verifier::spinoff_prover]
pub proof fn lemma_log_pairing(g: Gateway)
    requires
        g.wf(),
    ensures
        forall|i: int, j: int|
            0 <= i < j < g.log@.len() && spec_is_resolution(#[trigger] g.log@[i].kind)
                && spec_is_resolution(#[trigger] g.log@[j].kind) ==> g.log@[i].order_id
                != g.log@[j].order_id,
        forall|i: int, j: int|
            0 <= i < j < g.log@.len() && (#[trigger] g.log@[i]).kind == LogKind::Prepare && (
            #[trigger] g.log@[j]).kind == LogKind::Prepare ==> g.log@[i].order_id
                != g.log@[j].order_id,
        forall|j: int|
            0 <= j < g.log@.len() && spec_is_resolution(#[trigger] g.log@[j].kind) ==> exists|
                i: int,
            |
                0 <= i < j && (#[trigger] g.log@[i]).kind == LogKind::Prepare
                    && g.log@[i].order_id == g.log@[j].order_id && g.log@[i].details@
                    == g.log@[j].details@,
{
    reveal(spec_log_wf);
    reveal(spec_paired);
    assert forall|j: int|
        0 <= j < g.log@.len() && spec_is_resolution(#[trigger] g.log@[j].kind) implies exists|
        i: int,
    |
        0 <= i < j && (#[trigger] g.log@[i]).kind == LogKind::Prepare && g.log@[i].order_id
            == g.log@[j].order_id && g.log@[i].details@ == g.log@[j].details@ by {
        assert(spec_paired(g.log@, j));
    }
}

/// The prepare ids of a prefix are a pointwise prefix of the full prepare
/// ids.
proof fn lemma_prepare_ids_take(log: Seq<LogEntry>, k: int)
    requires
        0 <= k <= log.len(),
    ensures
        spec_prepare_ids(log.take(k)).len() <= spec_prepare_ids(log).len(),
        forall|m: int|
            0 <= m < spec_prepare_ids(log.take(k)).len() ==> #[trigger] spec_prepare_ids(
                log.take(k),
            )[m] == spec_prepare_ids(log)[m],
    decreases log.len() - k,
{
    if k == log.len() {
        assert(log.take(k) =~= log);
    } else {
        lemma_prepare_ids_take(log, k + 1);
        assert(log.take(k + 1) =~= log.take(k).push(log[k]));
        lemma_prepare_ids_push(log.take(k), log[k]);
        let a = spec_prepare_ids(log.take(k));
        let b = spec_prepare_ids(log.take(k + 1));
        assert(a.len() <= b.len());
        assert forall|m: int| 0 <= m < a.len() implies #[trigger] a[m] == spec_prepare_ids(
            log,
        )[m] by {
            assert(a[m] == b[m]);
            assert(b[m] == spec_prepare_ids(log)[m]);
        }
    }
}

/// The transaction log is crash-safe append-only: truncating it at any line
/// still yields a legal log.
pub proof fn lemma_log_prefix_legal(log: Seq<LogEntry>, k: int)
    requires
        spec_log_wf(log),
        0 <= k <= log.len(),
    ensures
        spec_log_wf(log.take(k)),
{
    reveal(spec_log_wf);
    reveal(spec_paired);
    let pre = log.take(k);
    lemma_prepare_ids_take(log, k);
    assert(spec_ids_dense(spec_prepare_ids(pre))) by {
        reveal(spec_ids_dense);
    }
    assert(forall|i: int| 0 <= i < k ==> pre[i] == log[i]);
    assert forall|j: int|
        0 <= j < pre.len() && spec_is_resolution(#[trigger] pre[j].kind) implies spec_paired(
        pre,
        j,
    ) by {
        assert(spec_paired(log, j));
        let i = choose|i: int|
            0 <= i < j && (#[trigger] log[i]).kind == LogKind::Prepare && log[i].order_id
                == log[j].order_id && log[i].details@ == log[j].details@;
        assert(pre[i].kind == LogKind::Prepare && pre[i].order_id == pre[j].order_id
            && pre[i].details@ == pre[j].details@);
    }
}


/// One scheduled segment step: under a free id the segment is dispatched with
/// the given draw; with the id space exhausted the segment is refused with
/// the rejection line and nothing changes.
pub open spec fn spec_seg_step(
    a: Gateway,
    b: Gateway,
    resp: Option<GatewayResponse>,
    parts: Seq<String>,
    seg: (usize, usize),
    draw: u8,
) -> bool {
    if a.current_order_id < u32::MAX {
        &&& draw < 100
        &&& spec_handle_message_rel(a, b, resp, parts, seg.0 as int, seg.1 as int, draw)
    } else {
        &&& b == a
        &&& resp == Some(GatewayResponse::Rejected)
    }
}

/// How handling a whole payload's segments changes the gateway: the segments
/// are handled in order, each from the state the previous one left, with one
/// authorization draw per segment, and the rendered responses accumulate in
/// segment order.
pub open spec fn spec_segments_rel(
    a: Gateway,
    b: Gateway,
    parts: Seq<String>,
    segments: Seq<(usize, usize)>,
    draws: Seq<u8>,
    responses: Seq<Seq<char>>,
) -> bool
    decreases segments.len(),
{
    if segments.len() == 0 {
        b == a && draws.len() == 0 && responses.len() == 0
    } else {
        draws.len() == segments.len() && exists|mid: Gateway, resp: Option<GatewayResponse>|
            {
                &&& #[trigger] spec_seg_step(a, mid, resp, parts, segments[0], draws[0])
                &&& match resp {
                    Some(r) => responses.len() >= 1 && responses[0] == spec_response_text(r)
                        && spec_segments_rel(
                        mid,
                        b,
                        parts,
                        segments.drop_first(),
                        draws.drop_first(),
                        responses.drop_first(),
                    ),
                    None => spec_segments_rel(
                        mid,
                        b,
                        parts,
                        segments.drop_first(),
                        draws.drop_first(),
                        responses,
                    ),
                }
            }
    }
}

/// Extending a handled run by one more segment extends the relation.
proof fn lemma_segments_snoc(
    a: Gateway,
    m: Gateway,
    b: Gateway,
    parts: Seq<String>,
    segments: Seq<(usize, usize)>,
    seg: (usize, usize),
    draws: Seq<u8>,
    draw: u8,
    responses: Seq<Seq<char>>,
    resp: Option<GatewayResponse>,
)
    requires
        spec_segments_rel(a, m, parts, segments, draws, responses),
        spec_seg_step(m, b, resp, parts, seg, draw),
    ensures
        spec_segments_rel(
            a,
            b,
            parts,
            segments.push(seg),
            draws.push(draw),
            responses + (match resp {
                Some(r) => seq![spec_response_text(r)],
                None => Seq::<Seq<char>>::empty(),
            }),
        ),
    decreases segments.len(),
{
    let new_resps = responses + (match resp {
        Some(r) => seq![spec_response_text(r)],
        None => Seq::<Seq<char>>::empty(),
    });
    let segs2 = segments.push(seg);
    let draws2 = draws.push(draw);
    if segments.len() == 0 {
        assert(m == a && draws.len() == 0 && responses.len() == 0);
        assert(segs2[0] == seg && draws2[0] == draw);
        assert(segs2.drop_first() =~= Seq::<(usize, usize)>::empty());
        assert(draws2.drop_first() =~= Seq::<u8>::empty());
        match resp {
            Some(r) => {
                assert(new_resps =~= seq![spec_response_text(r)]);
                assert(new_resps[0] == spec_response_text(r));
                assert(new_resps.drop_first() =~= Seq::<Seq<char>>::empty());
                assert(spec_segments_rel(
                    b,
                    b,
                    parts,
                    segs2.drop_first(),
                    draws2.drop_first(),
                    new_resps.drop_first(),
                ));
            },
            None => {
                assert(new_resps =~= responses);
                assert(spec_segments_rel(
                    b,
                    b,
                    parts,
                    segs2.drop_first(),
                    draws2.drop_first(),
                    new_resps,
                ));
            },
        }
        assert(spec_seg_step(a, b, resp, parts, segs2[0], draws2[0]));
    } else {
        let (mid1, resp1) = choose|mid1: Gateway, resp1: Option<GatewayResponse>|
            {
                &&& #[trigger] spec_seg_step(a, mid1, resp1, parts, segments[0], draws[0])
                &&& match resp1 {
                    Some(r) => responses.len() >= 1 && responses[0] == spec_response_text(r)
                        && spec_segments_rel(
                        mid1,
                        m,
                        parts,
                        segments.drop_first(),
                        draws.drop_first(),
                        responses.drop_first(),
                    ),
                    None => spec_segments_rel(
                        mid1,
                        m,
                        parts,
                        segments.drop_first(),
                        draws.drop_first(),
                        responses,
                    ),
                }
            };
        assert(segs2[0] == segments[0] && draws2[0] == draws[0]);
        assert(segs2.drop_first() =~= segments.drop_first().push(seg));
        assert(draws2.drop_first() =~= draws.drop_first().push(draw));
        match resp1 {
            Some(r1) => {
                lemma_segments_snoc(
                    mid1,
                    m,
                    b,
                    parts,
                    segments.drop_first(),
                    seg,
                    draws.drop_first(),
                    draw,
                    responses.drop_first(),
                    resp,
                );
                assert(new_resps.drop_first() =~= responses.drop_first() + (match resp {
                    Some(r) => seq![spec_response_text(r)],
                    None => Seq::<Seq<char>>::empty(),
                }));
                assert(new_resps[0] == spec_response_text(r1));
                assert(spec_seg_step(a, mid1, resp1, parts, segs2[0], draws2[0]));
            },
            None => {
                lemma_segments_snoc(
                    mid1,
                    m,
                    b,
                    parts,
                    segments.drop_first(),
                    seg,
                    draws.drop_first(),
                    draw,
                    responses,
                    resp,
                );
                assert(spec_seg_step(a, mid1, resp1, parts, segs2[0], draws2[0]));
            },
        }
    }
}

/// Whether `parts` is the comma-split of `text`: the parts are comma-free and
/// rejoin with commas to the text, which determines them uniquely.
pub open spec fn spec_split_of(text: Seq<char>, parts: Seq<String>) -> bool {
    &&& parts.len() >= 1
    &&& (forall|i: int| 0 <= i < parts.len() ==> spec_no_comma((#[trigger] parts[i])@))
    &&& spec_join_commas(spec_views(parts)) == text
}

/// Whether `segments` is the command segmentation of `parts`: consecutive,
/// covering, cut exactly before every later command keyword.
pub open spec fn spec_segmentation_of(parts: Seq<String>, segments: Seq<(usize, usize)>) -> bool {
    &&& (parts.len() == 0 ==> segments.len() == 0)
    &&& (parts.len() > 0 ==> segments.len() >= 1 && segments[0].0 == 0 && segments.last().1
        == parts.len())
    &&& (forall|j: int| 0 <= j < segments.len() ==> 0 <= (#[trigger] segments[j]).0 < segments[j].1
        <= parts.len())
    &&& (forall|j: int| 0 < j < segments.len() ==> (#[trigger] segments[j]).0 == segments[j - 1].1)
    &&& (forall|j: int, k: int|
        0 <= j < segments.len() && (#[trigger] segments[j]).0 < k < segments[j].1
            ==> !spec_is_command((#[trigger] parts[k])@))
    &&& (forall|j: int| 0 < j < segments.len() ==> spec_is_command(
        parts[(#[trigger] segments[j]).0 as int]@,
    ))
}

} // verus!



