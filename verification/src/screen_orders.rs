//! The screen-side order intake: the shapes read from the local order file,
//! the validation of flavor names, and the messages the intake pipeline
//! passes between its stages. File reading and actor plumbing live with the
//! caller; the decisions live here.
use vstd::prelude::*;

use crate::flavors::{spec_flavor_of_name, FlavorGrams, IceCreamFlavor};
use crate::text::{spec_u64_string, u64_to_string};

verus! {

/// A request to read one order file.
pub struct ReadFile {
    pub name: String,
}

impl ReadFile {
    /// Wraps a file name.
    pub fn new(name: String) -> (r: ReadFile)
        ensures
            r.name@ == name@,
    {
        ReadFile { name }
    }
}

/// One requested flavor of an order, as named in the order file.
pub struct Flavor {
    pub name: String,
    pub grams: i32,
}

/// One customer order as read from the order file.
pub struct Order {
    pub flavors: Vec<Flavor>,
}

/// The text of one order: `<name>,<grams>g;` per flavor, in order.
pub open spec fn spec_order_string(flavors: Seq<Flavor>) -> Seq<char>
    decreases flavors.len(),
{
    if flavors.len() == 0 {
        Seq::empty()
    } else {
        spec_order_string(flavors.drop_last()) + flavors.last().name@ + ","@ + spec_u64_string(
            flavors.last().grams as int,
        ) + "g;"@
    }
}

impl Order {
    /// Renders the order as the detail string sent to the gateway.
    pub fn to_string(&self) -> (r: String)
        requires
            forall|i: int| 0 <= i < self.flavors@.len() ==> (#[trigger] self.flavors@[i]).grams
                >= 0,
        ensures
            r@ == spec_order_string(self.flavors@),
    {
        let mut r = String::new();
        let mut i: usize = 0;
        while i < self.flavors.len()
            invariant
                i <= self.flavors@.len(),
                forall|j: int| 0 <= j < self.flavors@.len() ==> (#[trigger] self.flavors@[j]).grams
                    >= 0,
                r@ == spec_order_string(self.flavors@.take(i as int)),
            decreases self.flavors@.len() - i,
        {
            proof {
                assert(self.flavors@.take(i + 1).drop_last() =~= self.flavors@.take(i as int));
                assert(self.flavors@.take(i + 1).last() == self.flavors@[i as int]);
            }
            r.append(self.flavors[i].name.as_str());
            r.append(",");
            let grams_text = u64_to_string(self.flavors[i].grams as u64);
            r.append(grams_text.as_str());
            r.append("g;");
            i += 1;
        }
        proof {
            assert(self.flavors@.take(self.flavors@.len() as int) =~= self.flavors@);
        }
        r
    }
}

/// A batch of orders read from the order file.
pub struct Orders {
    pub orders: Vec<Order>,
}

/// A request to launch this many new orders.
pub struct SendOrder {
    pub send_new_orders: usize,
}

/// A validated order on its way to authorization.
pub struct PrepareOrder {
    pub order: Order,
}

/// An authorized order that completed.
pub struct CommitOrder {
    pub order_id: u32,
}

/// An authorized order that was rolled back.
pub struct AbortOrder {
    pub order_id: u32,
}

/// Whether every flavor of an order names one of the known flavors. An order
/// with any unknown flavor is discarded without being authorized.
pub fn validate_flavours(order: &Order) -> (r: bool)
    ensures
        r == (forall|i: int|
            0 <= i < order.flavors@.len() ==> spec_flavor_of_name(
                (#[trigger] order.flavors@[i]).name@,
            ) is Some),
{
    let mut i: usize = 0;
    while i < order.flavors.len()
        invariant
            i <= order.flavors@.len(),
            forall|j: int|
                0 <= j < i ==> spec_flavor_of_name((#[trigger] order.flavors@[j]).name@) is Some,
        decreases order.flavors@.len() - i,
    {
        match IceCreamFlavor::from_name(order.flavors[i].name.as_str()) {
            Some(_) => {},
            None => {
                return false;
            },
        }
        i += 1;
    }
    true
}

/// The total grams an order requests for one flavor: the sum over all its
/// entries whose name parses to that flavor. Entries with unknown names
/// contribute nothing; validation already discarded such orders.
pub open spec fn spec_flavor_sum(flavors: Seq<Flavor>, f: IceCreamFlavor) -> int
    decreases flavors.len(),
{
    if flavors.len() == 0 {
        0
    } else {
        spec_flavor_sum(flavors.drop_last(), f) + if spec_flavor_of_name(flavors.last().name@)
            == Some(f) {
            flavors.last().grams as int
        } else {
            0
        }
    }
}

/// With non-negative entries, every per-flavor sum is non-negative.
proof fn lemma_flavor_sum_nonneg(flavors: Seq<Flavor>, f: IceCreamFlavor)
    requires
        forall|i: int| 0 <= i < flavors.len() ==> 0 <= (#[trigger] flavors[i]).grams,
    ensures
        spec_flavor_sum(flavors, f) >= 0,
    decreases flavors.len(),
{
    if flavors.len() > 0 {
        lemma_flavor_sum_nonneg(flavors.drop_last(), f);
    }
}

/// With non-negative entries, a prefix's per-flavor sum never exceeds the
/// whole order's.
proof fn lemma_flavor_sum_prefix(flavors: Seq<Flavor>, f: IceCreamFlavor, k: int)
    requires
        forall|i: int| 0 <= i < flavors.len() ==> 0 <= (#[trigger] flavors[i]).grams,
        0 <= k <= flavors.len(),
    ensures
        spec_flavor_sum(flavors.take(k), f) <= spec_flavor_sum(flavors, f),
    decreases flavors.len() - k,
{
    if k == flavors.len() {
        assert(flavors.take(k) =~= flavors);
    } else {
        lemma_flavor_sum_prefix(flavors, f, k + 1);
        assert(flavors.take(k + 1).drop_last() =~= flavors.take(k));
        assert(flavors.take(k + 1).last() == flavors[k]);
    }
}

/// Accumulates a validated order's flavors into a gram table, as handed to
/// the ring after authorization: each flavor gets the sum of its grams over
/// all entries naming it, duplicates aggregated, unknown names skipped.
pub fn order_details_of(order: &Order) -> (r: FlavorGrams)
    requires
        forall|i: int|
            0 <= i < order.flavors@.len() ==> 0 <= (#[trigger] order.flavors@[i]).grams,
        forall|f: IceCreamFlavor| spec_flavor_sum(order.flavors@, f) <= i32::MAX,
    ensures
        forall|f: IceCreamFlavor| #[trigger] r.spec_get(f) == spec_flavor_sum(order.flavors@, f),
        r.all_nonneg(),
{
    let mut r = FlavorGrams::new();
    let mut i: usize = 0;
    while i < order.flavors.len()
        invariant
            i <= order.flavors@.len(),
            forall|j: int|
                0 <= j < order.flavors@.len() ==> 0 <= (#[trigger] order.flavors@[j]).grams,
            forall|f: IceCreamFlavor| spec_flavor_sum(order.flavors@, f) <= i32::MAX,
            forall|f: IceCreamFlavor| #[trigger] r.spec_get(f) == spec_flavor_sum(
                order.flavors@.take(i as int),
                f,
            ),
        decreases order.flavors@.len() - i,
    {
        proof {
            assert(order.flavors@.take(i + 1).drop_last() =~= order.flavors@.take(i as int));
            assert(order.flavors@.take(i + 1).last() == order.flavors@[i as int]);
        }
        match IceCreamFlavor::from_name(order.flavors[i].name.as_str()) {
            Some(f0) => {
                let grams = order.flavors[i].grams;
                proof {
                    lemma_flavor_sum_prefix(order.flavors@, f0, i + 1);
                    lemma_flavor_sum_nonneg(order.flavors@.take(i as int), f0);
                }
                r.add(f0, grams);
                proof {
                    assert forall|f: IceCreamFlavor| #[trigger] r.spec_get(f) == spec_flavor_sum(
                        order.flavors@.take(i + 1),
                        f,
                    ) by {
                        crate::stock_table::lemma_flavor_cases(f);
                    }
                }
            },
            None => {},
        }
        i += 1;
    }
    proof {
        assert(order.flavors@.take(order.flavors@.len() as int) =~= order.flavors@);
        assert forall|f: IceCreamFlavor| #[trigger] r.spec_get(f) >= 0 by {
            lemma_flavor_sum_nonneg(order.flavors@, f);
        }
    }
    r
}

/// The first comma at or after `from`, or the string's length if none.
pub open spec fn spec_first_comma(s: Seq<char>, from: int) -> int
    decreases s.len() - from,
{
    if from < 0 || from >= s.len() {
        s.len() as int
    } else if s[from] == ',' {
        from
    } else {
        spec_first_comma(s, from + 1)
    }
}

/// What the gateway's authorization reply means, exactly as the screen reads
/// it: a reply starting with `ABORT` is a rejection, reported as order id 0;
/// one starting with `COMMIT` carries the assigned id between the first comma
/// and the next; anything else is malformed.
pub open spec fn spec_gateway_reply(s: Seq<char>) -> Option<u32> {
    if s.len() >= 5 && s.take(5) == "ABORT"@ {
        Some(0u32)
    } else if s.len() >= 6 && s.take(6) == "COMMIT"@ {
        let c1 = spec_first_comma(s, 0);
        if c1 == s.len() {
            None
        } else {
            let id_text = s.subrange(c1 + 1, spec_first_comma(s, c1 + 1));
            if crate::text::spec_parses_as_u32(id_text) {
                Some(crate::text::spec_digits_value(id_text) as u32)
            } else {
                None
            }
        }
    } else {
        None
    }
}

/// Finds the first comma at or after `from`.
fn find_comma(s: &str, from: usize) -> (r: usize)
    requires
        from <= s@.len(),
    ensures
        r == spec_first_comma(s@, from as int),
        from <= r <= s@.len(),
{
    let len = s.unicode_len();
    let mut i: usize = from;
    while i < len
        invariant
            from <= i <= len,
            len == s@.len(),
            spec_first_comma(s@, from as int) == spec_first_comma(s@, i as int),
        decreases len - i,
    {
        if s.get_char(i) == ',' {
            return i;
        }
        i += 1;
    }
    len
}

/// Parses the gateway's reply to an authorization request: `Some(0)` for a
/// rejection, `Some(id)` for an authorization under that order id, `None`
/// for a malformed reply.
pub fn parse_gateway_reply(s: &str) -> (r: Option<u32>)
    ensures
        r == spec_gateway_reply(s@),
{
    let len = s.unicode_len();
    if len >= 5 && crate::text::str_eq(s.substring_char(0, 5), "ABORT") {
        return Some(0);
    }
    if len >= 6 && crate::text::str_eq(s.substring_char(0, 6), "COMMIT") {
        let c1 = find_comma(s, 0);
        if c1 == len {
            return None;
        }
        let c2 = find_comma(s, c1 + 1);
        let id_text = s.substring_char(c1 + 1, c2);
        match crate::text::parse_u32(id_text) {
            Some(id) => Some(id),
            None => None,
        }
    } else {
        None
    }
}

} // verus!
