//! The per-robot stock table: grams available for each flavor, together with
//! the timestamp of the last modification. Replicas converge by applying the
//! same timestamped deltas that the leader broadcasts.
use vstd::prelude::*;

use crate::flavors::{FlavorGrams, IceCreamFlavor};
use crate::INITIAL_GRAMS_AMOUNT;

verus! {

/// Whether the stock can satisfy the given requirement: every flavor that the
/// requirement mentions has at least that many grams in stock.
pub open spec fn spec_has_enough(stock: FlavorGrams, required: FlavorGrams) -> bool {
    forall|f: IceCreamFlavor| #[trigger] required.spec_get(f) > 0 ==> stock.spec_get(f)
        >= required.spec_get(f)
}

/// Whether subtracting the delta from the stock stays within `i32` bounds.
pub open spec fn spec_can_subtract(stock: FlavorGrams, delta: FlavorGrams) -> bool {
    forall|f: IceCreamFlavor| i32::MIN <= #[trigger] (stock.spec_get(f) - delta.spec_get(f))
        <= i32::MAX
}

/// Whether adding the delta to the stock stays within `i32` bounds.
pub open spec fn spec_can_add(stock: FlavorGrams, delta: FlavorGrams) -> bool {
    forall|f: IceCreamFlavor| i32::MIN <= #[trigger] (stock.spec_get(f) + delta.spec_get(f))
        <= i32::MAX
}

/// Each flavor is one of the four variants; spelling that out turns a
/// per-variant fact into a quantified per-flavor fact.
pub proof fn lemma_flavor_cases(f: IceCreamFlavor)
    ensures
        f == IceCreamFlavor::Vanilla || f == IceCreamFlavor::Chocolate || f
            == IceCreamFlavor::Strawberry || f == IceCreamFlavor::Mint,
{
}

/// The inventory of grams per flavor at one robot.
#[derive(Clone, Copy, Debug, PartialEq, Eq, Structural)]
pub struct Stock {
    pub stock_table: FlavorGrams,
    pub last_modification_timestamp: u64,
}

impl Stock {
    /// A fresh stock table holding the initial amount of every flavor.
    pub fn new(now: u64) -> (r: Stock)
        ensures
            forall|f: IceCreamFlavor| #[trigger] r.stock_table.spec_get(f)
                == INITIAL_GRAMS_AMOUNT as int,
            r.last_modification_timestamp == now,
    {
        Stock {
            stock_table: FlavorGrams {
                vanilla: INITIAL_GRAMS_AMOUNT,
                chocolate: INITIAL_GRAMS_AMOUNT,
                strawberry: INITIAL_GRAMS_AMOUNT,
                mint: INITIAL_GRAMS_AMOUNT,
            },
            last_modification_timestamp: now,
        }
    }

    /// Whether every flavor the requirement mentions is sufficiently stocked.
    pub fn has_enough_stock(&self, required: &FlavorGrams) -> (r: bool)
        ensures
            r == spec_has_enough(self.stock_table, *required),
    {
        let s = &self.stock_table;
        let ok = (required.vanilla <= 0 || s.vanilla >= required.vanilla) && (required.chocolate
            <= 0 || s.chocolate >= required.chocolate) && (required.strawberry <= 0 || s.strawberry
            >= required.strawberry) && (required.mint <= 0 || s.mint >= required.mint);
        proof {
            if ok {
                assert forall|f: IceCreamFlavor| #[trigger] required.spec_get(f) > 0 implies self
                    .stock_table
                    .spec_get(f) >= required.spec_get(f) by {
                    lemma_flavor_cases(f);
                }
            } else {
                if !(required.vanilla <= 0 || s.vanilla >= required.vanilla) {
                    assert(required.spec_get(IceCreamFlavor::Vanilla) > 0
                        && self.stock_table.spec_get(IceCreamFlavor::Vanilla) < required.spec_get(
                        IceCreamFlavor::Vanilla,
                    ));
                } else if !(required.chocolate <= 0 || s.chocolate >= required.chocolate) {
                    assert(required.spec_get(IceCreamFlavor::Chocolate) > 0
                        && self.stock_table.spec_get(IceCreamFlavor::Chocolate)
                        < required.spec_get(IceCreamFlavor::Chocolate));
                } else if !(required.strawberry <= 0 || s.strawberry >= required.strawberry) {
                    assert(required.spec_get(IceCreamFlavor::Strawberry) > 0
                        && self.stock_table.spec_get(IceCreamFlavor::Strawberry)
                        < required.spec_get(IceCreamFlavor::Strawberry));
                } else {
                    assert(required.spec_get(IceCreamFlavor::Mint) > 0
                        && self.stock_table.spec_get(IceCreamFlavor::Mint) < required.spec_get(
                        IceCreamFlavor::Mint,
                    ));
                }
            }
        }
        ok
    }

    /// Subtracts the given grams per flavor and stamps the modification time.
    pub fn subtract_with_timestamp(&mut self, to_subtract: &FlavorGrams, timestamp: u64)
        requires
            spec_can_subtract(old(self).stock_table, *to_subtract),
        ensures
            forall|f: IceCreamFlavor| #[trigger] final(self).stock_table.spec_get(f)
                == old(self).stock_table.spec_get(f) - to_subtract.spec_get(f),
            final(self).last_modification_timestamp == timestamp,
    {
        proof {
            assert(old(self).stock_table.spec_get(IceCreamFlavor::Vanilla)
                - to_subtract.spec_get(IceCreamFlavor::Vanilla) <= i32::MAX);
            assert(old(self).stock_table.spec_get(IceCreamFlavor::Chocolate)
                - to_subtract.spec_get(IceCreamFlavor::Chocolate) <= i32::MAX);
            assert(old(self).stock_table.spec_get(IceCreamFlavor::Strawberry)
                - to_subtract.spec_get(IceCreamFlavor::Strawberry) <= i32::MAX);
            assert(old(self).stock_table.spec_get(IceCreamFlavor::Mint) - to_subtract.spec_get(
                IceCreamFlavor::Mint,
            ) <= i32::MAX);
        }
        self.stock_table.vanilla = self.stock_table.vanilla - to_subtract.vanilla;
        self.stock_table.chocolate = self.stock_table.chocolate - to_subtract.chocolate;
        self.stock_table.strawberry = self.stock_table.strawberry - to_subtract.strawberry;
        self.stock_table.mint = self.stock_table.mint - to_subtract.mint;
        self.last_modification_timestamp = timestamp;
        proof {
            assert forall|f: IceCreamFlavor| #[trigger] self.stock_table.spec_get(f)
                == old(self).stock_table.spec_get(f) - to_subtract.spec_get(f) by {
                lemma_flavor_cases(f);
            }
        }
    }

    /// Adds the given grams per flavor and stamps the modification time.
    pub fn add_with_timestamp(&mut self, to_add: &FlavorGrams, timestamp: u64)
        requires
            spec_can_add(old(self).stock_table, *to_add),
        ensures
            forall|f: IceCreamFlavor| #[trigger] final(self).stock_table.spec_get(f)
                == old(self).stock_table.spec_get(f) + to_add.spec_get(f),
            final(self).last_modification_timestamp == timestamp,
    {
        proof {
            assert(old(self).stock_table.spec_get(IceCreamFlavor::Vanilla) + to_add.spec_get(
                IceCreamFlavor::Vanilla,
            ) <= i32::MAX);
            assert(old(self).stock_table.spec_get(IceCreamFlavor::Chocolate) + to_add.spec_get(
                IceCreamFlavor::Chocolate,
            ) <= i32::MAX);
            assert(old(self).stock_table.spec_get(IceCreamFlavor::Strawberry) + to_add.spec_get(
                IceCreamFlavor::Strawberry,
            ) <= i32::MAX);
            assert(old(self).stock_table.spec_get(IceCreamFlavor::Mint) + to_add.spec_get(
                IceCreamFlavor::Mint,
            ) <= i32::MAX);
        }
        self.stock_table.vanilla = self.stock_table.vanilla + to_add.vanilla;
        self.stock_table.chocolate = self.stock_table.chocolate + to_add.chocolate;
        self.stock_table.strawberry = self.stock_table.strawberry + to_add.strawberry;
        self.stock_table.mint = self.stock_table.mint + to_add.mint;
        self.last_modification_timestamp = timestamp;
        proof {
            assert forall|f: IceCreamFlavor| #[trigger] self.stock_table.spec_get(f)
                == old(self).stock_table.spec_get(f) + to_add.spec_get(f) by {
                lemma_flavor_cases(f);
            }
        }
    }

    /// Subtracts the given grams with a fresh local timestamp, and returns
    /// that timestamp so callers can broadcast it.
    pub fn subtract_stock(&mut self, to_subtract: &FlavorGrams, now: u64) -> (ts: u64)
        requires
            spec_can_subtract(old(self).stock_table, *to_subtract),
        ensures
            ts == now,
            forall|f: IceCreamFlavor| #[trigger] final(self).stock_table.spec_get(f)
                == old(self).stock_table.spec_get(f) - to_subtract.spec_get(f),
            final(self).last_modification_timestamp == now,
    {
        self.subtract_with_timestamp(to_subtract, now);
        now
    }

    /// Adds the given grams with a fresh local timestamp, and returns that
    /// timestamp so callers can broadcast it.
    pub fn add_stock(&mut self, to_add: &FlavorGrams, now: u64) -> (ts: u64)
        requires
            spec_can_add(old(self).stock_table, *to_add),
        ensures
            ts == now,
            forall|f: IceCreamFlavor| #[trigger] final(self).stock_table.spec_get(f)
                == old(self).stock_table.spec_get(f) + to_add.spec_get(f),
            final(self).last_modification_timestamp == now,
    {
        self.add_with_timestamp(to_add, now);
        now
    }
}

} // verus!
