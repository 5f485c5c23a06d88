//! The flavor vocabulary: the closed set of ice-cream flavors, their wire
//! names, and per-flavor gram tables used for stock and order details.
use vstd::prelude::*;

use crate::text::str_eq;

verus! {

/// The closed enumeration of available ice-cream flavors.
#[derive(Clone, Copy, Debug, PartialEq, Eq, Structural)]
pub enum IceCreamFlavor {
    Vanilla,
    Chocolate,
    Strawberry,
    Mint,
}

/// The canonical name of a flavor, as used on the wire and in the log.
pub open spec fn spec_flavor_name(f: IceCreamFlavor) -> Seq<char> {
    match f {
        IceCreamFlavor::Vanilla => "Vanilla"@,
        IceCreamFlavor::Chocolate => "Chocolate"@,
        IceCreamFlavor::Strawberry => "Strawberry"@,
        IceCreamFlavor::Mint => "Mint"@,
    }
}

/// The flavor whose canonical name is the given string, if any.
pub open spec fn spec_flavor_of_name(s: Seq<char>) -> Option<IceCreamFlavor> {
    if s == "Vanilla"@ {
        Some(IceCreamFlavor::Vanilla)
    } else if s == "Chocolate"@ {
        Some(IceCreamFlavor::Chocolate)
    } else if s == "Strawberry"@ {
        Some(IceCreamFlavor::Strawberry)
    } else if s == "Mint"@ {
        Some(IceCreamFlavor::Mint)
    } else {
        None
    }
}

impl IceCreamFlavor {
    /// All flavors, in canonical order.
    pub fn iter() -> (r: Vec<IceCreamFlavor>)
        ensures
            r@ =~= seq![
                IceCreamFlavor::Vanilla,
                IceCreamFlavor::Chocolate,
                IceCreamFlavor::Strawberry,
                IceCreamFlavor::Mint,
            ],
    {
        let mut v: Vec<IceCreamFlavor> = Vec::new();
        v.push(IceCreamFlavor::Vanilla);
        v.push(IceCreamFlavor::Chocolate);
        v.push(IceCreamFlavor::Strawberry);
        v.push(IceCreamFlavor::Mint);
        v
    }

    /// The canonical name of this flavor.
    pub fn name(&self) -> (r: String)
        ensures
            r@ == spec_flavor_name(*self),
    {
        match self {
            IceCreamFlavor::Vanilla => "Vanilla".to_owned(),
            IceCreamFlavor::Chocolate => "Chocolate".to_owned(),
            IceCreamFlavor::Strawberry => "Strawberry".to_owned(),
            IceCreamFlavor::Mint => "Mint".to_owned(),
        }
    }

    /// Parses a canonical flavor name; every other string is rejected.
    pub fn from_name(s: &str) -> (r: Option<IceCreamFlavor>)
        ensures
            r == spec_flavor_of_name(s@),
    {
        if str_eq(s, "Vanilla") {
            Some(IceCreamFlavor::Vanilla)
        } else if str_eq(s, "Chocolate") {
            Some(IceCreamFlavor::Chocolate)
        } else if str_eq(s, "Strawberry") {
            Some(IceCreamFlavor::Strawberry)
        } else if str_eq(s, "Mint") {
            Some(IceCreamFlavor::Mint)
        } else {
            None
        }
    }
}

/// The set of flavors the screens accept, which is all of them.
pub fn default_flavors() -> (r: Vec<IceCreamFlavor>)
    ensures
        r@ =~= seq![
            IceCreamFlavor::Vanilla,
            IceCreamFlavor::Chocolate,
            IceCreamFlavor::Strawberry,
            IceCreamFlavor::Mint,
        ],
{
    IceCreamFlavor::iter()
}

/// A number of grams for each flavor; used both for order details
/// (grams required) and for stock deltas. A flavor with zero grams is
/// absent from the table.
#[derive(Clone, Copy, Debug, PartialEq, Eq, Structural)]
pub struct FlavorGrams {
    pub vanilla: i32,
    pub chocolate: i32,
    pub strawberry: i32,
    pub mint: i32,
}

impl FlavorGrams {
    /// The grams recorded for one flavor.
    pub open spec fn spec_get(self, f: IceCreamFlavor) -> int {
        match f {
            IceCreamFlavor::Vanilla => self.vanilla as int,
            IceCreamFlavor::Chocolate => self.chocolate as int,
            IceCreamFlavor::Strawberry => self.strawberry as int,
            IceCreamFlavor::Mint => self.mint as int,
        }
    }

    /// Every amount is non-negative.
    pub open spec fn all_nonneg(self) -> bool {
        forall|f: IceCreamFlavor| #[trigger] self.spec_get(f) >= 0
    }

    /// An empty table.
    pub fn new() -> (r: FlavorGrams)
        ensures
            forall|f: IceCreamFlavor| #[trigger] r.spec_get(f) == 0,
            r.all_nonneg(),
    {
        FlavorGrams { vanilla: 0, chocolate: 0, strawberry: 0, mint: 0 }
    }

    /// Reads the grams for one flavor.
    pub fn get(&self, f: IceCreamFlavor) -> (r: i32)
        ensures
            r as int == self.spec_get(f),
    {
        match f {
            IceCreamFlavor::Vanilla => self.vanilla,
            IceCreamFlavor::Chocolate => self.chocolate,
            IceCreamFlavor::Strawberry => self.strawberry,
            IceCreamFlavor::Mint => self.mint,
        }
    }

    /// Replaces the grams for one flavor, leaving the others unchanged.
    pub fn set(&mut self, f: IceCreamFlavor, grams: i32)
        ensures
            final(self).spec_get(f) == grams as int,
            forall|g: IceCreamFlavor| g != f ==> #[trigger] final(self).spec_get(g)
                == old(self).spec_get(g),
    {
        match f {
            IceCreamFlavor::Vanilla => self.vanilla = grams,
            IceCreamFlavor::Chocolate => self.chocolate = grams,
            IceCreamFlavor::Strawberry => self.strawberry = grams,
            IceCreamFlavor::Mint => self.mint = grams,
        }
    }

    /// Adds grams for one flavor.
    pub fn add(&mut self, f: IceCreamFlavor, grams: i32)
        requires
            old(self).spec_get(f) + grams <= i32::MAX,
            old(self).spec_get(f) + grams >= i32::MIN,
        ensures
            final(self).spec_get(f) == old(self).spec_get(f) + grams,
            forall|g: IceCreamFlavor| g != f ==> #[trigger] final(self).spec_get(g)
                == old(self).spec_get(g),
    {
        let cur = self.get(f);
        self.set(f, cur + grams);
    }

    /// The flavors this table mentions, in canonical order: those with a
    /// non-zero amount.
    pub fn present_flavors(&self) -> (r: Vec<IceCreamFlavor>)
        ensures
            r@ == spec_present_flavors(*self),
    {
        let mut v: Vec<IceCreamFlavor> = Vec::new();
        if self.vanilla != 0 {
            v.push(IceCreamFlavor::Vanilla);
        }
        if self.chocolate != 0 {
            v.push(IceCreamFlavor::Chocolate);
        }
        if self.strawberry != 0 {
            v.push(IceCreamFlavor::Strawberry);
        }
        if self.mint != 0 {
            v.push(IceCreamFlavor::Mint);
        }
        assert(v@ =~= spec_present_flavors(*self));
        v
    }
}

/// The flavors with a non-zero amount, in canonical order.
pub open spec fn spec_present_flavors(d: FlavorGrams) -> Seq<IceCreamFlavor> {
    let a = if d.vanilla != 0 {
        seq![IceCreamFlavor::Vanilla]
    } else {
        Seq::empty()
    };
    let b = if d.chocolate != 0 {
        seq![IceCreamFlavor::Chocolate]
    } else {
        Seq::empty()
    };
    let c = if d.strawberry != 0 {
        seq![IceCreamFlavor::Strawberry]
    } else {
        Seq::empty()
    };
    let e = if d.mint != 0 {
        seq![IceCreamFlavor::Mint]
    } else {
        Seq::empty()
    };
    a + b + c + e
}

/// Replica bookkeeping that each robot keeps for one flavor: whether this
/// robot currently holds the flavor's token, the stock replica read from the
/// token, and when this entry was last modified.
#[derive(Clone, Copy, Debug, PartialEq, Eq, Structural)]
pub struct FlavorInfo {
    pub has_token: bool,
    pub stock: i32,
    pub last_modification_timestamp: u64,
}

} // verus!
