//! Plain trading vocabulary: contracts, sides, prices and quantities.
use vstd::prelude::*;

verus! {

/// Truncating integer division, as Rust computes `x / d` on signed integers.
pub open spec fn trunc_div(x: int, d: int) -> int {
    if x >= 0 {
        x / d
    } else {
        -((-x) / d)
    }
}

/// `x * k` clamped into the range of `i64`.
pub open spec fn saturating_scale(x: int, k: int) -> int {
    if x * k > i64::MAX {
        i64::MAX as int
    } else if x * k < i64::MIN {
        i64::MIN as int
    } else {
        x * k
    }
}

/// A tradable contract, identified by its name.
#[derive(PartialEq, Eq, Hash, Debug)]
pub struct Contract(String);

impl View for Contract {
    type V = Seq<char>;

    closed spec fn view(&self) -> Seq<char> {
        self.0@
    }
}

impl Contract {
    /// A contract with the given name.
    pub fn new(name: &str) -> (c: Contract)
        ensures
            c@ == name@,
    {
        Contract(name.to_owned())
    }

    /// Whether two contracts have the same name.
    pub fn same_name(&self, other: &Contract) -> (r: bool)
        ensures
            r == (self@ == other@),
    {
        self.0.eq(&other.0)
    }

    /// The contract's name.
    pub fn name(&self) -> (r: &str)
        ensures
            r@ == self@,
    {
        self.0.as_str()
    }
}

impl Clone for Contract {
    fn clone(&self) -> (r: Self)
        ensures
            r == *self,
    {
        Contract(self.0.clone())
    }
}

/// The side of an order.
#[derive(PartialEq, Eq, Structural, Hash, Debug, Clone, Copy)]
pub enum Side {
    Buy,
    Sell,
}

/// An amount of money in cents.
#[derive(PartialEq, Eq, Structural, Debug, Clone, Copy)]
pub struct Cents(pub i64);

/// An amount of money in whole euros.
#[derive(PartialEq, Eq, Structural, Debug, Clone, Copy)]
pub struct Euros(pub i64);

/// A power quantity in kilowatts.
#[derive(PartialEq, Eq, Structural, Debug, Clone, Copy)]
pub struct Kw(pub i64);

/// A power quantity in megawatts.
#[derive(PartialEq, Eq, Structural, Debug, Clone, Copy)]
pub struct Mw(pub i64);

/// A price, held in cents.
#[derive(PartialEq, Eq, Structural, Hash, Debug, Clone, Copy, PartialOrd, Ord)]
pub struct Price {
    pub cents: i64,
}

/// A quantity, held in kilowatts.
#[derive(PartialEq, Eq, Structural, Hash, Debug, Clone, Copy, PartialOrd, Ord)]
pub struct Quantity {
    pub kw: i64,
}

impl Price {
    /// The price in cents.
    pub fn in_cents(&self) -> (r: Cents)
        ensures
            r.0 == self.cents,
    {
        Cents(self.cents)
    }

    /// The price in whole euros, truncated toward zero.
    pub fn in_euros(&self) -> (r: Euros)
        ensures
            r.0 == trunc_div(self.cents as int, 100),
    {
        Euros(self.cents / 100)
    }
}

impl Quantity {
    /// The quantity in kilowatts.
    pub fn in_kw(&self) -> (r: Kw)
        ensures
            r.0 == self.kw,
    {
        Kw(self.kw)
    }

    /// The quantity in whole megawatts, truncated toward zero.
    pub fn in_mw(&self) -> (r: Mw)
        ensures
            r.0 == trunc_div(self.kw as int, 1000),
    {
        Mw(self.kw / 1000)
    }
}

/// Multiplies by `k`, clamping at the bounds of `i64`.
fn scale_saturating(x: i64, k: i64) -> (r: i64)
    requires
        k > 0,
    ensures
        r == saturating_scale(x as int, k as int),
{
    match x.checked_mul(k) {
        Some(v) => v,
        None => {
            proof {
                if x < 0 {
                    assert(x * k < 0) by (nonlinear_arith)
                        requires
                            x < 0,
                            k > 0,
                    ;
                } else {
                    assert(x * k >= 0) by (nonlinear_arith)
                        requires
                            x >= 0,
                            k > 0,
                    ;
                }
            }
            if x < 0 {
                i64::MIN
            } else {
                i64::MAX
            }
        },
    }
}

/// Whole euros scaled to cents and read back in whole euros give the euros
/// again, where the amount in cents fits an `i64`.
pub proof fn lemma_euros_roundtrip(e: i64)
    requires
        i64::MIN <= e * 100 <= i64::MAX,
    ensures
        trunc_div(saturating_scale(e as int, 100), 100) == e,
{
    assert(saturating_scale(e as int, 100) == e * 100);
    if e >= 0 {
        assert((e * 100) / 100 == e) by (nonlinear_arith);
    } else {
        assert((-(e * 100)) / 100 == -e) by (nonlinear_arith)
            requires
                e < 0,
        ;
    }
}

/// Whole megawatts scaled to kilowatts and read back in whole megawatts give
/// the megawatts again, where the amount in kilowatts fits an `i64`.
pub proof fn lemma_megawatts_roundtrip(m: i64)
    requires
        i64::MIN <= m * 1000 <= i64::MAX,
    ensures
        trunc_div(saturating_scale(m as int, 1000), 1000) == m,
{
    assert(saturating_scale(m as int, 1000) == m * 1000);
    if m >= 0 {
        assert((m * 1000) / 1000 == m) by (nonlinear_arith);
    } else {
        assert((-(m * 1000)) / 1000 == -m) by (nonlinear_arith)
            requires
                m < 0,
        ;
    }
}

impl From<Cents> for Price {
    fn from(c: Cents) -> (r: Price) {
        Price { cents: c.0 }
    }
}

impl vstd::std_specs::convert::FromSpecImpl<Cents> for Price {
    open spec fn obeys_from_spec() -> bool {
        true
    }

    open spec fn from_spec(c: Cents) -> Price {
        Price { cents: c.0 }
    }
}

impl From<Euros> for Price {
    fn from(e: Euros) -> (r: Price) {
        Price { cents: scale_saturating(e.0, 100) }
    }
}

impl vstd::std_specs::convert::FromSpecImpl<Euros> for Price {
    open spec fn obeys_from_spec() -> bool {
        true
    }

    open spec fn from_spec(e: Euros) -> Price {
        Price { cents: saturating_scale(e.0 as int, 100) as i64 }
    }
}

impl From<Kw> for Quantity {
    fn from(q: Kw) -> (r: Quantity) {
        Quantity { kw: q.0 }
    }
}

impl vstd::std_specs::convert::FromSpecImpl<Kw> for Quantity {
    open spec fn obeys_from_spec() -> bool {
        true
    }

    open spec fn from_spec(q: Kw) -> Quantity {
        Quantity { kw: q.0 }
    }
}

impl From<Mw> for Quantity {
    fn from(q: Mw) -> (r: Quantity) {
        Quantity { kw: scale_saturating(q.0, 1000) }
    }
}

impl vstd::std_specs::convert::FromSpecImpl<Mw> for Quantity {
    open spec fn obeys_from_spec() -> bool {
        true
    }

    open spec fn from_spec(q: Mw) -> Quantity {
        Quantity { kw: saturating_scale(q.0 as int, 1000) as i64 }
    }
}

} // verus!
