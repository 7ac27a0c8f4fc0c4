//! A price, held the way `rust_decimal` holds one: a whole number and how
//! many of its digits sit after the point.

use rust_decimal::Decimal;
use vstd::prelude::*;

use crate::text::digits;

verus! {

/// The largest mantissa a `Decimal` can carry: 96 bits.
pub const MOST: i128 = 0xFFFF_FFFF_FFFF_FFFF_FFFF_FFFF;

/// The most digits a `Decimal` can carry after the point.
pub const MOST_SCALE: u32 = 28;

/// `mantissa / 10^scale`.
#[derive(Clone, Copy, Debug, PartialEq, Eq, Structural)]
pub struct Price {
    pub mantissa: i128,
    pub scale: u32,
}

pub open spec fn pow10(n: nat) -> int
    decreases n,
{
    if n == 0 { 1 } else { 10 * pow10((n - 1) as nat) }
}

pub proof fn lemma_pow10_positive(n: nat)
    ensures
        pow10(n) > 0,
    decreases n,
{
    if n > 0 {
        lemma_pow10_positive((n - 1) as nat);
    }
}

impl Price {
    /// A price a `Decimal` can hold.
    pub open spec fn valid(self) -> bool {
        &&& self.scale <= MOST_SCALE
        &&& -MOST <= self.mantissa <= MOST
    }

    /// `num / 10^scale`, as `Decimal::new` makes it.
    pub fn new(num: i64, scale: u32) -> (p: Price)
        requires
            scale <= MOST_SCALE,
        ensures
            p.valid(),
            p.mantissa == num,
            p.scale == scale,
    {
        Price { mantissa: num as i128, scale }
    }
}

/// `a >= b`, as numbers.
pub open spec fn at_least(a: Price, b: Price) -> bool {
    a.mantissa * pow10(b.scale as nat) >= b.mantissa * pow10(a.scale as nat)
}

/// `Decimal`'s own `>=`, which compares the numbers the two stand for.
#[verifier::external_body]
pub(crate) fn at_least_as(a: &Price, b: &Price) -> (r: bool)
    requires
        a.valid(),
        b.valid(),
    ensures
        r == at_least(*a, *b),
{
    Decimal::from_i128_with_scale(a.mantissa, a.scale) >= Decimal::from_i128_with_scale(
        b.mantissa,
        b.scale,
    )
}

/// `n` zeros.
pub open spec fn zeros(n: nat) -> Seq<char>
    decreases n,
{
    if n == 0 {
        Seq::empty()
    } else {
        zeros((n - 1) as nat).push('0')
    }
}

/// The digits, with zeros in front up to `scale` of them.
pub open spec fn padded(d: Seq<char>, scale: nat) -> Seq<char> {
    if d.len() < scale {
        zeros((scale - d.len()) as nat) + d
    } else {
        d
    }
}

/// The point put before the last `scale` digits, with a `0` before it when
/// nothing is left in front.
pub open spec fn pointed(d: Seq<char>, scale: nat) -> Seq<char> {
    if scale == 0 {
        d
    } else if d.len() == scale {
        seq!['0', '.'] + d
    } else {
        d.take(d.len() - scale) + seq!['.'] + d.skip(d.len() - scale)
    }
}

/// How `Decimal` writes the price `p` with `to_string`: a `-` when the
/// mantissa is below zero, then the mantissa's digits with the point before
/// the last `scale` of them, padded with zeros — `4120.50`, `0.005`, `-7`.
pub open spec fn written(p: Price) -> Seq<char> {
    let size: nat = if p.mantissa < 0 { (-p.mantissa) as nat } else { p.mantissa as nat };
    (if p.mantissa < 0 { seq!['-'] } else { Seq::<char>::empty() }) + pointed(
        padded(digits(size), p.scale as nat),
        p.scale as nat,
    )
}

/// `Decimal`'s `to_string`.
#[verifier::external_body]
pub(crate) fn price_text(p: &Price) -> (s: String)
    requires
        p.valid(),
    ensures
        s@ == written(*p),
{
    Decimal::from_i128_with_scale(p.mantissa, p.scale).to_string()
}

/// Any two prices compare one way or the other.
pub proof fn lemma_total(a: Price, b: Price)
    ensures
        at_least(a, b) || at_least(b, a),
{
}

/// `a >= b >= c` means `a >= c`.
pub proof fn lemma_transitive(a: Price, b: Price, c: Price)
    requires
        at_least(a, b),
        at_least(b, c),
    ensures
        at_least(a, c),
{
    let pa = pow10(a.scale as nat);
    let pb = pow10(b.scale as nat);
    let pc = pow10(c.scale as nat);
    lemma_pow10_positive(a.scale as nat);
    lemma_pow10_positive(b.scale as nat);
    lemma_pow10_positive(c.scale as nat);
    let (am, bm, cm) = (a.mantissa as int, b.mantissa as int, c.mantissa as int);
    assert(am * pc >= cm * pa) by (nonlinear_arith)
        requires
            am * pb >= bm * pa,
            bm * pc >= cm * pb,
            pa > 0,
            pb > 0,
            pc > 0,
    {
        assert(am * pb * pc >= bm * pa * pc);
        assert(bm * pc * pa >= cm * pb * pa);
        assert(am * pc * pb >= cm * pa * pb);
    }
}

} // verus!
