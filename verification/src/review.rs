//! Drawing a pair's levels, and how many of them the drawn chart can show.

use std::path::PathBuf;

use vstd::prelude::*;

use crate::candle::Bar;
use crate::frames::Timeframe;
use crate::price::{at_least, at_least_as, lemma_total, lemma_transitive, Price};

verus! {

#[verifier::external_type_specification]
#[verifier::external_body]
pub struct ExPathBuf(PathBuf);

/// One of his levels, as a band: where he drew it, and the two edges.
#[derive(Clone, Copy, Debug, PartialEq, Eq, Structural)]
pub struct Band {
    pub timeframe: Timeframe,
    pub price: Price,
    pub top: Price,
    pub bottom: Price,
}

impl Band {
    /// Prices a `Decimal` can hold.
    pub open spec fn valid(self) -> bool {
        self.price.valid() && self.top.valid() && self.bottom.valid()
    }
}

/// A band reaches into the price from `low` to `high`: **overlap, not the
/// middle**, and touching the edge counts.
pub open spec fn reaches(band: Band, low: Price, high: Price) -> bool {
    at_least(band.top, low) && at_least(high, band.bottom)
}

/// How many of the first `n` bands reach into the price from `low` to `high`.
pub open spec fn count_reaching(bands: Seq<Band>, n: int, low: Price, high: Price) -> nat
    decreases n,
{
    if n <= 0 {
        0
    } else {
        count_reaching(bands, n - 1, low, high) + if reaches(bands[n - 1], low, high) {
            1nat
        } else {
            0nat
        }
    }
}

pub proof fn lemma_count_at_most(bands: Seq<Band>, n: int, low: Price, high: Price)
    requires
        0 <= n,
    ensures
        count_reaching(bands, n, low, high) <= n,
    decreases n,
{
    if n > 0 {
        lemma_count_at_most(bands, n - 1, low, high);
    }
}

/// How many bands overlap the price the chart covers.
///
/// **Overlap, not the middle.** A band whose line sits above the highest
/// candle can still have its lower edge on screen, and that edge is the part
/// he is looking for.
pub fn on_the_chart(bands: &[Band], low: Price, high: Price) -> (n: usize)
    requires
        low.valid(),
        high.valid(),
        forall|i: int| 0 <= i < bands@.len() ==> (#[trigger] bands@[i]).valid(),
    ensures
        n == count_reaching(bands@, bands@.len() as int, low, high),
        n <= bands@.len(),
{
    let mut n: usize = 0;
    let mut i: usize = 0;
    while i < bands.len()
        invariant
            0 <= i <= bands@.len(),
            low.valid(),
            high.valid(),
            forall|j: int| 0 <= j < bands@.len() ==> (#[trigger] bands@[j]).valid(),
            n == count_reaching(bands@, i as int, low, high),
        decreases bands@.len() - i,
    {
        proof {
            lemma_count_at_most(bands@, i as int, low, high);
        }
        let band = &bands[i];
        if at_least_as(&band.top, &low) && at_least_as(&high, &band.bottom) {
            n = n + 1;
        }
        i = i + 1;
    }
    proof {
        lemma_count_at_most(bands@, bands@.len() as int, low, high);
    }
    n
}

/// Every price in a candle a `Decimal` can hold.
pub open spec fn bar_valid(bar: Bar) -> bool {
    bar.open.valid() && bar.high.valid() && bar.low.valid() && bar.close.valid()
}

/// `low` is the lowest low of `bars`, and the first to reach it.
pub open spec fn lowest(bars: Seq<Bar>, low: Price) -> bool {
    &&& exists|i: int| 0 <= i < bars.len() && bars[i].low == low
        && forall|j: int| 0 <= j < i ==> !at_least(low, #[trigger] bars[j].low)
    &&& forall|j: int| 0 <= j < bars.len() ==> at_least(#[trigger] bars[j].low, low)
}

/// `high` is the highest high of `bars`, and the last to reach it.
pub open spec fn highest(bars: Seq<Bar>, high: Price) -> bool {
    &&& exists|i: int| 0 <= i < bars.len() && bars[i].high == high
        && forall|j: int| i < j < bars.len() ==> !at_least(#[trigger] bars[j].high, high)
    &&& forall|j: int| 0 <= j < bars.len() ==> at_least(high, #[trigger] bars[j].high)
}

/// How much price the drawn candles actually cover: the lowest low and the
/// highest high, or `None` when no candles came back.
///
/// The same as `Iterator::min` and `Iterator::max` over them: the first of
/// equal lows, the last of equal highs.
pub fn covering(bars: &[Bar]) -> (r: Option<(Price, Price)>)
    requires
        forall|i: int| 0 <= i < bars@.len() ==> bar_valid(#[trigger] bars@[i]),
    ensures
        r is None <==> bars@.len() == 0,
        r matches Some((low, high)) ==> lowest(bars@, low) && highest(bars@, high) && low.valid()
            && high.valid(),
{
    if bars.len() == 0 {
        return None;
    }
    let mut low = bars[0].low;
    let mut high = bars[0].high;
    let ghost mut low_at: int = 0;
    let ghost mut high_at: int = 0;
    let mut i: usize = 1;
    assert(bar_valid(bars@[0]));
    while i < bars.len()
        invariant
            1 <= i <= bars@.len(),
            forall|k: int| 0 <= k < bars@.len() ==> bar_valid(#[trigger] bars@[k]),
            low.valid(),
            high.valid(),
            0 <= low_at < i,
            bars@[low_at].low == low,
            forall|j: int| 0 <= j < low_at ==> !at_least(low, #[trigger] bars@[j].low),
            forall|j: int| 0 <= j < i ==> at_least(#[trigger] bars@[j].low, low),
            0 <= high_at < i,
            bars@[high_at].high == high,
            forall|j: int| high_at < j < i ==> !at_least(#[trigger] bars@[j].high, high),
            forall|j: int| 0 <= j < i ==> at_least(high, #[trigger] bars@[j].high),
        decreases bars@.len() - i,
    {
        let bar = &bars[i];
        assert(bar_valid(bars@[i as int]));
        // The running lowest stays unless this one is strictly lower.
        if !at_least_as(&bar.low, &low) {
            proof {
                lemma_total(bar.low, low);
                assert forall|j: int| 0 <= j < i implies at_least(#[trigger] bars@[j].low, bar.low) by {
                    lemma_transitive(bars@[j].low, low, bar.low);
                }
                assert forall|j: int| 0 <= j < i as int implies !at_least(bar.low, #[trigger] bars@[j].low) by {
                    if at_least(bar.low, bars@[j].low) {
                        lemma_transitive(bar.low, bars@[j].low, low);
                    }
                }
                low_at = i as int;
            }
            low = bar.low;
        } else {
            proof {
                lemma_total(bar.low, low);
            }
        }
        // The running highest moves to this one when it is at least as high.
        if at_least_as(&bar.high, &high) {
            proof {
                assert forall|j: int| 0 <= j < i implies at_least(bar.high, #[trigger] bars@[j].high) by {
                    lemma_transitive(bar.high, high, bars@[j].high);
                }
                high_at = i as int;
            }
            high = bar.high;
        } else {
            proof {
                lemma_total(bar.high, high);
            }
        }
        i = i + 1;
    }
    Some((low, high))
}

/// A drawn chart, and whether any of his levels are actually on it.
///
/// **The count is the point.** A weekly level drawn two years ago sits far
/// off a 4-hour chart; the caller is told, and can say so instead of sending
/// something that looks broken.
pub struct Drawn {
    pub picture: PathBuf,

    /// How many of his bands fall inside the range of candles drawn.
    pub on_it: usize,

    /// How many the pair has altogether.
    pub altogether: usize,
}

/// How many bands the chart drawn from `shown` holds: those reaching into
/// the price the candles cover, and none when no candles were drawn.
pub open spec fn shown_on(bands: Seq<Band>, shown: Seq<Bar>, on_it: int) -> bool {
    if shown.len() == 0 {
        on_it == 0
    } else {
        exists|low: Price, high: Price|
            lowest(shown, low) && highest(shown, high) && on_it == count_reaching(
                bands,
                bands.len() as int,
                low,
                high,
            )
    }
}

impl Drawn {
    /// The chart `picture`, drawn from `shown`, with every band the pair has.
    pub fn of(picture: PathBuf, bands: &[Band], shown: &[Bar]) -> (d: Drawn)
        requires
            forall|i: int| 0 <= i < bands@.len() ==> (#[trigger] bands@[i]).valid(),
            forall|i: int| 0 <= i < shown@.len() ==> bar_valid(#[trigger] shown@[i]),
        ensures
            d.picture == picture,
            d.altogether == bands@.len(),
            shown_on(bands@, shown@, d.on_it as int),
    {
        // No candles came back: drawing refuses that, so this only has to be
        // honest rather than clever.
        let on_it = match covering(shown) {
            Some((low, high)) => on_the_chart(bands, low, high),
            None => 0,
        };
        Drawn { picture, on_it, altogether: bands.len() }
    }
}

} // verus!
