//! The candles a setup is judged on and drawn from.
//!
//! The feed hands candles back **newest first**; a chart, and the rules that
//! read a shape, go **oldest first**. And a shape is judged only on what the
//! market had printed when its candle closed — nothing after it.

use vstd::prelude::*;

use crate::candle::Bar;
use crate::memory::Same;

verus! {

/// `bars` the other way round: oldest first when they came newest first.
pub open spec fn turned(bars: Seq<Bar>) -> Seq<Bar> {
    Seq::new(bars.len(), |i: int| bars[bars.len() - 1 - i])
}

/// The history a shape on the candle stamped `stamp` is judged on: oldest
/// first, **cut at that candle**, so nothing after it is read — `n` long, the
/// candle itself last.
pub open spec fn cut_at(bars: Seq<Bar>, stamp: Seq<char>, n: int) -> bool {
    &&& 1 <= n <= bars.len()
    &&& turned(bars)[n - 1].datetime@ == stamp
    &&& forall|j: int| 0 <= j < n - 1 ==> #[trigger] turned(bars)[j].datetime@ != stamp
}

/// **Oldest first, and cut at the candle being judged.** `bars` come newest
/// first, as the feed hands them over; the result ends with the first candle,
/// counting from the oldest, stamped `stamp`. `None` when no candle carries
/// that stamp.
pub fn history_up_to(bars: &[Bar], stamp: &str) -> (h: Option<Vec<Bar>>)
    ensures
        match h {
            Some(h) => cut_at(bars@, stamp@, h@.len() as int) && h@ == turned(bars@).take(
                h@.len() as int,
            ),
            None => forall|j: int|
                0 <= j < bars@.len() ==> #[trigger] turned(bars@)[j].datetime@ != stamp@,
        },
{
    let wanted = String::from_str(stamp);
    let mut history: Vec<Bar> = Vec::new();
    let mut i: usize = 0;
    while i < bars.len()
        invariant
            0 <= i <= bars@.len(),
            wanted@ == stamp@,
            history@ == turned(bars@).take(i as int),
            forall|j: int| 0 <= j < i ==> #[trigger] turned(bars@)[j].datetime@ != stamp@,
        decreases bars@.len() - i,
    {
        let bar = bars[bars.len() - 1 - i].copied();
        assert(bar == turned(bars@)[i as int]);
        let found = bar.datetime.same(&wanted);
        history.push(bar);
        assert(history@ =~= turned(bars@).take(i + 1));
        if found {
            return Some(history);
        }
        i = i + 1;
    }
    None
}

/// The last `many` of `history`, in the order given — all of it when it is
/// shorter.
pub open spec fn last_of(history: Seq<Bar>, many: int) -> Seq<Bar> {
    if many >= history.len() {
        history
    } else {
        history.skip(history.len() - many)
    }
}

/// **The last `many` candles, oldest first** — what a chart of `many`
/// candles shows, ending on the one just judged. A shape of three is drawn
/// with three; taking two would draw two thirds of a pattern and label it
/// whole.
pub fn last_few(history: &[Bar], many: usize) -> (shown: Vec<Bar>)
    ensures
        shown@ == last_of(history@, many as int),
{
    let from: usize = if many >= history.len() { 0 } else { history.len() - many };
    let mut shown: Vec<Bar> = Vec::new();
    let mut i: usize = from;
    while i < history.len()
        invariant
            from <= i <= history@.len(),
            from == if many >= history@.len() { 0 } else { history@.len() - many },
            shown@ == history@.subrange(from as int, i as int),
        decreases history@.len() - i,
    {
        let bar = history[i].copied();
        shown.push(bar);
        assert(shown@ =~= history@.subrange(from as int, i + 1));
        i = i + 1;
    }
    assert(history@.subrange(0, history@.len() as int) =~= history@);
    shown
}

} // verus!
