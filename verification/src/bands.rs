//! Sizing a pair's bands: which timeframes are worth a request.

use vstd::prelude::*;

use crate::frames::{Interval, Timeframe};

verus! {

/// Which chart each of his timeframes is read off, in the order they are
/// sized.
pub open spec fn size_off() -> Seq<(Timeframe, Interval)> {
    seq![
        (Timeframe::Weekly, Interval::Week),
        (Timeframe::Daily, Interval::Day),
        (Timeframe::H4, Interval::H4),
    ]
}

/// The timeframes, in sizing order, that he has drawn on.
pub open spec fn worth_sizing(drawn_on: Seq<Timeframe>) -> Seq<(Timeframe, Interval)> {
    size_off().filter(|pick: (Timeframe, Interval)| drawn_on.contains(pick.0))
}

fn drawn(drawn_on: &[Timeframe], timeframe: Timeframe) -> (b: bool)
    ensures
        b == drawn_on@.contains(timeframe),
{
    let mut i: usize = 0;
    while i < drawn_on.len()
        invariant
            0 <= i <= drawn_on@.len(),
            forall|j: int| 0 <= j < i ==> drawn_on@[j] != timeframe,
        decreases drawn_on@.len() - i,
    {
        if drawn_on[i] == timeframe {
            return true;
        }
        i = i + 1;
    }
    false
}

/// Which timeframes to fetch candles for, given the timeframes of his
/// levels.
///
/// **Only a timeframe he has actually drawn on.** Most pairs have weekly
/// levels and nothing else, and a request for a timeframe with no levels on
/// it is a request spent on nothing.
pub fn to_size(drawn_on: &[Timeframe]) -> (picks: Vec<(Timeframe, Interval)>)
    ensures
        picks@ == worth_sizing(drawn_on@),
{
    let mut picks: Vec<(Timeframe, Interval)> = Vec::new();
    let weekly = drawn(drawn_on, Timeframe::Weekly);
    let daily = drawn(drawn_on, Timeframe::Daily);
    let hours = drawn(drawn_on, Timeframe::H4);
    if weekly {
        picks.push((Timeframe::Weekly, Interval::Week));
    }
    if daily {
        picks.push((Timeframe::Daily, Interval::Day));
    }
    if hours {
        picks.push((Timeframe::H4, Interval::H4));
    }
    proof {
        let s = size_off();
        let f = |pick: (Timeframe, Interval)| drawn_on@.contains(pick.0);
        reveal_with_fuel(Seq::filter, 4);
        assert(s.drop_last().drop_last().drop_last() =~= Seq::<(Timeframe, Interval)>::empty());
        assert(s.drop_last().drop_last() =~= seq![(Timeframe::Weekly, Interval::Week)]);
        assert(s.drop_last() =~= seq![(Timeframe::Weekly, Interval::Week), (Timeframe::Daily, Interval::Day)]);
        assert(picks@ =~= s.filter(f));
    }
    picks
}

} // verus!
