//! The timeframes his levels are drawn on, and the candles the feed serves.

use vstd::prelude::*;

verus! {

/// The chart a level was drawn on. It decides how thick the band is.
#[derive(Clone, Copy, Debug, PartialEq, Eq, Structural, Hash)]
pub enum Timeframe {
    Weekly,
    Daily,
    H4,
}

/// A candle length the feed serves.
#[derive(Clone, Copy, Debug, PartialEq, Eq, Structural, Hash)]
pub enum Interval {
    Min5,
    Min15,
    Min30,
    H1,
    H4,
    Day,
    Week,
}

impl View for Interval {
    type V = Interval;

    open spec fn view(&self) -> Interval {
        *self
    }
}

/// How many minutes a candle of this length runs.
pub open spec fn minutes_of(interval: Interval) -> int {
    match interval {
        Interval::Min5 => 5,
        Interval::Min15 => 15,
        Interval::Min30 => 30,
        Interval::H1 => 60,
        Interval::H4 => 240,
        Interval::Day => 1440,
        Interval::Week => 10080,
    }
}

impl Interval {
    /// How many minutes a candle of this length runs.
    pub fn minutes(&self) -> (m: i64)
        ensures
            m == minutes_of(*self),
    {
        match self {
            Interval::Min5 => 5,
            Interval::Min15 => 15,
            Interval::Min30 => 30,
            Interval::H1 => 60,
            Interval::H4 => 240,
            Interval::Day => 1440,
            Interval::Week => 10080,
        }
    }
}

/// Which candles each of his charts is drawn from.
pub open spec fn drawn_from(chart: Timeframe) -> Interval {
    match chart {
        Timeframe::Weekly => Interval::Week,
        Timeframe::Daily => Interval::Day,
        Timeframe::H4 => Interval::H4,
    }
}

/// Which candles each of his charts is drawn from.
pub fn interval(chart: Timeframe) -> (i: Interval)
    ensures
        i == drawn_from(chart),
{
    match chart {
        Timeframe::Weekly => Interval::Week,
        Timeframe::Daily => Interval::Day,
        Timeframe::H4 => Interval::H4,
    }
}

} // verus!
