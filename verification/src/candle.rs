//! One candle, and when it opened.

use vstd::prelude::*;

use crate::moment::{span, span_of, Moment, SECOND};
use crate::price::Price;

verus! {

/// How the feed writes when a candle opened.
pub const STAMP: &'static str = "%Y-%m-%d %H:%M:%S";

/// The Unix second that `text` names when read with `chrono`'s
/// `NaiveDateTime::parse_from_str` in `format`, taken as UTC; `None` when it
/// does not read.
pub uninterp spec fn stamp_seconds(text: Seq<char>, format: Seq<char>) -> Option<i64>;

/// `NaiveDateTime::parse_from_str(text, format)`, as a Unix second in UTC.
#[verifier::external_body]
fn read_stamp(text: &str, format: &str) -> (r: Option<i64>)
    ensures
        r == stamp_seconds(text@, format@),
{
    chrono::NaiveDateTime::parse_from_str(text, format).ok().map(|at| at.and_utc().timestamp())
}

/// When a candle stamped `datetime` opened, in nanoseconds, if the stamp
/// reads.
pub open spec fn opened_of(datetime: Seq<char>) -> Option<int> {
    match stamp_seconds(datetime, STAMP@) {
        Some(s) => Some(s * SECOND),
        None => None,
    }
}

/// Whether the candle stamped `datetime`, `minutes` long, has run its full
/// length by `now`: `None` when the stamp does not read. A length the clock
/// cannot hold never counts as run.
pub open spec fn run_its_length(datetime: Seq<char>, now: int, minutes: int) -> Option<bool> {
    match opened_of(datetime) {
        None => None,
        Some(o) => match span_of(minutes) {
            Some(s) => Some(o + s <= now),
            None => Some(false),
        },
    }
}

/// One candle, stamped with the moment it opened, as the feed writes it.
#[derive(Clone, Debug)]
pub struct Bar {
    pub datetime: String,
    pub open: Price,
    pub high: Price,
    pub low: Price,
    pub close: Price,
}

impl Bar {
    /// The same candle, again.
    pub fn copied(&self) -> (b: Bar)
        ensures
            b == *self,
    {
        Bar {
            datetime: self.datetime.clone(),
            open: self.open,
            high: self.high,
            low: self.low,
            close: self.close,
        }
    }

    /// When it opened, or `None` when its stamp does not read.
    pub fn opened_at(&self) -> (r: Option<Moment>)
        ensures
            match r {
                Some(m) => opened_of(self.datetime@) == Some(m.nanos as int) && m.fits(),
                None => opened_of(self.datetime@) is None,
            },
    {
        match read_stamp(self.datetime.as_str(), STAMP) {
            Some(seconds) => Some(Moment::from_seconds(seconds)),
            None => None,
        }
    }

    /// Has it run its full length by `now`? `None` when its stamp does not
    /// read.
    pub fn finished_by(&self, now: Moment, minutes: i64) -> (r: Option<bool>)
        requires
            now.fits(),
        ensures
            r == run_its_length(self.datetime@, now@, minutes as int),
    {
        match self.opened_at() {
            None => None,
            Some(opened) => match span(minutes) {
                Some(length) => Some(opened.nanos + length <= now.nanos),
                None => Some(false),
            },
        }
    }
}

} // verus!
