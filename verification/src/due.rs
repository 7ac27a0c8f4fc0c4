//! When a pair's next candle is worth asking about.
//!
//! Nothing tells the bot a candle closed. The feed hands back a candle
//! stamped with the moment it opened, which is the feed saying where its own
//! boundary is; the next one is due a candle's length later. That is reading,
//! not calculating, and the returned stamp still decides whether a candle has
//! finished.

use vstd::prelude::*;

use crate::candle::{opened_of, Bar};
use crate::moment::{span, span_of, Moment, MINUTE};

verus! {

/// The soonest two asks about the same pair and interval may be.
///
/// **A feed handing back a stale stamp must not become a tight loop.**
pub const FLOOR: i128 = MINUTE;

/// The moment to ask again, given when the newest candle opened.
///
/// This candle's close, then the next one's — the newest candle handed back
/// may already be finished — whichever is first later than a minute from
/// now; and a minute from now when neither is, or when nothing could be read.
pub open spec fn asking_again(opened: Option<int>, minutes: int, now: int) -> int {
    let floor = now + FLOOR;
    match opened {
        None => floor,
        Some(o) => match span_of(minutes) {
            None => floor,
            Some(s) => if o + s > floor {
                o + s
            } else if o + s + s > floor {
                o + s + s
            } else {
                floor
            },
        },
    }
}

/// When the newest of `bars` opened, if there is one and its stamp reads.
pub open spec fn newest_opened(bars: Seq<Bar>) -> Option<int> {
    if bars.len() == 0 {
        None
    } else {
        opened_of(bars[0].datetime@)
    }
}

/// The moment to ask again, given when the newest candle opened — `None`
/// when there was none, or its stamp would not read.
pub fn asking_again_after(opened: Option<Moment>, minutes: i64, now: Moment) -> (due: Moment)
    requires
        now.fits(),
        opened matches Some(o) ==> o.fits(),
    ensures
        due@ == asking_again(
            match opened {
                Some(o) => Some(o@),
                None => None,
            },
            minutes as int,
            now@,
        ),
        due@ >= now@ + FLOOR,
{
    let floor = Moment { nanos: now.nanos + FLOOR };

    let Some(opened) = opened else {
        return floor;
    };

    let Some(step) = span(minutes) else {
        return floor;
    };

    // This candle's close, then the next one's.
    let closes = opened.nanos + step;
    if closes > floor.nanos {
        return Moment { nanos: closes };
    }
    let next = closes + step;
    if next > floor.nanos {
        return Moment { nanos: next };
    }
    floor
}

/// When this pair and interval is next worth a request.
///
/// `bars` are newest first, as the feed hands them over. **One moment
/// matters: the point the candle finishes** — never sooner than a minute from
/// now.
pub fn worth_asking_again(bars: &[Bar], minutes: i64, now: Moment) -> (due: Moment)
    requires
        now.fits(),
    ensures
        due@ == asking_again(newest_opened(bars@), minutes as int, now@),
        due@ >= now@ + FLOOR,
{
    let opened = if bars.len() == 0 {
        None
    } else {
        bars[0].opened_at()
    };
    asking_again_after(opened, minutes, now)
}

/// When to ask again, given whether everything that had to be said was said.
///
/// **A close that would not send is the one thing worth hurrying back for**:
/// then a minute from now, and otherwise when the candle is due.
pub fn when_next(all_sent: bool, when_the_candle_is_due: Moment, now: Moment) -> (at: Moment)
    requires
        now.fits(),
    ensures
        at == if all_sent {
            when_the_candle_is_due
        } else {
            Moment { nanos: (now.nanos + FLOOR) as i128 }
        },
{
    if all_sent {
        return when_the_candle_is_due;
    }
    Moment { nanos: now.nanos + FLOOR }
}

} // verus!
