//! Rung 2 — what a candle did at a zone, once it has finished: which candles
//! have finished, what has already been said about them, and when each pair
//! is next worth asking about.

use vstd::prelude::*;

use crate::candle::{opened_of, run_its_length, Bar};
use crate::due::FLOOR;
use crate::frames::{minutes_of, Interval};
use crate::memory::{Keyed, Same};
use crate::moment::{Moment, MINUTE, SECOND};
use crate::price::{price_text, written};
use crate::review::Band;

verus! {

/// The longest the watcher goes without waking: ten minutes.
///
/// **This is housekeeping, not the candle check.** When a candle is due
/// sooner, the wake is pulled forward to meet it.
pub const LOOK_EVERY: i128 = 600 * SECOND;

/// Whether the candle `at` places from the newest (the list is newest first)
/// has finished by `now`.
///
/// **A later candle is the proof**: anything after the newest has a candle
/// that opened after it, and the feed does not open a candle until the one
/// before it is done. Only the newest has nothing after it, and there the
/// clock is all there is. A stamp that will not read is never finished.
pub open spec fn finished_at(bar: Bar, at: int, now: int, minutes: int) -> bool {
    &&& opened_of(bar.datetime@) is Some
    &&& (at > 0 || run_its_length(bar.datetime@, now, minutes) == Some(true))
}

/// The finished ones among the first `n` of `bars`, in the order given.
pub open spec fn finished_among(bars: Seq<Bar>, n: int, now: int, minutes: int) -> Seq<Bar>
    decreases n,
{
    if n <= 0 {
        Seq::empty()
    } else {
        let before = finished_among(bars, n - 1, now, minutes);
        if finished_at(bars[n - 1], n - 1, now, minutes) {
            before.push(bars[n - 1])
        } else {
            before
        }
    }
}

/// Has this candle finished? `at` is where it sits in a list newest first.
pub fn has_finished(bar: &Bar, at: usize, now: Moment, minutes: i64) -> (b: bool)
    requires
        now.fits(),
    ensures
        b == finished_at(*bar, at as int, now@, minutes as int),
{
    // A stamp that will not read is not a candle. Never guessed at.
    if bar.opened_at().is_none() {
        return false;
    }
    if at > 0 {
        return true;
    }
    match bar.finished_by(now, minutes) {
        Some(done) => done,
        None => false,
    }
}

/// The candles that have **finished**, and only those, in the order given.
///
/// **A candle still forming is not a candle yet.** The feed's reply carries
/// both the candle that has just closed and the one still running; this is
/// the line between them.
pub fn finished_only(bars: &[Bar], now: Moment, minutes: i64) -> (done: Vec<Bar>)
    requires
        now.fits(),
    ensures
        done@ == finished_among(bars@, bars@.len() as int, now@, minutes as int),
{
    let mut done: Vec<Bar> = Vec::new();
    let mut i: usize = 0;
    while i < bars.len()
        invariant
            0 <= i <= bars@.len(),
            now.fits(),
            done@ == finished_among(bars@, i as int, now@, minutes as int),
        decreases bars@.len() - i,
    {
        if has_finished(&bars[i], i, now, minutes) {
            done.push(bars[i].copied());
        }
        i = i + 1;
    }
    done
}

/// Where the first finished candle sits — with the list newest first, the
/// one that has just finished.
pub fn first_finished(bars: &[Bar], now: Moment, minutes: i64) -> (at: Option<usize>)
    requires
        now.fits(),
    ensures
        match at {
            Some(i) => i < bars@.len() && finished_at(bars@[i as int], i as int, now@, minutes as int)
                && forall|j: int| 0 <= j < i ==> !finished_at(#[trigger] bars@[j], j, now@, minutes as int),
            None => forall|j: int| 0 <= j < bars@.len() ==> !finished_at(#[trigger] bars@[j], j, now@, minutes as int),
        },
{
    let mut i: usize = 0;
    while i < bars.len()
        invariant
            0 <= i <= bars@.len(),
            now.fits(),
            forall|j: int| 0 <= j < i ==> !finished_at(#[trigger] bars@[j], j, now@, minutes as int),
        decreases bars@.len() - i,
    {
        if has_finished(&bars[i], i, now, minutes) {
            return Some(i);
        }
        i = i + 1;
    }
    None
}

/// **When the bot could first KNOW about this candle** — the moment it
/// closed: when it opened, plus the timeframe. The same number whoever works
/// it out, and never the moment a poll happened to run.
pub fn when_it_closed(opened_at: Moment, interval: Interval) -> (at: Moment)
    requires
        opened_at.fits(),
    ensures
        at@ == opened_at@ + minutes_of(interval) * MINUTE,
        at@ > opened_at@,
{
    Moment { nanos: opened_at.nanos + interval.minutes() as i128 * MINUTE }
}

/// Which of the things was said about a candle.
#[derive(Clone, Copy, Debug, PartialEq, Eq, Structural, Hash)]
pub enum Kind {
    /// Finished, and it closed outside the band.
    Closed,
    /// **Rung 3 — a shape he trades, at one of his zones.** Kept apart from
    /// `Closed`: the same candle can be worth both messages.
    Setup,
}

/// What one report was about: a pair's zone, on one interval, in one way.
///
/// **The zone is in the key, not just the candle**, so a second zone coming
/// live in the middle of an hour still gets that hour's close.
#[derive(Clone, Debug)]
pub struct Said {
    pub symbol: String,
    pub interval: Interval,
    pub kind: Kind,
    /// The zone it was about, as written.
    pub band: String,
}

impl View for Said {
    type V = (Seq<char>, Interval, Kind, Seq<char>);

    open spec fn view(&self) -> (Seq<char>, Interval, Kind, Seq<char>) {
        (self.symbol@, self.interval, self.kind, self.band@)
    }
}

impl Said {
    /// What a report about `band` is remembered by: the pair, the interval,
    /// the kind, and the zone's price as written.
    pub fn about(symbol: &str, interval: Interval, kind: Kind, band: &Band) -> (key: Said)
        requires
            band.price.valid(),
        ensures
            key@ == (symbol@, interval, kind, written(band.price)),
    {
        Said { symbol: String::from_str(symbol), interval, kind, band: price_text(&band.price) }
    }
}

impl Same for Said {
    fn same(&self, other: &Said) -> (b: bool) {
        self.symbol.same(&other.symbol) && self.interval == other.interval && self.kind
            == other.kind && self.band.same(&other.band)
    }
}

/// One pair on one interval: what a request is about.
#[derive(Clone, Debug)]
pub struct WaitingOn {
    pub symbol: String,
    pub interval: Interval,
}

impl View for WaitingOn {
    type V = (Seq<char>, Interval);

    open spec fn view(&self) -> (Seq<char>, Interval) {
        (self.symbol@, self.interval)
    }
}

impl Same for WaitingOn {
    fn same(&self, other: &WaitingOn) -> (b: bool) {
        self.symbol.same(&other.symbol) && self.interval == other.interval
    }
}

/// What the candle check remembers between looks.
pub struct Closes {
    /// The last candle already reported, per pair, interval, kind and zone —
    /// by the feed's own stamp, so nothing is reported twice.
    pub told: Keyed<Said, String>,

    /// When each pair and interval is next worth a request.
    pub due: Keyed<WaitingOn, Moment>,

    /// When the watcher next wakes.
    pub next: Moment,
}

impl Closes {
    /// Nothing told and nothing due. The first wake is a full ten minutes
    /// off: the bands were just sized, and the rate limit does not care that
    /// these are different requests.
    pub fn new(now: Moment) -> (c: Closes)
        requires
            now.fits(),
        ensures
            c.told@ == Map::<(Seq<char>, Interval, Kind, Seq<char>), Seq<char>>::empty(),
            c.due@ == Map::<(Seq<char>, Interval), int>::empty(),
            c.next@ == now@ + LOOK_EVERY,
    {
        Closes { told: Keyed::new(), due: Keyed::new(), next: Moment { nanos: now.nanos + LOOK_EVERY } }
    }

    /// Push the next wake out to ten minutes from `now`.
    ///
    /// **Called the moment the timer fires, before anything decides to skip
    /// the check**, so a day that skips it never leaves the deadline in the
    /// past.
    pub fn tick(&mut self, now: Moment)
        requires
            now.fits(),
        ensures
            final(self).next@ == now@ + LOOK_EVERY,
            final(self).told@ == old(self).told@,
            final(self).due@ == old(self).due@,
    {
        self.next = Moment { nanos: now.nanos + LOOK_EVERY };
    }

    /// Pulls the next wake forward to meet a candle due at `at`.
    ///
    /// **Never later than it already was, and never sooner than now** — a
    /// moment already past would spin the loop, so it is ignored.
    pub fn wake_by(&mut self, at: Moment, now: Moment)
        ensures
            final(self).next == if at.nanos < now.nanos || old(self).next.nanos <= at.nanos {
                old(self).next
            } else {
                at
            },
            final(self).told@ == old(self).told@,
            final(self).due@ == old(self).due@,
    {
        if at.nanos < now.nanos {
            return;
        }
        if at.nanos < self.next.nanos {
            self.next = at;
        }
    }

    /// **Nothing can have changed yet**: the feed already said when this
    /// pair's next candle is due, and it is not `now` yet. Then the next wake
    /// is pulled forward to meet it, and the answer is true.
    pub fn not_yet(&mut self, on: &WaitingOn, now: Moment) -> (wait: bool)
        ensures
            wait == (old(self).due@.contains_key(on@) && now@ < old(self).due@[on@]),
            wait ==> final(self).next == if old(self).next@ <= old(self).due@[on@] {
                old(self).next
            } else {
                Moment { nanos: old(self).due@[on@] as i128 }
            },
            !wait ==> final(self).next == old(self).next,
            final(self).told@ == old(self).told@,
            final(self).due@ == old(self).due@,
    {
        let due = match self.due.get(on) {
            Some(due) => *due,
            None => {
                return false;
            },
        };
        if now.nanos < due.nanos {
            self.wake_by(due, now);
            return true;
        }
        false
    }

    /// Have we already spoken about this candle, in this way?
    ///
    /// **It only asks.** Marking before the card has gone would lose a close
    /// for good on a hiccup reaching Telegram.
    pub fn already_said(&self, key: &Said, stamp: &str) -> (b: bool)
        ensures
            b == (self.told@.contains_key(key@) && self.told@[key@] == stamp@),
    {
        match self.told.get(key) {
            Some(told) => {
                let stamp = String::from_str(stamp);
                told.same(&stamp)
            },
            None => false,
        }
    }

    /// Whether one zone is owed a card about the finished candle stamped
    /// `stamp`. **Each zone is decided on its own**: not when that candle was
    /// already said about in this way; not when what it did is not worth
    /// saying; and, where only breaks are reported, **not when it settled
    /// inside the zone** — he had an alert when price arrived, and a candle
    /// closing there too is the same news twice. `worth_saying` and
    /// `left_the_band` are what the candle did at the band.
    pub fn owes_a_card(
        &self,
        key: &Said,
        stamp: &str,
        worth_saying: bool,
        only_breaks: bool,
        left_the_band: bool,
    ) -> (owed: bool)
        ensures
            owed == (!(self.told@.contains_key(key@) && self.told@[key@] == stamp@) && worth_saying
                && (!only_breaks || left_the_band)),
    {
        if self.already_said(key, stamp) {
            return false;
        }
        if !worth_saying {
            return false;
        }
        if only_breaks && !left_the_band {
            return false;
        }
        true
    }

    /// Remembers that the candle stamped `stamp` was spoken about, in this
    /// way. **Only once the card has actually gone.**
    pub fn remember(&mut self, key: Said, stamp: String)
        ensures
            final(self).told@ == old(self).told@.insert(key@, stamp@),
            final(self).due@ == old(self).due@,
            final(self).next == old(self).next,
    {
        self.told.insert(key, stamp);
    }

    /// After a card about the candle stamped `stamp`: **remembered only
    /// when it was sent.** A card that did not go is not marked as told, so
    /// the next look tries it again.
    pub fn after_sending(&mut self, key: Said, stamp: String, sent: bool)
        ensures
            sent ==> final(self).told@ == old(self).told@.insert(key@, stamp@),
            !sent ==> final(self).told@ == old(self).told@,
            final(self).due@ == old(self).due@,
            final(self).next == old(self).next,
    {
        if sent {
            self.remember(key, stamp);
        }
    }

    /// After a look at one pair and interval: when to ask again, given
    /// whether everything that had to be said went.
    ///
    /// **Set after the cards have gone, not before**: a card that would not
    /// send brings the next look to a minute from now rather than waiting
    /// for the next candle; otherwise it waits for `candle_due`.
    pub fn settle(&mut self, on: WaitingOn, candle_due: Moment, all_sent: bool, now: Moment)
        requires
            now.fits(),
        ensures
            ({
                let again = if all_sent { candle_due@ } else { now@ + FLOOR };
                &&& final(self).due@ == old(self).due@.insert(on@, again)
                &&& final(self).next == if again < now@ || old(self).next@ <= again {
                    old(self).next
                } else {
                    Moment { nanos: again as i128 }
                }
            }),
            final(self).told@ == old(self).told@,
    {
        let again = crate::due::when_next(all_sent, candle_due, now);
        self.due.insert(on, again);
        self.wake_by(again, now);
    }
}

} // verus!
