//! The economic calendar: when it is time to download the week again, and
//! what one warning about one release is remembered as.

use vstd::prelude::*;

use crate::moment::{Moment, SECOND};
use crate::memory::Same;
use crate::text::{chars_of, decimal, decimal_of, digits_of, text_of};

verus! {

/// The most whole hours a `chrono::TimeDelta` can hold.
pub const MOST_HOURS: i64 = 2_562_047_788_015;

/// What one warning about one release is remembered as: the release's key,
/// `@`, and the mark. **The mark is part of it**, so the heads-up five
/// minutes out does not silence the last call a minute out.
pub open spec fn told_as(key: Seq<char>, mark: int) -> Seq<char> {
    key + seq!['@'] + decimal(mark)
}

/// What one warning about one release is remembered as.
pub fn told(key: &str, mark: i64) -> (s: String)
    ensures
        s@ == told_as(key@, mark as int),
{
    let mut out = chars_of(key);
    out.push('@');
    let mut number = decimal_of(mark);
    out.append(&mut number);
    text_of(out.as_slice())
}

/// How many hours go between downloads: never fewer than one.
pub open spec fn refresh_of(refresh_hours: int) -> int {
    if refresh_hours < 1 { 1 } else { refresh_hours }
}

/// Is it time to ask for the calendar again? Always when it has never been
/// fetched, and otherwise once `refresh_hours` (at least one) have passed —
/// a number of hours `chrono::TimeDelta` can hold.
pub fn stale(fetched: Option<Moment>, now: Moment, refresh_hours: i64) -> (b: bool)
    requires
        fetched is Some ==> refresh_hours <= MOST_HOURS,
        now.fits(),
    ensures
        b == match fetched {
            None => true,
            Some(last) => now@ - last@ >= refresh_of(refresh_hours as int) * 3600 * SECOND,
        },
{
    match fetched {
        None => true,
        Some(last) => {
            let hours: i128 = if refresh_hours < 1 { 1 } else { refresh_hours as i128 };
            let wait = hours * 3600 * SECOND;
            // `last` is compared against `now - wait`, which cannot overflow.
            last.nanos <= now.nanos - wait
        },
    }
}

/// How soon a release is, in words: to the nearest hour (a half rounding
/// up) past an hour and a half, in minutes down to two, then a minute, right
/// now, or already out.
pub open spec fn how_soon(minutes: int) -> Seq<char> {
    if minutes > 90 {
        let hours = (minutes + 30) / 60;
        "in "@ + decimal(hours) + " hour"@ + if hours == 1 {
            Seq::<char>::empty()
        } else {
            seq!['s']
        }
    } else if minutes > 1 {
        "in "@ + decimal(minutes) + " minutes"@
    } else if minutes == 1 {
        "in a minute"@
    } else if minutes == 0 {
        "right now"@
    } else {
        "just printed"@
    }
}

/// The words under a news card about `count` releases due together, the
/// first of them `currency` `title`, `minutes` away, at `when`: **one
/// release is named, several are counted.** Nothing at all for none.
pub open spec fn news_said(
    currency: Seq<char>,
    title: Seq<char>,
    count: int,
    minutes: int,
    when: Seq<char>,
) -> Seq<char> {
    if count == 0 {
        Seq::empty()
    } else {
        let what = if count == 1 {
            currency + seq![' '] + title
        } else {
            currency + " \u{2014} "@ + decimal(count) + " releases"@
        };
        "<b>"@ + what + "</b> "@ + how_soon(minutes) + seq!['\n'] + when
    }
}

proof fn lemma_nearest_hour(minutes: int)
    requires
        minutes >= 0,
    ensures
        (minutes + 30) / 60 == minutes / 60 + if minutes % 60 >= 30 { 1int } else { 0int },
{
    assert((minutes + 30) / 60 == minutes / 60 + if minutes % 60 >= 30 { 1int } else { 0int })
        by (nonlinear_arith)
        requires
            minutes >= 0,
    ;
}

fn how_soon_of(minutes: i64) -> (v: Vec<char>)
    ensures
        v@ == how_soon(minutes as int),
{
    if minutes > 90 {
        let hours: i64 = minutes / 60 + if minutes % 60 >= 30 { 1 } else { 0 };
        proof {
            lemma_nearest_hour(minutes as int);
        }
        let mut out = chars_of("in ");
        let mut number = decimal_of(hours);
        let mut unit = chars_of(" hour");
        out.append(&mut number);
        out.append(&mut unit);
        if hours != 1 {
            out.push('s');
        }
        out
    } else if minutes > 1 {
        let mut out = chars_of("in ");
        let mut number = decimal_of(minutes);
        let mut unit = chars_of(" minutes");
        out.append(&mut number);
        out.append(&mut unit);
        out
    } else if minutes == 1 {
        chars_of("in a minute")
    } else if minutes == 0 {
        chars_of("right now")
    } else {
        chars_of("just printed")
    }
}

/// The words under a news card: what is due, how soon, and when.
pub fn news_words(currency: &str, title: &str, count: usize, minutes: i64, when: &str) -> (words:
    String)
    ensures
        words@ == news_said(currency@, title@, count as int, minutes as int, when@),
{
    if count == 0 {
        return String::new();
    }
    let mut what = chars_of(currency);
    if count == 1 {
        what.push(' ');
        let mut named = chars_of(title);
        what.append(&mut named);
    } else {
        let mut dash = chars_of(" \u{2014} ");
        let mut number = digits_of(count as u128);
        let mut rest = chars_of(" releases");
        what.append(&mut dash);
        what.append(&mut number);
        what.append(&mut rest);
    }
    let mut out = chars_of("<b>");
    let mut close = chars_of("</b> ");
    let mut soon = how_soon_of(minutes);
    let mut at = chars_of(when);
    out.append(&mut what);
    out.append(&mut close);
    out.append(&mut soon);
    out.push('\n');
    out.append(&mut at);
    text_of(out.as_slice())
}

/// Strictly falling: every mark is larger than each one after it.
pub open spec fn falling(s: Seq<i64>) -> bool {
    forall|i: int, j: int| 0 <= i < j < s.len() ==> s[i] > s[j]
}

/// The same marks, however often and in whatever order.
pub open spec fn same_marks(a: Seq<i64>, b: Seq<i64>) -> bool {
    forall|x: i64| a.contains(x) <==> b.contains(x)
}

/// Marks one after another, split by `" and "`.
pub open spec fn and_listed(s: Seq<i64>) -> Seq<char>
    decreases s.len(),
{
    if s.len() == 0 {
        Seq::empty()
    } else if s.len() == 1 {
        decimal(s[0] as int)
    } else {
        and_listed(s.drop_last()) + " and "@ + decimal(s.last() as int)
    }
}

/// How far ahead the calendar warns: **each mark once, furthest ahead
/// first**, however the settings list them.
pub fn ahead_of(marks: &[i64]) -> (ahead: Vec<i64>)
    ensures
        falling(ahead@),
        same_marks(ahead@, marks@),
{
    let mut ahead: Vec<i64> = Vec::new();
    let mut i: usize = 0;
    while i < marks.len()
        invariant
            0 <= i <= marks@.len(),
            falling(ahead@),
            same_marks(ahead@, marks@.take(i as int)),
        decreases marks@.len() - i,
    {
        let m = marks[i];
        let mut at: usize = 0;
        while at < ahead.len() && ahead[at] > m
            invariant
                0 <= at <= ahead@.len(),
                forall|k: int| 0 <= k < at ==> ahead@[k] > m,
            decreases ahead@.len() - at,
        {
            at = at + 1;
        }
        let ghost before = ahead@;
        assert(marks@.take(i + 1) == marks@.take(i as int).push(m));
        proof {
            lemma_push_contains(marks@.take(i as int), m);
        }
        if at < ahead.len() && ahead[at] == m {
            assert(before.contains(m) && before[at as int] == m);
            assert forall|x: i64| ahead@.contains(x) <==> marks@.take(i + 1).contains(x) by {
                assert(marks@.take(i + 1).contains(x) <==> (marks@.take(i as int).contains(x) || x == m));
                if marks@.take(i as int).contains(x) {
                    assert(before.contains(x));
                }
                if x == m {
                    assert(before[at as int] == x);
                }
                if ahead@.contains(x) {
                    let k = choose|k: int| 0 <= k < before.len() && before[k] == x;
                    assert(marks@.take(i as int).contains(x));
                }
            }
        } else {
            ahead.insert(at, m);
            assert forall|a: int, b: int| 0 <= a < b < ahead@.len() implies ahead@[a] > ahead@[b] by {
                if b < at {
                } else if a < at {
                    if b == at {
                    } else {
                        assert(ahead@[b] == before[b - 1]);
                        assert(before[at as int] <= m);
                        if at < b - 1 {
                            assert(before[at as int] > before[b - 1]);
                        }
                    }
                } else if a == at {
                    assert(ahead@[b] == before[b - 1]);
                    assert(before[at as int] < m);
                    if at < b - 1 {
                        assert(before[at as int] > before[b - 1]);
                    }
                } else {
                    assert(ahead@[a] == before[a - 1]);
                    assert(ahead@[b] == before[b - 1]);
                }
            }
            assert forall|x: i64| ahead@.contains(x) <==> marks@.take(i + 1).contains(x) by {
                assert(marks@.take(i + 1).contains(x) <==> (marks@.take(i as int).contains(x) || x == m));
                if ahead@.contains(x) {
                    let k = choose|k: int| 0 <= k < ahead@.len() && ahead@[k] == x;
                    if k < at {
                        assert(before[k] == x);
                    } else if k > at {
                        assert(before[k - 1] == x);
                    }
                }
                if before.contains(x) {
                    let k = choose|k: int| 0 <= k < before.len() && before[k] == x;
                    if k < at {
                        assert(ahead@[k] == x);
                    } else {
                        assert(ahead@[k + 1] == x);
                    }
                }
                if x == m {
                    assert(ahead@[at as int] == x);
                }
            }
        }
        i = i + 1;
    }
    assert(marks@.take(marks@.len() as int) == marks@);
    ahead
}

/// How far ahead the calendar warns, in words: **each mark once, furthest
/// ahead first**, split by `" and "`.
pub fn ahead_words(marks: &[i64]) -> (words: String)
    ensures
        exists|ahead: Seq<i64>|
            falling(ahead) && same_marks(ahead, marks@) && words@ == and_listed(ahead),
{
    let ahead = ahead_of(marks);
    let mut out: Vec<char> = Vec::new();
    let mut i: usize = 0;
    while i < ahead.len()
        invariant
            0 <= i <= ahead@.len(),
            out@ == and_listed(ahead@.take(i as int)),
        decreases ahead@.len() - i,
    {
        assert(ahead@.take(i + 1).drop_last() == ahead@.take(i as int));
        if i > 0 {
            let mut and = chars_of(" and ");
            out.append(&mut and);
        }
        let mut number = decimal_of(ahead[i]);
        out.append(&mut number);
        proof {
            if i == 0 {
                assert(out@ =~= decimal(ahead@.take(1)[0] as int));
            }
        }
        i = i + 1;
    }
    assert(ahead@.take(ahead@.len() as int) == ahead@);
    text_of(out.as_slice())
}

/// The text of each string.
pub open spec fn names(v: Seq<String>) -> Seq<Seq<char>> {
    v.map_values(|x: String| x@)
}

proof fn lemma_push_contains<A>(s: Seq<A>, x: A)
    ensures
        forall|k: A| #[trigger] s.push(x).contains(k) == (s.contains(k) || k == x),
{
    assert forall|k: A| #[trigger] s.push(x).contains(k) == (s.contains(k) || k == x) by {
        if s.push(x).contains(k) {
            let i = choose|i: int| 0 <= i < s.push(x).len() && s.push(x)[i] == k;
            if i < s.len() {
                assert(s[i] == k);
            }
        }
        if s.contains(k) {
            let i = choose|i: int| 0 <= i < s.len() && s[i] == k;
            assert(s.push(x)[i] == k);
        }
        if k == x {
            assert(s.push(x)[s.len() as int] == k);
        }
    }
}

/// What has already been said, as a set of keys from `told`.
///
/// **What stops him hearing the same release all afternoon.** The week is
/// downloaded every few hours and the same release is in every copy, so
/// "already said" has to survive a re-read.
pub struct Spoken {
    keys: Vec<String>,
}

impl Spoken {
    /// The keys held.
    pub closed spec fn keys(&self) -> Set<Seq<char>> {
        Set::new(|k: Seq<char>| names(self.keys@).contains(k))
    }

    pub fn new() -> (s: Spoken)
        ensures
            s.keys() == Set::<Seq<char>>::empty(),
    {
        let s = Spoken { keys: Vec::new() };
        assert(s.keys() =~= Set::<Seq<char>>::empty());
        s
    }

    /// Has this been said?
    pub fn contains(&self, key: &String) -> (b: bool)
        ensures
            b == self.keys().contains(key@),
    {
        let ghost all = names(self.keys@);
        let mut i: usize = 0;
        while i < self.keys.len()
            invariant
                0 <= i <= self.keys@.len(),
                all == names(self.keys@),
                forall|j: int| 0 <= j < i ==> all[j] != key@,
            decreases self.keys@.len() - i,
        {
            if self.keys[i].same(key) {
                assert(all[i as int] == key@);
                return true;
            }
            i = i + 1;
        }
        assert(!all.contains(key@));
        false
    }

    /// It has now been said. **Only once the card has gone.**
    pub fn add(&mut self, key: String)
        ensures
            final(self).keys() == old(self).keys().insert(key@),
    {
        if self.contains(&key) {
            assert(old(self).keys().insert(key@) =~= old(self).keys());
            return;
        }
        let ghost k = key@;
        self.keys.push(key);
        assert(names(self.keys@) =~= names(old(self).keys@).push(k));
        proof {
            lemma_push_contains(names(old(self).keys@), k);
        }
        assert(self.keys() =~= old(self).keys().insert(k));
    }

    /// After a card about `key`: **only a card that went is remembered as
    /// said**, so one that did not is tried again on the next look.
    pub fn after_card(&mut self, key: String, sent: bool)
        ensures
            sent ==> final(self).keys() == old(self).keys().insert(key@),
            !sent ==> final(self).keys() == old(self).keys(),
    {
        if sent {
            self.add(key);
        }
    }

    /// **Forget what was said about a week that is over**: keep only the
    /// keys still in `alive`, so this never grows for as long as the bot
    /// runs.
    pub fn keep_only(&mut self, alive: &Spoken)
        ensures
            final(self).keys() == old(self).keys().intersect(alive.keys()),
    {
        let ghost before = names(self.keys@);
        let mut kept: Vec<String> = Vec::new();
        let mut i: usize = 0;
        while i < self.keys.len()
            invariant
                0 <= i <= self.keys@.len(),
                before == names(self.keys@),
                forall|k: Seq<char>| #[trigger] names(kept@).contains(k) == (before.take(i as int).contains(k) && alive.keys().contains(k)),
            decreases self.keys@.len() - i,
        {
            let ghost so_far = names(kept@);
            assert(before.take(i + 1) =~= before.take(i as int).push(before[i as int]));
            assert(before[i as int] == self.keys@[i as int]@);
            proof {
                lemma_push_contains(before.take(i as int), before[i as int]);
                lemma_push_contains(so_far, before[i as int]);
            }
            let keep = alive.contains(&self.keys[i]);
            if keep {
                kept.push(self.keys[i].clone());
                assert(names(kept@) =~= so_far.push(before[i as int]));
            }
            assert forall|k: Seq<char>| #[trigger] names(kept@).contains(k) == (
            before.take(i + 1).contains(k) && alive.keys().contains(k)) by {
                assert(so_far.contains(k) == (before.take(i as int).contains(k) && alive.keys().contains(k)));
                assert(before.take(i + 1).contains(k) == (before.take(i as int).contains(k) || k == before[i as int]));
            }
            i = i + 1;
        }
        assert(before.take(before.len() as int) == before);
        assert forall|k: Seq<char>| #[trigger] names(kept@).contains(k) == (before.contains(k) && alive.keys().contains(k)) by {
            assert(names(kept@).contains(k) == (before.take(before.len() as int).contains(k) && alive.keys().contains(k)));
        }
        self.keys = kept;
        assert forall|k: Seq<char>| #[trigger] self.keys().contains(k) == (old(self).keys().contains(k) && alive.keys().contains(k)) by {
            assert(self.keys().contains(k) == names(self.keys@).contains(k));
            assert(old(self).keys().contains(k) == before.contains(k));
        }
        assert(self.keys() =~= old(self).keys().intersect(alive.keys()));
    }
}

} // verus!
