//! What holds of the library as a whole, across calls and for every input.

use vstd::prelude::*;

use crate::candle::{opened_of, Bar};
use crate::closes::{finished_at, Kind};
use crate::due::{asking_again, FLOOR};
use crate::bands::{size_off, worth_sizing};
use crate::files::newest_of;
use crate::frames::{drawn_from, Interval, Timeframe};
use crate::line::comma_listed;
use crate::trouble::{answer_of, Answer, Pause, SendError};
use crate::version::{fnv, hex12, hex_digit, mixed, pow16, short_of, KEPT, PRIME};
use crate::history::{cut_at, last_of, turned};
use crate::moment::span_of;
use crate::memory::map_of;
use crate::refusals::{in_order, lemma_count_is_pairs, lemma_in_order_is_distinct, lemma_sorted_is_determined, listed, refused_by, symbols};
use crate::secrets::name_part;
use crate::text::{index_of, lemma_index_of, trim, trim_end, trim_start};

verus! {

/// **Remembering one report silences exactly that report**: the same zone,
/// in the same way, about the same candle. A second zone on the same candle
/// is still owed its report, the next candle at the same zone reports again,
/// and a setup does not silence the close on the same candle.
pub proof fn a_report_silences_only_itself(
    told: Map<(Seq<char>, Interval, Kind, Seq<char>), Seq<char>>,
    key: (Seq<char>, Interval, Kind, Seq<char>),
    stamp: Seq<char>,
    other: (Seq<char>, Interval, Kind, Seq<char>),
    other_stamp: Seq<char>,
)
    ensures
        ({
            let after = told.insert(key, stamp);
            (after.contains_key(other) && after[other] == other_stamp) == if other == key {
                other_stamp == stamp
            } else {
                told.contains_key(other) && told[other] == other_stamp
            }
        }),
{
}

/// **A later candle is the proof.** Any candle with one after it in the
/// reply has finished, whatever the clock says — as long as its stamp reads.
pub proof fn a_later_candle_is_the_proof(bar: Bar, at: int, now: int, minutes: int)
    requires
        at > 0,
        opened_of(bar.datetime@) is Some,
    ensures
        finished_at(bar, at, now, minutes),
{
}

/// **The newest has only the clock**, and it is never early: it counts as
/// finished only once its full length has run.
pub proof fn the_newest_is_never_early(bar: Bar, now: int, minutes: int)
    requires
        finished_at(bar, 0, now, minutes),
    ensures
        span_of(minutes) is Some,
        opened_of(bar.datetime@).unwrap() + span_of(minutes).unwrap() <= now,
{
}

/// **A stamp that will not read is never a finished candle**, wherever it
/// sits.
pub proof fn an_unreadable_stamp_is_never_finished(bar: Bar, at: int, now: int, minutes: int)
    requires
        opened_of(bar.datetime@) is None,
    ensures
        !finished_at(bar, at, now, minutes),
{
}

/// **A stale stamp must not become a tight loop**: whatever the feed handed
/// back, the next ask is at least a minute away.
pub proof fn never_sooner_than_a_minute(opened: Option<int>, minutes: int, now: int)
    ensures
        asking_again(opened, minutes, now) >= now + FLOOR,
{
}

/// `trim_end` keeps a front part of what it trims.
pub proof fn lemma_trim_end_is_front(s: Seq<char>)
    ensures
        trim_end(s).len() <= s.len(),
        trim_end(s) == s.take(trim_end(s).len() as int),
    decreases s.len(),
{
    if s.len() > 0 && crate::text::is_space(s.last()) {
        lemma_trim_end_is_front(s.drop_last());
        assert(s.drop_last().take(trim_end(s).len() as int) == s.take(trim_end(s).len() as int));
    } else {
        assert(s.take(s.len() as int) == s);
    }
}

/// `trim_start` keeps a back part of what it trims.
pub proof fn lemma_trim_start_is_back(s: Seq<char>)
    ensures
        trim_start(s).len() <= s.len(),
        trim_start(s) == s.skip(s.len() - trim_start(s).len()),
    decreases s.len(),
{
    if s.len() > 0 && crate::text::is_space(s[0]) {
        lemma_trim_start_is_back(s.drop_first());
        assert(s.drop_first().skip(s.drop_first().len() - trim_start(s).len()) == s.skip(
            s.len() - trim_start(s).len(),
        ));
    } else {
        assert(s.skip(0) == s);
    }
}

/// **The value never comes back** from reading a bad `.env` line: the name
/// is what comes before the line's first `=`, so it holds no `=` at all, and
/// the value is everything after one.
pub proof fn the_name_never_holds_the_value(line: Seq<char>)
    requires
        line.contains('='),
    ensures
        !trim(name_part(line)).contains('='),
{
    lemma_index_of(line, '=');
    let i = index_of(line, '=').unwrap();
    let before = line.take(i);
    assert(forall|j: int| 0 <= j < before.len() ==> before[j] != '=');
    lemma_trim_end_is_front(before);
    let ended = trim_end(before);
    lemma_trim_start_is_back(ended);
    let name = trim_start(ended);
    assert forall|j: int| 0 <= j < name.len() implies name[j] != '=' by {
        let k = ended.len() - name.len() + j;
        assert(name[j] == ended[k]);
        assert(ended[k] == before[k]);
    }
}

/// **A setup's chart ends on the candle its shape was judged on**: drawn
/// from the history cut at that candle, the last `many` candles shown — at
/// least one — end on the candle carrying its stamp, never more than `many`,
/// each one printed no later than it.
pub proof fn the_chart_ends_on_the_judged_candle(bars: Seq<Bar>, stamp: Seq<char>, n: int, many: int)
    requires
        cut_at(bars, stamp, n),
        many >= 1,
    ensures
        ({
            let history = turned(bars).take(n);
            let shown = last_of(history, many);
            &&& 1 <= shown.len() <= many
            &&& shown.last() == history.last()
            &&& shown.last().datetime@ == stamp
            &&& forall|k: int| 0 <= k < shown.len() ==> #[trigger] shown[k] == turned(bars)[n - shown.len() + k]
        }),
{
    let history = turned(bars).take(n);
    let shown = last_of(history, many);
    assert(history.last() == turned(bars)[n - 1]);
    if many < n {
        assert(shown.last() == history[n - 1]);
    }
}

/// **A pair refused again, for any reason, is still one pair**: after any
/// line of refusals, the pairs held are exactly the symbols that refused,
/// each with the reason it gave last.
pub proof fn a_pair_refused_again_counts_once(calls: Seq<(Seq<char>, Seq<char>)>)
    ensures
        refused_by(calls).dom() == symbols(calls).to_set(),
        refused_by(calls).dom().finite(),
        forall|k: Seq<char>| #[trigger] refused_by(calls).dom().contains(k) ==> exists|j: int|
            0 <= j < calls.len() && calls[j].0 == k && refused_by(calls)[k] == calls[j].1
                && forall|l: int| j < l < calls.len() ==> calls[l].0 != k,
    decreases calls.len(),
{
    if calls.len() > 0 {
        let before = calls.drop_last();
        a_pair_refused_again_counts_once(before);
        let last = calls.last();
        assert forall|k: Seq<char>| refused_by(calls).dom().contains(k) == symbols(calls).to_set().contains(k) by {
            if symbols(before).contains(k) {
                let j = choose|j: int| 0 <= j < symbols(before).len() && symbols(before)[j] == k;
                assert(symbols(calls)[j] == k);
            }
            if symbols(calls).contains(k) {
                let j = choose|j: int| 0 <= j < symbols(calls).len() && symbols(calls)[j] == k;
                if j < before.len() {
                    assert(symbols(before)[j] == k);
                }
            }
            if k == last.0 {
                assert(symbols(calls)[calls.len() - 1] == k);
            }
        }
        assert(refused_by(calls).dom() =~= symbols(calls).to_set());
        assert forall|k: Seq<char>| #[trigger] refused_by(calls).dom().contains(k) implies exists|j: int|
            0 <= j < calls.len() && calls[j].0 == k && refused_by(calls)[k] == calls[j].1
                && forall|l: int| j < l < calls.len() ==> calls[l].0 != k by {
            if k == last.0 {
                assert(calls[calls.len() - 1].0 == k);
            } else {
                assert(refused_by(before).dom().contains(k));
                let j = choose|j: int|
                    0 <= j < before.len() && before[j].0 == k && refused_by(before)[k] == before[j].1
                        && forall|l: int| j < l < before.len() ==> before[l].0 != k;
                assert(calls[j] == before[j]);
                assert forall|l: int| j < l < calls.len() implies calls[l].0 != k by {
                    if l < before.len() {
                        assert(calls[l] == before[l]);
                    }
                }
            }
        }
    } else {
        assert(refused_by(calls).dom() =~= symbols(calls).to_set());
    }
}

/// **Everything means every pair, not every refusal**: once the refusals
/// held are those a line of calls left, the answer "that is all of them" is
/// that some pairs were asked for and at least that many different symbols
/// have refused. Nought asked is never everything.
pub proof fn everything_means_every_pair(asked: nat, said: Seq<(Seq<char>, Seq<char>)>, calls: Seq<(Seq<char>, Seq<char>)>)
    requires
        in_order(said),
        map_of(said) == refused_by(calls),
    ensures
        (asked > 0 && map_of(said).dom().len() >= asked) == (asked > 0 && symbols(calls).to_set().len() >= asked),
        map_of(said).dom().len() == said.len(),
{
    a_pair_refused_again_counts_once(calls);
    lemma_in_order_is_distinct(said);
    lemma_count_is_pairs(said);
}

/// **The message does not shuffle**: held in symbol order, two sets of
/// refusals that are the same — whatever order they came in — are said in
/// the same words.
pub proof fn the_order_of_refusals_does_not_matter(a: Seq<(Seq<char>, Seq<char>)>, b: Seq<(Seq<char>, Seq<char>)>)
    requires
        in_order(a),
        in_order(b),
        map_of(a) == map_of(b),
    ensures
        a == b,
        listed(a) == listed(b),
{
    lemma_sorted_is_determined(a, b);
}

/// Where a timeframe sits in the order bands are sized: weekly, daily, 4-hour.
pub open spec fn sizing_rank(t: Timeframe) -> int {
    match t {
        Timeframe::Weekly => 0,
        Timeframe::Daily => 1,
        Timeframe::H4 => 2,
    }
}

/// **Every band is sized off its own chart**: of the timeframes he drew on,
/// and only those, each once and weekly before daily before 4-hour, a weekly
/// level is sized off weekly candles, a daily one off daily candles, and a
/// 4-hour one off 4-hour candles — the same candles its chart is drawn from.
pub proof fn every_band_is_sized_off_its_own_chart(drawn_on: Seq<Timeframe>)
    ensures
        ({
            let picks = worth_sizing(drawn_on);
            &&& forall|k: int| 0 <= k < picks.len() ==> (#[trigger] picks[k]).1 == match picks[k].0 {
                Timeframe::Weekly => Interval::Week,
                Timeframe::Daily => Interval::Day,
                Timeframe::H4 => Interval::H4,
            }
            &&& forall|k: int| 0 <= k < picks.len() ==> (#[trigger] picks[k]).1 == drawn_from(picks[k].0)
            &&& forall|t: Timeframe| (exists|k: int| 0 <= k < picks.len() && (#[trigger] picks[k]).0 == t)
                <==> drawn_on.contains(t)
            &&& forall|i: int, j: int| 0 <= i < j < picks.len() ==> sizing_rank(picks[i].0) < sizing_rank(
                picks[j].0,
            )
        }),
{
    let s = size_off();
    let f = |pick: (Timeframe, Interval)| drawn_on.contains(pick.0);
    let w = drawn_on.contains(Timeframe::Weekly);
    let d = drawn_on.contains(Timeframe::Daily);
    let h = drawn_on.contains(Timeframe::H4);
    let wk = (Timeframe::Weekly, Interval::Week);
    let dy = (Timeframe::Daily, Interval::Day);
    let hr = (Timeframe::H4, Interval::H4);
    reveal_with_fuel(Seq::filter, 4);
    assert(s.drop_last().drop_last().drop_last() =~= Seq::<(Timeframe, Interval)>::empty());
    assert(s.drop_last().drop_last() =~= seq![wk]);
    assert(s.drop_last() =~= seq![wk, dy]);
    let expected = (if w { seq![wk] } else { Seq::empty() }) + (if d { seq![dy] } else { Seq::empty() }) + (
    if h { seq![hr] } else { Seq::empty() });
    assert(s.filter(f) =~= expected);
    let picks = worth_sizing(drawn_on);
    assert(picks == expected);
    assert forall|t: Timeframe| (exists|k: int| 0 <= k < picks.len() && (#[trigger] picks[k]).0 == t)
        <==> drawn_on.contains(t) by {
        if drawn_on.contains(t) {
            match t {
                Timeframe::Weekly => {
                    assert(picks[0].0 == t);
                },
                Timeframe::Daily => {
                    let k: int = if w { 1 } else { 0 };
                    assert(picks[k].0 == t);
                },
                Timeframe::H4 => {
                    let k: int = (if w { 1int } else { 0int }) + (if d { 1int } else { 0int });
                    assert(picks[k].0 == t);
                },
            }
        }
    }
}

/// **The newest touch is the latest of them**: when any file's time could
/// be read, the newest is one of those times and no readable time is later;
/// it is `None` only when no time could be read.
pub proof fn the_newest_touch_is_the_latest(touched: Seq<Option<i128>>)
    ensures
        newest_of(touched) is None <==> forall|i: int| 0 <= i < touched.len() ==> #[trigger] touched[i] is None,
        newest_of(touched) matches Some(m) ==> (exists|i: int| 0 <= i < touched.len() && #[trigger] touched[i]
            == Some(m)),
        newest_of(touched) matches Some(m) ==> forall|i: int|
            0 <= i < touched.len() && (#[trigger] touched[i]) is Some ==> touched[i]->0 <= m,
    decreases touched.len(),
{
    if touched.len() > 0 {
        let before = touched.drop_last();
        the_newest_touch_is_the_latest(before);
        assert forall|i: int| 0 <= i < before.len() implies before[i] == touched[i] by {}
        let last = touched.last();
        assert(touched[touched.len() - 1] == last);
        match newest_of(before) {
            Some(m) => {
                let i = choose|i: int| 0 <= i < before.len() && before[i] == Some(m);
                assert(touched[i] == Some(m));
            },
            None => {},
        }
    }
}

/// **A file touched later than every touch seen before is a change**: the
/// newest time moves, so the levels are read again.
pub proof fn a_later_touch_is_noticed(before: Seq<Option<i128>>, after: Seq<Option<i128>>, i: int, t: i128)
    requires
        0 <= i < after.len(),
        after[i] == Some(t),
        forall|j: int| 0 <= j < before.len() && (#[trigger] before[j]) is Some ==> before[j]->0 < t,
    ensures
        newest_of(after) != newest_of(before),
{
    the_newest_touch_is_the_latest(before);
    the_newest_touch_is_the_latest(after);
    match newest_of(before) {
        Some(m) => {
            let j = choose|j: int| 0 <= j < before.len() && before[j] == Some(m);
            assert(before[j]->0 < t);
            assert(after[i] is Some);
        },
        None => {
            assert(after[i] is Some);
        },
    }
}

/// `part` appears somewhere in `s`, as a run of its characters.
pub open spec fn appears(s: Seq<char>, part: Seq<char>) -> bool {
    exists|i: int| 0 <= i && i + part.len() <= s.len() && #[trigger] s.subrange(i, i + part.len()) == part
}

/// **Only Telegram being busy is worth another go**: a refusal is tried
/// again, thirty seconds on, exactly when its words hold "Too Many Requests"
/// or "retry after"; any other — a bad token, a chat that does not exist, a
/// caption too long — is settled.
pub proof fn only_a_busy_telegram_is_tried_again(why: String)
    ensures
        !appears(why@, "Too Many Requests"@) && !appears(why@, "retry after"@) ==> answer_of(
            SendError::Refused(why),
        ) == Answer::GiveUp,
        appears(why@, "Too Many Requests"@) || appears(why@, "retry after"@) ==> answer_of(
            SendError::Refused(why),
        ) == Answer::TryAgain(Pause { millis: 30_000 }),
{
    let s = why@;
    let busy = "Too Many Requests"@;
    let later = "retry after"@;
    if appears(s, busy) {
        let i = choose|i: int| 0 <= i && i + busy.len() <= s.len() && #[trigger] s.subrange(i, i + busy.len()) == busy;
        assert(crate::text::holds(s, busy));
    }
    if appears(s, later) {
        let i = choose|i: int| 0 <= i && i + later.len() <= s.len() && #[trigger] s.subrange(i, i + later.len()) == later;
        assert(crate::text::holds(s, later));
    }
    if crate::text::holds(s, busy) {
        let i = choose|i: int| 0 <= i <= s.len() - busy.len() && #[trigger] s.subrange(i, i + busy.len()) == busy;
        assert(appears(s, busy));
    }
    if crate::text::holds(s, later) {
        let i = choose|i: int| 0 <= i <= s.len() - later.len() && #[trigger] s.subrange(i, i + later.len()) == later;
        assert(appears(s, later));
    }
}

/// **Names are listed with `", "` between each neighbouring pair**: none
/// says nothing, one is just itself, and one more name adds a comma, a
/// space and that name.
pub proof fn names_are_split_by_commas(s: Seq<Seq<char>>, x: Seq<char>)
    ensures
        comma_listed(Seq::<Seq<char>>::empty()) == Seq::<char>::empty(),
        comma_listed(seq![x]) == x,
        s.len() > 0 ==> comma_listed(s.push(x)) == comma_listed(s) + seq![',', ' '] + x,
{
    assert(s.push(x).drop_last() == s);
    assert(seq![x][0] == x);
}

/// Two hex digits that look the same are the same digit.
proof fn lemma_hex_digit_injective(a: nat, b: nat)
    requires
        a < 16,
        b < 16,
        hex_digit(a) == hex_digit(b),
    ensures
        a == b,
{
}

/// Two versions that look the same agree in their lowest byte.
proof fn lemma_same_digits_same_low_byte(va: nat, vb: nat)
    requires
        hex12(va) == hex12(vb),
    ensures
        va % 256 == vb % 256,
{
    assert(pow16(0) == 1);
    assert(pow16(1) == 16);
    assert(hex12(va)[11] == hex_digit((va / pow16(0)) % 16));
    assert(hex12(vb)[11] == hex_digit((vb / pow16(0)) % 16));
    assert(hex12(va)[10] == hex_digit((va / pow16(1)) % 16));
    assert(hex12(vb)[10] == hex_digit((vb / pow16(1)) % 16));
    assert(va / 1 == va && vb / 1 == vb);
    lemma_hex_digit_injective(va % 16, vb % 16);
    lemma_hex_digit_injective((va / 16) % 16, (vb / 16) % 16);
    assert(va % 256 == vb % 256) by (nonlinear_arith)
        requires
            va % 16 == vb % 16,
            (va / 16) % 16 == (vb / 16) % 16,
    {
        assert(va % 256 == va % 16 + 16 * ((va / 16) % 16));
        assert(vb % 256 == vb % 16 + 16 * ((vb / 16) % 16));
    }
}

/// The lowest byte of one byte mixed in: the lowest byte of the
/// exclusive-or, times the prime's lowest byte.
proof fn lemma_low_byte_of_mixed(h: u64, x: u8)
    ensures
        ((mixed(h, x) as nat) % (KEPT as nat)) % 256 == (((h ^ (x as u64)) % 256) as int * 0xb3) % 256,
{
    let a: u64 = h ^ (x as u64);
    let m = mixed(h, x);
    let n = a as int * PRIME as int;
    assert(m as int == n % 0x1_0000_0000_0000_0000int);
    vstd::arithmetic::div_mod::lemma_mod_mod(m as int, 256, 0x1_0000_0000_00);
    vstd::arithmetic::div_mod::lemma_mod_mod(n, 256, 0x1_0000_0000_0000_00);
    vstd::arithmetic::div_mod::lemma_mul_mod_noop_general(a as int, PRIME as int, 256);
    assert((PRIME as int) % 256 == 0xb3);
}

/// An odd multiplier loses nothing from the lowest byte, so two different
/// bytes mixed into the same hash leave different lowest bytes.
proof fn lemma_mixing_keeps_the_byte(h: u64, x: u8, y: u8)
    requires
        x != y,
    ensures
        (((h ^ (x as u64)) % 256) as int * 0xb3) % 256 != (((h ^ (y as u64)) % 256) as int * 0xb3) % 256,
{
    let xx = x as u64;
    let yy = y as u64;
    let la: u64 = (h ^ xx) % 256;
    let lb: u64 = (h ^ yy) % 256;
    assert(la != lb) by (bit_vector)
        requires
            la == (h ^ xx) % 256,
            lb == (h ^ yy) % 256,
            xx != yy,
            xx < 256,
            yy < 256,
    ;
    assert((la * 0xb3u64) % 256 != (lb * 0xb3u64) % 256) by (bit_vector)
        requires
            la < 256,
            lb < 256,
            la != lb,
    ;
}

/// **Every byte moves the version**: two settings that differ only in
/// their last byte — wherever it falls, however long they are — never get
/// the same version.
pub proof fn every_byte_moves_the_version(bytes: Seq<u8>, x: u8, y: u8)
    requires
        x != y,
    ensures
        short_of(bytes.push(x)) != short_of(bytes.push(y)),
{
    let h = fnv(bytes);
    assert(bytes.push(x).drop_last() == bytes && bytes.push(x).last() == x);
    assert(bytes.push(y).drop_last() == bytes && bytes.push(y).last() == y);
    assert(fnv(bytes.push(x)) == mixed(h, x));
    assert(fnv(bytes.push(y)) == mixed(h, y));
    lemma_low_byte_of_mixed(h, x);
    lemma_low_byte_of_mixed(h, y);
    lemma_mixing_keeps_the_byte(h, x, y);
    if short_of(bytes.push(x)) == short_of(bytes.push(y)) {
        lemma_same_digits_same_low_byte(
            (mixed(h, x) as nat) % (KEPT as nat),
            (mixed(h, y) as nat) % (KEPT as nat),
        );
    }
}

} // verus!
