//! Which pairs the feed has refused, and the point at which that is fatal.
//!
//! **A refusal does not arrive as an error.** The feed sends a notice down a
//! line that stays open and then never sends a price for that pair — so one
//! refused pair is silent in exactly the way a quiet pair is silent. This is
//! what notices its own silence.

use vstd::prelude::*;

use crate::memory::{distinct_keys, map_of, Same};
use crate::text::{chars_of, text_of};

verus! {

/// `a` sorts before `b`, character by character — the order a `BTreeMap`
/// of strings keeps.
pub open spec fn sorts_before(a: Seq<char>, b: Seq<char>) -> bool
    decreases a.len(),
{
    if a.len() == 0 {
        b.len() > 0
    } else if b.len() == 0 {
        false
    } else if a[0] != b[0] {
        (a[0] as int) < (b[0] as int)
    } else {
        sorts_before(a.drop_first(), b.drop_first())
    }
}

pub proof fn lemma_sorts_irreflexive(a: Seq<char>)
    ensures
        !sorts_before(a, a),
    decreases a.len(),
{
    if a.len() > 0 {
        lemma_sorts_irreflexive(a.drop_first());
    }
}

pub proof fn lemma_sorts_total(a: Seq<char>, b: Seq<char>)
    ensures
        a == b || sorts_before(a, b) || sorts_before(b, a),
    decreases a.len(),
{
    if a.len() > 0 && b.len() > 0 {
        if a[0] == b[0] {
            lemma_sorts_total(a.drop_first(), b.drop_first());
            if a.drop_first() == b.drop_first() {
                assert(a =~= seq![a[0]] + a.drop_first());
                assert(b =~= seq![b[0]] + b.drop_first());
            }
        } else {
            assert((a[0] as int) != (b[0] as int));
        }
    } else if a.len() == 0 && b.len() == 0 {
        assert(a =~= b);
    }
}

pub proof fn lemma_sorts_transitive(a: Seq<char>, b: Seq<char>, c: Seq<char>)
    requires
        sorts_before(a, b),
        sorts_before(b, c),
    ensures
        sorts_before(a, c),
    decreases a.len(),
{
    if a.len() > 0 && b.len() > 0 && c.len() > 0 && a[0] == b[0] && b[0] == c[0] {
        lemma_sorts_transitive(a.drop_first(), b.drop_first(), c.drop_first());
    }
}

/// Whether `a` sorts before `b`.
fn sorted_before(a: &[char], b: &[char]) -> (r: bool)
    ensures
        r == sorts_before(a@, b@),
{
    let mut i: usize = 0;
    assert(a@.skip(0) == a@ && b@.skip(0) == b@);
    while i < a.len() && i < b.len() && a[i] == b[i]
        invariant
            i <= a@.len(),
            i <= b@.len(),
            sorts_before(a@, b@) == sorts_before(a@.skip(i as int), b@.skip(i as int)),
        decreases a@.len() - i,
    {
        assert(a@.skip(i as int).drop_first() == a@.skip(i + 1));
        assert(b@.skip(i as int).drop_first() == b@.skip(i + 1));
        i = i + 1;
    }
    if i == a.len() {
        return i < b.len();
    }
    if i == b.len() {
        return false;
    }
    assert(a@.skip(i as int)[0] == a@[i as int]);
    assert(b@.skip(i as int)[0] == b@[i as int]);
    a[i] < b[i]
}

/// Strictly increasing by key.
pub open spec fn in_order(s: Seq<(Seq<char>, Seq<char>)>) -> bool {
    forall|i: int, j: int| 0 <= i < j < s.len() ==> sorts_before(s[i].0, s[j].0)
}

/// No key appears twice in a list sorted by key.
pub proof fn lemma_in_order_is_distinct(s: Seq<(Seq<char>, Seq<char>)>)
    requires
        in_order(s),
    ensures
        distinct_keys(s),
{
    assert forall|i: int, j: int| 0 <= i < j < s.len() implies s[i].0 != s[j].0 by {
        if s[i].0 == s[j].0 {
            lemma_sorts_irreflexive(s[i].0);
        }
    }
}

/// The symbols of a list of refusals, in order.
pub open spec fn symbols(s: Seq<(Seq<char>, Seq<char>)>) -> Seq<Seq<char>> {
    s.map_values(|e: (Seq<char>, Seq<char>)| e.0)
}

/// With no symbol twice, the refusals held are one per symbol: the map they
/// stand for has exactly their symbols, as many as there are entries.
pub proof fn lemma_count_is_pairs(s: Seq<(Seq<char>, Seq<char>)>)
    requires
        distinct_keys(s),
    ensures
        map_of(s).dom() == symbols(s).to_set(),
        map_of(s).dom().finite(),
        map_of(s).dom().len() == s.len(),
{
    assert forall|k: Seq<char>| map_of(s).dom().contains(k) == symbols(s).to_set().contains(k) by {
        if exists|j: int| 0 <= j < s.len() && s[j].0 == k {
            let j = choose|j: int| 0 <= j < s.len() && s[j].0 == k;
            crate::memory::lemma_lookup_found(s, j);
            assert(symbols(s)[j] == k);
        } else {
            crate::memory::lemma_lookup_absent(s, k);
            if symbols(s).contains(k) {
                let j = choose|j: int| 0 <= j < symbols(s).len() && symbols(s)[j] == k;
                assert(s[j].0 == k);
            }
        }
    }
    assert(map_of(s).dom() =~= symbols(s).to_set());
    assert(symbols(s).no_duplicates()) by {
        assert forall|i: int, j: int|
            0 <= i < symbols(s).len() && 0 <= j < symbols(s).len() && i != j implies symbols(s)[i]
            != symbols(s)[j] by {
            if i < j {
                assert(s[i].0 != s[j].0);
            } else {
                assert(s[j].0 != s[i].0);
            }
        }
    }
    symbols(s).unique_seq_to_set();
    vstd::seq_lib::seq_to_set_is_finite(symbols(s));
}

/// `a` and `b` never sort before each other both ways.
proof fn lemma_sorts_asymmetric(a: Seq<char>, b: Seq<char>)
    requires
        sorts_before(a, b),
    ensures
        !sorts_before(b, a),
{
    if sorts_before(b, a) {
        lemma_sorts_transitive(a, b, a);
        lemma_sorts_irreflexive(a);
    }
}

/// Two lists sorted by symbol that stand for the same refusals hold the same
/// symbols at every place up to `i`.
proof fn lemma_same_symbols_up_to(a: Seq<(Seq<char>, Seq<char>)>, b: Seq<(Seq<char>, Seq<char>)>, i: int)
    requires
        in_order(a),
        in_order(b),
        a.len() == b.len(),
        symbols(a).to_set() == symbols(b).to_set(),
        0 <= i < a.len(),
    ensures
        forall|j: int| 0 <= j <= i ==> #[trigger] a[j].0 == b[j].0,
    decreases i,
{
    if i > 0 {
        lemma_same_symbols_up_to(a, b, i - 1);
    }
    lemma_in_order_is_distinct(a);
    lemma_in_order_is_distinct(b);
    let ka = a[i].0;
    let kb = b[i].0;
    assert(symbols(a)[i] == ka);
    assert(symbols(a).to_set().contains(ka));
    let m = choose|m: int| 0 <= m < symbols(b).len() && symbols(b)[m] == ka;
    assert(b[m].0 == ka);
    if m < i {
        assert(a[m].0 == b[m].0);
        assert(a[m].0 != a[i].0);
    } else if m > i {
        assert(sorts_before(kb, ka));
        assert(symbols(b)[i] == kb);
        assert(symbols(b).to_set().contains(kb));
        let q = choose|q: int| 0 <= q < symbols(a).len() && symbols(a)[q] == kb;
        assert(a[q].0 == kb);
        if q < i {
            assert(a[q].0 == b[q].0);
            assert(b[q].0 != b[i].0);
        } else if q == i {
            assert(b[i].0 != b[m].0);
        } else {
            assert(sorts_before(ka, kb));
            lemma_sorts_asymmetric(ka, kb);
        }
    }
}

/// **The order refusals came in does not matter**: two lists sorted by
/// symbol that stand for the same refusals are the same list.
pub proof fn lemma_sorted_is_determined(a: Seq<(Seq<char>, Seq<char>)>, b: Seq<(Seq<char>, Seq<char>)>)
    requires
        in_order(a),
        in_order(b),
        map_of(a) == map_of(b),
    ensures
        a == b,
{
    lemma_in_order_is_distinct(a);
    lemma_in_order_is_distinct(b);
    lemma_count_is_pairs(a);
    lemma_count_is_pairs(b);
    if a.len() > 0 {
        lemma_same_symbols_up_to(a, b, a.len() - 1);
    }
    assert forall|i: int| 0 <= i < a.len() implies a[i] == b[i] by {
        assert(a[i].0 == b[i].0);
        crate::memory::lemma_lookup_found(a, i);
        crate::memory::lemma_lookup_found(b, i);
        assert(map_of(a)[a[i].0] == a[i].1);
        assert(map_of(b)[b[i].0] == b[i].1);
    }
    assert(a =~= b);
}

/// The refusals that a line of calls `(symbol, why)` leaves, one after
/// another from none: each symbol with the reason it gave last.
pub open spec fn refused_by(calls: Seq<(Seq<char>, Seq<char>)>) -> Map<Seq<char>, Seq<char>>
    decreases calls.len(),
{
    if calls.len() == 0 {
        Map::empty()
    } else {
        refused_by(calls.drop_last()).insert(calls.last().0, calls.last().1)
    }
}


/// One refusal, as it is said: `symbol (why)`.
pub open spec fn one(entry: (Seq<char>, Seq<char>)) -> Seq<char> {
    entry.0 + seq![' ', '('] + entry.1 + seq![')']
}

/// Every refusal, one after another, split by `"; "`.
pub open spec fn listed(s: Seq<(Seq<char>, Seq<char>)>) -> Seq<char>
    decreases s.len(),
{
    if s.len() == 0 {
        Seq::empty()
    } else if s.len() == 1 {
        one(s[0])
    } else {
        listed(s.drop_last()) + seq![';', ' '] + one(s.last())
    }
}

/// The pairs the feed has said no to since the line opened.
pub struct Refusals {
    asked: usize,

    /// Kept by symbol, so the same pair complaining twice is still one pair.
    /// Sorted, so the message does not shuffle between readings.
    said: Vec<(String, String)>,
}

impl Refusals {
    /// How many pairs are being listened to.
    pub closed spec fn asked(&self) -> nat {
        self.asked as nat
    }

    /// Every refusal so far, as `(symbol, why)`, sorted by symbol.
    pub closed spec fn said(&self) -> Seq<(Seq<char>, Seq<char>)> {
        self.said@.map_values(|e: (String, String)| (e.0@, e.1@))
    }

    #[verifier::type_invariant]
    closed spec fn sorted(&self) -> bool {
        in_order(self.said())
    }

    /// Nothing refused yet, out of `asked` pairs being listened to.
    pub fn watching(asked: usize) -> (r: Refusals)
        ensures
            r.asked() == asked,
            r.said() == Seq::<(Seq<char>, Seq<char>)>::empty(),
            in_order(r.said()),
            map_of(r.said()) == Map::<Seq<char>, Seq<char>>::empty(),
    {
        let r = Refusals { asked, said: Vec::new() };
        assert(r.said() =~= Seq::<(Seq<char>, Seq<char>)>::empty());
        assert(map_of(r.said()) =~= Map::<Seq<char>, Seq<char>>::empty());
        r
    }

    /// Whether `symbol` has already said no.
    pub fn heard_from(&self, symbol: &str) -> (b: bool)
        ensures
            b == map_of(self.said()).contains_key(symbol@),
    {
        proof {
            use_type_invariant(&*self);
            lemma_in_order_is_distinct(self.said());
        }
        let wanted = String::from_str(symbol);
        let mut i: usize = 0;
        while i < self.said.len()
            invariant
                0 <= i <= self.said@.len(),
                wanted@ == symbol@,
                distinct_keys(self.said()),
                forall|j: int| 0 <= j < i ==> self.said()[j].0 != symbol@,
            decreases self.said@.len() - i,
        {
            if self.said[i].0.same(&wanted) {
                proof {
                    crate::memory::lemma_lookup_found(self.said(), i as int);
                }
                return true;
            }
            i = i + 1;
        }
        proof {
            crate::memory::lemma_lookup_absent(self.said(), symbol@);
        }
        false
    }

    /// Remembers one refusal, and answers: **is that all of them?**
    ///
    /// True means nothing will ever arrive on this line and it is not worth
    /// holding open. **Nought refused out of nought asked is not a total
    /// refusal**, and the same pair refusing twice is still one pair.
    pub fn and_that_is_everything(&mut self, symbol: &str, why: &str) -> (all: bool)
        ensures
            map_of(final(self).said()) == map_of(old(self).said()).insert(symbol@, why@),
            final(self).said().len() == old(self).said().len() + if map_of(
                old(self).said(),
            ).contains_key(symbol@) {
                0int
            } else {
                1int
            },
            final(self).asked() == old(self).asked(),
            in_order(final(self).said()),
            map_of(final(self).said()).dom().len() == final(self).said().len(),
            all == (final(self).asked() > 0 && map_of(final(self).said()).dom().len()
                >= final(self).asked()),
    {
        proof {
            use_type_invariant(&*self);
            lemma_in_order_is_distinct(self.said());
        }
        let ghost before = self.said();
        let key = chars_of(symbol);
        let mut at: usize = 0;
        // Past every symbol that sorts before this one.
        while at < self.said.len()
            invariant
                0 <= at <= self.said@.len(),
                key@ == symbol@,
                before == self.said(),
                in_order(before),
                forall|j: int| 0 <= j < at ==> sorts_before(#[trigger] before[j].0, symbol@),
            ensures
                0 <= at <= self.said@.len(),
                before == self.said(),
                forall|j: int| 0 <= j < at ==> sorts_before(#[trigger] before[j].0, symbol@),
                at < self.said@.len() ==> !sorts_before(before[at as int].0, symbol@),
            decreases self.said@.len() - at,
        {
            let here = chars_of(self.said[at].0.as_str());
            if !sorted_before(here.as_slice(), key.as_slice()) {
                break;
            }
            at = at + 1;
        }
        let mut said: Vec<(String, String)> = Vec::new();
        std::mem::swap(&mut said, &mut self.said);
        let mut replaced = false;
        if at < said.len() {
            let here = chars_of(said[at].0.as_str());
            if !sorted_before(key.as_slice(), here.as_slice()) && !sorted_before(here.as_slice(), key.as_slice()) {
                proof {
                    lemma_sorts_total(said@[at as int].0@, symbol@);
                }
                said.set(at, (String::from_str(symbol), String::from_str(why)));
                replaced = true;
            }
        }
        if !replaced {
            said.insert(at, (String::from_str(symbol), String::from_str(why)));
        }
        proof {
            let now = said@.map_values(|e: (String, String)| (e.0@, e.1@));
            if replaced {
                assert(now =~= before.update(at as int, (before[at as int].0, why@)));
                assert(before[at as int].0 == symbol@);
                assert(in_order(now)) by {
                    assert forall|i: int, j: int| 0 <= i < j < now.len() implies
                        sorts_before(now[i].0, now[j].0) by {
                        assert(now[i].0 == before[i].0 && now[j].0 == before[j].0);
                    }
                }
                assert forall|k: Seq<char>| #[trigger] crate::memory::lookup(now, k) == if k == symbol@ {
                    Some(why@)
                } else {
                    crate::memory::lookup(before, k)
                } by {
                    crate::memory::lemma_lookup_updated(before, at as int, why@, k);
                }
                assert(map_of(now) =~= map_of(before).insert(symbol@, why@));
                crate::memory::lemma_lookup_found(before, at as int);
            } else {
                assert(now =~= before.insert(at as int, (symbol@, why@)));
                // Every symbol from `at` on sorts after this one.
                assert forall|j: int| at <= j < before.len() implies sorts_before(symbol@, #[trigger] before[j].0) by {
                    if at < before.len() {
                        lemma_sorts_total(before[at as int].0, symbol@);
                        if j > at {
                            lemma_sorts_transitive(symbol@, before[at as int].0, before[j].0);
                        }
                    }
                }
                assert(in_order(now)) by {
                    assert forall|i: int, j: int| 0 <= i < j < now.len() implies
                        sorts_before(now[i].0, now[j].0) by {
                        if i < at && j < at {
                            assert(now[i] == before[i] && now[j] == before[j]);
                        } else if i < at && j == at {
                            assert(now[i] == before[i]);
                        } else if i < at {
                            assert(now[i] == before[i] && now[j] == before[j - 1]);
                        } else if i == at {
                            assert(now[j] == before[j - 1]);
                        } else {
                            assert(now[i] == before[i - 1] && now[j] == before[j - 1]);
                        }
                    }
                }
                assert forall|j: int| 0 <= j < before.len() implies before[j].0 != symbol@ by {
                    if j < at {
                        lemma_sorts_irreflexive(symbol@);
                    } else {
                        lemma_sorts_irreflexive(symbol@);
                    }
                }
                crate::memory::lemma_lookup_absent(before, symbol@);
                // Looking up in the longer list.
                assert(distinct_keys(now)) by {
                    assert forall|i: int, j: int| 0 <= i < j < now.len() implies now[i].0 != now[j].0 by {
                        if now[i].0 == now[j].0 {
                            lemma_sorts_irreflexive(now[i].0);
                        }
                    }
                }
                assert forall|k: Seq<char>| #[trigger] crate::memory::lookup(now, k) == if k == symbol@ {
                    Some(why@)
                } else {
                    crate::memory::lookup(before, k)
                } by {
                    if k == symbol@ {
                        crate::memory::lemma_lookup_found(now, at as int);
                    } else {
                        lemma_lookup_same_keys(before, now, at as int, k);
                    }
                }
                assert(map_of(now) =~= map_of(before).insert(symbol@, why@));
            }
        }
        self.said = said;
        proof {
            lemma_in_order_is_distinct(self.said());
            lemma_count_is_pairs(self.said());
        }
        self.asked > 0 && self.said.len() >= self.asked
    }

    /// Every refusal, for the one message that says the line is dead:
    /// `symbol (why)` for each pair, in symbol order, split by `"; "`.
    pub fn what_they_said(&self) -> (words: String)
        ensures
            words@ == listed(self.said()),
            in_order(self.said()),
    {
        proof {
            use_type_invariant(self);
        }
        let mut out: Vec<char> = Vec::new();
        let mut i: usize = 0;
        while i < self.said.len()
            invariant
                0 <= i <= self.said@.len(),
                out@ == listed(self.said().take(i as int)),
            decreases self.said@.len() - i,
        {
            let ghost done = self.said().take(i as int);
            assert(self.said().take(i + 1).drop_last() == done);
            if i > 0 {
                out.push(';');
                out.push(' ');
            }
            let mut symbol = chars_of(self.said[i].0.as_str());
            let mut why = chars_of(self.said[i].1.as_str());
            out.append(&mut symbol);
            out.push(' ');
            out.push('(');
            out.append(&mut why);
            out.push(')');
            proof {
                let e = self.said()[i as int];
                if i == 0 {
                    assert(out@ =~= one(e));
                } else {
                    assert(out@ =~= listed(done) + seq![';', ' '] + one(e));
                }
            }
            i = i + 1;
        }
        assert(self.said().take(self.said().len() as int) == self.said());
        text_of(out.as_slice())
    }
}

/// Inserting a new key leaves what every other key looks up to alone.
proof fn lemma_lookup_same_keys(
    before: Seq<(Seq<char>, Seq<char>)>,
    now: Seq<(Seq<char>, Seq<char>)>,
    at: int,
    k: Seq<char>,
)
    requires
        0 <= at <= before.len(),
        now == before.insert(at, (now[at].0, now[at].1)),
        now[at].0 != k,
        distinct_keys(before),
        distinct_keys(now),
    ensures
        crate::memory::lookup(now, k) == crate::memory::lookup(before, k),
{
    let found = exists|j: int| 0 <= j < before.len() && before[j].0 == k;
    if found {
        let j = choose|j: int| 0 <= j < before.len() && before[j].0 == k;
        crate::memory::lemma_lookup_found(before, j);
        let j2 = if j < at { j } else { j + 1 };
        assert(now[j2] == before[j]);
        crate::memory::lemma_lookup_found(now, j2);
    } else {
        crate::memory::lemma_lookup_absent(before, k);
        assert forall|i: int| 0 <= i < now.len() implies now[i].0 != k by {
            if i < at {
                assert(now[i] == before[i]);
            } else if i > at {
                assert(now[i] == before[i - 1]);
            }
        }
        crate::memory::lemma_lookup_absent(now, k);
    }
}

} // verus!
