//! What the session's first report remembers: which session each pair was
//! last greeted for, and when it was last attempted.

use vstd::prelude::*;

use crate::memory::Keyed;
use crate::moment::{Moment, MINUTE};

verus! {

/// How long to leave it before trying the greeting again. **This is asked on
/// every price**, so a greeting that will not send has to wait.
pub const BEFORE_TRYING_AGAIN: i128 = MINUTE;

/// Whether this session has been greeted yet.
pub struct Awake {
    /// Which session each pair has already been reported for. **Per session,
    /// not per run, and per pair, not per bot.**
    greeted: Keyed<String, Moment>,

    /// When it was last attempted.
    tried: Option<Moment>,
}

/// The pairs, among `priced`, not yet greeted for `session`, in order.
pub open spec fn owed_among(
    greeted: Map<Seq<char>, int>,
    priced: Seq<Seq<char>>,
    session: int,
) -> Seq<Seq<char>>
    decreases priced.len(),
{
    if priced.len() == 0 {
        Seq::empty()
    } else {
        let before = owed_among(greeted, priced.drop_last(), session);
        let symbol = priced.last();
        if greeted.contains_key(symbol) && greeted[symbol] == session {
            before
        } else {
            before.push(symbol)
        }
    }
}

impl Awake {
    /// Which session each pair was greeted for.
    pub closed spec fn greeted(&self) -> Map<Seq<char>, int> {
        self.greeted@
    }

    /// When it was last attempted.
    pub closed spec fn tried(&self) -> Option<Moment> {
        self.tried
    }

    pub fn new() -> (a: Awake)
        ensures
            a.greeted() == Map::<Seq<char>, int>::empty(),
            a.tried() is None,
    {
        Awake { greeted: Keyed::new(), tried: None }
    }

    /// **This pair is owed a fresh report** — its bands were just rebuilt.
    /// Forgetting one it never knew is fine.
    pub fn forget(&mut self, symbol: &str)
        ensures
            final(self).greeted() == old(self).greeted().remove(symbol@),
            final(self).tried() == old(self).tried(),
    {
        self.greeted.remove(&String::from_str(symbol));
    }

    /// The session `symbol` was last greeted for.
    pub fn greeted_for(&self, symbol: &str) -> (s: Option<Moment>)
        ensures
            s is Some == self.greeted().contains_key(symbol@),
            s matches Some(m) ==> self.greeted()[symbol@] == m@,
    {
        match self.greeted.get(&String::from_str(symbol)) {
            Some(m) => Some(*m),
            None => None,
        }
    }

    /// `symbol` has been reported for `session`. **Only once it has actually
    /// been said.**
    pub fn greeted_in(&mut self, symbol: String, session: Moment)
        ensures
            final(self).greeted() == old(self).greeted().insert(symbol@, session@),
            final(self).tried() == old(self).tried(),
    {
        self.greeted.insert(symbol, session);
    }

    /// After greeting `symbol` for `session`: **marked only once it has
    /// actually been said.** `all_said` is whether every card about it went;
    /// when one did not, nothing is marked and it is owed again.
    pub fn after_greeting(&mut self, symbol: String, session: Moment, all_said: bool)
        ensures
            all_said ==> final(self).greeted() == old(self).greeted().insert(symbol@, session@),
            !all_said ==> final(self).greeted() == old(self).greeted(),
            final(self).tried() == old(self).tried(),
    {
        if all_said {
            self.greeted_in(symbol, session);
        }
    }

    /// The pairs a price has arrived for (`priced`) that have not been
    /// greeted for `session`, in the order given.
    pub fn owed(&self, priced: &[String], session: Moment) -> (o: Vec<String>)
        ensures
            o@.map_values(|s: String| s@) == owed_among(
                self.greeted(),
                priced@.map_values(|s: String| s@),
                session@,
            ),
    {
        let ghost names = priced@.map_values(|s: String| s@);
        let mut owed: Vec<String> = Vec::new();
        let mut i: usize = 0;
        while i < priced.len()
            invariant
                0 <= i <= priced@.len(),
                names == priced@.map_values(|s: String| s@),
                owed@.map_values(|s: String| s@) == owed_among(
                    self.greeted(),
                    names.take(i as int),
                    session@,
                ),
            decreases priced@.len() - i,
        {
            assert(names.take(i + 1).drop_last() == names.take(i as int));
            assert(names.take(i + 1).last() == priced@[i as int]@);
            let done = match self.greeted.get(&priced[i]) {
                Some(at) => at.nanos == session.nanos,
                None => false,
            };
            if !done {
                let ghost before = owed@;
                owed.push(priced[i].clone());
                assert(owed@.map_values(|s: String| s@) =~= before.map_values(|s: String| s@).push(
                    priced@[i as int]@,
                ));
            }
            i = i + 1;
        }
        assert(names.take(priced@.len() as int) == names);
        owed
    }

    /// Which pairs to greet now, in order. **Nothing until a pair a price
    /// has arrived for is owed its report for `session`; nothing through
    /// the opening hours (`settled` false); nothing within a minute of the
    /// last attempt** — and only an attempt actually made is remembered.
    pub fn to_greet(&mut self, priced: &[String], session: Moment, settled: bool, now: Moment) -> (go:
        Vec<String>)
        requires
            now.fits(),
        ensures
            ({
                let owed = owed_among(
                    old(self).greeted(),
                    priced@.map_values(|s: String| s@),
                    session@,
                );
                let rested = match old(self).tried() {
                    Some(last) => now@ - last@ >= BEFORE_TRYING_AGAIN,
                    None => true,
                };
                let attempt = owed.len() > 0 && settled && rested;
                &&& attempt ==> go@.map_values(|s: String| s@) == owed
                &&& !attempt ==> go@.len() == 0
                &&& final(self).tried() == if attempt { Some(now) } else { old(self).tried() }
                &&& final(self).greeted() == old(self).greeted()
            }),
    {
        let owed = self.owed(priced, session);
        if owed.len() == 0 || !settled {
            return Vec::new();
        }
        if !self.may_try(now) {
            return Vec::new();
        }
        owed
    }

    /// Whether to attempt the greeting now. **Tried in the last minute and it
    /// did not go: leave it alone.** Otherwise the attempt is remembered.
    pub fn may_try(&mut self, now: Moment) -> (go: bool)
        requires
            now.fits(),
        ensures
            go == match old(self).tried() {
                Some(last) => now@ - last@ >= BEFORE_TRYING_AGAIN,
                None => true,
            },
            final(self).tried() == if go { Some(now) } else { old(self).tried() },
            final(self).greeted() == old(self).greeted(),
    {
        if let Some(last) = self.tried {
            if last.nanos > now.nanos - BEFORE_TRYING_AGAIN {
                return false;
            }
        }
        self.tried = Some(now);
        true
    }
}

} // verus!
