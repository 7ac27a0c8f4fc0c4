//! What can go wrong sending, which troubles are worth another go, and how
//! a job is tried again.

use vstd::prelude::*;

use crate::text::{chars_of, holds, holds_chars, text_of};

verus! {

/// Two to the `n`.
pub open spec fn pow2(n: nat) -> nat
    decreases n,
{
    if n == 0 { 1 } else { 2 * pow2((n - 1) as nat) }
}

proof fn lemma_pow2_positive(n: nat)
    ensures
        pow2(n) > 0,
    decreases n,
{
    if n > 0 {
        lemma_pow2_positive((n - 1) as nat);
    }
}

/// How long to wait before another go.
#[derive(Clone, Copy, Debug, PartialEq, Eq, Structural)]
pub struct Pause {
    pub millis: u64,
}

impl Pause {
    pub fn from_millis(millis: u64) -> (p: Pause)
        ensures
            p.millis == millis,
    {
        Pause { millis }
    }

    /// This pause doubled `times` times, held at the longest a pause can
    /// be when that is too long to hold.
    pub fn doubled(&self, times: u32) -> (p: Pause)
        ensures
            p.millis == if self.millis * pow2(times as nat) > u64::MAX {
                u64::MAX as int
            } else {
                self.millis * pow2(times as nat)
            },
    {
        let mut millis: u64 = self.millis;
        let mut i: u32 = 0;
        assert(pow2(0) == 1);
        assert(self.millis * pow2(0) == self.millis);
        while i < times
            invariant
                0 <= i <= times,
                millis == if self.millis * pow2(i as nat) > u64::MAX {
                    u64::MAX as int
                } else {
                    self.millis * pow2(i as nat)
                },
            decreases times - i,
        {
            proof {
                let before = self.millis * pow2(i as nat);
                assert(self.millis * pow2((i + 1) as nat) == 2 * before) by (nonlinear_arith)
                    requires
                        pow2((i + 1) as nat) == 2 * pow2(i as nat),
                        before == self.millis * pow2(i as nat),
                ;
                lemma_pow2_positive(i as nat);
                assert(before >= 0) by (nonlinear_arith)
                    requires
                        before == self.millis * pow2(i as nat),
                        pow2(i as nat) > 0,
                ;
            }
            if millis > u64::MAX / 2 {
                millis = u64::MAX;
            } else {
                millis = millis * 2;
            }
            i = i + 1;
        }
        Pause { millis }
    }

    pub fn from_secs(secs: u32) -> (p: Pause)
        ensures
            p.millis == secs * 1000,
    {
        Pause { millis: secs as u64 * 1000 }
    }
}

/// What a trouble says about itself: worth another go after a pause, or
/// settled.
#[derive(Clone, Copy, Debug, PartialEq, Eq, Structural)]
pub enum Answer {
    TryAgain(Pause),
    GiveUp,
}

/// How long "soon" is: a dropped line clears in a few seconds.
pub const SOON_SECS: u32 = 3;

/// How long "in a while" is: a busy end asks for tens of seconds.
pub const A_WHILE_SECS: u32 = 30;

impl Answer {
    /// Worth another go in a few seconds.
    pub fn soon() -> (a: Answer)
        ensures
            a == Answer::TryAgain(Pause { millis: (SOON_SECS * 1000) as u64 }),
    {
        Answer::TryAgain(Pause::from_secs(SOON_SECS))
    }

    /// Worth another go, but not for a while.
    pub fn in_a_while() -> (a: Answer)
        ensures
            a == Answer::TryAgain(Pause { millis: (A_WHILE_SECS * 1000) as u64 }),
    {
        Answer::TryAgain(Pause::from_secs(A_WHILE_SECS))
    }

    /// How long to wait before another go, or `None` when it is settled.
    pub fn wait(&self) -> (w: Option<Pause>)
        ensures
            w == match *self {
                Answer::TryAgain(p) => Some(p),
                Answer::GiveUp => None,
            },
    {
        match self {
            Answer::TryAgain(p) => Some(*p),
            Answer::GiveUp => None,
        }
    }

    pub fn worth_trying_again(&self) -> (b: bool)
        ensures
            b == (*self is TryAgain),
    {
        match self {
            Answer::TryAgain(_) => true,
            Answer::GiveUp => false,
        }
    }
}

/// What can go wrong sending.
#[derive(Clone, Debug)]
pub enum SendError {
    NotSet(&'static str),
    NoPicture { path: String, detail: String },
    Unreachable(String),
    /// **Telegram refuses politely** — `ok: false` inside a perfectly
    /// ordinary reply. A reply that parses is not a message that arrived.
    Refused(String),
}

/// The words Telegram uses for being busy.
pub open spec fn busy_words(why: Seq<char>) -> bool {
    holds(why, "Too Many Requests"@) || holds(why, "retry after"@)
}

/// What a trouble sending says about another go.
pub open spec fn answer_of(e: SendError) -> Answer {
    match e {
        SendError::NotSet(_) => Answer::GiveUp,
        SendError::NoPicture { .. } => Answer::GiveUp,
        SendError::Unreachable(_) => Answer::TryAgain(Pause { millis: (SOON_SECS * 1000) as u64 }),
        SendError::Refused(why) => if busy_words(why@) {
            Answer::TryAgain(Pause { millis: (A_WHILE_SECS * 1000) as u64 })
        } else {
            Answer::GiveUp
        },
    }
}

/// What the trouble says, in words.
pub open spec fn message_of(e: SendError) -> Seq<char> {
    match e {
        SendError::NotSet(name) => name@ + " is not set"@,
        SendError::NoPicture { path, detail } => "could not read "@ + path@ + ": "@ + detail@,
        SendError::Unreachable(why) => "could not reach Telegram: "@ + why@,
        SendError::Refused(why) => "Telegram refused: "@ + why@,
    }
}

/// Two pieces of text, one after the other.
fn joined(first: &str, second: &str) -> (s: String)
    ensures
        s@ == first@ + second@,
{
    let mut a = chars_of(first);
    let mut b = chars_of(second);
    a.append(&mut b);
    text_of(a.as_slice())
}

impl SendError {
    /// Is this worth another go?
    ///
    /// **A missing token or a missing picture stays missing.** Telegram says
    /// "Too Many Requests" in words rather than a code, so the words are what
    /// there is to go by; anything else it refuses is settled.
    pub fn answer(&self) -> (a: Answer)
        ensures
            a == answer_of(*self),
    {
        match self {
            SendError::NotSet(_) => Answer::GiveUp,
            SendError::NoPicture { .. } => Answer::GiveUp,
            SendError::Unreachable(_) => Answer::soon(),
            SendError::Refused(why) => {
                let said = chars_of(why.as_str());
                let busy = chars_of("Too Many Requests");
                let later = chars_of("retry after");
                if holds_chars(said.as_slice(), busy.as_slice()) || holds_chars(
                    said.as_slice(),
                    later.as_slice(),
                ) {
                    Answer::in_a_while()
                } else {
                    Answer::GiveUp
                }
            },
        }
    }

    /// What went wrong, as it is told.
    pub fn message(&self) -> (words: String)
        ensures
            words@ == message_of(*self),
    {
        match self {
            SendError::NotSet(name) => joined(name, " is not set"),
            SendError::NoPicture { path, detail } => {
                let front = joined("could not read ", path.as_str());
                let middle = joined(front.as_str(), ": ");
                joined(middle.as_str(), detail.as_str())
            },
            SendError::Unreachable(why) => joined("could not reach Telegram: ", why.as_str()),
            SendError::Refused(why) => joined("Telegram refused: ", why.as_str()),
        }
    }
}

/// What Telegram's reply comes to: sent when it says `ok`, and otherwise
/// refused, with its description or "no reason given".
pub open spec fn reply_verdict(ok: bool, description: Option<Seq<char>>) -> Result<(), Seq<char>> {
    if ok {
        Ok(())
    } else {
        match description {
            Some(d) => Err(d),
            None => Err("no reason given"@),
        }
    }
}

/// **Refused is not sent.** `ok` is whether the reply's `ok` field was
/// `true`; `description` is its `description`, where that is a string.
pub fn judge_reply(ok: bool, description: Option<String>) -> (r: Result<(), SendError>)
    ensures
        match reply_verdict(
            ok,
            match description {
                Some(d) => Some(d@),
                None => None,
            },
        ) {
            Ok(()) => r is Ok,
            Err(why) => r matches Err(SendError::Refused(w)) && w@ == why,
        },
{
    if ok {
        return Ok(());
    }
    match description {
        Some(why) => Err(SendError::Refused(why)),
        None => Err(SendError::Refused(String::from_str("no reason given"))),
    }
}

/// What to do after a go that failed.
#[derive(Clone, Copy, Debug, PartialEq, Eq, Structural)]
pub enum Next {
    /// Hand the trouble back.
    Stop,
    /// Wait `pause` doubled `doublings` times, then go again.
    Wait { pause: Pause, doublings: u32 },
}

/// How many goes a job is given: at least one.
pub open spec fn goes(attempts: u32) -> nat {
    if attempts == 0 { 1 } else { attempts as nat }
}

/// Doing a job again when the trouble says it is worth it.
///
/// **Gives up the moment the trouble says to** — a wrong key is wrong on the
/// fifth go — and gives up after `attempts` goes even when it says
/// otherwise, because "keep trying" is not the same as "forever". **The wait
/// doubles each time.**
pub struct Tries {
    attempts: u32,
    left: u32,
}

impl Tries {
    /// How many goes it was given.
    pub closed spec fn given(&self) -> nat {
        goes(self.attempts)
    }

    /// How many goes have failed so far.
    pub closed spec fn failures(&self) -> nat {
        (goes(self.attempts) - self.left) as nat
    }

    /// Whether another go is still allowed.
    pub closed spec fn going(&self) -> bool {
        self.left > 0
    }

    #[verifier::type_invariant]
    closed spec fn counted(&self) -> bool {
        self.left <= goes(self.attempts)
    }

    /// A job given `attempts` goes; never fewer than one.
    pub fn new(attempts: u32) -> (t: Tries)
        ensures
            t.given() == goes(attempts),
            t.failures() == 0,
            t.going(),
    {
        let left = if attempts == 0 { 1 } else { attempts };
        Tries { attempts, left }
    }

    /// A go failed, and the trouble answered `answer`. What now?
    ///
    /// Stop when it says to give up, or when this was the last go it was
    /// given; otherwise wait, for the pause it asked for doubled once for
    /// every go that failed before this one.
    pub fn failed(&mut self, answer: Answer) -> (next: Next)
        requires
            old(self).going(),
        ensures
            final(self).given() == old(self).given(),
            final(self).failures() == old(self).failures() + 1,
            final(self).going() == (final(self).failures() < final(self).given()),
            next == match answer {
                Answer::GiveUp => Next::Stop,
                Answer::TryAgain(pause) => if final(self).failures() >= final(self).given() {
                    Next::Stop
                } else {
                    Next::Wait { pause, doublings: old(self).failures() as u32 }
                },
            },
    {
        proof {
            use_type_invariant(&*self);
        }
        self.left = self.left - 1;
        let pause = match answer {
            Answer::GiveUp => {
                return Next::Stop;
            },
            Answer::TryAgain(pause) => pause,
        };
        if self.left == 0 {
            return Next::Stop;
        }
        let given = if self.attempts == 0 { 1 } else { self.attempts };
        Next::Wait { pause, doublings: given - self.left - 1 }
    }
}

} // verus!
