//! The heartbeat — one line, only on a day that said nothing else. This is
//! what it remembers, and how the quiet is put into words.

use vstd::prelude::*;

use crate::moment::Moment;
use crate::text::{decimal, decimal_of, text_of};

verus! {

/// Remembers when anything was last said, so the heartbeat knows to stay
/// quiet.
pub struct Pulse {
    /// When the bot last said anything at all.
    spoke: Option<Moment>,

    /// When the heartbeat itself last went out.
    beat: Option<Moment>,
}

/// "`hours` hour", with an "s" unless it is exactly one.
pub open spec fn quiet_for(hours: int) -> Seq<char> {
    decimal(hours) + " hour"@ + if hours == 1 { Seq::<char>::empty() } else { seq!['s'] }
}

impl Pulse {
    pub closed spec fn last_spoke(&self) -> Option<Moment> {
        self.spoke
    }

    pub closed spec fn last_beat(&self) -> Option<Moment> {
        self.beat
    }

    pub fn new() -> (p: Pulse)
        ensures
            p.last_spoke() is None,
            p.last_beat() is None,
    {
        Pulse { spoke: None, beat: None }
    }

    /// Call after **anything** is sent. A day that spoke needs no heartbeat.
    pub fn spoke(&mut self, at: Moment)
        ensures
            final(self).last_spoke() == Some(at),
            final(self).last_beat() == old(self).last_beat(),
    {
        self.spoke = Some(at);
    }

    /// The heartbeat went out at `at`. **Marked only once it has gone.**
    pub fn beaten(&mut self, at: Moment)
        ensures
            final(self).last_beat() == Some(at),
            final(self).last_spoke() == old(self).last_spoke(),
    {
        self.beat = Some(at);
    }

    /// After anything was sent at `at`: **only what went counts as having
    /// spoken.**
    pub fn after_speaking(&mut self, at: Moment, sent: bool)
        ensures
            final(self).last_spoke() == if sent { Some(at) } else { old(self).last_spoke() },
            final(self).last_beat() == old(self).last_beat(),
    {
        if sent {
            self.spoke(at);
        }
    }

    /// After the heartbeat was sent at `at`: **marked only once it has
    /// gone**, so a heartbeat that did not go is tried again.
    pub fn after_beat(&mut self, at: Moment, sent: bool)
        ensures
            final(self).last_beat() == if sent { Some(at) } else { old(self).last_beat() },
            final(self).last_spoke() == old(self).last_spoke(),
    {
        if sent {
            self.beaten(at);
        }
    }

    /// When anything was last said.
    pub fn spoke_at(&self) -> (m: Option<Moment>)
        ensures
            m == self.last_spoke(),
    {
        self.spoke
    }

    /// When the heartbeat last went out.
    pub fn beat_at(&self) -> (m: Option<Moment>)
        ensures
            m == self.last_beat(),
    {
        self.beat
    }
}

/// How long the session has been quiet, in words: "1 hour", "5 hours".
pub fn quiet_words(hours: i64) -> (words: String)
    ensures
        words@ == quiet_for(hours as int),
{
    let mut out = decimal_of(hours);
    let mut unit = crate::text::chars_of(" hour");
    out.append(&mut unit);
    if hours != 1 {
        out.push('s');
    }
    text_of(out.as_slice())
}

} // verus!
