//! Holding the price line open: why it stopped, and what the answer to a
//! subscription means.

use vstd::prelude::*;

use crate::text::{chars_of, text_of};

verus! {

/// Why the line stopped being held open.
///
/// **Neither of these is a fault.** Trouble leaves by the error path.
#[derive(Clone, Copy, Debug, PartialEq, Eq, Structural)]
pub enum Closed {
    /// The session ended, or he removed the last pair. Nothing is wrong.
    Line,

    /// A levels file changed. He has sent something.
    LevelsChanged,
}

/// What an answer to a subscription comes to.
#[derive(Clone, Debug)]
pub enum Subscription {
    /// Nothing refused, or not their status message at all.
    Taken,

    /// Some pairs refused: said out loud, and the rest are watched.
    SomeRefused { refused: String, watching: usize },

    /// **Every pair refused**: nothing would ever arrive, so the line is
    /// worth nothing. The words say which.
    AllRefused(String),
}

/// Symbols listed one after another, split by `", "`.
pub open spec fn comma_listed(s: Seq<Seq<char>>) -> Seq<char>
    decreases s.len(),
{
    if s.len() == 0 {
        Seq::empty()
    } else if s.len() == 1 {
        s[0]
    } else {
        comma_listed(s.drop_last()) + seq![',', ' '] + s.last()
    }
}

/// Symbols listed one after another, split by `", "`.
pub fn list_with_commas(symbols: &[String]) -> (s: String)
    ensures
        s@ == comma_listed(symbols@.map_values(|x: String| x@)),
{
    let ghost names = symbols@.map_values(|x: String| x@);
    let mut out: Vec<char> = Vec::new();
    let mut i: usize = 0;
    while i < symbols.len()
        invariant
            0 <= i <= symbols@.len(),
            names == symbols@.map_values(|x: String| x@),
            out@ == comma_listed(names.take(i as int)),
        decreases symbols@.len() - i,
    {
        assert(names.take(i + 1).drop_last() == names.take(i as int));
        if i > 0 {
            out.push(',');
            out.push(' ');
        }
        let mut name = chars_of(symbols[i].as_str());
        out.append(&mut name);
        proof {
            if i == 0 {
                assert(out@ =~= names.take(1)[0]);
            } else {
                assert(out@ =~= comma_listed(names.take(i as int)) + seq![',', ' '] + names[i as int]);
            }
        }
        i = i + 1;
    }
    assert(names.take(symbols@.len() as int) == names);
    text_of(out.as_slice())
}

/// **Reads what they said to the subscription**, rather than assuming it
/// took.
///
/// `status` is whether the answer was their `subscribe-status` message;
/// `failed` the symbols in its `fails` list; `asked` how many were asked
/// for. **Asking about nothing is not the same as being refused
/// everything.**
pub fn judge_subscription(status: bool, failed: &[String], asked: usize) -> (s: Subscription)
    requires
        status ==> failed@.len() <= asked,
    ensures
        ({
            let names = failed@.map_values(|x: String| x@);
            let everything = asked > 0 && failed@.len() == asked;
            &&& !status ==> s is Taken
            &&& status && everything ==> (s matches Subscription::AllRefused(words)
                && words@ == "they refused every pair: "@ + comma_listed(names))
            &&& status && !everything && failed@.len() > 0 ==> (s matches Subscription::SomeRefused {
                refused,
                watching,
            } && refused@ == comma_listed(names) && watching == asked - failed@.len())
            &&& status && !everything && failed@.len() == 0 ==> s is Taken
        }),
{
    if !status {
        return Subscription::Taken;
    }
    if asked > 0 && failed.len() == asked {
        let mut words = chars_of("they refused every pair: ");
        let listed = list_with_commas(failed);
        let mut rest = chars_of(listed.as_str());
        words.append(&mut rest);
        return Subscription::AllRefused(text_of(words.as_slice()));
    }
    if failed.len() > 0 {
        return Subscription::SomeRefused {
            refused: list_with_commas(failed),
            watching: asked - failed.len(),
        };
    }
    Subscription::Taken
}

} // verus!
