//! The watcher's own decisions: why it will not start, what each wake on an
//! open line decides, and what follows the line ending.
//!
//! **It is meant to run for weeks.** The line will drop, and dropping must
//! not be the end of it.

use vstd::prelude::*;

use crate::files::{newest_of, Files};
use crate::line::{comma_listed, list_with_commas, Closed};
use crate::text::{chars_of, text_of};

verus! {

/// The words for a watcher with nothing to watch. **Two different
/// nothings, and they need different words**: no levels is something he
/// fixes from his phone in a minute; a feed that will not answer is nothing
/// to do with him.
pub open spec fn nothing_words(not_sized: Seq<Seq<char>>) -> Seq<char> {
    if not_sized.len() == 0 {
        "no pairs have levels \u{2014} send the bot /level to add some"@
    } else {
        "could not reach the feed to size any bands ("@ + comma_listed(not_sized) + ")"@
    }
}

/// Why the watcher cannot start: `None` when there is something to watch,
/// else the words. `watching` is how many pairs were sized; `not_sized` the
/// pairs the feed would not size.
pub fn why_nothing(watching: usize, not_sized: &[String]) -> (why: Option<String>)
    ensures
        watching > 0 ==> why is None,
        watching == 0 ==> (why matches Some(w) && w@ == nothing_words(
            not_sized@.map_values(|x: String| x@),
        )),
{
    if watching > 0 {
        return None;
    }
    if not_sized.len() == 0 {
        return Some(String::from_str("no pairs have levels \u{2014} send the bot /level to add some"));
    }
    let mut words = chars_of("could not reach the feed to size any bands (");
    let listed = list_with_commas(not_sized);
    let mut names = chars_of(listed.as_str());
    let mut end = chars_of(")");
    words.append(&mut names);
    words.append(&mut end);
    Some(text_of(words.as_slice()))
}

/// **A quiet day opens no line**: nothing to watch, or a calendar gone
/// silent. Nothing is fetched then, though the heartbeat still goes and
/// levels are still picked up.
pub fn stays_quiet(watching: usize, silence: bool) -> (quiet: bool)
    ensures
        quiet == (watching == 0 || silence),
{
    watching == 0 || silence
}

/// What a wake on an open line comes to.
#[derive(Clone, Copy, Debug, PartialEq, Eq, Structural)]
pub enum Tick {
    /// The session has closed: hand the line back rather than drain one
    /// nobody is reading.
    StandDown,
    /// A levels file changed: hand the line back to read them again.
    Reread,
    /// Look at the candles.
    Look,
    /// Still in the opening hours: nothing to do but wait.
    Rest,
}

/// One wake on an open line, in its order: **a quiet session first** — then
/// the files are not even looked at — then a changed levels folder, then the
/// candles, which are **held through the opening hours**. `touched` is how
/// the levels folder looks now (see `Files::changed`); `silence` whether the
/// calendar has gone quiet; `settled` whether the opening hours are over.
pub fn on_the_tick(files: &mut Files, touched: &[Option<i128>], silence: bool, settled: bool) -> (t:
    Tick)
    ensures
        silence ==> t == Tick::StandDown && final(files).newest() == old(files).newest()
            && final(files).count() == old(files).count(),
        !silence ==> ({
            let moved = newest_of(touched@) != old(files).newest() || touched@.len() != old(
                files,
            ).count();
            &&& final(files).newest() == newest_of(touched@)
            &&& final(files).count() == touched@.len()
            &&& t == if moved {
                Tick::Reread
            } else if settled {
                Tick::Look
            } else {
                Tick::Rest
            }
        }),
{
    if silence {
        return Tick::StandDown;
    }
    if files.changed(touched) {
        return Tick::Reread;
    }
    if settled {
        Tick::Look
    } else {
        Tick::Rest
    }
}

/// What follows the line ending.
#[derive(Clone, Copy, Debug, PartialEq, Eq, Structural)]
pub struct Afterwards {
    /// The trouble, if there was any, is over: say so if it had been said.
    pub mended: bool,
    /// Read the levels again before opening it.
    pub reread: bool,
    /// Open a fresh connection: **the connection itself may be what died**.
    pub reconnect: bool,
    /// Wait before opening it again. **Not after he sent a level** — he is
    /// standing there having just sent it.
    pub pause: bool,
}

/// What follows the line ending: `Some` with how it closed, `None` when it
/// broke.
pub fn afterwards(ended: Option<Closed>) -> (a: Afterwards)
    ensures
        a.mended == ended is Some,
        a.reconnect == ended is None,
        a.reread == (ended == Some(Closed::LevelsChanged)),
        a.pause == (ended != Some(Closed::LevelsChanged)),
{
    match ended {
        Some(Closed::Line) => Afterwards { mended: true, reread: false, reconnect: false, pause: true },
        Some(Closed::LevelsChanged) => Afterwards {
            mended: true,
            reread: true,
            reconnect: false,
            pause: false,
        },
        None => Afterwards { mended: false, reread: false, reconnect: true, pause: true },
    }
}

} // verus!
