//! **Reading the levels again**: which watched pair a levels file belongs to.

use vstd::prelude::*;

use crate::text::chars_of;

verus! {

/// A symbol with its slashes taken out — how a pair's file is named.
pub open spec fn without_slashes(s: Seq<char>) -> Seq<char>
    decreases s.len(),
{
    if s.len() == 0 {
        Seq::empty()
    } else if s.last() == '/' {
        without_slashes(s.drop_last())
    } else {
        without_slashes(s.drop_last()).push(s.last())
    }
}

/// Whether `symbol`, slashes taken out, is `stem`.
fn names(symbol: &String, stem: &Vec<char>) -> (b: bool)
    ensures
        b == (without_slashes(symbol@) == stem@),
{
    let chars = chars_of(symbol.as_str());
    let mut kept: Vec<char> = Vec::new();
    let mut i: usize = 0;
    while i < chars.len()
        invariant
            0 <= i <= chars@.len(),
            kept@ == without_slashes(chars@.take(i as int)),
        decreases chars@.len() - i,
    {
        assert(chars@.take(i + 1).drop_last() == chars@.take(i as int));
        if chars[i] != '/' {
            kept.push(chars[i]);
        }
        i = i + 1;
    }
    assert(chars@.take(chars@.len() as int) == chars@);
    if kept.len() != stem.len() {
        return false;
    }
    let mut k: usize = 0;
    while k < kept.len()
        invariant
            kept@.len() == stem@.len(),
            kept@ == without_slashes(symbol@),
            0 <= k <= kept@.len(),
            forall|j: int| 0 <= j < k ==> kept@[j] == stem@[j],
        decreases kept@.len() - k,
    {
        if kept[k] != stem[k] {
            assert(kept@[k as int] != stem@[k as int]);
            return false;
        }
        k = k + 1;
    }
    assert(kept@ =~= stem@);
    true
}

/// **Which watched pair a file belongs to**, by name: the first of
/// `symbols` that, with its slashes taken out, is `stem`.
///
/// A file is named by taking the slashes out of the symbol — `XAU/USD` is
/// `XAUUSD.toml` — so the stem is never the key itself.
pub fn watched_as(symbols: &[String], stem: &str) -> (found: Option<String>)
    ensures
        match found {
            Some(s) => exists|i: int|
                0 <= i < symbols@.len() && symbols@[i]@ == s@ && without_slashes(s@) == stem@
                    && forall|j: int| 0 <= j < i ==> without_slashes(#[trigger] symbols@[j]@) != stem@,
            None => forall|i: int|
                0 <= i < symbols@.len() ==> without_slashes(#[trigger] symbols@[i]@) != stem@,
        },
{
    let wanted = chars_of(stem);
    let mut i: usize = 0;
    while i < symbols.len()
        invariant
            0 <= i <= symbols@.len(),
            wanted@ == stem@,
            forall|j: int| 0 <= j < i ==> without_slashes(#[trigger] symbols@[j]@) != stem@,
        decreases symbols@.len() - i,
    {
        if names(&symbols[i], &wanted) {
            let s = symbols[i].clone();
            assert(symbols@[i as int]@ == s@);
            return Some(s);
        }
        i = i + 1;
    }
    None
}

/// What reading one levels file comes to.
#[derive(Clone, Copy, Debug, PartialEq, Eq, Structural)]
pub enum Step {
    /// Keep watching what the pair already had, as it was.
    KeepOld,
    /// The feed would not size its bands: say so, and keep what it had, if
    /// anything.
    NotSized,
    /// Its bands are new: watch them, and say it is armed.
    Arm,
    /// Nothing is watched for this file.
    Nothing,
}

/// What to do with one levels file. `read` is whether it read; `had`
/// whether the pair was already watched (for a file that will not read, by
/// its name: see `watched_as`); `same_levels` whether its levels are the
/// ones it was watched with; `sized` what sizing its bands gave — `None`
/// when the feed would not answer, else whether any band came back.
///
/// **One unreadable file must not take the others down**, and a pair it
/// cannot read or size keeps what it had rather than stopping. **A pair
/// whose levels are untouched keeps its watch**, and so never announces a
/// zone price is already sitting in. Sizing is only asked about when the
/// pair has to be built.
pub fn on_reading(read: bool, had: bool, same_levels: bool, sized: Option<bool>) -> (s: Step)
    ensures
        !read && had ==> s == Step::KeepOld,
        !read && !had ==> s == Step::Nothing,
        read && had && same_levels ==> s == Step::KeepOld,
        read && !(had && same_levels) && sized is None ==> s == Step::NotSized,
        read && !(had && same_levels) && sized == Some(true) ==> s == Step::Arm,
        read && !(had && same_levels) && sized == Some(false) ==> s == Step::Nothing,
{
    if !read {
        return if had { Step::KeepOld } else { Step::Nothing };
    }
    if had && same_levels {
        return Step::KeepOld;
    }
    match sized {
        None => Step::NotSized,
        Some(true) => Step::Arm,
        Some(false) => Step::Nothing,
    }
}

} // verus!
