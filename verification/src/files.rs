//! **Noticing he has sent a level**, without being restarted: how many pair
//! files there are, and the newest time any of them was touched.

use vstd::prelude::*;

verus! {

/// The later of two touches, where either may be unknown.
pub open spec fn later(a: Option<i128>, b: Option<i128>) -> Option<i128> {
    match (a, b) {
        (None, b) => b,
        (a, None) => a,
        (Some(x), Some(y)) => Some(if x >= y { x } else { y }),
    }
}

/// The newest of the times files were touched, leaving out the ones that
/// could not be read; `None` when none could.
pub open spec fn newest_of(touched: Seq<Option<i128>>) -> Option<i128>
    decreases touched.len(),
{
    if touched.len() == 0 {
        None
    } else {
        later(newest_of(touched.drop_last()), touched.last())
    }
}

/// Remembers how the levels folder looked, so a change can be spotted.
///
/// **By the clock on the files, not by reading them.**
pub struct Files {
    newest: Option<i128>,
    count: usize,
}

/// The newest touch among `touched`, and how many files there are.
fn state(touched: &[Option<i128>]) -> (r: (Option<i128>, usize))
    ensures
        r.0 == newest_of(touched@),
        r.1 == touched@.len(),
{
    let mut newest: Option<i128> = None;
    let mut i: usize = 0;
    while i < touched.len()
        invariant
            0 <= i <= touched@.len(),
            newest == newest_of(touched@.take(i as int)),
        decreases touched@.len() - i,
    {
        assert(touched@.take(i + 1).drop_last() == touched@.take(i as int));
        newest = match (newest, touched[i]) {
            (None, b) => b,
            (a, None) => a,
            (Some(x), Some(y)) => Some(if x >= y { x } else { y }),
        };
        i = i + 1;
    }
    assert(touched@.take(touched@.len() as int) == touched@);
    (newest, touched.len())
}

impl Files {
    /// The newest touch it last saw.
    pub closed spec fn newest(&self) -> Option<i128> {
        self.newest
    }

    /// How many files it last saw.
    pub closed spec fn count(&self) -> nat {
        self.count as nat
    }

    /// How the folder looks now. `touched` holds, for each pair file, when
    /// it was last changed (nanoseconds from the Unix epoch), or `None` where
    /// that could not be read.
    pub fn look(touched: &[Option<i128>]) -> (f: Files)
        ensures
            f.newest() == newest_of(touched@),
            f.count() == touched@.len(),
    {
        let (newest, count) = state(touched);
        Files { newest, count }
    }

    /// Has anything been added, changed or removed since the last look?
    ///
    /// **The count matters as well as the clock**: a file deleted leaves every
    /// remaining time exactly as it was.
    pub fn changed(&mut self, touched: &[Option<i128>]) -> (moved: bool)
        ensures
            moved == (newest_of(touched@) != old(self).newest() || touched@.len() != old(self).count()),
            final(self).newest() == newest_of(touched@),
            final(self).count() == touched@.len(),
    {
        let (newest, count) = state(touched);
        let moved = newest != self.newest || count != self.count;
        self.newest = newest;
        self.count = count;
        moved
    }
}

} // verus!
