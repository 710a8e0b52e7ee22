//! Which build environment to try next: each in order, stopping at the first
//! that succeeds, and reporting the last failure when none does.

use vstd::prelude::*;

verus! {

/// What the driver does next.
#[derive(Debug, Clone, Copy, PartialEq, Eq, Structural)]
pub enum Attempt {
    /// Try the environment with this index.
    Try(usize),
    /// The environment with this index succeeded: use its result.
    Succeeded(usize),
    /// Every environment failed; the index is that of the last one tried, and
    /// there is none when there was no environment at all.
    Failed(Option<usize>),
}

/// The first step over `count` environments.
pub fn first_attempt(count: usize) -> (r: Attempt)
    ensures
        count == 0 ==> r == Attempt::Failed(None),
        count > 0 ==> r == Attempt::Try(0),
{
    if count == 0 {
        Attempt::Failed(None)
    } else {
        Attempt::Try(0)
    }
}

/// The step after environment `index` of `count` succeeded or failed.
pub fn after_attempt(count: usize, index: usize, succeeded: bool) -> (r: Attempt)
    requires
        index < count,
    ensures
        succeeded ==> r == Attempt::Succeeded(index),
        !succeeded && index + 1 < count ==> r == Attempt::Try((index + 1) as usize),
        !succeeded && index + 1 == count ==> r == Attempt::Failed(Some(index)),
{
    if succeeded {
        Attempt::Succeeded(index)
    } else if index + 1 < count {
        Attempt::Try(index + 1)
    } else {
        Attempt::Failed(Some(index))
    }
}

} // verus!
