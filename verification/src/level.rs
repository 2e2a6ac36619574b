//! Severity levels of flash messages and their total order.

use vstd::prelude::*;

verus! {

/// Verbosity level of a flash message, in ascending severity:
/// `Debug < Info < Success < Warning < Error`.
#[derive(Clone, Copy, Debug, PartialEq, Eq, Ord, Structural)]
pub enum Level {
    Debug,
    Info,
    Success,
    Warning,
    Error,
}

/// The ordinal of a level in the ascending severity order; this is also
/// the integer the wire format carries for the level.
pub open spec fn level_rank(l: Level) -> int {
    match l {
        Level::Debug => 0,
        Level::Info => 1,
        Level::Success => 2,
        Level::Warning => 3,
        Level::Error => 4,
    }
}

impl Level {
    /// The wire ordinal of this level.
    pub fn ordinal(self) -> (r: u8)
        ensures
            r as int == level_rank(self),
    {
        match self {
            Level::Debug => 0,
            Level::Info => 1,
            Level::Success => 2,
            Level::Warning => 3,
            Level::Error => 4,
        }
    }

    /// The level with the given wire ordinal, if the ordinal is in range.
    pub fn from_ordinal(d: u8) -> (r: Option<Level>)
        ensures
            r matches Some(l) ==> level_rank(l) == d as int,
            d <= 4 ==> r is Some,
            d > 4 ==> r is None,
    {
        match d {
            0 => Some(Level::Debug),
            1 => Some(Level::Info),
            2 => Some(Level::Success),
            3 => Some(Level::Warning),
            4 => Some(Level::Error),
            _ => None,
        }
    }
}

impl PartialOrd for Level {
    fn partial_cmp(&self, other: &Self) -> (r: Option<core::cmp::Ordering>) {
        let a = self.ordinal();
        let b = other.ordinal();
        if a < b {
            Some(core::cmp::Ordering::Less)
        } else if a == b {
            Some(core::cmp::Ordering::Equal)
        } else {
            Some(core::cmp::Ordering::Greater)
        }
    }
}

impl vstd::std_specs::cmp::PartialOrdSpecImpl for Level {
    open spec fn obeys_partial_cmp_spec() -> bool {
        true
    }

    open spec fn partial_cmp_spec(&self, other: &Self) -> Option<core::cmp::Ordering> {
        if level_rank(*self) < level_rank(*other) {
            Some(core::cmp::Ordering::Less)
        } else if level_rank(*self) == level_rank(*other) {
            Some(core::cmp::Ordering::Equal)
        } else {
            Some(core::cmp::Ordering::Greater)
        }
    }
}

/// Two levels are equal exactly when their ranks are equal, and the order
/// `Debug < Info < Success < Warning < Error` holds rank-wise.
pub proof fn lemma_level_order()
    ensures
        forall|a: Level, b: Level| a == b <==> level_rank(a) == level_rank(b),
        level_rank(Level::Debug) < level_rank(Level::Info)
            < level_rank(Level::Success) < level_rank(Level::Warning)
            < level_rank(Level::Error),
{
    assert forall|a: Level, b: Level| a == b <==> level_rank(a) == level_rank(b) by {
        if level_rank(a) == level_rank(b) {
            match a {
                Level::Debug => assert(b is Debug),
                Level::Info => assert(b is Info),
                Level::Success => assert(b is Success),
                Level::Warning => assert(b is Warning),
                Level::Error => assert(b is Error),
            }
        }
    }
}

} // verus!
