//! The depth of a position.

use std::cmp::Ordering;
use vstd::prelude::*;

verus! {

/// How many frames are open at a position. Every position inside a map or
/// sequence is at least as deep as the position at which it began. Depths
/// are ordered by that number.
#[derive(Clone, Copy, PartialEq, Eq, Ord, Debug, Structural)]
pub struct Depth(pub(crate) usize);

impl View for Depth {
    type V = usize;

    /// The number of open frames.
    closed spec fn view(&self) -> usize {
        self.0
    }
}

impl Depth {
    /// The depth at which no frame is open.
    pub fn root() -> (r: Depth)
        ensures
            r@ == 0,
    {
        Depth(0)
    }

    pub(crate) fn at(level: usize) -> (r: Depth)
        ensures
            r@ == level,
    {
        Depth(level)
    }

    /// The number of open frames.
    pub fn level(&self) -> (r: usize)
        ensures
            r == self@,
    {
        self.0
    }
}

impl PartialOrd for Depth {
    fn partial_cmp(&self, other: &Depth) -> (r: Option<Ordering>) {
        if self.0 < other.0 {
            Some(Ordering::Less)
        } else if self.0 > other.0 {
            Some(Ordering::Greater)
        } else {
            Some(Ordering::Equal)
        }
    }
}

impl vstd::std_specs::cmp::PartialOrdSpecImpl for Depth {
    open spec fn obeys_partial_cmp_spec() -> bool {
        true
    }

    /// A depth is less than another when fewer frames are open at it.
    open spec fn partial_cmp_spec(&self, other: &Depth) -> Option<Ordering> {
        if self@ < other@ {
            Some(Ordering::Less)
        } else if self@ > other@ {
            Some(Ordering::Greater)
        } else {
            Some(Ordering::Equal)
        }
    }
}

} // verus!
