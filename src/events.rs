use vstd::prelude::*;

verus! {

/// Number of rows removed by one lock.
#[derive(Debug, Clone, Copy, Default, PartialEq, Eq, Structural)]
pub struct RowClearedEvent(pub u32);

impl RowClearedEvent {
    pub fn new(v: u32) -> (r: RowClearedEvent)
        ensures
            r.0 == v,
    {
        RowClearedEvent(v)
    }
}

impl From<RowClearedEvent> for u32 {
    fn from(v: RowClearedEvent) -> (r: u32)
        ensures
            r == v.0,
    {
        v.0
    }
}

impl vstd::std_specs::convert::FromSpecImpl<RowClearedEvent> for u32 {
    open spec fn obeys_from_spec() -> bool {
        true
    }

    open spec fn from_spec(v: RowClearedEvent) -> u32 {
        v.0
    }
}

/// A board cell, column first.
#[derive(Debug, Clone, Copy, Default, PartialEq, Eq, Structural)]
pub struct Coordinate(pub usize, pub usize);

impl Coordinate {
    pub fn tuple(&self) -> (r: (usize, usize))
        ensures
            r == (self.0, self.1),
    {
        (self.0, self.1)
    }
}

} // verus!
