use vstd::prelude::*;

verus! {

/// Tier of a data file: how far it has been reorganised.
#[derive(Clone, Copy, Debug, PartialEq, Eq, Structural, Hash)]
pub enum CompactionLevel {
    /// Freshly ingested; may overlap other files.
    Initial,
    /// De-overlapped.
    FileNonOverlapped,
    /// Fully merged and sized.
    Final,
}

impl CompactionLevel {
    /// Position of the level in the order `Initial < FileNonOverlapped < Final`.
    pub open spec fn rank(self) -> int {
        match self {
            CompactionLevel::Initial => 0,
            CompactionLevel::FileNonOverlapped => 1,
            CompactionLevel::Final => 2,
        }
    }

    /// The level above, saturating at `Final`.
    pub open spec fn spec_next(self) -> CompactionLevel {
        match self {
            CompactionLevel::Initial => CompactionLevel::FileNonOverlapped,
            _ => CompactionLevel::Final,
        }
    }

    /// The level below, saturating at `Initial`.
    pub open spec fn spec_prev(self) -> CompactionLevel {
        match self {
            CompactionLevel::Final => CompactionLevel::FileNonOverlapped,
            _ => CompactionLevel::Initial,
        }
    }

    pub fn next(self) -> (r: CompactionLevel)
        ensures
            r == self.spec_next(),
    {
        match self {
            CompactionLevel::Initial => CompactionLevel::FileNonOverlapped,
            _ => CompactionLevel::Final,
        }
    }

    pub fn prev(self) -> (r: CompactionLevel)
        ensures
            r == self.spec_prev(),
    {
        match self {
            CompactionLevel::Final => CompactionLevel::FileNonOverlapped,
            _ => CompactionLevel::Initial,
        }
    }

    /// Numeric form of the level (0, 1 or 2).
    pub fn as_u8(self) -> (r: u8)
        ensures
            r as int == self.rank(),
    {
        match self {
            CompactionLevel::Initial => 0,
            CompactionLevel::FileNonOverlapped => 1,
            CompactionLevel::Final => 2,
        }
    }

    /// `self <= other` in the level order.
    pub fn le(self, other: CompactionLevel) -> (r: bool)
        ensures
            r == (self.rank() <= other.rank()),
    {
        self.as_u8() <= other.as_u8()
    }
}

/// An inclusive range of levels.
#[derive(Clone, Copy, Debug, PartialEq, Eq, Structural)]
pub struct LevelRange {
    pub low: CompactionLevel,
    pub high: CompactionLevel,
}

impl LevelRange {
    pub open spec fn spec_contains(self, l: CompactionLevel) -> bool {
        self.low.rank() <= l.rank() && l.rank() <= self.high.rank()
    }

    pub fn new(low: CompactionLevel, high: CompactionLevel) -> (r: LevelRange)
        ensures
            r.low == low,
            r.high == high,
    {
        LevelRange { low, high }
    }

    pub fn contains(&self, l: CompactionLevel) -> (r: bool)
        ensures
            r == self.spec_contains(l),
    {
        self.low.le(l) && l.le(self.high)
    }
}

} // verus!
