use vstd::prelude::*;

verus! {

/// The catalog's ranking windows.
#[derive(Clone, Copy, Debug, PartialEq, Eq, Structural)]
pub enum Timeframe {
    Short,
    Medium,
    Long,
}

/// The two kinds of ranked entity.
#[derive(Clone, Copy, Debug, PartialEq, Eq, Structural)]
pub enum EntityKind {
    Tracks,
    Artists,
}

/// The stable storage code of a timeframe.
pub open spec fn timeframe_code(tf: Timeframe) -> u8 {
    match tf {
        Timeframe::Short => 0,
        Timeframe::Medium => 1,
        Timeframe::Long => 2,
    }
}

/// Storage code of a timeframe: short 0, medium 1, long 2.
pub fn map_timeframe_to_timeframe_id(tf: Timeframe) -> (r: u8)
    ensures
        r == timeframe_code(tf),
{
    match tf {
        Timeframe::Short => 0,
        Timeframe::Medium => 1,
        Timeframe::Long => 2,
    }
}

impl Timeframe {
    /// The window's name as the catalog API spells it in a query.
    pub fn name(self) -> (r: &'static str)
        ensures
            self == Timeframe::Short ==> r@ == "short"@,
            self == Timeframe::Medium ==> r@ == "medium"@,
            self == Timeframe::Long ==> r@ == "long"@,
    {
        proof {
            reveal_strlit("short");
            reveal_strlit("medium");
            reveal_strlit("long");
        }
        match self {
            Timeframe::Short => "short",
            Timeframe::Medium => "medium",
            Timeframe::Long => "long",
        }
    }
}

impl EntityKind {
    /// The entity kind's name as the catalog API spells it in a path.
    pub fn name(self) -> (r: &'static str)
        ensures
            self == EntityKind::Tracks ==> r@ == "tracks"@,
            self == EntityKind::Artists ==> r@ == "artists"@,
    {
        proof {
            reveal_strlit("tracks");
            reveal_strlit("artists");
        }
        match self {
            EntityKind::Tracks => "tracks",
            EntityKind::Artists => "artists",
        }
    }
}

} // verus!
