use vstd::prelude::*;

use crate::strutil::str_eq;

verus! {

/// Region a scrim request is looking in. Modeled as an open enumeration:
/// more regions may be added without touching the matching logic.
#[derive(Clone, Copy, Debug, PartialEq, Eq, Structural)]
pub enum Region {
    EU,
    NA,
}

/// Platform a scrim request is looking on.
#[derive(Clone, Copy, Debug, PartialEq, Eq, Structural)]
pub enum Platform {
    PC,
    Console,
}

impl Region {
    /// The canonical name of the region, as stored and displayed.
    pub open spec fn spec_name(self) -> Seq<char> {
        match self {
            Region::EU => "EU"@,
            Region::NA => "NA"@,
        }
    }

    pub fn name(&self) -> (r: &'static str)
        ensures
            r@ == self.spec_name(),
    {
        match self {
            Region::EU => "EU",
            Region::NA => "NA",
        }
    }

    /// Parses a canonical region name; inverse of `name`.
    pub fn from_name(s: &str) -> (r: Option<Region>)
        ensures
            r matches Some(v) ==> s@ == v.spec_name(),
            r is None ==> (forall|v: Region| s@ != v.spec_name()),
    {
        if str_eq(s, "EU") {
            Some(Region::EU)
        } else if str_eq(s, "NA") {
            Some(Region::NA)
        } else {
            assert(forall|v: Region| s@ != v.spec_name());
            None
        }
    }
}

impl Platform {
    /// The canonical name of the platform, as stored and displayed.
    pub open spec fn spec_name(self) -> Seq<char> {
        match self {
            Platform::PC => "PC"@,
            Platform::Console => "Console"@,
        }
    }

    pub fn name(&self) -> (r: &'static str)
        ensures
            r@ == self.spec_name(),
    {
        match self {
            Platform::PC => "PC",
            Platform::Console => "Console",
        }
    }

    /// Parses a canonical platform name; inverse of `name`.
    pub fn from_name(s: &str) -> (r: Option<Platform>)
        ensures
            r matches Some(v) ==> s@ == v.spec_name(),
            r is None ==> (forall|v: Platform| s@ != v.spec_name()),
    {
        if str_eq(s, "PC") {
            Some(Platform::PC)
        } else if str_eq(s, "Console") {
            Some(Platform::Console)
        } else {
            assert(forall|v: Platform| s@ != v.spec_name());
            None
        }
    }
}

/// An inclusive rank interval; collapses to a point when `start == end`.
/// Ranks are in plain points, so `4.3k` is 4300.
#[derive(Clone, Copy, Debug, PartialEq, Eq, Structural)]
pub struct RankRange {
    pub start: u32,
    pub end: u32,
}

impl RankRange {
    /// A well-formed range does not run backwards.
    pub open spec fn wf(self) -> bool {
        self.start <= self.end
    }

    /// The midpoint of the interval, rounded down.
    pub open spec fn spec_midpoint(self) -> int {
        (self.start + self.end) / 2
    }

    pub fn midpoint(&self) -> (r: u32)
        ensures
            r == self.spec_midpoint(),
    {
        (((self.start as u64) + (self.end as u64)) / 2) as u32
    }
}

/// The mathematical value of a scrim request: every field as a plain value.
pub struct ScrimView {
    pub id: int,
    pub creator_id: int,
    pub team_name: Option<Seq<char>>,
    pub region: Region,
    pub platform: Platform,
    pub rank_from: int,
    pub rank_to: int,
    /// Scheduled instant, as seconds since the Unix epoch (UTC).
    pub time: int,
    pub match_id: Option<int>,
    pub cancelled: bool,
}

/// A user's open or resolved request to scrim.
///
/// `match_id` is a directed "I have proposed to you" edge: request A pointing
/// at B does not imply B points back at A. `cancelled` is a soft-delete flag;
/// records are never physically removed from the store.
#[derive(Debug)]
pub struct LookingForScrim {
    pub id: i32,
    pub creator_id: i64,
    pub team_name: Option<String>,
    pub region: Region,
    pub platform: Platform,
    pub range: RankRange,
    /// Scheduled instant, as seconds since the Unix epoch (UTC).
    pub time: i64,
    pub match_id: Option<i32>,
    pub cancelled: bool,
}

impl View for LookingForScrim {
    type V = ScrimView;

    open spec fn view(&self) -> ScrimView {
        ScrimView {
            id: self.id as int,
            creator_id: self.creator_id as int,
            team_name: match self.team_name {
                Some(ref n) => Some(n@),
                None => None,
            },
            region: self.region,
            platform: self.platform,
            rank_from: self.range.start as int,
            rank_to: self.range.end as int,
            time: self.time as int,
            match_id: match self.match_id {
                Some(m) => Some(m as int),
                None => None,
            },
            cancelled: self.cancelled,
        }
    }
}

impl Clone for LookingForScrim {
    fn clone(&self) -> (r: Self)
        ensures
            r@ == self@,
    {
        LookingForScrim {
            id: self.id,
            creator_id: self.creator_id,
            team_name: match &self.team_name {
                Some(n) => Some(n.clone()),
                None => None,
            },
            region: self.region,
            platform: self.platform,
            range: self.range,
            time: self.time,
            match_id: self.match_id,
            cancelled: self.cancelled,
        }
    }
}

impl ScrimView {
    /// The midpoint of the rank interval, rounded down.
    pub open spec fn midpoint(self) -> int {
        (self.rank_from + self.rank_to) / 2
    }
}

} // verus!
