//! The parts of a Rocket League Stats API payload that the decoding logic
//! reads, as plain values. The app fills them from the JSON it receives:
//! a text field is `Some` when the JSON value is a string, an integer field
//! when it is an integer that fits in `i64`, a flag when it is a boolean.

use vstd::prelude::*;

verus! {

/// One entry of `UpdateState.Players[]`.
#[derive(Debug, Clone, Default, PartialEq, Eq)]
pub struct PlayerTick {
    pub name: Option<String>,
    pub primary_id: Option<String>,
    pub team_num: Option<i64>,
    pub goals: Option<i64>,
    pub shots: Option<i64>,
    pub saves: Option<i64>,
    pub assists: Option<i64>,
    pub score: Option<i64>,
    pub demos: Option<i64>,
}

/// One entry of `UpdateState.Game.Teams[]`.
#[derive(Debug, Clone, Copy, Default, PartialEq, Eq)]
pub struct TeamTick {
    pub team_num: Option<i64>,
    pub score: Option<i64>,
}

/// `UpdateState.Game`.
#[derive(Debug, Clone, Default, PartialEq, Eq)]
pub struct GameTick {
    pub arena: Option<String>,
    /// `None` when `Teams` is missing or not an array.
    pub teams: Option<Vec<TeamTick>>,
    pub time_seconds: Option<i64>,
    pub overtime: Option<bool>,
}

/// A `Name` / `TeamNum` pair naming a player inside an event payload.
#[derive(Debug, Clone, Default, PartialEq, Eq)]
pub struct PlayerRef {
    pub name: Option<String>,
    pub team_num: Option<i64>,
}

/// A `StatfeedEvent` payload.
#[derive(Debug, Clone, Default, PartialEq, Eq)]
pub struct StatfeedTick {
    pub event_name: Option<String>,
    pub type_label: Option<String>,
    pub main_target: Option<PlayerRef>,
    pub secondary_target: Option<PlayerRef>,
}

/// The text of an optional string field, or the empty text.
pub open spec fn str_or_empty(o: Option<String>) -> Seq<char> {
    match o {
        Some(s) => s@,
        None => seq![],
    }
}

} // verus!
