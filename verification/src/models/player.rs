//! Pilots seen in a recording.

use vstd::prelude::*;

verus! {

/// What a [`PlayerInfo`] holds, as character sequences. Times are kept as
/// the decimal text that the recording gave for them.
pub struct PlayerModel {
    pub name: Seq<char>,
    pub vehicle: Seq<char>,
    pub creation_time: Seq<char>,
    /// `None` while the pilot has not been seen leaving.
    pub deletion_time: Option<Seq<char>>,
    /// `None` while the pilot's time in the game is not worked out.
    pub time_in_game: Option<Seq<char>>,
}

/// A whitelisted pilot: who, in which aircraft, and when the pilot's object
/// was created and removed.
pub struct PlayerInfo {
    pub name: String,
    pub vehicle: String,
    pub creation_time: String,
    pub deletion_time: Option<String>,
    /// Not worked out while the recording is read: always `None` here.
    pub time_in_game: Option<String>,
}

pub open spec fn option_string_view(t: Option<String>) -> Option<Seq<char>> {
    match t {
        Some(s) => Some(s@),
        None => None,
    }
}

impl View for PlayerInfo {
    type V = PlayerModel;

    open spec fn view(&self) -> PlayerModel {
        PlayerModel {
            name: self.name@,
            vehicle: self.vehicle@,
            creation_time: self.creation_time@,
            deletion_time: option_string_view(self.deletion_time),
            time_in_game: option_string_view(self.time_in_game),
        }
    }
}

impl PlayerInfo {
    /// A pilot created at `creation_time` who has not left yet, with no
    /// time in the game worked out.
    pub fn new(name: String, vehicle: String, creation_time: String) -> (p: Self)
        ensures
            p@ == (PlayerModel {
                name: name@,
                vehicle: vehicle@,
                creation_time: creation_time@,
                deletion_time: None,
                time_in_game: None,
            }),
    {
        PlayerInfo { name, vehicle, creation_time, deletion_time: None, time_in_game: None }
    }

    /// Records that the pilot's object was removed at `time`.
    pub fn mark_deleted(&mut self, time: String)
        ensures
            final(self)@ == (PlayerModel { deletion_time: Some(time@), ..old(self)@ }),
    {
        self.deletion_time = Some(time);
    }
}

/// What a [`PartialPlayerInfo`] holds.
pub struct PartialPlayerModel {
    pub name: Seq<char>,
    pub vehicle: Seq<char>,
}

/// A pilot who is not whitelisted: kept so that the pilot can still be
/// tracked if a later head-tracking line names the same object.
pub struct PartialPlayerInfo {
    pub name: String,
    pub vehicle: String,
}

impl View for PartialPlayerInfo {
    type V = PartialPlayerModel;

    open spec fn view(&self) -> PartialPlayerModel {
        PartialPlayerModel { name: self.name@, vehicle: self.vehicle@ }
    }
}

impl PartialPlayerInfo {
    pub fn new(name: String, vehicle: String) -> (p: Self)
        ensures
            p@ == (PartialPlayerModel { name: name@, vehicle: vehicle@ }),
    {
        Self { name, vehicle }
    }
}

} // verus!
