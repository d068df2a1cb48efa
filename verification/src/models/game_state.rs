//! The state of a recording being read.

use std::collections::HashMap;
use vstd::prelude::*;
use crate::models::player::{PartialPlayerInfo, PartialPlayerModel, PlayerInfo, PlayerModel};
use crate::models::position::{Position, PositionModel};
use crate::models::weapons::WeaponCounts;
use crate::text::float_literal;

verus! {

broadcast use vstd::std_specs::hash::group_hash_axioms;

/// What a [`GameState`] holds.
pub struct GameModel {
    /// The decimal text of the last time mark read.
    pub current_time: Seq<char>,
    pub players: Map<i32, PlayerModel>,
    pub positions: Map<i32, PositionModel>,
    pub partial_players: Map<i32, PartialPlayerModel>,
    pub weapon_stats: Map<i32, Map<Seq<char>, i32>>,
}

/// Each coordinate is text that `str::parse::<f32>()` accepts.
pub open spec fn position_valid(p: PositionModel) -> bool {
    float_literal(p.lat) && float_literal(p.long) && float_literal(p.alt)
}

/// Each time is text that `str::parse::<f64>()` accepts.
pub open spec fn player_valid(p: PlayerModel) -> bool {
    &&& float_literal(p.creation_time)
    &&& p.deletion_time matches Some(t) ==> float_literal(t)
}

/// Every weapon table belongs to one of `owners`, holds at least one
/// weapon, and counts each weapon at least once.
pub open spec fn weapon_tables_valid(stats: Map<i32, Map<Seq<char>, i32>>, owners: Set<i32>) -> bool {
    &&& forall|id: i32| #[trigger] stats.contains_key(id) ==> owners.contains(id)
    &&& forall|id: i32| #[trigger] stats.contains_key(id) ==> exists|w: Seq<char>| #[trigger] stats[id].contains_key(w)
    &&& forall|id: i32, w: Seq<char>|
        #[trigger] stats.contains_key(id) && #[trigger] stats[id].contains_key(w) ==> stats[id][w] >= 1
}

/// The position every pilot starts from when only head tracking announced
/// the pilot: `0`, `0`, `0`.
pub open spec fn origin() -> PositionModel {
    PositionModel { lat: seq!['0'], long: seq!['0'], alt: seq!['0'] }
}

impl GameModel {
    /// A state that reading can reach: every tracked pilot has a position
    /// (and every position belongs to one), every stored number parses, and
    /// weapons are credited only to tracked pilots, each table holding at
    /// least one weapon and every count being at least 1.
    pub open spec fn wf(self) -> bool {
        &&& float_literal(self.current_time)
        &&& self.players.dom() == self.positions.dom()
        &&& forall|id: i32| #[trigger] self.players.contains_key(id) ==> player_valid(self.players[id])
        &&& forall|id: i32| #[trigger] self.positions.contains_key(id) ==> position_valid(self.positions[id])
        &&& weapon_tables_valid(self.weapon_stats, self.players.dom())
    }

    /// Before the first line: time `0`, nobody seen, nothing counted.
    pub open spec fn initial() -> GameModel {
        GameModel {
            current_time: seq!['0'],
            players: Map::empty(),
            positions: Map::empty(),
            partial_players: Map::empty(),
            weapon_stats: Map::empty(),
        }
    }

    /// `id` becomes a tracked pilot, created now, at `pos`.
    pub open spec fn with_player(
        self,
        id: i32,
        name: Seq<char>,
        vehicle: Seq<char>,
        pos: PositionModel,
    ) -> GameModel {
        GameModel {
            players: self.players.insert(
                id,
                PlayerModel {
                    name,
                    vehicle,
                    creation_time: self.current_time,
                    deletion_time: None,
                    time_in_game: None,
                },
            ),
            positions: self.positions.insert(id, pos),
            ..self
        }
    }

    /// `id` is remembered as a pilot who is not tracked.
    pub open spec fn with_world_player(self, id: i32, name: Seq<char>, vehicle: Seq<char>) -> GameModel {
        GameModel {
            partial_players: self.partial_players.insert(id, PartialPlayerModel { name, vehicle }),
            ..self
        }
    }

    /// The tracked pilot `id` left now.
    pub open spec fn with_deletion(self, id: i32) -> GameModel {
        GameModel {
            players: self.players.insert(
                id,
                PlayerModel { deletion_time: Some(self.current_time), ..self.players[id] },
            ),
            ..self
        }
    }
}

/// What reading a whole recording yields.
pub struct ParsingResult {
    pub players: HashMap<i32, PlayerInfo>,
    pub weapon_stats: HashMap<i32, WeaponCounts>,
}

/// The state built while a recording is read.
pub struct GameState {
    /// The decimal text of the last time mark.
    pub current_time: String,
    pub players: HashMap<i32, PlayerInfo>,
    pub positions: HashMap<i32, Position>,
    pub partial_players: HashMap<i32, PartialPlayerInfo>,
    pub weapon_stats: HashMap<i32, WeaponCounts>,
}

pub open spec fn players_view(m: Map<i32, PlayerInfo>) -> Map<i32, PlayerModel> {
    m.map_values(|p: PlayerInfo| p@)
}

pub open spec fn positions_view(m: Map<i32, Position>) -> Map<i32, PositionModel> {
    m.map_values(|p: Position| p@)
}

pub open spec fn partial_players_view(m: Map<i32, PartialPlayerInfo>) -> Map<i32, PartialPlayerModel> {
    m.map_values(|p: PartialPlayerInfo| p@)
}

pub open spec fn weapon_stats_view(m: Map<i32, WeaponCounts>) -> Map<i32, Map<Seq<char>, i32>> {
    m.map_values(|w: WeaponCounts| w@)
}

impl View for GameState {
    type V = GameModel;

    open spec fn view(&self) -> GameModel {
        GameModel {
            current_time: self.current_time@,
            players: players_view(self.players@),
            positions: positions_view(self.positions@),
            partial_players: partial_players_view(self.partial_players@),
            weapon_stats: weapon_stats_view(self.weapon_stats@),
        }
    }
}

impl GameState {
    pub open spec fn wf(&self) -> bool {
        self@.wf()
    }

    /// The state before the first line.
    pub fn new() -> (g: Self)
        ensures
            g@ == GameModel::initial(),
            g.wf(),
    {
        let time = String::from_str("0");
        proof {
            reveal_strlit("0");
        }
        assert(time@ =~= seq!['0']);
        let g = GameState {
            current_time: time,
            players: HashMap::new(),
            positions: HashMap::new(),
            partial_players: HashMap::new(),
            weapon_stats: HashMap::new(),
        };
        assert(players_view(g.players@) =~= Map::empty());
        assert(positions_view(g.positions@) =~= Map::empty());
        assert(partial_players_view(g.partial_players@) =~= Map::empty());
        assert(weapon_stats_view(g.weapon_stats@) =~= Map::empty());
        assert(float_literal(seq!['0'])) by {
            crate::text::lemma_single_digit_literal('0');
        }
        g
    }

    /// Tracks pilot `id`, created at the current time, at `pos`.
    pub fn add_player(&mut self, id: i32, name: String, vehicle: String, pos: Position)
        ensures
            final(self)@ == old(self)@.with_player(id, name@, vehicle@, pos@),
            old(self).wf() && position_valid(pos@) ==> final(self).wf(),
    {
        let ghost pre = self@;
        let info = PlayerInfo::new(name, vehicle, self.current_time.clone());
        let ghost info_view = info@;
        let ghost pos_view = pos@;
        self.players.insert(id, info);
        self.positions.insert(id, pos);
        assert(self@.players =~= pre.players.insert(id, info_view));
        assert(self@.positions =~= pre.positions.insert(id, pos_view));
        assert(self@.players.dom() =~= pre.players.dom().insert(id));
        assert(self@.positions.dom() =~= pre.positions.dom().insert(id));
    }

    /// Remembers pilot `id`, who is not tracked.
    pub fn add_world_player(&mut self, id: i32, name: String, vehicle: String)
        ensures
            final(self)@ == old(self)@.with_world_player(id, name@, vehicle@),
            old(self).wf() ==> final(self).wf(),
    {
        let ghost pre = self@;
        let info = PartialPlayerInfo::new(name, vehicle);
        let ghost info_view = info@;
        self.partial_players.insert(id, info);
        assert(self@.partial_players =~= pre.partial_players.insert(id, info_view));
    }
}

} // verus!
