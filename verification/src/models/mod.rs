//! The state that is built while a recording is read.

pub mod game_state;
pub mod player;
pub mod position;
pub mod weapons;


pub use player::{PartialPlayerInfo, PartialPlayerModel, PlayerInfo, PlayerModel};
pub use position::{Position, PositionModel};
pub use weapons::WeaponCounts;
pub use game_state::{GameModel, GameState, ParsingResult};
