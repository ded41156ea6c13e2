//! Rules-state model of an Uno-style card game: cards, the draw deck,
//! players, and the aggregate game state, with verified contracts for
//! deck generation, shuffling, and drawing.

pub mod cards;
pub mod codec;
pub mod game;
pub mod player;

pub use cards::Card;
pub use cards::CardKind;
pub use cards::Color;
pub use game::Game;
pub use player::Player;
