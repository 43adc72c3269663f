//! loveletter: an implementation of the card game
//! [Love Letter](http://boardgamegeek.com/boardgame/129622/love-letter), with the
//! rules of a round and of a game stated and proved.

pub mod action;
pub mod config;
pub mod deck;
pub mod game;
pub mod player;
pub mod player_id;
pub mod prompt;
pub mod round;
pub mod round_state;
pub mod text;
pub mod util;

pub use action::{Event, Play, PlayError};
pub use deck::Card;
pub use game::Game;
pub use player_id::PlayerId;
pub use round::{Error as RoundError, Round, RoundResult, TurnOutcome};
pub use round_state::Turn;
