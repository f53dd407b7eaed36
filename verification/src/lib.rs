//! Rules engine for a hand-passing card game played by two to five people:
//! deck and dealing, per-player selection and turn resolution, round scoring,
//! the turn / round / game state machine, the keeper of the countdowns that
//! force a stalled turn to end, and the wire format of the events.

pub mod countdown;
pub mod create;
pub mod deck;
pub mod game;
pub mod player;
pub mod request;
pub mod round;
pub mod scoring;
pub mod types;
pub mod wire;

pub use countdown::{Countdown, CountdownAction, Countdowns};
pub use create::CreateGameError;
pub use game::Game;
pub use player::{Player, SelectCardsError};
pub use scoring::score_round;
pub use types::{
    Card, FaceUpCard, GameEvent, GameId, GameView, Hand, MakiRolls, Nigiri, OpponentView,
    PlayerView, RoundOver, UserId,
};
