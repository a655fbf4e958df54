//! A turn-based card-drafting game engine: card catalog, player zones and the
//! shared supply, the effect resolver with pending plays, attacks and Moat
//! reactions, the turn state machine, scoring, and the message handling that
//! lets independently running player logic drive the game.

pub mod card;
pub mod error;
pub mod zones;
pub mod engine;
pub mod effects;
pub mod game;
pub mod play;
pub mod turn;
pub mod protocol;
pub mod strat;
