//! A blackjack engine for a chat bot: cards and shoes, hand scoring, the
//! per-player game state machine, and the session table that keeps one game
//! per player and archives finished ones.

pub mod accounts;
pub mod bot;
pub mod cards;
pub mod command;
pub mod game;
pub mod render;
pub mod scoring;

pub use accounts::Account;
pub use bot::{has_bot_mention, has_command, CryptoJackBot};
pub use cards::{Card, Deck, Suit};
pub use command::{parse_command, parse_wager, Command};
pub use game::{Game, GameState, MAX_WAGER};
pub use render::join_cards;
pub use scoring::score_hand;
