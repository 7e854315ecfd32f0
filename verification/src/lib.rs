//! Probability and decision engine for a two-player duel card game played on
//! a line of board positions.
//!
//! Players hold cards of rank one to five and spend them to move by the rank
//! or to attack at the distance of the rank. From the cards that have been
//! seen so far the engine works out, as exact fractions, what the opponent
//! may hold, how safe and how winning an action is, and which action to take.
//!
//! - [`cards`], [`action`], [`rest`], [`hand`]: the values of the game.
//! - [`fraction`], [`combinatorics`]: exact fractions and the counting behind
//!   the chances.
//! - [`algorithm`]: the table of chances, safety and winning.
//! - [`algorithm2`]: which ranks may be spent, and the moves for the opening
//!   and the middle of a round.
//! - [`rules`], [`evaluation`]: what the board allows, the choices that go by
//!   rule, and the worth of each move next to the others.

pub mod action;
pub mod algorithm;
pub mod algorithm2;
pub mod cards;
pub mod combinatorics;
pub mod evaluation;
pub mod fraction;
pub mod hand;
pub mod rest;
pub mod rules;

pub use action::{Action, Attack, Direction, Movement};
pub use cards::{CardID, Maisuu, HANDS_DEFAULT_U64, HANDS_DEFAULT_U8};
pub use fraction::Fraction;
pub use rest::RestCards;
