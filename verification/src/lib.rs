//! A rules engine for a two-player, turn-based trading-card game.
//!
//! The engine enforces legality of player actions, sequences the game through
//! fixed turn steps, resolves a priority-gated stack of pending effects, and
//! computes combat outcomes including first strike, double strike, trample
//! and deathtouch interactions.

pub mod abilities;
pub mod action;
pub mod card;
pub mod events;
pub mod game;
pub mod laws;
pub mod mana;
pub mod storage;
pub mod turn;
