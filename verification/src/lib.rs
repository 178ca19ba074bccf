//! Core engine of a turn-based tile-matching puzzle.
//!
//! Two columns of tiles, each tile carrying a hidden nature, must be brought
//! into alignment by playing single-use cards; every card encodes a reversible
//! column transformation. Puzzles are generated backwards from the solved
//! state, so a winning sequence of cards always exists among those dealt.
//!
//! The crate is organised bottom-up: [`column`] holds the column data model
//! and the sequence transforms, [`action`] the action algebra and its
//! forward/inverse application, [`generator`] the solvable-puzzle generator,
//! and [`controller`] the match state machine driven by player input.

pub mod action;
pub mod controller;
pub mod generator;
pub mod spring;
pub mod column;
