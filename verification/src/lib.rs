//! A verified parser and validator for plain-text Pac-Man-style level maps.
//!
//! The pipeline turns raw text into a rectangular character grid, locates the
//! single ghost-spawn block and the single Pac-Man spawn pair, validates the
//! warp-tunnel digit pairs, encodes every cell into a numeric board, and
//! derives the initial entity positions.  Every structural violation is
//! reported as one precise [`errors::PacError`] kind.

pub mod board;
pub mod encode;
pub mod errors;
pub mod game;
pub mod ghost;
pub mod grid;
pub mod laws;
pub mod pac;
pub mod warp;
