//! Game engine for two four-in-a-row variants: the classic discs game and a
//! letter game in which each piece carries a T or an O.

pub mod board;
pub mod game;
pub mod model;
mod random;
pub mod records;
pub mod slot;
