//! Rules and search engine for Quarto, a two-player game played with sixteen
//! four-attribute pieces on a four-by-four board.

pub mod piece;
pub mod position;
pub mod history;
pub mod playout;
pub mod pcg;
pub mod cycle;
pub mod engine;
pub mod search;
pub mod notation;
pub mod render;
