//! Evaluation of riichi-mahjong hands: every way of splitting a hand into
//! groups, the winning shapes among them, the wait each one implies, and the
//! scoring that follows.

pub mod mentsu;
pub mod parser;
pub mod player_state;
pub mod score;
pub mod tile;
pub mod win_wait;
pub mod yaku;
