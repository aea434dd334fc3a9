//! The block actor of a game server: client sessions, the fixed set of lobbies
//! with their game sessions, and the correlation of requests sent to the
//! shipgate service with the replies that come back.

pub mod seqs;
pub mod lobby;
pub mod messages;
pub mod block;
pub mod keys;
pub mod laws;
pub mod db_error;
pub mod config;
