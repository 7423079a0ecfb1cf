//! Rocket League replay verification and analysis: the logic of the tools,
//! with contracts checked by Verus.

pub mod boost;
pub mod cache;
pub mod bot;
pub mod digest;
pub mod dribble;
pub mod kickoff;
pub mod merkle;
pub mod overview;
pub mod parser;
pub mod replay;
pub mod rotation;
pub mod signing;
pub mod synchrony;
pub mod tracking;
