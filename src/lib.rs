//! Chatteroo core: station identifiers, epochs and the on-air encoding of
//! protocol commands.

pub mod epoch;
pub mod error;
pub mod global;
pub mod ax25;
pub mod channel;
pub mod checksum;
pub mod codec;
pub mod network;
pub mod station;
pub mod text;
