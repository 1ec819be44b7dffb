//! Client-side engine for a UDP game-server query protocol: binary decoders
//! for the info, player-list and rules responses, multi-fragment reassembly,
//! and the challenge-token handshake steps. All socket work lives outside
//! this crate; the functions here go from bytes to typed records.

pub mod errors;
pub mod exchange;
pub mod info;
pub mod packet;
pub mod players;
pub mod reader;
pub mod rules;
