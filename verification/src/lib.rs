//! Deterministic core of a two-player rollback-netcode arena game.
//!
//! The crate holds the rules that must agree bit for bit on every peer: the
//! input byte and its decoding, the per-tick collection of local input, the
//! matchmaking state machine, the rollback session that predicts, corrects and
//! replays frames, and the integer part of the simulation step. Everything here
//! is free of I/O, clocks and floating point; a host program feeds in device
//! state and network messages and carries out the requests that come back.
//!
//! - [`input`]: the input symbol, its encoding and decoding, and the
//!   collection of the local players' inputs.
//! - [`transport`]: who is connected, who gets which handle, and who owns the
//!   channel.
//! - [`session`]: matchmaking, up to the start of the match.
//! - [`rollback`]: the session of a running match.
//! - [`model`]: what a session is to its contracts, and what every tick keeps
//!   true of it.
//! - [`replay`]: what the requests of a session do to a simulation, and the
//!   proof that rollback is transparent.
//! - [`wire`]: the bytes of an input message.
//! - [`player`]: the players and the integer part of the simulation step.
//! - [`host`]: a host that carries out requests on the arena.
//! - [`trail`]: a sequence that forgets its beginning.
//! - [`score`]: score keeping for the paddle game.
//! - [`sprite`]: which frame of a sprite sheet the platformer's character shows.
//! - [`level`]: what stands where in the platformer's first level.

pub mod host;
pub mod input;
pub mod level;
pub mod model;
pub mod player;
pub mod replay;
pub mod rollback;
pub mod score;
pub mod session;
pub mod sprite;
pub mod trail;
pub mod transport;
pub mod wire;
