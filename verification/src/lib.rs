//! An in-memory store of string values under string keys, each with an
//! optional time to live, driven by one-line text commands.
//!
//! * [`store`] holds the engine: a [`store::Store`] applies a
//!   [`store::Command`] and gives a [`store::Response`].
//! * [`model`] says what that means: the store as a map, and each command as
//!   a change of the map and an answer. [`laws`] holds what follows.
//! * [`pattern`] matches keys against the patterns of `KEYS`.
//! * [`protocol`] reads a line of text as a command.
//! * [`session`] puts these together for one turn of a conversation, and
//!   shows the answer as text.
//! * [`text`] has the few operations on characters that the others share.
//!
//! Keys are dropped lazily: a key whose deadline has come stays in the store
//! until a command that asks about it finds it dead. Instants are counted in
//! nanoseconds on a clock of the store's own; every command can also be
//! applied at an instant of the caller's choosing.

pub mod text;
pub mod pattern;
pub mod model;
mod clock;
pub mod store;
pub mod protocol;
pub mod session;
pub mod laws;
