//! Synchronisation core of a collaborative whiteboard server.
//!
//! Clients draw strokes and submit them; the server merges them into one
//! state that every client reads back. A client may ask for a reset, which
//! the server keeps in flight until every client it knows has seen it.
//!
//! - [`model`]: the entities that are exchanged.
//! - [`merge`]: merging a batch of strokes, first writer wins.
//! - [`clients`]: the clients that greeted the server.
//! - [`state`]: the server's state, its transitions and the reset barrier.
//! - [`framer`]: which lines of a connection make up its request.
//! - [`route`]: the handler that a request line names.
//! - [`reply`]: what each handler's request is answered with.
//! - [`response`]: the head of a reply.
//! - [`text`]: helpers on the characters of strings.
//!
//! Reading from and writing to connections, and the JSON form of the
//! entities, are left to the program around this library.

pub mod clients;
pub mod framer;
pub mod merge;
pub mod model;
pub mod reply;
pub mod response;
pub mod route;
pub mod state;
pub mod text;

pub use crate::model::{ClientID, Error, Flag, Peer, SPos2, SendLines};
pub use crate::state::State;
