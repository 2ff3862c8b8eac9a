//! Position synchronisation for a small multiplayer game: the text and frame
//! formats that carry player coordinates, the server's position store and
//! command handling, and the client's push/pull schedule with its cache of
//! remote players.
//!
//! Everything here is plain computation over strings, bytes and integers; the
//! sockets, the runtime and the drawing live with the program that uses it.

pub mod decimal;
pub mod dispatch;
pub mod frame;
pub mod main_state;
pub mod network_client;
pub mod other_player;
pub mod snapshot;
pub mod store;
pub mod text;
