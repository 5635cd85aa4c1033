//! A two-player battleship game: the shared wire protocol, the server's
//! board validation, session and matchmaking decisions, and the client's
//! coordinate input and board layout.

pub mod protocol;
pub mod game;
pub mod fleet;
pub mod symmetry;
pub mod session;
pub mod manager;
pub mod server;
pub mod client;
