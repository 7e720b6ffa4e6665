//! A multi-room presence and broadcast coordinator.
//!
//! Clients connect, land in a lobby, create or join rooms, chat with the
//! other members of their room and run a capacity-gated ready check.
//! [`server::ChatServer`] is the single owner of the connection registry and
//! of the rooms; [`session::WsChatSession`] interprets one client's text
//! commands and heartbeats. Both are plain state machines: the caller
//! performs the deliveries and the requests that they hand back.
pub mod ids;
pub mod laws;
pub mod room;
pub mod server;
pub mod session;
pub mod text;
