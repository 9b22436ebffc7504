//! Authoritative game logic of a two-team air-hockey arena server.
//!
//! The library decides; the process around it (physics world, transport,
//! channels) performs. Positions are fixed-point integers so that every
//! rule on them can be stated and proved exactly.
pub mod game;
pub mod geometry;
pub mod registry;
pub mod session;
