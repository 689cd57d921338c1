//! Core logic of a status-bar client for a duty-roster service.
//!
//! The crate holds the verified heart of the program: the circular
//! status-order resolver, the renderer that turns a roster snapshot into a
//! templated output line, the template substitution it uses, and the bounded
//! event channel that decouples event producers from the main loop.  All
//! network and terminal I/O lives outside, in the surrounding application,
//! which hands plain values in and takes plain values back.

pub mod api_types;
pub mod channel;
pub mod cycle;
pub mod decimal;
pub mod render;
pub mod split;
pub mod template;
pub mod types;
