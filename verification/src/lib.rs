//! Media and call-control core of a SIP/RTP stack.
//!
//! `rtp` holds the media path: packet framing, codecs, buffering, telephone
//! events, encryption, control reports and voice detection. `session` holds the
//! call state machine and its events. Every function states what it returns in
//! its contract, and the contracts are proved.
//!
//! The library decides and computes; sockets, clocks, locks, tasks and
//! arithmetic in fractions are the application's.

pub mod error;
pub mod random;
pub mod rtp;
pub mod session;
pub mod text;
pub mod wire;
