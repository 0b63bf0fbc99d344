//! Core logic for a Wake-on-LAN sender: MAC address parsing, magic-packet
//! construction, and the single-slot action dispatcher that serializes
//! user-triggered work against the shared configuration.
//!
//! Everything that touches the operating system (the tray icon, the
//! configuration dialog, the configuration file, the UDP socket) lives
//! outside this crate; the functions here compute the values those edges
//! carry and are verified to do so exactly.

pub mod codec;
pub mod config;
pub mod dispatch;
pub mod packet;
