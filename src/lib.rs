//! Correlation engine for a mesh-radio syslog bridge.
//!
//! Syslog lines emitted by a mesh node are split into identifier and content,
//! classified as node-info updates, transport-metadata lines or text-message
//! lines, and joined per packet id into notifications that respect the
//! forwarding policy and the relay anti-loop rule.
pub mod bridge;
pub mod clock;
pub mod config;
pub mod envelope;
pub mod fields;
pub mod lang;
pub mod laws;
pub mod lines;
pub mod tables;
pub mod template;
pub mod text;

pub use bridge::{handle_datagram, handle_line, Dispatch, MessageData, Policy, TextOutcome};
pub use clock::now;
pub use config::{Config, TelegramConfig};
pub use envelope::{parse_envelope, parse_syslog_message, EnvelopeError};
pub use lang::localize_bool;
pub use tables::{NodeDirectory, PendingTable};
pub use template::unescape_template;
