//! Decentralised, time-ordered identifiers.
//!
//! A [`Generator`] holds a six-byte seed and two shared counters. Each identifier is
//! fifteen bytes (a 48-bit millisecond timestamp, the seed, a 24-bit sequence number,
//! every field big-endian) written as URL-safe base64 text.
pub mod clock;
pub mod encoding;
pub mod generator;
pub mod history;
pub mod layout;
pub mod order;
pub mod seed;

pub use generator::Generator;
pub use generator::SnowFlaker;
pub use seed::get_non_loopback_address;
