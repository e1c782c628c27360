//! Time-based one-time passwords (TOTP) built on HOTP dynamic truncation.
pub mod algorithm;
pub mod codec;
pub mod generator;
