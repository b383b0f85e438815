//! The signed firmware image: its byte format, its encoder and its verifier.

pub mod crypto;
pub mod encode;
pub mod error;
pub mod format;
pub mod fuzz;
pub mod laws;
pub mod segments;
pub mod verify;
