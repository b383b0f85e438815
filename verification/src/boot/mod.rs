//! The immutable first boot stage: verify the running bank, confirm or revert a
//! pending swap, and hand off.

pub mod decision;
pub mod glue;
pub mod health;
pub mod key;
pub mod laws;
pub mod seam;
pub mod secwm;
