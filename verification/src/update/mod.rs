//! The dual-bank A/B firmware-update state machine and its seams.

pub mod fidelity;
pub mod fuzz;
pub mod laws;
pub mod machine;
pub mod mock;
pub mod seam;
pub mod store_laws;
