//! The embedded-flash driver behind the update and boot seams.

pub mod bus;
pub mod controller_laws;
pub mod driver;
pub mod laws;
pub mod model;
pub mod record_laws;
pub mod records;
pub mod regs;
