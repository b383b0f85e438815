//! Verified firmware core of the PatinaKey hardware security key.

pub mod arch;
pub mod boot;
pub mod flash;
pub mod image;
pub mod layout;
pub mod spi;
pub mod update;
