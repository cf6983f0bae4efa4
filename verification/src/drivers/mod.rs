//! Disk drivers.
pub mod ahci;
pub mod ide;
