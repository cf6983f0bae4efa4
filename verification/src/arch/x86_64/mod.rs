//! x86_64: page table entry encodings.
pub mod e820;
pub mod page_fault;
pub mod paging;
pub mod user_tables;
pub mod teardown;
