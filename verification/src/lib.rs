pub mod bytes;
pub mod elf;
pub mod elf_builder;
pub mod fs;
pub mod runtime;
pub mod text;
pub mod capabilities;
pub mod device;
pub mod config;
pub mod handles;
pub mod logging;
pub mod task;
pub mod timer;
pub mod fd_table;
pub mod stats;
pub mod events;
pub mod dmesg;
pub mod frame;
pub mod allocator;
pub mod memdebug;
pub mod keyboard;
pub mod arch;
pub mod drivers;
pub mod spinlock;
pub mod interrupts;
pub mod uart;
pub mod smp;
pub mod process;
pub mod shell;
pub mod syscall;
pub mod linux_compat;
pub mod acpi;
pub mod physmem;
pub mod task_frames;
pub mod address_space;
