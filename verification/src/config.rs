//! Boot-time kernel configuration, as the loader leaves it in memory.
use vstd::prelude::*;

verus! {

/// Magic value "ZOHA" that marks a valid configuration.
pub const CONFIG_MAGIC: u32 = 0x5A4F_4841;

/// Physical address where the loader writes the configuration.
pub const CONFIG_ADDR: usize = 0x9_0000;

/// Boot-time kernel configuration, written by the loader at `CONFIG_ADDR`.
#[derive(Clone, Copy)]
pub struct KernelConfig {
    pub magic: u32,
    pub debug_enabled: u32,
    pub task_count: u32,
    pub run_verification: u32,
}

/// The flags the kernel keeps after reading the configuration at boot.
#[derive(Clone, Copy, PartialEq, Eq, Structural)]
pub struct ConfigFlags {
    pub debug_enabled: bool,
    pub run_verification: bool,
    pub loaded: bool,
}

/// Is the raw configuration valid: not all zero, and carrying the magic?
pub open spec fn config_valid(raw: KernelConfig) -> bool {
    !(raw.magic == 0 && raw.debug_enabled == 0 && raw.task_count == 0 && raw.run_verification == 0)
        && raw.magic == CONFIG_MAGIC
}

/// The flags set from a raw configuration: its values when it is valid,
/// all false otherwise.
pub fn interpret(raw: &KernelConfig) -> (f: ConfigFlags)
    ensures
        config_valid(*raw) ==> f == (ConfigFlags {
            debug_enabled: raw.debug_enabled != 0,
            run_verification: raw.run_verification != 0,
            loaded: true,
        }),
        !config_valid(*raw) ==> f == (ConfigFlags {
            debug_enabled: false,
            run_verification: false,
            loaded: false,
        }),
{
    let all_zero = raw.magic == 0 && raw.debug_enabled == 0 && raw.task_count == 0
        && raw.run_verification == 0;
    if !all_zero && raw.magic == CONFIG_MAGIC {
        ConfigFlags {
            debug_enabled: raw.debug_enabled != 0,
            run_verification: raw.run_verification != 0,
            loaded: true,
        }
    } else {
        ConfigFlags { debug_enabled: false, run_verification: false, loaded: false }
    }
}

/// The configured task count, or `default` when no configuration loaded.
pub fn task_count(flags: &ConfigFlags, raw: &KernelConfig, default: u32) -> (r: u32)
    ensures
        r == if flags.loaded { raw.task_count } else { default },
{
    if flags.loaded {
        raw.task_count
    } else {
        default
    }
}

/// Is debug output enabled?
pub fn is_debug(flags: &ConfigFlags) -> (r: bool)
    ensures
        r == flags.debug_enabled,
{
    flags.debug_enabled
}

/// Should the boot-time verification suite run?
pub fn run_verification(flags: &ConfigFlags) -> (r: bool)
    ensures
        r == flags.run_verification,
{
    flags.run_verification
}

} // verus!
