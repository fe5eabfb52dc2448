use vstd::prelude::*;

verus! {

/// The system-information handle of the `sysinfo` crate, held opaquely.
#[verifier::external_type_specification]
#[verifier::external_body]
pub struct ExSystem(sysinfo::System);

/// Trusted: `sysinfo::System::new`, a handle with nothing loaded yet.
/// Nothing is claimed of the handle.
pub assume_specification[ sysinfo::System::new ]() -> (system: sysinfo::System);

/// Trusted: `sysinfo::System::refresh_cpu_all`, which reloads the list of
/// logical processors from the operating system. Nothing is claimed of what
/// it loads: that is the machine's.
pub assume_specification[ sysinfo::System::refresh_cpu_all ](system: &mut sysinfo::System);

/// Trusted: `sysinfo::System::cpus`, of which only the length is taken.
/// The count is the machine's; nothing is claimed of it.
#[verifier::external_body]
fn loaded_cpu_count(system: &sysinfo::System) -> usize {
    system.cpus().len()
}

/// The number of logical processors that the machine reports, as a `u32`
/// (truncated, as a cast truncates, should the count not fit).
pub fn logical_core_count() -> u32 {
    let mut system = sysinfo::System::new();
    system.refresh_cpu_all();
    let count = loaded_cpu_count(&system);
    count as u32
}

} // verus!
