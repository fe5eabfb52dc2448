//! Decision and text logic of a tool that restrains an anti-cheat service's
//! share of the machine: core-affinity masks, restriction reports, the
//! autostart task document, registry messages and memory-trim accounting.

pub mod affinity;
pub mod machine;
pub mod memory;
pub mod registry;
pub mod report;
pub mod restrict;
pub mod system_info;
pub mod task_xml;
pub mod text;
pub mod utf16;
