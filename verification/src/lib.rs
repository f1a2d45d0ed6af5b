//! A process memory viewer: the scanning, value codecs, console and selection
//! logic of the viewer, with their contracts.
pub mod text;
pub mod types;
pub mod values;
pub mod console;

pub mod scan;
pub mod process;
pub mod memory_write;
pub mod processes;
pub mod selection;
pub mod selector;
