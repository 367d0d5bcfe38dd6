//! Gathering of processor and disk information from the text that Linux
//! exposes under /proc and /sys.
//!
//! The library holds what is decided and computed: how the lines of
//! /proc/cpuinfo update a `Cpuinfo`, how cache and frequency files are read,
//! how the entries of /sys/block become disks and partitions, how mount lines
//! and file-system figures become used and free space. Reading the files,
//! asking udev and calling `statvfs` is left to the caller.
use vstd::prelude::*;

pub mod cpu;
pub mod disk;
pub mod keyed;
pub mod number;
pub mod text;

verus! {

/// What a command-line argument asks for.
#[derive(Debug, Clone, Copy, PartialEq, Eq, Structural)]
pub enum Request {
    /// Processor information.
    Cpu,
    /// Disk information.
    Disk,
}

/// What the argument `arg` asks for: `cpu` or `disk`; `None` for any other
/// argument.
pub fn request_for(arg: &str) -> (r: Option<Request>)
    ensures
        r == (if arg@ == "cpu"@ {
            Some(Request::Cpu)
        } else if arg@ == "disk"@ {
            Some(Request::Disk)
        } else {
            None
        }),
{
    if text::str_eq(arg, "cpu") {
        Some(Request::Cpu)
    } else if text::str_eq(arg, "disk") {
        Some(Request::Disk)
    } else {
        None
    }
}

} // verus!
