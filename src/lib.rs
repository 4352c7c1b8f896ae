//! Process lookup by name or identifier, and command-line recovery.
//!
//! The kernel interfaces differ per platform, and each backend module holds
//! the decisions and decoding that follow a query: `macos` for the BSD process
//! information and `KERN_PROCARGS2` buffers, `windows` for toolhelp snapshots
//! and the command-line information class. The functions at the root serve
//! targets that offer neither.
use vstd::prelude::*;

pub mod macos;
pub mod record;
pub mod text;
pub mod windows;

pub use record::ProcessInfo;

verus! {

/// The processes named `name`. A target without a process table that this
/// library reads lists none.
pub fn find_processes_by_name(name: String) -> (r: Vec<ProcessInfo>)
    ensures
        r@.len() == 0,
{
    Vec::new()
}

/// The process with identifier `pid`. A target without a process table that
/// this library reads finds none.
pub fn find_process_by_pid(pid: u32) -> (r: Option<ProcessInfo>)
    ensures
        r is None,
{
    None
}

/// The command line of the process with identifier `pid`. A target without a
/// command-line interface that this library reads finds none.
pub fn get_process_cmdline(pid: u32) -> (r: Option<String>)
    ensures
        r is None,
{
    None
}

} // verus!
