use vstd::prelude::*;

verus! {

/// A process as reported by the operating system: its identifier and the
/// name under which the kernel lists it.
#[derive(Debug, Clone)]
pub struct ProcessInfo {
    pub pid: u32,
    pub name: String,
}

/// The mathematical value of a [`ProcessInfo`].
pub ghost struct ProcessRecord {
    pub pid: u32,
    pub name: Seq<char>,
}

impl View for ProcessInfo {
    type V = ProcessRecord;

    open spec fn view(&self) -> ProcessRecord {
        ProcessRecord { pid: self.pid, name: self.name@ }
    }
}

/// The records held by a sequence of process values.
pub open spec fn records(v: Seq<ProcessInfo>) -> Seq<ProcessRecord> {
    v.map_values(|p: ProcessInfo| p@)
}

/// How many of the records carry identifier `pid`.
pub open spec fn count_pid(recs: Seq<ProcessRecord>, pid: u32) -> nat
    decreases recs.len(),
{
    if recs.len() == 0 {
        0
    } else {
        count_pid(recs.drop_last(), pid) + if recs.last().pid == pid {
            1nat
        } else {
            0nat
        }
    }
}

/// Adding a record adds one to the count of its own pid only.
pub proof fn lemma_count_pid_push(recs: Seq<ProcessRecord>, r: ProcessRecord, pid: u32)
    ensures
        count_pid(recs.push(r), pid) == count_pid(recs, pid) + if r.pid == pid {
            1nat
        } else {
            0nat
        },
{
    assert(recs.push(r).drop_last() =~= recs);
}

} // verus!
