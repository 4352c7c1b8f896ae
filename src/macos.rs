use vstd::prelude::*;

use crate::record::{count_pid, lemma_count_pid_push, records, ProcessInfo, ProcessRecord};
use crate::text::{
    c_string, c_string_text, copy_range, decode_utf8_lossy, decoded, find_nul, join_spaced,
    next_nul, push_spaced, utf8_lossy,
};

verus! {

/// The argument count at the head of a `KERN_PROCARGS2` buffer: a 32-bit
/// signed integer in the byte order of the (little-endian) host.
pub open spec fn declared_argc(b: Seq<u8>) -> int {
    let u = b[0] as int + b[1] as int * 0x100 + b[2] as int * 0x1_0000 + b[3] as int * 0x100_0000;
    if u >= 0x8000_0000 {
        u - 0x1_0000_0000
    } else {
        u
    }
}

/// The first index at or after `i` that does not hold a NUL byte.
pub open spec fn skip_nuls(b: Seq<u8>, i: int) -> int
    decreases b.len() - i,
{
    if 0 <= i < b.len() && b[i] == 0 {
        skip_nuls(b, i + 1)
    } else {
        i
    }
}

/// At most `n` NUL-terminated strings packed from `start` on; the list stops
/// at the end of the buffer or at a string that has no terminator.
pub open spec fn packed_args(b: Seq<u8>, start: int, n: int) -> Seq<Seq<u8>>
    decreases n,
{
    if n <= 0 || start < 0 || start >= b.len() || next_nul(b, start) >= b.len() {
        Seq::empty()
    } else {
        seq![b.subrange(start, next_nul(b, start))] + packed_args(b, next_nul(b, start) + 1, n - 1)
    }
}

/// Where the arguments start: after the count, the executable path and its NUL
/// padding. `None` when the buffer cannot hold the count or the path is not terminated.
pub open spec fn args_start(b: Seq<u8>) -> Option<int> {
    if b.len() < 4 || next_nul(b, 4) >= b.len() {
        None
    } else {
        Some(skip_nuls(b, next_nul(b, 4) + 1))
    }
}

/// The arguments after the executable path that a `KERN_PROCARGS2` buffer holds.
pub open spec fn procargs_arguments(b: Seq<u8>) -> Option<Seq<Seq<u8>>> {
    match args_start(b) {
        None => None,
        Some(s) => Some(packed_args(b, s, declared_argc(b))),
    }
}

/// The command line that a `KERN_PROCARGS2` buffer gives.
pub open spec fn procargs_text(b: Seq<u8>) -> Option<Seq<char>> {
    match procargs_arguments(b) {
        None => None,
        Some(args) => Some(join_spaced(decoded(args))),
    }
}

proof fn lemma_skip_nuls_bounds(b: Seq<u8>, i: int)
    requires
        0 <= i <= b.len(),
    ensures
        i <= skip_nuls(b, i) <= b.len(),
    decreases b.len() - i,
{
    if i < b.len() && b[i] == 0 {
        lemma_skip_nuls_bounds(b, i + 1);
    }
}

/// Skips the NUL bytes from `start` on.
fn skip_nul_run(b: &[u8], start: usize) -> (r: usize)
    requires
        start <= b@.len(),
    ensures
        r == skip_nuls(b@, start as int),
        r <= b@.len(),
{
    let mut i: usize = start;
    while i < b.len() && b[i] == 0
        invariant
            start <= i <= b@.len(),
            skip_nuls(b@, i as int) == skip_nuls(b@, start as int),
        decreases b@.len() - i,
    {
        i = i + 1;
    }
    i
}

/// Decodes a `KERN_PROCARGS2` buffer: the argument count, the executable path,
/// NUL padding, then the arguments. Gives the arguments after the path, each
/// decoded permissively and joined by single spaces. A count larger than what
/// the buffer holds ends the list at the last complete argument. `None` when the
/// buffer is shorter than the count or its path has no terminator.
pub fn decode_procargs(buffer: &[u8]) -> (r: Option<String>)
    ensures
        r is None <==> procargs_text(buffer@) is None,
        r matches Some(t) ==> procargs_text(buffer@) == Some(t@),
{
    let len = buffer.len();
    if len < 4 {
        return None;
    }
    let path_end = find_nul(buffer, 4);
    if path_end >= len {
        return None;
    }
    let start = skip_nul_run(buffer, path_end + 1);
    let raw: u32 = buffer[0] as u32 + buffer[1] as u32 * 0x100 + buffer[2] as u32 * 0x1_0000
        + buffer[3] as u32 * 0x100_0000;
    let count: u32 = if raw >= 0x8000_0000 {
        0
    } else {
        raw
    };
    let ghost b = buffer@;
    let ghost n = declared_argc(b);
    assert(n <= 0 ==> packed_args(b, start as int, n) == Seq::<Seq<u8>>::empty());
    assert(n > 0 ==> n == count);

    let mut out = String::new();
    let mut cursor: usize = start;
    let mut left: u32 = count;
    let mut first = true;
    let ghost mut done: Seq<Seq<u8>> = Seq::empty();
    while left > 0 && cursor < len
        invariant
            len == b.len(),
            b == buffer@,
            cursor <= len,
            packed_args(b, start as int, n) == done + packed_args(b, cursor as int, left as int),
            out@ == join_spaced(decoded(done)),
            first == (done.len() == 0),
        ensures
            packed_args(b, start as int, n) == done,
            out@ == join_spaced(decoded(done)),
        decreases left,
    {
        let end = find_nul(buffer, cursor);
        if end >= len {
            assert(packed_args(b, cursor as int, left as int) == Seq::<Seq<u8>>::empty());
            assert(done + Seq::<Seq<u8>>::empty() =~= done);
            break;
        }
        let bytes = copy_range(buffer, cursor, end);
        let arg = decode_utf8_lossy(bytes.as_slice());
        proof {
            let rest = packed_args(b, end + 1, left - 1);
            assert(packed_args(b, cursor as int, left as int) == seq![bytes@] + rest);
            assert(done + (seq![bytes@] + rest) =~= done.push(bytes@) + rest);
            assert(decoded(done.push(bytes@)) =~= decoded(done).push(arg@));
        }
        push_spaced(&mut out, &arg, first, Ghost(decoded(done)));
        proof {
            done = done.push(bytes@);
        }
        first = false;
        cursor = end + 1;
        left = left - 1;
    }
    Some(out)
}

/// Entries added to the pid buffer beyond the kernel's estimate, for processes
/// started between the size query and the fetch.
pub const PID_SLACK: usize = 32;

/// The number of pid slots to allocate for a listing, given the kernel's
/// estimate of the count; `None` when the estimate is not positive.
pub fn pid_buffer_len(count_estimate: i32) -> (r: Option<usize>)
    ensures
        count_estimate <= 0 ==> r is None,
        count_estimate > 0 ==> r == Some((count_estimate + PID_SLACK) as usize),
{
    if count_estimate <= 0 {
        None
    } else {
        Some(count_estimate as usize + PID_SLACK)
    }
}

/// The positive pids among `slots`, in order, as unsigned identifiers.
pub open spec fn positive_pids(slots: Seq<i32>) -> Seq<u32>
    decreases slots.len(),
{
    if slots.len() == 0 {
        Seq::empty()
    } else if slots.last() > 0 {
        positive_pids(slots.drop_last()).push(slots.last() as u32)
    } else {
        positive_pids(slots.drop_last())
    }
}

/// The pids that a listing reports: the first `count` slots, never more than
/// the buffer holds, without pid 0 and negative values.
pub open spec fn listed(slots: Seq<i32>, count: i32) -> Seq<u32> {
    if count <= 0 {
        Seq::empty()
    } else if count as int <= slots.len() {
        positive_pids(slots.take(count as int))
    } else {
        positive_pids(slots)
    }
}

/// The pids worth querying after the kernel filled `slots` and reported
/// `count`. A count beyond the buffer is clamped to it.
pub fn listed_pids(slots: &Vec<i32>, count: i32) -> (r: Vec<u32>)
    ensures
        r@ == listed(slots@, count),
{
    let mut r: Vec<u32> = Vec::new();
    if count <= 0 {
        return r;
    }
    let n: usize = if (count as usize) < slots.len() {
        count as usize
    } else {
        slots.len()
    };
    let mut i: usize = 0;
    while i < n
        invariant
            n <= slots@.len(),
            n == if count as int <= slots@.len() { count as int } else { slots@.len() as int },
            0 <= i <= n,
            r@ == positive_pids(slots@.take(i as int)),
        decreases n - i,
    {
        let pid = slots[i];
        assert(slots@.take(i + 1).drop_last() =~= slots@.take(i as int));
        if pid > 0 {
            r.push(pid as u32);
        }
        i = i + 1;
    }
    if n == slots.len() {
        assert(slots@.take(n as int) =~= slots@);
    }
    r
}

/// The two name fields of a process's BSD information: the short command name
/// and the longer process name, each a fixed-width C string field.
pub struct BsdNames {
    pub comm: Vec<u8>,
    pub name: Vec<u8>,
}

/// What the per-pid information query gave for one listed pid: the name
/// fields, or `None` when the process could not be queried (it may have exited).
pub struct PidInfoReply {
    pub pid: u32,
    pub names: Option<BsdNames>,
}

/// The mathematical value of a [`PidInfoReply`].
pub ghost struct PidInfoView {
    pub pid: u32,
    pub names: Option<(Seq<u8>, Seq<u8>)>,
}

impl View for PidInfoReply {
    type V = PidInfoView;

    open spec fn view(&self) -> PidInfoView {
        PidInfoView {
            pid: self.pid,
            names: match self.names {
                Some(n) => Some((n.comm@, n.name@)),
                None => None,
            },
        }
    }
}

/// The views of a sequence of replies.
pub open spec fn reply_views(v: Seq<PidInfoReply>) -> Seq<PidInfoView> {
    v.map_values(|r: PidInfoReply| r@)
}

/// The name under which a process matches `target`: its short name when that
/// equals the target, else its long name when that does.
pub open spec fn bsd_match(comm: Seq<u8>, name: Seq<u8>, target: Seq<char>) -> Option<Seq<char>> {
    if utf8_lossy(c_string(comm)) == target {
        Some(utf8_lossy(c_string(comm)))
    } else if utf8_lossy(c_string(name)) == target {
        Some(utf8_lossy(c_string(name)))
    } else {
        None
    }
}

/// The records of the replies whose process matches `target`, in order.
pub open spec fn bsd_matches(replies: Seq<PidInfoView>, target: Seq<char>) -> Seq<ProcessRecord>
    decreases replies.len(),
{
    if replies.len() == 0 {
        Seq::empty()
    } else {
        let rest = bsd_matches(replies.drop_last(), target);
        match replies.last().names {
            Some((c, n)) => match bsd_match(c, n, target) {
                Some(found) => rest.push(ProcessRecord { pid: replies.last().pid, name: found }),
                None => rest,
            },
            None => rest,
        }
    }
}

/// The processes among `replies` whose short or long name equals `name`, in
/// the order of the listing; a pid whose query failed is skipped.
pub fn find_processes_by_name(name: &str, replies: &Vec<PidInfoReply>) -> (r: Vec<ProcessInfo>)
    ensures
        records(r@) == bsd_matches(reply_views(replies@), name@),
{
    let target: String = name.to_owned();
    let mut r: Vec<ProcessInfo> = Vec::new();
    let mut i: usize = 0;
    while i < replies.len()
        invariant
            0 <= i <= replies@.len(),
            target@ == name@,
            records(r@) == bsd_matches(reply_views(replies@).take(i as int), name@),
        decreases replies@.len() - i,
    {
        let reply = &replies[i];
        let ghost before = r@;
        assert(reply_views(replies@).take(i + 1).drop_last() =~= reply_views(replies@).take(
            i as int,
        ));
        match &reply.names {
            Some(names) => {
                let comm = c_string_text(names.comm.as_slice());
                if comm == target {
                    r.push(ProcessInfo { pid: reply.pid, name: comm });
                    assert(records(r@) =~= records(before).push(r@.last()@));
                } else {
                    let long = c_string_text(names.name.as_slice());
                    if long == target {
                        r.push(ProcessInfo { pid: reply.pid, name: long });
                        assert(records(r@) =~= records(before).push(r@.last()@));
                    }
                }
            },
            None => {},
        }
        i = i + 1;
    }
    assert(reply_views(replies@).take(replies@.len() as int) =~= reply_views(replies@));
    r
}

/// The record of a process from its BSD information: its short name, which is
/// what the listing matches first. `None` when the query gave nothing.
pub fn find_process_by_pid(pid: u32, names: &Option<BsdNames>) -> (r: Option<ProcessInfo>)
    ensures
        names is None ==> r is None,
        names matches Some(n) ==> r matches Some(p) && p@ == (ProcessRecord {
            pid,
            name: utf8_lossy(c_string(n.comm@)),
        }),
{
    match names {
        Some(n) => Some(ProcessInfo { pid, name: c_string_text(n.comm.as_slice()) }),
        None => None,
    }
}

/// Whether a reply's process matches `target`.
pub open spec fn reply_matches(reply: PidInfoView, target: Seq<char>) -> bool {
    match reply.names {
        Some((c, n)) => bsd_match(c, n, target) is Some,
        None => false,
    }
}

proof fn lemma_bsd_matches_last(replies: Seq<PidInfoView>, target: Seq<char>, pid: u32)
    requires
        replies.len() > 0,
    ensures
        count_pid(bsd_matches(replies, target), pid) == count_pid(
            bsd_matches(replies.drop_last(), target),
            pid,
        ) + if replies.last().pid == pid && reply_matches(replies.last(), target) {
            1nat
        } else {
            0nat
        },
{
    let rest = bsd_matches(replies.drop_last(), target);
    match replies.last().names {
        Some((c, n)) => match bsd_match(c, n, target) {
            Some(f) => lemma_count_pid_push(rest, ProcessRecord { pid: replies.last().pid, name: f }, pid),
            None => {},
        },
        None => {},
    }
}

/// Whether no two replies carry the same pid, as in one listing of live processes.
pub open spec fn distinct_pids(replies: Seq<PidInfoView>) -> bool {
    forall|j: int, k: int|
        0 <= j < replies.len() && 0 <= k < replies.len() && j != k ==> #[trigger] replies[j].pid
            != #[trigger] replies[k].pid
}

proof fn lemma_bsd_pid_absent(replies: Seq<PidInfoView>, target: Seq<char>, pid: u32)
    requires
        forall|j: int| 0 <= j < replies.len() ==> #[trigger] replies[j].pid != pid,
    ensures
        count_pid(bsd_matches(replies, target), pid) == 0,
    decreases replies.len(),
{
    if replies.len() > 0 {
        let init = replies.drop_last();
        assert forall|j: int| 0 <= j < init.len() implies #[trigger] init[j].pid != pid by {
            assert(init[j] == replies[j]);
        }
        lemma_bsd_pid_absent(init, target, pid);
        lemma_bsd_matches_last(replies, target, pid);
    }
}

/// A process whose short or long name equals the query is found, and exactly
/// once, when the listing names each pid once.
pub proof fn lemma_bsd_reported_name_found(replies: Seq<PidInfoView>, i: int, target: Seq<char>)
    requires
        distinct_pids(replies),
        0 <= i < replies.len(),
        replies[i].names matches Some((c, n)) && (utf8_lossy(c_string(c)) == target || utf8_lossy(
            c_string(n),
        ) == target),
    ensures
        count_pid(bsd_matches(replies, target), replies[i].pid) == 1,
    decreases replies.len(),
{
    let init = replies.drop_last();
    let pid = replies[i].pid;
    if i == replies.len() - 1 {
        assert forall|j: int| 0 <= j < init.len() implies #[trigger] init[j].pid != pid by {
            assert(init[j] == replies[j]);
        }
        lemma_bsd_pid_absent(init, target, pid);
        lemma_bsd_matches_last(replies, target, pid);
    } else {
        assert forall|j: int, k: int|
            0 <= j < init.len() && 0 <= k < init.len() && j != k implies #[trigger] init[j].pid
            != #[trigger] init[k].pid by {
            assert(init[j] == replies[j] && init[k] == replies[k]);
        }
        assert(init[i] == replies[i]);
        lemma_bsd_reported_name_found(init, i, target);
        assert(replies.last().pid != pid);
        lemma_bsd_matches_last(replies, target, pid);
    }
}

/// A count beyond the strings that the buffer holds changes nothing: the
/// arguments read are those before the end of the buffer.
pub proof fn lemma_count_beyond_buffer(b: Seq<u8>, start: int, n: int, m: int)
    requires
        packed_args(b, start, n).len() < n,
        n <= m,
    ensures
        packed_args(b, start, m) == packed_args(b, start, n),
    decreases n,
{
    if !(start < 0 || start >= b.len() || next_nul(b, start) >= b.len()) {
        lemma_count_beyond_buffer(b, next_nul(b, start) + 1, n - 1, m - 1);
    }
}

/// A buffer whose count is zero gives the empty command line, not `None`.
pub proof fn lemma_no_arguments(b: Seq<u8>)
    requires
        args_start(b) is Some,
        declared_argc(b) == 0,
    ensures
        procargs_text(b) == Some(Seq::<char>::empty()),
{
    assert(decoded(Seq::<Seq<u8>>::empty()) =~= Seq::<Seq<char>>::empty());
}

/// The same replies give the same records, on every query.
pub proof fn lemma_bsd_requery_stable(
    first: Seq<PidInfoReply>,
    second: Seq<PidInfoReply>,
    target: Seq<char>,
)
    requires
        reply_views(first) == reply_views(second),
    ensures
        bsd_matches(reply_views(first), target) == bsd_matches(reply_views(second), target),
{
}

} // verus!
