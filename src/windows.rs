use vstd::prelude::*;
use vstd::string::StringSliceAdditionalSpecFns;
use vstd::utf8::encode_utf8;

use crate::record::{count_pid, lemma_count_pid_push, records, ProcessInfo, ProcessRecord};
use crate::text::{decode_utf16_lossy, utf16_lossy};

verus! {

/// An ASCII upper-case letter in lower case; any other byte as it is.
pub open spec fn ascii_lower(c: u8) -> u8 {
    if 65 <= c <= 90 {
        (c + 32) as u8
    } else {
        c
    }
}

/// The bytes with ASCII letters in lower case.
pub open spec fn lowered(s: Seq<u8>) -> Seq<u8> {
    s.map_values(|c: u8| ascii_lower(c))
}

/// The bytes of `.exe`.
pub open spec fn exe_suffix() -> Seq<u8> {
    seq![46u8, 101u8, 120u8, 101u8]
}

/// Whether `s` ends with `.exe`.
pub open spec fn ends_with_exe(s: Seq<u8>) -> bool {
    s.len() >= 4 && s.subrange(s.len() - 4, s.len() as int) == exe_suffix()
}

/// The name that a query is compared with: in lower case, with `.exe` added
/// unless it already ends so.
pub open spec fn exe_target(query: Seq<u8>) -> Seq<u8> {
    if ends_with_exe(lowered(query)) {
        lowered(query)
    } else {
        lowered(query) + exe_suffix()
    }
}

/// Equality of byte strings up to the case of ASCII letters.
pub open spec fn eq_ignore_ascii_case(a: Seq<u8>, b: Seq<u8>) -> bool {
    a.len() == b.len() && forall|i: int| 0 <= i < a.len() ==> ascii_lower(#[trigger] a[i]) == ascii_lower(b[i])
}

/// Puts an ASCII upper-case letter in lower case.
pub fn to_ascii_lower(c: u8) -> (r: u8)
    ensures
        r == ascii_lower(c),
{
    if 65 <= c && c <= 90 {
        c + 32
    } else {
        c
    }
}

/// The name that a query for `query` is compared with, as bytes: the query in
/// lower case, with `.exe` added unless it already ends so.
pub fn exe_target_of(query: &str) -> (r: Vec<u8>)
    ensures
        r@ == exe_target(encode_utf8(query@)),
{
    let q = query.as_bytes();
    let ghost qs = encode_utf8(query@);
    let mut r: Vec<u8> = Vec::new();
    let mut i: usize = 0;
    while i < q.len()
        invariant
            q@ == qs,
            0 <= i <= q@.len(),
            r@ == lowered(qs.take(i as int)),
        decreases q@.len() - i,
    {
        r.push(to_ascii_lower(q[i]));
        i = i + 1;
        assert(r@ =~= lowered(qs.take(i as int)));
    }
    assert(qs.take(q@.len() as int) =~= qs);
    let n = r.len();
    let has_suffix = n >= 4 && r[n - 4] == 46 && r[n - 3] == 101 && r[n - 2] == 120 && r[n - 1]
        == 101;
    assert(has_suffix == ends_with_exe(r@)) by {
        if n >= 4 {
            let tail = r@.subrange(n - 4, n as int);
            assert(tail[0] == r@[n - 4] && tail[1] == r@[n - 3]);
            assert(tail[2] == r@[n - 2] && tail[3] == r@[n - 1]);
            assert(has_suffix ==> tail =~= exe_suffix());
        }
    }
    if !has_suffix {
        r.push(46);
        r.push(101);
        r.push(120);
        r.push(101);
        assert(r@ =~= lowered(qs) + exe_suffix());
    }
    r
}

/// Compares two byte strings up to the case of ASCII letters.
pub fn bytes_eq_ignore_ascii_case(a: &[u8], b: &[u8]) -> (r: bool)
    ensures
        r == eq_ignore_ascii_case(a@, b@),
{
    if a.len() != b.len() {
        return false;
    }
    let mut i: usize = 0;
    while i < a.len()
        invariant
            a@.len() == b@.len(),
            0 <= i <= a@.len(),
            forall|j: int| 0 <= j < i ==> ascii_lower(#[trigger] a@[j]) == ascii_lower(b@[j]),
        decreases a@.len() - i,
    {
        if to_ascii_lower(a[i]) != to_ascii_lower(b[i]) {
            return false;
        }
        i = i + 1;
    }
    true
}

/// The code units without the NUL units that pad them at the end.
pub open spec fn trim_trailing_nuls(u: Seq<u16>) -> Seq<u16>
    decreases u.len(),
{
    if u.len() > 0 && u.last() == 0 {
        trim_trailing_nuls(u.drop_last())
    } else {
        u
    }
}

/// The name held by a fixed-width wide-character field: its code units without
/// the trailing NUL padding, decoded permissively.
pub fn wide_field_text(field: &[u16]) -> (r: String)
    ensures
        r@ == utf16_lossy(trim_trailing_nuls(field@)),
{
    let mut n: usize = field.len();
    assert(field@.take(field@.len() as int) =~= field@);
    while n > 0 && field[n - 1] == 0
        invariant
            n <= field@.len(),
            trim_trailing_nuls(field@.take(n as int)) == trim_trailing_nuls(field@),
        decreases n,
    {
        assert(field@.take(n as int).drop_last() =~= field@.take(n - 1));
        n = n - 1;
    }
    let mut units: Vec<u16> = Vec::new();
    let mut i: usize = 0;
    while i < n
        invariant
            n <= field@.len(),
            0 <= i <= n,
            units@ == field@.take(i as int),
        decreases n - i,
    {
        units.push(field[i]);
        i = i + 1;
        assert(units@ =~= field@.take(i as int));
    }
    assert(trim_trailing_nuls(field@.take(n as int)) == field@.take(n as int));
    decode_utf16_lossy(units.as_slice())
}

/// One process entry of a toolhelp snapshot: its identifier and its
/// executable-file field.
pub struct ToolhelpEntry {
    pub pid: u32,
    pub exe_file: Vec<u16>,
}

/// The mathematical value of a [`ToolhelpEntry`].
pub ghost struct ToolhelpEntryView {
    pub pid: u32,
    pub exe_file: Seq<u16>,
}

impl View for ToolhelpEntry {
    type V = ToolhelpEntryView;

    open spec fn view(&self) -> ToolhelpEntryView {
        ToolhelpEntryView { pid: self.pid, exe_file: self.exe_file@ }
    }
}

/// The views of a sequence of entries.
pub open spec fn entry_views(v: Seq<ToolhelpEntry>) -> Seq<ToolhelpEntryView> {
    v.map_values(|e: ToolhelpEntry| e@)
}

/// The name of a snapshot entry.
pub open spec fn entry_name(e: ToolhelpEntryView) -> Seq<char> {
    utf16_lossy(trim_trailing_nuls(e.exe_file))
}

/// The record of a snapshot entry.
pub open spec fn entry_record(e: ToolhelpEntryView) -> ProcessRecord {
    ProcessRecord { pid: e.pid, name: entry_name(e) }
}

/// The records of the entries whose name equals `target` up to ASCII case, in order.
pub open spec fn toolhelp_matches(entries: Seq<ToolhelpEntryView>, target: Seq<u8>) -> Seq<ProcessRecord>
    decreases entries.len(),
{
    if entries.len() == 0 {
        Seq::empty()
    } else if eq_ignore_ascii_case(encode_utf8(entry_name(entries.last())), target) {
        toolhelp_matches(entries.drop_last(), target).push(entry_record(entries.last()))
    } else {
        toolhelp_matches(entries.drop_last(), target)
    }
}

/// The snapshot entries whose executable name equals `name` up to ASCII case,
/// where `.exe` is added to `name` unless it already ends so; in snapshot order.
pub fn find_processes_by_name(name: &str, entries: &Vec<ToolhelpEntry>) -> (r: Vec<ProcessInfo>)
    ensures
        records(r@) == toolhelp_matches(entry_views(entries@), exe_target(encode_utf8(name@))),
{
    let target = exe_target_of(name);
    let mut r: Vec<ProcessInfo> = Vec::new();
    let mut i: usize = 0;
    while i < entries.len()
        invariant
            target@ == exe_target(encode_utf8(name@)),
            0 <= i <= entries@.len(),
            records(r@) == toolhelp_matches(entry_views(entries@).take(i as int), target@),
        decreases entries@.len() - i,
    {
        let entry = &entries[i];
        let ghost before = r@;
        assert(entry_views(entries@).take(i + 1).drop_last() =~= entry_views(entries@).take(
            i as int,
        ));
        let process_name = wide_field_text(entry.exe_file.as_slice());
        if bytes_eq_ignore_ascii_case(process_name.as_str().as_bytes(), target.as_slice()) {
            r.push(ProcessInfo { pid: entry.pid, name: process_name });
            assert(records(r@) =~= records(before).push(r@.last()@));
        }
        i = i + 1;
    }
    assert(entry_views(entries@).take(entries@.len() as int) =~= entry_views(entries@));
    r
}

/// The first snapshot entry with identifier `pid`; `None` when no entry has it.
pub fn find_process_by_pid(pid: u32, entries: &Vec<ToolhelpEntry>) -> (r: Option<ProcessInfo>)
    ensures
        r is None <==> forall|i: int| 0 <= i < entries@.len() ==> #[trigger] entries@[i].pid != pid,
        r matches Some(p) ==> exists|i: int|
            0 <= i < entries@.len() && #[trigger] entries@[i].pid == pid && p@ == entry_record(
                entries@[i]@,
            ) && forall|j: int| 0 <= j < i ==> entries@[j].pid != pid,
{
    let mut i: usize = 0;
    while i < entries.len()
        invariant
            0 <= i <= entries@.len(),
            forall|j: int| 0 <= j < i ==> #[trigger] entries@[j].pid != pid,
        decreases entries@.len() - i,
    {
        if entries[i].pid == pid {
            let name = wide_field_text(entries[i].exe_file.as_slice());
            return Some(ProcessInfo { pid, name });
        }
        i = i + 1;
    }
    None
}

/// The information class that asks for a process's command line.
pub const PROCESS_COMMAND_LINE_INFORMATION: u32 = 60;

/// `STATUS_INFO_LENGTH_MISMATCH` (0xC0000004) as a signed status.
pub const STATUS_INFO_LENGTH_MISMATCH: i32 = -1073741820;

/// `STATUS_BUFFER_TOO_SMALL` (0xC0000023) as a signed status.
pub const STATUS_BUFFER_TOO_SMALL: i32 = -1073741789;

/// `STATUS_BUFFER_OVERFLOW` (0x80000005) as a signed status.
pub const STATUS_BUFFER_OVERFLOW: i32 = -2147483643;

/// Whether the size query may go on to the fetch: success, or a status that
/// only says the (empty) buffer was too small.
pub open spec fn size_status_ok(status: i32) -> bool {
    status == 0 || status == STATUS_INFO_LENGTH_MISMATCH || status == STATUS_BUFFER_TOO_SMALL
        || status == STATUS_BUFFER_OVERFLOW
}

/// The buffer length to fetch the command line with, after the size query
/// returned `status` and `return_length`. `None` when the status is fatal or
/// the length is zero (the information is not available).
pub fn command_line_buffer_len(status: i32, return_length: u32) -> (r: Option<u32>)
    ensures
        r is Some <==> size_status_ok(status) && return_length > 0,
        r matches Some(n) ==> n == return_length,
{
    if status != 0 && status != STATUS_INFO_LENGTH_MISMATCH && status != STATUS_BUFFER_TOO_SMALL
        && status != STATUS_BUFFER_OVERFLOW {
        return None;
    }
    if return_length == 0 {
        return None;
    }
    Some(return_length)
}

/// The string descriptor at the head of the fetched buffer: its length in
/// bytes and the address of its characters (0 for a null pointer).
pub struct UnicodeStringHeader {
    pub length: u16,
    pub data_addr: usize,
}

/// Little-endian 16-bit code units of a byte string; an odd last byte is left out.
pub open spec fn le_units(b: Seq<u8>) -> Seq<u16> {
    Seq::new((b.len() / 2) as nat, |i: int| (b[2 * i] as int + b[2 * i + 1] as int * 256) as u16)
}

/// The command line that the fetch gives: `None` when its status is an error,
/// when the buffer holds no descriptor, or when the characters lie outside the
/// buffer (at `base_addr`); empty text for an empty or null descriptor.
pub open spec fn command_line_info_text(
    status: i32,
    buffer: Seq<u8>,
    header: Option<(u16, usize)>,
    base_addr: usize,
) -> Option<Seq<char>> {
    if status < 0 {
        None
    } else {
        match header {
            None => None,
            Some((length, addr)) => if length == 0 || addr == 0 {
                Some(Seq::empty())
            } else if addr < base_addr || (addr - base_addr) + 2 * (length / 2) > buffer.len() {
                None
            } else {
                let off = addr - base_addr;
                Some(utf16_lossy(le_units(buffer.subrange(off, off + 2 * (length / 2)))))
            },
        }
    }
}

/// The command line from the fetch of the command-line information class:
/// `status` is what the fetch returned, `buffer` the bytes it filled (at
/// address `base_addr`), `header` the descriptor read from its head. The
/// characters are read only where they lie inside the buffer.
pub fn command_line_text(
    status: i32,
    buffer: &[u8],
    header: &Option<UnicodeStringHeader>,
    base_addr: usize,
) -> (r: Option<String>)
    ensures
        r is None <==> command_line_info_text(
            status,
            buffer@,
            match header {
                Some(h) => Some((h.length, h.data_addr)),
                None => None,
            },
            base_addr,
        ) is None,
        r matches Some(t) ==> command_line_info_text(
            status,
            buffer@,
            match header {
                Some(h) => Some((h.length, h.data_addr)),
                None => None,
            },
            base_addr,
        ) == Some(t@),
{
    if status < 0 {
        return None;
    }
    let h = match header {
        Some(h) => h,
        None => return None,
    };
    if h.length == 0 || h.data_addr == 0 {
        return Some(String::new());
    }
    if h.data_addr < base_addr {
        return None;
    }
    let off: usize = h.data_addr - base_addr;
    let count: usize = (h.length / 2) as usize;
    if off > buffer.len() || buffer.len() - off < 2 * count {
        return None;
    }
    let blen = buffer.len();
    let ghost bytes = buffer@.subrange(off as int, off + 2 * count);
    let mut units: Vec<u16> = Vec::new();
    let mut i: usize = 0;
    while i < count
        invariant
            blen == buffer@.len(),
            off + 2 * count <= blen,
            bytes == buffer@.subrange(off as int, off + 2 * count),
            0 <= i <= count,
            units@ == le_units(bytes).take(i as int),
        decreases count - i,
    {
        let lo = buffer[off + 2 * i];
        let hi = buffer[off + 2 * i + 1];
        units.push((lo as u16) + (hi as u16) * 256);
        i = i + 1;
        assert(units@ =~= le_units(bytes).take(i as int));
    }
    assert(le_units(bytes).take(count as int) =~= le_units(bytes));
    Some(decode_utf16_lossy(units.as_slice()))
}

/// Whether an entry's name equals `target` up to ASCII case.
pub open spec fn entry_matches(e: ToolhelpEntryView, target: Seq<u8>) -> bool {
    eq_ignore_ascii_case(encode_utf8(entry_name(e)), target)
}

/// Whether no two entries carry the same pid, as in one snapshot of live processes.
pub open spec fn distinct_entry_pids(entries: Seq<ToolhelpEntryView>) -> bool {
    forall|j: int, k: int|
        0 <= j < entries.len() && 0 <= k < entries.len() && j != k ==> #[trigger] entries[j].pid
            != #[trigger] entries[k].pid
}

/// A query with `.exe` and the same query without it are compared with the
/// same name.
pub proof fn lemma_exe_suffix_optional(query: Seq<u8>)
    requires
        !ends_with_exe(lowered(query)),
    ensures
        exe_target(query + exe_suffix()) == exe_target(query),
{
    let full = query + exe_suffix();
    assert(lowered(full) =~= lowered(query) + exe_suffix());
    let l = lowered(full);
    assert(l.subrange(l.len() - 4, l.len() as int) =~= exe_suffix());
}

/// Queries that differ only in the case of ASCII letters are compared with
/// the same name.
pub proof fn lemma_query_case_insensitive(a: Seq<u8>, b: Seq<u8>)
    requires
        eq_ignore_ascii_case(a, b),
    ensures
        exe_target(a) == exe_target(b),
{
    assert(lowered(a) =~= lowered(b));
}

proof fn lemma_entry_pid_absent(entries: Seq<ToolhelpEntryView>, target: Seq<u8>, pid: u32)
    requires
        forall|j: int| 0 <= j < entries.len() ==> #[trigger] entries[j].pid != pid,
    ensures
        count_pid(toolhelp_matches(entries, target), pid) == 0,
    decreases entries.len(),
{
    if entries.len() > 0 {
        let init = entries.drop_last();
        assert forall|j: int| 0 <= j < init.len() implies #[trigger] init[j].pid != pid by {
            assert(init[j] == entries[j]);
        }
        lemma_entry_pid_absent(init, target, pid);
        lemma_toolhelp_matches_last(entries, target, pid);
    }
}

proof fn lemma_toolhelp_matches_last(entries: Seq<ToolhelpEntryView>, target: Seq<u8>, pid: u32)
    requires
        entries.len() > 0,
    ensures
        count_pid(toolhelp_matches(entries, target), pid) == count_pid(
            toolhelp_matches(entries.drop_last(), target),
            pid,
        ) + if entries.last().pid == pid && entry_matches(entries.last(), target) {
            1nat
        } else {
            0nat
        },
{
    if entry_matches(entries.last(), target) {
        lemma_count_pid_push(
            toolhelp_matches(entries.drop_last(), target),
            entry_record(entries.last()),
            pid,
        );
    }
}

/// A process queried by exactly the name it is listed under is found, and
/// exactly once, when the snapshot names each pid once. This holds for names
/// that end in `.exe` in any case: the query gains that suffix otherwise.
pub proof fn lemma_reported_name_found(entries: Seq<ToolhelpEntryView>, i: int, query: Seq<u8>)
    requires
        distinct_entry_pids(entries),
        0 <= i < entries.len(),
        query == encode_utf8(entry_name(entries[i])),
        ends_with_exe(lowered(query)),
    ensures
        count_pid(toolhelp_matches(entries, exe_target(query)), entries[i].pid) == 1,
    decreases entries.len(),
{
    let target = exe_target(query);
    let init = entries.drop_last();
    let pid = entries[i].pid;
    assert(entry_matches(entries[i], target)) by {
        assert forall|j: int| 0 <= j < query.len() implies ascii_lower(#[trigger] query[j])
            == ascii_lower(target[j]) by {
            assert(target[j] == ascii_lower(query[j]));
        }
    }
    if i == entries.len() - 1 {
        assert forall|j: int| 0 <= j < init.len() implies #[trigger] init[j].pid != pid by {
            assert(init[j] == entries[j]);
        }
        lemma_entry_pid_absent(init, target, pid);
        lemma_toolhelp_matches_last(entries, target, pid);
    } else {
        assert forall|j: int, k: int|
            0 <= j < init.len() && 0 <= k < init.len() && j != k implies #[trigger] init[j].pid
            != #[trigger] init[k].pid by {
            assert(init[j] == entries[j] && init[k] == entries[k]);
        }
        assert(init[i] == entries[i]);
        lemma_reported_name_found(init, i, query);
        assert(entries.last().pid != pid);
        lemma_toolhelp_matches_last(entries, target, pid);
    }
}

/// The same snapshot gives the same records, on every query.
pub proof fn lemma_toolhelp_requery_stable(
    first: Seq<ToolhelpEntry>,
    second: Seq<ToolhelpEntry>,
    query: Seq<u8>,
)
    requires
        entry_views(first) == entry_views(second),
    ensures
        toolhelp_matches(entry_views(first), exe_target(query)) == toolhelp_matches(
            entry_views(second),
            exe_target(query),
        ),
{
}

} // verus!
