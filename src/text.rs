use vstd::prelude::*;
use vstd::string::StringExecFns;
use vstd::utf8::{decode_utf8, valid_utf8};

verus! {

/// The text that permissive UTF-8 decoding gives for a byte string.
pub uninterp spec fn utf8_lossy(b: Seq<u8>) -> Seq<char>;

/// The text that permissive UTF-16 decoding gives for a sequence of code units.
pub uninterp spec fn utf16_lossy(u: Seq<u16>) -> Seq<char>;

/// Relies on `String::from_utf8_lossy`: decodes UTF-8, putting U+FFFD in place
/// of each invalid sequence; valid input is decoded as it stands.
#[verifier::external_body]
pub(crate) fn decode_utf8_lossy(b: &[u8]) -> (r: String)
    ensures
        r@ == utf8_lossy(b@),
        valid_utf8(b@) ==> r@ == decode_utf8(b@),
{
    String::from_utf8_lossy(b).into_owned()
}

/// Relies on `String::from_utf16_lossy`: decodes UTF-16, putting U+FFFD in
/// place of each unpaired surrogate; no code units give no text.
#[verifier::external_body]
pub(crate) fn decode_utf16_lossy(u: &[u16]) -> (r: String)
    ensures
        r@ == utf16_lossy(u@),
        u@.len() == 0 ==> r@.len() == 0,
{
    String::from_utf16_lossy(u)
}

/// Index of the first NUL byte at or after `i`, or the length when there is none.
pub open spec fn next_nul(b: Seq<u8>, i: int) -> int
    decreases b.len() - i,
{
    if i >= b.len() {
        b.len() as int
    } else if b[i] == 0 {
        i
    } else {
        next_nul(b, i + 1)
    }
}

/// The bytes of a fixed-width C string field: everything before its first NUL.
pub open spec fn c_string(field: Seq<u8>) -> Seq<u8> {
    field.take(next_nul(field, 0))
}

/// Permissive text of each byte string.
pub open spec fn decoded(parts: Seq<Seq<u8>>) -> Seq<Seq<char>> {
    parts.map_values(|p: Seq<u8>| utf8_lossy(p))
}

/// The parts joined by single spaces.
pub open spec fn join_spaced(parts: Seq<Seq<char>>) -> Seq<char>
    decreases parts.len(),
{
    if parts.len() == 0 {
        Seq::empty()
    } else if parts.len() == 1 {
        parts[0]
    } else {
        join_spaced(parts.drop_last()) + seq![' '] + parts.last()
    }
}

/// Finds the first NUL byte at or after `start`; the length when there is none.
pub fn find_nul(b: &[u8], start: usize) -> (r: usize)
    requires
        start <= b@.len(),
    ensures
        r == next_nul(b@, start as int),
        start <= r <= b@.len(),
        r < b@.len() ==> b@[r as int] == 0,
{
    let mut i: usize = start;
    while i < b.len()
        invariant
            start <= i <= b@.len(),
            next_nul(b@, i as int) == next_nul(b@, start as int),
        decreases b@.len() - i,
    {
        if b[i] == 0 {
            return i;
        }
        i = i + 1;
    }
    i
}

/// Copies the bytes in `lo..hi`.
pub fn copy_range(b: &[u8], lo: usize, hi: usize) -> (r: Vec<u8>)
    requires
        lo <= hi <= b@.len(),
    ensures
        r@ == b@.subrange(lo as int, hi as int),
{
    let mut r: Vec<u8> = Vec::new();
    let mut i: usize = lo;
    while i < hi
        invariant
            lo <= i <= hi <= b@.len(),
            r@ == b@.subrange(lo as int, i as int),
        decreases hi - i,
    {
        r.push(b[i]);
        i = i + 1;
        assert(r@ =~= b@.subrange(lo as int, i as int));
    }
    r
}

/// Reads a fixed-width C string field: the bytes before the first NUL (the
/// whole field when it holds none), decoded permissively.
pub fn c_string_text(field: &[u8]) -> (r: String)
    ensures
        r@ == utf8_lossy(c_string(field@)),
{
    let end = find_nul(field, 0);
    let bytes = copy_range(field, 0, end);
    assert(bytes@ =~= c_string(field@));
    decode_utf8_lossy(bytes.as_slice())
}

/// Appends `part` to a space-joined list of parts.
pub(crate) fn push_spaced(
    out: &mut String,
    part: &String,
    first: bool,
    Ghost(parts): Ghost<Seq<Seq<char>>>,
)
    requires
        old(out)@ == join_spaced(parts),
        first == (parts.len() == 0),
    ensures
        final(out)@ == join_spaced(parts.push(part@)),
{
    proof {
        reveal_strlit(" ");
    }
    assert(parts.push(part@).drop_last() =~= parts);
    if !first {
        out.append(" ");
    }
    out.append(part.as_str());
}

} // verus!
