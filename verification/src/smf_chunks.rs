//! Where the header of a Standard MIDI File lies among its bytes, found the way `midly`
//! walks the chunks: through an RMID (RIFF) wrapper where the file has one, then past
//! chunks of unknown kind up to the first header or track chunk.
//!
//! A header whose division word has the top byte 0x80 asks for -128 frames per second;
//! `midly` negates that byte as an `i8`, which overflows. `midly` reads the first header
//! chunk, and every later one that its walk over the track chunks meets, so the library
//! looks for such a header along the same walk and refuses the file before the parse.
use vstd::prelude::*;

verus! {

/// `s` holds the four bytes `t` at position `i`.
pub open spec fn tag_at(s: Seq<u8>, i: int, t: Seq<u8>) -> bool {
    &&& 0 <= i
    &&& i + 4 <= s.len()
    &&& s[i] == t[0] && s[i + 1] == t[1] && s[i + 2] == t[2] && s[i + 3] == t[3]
}

/// "MThd"
pub open spec fn header_tag() -> Seq<u8> {
    seq![0x4du8, 0x54u8, 0x68u8, 0x64u8]
}

/// "MTrk"
pub open spec fn track_tag() -> Seq<u8> {
    seq![0x4du8, 0x54u8, 0x72u8, 0x6bu8]
}

/// "RIFF"
pub open spec fn riff_tag() -> Seq<u8> {
    seq![0x52u8, 0x49u8, 0x46u8, 0x46u8]
}

/// "RMID"
pub open spec fn rmid_tag() -> Seq<u8> {
    seq![0x52u8, 0x4du8, 0x49u8, 0x44u8]
}

/// "data"
pub open spec fn data_tag() -> Seq<u8> {
    seq![0x64u8, 0x61u8, 0x74u8, 0x61u8]
}

/// The big-endian 32-bit number at position `i`.
pub open spec fn be_u32(s: Seq<u8>, i: int) -> int {
    s[i] * 16777216 + s[i + 1] * 65536 + s[i + 2] * 256 + s[i + 3]
}

/// The little-endian 32-bit number at position `i`.
pub open spec fn le_u32(s: Seq<u8>, i: int) -> int {
    s[i] + s[i + 1] * 256 + s[i + 2] * 65536 + s[i + 3] * 16777216
}

/// Where the data of a chunk ends when it starts at `start`, claims `len` bytes, and lies
/// in a region that ends at `end`: a chunk that runs past the region is cut there.
pub open spec fn chunk_end(start: int, len: int, end: int) -> int {
    if len <= end - start {
        start + len
    } else {
        end
    }
}

/// The data of the first `data` chunk among the RIFF chunks from `p` to `end`, as a
/// range of positions. A RIFF chunk has a tag, a little-endian length, its data, and a
/// pad byte after data of odd length.
pub open spec fn riff_data_from(s: Seq<u8>, p: int, end: int) -> Option<(int, int)>
    decreases end - p,
{
    if end - p < 8 {
        None
    } else {
        let len = le_u32(s, p + 4);
        let data_end = chunk_end(p + 8, len, end);
        let next = if len % 2 == 1 && data_end < end {
            data_end + 1
        } else {
            data_end
        };
        if tag_at(s, p, data_tag()) {
            Some((p + 8, data_end))
        } else {
            riff_data_from(s, next, end)
        }
    }
}

/// The MIDI data of an RMID file: the first `data` chunk inside the `RMID` form.
pub open spec fn riff_body(s: Seq<u8>) -> Option<(int, int)> {
    if s.len() < 8 {
        None
    } else {
        let end = chunk_end(8, le_u32(s, 4), s.len() as int);
        if end - 8 < 4 || !tag_at(s, 8, rmid_tag()) {
            None
        } else {
            riff_data_from(s, 12, end)
        }
    }
}

/// The range of bytes that holds the MIDI chunks: the whole file where it starts with
/// a header tag, the RMID data where it starts with a RIFF tag.
pub open spec fn smf_region(s: Seq<u8>) -> Option<(int, int)> {
    if tag_at(s, 0, riff_tag()) {
        riff_body(s)
    } else if tag_at(s, 0, header_tag()) {
        Some((0, s.len() as int))
    } else {
        None
    }
}

/// The data of the header chunk read from the chunks from `p` to `end`: the first chunk
/// with a header tag, unless a track chunk or the end comes before it. A chunk has a
/// tag, a big-endian length and its data.
pub open spec fn header_chunk_from(s: Seq<u8>, p: int, end: int) -> Option<(int, int)>
    decreases end - p,
{
    if end - p < 8 {
        None
    } else {
        let data_end = chunk_end(p + 8, be_u32(s, p + 4), end);
        if tag_at(s, p, header_tag()) {
            Some((p + 8, data_end))
        } else if tag_at(s, p, track_tag()) {
            None
        } else {
            header_chunk_from(s, data_end, end)
        }
    }
}

/// The header data from `hs` to `he` has a valid format (0, 1 or 2), holds a division
/// word, and the division's top byte is 0x80: reading it negates -128 as an `i8`.
pub open spec fn header_overflows(s: Seq<u8>, hs: int, he: int) -> bool {
    he - hs >= 6 && s[hs] * 256 + s[hs + 1] <= 2 && s[hs + 4] == 0x80
}

/// The header data from `hs` to `he` reads without error: a valid format, a track count,
/// and a division in ticks per beat or in 24, 25, 29.97 or 30 frames per second (top
/// byte 0xE8, 0xE7, 0xE3 or 0xE2).
pub open spec fn header_reads(s: Seq<u8>, hs: int, he: int) -> bool {
    let hi = s[hs + 4];
    he - hs >= 6 && s[hs] * 256 + s[hs + 1] <= 2 && (hi < 0x80 || hi == 0xE8 || hi == 0xE7
        || hi == 0xE3 || hi == 0xE2)
}

/// Among the chunks from `p` to `end` that follow the header, which are read until one
/// fails to read, a header chunk overflows. A later header is read like the first, and
/// one that reads without error is passed over.
pub open spec fn later_header_overflows(s: Seq<u8>, p: int, end: int) -> bool
    decreases end - p,
{
    if end - p < 8 {
        false
    } else {
        let data_end = chunk_end(p + 8, be_u32(s, p + 4), end);
        if tag_at(s, p, header_tag()) {
            header_overflows(s, p + 8, data_end) || (header_reads(s, p + 8, data_end)
                && later_header_overflows(s, data_end, end))
        } else {
            later_header_overflows(s, data_end, end)
        }
    }
}

/// A header chunk that a parse of `s` reads overflows: the first header, or one that
/// the walk over the track chunks meets after it. A parse of such bytes never succeeds
/// where overflow is checked.
pub open spec fn division_overflows(s: Seq<u8>) -> bool {
    match smf_region(s) {
        Some((start, end)) => match header_chunk_from(s, start, end) {
            Some((hs, he)) => header_overflows(s, hs, he) || (header_reads(s, hs, he)
                && later_header_overflows(s, he, end)),
            None => false,
        },
        None => false,
    }
}

pub open spec fn as_range(r: Option<(usize, usize)>) -> Option<(int, int)> {
    match r {
        Some((a, b)) => Some((a as int, b as int)),
        None => None,
    }
}

fn tag_is(b: &[u8], i: usize, t0: u8, t1: u8, t2: u8, t3: u8) -> (r: bool)
    ensures
        r == tag_at(b@, i as int, seq![t0, t1, t2, t3]),
{
    i <= b.len() && b.len() - i >= 4 && b[i] == t0 && b[i + 1] == t1 && b[i + 2] == t2 && b[i
        + 3] == t3
}

fn read_le_u32(b: &[u8], i: usize) -> (r: u64)
    requires
        i + 4 <= b@.len(),
    ensures
        r == le_u32(b@, i as int),
{
    b[i] as u64 + (b[i + 1] as u64) * 256 + (b[i + 2] as u64) * 65536 + (b[i + 3] as u64)
        * 16777216
}

fn read_be_u32(b: &[u8], i: usize) -> (r: u64)
    requires
        i + 4 <= b@.len(),
    ensures
        r == be_u32(b@, i as int),
{
    (b[i] as u64) * 16777216 + (b[i + 1] as u64) * 65536 + (b[i + 2] as u64) * 256 + b[i
        + 3] as u64
}

fn riff_data(b: &[u8], start: usize, end: usize) -> (r: Option<(usize, usize)>)
    requires
        start <= end <= b@.len(),
    ensures
        as_range(r) == riff_data_from(b@, start as int, end as int),
{
    let mut p: usize = start;
    while end - p >= 8
        invariant
            start <= p <= end <= b@.len(),
            riff_data_from(b@, p as int, end as int) == riff_data_from(
                b@,
                start as int,
                end as int,
            ),
        decreases end - p,
    {
        let len = read_le_u32(b, p + 4);
        let data_start = p + 8;
        let data_end = if len <= (end - data_start) as u64 {
            data_start + len as usize
        } else {
            end
        };
        if tag_is(b, p, 0x64, 0x61, 0x74, 0x61) {
            return Some((data_start, data_end));
        }
        p = if len % 2 == 1 && data_end < end {
            data_end + 1
        } else {
            data_end
        };
    }
    None
}

fn riff_region(b: &[u8]) -> (r: Option<(usize, usize)>)
    ensures
        as_range(r) == riff_body(b@),
{
    if b.len() < 8 {
        return None;
    }
    let len = read_le_u32(b, 4);
    let end = if len <= (b.len() - 8) as u64 {
        8 + len as usize
    } else {
        b.len()
    };
    if end - 8 < 4 || !tag_is(b, 8, 0x52, 0x4d, 0x49, 0x44) {
        return None;
    }
    riff_data(b, 12, end)
}

fn region(b: &[u8]) -> (r: Option<(usize, usize)>)
    ensures
        as_range(r) == smf_region(b@),
        r matches Some((s, e)) ==> s <= e <= b@.len(),
{
    if tag_is(b, 0, 0x52, 0x49, 0x46, 0x46) {
        let r = riff_region(b);
        proof {
            if r is Some {
                lemma_riff_data_in_bounds(b@);
            }
        }
        r
    } else if tag_is(b, 0, 0x4d, 0x54, 0x68, 0x64) {
        Some((0, b.len()))
    } else {
        None
    }
}

proof fn lemma_riff_data_from_in_bounds(s: Seq<u8>, p: int, end: int)
    requires
        0 <= p <= end <= s.len(),
    ensures
        riff_data_from(s, p, end) matches Some((a, z)) ==> 0 <= a <= z <= end,
    decreases end - p,
{
    if end - p >= 8 {
        let len = le_u32(s, p + 4);
        let data_end = chunk_end(p + 8, len, end);
        let next = if len % 2 == 1 && data_end < end {
            data_end + 1
        } else {
            data_end
        };
        lemma_riff_data_from_in_bounds(s, next, end);
    }
}

proof fn lemma_riff_data_in_bounds(s: Seq<u8>)
    ensures
        riff_body(s) matches Some((a, z)) ==> 0 <= a <= z <= s.len(),
{
    if s.len() >= 8 {
        let end = chunk_end(8, le_u32(s, 4), s.len() as int);
        if end >= 12 {
            lemma_riff_data_from_in_bounds(s, 12, end);
        }
    }
}

proof fn lemma_header_chunk_in_bounds(s: Seq<u8>, p: int, end: int)
    requires
        0 <= p <= end <= s.len(),
    ensures
        header_chunk_from(s, p, end) matches Some((a, z)) ==> 0 <= a <= z <= end,
    decreases end - p,
{
    if end - p >= 8 {
        let data_end = chunk_end(p + 8, be_u32(s, p + 4), end);
        lemma_header_chunk_in_bounds(s, data_end, end);
    }
}

fn header_chunk(b: &[u8], start: usize, end: usize) -> (r: Option<(usize, usize)>)
    requires
        start <= end <= b@.len(),
    ensures
        as_range(r) == header_chunk_from(b@, start as int, end as int),
        r matches Some((s, e)) ==> s <= e <= end,
{
    proof {
        lemma_header_chunk_in_bounds(b@, start as int, end as int);
    }
    let mut p: usize = start;
    while end - p >= 8
        invariant
            start <= p <= end <= b@.len(),
            header_chunk_from(b@, p as int, end as int) == header_chunk_from(
                b@,
                start as int,
                end as int,
            ),
        decreases end - p,
    {
        let len = read_be_u32(b, p + 4);
        let data_start = p + 8;
        let data_end = if len <= (end - data_start) as u64 {
            data_start + len as usize
        } else {
            end
        };
        if tag_is(b, p, 0x4d, 0x54, 0x68, 0x64) {
            return Some((data_start, data_end));
        }
        if tag_is(b, p, 0x4d, 0x54, 0x72, 0x6b) {
            return None;
        }
        p = data_end;
    }
    None
}

fn header_overflows_at(b: &[u8], hs: usize, he: usize) -> (r: bool)
    requires
        hs <= he <= b@.len(),
    ensures
        r == header_overflows(b@, hs as int, he as int),
{
    he - hs >= 6 && (b[hs] as u32) * 256 + (b[hs + 1] as u32) <= 2 && b[hs + 4] == 0x80
}

fn header_reads_at(b: &[u8], hs: usize, he: usize) -> (r: bool)
    requires
        hs <= he <= b@.len(),
    ensures
        r == header_reads(b@, hs as int, he as int),
{
    if he - hs < 6 || (b[hs] as u32) * 256 + (b[hs + 1] as u32) > 2 {
        return false;
    }
    let hi = b[hs + 4];
    hi < 0x80 || hi == 0xE8 || hi == 0xE7 || hi == 0xE3 || hi == 0xE2
}

fn later_overflow(b: &[u8], start: usize, end: usize) -> (r: bool)
    requires
        start <= end <= b@.len(),
    ensures
        r == later_header_overflows(b@, start as int, end as int),
{
    let mut p: usize = start;
    while end - p >= 8
        invariant
            start <= p <= end <= b@.len(),
            later_header_overflows(b@, p as int, end as int) == later_header_overflows(
                b@,
                start as int,
                end as int,
            ),
        decreases end - p,
    {
        let len = read_be_u32(b, p + 4);
        let data_start = p + 8;
        let data_end = if len <= (end - data_start) as u64 {
            data_start + len as usize
        } else {
            end
        };
        if tag_is(b, p, 0x4d, 0x54, 0x68, 0x64) {
            if header_overflows_at(b, data_start, data_end) {
                return true;
            }
            if !header_reads_at(b, data_start, data_end) {
                return false;
            }
        }
        p = data_end;
    }
    false
}

/// Whether a header chunk that a parse of `b` reads asks for -128 frames per second.
pub fn division_overflows_in(b: &[u8]) -> (r: bool)
    ensures
        r == division_overflows(b@),
{
    match region(b) {
        Some((start, end)) => match header_chunk(b, start, end) {
            Some((hs, he)) => header_overflows_at(b, hs, he) || (header_reads_at(b, hs, he)
                && later_overflow(b, he, end)),
            None => false,
        },
        None => false,
    }
}

/// At position `p` stands a header chunk ("MThd", a length, a format) with format 0, 1 or
/// 2 and the division top byte 0x80: -128 frames per second.
pub open spec fn minus_128_header_at(s: Seq<u8>, p: int) -> bool {
    &&& 0 <= p
    &&& p + 14 <= s.len()
    &&& s[p] == 0x4d && s[p + 1] == 0x54 && s[p + 2] == 0x68 && s[p + 3] == 0x64
    &&& s[p + 8] == 0 && s[p + 9] <= 2
    &&& s[p + 12] == 0x80
}

proof fn lemma_header_chunk_is_tagged(s: Seq<u8>, p: int, end: int)
    requires
        0 <= p <= end <= s.len(),
    ensures
        header_chunk_from(s, p, end) matches Some((a, z)) ==> a >= 8 && tag_at(
            s,
            a - 8,
            header_tag(),
        ) && a <= z <= end,
    decreases end - p,
{
    if end - p >= 8 {
        let data_end = chunk_end(p + 8, be_u32(s, p + 4), end);
        lemma_header_chunk_is_tagged(s, data_end, end);
    }
}

proof fn lemma_later_overflow_has_witness(s: Seq<u8>, p: int, end: int)
    requires
        0 <= p <= end <= s.len(),
    ensures
        later_header_overflows(s, p, end) ==> exists|q: int| #[trigger]
            minus_128_header_at(s, q),
    decreases end - p,
{
    if end - p >= 8 {
        let data_end = chunk_end(p + 8, be_u32(s, p + 4), end);
        if tag_at(s, p, header_tag()) && header_overflows(s, p + 8, data_end) {
            assert(minus_128_header_at(s, p));
        } else {
            lemma_later_overflow_has_witness(s, data_end, end);
        }
    }
}

/// Division top bytes below 0x80 (ticks per beat) and those of 24, 25, 29.97 and 30
/// frames per second never overflow: a header of format 0, 1 or 2 with a division word
/// overflows exactly when its division's top byte is 0x80, whatever its format, track
/// count or ticks.
pub proof fn law_only_minus_128_overflows(s: Seq<u8>, hs: int, he: int)
    requires
        0 <= hs,
        hs + 6 <= he,
        he <= s.len(),
        s[hs] == 0,
        s[hs + 1] <= 2,
    ensures
        header_overflows(s, hs, he) <==> s[hs + 4] == 0x80,
        s[hs + 4] < 0x80 ==> header_reads(s, hs, he),
{
}

/// A file is refused for its division only where a header chunk in it, one with format 0,
/// 1 or 2, asks for -128 frames per second: a file none of whose header chunks has the
/// division top byte 0x80 (any file with metrical timing) is never refused for it.
pub proof fn law_refusal_needs_a_minus_128_header(s: Seq<u8>)
    ensures
        division_overflows(s) ==> exists|q: int| #[trigger] minus_128_header_at(s, q),
{
    if division_overflows(s) {
        let (start, end) = smf_region(s)->0;
        if tag_at(s, 0, riff_tag()) {
            lemma_riff_data_in_bounds(s);
        }
        lemma_header_chunk_is_tagged(s, start, end);
        let (hs, he) = header_chunk_from(s, start, end)->0;
        if header_overflows(s, hs, he) {
            assert(minus_128_header_at(s, hs - 8));
        } else {
            lemma_later_overflow_has_witness(s, he, end);
        }
    }
}

/// A file that starts with a header chunk of format 0, 1 or 2 whose division's top byte
/// is 0x80 is refused.
pub proof fn law_leading_minus_128_header_is_refused(s: Seq<u8>)
    requires
        minus_128_header_at(s, 0),
        be_u32(s, 4) >= 6,
    ensures
        division_overflows(s),
{
    assert(!tag_at(s, 0, riff_tag()));
    assert(tag_at(s, 0, header_tag()));
    let data_end = chunk_end(8, be_u32(s, 4), s.len() as int);
    assert(header_chunk_from(s, 0, s.len() as int) == Some((8int, data_end)));
}

/// The little-endian bytes of `n`.
pub open spec fn le_bytes(n: u32) -> Seq<u8> {
    seq![(n & 0xff) as u8, ((n >> 8) & 0xff) as u8, ((n >> 16) & 0xff) as u8, (n >> 24) as u8]
}

/// The bytes of an RMID file that holds the MIDI file `s`: a RIFF chunk of form `RMID`
/// whose one chunk is `data`, holding `s`.
pub open spec fn rmid_wrap(s: Seq<u8>) -> Seq<u8> {
    seq![0x52u8, 0x49, 0x46, 0x46] + le_bytes((s.len() + 12) as u32) + seq![
        0x52u8,
        0x4d,
        0x49,
        0x44,
        0x64,
        0x61,
        0x74,
        0x61,
    ] + le_bytes(s.len() as u32) + s
}

proof fn lemma_le_bytes(n: u32)
    ensures
        le_u32(le_bytes(n), 0) == n,
{
    let b = le_bytes(n);
    let b0: u8 = b[0];
    let b1: u8 = b[1];
    let b2: u8 = b[2];
    let b3: u8 = b[3];
    assert(b0 + b1 * 256 + b2 * 65536 + b3 * 16777216 == n) by (bit_vector)
        requires
            b0 == (n & 0xff) as u8,
            b1 == ((n >> 8) & 0xff) as u8,
            b2 == ((n >> 16) & 0xff) as u8,
            b3 == (n >> 24) as u8,
    ;
}

/// A file that starts with a header tag is read whole; the same file wrapped in an RMID
/// container is read from exactly the wrapped bytes.
pub proof fn law_rmid_wrapper_holds_the_file(s: Seq<u8>)
    requires
        tag_at(s, 0, header_tag()),
        s.len() + 12 < 0x1_0000_0000,
    ensures
        smf_region(s) == Some((0int, s.len() as int)),
        smf_region(rmid_wrap(s)) == Some((20int, rmid_wrap(s).len() as int)),
        rmid_wrap(s).subrange(20, rmid_wrap(s).len() as int) == s,
{
    let w = rmid_wrap(s);
    let l = s.len();
    lemma_le_bytes((l + 12) as u32);
    lemma_le_bytes(l as u32);
    let a = le_bytes((l + 12) as u32);
    let c = le_bytes(l as u32);
    assert(w.len() == 20 + l);
    assert(w[4] == a[0] && w[5] == a[1] && w[6] == a[2] && w[7] == a[3]);
    assert(w[16] == c[0] && w[17] == c[1] && w[18] == c[2] && w[19] == c[3]);
    assert(le_u32(w, 4) == l + 12);
    assert(le_u32(w, 16) == l);
    assert(tag_at(w, 0, riff_tag()));
    assert(tag_at(w, 8, rmid_tag()));
    assert(tag_at(w, 12, data_tag()));
    assert(riff_data_from(w, 12, 20 + l as int) == Some((20int, 20 + l as int)));
    assert(w.subrange(20, w.len() as int) =~= s);
}

} // verus!
