//! Content fingerprints: a cheap partial hash over the head and tail of a file,
//! and a full hash over its whole content, both BLAKE3.

use vstd::prelude::*;

verus! {

/// Size of each region that the partial hash reads.
pub const PARTIAL_CHUNK: u64 = 16384;

/// Files larger than this get their tail region hashed as well.
pub const PARTIAL_SPLIT: u64 = 32768;

/// The 32-byte BLAKE3 digest of a byte sequence.
pub uninterp spec fn blake3_of(data: Seq<u8>) -> Seq<u8>;

/// Relies on `blake3::hash`: the 32-byte digest of the input, which the
/// crate documents as equal to feeding the same bytes to a `Hasher`.
#[verifier::external_body]
fn blake3_digest(data: &[u8]) -> (r: [u8; 32])
    ensures
        r@ == blake3_of(data@),
{
    blake3::hash(data).into()
}

/// Relies on `String::push`: appends one character.
#[verifier::external_body]
fn push_char(s: &mut String, c: char)
    ensures
        final(s)@ == old(s)@.push(c),
{
    s.push(c)
}

/// Lowercase hexadecimal digit of a value below 16.
pub open spec fn hex_digit(n: u8) -> char {
    if n < 10 {
        (n + 48) as char
    } else {
        (n + 87) as char
    }
}

/// Lowercase hexadecimal text of a byte sequence, two digits per byte.
pub open spec fn hex_of(b: Seq<u8>) -> Seq<char>
    decreases b.len(),
{
    if b.len() == 0 {
        Seq::empty()
    } else {
        let last = b.last();
        hex_of(b.drop_last()).push(hex_digit(last / 16)).push(hex_digit(last % 16))
    }
}

fn hex_digit_exec(n: u8) -> (c: char)
    requires
        n < 16,
    ensures
        c == hex_digit(n),
{
    if n < 10 {
        (n + 48) as char
    } else {
        (n + 87) as char
    }
}

/// Lowercase hexadecimal encoding of a digest.
pub fn to_hex(bytes: &[u8; 32]) -> (r: String)
    ensures
        r@ == hex_of(bytes@),
{
    let mut s = String::new();
    let mut i: usize = 0;
    while i < 32
        invariant
            0 <= i <= 32,
            bytes@.len() == 32,
            s@ == hex_of(bytes@.subrange(0, i as int)),
        decreases 32 - i,
    {
        let b = bytes[i];
        push_char(&mut s, hex_digit_exec(b / 16));
        push_char(&mut s, hex_digit_exec(b % 16));
        proof {
            let pre = bytes@.subrange(0, i as int + 1);
            assert(pre.drop_last() == bytes@.subrange(0, i as int));
        }
        i = i + 1;
    }
    assert(bytes@.subrange(0, 32) == bytes@);
    s
}

/// What the partial hash of a file of `len` bytes is fed: the leading read,
/// followed by the trailing read only when the file is larger than
/// `PARTIAL_SPLIT` bytes.
pub open spec fn partial_input(len: int, head: Seq<u8>, tail: Seq<u8>) -> Seq<u8> {
    if len > PARTIAL_SPLIT {
        head + tail
    } else {
        head
    }
}

/// The regions of a whole content that the partial hash covers: the first
/// `PARTIAL_CHUNK` bytes, and the last `PARTIAL_CHUNK` bytes when the content
/// is larger than `PARTIAL_SPLIT` bytes.
pub open spec fn partial_region(c: Seq<u8>) -> Seq<u8> {
    if c.len() > PARTIAL_SPLIT {
        c.subrange(0, PARTIAL_CHUNK as int) + c.subrange(c.len() - PARTIAL_CHUNK, c.len() as int)
    } else if c.len() > PARTIAL_CHUNK {
        c.subrange(0, PARTIAL_CHUNK as int)
    } else {
        c
    }
}

/// Where the trailing read of the partial hash starts in a file of `len`
/// bytes, if the file is large enough to have one.
pub fn tail_offset(len: u64) -> (r: Option<u64>)
    ensures
        len > PARTIAL_SPLIT ==> r == Some((len - PARTIAL_CHUNK) as u64),
        len <= PARTIAL_SPLIT ==> r.is_none(),
{
    if len > PARTIAL_SPLIT {
        Some(len - PARTIAL_CHUNK)
    } else {
        None
    }
}

fn append_range(v: &mut Vec<u8>, s: &[u8], from: usize, to: usize)
    requires
        from <= to <= s@.len(),
    ensures
        final(v)@ == old(v)@ + s@.subrange(from as int, to as int),
{
    let ghost start = v@;
    let mut i = from;
    while i < to
        invariant
            from <= i <= to <= s@.len(),
            v@ == start + s@.subrange(from as int, i as int),
        decreases to - i,
    {
        v.push(s[i]);
        proof {
            assert(s@.subrange(from as int, i as int + 1) == s@.subrange(from as int, i as int).push(s@[i as int]));
        }
        i = i + 1;
    }
}

/// Partial hash of a file of `len` bytes from its leading read `head` and its
/// trailing read `tail` (the latter is ignored unless the file is larger than
/// `PARTIAL_SPLIT` bytes).
pub fn calculate_partial_hash(len: u64, head: &[u8], tail: &[u8]) -> (r: [u8; 32])
    requires
        head@.len() + tail@.len() <= usize::MAX,
    ensures
        r@ == blake3_of(partial_input(len as int, head@, tail@)),
{
    let mut buf: Vec<u8> = Vec::new();
    append_range(&mut buf, head, 0, head.len());
    if len > PARTIAL_SPLIT {
        append_range(&mut buf, tail, 0, tail.len());
    }
    assert(head@.subrange(0, head@.len() as int) == head@);
    assert(tail@.subrange(0, tail@.len() as int) == tail@);
    assert(buf@ == partial_input(len as int, head@, tail@));
    blake3_digest(buf.as_slice())
}

/// Partial hash computed from a whole content held in memory.
pub fn partial_hash_of_content(content: &[u8]) -> (r: [u8; 32])
    ensures
        r@ == blake3_of(partial_region(content@)),
{
    let n = content.len();
    let mut buf: Vec<u8> = Vec::new();
    if n as u64 > PARTIAL_SPLIT {
        append_range(&mut buf, content, 0, PARTIAL_CHUNK as usize);
        append_range(&mut buf, content, n - PARTIAL_CHUNK as usize, n);
    } else if n as u64 > PARTIAL_CHUNK {
        append_range(&mut buf, content, 0, PARTIAL_CHUNK as usize);
    } else {
        append_range(&mut buf, content, 0, n);
        assert(content@.subrange(0, n as int) == content@);
    }
    assert(buf@ == partial_region(content@));
    blake3_digest(buf.as_slice())
}

/// Full hash of a content, as lowercase hexadecimal text.
pub fn calculate_hash(content: &[u8]) -> (r: String)
    ensures
        r@ == hex_of(blake3_of(content@)),
{
    let d = blake3_digest(content);
    to_hex(&d)
}

} // verus!
