//! Fixed-width integers inside byte strings, and copying of byte ranges.

use vstd::prelude::*;

verus! {

/// The number that the four bytes at `at` spell, most significant byte first.
pub open spec fn spec_u32_be(data: Seq<u8>, at: int) -> int {
    data[at] * 0x100_0000 + data[at + 1] * 0x1_0000 + data[at + 2] * 0x100 + data[at + 3]
}

/// The number that the four bytes at `at` spell, least significant byte first.
pub open spec fn spec_u32_le(data: Seq<u8>, at: int) -> int {
    data[at] + data[at + 1] * 0x100 + data[at + 2] * 0x1_0000 + data[at + 3] * 0x100_0000
}

/// The four bytes of `v`, most significant first.
pub open spec fn be_bytes(v: int) -> Seq<u8> {
    seq![
        (v / 0x100_0000 % 0x100) as u8,
        (v / 0x1_0000 % 0x100) as u8,
        (v / 0x100 % 0x100) as u8,
        (v % 0x100) as u8,
    ]
}

/// The four bytes of `v`, least significant first.
pub open spec fn le_bytes(v: int) -> Seq<u8> {
    seq![
        (v % 0x100) as u8,
        (v / 0x100 % 0x100) as u8,
        (v / 0x1_0000 % 0x100) as u8,
        (v / 0x100_0000 % 0x100) as u8,
    ]
}

/// Reading back what `be_bytes` wrote gives the number again.
pub proof fn lemma_be_round_trip(data: Seq<u8>, at: int, v: int)
    requires
        0 <= v <= u32::MAX,
        0 <= at,
        at + 4 <= data.len(),
        data.subrange(at, at + 4) == be_bytes(v),
    ensures
        spec_u32_be(data, at) == v,
{
    let s = data.subrange(at, at + 4);
    assert(s[0] == data[at] && s[1] == data[at + 1] && s[2] == data[at + 2] && s[3] == data[at
        + 3]);
}

/// Reading back what `le_bytes` wrote gives the number again.
pub proof fn lemma_le_round_trip(data: Seq<u8>, at: int, v: int)
    requires
        0 <= v <= u32::MAX,
        0 <= at,
        at + 4 <= data.len(),
        data.subrange(at, at + 4) == le_bytes(v),
    ensures
        spec_u32_le(data, at) == v,
{
    let s = data.subrange(at, at + 4);
    assert(s[0] == data[at] && s[1] == data[at + 1] && s[2] == data[at + 2] && s[3] == data[at
        + 3]);
}

/// The byte string `data` with `piece` put in at offset `at`.
pub open spec fn spec_insert_bytes(data: Seq<u8>, at: int, piece: Seq<u8>) -> Seq<u8> {
    data.subrange(0, at) + piece + data.subrange(at, data.len() as int)
}

/// What stood before the place of insertion still stands there, the piece
/// follows, and what stood behind has moved back by the piece's length.
pub proof fn lemma_insert_bytes(data: Seq<u8>, at: int, piece: Seq<u8>)
    requires
        0 <= at <= data.len(),
    ensures
        spec_insert_bytes(data, at, piece).len() == data.len() + piece.len(),
        spec_insert_bytes(data, at, piece).subrange(0, at) == data.subrange(0, at),
        spec_insert_bytes(data, at, piece).subrange(at, at + piece.len()) == piece,
        spec_insert_bytes(data, at, piece).subrange(
            at + piece.len(),
            (data.len() + piece.len()) as int,
        ) == data.subrange(at, data.len() as int),
{
    let out = spec_insert_bytes(data, at, piece);
    assert(out.subrange(0, at) =~= data.subrange(0, at));
    assert(out.subrange(at, at + piece.len()) =~= piece);
    assert(out.subrange(at + piece.len(), (data.len() + piece.len()) as int) =~= data.subrange(
        at,
        data.len() as int,
    ));
}

/// Two windows that hold the same bytes hold the same bytes in every part.
pub proof fn lemma_window_part(a: Seq<u8>, pa: int, b: Seq<u8>, pb: int, n: int, lo: int, hi: int)
    requires
        0 <= pa,
        0 <= pb,
        pa + n <= a.len(),
        pb + n <= b.len(),
        0 <= lo <= hi <= n,
        a.subrange(pa, pa + n) == b.subrange(pb, pb + n),
    ensures
        a.subrange(pa + lo, pa + hi) == b.subrange(pb + lo, pb + hi),
{
    assert(a.subrange(pa + lo, pa + hi) =~= a.subrange(pa, pa + n).subrange(lo, hi));
    assert(b.subrange(pb + lo, pb + hi) =~= b.subrange(pb, pb + n).subrange(lo, hi));
}

/// Two windows that hold the same bytes hold the same byte at every offset.
pub proof fn lemma_window_byte(a: Seq<u8>, pa: int, b: Seq<u8>, pb: int, n: int, j: int)
    requires
        0 <= pa,
        0 <= pb,
        pa + n <= a.len(),
        pb + n <= b.len(),
        0 <= j < n,
        a.subrange(pa, pa + n) == b.subrange(pb, pb + n),
    ensures
        a[pa + j] == b[pb + j],
{
    assert(a[pa + j] == a.subrange(pa, pa + n)[j]);
    assert(b[pb + j] == b.subrange(pb, pb + n)[j]);
}

/// Reads a big-endian `u32` at `at`.
pub fn read_u32_be(data: &[u8], at: usize) -> (v: u32)
    requires
        at + 4 <= data@.len(),
    ensures
        v == spec_u32_be(data@, at as int),
{
    let b0: u32 = data[at] as u32;
    let b1: u32 = data[at + 1] as u32;
    let b2: u32 = data[at + 2] as u32;
    let b3: u32 = data[at + 3] as u32;
    b0 * 0x100_0000 + b1 * 0x1_0000 + b2 * 0x100 + b3
}

/// Reads a little-endian `u32` at `at`.
pub fn read_u32_le(data: &[u8], at: usize) -> (v: u32)
    requires
        at + 4 <= data@.len(),
    ensures
        v == spec_u32_le(data@, at as int),
{
    let b0: u32 = data[at] as u32;
    let b1: u32 = data[at + 1] as u32;
    let b2: u32 = data[at + 2] as u32;
    let b3: u32 = data[at + 3] as u32;
    b0 + b1 * 0x100 + b2 * 0x1_0000 + b3 * 0x100_0000
}

/// Appends `v` to `out`, most significant byte first.
pub fn push_u32_be(out: &mut Vec<u8>, v: u32)
    ensures
        final(out)@ == old(out)@ + be_bytes(v as int),
{
    out.push((v / 0x100_0000 % 0x100) as u8);
    out.push((v / 0x1_0000 % 0x100) as u8);
    out.push((v / 0x100 % 0x100) as u8);
    out.push((v % 0x100) as u8);
    assert(out@ =~= old(out)@ + be_bytes(v as int));
}

/// Appends `v` to `out`, least significant byte first.
pub fn push_u32_le(out: &mut Vec<u8>, v: u32)
    ensures
        final(out)@ == old(out)@ + le_bytes(v as int),
{
    out.push((v % 0x100) as u8);
    out.push((v / 0x100 % 0x100) as u8);
    out.push((v / 0x1_0000 % 0x100) as u8);
    out.push((v / 0x100_0000 % 0x100) as u8);
    assert(out@ =~= old(out)@ + le_bytes(v as int));
}

/// Appends the bytes `data[from..to]` to `out`.
pub fn push_range(out: &mut Vec<u8>, data: &[u8], from: usize, to: usize)
    requires
        from <= to <= data@.len(),
    ensures
        final(out)@ == old(out)@ + data@.subrange(from as int, to as int),
{
    let mut i: usize = from;
    while i < to
        invariant
            from <= i <= to <= data@.len(),
            out@ == old(out)@ + data@.subrange(from as int, i as int),
        decreases to - i,
    {
        out.push(data[i]);
        i += 1;
        assert(out@ =~= old(out)@ + data@.subrange(from as int, i as int));
    }
}

} // verus!
