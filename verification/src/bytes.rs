//! Byte-level helpers shared by the container parsers: big-endian readers,
//! range copies and their mathematical meaning.
use vstd::prelude::*;

verus! {

/// Big-endian value of the four bytes of `d` starting at `i`.
pub open spec fn be_u32(d: Seq<u8>, i: int) -> u32 {
    (d[i] as int * 0x100_0000 + d[i + 1] as int * 0x1_0000 + d[i + 2] as int * 0x100
        + d[i + 3] as int) as u32
}

/// Big-endian value of the eight bytes of `d` starting at `i`.
pub open spec fn be_u64(d: Seq<u8>, i: int) -> u64 {
    (be_u32(d, i) as int * 0x1_0000_0000 + be_u32(d, i + 4) as int) as u64
}

/// The four big-endian bytes of `v`.
pub open spec fn u32_be_bytes(v: u32) -> Seq<u8> {
    seq![
        (v / 0x100_0000) as u8,
        ((v / 0x1_0000) % 0x100) as u8,
        ((v / 0x100) % 0x100) as u8,
        (v % 0x100) as u8,
    ]
}

/// Reading back the bytes written for `v` gives `v`.
pub proof fn lemma_be_u32_roundtrip(v: u32)
    ensures
        be_u32(u32_be_bytes(v), 0) == v,
{
    let b = u32_be_bytes(v);
    assert(b[0] as int == v / 0x100_0000);
    assert(b[1] as int == (v / 0x1_0000) % 0x100);
    assert(b[2] as int == (v / 0x100) % 0x100);
    assert(b[3] as int == v % 0x100);
    assert(v as int == (v / 0x100_0000) * 0x100_0000 + ((v / 0x1_0000) % 0x100) * 0x1_0000 + ((v
        / 0x100) % 0x100) * 0x100 + v % 0x100) by (nonlinear_arith);
}

/// The value of four bytes read big-endian is below 2^32.
proof fn lemma_be_u32_exact(d: Seq<u8>, i: int)
    requires
        0 <= i,
        i + 4 <= d.len(),
    ensures
        be_u32(d, i) as int == d[i] as int * 0x100_0000 + d[i + 1] as int * 0x1_0000 + d[i + 2] as int
            * 0x100 + d[i + 3] as int,
{
}

/// Reads the big-endian `u32` at `offset`; the caller has checked the range.
pub fn be_u32_at(data: &[u8], offset: usize) -> (v: u32)
    requires
        offset + 4 <= data@.len(),
    ensures
        v == be_u32(data@, offset as int),
{
    proof {
        lemma_be_u32_exact(data@, offset as int);
    }
    let a = data[offset] as u32;
    let b = data[offset + 1] as u32;
    let c = data[offset + 2] as u32;
    let d = data[offset + 3] as u32;
    a * 0x100_0000 + b * 0x1_0000 + c * 0x100 + d
}

/// Reads the big-endian `u64` at `offset`; the caller has checked the range.
pub fn be_u64_at(data: &[u8], offset: usize) -> (v: u64)
    requires
        offset + 8 <= data.len(),
    ensures
        v == be_u64(data@, offset as int),
{
    let hi = be_u32_at(data, offset) as u64;
    let lo = be_u32_at(data, offset + 4) as u64;
    hi * 0x1_0000_0000 + lo
}

/// The big-endian bytes of `v` as an array.
pub fn u32_to_be(v: u32) -> (out: [u8; 4])
    ensures
        out@ == u32_be_bytes(v),
{
    let out = [
        (v / 0x100_0000) as u8,
        ((v / 0x1_0000) % 0x100) as u8,
        ((v / 0x100) % 0x100) as u8,
        (v % 0x100) as u8,
    ];
    assert(out@ =~= u32_be_bytes(v));
    out
}

/// Appends `data[from..to]` to `out`.
pub fn append_range(out: &mut Vec<u8>, data: &[u8], from: usize, to: usize)
    requires
        from <= to <= data@.len(),
    ensures
        final(out)@ == old(out)@ + data@.subrange(from as int, to as int),
{
    let ghost start = out@;
    let mut i = from;
    while i < to
        invariant
            from <= i <= to <= data@.len(),
            out@ == start + data@.subrange(from as int, i as int),
        decreases to - i,
    {
        out.push(data[i]);
        assert(data@.subrange(from as int, i + 1) =~= data@.subrange(from as int, i as int).push(
            data@[i as int],
        ));
        i += 1;
    }
}

/// Appends every byte of `data` to `out`.
pub fn append_all(out: &mut Vec<u8>, data: &[u8])
    ensures
        final(out)@ == old(out)@ + data@,
{
    append_range(out, data, 0, data.len());
    assert(data@.subrange(0, data@.len() as int) =~= data@);
}

/// A fresh vector holding `data[from..to]`.
pub fn copy_range(data: &[u8], from: usize, to: usize) -> (out: Vec<u8>)
    requires
        from <= to <= data@.len(),
    ensures
        out@ == data@.subrange(from as int, to as int),
{
    let mut out = Vec::new();
    append_range(&mut out, data, from, to);
    assert(Seq::<u8>::empty() + data@.subrange(from as int, to as int) =~= data@.subrange(
        from as int,
        to as int,
    ));
    out
}

} // verus!
