//! ISO base media file format (MP4) box handling for encrypted Apple Music
//! fragments: walking boxes, locating the decryptable sample ranges of a
//! fragment, removing the encryption boxes from init segments and fragments,
//! and building ADTS headers for raw AAC output.
use vstd::prelude::*;
use vstd::slice::slice_subrange;
use vstd::string::StringSliceAdditionalSpecFns;
use std::ops::Range;

use crate::bytes::{lemma_be_u32_roundtrip, be_u32, be_u32_at, be_u64, be_u64_at, u32_be_bytes, u32_to_be, append_range, copy_range, append_all};
use crate::text::{concat2, lossy_string, owned, utf8_lossy, with_number};

verus! {

// Four-character box codes, as big-endian `u32` values.
pub const BOX_ENCA: u32 = 0x656e_6361;
pub const BOX_FRMA: u32 = 0x6672_6d61;
pub const BOX_MDAT: u32 = 0x6d64_6174;
pub const BOX_MDIA: u32 = 0x6d64_6961;
pub const BOX_MINF: u32 = 0x6d69_6e66;
pub const BOX_MOOF: u32 = 0x6d6f_6f66;
pub const BOX_MOOV: u32 = 0x6d6f_6f76;
pub const BOX_MP4A: u32 = 0x6d70_3461;
pub const BOX_PSSH: u32 = 0x7073_7368;
pub const BOX_SAIO: u32 = 0x7361_696f;
pub const BOX_SAIZ: u32 = 0x7361_697a;
pub const BOX_SBGP: u32 = 0x7362_6770;
pub const BOX_SENC: u32 = 0x7365_6e63;
pub const BOX_SGPD: u32 = 0x7367_7064;
pub const BOX_SINF: u32 = 0x7369_6e66;
pub const BOX_STBL: u32 = 0x7374_626c;
pub const BOX_STSD: u32 = 0x7374_7364;
pub const BOX_TFHD: u32 = 0x7466_6864;
pub const BOX_TRAF: u32 = 0x7472_6166;
pub const BOX_TRAK: u32 = 0x7472_616b;
pub const BOX_TRUN: u32 = 0x7472_756e;

/// A structural error in MP4 data.
#[derive(Debug)]
pub enum Mp4Error {
    Invalid(String),
}

/// One box found in a byte buffer: where it starts, its total size, its
/// four-character type and the length of its header.
#[derive(Clone, Copy, Debug, Eq, PartialEq)]
pub struct Mp4Box {
    pub offset: usize,
    pub size: usize,
    pub box_type: [u8; 4],
    pub header_size: usize,
}

/// Mathematical model of a box: offsets and sizes as integers and the type
/// code as the big-endian value of its four bytes.
pub struct BoxSpec {
    pub offset: int,
    pub size: int,
    pub tag: u32,
    pub header_size: int,
}

impl View for Mp4Box {
    type V = BoxSpec;

    open spec fn view(&self) -> BoxSpec {
        BoxSpec {
            offset: self.offset as int,
            size: self.size as int,
            tag: be_u32(self.box_type@, 0),
            header_size: self.header_size as int,
        }
    }
}

pub open spec fn box_views(s: Seq<Mp4Box>) -> Seq<BoxSpec> {
    s.map_values(|b: Mp4Box| b@)
}

/// The box whose header starts at `off` inside a parent ending at `end`, or
/// `None` when that header is malformed. Requires `off + 8 <= end <= d.len()`.
/// A 32-bit size of 1 announces a 64-bit size after the type; a size of 0
/// means the box extends to `end`.
pub open spec fn box_at(d: Seq<u8>, off: int, end: int) -> Option<BoxSpec> {
    let size32 = be_u32(d, off);
    let tag = be_u32(d, off + 4);
    if size32 == 1 {
        if off + 16 > d.len() {
            None
        } else {
            let s = be_u64(d, off + 8) as int;
            if s > usize::MAX || s == 0 || off + s > end {
                None
            } else {
                Some(BoxSpec { offset: off, size: s, tag, header_size: 16 })
            }
        }
    } else {
        let s = if size32 == 0 {
            end - off
        } else {
            size32 as int
        };
        if off + s > end {
            None
        } else {
            Some(BoxSpec { offset: off, size: s, tag, header_size: 8 })
        }
    }
}

/// The boxes laid end to end from `off` until fewer than eight bytes remain
/// before `end`; `None` when one of them is malformed.
pub open spec fn boxes_from(d: Seq<u8>, off: int, end: int) -> Option<Seq<BoxSpec>>
    decreases end - off,
{
    if end - off < 8 {
        Some(Seq::empty())
    } else {
        match box_at(d, off, end) {
            None => None,
            Some(b) => match boxes_from(d, off + b.size, end) {
                None => None,
                Some(rest) => Some(seq![b] + rest),
            },
        }
    }
}

/// The boxes of `d[start..end]`, or `None` when the range is not inside `d`
/// or a box is malformed.
#[verifier::opaque]
pub open spec fn spec_iter_boxes(d: Seq<u8>, start: int, end: int) -> Option<Seq<BoxSpec>> {
    if end > d.len() || start > end {
        None
    } else {
        boxes_from(d, start, end)
    }
}

/// The first box of `bs` whose type is `tag`.
pub open spec fn first_with_tag(bs: Seq<BoxSpec>, tag: u32) -> Option<BoxSpec>
    decreases bs.len(),
{
    if bs.len() == 0 {
        None
    } else if bs[0].tag == tag {
        Some(bs[0])
    } else {
        first_with_tag(bs.drop_first(), tag)
    }
}

/// Searching `d[start..start + size]` for the first box of type `tag`:
/// `None` on an error, `Some(found)` otherwise.
pub open spec fn spec_find_child(d: Seq<u8>, start: int, size: int, tag: u32) -> Option<
    Option<BoxSpec>,
> {
    if start + size > usize::MAX {
        None
    } else {
        match spec_iter_boxes(d, start, start + size) {
            None => None,
            Some(bs) => Some(first_with_tag(bs, tag)),
        }
    }
}

/// A box of type `tag` around `payload`, with a 32-bit size header; `None`
/// when the total size does not fit the 32-bit field of this platform.
pub open spec fn spec_rebuild(tag: u32, payload: Seq<u8>) -> Option<Seq<u8>> {
    if payload.len() + 8 > usize::MAX || payload.len() + 8 >= (0x1_0000_0000u64 as usize) {
        None
    } else {
        Some(u32_be_bytes((payload.len() + 8) as u32) + u32_be_bytes(tag) + payload)
    }
}

/// The bytes of a box inside `d`.
pub open spec fn box_bytes(d: Seq<u8>, b: BoxSpec) -> Seq<u8> {
    d.subrange(b.offset, b.offset + b.size)
}

fn invalid(message: &str) -> (e: Mp4Error)
    ensures
        e matches Mp4Error::Invalid(m) && m@ == message@,
{
    Mp4Error::Invalid(owned(message))
}

fn invalid_at(prefix: &str, n: usize, suffix: &str) -> (e: Mp4Error)
    ensures
        e matches Mp4Error::Invalid(m) && m@ == prefix@ + crate::text::decimal(n as nat) + suffix@,
{
    Mp4Error::Invalid(with_number(prefix, n as u64, suffix))
}

impl Mp4Box {
    /// Offset of the first byte after the header.
    pub fn payload_start(&self) -> (r: usize)
        requires
            self.offset + self.header_size <= usize::MAX,
        ensures
            r == self.offset + self.header_size,
    {
        self.offset + self.header_size
    }

    /// Offset one past the last byte of the box.
    pub fn payload_end(&self) -> (r: usize)
        requires
            self.offset + self.size <= usize::MAX,
        ensures
            r == self.offset + self.size,
    {
        self.offset + self.size
    }
}

/// `lhs + rhs`, or an error when the sum overflows.
fn checked_add(lhs: usize, rhs: usize, context: &str) -> (r: Result<usize, Mp4Error>)
    ensures
        match r {
            Ok(v) => v == lhs + rhs,
            Err(_) => lhs + rhs > usize::MAX,
        },
{
    match lhs.checked_add(rhs) {
        Some(v) => Ok(v),
        None => Err(invalid(context)),
    }
}

/// Checks that `data[offset..offset + length]` exists.
fn ensure_range(data: &[u8], offset: usize, length: usize) -> (r: Result<(), Mp4Error>)
    ensures
        r is Ok <==> offset + length <= data.len(),
{
    let end = checked_add(offset, length, "range overflow")?;
    if end > data.len() {
        return Err(Mp4Error::Invalid(joined(vec![
            owned("buffer underflow: need "),
            num(length),
            owned(" bytes at offset "),
            num(offset),
            owned(", len="),
            num(data.len()),
        ])));
    }
    Ok(())
}

/// The big-endian `u32` at `offset`.
fn read_u32(data: &[u8], offset: usize) -> (r: Result<u32, Mp4Error>)
    ensures
        match r {
            Ok(v) => offset + 4 <= data@.len() && v == be_u32(data@, offset as int),
            Err(_) => offset + 4 > data@.len(),
        },
{
    ensure_range(data, offset, 4)?;
    Ok(be_u32_at(data, offset))
}

/// The big-endian `i32` at `offset`.
fn read_i32(data: &[u8], offset: usize) -> (r: Result<i32, Mp4Error>)
    ensures
        match r {
            Ok(v) => offset + 4 <= data@.len() && v == be_u32(data@, offset as int) as i32,
            Err(_) => offset + 4 > data@.len(),
        },
{
    Ok(read_u32(data, offset)? as i32)
}

/// The big-endian `u64` at `offset`.
fn read_u64(data: &[u8], offset: usize) -> (r: Result<u64, Mp4Error>)
    ensures
        match r {
            Ok(v) => offset + 8 <= data@.len() && v == be_u64(data@, offset as int),
            Err(_) => offset + 8 > data@.len(),
        },
{
    ensure_range(data, offset, 8)?;
    Ok(be_u64_at(data, offset))
}

/// The four bytes at `offset`.
fn read_fourcc(data: &[u8], offset: usize) -> (r: Result<[u8; 4], Mp4Error>)
    ensures
        match r {
            Ok(v) => offset + 4 <= data@.len() && v@ == data@.subrange(
                offset as int,
                offset + 4,
            ),
            Err(_) => offset + 4 > data@.len(),
        },
{
    ensure_range(data, offset, 4)?;
    let v = [data[offset], data[offset + 1], data[offset + 2], data[offset + 3]];
    assert(v@ =~= data@.subrange(offset as int, offset + 4));
    Ok(v)
}

/// The big-endian value of a four-byte code.
fn tag_value(t: &[u8; 4]) -> (v: u32)
    ensures
        v == be_u32(t@, 0),
{
    (t[0] as u32) * 0x100_0000 + (t[1] as u32) * 0x1_0000 + (t[2] as u32) * 0x100 + (t[3] as u32)
}

/// The four bytes of a type code.
fn tag_bytes(tag: u32) -> (t: [u8; 4])
    ensures
        t@ == u32_be_bytes(tag),
{
    u32_to_be(tag)
}

/// Renders a box type for messages, invalid UTF-8 replaced.
fn fourcc_to_string(value: [u8; 4]) -> (s: String)
    ensures
        s@ == utf8_lossy(value@),
{
    lossy_string(&value)
}

/// The box type named by a four-byte string.
fn parse_fourcc(value: &str) -> (r: Result<[u8; 4], Mp4Error>)
    ensures
        match r {
            Ok(t) => value.spec_bytes().len() == 4 && t@ == value.spec_bytes(),
            Err(_) => value.spec_bytes().len() != 4,
        },
{
    let bytes = value.as_bytes();
    if bytes.len() != 4 {
        return Err(Mp4Error::Invalid(concat2("fourcc must be exactly 4 bytes: ", value)));
    }
    let t = [bytes[0], bytes[1], bytes[2], bytes[3]];
    assert(t@ =~= bytes@);
    Ok(t)
}

/// The boxes of `data[start..end]`, in order. Fails when the range does not
/// lie inside `data` or when a box header is malformed, has zero size or
/// runs past `end`. Trailing bytes too short for a header are ignored.
pub fn iter_boxes(data: &[u8], start: usize, end: usize) -> (r: Result<Vec<Mp4Box>, Mp4Error>)
    ensures
        match r {
            Ok(v) => spec_iter_boxes(data@, start as int, end as int) == Some(box_views(v@)),
            Err(_) => spec_iter_boxes(data@, start as int, end as int) is None,
        },
{
    reveal(spec_iter_boxes);
    if end > data.len() {
        return Err(Mp4Error::Invalid(joined(vec![
            owned("box iterator end "),
            num(end),
            owned(" exceeds data length "),
            num(data.len()),
        ])));
    }
    if start > end {
        return Err(Mp4Error::Invalid(joined(vec![
            owned("box iterator start "),
            num(start),
            owned(" is greater than end "),
            num(end),
        ])));
    }
    let ghost d = data@;
    let mut offset = start;
    let mut out: Vec<Mp4Box> = Vec::new();
    while end - offset >= 8
        invariant
            start <= offset <= end <= data@.len(),
            d == data@,
            boxes_from(d, start as int, end as int) == match boxes_from(d, offset as int, end as int) {
                Some(rest) => Some(box_views(out@) + rest),
                None => None,
            },
        decreases end - offset,
    {
        reveal(spec_iter_boxes);
        let size32 = be_u32_at(data, offset);
        let box_type = [data[offset + 4], data[offset + 5], data[offset + 6], data[offset + 7]];
        assert(be_u32(box_type@, 0) == be_u32(d, offset + 4));
        let mut box_size: usize = size32 as usize;
        let mut header_size: usize = 8;
        if size32 == 1 {
            let size64 = read_u64(data, offset + 8)?;
            if size64 > usize::MAX as u64 {
                return Err(Mp4Error::Invalid(joined(vec![
                    owned("box "),
                    fourcc_to_string(box_type),
                    owned(" at "),
                    num(offset),
                    owned(" has 64-bit size that cannot fit usize: "),
                    with_number("", size64, ""),
                ])));
            }
            box_size = size64 as usize;
            header_size = 16;
        } else if size32 == 0 {
            box_size = end - offset;
        }
        if box_size == 0 {
            return Err(Mp4Error::Invalid(joined(vec![
                owned("box "),
                fourcc_to_string(box_type),
                owned(" at "),
                num(offset),
                owned(" has zero size"),
            ])));
        }
        let box_end = checked_add(offset, box_size, "box end overflow")?;
        if box_end > end {
            return Err(Mp4Error::Invalid(joined(vec![
                owned("box "),
                fourcc_to_string(box_type),
                owned(" at "),
                num(offset),
                owned(" exceeds parent end: box_end="),
                num(box_end),
                owned(", end="),
                num(end),
            ])));
        }
        let item = Mp4Box { offset, size: box_size, box_type, header_size };
        assert(box_at(d, offset as int, end as int) == Some(item@));
        let ghost before = box_views(out@);
        out.push(item);
        assert(box_views(out@) =~= before.push(item@));
        proof {
            match boxes_from(d, box_end as int, end as int) {
                Some(rest) => {
                    assert(before + (seq![item@] + rest) =~= before.push(item@) + rest);
                },
                None => {},
            }
        }
        offset = box_end;
    }
    assert(box_views(out@) + Seq::<BoxSpec>::empty() =~= box_views(out@));
    Ok(out)
}

/// The text of `parts`, one after another.
pub open spec fn joined_text(parts: Seq<String>) -> Seq<char>
    decreases parts.len(),
{
    if parts.len() == 0 {
        Seq::empty()
    } else {
        joined_text(parts.drop_last()) + parts.last()@
    }
}

/// The pieces of a message, one after another.
fn joined(parts: Vec<String>) -> (s: String)
    ensures
        s@ == joined_text(parts@),
{
    let mut out: Vec<char> = Vec::new();
    let mut i: usize = 0;
    while i < parts.len()
        invariant
            i <= parts@.len(),
            out@ == joined_text(parts@.subrange(0, i as int)),
        decreases parts.len() - i,
    {
        proof {
            let next = parts@.subrange(0, i + 1);
            assert(next.drop_last() =~= parts@.subrange(0, i as int));
            assert(next.last() == parts@[i as int]);
        }
        crate::text::push_str(&mut out, parts[i].as_str());
        i += 1;
    }
    assert(parts@.subrange(0, parts@.len() as int) =~= parts@);
    crate::text::chars_to_string(&out)
}

/// The decimal digits of `n`.
fn num(n: usize) -> (s: String)
    ensures
        s@ == crate::text::decimal(n as nat),
{
    let s = with_number("", n as u64, "");
    proof {
        reveal_strlit("");
        assert(""@ + crate::text::decimal(n as nat) + ""@ =~= crate::text::decimal(n as nat));
    }
    s
}

/// The first box of type `wanted_type` in `data[start..start + size]`.
fn find_child_box_fourcc(data: &[u8], start: usize, size: usize, wanted_type: u32) -> (r: Result<
    Option<Mp4Box>,
    Mp4Error,
>)
    ensures
        match r {
            Ok(found) => spec_find_child(data@, start as int, size as int, wanted_type) == Some(
                match found {
                    Some(b) => Some(b@),
                    None => None::<BoxSpec>,
                },
            ),
            Err(_) => spec_find_child(data@, start as int, size as int, wanted_type) is None,
        },
{
    let end = checked_add(start, size, "child box end overflow")?;
    let items = iter_boxes(data, start, end)?;
    let ghost bs = box_views(items@);
    assert(bs.subrange(0, bs.len() as int) =~= bs);
    let mut i: usize = 0;
    while i < items.len()
        invariant
            i <= items@.len(),
            bs == box_views(items@),
            end == start + size,
            spec_iter_boxes(data@, start as int, end as int) == Some(bs),
            first_with_tag(bs, wanted_type) == first_with_tag(bs.subrange(i as int, bs.len() as int), wanted_type),
        decreases items.len() - i,
    {
        let item = items[i];
        let ghost tail = bs.subrange(i as int, bs.len() as int);
        assert(bs[i as int] == items@[i as int]@);
        assert(tail[0] == item@);
        assert(tail.len() > 0);
        assert(tail.drop_first() =~= bs.subrange(i + 1, bs.len() as int));
        if tag_value(&item.box_type) == wanted_type {
            return Ok(Some(item));
        }
        i += 1;
    }
    Ok(None)
}

/// The first child box of type `wanted_type` (a four-character string) in
/// `data[start..start + size]`.
pub fn find_child_box(data: &[u8], start: usize, size: usize, wanted_type: &str) -> (r: Result<
    Option<Mp4Box>,
    Mp4Error,
>)
    ensures
        match r {
            Ok(found) => wanted_type.spec_bytes().len() == 4 && spec_find_child(
                data@,
                start as int,
                size as int,
                be_u32(wanted_type.spec_bytes(), 0),
            ) == Some(
                match found {
                    Some(b) => Some(b@),
                    None => None::<BoxSpec>,
                },
            ),
            Err(_) => wanted_type.spec_bytes().len() != 4 || spec_find_child(
                data@,
                start as int,
                size as int,
                be_u32(wanted_type.spec_bytes(), 0),
            ) is None,
        },
{
    let wanted = parse_fourcc(wanted_type)?;
    find_child_box_fourcc(data, start, size, tag_value(&wanted))
}

/// A box of type `box_type` whose payload is `payload`, with a 32-bit size.
fn rebuild_box(box_type: u32, payload: &[u8]) -> (r: Result<Vec<u8>, Mp4Error>)
    ensures
        match r {
            Ok(v) => spec_rebuild(box_type, payload@) == Some(v@),
            Err(_) => spec_rebuild(box_type, payload@) is None,
        },
{
    let total_size = match payload.len().checked_add(8) {
        Some(v) => v,
        None => return Err(invalid("box size overflow")),
    };
    if total_size >= (0x1_0000_0000u64 as usize) {
        return Err(Mp4Error::Invalid(joined(vec![
            owned("box "),
            fourcc_to_string(tag_bytes(box_type)),
            owned(" is too large for 32-bit size: "),
            num(total_size),
        ])));
    }
    let mut out: Vec<u8> = Vec::new();
    let size_bytes = u32_to_be(total_size as u32);
    append_all(&mut out, &size_bytes);
    let type_bytes = u32_to_be(box_type);
    append_all(&mut out, &type_bytes);
    append_all(&mut out, payload);
    assert(out@ =~= u32_be_bytes(total_size as u32) + u32_be_bytes(box_type) + payload@);
    Ok(out)
}

/// Every box of `bs` starts at or after `start`, ends at or before `end`, has
/// a nonzero size and an 8- or 16-byte header that fits in the buffer.
pub open spec fn boxes_in(bs: Seq<BoxSpec>, start: int, end: int, len: int) -> bool {
    forall|i: int|
        0 <= i < bs.len() ==> {
            &&& start <= #[trigger] bs[i].offset
            &&& bs[i].size > 0
            &&& bs[i].offset + bs[i].size <= end
            &&& bs[i].offset + 8 <= end
            &&& (bs[i].header_size == 8 || bs[i].header_size == 16)
            &&& bs[i].offset + bs[i].header_size <= len
        }
}

proof fn lemma_boxes_from_in(d: Seq<u8>, off: int, end: int)
    requires
        0 <= off,
        end <= d.len(),
        boxes_from(d, off, end) is Some,
    ensures
        boxes_in(boxes_from(d, off, end).unwrap(), off, end, d.len() as int),
    decreases end - off,
{
    if end - off >= 8 {
        let b = box_at(d, off, end).unwrap();
        lemma_boxes_from_in(d, off + b.size, end);
        let rest = boxes_from(d, off + b.size, end).unwrap();
        let bs = seq![b] + rest;
        assert(boxes_from(d, off, end).unwrap() == bs);
        assert forall|i: int| 0 <= i < bs.len() implies {
            &&& off <= #[trigger] bs[i].offset
            &&& bs[i].size > 0
            &&& bs[i].offset + bs[i].size <= end
            &&& bs[i].offset + 8 <= end
            &&& (bs[i].header_size == 8 || bs[i].header_size == 16)
            &&& bs[i].offset + bs[i].header_size <= d.len()
        } by {
            if i > 0 {
                assert(bs[i] == rest[i - 1]);
            }
        }
    }
}

/// The boxes that `iter_boxes` reports lie inside the requested range.
pub proof fn lemma_iter_boxes_in(d: Seq<u8>, start: int, end: int)
    requires
        0 <= start,
        spec_iter_boxes(d, start, end) is Some,
    ensures
        boxes_in(spec_iter_boxes(d, start, end).unwrap(), start, end, d.len() as int),
{
    reveal(spec_iter_boxes);
    lemma_boxes_from_in(d, start, end);
}

/// The bytes of box `b` of `data`, copied.
fn box_slice<'a>(data: &'a [u8], b: &Mp4Box) -> (out: &'a [u8])
    requires
        b.offset + b.size <= data.len(),
    ensures
        out@ == box_bytes(data@, b@),
{
    slice_subrange(data, b.offset, b.offset + b.size)
}

/// Levels of the `moov` hierarchy that the init-segment sanitizer descends.
#[derive(Clone, Copy, Debug, PartialEq, Eq)]
pub enum Nest {
    Moov,
    Trak,
    Mdia,
    Minf,
    Stbl,
}

pub open spec fn nest_tag(l: Nest) -> u32 {
    match l {
        Nest::Moov => BOX_MOOV,
        Nest::Trak => BOX_TRAK,
        Nest::Mdia => BOX_MDIA,
        Nest::Minf => BOX_MINF,
        Nest::Stbl => BOX_STBL,
    }
}

pub open spec fn nest_rank(l: Nest) -> nat {
    match l {
        Nest::Moov => 4,
        Nest::Trak => 3,
        Nest::Mdia => 2,
        Nest::Minf => 1,
        Nest::Stbl => 0,
    }
}

/// An audio sample entry with its protection removed: an `enca` entry
/// becomes the entry type recorded in its `frma` box (default `mp4a`), keeps
/// its 28 bytes of AudioSampleEntry fields and loses its `sinf` children;
/// other entries are unchanged.
pub open spec fn spec_sanitize_entry(e: Seq<u8>) -> Option<Seq<u8>> {
    if e.len() < 8 {
        None
    } else if be_u32(e, 4) != BOX_ENCA {
        Some(e)
    } else if e.len() < 36 {
        None
    } else {
        match spec_iter_boxes(e, 36, e.len() as int) {
            None => None,
            Some(cs) => match entry_fold(e, cs, BOX_MP4A) {
                None => None,
                Some((tag, kept)) => spec_rebuild(tag, e.subrange(8, 36) + kept),
            },
        }
    }
}

/// Walks the children of an `enca` entry: the entry type after them and the
/// bytes of the children that are kept.
pub open spec fn entry_fold(e: Seq<u8>, cs: Seq<BoxSpec>, clear: u32) -> Option<(u32, Seq<u8>)>
    decreases cs.len(),
{
    if cs.len() == 0 {
        Some((clear, Seq::empty()))
    } else {
        let c = cs[0];
        let cb = box_bytes(e, c);
        if c.tag == BOX_SINF {
            if cb.len() < 8 {
                None
            } else {
                match spec_find_child(cb, 8, cb.len() - 8, BOX_FRMA) {
                    None => None,
                    Some(None) => entry_fold(e, cs.drop_first(), clear),
                    Some(Some(f)) => if f.offset + 12 > cb.len() {
                        None
                    } else {
                        entry_fold(e, cs.drop_first(), be_u32(cb, f.offset + 8))
                    },
                }
            }
        } else {
            match entry_fold(e, cs.drop_first(), clear) {
                None => None,
                Some((t, k)) => Some((t, cb + k)),
            }
        }
    }
}

/// An `stsd` box reduced to its first sample entry, sanitized, with the
/// entry count set to one.
pub open spec fn spec_sanitize_stsd(s: Seq<u8>) -> Option<Seq<u8>> {
    if s.len() < 16 {
        None
    } else {
        match spec_iter_boxes(s, 16, s.len() as int) {
            None => None,
            Some(es) => if es.len() == 0 {
                None
            } else {
                match spec_sanitize_entry(box_bytes(s, es[0])) {
                    None => None,
                    Some(e) => spec_rebuild(BOX_STSD, s.subrange(8, 12) + u32_be_bytes(1) + e),
                }
            },
        }
    }
}

/// A container of level `l` with its children rewritten: the child level
/// below it is sanitized recursively, `stbl` drops `sgpd`/`sbgp` and
/// sanitizes `stsd`, and all other children are kept.
pub open spec fn spec_nested(input: Seq<u8>, l: Nest) -> Option<Seq<u8>>
    decreases nest_rank(l), 2nat, 0nat,
{
    if input.len() < 8 || be_u32(input, 4) != nest_tag(l) {
        None
    } else {
        match spec_iter_boxes(input, 8, input.len() as int) {
            None => None,
            Some(cs) => match nested_fold(input, cs, l) {
                None => None,
                Some(p) => spec_rebuild(nest_tag(l), p),
            },
        }
    }
}

pub open spec fn nested_fold(input: Seq<u8>, cs: Seq<BoxSpec>, l: Nest) -> Option<Seq<u8>>
    decreases nest_rank(l), 1nat, cs.len(),
{
    if cs.len() == 0 {
        Some(Seq::empty())
    } else {
        match nested_child(input, cs[0], l) {
            None => None,
            Some(x) => match nested_fold(input, cs.drop_first(), l) {
                None => None,
                Some(rest) => Some(x + rest),
            },
        }
    }
}

pub open spec fn nested_child(input: Seq<u8>, c: BoxSpec, l: Nest) -> Option<Seq<u8>>
    decreases nest_rank(l), 0nat, 0nat,
{
    let cb = box_bytes(input, c);
    match l {
        Nest::Stbl => if c.tag == BOX_SGPD || c.tag == BOX_SBGP {
            Some(Seq::empty())
        } else if c.tag == BOX_STSD {
            spec_sanitize_stsd(cb)
        } else {
            Some(cb)
        },
        Nest::Moov => if c.tag == BOX_TRAK {
            spec_nested(cb, Nest::Trak)
        } else {
            Some(cb)
        },
        Nest::Trak => if c.tag == BOX_MDIA {
            spec_nested(cb, Nest::Mdia)
        } else {
            Some(cb)
        },
        Nest::Mdia => if c.tag == BOX_MINF {
            spec_nested(cb, Nest::Minf)
        } else {
            Some(cb)
        },
        Nest::Minf => if c.tag == BOX_STBL {
            spec_nested(cb, Nest::Stbl)
        } else {
            Some(cb)
        },
    }
}

/// Removes the protection from an audio sample entry: an `enca` entry is
/// rebuilt as its original format (from `sinf/frma`, `mp4a` by default)
/// without its `sinf` children; any other entry is returned unchanged.
pub fn sanitize_audio_sample_entry(entry_box: &[u8]) -> (r: Result<Vec<u8>, Mp4Error>)
    ensures
        match r {
            Ok(v) => spec_sanitize_entry(entry_box@) == Some(v@),
            Err(_) => spec_sanitize_entry(entry_box@) is None,
        },
{
    if entry_box.len() < 8 {
        return Err(invalid("audio sample entry is too short"));
    }
    let entry_type = read_fourcc(entry_box, 4)?;
    assert(be_u32(entry_type@, 0) == be_u32(entry_box@, 4));
    if tag_value(&entry_type) != BOX_ENCA {
        return Ok(copy_range(entry_box, 0, entry_box.len()));
    }
    if entry_box.len() < 36 {
        return Err(invalid("enca sample entry is too short for AudioSampleEntry fields"));
    }
    let ghost e = entry_box@;
    let children = iter_boxes(entry_box, 36, entry_box.len())?;
    let ghost cs = box_views(children@);
    proof {
        lemma_iter_boxes_in(e, 36, e.len() as int);
        assert(cs.subrange(0, cs.len() as int) =~= cs);
    }
    let mut clear_entry_type: u32 = BOX_MP4A;
    let mut kept_children: Vec<u8> = Vec::new();
    let mut i: usize = 0;
    while i < children.len()
        invariant
            e == entry_box@,
            i <= children@.len(),
            cs == box_views(children@),
            e.len() >= 36,
            be_u32(e, 4) == BOX_ENCA,
            spec_iter_boxes(e, 36, e.len() as int) == Some(cs),
            boxes_in(cs, 36, e.len() as int, e.len() as int),
            entry_fold(e, cs, BOX_MP4A) == match entry_fold(
                e,
                cs.subrange(i as int, cs.len() as int),
                clear_entry_type,
            ) {
                Some((t, k)) => Some((t, kept_children@ + k)),
                None => None,
            },
        decreases children.len() - i,
    {
        let child = children[i];
        assert(cs[i as int] == child@);
        let ghost tail = cs.subrange(i as int, cs.len() as int);
        assert(tail[0] == child@);
        assert(tail.drop_first() =~= cs.subrange(i + 1, cs.len() as int));
        let child_bytes = box_slice(entry_box, &child);
        if tag_value(&child.box_type) == BOX_SINF {
            if child_bytes.len() < 8 {
                assert(entry_fold(e, tail, clear_entry_type) is None);
                return Err(invalid("child box end overflow"));
            }
            let found = match find_child_box_fourcc(child_bytes, 8, child_bytes.len() - 8, BOX_FRMA) {
                Ok(f) => f,
                Err(err) => {
                    assert(entry_fold(e, tail, clear_entry_type) is None);
                    return Err(err);
                },
            };
            if let Some(frma) = found {
                let frma_type_offset = match checked_add(frma.offset, 8, "frma payload offset overflow") {
                    Ok(v) => v,
                    Err(err) => {
                        assert(entry_fold(e, tail, clear_entry_type) is None);
                        return Err(err);
                    },
                };
                let t = match read_fourcc(child_bytes, frma_type_offset) {
                    Ok(t) => t,
                    Err(err) => {
                        assert(entry_fold(e, tail, clear_entry_type) is None);
                        return Err(err);
                    },
                };
                assert(be_u32(t@, 0) == be_u32(child_bytes@, frma.offset + 8));
                clear_entry_type = tag_value(&t);
            }
        } else {
            let ghost before = kept_children@;
            append_all(&mut kept_children, child_bytes);
            proof {
                match entry_fold(e, cs.subrange(i + 1, cs.len() as int), clear_entry_type) {
                    Some((t, k)) => {
                        assert(before + (child_bytes@ + k) =~= kept_children@ + k);
                    },
                    None => {},
                }
            }
        }
        i += 1;
    }
    let mut payload: Vec<u8> = Vec::new();
    append_range(&mut payload, entry_box, 8, 36);
    append_all(&mut payload, &kept_children);
    proof {
        assert(cs.subrange(cs.len() as int, cs.len() as int) =~= Seq::<BoxSpec>::empty());
        assert(kept_children@ + Seq::<u8>::empty() =~= kept_children@);
        assert(payload@ =~= e.subrange(8, 36) + kept_children@);
    }
    rebuild_box(clear_entry_type, &payload)
}

/// Reduces an `stsd` box to its first sample entry, sanitized, and sets the
/// entry count to one.
pub fn sanitize_stsd_box(stsd_box: &[u8]) -> (r: Result<Vec<u8>, Mp4Error>)
    ensures
        match r {
            Ok(v) => spec_sanitize_stsd(stsd_box@) == Some(v@),
            Err(_) => spec_sanitize_stsd(stsd_box@) is None,
        },
{
    if stsd_box.len() < 16 {
        return Err(invalid("stsd box is too short"));
    }
    let entries = iter_boxes(stsd_box, 16, stsd_box.len())?;
    proof {
        lemma_iter_boxes_in(stsd_box@, 16, stsd_box@.len() as int);
    }
    if entries.len() == 0 {
        return Err(invalid("stsd did not contain any sample entries"));
    }
    let first_entry = entries[0];
    assert(box_views(entries@)[0] == first_entry@);
    let first_entry_bytes = box_slice(stsd_box, &first_entry);
    let sanitized = sanitize_audio_sample_entry(first_entry_bytes)?;
    let mut payload: Vec<u8> = Vec::new();
    append_range(&mut payload, stsd_box, 8, 12);
    let count = u32_to_be(1);
    append_all(&mut payload, &count);
    append_all(&mut payload, &sanitized);
    assert(payload@ =~= stsd_box@.subrange(8, 12) + u32_be_bytes(1) + sanitized@);
    rebuild_box(BOX_STSD, &payload)
}

fn nest_tag_value(l: Nest) -> (t: u32)
    ensures
        t == nest_tag(l),
{
    match l {
        Nest::Moov => BOX_MOOV,
        Nest::Trak => BOX_TRAK,
        Nest::Mdia => BOX_MDIA,
        Nest::Minf => BOX_MINF,
        Nest::Stbl => BOX_STBL,
    }
}

/// Rewrites a container box of level `level` child by child.
fn sanitize_nested_box(input: &[u8], level: Nest) -> (r: Result<Vec<u8>, Mp4Error>)
    ensures
        match r {
            Ok(v) => spec_nested(input@, level) == Some(v@),
            Err(_) => spec_nested(input@, level) is None,
        },
    decreases nest_rank(level),
{
    let expected_type = nest_tag_value(level);
    if input.len() < 8 {
        return Err(Mp4Error::Invalid(concat2(fourcc_to_string(tag_bytes(expected_type)).as_str(), " box is too short")));
    }
    let actual_type = read_fourcc(input, 4)?;
    assert(be_u32(actual_type@, 0) == be_u32(input@, 4));
    if tag_value(&actual_type) != expected_type {
        return Err(Mp4Error::Invalid(joined(vec![
            owned("expected "),
            fourcc_to_string(tag_bytes(expected_type)),
            owned(" box, got "),
            fourcc_to_string(actual_type),
        ])));
    }
    let ghost d = input@;
    let children = iter_boxes(input, 8, input.len())?;
    let ghost cs = box_views(children@);
    proof {
        lemma_iter_boxes_in(d, 8, d.len() as int);
        assert(cs.subrange(0, cs.len() as int) =~= cs);
    }
    let mut payload: Vec<u8> = Vec::new();
    let mut i: usize = 0;
    while i < children.len()
        invariant
            d == input@,
            i <= children@.len(),
            cs == box_views(children@),
            d.len() >= 8,
            be_u32(d, 4) == nest_tag(level),
            spec_iter_boxes(d, 8, d.len() as int) == Some(cs),
            boxes_in(cs, 8, d.len() as int, d.len() as int),
            nested_fold(d, cs, level) == match nested_fold(d, cs.subrange(i as int, cs.len() as int), level) {
                Some(rest) => Some(payload@ + rest),
                None => None,
            },
        decreases children.len() - i,
    {
        let child = children[i];
        assert(cs[i as int] == child@);
        let ghost tail = cs.subrange(i as int, cs.len() as int);
        assert(tail[0] == child@);
        assert(tail.drop_first() =~= cs.subrange(i + 1, cs.len() as int));
        let bytes = box_slice(input, &child);
        let t = tag_value(&child.box_type);
        let mapped_res: Result<Option<Vec<u8>>, Mp4Error> = match level {
            Nest::Stbl => if t == BOX_SGPD || t == BOX_SBGP {
                Ok(None)
            } else if t == BOX_STSD {
                match sanitize_stsd_box(bytes) {
                    Ok(v) => Ok(Some(v)),
                    Err(err) => Err(err),
                }
            } else {
                Ok(Some(copy_range(bytes, 0, bytes.len())))
            },
            _ => {
                let next = match level {
                    Nest::Moov => Nest::Trak,
                    Nest::Trak => Nest::Mdia,
                    Nest::Mdia => Nest::Minf,
                    _ => Nest::Stbl,
                };
                if t == nest_tag_value(next) {
                    match sanitize_nested_box(bytes, next) {
                        Ok(v) => Ok(Some(v)),
                        Err(err) => Err(err),
                    }
                } else {
                    Ok(Some(copy_range(bytes, 0, bytes.len())))
                }
            },
        };
        assert(bytes@.subrange(0, bytes@.len() as int) =~= bytes@);
        let mapped = match mapped_res {
            Ok(m) => m,
            Err(err) => {
                assert(nested_child(d, child@, level) is None);
                assert(nested_fold(d, tail, level) is None);
                return Err(err);
            },
        };
        let ghost before = payload@;
        let ghost x: Seq<u8> = match &mapped {
            Some(v) => v@,
            None => Seq::empty(),
        };
        assert(nested_child(d, child@, level) == Some(x));
        if let Some(out) = &mapped {
            append_all(&mut payload, out);
        }
        assert(payload@ =~= before + x);
        proof {
            match nested_fold(d, cs.subrange(i + 1, cs.len() as int), level) {
                Some(rest) => {
                    assert(before + (x + rest) =~= payload@ + rest);
                },
                None => {},
            }
        }
        i += 1;
    }
    proof {
        assert(cs.subrange(cs.len() as int, cs.len() as int) =~= Seq::<BoxSpec>::empty());
        assert(payload@ + Seq::<u8>::empty() =~= payload@);
    }
    rebuild_box(expected_type, &payload)
}

/// Sanitizes an `stbl` box: drops `sgpd` and `sbgp`, sanitizes `stsd`.
pub fn sanitize_stbl_box(stbl_box: &[u8]) -> (r: Result<Vec<u8>, Mp4Error>)
    ensures
        match r {
            Ok(v) => spec_nested(stbl_box@, Nest::Stbl) == Some(v@),
            Err(_) => spec_nested(stbl_box@, Nest::Stbl) is None,
        },
{
    sanitize_nested_box(stbl_box, Nest::Stbl)
}

/// Sanitizes a `minf` box: its `stbl` children are sanitized.
pub fn sanitize_minf_box(minf_box: &[u8]) -> (r: Result<Vec<u8>, Mp4Error>)
    ensures
        match r {
            Ok(v) => spec_nested(minf_box@, Nest::Minf) == Some(v@),
            Err(_) => spec_nested(minf_box@, Nest::Minf) is None,
        },
{
    sanitize_nested_box(minf_box, Nest::Minf)
}

/// Sanitizes an `mdia` box: its `minf` children are sanitized.
pub fn sanitize_mdia_box(mdia_box: &[u8]) -> (r: Result<Vec<u8>, Mp4Error>)
    ensures
        match r {
            Ok(v) => spec_nested(mdia_box@, Nest::Mdia) == Some(v@),
            Err(_) => spec_nested(mdia_box@, Nest::Mdia) is None,
        },
{
    sanitize_nested_box(mdia_box, Nest::Mdia)
}

/// Sanitizes a `trak` box: its `mdia` children are sanitized.
pub fn sanitize_trak_box(trak_box: &[u8]) -> (r: Result<Vec<u8>, Mp4Error>)
    ensures
        match r {
            Ok(v) => spec_nested(trak_box@, Nest::Trak) == Some(v@),
            Err(_) => spec_nested(trak_box@, Nest::Trak) is None,
        },
{
    sanitize_nested_box(trak_box, Nest::Trak)
}

/// Sanitizes a `moov` box: its `trak` children are sanitized.
pub fn sanitize_moov_box(moov_box: &[u8]) -> (r: Result<Vec<u8>, Mp4Error>)
    ensures
        match r {
            Ok(v) => spec_nested(moov_box@, Nest::Moov) == Some(v@),
            Err(_) => spec_nested(moov_box@, Nest::Moov) is None,
        },
{
    sanitize_nested_box(moov_box, Nest::Moov)
}

/// A `trun` box whose data offset (when present) is lowered by `delta`.
pub open spec fn spec_patch_trun(t: Seq<u8>, delta: int) -> Option<Seq<u8>> {
    if delta == 0 {
        Some(t)
    } else if t.len() < 16 {
        None
    } else if (be_u32(t, 8) & 0xFF_FFFF) & 1 == 0 {
        Some(t)
    } else if t.len() < 20 || delta > i64::MAX {
        None
    } else {
        let nv = (be_u32(t, 16) as i32) as int - delta;
        if nv < i32::MIN || nv > i32::MAX {
            None
        } else {
            Some(t.subrange(0, 16) + u32_be_bytes((nv as i32) as u32) + t.subrange(20, t.len() as int))
        }
    }
}

/// A `tfhd` box whose sample description index (when present) is set to 1.
pub open spec fn spec_patch_tfhd(t: Seq<u8>) -> Option<Seq<u8>> {
    if t.len() < 16 {
        None
    } else if (be_u32(t, 8) & 0xFF_FFFF) & 2 == 0 {
        Some(t)
    } else {
        let c: int = if (be_u32(t, 8) & 0xFF_FFFF) & 1 != 0 {
            24
        } else {
            16
        };
        if c + 4 > t.len() {
            None
        } else {
            Some(t.subrange(0, c) + u32_be_bytes(1) + t.subrange(c + 4, t.len() as int))
        }
    }
}

/// The box types that carry per-sample encryption data inside a `traf`.
pub open spec fn is_encryption_tag(tag: u32) -> bool {
    tag == BOX_SENC || tag == BOX_SAIZ || tag == BOX_SAIO || tag == BOX_SGPD || tag == BOX_SBGP
}

/// The kept bytes and the removed byte count of the children `cs` of a `traf`.
pub open spec fn strip_fold(t: Seq<u8>, cs: Seq<BoxSpec>) -> (Seq<u8>, int)
    decreases cs.len(),
{
    if cs.len() == 0 {
        (Seq::empty(), 0)
    } else {
        let (k, r) = strip_fold(t, cs.drop_first());
        if is_encryption_tag(cs[0].tag) {
            (k, r + cs[0].size)
        } else {
            (box_bytes(t, cs[0]) + k, r)
        }
    }
}

/// A `traf` box without its encryption children, and how many bytes went.
pub open spec fn spec_strip_traf(t: Seq<u8>) -> Option<(Seq<u8>, int)> {
    match spec_iter_boxes(t, 8, t.len() as int) {
        None => None,
        Some(cs) => {
            let (k, r) = strip_fold(t, cs);
            if r > usize::MAX {
                None
            } else {
                match spec_rebuild(BOX_TRAF, k) {
                    None => None,
                    Some(b) => Some((b, r)),
                }
            }
        },
    }
}

pub open spec fn traf_fold(t: Seq<u8>, cs: Seq<BoxSpec>, delta: int) -> Option<Seq<u8>>
    decreases cs.len(),
{
    if cs.len() == 0 {
        Some(Seq::empty())
    } else {
        let cb = box_bytes(t, cs[0]);
        let x = if cs[0].tag == BOX_TRUN {
            spec_patch_trun(cb, delta)
        } else if cs[0].tag == BOX_TFHD {
            spec_patch_tfhd(cb)
        } else {
            Some(cb)
        };
        match x {
            None => None,
            Some(x) => match traf_fold(t, cs.drop_first(), delta) {
                None => None,
                Some(rest) => Some(x + rest),
            },
        }
    }
}

/// A `traf` box whose `trun` data offsets are lowered by `delta` and whose
/// `tfhd` sample description index is reset.
pub open spec fn spec_patch_traf(t: Seq<u8>, delta: int) -> Option<Seq<u8>> {
    match spec_iter_boxes(t, 8, t.len() as int) {
        None => None,
        Some(cs) => match traf_fold(t, cs, delta) {
            None => None,
            Some(p) => spec_rebuild(BOX_TRAF, p),
        },
    }
}

/// First pass over the children of a `moof`: the kept children (type and
/// bytes, `traf` stripped) and the total number of removed bytes.
pub open spec fn moof_pass1(m: Seq<u8>, cs: Seq<BoxSpec>) -> Option<(Seq<(u32, Seq<u8>)>, int)>
    decreases cs.len(),
{
    if cs.len() == 0 {
        Some((Seq::empty(), 0))
    } else {
        let c = cs[0];
        let cb = box_bytes(m, c);
        match moof_pass1(m, cs.drop_first()) {
            None => None,
            Some((items, total)) => if c.tag == BOX_TRAF {
                match spec_strip_traf(cb) {
                    None => None,
                    Some((st, r)) => Some((seq![(BOX_TRAF, st)] + items, r + total)),
                }
            } else if c.tag == BOX_PSSH {
                Some((items, c.size + total))
            } else {
                Some((seq![(c.tag, cb)] + items, total))
            },
        }
    }
}

/// Second pass: the kept children, with the `traf` offsets patched.
pub open spec fn moof_pass2(items: Seq<(u32, Seq<u8>)>, removed: int) -> Option<Seq<u8>>
    decreases items.len(),
{
    if items.len() == 0 {
        Some(Seq::empty())
    } else {
        let x = if items[0].0 == BOX_TRAF {
            spec_patch_traf(items[0].1, removed)
        } else {
            Some(items[0].1)
        };
        match x {
            None => None,
            Some(x) => match moof_pass2(items.drop_first(), removed) {
                None => None,
                Some(rest) => Some(x + rest),
            },
        }
    }
}

/// A `moof` box without `pssh` children and without the encryption boxes of
/// its `traf` children, with sample data offsets shifted back by the number
/// of removed bytes.
pub open spec fn spec_sanitize_moof(m: Seq<u8>) -> Option<Seq<u8>> {
    match spec_iter_boxes(m, 8, m.len() as int) {
        None => None,
        Some(cs) => match moof_pass1(m, cs) {
            None => None,
            Some((items, total)) => if total > usize::MAX {
                None
            } else {
                match moof_pass2(items, total) {
                    None => None,
                    Some(p) => spec_rebuild(BOX_MOOF, p),
                }
            },
        },
    }
}

/// Top-level boxes of a fragment with every `moof` sanitized.
pub open spec fn fragment_fold(f: Seq<u8>, bs: Seq<BoxSpec>) -> Option<Seq<u8>>
    decreases bs.len(),
{
    if bs.len() == 0 {
        Some(Seq::empty())
    } else {
        let bb = box_bytes(f, bs[0]);
        let x = if bs[0].tag == BOX_MOOF {
            spec_sanitize_moof(bb)
        } else {
            Some(bb)
        };
        match x {
            None => None,
            Some(x) => match fragment_fold(f, bs.drop_first()) {
                None => None,
                Some(rest) => Some(x + rest),
            },
        }
    }
}

/// Top-level boxes of an init segment with every `moov` sanitized.
pub open spec fn init_fold(f: Seq<u8>, bs: Seq<BoxSpec>) -> Option<Seq<u8>>
    decreases bs.len(),
{
    if bs.len() == 0 {
        Some(Seq::empty())
    } else {
        let bb = box_bytes(f, bs[0]);
        let x = if bs[0].tag == BOX_MOOV {
            spec_nested(bb, Nest::Moov)
        } else {
            Some(bb)
        };
        match x {
            None => None,
            Some(x) => match init_fold(f, bs.drop_first()) {
                None => None,
                Some(rest) => Some(x + rest),
            },
        }
    }
}

pub open spec fn spec_sanitize_fragment(f: Seq<u8>) -> Option<Seq<u8>> {
    match spec_iter_boxes(f, 0, f.len() as int) {
        None => None,
        Some(bs) => fragment_fold(f, bs),
    }
}

pub open spec fn spec_sanitize_init(f: Seq<u8>) -> Option<Seq<u8>> {
    match spec_iter_boxes(f, 0, f.len() as int) {
        None => None,
        Some(bs) => init_fold(f, bs),
    }
}

/// Overwrites `v[at..at + 4]` with the big-endian bytes of `value`.
fn write_u32_at(v: &mut Vec<u8>, at: usize, value: u32)
    requires
        at + 4 <= old(v).len(),
    ensures
        final(v)@ == old(v)@.subrange(0, at as int) + u32_be_bytes(value) + old(v)@.subrange(
            at + 4,
            old(v)@.len() as int,
        ),
{
    let b = u32_to_be(value);
    v.set(at, b[0]);
    v.set(at + 1, b[1]);
    v.set(at + 2, b[2]);
    v.set(at + 3, b[3]);
    assert(v@ =~= old(v)@.subrange(0, at as int) + u32_be_bytes(value) + old(v)@.subrange(
        at + 4,
        old(v)@.len() as int,
    ));
}

/// Lowers the data offset of a `trun` box by `delta` when the box carries
/// one (flag 0x01); fails when the result leaves the `i32` range.
pub fn patch_trun_data_offset(trun_box: &[u8], delta: usize) -> (r: Result<Vec<u8>, Mp4Error>)
    ensures
        match r {
            Ok(v) => spec_patch_trun(trun_box@, delta as int) == Some(v@),
            Err(_) => spec_patch_trun(trun_box@, delta as int) is None,
        },
{
    if delta == 0 {
        return Ok(copy_range(trun_box, 0, trun_box.len()));
    }
    if trun_box.len() < 16 {
        return Err(invalid("trun box is too short"));
    }
    let mut patched = copy_range(trun_box, 0, trun_box.len());
    assert(patched@ =~= trun_box@);
    let flags = read_u32(patched.as_slice(), 8)? & 0x00FF_FFFF;
    if flags & 0x01 == 0 {
        return Ok(patched);
    }
    let current = read_i32(patched.as_slice(), 16)? as i64;
    if (delta as u64) > (i64::MAX as u64) {
        return Err(invalid_at("trun delta too large: ", delta, ""));
    }
    let new_value: i128 = current as i128 - delta as i128;
    if new_value < i32::MIN as i128 || new_value > i32::MAX as i128 {
        // The value is reported as a 64-bit difference, wrapped like one.
        let shown: i64 = if new_value >= i64::MIN as i128 {
            new_value as i64
        } else {
            (new_value + 0x1_0000_0000_0000_0000i128) as i64
        };
        let mut m: Vec<char> = Vec::new();
        crate::text::push_str(&mut m, "patched trun data offset out of i32 range: ");
        crate::text::push_signed_decimal(&mut m, shown);
        return Err(Mp4Error::Invalid(crate::text::chars_to_string(&m)));
    }
    write_u32_at(&mut patched, 16, (new_value as i32) as u32);
    Ok(patched)
}

/// Sets the sample description index of a `tfhd` box to 1 when the box
/// carries one (flag 0x02).
pub fn patch_tfhd_sample_description_index(tfhd_box: &[u8]) -> (r: Result<Vec<u8>, Mp4Error>)
    ensures
        match r {
            Ok(v) => spec_patch_tfhd(tfhd_box@) == Some(v@),
            Err(_) => spec_patch_tfhd(tfhd_box@) is None,
        },
{
    if tfhd_box.len() < 16 {
        return Err(invalid("tfhd box is too short"));
    }
    let mut patched = copy_range(tfhd_box, 0, tfhd_box.len());
    assert(patched@ =~= tfhd_box@);
    let flags = read_u32(patched.as_slice(), 8)? & 0x00FF_FFFF;
    if flags & 0x02 == 0 {
        return Ok(patched);
    }
    let mut cursor: usize = 12;
    cursor = cursor + 4;
    if flags & 0x01 != 0 {
        cursor = cursor + 8;
    }
    ensure_range(patched.as_slice(), cursor, 4)?;
    write_u32_at(&mut patched, cursor, 1);
    Ok(patched)
}

proof fn lemma_boxes_in_subrange(bs: Seq<BoxSpec>, lo: int, hi: int, start: int, end: int, len: int)
    requires
        0 <= lo <= hi <= bs.len(),
        boxes_in(bs, start, end, len),
    ensures
        boxes_in(bs.subrange(lo, hi), start, end, len),
{
    assert forall|i: int| 0 <= i < bs.subrange(lo, hi).len() implies {
        &&& start <= #[trigger] bs.subrange(lo, hi)[i].offset
        &&& bs.subrange(lo, hi)[i].size > 0
        &&& bs.subrange(lo, hi)[i].offset + bs.subrange(lo, hi)[i].size <= end
        &&& bs.subrange(lo, hi)[i].offset + 8 <= end
        &&& (bs.subrange(lo, hi)[i].header_size == 8 || bs.subrange(lo, hi)[i].header_size == 16)
        &&& bs.subrange(lo, hi)[i].offset + bs.subrange(lo, hi)[i].header_size <= len
    } by {
        assert(bs.subrange(lo, hi)[i] == bs[lo + i]);
    }
}

proof fn lemma_strip_fold_nonneg(t: Seq<u8>, cs: Seq<BoxSpec>, start: int, end: int, len: int)
    requires
        boxes_in(cs, start, end, len),
    ensures
        strip_fold(t, cs).1 >= 0,
    decreases cs.len(),
{
    if cs.len() > 0 {
        lemma_boxes_in_subrange(cs, 1, cs.len() as int, start, end, len);
        assert(cs.drop_first() == cs.subrange(1, cs.len() as int));
        lemma_strip_fold_nonneg(t, cs.drop_first(), start, end, len);
        assert(start <= cs[0].offset);
        assert(cs[0].size > 0);
    }
}

proof fn lemma_strip_traf_nonneg(t: Seq<u8>)
    requires
        spec_strip_traf(t) is Some,
    ensures
        spec_strip_traf(t).unwrap().1 >= 0,
{
    lemma_iter_boxes_in(t, 8, t.len() as int);
    let cs = spec_iter_boxes(t, 8, t.len() as int).unwrap();
    lemma_strip_fold_nonneg(t, cs, 8, t.len() as int, t.len() as int);
}

proof fn lemma_moof_pass1_nonneg(m: Seq<u8>, cs: Seq<BoxSpec>, start: int, end: int, len: int)
    requires
        boxes_in(cs, start, end, len),
        moof_pass1(m, cs) is Some,
    ensures
        moof_pass1(m, cs).unwrap().1 >= 0,
    decreases cs.len(),
{
    if cs.len() > 0 {
        lemma_boxes_in_subrange(cs, 1, cs.len() as int, start, end, len);
        assert(cs.drop_first() == cs.subrange(1, cs.len() as int));
        lemma_moof_pass1_nonneg(m, cs.drop_first(), start, end, len);
        assert(start <= cs[0].offset);
        assert(cs[0].size > 0);
        if cs[0].tag == BOX_TRAF {
            lemma_strip_traf_nonneg(box_bytes(m, cs[0]));
        }
    }
}

/// Removes the `senc`, `saiz`, `saio`, `sgpd` and `sbgp` children of a
/// `traf` box; returns the rebuilt box and the number of bytes removed.
pub fn strip_traf_encryption_boxes(traf_box: &[u8]) -> (r: Result<(Vec<u8>, usize), Mp4Error>)
    ensures
        match r {
            Ok((v, n)) => spec_strip_traf(traf_box@) == Some((v@, n as int)),
            Err(_) => spec_strip_traf(traf_box@) is None,
        },
{
    let ghost t = traf_box@;
    let children = iter_boxes(traf_box, 8, traf_box.len())?;
    let ghost cs = box_views(children@);
    proof {
        lemma_iter_boxes_in(t, 8, t.len() as int);
        assert(cs.subrange(0, cs.len() as int) =~= cs);
    }
    let mut removed: usize = 0;
    let mut kept_payload: Vec<u8> = Vec::new();
    let mut i: usize = 0;
    while i < children.len()
        invariant
            t == traf_box@,
            i <= children@.len(),
            cs == box_views(children@),
            spec_iter_boxes(t, 8, t.len() as int) == Some(cs),
            boxes_in(cs, 8, t.len() as int, t.len() as int),
            strip_fold(t, cs) == (
                kept_payload@ + strip_fold(t, cs.subrange(i as int, cs.len() as int)).0,
                removed + strip_fold(t, cs.subrange(i as int, cs.len() as int)).1,
            ),
        decreases children.len() - i,
    {
        let child = children[i];
        assert(cs[i as int] == child@);
        let ghost tail = cs.subrange(i as int, cs.len() as int);
        assert(tail[0] == child@);
        assert(tail.drop_first() =~= cs.subrange(i + 1, cs.len() as int));
        let t_tag = tag_value(&child.box_type);
        if t_tag == BOX_SENC || t_tag == BOX_SAIZ || t_tag == BOX_SAIO || t_tag == BOX_SGPD || t_tag
            == BOX_SBGP {
            removed = match checked_add(removed, child.size, "removed byte count overflow") {
                Ok(v) => v,
                Err(err) => {
                    proof {
                        lemma_boxes_in_subrange(cs, i + 1, cs.len() as int, 8, t.len() as int, t.len() as int);
                        lemma_strip_fold_nonneg(t, tail.drop_first(), 8, t.len() as int, t.len() as int);
                    }
                    return Err(err);
                },
            };
        } else {
            let child_bytes = box_slice(traf_box, &child);
            let ghost before = kept_payload@;
            append_all(&mut kept_payload, child_bytes);
            assert(before + (child_bytes@ + strip_fold(t, tail.drop_first()).0) =~= kept_payload@
                + strip_fold(t, tail.drop_first()).0);
        }
        i += 1;
    }
    proof {
        assert(cs.subrange(cs.len() as int, cs.len() as int) =~= Seq::<BoxSpec>::empty());
        assert(kept_payload@ + Seq::<u8>::empty() =~= kept_payload@);
    }
    let rebuilt = rebuild_box(BOX_TRAF, &kept_payload)?;
    Ok((rebuilt, removed))
}

/// Patches the `trun` and `tfhd` children of a `traf` box.
pub fn patch_traf_data_offsets(traf_box: &[u8], delta: usize) -> (r: Result<Vec<u8>, Mp4Error>)
    ensures
        match r {
            Ok(v) => spec_patch_traf(traf_box@, delta as int) == Some(v@),
            Err(_) => spec_patch_traf(traf_box@, delta as int) is None,
        },
{
    let ghost t = traf_box@;
    let children = iter_boxes(traf_box, 8, traf_box.len())?;
    let ghost cs = box_views(children@);
    proof {
        lemma_iter_boxes_in(t, 8, t.len() as int);
        assert(cs.subrange(0, cs.len() as int) =~= cs);
    }
    let mut payload: Vec<u8> = Vec::new();
    let mut i: usize = 0;
    while i < children.len()
        invariant
            t == traf_box@,
            i <= children@.len(),
            cs == box_views(children@),
            spec_iter_boxes(t, 8, t.len() as int) == Some(cs),
            boxes_in(cs, 8, t.len() as int, t.len() as int),
            traf_fold(t, cs, delta as int) == match traf_fold(
                t,
                cs.subrange(i as int, cs.len() as int),
                delta as int,
            ) {
                Some(rest) => Some(payload@ + rest),
                None => None,
            },
        decreases children.len() - i,
    {
        let child = children[i];
        assert(cs[i as int] == child@);
        let ghost tail = cs.subrange(i as int, cs.len() as int);
        assert(tail[0] == child@);
        assert(tail.drop_first() =~= cs.subrange(i + 1, cs.len() as int));
        let child_bytes = box_slice(traf_box, &child);
        let t_tag = tag_value(&child.box_type);
        let patched_res = if t_tag == BOX_TRUN {
            patch_trun_data_offset(child_bytes, delta)
        } else if t_tag == BOX_TFHD {
            patch_tfhd_sample_description_index(child_bytes)
        } else {
            Ok(copy_range(child_bytes, 0, child_bytes.len()))
        };
        assert(child_bytes@.subrange(0, child_bytes@.len() as int) =~= child_bytes@);
        let patched = match patched_res {
            Ok(v) => v,
            Err(err) => {
                assert(traf_fold(t, tail, delta as int) is None);
                return Err(err);
            },
        };
        let ghost before = payload@;
        append_all(&mut payload, &patched);
        proof {
            match traf_fold(t, tail.drop_first(), delta as int) {
                Some(rest) => {
                    assert(before + (patched@ + rest) =~= payload@ + rest);
                },
                None => {},
            }
        }
        i += 1;
    }
    proof {
        assert(cs.subrange(cs.len() as int, cs.len() as int) =~= Seq::<BoxSpec>::empty());
        assert(payload@ + Seq::<u8>::empty() =~= payload@);
    }
    rebuild_box(BOX_TRAF, &payload)
}

pub open spec fn items_view(v: Seq<(u32, Vec<u8>)>) -> Seq<(u32, Seq<u8>)> {
    v.map_values(|p: (u32, Vec<u8>)| (p.0, p.1@))
}

/// Removes `pssh` children and the encryption boxes of every `traf` child
/// of a `moof` box, then lowers every `trun` data offset by the number of
/// bytes removed and resets the `tfhd` sample description indexes.
pub fn sanitize_moof_box(moof_box: &[u8]) -> (r: Result<Vec<u8>, Mp4Error>)
    ensures
        match r {
            Ok(v) => spec_sanitize_moof(moof_box@) == Some(v@),
            Err(_) => spec_sanitize_moof(moof_box@) is None,
        },
{
    let ghost m = moof_box@;
    let children = iter_boxes(moof_box, 8, moof_box.len())?;
    let ghost cs = box_views(children@);
    proof {
        lemma_iter_boxes_in(m, 8, m.len() as int);
        assert(cs.subrange(0, cs.len() as int) =~= cs);
    }
    let mut removed: usize = 0;
    let mut items: Vec<(u32, Vec<u8>)> = Vec::new();
    let mut i: usize = 0;
    while i < children.len()
        invariant
            m == moof_box@,
            i <= children@.len(),
            cs == box_views(children@),
            spec_iter_boxes(m, 8, m.len() as int) == Some(cs),
            boxes_in(cs, 8, m.len() as int, m.len() as int),
            moof_pass1(m, cs) == match moof_pass1(m, cs.subrange(i as int, cs.len() as int)) {
                Some((its, tot)) => Some((items_view(items@) + its, removed + tot)),
                None => None,
            },
        decreases children.len() - i,
    {
        let child = children[i];
        assert(cs[i as int] == child@);
        let ghost tail = cs.subrange(i as int, cs.len() as int);
        assert(tail[0] == child@);
        assert(tail.drop_first() =~= cs.subrange(i + 1, cs.len() as int));
        proof {
            lemma_boxes_in_subrange(cs, i + 1, cs.len() as int, 8, m.len() as int, m.len() as int);
            if moof_pass1(m, tail.drop_first()) is Some {
                lemma_moof_pass1_nonneg(m, tail.drop_first(), 8, m.len() as int, m.len() as int);
            }
        }
        let child_bytes = box_slice(moof_box, &child);
        let t_tag = tag_value(&child.box_type);
        let ghost before = items_view(items@);
        if t_tag == BOX_TRAF {
            let (stripped, removed_bytes) = match strip_traf_encryption_boxes(child_bytes) {
                Ok(p) => p,
                Err(err) => {
                    assert(moof_pass1(m, tail) is None);
                    return Err(err);
                },
            };
            proof {
                lemma_strip_traf_nonneg(child_bytes@);
            }
            removed = match checked_add(removed, removed_bytes, "moof removed byte count overflow") {
                Ok(v) => v,
                Err(err) => {
                    return Err(err);
                },
            };
            items.push((BOX_TRAF, stripped));
            assert(items_view(items@) =~= before.push((BOX_TRAF, stripped@)));
            proof {
                match moof_pass1(m, tail.drop_first()) {
                    Some((its, tot)) => {
                        assert(before + (seq![(BOX_TRAF, stripped@)] + its) =~= items_view(items@) + its);
                    },
                    None => {},
                }
            }
        } else if t_tag == BOX_PSSH {
            removed = match checked_add(removed, child.size, "moof removed byte count overflow") {
                Ok(v) => v,
                Err(err) => {
                    return Err(err);
                },
            };
        } else {
            let copied = copy_range(child_bytes, 0, child_bytes.len());
            assert(copied@ =~= child_bytes@);
            items.push((t_tag, copied));
            assert(items_view(items@) =~= before.push((t_tag, child_bytes@)));
            proof {
                match moof_pass1(m, tail.drop_first()) {
                    Some((its, tot)) => {
                        assert(before + (seq![(t_tag, child_bytes@)] + its) =~= items_view(items@) + its);
                    },
                    None => {},
                }
            }
        }
        i += 1;
    }
    proof {
        assert(cs.subrange(cs.len() as int, cs.len() as int) =~= Seq::<BoxSpec>::empty());
        assert(items_view(items@) + Seq::<(u32, Seq<u8>)>::empty() =~= items_view(items@));
    }
    let ghost iv = items_view(items@);
    assert(iv.subrange(0, iv.len() as int) =~= iv);
    let mut payload: Vec<u8> = Vec::new();
    let mut j: usize = 0;
    while j < items.len()
        invariant
            j <= items@.len(),
            iv == items_view(items@),
            m == moof_box@,
            spec_iter_boxes(m, 8, m.len() as int) == Some(cs),
            moof_pass1(m, cs) == Some((iv, removed as int)),
            moof_pass2(iv, removed as int) == match moof_pass2(
                iv.subrange(j as int, iv.len() as int),
                removed as int,
            ) {
                Some(rest) => Some(payload@ + rest),
                None => None,
            },
        decreases items.len() - j,
    {
        let item = &items[j];
        let ghost tail = iv.subrange(j as int, iv.len() as int);
        assert(iv[j as int] == (item.0, item.1@));
        assert(tail[0] == (item.0, item.1@));
        assert(tail.drop_first() =~= iv.subrange(j + 1, iv.len() as int));
        let x_res = if item.0 == BOX_TRAF {
            patch_traf_data_offsets(item.1.as_slice(), removed)
        } else {
            Ok(copy_range(item.1.as_slice(), 0, item.1.len()))
        };
        assert(item.1@.subrange(0, item.1@.len() as int) =~= item.1@);
        let x = match x_res {
            Ok(v) => v,
            Err(err) => {
                assert(moof_pass2(tail, removed as int) is None);
                return Err(err);
            },
        };
        let ghost before = payload@;
        append_all(&mut payload, &x);
        proof {
            match moof_pass2(tail.drop_first(), removed as int) {
                Some(rest) => {
                    assert(before + (x@ + rest) =~= payload@ + rest);
                },
                None => {},
            }
        }
        j += 1;
    }
    proof {
        assert(iv.subrange(iv.len() as int, iv.len() as int) =~= Seq::<(u32, Seq<u8>)>::empty());
        assert(payload@ + Seq::<u8>::empty() =~= payload@);
    }
    rebuild_box(BOX_MOOF, &payload)
}

/// Sanitizes every top-level `moof` of a media fragment, keeping the other
/// top-level boxes as they are.
pub fn sanitize_fragment(fragment: &[u8]) -> (r: Result<Vec<u8>, Mp4Error>)
    ensures
        match r {
            Ok(v) => spec_sanitize_fragment(fragment@) == Some(v@),
            Err(_) => spec_sanitize_fragment(fragment@) is None,
        },
{
    let ghost f = fragment@;
    let items = iter_boxes(fragment, 0, fragment.len())?;
    let ghost bs = box_views(items@);
    proof {
        lemma_iter_boxes_in(f, 0, f.len() as int);
        assert(bs.subrange(0, bs.len() as int) =~= bs);
    }
    let mut out: Vec<u8> = Vec::new();
    let mut i: usize = 0;
    while i < items.len()
        invariant
            f == fragment@,
            i <= items@.len(),
            bs == box_views(items@),
            spec_iter_boxes(f, 0, f.len() as int) == Some(bs),
            boxes_in(bs, 0, f.len() as int, f.len() as int),
            fragment_fold(f, bs) == match fragment_fold(f, bs.subrange(i as int, bs.len() as int)) {
                Some(rest) => Some(out@ + rest),
                None => None,
            },
        decreases items.len() - i,
    {
        let item = items[i];
        assert(bs[i as int] == item@);
        let ghost tail = bs.subrange(i as int, bs.len() as int);
        assert(tail[0] == item@);
        assert(tail.drop_first() =~= bs.subrange(i + 1, bs.len() as int));
        let bytes = box_slice(fragment, &item);
        let x_res = if tag_value(&item.box_type) == BOX_MOOF {
            sanitize_moof_box(bytes)
        } else {
            Ok(copy_range(bytes, 0, bytes.len()))
        };
        assert(bytes@.subrange(0, bytes@.len() as int) =~= bytes@);
        let x = match x_res {
            Ok(v) => v,
            Err(err) => {
                assert(fragment_fold(f, tail) is None);
                return Err(err);
            },
        };
        let ghost before = out@;
        append_all(&mut out, &x);
        proof {
            match fragment_fold(f, tail.drop_first()) {
                Some(rest) => {
                    assert(before + (x@ + rest) =~= out@ + rest);
                },
                None => {},
            }
        }
        i += 1;
    }
    proof {
        assert(bs.subrange(bs.len() as int, bs.len() as int) =~= Seq::<BoxSpec>::empty());
        assert(out@ + Seq::<u8>::empty() =~= out@);
    }
    Ok(out)
}

/// Sanitizes every top-level `moov` of an init segment, keeping the other
/// top-level boxes as they are.
pub fn sanitize_init_segment(init_data: &[u8]) -> (r: Result<Vec<u8>, Mp4Error>)
    ensures
        match r {
            Ok(v) => spec_sanitize_init(init_data@) == Some(v@),
            Err(_) => spec_sanitize_init(init_data@) is None,
        },
{
    let ghost f = init_data@;
    let items = iter_boxes(init_data, 0, init_data.len())?;
    let ghost bs = box_views(items@);
    proof {
        lemma_iter_boxes_in(f, 0, f.len() as int);
        assert(bs.subrange(0, bs.len() as int) =~= bs);
    }
    let mut out: Vec<u8> = Vec::new();
    let mut i: usize = 0;
    while i < items.len()
        invariant
            f == init_data@,
            i <= items@.len(),
            bs == box_views(items@),
            spec_iter_boxes(f, 0, f.len() as int) == Some(bs),
            boxes_in(bs, 0, f.len() as int, f.len() as int),
            init_fold(f, bs) == match init_fold(f, bs.subrange(i as int, bs.len() as int)) {
                Some(rest) => Some(out@ + rest),
                None => None,
            },
        decreases items.len() - i,
    {
        let item = items[i];
        assert(bs[i as int] == item@);
        let ghost tail = bs.subrange(i as int, bs.len() as int);
        assert(tail[0] == item@);
        assert(tail.drop_first() =~= bs.subrange(i + 1, bs.len() as int));
        let bytes = box_slice(init_data, &item);
        let x_res = if tag_value(&item.box_type) == BOX_MOOV {
            sanitize_moov_box(bytes)
        } else {
            Ok(copy_range(bytes, 0, bytes.len()))
        };
        assert(bytes@.subrange(0, bytes@.len() as int) =~= bytes@);
        let x = match x_res {
            Ok(v) => v,
            Err(err) => {
                assert(init_fold(f, tail) is None);
                return Err(err);
            },
        };
        let ghost before = out@;
        append_all(&mut out, &x);
        proof {
            match init_fold(f, tail.drop_first()) {
                Some(rest) => {
                    assert(before + (x@ + rest) =~= out@ + rest);
                },
                None => {},
            }
        }
        i += 1;
    }
    proof {
        assert(bs.subrange(bs.len() as int, bs.len() as int) =~= Seq::<BoxSpec>::empty());
        assert(out@ + Seq::<u8>::empty() =~= out@);
    }
    Ok(out)
}

/// The default sample size that a `tfhd` box declares (flag 0x10), or `None`
/// in the outer option when its fields run out of the fragment.
pub open spec fn spec_tfhd_default_size(f: Seq<u8>, tfhd: BoxSpec) -> Option<Option<u32>> {
    let off = tfhd.offset;
    if off + 12 > f.len() {
        None
    } else {
        let fl = be_u32(f, off + 8) & 0xFF_FFFF;
        let c3 = off + 16 + (if fl & 0x01 != 0 {
            8int
        } else {
            0int
        }) + (if fl & 0x02 != 0 {
            4int
        } else {
            0int
        }) + (if fl & 0x08 != 0 {
            4int
        } else {
            0int
        });
        if c3 > usize::MAX {
            None
        } else if fl & 0x10 != 0 {
            if c3 + 4 > f.len() || (fl & 0x20 != 0 && c3 + 8 > usize::MAX) {
                None
            } else {
                Some(Some(be_u32(f, c3)))
            }
        } else if fl & 0x20 != 0 && c3 + 4 > usize::MAX {
            None
        } else {
            Some(None)
        }
    }
}

/// The sample ranges of `count` samples described by a `trun` table whose
/// next entry is at `tc`, the first sample starting at `so`; also the end of
/// the last sample.
pub open spec fn spec_samples(
    f: Seq<u8>,
    fl: u32,
    dss: Option<u32>,
    count: nat,
    tc: int,
    so: int,
) -> Option<(Seq<(int, int)>, int)>
    decreases count,
{
    if count == 0 {
        Some((Seq::empty(), so))
    } else {
        let tc1 = if fl & 0x100 != 0 {
            tc + 4
        } else {
            tc
        };
        let sz_tc: Option<(int, int)> = if fl & 0x200 != 0 {
            if tc1 + 4 > f.len() {
                None
            } else {
                Some((be_u32(f, tc1) as int, tc1 + 4))
            }
        } else {
            match dss {
                None => None,
                Some(d) => Some((d as int, tc1)),
            }
        };
        if tc1 > usize::MAX {
            None
        } else {
            match sz_tc {
                None => None,
                Some((sz, tc2)) => {
                    let tc3 = if fl & 0x400 != 0 {
                        tc2 + 4
                    } else {
                        tc2
                    };
                    let tc4 = if fl & 0x800 != 0 {
                        tc3 + 4
                    } else {
                        tc3
                    };
                    let se = so + sz;
                    if tc3 > usize::MAX || tc4 > usize::MAX || se > usize::MAX || se > f.len() {
                        None
                    } else {
                        match spec_samples(f, fl, dss, (count - 1) as nat, tc4, se) {
                            None => None,
                            Some((rest, e)) => Some((seq![(so, se)] + rest, e)),
                        }
                    }
                },
            }
        }
    }
}

/// Where the first sample of a `trun` starts: its data offset (flag 0x01)
/// relative to the `moof`, else where the previous run ended, else the start
/// of the `mdat` payload; paired with the position of the first table entry.
pub open spec fn spec_trun_start(
    f: Seq<u8>,
    trun: BoxSpec,
    moof_off: int,
    mdat: BoxSpec,
    cur: Option<int>,
) -> Option<(int, int)> {
    let fl = be_u32(f, trun.offset + 8) & 0xFF_FFFF;
    let tc0 = trun.offset + 16;
    if fl & 0x01 != 0 {
        if tc0 + 4 > f.len() {
            None
        } else {
            let rel = be_u32(f, tc0) as i32;
            let abs = (((moof_off as i64) as int) + (rel as int)) as i64;
            if abs < 0 {
                None
            } else {
                Some(((abs as usize) as int, tc0 + 4))
            }
        }
    } else {
        match cur {
            Some(o) => Some((o, tc0)),
            None => if mdat.offset + mdat.header_size > usize::MAX {
                None
            } else {
                Some((mdat.offset + mdat.header_size, tc0))
            },
        }
    }
}

/// The sample ranges of one `trun` and the end of its last sample.
#[verifier::opaque]
pub open spec fn spec_trun(
    f: Seq<u8>,
    trun: BoxSpec,
    moof_off: int,
    mdat: BoxSpec,
    dss: Option<u32>,
    cur: Option<int>,
) -> Option<(Seq<(int, int)>, int)> {
    if trun.offset + 16 > f.len() {
        None
    } else {
        let fl = be_u32(f, trun.offset + 8) & 0xFF_FFFF;
        let count = be_u32(f, trun.offset + 12);
        match spec_trun_start(f, trun, moof_off, mdat, cur) {
            None => None,
            Some((so, tc1)) => {
                let tc2 = if fl & 0x04 != 0 {
                    tc1 + 4
                } else {
                    tc1
                };
                if tc2 > usize::MAX {
                    None
                } else {
                    spec_samples(f, fl, dss, count as nat, tc2, so)
                }
            },
        }
    }
}

/// The sample ranges of the `trun` boxes among `trs`, in order.
pub open spec fn spec_truns(
    f: Seq<u8>,
    trs: Seq<BoxSpec>,
    moof_off: int,
    mdat: BoxSpec,
    dss: Option<u32>,
    cur: Option<int>,
) -> Option<(Seq<(int, int)>, Option<int>)>
    decreases trs.len(),
{
    if trs.len() == 0 {
        Some((Seq::empty(), cur))
    } else if trs[0].tag != BOX_TRUN {
        spec_truns(f, trs.drop_first(), moof_off, mdat, dss, cur)
    } else {
        match spec_trun(f, trs[0], moof_off, mdat, dss, cur) {
            None => None,
            Some((rs, e)) => match spec_truns(f, trs.drop_first(), moof_off, mdat, dss, Some(e)) {
                None => None,
                Some((rs2, c2)) => Some((rs + rs2, c2)),
            },
        }
    }
}

/// The sample ranges of one `traf` box.
#[verifier::opaque]
pub open spec fn spec_traf(f: Seq<u8>, traf: BoxSpec, moof_off: int, mdat: BoxSpec, cur: Option<int>) -> Option<
    (Seq<(int, int)>, Option<int>),
> {
    if traf.size < 8 {
        None
    } else {
        match spec_find_child(f, traf.offset + traf.header_size, traf.size - 8, BOX_TFHD) {
            None => None,
            Some(None) => None,
            Some(Some(tfhd)) => match spec_tfhd_default_size(f, tfhd) {
                None => None,
                Some(dss) => match spec_iter_boxes(
                    f,
                    traf.offset + traf.header_size,
                    traf.offset + traf.size,
                ) {
                    None => None,
                    Some(trs) => spec_truns(f, trs, moof_off, mdat, dss, cur),
                },
            },
        }
    }
}

/// The sample ranges of the `traf` boxes among `ts`, in order.
pub open spec fn spec_trafs(f: Seq<u8>, ts: Seq<BoxSpec>, moof_off: int, mdat: BoxSpec, cur: Option<int>) -> Option<
    Seq<(int, int)>,
>
    decreases ts.len(),
{
    if ts.len() == 0 {
        Some(Seq::empty())
    } else if ts[0].tag != BOX_TRAF {
        spec_trafs(f, ts.drop_first(), moof_off, mdat, cur)
    } else {
        match spec_traf(f, ts[0], moof_off, mdat, cur) {
            None => None,
            Some((rs, c)) => match spec_trafs(f, ts.drop_first(), moof_off, mdat, c) {
                None => None,
                Some(rs2) => Some(rs + rs2),
            },
        }
    }
}

/// The byte ranges of the samples of a media fragment, in the order of its
/// `traf` and `trun` boxes; `None` when the fragment lacks `moof` or `mdat`,
/// when a table runs out of data, or when no sample is described.
pub open spec fn spec_collect(f: Seq<u8>) -> Option<Seq<(int, int)>> {
    match spec_find_child(f, 0, f.len() as int, BOX_MOOF) {
        None => None,
        Some(None) => None,
        Some(Some(moof)) => match spec_find_child(f, 0, f.len() as int, BOX_MDAT) {
            None => None,
            Some(None) => None,
            Some(Some(mdat)) => match spec_iter_boxes(
                f,
                moof.offset + moof.header_size,
                moof.offset + moof.size,
            ) {
                None => None,
                Some(ts) => match spec_trafs(f, ts, moof.offset, mdat, None) {
                    None => None,
                    Some(rs) => if rs.len() == 0 {
                        None
                    } else {
                        Some(rs)
                    },
                },
            },
        },
    }
}

pub open spec fn ranges_view(v: Seq<Range<usize>>) -> Seq<(int, int)> {
    v.map_values(|r: Range<usize>| (r.start as int, r.end as int))
}

proof fn lemma_first_with_tag_in(bs: Seq<BoxSpec>, tag: u32, start: int, end: int, len: int)
    requires
        boxes_in(bs, start, end, len),
        first_with_tag(bs, tag) is Some,
    ensures
        ({
            let b = first_with_tag(bs, tag).unwrap();
            &&& start <= b.offset
            &&& b.size > 0
            &&& b.offset + b.size <= end
            &&& b.offset + 8 <= end
            &&& (b.header_size == 8 || b.header_size == 16)
            &&& b.offset + b.header_size <= len
            &&& b.tag == tag
        }),
    decreases bs.len(),
{
    assert(start <= bs[0].offset);
    if bs[0].tag != tag {
        lemma_boxes_in_subrange(bs, 1, bs.len() as int, start, end, len);
        assert(bs.drop_first() == bs.subrange(1, bs.len() as int));
        lemma_first_with_tag_in(bs.drop_first(), tag, start, end, len);
    }
}

/// A box found by `spec_find_child` lies inside the searched range.
proof fn lemma_find_child_in(d: Seq<u8>, start: int, size: int, tag: u32)
    requires
        0 <= start,
        spec_find_child(d, start, size, tag) matches Some(Some(_)),
    ensures
        ({
            let b = spec_find_child(d, start, size, tag).unwrap().unwrap();
            &&& start <= b.offset
            &&& b.size > 0
            &&& b.offset + b.size <= start + size
            &&& b.offset + 8 <= start + size
            &&& start + size <= d.len()
            &&& (b.header_size == 8 || b.header_size == 16)
            &&& b.offset + b.header_size <= d.len()
            &&& b.tag == tag
        }),
{
    reveal(spec_iter_boxes);
    lemma_iter_boxes_in(d, start, start + size);
    let bs = spec_iter_boxes(d, start, start + size).unwrap();
    lemma_first_with_tag_in(bs, tag, start, start + size, d.len() as int);
}

/// The default sample size declared by a `tfhd` box (flag 0x10).
fn tfhd_default_sample_size(fragment: &[u8], tfhd: &Mp4Box) -> (r: Result<Option<u32>, Mp4Error>)
    requires
        tfhd.offset + 8 <= fragment.len(),
    ensures
        match r {
            Ok(v) => spec_tfhd_default_size(fragment@, tfhd@) == Some(v),
            Err(_) => spec_tfhd_default_size(fragment@, tfhd@) is None,
        },
{
    let tfhd_flags = read_u32(fragment, tfhd.offset + 8)? & 0x00FF_FFFF;
    let mut cursor = checked_add(tfhd.offset, 12, "tfhd cursor overflow")?;
    cursor = checked_add(cursor, 4, "tfhd track id cursor overflow")?;
    if tfhd_flags & 0x01 != 0 {
        cursor = checked_add(cursor, 8, "tfhd base data offset cursor overflow")?;
    }
    if tfhd_flags & 0x02 != 0 {
        cursor = checked_add(cursor, 4, "tfhd sample description cursor overflow")?;
    }
    if tfhd_flags & 0x08 != 0 {
        cursor = checked_add(cursor, 4, "tfhd default sample duration cursor overflow")?;
    }
    let default_sample_size = if tfhd_flags & 0x10 != 0 {
        let value = read_u32(fragment, cursor)?;
        cursor = checked_add(cursor, 4, "tfhd default sample size cursor overflow")?;
        Some(value)
    } else {
        None
    };
    if tfhd_flags & 0x20 != 0 {
        let _ = checked_add(cursor, 4, "tfhd default sample flags cursor overflow")?;
    }
    Ok(default_sample_size)
}

/// Appends the sample ranges of one `trun` box to `ranges` and returns the
/// end of its last sample.
fn collect_trun(
    fragment: &[u8],
    trun: &Mp4Box,
    moof_offset: usize,
    mdat: &Mp4Box,
    default_sample_size: Option<u32>,
    current_data_offset: Option<usize>,
    ranges: &mut Vec<Range<usize>>,
) -> (r: Result<usize, Mp4Error>)
    requires
        trun.offset + 8 <= fragment.len(),
    ensures
        match r {
            Ok(e) => match spec_trun(
                fragment@,
                trun@,
                moof_offset as int,
                mdat@,
                default_sample_size,
                match current_data_offset {
                    Some(o) => Some(o as int),
                    None => None,
                },
            ) {
                Some((rs, e2)) => e == e2 && ranges_view(final(ranges)@) == ranges_view(old(ranges)@)
                    + rs,
                None => false,
            },
            Err(_) => spec_trun(
                fragment@,
                trun@,
                moof_offset as int,
                mdat@,
                default_sample_size,
                match current_data_offset {
                    Some(o) => Some(o as int),
                    None => None,
                },
            ) is None,
        },
{
    let ghost f = fragment@;
    reveal(spec_trun);
    let ghost cur: Option<int> = match current_data_offset {
        Some(o) => Some(o as int),
        None => None,
    };
    let trun_flags = read_u32(fragment, trun.offset + 8)? & 0x00FF_FFFF;
    let sample_count = read_u32(fragment, trun.offset + 12)? as usize;
    let mut trun_cursor = checked_add(trun.offset, 16, "trun cursor overflow")?;
    let mut sample_offset: usize = if trun_flags & 0x01 != 0 {
        let relative = read_i32(fragment, trun_cursor)? as i64;
        trun_cursor = trun_cursor + 4;
        let absolute_wide: i128 = (#[verifier::truncate] (moof_offset as i64)) as i128
            + relative as i128;
        let absolute = #[verifier::truncate] (absolute_wide as i64);
        if absolute < 0 {
            let mut m: Vec<char> = Vec::new();
            crate::text::push_str(&mut m, "trun data offset resolved to negative value: ");
            crate::text::push_signed_decimal(&mut m, absolute);
            return Err(Mp4Error::Invalid(crate::text::chars_to_string(&m)));
        }
        #[verifier::truncate] (absolute as usize)
    } else if let Some(offset) = current_data_offset {
        offset
    } else {
        checked_add(mdat.offset, mdat.header_size, "mdat data offset overflow")?
    };
    assert(spec_trun_start(f, trun@, moof_offset as int, mdat@, cur) == Some(
        (sample_offset as int, trun_cursor as int),
    ));
    if trun_flags & 0x04 != 0 {
        trun_cursor = checked_add(trun_cursor, 4, "trun first sample flags cursor overflow")?;
    }
    let ghost fl = trun_flags;
    let ghost tc2 = trun_cursor as int;
    let ghost so0 = sample_offset as int;
    let ghost old_view = ranges_view(ranges@);
    let ghost mut acc: Seq<(int, int)> = Seq::empty();
    assert(spec_trun(f, trun@, moof_offset as int, mdat@, default_sample_size, cur) == spec_samples(
        f,
        fl,
        default_sample_size,
        sample_count as nat,
        tc2,
        so0,
    ));
    let mut k: usize = 0;
    while k < sample_count
        invariant
            f == fragment@,
            k <= sample_count,
            fl == trun_flags,
            cur == match current_data_offset {
                Some(o) => Some(o as int),
                None => None,
            },
            old_view == ranges_view(old(ranges)@),
            ranges_view(ranges@) == old_view + acc,
            spec_trun(f, trun@, moof_offset as int, mdat@, default_sample_size, cur) == spec_samples(
                f,
                fl,
                default_sample_size,
                sample_count as nat,
                tc2,
                so0,
            ),
            spec_samples(f, fl, default_sample_size, sample_count as nat, tc2, so0) == match spec_samples(
                f,
                fl,
                default_sample_size,
                (sample_count - k) as nat,
                trun_cursor as int,
                sample_offset as int,
            ) {
                Some((rest, e)) => Some((acc + rest, e)),
                None => None,
            },
        decreases sample_count - k,
    {
        let ghost tc_before = trun_cursor as int;
        let ghost so_before = sample_offset as int;
        let ghost next = spec_samples(
            f,
            fl,
            default_sample_size,
            (sample_count - k) as nat,
            tc_before,
            so_before,
        );
        if trun_flags & 0x100 != 0 {
            trun_cursor = checked_add(trun_cursor, 4, "trun sample duration overflow")?;
        }
        let sample_size: usize = if trun_flags & 0x200 != 0 {
            let value = read_u32(fragment, trun_cursor)? as usize;
            trun_cursor = checked_add(trun_cursor, 4, "trun sample size overflow")?;
            value
        } else {
            match default_sample_size {
                Some(v) => v as usize,
                None => {
                    return Err(invalid(
                        "trun omitted sample sizes and tfhd omitted default sample size",
                    ));
                },
            }
        };
        if trun_flags & 0x400 != 0 {
            trun_cursor = checked_add(trun_cursor, 4, "trun sample flags overflow")?;
        }
        if trun_flags & 0x800 != 0 {
            trun_cursor = checked_add(trun_cursor, 4, "trun cts offset overflow")?;
        }
        let sample_end = checked_add(sample_offset, sample_size, "sample end overflow")?;
        if sample_end > fragment.len() {
            return Err(invalid("sample range exceeded fragment size"));
        }
        let ghost before_push = ranges@;
        ranges.push(sample_offset..sample_end);
        proof {
            let item = (so_before, sample_end as int);
            assert(ranges@ == before_push.push(sample_offset..sample_end));
            assert(ranges_view(ranges@) =~= ranges_view(before_push).push(item));
            assert(ranges_view(ranges@) =~= old_view + acc.push(item));
            match spec_samples(
                f,
                fl,
                default_sample_size,
                (sample_count - k - 1) as nat,
                trun_cursor as int,
                sample_end as int,
            ) {
                Some((rest, e)) => {
                    assert(next == Some((seq![item] + rest, e)));
                    assert(acc + (seq![item] + rest) =~= acc.push(item) + rest);
                },
                None => {
                    assert(next is None);
                },
            }
            acc = acc.push(item);
        }
        sample_offset = sample_end;
        k += 1;
    }
    assert(acc + Seq::<(int, int)>::empty() =~= acc);
    Ok(sample_offset)
}

pub open spec fn opt_int(o: Option<usize>) -> Option<int> {
    match o {
        Some(v) => Some(v as int),
        None => None,
    }
}

/// Appends the sample ranges of one `traf` box to `ranges`; returns where
/// the last run ended (unchanged when the box has no `trun`).
fn collect_traf(
    fragment: &[u8],
    traf: &Mp4Box,
    moof_offset: usize,
    mdat: &Mp4Box,
    current_data_offset: Option<usize>,
    ranges: &mut Vec<Range<usize>>,
) -> (r: Result<Option<usize>, Mp4Error>)
    requires
        traf.offset + traf.header_size <= fragment.len(),
        traf.offset + traf.size <= fragment.len(),
    ensures
        match r {
            Ok(c) => match spec_traf(
                fragment@,
                traf@,
                moof_offset as int,
                mdat@,
                opt_int(current_data_offset),
            ) {
                Some((rs, c2)) => opt_int(c) == c2 && ranges_view(final(ranges)@) == ranges_view(
                    old(ranges)@,
                ) + rs,
                None => false,
            },
            Err(_) => spec_traf(
                fragment@,
                traf@,
                moof_offset as int,
                mdat@,
                opt_int(current_data_offset),
            ) is None,
        },
{
    let ghost f = fragment@;
    reveal(spec_traf);
    if traf.size < 8 {
        return Err(invalid("child box end overflow"));
    }
    let payload_start = traf.payload_start();
    let tfhd = match find_child_box_fourcc(fragment, payload_start, traf.size - 8, BOX_TFHD)? {
        Some(b) => b,
        None => {
            return Err(invalid("traf is missing tfhd"));
        },
    };
    proof {
        lemma_find_child_in(f, payload_start as int, traf.size - 8, BOX_TFHD);
    }
    let default_sample_size = tfhd_default_sample_size(fragment, &tfhd)?;
    let payload_end = traf.payload_end();
    let truns = iter_boxes(fragment, payload_start, payload_end)?;
    let ghost trs = box_views(truns@);
    proof {
        lemma_iter_boxes_in(f, payload_start as int, payload_end as int);
        assert(trs.subrange(0, trs.len() as int) =~= trs);
    }
    let ghost old_view = ranges_view(ranges@);
    let ghost cur0 = opt_int(current_data_offset);
    let ghost mut acc: Seq<(int, int)> = Seq::empty();
    assert(spec_traf(f, traf@, moof_offset as int, mdat@, cur0) == spec_truns(
        f,
        trs,
        moof_offset as int,
        mdat@,
        default_sample_size,
        cur0,
    ));
    let mut current = current_data_offset;
    let mut j: usize = 0;
    while j < truns.len()
        invariant
            f == fragment@,
            j <= truns@.len(),
            trs == box_views(truns@),
            boxes_in(trs, payload_start as int, payload_end as int, f.len() as int),
            payload_end <= fragment.len(),
            old_view == ranges_view(old(ranges)@),
            cur0 == opt_int(current_data_offset),
            ranges_view(ranges@) == old_view + acc,
            spec_traf(f, traf@, moof_offset as int, mdat@, cur0) == spec_truns(
                f,
                trs,
                moof_offset as int,
                mdat@,
                default_sample_size,
                cur0,
            ),
            spec_truns(f, trs, moof_offset as int, mdat@, default_sample_size, cur0) == match spec_truns(
                f,
                trs.subrange(j as int, trs.len() as int),
                moof_offset as int,
                mdat@,
                default_sample_size,
                opt_int(current),
            ) {
                Some((rs, c)) => Some((acc + rs, c)),
                None => None,
            },
        decreases truns.len() - j,
    {
        let trun = truns[j];
        assert(trs[j as int] == trun@);
        let ghost tail = trs.subrange(j as int, trs.len() as int);
        assert(tail[0] == trun@);
        assert(tail.drop_first() =~= trs.subrange(j + 1, trs.len() as int));
        assert(payload_start <= trs[j as int].offset);
        if tag_value(&trun.box_type) == BOX_TRUN {
            let ghost before = ranges_view(ranges@);
            let e = match collect_trun(
                fragment,
                &trun,
                moof_offset,
                mdat,
                default_sample_size,
                current,
                ranges,
            ) {
                Ok(e) => e,
                Err(err) => {
                    assert(opt_int(current) == match current {
                        Some(o) => Some(o as int),
                        None => None,
                    });
                    assert(tail[0].tag == BOX_TRUN);
                    assert(spec_truns(
                        f,
                        tail,
                        moof_offset as int,
                        mdat@,
                        default_sample_size,
                        opt_int(current),
                    ) is None);
                    return Err(err);
                },
            };
            proof {
                assert(opt_int(current) == match current {
                    Some(o) => Some(o as int),
                    None => None,
                });
                let (rs, e2) = spec_trun(
                    f,
                    trun@,
                    moof_offset as int,
                    mdat@,
                    default_sample_size,
                    opt_int(current),
                ).unwrap();
                match spec_truns(
                    f,
                    tail.drop_first(),
                    moof_offset as int,
                    mdat@,
                    default_sample_size,
                    Some(e as int),
                ) {
                    Some((rs2, c2)) => {
                        assert(acc + (rs + rs2) =~= (acc + rs) + rs2);
                    },
                    None => {},
                }
                acc = acc + rs;
            }
            current = Some(e);
        }
        j += 1;
    }
    assert(acc + Seq::<(int, int)>::empty() =~= acc);
    Ok(current)
}

/// The byte ranges of the samples of a media fragment: each `trun` of each
/// `traf` of the first `moof` lists sample sizes from its data offset (or
/// where the previous run ended, or the start of the first `mdat` payload).
/// Fails when `moof` or `mdat` is missing, when a table is truncated, when a
/// sample would run past the fragment, or when no sample is found.
pub fn collect_sample_slices(fragment: &[u8]) -> (r: Result<Vec<Range<usize>>, Mp4Error>)
    ensures
        match r {
            Ok(v) => spec_collect(fragment@) == Some(ranges_view(v@)),
            Err(_) => spec_collect(fragment@) is None,
        },
{
    let ghost f = fragment@;
    let moof = match find_child_box_fourcc(fragment, 0, fragment.len(), BOX_MOOF)? {
        Some(b) => b,
        None => {
            return Err(invalid("fragment is missing moof"));
        },
    };
    let mdat = match find_child_box_fourcc(fragment, 0, fragment.len(), BOX_MDAT)? {
        Some(b) => b,
        None => {
            return Err(invalid("fragment is missing mdat"));
        },
    };
    proof {
        lemma_find_child_in(f, 0, f.len() as int, BOX_MOOF);
        lemma_find_child_in(f, 0, f.len() as int, BOX_MDAT);
    }
    let moof_payload_start = moof.payload_start();
    let moof_payload_end = moof.payload_end();
    let trafs = iter_boxes(fragment, moof_payload_start, moof_payload_end)?;
    let ghost ts = box_views(trafs@);
    proof {
        lemma_iter_boxes_in(f, moof_payload_start as int, moof_payload_end as int);
        assert(ts.subrange(0, ts.len() as int) =~= ts);
    }
    let mut ranges: Vec<Range<usize>> = Vec::new();
    let ghost mut acc: Seq<(int, int)> = Seq::empty();
    let mut current: Option<usize> = None;
    let mut i: usize = 0;
    while i < trafs.len()
        invariant
            f == fragment@,
            i <= trafs@.len(),
            ts == box_views(trafs@),
            boxes_in(ts, moof_payload_start as int, moof_payload_end as int, f.len() as int),
            moof_payload_end <= fragment.len(),
            ranges_view(ranges@) == acc,
            spec_collect(f) == match spec_trafs(f, ts, moof.offset as int, mdat@, None) {
                None => None,
                Some(rs) => if rs.len() == 0 {
                    None
                } else {
                    Some(rs)
                },
            },
            spec_trafs(f, ts, moof.offset as int, mdat@, None) == match spec_trafs(
                f,
                ts.subrange(i as int, ts.len() as int),
                moof.offset as int,
                mdat@,
                opt_int(current),
            ) {
                Some(rs) => Some(acc + rs),
                None => None,
            },
        decreases trafs.len() - i,
    {
        let traf = trafs[i];
        assert(ts[i as int] == traf@);
        let ghost tail = ts.subrange(i as int, ts.len() as int);
        assert(tail[0] == traf@);
        assert(tail.drop_first() =~= ts.subrange(i + 1, ts.len() as int));
        assert(moof_payload_start <= ts[i as int].offset);
        if tag_value(&traf.box_type) == BOX_TRAF {
            let c = collect_traf(fragment, &traf, moof.offset, &mdat, current, &mut ranges)?;
            proof {
                let (rs, c2) = spec_traf(f, traf@, moof.offset as int, mdat@, opt_int(current)).unwrap();
                match spec_trafs(f, tail.drop_first(), moof.offset as int, mdat@, c2) {
                    Some(rs2) => {
                        assert(acc + (rs + rs2) =~= (acc + rs) + rs2);
                    },
                    None => {},
                }
                acc = acc + rs;
            }
            current = c;
        }
        i += 1;
    }
    assert(acc + Seq::<(int, int)>::empty() =~= acc);
    if ranges.len() == 0 {
        return Err(invalid("fragment did not expose any decryptable samples"));
    }
    Ok(ranges)
}

/// The ADTS sampling-frequency index of a sample rate.
pub open spec fn spec_sample_rate_index(sample_rate: u32) -> Option<u8> {
    if sample_rate == 96_000 {
        Some(0)
    } else if sample_rate == 88_200 {
        Some(1)
    } else if sample_rate == 64_000 {
        Some(2)
    } else if sample_rate == 48_000 {
        Some(3)
    } else if sample_rate == 44_100 {
        Some(4)
    } else if sample_rate == 32_000 {
        Some(5)
    } else if sample_rate == 24_000 {
        Some(6)
    } else if sample_rate == 22_050 {
        Some(7)
    } else if sample_rate == 16_000 {
        Some(8)
    } else if sample_rate == 12_000 {
        Some(9)
    } else if sample_rate == 11_025 {
        Some(10)
    } else if sample_rate == 8_000 {
        Some(11)
    } else if sample_rate == 7_350 {
        Some(12)
    } else {
        None
    }
}

fn aac_sample_rate_index(sample_rate: u32) -> (r: Option<u8>)
    ensures
        r == spec_sample_rate_index(sample_rate),
{
    match sample_rate {
        96_000 => Some(0),
        88_200 => Some(1),
        64_000 => Some(2),
        48_000 => Some(3),
        44_100 => Some(4),
        32_000 => Some(5),
        24_000 => Some(6),
        22_050 => Some(7),
        16_000 => Some(8),
        12_000 => Some(9),
        11_025 => Some(10),
        8_000 => Some(11),
        7_350 => Some(12),
        _ => None,
    }
}

/// The seven bytes of an ADTS header (MPEG-4, no CRC) for an AAC frame of
/// `frame_size` bytes; `None` when the profile is zero, the channel count
/// exceeds 7, the sample rate has no ADTS index, or the frame with its
/// header exceeds the 13-bit length field.
pub open spec fn spec_adts_header(frame_size: usize, sample_rate: u32, channels: u8, profile: u8) -> Option<
    Seq<u8>,
> {
    if profile == 0 || channels > 7 {
        None
    } else {
        match spec_sample_rate_index(sample_rate) {
            None => None,
            Some(idx) => if frame_size + 7 > 0x1FFF {
                None
            } else {
                let full = (frame_size + 7) as usize;
                let pb = (profile - 1) as u8;
                Some(
                    seq![
                        0xFFu8,
                        0xF1u8,
                        ((pb & 0x03) << 6u8) | ((idx & 0x0F) << 2u8) | ((channels >> 2u8) & 0x01),
                        ((channels & 0x03) << 6u8) | (((full >> 11usize) & 0x03) as u8),
                        ((full >> 3usize) & 0xFF) as u8,
                        (((full & 0x07) << 5usize) as u8) | 0x1F,
                        0xFCu8,
                    ],
                )
            },
        }
    }
}

/// An ADTS header for an AAC-LC frame (profile 2).
pub fn make_adts_header(frame_size: usize, sample_rate: u32, channels: u8) -> (r: Result<
    [u8; 7],
    Mp4Error,
>)
    ensures
        match r {
            Ok(h) => spec_adts_header(frame_size, sample_rate, channels, 2) == Some(h@),
            Err(_) => spec_adts_header(frame_size, sample_rate, channels, 2) is None,
        },
{
    make_adts_header_with_profile(frame_size, sample_rate, channels, 2)
}

/// An ADTS header for an AAC frame of the given audio object type.
pub fn make_adts_header_with_profile(
    frame_size: usize,
    sample_rate: u32,
    channels: u8,
    profile: u8,
) -> (r: Result<[u8; 7], Mp4Error>)
    ensures
        match r {
            Ok(h) => spec_adts_header(frame_size, sample_rate, channels, profile) == Some(h@),
            Err(_) => spec_adts_header(frame_size, sample_rate, channels, profile) is None,
        },
{
    if profile == 0 {
        return Err(invalid("AAC profile must be greater than zero"));
    }
    if channels > 7 {
        return Err(invalid_at("AAC channel count out of ADTS range: ", channels as usize, ""));
    }
    let sample_rate_index = match aac_sample_rate_index(sample_rate) {
        Some(i) => i,
        None => {
            return Err(invalid_at("unsupported AAC sample rate: ", sample_rate as usize, ""));
        },
    };
    let full_size = match frame_size.checked_add(7) {
        Some(v) => v,
        None => {
            return Err(invalid("AAC frame size overflow"));
        },
    };
    if full_size > 0x1FFF {
        return Err(invalid_at("AAC frame too large for ADTS header: ", full_size, ""));
    }
    let profile_bits = profile - 1;
    let h = [
        0xFFu8,
        0xF1u8,
        ((profile_bits & 0x03) << 6u8) | ((sample_rate_index & 0x0F) << 2u8) | ((channels >> 2u8)
            & 0x01),
        ((channels & 0x03) << 6u8) | (((full_size >> 11usize) & 0x03) as u8),
        ((full_size >> 3usize) & 0xFF) as u8,
        (((full_size & 0x07) << 5usize) as u8) | 0x1F,
        0xFCu8,
    ];
    assert(h@ =~= spec_adts_header(frame_size, sample_rate, channels, profile).unwrap());
    Ok(h)
}

/// Law: the header fields read back what was written. The 12-bit syncword
/// is set, MPEG-4 without CRC is signalled, the 13-bit frame length is the
/// frame size plus the seven header bytes, the object type is `profile - 1`
/// (two bits), the sampling index and channel configuration are those
/// requested, and the buffer fullness is 0x7FF with a single raw block.
pub proof fn law_adts_header_fields(frame_size: usize, sample_rate: u32, channels: u8, profile: u8)
    requires
        spec_adts_header(frame_size, sample_rate, channels, profile) is Some,
    ensures
        ({
            let h = spec_adts_header(frame_size, sample_rate, channels, profile).unwrap();
            &&& h.len() == 7
            &&& h[0] == 0xFF
            &&& h[1] >> 4u8 == 0xF
            &&& h[1] & 0x0F == 0x01
            &&& (h[2] >> 6u8) as int == (profile - 1) % 4
            &&& spec_sample_rate_index(sample_rate) == Some((h[2] >> 2u8) & 0x0F)
            &&& (((h[2] & 0x01) << 2u8) | (h[3] >> 6u8)) == channels
            &&& ((h[3] & 0x03) as int) * 2048 + (h[4] as int) * 8 + ((h[5] >> 5u8) as int)
                == frame_size + 7
            &&& ((h[5] & 0x1F) as int) * 64 + ((h[6] >> 2u8) as int) == 0x7FF
            &&& h[6] & 0x03 == 0
        }),
{
    let h = spec_adts_header(frame_size, sample_rate, channels, profile).unwrap();
    let idx = spec_sample_rate_index(sample_rate).unwrap();
    let full = (frame_size + 7) as usize;
    let pb = (profile - 1) as u8;
    let b2 = ((pb & 0x03) << 6u8) | ((idx & 0x0F) << 2u8) | ((channels >> 2u8) & 0x01);
    let b3 = ((channels & 0x03) << 6u8) | (((full >> 11usize) & 0x03) as u8);
    let b4 = ((full >> 3usize) & 0xFF) as u8;
    let b5 = (((full & 0x07) << 5usize) as u8) | 0x1F;
    assert(idx <= 12);
    assert(b2 >> 6u8 == pb & 0x03 && (b2 >> 2u8) & 0x0F == idx) by (bit_vector)
        requires
            idx <= 12,
            b2 == ((pb & 0x03) << 6u8) | ((idx & 0x0F) << 2u8) | ((channels >> 2u8) & 0x01),
    ;
    assert(pb & 0x03 == pb % 4) by (bit_vector);
    assert((((b2 & 0x01) << 2u8) | (b3 >> 6u8)) == channels) by (bit_vector)
        requires
            channels <= 7,
            b2 == ((pb & 0x03) << 6u8) | ((idx & 0x0F) << 2u8) | ((channels >> 2u8) & 0x01),
            b3 == ((channels & 0x03) << 6u8) | (((full >> 11usize) & 0x03) as u8),
    ;
    assert(((b3 & 0x03) as usize) * 2048 + (b4 as usize) * 8 + ((b5 >> 5u8) as usize) == full)
        by (bit_vector)
        requires
            full <= 0x1FFF,
            b3 == ((channels & 0x03) << 6u8) | (((full >> 11usize) & 0x03) as u8),
            b4 == ((full >> 3usize) & 0xFF) as u8,
            b5 == (((full & 0x07) << 5usize) as u8) | 0x1F,
    ;
    assert((b5 & 0x1F) == 0x1F) by (bit_vector)
        requires
            b5 == (((full & 0x07) << 5usize) as u8) | 0x1F,
    ;
    assert(0xF1u8 >> 4u8 == 0xF && 0xF1u8 & 0x0F == 0x01 && 0xFCu8 >> 2u8 == 0x3F && 0xFCu8 & 0x03
        == 0) by (bit_vector);
    assert(h[2] == b2 && h[3] == b3 && h[4] == b4 && h[5] == b5);
}

/// The boxes `bs` lie end to end from `start`, and fewer than eight bytes
/// remain between the last of them and `end`.
pub open spec fn tiles(bs: Seq<BoxSpec>, start: int, end: int) -> bool {
    &&& (bs.len() == 0 ==> end - start < 8)
    &&& (bs.len() > 0 ==> bs[0].offset == start && end - (bs.last().offset + bs.last().size) < 8)
    &&& forall|i: int| 0 <= i < bs.len() - 1 ==> #[trigger] bs[i + 1].offset == bs[i].offset + bs[i].size
}

/// Where the boxes `bs`, laid from `off`, end.
pub open spec fn covered_end(bs: Seq<BoxSpec>, off: int) -> int {
    if bs.len() == 0 {
        off
    } else {
        bs.last().offset + bs.last().size
    }
}

proof fn lemma_boxes_from_tiles(d: Seq<u8>, off: int, end: int)
    requires
        boxes_from(d, off, end) is Some,
    ensures
        tiles(boxes_from(d, off, end).unwrap(), off, end),
    decreases end - off,
{
    if end - off >= 8 {
        let b = box_at(d, off, end).unwrap();
        lemma_boxes_from_tiles(d, off + b.size, end);
        let rest = boxes_from(d, off + b.size, end).unwrap();
        let bs = seq![b] + rest;
        assert forall|i: int| 0 <= i < bs.len() - 1 implies #[trigger] bs[i + 1].offset == bs[i].offset
            + bs[i].size by {
            if i > 0 {
                let j = i - 1;
                assert(rest[j + 1].offset == rest[j].offset + rest[j].size);
                assert(bs[i] == rest[j]);
                assert(bs[i + 1] == rest[j + 1]);
            } else {
                assert(bs[0] == b);
                assert(bs[1] == rest[0]);
                assert(b.offset == off);
                assert(rest.len() > 0);
                assert(rest[0].offset == off + b.size);
            }
        }
        if rest.len() > 0 {
            assert(bs.last() == rest.last());
        }
    }
}

/// Law: the boxes that `iter_boxes` reports tile the requested range from
/// its start, leaving fewer than eight bytes uncovered at its end.
pub proof fn law_iter_boxes_tile(d: Seq<u8>, start: int, end: int)
    requires
        spec_iter_boxes(d, start, end) is Some,
    ensures
        tiles(spec_iter_boxes(d, start, end).unwrap(), start, end),
{
    reveal(spec_iter_boxes);
    lemma_boxes_from_tiles(d, start, end);
}

/// Law: a box produced by the rebuilding step parses back as exactly one box
/// of the same type, with an 8-byte header, spanning the whole buffer.
pub proof fn law_rebuilt_box_parses_back(tag: u32, payload: Seq<u8>)
    requires
        spec_rebuild(tag, payload) is Some,
    ensures
        ({
            let b = spec_rebuild(tag, payload).unwrap();
            spec_iter_boxes(b, 0, b.len() as int) == Some(
                seq![BoxSpec { offset: 0, size: b.len() as int, tag, header_size: 8 }],
            )
        }),
{
    reveal(spec_iter_boxes);
    let b = spec_rebuild(tag, payload).unwrap();
    let n = (payload.len() + 8) as u32;
    lemma_be_u32_roundtrip(n);
    lemma_be_u32_roundtrip(tag);
    assert(b.subrange(0, 4) =~= u32_be_bytes(n));
    assert(b.subrange(4, 8) =~= u32_be_bytes(tag));
    assert(be_u32(b, 0) == be_u32(b.subrange(0, 4), 0));
    assert(be_u32(b, 4) == be_u32(b.subrange(4, 8), 0));
    assert(b.len() == payload.len() + 8);
    let bx = BoxSpec { offset: 0, size: b.len() as int, tag, header_size: 8 };
    assert(box_at(b, 0, b.len() as int) == Some(bx));
    assert(boxes_from(b, b.len() as int, b.len() as int) == Some(Seq::<BoxSpec>::empty()));
    assert(seq![bx] + Seq::<BoxSpec>::empty() =~= seq![bx]);
}

proof fn lemma_fragment_fold_plain(f: Seq<u8>, off: int, end: int)
    requires
        0 <= off <= end,
        end <= f.len(),
        boxes_from(f, off, end) is Some,
        forall|i: int|
            0 <= i < boxes_from(f, off, end).unwrap().len() ==> #[trigger] boxes_from(
                f,
                off,
                end,
            ).unwrap()[i].tag != BOX_MOOF,
    ensures
        fragment_fold(f, boxes_from(f, off, end).unwrap()) == Some(
            f.subrange(off, covered_end(boxes_from(f, off, end).unwrap(), off)),
        ),
    decreases end - off,
{
    let bs = boxes_from(f, off, end).unwrap();
    lemma_boxes_from_in(f, off, end);
    if end - off >= 8 {
        let b = box_at(f, off, end).unwrap();
        let rest = boxes_from(f, off + b.size, end).unwrap();
        assert(bs == seq![b] + rest);
        assert(bs[0] == b);
        assert(bs.drop_first() =~= rest);
        assert forall|i: int| 0 <= i < rest.len() implies #[trigger] rest[i].tag != BOX_MOOF by {
            assert(rest[i] == bs[i + 1]);
        }
        lemma_fragment_fold_plain(f, off + b.size, end);
        lemma_boxes_from_in(f, off + b.size, end);
        let ce = covered_end(rest, off + b.size);
        assert(covered_end(bs, off) == ce) by {
            if rest.len() > 0 {
                assert(bs.last() == rest.last());
            }
        }
        assert(off + b.size <= ce) by {
            if rest.len() > 0 {
                lemma_boxes_from_tiles(f, off + b.size, end);
                assert(off + b.size <= rest.last().offset);
            }
        }
        assert(ce <= f.len()) by {
            if rest.len() > 0 {
                assert(rest.last() == rest[rest.len() - 1]);
                assert(off + b.size <= rest[rest.len() - 1].offset);
            }
        }
        assert(box_bytes(f, b) + f.subrange(off + b.size, ce) =~= f.subrange(off, ce));
    } else {
        assert(bs.len() == 0);
        assert(f.subrange(off, off) =~= Seq::<u8>::empty());
    }
}

/// Law: a fragment without a top-level `moof` is left as it is by
/// sanitizing, apart from fewer than eight trailing bytes that hold no box.
pub proof fn law_sanitize_fragment_without_moof(f: Seq<u8>)
    requires
        spec_iter_boxes(f, 0, f.len() as int) is Some,
        forall|i: int|
            0 <= i < spec_iter_boxes(f, 0, f.len() as int).unwrap().len() ==> #[trigger] spec_iter_boxes(
                f,
                0,
                f.len() as int,
            ).unwrap()[i].tag != BOX_MOOF,
    ensures
        spec_sanitize_fragment(f) == Some(
            f.subrange(0, covered_end(spec_iter_boxes(f, 0, f.len() as int).unwrap(), 0)),
        ),
{
    reveal(spec_iter_boxes);
    lemma_fragment_fold_plain(f, 0, f.len() as int);
}

/// Every range `(a, b)` of `rs` satisfies `0 <= a <= b <= len`.
pub open spec fn ranges_within(rs: Seq<(int, int)>, len: int) -> bool {
    forall|i: int| 0 <= i < rs.len() ==> 0 <= (#[trigger] rs[i]).0 <= rs[i].1 <= len
}

proof fn lemma_ranges_within_concat(a: Seq<(int, int)>, b: Seq<(int, int)>, len: int)
    requires
        ranges_within(a, len),
        ranges_within(b, len),
    ensures
        ranges_within(a + b, len),
{
    assert forall|i: int| 0 <= i < (a + b).len() implies 0 <= (#[trigger] (a + b)[i]).0 <= (a
        + b)[i].1 <= len by {
        if i < a.len() {
            assert((a + b)[i] == a[i]);
        } else {
            assert((a + b)[i] == b[i - a.len()]);
        }
    }
}

proof fn lemma_samples_within(f: Seq<u8>, fl: u32, dss: Option<u32>, count: nat, tc: int, so: int)
    requires
        0 <= so,
        spec_samples(f, fl, dss, count, tc, so) is Some,
    ensures
        ranges_within(spec_samples(f, fl, dss, count, tc, so).unwrap().0, f.len() as int),
        spec_samples(f, fl, dss, count, tc, so).unwrap().1 >= so,
    decreases count,
{
    if count > 0 {
        let tc1 = if fl & 0x100 != 0 {
            tc + 4
        } else {
            tc
        };
        let sz_tc: Option<(int, int)> = if fl & 0x200 != 0 {
            if tc1 + 4 > f.len() {
                None
            } else {
                Some((be_u32(f, tc1) as int, tc1 + 4))
            }
        } else {
            match dss {
                None => None,
                Some(d) => Some((d as int, tc1)),
            }
        };
        let (sz, tc2) = sz_tc.unwrap();
        let tc3 = if fl & 0x400 != 0 {
            tc2 + 4
        } else {
            tc2
        };
        let tc4 = if fl & 0x800 != 0 {
            tc3 + 4
        } else {
            tc3
        };
        let se = so + sz;
        lemma_samples_within(f, fl, dss, (count - 1) as nat, tc4, se);
        let rest = spec_samples(f, fl, dss, (count - 1) as nat, tc4, se).unwrap().0;
        let one = seq![(so, se)];
        assert(ranges_within(one, f.len() as int));
        lemma_ranges_within_concat(one, rest, f.len() as int);
    }
}

proof fn lemma_truns_within(
    f: Seq<u8>,
    trs: Seq<BoxSpec>,
    moof_off: int,
    mdat: BoxSpec,
    dss: Option<u32>,
    cur: Option<int>,
)
    requires
        0 <= mdat.offset,
        0 <= mdat.header_size,
        cur matches Some(c) ==> c >= 0,
        spec_truns(f, trs, moof_off, mdat, dss, cur) is Some,
    ensures
        ranges_within(spec_truns(f, trs, moof_off, mdat, dss, cur).unwrap().0, f.len() as int),
        spec_truns(f, trs, moof_off, mdat, dss, cur).unwrap().1 matches Some(c) ==> c >= 0,
    decreases trs.len(),
{
    if trs.len() > 0 {
        if trs[0].tag != BOX_TRUN {
            lemma_truns_within(f, trs.drop_first(), moof_off, mdat, dss, cur);
        } else {
            reveal(spec_trun);
            let trun = trs[0];
            let fl = be_u32(f, trun.offset + 8) & 0xFF_FFFF;
            let (so, tc1) = spec_trun_start(f, trun, moof_off, mdat, cur).unwrap();
            let tc2 = if fl & 0x04 != 0 {
                tc1 + 4
            } else {
                tc1
            };
            assert(so >= 0);
            lemma_samples_within(f, fl, dss, be_u32(f, trun.offset + 12) as nat, tc2, so);
            let (rs, e) = spec_trun(f, trun, moof_off, mdat, dss, cur).unwrap();
            lemma_truns_within(f, trs.drop_first(), moof_off, mdat, dss, Some(e));
            let rs2 = spec_truns(f, trs.drop_first(), moof_off, mdat, dss, Some(e)).unwrap().0;
            lemma_ranges_within_concat(rs, rs2, f.len() as int);
        }
    }
}

proof fn lemma_trafs_within(f: Seq<u8>, ts: Seq<BoxSpec>, moof_off: int, mdat: BoxSpec, cur: Option<int>)
    requires
        0 <= mdat.offset,
        0 <= mdat.header_size,
        cur matches Some(c) ==> c >= 0,
        spec_trafs(f, ts, moof_off, mdat, cur) is Some,
    ensures
        ranges_within(spec_trafs(f, ts, moof_off, mdat, cur).unwrap(), f.len() as int),
    decreases ts.len(),
{
    if ts.len() > 0 {
        if ts[0].tag != BOX_TRAF {
            lemma_trafs_within(f, ts.drop_first(), moof_off, mdat, cur);
        } else {
            reveal(spec_traf);
            let traf = ts[0];
            let tfhd = spec_find_child(f, traf.offset + traf.header_size, traf.size - 8, BOX_TFHD).unwrap().unwrap();
            let dss = spec_tfhd_default_size(f, tfhd).unwrap();
            let trs = spec_iter_boxes(f, traf.offset + traf.header_size, traf.offset + traf.size).unwrap();
            lemma_truns_within(f, trs, moof_off, mdat, dss, cur);
            let (rs, c) = spec_traf(f, traf, moof_off, mdat, cur).unwrap();
            lemma_trafs_within(f, ts.drop_first(), moof_off, mdat, c);
            let rs2 = spec_trafs(f, ts.drop_first(), moof_off, mdat, c).unwrap();
            lemma_ranges_within_concat(rs, rs2, f.len() as int);
        }
    }
}

/// Law: every sample range reported for a fragment is a nonempty list of
/// well-ordered ranges inside the fragment.
pub proof fn law_sample_ranges_within_fragment(f: Seq<u8>)
    requires
        spec_collect(f) is Some,
    ensures
        spec_collect(f).unwrap().len() > 0,
        ranges_within(spec_collect(f).unwrap(), f.len() as int),
{
    lemma_find_child_in(f, 0, f.len() as int, BOX_MDAT);
    let moof = spec_find_child(f, 0, f.len() as int, BOX_MOOF).unwrap().unwrap();
    let mdat = spec_find_child(f, 0, f.len() as int, BOX_MDAT).unwrap().unwrap();
    let ts = spec_iter_boxes(f, moof.offset + moof.header_size, moof.offset + moof.size).unwrap();
    lemma_trafs_within(f, ts, moof.offset, mdat, None);
}

/// The sampling frequencies of the ADTS header, by their index (ISO/IEC
/// 14496-3, table of sampling frequency indices).
pub open spec fn adts_sampling_frequencies() -> Seq<u32> {
    seq![96_000u32, 88_200, 64_000, 48_000, 44_100, 32_000, 24_000, 22_050, 16_000, 12_000, 11_025, 8_000, 7_350]
}

/// Law: the sampling-frequency index of a sample rate is its position in the
/// ISO table, and a rate outside the table has none; so distinct rates never
/// share an index.
pub proof fn law_sample_rate_index_table(sample_rate: u32, index: u8)
    ensures
        spec_sample_rate_index(sample_rate) == Some(index) <==> (index < 13
            && adts_sampling_frequencies()[index as int] == sample_rate),
        spec_sample_rate_index(sample_rate) is None <==> !adts_sampling_frequencies().contains(sample_rate),
{
    let t = adts_sampling_frequencies();
    assert(t.len() == 13);
    assert(t[0] == 96_000 && t[1] == 88_200 && t[2] == 64_000 && t[3] == 48_000 && t[4] == 44_100);
    assert(t[5] == 32_000 && t[6] == 24_000 && t[7] == 22_050 && t[8] == 16_000 && t[9] == 12_000);
    assert(t[10] == 11_025 && t[11] == 8_000 && t[12] == 7_350);
    if t.contains(sample_rate) {
        let k = choose|k: int| 0 <= k < t.len() && t[k] == sample_rate;
        assert(spec_sample_rate_index(sample_rate) == Some(k as u8));
    }
    if spec_sample_rate_index(sample_rate) is Some {
        let k = spec_sample_rate_index(sample_rate).unwrap();
        assert(t[k as int] == sample_rate);
    }
}

/// Law: the ADTS header of an AAC frame carries the table index of its
/// sample rate in bits 2..6 of its third byte.
pub proof fn law_adts_header_rate_bits(frame_size: usize, sample_rate: u32, channels: u8, profile: u8)
    requires
        spec_adts_header(frame_size, sample_rate, channels, profile) is Some,
    ensures
        ({
            let h = spec_adts_header(frame_size, sample_rate, channels, profile).unwrap();
            let i = (h[2] >> 2u8) & 0x0F;
            i < 13 && adts_sampling_frequencies()[i as int] == sample_rate
        }),
{
    law_adts_header_fields(frame_size, sample_rate, channels, profile);
    let h = spec_adts_header(frame_size, sample_rate, channels, profile).unwrap();
    law_sample_rate_index_table(sample_rate, (h[2] >> 2u8) & 0x0F);
}

} // verus!
