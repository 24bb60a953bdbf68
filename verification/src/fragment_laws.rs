//! What sanitizing does to a fragment twice: a fragment already in sanitized
//! form is left as it is, and sanitizing gives that form.
use vstd::prelude::*;

use crate::bytes::{be_u32, lemma_be_u32_roundtrip, u32_be_bytes};
use crate::mp4::{
    box_at, box_bytes, boxes_from, boxes_in, covered_end, fragment_fold, is_encryption_tag,
    lemma_iter_boxes_in, law_iter_boxes_tile, moof_pass1, moof_pass2, spec_iter_boxes,
    spec_patch_tfhd, spec_patch_traf, spec_patch_trun, spec_rebuild, spec_sanitize_fragment,
    spec_sanitize_moof, spec_strip_traf, strip_fold, tiles, traf_fold, BoxSpec, BOX_MOOF, BOX_PSSH,
    BOX_TFHD, BOX_TRAF, BOX_TRUN,
};

verus! {

/// The byte strings of `bl`, one after another.
pub open spec fn concat_bytes(bl: Seq<Seq<u8>>) -> Seq<u8>
    decreases bl.len(),
{
    if bl.len() == 0 {
        Seq::empty()
    } else {
        bl[0] + concat_bytes(bl.drop_first())
    }
}

/// A byte string that is one box with an 8-byte header: its 32-bit size is
/// its length, or 0 (the box runs to the end of its parent).
pub open spec fn plain_box(b: Seq<u8>) -> bool {
    &&& b.len() >= 8
    &&& (be_u32(b, 0) == 0 || be_u32(b, 0) as int == b.len())
}

/// Boxes laid end to end, each plain, only the last one running to the end.
pub open spec fn plain_run(bl: Seq<Seq<u8>>) -> bool {
    &&& forall|i: int| 0 <= i < bl.len() ==> plain_box(#[trigger] bl[i])
    &&& forall|i: int| 0 <= i < bl.len() - 1 ==> be_u32(#[trigger] bl[i], 0) != 0
}

proof fn lemma_be_u32_at(d: Seq<u8>, off: int, b: Seq<u8>, k: int)
    requires
        0 <= off,
        0 <= k,
        k + 4 <= b.len(),
        off + b.len() <= d.len(),
        d.subrange(off, off + b.len()) == b,
    ensures
        be_u32(d, off + k) == be_u32(b, k),
{
    assert(d[off + k] == b[k]);
    assert(d[off + k + 1] == b[k + 1]);
    assert(d[off + k + 2] == b[k + 2]);
    assert(d[off + k + 3] == b[k + 3]);
}

/// Plain boxes laid end to end in `d[off..end]` parse back as themselves.
pub proof fn lemma_plain_run_parses(d: Seq<u8>, off: int, end: int, bl: Seq<Seq<u8>>)
    requires
        0 <= off <= end,
        end <= d.len(),
        d.subrange(off, end) == concat_bytes(bl),
        plain_run(bl),
    ensures
        boxes_from(d, off, end) is Some,
        boxes_from(d, off, end).unwrap().len() == bl.len(),
        covered_end(boxes_from(d, off, end).unwrap(), off) == end,
        forall|i: int|
            0 <= i < bl.len() ==> {
                let b = #[trigger] boxes_from(d, off, end).unwrap()[i];
                &&& box_bytes(d, b) == bl[i]
                &&& b.tag == be_u32(bl[i], 4)
                &&& b.header_size == 8
                &&& off <= b.offset
                &&& b.offset + b.size <= end
            },
    decreases bl.len(),
{
    assert(d.subrange(off, end).len() == end - off);
    if bl.len() == 0 {
        assert(end - off == 0);
    } else {
        let b0 = bl[0];
        let rest = bl.drop_first();
        assert(concat_bytes(bl) == b0 + concat_bytes(rest));
        let n = b0.len() as int;
        assert(concat_bytes(bl).len() == n + concat_bytes(rest).len());
        assert(off + n <= end);
        assert(d.subrange(off, off + n) =~= b0) by {
            assert forall|k: int| 0 <= k < n implies d.subrange(off, off + n)[k] == b0[k] by {
                assert(d.subrange(off, end)[k] == concat_bytes(bl)[k]);
            }
        }
        assert(d.subrange(off + n, end) =~= concat_bytes(rest)) by {
            assert forall|k: int| 0 <= k < end - off - n implies d.subrange(off + n, end)[k]
                == concat_bytes(rest)[k] by {
                assert(d.subrange(off, end)[n + k] == concat_bytes(bl)[n + k]);
            }
        }
        assert(plain_box(b0));
        lemma_be_u32_at(d, off, b0, 0);
        lemma_be_u32_at(d, off, b0, 4);
        assert forall|i: int| 0 <= i < rest.len() implies plain_box(#[trigger] rest[i]) by {
            assert(rest[i] == bl[i + 1]);
        }
        assert forall|i: int| 0 <= i < rest.len() - 1 implies be_u32(#[trigger] rest[i], 0) != 0 by {
            assert(rest[i] == bl[i + 1]);
        }
        if be_u32(b0, 0) == 0 {
            assert(bl.len() == 1);
            assert(concat_bytes(rest) == Seq::<u8>::empty());
            assert(end - off == n);
        }
        let bx = BoxSpec { offset: off, size: n, tag: be_u32(b0, 4), header_size: 8 };
        assert(be_u32(d, off) != 1);
        assert(box_at(d, off, end) == Some(bx));
        lemma_plain_run_parses(d, off + n, end, rest);
        let tail = boxes_from(d, off + n, end).unwrap();
        assert(boxes_from(d, off, end) == Some(seq![bx] + tail));
        let all = seq![bx] + tail;
        if tail.len() == 0 {
            assert(rest.len() == 0);
            assert(concat_bytes(rest) == Seq::<u8>::empty());
            assert(all.last() == bx);
        } else {
            assert(all.last() == tail.last());
        }
        assert forall|i: int| 0 <= i < bl.len() implies {
            let b = #[trigger] all[i];
            &&& box_bytes(d, b) == bl[i]
            &&& b.tag == be_u32(bl[i], 4)
            &&& b.header_size == 8
            &&& off <= b.offset
            &&& b.offset + b.size <= end
        } by {
            if i == 0 {
                assert(all[0] == bx);
            } else {
                assert(all[i] == tail[i - 1]);
                assert(bl[i] == rest[i - 1]);
            }
        }
    }
}

/// Boxes laid end to end from `off`, each inside the first `len` bytes.
pub open spec fn laid(cs: Seq<BoxSpec>, off: int, len: int) -> bool {
    &&& 0 <= off
    &&& (cs.len() > 0 ==> cs[0].offset == off)
    &&& forall|i: int| 0 <= i < cs.len() - 1 ==> #[trigger] cs[i + 1].offset == cs[i].offset + cs[i].size
    &&& forall|i: int|
        0 <= i < cs.len() ==> 0 <= (#[trigger] cs[i]).size && cs[i].offset + cs[i].size <= len
}

/// What `spec_iter_boxes` reports is laid end to end from `start`.
proof fn lemma_iter_laid(d: Seq<u8>, start: int, end: int)
    requires
        0 <= start,
        spec_iter_boxes(d, start, end) is Some,
    ensures
        laid(spec_iter_boxes(d, start, end).unwrap(), start, d.len() as int),
        covered_end(spec_iter_boxes(d, start, end).unwrap(), start) <= end,
{
    lemma_iter_boxes_in(d, start, end);
    law_iter_boxes_tile(d, start, end);
    reveal(spec_iter_boxes);
    let cs = spec_iter_boxes(d, start, end).unwrap();
    assert(end <= d.len());
    assert forall|i: int| 0 <= i < cs.len() - 1 implies #[trigger] cs[i + 1].offset == cs[i].offset
        + cs[i].size by {
        assert(tiles(cs, start, end));
    }
    assert forall|i: int| 0 <= i < cs.len() implies 0 <= (#[trigger] cs[i]).size && cs[i].offset
        + cs[i].size <= d.len() by {
        assert(boxes_in(cs, start, end, d.len() as int));
        assert(start <= cs[i].offset);
    }
    if cs.len() > 0 {
        assert(cs.last() == cs[cs.len() - 1]);
        assert(start <= cs[cs.len() - 1].offset);
        assert(cs[0].offset == start);
    }
}

/// One step along laid boxes: the bytes they cover are the first box's bytes
/// followed by what the others cover.
proof fn lemma_laid_step(d: Seq<u8>, cs: Seq<BoxSpec>, off: int)
    requires
        cs.len() > 0,
        laid(cs, off, d.len() as int),
    ensures
        laid(cs.drop_first(), off + cs[0].size, d.len() as int),
        covered_end(cs, off) == covered_end(cs.drop_first(), off + cs[0].size),
        off + cs[0].size <= covered_end(cs, off) <= d.len(),
        d.subrange(off, covered_end(cs, off)) == box_bytes(d, cs[0]) + d.subrange(
            off + cs[0].size,
            covered_end(cs, off),
        ),
{
    let rest = cs.drop_first();
    assert forall|i: int| 0 <= i < rest.len() - 1 implies #[trigger] rest[i + 1].offset == rest[i].offset
        + rest[i].size by {
        assert(rest[i + 1] == cs[i + 2]);
        assert(rest[i] == cs[i + 1]);
    }
    assert forall|i: int| 0 <= i < rest.len() implies 0 <= (#[trigger] rest[i]).size && rest[i].offset
        + rest[i].size <= d.len() by {
        assert(rest[i] == cs[i + 1]);
    }
    if rest.len() > 0 {
        assert(rest[0] == cs[1]);
        assert(cs[1].offset == cs[0].offset + cs[0].size);
        assert(rest.last() == cs.last());
        assert forall|k: int| 0 <= k < rest.len() implies off + cs[0].size <= (#[trigger] rest[k]).offset by {
            lemma_laid_offsets(rest, off + cs[0].size, d.len() as int, k);
        }
        assert(cs.last() == rest[rest.len() - 1]);
    }
    let ce = covered_end(cs, off);
    assert(d.subrange(off, ce) =~= box_bytes(d, cs[0]) + d.subrange(off + cs[0].size, ce));
}

proof fn lemma_laid_offsets(cs: Seq<BoxSpec>, off: int, len: int, k: int)
    requires
        laid(cs, off, len),
        0 <= k < cs.len(),
    ensures
        off <= cs[k].offset,
    decreases k,
{
    if k > 0 {
        lemma_laid_offsets(cs, off, len, k - 1);
        let j = k - 1;
        assert(cs[j + 1].offset == cs[j].offset + cs[j].size);
    }
}

/// A `tfhd` box that resetting its sample description index leaves as it is.
pub open spec fn tfhd_settled(c: Seq<u8>) -> bool {
    spec_patch_tfhd(c) == Some(c)
}

/// A `traf` box in the form sanitizing gives: a 32-bit header over its
/// children, which fill it exactly, none of them an encryption box, and each
/// `tfhd` among them settled.
pub open spec fn clean_traf(b: Seq<u8>) -> bool {
    &&& b.len() >= 8
    &&& spec_rebuild(BOX_TRAF, b.subrange(8, b.len() as int)) == Some(b)
    &&& spec_iter_boxes(b, 8, b.len() as int) is Some
    &&& ({
        let cs = spec_iter_boxes(b, 8, b.len() as int).unwrap();
        &&& covered_end(cs, 8) == b.len()
        &&& forall|i: int|
            0 <= i < cs.len() ==> !is_encryption_tag((#[trigger] cs[i]).tag) && (cs[i].tag == BOX_TFHD
                ==> tfhd_settled(box_bytes(b, cs[i])))
    })
}

/// A `moof` box in the form sanitizing gives: a 32-bit header over its
/// children, which fill it exactly, none of them a `pssh`, and each `traf`
/// among them clean.
pub open spec fn clean_moof(m: Seq<u8>) -> bool {
    &&& m.len() >= 8
    &&& spec_rebuild(BOX_MOOF, m.subrange(8, m.len() as int)) == Some(m)
    &&& spec_iter_boxes(m, 8, m.len() as int) is Some
    &&& ({
        let cs = spec_iter_boxes(m, 8, m.len() as int).unwrap();
        &&& covered_end(cs, 8) == m.len()
        &&& forall|i: int|
            0 <= i < cs.len() ==> (#[trigger] cs[i]).tag != BOX_PSSH && (cs[i].tag == BOX_TRAF
                ==> clean_traf(box_bytes(m, cs[i])))
    })
}

/// A fragment in the form sanitizing gives: its top-level boxes fill it
/// exactly and each `moof` among them is clean.
pub open spec fn clean_fragment(f: Seq<u8>) -> bool {
    &&& spec_iter_boxes(f, 0, f.len() as int) is Some
    &&& ({
        let bs = spec_iter_boxes(f, 0, f.len() as int).unwrap();
        &&& covered_end(bs, 0) == f.len()
        &&& forall|i: int| 0 <= i < bs.len() ==> ((#[trigger] bs[i]).tag == BOX_MOOF ==> clean_moof(box_bytes(f, bs[i])))
    })
}

proof fn lemma_strip_fold_keeps_all(t: Seq<u8>, cs: Seq<BoxSpec>, off: int)
    requires
        off <= t.len(),
        laid(cs, off, t.len() as int),
        forall|i: int| 0 <= i < cs.len() ==> !is_encryption_tag((#[trigger] cs[i]).tag),
    ensures
        strip_fold(t, cs) == (t.subrange(off, covered_end(cs, off)), 0int),
    decreases cs.len(),
{
    if cs.len() == 0 {
        assert(t.subrange(off, off) =~= Seq::<u8>::empty());
    } else {
        lemma_laid_step(t, cs, off);
        let rest = cs.drop_first();
        assert forall|i: int| 0 <= i < rest.len() implies !is_encryption_tag((#[trigger] rest[i]).tag) by {
            assert(rest[i] == cs[i + 1]);
        }
        assert(!is_encryption_tag(cs[0].tag));
        lemma_strip_fold_keeps_all(t, rest, off + cs[0].size);
    }
}

proof fn lemma_traf_fold_settled(t: Seq<u8>, cs: Seq<BoxSpec>, off: int)
    requires
        off <= t.len(),
        laid(cs, off, t.len() as int),
        forall|i: int|
            0 <= i < cs.len() ==> ((#[trigger] cs[i]).tag == BOX_TFHD ==> tfhd_settled(box_bytes(t, cs[i]))),
    ensures
        traf_fold(t, cs, 0) == Some(t.subrange(off, covered_end(cs, off))),
    decreases cs.len(),
{
    if cs.len() == 0 {
        assert(t.subrange(off, off) =~= Seq::<u8>::empty());
    } else {
        lemma_laid_step(t, cs, off);
        let rest = cs.drop_first();
        assert forall|i: int| 0 <= i < rest.len() implies ((#[trigger] rest[i]).tag == BOX_TFHD
            ==> tfhd_settled(box_bytes(t, rest[i]))) by {
            assert(rest[i] == cs[i + 1]);
        }
        assert(cs[0].tag == BOX_TFHD ==> tfhd_settled(box_bytes(t, cs[0])));
        lemma_traf_fold_settled(t, rest, off + cs[0].size);
    }
}

/// A clean `traf` is left as it is by stripping and by patching with no shift.
pub proof fn lemma_clean_traf_fixed(b: Seq<u8>)
    requires
        clean_traf(b),
    ensures
        spec_strip_traf(b) == Some((b, 0int)),
        spec_patch_traf(b, 0) == Some(b),
{
    let cs = spec_iter_boxes(b, 8, b.len() as int).unwrap();
    lemma_iter_laid(b, 8, b.len() as int);
    lemma_strip_fold_keeps_all(b, cs, 8);
    lemma_traf_fold_settled(b, cs, 8);
}

/// The children of `m` as (type, bytes) pairs.
pub open spec fn child_items(m: Seq<u8>, cs: Seq<BoxSpec>) -> Seq<(u32, Seq<u8>)> {
    cs.map_values(|c: BoxSpec| (c.tag, box_bytes(m, c)))
}

proof fn lemma_pass1_keeps_all(m: Seq<u8>, cs: Seq<BoxSpec>, off: int)
    requires
        off <= m.len(),
        laid(cs, off, m.len() as int),
        forall|i: int|
            0 <= i < cs.len() ==> (#[trigger] cs[i]).tag != BOX_PSSH && (cs[i].tag == BOX_TRAF
                ==> clean_traf(box_bytes(m, cs[i]))),
    ensures
        moof_pass1(m, cs) == Some((child_items(m, cs), 0int)),
    decreases cs.len(),
{
    if cs.len() > 0 {
        lemma_laid_step(m, cs, off);
        let rest = cs.drop_first();
        assert forall|i: int| 0 <= i < rest.len() implies (#[trigger] rest[i]).tag != BOX_PSSH && (
        rest[i].tag == BOX_TRAF ==> clean_traf(box_bytes(m, rest[i]))) by {
            assert(rest[i] == cs[i + 1]);
        }
        lemma_pass1_keeps_all(m, rest, off + cs[0].size);
        assert(cs[0].tag != BOX_PSSH);
        if cs[0].tag == BOX_TRAF {
            lemma_clean_traf_fixed(box_bytes(m, cs[0]));
        }
        assert(child_items(m, cs) =~= seq![(cs[0].tag, box_bytes(m, cs[0]))] + child_items(m, rest));
    } else {
        assert(child_items(m, cs) =~= Seq::<(u32, Seq<u8>)>::empty());
    }
}

proof fn lemma_pass2_keeps_all(m: Seq<u8>, cs: Seq<BoxSpec>, off: int)
    requires
        off <= m.len(),
        laid(cs, off, m.len() as int),
        forall|i: int|
            0 <= i < cs.len() ==> ((#[trigger] cs[i]).tag == BOX_TRAF ==> clean_traf(box_bytes(m, cs[i]))),
    ensures
        moof_pass2(child_items(m, cs), 0) == Some(m.subrange(off, covered_end(cs, off))),
    decreases cs.len(),
{
    if cs.len() == 0 {
        assert(child_items(m, cs) =~= Seq::<(u32, Seq<u8>)>::empty());
        assert(m.subrange(off, off) =~= Seq::<u8>::empty());
    } else {
        lemma_laid_step(m, cs, off);
        let rest = cs.drop_first();
        assert forall|i: int| 0 <= i < rest.len() implies ((#[trigger] rest[i]).tag == BOX_TRAF
            ==> clean_traf(box_bytes(m, rest[i]))) by {
            assert(rest[i] == cs[i + 1]);
        }
        lemma_pass2_keeps_all(m, rest, off + cs[0].size);
        if cs[0].tag == BOX_TRAF {
            lemma_clean_traf_fixed(box_bytes(m, cs[0]));
        }
        let items = child_items(m, cs);
        assert(items.drop_first() =~= child_items(m, rest));
        assert(items[0] == (cs[0].tag, box_bytes(m, cs[0])));
    }
}

/// A clean `moof` is left as it is by sanitizing.
pub proof fn lemma_clean_moof_fixed(m: Seq<u8>)
    requires
        clean_moof(m),
    ensures
        spec_sanitize_moof(m) == Some(m),
{
    let cs = spec_iter_boxes(m, 8, m.len() as int).unwrap();
    lemma_iter_laid(m, 8, m.len() as int);
    lemma_pass1_keeps_all(m, cs, 8);
    lemma_pass2_keeps_all(m, cs, 8);
}

proof fn lemma_fragment_fold_clean(f: Seq<u8>, bs: Seq<BoxSpec>, off: int)
    requires
        off <= f.len(),
        laid(bs, off, f.len() as int),
        forall|i: int| 0 <= i < bs.len() ==> ((#[trigger] bs[i]).tag == BOX_MOOF ==> clean_moof(box_bytes(f, bs[i]))),
    ensures
        fragment_fold(f, bs) == Some(f.subrange(off, covered_end(bs, off))),
    decreases bs.len(),
{
    if bs.len() == 0 {
        assert(f.subrange(off, off) =~= Seq::<u8>::empty());
    } else {
        lemma_laid_step(f, bs, off);
        let rest = bs.drop_first();
        assert forall|i: int| 0 <= i < rest.len() implies ((#[trigger] rest[i]).tag == BOX_MOOF
            ==> clean_moof(box_bytes(f, rest[i]))) by {
            assert(rest[i] == bs[i + 1]);
        }
        lemma_fragment_fold_clean(f, rest, off + bs[0].size);
        if bs[0].tag == BOX_MOOF {
            lemma_clean_moof_fixed(box_bytes(f, bs[0]));
        }
    }
}

/// Law: sanitizing leaves a fragment that is already in sanitized form as it
/// is: its top-level boxes fill it, and each `moof` has a 32-bit header, no
/// `pssh`, and `traf` boxes with 32-bit headers, no encryption boxes and a
/// sample description index already reset.
pub proof fn law_sanitized_fragment_fixed(f: Seq<u8>)
    requires
        clean_fragment(f),
    ensures
        spec_sanitize_fragment(f) == Some(f),
{
    let bs = spec_iter_boxes(f, 0, f.len() as int).unwrap();
    lemma_iter_laid(f, 0, f.len() as int);
    lemma_fragment_fold_clean(f, bs, 0);
    assert(f.subrange(0, f.len() as int) =~= f);
}

/// The boxes of `d` from `start` to its end all have 8-byte headers and are
/// at least as long as their header.
pub open spec fn plain_parse(d: Seq<u8>, start: int) -> bool {
    &&& spec_iter_boxes(d, start, d.len() as int) is Some
    &&& forall|i: int|
        0 <= i < spec_iter_boxes(d, start, d.len() as int).unwrap().len() ==> {
            let c = #[trigger] spec_iter_boxes(d, start, d.len() as int).unwrap()[i];
            c.header_size == 8 && c.size >= 8
        }
}

proof fn lemma_boxes_from_at(d: Seq<u8>, off: int, end: int)
    requires
        boxes_from(d, off, end) is Some,
    ensures
        forall|i: int|
            0 <= i < boxes_from(d, off, end).unwrap().len() ==> box_at(
                d,
                (#[trigger] boxes_from(d, off, end).unwrap()[i]).offset,
                end,
            ) == Some(boxes_from(d, off, end).unwrap()[i]),
    decreases end - off,
{
    if end - off >= 8 {
        let b = box_at(d, off, end).unwrap();
        lemma_boxes_from_at(d, off + b.size, end);
        let rest = boxes_from(d, off + b.size, end).unwrap();
        let bs = seq![b] + rest;
        assert forall|i: int| 0 <= i < bs.len() implies box_at(d, (#[trigger] bs[i]).offset, end) == Some(
            bs[i],
        ) by {
            if i > 0 {
                assert(bs[i] == rest[i - 1]);
            }
        }
    }
}

/// The bytes of a box parsed with an 8-byte header form a plain box.
proof fn lemma_child_blob(d: Seq<u8>, end: int, b: BoxSpec)
    requires
        box_at(d, b.offset, end) == Some(b),
        b.header_size == 8,
        b.size >= 8,
        0 <= b.offset,
        b.offset + b.size <= end,
        end <= d.len(),
    ensures
        plain_box(box_bytes(d, b)),
        be_u32(box_bytes(d, b), 4) == b.tag,
        be_u32(box_bytes(d, b), 0) == 0 ==> b.offset + b.size == end,
{
    let blob = box_bytes(d, b);
    lemma_be_u32_at(d, b.offset, blob, 0);
    lemma_be_u32_at(d, b.offset, blob, 4);
}

/// A rebuilt box is plain, with a nonzero size field.
proof fn lemma_rebuilt_plain(tag: u32, p: Seq<u8>)
    requires
        spec_rebuild(tag, p) is Some,
    ensures
        plain_box(spec_rebuild(tag, p).unwrap()),
        be_u32(spec_rebuild(tag, p).unwrap(), 0) != 0,
        be_u32(spec_rebuild(tag, p).unwrap(), 4) == tag,
        spec_rebuild(tag, p).unwrap().subrange(8, spec_rebuild(tag, p).unwrap().len() as int) == p,
{
    let b = spec_rebuild(tag, p).unwrap();
    let n = (p.len() + 8) as u32;
    lemma_be_u32_roundtrip(n);
    lemma_be_u32_roundtrip(tag);
    assert(b.subrange(0, 4) =~= u32_be_bytes(n));
    assert(b.subrange(4, 8) =~= u32_be_bytes(tag));
    assert(be_u32(b, 4) == be_u32(b.subrange(4, 8), 0)) by {
        assert(b.subrange(4, 8)[0] == b[4]);
        assert(b.subrange(4, 8)[1] == b[5]);
        assert(b.subrange(4, 8)[2] == b[6]);
        assert(b.subrange(4, 8)[3] == b[7]);
    }
    assert(be_u32(b, 0) == be_u32(b.subrange(0, 4), 0)) by {
        assert(b.subrange(0, 4)[0] == b[0]);
        assert(b.subrange(0, 4)[1] == b[1]);
        assert(b.subrange(0, 4)[2] == b[2]);
        assert(b.subrange(0, 4)[3] == b[3]);
    }
    assert(b.subrange(8, b.len() as int) =~= p);
}

/// The bytes of the boxes of `cs` whose type `keep` accepts, in order.
pub open spec fn kept_blobs(d: Seq<u8>, cs: Seq<BoxSpec>, keep: spec_fn(u32) -> bool) -> Seq<Seq<u8>>
    decreases cs.len(),
{
    if cs.len() == 0 {
        Seq::empty()
    } else if keep(cs[0].tag) {
        seq![box_bytes(d, cs[0])] + kept_blobs(d, cs.drop_first(), keep)
    } else {
        kept_blobs(d, cs.drop_first(), keep)
    }
}

/// The parsed boxes of `d[off..end]` are plain boxes, and only the last
/// may run to the end.
pub open spec fn plain_children(d: Seq<u8>, cs: Seq<BoxSpec>) -> bool {
    &&& forall|i: int| 0 <= i < cs.len() ==> plain_box(box_bytes(d, #[trigger] cs[i]))
    &&& forall|i: int| 0 <= i < cs.len() ==> be_u32(box_bytes(d, #[trigger] cs[i]), 4) == cs[i].tag
    &&& forall|i: int| 0 <= i < cs.len() - 1 ==> be_u32(box_bytes(d, #[trigger] cs[i]), 0) != 0
}

proof fn lemma_plain_children(d: Seq<u8>, start: int)
    requires
        0 <= start <= d.len(),
        plain_parse(d, start),
    ensures
        plain_children(d, spec_iter_boxes(d, start, d.len() as int).unwrap()),
{
    reveal(spec_iter_boxes);
    let cs = spec_iter_boxes(d, start, d.len() as int).unwrap();
    let end = d.len() as int;
    lemma_boxes_from_at(d, start, end);
    lemma_iter_boxes_in(d, start, end);
    law_iter_boxes_tile(d, start, end);
    assert forall|i: int| 0 <= i < cs.len() implies plain_box(box_bytes(d, #[trigger] cs[i])) && be_u32(
        box_bytes(d, cs[i]),
        4,
    ) == cs[i].tag && (i < cs.len() - 1 ==> be_u32(box_bytes(d, cs[i]), 0) != 0) by {
        assert(boxes_in(cs, start, end, end));
        lemma_child_blob(d, end, cs[i]);
        if i < cs.len() - 1 {
            assert(cs[i + 1].offset == cs[i].offset + cs[i].size);
            assert(cs[i + 1].offset + 8 <= end);
        }
    }
}

proof fn lemma_kept_run(d: Seq<u8>, cs: Seq<BoxSpec>, keep: spec_fn(u32) -> bool)
    requires
        plain_children(d, cs),
    ensures
        plain_run(kept_blobs(d, cs, keep)),
        forall|i: int|
            0 <= i < kept_blobs(d, cs, keep).len() ==> keep(be_u32(#[trigger] kept_blobs(d, cs, keep)[i], 4)),
        kept_blobs(d, cs, keep).len() > 0 ==> cs.len() > 0,
    decreases cs.len(),
{
    if cs.len() > 0 {
        let rest = cs.drop_first();
        assert(plain_children(d, rest)) by {
            assert forall|i: int| 0 <= i < rest.len() implies plain_box(box_bytes(d, #[trigger] rest[i]))
                && be_u32(box_bytes(d, rest[i]), 4) == rest[i].tag by {
                assert(rest[i] == cs[i + 1]);
            }
            assert forall|i: int| 0 <= i < rest.len() - 1 implies be_u32(box_bytes(d, #[trigger] rest[i]), 0)
                != 0 by {
                assert(rest[i] == cs[i + 1]);
            }
        }
        lemma_kept_run(d, rest, keep);
        let k = kept_blobs(d, rest, keep);
        if keep(cs[0].tag) {
            let b0 = box_bytes(d, cs[0]);
            let all = seq![b0] + k;
            assert(plain_box(b0));
            assert forall|i: int| 0 <= i < all.len() implies plain_box(#[trigger] all[i]) && keep(
                be_u32(all[i], 4),
            ) by {
                if i > 0 {
                    assert(all[i] == k[i - 1]);
                }
            }
            assert forall|i: int| 0 <= i < all.len() - 1 implies be_u32(#[trigger] all[i], 0) != 0 by {
                if i > 0 {
                    assert(all[i] == k[i - 1]);
                } else {
                    assert(rest.len() > 0);
                }
            }
        }
    }
}

/// The types of `traf` children that stripping keeps.
pub open spec fn traf_keep() -> spec_fn(u32) -> bool {
    |tag: u32| !is_encryption_tag(tag)
}

proof fn lemma_strip_fold_kept(t: Seq<u8>, cs: Seq<BoxSpec>)
    ensures
        strip_fold(t, cs).0 == concat_bytes(kept_blobs(t, cs, traf_keep())),
    decreases cs.len(),
{
    if cs.len() > 0 {
        lemma_strip_fold_kept(t, cs.drop_first());
        let k = kept_blobs(t, cs.drop_first(), traf_keep());
        if !is_encryption_tag(cs[0].tag) {
            let all = seq![box_bytes(t, cs[0])] + k;
            assert(all.drop_first() =~= k);
            assert(all[0] == box_bytes(t, cs[0]));
        }
    }
}

/// What the offset patching makes of one child of a `traf`.
pub open spec fn traf_child(b: Seq<u8>, delta: int) -> Option<Seq<u8>> {
    if be_u32(b, 4) == BOX_TRUN {
        spec_patch_trun(b, delta)
    } else if be_u32(b, 4) == BOX_TFHD {
        spec_patch_tfhd(b)
    } else {
        Some(b)
    }
}

/// The patched children.
pub open spec fn traf_outs(bl: Seq<Seq<u8>>, delta: int) -> Seq<Seq<u8>> {
    Seq::new(bl.len(), |i: int| traf_child(bl[i], delta).unwrap())
}

proof fn lemma_traf_fold_outs(d: Seq<u8>, cs: Seq<BoxSpec>, bl: Seq<Seq<u8>>, delta: int)
    requires
        cs.len() == bl.len(),
        forall|i: int|
            0 <= i < cs.len() ==> box_bytes(d, #[trigger] cs[i]) == bl[i] && cs[i].tag == be_u32(bl[i], 4),
        traf_fold(d, cs, delta) is Some,
    ensures
        forall|i: int| 0 <= i < bl.len() ==> traf_child(#[trigger] bl[i], delta) is Some,
        traf_fold(d, cs, delta) == Some(concat_bytes(traf_outs(bl, delta))),
    decreases cs.len(),
{
    if cs.len() > 0 {
        let rest = cs.drop_first();
        let br = bl.drop_first();
        assert forall|i: int| 0 <= i < rest.len() implies box_bytes(d, #[trigger] rest[i]) == br[i]
            && rest[i].tag == be_u32(br[i], 4) by {
            assert(rest[i] == cs[i + 1]);
            assert(br[i] == bl[i + 1]);
        }
        assert(box_bytes(d, cs[0]) == bl[0]);
        lemma_traf_fold_outs(d, rest, br, delta);
        assert forall|i: int| 0 <= i < bl.len() implies traf_child(#[trigger] bl[i], delta) is Some by {
            if i > 0 {
                assert(bl[i] == br[i - 1]);
            }
        }
        let outs = traf_outs(bl, delta);
        assert(outs.drop_first() =~= traf_outs(br, delta));
    } else {
        assert(traf_outs(bl, delta) =~= Seq::<Seq<u8>>::empty());
    }
}

/// A patched child keeps its size field and type, and stays a plain box; a
/// patched `tfhd` is settled.
proof fn lemma_traf_child_shape(b: Seq<u8>, delta: int)
    requires
        plain_box(b),
        traf_child(b, delta) is Some,
    ensures
        plain_box(traf_child(b, delta).unwrap()),
        be_u32(traf_child(b, delta).unwrap(), 0) == be_u32(b, 0),
        be_u32(traf_child(b, delta).unwrap(), 4) == be_u32(b, 4),
        be_u32(b, 4) == BOX_TFHD ==> tfhd_settled(traf_child(b, delta).unwrap()),
{
    let o = traf_child(b, delta).unwrap();
    if o != b {
        assert(o.len() == b.len());
        assert forall|k: int| 0 <= k < 16 implies o[k] == b[k] by {}
        assert(be_u32(o, 0) == be_u32(b, 0));
        assert(be_u32(o, 4) == be_u32(b, 4));
        assert(be_u32(o, 8) == be_u32(b, 8));
    }
    if be_u32(b, 4) == BOX_TFHD {
        let flags = be_u32(b, 8) & 0xFF_FFFF;
        if flags & 2 != 0 {
            let c: int = if flags & 1 != 0 {
                24
            } else {
                16
            };
            assert(o == b.subrange(0, c) + u32_be_bytes(1) + b.subrange(c + 4, b.len() as int));
            assert(be_u32(o, 8) == be_u32(b, 8)) by {
                assert(o[8] == b[8]);
                assert(o[9] == b[9]);
                assert(o[10] == b[10]);
                assert(o[11] == b[11]);
            }
            assert(o.subrange(0, c) + u32_be_bytes(1) + o.subrange(c + 4, o.len() as int) =~= o);
        }
    }
}

proof fn lemma_traf_outs_run(bl: Seq<Seq<u8>>, delta: int)
    requires
        plain_run(bl),
        forall|i: int| 0 <= i < bl.len() ==> traf_child(#[trigger] bl[i], delta) is Some,
    ensures
        plain_run(traf_outs(bl, delta)),
        forall|i: int|
            0 <= i < bl.len() ==> be_u32(#[trigger] traf_outs(bl, delta)[i], 4) == be_u32(bl[i], 4),
        forall|i: int|
            0 <= i < bl.len() ==> (be_u32(bl[i], 4) == BOX_TFHD ==> tfhd_settled(
                #[trigger] traf_outs(bl, delta)[i],
            )),
{
    let outs = traf_outs(bl, delta);
    assert forall|i: int| 0 <= i < bl.len() implies plain_box(#[trigger] outs[i]) && be_u32(outs[i], 4)
        == be_u32(bl[i], 4) && be_u32(outs[i], 0) == be_u32(bl[i], 0) && (be_u32(bl[i], 4) == BOX_TFHD
        ==> tfhd_settled(outs[i])) by {
        assert(plain_box(bl[i]));
        lemma_traf_child_shape(bl[i], delta);
    }
    assert forall|i: int| 0 <= i < outs.len() - 1 implies be_u32(#[trigger] outs[i], 0) != 0 by {
        assert(be_u32(bl[i], 0) != 0);
    }
}

/// The `traf` that stripping and patching make of a `traf` whose children
/// are plain is clean.
pub proof fn lemma_patched_traf_clean(cb: Seq<u8>, delta: int)
    requires
        8 <= cb.len(),
        plain_parse(cb, 8),
        spec_strip_traf(cb) is Some,
        spec_patch_traf(spec_strip_traf(cb).unwrap().0, delta) is Some,
    ensures
        clean_traf(spec_patch_traf(spec_strip_traf(cb).unwrap().0, delta).unwrap()),
{
    reveal(spec_iter_boxes);
    let cs = spec_iter_boxes(cb, 8, cb.len() as int).unwrap();
    lemma_plain_children(cb, 8);
    let kept = kept_blobs(cb, cs, traf_keep());
    lemma_kept_run(cb, cs, traf_keep());
    lemma_strip_fold_kept(cb, cs);
    let k = strip_fold(cb, cs).0;
    let st = spec_strip_traf(cb).unwrap().0;
    assert(spec_rebuild(BOX_TRAF, k) == Some(st));
    lemma_rebuilt_plain(BOX_TRAF, k);
    lemma_plain_run_parses(st, 8, st.len() as int, kept);
    let cs_st = boxes_from(st, 8, st.len() as int).unwrap();
    assert(spec_iter_boxes(st, 8, st.len() as int) == Some(cs_st));
    let p = traf_fold(st, cs_st, delta).unwrap();
    let pt = spec_patch_traf(st, delta).unwrap();
    assert(spec_rebuild(BOX_TRAF, p) == Some(pt));
    lemma_traf_fold_outs(st, cs_st, kept, delta);
    let outs = traf_outs(kept, delta);
    lemma_traf_outs_run(kept, delta);
    lemma_rebuilt_plain(BOX_TRAF, p);
    lemma_plain_run_parses(pt, 8, pt.len() as int, outs);
    let cs_pt = boxes_from(pt, 8, pt.len() as int).unwrap();
    assert(spec_iter_boxes(pt, 8, pt.len() as int) == Some(cs_pt));
    assert forall|i: int| 0 <= i < cs_pt.len() implies !is_encryption_tag((#[trigger] cs_pt[i]).tag) && (
    cs_pt[i].tag == BOX_TFHD ==> tfhd_settled(box_bytes(pt, cs_pt[i]))) by {
        assert(box_bytes(pt, cs_pt[i]) == outs[i]);
        assert(traf_keep()(be_u32(kept[i], 4)));
    }
}

/// What sanitizing a `moof` makes of its child `c`, shifting offsets by
/// `removed`.
pub open spec fn moof_child_out(m: Seq<u8>, c: BoxSpec, removed: int) -> Seq<u8> {
    if c.tag == BOX_TRAF {
        spec_patch_traf(spec_strip_traf(box_bytes(m, c)).unwrap().0, removed).unwrap()
    } else {
        box_bytes(m, c)
    }
}

/// The children of a sanitized `moof`: those of `cs` that are not `pssh`,
/// each as sanitizing makes it.
pub open spec fn moof_outs(m: Seq<u8>, cs: Seq<BoxSpec>, removed: int) -> Seq<Seq<u8>>
    decreases cs.len(),
{
    if cs.len() == 0 {
        Seq::empty()
    } else if cs[0].tag == BOX_PSSH {
        moof_outs(m, cs.drop_first(), removed)
    } else {
        seq![moof_child_out(m, cs[0], removed)] + moof_outs(m, cs.drop_first(), removed)
    }
}

/// The `traf` children of `cs` strip and patch without failing.
pub open spec fn trafs_patch(m: Seq<u8>, cs: Seq<BoxSpec>, removed: int) -> bool {
    forall|i: int|
        0 <= i < cs.len() ==> ((#[trigger] cs[i]).tag == BOX_TRAF ==> {
            &&& spec_strip_traf(box_bytes(m, cs[i])) is Some
            &&& spec_patch_traf(spec_strip_traf(box_bytes(m, cs[i])).unwrap().0, removed) is Some
        })
}

proof fn lemma_moof_passes(m: Seq<u8>, cs: Seq<BoxSpec>, removed: int)
    requires
        moof_pass1(m, cs) is Some,
        moof_pass2(moof_pass1(m, cs).unwrap().0, removed) is Some,
    ensures
        trafs_patch(m, cs, removed),
        moof_pass2(moof_pass1(m, cs).unwrap().0, removed) == Some(concat_bytes(moof_outs(m, cs, removed))),
    decreases cs.len(),
{
    if cs.len() > 0 {
        let rest = cs.drop_first();
        let c = cs[0];
        let items_rest = moof_pass1(m, rest).unwrap().0;
        let items = moof_pass1(m, cs).unwrap().0;
        if c.tag == BOX_PSSH {
            assert(items == items_rest);
        } else {
            assert(items.drop_first() =~= items_rest);
        }
        lemma_moof_passes(m, rest, removed);
        assert forall|i: int| 0 <= i < cs.len() implies ((#[trigger] cs[i]).tag == BOX_TRAF ==> {
            &&& spec_strip_traf(box_bytes(m, cs[i])) is Some
            &&& spec_patch_traf(spec_strip_traf(box_bytes(m, cs[i])).unwrap().0, removed) is Some
        }) by {
            if i > 0 {
                assert(cs[i] == rest[i - 1]);
            }
        }
        if c.tag != BOX_PSSH {
            let o = seq![moof_child_out(m, c, removed)] + moof_outs(m, rest, removed);
            assert(o.drop_first() =~= moof_outs(m, rest, removed));
            assert(o[0] == moof_child_out(m, c, removed));
        }
    }
}

/// The children of a sanitized `moof` are plain boxes, none a `pssh`, its
/// `traf` children clean.
proof fn lemma_moof_outs_shape(m: Seq<u8>, cs: Seq<BoxSpec>, removed: int)
    requires
        plain_children(m, cs),
        trafs_patch(m, cs, removed),
        forall|i: int|
            0 <= i < cs.len() ==> ((#[trigger] cs[i]).tag == BOX_TRAF ==> plain_parse(box_bytes(m, cs[i]), 8)),
    ensures
        plain_run(moof_outs(m, cs, removed)),
        forall|i: int|
            0 <= i < moof_outs(m, cs, removed).len() ==> be_u32(#[trigger] moof_outs(m, cs, removed)[i], 4)
                != BOX_PSSH && (be_u32(moof_outs(m, cs, removed)[i], 4) == BOX_TRAF ==> clean_traf(
                moof_outs(m, cs, removed)[i],
            )),
        moof_outs(m, cs, removed).len() > 0 ==> cs.len() > 0,
    decreases cs.len(),
{
    if cs.len() > 0 {
        let rest = cs.drop_first();
        assert(plain_children(m, rest)) by {
            assert forall|i: int| 0 <= i < rest.len() implies plain_box(box_bytes(m, #[trigger] rest[i]))
                && be_u32(box_bytes(m, rest[i]), 4) == rest[i].tag by {
                assert(rest[i] == cs[i + 1]);
            }
            assert forall|i: int| 0 <= i < rest.len() - 1 implies be_u32(box_bytes(m, #[trigger] rest[i]), 0)
                != 0 by {
                assert(rest[i] == cs[i + 1]);
            }
        }
        assert(trafs_patch(m, rest, removed)) by {
            assert forall|i: int| 0 <= i < rest.len() implies ((#[trigger] rest[i]).tag == BOX_TRAF ==> {
                &&& spec_strip_traf(box_bytes(m, rest[i])) is Some
                &&& spec_patch_traf(spec_strip_traf(box_bytes(m, rest[i])).unwrap().0, removed) is Some
            }) by {
                assert(rest[i] == cs[i + 1]);
            }
        }
        assert forall|i: int| 0 <= i < rest.len() implies ((#[trigger] rest[i]).tag == BOX_TRAF
            ==> plain_parse(box_bytes(m, rest[i]), 8)) by {
            assert(rest[i] == cs[i + 1]);
        }
        lemma_moof_outs_shape(m, rest, removed);
        let c = cs[0];
        if c.tag != BOX_PSSH {
            let o0 = moof_child_out(m, c, removed);
            let tail = moof_outs(m, rest, removed);
            let all = seq![o0] + tail;
            assert(plain_box(box_bytes(m, c)));
            if c.tag == BOX_TRAF {
                let cb = box_bytes(m, c);
                lemma_patched_traf_clean(cb, removed);
                let st = spec_strip_traf(cb).unwrap().0;
                let cs_st = spec_iter_boxes(st, 8, st.len() as int).unwrap();
                let p = traf_fold(st, cs_st, removed).unwrap();
                assert(spec_rebuild(BOX_TRAF, p) == Some(o0));
                lemma_rebuilt_plain(BOX_TRAF, p);
            }
            assert forall|i: int| 0 <= i < all.len() implies plain_box(#[trigger] all[i]) && be_u32(all[i], 4)
                != BOX_PSSH && (be_u32(all[i], 4) == BOX_TRAF ==> clean_traf(all[i])) by {
                if i > 0 {
                    assert(all[i] == tail[i - 1]);
                } else {
                    assert(all[0] == o0);
                }
            }
            assert forall|i: int| 0 <= i < all.len() - 1 implies be_u32(#[trigger] all[i], 0) != 0 by {
                if i > 0 {
                    assert(all[i] == tail[i - 1]);
                } else {
                    assert(all[0] == o0);
                    assert(rest.len() > 0);
                }
            }
        }
    }
}

/// Every `traf` child of a `moof` has plain children.
pub open spec fn plain_moof(mb: Seq<u8>) -> bool {
    &&& plain_parse(mb, 8)
    &&& forall|i: int|
        0 <= i < spec_iter_boxes(mb, 8, mb.len() as int).unwrap().len() ==> ((#[trigger] spec_iter_boxes(
            mb,
            8,
            mb.len() as int,
        ).unwrap()[i]).tag == BOX_TRAF ==> plain_parse(
            box_bytes(mb, spec_iter_boxes(mb, 8, mb.len() as int).unwrap()[i]),
            8,
        ))
}

/// What sanitizing makes of a `moof` whose boxes are plain is clean.
pub proof fn lemma_sanitized_moof_clean(mb: Seq<u8>)
    requires
        8 <= mb.len(),
        plain_moof(mb),
        spec_sanitize_moof(mb) is Some,
    ensures
        clean_moof(spec_sanitize_moof(mb).unwrap()),
{
    reveal(spec_iter_boxes);
    let cs = spec_iter_boxes(mb, 8, mb.len() as int).unwrap();
    lemma_plain_children(mb, 8);
    let (items, total) = moof_pass1(mb, cs).unwrap();
    lemma_moof_passes(mb, cs, total);
    let outs = moof_outs(mb, cs, total);
    lemma_moof_outs_shape(mb, cs, total);
    let p = moof_pass2(items, total).unwrap();
    let mo = spec_sanitize_moof(mb).unwrap();
    assert(spec_rebuild(BOX_MOOF, p) == Some(mo));
    lemma_rebuilt_plain(BOX_MOOF, p);
    lemma_plain_run_parses(mo, 8, mo.len() as int, outs);
    let cs_mo = boxes_from(mo, 8, mo.len() as int).unwrap();
    assert(spec_iter_boxes(mo, 8, mo.len() as int) == Some(cs_mo));
    assert forall|i: int| 0 <= i < cs_mo.len() implies (#[trigger] cs_mo[i]).tag != BOX_PSSH && (cs_mo[i].tag
        == BOX_TRAF ==> clean_traf(box_bytes(mo, cs_mo[i]))) by {
        assert(box_bytes(mo, cs_mo[i]) == outs[i]);
    }
}

/// What sanitizing a fragment makes of its top-level box `b`.
pub open spec fn fragment_child_out(f: Seq<u8>, b: BoxSpec) -> Seq<u8> {
    if b.tag == BOX_MOOF {
        spec_sanitize_moof(box_bytes(f, b)).unwrap()
    } else {
        box_bytes(f, b)
    }
}

/// The top-level boxes of a sanitized fragment.
pub open spec fn fragment_outs(f: Seq<u8>, bs: Seq<BoxSpec>) -> Seq<Seq<u8>> {
    Seq::new(bs.len(), |i: int| fragment_child_out(f, bs[i]))
}

proof fn lemma_fragment_fold_outs(f: Seq<u8>, bs: Seq<BoxSpec>)
    requires
        fragment_fold(f, bs) is Some,
    ensures
        forall|i: int|
            0 <= i < bs.len() ==> ((#[trigger] bs[i]).tag == BOX_MOOF ==> spec_sanitize_moof(box_bytes(f, bs[i]))
                is Some),
        fragment_fold(f, bs) == Some(concat_bytes(fragment_outs(f, bs))),
    decreases bs.len(),
{
    if bs.len() > 0 {
        let rest = bs.drop_first();
        lemma_fragment_fold_outs(f, rest);
        assert forall|i: int| 0 <= i < bs.len() implies ((#[trigger] bs[i]).tag == BOX_MOOF
            ==> spec_sanitize_moof(box_bytes(f, bs[i])) is Some) by {
            if i > 0 {
                assert(bs[i] == rest[i - 1]);
            }
        }
        let o = fragment_outs(f, bs);
        assert(o.drop_first() =~= fragment_outs(f, rest));
    } else {
        assert(fragment_outs(f, bs) =~= Seq::<Seq<u8>>::empty());
    }
}

/// The top-level boxes of a fragment have 8-byte headers and are at least
/// eight bytes long, and so are the children of each `moof` and of each
/// `traf` in it.
pub open spec fn plain_fragment(f: Seq<u8>) -> bool {
    &&& plain_parse(f, 0)
    &&& forall|i: int|
        0 <= i < spec_iter_boxes(f, 0, f.len() as int).unwrap().len() ==> ((#[trigger] spec_iter_boxes(
            f,
            0,
            f.len() as int,
        ).unwrap()[i]).tag == BOX_MOOF ==> plain_moof(
            box_bytes(f, spec_iter_boxes(f, 0, f.len() as int).unwrap()[i]),
        ))
}

/// What sanitizing makes of a fragment whose boxes are plain is clean.
pub proof fn lemma_sanitized_fragment_clean(f: Seq<u8>)
    requires
        plain_fragment(f),
        spec_sanitize_fragment(f) is Some,
    ensures
        clean_fragment(spec_sanitize_fragment(f).unwrap()),
{
    reveal(spec_iter_boxes);
    let bs = spec_iter_boxes(f, 0, f.len() as int).unwrap();
    lemma_plain_children(f, 0);
    lemma_fragment_fold_outs(f, bs);
    let outs = fragment_outs(f, bs);
    let y = spec_sanitize_fragment(f).unwrap();
    assert(y == concat_bytes(outs));
    assert forall|i: int| 0 <= i < outs.len() implies plain_box(#[trigger] outs[i]) && be_u32(outs[i], 0)
        == be_u32(box_bytes(f, bs[i]), 0) || (bs[i].tag == BOX_MOOF && plain_box(outs[i]) && be_u32(outs[i], 0)
        != 0) by {
        assert(plain_box(box_bytes(f, bs[i])));
        if bs[i].tag == BOX_MOOF {
            let mb = box_bytes(f, bs[i]);
            let cs = spec_iter_boxes(mb, 8, mb.len() as int).unwrap();
            let (items, total) = moof_pass1(mb, cs).unwrap();
            let p = moof_pass2(items, total).unwrap();
            assert(spec_rebuild(BOX_MOOF, p) == Some(outs[i]));
            lemma_rebuilt_plain(BOX_MOOF, p);
        }
    }
    assert(plain_run(outs)) by {
        assert forall|i: int| 0 <= i < outs.len() - 1 implies be_u32(#[trigger] outs[i], 0) != 0 by {
            assert(be_u32(box_bytes(f, bs[i]), 0) != 0);
        }
    }
    assert(y.subrange(0, y.len() as int) =~= y);
    lemma_plain_run_parses(y, 0, y.len() as int, outs);
    let cs_y = boxes_from(y, 0, y.len() as int).unwrap();
    assert(spec_iter_boxes(y, 0, y.len() as int) == Some(cs_y));
    assert forall|i: int| 0 <= i < cs_y.len() implies ((#[trigger] cs_y[i]).tag == BOX_MOOF ==> clean_moof(
        box_bytes(y, cs_y[i]),
    )) by {
        assert(box_bytes(y, cs_y[i]) == outs[i]);
        let mb = box_bytes(f, bs[i]);
        if bs[i].tag == BOX_MOOF {
            let cs = spec_iter_boxes(mb, 8, mb.len() as int).unwrap();
            let (items, total) = moof_pass1(mb, cs).unwrap();
            let p = moof_pass2(items, total).unwrap();
            assert(spec_rebuild(BOX_MOOF, p) == Some(outs[i]));
            lemma_rebuilt_plain(BOX_MOOF, p);
            assert(plain_moof(mb));
            lemma_sanitized_moof_clean(mb);
        } else {
            assert(be_u32(box_bytes(f, bs[i]), 4) == bs[i].tag);
        }
    }
}

/// Law: sanitizing a sanitized fragment changes nothing, when every box of
/// the fragment, of its `moof` boxes and of their `traf` boxes has an 8-byte
/// header and is at least eight bytes long.
pub proof fn law_sanitize_fragment_idempotent(f: Seq<u8>)
    requires
        plain_fragment(f),
        spec_sanitize_fragment(f) is Some,
    ensures
        spec_sanitize_fragment(spec_sanitize_fragment(f).unwrap()) == spec_sanitize_fragment(f),
{
    lemma_sanitized_fragment_clean(f);
    law_sanitized_fragment_fixed(spec_sanitize_fragment(f).unwrap());
}

} // verus!
