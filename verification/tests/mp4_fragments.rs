use wrapper_rust::mp4::{
    collect_sample_slices, find_child_box, iter_boxes, make_adts_header_with_profile,
    patch_trun_data_offset, sanitize_fragment, sanitize_init_segment, sanitize_stsd_box,
    Mp4Error,
};

fn bx(tag: &[u8; 4], payload: &[u8]) -> Vec<u8> {
    let mut out = ((payload.len() + 8) as u32).to_be_bytes().to_vec();
    out.extend_from_slice(tag);
    out.extend_from_slice(payload);
    out
}

fn cat(parts: &[&[u8]]) -> Vec<u8> {
    parts.iter().flat_map(|p| p.iter().copied()).collect()
}

fn message(e: Mp4Error) -> String {
    match e {
        Mp4Error::Invalid(m) => m,
    }
}

fn simple_fragment(mdat_len: usize) -> Vec<u8> {
    let tfhd = bx(b"tfhd", &[0, 0, 0, 0x10, 0, 0, 0, 1, 0, 0, 0, 5]);
    let trun = bx(b"trun", &[0, 0, 0, 0, 0, 0, 0, 2]);
    let traf = bx(b"traf", &cat(&[&tfhd, &trun]));
    let moof = bx(b"moof", &traf);
    let mdat = bx(b"mdat", &vec![0u8; mdat_len]);
    cat(&[&moof, &mdat])
}

#[test]
fn boxes_with_zero_size_extend_to_the_end() {
    let mut data = bx(b"ftyp", &[]);
    data.extend_from_slice(&0u32.to_be_bytes());
    data.extend_from_slice(b"mdat");
    data.extend_from_slice(&[1, 2, 3]);
    let boxes = iter_boxes(&data, 0, data.len()).unwrap();
    assert_eq!(boxes.len(), 2);
    assert_eq!((boxes[1].offset, boxes[1].size), (8, 11));
    let found = find_child_box(&data, 0, data.len(), "mdat").unwrap().unwrap();
    assert_eq!(found.offset, 8);
    assert!(find_child_box(&data, 0, data.len(), "moov").unwrap().is_none());
}

#[test]
fn box_running_past_its_parent_is_refused() {
    let mut data = 16u32.to_be_bytes().to_vec();
    data.extend_from_slice(b"free");
    let e = iter_boxes(&data, 0, data.len()).unwrap_err();
    assert_eq!(message(e), "box free at 0 exceeds parent end: box_end=16, end=8");
    let e = iter_boxes(&data, 4, 2).unwrap_err();
    assert_eq!(message(e), "box iterator start 4 is greater than end 2");
}

#[test]
fn sample_slices_follow_the_mdat_header() {
    let fragment = simple_fragment(10);
    assert_eq!(fragment.len(), 70);
    let ranges = collect_sample_slices(&fragment).unwrap();
    assert_eq!(ranges, vec![60..65, 65..70]);
}

#[test]
fn sample_slices_must_fit_the_fragment() {
    let e = collect_sample_slices(&simple_fragment(8)).unwrap_err();
    assert_eq!(message(e), "sample range exceeded fragment size");
}

#[test]
fn fragment_without_moof_has_no_samples() {
    let e = collect_sample_slices(&bx(b"mdat", &[1, 2])).unwrap_err();
    assert_eq!(message(e), "fragment is missing moof");
}

#[test]
fn fragment_without_runs_exposes_nothing() {
    let tfhd = bx(b"tfhd", &[0, 0, 0, 0, 0, 0, 0, 1]);
    let moof = bx(b"moof", &bx(b"traf", &tfhd));
    let fragment = cat(&[&moof, &bx(b"mdat", &[0])]);
    let e = collect_sample_slices(&fragment).unwrap_err();
    assert_eq!(message(e), "fragment did not expose any decryptable samples");
}

#[test]
fn sanitized_fragment_drops_encryption_boxes_and_moves_offsets() {
    let tfhd = bx(b"tfhd", &[0, 0, 0, 2, 0, 0, 0, 1, 0, 0, 0, 7]);
    let senc = bx(b"senc", &[1, 2, 3, 4]);
    let trun = bx(b"trun", &[0, 0, 0, 1, 0, 0, 0, 1, 0, 0, 0, 100]);
    let traf = bx(b"traf", &cat(&[&tfhd, &senc, &trun]));
    let pssh = bx(b"pssh", &[9, 9, 9, 9]);
    let moof = bx(b"moof", &cat(&[&pssh, &traf]));
    let mdat = bx(b"mdat", &[1, 2]);
    let fragment = cat(&[&moof, &mdat]);

    let tfhd_out = bx(b"tfhd", &[0, 0, 0, 2, 0, 0, 0, 1, 0, 0, 0, 1]);
    let trun_out = bx(b"trun", &[0, 0, 0, 1, 0, 0, 0, 1, 0, 0, 0, 76]);
    let moof_out = bx(b"moof", &bx(b"traf", &cat(&[&tfhd_out, &trun_out])));
    assert_eq!(sanitize_fragment(&fragment).unwrap(), cat(&[&moof_out, &mdat]));
}

#[test]
fn fragment_without_moof_is_unchanged() {
    let data = cat(&[&bx(b"styp", &[1]), &bx(b"mdat", &[2, 3])]);
    assert_eq!(sanitize_fragment(&data).unwrap(), data);
}

#[test]
fn trun_offset_patch_is_checked() {
    let trun = bx(b"trun", &[0, 0, 0, 1, 0, 0, 0, 1, 0x80, 0, 0, 0]);
    let e = patch_trun_data_offset(&trun, 1).unwrap_err();
    assert_eq!(message(e), "patched trun data offset out of i32 range: -2147483649");
    assert_eq!(patch_trun_data_offset(&trun, 0).unwrap(), trun);
}

#[test]
fn init_segment_loses_protection_and_sample_groups() {
    let prefix: Vec<u8> = (0u8..28).collect();
    let frma = bx(b"frma", b"mp4a");
    let sinf = bx(b"sinf", &cat(&[&frma, &bx(b"schm", &[0; 4])]));
    let esds = bx(b"esds", &[1, 2, 3]);
    let enca = bx(b"enca", &cat(&[&prefix, &sinf, &esds]));
    let stsd = bx(b"stsd", &cat(&[&[0, 0, 0, 0, 0, 0, 0, 1], &enca]));
    let sgpd = bx(b"sgpd", &[0; 4]);
    let stbl = bx(b"stbl", &cat(&[&stsd, &sgpd]));
    let mdhd = bx(b"mdhd", &[0; 4]);
    let mdia = bx(b"mdia", &cat(&[&mdhd, &bx(b"minf", &stbl)]));
    let mvhd = bx(b"mvhd", &[0; 4]);
    let moov = bx(b"moov", &cat(&[&mvhd, &bx(b"trak", &mdia)]));
    let ftyp = bx(b"ftyp", b"M4A ");
    let init = cat(&[&ftyp, &moov]);

    let mp4a = bx(b"mp4a", &cat(&[&prefix, &esds]));
    let stsd_out = bx(b"stsd", &cat(&[&[0, 0, 0, 0, 0, 0, 0, 1], &mp4a]));
    assert_eq!(sanitize_stsd_box(&stsd).unwrap(), stsd_out);
    let mdia_out = bx(b"mdia", &cat(&[&mdhd, &bx(b"minf", &bx(b"stbl", &stsd_out))]));
    let moov_out = bx(b"moov", &cat(&[&mvhd, &bx(b"trak", &mdia_out)]));
    assert_eq!(sanitize_init_segment(&init).unwrap(), cat(&[&ftyp, &moov_out]));
}

#[test]
fn adts_header_rejects_what_it_cannot_encode() {
    let e = make_adts_header_with_profile(10, 44_100, 2, 0).unwrap_err();
    assert_eq!(message(e), "AAC profile must be greater than zero");
    let e = make_adts_header_with_profile(10, 44_100, 8, 2).unwrap_err();
    assert_eq!(message(e), "AAC channel count out of ADTS range: 8");
    let e = make_adts_header_with_profile(10, 44_000, 2, 2).unwrap_err();
    assert_eq!(message(e), "unsupported AAC sample rate: 44000");
    let e = make_adts_header_with_profile(0x1FFF, 44_100, 2, 2).unwrap_err();
    assert_eq!(message(e), "AAC frame too large for ADTS header: 8198");
    let h = make_adts_header_with_profile(1024, 44_100, 2, 2).unwrap();
    assert_eq!(h, [0xFF, 0xF1, 0x50, 0x80, 0x80, 0xFF, 0xFC]);
}

#[test]
fn sanitizing_a_sanitized_fragment_changes_nothing() {
    let tfhd = bx(b"tfhd", &[0, 0, 0, 2, 0, 0, 0, 1, 0, 0, 0, 7]);
    let senc = bx(b"senc", &[1, 2, 3, 4]);
    let saiz = bx(b"saiz", &[0, 0, 0, 0, 5]);
    let trun = bx(b"trun", &[0, 0, 0, 1, 0, 0, 0, 1, 0, 0, 0, 100]);
    let traf = bx(b"traf", &cat(&[&tfhd, &senc, &trun, &saiz]));
    let pssh = bx(b"pssh", &[9, 9, 9, 9]);
    let mfhd = bx(b"mfhd", &[0, 0, 0, 0, 0, 0, 0, 1]);
    let moof = bx(b"moof", &cat(&[&mfhd, &pssh, &traf]));
    let mdat = bx(b"mdat", &[1, 2, 3]);
    let fragment = cat(&[&bx(b"styp", &[1, 2, 3, 4]), &moof, &mdat]);
    let once = sanitize_fragment(&fragment).unwrap();
    assert!(once.len() < fragment.len());
    assert_eq!(sanitize_fragment(&once).unwrap(), once);
}
