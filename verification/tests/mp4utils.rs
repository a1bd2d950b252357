use infinitystreamer::mp4utils::{
    get_box_range, get_fragment_duration, get_timescale, patch_fragment, try_get_fragment_duration,
    try_get_timescale, try_patch_fragment,
};

fn mp4_box(kind: &[u8; 4], payload: &[u8]) -> Vec<u8> {
    let mut out = ((payload.len() + 8) as u32).to_be_bytes().to_vec();
    out.extend_from_slice(kind);
    out.extend_from_slice(payload);
    out
}

fn sidx(version: u8, reference_count: u16, duration: u32) -> Vec<u8> {
    let mut payload = vec![version, 0, 0, 0];
    payload.extend_from_slice(&1u32.to_be_bytes()); // reference id
    payload.extend_from_slice(&15360u32.to_be_bytes()); // timescale
    if version == 1 {
        payload.extend_from_slice(&[0; 16]);
    } else {
        payload.extend_from_slice(&[0; 8]);
    }
    payload.extend_from_slice(&[0, 0]);
    payload.extend_from_slice(&reference_count.to_be_bytes());
    payload.extend_from_slice(&1234u32.to_be_bytes()); // referenced size
    payload.extend_from_slice(&duration.to_be_bytes());
    payload.extend_from_slice(&[0; 4]);
    mp4_box(b"sidx", &payload)
}

fn fragment(tfdt_version: u8) -> Vec<u8> {
    let mfhd = mp4_box(b"mfhd", &[0, 0, 0, 0, 0, 0, 0, 1]);
    let tfhd = mp4_box(b"tfhd", &[0, 0, 0, 0, 0, 0, 0, 1]);
    let mut tfdt_payload = vec![tfdt_version, 0, 0, 0];
    if tfdt_version == 1 {
        tfdt_payload.extend_from_slice(&[0; 8]);
    } else {
        tfdt_payload.extend_from_slice(&[0; 4]);
    }
    let tfdt = mp4_box(b"tfdt", &tfdt_payload);
    let traf = mp4_box(b"traf", &[tfhd, tfdt].concat());
    let moof = mp4_box(b"moof", &[mfhd, traf].concat());
    let mdat = mp4_box(b"mdat", &[7; 10]);
    [sidx(0, 1, 65536), moof, mdat].concat()
}

fn init(mdhd_version: u8, timescale: u32) -> Vec<u8> {
    let mut payload = vec![mdhd_version, 0, 0, 0];
    if mdhd_version == 1 {
        payload.extend_from_slice(&[0; 16]);
        payload.extend_from_slice(&timescale.to_be_bytes());
        payload.extend_from_slice(&[0; 8]);
    } else {
        payload.extend_from_slice(&[0; 8]);
        payload.extend_from_slice(&timescale.to_be_bytes());
        payload.extend_from_slice(&[0; 4]);
    }
    let mdhd = mp4_box(b"mdhd", &payload);
    let hdlr = mp4_box(b"hdlr", &[0; 12]);
    let mdia = mp4_box(b"mdia", &[hdlr, mdhd].concat());
    let tkhd = mp4_box(b"tkhd", &[0; 20]);
    let trak = mp4_box(b"trak", &[tkhd, mdia].concat());
    let mvhd = mp4_box(b"mvhd", &[0; 20]);
    let moov = mp4_box(b"moov", &[mvhd, trak].concat());
    let ftyp = mp4_box(b"ftyp", b"isom");
    [ftyp, moov].concat()
}

#[test]
fn box_range_of_nested_box() {
    let blob = fragment(0);
    // sidx (44 bytes), then moof whose first child is the 16-byte mfhd.
    let range = get_box_range(&blob, "/moof/mfhd", 0).unwrap();
    assert_eq!(range, 52..68);
    let range = get_box_range(&blob, "/moof/traf/tfdt", 0).unwrap();
    assert_eq!(&blob[range.start + 4..range.start + 8], b"tfdt");
    assert_eq!(range.end - range.start, 16);
    let range = get_box_range(&blob, "/sidx", 0).unwrap();
    assert_eq!(range, 0..44);
}

#[test]
fn box_range_from_an_offset() {
    let blob = fragment(0);
    let range = get_box_range(&blob, "/mdat", 44).unwrap();
    assert_eq!(&blob[range.start + 4..range.start + 8], b"mdat");
    assert_eq!(range.end, blob.len());
}

#[test]
fn box_not_found() {
    let blob = fragment(0);
    let err = get_box_range(&blob, "/moov", 0).unwrap_err();
    assert_eq!(err.status, 500);
    assert_eq!(err.to_string(), "box not found");
    // A path shorter than one element finds nothing.
    let err = get_box_range(&blob, "/moo", 0).unwrap_err();
    assert_eq!(err.message, "box not found");
}

#[test]
fn malformed_large_box() {
    // A box whose 32-bit size is 1 needs a 64-bit size, which is missing.
    let blob = vec![0, 0, 0, 1, b'm', b'o', b'o', b'f', 0, 0];
    let err = get_box_range(&blob, "/moof", 0).unwrap_err();
    assert_eq!(err.status, 500);
    assert_eq!(err.message, "malformed box");
}

#[test]
fn large_box_size() {
    let mut blob = vec![0, 0, 0, 1, b'm', b'o', b'o', b'f'];
    blob.extend_from_slice(&24u64.to_be_bytes());
    blob.extend_from_slice(&[0; 8]);
    let range = get_box_range(&blob, "/moof", 0).unwrap();
    assert_eq!(range, 0..24);
}

#[test]
fn patch_version_0() {
    let mut blob = fragment(0);
    let pristine = blob.clone();
    let patched = patch_fragment(&mut blob, 5, 1000).unwrap().to_vec();
    assert_eq!(&patched[64..68], &5u32.to_be_bytes());
    let tfdt = get_box_range(&pristine, "/moof/traf/tfdt", 0).unwrap();
    assert_eq!(&patched[tfdt.start + 12..tfdt.start + 16], &5000u32.to_be_bytes());
    assert_eq!(patched, blob);
    // Nothing else changed.
    let mut expected = pristine.clone();
    expected[64..68].copy_from_slice(&5u32.to_be_bytes());
    expected[tfdt.start + 12..tfdt.start + 16].copy_from_slice(&5000u32.to_be_bytes());
    assert_eq!(blob, expected);
}

#[test]
fn patch_version_1() {
    let mut blob = fragment(1);
    let tfdt = get_box_range(&blob, "/moof/traf/tfdt", 0).unwrap();
    patch_fragment(&mut blob, -3, 1 << 40).unwrap();
    assert_eq!(&blob[64..68], &(-3i64 as u32).to_be_bytes());
    assert_eq!(&blob[tfdt.start + 12..tfdt.start + 20], &(-3i64 << 40).to_be_bytes());
}

#[test]
fn patch_truncates_decode_time_in_version_0() {
    let mut blob = fragment(0);
    let tfdt = get_box_range(&blob, "/moof/traf/tfdt", 0).unwrap();
    patch_fragment(&mut blob, 1 << 20, 1 << 20).unwrap();
    // 2^40 does not fit 32 bits: its low 32 bits are written.
    assert_eq!(&blob[tfdt.start + 12..tfdt.start + 16], &[0, 0, 0, 0]);
    assert_eq!(&blob[64..68], &(1u32 << 20).to_be_bytes());
}

#[test]
fn patch_invalid_tfdt_version() {
    let mut blob = fragment(2);
    let err = patch_fragment(&mut blob, 7, 10).unwrap_err();
    assert_eq!(err.status, 500);
    assert_eq!(err.message, "Invalid tfdt version");
    // The sequence number was written before the version was read.
    assert_eq!(&blob[64..68], &7u32.to_be_bytes());
}

#[test]
fn patch_without_moof() {
    let mut blob = init(0, 90000);
    let err = patch_fragment(&mut blob, 7, 10).unwrap_err();
    assert_eq!(err.message, "box not found");
}

#[test]
fn try_patch_refuses_overflow() {
    let mut blob = fragment(0);
    assert!(try_patch_fragment(&mut blob, i64::MAX, 2).is_none());
    let mut blob = fragment(0);
    assert!(try_patch_fragment(&mut blob, 3, 4).unwrap().is_ok());
}

#[test]
fn timescale_version_0_and_1() {
    assert_eq!(get_timescale(&init(0, 15360)).unwrap(), 15360);
    assert_eq!(get_timescale(&init(1, 48000)).unwrap(), 48000);
    assert_eq!(try_get_timescale(&init(0, 90000)).unwrap().unwrap(), 90000);
}

#[test]
fn timescale_without_mdhd() {
    let err = get_timescale(&fragment(0)).unwrap_err();
    assert_eq!(err.status, 500);
    assert_eq!(err.message, "box not found");
}

#[test]
fn fragment_duration_from_sidx() {
    assert_eq!(get_fragment_duration(&fragment(0)).unwrap(), 65536);
    assert_eq!(get_fragment_duration(&sidx(1, 2, 204800)).unwrap(), 204800);
    assert_eq!(try_get_fragment_duration(&sidx(0, 1, 99)).unwrap().unwrap(), 99);
}

#[test]
fn fragment_duration_without_segments() {
    let err = get_fragment_duration(&sidx(0, 0, 10)).unwrap_err();
    assert_eq!(err.status, 500);
    assert_eq!(err.message, "No segments in SIDX box");
}

#[test]
fn fragment_duration_of_short_sidx() {
    // The sidx box ends before its reference count.
    let blob = mp4_box(b"sidx", &[0; 10]);
    assert!(try_get_fragment_duration(&blob).is_none());
}

#[test]
fn repatching_matches_patching_the_unpatched_fragment() {
    let mut twice = fragment(0);
    patch_fragment(&mut twice, 5, 1000).unwrap();
    patch_fragment(&mut twice, 9, 1000).unwrap();
    let mut once = fragment(0);
    patch_fragment(&mut once, 9, 1000).unwrap();
    assert_eq!(twice, once);
    let mut again = once.clone();
    patch_fragment(&mut again, 9, 1000).unwrap();
    assert_eq!(again, once);
}

#[test]
fn patching_keeps_the_box_layout() {
    let pristine = fragment(1);
    let mut blob = pristine.clone();
    patch_fragment(&mut blob, 12345, 678).unwrap();
    for path in ["/sidx", "/moof", "/moof/mfhd", "/moof/traf", "/moof/traf/tfdt", "/mdat"] {
        assert_eq!(get_box_range(&blob, path, 0).unwrap(), get_box_range(&pristine, path, 0).unwrap());
    }
}

#[test]
fn last_patch_wins_across_durations() {
    for version in [0u8, 1] {
        let mut twice = fragment(version);
        patch_fragment(&mut twice, 5, 1000).unwrap();
        patch_fragment(&mut twice, 9, 2048).unwrap();
        let mut once = fragment(version);
        patch_fragment(&mut once, 9, 2048).unwrap();
        assert_eq!(twice, once);
    }
}
