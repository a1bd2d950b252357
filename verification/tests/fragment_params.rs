use infinitystreamer::models::asset::Asset;
use infinitystreamer::models::dimension::Dimension;
use infinitystreamer::models::fragment::FragmentParams;

fn mp4_box(kind: &[u8; 4], payload: &[u8]) -> Vec<u8> {
    let mut out = ((payload.len() + 8) as u32).to_be_bytes().to_vec();
    out.extend_from_slice(kind);
    out.extend_from_slice(payload);
    out
}

fn init(timescale: u32) -> Vec<u8> {
    let mut payload = vec![0u8; 12];
    payload.extend_from_slice(&timescale.to_be_bytes());
    payload.extend_from_slice(&[0; 4]);
    let mdhd = mp4_box(b"mdhd", &payload);
    let mdia = mp4_box(b"mdia", &mdhd);
    let trak = mp4_box(b"trak", &mdia);
    mp4_box(b"moov", &trak)
}

fn fragment(duration: u32) -> Vec<u8> {
    let mut payload = vec![0u8; 22];
    payload.extend_from_slice(&[0, 1]);
    payload.extend_from_slice(&[0, 0, 0, 0]);
    payload.extend_from_slice(&duration.to_be_bytes());
    payload.extend_from_slice(&[0, 0, 0, 0]);
    mp4_box(b"sidx", &payload)
}

#[test]
fn reads_timescale_and_duration() {
    let params = FragmentParams::new(init(15360), fragment(65536), Dimension::new(1280, 720), 256).unwrap();
    assert_eq!(params.timescale, 15360);
    assert_eq!(params.duration, 65536);
    assert_eq!(params.dimension, Dimension::new(1280, 720));
    assert_eq!(params.sample_count, 256);
    assert_eq!(params.init, init(15360));
    assert_eq!(params.fragment, fragment(65536));
}

#[test]
fn reports_missing_boxes() {
    let err = FragmentParams::new(fragment(1), fragment(1), Dimension::new(1, 1), 1).err().unwrap();
    assert_eq!((err.status, err.message.as_str()), (500, "box not found"));
    let err = FragmentParams::new(init(1), init(1), Dimension::new(1, 1), 1).err().unwrap();
    assert_eq!((err.status, err.message.as_str()), (500, "box not found"));
    assert!(FragmentParams::try_new(init(1), vec![0, 0, 0, 0, 0, 0, 0], Dimension::new(1, 1), 1)
        .unwrap()
        .is_err());
}

#[test]
fn bitrate() {
    let params = FragmentParams::new(init(15360), fragment(65536), Dimension::new(1, 1), 1).unwrap();
    let len = params.fragment.len() as u64;
    assert_eq!(params.bitrate(), (len * 8 * 15360 / 65536) as u32);
    let audio = FragmentParams {
        init: vec![],
        fragment: vec![0; 500],
        timescale: 48000,
        duration: 204800,
        dimension: Dimension::new(0, 0),
        sample_count: 200,
    };
    assert_eq!(audio.bitrate(), 937);
}

#[test]
fn asset_holds_both_tracks() {
    let video = FragmentParams::new(init(15360), fragment(65536), Dimension::new(1, 1), 1).unwrap();
    let audio = FragmentParams::new(init(48000), fragment(204800), Dimension::new(0, 0), 200).unwrap();
    let asset = Asset::new(video, audio);
    assert_eq!(asset.video.timescale, 15360);
    assert_eq!(asset.audio.duration, 204800);
}
