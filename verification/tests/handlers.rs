use infinitystreamer::handlers::master::get_master;
use infinitystreamer::handlers::media::{
    get_media_fragment, get_media_init, get_media_playlist, get_media_track, get_vtt_fragment,
    get_vtt_track, select_track, Track,
};
use infinitystreamer::models::asset::Asset;
use infinitystreamer::models::dimension::Dimension;
use infinitystreamer::models::fragment::FragmentParams;
use infinitystreamer::models::query::Query;
use infinitystreamer::resources::Templates;

fn mp4_box(kind: &[u8; 4], payload: &[u8]) -> Vec<u8> {
    let mut out = ((payload.len() + 8) as u32).to_be_bytes().to_vec();
    out.extend_from_slice(kind);
    out.extend_from_slice(payload);
    out
}

fn fragment_blob() -> Vec<u8> {
    let mut sidx = vec![0u8; 22];
    sidx.extend_from_slice(&[0, 1]);
    sidx.extend_from_slice(&[0; 12]);
    let mfhd = mp4_box(b"mfhd", &[0; 8]);
    let tfdt = mp4_box(b"tfdt", &[0; 8]);
    let traf = mp4_box(b"traf", &tfdt);
    let moof = mp4_box(b"moof", &[mfhd, traf].concat());
    [mp4_box(b"sidx", &sidx), moof].concat()
}

fn params(init: u8, len: usize, timescale: u32, duration: u32) -> FragmentParams {
    let mut fragment = fragment_blob();
    fragment.resize(len.max(fragment.len()), 0);
    FragmentParams {
        init: vec![init; 4],
        fragment,
        timescale,
        duration,
        dimension: Dimension::new(1920, 1080),
        sample_count: 256,
    }
}

fn asset() -> Asset {
    Asset::new(params(1, 1000, 15360, 65536), params(2, 500, 48000, 204800))
}

fn templates() -> Templates {
    Templates {
        master: "{}|{}|{}|{}|{}|{}".to_string(),
        live: "LIVE {} {}{}\n".to_string(),
        vod: "VOD {} {} {} {}\n".to_string(),
        vtt: "WEBVTT {}\n".to_string(),
    }
}

#[test]
fn tracks_by_name() {
    assert_eq!(select_track("video"), Some(Track::Video));
    assert_eq!(select_track("audio"), Some(Track::Audio));
    assert_eq!(select_track("Video"), None);
    assert_eq!(select_track(""), None);
}

#[test]
fn init_segments() {
    let asset = asset();
    assert_eq!(get_media_init(&asset, "video").unwrap(), &[1, 1, 1, 1]);
    assert_eq!(get_media_init(&asset, "audio").unwrap(), &[2, 2, 2, 2]);
    let err = get_media_init(&asset, "subtitles").unwrap_err();
    assert_eq!((err.status, err.message.as_str()), (404, "Track not found"));
}

#[test]
fn media_fragments() {
    let asset = asset();
    let blob = get_media_fragment(&asset, "audio", 3).unwrap().unwrap();
    let mfhd = 52;
    assert_eq!(&blob[mfhd + 12..mfhd + 16], &3u32.to_be_bytes());
    assert_eq!(&blob[mfhd + 16 + 8 + 12..mfhd + 16 + 8 + 16], &(3u32 * 204800).to_be_bytes());
    // The asset itself is left as it was.
    assert_eq!(&asset.audio.fragment[mfhd + 12..mfhd + 16], &[0, 0, 0, 0]);
    let err = get_media_fragment(&asset, "other", 3).unwrap().unwrap_err();
    assert_eq!((err.status, err.message.as_str()), (404, "Fragment not found"));
    assert!(get_media_fragment(&asset, "video", i64::MAX).is_none());
}

#[test]
fn media_playlists() {
    let asset = asset();
    let q = Query {
        start: Some("1970-01-01T00:00:10Z".to_string()),
        end: Some("1970-01-01T00:00:20Z".to_string()),
    };
    let text = get_media_track(&asset, "video", &q, &templates(), "4.2", "4.3").unwrap().unwrap();
    assert!(text.starts_with("VOD 2 VOD 1970-01-01T00:02:11.072+00:00 false\n#EXTINF:4.2,"));
    assert!(text.ends_with("#EXT-X-ENDLIST\r\n"));
    let text = get_media_track(&asset, "audio", &q, &templates(), "4.2", "4.3").unwrap().unwrap();
    assert!(text.contains("#EXTINF:4.3,"));
    let err = get_media_track(&asset, "x", &q, &templates(), "4.2", "4.3").unwrap().unwrap_err();
    assert_eq!((err.status, err.message.as_str()), (404, "Track not found"));
    let vtt = get_vtt_track(&asset, &q, &templates(), "4.2").unwrap().unwrap();
    assert!(vtt.contains(" true\n"));
    let live = get_media_playlist(&Query { start: None, end: None }, &asset.video, false, &templates(), "4.2")
        .unwrap()
        .unwrap();
    assert!(live.starts_with("LIVE "));
    assert!(live.contains("\n#EXT-X-MAP:URI=\"init.m4i\"\n"));
}

#[test]
fn subtitle_fragments() {
    let text = get_vtt_fragment(&asset(), 1, &templates()).unwrap().unwrap();
    assert!(text.starts_with("WEBVTT 384000\n\n00:00:00.733 --> 00:00:01.733\n"));
    assert!(get_vtt_fragment(&asset(), i64::MIN, &templates()).is_none());
}

#[test]
fn master_playlist() {
    let text = get_master(&asset(), "start=x", "60", &templates()).unwrap().unwrap();
    assert_eq!(text, "start=x|start=x|2812|1920x1080|60|start=x");
    let mut broken = asset();
    broken.video.duration = 0;
    assert!(get_master(&broken, "", "60", &templates()).is_none());
}
