use infinitystreamer::models::asset::{
    build_live_manifest, build_vod_manifest, create_fragment_list, get_playlist_parameters,
    live_manifest_at, playlist_parameters_at, vod_manifest_at,
};
use infinitystreamer::models::dimension::Dimension;
use infinitystreamer::models::fragment::FragmentParams;
use infinitystreamer::models::query::Query;
use infinitystreamer::utility::{now_in_timescale, scale_millis, timescale_from_clock};

fn video() -> FragmentParams {
    FragmentParams {
        init: vec![],
        fragment: vec![0; 1000],
        timescale: 15360,
        duration: 65536,
        dimension: Dimension::new(1920, 1080),
        sample_count: 256,
    }
}

fn query(start: Option<&str>, end: Option<&str>) -> Query {
    Query { start: start.map(|s| s.to_string()), end: end.map(|s| s.to_string()) }
}

#[test]
fn fragment_list() {
    let list = create_fragment_list(10, 2, "4.266667").unwrap();
    assert_eq!(
        list,
        "#EXTINF:4.266667,no-desc\r\n10.fragment\r\n#EXTINF:4.266667,no-desc\r\n11.fragment\r\n"
    );
    assert_eq!(create_fragment_list(10, 0, "1").unwrap(), "");
    assert_eq!(create_fragment_list(-1, 1, "1").unwrap(), "#EXTINF:1,no-desc\r\n-1.fragment\r\n");
}

#[test]
fn live_playlist_at_a_time() {
    let template = "#EXTM3U\n#EXT-X-MEDIA-SEQUENCE:{}\n#EXT-X-PROGRAM-DATE-TIME:{}{}\n";
    let text = live_manifest_at(&video(), false, template, "4.266667", 65536 * 100).unwrap().unwrap();
    let mut expected = String::from(
        "#EXTM3U\n#EXT-X-MEDIA-SEQUENCE:92\n#EXT-X-PROGRAM-DATE-TIME:1970-01-01T00:06:32.533+00:00\n#EXT-X-MAP:URI=\"init.m4i\"\n",
    );
    for n in 92..100 {
        expected += &format!("#EXTINF:4.266667,no-desc\r\n{}.fragment\r\n", n);
    }
    assert_eq!(text, expected);
    let vtt = live_manifest_at(&video(), true, "{}|{}|{}", "x", 65536 * 100).unwrap().unwrap();
    assert!(vtt.starts_with("92|1970-01-01T00:06:32.533+00:00|#EXTINF:x"));
}

#[test]
fn live_playlist_without_duration() {
    let mut params = video();
    params.duration = 0;
    assert!(live_manifest_at(&params, false, "{}", "x", 1000).is_none());
}

#[test]
fn live_playlist_now() {
    let text = build_live_manifest(&video(), false, "{}|{}|{}", "4.266667").unwrap().unwrap();
    assert_eq!(text.matches(".fragment").count(), 8);
}

#[test]
fn clock_in_timescale() {
    let now = now_in_timescale(1000).unwrap();
    assert!(now > 1_600_000_000_000);
    assert_eq!(scale_millis(1500, 90000), 135000);
    assert_eq!(scale_millis(-1, 999), 0);
}

#[test]
fn closed_stretch_playlist() {
    let q = query(Some("1970-01-01T00:00:10Z"), Some("1970-01-01T00:00:20Z"));
    assert_eq!(get_playlist_parameters(&q, &video()).unwrap().unwrap(), (153600, 307200, "VOD"));
    let text = build_vod_manifest(&q, &video(), false, "{}|{}|{}|{}\n", "4.266667").unwrap().unwrap();
    let mut expected = String::from("2|VOD|1970-01-01T00:02:11.072+00:00|false\n");
    for n in 2..5 {
        expected += &format!("#EXTINF:4.266667,no-desc\r\n{}.fragment\r\n", n);
    }
    expected += "#EXT-X-ENDLIST\r\n";
    assert_eq!(text, expected);
}

#[test]
fn open_stretch_playlist() {
    let q = query(Some("2020-01-01T00:00:00+01:00"), None);
    let (start, end, kind) = get_playlist_parameters(&q, &video()).unwrap().unwrap();
    assert_eq!(start, 1577833200000 * 15360 / 1000);
    assert!(end >= start);
    assert_eq!(kind, "EVENT");
    let text = build_vod_manifest(&q, &video(), true, "{}|{}|{}|{}\n", "1").unwrap().unwrap();
    assert!(text.contains("|EVENT|"));
    assert!(text.contains("|true\n"));
    assert!(!text.contains("#EXT-X-ENDLIST"));
    // The stretch is years long: the playlist is cut at 65536 fragments.
    assert_eq!(text.matches(".fragment").count(), 65536);
}

#[test]
fn playlist_request_errors() {
    let err = get_playlist_parameters(&query(Some("yesterday"), None), &video()).unwrap().unwrap_err();
    assert_eq!((err.status, err.message.as_str()), (400, "Invalid time format"));
    let err = get_playlist_parameters(&query(Some("1970-01-01T00:00:10Z"), Some("soon")), &video())
        .unwrap()
        .unwrap_err();
    assert_eq!((err.status, err.message.as_str()), (400, "Invalid time format"));
    let err = get_playlist_parameters(
        &query(Some("1970-01-01T00:00:20Z"), Some("1970-01-01T00:00:10Z")),
        &video(),
    )
    .unwrap()
    .unwrap_err();
    assert_eq!((err.status, err.message.as_str()), (400, "end < start"));
    let err = build_vod_manifest(&query(Some("x"), None), &video(), false, "{}", "1").unwrap().unwrap_err();
    assert_eq!(err.status, 400);
    assert!(get_playlist_parameters(&query(None, None), &video()).is_none());
}

#[test]
fn fragment_list_splits() {
    let whole = create_fragment_list(5, 3, "2").unwrap();
    let head = create_fragment_list(5, 1, "2").unwrap();
    let rest = create_fragment_list(6, 2, "2").unwrap();
    assert_eq!(whole, head + &rest);
}

#[test]
fn live_playlist_moves_forward() {
    let first = live_manifest_at(&video(), false, "{}", "1", 65536 * 100 + 5).unwrap().unwrap();
    let later = live_manifest_at(&video(), false, "{}", "1", 65536 * 101).unwrap().unwrap();
    assert!(first.starts_with("92"));
    assert!(later.starts_with("93"));
    // The last entry is the latest fragment played to its end.
    assert!(later.ends_with("100.fragment\r\n"));
}

#[test]
fn stretch_is_covered() {
    // 10 s to 20 s is 153600 units; three fragments of 65536 cover it, two do not.
    let q = query(Some("1970-01-01T00:00:10Z"), Some("1970-01-01T00:00:20Z"));
    let text = build_vod_manifest(&q, &video(), false, "", "1").unwrap().unwrap();
    assert_eq!(text.matches(".fragment").count(), 3);
    assert!(3 * 65536 >= 153600 && 2 * 65536 < 153600);
}

#[test]
fn clock_readings_in_timescale() {
    assert_eq!(timescale_from_clock(Some(1500), 90000), Some(135000));
    assert_eq!(timescale_from_clock(Some(1_700_000_000_123), 15360), Some(26_112_000_001_889));
    assert_eq!(timescale_from_clock(None, 90000), None);
    assert_eq!(timescale_from_clock(Some(i64::MAX as u128), 2), None);
    assert_eq!(timescale_from_clock(Some(u64::MAX as u128), 2), Some(0));
    // The milliseconds are cut to an i64 before they are scaled.
    assert_eq!(timescale_from_clock(Some((1u128 << 64) + 2000), 1000), Some(2000));
}

#[test]
fn open_stretch_at_a_given_time() {
    let q = query(Some("1970-01-01T00:00:10Z"), None);
    assert_eq!(playlist_parameters_at(&q, &video(), Some(307200)).unwrap().unwrap(), (153600, 307200, "EVENT"));
    let err = playlist_parameters_at(&q, &video(), Some(100)).unwrap().unwrap_err();
    assert_eq!((err.status, err.message.as_str()), (400, "end < start"));
    assert!(playlist_parameters_at(&q, &video(), None).is_none());
    let text = vod_manifest_at(&q, &video(), Some(307200), false, "{}|{}|{}|{}\n", "4.266667").unwrap().unwrap();
    let mut expected = String::from("2|EVENT|1970-01-01T00:02:11.072+00:00|false\n");
    for n in 2..5 {
        expected += &format!("#EXTINF:4.266667,no-desc\r\n{}.fragment\r\n", n);
    }
    assert_eq!(text, expected);
    // A closed stretch does not look at the reading.
    let closed = query(Some("1970-01-01T00:00:10Z"), Some("1970-01-01T00:00:20Z"));
    assert_eq!(
        vod_manifest_at(&closed, &video(), None, false, "{}", "1").unwrap().unwrap(),
        build_vod_manifest(&closed, &video(), false, "{}", "1").unwrap().unwrap()
    );
}
