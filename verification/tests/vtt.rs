use infinitystreamer::models::dimension::Dimension;
use infinitystreamer::models::fragment::FragmentParams;
use infinitystreamer::vtt::{create_cue_list, format_cue_time, generate, try_generate};

const LINES: [&str; 5] = [
    "&#x1F60B; &#x1f918;",
    "&#x1F61B; &#x1f918;",
    "&#x1F61C; &#x1f918;",
    "&#x1F92A; &#x1f918;",
    "Woooosshh...",
];

fn video() -> FragmentParams {
    FragmentParams {
        init: vec![],
        fragment: vec![0; 1000],
        timescale: 15360,
        duration: 65536,
        dimension: Dimension::new(1920, 1080),
        sample_count: 256,
    }
}

#[test]
fn cue_times() {
    assert_eq!(format_cue_time(0), "00:00:00.000");
    assert_eq!(format_cue_time(3723004), "01:02:03.004");
    assert_eq!(format_cue_time(360000000), "100:00:00.000");
    assert_eq!(format_cue_time(-5), "00:00:00.0-5");
}

#[test]
fn cue_list_from_zero() {
    let cues = create_cue_list(0, 384000).unwrap();
    let mut expected = String::new();
    for i in 0..5 {
        expected += &format!(
            "\n{} --> {}\n{}\n",
            format_cue_time(i * 1000),
            format_cue_time((i + 1) * 1000),
            LINES[i as usize % 5]
        );
    }
    assert_eq!(cues, expected);
}

#[test]
fn empty_cue_list() {
    assert_eq!(create_cue_list(90000, 90000).unwrap(), "");
}

#[test]
fn subtitle_fragment() {
    let template = "WEBVTT\nX-TIMESTAMP-MAP=MPEGTS:{},LOCAL:00:00:00.000\n";
    let text = generate(1, &video(), template).unwrap();
    let mut expected = "WEBVTT\nX-TIMESTAMP-MAP=MPEGTS:384000,LOCAL:00:00:00.000\n".to_string();
    expected += "\n00:00:00.733 --> 00:00:01.733\n&#x1F60B; &#x1f918;\n";
    expected += "\n00:00:01.733 --> 00:00:02.733\n&#x1F61B; &#x1f918;\n";
    expected += "\n00:00:02.733 --> 00:00:03.733\n&#x1F61C; &#x1f918;\n";
    expected += "\n00:00:03.733 --> 00:00:04.733\n&#x1F92A; &#x1f918;\n";
    assert_eq!(text, expected);
}

#[test]
fn subtitle_fragment_overflow() {
    assert!(try_generate(i64::MAX, &video(), "{}").is_none());
    assert_eq!(try_generate(1, &video(), "{}").unwrap().unwrap(), generate(1, &video(), "{}").unwrap());
}

#[test]
fn cue_time_parts_add_up() {
    let t: i64 = 3723004;
    let text = format_cue_time(t);
    let parts: Vec<i64> = text.split(|c| c == ':' || c == '.').map(|p| p.parse().unwrap()).collect();
    assert_eq!(parts, vec![1, 2, 3, 4]);
    assert_eq!(parts[0] * 3600000 + parts[1] * 60000 + parts[2] * 1000 + parts[3], t);
}

#[test]
fn consecutive_subtitle_fragments_adjoin() {
    // 65536 units of 1/15360 s are exactly 384000 units of 1/90000 s.
    let first = generate(1, &video(), "{}").unwrap();
    let second = generate(2, &video(), "{}").unwrap();
    assert!(first.starts_with("384000"));
    assert!(second.starts_with("768000"));
}

#[test]
fn cue_list_repeats_every_five_seconds() {
    for (start, end) in [(0i64, 384000i64), (384000, 768000), (12345, 99999), (90000, 90000)] {
        assert_eq!(
            create_cue_list(start + 450000, end + 450000).unwrap(),
            create_cue_list(start, end).unwrap()
        );
    }
}

#[test]
fn cue_time_text_reads_back() {
    for t in [0i64, 999, 59_999, 3_599_999, 3_723_004, 360_000_000, 123_456_789] {
        let text = format_cue_time(t);
        let h = text.len() - 10;
        assert!(h >= 2);
        assert_eq!(&text[h..h + 1], ":");
        assert_eq!(&text[h + 3..h + 4], ":");
        assert_eq!(&text[h + 6..h + 7], ".");
        let hours: i64 = text[..h].parse().unwrap();
        let minutes: i64 = text[h + 1..h + 3].parse().unwrap();
        let seconds: i64 = text[h + 4..h + 6].parse().unwrap();
        let millis: i64 = text[h + 7..].parse().unwrap();
        assert!(minutes < 60 && seconds < 60 && millis < 1000);
        assert_eq!(hours * 3600000 + minutes * 60000 + seconds * 1000 + millis, t);
    }
}
