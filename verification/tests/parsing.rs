use instagroup::parse::{parse_duration_secs, parse_u32, parse_u64};
use instagroup::probe::{identify, ProbeError, ProbeFormat, ProbeReport, ProbeStream};

fn stream(codec_type: &str, codec_name: &str) -> ProbeStream {
    ProbeStream {
        codec_type: codec_type.to_string(),
        codec_name: codec_name.to_string(),
        width: Some(1920),
        height: Some(1080),
        bit_rate: None,
        duration: Some("10.000000".to_string()),
    }
}

fn report(streams: Vec<ProbeStream>) -> ProbeReport {
    ProbeReport {
        format: ProbeFormat {
            size: "2048".to_string(),
            nb_streams: streams.len() as u8,
            duration: None,
            bit_rate: None,
            creation_time: None,
        },
        streams,
    }
}

#[test]
fn parse_u64_reads_plain_decimals() {
    assert_eq!(parse_u64("0"), Some(0));
    assert_eq!(parse_u64("123"), Some(123));
    assert_eq!(parse_u64("18446744073709551615"), Some(u64::MAX));
    assert_eq!(parse_u64("18446744073709551616"), None);
    assert_eq!(parse_u64(""), None);
    assert_eq!(parse_u64("12a"), None);
    assert_eq!(parse_u64("-1"), None);
}

#[test]
fn parse_u32_rejects_wide_values() {
    assert_eq!(parse_u32("4294967295"), Some(u32::MAX));
    assert_eq!(parse_u32("4294967296"), None);
    assert_eq!(parse_u32("96000"), Some(96000));
}

#[test]
fn durations_parse_to_exact_microseconds() {
    assert_eq!(parse_duration_secs("10").map(|d| d.micros), Some(10_000_000));
    assert_eq!(parse_duration_secs("10.35").map(|d| d.micros), Some(10_350_000));
    assert_eq!(parse_duration_secs("0.7").map(|d| d.micros), Some(700_000));
    assert_eq!(parse_duration_secs(".5").map(|d| d.micros), Some(500_000));
    assert_eq!(parse_duration_secs("3.").map(|d| d.micros), Some(3_000_000));
    assert_eq!(parse_duration_secs("10.350000").map(|d| d.micros), Some(10_350_000));
    // digits beyond microsecond precision are dropped
    assert_eq!(parse_duration_secs("0.1234567").map(|d| d.micros), Some(123_456));
}

#[test]
fn malformed_durations_are_rejected() {
    assert_eq!(parse_duration_secs(""), None);
    assert_eq!(parse_duration_secs("."), None);
    assert_eq!(parse_duration_secs("1.2.3"), None);
    assert_eq!(parse_duration_secs("abc"), None);
    assert_eq!(parse_duration_secs("-1"), None);
    assert_eq!(parse_duration_secs("1e3"), None);
}

#[test]
fn identify_classifies_the_first_stream() {
    let mi = identify("v.mp4", &report(vec![stream("video", "h264")]), 7).unwrap();
    assert_eq!(mi.path, "v.mp4");
    assert!(mi.is_video());
    assert_eq!(mi.codec, "h264");
    assert_eq!(mi.size, 2048);
    assert_eq!(mi.duration.micros, 10_000_000);
    assert_eq!(mi.stream_count, 1);
    assert_eq!(
        mi.resolution,
        Some(instagroup::media::Resolution {
            width: 1920,
            height: 1080
        })
    );
    // no creation-time tag: the caller's fallback instant is kept
    assert_eq!(mi.timestamp.nanos, 7);

    let mi = identify("a.mp4", &report(vec![stream("audio", "aac")]), 0).unwrap();
    assert!(mi.is_audio());
    assert_eq!(mi.resolution, None);

    // the still-frame codecs make an image of a video stream
    let mi = identify("i.mp4", &report(vec![stream("video", "png")]), 0).unwrap();
    assert!(mi.is_image());
    let mi = identify("i.mp4", &report(vec![stream("video", "mjpeg")]), 0).unwrap();
    assert!(mi.is_image());
}

#[test]
fn identify_falls_back_to_container_duration() {
    let mut s = stream("video", "h264");
    s.duration = None;
    let mut r = report(vec![s]);
    r.format.duration = Some("4.5".to_string());
    let mi = identify("v.mp4", &r, 0).unwrap();
    assert_eq!(mi.duration.micros, 4_500_000);

    // and to zero where neither carries one
    let mut s = stream("video", "h264");
    s.duration = None;
    let mi = identify("v.mp4", &report(vec![s]), 0).unwrap();
    assert_eq!(mi.duration.micros, 0);
}

#[test]
fn identify_reads_stream_bit_rate_before_container() {
    let mut s = stream("video", "h264");
    s.bit_rate = Some("96000".to_string());
    let mut r = report(vec![s]);
    r.format.bit_rate = Some("128000".to_string());
    let mi = identify("v.mp4", &r, 0).unwrap();
    assert_eq!(mi.bit_rate, Some(96000));

    let mut r = report(vec![stream("video", "h264")]);
    r.format.bit_rate = Some("128000".to_string());
    let mi = identify("v.mp4", &r, 0).unwrap();
    assert_eq!(mi.bit_rate, Some(128000));
}

#[test]
fn identify_parses_the_creation_time_tag() {
    let mut r = report(vec![stream("video", "h264")]);
    r.format.creation_time = Some("2024-01-01T00:00:00Z".to_string());
    let mi = identify("v.mp4", &r, 7).unwrap();
    assert_eq!(mi.timestamp.nanos, 1_704_067_200_000_000_000);

    // the offset in the string is honoured
    let mut r = report(vec![stream("video", "h264")]);
    r.format.creation_time = Some("2024-01-01T01:00:00+01:00".to_string());
    let mi = identify("v.mp4", &r, 7).unwrap();
    assert_eq!(mi.timestamp.nanos, 1_704_067_200_000_000_000);
}

#[test]
fn identify_names_each_failure() {
    assert_eq!(identify("x", &report(vec![]), 0), Err(ProbeError::NoStreams));

    let mut r = report(vec![stream("video", "h264")]);
    r.format.size = "huge".to_string();
    assert_eq!(identify("x", &r, 0), Err(ProbeError::InvalidSize));

    let r = report(vec![stream("subtitle", "srt")]);
    assert_eq!(identify("x", &r, 0), Err(ProbeError::UnknownKind));

    let mut s = stream("video", "h264");
    s.duration = Some("fast".to_string());
    assert_eq!(identify("x", &report(vec![s]), 0), Err(ProbeError::InvalidDuration));

    let mut s = stream("video", "h264");
    s.bit_rate = Some("1e9".to_string());
    assert_eq!(identify("x", &report(vec![s]), 0), Err(ProbeError::InvalidBitRate));

    let mut r = report(vec![stream("video", "h264")]);
    r.format.creation_time = Some("not a date".to_string());
    assert_eq!(identify("x", &r, 0), Err(ProbeError::InvalidTimestamp));

    let mut s = stream("video", "h264");
    s.width = None;
    assert_eq!(identify("x", &report(vec![s]), 0), Err(ProbeError::MissingResolution));
}
