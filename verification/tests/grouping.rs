use instagroup::grouping::{group, max_divergence, sort_by_duration_desc};
use instagroup::media::{Duration, MediaInfo, MediaType, Resolution, Timestamp};

fn video(path: &str, width: u16, height: u16, secs_tenths: u64) -> MediaInfo {
    MediaInfo {
        stream_count: 1,
        media: MediaType::Video,
        path: path.to_string(),
        codec: "h264".to_string(),
        size: 1000,
        duration: Duration {
            micros: secs_tenths * 100_000,
        },
        timestamp: Timestamp { nanos: 0 },
        resolution: Some(Resolution { width, height }),
        bit_rate: None,
    }
}

fn audio(path: &str, secs_tenths: u64) -> MediaInfo {
    MediaInfo {
        stream_count: 1,
        media: MediaType::Audio,
        path: path.to_string(),
        codec: "aac".to_string(),
        size: 500,
        duration: Duration {
            micros: secs_tenths * 100_000,
        },
        timestamp: Timestamp { nanos: 0 },
        resolution: None,
        bit_rate: None,
    }
}

fn image(path: &str, width: u16, height: u16) -> MediaInfo {
    MediaInfo {
        stream_count: 1,
        media: MediaType::Image,
        path: path.to_string(),
        codec: "mjpeg".to_string(),
        size: 100,
        duration: Duration { micros: 0 },
        timestamp: Timestamp { nanos: 0 },
        resolution: Some(Resolution { width, height }),
        bit_rate: None,
    }
}

#[test]
fn scenario_one_attachment_three_variants() {
    // video 1080p/10.0s, audio 10.1s, video 720p/9.8s: one group of all
    // three — all within 0.7s of the anchor, distinct resolutions, one
    // audio track.
    let groups = group(vec![
        video("a.mp4", 1920, 1080, 100),
        audio("b.mp4", 101),
        video("c.mp4", 1280, 720, 98),
    ]);
    assert_eq!(groups.len(), 1);
    assert_eq!(groups[0].len(), 3);
}

#[test]
fn scenario_resolution_collision_splits() {
    // two 1080p videos with close durations: the resolution collision
    // forces a second group.
    let groups = group(vec![
        video("a.mp4", 1920, 1080, 100),
        video("b.mp4", 1920, 1080, 102),
    ]);
    assert_eq!(groups.len(), 2);
    assert_eq!(groups[0].len(), 1);
    assert_eq!(groups[1].len(), 1);
}

#[test]
fn scenario_audio_collision_splits() {
    let groups = group(vec![audio("a.mp4", 50), audio("b.mp4", 50)]);
    assert_eq!(groups.len(), 2);
    assert_eq!(groups[0].len(), 1);
    assert_eq!(groups[1].len(), 1);
}

#[test]
fn scenario_image_joins_matching_resolution() {
    // an image joins the group holding a member of its own resolution;
    // durations play no part for a still frame.
    let groups = group(vec![video("a.mp4", 640, 480, 30), image("b.mp4", 640, 480)]);
    assert_eq!(groups.len(), 1);
    assert_eq!(groups[0].len(), 2);
    assert_eq!(groups[0][0].media, MediaType::Video);
    assert_eq!(groups[0][1].media, MediaType::Image);
}

#[test]
fn image_without_match_starts_singleton() {
    let groups = group(vec![video("a.mp4", 640, 480, 30), image("b.mp4", 100, 100)]);
    assert_eq!(groups.len(), 2);
}

#[test]
fn threshold_is_inclusive_at_seven_tenths() {
    // exactly 0.7s from the anchor still joins; 0.8s does not
    let groups = group(vec![video("a.mp4", 1920, 1080, 100), audio("b.mp4", 107)]);
    assert_eq!(groups.len(), 1);
    let groups = group(vec![video("a.mp4", 1920, 1080, 100), audio("b.mp4", 108)]);
    assert_eq!(groups.len(), 2);
}

#[test]
fn closest_anchor_wins() {
    // two open groups; the audio track joins the nearer anchor
    let groups = group(vec![
        video("a.mp4", 1920, 1080, 100),
        video("b.mp4", 1920, 1080, 96),
        audio("c.mp4", 90),
    ]);
    assert_eq!(groups.len(), 2);
    // a (10.0s) anchors group 0; b collides with a's resolution and
    // anchors group 1 (9.6s); c (9.0s) is 1.0s from a — over the
    // threshold — and 0.6s from b, so it joins group 1
    assert_eq!(groups[0].len(), 1);
    assert_eq!(groups[1].len(), 2);
    assert_eq!(groups[1][1].path, "c.mp4");
}

#[test]
fn partition_property_holds_on_mixed_input() {
    let input = vec![
        video("a.mp4", 1920, 1080, 100),
        audio("b.mp4", 101),
        video("c.mp4", 1280, 720, 98),
        video("d.mp4", 1920, 1080, 102),
        audio("e.mp4", 55),
        image("f.mp4", 1280, 720),
    ];
    let n = input.len();
    let groups = group(input);
    // every descriptor appears in exactly one group, and no group is empty
    let mut paths: Vec<String> = Vec::new();
    for g in &groups {
        assert!(!g.is_empty());
        for m in g {
            paths.push(m.path.clone());
        }
    }
    assert_eq!(paths.len(), n);
    paths.sort();
    paths.dedup();
    assert_eq!(paths.len(), n);
}

#[test]
fn compatibility_invariant_holds_on_mixed_input() {
    let input = vec![
        video("a.mp4", 1920, 1080, 100),
        audio("b.mp4", 101),
        video("c.mp4", 1280, 720, 98),
        video("d.mp4", 1920, 1080, 102),
        audio("e.mp4", 100),
        image("f.mp4", 1280, 720),
        image("g.mp4", 1280, 720),
    ];
    let groups = group(input);
    for g in &groups {
        for j in 0..g.len() {
            for k in (j + 1)..g.len() {
                let (a, b) = (&g[j], &g[k]);
                assert!(!(a.media == MediaType::Audio && b.media == MediaType::Audio));
                assert!(!(a.media == MediaType::Image && b.media == MediaType::Image));
                assert!(
                    !(a.media == MediaType::Video
                        && b.media == MediaType::Video
                        && a.resolution == b.resolution)
                );
            }
        }
    }
}

#[test]
fn threshold_property_holds_on_mixed_input() {
    let input = vec![
        video("a.mp4", 1920, 1080, 100),
        audio("b.mp4", 101),
        video("c.mp4", 1280, 720, 98),
        video("d.mp4", 640, 480, 55),
        audio("e.mp4", 52),
        image("f.mp4", 1280, 720),
    ];
    let groups = group(input);
    for g in &groups {
        let anchor = g[0].duration.micros;
        for m in g.iter().skip(1) {
            if m.media != MediaType::Image {
                let delta = m.duration.micros.abs_diff(anchor);
                assert!(delta <= 700_000);
            }
        }
    }
}

#[test]
fn grouping_is_deterministic() {
    let make = || {
        vec![
            video("a.mp4", 1920, 1080, 100),
            audio("b.mp4", 101),
            video("c.mp4", 1280, 720, 98),
            audio("d.mp4", 55),
            image("e.mp4", 1920, 1080),
        ]
    };
    let first = group(make());
    let second = group(make());
    assert_eq!(first, second);
}

#[test]
fn anchor_is_the_largest_duration_member() {
    let groups = group(vec![
        video("a.mp4", 1920, 1080, 98),
        audio("b.mp4", 101),
        video("c.mp4", 1280, 720, 100),
    ]);
    for g in &groups {
        for m in g {
            assert!(m.duration.micros <= g[0].duration.micros);
        }
    }
    // here the audio track, at 10.1s, anchors the single group
    assert_eq!(groups[0][0].path, "b.mp4");
}

#[test]
fn sort_is_stable_and_descending() {
    let sorted = sort_by_duration_desc(vec![
        audio("a.mp4", 50),
        audio("b.mp4", 70),
        audio("c.mp4", 50),
        audio("d.mp4", 90),
    ]);
    let order: Vec<&str> = sorted.iter().map(|m| m.path.as_str()).collect();
    assert_eq!(order, vec!["d.mp4", "b.mp4", "a.mp4", "c.mp4"]);
}

#[test]
fn divergence_reports_widest_group_spread() {
    let groups = group(vec![
        video("a.mp4", 1920, 1080, 100),
        audio("b.mp4", 101),
        video("c.mp4", 1280, 720, 98),
    ]);
    // anchor 10.1s (audio), longest 10.1s, shortest 9.8s
    let d = max_divergence(&groups).unwrap();
    assert_eq!(d.micros, 300_000);
    let none: Vec<Vec<MediaInfo>> = Vec::new();
    assert!(max_divergence(&none).is_none());
}
