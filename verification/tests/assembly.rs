use instagroup::assembly::{
    assembly_plan, attachment_record, audio_only_png, chunks, merge, play_overlay_webp, thumbnail,
    AssemblyKind, AssemblyStep, MergeAction, ThumbPlan,
};
use instagroup::media::{Duration, MediaInfo, MediaType, Resolution, Timestamp};

fn member(path: &str, media: MediaType, res: Option<(u16, u16)>, micros: u64) -> MediaInfo {
    MediaInfo {
        stream_count: 2,
        media,
        path: path.to_string(),
        codec: "h264".to_string(),
        size: 1000,
        duration: Duration { micros },
        timestamp: Timestamp { nanos: 50 },
        resolution: res.map(|(width, height)| Resolution { width, height }),
        bit_rate: None,
    }
}

#[test]
fn lone_video_is_copied_with_kind_video() {
    // assembly fallback: a group with a video member and no audio member
    // copies the source verbatim and reports kind "video"
    let g = vec![member("v.mp4", MediaType::Video, Some((1920, 1080)), 10_000_000)];
    let plan = merge(&g);
    assert_eq!(plan.action, MergeAction::Copy { source: 0 });
    assert_eq!(plan.kind, AssemblyKind::Video);
    assert_eq!(plan.kind.label(), "video");
}

#[test]
fn lone_audio_is_copied_with_kind_audio() {
    let g = vec![member("a.mp4", MediaType::Audio, None, 10_000_000)];
    let plan = merge(&g);
    assert_eq!(plan.action, MergeAction::Copy { source: 0 });
    assert_eq!(plan.kind, AssemblyKind::Audio);
    assert_eq!(plan.kind.label(), "audio");
}

#[test]
fn mux_picks_first_audio_and_largest_area_video() {
    let g = vec![
        member("v720.mp4", MediaType::Video, Some((1280, 720)), 10_000_000),
        member("a.mp4", MediaType::Audio, None, 10_100_000),
        member("v1080.mp4", MediaType::Video, Some((1920, 1080)), 9_900_000),
        member("thumb.mp4", MediaType::Image, Some((1920, 1080)), 0),
    ];
    let plan = merge(&g);
    assert_eq!(plan.action, MergeAction::Mux { audio: 1, video: 2 });
    assert_eq!(plan.kind, AssemblyKind::AudioVideo);
    assert_eq!(plan.kind.label(), "audio+video");
}

#[test]
fn best_video_goes_by_area_not_width() {
    // 720x400 (288000 px) beats 1200x90 (108000 px) despite its width
    let g = vec![
        member("wide.mp4", MediaType::Video, Some((1200, 90)), 10_000_000),
        member("tall.mp4", MediaType::Video, Some((720, 400)), 10_000_000),
        member("a.mp4", MediaType::Audio, None, 10_000_000),
    ];
    let plan = merge(&g);
    assert_eq!(plan.action, MergeAction::Mux { audio: 2, video: 1 });
}

#[test]
fn lone_image_short_circuits() {
    let g = vec![member("i.mp4", MediaType::Image, Some((640, 480)), 0)];
    assert_eq!(assembly_plan(&g), AssemblyStep::ImageOnly);
    // while a video-only group still goes through the merge path
    let g = vec![member("v.mp4", MediaType::Video, Some((640, 480)), 0)];
    match assembly_plan(&g) {
        AssemblyStep::Merge(p) => assert_eq!(p.kind, AssemblyKind::Video),
        AssemblyStep::ImageOnly => panic!("a lone video is not an image attachment"),
    }
}

#[test]
fn thumbnail_uses_placeholder_for_bare_audio() {
    let mut a = member("a.mp4", MediaType::Audio, None, 10_000_000);
    a.stream_count = 1;
    assert_eq!(thumbnail(&a), ThumbPlan::Placeholder);
    // an audio file with a second stream is screenshotted instead
    a.stream_count = 2;
    assert_eq!(
        thumbnail(&a),
        ThumbPlan::Screenshot {
            seek: Duration { micros: 5_000_000 }
        }
    );
}

#[test]
fn thumbnail_seek_is_a_step_function_of_duration() {
    let v = |micros| member("v.mp4", MediaType::Video, Some((640, 480)), micros);
    let seek = |micros| match thumbnail(&v(micros)) {
        ThumbPlan::Screenshot { seek } => seek.micros,
        ThumbPlan::Placeholder => panic!("video sources are screenshotted"),
    };
    assert_eq!(seek(500_000), 0);
    assert_eq!(seek(999_999), 0);
    assert_eq!(seek(1_000_000), 2_000_000);
    assert_eq!(seek(5_999_999), 2_000_000);
    assert_eq!(seek(6_000_000), 5_000_000);
    assert_eq!(seek(60_000_000), 5_000_000);
}

#[test]
fn record_carries_anchor_duration_and_earliest_timestamp() {
    let mut a = member("a.mp4", MediaType::Video, Some((1920, 1080)), 10_000_000);
    a.timestamp = Timestamp { nanos: 900 };
    let mut b = member("b.mp4", MediaType::Audio, None, 10_100_000);
    b.timestamp = Timestamp { nanos: 400 };
    let g = vec![a, b];
    let r = attachment_record(
        &g,
        AssemblyKind::AudioVideo,
        "out_000.mp4".to_string(),
        "/abs/out_000.mp4".to_string(),
        "/abs/out_000.jpg".to_string(),
        4096,
    );
    assert_eq!(r.name, "out_000.mp4");
    assert_eq!(r.size, 4096);
    assert_eq!(r.kind, AssemblyKind::AudioVideo);
    assert_eq!(r.path, "/abs/out_000.mp4");
    assert_eq!(r.thumbnail, "/abs/out_000.jpg");
    assert_eq!(r.duration.0.micros, 10_000_000);
    assert_eq!(r.timestamp.nanos, 400);
    assert_eq!(r.sources, vec!["a.mp4".to_string(), "b.mp4".to_string()]);
    // the rendered size is what the size crate's default formatting gives
    assert_eq!(r.pretty_size, size::Size::from_bytes(4096u64).to_string());
    assert_ne!(r.pretty_size, "4096");
}

#[test]
fn chunks_cover_the_range_in_order() {
    assert_eq!(chunks(10, 3), vec![(0, 4), (4, 7), (7, 10)]);
    assert_eq!(chunks(2, 4), vec![(0, 1), (1, 2), (2, 2), (2, 2)]);
    assert_eq!(chunks(0, 2), vec![(0, 0), (0, 0)]);
    assert_eq!(chunks(5, 1), vec![(0, 5)]);
}

#[test]
fn placeholder_assets_have_their_formats() {
    let png = audio_only_png();
    assert_eq!(png.len(), 70);
    assert_eq!(&png[..8], &[137, 80, 78, 71, 13, 10, 26, 10]);
    let webp = play_overlay_webp();
    assert_eq!(webp.len(), 34);
    assert_eq!(&webp[..4], b"RIFF");
    assert_eq!(&webp[8..12], b"WEBP");
}
