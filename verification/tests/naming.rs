use instagroup::assembly::{file_name_of, is_mp4_path, output_names, stub_for, stub_of};

#[test]
fn stub_is_prefix_up_to_second_underscore() {
    assert_eq!(stub_of("IMG_20240101_001.mp4"), Some("IMG_20240101".to_string()));
}

#[test]
fn stub_missing_without_second_underscore() {
    assert_eq!(stub_of("clip.mp4"), None);
    assert_eq!(stub_of("one_underscore.mp4"), None);
}

#[test]
fn stub_for_falls_back_to_fresh_identifier() {
    // a name without a second underscore gets a generated 36-character
    // identifier in the hyphenated shape
    let stub = stub_for("clip.mp4");
    assert_eq!(stub.len(), 36);
    let bytes = stub.as_bytes();
    assert_eq!(bytes[8], b'-');
    assert_eq!(bytes[13], b'-');
    assert_eq!(bytes[18], b'-');
    assert_eq!(bytes[23], b'-');
    // while a name with one keeps its shared prefix
    assert_eq!(stub_for("IMG_20240101_001.mp4"), "IMG_20240101");
}

#[test]
fn output_names_are_index_qualified() {
    let (mp4, jpg) = output_names("IMG_20240101", 7);
    assert_eq!(mp4, "IMG_20240101_007.mp4");
    assert_eq!(jpg, "IMG_20240101_007.jpg");
    let (mp4, jpg) = output_names("x", 1234);
    assert_eq!(mp4, "x_1234.mp4");
    assert_eq!(jpg, "x_1234.jpg");
}

#[test]
fn file_name_strips_directories() {
    assert_eq!(file_name_of("/tmp/exports/IMG_1_2.mp4"), "IMG_1_2.mp4");
    assert_eq!(file_name_of("plain.mp4"), "plain.mp4");
    assert_eq!(file_name_of("dir/"), "");
}

#[test]
fn mp4_paths_are_recognized_case_insensitively() {
    assert!(is_mp4_path("a/b/clip.mp4"));
    assert!(is_mp4_path("CLIP.MP4"));
    assert!(is_mp4_path("clip.Mp4"));
    assert!(!is_mp4_path("clip.mkv"));
    assert!(!is_mp4_path("mp4"));
    assert!(!is_mp4_path(""));
}
