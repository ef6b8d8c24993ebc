//! Audio-file recognition and manifest segment counting.

use hls_cache::media::{count_ts_segments, is_audio_file};

#[test]
fn recognizes_each_allowed_extension() {
    for name in [
        "a.wav", "a.mp3", "a.mp4", "a.flac", "a.ogg", "a.m4a", "a.aac",
    ] {
        assert!(is_audio_file(name), "{name} should be audio");
    }
}

#[test]
fn extension_match_is_case_insensitive() {
    assert!(is_audio_file("track.MP3"));
    assert!(is_audio_file("track.Flac"));
    assert!(is_audio_file("TRACK.WAV"));
}

#[test]
fn rejects_other_names() {
    assert!(!is_audio_file("notes.txt"));
    assert!(!is_audio_file("mp3"));
    assert!(!is_audio_file("noextension"));
    assert!(!is_audio_file(""));
    assert!(!is_audio_file("trailingdot."));
    assert!(!is_audio_file("a.mp33"));
    assert!(!is_audio_file("a.amp3"));
}

#[test]
fn hidden_file_with_only_leading_dot_has_no_extension() {
    assert!(!is_audio_file(".mp3"));
}

#[test]
fn extension_is_taken_after_the_last_dot() {
    assert!(is_audio_file("album.2024.mp3"));
    assert!(!is_audio_file("album.mp3.txt"));
}

#[test]
fn counts_segment_lines_exactly() {
    let manifest = b"#EXTM3U\n#EXT-X-TARGETDURATION:10\n#EXTINF:10,\n000.ts\n#EXTINF:10,\n001.ts\n#EXTINF:4,\n002.ts\n#EXT-X-ENDLIST\n".to_vec();
    assert_eq!(count_ts_segments(&manifest), 3);
}

#[test]
fn zero_segment_manifest_counts_zero() {
    let manifest = b"#EXTM3U\n#EXT-X-ENDLIST\n".to_vec();
    assert_eq!(count_ts_segments(&manifest), 0);
    assert_eq!(count_ts_segments(&Vec::new()), 0);
}

#[test]
fn carriage_returns_are_stripped_before_the_suffix_test() {
    let manifest = b"#EXTM3U\r\n000.ts\r\n001.ts\r\n".to_vec();
    assert_eq!(count_ts_segments(&manifest), 2);
}

#[test]
fn final_line_without_newline_still_counts() {
    let manifest = b"#EXTM3U\n000.ts".to_vec();
    assert_eq!(count_ts_segments(&manifest), 1);
}

#[test]
fn suffix_must_be_at_line_end() {
    let manifest = b"000.ts extra\nnot-a-segment\n.ts\n".to_vec();
    // Only the bare ".ts" line ends with the suffix.
    assert_eq!(count_ts_segments(&manifest), 1);
}
