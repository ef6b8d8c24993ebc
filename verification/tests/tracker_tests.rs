//! The job tracker: creation, polling, and the lifecycle updates.

use hls_cache::tracker::{JobResult, JobState, JobTracker};

#[test]
fn created_jobs_start_queued_with_a_hint() {
    let mut tracker = JobTracker::new();
    let id = tracker.create();
    let job = tracker.get(&id).expect("a created job should be pollable");
    assert!(matches!(job.state, JobState::Queued));
    assert_eq!(job.progress.as_deref(), Some("Starting download..."));
    assert!(job.error.is_none());
    assert!(job.result.is_none());
}

#[test]
fn job_ids_are_hyphenated_lowercase_uuids() {
    let mut tracker = JobTracker::new();
    let id = tracker.create();
    assert_eq!(id.len(), 36);
    for (i, c) in id.chars().enumerate() {
        if i == 8 || i == 13 || i == 18 || i == 23 {
            assert_eq!(c, '-');
        } else {
            assert!(c.is_ascii_hexdigit() && !c.is_ascii_uppercase(), "bad char {c} at {i}");
        }
    }
}

#[test]
fn distinct_jobs_get_distinct_ids() {
    let mut tracker = JobTracker::new();
    let a = tracker.create();
    let b = tracker.create();
    assert_ne!(a, b);
    assert!(tracker.get(&a).is_some());
    assert!(tracker.get(&b).is_some());
}

#[test]
fn polling_an_unknown_id_finds_nothing() {
    let tracker = JobTracker::new();
    assert!(tracker.get(&"unknown".to_string()).is_none());
}

#[test]
fn lifecycle_updates_land_on_the_right_job() {
    let mut tracker = JobTracker::new();
    let a = tracker.create();
    let b = tracker.create();

    tracker.mark_downloading(&a);
    assert!(matches!(tracker.get(&a).unwrap().state, JobState::Downloading));
    assert!(matches!(tracker.get(&b).unwrap().state, JobState::Queued));

    tracker.mark_converting(&a);
    let job = tracker.get(&a).unwrap();
    assert!(matches!(job.state, JobState::Converting));
    assert_eq!(job.progress.as_deref(), Some("Converting to HLS format..."));

    tracker.mark_ready(
        &a,
        JobResult {
            id: a.clone(),
            title: "Song A".to_string(),
            session_id: "sid-a".to_string(),
            playlist_url: "/api/hls/sid-a/playlist.m3u8".to_string(),
            total_segments: 3,
            segment_duration_seconds: 10,
        },
    );
    let job = tracker.get(&a).unwrap();
    assert!(matches!(job.state, JobState::Ready));
    assert!(job.progress.is_none());
    assert_eq!(job.result.as_ref().unwrap().total_segments, 3);

    tracker.mark_failed(&b, "collaborator diagnostics".to_string());
    let job = tracker.get(&b).unwrap();
    assert!(matches!(job.state, JobState::Failed));
    assert_eq!(job.error.as_deref(), Some("collaborator diagnostics"));
}

#[test]
fn updates_to_an_unknown_id_change_nothing() {
    let mut tracker = JobTracker::new();
    let a = tracker.create();
    tracker.mark_downloading(&"unknown".to_string());
    tracker.mark_failed(&"unknown".to_string(), "boom".to_string());
    assert!(matches!(tracker.get(&a).unwrap().state, JobState::Queued));
    assert!(tracker.get(&"unknown".to_string()).is_none());
}
