//! The conversion pipeline end to end: state sequence, dedup, and the
//! failure paths.

use hls_cache::keys::derive_key;
use hls_cache::pipeline::{begin_download, download_finished, register_success, PipelineError};
use hls_cache::store::SessionStore;
use hls_cache::tracker::{JobState, JobTracker};

const URL: &str = "https://example.test/a";

fn manifest_with_three_segments() -> Vec<u8> {
    b"#EXTM3U\n#EXTINF:10,\n000.ts\n#EXTINF:10,\n001.ts\n#EXTINF:10,\n002.ts\n#EXT-X-ENDLIST\n"
        .to_vec()
}

#[test]
fn end_to_end_scenario() {
    let mut store = SessionStore::new();
    let mut tracker = JobTracker::new();
    let url = URL.to_string();
    let cache_dir = "/cache".to_string();

    // Submit: the job is queued.
    let job_id = tracker.create();
    assert!(matches!(tracker.get(&job_id).unwrap().state, JobState::Queued));

    // Dedup passes, the claim is taken, the job is downloading.
    let session_id = begin_download(&mut store, &mut tracker, &job_id, &url)
        .expect("a fresh origin should be admitted");
    assert!(matches!(tracker.get(&job_id).unwrap().state, JobState::Downloading));
    assert_eq!(session_id.len(), 36);

    // The fetch collaborator succeeded and left one audio file.
    let key = derive_key(&url);
    let files = vec!["cover.jpg".to_string(), "audio.mp3".to_string()];
    let chosen = download_finished(
        &mut store,
        &mut tracker,
        &job_id,
        &key,
        true,
        String::new(),
        &files,
    )
    .expect("a produced audio file should be chosen");
    assert_eq!(chosen, "audio.mp3");
    assert!(matches!(tracker.get(&job_id).unwrap().state, JobState::Converting));

    // The transcode collaborator succeeded; the session is registered.
    let manifest = manifest_with_three_segments();
    let result = register_success(
        &mut store,
        &mut tracker,
        &job_id,
        key.clone(),
        &url,
        Some("Song A".to_string()),
        session_id.clone(),
        &cache_dir,
        true,
        String::new(),
        &manifest,
    )
    .expect("a clean transcode should register");
    assert_eq!(result.title, "Song A");
    assert!(result.total_segments > 0);
    assert_eq!(result.total_segments, 3);
    assert_eq!(result.session_id, session_id);
    assert_eq!(result.playlist_url, format!("/api/hls/{session_id}/playlist.m3u8"));

    let job = tracker.get(&job_id).unwrap();
    assert!(matches!(job.state, JobState::Ready));
    assert!(job.progress.is_none());
    let job_result = job.result.as_ref().unwrap();
    assert_eq!(job_result.title, "Song A");
    assert_eq!(job_result.total_segments, 3);

    // Exactly one new cache entry, under the derived key, counted from the manifest.
    let all = store.list_all();
    assert_eq!(all.len(), 1);
    assert_eq!(all[0].0, key);
    assert_eq!(all[0].1.total_segments, 3);
    assert_eq!(all[0].1.segments_dir, format!("/cache/{session_id}"));
    assert_eq!(all[0].1.playlist_path, format!("/cache/{session_id}/playlist.m3u8"));

    // Re-submitting the same URL is rejected before any collaborator runs.
    let second_job = tracker.create();
    match begin_download(&mut store, &mut tracker, &second_job, &url) {
        Err(PipelineError::DuplicateOrigin { existing_title }) => {
            assert_eq!(existing_title.as_deref(), Some("Song A"));
        }
        other => panic!("expected a duplicate-origin rejection, got {:?}", other.is_ok()),
    }
    let failed = tracker.get(&second_job).unwrap();
    assert!(matches!(failed.state, JobState::Failed));
    assert_eq!(
        failed.error.as_deref(),
        Some("This song is already downloaded: \"Song A\"")
    );
    assert_eq!(store.list_all().len(), 1);
}

#[test]
fn concurrent_submissions_admit_at_most_one() {
    let mut store = SessionStore::new();
    let mut tracker = JobTracker::new();
    let url = URL.to_string();

    let first_job = tracker.create();
    let second_job = tracker.create();

    let session_id = begin_download(&mut store, &mut tracker, &first_job, &url)
        .expect("the first submission should be admitted");

    // The second submission arrives while the first is still converting.
    match begin_download(&mut store, &mut tracker, &second_job, &url) {
        Err(PipelineError::DuplicateOrigin { existing_title }) => {
            assert!(existing_title.is_none());
        }
        Ok(_) => panic!("the racing submission must not be admitted"),
        Err(_) => panic!("the racing submission must fail as a duplicate"),
    }
    assert!(matches!(tracker.get(&second_job).unwrap().state, JobState::Failed));

    // The first conversion finishes; exactly one session exists.
    let key = derive_key(&url);
    let files = vec!["audio.m4a".to_string()];
    download_finished(&mut store, &mut tracker, &first_job, &key, true, String::new(), &files)
        .expect("the only admitted job should proceed");
    let manifest = manifest_with_three_segments();
    register_success(
        &mut store,
        &mut tracker,
        &first_job,
        key,
        &url,
        None,
        session_id,
        &"/cache".to_string(),
        true,
        String::new(),
        &manifest,
    )
    .expect("the only admitted job should register");

    assert!(matches!(tracker.get(&first_job).unwrap().state, JobState::Ready));
    assert_eq!(store.list_all().len(), 1);
}

#[test]
fn a_missing_title_gets_a_stand_in_from_the_session_id() {
    let mut store = SessionStore::new();
    let mut tracker = JobTracker::new();
    let url = URL.to_string();
    let job_id = tracker.create();
    let session_id = begin_download(&mut store, &mut tracker, &job_id, &url).unwrap();
    let key = derive_key(&url);
    let files = vec!["audio.wav".to_string()];
    download_finished(&mut store, &mut tracker, &job_id, &key, true, String::new(), &files)
        .unwrap();
    let manifest = manifest_with_three_segments();
    let result = register_success(
        &mut store,
        &mut tracker,
        &job_id,
        key,
        &url,
        None,
        session_id.clone(),
        &"/cache".to_string(),
        true,
        String::new(),
        &manifest,
    )
    .unwrap();
    assert_eq!(result.title, format!("Track {}", &session_id[..8]));
}

#[test]
fn a_failed_fetch_fails_the_job_and_releases_the_claim() {
    let mut store = SessionStore::new();
    let mut tracker = JobTracker::new();
    let url = URL.to_string();
    let job_id = tracker.create();
    begin_download(&mut store, &mut tracker, &job_id, &url).unwrap();
    let key = derive_key(&url);

    let r = download_finished(
        &mut store,
        &mut tracker,
        &job_id,
        &key,
        false,
        "fetch tool error: no formats found".to_string(),
        &Vec::new(),
    );
    match r {
        Err(PipelineError::CollaboratorFailure { diagnostics }) => {
            assert_eq!(diagnostics, "fetch tool error: no formats found");
        }
        _ => panic!("a failed fetch must surface a collaborator failure"),
    }
    let job = tracker.get(&job_id).unwrap();
    assert!(matches!(job.state, JobState::Failed));
    assert_eq!(job.error.as_deref(), Some("fetch tool error: no formats found"));

    // The claim was released: the origin can be submitted again.
    assert!(!store.is_claimed(&key));
    let retry_job = tracker.create();
    assert!(begin_download(&mut store, &mut tracker, &retry_job, &url).is_ok());
}

#[test]
fn a_fetch_that_leaves_no_audio_file_fails_the_job() {
    let mut store = SessionStore::new();
    let mut tracker = JobTracker::new();
    let url = URL.to_string();
    let job_id = tracker.create();
    begin_download(&mut store, &mut tracker, &job_id, &url).unwrap();
    let key = derive_key(&url);

    let files = vec!["cover.jpg".to_string(), "info.json".to_string()];
    let r = download_finished(
        &mut store,
        &mut tracker,
        &job_id,
        &key,
        true,
        String::new(),
        &files,
    );
    match r {
        Err(PipelineError::CollaboratorFailure { diagnostics }) => {
            assert_eq!(diagnostics, "Downloaded file not found after the fetch step completed");
        }
        _ => panic!("a fetch without an audio file must fail"),
    }
    assert!(!store.is_claimed(&key));
    assert!(matches!(tracker.get(&job_id).unwrap().state, JobState::Failed));
}

#[test]
fn a_failed_transcode_fails_the_job_and_registers_nothing() {
    let mut store = SessionStore::new();
    let mut tracker = JobTracker::new();
    let url = URL.to_string();
    let job_id = tracker.create();
    let session_id = begin_download(&mut store, &mut tracker, &job_id, &url).unwrap();
    let key = derive_key(&url);
    let files = vec!["audio.ogg".to_string()];
    download_finished(&mut store, &mut tracker, &job_id, &key, true, String::new(), &files)
        .unwrap();

    let r = register_success(
        &mut store,
        &mut tracker,
        &job_id,
        key.clone(),
        &url,
        None,
        session_id,
        &"/cache".to_string(),
        false,
        "transcoder error: invalid data".to_string(),
        &Vec::new(),
    );
    match r {
        Err(PipelineError::CollaboratorFailure { diagnostics }) => {
            assert_eq!(diagnostics, "transcoder error: invalid data");
        }
        _ => panic!("a failed transcode must surface a collaborator failure"),
    }
    assert_eq!(store.list_all().len(), 0);
    assert!(!store.is_claimed(&key));
    let job = tracker.get(&job_id).unwrap();
    assert!(matches!(job.state, JobState::Failed));
    assert_eq!(job.error.as_deref(), Some("transcoder error: invalid data"));
}

#[test]
fn a_zero_segment_manifest_still_registers() {
    let mut store = SessionStore::new();
    let mut tracker = JobTracker::new();
    let url = URL.to_string();
    let job_id = tracker.create();
    let session_id = begin_download(&mut store, &mut tracker, &job_id, &url).unwrap();
    let key = derive_key(&url);
    let files = vec!["audio.aac".to_string()];
    download_finished(&mut store, &mut tracker, &job_id, &key, true, String::new(), &files)
        .unwrap();
    let manifest = b"#EXTM3U\n#EXT-X-ENDLIST\n".to_vec();
    let result = register_success(
        &mut store,
        &mut tracker,
        &job_id,
        key.clone(),
        &url,
        None,
        session_id,
        &"/cache".to_string(),
        true,
        String::new(),
        &manifest,
    )
    .expect("an empty manifest is unusual but not an error");
    assert_eq!(result.total_segments, 0);
    assert_eq!(store.get(&key).unwrap().total_segments, 0);
}
