//! The conversion pipeline: the decisions that drive one job from submission
//! to a registered session or a terminal failure. The subprocess work — the
//! fetch and transcode collaborators — happens outside; this module is the
//! state machine between their results: dedup and claiming before any work
//! starts, choice of the fetched audio file, manifest accounting, and
//! registration of the finished session.

use crate::ids::fresh_id;
use crate::keys::{derive_key, key_of};
use crate::media::{count_ts_segments, is_audio_file, is_audio_name, ts_count};
use crate::session::{Session, SessionView};
use crate::store::SessionStore;
use crate::tracker::{converting_message, starting_message, JobResult, JobResultView, JobState,
    JobTracker, JobView};
use vstd::prelude::*;
use vstd::utf8::encode_utf8;

verus! {

/// The target segment duration handed to the transcode collaborator, in
/// seconds; a fixed policy constant.
pub const SEGMENT_DURATION_SECONDS: u32 = 10;

/// Why a job ended in its failed state.
#[derive(Debug)]
pub enum PipelineError {
    /// The origin URL is already represented: by a live session (whose title
    /// is carried along when known) or by a conversion still in flight.
    DuplicateOrigin { existing_title: Option<String> },
    /// The fetch or transcode collaborator failed, or left no recognizable
    /// audio file; its diagnostic text is captured verbatim.
    CollaboratorFailure { diagnostics: String },
}

/// Whether a file name, given as a string, carries a recognized audio
/// extension: `is_audio_name` on its UTF-8 bytes.
pub open spec fn audio_name(s: Seq<char>) -> bool {
    is_audio_name(encode_utf8(s))
}

/// The directory owned by one session, under the cache root.
pub fn session_directory(cache_dir: &str, session_id: &str) -> (r: String)
    ensures
        r@ == cache_dir@ + "/"@ + session_id@,
{
    String::from_str(cache_dir).concat("/").concat(session_id)
}

/// The manifest path inside a session's directory.
pub fn playlist_path_of(segments_dir: &str) -> (r: String)
    ensures
        r@ == segments_dir@ + "/playlist.m3u8"@,
{
    String::from_str(segments_dir).concat("/playlist.m3u8")
}

/// The URL under which a session's manifest is served.
pub fn playlist_url_of(session_id: &str) -> (r: String)
    ensures
        r@ == "/api/hls/"@ + session_id@ + "/playlist.m3u8"@,
{
    String::from_str("/api/hls/").concat(session_id).concat("/playlist.m3u8")
}

/// The title a session ends up with: the requested one, or a stand-in built
/// from the session id's first characters.
pub open spec fn chosen_title(requested: Option<Seq<char>>, session_id: Seq<char>) -> Seq<char> {
    match requested {
        Some(t) => t,
        None => "Track "@ + (if session_id.len() >= 8 {
            session_id.take(8)
        } else {
            session_id
        }),
    }
}

/// Picks the session's title, as `chosen_title` says.
pub fn choose_title(requested: Option<String>, session_id: &str) -> (r: String)
    ensures
        r@ == chosen_title(
            match requested {
                Some(t) => Some(t@),
                None => None,
            },
            session_id@,
        ),
{
    match requested {
        Some(t) => t,
        None => {
            let n = session_id.unicode_len();
            let head = if n >= 8 {
                session_id.substring_char(0, 8)
            } else {
                session_id
            };
            proof {
                if n >= 8 {
                    assert(head@ =~= session_id@.take(8));
                }
            }
            String::from_str("Track ").concat(head)
        },
    }
}

/// The message a duplicate submission fails with when the existing session's
/// title is known.
pub fn duplicate_message(title: &str) -> (r: String)
    ensures
        r@ == "This song is already downloaded: \""@ + title@ + "\""@,
{
    String::from_str("This song is already downloaded: \"").concat(title).concat("\"")
}

/// How a tracker map changes when a job is marked failed with message `msg`:
/// the job's record, if it exists, turns terminal with the message; a job id
/// never created changes nothing.
pub open spec fn failed_update(
    pre: Map<Seq<char>, JobView>,
    post: Map<Seq<char>, JobView>,
    id: Seq<char>,
    msg: Seq<char>,
) -> bool {
    if pre.dom().contains(id) {
        post == pre.insert(
            id,
            JobView { state: JobState::Failed, error: Some(msg), ..pre[id] },
        )
    } else {
        post == pre
    }
}

/// Starts the pipeline for one job: the dedup check and the per-key claim,
/// before any collaborator runs. On success the job moves to `downloading`
/// and a fresh session id — the name of the working and output directory —
/// is handed back; the claim on the origin's content key stays held. On a
/// duplicate the job fails with the duplicate condition and nothing is
/// claimed.
pub fn begin_download(
    store: &mut SessionStore,
    tracker: &mut JobTracker,
    job_id: &String,
    origin_url: &String,
) -> (r: Result<String, PipelineError>)
    requires
        old(store).wf(),
        old(tracker).wf(),
    ensures
        final(store).wf(),
        final(tracker).wf(),
        final(store).entries_view() == old(store).entries_view(),
        r is Ok <==> old(store).claim_allowed(origin_url@, key_of(origin_url@)),
        match r {
            Ok(session_id) => {
                &&& session_id@.len() == 36
                &&& (forall|i: int| 0 <= i < 36 ==> (#[trigger] session_id@[i]) != '/')
                &&& final(store).claims_view() == old(store).claims_view().push(
                    key_of(origin_url@),
                )
                &&& final(store).claimed(key_of(origin_url@))
                &&& (if old(tracker).as_map().dom().contains(job_id@) {
                    final(tracker).as_map() == old(tracker).as_map().insert(
                        job_id@,
                        JobView {
                            state: JobState::Downloading,
                            progress: Some(starting_message()),
                            ..old(tracker).as_map()[job_id@]
                        },
                    )
                } else {
                    final(tracker).as_map() == old(tracker).as_map()
                })
            },
            Err(e) => {
                &&& final(store).claims_view() == old(store).claims_view()
                &&& e is DuplicateOrigin
                &&& match e {
                    PipelineError::DuplicateOrigin { existing_title } => {
                        &&& (match existing_title {
                            Some(t) => old(store).has_origin(origin_url@) && (exists|i: int|
                                0 <= i < old(store).entries_view().len() && (#[trigger] old(
                                    store,
                                ).entries_view()[i]).1.origin_url == origin_url@ && old(
                                    store,
                                ).entries_view()[i].1.title == t@),
                            None => !old(store).has_origin(origin_url@),
                        })
                        &&& failed_update(
                            old(tracker).as_map(),
                            final(tracker).as_map(),
                            job_id@,
                            match existing_title {
                                Some(t) => "This song is already downloaded: \""@ + t@ + "\""@,
                                None => "A conversion for this URL is already in progress"@,
                            },
                        )
                    },
                    _ => false,
                }
            },
        },
{
    let key = derive_key(origin_url.as_str());
    let dup_title: Option<String> = match store.find_by_origin(origin_url) {
        Some(s) => Some(s.title.clone()),
        None => None,
    };
    match dup_title {
        Some(title) => {
            let msg = duplicate_message(title.as_str());
            tracker.mark_failed(job_id, msg);
            Err(PipelineError::DuplicateOrigin { existing_title: Some(title) })
        },
        None => {
            if store.try_claim(origin_url, &key) {
                let session_id = fresh_id();
                tracker.mark_downloading(job_id);
                Ok(session_id)
            } else {
                tracker.mark_failed(
                    job_id,
                    String::from_str("A conversion for this URL is already in progress"),
                );
                Err(PipelineError::DuplicateOrigin { existing_title: None })
            }
        },
    }
}

/// Digests the fetch collaborator's outcome: `exit_ok` is whether it exited
/// cleanly, `diagnostics` its captured output, `files` the names now in the
/// job's working directory. On success the first recognizable audio file is
/// chosen and the job moves to `converting`. On a failed exit, or when no
/// audio file is found, the claim on `key` is released and the job fails
/// with the diagnostics captured verbatim.
pub fn download_finished(
    store: &mut SessionStore,
    tracker: &mut JobTracker,
    job_id: &String,
    key: &String,
    exit_ok: bool,
    diagnostics: String,
    files: &Vec<String>,
) -> (r: Result<String, PipelineError>)
    requires
        old(store).wf(),
        old(tracker).wf(),
    ensures
        final(store).wf(),
        final(tracker).wf(),
        final(store).entries_view() == old(store).entries_view(),
        r is Ok <==> exit_ok && (exists|i: int|
            0 <= i < files@.len() && audio_name((#[trigger] files@[i])@)),
        match r {
            Ok(chosen) => {
                &&& (exists|i: int|
                    {
                        &&& 0 <= i < files@.len()
                        &&& chosen@ == (#[trigger] files@[i])@
                        &&& audio_name(files@[i]@)
                        &&& (forall|j: int| 0 <= j < i ==> !audio_name((#[trigger] files@[j])@))
                    })
                &&& final(store).claims_view() == old(store).claims_view()
                &&& (if old(tracker).as_map().dom().contains(job_id@) {
                    final(tracker).as_map() == old(tracker).as_map().insert(
                        job_id@,
                        JobView {
                            state: JobState::Converting,
                            progress: Some(converting_message()),
                            ..old(tracker).as_map()[job_id@]
                        },
                    )
                } else {
                    final(tracker).as_map() == old(tracker).as_map()
                })
            },
            Err(e) => {
                &&& (forall|k: Seq<char>|
                    #[trigger] final(store).claimed(k) <==> old(store).claimed(k) && k != key@)
                &&& match e {
                    PipelineError::CollaboratorFailure { diagnostics: d } => {
                        &&& (if exit_ok {
                            d@ == "Downloaded file not found after the fetch step completed"@
                        } else {
                            d@ == diagnostics@
                        })
                        &&& failed_update(
                            old(tracker).as_map(),
                            final(tracker).as_map(),
                            job_id@,
                            d@,
                        )
                    },
                    _ => false,
                }
            },
        },
{
    if !exit_ok {
        store.release_claim(key);
        tracker.mark_failed(job_id, diagnostics.clone());
        return Err(PipelineError::CollaboratorFailure { diagnostics });
    }
    let n = files.len();
    let mut i: usize = 0;
    while i < n
        invariant
            i <= n,
            n == files@.len(),
            exit_ok,
            *store == *old(store),
            *tracker == *old(tracker),
            old(store).wf(),
            old(tracker).wf(),
            forall|j: int| 0 <= j < i ==> !audio_name((#[trigger] files@[j])@),
        decreases n - i,
    {
        if is_audio_file(files[i].as_str()) {
            proof {
                assert(audio_name(files@[i as int]@));
                assert(exists|j: int|
                    0 <= j < files@.len() && audio_name((#[trigger] files@[j])@));
            }
            let chosen = files[i].clone();
            tracker.mark_converting(job_id);
            return Ok(chosen);
        }
        proof {
            assert(!audio_name(files@[i as int]@));
        }
        i += 1;
    }
    store.release_claim(key);
    let msg = String::from_str("Downloaded file not found after the fetch step completed");
    tracker.mark_failed(job_id, msg.clone());
    Err(PipelineError::CollaboratorFailure { diagnostics: msg })
}

/// The session a successful conversion registers: every field pinned down by
/// the job's inputs and the manifest the transcoder wrote.
pub open spec fn built_session(
    session_id: Seq<char>,
    requested_title: Option<Seq<char>>,
    origin_url: Seq<char>,
    cache_dir: Seq<char>,
    manifest: Seq<u8>,
) -> SessionView {
    SessionView {
        id: session_id,
        title: chosen_title(requested_title, session_id),
        origin_url: origin_url,
        segments_dir: cache_dir + "/"@ + session_id,
        playlist_path: cache_dir + "/"@ + session_id + "/playlist.m3u8"@,
        total_segments: ts_count(manifest) as int,
        segment_duration_seconds: SEGMENT_DURATION_SECONDS as int,
        listen_count: 0,
    }
}

/// Digests the transcode collaborator's outcome for the job that claimed
/// `key`. On a clean exit the manifest is read, the session — its segment
/// count taken from the manifest's media-segment references — is registered
/// under the claimed key as exactly one new cache entry, and the job turns
/// ready with the result's public view. On a failed exit the claim is
/// released and the job fails with the diagnostics captured verbatim. The
/// caller persists the store afterwards.
pub fn register_success(
    store: &mut SessionStore,
    tracker: &mut JobTracker,
    job_id: &String,
    key: String,
    origin_url: &String,
    requested_title: Option<String>,
    session_id: String,
    cache_dir: &String,
    exit_ok: bool,
    diagnostics: String,
    manifest: &Vec<u8>,
) -> (r: Result<JobResult, PipelineError>)
    requires
        old(store).wf(),
        old(tracker).wf(),
        old(store).claimed(key@),
    ensures
        final(store).wf(),
        final(tracker).wf(),
        r is Ok <==> exit_ok,
        match r {
            Ok(result) => {
                &&& result@ == (JobResultView {
                    id: job_id@,
                    title: chosen_title(
                        match requested_title {
                            Some(t) => Some(t@),
                            None => None,
                        },
                        session_id@,
                    ),
                    session_id: session_id@,
                    playlist_url: "/api/hls/"@ + session_id@ + "/playlist.m3u8"@,
                    total_segments: ts_count(manifest@) as int,
                    segment_duration_seconds: SEGMENT_DURATION_SECONDS as int,
                })
                &&& !old(store).as_map().dom().contains(key@)
                &&& final(store).as_map() == old(store).as_map().insert(
                    key@,
                    built_session(
                        session_id@,
                        match requested_title {
                            Some(t) => Some(t@),
                            None => None,
                        },
                        origin_url@,
                        cache_dir@,
                        manifest@,
                    ),
                )
                &&& final(store).as_map().len() == old(store).as_map().len() + 1
                &&& (forall|k: Seq<char>|
                    #[trigger] final(store).claimed(k) <==> old(store).claimed(k) && k != key@)
                &&& (if old(tracker).as_map().dom().contains(job_id@) {
                    final(tracker).as_map() == old(tracker).as_map().insert(
                        job_id@,
                        JobView {
                            state: JobState::Ready,
                            progress: None,
                            result: Some(result@),
                            ..old(tracker).as_map()[job_id@]
                        },
                    )
                } else {
                    final(tracker).as_map() == old(tracker).as_map()
                })
            },
            Err(e) => {
                &&& final(store).entries_view() == old(store).entries_view()
                &&& (forall|k: Seq<char>|
                    #[trigger] final(store).claimed(k) <==> old(store).claimed(k) && k != key@)
                &&& match e {
                    PipelineError::CollaboratorFailure { diagnostics: d } => {
                        &&& d@ == diagnostics@
                        &&& failed_update(
                            old(tracker).as_map(),
                            final(tracker).as_map(),
                            job_id@,
                            d@,
                        )
                    },
                    _ => false,
                }
            },
        },
{
    if !exit_ok {
        store.release_claim(&key);
        tracker.mark_failed(job_id, diagnostics.clone());
        return Err(PipelineError::CollaboratorFailure { diagnostics });
    }
    let total = count_ts_segments(manifest);
    let segments_dir = session_directory(cache_dir.as_str(), session_id.as_str());
    let playlist_path = playlist_path_of(segments_dir.as_str());
    let title = choose_title(requested_title, session_id.as_str());
    let session = Session {
        id: session_id.clone(),
        title: title.clone(),
        origin_url: origin_url.clone(),
        segments_dir,
        playlist_path,
        total_segments: total,
        segment_duration_seconds: SEGMENT_DURATION_SECONDS,
        listen_count: 0,
    };
    store.complete_claim(key, session);
    let result = JobResult {
        id: job_id.clone(),
        title,
        session_id: session_id.clone(),
        playlist_url: playlist_url_of(session_id.as_str()),
        total_segments: total,
        segment_duration_seconds: SEGMENT_DURATION_SECONDS,
    };
    tracker.mark_ready(job_id, result.clone());
    Ok(result)
}

} // verus!
