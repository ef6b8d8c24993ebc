//! The session record: one completed, servable conversion result, and the
//! ledger row that persists it.

use vstd::prelude::*;

verus! {

/// A completed conversion: a manifest plus numbered segment files in a
/// directory owned exclusively by this session.
pub struct Session {
    /// Opaque unique identifier, used in URLs and directory names.
    pub id: String,
    /// Display name, user-supplied or derived.
    pub title: String,
    /// The URL the source was fetched from; used for dedup lookups.
    pub origin_url: String,
    /// Directory holding the media segments.
    pub segments_dir: String,
    /// Path of the manifest file.
    pub playlist_path: String,
    /// Number of media-segment references in the manifest at creation time.
    pub total_segments: usize,
    /// Target segment duration handed to the transcoder, in seconds.
    pub segment_duration_seconds: u32,
    /// How often the manifest has been served.
    pub listen_count: u64,
}

/// The mathematical value of a `Session`.
pub struct SessionView {
    pub id: Seq<char>,
    pub title: Seq<char>,
    pub origin_url: Seq<char>,
    pub segments_dir: Seq<char>,
    pub playlist_path: Seq<char>,
    pub total_segments: int,
    pub segment_duration_seconds: int,
    pub listen_count: int,
}

impl View for Session {
    type V = SessionView;

    open spec fn view(&self) -> SessionView {
        SessionView {
            id: self.id@,
            title: self.title@,
            origin_url: self.origin_url@,
            segments_dir: self.segments_dir@,
            playlist_path: self.playlist_path@,
            total_segments: self.total_segments as int,
            segment_duration_seconds: self.segment_duration_seconds as int,
            listen_count: self.listen_count as int,
        }
    }
}

impl Clone for Session {
    fn clone(&self) -> (r: Session)
        ensures
            r == *self,
    {
        Session {
            id: self.id.clone(),
            title: self.title.clone(),
            origin_url: self.origin_url.clone(),
            segments_dir: self.segments_dir.clone(),
            playlist_path: self.playlist_path.clone(),
            total_segments: self.total_segments,
            segment_duration_seconds: self.segment_duration_seconds,
            listen_count: self.listen_count,
        }
    }
}

/// One row of the durable ledger: a content key together with every field of
/// the session it records.
pub struct LedgerRecord {
    /// The content key the session is filed under.
    pub file_hash: String,
    pub session_id: String,
    pub title: String,
    pub origin_url: String,
    pub segments_dir: String,
    pub playlist_path: String,
    pub total_segments: usize,
    pub segment_duration_seconds: u32,
    pub listen_count: u64,
}

/// The mathematical value of a `LedgerRecord`.
pub struct RecordView {
    pub file_hash: Seq<char>,
    pub session_id: Seq<char>,
    pub title: Seq<char>,
    pub origin_url: Seq<char>,
    pub segments_dir: Seq<char>,
    pub playlist_path: Seq<char>,
    pub total_segments: int,
    pub segment_duration_seconds: int,
    pub listen_count: int,
}

impl View for LedgerRecord {
    type V = RecordView;

    open spec fn view(&self) -> RecordView {
        RecordView {
            file_hash: self.file_hash@,
            session_id: self.session_id@,
            title: self.title@,
            origin_url: self.origin_url@,
            segments_dir: self.segments_dir@,
            playlist_path: self.playlist_path@,
            total_segments: self.total_segments as int,
            segment_duration_seconds: self.segment_duration_seconds as int,
            listen_count: self.listen_count as int,
        }
    }
}

/// The ledger row that records session `s` under content key `key`.
pub open spec fn record_of(key: Seq<char>, s: SessionView) -> RecordView {
    RecordView {
        file_hash: key,
        session_id: s.id,
        title: s.title,
        origin_url: s.origin_url,
        segments_dir: s.segments_dir,
        playlist_path: s.playlist_path,
        total_segments: s.total_segments,
        segment_duration_seconds: s.segment_duration_seconds,
        listen_count: s.listen_count,
    }
}

/// The session a ledger row reconstructs to.
pub open spec fn session_of(r: RecordView) -> SessionView {
    SessionView {
        id: r.session_id,
        title: r.title,
        origin_url: r.origin_url,
        segments_dir: r.segments_dir,
        playlist_path: r.playlist_path,
        total_segments: r.total_segments,
        segment_duration_seconds: r.segment_duration_seconds,
        listen_count: r.listen_count,
    }
}

/// Writing a session to a ledger row and reading it back loses nothing: every
/// field survives, and the row carries the key it was filed under.
pub proof fn lemma_record_round_trip(key: Seq<char>, s: SessionView)
    ensures
        session_of(record_of(key, s)) == s,
        record_of(key, s).file_hash == key,
{
}

impl Session {
    /// The ledger row recording this session under `file_hash`.
    pub fn to_record(&self, file_hash: String) -> (r: LedgerRecord)
        ensures
            r@ == record_of(file_hash@, self@),
    {
        LedgerRecord {
            file_hash,
            session_id: self.id.clone(),
            title: self.title.clone(),
            origin_url: self.origin_url.clone(),
            segments_dir: self.segments_dir.clone(),
            playlist_path: self.playlist_path.clone(),
            total_segments: self.total_segments,
            segment_duration_seconds: self.segment_duration_seconds,
            listen_count: self.listen_count,
        }
    }
}

impl LedgerRecord {
    /// The content key and session this ledger row reconstructs to.
    pub fn to_entry(&self) -> (r: (String, Session))
        ensures
            r.0@ == self@.file_hash,
            r.1@ == session_of(self@),
    {
        (
            self.file_hash.clone(),
            Session {
                id: self.session_id.clone(),
                title: self.title.clone(),
                origin_url: self.origin_url.clone(),
                segments_dir: self.segments_dir.clone(),
                playlist_path: self.playlist_path.clone(),
                total_segments: self.total_segments,
                segment_duration_seconds: self.segment_duration_seconds,
                listen_count: self.listen_count,
            },
        )
    }
}

} // verus!
