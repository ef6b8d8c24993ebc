//! The artifact server's resolution logic: turning a session id and a
//! requested file name into the on-disk path to serve, safely. A segment
//! name may never escape its session's own directory; serving a manifest is
//! the designated moment the session's listen counter is incremented.

use crate::pipeline::session_directory;
use crate::session::SessionView;
use crate::store::{listen_recorded, SessionStore};
use vstd::prelude::*;

verus! {

/// How a resolution fails: the session or file has no live artifact, or the
/// requested name tried to escape the session's directory. The two are
/// distinct internally; what a client learns about the underlying path is the
/// caller's concern.
#[derive(Clone, Copy, PartialEq, Eq, Structural, Debug)]
pub enum ServeError {
    NotFound,
    Forbidden,
}

/// A safe segment name: one plain path component — non-empty, free of path
/// separators, and neither `.` nor `..` — so joining it onto the session's
/// directory cannot resolve outside that directory.
pub open spec fn is_safe_segment_name(name: Seq<char>) -> bool {
    &&& name.len() > 0
    &&& name != seq!['.']
    &&& name != seq!['.', '.']
    &&& (forall|i: int| 0 <= i < name.len() ==> (#[trigger] name[i]) != '/' && name[i] != '\\')
}

/// A name with a path separator, and the parent-directory name itself, are
/// never safe: exactly the shapes a path-traversal request needs.
pub proof fn lemma_traversal_names_rejected(name: Seq<char>)
    requires
        (exists|i: int| 0 <= i < name.len() && ((#[trigger] name[i]) == '/' || name[i] == '\\'))
            || name == seq!['.', '.'],
    ensures
        !is_safe_segment_name(name),
{
}

/// Decides `is_safe_segment_name` for a requested name.
fn name_is_safe(name: &str) -> (r: bool)
    ensures
        r == is_safe_segment_name(name@),
{
    let n = name.unicode_len();
    if n == 0 {
        return false;
    }
    let mut i: usize = 0;
    while i < n
        invariant
            i <= n,
            n == name@.len(),
            forall|j: int| 0 <= j < i ==> (#[trigger] name@[j]) != '/' && name@[j] != '\\',
        decreases n - i,
    {
        let c = name.get_char(i);
        if c == '/' || c == '\\' {
            return false;
        }
        i += 1;
    }
    if n == 1 && name.get_char(0) == '.' {
        proof {
            assert(name@ =~= seq!['.']);
        }
        return false;
    }
    if n == 2 && name.get_char(0) == '.' && name.get_char(1) == '.' {
        proof {
            assert(name@ =~= seq!['.', '.']);
        }
        return false;
    }
    proof {
        if name@ == seq!['.'] {
            assert(name@.len() == 1 && name@[0] == '.');
        }
        if name@ == seq!['.', '.'] {
            assert(name@.len() == 2 && name@[0] == '.' && name@[1] == '.');
        }
    }
    true
}

/// Resolves a manifest request: the path of the manifest of some session
/// with the requested id, or `NotFound` when no live session has it. Success
/// is also the moment the session's listen counter is incremented; the
/// caller persists that change best-effort and reads the file itself —
/// an unreadable file on disk becomes `NotFound` there.
pub fn playlist_request(store: &mut SessionStore, session_id: &String) -> (r: Result<
    String,
    ServeError,
>)
    requires
        old(store).wf(),
    ensures
        final(store).wf(),
        final(store).claims_view() == old(store).claims_view(),
        r is Ok <==> old(store).has_session_id(session_id@),
        match r {
            Ok(path) => {
                &&& listen_recorded(
                    old(store).entries_view(),
                    final(store).entries_view(),
                    session_id@,
                )
                &&& (exists|i: int|
                    {
                        &&& 0 <= i < final(store).entries_view().len()
                        &&& (#[trigger] final(store).entries_view()[i]).1.id == session_id@
                        &&& path@ == final(store).entries_view()[i].1.playlist_path
                    })
            },
            Err(e) => {
                &&& e == ServeError::NotFound
                &&& final(store).entries_view() == old(store).entries_view()
            },
        },
{
    let found = store.record_listen(session_id);
    if !found {
        return Err(ServeError::NotFound);
    }
    proof {
        let i = choose|i: int|
            {
                &&& 0 <= i < old(store).entries_view().len()
                &&& (#[trigger] old(store).entries_view()[i]).1.id == session_id@
                &&& store.entries_view() == old(store).entries_view().update(
                    i,
                    (
                        old(store).entries_view()[i].0,
                        SessionView {
                            listen_count: if old(store).entries_view()[i].1.listen_count
                                < u64::MAX {
                                old(store).entries_view()[i].1.listen_count + 1
                            } else {
                                u64::MAX as int
                            },
                            ..old(store).entries_view()[i].1
                        },
                    ),
                )
            };
        assert(store.entries_view()[i].1.id == session_id@);
    }
    match store.find_by_session_id(session_id) {
        Some(s) => Ok(s.playlist_path.clone()),
        None => Err(ServeError::NotFound),
    }
}

/// Resolves a segment request: `NotFound` when no live session has the id;
/// `Forbidden` when the session exists but the requested name is no safe
/// segment name — never the path; otherwise the name joined onto the
/// session's own segment directory.
pub fn segment_request(store: &SessionStore, session_id: &String, segment_name: &String) -> (r:
    Result<String, ServeError>)
    ensures
        r is Ok <==> store.has_session_id(session_id@) && is_safe_segment_name(segment_name@),
        match r {
            Ok(path) => {
                &&& is_safe_segment_name(segment_name@)
                &&& (exists|i: int|
                    {
                        &&& 0 <= i < store.entries_view().len()
                        &&& (#[trigger] store.entries_view()[i]).1.id == session_id@
                        &&& path@ == store.entries_view()[i].1.segments_dir + "/"@
                            + segment_name@
                    })
            },
            Err(e) => {
                &&& (e == ServeError::NotFound <==> !store.has_session_id(session_id@))
                &&& (e == ServeError::Forbidden <==> store.has_session_id(session_id@)
                    && !is_safe_segment_name(segment_name@))
            },
        },
{
    match store.find_by_session_id(session_id) {
        Some(s) => {
            if !name_is_safe(segment_name.as_str()) {
                Err(ServeError::Forbidden)
            } else {
                Ok(session_directory(s.segments_dir.as_str(), segment_name.as_str()))
            }
        },
        None => Err(ServeError::NotFound),
    }
}

} // verus!
