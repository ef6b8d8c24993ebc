//! The session cache: the authoritative in-memory map from content key to
//! completed session, the per-key claims that close the dedup race, and the
//! translation to and from the durable ledger.

use crate::kvmap::{distinct_keys, has_key, lemma_map_of_contains, lemma_map_of_index,
    lemma_map_of_len, lemma_map_of_push, lemma_map_of_remove, lemma_map_of_update, map_of};
use crate::session::{record_of, session_of, LedgerRecord, RecordView, Session, SessionView};
use vstd::prelude::*;

verus! {

/// The in-memory session cache. `entries` maps each content key to at most
/// one session; `claims` holds the content keys of conversions that are in
/// flight but not yet registered, so a second request for the same origin is
/// rejected deterministically instead of racing.
pub struct SessionStore {
    entries: Vec<(String, Session)>,
    claims: Vec<String>,
}

impl SessionStore {
    /// The cache's entries as (content key, session) values, in order.
    pub closed spec fn entries_view(self) -> Seq<(Seq<char>, SessionView)> {
        self.entries@.map_values(|p: (String, Session)| (p.0@, p.1@))
    }

    /// The content keys currently claimed by in-flight conversions.
    pub closed spec fn claims_view(self) -> Seq<Seq<char>> {
        self.claims@.map_values(|c: String| c@)
    }

    /// The map the cache denotes: content key to session.
    pub open spec fn as_map(self) -> Map<Seq<char>, SessionView> {
        map_of(self.entries_view())
    }

    /// Whether `key` is claimed by an in-flight conversion.
    pub open spec fn claimed(self, key: Seq<char>) -> bool {
        self.claims_view().contains(key)
    }

    /// Whether some cached session was sourced from `origin`.
    pub open spec fn has_origin(self, origin: Seq<char>) -> bool {
        exists|i: int|
            0 <= i < self.entries_view().len() && (#[trigger] self.entries_view()[i]).1.origin_url
                == origin
    }

    /// Well-formedness: at most one entry per content key, no claim recorded
    /// twice, and no claim for a key that already has an entry.
    pub open spec fn wf(self) -> bool {
        &&& distinct_keys(self.entries_view())
        &&& (forall|i: int, j: int|
            0 <= i < j < self.claims_view().len() ==> self.claims_view()[i]
                != self.claims_view()[j])
        &&& (forall|i: int|
            0 <= i < self.claims_view().len() ==> !has_key(
                self.entries_view(),
                #[trigger] self.claims_view()[i],
            ))
    }

    /// An empty cache: no sessions, no claims.
    pub fn new() -> (r: SessionStore)
        ensures
            r.wf(),
            r.as_map() == Map::<Seq<char>, SessionView>::empty(),
            r.entries_view() == Seq::<(Seq<char>, SessionView)>::empty(),
            r.claims_view() == Seq::<Seq<char>>::empty(),
    {
        let r = SessionStore { entries: Vec::new(), claims: Vec::new() };
        proof {
            assert(r.entries_view() =~= Seq::<(Seq<char>, SessionView)>::empty());
            assert(r.claims_view() =~= Seq::<Seq<char>>::empty());
        }
        r
    }

    /// How many sessions are cached.
    pub fn len(&self) -> (r: usize)
        ensures
            r == self.entries_view().len(),
            self.wf() ==> r == self.as_map().len(),
    {
        proof {
            if self.wf() {
                lemma_map_of_len(self.entries_view());
            }
        }
        self.entries.len()
    }

    /// The position of the entry filed under `key`, if one exists.
    fn find_index(&self, key: &String) -> (r: Option<usize>)
        ensures
            match r {
                Some(i) => i < self.entries_view().len() && self.entries_view()[i as int].0
                    == key@,
                None => !has_key(self.entries_view(), key@),
            },
    {
        let n = self.entries.len();
        let mut i: usize = 0;
        while i < n
            invariant
                n == self.entries_view().len(),
                i <= n,
                forall|j: int| 0 <= j < i ==> (#[trigger] self.entries_view()[j]).0 != key@,
            decreases n - i,
        {
            if self.entries[i].0 == *key {
                assert(self.entries_view()[i as int].0 == key@);
                return Some(i);
            }
            assert(self.entries_view()[i as int].0 != key@);
            i += 1;
        }
        None
    }

    /// Whether an entry is filed under `key`.
    pub fn contains_key(&self, key: &String) -> (r: bool)
        requires
            self.wf(),
        ensures
            r == self.as_map().dom().contains(key@),
    {
        proof {
            lemma_map_of_contains(self.entries_view(), key@);
        }
        self.find_index(key).is_some()
    }

    /// The session filed under `key`, if any.
    pub fn get(&self, key: &String) -> (r: Option<&Session>)
        requires
            self.wf(),
        ensures
            match r {
                Some(s) => self.as_map().dom().contains(key@) && s@ == self.as_map()[key@],
                None => !self.as_map().dom().contains(key@),
            },
    {
        proof {
            lemma_map_of_contains(self.entries_view(), key@);
        }
        match self.find_index(key) {
            Some(i) => {
                proof {
                    lemma_map_of_index(self.entries_view(), i as int);
                }
                Some(&self.entries[i].1)
            },
            None => None,
        }
    }

    /// The first cached session sourced from `origin`, if any; used for dedup
    /// before any conversion work starts.
    pub fn find_by_origin(&self, origin: &String) -> (r: Option<&Session>)
        ensures
            match r {
                Some(s) => self.has_origin(origin@) && s@.origin_url == origin@ && (exists|i: int|
                    0 <= i < self.entries_view().len() && (#[trigger] self.entries_view()[i]).1
                        == s@),
                None => !self.has_origin(origin@),
            },
    {
        let n = self.entries.len();
        let mut i: usize = 0;
        while i < n
            invariant
                n == self.entries_view().len(),
                i <= n,
                forall|j: int|
                    0 <= j < i ==> (#[trigger] self.entries_view()[j]).1.origin_url != origin@,
            decreases n - i,
        {
            if self.entries[i].1.origin_url == *origin {
                assert(self.entries_view()[i as int].1.origin_url == origin@);
                return Some(&self.entries[i].1);
            }
            assert(self.entries_view()[i as int].1.origin_url != origin@);
            i += 1;
        }
        None
    }

    /// Whether some cached session has this session id.
    pub open spec fn has_session_id(self, id: Seq<char>) -> bool {
        exists|i: int|
            0 <= i < self.entries_view().len() && (#[trigger] self.entries_view()[i]).1.id == id
    }

    /// The position of the first entry whose session carries `id`.
    fn find_session_index(&self, id: &String) -> (r: Option<usize>)
        ensures
            match r {
                Some(i) => i < self.entries_view().len() && self.entries_view()[i as int].1.id
                    == id@,
                None => !self.has_session_id(id@),
            },
    {
        let n = self.entries.len();
        let mut i: usize = 0;
        while i < n
            invariant
                n == self.entries_view().len(),
                i <= n,
                forall|j: int| 0 <= j < i ==> (#[trigger] self.entries_view()[j]).1.id != id@,
            decreases n - i,
        {
            if self.entries[i].1.id == *id {
                assert(self.entries_view()[i as int].1.id == id@);
                return Some(i);
            }
            assert(self.entries_view()[i as int].1.id != id@);
            i += 1;
        }
        None
    }

    /// The first cached session with this session id, if any.
    pub fn find_by_session_id(&self, id: &String) -> (r: Option<&Session>)
        ensures
            match r {
                Some(s) => self.has_session_id(id@) && s@.id == id@ && (exists|i: int|
                    0 <= i < self.entries_view().len() && (#[trigger] self.entries_view()[i]).1
                        == s@),
                None => !self.has_session_id(id@),
            },
    {
        match self.find_session_index(id) {
            Some(i) => Some(&self.entries[i].1),
            None => None,
        }
    }

    /// A read-only snapshot of every entry, in order.
    pub fn list_all(&self) -> (r: Vec<(String, Session)>)
        ensures
            r@.len() == self.entries_view().len(),
            forall|i: int|
                0 <= i < r@.len() ==> ((#[trigger] r@[i]).0@, r@[i].1@) == self.entries_view()[i],
    {
        let n = self.entries.len();
        let mut r: Vec<(String, Session)> = Vec::new();
        let mut i: usize = 0;
        while i < n
            invariant
                n == self.entries_view().len(),
                i <= n,
                r@.len() == i,
                forall|j: int|
                    0 <= j < i ==> ((#[trigger] r@[j]).0@, r@[j].1@) == self.entries_view()[j],
            decreases n - i,
        {
            let p = &self.entries[i];
            r.push((p.0.clone(), p.1.clone()));
            i += 1;
        }
        r
    }
}

impl SessionStore {
    /// Whether a conversion for `origin` may claim `key`: no cached session
    /// has that origin, no entry is filed under the key, and no in-flight
    /// conversion holds it.
    pub open spec fn claim_allowed(self, origin: Seq<char>, key: Seq<char>) -> bool {
        &&& !self.has_origin(origin)
        &&& !has_key(self.entries_view(), key)
        &&& !self.claimed(key)
    }

    /// The position of `key` among the claims, if it is claimed.
    fn find_claim_index(&self, key: &String) -> (r: Option<usize>)
        ensures
            match r {
                Some(i) => i < self.claims_view().len() && self.claims_view()[i as int] == key@,
                None => !self.claimed(key@),
            },
    {
        let n = self.claims.len();
        let mut i: usize = 0;
        while i < n
            invariant
                n == self.claims_view().len(),
                i <= n,
                forall|j: int| 0 <= j < i ==> (#[trigger] self.claims_view()[j]) != key@,
            decreases n - i,
        {
            if self.claims[i] == *key {
                assert(self.claims_view()[i as int] == key@);
                return Some(i);
            }
            assert(self.claims_view()[i as int] != key@);
            i += 1;
        }
        None
    }

    /// Whether an in-flight conversion currently holds the claim on `key`.
    pub fn is_claimed(&self, key: &String) -> (r: bool)
        ensures
            r == self.claimed(key@),
    {
        match self.find_claim_index(key) {
            Some(i) => {
                proof {
                    assert(self.claims_view()[i as int] == key@);
                }
                true
            },
            None => false,
        }
    }

    /// Claims `key` for a conversion of `origin` if the claim is allowed;
    /// otherwise changes nothing. A successful claim is exactly what entitles
    /// a job to register a session under the key later.
    pub fn try_claim(&mut self, origin_url: &String, key: &String) -> (r: bool)
        requires
            old(self).wf(),
        ensures
            final(self).wf(),
            r == old(self).claim_allowed(origin_url@, key@),
            final(self).entries_view() == old(self).entries_view(),
            r ==> final(self).claims_view() == old(self).claims_view().push(key@),
            r ==> final(self).claimed(key@),
            !r ==> final(self).claims_view() == old(self).claims_view(),
    {
        if self.find_by_origin(origin_url).is_some() {
            return false;
        }
        if self.find_index(key).is_some() {
            return false;
        }
        if self.find_claim_index(key).is_some() {
            return false;
        }
        let ghost pre = *self;
        self.claims.push(key.clone());
        proof {
            assert(self.claims_view() =~= pre.claims_view().push(key@));
            assert(self.entries_view() =~= pre.entries_view());
            assert(self.claims_view().last() == key@);
        }
        true
    }

    /// Releases the claim on `key` if one is held; entries are untouched.
    /// A failed conversion calls this so the origin can be retried.
    pub fn release_claim(&mut self, key: &String)
        requires
            old(self).wf(),
        ensures
            final(self).wf(),
            final(self).entries_view() == old(self).entries_view(),
            forall|k: Seq<char>|
                #[trigger] final(self).claimed(k) <==> old(self).claimed(k) && k != key@,
            !old(self).claimed(key@) ==> final(self).claims_view() == old(self).claims_view(),
    {
        let ghost pre = *self;
        match self.find_claim_index(key) {
            Some(i) => {
                self.claims.remove(i);
                proof {
                    assert(self.claims_view() =~= pre.claims_view().remove(i as int));
                    assert(self.entries_view() =~= pre.entries_view());
                    assert forall|k: Seq<char>| #[trigger]
                        self.claimed(k) <==> pre.claimed(k) && k != key@ by {
                        if self.claimed(k) {
                            let j = choose|j: int|
                                0 <= j < self.claims_view().len() && self.claims_view()[j] == k;
                            let j0 = if j < i { j } else { j + 1 };
                            assert(pre.claims_view()[j0] == k);
                            assert(j0 != i);
                        }
                        if pre.claimed(k) && k != key@ {
                            let j = choose|j: int|
                                0 <= j < pre.claims_view().len() && pre.claims_view()[j] == k;
                            let j1 = if j < i { j } else { j - 1 };
                            assert(self.claims_view()[j1] == k);
                        }
                    }
                }
            },
            None => {
                proof {
                    assert forall|k: Seq<char>| #[trigger]
                        self.claimed(k) <==> pre.claimed(k) && k != key@ by {}
                }
            },
        }
    }

    /// Registers a finished conversion under the key its job claimed: the
    /// claim is released and the session is filed under `key`, which — by the
    /// claim discipline — had no entry before, so the cache grows by exactly
    /// one session.
    pub fn complete_claim(&mut self, key: String, session: Session)
        requires
            old(self).wf(),
            old(self).claimed(key@),
        ensures
            final(self).wf(),
            !old(self).as_map().dom().contains(key@),
            final(self).as_map() == old(self).as_map().insert(key@, session@),
            final(self).as_map().len() == old(self).as_map().len() + 1,
            final(self).entries_view() == old(self).entries_view().push((key@, session@)),
            forall|k: Seq<char>|
                #[trigger] final(self).claimed(k) <==> old(self).claimed(k) && k != key@,
    {
        proof {
            let j = choose|j: int|
                0 <= j < old(self).claims_view().len() && old(self).claims_view()[j] == key@;
            assert(!has_key(old(self).entries_view(), key@));
            lemma_map_of_contains(old(self).entries_view(), key@);
            lemma_map_of_len(old(self).entries_view());
        }
        self.release_claim(&key);
        let ghost mid = *self;
        self.entries.push((key, session));
        proof {
            assert(self.entries_view() =~= mid.entries_view().push((key@, session@)));
            assert(self.claims_view() =~= mid.claims_view());
            lemma_map_of_push(mid.entries_view(), key@, session@);
            lemma_map_of_len(self.entries_view());
            assert forall|k: Seq<char>| #[trigger]
                self.claimed(k) <==> old(self).claimed(k) && k != key@ by {
                assert(self.claimed(k) == mid.claimed(k));
            }
            assert forall|i: int, j: int|
                0 <= i < j < self.entries_view().len() implies (#[trigger] self.entries_view()[i]).0
                != (#[trigger] self.entries_view()[j]).0 by {
                if j == self.entries_view().len() - 1 {
                    assert(self.entries_view()[i] == mid.entries_view()[i]);
                }
            }
            assert forall|i: int|
                0 <= i < self.claims_view().len() implies !has_key(
                self.entries_view(),
                #[trigger] self.claims_view()[i],
            ) by {
                let k = self.claims_view()[i];
                assert(mid.claims_view()[i] == k);
                assert(mid.claimed(k));
                if has_key(self.entries_view(), k) {
                    let j = choose|j: int|
                        0 <= j < self.entries_view().len() && (#[trigger] self.entries_view()[j]).0
                            == k;
                    if j < self.entries_view().len() - 1 {
                        assert(mid.entries_view()[j].0 == k);
                        assert(has_key(mid.entries_view(), k));
                        assert(false);
                    } else {
                        assert(k == key@);
                        assert(false);
                    }
                }
            }
        }
    }

    /// Files `session` under `key`, replacing any entry already there and
    /// dropping any claim on the key.
    pub fn insert(&mut self, key: String, session: Session)
        requires
            old(self).wf(),
        ensures
            final(self).wf(),
            final(self).as_map() == old(self).as_map().insert(key@, session@),
            forall|k: Seq<char>|
                #[trigger] final(self).claimed(k) <==> old(self).claimed(k) && k != key@,
            !old(self).claimed(key@) ==> final(self).claims_view() == old(self).claims_view(),
    {
        self.release_claim(&key);
        let ghost mid = *self;
        match self.find_index(&key) {
            Some(i) => {
                proof {
                    lemma_map_of_update(mid.entries_view(), i as int, session@);
                }
                self.entries[i] = (key, session);
                proof {
                    assert(self.entries_view() =~= mid.entries_view().update(
                        i as int,
                        (mid.entries_view()[i as int].0, session@),
                    ));
                    assert(self.claims_view() =~= mid.claims_view());
                    assert forall|k: Seq<char>| #[trigger]
                        self.claimed(k) <==> old(self).claimed(k) && k != key@ by {
                        assert(self.claimed(k) == mid.claimed(k));
                    }
                    assert forall|a: int, b: int|
                        0 <= a < b < self.entries_view().len() implies (
                    #[trigger] self.entries_view()[a]).0 != (#[trigger] self.entries_view()[b]).0 by {
                        assert(mid.entries_view()[a].0 == self.entries_view()[a].0);
                        assert(mid.entries_view()[b].0 == self.entries_view()[b].0);
                    }
                    assert forall|a: int|
                        0 <= a < self.claims_view().len() implies !has_key(
                        self.entries_view(),
                        #[trigger] self.claims_view()[a],
                    ) by {
                        let k = self.claims_view()[a];
                        assert(mid.claims_view()[a] == k);
                        assert(mid.claimed(k));
                        if has_key(self.entries_view(), k) {
                            let j = choose|j: int|
                                0 <= j < self.entries_view().len() && (
                                #[trigger] self.entries_view()[j]).0 == k;
                            assert(mid.entries_view()[j].0 == k);
                            assert(has_key(mid.entries_view(), k));
                            assert(false);
                        }
                    }
                }
            },
            None => {
                self.entries.push((key, session));
                proof {
                    assert(self.entries_view() =~= mid.entries_view().push((key@, session@)));
                    assert(self.claims_view() =~= mid.claims_view());
                    lemma_map_of_push(mid.entries_view(), key@, session@);
                    assert forall|k: Seq<char>| #[trigger]
                        self.claimed(k) <==> old(self).claimed(k) && k != key@ by {
                        assert(self.claimed(k) == mid.claimed(k));
                    }
                    assert forall|a: int, b: int|
                        0 <= a < b < self.entries_view().len() implies (
                    #[trigger] self.entries_view()[a]).0 != (#[trigger] self.entries_view()[b]).0 by {
                        if b == self.entries_view().len() - 1 {
                            assert(self.entries_view()[a] == mid.entries_view()[a]);
                            assert(!has_key(mid.entries_view(), key@));
                        }
                    }
                    assert forall|a: int|
                        0 <= a < self.claims_view().len() implies !has_key(
                        self.entries_view(),
                        #[trigger] self.claims_view()[a],
                    ) by {
                        let k = self.claims_view()[a];
                        assert(mid.claims_view()[a] == k);
                        assert(mid.claimed(k));
                        if has_key(self.entries_view(), k) {
                            let j = choose|j: int|
                                0 <= j < self.entries_view().len() && (
                                #[trigger] self.entries_view()[j]).0 == k;
                            if j < self.entries_view().len() - 1 {
                                assert(mid.entries_view()[j].0 == k);
                                assert(has_key(mid.entries_view(), k));
                                assert(false);
                            } else {
                                assert(k == key@);
                                assert(false);
                            }
                        }
                    }
                }
            },
        }
    }

    /// Removes the entry filed under `key` and hands its session back, so the
    /// caller can delete the artifacts it owns. Claims are untouched.
    pub fn remove(&mut self, key: &String) -> (r: Option<Session>)
        requires
            old(self).wf(),
        ensures
            final(self).wf(),
            final(self).claims_view() == old(self).claims_view(),
            match r {
                Some(s) => old(self).as_map().dom().contains(key@) && s@ == old(
                    self,
                ).as_map()[key@] && final(self).as_map() == old(self).as_map().remove(key@),
                None => !old(self).as_map().dom().contains(key@) && final(self).as_map() == old(
                    self,
                ).as_map(),
            },
    {
        proof {
            lemma_map_of_contains(self.entries_view(), key@);
        }
        let ghost pre = *self;
        match self.find_index(key) {
            Some(i) => {
                proof {
                    lemma_map_of_index(pre.entries_view(), i as int);
                    lemma_map_of_remove(pre.entries_view(), i as int);
                }
                let (_k, s) = self.entries.remove(i);
                proof {
                    assert(self.entries_view() =~= pre.entries_view().remove(i as int));
                    assert(self.claims_view() =~= pre.claims_view());
                    assert forall|a: int, b: int|
                        0 <= a < b < self.entries_view().len() implies (
                    #[trigger] self.entries_view()[a]).0 != (#[trigger] self.entries_view()[b]).0 by {
                        let a0 = if a < i { a } else { a + 1 };
                        let b0 = if b < i { b } else { b + 1 };
                        assert(self.entries_view()[a] == pre.entries_view()[a0]);
                        assert(self.entries_view()[b] == pre.entries_view()[b0]);
                    }
                    assert forall|a: int|
                        0 <= a < self.claims_view().len() implies !has_key(
                        self.entries_view(),
                        #[trigger] self.claims_view()[a],
                    ) by {
                        if has_key(self.entries_view(), self.claims_view()[a]) {
                            let j = choose|j: int|
                                0 <= j < self.entries_view().len() && (
                                #[trigger] self.entries_view()[j]).0 == self.claims_view()[a];
                            let j0 = if j < i { j } else { j + 1 };
                            assert(pre.entries_view()[j0].0 == self.claims_view()[a]);
                            assert(has_key(pre.entries_view(), self.claims_view()[a]));
                        }
                    }
                }
                Some(s)
            },
            None => None,
        }
    }

    /// Increments the listen counter of the first session with this session
    /// id (saturating at the counter's maximum) and reports whether one was
    /// found. Every other field and every other entry is unchanged.
    pub fn record_listen(&mut self, session_id: &String) -> (found: bool)
        requires
            old(self).wf(),
        ensures
            final(self).wf(),
            final(self).claims_view() == old(self).claims_view(),
            found == old(self).has_session_id(session_id@),
            !found ==> final(self).entries_view() == old(self).entries_view(),
            found ==> listen_recorded(
                old(self).entries_view(),
                final(self).entries_view(),
                session_id@,
            ),
    {
        let ghost pre = *self;
        match self.find_session_index(session_id) {
            Some(i) => {
                let c = self.entries[i].1.listen_count;
                self.entries[i].1.listen_count = if c < u64::MAX {
                    c + 1
                } else {
                    c
                };
                proof {
                    let iv = i as int;
                    let updated = SessionView {
                        listen_count: if pre.entries_view()[iv].1.listen_count < u64::MAX {
                            pre.entries_view()[iv].1.listen_count + 1
                        } else {
                            u64::MAX as int
                        },
                        ..pre.entries_view()[iv].1
                    };
                    assert(self.entries_view() =~= pre.entries_view().update(
                        iv,
                        (pre.entries_view()[iv].0, updated),
                    ));
                    assert(self.claims_view() =~= pre.claims_view());
                    assert forall|a: int, b: int|
                        0 <= a < b < self.entries_view().len() implies (
                    #[trigger] self.entries_view()[a]).0 != (#[trigger] self.entries_view()[b]).0 by {
                        assert(pre.entries_view()[a].0 == self.entries_view()[a].0);
                        assert(pre.entries_view()[b].0 == self.entries_view()[b].0);
                    }
                    assert forall|a: int|
                        0 <= a < self.claims_view().len() implies !has_key(
                        self.entries_view(),
                        #[trigger] self.claims_view()[a],
                    ) by {
                        if has_key(self.entries_view(), self.claims_view()[a]) {
                            let j = choose|j: int|
                                0 <= j < self.entries_view().len() && (
                                #[trigger] self.entries_view()[j]).0 == self.claims_view()[a];
                            assert(pre.entries_view()[j].0 == self.claims_view()[a]);
                            assert(has_key(pre.entries_view(), self.claims_view()[a]));
                        }
                    }
                }
                true
            },
            None => false,
        }
    }
}

/// How serving a manifest changes the cache's entries: some entry whose
/// session has the requested id keeps every field and every neighbour, and
/// its listen counter grows by one (saturating at the counter's maximum).
pub open spec fn listen_recorded(
    pre: Seq<(Seq<char>, SessionView)>,
    post: Seq<(Seq<char>, SessionView)>,
    id: Seq<char>,
) -> bool {
    exists|i: int|
        {
            &&& 0 <= i < pre.len()
            &&& (#[trigger] pre[i]).1.id == id
            &&& post == pre.update(
                i,
                (
                    pre[i].0,
                    SessionView {
                        listen_count: if pre[i].1.listen_count < u64::MAX {
                            pre[i].1.listen_count + 1
                        } else {
                            u64::MAX as int
                        },
                        ..pre[i].1
                    },
                ),
            )
        }
}

/// Once a conversion holds the claim on a content key, a second conversion
/// asking for the same key — in particular, one for the same origin URL
/// submitted concurrently — is rejected until the first completes or
/// releases it. So at most one of two racing submissions can ever register
/// a session.
pub proof fn lemma_second_claim_rejected(s: SessionStore, origin: Seq<char>, key: Seq<char>)
    requires
        s.claimed(key),
    ensures
        !s.claim_allowed(origin, key),
{
}

/// The ledger rows that persist a cache: one per entry, in entry order.
pub open spec fn records_of(entries: Seq<(Seq<char>, SessionView)>) -> Seq<RecordView> {
    entries.map_values(|p: (Seq<char>, SessionView)| record_of(p.0, p.1))
}

/// The views of a sequence of ledger rows.
pub open spec fn record_views(records: Seq<LedgerRecord>) -> Seq<RecordView> {
    records.map_values(|r: LedgerRecord| r@)
}

/// The map a ledger reconstructs to, where `present` says of each row whether
/// its segment directory and manifest still exist on disk. A row whose
/// artifacts are missing is dropped — orphaned metadata, not an error — and a
/// later row for a key shadows an earlier one.
pub open spec fn load_map(rows: Seq<RecordView>, present: Seq<bool>) -> Map<Seq<char>, SessionView>
    recommends
        rows.len() == present.len(),
    decreases rows.len(),
{
    if rows.len() == 0 {
        Map::empty()
    } else {
        let m = load_map(rows.drop_last(), present.drop_last());
        if present[rows.len() - 1] {
            m.insert(rows.last().file_hash, session_of(rows.last()))
        } else {
            m
        }
    }
}

/// A loaded key is exactly one that some row carries with its artifacts still
/// on disk.
pub proof fn lemma_load_map_contains(rows: Seq<RecordView>, present: Seq<bool>, key: Seq<char>)
    requires
        rows.len() == present.len(),
    ensures
        load_map(rows, present).dom().contains(key) <==> (exists|i: int|
            0 <= i < rows.len() && present[i] && (#[trigger] rows[i]).file_hash == key),
    decreases rows.len(),
{
    if rows.len() == 0 {
    } else {
        lemma_load_map_contains(rows.drop_last(), present.drop_last(), key);
        let n = rows.len() - 1;
        if load_map(rows, present).dom().contains(key) {
            if present[n] && rows[n].file_hash == key {
                assert(present[n] && rows[n].file_hash == key);
            } else {
                let i = choose|i: int|
                    0 <= i < n && present.drop_last()[i] && (#[trigger] rows.drop_last()[i]).file_hash
                        == key;
                assert(present[i] && rows[i].file_hash == key);
            }
        }
        if exists|i: int| 0 <= i < rows.len() && present[i] && (#[trigger] rows[i]).file_hash == key {
            let i = choose|i: int|
                0 <= i < rows.len() && present[i] && (#[trigger] rows[i]).file_hash == key;
            if i < n {
                assert(present.drop_last()[i] && rows.drop_last()[i].file_hash == key);
            }
        }
    }
}

/// If a row's referenced directory or manifest was deleted before the load,
/// and no other row carries its key, that entry is absent afterwards.
pub proof fn lemma_missing_artifact_dropped(rows: Seq<RecordView>, present: Seq<bool>, i: int)
    requires
        rows.len() == present.len(),
        0 <= i < rows.len(),
        !present[i],
        forall|j: int|
            0 <= j < rows.len() && j != i ==> (#[trigger] rows[j]).file_hash != rows[i].file_hash,
    ensures
        !load_map(rows, present).dom().contains(rows[i].file_hash),
{
    lemma_load_map_contains(rows, present, rows[i].file_hash);
    if load_map(rows, present).dom().contains(rows[i].file_hash) {
        let j = choose|j: int|
            0 <= j < rows.len() && present[j] && (#[trigger] rows[j]).file_hash
                == rows[i].file_hash;
        assert(j != i);
        assert(false);
    }
}

/// Saving a cache and loading the result back, with every referenced
/// directory and manifest still on disk, reconstructs exactly the map that
/// was saved: same keys, every session field equal.
pub proof fn lemma_save_load_round_trip(s: SessionStore, present: Seq<bool>)
    requires
        present.len() == s.entries_view().len(),
        forall|i: int| 0 <= i < present.len() ==> present[i],
    ensures
        load_map(records_of(s.entries_view()), present) == s.as_map(),
{
    lemma_load_of_records(s.entries_view(), present);
}

/// Loading the rows of a cache, all artifacts present, yields the cache's map.
proof fn lemma_load_of_records(entries: Seq<(Seq<char>, SessionView)>, present: Seq<bool>)
    requires
        present.len() == entries.len(),
        forall|i: int| 0 <= i < present.len() ==> present[i],
    ensures
        load_map(records_of(entries), present) == map_of(entries),
    decreases entries.len(),
{
    let rows = records_of(entries);
    assert(rows.len() == entries.len());
    if entries.len() == 0 {
    } else {
        assert(rows.drop_last() =~= records_of(entries.drop_last()));
        lemma_load_of_records(entries.drop_last(), present.drop_last());
        assert(rows.last() == record_of(entries.last().0, entries.last().1));
        assert(present[rows.len() - 1]);
        assert(load_map(rows, present) == map_of(entries));
    }
}

impl SessionStore {
    /// Serialization half of persistence: the ledger rows recording every
    /// entry, in order. The caller writes them out as one whole file.
    pub fn to_records(&self) -> (r: Vec<LedgerRecord>)
        ensures
            record_views(r@) == records_of(self.entries_view()),
    {
        let n = self.entries.len();
        let mut r: Vec<LedgerRecord> = Vec::new();
        let mut i: usize = 0;
        while i < n
            invariant
                n == self.entries_view().len(),
                i <= n,
                r@.len() == i,
                forall|j: int|
                    0 <= j < i ==> (#[trigger] r@[j])@ == record_of(
                        self.entries_view()[j].0,
                        self.entries_view()[j].1,
                    ),
            decreases n - i,
        {
            let p = &self.entries[i];
            r.push(p.1.to_record(p.0.clone()));
            i += 1;
        }
        proof {
            assert(record_views(r@) =~= records_of(self.entries_view()));
        }
        r
    }

    /// Reconstruction half of persistence: rebuilds a cache from ledger rows,
    /// where `present` says of each row whether its segment directory and
    /// manifest both still exist. Rows with missing artifacts are dropped;
    /// the result starts with no claims.
    pub fn from_records(records: &Vec<LedgerRecord>, present: &Vec<bool>) -> (r: SessionStore)
        requires
            records@.len() == present@.len(),
        ensures
            r.wf(),
            r.claims_view() == Seq::<Seq<char>>::empty(),
            r.as_map() == load_map(record_views(records@), present@),
    {
        let rows = Ghost(record_views(records@));
        let mut store = SessionStore::new();
        let n = records.len();
        let mut i: usize = 0;
        while i < n
            invariant
                n == records@.len(),
                n == present@.len(),
                rows@ == record_views(records@),
                i <= n,
                store.wf(),
                store.claims_view() == Seq::<Seq<char>>::empty(),
                store.as_map() == load_map(rows@.take(i as int), present@.take(i as int)),
            decreases n - i,
        {
            let ghost pre = store;
            if present[i] {
                let (key, session) = records[i].to_entry();
                store.insert(key, session);
            }
            proof {
                let iv = i as int;
                assert(rows@.take(iv + 1).drop_last() =~= rows@.take(iv));
                assert(present@.take(iv + 1).drop_last() =~= present@.take(iv));
                assert(rows@.take(iv + 1).last() == rows@[iv]);
                assert(rows@[iv] == records@[iv]@);
                if present@[iv] {
                    assert(store.as_map() == load_map(rows@.take(iv + 1), present@.take(iv + 1)));
                    assert(store.claims_view() =~= pre.claims_view());
                } else {
                    assert(store.as_map() == load_map(rows@.take(iv + 1), present@.take(iv + 1)));
                }
            }
            i += 1;
        }
        proof {
            assert(rows@.take(n as int) =~= rows@);
            assert(present@.take(n as int) =~= present@);
        }
        store
    }
}

} // verus!
