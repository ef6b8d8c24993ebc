//! The job tracker: a map from job id to the transient record of one
//! conversion request, so callers can poll progress independently of the
//! final session cache. Entries live for the process lifetime and are never
//! persisted.

use crate::ids::fresh_id;
use crate::kvmap::{distinct_keys, has_key, lemma_map_of_contains, lemma_map_of_index,
    lemma_map_of_push, lemma_map_of_update, map_of};
use vstd::prelude::*;

verus! {

/// Where a job stands in its lifecycle. `Ready` and `Failed` are terminal.
#[derive(Clone, Copy, PartialEq, Eq, Structural, Debug)]
pub enum JobState {
    Queued,
    Downloading,
    Converting,
    Ready,
    Failed,
}

/// The public view of a finished job: what a client needs to start playing
/// the session the job produced.
pub struct JobResult {
    /// The job's own id.
    pub id: String,
    pub title: String,
    pub session_id: String,
    pub playlist_url: String,
    pub total_segments: usize,
    pub segment_duration_seconds: u32,
}

/// The mathematical value of a `JobResult`.
pub struct JobResultView {
    pub id: Seq<char>,
    pub title: Seq<char>,
    pub session_id: Seq<char>,
    pub playlist_url: Seq<char>,
    pub total_segments: int,
    pub segment_duration_seconds: int,
}

impl View for JobResult {
    type V = JobResultView;

    open spec fn view(&self) -> JobResultView {
        JobResultView {
            id: self.id@,
            title: self.title@,
            session_id: self.session_id@,
            playlist_url: self.playlist_url@,
            total_segments: self.total_segments as int,
            segment_duration_seconds: self.segment_duration_seconds as int,
        }
    }
}

impl Clone for JobResult {
    fn clone(&self) -> (r: JobResult)
        ensures
            r == *self,
    {
        JobResult {
            id: self.id.clone(),
            title: self.title.clone(),
            session_id: self.session_id.clone(),
            playlist_url: self.playlist_url.clone(),
            total_segments: self.total_segments,
            segment_duration_seconds: self.segment_duration_seconds,
        }
    }
}

/// One conversion request's transient record.
pub struct Job {
    pub id: String,
    pub state: JobState,
    /// Human-readable progress hint, present while the job is under way.
    pub progress: Option<String>,
    /// Diagnostic text, present only once the job has failed.
    pub error: Option<String>,
    /// The outcome, present only once the job is ready.
    pub result: Option<JobResult>,
}

/// The mathematical value of a `Job`.
pub struct JobView {
    pub id: Seq<char>,
    pub state: JobState,
    pub progress: Option<Seq<char>>,
    pub error: Option<Seq<char>>,
    pub result: Option<JobResultView>,
}

impl View for Job {
    type V = JobView;

    open spec fn view(&self) -> JobView {
        JobView {
            id: self.id@,
            state: self.state,
            progress: match self.progress {
                Some(p) => Some(p@),
                None => None,
            },
            error: match self.error {
                Some(e) => Some(e@),
                None => None,
            },
            result: match self.result {
                Some(r) => Some(r@),
                None => None,
            },
        }
    }
}

impl Clone for Job {
    fn clone(&self) -> (r: Job)
        ensures
            r == *self,
    {
        Job {
            id: self.id.clone(),
            state: self.state,
            progress: match &self.progress {
                Some(p) => Some(p.clone()),
                None => None,
            },
            error: match &self.error {
                Some(e) => Some(e.clone()),
                None => None,
            },
            result: match &self.result {
                Some(r) => Some(r.clone()),
                None => None,
            },
        }
    }
}

/// The progress hint shown while a job waits for or runs the fetch step.
pub open spec fn starting_message() -> Seq<char> {
    "Starting download..."@
}

/// The progress hint shown while the transcode step runs.
pub open spec fn converting_message() -> Seq<char> {
    "Converting to HLS format..."@
}

/// The record a job starts as: queued, with the starting progress hint and
/// neither an error nor a result.
pub open spec fn queued_job(id: Seq<char>) -> JobView {
    JobView {
        id: id,
        state: JobState::Queued,
        progress: Some(starting_message()),
        error: None,
        result: None,
    }
}

/// The concurrency-safe map from job id to job record.
pub struct JobTracker {
    jobs: Vec<Job>,
}

impl JobTracker {
    /// The tracker's entries as (job id, job) values, in order.
    pub closed spec fn jobs_view(self) -> Seq<(Seq<char>, JobView)> {
        self.jobs@.map_values(|j: Job| (j.id@, j@))
    }

    /// The map the tracker denotes: job id to job record.
    pub open spec fn as_map(self) -> Map<Seq<char>, JobView> {
        map_of(self.jobs_view())
    }

    /// Well-formedness: at most one record per job id.
    pub open spec fn wf(self) -> bool {
        distinct_keys(self.jobs_view())
    }

    /// An empty tracker.
    pub fn new() -> (r: JobTracker)
        ensures
            r.wf(),
            r.as_map() == Map::<Seq<char>, JobView>::empty(),
    {
        let r = JobTracker { jobs: Vec::new() };
        proof {
            assert(r.jobs_view() =~= Seq::<(Seq<char>, JobView)>::empty());
        }
        r
    }

    /// The position of the record with this job id, if one exists.
    fn find_index(&self, id: &String) -> (r: Option<usize>)
        ensures
            match r {
                Some(i) => i < self.jobs_view().len() && self.jobs_view()[i as int].0 == id@,
                None => !has_key(self.jobs_view(), id@),
            },
    {
        let n = self.jobs.len();
        let mut i: usize = 0;
        while i < n
            invariant
                n == self.jobs_view().len(),
                i <= n,
                forall|j: int| 0 <= j < i ==> (#[trigger] self.jobs_view()[j]).0 != id@,
            decreases n - i,
        {
            if self.jobs[i].id == *id {
                assert(self.jobs_view()[i as int].0 == id@);
                return Some(i);
            }
            assert(self.jobs_view()[i as int].0 != id@);
            i += 1;
        }
        None
    }

    /// The record of this job id, if the job was ever created.
    pub fn get(&self, id: &String) -> (r: Option<&Job>)
        requires
            self.wf(),
        ensures
            match r {
                Some(j) => self.as_map().dom().contains(id@) && j@ == self.as_map()[id@],
                None => !self.as_map().dom().contains(id@),
            },
    {
        proof {
            lemma_map_of_contains(self.jobs_view(), id@);
        }
        match self.find_index(id) {
            Some(i) => {
                proof {
                    lemma_map_of_index(self.jobs_view(), i as int);
                }
                Some(&self.jobs[i])
            },
            None => None,
        }
    }

    /// Overwrites the record at position `i`, which must keep its job id.
    fn set_job(&mut self, i: usize, job: Job)
        requires
            old(self).wf(),
            i < old(self).jobs_view().len(),
            job.id@ == old(self).jobs_view()[i as int].0,
        ensures
            final(self).wf(),
            final(self).as_map() == old(self).as_map().insert(job.id@, job@),
    {
        proof {
            lemma_map_of_update(self.jobs_view(), i as int, job@);
        }
        let ghost pre = *self;
        self.jobs[i] = job;
        proof {
            assert(self.jobs_view() =~= pre.jobs_view().update(
                i as int,
                (pre.jobs_view()[i as int].0, self.jobs@[i as int]@),
            ));
            assert forall|a: int, b: int|
                0 <= a < b < self.jobs_view().len() implies (#[trigger] self.jobs_view()[a]).0 != (
            #[trigger] self.jobs_view()[b]).0 by {
                assert(pre.jobs_view()[a].0 == self.jobs_view()[a].0);
                assert(pre.jobs_view()[b].0 == self.jobs_view()[b].0);
            }
        }
    }

    /// Issues a fresh job id and records the job as queued. The new id is
    /// returned so the caller can poll it.
    pub fn create(&mut self) -> (r: String)
        requires
            old(self).wf(),
        ensures
            final(self).wf(),
            r@.len() == 36,
            final(self).as_map() == old(self).as_map().insert(r@, queued_job(r@)),
    {
        let id = fresh_id();
        let job = Job {
            id: id.clone(),
            state: JobState::Queued,
            progress: Some(String::from_str("Starting download...")),
            error: None,
            result: None,
        };
        assert(job@ == queued_job(id@));
        let ghost pre = *self;
        match self.find_index(&id) {
            Some(i) => {
                self.set_job(i, job);
            },
            None => {
                self.jobs.push(job);
                proof {
                    assert(self.jobs_view() =~= pre.jobs_view().push((id@, job@)));
                    lemma_map_of_push(pre.jobs_view(), id@, job@);
                    assert forall|a: int, b: int|
                        0 <= a < b < self.jobs_view().len() implies (
                    #[trigger] self.jobs_view()[a]).0 != (#[trigger] self.jobs_view()[b]).0 by {
                        if b == self.jobs_view().len() - 1 {
                            assert(self.jobs_view()[a] == pre.jobs_view()[a]);
                        }
                    }
                }
            },
        }
        id
    }

    /// Marks the job as downloading, with the starting progress hint; a job
    /// id that was never created changes nothing.
    pub fn mark_downloading(&mut self, id: &String)
        requires
            old(self).wf(),
        ensures
            final(self).wf(),
            old(self).as_map().dom().contains(id@) ==> final(self).as_map() == old(
                self,
            ).as_map().insert(
                id@,
                JobView {
                    state: JobState::Downloading,
                    progress: Some(starting_message()),
                    ..old(self).as_map()[id@]
                },
            ),
            !old(self).as_map().dom().contains(id@) ==> final(self).as_map() == old(self).as_map(),
    {
        proof {
            lemma_map_of_contains(self.jobs_view(), id@);
        }
        match self.find_index(id) {
            Some(i) => {
                proof {
                    lemma_map_of_index(self.jobs_view(), i as int);
                }
                let mut job = self.jobs[i].clone();
                job.state = JobState::Downloading;
                job.progress = Some(String::from_str("Starting download..."));
                self.set_job(i, job);
            },
            None => {},
        }
    }

    /// Marks the job as converting, with the converting progress hint; a job
    /// id that was never created changes nothing.
    pub fn mark_converting(&mut self, id: &String)
        requires
            old(self).wf(),
        ensures
            final(self).wf(),
            old(self).as_map().dom().contains(id@) ==> final(self).as_map() == old(
                self,
            ).as_map().insert(
                id@,
                JobView {
                    state: JobState::Converting,
                    progress: Some(converting_message()),
                    ..old(self).as_map()[id@]
                },
            ),
            !old(self).as_map().dom().contains(id@) ==> final(self).as_map() == old(self).as_map(),
    {
        proof {
            lemma_map_of_contains(self.jobs_view(), id@);
        }
        match self.find_index(id) {
            Some(i) => {
                proof {
                    lemma_map_of_index(self.jobs_view(), i as int);
                }
                let mut job = self.jobs[i].clone();
                job.state = JobState::Converting;
                job.progress = Some(String::from_str("Converting to HLS format..."));
                self.set_job(i, job);
            },
            None => {},
        }
    }

    /// Marks the job as failed, capturing the diagnostic text verbatim; a job
    /// id that was never created changes nothing.
    pub fn mark_failed(&mut self, id: &String, error: String)
        requires
            old(self).wf(),
        ensures
            final(self).wf(),
            old(self).as_map().dom().contains(id@) ==> final(self).as_map() == old(
                self,
            ).as_map().insert(
                id@,
                JobView {
                    state: JobState::Failed,
                    error: Some(error@),
                    ..old(self).as_map()[id@]
                },
            ),
            !old(self).as_map().dom().contains(id@) ==> final(self).as_map() == old(self).as_map(),
    {
        proof {
            lemma_map_of_contains(self.jobs_view(), id@);
        }
        match self.find_index(id) {
            Some(i) => {
                proof {
                    lemma_map_of_index(self.jobs_view(), i as int);
                }
                let mut job = self.jobs[i].clone();
                job.state = JobState::Failed;
                job.error = Some(error);
                self.set_job(i, job);
            },
            None => {},
        }
    }

    /// Marks the job as ready: the progress hint is cleared and the result is
    /// recorded; a job id that was never created changes nothing.
    pub fn mark_ready(&mut self, id: &String, result: JobResult)
        requires
            old(self).wf(),
        ensures
            final(self).wf(),
            old(self).as_map().dom().contains(id@) ==> final(self).as_map() == old(
                self,
            ).as_map().insert(
                id@,
                JobView {
                    state: JobState::Ready,
                    progress: None,
                    result: Some(result@),
                    ..old(self).as_map()[id@]
                },
            ),
            !old(self).as_map().dom().contains(id@) ==> final(self).as_map() == old(self).as_map(),
    {
        proof {
            lemma_map_of_contains(self.jobs_view(), id@);
        }
        match self.find_index(id) {
            Some(i) => {
                proof {
                    lemma_map_of_index(self.jobs_view(), i as int);
                }
                let mut job = self.jobs[i].clone();
                job.state = JobState::Ready;
                job.progress = None;
                job.result = Some(result);
                self.set_job(i, job);
            },
            None => {},
        }
    }
}

} // verus!
