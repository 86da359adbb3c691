//! Batches of download jobs: what a job does with a fetched reply, which job
//! may start next under a cap on the jobs in flight, and the report of a
//! finished batch.
//!
//! The batch itself performs nothing. Its owner asks it for the next step,
//! starts the job it names or waits for one in flight to end, and hands the
//! outcome of every ended job back.

use crate::text::{decimal, push_char, push_decimal};
use crate::utils::{
    is_success, resize_animation, resized_animation, success_status, TransformFailure,
};
use vstd::prelude::*;

verus! {

/// Most downloads of animated emoji in flight at once.
pub const ANIMATION_DOWNLOADS: usize = 8;

/// Most downloads of pair images in flight at once: they run one after
/// another.
pub const PAIR_DOWNLOADS: usize = 1;

/// How often the request of a job is sent again after a passing failure
/// before the job is given up.
pub const FETCH_RETRIES: u32 = 3;

// ---------------------------------------------------------------------------
// Jobs
// ---------------------------------------------------------------------------

/// One item of a batch: fetch `url`, resize the animation where a size is
/// given, and save the bytes under `filename`.
#[derive(Clone, Debug)]
pub struct Job {
    pub filename: String,
    pub url: String,
    pub resize: Option<u32>,
}

/// What a [`Job`] holds, as plain values.
pub struct JobView {
    pub filename: Seq<char>,
    pub url: Seq<char>,
    pub resize: Option<u32>,
}

impl View for Job {
    type V = JobView;

    open spec fn view(&self) -> JobView {
        JobView { filename: self.filename@, url: self.url@, resize: self.resize }
    }
}

/// How a job ended.
#[derive(Debug)]
pub enum Outcome {
    /// The file was written.
    Saved,
    /// The job failed, with the words of the failure. No file was written.
    Failed(String),
}

/// What an [`Outcome`] holds, as plain values.
pub enum OutcomeView {
    Saved,
    Failed(Seq<char>),
}

impl View for Outcome {
    type V = OutcomeView;

    open spec fn view(&self) -> OutcomeView {
        match self {
            Outcome::Saved => OutcomeView::Saved,
            Outcome::Failed(detail) => OutcomeView::Failed(detail@),
        }
    }
}

/// What came back for the request of a job.
#[derive(Debug)]
pub enum Reply {
    /// A response arrived: its status code, the words for the status, and
    /// its body.
    Response { status: u16, reason: String, body: Vec<u8> },
    /// No response arrived; the words of the transport failure.
    Failed(String),
}

/// What a job does once its reply is there.
#[derive(Debug)]
pub enum Next {
    /// Write these bytes to the file of the job.
    Write(Vec<u8>),
    /// Give up, with the words of the failure; nothing is written.
    Fail(String),
}

/// Decides what a job does with its reply. A transport failure and a status
/// outside 200 to 299 end the job with their words. A successful response
/// is written as it is where the job asks for no resizing, and resized
/// first where it does; a failure of the resizing ends the job. So bytes are
/// handed on for writing only once fetching and resizing have succeeded.
pub fn after_fetch(job: &Job, reply: Reply) -> (r: Next)
    ensures
        match reply {
            Reply::Failed(detail) => r matches Next::Fail(text) && text@ == detail@,
            Reply::Response { status, reason, body } => if !success_status(status) {
                r matches Next::Fail(text) && text@ == reason@
            } else {
                match job.resize {
                    None => r matches Next::Write(bytes) && bytes@ == body@,
                    Some(size) => match resized_animation(body@, size as nat) {
                        Ok(resized) => r matches Next::Write(bytes) && bytes@ == resized,
                        Err(TransformFailure::TooLarge) => r matches Next::Fail(text) && text@
                            == "frame too large to resize"@,
                        Err(_) => r is Fail,
                    },
                }
            },
        },
{
    match reply {
        Reply::Failed(detail) => Next::Fail(detail),
        Reply::Response { status, reason, body } => {
            if !is_success(status) {
                Next::Fail(reason)
            } else {
                match job.resize {
                    None => Next::Write(body),
                    Some(size) => match resize_animation(body.as_slice(), size) {
                        Ok(bytes) => Next::Write(bytes),
                        Err(e) => Next::Fail(e.detail()),
                    },
                }
            }
        },
    }
}

/// The outcome of a job whose bytes were handed on for writing: saved where
/// the writing succeeded, failed with its words where it did not.
pub fn after_write(written: Result<(), String>) -> (r: Outcome)
    ensures
        match written {
            Ok(_) => r@ == OutcomeView::Saved,
            Err(detail) => r@ == OutcomeView::Failed(detail@),
        },
{
    match written {
        Ok(_) => Outcome::Saved,
        Err(detail) => Outcome::Failed(detail),
    }
}

// ---------------------------------------------------------------------------
// The batch
// ---------------------------------------------------------------------------

/// What the owner of a batch does next.
#[derive(Debug)]
pub enum Step {
    /// Start the job with this index.
    Start(usize),
    /// Wait for a job in flight to end, then call `complete`.
    Wait,
    /// Every job has ended.
    Finished,
}

/// How often the job with index `job` occurs in a list of results.
pub open spec fn occurrences(results: Seq<(usize, OutcomeView)>, job: int) -> nat
    decreases results.len(),
{
    if results.len() == 0 {
        0
    } else {
        occurrences(results.drop_last(), job) + if results.last().0 == job {
            1nat
        } else {
            0nat
        }
    }
}

/// Number of `true` among the first `n` flags.
spec fn count(flags: Seq<bool>, n: int) -> nat
    decreases n,
{
    if n <= 0 {
        0
    } else {
        count(flags, n - 1) + if flags[n - 1] {
            1nat
        } else {
            0nat
        }
    }
}

/// No more flags are set than there are, and all are set where as many are.
proof fn lemma_count_bound(flags: Seq<bool>, n: int)
    requires
        0 <= n <= flags.len(),
    ensures
        count(flags, n) <= n,
        count(flags, n) == n ==> forall|i: int| 0 <= i < n ==> flags[i],
    decreases n,
{
    if n > 0 {
        lemma_count_bound(flags, n - 1);
    }
}

/// Setting a flag that was not set adds one to the count where the flag is
/// among the counted.
proof fn lemma_count_set(flags: Seq<bool>, at: int, n: int)
    requires
        0 <= n <= flags.len(),
        0 <= at < flags.len(),
        !flags[at],
    ensures
        count(flags.update(at, true), n) == count(flags, n) + if at < n {
            1nat
        } else {
            0nat
        },
    decreases n,
{
    if n > 0 {
        lemma_count_set(flags, at, n - 1);
    }
}

/// The views of a list of jobs, in order.
pub open spec fn job_views(jobs: Seq<Job>) -> Seq<JobView> {
    Seq::new(jobs.len(), |i: int| jobs[i]@)
}

/// The views of a list of results, in order.
pub open spec fn result_views(results: Seq<(usize, Outcome)>) -> Seq<(usize, OutcomeView)> {
    Seq::new(results.len(), |i: int| (results[i].0, results[i].1@))
}

/// A list of jobs on its way through a pool of bounded size. Jobs start in
/// the order of the list, never more of them in flight than the cap allows,
/// and the outcome of each is recorded once, in the order in which the jobs
/// end.
pub struct Batch {
    jobs: Vec<Job>,
    cap: usize,
    started: usize,
    ended: Vec<bool>,
    results: Vec<(usize, Outcome)>,
}

impl Batch {
    /// The jobs of the batch.
    pub closed spec fn jobs(&self) -> Seq<JobView> {
        job_views(self.jobs@)
    }

    /// The most jobs that may be in flight at once.
    pub closed spec fn cap(&self) -> nat {
        self.cap as nat
    }

    /// How many jobs have been started; the jobs before this index.
    pub closed spec fn started(&self) -> nat {
        self.started as nat
    }

    /// The recorded results, in the order in which the jobs ended: index of
    /// the job and its outcome.
    pub closed spec fn completed(&self) -> Seq<(usize, OutcomeView)> {
        result_views(self.results@)
    }

    /// How many jobs are in flight: started and not ended.
    pub open spec fn running(&self) -> int {
        self.started() - self.completed().len()
    }

    /// Whether the job with index `job` is in flight.
    pub open spec fn in_flight(&self, job: int) -> bool {
        0 <= job < self.started() && occurrences(self.completed(), job) == 0
    }

    /// Whether every job has been started and has ended.
    pub open spec fn all_ended(&self) -> bool {
        self.started() == self.jobs().len() && self.running() == 0
    }

    /// The invariant of a batch.
    pub closed spec fn wf(&self) -> bool {
        &&& self.cap >= 1
        &&& self.started <= self.jobs@.len()
        &&& self.ended@.len() == self.jobs@.len()
        &&& self.results@.len() <= self.started
        &&& self.started - self.results@.len() <= self.cap
        &&& self.results@.len() == count(self.ended@, self.started as int)
        &&& forall|i: int| self.started <= i < self.ended@.len() ==> !self.ended@[i]
        &&& forall|i: int|
            0 <= i < self.ended@.len() ==> occurrences(result_views(self.results@), i) == (if
                #[trigger] self.ended@[i] {
                1nat
            } else {
                0nat
            })
        &&& forall|k: int|
            0 <= k < self.results@.len() ==> (#[trigger] self.results@[k]).0 < self.started
    }

    /// A batch of the given jobs with at most `cap` of them in flight at
    /// once. Nothing has been started.
    pub fn new(jobs: Vec<Job>, cap: usize) -> (r: Batch)
        requires
            cap >= 1,
        ensures
            r.wf(),
            r.jobs() == job_views(jobs@),
            r.cap() == cap,
            r.started() == 0,
            r.completed() == Seq::<(usize, OutcomeView)>::empty(),
    {
        let mut ended: Vec<bool> = Vec::new();
        let mut i: usize = 0;
        while i < jobs.len()
            invariant
                i <= jobs@.len(),
                ended@.len() == i,
                forall|j: int| 0 <= j < i ==> !ended@[j],
            decreases jobs@.len() - i,
        {
            ended.push(false);
            i = i + 1;
        }
        let r = Batch { jobs, cap, started: 0, ended, results: Vec::new() };
        proof {
            assert(result_views(r.results@) =~= Seq::<(usize, OutcomeView)>::empty());
        }
        r
    }

    /// Number of jobs in the batch.
    pub fn len(&self) -> (r: usize)
        ensures
            r == self.jobs().len(),
    {
        self.jobs.len()
    }

    /// The job with index `index`, if there is one.
    pub fn job(&self, index: usize) -> (r: Option<&Job>)
        ensures
            match r {
                Some(job) => index < self.jobs().len() && job@ == self.jobs()[index as int],
                None => index >= self.jobs().len(),
            },
    {
        if index < self.jobs.len() {
            Some(&self.jobs[index])
        } else {
            None
        }
    }

    /// Number of jobs in flight.
    pub fn in_flight_count(&self) -> (r: usize)
        requires
            self.wf(),
        ensures
            r == self.running(),
            r <= self.cap(),
    {
        self.started - self.results.len()
    }

    /// The recorded results, in the order in which the jobs ended.
    pub fn results(&self) -> (r: &Vec<(usize, Outcome)>)
        ensures
            result_views(r@) == self.completed(),
    {
        &self.results
    }

    /// The next step. While fewer jobs than the cap are in flight and a job
    /// is left to start, that job starts: the first one not yet started.
    /// Otherwise the owner waits while any job is in flight, and is done
    /// once none is.
    pub fn next(&mut self) -> (r: Step)
        requires
            old(self).wf(),
        ensures
            final(self).wf(),
            final(self).jobs() == old(self).jobs(),
            final(self).cap() == old(self).cap(),
            final(self).completed() == old(self).completed(),
            if old(self).running() < old(self).cap() && old(self).started() < old(
                self,
            ).jobs().len() {
                &&& r matches Step::Start(job)
                &&& job == old(self).started()
                &&& final(self).started() == old(self).started() + 1
            } else {
                &&& final(self).started() == old(self).started()
                &&& if old(self).running() > 0 {
                    r is Wait
                } else {
                    r is Finished && final(self).all_ended()
                }
            },
    {
        let running = self.started - self.results.len();
        if running < self.cap && self.started < self.jobs.len() {
            let job = self.started;
            self.started = self.started + 1;
            proof {
                assert(!self.ended@[job as int]);
            }
            Step::Start(job)
        } else if running > 0 {
            Step::Wait
        } else {
            Step::Finished
        }
    }

    /// Records that the job with index `job` has ended with `outcome`.
    /// Returns whether it was recorded: a job that is not in flight (never
    /// started, or ended before) leaves the batch as it was.
    pub fn complete(&mut self, job: usize, outcome: Outcome) -> (r: bool)
        requires
            old(self).wf(),
        ensures
            final(self).wf(),
            final(self).jobs() == old(self).jobs(),
            final(self).cap() == old(self).cap(),
            final(self).started() == old(self).started(),
            r == old(self).in_flight(job as int),
            r ==> final(self).completed() == old(self).completed().push((job, outcome@)),
            !r ==> final(self).completed() == old(self).completed(),
    {
        if job >= self.started || self.ended[job] {
            return false;
        }
        let ghost before = result_views(self.results@);
        let ghost flags = self.ended@;
        self.ended.set(job, true);
        self.results.push((job, outcome));
        proof {
            let after = result_views(self.results@);
            assert(after =~= before.push((job, outcome@)));
            assert(after.drop_last() =~= before);
            lemma_count_set(flags, job as int, self.started as int);
            lemma_count_bound(self.ended@, self.started as int);
            assert forall|i: int| 0 <= i < self.ended@.len() implies occurrences(after, i) == (if
                #[trigger] self.ended@[i] {
                1nat
            } else {
                0nat
            }) by {
                assert(flags[i] ==> occurrences(before, i) == 1);
                assert(!flags[i] ==> occurrences(before, i) == 0);
            }
        }
        true
    }

    /// Whether every job has been started and has ended.
    pub fn is_finished(&self) -> (r: bool)
        requires
            self.wf(),
        ensures
            r == self.all_ended(),
    {
        self.started == self.jobs.len() && self.results.len() == self.started
    }

    /// Never more jobs are in flight than the cap allows.
    pub proof fn lemma_capped(&self)
        requires
            self.wf(),
        ensures
            0 <= self.running() <= self.cap(),
    {
    }

    /// No job is recorded twice, and none that was not started.
    pub proof fn lemma_recorded_once(&self, job: int)
        requires
            self.wf(),
        ensures
            occurrences(self.completed(), job) <= 1,
            occurrences(self.completed(), job) == 1 ==> 0 <= job < self.started(),
    {
        if 0 <= job < self.ended@.len() {
            assert(occurrences(self.completed(), job) == (if self.ended@[job] {
                1nat
            } else {
                0nat
            }));
        } else {
            Self::lemma_absent(self.results@, self.started as int, job);
        }
    }

    /// A job whose index lies outside those of the results does not occur
    /// in them.
    proof fn lemma_absent(results: Seq<(usize, Outcome)>, bound: int, job: int)
        requires
            forall|k: int| 0 <= k < results.len() ==> (#[trigger] results[k]).0 < bound,
            job < 0 || job >= bound,
        ensures
            occurrences(result_views(results), job) == 0,
        decreases results.len(),
    {
        if results.len() > 0 {
            assert(result_views(results).drop_last() =~= result_views(results.drop_last()));
            assert forall|k: int| 0 <= k < results.drop_last().len() implies (
            #[trigger] results.drop_last()[k]).0 < bound by {
                assert(results.drop_last()[k] == results[k]);
            }
            Self::lemma_absent(results.drop_last(), bound, job);
            assert(results.last() == results[results.len() - 1]);
        }
    }

    /// Once every job has ended, the results hold every job of the batch
    /// exactly once.
    pub proof fn lemma_all_recorded(&self)
        requires
            self.wf(),
            self.all_ended(),
        ensures
            self.completed().len() == self.jobs().len(),
            forall|job: int|
                0 <= job < self.jobs().len() ==> #[trigger] occurrences(self.completed(), job)
                    == 1,
    {
        lemma_count_bound(self.ended@, self.started as int);
        assert forall|job: int| 0 <= job < self.jobs().len() implies #[trigger] occurrences(
            self.completed(),
            job,
        ) == 1 by {
            assert(self.ended@[job]);
        }
    }
}

// ---------------------------------------------------------------------------
// The report
// ---------------------------------------------------------------------------

/// The words that name a job in the report: file name and location.
pub open spec fn description(job: JobView) -> Seq<char> {
    job.filename + seq![' '] + job.url
}

/// The line that reports the end of a job.
pub open spec fn status_text(job: JobView, outcome: OutcomeView) -> Seq<char> {
    match outcome {
        OutcomeView::Saved => "\u{2705} "@ + description(job),
        OutcomeView::Failed(detail) => "\u{1f6ab} "@ + description(job) + seq![' '] + detail,
    }
}

/// The line that lists a failed job once the batch has ended.
pub open spec fn failure_text(description: Seq<char>, detail: Seq<char>) -> Seq<char> {
    "\u{1f6ab} "@ + description + seq![' '] + detail
}

/// The line that gives the number of failed jobs.
pub open spec fn summary_text(failures: nat) -> Seq<char> {
    "\u{2139}\u{fe0f} Completed with "@ + decimal(failures) + " errors"@
}

/// A failed job in the report: the job's description and the words of the
/// failure.
#[derive(Debug)]
pub struct Failure {
    pub description: String,
    pub detail: String,
}

/// The failures among the results, in their order: description of the job
/// and words of the failure.
pub open spec fn failures_of(jobs: Seq<JobView>, results: Seq<(usize, OutcomeView)>) -> Seq<
    (Seq<char>, Seq<char>),
>
    decreases results.len(),
{
    if results.len() == 0 {
        Seq::empty()
    } else {
        let rest = failures_of(jobs, results.drop_last());
        match results.last().1 {
            OutcomeView::Failed(detail) => rest.push(
                (description(jobs[results.last().0 as int]), detail),
            ),
            OutcomeView::Saved => rest,
        }
    }
}

/// The views of a list of failures, in order.
pub open spec fn failure_views(failures: Seq<Failure>) -> Seq<(Seq<char>, Seq<char>)> {
    Seq::new(failures.len(), |i: int| (failures[i].description@, failures[i].detail@))
}

/// The words that name `job` in the report.
pub fn describe(job: &Job) -> (r: String)
    ensures
        r@ == description(job@),
{
    let mut out = job.filename.clone();
    push_char(&mut out, ' ');
    out.append(job.url.as_str());
    out
}

/// The line that reports the end of `job` with `outcome`.
pub fn status_line(job: &Job, outcome: &Outcome) -> (r: String)
    ensures
        r@ == status_text(job@, outcome@),
{
    match outcome {
        Outcome::Saved => {
            let mut out = String::from_str("\u{2705} ");
            out.append(describe(job).as_str());
            out
        },
        Outcome::Failed(detail) => {
            let mut out = String::from_str("\u{1f6ab} ");
            out.append(describe(job).as_str());
            push_char(&mut out, ' ');
            out.append(detail.as_str());
            out
        },
    }
}

impl Failure {
    /// The line that lists this failure once the batch has ended.
    pub fn line(&self) -> (r: String)
        ensures
            r@ == failure_text(self.description@, self.detail@),
    {
        let mut out = String::from_str("\u{1f6ab} ");
        out.append(self.description.as_str());
        push_char(&mut out, ' ');
        out.append(self.detail.as_str());
        out
    }
}

/// The line that gives the number of failed jobs.
pub fn summary_line(failures: usize) -> (r: String)
    ensures
        r@ == summary_text(failures as nat),
{
    let mut out = String::from_str("\u{2139}\u{fe0f} Completed with ");
    push_decimal(&mut out, failures as u64);
    out.append(" errors");
    out
}

impl Batch {
    /// The failed jobs, in the order in which they ended.
    pub fn failures(&self) -> (r: Vec<Failure>)
        requires
            self.wf(),
        ensures
            failure_views(r@) == failures_of(self.jobs(), self.completed()),
    {
        let ghost all = result_views(self.results@);
        let mut out: Vec<Failure> = Vec::new();
        let mut k: usize = 0;
        proof {
            assert(failure_views(out@) =~= failures_of(self.jobs(), all.take(0)));
        }
        while k < self.results.len()
            invariant
                k <= self.results@.len(),
                self.wf(),
                all == result_views(self.results@),
                failure_views(out@) == failures_of(self.jobs(), all.take(k as int)),
            decreases self.results@.len() - k,
        {
            let ghost before = failure_views(out@);
            proof {
                assert(all.take(k + 1).drop_last() =~= all.take(k as int));
                assert(all.take(k + 1).last() == all[k as int]);
            }
            let entry = &self.results[k];
            match &entry.1 {
                Outcome::Failed(detail) => {
                    let failure = Failure {
                        description: describe(&self.jobs[entry.0]),
                        detail: detail.clone(),
                    };
                    out.push(failure);
                    proof {
                        assert(failure_views(out@) =~= before.push(
                            (description(self.jobs()[entry.0 as int]), detail@),
                        ));
                    }
                },
                Outcome::Saved => {},
            }
            k = k + 1;
        }
        proof {
            assert(all.take(self.results@.len() as int) =~= all);
        }
        out
    }
}

} // verus!
