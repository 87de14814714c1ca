use vstd::prelude::*;
use crate::downloader::{
    is_stop_requested, is_terminal, DownloadError, DownloadItem, DownloadProgress, DownloadStatus,
    ProgressModel, StopFlag,
};
use crate::progress::{parse_progress_line, spec_parse_line};

verus! {

// ---------------------------------------------------------------------------
// The batch coordinator.
//
// One `Batch` owns the state of one orchestration call: the job list, the
// concurrency limit, the shared cancellation flag and the batch-complete
// latch. The unverifiable work (spawning, killing and reaping subprocesses,
// reading their output) happens outside; every decision is taken here, one
// transition per observed fact, and each job keeps the full sequence of
// events emitted for it so that the event-stream guarantees are invariants
// of this type.
// ---------------------------------------------------------------------------

/// Where one job stands in its life.
#[derive(Clone, Copy, Debug, PartialEq, Eq, Structural)]
pub enum JobPhase {
    /// Waiting for an admission slot.
    Queued,
    /// Holds a slot; its Pending event is out, its subprocess not yet up.
    Admitted,
    /// Its subprocess runs and its output is being parsed.
    Running,
    /// A terminal event has been emitted; the slot is free again.
    Done,
}

/// What the per-job setup (resolving the tool, preparing the output folder,
/// spawning the subprocess) came to.
pub enum SetupResult {
    /// The subprocess is up and its output can be read.
    Ready,
    /// Setup failed before any output was produced.
    Failed(DownloadError),
    /// The spawn itself failed, after the initial Downloading event was owed.
    SpawnFailed(String),
}

/// One job's state, with the sequence of every event emitted for it.
pub struct JobState {
    pub id: String,
    pub url: String,
    pub phase: JobPhase,
    /// The terminal status, once the job is Done.
    pub outcome: Option<DownloadStatus>,
    /// Last percentage reported for this job, in thousandths of a percent.
    pub last_progress: u64,
    /// Every event emitted for this job so far, in emission order.
    pub log: Ghost<Seq<ProgressModel>>,
}

/// The Pending event emitted when a job is admitted to the pool.
pub open spec fn spec_pending_event(id: Seq<char>) -> ProgressModel {
    ProgressModel {
        id,
        status: DownloadStatus::Pending,
        progress: 0,
        speed: None,
        eta: None,
        downloaded: None,
        total_size: None,
        error: None,
    }
}

/// The initial Downloading event emitted when a job's setup begins.
pub open spec fn spec_start_event(id: Seq<char>) -> ProgressModel {
    ProgressModel {
        id,
        status: DownloadStatus::Downloading,
        progress: 0,
        speed: None,
        eta: None,
        downloaded: None,
        total_size: None,
        error: None,
    }
}

/// The terminal Cancelled event: progress stays at the last known value.
pub open spec fn spec_cancel_event(id: Seq<char>, last: u64) -> ProgressModel {
    ProgressModel {
        id,
        status: DownloadStatus::Cancelled,
        progress: last,
        speed: None,
        eta: None,
        downloaded: None,
        total_size: None,
        error: Some("Download cancelled"@),
    }
}

/// The terminal Completed event, at 100%.
pub open spec fn spec_complete_event(id: Seq<char>) -> ProgressModel {
    ProgressModel {
        id,
        status: DownloadStatus::Completed,
        progress: 100_000,
        speed: None,
        eta: None,
        downloaded: None,
        total_size: None,
        error: None,
    }
}

/// A terminal failure event carrying a diagnostic message.
pub open spec fn spec_fail_event(id: Seq<char>, st: DownloadStatus, msg: Seq<char>) -> ProgressModel {
    ProgressModel {
        id,
        status: st,
        progress: 0,
        speed: None,
        eta: None,
        downloaded: None,
        total_size: None,
        error: Some(msg),
    }
}

/// The terminal status a setup failure maps to: a cancellation is reported
/// as Cancelled, everything else as Error.
pub open spec fn terminal_status_of(e: DownloadError) -> DownloadStatus {
    if e is Cancelled {
        DownloadStatus::Cancelled
    } else {
        DownloadStatus::Error
    }
}

/// The terminal status the supervision loop assigns when the subprocess is
/// reaped: a pending stop request forces Cancelled whatever the exit status
/// was; otherwise a clean exit is Completed and any other exit is Error.
pub open spec fn exit_status(stop: bool, exit_ok: bool) -> DownloadStatus {
    if stop {
        DownloadStatus::Cancelled
    } else if exit_ok {
        DownloadStatus::Completed
    } else {
        DownloadStatus::Error
    }
}

/// How many terminal events a log holds.
pub open spec fn count_terminal(log: Seq<ProgressModel>) -> nat
    decreases log.len(),
{
    if log.len() == 0 {
        0
    } else {
        count_terminal(log.drop_last()) + if is_terminal(log.last().status) {
            1nat
        } else {
            0nat
        }
    }
}

/// The progress value of the last non-terminal event, 0 before any.
pub open spec fn spec_last_known(log: Seq<ProgressModel>) -> u64
    decreases log.len(),
{
    if log.len() == 0 {
        0
    } else if !is_terminal(log.last().status) {
        log.last().progress
    } else {
        spec_last_known(log.drop_last())
    }
}

impl JobState {
    /// A job holds an admission slot while Admitted or Running.
    pub open spec fn active(&self) -> bool {
        self.phase is Admitted || self.phase is Running
    }

    /// Per-job well-formedness: events carry this job's id; a Done job's log
    /// ends with its one terminal event and a live job's log has none; the
    /// cached progress is the last reported one.
    pub open spec fn inv(&self) -> bool {
        &&& forall|k: int| 0 <= k < self.log@.len() ==> (#[trigger] self.log@[k]).id == self.id@
        &&& self.last_progress == spec_last_known(self.log@)
        &&& (self.phase is Queued ==> self.log@.len() == 0)
        &&& if self.phase is Done {
            &&& self.outcome matches Some(st) && is_terminal(st) && self.log@.len() > 0
                && self.log@.last().status == st
            &&& forall|k: int|
                0 <= k < self.log@.len() - 1 ==> !is_terminal(
                    (#[trigger] self.log@[k]).status,
                )
        } else {
            &&& self.outcome is None
            &&& forall|k: int|
                0 <= k < self.log@.len() ==> !is_terminal((#[trigger] self.log@[k]).status)
        }
    }
}

/// How many jobs hold an admission slot.
pub open spec fn count_active(jobs: Seq<JobState>) -> nat
    decreases jobs.len(),
{
    if jobs.len() == 0 {
        0
    } else {
        count_active(jobs.drop_last()) + if jobs.last().active() {
            1nat
        } else {
            0nat
        }
    }
}

proof fn lemma_count_active_update(s: Seq<JobState>, i: int, v: JobState)
    requires
        0 <= i < s.len(),
    ensures
        count_active(s.update(i, v)) == count_active(s) - (if s[i].active() {
            1int
        } else {
            0int
        }) + (if v.active() {
            1int
        } else {
            0int
        }),
    decreases s.len(),
{
    let t = s.update(i, v);
    if i == s.len() - 1 {
        assert(t.drop_last() =~= s.drop_last());
        assert(t.last() == v);
    } else {
        assert(t.drop_last() =~= s.drop_last().update(i, v));
        assert(t.last() == s.last());
        lemma_count_active_update(s.drop_last(), i, v);
    }
}

proof fn lemma_count_terminal_none(log: Seq<ProgressModel>)
    requires
        forall|k: int| 0 <= k < log.len() ==> !is_terminal((#[trigger] log[k]).status),
    ensures
        count_terminal(log) == 0,
    decreases log.len(),
{
    if log.len() > 0 {
        assert(forall|k: int|
            0 <= k < log.len() - 1 ==> !is_terminal((#[trigger] log.drop_last()[k]).status));
        lemma_count_terminal_none(log.drop_last());
    }
}

/// One orchestration call: the jobs launched together, their shared
/// cancellation flag and the concurrency limit admission is checked against.
pub struct Batch {
    /// At most this many jobs hold a slot at once (1..=10).
    pub limit: u8,
    /// The shared cancellation flag: written here, read by every job runner.
    pub flag: StopFlag,
    pub jobs: Vec<JobState>,
    /// Whether the single batch-complete signal has been emitted.
    pub finished: bool,
}

impl Batch {
    /// Coordinator well-formedness: the limit is in range, no more than
    /// `limit` jobs hold slots, and every job is well formed.
    pub open spec fn inv(&self) -> bool {
        &&& 1 <= self.limit <= 10
        &&& count_active(self.jobs@) <= self.limit as nat
        &&& forall|i: int| 0 <= i < self.jobs@.len() ==> (#[trigger] self.jobs@[i]).inv()
    }

    /// The configuration a transition never touches.
    pub open spec fn same_config(self, o: Batch) -> bool {
        self.limit == o.limit && self.flag == o.flag && self.finished == o.finished
    }

    /// Every job but `j` is untouched.
    pub open spec fn jobs_unchanged_except(self, o: Batch, j: int) -> bool {
        self.jobs@.len() == o.jobs@.len() && forall|k: int|
            0 <= k < o.jobs@.len() && k != j ==> self.jobs@[k] == o.jobs@[k]
    }

    /// Job `j` keeps its identity.
    pub open spec fn same_identity_at(self, o: Batch, j: int) -> bool {
        self.jobs@[j].id == o.jobs@[j].id && self.jobs@[j].url == o.jobs@[j].url
    }

    /// Starts a batch over the given items. The cancellation flag starts
    /// cleared: a stop request left over from an earlier batch never leaks
    /// into a new one.
    pub fn new(items: &Vec<DownloadItem>, limit: u8) -> (b: Batch)
        requires
            1 <= limit <= 10,
        ensures
            b.inv(),
            !b.flag.requested,
            !b.finished,
            b.limit == limit,
            b.jobs@.len() == items@.len(),
            count_active(b.jobs@) == 0,
            forall|i: int|
                0 <= i < items@.len() ==> (#[trigger] b.jobs@[i]).phase is Queued
                    && b.jobs@[i].id@ == items@[i].id@ && b.jobs@[i].url@ == items@[i].url@
                    && b.jobs@[i].log@ == Seq::<ProgressModel>::empty(),
    {
        let mut jobs: Vec<JobState> = Vec::new();
        let mut i: usize = 0;
        while i < items.len()
            invariant
                i <= items@.len(),
                jobs@.len() == i,
                forall|k: int|
                    0 <= k < i ==> (#[trigger] jobs@[k]).phase is Queued && jobs@[k].id@
                        == items@[k].id@ && jobs@[k].url@ == items@[k].url@ && jobs@[k].log@
                        == Seq::<ProgressModel>::empty() && jobs@[k].inv() && !jobs@[k].active(),
                count_active(jobs@) == 0,
            decreases items@.len() - i,
        {
            let job = JobState {
                id: items[i].id.clone(),
                url: items[i].url.clone(),
                phase: JobPhase::Queued,
                outcome: None,
                last_progress: 0,
                log: Ghost(Seq::empty()),
            };
            let ghost pre = jobs@;
            jobs.push(job);
            proof {
                assert(jobs@.drop_last() =~= pre);
            }
            i += 1;
        }
        Batch { limit, flag: StopFlag { requested: false }, jobs, finished: false }
    }

    /// Reads the shared stop request.
    pub fn stop_requested(&self) -> (r: bool)
        ensures
            r == self.flag.requested,
    {
        is_stop_requested(&self.flag)
    }

    /// The stop entry point: sets the shared flag. Jobs observe it at their
    /// next poll; nothing is emitted for them here, so the call is
    /// idempotent.
    pub fn request_stop(&mut self)
        requires
            old(self).inv(),
        ensures
            final(self).inv(),
            final(self).flag.requested,
            final(self).jobs == old(self).jobs,
            final(self).limit == old(self).limit,
            final(self).finished == old(self).finished,
    {
        self.flag.requested = true;
    }

    /// How many jobs currently hold an admission slot.
    pub fn active_count(&self) -> (r: usize)
        ensures
            r == count_active(self.jobs@),
    {
        let mut cnt: usize = 0;
        let mut i: usize = 0;
        while i < self.jobs.len()
            invariant
                i <= self.jobs@.len(),
                cnt == count_active(self.jobs@.subrange(0, i as int)),
                cnt <= i,
            decreases self.jobs@.len() - i,
        {
            let ghost pre = self.jobs@.subrange(0, i as int);
            let ghost post = self.jobs@.subrange(0, i as int + 1);
            proof {
                assert(post.drop_last() =~= pre);
                assert(post.last() == self.jobs@[i as int]);
            }
            let ph = self.jobs[i].phase;
            if matches!(ph, JobPhase::Admitted) || matches!(ph, JobPhase::Running) {
                cnt += 1;
            }
            i += 1;
        }
        proof {
            assert(self.jobs@.subrange(0, self.jobs@.len() as int) =~= self.jobs@);
        }
        cnt
    }

    /// Admission control: when a slot is free and some job still waits, the
    /// first waiting job takes the slot and its Pending event is emitted.
    /// Returns the admitted index and the event to forward, or nothing when
    /// every slot is taken or no job waits.
    pub fn try_admit(&mut self) -> (r: Option<(usize, DownloadProgress)>)
        requires
            old(self).inv(),
        ensures
            final(self).inv(),
            final(self).same_config(*old(self)),
            match r {
                Some((j, ev)) => {
                    &&& (j as int) < old(self).jobs@.len()
                    &&& old(self).jobs@[j as int].phase is Queued
                    &&& forall|k: int|
                        0 <= k < j ==> !((#[trigger] old(self).jobs@[k]).phase is Queued)
                    &&& count_active(old(self).jobs@) < old(self).limit as nat
                    &&& final(self).jobs_unchanged_except(*old(self), j as int)
                    &&& final(self).same_identity_at(*old(self), j as int)
                    &&& final(self).jobs@[j as int].phase is Admitted
                    &&& final(self).jobs@[j as int].outcome is None
                    &&& ev@ == spec_pending_event(old(self).jobs@[j as int].id@)
                    &&& final(self).jobs@[j as int].log@ == old(self).jobs@[j as int].log@.push(
                        ev@,
                    )
                },
                None => {
                    &&& *final(self) == *old(self)
                    &&& (count_active(old(self).jobs@) >= old(self).limit as nat || forall|k: int|
                        0 <= k < old(self).jobs@.len() ==> !((#[trigger] old(
                            self,
                        ).jobs@[k]).phase is Queued))
                },
            },
    {
        let cnt = self.active_count();
        if cnt >= self.limit as usize {
            return None;
        }
        let n = self.jobs.len();
        let mut j: usize = 0;
        while j < n
            invariant
                n == self.jobs@.len(),
                j <= n,
                forall|k: int| 0 <= k < j ==> !((#[trigger] self.jobs@[k]).phase is Queued),
            ensures
                j <= n,
                n == self.jobs@.len(),
                forall|k: int| 0 <= k < j ==> !((#[trigger] self.jobs@[k]).phase is Queued),
                j < n ==> self.jobs@[j as int].phase is Queued,
            decreases n - j,
        {
            if matches!(self.jobs[j].phase, JobPhase::Queued) {
                break;
            }
            j += 1;
        }
        if j >= n {
            return None;
        }
        let id = self.jobs[j].id.clone();
        let url = self.jobs[j].url.clone();
        let ev = DownloadProgress {
            id: id.clone(),
            status: DownloadStatus::Pending,
            progress: 0,
            speed: None,
            eta: None,
            downloaded: None,
            total_size: None,
            error: None,
        };
        let ghost oldjob = self.jobs@[j as int];
        proof {
            assert(oldjob.inv());
        }
        let newjob = JobState {
            id,
            url,
            phase: JobPhase::Admitted,
            outcome: None,
            last_progress: 0,
            log: Ghost(oldjob.log@.push(ev@)),
        };
        proof {
            lemma_count_active_update(self.jobs@, j as int, newjob);
        }
        self.jobs.set(j, newjob);
        proof {
            assert(ev@ =~= spec_pending_event(oldjob.id@));
            assert(self.jobs@[j as int].inv()) by {
                assert(oldjob.log@.len() == 0);
                assert(self.jobs@[j as int].log@ =~= seq![ev@]);
            }
        }
        Some((j, ev))
    }

    /// An admitted job begins: the cancellation flag is checked before
    /// anything else, so an already-requested stop cancels the job without a
    /// subprocess ever being spawned; otherwise the outcome of the setup
    /// decides. A clean spawn emits the initial Downloading event and the job
    /// runs; a setup failure is terminal for this job alone. Returns the
    /// events to forward, in order.
    pub fn start_job(&mut self, j: usize, setup: SetupResult) -> (evs: Vec<DownloadProgress>)
        requires
            old(self).inv(),
            j < old(self).jobs@.len(),
            old(self).jobs@[j as int].phase is Admitted,
        ensures
            final(self).inv(),
            final(self).same_config(*old(self)),
            final(self).jobs_unchanged_except(*old(self), j as int),
            final(self).same_identity_at(*old(self), j as int),
            ({
                let oj = old(self).jobs@[j as int];
                let nj = final(self).jobs@[j as int];
                if old(self).flag.requested {
                    &&& nj.phase is Done
                    &&& nj.outcome == Some(DownloadStatus::Cancelled)
                    &&& evs@.len() == 1
                    &&& evs@[0]@ == spec_cancel_event(oj.id@, oj.last_progress)
                    &&& nj.log@ == oj.log@.push(spec_cancel_event(oj.id@, oj.last_progress))
                } else {
                    match setup {
                        SetupResult::Ready => {
                            &&& nj.phase is Running
                            &&& nj.outcome is None
                            &&& evs@.len() == 1
                            &&& evs@[0]@ == spec_start_event(oj.id@)
                            &&& nj.log@ == oj.log@.push(spec_start_event(oj.id@))
                        },
                        SetupResult::Failed(e) => {
                            &&& nj.phase is Done
                            &&& nj.outcome == Some(terminal_status_of(e))
                            &&& evs@.len() == 1
                            &&& evs@[0]@ == spec_fail_event(
                                oj.id@,
                                terminal_status_of(e),
                                e.spec_message(),
                            )
                            &&& nj.log@ == oj.log@.push(
                                spec_fail_event(oj.id@, terminal_status_of(e), e.spec_message()),
                            )
                        },
                        SetupResult::SpawnFailed(m) => {
                            &&& nj.phase is Done
                            &&& nj.outcome == Some(DownloadStatus::Error)
                            &&& evs@.len() == 2
                            &&& evs@[0]@ == spec_start_event(oj.id@)
                            &&& evs@[1]@ == spec_fail_event(
                                oj.id@,
                                DownloadStatus::Error,
                                "Download failed: "@ + m@,
                            )
                            &&& nj.log@ == oj.log@.push(spec_start_event(oj.id@)).push(
                                spec_fail_event(
                                    oj.id@,
                                    DownloadStatus::Error,
                                    "Download failed: "@ + m@,
                                ),
                            )
                        },
                    }
                }
            }),
    {
        let id = self.jobs[j].id.clone();
        let url = self.jobs[j].url.clone();
        let last = self.jobs[j].last_progress;
        let ghost oldjob = self.jobs@[j as int];
        proof {
            assert(oldjob.inv());
        }
        let mut evs: Vec<DownloadProgress> = Vec::new();
        if is_stop_requested(&self.flag) {
            let ev = DownloadProgress {
                id: id.clone(),
                status: DownloadStatus::Cancelled,
                progress: last,
                speed: None,
                eta: None,
                downloaded: None,
                total_size: None,
                error: Some(String::from_str("Download cancelled")),
            };
            proof {
                assert(ev@ =~= spec_cancel_event(oldjob.id@, oldjob.last_progress));
            }
            let newjob = JobState {
                id,
                url,
                phase: JobPhase::Done,
                outcome: Some(DownloadStatus::Cancelled),
                last_progress: last,
                log: Ghost(oldjob.log@.push(spec_cancel_event(oldjob.id@, oldjob.last_progress))),
            };
            proof {
                lemma_count_active_update(self.jobs@, j as int, newjob);
                assert(newjob.log@.drop_last() =~= oldjob.log@);
                assert(newjob.inv());
            }
            self.jobs.set(j, newjob);
            evs.push(ev);
            return evs;
        }
        match setup {
            SetupResult::Ready => {
                let ev = DownloadProgress {
                    id: id.clone(),
                    status: DownloadStatus::Downloading,
                    progress: 0,
                    speed: None,
                    eta: None,
                    downloaded: None,
                    total_size: None,
                    error: None,
                };
                proof {
                    assert(ev@ =~= spec_start_event(oldjob.id@));
                }
                let newjob = JobState {
                    id,
                    url,
                    phase: JobPhase::Running,
                    outcome: None,
                    last_progress: 0,
                    log: Ghost(oldjob.log@.push(spec_start_event(oldjob.id@))),
                };
                proof {
                    lemma_count_active_update(self.jobs@, j as int, newjob);
                    assert(newjob.log@.drop_last() =~= oldjob.log@);
                    assert(newjob.inv());
                }
                self.jobs.set(j, newjob);
                evs.push(ev);
            },
            SetupResult::Failed(e) => {
                let st = match &e {
                    DownloadError::Cancelled => DownloadStatus::Cancelled,
                    _ => DownloadStatus::Error,
                };
                let ev = DownloadProgress {
                    id: id.clone(),
                    status: st,
                    progress: 0,
                    speed: None,
                    eta: None,
                    downloaded: None,
                    total_size: None,
                    error: Some(e.message()),
                };
                proof {
                    assert(ev@ =~= spec_fail_event(oldjob.id@, terminal_status_of(e), e.spec_message()));
                }
                let newjob = JobState {
                    id,
                    url,
                    phase: JobPhase::Done,
                    outcome: Some(st),
                    last_progress: last,
                    log: Ghost(
                        oldjob.log@.push(
                            spec_fail_event(oldjob.id@, terminal_status_of(e), e.spec_message()),
                        ),
                    ),
                };
                proof {
                    lemma_count_active_update(self.jobs@, j as int, newjob);
                    assert(newjob.log@.drop_last() =~= oldjob.log@);
                    assert(newjob.inv());
                }
                self.jobs.set(j, newjob);
                evs.push(ev);
            },
            SetupResult::SpawnFailed(m) => {
                let ev0 = DownloadProgress {
                    id: id.clone(),
                    status: DownloadStatus::Downloading,
                    progress: 0,
                    speed: None,
                    eta: None,
                    downloaded: None,
                    total_size: None,
                    error: None,
                };
                let mut msg = String::from_str("Download failed: ");
                msg.append(m.as_str());
                let ev1 = DownloadProgress {
                    id: id.clone(),
                    status: DownloadStatus::Error,
                    progress: 0,
                    speed: None,
                    eta: None,
                    downloaded: None,
                    total_size: None,
                    error: Some(msg),
                };
                proof {
                    assert(ev0@ =~= spec_start_event(oldjob.id@));
                    assert(ev1@ =~= spec_fail_event(
                        oldjob.id@,
                        DownloadStatus::Error,
                        "Download failed: "@ + m@,
                    ));
                }
                let newjob = JobState {
                    id,
                    url,
                    phase: JobPhase::Done,
                    outcome: Some(DownloadStatus::Error),
                    last_progress: 0,
                    log: Ghost(
                        oldjob.log@.push(spec_start_event(oldjob.id@)).push(
                            spec_fail_event(
                                oldjob.id@,
                                DownloadStatus::Error,
                                "Download failed: "@ + m@,
                            ),
                        ),
                    ),
                };
                proof {
                    lemma_count_active_update(self.jobs@, j as int, newjob);
                    assert(newjob.log@.drop_last() =~= oldjob.log@.push(
                        spec_start_event(oldjob.id@),
                    ));
                    assert(newjob.log@.drop_last().drop_last() =~= oldjob.log@);
                    assert forall|k: int|
                        0 <= k < newjob.log@.len() - 1 implies !is_terminal(
                        (#[trigger] newjob.log@[k]).status,
                    ) by {
                        if k < oldjob.log@.len() {
                            assert(newjob.log@[k] == oldjob.log@[k]);
                        } else {
                            assert(newjob.log@[k] == spec_start_event(oldjob.id@));
                        }
                    }
                    assert forall|k: int| 0 <= k < newjob.log@.len() implies (
                        #[trigger] newjob.log@[k]).id == newjob.id@ by {
                        if k < oldjob.log@.len() {
                            assert(newjob.log@[k] == oldjob.log@[k]);
                        }
                    }
                    assert(spec_last_known(newjob.log@) == spec_last_known(
                        oldjob.log@.push(spec_start_event(oldjob.id@)),
                    ));
                    assert(spec_last_known(oldjob.log@.push(spec_start_event(oldjob.id@))) == 0);
                    assert(newjob.inv());
                }
                self.jobs.set(j, newjob);
                evs.push(ev0);
                evs.push(ev1);
            },
        }
        evs
    }

    /// One line of the running job's output: ignored entirely once a stop is
    /// requested (the reader is winding down); otherwise parsed, and the
    /// resulting event, if any, is logged and returned for forwarding. Lines
    /// never end a job: whatever they say, the job stays Running.
    pub fn on_line(&mut self, j: usize, line: &str) -> (r: Option<DownloadProgress>)
        requires
            old(self).inv(),
            j < old(self).jobs@.len(),
            old(self).jobs@[j as int].phase is Running,
        ensures
            final(self).inv(),
            final(self).same_config(*old(self)),
            final(self).jobs_unchanged_except(*old(self), j as int),
            final(self).same_identity_at(*old(self), j as int),
            final(self).jobs@[j as int].phase is Running,
            old(self).flag.requested ==> r is None && final(self).jobs@[j as int] == old(
                self,
            ).jobs@[j as int],
            !old(self).flag.requested ==> ({
                let oj = old(self).jobs@[j as int];
                let nj = final(self).jobs@[j as int];
                match r {
                    None => spec_parse_line(line@, oj.id@) is None && nj == oj,
                    Some(ev) => {
                        &&& spec_parse_line(line@, oj.id@) == Some(ev@)
                        &&& nj.log@ == oj.log@.push(ev@)
                        &&& nj.last_progress == ev@.progress
                        &&& nj.outcome is None
                    },
                }
            }),
    {
        if is_stop_requested(&self.flag) {
            return None;
        }
        let id = self.jobs[j].id.clone();
        let url = self.jobs[j].url.clone();
        let ghost oldjob = self.jobs@[j as int];
        proof {
            assert(oldjob.inv());
        }
        match parse_progress_line(line, id.as_str()) {
            None => None,
            Some(ev) => {
                let p = ev.progress;
                let newjob = JobState {
                    id,
                    url,
                    phase: JobPhase::Running,
                    outcome: None,
                    last_progress: p,
                    log: Ghost(oldjob.log@.push(ev@)),
                };
                proof {
                    lemma_count_active_update(self.jobs@, j as int, newjob);
                    assert(!is_terminal(ev@.status));
                    assert(newjob.log@.drop_last() =~= oldjob.log@);
                    assert(newjob.inv());
                }
                self.jobs.set(j, newjob);
                Some(ev)
            },
        }
    }

    /// The supervision loop observed the stop request while the job ran: the
    /// subprocess is killed outside and the terminal Cancelled event is
    /// emitted here, with progress frozen at the last known value.
    pub fn on_stop_observed(&mut self, j: usize) -> (ev: DownloadProgress)
        requires
            old(self).inv(),
            j < old(self).jobs@.len(),
            old(self).jobs@[j as int].phase is Running,
            old(self).flag.requested,
        ensures
            final(self).inv(),
            final(self).same_config(*old(self)),
            final(self).jobs_unchanged_except(*old(self), j as int),
            final(self).same_identity_at(*old(self), j as int),
            ({
                let oj = old(self).jobs@[j as int];
                let nj = final(self).jobs@[j as int];
                &&& nj.phase is Done
                &&& nj.outcome == Some(DownloadStatus::Cancelled)
                &&& ev@ == spec_cancel_event(oj.id@, oj.last_progress)
                &&& nj.log@ == oj.log@.push(spec_cancel_event(oj.id@, oj.last_progress))
            }),
    {
        let id = self.jobs[j].id.clone();
        let url = self.jobs[j].url.clone();
        let last = self.jobs[j].last_progress;
        let ghost oldjob = self.jobs@[j as int];
        proof {
            assert(oldjob.inv());
        }
        let ev = DownloadProgress {
            id: id.clone(),
            status: DownloadStatus::Cancelled,
            progress: last,
            speed: None,
            eta: None,
            downloaded: None,
            total_size: None,
            error: Some(String::from_str("Download cancelled")),
        };
        proof {
            assert(ev@ =~= spec_cancel_event(oldjob.id@, oldjob.last_progress));
        }
        let newjob = JobState {
            id,
            url,
            phase: JobPhase::Done,
            outcome: Some(DownloadStatus::Cancelled),
            last_progress: last,
            log: Ghost(oldjob.log@.push(spec_cancel_event(oldjob.id@, oldjob.last_progress))),
        };
        proof {
            lemma_count_active_update(self.jobs@, j as int, newjob);
            assert(newjob.log@.drop_last() =~= oldjob.log@);
            assert(newjob.inv());
        }
        self.jobs.set(j, newjob);
        ev
    }

    /// The subprocess was reaped: a pending stop request takes precedence
    /// and the job is Cancelled whatever the exit status was; otherwise a
    /// clean exit Completes the job at 100% and any other exit is an Error
    /// carrying the captured diagnostic output.
    pub fn on_exit(&mut self, j: usize, exit_ok: bool, stderr: &str) -> (ev: DownloadProgress)
        requires
            old(self).inv(),
            j < old(self).jobs@.len(),
            old(self).jobs@[j as int].phase is Running,
        ensures
            final(self).inv(),
            final(self).same_config(*old(self)),
            final(self).jobs_unchanged_except(*old(self), j as int),
            final(self).same_identity_at(*old(self), j as int),
            ({
                let oj = old(self).jobs@[j as int];
                let nj = final(self).jobs@[j as int];
                let st = exit_status(old(self).flag.requested, exit_ok);
                &&& nj.phase is Done
                &&& nj.outcome == Some(st)
                &&& ev@ == (if st is Cancelled {
                    spec_cancel_event(oj.id@, oj.last_progress)
                } else if st is Completed {
                    spec_complete_event(oj.id@)
                } else {
                    spec_fail_event(oj.id@, DownloadStatus::Error, "Download failed: "@ + stderr@)
                })
                &&& nj.log@ == oj.log@.push(ev@)
            }),
    {
        let id = self.jobs[j].id.clone();
        let url = self.jobs[j].url.clone();
        let last = self.jobs[j].last_progress;
        let ghost oldjob = self.jobs@[j as int];
        proof {
            assert(oldjob.inv());
        }
        let stopped = is_stop_requested(&self.flag);
        let (st, ev) = if stopped {
            (
                DownloadStatus::Cancelled,
                DownloadProgress {
                    id: id.clone(),
                    status: DownloadStatus::Cancelled,
                    progress: last,
                    speed: None,
                    eta: None,
                    downloaded: None,
                    total_size: None,
                    error: Some(String::from_str("Download cancelled")),
                },
            )
        } else if exit_ok {
            (
                DownloadStatus::Completed,
                DownloadProgress {
                    id: id.clone(),
                    status: DownloadStatus::Completed,
                    progress: 100_000,
                    speed: None,
                    eta: None,
                    downloaded: None,
                    total_size: None,
                    error: None,
                },
            )
        } else {
            let mut msg = String::from_str("Download failed: ");
            msg.append(stderr);
            (
                DownloadStatus::Error,
                DownloadProgress {
                    id: id.clone(),
                    status: DownloadStatus::Error,
                    progress: 0,
                    speed: None,
                    eta: None,
                    downloaded: None,
                    total_size: None,
                    error: Some(msg),
                },
            )
        };
        proof {
            let stsp = exit_status(old(self).flag.requested, exit_ok);
            if stsp is Cancelled {
                assert(ev@ =~= spec_cancel_event(oldjob.id@, oldjob.last_progress));
            } else if stsp is Completed {
                assert(ev@ =~= spec_complete_event(oldjob.id@));
            } else {
                assert(ev@ =~= spec_fail_event(
                    oldjob.id@,
                    DownloadStatus::Error,
                    "Download failed: "@ + stderr@,
                ));
            }
        }
        let newjob = JobState {
            id,
            url,
            phase: JobPhase::Done,
            outcome: Some(st),
            last_progress: last,
            log: Ghost(oldjob.log@.push(ev@)),
        };
        proof {
            lemma_count_active_update(self.jobs@, j as int, newjob);
            assert(newjob.log@.drop_last() =~= oldjob.log@);
            assert(newjob.inv());
        }
        self.jobs.set(j, newjob);
        ev
    }

    /// Have all jobs reached a terminal state?
    pub fn all_done(&self) -> (r: bool)
        ensures
            r == (forall|i: int|
                0 <= i < self.jobs@.len() ==> (#[trigger] self.jobs@[i]).phase is Done),
    {
        let mut i: usize = 0;
        while i < self.jobs.len()
            invariant
                i <= self.jobs@.len(),
                forall|k: int| 0 <= k < i ==> (#[trigger] self.jobs@[k]).phase is Done,
            decreases self.jobs@.len() - i,
        {
            if !matches!(self.jobs[i].phase, JobPhase::Done) {
                return false;
            }
            i += 1;
        }
        true
    }

    /// Declares the batch complete. Callable exactly once, and only after
    /// every launched job has reached a terminal state, so the one
    /// batch-complete signal follows the last per-job terminal event.
    pub fn finish(&mut self)
        requires
            old(self).inv(),
            !old(self).finished,
            forall|i: int|
                0 <= i < old(self).jobs@.len() ==> (#[trigger] old(self).jobs@[i]).phase is Done,
        ensures
            final(self).inv(),
            final(self).finished,
            final(self).jobs == old(self).jobs,
            final(self).limit == old(self).limit,
            final(self).flag == old(self).flag,
    {
        self.finished = true;
    }
}

// ---------------------------------------------------------------------------
// Laws of the coordinator.
// ---------------------------------------------------------------------------

/// Law: for any job, exactly one terminal event is ever emitted, and it is
/// the last event of that job's stream; a job that is not yet Done has
/// emitted none.
pub proof fn lemma_terminal_event_once(b: &Batch, j: int)
    requires
        b.inv(),
        0 <= j < b.jobs@.len(),
    ensures
        b.jobs@[j].phase is Done ==> count_terminal(b.jobs@[j].log@) == 1 && is_terminal(
            b.jobs@[j].log@.last().status,
        ) && (forall|k: int|
            0 <= k < b.jobs@[j].log@.len() - 1 ==> !is_terminal(
                (#[trigger] b.jobs@[j].log@[k]).status,
            )),
        !(b.jobs@[j].phase is Done) ==> count_terminal(b.jobs@[j].log@) == 0,
{
    let log = b.jobs@[j].log@;
    if b.jobs@[j].phase is Done {
        assert(forall|k: int|
            0 <= k < log.drop_last().len() ==> !is_terminal(
                (#[trigger] log.drop_last()[k]).status,
            ));
        lemma_count_terminal_none(log.drop_last());
    } else {
        lemma_count_terminal_none(log);
    }
}

/// Law: at no point do more jobs hold an admission slot (Admitted or
/// Running) than the concurrency limit allows.
pub proof fn lemma_concurrency_bounded(b: &Batch)
    requires
        b.inv(),
    ensures
        count_active(b.jobs@) <= b.limit as nat,
{
}

/// Law: once a stop is requested, the only terminal status the supervision
/// loop can assign at exit is Cancelled, whatever the subprocess's own exit
/// status was.
pub proof fn lemma_stop_forces_cancel(exit_ok: bool)
    ensures
        exit_status(true, exit_ok) is Cancelled,
{
}

} // verus!
