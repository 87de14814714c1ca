use youtube_to_mp3::batch::{Batch, JobPhase, SetupResult};
use youtube_to_mp3::downloader::{DownloadError, DownloadItem, DownloadProgress, DownloadStatus};

fn items(n: usize) -> Vec<DownloadItem> {
    let mut v = Vec::new();
    for k in 0..n {
        v.push(DownloadItem { id: format!("id{}", k), url: format!("https://u/{}", k) });
    }
    v
}

fn is_terminal(st: &DownloadStatus) -> bool {
    matches!(st, DownloadStatus::Completed | DownloadStatus::Error | DownloadStatus::Cancelled)
}

#[test]
fn three_jobs_limit_one_run_strictly_sequentially() {
    let its = items(3);
    let mut b = Batch::new(&its, 1);

    let (j0, ev0) = b.try_admit().expect("first admission");
    assert_eq!(j0, 0);
    assert!(matches!(ev0.status, DownloadStatus::Pending));
    assert_eq!(ev0.progress, 0);

    // while job 0 holds the slot, neither sibling is admitted
    assert!(b.try_admit().is_none());
    let evs = b.start_job(0, SetupResult::Ready);
    assert_eq!(evs.len(), 1);
    assert!(matches!(evs[0].status, DownloadStatus::Downloading));
    assert!(b.try_admit().is_none());

    let done0 = b.on_exit(0, true, "");
    assert!(matches!(done0.status, DownloadStatus::Completed));
    assert_eq!(done0.progress, 100_000);

    let (j1, _) = b.try_admit().expect("second admission after the slot freed");
    assert_eq!(j1, 1);
    assert!(b.try_admit().is_none());
    b.start_job(1, SetupResult::Ready);
    b.on_exit(1, true, "");

    let (j2, _) = b.try_admit().expect("third admission");
    assert_eq!(j2, 2);
    b.start_job(2, SetupResult::Ready);
    b.on_exit(2, true, "");

    assert!(b.all_done());
    b.finish();
}

#[test]
fn exactly_one_terminal_event_and_it_is_last() {
    let its = items(1);
    let mut b = Batch::new(&its, 2);
    let mut events: Vec<DownloadProgress> = Vec::new();

    let (_, ev) = b.try_admit().unwrap();
    events.push(ev);
    for e in b.start_job(0, SetupResult::Ready) {
        events.push(e);
    }
    if let Some(e) = b.on_line(0, "[download] 45.0% of 10MiB at 1MiB/s ETA 00:07") {
        events.push(e);
    }
    if let Some(e) = b.on_line(0, "some chatter") {
        events.push(e);
    }
    events.push(b.on_exit(0, true, ""));

    let terminal_count = events.iter().filter(|e| is_terminal(&e.status)).count();
    assert_eq!(terminal_count, 1);
    assert!(is_terminal(&events.last().unwrap().status));
    assert!(events.iter().all(|e| e.id == "id0"));
}

#[test]
fn stop_cancels_every_running_job_whatever_the_exit() {
    let its = items(2);
    let mut b = Batch::new(&its, 2);
    b.try_admit().unwrap();
    b.try_admit().unwrap();
    b.start_job(0, SetupResult::Ready);
    b.start_job(1, SetupResult::Ready);

    b.request_stop();
    assert!(b.stop_requested());

    // lines are ignored once the stop is requested
    assert!(b.on_line(0, "[download] 80.0%").is_none());

    // even a clean exit is reported as Cancelled after the stop
    let e0 = b.on_exit(0, true, "");
    assert!(matches!(e0.status, DownloadStatus::Cancelled));
    let e1 = b.on_stop_observed(1);
    assert!(matches!(e1.status, DownloadStatus::Cancelled));

    assert!(b.all_done());
    b.finish();
}

#[test]
fn a_new_batch_does_not_inherit_a_stale_stop() {
    let its = items(1);
    let mut b1 = Batch::new(&its, 1);
    b1.request_stop();
    assert!(b1.stop_requested());

    let b2 = Batch::new(&its, 1);
    assert!(!b2.stop_requested());
}

#[test]
fn cancelled_progress_keeps_the_last_known_value() {
    let its = items(1);
    let mut b = Batch::new(&its, 1);
    b.try_admit().unwrap();
    b.start_job(0, SetupResult::Ready);
    let ev = b.on_line(0, "[download] 37.5% of 1MiB at 1MiB/s ETA 00:01").unwrap();
    assert_eq!(ev.progress, 37_500);

    b.request_stop();
    let c = b.on_stop_observed(0);
    assert!(matches!(c.status, DownloadStatus::Cancelled));
    assert_eq!(c.progress, 37_500);
    assert_eq!(c.error.as_deref(), Some("Download cancelled"));
}

#[test]
fn setup_failure_is_terminal_for_that_job_alone() {
    let its = items(2);
    let mut b = Batch::new(&its, 2);
    b.try_admit().unwrap();
    b.try_admit().unwrap();

    let evs = b.start_job(0, SetupResult::Failed(DownloadError::YtDlpNotFound));
    assert_eq!(evs.len(), 1);
    assert!(matches!(evs[0].status, DownloadStatus::Error));
    assert_eq!(evs[0].error.as_deref(), Some("yt-dlp not found"));
    assert_eq!(evs[0].progress, 0);

    // the sibling proceeds untouched
    let evs1 = b.start_job(1, SetupResult::Ready);
    assert!(matches!(evs1[0].status, DownloadStatus::Downloading));
    let done = b.on_exit(1, true, "");
    assert!(matches!(done.status, DownloadStatus::Completed));
    assert!(b.all_done());
}

#[test]
fn spawn_failure_emits_downloading_then_error() {
    let its = items(1);
    let mut b = Batch::new(&its, 1);
    b.try_admit().unwrap();
    let evs = b.start_job(0, SetupResult::SpawnFailed(String::from("no such file")));
    assert_eq!(evs.len(), 2);
    assert!(matches!(evs[0].status, DownloadStatus::Downloading));
    assert!(matches!(evs[1].status, DownloadStatus::Error));
    assert_eq!(evs[1].error.as_deref(), Some("Download failed: no such file"));
}

#[test]
fn stop_before_start_cancels_without_spawning() {
    let its = items(1);
    let mut b = Batch::new(&its, 1);
    b.try_admit().unwrap();
    b.request_stop();
    let evs = b.start_job(0, SetupResult::Ready);
    assert_eq!(evs.len(), 1);
    assert!(matches!(evs[0].status, DownloadStatus::Cancelled));
    assert_eq!(evs[0].progress, 0);
    assert!(b.all_done());
}

#[test]
fn failed_exit_carries_the_diagnostic_output() {
    let its = items(1);
    let mut b = Batch::new(&its, 1);
    b.try_admit().unwrap();
    b.start_job(0, SetupResult::Ready);
    let ev = b.on_exit(0, false, "ERROR: video unavailable");
    assert!(matches!(ev.status, DownloadStatus::Error));
    assert_eq!(ev.error.as_deref(), Some("Download failed: ERROR: video unavailable"));
}

#[test]
fn percentage_is_not_monotonic_across_the_processing_handoff() {
    // a 100% download line hands off to Processing, and the post-processing
    // marker then re-reports the fixed 95% sentinel; both events flow, and
    // neither ends the job
    let its = items(1);
    let mut b = Batch::new(&its, 1);
    b.try_admit().unwrap();
    b.start_job(0, SetupResult::Ready);

    let e1 = b.on_line(0, "[download] 100% of 10MiB in 00:08").unwrap();
    assert!(matches!(e1.status, DownloadStatus::Processing));
    assert_eq!(e1.progress, 100_000);

    let e2 = b.on_line(0, "[ffmpeg] Correcting container").unwrap();
    assert!(matches!(e2.status, DownloadStatus::Processing));
    assert_eq!(e2.progress, 95_000);

    assert!(matches!(b.jobs[0].phase, JobPhase::Running));
    let done = b.on_exit(0, true, "");
    assert!(matches!(done.status, DownloadStatus::Completed));
}

#[test]
fn phases_are_observable() {
    let its = items(1);
    let mut b = Batch::new(&its, 1);
    assert!(matches!(b.jobs[0].phase, JobPhase::Queued));
    b.try_admit().unwrap();
    assert!(matches!(b.jobs[0].phase, JobPhase::Admitted));
    b.start_job(0, SetupResult::Ready);
    assert!(matches!(b.jobs[0].phase, JobPhase::Running));
    b.on_exit(0, true, "");
    assert!(matches!(b.jobs[0].phase, JobPhase::Done));
    assert!(matches!(b.jobs[0].outcome, Some(DownloadStatus::Completed)));
}
