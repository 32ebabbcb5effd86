//! The scheduler's lifecycle over concrete jobs, the progress reporter's
//! filtering, and the bounded job tracker.

use realize_core::Arena;
use realize_core::ChurtenNotification;
use realize_core::Churten;
use realize_core::Job;
use realize_core::JobHandlerImpl;
use realize_core::JobId;
use realize_core::JobInfoTracker;
use realize_core::JobProgress;
use realize_core::JobStatus;
use realize_core::Path;
use realize_core::DownloadDecision;
use realize_core::PARALLEL_JOB_COUNT;
use realize_core::JobAction;

fn arena() -> Arena {
    Arena::new(b"testdir".to_vec())
}

fn download(name: &str, seed: u64) -> Job {
    Job::Download(
        Path::parse(name.as_bytes().to_vec()).unwrap(),
        realize_core::types::Hash::from_words(seed, seed, seed, seed),
    )
}

#[test]
fn churten_job_succeeds() {
    let mut churten = Churten::new();
    churten.start();
    assert!(churten.is_running());
    let id = JobId(1);
    let n = churten.observe(arena(), id, download("foo", 1));
    assert!(matches!(n, ChurtenNotification::New { job_id: JobId(1), .. }));
    let (start, mut progress) = churten.try_start(id).expect("a slot is free");
    assert!(matches!(start, ChurtenNotification::Start { job_id: JobId(1), .. }));
    // The handler reports fifty then a hundred kibibytes, as of index two.
    let n1 = progress.update(50 * 1024, 100 * 1024, 128).expect("first update publishes");
    assert!(matches!(
        n1,
        ChurtenNotification::UpdateByteCount { current_bytes: 51200, total_bytes: 102400, index: 2, .. }
    ));
    let n2 = progress.update(100 * 1024, 100 * 1024, 128).expect("terminal update publishes");
    assert!(matches!(
        n2,
        ChurtenNotification::UpdateByteCount { current_bytes: 102400, index: 3, .. }
    ));
    let (fin, report) = churten.finish(id, Ok(JobStatus::Done));
    assert!(matches!(
        fin,
        ChurtenNotification::Finish { progress: JobProgress::Done, job_id: JobId(1), .. }
    ));
    assert_eq!(report.job_id, id);
    assert!(matches!(report.status, Ok(JobStatus::Done)));
}

#[test]
fn churten_job_abandoned() {
    let mut churten = Churten::new();
    churten.start();
    let id = JobId(1);
    churten.observe(arena(), id, download("foo", 1));
    churten.try_start(id).unwrap();
    let (fin, report) = churten.finish(id, Ok(JobStatus::Abandoned));
    assert!(matches!(
        fin,
        ChurtenNotification::Finish { progress: JobProgress::Abandoned, .. }
    ));
    assert!(matches!(report.status, Ok(JobStatus::Abandoned)));
}

#[test]
fn churten_job_fails() {
    let mut churten = Churten::new();
    churten.start();
    let id = JobId(1);
    churten.observe(arena(), id, download("foo", 1));
    churten.try_start(id).unwrap();
    let (fin, report) = churten.finish(id, Err("Simulated job failure".to_string()));
    match fin {
        ChurtenNotification::Finish { progress: JobProgress::Failed(msg), .. } => {
            assert_eq!(msg, "Simulated job failure");
        }
        other => panic!("expected a failure, got {other:?}"),
    }
    assert!(matches!(report.status, Err(_)));
}

#[test]
fn churten_job_cancelled() {
    let mut churten = Churten::new();
    churten.start();
    let id = JobId(1);
    churten.observe(arena(), id, download("foo", 1));
    churten.try_start(id).unwrap();
    churten.shutdown();
    assert!(!churten.is_running());
    let (fin, report) = churten.finish(id, Err("cancelled".to_string()));
    assert!(matches!(
        fin,
        ChurtenNotification::Finish { progress: JobProgress::Cancelled, .. }
    ));
    assert!(matches!(report.status, Err(_)));
}

#[test]
fn churten_multiple_jobs_parallel() {
    // Five distinct paths: only four run at once; a slot frees on finish.
    let mut churten = Churten::new();
    churten.start();
    let names = ["foo1", "foo2", "foo3", "foo4", "foo5"];
    for (k, name) in names.iter().enumerate() {
        churten.observe(arena(), JobId(k as u64 + 1), download(name, k as u64));
    }
    for k in 0..PARALLEL_JOB_COUNT {
        assert!(churten.try_start(JobId(k as u64 + 1)).is_some());
    }
    assert_eq!(churten.running_jobs(), 4);
    assert!(churten.try_start(JobId(5)).is_none());
    churten.finish(JobId(2), Ok(JobStatus::Done));
    assert!(churten.try_start(JobId(5)).is_some());
    assert_eq!(churten.running_jobs(), 4);
}

#[test]
fn churten_start_twice_is_a_no_op() {
    let mut churten = Churten::new();
    churten.start();
    churten.start();
    assert!(churten.is_running());
}

#[test]
fn download_rerun_is_abandoned_without_transfer() {
    // A completed download reissued finds the content staged already.
    let handler = JobHandlerImpl::new();
    let expected = realize_core::types::Hash::from_words(9, 9, 9, 9);
    let decision = handler.download_decision(&expected, Some(&expected));
    assert!(matches!(decision, DownloadDecision::AlreadyStaged));
    let fresh = handler.download_decision(&expected, None);
    assert!(matches!(fresh, DownloadDecision::Fetch));
    let other = realize_core::types::Hash::from_words(1, 2, 3, 4);
    assert!(matches!(
        handler.download_decision(&expected, Some(&other)),
        DownloadDecision::Fetch
    ));
}

#[test]
fn realize_is_a_compare_and_swap() {
    let handler = JobHandlerImpl::new();
    let prior = realize_core::types::Hash::from_words(1, 1, 1, 1);
    let moved = realize_core::types::Hash::from_words(2, 2, 2, 2);
    assert!(handler.realize_decision(Some(&prior), Some(&prior)).is_ok());
    assert!(handler.realize_decision(None, None).is_ok());
    assert!(handler.realize_decision(Some(&moved), Some(&prior)).is_err());
    assert!(handler.realize_decision(None, Some(&prior)).is_err());
}

#[test]
fn unrealize_requires_the_indexed_hash() {
    let handler = JobHandlerImpl::new();
    let h = realize_core::types::Hash::from_words(1, 1, 1, 1);
    let other = realize_core::types::Hash::from_words(2, 2, 2, 2);
    assert!(handler.unrealize_decision(Some(&h), &h).is_ok());
    assert!(handler.unrealize_decision(Some(&other), &h).is_err());
    assert!(handler.unrealize_decision(None, &h).is_err());
}

#[test]
fn progress_filter_holds_small_increments() {
    let mut churten = Churten::new();
    churten.observe(arena(), JobId(1), download("foo", 1));
    let (_, mut progress) = churten.try_start(JobId(1)).unwrap();
    // The first update always publishes; then a one-byte move is held
    // back, and the terminal update passes.
    assert!(progress.update(0, 200 * 1024, 128).is_some());
    assert!(progress.update(1, 200 * 1024, 128).is_none());
    assert!(progress.update(64 * 1024, 200 * 1024, 128).is_some());
    assert!(progress.update(64 * 1024 + 5, 200 * 1024, 128).is_none());
    assert!(progress.update(200 * 1024, 200 * 1024, 128).is_some());
}

#[test]
fn progress_actions_number_consecutively() {
    let mut churten = Churten::new();
    churten.observe(arena(), JobId(1), download("foo", 1));
    let (_, mut progress) = churten.try_start(JobId(1)).unwrap();
    let a = progress.set_action(JobAction::Download);
    let b = progress.update(0, 11, 128).unwrap();
    let c = progress.update(11, 11, 128).unwrap();
    let d = progress.set_action(JobAction::Verify);
    assert!(matches!(a, ChurtenNotification::UpdateAction { index: 2, action: JobAction::Download, .. }));
    assert!(matches!(b, ChurtenNotification::UpdateByteCount { index: 3, current_bytes: 0, total_bytes: 11, .. }));
    assert!(matches!(c, ChurtenNotification::UpdateByteCount { index: 4, current_bytes: 11, .. }));
    assert!(matches!(d, ChurtenNotification::UpdateAction { index: 5, action: JobAction::Verify, .. }));
}

#[test]
fn tracker_follows_a_job_through_its_life() {
    let mut tracker = JobInfoTracker::new(16);
    let id = JobId(1);
    tracker.update(&ChurtenNotification::New { arena: arena(), job_id: id, job: download("foo", 1) });
    let active = tracker.active();
    assert_eq!(active.len(), 1);
    assert_eq!(active[0].id, id);
    assert_eq!(active[0].progress, JobProgress::Pending);
    tracker.update(&ChurtenNotification::Start { arena: arena(), job_id: id });
    assert_eq!(tracker.active()[0].progress, JobProgress::Running);
    tracker.update(&ChurtenNotification::UpdateAction {
        arena: arena(),
        job_id: id,
        action: JobAction::Download,
        index: 2,
    });
    assert_eq!(tracker.active()[0].action, Some(JobAction::Download));
    assert_eq!(tracker.active()[0].notification_index, 2);
    tracker.update(&ChurtenNotification::UpdateByteCount {
        arena: arena(),
        job_id: id,
        current_bytes: 5,
        total_bytes: 11,
        index: 3,
    });
    assert_eq!(tracker.active()[0].byte_progress, Some((5, 11)));
    tracker.update(&ChurtenNotification::Finish {
        arena: arena(),
        job_id: id,
        progress: JobProgress::Done,
    });
    assert_eq!(tracker.active().len(), 0);
    let all = tracker.all_jobs();
    assert_eq!(all.len(), 1);
    assert_eq!(all[0].progress, JobProgress::Done);
}

#[test]
fn tracker_window_evicts_oldest() {
    let mut tracker = JobInfoTracker::new(16);
    for k in 1..=20u64 {
        let id = JobId(k);
        tracker.update(&ChurtenNotification::New { arena: arena(), job_id: id, job: download("foo", k) });
        tracker.update(&ChurtenNotification::Finish {
            arena: arena(),
            job_id: id,
            progress: JobProgress::Done,
        });
    }
    let all = tracker.all_jobs();
    assert_eq!(all.len(), 16);
    assert_eq!(all[0].id, JobId(5));
    assert_eq!(all[15].id, JobId(20));
}

#[test]
fn tracker_skips_unknown_jobs() {
    let mut tracker = JobInfoTracker::new(16);
    tracker.update(&ChurtenNotification::Start { arena: arena(), job_id: JobId(7) });
    assert_eq!(tracker.active().len(), 0);
    assert_eq!(tracker.all_jobs().len(), 0);
}

#[test]
fn churten_restart_clears_cancellation() {
    // A shutdown ends one run; a fresh start gets a fresh token, so a
    // later job that errors is reported as failed, not cancelled.
    let mut churten = Churten::new();
    churten.start();
    churten.shutdown();
    churten.start();
    churten.observe(arena(), JobId(1), download("foo", 1));
    churten.try_start(JobId(1)).unwrap();
    let (fin, _) = churten.finish(JobId(1), Err("boom".to_string()));
    assert!(matches!(
        fin,
        ChurtenNotification::Finish { progress: JobProgress::Failed(_), .. }
    ));
}
