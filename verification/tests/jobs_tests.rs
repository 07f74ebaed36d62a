use chev_shell::jobs::{JobManager, JobStatus};

#[test]
fn test_job_ids_monotonic() {
    let mut jobs = JobManager::new();
    let a = jobs.add_job(100, "sleep 1 &".to_string(), JobStatus::Running);
    let b = jobs.add_job(200, "sleep 2 &".to_string(), JobStatus::Running);
    let c = jobs.add_job(300, "sleep 3 &".to_string(), JobStatus::Suspended);
    assert_eq!(a, 1);
    assert_eq!(b, 2);
    assert_eq!(c, 3);
}

#[test]
fn test_job_id_reset_after_empty() {
    let mut jobs = JobManager::new();
    let a = jobs.add_job(100, "sleep 1 &".to_string(), JobStatus::Running);
    assert_eq!(a, 1);
    jobs.remove_job(100);
    assert!(jobs.get_jobs().is_empty());
    let b = jobs.add_job(200, "sleep 2 &".to_string(), JobStatus::Running);
    assert_eq!(b, 1);
}

#[test]
fn test_job_id_not_reused_while_nonempty() {
    let mut jobs = JobManager::new();
    let a = jobs.add_job(100, "one".to_string(), JobStatus::Running);
    let _b = jobs.add_job(200, "two".to_string(), JobStatus::Running);
    jobs.remove_job(100);
    assert_eq!(jobs.get_jobs().len(), 1);
    let c = jobs.add_job(300, "three".to_string(), JobStatus::Running);
    assert_eq!(a, 1);
    assert_eq!(c, 3);
}

#[test]
fn test_remove_job_keeps_others() {
    let mut jobs = JobManager::new();
    jobs.add_job(100, "one".to_string(), JobStatus::Running);
    jobs.add_job(200, "two".to_string(), JobStatus::Suspended);
    jobs.remove_job(100);
    let listed = jobs.get_jobs();
    assert_eq!(listed.len(), 1);
    assert_eq!(listed[0].pgid, 200);
    assert_eq!(listed[0].cmd, "two");
    assert_eq!(listed[0].status, JobStatus::Suspended);
}

#[test]
fn test_find_job_by_id() {
    let mut jobs = JobManager::new();
    jobs.add_job(100, "one".to_string(), JobStatus::Running);
    let b = jobs.add_job(200, "two".to_string(), JobStatus::Running);
    let found = jobs.find_job_by_id(b).unwrap();
    assert_eq!(found.pgid, 200);
    assert_eq!(found.cmd, "two");
    assert!(jobs.find_job_by_id(99).is_none());
}

#[test]
fn test_job_status_label() {
    assert_eq!(JobStatus::Running.label(), "Running");
    assert_eq!(JobStatus::Suspended.label(), "Stopped");
}
