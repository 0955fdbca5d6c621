use std::sync::mpsc;

use nitrohydra::channel::ChannelEvent;
use nitrohydra::jobs::{ApplyJob, JobMsg};

fn job_with_rx(rx: mpsc::Receiver<JobMsg>) -> ApplyJob {
    let mut job = ApplyJob::new();
    job.start(rx);
    job
}

#[test]
fn new_is_idle() {
    let job = ApplyJob::new();
    assert!(!job.is_running());
    assert!(job.status().is_none());
    assert!(job.log().is_empty());
}

#[test]
fn poll_noop_when_idle() {
    let mut job = ApplyJob::new();
    job.poll();
    assert!(!job.is_running());
}

#[test]
fn poll_status_message() {
    let (tx, rx) = mpsc::channel();
    let mut job = job_with_rx(rx);
    tx.send(JobMsg::Status("caching...".into())).unwrap();
    job.poll();
    assert_eq!(job.log(), "caching...");
    assert!(job.is_running());
    assert!(job.status().is_none());
}

#[test]
fn poll_done_success() {
    let (tx, rx) = mpsc::channel();
    let mut job = job_with_rx(rx);
    tx.send(JobMsg::Done(Ok(()))).unwrap();
    job.poll();
    assert!(!job.is_running());
    assert!(job.status().unwrap().is_ok());
    assert!(job.log().is_empty());
}

#[test]
fn poll_done_error() {
    let (tx, rx) = mpsc::channel();
    let mut job = job_with_rx(rx);
    tx.send(JobMsg::Done(Err("xrandr failed".into()))).unwrap();
    job.poll();
    assert!(!job.is_running());
    assert_eq!(
        job.status().unwrap().as_ref().unwrap_err().as_str(),
        "xrandr failed"
    );
}

#[test]
fn poll_disconnected() {
    let (tx, rx) = mpsc::channel();
    let mut job = job_with_rx(rx);
    drop(tx);
    job.poll();
    assert!(!job.is_running());
    assert!(job.status().unwrap().is_err());
}

#[test]
fn poll_processes_status_then_done() {
    let (tx, rx) = mpsc::channel();
    let mut job = job_with_rx(rx);
    tx.send(JobMsg::Status("step 1".into())).unwrap();
    tx.send(JobMsg::Done(Ok(()))).unwrap();
    job.poll();
    // Done consumes the receiver, log is cleared
    assert!(!job.is_running());
    assert!(job.status().unwrap().is_ok());
    assert!(job.log().is_empty());
}

#[test]
fn clear_status() {
    let (tx, rx) = mpsc::channel();
    let mut job = job_with_rx(rx);
    tx.send(JobMsg::Done(Ok(()))).unwrap();
    job.poll();
    assert!(job.status().is_some());
    job.clear_status();
    assert!(job.status().is_none());
}

// --- the per-event transition, driven directly ---

#[test]
fn step_keeps_running_while_nothing_arrives() {
    let (_tx, rx) = mpsc::channel();
    let mut job = job_with_rx(rx);
    job.on_event(ChannelEvent::Nothing);
    assert!(job.is_running());
    assert!(job.status().is_none());
    assert!(job.log().is_empty());
}

#[test]
fn step_replaces_log_and_records_the_sent_outcome() {
    let (_tx, rx) = mpsc::channel();
    let mut job = job_with_rx(rx);
    job.on_event(ChannelEvent::Received(JobMsg::Status("one".into())));
    assert_eq!(job.log(), "one");
    job.on_event(ChannelEvent::Received(JobMsg::Status("two".into())));
    assert_eq!(job.log(), "two");
    assert!(job.is_running());
    job.on_event(ChannelEvent::Received(JobMsg::Done(Err("gsettings failed".into()))));
    assert!(!job.is_running());
    assert_eq!(
        job.status().unwrap().as_ref().unwrap_err().as_str(),
        "gsettings failed"
    );
    assert!(job.log().is_empty());
}

#[test]
fn step_records_crash_on_closed_channel() {
    let (_tx, rx) = mpsc::channel::<JobMsg>();
    let mut job = job_with_rx(rx);
    job.on_event(ChannelEvent::Closed);
    assert!(!job.is_running());
    assert_eq!(
        job.status().unwrap().as_ref().unwrap_err().as_str(),
        "apply thread crashed"
    );
}

// --- the terminal outcome is observed exactly once per run ---

#[test]
fn success_observed_once_then_idle() {
    let (tx, rx) = mpsc::channel();
    let mut job = job_with_rx(rx);
    // polling before any message arrives: still running, no outcome
    job.poll();
    assert!(job.is_running());
    assert!(job.status().is_none());
    tx.send(JobMsg::Done(Ok(()))).unwrap();
    job.poll();
    assert!(!job.is_running());
    assert!(job.status().unwrap().is_ok());
    // a further poll is a no-op: the job stays finished
    job.poll();
    assert!(!job.is_running());
    assert!(job.status().unwrap().is_ok());
}

#[test]
fn crash_surfaces_as_failure_message() {
    let (tx, rx) = mpsc::channel::<JobMsg>();
    let mut job = job_with_rx(rx);
    drop(tx);
    job.poll();
    assert_eq!(
        job.status().unwrap().as_ref().unwrap_err().as_str(),
        "apply thread crashed"
    );
}
