//! Clipboard work posted to the Wayland side.

use xwlrvnc::bridge::clipboard::Sel;
use xwlrvnc::bridge::clipjobs::{Job, Jobs, PendingConversion, MAX_JOBS, QUEUE_TIMEOUT};

fn conversion() -> PendingConversion {
    PendingConversion::new(1, 0x10, 83, 84, 85, 1234, 86, false)
}

fn receive(sel: Sel, since: u64) -> Job {
    Job::Receive { generation: 0, sel, mime: "text/plain".into(), since, conversion: conversion() }
}

/// How many of the jobs that were dropped have a requestor, who is then refused.
fn answered(dropped: Vec<Job>) -> usize {
    let mut n = 0;
    for job in dropped {
        if let Job::Receive { conversion, .. } = job {
            let a = conversion.refuse();
            assert_eq!((a.client, a.requestor, a.property), (1, 0x10, 0));
            assert!(a.value.is_none());
            n += 1;
        }
    }
    n
}

#[test]
fn a_dropped_conversion_refuses_its_requestor() {
    // whatever becomes of a job, the client that asked must be answered:
    // an X requestor with no SelectionNotify waits for one forever
    let a = conversion().refuse();
    assert_eq!((a.client, a.requestor, a.selection, a.target, a.time), (1, 0x10, 83, 84, 1234));
    assert_eq!(a.property, 0);
    assert!(a.value.is_none());
}

#[test]
fn a_finished_conversion_delivers_its_value() {
    let a = conversion().finish(Some(b"hi".to_vec()));
    assert_eq!(a.property, 85);
    assert_eq!(a.value, Some((86, b"hi".to_vec())));
    // and as Latin-1 where that was asked for
    let c = PendingConversion::new(1, 0x10, 83, 84, 85, 1234, 31, true);
    let a = c.finish(Some("caf\u{e9}\u{2014}".as_bytes().to_vec()));
    assert_eq!(a.value, Some((31, b"caf\xe9?".to_vec())));
}

#[test]
fn jobs_posted_before_the_wayland_thread_are_refused() {
    let mut jobs = Jobs::default();
    let (posted, dropped) = jobs.post(receive(Sel::Clipboard, 0), 0);
    assert!(!posted);
    assert_eq!(answered(dropped), 1, "the requestor was answered");
    jobs.set_running(true);
    assert!(jobs.post(Job::Publish(Sel::Clipboard, Some(b"hi".to_vec())), 0).0);
    assert_eq!(jobs.publishes(), [(Sel::Clipboard, Some(2))]);
}

#[test]
fn a_job_that_waited_out_its_budget_is_refused() {
    // the Wayland side is wedged rather than gone, so `running` stays
    // true and nothing drains: without a sweep the requestor waits for a
    // SelectionNotify that is never coming
    let mut jobs = Jobs::default();
    jobs.set_running(true);
    let (posted, dropped) = jobs.post(receive(Sel::Clipboard, 0), 0);
    assert!(posted);
    assert_eq!(answered(dropped), 0, "not swept until someone looks");
    // the X side sweeps on every ConvertSelection, which is what reaches a
    // client blocked on its own conversion; posting sweeps as well
    assert_eq!(answered(jobs.sweep(QUEUE_TIMEOUT + 1000)), 1, "the stale conversion was refused");
    assert_eq!(jobs.take().len(), 0, "and is gone from the queue");
}

#[test]
fn only_conversions_are_swept() {
    // a publish or a destroy carries no deadline, since `Job` only records
    // `since` for a conversion, so a sweep that finds an expired conversion
    // must leave them where they are
    let now = QUEUE_TIMEOUT + 1000;
    let mut jobs = Jobs::default();
    jobs.set_running(true);
    jobs.post(Job::Publish(Sel::Clipboard, Some(b"hi".to_vec())), 0);
    jobs.post(receive(Sel::Clipboard, 0), 0);
    jobs.post(Job::Destroy(Vec::new()), 0);
    jobs.sweep(now);
    assert_eq!(jobs.take().len(), 2, "the publish and the destroy survived");
}

#[test]
fn a_full_queue_refuses_rather_than_grows() {
    let mut jobs = Jobs::default();
    jobs.set_running(true);
    for _ in 0..MAX_JOBS {
        assert!(jobs.post(Job::Destroy(Vec::new()), 0).0);
    }
    assert!(!jobs.post(Job::Destroy(Vec::new()), 0).0);
    assert_eq!(jobs.take().len(), MAX_JOBS);
    assert!(jobs.post(Job::Destroy(Vec::new()), 0).0, "drained, so it fits");
}

#[test]
fn stopping_refuses_what_is_left() {
    let mut jobs = Jobs::default();
    jobs.set_running(true);
    let (_, dropped) = jobs.post(receive(Sel::Primary, 0), 0);
    assert_eq!(answered(dropped), 0, "still queued");
    assert_eq!(answered(jobs.set_running(false)), 1);
    assert!(!jobs.post(Job::Destroy(Vec::new()), 0).0);
}
