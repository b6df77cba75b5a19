use httpshare::pool::{Dispatch, PoolError, PoolState, Slot};

fn take_ticket(p: &mut PoolState<u32>, w: usize) -> Option<(u64, u32)> {
    match p.take(w) {
        Dispatch::Run { ticket, job } => Some((ticket, job)),
        _ => None,
    }
}

#[test]
fn zero_size_is_refused() {
    let r: Result<PoolState<u32>, PoolError> = PoolState::new(0);
    assert!(matches!(r, Err(PoolError::ZeroSize)));
}

#[test]
fn new_pool_has_idle_workers() {
    let p: PoolState<u32> = PoolState::new(3).ok().unwrap();
    assert_eq!(p.size(), 3);
    for w in 0..3 {
        assert_eq!(p.slot(w), Slot::Idle);
    }
    assert_eq!(p.pending_len(), 0);
    assert_eq!(p.submitted(), 0);
    assert!(!p.closing());
}

#[test]
fn fresh_pool_runs_a_job_at_once() {
    let mut p: PoolState<u32> = PoolState::new(1).ok().unwrap();
    assert_eq!(p.submit(7), Ok(0));
    assert_eq!(take_ticket(&mut p, 0), Some((0, 7)));
    assert_eq!(p.slot(0), Slot::Busy(0));
    p.finish(0);
    assert_eq!(p.slot(0), Slot::Idle);
    assert_eq!(p.finished(), 1);
}

#[test]
fn empty_queue_makes_worker_wait() {
    let mut p: PoolState<u32> = PoolState::new(2).ok().unwrap();
    assert!(matches!(p.take(1), Dispatch::Wait));
    assert_eq!(p.slot(1), Slot::Idle);
}

#[test]
fn each_job_goes_to_one_worker_once() {
    let n: usize = 4;
    let mut p: PoolState<u32> = PoolState::new(n).ok().unwrap();
    for i in 0..n {
        assert_eq!(p.submit(100 + i as u32), Ok(i as u64));
    }
    let mut seen = Vec::new();
    for w in (0..n).rev() {
        let (ticket, job) = take_ticket(&mut p, w).unwrap();
        assert_eq!(p.slot(w), Slot::Busy(ticket));
        seen.push((ticket, job));
    }
    assert_eq!(seen, vec![(0, 100), (1, 101), (2, 102), (3, 103)]);
    assert_eq!(p.pending_len(), 0);
    for w in 0..n {
        assert!(matches!(p.slot(w), Slot::Busy(_)));
    }
}

#[test]
fn teardown_runs_every_job_then_stops_every_worker() {
    let n: usize = 3;
    let mut p: PoolState<u32> = PoolState::new(n).ok().unwrap();
    for i in 0..7u32 {
        p.submit(i).unwrap();
    }
    p.begin_teardown();
    assert!(p.closing());
    assert_eq!(p.pending_len(), 7 + n);
    let mut ran = Vec::new();
    let mut stopped = 0;
    let mut w: usize = 0;
    while stopped < n {
        if p.slot(w) == Slot::Idle {
            match p.take(w) {
                Dispatch::Run { job, .. } => {
                    ran.push(job);
                    p.finish(w);
                }
                Dispatch::Exit => stopped += 1,
                Dispatch::Wait => panic!("a live worker found the queue empty during teardown"),
            }
        }
        w = (w + 2) % n;
    }
    assert_eq!(ran, vec![0, 1, 2, 3, 4, 5, 6]);
    assert_eq!(p.finished(), p.submitted());
    assert_eq!(p.pending_len(), 0);
}

#[test]
fn n_jobs_then_teardown_stops_all_in_any_order() {
    let n: usize = 3;
    let mut p: PoolState<u32> = PoolState::new(n).ok().unwrap();
    for i in 0..n as u32 {
        p.submit(i).unwrap();
    }
    p.begin_teardown();
    // Worker 2 takes two messages in a row before the others move.
    assert!(matches!(p.take(2), Dispatch::Run { ticket: 0, .. }));
    p.finish(2);
    assert!(matches!(p.take(2), Dispatch::Run { ticket: 1, .. }));
    p.finish(2);
    assert!(matches!(p.take(0), Dispatch::Run { ticket: 2, .. }));
    assert!(matches!(p.take(2), Dispatch::Exit));
    assert!(matches!(p.take(1), Dispatch::Exit));
    p.finish(0);
    assert!(matches!(p.take(0), Dispatch::Exit));
    for w in 0..n {
        assert_eq!(p.slot(w), Slot::Stopped);
    }
    assert_eq!(p.finished(), 3);
}

#[test]
fn submit_after_teardown_is_refused() {
    let mut p: PoolState<u32> = PoolState::new(2).ok().unwrap();
    p.submit(1).unwrap();
    p.begin_teardown();
    assert_eq!(p.submit(2), Err(PoolError::ShuttingDown));
    assert_eq!(p.submitted(), 1);
    assert_eq!(p.pending_len(), 3);
}

#[test]
fn second_teardown_changes_nothing() {
    let mut p: PoolState<u32> = PoolState::new(2).ok().unwrap();
    p.begin_teardown();
    p.begin_teardown();
    assert_eq!(p.pending_len(), 2);
}

#[test]
fn two_workers_finish_five_jobs_in_three_rounds() {
    let mut p: PoolState<u32> = PoolState::new(2).ok().unwrap();
    for i in 0..5u32 {
        p.submit(i).unwrap();
    }
    let mut done = Vec::new();
    let mut rounds = 0;
    while p.pending_len() > 0 {
        rounds += 1;
        let mut running = Vec::new();
        for w in 0..2 {
            if let Dispatch::Run { job, .. } = p.take(w) {
                running.push((w, job));
            }
        }
        for (w, job) in running {
            done.push(job);
            p.finish(w);
        }
    }
    assert_eq!(rounds, 3);
    assert_eq!(done, vec![0, 1, 2, 3, 4]);
}
