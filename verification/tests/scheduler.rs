use sdftool::charset::CharsetRequest;
use sdftool::worker::WorkerState;
use sdftool::worker::WorkerStep;
use sdftool::worker::worker_step;

fn drained() -> WorkerState {
    WorkerState { basic_task: None, sdf_task: None }
}

#[test]
fn worker_stops_only_when_drained() {
    assert_eq!(worker_step(drained(), false, None, true), WorkerStep::Stop);
    let busy = WorkerState { basic_task: Some('x'), sdf_task: None };
    assert!(matches!(worker_step(busy, false, None, true), WorkerStep::Continue { .. }));
}

#[test]
fn worker_claims_mailbox_and_promotes_stages() {
    let state = WorkerState { basic_task: Some('a'), sdf_task: Some('b') };
    let step = worker_step(state, true, Some('c'), true);
    match step {
        WorkerStep::Continue { next, push_result } => {
            assert_eq!(push_result, Some('b'));
            assert_eq!(next.basic_task, Some('c'));
            assert_eq!(next.sdf_task, Some('a'));
        }
        WorkerStep::Stop => panic!("a running worker must continue"),
    }
}

#[test]
fn worker_drops_character_when_raster_fails() {
    let state = WorkerState { basic_task: Some('q'), sdf_task: None };
    let step = worker_step(state, true, None, false);
    match step {
        WorkerStep::Continue { next, push_result } => {
            assert_eq!(push_result, None);
            assert_eq!(next.basic_task, None);
            assert_eq!(next.sdf_task, None);
        }
        WorkerStep::Stop => panic!("a running worker must continue"),
    }
}

#[test]
fn worker_shutdown_drains_within_three_iterations() {
    // Run flag cleared, mailbox empty: in-flight work drains one stage
    // per iteration and the worker stops, pushing everything it held.
    let mut state = WorkerState { basic_task: Some('a'), sdf_task: Some('b') };
    let mut pushed: Vec<char> = Vec::new();
    let mut iterations: usize = 0;
    loop {
        match worker_step(state, false, None, true) {
            WorkerStep::Stop => break,
            WorkerStep::Continue { next, push_result } => {
                if let Some(c) = push_result {
                    pushed.push(c);
                }
                state = next;
            }
        }
        iterations += 1;
        assert!(iterations <= 3, "worker failed to stop after shutdown");
    }
    assert_eq!(pushed, vec!['b', 'a']);
}

#[test]
fn worker_empty_charset_stops_immediately() {
    let mut iterations: usize = 0;
    let mut state = drained();
    loop {
        match worker_step(state, false, None, true) {
            WorkerStep::Stop => break,
            WorkerStep::Continue { next, .. } => state = next,
        }
        iterations += 1;
        assert!(iterations <= 3);
    }
    assert_eq!(iterations, 0);
}

#[test]
fn charset_request_defaults() {
    let req = CharsetRequest::new();
    assert!(req.ascii);
    assert!(!req.schinese1);
    assert!(!req.schinese2);
    assert!(!req.schinese3);
    assert!(req.additional.is_empty());
}
