//! The scheduling decisions of one worker thread.
//!
//! A worker drives a pipeline of up to two in-flight characters: one
//! whose glyph must still be rasterized, and one whose rasterized glyph
//! must still run the edge and distance-field stages.  Each iteration it
//! finishes the distance-field work queued last time, rasterizes the
//! character claimed last time, polls the shared mailbox once without
//! blocking, and hands the finished glyph to the atlas.  The worker stops
//! only when the run flag is cleared and it holds no in-flight work, so a
//! claimed character is never dropped.  The loop itself, the mailbox lock
//! and the compute dispatch live outside; this module fixes what each
//! iteration decides.

use vstd::prelude::*;

verus! {

/// The in-flight work a worker carries from one iteration to the next.
#[derive(Clone, Copy, PartialEq, Eq, Debug)]
pub struct WorkerState {
    /// A character claimed from the mailbox, not yet rasterized.
    pub basic_task: Option<char>,
    /// A character whose rasterized glyph still needs its edge and
    /// distance-field stages.
    pub sdf_task: Option<char>,
}

/// What one scheduling iteration decides.
#[derive(Clone, Copy, PartialEq, Eq, Debug)]
pub enum WorkerStep {
    /// The run flag is cleared and no work is in flight: the worker
    /// terminates.
    Stop,
    /// The worker runs one more iteration.
    Continue {
        /// The in-flight work after the iteration.
        next: WorkerState,
        /// The character whose finished distance field is pushed to the
        /// atlas this iteration, if one completed.
        push_result: Option<char>,
    },
}

/// One scheduling iteration: the worker stops only with the run flag
/// cleared and no work in flight; otherwise it pushes the finished
/// distance field of the previous `sdf_task`, promotes `basic_task` to
/// the distance-field stage when its rasterization succeeded (dropping it
/// when the glyph has no visible ink), and claims whatever the mailbox
/// holds.
pub open spec fn worker_step_spec(
    state: WorkerState,
    run: bool,
    mailbox: Option<char>,
    raster_ok: bool,
) -> WorkerStep {
    if !run && state.basic_task is None && state.sdf_task is None {
        WorkerStep::Stop
    } else {
        WorkerStep::Continue {
            next: WorkerState {
                basic_task: mailbox,
                sdf_task: if state.basic_task is Some && raster_ok {
                    state.basic_task
                } else {
                    None
                },
            },
            push_result: state.sdf_task,
        }
    }
}

/// Decides one worker iteration from the in-flight state, the run flag,
/// the mailbox content, and whether rasterization of the pending
/// character succeeded.
pub fn worker_step(state: WorkerState, run: bool, mailbox: Option<char>, raster_ok: bool) -> (step:
    WorkerStep)
    ensures
        step == worker_step_spec(state, run, mailbox, raster_ok),
{
    if !run && state.basic_task.is_none() && state.sdf_task.is_none() {
        WorkerStep::Stop
    } else {
        let sdf_task = if raster_ok {
            state.basic_task
        } else {
            None
        };
        WorkerStep::Continue {
            next: WorkerState { basic_task: mailbox, sdf_task },
            push_result: state.sdf_task,
        }
    }
}

/// The in-flight work after a step: what a continuing step hands on; a
/// stopped worker carries none.
pub open spec fn step_next(step: WorkerStep) -> WorkerState {
    match step {
        WorkerStep::Stop => WorkerState { basic_task: None, sdf_task: None },
        WorkerStep::Continue { next, .. } => next,
    }
}

/// Shutdown liveness: once the run flag is cleared and the mailbox stays
/// empty, a worker stops within three iterations — the in-flight work
/// drains by one stage per iteration, whatever rasterization reports.
pub proof fn lemma_shutdown_liveness(s: WorkerState, ok1: bool, ok2: bool, ok3: bool)
    ensures
        worker_step_spec(
            step_next(
                worker_step_spec(
                    step_next(worker_step_spec(s, false, None, ok1)),
                    false,
                    None,
                    ok2,
                ),
            ),
            false,
            None,
            ok3,
        ) == WorkerStep::Stop,
{
}

/// No claimed character is dropped: a character claimed from the mailbox
/// whose rasterization succeeds is handed to the atlas two iterations
/// later, whatever the run flag and the mailbox do meanwhile.
pub proof fn lemma_claimed_task_reaches_atlas(
    s: WorkerState,
    run1: bool,
    ok1: bool,
    c: char,
    run2: bool,
    m2: Option<char>,
    run3: bool,
    m3: Option<char>,
    ok3: bool,
)
    requires
        run1 || s.basic_task is Some || s.sdf_task is Some,
    ensures
        ({
            let s1 = step_next(worker_step_spec(s, run1, Some(c), ok1));
            let s2 = step_next(worker_step_spec(s1, run2, m2, true));
            worker_step_spec(s2, run3, m3, ok3) matches WorkerStep::Continue { push_result, .. }
                && push_result == Some(c)
        }),
{
}

} // verus!
