//! What holds of every run: the steps are taken in their order, a run that
//! is over stays over, only a received transfer changes what the steps share,
//! a failure leaves it as it was, and the input is never read beyond the end
//! of a transfer.

use crate::engine::{
    enter, failed, initial_run, transition, ActionView, EventView, Phase, RunView, StateView,
};
use crate::error::ErrorKind;
use crate::plan::{ConfigCommand, Plan, Step};
use crate::wire::{stream_missing, stream_parse, FrameView};
use crate::wire_laws::{lemma_stream_missing, lemma_trailing_bytes_ignored};
use vstd::prelude::*;

verus! {

/// What holds of a run at every moment. The staging directory and the names
/// of the received files are there together or not at all. A run is at a
/// step of its plan; a step that moves files is only taken up with both at
/// hand; and while a transfer is awaited, what has come of it so far is
/// incomplete.
pub open spec fn run_consistent(plan: Plan, run: RunView) -> bool {
    &&& run.state.staging is Some <==> run.state.received_files is Some
    &&& match run.phase {
        Phase::Running(i) => i < plan.steps@.len() && match plan.steps@[i as int] {
            Step::ReceiveFiles => if run.incoming is Some {
                run.buffer.len() == 0
            } else {
                stream_parse(run.buffer, plan.expected_files) == Err::<
                    (Seq<FrameView>, int),
                    ErrorKind,
                >(ErrorKind::TruncatedInput)
            },
            Step::MoveFiles => run.incoming is None && run.buffer.len() == 0
                && run.state.staging is Some,
            Step::Command(cc) => run.incoming is None && run.buffer.len() == 0,
        },
        _ => run.incoming is None && run.buffer.len() == 0,
    }
}

/// A run that has not started is consistent.
pub proof fn lemma_initial_run_consistent(plan: Plan)
    ensures
        run_consistent(plan, initial_run()),
{
}

/// A run that takes up a step, or completes behind the last one, is
/// consistent.
proof fn lemma_enter_consistent(plan: Plan, state: StateView, i: int)
    requires
        0 <= i <= plan.steps@.len(),
        state.staging is Some <==> state.received_files is Some,
    ensures
        run_consistent(plan, enter(plan, state, i).0),
{
    assert(plan.steps.len() == plan.steps@.len());
    assert(stream_parse(Seq::<u8>::empty(), plan.expected_files) == Err::<
        (Seq<FrameView>, int),
        ErrorKind,
    >(ErrorKind::TruncatedInput));
}

/// Every event leaves a consistent run consistent.
pub proof fn lemma_consistency_kept(plan: Plan, run: RunView, event: EventView)
    requires
        run_consistent(plan, run),
        transition(plan, run, event) is Some,
    ensures
        ({
            let (next, action) = transition(plan, run, event)->0;
            run_consistent(plan, next)
        }),
{
    match run.phase {
        Phase::NotStarted => {
            lemma_enter_consistent(plan, run.state, 0);
        },
        Phase::Running(i) => {
            match event {
                EventView::Staged(dir) => {
                    let state = StateView { staging: Some(dir), received_files: run.incoming };
                    lemma_enter_consistent(plan, state, i + 1);
                },
                EventView::Moved => {
                    lemma_enter_consistent(plan, run.state, i + 1);
                },
                EventView::Exited(success) => {
                    lemma_enter_consistent(plan, run.state, i + 1);
                },
                _ => {},
            }
        },
        _ => {},
    }
}

/// A step that moves files, taken where nothing was received, fails for want
/// of state, and no file is touched: the action is to stop, not to rename.
pub proof fn lemma_move_needs_state(plan: Plan, state: StateView, i: int)
    requires
        0 <= i < plan.steps@.len(),
        plan.steps@[i] is MoveFiles,
        state.staging is None || state.received_files is None,
    ensures
        enter(plan, state, i) == failed(state, ErrorKind::StateMissing),
        enter(plan, state, i).0.state == state,
        enter(plan, state, i).1 == ActionView::Abort(ErrorKind::StateMissing),
{
}

/// A plan whose first step moves files fails at its start for want of state,
/// before any file is touched.
pub proof fn lemma_move_first_fails(plan: Plan)
    requires
        plan.steps@.len() > 0,
        plan.steps@[0] is MoveFiles,
    ensures
        transition(plan, initial_run(), EventView::Start) == Some(
            failed(initial_run().state, ErrorKind::StateMissing),
        ),
        failed(initial_run().state, ErrorKind::StateMissing).0.phase == Phase::Failed(
            ErrorKind::StateMissing,
        ),
        failed(initial_run().state, ErrorKind::StateMissing).1 == ActionView::Abort(
            ErrorKind::StateMissing,
        ),
{
    lemma_move_needs_state(plan, initial_run().state, 0);
}

/// A command that may fail and exits with a status other than zero lets the
/// run go on as if it had succeeded. One that may not fail ends the run as a
/// failed command.
pub proof fn lemma_allow_failure(plan: Plan, run: RunView, i: usize, cc: ConfigCommand)
    requires
        run.phase == Phase::Running(i),
        i < plan.steps@.len(),
        plan.steps@[i as int] == Step::Command(cc),
    ensures
        transition(plan, run, EventView::Exited(true)) == Some(enter(plan, run.state, i + 1)),
        cc.allow_failure ==> transition(plan, run, EventView::Exited(false)) == transition(
            plan,
            run,
            EventView::Exited(true),
        ),
        !cc.allow_failure ==> transition(plan, run, EventView::Exited(false)) == Some(
            failed(run.state, ErrorKind::CommandFailure),
        ),
        enter(plan, run.state, i + 1).0.phase != Phase::Failed(ErrorKind::CommandFailure),
{
}

/// A run that is completed or failed takes no further step: every event is
/// ignored.
pub proof fn lemma_over_is_final(plan: Plan, run: RunView, event: EventView)
    requires
        run.phase is Completed || run.phase is Failed,
    ensures
        transition(plan, run, event) is None,
{
}

/// The steps are taken strictly in their order: from the step with index
/// `i` a run goes on with that step, to the next one, to completion behind
/// the last one, or to failure, and it starts with the first step.
pub proof fn lemma_steps_in_order(plan: Plan, run: RunView, event: EventView)
    requires
        transition(plan, run, event) is Some,
    ensures
        ({
            let (next, action) = transition(plan, run, event)->0;
            match run.phase {
                Phase::NotStarted => next.phase == Phase::Running(0) || (next.phase is Completed
                    && plan.steps@.len() == 0) || next.phase is Failed,
                Phase::Running(i) => i < plan.steps@.len() && (next.phase == Phase::Running(i)
                    || next.phase == Phase::Running((i + 1) as usize) || (next.phase is Completed
                    && i + 1 == plan.steps@.len()) || next.phase is Failed),
                Phase::Completed => false,
                Phase::Failed(e) => false,
            }
        }),
{
}

/// The action says where the run stands: to finish is to be completed, to
/// abort with a failure is to have failed with it, and any other action is
/// the work of the step that is being taken.
pub proof fn lemma_action_fits_phase(plan: Plan, run: RunView, event: EventView)
    requires
        transition(plan, run, event) is Some,
    ensures
        ({
            let (next, action) = transition(plan, run, event)->0;
            &&& action is Finish <==> next.phase is Completed
            &&& forall|e: ErrorKind|
                action == ActionView::Abort(e) <==> next.phase == Phase::Failed(e)
            &&& action is Read || action is Stage || action is Move || action is Run
                <==> next.phase is Running
        }),
{
}

/// What the steps share changes only when the files of a received transfer
/// were staged: then it holds the staging directory and the names of those
/// files. A failure leaves it as it was.
pub proof fn lemma_state_set_by_receive(plan: Plan, run: RunView, event: EventView)
    requires
        transition(plan, run, event) is Some,
    ensures
        ({
            let (next, action) = transition(plan, run, event)->0;
            match event {
                EventView::Staged(dir) => run.phase matches Phase::Running(i) && plan.steps@[i as int]
                    is ReceiveFiles && next.state == (StateView {
                    staging: Some(dir),
                    received_files: run.incoming,
                }),
                _ => next.state == run.state,
            }
        }),
{
}

/// The bytes that a run asks for lie within the transfer: however the input
/// goes on, a transfer that it completes ends no earlier than where the
/// bytes asked for end. At least one byte is asked for.
pub proof fn lemma_read_within_transfer(
    plan: Plan,
    run: RunView,
    event: EventView,
    more: Seq<u8>,
)
    requires
        transition(plan, run, event) matches Some((next, action)) && action is Read,
    ensures
        ({
            let (next, action) = transition(plan, run, event)->0;
            &&& action->Read_0 >= 1
            &&& stream_parse(next.buffer + more, plan.expected_files) matches Ok((frames, end))
                ==> next.buffer.len() + action->Read_0 <= end
        }),
{
    let (next, action) = transition(plan, run, event)->0;
    if next.buffer.len() == 0 {
        assert(next.buffer + more =~= more);
        if stream_parse(more, plan.expected_files) is Ok {
            lemma_trailing_bytes_ignored(more, Seq::empty(), plan.expected_files);
        }
    } else {
        lemma_stream_missing(next.buffer, more, plan.expected_files);
    }
}

/// Where the driver hands over no more bytes than were asked for, every byte
/// that it has read belongs to the transfer: a transfer that is accepted
/// ends with the last byte handed over.
pub proof fn lemma_no_byte_beyond(plan: Plan, run: RunView, chunk: Seq<u8>)
    requires
        run_consistent(plan, run),
        run.phase matches Phase::Running(i) && plan.steps@[i as int] is ReceiveFiles,
        run.incoming is None,
        chunk.len() <= stream_missing(run.buffer),
        transition(plan, run, EventView::Input(chunk)) matches Some((next, action)) && action
            is Stage,
    ensures
        stream_parse(run.buffer + chunk, plan.expected_files) matches Ok((frames, end)) && end
            == run.buffer.len() + chunk.len(),
{
    lemma_stream_missing(run.buffer, chunk, plan.expected_files);
    lemma_trailing_bytes_ignored(run.buffer + chunk, Seq::empty(), plan.expected_files);
}

} // verus!
