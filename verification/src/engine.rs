//! The run of a plan. The engine decides; whoever drives it does the work.
//! It is handed an event, moves to the next state and answers with the action
//! to take: read from the input, stage files, rename them, run a command, or
//! stop.
//! The steps are taken in their order, the first failure ends the run, and
//! what earlier steps did is left as it is.

use crate::decode::Progress;
use crate::error::ErrorKind;
use crate::intake::Intake;
use crate::plan::{texts, ConfigCommand, Plan, Step};
use crate::wire::{
    frame_names, frame_views, stream_missing, stream_parse, FileFrame, FrameView, HEADER_LEN,
};
use vstd::prelude::*;
use vstd::string::StringExecFns;

verus! {

/// What the steps of a run share: the staging directory and the names of the
/// files in it. Both are set by a step that received files, and by no other.
pub struct ExecutionState {
    /// The path of the staging directory.
    pub staging: Option<String>,
    /// The names of the received files, in the order of their arrival.
    pub received_files: Option<Vec<String>>,
}

/// What the steps of a run share, as mathematical values.
pub ghost struct StateView {
    pub staging: Option<Seq<char>>,
    pub received_files: Option<Seq<Seq<char>>>,
}

/// The text of a string that may be absent.
pub open spec fn opt_text(s: Option<String>) -> Option<Seq<char>> {
    match s {
        Some(s) => Some(s@),
        None => None,
    }
}

/// The texts of a list of strings that may be absent.
pub open spec fn opt_texts(names: Option<Vec<String>>) -> Option<Seq<Seq<char>>> {
    match names {
        Some(names) => Some(texts(names@)),
        None => None,
    }
}

impl View for ExecutionState {
    type V = StateView;

    open spec fn view(&self) -> StateView {
        StateView {
            staging: opt_text(self.staging),
            received_files: opt_texts(self.received_files),
        }
    }
}

/// Where a run stands.
#[derive(Clone, Copy, Debug, PartialEq, Eq, Structural)]
pub enum Phase {
    /// No step was taken yet.
    NotStarted,
    /// The step with this index is being taken.
    Running(usize),
    /// Every step succeeded.
    Completed,
    /// A step failed; the steps behind it were not taken.
    Failed(ErrorKind),
}

/// A staged file and the name under which it is put down.
pub struct Rename {
    /// The name of the file in the staging directory.
    pub from: String,
    /// The name of the file at its destination.
    pub to: String,
}

/// A rename, as mathematical values.
pub ghost struct RenameView {
    pub from: Seq<char>,
    pub to: Seq<char>,
}

impl View for Rename {
    type V = RenameView;

    open spec fn view(&self) -> RenameView {
        RenameView { from: self.from@, to: self.to@ }
    }
}

/// A command to run: the program and its arguments, handed to the process as
/// they stand, never through a shell.
pub struct Invocation {
    /// The program.
    pub program: String,
    /// The arguments.
    pub args: Vec<String>,
    /// The directory in which the command runs, if it is not that of the
    /// process.
    pub working_directory: Option<String>,
    /// The staging directory, which the command finds in its environment
    /// under the name that `staging_variable` gives.
    pub staging: Option<String>,
}

/// A command to run, as mathematical values.
pub ghost struct InvocationView {
    pub program: Seq<char>,
    pub args: Seq<Seq<char>>,
    pub working_directory: Option<Seq<char>>,
    pub staging: Option<Seq<char>>,
}

impl View for Invocation {
    type V = InvocationView;

    open spec fn view(&self) -> InvocationView {
        InvocationView {
            program: self.program@,
            args: texts(self.args@),
            working_directory: opt_text(self.working_directory),
            staging: opt_text(self.staging),
        }
    }
}

/// What the driver has to do next.
pub enum Action {
    /// Read this many bytes from the input, or as many as it still has, and
    /// hand them over as `Event::Input`. No byte beyond them is to be taken
    /// from the input: it belongs to what follows the transfer.
    Read(usize),
    /// Create a staging directory, write each of these files into it under
    /// its name, and hand the directory over as `Event::Staged`.
    Stage(Vec<FileFrame>),
    /// Rename each file from the staging directory to its destination in the
    /// working directory, in this order, and report `Event::Moved`. The first
    /// rename that fails ends the step; the files renamed before it stay.
    Move { staging: String, working_directory: Option<String>, renames: Vec<Rename> },
    /// Run the command, wait for it and report `Event::Exited`.
    Run(Invocation),
    /// Stop: the plan is completed.
    Finish,
    /// Stop: the run failed.
    Abort(ErrorKind),
}

/// What the driver has to do next, as mathematical values.
pub ghost enum ActionView {
    Read(nat),
    Stage(Seq<FrameView>),
    Move { staging: Seq<char>, working_directory: Option<Seq<char>>, renames: Seq<RenameView> },
    Run(InvocationView),
    Finish,
    Abort(ErrorKind),
}

/// What a sequence of renames holds.
pub open spec fn rename_views(renames: Seq<Rename>) -> Seq<RenameView> {
    renames.map_values(|r: Rename| r@)
}

impl View for Action {
    type V = ActionView;

    open spec fn view(&self) -> ActionView {
        match self {
            Action::Read(n) => ActionView::Read(*n as nat),
            Action::Stage(frames) => ActionView::Stage(frame_views(frames@)),
            Action::Move { staging, working_directory, renames } => ActionView::Move {
                staging: staging@,
                working_directory: opt_text(*working_directory),
                renames: rename_views(renames@),
            },
            Action::Run(invocation) => ActionView::Run(invocation@),
            Action::Finish => ActionView::Finish,
            Action::Abort(e) => ActionView::Abort(*e),
        }
    }
}

/// What happened outside the engine.
pub enum Event {
    /// The run is to begin.
    Start,
    /// The bytes that the input brought; none if it has ended.
    Input(Vec<u8>),
    /// The files were written into the staging directory with this path.
    Staged(String),
    /// The files were renamed.
    Moved,
    /// The command exited, with status zero or not.
    Exited(bool),
    /// The work could not be done.
    Failed(ErrorKind),
}

/// What happened outside the engine, as mathematical values.
pub ghost enum EventView {
    Start,
    Input(Seq<u8>),
    Staged(Seq<char>),
    Moved,
    Exited(bool),
    Failed(ErrorKind),
}

impl View for Event {
    type V = EventView;

    open spec fn view(&self) -> EventView {
        match self {
            Event::Start => EventView::Start,
            Event::Input(bytes) => EventView::Input(bytes@),
            Event::Staged(dir) => EventView::Staged(dir@),
            Event::Moved => EventView::Moved,
            Event::Exited(success) => EventView::Exited(*success),
            Event::Failed(e) => EventView::Failed(*e),
        }
    }
}

/// A run, as mathematical values.
pub ghost struct RunView {
    /// Where the run stands.
    pub phase: Phase,
    /// What its steps share.
    pub state: StateView,
    /// The names of files that were decoded and are not staged yet.
    pub incoming: Option<Seq<Seq<char>>>,
    /// The bytes of the transfer that is being received, as far as it came.
    pub buffer: Seq<u8>,
}

/// The run of one plan, from its first step to completion or failure.
pub struct PlanRun {
    phase: Phase,
    state: ExecutionState,
    incoming: Option<Vec<String>>,
    intake: Option<Intake>,
}

impl View for PlanRun {
    type V = RunView;

    closed spec fn view(&self) -> RunView {
        RunView {
            phase: self.phase,
            state: self.state@,
            incoming: opt_texts(self.incoming),
            buffer: match self.intake {
                Some(intake) => intake@,
                None => Seq::empty(),
            },
        }
    }
}

/// The run before its first step: nothing staged, nothing received.
pub open spec fn initial_run() -> RunView {
    RunView {
        phase: Phase::NotStarted,
        state: StateView { staging: None, received_files: None },
        incoming: None,
        buffer: Seq::empty(),
    }
}

/// The name under which a received file is put down: the one that the plan
/// gives it, or its own.
pub open spec fn destination(plan: Plan, name: Seq<char>) -> Seq<char> {
    match plan.files {
        Some(files) => if files@.contains_key(name) {
            files@[name]@
        } else {
            name
        },
        None => name,
    }
}

/// The renames of the received files, in the order of their arrival.
pub open spec fn renames_of(plan: Plan, names: Seq<Seq<char>>) -> Seq<RenameView> {
    names.map_values(|name: Seq<char>| RenameView { from: name, to: destination(plan, name) })
}

/// How a command of the plan is run in the given state.
pub open spec fn invocation_of(plan: Plan, state: StateView, cc: ConfigCommand) -> InvocationView {
    InvocationView {
        program: cc.command@,
        args: match cc.args {
            Some(args) => texts(args@),
            None => Seq::empty(),
        },
        working_directory: opt_text(plan.working_directory),
        staging: state.staging,
    }
}

/// The run after a failure: the state is what it was.
pub open spec fn failed(state: StateView, e: ErrorKind) -> (RunView, ActionView) {
    (
        RunView { phase: Phase::Failed(e), state, incoming: None, buffer: Seq::empty() },
        ActionView::Abort(e),
    )
}

/// The run as it takes up the step with index `i`, and what that step asks
/// for. Behind the last step the plan is completed. A step that moves files
/// fails at once where nothing was received.
pub open spec fn enter(plan: Plan, state: StateView, i: int) -> (RunView, ActionView) {
    let running = RunView {
        phase: Phase::Running(i as usize),
        state,
        incoming: None,
        buffer: Seq::empty(),
    };
    if i < 0 || i >= plan.steps@.len() {
        (
            RunView { phase: Phase::Completed, state, incoming: None, buffer: Seq::empty() },
            ActionView::Finish,
        )
    } else {
        match plan.steps@[i] {
            Step::ReceiveFiles => (running, ActionView::Read(HEADER_LEN as nat)),
            Step::MoveFiles => match (state.staging, state.received_files) {
                (Some(staging), Some(names)) => (
                    running,
                    ActionView::Move {
                        staging,
                        working_directory: opt_text(plan.working_directory),
                        renames: renames_of(plan, names),
                    },
                ),
                _ => failed(state, ErrorKind::StateMissing),
            },
            Step::Command(cc) => (running, ActionView::Run(invocation_of(plan, state, cc))),
        }
    }
}

/// The run when the input has brought `chunk` for the step that receives
/// files. What has come so far is decoded under what the plan expects. While
/// the transfer is incomplete the bytes that it lacks are asked for, and an
/// input that has ended leaves it truncated. A failure of the decoder is the
/// failure of the run; a transfer that is accepted is to be staged.
pub open spec fn receive(plan: Plan, run: RunView, chunk: Seq<u8>) -> (RunView, ActionView) {
    let input = run.buffer + chunk;
    if chunk.len() == 0 {
        failed(run.state, ErrorKind::TruncatedInput)
    } else {
        match stream_parse(input, plan.expected_files) {
            Ok((frames, end)) => (
                RunView {
                    phase: run.phase,
                    state: run.state,
                    incoming: Some(frame_names(frames)),
                    buffer: Seq::empty(),
                },
                ActionView::Stage(frames),
            ),
            Err(e) => if e == ErrorKind::TruncatedInput {
                (
                    RunView { phase: run.phase, state: run.state, incoming: None, buffer: input },
                    ActionView::Read(stream_missing(input)),
                )
            } else {
                failed(run.state, e)
            },
        }
    }
}

/// The next state and the action that an event leads to, or `None` where the
/// event does not belong to what the run waits for; it is then ignored.
pub open spec fn transition(plan: Plan, run: RunView, event: EventView) -> Option<
    (RunView, ActionView),
> {
    match run.phase {
        Phase::NotStarted => match event {
            EventView::Start => Some(enter(plan, run.state, 0)),
            _ => None,
        },
        Phase::Running(i) => if i >= plan.steps@.len() {
            None
        } else {
            match (event, plan.steps@[i as int]) {
                (EventView::Failed(e), _) => Some(failed(run.state, e)),
                (EventView::Input(chunk), Step::ReceiveFiles) => if run.incoming is None {
                    Some(receive(plan, run, chunk))
                } else {
                    None
                },
                (EventView::Staged(dir), Step::ReceiveFiles) => match run.incoming {
                    Some(names) => Some(
                        enter(
                            plan,
                            StateView { staging: Some(dir), received_files: Some(names) },
                            i + 1,
                        ),
                    ),
                    None => None,
                },
                (EventView::Moved, Step::MoveFiles) => Some(enter(plan, run.state, i + 1)),
                (EventView::Exited(success), Step::Command(cc)) => if success || cc.allow_failure {
                    Some(enter(plan, run.state, i + 1))
                } else {
                    Some(failed(run.state, ErrorKind::CommandFailure))
                },
                _ => None,
            }
        },
        Phase::Completed => None,
        Phase::Failed(e) => None,
    }
}

/// The name of the environment variable under which a command finds the
/// staging directory.
pub fn staging_variable() -> (name: String)
    ensures
        name@ == "TRAVIS_DEPLOY_TEMPDIR"@,
{
    String::from_str("TRAVIS_DEPLOY_TEMPDIR")
}

/// A copy of a list of names.
fn copy_names(names: &Vec<String>) -> (copy: Vec<String>)
    ensures
        copy@ == names@,
{
    let mut copy: Vec<String> = Vec::new();
    let mut i: usize = 0;
    while i < names.len()
        invariant
            i <= names.len(),
            copy@ == names@.take(i as int),
        decreases names.len() - i,
    {
        copy.push(names[i].clone());
        assert(names@.take(i + 1) =~= names@.take(i as int).push(names@[i as int]));
        i += 1;
    }
    assert(names@.take(i as int) =~= names@);
    copy
}

/// A copy of a string that may be absent.
fn copy_text(text: &Option<String>) -> (copy: Option<String>)
    ensures
        copy == *text,
{
    match text {
        Some(s) => Some(s.clone()),
        None => None,
    }
}

/// The renames of the received files under the plan, in their order.
pub fn plan_renames(plan: &Plan, names: &Vec<String>) -> (renames: Vec<Rename>)
    ensures
        rename_views(renames@) == renames_of(*plan, texts(names@)),
{
    let mut renames: Vec<Rename> = Vec::new();
    let ghost all = renames_of(*plan, texts(names@));
    let mut i: usize = 0;
    while i < names.len()
        invariant
            i <= names.len(),
            all == renames_of(*plan, texts(names@)),
            rename_views(renames@) == all.take(i as int),
        decreases names.len() - i,
    {
        let name = &names[i];
        let to = match &plan.files {
            Some(files) => match files.get(name) {
                Some(to) => to.clone(),
                None => name.clone(),
            },
            None => name.clone(),
        };
        let rename = Rename { from: name.clone(), to };
        assert(rename@ == all[i as int]);
        assert(rename_views(renames@.push(rename)) =~= rename_views(renames@).push(rename@));
        assert(all.take(i + 1) =~= all.take(i as int).push(all[i as int]));
        renames.push(rename);
        i += 1;
    }
    assert(all.take(i as int) =~= all);
    renames
}

/// How a command of the plan is to be run in the given state.
pub fn plan_invocation(plan: &Plan, state: &ExecutionState, cc: &ConfigCommand) -> (invocation:
    Invocation)
    ensures
        invocation@ == invocation_of(*plan, state@, *cc),
{
    let args = match &cc.args {
        Some(args) => copy_names(args),
        None => Vec::new(),
    };
    assert(cc.args is None ==> texts(args@) =~= Seq::<Seq<char>>::empty());
    Invocation {
        program: cc.command.clone(),
        args,
        working_directory: copy_text(&plan.working_directory),
        staging: copy_text(&state.staging),
    }
}

/// Whether a command that exited lets the run go on: it does if it exited
/// with status zero, or if the plan allows it to fail.
pub fn command_outcome(cc: &ConfigCommand, success: bool) -> (r: Result<(), ErrorKind>)
    ensures
        r is Ok <==> success || cc.allow_failure,
        r matches Err(e) ==> e == ErrorKind::CommandFailure,
{
    if success || cc.allow_failure {
        Ok(())
    } else {
        Err(ErrorKind::CommandFailure)
    }
}

impl ExecutionState {
    /// The state of a run that has received nothing.
    pub fn new() -> (state: Self)
        ensures
            state@ == initial_run().state,
    {
        ExecutionState { staging: None, received_files: None }
    }
}

impl PlanRun {
    /// A run that has not started.
    pub fn new() -> (run: Self)
        ensures
            run@ == initial_run(),
    {
        PlanRun {
            phase: Phase::NotStarted,
            state: ExecutionState::new(),
            incoming: None,
            intake: None,
        }
    }

    /// Where the run stands.
    pub fn phase(&self) -> (phase: Phase)
        ensures
            phase == self@.phase,
    {
        self.phase
    }

    /// What the steps of the run share.
    pub fn state(&self) -> (state: &ExecutionState)
        ensures
            state@ == self@.state,
    {
        &self.state
    }

    /// Whether the run is over, completed or failed.
    pub fn is_over(&self) -> (over: bool)
        ensures
            over == (self@.phase is Completed || self@.phase is Failed),
    {
        match self.phase {
            Phase::Completed => true,
            Phase::Failed(_) => true,
            _ => false,
        }
    }

    /// Ends the run with a failure.
    fn fail(&mut self, e: ErrorKind) -> (action: Action)
        ensures
            (final(self)@, action@) == failed(old(self)@.state, e),
    {
        self.phase = Phase::Failed(e);
        self.incoming = None;
        self.intake = None;
        Action::Abort(e)
    }

    /// Takes up the step with index `i`.
    fn enter(&mut self, plan: &Plan, i: usize) -> (action: Action)
        requires
            i <= plan.steps@.len(),
        ensures
            (final(self)@, action@) == enter(*plan, old(self)@.state, i as int),
    {
        self.incoming = None;
        self.intake = None;
        if i >= plan.steps.len() {
            self.phase = Phase::Completed;
            return Action::Finish;
        }
        match &plan.steps[i] {
            Step::ReceiveFiles => {
                self.phase = Phase::Running(i);
                Action::Read(HEADER_LEN)
            },
            Step::MoveFiles => {
                let action = match (&self.state.staging, &self.state.received_files) {
                    (Some(staging), Some(names)) => Some(
                        Action::Move {
                            staging: staging.clone(),
                            working_directory: copy_text(&plan.working_directory),
                            renames: plan_renames(plan, names),
                        },
                    ),
                    _ => None,
                };
                match action {
                    Some(action) => {
                        self.phase = Phase::Running(i);
                        action
                    },
                    None => self.fail(ErrorKind::StateMissing),
                }
            },
            Step::Command(cc) => {
                self.phase = Phase::Running(i);
                Action::Run(plan_invocation(plan, &self.state, cc))
            },
        }
    }

    /// Takes the event and answers with the action that follows from it, or
    /// with `None`, leaving the run as it is, where the event does not belong
    /// to what the run waits for.
    pub fn advance(&mut self, plan: &Plan, event: Event) -> (r: Option<Action>)
        ensures
            match transition(*plan, old(self)@, event@) {
                Some((run, action)) => r matches Some(a) && a@ == action && final(self)@ == run,
                None => final(self)@ == old(self)@ && r is None,
            },
    {
        match self.phase {
            Phase::NotStarted => match event {
                Event::Start => Some(self.enter(plan, 0)),
                _ => None,
            },
            Phase::Running(i) => {
                if i >= plan.steps.len() {
                    return None;
                }
                match (event, &plan.steps[i]) {
                    (Event::Failed(e), _) => Some(self.fail(e)),
                    (Event::Input(chunk), Step::ReceiveFiles) => {
                        if self.incoming.is_some() {
                            return None;
                        }
                        if chunk.len() == 0 {
                            return Some(self.fail(ErrorKind::TruncatedInput));
                        }
                        let intake = match self.intake.take() {
                            Some(intake) => intake,
                            None => Intake::new(),
                        };
                        let (intake, progress) = intake.feed(chunk, &plan.expected_files);
                        match progress {
                            Progress::Complete(decoded) => {
                                self.incoming = Some(decoded.names());
                                Some(Action::Stage(decoded.frames))
                            },
                            Progress::Failed(e) => Some(self.fail(e)),
                            Progress::Incomplete(n) => {
                                self.intake = Some(intake);
                                Some(Action::Read(n))
                            },
                        }
                    },
                    (Event::Staged(dir), Step::ReceiveFiles) => {
                        match self.incoming.take() {
                            Some(names) => {
                                self.state.staging = Some(dir);
                                self.state.received_files = Some(names);
                                Some(self.enter(plan, i + 1))
                            },
                            None => None,
                        }
                    },
                    (Event::Moved, Step::MoveFiles) => Some(self.enter(plan, i + 1)),
                    (Event::Exited(success), Step::Command(cc)) => {
                        match command_outcome(cc, success) {
                            Ok(()) => Some(self.enter(plan, i + 1)),
                            Err(e) => Some(self.fail(e)),
                        }
                    },
                    _ => None,
                }
            },
            Phase::Completed => None,
            Phase::Failed(_) => None,
        }
    }
}

} // verus!
