use ssh_deploy::engine::{
    command_outcome, plan_invocation, plan_renames, staging_variable, Action, Event,
    ExecutionState, Phase, PlanRun,
};
use ssh_deploy::error::ErrorKind;
use ssh_deploy::plan::{ConfigCommand, ExpectedFiles, Plan, Step, TextMap};
use ssh_deploy::encode::encode_stream;
use ssh_deploy::wire::SourceFile;

fn text(s: &str) -> String {
    s.to_string()
}

fn command(program: &str, args: Option<&[&str]>, allow_failure: bool) -> ConfigCommand {
    ConfigCommand {
        command: text(program),
        args: args.map(|list| list.iter().map(|s| text(s)).collect()),
        allow_failure,
    }
}

fn plan_with(steps: Vec<Step>) -> Plan {
    Plan { working_directory: None, expected_files: None, files: None, steps }
}

fn transfer(files: &[(&str, &[u8])]) -> Vec<u8> {
    let files: Vec<SourceFile> = files
        .iter()
        .map(|(name, content)| SourceFile { name: text(name), content: content.to_vec() })
        .collect();
    encode_stream(&files)
}

fn received(plan: &Plan, files: &[(&str, &[u8])], staging: &str) -> (PlanRun, Option<Action>) {
    let mut run = PlanRun::new();
    assert!(matches!(run.advance(plan, Event::Start), Some(Action::Read(5))));
    assert!(matches!(run.advance(plan, Event::Input(transfer(files))), Some(Action::Stage(_))));
    let action = run.advance(plan, Event::Staged(text(staging)));
    (run, action)
}

#[test]
fn run_starts_with_nothing() {
    let run = PlanRun::new();
    assert_eq!(run.phase(), Phase::NotStarted);
    assert!(run.state().staging.is_none());
    assert!(run.state().received_files.is_none());
    assert!(!run.is_over());
    let state = ExecutionState::new();
    assert!(state.staging.is_none());
    assert!(state.received_files.is_none());
}

#[test]
fn plan_without_steps_completes_at_once() {
    let plan = plan_with(vec![]);
    let mut run = PlanRun::new();
    assert!(matches!(run.advance(&plan, Event::Start), Some(Action::Finish)));
    assert_eq!(run.phase(), Phase::Completed);
    assert!(run.is_over());
}

#[test]
fn move_before_receive_fails_for_want_of_state() {
    let plan = plan_with(vec![Step::MoveFiles, Step::ReceiveFiles]);
    let mut run = PlanRun::new();
    let action = run.advance(&plan, Event::Start);
    assert!(matches!(action, Some(Action::Abort(ErrorKind::StateMissing))));
    assert_eq!(run.phase(), Phase::Failed(ErrorKind::StateMissing));
    assert!(run.state().staging.is_none());
    assert!(run.state().received_files.is_none());
}

#[test]
fn move_after_a_command_still_fails_for_want_of_state() {
    let plan = plan_with(vec![Step::Command(command("true", None, false)), Step::MoveFiles]);
    let mut run = PlanRun::new();
    assert!(matches!(run.advance(&plan, Event::Start), Some(Action::Run(_))));
    let action = run.advance(&plan, Event::Exited(true));
    assert!(matches!(action, Some(Action::Abort(ErrorKind::StateMissing))));
    assert_eq!(run.phase(), Phase::Failed(ErrorKind::StateMissing));
}

#[test]
fn failed_command_fails_the_plan() {
    let plan = plan_with(vec![Step::Command(command("false", None, false)), Step::ReceiveFiles]);
    let mut run = PlanRun::new();
    assert!(matches!(run.advance(&plan, Event::Start), Some(Action::Run(_))));
    assert_eq!(run.phase(), Phase::Running(0));
    let action = run.advance(&plan, Event::Exited(false));
    assert!(matches!(action, Some(Action::Abort(ErrorKind::CommandFailure))));
    assert_eq!(run.phase(), Phase::Failed(ErrorKind::CommandFailure));
    assert!(run.is_over());
}

#[test]
fn command_that_may_fail_lets_the_plan_go_on() {
    let plan = plan_with(vec![Step::Command(command("false", None, true)), Step::ReceiveFiles]);
    let mut run = PlanRun::new();
    assert!(matches!(run.advance(&plan, Event::Start), Some(Action::Run(_))));
    let action = run.advance(&plan, Event::Exited(false));
    assert!(matches!(action, Some(Action::Read(5))));
    assert_eq!(run.phase(), Phase::Running(1));
}

#[test]
fn command_that_may_fail_and_is_last_completes_the_plan() {
    let plan = plan_with(vec![Step::Command(command("false", None, true))]);
    let mut run = PlanRun::new();
    run.advance(&plan, Event::Start);
    assert!(matches!(run.advance(&plan, Event::Exited(false)), Some(Action::Finish)));
    assert_eq!(run.phase(), Phase::Completed);
}

#[test]
fn successful_command_goes_on() {
    let plan = plan_with(vec![
        Step::Command(command("a", None, false)),
        Step::Command(command("b", None, false)),
    ]);
    let mut run = PlanRun::new();
    run.advance(&plan, Event::Start);
    match run.advance(&plan, Event::Exited(true)) {
        Some(Action::Run(invocation)) => assert_eq!(invocation.program, "b"),
        _ => panic!("the second command is due"),
    }
    assert_eq!(run.phase(), Phase::Running(1));
    assert!(matches!(run.advance(&plan, Event::Exited(true)), Some(Action::Finish)));
    assert_eq!(run.phase(), Phase::Completed);
}

#[test]
fn command_outcome_by_status_and_allowance() {
    assert_eq!(command_outcome(&command("c", None, false), true), Ok(()));
    assert_eq!(command_outcome(&command("c", None, true), true), Ok(()));
    assert_eq!(command_outcome(&command("c", None, true), false), Ok(()));
    assert_eq!(command_outcome(&command("c", None, false), false), Err(ErrorKind::CommandFailure));
}

#[test]
fn whole_run_receives_moves_and_runs() {
    let mut files = TextMap::new();
    files.insert(text("site.tar"), text("current.tar"));
    let plan = Plan {
        working_directory: Some(text("/srv/www")),
        expected_files: Some(ExpectedFiles::List(vec![text("notes"), text("site.tar")])),
        files: Some(files),
        steps: vec![
            Step::ReceiveFiles,
            Step::MoveFiles,
            Step::Command(command("tar", Some(&["xf", "current.tar"]), false)),
        ],
    };
    let mut run = PlanRun::new();
    assert!(matches!(run.advance(&plan, Event::Start), Some(Action::Read(5))));
    assert_eq!(run.phase(), Phase::Running(0));

    let input = transfer(&[("site.tar", b"archive"), ("notes", b"text")]);
    match run.advance(&plan, Event::Input(input)) {
        Some(Action::Stage(frames)) => {
            assert_eq!(frames.len(), 2);
            assert_eq!(frames[0].name, "site.tar");
            assert_eq!(frames[0].content, b"archive");
            assert_eq!(frames[1].name, "notes");
            assert_eq!(frames[1].content, b"text");
        }
        _ => panic!("the files are to be staged"),
    }
    assert_eq!(run.phase(), Phase::Running(0));
    assert!(run.state().staging.is_none());
    assert!(run.state().received_files.is_none());

    match run.advance(&plan, Event::Staged(text("/tmp/stage.1"))) {
        Some(Action::Move { staging, working_directory, renames }) => {
            assert_eq!(staging, "/tmp/stage.1");
            assert_eq!(working_directory, Some(text("/srv/www")));
            assert_eq!(renames.len(), 2);
            assert_eq!(renames[0].from, "site.tar");
            assert_eq!(renames[0].to, "current.tar");
            assert_eq!(renames[1].from, "notes");
            assert_eq!(renames[1].to, "notes");
        }
        _ => panic!("the files are to be moved"),
    }
    assert_eq!(run.phase(), Phase::Running(1));
    assert_eq!(run.state().staging, Some(text("/tmp/stage.1")));
    assert_eq!(run.state().received_files, Some(vec![text("site.tar"), text("notes")]));

    match run.advance(&plan, Event::Moved) {
        Some(Action::Run(invocation)) => {
            assert_eq!(invocation.program, "tar");
            assert_eq!(invocation.args, vec![text("xf"), text("current.tar")]);
            assert_eq!(invocation.working_directory, Some(text("/srv/www")));
            assert_eq!(invocation.staging, Some(text("/tmp/stage.1")));
        }
        _ => panic!("the command is to be run"),
    }
    assert_eq!(run.phase(), Phase::Running(2));

    assert!(matches!(run.advance(&plan, Event::Exited(true)), Some(Action::Finish)));
    assert_eq!(run.phase(), Phase::Completed);
    assert!(run.is_over());
    assert_eq!(run.state().staging, Some(text("/tmp/stage.1")));
}

#[test]
fn receive_under_an_amount_of_three_refuses_two() {
    let mut plan = plan_with(vec![Step::ReceiveFiles, Step::MoveFiles]);
    plan.expected_files = Some(ExpectedFiles::Amount(3));
    let mut run = PlanRun::new();
    run.advance(&plan, Event::Start);
    let action = run.advance(&plan, Event::Input(transfer(&[("x", b"1"), ("y", b"2")])));
    assert!(matches!(action, Some(Action::Abort(ErrorKind::CountMismatch))));
    assert_eq!(run.phase(), Phase::Failed(ErrorKind::CountMismatch));
    assert!(run.state().staging.is_none());
    assert!(run.state().received_files.is_none());
}

#[test]
fn receive_under_a_list_refuses_other_names() {
    let mut plan = plan_with(vec![Step::ReceiveFiles]);
    plan.expected_files = Some(ExpectedFiles::List(vec![text("x"), text("y")]));
    let mut run = PlanRun::new();
    run.advance(&plan, Event::Start);
    let action = run.advance(&plan, Event::Input(transfer(&[("x", b"1"), ("z", b"2")])));
    assert!(matches!(action, Some(Action::Abort(ErrorKind::FileListMismatch))));
    assert_eq!(run.phase(), Phase::Failed(ErrorKind::FileListMismatch));
}

#[test]
fn receive_hands_on_the_failure_of_the_decoder() {
    let plan = plan_with(vec![Step::ReceiveFiles]);
    let cases: Vec<(Vec<u8>, ErrorKind)> = vec![
        (vec![], ErrorKind::TruncatedInput),
        (vec![0, 1, 2, 3, 4, 5], ErrorKind::ProtocolError),
        (vec![0xFE, 0xED, 0xBE, 0xEF, 0x02, 0x01, 0x01], ErrorKind::UnsupportedFeature),
        (vec![0xFE, 0xED, 0xBE, 0xEF, 0x02, 0x01, 0x00, 0xD8, 0x04], ErrorKind::NameTooLong),
        (vec![0xFE, 0xED, 0xBE, 0xEF, 0x02, 0x01, 0x00, 0x01, 0xFF], ErrorKind::InvalidName),
    ];
    for (input, kind) in cases {
        let mut run = PlanRun::new();
        run.advance(&plan, Event::Start);
        match run.advance(&plan, Event::Input(input)) {
            Some(Action::Abort(e)) => assert_eq!(e, kind),
            _ => panic!("the run is to stop"),
        }
        assert_eq!(run.phase(), Phase::Failed(kind));
        assert!(run.state().staging.is_none());
    }
}

#[test]
fn second_receive_replaces_the_first() {
    let plan = plan_with(vec![Step::ReceiveFiles, Step::ReceiveFiles, Step::MoveFiles]);
    let (mut run, action) = received(&plan, &[("a", b"1")], "/tmp/one");
    assert!(matches!(action, Some(Action::Read(5))));
    assert_eq!(run.phase(), Phase::Running(1));
    assert_eq!(run.state().staging, Some(text("/tmp/one")));
    run.advance(&plan, Event::Input(transfer(&[("b", b"2"), ("c", b"3")])));
    match run.advance(&plan, Event::Staged(text("/tmp/two"))) {
        Some(Action::Move { staging, renames, .. }) => {
            assert_eq!(staging, "/tmp/two");
            assert_eq!(renames.len(), 2);
            assert_eq!(renames[0].from, "b");
            assert_eq!(renames[1].from, "c");
        }
        _ => panic!("the files are to be moved"),
    }
    assert_eq!(run.state().received_files, Some(vec![text("b"), text("c")]));
}

#[test]
fn failure_of_the_work_fails_the_plan() {
    let plan = plan_with(vec![Step::ReceiveFiles, Step::MoveFiles, Step::ReceiveFiles]);
    let (mut run, action) = received(&plan, &[("a", b"1")], "/tmp/one");
    assert!(matches!(action, Some(Action::Move { .. })));
    let action = run.advance(&plan, Event::Failed(ErrorKind::FilesystemError));
    assert!(matches!(action, Some(Action::Abort(ErrorKind::FilesystemError))));
    assert_eq!(run.phase(), Phase::Failed(ErrorKind::FilesystemError));
    assert_eq!(run.state().staging, Some(text("/tmp/one")));
    assert_eq!(run.state().received_files, Some(vec![text("a")]));
}

#[test]
fn failure_while_staging_leaves_the_state_empty() {
    let plan = plan_with(vec![Step::ReceiveFiles]);
    let mut run = PlanRun::new();
    run.advance(&plan, Event::Start);
    run.advance(&plan, Event::Input(transfer(&[("a", b"1")])));
    let action = run.advance(&plan, Event::Failed(ErrorKind::FilesystemError));
    assert!(matches!(action, Some(Action::Abort(ErrorKind::FilesystemError))));
    assert!(run.state().staging.is_none());
    assert!(run.state().received_files.is_none());
    assert!(run.advance(&plan, Event::Staged(text("/tmp/late"))).is_none());
}

#[test]
fn run_that_is_over_ignores_events() {
    let plan = plan_with(vec![Step::MoveFiles]);
    let mut run = PlanRun::new();
    run.advance(&plan, Event::Start);
    assert_eq!(run.phase(), Phase::Failed(ErrorKind::StateMissing));
    assert!(run.advance(&plan, Event::Start).is_none());
    assert!(run.advance(&plan, Event::Moved).is_none());
    assert!(run.advance(&plan, Event::Exited(true)).is_none());
    assert!(run.advance(&plan, Event::Failed(ErrorKind::FilesystemError)).is_none());
    assert_eq!(run.phase(), Phase::Failed(ErrorKind::StateMissing));

    let plan = plan_with(vec![]);
    let mut run = PlanRun::new();
    run.advance(&plan, Event::Start);
    assert!(run.advance(&plan, Event::Start).is_none());
    assert!(run.advance(&plan, Event::Failed(ErrorKind::FilesystemError)).is_none());
    assert_eq!(run.phase(), Phase::Completed);
}

#[test]
fn events_that_do_not_fit_the_step_are_ignored() {
    let plan = plan_with(vec![Step::ReceiveFiles, Step::Command(command("c", None, false))]);
    let mut run = PlanRun::new();
    assert!(run.advance(&plan, Event::Moved).is_none());
    assert!(run.advance(&plan, Event::Failed(ErrorKind::FilesystemError)).is_none());
    assert_eq!(run.phase(), Phase::NotStarted);
    run.advance(&plan, Event::Start);
    assert!(run.advance(&plan, Event::Start).is_none());
    assert!(run.advance(&plan, Event::Moved).is_none());
    assert!(run.advance(&plan, Event::Exited(true)).is_none());
    assert!(run.advance(&plan, Event::Staged(text("/tmp/early"))).is_none());
    assert_eq!(run.phase(), Phase::Running(0));
    assert!(run.state().staging.is_none());
    run.advance(&plan, Event::Input(transfer(&[])));
    assert!(run.advance(&plan, Event::Input(transfer(&[]))).is_none());
    assert!(matches!(run.advance(&plan, Event::Staged(text("/tmp/s"))), Some(Action::Run(_))));
    assert!(run.advance(&plan, Event::Moved).is_none());
    assert!(run.advance(&plan, Event::Input(vec![])).is_none());
    assert_eq!(run.phase(), Phase::Running(1));
}

#[test]
fn renames_follow_the_plan_in_order() {
    let mut files = TextMap::new();
    files.insert(text("a"), text("alpha"));
    files.insert(text("c"), text("gamma"));
    let mut plan = plan_with(vec![]);
    plan.files = Some(files);
    let renames = plan_renames(&plan, &vec![text("c"), text("b"), text("a"), text("c")]);
    let pairs: Vec<(String, String)> = renames.into_iter().map(|r| (r.from, r.to)).collect();
    assert_eq!(
        pairs,
        vec![
            (text("c"), text("gamma")),
            (text("b"), text("b")),
            (text("a"), text("alpha")),
            (text("c"), text("gamma")),
        ]
    );
}

#[test]
fn renames_without_a_mapping_keep_the_names() {
    let plan = plan_with(vec![]);
    let renames = plan_renames(&plan, &vec![text("x"), text("y")]);
    assert_eq!(renames.len(), 2);
    assert_eq!((renames[0].from.as_str(), renames[0].to.as_str()), ("x", "x"));
    assert_eq!((renames[1].from.as_str(), renames[1].to.as_str()), ("y", "y"));
    assert!(plan_renames(&plan, &vec![]).is_empty());
}

#[test]
fn invocation_takes_directory_and_staging() {
    let mut plan = plan_with(vec![]);
    let mut state = ExecutionState::new();
    let invocation = plan_invocation(&plan, &state, &command("make", None, false));
    assert_eq!(invocation.program, "make");
    assert!(invocation.args.is_empty());
    assert!(invocation.working_directory.is_none());
    assert!(invocation.staging.is_none());

    plan.working_directory = Some(text("/srv"));
    state.staging = Some(text("/tmp/stage"));
    let invocation = plan_invocation(&plan, &state, &command("make", Some(&["-j", "4"]), true));
    assert_eq!(invocation.args, vec![text("-j"), text("4")]);
    assert_eq!(invocation.working_directory, Some(text("/srv")));
    assert_eq!(invocation.staging, Some(text("/tmp/stage")));
}

#[test]
fn staging_variable_name() {
    assert_eq!(staging_variable(), "TRAVIS_DEPLOY_TEMPDIR");
}

#[test]
fn receive_asks_for_each_field_in_turn() {
    let plan = plan_with(vec![Step::ReceiveFiles]);
    let stream = transfer(&[("abc", b"hello"), ("d", b"")]);
    let mut run = PlanRun::new();
    let mut action = run.advance(&plan, Event::Start);
    let mut asked = Vec::new();
    let mut pos = 0;
    loop {
        match action {
            Some(Action::Read(n)) => {
                asked.push(n);
                let chunk = stream[pos..pos + n].to_vec();
                pos += n;
                action = run.advance(&plan, Event::Input(chunk));
            }
            Some(Action::Stage(frames)) => {
                assert_eq!(frames.len(), 2);
                assert_eq!(frames[0].name, "abc");
                assert_eq!(frames[0].content, b"hello");
                assert_eq!(frames[1].name, "d");
                assert_eq!(frames[1].content, b"");
                break;
            }
            _ => panic!("the transfer is to be read or staged"),
        }
    }
    assert_eq!(pos, stream.len());
    // header, count; then per file: compression, name length, name, checksum,
    // content length, content
    assert_eq!(asked, vec![5, 1, 1, 1, 3, 4, 1, 5, 1, 1, 1, 4, 1]);
}

#[test]
fn receive_takes_short_chunks() {
    let plan = plan_with(vec![Step::ReceiveFiles]);
    let stream = transfer(&[("abc", b"hello")]);
    let mut run = PlanRun::new();
    run.advance(&plan, Event::Start);
    assert!(matches!(run.advance(&plan, Event::Input(stream[..2].to_vec())), Some(Action::Read(3))));
    assert!(matches!(run.advance(&plan, Event::Input(stream[2..4].to_vec())), Some(Action::Read(1))));
    assert!(matches!(run.advance(&plan, Event::Input(stream[4..11].to_vec())), Some(Action::Read(4))));
    assert!(matches!(run.advance(&plan, Event::Input(stream[11..20].to_vec())), Some(Action::Read(1))));
    assert!(matches!(run.advance(&plan, Event::Input(stream[20..].to_vec())), Some(Action::Stage(_))));
    assert_eq!(run.phase(), Phase::Running(0));
}

#[test]
fn input_that_has_ended_truncates_the_transfer() {
    let plan = plan_with(vec![Step::ReceiveFiles]);
    let mut run = PlanRun::new();
    run.advance(&plan, Event::Start);
    let action = run.advance(&plan, Event::Input(vec![]));
    assert!(matches!(action, Some(Action::Abort(ErrorKind::TruncatedInput))));
    assert_eq!(run.phase(), Phase::Failed(ErrorKind::TruncatedInput));

    let stream = transfer(&[("abc", b"hello")]);
    let mut run = PlanRun::new();
    run.advance(&plan, Event::Start);
    let cut = stream.len() - 2;
    assert!(matches!(run.advance(&plan, Event::Input(stream[..cut].to_vec())), Some(Action::Read(2))));
    let action = run.advance(&plan, Event::Input(vec![]));
    assert!(matches!(action, Some(Action::Abort(ErrorKind::TruncatedInput))));
    assert!(run.state().staging.is_none());
}

#[test]
fn failure_is_decided_as_soon_as_its_bytes_are_there() {
    let plan = plan_with(vec![Step::ReceiveFiles]);
    let mut run = PlanRun::new();
    run.advance(&plan, Event::Start);
    let action = run.advance(&plan, Event::Input(vec![0xFE, 0xED, 0xBE, 0xEF, 0x03]));
    assert!(matches!(action, Some(Action::Abort(ErrorKind::ProtocolError))));

    let mut plan = plan_with(vec![Step::ReceiveFiles]);
    plan.expected_files = Some(ExpectedFiles::Amount(3));
    let mut run = PlanRun::new();
    run.advance(&plan, Event::Start);
    assert!(matches!(
        run.advance(&plan, Event::Input(vec![0xFE, 0xED, 0xBE, 0xEF, 0x02])),
        Some(Action::Read(1))
    ));
    let action = run.advance(&plan, Event::Input(vec![0x02]));
    assert!(matches!(action, Some(Action::Abort(ErrorKind::CountMismatch))));
}

#[test]
fn second_transfer_starts_with_a_fresh_header() {
    let plan = plan_with(vec![Step::ReceiveFiles, Step::ReceiveFiles]);
    let (mut run, action) = received(&plan, &[("a", b"1")], "/tmp/one");
    assert!(matches!(action, Some(Action::Read(5))));
    let action = run.advance(&plan, Event::Input(transfer(&[])));
    match action {
        Some(Action::Stage(frames)) => assert!(frames.is_empty()),
        _ => panic!("the empty transfer is to be staged"),
    }
    assert!(matches!(run.advance(&plan, Event::Staged(text("/tmp/two"))), Some(Action::Finish)));
    assert_eq!(run.state().received_files, Some(vec![]));
}

fn bytes_read_until_abort(plan: &Plan, stream: &[u8]) -> (usize, ErrorKind) {
    let mut run = PlanRun::new();
    let mut action = run.advance(plan, Event::Start);
    let mut pos = 0;
    loop {
        match action {
            Some(Action::Read(n)) => {
                let end = (pos + n).min(stream.len());
                let chunk = stream[pos..end].to_vec();
                pos = end;
                action = run.advance(plan, Event::Input(chunk));
            }
            Some(Action::Abort(kind)) => return (pos, kind),
            _ => panic!("the run is to read or to stop"),
        }
    }
}

#[test]
fn name_of_600_bytes_is_refused_before_it_is_read() {
    let plan = plan_with(vec![Step::ReceiveFiles]);
    let mut stream = vec![0xFE, 0xED, 0xBE, 0xEF, 0x02, 0x01, 0x00, 0xD8, 0x04];
    stream.extend_from_slice(&[b'n'; 600]);
    assert_eq!(bytes_read_until_abort(&plan, &stream), (9, ErrorKind::NameTooLong));
}

#[test]
fn content_beyond_the_limit_is_refused_before_it_is_read() {
    let plan = plan_with(vec![Step::ReceiveFiles]);
    let mut stream = vec![0xFE, 0xED, 0xBE, 0xEF, 0x02, 0x01, 0x00, 0x01, b'x', 1, 2, 3, 4];
    stream.extend_from_slice(&[0x81, 0x80, 0x80, 0x32]);
    stream.extend_from_slice(&[0u8; 100]);
    assert_eq!(bytes_read_until_abort(&plan, &stream), (17, ErrorKind::FileTooLarge));
}

#[test]
fn wrong_count_is_refused_before_any_frame_is_read() {
    let mut plan = plan_with(vec![Step::ReceiveFiles]);
    plan.expected_files = Some(ExpectedFiles::Amount(3));
    let stream = transfer(&[("x", b"1"), ("y", b"2")]);
    assert_eq!(bytes_read_until_abort(&plan, &stream), (6, ErrorKind::CountMismatch));
}

#[test]
fn wrong_header_is_refused_before_the_count_is_read() {
    let plan = plan_with(vec![Step::ReceiveFiles]);
    let mut stream = transfer(&[("x", b"1")]);
    stream[4] = 0x01;
    assert_eq!(bytes_read_until_abort(&plan, &stream), (5, ErrorKind::ProtocolError));
}

#[test]
fn truncated_content_is_noticed_when_the_input_ends() {
    let plan = plan_with(vec![Step::ReceiveFiles]);
    let stream = transfer(&[("x", b"hello")]);
    let cut = &stream[..stream.len() - 2];
    assert_eq!(bytes_read_until_abort(&plan, cut), (cut.len(), ErrorKind::TruncatedInput));
}

#[test]
fn wrong_list_is_refused_once_every_file_is_read() {
    let mut plan = plan_with(vec![Step::ReceiveFiles]);
    plan.expected_files = Some(ExpectedFiles::List(vec![text("x"), text("y")]));
    let stream = transfer(&[("x", b"1"), ("z", b"2")]);
    assert_eq!(bytes_read_until_abort(&plan, &stream), (stream.len(), ErrorKind::FileListMismatch));
}
