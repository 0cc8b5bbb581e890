use ssh_deploy::error::ErrorKind;
use ssh_deploy::plan::{Config, ConfigCommand, Plan, Step, TextMap};

fn command(program: &str, args: Option<&[&str]>) -> Step {
    Step::Command(ConfigCommand {
        command: program.to_string(),
        args: args.map(|list| list.iter().map(|s| s.to_string()).collect()),
        allow_failure: false,
    })
}

fn plan_with(steps: Vec<Step>) -> Plan {
    Plan { working_directory: None, expected_files: None, files: None, steps }
}

#[test]
fn describe_receive_and_move() {
    assert_eq!(Step::ReceiveFiles.describe(), "receive files");
    assert_eq!(Step::MoveFiles.describe(), "move files");
}

#[test]
fn describe_command_with_arguments() {
    assert_eq!(
        command("systemctl", Some(&["restart", "app.service"])).describe(),
        "run command `systemctl restart app.service`"
    );
    assert_eq!(command("ls", Some(&["-l"])).describe(), "run command `ls -l`");
}

#[test]
fn describe_command_without_arguments() {
    assert_eq!(command("uptime", None).describe(), "run command `uptime`");
}

#[test]
fn describe_command_with_an_empty_argument_list() {
    assert_eq!(command("uptime", Some(&[])).describe(), "run command `uptime `");
}

#[test]
fn describe_keeps_arguments_as_they_stand() {
    assert_eq!(
        command("sh", Some(&["-c", "echo a  b", ""])).describe(),
        "run command `sh -c echo a  b `"
    );
}

#[test]
fn text_map_gives_what_was_inserted() {
    let mut map: TextMap<String> = TextMap::new();
    assert!(map.get(&"a".to_string()).is_none());
    map.insert("a".to_string(), "1".to_string());
    map.insert("b".to_string(), "2".to_string());
    assert_eq!(map.get(&"a".to_string()), Some(&"1".to_string()));
    assert_eq!(map.get(&"b".to_string()), Some(&"2".to_string()));
    assert!(map.get(&"c".to_string()).is_none());
    assert!(map.get(&"".to_string()).is_none());
}

#[test]
fn text_map_keeps_the_last_value_of_a_key() {
    let mut map: TextMap<u32> = TextMap::new();
    map.insert("k".to_string(), 1);
    map.insert("other".to_string(), 7);
    map.insert("k".to_string(), 2);
    assert_eq!(map.get(&"k".to_string()), Some(&2));
    assert_eq!(map.get(&"other".to_string()), Some(&7));
}

#[test]
fn select_without_a_name_is_a_config_error() {
    let mut plans = TextMap::new();
    plans.insert("site".to_string(), plan_with(vec![]));
    let config = Config { plans };
    assert_eq!(config.select(&vec![]).err(), Some(ErrorKind::ConfigError));
}

#[test]
fn select_of_an_unknown_plan_is_a_config_error() {
    let mut plans = TextMap::new();
    plans.insert("site".to_string(), plan_with(vec![]));
    let config = Config { plans };
    assert_eq!(config.select(&vec!["blog".to_string()]).err(), Some(ErrorKind::ConfigError));
}

#[test]
fn select_takes_the_first_parameter_as_the_name() {
    let mut plans = TextMap::new();
    plans.insert("site".to_string(), plan_with(vec![Step::ReceiveFiles]));
    plans.insert("blog".to_string(), plan_with(vec![Step::MoveFiles, Step::MoveFiles]));
    let config = Config { plans };
    let plan = config.select(&vec!["blog".to_string(), "site".to_string()]).ok().unwrap();
    assert_eq!(plan.steps.len(), 2);
    let plan = config.select(&vec!["site".to_string()]).ok().unwrap();
    assert_eq!(plan.steps.len(), 1);
}

#[test]
fn only_a_config_error_is_recoverable() {
    assert!(ErrorKind::ConfigError.is_recoverable());
    for kind in [
        ErrorKind::ProtocolError,
        ErrorKind::CountMismatch,
        ErrorKind::FileListMismatch,
        ErrorKind::UnsupportedFeature,
        ErrorKind::NameTooLong,
        ErrorKind::InvalidName,
        ErrorKind::FileTooLarge,
        ErrorKind::TruncatedInput,
        ErrorKind::ChecksumMismatch,
        ErrorKind::StateMissing,
        ErrorKind::CommandFailure,
        ErrorKind::FilesystemError,
    ] {
        assert!(!kind.is_recoverable());
    }
}
