use file_split::cli::{Args, Cli};
use file_split::error::{Error, ErrorKind};
use file_split::utils::{create_split_dir_step, CreateOutcome, DirAction, MAX_DIR_RETRIES};

fn args(file: &str, parent: Option<&str>, stem: Option<&str>, ext: Option<&str>) -> Args {
    Args {
        file: String::from(file),
        parent: parent.map(String::from),
        file_stem: stem.map(String::from),
        extension: ext.map(String::from),
        new_file_name: None,
        lines: None,
        include_headers: None,
    }
}

#[test]
fn error_new_keeps_the_message() {
    let e = Error::new("disk full");
    assert_eq!(e.msg, "disk full");
    assert_eq!(e.kind, ErrorKind::Io);
    assert_eq!(e.render(), "error: disk full");
    assert_eq!(e.exit_code(), 1);
}

#[test]
fn error_render_of_empty_message() {
    assert_eq!(Error::new("").render(), "error: ");
}

#[test]
fn exit_code_goes_by_kind() {
    assert_eq!(Error::with_kind(ErrorKind::Argument, "x").exit_code(), 65);
    assert_eq!(Error::with_kind(ErrorKind::Validation, "x").exit_code(), 65);
    assert_eq!(Error::with_kind(ErrorKind::Path, "x").exit_code(), 1);
    assert_eq!(Error::with_kind(ErrorKind::Io, "x").exit_code(), 1);
}

#[test]
fn with_kind_keeps_kind_and_message() {
    let e = Error::with_kind(ErrorKind::Path, "no parent");
    assert_eq!(e.kind, ErrorKind::Path);
    assert_eq!(e.msg, "no parent");
    assert_eq!(e.render(), "error: no parent");
}

#[test]
fn defaults_for_a_csv_file() {
    let cli = Cli::from_args(args("/tmp/data.csv", Some("/tmp"), Some("data"), Some("csv"))).unwrap();
    assert_eq!(cli.input_path, "/tmp/data.csv");
    assert_eq!(cli.working_directory, "/tmp");
    assert_eq!(cli.extension, "csv");
    assert_eq!(cli.new_name_base, "data-split");
    assert_eq!(cli.lines, 1);
    assert!(cli.include_headers);
}

#[test]
fn defaults_for_another_file() {
    let cli = Cli::from_args(args("notes.txt", Some(""), Some("notes"), Some("txt"))).unwrap();
    assert_eq!(cli.working_directory, "");
    assert_eq!(cli.new_name_base, "notes-split");
    assert_eq!(cli.lines, 1);
    assert!(!cli.include_headers);
    let cli = Cli::from_args(args("a.CSV", Some(""), Some("a"), Some("CSV"))).unwrap();
    assert!(!cli.include_headers);
}

#[test]
fn given_values_win_over_defaults() {
    let mut a = args("/d/data.csv", Some("/d"), Some("data"), Some("csv"));
    a.new_file_name = Some(String::from("part"));
    a.lines = Some(250);
    a.include_headers = Some(false);
    let cli = Cli::from_args(a).unwrap();
    assert_eq!(cli.new_name_base, "part");
    assert_eq!(cli.lines, 250);
    assert!(!cli.include_headers);

    let mut a = args("/d/data.txt", Some("/d"), Some("data"), Some("txt"));
    a.include_headers = Some(true);
    a.lines = Some(0);
    let cli = Cli::from_args(a).unwrap();
    assert!(cli.include_headers);
    assert_eq!(cli.lines, 0);
}

#[test]
fn incomplete_path_is_a_path_error() {
    let cases = [
        args("/", None, None, None),
        args("data.csv", None, Some("data"), Some("csv")),
        args("/tmp/..", Some("/tmp"), None, None),
        args("/tmp/data", Some("/tmp"), Some("data"), None),
    ];
    for a in cases {
        let e = Cli::from_args(a).unwrap_err();
        assert_eq!(e.kind, ErrorKind::Path);
        assert_eq!(e.msg, "required value of argument '--file <file>' missing or invalid");
        assert_eq!(e.exit_code(), 1);
    }
}

#[test]
fn directory_is_cleared_once_and_no_more() {
    assert_eq!(MAX_DIR_RETRIES, 1);
    assert_eq!(create_split_dir_step(CreateOutcome::Created, 0), DirAction::Done);
    assert_eq!(create_split_dir_step(CreateOutcome::Created, 1), DirAction::Done);
    assert_eq!(create_split_dir_step(CreateOutcome::AlreadyExists, 0), DirAction::ClearAndRetry);
    assert_eq!(create_split_dir_step(CreateOutcome::AlreadyExists, 1), DirAction::Fail);
    assert_eq!(create_split_dir_step(CreateOutcome::AlreadyExists, usize::MAX), DirAction::Fail);
    assert_eq!(create_split_dir_step(CreateOutcome::Failed, 0), DirAction::Fail);
    assert_eq!(create_split_dir_step(CreateOutcome::Failed, 1), DirAction::Fail);
}
