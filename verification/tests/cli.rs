use declmig_lib_core::cli::{parse_arguments, require_only, required, select_command, Command};
use declmig_lib_core::schema_parity::ParityError;

#[test]
fn flags_are_pairs_and_duplicates_fail_closed() {
    assert!(parse_arguments(vec!["validate".into(), "--input".into(), "x".into()]).is_ok());
    assert_eq!(
        parse_arguments(vec![
            "validate".into(),
            "--input".into(),
            "x".into(),
            "--input".into(),
            "y".into(),
        ]),
        Err(ParityError::InvalidArgument)
    );
    assert_eq!(
        parse_arguments(vec!["validate".into(), "input".into(), "x".into()]),
        Err(ParityError::InvalidArgument)
    );
}

fn strings(values: &[&str]) -> Vec<String> {
    values.iter().map(|value| (*value).to_owned()).collect()
}

#[test]
fn arguments_split_into_command_and_pairs() {
    let (command, options) =
        parse_arguments(strings(&["compare", "--expected", "a.json", "--actual", "b.json"])).expect("valid");
    assert_eq!(command, "compare");
    assert_eq!(
        options,
        vec![
            ("expected".to_owned(), "a.json".to_owned()),
            ("actual".to_owned(), "b.json".to_owned()),
        ]
    );
}

#[test]
fn malformed_flags_are_refused() {
    for arguments in [
        strings(&[]),
        strings(&["validate", "--"]),
        strings(&["validate", "--", "x"]),
        strings(&["validate", "--input"]),
        strings(&["validate", "--input", "--output"]),
    ] {
        assert_eq!(parse_arguments(arguments), Err(ParityError::InvalidArgument));
    }
}

#[test]
fn unknown_options_are_refused() {
    let (_, options) = parse_arguments(strings(&["validate", "--input", "x"])).expect("valid");
    assert_eq!(require_only(&options, &["input"]), Ok(()));
    assert_eq!(require_only(&options, &["output"]), Err(ParityError::InvalidArgument));
    assert_eq!(require_only(&Vec::new(), &[]), Ok(()));
}

#[test]
fn required_options_must_be_present_and_not_blank() {
    let (_, options) =
        parse_arguments(strings(&["parse-diesel", "--schema", "public", "--engine", "  "])).expect("valid");
    assert_eq!(required(&options, "schema"), Ok("public"));
    assert_eq!(required(&options, "engine"), Err(ParityError::InvalidArgument));
    assert_eq!(required(&options, "input"), Err(ParityError::InvalidArgument));
}

#[test]
fn commands_accept_only_their_options() {
    let (_, options) = parse_arguments(strings(&["validate", "--input", "x"])).expect("valid");
    assert_eq!(select_command("validate", &options), Ok(Command::Validate));
    assert_eq!(select_command("compare", &options), Err(ParityError::InvalidArgument));
    assert_eq!(select_command("parse-diesel", &options), Ok(Command::ParseDiesel));
    assert_eq!(select_command("parse-seaorm", &options), Err(ParityError::InvalidArgument));
    assert_eq!(select_command("lint", &options), Err(ParityError::InvalidArgument));
    assert_eq!(select_command("lint", &Vec::new()), Err(ParityError::InvalidArgument));
    let (_, options) =
        parse_arguments(strings(&["compare", "--expected", "a", "--actual", "b", "--output", "c"])).expect("valid");
    assert_eq!(select_command("compare", &options), Ok(Command::Compare));
    let (_, options) = parse_arguments(strings(&["parse-seaorm", "--input-dir", "d"])).expect("valid");
    assert_eq!(select_command("parse-seaorm", &options), Ok(Command::ParseSeaorm));
}
