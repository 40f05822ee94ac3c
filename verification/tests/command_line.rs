use notepad::cli::{parse_args, CommandLine};

fn args(items: &[&str]) -> Vec<Option<String>> {
    items.iter().map(|s| Some(s.to_string())).collect()
}

#[test]
fn plain_arguments_are_files() {
    assert_eq!(parse_args(&args(&["a.txt", "b.txt"])), CommandLine::Open(vec![0, 1]));
    assert_eq!(parse_args(&args(&[])), CommandLine::Open(vec![]));
}

#[test]
fn a_lone_dash_is_a_file() {
    assert_eq!(parse_args(&args(&["-", "x"])), CommandLine::Open(vec![0, 1]));
}

#[test]
fn double_dash_makes_the_rest_files() {
    assert_eq!(parse_args(&args(&["a", "--", "-x", "--help"])), CommandLine::Open(vec![0, 2, 3]));
    assert_eq!(parse_args(&args(&["--", "--"])), CommandLine::Open(vec![1]));
}

#[test]
fn help_and_version_stop_reading() {
    assert_eq!(parse_args(&args(&["a", "-h", "-q"])), CommandLine::Help);
    assert_eq!(parse_args(&args(&["--help"])), CommandLine::Help);
    assert_eq!(parse_args(&args(&["-V"])), CommandLine::Version);
    assert_eq!(parse_args(&args(&["x", "--version", "-h"])), CommandLine::Version);
}

#[test]
fn unknown_options_are_reported() {
    assert_eq!(parse_args(&args(&["a", "-q", "-h"])), CommandLine::Unrecognized("-q".to_string()));
    assert_eq!(parse_args(&args(&["--verbose"])), CommandLine::Unrecognized("--verbose".to_string()));
}

#[test]
fn arguments_that_are_not_unicode_are_files() {
    let a = vec![None, Some("-h".to_string())];
    assert_eq!(parse_args(&a), CommandLine::Help);
    let b = vec![Some("--".to_string()), None];
    assert_eq!(parse_args(&b), CommandLine::Open(vec![1]));
    let c = vec![None];
    assert_eq!(parse_args(&c), CommandLine::Open(vec![0]));
}
