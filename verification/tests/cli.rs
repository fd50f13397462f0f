use qexp::cli::{exit_code, parse, Asked, Invocation, Start};

fn args(list: &[&str]) -> Vec<Vec<u8>> {
    list.iter().map(|a| a.as_bytes().to_vec()).collect()
}

#[test]
fn a_path_that_is_not_there_or_an_unknown_option_exits_with_2_and_the_rest_with_0() {
    assert_eq!(exit_code(&Invocation::Missing(b"/nowhere/at/all".to_vec())), 2);
    assert_eq!(exit_code(&Invocation::Unknown("--frobnicate".into())), 2);
    assert_eq!(exit_code(&Invocation::Version), 0);
    assert_eq!(exit_code(&Invocation::Help), 0);
    assert_eq!(exit_code(&Invocation::Screen(Start { folder: b"/h".to_vec(), select: None })), 0);
}

#[test]
fn a_path_is_read_from_where_qexp_was_started_and_nothing_opens_home() {
    assert_eq!(parse(&args(&["/r/home/notes"]), b"/r/home", b"/r"), Asked::Open(b"/r/home/notes".to_vec()));
    assert_eq!(
        parse(&args(&["notes/todo.md"]), b"/r/home", b"/r/home"),
        Asked::Open(b"/r/home/notes/todo.md".to_vec())
    );
    assert_eq!(parse(&args(&[]), b"/r/home", b"/r"), Asked::Open(b"/r/home".to_vec()));
    assert_eq!(parse(&args(&["gone"]), b"/r/home", b"/r"), Asked::Open(b"/r/gone".to_vec()));
}

#[test]
fn options_are_read_and_a_second_path_is_not_understood() {
    let home: &[u8] = b"/r/home";
    let root: &[u8] = b"/r";
    assert_eq!(parse(&args(&["--version"]), home, root), Asked::Version);
    assert_eq!(parse(&args(&["-V"]), home, root), Asked::Version);
    assert_eq!(parse(&args(&["-h"]), home, root), Asked::Help);
    assert_eq!(parse(&args(&["--help", "--version"]), home, root), Asked::Help);
    assert_eq!(parse(&args(&["--frobnicate"]), home, root), Asked::Unknown(b"--frobnicate".to_vec()));
    assert_eq!(parse(&args(&["home", "home"]), home, root), Asked::Unknown(b"home".to_vec()));
    assert_eq!(parse(&args(&["--", "home"]), home, root), Asked::Open(b"/r/home".to_vec()));
    assert_eq!(parse(&args(&["--", "-x"]), home, root), Asked::Open(b"/r/-x".to_vec()));
    assert_eq!(parse(&args(&["-"]), home, root), Asked::Open(b"/r/-".to_vec()));
}

#[test]
fn an_argument_that_is_not_text_is_a_path() {
    let odd = vec![b"/r/\xff".to_vec()];
    assert_eq!(parse(&odd, b"/h", b"/"), Asked::Open(b"/r/\xff".to_vec()));
}
