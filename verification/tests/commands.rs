use scriptkeeper::command::basename;
use scriptkeeper::command::executables_match;
use scriptkeeper::command::Command;

fn command(executable: &[u8], arguments: &[&[u8]]) -> Command {
    Command {
        executable: executable.to_vec(),
        arguments: arguments.iter().map(|a| a.to_vec()).collect(),
    }
}

#[test]
fn parses_a_bare_executable() {
    let c = Command::new("foo").unwrap();
    assert_eq!(c, command(b"foo", &[]));
}

#[test]
fn parses_arguments_after_the_executable() {
    let c = Command::new("foo bar baz").unwrap();
    assert_eq!(c, command(b"foo", &[b"bar", b"baz"]));
}

#[test]
fn double_quotes_preserve_embedded_whitespace() {
    let c = Command::new("foo \"bar baz\"").unwrap();
    assert_eq!(c, command(b"foo", &[b"bar baz"]));
}

#[test]
fn quotes_may_sit_inside_a_token() {
    let c = Command::new("foo a\"b c\"d").unwrap();
    assert_eq!(c, command(b"foo", &[b"ab cd"]));
}

#[test]
fn empty_quotes_make_an_empty_argument() {
    let c = Command::new("foo \"\"").unwrap();
    assert_eq!(c, command(b"foo", &[b""]));
}

#[test]
fn rejects_an_unmatched_quote() {
    let error = Command::new("foo \"bar").unwrap_err();
    assert_eq!(error.message, b"unmatched quotes".to_vec());
}

#[test]
fn rejects_a_command_without_tokens() {
    let error = Command::new("   ").unwrap_err();
    assert_eq!(error.message, b"a command must not be empty".to_vec());
}

#[test]
fn formats_the_executable_and_arguments() {
    let c = command(b"cp", &[b"a", b"b"]);
    assert_eq!(c.format(), b"cp a b".to_vec());
}

#[test]
fn formatting_requotes_arguments_holding_whitespace() {
    let c = command(b"cp", &[b"a file", b"b"]);
    assert_eq!(c.format(), b"cp \"a file\" b".to_vec());
}

#[test]
fn formatting_then_parsing_round_trips() {
    let c = command(b"cp", &[b"a file", b"-r", b"b"]);
    let line = c.format();
    let parsed = Command::new(std::str::from_utf8(&line).unwrap()).unwrap();
    assert_eq!(parsed, c);
}

#[test]
fn basename_takes_the_part_after_the_last_slash() {
    assert_eq!(basename(&b"/usr/bin/cp".to_vec()), b"cp".to_vec());
    assert_eq!(basename(&b"cp".to_vec()), b"cp".to_vec());
}

#[test]
fn a_bare_expected_executable_matches_by_file_name() {
    assert_eq!(
        executables_match(&b"cp".to_vec(), &b"/usr/bin/cp".to_vec()),
        true
    );
    assert_eq!(
        executables_match(&b"cp".to_vec(), &b"/usr/bin/mv".to_vec()),
        false
    );
}

#[test]
fn an_expected_path_matches_only_itself() {
    assert_eq!(
        executables_match(&b"/not/in/path".to_vec(), &b"/not/in/path".to_vec()),
        true
    );
    assert_eq!(
        executables_match(&b"/usr/bin/cp".to_vec(), &b"/usr/local/bin/cp".to_vec()),
        false
    );
}
