use scriptkeeper::command::Command;
use scriptkeeper::command_matcher::AnchoredRegex;
use scriptkeeper::command_matcher::CommandMatcher;

fn command(executable: &[u8], arguments: &[&[u8]]) -> Command {
    Command {
        executable: executable.to_vec(),
        arguments: arguments.iter().map(|a| a.to_vec()).collect(),
    }
}

#[test]
fn exact_match_accepts_the_same_command() {
    let matcher = CommandMatcher::ExactMatch(command(b"cp", &[b"a"]));
    assert!(matcher.matches(&command(b"cp", &[b"a"])));
}

#[test]
fn exact_match_rejects_a_different_executable() {
    let matcher = CommandMatcher::ExactMatch(command(b"cp", &[]));
    assert!(!matcher.matches(&command(b"mv", &[])));
}

#[test]
fn exact_match_rejects_different_arguments() {
    let matcher = CommandMatcher::ExactMatch(command(b"cp", &[b"a"]));
    assert!(!matcher.matches(&command(b"cp", &[b"b"])));
    assert!(!matcher.matches(&command(b"cp", &[])));
}

#[test]
fn exact_match_resolves_a_bare_executable_against_the_file_name() {
    let matcher = CommandMatcher::ExactMatch(command(b"cp", &[]));
    assert!(matcher.matches(&command(b"/usr/bin/cp", &[])));
}

#[test]
fn exact_match_with_a_path_requires_that_path() {
    let matcher = CommandMatcher::ExactMatch(command(b"/usr/bin/cp", &[]));
    assert!(!matcher.matches(&command(b"/usr/local/bin/cp", &[])));
}

#[test]
fn regex_match_accepts_a_full_line_match() {
    let matcher = CommandMatcher::RegexMatch(AnchoredRegex::new("cp \\d+").unwrap());
    assert!(matcher.matches(&command(b"cp", &[b"42"])));
}

#[test]
fn regex_match_is_anchored_on_both_ends() {
    let matcher = CommandMatcher::RegexMatch(AnchoredRegex::new("cp").unwrap());
    assert!(matcher.matches(&command(b"cp", &[])));
    // the pattern matches a substring of these lines, so they must not pass
    assert!(!matcher.matches(&command(b"cpx", &[])));
    assert!(!matcher.matches(&command(b"xcp", &[])));
    assert!(!matcher.matches(&command(b"cp", &[b"arg"])));
}

#[test]
fn regex_match_sees_the_formatted_command_line() {
    let matcher = CommandMatcher::RegexMatch(AnchoredRegex::new("mkdir -p .*").unwrap());
    assert!(matcher.matches(&command(b"mkdir", &[b"-p", b"foo"])));
    assert!(!matcher.matches(&command(b"mkdir", &[b"foo"])));
}

#[test]
fn rejects_an_invalid_regex_with_the_engine_message() {
    let error = AnchoredRegex::new("\\x").unwrap_err();
    let message = String::from_utf8(error.message).unwrap();
    assert!(message.contains("regex parse error"));
    assert!(message.contains("^\\x$"));
    assert!(message.contains("invalid hexadecimal digit"));
}

#[test]
fn formats_an_exact_matcher_as_its_command_line() {
    let matcher = CommandMatcher::ExactMatch(command(b"cp", &[b"a b", b"c"]));
    assert_eq!(matcher.format(), b"cp \"a b\" c".to_vec());
}

#[test]
fn formats_a_regex_matcher_as_its_pattern() {
    let matcher = CommandMatcher::RegexMatch(AnchoredRegex::new("\\d").unwrap());
    assert_eq!(matcher.format(), b"\\d".to_vec());
}
