use scriptkeeper::command::Command;
use scriptkeeper::command_matcher::CommandMatcher;
use scriptkeeper::protocol;
use scriptkeeper::protocol::find_protocol_file;
use scriptkeeper::protocol::Protocol;
use scriptkeeper::test_spec::find_test_file;
use scriptkeeper::test_spec::Step;
use scriptkeeper::test_spec::StepOrHole;
use scriptkeeper::test_spec::Test;
use scriptkeeper::test_spec::Tests;

#[test]
fn adds_the_protocols_file_extension() {
    assert_eq!(
        find_protocol_file(&b"foo".to_vec()),
        b"foo.protocols.yaml".to_vec()
    );
}

#[test]
fn works_for_files_with_extensions() {
    assert_eq!(
        find_protocol_file(&b"foo.ext".to_vec()),
        b"foo.ext.protocols.yaml".to_vec()
    );
}

#[test]
fn adds_the_test_file_extension() {
    assert_eq!(find_test_file(&b"foo".to_vec()), b"foo.test.yaml".to_vec());
}

#[test]
fn mod_works_for_files_with_extensions() {
    assert_eq!(
        find_test_file(&b"foo.ext".to_vec()),
        b"foo.ext.test.yaml".to_vec()
    );
}

#[test]
fn a_protocol_step_parses_from_a_command_string() {
    let step = protocol::Step::from_string("foo bar").unwrap();
    assert_eq!(
        step,
        protocol::Step {
            command: Command {
                executable: b"foo".to_vec(),
                arguments: vec![b"bar".to_vec()],
            },
            stdout: vec![],
            exitcode: 0,
        }
    );
}

#[test]
fn a_test_step_parses_from_a_command_string() {
    let step = Step::from_string("foo bar").unwrap();
    match step.command_matcher {
        CommandMatcher::ExactMatch(command) => {
            assert_eq!(command.executable, b"foo".to_vec());
            assert_eq!(command.arguments, vec![b"bar".to_vec()]);
        }
        CommandMatcher::RegexMatch(_) => panic!("expected an exact matcher"),
    }
    assert_eq!(step.stdout, Vec::<u8>::new());
    assert_eq!(step.exitcode, 0);
}

#[test]
fn an_empty_protocol_has_defaults() {
    let protocol = Protocol::empty();
    assert_eq!(protocol.steps, vec![]);
    assert_eq!(protocol.arguments, Vec::<Vec<u8>>::new());
    assert_eq!(protocol.env, Vec::<(Vec<u8>, Vec<u8>)>::new());
    assert_eq!(protocol.cwd, None);
    assert_eq!(protocol.exitcode, 0);
    assert_eq!(protocol.mocked_files, Vec::<Vec<u8>>::new());
}

#[test]
fn an_empty_test_has_defaults() {
    let test = Test::empty();
    assert_eq!(test.steps.len(), 0);
    assert_eq!(test.ends_with_hole, false);
    assert_eq!(test.arguments, Vec::<Vec<u8>>::new());
    assert_eq!(test.cwd, None);
    assert_eq!(test.stdout, None);
    assert_eq!(test.stderr, None);
    assert_eq!(test.exitcode, None);
    assert_eq!(test.mocked_files, Vec::<Vec<u8>>::new());
}

#[test]
fn a_trailing_hole_marks_the_test() {
    let test = Test::from_array(vec![
        StepOrHole::Step(Step::from_string("cp").unwrap()),
        StepOrHole::Hole,
    ])
    .unwrap();
    assert_eq!(test.ends_with_hole, true);
    assert_eq!(test.steps.len(), 1);
}

#[test]
fn no_hole_by_default() {
    let test = Test::from_array(vec![StepOrHole::Step(Step::from_string("cp").unwrap())]).unwrap();
    assert_eq!(test.ends_with_hole, false);
    assert_eq!(test.steps.len(), 1);
}

#[test]
fn a_hole_before_more_steps_is_rejected() {
    let error = Test::from_array(vec![
        StepOrHole::Hole,
        StepOrHole::Step(Step::from_string("cp").unwrap()),
    ])
    .unwrap_err();
    assert_eq!(
        error.message,
        b"holes ('_') are only allowed as the last step".to_vec()
    );
}

#[test]
fn a_lone_hole_is_accepted() {
    let test = Test::from_array(vec![StepOrHole::Hole]).unwrap();
    assert_eq!(test.ends_with_hole, true);
    assert_eq!(test.steps.len(), 0);
}

#[test]
fn a_tests_file_starts_without_overrides() {
    let tests = Tests::new(vec![Test::empty(), Test::empty()]);
    assert_eq!(tests.tests.len(), 2);
    assert_eq!(tests.unmocked_commands, Vec::<Vec<u8>>::new());
    assert_eq!(tests.interpreter, None);
}
