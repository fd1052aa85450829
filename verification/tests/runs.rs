use scriptkeeper::command::Command;
use scriptkeeper::command_matcher::AnchoredRegex;
use scriptkeeper::command_matcher::CommandMatcher;
use scriptkeeper::emulation::decimal_i32;
use scriptkeeper::emulation::exitcode_error;
use scriptkeeper::emulation::is_unmocked_command;
use scriptkeeper::emulation::run_against_protocol;
use scriptkeeper::emulation::run_against_protocols;
use scriptkeeper::emulation::run_against_test;
use scriptkeeper::emulation::should_replace_executable;
use scriptkeeper::emulation::Syscall;
use scriptkeeper::emulation::SyscallStop;
use scriptkeeper::emulation::ScriptRun;
use scriptkeeper::emulation::SyscallMock;
use scriptkeeper::emulation::TestResult;
use scriptkeeper::protocol;
use scriptkeeper::protocol::Protocol;
use scriptkeeper::test_spec::Step;
use scriptkeeper::test_spec::Test;

fn command(executable: &[u8], arguments: &[&[u8]]) -> Command {
    Command {
        executable: executable.to_vec(),
        arguments: arguments.iter().map(|a| a.to_vec()).collect(),
    }
}

fn protocol_step(executable: &[u8]) -> protocol::Step {
    protocol::Step {
        command: command(executable, &[]),
        stdout: vec![],
        exitcode: 0,
    }
}

fn exact_step(executable: &[u8]) -> Step {
    Step::new(CommandMatcher::ExactMatch(command(executable, &[])))
}

#[test]
fn a_matching_step_passes() {
    // the script execs cp, the protocol expects exactly cp
    let result = run_against_protocol(
        Protocol::new(vec![protocol_step(b"cp")]),
        &vec![command(b"cp", &[])],
        0,
    );
    assert_eq!(result, TestResult::Pass);
}

#[test]
fn a_mismatching_step_reports_both_commands() {
    // the script execs mv, the protocol expects exactly cp
    let result = run_against_protocol(
        Protocol::new(vec![protocol_step(b"cp")]),
        &vec![command(b"mv", &[])],
        0,
    );
    assert_eq!(
        result,
        TestResult::Failure(b"  expected: cp\n  received: mv\n".to_vec())
    );
}

#[test]
fn an_invocation_after_the_protocol_end_is_an_error() {
    // the protocol has no steps, the script execs ls anyway
    let result = run_against_protocol(Protocol::empty(), &vec![command(b"ls", &[])], 0);
    assert_eq!(
        result,
        TestResult::Failure(b"  expected: <protocol end>\n  received: ls\n".to_vec())
    );
}

#[test]
fn a_step_left_over_when_the_script_exits_is_an_error() {
    // the protocol expects cp, the script execs nothing
    let result = run_against_protocol(Protocol::new(vec![protocol_step(b"cp")]), &vec![], 0);
    assert_eq!(
        result,
        TestResult::Failure(b"  expected: cp\n  received: <script terminated>\n".to_vec())
    );
}

#[test]
fn a_wrong_script_exit_code_is_an_error() {
    // the protocol expects the default exit code zero, the script exits 42
    let result = run_against_protocol(Protocol::empty(), &vec![], 42);
    assert_eq!(
        result,
        TestResult::Failure(b"  expected: <exitcode 0>\n  received: <exitcode 42>\n".to_vec())
    );
}

#[test]
fn a_declared_exit_code_is_accepted() {
    let mut protocol = Protocol::empty();
    protocol.exitcode = 42;
    let result = run_against_protocol(protocol, &vec![], 42);
    assert_eq!(result, TestResult::Pass);
}

#[test]
fn the_first_error_wins() {
    // both steps mismatch; only the first is reported
    let result = run_against_protocol(
        Protocol::new(vec![protocol_step(b"cp"), protocol_step(b"ls")]),
        &vec![command(b"mv", &[]), command(b"rm", &[])],
        42,
    );
    assert_eq!(
        result,
        TestResult::Failure(b"  expected: cp\n  received: mv\n".to_vec())
    );
}

#[test]
fn a_received_path_is_shortened_against_a_bare_expected_executable() {
    let result = run_against_protocol(
        Protocol::new(vec![protocol_step(b"cp")]),
        &vec![command(b"/usr/bin/mv", &[])],
        0,
    );
    assert_eq!(
        result,
        TestResult::Failure(b"  expected: cp\n  received: mv\n".to_vec())
    );
}

#[test]
fn a_sequence_of_matching_steps_passes() {
    let result = run_against_protocol(
        Protocol::new(vec![
            protocol_step(b"cp"),
            protocol_step(b"ls"),
            protocol_step(b"rm"),
        ]),
        &vec![
            command(b"cp", &[]),
            command(b"ls", &[]),
            command(b"rm", &[]),
        ],
        0,
    );
    assert_eq!(result, TestResult::Pass);
}

#[test]
fn running_the_same_passing_spec_twice_passes_twice() {
    // no state leaks from one run into the next
    for _ in 0..2 {
        let result = run_against_protocol(
            Protocol::new(vec![protocol_step(b"cp")]),
            &vec![command(b"cp", &[])],
            0,
        );
        assert_eq!(result, TestResult::Pass);
    }
}

#[test]
fn a_trailing_hole_accepts_zero_extra_invocations() {
    let mut test = Test::new(vec![exact_step(b"cp")]);
    test.ends_with_hole = true;
    let result = run_against_test(test, &vec![command(b"cp", &[])], 0);
    assert_eq!(result, TestResult::Pass);
}

#[test]
fn a_trailing_hole_accepts_many_extra_invocations() {
    let mut test = Test::new(vec![exact_step(b"cp")]);
    test.ends_with_hole = true;
    let result = run_against_test(
        test,
        &vec![
            command(b"cp", &[]),
            command(b"ls", &[]),
            command(b"rm", &[b"-rf", b"whatever"]),
        ],
        0,
    );
    assert_eq!(result, TestResult::Pass);
}

#[test]
fn without_a_hole_extra_invocations_fail() {
    let result = run_against_test(
        Test::new(vec![exact_step(b"cp")]),
        &vec![command(b"cp", &[]), command(b"ls", &[])],
        0,
    );
    assert_eq!(
        result,
        TestResult::Failure(b"  expected: <protocol end>\n  received: ls\n".to_vec())
    );
}

#[test]
fn a_hole_forgives_steps_left_over() {
    let mut test = Test::new(vec![exact_step(b"cp")]);
    test.ends_with_hole = true;
    let result = run_against_test(test, &vec![], 0);
    assert_eq!(result, TestResult::Pass);
}

#[test]
fn a_hole_does_not_forgive_a_wrong_exit_code() {
    let mut test = Test::new(vec![exact_step(b"cp")]);
    test.ends_with_hole = true;
    let result = run_against_test(test, &vec![], 2);
    assert_eq!(
        result,
        TestResult::Failure(b"  expected: <exitcode 0>\n  received: <exitcode 2>\n".to_vec())
    );
}

#[test]
fn without_a_hole_steps_left_over_fail() {
    let result = run_against_test(Test::new(vec![exact_step(b"cp")]), &vec![], 0);
    assert_eq!(
        result,
        TestResult::Failure(b"  expected: cp\n  received: <script terminated>\n".to_vec())
    );
}

#[test]
fn a_regex_step_checks_the_whole_line() {
    let test = Test::new(vec![Step::new(CommandMatcher::RegexMatch(
        AnchoredRegex::new("cp \\d+").unwrap(),
    ))]);
    let result = run_against_test(test, &vec![command(b"cp", &[b"42"])], 0);
    assert_eq!(result, TestResult::Pass);
}

#[test]
fn a_regex_step_mismatch_shows_the_pattern() {
    let test = Test::new(vec![Step::new(CommandMatcher::RegexMatch(
        AnchoredRegex::new("cp \\d+").unwrap(),
    ))]);
    let result = run_against_test(test, &vec![command(b"cp", &[b"x"])], 0);
    assert_eq!(
        result,
        TestResult::Failure(b"  expected: cp \\d+\n  received: cp x\n".to_vec())
    );
}

#[test]
fn a_test_with_a_declared_exit_code_checks_it() {
    let mut test = Test::new(vec![]);
    test.exitcode = Some(1);
    let result = run_against_test(test, &vec![], 0);
    assert_eq!(
        result,
        TestResult::Failure(b"  expected: <exitcode 1>\n  received: <exitcode 0>\n".to_vec())
    );
}

#[test]
fn the_mock_behaviour_of_a_consumed_step_is_returned() {
    let mut step = exact_step(b"cp");
    step.stdout = b"fake output".to_vec();
    step.exitcode = 3;
    let mut mock = SyscallMock::new(Test::new(vec![step]));
    let (stdout, exitcode) = mock.handle_step(&command(b"cp", &[]));
    assert_eq!(stdout, b"fake output".to_vec());
    assert_eq!(exitcode, 3);
    mock.handle_end(0);
    assert_eq!(mock.result, TestResult::Pass);
}

#[test]
fn beyond_the_queue_the_stand_in_is_silent_and_succeeds() {
    let mut test = Test::new(vec![]);
    test.ends_with_hole = true;
    let mut mock = SyscallMock::new(test);
    let (stdout, exitcode) = mock.handle_step(&command(b"ls", &[]));
    assert_eq!(stdout, Vec::<u8>::new());
    assert_eq!(exitcode, 0);
    mock.handle_end(0);
    assert_eq!(mock.result, TestResult::Pass);
}

#[test]
fn protocols_are_aggregated_in_declaration_order() {
    let protocols = vec![
        Protocol::new(vec![protocol_step(b"cp")]),
        Protocol::new(vec![protocol_step(b"ls")]),
    ];
    let runs = vec![
        ScriptRun {
            received: vec![command(b"cp", &[])],
            exitcode: 0,
        },
        ScriptRun {
            received: vec![command(b"mv", &[])],
            exitcode: 0,
        },
    ];
    let results = run_against_protocols(protocols, &runs);
    assert_eq!(
        results.0,
        vec![
            TestResult::Pass,
            TestResult::Failure(b"  expected: ls\n  received: mv\n".to_vec()),
        ]
    );
}

#[test]
fn unmocked_commands_match_like_bare_executables() {
    let unmocked = vec![b"ls".to_vec()];
    assert!(is_unmocked_command(&unmocked, &b"/bin/ls".to_vec()));
    assert!(!is_unmocked_command(&unmocked, &b"/bin/cp".to_vec()));
}

#[test]
fn a_matching_declared_stream_output_passes() {
    let mut mock = SyscallMock::new(Test::new(vec![]));
    mock.check_stream(
        &b"stderr".to_vec(),
        &Some(b"foo\n".to_vec()),
        &b"foo\n".to_vec(),
    );
    mock.handle_end(0);
    assert_eq!(mock.result, TestResult::Pass);
}

#[test]
fn a_wrong_declared_stream_output_is_an_error() {
    let mut mock = SyscallMock::new(Test::new(vec![]));
    mock.check_stream(
        &b"stderr".to_vec(),
        &Some(b"foo\n".to_vec()),
        &b"bar\n".to_vec(),
    );
    mock.handle_end(0);
    assert_eq!(
        mock.result,
        TestResult::Failure(
            b"  expected output to stderr: \"foo\\n\"\n  received output to stderr: \"bar\\n\"\n"
                .to_vec()
        )
    );
}

#[test]
fn an_undeclared_stream_output_is_not_checked() {
    let mut mock = SyscallMock::new(Test::new(vec![]));
    mock.check_stream(&b"stderr".to_vec(), &None, &b"anything".to_vec());
    mock.handle_end(0);
    assert_eq!(mock.result, TestResult::Pass);
}

#[test]
fn only_child_execs_at_syscall_entry_are_replaced() {
    assert!(should_replace_executable(
        1,
        2,
        Syscall::Execve,
        SyscallStop::Enter
    ));
    // the root tracee's own exec is the script itself and stays untouched
    assert!(!should_replace_executable(
        1,
        1,
        Syscall::Execve,
        SyscallStop::Enter
    ));
    assert!(!should_replace_executable(
        1,
        2,
        Syscall::Execve,
        SyscallStop::Exit
    ));
    assert!(!should_replace_executable(
        1,
        2,
        Syscall::Other,
        SyscallStop::Enter
    ));
}

#[test]
fn looks_up_step_executable_in_path() {
    // the script runs `cp`; the loader resolves it on the search path, so
    // the exec actually received names the full path
    let result = run_against_test(
        Test::new(vec![exact_step(b"cp")]),
        &vec![command(b"/usr/bin/cp", &[])],
        0,
    );
    assert_eq!(result, TestResult::Pass);
}

#[test]
fn looks_up_unmocked_command_executable_in_path() {
    // `ls` is declared unmocked; the exec received names the full path
    let unmocked = vec![b"ls".to_vec()];
    assert!(is_unmocked_command(&unmocked, &b"/usr/bin/ls".to_vec()));
    // an unmocked invocation is never handed to the engine, so a test
    // with no steps still passes
    let result = run_against_test(Test::new(vec![]), &vec![], 0);
    assert_eq!(result, TestResult::Pass);
}

#[test]
fn runs_step_executable_that_is_not_in_path() {
    let result = run_against_test(
        Test::new(vec![exact_step(b"/not/in/path")]),
        &vec![command(b"/not/in/path", &[])],
        0,
    );
    assert_eq!(result, TestResult::Pass);
}

#[test]
fn exit_codes_are_shown_in_decimal() {
    assert_eq!(decimal_i32(0), b"0".to_vec());
    assert_eq!(decimal_i32(10), b"10".to_vec());
    assert_eq!(decimal_i32(12345), b"12345".to_vec());
    assert_eq!(decimal_i32(-7), b"-7".to_vec());
    assert_eq!(
        exitcode_error(0, -1),
        b"  expected: <exitcode 0>\n  received: <exitcode -1>\n".to_vec()
    );
}

#[test]
fn multiple_unknown_fields() {}

#[test]
fn when_not_specified_but_scripts_writes_to_stderr() {}
