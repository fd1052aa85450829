//! The step-matching engine.
//!
//! One `SyscallMock` accompanies one traced run of a script.  Every
//! intercepted invocation consumes the front of the expectation queue and
//! is checked against its matcher; after the script exits, leftover steps
//! (unless the test ends with a hole) and the script's own exit code are
//! checked.  Only the first mismatch
//! of a run is reported: the result moves from `Pass` to `Failure` once
//! and never back.

use vstd::prelude::*;
use vstd::string::*;
use crate::command::Command;
use crate::command::CommandView;
use crate::command::push_all;
use crate::command::spec_executables_match;
use crate::command::spec_format_command;
use crate::command::executables_match;
use crate::command_matcher::CommandMatcher;
use crate::command_matcher::CommandMatcherView;
use crate::command_matcher::spec_matcher_accepts;
use crate::command_matcher::spec_matcher_format;
use crate::command_matcher::spec_received_display;
use crate::protocol::Protocol;
use crate::test_spec::Step;
use crate::test_spec::StepView;
use crate::test_spec::Test;
use crate::test_spec::TestView;

verus! {

// ------------------------------------------------------------------
// Error messages
// ------------------------------------------------------------------

/// The shape every mismatch message has: what was expected, then what was
/// received, each on a line of its own.
pub open spec fn spec_format_error(expected: Seq<u8>, received: Seq<u8>) -> Seq<u8> {
    "  expected: ".spec_bytes() + expected + "\n  received: ".spec_bytes() + received
        + "\n".spec_bytes()
}

/// Formats a mismatch message from its two sides.
pub fn format_error(expected: &Vec<u8>, received: &Vec<u8>) -> (r: Vec<u8>)
    ensures
        r@ == spec_format_error(expected@, received@),
{
    let mut r: Vec<u8> = Vec::new();
    let head = ("  expected: ").as_bytes_vec();
    push_all(&mut r, &head);
    push_all(&mut r, expected);
    let middle = ("\n  received: ").as_bytes_vec();
    push_all(&mut r, &middle);
    push_all(&mut r, received);
    let tail = ("\n").as_bytes_vec();
    push_all(&mut r, &tail);
    proof {
        assert(r@ =~= spec_format_error(expected@, received@));
    }
    r
}

/// The decimal digit for one value below ten.
pub open spec fn spec_decimal_digit(d: int) -> u8 {
    (48 + d) as u8
}

/// The decimal digits of a number that is not negative.
pub open spec fn spec_decimal_digits(n: int) -> Seq<u8>
    recommends
        n >= 0,
    decreases n,
{
    if n < 10 {
        seq![spec_decimal_digit(n)]
    } else {
        spec_decimal_digits(n / 10).push(spec_decimal_digit(n % 10))
    }
}

/// The decimal representation of an integer, with a leading minus sign
/// when it is negative.
pub open spec fn spec_decimal(n: int) -> Seq<u8> {
    if n < 0 {
        seq![45u8] + spec_decimal_digits(-n)
    } else {
        spec_decimal_digits(n)
    }
}

fn push_decimal_digits(n: i64, out: &mut Vec<u8>)
    requires
        n >= 0,
    ensures
        final(out)@ == old(out)@ + spec_decimal_digits(n as int),
    decreases n,
{
    if n < 10 {
        out.push(48 + (n as u8));
        proof {
            assert(out@ =~= old(out)@ + spec_decimal_digits(n as int));
        }
    } else {
        push_decimal_digits(n / 10, out);
        out.push(48 + ((n % 10) as u8));
        proof {
            assert(spec_decimal_digit((n as int) % 10) == 48 + ((n % 10) as u8));
            assert(out@ =~= old(out)@ + spec_decimal_digits(n as int));
        }
    }
}

/// The decimal representation of an exit code.
pub fn decimal_i32(n: i32) -> (r: Vec<u8>)
    ensures
        r@ == spec_decimal(n as int),
{
    let mut out: Vec<u8> = Vec::new();
    let wide: i64 = n as i64;
    if wide < 0 {
        out.push(45);
        push_decimal_digits(-wide, &mut out);
        proof {
            assert(out@ =~= seq![45u8] + spec_decimal_digits(-(n as int)));
        }
    } else {
        push_decimal_digits(wide, &mut out);
        proof {
            assert(out@ =~= spec_decimal_digits(n as int));
        }
    }
    out
}

/// The message reported when the script's own exit code is wrong.
pub open spec fn spec_exitcode_error(expected: int, received: int) -> Seq<u8> {
    "  expected: <exitcode ".spec_bytes() + spec_decimal(expected) + ">\n  received: <exitcode ".spec_bytes()
        + spec_decimal(received) + ">\n".spec_bytes()
}

/// Formats the message for a wrong script exit code.
pub fn exitcode_error(expected: i32, received: i32) -> (r: Vec<u8>)
    ensures
        r@ == spec_exitcode_error(expected as int, received as int),
{
    let mut r: Vec<u8> = Vec::new();
    let head = ("  expected: <exitcode ").as_bytes_vec();
    push_all(&mut r, &head);
    let expected_digits = decimal_i32(expected);
    push_all(&mut r, &expected_digits);
    let middle = (">\n  received: <exitcode ").as_bytes_vec();
    push_all(&mut r, &middle);
    let received_digits = decimal_i32(received);
    push_all(&mut r, &received_digits);
    let tail = (">\n").as_bytes_vec();
    push_all(&mut r, &tail);
    proof {
        assert(r@ =~= spec_exitcode_error(expected as int, received as int));
    }
    r
}

/// The message for an invocation whose step's matcher rejected it.
pub open spec fn spec_step_error(m: CommandMatcherView, received: CommandView) -> Seq<u8> {
    spec_format_error(spec_matcher_format(m), spec_received_display(m, received))
}

/// The message for an invocation received after the queue ran out.
pub open spec fn spec_protocol_end_error(received: CommandView) -> Seq<u8> {
    spec_format_error("<protocol end>".spec_bytes(), spec_format_command(received))
}

/// The message for a step still queued when the script exited.
pub open spec fn spec_terminated_error(m: CommandMatcherView) -> Seq<u8> {
    spec_format_error(spec_matcher_format(m), "<script terminated>".spec_bytes())
}

// ------------------------------------------------------------------
// Results
// ------------------------------------------------------------------

/// The mathematical model of a test result.
pub enum TestResultView {
    Pass,
    Failure(Seq<u8>),
}

/// The outcome of one test run: a pass, or the first mismatch found.
#[derive(Debug, PartialEq, Eq)]
pub enum TestResult {
    Pass,
    Failure(Vec<u8>),
}

impl View for TestResult {
    type V = TestResultView;

    open spec fn view(&self) -> TestResultView {
        match self {
            TestResult::Pass => TestResultView::Pass,
            TestResult::Failure(message) => TestResultView::Failure(message@),
        }
    }
}

impl TestResult {
    /// Whether this result is a pass.
    pub fn is_pass(&self) -> (r: bool)
        ensures
            r == (self@ is Pass),
    {
        match self {
            TestResult::Pass => true,
            TestResult::Failure(_) => false,
        }
    }
}

/// The results of all tests of a file, in declaration order.
#[derive(Debug, PartialEq, Eq)]
pub struct TestResults(pub Vec<TestResult>);

// ------------------------------------------------------------------
// The run, as a mathematical function
// ------------------------------------------------------------------

/// Records an error: the first mismatch wins, a result that is already a
/// failure never changes.
pub open spec fn spec_record(result: TestResultView, message: Seq<u8>) -> TestResultView {
    match result {
        TestResultView::Pass => TestResultView::Failure(message),
        TestResultView::Failure(_) => result,
    }
}

/// One intercepted invocation: the front of the queue is consumed and
/// checked; an invocation beyond the queue's end is an error unless the
/// test ends with a hole.
pub open spec fn spec_step_transition(
    result: TestResultView,
    steps: Seq<StepView>,
    received: CommandView,
    ends_with_hole: bool,
) -> (TestResultView, Seq<StepView>) {
    if steps.len() == 0 {
        if ends_with_hole {
            (result, steps)
        } else {
            (spec_record(result, spec_protocol_end_error(received)), steps)
        }
    } else {
        if spec_matcher_accepts(steps[0].command_matcher, received) {
            (result, steps.drop_first())
        } else {
            (spec_record(result, spec_step_error(steps[0].command_matcher, received)),
            steps.drop_first())
        }
    }
}

/// All intercepted invocations of a run, in order.
pub open spec fn spec_run_steps(
    result: TestResultView,
    steps: Seq<StepView>,
    received: Seq<CommandView>,
    ends_with_hole: bool,
) -> (TestResultView, Seq<StepView>)
    decreases received.len(),
{
    if received.len() == 0 {
        (result, steps)
    } else {
        let t = spec_step_transition(result, steps, received[0], ends_with_hole);
        spec_run_steps(t.0, t.1, received.drop_first(), ends_with_hole)
    }
}

/// The end-of-run check: a step still queued when the script exited is an
/// error unless the test ends with a hole, and so is a wrong script exit
/// code; the first error wins.
pub open spec fn spec_end(
    result: TestResultView,
    steps: Seq<StepView>,
    ends_with_hole: bool,
    expected_exitcode: int,
    exitcode: int,
) -> TestResultView {
    let after_steps = if steps.len() > 0 && !ends_with_hole {
        spec_record(result, spec_terminated_error(steps[0].command_matcher))
    } else {
        result
    };
    if exitcode != expected_exitcode {
        spec_record(after_steps, spec_exitcode_error(expected_exitcode, exitcode))
    } else {
        after_steps
    }
}

/// The result of one whole run: the invocations checked in order, then
/// the end-of-run check.
pub open spec fn spec_run_result(
    steps: Seq<StepView>,
    ends_with_hole: bool,
    expected_exitcode: int,
    received: Seq<CommandView>,
    exitcode: int,
) -> TestResultView {
    let (result, remaining) = spec_run_steps(
        TestResultView::Pass,
        steps,
        received,
        ends_with_hole,
    );
    spec_end(result, remaining, ends_with_hole, expected_exitcode, exitcode)
}

/// The exit code a test expects of the script itself: the declared one,
/// or zero when none is declared.
pub open spec fn spec_expected_exitcode(test: TestView) -> int {
    match test.exitcode {
        Some(e) => e,
        None => 0,
    }
}

// ------------------------------------------------------------------
// The engine
// ------------------------------------------------------------------

/// The engine state of one traced run: the steps still expected, and the
/// result so far.
pub struct SyscallMock {
    pub steps: Vec<Step>,
    pub ends_with_hole: bool,
    pub expected_exitcode: i32,
    pub result: TestResult,
}

impl SyscallMock {
    /// The engine for one run of the given test, with nothing received
    /// yet.
    pub fn new(test: Test) -> (r: SyscallMock)
        ensures
            r.steps.deep_view() == test@.steps,
            r.ends_with_hole == test@.ends_with_hole,
            r.expected_exitcode as int == spec_expected_exitcode(test@),
            r.result@ is Pass,
    {
        let expected_exitcode = match test.exitcode {
            Some(e) => e,
            None => 0,
        };
        SyscallMock {
            steps: test.steps,
            ends_with_hole: test.ends_with_hole,
            expected_exitcode,
            result: TestResult::Pass,
        }
    }

    /// Records an error; the first one wins, later ones are dropped.
    fn register_error(&mut self, error: Vec<u8>)
        ensures
            final(self).result@ == spec_record(old(self).result@, error@),
            final(self).steps == old(self).steps,
            final(self).ends_with_hole == old(self).ends_with_hole,
            final(self).expected_exitcode == old(self).expected_exitcode,
    {
        if self.result.is_pass() {
            self.result = TestResult::Failure(error);
        }
    }

    /// Handles one intercepted invocation: consumes the front of the
    /// queue and checks the received command against its matcher, or
    /// reports the invocation as beyond the protocol's end.  Returns the
    /// output and exit code the stand-in executed in the command's place
    /// should fake: those of the consumed step, or nothing and zero.
    pub fn handle_step(&mut self, received: &Command) -> (mock: (Vec<u8>, i32))
        ensures
            (final(self).result@, final(self).steps.deep_view()) == spec_step_transition(
                old(self).result@,
                old(self).steps.deep_view(),
                received@,
                old(self).ends_with_hole,
            ),
            final(self).ends_with_hole == old(self).ends_with_hole,
            final(self).expected_exitcode == old(self).expected_exitcode,
            mock.0@ == if old(self).steps.deep_view().len() > 0 {
                old(self).steps.deep_view()[0].stdout
            } else {
                Seq::<u8>::empty()
            },
            mock.1 as int == if old(self).steps.deep_view().len() > 0 {
                old(self).steps.deep_view()[0].exitcode
            } else {
                0
            },
    {
        if self.steps.len() > 0 {
            let step = self.steps.remove(0);
            proof {
                assert(self.steps.deep_view() =~~= old(self).steps.deep_view().drop_first());
            }
            if !step.command_matcher.matches(received) {
                let expected_display = step.command_matcher.format();
                let received_display = step.command_matcher.format_received(received);
                let error = format_error(&expected_display, &received_display);
                self.register_error(error);
            }
            (step.stdout, step.exitcode)
        } else {
            proof {
                assert(old(self).steps.deep_view().len() == 0);
            }
            if !self.ends_with_hole {
                let line = received.format();
                let sentinel = ("<protocol end>").as_bytes_vec();
                let error = format_error(&sentinel, &line);
                self.register_error(error);
            }
            (Vec::new(), 0)
        }
    }

    /// Handles the end of the run: a step still queued is an error unless
    /// the test ends with a hole, and so is a script exit code different
    /// from the expected one.  The step reported as missed is consumed;
    /// everything else stays as it was.
    pub fn handle_end(&mut self, exitcode: i32)
        ensures
            final(self).result@ == spec_end(
                old(self).result@,
                old(self).steps.deep_view(),
                old(self).ends_with_hole,
                old(self).expected_exitcode as int,
                exitcode as int,
            ),
            final(self).steps.deep_view() == if old(self).steps.deep_view().len() > 0 && !old(
                self,
            ).ends_with_hole {
                old(self).steps.deep_view().drop_first()
            } else {
                old(self).steps.deep_view()
            },
            final(self).ends_with_hole == old(self).ends_with_hole,
            final(self).expected_exitcode == old(self).expected_exitcode,
    {
        if self.steps.len() > 0 && !self.ends_with_hole {
            let step = self.steps.remove(0);
            proof {
                assert(self.steps.deep_view() =~~= old(self).steps.deep_view().drop_first());
            }
            let expected_display = step.command_matcher.format();
            let sentinel = ("<script terminated>").as_bytes_vec();
            let error = format_error(&expected_display, &sentinel);
            self.register_error(error);
        }
        if exitcode != self.expected_exitcode {
            let error = exitcode_error(self.expected_exitcode, exitcode);
            self.register_error(error);
        }
    }
}

// ------------------------------------------------------------------
// Whole runs
// ------------------------------------------------------------------

/// Runs a test against what one run of the script did: the commands it
/// tried to execute, in order, and the exit code it ended with.
pub fn run_against_test(test: Test, received: &Vec<Command>, exitcode: i32) -> (r: TestResult)
    ensures
        r@ == spec_run_result(
            test@.steps,
            test@.ends_with_hole,
            spec_expected_exitcode(test@),
            received.deep_view(),
            exitcode as int,
        ),
{
    let ghost steps0 = test@.steps;
    let ghost hole = test@.ends_with_hole;
    let ghost expected = spec_expected_exitcode(test@);
    let ghost all = received.deep_view();
    let mut mock = SyscallMock::new(test);
    let mut i: usize = 0;
    proof {
        assert(all.skip(0) =~= all);
    }
    while i < received.len()
        invariant
            i <= received.len(),
            all == received.deep_view(),
            mock.ends_with_hole == hole,
            mock.expected_exitcode as int == expected,
            spec_run_steps(TestResultView::Pass, steps0, all, hole) == spec_run_steps(
                mock.result@,
                mock.steps.deep_view(),
                all.skip(i as int),
                hole,
            ),
        decreases received.len() - i,
    {
        proof {
            assert(all.skip(i as int)[0] == all[i as int]);
            assert(all.skip(i as int).drop_first() =~= all.skip(i as int + 1));
            assert(all[i as int] == received@[i as int]@);
        }
        let _mock_behaviour = mock.handle_step(&received[i]);
        i = i + 1;
    }
    proof {
        assert(all.skip(i as int) =~= Seq::<CommandView>::empty());
    }
    mock.handle_end(exitcode);
    mock.result
}

/// The steps of a protocol, as steps whose matcher expects the exact
/// command.
pub open spec fn spec_protocol_steps(steps: Seq<crate::protocol::StepView>) -> Seq<StepView> {
    steps.map_values(
        |s: crate::protocol::StepView|
            StepView {
                command_matcher: CommandMatcherView::ExactMatch(s.command),
                stdout: s.stdout,
                exitcode: s.exitcode,
            },
    )
}

/// Runs a protocol against what one run of the script did.  Every step of
/// a protocol expects its command exactly; a protocol has no hole, and
/// declares the exit code expected of the script itself.
pub fn run_against_protocol(expected: Protocol, received: &Vec<Command>, exitcode: i32) -> (r:
    TestResult)
    ensures
        r@ == spec_run_result(
            spec_protocol_steps(expected@.steps),
            false,
            expected@.exitcode,
            received.deep_view(),
            exitcode as int,
        ),
{
    let ghost expected0 = expected@;
    let mut protocol_steps = expected.steps;
    let ghost proto_steps0 = protocol_steps.deep_view();
    let ghost target = spec_protocol_steps(proto_steps0);
    let mut steps: Vec<Step> = Vec::new();
    proof {
        assert(proto_steps0 == expected0.steps);
        assert(protocol_steps.deep_view() =~= proto_steps0.skip(0));
    }
    while protocol_steps.len() > 0
        invariant
            steps@.len() <= proto_steps0.len(),
            target == spec_protocol_steps(proto_steps0),
            protocol_steps.deep_view() == proto_steps0.skip(steps@.len() as int),
            steps.deep_view() == target.take(steps@.len() as int),
        decreases protocol_steps.len(),
    {
        let ghost j = steps@.len() as int;
        proof {
            assert(protocol_steps.deep_view().len() == protocol_steps@.len());
            assert(j < proto_steps0.len());
            assert(proto_steps0.skip(j)[0] == proto_steps0[j]);
            assert(proto_steps0.skip(j).drop_first() =~= proto_steps0.skip(j + 1));
        }
        let s = protocol_steps.remove(0);
        proof {
            assert(protocol_steps.deep_view() =~~= proto_steps0.skip(j).drop_first());
            assert(s@ == proto_steps0[j]);
        }
        let ghost steps_before = steps.deep_view();
        steps.push(
            Step {
                command_matcher: CommandMatcher::ExactMatch(s.command),
                stdout: s.stdout,
                exitcode: s.exitcode,
            },
        );
        proof {
            assert(steps.deep_view() =~~= steps_before.push(steps@[steps@.len() - 1]@));
            assert(steps@[steps@.len() - 1]@ == target[j]);
            assert(steps.deep_view() =~= target.take(j + 1));
        }
    }
    proof {
        assert(steps.deep_view() =~= target);
    }
    let mut test = Test::new(steps);
    test.exitcode = Some(expected.exitcode);
    run_against_test(test, received, exitcode)
}

/// What one run of the script did: the commands it tried to execute, in
/// order, and the exit code it ended with.
pub struct ScriptRun {
    pub received: Vec<Command>,
    pub exitcode: i32,
}

/// Runs each protocol of a file against the matching run of the script,
/// aggregating the results in declaration order.
pub fn run_against_protocols(expected: Vec<Protocol>, runs: &Vec<ScriptRun>) -> (r: TestResults)
    requires
        runs@.len() == expected@.len(),
    ensures
        r.0@.len() == expected@.len(),
        forall|k: int| 0 <= k < expected@.len() ==> (#[trigger] r.0@[k])@ == spec_run_result(
            spec_protocol_steps(expected.deep_view()[k].steps),
            false,
            expected.deep_view()[k].exitcode,
            runs@[k].received.deep_view(),
            runs@[k].exitcode as int,
        ),
{
    let ghost expected0 = expected.deep_view();
    let mut remaining = expected;
    let mut results: Vec<TestResult> = Vec::new();
    let mut i: usize = 0;
    proof {
        assert(remaining.deep_view() =~= expected0.skip(0));
    }
    while i < runs.len()
        invariant
            i <= runs.len(),
            runs@.len() == expected0.len(),
            remaining.deep_view() == expected0.skip(i as int),
            results@.len() == i,
            forall|k: int| 0 <= k < i ==> (#[trigger] results@[k])@ == spec_run_result(
                spec_protocol_steps(expected0[k].steps),
                false,
                expected0[k].exitcode,
                runs@[k].received.deep_view(),
                runs@[k].exitcode as int,
            ),
        decreases runs.len() - i,
    {
        proof {
            assert(expected0.skip(i as int)[0] == expected0[i as int]);
            assert(expected0.skip(i as int).drop_first() =~= expected0.skip(i as int + 1));
        }
        let protocol = remaining.remove(0);
        proof {
            assert(remaining.deep_view() =~~= expected0.skip(i as int).drop_first());
            assert(protocol@ == expected0[i as int]);
        }
        let result = run_against_protocol(protocol, &runs[i].received, runs[i].exitcode);
        results.push(result);
        i = i + 1;
    }
    TestResults(results)
}

/// Whether an executable is declared unmocked, so that it is not
/// substituted but runs for real.  Each declared entry matches as an
/// exactly-expected executable would.
pub fn is_unmocked_command(unmocked: &Vec<Vec<u8>>, executable: &Vec<u8>) -> (r: bool)
    ensures
        r == exists|k: int|
            0 <= k < unmocked.deep_view().len() && spec_executables_match(
                #[trigger] unmocked.deep_view()[k],
                executable@,
            ),
{
    let mut j: usize = 0;
    while j < unmocked.len()
        invariant
            j <= unmocked.len(),
            forall|k: int| 0 <= k < j ==> !spec_executables_match(
                #[trigger] unmocked.deep_view()[k],
                executable@,
            ),
        decreases unmocked.len() - j,
    {
        if executables_match(&unmocked[j], executable) {
            proof {
                assert(unmocked.deep_view()[j as int] == unmocked@[j as int]@);
            }
            return true;
        }
        proof {
            assert(unmocked.deep_view()[j as int] == unmocked@[j as int]@);
        }
        j = j + 1;
    }
    false
}

// ------------------------------------------------------------------
// The script's own output
// ------------------------------------------------------------------

/// One byte as it appears inside a quoted byte string: quotes,
/// backslashes and the common control characters are escaped, every other
/// byte stands for itself.
pub open spec fn spec_escape_byte(c: u8) -> Seq<u8> {
    if c == 34 {
        seq![92u8, 34u8]
    } else if c == 92 {
        seq![92u8, 92u8]
    } else if c == 10 {
        seq![92u8, 110u8]
    } else if c == 9 {
        seq![92u8, 116u8]
    } else if c == 13 {
        seq![92u8, 114u8]
    } else {
        seq![c]
    }
}

/// A byte string with its quotes, backslashes and common control
/// characters escaped.
pub open spec fn spec_escape(s: Seq<u8>) -> Seq<u8>
    decreases s.len(),
{
    if s.len() == 0 {
        Seq::empty()
    } else {
        spec_escape_byte(s[0]) + spec_escape(s.drop_first())
    }
}

/// A byte string as shown in output mismatch messages: escaped, in double
/// quotes.
pub open spec fn spec_quoted_output(s: Seq<u8>) -> Seq<u8> {
    seq![34u8] + spec_escape(s) + seq![34u8]
}

/// Appends the escaped, quoted form of a byte string.
fn push_quoted_output(out: &mut Vec<u8>, s: &Vec<u8>)
    ensures
        final(out)@ == old(out)@ + spec_quoted_output(s@),
{
    out.push(34);
    let ghost opened = out@;
    let mut j: usize = 0;
    proof {
        assert(s@.skip(0) =~= s@);
        assert(out@ + Seq::<u8>::empty() =~= out@);
    }
    while j < s.len()
        invariant
            j <= s.len(),
            out@ + spec_escape(s@.skip(j as int)) == opened + spec_escape(s@),
        decreases s.len() - j,
    {
        let c = s[j];
        proof {
            assert(s@.skip(j as int)[0] == s@[j as int]);
            assert(s@.skip(j as int).drop_first() =~= s@.skip(j as int + 1));
        }
        let ghost out0 = out@;
        if c == 34 {
            out.push(92);
            out.push(34);
        } else if c == 92 {
            out.push(92);
            out.push(92);
        } else if c == 10 {
            out.push(92);
            out.push(110);
        } else if c == 9 {
            out.push(92);
            out.push(116);
        } else if c == 13 {
            out.push(92);
            out.push(114);
        } else {
            out.push(c);
        }
        j = j + 1;
        proof {
            assert(out@ =~= out0 + spec_escape_byte(s@[j - 1]));
            assert(out0 + (spec_escape_byte(s@[j - 1]) + spec_escape(s@.skip(j as int))) =~= out@
                + spec_escape(s@.skip(j as int)));
        }
    }
    proof {
        assert(s@.skip(s@.len() as int) =~= Seq::<u8>::empty());
        assert(out@ + Seq::<u8>::empty() =~= out@);
    }
    out.push(34);
    proof {
        assert(out@ =~= old(out)@ + spec_quoted_output(s@));
    }
}

/// The message reported when the script's overall output on one stream is
/// not the declared one.
pub open spec fn spec_output_error(stream: Seq<u8>, expected: Seq<u8>, received: Seq<u8>) -> Seq<
    u8,
> {
    "  expected output to ".spec_bytes() + stream + ": ".spec_bytes() + spec_quoted_output(
        expected,
    ) + "\n  received output to ".spec_bytes() + stream + ": ".spec_bytes() + spec_quoted_output(
        received,
    ) + "\n".spec_bytes()
}

/// Formats the message for a wrong overall output on one stream.
pub fn output_error(stream: &Vec<u8>, expected: &Vec<u8>, received: &Vec<u8>) -> (r: Vec<u8>)
    ensures
        r@ == spec_output_error(stream@, expected@, received@),
{
    let mut r: Vec<u8> = Vec::new();
    let head = ("  expected output to ").as_bytes_vec();
    push_all(&mut r, &head);
    push_all(&mut r, stream);
    let colon = (": ").as_bytes_vec();
    push_all(&mut r, &colon);
    push_quoted_output(&mut r, expected);
    let middle = ("\n  received output to ").as_bytes_vec();
    push_all(&mut r, &middle);
    push_all(&mut r, stream);
    push_all(&mut r, &colon);
    push_quoted_output(&mut r, received);
    let tail = ("\n").as_bytes_vec();
    push_all(&mut r, &tail);
    proof {
        assert(r@ =~= spec_output_error(stream@, expected@, received@));
    }
    r
}

impl SyscallMock {
    /// Checks the script's captured output on one stream against the
    /// declared expectation, if the test declares one; a mismatch is
    /// recorded like any other error, first one wins.
    pub fn check_stream(&mut self, stream: &Vec<u8>, expected: &Option<Vec<u8>>, received: &Vec<
        u8,
    >)
        ensures
            final(self).result@ == (match *expected {
                Some(ref e) => if e@ == received@ {
                    old(self).result@
                } else {
                    spec_record(
                        old(self).result@,
                        spec_output_error(stream@, e@, received@),
                    )
                },
                None => old(self).result@,
            }),
            final(self).steps == old(self).steps,
            final(self).ends_with_hole == old(self).ends_with_hole,
            final(self).expected_exitcode == old(self).expected_exitcode,
    {
        match expected {
            Some(e) => {
                if !crate::command::bytes_eq(e, received) {
                    let error = output_error(stream, e, received);
                    self.register_error(error);
                }
            },
            None => {},
        }
    }
}

// ------------------------------------------------------------------
// Interception decisions
// ------------------------------------------------------------------

/// Which side of a syscall a stop reports: its entry or its exit.
#[derive(Debug, PartialEq, Eq, Clone, Copy)]
pub enum SyscallStop {
    Enter,
    Exit,
}

/// A traced syscall, as far as the engine cares: a process-creation
/// syscall, or anything else.
#[derive(Debug, PartialEq, Eq, Clone, Copy)]
pub enum Syscall {
    Execve,
    Other,
}

/// Whether a syscall stop is the point where the invoked executable is
/// checked and replaced by a stand-in: the entry of a process-creation
/// syscall made by any process but the root tracee itself — the root
/// tracee's own exec is the script under test, not a command it invokes.
pub fn should_replace_executable(
    tracee_pid: i32,
    pid: i32,
    syscall: Syscall,
    syscall_stop: SyscallStop,
) -> (r: bool)
    ensures
        r == (syscall is Execve && syscall_stop is Enter && tracee_pid != pid),
{
    match (syscall, syscall_stop) {
        (Syscall::Execve, SyscallStop::Enter) => tracee_pid != pid,
        _ => false,
    }
}

// ------------------------------------------------------------------
// Laws
// ------------------------------------------------------------------

/// The first error wins: once a run's result is a failure, no later
/// invocation and no end-of-run check changes it.
pub proof fn law_first_error_wins(
    message: Seq<u8>,
    steps: Seq<StepView>,
    received: Seq<CommandView>,
    ends_with_hole: bool,
    expected_exitcode: int,
    exitcode: int,
)
    ensures
        spec_end(
            spec_run_steps(TestResultView::Failure(message), steps, received, ends_with_hole).0,
            spec_run_steps(TestResultView::Failure(message), steps, received, ends_with_hole).1,
            ends_with_hole,
            expected_exitcode,
            exitcode,
        ) == TestResultView::Failure(message),
    decreases received.len(),
{
    if received.len() > 0 {
        let t = spec_step_transition(
            TestResultView::Failure(message),
            steps,
            received[0],
            ends_with_hole,
        );
        assert(t.0 == TestResultView::Failure(message));
        law_first_error_wins(
            message,
            t.1,
            received.drop_first(),
            ends_with_hole,
            expected_exitcode,
            exitcode,
        );
    }
}

/// The queue is strictly FIFO: each invocation consumes exactly the
/// front of the queue, whatever the comparison found, and a step once
/// popped is never revisited — after any sequence of invocations, what
/// remains of the queue is a suffix of it.
pub proof fn law_queue_is_consumed_in_order(
    result: TestResultView,
    steps: Seq<StepView>,
    received: Seq<CommandView>,
    ends_with_hole: bool,
)
    ensures
        spec_run_steps(result, steps, received, ends_with_hole).1 == steps.skip(
            if received.len() < steps.len() {
                received.len() as int
            } else {
                steps.len() as int
            },
        ),
    decreases received.len(),
{
    if received.len() == 0 {
        assert(steps.skip(0) =~= steps);
    } else {
        let t = spec_step_transition(result, steps, received[0], ends_with_hole);
        law_queue_is_consumed_in_order(t.0, t.1, received.drop_first(), ends_with_hole);
        if steps.len() == 0 {
            assert(steps.skip(0) =~= steps);
        } else {
            let consumed_later = if received.drop_first().len() < steps.drop_first().len() {
                received.drop_first().len() as int
            } else {
                steps.drop_first().len() as int
            };
            assert(steps.drop_first().skip(consumed_later) =~= steps.skip(consumed_later + 1));
        }
    }
}

/// A run whose invocations all match and are all consumed ends with an
/// empty queue and no error recorded.
proof fn lemma_all_matching_consumed(
    steps: Seq<StepView>,
    received: Seq<CommandView>,
    ends_with_hole: bool,
)
    requires
        received.len() >= steps.len(),
        ends_with_hole || received.len() == steps.len(),
        forall|k: int| 0 <= k < steps.len() ==> spec_matcher_accepts(
            #[trigger] steps[k].command_matcher,
            received[k],
        ),
    ensures
        spec_run_steps(TestResultView::Pass, steps, received, ends_with_hole).0
            is Pass,
        spec_run_steps(TestResultView::Pass, steps, received, ends_with_hole).1.len() == 0,
    decreases received.len(),
{
    if received.len() == 0 {
        assert(steps.len() == 0);
    } else if steps.len() == 0 {
        assert(ends_with_hole);
        lemma_all_matching_consumed(steps, received.drop_first(), ends_with_hole);
    } else {
        assert(spec_matcher_accepts(steps[0].command_matcher, received[0]));
        assert forall|k: int| 0 <= k < steps.drop_first().len() implies spec_matcher_accepts(
            #[trigger] steps.drop_first()[k].command_matcher,
            received.drop_first()[k],
        ) by {
            assert(steps.drop_first()[k] == steps[k + 1]);
            assert(received.drop_first()[k] == received[k + 1]);
        }
        lemma_all_matching_consumed(steps.drop_first(), received.drop_first(), ends_with_hole);
    }
}

/// A run passes when its matchers accept the received invocations one by
/// one, in order and in equal number, and the script exits as expected.
pub proof fn law_matching_run_passes(
    steps: Seq<StepView>,
    received: Seq<CommandView>,
    ends_with_hole: bool,
    exitcode: int,
)
    requires
        received.len() == steps.len(),
        forall|k: int| 0 <= k < steps.len() ==> spec_matcher_accepts(
            #[trigger] steps[k].command_matcher,
            received[k],
        ),
    ensures
        spec_run_result(steps, ends_with_hole, exitcode, received, exitcode)
            is Pass,
{
    lemma_all_matching_consumed(steps, received, ends_with_hole);
}

/// The first mismatch decides the run: when every step before some step
/// accepts its invocation and that step rejects its own, the run fails
/// with exactly that step's mismatch message, whatever follows.
pub proof fn law_first_mismatch_is_reported(
    steps: Seq<StepView>,
    received: Seq<CommandView>,
    ends_with_hole: bool,
    expected_exitcode: int,
    exitcode: int,
    k: int,
)
    requires
        0 <= k < steps.len(),
        k < received.len(),
        forall|j: int| 0 <= j < k ==> spec_matcher_accepts(
            #[trigger] steps[j].command_matcher,
            received[j],
        ),
        !spec_matcher_accepts(steps[k].command_matcher, received[k]),
    ensures
        spec_run_result(steps, ends_with_hole, expected_exitcode, received, exitcode)
            == TestResultView::Failure(spec_step_error(steps[k].command_matcher, received[k])),
    decreases k,
{
    if k == 0 {
        let message = spec_step_error(steps[0].command_matcher, received[0]);
        assert(spec_run_steps(TestResultView::Pass, steps, received, ends_with_hole)
            == spec_run_steps(
            TestResultView::Failure(message),
            steps.drop_first(),
            received.drop_first(),
            ends_with_hole,
        ));
        law_first_error_wins(
            message,
            steps.drop_first(),
            received.drop_first(),
            ends_with_hole,
            expected_exitcode,
            exitcode,
        );
    } else {
        assert(spec_matcher_accepts(steps[0].command_matcher, received[0]));
        assert forall|j: int| 0 <= j < k - 1 implies spec_matcher_accepts(
            #[trigger] steps.drop_first()[j].command_matcher,
            received.drop_first()[j],
        ) by {
            assert(steps.drop_first()[j] == steps[j + 1]);
            assert(received.drop_first()[j] == received[j + 1]);
        }
        assert(steps.drop_first()[k - 1] == steps[k]);
        assert(received.drop_first()[k - 1] == received[k]);
        law_first_mismatch_is_reported(
            steps.drop_first(),
            received.drop_first(),
            ends_with_hole,
            expected_exitcode,
            exitcode,
            k - 1,
        );
    }
}

/// A matching prefix of the queue is consumed one-for-one: when fewer
/// invocations arrive than steps are queued and each matches its step,
/// no error is recorded and exactly the unmatched suffix remains.
proof fn lemma_matching_prefix_consumed(
    steps: Seq<StepView>,
    received: Seq<CommandView>,
    ends_with_hole: bool,
)
    requires
        received.len() <= steps.len(),
        forall|k: int| 0 <= k < received.len() ==> spec_matcher_accepts(
            #[trigger] steps[k].command_matcher,
            received[k],
        ),
    ensures
        spec_run_steps(TestResultView::Pass, steps, received, ends_with_hole) == (
            TestResultView::Pass,
            steps.skip(received.len() as int),
        ),
    decreases received.len(),
{
    if received.len() == 0 {
        assert(steps.skip(0) =~= steps);
    } else {
        assert(spec_matcher_accepts(steps[0].command_matcher, received[0]));
        assert forall|k: int| 0 <= k < received.drop_first().len() implies spec_matcher_accepts(
            #[trigger] steps.drop_first()[k].command_matcher,
            received.drop_first()[k],
        ) by {
            assert(steps.drop_first()[k] == steps[k + 1]);
            assert(received.drop_first()[k] == received[k + 1]);
        }
        lemma_matching_prefix_consumed(steps.drop_first(), received.drop_first(), ends_with_hole);
        assert(steps.drop_first().skip(received.len() - 1) =~= steps.skip(
            received.len() as int,
        ));
    }
}

/// A trailing hole also forgives steps that were never reached: when the
/// invocations that did arrive match the front of the queue one by one
/// and the script exits as expected, the run passes even though steps
/// remain queued.
pub proof fn law_trailing_hole_forgives_leftover_steps(
    steps: Seq<StepView>,
    received: Seq<CommandView>,
    exitcode: int,
)
    requires
        received.len() <= steps.len(),
        forall|k: int| 0 <= k < received.len() ==> spec_matcher_accepts(
            #[trigger] steps[k].command_matcher,
            received[k],
        ),
    ensures
        spec_run_result(steps, true, exitcode, received, exitcode) is Pass,
{
    lemma_matching_prefix_consumed(steps, received, true);
}

/// A trailing hole accepts any further invocations: when the explicit
/// steps all match, extra invocations beyond them neither fail the run
/// nor consume anything, and no protocol-end error is reported.
pub proof fn law_trailing_hole_accepts_extras(
    steps: Seq<StepView>,
    received: Seq<CommandView>,
    exitcode: int,
)
    requires
        received.len() >= steps.len(),
        forall|k: int| 0 <= k < steps.len() ==> spec_matcher_accepts(
            #[trigger] steps[k].command_matcher,
            received[k],
        ),
    ensures
        spec_run_result(steps, true, exitcode, received, exitcode) is Pass,
{
    lemma_all_matching_consumed(steps, received, true);
}

} // verus!
