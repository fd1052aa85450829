//! Test specifications: expected invocations with exact or regex
//! matchers, and trailing holes.
//!
//! A test declares the invocations a script is expected to make, each
//! checked by a matcher, and may end with a hole (`_`): a trailing hole
//! accepts any further invocations unchecked.  The file a test is loaded
//! from sits next to the script it describes.

use vstd::prelude::*;
use vstd::string::*;
use crate::command::Command;
use crate::command::push_all;
use crate::command::spec_tokenize;
use crate::command_matcher::CommandMatcher;
use crate::command_matcher::CommandMatcherView;
use crate::Error;
use crate::R;

verus! {

/// The mathematical model of one expected invocation.
pub struct StepView {
    pub command_matcher: CommandMatcherView,
    pub stdout: Seq<u8>,
    pub exitcode: int,
}

/// One expected invocation: how the received command is checked, and the
/// output and exit code that the stand-in executed in its place fakes.
#[derive(Debug)]
pub struct Step {
    pub command_matcher: CommandMatcher,
    pub stdout: Vec<u8>,
    pub exitcode: i32,
}

impl View for Step {
    type V = StepView;

    open spec fn view(&self) -> StepView {
        StepView {
            command_matcher: self.command_matcher@,
            stdout: self.stdout@,
            exitcode: self.exitcode as int,
        }
    }
}

impl DeepView for Step {
    type V = StepView;

    open spec fn deep_view(&self) -> StepView {
        self.view()
    }
}

impl Step {
    /// A step with the given matcher, no faked output and exit code zero.
    pub fn new(command_matcher: CommandMatcher) -> (r: Step)
        ensures
            r@.command_matcher == command_matcher@,
            r@.stdout == Seq::<u8>::empty(),
            r@.exitcode == 0,
    {
        Step { command_matcher, stdout: Vec::new(), exitcode: 0 }
    }

    /// Parses a step from a single shell-like command string: an exact
    /// matcher for that command, with no faked output and exit code zero.
    pub fn from_string(string: &str) -> (r: R<Step>)
        ensures
            match spec_tokenize(string.spec_bytes()) {
                None => r matches Err(e) && e@ == "unmatched quotes".spec_bytes(),
                Some(tokens) => {
                    if tokens.len() == 0 {
                        r matches Err(e) && e@ == "a command must not be empty".spec_bytes()
                    } else {
                        &&& r matches Ok(step)
                            && step@.command_matcher matches CommandMatcherView::ExactMatch(c)
                            && c.executable == tokens[0]
                            && c.arguments == tokens.drop_first()
                        &&& r matches Ok(step) && step@.stdout == Seq::<u8>::empty()
                            && step@.exitcode == 0
                    }
                },
            },
    {
        let command = Command::new(string)?;
        Ok(Step::new(CommandMatcher::ExactMatch(command)))
    }
}

/// The mathematical model of a test.
pub struct TestView {
    pub steps: Seq<StepView>,
    pub ends_with_hole: bool,
    pub arguments: Seq<Seq<u8>>,
    pub env: Seq<(Seq<u8>, Seq<u8>)>,
    pub cwd: Option<Seq<u8>>,
    pub stdout: Option<Seq<u8>>,
    pub stderr: Option<Seq<u8>>,
    pub exitcode: Option<int>,
    pub mocked_files: Seq<Seq<u8>>,
}

/// One test: the expected invocations in order, whether a trailing hole
/// accepts further invocations, how the script is started, what overall
/// output and exit code the script itself is expected to produce, and
/// paths that should appear to exist while it runs.
#[derive(Debug)]
pub struct Test {
    pub steps: Vec<Step>,
    pub ends_with_hole: bool,
    pub arguments: Vec<Vec<u8>>,
    pub env: Vec<(Vec<u8>, Vec<u8>)>,
    pub cwd: Option<Vec<u8>>,
    pub stdout: Option<Vec<u8>>,
    pub stderr: Option<Vec<u8>>,
    pub exitcode: Option<i32>,
    pub mocked_files: Vec<Vec<u8>>,
}

impl View for Test {
    type V = TestView;

    open spec fn view(&self) -> TestView {
        TestView {
            steps: self.steps.deep_view(),
            ends_with_hole: self.ends_with_hole,
            arguments: self.arguments.deep_view(),
            env: Seq::new(self.env@.len(), |i: int| (self.env@[i].0@, self.env@[i].1@)),
            cwd: match self.cwd {
                Some(ref c) => Some(c@),
                None => None,
            },
            stdout: match self.stdout {
                Some(ref s) => Some(s@),
                None => None,
            },
            stderr: match self.stderr {
                Some(ref s) => Some(s@),
                None => None,
            },
            exitcode: match self.exitcode {
                Some(e) => Some(e as int),
                None => None,
            },
            mocked_files: self.mocked_files.deep_view(),
        }
    }
}

impl Test {
    /// A test expecting the given invocations, with every other field at
    /// its default: no hole, no arguments, no environment, no overrides
    /// and no expectations on the script's own output or exit code.
    pub fn new(steps: Vec<Step>) -> (r: Test)
        ensures
            r@.steps == steps.deep_view(),
            r@.ends_with_hole == false,
            r@.arguments == Seq::<Seq<u8>>::empty(),
            r@.env == Seq::<(Seq<u8>, Seq<u8>)>::empty(),
            r@.cwd is None,
            r@.stdout is None,
            r@.stderr is None,
            r@.exitcode is None,
            r@.mocked_files == Seq::<Seq<u8>>::empty(),
    {
        let r = Test {
            steps,
            ends_with_hole: false,
            arguments: Vec::new(),
            env: Vec::new(),
            cwd: None,
            stdout: None,
            stderr: None,
            exitcode: None,
            mocked_files: Vec::new(),
        };
        proof {
            assert(r@.arguments =~= Seq::<Seq<u8>>::empty());
            assert(r@.env =~= Seq::<(Seq<u8>, Seq<u8>)>::empty());
            assert(r@.mocked_files =~= Seq::<Seq<u8>>::empty());
        }
        r
    }

    /// A test expecting no invocations at all.
    pub fn empty() -> (r: Test)
        ensures
            r@.steps == Seq::<StepView>::empty(),
            r@.ends_with_hole == false,
            r@.arguments == Seq::<Seq<u8>>::empty(),
            r@.env == Seq::<(Seq<u8>, Seq<u8>)>::empty(),
            r@.cwd is None,
            r@.stdout is None,
            r@.stderr is None,
            r@.exitcode is None,
            r@.mocked_files == Seq::<Seq<u8>>::empty(),
    {
        let r = Test::new(Vec::new());
        proof {
            assert(r@.steps =~= Seq::<StepView>::empty());
        }
        r
    }
}

/// The mathematical model of one declared entry of a step list.
pub enum StepOrHoleView {
    Step(StepView),
    Hole,
}

/// One declared entry of a test's step list: an expected invocation, or
/// the hole (`_`) that accepts any further invocations.
#[derive(Debug)]
pub enum StepOrHole {
    Step(Step),
    Hole,
}

impl View for StepOrHole {
    type V = StepOrHoleView;

    open spec fn view(&self) -> StepOrHoleView {
        match self {
            StepOrHole::Step(step) => StepOrHoleView::Step(step@),
            StepOrHole::Hole => StepOrHoleView::Hole,
        }
    }
}

impl DeepView for StepOrHole {
    type V = StepOrHoleView;

    open spec fn deep_view(&self) -> StepOrHoleView {
        self.view()
    }
}

/// Whether a declared step list ends with a hole.
pub open spec fn spec_ends_with_hole(items: Seq<StepOrHoleView>) -> bool {
    items.len() > 0 && items.last() is Hole
}

/// The explicit steps of a declared step list: all of it, except a
/// trailing hole.
pub open spec fn spec_explicit_steps(items: Seq<StepOrHoleView>) -> Seq<StepOrHoleView> {
    if spec_ends_with_hole(items) {
        items.drop_last()
    } else {
        items
    }
}

/// Whether a declared step list is well-placed: a hole may only be its
/// last entry.
pub open spec fn spec_holes_only_last(items: Seq<StepOrHoleView>) -> bool {
    forall|i: int|
        0 <= i < items.len() && (#[trigger] items[i]) is Hole ==> i == items.len() - 1
}

impl Test {
    /// Builds a test from a declared step list.  A hole is accepted only
    /// as the last entry and makes the test end with a hole; everywhere
    /// else it is rejected as a parse error.
    #[verifier::loop_isolation(false)]
    pub fn from_array(items: Vec<StepOrHole>) -> (r: R<Test>)
        ensures
            ({
                let declared = items.deep_view();
                match r {
                    Ok(test) => {
                        &&& spec_holes_only_last(declared)
                        &&& test@.ends_with_hole == spec_ends_with_hole(declared)
                        &&& test@.steps.len() == spec_explicit_steps(declared).len()
                        &&& forall|i: int|
                            0 <= i < test@.steps.len() ==> spec_explicit_steps(declared)[i]
                                == StepOrHoleView::Step(#[trigger] test@.steps[i])
                        &&& test@.arguments == Seq::<Seq<u8>>::empty()
                        &&& test@.env == Seq::<(Seq<u8>, Seq<u8>)>::empty()
                        &&& test@.cwd is None
                        &&& test@.stdout is None
                        &&& test@.stderr is None
                        &&& test@.exitcode is None
                        &&& test@.mocked_files == Seq::<Seq<u8>>::empty()
                    },
                    Err(e) => {
                        &&& !spec_holes_only_last(declared)
                        &&& e@ == "holes ('_') are only allowed as the last step".spec_bytes()
                    },
                }
            }),
    {
        let ghost declared = items.deep_view();
        let total = items.len();
        let mut remaining = items;
        let mut test = Test::empty();
        let mut index: usize = 0;
        proof {
            assert(remaining.deep_view() =~= declared.skip(0));
        }
        while index < total
            invariant
                index <= total,
                total == declared.len(),
                remaining.deep_view() == declared.skip(index as int),
                remaining@.len() == total - index,
                test@.ends_with_hole == false,
                test@.steps.len() == index,
                forall|i: int|
                    0 <= i < index ==> declared[i] == StepOrHoleView::Step(
                        #[trigger] test@.steps[i],
                    ),
                test@.arguments == Seq::<Seq<u8>>::empty(),
                test@.env == Seq::<(Seq<u8>, Seq<u8>)>::empty(),
                test@.cwd is None,
                test@.stdout is None,
                test@.stderr is None,
                test@.exitcode is None,
                test@.mocked_files == Seq::<Seq<u8>>::empty(),
            decreases total - index,
        {
            proof {
                assert(declared.skip(index as int)[0] == declared[index as int]);
                assert(declared.skip(index as int).drop_first() =~= declared.skip(
                    index as int + 1,
                ));
            }
            let item = remaining.remove(0);
            proof {
                assert(remaining.deep_view() =~~= declared.skip(index as int).drop_first());
                assert(item@ == declared[index as int]);
            }
            match item {
                StepOrHole::Step(step) => {
                    let ghost steps0 = test.steps.deep_view();
                    test.steps.push(step);
                    proof {
                        assert(test.steps.deep_view() =~~= steps0.push(
                            test.steps@[test.steps@.len() - 1]@,
                        ));
                    }
                },
                StepOrHole::Hole => {
                    if index + 1 < total {
                        proof {
                            assert(declared[index as int] is Hole);
                            assert(index as int != declared.len() - 1);
                            assert(!spec_holes_only_last(declared));
                        }
                        return Err(
                            Error::new(
                                ("holes ('_') are only allowed as the last step").as_bytes_vec(),
                            ),
                        );
                    }
                    test.ends_with_hole = true;
                    proof {
                        assert(index == total - 1);
                        assert(declared.last() is Hole);
                        assert(spec_ends_with_hole(declared));
                        assert(spec_explicit_steps(declared) =~= declared.drop_last());
                        assert(spec_explicit_steps(declared).len() == test@.steps.len());
                        assert forall|i: int|
                            0 <= i < test@.steps.len() implies #[trigger] spec_explicit_steps(
                            declared,
                        )[i] == StepOrHoleView::Step(test@.steps[i]) by {
                            assert(spec_explicit_steps(declared)[i] == declared[i]);
                        }
                        assert forall|i: int|
                            0 <= i < declared.len() && (#[trigger] declared[i]) is Hole
                            implies i == declared.len() - 1 by {
                            if i < declared.len() - 1 {
                                assert(declared[i] == StepOrHoleView::Step(test@.steps[i]));
                            }
                        }
                        assert(spec_holes_only_last(declared));
                    }
                    return Ok(test);
                },
            }
            index = index + 1;
        }
        proof {
            if declared.len() > 0 {
                assert(declared.last() == StepOrHoleView::Step(
                    test@.steps[declared.len() - 1],
                ));
            }
            assert(!spec_ends_with_hole(declared));
            assert(spec_explicit_steps(declared) =~= declared);
            assert forall|i: int|
                0 <= i < test@.steps.len() implies #[trigger] spec_explicit_steps(declared)[i]
                == StepOrHoleView::Step(test@.steps[i]) by {
                assert(spec_explicit_steps(declared)[i] == declared[i]);
            }
            assert forall|i: int|
                0 <= i < declared.len() && (#[trigger] declared[i]) is Hole implies i
                == declared.len() - 1 by {
                assert(declared[i] == StepOrHoleView::Step(test@.steps[i]));
            }
            assert(spec_holes_only_last(declared));
        }
        Ok(test)
    }
}

/// A whole test file: the tests in declaration order, the executables
/// that are not substituted but run for real, and an optional interpreter
/// override for the script.
pub struct Tests {
    pub tests: Vec<Test>,
    pub unmocked_commands: Vec<Vec<u8>>,
    pub interpreter: Option<Vec<u8>>,
}

impl Tests {
    /// A test file holding the given tests, with no unmocked commands and
    /// no interpreter override.
    pub fn new(tests: Vec<Test>) -> (r: Tests)
        ensures
            r.tests@ == tests@,
            r.unmocked_commands@ == Seq::<Vec<u8>>::empty(),
            r.interpreter is None,
    {
        let r = Tests { tests, unmocked_commands: Vec::new(), interpreter: None };
        proof {
            assert(r.unmocked_commands@ =~= Seq::<Vec<u8>>::empty());
        }
        r
    }
}

/// The path of the test file belonging to a script: the script's path
/// with `.test.yaml` appended.
pub fn find_test_file(executable: &Vec<u8>) -> (r: Vec<u8>)
    ensures
        r@ == executable@ + ".test.yaml".spec_bytes(),
{
    let mut r: Vec<u8> = Vec::new();
    push_all(&mut r, executable);
    let suffix = (".test.yaml").as_bytes_vec();
    push_all(&mut r, &suffix);
    proof {
        assert(r@ =~= executable@ + ".test.yaml".spec_bytes());
    }
    r
}

} // verus!
