//! Protocols: ordered lists of exactly-expected invocations.
//!
//! A protocol declares, step by step, which commands a script is expected
//! to execute, together with the output and exit code its stand-in should
//! fake, and what the script as a whole is expected to do.  The file a
//! protocol is loaded from sits next to the script it describes.

use vstd::prelude::*;
use vstd::string::*;
use crate::command::Command;
use crate::command::CommandView;
use crate::command::push_all;
use crate::command::spec_tokenize;
use crate::R;

verus! {

/// The mathematical model of one expected invocation.
pub struct StepView {
    pub command: CommandView,
    pub stdout: Seq<u8>,
    pub exitcode: int,
}

/// One expected invocation: the exact command expected, and the output
/// and exit code that the stand-in executed in its place fakes.
#[derive(Debug, PartialEq, Eq)]
pub struct Step {
    pub command: Command,
    pub stdout: Vec<u8>,
    pub exitcode: i32,
}

impl View for Step {
    type V = StepView;

    open spec fn view(&self) -> StepView {
        StepView { command: self.command@, stdout: self.stdout@, exitcode: self.exitcode as int }
    }
}

impl DeepView for Step {
    type V = StepView;

    open spec fn deep_view(&self) -> StepView {
        self.view()
    }
}

impl Step {
    /// Parses a step from a single shell-like command string, with no
    /// faked output and exit code zero.
    pub fn from_string(string: &str) -> (r: R<Step>)
        ensures
            match spec_tokenize(string.spec_bytes()) {
                None => r matches Err(e) && e@ == "unmatched quotes".spec_bytes(),
                Some(tokens) => {
                    if tokens.len() == 0 {
                        r matches Err(e) && e@ == "a command must not be empty".spec_bytes()
                    } else {
                        &&& r matches Ok(step)
                            && step@.command.executable == tokens[0]
                            && step@.command.arguments == tokens.drop_first()
                            && step@.stdout == Seq::<u8>::empty()
                            && step@.exitcode == 0
                    }
                },
            },
    {
        let command = Command::new(string)?;
        Ok(Step { command, stdout: Vec::new(), exitcode: 0 })
    }
}

/// The mathematical model of a protocol.
pub struct ProtocolView {
    pub steps: Seq<StepView>,
    pub arguments: Seq<Seq<u8>>,
    pub env: Seq<(Seq<u8>, Seq<u8>)>,
    pub cwd: Option<Seq<u8>>,
    pub exitcode: int,
    pub mocked_files: Seq<Seq<u8>>,
}

/// One protocol: the expected invocations in order, how the script is
/// started (arguments, environment, working directory), the exit code the
/// script itself is expected to end with, and paths that should appear to
/// exist while it runs.
#[derive(Debug, PartialEq, Eq)]
pub struct Protocol {
    pub steps: Vec<Step>,
    pub arguments: Vec<Vec<u8>>,
    pub env: Vec<(Vec<u8>, Vec<u8>)>,
    pub cwd: Option<Vec<u8>>,
    pub exitcode: i32,
    pub mocked_files: Vec<Vec<u8>>,
}

impl View for Protocol {
    type V = ProtocolView;

    open spec fn view(&self) -> ProtocolView {
        ProtocolView {
            steps: self.steps.deep_view(),
            arguments: self.arguments.deep_view(),
            env: Seq::new(self.env@.len(), |i: int| (self.env@[i].0@, self.env@[i].1@)),
            cwd: match self.cwd {
                Some(ref c) => Some(c@),
                None => None,
            },
            exitcode: self.exitcode as int,
            mocked_files: self.mocked_files.deep_view(),
        }
    }
}

impl DeepView for Protocol {
    type V = ProtocolView;

    open spec fn deep_view(&self) -> ProtocolView {
        self.view()
    }
}

impl Protocol {
    /// A protocol expecting the given invocations, with every other field
    /// at its default: no arguments, no environment, no working-directory
    /// override, expected exit code zero, no mocked files.
    pub fn new(steps: Vec<Step>) -> (r: Protocol)
        ensures
            r@.steps == steps.deep_view(),
            r@.arguments == Seq::<Seq<u8>>::empty(),
            r@.env == Seq::<(Seq<u8>, Seq<u8>)>::empty(),
            r@.cwd is None,
            r@.exitcode == 0,
            r@.mocked_files == Seq::<Seq<u8>>::empty(),
    {
        let r = Protocol {
            steps,
            arguments: Vec::new(),
            env: Vec::new(),
            cwd: None,
            exitcode: 0,
            mocked_files: Vec::new(),
        };
        proof {
            assert(r@.arguments =~= Seq::<Seq<u8>>::empty());
            assert(r@.env =~= Seq::<(Seq<u8>, Seq<u8>)>::empty());
            assert(r@.mocked_files =~= Seq::<Seq<u8>>::empty());
        }
        r
    }

    /// A protocol expecting no invocations at all.
    pub fn empty() -> (r: Protocol)
        ensures
            r@.steps == Seq::<StepView>::empty(),
            r@.arguments == Seq::<Seq<u8>>::empty(),
            r@.env == Seq::<(Seq<u8>, Seq<u8>)>::empty(),
            r@.cwd is None,
            r@.exitcode == 0,
            r@.mocked_files == Seq::<Seq<u8>>::empty(),
    {
        let r = Protocol::new(Vec::new());
        proof {
            assert(r@.steps =~= Seq::<StepView>::empty());
        }
        r
    }
}

/// A whole protocols file: one protocol per declared run of the script,
/// and the executables that are not substituted but run for real.
#[derive(Debug, PartialEq, Eq)]
pub struct Protocols {
    pub protocols: Vec<Protocol>,
    pub unmocked_commands: Vec<Vec<u8>>,
}

/// The path of the protocols file belonging to a script: the script's
/// path with `.protocols.yaml` appended.
pub fn find_protocol_file(executable: &Vec<u8>) -> (r: Vec<u8>)
    ensures
        r@ == executable@ + ".protocols.yaml".spec_bytes(),
{
    let mut r: Vec<u8> = Vec::new();
    push_all(&mut r, executable);
    let suffix = (".protocols.yaml").as_bytes_vec();
    push_all(&mut r, &suffix);
    proof {
        assert(r@ =~= executable@ + ".protocols.yaml".spec_bytes());
    }
    r
}

} // verus!
