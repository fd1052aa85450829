//! Matchers for one expected invocation: exact commands and anchored
//! regular expressions.
//!
//! An exact matcher compares the received executable and arguments to the
//! expected ones, resolving a bare expected executable against the file
//! name of the received one.  A regex matcher holds a user pattern that is
//! implicitly anchored at both ends and must match the whole formatted
//! command line.

use vstd::prelude::*;
use vstd::string::*;
use crate::command::Command;
use crate::command::CommandView;
use crate::command::spec_basename;
use crate::command::spec_command_matches;
use crate::command::spec_contains_slash;
use crate::command::spec_format_command;
use crate::command::arguments_eq;
use crate::command::basename;
use crate::command::contains_slash;
use crate::command::executables_match;
use crate::Error;
use crate::R;

verus! {

/// Whether the regular expression engine accepts `pattern` once it is
/// anchored at both ends (`^pattern$`).  The result is a function of the
/// pattern alone.
pub uninterp spec fn spec_anchored_pattern_valid(pattern: Seq<char>) -> bool;

/// Whether the pattern, anchored at both ends, matches the whole line.
/// The result is a function of pattern and line alone.
pub uninterp spec fn spec_anchored_match(pattern: Seq<char>, line: Seq<u8>) -> bool;

/// The engine's error text for a pattern it rejects once anchored at both
/// ends.  The text is a function of the pattern alone.
pub uninterp spec fn spec_regex_error(pattern: Seq<char>) -> Seq<char>;

/// Relies on regex::bytes::Regex::new: whether compilation succeeds, and
/// the engine's error text when it does not, are functions of the pattern
/// string alone.  The pattern is compiled as the engine will later match
/// it: anchored at both ends.
#[verifier::external_body]
fn regex_anchored_compile_check(pattern: &str) -> (r: Option<String>)
    ensures
        match r {
            None => spec_anchored_pattern_valid(pattern@),
            Some(message) => !spec_anchored_pattern_valid(pattern@) && message@
                == spec_regex_error(pattern@),
        },
{
    match regex::bytes::Regex::new(&format!("^{}$", pattern)) {
        Ok(_) => None,
        Err(error) => Some(error.to_string()),
    }
}

/// Relies on regex::bytes::Regex::new and regex::bytes::Regex::is_match:
/// whether the pattern, anchored at both ends, matches the whole byte
/// line.  The body compiles the pattern anew for each match so that the
/// result is a function of the pattern and the line alone — a regex
/// stored pre-compiled could not be tied to its pattern in a contract.
/// For a fixed pattern and line the engine always answers the same.
#[verifier::external_body]
fn regex_anchored_is_match(pattern: &str, line: &Vec<u8>) -> (r: bool)
    requires
        spec_anchored_pattern_valid(pattern@),
    ensures
        r == spec_anchored_match(pattern@, line@),
{
    match regex::bytes::Regex::new(&format!("^{}$", pattern)) {
        Ok(re) => re.is_match(line),
        Err(_) => false,
    }
}

/// A user regular expression, anchored at both ends when matched.
#[derive(Debug)]
pub struct AnchoredRegex {
    pattern: String,
}

impl View for AnchoredRegex {
    type V = Seq<char>;

    closed spec fn view(&self) -> Seq<char> {
        self.pattern@
    }
}

impl AnchoredRegex {
    #[verifier::type_invariant]
    spec fn wf(self) -> bool {
        spec_anchored_pattern_valid(self.pattern@)
    }

    /// Wraps a user pattern, rejecting one that the regular expression
    /// engine does not accept once anchored; the error carries the
    /// engine's own message.
    pub fn new(pattern: &str) -> (r: R<AnchoredRegex>)
        ensures
            match r {
                Ok(a) => spec_anchored_pattern_valid(pattern@) && a@ == pattern@,
                Err(e) => !spec_anchored_pattern_valid(pattern@) && e@
                    == vstd::utf8::encode_utf8(spec_regex_error(pattern@)),
            },
    {
        match regex_anchored_compile_check(pattern) {
            None => Ok(AnchoredRegex { pattern: String::from_str(pattern) }),
            Some(message) => Err(Error::new(message.as_str().as_bytes_vec())),
        }
    }

    /// The user pattern, as bytes, for display.
    pub fn format(&self) -> (r: Vec<u8>)
        ensures
            r@ == vstd::utf8::encode_utf8(self@),
    {
        self.pattern.as_str().as_bytes_vec()
    }

    /// Whether the anchored pattern matches the whole line.
    pub fn is_match(&self, line: &Vec<u8>) -> (r: bool)
        ensures
            r == spec_anchored_match(self@, line@),
    {
        proof {
            use_type_invariant(self);
        }
        regex_anchored_is_match(self.pattern.as_str(), line)
    }
}

/// The mathematical model of a matcher.
pub enum CommandMatcherView {
    ExactMatch(CommandView),
    RegexMatch(Seq<char>),
}

/// How one expected invocation is compared to a received one.
#[derive(Debug)]
pub enum CommandMatcher {
    /// The received command must equal this one.
    ExactMatch(Command),
    /// The received command line must match this anchored pattern whole.
    RegexMatch(AnchoredRegex),
}

impl View for CommandMatcher {
    type V = CommandMatcherView;

    open spec fn view(&self) -> CommandMatcherView {
        match self {
            CommandMatcher::ExactMatch(c) => CommandMatcherView::ExactMatch(c@),
            CommandMatcher::RegexMatch(r) => CommandMatcherView::RegexMatch(r@),
        }
    }
}

impl DeepView for CommandMatcher {
    type V = CommandMatcherView;

    open spec fn deep_view(&self) -> CommandMatcherView {
        self.view()
    }
}

/// Whether the matcher accepts the received command: an exact matcher by
/// executable and argument equality, a regex matcher by an anchored match
/// of the whole formatted command line.
pub open spec fn spec_matcher_accepts(m: CommandMatcherView, received: CommandView) -> bool {
    match m {
        CommandMatcherView::ExactMatch(expected) => spec_command_matches(expected, received),
        CommandMatcherView::RegexMatch(pattern) => spec_anchored_match(
            pattern,
            spec_format_command(received),
        ),
    }
}

/// The matcher as shown in error messages: the expected command line, or
/// the user pattern.
pub open spec fn spec_matcher_format(m: CommandMatcherView) -> Seq<u8> {
    match m {
        CommandMatcherView::ExactMatch(expected) => spec_format_command(expected),
        CommandMatcherView::RegexMatch(pattern) => vstd::utf8::encode_utf8(pattern),
    }
}

/// The received command as shown in an error message against this
/// matcher: when an exact matcher expects a bare executable, the received
/// executable is shortened to its file name.
pub open spec fn spec_received_display(m: CommandMatcherView, received: CommandView) -> Seq<u8> {
    match m {
        CommandMatcherView::ExactMatch(expected) => if !spec_contains_slash(expected.executable) {
            spec_format_command(
                CommandView {
                    executable: spec_basename(received.executable),
                    arguments: received.arguments,
                },
            )
        } else {
            spec_format_command(received)
        },
        CommandMatcherView::RegexMatch(_) => spec_format_command(received),
    }
}

impl CommandMatcher {
    /// Whether this matcher accepts the received command.
    pub fn matches(&self, received: &Command) -> (r: bool)
        ensures
            r == spec_matcher_accepts(self@, received@),
    {
        match self {
            CommandMatcher::ExactMatch(expected) => {
                executables_match(&expected.executable, &received.executable)
                    && arguments_eq(&expected.arguments, &received.arguments)
            },
            CommandMatcher::RegexMatch(regex) => {
                let line = received.format();
                regex.is_match(&line)
            },
        }
    }

    /// The matcher as shown in error messages.
    pub fn format(&self) -> (r: Vec<u8>)
        ensures
            r@ == spec_matcher_format(self@),
    {
        match self {
            CommandMatcher::ExactMatch(expected) => expected.format(),
            CommandMatcher::RegexMatch(regex) => regex.format(),
        }
    }

    /// The received command as shown in an error message against this
    /// matcher.
    pub fn format_received(&self, received: &Command) -> (r: Vec<u8>)
        ensures
            r@ == spec_received_display(self@, received@),
    {
        match self {
            CommandMatcher::ExactMatch(expected) => {
                if !contains_slash(&expected.executable) {
                    let short = Command {
                        executable: basename(&received.executable),
                        arguments: clone_arguments(&received.arguments),
                    };
                    short.format()
                } else {
                    received.format()
                }
            },
            CommandMatcher::RegexMatch(_) => received.format(),
        }
    }
}

/// A copy of an argument list.
pub fn clone_arguments(args: &Vec<Vec<u8>>) -> (r: Vec<Vec<u8>>)
    ensures
        r.deep_view() == args.deep_view(),
{
    let mut r: Vec<Vec<u8>> = Vec::new();
    let mut j: usize = 0;
    while j < args.len()
        invariant
            j <= args.len(),
            r@.len() == j,
            forall|k: int| 0 <= k < j ==> r.deep_view()[k] == args.deep_view()[k],
        decreases args.len() - j,
    {
        let mut one: Vec<u8> = Vec::new();
        crate::command::push_all(&mut one, &args[j]);
        proof {
            assert(one@ =~= args@[j as int]@);
        }
        r.push(one);
        j = j + 1;
    }
    proof {
        assert(r.deep_view() =~= args.deep_view());
    }
    r
}

/// Exact matching resolves executables and compares arguments: an exact
/// matcher accepts a received command if and only if the expected
/// executable — taken as a file name to be found on the search path when
/// it holds no path separator, as a path otherwise — equals the received
/// one, and the argument lists are byte-equal.
pub proof fn law_exact_match_iff(expected: CommandView, received: CommandView)
    ensures
        spec_matcher_accepts(CommandMatcherView::ExactMatch(expected), received) <==> ({
            &&& if spec_contains_slash(expected.executable) {
                expected.executable == received.executable
            } else {
                expected.executable == spec_basename(received.executable)
            }
            &&& expected.arguments == received.arguments
        }),
{
}

/// Regex matching is anchored: a regex matcher accepts a received command
/// if and only if the pattern, anchored at both ends, matches the whole
/// formatted command line — a pattern that matches only a part of the
/// line does not pass.
pub proof fn law_regex_match_iff(pattern: Seq<char>, received: CommandView)
    ensures
        spec_matcher_accepts(CommandMatcherView::RegexMatch(pattern), received)
            <==> spec_anchored_match(pattern, spec_format_command(received)),
{
}

} // verus!
