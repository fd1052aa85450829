//! Commands and their shell-like surface syntax.
//!
//! A command is an executable plus an ordered argument list, all byte
//! strings.  Commands are parsed from a single string by whitespace
//! splitting, where double quotes preserve embedded whitespace, and are
//! formatted back into a single line with arguments re-quoted when they
//! contain whitespace.

use vstd::prelude::*;
use vstd::string::*;
use crate::Error;
use crate::R;

verus! {

/// The double-quote byte.
pub const QUOTE: u8 = 34;

/// The mathematical model of a command: an executable and its arguments.
pub struct CommandView {
    pub executable: Seq<u8>,
    pub arguments: Seq<Seq<u8>>,
}

/// One command: the program to execute and the arguments handed to it.
///
/// Executables and arguments are byte strings; whether they decode as
/// UTF-8 is a display concern only.
#[derive(Debug, PartialEq, Eq)]
pub struct Command {
    pub executable: Vec<u8>,
    pub arguments: Vec<Vec<u8>>,
}

impl View for Command {
    type V = CommandView;

    open spec fn view(&self) -> CommandView {
        CommandView { executable: self.executable@, arguments: self.arguments.deep_view() }
    }
}

impl DeepView for Command {
    type V = CommandView;

    open spec fn deep_view(&self) -> CommandView {
        self.view()
    }
}

/// Whether a byte separates tokens outside of quotes.
pub open spec fn spec_is_space(c: u8) -> bool {
    c == 32 || c == 9
}

/// The tokenizer's transition function, consuming `s` byte by byte.
///
/// `cur` is the token being built (`None` outside of tokens), `acc` the
/// tokens already finished, `in_quotes` whether a double quote is open.
/// `None` means the input ends inside an open quote.
pub open spec fn spec_tokenize_from(
    s: Seq<u8>,
    cur: Option<Seq<u8>>,
    acc: Seq<Seq<u8>>,
    in_quotes: bool,
) -> Option<Seq<Seq<u8>>>
    decreases s.len(),
{
    if s.len() == 0 {
        if in_quotes {
            None
        } else {
            match cur {
                Some(t) => Some(acc.push(t)),
                None => Some(acc),
            }
        }
    } else {
        let c = s[0];
        let rest = s.drop_first();
        let token = match cur {
            Some(t) => t,
            None => Seq::<u8>::empty(),
        };
        if in_quotes {
            if c == QUOTE {
                spec_tokenize_from(rest, Some(token), acc, false)
            } else {
                spec_tokenize_from(rest, Some(token.push(c)), acc, true)
            }
        } else {
            if c == QUOTE {
                spec_tokenize_from(rest, Some(token), acc, true)
            } else if spec_is_space(c) {
                match cur {
                    Some(t) => spec_tokenize_from(rest, None, acc.push(t), false),
                    None => spec_tokenize_from(rest, None, acc, false),
                }
            } else {
                spec_tokenize_from(rest, Some(token.push(c)), acc, false)
            }
        }
    }
}

/// The tokens of a command string, or `None` on an unmatched quote.
pub open spec fn spec_tokenize(s: Seq<u8>) -> Option<Seq<Seq<u8>>> {
    spec_tokenize_from(s, None, Seq::empty(), false)
}

/// Splits a byte string into tokens: whitespace separates tokens, double
/// quotes preserve embedded whitespace, the quotes themselves are dropped.
pub fn tokenize(bytes: &Vec<u8>) -> (r: Option<Vec<Vec<u8>>>)
    ensures
        match r {
            Some(tokens) => spec_tokenize(bytes@) == Some(tokens.deep_view()),
            None => spec_tokenize(bytes@) is None,
        },
{
    let mut acc: Vec<Vec<u8>> = Vec::new();
    let mut cur: Vec<u8> = Vec::new();
    let mut has_cur: bool = false;
    let mut in_quotes: bool = false;
    let mut i: usize = 0;
    proof {
        assert(bytes@.skip(0) =~= bytes@);
        assert(acc.deep_view() =~~= Seq::<Seq<u8>>::empty());
    }
    while i < bytes.len()
        invariant
            i <= bytes.len(),
            in_quotes ==> has_cur,
            !has_cur ==> cur@ == Seq::<u8>::empty(),
            spec_tokenize(bytes@) == spec_tokenize_from(
                bytes@.skip(i as int),
                if has_cur { Some(cur@) } else { None },
                acc.deep_view(),
                in_quotes,
            ),
        decreases bytes.len() - i,
    {
        let c = bytes[i];
        proof {
            assert(bytes@.skip(i as int)[0] == bytes@[i as int]);
            assert(bytes@.skip(i as int).drop_first() =~= bytes@.skip(i as int + 1));
        }
        let ghost acc0 = acc.deep_view();
        if in_quotes {
            if c == QUOTE {
                in_quotes = false;
            } else {
                cur.push(c);
            }
        } else {
            if c == QUOTE {
                has_cur = true;
                in_quotes = true;
            } else if c == 32 || c == 9 {
                if has_cur {
                    acc.push(cur);
                    cur = Vec::new();
                    has_cur = false;
                    proof {
                        assert(acc.deep_view() =~~= acc0.push(acc@[acc@.len() - 1]@));
                    }
                }
            } else {
                cur.push(c);
                has_cur = true;
            }
        }
        i = i + 1;
    }
    proof {
        assert(bytes@.skip(i as int) =~= Seq::<u8>::empty());
    }
    if in_quotes {
        None
    } else {
        if has_cur {
            let ghost acc0 = acc.deep_view();
            acc.push(cur);
            proof {
                assert(acc.deep_view() =~~= acc0.push(acc@[acc@.len() - 1]@));
            }
        }
        Some(acc)
    }
}

/// Appends all bytes of `src` to `dst`.
pub fn push_all(dst: &mut Vec<u8>, src: &Vec<u8>)
    ensures
        final(dst)@ == old(dst)@ + src@,
{
    let mut j: usize = 0;
    while j < src.len()
        invariant
            j <= src.len(),
            dst@ == old(dst)@ + src@.take(j as int),
        decreases src.len() - j,
    {
        dst.push(src[j]);
        j = j + 1;
        proof {
            assert(src@.take(j as int) =~= src@.take(j - 1).push(src@[j - 1]));
            assert(dst@ =~= old(dst)@ + src@.take(j as int));
        }
    }
    proof {
        assert(src@.take(src@.len() as int) =~= src@);
    }
}

/// Whether two byte strings are equal.
pub fn bytes_eq(a: &Vec<u8>, b: &Vec<u8>) -> (r: bool)
    ensures
        r == (a@ == b@),
{
    if a.len() != b.len() {
        return false;
    }
    let mut j: usize = 0;
    while j < a.len()
        invariant
            j <= a.len(),
            a@.len() == b@.len(),
            forall|k: int| 0 <= k < j ==> a@[k] == b@[k],
        decreases a.len() - j,
    {
        if a[j] != b[j] {
            return false;
        }
        j = j + 1;
    }
    proof {
        assert(a@ =~= b@);
    }
    true
}

/// Whether two argument lists are equal.
pub fn arguments_eq(a: &Vec<Vec<u8>>, b: &Vec<Vec<u8>>) -> (r: bool)
    ensures
        r == (a.deep_view() == b.deep_view()),
{
    proof {
        assert(a.deep_view().len() == a@.len());
        assert(b.deep_view().len() == b@.len());
    }
    if a.len() != b.len() {
        return false;
    }
    let mut j: usize = 0;
    while j < a.len()
        invariant
            j <= a.len(),
            a@.len() == b@.len(),
            forall|k: int| 0 <= k < j ==> a.deep_view()[k] == b.deep_view()[k],
        decreases a.len() - j,
    {
        if !bytes_eq(&a[j], &b[j]) {
            proof {
                assert(a.deep_view()[j as int] =~= a@[j as int]@);
                assert(b.deep_view()[j as int] =~= b@[j as int]@);
            }
            return false;
        }
        proof {
            assert(a.deep_view()[j as int] =~= a@[j as int]@);
            assert(b.deep_view()[j as int] =~= b@[j as int]@);
        }
        j = j + 1;
    }
    proof {
        assert(a.deep_view() =~= b.deep_view());
    }
    true
}

/// Whether the byte string holds a path separator.
pub open spec fn spec_contains_slash(s: Seq<u8>) -> bool {
    exists|i: int| 0 <= i < s.len() && s[i] == 47
}

/// The file name of a path: the part after the last path separator.
pub open spec fn spec_basename(s: Seq<u8>) -> Seq<u8>
    decreases s.len(),
{
    if !spec_contains_slash(s) {
        s
    } else {
        spec_basename(s.drop_first())
    }
}

/// Whether an expected executable accepts a received one: an expected
/// executable that holds no path separator is matched against the file
/// name of the received one, as the process loader would have found it on
/// the search path; any other expected executable must be byte-equal.
pub open spec fn spec_executables_match(expected: Seq<u8>, received: Seq<u8>) -> bool {
    if spec_contains_slash(expected) {
        expected == received
    } else {
        expected == spec_basename(received)
    }
}

/// Whether an exactly-expected command accepts a received one: the
/// executables must match and the argument lists must be byte-equal.
pub open spec fn spec_command_matches(expected: CommandView, received: CommandView) -> bool {
    spec_executables_match(expected.executable, received.executable) && expected.arguments
        == received.arguments
}

/// Whether the byte string holds a path separator.
pub fn contains_slash(s: &Vec<u8>) -> (r: bool)
    ensures
        r == spec_contains_slash(s@),
{
    let mut j: usize = 0;
    while j < s.len()
        invariant
            j <= s.len(),
            forall|k: int| 0 <= k < j ==> s@[k] != 47,
        decreases s.len() - j,
    {
        if s[j] == 47 {
            return true;
        }
        j = j + 1;
    }
    false
}

proof fn lemma_basename_after_slash(s: Seq<u8>, k: int)
    requires
        0 <= k < s.len(),
        s[k] == 47,
        forall|j: int| k < j < s.len() ==> s[j] != 47,
    ensures
        spec_basename(s) == s.skip(k + 1),
    decreases s.len(),
{
    assert(spec_contains_slash(s));
    if k == 0 {
        assert forall|j: int| 0 <= j < s.drop_first().len() implies s.drop_first()[j] != 47 by {
            assert(s.drop_first()[j] == s[j + 1]);
        }
        assert(!spec_contains_slash(s.drop_first()));
        assert(spec_basename(s.drop_first()) == s.drop_first());
        assert(spec_basename(s) == spec_basename(s.drop_first()));
        assert(s.drop_first() =~= s.skip(1));
    } else {
        assert(s.drop_first()[k - 1] == s[k]);
        assert forall|j: int| k - 1 < j < s.drop_first().len() implies s.drop_first()[j] != 47 by {
            assert(s.drop_first()[j] == s[j + 1]);
        }
        lemma_basename_after_slash(s.drop_first(), k - 1);
        assert(s.drop_first().skip(k) =~= s.skip(k + 1));
    }
}

/// The file name of a path: the part after the last path separator.
pub fn basename(s: &Vec<u8>) -> (r: Vec<u8>)
    ensures
        r@ == spec_basename(s@),
{
    let mut j: usize = s.len();
    while j > 0
        invariant
            j <= s.len(),
            forall|k: int| j <= k < s@.len() ==> s@[k] != 47,
        decreases j,
    {
        if s[j - 1] == 47 {
            let mut r: Vec<u8> = Vec::new();
            let mut m: usize = j;
            while m < s.len()
                invariant
                    j <= m <= s.len(),
                    r@ == s@.subrange(j as int, m as int),
                decreases s.len() - m,
            {
                r.push(s[m]);
                m = m + 1;
                proof {
                    assert(s@.subrange(j as int, m as int) =~= s@.subrange(
                        j as int,
                        m - 1,
                    ).push(s@[m - 1]));
                }
            }
            proof {
                lemma_basename_after_slash(s@, j - 1);
                assert(s@.subrange(j as int, s@.len() as int) =~= s@.skip(j as int));
            }
            return r;
        }
        j = j - 1;
    }
    proof {
        assert(!spec_contains_slash(s@));
    }
    let mut r: Vec<u8> = Vec::new();
    push_all(&mut r, s);
    proof {
        assert(r@ =~= s@);
    }
    r
}

/// Whether an expected executable accepts a received one.
pub fn executables_match(expected: &Vec<u8>, received: &Vec<u8>) -> (r: bool)
    ensures
        r == spec_executables_match(expected@, received@),
{
    if contains_slash(expected) {
        bytes_eq(expected, received)
    } else {
        let base = basename(received);
        bytes_eq(expected, &base)
    }
}

/// Whether a byte string holds whitespace.
pub open spec fn spec_contains_space(s: Seq<u8>) -> bool {
    exists|i: int| 0 <= i < s.len() && spec_is_space(s[i])
}

/// An argument as it appears on a formatted command line: wrapped in
/// double quotes when it holds whitespace.
pub open spec fn spec_quote_argument(a: Seq<u8>) -> Seq<u8> {
    if spec_contains_space(a) {
        seq![QUOTE] + a + seq![QUOTE]
    } else {
        a
    }
}

/// The formatted argument part of a command line: each argument preceded
/// by one space, quoted when it holds whitespace.
pub open spec fn spec_format_arguments(args: Seq<Seq<u8>>) -> Seq<u8>
    decreases args.len(),
{
    if args.len() == 0 {
        Seq::empty()
    } else {
        seq![32u8] + spec_quote_argument(args[0]) + spec_format_arguments(args.drop_first())
    }
}

/// The formatted command line: the executable, then the arguments.
pub open spec fn spec_format_command(c: CommandView) -> Seq<u8> {
    c.executable + spec_format_arguments(c.arguments)
}

/// Whether a byte string holds whitespace.
pub fn contains_space(s: &Vec<u8>) -> (r: bool)
    ensures
        r == spec_contains_space(s@),
{
    let mut j: usize = 0;
    while j < s.len()
        invariant
            j <= s.len(),
            forall|k: int| 0 <= k < j ==> !spec_is_space(s@[k]),
        decreases s.len() - j,
    {
        if s[j] == 32 || s[j] == 9 {
            return true;
        }
        j = j + 1;
    }
    false
}

/// A byte that neither separates tokens nor quotes them.
pub open spec fn spec_is_plain_byte(c: u8) -> bool {
    !spec_is_space(c) && c != QUOTE
}

/// A token that the formatter writes bare and the tokenizer reads back
/// whole: nonempty, without whitespace and without quotes.
pub open spec fn spec_is_plain_token(t: Seq<u8>) -> bool {
    t.len() > 0 && forall|i: int| 0 <= i < t.len() ==> spec_is_plain_byte(#[trigger] t[i])
}

/// An argument that survives formatting: it holds no quote, and it is
/// either quotable (it holds whitespace) or a nonempty plain token.
pub open spec fn spec_argument_round_trips(a: Seq<u8>) -> bool {
    &&& forall|i: int| 0 <= i < a.len() ==> a[i] != QUOTE
    &&& (spec_contains_space(a) || spec_is_plain_token(a))
}

proof fn lemma_tokenize_plain_bytes(t: Seq<u8>, rest: Seq<u8>, cur: Seq<u8>, acc: Seq<Seq<u8>>)
    requires
        forall|i: int| 0 <= i < t.len() ==> spec_is_plain_byte(#[trigger] t[i]),
    ensures
        spec_tokenize_from(t + rest, Some(cur), acc, false) == spec_tokenize_from(
            rest,
            Some(cur + t),
            acc,
            false,
        ),
    decreases t.len(),
{
    if t.len() == 0 {
        assert(t + rest =~= rest);
        assert(cur + t =~= cur);
    } else {
        assert((t + rest)[0] == t[0]);
        assert((t + rest).drop_first() =~= t.drop_first() + rest);
        lemma_tokenize_plain_bytes(t.drop_first(), rest, cur.push(t[0]), acc);
        assert(cur.push(t[0]) + t.drop_first() =~= cur + t);
    }
}

proof fn lemma_tokenize_in_quotes(a: Seq<u8>, rest: Seq<u8>, cur: Seq<u8>, acc: Seq<Seq<u8>>)
    requires
        forall|i: int| 0 <= i < a.len() ==> a[i] != QUOTE,
    ensures
        spec_tokenize_from(a + rest, Some(cur), acc, true) == spec_tokenize_from(
            rest,
            Some(cur + a),
            acc,
            true,
        ),
    decreases a.len(),
{
    if a.len() == 0 {
        assert(a + rest =~= rest);
        assert(cur + a =~= cur);
    } else {
        assert((a + rest)[0] == a[0]);
        assert((a + rest).drop_first() =~= a.drop_first() + rest);
        lemma_tokenize_in_quotes(a.drop_first(), rest, cur.push(a[0]), acc);
        assert(cur.push(a[0]) + a.drop_first() =~= cur + a);
    }
}

proof fn lemma_tokenize_quoted_argument(a: Seq<u8>, rest: Seq<u8>, acc: Seq<Seq<u8>>)
    requires
        forall|i: int| 0 <= i < a.len() ==> a[i] != QUOTE,
    ensures
        spec_tokenize_from(seq![QUOTE] + a + seq![QUOTE] + rest, None, acc, false)
            == spec_tokenize_from(rest, Some(a), acc, false),
{
    let whole = seq![QUOTE] + a + seq![QUOTE] + rest;
    assert(whole[0] == QUOTE);
    assert(whole.drop_first() =~= a + (seq![QUOTE] + rest));
    lemma_tokenize_in_quotes(a, seq![QUOTE] + rest, Seq::empty(), acc);
    assert(Seq::<u8>::empty() + a =~= a);
    assert((seq![QUOTE] + rest)[0] == QUOTE);
    assert((seq![QUOTE] + rest).drop_first() =~= rest);
}

proof fn lemma_tokenize_formatted_arguments(args: Seq<Seq<u8>>, cur: Seq<u8>, acc: Seq<Seq<u8>>)
    requires
        forall|i: int| 0 <= i < args.len() ==> spec_argument_round_trips(#[trigger] args[i]),
    ensures
        spec_tokenize_from(spec_format_arguments(args), Some(cur), acc, false) == Some(
            acc.push(cur) + args,
        ),
    decreases args.len(),
{
    if args.len() == 0 {
        assert(acc.push(cur) + args =~= acc.push(cur));
    } else {
        let a0 = args[0];
        let tail = spec_format_arguments(args.drop_first());
        let formatted = spec_format_arguments(args);
        assert(formatted == seq![32u8] + spec_quote_argument(a0) + tail);
        assert(formatted[0] == 32u8);
        assert(formatted.drop_first() =~= spec_quote_argument(a0) + tail);
        assert(spec_tokenize_from(formatted, Some(cur), acc, false) == spec_tokenize_from(
            spec_quote_argument(a0) + tail,
            None,
            acc.push(cur),
            false,
        ));
        if spec_contains_space(a0) {
            assert(spec_quote_argument(a0) + tail =~= seq![QUOTE] + a0 + seq![QUOTE] + tail);
            lemma_tokenize_quoted_argument(a0, tail, acc.push(cur));
        } else {
            assert(spec_is_plain_token(a0));
            assert(spec_quote_argument(a0) == a0);
            assert(a0.len() > 0);
            assert((a0 + tail)[0] == a0[0]);
            assert((a0 + tail).drop_first() =~= a0.drop_first() + tail);
            assert(spec_is_plain_byte(a0[0]));
            assert(spec_tokenize_from(a0 + tail, None, acc.push(cur), false)
                == spec_tokenize_from(
                a0.drop_first() + tail,
                Some(Seq::<u8>::empty().push(a0[0])),
                acc.push(cur),
                false,
            ));
            lemma_tokenize_plain_bytes(a0.drop_first(), tail, Seq::empty().push(a0[0]), acc.push(cur));
            assert(Seq::<u8>::empty().push(a0[0]) + a0.drop_first() =~= a0);
        }
        assert forall|i: int| 0 <= i < args.drop_first().len() implies spec_argument_round_trips(
            #[trigger] args.drop_first()[i],
        ) by {
            assert(args.drop_first()[i] == args[i + 1]);
        }
        lemma_tokenize_formatted_arguments(args.drop_first(), a0, acc.push(cur));
        assert(acc.push(cur).push(a0) + args.drop_first() =~= acc.push(cur) + args);
    }
}

/// Formatting round-trips through parsing: a formatted command line,
/// tokenized again, yields exactly the executable and the arguments it
/// was formatted from — provided the executable is a plain token and each
/// argument holds no quote and is either quotable or a plain token.
pub proof fn law_format_then_tokenize(c: CommandView)
    requires
        spec_is_plain_token(c.executable),
        forall|i: int|
            0 <= i < c.arguments.len() ==> spec_argument_round_trips(#[trigger] c.arguments[i]),
    ensures
        spec_tokenize(spec_format_command(c)) == Some(seq![c.executable] + c.arguments),
{
    let formatted = spec_format_command(c);
    let tail = spec_format_arguments(c.arguments);
    assert(formatted == c.executable + tail);
    assert(c.executable.len() > 0);
    assert((c.executable + tail)[0] == c.executable[0]);
    assert((c.executable + tail).drop_first() =~= c.executable.drop_first() + tail);
    assert(spec_is_plain_byte(c.executable[0]));
    assert(spec_tokenize_from(formatted, None, Seq::empty(), false) == spec_tokenize_from(
        c.executable.drop_first() + tail,
        Some(Seq::<u8>::empty().push(c.executable[0])),
        Seq::empty(),
        false,
    ));
    lemma_tokenize_plain_bytes(
        c.executable.drop_first(),
        tail,
        Seq::empty().push(c.executable[0]),
        Seq::empty(),
    );
    assert(Seq::<u8>::empty().push(c.executable[0]) + c.executable.drop_first()
        =~= c.executable);
    lemma_tokenize_formatted_arguments(c.arguments, c.executable, Seq::empty());
    assert(Seq::<Seq<u8>>::empty().push(c.executable) + c.arguments =~= seq![c.executable]
        + c.arguments);
}

impl Command {
    /// Formats the command as a single line: the executable and the
    /// arguments separated by spaces, arguments that hold whitespace
    /// wrapped in double quotes.
    pub fn format(&self) -> (r: Vec<u8>)
        ensures
            r@ == spec_format_command(self@),
    {
        let mut r: Vec<u8> = Vec::new();
        push_all(&mut r, &self.executable);
        let ghost args = self@.arguments;
        proof {
            assert(args.skip(0) =~= args);
            assert(r@ =~= self.executable@);
        }
        let mut j: usize = 0;
        while j < self.arguments.len()
            invariant
                j <= self.arguments.len(),
                args == self.arguments.deep_view(),
                r@ + spec_format_arguments(args.skip(j as int)) == spec_format_command(self@),
            decreases self.arguments.len() - j,
        {
            proof {
                assert(args.skip(j as int)[0] == args[j as int]);
                assert(args.skip(j as int).drop_first() =~= args.skip(j as int + 1));
                assert(args[j as int] =~= self.arguments@[j as int]@);
            }
            let ghost r0 = r@;
            r.push(32);
            if contains_space(&self.arguments[j]) {
                r.push(QUOTE);
                push_all(&mut r, &self.arguments[j]);
                r.push(QUOTE);
                proof {
                    assert(r@ =~= r0 + seq![32u8] + spec_quote_argument(args[j as int]));
                }
            } else {
                push_all(&mut r, &self.arguments[j]);
                proof {
                    assert(r@ =~= r0 + seq![32u8] + spec_quote_argument(args[j as int]));
                }
            }
            proof {
                assert(r0 + seq![32u8] + spec_quote_argument(args[j as int])
                    + spec_format_arguments(args.skip(j as int + 1)) =~= r0 + (seq![32u8]
                    + spec_quote_argument(args[j as int]) + spec_format_arguments(
                    args.skip(j as int + 1),
                )));
            }
            j = j + 1;
        }
        proof {
            assert(args.skip(j as int) =~= Seq::<Seq<u8>>::empty());
            assert(r@ + Seq::<u8>::empty() =~= r@);
        }
        r
    }

    /// Parses a command from a single shell-like string: the first token
    /// is the executable, the remaining tokens are the arguments.
    ///
    /// Fails on an unmatched double quote and on a string without tokens.
    pub fn new(string: &str) -> (r: R<Command>)
        ensures
            match spec_tokenize(string.spec_bytes()) {
                None => r matches Err(e) && e@ == "unmatched quotes".spec_bytes(),
                Some(tokens) => {
                    if tokens.len() == 0 {
                        r matches Err(e) && e@ == "a command must not be empty".spec_bytes()
                    } else {
                        r matches Ok(c) && c@.executable == tokens[0] && c@.arguments
                            == tokens.drop_first()
                    }
                },
            },
    {
        let bytes = string.as_bytes_vec();
        match tokenize(&bytes) {
            None => Err(Error::new(("unmatched quotes").as_bytes_vec())),
            Some(mut tokens) => {
                if tokens.len() == 0 {
                    Err(Error::new(("a command must not be empty").as_bytes_vec()))
                } else {
                    let ghost t0 = tokens.deep_view();
                    let executable = tokens.remove(0);
                    proof {
                        assert(tokens.deep_view() =~~= t0.drop_first());
                    }
                    Ok(Command { executable, arguments: tokens })
                }
            },
        }
    }
}

} // verus!
