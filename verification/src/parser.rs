//! The command grammar: a line of text names tasks, separated by semicolons.
//! Each item is a catalog index or a literal command, followed by arguments
//! that may be quoted.

use crate::scan::{
    is_digit, is_quote, lemma_run_len, lemma_run_len_unique, run_len, scan, CharClass,
};
use vstd::prelude::*;
use vstd::string::StrSliceExecFns;

verus! {

/// One parsed item of a line. Its strings are slices of the text it was
/// parsed from.
#[derive(Debug, PartialEq)]
pub struct ParsedTask<'a> {
    pub index: Option<usize>,
    pub command: Option<&'a str>,
    pub args: Vec<&'a str>,
}

/// What a `ParsedTask` says, apart from where its strings are stored.
pub ghost struct TaskView {
    pub index: Option<usize>,
    pub command: Option<Seq<char>>,
    pub args: Seq<Seq<char>>,
}

impl TaskView {
    /// Exactly one of index and command is present.
    pub open spec fn well_formed(self) -> bool {
        self.index is Some != self.command is Some
    }
}

impl<'a> View for ParsedTask<'a> {
    type V = TaskView;

    open spec fn view(&self) -> TaskView {
        TaskView {
            index: self.index,
            command: match self.command {
                Some(c) => Some(c@),
                None => None,
            },
            args: texts(self.args@),
        }
    }
}

/// The views of a vector of string slices.
pub open spec fn texts(v: Seq<&str>) -> Seq<Seq<char>> {
    Seq::new(v.len(), |i: int| v[i]@)
}

/// Why a piece of text is not what the grammar asks for at that place.
#[derive(Debug, PartialEq, Eq, Clone, Copy)]
pub enum ParseError {
    /// A bare token was expected, and the text is empty or starts with a
    /// space, a tab or a semicolon.
    ExpectedToken,
    /// A quoted string was expected, and the text does not start with a quote.
    ExpectedQuote,
    /// A quoted string is opened and never closed.
    UnterminatedQuote,
    /// A run of digits names a number too large for an index.
    IndexOverflow,
}

/// A bare token: the longest prefix without space, tab or semicolon, which
/// must not be empty. Gives the token and what follows it.
pub open spec fn arg_spec(s: Seq<char>) -> Option<(Seq<char>, Seq<char>)> {
    let n = run_len(s, CharClass::Word) as int;
    if n == 0 {
        None
    } else {
        Some((s.take(n), s.skip(n)))
    }
}

/// A quoted string: a quote, then everything up to the next occurrence of
/// the same quote. Gives the content and what follows the closing quote.
pub open spec fn quoted_spec(s: Seq<char>) -> Result<(Seq<char>, Seq<char>), ParseError> {
    if s.len() == 0 || !is_quote(s[0]) {
        Err(ParseError::ExpectedQuote)
    } else {
        let n = run_len(s.skip(1), CharClass::Except(s[0])) as int;
        if 1 + n < s.len() {
            Ok((s.subrange(1, 1 + n), s.skip(n + 2)))
        } else {
            Err(ParseError::UnterminatedQuote)
        }
    }
}

/// Parses a bare token at the start of `input`. On success the pair holds
/// the rest of the input, then the token.
pub fn arg(input: &str) -> (r: Result<(&str, &str), ParseError>)
    ensures
        match arg_spec(input@) {
            Some((token, rest)) => r is Ok && r->Ok_0.0@ == rest && r->Ok_0.1@ == token,
            None => r == Err::<(&str, &str), ParseError>(ParseError::ExpectedToken),
        },
{
    let len = input.unicode_len();
    let end = scan(input, len, 0, CharClass::Word);
    assert(input@.skip(0) =~= input@);
    if end == 0 {
        Err(ParseError::ExpectedToken)
    } else {
        let token = input.substring_char(0, end);
        let rest = input.substring_char(end, len);
        assert(token@ =~= input@.take(end as int));
        assert(rest@ =~= input@.skip(end as int));
        Ok((rest, token))
    }
}

/// Parses a quoted string at the start of `input`. On success the pair holds
/// the rest of the input, then the content between the quotes.
pub fn quoted_string(input: &str) -> (r: Result<(&str, &str), ParseError>)
    ensures
        match quoted_spec(input@) {
            Ok((content, rest)) => r is Ok && r->Ok_0.0@ == rest && r->Ok_0.1@ == content,
            Err(e) => r == Err::<(&str, &str), ParseError>(e),
        },
{
    let len = input.unicode_len();
    if len == 0 {
        return Err(ParseError::ExpectedQuote);
    }
    let quote = input.get_char(0);
    if !(quote == '\'' || quote == '"') {
        return Err(ParseError::ExpectedQuote);
    }
    let close = scan(input, len, 1, CharClass::Except(quote));
    if close < len {
        let content = input.substring_char(1, close);
        let rest = input.substring_char(close + 1, len);
        assert(content@ =~= input@.subrange(1, close as int));
        assert(rest@ =~= input@.skip(close + 1));
        Ok((rest, content))
    } else {
        Err(ParseError::UnterminatedQuote)
    }
}

/// The number that a decimal digit stands for.
pub open spec fn digit_value(c: char) -> nat {
    (c as u32 - '0' as u32) as nat
}

/// The number that a string of decimal digits spells, most significant digit
/// first; the empty string spells zero.
pub open spec fn digits_value(s: Seq<char>) -> nat
    decreases s.len(),
{
    if s.len() == 0 {
        0
    } else {
        digits_value(s.drop_last()) * 10 + digit_value(s.last())
    }
}

/// A prefix of a string of digits spells no more than the whole string.
pub proof fn lemma_digits_value_prefix(s: Seq<char>, k: int)
    requires
        0 <= k <= s.len(),
    ensures
        digits_value(s.take(k)) <= digits_value(s),
    decreases s.len(),
{
    if k == s.len() {
        assert(s.take(k) =~= s);
    } else {
        lemma_digits_value_prefix(s.drop_last(), k);
        assert(s.drop_last().take(k) =~= s.take(k));
    }
}

/// Puts `first` in front of the values of a parse that may have failed.
pub open spec fn prepend(
    first: Seq<Seq<char>>,
    then: Result<(Seq<Seq<char>>, Seq<char>), ParseError>,
) -> Result<(Seq<Seq<char>>, Seq<char>), ParseError> {
    match then {
        Ok((more, rest)) => Ok((first + more, rest)),
        Err(e) => Err(e),
    }
}

/// The arguments of an item: as often as possible, one or more blanks and
/// then a quoted string or a bare token. Gives the values in order and the
/// text left over, which starts with the blanks that no argument followed.
/// A quote that opens an argument and is never closed is an error.
pub open spec fn args_spec(s: Seq<char>) -> Result<(Seq<Seq<char>>, Seq<char>), ParseError>
    decreases s.len(),
{
    let b = run_len(s, CharClass::Blank) as int;
    let t = s.skip(b);
    if b == 0 || t.len() == 0 || t[0] == ';' {
        Ok((Seq::empty(), s))
    } else if is_quote(t[0]) {
        match quoted_spec(t) {
            Ok((content, rest)) => {
                proof {
                    lemma_run_len(s, CharClass::Blank);
                }
                prepend(seq![content], args_spec(rest))
            },
            Err(e) => Err(e),
        }
    } else {
        match arg_spec(t) {
            Some((token, rest)) => {
                proof {
                    lemma_run_len(s, CharClass::Blank);
                    lemma_run_len(t, CharClass::Word);
                }
                prepend(seq![token], args_spec(rest))
            },
            None => Err(ParseError::ExpectedToken),
        }
    }
}

/// One item: optional blanks; then a run of digits, which is an index, or
/// else a bare token, which is a command; then the arguments. Gives the
/// request and the text left over.
pub open spec fn item_spec(s: Seq<char>) -> Result<(TaskView, Seq<char>), ParseError> {
    let t = s.skip(run_len(s, CharClass::Blank) as int);
    let d = run_len(t, CharClass::Digit) as int;
    if d > 0 {
        if digits_value(t.take(d)) > usize::MAX {
            Err(ParseError::IndexOverflow)
        } else {
            match args_spec(t.skip(d)) {
                Ok((args, rest)) => Ok(
                    (
                        TaskView {
                            index: Some(digits_value(t.take(d)) as usize),
                            command: None,
                            args,
                        },
                        rest,
                    ),
                ),
                Err(e) => Err(e),
            }
        }
    } else {
        match arg_spec(t) {
            Some((token, after)) => match args_spec(after) {
                Ok((args, rest)) => Ok(
                    (TaskView { index: None, command: Some(token), args }, rest),
                ),
                Err(e) => Err(e),
            },
            None => Err(ParseError::ExpectedToken),
        }
    }
}

/// The value of the digits of `text` from position `from` up to `to`, or
/// `None` where it does not fit.
fn parse_index(text: &str, from: usize, to: usize) -> (r: Option<usize>)
    requires
        from <= to <= text@.len(),
        forall|i: int| from <= i < to ==> is_digit(#[trigger] text@[i]),
    ensures
        match r {
            Some(v) => v == digits_value(text@.subrange(from as int, to as int)),
            None => digits_value(text@.subrange(from as int, to as int)) > usize::MAX,
        },
{
    let ghost all = text@.subrange(from as int, to as int);
    let mut value: usize = 0;
    let mut i: usize = from;
    while i < to
        invariant
            from <= i <= to <= text@.len(),
            all == text@.subrange(from as int, to as int),
            forall|j: int| from <= j < to ==> is_digit(#[trigger] text@[j]),
            value == digits_value(text@.subrange(from as int, i as int)),
        decreases to - i,
    {
        let c = text.get_char(i);
        let digit: usize = (c as u32 - '0' as u32) as usize;
        proof {
            let next = text@.subrange(from as int, i + 1);
            assert(next.drop_last() =~= text@.subrange(from as int, i as int));
            assert(next.last() == c);
            assert(digits_value(next) == value * 10 + digit);
            assert(all.take(i + 1 - from) =~= next);
            lemma_digits_value_prefix(all, i + 1 - from);
        }
        let tens = match value.checked_mul(10) {
            Some(tens) => tens,
            None => {
                return None;
            },
        };
        value = match tens.checked_add(digit) {
            Some(sum) => sum,
            None => {
                return None;
            },
        };
        i = i + 1;
    }
    Some(value)
}

/// Parses the arguments that follow position `from` of `text`, where `len`
/// is the number of characters of `text`. Gives them with the position at
/// which the text left over starts.
fn parse_args<'a>(text: &'a str, len: usize, from: usize) -> (r: Result<
    (Vec<&'a str>, usize),
    ParseError,
>)
    requires
        len == text@.len(),
        from <= len,
    ensures
        match args_spec(text@.skip(from as int)) {
            Ok((args, rest)) => r is Ok && texts(r->Ok_0.0@) == args && from <= r->Ok_0.1 <= len
                && text@.skip(r->Ok_0.1 as int) == rest,
            Err(e) => r is Err && r->Err_0 == e,
        },
{
    let mut args: Vec<&'a str> = Vec::new();
    let mut pos: usize = from;
    assert(texts(args@) =~= Seq::<Seq<char>>::empty());
    loop
        invariant
            len == text@.len(),
            from <= pos <= len,
            args_spec(text@.skip(from as int)) == prepend(
                texts(args@),
                args_spec(text@.skip(pos as int)),
            ),
        decreases len - pos,
    {
        let ghost s = text@.skip(pos as int);
        let start = scan(text, len, pos, CharClass::Blank);
        let ghost t = s.skip(start - pos);
        assert(t =~= text@.skip(start as int));
        if start == pos || start == len {
            assert(texts(args@) + Seq::<Seq<char>>::empty() =~= texts(args@));
            return Ok((args, pos));
        }
        let first = text.get_char(start);
        assert(t[0] == first);
        if first == ';' {
            assert(texts(args@) + Seq::<Seq<char>>::empty() =~= texts(args@));
            return Ok((args, pos));
        }
        let ghost before = texts(args@);
        if first == '\'' || first == '"' {
            let close = scan(text, len, start + 1, CharClass::Except(first));
            assert(t.skip(1) =~= text@.skip(start + 1));
            if close >= len {
                return Err(ParseError::UnterminatedQuote);
            }
            let content = text.substring_char(start + 1, close);
            proof {
                assert(content@ =~= t.subrange(1, 1 + (close - start - 1)));
                assert(t.skip((close - start - 1) + 2) =~= text@.skip(close + 1));
            }
            args.push(content);
            pos = close + 1;
            proof {
                assert(texts(args@) =~= before + seq![content@]);
                let then = args_spec(text@.skip(pos as int));
                match then {
                    Ok((more, rest)) => {
                        assert(before + (seq![content@] + more) =~= (before + seq![content@])
                            + more);
                    },
                    Err(_) => {},
                }
            }
        } else {
            let end = scan(text, len, start, CharClass::Word);
            proof {
                lemma_run_len(s, CharClass::Blank);
                assert(CharClass::Word.contains(t[0]));
                assert(run_len(t, CharClass::Word) >= 1);
            }
            let token = text.substring_char(start, end);
            proof {
                assert(token@ =~= t.take(end - start));
                assert(t.skip(end - start) =~= text@.skip(end as int));
            }
            args.push(token);
            pos = end;
            proof {
                assert(texts(args@) =~= before + seq![token@]);
                let then = args_spec(text@.skip(pos as int));
                match then {
                    Ok((more, rest)) => {
                        assert(before + (seq![token@] + more) =~= (before + seq![token@]) + more);
                    },
                    Err(_) => {},
                }
            }
        }
    }
}

/// Parses one item at the start of `input`. On success the pair holds the
/// rest of the input, then the request.
pub fn parse_item<'a>(input: &'a str) -> (r: Result<(&'a str, ParsedTask<'a>), ParseError>)
    ensures
        match item_spec(input@) {
            Ok((task, rest)) => r is Ok && r->Ok_0.0@ == rest && r->Ok_0.1@ == task,
            Err(e) => r is Err && r->Err_0 == e,
        },
{
    let len = input.unicode_len();
    let start = scan(input, len, 0, CharClass::Blank);
    assert(input@.skip(0) =~= input@);
    let ghost t = input@.skip(start as int);
    let digits_end = scan(input, len, start, CharClass::Digit);
    let index: Option<usize>;
    let command: Option<&'a str>;
    let head_end: usize;
    if digits_end > start {
        proof {
            lemma_run_len(t, CharClass::Digit);
            assert forall|i: int| start <= i < digits_end implies is_digit(
                #[trigger] input@[i],
            ) by {
                assert(input@[i] == t[i - start]);
                assert(CharClass::Digit.contains(t[i - start]));
            }
            assert(t.take(digits_end - start) =~= input@.subrange(
                start as int,
                digits_end as int,
            ));
        }
        match parse_index(input, start, digits_end) {
            Some(value) => {
                index = Some(value);
                command = None;
                head_end = digits_end;
            },
            None => {
                return Err(ParseError::IndexOverflow);
            },
        }
    } else {
        let word_end = scan(input, len, start, CharClass::Word);
        if word_end == start {
            return Err(ParseError::ExpectedToken);
        }
        let token = input.substring_char(start, word_end);
        assert(token@ =~= t.take(word_end - start));
        index = None;
        command = Some(token);
        head_end = word_end;
    }
    assert(t.skip(head_end - start) =~= input@.skip(head_end as int));
    match parse_args(input, len, head_end) {
        Ok((args, end)) => {
            let rest = input.substring_char(end, len);
            assert(rest@ =~= input@.skip(end as int));
            Ok((rest, ParsedTask { index, command, args }))
        },
        Err(e) => Err(e),
    }
}

/// Whether `rest` is what is left of `s` after some prefix of it.
pub open spec fn is_suffix(rest: Seq<char>, s: Seq<char>) -> bool {
    rest.len() <= s.len() && rest == s.skip(s.len() - rest.len())
}

/// The arguments of an item leave a suffix of the text.
pub proof fn lemma_args_rest(s: Seq<char>)
    ensures
        args_spec(s) is Ok ==> is_suffix(args_spec(s)->Ok_0.1, s),
    decreases s.len(),
{
    let b = run_len(s, CharClass::Blank) as int;
    let t = s.skip(b);
    lemma_run_len(s, CharClass::Blank);
    if b == 0 || t.len() == 0 || t[0] == ';' {
        assert(s.skip(0) =~= s);
    } else if is_quote(t[0]) {
        if let Ok((content, rest)) = quoted_spec(t) {
            lemma_args_rest(rest);
            if let Ok((more, end)) = args_spec(rest) {
                assert(end =~= s.skip(s.len() - end.len()));
            }
        }
    } else {
        lemma_run_len(t, CharClass::Word);
        if let Some((token, rest)) = arg_spec(t) {
            lemma_args_rest(rest);
            if let Ok((more, end)) = args_spec(rest) {
                assert(end =~= s.skip(s.len() - end.len()));
            }
        }
    }
}

/// An item that parses is well formed, its command is a bare token, and it
/// leaves a suffix of the text that is shorter than the text.
pub proof fn lemma_item_parsed(s: Seq<char>)
    requires
        item_spec(s) is Ok,
    ensures
        item_spec(s)->Ok_0.0.well_formed(),
        item_spec(s)->Ok_0.0.command is Some ==> {
            let c = item_spec(s)->Ok_0.0.command->0;
            &&& c.len() > 0
            &&& !is_digit(c[0])
            &&& forall|i: int| 0 <= i < c.len() ==> CharClass::Word.contains(#[trigger] c[i])
        },
        is_suffix(item_spec(s)->Ok_0.1, s),
        item_spec(s)->Ok_0.1.len() < s.len(),
{
    let b = run_len(s, CharClass::Blank) as int;
    let t = s.skip(b);
    let d = run_len(t, CharClass::Digit) as int;
    lemma_run_len(s, CharClass::Blank);
    lemma_run_len(t, CharClass::Digit);
    lemma_run_len(t, CharClass::Word);
    let rest = item_spec(s)->Ok_0.1;
    if d > 0 {
        lemma_args_rest(t.skip(d));
        assert(rest =~= s.skip(s.len() - rest.len()));
    } else {
        let w = run_len(t, CharClass::Word) as int;
        lemma_args_rest(t.skip(w));
        assert(rest =~= s.skip(s.len() - rest.len()));
        assert(!CharClass::Digit.contains(t[0]));
    }
}

/// The first request of a line: what stands between items is skipped, and
/// so is every item that does not parse, up to the next semicolon. Gives the
/// request and the text left over, or `None` where no request is left.
pub open spec fn next_spec(s: Seq<char>) -> Option<(TaskView, Seq<char>)>
    decreases s.len(),
{
    let t = s.skip(run_len(s, CharClass::Separator) as int);
    if t.len() == 0 {
        None
    } else {
        match item_spec(t) {
            Ok(found) => Some(found),
            Err(_) => {
                proof {
                    lemma_failed_item_skipped(s);
                }
                next_spec(t.skip(run_len(t, CharClass::Except(';')) as int))
            },
        }
    }
}

/// An item that starts after the separators holds at least one character
/// before the next semicolon, so skipping it makes the text shorter.
pub proof fn lemma_failed_item_skipped(s: Seq<char>)
    ensures
        ({
            let t = s.skip(run_len(s, CharClass::Separator) as int);
            t.len() > 0 ==> 1 <= run_len(t, CharClass::Except(';')) <= t.len() <= s.len()
        }),
{
    let t = s.skip(run_len(s, CharClass::Separator) as int);
    lemma_run_len(s, CharClass::Separator);
    lemma_run_len(t, CharClass::Except(';'));
    if t.len() > 0 {
        assert(t[0] == s[run_len(s, CharClass::Separator) as int]);
        assert(CharClass::Except(';').contains(t[0]));
    }
}

/// Recovery: an item that does not parse gives no request, and what follows
/// its text, from the next semicolon on, is read as if it stood alone.
pub proof fn lemma_failed_item_only(s: Seq<char>)
    requires
        s.len() > 0,
        !CharClass::Separator.contains(s[0]),
        item_spec(s) is Err,
    ensures
        parse_spec(s) == parse_spec(s.skip(run_len(s, CharClass::Except(';')) as int)),
{
    lemma_run_len_unique(s, CharClass::Separator, 0);
    assert(s.skip(0) =~= s);
}

/// The first request leaves a suffix of the line that is shorter than the
/// line, and is well formed.
pub proof fn lemma_next_parsed(s: Seq<char>)
    requires
        next_spec(s) is Some,
    ensures
        next_spec(s)->Some_0.0.well_formed(),
        is_suffix(next_spec(s)->Some_0.1, s),
        next_spec(s)->Some_0.1.len() < s.len(),
    decreases s.len(),
{
    let k = run_len(s, CharClass::Separator) as int;
    let t = s.skip(k);
    lemma_run_len(s, CharClass::Separator);
    let rest = next_spec(s)->Some_0.1;
    match item_spec(t) {
        Ok(found) => {
            lemma_item_parsed(t);
            assert(rest =~= s.skip(s.len() - rest.len()));
        },
        Err(_) => {
            lemma_failed_item_skipped(s);
            let u = t.skip(run_len(t, CharClass::Except(';')) as int);
            lemma_next_parsed(u);
            assert(rest =~= s.skip(s.len() - rest.len()));
        },
    }
}

/// All the requests of a line, in the order in which they stand in it.
pub open spec fn parse_spec(s: Seq<char>) -> Seq<TaskView>
    decreases s.len(),
{
    match next_spec(s) {
        Some((task, rest)) => {
            proof {
                lemma_next_parsed(s);
            }
            seq![task] + parse_spec(rest)
        },
        None => Seq::empty(),
    }
}

/// The views of a vector of requests.
pub open spec fn task_views(v: Seq<ParsedTask>) -> Seq<TaskView> {
    Seq::new(v.len(), |i: int| v[i]@)
}

/// A cursor over the requests of a line. It moves forward only: each call of
/// `next` consumes the text of the request that it gives.
pub struct InputIterator<'a> {
    input: &'a str,
}

impl<'a> View for InputIterator<'a> {
    type V = Seq<char>;

    /// The text that has not been consumed yet.
    closed spec fn view(&self) -> Seq<char> {
        self.input@
    }
}

impl<'a> InputIterator<'a> {
    /// A cursor at the start of `input`.
    pub fn new(input: &'a str) -> (it: Self)
        ensures
            it@ == input@,
    {
        Self { input }
    }

    /// The next request of the line, or `None` when none is left; then the
    /// whole text has been consumed.
    pub fn next(&mut self) -> (r: Option<ParsedTask<'a>>)
        ensures
            match next_spec(old(self)@) {
                Some((task, rest)) => r is Some && r->0@ == task && final(self)@ == rest,
                None => r is None && final(self)@.len() == 0,
            },
    {
        let ghost line = self@;
        loop
            invariant
                line == old(self)@,
                next_spec(line) == next_spec(self@),
            decreases self@.len(),
        {
            let ghost s = self@;
            let len = self.input.unicode_len();
            let start = scan(self.input, len, 0, CharClass::Separator);
            assert(s.skip(0) =~= s);
            let trimmed = self.input.substring_char(start, len);
            assert(trimmed@ =~= s.skip(start as int));
            if start == len {
                self.input = trimmed;
                return None;
            }
            match parse_item(trimmed) {
                Ok((rest, task)) => {
                    self.input = rest;
                    return Some(task);
                },
                Err(_) => {
                    let width = len - start;
                    let end = scan(trimmed, width, 0, CharClass::Except(';'));
                    assert(trimmed@.skip(0) =~= trimmed@);
                    proof {
                        lemma_failed_item_skipped(s);
                    }
                    let after = trimmed.substring_char(end, width);
                    assert(after@ =~= trimmed@.skip(end as int));
                    self.input = after;
                },
            }
        }
    }

    /// All the requests that are left, in order.
    pub fn collect(self) -> (tasks: Vec<ParsedTask<'a>>)
        ensures
            task_views(tasks@) == parse_spec(self@),
    {
        let mut it = self;
        let mut tasks: Vec<ParsedTask<'a>> = Vec::new();
        assert(task_views(tasks@) =~= Seq::<TaskView>::empty());
        loop
            invariant
                parse_spec(self@) == task_views(tasks@) + parse_spec(it@),
            decreases it@.len(),
        {
            let ghost before = it@;
            let ghost seen = task_views(tasks@);
            proof {
                if next_spec(before) is Some {
                    lemma_next_parsed(before);
                }
            }
            match it.next() {
                Some(task) => {
                    let ghost v = task@;
                    tasks.push(task);
                    proof {
                        assert(task_views(tasks@) =~= seen + seq![v]);
                        assert(seen + (seq![v] + parse_spec(it@)) =~= (seen + seq![v])
                            + parse_spec(it@));
                    }
                },
                None => {
                    assert(seen + Seq::<TaskView>::empty() =~= seen);
                    return tasks;
                },
            }
        }
    }
}

} // verus!
