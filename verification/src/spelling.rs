//! How a request is written down as text, and the proof that the grammar
//! reads back what was written: nothing is dropped and nothing changes
//! place.

use crate::parser::{
    arg_spec, args_spec, digit_value, digits_value, item_spec, lemma_failed_item_skipped,
    lemma_item_parsed, lemma_next_parsed, next_spec, parse_spec, prepend, quoted_spec,
    ParseError,
    TaskView,
};
use crate::scan::{is_digit, is_quote, is_separator, lemma_run_len, lemma_run_len_unique, run_len, CharClass};
use vstd::prelude::*;

verus! {

/// The character that stands for a number below ten.
pub open spec fn digit_char(d: nat) -> char {
    ('0' as u32 + d) as char
}

/// A number in decimal, without leading zeros.
pub open spec fn decimal(n: nat) -> Seq<char>
    decreases n,
{
    if n < 10 {
        seq![digit_char(n)]
    } else {
        decimal(n / 10).push(digit_char(n % 10))
    }
}

/// Whether text is made of decimal digits, and of at least one.
pub open spec fn is_number(s: Seq<char>) -> bool {
    s.len() > 0 && forall|i: int| 0 <= i < s.len() ==> is_digit(#[trigger] s[i])
}

/// Whether text can stand as a bare token: it is not empty and holds no
/// space, tab or semicolon.
pub open spec fn is_token(s: Seq<char>) -> bool {
    s.len() > 0 && forall|i: int| 0 <= i < s.len() ==> !is_separator(#[trigger] s[i])
}

/// Whether text can be written as a command: a bare token that does not
/// begin with a digit.
pub open spec fn is_command(s: Seq<char>) -> bool {
    is_token(s) && !is_digit(s[0])
}

/// Whether an argument can be written without quotes: a bare token that does
/// not begin with a quote.
pub open spec fn is_bare(a: Seq<char>) -> bool {
    is_token(a) && !is_quote(a[0])
}

/// Whether the character `q` occurs nowhere in `a`.
pub open spec fn lacks(a: Seq<char>, q: char) -> bool {
    forall|i: int| 0 <= i < a.len() ==> #[trigger] a[i] != q
}

/// Whether an argument can be written at all: bare, or between quotes of a
/// kind that it does not hold.
pub open spec fn is_writable(a: Seq<char>) -> bool {
    is_bare(a) || lacks(a, '\'') || lacks(a, '"')
}

/// An argument as text: bare where that is possible, else between single
/// quotes, else between double quotes.
pub open spec fn spell_arg(a: Seq<char>) -> Seq<char> {
    if is_bare(a) {
        a
    } else if lacks(a, '\'') {
        seq!['\''] + a + seq!['\'']
    } else {
        seq!['"'] + a + seq!['"']
    }
}

/// The arguments of a request as text: each after one space.
pub open spec fn spell_args(args: Seq<Seq<char>>) -> Seq<char>
    decreases args.len(),
{
    if args.len() == 0 {
        Seq::empty()
    } else {
        seq![' '] + spell_arg(args[0]) + spell_args(args.skip(1))
    }
}

/// Whether a request can be written down: it holds an index or else a
/// command that can be written, and arguments that can be written.
pub open spec fn is_spellable(request: TaskView) -> bool {
    &&& request.well_formed()
    &&& request.command is Some ==> is_command(request.command->0)
    &&& forall|i: int| 0 <= i < request.args.len() ==> is_writable(#[trigger] request.args[i])
}

/// The index or the command of a request as text.
pub open spec fn spell_head(request: TaskView) -> Seq<char> {
    match request.index {
        Some(index) => decimal(index as nat),
        None => request.command->0,
    }
}

/// A request as text.
pub open spec fn spell(request: TaskView) -> Seq<char> {
    spell_head(request) + spell_args(request.args)
}

/// A sequence of requests as one line: each followed by a semicolon.
pub open spec fn spell_line(requests: Seq<TaskView>) -> Seq<char>
    decreases requests.len(),
{
    if requests.len() == 0 {
        Seq::empty()
    } else {
        spell(requests[0]) + seq![';'] + spell_line(requests.skip(1))
    }
}

/// Whether a token that stands before `rest` ends there: nothing follows,
/// or a space, a tab or a semicolon.
pub open spec fn ends_token(rest: Seq<char>) -> bool {
    rest.len() == 0 || is_separator(rest[0])
}

/// Text of one class, followed by nothing or by a character that is not of
/// it, is a run of that class.
pub proof fn lemma_run_of_prefix(a: Seq<char>, rest: Seq<char>, class: CharClass)
    requires
        forall|i: int| 0 <= i < a.len() ==> class.contains(#[trigger] a[i]),
        rest.len() == 0 || !class.contains(rest[0]),
    ensures
        run_len(a + rest, class) == a.len(),
        (a + rest).take(a.len() as int) == a,
        (a + rest).skip(a.len() as int) == rest,
{
    let s = a + rest;
    assert forall|i: int| 0 <= i < a.len() implies class.contains(#[trigger] s[i]) by {
        assert(s[i] == a[i]);
    }
    if a.len() < s.len() {
        assert(s[a.len() as int] == rest[0]);
    }
    lemma_run_len_unique(s, class, a.len());
    assert(s.take(a.len() as int) =~= a);
    assert(s.skip(a.len() as int) =~= rest);
}

/// The decimal form of a number is a number, and spells it.
pub proof fn lemma_decimal(n: nat)
    ensures
        is_number(decimal(n)),
        digits_value(decimal(n)) == n,
    decreases n,
{
    if n < 10 {
        let s = seq![digit_char(n)];
        assert(s.drop_last() =~= Seq::<char>::empty());
        assert(digits_value(s.drop_last()) == 0);
        assert(s.last() == digit_char(n));
        assert(digit_value(digit_char(n)) == n);
        assert(is_digit(s[0]));
    } else {
        lemma_decimal(n / 10);
        let init = decimal(n / 10);
        let s = init.push(digit_char(n % 10));
        assert(s.drop_last() =~= init);
        assert(s.last() == digit_char(n % 10));
        assert(digit_value(digit_char(n % 10)) == n % 10);
        assert(is_digit(digit_char(n % 10)));
        assert forall|i: int| 0 <= i < s.len() implies is_digit(#[trigger] s[i]) by {
            if i < init.len() {
                assert(s[i] == init[i]);
            }
        }
    }
}

/// The text of arguments is empty or begins with a space.
pub proof fn lemma_spell_args_start(args: Seq<Seq<char>>, tail: Seq<char>)
    requires
        ends_token(tail),
    ensures
        ends_token(spell_args(args) + tail),
{
    if args.len() == 0 {
        assert(spell_args(args) + tail =~= tail);
    } else {
        assert((spell_args(args) + tail)[0] == ' ');
    }
}

/// A bare argument after one space is read as it stands, and reading goes
/// on behind it.
pub proof fn lemma_bare_step(a: Seq<char>, rest: Seq<char>)
    requires
        is_bare(a),
        ends_token(rest),
    ensures
        args_spec(seq![' '] + a + rest) == prepend(seq![a], args_spec(rest)),
{
    let t = a + rest;
    let s = seq![' '] + a + rest;
    assert(s =~= seq![' '] + t);
    assert(t[0] == a[0]);
    lemma_run_of_prefix(seq![' '], t, CharClass::Blank);
    assert(run_len(s, CharClass::Blank) == 1);
    assert(s.skip(1) == t);
    lemma_run_of_prefix(a, rest, CharClass::Word);
    assert(arg_spec(t) == Some((a, rest)));
}

/// An argument between quotes of a kind that it does not hold, after one
/// space, is read without the quotes, and reading goes on behind it.
pub proof fn lemma_quoted_step(a: Seq<char>, q: char, rest: Seq<char>)
    requires
        is_quote(q),
        lacks(a, q),
    ensures
        args_spec(seq![' '] + (seq![q] + a + seq![q]) + rest) == prepend(
            seq![a],
            args_spec(rest),
        ),
{
    let t = seq![q] + a + seq![q] + rest;
    let s = seq![' '] + (seq![q] + a + seq![q]) + rest;
    assert(s =~= seq![' '] + t);
    assert(t[0] == q);
    lemma_run_of_prefix(seq![' '], t, CharClass::Blank);
    assert(run_len(s, CharClass::Blank) == 1);
    assert(s.skip(1) == t);
    let inner = seq![q] + rest;
    assert(t.skip(1) =~= a + inner);
    assert(inner[0] == q);
    lemma_run_of_prefix(a, inner, CharClass::Except(q));
    assert(run_len(t.skip(1), CharClass::Except(q)) == a.len());
    assert(t.subrange(1, 1 + a.len() as int) =~= a);
    assert(t.skip(a.len() as int + 2) =~= rest);
    assert(quoted_spec(t) == Ok::<(Seq<char>, Seq<char>), ParseError>((a, rest)));
}

/// An argument that is written down after one space is read back as it
/// was, and reading goes on behind it.
pub proof fn lemma_arg_step(a: Seq<char>, rest: Seq<char>)
    requires
        is_writable(a),
        ends_token(rest),
    ensures
        args_spec(seq![' '] + spell_arg(a) + rest) == prepend(seq![a], args_spec(rest)),
{
    if is_bare(a) {
        lemma_bare_step(a, rest);
    } else if lacks(a, '\'') {
        lemma_quoted_step(a, '\'', rest);
    } else {
        lemma_quoted_step(a, '"', rest);
    }
}

/// Arguments that are written down and followed by the end of the item are
/// read back as they were.
pub proof fn lemma_args_round_trip(args: Seq<Seq<char>>, tail: Seq<char>)
    requires
        forall|i: int| 0 <= i < args.len() ==> is_writable(#[trigger] args[i]),
        tail.len() == 0 || tail[0] == ';',
    ensures
        args_spec(spell_args(args) + tail) == Ok::<(Seq<Seq<char>>, Seq<char>), ParseError>(
            (args, tail),
        ),
    decreases args.len(),
{
    let s = spell_args(args) + tail;
    if args.len() == 0 {
        assert(s =~= tail);
        lemma_run_len_unique(s, CharClass::Blank, 0);
        assert(s.skip(0) =~= s);
        assert(args =~= Seq::<Seq<char>>::empty());
    } else {
        let a = args[0];
        let others = args.skip(1);
        let rest = spell_args(others) + tail;
        assert forall|i: int| 0 <= i < others.len() implies is_writable(#[trigger] others[i]) by {
            assert(others[i] == args[i + 1]);
        }
        lemma_args_round_trip(others, tail);
        lemma_spell_args_start(others, tail);
        lemma_arg_step(a, rest);
        assert(s =~= seq![' '] + spell_arg(a) + rest);
        assert(seq![a] + others =~= args);
    }
}

/// A number that fits an index, followed by arguments and the end of the
/// item, is read as that index with those arguments.
pub proof fn lemma_index_item(digits: Seq<char>, args: Seq<Seq<char>>, tail: Seq<char>)
    requires
        is_number(digits),
        digits_value(digits) <= usize::MAX,
        forall|i: int| 0 <= i < args.len() ==> is_writable(#[trigger] args[i]),
        tail.len() == 0 || tail[0] == ';',
    ensures
        item_spec(digits + spell_args(args) + tail) == Ok::<(TaskView, Seq<char>), ParseError>(
            (
                TaskView { index: Some(digits_value(digits) as usize), command: None, args },
                tail,
            ),
        ),
{
    let rest = spell_args(args) + tail;
    let s = digits + spell_args(args) + tail;
    assert(s =~= digits + rest);
    assert(s[0] == digits[0]);
    lemma_run_len_unique(s, CharClass::Blank, 0);
    assert(s.skip(0) =~= s);
    lemma_spell_args_start(args, tail);
    lemma_run_of_prefix(digits, rest, CharClass::Digit);
    lemma_args_round_trip(args, tail);
}

/// A command, followed by arguments and the end of the item, is read as
/// that command with those arguments.
pub proof fn lemma_command_item(command: Seq<char>, args: Seq<Seq<char>>, tail: Seq<char>)
    requires
        is_command(command),
        forall|i: int| 0 <= i < args.len() ==> is_writable(#[trigger] args[i]),
        tail.len() == 0 || tail[0] == ';',
    ensures
        item_spec(command + spell_args(args) + tail) == Ok::<(TaskView, Seq<char>), ParseError>(
            (TaskView { index: None, command: Some(command), args }, tail),
        ),
{
    let rest = spell_args(args) + tail;
    let s = command + spell_args(args) + tail;
    assert(s =~= command + rest);
    assert(s[0] == command[0]);
    lemma_run_len_unique(s, CharClass::Blank, 0);
    assert(s.skip(0) =~= s);
    lemma_run_len_unique(s, CharClass::Digit, 0);
    lemma_spell_args_start(args, tail);
    lemma_run_of_prefix(command, rest, CharClass::Word);
    lemma_args_round_trip(args, tail);
}

/// A request that is written down and followed by the end of the item is
/// read back as it was, and the text after it is left over.
pub proof fn lemma_item_round_trip(request: TaskView, tail: Seq<char>)
    requires
        is_spellable(request),
        tail.len() == 0 || tail[0] == ';',
    ensures
        item_spec(spell(request) + tail) == Ok::<(TaskView, Seq<char>), ParseError>((request, tail)),
        next_spec(spell(request) + tail) == Some((request, tail)),
{
    let s = spell(request) + tail;
    match request.index {
        Some(index) => {
            lemma_decimal(index as nat);
            lemma_index_item(decimal(index as nat), request.args, tail);
        },
        None => {
            lemma_command_item(request.command->0, request.args, tail);
        },
    }
    let head = spell_head(request);
    assert(s =~= head + spell_args(request.args) + tail);
    assert(s[0] == head[0]);
    assert(!is_separator(head[0]));
    lemma_run_len_unique(s, CharClass::Separator, 0);
    assert(s.skip(0) =~= s);
}

/// A semicolon in front of a line changes nothing of what the line says.
pub proof fn lemma_leading_semicolon(line: Seq<char>)
    ensures
        next_spec(seq![';'] + line) == next_spec(line),
        parse_spec(seq![';'] + line) == parse_spec(line),
{
    let s = seq![';'] + line;
    assert(s.skip(1) =~= line);
    lemma_run_len(line, CharClass::Separator);
    assert(s.skip(1 + run_len(line, CharClass::Separator) as int) =~= line.skip(
        run_len(line, CharClass::Separator) as int,
    ));
}

/// Round trip: requests that are written down as a line are read back as
/// they were, each of them and in the same order.
pub proof fn lemma_spell_round_trip(requests: Seq<TaskView>)
    requires
        forall|i: int| 0 <= i < requests.len() ==> is_spellable(#[trigger] requests[i]),
    ensures
        parse_spec(spell_line(requests)) == requests,
    decreases requests.len(),
{
    if requests.len() == 0 {
        let s = spell_line(requests);
        lemma_run_len_unique(s, CharClass::Separator, 0);
        assert(s.skip(0) =~= s);
        assert(parse_spec(s) =~= requests);
    } else {
        let first = requests[0];
        let others = requests.skip(1);
        let tail = seq![';'] + spell_line(others);
        assert forall|i: int| 0 <= i < others.len() implies is_spellable(#[trigger] others[i]) by {
            assert(others[i] == requests[i + 1]);
        }
        assert(spell_line(requests) =~= spell(first) + tail);
        lemma_item_round_trip(first, tail);
        lemma_leading_semicolon(spell_line(others));
        lemma_spell_round_trip(others);
        assert(seq![first] + others =~= requests);
    }
}

/// The arguments that the grammar reads can all be written down.
pub proof fn lemma_args_writable(s: Seq<char>)
    requires
        args_spec(s) is Ok,
    ensures
        forall|i: int|
            0 <= i < args_spec(s)->Ok_0.0.len() ==> is_writable(#[trigger] args_spec(s)->Ok_0.0[i]),
    decreases s.len(),
{
    let b = run_len(s, CharClass::Blank) as int;
    let t = s.skip(b);
    lemma_run_len(s, CharClass::Blank);
    let args = args_spec(s)->Ok_0.0;
    if b == 0 || t.len() == 0 || t[0] == ';' {
    } else if is_quote(t[0]) {
        let q = t[0];
        let n = run_len(t.skip(1), CharClass::Except(q)) as int;
        lemma_run_len(t.skip(1), CharClass::Except(q));
        let content = t.subrange(1, 1 + n);
        let rest = t.skip(n + 2);
        assert forall|i: int| 0 <= i < content.len() implies #[trigger] content[i] != q by {
            assert(content[i] == t.skip(1)[i]);
            assert(CharClass::Except(q).contains(t.skip(1)[i]));
        }
        assert(is_writable(content));
        lemma_args_writable(rest);
        let more = args_spec(rest)->Ok_0.0;
        assert(args == seq![content] + more);
        assert forall|i: int| 0 <= i < args.len() implies is_writable(#[trigger] args[i]) by {
            if i > 0 {
                assert(args[i] == more[i - 1]);
            }
        }
    } else {
        let n = run_len(t, CharClass::Word) as int;
        lemma_run_len(t, CharClass::Word);
        let token = t.take(n);
        let rest = t.skip(n);
        assert forall|i: int| 0 <= i < token.len() implies !is_separator(#[trigger] token[i]) by {
            assert(token[i] == t[i]);
            assert(CharClass::Word.contains(t[i]));
        }
        assert(token[0] == t[0]);
        assert(is_bare(token));
        lemma_args_writable(rest);
        let more = args_spec(rest)->Ok_0.0;
        assert(args == seq![token] + more);
        assert forall|i: int| 0 <= i < args.len() implies is_writable(#[trigger] args[i]) by {
            if i > 0 {
                assert(args[i] == more[i - 1]);
            }
        }
    }
}

/// The request that the grammar reads from an item can be written down.
pub proof fn lemma_item_spellable(s: Seq<char>)
    requires
        item_spec(s) is Ok,
    ensures
        is_spellable(item_spec(s)->Ok_0.0),
{
    lemma_item_parsed(s);
    let t = s.skip(run_len(s, CharClass::Blank) as int);
    let d = run_len(t, CharClass::Digit) as int;
    if d > 0 {
        lemma_args_writable(t.skip(d));
    } else {
        lemma_args_writable(t.skip(run_len(t, CharClass::Word) as int));
    }
}

/// The first request that the grammar reads from a line can be written
/// down.
pub proof fn lemma_next_spellable(s: Seq<char>)
    requires
        next_spec(s) is Some,
    ensures
        is_spellable(next_spec(s)->Some_0.0),
    decreases s.len(),
{
    let t = s.skip(run_len(s, CharClass::Separator) as int);
    match item_spec(t) {
        Ok(_) => {
            lemma_item_spellable(t);
        },
        Err(_) => {
            lemma_failed_item_skipped(s);
            lemma_next_spellable(t.skip(run_len(t, CharClass::Except(';')) as int));
        },
    }
}

/// Every request that the grammar reads from a line can be written down: it
/// holds an index or a command and never both, and a command never begins
/// with a digit.
pub proof fn lemma_parsed_spellable(s: Seq<char>)
    ensures
        forall|i: int| 0 <= i < parse_spec(s).len() ==> is_spellable(#[trigger] parse_spec(s)[i]),
    decreases s.len(),
{
    if let Some((task, rest)) = next_spec(s) {
        lemma_next_parsed(s);
        lemma_next_spellable(s);
        lemma_parsed_spellable(rest);
        let all = parse_spec(s);
        let more = parse_spec(rest);
        assert(all == seq![task] + more);
        assert forall|i: int| 0 <= i < all.len() implies is_spellable(#[trigger] all[i]) by {
            if i > 0 {
                assert(all[i] == more[i - 1]);
            }
        }
    }
}

/// What the grammar reads from a line, written down again and read again,
/// is the same requests: reading keeps all that matters of a line.
pub proof fn lemma_parse_respelled(s: Seq<char>)
    ensures
        parse_spec(spell_line(parse_spec(s))) == parse_spec(s),
{
    lemma_parsed_spellable(s);
    lemma_spell_round_trip(parse_spec(s));
}

/// Text made of digits alone is read as an index and never as a command of
/// that name.
pub proof fn lemma_number_is_index(digits: Seq<char>)
    requires
        is_number(digits),
        digits_value(digits) <= usize::MAX,
    ensures
        parse_spec(digits) == seq![
            TaskView {
                index: Some(digits_value(digits) as usize),
                command: None,
                args: Seq::empty(),
            },
        ],
{
    let none = Seq::<Seq<char>>::empty();
    let end = Seq::<char>::empty();
    let request = TaskView {
        index: Some(digits_value(digits) as usize),
        command: None,
        args: none,
    };
    lemma_index_item(digits, none, end);
    assert(digits + spell_args(none) + end =~= digits);
    lemma_run_len_unique(digits, CharClass::Separator, 0);
    assert(digits.skip(0) =~= digits);
    assert(next_spec(digits) == Some((request, end)));
    lemma_run_len_unique(end, CharClass::Separator, 0);
    assert(end.skip(0) =~= end);
    assert(parse_spec(end) =~= Seq::<TaskView>::empty());
    assert(seq![request] + Seq::<TaskView>::empty() =~= seq![request]);
}

} // verus!
