//! Character classes of the command grammar and maximal runs over them.

use vstd::prelude::*;
use vstd::string::StrSliceExecFns;

verus! {

/// The sets of characters that the grammar tells apart.
#[derive(Clone, Copy, Debug)]
pub enum CharClass {
    /// A space or a tab.
    Blank,
    /// A space, a tab or a semicolon: what may stand between two items.
    Separator,
    /// A decimal digit, `0` to `9`.
    Digit,
    /// Anything but a space, a tab or a semicolon: what a bare token is made of.
    Word,
    /// Anything but the given character.
    Except(char),
}

pub open spec fn is_blank(c: char) -> bool {
    c == ' ' || c == '\t'
}

pub open spec fn is_separator(c: char) -> bool {
    is_blank(c) || c == ';'
}

pub open spec fn is_digit(c: char) -> bool {
    '0' <= c && c <= '9'
}

pub open spec fn is_quote(c: char) -> bool {
    c == '\'' || c == '"'
}

impl CharClass {
    /// Whether `c` belongs to the class.
    pub open spec fn contains(self, c: char) -> bool {
        match self {
            CharClass::Blank => is_blank(c),
            CharClass::Separator => is_separator(c),
            CharClass::Digit => is_digit(c),
            CharClass::Word => !is_separator(c),
            CharClass::Except(x) => c != x,
        }
    }

    /// Whether `c` belongs to the class.
    pub fn has(&self, c: char) -> (b: bool)
        ensures
            b == self.contains(c),
    {
        match self {
            CharClass::Blank => c == ' ' || c == '\t',
            CharClass::Separator => c == ' ' || c == '\t' || c == ';',
            CharClass::Digit => '0' <= c && c <= '9',
            CharClass::Word => !(c == ' ' || c == '\t' || c == ';'),
            CharClass::Except(x) => c != *x,
        }
    }
}

/// The length of the longest prefix of `s` made of characters of `class`.
pub open spec fn run_len(s: Seq<char>, class: CharClass) -> nat
    decreases s.len(),
{
    if s.len() > 0 && class.contains(s[0]) {
        1 + run_len(s.skip(1), class)
    } else {
        0
    }
}

/// A run is a prefix: all of it is in the class, and what follows it, if
/// anything, is not.
pub proof fn lemma_run_len(s: Seq<char>, class: CharClass)
    ensures
        run_len(s, class) <= s.len(),
        forall|i: int| 0 <= i < run_len(s, class) ==> class.contains(#[trigger] s[i]),
        run_len(s, class) < s.len() ==> !class.contains(s[run_len(s, class) as int]),
    decreases s.len(),
{
    if s.len() > 0 && class.contains(s[0]) {
        let t = s.skip(1);
        lemma_run_len(t, class);
        assert forall|i: int| 0 <= i < run_len(s, class) implies class.contains(
            #[trigger] s[i],
        ) by {
            if i > 0 {
                assert(s[i] == t[i - 1]);
            }
        }
        if run_len(s, class) < s.len() {
            assert(s[run_len(s, class) as int] == t[run_len(t, class) as int]);
        }
    }
}

/// The only prefix length with the two properties of a run is the run's.
pub proof fn lemma_run_len_unique(s: Seq<char>, class: CharClass, n: nat)
    requires
        n <= s.len(),
        forall|i: int| 0 <= i < n ==> class.contains(#[trigger] s[i]),
        n < s.len() ==> !class.contains(s[n as int]),
    ensures
        run_len(s, class) == n,
    decreases s.len(),
{
    if n > 0 {
        let t = s.skip(1);
        assert(class.contains(s[0]));
        assert forall|i: int| 0 <= i < n - 1 implies class.contains(#[trigger] t[i]) by {
            assert(t[i] == s[i + 1]);
        }
        if n - 1 < t.len() {
            assert(t[n - 1] == s[n as int]);
        }
        lemma_run_len_unique(t, class, (n - 1) as nat);
    }
}

/// The end of the run of `class` that starts at position `from` of `text`,
/// where `len` is the number of characters of `text`.
pub fn scan(text: &str, len: usize, from: usize, class: CharClass) -> (end: usize)
    requires
        len == text@.len(),
        from <= len,
    ensures
        from <= end <= len,
        end == from + run_len(text@.skip(from as int), class),
{
    let mut end: usize = from;
    while end < len && class.has(text.get_char(end))
        invariant
            len == text@.len(),
            from <= end <= len,
            run_len(text@.skip(from as int), class) == (end - from) + run_len(
                text@.skip(end as int),
                class,
            ),
        decreases len - end,
    {
        proof {
            let t = text@.skip(end as int);
            assert(t[0] == text@[end as int]);
            assert(t.skip(1) =~= text@.skip(end + 1));
        }
        end = end + 1;
    }
    proof {
        let t = text@.skip(end as int);
        if end < len {
            assert(t[0] == text@[end as int]);
        }
    }
    end
}

} // verus!
