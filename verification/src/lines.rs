//! Pairing the lines of two inputs for a line-by-line comparison.

use crate::difflib::chars_of;
use vstd::prelude::*;
use vstd::string::*;

verus! {

/// The characters that end a line.
pub open spec fn is_line_end(c: char) -> bool {
    c == '\n' || c == '\r'
}

/// `s` without the line-end characters at its start.
pub open spec fn trim_start(s: Seq<char>) -> Seq<char>
    decreases s.len(),
{
    if s.len() > 0 && is_line_end(s[0]) {
        trim_start(s.drop_first())
    } else {
        s
    }
}

/// `s` without the line-end characters at its end.
pub open spec fn trim_end(s: Seq<char>) -> Seq<char>
    decreases s.len(),
{
    if s.len() > 0 && is_line_end(s.last()) {
        trim_end(s.drop_last())
    } else {
        s
    }
}

/// `s` without the line-end characters at its start and at its end; those
/// inside stay.
pub open spec fn trimmed(s: Seq<char>) -> Seq<char> {
    trim_end(trim_start(s))
}

/// Strips the line-end characters from both ends of a line.
pub fn trim_newline(text: &str) -> (line: &str)
    ensures
        line@ == trimmed(text@),
{
    let chars = chars_of(text);
    let len = chars.len();
    let mut from: usize = 0;
    assert(chars@.subrange(0, len as int) =~= chars@);
    while from < len && (chars[from] == '\n' || chars[from] == '\r')
        invariant
            from <= len,
            len == chars@.len(),
            trim_start(chars@) == trim_start(chars@.subrange(from as int, len as int)),
        decreases len - from,
    {
        assert(chars@.subrange(from as int, len as int).drop_first() =~= chars@.subrange(
            from + 1,
            len as int,
        ));
        from = from + 1;
    }
    let ghost rest = chars@.subrange(from as int, len as int);
    let mut to: usize = len;
    while to > from && (chars[to - 1] == '\n' || chars[to - 1] == '\r')
        invariant
            from <= to <= len,
            len == chars@.len(),
            rest == chars@.subrange(from as int, len as int),
            trim_end(rest) == trim_end(chars@.subrange(from as int, to as int)),
        decreases to - from,
    {
        assert(chars@.subrange(from as int, to as int).drop_last() =~= chars@.subrange(
            from as int,
            to - 1,
        ));
        to = to - 1;
    }
    text.substring_char(from, to)
}

/// The texts to compare on one line of a comparison of two inputs, given
/// the line that each input still has.
///
/// While both inputs have a line, the two lines are compared. Once one
/// input has ended, what the other still has is compared with the empty
/// text. There is nothing to compare once both have ended.
pub open spec fn paired(old_line: Option<Seq<char>>, new_line: Option<Seq<char>>) -> Option<
    (Seq<char>, Seq<char>),
> {
    match (old_line, new_line) {
        (Some(a), Some(b)) => Some((trimmed(a), trimmed(b))),
        (Some(a), None) => Some((trimmed(a), Seq::empty())),
        (None, Some(b)) => Some((Seq::empty(), trimmed(b))),
        (None, None) => None,
    }
}

/// The view of a line that may be missing.
pub open spec fn line_view(line: Option<&str>) -> Option<Seq<char>> {
    match line {
        Some(text) => Some(text@),
        None => None,
    }
}

/// Chooses the texts to compare on one line, with the line ends stripped.
pub fn line_pair<'a>(old_line: Option<&'a str>, new_line: Option<&'a str>) -> (pair: Option<
    (&'a str, &'a str),
>)
    ensures
        match paired(line_view(old_line), line_view(new_line)) {
            Some((a, b)) => pair matches Some((x, y)) && x@ == a && y@ == b,
            None => pair is None,
        },
{
    proof {
        reveal_strlit("");
    }
    match (old_line, new_line) {
        (Some(a), Some(b)) => Some((trim_newline(a), trim_newline(b))),
        (Some(a), None) => {
            let kept = trim_newline(a);
            assert(""@ =~= Seq::<char>::empty());
            Some((kept, ""))
        },
        (None, Some(b)) => {
            let kept = trim_newline(b);
            assert(""@ =~= Seq::<char>::empty());
            Some(("", kept))
        },
        (None, None) => None,
    }
}

} // verus!
