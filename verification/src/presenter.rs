//! Renders the records of a comparison as annotated text: the old line, a
//! line of `|` markers under the changed characters, and a line that shows
//! the change.
//!
//! The presenter produces text only. Each piece of text is meant to be
//! handed to an output as it is, in order.

use crate::difflib::{DiffCell, DiffOperation};
use vstd::prelude::*;
use vstd::string::*;
use vstd::utf8::encode_utf8;

verus! {

/// The character `ch`, `n` times.
pub open spec fn repeated(ch: char, n: nat) -> Seq<char> {
    Seq::new(n, |i: int| ch)
}

/// Builds a text of `n` copies of the one character that `piece` holds.
fn repeat(piece: &str, n: usize) -> (text: String)
    requires
        piece@.len() == 1,
    ensures
        text@ == repeated(piece@[0], n as nat),
{
    let mut text = String::new();
    let mut k: usize = 0;
    while k < n
        invariant
            k <= n,
            piece@.len() == 1,
            text@ == repeated(piece@[0], k as nat),
        decreases n - k,
    {
        text.append(piece);
        k = k + 1;
        assert(text@ =~= repeated(piece@[0], k as nat));
    }
    text
}

/// The number of bytes that `text` takes when encoded as UTF-8.
pub open spec fn byte_len(text: Seq<char>) -> nat {
    encode_utf8(text).len()
}

/// Counts the bytes of a text.
fn byte_count(text: &str) -> (n: usize)
    ensures
        n == byte_len(text@),
{
    text.as_bytes().len()
}

/// The part of `text` that starts `start` characters in and is at most
/// `count` characters long; shorter, or empty, where the text ends earlier.
pub open spec fn shown(text: Seq<char>, start: nat, count: nat) -> Seq<char> {
    let from = if start <= text.len() {
        start
    } else {
        text.len()
    };
    let to = if count <= text.len() - from {
        from + count
    } else {
        text.len()
    };
    text.subrange(from as int, to as int)
}

/// Cuts the part of `text` that a record covers.
fn cut<'a>(text: &'a str, start: usize, count: usize) -> (part: &'a str)
    ensures
        part@ == shown(text@, start as nat, count as nat),
{
    let len = text.unicode_len();
    let from = if start <= len {
        start
    } else {
        len
    };
    let to = if count <= len - from {
        from + count
    } else {
        len
    };
    text.substring_char(from, to)
}

/// The decimal digit `d` as a character.
pub open spec fn digit(d: nat) -> char {
    seq!['0', '1', '2', '3', '4', '5', '6', '7', '8', '9'][d as int]
}

/// The decimal numeral of `n`, without leading zeros.
pub open spec fn decimal(n: nat) -> Seq<char>
    decreases n,
{
    if n < 10 {
        seq![digit(n)]
    } else {
        decimal(n / 10).push(digit(n % 10))
    }
}

/// Writes one decimal digit.
fn digit_text(d: u32) -> (text: &'static str)
    requires
        d < 10,
    ensures
        text@ == seq![digit(d as nat)],
{
    proof {
        reveal_strlit("0");
        reveal_strlit("1");
        reveal_strlit("2");
        reveal_strlit("3");
        reveal_strlit("4");
        reveal_strlit("5");
        reveal_strlit("6");
        reveal_strlit("7");
        reveal_strlit("8");
        reveal_strlit("9");
    }
    let text = if d == 0 {
        "0"
    } else if d == 1 {
        "1"
    } else if d == 2 {
        "2"
    } else if d == 3 {
        "3"
    } else if d == 4 {
        "4"
    } else if d == 5 {
        "5"
    } else if d == 6 {
        "6"
    } else if d == 7 {
        "7"
    } else if d == 8 {
        "8"
    } else {
        "9"
    };
    assert(text@ =~= seq![digit(d as nat)]);
    text
}

/// Writes a number in decimal.
fn decimal_text(n: u32) -> (text: String)
    ensures
        text@ == decimal(n as nat),
    decreases n,
{
    if n < 10 {
        String::from_str(digit_text(n))
    } else {
        let mut text = decimal_text(n / 10);
        text.append(digit_text(n % 10));
        assert(text@ =~= decimal(n as nat));
        text
    }
}

/// The pieces of the banner that names the two texts compared.
pub open spec fn header_text(old_text: Seq<char>, new_text: Seq<char>) -> Seq<Seq<char>> {
    seq![
        "/***********************************************************\n"@,
        "* Difference between : \n"@,
        "* "@ + old_text + " \n"@,
        "* - and - \n"@,
        "* "@ + new_text + " \n"@,
        "***********************************************************/\n"@,
    ]
}

/// The line of markers under a change: `pad` spaces, then one `|` for a
/// change of at most one character, or two `|` that enclose the change.
pub open spec fn marker_line(pad: nat, count: nat) -> Seq<char> {
    if count > 1 {
        repeated(' ', pad) + "|"@ + repeated(' ', (count - 2) as nat) + "|\n"@
    } else {
        repeated(' ', pad) + "|\n"@
    }
}

/// The three pieces that show an insertion: the old text followed by the
/// inserted characters, the markers, and a `+` for each inserted character.
/// Markers and signs are indented by the old text's length in bytes.
pub open spec fn insert_block(old_text: Seq<char>, new_text: Seq<char>, cell: DiffCell) -> Seq<
    Seq<char>,
> {
    seq![
        old_text + shown(new_text, cell.start as nat, cell.count as nat) + "\n"@,
        marker_line(byte_len(old_text), cell.count as nat),
        repeated(' ', byte_len(old_text)) + repeated('+', cell.count as nat) + "\n"@,
    ]
}

/// The three pieces that show a removal: the old text, the markers, and an
/// `x` for each removed character, indented to where the removal starts.
pub open spec fn remove_block(old_text: Seq<char>, cell: DiffCell) -> Seq<Seq<char>> {
    seq![
        old_text + "\n"@,
        marker_line(cell.start as nat, cell.count as nat),
        repeated(' ', cell.start as nat) + repeated('x', cell.count as nat) + "\n"@,
    ]
}

/// The three pieces that show a substitution: the old text, the markers, and
/// the new characters, indented to where the substitution starts.
pub open spec fn update_block(old_text: Seq<char>, new_text: Seq<char>, cell: DiffCell) -> Seq<
    Seq<char>,
> {
    seq![
        old_text + "\n"@,
        marker_line(cell.start as nat, cell.count as nat),
        repeated(' ', cell.start as nat) + shown(new_text, cell.start as nat, cell.count as nat)
            + "\n"@,
    ]
}

/// The pieces that show one record: an empty line, a title with the line
/// number and the operation's tag, and the block of the operation.
pub open spec fn record_block(
    old_text: Seq<char>,
    new_text: Seq<char>,
    line_num: u32,
    cell: DiffCell,
) -> Seq<Seq<char>> {
    seq![
        "\n"@,
        "Line: "@ + decimal(line_num as nat) + ", ==="@ + cell.operation.label() + "===\n"@,
    ] + match cell.operation {
        DiffOperation::Insert => insert_block(old_text, new_text, cell),
        DiffOperation::Remove => remove_block(old_text, cell),
        DiffOperation::Update => update_block(old_text, new_text, cell),
        DiffOperation::Unchanged => Seq::empty(),
    }
}

/// An insertion next to a removal of the same characters at the same place.
pub open spec fn mirrored(prev: DiffCell, next: DiffCell) -> bool {
    &&& (prev.operation == DiffOperation::Insert && next.operation == DiffOperation::Remove)
        || (prev.operation == DiffOperation::Remove && next.operation == DiffOperation::Insert)
    &&& prev.start == next.start
    &&& prev.count == next.count
}

/// Twice the number of places before `upto` at which a record and the next
/// one mirror each other.
pub open spec fn redundant(cells: Seq<DiffCell>, upto: int) -> nat
    decreases upto,
{
    if upto <= 0 {
        0
    } else {
        redundant(cells, upto - 1) + if mirrored(cells[upto - 1], cells[upto]) {
            2nat
        } else {
            0nat
        }
    }
}

/// The index of the first record that is shown: as many leading records are
/// left out as `redundant` counts over the whole list, all of them where it
/// counts more than there are.
pub open spec fn first_shown(cells: Seq<DiffCell>) -> int {
    let skipped = redundant(cells, cells.len() - 1);
    if skipped < cells.len() {
        skipped as int
    } else {
        cells.len() as int
    }
}

/// The presentation of a list of records: the block of each record shown,
/// in the order of the list.
pub open spec fn presentation(
    old_text: Seq<char>,
    new_text: Seq<char>,
    line_num: u32,
    cells: Seq<DiffCell>,
) -> Seq<Seq<Seq<char>>> {
    Seq::new(
        (cells.len() - first_shown(cells)) as nat,
        |k: int| record_block(old_text, new_text, line_num, cells[first_shown(cells) + k]),
    )
}

/// Appends one piece of text to a list of pieces.
fn emit(pieces: &mut Vec<String>, piece: String)
    ensures
        final(pieces).deep_view() == old(pieces).deep_view().push(piece@),
{
    pieces.push(piece);
    assert(pieces.deep_view() =~= old(pieces).deep_view().push(piece@));
}

/// Appends pieces of text to a list of pieces, in their order.
fn emit_all(pieces: &mut Vec<String>, more: Vec<String>)
    ensures
        final(pieces).deep_view() == old(pieces).deep_view() + more.deep_view(),
{
    let mut more = more;
    let ghost added = more.deep_view();
    assert(more@.len() == added.len());
    assert(forall|k: int| 0 <= k < more@.len() ==> more@[k]@ == added[k]);
    pieces.append(&mut more);
    assert(pieces.deep_view() =~= old(pieces).deep_view() + added);
}

/// Writes the line of markers under a change.
fn marker_text(pad: usize, count: usize) -> (line: String)
    ensures
        line@ == marker_line(pad as nat, count as nat),
{
    proof {
        reveal_strlit(" ");
    }
    let mut line = repeat(" ", pad);
    if count > 1 {
        let empty_change = repeat(" ", count - 2);
        line.append("|");
        line.append(empty_change.as_str());
        line.append("|\n");
    } else {
        line.append("|\n");
    }
    line
}

/// Renders comparisons as text.
pub struct DiffPresenter {}

impl DiffPresenter {
    /// A presenter.
    pub fn new() -> (presenter: DiffPresenter) {
        DiffPresenter {  }
    }

    /// Renders the banner that names the two texts compared, as the pieces
    /// to put out in order.
    pub fn header(&self, old_text: &str, new_text: &str) -> (pieces: Vec<String>)
        ensures
            pieces.deep_view() == header_text(old_text@, new_text@),
    {
        let mut pieces: Vec<String> = Vec::new();
        emit(
            &mut pieces,
            String::from_str("/***********************************************************\n"),
        );
        emit(&mut pieces, String::from_str("* Difference between : \n"));
        let mut old_line = String::from_str("* ");
        old_line.append(old_text);
        old_line.append(" \n");
        emit(&mut pieces, old_line);
        emit(&mut pieces, String::from_str("* - and - \n"));
        let mut new_line = String::from_str("* ");
        new_line.append(new_text);
        new_line.append(" \n");
        emit(&mut pieces, new_line);
        emit(
            &mut pieces,
            String::from_str("***********************************************************/\n"),
        );
        assert(pieces.deep_view() =~= header_text(old_text@, new_text@));
        pieces
    }

    /// Counts the records to leave out: two for each record that mirrors the
    /// one after it, up to the largest number that the machine holds.
    fn skip_redundant(&self, vec: &[DiffCell]) -> (count_to_skip: usize)
        requires
            vec@.len() >= 1,
        ensures
            count_to_skip == if redundant(vec@, vec@.len() - 1) <= usize::MAX {
                redundant(vec@, vec@.len() - 1)
            } else {
                usize::MAX as nat
            },
    {
        let mut count_to_skip: usize = 0;
        let mut i: usize = 0;
        while i < vec.len() - 1
            invariant
                vec@.len() >= 1,
                i <= vec@.len() - 1,
                count_to_skip == if redundant(vec@, i as int) <= usize::MAX {
                    redundant(vec@, i as int)
                } else {
                    usize::MAX as nat
                },
            decreases vec@.len() - i,
        {
            let prev = &vec[i];
            let next = &vec[i + 1];

            if (prev.operation == DiffOperation::Insert && next.operation == DiffOperation::Remove)
                || (prev.operation == DiffOperation::Remove && next.operation
                == DiffOperation::Insert) {
                if prev.start == next.start && prev.count == next.count {
                    count_to_skip = count_to_skip.saturating_add(2);
                }
            }
            i = i + 1;
        }
        count_to_skip
    }

    /// Renders the records of one line as text: for each record shown, the
    /// pieces to put out in order. Leading records are left out as
    /// `first_shown` says.
    pub fn present(&self, old_text: &str, new_text: &str, line_num: u32, result: &[DiffCell]) -> (blocks:
        Vec<Vec<String>>)
        ensures
            blocks.deep_view() == presentation(old_text@, new_text@, line_num, result@),
    {
        let mut blocks: Vec<Vec<String>> = Vec::new();
        if result.len() > 0 {
            let red_diff_count = self.skip_redundant(result);
            let first = if red_diff_count < result.len() {
                red_diff_count
            } else {
                result.len()
            };
            let mut k: usize = first;
            while k < result.len()
                invariant
                    first == first_shown(result@),
                    first <= k <= result@.len(),
                    blocks.deep_view() == Seq::new(
                        (k - first) as nat,
                        |n: int| record_block(old_text@, new_text@, line_num, result@[first + n]),
                    ),
                decreases result@.len() - k,
            {
                let diff = &result[k];
                let mut block: Vec<String> = Vec::new();
                emit(&mut block, String::from_str("
"));
                let mut title = String::from_str("Line: ");
                title.append(decimal_text(line_num).as_str());
                title.append(", ===");
                title.append(diff.operation.to_string().as_str());
                title.append("===
");
                emit(&mut block, title);

                if diff.operation == DiffOperation::Insert {
                    emit_all(&mut block, self.present_insert(old_text, new_text, diff));
                } else if diff.operation == DiffOperation::Remove {
                    emit_all(&mut block, self.present_remove(old_text, diff));
                } else if diff.operation == DiffOperation::Update {
                    emit_all(&mut block, self.present_udate(old_text, new_text, diff));
                }
                assert(block.deep_view() =~= record_block(old_text@, new_text@, line_num, *diff));
                let ghost before = blocks.deep_view();
                blocks.push(block);
                assert(blocks.deep_view() =~= before.push(block.deep_view()));
                k = k + 1;
            }
        }
        assert(blocks.deep_view() =~= presentation(old_text@, new_text@, line_num, result@));
        blocks
    }

    /// Renders an insertion.
    fn present_insert(&self, old_text: &str, new_text: &str, diff: &DiffCell) -> (pieces: Vec<
        String,
    >)
        ensures
            pieces.deep_view() == insert_block(old_text@, new_text@, *diff),
    {
        proof {
            reveal_strlit(" ");
            reveal_strlit("+");
        }
        let mut pieces: Vec<String> = Vec::new();
        let out_new = cut(new_text, diff.start, diff.count);
        let mut first = String::from_str(old_text);
        first.append(out_new);
        first.append("\n");
        emit(&mut pieces, first);

        emit(&mut pieces, marker_text(byte_count(old_text), diff.count));

        let mut last = repeat(" ", byte_count(old_text));
        let ins = repeat("+", diff.count);
        last.append(ins.as_str());
        last.append("\n");
        emit(&mut pieces, last);
        assert(pieces.deep_view() =~= insert_block(old_text@, new_text@, *diff));
        pieces
    }

    /// Renders a removal.
    fn present_remove(&self, old_text: &str, diff: &DiffCell) -> (pieces: Vec<String>)
        ensures
            pieces.deep_view() == remove_block(old_text@, *diff),
    {
        proof {
            reveal_strlit(" ");
            reveal_strlit("x");
        }
        let mut pieces: Vec<String> = Vec::new();
        let mut first = String::from_str(old_text);
        first.append("\n");
        emit(&mut pieces, first);

        emit(&mut pieces, marker_text(diff.start, diff.count));

        let mut last = repeat(" ", diff.start);
        let dels = repeat("x", diff.count);
        last.append(dels.as_str());
        last.append("\n");
        emit(&mut pieces, last);
        assert(pieces.deep_view() =~= remove_block(old_text@, *diff));
        pieces
    }

    /// Renders a substitution.
    fn present_udate(&self, old_text: &str, new_text: &str, diff: &DiffCell) -> (pieces: Vec<
        String,
    >)
        ensures
            pieces.deep_view() == update_block(old_text@, new_text@, *diff),
    {
        proof {
            reveal_strlit(" ");
        }
        let mut pieces: Vec<String> = Vec::new();
        let out_new = cut(new_text, diff.start, diff.count);
        let mut first = String::from_str(old_text);
        first.append("\n");
        emit(&mut pieces, first);

        emit(&mut pieces, marker_text(diff.start, diff.count));

        let mut last = repeat(" ", diff.start);
        last.append(out_new);
        last.append("\n");
        emit(&mut pieces, last);
        assert(pieces.deep_view() =~= update_block(old_text@, new_text@, *diff));
        pieces
    }
}

} // verus!
