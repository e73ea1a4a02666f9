//! The position index: a table mapping 1-based line numbers to the byte
//! offset of each line's start, so that a (line, column) pair converts to an
//! absolute byte offset in constant time.

use vstd::prelude::*;

verus! {

/// The positions one past each newline byte of `text`, in increasing order.
/// Each such position is where a new line begins.
pub open spec fn newline_positions(text: Seq<u8>) -> Seq<int>
    decreases text.len(),
{
    if text.len() == 0 {
        Seq::empty()
    } else {
        let prefix = newline_positions(text.drop_last());
        if text[text.len() - 1] == 10 {
            prefix.push(text.len() as int)
        } else {
            prefix
        }
    }
}

/// The line-start table: entry `k` is the byte offset where line `k + 1`
/// begins. Line 1 starts at offset 0; every later line starts one past a
/// newline byte; when the text does not end with a newline, a final entry
/// marks the end of the text (one past the last, unterminated line's bytes).
pub open spec fn line_starts(text: Seq<u8>) -> Seq<int> {
    let base = seq![0int] + newline_positions(text);
    if text.len() > 0 && text[text.len() - 1] != 10 {
        base.push(text.len() as int)
    } else {
        base
    }
}

/// The byte offset of the position at `col` bytes into line `lineno`
/// (1-based line, 0-based column). A line number outside the table degrades
/// to a base offset of 0, so the result is then just `col`.
pub open spec fn spec_offset(text: Seq<u8>, lineno: int, col: int) -> int {
    let table = line_starts(text);
    if 1 <= lineno && lineno <= table.len() {
        table[lineno - 1] + col
    } else {
        col
    }
}

/// Clamps a mathematical offset to the machine's address range.
pub open spec fn saturate_usize(v: int) -> int {
    if v > usize::MAX as int {
        usize::MAX as int
    } else {
        v
    }
}

proof fn lemma_newline_positions_props(text: Seq<u8>)
    ensures
        forall|k: int|
            0 <= k < newline_positions(text).len() ==> 1 <= #[trigger] newline_positions(text)[k]
                <= text.len() && text[newline_positions(text)[k] - 1] == 10,
        forall|k: int|
            0 < k < newline_positions(text).len() ==> newline_positions(text)[k - 1]
                < #[trigger] newline_positions(text)[k],
        forall|j: int|
            0 <= j < text.len() && text[j] == 10 ==> newline_positions(text).contains(j + 1),
    decreases text.len(),
{
    if text.len() > 0 {
        let prefix = text.drop_last();
        lemma_newline_positions_props(prefix);
        let np = newline_positions(prefix);
        let nt = newline_positions(text);
        assert(forall|j: int| 0 <= j < prefix.len() ==> prefix[j] == #[trigger] text[j]);
        assert forall|j: int| 0 <= j < text.len() && text[j] == 10 implies nt.contains(
            j + 1,
        ) by {
            if j < text.len() - 1 {
                assert(np.contains(j + 1));
                let w = choose|w: int| 0 <= w < np.len() && np[w] == j + 1;
                assert(nt[w] == j + 1);
            } else {
                assert(nt.last() == text.len());
            }
        }
    }
}

/// Law (offset correctness): the line-start table is exactly the set of
/// byte counts at which lines begin, in increasing order. Its first entry is
/// 0 (the start of line 1); every later entry either sits one past a newline
/// byte or is the final entry marking the end of an unterminated last line;
/// every newline byte's successor is an entry; and when the text does not
/// end with a newline, the table's last entry is the text's length. Together
/// with `spec_offset`'s definition, `spec_offset(text, line, col)` is thus
/// the literal byte count from the start of the text to column `col` of the
/// given line, for every line the table covers.
pub proof fn lemma_line_starts_correct(text: Seq<u8>)
    ensures
        line_starts(text).len() >= 1,
        line_starts(text)[0] == 0,
        forall|k: int|
            0 <= k < line_starts(text).len() ==> 0 <= #[trigger] line_starts(text)[k]
                <= text.len(),
        forall|k: int|
            0 < k < line_starts(text).len() ==> line_starts(text)[k - 1]
                < #[trigger] line_starts(text)[k],
        forall|k: int|
            0 < k < line_starts(text).len() ==> (text[#[trigger] line_starts(text)[k] - 1] == 10
                || (k == line_starts(text).len() - 1 && line_starts(text)[k] == text.len())),
        forall|j: int|
            0 <= j < text.len() && text[j] == 10 ==> line_starts(text).contains(j + 1),
        text.len() > 0 && text[text.len() - 1] != 10 ==> line_starts(text).last() == text.len(),
        forall|lineno: int, col: int|
            1 <= lineno <= line_starts(text).len() ==> #[trigger] spec_offset(text, lineno, col)
                == line_starts(text)[lineno - 1] + col,
{
    lemma_newline_positions_props(text);
    let np = newline_positions(text);
    let base = seq![0int] + np;
    let table = line_starts(text);
    assert(base[0] == 0);
    assert(forall|k: int| 0 < k < base.len() ==> base[k] == #[trigger] np[k - 1]);
    assert forall|j: int| 0 <= j < text.len() && text[j] == 10 implies table.contains(j + 1) by {
        assert(np.contains(j + 1));
        let w = choose|w: int| 0 <= w < np.len() && np[w] == j + 1;
        assert(table[w + 1] == j + 1);
    }
}

/// Law: for any offset within the machine's address range — every position
/// inside a text that fits in memory in particular — the clamp changes
/// nothing, so the scanner's offset conversion returns the mathematical
/// offset exactly.
pub proof fn lemma_offset_fits(text: Seq<u8>, lineno: int, col: int)
    requires
        spec_offset(text, lineno, col) <= usize::MAX as int,
    ensures
        saturate_usize(spec_offset(text, lineno, col)) == spec_offset(text, lineno, col),
{
}

} // verus!
