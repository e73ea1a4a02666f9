//! The executable scanner: builds the line-start table from the source text
//! once, then batch-evaluates candidate nodes and returns the identifiers of
//! those enclosed in a redundant parenthesis pair.

use vstd::prelude::*;
use crate::position::{line_starts, newline_positions, saturate_usize, spec_offset};
use crate::detect::{
    NodeCoords, has_comma, is_ws_byte, left_scan, right_scan, spec_is_violation, spec_violations,
};

verus! {

/// The usize entries of the concrete table, as mathematical integers.
pub open spec fn as_ints(s: Seq<usize>) -> Seq<int> {
    s.map_values(|v: usize| v as int)
}

proof fn lemma_as_ints_push(s: Seq<usize>, v: usize)
    ensures
        as_ints(s.push(v)) == as_ints(s).push(v as int),
{
    assert(as_ints(s.push(v)) =~= as_ints(s).push(v as int));
}

/// Whether `b` is one of the whitespace bytes the scans skip.
fn ws_byte(b: u8) -> (r: bool)
    ensures
        r == is_ws_byte(b),
{
    b == 32 || b == 9 || b == 10 || b == 13
}

/// The nearest non-whitespace byte strictly left of `start`: scans down from
/// `start - 1`, and yields its index when it lies inside the text. Yields
/// `None` when the scan runs off the start of the text, or when it begins
/// past the end of the text (a span clamped or out of range).
fn scan_left_nonws(source: &Vec<u8>, start: usize) -> (r: Option<usize>)
    ensures
        ({
            let l = left_scan(source@, start as int - 1);
            match r {
                Some(j) => 0 <= l < source@.len() && j == l,
                None => !(0 <= l && l < source@.len()),
            }
        }),
{
    if start == 0 {
        return None;
    }
    let mut i = start - 1;
    if i >= source.len() {
        return None;
    }
    while ws_byte(source[i])
        invariant
            0 <= i < source@.len(),
            left_scan(source@, start as int - 1) == left_scan(source@, i as int),
        decreases i,
    {
        if i == 0 {
            proof {
                assert(left_scan(source@, -1) == -1);
            }
            return None;
        }
        i = i - 1;
    }
    Some(i)
}

/// The nearest non-whitespace byte at or after `from`: scans up from `from`,
/// and yields its index when it lies inside the text. Yields `None` when the
/// scan reaches the end of the text without finding one.
fn scan_right_nonws(source: &Vec<u8>, from: usize) -> (r: Option<usize>)
    ensures
        ({
            let rs = right_scan(source@, from as int);
            match r {
                Some(j) => 0 <= rs < source@.len() && j == rs,
                None => rs >= source@.len(),
            }
        }),
{
    let mut j = from;
    loop
        invariant
            from <= j,
            right_scan(source@, from as int) == right_scan(source@, j as int),
        decreases source@.len() - j,
    {
        if j >= source.len() {
            return None;
        }
        if !ws_byte(source[j]) {
            return Some(j);
        }
        j = j + 1;
    }
}

/// One scan over one source file: the text's bytes and the line-start table
/// built from them.
pub struct Scanner {
    source: Vec<u8>,
    line_offsets: Vec<usize>,
}

impl Scanner {
    /// The source text this scanner was built from.
    pub closed spec fn text(&self) -> Seq<u8> {
        self.source@
    }

    /// The table holds exactly the line starts of the text.
    pub closed spec fn wf(&self) -> bool {
        as_ints(self.line_offsets@) == line_starts(self.source@)
    }

    /// Builds the position index for `source`: entry `k` of the table is the
    /// byte offset where line `k + 1` begins.
    pub fn new(source: Vec<u8>) -> (s: Scanner)
        ensures
            s.wf(),
            s.text() == source@,
    {
        let ghost text = source@;
        let n = source.len();
        let mut line_offsets: Vec<usize> = Vec::new();
        line_offsets.push(0);
        assert(as_ints(line_offsets@) =~= seq![0int] + newline_positions(text.take(0)));
        let mut i: usize = 0;
        while i < n
            invariant
                n == text.len(),
                source@ == text,
                i <= n,
                as_ints(line_offsets@) == seq![0int] + newline_positions(text.take(i as int)),
            decreases n - i,
        {
            proof {
                assert(text.take(i + 1).drop_last() =~= text.take(i as int));
                assert(text.take(i + 1).last() == text[i as int]);
            }
            if source[i] == 10 {
                let ghost pre = line_offsets@;
                line_offsets.push(i + 1);
                proof {
                    lemma_as_ints_push(pre, (i + 1) as usize);
                    assert(newline_positions(text.take(i + 1)) == newline_positions(
                        text.take(i as int),
                    ).push(i + 1));
                    assert(as_ints(line_offsets@) =~= seq![0int] + newline_positions(
                        text.take(i + 1),
                    ));
                }
            } else {
                proof {
                    assert(newline_positions(text.take(i + 1)) == newline_positions(
                        text.take(i as int),
                    ));
                }
            }
            i = i + 1;
        }
        proof {
            assert(text.take(n as int) =~= text);
        }
        if n > 0 && source[n - 1] != 10 {
            let ghost pre = line_offsets@;
            line_offsets.push(n);
            proof {
                lemma_as_ints_push(pre, n);
                assert(as_ints(line_offsets@) =~= line_starts(text));
            }
        } else {
            assert(as_ints(line_offsets@) =~= line_starts(text));
        }
        Scanner { source, line_offsets }
    }

    /// Converts a (1-based line, 0-based column) position into an absolute
    /// byte offset: the line's start offset plus the column. A line number
    /// outside the table degrades to a base offset of 0; a sum past the
    /// machine's address range saturates (such an offset lies past any text,
    /// so it never flags a node).
    pub fn get_offset(&self, lineno: usize, col: usize) -> (r: usize)
        requires
            self.wf(),
        ensures
            r as int == saturate_usize(spec_offset(self.text(), lineno as int, col as int)),
    {
        let base: usize = if lineno >= 1 && lineno - 1 < self.line_offsets.len() {
            let b = self.line_offsets[lineno - 1];
            assert(b as int == as_ints(self.line_offsets@)[lineno - 1]);
            b
        } else {
            0
        };
        if col <= usize::MAX - base {
            base + col
        } else {
            usize::MAX
        }
    }

    /// Whether the half-open byte range `[start, end)` of the text contains
    /// a comma. A lookup over a span that runs past the end of the text
    /// yields no comma found, rather than failing.
    pub fn has_comma_in_span(&self, start: usize, end: usize) -> (r: bool)
        ensures
            r == (end <= self.text().len() && has_comma(self.text(), start as int, end as int)),
    {
        if end > self.source.len() {
            return false;
        }
        let mut k = start;
        while k < end
            invariant
                start <= k,
                end <= self.source@.len(),
                forall|j: int| start <= j < k ==> self.source@[j] != 44,
            decreases end - k,
        {
            if self.source[k] == 44 {
                return true;
            }
            k = k + 1;
        }
        false
    }

    /// The redundancy decision for one node whose own span is `[start, end)`
    /// in bytes: finds the nearest non-whitespace byte to either side, tests
    /// for an enclosing parenthesis pair, and applies the comma rule that
    /// the node's classifiers select.
    pub fn is_violation(&self, start: usize, end: usize, is_call_arg: bool,
        is_comp_or_assign: bool) -> (r: bool)
        ensures
            r == spec_is_violation(self.text(), start as int, end as int, is_call_arg,
                is_comp_or_assign),
    {
        let slen = self.source.len();
        let left = scan_left_nonws(&self.source, start);
        let right = scan_right_nonws(&self.source, end);
        match (left, right) {
            (Some(l), Some(rt)) => {
                assert(rt < slen);
                if self.source[l] == 40 && self.source[rt] == 41 {
                    if is_comp_or_assign {
                        !self.has_comma_in_span(l, rt + 1)
                    } else if is_call_arg {
                        let outer_left = scan_left_nonws(&self.source, l);
                        let outer_right = scan_right_nonws(&self.source, rt + 1);
                        match (outer_left, outer_right) {
                            (Some(ol), Some(or)) => {
                                if self.source[ol] == 40 && self.source[or] == 41 {
                                    !self.has_comma_in_span(l, rt + 1)
                                } else {
                                    false
                                }
                            },
                            _ => false,
                        }
                    } else {
                        false
                    }
                } else {
                    false
                }
            },
            _ => false,
        }
    }

    /// Batch-evaluates the candidate nodes: converts each node's span to
    /// byte offsets through the line-start table and collects, in input
    /// order, the identifiers of the nodes enclosed in a redundant
    /// parenthesis pair. Total and deterministic: the result is a function
    /// of the text and the node list alone, so repeating the call repeats
    /// the result.
    pub fn check_nodes(&self, nodes: Vec<NodeCoords>) -> (r: Vec<usize>)
        requires
            self.wf(),
        ensures
            r@ == spec_violations(self.text(), nodes@),
    {
        let mut violations: Vec<usize> = Vec::new();
        let mut idx: usize = 0;
        while idx < nodes.len()
            invariant
                self.wf(),
                idx <= nodes@.len(),
                violations@ == spec_violations(self.text(), nodes@.take(idx as int)),
            decreases nodes@.len() - idx,
        {
            let node = &nodes[idx];
            let start = self.get_offset(node.lineno, node.col_offset);
            let end = self.get_offset(node.end_lineno, node.end_col_offset);
            proof {
                assert(nodes@.take(idx + 1).drop_last() =~= nodes@.take(idx as int));
                assert(nodes@.take(idx + 1).last() == nodes@[idx as int]);
            }
            if self.is_violation(start, end, node.is_call_arg, node.is_comp_or_assign) {
                violations.push(node.id);
            }
            idx = idx + 1;
        }
        proof {
            assert(nodes@.take(nodes@.len() as int) =~= nodes@);
        }
        violations
    }
}

} // verus!
