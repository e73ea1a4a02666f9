//! The redundancy decision, stated over the raw bytes of the source text:
//! whitespace scans to either side of a node's span, the enclosing-paren
//! test, and the comma test that tells a tuple literal from a removable
//! grouping pair.

use vstd::prelude::*;
use crate::position::{spec_offset, saturate_usize};

verus! {

/// The bytes treated as whitespace when scanning around a node: space, tab,
/// newline and carriage return.
pub open spec fn is_ws_byte(b: u8) -> bool {
    b == 32 || b == 9 || b == 10 || b == 13
}

/// Scans from `i` toward the start of the text, skipping whitespace bytes.
/// Returns the first index at which the scan stops: an index holding a
/// non-whitespace byte, an index outside the text (the scan started past the
/// end), or -1 (the scan ran off the start of the text).
pub open spec fn left_scan(text: Seq<u8>, i: int) -> int
    decreases i + 1,
{
    if i < 0 {
        -1
    } else if i >= text.len() {
        i
    } else if is_ws_byte(text[i]) {
        left_scan(text, i - 1)
    } else {
        i
    }
}

/// Scans from `i` toward the end of the text, skipping whitespace bytes.
/// Returns the first index at which the scan stops: an index holding a
/// non-whitespace byte, or an index at or past the end of the text.
pub open spec fn right_scan(text: Seq<u8>, i: int) -> int
    decreases text.len() - i,
{
    if 0 <= i && i < text.len() && is_ws_byte(text[i]) {
        right_scan(text, i + 1)
    } else {
        i
    }
}

/// Whether the half-open byte range `[lo, hi)` of `text` contains a comma.
/// Parts of the range outside the text contribute nothing.
pub open spec fn has_comma(text: Seq<u8>, lo: int, hi: int) -> bool {
    exists|k: int| lo <= k < hi && 0 <= k < text.len() && text[k] == 44
}

/// Whether indices `l` and `r` are inside the text and hold `(` and `)`
/// respectively: the node between them sits in one parenthesis pair.
pub open spec fn enclosed(text: Seq<u8>, l: int, r: int) -> bool {
    &&& 0 <= l < text.len()
    &&& 0 <= r < text.len()
    &&& text[l] == 40
    &&& text[r] == 41
}

/// The redundancy decision for one node whose own span is `[start, end)`.
///
/// The nearest non-whitespace bytes to either side must be `(` and `)`;
/// otherwise there is no enclosing pair and the node is not flagged. An
/// assignment/comprehension node is flagged unless the pair contains a comma
/// (a comma makes it a tuple literal, which must be preserved). A call
/// argument is flagged only when a second parenthesis pair — the call's own —
/// immediately surrounds the first, again with no comma inside the inner
/// pair. A node with neither classifier is never flagged: a single pair
/// around it may be ordinary grouping.
pub open spec fn spec_is_violation(
    text: Seq<u8>,
    start: int,
    end: int,
    is_call_arg: bool,
    is_comp_or_assign: bool,
) -> bool {
    let l = left_scan(text, start - 1);
    let r = right_scan(text, end);
    enclosed(text, l, r) && {
        if is_comp_or_assign {
            !has_comma(text, l, r + 1)
        } else if is_call_arg {
            let ol = left_scan(text, l - 1);
            let or = right_scan(text, r + 1);
            enclosed(text, ol, or) && !has_comma(text, l, r + 1)
        } else {
            false
        }
    }
}

/// One candidate syntax node: an opaque caller-assigned identifier, the
/// node's span as 1-based line and 0-based byte column coordinates, and the
/// two classifiers that pick the decision rule.
pub struct NodeCoords {
    pub id: usize,
    pub lineno: usize,
    pub col_offset: usize,
    pub end_lineno: usize,
    pub end_col_offset: usize,
    pub is_call_arg: bool,
    pub is_comp_or_assign: bool,
}

/// The redundancy decision for a node given by coordinates: its span is
/// converted to byte offsets through the line-start table, clamped to the
/// machine's address range (offsets past the text never flag a node, so the
/// clamp changes no outcome).
pub open spec fn node_flagged(text: Seq<u8>, n: NodeCoords) -> bool {
    spec_is_violation(
        text,
        saturate_usize(spec_offset(text, n.lineno as int, n.col_offset as int)),
        saturate_usize(spec_offset(text, n.end_lineno as int, n.end_col_offset as int)),
        n.is_call_arg,
        n.is_comp_or_assign,
    )
}

/// The identifiers of the flagged nodes, in input order.
pub open spec fn spec_violations(text: Seq<u8>, nodes: Seq<NodeCoords>) -> Seq<usize>
    decreases nodes.len(),
{
    if nodes.len() == 0 {
        Seq::empty()
    } else {
        let rest = spec_violations(text, nodes.drop_last());
        if node_flagged(text, nodes.last()) {
            rest.push(nodes.last().id)
        } else {
            rest
        }
    }
}

/// Law (no-parens nodes never flagged): a node whose nearest non-whitespace
/// neighbors to either side are not an enclosing `(`/`)` pair is never a
/// violation, whatever its classifiers.
pub proof fn lemma_no_parens_not_flagged(
    text: Seq<u8>,
    start: int,
    end: int,
    is_call_arg: bool,
    is_comp_or_assign: bool,
)
    requires
        !enclosed(text, left_scan(text, start - 1), right_scan(text, end)),
    ensures
        !spec_is_violation(text, start, end, is_call_arg, is_comp_or_assign),
{
}

/// Law (tuple preservation): a comma anywhere in the enclosing pair's span —
/// the parentheses form a tuple literal — means the node is never a
/// violation, whatever its classifiers.
pub proof fn lemma_comma_never_flagged(
    text: Seq<u8>,
    start: int,
    end: int,
    is_call_arg: bool,
    is_comp_or_assign: bool,
)
    requires
        has_comma(text, left_scan(text, start - 1), right_scan(text, end) + 1),
    ensures
        !spec_is_violation(text, start, end, is_call_arg, is_comp_or_assign),
{
}

/// Law (single-element redundancy): an assignment/comprehension node
/// enclosed in a parenthesis pair with no comma in the pair's span is a
/// violation.
pub proof fn lemma_single_element_flagged(text: Seq<u8>, start: int, end: int, is_call_arg: bool)
    requires
        enclosed(text, left_scan(text, start - 1), right_scan(text, end)),
        !has_comma(text, left_scan(text, start - 1), right_scan(text, end) + 1),
    ensures
        spec_is_violation(text, start, end, is_call_arg, true),
{
}

/// Law (call-argument double wrap, flagged half): a call-argument node
/// enclosed in a parenthesis pair that a second pair immediately surrounds,
/// with no comma in the inner pair's span, is a violation.
pub proof fn lemma_call_arg_double_wrap_flagged(text: Seq<u8>, start: int, end: int)
    requires
        enclosed(text, left_scan(text, start - 1), right_scan(text, end)),
        enclosed(
            text,
            left_scan(text, left_scan(text, start - 1) - 1),
            right_scan(text, right_scan(text, end) + 1),
        ),
        !has_comma(text, left_scan(text, start - 1), right_scan(text, end) + 1),
    ensures
        spec_is_violation(text, start, end, true, false),
{
}

/// Law (call-argument single pair never flagged): a call-argument node whose
/// enclosing pair is not itself immediately surrounded by a second `(`/`)`
/// pair is never a violation.
pub proof fn lemma_call_arg_single_pair_not_flagged(text: Seq<u8>, start: int, end: int)
    requires
        !enclosed(
            text,
            left_scan(text, left_scan(text, start - 1) - 1),
            right_scan(text, right_scan(text, end) + 1),
        ),
    ensures
        !spec_is_violation(text, start, end, true, false),
{
}

/// Law (only flagged nodes are reported): every identifier in the violation
/// sequence belongs to some input node that the redundancy decision flags.
/// In particular, a node whose id no flagged node carries is never reported.
pub proof fn lemma_violations_only_flagged(text: Seq<u8>, nodes: Seq<NodeCoords>)
    ensures
        forall|id: usize|
            spec_violations(text, nodes).contains(id) ==> exists|i: int|
                0 <= i < nodes.len() && (#[trigger] nodes[i]).id == id && node_flagged(
                    text,
                    nodes[i],
                ),
    decreases nodes.len(),
{
    if nodes.len() > 0 {
        lemma_violations_only_flagged(text, nodes.drop_last());
        let rest = spec_violations(text, nodes.drop_last());
        let full = spec_violations(text, nodes);
        assert forall|id: usize| full.contains(id) implies exists|i: int|
            0 <= i < nodes.len() && (#[trigger] nodes[i]).id == id && node_flagged(
                text,
                nodes[i],
            ) by {
            let j = choose|j: int| 0 <= j < full.len() && full[j] == id;
            if j < rest.len() {
                assert(rest[j] == id);
                assert(rest.contains(id));
                let i = choose|i: int|
                    0 <= i < nodes.drop_last().len() && (#[trigger] nodes.drop_last()[i]).id == id
                        && node_flagged(text, nodes.drop_last()[i]);
                assert(nodes[i] == nodes.drop_last()[i]);
            } else {
                assert(node_flagged(text, nodes.last()));
                assert(nodes[nodes.len() - 1] == nodes.last());
                assert(id == nodes.last().id);
            }
        }
    }
}

/// Law (no-parens nodes never reported): a node the redundancy decision
/// does not flag — in particular one with no enclosing parenthesis pair —
/// never has its identifier in the violation sequence, as long as no other
/// node carries the same identifier.
pub proof fn lemma_unflagged_node_never_reported(text: Seq<u8>, nodes: Seq<NodeCoords>, i: int)
    requires
        0 <= i < nodes.len(),
        !node_flagged(text, nodes[i]),
        forall|j: int| 0 <= j < nodes.len() && j != i ==> (#[trigger] nodes[j]).id != nodes[i].id,
    ensures
        !spec_violations(text, nodes).contains(nodes[i].id),
{
    lemma_violations_only_flagged(text, nodes);
    if spec_violations(text, nodes).contains(nodes[i].id) {
        let w = choose|w: int|
            0 <= w < nodes.len() && (#[trigger] nodes[w]).id == nodes[i].id && node_flagged(
                text,
                nodes[w],
            );
        assert(w != i);
        assert(false);
    }
}

/// Law (idempotence): evaluation is deterministic. The scanner's batch
/// operation pins its result to `spec_violations`, a function of the text
/// and the node list alone, so any two runs over the same input yield
/// identical, order-stable results.
pub proof fn lemma_evaluate_deterministic(
    text: Seq<u8>,
    nodes: Seq<NodeCoords>,
    r1: Seq<usize>,
    r2: Seq<usize>,
)
    requires
        r1 == spec_violations(text, nodes),
        r2 == spec_violations(text, nodes),
    ensures
        r1 == r2,
{
}

/// Law (order preservation): evaluating a concatenation of two node lists
/// yields the concatenation of their violation sequences. Reported
/// identifiers thus keep the relative order of the input nodes: no
/// reordering or sorting ever happens.
pub proof fn lemma_violations_concat(text: Seq<u8>, a: Seq<NodeCoords>, b: Seq<NodeCoords>)
    ensures
        spec_violations(text, a + b) == spec_violations(text, a) + spec_violations(text, b),
    decreases b.len(),
{
    if b.len() == 0 {
        assert(a + b =~= a);
        assert(spec_violations(text, a) + spec_violations(text, b) =~= spec_violations(text, a));
    } else {
        lemma_violations_concat(text, a, b.drop_last());
        assert((a + b).drop_last() =~= a + b.drop_last());
        assert((a + b).last() == b.last());
        if node_flagged(text, b.last()) {
            assert((spec_violations(text, a) + spec_violations(text, b.drop_last())).push(
                b.last().id,
            ) =~= spec_violations(text, a) + spec_violations(text, b.drop_last()).push(
                b.last().id,
            ));
        }
    }
}

} // verus!
