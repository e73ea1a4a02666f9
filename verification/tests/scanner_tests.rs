use tuple_scanner::detect::NodeCoords;
use tuple_scanner::scanner::Scanner;

fn node(
    id: usize,
    lineno: usize,
    col_offset: usize,
    end_lineno: usize,
    end_col_offset: usize,
    is_call_arg: bool,
    is_comp_or_assign: bool,
) -> NodeCoords {
    NodeCoords { id, lineno, col_offset, end_lineno, end_col_offset, is_call_arg, is_comp_or_assign }
}

/// Reference offset computed naively: the summed byte lengths of the lines
/// before `lineno` (terminators included), plus the column.
fn naive_offset(text: &[u8], lineno: usize, col: usize) -> usize {
    let joined: usize = text
        .split_inclusive(|b| *b == b'\n')
        .take(lineno - 1)
        .map(|seg| seg.len())
        .sum();
    joined + col
}

fn scanner_for(text: &str) -> Scanner {
    Scanner::new(text.as_bytes().to_vec())
}

#[test]
fn offsets_match_naive_reference() {
    let texts: [&str; 6] = [
        "a\nbb\nccc\n",
        "a\n\n\nbb",
        "no newline at all",
        "x = 1\r\ny = 2\r\n",
        "\n",
        "one\ntwo\r\nthree\n\n",
    ];
    for text in texts {
        let bytes = text.as_bytes();
        let lines = bytes.split_inclusive(|b| *b == b'\n').count();
        let sc = scanner_for(text);
        for lineno in 1..=lines + 1 {
            for col in 0..4 {
                assert_eq!(
                    sc.get_offset(lineno, col),
                    naive_offset(bytes, lineno, col),
                    "text {:?} line {} col {}",
                    text,
                    lineno,
                    col
                );
            }
        }
    }
}

#[test]
fn offset_of_empty_text() {
    let sc = scanner_for("");
    assert_eq!(sc.get_offset(1, 0), 0);
    assert_eq!(sc.get_offset(1, 3), 3);
}

#[test]
fn offset_out_of_range_line_degrades_to_column() {
    let sc = scanner_for("aa\nbb\n");
    assert_eq!(sc.get_offset(0, 5), 5);
    assert_eq!(sc.get_offset(99, 2), 2);
}

#[test]
fn assignment_single_element_is_flagged() {
    let sc = scanner_for("y = (x)\n");
    let got = sc.check_nodes(vec![node(17, 1, 5, 1, 6, false, true)]);
    assert_eq!(got, vec![17]);
}

#[test]
fn assignment_one_element_tuple_is_kept() {
    let sc = scanner_for("y = (x,)\n");
    let got = sc.check_nodes(vec![node(17, 1, 5, 1, 6, false, true)]);
    assert_eq!(got, Vec::<usize>::new());
}

#[test]
fn assignment_pair_tuple_is_kept() {
    let sc = scanner_for("y = (a, b)\n");
    let got = sc.check_nodes(vec![node(4, 1, 5, 1, 9, false, true)]);
    assert_eq!(got, Vec::<usize>::new());
}

#[test]
fn no_enclosing_parens_never_flagged() {
    let sc = scanner_for("y = x\n");
    let got = sc.check_nodes(vec![
        node(1, 1, 4, 1, 5, false, true),
        node(2, 1, 4, 1, 5, true, false),
    ]);
    assert_eq!(got, Vec::<usize>::new());
}

#[test]
fn neither_classifier_never_flagged() {
    let sc = scanner_for("y = (x)\n");
    let got = sc.check_nodes(vec![node(9, 1, 5, 1, 6, false, false)]);
    assert_eq!(got, Vec::<usize>::new());
}

#[test]
fn call_arg_double_wrap_is_flagged() {
    let sc = scanner_for("f((x))\n");
    let got = sc.check_nodes(vec![node(5, 1, 3, 1, 4, true, false)]);
    assert_eq!(got, vec![5]);
}

#[test]
fn call_arg_double_wrap_tuple_is_kept() {
    let sc = scanner_for("f((x, y))\n");
    let got = sc.check_nodes(vec![node(5, 1, 3, 1, 7, true, false)]);
    assert_eq!(got, Vec::<usize>::new());
}

#[test]
fn call_arg_single_pair_is_kept() {
    let sc = scanner_for("f(x)\n");
    let got = sc.check_nodes(vec![node(5, 1, 2, 1, 3, true, false)]);
    assert_eq!(got, Vec::<usize>::new());
}

#[test]
fn whitespace_between_node_and_parens_is_skipped() {
    let sc = scanner_for("y = ( \t x )\n");
    let got = sc.check_nodes(vec![node(2, 1, 8, 1, 9, false, true)]);
    assert_eq!(got, vec![2]);
}

#[test]
fn node_spanning_lines_is_found() {
    let sc = scanner_for("y = (\nx\n)\n");
    let got = sc.check_nodes(vec![node(6, 2, 0, 2, 1, false, true)]);
    assert_eq!(got, vec![6]);
}

#[test]
fn crlf_text_is_scanned() {
    let sc = scanner_for("a = (x)\r\nb = (y,)\r\n");
    let got = sc.check_nodes(vec![
        node(1, 1, 5, 1, 6, false, true),
        node(2, 2, 5, 2, 6, false, true),
    ]);
    assert_eq!(got, vec![1]);
}

#[test]
fn evaluate_twice_gives_identical_results() {
    let sc = scanner_for("a = (x)\nf((y))\nb = (z,)\n");
    let nodes = || {
        vec![
            node(10, 1, 5, 1, 6, false, true),
            node(20, 2, 3, 2, 4, true, false),
            node(30, 3, 5, 3, 6, false, true),
        ]
    };
    let first = sc.check_nodes(nodes());
    let second = sc.check_nodes(nodes());
    assert_eq!(first, second);
    assert_eq!(first, vec![10, 20]);
}

#[test]
fn violation_order_follows_input_order() {
    let sc = scanner_for("a = (x)\nb = (y)\n");
    let got = sc.check_nodes(vec![
        node(7, 2, 5, 2, 6, false, true),
        node(99, 1, 0, 1, 1, false, true),
        node(3, 1, 5, 1, 6, false, true),
    ]);
    assert_eq!(got, vec![7, 3]);
}

#[test]
fn empty_node_list_gives_empty_result() {
    let sc = scanner_for("a = (x)\n");
    assert_eq!(sc.check_nodes(Vec::new()), Vec::<usize>::new());
}

#[test]
fn out_of_range_node_is_not_flagged() {
    let sc = scanner_for("a = (x)\n");
    let got = sc.check_nodes(vec![node(1, 40, 1000, 40, 2000, false, true)]);
    assert_eq!(got, Vec::<usize>::new());
}

#[test]
fn is_violation_on_empty_text_is_false() {
    let sc = scanner_for("");
    assert!(!sc.is_violation(0, 0, true, true));
    assert!(!sc.is_violation(5, 9, false, true));
}

#[test]
fn has_comma_in_span_finds_commas() {
    let sc = scanner_for("(a, b)\n");
    assert!(sc.has_comma_in_span(0, 6));
    assert!(!sc.has_comma_in_span(0, 2));
    assert!(sc.has_comma_in_span(2, 3));
    assert!(!sc.has_comma_in_span(3, 6));
}

#[test]
fn has_comma_in_span_out_of_range_is_false() {
    let sc = scanner_for("a, b");
    assert!(!sc.has_comma_in_span(50, 90));
    assert!(!sc.has_comma_in_span(3, 1));
    assert!(!sc.has_comma_in_span(0, 500));
    assert!(sc.has_comma_in_span(0, 4));
}
