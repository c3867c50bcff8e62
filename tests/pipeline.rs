use topiary::capture::{capture_from_name, Capture, Directive, Placement};
use topiary::normalise::{ensure_final_hardline, is_dominant, post_process_internal};
use topiary::scanner::{
    detect_blank_lines_before, detect_line_break_before_and_after, detect_multi_line_nodes,
};
use topiary::{Atom, AtomCollection, FormatterError, SyntaxNode, SyntaxTree};

fn leaf(s: &str, id: usize) -> Atom {
    Atom::Leaf { content: s.to_string(), id }
}

fn node(id: usize, rows: (usize, usize), parent: Option<usize>, children: Vec<usize>, text: &str) -> SyntaxNode {
    SyntaxNode {
        id,
        start_row: rows.0,
        end_row: rows.1,
        parent,
        children,
        text: text.to_string(),
    }
}

/// A parenthesised pair: root (id 10) over "(" (id 11) and ")" (id 12).
fn parens(root_end_row: usize) -> SyntaxTree {
    SyntaxTree::from_nodes(vec![
        node(10, (0, root_end_row), None, vec![1, 2], "()"),
        node(11, (0, 0), Some(0), vec![], "("),
        node(12, (root_end_row, root_end_row), Some(0), vec![], ")"),
    ])
    .unwrap()
}

fn normalised(atoms: Vec<Atom>) -> Vec<Atom> {
    let mut c = AtomCollection::new(atoms);
    c.post_process();
    c.atoms().clone()
}

#[test]
fn softline_collapses_in_single_line_parent() {
    let t = parens(0);
    let mut c = AtomCollection::collect_leafs(&t, 0, vec![]);
    assert_eq!(c.atoms(), &vec![leaf("(", 11), leaf(")", 12)]);
    c.resolve_capture(&t, "append_empty_softline", 1, None, None).unwrap();
    c.apply_prepends_and_appends();
    assert_eq!(c.atoms(), &vec![leaf("(", 11), leaf(")", 12)]);
}

#[test]
fn softline_expands_in_multi_line_parent() {
    let t = parens(1);
    let mut c = AtomCollection::collect_leafs(&t, 0, vec![]);
    c.resolve_capture(&t, "append_empty_softline", 1, None, None).unwrap();
    c.apply_prepends_and_appends();
    assert_eq!(c.atoms(), &vec![leaf("(", 11), Atom::Hardline, leaf(")", 12)]);
}

#[test]
fn spaced_softline_becomes_space_in_single_line_parent() {
    let t = parens(0);
    let mut c = AtomCollection::collect_leafs(&t, 0, vec![]);
    c.resolve_capture(&t, "prepend_spaced_softline", 2, None, None).unwrap();
    c.apply_prepends_and_appends();
    assert_eq!(c.atoms(), &vec![leaf("(", 11), Atom::Space, leaf(")", 12)]);
}

#[test]
fn softline_on_root_is_dropped() {
    let t = parens(1);
    let mut c = AtomCollection::collect_leafs(&t, 0, vec![]);
    c.resolve_capture(&t, "append_spaced_softline", 0, None, None).unwrap();
    c.apply_prepends_and_appends();
    assert_eq!(c.atoms(), &vec![leaf("(", 11), leaf(")", 12)]);
}

#[test]
fn dominance_keeps_the_strongest_whitespace() {
    let out = normalised(vec![
        leaf("a", 1),
        Atom::Space,
        Atom::Hardline,
        Atom::Blankline,
        leaf("b", 2),
        Atom::Hardline,
    ]);
    assert_eq!(out, vec![leaf("a", 1), Atom::Blankline, leaf("b", 2), Atom::Hardline]);
}

#[test]
fn weaker_whitespace_is_ignored() {
    let out = normalised(vec![leaf("a", 1), Atom::Blankline, Atom::Space, Atom::Blankline, leaf("b", 2)]);
    assert_eq!(out, vec![leaf("a", 1), Atom::Blankline, leaf("b", 2), Atom::Hardline]);
}

#[test]
fn indent_markers_move_before_whitespace() {
    let out = normalised(vec![
        leaf("a", 1),
        Atom::Hardline,
        Atom::IndentStart,
        leaf("b", 2),
        Atom::Hardline,
    ]);
    assert_eq!(
        out,
        vec![leaf("a", 1), Atom::IndentStart, Atom::Hardline, leaf("b", 2), Atom::Hardline]
    );
}

#[test]
fn delete_region_is_cut() {
    let out = normalised(vec![
        leaf("a", 1),
        Atom::DeleteBegin,
        Atom::Space,
        leaf("x", 2),
        Atom::Hardline,
        Atom::DeleteEnd,
        leaf("b", 3),
        Atom::Hardline,
    ]);
    assert_eq!(out, vec![leaf("a", 1), leaf("b", 3), Atom::Hardline]);
}

#[test]
fn leading_whitespace_is_dropped() {
    let out = normalised(vec![Atom::Hardline, Atom::Hardline, leaf("x", 1), Atom::Hardline]);
    assert_eq!(out, vec![leaf("x", 1), Atom::Hardline]);
}

#[test]
fn final_newline_is_inserted() {
    assert_eq!(normalised(vec![leaf("x", 1)]), vec![leaf("x", 1), Atom::Hardline]);
}

#[test]
fn empty_stream_becomes_one_hardline() {
    assert_eq!(normalised(vec![]), vec![Atom::Hardline]);
}

#[test]
fn trailing_blankline_is_kept_and_followed_by_hardline() {
    assert_eq!(
        normalised(vec![leaf("x", 1), Atom::Blankline]),
        vec![leaf("x", 1), Atom::Blankline, Atom::Hardline]
    );
}

#[test]
fn laws_hold_on_a_mixed_stream() {
    let out = normalised(vec![
        Atom::Space,
        leaf("a", 1),
        Atom::Space,
        Atom::IndentEnd,
        Atom::Hardline,
        Atom::DeleteBegin,
        leaf("gone", 2),
        Atom::DeleteEnd,
        Atom::Space,
        leaf("b", 3),
    ]);
    assert_eq!(
        out,
        vec![leaf("a", 1), Atom::IndentEnd, Atom::Hardline, leaf("b", 3), Atom::Hardline]
    );
    assert_eq!(out.last(), Some(&Atom::Hardline));
    let ws = |a: &Atom| matches!(a, Atom::Space | Atom::Hardline | Atom::Blankline);
    for w in out.windows(2) {
        assert!(!(ws(&w[0]) && ws(&w[1])));
        assert!(!(ws(&w[0]) && matches!(w[1], Atom::IndentStart | Atom::IndentEnd)));
    }
}

/// Root (id 1, rows 1..end) over leaves a (id 2, row 1), b (id 3, row 2), c (id 4, row end).
fn scoped_tree(end: usize) -> SyntaxTree {
    SyntaxTree::from_nodes(vec![
        node(1, (1, end), None, vec![1, 2, 3], "abc"),
        node(2, (1, 1), Some(0), vec![], "a"),
        node(3, (2, 2), Some(0), vec![], "b"),
        node(4, (end, end), Some(0), vec![], "c"),
    ])
    .unwrap()
}

fn run_scope(end: usize, capture: &str) -> Vec<Atom> {
    let t = scoped_tree(end);
    let mut c = AtomCollection::collect_leafs(&t, 0, vec![]);
    c.resolve_capture(&t, "begin_scope", 0, None, Some("s")).unwrap();
    c.resolve_capture(&t, "end_scope", 0, None, Some("s")).unwrap();
    c.resolve_capture(&t, capture, 1, None, Some("s")).unwrap();
    c.apply_prepends_and_appends();
    assert_eq!(
        c.atoms()[1],
        Atom::ScopedSoftline { id: 1, scope_id: "s".to_string(), spaced: capture.contains("spaced") }
    );
    c.post_process();
    c.atoms().clone()
}

#[test]
fn scoped_softline_in_multi_line_scope_becomes_hardline() {
    assert_eq!(
        run_scope(3, "append_spaced_scoped_softline"),
        vec![leaf("a", 2), Atom::Hardline, leaf("b", 3), leaf("c", 4), Atom::Hardline]
    );
}

#[test]
fn scoped_softline_in_single_line_scope_becomes_space() {
    assert_eq!(
        run_scope(1, "append_spaced_scoped_softline"),
        vec![leaf("a", 2), Atom::Space, leaf("b", 3), leaf("c", 4), Atom::Hardline]
    );
}

#[test]
fn empty_scoped_softline_in_single_line_scope_is_dropped() {
    assert_eq!(
        run_scope(1, "append_empty_scoped_softline"),
        vec![leaf("a", 2), leaf("b", 3), leaf("c", 4), Atom::Hardline]
    );
}

#[test]
fn scoped_softline_outside_its_scope_is_dropped() {
    let mut c = AtomCollection::new(vec![
        leaf("a", 1),
        Atom::ScopedSoftline { id: 1, scope_id: "s".to_string(), spaced: true },
        leaf("b", 2),
    ]);
    c.post_process();
    assert_eq!(c.atoms(), &vec![leaf("a", 1), leaf("b", 2), Atom::Hardline]);
}

#[test]
fn unknown_capture_is_an_error() {
    let t = parens(0);
    let mut c = AtomCollection::collect_leafs(&t, 0, vec![]);
    let e = c.resolve_capture(&t, "append_nonsense", 0, None, None).unwrap_err();
    assert!(matches!(e, FormatterError::UnknownCapture(ref n) if n == "append_nonsense"));
}

#[test]
fn delimiter_capture_needs_a_delimiter() {
    let t = parens(0);
    let mut c = AtomCollection::collect_leafs(&t, 0, vec![]);
    let e = c.resolve_capture(&t, "append_delimiter", 1, None, None).unwrap_err();
    assert!(matches!(e, FormatterError::MissingDelimiter(ref n) if n == "append_delimiter"));
    c.apply_prepends_and_appends();
    assert_eq!(c.atoms(), &vec![leaf("(", 11), leaf(")", 12)]);
}

#[test]
fn scope_capture_needs_a_scope_id() {
    let t = parens(0);
    let mut c = AtomCollection::collect_leafs(&t, 0, vec![]);
    let e = c.resolve_capture(&t, "begin_scope", 0, None, None).unwrap_err();
    assert!(matches!(e, FormatterError::MissingScopeId(ref n) if n == "begin_scope"));
    let e = c.resolve_capture(&t, "prepend_empty_scoped_softline", 0, None, None).unwrap_err();
    assert!(matches!(e, FormatterError::MissingScopeId(_)));
}

#[test]
fn delimiters_and_deletion_are_attached_to_leaves() {
    let t = parens(1);
    let mut c = AtomCollection::collect_leafs(&t, 0, vec![]);
    c.resolve_capture(&t, "prepend_delimiter", 0, Some(";"), None).unwrap();
    c.resolve_capture(&t, "append_multiline_delimiter", 1, Some(","), None).unwrap();
    c.resolve_capture(&t, "delete", 2, None, None).unwrap();
    c.resolve_capture(&t, "leaf", 2, None, None).unwrap();
    c.apply_prepends_and_appends();
    assert_eq!(
        c.atoms(),
        &vec![
            Atom::Literal(";".to_string()),
            leaf("(", 11),
            Atom::Literal(",".to_string()),
            Atom::DeleteBegin,
            leaf(")", 12),
            Atom::DeleteEnd,
        ]
    );
    c.post_process();
    assert_eq!(
        c.atoms(),
        &vec![Atom::Literal(";".to_string()), leaf("(", 11), Atom::Literal(",".to_string()), Atom::Hardline]
    );
}

#[test]
fn multiline_delimiter_is_dropped_in_single_line_parent() {
    let t = parens(0);
    let mut c = AtomCollection::collect_leafs(&t, 0, vec![]);
    c.resolve_capture(&t, "append_multiline_delimiter", 1, Some(","), None).unwrap();
    c.apply_prepends_and_appends();
    assert_eq!(c.atoms(), &vec![leaf("(", 11), leaf(")", 12)]);
}

/// Root (id 1) over a string node (id 2, opaque) with two children, then "x" (id 5) two rows lower.
fn opaque_tree() -> SyntaxTree {
    SyntaxTree::from_nodes(vec![
        node(1, (0, 2), None, vec![1, 4], "\"ab\"\n\nx"),
        node(2, (0, 0), Some(0), vec![2, 3], "\"ab\""),
        node(3, (0, 0), Some(1), vec![], "\"a"),
        node(4, (0, 0), Some(1), vec![], "b\""),
        node(5, (2, 2), Some(0), vec![], "x"),
    ])
    .unwrap()
}

#[test]
fn opaque_leaves_are_collected_whole_and_receive_directives() {
    let t = opaque_tree();
    let mut c = AtomCollection::collect_leafs(&t, 0, vec![2]);
    assert_eq!(c.atoms(), &vec![leaf("\"ab\"", 2), leaf("x", 5)]);
    c.resolve_capture(&t, "append_space", 3, None, None).unwrap();
    c.resolve_capture(&t, "prepend_hardline", 2, None, None).unwrap();
    c.resolve_capture(&t, "allow_blank_line_before", 4, None, None).unwrap();
    c.resolve_capture(&t, "prepend_input_softline", 4, None, None).unwrap();
    c.resolve_capture(&t, "append_input_softline", 1, None, None).unwrap();
    c.resolve_capture(&t, "append_indent_start", 4, None, None).unwrap();
    c.apply_prepends_and_appends();
    assert_eq!(
        c.atoms(),
        &vec![
            Atom::Hardline,
            leaf("\"ab\"", 2),
            Atom::Space,
            Atom::Space,
            Atom::Blankline,
            Atom::Hardline,
            leaf("x", 5),
            Atom::IndentStart,
        ]
    );
    c.post_process();
    assert_eq!(
        c.atoms(),
        &vec![leaf("\"ab\"", 2), Atom::Blankline, leaf("x", 5), Atom::IndentStart, Atom::Hardline]
    );
}

#[test]
fn scanner_finds_multi_line_nodes_and_breaks() {
    let t = opaque_tree();
    assert_eq!(detect_multi_line_nodes(&t, 0), vec![1]);
    assert_eq!(detect_blank_lines_before(&t, 0), vec![5]);
    assert_eq!(detect_line_break_before_and_after(&t, 0), (vec![5], vec![4]));
}

#[test]
fn malformed_trees_are_rejected() {
    assert!(SyntaxTree::from_nodes(vec![node(1, (0, 0), Some(0), vec![], "")]).is_none());
    assert!(SyntaxTree::from_nodes(vec![node(1, (0, 0), None, vec![0], "")]).is_none());
    assert!(SyntaxTree::from_nodes(vec![node(1, (0, 0), None, vec![5], "")]).is_none());
    assert!(SyntaxTree::from_nodes(vec![node(1, (0, 0), None, vec![], "")]).is_some());
}

#[test]
fn dominance_order() {
    assert!(is_dominant(&Atom::Blankline, &Atom::Hardline));
    assert!(is_dominant(&Atom::Blankline, &Atom::Space));
    assert!(!is_dominant(&Atom::Blankline, &Atom::Blankline));
    assert!(is_dominant(&Atom::Hardline, &Atom::Space));
    assert!(!is_dominant(&Atom::Hardline, &Atom::Hardline));
    assert!(!is_dominant(&Atom::Space, &Atom::Space));
}

#[test]
fn merge_step_reorders_and_closes_regions() {
    let mut v = vec![leaf("a", 1), Atom::Space];
    post_process_internal(&mut v, Atom::Space, Atom::IndentEnd);
    assert_eq!(v, vec![leaf("a", 1), Atom::IndentEnd, Atom::Space]);
    let mut v = vec![leaf("a", 1), Atom::DeleteBegin];
    post_process_internal(&mut v, Atom::DeleteBegin, leaf("b", 2));
    assert_eq!(v, vec![leaf("a", 1), Atom::DeleteBegin]);
    post_process_internal(&mut v, Atom::DeleteBegin, Atom::DeleteEnd);
    assert_eq!(v, vec![leaf("a", 1)]);
    let mut v = vec![Atom::Hardline];
    ensure_final_hardline(&mut v);
    assert_eq!(v, vec![Atom::Hardline]);
}

#[test]
fn capture_names_are_recognised() {
    assert!(matches!(capture_from_name("leaf"), Some(Capture::Leaf)));
    assert!(matches!(
        capture_from_name("prepend_input_softline"),
        Some(Capture::Insert(Placement::Before, Directive::InputSoftline))
    ));
    assert!(matches!(
        capture_from_name("append_spaced_scoped_softline"),
        Some(Capture::Insert(Placement::After, Directive::SpacedScopedSoftline))
    ));
    assert!(capture_from_name("Leaf").is_none());
    assert!(capture_from_name("").is_none());
}
