use cst_view::SynNode;
use cst_view::TextRange;

fn parse_clean(src: &str) -> SynNode {
    match SynNode::from_str(src) {
        Ok(root) => root,
        Err(_) => panic!("source was expected to parse without diagnostics"),
    }
}

#[test]
fn empty_source_parses_clean() {
    let root = parse_clean("");
    let range = root.range();
    assert_eq!(range.start(), 0);
    assert_eq!(range.end(), 0);
    assert!(!root.is_token());
    assert_eq!(root.children().len(), 0);
    assert_eq!(root.kind(), "SOURCE_FILE");
    assert_eq!(root.text(), "");
}

#[test]
fn clean_parse_root_spans_whole_text() {
    let src = "fn main() {}";
    let root = parse_clean(src);
    let range = root.range();
    assert_eq!(range.start(), 0);
    assert_eq!(range.end(), src.len() as u32);
    assert_eq!(root.kind(), "SOURCE_FILE");
}

#[test]
fn children_called_twice_agree_structurally() {
    let root = parse_clean("fn main() {}\nfn other() {}\n");
    let a = root.children();
    let b = root.children();
    assert_eq!(a.len(), b.len());
    for (x, y) in a.iter().zip(b.iter()) {
        assert_eq!(x.kind(), y.kind());
        assert_eq!(x.is_token(), y.is_token());
        assert_eq!(x.range().start(), y.range().start());
        assert_eq!(x.range().end(), y.range().end());
    }
}

#[test]
fn children_lie_within_parent_in_order() {
    let root = parse_clean("fn a() {}\nfn b() { 1 + 2; }\n");
    let mut stack = vec![root];
    while let Some(node) = stack.pop() {
        let parent = node.range();
        assert!(parent.start() <= parent.end());
        let kids = node.children();
        if node.is_token() {
            assert!(kids.is_empty());
        }
        let mut prev_end: u32 = parent.start();
        for k in &kids {
            let r = k.range();
            assert!(r.start() <= r.end());
            assert!(parent.start() <= r.start());
            assert!(r.end() <= parent.end());
            assert!(prev_end <= r.start());
            prev_end = r.end();
        }
        stack.extend(kids);
    }
}

#[test]
fn token_projection_is_a_leaf() {
    let root = parse_clean("fn main() {}");
    let top = root.children();
    assert_eq!(top.len(), 1);
    let f = &top[0];
    assert_eq!(f.kind(), "FN");
    assert!(!f.is_token());
    assert_eq!(f.text(), "");
    let parts = f.children();
    assert!(parts.len() >= 2);
    let kw = &parts[0];
    assert!(kw.is_token());
    assert_eq!(kw.kind(), "FN_KW");
    assert_eq!(kw.text(), "fn");
    assert_eq!(kw.range().start(), 0);
    assert_eq!(kw.range().end(), 2);
    assert_eq!(kw.children().len(), 0);
}

#[test]
fn invalid_source_yields_diagnostics_and_no_tree() {
    let r = SynNode::from_str("a+b");
    let errs = match r {
        Ok(_) => panic!("a bare expression is not a valid source file"),
        Err(errs) => errs,
    };
    assert_eq!(errs.len(), 3);
    for e in &errs {
        assert!(!e.to_string().is_empty());
        let range = e.range();
        assert!(range.start() <= range.end());
        assert!(range.end() <= 3);
    }
}

#[test]
fn diagnostic_count_is_stable_across_calls() {
    let n1: usize = SynNode::from_str("a+b").err().expect("must fail").len();
    let n2: usize = SynNode::from_str("a+b").err().expect("must fail").len();
    assert_eq!(n1, n2);
}

#[test]
fn node_to_string_is_kind_and_range() {
    let src = "fn main() {}";
    let root = parse_clean(src);
    assert_eq!(root.to_string(), "SOURCE_FILE 0..12");
}

#[test]
fn dump_of_clean_source_opens_with_root_line() {
    let text = cst_view::dump("fn main() {}");
    assert!(text.starts_with("SOURCE_FILE 0..12\n"));
    assert!(text.contains("  FN 0..12\n"));
    assert!(text.ends_with("\n"));
}

#[test]
fn dump_of_invalid_source_lists_messages() {
    let root_err = SynNode::from_str("a+b").err().expect("must fail");
    let text = cst_view::dump("a+b");
    let expected: String = root_err.iter().map(|e| format!("{}\n", e.to_string())).collect();
    assert_eq!(text, expected);
}

#[test]
fn range_accessors_and_rendering() {
    let r = TextRange::from((3, 17));
    assert_eq!(r.start(), 3);
    assert_eq!(r.end(), 17);
    assert_eq!(r.to_string(), "3..17");
    let zero = TextRange::from((0, 0));
    assert_eq!(zero.to_string(), "0..0");
    let big = TextRange::from((0, 4294967295));
    assert_eq!(big.to_string(), "0..4294967295");
}
