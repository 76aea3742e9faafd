//! The boundary-stable handle for one tree element, and the entry point
//! that parses source text into either a root handle or the full list of
//! diagnostics — never both.

use vstd::prelude::*;
use vstd::string::StringSliceAdditionalSpecFns;
use crate::diag::SynErr;
use crate::diag::diag_matches;
use crate::element::SyntaxElem;
use crate::element::child_matches;
use crate::element::children_of;
use crate::element::elem_children;
use crate::element::elem_is_token;
use crate::element::elem_kind;
use crate::element::elem_range;
use crate::element::elem_token_text;
use crate::element::end_of;
use crate::element::is_children_projection;
use crate::element::is_token_of;
use crate::element::kind_of;
use crate::element::parse_diags_of;
use crate::element::parse_root_kind_of;
use crate::element::parse_source;
use crate::element::size_of;
use crate::element::start_of;
use crate::element::text_of;
use crate::text_range::TextRange;

verus! {

/// The projection of one element of the syntax tree: an interior node or a
/// token. It is a read-only view; every query goes to the immutable tree
/// underneath.
pub struct SynNode {
    pub node: SyntaxElem,
}

/// `r` projects the direct children of `e`, handle by handle.
pub open spec fn projects_children_of(e: SyntaxElem, r: Seq<SynNode>) -> bool {
    is_children_projection(e, r.map_values(|n: SynNode| n.node))
}

impl SynNode {
    pub fn new(node: SyntaxElem) -> (r: Self)
        ensures
            r.node == node,
    {
        Self { node }
    }

    /// The direct children in document order, freshly projected on this
    /// call; a token has none. Only the direct children are built — the
    /// grandchildren stay unexpanded until asked for.
    pub fn children(&self) -> (r: Vec<SynNode>)
        ensures
            projects_children_of(self.node, r@),
            r@.len() == children_of(self.node).len(),
            is_token_of(self.node) ==> r@.len() == 0,
            forall|i: int|
                0 <= i < r@.len() ==> size_of((#[trigger] r@[i]).node) < size_of(self.node),
    {
        let mut elems = elem_children(&self.node);
        let ghost orig = elems@;
        let mut rev: Vec<SynNode> = Vec::new();
        while elems.len() > 0
            invariant
                rev@.len() + elems@.len() == orig.len(),
                elems@ == orig.subrange(0, elems@.len() as int),
                forall|j: int|
                    0 <= j < rev@.len() ==> (#[trigger] rev@[j]).node == orig[orig.len() - 1 - j],
            decreases elems@.len(),
        {
            proof {
                assert(elems@[elems@.len() - 1] == orig[elems@.len() - 1]);
                assert(orig.subrange(0, elems@.len() as int).drop_last() =~= orig.subrange(
                    0,
                    elems@.len() - 1,
                ));
            }
            let e = elems.pop().unwrap();
            rev.push(SynNode { node: e });
        }
        let mut out: Vec<SynNode> = Vec::new();
        while rev.len() > 0
            invariant
                out@.len() + rev@.len() == orig.len(),
                forall|j: int|
                    0 <= j < rev@.len() ==> (#[trigger] rev@[j]).node == orig[orig.len() - 1 - j],
                forall|j: int| 0 <= j < out@.len() ==> (#[trigger] out@[j]).node == orig[j],
            decreases rev@.len(),
        {
            let n = rev.pop().unwrap();
            out.push(n);
        }
        proof {
            assert(out@.map_values(|n: SynNode| n.node) =~= orig);
        }
        out
    }

    /// True exactly on a token, the leaf variant.
    pub fn is_token(&self) -> (r: bool)
        ensures
            r == is_token_of(self.node),
    {
        elem_is_token(&self.node)
    }

    /// The stable textual rendering of the element's syntactic kind.
    pub fn kind(&self) -> (r: String)
        ensures
            r@ == kind_of(self.node),
    {
        elem_kind(&self.node)
    }

    /// A token's literal source text; an interior node yields the empty
    /// string — reconstructing a node's text is left to the consumer.
    pub fn text(&self) -> (r: String)
        ensures
            is_token_of(self.node) ==> r@ == text_of(self.node),
            !is_token_of(self.node) ==> r@ == Seq::<char>::empty(),
    {
        if elem_is_token(&self.node) {
            elem_token_text(&self.node)
        } else {
            String::new()
        }
    }

    /// The element's half-open byte range; its start never exceeds its end.
    pub fn range(&self) -> (r: TextRange)
        ensures
            r.start == start_of(self.node),
            r.end == end_of(self.node),
            r.start <= r.end,
    {
        let p = elem_range(&self.node);
        TextRange { start: p.0, end: p.1 }
    }

    /// Renders the handle as its kind followed by its byte range, the
    /// stable one-line debug form.
    pub fn to_string(&self) -> (r: String)
        ensures
            r@ == kind_of(self.node) + seq![' '] + crate::text_range::dec_digits(
                start_of(self.node) as int,
            ) + seq!['.', '.'] + crate::text_range::dec_digits(end_of(self.node) as int),
    {
        let mut s = self.kind();
        let blank = " ";
        s.append(blank);
        let t = self.range().to_string();
        s.append(t.as_str());
        proof {
            reveal_strlit(" ");
            assert(blank@ =~= seq![' ']);
            assert((kind_of(self.node) + blank@) + (crate::text_range::dec_digits(
                start_of(self.node) as int,
            ) + seq!['.', '.'] + crate::text_range::dec_digits(end_of(self.node) as int))
                =~= kind_of(self.node) + seq![' '] + crate::text_range::dec_digits(
                start_of(self.node) as int,
            ) + seq!['.', '.'] + crate::text_range::dec_digits(end_of(self.node) as int));
        }
        s
    }

    /// Parses the source text. With no diagnostics, the root handle comes
    /// back: an interior node spanning the whole text. With one or more
    /// diagnostics, the full ordered list of their projections comes back
    /// and no handle onto any tree is exposed at all.
    pub fn from_str(s: &str) -> (r: Result<SynNode, Vec<SynErr>>)
        requires
            s.spec_bytes().len() <= u32::MAX,
        ensures
            match r {
                Ok(root) => {
                    &&& parse_diags_of(s@).len() == 0
                    &&& !is_token_of(root.node)
                    &&& kind_of(root.node) == parse_root_kind_of(s@)
                    &&& start_of(root.node) == 0
                    &&& end_of(root.node) == s.spec_bytes().len()
                },
                Err(errs) => {
                    &&& parse_diags_of(s@).len() > 0
                    &&& errs@.len() == parse_diags_of(s@).len()
                    &&& forall|i: int|
                        0 <= i < errs@.len() ==> diag_matches(
                            parse_diags_of(s@)[i],
                            (#[trigger] errs@[i]).err,
                        )
                },
            },
    {
        let (root, errors) = parse_source(s);
        if errors.len() == 0 {
            Ok(SynNode::new(root))
        } else {
            let mut out: Vec<SynErr> = Vec::new();
            let mut i: usize = 0;
            while i < errors.len()
                invariant
                    i <= errors@.len(),
                    out@.len() == i,
                    forall|j: int|
                        0 <= j < i ==> diag_matches(
                            parse_diags_of(s@)[j],
                            (#[trigger] out@[j]).err,
                        ),
                    errors@.len() == parse_diags_of(s@).len(),
                    forall|j: int|
                        0 <= j < errors@.len() ==> diag_matches(
                            parse_diags_of(s@)[j],
                            #[trigger] errors@[j],
                        ),
                decreases errors@.len() - i,
            {
                out.push(SynErr::new(&errors[i]));
                i = i + 1;
            }
            Err(out)
        }
    }
}

/// The one-line rendering of a handle in a dump: its kind, a blank, its
/// range in decimal, and a newline.
pub open spec fn dump_line(e: SyntaxElem) -> Seq<char> {
    kind_of(e) + seq![' '] + crate::text_range::dec_digits(start_of(e) as int) + seq!['.', '.']
        + crate::text_range::dec_digits(end_of(e) as int) + seq!['\n']
}

/// The rendering of the diagnostic models from index `i` on: each message
/// followed by a newline, in order.
pub open spec fn diag_lines_from(ds: Seq<(Seq<char>, u32, u32)>, i: int) -> Seq<char>
    decreases ds.len() - i,
{
    if i < 0 || i >= ds.len() {
        Seq::empty()
    } else {
        ds[i].0 + seq!['\n'] + diag_lines_from(ds, i + 1)
    }
}

/// Two blanks of indentation per depth level.
pub open spec fn indent_of(depth: int) -> Seq<char> {
    Seq::new((2 * depth) as nat, |i: int| ' ')
}

impl SynNode {
    /// Appends the rendering of the subtree under this handle: this
    /// handle's own indented line, then its children's subtrees in
    /// document order, one level deeper. Everything already in `out` stays
    /// untouched in place.
    fn dump_into(&self, depth: usize, out: &mut String)
        ensures
            final(out)@.len() >= old(out)@.len() + indent_of(depth as int).len() + dump_line(
                self.node,
            ).len(),
            final(out)@.subrange(0, old(out)@.len() as int) == old(out)@,
            final(out)@.subrange(
                old(out)@.len() as int,
                old(out)@.len() + indent_of(depth as int).len() + dump_line(self.node).len()
                    as int,
            ) == indent_of(depth as int) + dump_line(self.node),
        decreases size_of(self.node),
    {
        let ghost base = out@;
        let mut j: usize = 0;
        while j < depth
            invariant
                j <= depth,
                out@ == base + indent_of(j as int),
            decreases depth - j,
        {
            let ind = "  ";
            out.append(ind);
            proof {
                reveal_strlit("  ");
                assert(out@ =~= base + indent_of(j + 1));
            }
            j = j + 1;
        }
        let line = self.to_string();
        out.append(line.as_str());
        let nl = "\n";
        out.append(nl);
        proof {
            reveal_strlit("\n");
            assert(nl@ =~= seq!['\n']);
            assert(out@ =~= base + (indent_of(depth as int) + dump_line(self.node)));
        }
        let ghost headed = out@;
        let cs = self.children();
        let mut i: usize = 0;
        while i < cs.len()
            invariant
                i <= cs@.len(),
                forall|k: int|
                    0 <= k < cs@.len() ==> size_of((#[trigger] cs@[k]).node) < size_of(self.node),
                out@.len() >= headed.len(),
                out@.subrange(0, headed.len() as int) == headed,
            decreases cs@.len() - i,
        {
            let ghost before = out@;
            let deeper: usize = if depth < usize::MAX {
                depth + 1
            } else {
                depth
            };
            cs[i].dump_into(deeper, out);
            proof {
                assert(out@.subrange(0, headed.len() as int) =~= before.subrange(
                    0,
                    headed.len() as int,
                ));
            }
            i = i + 1;
        }
        proof {
            let hl: int = headed.len() as int;
            assert forall|k: int| 0 <= k < hl implies out@[k] == headed[k] by {
                assert(out@.subrange(0, hl)[k] == out@[k]);
            }
            assert(out@.subrange(0, base.len() as int) =~= base);
            let tail = indent_of(depth as int) + dump_line(self.node);
            assert(hl - base.len() == tail.len());
            assert forall|k: int|
                0 <= k < tail.len() implies out@.subrange(base.len() as int, hl)[k] == tail[k] by {
                assert(out@.subrange(base.len() as int, hl)[k] == out@[base.len() + k]);
                assert(out@[base.len() + k] == headed[base.len() + k]);
                assert(headed[base.len() + k] == tail[k]);
            }
            assert(out@.subrange(base.len() as int, hl) =~= tail);
        }
    }

    /// A full textual rendering of the subtree under this handle, for
    /// debugging and visualization: one line per element in depth-first
    /// document order, indented two blanks per depth level. The rendering
    /// opens with this handle's own line; the format is fixed for a given
    /// tree.
    pub fn dump(&self) -> (r: String)
        ensures
            r@.len() >= dump_line(self.node).len(),
            r@.subrange(0, dump_line(self.node).len() as int) == dump_line(self.node),
    {
        let mut out = String::new();
        self.dump_into(0, &mut out);
        proof {
            assert(indent_of(0) =~= Seq::<char>::empty());
            assert(indent_of(0) + dump_line(self.node) =~= dump_line(self.node));
        }
        out
    }
}

/// The opening line of a clean parse's dump: the root's kind and the whole
/// text's byte range.
pub open spec fn root_dump_line(s: Seq<char>, byte_len: int) -> Seq<char> {
    parse_root_kind_of(s) + seq![' '] + crate::text_range::dec_digits(0) + seq!['.', '.']
        + crate::text_range::dec_digits(byte_len) + seq!['\n']
}

/// A full textual rendering of the parse of `s`, for debugging: with a
/// clean parse, the depth-first dump of the whole tree, opening with the
/// root's own line; with diagnostics, one line per diagnostic message, in
/// the parser's order, and no tree.
pub fn dump(s: &str) -> (r: String)
    requires
        s.spec_bytes().len() <= u32::MAX,
    ensures
        parse_diags_of(s@).len() > 0 ==> r@ == diag_lines_from(parse_diags_of(s@), 0),
        parse_diags_of(s@).len() == 0 ==> ({
            let line = root_dump_line(s@, s.spec_bytes().len() as int);
            &&& r@.len() >= line.len()
            &&& r@.subrange(0, line.len() as int) == line
        }),
{
    match SynNode::from_str(s) {
        Ok(root) => {
            let text = root.dump();
            proof {
                assert(dump_line(root.node) =~= root_dump_line(
                    s@,
                    s.spec_bytes().len() as int,
                ));
            }
            text
        },
        Err(errs) => {
            let ghost ds = parse_diags_of(s@);
            let mut out = String::new();
            let nl = "\n";
            proof {
                reveal_strlit("\n");
                assert(nl@ =~= seq!['\n']);
                assert(out@ + diag_lines_from(ds, 0) =~= diag_lines_from(ds, 0));
            }
            let mut i: usize = 0;
            while i < errs.len()
                invariant
                    i <= errs@.len(),
                    errs@.len() == ds.len(),
                    nl@ == seq!['\n'],
                    forall|j: int|
                        0 <= j < errs@.len() ==> diag_matches(ds[j], (#[trigger] errs@[j]).err),
                    out@ + diag_lines_from(ds, i as int) == diag_lines_from(ds, 0),
                decreases errs@.len() - i,
            {
                let line = errs[i].to_string();
                let ghost before = out@;
                out.append(line.as_str());
                out.append(nl);
                proof {
                    assert(diag_lines_from(ds, i as int) == ds[i as int].0 + seq!['\n']
                        + diag_lines_from(ds, i + 1));
                    assert(out@ + diag_lines_from(ds, i + 1) =~= before + diag_lines_from(
                        ds,
                        i as int,
                    ));
                }
                i = i + 1;
            }
            proof {
                assert(diag_lines_from(ds, i as int) =~= Seq::<char>::empty());
                assert(out@ + Seq::<char>::empty() =~= out@);
            }
            out
        },
    }
}

/// Two projections of one element's children agree in length and, child by
/// child, in leafness, kind and range: `children` is structurally
/// deterministic, even though each call builds fresh handles.
pub proof fn lemma_children_structurally_equal(e: SyntaxElem, r1: Seq<SynNode>, r2: Seq<SynNode>)
    requires
        projects_children_of(e, r1),
        projects_children_of(e, r2),
    ensures
        r1.len() == r2.len(),
        forall|i: int|
            0 <= i < r1.len() ==> {
                &&& is_token_of((#[trigger] r1[i]).node) == is_token_of(r2[i].node)
                &&& kind_of(r1[i].node) == kind_of(r2[i].node)
                &&& start_of(r1[i].node) == start_of(r2[i].node)
                &&& end_of(r1[i].node) == end_of(r2[i].node)
            },
{
    let m1 = r1.map_values(|n: SynNode| n.node);
    let m2 = r2.map_values(|n: SynNode| n.node);
    assert forall|i: int| 0 <= i < r1.len() implies {
        &&& is_token_of((#[trigger] r1[i]).node) == is_token_of(r2[i].node)
        &&& kind_of(r1[i].node) == kind_of(r2[i].node)
        &&& start_of(r1[i].node) == start_of(r2[i].node)
        &&& end_of(r1[i].node) == end_of(r2[i].node)
    } by {
        assert(child_matches(children_of(e)[i], m1[i]));
        assert(child_matches(children_of(e)[i], m2[i]));
    }
}

/// Every child of a node lies within the node's own range, and consecutive
/// children do not overlap: their ranges are non-decreasing, each ending no
/// later than the next begins.
pub proof fn lemma_children_within_parent(e: SyntaxElem, r: Seq<SynNode>)
    requires
        projects_children_of(e, r),
    ensures
        forall|i: int|
            0 <= i < r.len() ==> start_of(e) <= start_of((#[trigger] r[i]).node) && end_of(
                r[i].node,
            ) <= end_of(e),
        forall|i: int|
            0 <= i && i + 1 < r.len() ==> end_of((#[trigger] r[i]).node) <= start_of(
                r[i + 1].node,
            ),
{
    let m = r.map_values(|n: SynNode| n.node);
    assert(m.len() == r.len());
    assert forall|i: int| 0 <= i < r.len() implies start_of(e) <= start_of(
        (#[trigger] r[i]).node,
    ) && end_of(r[i].node) <= end_of(e) by {
        assert(m[i] == r[i].node);
        lemma_prefix_bound(e, m, i);
        lemma_suffix_bound(e, m, i);
    }
    assert forall|i: int| 0 <= i && i + 1 < r.len() implies end_of(
        (#[trigger] r[i]).node,
    ) <= start_of(r[i + 1].node) by {
        assert(m[i] == r[i].node);
        assert(m[i + 1] == r[i + 1].node);
        assert(end_of(m[i]) == start_of(m[i + 1]));
    }
}

/// Within a children projection, the start of child `i` is no earlier than
/// the parent's start.
proof fn lemma_prefix_bound(e: SyntaxElem, m: Seq<SyntaxElem>, i: int)
    requires
        is_children_projection(e, m),
        0 <= i < m.len(),
    ensures
        start_of(e) <= start_of(m[i]),
    decreases i,
{
    if i > 0 {
        lemma_prefix_bound(e, m, i - 1);
    }
}

/// Within a children projection, the end of child `i` is no later than the
/// parent's end.
proof fn lemma_suffix_bound(e: SyntaxElem, m: Seq<SyntaxElem>, i: int)
    requires
        is_children_projection(e, m),
        0 <= i < m.len(),
    ensures
        end_of(m[i]) <= end_of(e),
    decreases m.len() - i,
{
    if i < m.len() - 1 {
        lemma_suffix_bound(e, m, i + 1);
    }
}

} // verus!
