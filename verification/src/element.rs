//! The opaque holder for one element of the external syntax tree, and the
//! trusted boundary onto the external parser.
//!
//! The tree is built and owned by the external parser crate; this module
//! never inspects it. Everything the rest of the crate states about an
//! element goes through the named spec functions below, which the trusted
//! wrappers tie to the external calls.

use vstd::prelude::*;
use vstd::string::StringSliceAdditionalSpecFns;
use ra_ap_syntax::Edition;
use ra_ap_syntax::NodeOrToken;
use ra_ap_syntax::SourceFile;
use ra_ap_syntax::SyntaxError;

verus! {

/// One element of the external syntax tree: an interior node or a token.
/// Verus sees this holder as opaque; its meaning is carried by the named
/// spec functions below.
#[verifier::external_body]
pub struct SyntaxElem {
    inner: ra_ap_syntax::SyntaxElement,
}

/// Whether the element is a token (a leaf), as the external
/// `NodeOrToken::as_token` tells the two variants apart.
pub uninterp spec fn is_token_of(e: SyntaxElem) -> bool;

/// The textual rendering of the element's syntactic kind, as the external
/// `SyntaxKind`'s derived `Debug` formatting yields it.
pub uninterp spec fn kind_of(e: SyntaxElem) -> Seq<char>;

/// The start of the element's byte range, from the external `text_range`.
pub uninterp spec fn start_of(e: SyntaxElem) -> u32;

/// The end of the element's byte range, from the external `text_range`.
pub uninterp spec fn end_of(e: SyntaxElem) -> u32;

/// A token's literal source text, from the external `SyntaxToken::text`.
pub uninterp spec fn text_of(e: SyntaxElem) -> Seq<char>;

/// The models — (is-token, kind, start, end) — of a node's direct children
/// in document order, from the external `children_with_tokens`.
pub uninterp spec fn children_of(e: SyntaxElem) -> Seq<(bool, Seq<char>, u32, u32)>;

/// The number of elements in the subtree under `e`. The external tree is
/// finite and acyclic, so a child's subtree is strictly smaller than its
/// parent's; tree walks decrease on this measure.
pub uninterp spec fn size_of(e: SyntaxElem) -> nat;

/// The models — (message, start, end) — of the diagnostics the external
/// parser reports for a source text, in the parser's order.
pub uninterp spec fn parse_diags_of(s: Seq<char>) -> Seq<(Seq<char>, u32, u32)>;

/// The kind rendering of the root the external parser builds for a source
/// text: parsing is deterministic, a function of the text alone.
pub uninterp spec fn parse_root_kind_of(s: Seq<char>) -> Seq<char>;

/// The element `c` matches the model `m`: same leafness, kind and range.
pub open spec fn child_matches(m: (bool, Seq<char>, u32, u32), c: SyntaxElem) -> bool {
    &&& is_token_of(c) == m.0
    &&& kind_of(c) == m.1
    &&& start_of(c) == m.2
    &&& end_of(c) == m.3
}

/// `r` is a projection of the direct children of `e`: one element per model
/// in `children_of(e)`, in order; a token projects to no children; every
/// child's range is well-formed, consecutive children abut, and the
/// children collectively span the parent's own range.
pub open spec fn is_children_projection(e: SyntaxElem, r: Seq<SyntaxElem>) -> bool {
    &&& r.len() == children_of(e).len()
    &&& forall|i: int| 0 <= i < r.len() ==> child_matches(children_of(e)[i], #[trigger] r[i])
    &&& (is_token_of(e) ==> r.len() == 0)
    &&& forall|i: int| 0 <= i < r.len() ==> start_of(#[trigger] r[i]) <= end_of(r[i])
    &&& forall|i: int|
        0 <= i && i + 1 < r.len() ==> end_of(#[trigger] r[i]) == start_of(r[i + 1])
    &&& (r.len() > 0 ==> start_of(r[0]) == start_of(e) && end_of(r[r.len() - 1]) == end_of(e))
}

/// Relies on rowan's `NodeOrToken::as_token`: it returns `Some` exactly on
/// the token variant.
#[verifier::external_body]
pub fn elem_is_token(e: &SyntaxElem) -> (r: bool)
    ensures
        r == is_token_of(*e),
{
    e.inner.as_token().is_some()
}

/// Relies on the external `kind` and the derived `Debug` of `SyntaxKind`:
/// the rendering is a fixed function of the element's kind tag alone.
#[verifier::external_body]
pub fn elem_kind(e: &SyntaxElem) -> (r: String)
    ensures
        r@ == kind_of(*e),
{
    format!("{:?}", e.inner.kind())
}

/// Relies on the external `text_range`, whose `TextRange` type keeps
/// `start <= end` by construction; the offsets convert losslessly to `u32`.
#[verifier::external_body]
pub fn elem_range(e: &SyntaxElem) -> (r: (u32, u32))
    ensures
        r.0 == start_of(*e),
        r.1 == end_of(*e),
        r.0 <= r.1,
{
    let tr = e.inner.text_range();
    (tr.start().into(), tr.end().into())
}

/// Relies on the external `SyntaxToken::text`: the token's literal slice of
/// the source text.
#[verifier::external_body]
pub fn elem_token_text(e: &SyntaxElem) -> (r: String)
    requires
        is_token_of(*e),
    ensures
        r@ == text_of(*e),
{
    match &e.inner {
        NodeOrToken::Node(_) => String::new(),
        NodeOrToken::Token(t) => t.text().to_string(),
    }
}

/// Relies on the external `children_with_tokens`: the direct children of a
/// node in document order. In the external tree a node's text is the
/// concatenation of its children's texts, so the children's ranges abut one
/// another and together cover the node's own range exactly.
#[verifier::external_body]
pub fn elem_children(e: &SyntaxElem) -> (r: Vec<SyntaxElem>)
    ensures
        r@.len() == children_of(*e).len(),
        is_children_projection(*e, r@),
        forall|i: int| 0 <= i < r@.len() ==> size_of(#[trigger] r@[i]) < size_of(*e),
{
    match &e.inner {
        NodeOrToken::Node(n) => n
            .children_with_tokens()
            .map(|c| SyntaxElem { inner: c })
            .collect(),
        NodeOrToken::Token(_) => Vec::new(),
    }
}

/// Relies on the external `SourceFile::parse`: it always builds a tree over
/// the whole text — the root is an interior node whose range is `[0, byte
/// length of the source)` — and reports its diagnostics in a fixed order, a
/// function of the text alone. Texts longer than `u32::MAX` bytes do not
/// fit the external offset type and are left out.
#[verifier::external_body]
pub fn parse_source(s: &str) -> (r: (SyntaxElem, Vec<SyntaxError>))
    requires
        s.spec_bytes().len() <= u32::MAX,
    ensures
        !is_token_of(r.0),
        kind_of(r.0) == parse_root_kind_of(s@),
        start_of(r.0) == 0,
        end_of(r.0) == s.spec_bytes().len(),
        r.1@.len() == parse_diags_of(s@).len(),
        forall|i: int|
            0 <= i < r.1@.len() ==> crate::diag::diag_matches(
                parse_diags_of(s@)[i],
                #[trigger] r.1@[i],
            ),
{
    let parsed = SourceFile::parse(s, Edition::CURRENT);
    let errors = parsed.errors();
    let root = SyntaxElem { inner: NodeOrToken::Node(parsed.syntax_node()) };
    (root, errors)
}

} // verus!
