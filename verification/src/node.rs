//! Tree nodes produced by the parser, together with the span discipline
//! that relates every node back to the scanned source bytes.
//!
//! Every node emitted by the inline engine carries a source span: the
//! half-open byte range `[start, end)` of the scanned content that the node
//! stands for.  Sibling nodes tile their range without gaps, so that
//! concatenating the text and markup of all leaves in source order, and
//! substituting children recursively, reproduces the scanned bytes.

use vstd::prelude::*;

verus! {

broadcast use {
    vstd::std_specs::vec::axiom_vec_index_decreases,
    vstd::std_specs::vec::axiom_vec_decreases_to_view,
    vstd::seq::axiom_seq_index_decreases,
};

/// A half-open byte range `[start, end)` into the scanned source.
#[derive(Clone, Copy, Debug, PartialEq, Eq, Structural)]
pub struct Srcmap {
    pub start: usize,
    pub end: usize,
}

/// Plain text copied verbatim from the source.
#[derive(Debug, Clone)]
pub struct Text {
    pub content: Vec<u8>,
}

/// Text whose rendered content differs from its source markup
/// (an entity reference, for example).
#[derive(Debug, Clone)]
pub struct TextSpecial {
    pub content: Vec<u8>,
    pub markup: Vec<u8>,
}

/// An autolink `<scheme:rest>` or `<email@host>`.
#[derive(Debug, Clone)]
pub struct Autolink {
    pub url: Vec<u8>,
}

/// A raw HTML inline tag, kept verbatim.
#[derive(Debug, Clone)]
pub struct HtmlInline {
    pub content: Vec<u8>,
}

/// A hard line break (two trailing spaces before the newline).
#[derive(Debug, Clone)]
pub struct Hardbreak;

/// A soft line break (a plain newline).
#[derive(Debug, Clone)]
pub struct Softbreak;

/// An ATX heading `#`..`######`; `level` is 1 to 6.
#[derive(Debug, Clone)]
pub struct ATXHeading {
    pub level: u8,
}

/// A setext heading underlined with `===` (level 1) or `---` (level 2).
#[derive(Debug, Clone)]
pub struct SetextHeader {
    pub level: u8,
    pub marker: u8,
}

/// A placeholder emitted by the block phase: raw inline content plus a
/// `(local_offset, global_offset)` mapping used to reconstruct document
/// positions.  The inline driver replaces it with its parsed children.
#[derive(Debug, Clone)]
pub struct InlineRoot {
    pub content: Vec<u8>,
    pub mapping: Vec<(usize, usize)>,
}

/// The payload variant identifying a node's kind.
#[derive(Debug, Clone)]
pub enum NodeValue {
    Root,
    Text(Text),
    TextSpecial(TextSpecial),
    Link { url: Option<Vec<u8>>, title: Option<Vec<u8>> },
    Image { url: Option<Vec<u8>>, title: Option<Vec<u8>> },
    CustomLink { tag: u32, url: Option<Vec<u8>>, title: Option<Vec<u8>> },
    Autolink(Autolink),
    HtmlInline(HtmlInline),
    Hardbreak(Hardbreak),
    Softbreak(Softbreak),
    ATXHeading(ATXHeading),
    SetextHeader(SetextHeader),
    InlineRoot(InlineRoot),
}

/// A tree node: a payload, an ordered child list, and an optional span.
#[derive(Debug)]
pub struct Node {
    pub payload: NodeValue,
    pub children: Vec<Node>,
    pub srcmap: Option<Srcmap>,
}

impl Node {
    /// A childless node with the given payload and span.
    pub fn leaf(payload: NodeValue, start: usize, end: usize) -> (n: Node)
        requires
            start <= end,
        ensures
            n.payload == payload,
            n.children@.len() == 0,
            n.srcmap == Some(Srcmap { start, end }),
    {
        Node { payload, children: Vec::new(), srcmap: Some(Srcmap { start, end }) }
    }

    /// A fresh unmapped node with no children.
    pub fn fresh(payload: NodeValue) -> (n: Node)
        ensures
            n.payload == payload,
            n.children@.len() == 0,
            n.srcmap is None,
    {
        Node { payload, children: Vec::new(), srcmap: None }
    }
}

/// Nodes `ns[k..]` tile the byte range `[a, b)`: the first span starts at
/// `a`, each span starts where the previous one ended, and the last span
/// ends at `b`.
pub open spec fn tiled_from(ns: Seq<Node>, k: int, a: int, b: int) -> bool
    decreases ns.len() - k,
{
    if k >= ns.len() || k < 0 {
        a == b
    } else {
        &&& ns[k].srcmap matches Some(sm)
        &&& sm.start == a
        &&& sm.start <= sm.end <= b
        &&& tiled_from(ns, k + 1, ns[k].srcmap->Some_0.end as int, b)
    }
}

/// The whole sibling list tiles `[a, b)`.
pub open spec fn tile(ns: Seq<Node>, a: int, b: int) -> bool {
    tiled_from(ns, 0, a, b)
}

/// Is this node a committed link?  Used to state that a label scanned with
/// nesting disabled captures no link among its children.
pub open spec fn is_link_node(n: Node) -> bool {
    n.payload is Link
}

/// No committed link occurs in the sibling list.
pub open spec fn links_free(ns: Seq<Node>) -> bool {
    forall|i: int| 0 <= i < ns.len() ==> !is_link_node(#[trigger] ns[i])
}

/// Leaf fidelity: a text leaf holds exactly its source bytes, and a
/// special-text leaf's markup is exactly its source bytes.
pub open spec fn leaf_ok(n: Node, src: Seq<u8>) -> bool {
    match n.payload {
        NodeValue::Text(t) => n.srcmap matches Some(sm) && t.content@ == src.subrange(
            sm.start as int,
            sm.end as int,
        ),
        NodeValue::TextSpecial(t) => n.srcmap matches Some(sm) && t.markup@ == src.subrange(
            sm.start as int,
            sm.end as int,
        ),
        _ => true,
    }
}

/// Well-formedness of a node against the scanned source: spans lie inside
/// the source, children tile a subrange of their parent's span, and leaves
/// are faithful to their bytes.
pub open spec fn node_wf(n: Node, src: Seq<u8>) -> bool
    decreases n,
{
    &&& !(n.payload is InlineRoot)
    &&& (n.srcmap matches Some(sm) ==> sm.start <= sm.end <= src.len())
    &&& (n.children@.len() > 0 ==> {
        &&& n.srcmap matches Some(sm)
        &&& exists|a: int, b: int|
            sm.start <= a <= b <= sm.end && #[trigger] tile(n.children@, a, b)
    })
    &&& (forall|i: int| 0 <= i < n.children@.len() ==> node_wf(#[trigger] n.children@[i], src))
    &&& leaf_ok(n, src)
}

/// The bytes a node stands for: a text leaf contributes its content, a
/// special-text leaf its markup, any other childless node its source slice,
/// and a node with children its source slice with the children's range
/// replaced by their own reconstruction.
pub open spec fn node_text(n: Node, src: Seq<u8>) -> Seq<u8>
    decreases n, 1int, 0int,
{
    match n.payload {
        NodeValue::Text(t) => t.content@,
        NodeValue::TextSpecial(t) => t.markup@,
        _ => match n.srcmap {
            Some(sm) => if n.children@.len() == 0 {
                src.subrange(sm.start as int, sm.end as int)
            } else {
                let lo = n.children@[0].srcmap->Some_0.start as int;
                let hi = n.children@[n.children@.len() - 1].srcmap->Some_0.end as int;
                src.subrange(sm.start as int, lo) + nodes_text_from(n.children@, src, 0)
                    + src.subrange(hi, sm.end as int)
            },
            None => nodes_text_from(n.children@, src, 0),
        },
    }
}

/// Concatenation of `node_text` over `ns[k..]`.
pub open spec fn nodes_text_from(ns: Seq<Node>, src: Seq<u8>, k: int) -> Seq<u8>
    decreases ns, 0int, ns.len() - k,
{
    if k >= ns.len() || k < 0 {
        Seq::empty()
    } else {
        node_text(ns[k], src) + nodes_text_from(ns, src, k + 1)
    }
}

/// No placeholder from the block phase remains anywhere in the tree.
pub open spec fn no_inline_root(n: Node) -> bool
    decreases n,
{
    &&& !(n.payload is InlineRoot)
    &&& forall|i: int| 0 <= i < n.children@.len() ==> no_inline_root(#[trigger] n.children@[i])
}

/// Scan-produced well-formed nodes contain no placeholder.
pub proof fn lemma_wf_no_inline_root(n: Node, src: Seq<u8>)
    requires
        node_wf(n, src),
    ensures
        no_inline_root(n),
    decreases n,
{
    assert forall|i: int| 0 <= i < n.children@.len() implies no_inline_root(
        #[trigger] n.children@[i],
    ) by {
        lemma_wf_no_inline_root(n.children@[i], src);
    }
}

/// A tiled range has `a <= b`.
pub proof fn lemma_tiled_from_bounds(ns: Seq<Node>, k: int, a: int, b: int)
    requires
        tiled_from(ns, k, a, b),
    ensures
        a <= b,
    decreases ns.len() - k,
{
    if 0 <= k < ns.len() {
        lemma_tiled_from_bounds(ns, k + 1, ns[k].srcmap->Some_0.end as int, b);
    }
}

/// Appending a node whose span starts exactly at the tiled range's end
/// extends the tiling to the new node's end.
pub proof fn lemma_tiled_from_push(ns: Seq<Node>, n: Node, k: int, a: int, b: int, c: int)
    requires
        0 <= k <= ns.len(),
        tiled_from(ns, k, a, b),
        b <= c,
        n.srcmap matches Some(sm) && sm.start == b && sm.end == c,
    ensures
        tiled_from(ns.push(n), k, a, c),
    decreases ns.len() - k,
{
    if k == ns.len() {
        assert(ns.push(n)[k] == n);
        assert(tiled_from(ns.push(n), k + 1, c, c));
        assert(tiled_from(ns.push(n), k, a, c));
    } else {
        assert(ns.push(n)[k] == ns[k]);
        assert(b <= c);
        lemma_tiled_from_push(ns, n, k + 1, ns[k].srcmap->Some_0.end as int, b, c);
        lemma_tiled_from_bounds(ns, k + 1, ns[k].srcmap->Some_0.end as int, b);
        assert(tiled_from(ns.push(n), k, a, c));
    }
}

/// Replacing the last node with one of the same start (and a possibly
/// different end) re-tiles the range to the new end.
pub proof fn lemma_tiled_from_update_last(ns: Seq<Node>, n2: Node, k: int, a: int, b: int, b2: int)
    requires
        0 <= k < ns.len(),
        tiled_from(ns, k, a, b),
        n2.srcmap matches Some(sm2) && sm2.start == ns[ns.len() - 1].srcmap->Some_0.start
            && sm2.end == b2 && sm2.start <= b2,
    ensures
        tiled_from(ns.update(ns.len() - 1, n2), k, a, b2),
    decreases ns.len() - k,
{
    let us = ns.update(ns.len() - 1, n2);
    if k == ns.len() - 1 {
        assert(us[k] == n2);
        assert(tiled_from(ns, k + 1, ns[k].srcmap->Some_0.end as int, b));
        assert(tiled_from(us, k + 1, b2, b2));
    } else {
        assert(us[k] == ns[k]);
        lemma_tiled_from_update_last(ns, n2, k + 1, ns[k].srcmap->Some_0.end as int, b, b2);
        lemma_tiled_from_bounds(us, k + 1, ns[k].srcmap->Some_0.end as int, b2);
    }
}

/// Pushing a node that is not a link preserves link-freedom.
pub proof fn lemma_links_free_push(ns: Seq<Node>, n: Node)
    requires
        links_free(ns),
        !is_link_node(n),
    ensures
        links_free(ns.push(n)),
{
    assert forall|i: int| 0 <= i < ns.push(n).len() implies !is_link_node(ns.push(n)[i]) by {
        if i < ns.len() {
            assert(ns.push(n)[i] == ns[i]);
        } else {
            assert(ns.push(n)[i] == n);
        }
    }
}

/// Updating an element to a non-link preserves link-freedom.
pub proof fn lemma_links_free_update(ns: Seq<Node>, j: int, n: Node)
    requires
        links_free(ns),
        0 <= j < ns.len(),
        !is_link_node(n),
    ensures
        links_free(ns.update(j, n)),
{
    assert forall|i: int| 0 <= i < ns.update(j, n).len() implies !is_link_node(
        ns.update(j, n)[i],
    ) by {
        if i != j {
            assert(ns.update(j, n)[i] == ns[i]);
        }
    }
}

} // verus!
