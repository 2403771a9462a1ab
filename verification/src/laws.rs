//! The library's global laws.
//!
//! - Source coverage: the children an inline scan produces tile the whole
//!   scanned range (an ensures of `engine::tokenize` through
//!   `InlineState::wf`), and tiled well-formed nodes reconstruct the
//!   source byte for byte (`lemma_render_positions_cover`).
//! - Normalization is idempotent (`text_norm::lemma_normalize_idempotent`).
//! - Totality and bounded nesting: every engine function is verified
//!   panic-free, and the label scanner's depth stays within
//!   `max_nesting` (the `depth` clauses on the engine contracts).
//! - Cache discipline: a cached label offset is never re-parsed, a hit
//!   answers with its stored end, a miss answers no-match, and a fresh
//!   scan memoizes its outcome (the cache ensures of
//!   `engine::parse_link_label`).
//! - Commitment: what each rule appends on a match is pinned by
//!   `engine::link_commit`, `entity::entity_commit`,
//!   `autolink::autolink_commit`, `html_inline::html_commit` and the
//!   newline rule's break clauses; `engine::tokenize_one` produces a
//!   token only through a rule registered for the marker byte, and an
//!   all-inert position forces the text fallback.
//! - Owed success: a fresh, plainly-text label is owed its closing
//!   bracket (`engine::parse_link_label`), and the link parser is owed a
//!   commit on a well-formed inline tail, a resolving shortcut, and a
//!   resolving full or collapsed reference over plainly-text labels
//!   (`engine::owed_inline_commit`, `owed_shortcut_commit`,
//!   `owed_reference_commit`, carried through `link_run` and the public
//!   scanners).
//! - Reference resolution: the second label decides when present and
//!   non-empty, else the primary one (`lemma_full_reference_uses_second`,
//!   `lemma_collapsed_and_shortcut_use_primary`).
//! - No nested links: a label scanned with nesting disabled captures no
//!   link children (the links-free ensures of `engine::parse_link_label`).

use vstd::prelude::*;
use crate::node::{
    node_text, node_wf, nodes_text_from, tile, tiled_from, Node, NodeValue,
};
use crate::refmap::{normalize_label_spec, resolve_spec, ReferenceMap};

verus! {

broadcast use {
    vstd::std_specs::vec::axiom_vec_index_decreases,
    vstd::std_specs::vec::axiom_vec_decreases_to_view,
    vstd::seq::axiom_seq_index_decreases,
};

/// In a tiled sibling list the last span ends exactly at the range's end.
proof fn lemma_tiled_last(ns: Seq<Node>, k: int, a: int, b: int)
    requires
        0 <= k < ns.len(),
        tiled_from(ns, k, a, b),
    ensures
        ns[ns.len() - 1].srcmap matches Some(sm) && sm.end == b,
    decreases ns.len() - k,
{
    if k == ns.len() - 1 {
        assert(tiled_from(ns, k + 1, ns[k].srcmap->Some_0.end as int, b));
    } else {
        lemma_tiled_last(ns, k + 1, ns[k].srcmap->Some_0.end as int, b);
    }
}

/// A well-formed mapped node reconstructs exactly its own source slice.
pub proof fn lemma_node_text_covers(n: Node, src: Seq<u8>)
    requires
        node_wf(n, src),
        n.srcmap is Some,
    ensures
        node_text(n, src) == src.subrange(
            n.srcmap->Some_0.start as int,
            n.srcmap->Some_0.end as int,
        ),
    decreases n, 1int, 0int,
{
    let sm = n.srcmap->Some_0;
    match n.payload {
        NodeValue::Text(t) => {},
        NodeValue::TextSpecial(t) => {},
        _ => {
            if n.children@.len() == 0 {
            } else {
                let (a, b) = choose|a: int, b: int|
                    sm.start <= a <= b <= sm.end && #[trigger] tile(n.children@, a, b);
                assert(tiled_from(n.children@, 0, a, b));
                assert(n.children@[0].srcmap->Some_0.start == a);
                lemma_tiled_last(n.children@, 0, a, b);
                lemma_nodes_text_covers(n.children@, src, 0, a, b);
                assert(node_text(n, src) =~= src.subrange(sm.start as int, sm.end as int));
            }
        },
    }
}

/// Tiled well-formed siblings reconstruct exactly the range they tile.
pub proof fn lemma_nodes_text_covers(ns: Seq<Node>, src: Seq<u8>, k: int, a: int, b: int)
    requires
        0 <= k <= ns.len(),
        tiled_from(ns, k, a, b),
        forall|i: int| 0 <= i < ns.len() ==> node_wf(#[trigger] ns[i], src),
        0 <= a,
        b <= src.len(),
    ensures
        nodes_text_from(ns, src, k) == src.subrange(a, b),
    decreases ns, 0int, ns.len() - k,
{
    if k >= ns.len() {
        assert(a == b);
        assert(src.subrange(a, b) =~= Seq::<u8>::empty());
        assert(nodes_text_from(ns, src, k) =~= src.subrange(a, b));
    } else {
        let sm = ns[k].srcmap->Some_0;
        lemma_node_text_covers(ns[k], src);
        lemma_nodes_text_covers(ns, src, k + 1, sm.end as int, b);
        assert(nodes_text_from(ns, src, k) =~= src.subrange(a, b));
    }
}

/// Source coverage: concatenating the text and markup of all leaves in
/// source order, substituting children recursively, reproduces the
/// scanned bytes.  `inline_parser::parse` establishes exactly the
/// premises for the whole content.
pub proof fn lemma_render_positions_cover(children: Seq<Node>, src: Seq<u8>)
    requires
        tile(children, 0, src.len() as int),
        forall|i: int| 0 <= i < children.len() ==> node_wf(#[trigger] children[i], src),
    ensures
        nodes_text_from(children, src, 0) == src,
{
    lemma_nodes_text_covers(children, src, 0, 0, src.len() as int);
    assert(src.subrange(0, src.len() as int) =~= src);
}

/// For `[a][b]` the second label decides: when it is non-empty the
/// resolved entry is `b`'s, whatever is defined under `a`.
pub proof fn lemma_full_reference_uses_second(m: ReferenceMap, a: Seq<u8>, b: Seq<u8>)
    requires
        b.len() > 0,
    ensures
        resolve_spec(m, a, Some(b)) == m.get_view(normalize_label_spec(b)),
{
}

/// Collapsed `[a][]` and shortcut `[a]` forms resolve through `a` itself.
pub proof fn lemma_collapsed_and_shortcut_use_primary(m: ReferenceMap, a: Seq<u8>)
    ensures
        resolve_spec(m, a, None) == m.get_view(normalize_label_spec(a)),
        resolve_spec(m, a, Some(Seq::empty())) == m.get_view(normalize_label_spec(a)),
{
}

} // verus!
