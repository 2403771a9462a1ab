//! The per-scan inline state and its environment bags.
//!
//! `InlineState` carries the scanned source window, the cursor, the node
//! whose children are being filled, and two environments: the scan-wide
//! `inline_env` (label-scan cache and the seen-links marker) and the
//! document-wide `RootEnv` (the reference map), which inline rules treat
//! as read-only.
//!
//! The state's well-formedness ties the children of the current node to
//! the cursor: they tile exactly the bytes scanned so far.

use vstd::prelude::*;
use std::collections::HashMap;
use crate::node::{
    is_link_node, leaf_ok, lemma_links_free_push, lemma_links_free_update, lemma_tiled_from_push,
    lemma_tiled_from_update_last, links_free, node_wf, tile, Hardbreak, Node, NodeValue, Softbreak,
    Srcmap, Text,
};
use crate::refmap::ReferenceMap;

verus! {

broadcast use vstd::std_specs::hash::group_hash_axioms;

/// The document-wide environment: per-document singletons the block phase
/// prepared, read-only during an inline scan.
pub struct RootEnv {
    pub references: Option<ReferenceMap>,
}

/// One label-scan cache entry: either a proven miss (no matching `]`) or
/// the parsed children together with the offset of the closing `]`.
pub enum CacheEntry {
    Miss,
    Hit { children: Vec<Node>, end: usize },
}

/// The scan-wide environment: the label-scan cache keyed by the opening
/// bracket's byte offset, and the seen-links marker that forbids nesting.
pub struct InlineEnv {
    pub seen_links: bool,
    pub cache: HashMap<usize, CacheEntry>,
}

impl InlineEnv {
    pub fn new() -> (e: InlineEnv)
        ensures
            e.seen_links == false,
            e.cache@ == Map::<usize, CacheEntry>::empty(),
    {
        InlineEnv { seen_links: false, cache: HashMap::new() }
    }
}

/// A cached hit records children that tile the label interior
/// `[k+1, end)` and a closing `]` at `end`.
pub open spec fn cache_entry_wf(k: int, e: CacheEntry, src: Seq<u8>, pos_max: int) -> bool {
    match e {
        CacheEntry::Miss => true,
        CacheEntry::Hit { children, end } => {
            &&& k + 1 <= end < pos_max
            &&& src[end as int] == 0x5d
            &&& tile(children@, k + 1, end as int)
            &&& forall|i: int| 0 <= i < children@.len() ==> node_wf(#[trigger] children@[i], src)
        },
    }
}

pub open spec fn cache_wf(m: Map<usize, CacheEntry>, src: Seq<u8>, pos_max: int) -> bool {
    forall|k: usize|
        m.contains_key(k) ==> cache_entry_wf(k as int, #[trigger] m[k], src, pos_max)
}

/// The per-scan mutable context.
pub struct InlineState {
    /// the inline content being scanned
    pub src: Vec<u8>,
    /// current cursor
    pub pos: usize,
    /// exclusive upper bound of the scan
    pub pos_max: usize,
    /// the node whose children are being populated
    pub node: Node,
    /// depth counter used by raw-HTML link detection
    pub link_level: i64,
    /// bytes of text appended to the last child since the last non-text
    /// token
    pub trailing_len: usize,
    /// current label-scan nesting depth
    pub depth: usize,
    /// scan-wide environment
    pub inline_env: InlineEnv,
    /// where the current node's children begin to tile
    pub tile_from: Ghost<usize>,
}

impl InlineState {
    /// Trailing-text bookkeeping: when text was just appended, the last
    /// child is a text leaf ending at the cursor with room to pop.
    pub open spec fn trailing_ok(self) -> bool {
        self.trailing_len > 0 ==> {
            let cs = self.node.children@;
            &&& cs.len() > 0
            &&& cs[cs.len() - 1].payload is Text
            &&& cs[cs.len() - 1].children@.len() == 0
            &&& cs[cs.len() - 1].srcmap matches Some(sm) && sm.end == self.pos && sm.start
                + self.trailing_len <= sm.end
        }
    }

    pub open spec fn wf(self) -> bool {
        &&& self.tile_from@ <= self.pos <= self.pos_max <= self.src@.len()
        &&& tile(self.node.children@, self.tile_from@ as int, self.pos as int)
        &&& forall|i: int|
            0 <= i < self.node.children@.len() ==> node_wf(
                #[trigger] self.node.children@[i],
                self.src@,
            )
        &&& self.trailing_ok()
        &&& cache_wf(self.inline_env.cache@, self.src@, self.pos_max as int)
    }

    /// Builds the state for one inline scan over the whole of `src`.
    pub fn new(src: Vec<u8>, node: Node) -> (st: InlineState)
        requires
            node.children@.len() == 0,
        ensures
            st.wf(),
            st.src == src,
            st.pos == 0,
            st.pos_max == src@.len(),
            st.tile_from@ == 0,
            st.depth == 0,
            st.trailing_len == 0,
            st.node == node,
            st.inline_env.seen_links == false,
    {
        let pos_max = src.len();
        InlineState {
            src,
            pos: 0,
            pos_max,
            node,
            link_level: 0,
            trailing_len: 0,
            depth: 0,
            inline_env: InlineEnv::new(),
            tile_from: Ghost(0),
        }
    }

    /// Consumes one byte as plain text: appended to the pending text leaf
    /// when one is open, else starting a fresh one.
    pub fn text_fallback(&mut self)
        requires
            old(self).wf(),
            old(self).pos < old(self).pos_max,
        ensures
            final(self).wf(),
            final(self).pos == old(self).pos + 1,
            final(self).trailing_len == old(self).trailing_len + 1,
            final(self).src == old(self).src,
            final(self).pos_max == old(self).pos_max,
            final(self).tile_from == old(self).tile_from,
            final(self).depth == old(self).depth,
            final(self).link_level == old(self).link_level,
            final(self).inline_env.seen_links == old(self).inline_env.seen_links,
            final(self).inline_env.cache@ == old(self).inline_env.cache@,
            final(self).node.payload == old(self).node.payload,
            final(self).node.srcmap == old(self).node.srcmap,
            links_free(old(self).node.children@) ==> links_free(final(self).node.children@),
    {
        let ghost cs0 = self.node.children@;
        let ghost tf = self.tile_from@ as int;
        let ghost p0 = self.pos as int;
        let b = self.src[self.pos];
        proof {
            if self.trailing_len == 0 {
                assert(self.trailing_len <= self.pos);
            }
        }
        if self.trailing_len > 0 {
            let last = self.node.children.pop().unwrap();
            let ghost lastg = last;
            match last.payload {
                NodeValue::Text(t) => {
                    let mut content = t.content;
                    content.push(b);
                    let sm = last.srcmap.unwrap();
                    let n2 = Node {
                        payload: NodeValue::Text(Text { content }),
                        children: last.children,
                        srcmap: Some(Srcmap { start: sm.start, end: sm.end + 1 }),
                    };
                    self.node.children.push(n2);
                    proof {
                        assert(self.node.children@ =~= cs0.update(cs0.len() - 1, n2));
                        lemma_tiled_from_update_last(cs0, n2, 0, tf, p0, p0 + 1);
                        assert(n2.payload matches NodeValue::Text(t2) && t2.content@
                            =~= self.src@.subrange(sm.start as int, sm.end + 1));
                        assert(leaf_ok(n2, self.src@));
                        assert(node_wf(n2, self.src@));
                        if links_free(cs0) {
                            lemma_links_free_update(cs0, cs0.len() - 1, n2);
                        }
                    }
                },
                _ => {
                    proof {
                        assert(false);
                    }
                },
            }
        } else {
            let mut content: Vec<u8> = Vec::new();
            content.push(b);
            let n = Node {
                payload: NodeValue::Text(Text { content }),
                children: Vec::new(),
                srcmap: Some(Srcmap { start: self.pos, end: self.pos + 1 }),
            };
            self.node.children.push(n);
            proof {
                lemma_tiled_from_push(cs0, n, 0, tf, p0, p0 + 1);
                assert(n.payload matches NodeValue::Text(t2) && t2.content@ =~= self.src@.subrange(
                    p0,
                    p0 + 1,
                ));
                assert(leaf_ok(n, self.src@));
                assert(node_wf(n, self.src@));
                if links_free(cs0) {
                    lemma_links_free_push(cs0, n);
                }
            }
        }
        self.trailing_len = self.trailing_len + 1;
        self.pos = self.pos + 1;
    }

    /// Appends a committed token node spanning `[pos, end)` and advances
    /// the cursor past it.
    pub fn push_node_at(&mut self, n: Node, end: usize)
        requires
            old(self).wf(),
            old(self).pos < end <= old(self).pos_max,
            n.srcmap == Some(Srcmap { start: old(self).pos, end }),
            node_wf(n, old(self).src@),
        ensures
            final(self).wf(),
            final(self).pos == end,
            final(self).trailing_len == 0,
            final(self).src == old(self).src,
            final(self).pos_max == old(self).pos_max,
            final(self).tile_from == old(self).tile_from,
            final(self).depth == old(self).depth,
            final(self).link_level == old(self).link_level,
            final(self).inline_env.seen_links == old(self).inline_env.seen_links,
            final(self).inline_env.cache@ == old(self).inline_env.cache@,
            final(self).node.payload == old(self).node.payload,
            final(self).node.srcmap == old(self).node.srcmap,
            final(self).node.children@ == old(self).node.children@.push(n),
            links_free(old(self).node.children@) && !is_link_node(n) ==> links_free(
                final(self).node.children@,
            ),
    {
        let ghost cs0 = self.node.children@;
        let ghost tf = self.tile_from@ as int;
        let ghost p0 = self.pos as int;
        self.node.children.push(n);
        proof {
            lemma_tiled_from_push(cs0, n, 0, tf, p0, end as int);
            if links_free(cs0) && !is_link_node(n) {
                lemma_links_free_push(cs0, n);
            }
        }
        self.trailing_len = 0;
        self.pos = end;
    }

    /// Commits a line break: pops `tail` trailing spaces off the pending
    /// text leaf and pushes a hard or soft break spanning them together
    /// with the newline and any following indentation.
    pub fn push_break_node(&mut self, tail: usize, end: usize, hard: bool)
        requires
            old(self).wf(),
            tail <= old(self).trailing_len,
            old(self).pos < end <= old(self).pos_max,
        ensures
            final(self).wf(),
            final(self).pos == end,
            final(self).trailing_len == 0,
            final(self).src == old(self).src,
            final(self).pos_max == old(self).pos_max,
            final(self).tile_from == old(self).tile_from,
            final(self).depth == old(self).depth,
            final(self).link_level == old(self).link_level,
            final(self).inline_env.seen_links == old(self).inline_env.seen_links,
            final(self).inline_env.cache@ == old(self).inline_env.cache@,
            final(self).node.payload == old(self).node.payload,
            final(self).node.srcmap == old(self).node.srcmap,
            links_free(old(self).node.children@) ==> links_free(final(self).node.children@),
            final(self).node.children@.len() == old(self).node.children@.len() + 1,
            final(self).node.children@.last().payload == (if hard {
                NodeValue::Hardbreak(Hardbreak)
            } else {
                NodeValue::Softbreak(Softbreak)
            }),
            final(self).node.children@.last().srcmap == Some(
                Srcmap { start: (old(self).pos - tail) as usize, end },
            ),
            final(self).node.children@.last().children@.len() == 0,
    {
        let ghost cs0 = self.node.children@;
        let ghost tf = self.tile_from@ as int;
        let ghost p0 = self.pos as int;
        if tail > 0 {
            let last = self.node.children.pop().unwrap();
            match last.payload {
                NodeValue::Text(t) => {
                    let mut content = t.content;
                    let keep = content.len() - tail;
                    content.truncate(keep);
                    let sm = last.srcmap.unwrap();
                    let n2 = Node {
                        payload: NodeValue::Text(Text { content }),
                        children: last.children,
                        srcmap: Some(Srcmap { start: sm.start, end: sm.end - tail }),
                    };
                    self.node.children.push(n2);
                    proof {
                        assert(self.node.children@ =~= cs0.update(cs0.len() - 1, n2));
                        lemma_tiled_from_update_last(cs0, n2, 0, tf, p0, p0 - tail);
                        assert(n2.payload matches NodeValue::Text(t2) && t2.content@
                            =~= self.src@.subrange(sm.start as int, sm.end - tail));
                        assert(leaf_ok(n2, self.src@));
                        assert(node_wf(n2, self.src@));
                        if links_free(cs0) {
                            lemma_links_free_update(cs0, cs0.len() - 1, n2);
                        }
                    }
                },
                _ => {
                    proof {
                        assert(false);
                    }
                },
            }
        }
        let payload = if hard {
            NodeValue::Hardbreak(Hardbreak)
        } else {
            NodeValue::Softbreak(Softbreak)
        };
        let start = self.pos - tail;
        let n = Node { payload, children: Vec::new(), srcmap: Some(Srcmap { start, end }) };
        let ghost cs1 = self.node.children@;
        self.node.children.push(n);
        proof {
            lemma_tiled_from_push(cs1, n, 0, tf, p0 - tail, end as int);
            assert(leaf_ok(n, self.src@));
            assert(node_wf(n, self.src@));
            if links_free(cs1) {
                lemma_links_free_push(cs1, n);
            }
        }
        self.trailing_len = 0;
        self.pos = end;
    }
}

} // verus!
