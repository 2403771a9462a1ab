//! The inline tokenizer loop and the recursive link parser.
//!
//! `tokenize_one` dispatches the rules registered for the marker byte at
//! the cursor; the first rule that matches wins, and when none does one
//! byte is consumed as text.  The link rule re-enters the tokenizer on the
//! label interior through `parse_link_label`, which memoizes every scanned
//! label in the scan cache and caps the nesting depth at
//! `md.max_nesting`.

use vstd::prelude::*;
use crate::autolink::AutolinkScanner;
use crate::entity::EntityScanner;
use crate::full_link::{dest_result, parse_link_destination, parse_link_title, title_result};
use crate::html_inline::HtmlInlineScanner;
use crate::links_util::{enc_from, normalize_link, validate_link, validate_link_spec};
use crate::node::{is_link_node, links_free, node_wf, tile, Node, NodeValue, Srcmap};
use crate::refmap::{resolve_reference, resolve_spec};
use crate::ruler::{LinkFactory, MarkdownIt, RuleKind};
use crate::state::{cache_entry_wf, cache_wf, CacheEntry, InlineState, RootEnv};

verus! {

broadcast use vstd::std_specs::hash::group_hash_axioms;

/// What every engine step leaves unchanged about the state.
pub open spec fn frame(s0: InlineState, s1: InlineState) -> bool {
    &&& s1.src == s0.src
    &&& s1.pos_max == s0.pos_max
    &&& s1.tile_from == s0.tile_from
    &&& s1.depth == s0.depth
    &&& s1.node.payload == s0.node.payload
    &&& s1.node.srcmap == s0.node.srcmap
}

/// Scan-cache entries below `bound` survive unchanged: an inline scan at
/// or beyond a position never touches the cache of labels opened earlier.
pub open spec fn cache_preserved_below(
    m0: Map<usize, CacheEntry>,
    m1: Map<usize, CacheEntry>,
    bound: int,
) -> bool {
    forall|k: usize|
        k < bound ==> (#[trigger] m1.contains_key(k)) == m0.contains_key(k) && (m0.contains_key(k)
            ==> m1[k] == m0[k])
}

proof fn lemma_cache_preserved_trans(
    m0: Map<usize, CacheEntry>,
    m1: Map<usize, CacheEntry>,
    m2: Map<usize, CacheEntry>,
    b: int,
    b2: int,
)
    requires
        cache_preserved_below(m0, m1, b),
        cache_preserved_below(m1, m2, b2),
        b <= b2,
    ensures
        cache_preserved_below(m0, m2, b),
{
    assert forall|k: usize| k < b implies m2.contains_key(k) == m0.contains_key(k) && (
    m0.contains_key(k) ==> m2[k] == m0[k]) by {
        assert(m1.contains_key(k) == m0.contains_key(k));
        assert(m2.contains_key(k) == m1.contains_key(k));
    }
}

proof fn lemma_cache_preserved_weaken(
    m0: Map<usize, CacheEntry>,
    m1: Map<usize, CacheEntry>,
    b: int,
    b2: int,
)
    requires
        cache_preserved_below(m0, m1, b2),
        b <= b2,
    ensures
        cache_preserved_below(m0, m1, b),
{
    assert forall|k: usize| k < b implies m1.contains_key(k) == m0.contains_key(k) && (
    m0.contains_key(k) ==> m1[k] == m0[k]) by {
        assert(k < b2);
    }
}

proof fn lemma_cache_preserved_insert(m: Map<usize, CacheEntry>, k0: usize, e: CacheEntry, b: int)
    requires
        b <= k0,
    ensures
        cache_preserved_below(m, m.insert(k0, e), b),
{
    assert forall|k: usize| k < b implies m.insert(k0, e).contains_key(k) == m.contains_key(k) && (
    m.contains_key(k) ==> m.insert(k0, e)[k] == m[k]) by {
        assert(k != k0);
    }
}

proof fn lemma_cache_preserved_refl(m: Map<usize, CacheEntry>, b: int)
    ensures
        cache_preserved_below(m, m, b),
{
}

proof fn lemma_cache_preserved_remove(m: Map<usize, CacheEntry>, k0: usize, b: int)
    requires
        b <= k0,
    ensures
        cache_preserved_below(m, m.remove(k0), b),
{
    assert forall|k: usize| k < b implies m.remove(k0).contains_key(k) == m.contains_key(k) && (
    m.contains_key(k) ==> m.remove(k0)[k] == m[k]) by {
        assert(k != k0);
    }
}

/// View of an optional byte vector.
pub open spec fn ov(o: Option<Vec<u8>>) -> Option<Seq<u8>> {
    match o {
        Some(v) => Some(v@),
        None => None,
    }
}

/// First position at or after `i` that is not an ASCII space, tab or
/// newline (capped at `max`).
pub open spec fn ws_end(s: Seq<u8>, i: int, max: int) -> int
    decreases max - i,
{
    if 0 <= i < max && i < s.len() && (s[i] == 0x20 || s[i] == 0x09 || s[i] == 0x0a) {
        ws_end(s, i + 1, max)
    } else {
        i
    }
}

/// The inline link form `(  <href>  "title"  )` read after a label that
/// ends at `p - 1`: skips whitespace, tries a destination (kept only when
/// it validates), skips whitespace, tries a title, and requires a closing
/// `)`.  `Some((href, title, end))` when the form is well formed.
pub open spec fn inline_tail(s: Seq<u8>, p: int, max: int) -> Option<
    (Option<Seq<u8>>, Option<Seq<u8>>, int),
> {
    if !(0 <= p < max && p < s.len() && s[p] == 0x28) {
        None
    } else {
        let q0 = ws_end(s, p + 1, max);
        match dest_result(s, q0, max) {
            Some(d) => {
                let cand = enc_from(d.1, 0);
                let hp: (Option<Seq<u8>>, int) = if validate_link_spec(cand) {
                    (Some(cand), d.0)
                } else {
                    (None, q0)
                };
                let p2 = ws_end(s, hp.1, max);
                let tp: (Option<Seq<u8>>, int) = match title_result(s, p2, max) {
                    Some(t) => (Some(t.2), ws_end(s, t.0, max)),
                    None => (None, p2),
                };
                if 0 <= tp.1 < max && tp.1 < s.len() && s[tp.1] == 0x29 {
                    Some((hp.0, tp.0, tp.1 + 1))
                } else {
                    None
                }
            },
            None => {
                if 0 <= q0 < max && q0 < s.len() && s[q0] == 0x29 {
                    Some((None, None, q0 + 1))
                } else {
                    None
                }
            },
        }
    }
}

/// The destination a link-shaped payload carries.
pub open spec fn payload_url(p: NodeValue) -> Option<Vec<u8>> {
    match p {
        NodeValue::Link { url, .. } => url,
        NodeValue::Image { url, .. } => url,
        NodeValue::CustomLink { url, .. } => url,
        _ => None,
    }
}

/// The title a link-shaped payload carries.
pub open spec fn payload_title(p: NodeValue) -> Option<Vec<u8>> {
    match p {
        NodeValue::Link { title, .. } => title,
        NodeValue::Image { title, .. } => title,
        NodeValue::CustomLink { title, .. } => title,
        _ => None,
    }
}

/// The payload variant is the one this factory builds.
pub open spec fn factory_made(f: LinkFactory, p: NodeValue) -> bool {
    match (f, p) {
        (LinkFactory::Link, NodeValue::Link { .. }) => true,
        (LinkFactory::Image, NodeValue::Image { .. }) => true,
        (LinkFactory::Custom(tag), NodeValue::CustomLink { tag: t, .. }) => t == tag,
        _ => false,
    }
}

/// What a committed link-shaped rule did: exactly one node was appended,
/// built by the factory from the resolved destination and title, spanning
/// the whole construct; its children tile the label interior up to the
/// closing bracket, and its destination and title are the inline tail's
/// when that is well formed, else the reference map's.
pub open spec fn link_commit(
    s0: InlineState,
    s1: InlineState,
    n: int,
    offset: int,
    factory: LinkFactory,
    renv: RootEnv,
) -> bool {
    let cs0 = s0.node.children@;
    let cs = s1.node.children@;
    &&& cs.len() == cs0.len() + 1
    &&& cs == cs0.push(cs.last())
    &&& ({
        let nd = cs.last();
        let s = s0.src@;
        let max = s0.pos_max as int;
        &&& nd.srcmap matches Some(sm) && sm.start == s0.pos && sm.end == s0.pos + n
        &&& factory_made(factory, nd.payload)
        &&& nd.payload == factory.spec_make(payload_url(nd.payload), payload_title(nd.payload))
        &&& exists|le: int|
            {
                &&& s0.pos + offset + 1 <= le < s0.pos + n
                &&& s[le] == 0x5d
                &&& #[trigger] tile(nd.children@, s0.pos + offset + 1, le)
                &&& (inline_tail(s, le + 1, max) matches Some(t) ==> ov(payload_url(nd.payload))
                    == t.0 && ov(payload_title(nd.payload)) == t.1 && s0.pos + n == t.2)
                &&& (inline_tail(s, le + 1, max) is None ==> renv.references is Some
                    && payload_url(nd.payload) is Some)
            }
    })
}

/// Result of a successful link parse.
pub struct ParseLinkResult {
    /// the label's parsed children
    pub nodes: Vec<Node>,
    /// the resolved destination, when one validates or resolves
    pub href: Option<Vec<u8>>,
    /// the resolved title
    pub title: Option<Vec<u8>>,
    /// end of the whole construct
    pub end: usize,
    /// offset of the label's closing bracket
    pub label_end: Ghost<usize>,
    /// byte range of the second label's interior, when one was parsed
    pub second: Ghost<Option<(usize, usize)>>,
}

/// A plainly-text label: the byte at `e` is the first closing bracket
/// after `start`, and every interior byte is neither a bracket nor the
/// marker of a rule that could fire, so the scan is forced to consume the
/// interior as text and close at `e`.
pub open spec fn plain_label(
    p: crate::ruler::InlineParser,
    s: Seq<u8>,
    start: int,
    e: int,
    max: int,
) -> bool {
    &&& 0 <= start < e < max
    &&& e < s.len()
    &&& s[e] == 0x5d
    &&& forall|q: int|
        start < q < e ==> s[q] != 0x5d && s[q] != 0x5b && #[trigger] all_inert(p, s, q, max)
}

/// The cache is unchanged at every key but `k0`.
pub open spec fn cache_except(
    m0: Map<usize, CacheEntry>,
    m1: Map<usize, CacheEntry>,
    k0: usize,
) -> bool {
    forall|k: usize|
        k != k0 ==> (#[trigger] m1.contains_key(k)) == m0.contains_key(k) && (m0.contains_key(k)
            ==> m1[k] == m0[k])
}

/// A fresh, plainly-text label whose parenthesized tail is well formed:
/// the parser owes a commit here.
pub open spec fn owed_inline_commit(md: MarkdownIt, st: InlineState, lpos: int, e: int) -> bool {
    &&& !st.inline_env.cache@.contains_key(lpos as usize)
    &&& st.depth < md.max_nesting
    &&& plain_label(md.inline, st.src@, lpos, e, st.pos_max as int)
    &&& inline_tail(st.src@, e + 1, st.pos_max as int) is Some
}

/// A fresh, plainly-text shortcut reference that resolves: the parser
/// owes a commit here too.
pub open spec fn owed_shortcut_commit(
    md: MarkdownIt,
    renv: RootEnv,
    st: InlineState,
    lpos: int,
    e: int,
) -> bool {
    &&& !st.inline_env.cache@.contains_key(lpos as usize)
    &&& st.depth < md.max_nesting
    &&& plain_label(md.inline, st.src@, lpos, e, st.pos_max as int)
    &&& inline_tail(st.src@, e + 1, st.pos_max as int) is None
    &&& (e + 1 >= st.pos_max || st.src@[e + 1] != 0x5b)
    &&& renv.references matches Some(refs) && resolve_spec(
        refs,
        st.src@.subrange(lpos + 1, e),
        None,
    ) is Some
}

/// A fresh, plainly-text full reference `[label][ref]` whose second label
/// is plainly text too and resolves: the parser owes a commit here.
pub open spec fn owed_reference_commit(
    md: MarkdownIt,
    renv: RootEnv,
    st: InlineState,
    lpos: int,
    e: int,
    e2: int,
) -> bool {
    &&& !st.inline_env.cache@.contains_key(lpos as usize)
    &&& !st.inline_env.cache@.contains_key((e + 1) as usize)
    &&& st.depth < md.max_nesting
    &&& plain_label(md.inline, st.src@, lpos, e, st.pos_max as int)
    &&& inline_tail(st.src@, e + 1, st.pos_max as int) is None
    &&& e + 1 < st.pos_max && st.src@[e + 1] == 0x5b
    &&& plain_label(md.inline, st.src@, e + 1, e2, st.pos_max as int)
    &&& renv.references matches Some(refs) && resolve_spec(
        refs,
        st.src@.subrange(lpos + 1, e),
        Some(st.src@.subrange(e + 2, e2)),
    ) is Some
}

/// Scans the label opened at `start` (which must hold `[`) for its
/// matching `]`, parsing the interior as inline content.  The result is
/// memoized: the cache is consulted before any re-parse, and a fresh scan
/// stores a hit or a miss under `start`.
pub fn parse_link_label(
    md: &MarkdownIt,
    renv: &RootEnv,
    state: &mut InlineState,
    start: usize,
    enable_nested: bool,
) -> (r: Option<usize>)
    requires
        md.wf(),
        old(state).wf(),
        old(state).depth <= md.max_nesting,
        old(state).pos <= start < old(state).pos_max,
    ensures
        final(state).wf(),
        frame(*old(state), *final(state)),
        final(state).depth <= md.max_nesting,
        final(state).pos == old(state).pos,
        final(state).node == old(state).node,
        final(state).trailing_len == old(state).trailing_len,
        old(state).inline_env.seen_links ==> final(state).inline_env.seen_links,
        !enable_nested && r is Some && !old(state).inline_env.cache@.contains_key(start)
            ==> final(state).inline_env.seen_links == old(state).inline_env.seen_links,
        cache_preserved_below(
            old(state).inline_env.cache@,
            final(state).inline_env.cache@,
            start as int,
        ),
        match r {
            Some(end) => {
                &&& final(state).inline_env.cache@.contains_key(start)
                &&& final(state).inline_env.cache@[start] matches CacheEntry::Hit {
                    children,
                    end: e,
                } && e == end
                &&& start < end < final(state).pos_max
            },
            None => true,
        },
        // the cache answers repeated scans: a cached offset is never
        // re-parsed and the state is left untouched, and the cached value
        // decides the result
        old(state).inline_env.cache@.contains_key(start) ==> *final(state) == *old(state)
            && (match old(state).inline_env.cache@[start] {
            CacheEntry::Hit { end: e, .. } => r == Some(e),
            CacheEntry::Miss => r is None,
        }),
        // a fresh scan within the nesting budget memoizes its outcome:
        // a hit on success, a miss on failure; past the budget the match
        // merely fails
        !old(state).inline_env.cache@.contains_key(start) && old(state).depth < md.max_nesting
            ==> final(state).inline_env.cache@.contains_key(start) && (r is None
            ==> final(state).inline_env.cache@[start] is Miss),
        !old(state).inline_env.cache@.contains_key(start) && old(state).depth >= md.max_nesting
            ==> *final(state) == *old(state) && r is None,
        // a plainly-text label is owed its close: a fresh scan within the
        // budget returns exactly the first closing bracket, touching no
        // other cache key
        forall|e: int|
            !old(state).inline_env.cache@.contains_key(start) && old(state).depth
                < md.max_nesting && #[trigger] plain_label(
                md.inline,
                old(state).src@,
                start as int,
                e,
                old(state).pos_max as int,
            ) ==> r == Some(e as usize) && cache_except(
                old(state).inline_env.cache@,
                final(state).inline_env.cache@,
                start,
            ),
        // a fresh scan with nesting disabled captures no link children
        md.inline.nonest_wf() && !enable_nested && !old(state).inline_env.cache@.contains_key(
            start,
        ) && r is Some ==> (final(state).inline_env.cache@[start] matches CacheEntry::Hit {
            children,
            ..
        } && links_free(children@)),
    decreases old(state).pos_max - start, 1int,
{
    let probe = state.inline_env.cache.get(&start);
    match probe {
        Some(CacheEntry::Hit { children: _, end }) => {
            return Some(*end);
        },
        Some(CacheEntry::Miss) => {
            return None;
        },
        None => {},
    }
    if state.depth >= md.max_nesting {
        return None;
    }
    let ghost st0 = *state;
    let mut oldroot = Node::fresh(NodeValue::Root);
    core::mem::swap(&mut state.node, &mut oldroot);
    let old_seen = state.inline_env.seen_links;
    state.inline_env.seen_links = false;
    let old_pos = state.pos;
    let old_trailing = state.trailing_len;
    let old_tile = state.tile_from;
    state.tile_from = Ghost((start + 1) as usize);
    state.trailing_len = 0;
    state.pos = start + 1;
    state.depth = state.depth + 1;
    let mut found = false;
    let mut level: usize = 1;
    while state.pos < state.pos_max
        invariant_except_break
            level >= 1,
            level <= state.pos,
            !found,
            !enable_nested ==> !state.inline_env.seen_links,
            forall|e: int|
                #[trigger] plain_label(
                    md.inline,
                    st0.src@,
                    start as int,
                    e,
                    st0.pos_max as int,
                ) ==> state.pos <= e && level == 1 && state.inline_env.cache@
                    == st0.inline_env.cache@,
        invariant
            md.wf(),
            state.wf(),
            st0 == *old(state),
            start + 1 <= state.pos <= state.pos_max,
            state.src == st0.src,
            state.pos_max == st0.pos_max,
            state.depth == st0.depth + 1,
            state.depth <= md.max_nesting,
            state.tile_from@ == start + 1,
            state.node.payload is Root,
            state.node.srcmap is None,
            md.inline.nonest_wf() && !state.inline_env.seen_links ==> links_free(
                state.node.children@,
            ),
            cache_preserved_below(
                st0.inline_env.cache@,
                state.inline_env.cache@,
                start + 1 as int,
            ),
        ensures
            state.wf(),
            start + 1 <= state.pos <= state.pos_max,
            state.src == st0.src,
            state.pos_max == st0.pos_max,
            state.depth == st0.depth + 1,
            state.tile_from@ == start + 1,
            state.node.payload is Root,
            state.node.srcmap is None,
            cache_preserved_below(
                st0.inline_env.cache@,
                state.inline_env.cache@,
                start + 1 as int,
            ),
            found ==> state.pos < state.pos_max && state.src@[state.pos as int] == 0x5d,
            !enable_nested && found ==> !state.inline_env.seen_links,
            forall|e: int|
                #[trigger] plain_label(
                    md.inline,
                    st0.src@,
                    start as int,
                    e,
                    st0.pos_max as int,
                ) ==> found && state.pos == e && state.inline_env.cache@
                    == st0.inline_env.cache@,
            md.inline.nonest_wf() && !enable_nested && found ==> links_free(
                state.node.children@,
            ),
        decreases state.pos_max - state.pos,
    {
        let ghost l0 = level;
        let ghost s0 = state.inline_env.seen_links;
        let ch = state.src[state.pos];
        if ch == 0x5d {
            level = level - 1;
            if level == 0 {
                found = true;
                proof {
                    assert forall|e: int|
                        #[trigger] plain_label(
                            md.inline,
                            st0.src@,
                            start as int,
                            e,
                            st0.pos_max as int,
                        ) implies state.pos == e by {
                        if state.pos < e {
                            assert(all_inert(
                                md.inline,
                                st0.src@,
                                state.pos as int,
                                st0.pos_max as int,
                            ));
                            assert(st0.src@[state.pos as int] != 0x5d);
                        }
                    }
                }
                break;
            }
        }
        let ghost c1 = state.inline_env.cache@;
        let ghost p1 = state.pos as int;
        let nontext = tokenize_one(md, renv, state);
        proof {
            lemma_cache_preserved_trans(
                st0.inline_env.cache@,
                c1,
                state.inline_env.cache@,
                start + 1 as int,
                p1,
            );
            assert forall|e: int|
                #[trigger] plain_label(
                    md.inline,
                    st0.src@,
                    start as int,
                    e,
                    st0.pos_max as int,
                ) implies state.pos <= e && state.inline_env.seen_links == s0 && st0.src@[p1]
                != 0x5b && state.inline_env.cache@ == c1 by {
                assert(l0 == 1 && p1 <= e);
                if st0.src@[p1] == 0x5d {
                    assert(p1 == e);
                    assert(false);
                }
                assert(p1 < e);
                assert(all_inert(md.inline, st0.src@, p1, st0.pos_max as int));
                assert(!nontext);
                assert(state.pos == p1 + 1);
            }
        }
        if !enable_nested && state.inline_env.seen_links {
            break;
        }
        if !nontext && ch == 0x5b {
            level = level + 1;
        }
    }
    state.depth = state.depth - 1;
    core::mem::swap(&mut state.node, &mut oldroot);
    let scan_children = oldroot.children;
    let end = state.pos;
    state.pos = old_pos;
    state.trailing_len = old_trailing;
    state.tile_from = old_tile;
    // the marker is re-raised if it was present before the probe; one
    // raised during the probe stays raised, poisoning every enclosing
    // nesting-disabled label
    if old_seen {
        state.inline_env.seen_links = true;
    }
    let ghost cache1 = state.inline_env.cache@;
    if found {
        let entry = CacheEntry::Hit { children: scan_children, end };
        proof {
            assert(cache_entry_wf(start as int, entry, state.src@, state.pos_max as int));
        }
        state.inline_env.cache.insert(start, entry);
        proof {
            assert(cache_wf(state.inline_env.cache@, state.src@, state.pos_max as int));
            assert(state.wf());
            lemma_cache_preserved_weaken(
                st0.inline_env.cache@,
                cache1,
                start as int,
                start + 1 as int,
            );
            lemma_cache_preserved_insert(cache1, start, entry, start as int);
            lemma_cache_preserved_trans(
                st0.inline_env.cache@,
                cache1,
                state.inline_env.cache@,
                start as int,
                start as int,
            );
        }
        Some(end)
    } else {
        state.inline_env.cache.insert(start, CacheEntry::Miss);
        proof {
            assert(cache_wf(state.inline_env.cache@, state.src@, state.pos_max as int));
            assert(state.wf());
            lemma_cache_preserved_weaken(
                st0.inline_env.cache@,
                cache1,
                start as int,
                start + 1 as int,
            );
            lemma_cache_preserved_insert(cache1, start, CacheEntry::Miss, start as int);
            lemma_cache_preserved_trans(
                st0.inline_env.cache@,
                cache1,
                state.inline_env.cache@,
                start as int,
                start as int,
            );
        }
        None
    }
}

/// Parses `[label](<dest> "title")` or the reference forms `[label][ref]`,
/// `[label][]` and `[label]` at `lpos`.  The inline form wins whenever its
/// parenthesized tail is well formed; otherwise the reference map decides.
#[verifier::rlimit(60)]
pub fn parse_link(
    md: &MarkdownIt,
    renv: &RootEnv,
    state: &mut InlineState,
    lpos: usize,
    enable_nested: bool,
) -> (r: Option<ParseLinkResult>)
    requires
        md.wf(),
        old(state).wf(),
        old(state).depth <= md.max_nesting,
        old(state).pos <= lpos < old(state).pos_max,
        old(state).src@[lpos as int] == 0x5b,
    ensures
        final(state).wf(),
        frame(*old(state), *final(state)),
        final(state).depth <= md.max_nesting,
        final(state).pos == old(state).pos,
        final(state).node == old(state).node,
        final(state).trailing_len == old(state).trailing_len,
        old(state).inline_env.seen_links ==> final(state).inline_env.seen_links,
        cache_preserved_below(
            old(state).inline_env.cache@,
            final(state).inline_env.cache@,
            lpos as int,
        ),
        match r {
            Some(res) => {
                let le = res.label_end@;
                &&& lpos + 1 <= le < res.end <= final(state).pos_max
                &&& final(state).src@[le as int] == 0x5d
                &&& tile(res.nodes@, lpos + 1 as int, le as int)
                &&& (forall|i: int|
                    0 <= i < res.nodes@.len() ==> node_wf(
                        #[trigger] res.nodes@[i],
                        final(state).src@,
                    ))
                &&& (inline_tail(
                    final(state).src@,
                    le + 1,
                    final(state).pos_max as int,
                ) matches Some(t) ==> ov(res.href) == t.0 && ov(res.title) == t.1 && res.end
                    == t.2)
                &&& (inline_tail(final(state).src@, le + 1, final(state).pos_max as int) is None
                    ==> (renv.references matches Some(refs) && {
                    let s = final(state).src@;
                    let sv = match res.second@ {
                        Some(sr) => Some(s.subrange(sr.0 as int, sr.1 as int)),
                        None => None,
                    };
                    &&& resolve_spec(refs, s.subrange(lpos + 1 as int, le as int), sv)
                        matches Some(ev)
                    &&& ov(res.href) == Some(ev.0)
                    &&& ov(res.title) == ev.1
                }))
                // reference form: the construct ends just past the second
                // label, or just past the closing bracket
                &&& (inline_tail(final(state).src@, le + 1, final(state).pos_max as int) is None
                    ==> (match res.second@ {
                    Some(sr) => sr.0 == le + 2 && sr.0 <= sr.1 && sr.1 < final(state).pos_max
                        && final(state).src@[sr.1 as int] == 0x5d && res.end == sr.1 + 1,
                    None => res.end == le + 1,
                }))
            },
            None => true,
        },
        // a commit consumes the label's cache entry
        r is Some ==> !final(state).inline_env.cache@.contains_key(lpos),
        // failure with the closed label still cached means the inline
        // tail was ill formed and no reference map was available
        (r is None && final(state).inline_env.cache@.contains_key(lpos))
            ==> (final(state).inline_env.cache@[lpos] matches CacheEntry::Hit { end: e, .. }
            ==> inline_tail(
            final(state).src@,
            e + 1,
            final(state).pos_max as int,
        ) is None && renv.references is None),
        // the returned nodes are the cached label's children
        old(state).inline_env.cache@.contains_key(lpos)
            ==> (old(state).inline_env.cache@[lpos] matches CacheEntry::Hit {
            children: ch,
            end: e,
        } ==> (r matches Some(res) ==> res.label_end@ == e && res.nodes == ch)),
        // success is owed: with the label known closed, a well-formed
        // inline tail commits
        ({
            &&& old(state).inline_env.cache@.contains_key(lpos)
            &&& old(state).inline_env.cache@[lpos] matches CacheEntry::Hit { end: e, .. }
            &&& inline_tail(old(state).src@, e + 1, old(state).pos_max as int) is Some
        }) ==> r is Some,
        // ... and so does a shortcut reference that resolves
        ({
            &&& old(state).inline_env.cache@.contains_key(lpos)
            &&& old(state).inline_env.cache@[lpos] matches CacheEntry::Hit { end: e, .. }
            &&& inline_tail(old(state).src@, e + 1, old(state).pos_max as int) is None
            &&& (e + 1 >= old(state).pos_max || old(state).src@[e + 1] != 0x5b)
            &&& renv.references matches Some(refs)
            &&& resolve_spec(
                refs,
                old(state).src@.subrange(lpos + 1 as int, e as int),
                None,
            ) is Some
        }) ==> r is Some,
        // the same debts hold for a fresh, plainly-text label: inline
        // tail, resolving shortcut, and resolving full reference
        forall|e: int|
            #[trigger] owed_inline_commit(*md, *old(state), lpos as int, e) ==> r is Some,
        forall|e: int|
            #[trigger] owed_shortcut_commit(*md, *renv, *old(state), lpos as int, e)
                ==> r is Some,
        forall|e: int, e2: int|
            #[trigger] owed_reference_commit(*md, *renv, *old(state), lpos as int, e, e2)
                ==> r is Some,
    decreases old(state).pos_max - old(state).pos, 2int,
{
    let label_end = match parse_link_label(md, renv, state, lpos, enable_nested) {
        Some(x) => x,
        None => {
            return None;
        },
    };
    let label_start = lpos + 1;
    let ghost s = state.src@;
    let ghost pm = state.pos_max as int;
    let ghost cache_after_label = state.inline_env.cache@;
    let mut href: Option<Vec<u8>> = None;
    let mut title: Option<Vec<u8>> = None;
    let mut pos: usize = label_end + 1;
    if pos < state.pos_max && state.src[pos] == 0x28 {
        // inline form
        pos = pos + 1;
        while pos < state.pos_max && (state.src[pos] == 0x20 || state.src[pos] == 0x09
            || state.src[pos] == 0x0a)
            invariant
                label_end + 2 <= pos <= state.pos_max,
                s == state.src@,
                pm == state.pos_max as int,
                state.pos_max <= state.src@.len(),
                ws_end(s, label_end + 2, pm) == ws_end(s, pos as int, pm),
            decreases state.pos_max - pos,
        {
            pos = pos + 1;
        }
        proof {
            assert(ws_end(s, pos as int, pm) == pos as int);
        }
        let ghost q0 = pos as int;
        let dest = parse_link_destination(state.src.as_slice(), pos, state.pos_max);
        match dest {
            Some(res) => {
                let href_candidate = normalize_link(res.str.as_slice());
                if validate_link(href_candidate.as_slice()) {
                    pos = res.pos;
                    href = Some(href_candidate);
                }
                let ghost hp1 = pos as int;
                while pos < state.pos_max && (state.src[pos] == 0x20 || state.src[pos] == 0x09
                    || state.src[pos] == 0x0a)
                    invariant
                        hp1 <= pos <= state.pos_max,
                        s == state.src@,
                        pm == state.pos_max as int,
                        state.pos_max <= state.src@.len(),
                        ws_end(s, hp1, pm) == ws_end(s, pos as int, pm),
                    decreases state.pos_max - pos,
                {
                    pos = pos + 1;
                }
                proof {
                    assert(ws_end(s, pos as int, pm) == pos as int);
                }
                let titr = parse_link_title(state.src.as_slice(), pos, state.pos_max);
                match titr {
                    Some(rt) => {
                        title = Some(rt.str);
                        pos = rt.pos;
                        let ghost tp1 = pos as int;
                        while pos < state.pos_max && (state.src[pos] == 0x20 || state.src[pos]
                            == 0x09 || state.src[pos] == 0x0a)
                            invariant
                                tp1 <= pos <= state.pos_max,
                                s == state.src@,
                                pm == state.pos_max as int,
                                state.pos_max <= state.src@.len(),
                                ws_end(s, tp1, pm) == ws_end(s, pos as int, pm),
                            decreases state.pos_max - pos,
                        {
                            pos = pos + 1;
                        }
                        proof {
                            assert(ws_end(s, pos as int, pm) == pos as int);
                        }
                    },
                    None => {},
                }
            },
            None => {},
        }
        if pos < state.pos_max && state.src[pos] == 0x29 {
            proof {
                assert(inline_tail(s, label_end + 1 as int, pm) == Some(
                    (ov(href), ov(title), pos + 1 as int),
                ));
            }
            let ghost pre_remove = state.inline_env.cache@;
            proof {
                assert(pre_remove == cache_after_label);
                if old(state).inline_env.cache@.contains_key(lpos) {
                    assert(cache_after_label == old(state).inline_env.cache@);
                }
            }
            let entry = state.inline_env.cache.remove(&lpos);
            match entry {
                Some(CacheEntry::Hit { children, end }) => {
                    proof {
                        lemma_cache_preserved_remove(pre_remove, lpos, lpos as int);
                        lemma_cache_preserved_trans(
                            old(state).inline_env.cache@,
                            pre_remove,
                            state.inline_env.cache@,
                            lpos as int,
                            lpos as int,
                        );
                    }
                    return Some(
                        ParseLinkResult {
                            nodes: children,
                            href,
                            title,
                            end: pos + 1,
                            label_end: Ghost(label_end),
                            second: Ghost(None),
                        },
                    );
                },
                _ => {
                    proof {
                        assert(false);
                    }
                    return None;
                },
            }
        }
        proof {
            assert(inline_tail(s, label_end + 1 as int, pm) is None);
        }
    } else {
        proof {
            assert(inline_tail(s, label_end + 1 as int, pm) is None);
        }
    }
    // reference form
    let ghost cache_before_second = state.inline_env.cache@;
    proof {
        assert(cache_before_second == cache_after_label);
    }
    let mut pos2: usize = label_end + 1;
    let mut maybe_second: Option<Vec<u8>> = None;
    let ghost mut second_range: Option<(usize, usize)> = None;
    if pos2 < state.pos_max && state.src[pos2] == 0x5b {
        match parse_link_label(md, renv, state, pos2, false) {
            Some(x) => {
                let second = vstd::slice::slice_to_vec(
                    vstd::slice::slice_subrange(state.src.as_slice(), pos2 + 1, x),
                );
                proof {
                    second_range = Some(((pos2 + 1) as usize, x));
                }
                maybe_second = Some(second);
                pos2 = x + 1;
            },
            None => {
                pos2 = label_end + 1;
            },
        }
        proof {
            assert(cache_preserved_below(
                cache_before_second,
                state.inline_env.cache@,
                label_end + 1 as int,
            ));
        }
    } else {
        proof {
            lemma_cache_preserved_refl(state.inline_env.cache@, label_end + 1 as int);
        }
    }
    proof {
        lemma_cache_preserved_trans(
            old(state).inline_env.cache@,
            cache_after_label,
            state.inline_env.cache@,
            lpos as int,
            label_end + 1 as int,
        );
        assert(state.inline_env.cache@.contains_key(lpos));
        assert(state.inline_env.cache@[lpos] == cache_after_label[lpos]);
        if old(state).inline_env.cache@.contains_key(lpos) {
            assert(cache_after_label == old(state).inline_env.cache@);
        }
    }
    match &renv.references {
        Some(refs) => {
            let primary = vstd::slice::slice_to_vec(
                vstd::slice::slice_subrange(state.src.as_slice(), label_start, label_end),
            );
            let second_sl = match &maybe_second {
                Some(v) => Some(v.as_slice()),
                None => None,
            };
            let lref = resolve_reference(refs, primary.as_slice(), second_sl);
            match lref {
                Some(re) => {
                    let ghost pre_remove = state.inline_env.cache@;
                    let entry = state.inline_env.cache.remove(&lpos);
                    match entry {
                        Some(CacheEntry::Hit { children, end }) => {
                            proof {
                                lemma_cache_preserved_remove(pre_remove, lpos, lpos as int);
                                lemma_cache_preserved_trans(
                                    old(state).inline_env.cache@,
                                    pre_remove,
                                    state.inline_env.cache@,
                                    lpos as int,
                                    lpos as int,
                                );
                            }
                            Some(
                                ParseLinkResult {
                                    nodes: children,
                                    href: Some(re.destination),
                                    title: re.title,
                                    end: pos2,
                                    label_end: Ghost(label_end),
                                    second: Ghost(second_range),
                                },
                            )
                        },
                        _ => {
                            proof {
                                assert(false);
                            }
                            None
                        },
                    }
                },
                None => {
                    let ghost pre_remove = state.inline_env.cache@;
                    let _ = state.inline_env.cache.remove(&lpos);
                    proof {
                        lemma_cache_preserved_remove(pre_remove, lpos, lpos as int);
                        lemma_cache_preserved_trans(
                            old(state).inline_env.cache@,
                            pre_remove,
                            state.inline_env.cache@,
                            lpos as int,
                            lpos as int,
                        );
                    }
                    None
                },
            }
        },
        None => None,
    }
}

/// The link-shaped rule body: on a successful parse, builds the node from
/// the registered factory, attaches the label children, records the span,
/// and (when nesting is disabled) sets the seen-links marker.
pub(crate) fn link_run(
    md: &MarkdownIt,
    renv: &RootEnv,
    state: &mut InlineState,
    offset: usize,
    enable_nested: bool,
    factory: LinkFactory,
) -> (r: Option<usize>)
    requires
        md.wf(),
        old(state).wf(),
        old(state).depth <= md.max_nesting,
        old(state).pos < old(state).pos_max,
        offset <= 1,
        old(state).pos + offset < old(state).pos_max,
        old(state).src@[old(state).pos + offset] == 0x5b,
    ensures
        final(state).wf(),
        frame(*old(state), *final(state)),
        final(state).depth <= md.max_nesting,
        old(state).inline_env.seen_links ==> final(state).inline_env.seen_links,
        cache_preserved_below(
            old(state).inline_env.cache@,
            final(state).inline_env.cache@,
            old(state).pos as int,
        ),
        forall|e: int|
            #[trigger] owed_inline_commit(*md, *old(state), old(state).pos + offset, e)
                ==> r is Some,
        forall|e: int|
            #[trigger] owed_shortcut_commit(*md, *renv, *old(state), old(state).pos + offset, e)
                ==> r is Some,
        forall|e: int, e2: int|
            #[trigger] owed_reference_commit(
                *md,
                *renv,
                *old(state),
                old(state).pos + offset,
                e,
                e2,
            ) ==> r is Some,
        match r {
            Some(n) => {
                &&& 1 <= n
                &&& final(state).pos == old(state).pos + n
                &&& final(state).trailing_len == 0
                &&& (!enable_nested ==> final(state).inline_env.seen_links)
                &&& (!(factory is Link) && links_free(old(state).node.children@) ==> links_free(
                    final(state).node.children@,
                ))
                &&& link_commit(
                    *old(state),
                    *final(state),
                    n as int,
                    offset as int,
                    factory,
                    *renv,
                )
            },
            None => {
                &&& final(state).pos == old(state).pos
                &&& final(state).node == old(state).node
                &&& final(state).trailing_len == old(state).trailing_len
            },
        },
    decreases old(state).pos_max - old(state).pos, 3int,
{
    let start = state.pos;
    let parsed = parse_link(md, renv, state, start + offset, enable_nested);
    proof {
        lemma_cache_preserved_weaken(
            old(state).inline_env.cache@,
            state.inline_env.cache@,
            start as int,
            (start + offset) as int,
        );
    }
    match parsed {
        Some(res) => {
            let ghost le = res.label_end@;
            let end = res.end;
            let payload = factory.make(res.href, res.title);
            let node = Node {
                payload,
                children: res.nodes,
                srcmap: Some(Srcmap { start, end }),
            };
            proof {
                assert(tile(node.children@, start + offset + 1 as int, le as int));
                assert(node_wf(node, state.src@));
            }
            state.push_node_at(node, end);
            if !enable_nested {
                state.inline_env.seen_links = true;
            }
            Some(end - start)
        },
        None => None,
    }
}

/// Some registered rule is selected by this marker byte.
pub open spec fn marker_registered(p: crate::ruler::InlineParser, c: u8) -> bool {
    exists|i: int| 0 <= i < p.rules@.len() && (#[trigger] p.rules@[i]).marker == c
}

/// The rule provably has no match at this position, per its own match
/// spec.  The stateful link rules carry no spec-level match predicate, so
/// nothing is claimed of them here.
pub open spec fn rule_no_match(k: RuleKind, s: Seq<u8>, pos: int, max: int) -> bool {
    match k {
        RuleKind::Entity => crate::entity::entity_match(s, pos, max) is None,
        RuleKind::Autolink => crate::autolink::get_link_spec(s, pos, max) is None,
        RuleKind::HtmlInline => crate::html_inline::html_tag_len(s, pos, max) is None,
        RuleKind::Newline => 0 <= pos < s.len() ==> s[pos] != 0x0a,
        _ => true,
    }
}

/// The rule cannot fire at this position for a reason visible at the
/// spec level: its match spec fails, it is the passive closer, or it is
/// a prefixed link rule without a following label opener.  A plain `[`
/// link rule is never inert (its match is stateful).
pub open spec fn rule_inert(k: RuleKind, s: Seq<u8>, pos: int, max: int) -> bool {
    match k {
        RuleKind::Entity => crate::entity::entity_match(s, pos, max) is None,
        RuleKind::Autolink => crate::autolink::get_link_spec(s, pos, max) is None,
        RuleKind::HtmlInline => crate::html_inline::html_tag_len(s, pos, max) is None,
        RuleKind::Newline => 0 <= pos < s.len() ==> s[pos] != 0x0a,
        RuleKind::LinkEnd => true,
        RuleKind::Link { .. } => false,
        RuleKind::LinkPrefix { .. } => !(pos + 1 < max && pos + 1 < s.len() && s[pos + 1]
            == 0x5b),
    }
}

/// Every rule registered for the byte at `pos` is inert there: the step
/// is forced to be one byte of text fallback.
pub open spec fn all_inert(p: crate::ruler::InlineParser, s: Seq<u8>, pos: int, max: int) -> bool {
    forall|i: int|
        0 <= i < p.rules@.len() && 0 <= pos < s.len() && (#[trigger] p.rules@[i]).marker == s[pos]
            ==> rule_inert(p.rules@[i].kind, s, pos, max)
}

/// Runs exactly one tokenizer step: the first matching rule for the
/// marker byte at the cursor, or one byte of text fallback.  Returns
/// whether a non-text token was produced.  The cursor always advances.
pub fn tokenize_one(md: &MarkdownIt, renv: &RootEnv, state: &mut InlineState) -> (nontext: bool)
    requires
        md.wf(),
        old(state).wf(),
        old(state).depth <= md.max_nesting,
        old(state).pos < old(state).pos_max,
    ensures
        final(state).wf(),
        frame(*old(state), *final(state)),
        final(state).depth <= md.max_nesting,
        old(state).pos < final(state).pos <= final(state).pos_max,
        old(state).inline_env.seen_links ==> final(state).inline_env.seen_links,
        cache_preserved_below(
            old(state).inline_env.cache@,
            final(state).inline_env.cache@,
            old(state).pos as int,
        ),
        md.inline.nonest_wf() && !final(state).inline_env.seen_links && links_free(
            old(state).node.children@,
        ) ==> links_free(final(state).node.children@),
        // the fallback consumes exactly one byte of text; a token resets
        // the trailing-text run and appends exactly one node
        !nontext ==> final(state).pos == old(state).pos + 1 && final(state).trailing_len == old(
            state,
        ).trailing_len + 1,
        nontext ==> final(state).trailing_len == 0 && final(state).node.children@.len() == old(
            state,
        ).node.children@.len() + 1,
        // a token can only come from a rule registered for the marker byte
        nontext ==> marker_registered(md.inline, old(state).src@[old(state).pos as int]),
        !marker_registered(md.inline, old(state).src@[old(state).pos as int]) ==> !nontext,
        // an all-inert position forces the one-byte text fallback and
        // leaves the environments untouched
        all_inert(md.inline, old(state).src@, old(state).pos as int, old(state).pos_max as int)
            ==> !nontext && final(state).inline_env.seen_links == old(
            state,
        ).inline_env.seen_links && final(state).inline_env.cache@ == old(
            state,
        ).inline_env.cache@,
        // and the fallback ran only because no registered rule with a
        // spec-level match predicate matched here
        !nontext ==> forall|i: int|
            0 <= i < md.inline.rules@.len() && (#[trigger] md.inline.rules@[i]).marker == old(
                state,
            ).src@[old(state).pos as int] ==> rule_no_match(
                md.inline.rules@[i].kind,
                old(state).src@,
                old(state).pos as int,
                old(state).pos_max as int,
            ),
    decreases old(state).pos_max - old(state).pos, 4int,
{
    let c = state.src[state.pos];
    let ghost st0 = *state;
    let n_rules = md.inline.rules.len();
    let mut i: usize = 0;
    let mut fired = false;
    while i < n_rules && !fired
        invariant
            md.wf(),
            state.wf(),
            state.depth <= md.max_nesting,
            i <= n_rules,
            n_rules == md.inline.rules@.len(),
            c == st0.src@[st0.pos as int],
            st0 == *old(state),
            st0.wf(),
            st0.depth <= md.max_nesting,
            st0.pos < st0.pos_max,
            frame(st0, *state),
            !fired ==> state.pos == st0.pos && state.node.children@ == st0.node.children@
                && state.trailing_len == st0.trailing_len,
            all_inert(md.inline, st0.src@, st0.pos as int, st0.pos_max as int) ==> !fired
                && state.inline_env.seen_links == st0.inline_env.seen_links
                && state.inline_env.cache@ == st0.inline_env.cache@,
            fired ==> st0.pos < state.pos <= state.pos_max && state.trailing_len == 0,
            fired ==> state.node.children@.len() == st0.node.children@.len() + 1,
            fired ==> marker_registered(md.inline, c),
            !fired ==> forall|j: int|
                0 <= j < i && (#[trigger] md.inline.rules@[j]).marker == c ==> rule_no_match(
                    md.inline.rules@[j].kind,
                    st0.src@,
                    st0.pos as int,
                    st0.pos_max as int,
                ),
            st0.inline_env.seen_links ==> state.inline_env.seen_links,
            cache_preserved_below(
                st0.inline_env.cache@,
                state.inline_env.cache@,
                st0.pos as int,
            ),
            fired && md.inline.nonest_wf() && !state.inline_env.seen_links && links_free(
                st0.node.children@,
            ) ==> links_free(state.node.children@),
        decreases n_rules - i,
    {
        let entry = md.inline.rules[i];
        let ghost c_before = state.inline_env.cache@;
        if entry.marker == c {
            proof {
                assert(crate::ruler::entry_wf(md.inline.rules@[i as int]));
            }
            let r = match entry.kind {
                RuleKind::Link { enable_nested, factory } => link_run(
                    md,
                    renv,
                    state,
                    0,
                    enable_nested,
                    factory,
                ),
                RuleKind::LinkPrefix { prefix, enable_nested, factory } => {
                    if state.pos < state.pos_max && state.pos_max - state.pos > 1 && state.src[
                        state.pos + 1] == 0x5b {
                        link_run(md, renv, state, 1, enable_nested, factory)
                    } else {
                        None
                    }
                },
                RuleKind::LinkEnd => None,
                RuleKind::Autolink => AutolinkScanner::run(state),
                RuleKind::Entity => EntityScanner::run(state),
                RuleKind::HtmlInline => HtmlInlineScanner::run(state),
                RuleKind::Newline => crate::newline::rule(state),
            };
            proof {
                lemma_cache_preserved_trans(
                    st0.inline_env.cache@,
                    c_before,
                    state.inline_env.cache@,
                    st0.pos as int,
                    st0.pos as int,
                );
            }
            match r {
                Some(_) => {
                    fired = true;
                    proof {
                        assert(md.inline.rules@[i as int].marker == c);
                    }
                },
                None => {},
            }
        }
        i = i + 1;
    }
    if fired {
        true
    } else {
        state.text_fallback();
        false
    }
}

/// Advances the cursor to the end of the scan, one token at a time.
pub fn tokenize(md: &MarkdownIt, renv: &RootEnv, state: &mut InlineState)
    requires
        md.wf(),
        old(state).wf(),
        old(state).depth <= md.max_nesting,
    ensures
        final(state).wf(),
        frame(*old(state), *final(state)),
        final(state).pos == final(state).pos_max,
        final(state).depth <= md.max_nesting,
{
    while state.pos < state.pos_max
        invariant
            md.wf(),
            state.wf(),
            state.depth <= md.max_nesting,
            frame(*old(state), *state),
        decreases state.pos_max - state.pos,
    {
        let _nontext = tokenize_one(md, renv, state);
    }
}

} // verus!
