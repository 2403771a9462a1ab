//! Entity and numeric character references: `&#123;`, `&#xAF;`, `&quot;`.

use vstd::prelude::*;
use crate::node::{links_free, Node, NodeValue, Srcmap, TextSpecial};
use crate::ruler::{MarkdownIt, RuleKind};
use crate::state::InlineState;
use crate::util::{entity_at, entity_decode_at};

verus! {

/// Registers the entity rule.
pub fn add(md: &mut MarkdownIt)
    requires
        old(md).wf(),
    ensures
        final(md).wf(),
        old(md).inline.nonest_wf() ==> final(md).inline.nonest_wf(),
{
    md.inline.add_rule(0x26, RuleKind::Entity);
}

/// The rule matches exactly when a well-formed, in-range reference starts
/// at the cursor.
pub open spec fn entity_match(s: Seq<u8>, pos: int, pos_max: int) -> Option<(int, Seq<u8>)> {
    match entity_at(s, pos) {
        Some(p) => if pos + p.0 <= pos_max {
            Some(p)
        } else {
            None
        },
        None => None,
    }
}

/// What a committed entity did: exactly one special-text leaf was
/// appended, whose markup is the matched source slice and whose content
/// is the decoded reference.
pub open spec fn entity_commit(s0: InlineState, s1: InlineState, n: int) -> bool {
    match entity_match(s0.src@, s0.pos as int, s0.pos_max as int) {
        Some(p) => {
            let cs = s1.node.children@;
            &&& p.0 == n
            &&& cs == s0.node.children@.push(cs.last())
            &&& cs.last().payload matches NodeValue::TextSpecial(ts) && ts.content@ == p.1
                && ts.markup@ == s0.src@.subrange(s0.pos as int, s0.pos + n)
            &&& cs.last().srcmap == Some(Srcmap { start: s0.pos, end: (s0.pos + n) as usize })
            &&& cs.last().children@.len() == 0
        },
        None => false,
    }
}

/// Common commit path: pushes a special-text node whose markup is the
/// matched source slice and whose content is the decoded reference.
fn commit_entity(state: &mut InlineState, len: usize, decoded: Vec<u8>) -> (r: Option<usize>)
    requires
        old(state).wf(),
        old(state).pos < old(state).pos_max,
        entity_match(old(state).src@, old(state).pos as int, old(state).pos_max as int) == Some(
            (len as int, decoded@),
        ),
        1 <= len,
        old(state).pos + len <= old(state).pos_max,
    ensures
        final(state).wf(),
        final(state).src == old(state).src,
        final(state).pos_max == old(state).pos_max,
        final(state).tile_from == old(state).tile_from,
        final(state).depth == old(state).depth,
        final(state).inline_env.seen_links == old(state).inline_env.seen_links,
        final(state).inline_env.cache@ == old(state).inline_env.cache@,
        final(state).node.payload == old(state).node.payload,
        final(state).node.srcmap == old(state).node.srcmap,
        links_free(old(state).node.children@) ==> links_free(final(state).node.children@),
        r == Some(len),
        final(state).pos == old(state).pos + len,
        final(state).trailing_len == 0,
        entity_commit(*old(state), *final(state), len as int),
{
    let end = state.pos + len;
    let markup = vstd::slice::slice_to_vec(
        vstd::slice::slice_subrange(state.src.as_slice(), state.pos, end),
    );
    let n = Node {
        payload: NodeValue::TextSpecial(TextSpecial { content: decoded, markup }),
        children: Vec::new(),
        srcmap: Some(Srcmap { start: state.pos, end }),
    };
    proof {
        assert(crate::node::leaf_ok(n, state.src@));
        assert(crate::node::node_wf(n, state.src@));
    }
    state.push_node_at(n, end);
    Some(len)
}

/// Parses `&#...;` numeric references at the cursor.
pub fn parse_digital_entity(state: &mut InlineState) -> (r: Option<usize>)
    requires
        old(state).wf(),
        old(state).pos < old(state).pos_max,
        old(state).src@[old(state).pos as int] == 0x26,
    ensures
        final(state).wf(),
        final(state).src == old(state).src,
        final(state).pos_max == old(state).pos_max,
        final(state).tile_from == old(state).tile_from,
        final(state).depth == old(state).depth,
        final(state).inline_env.seen_links == old(state).inline_env.seen_links,
        final(state).inline_env.cache@ == old(state).inline_env.cache@,
        final(state).node.payload == old(state).node.payload,
        final(state).node.srcmap == old(state).node.srcmap,
        links_free(old(state).node.children@) ==> links_free(final(state).node.children@),
        match r {
            Some(n) => {
                &&& entity_match(
                    old(state).src@,
                    old(state).pos as int,
                    old(state).pos_max as int,
                ) matches Some(p) && p.0 == n
                &&& 1 <= n
                &&& final(state).pos == old(state).pos + n
                &&& final(state).trailing_len == 0
                &&& entity_commit(*old(state), *final(state), n as int)
            },
            None => *final(state) == *old(state),
        },
        r is None ==> !(old(state).pos + 1 < old(state).src@.len() && old(state).src@[old(
            state,
        ).pos + 1] == 0x23) || entity_match(
            old(state).src@,
            old(state).pos as int,
            old(state).pos_max as int,
        ) is None,
{
    if !(state.pos + 1 < state.src.len() && state.src[state.pos + 1] == 0x23) {
        return None;
    }
    let ent = entity_decode_at(state.src.as_slice(), state.pos);
    match ent {
        Some(p) => {
            let (len, decoded) = p;
            if len <= state.pos_max - state.pos {
                commit_entity(state, len, decoded)
            } else {
                None
            }
        },
        None => None,
    }
}

/// Parses `&name;` references at the cursor through the built-in table.
pub fn parse_named_entity(state: &mut InlineState) -> (r: Option<usize>)
    requires
        old(state).wf(),
        old(state).pos < old(state).pos_max,
        old(state).src@[old(state).pos as int] == 0x26,
        !(old(state).pos + 1 < old(state).src@.len() && old(state).src@[old(state).pos + 1]
            == 0x23),
    ensures
        final(state).wf(),
        final(state).src == old(state).src,
        final(state).pos_max == old(state).pos_max,
        final(state).tile_from == old(state).tile_from,
        final(state).depth == old(state).depth,
        final(state).inline_env.seen_links == old(state).inline_env.seen_links,
        final(state).inline_env.cache@ == old(state).inline_env.cache@,
        final(state).node.payload == old(state).node.payload,
        final(state).node.srcmap == old(state).node.srcmap,
        links_free(old(state).node.children@) ==> links_free(final(state).node.children@),
        match r {
            Some(n) => {
                &&& entity_match(
                    old(state).src@,
                    old(state).pos as int,
                    old(state).pos_max as int,
                ) matches Some(p) && p.0 == n
                &&& 1 <= n
                &&& final(state).pos == old(state).pos + n
                &&& final(state).trailing_len == 0
                &&& entity_commit(*old(state), *final(state), n as int)
            },
            None => *final(state) == *old(state) && entity_match(
                old(state).src@,
                old(state).pos as int,
                old(state).pos_max as int,
            ) is None,
        },
{
    let ent = entity_decode_at(state.src.as_slice(), state.pos);
    match ent {
        Some(p) => {
            let (len, decoded) = p;
            if len <= state.pos_max - state.pos {
                commit_entity(state, len, decoded)
            } else {
                None
            }
        },
        None => None,
    }
}

pub struct EntityScanner;

impl EntityScanner {
    /// Fast lookahead: the length of the reference at the cursor, if any.
    pub fn check(state: &InlineState) -> (r: Option<usize>)
        requires
            state.wf(),
            state.pos < state.pos_max,
        ensures
            match r {
                Some(n) => entity_match(state.src@, state.pos as int, state.pos_max as int)
                    matches Some(p) && p.0 == n,
                None => entity_match(state.src@, state.pos as int, state.pos_max as int) is None,
            },
    {
        let ent = entity_decode_at(state.src.as_slice(), state.pos);
        match ent {
            Some(p) => if p.0 <= state.pos_max - state.pos {
                Some(p.0)
            } else {
                None
            },
            None => None,
        }
    }

    /// Attempts the entity rule at the cursor.
    pub fn run(state: &mut InlineState) -> (r: Option<usize>)
        requires
            old(state).wf(),
            old(state).pos < old(state).pos_max,
            old(state).src@[old(state).pos as int] == 0x26,
        ensures
            final(state).wf(),
            final(state).src == old(state).src,
            final(state).pos_max == old(state).pos_max,
            final(state).tile_from == old(state).tile_from,
            final(state).depth == old(state).depth,
            final(state).inline_env.seen_links == old(state).inline_env.seen_links,
            final(state).inline_env.cache@ == old(state).inline_env.cache@,
            final(state).node.payload == old(state).node.payload,
            final(state).node.srcmap == old(state).node.srcmap,
            links_free(old(state).node.children@) ==> links_free(final(state).node.children@),
            (r is Some) <==> entity_match(
                old(state).src@,
                old(state).pos as int,
                old(state).pos_max as int,
            ) is Some,
            match r {
                Some(n) => 1 <= n && final(state).pos == old(state).pos + n
                    && final(state).trailing_len == 0 && entity_commit(
                    *old(state),
                    *final(state),
                    n as int,
                ),
                None => *final(state) == *old(state),
            },
    {
        if state.pos + 1 < state.src.len() && state.src[state.pos + 1] == 0x23 {
            parse_digital_entity(state)
        } else {
            parse_named_entity(state)
        }
    }
}

} // verus!
