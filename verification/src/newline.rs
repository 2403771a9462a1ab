//! The newline inline rule: `'  \n'` (two trailing spaces) becomes a hard
//! break, a plain newline a soft break; leading whitespace of the next
//! line is consumed into the break.

use vstd::prelude::*;
use crate::node::{links_free, NodeValue, Srcmap};
use crate::ruler::{MarkdownIt, RuleKind};
use crate::state::InlineState;

pub use crate::node::Hardbreak;
pub use crate::node::Softbreak;

verus! {

/// First position at or after `i` that is not a space or tab.
pub open spec fn indent_end(s: Seq<u8>, i: int, max: int) -> int
    decreases max - i,
{
    if 0 <= i < max && i < s.len() && (s[i] == 0x20 || s[i] == 0x09) {
        indent_end(s, i + 1, max)
    } else {
        i
    }
}

/// Trailing run of spaces at the end of `c`, capped at `limit`.
pub open spec fn tsr(c: Seq<u8>, limit: int) -> int
    decreases c.len(),
{
    if limit > 0 && c.len() > 0 && c.last() == 0x20 {
        1 + tsr(c.drop_last(), limit - 1)
    } else {
        0
    }
}

/// The trailing spaces a break pops off the pending text leaf.
pub open spec fn break_tail(st: InlineState) -> int {
    if st.trailing_len == 0 {
        0
    } else {
        match st.node.children@.last().payload {
            NodeValue::Text(t) => tsr(t.content@, st.trailing_len as int),
            _ => 0,
        }
    }
}

proof fn lemma_tsr_value(c: Seq<u8>, limit: int, k: int)
    requires
        0 <= k <= limit,
        k <= c.len(),
        forall|j: int| c.len() - k <= j < c.len() ==> c[j] == 0x20,
        k == limit || k == c.len() || c[c.len() - 1 - k] != 0x20,
    ensures
        tsr(c, limit) == k,
    decreases k,
{
    if k == 0 {
    } else {
        assert(c[c.len() - 1] == 0x20);
        let d = c.drop_last();
        assert(d =~= c.subrange(0, c.len() - 1));
        assert(forall|j: int| d.len() - (k - 1) <= j < d.len() ==> d[j] == 0x20);
        lemma_tsr_value(d, limit - 1, k - 1);
    }
}

/// Registers the newline rule.
pub fn add(md: &mut MarkdownIt)
    requires
        old(md).wf(),
    ensures
        final(md).wf(),
        old(md).inline.nonest_wf() ==> final(md).inline.nonest_wf(),
{
    md.inline.add_rule(0x0a, RuleKind::Newline);
}

/// Runs the newline rule at the cursor.  It matches exactly when the
/// cursor byte is a newline; the break node spans the popped trailing
/// spaces, the newline, and the indentation of the next line.
pub fn rule(state: &mut InlineState) -> (r: Option<usize>)
    requires
        old(state).wf(),
        old(state).pos < old(state).pos_max,
    ensures
        final(state).wf(),
        final(state).src == old(state).src,
        final(state).pos_max == old(state).pos_max,
        final(state).tile_from == old(state).tile_from,
        final(state).depth == old(state).depth,
        final(state).inline_env.seen_links == old(state).inline_env.seen_links,
        final(state).inline_env.cache@ == old(state).inline_env.cache@,
        final(state).node.payload == old(state).node.payload,
        final(state).node.srcmap == old(state).node.srcmap,
        links_free(old(state).node.children@) ==> links_free(final(state).node.children@),
        (r is Some) <==> old(state).src@[old(state).pos as int] == 0x0a,
        match r {
            Some(n) => ({
                let e = indent_end(old(state).src@, old(state).pos + 1, old(state).pos_max as int);
                let tail = break_tail(*old(state));
                &&& 1 <= n
                &&& final(state).pos == old(state).pos + n
                &&& old(state).pos + n == e
                &&& final(state).trailing_len == 0
                &&& final(state).node.children@.len() == old(state).node.children@.len() + 1
                &&& final(state).node.children@.last().payload == (if tail >= 2 {
                    NodeValue::Hardbreak(crate::node::Hardbreak)
                } else {
                    NodeValue::Softbreak(crate::node::Softbreak)
                })
                &&& final(state).node.children@.last().srcmap == Some(
                    Srcmap { start: (old(state).pos - tail) as usize, end: e as usize },
                )
            }),
            None => *final(state) == *old(state),
        },
{
    if state.src[state.pos] != 0x0a {
        return None;
    }
    let start = state.pos;
    let ghost s = state.src@;
    let ghost pm = state.pos_max as int;
    let mut pos2: usize = state.pos + 1;
    while pos2 < state.pos_max && (state.src[pos2] == 0x20 || state.src[pos2] == 0x09)
        invariant
            start + 1 <= pos2 <= state.pos_max,
            state.pos_max <= state.src@.len(),
            s == state.src@,
            pm == state.pos_max as int,
            indent_end(s, start + 1, pm) == indent_end(s, pos2 as int, pm),
        decreases state.pos_max - pos2,
    {
        pos2 = pos2 + 1;
    }
    proof {
        assert(indent_end(s, pos2 as int, pm) == pos2 as int);
    }
    // count the trailing spaces of the pending text
    let mut tail: usize = 0;
    if state.trailing_len > 0 {
        let last = state.node.children.pop().unwrap();
        let ghost cs_before = state.node.children@;
        match &last.payload {
            NodeValue::Text(t) => {
                let clen = t.content.len();
                proof {
                    assert(clen >= state.trailing_len);
                }
                while tail < state.trailing_len && t.content[clen - 1 - tail] == 0x20
                    invariant
                        tail <= state.trailing_len <= clen,
                        clen == t.content@.len(),
                        forall|j: int| clen - tail <= j < clen ==> t.content@[j] == 0x20,
                    decreases state.trailing_len - tail,
                {
                    tail = tail + 1;
                }
                proof {
                    lemma_tsr_value(t.content@, state.trailing_len as int, tail as int);
                }
            },
            _ => {
                proof {
                    assert(false);
                }
            },
        }
        state.node.children.push(last);
        proof {
            assert(state.node.children@ =~= old(state).node.children@);
        }
    }
    state.push_break_node(tail, pos2, tail >= 2);
    Some(pos2 - start)
}

} // verus!
