//! The inline driver: walks the block-phase tree and replaces every
//! `InlineRoot` placeholder with the children its raw content parses to.
//!
//! Span convention: the spliced children carry offsets local to the
//! placeholder's content, exactly as the scan produced them; that is what
//! the tiling and reconstruction laws speak about.  A host that needs
//! document-global positions applies `srcmap::map_pos` with the
//! placeholder's `(local, global)` mapping to each span.

use vstd::prelude::*;
use crate::engine::tokenize;
use crate::node::{
    lemma_wf_no_inline_root, no_inline_root, node_wf, tile, Node, NodeValue,
};
use crate::ruler::{CoreRule, MarkdownIt};
use crate::state::{InlineState, RootEnv};

pub use crate::node::InlineRoot;

verus! {

broadcast use {
    vstd::std_specs::vec::axiom_vec_index_decreases,
    vstd::std_specs::vec::axiom_vec_decreases_to_view,
    vstd::seq::axiom_seq_index_decreases,
};

/// Registers the inline driver as a core (whole-tree) rule, run after the
/// block phase.
pub fn add(md: &mut MarkdownIt)
    ensures
        final(md).wf() == old(md).wf(),
        final(md).ruler.rules@ == old(md).ruler.rules@.push(CoreRule::InlineDriver),
{
    md.ruler.add_rule(CoreRule::InlineDriver);
}

/// Runs one inline scan over `content`, filling `node`'s children.  The
/// children tile the whole content and are well formed against it.
pub fn parse(md: &MarkdownIt, renv: &RootEnv, content: Vec<u8>, node: Node) -> (out: Node)
    requires
        md.wf(),
        node.children@.len() == 0,
    ensures
        out.payload == node.payload,
        out.srcmap == node.srcmap,
        tile(out.children@, 0, content@.len() as int),
        forall|i: int| 0 <= i < out.children@.len() ==> node_wf(#[trigger] out.children@[i], content@),
{
    let ghost cv = content@;
    let mut st = InlineState::new(content, node);
    tokenize(md, renv, &mut st);
    let InlineState { node: out, .. } = st;
    out
}

/// The driver's splicing relation between an input sibling list and the
/// output one, read from position `k` of the input and `j` of the output:
/// order is kept, each placeholder is replaced in place by children that
/// tile its content and are well formed against it, and every other child
/// maps to its recursively walked self.
pub open spec fn spliced_from(ins: Seq<Node>, outs: Seq<Node>, k: int, j: int) -> bool
    decreases ins, ins.len() - k,
{
    if k < 0 || k >= ins.len() {
        j == outs.len()
    } else {
        match ins[k].payload {
            NodeValue::InlineRoot(ir) => exists|cnt: int|
                {
                    &&& 0 <= cnt
                    &&& 0 <= j
                    &&& j + cnt <= outs.len()
                    &&& #[trigger] tile(outs.subrange(j, j + cnt), 0, ir.content@.len() as int)
                    &&& (forall|t: int| j <= t < j + cnt ==> node_wf(#[trigger] outs[t], ir.content@))
                    &&& spliced_from(ins, outs, k + 1, j + cnt)
                },
            _ => {
                &&& 0 <= j < outs.len()
                &&& walked_rel(ins[k], outs[j])
                &&& spliced_from(ins, outs, k + 1, j + 1)
            },
        }
    }
}

/// The recursive walk relation: payload and span are kept, and for a
/// non-placeholder node the output children splice the input children.
pub open spec fn walked_rel(a: Node, b: Node) -> bool
    decreases a, 0int,
{
    &&& b.payload == a.payload
    &&& b.srcmap == a.srcmap
    &&& (!(a.payload is InlineRoot) ==> spliced_from(a.children@, b.children@, 0, 0))
}

/// Prepending nodes to the output shifts the splicing relation's output
/// cursor by their number.
proof fn lemma_spliced_prepend(ins: Seq<Node>, outs: Seq<Node>, k: int, j: int, pre: Seq<Node>)
    requires
        0 <= k <= ins.len(),
        0 <= j,
        spliced_from(ins, outs, k, j),
    ensures
        spliced_from(ins, pre + outs, k, pre.len() + j),
    decreases ins.len() - k,
{
    if k < ins.len() {
        match ins[k].payload {
            NodeValue::InlineRoot(ir) => {
                let cnt = choose|cnt: int|
                    {
                        &&& 0 <= cnt
                        &&& 0 <= j
                        &&& j + cnt <= outs.len()
                        &&& #[trigger] tile(
                            outs.subrange(j, j + cnt),
                            0,
                            ir.content@.len() as int,
                        )
                        &&& (forall|t: int|
                            j <= t < j + cnt ==> node_wf(#[trigger] outs[t], ir.content@))
                        &&& spliced_from(ins, outs, k + 1, j + cnt)
                    };
                assert((pre + outs).subrange(pre.len() + j, pre.len() + j + cnt) =~= outs.subrange(
                    j,
                    j + cnt,
                ));
                assert(tile(
                    (pre + outs).subrange(pre.len() + j, pre.len() + j + cnt),
                    0,
                    ir.content@.len() as int,
                ));
                assert forall|t: int|
                    pre.len() + j <= t < pre.len() + j + cnt implies node_wf(
                    #[trigger] (pre + outs)[t],
                    ir.content@,
                ) by {
                    assert((pre + outs)[t] == outs[t - pre.len()]);
                }
                lemma_spliced_prepend(ins, outs, k + 1, j + cnt, pre);
                assert(spliced_from(ins, pre + outs, k, pre.len() + j));
            },
            _ => {
                assert((pre + outs)[pre.len() + j] == outs[j]);
                lemma_spliced_prepend(ins, outs, k + 1, j + 1, pre);
                assert(spliced_from(ins, pre + outs, k, pre.len() + j));
            },
        }
    }
}

/// Walks the tree and replaces each `InlineRoot` child with its parsed
/// children, spliced in place with sibling order kept; other children are
/// walked recursively, so no placeholder remains below the result.
pub fn rule(md: &MarkdownIt, renv: &RootEnv, node: Node) -> (out: Node)
    requires
        md.wf(),
    ensures
        walked_rel(node, out),
        out.payload == node.payload,
        out.srcmap == node.srcmap,
        forall|i: int| 0 <= i < out.children@.len() ==> no_inline_root(#[trigger] out.children@[i]),
    decreases node,
{
    let Node { payload, children, srcmap } = node;
    let mut cs = children;
    let mut outs: Vec<Node> = Vec::new();
    proof {
        assert(cs@ =~= node.children@.subrange(0, cs@.len() as int));
    }
    while cs.len() > 0
        invariant
            md.wf(),
            cs@.len() <= node.children@.len(),
            cs@ == node.children@.subrange(0, cs@.len() as int),
            spliced_from(node.children@, outs@, cs@.len() as int, 0),
            forall|i: int| 0 <= i < outs@.len() ==> no_inline_root(#[trigger] outs@[i]),
        decreases cs@.len(),
    {
        let ghost k = cs@.len() - 1;
        let child = cs.pop().unwrap();
        proof {
            assert(child == node.children@[k]);
            assert(cs@ =~= node.children@.subrange(0, k));
        }
        match child.payload {
            NodeValue::InlineRoot(data) => {
                let content = data.content;
                let ghost cv = content@;
                let fresh = Node::fresh(NodeValue::Root);
                let parsed = parse(md, renv, content, fresh);
                let ghost part = parsed.children@;
                let ghost outs0 = outs@;
                let mut newv = parsed.children;
                newv.append(&mut outs);
                outs = newv;
                proof {
                    assert(outs@ =~= part + outs0);
                    lemma_spliced_prepend(node.children@, outs0, k + 1, 0, part);
                    let ghost cnt = part.len() as int;
                    assert(outs@.subrange(0, 0 + cnt) =~= part);
                    assert(tile(outs@.subrange(0, 0 + cnt), 0, cv.len() as int));
                    assert forall|t: int| 0 <= t < 0 + cnt implies node_wf(
                        #[trigger] outs@[t],
                        cv,
                    ) by {
                        assert(outs@[t] == part[t]);
                    }
                    assert(spliced_from(node.children@, outs@, k + 1, 0 + cnt));
                    assert(node.children@[k].payload == NodeValue::InlineRoot(data));
                    assert(data.content@ == cv);
                    assert(spliced_from(node.children@, outs@, k, 0));
                    assert forall|i: int| 0 <= i < outs@.len() implies no_inline_root(
                        #[trigger] outs@[i],
                    ) by {
                        if i < part.len() {
                            assert(outs@[i] == part[i]);
                            lemma_wf_no_inline_root(part[i], cv);
                        } else {
                            assert(outs@[i] == outs0[i - part.len()]);
                        }
                    }
                }
            },
            _ => {
                let ghost childp = child.payload;
                let walked = rule(md, renv, child);
                let ghost outs0 = outs@;
                let mut newv: Vec<Node> = Vec::new();
                newv.push(walked);
                newv.append(&mut outs);
                outs = newv;
                proof {
                    assert(outs@ =~= seq![walked] + outs0);
                    lemma_spliced_prepend(node.children@, outs0, k + 1, 0, seq![walked]);
                    assert(outs@[0] == walked);
                    assert(walked_rel(node.children@[k], walked));
                    assert(spliced_from(node.children@, outs@, k, 0));
                    assert(no_inline_root(walked));
                    assert forall|i: int| 0 <= i < outs@.len() implies no_inline_root(
                        #[trigger] outs@[i],
                    ) by {
                        if i >= 1 {
                            assert(outs@[i] == outs0[i - 1]);
                        }
                    }
                }
            },
        }
    }
    Node { payload, children: outs, srcmap }
}

} // verus!
