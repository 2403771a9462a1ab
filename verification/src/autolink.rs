//! Autolinks: `<https://example.org>` and `<user@example.org>`.
//!
//! The URL grammar is the CommonMark one: a scheme of an ASCII letter
//! followed by 1 to 31 letters, digits, `+`, `.` or `-`, then `:`, then a
//! tail free of spaces, controls, `<` and `>`; the email grammar is the
//! usual local part `@` dot-separated labels of at most 63 characters.

use vstd::prelude::*;
use crate::links_util::{enc_from, normalize_link, normalize_link_text, validate_link,
    validate_link_spec};
use crate::node::{links_free, node_wf, tile, Autolink, Node, NodeValue, Srcmap, Text};
use crate::ruler::{MarkdownIt, RuleKind};
use crate::state::InlineState;
use crate::util::{exec_is_alnum, exec_is_alpha, is_alnum, is_alpha};

verus! {

/// Registers the autolink rule.
pub fn add(md: &mut MarkdownIt)
    requires
        old(md).wf(),
    ensures
        final(md).wf(),
        old(md).inline.nonest_wf() ==> final(md).inline.nonest_wf(),
{
    md.inline.add_rule(0x3c, RuleKind::Autolink);
}

/// Position of the `>` closing an autolink candidate; an inner `<` or the
/// end of the scan fails.
pub open spec fn autolink_close(s: Seq<u8>, i: int, max: int) -> Option<int>
    decreases max - i,
{
    if !(0 <= i < max && i < s.len()) {
        None
    } else if s[i] == 0x3c {
        None
    } else if s[i] == 0x3e {
        Some(i)
    } else {
        autolink_close(s, i + 1, max)
    }
}

pub open spec fn scheme_char(b: u8) -> bool {
    is_alnum(b) || b == 0x2b || b == 0x2e || b == 0x2d
}

pub open spec fn scheme_run(s: Seq<u8>, i: int) -> int
    decreases s.len() - i,
{
    if 0 <= i < s.len() && scheme_char(s[i]) {
        1 + scheme_run(s, i + 1)
    } else {
        0
    }
}

pub open spec fn url_tail_ok(s: Seq<u8>, i: int) -> bool {
    forall|j: int| i <= j < s.len() ==> !(s[j] <= 0x20 || s[j] == 0x3c || s[j] == 0x3e)
}

/// `scheme:rest` with a 2..=32 byte scheme and a clean tail.
pub open spec fn is_autolink_url(u: Seq<u8>) -> bool {
    &&& u.len() >= 1
    &&& is_alpha(u[0])
    &&& {
        let r = scheme_run(u, 1);
        &&& 1 <= r <= 31
        &&& 1 + r < u.len()
        &&& u[1 + r] == 0x3a
        &&& url_tail_ok(u, 1 + r + 1)
    }
}

pub open spec fn email_local_char(b: u8) -> bool {
    ||| is_alnum(b)
    ||| b == 0x2e || b == 0x21 || b == 0x23 || b == 0x24 || b == 0x25 || b == 0x26
    ||| b == 0x27 || b == 0x2a || b == 0x2b || b == 0x2f || b == 0x3d || b == 0x3f
    ||| b == 0x5e || b == 0x5f || b == 0x60 || b == 0x7b || b == 0x7c || b == 0x7d
    ||| b == 0x7e || b == 0x2d
}

pub open spec fn local_run(s: Seq<u8>, i: int) -> int
    decreases s.len() - i,
{
    if 0 <= i < s.len() && email_local_char(s[i]) {
        1 + local_run(s, i + 1)
    } else {
        0
    }
}

pub open spec fn label_char(b: u8) -> bool {
    is_alnum(b) || b == 0x2d
}

pub open spec fn label_run(s: Seq<u8>, i: int) -> int
    decreases s.len() - i,
{
    if 0 <= i < s.len() && label_char(s[i]) {
        1 + label_run(s, i + 1)
    } else {
        0
    }
}

/// Dot-separated domain labels from `i`: each 1 to 63 characters of
/// letters, digits and hyphens, beginning and ending alphanumerically.
pub open spec fn domain_ok(s: Seq<u8>, i: int) -> bool
    decreases s.len() - i,
        via domain_ok_dec
{
    if !(0 <= i < s.len() && is_alnum(s[i])) {
        false
    } else {
        let r = label_run(s, i);
        &&& r <= 63
        &&& is_alnum(s[i + r - 1])
        &&& (i + r == s.len() || (i + r < s.len() && s[i + r] == 0x2e && domain_ok(s, i + r + 1)))
    }
}

#[via_fn]
proof fn domain_ok_dec(s: Seq<u8>, i: int) {
    lemma_runs_nonneg(s, i);
}

/// `local@domain`.
pub open spec fn is_email_url(u: Seq<u8>) -> bool {
    let a = local_run(u, 0);
    &&& a >= 1
    &&& a < u.len()
    &&& u[a as int] == 0x40
    &&& domain_ok(u, a + 1)
}

pub open spec fn mailto_prefix() -> Seq<u8> {
    seq![0x6du8, 0x61u8, 0x69u8, 0x6cu8, 0x74u8, 0x6fu8, 0x3au8]
}

/// What `get_link` returns: the token length (through the closing `>`)
/// and the normalized full URL, for a URL or email that validates.
pub open spec fn get_link_spec(s: Seq<u8>, pos: int, max: int) -> Option<(int, Seq<u8>)> {
    match autolink_close(s, pos + 1, max) {
        Some(c) => {
            let url = s.subrange(pos + 1, c);
            if is_autolink_url(url) {
                let full = enc_from(url, 0);
                if validate_link_spec(full) {
                    Some((c + 1 - pos, full))
                } else {
                    None
                }
            } else if is_email_url(url) {
                let full = enc_from(mailto_prefix() + url, 0);
                if validate_link_spec(full) {
                    Some((c + 1 - pos, full))
                } else {
                    None
                }
            } else {
                None
            }
        },
        None => None,
    }
}

/// What a committed autolink did: exactly one `Autolink` node was
/// appended, spanning the construct, holding the normalized URL and one
/// text child with the link's inner text.
pub open spec fn autolink_commit(s0: InlineState, s1: InlineState, n: int) -> bool {
    match get_link_spec(s0.src@, s0.pos as int, s0.pos_max as int) {
        Some(p) => {
            let cs = s1.node.children@;
            &&& p.0 == n
            &&& cs == s0.node.children@.push(cs.last())
            &&& cs.last().payload matches NodeValue::Autolink(a) && a.url@ == p.1
            &&& cs.last().srcmap == Some(Srcmap { start: s0.pos, end: (s0.pos + n) as usize })
            &&& cs.last().children@.len() == 1
            &&& cs.last().children@[0].payload matches NodeValue::Text(t) && t.content@
                == s0.src@.subrange(s0.pos + 1, s0.pos + n - 1)
            &&& cs.last().children@[0].srcmap == Some(
                Srcmap { start: (s0.pos + 1) as usize, end: (s0.pos + n - 1) as usize },
            )
        },
        None => false,
    }
}

proof fn lemma_scheme_run_split(s: Seq<u8>, a: int, j: int)
    requires
        0 <= a <= j <= s.len(),
        forall|k: int| a <= k < j ==> scheme_char(#[trigger] s[k]),
    ensures
        scheme_run(s, a) == (j - a) + scheme_run(s, j),
    decreases j - a,
{
    if a < j {
        lemma_scheme_run_split(s, a + 1, j);
    }
}

proof fn lemma_local_run_split(s: Seq<u8>, a: int, j: int)
    requires
        0 <= a <= j <= s.len(),
        forall|k: int| a <= k < j ==> email_local_char(#[trigger] s[k]),
    ensures
        local_run(s, a) == (j - a) + local_run(s, j),
    decreases j - a,
{
    if a < j {
        lemma_local_run_split(s, a + 1, j);
    }
}

proof fn lemma_label_run_split(s: Seq<u8>, a: int, j: int)
    requires
        0 <= a <= j <= s.len(),
        forall|k: int| a <= k < j ==> label_char(#[trigger] s[k]),
    ensures
        label_run(s, a) == (j - a) + label_run(s, j),
    decreases j - a,
{
    if a < j {
        lemma_label_run_split(s, a + 1, j);
    }
}

proof fn lemma_runs_nonneg(s: Seq<u8>, a: int)
    ensures
        scheme_run(s, a) >= 0,
        local_run(s, a) >= 0,
        label_run(s, a) >= 0,
    decreases s.len() - a,
{
    if 0 <= a < s.len() {
        lemma_runs_nonneg(s, a + 1);
    }
}

fn exec_scheme_char(b: u8) -> (r: bool)
    ensures
        r == scheme_char(b),
{
    exec_is_alnum(b) || b == 0x2b || b == 0x2e || b == 0x2d
}

fn exec_email_local_char(b: u8) -> (r: bool)
    ensures
        r == email_local_char(b),
{
    exec_is_alnum(b) || b == 0x2e || b == 0x21 || b == 0x23 || b == 0x24 || b == 0x25 || b == 0x26
        || b == 0x27 || b == 0x2a || b == 0x2b || b == 0x2f || b == 0x3d || b == 0x3f || b == 0x5e
        || b == 0x5f || b == 0x60 || b == 0x7b || b == 0x7c || b == 0x7d || b == 0x7e || b == 0x2d
}

fn exec_label_char(b: u8) -> (r: bool)
    ensures
        r == label_char(b),
{
    exec_is_alnum(b) || b == 0x2d
}

/// Checks the `scheme:tail` shape.
fn exec_is_autolink_url(u: &[u8]) -> (r: bool)
    ensures
        r == is_autolink_url(u@),
{
    if u.len() == 0 || !exec_is_alpha(u[0]) {
        return false;
    }
    let mut j: usize = 1;
    while j < u.len() && exec_scheme_char(u[j]) && j <= 32
        invariant
            1 <= j <= u@.len(),
            j <= 33,
            u@.len() >= 1,
            is_alpha(u@[0]),
            forall|k: int| 1 <= k < j ==> scheme_char(#[trigger] u@[k]),
        decreases u@.len() - j,
    {
        j = j + 1;
    }
    proof {
        lemma_scheme_run_split(u@, 1, j as int);
    }
    if j < u.len() && exec_scheme_char(u[j]) {
        // run longer than 32: too long for a scheme
        proof {
            lemma_runs_nonneg(u@, j + 1);
            assert(scheme_run(u@, 1) >= 33);
        }
        return false;
    }
    proof {
        assert(scheme_run(u@, j as int) == 0);
        assert(scheme_run(u@, 1) == j - 1);
    }
    let r = j - 1;
    if !(1 <= r && r <= 31 && j < u.len() && u[j] == 0x3a) {
        return false;
    }
    let mut k: usize = j + 1;
    while k < u.len()
        invariant
            j + 1 <= k <= u@.len(),
            u@.len() >= 1,
            is_alpha(u@[0]),
            scheme_run(u@, 1) == j - 1,
            1 <= j - 1 <= 31,
            j < u@.len(),
            u@[j as int] == 0x3a,
            forall|t: int| j + 1 <= t < k ==> !(u@[t] <= 0x20 || u@[t] == 0x3c || u@[t] == 0x3e),
        decreases u@.len() - k,
    {
        let b = u[k];
        if b <= 0x20 || b == 0x3c || b == 0x3e {
            return false;
        }
        k = k + 1;
    }
    true
}

/// Checks the `local@domain` shape.
fn exec_is_email_url(u: &[u8]) -> (r: bool)
    ensures
        r == is_email_url(u@),
{
    let mut a: usize = 0;
    while a < u.len() && exec_email_local_char(u[a])
        invariant
            a <= u@.len(),
            forall|k: int| 0 <= k < a ==> email_local_char(#[trigger] u@[k]),
        decreases u@.len() - a,
    {
        a = a + 1;
    }
    proof {
        lemma_local_run_split(u@, 0, a as int);
        assert(local_run(u@, a as int) == 0);
        assert(local_run(u@, 0) == a);
    }
    if !(a >= 1 && a < u.len() && u[a] == 0x40) {
        return false;
    }
    let mut i: usize = a + 1;
    loop
        invariant
            a + 1 <= i <= u@.len(),
            is_email_url(u@) == domain_ok(u@, i as int),
        decreases u@.len() - i,
    {
        if !(i < u.len() && exec_is_alnum(u[i])) {
            return false;
        }
        let mut j: usize = i;
        while j < u.len() && exec_label_char(u[j])
            invariant
                i <= j <= u@.len(),
                i < u@.len(),
                is_alnum(u@[i as int]),
                is_email_url(u@) == domain_ok(u@, i as int),
                forall|k: int| i <= k < j ==> label_char(#[trigger] u@[k]),
            decreases u@.len() - j,
        {
            j = j + 1;
        }
        proof {
            lemma_label_run_split(u@, i as int, j as int);
            assert(label_run(u@, j as int) == 0);
            assert(label_run(u@, i as int) == j - i);
        }
        let r = j - i;
        if !(r <= 63 && exec_is_alnum(u[j - 1])) {
            return false;
        }
        if j == u.len() {
            return true;
        }
        if u[j] != 0x2e {
            return false;
        }
        i = j + 1;
    }
}

/// Scans an autolink at the cursor: finds the closing `>`, classifies the
/// URL, normalizes it, and validates it.
pub fn get_link(state: &InlineState) -> (r: Option<(usize, Vec<u8>)>)
    requires
        state.wf(),
        state.pos < state.pos_max,
    ensures
        match r {
            Some(p) => {
                &&& get_link_spec(state.src@, state.pos as int, state.pos_max as int) == Some(
                    (p.0 as int, p.1@),
                )
                &&& 2 <= p.0
                &&& state.pos + p.0 <= state.pos_max
            },
            None => get_link_spec(state.src@, state.pos as int, state.pos_max as int) is None,
        },
{
    let mut c: usize = state.pos + 1;
    loop
        invariant
            state.pos + 1 <= c <= state.pos_max <= state.src@.len(),
            state.pos < state.pos_max,
            autolink_close(state.src@, state.pos + 1 as int, state.pos_max as int)
                == autolink_close(state.src@, c as int, state.pos_max as int),
        ensures
            state.pos + 1 <= c < state.pos_max <= state.src@.len(),
            autolink_close(state.src@, state.pos + 1 as int, state.pos_max as int) == Some(
                c as int,
            ),
        decreases state.pos_max - c,
    {
        if c >= state.pos_max {
            return None;
        }
        let b = state.src[c];
        if b == 0x3c {
            return None;
        }
        if b == 0x3e {
            break;
        }
        c = c + 1;
    }
    let cpos = c;
    let url = vstd::slice::slice_subrange(state.src.as_slice(), state.pos + 1, cpos);
    if exec_is_autolink_url(url) {
        let full = normalize_link(url);
        if validate_link(full.as_slice()) {
            return Some((cpos + 1 - state.pos, full));
        } else {
            return None;
        }
    }
    if exec_is_email_url(url) {
        let mut m: Vec<u8> = Vec::new();
        m.push(0x6d);
        m.push(0x61);
        m.push(0x69);
        m.push(0x6c);
        m.push(0x74);
        m.push(0x6f);
        m.push(0x3a);
        proof {
            assert(m@ =~= mailto_prefix());
        }
        let mut q: usize = 0;
        while q < url.len()
            invariant
                q <= url@.len(),
                m@ == mailto_prefix() + url@.subrange(0, q as int),
            decreases url@.len() - q,
        {
            m.push(url[q]);
            q = q + 1;
            proof {
                assert(m@ =~= mailto_prefix() + url@.subrange(0, q as int));
            }
        }
        proof {
            assert(url@.subrange(0, url@.len() as int) =~= url@);
            assert(m@ =~= mailto_prefix() + url@);
        }
        let full = normalize_link(m.as_slice());
        if validate_link(full.as_slice()) {
            return Some((cpos + 1 - state.pos, full));
        } else {
            return None;
        }
    }
    None
}

pub struct AutolinkScanner;

impl AutolinkScanner {
    /// Fast lookahead: the token length when an autolink starts here.
    pub fn check(state: &InlineState) -> (r: Option<usize>)
        requires
            state.wf(),
            state.pos < state.pos_max,
        ensures
            match r {
                Some(n) => get_link_spec(state.src@, state.pos as int, state.pos_max as int)
                    matches Some(p) && p.0 == n,
                None => get_link_spec(state.src@, state.pos as int, state.pos_max as int) is None,
            },
    {
        match get_link(state) {
            Some(p) => Some(p.0),
            None => None,
        }
    }

    /// Attempts the autolink rule at the cursor: commits an `Autolink`
    /// node holding one text child with the link's inner text.
    pub fn run(state: &mut InlineState) -> (r: Option<usize>)
        requires
            old(state).wf(),
            old(state).pos < old(state).pos_max,
        ensures
            final(state).wf(),
            final(state).src == old(state).src,
            final(state).pos_max == old(state).pos_max,
            final(state).tile_from == old(state).tile_from,
            final(state).depth == old(state).depth,
            final(state).inline_env.seen_links == old(state).inline_env.seen_links,
            final(state).inline_env.cache@ == old(state).inline_env.cache@,
            final(state).node.payload == old(state).node.payload,
            final(state).node.srcmap == old(state).node.srcmap,
            links_free(old(state).node.children@) ==> links_free(final(state).node.children@),
            (r is Some) <==> get_link_spec(
                old(state).src@,
                old(state).pos as int,
                old(state).pos_max as int,
            ) is Some,
            match r {
                Some(n) => 1 <= n && final(state).pos == old(state).pos + n
                    && final(state).trailing_len == 0 && autolink_commit(
                    *old(state),
                    *final(state),
                    n as int,
                ),
                None => *final(state) == *old(state),
            },
    {
        let got = get_link(state);
        match got {
            Some(p) => {
                let (len, full_url) = p;
                let start = state.pos;
                let inner = vstd::slice::slice_subrange(
                    state.src.as_slice(),
                    start + 1,
                    start + len - 1,
                );
                let content = normalize_link_text(inner);
                let child = Node {
                    payload: NodeValue::Text(Text { content }),
                    children: Vec::new(),
                    srcmap: Some(Srcmap { start: start + 1, end: start + len - 1 }),
                };
                let mut children: Vec<Node> = Vec::new();
                children.push(child);
                let n = Node {
                    payload: NodeValue::Autolink(Autolink { url: full_url }),
                    children,
                    srcmap: Some(Srcmap { start, end: start + len }),
                };
                proof {
                    assert(crate::node::leaf_ok(child, state.src@));
                    assert(crate::node::node_wf(child, state.src@));
                    assert(n.children@ =~= Seq::empty().push(child));
                    assert(crate::node::tiled_from(Seq::empty().push(child), 1, start + len - 1,
                        start + len - 1));
                    assert(tile(n.children@, start + 1 as int, start + len - 1));
                    assert(node_wf(n, state.src@));
                }
                state.push_node_at(n, start + len);
                Some(len)
            },
            None => None,
        }
    }
}

} // verus!
