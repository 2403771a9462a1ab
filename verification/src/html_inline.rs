//! Raw HTML inline tags, kept verbatim in the tree: open and closing
//! tags with attributes, comments, processing instructions, declarations
//! and CDATA sections.

use vstd::prelude::*;
use crate::node::{links_free, HtmlInline, Node, NodeValue, Srcmap};
use crate::ruler::{MarkdownIt, RuleKind};
use crate::state::InlineState;
use crate::util::{exec_is_alnum, exec_is_alpha, is_alnum, is_alpha};

verus! {

/// Registers the raw-HTML rule.
pub fn add(md: &mut MarkdownIt)
    requires
        old(md).wf(),
    ensures
        final(md).wf(),
        old(md).inline.nonest_wf() ==> final(md).inline.nonest_wf(),
{
    md.inline.add_rule(0x3c, RuleKind::HtmlInline);
}

pub open spec fn is_ws(b: u8) -> bool {
    b == 0x20 || b == 0x09 || b == 0x0a || b == 0x0b || b == 0x0c || b == 0x0d
}

pub open spec fn tagname_char(b: u8) -> bool {
    is_alnum(b) || b == 0x2d
}

pub open spec fn attrname_start(b: u8) -> bool {
    is_alpha(b) || b == 0x5f || b == 0x3a
}

pub open spec fn attrname_char(b: u8) -> bool {
    is_alnum(b) || b == 0x5f || b == 0x2e || b == 0x3a || b == 0x2d
}

pub open spec fn unquoted_char(b: u8) -> bool {
    b > 0x20 && b != 0x22 && b != 0x27 && b != 0x3c && b != 0x3d && b != 0x3e && b != 0x60
}

pub open spec fn ws_skip(s: Seq<u8>, i: int, max: int) -> int
    decreases max - i,
{
    if 0 <= i < max && i < s.len() && is_ws(s[i]) {
        ws_skip(s, i + 1, max)
    } else {
        i
    }
}

pub open spec fn tagname_skip(s: Seq<u8>, i: int, max: int) -> int
    decreases max - i,
{
    if 0 <= i < max && i < s.len() && tagname_char(s[i]) {
        tagname_skip(s, i + 1, max)
    } else {
        i
    }
}

pub open spec fn attrname_skip(s: Seq<u8>, i: int, max: int) -> int
    decreases max - i,
{
    if 0 <= i < max && i < s.len() && attrname_char(s[i]) {
        attrname_skip(s, i + 1, max)
    } else {
        i
    }
}

pub open spec fn unquoted_skip(s: Seq<u8>, i: int, max: int) -> int
    decreases max - i,
{
    if 0 <= i < max && i < s.len() && unquoted_char(s[i]) {
        unquoted_skip(s, i + 1, max)
    } else {
        i
    }
}

/// First position of the closing quote `q`.
pub open spec fn quote_end(s: Seq<u8>, i: int, max: int, q: u8) -> Option<int>
    decreases max - i,
{
    if !(0 <= i < max && i < s.len()) {
        None
    } else if s[i] == q {
        Some(i)
    } else {
        quote_end(s, i + 1, max, q)
    }
}

/// First position of an unquoted `>`.
pub open spec fn gt_end(s: Seq<u8>, i: int, max: int) -> Option<int>
    decreases max - i,
{
    if !(0 <= i < max && i < s.len()) {
        None
    } else if s[i] == 0x3e {
        Some(i)
    } else {
        gt_end(s, i + 1, max)
    }
}

/// First position where `--` begins.
pub open spec fn ddash_at(s: Seq<u8>, i: int, max: int) -> Option<int>
    decreases max - i,
{
    if !(0 <= i && i + 1 < max && i + 1 < s.len()) {
        None
    } else if s[i] == 0x2d && s[i + 1] == 0x2d {
        Some(i)
    } else {
        ddash_at(s, i + 1, max)
    }
}

/// First position where `?>` begins.
pub open spec fn pi_close(s: Seq<u8>, i: int, max: int) -> Option<int>
    decreases max - i,
{
    if !(0 <= i && i + 1 < max && i + 1 < s.len()) {
        None
    } else if s[i] == 0x3f && s[i + 1] == 0x3e {
        Some(i)
    } else {
        pi_close(s, i + 1, max)
    }
}

/// First position where `]]>` begins.
pub open spec fn cdata_close(s: Seq<u8>, i: int, max: int) -> Option<int>
    decreases max - i,
{
    if !(0 <= i && i + 2 < max && i + 2 < s.len()) {
        None
    } else if s[i] == 0x5d && s[i + 1] == 0x5d && s[i + 2] == 0x3e {
        Some(i)
    } else {
        cdata_close(s, i + 1, max)
    }
}

proof fn lemma_skips_ge(s: Seq<u8>, i: int, max: int)
    ensures
        ws_skip(s, i, max) >= i,
        tagname_skip(s, i, max) >= i,
        attrname_skip(s, i, max) >= i,
        unquoted_skip(s, i, max) >= i,
        i <= max ==> ws_skip(s, i, max) <= max,
        i <= max ==> tagname_skip(s, i, max) <= max,
        i <= max ==> attrname_skip(s, i, max) <= max,
        i <= max ==> unquoted_skip(s, i, max) <= max,
    decreases max - i,
{
    if 0 <= i < max && i < s.len() {
        lemma_skips_ge(s, i + 1, max);
    }
}

proof fn lemma_quote_end_ge(s: Seq<u8>, i: int, max: int, q: u8)
    ensures
        quote_end(s, i, max, q) matches Some(e) ==> i <= e < max,
    decreases max - i,
{
    if 0 <= i < max && i < s.len() {
        lemma_quote_end_ge(s, i + 1, max, q);
    }
}

/// End of the attribute region of an open tag, at a position where only
/// whitespace, `/>` or `>` may follow an attribute or the tag name.
pub open spec fn attrs_from(s: Seq<u8>, i: int, max: int) -> Option<int>
    decreases max - i, 0int,
{
    if !(0 <= i < max && i < s.len()) {
        None
    } else if s[i] == 0x3e {
        Some(i + 1)
    } else if s[i] == 0x2f {
        if i + 1 < max && i + 1 < s.len() && s[i + 1] == 0x3e {
            Some(i + 2)
        } else {
            None
        }
    } else if is_ws(s[i]) {
        attrs_entry(s, i + 1, max)
    } else {
        None
    }
}

/// After at least one whitespace byte: more whitespace, the end of the
/// tag, or an attribute.
pub open spec fn attrs_entry(s: Seq<u8>, i: int, max: int) -> Option<int>
    decreases max - i, 1int,
        via attrs_entry_dec
{
    if !(0 <= i < max && i < s.len()) {
        None
    } else if is_ws(s[i]) {
        attrs_entry(s, i + 1, max)
    } else if s[i] == 0x3e {
        Some(i + 1)
    } else if s[i] == 0x2f {
        if i + 1 < max && i + 1 < s.len() && s[i + 1] == 0x3e {
            Some(i + 2)
        } else {
            None
        }
    } else if attrname_start(s[i]) {
        after_name(s, attrname_skip(s, i + 1, max), max)
    } else {
        None
    }
}

#[via_fn]
proof fn attrs_entry_dec(s: Seq<u8>, i: int, max: int) {
    lemma_skips_ge(s, i + 1, max);
}

/// After an attribute name: an optional `= value`, then back to the
/// attribute region.
pub open spec fn after_name(s: Seq<u8>, i: int, max: int) -> Option<int>
    decreases max - i, 2int,
        via after_name_dec
{
    let j = ws_skip(s, i, max);
    if 0 <= j < max && j < s.len() && s[j] == 0x3d {
        let v = ws_skip(s, j + 1, max);
        if !(0 <= v < max && v < s.len()) {
            None
        } else if s[v] == 0x22 {
            match quote_end(s, v + 1, max, 0x22) {
                Some(e) => attrs_from(s, e + 1, max),
                None => None,
            }
        } else if s[v] == 0x27 {
            match quote_end(s, v + 1, max, 0x27) {
                Some(e) => attrs_from(s, e + 1, max),
                None => None,
            }
        } else if unquoted_char(s[v]) {
            attrs_from(s, unquoted_skip(s, v + 1, max), max)
        } else {
            None
        }
    } else {
        attrs_from(s, i, max)
    }
}

#[via_fn]
proof fn after_name_dec(s: Seq<u8>, i: int, max: int) {
    lemma_skips_ge(s, i, max);
    let j = ws_skip(s, i, max);
    lemma_skips_ge(s, j + 1, max);
    let v = ws_skip(s, j + 1, max);
    lemma_quote_end_ge(s, v + 1, max, 0x22);
    lemma_quote_end_ge(s, v + 1, max, 0x27);
    lemma_skips_ge(s, v + 1, max);
}

/// Length of the raw HTML construct starting at `pos`, if any: an open
/// tag with attributes, a closing tag, a comment, a processing
/// instruction, a declaration, or a CDATA section.
pub open spec fn html_tag_len(s: Seq<u8>, pos: int, max: int) -> Option<int> {
    if !(0 <= pos && pos + 1 < max && pos + 1 < s.len() && s[pos] == 0x3c) {
        None
    } else {
        let b1 = s[pos + 1];
        if b1 == 0x2f {
            if pos + 2 < max && pos + 2 < s.len() && is_alpha(s[pos + 2]) {
                let e = tagname_skip(s, pos + 3, max);
                let w = ws_skip(s, e, max);
                if 0 <= w < max && w < s.len() && s[w] == 0x3e {
                    Some(w + 1 - pos)
                } else {
                    None
                }
            } else {
                None
            }
        } else if b1 == 0x21 {
            if pos + 3 < max && pos + 3 < s.len() && s[pos + 2] == 0x2d && s[pos + 3] == 0x2d {
                let i = pos + 4;
                if i < max && i < s.len() && (s[i] == 0x3e || (i + 1 < max && i + 1 < s.len()
                    && s[i] == 0x2d && s[i + 1] == 0x3e)) {
                    None
                } else {
                    match ddash_at(s, i, max) {
                        Some(j) => if j + 2 < max && j + 2 < s.len() && s[j + 2] == 0x3e {
                            Some(j + 3 - pos)
                        } else {
                            None
                        },
                        None => None,
                    }
                }
            } else if pos + 8 < max && pos + 8 < s.len() && s[pos + 2] == 0x5b && s[pos + 3]
                == 0x43 && s[pos + 4] == 0x44 && s[pos + 5] == 0x41 && s[pos + 6] == 0x54 && s[pos
                + 7] == 0x41 && s[pos + 8] == 0x5b {
                match cdata_close(s, pos + 9, max) {
                    Some(j) => Some(j + 3 - pos),
                    None => None,
                }
            } else if pos + 2 < max && pos + 2 < s.len() && is_alpha(s[pos + 2]) {
                match gt_end(s, pos + 3, max) {
                    Some(e) => Some(e + 1 - pos),
                    None => None,
                }
            } else {
                None
            }
        } else if b1 == 0x3f {
            match pi_close(s, pos + 2, max) {
                Some(j) => Some(j + 2 - pos),
                None => None,
            }
        } else if is_alpha(b1) {
            let e = tagname_skip(s, pos + 2, max);
            match attrs_from(s, e, max) {
                Some(x) => Some(x - pos),
                None => None,
            }
        } else {
            None
        }
    }
}

fn exec_is_ws(b: u8) -> (r: bool)
    ensures
        r == is_ws(b),
{
    b == 0x20 || b == 0x09 || b == 0x0a || b == 0x0b || b == 0x0c || b == 0x0d
}

fn exec_tagname_char(b: u8) -> (r: bool)
    ensures
        r == tagname_char(b),
{
    exec_is_alnum(b) || b == 0x2d
}

fn exec_attrname_start(b: u8) -> (r: bool)
    ensures
        r == attrname_start(b),
{
    exec_is_alpha(b) || b == 0x5f || b == 0x3a
}

fn exec_attrname_char(b: u8) -> (r: bool)
    ensures
        r == attrname_char(b),
{
    exec_is_alnum(b) || b == 0x5f || b == 0x2e || b == 0x3a || b == 0x2d
}

fn exec_unquoted_char(b: u8) -> (r: bool)
    ensures
        r == unquoted_char(b),
{
    b > 0x20 && b != 0x22 && b != 0x27 && b != 0x3c && b != 0x3d && b != 0x3e && b != 0x60
}

fn exec_ws_skip(s: &[u8], i: usize, max: usize) -> (r: usize)
    requires
        i <= max <= s@.len(),
    ensures
        r == ws_skip(s@, i as int, max as int),
        i <= r <= max,
{
    let mut j = i;
    while j < max && exec_is_ws(s[j])
        invariant
            i <= j <= max <= s@.len(),
            ws_skip(s@, i as int, max as int) == ws_skip(s@, j as int, max as int),
        decreases max - j,
    {
        j = j + 1;
    }
    j
}

fn exec_tagname_skip(s: &[u8], i: usize, max: usize) -> (r: usize)
    requires
        i <= max <= s@.len(),
    ensures
        r == tagname_skip(s@, i as int, max as int),
        i <= r <= max,
{
    let mut j = i;
    while j < max && exec_tagname_char(s[j])
        invariant
            i <= j <= max <= s@.len(),
            tagname_skip(s@, i as int, max as int) == tagname_skip(s@, j as int, max as int),
        decreases max - j,
    {
        j = j + 1;
    }
    j
}

fn exec_attrname_skip(s: &[u8], i: usize, max: usize) -> (r: usize)
    requires
        i <= max <= s@.len(),
    ensures
        r == attrname_skip(s@, i as int, max as int),
        i <= r <= max,
{
    let mut j = i;
    while j < max && exec_attrname_char(s[j])
        invariant
            i <= j <= max <= s@.len(),
            attrname_skip(s@, i as int, max as int) == attrname_skip(s@, j as int, max as int),
        decreases max - j,
    {
        j = j + 1;
    }
    j
}

fn exec_unquoted_skip(s: &[u8], i: usize, max: usize) -> (r: usize)
    requires
        i <= max <= s@.len(),
    ensures
        r == unquoted_skip(s@, i as int, max as int),
        i <= r <= max,
{
    let mut j = i;
    while j < max && exec_unquoted_char(s[j])
        invariant
            i <= j <= max <= s@.len(),
            unquoted_skip(s@, i as int, max as int) == unquoted_skip(s@, j as int, max as int),
        decreases max - j,
    {
        j = j + 1;
    }
    j
}

fn exec_quote_end(s: &[u8], i: usize, max: usize, q: u8) -> (r: Option<usize>)
    requires
        i <= max <= s@.len(),
    ensures
        match r {
            Some(e) => quote_end(s@, i as int, max as int, q) == Some(e as int) && i <= e < max,
            None => quote_end(s@, i as int, max as int, q) is None,
        },
{
    let mut j = i;
    while j < max
        invariant
            i <= j <= max <= s@.len(),
            quote_end(s@, i as int, max as int, q) == quote_end(s@, j as int, max as int, q),
        decreases max - j,
    {
        if s[j] == q {
            return Some(j);
        }
        j = j + 1;
    }
    None
}

fn exec_gt_end(s: &[u8], i: usize, max: usize) -> (r: Option<usize>)
    requires
        i <= max <= s@.len(),
    ensures
        match r {
            Some(e) => gt_end(s@, i as int, max as int) == Some(e as int) && i <= e < max,
            None => gt_end(s@, i as int, max as int) is None,
        },
{
    let mut j = i;
    while j < max
        invariant
            i <= j <= max <= s@.len(),
            gt_end(s@, i as int, max as int) == gt_end(s@, j as int, max as int),
        decreases max - j,
    {
        if s[j] == 0x3e {
            return Some(j);
        }
        j = j + 1;
    }
    None
}

fn exec_ddash_at(s: &[u8], i: usize, max: usize) -> (r: Option<usize>)
    requires
        i <= max <= s@.len(),
    ensures
        match r {
            Some(e) => ddash_at(s@, i as int, max as int) == Some(e as int) && i <= e && e + 1
                < max,
            None => ddash_at(s@, i as int, max as int) is None,
        },
{
    let mut j = i;
    while j < max && max - j > 1
        invariant
            i <= j,
            j <= max <= s@.len(),
            ddash_at(s@, i as int, max as int) == ddash_at(s@, j as int, max as int),
        decreases max - j,
    {
        if s[j] == 0x2d && s[j + 1] == 0x2d {
            return Some(j);
        }
        j = j + 1;
    }
    None
}

fn exec_pi_close(s: &[u8], i: usize, max: usize) -> (r: Option<usize>)
    requires
        i <= max <= s@.len(),
    ensures
        match r {
            Some(e) => pi_close(s@, i as int, max as int) == Some(e as int) && i <= e && e + 1
                < max,
            None => pi_close(s@, i as int, max as int) is None,
        },
{
    let mut j = i;
    while j < max && max - j > 1
        invariant
            i <= j,
            j <= max <= s@.len(),
            pi_close(s@, i as int, max as int) == pi_close(s@, j as int, max as int),
        decreases max - j,
    {
        if s[j] == 0x3f && s[j + 1] == 0x3e {
            return Some(j);
        }
        j = j + 1;
    }
    None
}

fn exec_cdata_close(s: &[u8], i: usize, max: usize) -> (r: Option<usize>)
    requires
        i <= max <= s@.len(),
    ensures
        match r {
            Some(e) => cdata_close(s@, i as int, max as int) == Some(e as int) && i <= e && e + 2
                < max,
            None => cdata_close(s@, i as int, max as int) is None,
        },
{
    let mut j = i;
    while j < max && max - j > 2
        invariant
            i <= j,
            j <= max <= s@.len(),
            cdata_close(s@, i as int, max as int) == cdata_close(s@, j as int, max as int),
        decreases max - j,
    {
        if s[j] == 0x5d && s[j + 1] == 0x5d && s[j + 2] == 0x3e {
            return Some(j);
        }
        j = j + 1;
    }
    None
}

/// Walks the attribute region of an open tag.
fn exec_attrs_from(s: &[u8], i: usize, max: usize) -> (r: Option<usize>)
    requires
        i <= max <= s@.len(),
    ensures
        match r {
            Some(e) => attrs_from(s@, i as int, max as int) == Some(e as int) && i < e <= max,
            None => attrs_from(s@, i as int, max as int) is None,
        },
{
    let mut j = i;
    loop
        invariant
            i <= j <= max <= s@.len(),
            attrs_from(s@, i as int, max as int) == attrs_from(s@, j as int, max as int),
        decreases max - j,
    {
        // attribute-region boundary
        if j >= max {
            return None;
        }
        let b = s[j];
        if b == 0x3e {
            return Some(j + 1);
        }
        if b == 0x2f {
            if j + 1 < max && s[j + 1] == 0x3e {
                return Some(j + 2);
            }
            return None;
        }
        if !exec_is_ws(b) {
            return None;
        }
        // inside the whitespace-led entry: skip whitespace, then either
        // the tag end or one attribute
        let mut k = j + 1;
        while k < max && exec_is_ws(s[k])
            invariant
                j + 1 <= k <= max <= s@.len(),
                attrs_entry(s@, j + 1 as int, max as int) == attrs_entry(s@, k as int, max as int),
            decreases max - k,
        {
            k = k + 1;
        }
        if k >= max {
            return None;
        }
        let c = s[k];
        if c == 0x3e {
            proof {
                assert(attrs_entry(s@, k as int, max as int) == Some(k + 1 as int));
            }
            return Some(k + 1);
        }
        if c == 0x2f {
            if k + 1 < max && s[k + 1] == 0x3e {
                return Some(k + 2);
            }
            return None;
        }
        if !exec_attrname_start(c) {
            return None;
        }
        let ne = exec_attrname_skip(s, k + 1, max);
        // optional `= value`
        let w = exec_ws_skip(s, ne, max);
        if w < max && s[w] == 0x3d {
            let v = exec_ws_skip(s, w + 1, max);
            if v >= max {
                return None;
            }
            let vb = s[v];
            if vb == 0x22 {
                match exec_quote_end(s, v + 1, max, 0x22) {
                    Some(e) => {
                        proof {
                            assert(after_name(s@, ne as int, max as int) == attrs_from(
                                s@,
                                e + 1 as int,
                                max as int,
                            ));
                        }
                        j = e + 1;
                    },
                    None => {
                        return None;
                    },
                }
            } else if vb == 0x27 {
                match exec_quote_end(s, v + 1, max, 0x27) {
                    Some(e) => {
                        proof {
                            assert(after_name(s@, ne as int, max as int) == attrs_from(
                                s@,
                                e + 1 as int,
                                max as int,
                            ));
                        }
                        j = e + 1;
                    },
                    None => {
                        return None;
                    },
                }
            } else if exec_unquoted_char(vb) {
                let ue = exec_unquoted_skip(s, v + 1, max);
                proof {
                    assert(after_name(s@, ne as int, max as int) == attrs_from(
                        s@,
                        ue as int,
                        max as int,
                    ));
                }
                j = ue;
            } else {
                return None;
            }
        } else {
            proof {
                assert(after_name(s@, ne as int, max as int) == attrs_from(
                    s@,
                    ne as int,
                    max as int,
                ));
            }
            j = ne;
        }
    }
}

/// Length of the raw HTML construct at `pos`, if any.
pub fn exec_html_tag_len(s: &[u8], pos: usize, max: usize) -> (r: Option<usize>)
    requires
        pos <= max <= s@.len(),
    ensures
        match r {
            Some(n) => html_tag_len(s@, pos as int, max as int) == Some(n as int) && 2 <= n && pos
                + n <= max,
            None => html_tag_len(s@, pos as int, max as int) is None,
        },
{
    if !(pos < max && max - pos > 1 && s[pos] == 0x3c) {
        return None;
    }
    let b1 = s[pos + 1];
    if b1 == 0x2f {
        if max - pos > 2 && exec_is_alpha(s[pos + 2]) {
            let e = exec_tagname_skip(s, pos + 3, max);
            let w = exec_ws_skip(s, e, max);
            if w < max && s[w] == 0x3e {
                Some(w + 1 - pos)
            } else {
                None
            }
        } else {
            None
        }
    } else if b1 == 0x21 {
        if max - pos > 3 && s[pos + 2] == 0x2d && s[pos + 3] == 0x2d {
            let i = pos + 4;
            if i < max && (s[i] == 0x3e || (i + 1 < max && s[i] == 0x2d && s[i + 1] == 0x3e)) {
                return None;
            }
            match exec_ddash_at(s, i, max) {
                Some(j) => if j + 2 < max && s[j + 2] == 0x3e {
                    Some(j + 3 - pos)
                } else {
                    None
                },
                None => None,
            }
        } else if max - pos > 8 && s[pos + 2] == 0x5b && s[pos + 3] == 0x43 && s[pos + 4] == 0x44
            && s[pos + 5] == 0x41 && s[pos + 6] == 0x54 && s[pos + 7] == 0x41 && s[pos + 8]
            == 0x5b {
            match exec_cdata_close(s, pos + 9, max) {
                Some(j) => Some(j + 3 - pos),
                None => None,
            }
        } else if max - pos > 2 && exec_is_alpha(s[pos + 2]) {
            match exec_gt_end(s, pos + 3, max) {
                Some(e) => Some(e + 1 - pos),
                None => None,
            }
        } else {
            None
        }
    } else if b1 == 0x3f {
        match exec_pi_close(s, pos + 2, max) {
            Some(j) => Some(j + 2 - pos),
            None => None,
        }
    } else if exec_is_alpha(b1) {
        let e = exec_tagname_skip(s, pos + 2, max);
        match exec_attrs_from(s, e, max) {
            Some(x) => Some(x - pos),
            None => None,
        }
    } else {
        None
    }
}

/// Does this raw tag open an anchor (`<a` followed by whitespace or `>`)?
pub open spec fn is_link_open(c: Seq<u8>) -> bool {
    c.len() >= 3 && c[0] == 0x3c && (c[1] == 0x61 || c[1] == 0x41) && (c[2] == 0x3e || is_ws(c[2]))
}

/// Does this raw tag close an anchor (`</a` followed by whitespace or `>`)?
pub open spec fn is_link_close(c: Seq<u8>) -> bool {
    c.len() >= 4 && c[0] == 0x3c && c[1] == 0x2f && (c[2] == 0x61 || c[2] == 0x41) && (c[3] == 0x3e
        || is_ws(c[3]))
}

fn exec_is_link_open(c: &[u8]) -> (r: bool)
    ensures
        r == is_link_open(c@),
{
    c.len() >= 3 && c[0] == 0x3c && (c[1] == 0x61 || c[1] == 0x41) && (c[2] == 0x3e || exec_is_ws(
        c[2],
    ))
}

fn exec_is_link_close(c: &[u8]) -> (r: bool)
    ensures
        r == is_link_close(c@),
{
    c.len() >= 4 && c[0] == 0x3c && c[1] == 0x2f && (c[2] == 0x61 || c[2] == 0x41) && (c[3] == 0x3e
        || exec_is_ws(c[3]))
}

/// What a committed raw-HTML token did: exactly one `HtmlInline` leaf
/// was appended holding the tag's bytes verbatim, and the anchor-nesting
/// counter moved by one on an anchor open or close (saturating at the
/// integer bounds).
pub open spec fn html_commit(s0: InlineState, s1: InlineState, n: int) -> bool {
    match html_tag_len(s0.src@, s0.pos as int, s0.pos_max as int) {
        Some(len) => {
            let cs = s1.node.children@;
            let content = s0.src@.subrange(s0.pos as int, s0.pos + n);
            &&& len == n
            &&& cs == s0.node.children@.push(cs.last())
            &&& cs.last().payload matches NodeValue::HtmlInline(h) && h.content@ == content
            &&& cs.last().srcmap == Some(Srcmap { start: s0.pos, end: (s0.pos + n) as usize })
            &&& cs.last().children@.len() == 0
            &&& s1.link_level as int == (if is_link_open(content) {
                if s0.link_level < i64::MAX {
                    s0.link_level + 1
                } else {
                    s0.link_level as int
                }
            } else if is_link_close(content) {
                if s0.link_level > i64::MIN {
                    s0.link_level - 1
                } else {
                    s0.link_level as int
                }
            } else {
                s0.link_level as int
            })
        },
        None => false,
    }
}

pub struct HtmlInlineScanner;

impl HtmlInlineScanner {
    /// Fast lookahead: the tag's length when one starts at the cursor.
    pub fn check(state: &InlineState) -> (r: Option<usize>)
        requires
            state.wf(),
            state.pos < state.pos_max,
        ensures
            match r {
                Some(n) => html_tag_len(state.src@, state.pos as int, state.pos_max as int)
                    == Some(n as int) && 2 <= n && state.pos + n <= state.pos_max,
                None => html_tag_len(state.src@, state.pos as int, state.pos_max as int) is None,
            },
    {
        exec_html_tag_len(state.src.as_slice(), state.pos, state.pos_max)
    }

    /// Attempts the raw-HTML rule at the cursor; tracks anchor nesting in
    /// `link_level`.
    pub fn run(state: &mut InlineState) -> (r: Option<usize>)
        requires
            old(state).wf(),
            old(state).pos < old(state).pos_max,
        ensures
            final(state).wf(),
            final(state).src == old(state).src,
            final(state).pos_max == old(state).pos_max,
            final(state).tile_from == old(state).tile_from,
            final(state).depth == old(state).depth,
            final(state).inline_env.seen_links == old(state).inline_env.seen_links,
            final(state).inline_env.cache@ == old(state).inline_env.cache@,
            final(state).node.payload == old(state).node.payload,
            final(state).node.srcmap == old(state).node.srcmap,
            links_free(old(state).node.children@) ==> links_free(final(state).node.children@),
            (r is Some) <==> html_tag_len(
                old(state).src@,
                old(state).pos as int,
                old(state).pos_max as int,
            ) is Some,
            match r {
                Some(n) => 1 <= n && final(state).pos == old(state).pos + n
                    && final(state).trailing_len == 0 && html_commit(
                    *old(state),
                    *final(state),
                    n as int,
                ),
                None => *final(state) == *old(state),
            },
    {
        let len = match Self::check(state) {
            Some(n) => n,
            None => {
                return None;
            },
        };
        let content = vstd::slice::slice_to_vec(
            vstd::slice::slice_subrange(state.src.as_slice(), state.pos, state.pos + len),
        );
        if exec_is_link_open(content.as_slice()) {
            if state.link_level < i64::MAX {
                state.link_level = state.link_level + 1;
            }
        } else if exec_is_link_close(content.as_slice()) {
            if state.link_level > i64::MIN {
                state.link_level = state.link_level - 1;
            }
        }
        let start = state.pos;
        let n = Node {
            payload: NodeValue::HtmlInline(HtmlInline { content }),
            children: Vec::new(),
            srcmap: Some(Srcmap { start, end: start + len }),
        };
        proof {
            assert(crate::node::leaf_ok(n, state.src@));
            assert(crate::node::node_wf(n, state.src@));
        }
        state.push_node_at(n, start + len);
        Some(len)
    }
}

} // verus!
