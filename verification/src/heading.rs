//! ATX headings: `#` to `######`, with optional closing hashes.

use vstd::prelude::*;
use crate::ruler::{BlockRule, MarkdownIt};

pub use crate::node::ATXHeading;

verus! {

/// Registers the heading block rule.
pub fn add(md: &mut MarkdownIt)
    ensures
        final(md).wf() == old(md).wf(),
        final(md).block.rules@ == old(md).block.rules@.push(BlockRule::Heading),
{
    md.block.add_rule(BlockRule::Heading);
}

/// Length of the run of `#` bytes at the start of the line.
pub open spec fn hash_run(s: Seq<u8>, i: int) -> int
    decreases s.len() - i,
{
    if 0 <= i < s.len() && s[i] == 0x23 {
        1 + hash_run(s, i + 1)
    } else {
        0
    }
}

/// Largest `j' <= j` such that `s[j'..j)` is all spaces and tabs, not
/// descending below `lo`.
pub open spec fn back_ws(s: Seq<u8>, j: int, lo: int) -> int
    decreases j,
{
    if j > lo && 0 < j <= s.len() && (s[j - 1] == 0x20 || s[j - 1] == 0x09) {
        back_ws(s, j - 1, lo)
    } else {
        j
    }
}

/// Largest `j' <= j` such that `s[j'..j)` is all `#`, not descending
/// below `lo`.
pub open spec fn back_hash(s: Seq<u8>, j: int, lo: int) -> int
    decreases j,
{
    if j > lo && 0 < j <= s.len() && s[j - 1] == 0x23 {
        back_hash(s, j - 1, lo)
    } else {
        j
    }
}

/// The heading match on one line: the level (1 to 6) and the byte range
/// of the inline content, after the optional trailing `  ###  ` tail has
/// been cut.  `None` when the line is not an ATX heading.
pub open spec fn atx_spec(s: Seq<u8>) -> Option<(int, int, int)> {
    if !(s.len() > 0 && s[0] == 0x23) {
        None
    } else {
        let h = hash_run(s, 0);
        if h > 6 {
            None
        } else if h == s.len() {
            Some((h, h, h))
        } else if s[h] == 0x20 || s[h] == 0x09 {
            let bw = back_ws(s, s.len() as int, h + 1);
            let bh = back_hash(s, bw, h + 1);
            if bh == h + 1 {
                Some((h, h, h))
            } else if s[bh - 1] == 0x20 || s[bh - 1] == 0x09 {
                Some((h, h, bh))
            } else {
                Some((h, h, s.len() as int))
            }
        } else {
            None
        }
    }
}

/// A matched ATX heading: its level and the content's byte range.
pub struct AtxMatch {
    pub level: u8,
    pub text_start: usize,
    pub text_end: usize,
}

/// Scans one line for an ATX heading.
pub fn rule(line: &[u8]) -> (r: Option<AtxMatch>)
    ensures
        match r {
            Some(m) => atx_spec(line@) == Some(
                (m.level as int, m.text_start as int, m.text_end as int),
            ) && 1 <= m.level <= 6 && m.text_start <= m.text_end <= line@.len(),
            None => atx_spec(line@) is None,
        },
{
    if line.len() == 0 || line[0] != 0x23 {
        return None;
    }
    let mut h: usize = 0;
    while h < line.len() && line[h] == 0x23 && h <= 6
        invariant
            h <= line@.len(),
            h <= 7,
            line@.len() > 0,
            line@[0] == 0x23,
            forall|k: int| 0 <= k < h ==> line@[k] == 0x23,
        decreases line@.len() - h,
    {
        h = h + 1;
    }
    proof {
        lemma_hash_run_split(line@, 0, h as int);
    }
    if h < line.len() && line[h] == 0x23 {
        proof {
            lemma_hash_run_nonneg(line@, h + 1);
            assert(hash_run(line@, 0) >= 7);
        }
        return None;
    }
    proof {
        assert(hash_run(line@, h as int) == 0);
        assert(hash_run(line@, 0) == h);
    }
    if h > 6 {
        return None;
    }
    if h == line.len() {
        return Some(AtxMatch { level: h as u8, text_start: h, text_end: h });
    }
    if !(line[h] == 0x20 || line[h] == 0x09) {
        return None;
    }
    let mut j: usize = line.len();
    while j > h + 1 && (line[j - 1] == 0x20 || line[j - 1] == 0x09)
        invariant
            h + 1 <= j <= line@.len(),
            line@.len() > 0,
            line@[0] == 0x23,
            1 <= h <= 6,
            hash_run(line@, 0) == h,
            h < line@.len(),
            line@[h as int] == 0x20 || line@[h as int] == 0x09,
            back_ws(line@, line@.len() as int, h + 1) == back_ws(line@, j as int, h + 1),
        decreases j,
    {
        j = j - 1;
    }
    proof {
        assert(back_ws(line@, j as int, h + 1) == j as int);
    }
    let ghost bw = j as int;
    let mut k: usize = j;
    while k > h + 1 && line[k - 1] == 0x23
        invariant
            h + 1 <= k <= j <= line@.len(),
            line@.len() > 0,
            line@[0] == 0x23,
            1 <= h <= 6,
            hash_run(line@, 0) == h,
            h < line@.len(),
            line@[h as int] == 0x20 || line@[h as int] == 0x09,
            back_ws(line@, line@.len() as int, h + 1) == bw,
            bw == j,
            back_hash(line@, bw, h + 1) == back_hash(line@, k as int, h + 1),
        decreases k,
    {
        k = k - 1;
    }
    proof {
        assert(back_hash(line@, k as int, h + 1) == k as int);
    }
    if k == h + 1 {
        Some(AtxMatch { level: h as u8, text_start: h, text_end: h })
    } else if line[k - 1] == 0x20 || line[k - 1] == 0x09 {
        Some(AtxMatch { level: h as u8, text_start: h, text_end: k })
    } else {
        Some(AtxMatch { level: h as u8, text_start: h, text_end: line.len() })
    }
}

proof fn lemma_hash_run_split(s: Seq<u8>, a: int, j: int)
    requires
        0 <= a <= j <= s.len(),
        forall|k: int| a <= k < j ==> s[k] == 0x23,
    ensures
        hash_run(s, a) == (j - a) + hash_run(s, j),
    decreases j - a,
{
    if a < j {
        lemma_hash_run_split(s, a + 1, j);
    }
}

proof fn lemma_hash_run_nonneg(s: Seq<u8>, a: int)
    ensures
        hash_run(s, a) >= 0,
    decreases s.len() - a,
{
    if 0 <= a < s.len() {
        lemma_hash_run_nonneg(s, a + 1);
    }
}

} // verus!
