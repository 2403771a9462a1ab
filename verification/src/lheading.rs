//! Setext headings: a paragraph underlined with `===` (level 1) or `---`
//! (level 2).

use vstd::prelude::*;
use crate::heading::atx_spec;
use crate::ruler::{BlockRule, MarkdownIt};

pub use crate::node::SetextHeader;

verus! {

/// Registers the setext-heading block rule.
pub fn add(md: &mut MarkdownIt)
    ensures
        final(md).wf() == old(md).wf(),
        final(md).block.rules@ == old(md).block.rules@.push(BlockRule::LHeading),
{
    md.block.add_rule(BlockRule::LHeading);
}

/// Length of the run of `marker` bytes from `i`.
pub open spec fn marker_run(s: Seq<u8>, i: int, marker: u8) -> int
    decreases s.len() - i,
{
    if 0 <= i < s.len() && s[i] == marker {
        1 + marker_run(s, i + 1, marker)
    } else {
        0
    }
}

/// Trailing spaces and tabs only from `i` on.
pub open spec fn only_ws_from(s: Seq<u8>, i: int) -> bool {
    forall|k: int| i <= k < s.len() ==> s[k] == 0x20 || s[k] == 0x09
}

/// The underline check: a run of `=` or `-` followed only by spaces and
/// tabs gives level 1 (`=`) or 2 (`-`).
pub open spec fn underline_spec(s: Seq<u8>) -> Option<int> {
    if s.len() > 0 && (s[0] == 0x3d || s[0] == 0x2d) {
        let r = marker_run(s, 0, s[0]);
        if only_ws_from(s, r) {
            Some(
                if s[0] == 0x3d {
                    1
                } else {
                    2
                },
            )
        } else {
            None
        }
    } else {
        None
    }
}

/// Checks whether one line is a setext underline.
pub fn underline_level(line: &[u8]) -> (r: Option<u8>)
    ensures
        match r {
            Some(level) => underline_spec(line@) == Some(level as int) && 1 <= level <= 2,
            None => underline_spec(line@) is None,
        },
{
    if line.len() == 0 {
        return None;
    }
    let marker = line[0];
    if marker != 0x3d && marker != 0x2d {
        return None;
    }
    let mut i: usize = 1;
    while i < line.len() && line[i] == marker
        invariant
            1 <= i <= line@.len(),
            line@.len() > 0,
            line@[0] == marker,
            forall|k: int| 0 <= k < i ==> line@[k] == marker,
        decreases line@.len() - i,
    {
        i = i + 1;
    }
    proof {
        lemma_marker_run_split(line@, 0, i as int, marker);
        assert(marker_run(line@, i as int, marker) == 0);
        assert(marker_run(line@, 0, marker) == i);
    }
    let mut k: usize = i;
    while k < line.len()
        invariant
            i <= k <= line@.len(),
            line@.len() > 0,
            1 <= i,
            line@[0] == marker,
            marker == 0x3d || marker == 0x2d,
            marker_run(line@, 0, marker) == i,
            forall|t: int| i <= t < k ==> line@[t] == 0x20 || line@[t] == 0x09,
        decreases line@.len() - k,
    {
        if !(line[k] == 0x20 || line[k] == 0x09) {
            return None;
        }
        k = k + 1;
    }
    if marker == 0x3d {
        Some(1)
    } else {
        Some(2)
    }
}

/// Number of leading blank columns: a space is one column, a tab four.
pub open spec fn indent_spec(s: Seq<u8>, i: int) -> int
    decreases s.len() - i,
{
    if 0 <= i < s.len() && s[i] == 0x20 {
        1 + indent_spec(s, i + 1)
    } else if 0 <= i < s.len() && s[i] == 0x09 {
        4 + indent_spec(s, i + 1)
    } else {
        0
    }
}

/// The setext search from the line after `start`: stop at the end of the
/// document or a blank line; skip indented lines as lazy continuation;
/// accept an underline; and let a line that opens an ATX heading end the
/// paragraph.
pub open spec fn lheading_find(lines: Seq<Vec<u8>>, next: int) -> Option<(int, int)>
    decreases lines.len() - next,
{
    if next < 0 || next >= lines.len() || lines[next]@.len() == 0 {
        None
    } else if indent_spec(lines[next]@, 0) >= 4 {
        lheading_find(lines, next + 1)
    } else {
        match underline_spec(lines[next]@) {
            Some(level) => Some((level, next)),
            None => if atx_spec(lines[next]@) is Some {
                None
            } else {
                lheading_find(lines, next + 1)
            },
        }
    }
}

/// A matched setext heading: its level, marker byte, and the index of the
/// underline.
pub struct SetextMatch {
    pub level: u8,
    pub marker: u8,
    pub underline: usize,
}

/// Scans for the underline of a setext heading whose text begins at line
/// `start`.
pub fn rule(lines: &Vec<Vec<u8>>, start: usize) -> (r: Option<SetextMatch>)
    requires
        start < lines@.len(),
    ensures
        match r {
            Some(m) => {
                &&& lheading_find(lines@, start + 1) == Some((m.level as int, m.underline as int))
                &&& 1 <= m.level <= 2
                &&& (m.level == 1 ==> m.marker == 0x3d)
                &&& (m.level == 2 ==> m.marker == 0x2d)
                &&& start < m.underline < lines@.len()
            },
            None => lheading_find(lines@, start + 1) is None,
        },
{
    let n = lines.len();
    let mut next: usize = start + 1;
    loop
        invariant
            start + 1 <= next,
            next <= lines@.len() + 1,
            lheading_find(lines@, start + 1) == lheading_find(lines@, next as int),
        decreases lines@.len() + 1 - next,
    {
        if next >= lines.len() || lines[next].len() == 0 {
            return None;
        }
        let line = lines[next].as_slice();
        let mut ind: usize = 0;
        let mut p: usize = 0;
        while p < line.len() && (line[p] == 0x20 || line[p] == 0x09) && ind < 4
            invariant
                p <= line@.len(),
                ind == indent_spec(line@, 0) - indent_spec(line@, p as int),
                ind <= 7,
            decreases line@.len() - p,
        {
            if line[p] == 0x20 {
                ind = ind + 1;
            } else {
                ind = ind + 4;
            }
            p = p + 1;
        }
        proof {
            lemma_indent_nonneg(line@, p + 1);
            if p < line@.len() && (line@[p as int] == 0x20 || line@[p as int] == 0x09) {
                assert(indent_spec(line@, p as int) >= 1);
                assert(indent_spec(line@, 0) >= 4);
            } else {
                assert(indent_spec(line@, p as int) == 0);
                assert(indent_spec(line@, 0) == ind);
            }
        }
        if p < line.len() && (line[p] == 0x20 || line[p] == 0x09) {
            // indented: lazy continuation
            next = next + 1;
            continue ;
        }
        if ind >= 4 {
            next = next + 1;
            continue ;
        }
        match underline_level(line) {
            Some(level) => {
                let marker: u8 = if level == 1 {
                    0x3d
                } else {
                    0x2d
                };
                return Some(SetextMatch { level, marker, underline: next });
            },
            None => {},
        }
        match crate::heading::rule(line) {
            Some(_) => {
                return None;
            },
            None => {},
        }
        next = next + 1;
    }
}

proof fn lemma_marker_run_split(s: Seq<u8>, a: int, j: int, marker: u8)
    requires
        0 <= a <= j <= s.len(),
        forall|k: int| a <= k < j ==> s[k] == marker,
    ensures
        marker_run(s, a, marker) == (j - a) + marker_run(s, j, marker),
    decreases j - a,
{
    if a < j {
        lemma_marker_run_split(s, a + 1, j, marker);
    }
}

proof fn lemma_indent_nonneg(s: Seq<u8>, a: int)
    ensures
        indent_spec(s, a) >= 0,
    decreases s.len() - a,
{
    if 0 <= a < s.len() {
        lemma_indent_nonneg(s, a + 1);
    }
}

} // verus!
