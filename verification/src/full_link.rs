//! Link-shaped structures `[text](<href> "title")` with a configurable
//! prefix: links, images (`![...]`), and user-defined variants.
//!
//! This module holds the pure destination and title sub-parsers together
//! with the registration helpers; the scanning machinery lives in the
//! inline engine.

use vstd::prelude::*;
use crate::engine::{cache_preserved_below, frame, link_commit, link_run, owed_inline_commit,
    owed_reference_commit, owed_shortcut_commit};
use crate::ruler::{same_rule_tag, LinkFactory, MarkdownIt, RuleKind};
use crate::state::{InlineState, RootEnv};
use crate::util::{unescape, unescape_all};

verus! {

/// Registers a link-shaped rule with no prefix character; `factory`
/// selects the node variant a successful parse commits.  A passive `]`
/// rule is registered alongside so a stray closer never matches.
pub fn add(md: &mut MarkdownIt, enable_nested: bool, factory: LinkFactory)
    requires
        old(md).wf(),
    ensures
        final(md).wf(),
        old(md).inline.nonest_wf() && (factory is Link ==> !enable_nested)
            ==> final(md).inline.nonest_wf(),
        final(md).inline.has_tag(RuleKind::Link { enable_nested, factory }),
        final(md).inline.has_tag(RuleKind::LinkEnd),
        old(md).inline.rules@.len() <= final(md).inline.rules@.len(),
        forall|i: int|
            0 <= i < old(md).inline.rules@.len() ==> final(md).inline.rules@[i] == old(
                md,
            ).inline.rules@[i],
        final(md).block == old(md).block,
        final(md).ruler == old(md).ruler,
        final(md).max_nesting == old(md).max_nesting,
{
    md.inline.add_rule(0x5b, RuleKind::Link { enable_nested, factory });
    let ghost mid = md.inline.rules@;
    let has_end = md.inline.has_rule(&RuleKind::LinkEnd);
    if !has_end {
        md.inline.add_rule(0x5d, RuleKind::LinkEnd);
    }
    proof {
        let k = RuleKind::Link { enable_nested, factory };
        let i = choose|i: int| 0 <= i < mid.len() && same_rule_tag((#[trigger] mid[i]).kind, k);
        assert(same_rule_tag(md.inline.rules@[i].kind, k));
    }
}

/// Registers a link-shaped rule whose marker is `prefix` followed by `[`
/// (images use `!`).  When `enable_nested` is false a committed node sets
/// the seen-links marker, forbidding nesting in enclosing scans.
pub fn add_prefix(md: &mut MarkdownIt, prefix: u8, enable_nested: bool, factory: LinkFactory)
    requires
        old(md).wf(),
    ensures
        final(md).wf(),
        old(md).inline.nonest_wf() && (factory is Link ==> !enable_nested)
            ==> final(md).inline.nonest_wf(),
        final(md).inline.has_tag(RuleKind::LinkPrefix { prefix, enable_nested, factory }),
        final(md).inline.has_tag(RuleKind::LinkEnd),
        old(md).inline.rules@.len() <= final(md).inline.rules@.len(),
        forall|i: int|
            0 <= i < old(md).inline.rules@.len() ==> final(md).inline.rules@[i] == old(
                md,
            ).inline.rules@[i],
        final(md).block == old(md).block,
        final(md).ruler == old(md).ruler,
        final(md).max_nesting == old(md).max_nesting,
{
    md.inline.add_rule(prefix, RuleKind::LinkPrefix { prefix, enable_nested, factory });
    let ghost mid = md.inline.rules@;
    let has_end = md.inline.has_rule(&RuleKind::LinkEnd);
    if !has_end {
        md.inline.add_rule(0x5d, RuleKind::LinkEnd);
    }
    proof {
        let k = RuleKind::LinkPrefix { prefix, enable_nested, factory };
        let i = choose|i: int| 0 <= i < mid.len() && same_rule_tag((#[trigger] mid[i]).kind, k);
        assert(same_rule_tag(md.inline.rules@[i].kind, k));
    }
}

/// The `[`-marker scanner for unprefixed link-shaped rules.
pub struct LinkScanner;

impl LinkScanner {
    /// Attempts the rule at the cursor, which must hold `[`.
    pub fn run(
        md: &MarkdownIt,
        renv: &RootEnv,
        state: &mut InlineState,
        enable_nested: bool,
        factory: LinkFactory,
    ) -> (r: Option<usize>)
        requires
            md.wf(),
            old(state).wf(),
            old(state).depth <= md.max_nesting,
            old(state).pos < old(state).pos_max,
            old(state).src@[old(state).pos as int] == 0x5b,
        ensures
            final(state).wf(),
            frame(*old(state), *final(state)),
            final(state).depth <= md.max_nesting,
            old(state).inline_env.seen_links ==> final(state).inline_env.seen_links,
            cache_preserved_below(
                old(state).inline_env.cache@,
                final(state).inline_env.cache@,
                old(state).pos as int,
            ),
            forall|e: int|
                #[trigger] owed_inline_commit(*md, *old(state), old(state).pos as int, e)
                    ==> r is Some,
            forall|e: int|
                #[trigger] owed_shortcut_commit(*md, *renv, *old(state), old(state).pos as int, e)
                    ==> r is Some,
            forall|e: int, e2: int|
                #[trigger] owed_reference_commit(
                    *md,
                    *renv,
                    *old(state),
                    old(state).pos as int,
                    e,
                    e2,
                ) ==> r is Some,
            match r {
                Some(n) => {
                    &&& 1 <= n
                    &&& final(state).pos == old(state).pos + n
                    &&& final(state).trailing_len == 0
                    &&& (!enable_nested ==> final(state).inline_env.seen_links)
                    &&& link_commit(
                        *old(state),
                        *final(state),
                        n as int,
                        0int,
                        factory,
                        *renv,
                    )
                },
                None => {
                    &&& final(state).pos == old(state).pos
                    &&& final(state).node == old(state).node
                    &&& final(state).trailing_len == old(state).trailing_len
                },
            },
    {
        let r = link_run(md, renv, state, 0, enable_nested, factory);
        proof {
            assert forall|e: int|
                #[trigger] owed_inline_commit(*md, *old(state), old(state).pos as int, e)
                    implies r is Some by {
                assert(owed_inline_commit(*md, *old(state), old(state).pos + 0, e));
            }
            assert forall|e: int|
                #[trigger] owed_shortcut_commit(
                    *md,
                    *renv,
                    *old(state),
                    old(state).pos as int,
                    e,
                ) implies r is Some by {
                assert(owed_shortcut_commit(*md, *renv, *old(state), old(state).pos + 0, e));
            }
            assert forall|e: int, e2: int|
                #[trigger] owed_reference_commit(
                    *md,
                    *renv,
                    *old(state),
                    old(state).pos as int,
                    e,
                    e2,
                ) implies r is Some by {
                assert(owed_reference_commit(
                    *md,
                    *renv,
                    *old(state),
                    old(state).pos + 0,
                    e,
                    e2,
                ));
            }
        }
        r
    }
}

/// The prefixed scanner (for example `![` for images).
pub struct LinkPrefixScanner;

impl LinkPrefixScanner {
    /// Attempts the rule at the cursor, which must hold the prefix; the
    /// next byte must open a label.
    pub fn run(
        md: &MarkdownIt,
        renv: &RootEnv,
        state: &mut InlineState,
        prefix: u8,
        enable_nested: bool,
        factory: LinkFactory,
    ) -> (r: Option<usize>)
        requires
            md.wf(),
            old(state).wf(),
            old(state).depth <= md.max_nesting,
            old(state).pos < old(state).pos_max,
            old(state).src@[old(state).pos as int] == prefix,
        ensures
            final(state).wf(),
            frame(*old(state), *final(state)),
            final(state).depth <= md.max_nesting,
            old(state).inline_env.seen_links ==> final(state).inline_env.seen_links,
            cache_preserved_below(
                old(state).inline_env.cache@,
                final(state).inline_env.cache@,
                old(state).pos as int,
            ),
            forall|e: int|
                old(state).pos + 1 < old(state).pos_max && old(state).src@[old(state).pos + 1]
                    == 0x5b && #[trigger] owed_inline_commit(
                    *md,
                    *old(state),
                    old(state).pos + 1,
                    e,
                ) ==> r is Some,
            forall|e: int|
                old(state).pos + 1 < old(state).pos_max && old(state).src@[old(state).pos + 1]
                    == 0x5b && #[trigger] owed_shortcut_commit(
                    *md,
                    *renv,
                    *old(state),
                    old(state).pos + 1,
                    e,
                ) ==> r is Some,
            forall|e: int, e2: int|
                old(state).pos + 1 < old(state).pos_max && old(state).src@[old(state).pos + 1]
                    == 0x5b && #[trigger] owed_reference_commit(
                    *md,
                    *renv,
                    *old(state),
                    old(state).pos + 1,
                    e,
                    e2,
                ) ==> r is Some,
            match r {
                Some(n) => {
                    &&& 1 <= n
                    &&& final(state).pos == old(state).pos + n
                    &&& final(state).trailing_len == 0
                    &&& (!enable_nested ==> final(state).inline_env.seen_links)
                    &&& link_commit(
                        *old(state),
                        *final(state),
                        n as int,
                        1int,
                        factory,
                        *renv,
                    )
                },
                None => {
                    &&& final(state).pos == old(state).pos
                    &&& final(state).node == old(state).node
                    &&& final(state).trailing_len == old(state).trailing_len
                },
            },
    {
        if state.pos < state.pos_max && state.pos_max - state.pos > 1 && state.src[state.pos + 1]
            == 0x5b {
            link_run(md, renv, state, 1, enable_nested, factory)
        } else {
            None
        }
    }
}

/// The passive `]` rule: a stray closing bracket never becomes a token.
pub struct LinkScannerEnd;

impl LinkScannerEnd {
    /// Always declines the match.
    pub fn run(state: &mut InlineState) -> (r: Option<usize>)
        ensures
            r is None,
            *final(state) == *old(state),
    {
        None
    }
}

/// Result of parsing a destination or title fragment.
pub struct ParseLinkFragmentResult {
    /// end position
    pub pos: usize,
    /// number of linebreaks inside
    pub lines: usize,
    /// parsed result
    pub str: Vec<u8>,
}

/// Position of the unescaped `>` closing a `<...>` destination, scanning
/// from `i`; `None` on an unescaped `<`, a newline, or end of input.
pub open spec fn angle_end(s: Seq<u8>, i: int, max: int) -> Option<int>
    decreases max - i,
{
    if !(0 <= i < max && i < s.len()) {
        None
    } else if s[i] == 0x0a || s[i] == 0x3c {
        None
    } else if s[i] == 0x3e {
        Some(i)
    } else if s[i] == 0x5c {
        if i + 1 < max && i + 1 < s.len() {
            angle_end(s, i + 2, max)
        } else {
            None
        }
    } else {
        angle_end(s, i + 1, max)
    }
}

/// End of a bare destination scanned from `i` with `level` open
/// parentheses: stops at spaces, ASCII controls, an unmatched `)` or the
/// end; fails when parentheses stay open or nest beyond 32 levels.
pub open spec fn bare_end(s: Seq<u8>, i: int, max: int, level: int) -> Option<int>
    decreases max - i,
{
    if !(0 <= i < max && i < s.len()) {
        if level == 0 {
            Some(i)
        } else {
            None
        }
    } else if s[i] <= 0x20 || s[i] == 0x7f {
        if level == 0 {
            Some(i)
        } else {
            None
        }
    } else if s[i] == 0x5c {
        if i + 1 < max && i + 1 < s.len() && s[i + 1] != 0x20 {
            bare_end(s, i + 2, max, level)
        } else if level == 0 {
            Some(i)
        } else {
            None
        }
    } else if s[i] == 0x28 {
        if level + 1 > 32 {
            None
        } else {
            bare_end(s, i + 1, max, level + 1)
        }
    } else if s[i] == 0x29 {
        if level == 0 {
            Some(i)
        } else {
            bare_end(s, i + 1, max, level - 1)
        }
    } else {
        bare_end(s, i + 1, max, level)
    }
}

/// What `parse_link_destination` returns: the end position and the
/// unescaped destination bytes.
pub open spec fn dest_result(s: Seq<u8>, start: int, max: int) -> Option<(int, Seq<u8>)> {
    if 0 <= start < max && start < s.len() && s[start] == 0x3c {
        match angle_end(s, start + 1, max) {
            Some(e) => Some((e + 1, unescape(s.subrange(start + 1, e)))),
            None => None,
        }
    } else {
        match bare_end(s, start, max, 0) {
            Some(e) => Some((e, unescape(s.subrange(start, e)))),
            None => None,
        }
    }
}

/// Parses the `<href>` (or bare href) part of a link.
pub fn parse_link_destination(src: &[u8], start: usize, max: usize) -> (r: Option<
    ParseLinkFragmentResult,
>)
    requires
        start <= max <= src@.len(),
    ensures
        match r {
            Some(res) => {
                &&& dest_result(src@, start as int, max as int) == Some(
                    (res.pos as int, res.str@),
                )
                &&& start <= res.pos <= max
                &&& res.lines == 0
            },
            None => dest_result(src@, start as int, max as int) is None,
        },
{
    if start < max && src[start] == 0x3c {
        let mut pos: usize = start + 1;
        while pos < max
            invariant
                start + 1 <= pos <= max <= src@.len(),
                src@[start as int] == 0x3c,
                angle_end(src@, start + 1 as int, max as int) == angle_end(
                    src@,
                    pos as int,
                    max as int,
                ),
            decreases max - pos,
        {
            let b = src[pos];
            if b == 0x0a || b == 0x3c {
                return None;
            } else if b == 0x3e {
                let inner = vstd::slice::slice_subrange(src, start + 1, pos);
                let str = unescape_all(inner);
                return Some(ParseLinkFragmentResult { pos: pos + 1, lines: 0, str });
            } else if b == 0x5c {
                if pos + 1 < max {
                    pos = pos + 2;
                } else {
                    return None;
                }
            } else {
                pos = pos + 1;
            }
        }
        return None;
    }
    let mut pos: usize = start;
    let mut level: u32 = 0;
    let mut done = false;
    while !done && pos < max
        invariant
            start <= pos <= max <= src@.len(),
            !(start < max && src@[start as int] == 0x3c),
            level <= 32,
            bare_end(src@, start as int, max as int, 0) == bare_end(
                src@,
                pos as int,
                max as int,
                level as int,
            ),
            done ==> bare_end(src@, pos as int, max as int, level as int) == (if level == 0 {
                Some(pos as int)
            } else {
                Option::<int>::None
            }),
        decreases max - pos, (if done { 0int } else { 1int }),
    {
        let b = src[pos];
        if b <= 0x20 || b == 0x7f {
            done = true;
        } else if b == 0x5c {
            if pos + 1 < max && src[pos + 1] != 0x20 {
                pos = pos + 2;
            } else {
                done = true;
            }
        } else if b == 0x28 {
            if level + 1 > 32 {
                return None;
            }
            level = level + 1;
            pos = pos + 1;
        } else if b == 0x29 {
            if level == 0 {
                done = true;
            } else {
                level = level - 1;
                pos = pos + 1;
            }
        } else {
            pos = pos + 1;
        }
    }
    if level != 0 {
        return None;
    }
    let inner = vstd::slice::slice_subrange(src, start, pos);
    let str = unescape_all(inner);
    Some(ParseLinkFragmentResult { pos, lines: 0, str })
}

/// Position of the unescaped closer and the number of newlines crossed,
/// scanning a title from `i`.  An unescaped `(` fails a `(...)` title.
pub open spec fn title_end(s: Seq<u8>, i: int, max: int, closer: u8) -> Option<(int, int)>
    decreases max - i,
{
    if !(0 <= i < max && i < s.len()) {
        None
    } else if s[i] == closer {
        Some((i, 0))
    } else if s[i] == 0x28 && closer == 0x29 {
        None
    } else if s[i] == 0x0a {
        match title_end(s, i + 1, max, closer) {
            Some(p) => Some((p.0, p.1 + 1)),
            None => None,
        }
    } else if s[i] == 0x5c {
        if i + 1 < max && i + 1 < s.len() {
            title_end(s, i + 2, max, closer)
        } else {
            None
        }
    } else {
        title_end(s, i + 1, max, closer)
    }
}

/// What `parse_link_title` returns: end position, newline count, and the
/// unescaped title bytes.
pub open spec fn title_result(s: Seq<u8>, start: int, max: int) -> Option<(int, int, Seq<u8>)> {
    if !(0 <= start < max && start < s.len()) {
        None
    } else {
        let closer: u8 = if s[start] == 0x22 {
            0x22
        } else if s[start] == 0x27 {
            0x27
        } else if s[start] == 0x28 {
            0x29
        } else {
            0
        };
        if closer == 0 {
            None
        } else {
            match title_end(s, start + 1, max, closer) {
                Some(p) => Some((p.0 + 1, p.1, unescape(s.subrange(start + 1, p.0)))),
                None => None,
            }
        }
    }
}

/// Parses the `"title"` part of a link (also `'title'` or `(title)`).
pub fn parse_link_title(src: &[u8], start: usize, max: usize) -> (r: Option<
    ParseLinkFragmentResult,
>)
    requires
        start <= max <= src@.len(),
    ensures
        match r {
            Some(res) => {
                &&& title_result(src@, start as int, max as int) == Some(
                    (res.pos as int, res.lines as int, res.str@),
                )
                &&& start < res.pos <= max
            },
            None => title_result(src@, start as int, max as int) is None,
        },
{
    if start >= max {
        return None;
    }
    let b0 = src[start];
    let closer: u8 = if b0 == 0x22 {
        0x22
    } else if b0 == 0x27 {
        0x27
    } else if b0 == 0x28 {
        0x29
    } else {
        return None;
    };
    let mut pos: usize = start + 1;
    let mut lines: usize = 0;
    while pos < max
        invariant
            start + 1 <= pos <= max <= src@.len(),
            lines <= pos,
            src@[start as int] == 0x22 || src@[start as int] == 0x27 || src@[start as int]
                == 0x28,
            closer == (if src@[start as int] == 0x22 {
                0x22u8
            } else if src@[start as int] == 0x27 {
                0x27u8
            } else {
                0x29u8
            }),
            match title_end(src@, pos as int, max as int, closer) {
                Some(p) => title_end(src@, start + 1 as int, max as int, closer) == Some(
                    (p.0, p.1 + lines as int),
                ),
                None => title_end(src@, start + 1 as int, max as int, closer) is None,
            },
        decreases max - pos,
    {
        let b = src[pos];
        if b == closer {
            let inner = vstd::slice::slice_subrange(src, start + 1, pos);
            let str = unescape_all(inner);
            return Some(ParseLinkFragmentResult { pos: pos + 1, lines, str });
        } else if b == 0x28 && closer == 0x29 {
            return None;
        } else if b == 0x0a {
            lines = lines + 1;
            pos = pos + 1;
        } else if b == 0x5c {
            if pos + 1 < max {
                pos = pos + 2;
            } else {
                return None;
            }
        } else {
            pos = pos + 1;
        }
    }
    None
}

} // verus!
