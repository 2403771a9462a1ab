//! Rule registries: the inline registry keyed by a single marker byte,
//! the block registry, and the core (tree-pass) registry, gathered in the
//! parser instance `MarkdownIt`.
//!
//! Rules are tried in registration order; for one marker the first rule
//! that matches wins.  Rule identity is by tag: duplicate registration is
//! refused, and `has_rule` exposes membership.

use vstd::prelude::*;
use crate::node::NodeValue;

verus! {

/// Which node a committed link-shaped rule produces.
#[derive(Clone, Copy, Debug, PartialEq, Eq, Structural)]
pub enum LinkFactory {
    Link,
    Image,
    Custom(u32),
}

impl LinkFactory {
    /// The payload this factory builds from a href and a title.
    pub open spec fn spec_make(self, url: Option<Vec<u8>>, title: Option<Vec<u8>>) -> NodeValue {
        match self {
            LinkFactory::Link => NodeValue::Link { url, title },
            LinkFactory::Image => NodeValue::Image { url, title },
            LinkFactory::Custom(tag) => NodeValue::CustomLink { tag, url, title },
        }
    }

    /// Builds the payload for a committed link-shaped node.
    pub fn make(&self, url: Option<Vec<u8>>, title: Option<Vec<u8>>) -> (v: NodeValue)
        ensures
            v == self.spec_make(url, title),
            (v is Link) == (self is Link),
    {
        match self {
            LinkFactory::Link => NodeValue::Link { url, title },
            LinkFactory::Image => NodeValue::Image { url, title },
            LinkFactory::Custom(tag) => NodeValue::CustomLink { tag: *tag, url, title },
        }
    }
}

/// An inline rule, identified by its tag.
#[derive(Clone, Copy, Debug)]
pub enum RuleKind {
    /// `[...]` link-shaped rule with no prefix.
    Link { enable_nested: bool, factory: LinkFactory },
    /// `P[...]` link-shaped rule with a one-byte prefix (images use `!`).
    LinkPrefix { prefix: u8, enable_nested: bool, factory: LinkFactory },
    /// Passive rule on `]` so a stray closer never matches a token.
    LinkEnd,
    /// `<scheme:...>` and `<email>` autolinks.
    Autolink,
    /// `&name;` and numeric character references.
    Entity,
    /// Raw HTML inline tags.
    HtmlInline,
    /// Newline handling: hard and soft breaks.
    Newline,
}

/// Rule identity: two registrations clash when their tags coincide (for
/// link rules, the nesting flag and prefix are part of the tag, the
/// factory is not).
pub open spec fn same_rule_tag(a: RuleKind, b: RuleKind) -> bool {
    match (a, b) {
        (RuleKind::Link { enable_nested: e1, .. }, RuleKind::Link { enable_nested: e2, .. }) => e1
            == e2,
        (
            RuleKind::LinkPrefix { prefix: p1, enable_nested: e1, .. },
            RuleKind::LinkPrefix { prefix: p2, enable_nested: e2, .. },
        ) => p1 == p2 && e1 == e2,
        (RuleKind::LinkEnd, RuleKind::LinkEnd) => true,
        (RuleKind::Autolink, RuleKind::Autolink) => true,
        (RuleKind::Entity, RuleKind::Entity) => true,
        (RuleKind::HtmlInline, RuleKind::HtmlInline) => true,
        (RuleKind::Newline, RuleKind::Newline) => true,
        _ => false,
    }
}

pub fn rule_tag_eq(a: &RuleKind, b: &RuleKind) -> (r: bool)
    ensures
        r == same_rule_tag(*a, *b),
{
    match (a, b) {
        (RuleKind::Link { enable_nested: e1, .. }, RuleKind::Link { enable_nested: e2, .. }) => e1
            == e2,
        (
            RuleKind::LinkPrefix { prefix: p1, enable_nested: e1, .. },
            RuleKind::LinkPrefix { prefix: p2, enable_nested: e2, .. },
        ) => p1 == p2 && e1 == e2,
        (RuleKind::LinkEnd, RuleKind::LinkEnd) => true,
        (RuleKind::Autolink, RuleKind::Autolink) => true,
        (RuleKind::Entity, RuleKind::Entity) => true,
        (RuleKind::HtmlInline, RuleKind::HtmlInline) => true,
        (RuleKind::Newline, RuleKind::Newline) => true,
        _ => false,
    }
}

/// A registered inline rule: the marker byte that selects it, plus its
/// tag.
#[derive(Clone, Copy, Debug)]
pub struct RuleEntry {
    pub marker: u8,
    pub kind: RuleKind,
}

/// A rule entry's marker is consistent with its kind.
pub open spec fn entry_wf(e: RuleEntry) -> bool {
    match e.kind {
        RuleKind::Link { .. } => e.marker == 0x5b,
        RuleKind::LinkPrefix { prefix, .. } => e.marker == prefix,
        RuleKind::LinkEnd => e.marker == 0x5d,
        RuleKind::Autolink => e.marker == 0x3c,
        RuleKind::Entity => e.marker == 0x26,
        RuleKind::HtmlInline => e.marker == 0x3c,
        RuleKind::Newline => e.marker == 0x0a,
    }
}

/// The inline rule registry, in registration order.
pub struct InlineParser {
    pub rules: Vec<RuleEntry>,
}

impl InlineParser {
    /// A rule with this tag is registered.
    pub open spec fn has_tag(self, kind: RuleKind) -> bool {
        exists|i: int|
            0 <= i < self.rules@.len() && same_rule_tag((#[trigger] self.rules@[i]).kind, kind)
    }

    pub open spec fn wf(self) -> bool {
        forall|i: int| 0 <= i < self.rules@.len() ==> entry_wf(#[trigger] self.rules@[i])
    }

    /// Every registered link-shaped rule whose factory makes `Link` nodes
    /// has nesting disabled; needed to reason about link-free labels.
    pub open spec fn nonest_wf(self) -> bool {
        forall|i: int|
            0 <= i < self.rules@.len() ==> match (#[trigger] self.rules@[i]).kind {
                RuleKind::Link { enable_nested, factory } => factory is Link ==> !enable_nested,
                RuleKind::LinkPrefix { enable_nested, factory, .. } => factory is Link
                    ==> !enable_nested,
                _ => true,
            }
    }

    pub fn new() -> (p: InlineParser)
        ensures
            p.rules@.len() == 0,
            p.wf(),
            p.nonest_wf(),
    {
        InlineParser { rules: Vec::new() }
    }

    /// Is a rule with this tag registered?
    pub fn has_rule(&self, kind: &RuleKind) -> (r: bool)
        ensures
            r == self.has_tag(*kind),
    {
        let mut i: usize = 0;
        while i < self.rules.len()
            invariant
                i <= self.rules@.len(),
                forall|j: int| 0 <= j < i ==> !same_rule_tag((#[trigger] self.rules@[j]).kind, *kind),
            decreases self.rules@.len() - i,
        {
            if rule_tag_eq(&self.rules[i].kind, kind) {
                return true;
            }
            i = i + 1;
        }
        false
    }

    /// Registers a rule unless one with the same tag already exists: the
    /// registry gains exactly the new entry, or stays as it was.
    pub fn add_rule(&mut self, marker: u8, kind: RuleKind)
        requires
            entry_wf(RuleEntry { marker, kind }),
        ensures
            old(self).wf() ==> final(self).wf(),
            old(self).nonest_wf() && (match kind {
                RuleKind::Link { enable_nested, factory } => factory is Link ==> !enable_nested,
                RuleKind::LinkPrefix { enable_nested, factory, .. } => factory is Link
                    ==> !enable_nested,
                _ => true,
            }) ==> final(self).nonest_wf(),
            old(self).has_tag(kind) ==> final(self).rules@ == old(self).rules@,
            !old(self).has_tag(kind) ==> final(self).rules@ == old(self).rules@.push(
                RuleEntry { marker, kind },
            ),
            final(self).has_tag(kind),
    {
        if !self.has_rule(&kind) {
            self.rules.push(RuleEntry { marker, kind });
            proof {
                assert(self.rules@[self.rules@.len() - 1] == RuleEntry { marker, kind });
                assert(forall|i: int|
                    0 <= i < self.rules@.len() - 1 ==> self.rules@[i] == old(self).rules@[i]);
                assert(same_rule_tag(self.rules@[self.rules@.len() - 1].kind, kind));
            }
        }
    }
}

/// A registered block rule.
#[derive(Clone, Copy, Debug, PartialEq, Eq, Structural)]
pub enum BlockRule {
    Heading,
    LHeading,
}

/// The block rule registry.
pub struct BlockParser {
    pub rules: Vec<BlockRule>,
}

impl BlockParser {
    pub fn new() -> (p: BlockParser)
        ensures
            p.rules@.len() == 0,
    {
        BlockParser { rules: Vec::new() }
    }

    pub fn add_rule(&mut self, rule: BlockRule)
        ensures
            final(self).rules@ == old(self).rules@.push(rule),
    {
        self.rules.push(rule);
    }
}

/// A registered core (whole-tree) rule.
#[derive(Clone, Copy, Debug, PartialEq, Eq, Structural)]
pub enum CoreRule {
    InlineDriver,
}

/// The core rule registry.
pub struct CoreRuler {
    pub rules: Vec<CoreRule>,
}

impl CoreRuler {
    pub fn new() -> (p: CoreRuler)
        ensures
            p.rules@.len() == 0,
    {
        CoreRuler { rules: Vec::new() }
    }

    pub fn add_rule(&mut self, rule: CoreRule)
        ensures
            final(self).rules@ == old(self).rules@.push(rule),
    {
        self.rules.push(rule);
    }
}

/// The parser instance: rule registries and limits.
pub struct MarkdownIt {
    pub inline: InlineParser,
    pub block: BlockParser,
    pub ruler: CoreRuler,
    /// Bound on label-scan nesting depth; scanning deeper fails the rule
    /// match instead of recursing further.
    pub max_nesting: usize,
}

impl MarkdownIt {
    pub open spec fn wf(self) -> bool {
        self.inline.wf()
    }

    /// A parser with empty registries and the default nesting bound.
    pub fn new() -> (md: MarkdownIt)
        ensures
            md.wf(),
            md.inline.nonest_wf(),
            md.inline.rules@.len() == 0,
            md.max_nesting == 100,
    {
        MarkdownIt {
            inline: InlineParser::new(),
            block: BlockParser::new(),
            ruler: CoreRuler::new(),
            max_nesting: 100,
        }
    }
}

} // verus!
