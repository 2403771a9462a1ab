//! Scenario tests driving the inline engine end to end.

use markdown_it::full_link;
use markdown_it::inline_parser;
use markdown_it::node::{Node, NodeValue};
use markdown_it::refmap::ReferenceMap;
use markdown_it::engine::parse_link_label;
use markdown_it::ruler::{LinkFactory, MarkdownIt};
use markdown_it::state::{InlineState, RootEnv};

fn setup_md() -> MarkdownIt {
    let mut md = MarkdownIt::new();
    markdown_it::newline::add(&mut md);
    markdown_it::entity::add(&mut md);
    markdown_it::autolink::add(&mut md);
    markdown_it::html_inline::add(&mut md);
    full_link::add(&mut md, false, LinkFactory::Link);
    full_link::add_prefix(&mut md, b'!', true, LinkFactory::Image);
    md
}

fn parse_with(refs: Option<ReferenceMap>, src: &[u8]) -> Node {
    let md = setup_md();
    let renv = RootEnv { references: refs };
    inline_parser::parse(&md, &renv, src.to_vec(), Node::fresh(NodeValue::Root))
}

fn parse_plain(src: &[u8]) -> Node {
    parse_with(None, src)
}

fn text_of(n: &Node) -> Vec<u8> {
    match &n.payload {
        NodeValue::Text(t) => t.content.clone(),
        _ => panic!("expected a text node"),
    }
}

#[test]
fn inline_link_with_title() {
    let out = parse_plain(b"[foo](/bar \"baz\")");
    assert_eq!(out.children.len(), 1);
    match &out.children[0].payload {
        NodeValue::Link { url, title } => {
            assert_eq!(url.as_ref().unwrap(), &b"/bar".to_vec());
            assert_eq!(title.as_ref().unwrap(), &b"baz".to_vec());
        }
        _ => panic!("expected a link"),
    }
    assert_eq!(text_of(&out.children[0].children[0]), b"foo".to_vec());
}

#[test]
fn inline_link_angle_destination() {
    let out = parse_plain(b"[foo](</bar> \"baz\")");
    match &out.children[0].payload {
        NodeValue::Link { url, title } => {
            assert_eq!(url.as_ref().unwrap(), &b"/bar".to_vec());
            assert_eq!(title.as_ref().unwrap(), &b"baz".to_vec());
        }
        _ => panic!("expected a link"),
    }
}

#[test]
fn inline_link_nested_parens() {
    let out = parse_plain(b"[foo](/bar(baz(qux)))");
    match &out.children[0].payload {
        NodeValue::Link { url, title } => {
            assert_eq!(url.as_ref().unwrap(), &b"/bar(baz(qux))".to_vec());
            assert!(title.is_none());
        }
        _ => panic!("expected a link"),
    }
}

#[test]
fn inline_link_too_many_parens_is_text() {
    let mut src = b"[foo](/bar".to_vec();
    for _ in 0..33 {
        src.push(b'(');
    }
    src.push(b')');
    let out = parse_plain(&src);
    for c in &out.children {
        assert!(!matches!(c.payload, NodeValue::Link { .. }));
    }
}

#[test]
fn full_reference_link() {
    let mut refs = ReferenceMap::new();
    refs.insert(b"bar", b"/x".to_vec(), Some(b"y".to_vec()));
    let out = parse_with(Some(refs), b"[foo][bar]");
    match &out.children[0].payload {
        NodeValue::Link { url, title } => {
            assert_eq!(url.as_ref().unwrap(), &b"/x".to_vec());
            assert_eq!(title.as_ref().unwrap(), &b"y".to_vec());
        }
        _ => panic!("expected a link"),
    }
    assert_eq!(text_of(&out.children[0].children[0]), b"foo".to_vec());
}

#[test]
fn shortcut_reference_link() {
    let mut refs = ReferenceMap::new();
    refs.insert(b"foo", b"/x".to_vec(), None);
    let out = parse_with(Some(refs), b"[foo]");
    match &out.children[0].payload {
        NodeValue::Link { url, title } => {
            assert_eq!(url.as_ref().unwrap(), &b"/x".to_vec());
            assert!(title.is_none());
        }
        _ => panic!("expected a link"),
    }
}

#[test]
fn collapsed_reference_link() {
    let mut refs = ReferenceMap::new();
    refs.insert(b"foo", b"/x".to_vec(), None);
    let out = parse_with(Some(refs), b"[foo][]");
    match &out.children[0].payload {
        NodeValue::Link { url, .. } => {
            assert_eq!(url.as_ref().unwrap(), &b"/x".to_vec());
        }
        _ => panic!("expected a link"),
    }
}

#[test]
fn second_label_wins_over_primary() {
    // [a][b] with only b defined resolves through b with a's children
    let mut refs = ReferenceMap::new();
    refs.insert(b"b", b"/b".to_vec(), None);
    let out = parse_with(Some(refs), b"[a][b]");
    match &out.children[0].payload {
        NodeValue::Link { url, .. } => {
            assert_eq!(url.as_ref().unwrap(), &b"/b".to_vec());
        }
        _ => panic!("expected a link"),
    }
    assert_eq!(text_of(&out.children[0].children[0]), b"a".to_vec());
}

#[test]
fn inline_form_wins_over_reference() {
    let mut refs = ReferenceMap::new();
    refs.insert(b"foo", b"/ref".to_vec(), None);
    let out = parse_with(Some(refs), b"[foo](/inline)");
    match &out.children[0].payload {
        NodeValue::Link { url, .. } => {
            assert_eq!(url.as_ref().unwrap(), &b"/inline".to_vec());
        }
        _ => panic!("expected a link"),
    }
}

#[test]
fn image_with_nested_link() {
    // nesting is allowed inside image labels
    let out = parse_plain(b"![a [b](c) d](e)");
    assert_eq!(out.children.len(), 1);
    match &out.children[0].payload {
        NodeValue::Image { url, .. } => {
            assert_eq!(url.as_ref().unwrap(), &b"e".to_vec());
        }
        _ => panic!("expected an image"),
    }
    let kids = &out.children[0].children;
    assert_eq!(text_of(&kids[0]), b"a ".to_vec());
    assert!(matches!(kids[1].payload, NodeValue::Link { .. }));
    assert_eq!(text_of(&kids[2]), b" d".to_vec());
}

#[test]
fn link_label_may_not_nest_links() {
    // a committed inner link forbids the outer label; the inner link wins
    let out = parse_plain(b"[a [b](c) d](e)");
    assert!(matches!(out.children[0].payload, NodeValue::Text(_)));
    assert!(matches!(out.children[1].payload, NodeValue::Link { .. }));
    match &out.children[1].payload {
        NodeValue::Link { url, .. } => {
            assert_eq!(url.as_ref().unwrap(), &b"c".to_vec());
        }
        _ => unreachable!(),
    }
}

#[test]
fn inner_link_poisons_enclosing_label() {
    // a link committed inside the image's label leaves the seen-links
    // marker raised, so the enclosing nesting-disabled label is refused
    let out = parse_plain(b"[x ![a [b](c) d](e) y](z)");
    assert_eq!(text_of(&out.children[0]), b"[x ".to_vec());
    assert!(matches!(out.children[1].payload, NodeValue::Image { .. }));
    assert_eq!(text_of(&out.children[2]), b" y](z)".to_vec());
    assert!(matches!(
        out.children[1].children[1].payload,
        NodeValue::Link { .. }
    ));
}

#[test]
fn simple_image() {
    let out = parse_plain(b"![alt](img.png)");
    match &out.children[0].payload {
        NodeValue::Image { url, title } => {
            assert_eq!(url.as_ref().unwrap(), &b"img.png".to_vec());
            assert!(title.is_none());
        }
        _ => panic!("expected an image"),
    }
    assert_eq!(text_of(&out.children[0].children[0]), b"alt".to_vec());
}

#[test]
fn autolink_url() {
    let out = parse_plain(b"<https://x.y>");
    match &out.children[0].payload {
        NodeValue::Autolink(a) => {
            assert_eq!(a.url, b"https://x.y".to_vec());
        }
        _ => panic!("expected an autolink"),
    }
    assert_eq!(text_of(&out.children[0].children[0]), b"https://x.y".to_vec());
}

#[test]
fn autolink_email() {
    let out = parse_plain(b"<user@example.org>");
    match &out.children[0].payload {
        NodeValue::Autolink(a) => {
            assert_eq!(a.url, b"mailto:user@example.org".to_vec());
        }
        _ => panic!("expected an autolink"),
    }
}

#[test]
fn bad_scheme_autolink_is_text() {
    let out = parse_plain(b"<javascript:alert(1)>");
    assert!(matches!(out.children[0].payload, NodeValue::Text(_)));
}

#[test]
fn bad_scheme_href_fails_the_inline_form() {
    // the rejected destination is not consumed, so the closing `)` is
    // never reached and the construct stays literal text
    let out = parse_plain(b"[foo](javascript:alert(1))");
    for c in &out.children {
        assert!(matches!(c.payload, NodeValue::Text(_)));
    }
}

#[test]
fn entity_named() {
    let out = parse_plain(b"&amp;");
    match &out.children[0].payload {
        NodeValue::TextSpecial(t) => {
            assert_eq!(t.content, b"&".to_vec());
            assert_eq!(t.markup, b"&amp;".to_vec());
        }
        _ => panic!("expected special text"),
    }
}

#[test]
fn entity_numeric() {
    let out = parse_plain(b"&#35;&#x22;");
    match &out.children[0].payload {
        NodeValue::TextSpecial(t) => {
            assert_eq!(t.content, b"#".to_vec());
        }
        _ => panic!("expected special text"),
    }
    match &out.children[1].payload {
        NodeValue::TextSpecial(t) => {
            assert_eq!(t.content, b"\"".to_vec());
        }
        _ => panic!("expected special text"),
    }
}

#[test]
fn entity_invalid_code_replaced() {
    // a surrogate code point decodes to U+FFFD
    let out = parse_plain(b"&#xD800;");
    match &out.children[0].payload {
        NodeValue::TextSpecial(t) => {
            assert_eq!(t.content, vec![0xef, 0xbf, 0xbd]);
        }
        _ => panic!("expected special text"),
    }
}

#[test]
fn unknown_entity_is_text() {
    let out = parse_plain(b"&zzzz;");
    for c in &out.children {
        assert!(matches!(c.payload, NodeValue::Text(_)));
    }
}

#[test]
fn hardbreak_two_spaces() {
    let out = parse_plain(b"a  \nb");
    assert!(matches!(out.children[0].payload, NodeValue::Text(_)));
    assert_eq!(text_of(&out.children[0]), b"a".to_vec());
    assert!(matches!(out.children[1].payload, NodeValue::Hardbreak(_)));
    assert_eq!(text_of(&out.children[2]), b"b".to_vec());
}

#[test]
fn softbreak_plain_newline() {
    let out = parse_plain(b"a\nb");
    assert!(matches!(out.children[1].payload, NodeValue::Softbreak(_)));
}

#[test]
fn html_inline_tag() {
    let out = parse_plain(b"x<a href=\"y\">z");
    assert_eq!(text_of(&out.children[0]), b"x".to_vec());
    match &out.children[1].payload {
        NodeValue::HtmlInline(h) => {
            assert_eq!(h.content, b"<a href=\"y\">".to_vec());
        }
        _ => panic!("expected raw html"),
    }
    assert_eq!(text_of(&out.children[2]), b"z".to_vec());
}

#[test]
fn html_comment() {
    let out = parse_plain(b"<!-- note -->");
    match &out.children[0].payload {
        NodeValue::HtmlInline(h) => {
            assert_eq!(h.content, b"<!-- note -->".to_vec());
        }
        _ => panic!("expected raw html"),
    }
}

#[test]
fn unmatched_brackets_stay_text() {
    let out = parse_plain(b"[[[[x");
    for c in &out.children {
        assert!(matches!(c.payload, NodeValue::Text(_)));
    }
}

#[test]
fn deep_nesting_is_bounded() {
    let mut src = Vec::new();
    for _ in 0..300 {
        src.push(b'[');
    }
    src.push(b'x');
    let out = parse_plain(&src);
    assert!(out.children.len() >= 1);
}

#[test]
fn spans_tile_the_source() {
    let src = b"a [x](u) &amp; <b>c  
d";
    let out = parse_plain(src);
    let mut at = 0usize;
    for c in &out.children {
        let sm = c.srcmap.expect("every child carries a span");
        assert_eq!(sm.start, at);
        at = sm.end;
    }
    assert_eq!(at, src.len());
}

#[test]
fn label_scan_results_are_memoized() {
    let md = setup_md();
    let renv = RootEnv { references: None };
    let mut st = InlineState::new(b"[ab] tail".to_vec(), Node::fresh(NodeValue::Root));
    let first = parse_link_label(&md, &renv, &mut st, 0, true);
    assert_eq!(first, Some(3));
    // answered from the cache, with the state untouched
    let again = parse_link_label(&md, &renv, &mut st, 0, true);
    assert_eq!(again, Some(3));
}

#[test]
fn unclosed_label_scan_caches_the_miss() {
    let md = setup_md();
    let renv = RootEnv { references: None };
    let mut st = InlineState::new(b"[[[ab".to_vec(), Node::fresh(NodeValue::Root));
    assert_eq!(parse_link_label(&md, &renv, &mut st, 0, true), None);
    assert_eq!(parse_link_label(&md, &renv, &mut st, 0, true), None);
}

#[test]
fn reference_without_map_is_text() {
    let out = parse_plain(b"[foo][bar]");
    for c in &out.children {
        assert!(matches!(c.payload, NodeValue::Text(_)));
    }
}

fn reconstruct(n: &Node, src: &[u8]) -> Vec<u8> {
    match &n.payload {
        NodeValue::Text(t) => t.content.clone(),
        NodeValue::TextSpecial(t) => t.markup.clone(),
        _ => {
            let sm = n.srcmap.expect("mapped node");
            if n.children.is_empty() {
                src[sm.start..sm.end].to_vec()
            } else {
                let lo = n.children[0].srcmap.unwrap().start;
                let hi = n.children[n.children.len() - 1].srcmap.unwrap().end;
                let mut out = src[sm.start..lo].to_vec();
                for c in &n.children {
                    out.extend_from_slice(&reconstruct(c, src));
                }
                out.extend_from_slice(&src[hi..sm.end]);
                out
            }
        }
    }
}

#[test]
fn leaves_reconstruct_the_source() {
    let src = b"pre [a ![i](im) b](u \"t\") &#65; <em x=1>tail  \ntx";
    let out = parse_plain(src);
    let mut whole = Vec::new();
    for c in &out.children {
        whole.extend_from_slice(&reconstruct(c, src));
    }
    assert_eq!(whole, src.to_vec());
}
