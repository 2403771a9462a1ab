//! Tests of the pure scanners and helpers.

use markdown_it::full_link::{parse_link_destination, parse_link_title};
use markdown_it::heading;
use markdown_it::lheading;
use markdown_it::links_util::{normalize_link, normalize_link_text, validate_link};
use markdown_it::refmap::ReferenceMap;
use markdown_it::srcmap::map_pos;
use markdown_it::text_norm::normalize_text;
use markdown_it::util::unescape_all;

#[test]
fn destination_angle_form() {
    let src = b"<\\<b>rest";
    let r = parse_link_destination(src, 0, src.len()).unwrap();
    assert_eq!(r.pos, 5);
    assert_eq!(r.str, b"<b".to_vec());
    assert_eq!(r.lines, 0);
}

#[test]
fn destination_angle_rejects_newline() {
    let src = b"<a\nb>";
    assert!(parse_link_destination(src, 0, src.len()).is_none());
}

#[test]
fn destination_bare_stops_at_space() {
    let src = b"/url next";
    let r = parse_link_destination(src, 0, src.len()).unwrap();
    assert_eq!(r.pos, 4);
    assert_eq!(r.str, b"/url".to_vec());
}

#[test]
fn destination_bare_balanced_parens() {
    let src = b"/a(b(c))d)";
    let r = parse_link_destination(src, 0, src.len()).unwrap();
    // the unmatched `)` terminates cleanly
    assert_eq!(r.pos, 9);
    assert_eq!(r.str, b"/a(b(c))d".to_vec());
}

#[test]
fn destination_bare_open_paren_fails() {
    let src = b"/a(b";
    assert!(parse_link_destination(src, 0, src.len()).is_none());
}

#[test]
fn destination_empty_is_allowed() {
    let src = b"";
    let r = parse_link_destination(src, 0, 0).unwrap();
    assert_eq!(r.pos, 0);
    assert_eq!(r.str, Vec::<u8>::new());
}

#[test]
fn title_double_quoted() {
    let src = b"\"baz\" after";
    let r = parse_link_title(src, 0, src.len()).unwrap();
    assert_eq!(r.pos, 5);
    assert_eq!(r.str, b"baz".to_vec());
    assert_eq!(r.lines, 0);
}

#[test]
fn title_paren_form_rejects_inner_open() {
    let src = b"(a(b)";
    assert!(parse_link_title(src, 0, src.len()).is_none());
}

#[test]
fn title_counts_newlines() {
    let src = b"'a\nb\nc'";
    let r = parse_link_title(src, 0, src.len()).unwrap();
    assert_eq!(r.lines, 2);
    assert_eq!(r.str, b"a\nb\nc".to_vec());
}

#[test]
fn title_escaped_closer() {
    let src = b"\"a\\\"b\"";
    let r = parse_link_title(src, 0, src.len()).unwrap();
    assert_eq!(r.str, b"a\"b".to_vec());
}

#[test]
fn normalize_text_rewrites_line_endings() {
    let out = normalize_text(b"a\r\nb\rc\x00d");
    assert_eq!(out, b"a\nb\nc\xef\xbf\xbdd".to_vec());
}

#[test]
fn normalize_text_idempotent_on_samples() {
    for s in [&b"a\r\nb"[..], &b"\r\r\n\x00"[..], &b"plain"[..]] {
        let once = normalize_text(s);
        let twice = normalize_text(&once);
        assert_eq!(once, twice);
    }
}

#[test]
fn normalize_link_percent_encodes() {
    assert_eq!(normalize_link(b"a b"), b"a%20b".to_vec());
    assert_eq!(normalize_link(b"/x?y=1&z#f"), b"/x?y=1&z#f".to_vec());
    // an existing triplet is kept, a lone percent is encoded
    assert_eq!(normalize_link(b"%20%zz"), b"%20%25zz".to_vec());
}

#[test]
fn normalize_link_text_is_identity() {
    assert_eq!(normalize_link_text(b"Any-Text_1"), b"Any-Text_1".to_vec());
}

#[test]
fn validate_link_rejects_bad_schemes() {
    assert!(!validate_link(b"javascript:alert(1)"));
    assert!(!validate_link(b"JaVaScRiPt:alert(1)"));
    assert!(!validate_link(b"vbscript:x"));
    assert!(!validate_link(b"file:///etc"));
    assert!(!validate_link(b"data:text/html;base64,x"));
    assert!(validate_link(b"data:image/png;base64,x"));
    assert!(validate_link(b"data:image/webp;a"));
    assert!(validate_link(b"https://example.org"));
    assert!(validate_link(b"/relative"));
}

#[test]
fn unescape_decodes_escapes_and_entities() {
    assert_eq!(unescape_all(b"\\*x\\a"), b"*x\\a".to_vec());
    assert_eq!(unescape_all(b"&amp;&#65;&#x42;"), b"&AB".to_vec());
    assert_eq!(unescape_all(b"&nope;"), b"&nope;".to_vec());
}

#[test]
fn heading_basic() {
    let m = heading::rule(b"# foo").unwrap();
    assert_eq!(m.level, 1);
    assert_eq!((m.text_start, m.text_end), (1, 5));
}

#[test]
fn heading_trailing_hashes_cut() {
    let m = heading::rule(b"## foo ##").unwrap();
    assert_eq!(m.level, 2);
    assert_eq!((m.text_start, m.text_end), (2, 7));
}

#[test]
fn heading_hashes_glued_to_text_kept() {
    let m = heading::rule(b"## foo##").unwrap();
    assert_eq!((m.text_start, m.text_end), (2, 8));
}

#[test]
fn heading_empty_content() {
    let m = heading::rule(b"## ##").unwrap();
    assert_eq!((m.text_start, m.text_end), (2, 2));
}

#[test]
fn heading_bare_hashes() {
    let m = heading::rule(b"###").unwrap();
    assert_eq!(m.level, 3);
    assert_eq!((m.text_start, m.text_end), (3, 3));
}

#[test]
fn heading_too_deep_or_malformed() {
    assert!(heading::rule(b"####### x").is_none());
    assert!(heading::rule(b"#foo").is_none());
    assert!(heading::rule(b"foo").is_none());
}

#[test]
fn underline_levels() {
    assert_eq!(lheading::underline_level(b"==="), Some(1));
    assert_eq!(lheading::underline_level(b"--  "), Some(2));
    assert_eq!(lheading::underline_level(b"- -"), None);
    assert_eq!(lheading::underline_level(b"x"), None);
}

#[test]
fn lheading_finds_underline() {
    let lines: Vec<Vec<u8>> = vec![b"Title".to_vec(), b"=====".to_vec()];
    let m = lheading::rule(&lines, 0).unwrap();
    assert_eq!(m.level, 1);
    assert_eq!(m.marker, b'=');
    assert_eq!(m.underline, 1);
}

#[test]
fn lheading_stopped_by_heading_line() {
    let lines: Vec<Vec<u8>> = vec![b"Para".to_vec(), b"# h".to_vec(), b"---".to_vec()];
    assert!(lheading::rule(&lines, 0).is_none());
}

#[test]
fn lheading_stops_at_blank() {
    let lines: Vec<Vec<u8>> = vec![b"Para".to_vec(), b"".to_vec(), b"---".to_vec()];
    assert!(lheading::rule(&lines, 0).is_none());
}

#[test]
fn map_pos_translates_through_segments() {
    let mapping: Vec<(usize, usize)> = vec![(0, 5), (10, 40)];
    assert_eq!(map_pos(&mapping, 3), 8);
    assert_eq!(map_pos(&mapping, 12), 42);
}

#[test]
fn reference_map_normalizes_labels() {
    let mut refs = ReferenceMap::new();
    refs.insert(b"  Foo   Bar ", b"/x".to_vec(), None);
    let e = refs.get(b"foo bar").unwrap();
    assert_eq!(e.destination, b"/x".to_vec());
    assert!(refs.get(b"foobar").is_none());
}

#[test]
fn reference_map_folds_unicode_case() {
    // 0xC3 0x84 is a capital A with diaeresis, 0xC3 0xA4 its lowercase
    let mut refs = ReferenceMap::new();
    refs.insert(&[0xc3, 0x84], b"/x".to_vec(), None);
    let e = refs.get(&[0xc3, 0xa4]).unwrap();
    assert_eq!(e.destination, b"/x".to_vec());
}

#[test]
fn reference_map_first_definition_wins() {
    let mut refs = ReferenceMap::new();
    refs.insert(b"a", b"/first".to_vec(), None);
    refs.insert(b"A", b"/second".to_vec(), None);
    let e = refs.get(b"a").unwrap();
    assert_eq!(e.destination, b"/first".to_vec());
}
