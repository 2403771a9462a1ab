//! Default link hooks: `validate_link` rejects dangerous URL schemes,
//! `normalize_link` percent-encodes a URL while preserving an already
//! encoded input, and `normalize_link_text` is the identity.

use vstd::prelude::*;
use crate::util::{is_alnum, is_hex_digit, exec_is_alnum, exec_is_hex_digit};

verus! {

/// ASCII lowercase of one byte.
pub open spec fn lower(b: u8) -> u8 {
    if 0x41 <= b <= 0x5a {
        (b + 0x20) as u8
    } else {
        b
    }
}

/// `s` begins, case-insensitively, with the pattern `p`.
pub open spec fn has_ci_prefix(s: Seq<u8>, p: Seq<u8>) -> bool {
    s.len() >= p.len() && forall|j: int| 0 <= j < p.len() ==> lower(#[trigger] s[j]) == p[j]
}

pub fn lower_b(b: u8) -> (r: u8)
    ensures
        r == lower(b),
{
    if 0x41 <= b && b <= 0x5a {
        b + 0x20
    } else {
        b
    }
}

pub open spec fn kw_vbscript() -> Seq<u8> {
    seq![0x76u8, 0x62u8, 0x73u8, 0x63u8, 0x72u8, 0x69u8, 0x70u8, 0x74u8, 0x3au8]
}


pub open spec fn kw_javascript() -> Seq<u8> {
    seq![0x6au8, 0x61u8, 0x76u8, 0x61u8, 0x73u8, 0x63u8, 0x72u8, 0x69u8, 0x70u8, 0x74u8, 0x3au8]
}


pub open spec fn kw_file() -> Seq<u8> {
    seq![0x66u8, 0x69u8, 0x6cu8, 0x65u8, 0x3au8]
}


pub open spec fn kw_data() -> Seq<u8> {
    seq![0x64u8, 0x61u8, 0x74u8, 0x61u8, 0x3au8]
}


pub open spec fn kw_data_gif() -> Seq<u8> {
    seq![0x64u8, 0x61u8, 0x74u8, 0x61u8, 0x3au8, 0x69u8, 0x6du8, 0x61u8, 0x67u8, 0x65u8, 0x2fu8, 0x67u8, 0x69u8, 0x66u8, 0x3bu8]
}


pub open spec fn kw_data_png() -> Seq<u8> {
    seq![0x64u8, 0x61u8, 0x74u8, 0x61u8, 0x3au8, 0x69u8, 0x6du8, 0x61u8, 0x67u8, 0x65u8, 0x2fu8, 0x70u8, 0x6eu8, 0x67u8, 0x3bu8]
}


pub open spec fn kw_data_jpeg() -> Seq<u8> {
    seq![0x64u8, 0x61u8, 0x74u8, 0x61u8, 0x3au8, 0x69u8, 0x6du8, 0x61u8, 0x67u8, 0x65u8, 0x2fu8, 0x6au8, 0x70u8, 0x65u8, 0x67u8, 0x3bu8]
}


pub open spec fn kw_data_webp() -> Seq<u8> {
    seq![0x64u8, 0x61u8, 0x74u8, 0x61u8, 0x3au8, 0x69u8, 0x6du8, 0x61u8, 0x67u8, 0x65u8, 0x2fu8, 0x77u8, 0x65u8, 0x62u8, 0x70u8, 0x3bu8]
}


/// Case-insensitive prefix check against a pattern.
fn ci_prefix(u: &[u8], pat: &[u8]) -> (r: bool)
    ensures
        r == has_ci_prefix(u@, pat@),
{
    if u.len() < pat.len() {
        return false;
    }
    let mut j: usize = 0;
    while j < pat.len()
        invariant
            j <= pat@.len() <= u@.len(),
            forall|k: int| 0 <= k < j ==> lower(#[trigger] u@[k]) == pat@[k],
        decreases pat@.len() - j,
    {
        if lower_b(u[j]) != pat[j] {
            return false;
        }
        j = j + 1;
    }
    true
}

fn kwv_vbscript() -> (k: Vec<u8>)
    ensures
        k@ == kw_vbscript(),
{
    let mut k: Vec<u8> = Vec::new();
    k.push(0x76);
    k.push(0x62);
    k.push(0x73);
    k.push(0x63);
    k.push(0x72);
    k.push(0x69);
    k.push(0x70);
    k.push(0x74);
    k.push(0x3a);
    proof {
        assert(k@ =~= kw_vbscript());
    }
    k
}

fn kwv_javascript() -> (k: Vec<u8>)
    ensures
        k@ == kw_javascript(),
{
    let mut k: Vec<u8> = Vec::new();
    k.push(0x6a);
    k.push(0x61);
    k.push(0x76);
    k.push(0x61);
    k.push(0x73);
    k.push(0x63);
    k.push(0x72);
    k.push(0x69);
    k.push(0x70);
    k.push(0x74);
    k.push(0x3a);
    proof {
        assert(k@ =~= kw_javascript());
    }
    k
}

fn kwv_file() -> (k: Vec<u8>)
    ensures
        k@ == kw_file(),
{
    let mut k: Vec<u8> = Vec::new();
    k.push(0x66);
    k.push(0x69);
    k.push(0x6c);
    k.push(0x65);
    k.push(0x3a);
    proof {
        assert(k@ =~= kw_file());
    }
    k
}

fn kwv_data() -> (k: Vec<u8>)
    ensures
        k@ == kw_data(),
{
    let mut k: Vec<u8> = Vec::new();
    k.push(0x64);
    k.push(0x61);
    k.push(0x74);
    k.push(0x61);
    k.push(0x3a);
    proof {
        assert(k@ =~= kw_data());
    }
    k
}

fn kwv_data_gif() -> (k: Vec<u8>)
    ensures
        k@ == kw_data_gif(),
{
    let mut k: Vec<u8> = Vec::new();
    k.push(0x64);
    k.push(0x61);
    k.push(0x74);
    k.push(0x61);
    k.push(0x3a);
    k.push(0x69);
    k.push(0x6d);
    k.push(0x61);
    k.push(0x67);
    k.push(0x65);
    k.push(0x2f);
    k.push(0x67);
    k.push(0x69);
    k.push(0x66);
    k.push(0x3b);
    proof {
        assert(k@ =~= kw_data_gif());
    }
    k
}

fn kwv_data_png() -> (k: Vec<u8>)
    ensures
        k@ == kw_data_png(),
{
    let mut k: Vec<u8> = Vec::new();
    k.push(0x64);
    k.push(0x61);
    k.push(0x74);
    k.push(0x61);
    k.push(0x3a);
    k.push(0x69);
    k.push(0x6d);
    k.push(0x61);
    k.push(0x67);
    k.push(0x65);
    k.push(0x2f);
    k.push(0x70);
    k.push(0x6e);
    k.push(0x67);
    k.push(0x3b);
    proof {
        assert(k@ =~= kw_data_png());
    }
    k
}

fn kwv_data_jpeg() -> (k: Vec<u8>)
    ensures
        k@ == kw_data_jpeg(),
{
    let mut k: Vec<u8> = Vec::new();
    k.push(0x64);
    k.push(0x61);
    k.push(0x74);
    k.push(0x61);
    k.push(0x3a);
    k.push(0x69);
    k.push(0x6d);
    k.push(0x61);
    k.push(0x67);
    k.push(0x65);
    k.push(0x2f);
    k.push(0x6a);
    k.push(0x70);
    k.push(0x65);
    k.push(0x67);
    k.push(0x3b);
    proof {
        assert(k@ =~= kw_data_jpeg());
    }
    k
}

fn kwv_data_webp() -> (k: Vec<u8>)
    ensures
        k@ == kw_data_webp(),
{
    let mut k: Vec<u8> = Vec::new();
    k.push(0x64);
    k.push(0x61);
    k.push(0x74);
    k.push(0x61);
    k.push(0x3a);
    k.push(0x69);
    k.push(0x6d);
    k.push(0x61);
    k.push(0x67);
    k.push(0x65);
    k.push(0x2f);
    k.push(0x77);
    k.push(0x65);
    k.push(0x62);
    k.push(0x70);
    k.push(0x3b);
    proof {
        assert(k@ =~= kw_data_webp());
    }
    k
}

/// The default gatekeeper: rejects `vbscript:`, `javascript:`, `file:`
/// and `data:` schemes (case-insensitively), except for `data:` URLs that
/// carry a gif, png, jpeg or webp image payload.
pub open spec fn validate_link_spec(u: Seq<u8>) -> bool {
    if has_ci_prefix(u, kw_vbscript()) || has_ci_prefix(u, kw_javascript()) || has_ci_prefix(
        u,
        kw_file(),
    ) {
        false
    } else if has_ci_prefix(u, kw_data()) {
        has_ci_prefix(u, kw_data_gif()) || has_ci_prefix(u, kw_data_png()) || has_ci_prefix(
            u,
            kw_data_jpeg(),
        ) || has_ci_prefix(u, kw_data_webp())
    } else {
        true
    }
}

/// Decides whether a candidate destination may become a link's href.
pub fn validate_link(u: &[u8]) -> (r: bool)
    ensures
        r == validate_link_spec(u@),
{
    if ci_prefix(u, kwv_vbscript().as_slice()) || ci_prefix(u, kwv_javascript().as_slice())
        || ci_prefix(u, kwv_file().as_slice()) {
        false
    } else if ci_prefix(u, kwv_data().as_slice()) {
        ci_prefix(u, kwv_data_gif().as_slice()) || ci_prefix(u, kwv_data_png().as_slice())
            || ci_prefix(u, kwv_data_jpeg().as_slice()) || ci_prefix(
            u,
            kwv_data_webp().as_slice(),
        )
    } else {
        true
    }
}

/// Bytes that survive percent-encoding unchanged: ASCII letters, digits
/// and `;/?:@&=+$,-_.!~*'()#`.
pub open spec fn keep_byte(b: u8) -> bool {
    ||| is_alnum(b)
    ||| b == 0x3b || b == 0x2f || b == 0x3f || b == 0x3a || b == 0x40 || b == 0x26
    ||| b == 0x3d || b == 0x2b || b == 0x24 || b == 0x2c || b == 0x2d || b == 0x5f
    ||| b == 0x2e || b == 0x21 || b == 0x7e || b == 0x2a || b == 0x27 || b == 0x28
    ||| b == 0x29 || b == 0x23
}

pub fn exec_keep_byte(b: u8) -> (r: bool)
    ensures
        r == keep_byte(b),
{
    exec_is_alnum(b) || b == 0x3b || b == 0x2f || b == 0x3f || b == 0x3a || b == 0x40 || b == 0x26
        || b == 0x3d || b == 0x2b || b == 0x24 || b == 0x2c || b == 0x2d || b == 0x5f || b == 0x2e
        || b == 0x21 || b == 0x7e || b == 0x2a || b == 0x27 || b == 0x28 || b == 0x29 || b == 0x23
}

/// Upper-case hex digit for a value below 16.
pub open spec fn hex_upper(d: int) -> u8 {
    if d < 10 {
        (0x30 + d) as u8
    } else {
        (0x41 + (d - 10)) as u8
    }
}

/// Percent-encoding that keeps the preserved set and copies an existing
/// `%XX` triplet as it stands.
pub open spec fn enc_from(s: Seq<u8>, i: int) -> Seq<u8>
    decreases s.len() - i,
{
    if i < 0 || i >= s.len() {
        Seq::empty()
    } else if s[i] == 0x25 && i + 2 < s.len() && is_hex_digit(s[i + 1]) && is_hex_digit(
        s[i + 2],
    ) {
        seq![s[i], s[i + 1], s[i + 2]] + enc_from(s, i + 3)
    } else if keep_byte(s[i]) {
        seq![s[i]] + enc_from(s, i + 1)
    } else {
        seq![0x25u8, hex_upper(s[i] as int / 16), hex_upper(s[i] as int % 16)] + enc_from(s, i + 1)
    }
}

/// The default URL normalizer: percent-encoding over an already-encoded
/// input.
pub fn normalize_link(u: &[u8]) -> (out: Vec<u8>)
    ensures
        out@ == enc_from(u@, 0),
{
    let mut out: Vec<u8> = Vec::new();
    let mut i: usize = 0;
    proof {
        assert(out@ + enc_from(u@, 0) =~= enc_from(u@, 0));
    }
    while i < u.len()
        invariant
            i <= u@.len(),
            enc_from(u@, 0) == out@ + enc_from(u@, i as int),
        decreases u@.len() - i,
    {
        let ghost out0 = out@;
        let ghost i0 = i as int;
        let b = u[i];
        if b == 0x25 && i + 1 < u.len() && i + 2 < u.len() && exec_is_hex_digit(u[i + 1]) && exec_is_hex_digit(
            u[i + 2],
        ) {
            out.push(b);
            out.push(u[i + 1]);
            out.push(u[i + 2]);
            i = i + 3;
            proof {
                assert(out@ =~= out0 + seq![u@[i0], u@[i0 + 1], u@[i0 + 2]]);
                assert(enc_from(u@, 0) =~= out@ + enc_from(u@, i as int));
            }
        } else if exec_keep_byte(b) {
            out.push(b);
            i = i + 1;
            proof {
                assert(out@ =~= out0 + seq![u@[i0]]);
                assert(enc_from(u@, 0) =~= out@ + enc_from(u@, i as int));
            }
        } else {
            out.push(0x25);
            let hi = b / 16;
            let lo = b % 16;
            out.push(if hi < 10 { 0x30 + hi } else { 0x41 + (hi - 10) });
            out.push(if lo < 10 { 0x30 + lo } else { 0x41 + (lo - 10) });
            i = i + 1;
            proof {
                assert(out@ =~= out0 + seq![0x25u8, hex_upper(u@[i0] as int / 16), hex_upper(u@[i0] as int % 16)]);
                assert(enc_from(u@, 0) =~= out@ + enc_from(u@, i as int));
            }
        }
    }
    proof {
        assert(enc_from(u@, i as int) =~= Seq::<u8>::empty());
        assert(out@ + Seq::<u8>::empty() =~= out@);
    }
    out
}

/// The default link-text normalizer: the identity.
pub fn normalize_link_text(u: &[u8]) -> (out: Vec<u8>)
    ensures
        out@ == u@,
{
    vstd::slice::slice_to_vec(u)
}

} // verus!
