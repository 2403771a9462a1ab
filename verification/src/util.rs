//! Shared byte-level utilities: ASCII character classes, entity and
//! numeric character references, UTF-8 encoding of a code point, and the
//! `unescape_all` helper that decodes backslash escapes and entities.

use vstd::prelude::*;

verus! {

pub open spec fn is_dec_digit(b: u8) -> bool {
    0x30 <= b <= 0x39
}

pub open spec fn is_hex_digit(b: u8) -> bool {
    is_dec_digit(b) || (0x41 <= b <= 0x46) || (0x61 <= b <= 0x66)
}

pub open spec fn is_alpha(b: u8) -> bool {
    (0x41 <= b <= 0x5a) || (0x61 <= b <= 0x7a)
}

pub open spec fn is_alnum(b: u8) -> bool {
    is_alpha(b) || is_dec_digit(b)
}

/// ASCII punctuation, the set a backslash may escape: `!-/`, `:-@`,
/// `[-\``, `{-~`.
pub open spec fn is_ascii_punct(b: u8) -> bool {
    (0x21 <= b <= 0x2f) || (0x3a <= b <= 0x40) || (0x5b <= b <= 0x60) || (0x7b <= b <= 0x7e)
}

/// The numeric value of a hex digit.
pub open spec fn hex_digit_val(b: u8) -> int {
    if is_dec_digit(b) {
        b - 0x30
    } else if 0x41 <= b <= 0x46 {
        b - 0x41 + 10
    } else {
        b - 0x61 + 10
    }
}

/// Length of the run of decimal digits starting at `i`.
pub open spec fn dec_run(s: Seq<u8>, i: int) -> int
    decreases s.len() - i,
{
    if 0 <= i < s.len() && is_dec_digit(s[i]) {
        1 + dec_run(s, i + 1)
    } else {
        0
    }
}

/// Length of the run of hex digits starting at `i`.
pub open spec fn hex_run(s: Seq<u8>, i: int) -> int
    decreases s.len() - i,
{
    if 0 <= i < s.len() && is_hex_digit(s[i]) {
        1 + hex_run(s, i + 1)
    } else {
        0
    }
}

/// Length of the run of ASCII letters and digits starting at `i`.
pub open spec fn alnum_run(s: Seq<u8>, i: int) -> int
    decreases s.len() - i,
{
    if 0 <= i < s.len() && is_alnum(s[i]) {
        1 + alnum_run(s, i + 1)
    } else {
        0
    }
}

/// Value of the decimal digits `s[i..j)`.
pub open spec fn dec_val(s: Seq<u8>, i: int, j: int) -> int
    decreases j - i,
{
    if i >= j {
        0
    } else {
        dec_val(s, i, j - 1) * 10 + (s[j - 1] - 0x30)
    }
}

/// Value of the hex digits `s[i..j)`.
pub open spec fn hex_val(s: Seq<u8>, i: int, j: int) -> int
    decreases j - i,
{
    if i >= j {
        0
    } else {
        hex_val(s, i, j - 1) * 16 + hex_digit_val(s[j - 1])
    }
}

/// Code points the numeric-reference decoder accepts verbatim; anything
/// else is replaced by U+FFFD.  Surrogates, noncharacters, most controls
/// and out-of-range values are rejected.
pub open spec fn valid_entity_code(c: int) -> bool {
    &&& !(0xd800 <= c <= 0xdfff)
    &&& !(0xfdd0 <= c <= 0xfdef)
    &&& c % 0x10000 != 0xfffe
    &&& c % 0x10000 != 0xffff
    &&& !(0x00 <= c <= 0x08)
    &&& c != 0x0b
    &&& !(0x0e <= c <= 0x1f)
    &&& !(0x7f <= c <= 0x9f)
    &&& c <= 0x10ffff
}

/// The UTF-8 encoding of code point `c` (valid for `0 <= c <= 0x10ffff`).
pub open spec fn utf8_enc(c: int) -> Seq<u8> {
    if c < 0x80 {
        seq![c as u8]
    } else if c < 0x800 {
        seq![(0xc0 + c / 0x40) as u8, (0x80 + c % 0x40) as u8]
    } else if c < 0x10000 {
        seq![(0xe0 + c / 0x1000) as u8, (0x80 + (c / 0x40) % 0x40) as u8, (0x80 + c % 0x40) as u8]
    } else {
        seq![
            (0xf0 + c / 0x40000) as u8,
            (0x80 + (c / 0x1000) % 0x40) as u8,
            (0x80 + (c / 0x40) % 0x40) as u8,
            (0x80 + c % 0x40) as u8,
        ]
    }
}

/// Encodes a code point to UTF-8 bytes.
pub fn utf8_encode(c: u32) -> (out: Vec<u8>)
    requires
        c <= 0x10ffff,
    ensures
        out@ == utf8_enc(c as int),
{
    let mut out: Vec<u8> = Vec::new();
    if c < 0x80 {
        out.push(c as u8);
        proof {
            assert(out@ =~= utf8_enc(c as int));
        }
    } else if c < 0x800 {
        out.push((0xc0 + c / 0x40) as u8);
        out.push((0x80 + c % 0x40) as u8);
        proof {
            assert(out@ =~= utf8_enc(c as int));
        }
    } else if c < 0x10000 {
        out.push((0xe0 + c / 0x1000) as u8);
        out.push((0x80 + (c / 0x40) % 0x40) as u8);
        out.push((0x80 + c % 0x40) as u8);
        proof {
            assert(out@ =~= utf8_enc(c as int));
        }
    } else {
        out.push((0xf0 + c / 0x40000) as u8);
        out.push((0x80 + (c / 0x1000) % 0x40) as u8);
        out.push((0x80 + (c / 0x40) % 0x40) as u8);
        out.push((0x80 + c % 0x40) as u8);
        proof {
            assert(out@ =~= utf8_enc(c as int));
        }
    }
    out
}

/// The built-in named entities: a small core set (`amp`, `lt`, `gt`,
/// `quot`, `apos`, `nbsp`, `copy`).  A full entity database is out of
/// scope; unknown names simply do not match.
pub open spec fn named_entity(name: Seq<u8>) -> Option<Seq<u8>> {
    if name == seq![0x61u8, 0x6du8, 0x70u8] {
        Some(seq![0x26u8])
    } else if name == seq![0x6cu8, 0x74u8] {
        Some(seq![0x3cu8])
    } else if name == seq![0x67u8, 0x74u8] {
        Some(seq![0x3eu8])
    } else if name == seq![0x71u8, 0x75u8, 0x6fu8, 0x74u8] {
        Some(seq![0x22u8])
    } else if name == seq![0x61u8, 0x70u8, 0x6fu8, 0x73u8] {
        Some(seq![0x27u8])
    } else if name == seq![0x6eu8, 0x62u8, 0x73u8, 0x70u8] {
        Some(seq![0xc2u8, 0xa0u8])
    } else if name == seq![0x63u8, 0x6fu8, 0x70u8, 0x79u8] {
        Some(seq![0xc2u8, 0xa9u8])
    } else {
        None
    }
}

/// A decoded entity reference starting at `i`: `Some((length, bytes))`
/// when `s[i..]` begins with a well-formed reference, else `None`.
///
/// Numeric forms are `&#` + 1..=7 decimal digits + `;` and `&#x`/`&#X` +
/// 1..=6 hex digits + `;`; the digit run must end exactly at the `;`.
/// The named form is `&` + letter + 1..=31 letters or digits + `;`,
/// resolved through the built-in table.
pub open spec fn entity_at(s: Seq<u8>, i: int) -> Option<(int, Seq<u8>)> {
    if !(0 <= i < s.len() && s[i] == 0x26) {
        None
    } else if i + 1 < s.len() && s[i + 1] == 0x23 {
        if i + 2 < s.len() && (s[i + 2] == 0x78 || s[i + 2] == 0x58) {
            let r = hex_run(s, i + 3);
            if 1 <= r <= 6 && i + 3 + r < s.len() && s[i + 3 + r] == 0x3b {
                Some((r + 4, entity_code_bytes(hex_val(s, i + 3, i + 3 + r))))
            } else {
                None
            }
        } else {
            let r = dec_run(s, i + 2);
            if 1 <= r <= 7 && i + 2 + r < s.len() && s[i + 2 + r] == 0x3b {
                Some((r + 3, entity_code_bytes(dec_val(s, i + 2, i + 2 + r))))
            } else {
                None
            }
        }
    } else {
        if i + 1 < s.len() && is_alpha(s[i + 1]) {
            let r = alnum_run(s, i + 2);
            if 1 <= r <= 31 && i + 2 + r < s.len() && s[i + 2 + r] == 0x3b {
                match named_entity(s.subrange(i + 1, i + 2 + r)) {
                    Some(d) => Some((r + 3, d)),
                    None => None,
                }
            } else {
                None
            }
        } else {
            None
        }
    }
}

/// The bytes a numeric reference decodes to: the code point itself when
/// acceptable, U+FFFD otherwise.
pub open spec fn entity_code_bytes(c: int) -> Seq<u8> {
    if valid_entity_code(c) {
        utf8_enc(c)
    } else {
        utf8_enc(0xfffd)
    }
}

pub fn exec_is_dec_digit(b: u8) -> (r: bool)
    ensures
        r == is_dec_digit(b),
{
    0x30 <= b && b <= 0x39
}

pub fn exec_is_hex_digit(b: u8) -> (r: bool)
    ensures
        r == is_hex_digit(b),
{
    exec_is_dec_digit(b) || (0x41 <= b && b <= 0x46) || (0x61 <= b && b <= 0x66)
}

pub fn exec_is_alpha(b: u8) -> (r: bool)
    ensures
        r == is_alpha(b),
{
    (0x41 <= b && b <= 0x5a) || (0x61 <= b && b <= 0x7a)
}

pub fn exec_is_alnum(b: u8) -> (r: bool)
    ensures
        r == is_alnum(b),
{
    exec_is_alpha(b) || exec_is_dec_digit(b)
}

pub fn exec_is_ascii_punct(b: u8) -> (r: bool)
    ensures
        r == is_ascii_punct(b),
{
    (0x21 <= b && b <= 0x2f) || (0x3a <= b && b <= 0x40) || (0x5b <= b && b <= 0x60) || (0x7b <= b
        && b <= 0x7e)
}

pub fn exec_hex_digit_val(b: u8) -> (v: u8)
    requires
        is_hex_digit(b),
    ensures
        v == hex_digit_val(b),
{
    if 0x30 <= b && b <= 0x39 {
        b - 0x30
    } else if 0x41 <= b && b <= 0x46 {
        b - 0x41 + 10
    } else {
        b - 0x61 + 10
    }
}

/// Looks a name up in the built-in entity table.
pub fn named_entity_lookup(name: &[u8]) -> (r: Option<Vec<u8>>)
    ensures
        match r {
            Some(d) => named_entity(name@) == Some(d@),
            None => named_entity(name@) is None,
        },
{
    if name.len() == 3 && name[0] == 0x61 && name[1] == 0x6d && name[2] == 0x70 {
        proof {
            assert(name@ =~= seq![0x61u8, 0x6du8, 0x70u8]);
        }
        Some(vec![0x26u8])
    } else if name.len() == 2 && name[0] == 0x6c && name[1] == 0x74 {
        proof {
            assert(name@ =~= seq![0x6cu8, 0x74u8]);
        }
        Some(vec![0x3cu8])
    } else if name.len() == 2 && name[0] == 0x67 && name[1] == 0x74 {
        proof {
            assert(name@ =~= seq![0x67u8, 0x74u8]);
        }
        Some(vec![0x3eu8])
    } else if name.len() == 4 && name[0] == 0x71 && name[1] == 0x75 && name[2] == 0x6f && name[3]
        == 0x74 {
        proof {
            assert(name@ =~= seq![0x71u8, 0x75u8, 0x6fu8, 0x74u8]);
        }
        Some(vec![0x22u8])
    } else if name.len() == 4 && name[0] == 0x61 && name[1] == 0x70 && name[2] == 0x6f && name[3]
        == 0x73 {
        proof {
            assert(name@ =~= seq![0x61u8, 0x70u8, 0x6fu8, 0x73u8]);
        }
        Some(vec![0x27u8])
    } else if name.len() == 4 && name[0] == 0x6e && name[1] == 0x62 && name[2] == 0x73 && name[3]
        == 0x70 {
        proof {
            assert(name@ =~= seq![0x6eu8, 0x62u8, 0x73u8, 0x70u8]);
        }
        Some(vec![0xc2u8, 0xa0u8])
    } else if name.len() == 4 && name[0] == 0x63 && name[1] == 0x6f && name[2] == 0x70 && name[3]
        == 0x79 {
        proof {
            assert(name@ =~= seq![0x63u8, 0x6fu8, 0x70u8, 0x79u8]);
        }
        Some(vec![0xc2u8, 0xa9u8])
    } else {
        proof {
            assert(name@ != seq![0x61u8, 0x6du8, 0x70u8]);
            assert(name@ != seq![0x6cu8, 0x74u8]);
            assert(name@ != seq![0x67u8, 0x74u8]);
            assert(name@ != seq![0x71u8, 0x75u8, 0x6fu8, 0x74u8]);
            assert(name@ != seq![0x61u8, 0x70u8, 0x6fu8, 0x73u8]);
            assert(name@ != seq![0x6eu8, 0x62u8, 0x73u8, 0x70u8]);
            assert(name@ != seq![0x63u8, 0x6fu8, 0x70u8, 0x79u8]);
        }
        None
    }
}

/// Decodes the entity reference starting at `i`, if any.
pub fn entity_decode_at(s: &[u8], i: usize) -> (r: Option<(usize, Vec<u8>)>)
    ensures
        match r {
            Some(p) => entity_at(s@, i as int) == Some((p.0 as int, p.1@)) && 1 <= p.0 && i + p.0
                <= s@.len(),
            None => entity_at(s@, i as int) is None,
        },
{
    if i >= s.len() || s[i] != 0x26 {
        return None;
    }
    if i + 1 < s.len() && s[i + 1] == 0x23 {
        if i + 2 < s.len() && (s[i + 2] == 0x78 || s[i + 2] == 0x58) {
            // hex form
            let mut j: usize = i + 3;
            let mut v: u32 = 0;
            while j < s.len() && exec_is_hex_digit(s[j]) && j - (i + 3) < 6
                invariant
                    i + 3 <= j <= s@.len(),
                    j - (i + 3) <= 6,
                    forall|k: int| i + 3 <= k < j ==> is_hex_digit(#[trigger] s@[k]),
                    v == hex_val(s@, i + 3, j as int),
                    j - (i + 3) <= 5 ==> v <= 0xfffff,
                    j - (i + 3) <= 4 ==> v <= 0xffff,
                    j - (i + 3) <= 3 ==> v <= 0xfff,
                    j - (i + 3) <= 2 ==> v <= 0xff,
                    j - (i + 3) <= 1 ==> v <= 0xf,
                    j == i + 3 ==> v == 0,
                    v <= 0xffffff,
                decreases s@.len() - j,
            {
                let d = exec_hex_digit_val(s[j]);
                v = v * 16 + (d as u32);
                j = j + 1;
            }
            proof {
                lemma_hex_run_split(s@, i + 3, j as int);
            }
            if j < s.len() && exec_is_hex_digit(s[j]) {
                // a seventh hex digit: the reference is too long
                proof {
                    lemma_runs_nonneg(s@, j + 1);
                    assert(hex_run(s@, j as int) >= 1);
                    assert(hex_run(s@, i + 3) >= 7);
                }
                return None;
            }
            proof {
                assert(hex_run(s@, j as int) == 0);
                assert(hex_run(s@, i + 3) == j - (i + 3));
            }
            let r = j - (i + 3);
            if r >= 1 && j < s.len() && s[j] == 0x3b {
                let bytes = if exec_valid_entity_code(v) {
                    utf8_encode(v)
                } else {
                    utf8_encode(0xfffd)
                };
                Some((r + 4, bytes))
            } else {
                None
            }
        } else {
            // decimal form
            let mut j: usize = i + 2;
            let mut v: u32 = 0;
            while j < s.len() && exec_is_dec_digit(s[j]) && j - (i + 2) < 7
                invariant
                    i + 2 <= j <= s@.len(),
                    j - (i + 2) <= 7,
                    forall|k: int| i + 2 <= k < j ==> is_dec_digit(#[trigger] s@[k]),
                    v == dec_val(s@, i + 2, j as int),
                    j - (i + 2) <= 6 ==> v <= 999999,
                    j - (i + 2) <= 5 ==> v <= 99999,
                    j - (i + 2) <= 4 ==> v <= 9999,
                    j - (i + 2) <= 3 ==> v <= 999,
                    j - (i + 2) <= 2 ==> v <= 99,
                    j - (i + 2) <= 1 ==> v <= 9,
                    j == i + 2 ==> v == 0,
                    v <= 9999999,
                decreases s@.len() - j,
            {
                let d = s[j] - 0x30;
                v = v * 10 + (d as u32);
                j = j + 1;
            }
            proof {
                lemma_dec_run_split(s@, i + 2, j as int);
            }
            if j < s.len() && exec_is_dec_digit(s[j]) {
                proof {
                    lemma_runs_nonneg(s@, j + 1);
                    assert(dec_run(s@, j as int) >= 1);
                    assert(dec_run(s@, i + 2) >= 8);
                }
                return None;
            }
            proof {
                assert(dec_run(s@, j as int) == 0);
                assert(dec_run(s@, i + 2) == j - (i + 2));
            }
            let r = j - (i + 2);
            if r >= 1 && j < s.len() && s[j] == 0x3b {
                let bytes = if exec_valid_entity_code(v) {
                    utf8_encode(v)
                } else {
                    utf8_encode(0xfffd)
                };
                Some((r + 3, bytes))
            } else {
                None
            }
        }
    } else {
        if i + 1 < s.len() && exec_is_alpha(s[i + 1]) {
            let mut j: usize = i + 2;
            while j < s.len() && exec_is_alnum(s[j]) && j - (i + 2) < 31
                invariant
                    i + 2 <= j <= s@.len(),
                    j - (i + 2) <= 31,
                    forall|k: int| i + 2 <= k < j ==> is_alnum(#[trigger] s@[k]),
                decreases s@.len() - j,
            {
                j = j + 1;
            }
            proof {
                lemma_alnum_run_split(s@, i + 2, j as int);
            }
            if j < s.len() && exec_is_alnum(s[j]) {
                proof {
                    lemma_runs_nonneg(s@, j + 1);
                    assert(alnum_run(s@, j as int) >= 1);
                    assert(alnum_run(s@, i + 2) >= 32);
                }
                return None;
            }
            proof {
                assert(alnum_run(s@, j as int) == 0);
                assert(alnum_run(s@, i + 2) == j - (i + 2));
            }
            let r = j - (i + 2);
            if r >= 1 && j < s.len() && s[j] == 0x3b {
                let name = vstd::slice::slice_subrange(s, i + 1, j);
                match named_entity_lookup(name) {
                    Some(d) => Some((r + 3, d)),
                    None => None,
                }
            } else {
                None
            }
        } else {
            None
        }
    }
}

pub fn exec_valid_entity_code(c: u32) -> (r: bool)
    ensures
        r == valid_entity_code(c as int),
{
    !(0xd800 <= c && c <= 0xdfff) && !(0xfdd0 <= c && c <= 0xfdef) && c % 0x10000 != 0xfffe && c
        % 0x10000 != 0xffff && !(c <= 0x08) && c != 0x0b && !(0x0e <= c && c <= 0x1f) && !(0x7f <= c
        && c <= 0x9f) && c <= 0x10ffff
}

/// Digit runs are never negative.
pub proof fn lemma_runs_nonneg(s: Seq<u8>, a: int)
    ensures
        hex_run(s, a) >= 0,
        dec_run(s, a) >= 0,
        alnum_run(s, a) >= 0,
    decreases s.len() - a,
{
    if 0 <= a < s.len() {
        lemma_runs_nonneg(s, a + 1);
    }
}

/// A scanned stretch of hex digits splits off the front of the run.
pub proof fn lemma_hex_run_split(s: Seq<u8>, a: int, j: int)
    requires
        0 <= a <= j <= s.len(),
        forall|k: int| a <= k < j ==> is_hex_digit(#[trigger] s[k]),
    ensures
        hex_run(s, a) == (j - a) + hex_run(s, j),
    decreases j - a,
{
    if a < j {
        lemma_hex_run_split(s, a + 1, j);
    }
}

/// A scanned stretch of decimal digits splits off the front of the run.
pub proof fn lemma_dec_run_split(s: Seq<u8>, a: int, j: int)
    requires
        0 <= a <= j <= s.len(),
        forall|k: int| a <= k < j ==> is_dec_digit(#[trigger] s[k]),
    ensures
        dec_run(s, a) == (j - a) + dec_run(s, j),
    decreases j - a,
{
    if a < j {
        lemma_dec_run_split(s, a + 1, j);
    }
}

/// A scanned stretch of letters and digits splits off the front of the run.
pub proof fn lemma_alnum_run_split(s: Seq<u8>, a: int, j: int)
    requires
        0 <= a <= j <= s.len(),
        forall|k: int| a <= k < j ==> is_alnum(#[trigger] s[k]),
    ensures
        alnum_run(s, a) == (j - a) + alnum_run(s, j),
    decreases j - a,
{
    if a < j {
        lemma_alnum_run_split(s, a + 1, j);
    }
}

/// Decoded form of `s[i..]`: backslash-escaped ASCII punctuation loses the
/// backslash, entity references are decoded, and everything else is copied.
pub open spec fn unescape_from(s: Seq<u8>, i: int) -> Seq<u8>
    decreases s.len() - i,
{
    if i < 0 || i >= s.len() {
        Seq::empty()
    } else if s[i] == 0x5c && i + 1 < s.len() && is_ascii_punct(s[i + 1]) {
        seq![s[i + 1]] + unescape_from(s, i + 2)
    } else {
        match entity_at(s, i) {
            Some(p) => if 1 <= p.0 && i + p.0 <= s.len() {
                p.1 + unescape_from(s, i + p.0)
            } else {
                seq![s[i]] + unescape_from(s, i + 1)
            },
            None => seq![s[i]] + unescape_from(s, i + 1),
        }
    }
}

/// The decoded form of a whole slice.
pub open spec fn unescape(s: Seq<u8>) -> Seq<u8> {
    unescape_from(s, 0)
}

/// Decodes backslash escapes and entity references.
pub fn unescape_all(s: &[u8]) -> (out: Vec<u8>)
    ensures
        out@ == unescape(s@),
{
    let mut out: Vec<u8> = Vec::new();
    let mut i: usize = 0;
    proof {
        assert(out@ + unescape_from(s@, 0) =~= unescape_from(s@, 0));
    }
    while i < s.len()
        invariant
            i <= s@.len(),
            unescape(s@) == out@ + unescape_from(s@, i as int),
        decreases s@.len() - i,
    {
        let ghost out0 = out@;
        let ghost i0 = i as int;
        if s[i] == 0x5c && i + 1 < s.len() && exec_is_ascii_punct(s[i + 1]) {
            out.push(s[i + 1]);
            i = i + 2;
            proof {
                assert(unescape_from(s@, i0) == seq![s@[i0 + 1]] + unescape_from(s@, i0 + 2));
                assert(out@ =~= out0 + seq![s@[i0 + 1]]);
                assert(unescape(s@) =~= out@ + unescape_from(s@, i as int));
            }
        } else {
            let ent = entity_decode_at(s, i);
            match ent {
                Some(p) => {
                    let (l, d) = p;
                    let mut k: usize = 0;
                    while k < d.len()
                        invariant
                            k <= d@.len(),
                            out@ == out0 + d@.subrange(0, k as int),
                        decreases d@.len() - k,
                    {
                        out.push(d[k]);
                        k = k + 1;
                        proof {
                            assert(out@ =~= out0 + d@.subrange(0, k as int));
                        }
                    }
                    i = i + l;
                    proof {
                        assert(d@.subrange(0, d@.len() as int) =~= d@);
                        assert(unescape_from(s@, i0) == d@ + unescape_from(s@, i as int));
                        assert(unescape(s@) =~= out@ + unescape_from(s@, i as int));
                    }
                },
                None => {
                    out.push(s[i]);
                    i = i + 1;
                    proof {
                        assert(s@[i0] != 0x5c || !(i0 + 1 < s@.len() && is_ascii_punct(
                            s@[i0 + 1],
                        )));
                        assert(unescape_from(s@, i0) == seq![s@[i0]] + unescape_from(
                            s@,
                            i0 + 1,
                        ));
                        assert(out@ =~= out0 + seq![s@[i0]]);
                        assert(unescape(s@) =~= out@ + unescape_from(s@, i as int));
                    }
                },
            }
        }
    }
    proof {
        assert(unescape_from(s@, i as int) =~= Seq::<u8>::empty());
        assert(out@ + Seq::<u8>::empty() =~= out@);
    }
    out
}

/// Two byte slices hold the same bytes.
pub fn slice_eq(a: &[u8], b: &[u8]) -> (r: bool)
    ensures
        r <==> a@ == b@,
{
    if a.len() != b.len() {
        proof {
            assert(a@.len() != b@.len());
        }
        return false;
    }
    let mut i: usize = 0;
    while i < a.len()
        invariant
            i <= a@.len(),
            a@.len() == b@.len(),
            forall|j: int| 0 <= j < i ==> a@[j] == b@[j],
        decreases a@.len() - i,
    {
        if a[i] != b[i] {
            return false;
        }
        i = i + 1;
    }
    proof {
        assert(a@ =~= b@);
    }
    true
}

} // verus!
