//! Input normalization performed before any parsing: line endings are
//! unified (`\r\n` and bare `\r` become `\n`) and NUL bytes are replaced
//! with U+FFFD (the bytes `EF BF BD`).  Normalization is idempotent.

use vstd::prelude::*;

verus! {

/// The normalized form of `s`: `\r\n -> \n`, `\r -> \n`, `\0 -> U+FFFD`.
pub open spec fn norm_spec(s: Seq<u8>) -> Seq<u8>
    decreases s.len(),
{
    if s.len() == 0 {
        Seq::empty()
    } else if s[0] == 0x0d {
        if s.len() >= 2 && s[1] == 0x0a {
            seq![0x0au8] + norm_spec(s.subrange(2, s.len() as int))
        } else {
            seq![0x0au8] + norm_spec(s.subrange(1, s.len() as int))
        }
    } else if s[0] == 0x00 {
        seq![0xefu8, 0xbfu8, 0xbdu8] + norm_spec(s.subrange(1, s.len() as int))
    } else {
        seq![s[0]] + norm_spec(s.subrange(1, s.len() as int))
    }
}

/// Rewrites line endings and NUL bytes as the parser expects them.
pub fn normalize_text(src: &[u8]) -> (out: Vec<u8>)
    ensures
        out@ == norm_spec(src@),
{
    let mut out: Vec<u8> = Vec::new();
    let mut i: usize = 0;
    proof {
        assert(src@.subrange(0, src@.len() as int) =~= src@);
        assert(out@ + norm_spec(src@) =~= norm_spec(src@));
    }
    while i < src.len()
        invariant
            i <= src@.len(),
            norm_spec(src@) == out@ + norm_spec(src@.subrange(i as int, src@.len() as int)),
        decreases src@.len() - i,
    {
        let b = src[i];
        let ghost i0 = i as int;
        let ghost out0 = out@;
        let ghost t = src@.subrange(i as int, src@.len() as int);
        proof {
            assert(t[0] == src@[i0]);
            assert(t.subrange(1, t.len() as int) =~= src@.subrange(
                i0 + 1,
                src@.len() as int,
            ));
            if t.len() >= 2 {
                assert(t[1] == src@[i0 + 1]);
                assert(t.subrange(2, t.len() as int) =~= src@.subrange(
                    i0 + 2,
                    src@.len() as int,
                ));
            }
        }
        if b == 0x0d {
            out.push(0x0a);
            if i + 1 < src.len() && src[i + 1] == 0x0a {
                i = i + 2;
                proof {
                    assert(norm_spec(t) == seq![0x0au8] + norm_spec(
                        src@.subrange(i as int, src@.len() as int),
                    ));
                }
            } else {
                i = i + 1;
                proof {
                    assert(norm_spec(t) == seq![0x0au8] + norm_spec(
                        src@.subrange(i as int, src@.len() as int),
                    ));
                }
            }
            proof {
                assert(out@ =~= out0 + seq![0x0au8]);
            }
        } else if b == 0x00 {
            out.push(0xef);
            out.push(0xbf);
            out.push(0xbd);
            i = i + 1;
            proof {
                assert(norm_spec(t) == seq![0xefu8, 0xbfu8, 0xbdu8] + norm_spec(
                    src@.subrange(i as int, src@.len() as int),
                ));
                assert(out@ =~= out0 + seq![0xefu8, 0xbfu8, 0xbdu8]);
            }
        } else {
            out.push(b);
            i = i + 1;
            proof {
                assert(norm_spec(t) == seq![b] + norm_spec(
                    src@.subrange(i as int, src@.len() as int),
                ));
                assert(out@ =~= out0 + seq![b]);
            }
        }
        proof {
            assert(norm_spec(src@) =~= out@ + norm_spec(
                src@.subrange(i as int, src@.len() as int),
            ));
        }
    }
    proof {
        assert(src@.subrange(i as int, src@.len() as int) =~= Seq::<u8>::empty());
        assert(out@ + Seq::<u8>::empty() =~= out@);
    }
    out
}

/// Normalized text contains no carriage return and no NUL byte.
pub proof fn lemma_norm_no_specials(s: Seq<u8>)
    ensures
        forall|j: int|
            0 <= j < norm_spec(s).len() ==> #[trigger] norm_spec(s)[j] != 0x0d && norm_spec(s)[j]
                != 0x00,
    decreases s.len(),
{
    if s.len() == 0 {
    } else if s[0] == 0x0d {
        if s.len() >= 2 && s[1] == 0x0a {
            let rest = s.subrange(2, s.len() as int);
            lemma_norm_no_specials(rest);
            assert(norm_spec(s) == seq![0x0au8] + norm_spec(rest));
            assert forall|j: int| 0 <= j < norm_spec(s).len() implies norm_spec(s)[j] != 0x0d
                && norm_spec(s)[j] != 0x00 by {
                if j >= 1 {
                    assert(norm_spec(s)[j] == norm_spec(rest)[j - 1]);
                }
            }
        } else {
            let rest = s.subrange(1, s.len() as int);
            lemma_norm_no_specials(rest);
            assert(norm_spec(s) == seq![0x0au8] + norm_spec(rest));
            assert forall|j: int| 0 <= j < norm_spec(s).len() implies norm_spec(s)[j] != 0x0d
                && norm_spec(s)[j] != 0x00 by {
                if j >= 1 {
                    assert(norm_spec(s)[j] == norm_spec(rest)[j - 1]);
                }
            }
        }
    } else if s[0] == 0x00 {
        let rest = s.subrange(1, s.len() as int);
        lemma_norm_no_specials(rest);
        assert(norm_spec(s) == seq![0xefu8, 0xbfu8, 0xbdu8] + norm_spec(rest));
        assert forall|j: int| 0 <= j < norm_spec(s).len() implies norm_spec(s)[j] != 0x0d
            && norm_spec(s)[j] != 0x00 by {
            if j >= 3 {
                assert(norm_spec(s)[j] == norm_spec(rest)[j - 3]);
            }
        }
    } else {
        let rest = s.subrange(1, s.len() as int);
        lemma_norm_no_specials(rest);
        assert(norm_spec(s) == seq![s[0]] + norm_spec(rest));
        assert forall|j: int| 0 <= j < norm_spec(s).len() implies norm_spec(s)[j] != 0x0d
            && norm_spec(s)[j] != 0x00 by {
            if j >= 1 {
                assert(norm_spec(s)[j] == norm_spec(rest)[j - 1]);
            }
        }
    }
}

/// On text free of carriage returns and NUL bytes, normalization is the
/// identity.
pub proof fn lemma_norm_identity(s: Seq<u8>)
    requires
        forall|j: int| 0 <= j < s.len() ==> #[trigger] s[j] != 0x0d && s[j] != 0x00,
    ensures
        norm_spec(s) == s,
    decreases s.len(),
{
    if s.len() == 0 {
        assert(norm_spec(s) =~= s);
    } else {
        lemma_norm_identity(s.subrange(1, s.len() as int));
        assert(norm_spec(s) =~= s);
    }
}

/// Normalization is idempotent: normalizing twice gives the same bytes as
/// normalizing once.
pub proof fn lemma_normalize_idempotent(s: Seq<u8>)
    ensures
        norm_spec(norm_spec(s)) == norm_spec(s),
{
    lemma_norm_no_specials(s);
    lemma_norm_identity(norm_spec(s));
}

} // verus!
