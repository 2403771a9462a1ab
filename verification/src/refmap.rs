//! The document-wide reference map: `label -> (destination, title)`
//! definitions collected by the block phase and read-only during inline
//! scanning.  Keys are normalized: Unicode-lowercased (std's
//! approximation of a case fold), runs of whitespace collapsed to one
//! space, and ends trimmed.

use vstd::prelude::*;
use crate::util::slice_eq;

verus! {

/// One reference definition.
pub struct ReferenceEntry {
    pub destination: Vec<u8>,
    pub title: Option<Vec<u8>>,
}

/// The map itself: an association list with first-match lookup; a second
/// definition of the same normalized label never replaces the first.
pub struct ReferenceMap {
    pub entries: Vec<(Vec<u8>, ReferenceEntry)>,
}

pub open spec fn is_space_byte(b: u8) -> bool {
    b == 0x20 || b == 0x09 || b == 0x0a || b == 0x0d
}

/// The Unicode-lowercased form of the label bytes (decoded lossily as
/// UTF-8).  This is std's approximation of a case fold: labels differing
/// only where folding and lowercasing disagree (the sharp-s class, for
/// one) stay distinct.  The result is a function of the bytes alone.
pub uninterp spec fn fold_of(s: Seq<u8>) -> Seq<u8>;

/// Relies on str::to_lowercase: Unicode lowercasing of the label, decoded
/// lossily from UTF-8 and re-encoded; the name `fold_of` covers the whole
/// decode-fold-encode step, which depends on the input bytes alone.
#[verifier::external_body]
fn unicode_fold(v: &[u8]) -> (r: Vec<u8>)
    ensures
        r@ == fold_of(v@),
        v@.len() == 0 ==> r@.len() == 0,
{
    String::from_utf8_lossy(v).to_lowercase().into_bytes()
}

/// Whitespace-collapse automaton over already folded bytes: `emitted`
/// records whether a word was written, `pending` whether whitespace was
/// seen since the last word.
pub open spec fn norm_lab(s: Seq<u8>, i: int, emitted: bool, pending: bool) -> Seq<u8>
    decreases s.len() - i,
{
    if i < 0 || i >= s.len() {
        Seq::empty()
    } else if is_space_byte(s[i]) {
        norm_lab(s, i + 1, emitted, true)
    } else {
        (if emitted && pending {
            seq![0x20u8]
        } else {
            Seq::empty()
        }) + seq![s[i]] + norm_lab(s, i + 1, true, false)
    }
}

/// The normalized form of a label: Unicode lowercasing, then runs of
/// whitespace collapsed to one space and the ends trimmed.
pub open spec fn normalize_label_spec(s: Seq<u8>) -> Seq<u8> {
    norm_lab(fold_of(s), 0, false, false)
}

/// Normalizes a label key.
pub fn normalize_label(s: &[u8]) -> (out: Vec<u8>)
    ensures
        out@ == normalize_label_spec(s@),
{
    let folded = unicode_fold(s);
    let ghost f = folded@;
    let mut out: Vec<u8> = Vec::new();
    let mut i: usize = 0;
    let mut emitted = false;
    let mut pending = false;
    proof {
        assert(out@ + norm_lab(f, 0, false, false) =~= norm_lab(f, 0, false, false));
    }
    while i < folded.len()
        invariant
            i <= f.len(),
            f == folded@,
            normalize_label_spec(s@) == out@ + norm_lab(f, i as int, emitted, pending),
        decreases f.len() - i,
    {
        let ghost out0 = out@;
        let b = folded[i];
        if b == 0x20 || b == 0x09 || b == 0x0a || b == 0x0d {
            pending = true;
            i = i + 1;
        } else {
            if emitted && pending {
                out.push(0x20);
            }
            out.push(b);
            emitted = true;
            pending = false;
            i = i + 1;
            proof {
                if out@.len() >= 2 && out@[out@.len() - 2] == 0x20 && out0.len() + 2 == out@.len() {
                    assert(out@ =~= out0 + seq![0x20u8] + seq![f[i - 1]]);
                } else {
                    assert(out@ =~= out0 + seq![f[i - 1]]);
                }
            }
        }
        proof {
            assert(normalize_label_spec(s@) =~= out@ + norm_lab(f, i as int, emitted, pending));
        }
    }
    proof {
        assert(norm_lab(f, i as int, emitted, pending) =~= Seq::<u8>::empty());
        assert(out@ + Seq::<u8>::empty() =~= out@);
    }
    out
}

/// View of an entry: destination bytes and optional title bytes.
pub open spec fn entry_view(e: ReferenceEntry) -> (Seq<u8>, Option<Seq<u8>>) {
    (
        e.destination@,
        match e.title {
            Some(t) => Some(t@),
            None => None,
        },
    )
}

/// First-match association lookup over the entry list, from index `k`.
pub open spec fn assoc_from(
    es: Seq<(Vec<u8>, ReferenceEntry)>,
    key: Seq<u8>,
    k: int,
) -> Option<(Seq<u8>, Option<Seq<u8>>)>
    decreases es.len() - k,
{
    if k < 0 || k >= es.len() {
        None
    } else if es[k].0@ == key {
        Some(entry_view(es[k].1))
    } else {
        assoc_from(es, key, k + 1)
    }
}

/// Copies a byte vector.
pub fn copy_bytes(v: &Vec<u8>) -> (out: Vec<u8>)
    ensures
        out@ == v@,
{
    vstd::slice::slice_to_vec(v.as_slice())
}

impl ReferenceMap {
    /// What the map associates with an (already normalized) key.
    pub open spec fn get_view(self, key: Seq<u8>) -> Option<(Seq<u8>, Option<Seq<u8>>)> {
        assoc_from(self.entries@, key, 0)
    }

    /// An empty reference map.
    pub fn new() -> (m: ReferenceMap)
        ensures
            forall|key: Seq<u8>| m.get_view(key) is None,
    {
        ReferenceMap { entries: Vec::new() }
    }

    /// Records a definition under the normalized form of `label`; the
    /// first definition of a label wins and later ones are ignored.
    pub fn insert(&mut self, label: &[u8], destination: Vec<u8>, title: Option<Vec<u8>>)
        ensures
            ({
                let key = normalize_label_spec(label@);
                let dv = destination@;
                let tv = match title {
                    Some(t) => Some(t@),
                    None => None,
                };
                &&& (old(self).get_view(key) is None ==> final(self).get_view(key) == Some(
                    (dv, tv),
                ))
                &&& (old(self).get_view(key) is Some ==> final(self).get_view(key) == old(
                    self,
                ).get_view(key))
                &&& forall|k2: Seq<u8>|
                    k2 != key ==> final(self).get_view(k2) == old(self).get_view(k2)
            }),
    {
        let key = normalize_label(label);
        let existing = self.lookup(key.as_slice());
        let absent = match existing {
            None => true,
            Some(_) => false,
        };
        if absent {
            let ghost es0 = self.entries@;
            let entry = ReferenceEntry { destination, title };
            let ghost ev = entry_view(entry);
            self.entries.push((key, entry));
            proof {
                let keyv = normalize_label_spec(label@);
                assert forall|k2: Seq<u8>| true implies assoc_from(self.entries@, k2, 0) == (
                if k2 == keyv {
                    Some(ev)
                } else {
                    assoc_from(es0, k2, 0)
                }) by {
                    lemma_assoc_push(es0, self.entries@[es0.len() as int], k2, 0);
                }
            }
        }
    }

    /// Looks up an already-normalized key.
    pub fn lookup(&self, key: &[u8]) -> (r: Option<ReferenceEntry>)
        ensures
            match r {
                Some(e) => self.get_view(key@) == Some(entry_view(e)),
                None => self.get_view(key@) is None,
            },
    {
        let mut k: usize = 0;
        while k < self.entries.len()
            invariant
                k <= self.entries@.len(),
                assoc_from(self.entries@, key@, 0) == assoc_from(self.entries@, key@, k as int),
            decreases self.entries@.len() - k,
        {
            if slice_eq(self.entries[k].0.as_slice(), key) {
                let dest = copy_bytes(&self.entries[k].1.destination);
                let title = match &self.entries[k].1.title {
                    Some(t) => Some(copy_bytes(t)),
                    None => None,
                };
                return Some(ReferenceEntry { destination: dest, title });
            }
            k = k + 1;
        }
        None
    }

    /// Looks a label up, normalizing it first.
    pub fn get(&self, label: &[u8]) -> (r: Option<ReferenceEntry>)
        ensures
            match r {
                Some(e) => self.get_view(normalize_label_spec(label@)) == Some(entry_view(e)),
                None => self.get_view(normalize_label_spec(label@)) is None,
            },
    {
        let key = normalize_label(label);
        self.lookup(key.as_slice())
    }
}

/// Appending an entry only affects lookups of its own key, and only when
/// that key was absent.
pub proof fn lemma_assoc_push(
    es: Seq<(Vec<u8>, ReferenceEntry)>,
    p: (Vec<u8>, ReferenceEntry),
    key: Seq<u8>,
    k: int,
)
    requires
        0 <= k <= es.len(),
    ensures
        assoc_from(es.push(p), key, k) == (match assoc_from(es, key, k) {
            Some(v) => Some(v),
            None => if p.0@ == key {
                Some(entry_view(p.1))
            } else {
                None
            },
        }),
    decreases es.len() - k,
{
    if k < es.len() {
        assert(es.push(p)[k] == es[k]);
        lemma_assoc_push(es, p, key, k + 1);
    } else {
        assert(es.push(p)[k] == p);
        assert(assoc_from(es.push(p), key, k + 1) is None);
        assert(assoc_from(es, key, k) is None);
    }
}

/// The label a reference form resolves through: the second label
/// (`[label2]`) when present and non-empty, else the primary one; the
/// result is that label's entry in the map.
pub open spec fn resolve_spec(
    m: ReferenceMap,
    primary: Seq<u8>,
    second: Option<Seq<u8>>,
) -> Option<(Seq<u8>, Option<Seq<u8>>)> {
    let key = match second {
        Some(s) => if s.len() > 0 {
            normalize_label_spec(s)
        } else {
            normalize_label_spec(primary)
        },
        None => normalize_label_spec(primary),
    };
    m.get_view(key)
}

/// Resolves a reference-form link: the effective label is the second
/// (`[label2]`) when present and non-empty, else the primary.
pub fn resolve_reference(refs: &ReferenceMap, primary: &[u8], second: Option<&[u8]>) -> (r: Option<
    ReferenceEntry,
>)
    ensures
        ({
            let sv = match second {
                Some(s) => Some(s@),
                None => None,
            };
            match r {
                Some(e) => resolve_spec(*refs, primary@, sv) == Some(entry_view(e)),
                None => resolve_spec(*refs, primary@, sv) is None,
            }
        }),
{
    match second {
        Some(s) => if s.len() > 0 {
            refs.get(s)
        } else {
            refs.get(primary)
        },
        None => refs.get(primary),
    }
}

} // verus!
