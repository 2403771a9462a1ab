//! Source positions: translating a content-local byte offset to a
//! document-global one through the block phase's
//! `(local_offset, global_offset)` mapping.

use vstd::prelude::*;

verus! {

/// Walks the mapping in order; the last entry whose local offset is not
/// above `local` decides, adding the distance past that entry.  With no
/// applicable entry the offset is kept as it is.
pub open spec fn map_pos_from(m: Seq<(usize, usize)>, local: int, k: int, cur: int) -> int
    decreases m.len() - k,
{
    if k < 0 || k >= m.len() {
        cur
    } else if m[k].0 <= local {
        map_pos_from(m, local, k + 1, m[k].1 + local - m[k].0)
    } else {
        cur
    }
}

/// The document offset for a content-local offset.
pub open spec fn map_pos_spec(m: Seq<(usize, usize)>, local: int) -> int {
    map_pos_from(m, local, 0, local)
}

/// Translates a content-local offset through the mapping.
pub fn map_pos(mapping: &Vec<(usize, usize)>, local: usize) -> (r: usize)
    requires
        forall|k: int|
            0 <= k < mapping@.len() ==> (#[trigger] mapping@[k]).1 + local < usize::MAX,
    ensures
        r == map_pos_spec(mapping@, local as int),
{
    let mut cur: usize = local;
    let mut k: usize = 0;
    while k < mapping.len()
        invariant
            k <= mapping@.len(),
            forall|t: int|
                0 <= t < mapping@.len() ==> (#[trigger] mapping@[t]).1 + local < usize::MAX,
            map_pos_spec(mapping@, local as int) == map_pos_from(
                mapping@,
                local as int,
                k as int,
                cur as int,
            ),
        decreases mapping@.len() - k,
    {
        let (lo, go) = mapping[k];
        if lo <= local {
            cur = go + (local - lo);
        } else {
            return cur;
        }
        k = k + 1;
    }
    cur
}

} // verus!
