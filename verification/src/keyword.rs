//! Keyword comparison for CSS identifiers.
//!
//! A keyword matches a name when both have the same length and they are
//! equal once ASCII letters `A`-`Z` are folded to lowercase; no other
//! character is folded.

use vstd::prelude::*;
use crate::atom::ascii_lower;

verus! {

/// Whether `name` matches the keyword `kw`.
pub open spec fn css_kw_match(name: Seq<char>, kw: Seq<char>) -> bool {
    &&& name.len() == kw.len()
    &&& forall|i: int| 0 <= i < name.len() ==> ascii_lower(#[trigger] name[i]) == ascii_lower(kw[i])
}

/// Every name matches itself.
pub proof fn lemma_kw_self(a: Seq<char>)
    ensures
        css_kw_match(a, a),
{
}

/// Two names that differ at `i` once ASCII letters are folded do not match.
pub proof fn lemma_kw_differs_at(a: Seq<char>, b: Seq<char>, i: int)
    requires
        0 <= i < a.len(),
        ascii_lower(a[i]) != ascii_lower(b[i]),
    ensures
        !css_kw_match(a, b),
{
}

/// Whether `name` matches the keyword `kw`.
pub fn css_kw_eq(name: &str, kw: &str) -> (r: bool)
    ensures
        r == css_kw_match(name@, kw@),
{
    let n = crate::text::chars_of(name);
    let k = crate::text::chars_of(kw);
    if n.len() != k.len() {
        return false;
    }
    let mut i: usize = 0;
    while i < n.len()
        invariant
            n@ == name@,
            k@ == kw@,
            n@.len() == k@.len(),
            i <= n@.len(),
            forall|j: int| 0 <= j < i ==> ascii_lower(#[trigger] name@[j]) == ascii_lower(kw@[j]),
        decreases n@.len() - i,
    {
        let c = crate::atom::to_ascii_lower(n[i]);
        let l = crate::atom::to_ascii_lower(k[i]);
        if c != l {
            return false;
        }
        i = i + 1;
    }
    true
}

/// The chunks `(offset, size)` covering `[offset, len)` with sizes 8, 4, 2
/// or 1: the largest that fits the remaining length.
pub open spec fn spec_chunks(offset: nat, len: nat) -> Seq<(usize, usize)>
    decreases len - offset,
{
    if offset >= len {
        Seq::empty()
    } else {
        let rem = len - offset;
        let size: nat = if rem >= 8 {
            8
        } else if rem >= 4 {
            4
        } else if rem >= 2 {
            2
        } else {
            1
        };
        seq![(offset as usize, size as usize)] + spec_chunks(offset + size, len)
    }
}

/// Decomposes a keyword length into `(offset, chunk_size)` pairs using the
/// largest integer width that fits: 8, 4, 2, then 1 bytes.
pub fn int_chunks(len: usize) -> (r: Vec<(usize, usize)>)
    ensures
        r@ == spec_chunks(0, len as nat),
{
    let mut chunks: Vec<(usize, usize)> = Vec::new();
    let mut offset: usize = 0;
    while offset < len
        invariant
            offset <= len,
            spec_chunks(0, len as nat) == chunks@ + spec_chunks(offset as nat, len as nat),
        decreases len - offset,
    {
        let remaining = len - offset;
        let chunk: usize = if remaining >= 8 {
            8
        } else if remaining >= 4 {
            4
        } else if remaining >= 2 {
            2
        } else {
            1
        };
        proof {
            assert(spec_chunks(offset as nat, len as nat) == seq![(offset, chunk)] + spec_chunks(
                (offset + chunk) as nat,
                len as nat,
            ));
        }
        chunks.push((offset, chunk));
        offset = offset + chunk;
        proof {
            assert(spec_chunks(0, len as nat) =~= chunks@ + spec_chunks(offset as nat, len as nat));
        }
    }
    proof {
        assert(chunks@ + spec_chunks(offset as nat, len as nat) =~= chunks@);
    }
    chunks
}


/// The positions below `upto` whose length is `l`, in increasing order.
pub open spec fn positions_of(lens: Seq<usize>, l: usize, upto: int) -> Seq<usize>
    decreases upto,
{
    if upto <= 0 {
        Seq::empty()
    } else if lens[upto - 1] == l {
        positions_of(lens, l, upto - 1).push((upto - 1) as usize)
    } else {
        positions_of(lens, l, upto - 1)
    }
}

/// Some group of `r` is for length `l`.
pub open spec fn has_group(r: Seq<(usize, Vec<usize>)>, l: usize) -> bool {
    exists|g: int| 0 <= g < r.len() && r[g].0 == l
}

/// The dispatch plan of a keyword match: every keyword length once, in
/// increasing order, each with the positions of the keywords of that length
/// in order.
pub open spec fn is_len_plan(lens: Seq<usize>, r: Seq<(usize, Vec<usize>)>) -> bool {
    &&& forall|g: int, h: int| 0 <= g < h < r.len() ==> #[trigger] r[g].0 < #[trigger] r[h].0
    &&& forall|g: int| 0 <= g < r.len() ==> lens.contains(#[trigger] r[g].0)
    &&& forall|i: int| 0 <= i < lens.len() ==> has_group(r, #[trigger] lens[i])
    &&& forall|g: int| 0 <= g < r.len() ==> (#[trigger] r[g]).1@ == positions_of(lens, r[g].0, lens.len() as int)
}

/// Insert `x` into a strictly increasing vector unless present.
fn insert_distinct(v: &mut Vec<usize>, x: usize)
    requires
        forall|a: int, b: int| 0 <= a < b < old(v)@.len() ==> old(v)@[a] < old(v)@[b],
    ensures
        forall|a: int, b: int| 0 <= a < b < final(v)@.len() ==> final(v)@[a] < final(v)@[b],
        forall|y: usize| final(v)@.contains(y) <==> (old(v)@.contains(y) || y == x),
{
    let mut p: usize = 0;
    while p < v.len() && v[p] < x
        invariant
            p <= v@.len(),
            forall|a: int| 0 <= a < p ==> v@[a] < x,
        decreases v@.len() - p,
    {
        p = p + 1;
    }
    if p < v.len() && v[p] == x {
        proof {
            assert(v@.contains(x));
        }
        return;
    }
    let ghost before = v@;
    v.insert(p, x);
    proof {
        assert forall|a: int, b: int| 0 <= a < b < v@.len() implies v@[a] < v@[b] by {
            if b < p {
                assert(v@[a] == before[a] && v@[b] == before[b]);
            } else if b == p {
                assert(v@[a] == before[a]);
            } else if a < p {
                assert(v@[a] == before[a] && v@[b] == before[b - 1]);
            } else if a == p {
                assert(v@[b] == before[b - 1]);
                assert(before[p as int] > x);
                assert(before[p as int] <= before[b - 1]);
            } else {
                assert(v@[a] == before[a - 1] && v@[b] == before[b - 1]);
            }
        }
        assert forall|y: usize| #[trigger] v@.contains(y) <==> (before.contains(y) || y == x) by {
            if v@.contains(y) {
                let k = choose|k: int| 0 <= k < v@.len() && v@[k] == y;
                if k < p {
                    assert(before[k] == y);
                } else if k > p {
                    assert(before[k - 1] == y);
                }
            }
            if before.contains(y) {
                let k = choose|k: int| 0 <= k < before.len() && before[k] == y;
                if k < p {
                    assert(v@[k] == y);
                } else {
                    assert(v@[k + 1] == y);
                }
            }
            if y == x {
                assert(v@[p as int] == x);
            }
        }
    }
}

/// The positions of `lens` that hold `l`, in increasing order.
fn positions_with(lens: &[usize], l: usize) -> (r: Vec<usize>)
    ensures
        r@ == positions_of(lens@, l, lens@.len() as int),
{
    let mut out: Vec<usize> = Vec::new();
    let mut i: usize = 0;
    while i < lens.len()
        invariant
            i <= lens@.len(),
            out@ == positions_of(lens@, l, i as int),
        decreases lens@.len() - i,
    {
        if lens[i] == l {
            out.push(i);
        }
        i = i + 1;
    }
    out
}

/// Group keyword lengths for a length-first keyword match: every length
/// once, in increasing order, each with the positions of the keywords of
/// that length, in order.
pub fn group_by_len(lens: &[usize]) -> (r: Vec<(usize, Vec<usize>)>)
    ensures
        is_len_plan(lens@, r@),
{
    let mut ls: Vec<usize> = Vec::new();
    let mut i: usize = 0;
    while i < lens.len()
        invariant
            i <= lens@.len(),
            forall|a: int, b: int| 0 <= a < b < ls@.len() ==> ls@[a] < ls@[b],
            forall|y: usize| ls@.contains(y) <==> lens@.take(i as int).contains(y),
        decreases lens@.len() - i,
    {
        insert_distinct(&mut ls, lens[i]);
        proof {
            assert forall|y: usize| ls@.contains(y) <==> lens@.take(i as int + 1).contains(y) by {
                if lens@.take(i as int + 1).contains(y) {
                    let k = choose|k: int| 0 <= k < i + 1 && #[trigger] lens@.take(i as int + 1)[k] == y;
                    if k < i {
                        assert(lens@.take(i as int)[k] == y);
                    }
                }
                if lens@.take(i as int).contains(y) {
                    let k = choose|k: int| 0 <= k < i && #[trigger] lens@.take(i as int)[k] == y;
                    assert(lens@.take(i as int + 1)[k] == y);
                }
                if y == lens@[i as int] {
                    assert(lens@.take(i as int + 1)[i as int] == y);
                }
            }
        }
        i = i + 1;
    }
    proof {
        assert(lens@.take(lens@.len() as int) =~= lens@);
    }
    let mut groups: Vec<(usize, Vec<usize>)> = Vec::new();
    let mut g: usize = 0;
    while g < ls.len()
        invariant
            g <= ls@.len(),
            groups@.len() == g,
            forall|a: int, b: int| 0 <= a < b < ls@.len() ==> ls@[a] < ls@[b],
            forall|y: usize| ls@.contains(y) <==> lens@.contains(y),
            forall|k: int| 0 <= k < g ==> (#[trigger] groups@[k]).0 == ls@[k],
            forall|k: int|
                0 <= k < g ==> (#[trigger] groups@[k]).1@ == positions_of(
                    lens@,
                    groups@[k].0,
                    lens@.len() as int,
                ),
        decreases ls@.len() - g,
    {
        let l = ls[g];
        groups.push((l, positions_with(lens, l)));
        g = g + 1;
    }
    proof {
        assert forall|a: int, b: int| 0 <= a < b < groups@.len() implies #[trigger] groups@[a].0
            < #[trigger] groups@[b].0 by {
            assert(groups@[a].0 == ls@[a]);
            assert(groups@[b].0 == ls@[b]);
        }
        assert forall|k: int| 0 <= k < groups@.len() implies (#[trigger] groups@[k]).1@ == positions_of(
            lens@,
            groups@[k].0,
            lens@.len() as int,
        ) by {}
        assert forall|k: int| 0 <= k < groups@.len() implies lens@.contains(#[trigger] groups@[k].0) by {
            assert(ls@.contains(ls@[k]));
        }
        assert forall|j: int| 0 <= j < lens@.len() implies has_group(groups@, #[trigger] lens@[j]) by {
            let y = lens@[j];
            assert(lens@[j] == y);
            assert(lens@.contains(y));
            assert(ls@.contains(y));
            let k = choose|k: int| 0 <= k < ls@.len() && ls@[k] == y;
            assert(groups@[k].0 == ls@[k]);
            assert(0 <= k < groups@.len() && groups@[k].0 == lens@[j]);
        }
    }
    groups
}

/// The lowercase bytes a keyword is compared with, chunk by chunk: for each
/// chunk of `int_chunks`, its offset, its size and the keyword's bytes there
/// in ASCII lowercase.
pub fn keyword_chunks(kw: &[u8]) -> (r: Vec<(usize, usize, Vec<u8>)>)
    ensures
        r@.len() == spec_chunks(0, kw@.len() as nat).len(),
        forall|i: int|
            0 <= i < r@.len() ==> {
                let (off, size) = spec_chunks(0, kw@.len() as nat)[i];
                &&& (#[trigger] r@[i]).0 == off
                &&& r@[i].1 == size
                &&& off + size <= kw@.len()
                &&& r@[i].2@ == kw@.subrange(off as int, off + size).map_values(
                    |b: u8| byte_lower(b),
                )
            },
{
    let chunks = int_chunks(kw.len());
    proof {
        lemma_chunks_in_bounds(0, kw@.len() as nat);
    }
    let mut out: Vec<(usize, usize, Vec<u8>)> = Vec::new();
    let mut i: usize = 0;
    while i < chunks.len()
        invariant
            chunks@ == spec_chunks(0, kw@.len() as nat),
            forall|k: int|
                0 <= k < chunks@.len() ==> (#[trigger] chunks@[k]).0 + chunks@[k].1 <= kw@.len(),
            i <= chunks@.len(),
            out@.len() == i,
            forall|k: int|
                0 <= k < i ==> {
                    let (off, size) = chunks@[k];
                    &&& (#[trigger] out@[k]).0 == off
                    &&& out@[k].1 == size
                    &&& out@[k].2@ == kw@.subrange(off as int, off + size).map_values(
                        |b: u8| byte_lower(b),
                    )
                },
        decreases chunks@.len() - i,
    {
        let (off, size) = chunks[i];
        let mut bytes: Vec<u8> = Vec::new();
        let mut j: usize = 0;
        while j < size
            invariant
                off + size <= kw.len(),
                j <= size,
                bytes@ == kw@.subrange(off as int, off + j).map_values(|b: u8| byte_lower(b)),
            decreases size - j,
        {
            assert(off + j < kw@.len());
            bytes.push(lower_byte(kw[off + j]));
            proof {
                assert(kw@.subrange(off as int, off + j + 1).map_values(|b: u8| byte_lower(b))
                    =~= kw@.subrange(off as int, off + j).map_values(|b: u8| byte_lower(b)).push(
                    byte_lower(kw@[off + j]),
                ));
            }
            j = j + 1;
        }
        out.push((off, size, bytes));
        i = i + 1;
    }
    out
}

/// ASCII lowercase of a byte.
pub open spec fn byte_lower(b: u8) -> u8 {
    if 65 <= b <= 90 {
        (b + 32) as u8
    } else {
        b
    }
}

fn lower_byte(b: u8) -> (r: u8)
    ensures
        r == byte_lower(b),
{
    if 65 <= b && b <= 90 {
        b + 32
    } else {
        b
    }
}

/// Every chunk from `offset` lies within `len`.
proof fn lemma_chunks_in_bounds(offset: nat, len: nat)
    ensures
        forall|k: int|
            0 <= k < spec_chunks(offset, len).len() ==> (#[trigger] spec_chunks(offset, len)[k]).0
                + spec_chunks(offset, len)[k].1 <= len,
    decreases len - offset,
{
    if offset < len {
        let rem = len - offset;
        let size: nat = if rem >= 8 {
            8
        } else if rem >= 4 {
            4
        } else if rem >= 2 {
            2
        } else {
            1
        };
        lemma_chunks_in_bounds(offset + size, len);
        let s = spec_chunks(offset, len);
        assert forall|k: int| 0 <= k < s.len() implies (#[trigger] s[k]).0 + s[k].1 <= len by {
            if k > 0 {
                assert(s[k] == spec_chunks(offset + size, len)[k - 1]);
            }
        }
    }
}

} // verus!
