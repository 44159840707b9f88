//! Counting Bloom filter for fast ancestor rejection during matching.
//!
//! 512 `u8` counters, three slots per hash. Inserting increments the three
//! counters (saturating at 255), removing decrements them (saturating at 0;
//! a counter that reached 255 stays there), and a query answers "possibly
//! present" when all three are non-zero. A hash that is inside is always
//! reported as possibly present, whatever saturated: no false negatives.

use vstd::prelude::*;
use crate::atom::Atom;
use crate::element::Element;
use crate::fxhash::{fx_hash_str, hash_str};

verus! {

/// Number of counters.
pub const NUM_COUNTERS: usize = 512usize;

/// First slot of a hash.
pub open spec fn slot1(h: u32) -> int {
    (h as int) % 512
}

/// Second slot of a hash: `(h * 0x9E3779B9) mod 2³²`, reduced to a slot.
pub open spec fn slot2(h: u32) -> int {
    ((h as int * 0x9E3779B9) % 0x100000000) % 512
}

/// Third slot of a hash: `(h * 0x517CC1B7) mod 2³²`, reduced to a slot.
pub open spec fn slot3(h: u32) -> int {
    ((h as int * 0x517CC1B7) % 0x100000000) % 512
}

/// Saturating increment of a counter.
pub open spec fn sat_inc(c: u8) -> u8 {
    if c == 255 {
        255
    } else {
        (c + 1) as u8
    }
}

/// Decrement of a counter: a saturated counter (255) no longer moves, and
/// zero stays zero.
pub open spec fn sat_dec(c: u8) -> u8 {
    if c == 0 || c == 255 {
        c
    } else {
        (c - 1) as u8
    }
}

/// Counters after inserting a hash: the three slots incremented in order.
pub open spec fn spec_insert(cs: Seq<u8>, h: u32) -> Seq<u8> {
    let a = cs.update(slot1(h), sat_inc(cs[slot1(h)]));
    let b = a.update(slot2(h), sat_inc(a[slot2(h)]));
    b.update(slot3(h), sat_inc(b[slot3(h)]))
}

/// Counters after removing a hash: the three slots decremented in order.
pub open spec fn spec_remove(cs: Seq<u8>, h: u32) -> Seq<u8> {
    let a = cs.update(slot1(h), sat_dec(cs[slot1(h)]));
    let b = a.update(slot2(h), sat_dec(a[slot2(h)]));
    b.update(slot3(h), sat_dec(b[slot3(h)]))
}

/// Whether the counters report a hash as possibly present.
pub open spec fn spec_might_contain(cs: Seq<u8>, h: u32) -> bool {
    cs[slot1(h)] != 0 && cs[slot2(h)] != 0 && cs[slot3(h)] != 0
}

/// Counters after inserting every hash of `hs`, in order.
pub open spec fn spec_insert_all(cs: Seq<u8>, hs: Seq<u32>) -> Seq<u8>
    decreases hs.len(),
{
    if hs.len() == 0 {
        cs
    } else {
        spec_insert_all(spec_insert(cs, hs[0]), hs.drop_first())
    }
}

/// Counters after removing every hash of `hs`, in order.
pub open spec fn spec_remove_all(cs: Seq<u8>, hs: Seq<u32>) -> Seq<u8>
    decreases hs.len(),
{
    if hs.len() == 0 {
        cs
    } else {
        spec_remove_all(spec_remove(cs, hs[0]), hs.drop_first())
    }
}

/// The hashes an element contributes: tag name, id if any, then classes.
pub open spec fn element_hashes<E: Element>(el: E) -> Seq<u32> {
    seq![spec_hash_atom(el.spec_local_name())] + (match el.spec_id() {
        Some(i) => seq![spec_hash_atom(i)],
        None => Seq::<u32>::empty(),
    }) + el.spec_classes().map_values(|c: Seq<char>| spec_hash_atom(c))
}

/// The 32-bit filter hash of a name.
pub open spec fn spec_hash_atom(s: Seq<char>) -> u32 {
    (fx_hash_str(s) % 0x100000000) as u32
}

/// 512-entry counting Bloom filter for ancestor element identifiers.
#[derive(Debug, Clone)]
pub struct AncestorBloom {
    counters: Vec<u8>,
}

impl View for AncestorBloom {
    type V = Seq<u8>;

    closed spec fn view(&self) -> Seq<u8> {
        self.counters@
    }
}

proof fn lemma_slots_in_range(h: u32)
    ensures
        0 <= slot1(h) < 512,
        0 <= slot2(h) < 512,
        0 <= slot3(h) < 512,
{
}

fn slots(hash: u32) -> (r: [usize; 3])
    ensures
        r@[0] as int == slot1(hash),
        r@[1] as int == slot2(hash),
        r@[2] as int == slot3(hash),
        r@[0] < 512,
        r@[1] < 512,
        r@[2] < 512,
{
    let h1 = (hash as usize) % NUM_COUNTERS;
    let m2 = hash.wrapping_mul(0x9E3779B9u32);
    let m3 = hash.wrapping_mul(0x517CC1B7u32);
    let h2 = (m2 as usize) % NUM_COUNTERS;
    let h3 = (m3 as usize) % NUM_COUNTERS;
    [h1, h2, h3]
}

impl AncestorBloom {
    /// Well-formedness: there are exactly 512 counters.
    pub open spec fn wf(&self) -> bool {
        self@.len() == 512
    }

    /// The number of counters, always 512.
    pub fn counter_count(&self) -> (r: usize)
        requires
            self.wf(),
        ensures
            r == 512,
    {
        self.counters.len()
    }

    /// An empty filter: every counter is zero.
    pub fn new() -> (r: AncestorBloom)
        ensures
            r.wf(),
            forall|i: int| 0 <= i < 512 ==> r@[i] == 0,
    {
        let mut counters: Vec<u8> = Vec::new();
        let mut i: usize = 0;
        while i < NUM_COUNTERS
            invariant
                i <= 512,
                counters@.len() == i,
                forall|k: int| 0 <= k < i ==> counters@[k] == 0,
            decreases 512 - i,
        {
            counters.push(0u8);
            i = i + 1;
        }
        AncestorBloom { counters }
    }

    /// Hash a name into a `u32` for filter operations.
    pub fn hash_atom(atom: &Atom) -> (r: u32)
        ensures
            r == spec_hash_atom(atom@),
    {
        let h = hash_str(atom.as_str());
        (h % 0x100000000u64) as u32
    }

    fn bump(&mut self, slot: usize, up: bool)
        requires
            old(self).wf(),
            slot < 512,
        ensures
            final(self)@ == old(self)@.update(
                slot as int,
                if up {
                    sat_inc(old(self)@[slot as int])
                } else {
                    sat_dec(old(self)@[slot as int])
                },
            ),
    {
        let c = self.counters[slot];
        let v = if up {
            c.saturating_add(1)
        } else if c == 255 {
            c
        } else {
            c.saturating_sub(1)
        };
        self.counters.set(slot, v);
    }

    /// Increment the counters of a hash (element entering the ancestor chain).
    pub fn insert_hash(&mut self, hash: u32)
        requires
            old(self).wf(),
        ensures
            final(self).wf(),
            final(self)@ == spec_insert(old(self)@, hash),
    {
        let s = slots(hash);
        self.bump(s[0], true);
        self.bump(s[1], true);
        self.bump(s[2], true);
    }

    /// Decrement the counters of a hash (element leaving the ancestor chain).
    pub fn remove_hash(&mut self, hash: u32)
        requires
            old(self).wf(),
        ensures
            final(self).wf(),
            final(self)@ == spec_remove(old(self)@, hash),
    {
        let s = slots(hash);
        self.bump(s[0], false);
        self.bump(s[1], false);
        self.bump(s[2], false);
    }

    /// Whether a hash might be in the filter: `false` means definitely absent.
    pub fn might_contain(&self, hash: u32) -> (r: bool)
        requires
            self.wf(),
        ensures
            r == spec_might_contain(self@, hash),
    {
        let s = slots(hash);
        self.counters[s[0]] != 0 && self.counters[s[1]] != 0 && self.counters[s[2]] != 0
    }

    /// Insert the hash of a name.
    pub fn insert_atom(&mut self, atom: &Atom)
        requires
            old(self).wf(),
        ensures
            final(self).wf(),
            final(self)@ == spec_insert(old(self)@, spec_hash_atom(atom@)),
    {
        let h = Self::hash_atom(atom);
        self.insert_hash(h);
    }

    /// Remove the hash of a name.
    pub fn remove_atom(&mut self, atom: &Atom)
        requires
            old(self).wf(),
        ensures
            final(self).wf(),
            final(self)@ == spec_remove(old(self)@, spec_hash_atom(atom@)),
    {
        let h = Self::hash_atom(atom);
        self.remove_hash(h);
    }
}

/// Inserting never clears a counter.
proof fn lemma_insert_monotone(cs: Seq<u8>, h: u32)
    requires
        cs.len() == 512,
    ensures
        spec_insert(cs, h).len() == 512,
        forall|i: int| 0 <= i < 512 ==> #[trigger] spec_insert(cs, h)[i] >= cs[i],
{
}

/// No false negative: right after inserting a hash, the filter reports it.
pub proof fn lemma_insert_then_contains(cs: Seq<u8>, h: u32)
    requires
        cs.len() == 512,
    ensures
        spec_might_contain(spec_insert(cs, h), h),
{
}

/// Inserting keeps every earlier positive answer positive.
pub proof fn lemma_insert_keeps_contains(cs: Seq<u8>, h: u32, g: u32)
    requires
        cs.len() == 512,
        spec_might_contain(cs, g),
    ensures
        spec_might_contain(spec_insert(cs, h), g),
{
    lemma_insert_monotone(cs, h);
    assert(spec_insert(cs, h)[slot1(g)] >= cs[slot1(g)]);
    assert(spec_insert(cs, h)[slot2(g)] >= cs[slot2(g)]);
    assert(spec_insert(cs, h)[slot3(g)] >= cs[slot3(g)]);
}

/// No false negatives over a sequence of insertions: every inserted hash
/// is reported as possibly present, starting from any counters.
pub proof fn lemma_insert_all_contains(cs: Seq<u8>, hs: Seq<u32>, k: int)
    requires
        cs.len() == 512,
        0 <= k < hs.len(),
    ensures
        spec_might_contain(spec_insert_all(cs, hs), hs[k]),
    decreases hs.len(),
{
    lemma_insert_monotone(cs, hs[0]);
    if k == 0 {
        lemma_insert_then_contains(cs, hs[0]);
        lemma_insert_all_keeps(spec_insert(cs, hs[0]), hs.drop_first(), hs[0]);
    } else {
        lemma_insert_all_contains(spec_insert(cs, hs[0]), hs.drop_first(), k - 1);
    }
}

/// Inserting a sequence of hashes keeps every earlier positive answer positive.
proof fn lemma_insert_all_keeps(cs: Seq<u8>, hs: Seq<u32>, g: u32)
    requires
        cs.len() == 512,
        spec_might_contain(cs, g),
    ensures
        spec_might_contain(spec_insert_all(cs, hs), g),
    decreases hs.len(),
{
    if hs.len() > 0 {
        lemma_insert_keeps_contains(cs, hs[0], g);
        lemma_insert_monotone(cs, hs[0]);
        lemma_insert_all_keeps(spec_insert(cs, hs[0]), hs.drop_first(), g);
    }
}

/// Removing undoes inserting when none of the hash's counters reaches
/// saturation.
pub proof fn lemma_remove_undoes_insert(cs: Seq<u8>, h: u32)
    requires
        cs.len() == 512,
        forall|i: int| 0 <= i < 512 && hits(h, i) > 0 ==> cs[i] + hits(h, i) < 255,
    ensures
        spec_remove(spec_insert(cs, h), h) == cs,
{
    lemma_insert_exact(cs, h);
    lemma_remove_exact(spec_insert(cs, h), h);
    assert(spec_remove(spec_insert(cs, h), h) =~= cs);
}

/// An empty filter reports every hash as absent.
pub proof fn lemma_empty_rejects(cs: Seq<u8>, h: u32)
    requires
        cs.len() == 512,
        forall|i: int| 0 <= i < 512 ==> cs[i] == 0,
    ensures
        !spec_might_contain(cs, h),
{
}


/// How many of the three slots of `h` are counter `i`.
pub open spec fn hits(h: u32, i: int) -> nat {
    (if slot1(h) == i { 1nat } else { 0nat }) + (if slot2(h) == i { 1nat } else { 0nat }) + (if slot3(h)
        == i { 1nat } else { 0nat })
}

/// How many increments inserting every hash of `hs` makes to counter `i`.
pub open spec fn total_hits(hs: Seq<u32>, i: int) -> nat
    decreases hs.len(),
{
    if hs.len() == 0 {
        0
    } else {
        hits(hs[0], i) + total_hits(hs.drop_first(), i)
    }
}

/// Away from saturation, inserting a hash adds its hits to each counter.
proof fn lemma_insert_counts(cs: Seq<u8>, h: u32)
    requires
        cs.len() == 512,
        forall|i: int| 0 <= i < 512 ==> cs[i] + hits(h, i) <= 255,
    ensures
        spec_insert(cs, h).len() == 512,
        forall|i: int| 0 <= i < 512 ==> #[trigger] spec_insert(cs, h)[i] == cs[i] + hits(h, i),
{
    lemma_slots_in_range(h);
    assert forall|i: int| 0 <= i < 512 implies #[trigger] spec_insert(cs, h)[i] == cs[i] + hits(h, i) by {
        assert(cs[slot1(h)] + hits(h, slot1(h)) <= 255);
        assert(cs[slot2(h)] + hits(h, slot2(h)) <= 255);
        assert(cs[slot3(h)] + hits(h, slot3(h)) <= 255);
    }
}

/// When every counter covers the hits and none that is hit is saturated,
/// removing a hash subtracts them.
proof fn lemma_remove_counts(cs: Seq<u8>, h: u32)
    requires
        cs.len() == 512,
        forall|i: int| 0 <= i < 512 ==> cs[i] >= hits(h, i) && (hits(h, i) > 0 ==> cs[i] < 255),
    ensures
        spec_remove(cs, h).len() == 512,
        forall|i: int| 0 <= i < 512 ==> #[trigger] spec_remove(cs, h)[i] == cs[i] - hits(h, i),
{
    lemma_slots_in_range(h);
    assert forall|i: int| 0 <= i < 512 implies #[trigger] spec_remove(cs, h)[i] == cs[i] - hits(h, i) by {
        assert(cs[slot1(h)] >= hits(h, slot1(h)) && cs[slot1(h)] < 255);
        assert(cs[slot2(h)] >= hits(h, slot2(h)) && cs[slot2(h)] < 255);
        assert(cs[slot3(h)] >= hits(h, slot3(h)) && cs[slot3(h)] < 255);
        assert(cs[i] >= hits(h, i));
    }
}

proof fn lemma_insert_all_counts(cs: Seq<u8>, hs: Seq<u32>)
    requires
        cs.len() == 512,
        forall|i: int| 0 <= i < 512 ==> cs[i] + total_hits(hs, i) <= 255,
    ensures
        spec_insert_all(cs, hs).len() == 512,
        forall|i: int| 0 <= i < 512 ==> #[trigger] spec_insert_all(cs, hs)[i] == cs[i] + total_hits(hs, i),
    decreases hs.len(),
{
    if hs.len() > 0 {
        let h = hs[0];
        assert forall|i: int| 0 <= i < 512 implies cs[i] + hits(h, i) <= 255 by {
            assert(cs[i] + total_hits(hs, i) <= 255);
        }
        lemma_insert_counts(cs, h);
        let ds = spec_insert(cs, h);
        assert forall|i: int| 0 <= i < 512 implies ds[i] + total_hits(hs.drop_first(), i) <= 255 by {
            assert(cs[i] + total_hits(hs, i) <= 255);
            assert(ds[i] == cs[i] + hits(h, i));
        }
        lemma_insert_all_counts(ds, hs.drop_first());
        assert forall|i: int| 0 <= i < 512 implies #[trigger] spec_insert_all(cs, hs)[i] == cs[i] + total_hits(hs, i) by {
            assert(ds[i] == cs[i] + hits(h, i));
        }
    }
}

proof fn lemma_remove_all_counts(cs: Seq<u8>, hs: Seq<u32>)
    requires
        cs.len() == 512,
        forall|i: int|
            0 <= i < 512 ==> cs[i] >= total_hits(hs, i) && (total_hits(hs, i) > 0 ==> cs[i] < 255),
    ensures
        spec_remove_all(cs, hs).len() == 512,
        forall|i: int| 0 <= i < 512 ==> #[trigger] spec_remove_all(cs, hs)[i] == cs[i] - total_hits(hs, i),
    decreases hs.len(),
{
    if hs.len() > 0 {
        let h = hs[0];
        assert forall|i: int| 0 <= i < 512 implies cs[i] >= hits(h, i) && (hits(h, i) > 0 ==> cs[i]
            < 255) by {
            assert(cs[i] >= total_hits(hs, i));
            assert(total_hits(hs, i) > 0 ==> cs[i] < 255);
        }
        lemma_remove_counts(cs, h);
        let ds = spec_remove(cs, h);
        assert forall|i: int| 0 <= i < 512 implies ds[i] >= total_hits(hs.drop_first(), i) && (
        total_hits(hs.drop_first(), i) > 0 ==> ds[i] < 255) by {
            assert(cs[i] >= total_hits(hs, i));
            assert(ds[i] == cs[i] - hits(h, i));
        }
        lemma_remove_all_counts(ds, hs.drop_first());
        assert forall|i: int| 0 <= i < 512 implies #[trigger] spec_remove_all(cs, hs)[i] == cs[i] - total_hits(hs, i) by {
            assert(ds[i] == cs[i] - hits(h, i));
        }
    }
}

/// Removing a sequence of hashes undoes inserting it, as long as no counter
/// that the hashes touch reaches saturation on the way up.
pub proof fn lemma_remove_all_undoes_insert_all(cs: Seq<u8>, hs: Seq<u32>)
    requires
        cs.len() == 512,
        forall|i: int| 0 <= i < 512 && total_hits(hs, i) > 0 ==> cs[i] + total_hits(hs, i) < 255,
    ensures
        spec_remove_all(spec_insert_all(cs, hs), hs) == cs,
{
    lemma_insert_all_counts(cs, hs);
    let ds = spec_insert_all(cs, hs);
    lemma_remove_all_counts(ds, hs);
    assert(spec_remove_all(ds, hs) =~= cs);
}

/// `pop` undoes `push` of the same element, as long as no counter that the
/// element touches reaches saturation: leaving a subtree restores the
/// filter of its parent.
pub proof fn lemma_pop_undoes_push<E: Element>(cs: Seq<u8>, el: E)
    requires
        cs.len() == 512,
        forall|i: int|
            0 <= i < 512 && total_hits(element_hashes(el), i) > 0 ==> cs[i] + total_hits(
                element_hashes(el),
                i,
            ) < 255,
    ensures
        spec_remove_all(spec_insert_all(cs, element_hashes(el)), element_hashes(el)) == cs,
{
    lemma_remove_all_undoes_insert_all(cs, element_hashes(el));
}

/// The counters follow the hashes `hs` that are inside the filter: each
/// counter is saturated (255) or counts exactly the slots of `hs` on it.
pub open spec fn tracks(cs: Seq<u8>, hs: Seq<u32>) -> bool {
    &&& cs.len() == 512
    &&& forall|i: int| 0 <= i < 512 ==> (#[trigger] cs[i] == 255 || cs[i] == total_hits(hs, i))
}

proof fn lemma_total_hits_concat(a: Seq<u32>, b: Seq<u32>, i: int)
    ensures
        total_hits(a + b, i) == total_hits(a, i) + total_hits(b, i),
    decreases a.len(),
{
    if a.len() == 0 {
        assert(a + b =~= b);
    } else {
        assert((a + b).drop_first() =~= a.drop_first() + b);
        lemma_total_hits_concat(a.drop_first(), b, i);
    }
}

/// The hits of a hash inside a sequence are part of the sequence's hits.
proof fn lemma_total_hits_remove(hs: Seq<u32>, k: int, i: int)
    requires
        0 <= k < hs.len(),
    ensures
        total_hits(hs, i) == total_hits(hs.remove(k), i) + hits(hs[k], i),
{
    let pre = hs.take(k);
    let post = hs.skip(k + 1);
    let one = seq![hs[k]];
    assert(hs =~= pre + (one + post));
    assert(hs.remove(k) =~= pre + post);
    lemma_total_hits_concat(pre, one + post, i);
    lemma_total_hits_concat(one, post, i);
    lemma_total_hits_concat(pre, post, i);
    let e = Seq::<u32>::empty();
    assert(total_hits(e, i) == 0);
    assert(one.drop_first() =~= e);
    assert(one[0] == hs[k]);
    assert(total_hits(one, i) == hits(hs[k], i));
}

/// Inserting moves each counter up by its hits, stopping at 255.
proof fn lemma_insert_exact(cs: Seq<u8>, h: u32)
    requires
        cs.len() == 512,
    ensures
        spec_insert(cs, h).len() == 512,
        forall|i: int|
            0 <= i < 512 ==> #[trigger] spec_insert(cs, h)[i] == (if cs[i] + hits(h, i) >= 255 {
                255
            } else {
                cs[i] + hits(h, i)
            }),
{
    lemma_slots_in_range(h);
}

/// Removing moves each unsaturated counter down by its hits, stopping at 0;
/// a saturated counter stays.
proof fn lemma_remove_exact(cs: Seq<u8>, h: u32)
    requires
        cs.len() == 512,
    ensures
        spec_remove(cs, h).len() == 512,
        forall|i: int|
            0 <= i < 512 ==> #[trigger] spec_remove(cs, h)[i] == (if cs[i] == 255 {
                255
            } else if cs[i] >= hits(h, i) {
                cs[i] - hits(h, i)
            } else {
                0
            }),
{
    lemma_slots_in_range(h);
}

/// An empty filter tracks the empty sequence of hashes.
pub proof fn lemma_tracks_empty(cs: Seq<u8>)
    requires
        cs.len() == 512,
        forall|i: int| 0 <= i < 512 ==> cs[i] == 0,
    ensures
        tracks(cs, Seq::empty()),
{
}

/// Inserting a hash keeps the counters tracking, with the hash inside.
pub proof fn lemma_tracks_insert(cs: Seq<u8>, hs: Seq<u32>, h: u32)
    requires
        tracks(cs, hs),
    ensures
        tracks(spec_insert(cs, h), hs.push(h)),
{
    lemma_insert_exact(cs, h);
    assert forall|i: int| 0 <= i < 512 implies (#[trigger] spec_insert(cs, h)[i] == 255
        || spec_insert(cs, h)[i] == total_hits(hs.push(h), i)) by {
        lemma_total_hits_remove(hs.push(h), hs.len() as int, i);
        assert(hs.push(h).remove(hs.len() as int) =~= hs);
        assert(cs[i] == 255 || cs[i] == total_hits(hs, i));
    }
}

/// Removing a hash that is inside keeps the counters tracking, without it.
pub proof fn lemma_tracks_remove(cs: Seq<u8>, hs: Seq<u32>, k: int)
    requires
        tracks(cs, hs),
        0 <= k < hs.len(),
    ensures
        tracks(spec_remove(cs, hs[k]), hs.remove(k)),
{
    lemma_remove_exact(cs, hs[k]);
    assert forall|i: int| 0 <= i < 512 implies (#[trigger] spec_remove(cs, hs[k])[i] == 255
        || spec_remove(cs, hs[k])[i] == total_hits(hs.remove(k), i)) by {
        lemma_total_hits_remove(hs, k, i);
        assert(cs[i] == 255 || cs[i] == total_hits(hs, i));
    }
}

/// No false negatives, whatever saturated: while the counters track `hs`,
/// every hash of `hs` is reported as possibly present.
pub proof fn lemma_tracks_contains(cs: Seq<u8>, hs: Seq<u32>, k: int)
    requires
        tracks(cs, hs),
        0 <= k < hs.len(),
    ensures
        spec_might_contain(cs, hs[k]),
{
    let h = hs[k];
    lemma_slots_in_range(h);
    lemma_total_hits_remove(hs, k, slot1(h));
    lemma_total_hits_remove(hs, k, slot2(h));
    lemma_total_hits_remove(hs, k, slot3(h));
    assert(cs[slot1(h)] == 255 || cs[slot1(h)] == total_hits(hs, slot1(h)));
    assert(cs[slot2(h)] == 255 || cs[slot2(h)] == total_hits(hs, slot2(h)));
    assert(cs[slot3(h)] == 255 || cs[slot3(h)] == total_hits(hs, slot3(h)));
}

/// Inserting a sequence of hashes keeps the counters tracking, with the
/// hashes inside.
pub proof fn lemma_tracks_insert_all(cs: Seq<u8>, hs: Seq<u32>, gs: Seq<u32>)
    requires
        tracks(cs, hs),
    ensures
        tracks(spec_insert_all(cs, gs), hs + gs),
    decreases gs.len(),
{
    if gs.len() == 0 {
        assert(hs + gs =~= hs);
    } else {
        lemma_tracks_insert(cs, hs, gs[0]);
        lemma_tracks_insert_all(spec_insert(cs, gs[0]), hs.push(gs[0]), gs.drop_first());
        assert(hs.push(gs[0]) + gs.drop_first() =~= hs + gs);
    }
}

/// Removing a sequence of hashes that is inside keeps the counters
/// tracking, without them: `gs` may sit anywhere among the hashes inside.
pub proof fn lemma_tracks_remove_all(cs: Seq<u8>, a: Seq<u32>, gs: Seq<u32>, b: Seq<u32>)
    requires
        tracks(cs, a + gs + b),
    ensures
        tracks(spec_remove_all(cs, gs), a + b),
    decreases gs.len(),
{
    if gs.len() == 0 {
        assert(a + gs + b =~= a + b);
    } else {
        let all = a + gs + b;
        let k = a.len() as int;
        assert(all[k] == gs[0]);
        lemma_tracks_remove(cs, all, k);
        assert(all.remove(k) =~= a + gs.drop_first() + b);
        lemma_tracks_remove_all(spec_remove(cs, gs[0]), a, gs.drop_first(), b);
    }
}

/// Pushing an element keeps the counters tracking, with its hashes inside.
pub proof fn lemma_push_tracks<E: Element>(cs: Seq<u8>, hs: Seq<u32>, el: E)
    requires
        tracks(cs, hs),
    ensures
        tracks(spec_insert_all(cs, element_hashes(el)), hs + element_hashes(el)),
{
    lemma_tracks_insert_all(cs, hs, element_hashes(el));
}

/// Popping an element that is inside keeps the counters tracking, without
/// its hashes. With `lemma_tracks_contains`: after any pushes and pops of
/// elements that are inside, every element still inside is reported by
/// the filter, even where counters saturated.
pub proof fn lemma_pop_tracks<E: Element>(cs: Seq<u8>, a: Seq<u32>, el: E, b: Seq<u32>)
    requires
        tracks(cs, a + element_hashes(el) + b),
    ensures
        tracks(spec_remove_all(cs, element_hashes(el)), a + b),
{
    lemma_tracks_remove_all(cs, a, element_hashes(el), b);
}

impl AncestorBloom {
    /// Push an element's identifiers into the filter (entering its subtree).
    pub fn push<E: Element>(&mut self, el: &E)
        requires
            old(self).wf(),
        ensures
            final(self).wf(),
            final(self)@ == spec_insert_all(old(self)@, element_hashes(*el)),
    {
        self.apply_element(el, true);
    }

    /// Pop an element's identifiers from the filter (leaving its subtree).
    pub fn pop<E: Element>(&mut self, el: &E)
        requires
            old(self).wf(),
        ensures
            final(self).wf(),
            final(self)@ == spec_remove_all(old(self)@, element_hashes(*el)),
    {
        self.apply_element(el, false);
    }

    fn apply_element<E: Element>(&mut self, el: &E, up: bool)
        requires
            old(self).wf(),
        ensures
            final(self).wf(),
            final(self)@ == if up {
                spec_insert_all(old(self)@, element_hashes(*el))
            } else {
                spec_remove_all(old(self)@, element_hashes(*el))
            },
    {
        let hs = hashes_of(el);
        self.apply_hashes(hs.as_slice(), up);
    }

    fn apply_hashes(&mut self, hs: &[u32], up: bool)
        requires
            old(self).wf(),
        ensures
            final(self).wf(),
            final(self)@ == if up {
                spec_insert_all(old(self)@, hs@)
            } else {
                spec_remove_all(old(self)@, hs@)
            },
    {
        let mut i: usize = 0;
        let ghost start = self@;
        proof {
            assert(hs@.skip(0) =~= hs@);
        }
        while i < hs.len()
            invariant
                i <= hs@.len(),
                self.wf(),
                if up {
                    spec_insert_all(start, hs@) == spec_insert_all(self@, hs@.skip(i as int))
                } else {
                    spec_remove_all(start, hs@) == spec_remove_all(self@, hs@.skip(i as int))
                },
            decreases hs@.len() - i,
        {
            proof {
                assert(hs@.skip(i as int).drop_first() =~= hs@.skip(i as int + 1));
            }
            if up {
                self.insert_hash(hs[i]);
            } else {
                self.remove_hash(hs[i]);
            }
            i = i + 1;
        }
        proof {
            assert(hs@.skip(i as int) =~= Seq::<u32>::empty());
        }
    }
}

/// The hashes of an element's tag name, id and classes.
fn hashes_of<E: Element>(el: &E) -> (r: Vec<u32>)
    ensures
        r@ == element_hashes(*el),
{
    let mut hs: Vec<u32> = Vec::new();
    hs.push(AncestorBloom::hash_atom(el.local_name()));
    match el.id() {
        Some(id) => {
            hs.push(AncestorBloom::hash_atom(id));
        },
        None => {},
    }
    let classes = el.class_list();
    let mut k: usize = 0;
    let ghost base = hs@;
    proof {
        assert(el.spec_classes().take(0).map_values(|c: Seq<char>| spec_hash_atom(c)) =~= Seq::<
            u32,
        >::empty());
        assert(hs@ =~= base + el.spec_classes().take(0).map_values(
            |c: Seq<char>| spec_hash_atom(c),
        ));
    }
    while k < classes.len()
        invariant
            k <= classes@.len(),
            classes@.len() == el.spec_classes().len(),
            forall|j: int|
                0 <= j < classes@.len() ==> (#[trigger] classes@[j])@ == el.spec_classes()[j],
            hs@ == base + el.spec_classes().take(k as int).map_values(
                |c: Seq<char>| spec_hash_atom(c),
            ),
        decreases classes@.len() - k,
    {
        hs.push(AncestorBloom::hash_atom(&classes[k]));
        proof {
            assert(el.spec_classes().take(k as int + 1).map_values(
                |c: Seq<char>| spec_hash_atom(c),
            ) =~= el.spec_classes().take(k as int).map_values(
                |c: Seq<char>| spec_hash_atom(c),
            ).push(spec_hash_atom(el.spec_classes()[k as int])));
        }
        k = k + 1;
    }
    proof {
        assert(el.spec_classes().take(k as int) =~= el.spec_classes());
        assert(hs@ =~= element_hashes(*el));
    }
    hs
}

} // verus!
