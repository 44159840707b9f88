//! Rule bucketing by key selector.
//!
//! Rules are bucketed by the key selector of their rightmost compound:
//! `#id` rules by id, `.class` rules by class, `tag` rules by tag name, and
//! the rest in a universal bucket that is always tested. All entries live
//! in one flat vector; each bucket is a range of it, found through a hash
//! map keyed by the 64-bit hash of the name. Within a range, entries are
//! sorted by specificity (highest first), then source order (latest first).
//! Names that share a hash share a range; lookups keep only the entries
//! whose key names the element's id, class or tag exactly.

use vstd::prelude::*;
use std::collections::HashMap;
use vstd::multiset::Multiset;
use crate::atom::Atom;
use crate::context::{MatchingContext, QuirksMode};
use crate::element::{Element, element_laws};
use crate::fxhash::{fx_hash_str, hash_str};
use crate::matching::{
    bloom_view, bloom_wf, caches_coherent, ctx_kept, lemma_kept_refl, lemma_kept_trans,
    matches_in_context, mode_of, spec_matches_comps, spec_sel_match, spec_simple, state_has,
    MatchMode,
};
use crate::specificity::Specificity;
use crate::types::{
    Component, KeySelector, Selector, is_combinator, key_of, key_view, rightmost_start, selector_wf,
};

verus! {

broadcast use {vstd::multiset::group_multiset_axioms, vstd::seq_lib::group_to_multiset_ensures};

/// A rule: a selector, its specificity, an opaque data index and its
/// position in source order.
#[derive(Debug)]
pub struct RuleEntry {
    pub selector: Selector,
    pub specificity: Specificity,
    pub data: u32,
    pub source_order: u32,
}

/// A range of the flat entry vector.
#[derive(Debug, Clone, Copy)]
struct BucketRange {
    start: u32,
    len: u32,
}

/// `a` comes before `b`: higher specificity, or equal specificity and later
/// in source order.
pub open spec fn entry_before(a: RuleEntry, b: RuleEntry) -> bool {
    a.specificity.0 > b.specificity.0 || (a.specificity.0 == b.specificity.0 && a.source_order
        >= b.source_order)
}

/// `n * s`, or the largest `usize` when that is larger.
pub open spec fn sat_product(n: nat, s: nat) -> int {
    if n * s <= usize::MAX {
        (n * s) as int
    } else {
        usize::MAX as int
    }
}

/// The entries are sorted: highest specificity first, then latest first.
pub open spec fn sorted_entries(s: Seq<RuleEntry>) -> bool {
    forall|i: int, j: int| 0 <= i < j < s.len() ==> entry_before(#[trigger] s[i], #[trigger] s[j])
}

/// A rule applies to an element when its key names the element's id, one of
/// its classes or its tag, or when it has no key.
pub open spec fn applies<E: Element>(e: RuleEntry, el: E) -> bool {
    match e.selector.hint.key {
        KeySelector::Id(k) => el.spec_id() == Some(k@),
        KeySelector::Class(k) => el.spec_classes().contains(k@),
        KeySelector::Type(k) => el.spec_local_name() == k@,
        KeySelector::Universal => true,
    }
}

/// The 64-bit bucket hash of a name.
pub open spec fn name_hash(s: Seq<char>) -> u64 {
    fx_hash_str(s)
}

/// The key atom of an entry, for keyed buckets.
pub open spec fn key_name(e: RuleEntry) -> Seq<char> {
    match e.selector.hint.key {
        KeySelector::Id(k) => k@,
        KeySelector::Class(k) => k@,
        KeySelector::Type(k) => k@,
        KeySelector::Universal => Seq::empty(),
    }
}

/// The selector matches the element under the context's Bloom filter and
/// matching mode, its required state included: what `matches_in_context`
/// answers when the context's caches agree with the document.
pub open spec fn ctx_sel_match<E: Element>(sel: Selector, el: E, ctx: MatchingContext) -> bool {
    state_has(el, sel.hint.required_state.0) && spec_matches_comps(
        sel.comps@,
        el,
        bloom_view(ctx.bloom_filter),
        Some(mode_of(ctx)),
    )
}

/// Some reference of `out` points to `e`.
pub open spec fn collected(out: Seq<&RuleEntry>, e: RuleEntry) -> bool {
    exists|k: int| 0 <= k < out.len() && *out[k] == e
}

/// Whether the range collection for `name` keeps entry `e`: its key names
/// `name`, or `name` is absent.
pub open spec fn name_ok(e: RuleEntry, name: Option<Seq<char>>) -> bool {
    match name {
        Some(n) => key_kind(e) != 3 && key_name(e) == n,
        None => true,
    }
}

/// The kind of an entry's key: 0 id, 1 class, 2 tag, 3 none.
pub open spec fn key_kind(e: RuleEntry) -> u8 {
    key_view(e.selector.hint.key).0
}

/// The bucket hash of an entry's key name.
pub open spec fn entry_hash(e: RuleEntry) -> u64 {
    name_hash(key_name(e))
}

/// Storage order inside one kind: by key hash, then bucket order.
pub open spec fn keyed_before(a: RuleEntry, b: RuleEntry) -> bool {
    entry_hash(a) < entry_hash(b) || (entry_hash(a) == entry_hash(b) && entry_before(a, b))
}

/// The entries are in storage order.
pub open spec fn sorted_keyed(s: Seq<RuleEntry>) -> bool {
    forall|i: int, j: int| 0 <= i < j < s.len() ==> keyed_before(#[trigger] s[i], #[trigger] s[j])
}

/// Every entry of kind `kind` lies in the range its key hash maps to, and
/// every range lies inside the entries.
spec fn bucket_ok(entries: Seq<RuleEntry>, index: Map<u64, BucketRange>, kind: u8) -> bool {
    &&& forall|i: int|
        0 <= i < entries.len() && key_kind(#[trigger] entries[i]) == kind ==> {
            &&& index.contains_key(entry_hash(entries[i]))
            &&& index[entry_hash(entries[i])].start <= i
            &&& i < index[entry_hash(entries[i])].start + index[entry_hash(entries[i])].len
        }
    &&& forall|h: u64|
        #[trigger] index.contains_key(h) ==> index[h].start + index[h].len <= entries.len()
}

/// Every position of every range of `index` holds an entry of kind `kind`.
spec fn range_kind(entries: Seq<RuleEntry>, index: Map<u64, BucketRange>, kind: u8) -> bool {
    forall|h: u64, i: int|
        #![trigger index.contains_key(h), entries[i]]
        index.contains_key(h) && index[h].start <= i < index[h].start + index[h].len
            ==> key_kind(entries[i]) == kind
}

/// Builder for a `RuleMap`: collects rules, then `build()` sorts and
/// compacts them.
#[derive(Debug)]
pub struct RuleMapBuilder {
    id_staging: Vec<RuleEntry>,
    class_staging: Vec<RuleEntry>,
    type_staging: Vec<RuleEntry>,
    universal_staging: Vec<RuleEntry>,
    rule_count: u32,
}

impl RuleMapBuilder {
    /// All rules added so far.
    pub closed spec fn staged(&self) -> Multiset<RuleEntry> {
        (self.id_staging@ + self.class_staging@ + self.type_staging@
            + self.universal_staging@).to_multiset()
    }

    /// Number of rules added so far.
    pub closed spec fn count(&self) -> u32 {
        self.rule_count
    }

    /// Each staging vector holds the rules of its key kind, and the count is
    /// the number of staged rules.
    pub closed spec fn wf(&self) -> bool {
        &&& forall|i: int| 0 <= i < self.id_staging@.len() ==> key_kind(#[trigger] self.id_staging@[i]) == 0
        &&& forall|i: int| 0 <= i < self.class_staging@.len() ==> key_kind(#[trigger] self.class_staging@[i]) == 1
        &&& forall|i: int| 0 <= i < self.type_staging@.len() ==> key_kind(#[trigger] self.type_staging@[i]) == 2
        &&& forall|i: int| 0 <= i < self.universal_staging@.len() ==> key_kind(#[trigger] self.universal_staging@[i]) == 3
        &&& self.id_staging@.len() + self.class_staging@.len() + self.type_staging@.len()
            + self.universal_staging@.len() == self.rule_count
    }

    /// An empty builder.
    pub fn new() -> (r: RuleMapBuilder)
        ensures
            r.wf(),
            r.staged() =~= Multiset::empty(),
            r.count() == 0,
    {
        let r = RuleMapBuilder {
            id_staging: Vec::new(),
            class_staging: Vec::new(),
            type_staging: Vec::new(),
            universal_staging: Vec::new(),
            rule_count: 0,
        };
        proof {
            assert(r.id_staging@ + r.class_staging@ + r.type_staging@ + r.universal_staging@
                =~= Seq::<RuleEntry>::empty());
        }
        r
    }

    /// Add a rule; its source order is the number of rules added before it.
    pub fn insert(&mut self, selector: Selector, data: u32)
        requires
            old(self).wf(),
            old(self).count() < u32::MAX,
        ensures
            final(self).wf(),
            final(self).count() == old(self).count() + 1,
            final(self).staged() =~= old(self).staged().insert(
                RuleEntry {
                    specificity: selector.spec,
                    selector,
                    data,
                    source_order: old(self).count(),
                },
            ),
    {
        let source_order = self.rule_count;
        self.rule_count = self.rule_count + 1;
        let specificity = selector.specificity();
        let kind: u8 = match &selector.hint.key {
            KeySelector::Id(_) => 0,
            KeySelector::Class(_) => 1,
            KeySelector::Type(_) => 2,
            KeySelector::Universal => 3,
        };
        let entry = RuleEntry { selector, specificity, data, source_order };
        assert(key_kind(entry) == kind);
        let ghost a = old(self).id_staging@;
        let ghost b = old(self).class_staging@;
        let ghost c = old(self).type_staging@;
        let ghost d = old(self).universal_staging@;
        proof {
            vstd::seq_lib::lemma_multiset_commutative(a + b + c, d);
            vstd::seq_lib::lemma_multiset_commutative(a + b, c);
            vstd::seq_lib::lemma_multiset_commutative(a, b);
            vstd::seq_lib::to_multiset_build(a, entry);
            vstd::seq_lib::to_multiset_build(b, entry);
            vstd::seq_lib::to_multiset_build(c, entry);
            vstd::seq_lib::to_multiset_build(d, entry);
            vstd::seq_lib::lemma_multiset_commutative(a.push(entry) + b + c, d);
            vstd::seq_lib::lemma_multiset_commutative(a.push(entry) + b, c);
            vstd::seq_lib::lemma_multiset_commutative(a.push(entry), b);
            vstd::seq_lib::lemma_multiset_commutative(a + b.push(entry) + c, d);
            vstd::seq_lib::lemma_multiset_commutative(a + b.push(entry), c);
            vstd::seq_lib::lemma_multiset_commutative(a, b.push(entry));
            vstd::seq_lib::lemma_multiset_commutative(a + b + c.push(entry), d);
            vstd::seq_lib::lemma_multiset_commutative(a + b, c.push(entry));
            vstd::seq_lib::lemma_multiset_commutative(a + b + c, d.push(entry));
        }
        if kind == 0 {
            self.id_staging.push(entry);
        } else if kind == 1 {
            self.class_staging.push(entry);
        } else if kind == 2 {
            self.type_staging.push(entry);
        } else {
            self.universal_staging.push(entry);
        }
    }

    /// Build the final `RuleMap`: flat storage, sorted buckets.
    #[verifier::rlimit(100)]
    #[verifier::spinoff_prover]
    pub fn build(self) -> (r: RuleMap)
        requires
            self.wf(),
        ensures
            r.entry_set() =~= self.staged(),
            r.len_spec() == self.count(),
    {
        let mut entries: Vec<RuleEntry> = Vec::new();
        let ghost a = self.id_staging@;
        let ghost b = self.class_staging@;
        let ghost c = self.type_staging@;
        let ghost d = self.universal_staging@;
        let id_index = flatten_into(self.id_staging, &mut entries, Ghost(0u8));
        let ghost e1 = entries@;
        let class_index = flatten_into(self.class_staging, &mut entries, Ghost(1u8));
        let ghost e2 = entries@;
        let type_index = flatten_into(self.type_staging, &mut entries, Ghost(2u8));
        let ghost e3 = entries@;
        let universal_start = entries.len() as u32;
        let universal = sort_bucket(self.universal_staging);
        proof {
            assert(universal@.to_multiset().len() == d.to_multiset().len());
            assert(universal@.len() == d.len());
        }
        let universal_len = universal.len() as u32;
        let ghost before_u = entries@;
        let mut u = universal;
        let ghost us = u@;
        proof {
            assert forall|i: int| 0 <= i < us.len() implies key_kind(#[trigger] us[i]) == 3 by {
                assert(us.to_multiset().count(us[i]) > 0);
                assert(d.to_multiset().count(us[i]) > 0);
                assert(d.contains(us[i]));
            }
        }
        append_all(&mut entries, u);
        let ghost fin = entries@;
        proof {
            lemma_four_parts(a, b, c, d, e1, e2, e3, us, fin);
            lemma_build_layout(fin, e1, e2, e3, us, id_index@, class_index@, type_index@);
        }
        RuleMap {
            entries,
            id_index,
            class_index,
            type_index,
            universal_range: BucketRange { start: universal_start, len: universal_len },
            rule_count: self.rule_count,
        }
    }
}

/// One segment of the flat storage: positions `lo..hi` hold entries of
/// kind `kind`, each covered by the range of its key hash.
spec fn segment_ok(fin: Seq<RuleEntry>, idx: Map<u64, BucketRange>, kind: u8, lo: int, hi: int) -> bool {
    &&& 0 <= lo <= hi <= fin.len()
    &&& forall|i: int| lo <= i < hi ==> key_kind(#[trigger] fin[i]) == kind
    &&& forall|i: int|
        lo <= i < hi ==> {
            &&& idx.contains_key(entry_hash(#[trigger] fin[i]))
            &&& idx[entry_hash(fin[i])].start <= i
            &&& i < idx[entry_hash(fin[i])].start + idx[entry_hash(fin[i])].len
        }
    &&& forall|h: u64| #[trigger] idx.contains_key(h) ==> idx[h].start + idx[h].len <= hi
}

/// The positions `lo..hi` of `fin` are those of `seg`, which `flatten_into`
/// laid out: they form a segment.
proof fn lemma_segment(fin: Seq<RuleEntry>, seg: Seq<RuleEntry>, idx: Map<u64, BucketRange>, kind: u8, lo: int, hi: int)
    requires
        0 <= lo <= hi,
        seg.len() == hi,
        hi <= fin.len(),
        forall|i: int| 0 <= i < hi ==> #[trigger] fin[i] == seg[i],
        forall|i: int| lo <= i < seg.len() ==> key_kind(#[trigger] seg[i]) == kind,
        forall|i: int|
            lo <= i < seg.len() ==> {
                &&& idx.contains_key(entry_hash(#[trigger] seg[i]))
                &&& idx[entry_hash(seg[i])].start <= i
                &&& i < idx[entry_hash(seg[i])].start + idx[entry_hash(seg[i])].len
            },
        forall|h: u64| #[trigger] idx.contains_key(h) ==> lo <= idx[h].start && idx[h].start + idx[h].len <= seg.len(),
    ensures
        segment_ok(fin, idx, kind, lo, hi),
{
    assert forall|i: int| lo <= i < hi implies key_kind(#[trigger] fin[i]) == kind by {
        assert(fin[i] == seg[i]);
    }
    assert forall|i: int|
        lo <= i < hi implies {
            &&& idx.contains_key(entry_hash(#[trigger] fin[i]))
            &&& idx[entry_hash(fin[i])].start <= i
            &&& i < idx[entry_hash(fin[i])].start + idx[entry_hash(fin[i])].len
        } by {
        assert(fin[i] == seg[i]);
    }
}

/// Segments of distinct kinds: a segment covers every entry of its kind.
proof fn lemma_segment_bucket_ok(fin: Seq<RuleEntry>, idx: Map<u64, BucketRange>, kind: u8, lo: int, hi: int)
    requires
        segment_ok(fin, idx, kind, lo, hi),
        forall|i: int| 0 <= i < fin.len() && key_kind(#[trigger] fin[i]) == kind ==> lo <= i < hi,
    ensures
        bucket_ok(fin, idx, kind),
{
}

/// The flat storage is the id, class, tag and keyless segments in turn:
/// each bucket index covers every entry of its kind, and the keyless entries
/// are the last segment.
proof fn lemma_layout(
    fin: Seq<RuleEntry>,
    l1: int,
    l2: int,
    l3: int,
    id_idx: Map<u64, BucketRange>,
    class_idx: Map<u64, BucketRange>,
    type_idx: Map<u64, BucketRange>,
)
    requires
        segment_ok(fin, id_idx, 0u8, 0, l1),
        segment_ok(fin, class_idx, 1u8, l1, l2),
        segment_ok(fin, type_idx, 2u8, l2, l3),
        l3 <= fin.len(),
        forall|i: int| l3 <= i < fin.len() ==> key_kind(#[trigger] fin[i]) == 3,
    ensures
        bucket_ok(fin, id_idx, 0u8),
        bucket_ok(fin, class_idx, 1u8),
        bucket_ok(fin, type_idx, 2u8),
        forall|i: int| 0 <= i < fin.len() && key_kind(#[trigger] fin[i]) == 3 ==> l3 <= i,
{
    assert forall|i: int| 0 <= i < fin.len() && key_kind(#[trigger] fin[i]) == 0u8 implies 0 <= i < l1 by {
        if i >= l1 {
            if i < l2 {
                assert(key_kind(fin[i]) == 1);
            } else if i < l3 {
                assert(key_kind(fin[i]) == 2);
            } else {
                assert(key_kind(fin[i]) == 3);
            }
        }
    }
    assert forall|i: int| 0 <= i < fin.len() && key_kind(#[trigger] fin[i]) == 1u8 implies l1 <= i < l2 by {
        if i < l1 {
            assert(key_kind(fin[i]) == 0);
        } else if i >= l2 {
            if i < l3 {
                assert(key_kind(fin[i]) == 2);
            } else {
                assert(key_kind(fin[i]) == 3);
            }
        }
    }
    assert forall|i: int| 0 <= i < fin.len() && key_kind(#[trigger] fin[i]) == 2u8 implies l2 <= i < l3 by {
        if i < l1 {
            assert(key_kind(fin[i]) == 0);
        } else if i < l2 {
            assert(key_kind(fin[i]) == 1);
        } else if i >= l3 {
            assert(key_kind(fin[i]) == 3);
        }
    }
    assert forall|i: int| 0 <= i < fin.len() && key_kind(#[trigger] fin[i]) == 3u8 implies l3 <= i by {
        if i < l1 {
            assert(key_kind(fin[i]) == 0);
        } else if i < l2 {
            assert(key_kind(fin[i]) == 1);
        } else if i < l3 {
            assert(key_kind(fin[i]) == 2);
        }
    }
    lemma_segment_bucket_ok(fin, id_idx, 0u8, 0, l1);
    lemma_segment_bucket_ok(fin, class_idx, 1u8, l1, l2);
    lemma_segment_bucket_ok(fin, type_idx, 2u8, l2, l3);
}

/// The storage `build` lays out: the id, class and tag segments from
/// `flatten_into`, then the keyless entries.
proof fn lemma_build_layout(
    fin: Seq<RuleEntry>,
    e1: Seq<RuleEntry>,
    e2: Seq<RuleEntry>,
    e3: Seq<RuleEntry>,
    us: Seq<RuleEntry>,
    id_idx: Map<u64, BucketRange>,
    class_idx: Map<u64, BucketRange>,
    type_idx: Map<u64, BucketRange>,
)
    requires
        e1.len() <= e2.len() <= e3.len(),
        fin == e3 + us,
        forall|i: int| 0 <= i < e1.len() ==> #[trigger] e2[i] == e1[i],
        forall|i: int| 0 <= i < e2.len() ==> #[trigger] e3[i] == e2[i],
        forall|i: int| 0 <= i < us.len() ==> key_kind(#[trigger] us[i]) == 3,
        forall|i: int| 0 <= i < e1.len() ==> key_kind(#[trigger] e1[i]) == 0,
        forall|i: int| e1.len() <= i < e2.len() ==> key_kind(#[trigger] e2[i]) == 1,
        forall|i: int| e2.len() <= i < e3.len() ==> key_kind(#[trigger] e3[i]) == 2,
        forall|i: int|
            0 <= i < e1.len() ==> {
                &&& id_idx.contains_key(entry_hash(#[trigger] e1[i]))
                &&& id_idx[entry_hash(e1[i])].start <= i
                &&& i < id_idx[entry_hash(e1[i])].start + id_idx[entry_hash(e1[i])].len
            },
        forall|h: u64| #[trigger] id_idx.contains_key(h) ==> 0 <= id_idx[h].start && id_idx[h].start + id_idx[h].len <= e1.len(),
        forall|i: int|
            e1.len() <= i < e2.len() ==> {
                &&& class_idx.contains_key(entry_hash(#[trigger] e2[i]))
                &&& class_idx[entry_hash(e2[i])].start <= i
                &&& i < class_idx[entry_hash(e2[i])].start + class_idx[entry_hash(e2[i])].len
            },
        forall|h: u64| #[trigger] class_idx.contains_key(h) ==> e1.len() <= class_idx[h].start && class_idx[h].start + class_idx[h].len <= e2.len(),
        forall|i: int|
            e2.len() <= i < e3.len() ==> {
                &&& type_idx.contains_key(entry_hash(#[trigger] e3[i]))
                &&& type_idx[entry_hash(e3[i])].start <= i
                &&& i < type_idx[entry_hash(e3[i])].start + type_idx[entry_hash(e3[i])].len
            },
        forall|h: u64| #[trigger] type_idx.contains_key(h) ==> e2.len() <= type_idx[h].start && type_idx[h].start + type_idx[h].len <= e3.len(),
    ensures
        bucket_ok(fin, id_idx, 0u8),
        bucket_ok(fin, class_idx, 1u8),
        bucket_ok(fin, type_idx, 2u8),
        forall|i: int| 0 <= i < fin.len() && key_kind(#[trigger] fin[i]) == 3 ==> e3.len() <= i,
        range_kind(fin, id_idx, 0u8),
        range_kind(fin, class_idx, 1u8),
        range_kind(fin, type_idx, 2u8),
        forall|i: int| e3.len() <= i < fin.len() ==> key_kind(#[trigger] fin[i]) == 3,
{
    assert forall|i: int| 0 <= i < e2.len() implies #[trigger] fin[i] == e2[i] by {
        assert(e3[i] == e2[i]);
    }
    assert forall|i: int| 0 <= i < e1.len() implies #[trigger] fin[i] == e1[i] by {
        assert(e2[i] == e1[i]);
        assert(fin[i] == e2[i]);
    }
    assert forall|i: int| 0 <= i < e3.len() implies #[trigger] fin[i] == e3[i] by {}
    lemma_segment(fin, e1, id_idx, 0u8, 0, e1.len() as int);
    lemma_segment(fin, e2, class_idx, 1u8, e1.len() as int, e2.len() as int);
    lemma_segment(fin, e3, type_idx, 2u8, e2.len() as int, e3.len() as int);
    assert forall|i: int| e3.len() <= i < fin.len() implies key_kind(#[trigger] fin[i]) == 3 by {
        assert(fin[i] == us[i - e3.len()]);
    }
    lemma_layout(fin, e1.len() as int, e2.len() as int, e3.len() as int, id_idx, class_idx, type_idx);
    assert forall|h: u64, i: int|
        #![trigger id_idx.contains_key(h), fin[i]]
        id_idx.contains_key(h) && id_idx[h].start <= i < id_idx[h].start + id_idx[h].len implies key_kind(
            fin[i],
        ) == 0 by {
        assert(fin[i] == e1[i]);
    }
    assert forall|h: u64, i: int|
        #![trigger class_idx.contains_key(h), fin[i]]
        class_idx.contains_key(h) && class_idx[h].start <= i < class_idx[h].start
            + class_idx[h].len implies key_kind(fin[i]) == 1 by {
        assert(fin[i] == e2[i]);
    }
    assert forall|h: u64, i: int|
        #![trigger type_idx.contains_key(h), fin[i]]
        type_idx.contains_key(h) && type_idx[h].start <= i < type_idx[h].start
            + type_idx[h].len implies key_kind(fin[i]) == 2 by {
        assert(fin[i] == e3[i]);
    }
}

/// Multiset algebra of laying out four staging vectors one after another.
proof fn lemma_four_parts(
    a: Seq<RuleEntry>,
    b: Seq<RuleEntry>,
    c: Seq<RuleEntry>,
    d: Seq<RuleEntry>,
    e1: Seq<RuleEntry>,
    e2: Seq<RuleEntry>,
    e3: Seq<RuleEntry>,
    us: Seq<RuleEntry>,
    fin: Seq<RuleEntry>,
)
    requires
        e1.to_multiset() == Seq::<RuleEntry>::empty().to_multiset().add(a.to_multiset()),
        e2.to_multiset() == e1.to_multiset().add(b.to_multiset()),
        e3.to_multiset() == e2.to_multiset().add(c.to_multiset()),
        us.to_multiset() == d.to_multiset(),
        fin == e3 + us,
    ensures
        fin.to_multiset() == (a + b + c + d).to_multiset(),
{
    vstd::seq_lib::lemma_multiset_commutative(a + b + c, d);
    vstd::seq_lib::lemma_multiset_commutative(a + b, c);
    vstd::seq_lib::lemma_multiset_commutative(a, b);
    vstd::seq_lib::lemma_multiset_commutative(e3, us);
    assert(Seq::<RuleEntry>::empty().to_multiset() =~= Multiset::empty());
    assert(e1.to_multiset() =~= a.to_multiset());
    assert(fin.to_multiset() =~= (a + b + c + d).to_multiset());
}

/// Every component from `rightmost_start` on is a simple selector.
proof fn lemma_rightmost_simple(p: Seq<Component>, i: int)
    requires
        rightmost_start(p) <= i < p.len(),
    ensures
        !is_combinator(p[i]),
    decreases p.len(),
{
    lemma_rightmost_bounds(p);
    if !is_combinator(p.last()) && i < p.len() - 1 {
        lemma_rightmost_simple(p.drop_last(), i);
        assert(p.drop_last()[i] == p[i]);
    }
}

/// The key of a compound names one of its components.
proof fn lemma_key_component(cs: Seq<Component>)
    ensures
        match key_of(cs) {
            KeySelector::Id(a) => exists|i: int| 0 <= i < cs.len() && cs[i] == Component::Id(a),
            KeySelector::Class(a) => exists|i: int| 0 <= i < cs.len() && cs[i] == Component::Class(a),
            KeySelector::Type(a) => exists|i: int| 0 <= i < cs.len() && cs[i] == Component::Type(a),
            KeySelector::Universal => true,
        },
    decreases cs.len(),
{
    if cs.len() > 0 {
        let init = cs.drop_last();
        lemma_key_component(init);
        let n = cs.len() - 1;
        assert(cs[n] == cs.last());
        match key_of(init) {
            KeySelector::Id(a) => {
                let i = choose|i: int| 0 <= i < init.len() && init[i] == Component::Id(a);
                assert(cs[i] == init[i]);
            },
            KeySelector::Class(a) => {
                let i = choose|i: int| 0 <= i < init.len() && init[i] == Component::Class(a);
                assert(cs[i] == init[i]);
            },
            KeySelector::Type(a) => {
                let i = choose|i: int| 0 <= i < init.len() && init[i] == Component::Type(a);
                assert(cs[i] == init[i]);
            },
            KeySelector::Universal => {},
        }
    }
}

/// Matching walks the leading simple selectors against the element itself.
proof fn lemma_leading_simple<E: Element>(
    s: Seq<Component>,
    el: E,
    bloom: Option<Seq<u8>>,
    mode: Option<MatchMode>,
    t: int,
    m: int,
)
    requires
        spec_matches_comps(s, el, bloom, mode),
        0 <= t < m <= s.len(),
        forall|j: int| 0 <= j < m ==> !is_combinator(#[trigger] s[j]),
    ensures
        spec_simple(s[t], el, bloom, mode),
    decreases t,
{
    assert(!is_combinator(s[0]));
    if t > 0 {
        assert forall|j: int| 0 <= j < m - 1 implies !is_combinator(#[trigger] s.drop_first()[j]) by {
            assert(s.drop_first()[j] == s[j + 1]);
        }
        lemma_leading_simple(s.drop_first(), el, bloom, mode, t - 1, m - 1);
    }
}

/// A well-formed selector whose components match an element, under any
/// Bloom filter and any mode but quirks mode, has a key that names the
/// element's id, one of its classes or its tag, or no key: the rule applies.
proof fn lemma_comps_match_implies_applies<E: Element>(
    e: RuleEntry,
    el: E,
    bloom: Option<Seq<u8>>,
    mode: Option<MatchMode>,
)
    requires
        selector_wf(e.selector),
        spec_matches_comps(e.selector.comps@, el, bloom, mode),
        !(mode matches Some(md) && md.quirks == QuirksMode::Quirks),
    ensures
        applies(e, el),
{
    let s = e.selector.comps@;
    let p = s.reverse();
    let n = s.len() as int;
    let rs = rightmost_start(p);
    let kc = p.skip(rs);
    lemma_key_component(kc);
    assert(0 <= rs <= n) by {
        lemma_rightmost_bounds(p);
    }
    assert forall|j: int| 0 <= j < n - rs implies !is_combinator(#[trigger] s[j]) by {
        lemma_rightmost_simple(p, n - 1 - j);
        assert(p[n - 1 - j] == s[j]);
    }
    match key_of(kc) {
        KeySelector::Id(a) => {
            let i = choose|i: int| 0 <= i < kc.len() && kc[i] == Component::Id(a);
            assert(s[n - 1 - (rs + i)] == p[rs + i]);
            lemma_leading_simple(s, el, bloom, mode, n - 1 - (rs + i), n - rs);
        },
        KeySelector::Class(a) => {
            let i = choose|i: int| 0 <= i < kc.len() && kc[i] == Component::Class(a);
            assert(s[n - 1 - (rs + i)] == p[rs + i]);
            lemma_leading_simple(s, el, bloom, mode, n - 1 - (rs + i), n - rs);
        },
        KeySelector::Type(a) => {
            let i = choose|i: int| 0 <= i < kc.len() && kc[i] == Component::Type(a);
            assert(s[n - 1 - (rs + i)] == p[rs + i]);
            lemma_leading_simple(s, el, bloom, mode, n - 1 - (rs + i), n - rs);
        },
        KeySelector::Universal => {},
    }
}

/// A well-formed selector that matches an element has a key that names the
/// element's id, one of its classes or its tag, or no key: the rule applies.
pub proof fn lemma_match_implies_applies<E: Element>(e: RuleEntry, el: E)
    requires
        selector_wf(e.selector),
        spec_sel_match(e.selector, el),
    ensures
        applies(e, el),
{
    lemma_comps_match_implies_applies(e, el, None, None);
}

/// The same under a matching context that is not in quirks mode, where
/// class names compare exactly.
pub proof fn lemma_ctx_match_implies_applies<E: Element>(e: RuleEntry, el: E, ctx: MatchingContext)
    requires
        selector_wf(e.selector),
        ctx_sel_match(e.selector, el, ctx),
        ctx.quirks_mode != QuirksMode::Quirks,
    ensures
        applies(e, el),
{
    lemma_comps_match_implies_applies(e, el, bloom_view(ctx.bloom_filter), Some(mode_of(ctx)));
}

/// `rightmost_start` is a position of the sequence.
proof fn lemma_rightmost_bounds(p: Seq<Component>)
    ensures
        0 <= rightmost_start(p) <= p.len(),
    decreases p.len(),
{
    if p.len() > 0 && !is_combinator(p.last()) {
        lemma_rightmost_bounds(p.drop_last());
    }
}

/// What a sequence collects stays collected when it grows at the end.
proof fn lemma_collected_grows(a: Seq<&RuleEntry>, b: Seq<&RuleEntry>, e: RuleEntry)
    requires
        a.len() <= b.len(),
        forall|i: int| 0 <= i < a.len() ==> b[i] == a[i],
        collected(a, e),
    ensures
        collected(b, e),
{
    let k = choose|k: int| 0 <= k < a.len() && *a[k] == e;
    assert(b[k] == a[k]);
}

/// Moves every entry of `src` to the end of `dst`, in order.
fn append_all(dst: &mut Vec<RuleEntry>, src: Vec<RuleEntry>)
    ensures
        final(dst)@.to_multiset() =~= old(dst)@.to_multiset().add(src@.to_multiset()),
        final(dst)@ =~= old(dst)@ + src@,
{
    let mut s = src;
    let ghost orig = s@;
    while s.len() > 0
        invariant
            dst@ + s@ =~= old(dst)@ + orig,
        decreases s@.len(),
    {
        let e = s.remove(0);
        dst.push(e);
    }
    proof {
        vstd::seq_lib::lemma_multiset_commutative(old(dst)@, orig);
    }
}

/// `a` comes before `b` in bucket order.
fn entry_goes_first(a: &RuleEntry, b: &RuleEntry) -> (r: bool)
    ensures
        r == entry_before(*a, *b),
{
    a.specificity.0 > b.specificity.0 || (a.specificity.0 == b.specificity.0 && a.source_order
        >= b.source_order)
}

/// `a` comes before `b` in storage order.
fn keyed_goes_first(a: &RuleEntry, b: &RuleEntry) -> (r: bool)
    ensures
        r == keyed_before(*a, *b),
{
    let ha = entry_key_hash(a);
    let hb = entry_key_hash(b);
    ha < hb || (ha == hb && entry_goes_first(a, b))
}

/// Insert `x` into a vector in storage order, after every entry that comes before it.
fn insert_sorted(v: &mut Vec<RuleEntry>, x: RuleEntry)
    requires
        sorted_keyed(old(v)@),
    ensures
        sorted_keyed(final(v)@),
        final(v)@.to_multiset() =~= old(v)@.to_multiset().insert(x),
{
    let mut p: usize = 0;
    while p < v.len() && keyed_goes_first(&v[p], &x)
        invariant
            p <= v@.len(),
            forall|k: int| 0 <= k < p ==> keyed_before(#[trigger] v@[k], x),
        decreases v@.len() - p,
    {
        p = p + 1;
    }
    proof {
        vstd::seq_lib::to_multiset_insert(v@, p as int, x);
        if p < v@.len() {
            assert(!keyed_before(v@[p as int], x));
        }
    }
    let ghost before = v@;
    v.insert(p, x);
    proof {
        assert forall|i: int, j: int| 0 <= i < j < v@.len() implies keyed_before(
            #[trigger] v@[i],
            #[trigger] v@[j],
        ) by {
            if j < p {
                assert(v@[i] == before[i] && v@[j] == before[j]);
            } else if j == p {
                assert(v@[i] == before[i]);
            } else if i < p {
                assert(v@[i] == before[i] && v@[j] == before[j - 1]);
                assert(keyed_before(before[i], before[j - 1]));
            } else if i == p {
                assert(v@[j] == before[j - 1]);
                assert(!keyed_before(before[p as int], x));
                assert(keyed_before(before[p as int], before[j - 1]) || j - 1 == p);
            } else {
                assert(v@[i] == before[i - 1] && v@[j] == before[j - 1]);
            }
        }
    }
}

/// Sort entries into storage order: by key hash, then highest specificity
/// first, then latest first.
fn sort_bucket(bucket: Vec<RuleEntry>) -> (r: Vec<RuleEntry>)
    ensures
        sorted_keyed(r@),
        r@.to_multiset() =~= bucket@.to_multiset(),
{
    let mut src = bucket;
    let mut out: Vec<RuleEntry> = Vec::new();
    let ghost orig = src@;
    proof {
        vstd::seq_lib::lemma_multiset_commutative(Seq::<RuleEntry>::empty(), orig);
        assert(Seq::<RuleEntry>::empty() + orig =~= orig);
    }
    while src.len() > 0
        invariant
            sorted_keyed(out@),
            out@.to_multiset().add(src@.to_multiset()) =~= orig.to_multiset(),
        decreases src@.len(),
    {
        let ghost s0 = src@;
        let e = src.remove(0);
        proof {
            vstd::seq_lib::to_multiset_remove(s0, 0);
        }
        insert_sorted(&mut out, e);
    }
    out
}

/// The bucket hash of an entry's key name.
fn entry_key_hash(e: &RuleEntry) -> (r: u64)
    ensures
        r == name_hash(key_name(*e)),
{
    match &e.selector.hint.key {
        KeySelector::Id(k) => hash_str(k.as_str()),
        KeySelector::Class(k) => hash_str(k.as_str()),
        KeySelector::Type(k) => hash_str(k.as_str()),
        KeySelector::Universal => {
            let empty = String::new();
            hash_str(empty.as_str())
        },
    }
}

/// Sorts the staged entries of one kind into storage order, moves them to
/// the end of `entries` and returns the range of each key hash.
fn flatten_into(staging: Vec<RuleEntry>, entries: &mut Vec<RuleEntry>, Ghost(kind): Ghost<u8>) -> (r:
    HashMap<u64, BucketRange>)
    requires
        old(entries)@.len() + staging@.len() <= u32::MAX,
        forall|i: int| 0 <= i < staging@.len() ==> key_kind(#[trigger] staging@[i]) == kind,
    ensures
        final(entries)@.len() == old(entries)@.len() + staging@.len(),
        forall|i: int|
            0 <= i < old(entries)@.len() ==> #[trigger] final(entries)@[i] == old(entries)@[i],
        final(entries)@.to_multiset() =~= old(entries)@.to_multiset().add(staging@.to_multiset()),
        forall|i: int|
            old(entries)@.len() <= i < final(entries)@.len() ==> key_kind(
                #[trigger] final(entries)@[i],
            ) == kind,
        forall|i: int|
            old(entries)@.len() <= i < final(entries)@.len() ==> {
                &&& r@.contains_key(entry_hash(#[trigger] final(entries)@[i]))
                &&& r@[entry_hash(final(entries)@[i])].start <= i
                &&& i < r@[entry_hash(final(entries)@[i])].start + r@[entry_hash(
                    final(entries)@[i],
                )].len
            },
        forall|h: u64|
            #[trigger] r@.contains_key(h) ==> old(entries)@.len() <= r@[h].start && r@[h].start
                + r@[h].len <= final(entries)@.len(),
{
    let mut index: HashMap<u64, BucketRange> = HashMap::new();
    let ghost e0 = entries@;
    let ghost n0 = e0.len();
    let ghost st = staging@;
    let sorted = sort_bucket(staging);
    let ghost ss = sorted@;
    proof {
        assert forall|i: int| 0 <= i < ss.len() implies key_kind(#[trigger] ss[i]) == kind by {
            assert(ss.to_multiset().count(ss[i]) > 0);
            assert(st.to_multiset().count(ss[i]) > 0);
            assert(st.contains(ss[i]));
        }
        assert(ss.len() == st.len()) by {
            assert(ss.to_multiset().len() == st.to_multiset().len());
        }
    }
    let mut src = sorted;
    let mut cur: u64 = 0;
    let mut start: usize = entries.len();
    proof {
        assert(src@ =~= ss.skip(0));
    }
    while src.len() > 0
        invariant
            n0 == e0.len(),
            entries@.len() + src@.len() == n0 + ss.len(),
            n0 + ss.len() <= u32::MAX,
            n0 <= entries@.len(),
            forall|i: int| 0 <= i < n0 ==> #[trigger] entries@[i] == e0[i],
            forall|i: int| n0 <= i < entries@.len() ==> #[trigger] entries@[i] == ss[i - n0],
            src@ == ss.skip(entries@.len() - n0),
            sorted_keyed(ss),
            forall|i: int| 0 <= i < ss.len() ==> key_kind(#[trigger] ss[i]) == kind,
            n0 <= start <= entries@.len(),
            start == entries@.len() ==> start == n0,
            forall|i: int| start <= i < entries@.len() ==> entry_hash(#[trigger] entries@[i]) == cur,
            forall|i: int| n0 <= i < start ==> entry_hash(#[trigger] entries@[i]) < cur,
            forall|i: int|
                n0 <= i < entries@.len() ==> {
                    &&& index@.contains_key(entry_hash(#[trigger] entries@[i]))
                    &&& index@[entry_hash(entries@[i])].start <= i
                    &&& i < index@[entry_hash(entries@[i])].start + index@[entry_hash(
                        entries@[i],
                    )].len
                },
            forall|h: u64|
                #[trigger] index@.contains_key(h) ==> n0 <= index@[h].start && index@[h].start
                    + index@[h].len <= entries@.len(),
        decreases src@.len(),
    {
        let ghost k = entries@.len() - n0;
        let ghost old_entries = entries@;
        let ghost old_start = start;
        let ghost old_cur = cur;
        let e = src.remove(0);
        proof {
            assert(e == ss[k]);
            assert(src@ =~= ss.skip(k + 1));
        }
        let h = entry_key_hash(&e);
        let same = start < entries.len() && h == cur;
        if !same {
            proof {
                if start < entries@.len() {
                    let last = entries@.len() - 1;
                    assert(entries@[last] == ss[k - 1]);
                    assert(keyed_before(ss[k - 1], ss[k]));
                    assert(entry_hash(entries@[last]) == cur);
                }
            }
            start = entries.len();
            cur = h;
        }
        entries.push(e);
        let len = entries.len() - start;
        index.insert(h, BucketRange { start: start as u32, len: len as u32 });
        proof {
            assert forall|i: int| start <= i < entries@.len() implies entry_hash(
                #[trigger] entries@[i],
            ) == cur by {
                if i < entries@.len() - 1 {
                    assert(entries@[i] == old_entries[i]);
                }
            }
            assert forall|i: int| n0 <= i < start implies entry_hash(#[trigger] entries@[i]) < cur by {
                assert(entries@[i] == old_entries[i]);
                if !same {
                    if old_start <= i {
                        assert(entry_hash(old_entries[i]) == old_cur);
                    }
                }
            }
            assert forall|i: int|
                n0 <= i < entries@.len() implies {
                    &&& index@.contains_key(entry_hash(#[trigger] entries@[i]))
                    &&& index@[entry_hash(entries@[i])].start <= i
                    &&& i < index@[entry_hash(entries@[i])].start + index@[entry_hash(
                        entries@[i],
                    )].len
                } by {
                if i < entries@.len() - 1 {
                    assert(entries@[i] == old_entries[i]);
                    if entry_hash(entries@[i]) == h {
                        assert(start <= i);
                    }
                }
            }
        }
    }
    proof {
        assert(entries@.len() == n0 + ss.len());
        assert forall|i: int| n0 <= i < entries@.len() implies key_kind(#[trigger] entries@[i]) == kind by {
            assert(entries@[i] == ss[i - n0]);
        }
        assert(entries@ =~= e0 + ss);
        vstd::seq_lib::lemma_multiset_commutative(e0, ss);
    }
    index
}

/// Bucketed rule map: flat storage, hash lookups, sorted buckets.
#[derive(Debug)]
pub struct RuleMap {
    entries: Vec<RuleEntry>,
    id_index: HashMap<u64, BucketRange>,
    class_index: HashMap<u64, BucketRange>,
    type_index: HashMap<u64, BucketRange>,
    universal_range: BucketRange,
    rule_count: u32,
}

impl RuleMap {
    /// Every keyed entry lies in the bucket range of its key hash, and the
    /// keyless entries in the universal range.
    #[verifier::type_invariant]
    spec fn inv(self) -> bool {
        &&& bucket_ok(self.entries@, self.id_index@, 0u8)
        &&& bucket_ok(self.entries@, self.class_index@, 1u8)
        &&& bucket_ok(self.entries@, self.type_index@, 2u8)
        &&& forall|i: int|
            0 <= i < self.entries@.len() && key_kind(#[trigger] self.entries@[i]) == 3 ==> self.universal_range.start <= i
                < self.universal_range.start + self.universal_range.len
        &&& self.universal_range.start + self.universal_range.len <= self.entries@.len()
        &&& range_kind(self.entries@, self.id_index@, 0u8)
        &&& range_kind(self.entries@, self.class_index@, 1u8)
        &&& range_kind(self.entries@, self.type_index@, 2u8)
        &&& forall|i: int|
            self.universal_range.start <= i < self.universal_range.start + self.universal_range.len
                ==> key_kind(#[trigger] self.entries@[i]) == 3
    }

    /// The rules of the map.
    pub closed spec fn entry_set(&self) -> Multiset<RuleEntry> {
        self.entries@.to_multiset()
    }

    /// The rules of the map, in storage order.
    pub closed spec fn entry_seq(&self) -> Seq<RuleEntry> {
        self.entries@
    }

    /// Number of rules.
    pub closed spec fn len_spec(&self) -> u32 {
        self.rule_count
    }

    /// Create a builder for constructing a `RuleMap`.
    pub fn builder() -> (r: RuleMapBuilder)
        ensures
            r.wf(),
            r.staged() =~= Multiset::empty(),
            r.count() == 0,
    {
        RuleMapBuilder::new()
    }

    /// The matching entries of one range whose key names `name` (or of the
    /// universal range, `name` being `None`), appended to `out`.
    fn collect_range<'a, E: Element>(
        &'a self,
        range: BucketRange,
        name: Option<&Atom>,
        element: &E,
        out: &mut Vec<&'a RuleEntry>,
    )
        requires
            element_laws::<E>(),
        ensures
            final(out)@.len() >= old(out)@.len(),
            forall|i: int| 0 <= i < old(out)@.len() ==> final(out)@[i] == old(out)@[i],
            forall|i: int|
                old(out)@.len() <= i < final(out)@.len() ==> self.entries@.contains(
                    *#[trigger] final(out)@[i],
                ) && spec_sel_match(final(out)@[i].selector, *element) && match name {
                    Some(n) => key_name(*final(out)@[i]) == n@,
                    None => true,
                },
            forall|i: int|
                range.start <= i < range.start + range.len && i < self.entries@.len() && name_ok(
                    #[trigger] self.entries@[i],
                    crate::element::opt_atom_view(name),
                ) && spec_sel_match(self.entries@[i].selector, *element) ==> collected(
                    final(out)@,
                    self.entries@[i],
                ),
    {
        let start = range.start as usize;
        let end_wide: u64 = range.start as u64 + range.len as u64;
        let end: usize = if end_wide > self.entries.len() as u64 {
            self.entries.len()
        } else {
            end_wide as usize
        };
        let mut i = start;
        while i < end
            invariant
                element_laws::<E>(),
                end <= self.entries@.len(),
                out@.len() >= old(out)@.len(),
                forall|k: int| 0 <= k < old(out)@.len() ==> out@[k] == old(out)@[k],
                forall|k: int|
                    old(out)@.len() <= k < out@.len() ==> self.entries@.contains(
                        *#[trigger] out@[k],
                    ) && spec_sel_match(out@[k].selector, *element) && match name {
                        Some(n) => key_name(*out@[k]) == n@,
                        None => true,
                    },
                start == range.start,
                start <= i,
                end as int == if range.start + range.len > self.entries@.len() {
                    self.entries@.len() as int
                } else {
                    range.start + range.len
                },
                forall|j: int|
                    start <= j < i && name_ok(
                        #[trigger] self.entries@[j],
                        crate::element::opt_atom_view(name),
                    ) && spec_sel_match(self.entries@[j].selector, *element) ==> collected(
                        out@,
                        self.entries@[j],
                    ),
            decreases end - i,
        {
            let entry = &self.entries[i];
            let key_ok = match name {
                Some(n) => key_is(entry, n),
                None => true,
            };
            let ghost before = out@;
            if key_ok && crate::matching::matches(&entry.selector, element) {
                proof {
                    assert(self.entries@[i as int] == *entry);
                }
                out.push(entry);
                proof {
                    assert(*out@[out@.len() - 1] == self.entries@[i as int]);
                }
            }
            proof {
                assert forall|j: int|
                    start <= j < i + 1 && name_ok(
                        #[trigger] self.entries@[j],
                        crate::element::opt_atom_view(name),
                    ) && spec_sel_match(self.entries@[j].selector, *element) implies collected(
                        out@,
                        self.entries@[j],
                    ) by {
                    if j < i {
                        let k = choose|k: int| 0 <= k < before.len() && *before[k] == self.entries@[j];
                        assert(out@[k] == before[k]);
                    } else {
                        assert(*out@[out@.len() - 1] == self.entries@[j]);
                    }
                }
            }
            i = i + 1;
        }
    }

    /// Collect all matching rules: those whose key names the element's id,
    /// one of its classes or its tag, and the keyless ones; sorted by
    /// specificity (highest first), then source order (latest first). Every
    /// rule of the map whose (well-formed) selector matches is among them.
    pub fn find_matching<'a, E: Element>(&'a self, element: &E) -> (r: Vec<&'a RuleEntry>)
        requires
            element_laws::<E>(),
        ensures
            forall|i: int|
                0 <= i < r@.len() ==> self.entry_seq().contains(*#[trigger] r@[i])
                    && spec_sel_match(r@[i].selector, *element),
            forall|i: int, j: int|
                0 <= i < j < r@.len() ==> entry_before(*#[trigger] r@[i], *#[trigger] r@[j]),
            forall|e: RuleEntry|
                #[trigger] self.entry_seq().contains(e) && selector_wf(e.selector)
                    && spec_sel_match(e.selector, *element) ==> collected(r@, e),
    {
        proof {
            use_type_invariant(self);
        }
        let out = self.visit_order(element);
        let ghost o = out@;
        let r = sort_refs(out);
        proof {
            assert forall|i: int| 0 <= i < r@.len() implies self.entry_seq().contains(
                *#[trigger] r@[i],
            ) && spec_sel_match(r@[i].selector, *element) by {
                let x = r@[i];
                assert(r@.contains(x));
                vstd::seq_lib::to_multiset_contains(r@, x);
                vstd::seq_lib::to_multiset_contains(o, x);
                assert(o.contains(x));
                let k = choose|k: int| 0 <= k < o.len() && o[k] == x;
                assert(self.entry_seq().contains(*o[k]));
            }
            assert forall|e: RuleEntry|
                #[trigger] self.entry_seq().contains(e) && selector_wf(e.selector)
                    && spec_sel_match(e.selector, *element) implies collected(r@, e) by {
                assert(collected(o, e));
                let k = choose|k: int| 0 <= k < o.len() && *o[k] == e;
                let x = o[k];
                assert(o.contains(x));
                vstd::seq_lib::to_multiset_contains(o, x);
                vstd::seq_lib::to_multiset_contains(r@, x);
                assert(r@.contains(x));
                let m = choose|m: int| 0 <= m < r@.len() && r@[m] == x;
                assert(*r@[m] == e);
            }
        }
        r
    }

    /// Visit all matching rules (the entries of `find_matching`, bucket by
    /// bucket: id, classes, tag, universal) with `f`.
    pub fn for_each_matching<E: Element, F: Fn(&RuleEntry)>(&self, element: &E, f: F)
        requires
            element_laws::<E>(),
            forall|e: &RuleEntry| #[trigger] f.requires((e,)),
    {
        let found = self.visit_order(element);
        let mut i: usize = 0;
        while i < found.len()
            invariant
                element_laws::<E>(),
                forall|e: &RuleEntry| #[trigger] f.requires((e,)),
            decreases found@.len() - i,
        {
            f(found[i]);
            i = i + 1;
        }
    }

    /// The matching entries in visit order: id bucket, class buckets, tag
    /// bucket, universal bucket. Each one matches, and every rule of the map
    /// whose (well-formed) selector matches is among them.
    fn visit_order<'a, E: Element>(&'a self, element: &E) -> (r: Vec<&'a RuleEntry>)
        requires
            element_laws::<E>(),
        ensures
            forall|i: int|
                0 <= i < r@.len() ==> self.entry_seq().contains(*#[trigger] r@[i])
                    && spec_sel_match(r@[i].selector, *element),
            forall|e: RuleEntry|
                #[trigger] self.entry_seq().contains(e) && selector_wf(e.selector)
                    && spec_sel_match(e.selector, *element) ==> collected(r@, e),
    {
        proof {
            use_type_invariant(self);
        }
        let ghost es = self.entries@;
        let mut out: Vec<&'a RuleEntry> = Vec::new();
        match element.id() {
            Some(id) => {
                match self.id_index.get(&hash_str(id.as_str())) {
                    Some(range) => self.collect_range(*range, Some(id), element, &mut out),
                    None => {},
                }
            },
            None => {},
        }
        proof {
            assert forall|i: int|
                0 <= i < es.len() && key_kind(#[trigger] es[i]) == 0 && applies(es[i], *element)
                    && spec_sel_match(es[i].selector, *element) implies collected(out@, es[i]) by {
                assert(entry_hash(es[i]) == name_hash(key_name(es[i])));
            }
        }
        let classes = element.class_list();
        let mut k: usize = 0;
        while k < classes.len()
            invariant
                element_laws::<E>(),
                es == self.entries@,
                bucket_ok(es, self.class_index@, 1u8),
                classes@.len() == element.spec_classes().len(),
                forall|j: int|
                    0 <= j < classes@.len() ==> (#[trigger] classes@[j])@ == element.spec_classes()[j],
                forall|i: int|
                    0 <= i < out@.len() ==> self.entries@.contains(*#[trigger] out@[i])
                        && spec_sel_match(out@[i].selector, *element),
                forall|i: int|
                    0 <= i < es.len() && key_kind(#[trigger] es[i]) == 0 && applies(es[i], *element)
                        && spec_sel_match(es[i].selector, *element) ==> collected(out@, es[i]),
                forall|i: int|
                    0 <= i < es.len() && key_kind(#[trigger] es[i]) == 1 && (exists|j: int|
                        0 <= j < k && classes@[j]@ == key_name(es[i])) && spec_sel_match(
                        es[i].selector,
                        *element,
                    ) ==> collected(out@, es[i]),
            decreases classes@.len() - k,
        {
            let ghost before = out@;
            match self.class_index.get(&hash_str(classes[k].as_str())) {
                Some(range) => self.collect_range(*range, Some(&classes[k]), element, &mut out),
                None => {},
            }
            proof {
                assert forall|i: int|
                    0 <= i < es.len() && key_kind(#[trigger] es[i]) == 0 && applies(es[i], *element)
                        && spec_sel_match(es[i].selector, *element) implies collected(out@, es[i]) by {
                    lemma_collected_grows(before, out@, es[i]);
                }
                assert forall|i: int|
                    0 <= i < es.len() && key_kind(#[trigger] es[i]) == 1 && (exists|j: int|
                        0 <= j < k + 1 && classes@[j]@ == key_name(es[i])) && spec_sel_match(
                        es[i].selector,
                        *element,
                    ) implies collected(out@, es[i]) by {
                    if exists|j: int| 0 <= j < k && classes@[j]@ == key_name(es[i]) {
                        lemma_collected_grows(before, out@, es[i]);
                    } else {
                        assert(classes@[k as int]@ == key_name(es[i]));
                        assert(entry_hash(es[i]) == name_hash(key_name(es[i])));
                    }
                }
            }
            k = k + 1;
        }
        let ghost before_t = out@;
        match self.type_index.get(&hash_str(element.local_name().as_str())) {
            Some(range) => self.collect_range(*range, Some(element.local_name()), element, &mut out),
            None => {},
        }
        let ghost before_u = out@;
        self.collect_range(self.universal_range, None, element, &mut out);
        let ghost o = out@;
        proof {
            assert forall|i: int|
                0 <= i < es.len() && applies(#[trigger] es[i], *element) && spec_sel_match(
                    es[i].selector,
                    *element,
                ) implies collected(o, es[i]) by {
                let kd = key_kind(es[i]);
                if kd == 0 {
                    lemma_collected_grows(before_t, before_u, es[i]);
                    lemma_collected_grows(before_u, o, es[i]);
                } else if kd == 1 {
                    let kn = key_name(es[i]);
                    assert(element.spec_classes().contains(kn));
                    let j = choose|j: int| 0 <= j < element.spec_classes().len() && element.spec_classes()[j] == kn;
                    assert(classes@[j]@ == kn);
                    lemma_collected_grows(before_t, before_u, es[i]);
                    lemma_collected_grows(before_u, o, es[i]);
                } else if kd == 2 {
                    assert(entry_hash(es[i]) == name_hash(key_name(es[i])));
                    lemma_collected_grows(before_u, o, es[i]);
                } else {
                }
            }
        }
        proof {
            assert forall|e: RuleEntry|
                #[trigger] self.entry_seq().contains(e) && selector_wf(e.selector)
                    && spec_sel_match(e.selector, *element) implies collected(o, e) by {
                let i = choose|i: int| 0 <= i < es.len() && es[i] == e;
                lemma_match_implies_applies(e, *element);
                assert(collected(o, es[i]));
            }
        }
        out
    }

    /// The entries of one range whose key names `name` (or of the universal
    /// range, `name` being `None`) that match under the context, appended to
    /// `out`.
    fn collect_range_ctx<'a, E: Element>(
        &'a self,
        range: BucketRange,
        name: Option<&Atom>,
        element: &E,
        ctx: &mut MatchingContext,
        out: &mut Vec<&'a RuleEntry>,
    ) -> (ps: Ghost<Seq<int>>)
        requires
            element_laws::<E>(),
            bloom_wf(old(ctx).bloom_filter),
        ensures
            ctx_kept::<E>(*old(ctx), *final(ctx)),
            ps@.len() == final(out)@.len() - old(out)@.len(),
            forall|t: int|
                0 <= t < ps@.len() ==> range.start <= #[trigger] ps@[t] < range.start + range.len
                    && ps@[t] < self.entries@.len() && *final(out)@[old(out)@.len() + t]
                    == self.entries@[ps@[t]] && name_ok(
                    self.entries@[ps@[t]],
                    crate::element::opt_atom_view(name),
                ),
            forall|t1: int, t2: int| 0 <= t1 < t2 < ps@.len() ==> ps@[t1] < ps@[t2],
            final(out)@.len() >= old(out)@.len(),
            forall|i: int| 0 <= i < old(out)@.len() ==> final(out)@[i] == old(out)@[i],
            forall|i: int|
                old(out)@.len() <= i < final(out)@.len() ==> self.entries@.contains(
                    *#[trigger] final(out)@[i],
                ) && (caches_coherent::<E>(*old(ctx).caches) ==> ctx_sel_match(
                    final(out)@[i].selector,
                    *element,
                    *old(ctx),
                )),
            caches_coherent::<E>(*old(ctx).caches) ==> forall|i: int|
                range.start <= i < range.start + range.len && i < self.entries@.len() && name_ok(
                    #[trigger] self.entries@[i],
                    crate::element::opt_atom_view(name),
                ) && ctx_sel_match(self.entries@[i].selector, *element, *old(ctx)) ==> collected(
                    final(out)@,
                    self.entries@[i],
                ),
    {
        proof {
            lemma_kept_refl::<E>(*ctx);
        }
        let start = range.start as usize;
        let end_wide: u64 = range.start as u64 + range.len as u64;
        let end: usize = if end_wide > self.entries.len() as u64 {
            self.entries.len()
        } else {
            end_wide as usize
        };
        let mut i = start;
        let ghost mut ps: Seq<int> = Seq::empty();
        while i < end
            invariant
                element_laws::<E>(),
                end <= self.entries@.len(),
                bloom_wf(ctx.bloom_filter),
                ctx_kept::<E>(*old(ctx), *ctx),
                ps.len() == out@.len() - old(out)@.len(),
                forall|t: int|
                    0 <= t < ps.len() ==> range.start <= #[trigger] ps[t] < i && ps[t] < end && *out@[old(
                        out,
                    )@.len() + t] == self.entries@[ps[t]] && name_ok(
                        self.entries@[ps[t]],
                        crate::element::opt_atom_view(name),
                    ),
                forall|t1: int, t2: int| 0 <= t1 < t2 < ps.len() ==> ps[t1] < ps[t2],
                out@.len() >= old(out)@.len(),
                forall|k: int| 0 <= k < old(out)@.len() ==> out@[k] == old(out)@[k],
                forall|k: int|
                    old(out)@.len() <= k < out@.len() ==> self.entries@.contains(
                        *#[trigger] out@[k],
                    ) && (caches_coherent::<E>(*old(ctx).caches) ==> ctx_sel_match(
                        out@[k].selector,
                        *element,
                        *old(ctx),
                    )),
                start == range.start,
                start <= i,
                end as int == if range.start + range.len > self.entries@.len() {
                    self.entries@.len() as int
                } else {
                    range.start + range.len
                },
                caches_coherent::<E>(*old(ctx).caches) ==> forall|j: int|
                    start <= j < i && name_ok(
                        #[trigger] self.entries@[j],
                        crate::element::opt_atom_view(name),
                    ) && ctx_sel_match(self.entries@[j].selector, *element, *old(ctx))
                        ==> collected(out@, self.entries@[j]),
            decreases end - i,
        {
            let entry = &self.entries[i];
            let key_ok = match name {
                Some(n) => key_is(entry, n),
                None => true,
            };
            let ghost before = out@;
            let ghost cb = *ctx;
            if key_ok {
                let m = matches_in_context(&entry.selector, element, ctx);
                proof {
                    lemma_kept_trans::<E>(*old(ctx), cb, *ctx);
                    assert(mode_of(cb) == mode_of(*old(ctx)));
                    assert(self.entries@[i as int] == *entry);
                }
                if m {
                    out.push(entry);
                    proof {
                        assert(*out@[out@.len() - 1] == self.entries@[i as int]);
                        ps = ps.push(i as int);
                    }
                }
            }
            proof {
                assert forall|t: int|
                    0 <= t < ps.len() implies range.start <= #[trigger] ps[t] < i + 1 && ps[t] < end && *out@[old(
                        out,
                    )@.len() + t] == self.entries@[ps[t]] && name_ok(
                        self.entries@[ps[t]],
                        crate::element::opt_atom_view(name),
                    ) by {
                    if old(out)@.len() + t < before.len() {
                        assert(out@[old(out)@.len() + t] == before[old(out)@.len() + t]);
                    }
                }
                assert forall|k: int|
                    old(out)@.len() <= k < out@.len() implies self.entries@.contains(
                        *#[trigger] out@[k],
                    ) && (caches_coherent::<E>(*old(ctx).caches) ==> ctx_sel_match(
                        out@[k].selector,
                        *element,
                        *old(ctx),
                    )) by {
                    if k < before.len() {
                        assert(out@[k] == before[k]);
                    }
                }
                if caches_coherent::<E>(*old(ctx).caches) {
                    assert forall|j: int|
                        start <= j < i + 1 && name_ok(
                            #[trigger] self.entries@[j],
                            crate::element::opt_atom_view(name),
                        ) && ctx_sel_match(self.entries@[j].selector, *element, *old(ctx))
                            implies collected(out@, self.entries@[j]) by {
                        if j < i {
                            let k = choose|k: int|
                                0 <= k < before.len() && *before[k] == self.entries@[j];
                            assert(out@[k] == before[k]);
                        } else {
                            assert(*out@[out@.len() - 1] == self.entries@[j]);
                        }
                    }
                }
            }
            i = i + 1;
        }
        Ghost(ps)
    }

    /// The entries matching under the context, in visit order: id bucket,
    /// class buckets, tag bucket, universal bucket, with their positions in
    /// storage. With caches that agree with the document, each one matches
    /// under the context's filter and mode, and every rule of the map that
    /// applies to the element and matches so is among them; the keyless
    /// rules, which always apply, are always tested. When the element's
    /// classes are distinct, no position comes twice.
    fn visit_order_ctx<'a, E: Element>(
        &'a self,
        element: &E,
        ctx: &mut MatchingContext,
    ) -> (r: (Vec<&'a RuleEntry>, Ghost<Seq<int>>))
        requires
            element_laws::<E>(),
            bloom_wf(old(ctx).bloom_filter),
        ensures
            ctx_kept::<E>(*old(ctx), *final(ctx)),
            r.1@.len() == r.0@.len(),
            forall|i: int|
                0 <= i < r.0@.len() ==> 0 <= #[trigger] r.1@[i] < self.entry_seq().len()
                    && *r.0@[i] == self.entry_seq()[r.1@[i]] && (caches_coherent::<E>(
                    *old(ctx).caches,
                ) ==> ctx_sel_match(r.0@[i].selector, *element, *old(ctx))),
            element.spec_classes().no_duplicates() ==> forall|i: int, j: int|
                0 <= i < j < r.1@.len() ==> r.1@[i] != r.1@[j],
            caches_coherent::<E>(*old(ctx).caches) ==> forall|e: RuleEntry|
                #[trigger] self.entry_seq().contains(e) && applies(e, *element) && ctx_sel_match(
                    e.selector,
                    *element,
                    *old(ctx),
                ) ==> collected(r.0@, e),
            caches_coherent::<E>(*old(ctx).caches) && old(ctx).quirks_mode != QuirksMode::Quirks
                ==> forall|e: RuleEntry|
                #[trigger] self.entry_seq().contains(e) && selector_wf(e.selector)
                    && ctx_sel_match(e.selector, *element, *old(ctx)) ==> collected(r.0@, e),
    {
        proof {
            use_type_invariant(self);
            lemma_kept_refl::<E>(*ctx);
        }
        let ghost es = self.entries@;
        let ghost c0 = *ctx;
        let ghost co = caches_coherent::<E>(*c0.caches);
        let ghost dc = element.spec_classes().no_duplicates();
        let mut out: Vec<&'a RuleEntry> = Vec::new();
        let ghost mut pos: Seq<int> = Seq::empty();
        match element.id() {
            Some(id) => {
                let h = hash_str(id.as_str());
                match self.id_index.get(&h) {
                    Some(range) => {
                        let ps = self.collect_range_ctx(*range, Some(id), element, ctx, &mut out);
                        proof {
                            assert forall|t: int| 0 <= t < ps@.len() implies key_kind(
                                #[trigger] es[ps@[t]],
                            ) == 0 by {
                                assert(self.id_index@.contains_key(h));
                            }
                            pos = ps@;
                        }
                    },
                    None => {},
                }
            },
            None => {},
        }
        proof {
            assert(mode_of(*ctx) == mode_of(c0));
            if co {
                assert forall|i: int|
                    0 <= i < es.len() && key_kind(#[trigger] es[i]) == 0 && applies(es[i], *element)
                        && ctx_sel_match(es[i].selector, *element, c0) implies collected(
                        out@,
                        es[i],
                    ) by {
                    assert(entry_hash(es[i]) == name_hash(key_name(es[i])));
                }
            }
        }
        let classes = element.class_list();
        let mut k: usize = 0;
        while k < classes.len()
            invariant
                element_laws::<E>(),
                es == self.entries@,
                self.inv(),
                bloom_wf(ctx.bloom_filter),
                ctx_kept::<E>(c0, *ctx),
                co == caches_coherent::<E>(*c0.caches),
                dc == element.spec_classes().no_duplicates(),
                bucket_ok(es, self.class_index@, 1u8),
                classes@.len() == element.spec_classes().len(),
                forall|j: int|
                    0 <= j < classes@.len() ==> (#[trigger] classes@[j])@ == element.spec_classes()[j],
                pos.len() == out@.len(),
                forall|t: int|
                    0 <= t < out@.len() ==> 0 <= #[trigger] pos[t] < es.len() && *out@[t]
                        == es[pos[t]] && (key_kind(es[pos[t]]) == 0 || (key_kind(es[pos[t]]) == 1
                        && exists|j: int| 0 <= j < k && classes@[j]@ == key_name(es[pos[t]]))),
                dc ==> forall|t1: int, t2: int| 0 <= t1 < t2 < pos.len() ==> pos[t1] != pos[t2],
                forall|i: int|
                    0 <= i < out@.len() ==> (co ==> ctx_sel_match(
                        (#[trigger] out@[i]).selector,
                        *element,
                        c0,
                    )),
                co ==> forall|i: int|
                    0 <= i < es.len() && key_kind(#[trigger] es[i]) == 0 && applies(es[i], *element)
                        && ctx_sel_match(es[i].selector, *element, c0) ==> collected(out@, es[i]),
                co ==> forall|i: int|
                    0 <= i < es.len() && key_kind(#[trigger] es[i]) == 1 && (exists|j: int|
                        0 <= j < k && classes@[j]@ == key_name(es[i])) && ctx_sel_match(
                        es[i].selector,
                        *element,
                        c0,
                    ) ==> collected(out@, es[i]),
            decreases classes@.len() - k,
        {
            let ghost before = out@;
            let ghost pb = pos;
            let ghost cb = *ctx;
            let h = hash_str(classes[k].as_str());
            match self.class_index.get(&h) {
                Some(range) => {
                    let ps = self.collect_range_ctx(
                        *range,
                        Some(&classes[k]),
                        element,
                        ctx,
                        &mut out,
                    );
                    proof {
                        assert forall|t: int| 0 <= t < ps@.len() implies key_kind(
                            #[trigger] es[ps@[t]],
                        ) == 1 && key_name(es[ps@[t]]) == classes@[k as int]@ by {
                            assert(self.class_index@.contains_key(h));
                        }
                        if dc {
                            assert forall|t1: int, t2: int|
                                0 <= t1 < pb.len() && 0 <= t2 < ps@.len() implies #[trigger] pb[t1]
                                != #[trigger] ps@[t2] by {
                                assert(key_kind(es[ps@[t2]]) == 1);
                                if key_kind(es[pb[t1]]) == 1 {
                                    let j = choose|j: int|
                                        0 <= j < k && classes@[j]@ == key_name(es[pb[t1]]);
                                    assert(element.spec_classes()[j] != element.spec_classes()[k as int]);
                                }
                            }
                        }
                        pos = pb + ps@;
                    }
                },
                None => {
                    proof {
                        lemma_kept_refl::<E>(*ctx);
                    }
                },
            }
            proof {
                lemma_kept_trans::<E>(c0, cb, *ctx);
                assert(mode_of(cb) == mode_of(c0));
                assert forall|t: int|
                    0 <= t < out@.len() implies 0 <= #[trigger] pos[t] < es.len() && *out@[t]
                        == es[pos[t]] && (key_kind(es[pos[t]]) == 0 || (key_kind(es[pos[t]]) == 1
                        && exists|j: int| 0 <= j < k + 1 && classes@[j]@ == key_name(es[pos[t]])))
                    by {
                    if t < before.len() {
                        assert(out@[t] == before[t]);
                        assert(pos[t] == pb[t]);
                        if key_kind(es[pb[t]]) == 1 {
                            let j = choose|j: int| 0 <= j < k && classes@[j]@ == key_name(es[pb[t]]);
                            assert(0 <= j < k + 1 && classes@[j]@ == key_name(es[pos[t]]));
                        }
                    } else {
                        assert(classes@[k as int]@ == key_name(es[pos[t]]));
                    }
                }
                if dc {
                    assert forall|t1: int, t2: int|
                        0 <= t1 < t2 < pos.len() implies pos[t1] != pos[t2] by {
                        if t2 >= pb.len() && t1 < pb.len() {
                            assert(pos[t2] == pos.subrange(pb.len() as int, pos.len() as int)[t2 - pb.len()]);
                        }
                    }
                }
                assert forall|i: int| 0 <= i < out@.len() implies (co ==> ctx_sel_match(
                    (#[trigger] out@[i]).selector,
                    *element,
                    c0,
                )) by {
                    if i < before.len() {
                        assert(out@[i] == before[i]);
                    }
                }
                if co {
                    assert forall|i: int|
                        0 <= i < es.len() && key_kind(#[trigger] es[i]) == 0 && applies(
                            es[i],
                            *element,
                        ) && ctx_sel_match(es[i].selector, *element, c0) implies collected(
                            out@,
                            es[i],
                        ) by {
                        lemma_collected_grows(before, out@, es[i]);
                    }
                    assert forall|i: int|
                        0 <= i < es.len() && key_kind(#[trigger] es[i]) == 1 && (exists|j: int|
                            0 <= j < k + 1 && classes@[j]@ == key_name(es[i])) && ctx_sel_match(
                            es[i].selector,
                            *element,
                            c0,
                        ) implies collected(out@, es[i]) by {
                        if exists|j: int| 0 <= j < k && classes@[j]@ == key_name(es[i]) {
                            lemma_collected_grows(before, out@, es[i]);
                        } else {
                            assert(classes@[k as int]@ == key_name(es[i]));
                            assert(entry_hash(es[i]) == name_hash(key_name(es[i])));
                        }
                    }
                }
            }
            k = k + 1;
        }
        let ghost before_t = out@;
        let ghost pt = pos;
        let ghost ct = *ctx;
        let ht = hash_str(element.local_name().as_str());
        match self.type_index.get(&ht) {
            Some(range) => {
                let ps = self.collect_range_ctx(
                    *range,
                    Some(element.local_name()),
                    element,
                    ctx,
                    &mut out,
                );
                proof {
                    assert forall|t: int| 0 <= t < ps@.len() implies key_kind(
                        #[trigger] es[ps@[t]],
                    ) == 2 by {
                        assert(self.type_index@.contains_key(ht));
                    }
                    pos = pt + ps@;
                }
            },
            None => {
                proof {
                    lemma_kept_refl::<E>(*ctx);
                }
            },
        }
        proof {
            lemma_kept_trans::<E>(c0, ct, *ctx);
            assert(mode_of(ct) == mode_of(c0));
            assert forall|t: int|
                0 <= t < out@.len() implies 0 <= #[trigger] pos[t] < es.len() && *out@[t]
                    == es[pos[t]] && key_kind(es[pos[t]]) <= 2 by {
                if t < before_t.len() {
                    assert(out@[t] == before_t[t]);
                    assert(pos[t] == pt[t]);
                }
            }
            if dc {
                assert forall|t1: int, t2: int|
                    0 <= t1 < t2 < pos.len() implies pos[t1] != pos[t2] by {
                    if t1 < pt.len() && t2 >= pt.len() {
                        assert(key_kind(es[pos[t2]]) == 2);
                        assert(key_kind(es[pt[t1]]) <= 1);
                    }
                }
            }
            assert forall|i: int| 0 <= i < out@.len() implies (co ==> ctx_sel_match(
                (#[trigger] out@[i]).selector,
                *element,
                c0,
            )) by {
                if i < before_t.len() {
                    assert(out@[i] == before_t[i]);
                }
            }
        }
        let ghost before_u = out@;
        let ghost pu = pos;
        let ghost cu = *ctx;
        let psu = self.collect_range_ctx(self.universal_range, None, element, ctx, &mut out);
        let ghost o = out@;
        proof {
            pos = pu + psu@;
            lemma_kept_trans::<E>(c0, cu, *ctx);
            assert(mode_of(cu) == mode_of(c0));
            assert forall|t: int| 0 <= t < psu@.len() implies key_kind(#[trigger] es[psu@[t]]) == 3
                by {
            }
            assert forall|i: int|
                0 <= i < o.len() implies 0 <= #[trigger] pos[i] < self.entry_seq().len() && *o[i]
                    == self.entry_seq()[pos[i]] && (co ==> ctx_sel_match(o[i].selector, *element, c0))
                by {
                if i < before_u.len() {
                    assert(o[i] == before_u[i]);
                    assert(pos[i] == pu[i]);
                }
            }
            if dc {
                assert forall|t1: int, t2: int|
                    0 <= t1 < t2 < pos.len() implies pos[t1] != pos[t2] by {
                    if t1 < pu.len() && t2 >= pu.len() {
                        assert(key_kind(es[pos[t2]]) == 3);
                        assert(key_kind(es[pu[t1]]) <= 2);
                    }
                }
            }
            if co {
                assert forall|i: int|
                    0 <= i < es.len() && applies(#[trigger] es[i], *element) && ctx_sel_match(
                        es[i].selector,
                        *element,
                        c0,
                    ) implies collected(o, es[i]) by {
                    let kd = key_kind(es[i]);
                    if kd == 0 {
                        lemma_collected_grows(before_t, before_u, es[i]);
                        lemma_collected_grows(before_u, o, es[i]);
                    } else if kd == 1 {
                        let kn = key_name(es[i]);
                        assert(element.spec_classes().contains(kn));
                        let j = choose|j: int|
                            0 <= j < element.spec_classes().len() && element.spec_classes()[j]
                                == kn;
                        assert(classes@[j]@ == kn);
                        lemma_collected_grows(before_t, before_u, es[i]);
                        lemma_collected_grows(before_u, o, es[i]);
                    } else if kd == 2 {
                        assert(entry_hash(es[i]) == name_hash(key_name(es[i])));
                        lemma_collected_grows(before_u, o, es[i]);
                    } else {
                    }
                }
                assert forall|e: RuleEntry|
                    #[trigger] self.entry_seq().contains(e) && applies(e, *element)
                        && ctx_sel_match(e.selector, *element, c0) implies collected(o, e) by {
                    let i = choose|i: int| 0 <= i < es.len() && es[i] == e;
                    assert(collected(o, es[i]));
                }
                if c0.quirks_mode != QuirksMode::Quirks {
                    assert forall|e: RuleEntry|
                        #[trigger] self.entry_seq().contains(e) && selector_wf(e.selector)
                            && ctx_sel_match(e.selector, *element, c0) implies collected(o, e) by {
                        lemma_ctx_match_implies_applies(e, *element, c0);
                    }
                }
            }
        }
        (out, Ghost(pos))
    }

    /// Visit all matching rules with a full `MatchingContext` (its Bloom
    /// filter, scope, visited policy and quirks mode), collecting selector
    /// flags into it: `f` is called, in visit order, on the entries of
    /// `visit_order_ctx`.
    pub fn for_each_matching_in_context<E: Element, F: Fn(&RuleEntry)>(
        &self,
        element: &E,
        ctx: &mut MatchingContext,
        f: F,
    )
        requires
            element_laws::<E>(),
            bloom_wf(old(ctx).bloom_filter),
            forall|e: &RuleEntry| #[trigger] f.requires((e,)),
        ensures
            ctx_kept::<E>(*old(ctx), *final(ctx)),
    {
        let (found, _) = self.visit_order_ctx(element, ctx);
        let mut i: usize = 0;
        while i < found.len()
            invariant
                forall|e: &RuleEntry| #[trigger] f.requires((e,)),
            decreases found@.len() - i,
        {
            f(found[i]);
            i = i + 1;
        }
    }

    /// The rules in storage order: bucket by bucket, each bucket sorted.
    pub fn entries(&self) -> (r: &[RuleEntry])
        ensures
            r@ == self.entry_seq(),
    {
        self.entries.as_slice()
    }

    /// Number of rules.
    pub fn len(&self) -> (r: u32)
        ensures
            r == self.len_spec(),
    {
        self.rule_count
    }

    /// Whether the map holds no rule.
    pub fn is_empty(&self) -> (r: bool)
        ensures
            r == (self.len_spec() == 0),
    {
        self.rule_count == 0
    }

    /// Memory used by the flat entry storage, in bytes: the number of
    /// entries times the size of an entry, saturating at the largest `usize`.
    pub fn entry_memory(&self) -> (r: usize)
        ensures
            r == sat_product(self.entry_seq().len(), vstd::layout::size_of::<RuleEntry>()),
    {
        let size = core::mem::size_of::<RuleEntry>();
        let n = self.entries.len();
        proof {
            if size > 0 && n > usize::MAX / size {
                assert(n * size > usize::MAX) by (nonlinear_arith)
                    requires
                        size > 0,
                        n > usize::MAX / size,
                ;
            }
        }
        if size == 0 {
            0
        } else if n > usize::MAX / size {
            usize::MAX
        } else {
            proof {
                assert(n * size <= usize::MAX) by (nonlinear_arith)
                    requires
                        size > 0,
                        n <= usize::MAX / size,
                ;
            }
            n * size
        }
    }
}

/// The entry's key names `n` exactly.
fn key_is(e: &RuleEntry, n: &Atom) -> (r: bool)
    ensures
        r == (key_kind(*e) != 3 && key_name(*e) == n@),
{
    match &e.selector.hint.key {
        KeySelector::Id(k) => k.same(n),
        KeySelector::Class(k) => k.same(n),
        KeySelector::Type(k) => k.same(n),
        KeySelector::Universal => false,
    }
}

/// Sort entry references: highest specificity first, then latest first.
fn sort_refs<'a>(v: Vec<&'a RuleEntry>) -> (r: Vec<&'a RuleEntry>)
    ensures
        r@.to_multiset() =~= v@.to_multiset(),
        forall|i: int, j: int|
            0 <= i < j < r@.len() ==> entry_before(*#[trigger] r@[i], *#[trigger] r@[j]),
{
    let mut src = v;
    let mut out: Vec<&'a RuleEntry> = Vec::new();
    let ghost orig = src@;
    proof {
        vstd::seq_lib::lemma_multiset_commutative(Seq::<&'a RuleEntry>::empty(), orig);
        assert(Seq::<&'a RuleEntry>::empty() + orig =~= orig);
    }
    while src.len() > 0
        invariant
            forall|i: int, j: int|
                0 <= i < j < out@.len() ==> entry_before(*#[trigger] out@[i], *#[trigger] out@[j]),
            out@.to_multiset().add(src@.to_multiset()) =~= orig.to_multiset(),
        decreases src@.len(),
    {
        let ghost s0 = src@;
        let x = src.remove(0);
        proof {
            vstd::seq_lib::to_multiset_remove(s0, 0);
        }
        let mut p: usize = 0;
        while p < out.len() && entry_goes_first(out[p], x)
            invariant
                p <= out@.len(),
                forall|k: int| 0 <= k < p ==> entry_before(*#[trigger] out@[k], *x),
            decreases out@.len() - p,
        {
            p = p + 1;
        }
        let ghost before = out@;
        proof {
            vstd::seq_lib::to_multiset_insert(out@, p as int, x);
            if p < out@.len() {
                assert(!entry_before(*out@[p as int], *x));
            }
        }
        out.insert(p, x);
        proof {
            assert forall|i: int, j: int| 0 <= i < j < out@.len() implies entry_before(
                *#[trigger] out@[i],
                *#[trigger] out@[j],
            ) by {
                if j < p {
                    assert(out@[i] == before[i] && out@[j] == before[j]);
                } else if j == p {
                    assert(out@[i] == before[i]);
                } else if i < p {
                    assert(out@[i] == before[i] && out@[j] == before[j - 1]);
                } else if i == p {
                    assert(out@[j] == before[j - 1]);
                    assert(!entry_before(*before[p as int], *x));
                    assert(entry_before(*before[p as int], *before[j - 1]) || j - 1 == p);
                } else {
                    assert(out@[i] == before[i - 1] && out@[j] == before[j - 1]);
                }
            }
        }
    }
    out
}

} // verus!
