//! Search: which vectors a search looks at, and how its hits are kept,
//! filtered and ordered.
//!
//! Scores are distances (smaller is better). The library orders them by a
//! `u32` key taken from the bits of the `f32` score: for a score whose sign bit
//! is clear the key is the bits with the top bit set, and for one whose sign
//! bit is set the key is the complement of the bits. The order of the keys is
//! then the order of the scores that are numbers, -0 coming just below +0; a
//! NaN score is placed by its bits (above every number where its sign bit is
//! clear).

use vstd::prelude::*;
use vstd::seq_lib::group_filter_ensures;
use vstd::utf8::{decode_utf8, encode_utf8, valid_utf8};
use crate::ids::NodeId;
use crate::keys::{
    edge_vector_key_text, key_node_field, lemma_edge_vector_key_names_its_source, lemma_node_vector_key_names_its_node,
    lemma_scan_prefix_starts_vector_keys, namespace_text, node_vector_key_text, scan_prefix_text, VectorScanQuery,
};
use crate::text::{ascii_lower_code, decode_utf8_lossy, has_colon, eq_ignore_ascii_case, str_eq, str_eq_ignore_ascii_case, text_bytes, utf8_lossy};

verus! {

/// Which vectors a search looks at: those of edges, of nodes, or both.
#[derive(Debug, Clone, Copy, PartialEq, Eq, Structural)]
pub enum SearchKind {
    Edge,
    Node,
    All,
}

/// The search kind a name asks for: `"node"` nodes, `"edge"` edges, any other name both.
pub open spec fn search_kind_named(name: Seq<char>) -> SearchKind {
    if name == "node"@ {
        SearchKind::Node
    } else if name == "edge"@ {
        SearchKind::Edge
    } else {
        SearchKind::All
    }
}

impl SearchKind {
    /// The kind's name: `edge`, `node` or `all`.
    pub fn as_str(&self) -> (r: &'static str)
        ensures
            r@ == match self {
                SearchKind::Edge => "edge"@,
                SearchKind::Node => "node"@,
                SearchKind::All => "all"@,
            },
    {
        match self {
            SearchKind::Edge => "edge",
            SearchKind::Node => "node",
            SearchKind::All => "all",
        }
    }
}

impl<'a> From<&'a str> for SearchKind {
    fn from(name: &'a str) -> (r: Self) {
        if str_eq(name, "node") {
            SearchKind::Node
        } else if str_eq(name, "edge") {
            SearchKind::Edge
        } else {
            SearchKind::All
        }
    }
}

impl<'a> vstd::std_specs::convert::FromSpecImpl<&'a str> for SearchKind {
    open spec fn obeys_from_spec() -> bool {
        true
    }

    open spec fn from_spec(name: &'a str) -> Self {
        search_kind_named(name@)
    }
}

/// The order key of a score, from the score's bits.
pub open spec fn score_key_of_bits(bits: u32) -> u32 {
    if bits & 0x8000_0000u32 == 0 {
        bits | 0x8000_0000u32
    } else {
        !bits
    }
}

/// The bits of the score whose order key is `key`.
pub open spec fn score_bits_of_key(key: u32) -> u32 {
    if key & 0x8000_0000u32 != 0 {
        key & 0x7fff_ffffu32
    } else {
        !key
    }
}

/// The order key of a score, from the score's bits.
pub fn score_key_from_bits(bits: u32) -> (r: u32)
    ensures
        r == score_key_of_bits(bits),
{
    if bits & 0x8000_0000u32 == 0 {
        bits | 0x8000_0000u32
    } else {
        !bits
    }
}

/// The bits of the score whose order key is `key`.
pub fn score_bits_from_key(key: u32) -> (r: u32)
    ensures
        r == score_bits_of_key(key),
{
    if key & 0x8000_0000u32 != 0 {
        key & 0x7fff_ffffu32
    } else {
        !key
    }
}

/// The order key of the largest finite score (`f32::MAX`), which stands for
/// "no bound" when nothing is kept yet.
pub const UNBOUNDED_SCORE_KEY: u32 = 0xff7f_ffffu32;

/// Score keys and score bits are in one-to-one correspondence, and the keys
/// order the scores: among non-negative scores as their bits, among negative
/// scores against their bits, and every negative score below every non-negative one.
pub proof fn lemma_score_key_bijective_and_ordered(a: u32, b: u32)
    ensures
        score_bits_of_key(score_key_of_bits(a)) == a,
        score_key_of_bits(score_bits_of_key(a)) == a,
        a & 0x8000_0000u32 == 0 && b & 0x8000_0000u32 == 0 ==> (a < b <==> score_key_of_bits(a) < score_key_of_bits(b)),
        a & 0x8000_0000u32 != 0 && b & 0x8000_0000u32 != 0 ==> (a < b <==> score_key_of_bits(a) > score_key_of_bits(b)),
        a & 0x8000_0000u32 != 0 && b & 0x8000_0000u32 == 0 ==> score_key_of_bits(a) < score_key_of_bits(b),
{
    assert(a & 0x8000_0000u32 == 0 ==> (a | 0x8000_0000u32) & 0x8000_0000u32 != 0 && (a | 0x8000_0000u32) & 0x7fff_ffffu32 == a) by (bit_vector);
    assert(a & 0x8000_0000u32 != 0 ==> (!a) & 0x8000_0000u32 == 0 && !(!a) == a) by (bit_vector);
    assert(a & 0x8000_0000u32 != 0 ==> (a & 0x7fff_ffffu32) & 0x8000_0000u32 == 0 && ((a & 0x7fff_ffffu32) | 0x8000_0000u32) == a) by (bit_vector);
    assert(a & 0x8000_0000u32 == 0 ==> (!a) & 0x8000_0000u32 != 0 && !(!a) == a) by (bit_vector);
    assert(a & 0x8000_0000u32 == 0 && b & 0x8000_0000u32 == 0 ==> (a < b <==> (a | 0x8000_0000u32) < (b | 0x8000_0000u32))) by (bit_vector);
    assert(a & 0x8000_0000u32 != 0 && b & 0x8000_0000u32 != 0 ==> (a < b <==> !a > !b)) by (bit_vector);
    assert(a & 0x8000_0000u32 != 0 && b & 0x8000_0000u32 == 0 ==> !a < (b | 0x8000_0000u32)) by (bit_vector);
}

/// A candidate of a search: the node's identifier as stored (bytes), the kind
/// that was searched, what kind of vector it matched, and the order key of its score.
#[derive(Debug)]
pub struct ScoredHit {
    pub node_id_bytes: Vec<u8>,
    pub kind: String,
    pub hit_kind: SearchKind,
    pub score_key: u32,
}

/// The hits are in ascending order of score.
pub open spec fn sorted_by_score(s: Seq<ScoredHit>) -> bool {
    forall|i: int, j: int| 0 <= i < j < s.len() ==> s[i].score_key <= s[j].score_key
}

/// Where a hit with score key `key` goes in hits sorted by score: after every
/// hit that scores no worse than it.
pub open spec fn insertion_index(s: Seq<ScoredHit>, key: u32) -> int
    decreases s.len(),
{
    if s.len() == 0 {
        0
    } else if key < s.last().score_key {
        insertion_index(s.drop_last(), key)
    } else {
        s.len() as int
    }
}

/// The sorted hits `s` with `h` added in its place.
pub open spec fn insert_by_score(s: Seq<ScoredHit>, h: ScoredHit) -> Seq<ScoredHit> {
    s.insert(insertion_index(s, h.score_key), h)
}

/// The worst kept score: the last key, or the unbounded key when nothing is kept.
pub open spec fn worst_key(s: Seq<ScoredHit>) -> u32 {
    if s.len() == 0 {
        UNBOUNDED_SCORE_KEY
    } else {
        s.last().score_key
    }
}

proof fn lemma_insertion_index(s: Seq<ScoredHit>, key: u32)
    requires
        sorted_by_score(s),
    ensures
        0 <= insertion_index(s, key) <= s.len(),
        forall|j: int| 0 <= j < insertion_index(s, key) ==> s[j].score_key <= key,
        forall|j: int| insertion_index(s, key) <= j < s.len() ==> key < s[j].score_key,
    decreases s.len(),
{
    if s.len() > 0 {
        let n = s.len() as int;
        if key < s.last().score_key {
            let t = s.drop_last();
            assert(sorted_by_score(t));
            lemma_insertion_index(t, key);
            assert forall|j: int| insertion_index(s, key) <= j < n implies key < s[j].score_key by {
                if j < n - 1 {
                    assert(s[j] == t[j]);
                } else {
                }
            }
            assert forall|j: int| 0 <= j < insertion_index(s, key) implies s[j].score_key <= key by {
                assert(s[j] == t[j]);
            }
        } else {
            assert forall|j: int| 0 <= j < n implies s[j].score_key <= key by {
                if j < n - 1 {
                    assert(s[j].score_key <= s[n - 1].score_key);
                }
            }
        }
    }
}

/// Adding a hit in its place keeps the hits sorted, adds exactly that hit, and
/// leaves as worst score the worse of the old worst and the new one.
pub proof fn lemma_insert_by_score(s: Seq<ScoredHit>, h: ScoredHit)
    requires
        sorted_by_score(s),
    ensures
        0 <= insertion_index(s, h.score_key) <= s.len(),
        sorted_by_score(insert_by_score(s, h)),
        insert_by_score(s, h).to_multiset() == s.to_multiset().insert(h),
        insert_by_score(s, h).len() == s.len() + 1,
        s.len() == 0 ==> worst_key(insert_by_score(s, h)) == h.score_key,
        s.len() > 0 ==> worst_key(insert_by_score(s, h)) == if h.score_key < s.last().score_key {
            s.last().score_key
        } else {
            h.score_key
        },
{
    let p = insertion_index(s, h.score_key);
    lemma_insertion_index(s, h.score_key);
    vstd::seq_lib::to_multiset_insert(s, p, h);
    let r = s.insert(p, h);
    assert forall|i: int, j: int| 0 <= i < j < r.len() implies r[i].score_key <= r[j].score_key by {
        if j < p {
        } else if j == p {
        } else if i < p {
        } else if i == p {
        } else {
        }
    }
}

/// Position at which a hit with score key `key` goes in the sorted hits `v`.
fn find_insertion_index(v: &Vec<ScoredHit>, key: u32) -> (r: usize)
    ensures
        r == insertion_index(v@, key),
{
    let mut i = v.len();
    assert(v@.take(i as int) =~= v@);
    while i > 0 && key < v[i - 1].score_key
        invariant
            i <= v.len(),
            insertion_index(v@, key) == insertion_index(v@.take(i as int), key),
        decreases i,
    {
        assert(v@.take(i as int).drop_last() =~= v@.take(i - 1));
        i = i - 1;
    }
    i
}

/// The hits kept after `h` is offered to a selection of the `capacity` best:
/// a hit is taken while fewer than `capacity` are kept, or when it scores
/// better than the worst kept one, which then leaves if `capacity` are kept.
pub open spec fn offer_result(capacity: nat, kept: Seq<ScoredHit>, h: ScoredHit) -> Seq<ScoredHit> {
    if kept.len() < capacity || h.score_key < worst_key(kept) {
        let base = if kept.len() == capacity && kept.len() > 0 {
            kept.drop_last()
        } else {
            kept
        };
        insert_by_score(base, h)
    } else {
        kept
    }
}

/// The hits kept after each of `offered` was offered, in order, to an empty selection.
pub open spec fn select_best(capacity: nat, offered: Seq<ScoredHit>) -> Seq<ScoredHit>
    decreases offered.len(),
{
    if offered.len() == 0 {
        Seq::empty()
    } else {
        offer_result(capacity, select_best(capacity, offered.drop_last()), offered.last())
    }
}

/// The hits that the selection turned away or dropped, in the order it did so.
spec fn dropped_by_selection(capacity: nat, offered: Seq<ScoredHit>) -> Seq<ScoredHit>
    decreases offered.len(),
{
    if offered.len() == 0 {
        Seq::empty()
    } else {
        let prev = offered.drop_last();
        let kept = select_best(capacity, prev);
        let dropped = dropped_by_selection(capacity, prev);
        let h = offered.last();
        if kept.len() < capacity || h.score_key < worst_key(kept) {
            if kept.len() == capacity && kept.len() > 0 {
                dropped.push(kept.last())
            } else {
                dropped
            }
        } else {
            dropped.push(h)
        }
    }
}

proof fn lemma_selection_invariant(capacity: nat, offered: Seq<ScoredHit>)
    requires
        capacity > 0,
    ensures
        ({
            let kept = select_best(capacity, offered);
            let dropped = dropped_by_selection(capacity, offered);
            &&& sorted_by_score(kept)
            &&& kept.len() == if offered.len() < capacity { offered.len() } else { capacity }
            &&& offered.to_multiset() == kept.to_multiset().add(dropped.to_multiset())
            &&& forall|i: int| 0 <= i < dropped.len() ==> dropped[i].score_key >= worst_key(kept)
        }),
    decreases offered.len(),
{
    broadcast use vstd::seq_lib::group_to_multiset_ensures, vstd::multiset::group_multiset_axioms;

    if offered.len() > 0 {
        let prev = offered.drop_last();
        lemma_selection_invariant(capacity, prev);
        let k = select_best(capacity, prev);
        let d = dropped_by_selection(capacity, prev);
        let h = offered.last();
        let k2 = select_best(capacity, offered);
        let d2 = dropped_by_selection(capacity, offered);
        assert(prev.push(h) =~= offered);
        assert(offered.to_multiset() =~= prev.to_multiset().insert(h));
        if k.len() < capacity || h.score_key < worst_key(k) {
            if k.len() == capacity && k.len() > 0 {
                let base = k.drop_last();
                assert(sorted_by_score(base));
                lemma_insert_by_score(base, h);
                assert(base.push(k.last()) =~= k);
                assert(k.to_multiset() =~= base.to_multiset().insert(k.last()));
                assert(d2.to_multiset() =~= d.to_multiset().insert(k.last()));
                assert(offered.to_multiset() =~= k2.to_multiset().add(d2.to_multiset()));
                if base.len() > 0 {
                    assert(base.last().score_key <= k.last().score_key);
                }
                assert(worst_key(k2) <= worst_key(k));
                assert forall|i: int| 0 <= i < d2.len() implies d2[i].score_key >= worst_key(k2) by {
                    if i < d.len() {
                        assert(d2[i] == d[i]);
                    }
                }
            } else {
                lemma_insert_by_score(k, h);
                assert(d.len() == 0) by {
                    assert(prev.to_multiset().len() == k.to_multiset().len() + d.to_multiset().len());
                }
                assert(offered.to_multiset() =~= k2.to_multiset().add(d2.to_multiset()));
            }
        } else {
            assert(d2.to_multiset() =~= d.to_multiset().insert(h));
            assert(offered.to_multiset() =~= k2.to_multiset().add(d2.to_multiset()));
            assert forall|i: int| 0 <= i < d2.len() implies d2[i].score_key >= worst_key(k2) by {
                if i < d.len() {
                    assert(d2[i] == d[i]);
                }
            }
        }
    }
}

/// Offering hits one by one to a selection of the `capacity` best keeps, in
/// ascending order of score, as many of them as the capacity allows, all taken
/// from the offered hits, and no hit that was offered and not kept scores
/// better than the worst kept one.
pub proof fn lemma_selection_keeps_best(capacity: nat, offered: Seq<ScoredHit>)
    requires
        capacity > 0,
    ensures
        sorted_by_score(select_best(capacity, offered)),
        select_best(capacity, offered).len() == if offered.len() < capacity { offered.len() } else { capacity },
        select_best(capacity, offered).to_multiset().subset_of(offered.to_multiset()),
        forall|x: ScoredHit| #[trigger] offered.to_multiset().count(x) > select_best(capacity, offered).to_multiset().count(x)
            ==> x.score_key >= worst_key(select_best(capacity, offered)),
{
    broadcast use vstd::seq_lib::group_to_multiset_ensures, vstd::multiset::group_multiset_axioms;

    lemma_selection_invariant(capacity, offered);
    let kept = select_best(capacity, offered);
    let dropped = dropped_by_selection(capacity, offered);
    assert forall|x: ScoredHit| #[trigger] offered.to_multiset().count(x) > kept.to_multiset().count(x)
        implies x.score_key >= worst_key(kept) by {
        assert(dropped.to_multiset().count(x) > 0);
        assert(dropped.contains(x));
    }
}

/// A selection of the best-scoring hits among those offered to it, holding at
/// most `capacity` of them in ascending order of score.
pub struct TopK {
    capacity: usize,
    hits: Vec<ScoredHit>,
}

impl TopK {
    /// The hits kept, best first.
    pub closed spec fn kept(&self) -> Seq<ScoredHit> {
        self.hits@
    }

    /// How many hits the selection keeps at most.
    pub closed spec fn capacity_of(&self) -> nat {
        self.capacity as nat
    }

    /// The kept hits are in ascending order of score.
    pub closed spec fn wf(&self) -> bool {
        sorted_by_score(self.hits@)
    }

    /// An empty selection of the `capacity` best hits.
    pub fn new(capacity: usize) -> (r: Self)
        ensures
            r.wf(),
            r.kept() == Seq::<ScoredHit>::empty(),
            r.capacity_of() == capacity,
    {
        TopK { capacity, hits: Vec::new() }
    }

    /// How many hits are kept.
    pub fn len(&self) -> (r: usize)
        ensures
            r == self.kept().len(),
    {
        self.hits.len()
    }

    /// Offers a hit: it is kept if fewer than the capacity are kept, or if it
    /// scores better than the worst kept hit, which then leaves when the
    /// selection is full.
    pub fn offer(&mut self, hit: ScoredHit)
        requires
            old(self).wf(),
        ensures
            final(self).wf(),
            final(self).capacity_of() == old(self).capacity_of(),
            final(self).kept() == offer_result(old(self).capacity_of(), old(self).kept(), hit),
    {
        let n = self.hits.len();
        let worst = if n == 0 {
            UNBOUNDED_SCORE_KEY
        } else {
            self.hits[n - 1].score_key
        };
        if n < self.capacity || hit.score_key < worst {
            if n == self.capacity && n > 0 {
                self.hits.pop();
            }
            let ghost base = self.hits@;
            assert(sorted_by_score(base));
            let p = find_insertion_index(&self.hits, hit.score_key);
            proof {
                lemma_insert_by_score(base, hit);
            }
            self.hits.insert(p, hit);
        }
    }

    /// The kept hits, best first.
    pub fn into_sorted_vec(self) -> (r: Vec<ScoredHit>)
        requires
            self.wf(),
        ensures
            r@ == self.kept(),
            sorted_by_score(r@),
    {
        self.hits
    }
}

/// The hits in ascending order of score; hits with equal scores keep their order.
pub open spec fn sort_by_score(s: Seq<ScoredHit>) -> Seq<ScoredHit>
    decreases s.len(),
{
    if s.len() == 0 {
        s
    } else {
        insert_by_score(sort_by_score(s.drop_last()), s.last())
    }
}

/// Sorting by score gives the same hits, in ascending order of score.
pub proof fn lemma_sort_by_score(s: Seq<ScoredHit>)
    ensures
        sorted_by_score(sort_by_score(s)),
        sort_by_score(s).to_multiset() == s.to_multiset(),
        sort_by_score(s).len() == s.len(),
    decreases s.len(),
{
    if s.len() > 0 {
        lemma_sort_by_score(s.drop_last());
        lemma_insert_by_score(sort_by_score(s.drop_last()), s.last());
        vstd::seq_lib::to_multiset_build(s.drop_last(), s.last());
        assert(s.drop_last().push(s.last()) =~= s);
    }
}

/// Whether a hit has score key `key`.
pub open spec fn has_score_key(key: u32) -> spec_fn(ScoredHit) -> bool {
    |h: ScoredHit| h.score_key == key
}

proof fn lemma_insert_by_score_keeps_ties_in_order(t: Seq<ScoredHit>, h: ScoredHit, key: u32)
    requires
        sorted_by_score(t),
    ensures
        insert_by_score(t, h).filter(has_score_key(key)) == if h.score_key == key {
            t.filter(has_score_key(key)).push(h)
        } else {
            t.filter(has_score_key(key))
        },
{
    broadcast use group_filter_ensures, Seq::lemma_filter_contains_rev;

    let f = has_score_key(key);
    let p = insertion_index(t, h.score_key);
    lemma_insertion_index(t, h.score_key);
    let a = t.take(p);
    let b = t.skip(p);
    assert(t =~= a + b);
    assert(insert_by_score(t, h) =~= (a + seq![h]) + b);
    Seq::filter_distributes_over_add(a + seq![h], b, f);
    Seq::filter_distributes_over_add(a, seq![h], f);
    Seq::filter_distributes_over_add(a, b, f);
    assert(seq![h] =~= Seq::<ScoredHit>::empty().push(h));
    Seq::<ScoredHit>::empty().lemma_filter_push(h, f);
    assert(Seq::<ScoredHit>::empty().filter(f) =~= Seq::<ScoredHit>::empty());
    if h.score_key == key {
        if b.filter(f).len() > 0 {
            let x = b.filter(f)[0];
            assert(b.filter(f).contains(x));
            assert(b.contains(x));
            let j = choose|j: int| 0 <= j < b.len() && b[j] == x;
            assert(t[p + j] == b[j]);
            assert(f(x));
        }
        assert(b.filter(f) =~= Seq::<ScoredHit>::empty());
        assert(a.filter(f) + seq![h] =~= a.filter(f).push(h));
    } else {
        assert(a.filter(f) + Seq::<ScoredHit>::empty() =~= a.filter(f));
    }
}

/// Sorting by score keeps hits with equal scores in the order they came in:
/// the hits of any one score key, taken in order, are the same before and after.
pub proof fn lemma_sort_by_score_keeps_ties_in_order(s: Seq<ScoredHit>, key: u32)
    ensures
        sort_by_score(s).filter(has_score_key(key)) == s.filter(has_score_key(key)),
    decreases s.len(),
{
    if s.len() > 0 {
        let prev = s.drop_last();
        lemma_sort_by_score_keeps_ties_in_order(prev, key);
        lemma_sort_by_score(prev);
        lemma_insert_by_score_keeps_ties_in_order(sort_by_score(prev), s.last(), key);
        assert(prev.push(s.last()) =~= s);
        prev.lemma_filter_push(s.last(), has_score_key(key));
    }
}

/// Orders hits by score, best first; hits with equal scores keep their order.
pub fn sort_hits_by_score(hits: Vec<ScoredHit>) -> (r: Vec<ScoredHit>)
    ensures
        r@ == sort_by_score(hits@),
        sorted_by_score(r@),
        r@.to_multiset() == hits@.to_multiset(),
        forall|key: u32| #[trigger] r@.filter(has_score_key(key)) == hits@.filter(has_score_key(key)),
{
    proof {
        lemma_sort_by_score(hits@);
        assert forall|key: u32| #[trigger] sort_by_score(hits@).filter(has_score_key(key)) == hits@.filter(has_score_key(key)) by {
            lemma_sort_by_score_keeps_ties_in_order(hits@, key);
        }
    }
    let total = hits.len();
    let ghost input = hits@;
    assert(input.len() == total);
    let mut rest = hits;
    let mut sorted: Vec<ScoredHit> = Vec::new();
    let mut k: usize = 0;
    while rest.len() > 0
        invariant
            k <= input.len(),
            input.len() == k + rest@.len(),
            input.len() <= usize::MAX,
            rest@ == input.skip(k as int),
            sorted@ == sort_by_score(input.take(k as int)),
        decreases rest.len(),
    {
        let hit = rest.remove(0);
        proof {
            lemma_sort_by_score(input.take(k as int));
            lemma_insert_by_score(sorted@, hit);
            assert(input.take(k + 1).drop_last() =~= input.take(k as int));
            assert(input.take(k + 1).last() == hit);
        }
        let p = find_insertion_index(&sorted, hit.score_key);
        sorted.insert(p, hit);
        k = k + 1;
        assert(rest@ =~= input.skip(k as int));
    }
    assert(input.take(k as int) =~= input);
    sorted
}

/// How many candidates a search keeps from the scan: five times the number
/// asked for when names are excluded afterwards, three times when the hits
/// are re-ranked, and the number asked for otherwise.
pub open spec fn fetch_count_spec(top_k: nat, excludes_names: bool, reranks: bool) -> nat {
    if excludes_names {
        top_k * 5
    } else if reranks {
        top_k * 3
    } else {
        top_k
    }
}

/// A search that leaves out excluded names keeps five times `top_k` candidates,
/// whether or not it re-ranks them; one that only re-ranks keeps three times
/// `top_k`; one that does neither keeps `top_k`.
pub proof fn lemma_fetch_count_overfetches(top_k: nat, reranks: bool)
    ensures
        fetch_count_spec(top_k, true, reranks) == top_k * 5,
        fetch_count_spec(top_k, false, true) == top_k * 3,
        fetch_count_spec(top_k, false, false) == top_k,
        fetch_count_spec(top_k, true, reranks) >= fetch_count_spec(top_k, false, reranks),
{
}

/// How many candidates a search keeps from the scan before it filters or re-ranks.
pub fn fetch_count(top_k: usize, excludes_names: bool, reranks: bool) -> (r: usize)
    requires
        fetch_count_spec(top_k as nat, excludes_names, reranks) <= usize::MAX,
    ensures
        r == fetch_count_spec(top_k as nat, excludes_names, reranks),
        excludes_names ==> r == top_k * 5,
        !excludes_names && reranks ==> r == top_k * 3,
        !excludes_names && !reranks ==> r == top_k,
{
    proof {
        lemma_fetch_count_overfetches(top_k as nat, reranks);
    }
    if excludes_names {
        top_k * 5
    } else if reranks {
        top_k * 3
    } else {
        top_k
    }
}

/// Whether a node named `name` is excluded: some excluded name equals it,
/// ASCII letters compared without regard to case.
pub open spec fn name_is_excluded(name: Seq<char>, exclude_names: Seq<String>) -> bool {
    exists|i: int| 0 <= i < exclude_names.len() && eq_ignore_ascii_case(name, #[trigger] exclude_names[i]@)
}

/// A name is excluded exactly when some excluded name has its length and, ASCII
/// letters compared without regard to case, the same characters: an excluded name
/// that only begins it, or that it only begins, leaves it in the results.
pub proof fn lemma_excluded_names_match_whole(name: Seq<char>, exclude_names: Seq<String>)
    ensures
        name_is_excluded(name, exclude_names) <==> exists|i: int| #![trigger exclude_names[i]]
            0 <= i < exclude_names.len() && exclude_names[i]@.len() == name.len()
            && forall|j: int| 0 <= j < name.len()
                ==> ascii_lower_code(#[trigger] name[j]) == ascii_lower_code(exclude_names[i]@[j]),
{
    if name_is_excluded(name, exclude_names) {
        let i = choose|i: int| 0 <= i < exclude_names.len() && eq_ignore_ascii_case(name, #[trigger] exclude_names[i]@);
        assert(exclude_names[i]@.len() == name.len());
    }
    if exists|i: int| #![trigger exclude_names[i]]
        0 <= i < exclude_names.len() && exclude_names[i]@.len() == name.len()
        && forall|j: int| 0 <= j < name.len()
            ==> ascii_lower_code(#[trigger] name[j]) == ascii_lower_code(exclude_names[i]@[j]) {
        let i = choose|i: int| #![trigger exclude_names[i]]
            0 <= i < exclude_names.len() && exclude_names[i]@.len() == name.len()
            && forall|j: int| 0 <= j < name.len()
                ==> ascii_lower_code(#[trigger] name[j]) == ascii_lower_code(exclude_names[i]@[j]);
        assert(eq_ignore_ascii_case(name, exclude_names[i]@));
    }
}

/// Whether a node named `name` is left out of the results.
pub fn is_excluded(name: &str, exclude_names: &Vec<String>) -> (r: bool)
    ensures
        r == name_is_excluded(name@, exclude_names@),
        r <==> exists|i: int| #![trigger exclude_names@[i]]
            0 <= i < exclude_names@.len() && exclude_names@[i]@.len() == name@.len()
            && forall|j: int| 0 <= j < name@.len()
                ==> ascii_lower_code(#[trigger] name@[j]) == ascii_lower_code(exclude_names@[i]@[j]),
{
    proof {
        lemma_excluded_names_match_whole(name@, exclude_names@);
    }
    let mut i: usize = 0;
    while i < exclude_names.len()
        invariant
            i <= exclude_names@.len(),
            forall|j: int| 0 <= j < i ==> !eq_ignore_ascii_case(name@, #[trigger] exclude_names@[j]@),
        decreases exclude_names@.len() - i,
    {
        if str_eq_ignore_ascii_case(name, exclude_names[i].as_str()) {
            return true;
        }
        i = i + 1;
    }
    false
}

/// Whether a hit whose node is named `node_name` stays in the results: it leaves
/// only where its node was read and the name is excluded.
pub open spec fn keeps_hit(node_name: Option<String>, exclude_names: Seq<String>) -> bool {
    match node_name {
        Some(name) => !name_is_excluded(name@, exclude_names),
        None => true,
    }
}

/// The hits that stay, in order, `node_names[i]` being the name of the node of
/// `hits[i]` where that node could be read.
pub open spec fn unexcluded_hits(hits: Seq<ScoredHit>, node_names: Seq<Option<String>>, exclude_names: Seq<String>) -> Seq<ScoredHit>
    decreases hits.len(),
{
    if hits.len() == 0 {
        Seq::empty()
    } else {
        let kept = unexcluded_hits(hits.drop_last(), node_names.drop_last(), exclude_names);
        if keeps_hit(node_names.last(), exclude_names) {
            kept.push(hits.last())
        } else {
            kept
        }
    }
}

/// A hit stays exactly where its node could not be read or its name is not
/// excluded: every such hit is among the results, every result is such a hit,
/// and where no name is excluded every hit stays, in its place.
pub proof fn lemma_unexcluded_hits_are_the_kept_ones(
    hits: Seq<ScoredHit>,
    node_names: Seq<Option<String>>,
    exclude_names: Seq<String>,
)
    requires
        hits.len() == node_names.len(),
    ensures
        forall|i: int| 0 <= i < hits.len() && keeps_hit(node_names[i], exclude_names)
            ==> #[trigger] unexcluded_hits(hits, node_names, exclude_names).contains(hits[i]),
        forall|j: int| 0 <= j < unexcluded_hits(hits, node_names, exclude_names).len()
            ==> exists|i: int| 0 <= i < hits.len() && hits[i] == #[trigger] unexcluded_hits(hits, node_names, exclude_names)[j]
                && keeps_hit(node_names[i], exclude_names),
        exclude_names.len() == 0 ==> unexcluded_hits(hits, node_names, exclude_names) == hits,
    decreases hits.len(),
{
    if hits.len() > 0 {
        let prev = hits.drop_last();
        let prev_names = node_names.drop_last();
        let kept = unexcluded_hits(prev, prev_names, exclude_names);
        let r = unexcluded_hits(hits, node_names, exclude_names);
        lemma_unexcluded_hits_are_the_kept_ones(prev, prev_names, exclude_names);
        let keep = keeps_hit(node_names.last(), exclude_names);
        assert(keep ==> r == kept.push(hits.last()));
        assert(!keep ==> r == kept);
        assert forall|i: int| 0 <= i < hits.len() && keeps_hit(node_names[i], exclude_names)
            implies #[trigger] r.contains(hits[i]) by {
            if i < prev.len() {
                assert(prev[i] == hits[i]);
                assert(prev_names[i] == node_names[i]);
                assert(kept.contains(prev[i]));
                let j = choose|j: int| 0 <= j < kept.len() && kept[j] == prev[i];
                assert(r[j] == kept[j]);
            } else {
                assert(r[r.len() - 1] == hits[i]);
            }
        }
        assert forall|j: int| 0 <= j < r.len()
            implies exists|i: int| 0 <= i < hits.len() && hits[i] == #[trigger] r[j] && keeps_hit(node_names[i], exclude_names) by {
            if j < kept.len() {
                assert(r[j] == kept[j]);
                let i = choose|i: int| 0 <= i < prev.len() && prev[i] == kept[j] && keeps_hit(prev_names[i], exclude_names);
                assert(hits[i] == prev[i]);
                assert(node_names[i] == prev_names[i]);
            } else {
                assert(r[j] == hits[hits.len() - 1]);
                assert(node_names[hits.len() - 1] == node_names.last());
            }
        }
        if exclude_names.len() == 0 {
            match node_names.last() {
                Some(name) => {
                    assert(!name_is_excluded(name@, exclude_names));
                },
                None => {},
            }
            assert(keep);
            assert(prev.push(hits.last()) =~= hits);
        }
    }
}

/// Drops the hits whose node is named with an excluded name, keeping the order;
/// a hit whose node could not be read (`None`) stays.
pub fn filter_excluded_hits(hits: Vec<ScoredHit>, node_names: &Vec<Option<String>>, exclude_names: &Vec<String>) -> (r: Vec<ScoredHit>)
    requires
        hits@.len() == node_names@.len(),
    ensures
        r@ == unexcluded_hits(hits@, node_names@, exclude_names@),
        forall|i: int| 0 <= i < hits@.len() && keeps_hit(node_names@[i], exclude_names@)
            ==> #[trigger] r@.contains(hits@[i]),
        exclude_names@.len() == 0 ==> r@ == hits@,
{
    proof {
        lemma_unexcluded_hits_are_the_kept_ones(hits@, node_names@, exclude_names@);
    }
    let total = hits.len();
    let ghost input = hits@;
    let mut rest = hits;
    let mut kept: Vec<ScoredHit> = Vec::new();
    let mut k: usize = 0;
    assert(input.take(0) =~= Seq::<ScoredHit>::empty());
    while rest.len() > 0
        invariant
            total == input.len(),
            total == node_names@.len(),
            k + rest@.len() == total,
            rest@ == input.skip(k as int),
            kept@ == unexcluded_hits(input.take(k as int), node_names@.take(k as int), exclude_names@),
        decreases rest.len(),
    {
        let hit = rest.remove(0);
        assert(input.take(k + 1).drop_last() =~= input.take(k as int));
        assert(node_names@.take(k + 1).drop_last() =~= node_names@.take(k as int));
        assert(input.take(k + 1).last() == hit);
        let keep = match &node_names[k] {
            Some(name) => !is_excluded(name.as_str(), exclude_names),
            None => true,
        };
        if keep {
            kept.push(hit);
        }
        k = k + 1;
        assert(rest@ =~= input.skip(k as int));
    }
    assert(input.take(k as int) =~= input);
    assert(node_names@.take(k as int) =~= node_names@);
    kept
}

/// Dropping excluded hits keeps the rest in their order, so hits sorted by
/// score stay sorted, and only hits that were there remain.
pub proof fn lemma_unexcluded_hits_keep_order(hits: Seq<ScoredHit>, node_names: Seq<Option<String>>, exclude_names: Seq<String>)
    requires
        hits.len() == node_names.len(),
    ensures
        sorted_by_score(hits) ==> sorted_by_score(unexcluded_hits(hits, node_names, exclude_names)),
        unexcluded_hits(hits, node_names, exclude_names).to_multiset().subset_of(hits.to_multiset()),
        unexcluded_hits(hits, node_names, exclude_names).len() <= hits.len(),
        forall|i: int| 0 <= i < unexcluded_hits(hits, node_names, exclude_names).len()
            ==> hits.contains(#[trigger] unexcluded_hits(hits, node_names, exclude_names)[i]),
    decreases hits.len(),
{
    broadcast use vstd::seq_lib::group_to_multiset_ensures, vstd::multiset::group_multiset_axioms;

    if hits.len() > 0 {
        let prev = hits.drop_last();
        let kept = unexcluded_hits(prev, node_names.drop_last(), exclude_names);
        lemma_unexcluded_hits_keep_order(prev, node_names.drop_last(), exclude_names);
        assert(prev.push(hits.last()) =~= hits);
        assert(hits.to_multiset() =~= prev.to_multiset().insert(hits.last()));
        assert forall|i: int| 0 <= i < kept.len() implies hits.contains(kept[i]) by {
            let j = choose|j: int| 0 <= j < prev.len() && prev[j] == kept[i];
            assert(hits[j] == prev[j]);
        }
        if sorted_by_score(hits) {
            assert(sorted_by_score(prev));
            assert forall|i: int| 0 <= i < kept.len() implies kept[i].score_key <= hits.last().score_key by {
                let j = choose|j: int| 0 <= j < prev.len() && prev[j] == kept[i];
                assert(hits[j] == prev[j]);
            }
        }
        if keeps_hit(node_names.last(), exclude_names) {
            assert(kept.push(hits.last()).to_multiset() =~= kept.to_multiset().insert(hits.last()));
        }
    }
}

/// The results of a search from its hits after exclusion: sorted again by
/// score where they were re-ranked, then the first `top_k` of them.
pub open spec fn ranked_results(hits: Seq<ScoredHit>, reranked: bool, top_k: nat) -> Seq<ScoredHit> {
    let ordered = if reranked { sort_by_score(hits) } else { hits };
    if top_k < ordered.len() {
        ordered.take(top_k as int)
    } else {
        ordered
    }
}

/// The results of a search from its hits after exclusion and re-ranking.
pub fn finish_search(hits: Vec<ScoredHit>, reranked: bool, top_k: usize) -> (r: Vec<ScoredHit>)
    ensures
        r@ == ranked_results(hits@, reranked, top_k as nat),
{
    let ordered = if reranked {
        sort_hits_by_score(hits)
    } else {
        hits
    };
    take_best(ordered, top_k)
}

/// A search's results are best first: sorted by score, at most `top_k` (as many
/// as there are hits, up to `top_k`), all taken from the hits, and no hit that
/// was left out scores better than the last result. The hits must be sorted
/// already where they were not re-ranked, as the selection and the exclusion
/// leave them.
pub proof fn lemma_search_results_best_first(hits: Seq<ScoredHit>, reranked: bool, top_k: nat)
    requires
        reranked || sorted_by_score(hits),
    ensures
        sorted_by_score(ranked_results(hits, reranked, top_k)),
        ranked_results(hits, reranked, top_k).len() == if top_k < hits.len() { top_k } else { hits.len() },
        ranked_results(hits, reranked, top_k).to_multiset().subset_of(hits.to_multiset()),
        forall|x: ScoredHit| #[trigger] hits.to_multiset().count(x) > ranked_results(hits, reranked, top_k).to_multiset().count(x)
            && ranked_results(hits, reranked, top_k).len() > 0
            ==> x.score_key >= ranked_results(hits, reranked, top_k).last().score_key,
{
    broadcast use vstd::seq_lib::group_to_multiset_ensures, vstd::multiset::group_multiset_axioms;

    let ordered = if reranked { sort_by_score(hits) } else { hits };
    lemma_sort_by_score(hits);
    assert(sorted_by_score(ordered));
    assert(ordered.to_multiset() == hits.to_multiset());
    let r = ranked_results(hits, reranked, top_k);
    if top_k < ordered.len() {
        let rest = ordered.skip(top_k as int);
        assert(ordered =~= r + rest);
        vstd::seq_lib::lemma_multiset_commutative(r, rest);
        assert forall|x: ScoredHit| #[trigger] hits.to_multiset().count(x) > r.to_multiset().count(x) && r.len() > 0
            implies x.score_key >= r.last().score_key by {
            assert(rest.to_multiset().count(x) > 0);
            assert(rest.contains(x));
            let j = choose|j: int| 0 <= j < rest.len() && rest[j] == x;
            assert(ordered[top_k + j] == x);
            if top_k > 0 {
                assert(r.last() == ordered[top_k - 1]);
            }
        }
    } else {
        assert(r == ordered);
    }
}

/// The bytes of the node that a scanned vector key names (see
/// `VectorScanQuery::node_id_from_key`), read from the key's bytes;
/// empty where the key names none.
pub open spec fn hit_node_bytes(key_bytes: Seq<u8>) -> Seq<u8> {
    match key_node_field(utf8_lossy(key_bytes)) {
        Some(field) => encode_utf8(field),
        None => Seq::empty(),
    }
}

/// A candidate made from a scanned vector key, the searched kind, the kind of
/// vector the scanned partition holds, and the score's key.
pub fn hit_from_key(key_bytes: &[u8], kind: &str, hit_kind: SearchKind, score_key: u32) -> (r: ScoredHit)
    ensures
        r.node_id_bytes@ == hit_node_bytes(key_bytes@),
        r.kind@ == kind@,
        r.hit_kind == hit_kind,
        r.score_key == score_key,
{
    let key = decode_utf8_lossy(key_bytes);
    let node_id_bytes = match VectorScanQuery::node_id_from_key(key.as_str()) {
        Some(field) => text_bytes(field),
        None => Vec::new(),
    };
    ScoredHit { node_id_bytes, kind: String::from_str(kind), hit_kind, score_key }
}

/// The node of a hit, its stored bytes read as text.
pub fn hit_node_id(hit: &ScoredHit) -> (r: NodeId)
    ensures
        r@ == utf8_lossy(hit.node_id_bytes@),
{
    NodeId::new(decode_utf8_lossy(hit.node_id_bytes.as_slice()))
}

/// The scan that finds a hit's re-ranking vectors of `kind`: over node and edge
/// vectors of that kind, in every namespace.
pub fn rerank_scan(kind: &str) -> (r: VectorScanQuery)
    ensures
        r.kind@ == kind@,
        r.namespace is None,
        r.search_kind == SearchKind::All,
{
    VectorScanQuery::new(String::from_str(kind), SearchKind::All)
}

/// Whether a scanned vector key holds a re-ranking vector of `hit`: the node
/// that the key names (for an edge's vector, its source) is the hit's node.
pub fn is_rerank_entry(key_bytes: &[u8], hit: &ScoredHit) -> (r: bool)
    ensures
        r == (key_node_field(utf8_lossy(key_bytes@)) == Some(utf8_lossy(hit.node_id_bytes@))),
        valid_utf8(key_bytes@) && valid_utf8(hit.node_id_bytes@)
            ==> r == (key_node_field(decode_utf8(key_bytes@)) == Some(decode_utf8(hit.node_id_bytes@))),
{
    let key = decode_utf8_lossy(key_bytes);
    let node = decode_utf8_lossy(hit.node_id_bytes.as_slice());
    match VectorScanQuery::node_id_from_key(key.as_str()) {
        Some(field) => str_eq(field, node.as_str()),
        None => false,
    }
}

/// Where the fields hold no colon, every stored vector of `kind` whose node (or
/// source) is `node_id` is found by the re-ranking scan of `kind`, in whatever
/// namespace it is stored: its key starts with the scan's prefix and names the node.
pub proof fn lemma_rerank_scan_finds_vectors_in_every_namespace(
    kind: Seq<char>,
    namespace: Option<String>,
    node_id: Seq<char>,
    target: Seq<char>,
)
    requires
        !has_colon(kind),
        !has_colon(namespace_text(namespace)),
        !has_colon(node_id),
    ensures
        scan_prefix_text(kind, None).is_prefix_of(node_vector_key_text(kind, namespace_text(namespace), node_id)),
        key_node_field(node_vector_key_text(kind, namespace_text(namespace), node_id)) == Some(node_id),
        scan_prefix_text(kind, None).is_prefix_of(edge_vector_key_text(kind, namespace_text(namespace), node_id, target)),
        key_node_field(edge_vector_key_text(kind, namespace_text(namespace), node_id, target)) == Some(node_id),
{
    lemma_scan_prefix_starts_vector_keys(kind, None, namespace, node_id, target);
    lemma_node_vector_key_names_its_node(kind, namespace_text(namespace), node_id);
    lemma_edge_vector_key_names_its_source(kind, namespace_text(namespace), node_id, target);
}

/// Whether a stored vector of `byte_len` bytes has `dimension` components of four bytes.
pub fn stored_vector_has_dimension(byte_len: usize, dimension: usize) -> (r: bool)
    ensures
        r == (byte_len % 4 == 0 && byte_len / 4 == dimension),
{
    byte_len % 4 == 0 && byte_len / 4 == dimension
}

/// The first `top_k` hits.
pub fn take_best(hits: Vec<ScoredHit>, top_k: usize) -> (r: Vec<ScoredHit>)
    ensures
        r@ == if top_k < hits@.len() { hits@.take(top_k as int) } else { hits@ },
{
    let mut hits = hits;
    if top_k < hits.len() {
        hits.truncate(top_k);
    }
    hits
}

} // verus!
