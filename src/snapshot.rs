//! Snapshots of the safe-mode engine: the key/value pairs of one database,
//! kept as a vector sorted by key, then by value.
use crate::flags::DatabaseFlags;
use crate::order::{
    bytes_le, bytes_lt, compare_bytes, equal_bytes, lemma_cmp_antisym, lemma_cmp_eq, lemma_cmp_range,
    lemma_le_antisym, lemma_le_lt_trans, lemma_lt_le_trans, lemma_lt_trans,
};
use vstd::prelude::*;
use vstd::slice::*;

verus! {

/// A key/value pair as byte strings.
pub type PairView = (Seq<u8>, Seq<u8>);

/// Pairs sort by key, then by value.
pub open spec fn pair_lt(a: PairView, b: PairView) -> bool {
    bytes_lt(a.0, b.0) || (a.0 == b.0 && bytes_lt(a.1, b.1))
}

/// Strictly ascending pairs: sorted, with no pair twice.
pub open spec fn sorted_pairs(s: Seq<PairView>) -> bool {
    forall|i: int, j: int| 0 <= i < j < s.len() ==> #[trigger] pair_lt(s[i], s[j])
}

/// Strictly ascending byte strings.
pub open spec fn sorted_bytes(s: Seq<Seq<u8>>) -> bool {
    forall|i: int, j: int| 0 <= i < j < s.len() ==> #[trigger] bytes_lt(s[i], s[j])
}

pub proof fn lemma_pair_lt_trans(a: PairView, b: PairView, c: PairView)
    requires
        pair_lt(a, b),
        pair_lt(b, c),
    ensures
        pair_lt(a, c),
{
    if bytes_lt(a.0, b.0) {
        if bytes_lt(b.0, c.0) {
            lemma_lt_trans(a.0, b.0, c.0);
        }
    } else if bytes_lt(b.0, c.0) {
    } else {
        lemma_lt_trans(a.1, b.1, c.1);
    }
}

pub proof fn lemma_pair_lt_irrefl(a: PairView)
    ensures
        !pair_lt(a, a),
{
    lemma_cmp_eq(a.0, a.0);
    lemma_cmp_eq(a.1, a.1);
}

/// The key of a smaller pair is not larger.
pub proof fn lemma_pair_lt_key_le(a: PairView, b: PairView)
    requires
        pair_lt(a, b),
    ensures
        bytes_le(a.0, b.0),
{
    lemma_cmp_eq(a.0, b.0);
}

/// Two different pairs are ordered one way or the other.
pub proof fn lemma_pair_total(a: PairView, b: PairView)
    ensures
        a == b || pair_lt(a, b) || pair_lt(b, a),
{
    lemma_cmp_eq(a.0, b.0);
    lemma_cmp_eq(a.1, b.1);
    lemma_cmp_antisym(a.0, b.0);
    lemma_cmp_antisym(a.1, b.1);
    lemma_cmp_range(a.0, b.0);
    lemma_cmp_range(a.1, b.1);
}

pub open spec fn view_pair(p: (Vec<u8>, Vec<u8>)) -> PairView {
    (p.0@, p.1@)
}

pub open spec fn entries_view(e: Seq<(Vec<u8>, Vec<u8>)>) -> Seq<PairView> {
    e.map_values(|p: (Vec<u8>, Vec<u8>)| view_pair(p))
}

/// The content of a snapshot: its flags and its pairs in ascending order.
pub struct SnapshotView {
    pub flags: DatabaseFlags,
    pub entries: Seq<PairView>,
}

impl SnapshotView {
    pub open spec fn wf(self) -> bool {
        sorted_pairs(self.entries)
    }

    pub open spec fn contains(self, k: Seq<u8>, v: Seq<u8>) -> bool {
        self.entries.contains((k, v))
    }

    pub open spec fn has_key(self, k: Seq<u8>) -> bool {
        exists|v: Seq<u8>| #[trigger] self.contains(k, v)
    }
}

/// Whether a pair's key is not below `k`.
pub open spec fn key_at_least(k: Seq<u8>) -> spec_fn(PairView) -> bool {
    |p: PairView| bytes_le(k, p.0)
}

/// Whether a pair's key is `k`.
pub open spec fn key_is(k: Seq<u8>) -> spec_fn(PairView) -> bool {
    |p: PairView| p.0 == k
}

pub open spec fn value_part(p: PairView) -> Seq<u8> {
    p.1
}

/// The pairs of a sequence whose key is not below `k`.
pub open spec fn pairs_from(s: Seq<PairView>, k: Seq<u8>) -> Seq<PairView> {
    s.filter(key_at_least(k))
}

/// The values that a sequence of pairs holds under key `k`, in order.
pub open spec fn values_of(s: Seq<PairView>, k: Seq<u8>) -> Seq<Seq<u8>> {
    s.filter(key_is(k)).map_values(|p: PairView| value_part(p))
}

/// Filtering keeps every element when all of them pass.
pub proof fn lemma_filter_all<A>(s: Seq<A>, pred: spec_fn(A) -> bool)
    requires
        forall|i: int| 0 <= i < s.len() ==> pred(#[trigger] s[i]),
    ensures
        s.filter(pred) == s,
    decreases s.len(),
{
    reveal(Seq::filter);
    if s.len() > 0 {
        lemma_filter_all(s.drop_last(), pred);
        assert(s.drop_last().push(s.last()) =~= s);
    }
}

/// Filtering keeps nothing when no element passes.
pub proof fn lemma_filter_none<A>(s: Seq<A>, pred: spec_fn(A) -> bool)
    requires
        forall|i: int| 0 <= i < s.len() ==> !pred(#[trigger] s[i]),
    ensures
        s.filter(pred) == Seq::<A>::empty(),
    decreases s.len(),
{
    reveal(Seq::filter);
    if s.len() > 0 {
        lemma_filter_none(s.drop_last(), pred);
    } else {
        assert(s =~= Seq::<A>::empty());
    }
}

/// What a filter keeps of a strictly ascending sequence is strictly ascending.
pub proof fn lemma_filter_sorted(s: Seq<PairView>, pred: spec_fn(PairView) -> bool)
    requires
        sorted_pairs(s),
    ensures
        sorted_pairs(s.filter(pred)),
    decreases s.len(),
{
    reveal(Seq::filter);
    if s.len() > 0 {
        let rest = s.drop_last();
        assert(sorted_pairs(rest));
        lemma_filter_sorted(rest, pred);
        if pred(s.last()) {
            let f = rest.filter(pred);
            let g = f.push(s.last());
            assert forall|i: int, j: int| 0 <= i < j < g.len() implies #[trigger] pair_lt(g[i], g[j]) by {
                if j == g.len() - 1 {
                    assert(f.contains(f[i]));
                    rest.lemma_filter_contains_rev(pred, f[i]);
                    let m = choose|m: int| 0 <= m < rest.len() && rest[m] == f[i];
                    assert(pair_lt(s[m], s[s.len() - 1]));
                } else {
                    assert(pair_lt(f[i], f[j]));
                }
            }
        }
    }
}

/// Under a key, a strictly ascending sequence holds the values of one run of positions.
pub proof fn lemma_values_of_range(s: Seq<PairView>, k: Seq<u8>, lo: int, hi: int)
    requires
        0 <= lo <= hi <= s.len(),
        forall|j: int| 0 <= j < lo ==> bytes_lt(#[trigger] s[j].0, k),
        forall|j: int| lo <= j < hi ==> #[trigger] s[j].0 == k,
        forall|j: int| hi <= j < s.len() ==> bytes_lt(k, #[trigger] s[j].0),
    ensures
        s.filter(key_is(k)) == s.subrange(lo, hi),
        values_of(s, k) == s.subrange(lo, hi).map_values(|p: PairView| value_part(p)),
{
    lemma_cmp_eq(k, k);
    let pred = key_is(k);
    let s1 = s.subrange(0, lo);
    let s2 = s.subrange(lo, hi);
    let s3 = s.subrange(hi, s.len() as int);
    assert(s1 + s2 + s3 =~= s);
    assert forall|i: int| 0 <= i < s1.len() implies !pred(#[trigger] s1[i]) by {
        assert(bytes_lt(s[i].0, k));
    }
    assert forall|i: int| 0 <= i < s2.len() implies pred(#[trigger] s2[i]) by {
        assert(s[i + lo].0 == k);
    }
    assert forall|i: int| 0 <= i < s3.len() implies !pred(#[trigger] s3[i]) by {
        assert(bytes_lt(k, s[i + hi].0));
    }
    lemma_filter_none(s1, pred);
    lemma_filter_all(s2, pred);
    lemma_filter_none(s3, pred);
    Seq::filter_distributes_over_add(s1 + s2, s3, pred);
    Seq::filter_distributes_over_add(s1, s2, pred);
    assert(Seq::<PairView>::empty() + s2 + Seq::<PairView>::empty() =~= s2);
    assert(s.filter(pred) == s2);
}

/// A strictly ascending sequence holds each pair at one position only.
pub proof fn lemma_sorted_unique(s: Seq<PairView>, i: int, j: int)
    requires
        sorted_pairs(s),
        0 <= i < s.len(),
        0 <= j < s.len(),
        s[i] == s[j],
    ensures
        i == j,
{
    if i < j {
        assert(pair_lt(s[i], s[j]));
        lemma_pair_lt_irrefl(s[i]);
    } else if j < i {
        assert(pair_lt(s[j], s[i]));
        lemma_pair_lt_irrefl(s[i]);
    }
}

pub proof fn lemma_view_subrange(e: Seq<(Vec<u8>, Vec<u8>)>, a: int, b: int)
    requires
        0 <= a <= b <= e.len(),
    ensures
        entries_view(e.subrange(a, b)) == entries_view(e).subrange(a, b),
{
    assert(entries_view(e.subrange(a, b)) =~= entries_view(e).subrange(a, b));
}

pub proof fn lemma_view_add(e1: Seq<(Vec<u8>, Vec<u8>)>, e2: Seq<(Vec<u8>, Vec<u8>)>)
    ensures
        entries_view(e1 + e2) == entries_view(e1) + entries_view(e2),
{
    assert(entries_view(e1 + e2) =~= entries_view(e1) + entries_view(e2));
}

pub proof fn lemma_view_push(e: Seq<(Vec<u8>, Vec<u8>)>, x: (Vec<u8>, Vec<u8>))
    ensures
        entries_view(e.push(x)) == entries_view(e).push(view_pair(x)),
{
    assert(entries_view(e.push(x)) =~= entries_view(e).push(view_pair(x)));
}

pub proof fn lemma_view_insert(e: Seq<(Vec<u8>, Vec<u8>)>, i: int, x: (Vec<u8>, Vec<u8>))
    requires
        0 <= i <= e.len(),
    ensures
        entries_view(e.insert(i, x)) == entries_view(e).insert(i, view_pair(x)),
{
    assert(entries_view(e.insert(i, x)) =~= entries_view(e).insert(i, view_pair(x)));
}

pub proof fn lemma_view_remove(e: Seq<(Vec<u8>, Vec<u8>)>, i: int)
    requires
        0 <= i < e.len(),
    ensures
        entries_view(e.remove(i)) == entries_view(e).remove(i),
{
    assert(entries_view(e.remove(i)) =~= entries_view(e).remove(i));
}

/// Iterating from a key yields keys not below it, in strictly ascending
/// order; on an empty snapshot it yields nothing.
pub proof fn lemma_iter_from_order(s: SnapshotView, k: Seq<u8>)
    requires
        s.wf(),
    ensures
        sorted_pairs(pairs_from(s.entries, k)),
        forall|i: int| 0 <= i < pairs_from(s.entries, k).len() ==> bytes_le(k, #[trigger] pairs_from(s.entries, k)[i].0),
        s.entries.len() == 0 ==> pairs_from(s.entries, k).len() == 0,
{
    lemma_filter_sorted(s.entries, key_at_least(k));
    assert forall|i: int| 0 <= i < pairs_from(s.entries, k).len() implies bytes_le(
        k,
        #[trigger] pairs_from(s.entries, k)[i].0,
    ) by {
        s.entries.lemma_filter_pred(key_at_least(k), i);
    }
    s.entries.lemma_filter_len(key_at_least(k));
}

/// Iterating over an empty snapshot yields nothing, from the start or from any key.
pub proof fn lemma_empty_iteration(s: SnapshotView, k: Seq<u8>)
    requires
        s.entries.len() == 0,
    ensures
        s.entries.len() == 0,
        pairs_from(s.entries, k).len() == 0,
{
    s.entries.lemma_filter_len(key_at_least(k));
}

/// No key appears twice.
pub open spec fn single_valued(s: Seq<PairView>) -> bool {
    forall|i: int, j: int| 0 <= i < j < s.len() ==> #[trigger] s[i].0 != #[trigger] s[j].0
}

/// Two strictly ascending sequences that hold the same pairs are equal.
pub proof fn lemma_sorted_eq(s: Seq<PairView>, t: Seq<PairView>)
    requires
        sorted_pairs(s),
        sorted_pairs(t),
        forall|p: PairView| s.contains(p) <==> t.contains(p),
    ensures
        s == t,
    decreases s.len(),
{
    if s.len() == 0 {
        if t.len() > 0 {
            assert(t.contains(t[0]));
        }
        assert(s =~= t);
    } else {
        assert(s.contains(s[0]));
        let j = choose|j: int| 0 <= j < t.len() && t[j] == s[0];
        assert(t.contains(t[0]));
        let i = choose|i: int| 0 <= i < s.len() && s[i] == t[0];
        if j > 0 {
            assert(pair_lt(t[0], t[j]));
            if i > 0 {
                assert(pair_lt(s[0], s[i]));
                lemma_pair_lt_trans(s[0], s[i], s[0]);
            }
            lemma_pair_lt_irrefl(s[0]);
        }
        let s1 = s.drop_first();
        let t1 = t.drop_first();
        assert forall|p: PairView| s1.contains(p) <==> t1.contains(p) by {
            if s1.contains(p) {
                let a = choose|a: int| 0 <= a < s1.len() && s1[a] == p;
                assert(s[a + 1] == p);
                assert(s.contains(p));
                let b = choose|b: int| 0 <= b < t.len() && t[b] == p;
                if b == 0 {
                    lemma_sorted_unique(s, 0, a + 1);
                }
                assert(t1[b - 1] == p);
            }
            if t1.contains(p) {
                let a = choose|a: int| 0 <= a < t1.len() && t1[a] == p;
                assert(t[a + 1] == p);
                assert(t.contains(p));
                let b = choose|b: int| 0 <= b < s.len() && s[b] == p;
                if b == 0 {
                    lemma_sorted_unique(t, 0, a + 1);
                }
                assert(s1[b - 1] == p);
            }
        }
        lemma_sorted_eq(s1, t1);
        assert(s =~= seq![s[0]] + s1);
        assert(t =~= seq![t[0]] + t1);
    }
}

/// Copies a byte string.
pub fn copy_bytes(b: &[u8]) -> (r: Vec<u8>)
    ensures
        r@ == b@,
{
    slice_to_vec(b)
}

fn copy_pair(p: &(Vec<u8>, Vec<u8>)) -> (r: (Vec<u8>, Vec<u8>))
    ensures
        view_pair(r) == view_pair(*p),
{
    (copy_bytes(p.0.as_slice()), copy_bytes(p.1.as_slice()))
}

/// Compares two pairs: -1, 0 or 1.
fn compare_pair(k1: &[u8], v1: &[u8], k2: &[u8], v2: &[u8]) -> (r: i8)
    ensures
        r == -1 <==> pair_lt((k1@, v1@), (k2@, v2@)),
        r == 0 <==> (k1@ == k2@ && v1@ == v2@),
        r == 1 <==> pair_lt((k2@, v2@), (k1@, v1@)),
        -1 <= r <= 1,
{
    proof {
        lemma_pair_total((k1@, v1@), (k2@, v2@));
        lemma_pair_lt_irrefl((k1@, v1@));
        lemma_cmp_antisym(k1@, k2@);
        lemma_cmp_antisym(v1@, v2@);
        lemma_cmp_eq(k1@, k2@);
        lemma_cmp_eq(v1@, v2@);
    }
    let c = compare_bytes(k1, k2);
    if c != 0 {
        c
    } else {
        compare_bytes(v1, v2)
    }
}

/// The pairs of one database at one point in time.
pub struct Snapshot {
    flags: DatabaseFlags,
    entries: Vec<(Vec<u8>, Vec<u8>)>,
}

impl View for Snapshot {
    type V = SnapshotView;

    closed spec fn view(&self) -> SnapshotView {
        SnapshotView { flags: self.flags, entries: entries_view(self.entries@) }
    }
}

impl Snapshot {
    /// An empty snapshot with the given flags.
    pub fn new(flags: DatabaseFlags) -> (r: Snapshot)
        ensures
            r@.flags == flags,
            r@.entries.len() == 0,
            r@.wf(),
    {
        let r = Snapshot { flags, entries: Vec::new() };
        assert(r@.entries =~= Seq::<PairView>::empty());
        r
    }

    /// Whether the pairs are strictly ascending.
    pub fn is_wf(&self) -> (r: bool)
        ensures
            r == self@.wf(),
    {
        let ghost s = self@.entries;
        let n = self.entries.len();
        if n == 0 {
            return true;
        }
        let mut i: usize = 1;
        while i < n
            invariant
                s == self@.entries,
                n == s.len(),
                1 <= i <= n,
                sorted_pairs(s.subrange(0, i as int)),
            decreases n - i,
        {
            assert(s[i - 1] == view_pair(self.entries@[i - 1]));
            assert(s[i as int] == view_pair(self.entries@[i as int]));
            let c = compare_pair(
                self.entries[i - 1].0.as_slice(),
                self.entries[i - 1].1.as_slice(),
                self.entries[i].0.as_slice(),
                self.entries[i].1.as_slice(),
            );
            if c != -1 {
                proof {
                    if sorted_pairs(s) {
                        assert(pair_lt(s[i - 1], s[i as int]));
                    }
                }
                return false;
            }
            proof {
                let t = s.subrange(0, i + 1);
                assert forall|a: int, b: int| 0 <= a < b < t.len() implies #[trigger] pair_lt(t[a], t[b]) by {
                    if b == i {
                        if a < i - 1 {
                            assert(s.subrange(0, i as int)[a] == s[a]);
                            assert(pair_lt(s.subrange(0, i as int)[a], s.subrange(0, i as int)[i - 1]));
                            lemma_pair_lt_trans(s[a], s[i - 1], s[i as int]);
                        }
                    } else {
                        assert(pair_lt(s.subrange(0, i as int)[a], s.subrange(0, i as int)[b]));
                    }
                }
            }
            i = i + 1;
        }
        assert(s.subrange(0, n as int) =~= s);
        true
    }

    /// Whether no key appears twice.
    pub fn is_single_valued(&self) -> (r: bool)
        requires
            self@.wf(),
        ensures
            r == single_valued(self@.entries),
    {
        let ghost s = self@.entries;
        let n = self.entries.len();
        if n == 0 {
            return true;
        }
        let mut i: usize = 1;
        while i < n
            invariant
                s == self@.entries,
                sorted_pairs(s),
                n == s.len(),
                1 <= i <= n,
                forall|a: int, b: int| 0 <= a < b < i ==> bytes_lt(#[trigger] s[a].0, #[trigger] s[b].0),
            decreases n - i,
        {
            assert(s[i - 1] == view_pair(self.entries@[i - 1]));
            assert(s[i as int] == view_pair(self.entries@[i as int]));
            if equal_bytes(self.entries[i - 1].0.as_slice(), self.entries[i].0.as_slice()) {
                assert(s[i - 1].0 == s[i as int].0);
                assert(!single_valued(s));
                return false;
            }
            proof {
                assert(pair_lt(s[i - 1], s[i as int]));
                lemma_pair_lt_key_le(s[i - 1], s[i as int]);
                lemma_cmp_eq(s[i - 1].0, s[i as int].0);
                assert forall|a: int, b: int| 0 <= a < b < i + 1 implies bytes_lt(#[trigger] s[a].0, #[trigger] s[b].0) by {
                    if b == i && a < i - 1 {
                        lemma_lt_trans(s[a].0, s[i - 1].0, s[i as int].0);
                    }
                }
            }
            i = i + 1;
        }
        proof {
            assert forall|a: int, b: int| 0 <= a < b < s.len() implies #[trigger] s[a].0 != #[trigger] s[b].0 by {
                assert(bytes_lt(s[a].0, s[b].0));
                lemma_cmp_eq(s[a].0, s[b].0);
            }
        }
        true
    }

    /// The snapshot holding `entries`, when they are strictly ascending.
    pub fn from_entries(flags: DatabaseFlags, entries: Vec<(Vec<u8>, Vec<u8>)>) -> (r: Option<Snapshot>)
        ensures
            r is Some <==> sorted_pairs(entries_view(entries@)),
            r matches Some(s) ==> s@.flags == flags && s@.entries == entries_view(entries@),
    {
        let s = Snapshot { flags, entries };
        if s.is_wf() {
            Some(s)
        } else {
            None
        }
    }

    /// The flags this snapshot's database was created with.
    pub fn flags(&self) -> (r: DatabaseFlags)
        ensures
            r == self@.flags,
    {
        self.flags
    }

    /// The number of pairs.
    pub fn len(&self) -> (r: usize)
        ensures
            r == self@.entries.len(),
    {
        self.entries.len()
    }

    /// The pair at position `i`, in ascending order.
    pub fn pair_at(&self, i: usize) -> (r: (&[u8], &[u8]))
        requires
            i < self@.entries.len(),
        ensures
            (r.0@, r.1@) == self@.entries[i as int],
    {
        let p = &self.entries[i];
        (p.0.as_slice(), p.1.as_slice())
    }

    /// A copy holding the same pairs.
    pub fn duplicate(&self) -> (r: Snapshot)
        ensures
            r@ == self@,
    {
        let mut entries: Vec<(Vec<u8>, Vec<u8>)> = Vec::new();
        let mut i: usize = 0;
        while i < self.entries.len()
            invariant
                i <= self.entries@.len(),
                entries@.len() == i,
                entries_view(entries@) =~= entries_view(self.entries@).subrange(0, i as int),
            decreases self.entries@.len() - i,
        {
            let p = copy_pair(&self.entries[i]);
            assert(view_pair(p) == entries_view(self.entries@)[i as int]);
            let ghost before = entries@;
            entries.push(p);
            assert forall|j: int| 0 <= j < i + 1 implies #[trigger] entries_view(entries@)[j]
                == entries_view(self.entries@)[j] by {
                if j < i {
                    assert(entries@[j] == before[j]);
                    assert(entries_view(before)[j] == entries_view(self.entries@).subrange(0, i as int)[j]);
                }
            }
            assert(entries_view(entries@) =~= entries_view(self.entries@).subrange(0, i + 1));
            i = i + 1;
        }
        assert(entries_view(self.entries@).subrange(0, i as int) =~= entries_view(self.entries@));
        Snapshot { flags: self.flags, entries }
    }

    /// The position of the first pair not below `(k, v)`, and whether it is that pair.
    fn position(&self, k: &[u8], v: &[u8]) -> (r: (usize, bool))
        requires
            self@.wf(),
        ensures
            r.0 <= self@.entries.len(),
            forall|j: int| 0 <= j < r.0 ==> pair_lt(#[trigger] self@.entries[j], (k@, v@)),
            forall|j: int| r.0 <= j < self@.entries.len() ==> !pair_lt(#[trigger] self@.entries[j], (k@, v@)),
            r.1 == (r.0 < self@.entries.len() && self@.entries[r.0 as int] == (k@, v@)),
    {
        let ghost s = self@.entries;
        let ghost x = (k@, v@);
        let mut lo: usize = 0;
        let mut hi: usize = self.entries.len();
        while lo < hi
            invariant
                s == self@.entries,
                x == (k@, v@),
                s.len() == self.entries@.len(),
                sorted_pairs(s),
                lo <= hi <= s.len(),
                forall|j: int| 0 <= j < lo ==> pair_lt(#[trigger] s[j], x),
                forall|j: int| hi <= j < s.len() ==> !pair_lt(#[trigger] s[j], x),
            decreases hi - lo,
        {
            let mid = lo + (hi - lo) / 2;
            let c = compare_pair(self.entries[mid].0.as_slice(), self.entries[mid].1.as_slice(), k, v);
            assert(s[mid as int] == view_pair(self.entries@[mid as int]));

            if c < 0 {
                assert forall|j: int| 0 <= j < mid + 1 implies pair_lt(#[trigger] s[j], x) by {
                    if j < mid {
                        assert(pair_lt(s[j], s[mid as int]));
                        lemma_pair_lt_trans(s[j], s[mid as int], x);
                    }
                }
                lo = mid + 1;
            } else {
                assert forall|j: int| mid <= j < s.len() implies !pair_lt(#[trigger] s[j], x) by {
                    lemma_pair_lt_irrefl(x);
                    if j > mid {
                        assert(pair_lt(s[mid as int], s[j]));
                        if pair_lt(s[j], x) {
                            lemma_pair_lt_trans(s[mid as int], s[j], x);
                            if s[mid as int] != x {
                                lemma_pair_lt_trans(x, s[mid as int], x);
                            }
                        }
                    }
                }
                hi = mid;
            }
        }
        if lo < self.entries.len() {
            assert(s[lo as int] == view_pair(self.entries@[lo as int]));
            let c = compare_pair(self.entries[lo].0.as_slice(), self.entries[lo].1.as_slice(), k, v);
            (lo, c == 0)
        } else {
            (lo, false)
        }
    }

    /// Whether the pair `(k, v)` is present.
    pub fn contains_pair(&self, k: &[u8], v: &[u8]) -> (r: bool)
        requires
            self@.wf(),
        ensures
            r == self@.contains(k@, v@),
    {
        let (i, found) = self.position(k, v);
        proof {
            if self@.contains(k@, v@) {
                let j = choose|j: int| 0 <= j < self@.entries.len() && self@.entries[j] == (k@, v@);
                lemma_pair_lt_irrefl((k@, v@));
                if j > i {
                    assert(pair_lt(self@.entries[i as int], self@.entries[j]));
                    if self@.entries[i as int] != (k@, v@) {
                        lemma_pair_total(self@.entries[i as int], (k@, v@));
                    }
                }
            }
        }
        found
    }

    /// The smallest value under key `k`, if the key is present.
    pub fn get(&self, k: &[u8]) -> (r: Option<&[u8]>)
        requires
            self@.wf(),
        ensures
            r matches Some(v) ==> values_of(self@.entries, k@).len() > 0 && v@ == values_of(
                self@.entries,
                k@,
            )[0],
            r is None ==> values_of(self@.entries, k@).len() == 0,
            r is Some <==> self@.has_key(k@),
    {
        let ghost s = self@.entries;
        let (lo, hi) = self.key_range(k);
        proof {
            lemma_values_of_range(s, k@, lo as int, hi as int);
            if self@.has_key(k@) {
                let w = choose|w: Seq<u8>| #[trigger] self@.contains(k@, w);
                let j = choose|j: int| 0 <= j < s.len() && s[j] == (k@, w);
                lemma_cmp_eq(k@, k@);
                if j < lo {
                    assert(bytes_lt(s[j].0, k@));
                } else if j >= hi {
                    assert(bytes_lt(k@, s[j].0));
                }
            }
            if lo < hi {
                assert(s[lo as int].0 == k@);
                assert(s[lo as int] == (k@, s[lo as int].1));
                assert(s.contains((k@, s[lo as int].1)));
                assert(self@.contains(k@, s[lo as int].1));
            }
        }
        if lo < hi {
            let v = self.entries[lo].1.as_slice();
            assert(s[lo as int] == view_pair(self.entries@[lo as int]));
            Some(v)
        } else {
            None
        }
    }

    /// Adds the pair `(k, v)`, keeping the other values of `k`.
    pub fn put_dup(&mut self, k: &[u8], v: &[u8])
        requires
            old(self)@.wf(),
        ensures
            final(self)@.wf(),
            final(self)@.flags == old(self)@.flags,
            forall|a: Seq<u8>, b: Seq<u8>| #[trigger] final(self)@.contains(a, b)
                <==> (old(self)@.contains(a, b) || (a == k@ && b == v@)),
    {
        let ghost s = self@.entries;
        let ghost x = (k@, v@);
        let (i, found) = self.position(k, v);
        if !found {
            let p = (copy_bytes(k), copy_bytes(v));
            let ghost e = self.entries@;
            self.entries.insert(i, p);
            proof {
                lemma_view_insert(e, i as int, p);
                let t = s.insert(i as int, x);
                assert(self@.entries == t);
                assert forall|j: int| i <= j < s.len() implies pair_lt(x, #[trigger] s[j]) by {
                    lemma_pair_total(x, s[i as int]);
                    if j > i {
                        assert(pair_lt(s[i as int], s[j]));
                        lemma_pair_lt_trans(x, s[i as int], s[j]);
                    }
                }
                assert forall|a: int, b: int| 0 <= a < b < t.len() implies #[trigger] pair_lt(t[a], t[b]) by {
                    if b < i {
                    } else if b == i {
                    } else if a < i {
                        lemma_pair_lt_trans(t[a], x, t[b]);
                    } else if a == i {
                    } else {
                        assert(pair_lt(s[a - 1], s[b - 1]));
                    }
                }
                assert forall|a: Seq<u8>, b: Seq<u8>| #[trigger] self@.contains(a, b)
                    <==> (old(self)@.contains(a, b) || (a == k@ && b == v@)) by {
                    if self@.contains(a, b) {
                        let j = choose|j: int| 0 <= j < t.len() && t[j] == (a, b);
                        if j < i {
                            assert(s[j] == (a, b));
                        } else if j > i {
                            assert(s[j - 1] == (a, b));
                        }
                    }
                    if old(self)@.contains(a, b) {
                        let j = choose|j: int| 0 <= j < s.len() && s[j] == (a, b);
                        if j < i {
                            assert(t[j] == (a, b));
                        } else {
                            assert(t[j + 1] == (a, b));
                        }
                    }
                    if a == k@ && b == v@ {
                        assert(t[i as int] == (a, b));
                    }
                }
            }
        } else {
            proof {
                assert forall|a: Seq<u8>, b: Seq<u8>| #[trigger] self@.contains(a, b)
                    <==> (old(self)@.contains(a, b) || (a == k@ && b == v@)) by {
                    if a == k@ && b == v@ {
                        assert(s[i as int] == (a, b));
                    }
                }
            }
        }
    }

    /// Removes the pair `(k, v)`; says whether it was present.
    pub fn del_exact(&mut self, k: &[u8], v: &[u8]) -> (r: bool)
        requires
            old(self)@.wf(),
        ensures
            r == old(self)@.contains(k@, v@),
            !r ==> final(self)@ == old(self)@,
            final(self)@.wf(),
            final(self)@.flags == old(self)@.flags,
            forall|a: Seq<u8>, b: Seq<u8>| #[trigger] final(self)@.contains(a, b)
                <==> (old(self)@.contains(a, b) && !(a == k@ && b == v@)),
    {
        let ghost s = self@.entries;
        let ghost x = (k@, v@);
        let present = self.contains_pair(k, v);
        if present {
            let (i, found) = self.position(k, v);
            proof {
                let j = choose|j: int| 0 <= j < s.len() && s[j] == x;
                lemma_pair_lt_irrefl(x);
                if j < i {
                    assert(pair_lt(s[j], x));
                }
            }
            let ghost e = self.entries@;
            self.entries.remove(i);
            proof {
                lemma_view_remove(e, i as int);
                let t = s.remove(i as int);
                assert(self@.entries == t);
                assert forall|a: int, b: int| 0 <= a < b < t.len() implies #[trigger] pair_lt(t[a], t[b]) by {
                    if b < i {
                    } else if a < i {
                        assert(pair_lt(s[a], s[b + 1]));
                    } else {
                        assert(pair_lt(s[a + 1], s[b + 1]));
                    }
                }
                assert forall|a: Seq<u8>, b: Seq<u8>| #[trigger] self@.contains(a, b)
                    <==> (old(self)@.contains(a, b) && !(a == k@ && b == v@)) by {
                    if self@.contains(a, b) {
                        let j = choose|j: int| 0 <= j < t.len() && t[j] == (a, b);
                        if j < i {
                            assert(s[j] == (a, b));
                            if a == k@ && b == v@ {
                                lemma_sorted_unique(s, j, i as int);
                            }
                        } else {
                            assert(s[j + 1] == (a, b));
                            if a == k@ && b == v@ {
                                lemma_sorted_unique(s, j + 1, i as int);
                            }
                        }
                    }
                    if old(self)@.contains(a, b) && !(a == k@ && b == v@) {
                        let j = choose|j: int| 0 <= j < s.len() && s[j] == (a, b);
                        if j < i {
                            assert(t[j] == (a, b));
                        } else {
                            assert(j != i);
                            assert(t[j - 1] == (a, b));
                        }
                    }
                }
            }
        }
        present
    }

    /// Replaces the pairs at positions `lo..hi` by `mid`, if any.
    fn replace_range(&mut self, lo: usize, hi: usize, mid: Option<(Vec<u8>, Vec<u8>)>)
        requires
            lo <= hi <= old(self)@.entries.len(),
        ensures
            final(self)@.flags == old(self)@.flags,
            final(self)@.entries == old(self)@.entries.subrange(0, lo as int) + (match mid {
                Some(p) => seq![view_pair(p)],
                None => Seq::<PairView>::empty(),
            }) + old(self)@.entries.subrange(hi as int, old(self)@.entries.len() as int),
    {
        let ghost e = self.entries@;
        let mut tail = self.entries.split_off(hi);
        self.entries.truncate(lo);
        let ghost head = self.entries@;
        proof {
            lemma_view_subrange(e, 0, lo as int);
            lemma_view_subrange(e, hi as int, e.len() as int);
        }
        match mid {
            Some(p) => {
                self.entries.push(p);
                proof {
                    lemma_view_push(head, p);
                }
            },
            None => {
                proof {
                    assert(entries_view(head) + Seq::<PairView>::empty() =~= entries_view(head));
                }
            },
        }
        let ghost before = self.entries@;
        let ghost t = tail@;
        self.entries.append(&mut tail);
        proof {
            lemma_view_add(before, t);
        }
    }

    /// The bounds of the pairs under key `k`.
    fn key_range(&self, k: &[u8]) -> (r: (usize, usize))
        requires
            self@.wf(),
        ensures
            r.0 <= r.1 <= self@.entries.len(),
            forall|j: int| 0 <= j < r.0 ==> bytes_lt(#[trigger] self@.entries[j].0, k@),
            forall|j: int| r.0 <= j < r.1 ==> #[trigger] self@.entries[j].0 == k@,
            forall|j: int| r.1 <= j < self@.entries.len() ==> bytes_lt(k@, #[trigger] self@.entries[j].0),
    {
        let ghost s = self@.entries;
        let lo = self.lower_bound(k);
        let hi = self.upper_bound(k);
        proof {
            lemma_cmp_eq(k@, k@);
            if hi < lo {
                assert(bytes_lt(s[hi as int].0, k@));
                lemma_lt_trans(k@, s[hi as int].0, k@);
            }
            assert forall|j: int| lo <= j < hi implies #[trigger] s[j].0 == k@ by {
                lemma_le_antisym(k@, s[j].0);
            }
        }
        (lo, hi)
    }

    /// Removes every pair under key `k`; says whether there was one.
    pub fn del_all(&mut self, k: &[u8]) -> (r: bool)
        requires
            old(self)@.wf(),
        ensures
            r == old(self)@.has_key(k@),
            !r ==> final(self)@ == old(self)@,
            final(self)@.wf(),
            final(self)@.flags == old(self)@.flags,
            forall|a: Seq<u8>, b: Seq<u8>| #[trigger] final(self)@.contains(a, b)
                <==> (old(self)@.contains(a, b) && a != k@),
    {
        let ghost s = self@.entries;
        let (lo, hi) = self.key_range(k);
        proof {
            lemma_cmp_eq(k@, k@);
            if old(self)@.has_key(k@) {
                let w = choose|w: Seq<u8>| #[trigger] old(self)@.contains(k@, w);
                let j = choose|j: int| 0 <= j < s.len() && s[j] == (k@, w);
                if j < lo {
                    assert(bytes_lt(s[j].0, k@));
                } else if j >= hi {
                    assert(bytes_lt(k@, s[j].0));
                }
            }
            if lo < hi {
                assert(s[lo as int].0 == k@);
                assert(s[lo as int] == (k@, s[lo as int].1));
                assert(s.contains((k@, s[lo as int].1)));
                assert(old(self)@.contains(k@, s[lo as int].1));
            }
        }
        if lo == hi {
            return false;
        }
        self.replace_range(lo, hi, None);
        proof {
            let t = self@.entries;
            assert(t.len() == s.len() - (hi - lo));
            assert forall|j: int| 0 <= j < t.len() implies #[trigger] t[j] == (if j < lo { s[j] } else { s[j + hi - lo] }) by {
            }
            assert forall|a: int, b: int| 0 <= a < b < t.len() implies #[trigger] pair_lt(t[a], t[b]) by {
                let ia = if a < lo { a } else { a + hi - lo };
                let ib = if b < lo { b } else { b + hi - lo };
                assert(t[a] == s[ia] && t[b] == s[ib]);
                assert(pair_lt(s[ia], s[ib]));
            }
            assert forall|a: Seq<u8>, b: Seq<u8>| #[trigger] self@.contains(a, b)
                <==> (old(self)@.contains(a, b) && a != k@) by {
                if self@.contains(a, b) {
                    let j = choose|j: int| 0 <= j < t.len() && t[j] == (a, b);
                    let i = if j < lo { j } else { j + hi - lo };
                    assert(s[i] == (a, b));
                    if i < lo {
                        assert(bytes_lt(s[i].0, k@));
                    } else {
                        assert(bytes_lt(k@, s[i].0));
                    }
                }
                if old(self)@.contains(a, b) && a != k@ {
                    let i = choose|i: int| 0 <= i < s.len() && s[i] == (a, b);
                    if i < lo {
                        assert(t[i] == (a, b));
                    } else {
                        if i < hi {
                            assert(s[i].0 == k@);
                        }
                        assert(i >= hi);
                        assert(t[i - (hi - lo)] == (a, b));
                    }
                }
            }
        }
        true
    }

    /// Makes `v` the only value under key `k`.
    pub fn put_one(&mut self, k: &[u8], v: &[u8])
        requires
            old(self)@.wf(),
        ensures
            final(self)@.wf(),
            final(self)@.flags == old(self)@.flags,
            forall|a: Seq<u8>, b: Seq<u8>| #[trigger] final(self)@.contains(a, b)
                <==> ((old(self)@.contains(a, b) && a != k@) || (a == k@ && b == v@)),
    {
        let ghost s = self@.entries;
        let ghost x = (k@, v@);
        let (lo, hi) = self.key_range(k);
        let p = (copy_bytes(k), copy_bytes(v));
        self.replace_range(lo, hi, Some(p));
        proof {
            lemma_cmp_eq(k@, k@);
            let t = self@.entries;
            assert(t.len() == s.len() - (hi - lo) + 1);
            assert(t[lo as int] == x);
            assert forall|j: int| 0 <= j < t.len() && j != lo implies #[trigger] t[j] == (if j < lo { s[j] } else { s[j + hi - lo - 1] }) by {
            }
            assert forall|a: int, b: int| 0 <= a < b < t.len() implies #[trigger] pair_lt(t[a], t[b]) by {
                if a == lo {
                    let ib = b + hi - lo - 1;
                    assert(t[b] == s[ib]);
                    assert(bytes_lt(k@, s[ib].0));
                } else if b == lo {
                    assert(t[a] == s[a]);
                    assert(bytes_lt(s[a].0, k@));
                } else {
                    let ia = if a < lo { a } else { a + hi - lo - 1 };
                    let ib = if b < lo { b } else { b + hi - lo - 1 };
                    assert(t[a] == s[ia] && t[b] == s[ib]);
                    assert(pair_lt(s[ia], s[ib]));
                }
            }
            assert forall|a: Seq<u8>, b: Seq<u8>| #[trigger] self@.contains(a, b)
                <==> ((old(self)@.contains(a, b) && a != k@) || (a == k@ && b == v@)) by {
                if self@.contains(a, b) {
                    let j = choose|j: int| 0 <= j < t.len() && t[j] == (a, b);
                    if j != lo {
                        let i = if j < lo { j } else { j + hi - lo - 1 };
                        assert(s[i] == (a, b));
                        if i < lo {
                            assert(bytes_lt(s[i].0, k@));
                        } else {
                            assert(bytes_lt(k@, s[i].0));
                        }
                    }
                }
                if old(self)@.contains(a, b) && a != k@ {
                    let i = choose|i: int| 0 <= i < s.len() && s[i] == (a, b);
                    if i < lo {
                        assert(t[i] == (a, b));
                    } else {
                        if i < hi {
                            assert(s[i].0 == k@);
                        }
                        assert(i >= hi);
                        assert(t[i - (hi - lo) + 1] == (a, b));
                    }
                }
            }
        }
    }

    /// Removes every pair.
    pub fn clear(&mut self)
        ensures
            final(self)@.wf(),
            final(self)@.flags == old(self)@.flags,
            final(self)@.entries.len() == 0,
    {
        self.entries = Vec::new();
        assert(self@.entries =~= Seq::<PairView>::empty());
    }

    /// Copies of the pairs at positions `start..end`, in ascending order.
    fn copy_range(&self, start: usize, end: usize) -> (r: Vec<(Vec<u8>, Vec<u8>)>)
        requires
            start <= end <= self@.entries.len(),
        ensures
            entries_view(r@) == self@.entries.subrange(start as int, end as int),
    {
        let ghost s = self@.entries;
        let mut out: Vec<(Vec<u8>, Vec<u8>)> = Vec::new();
        let mut i: usize = start;
        while i < end
            invariant
                s == self@.entries,
                s.len() == self.entries@.len(),
                start <= i <= end <= s.len(),
                entries_view(out@) == s.subrange(start as int, i as int),
            decreases end - i,
        {
            let p = copy_pair(&self.entries[i]);
            assert(view_pair(p) == s[i as int]);
            let ghost before = out@;
            out.push(p);
            proof {
                lemma_view_push(before, p);
                assert(s.subrange(start as int, i as int).push(s[i as int]) =~= s.subrange(start as int, i + 1));
            }
            i = i + 1;
        }
        out
    }

    /// Copies of all pairs, in ascending order.
    pub fn pairs(&self) -> (r: Vec<(Vec<u8>, Vec<u8>)>)
        ensures
            entries_view(r@) == self@.entries,
    {
        let r = self.copy_range(0, self.entries.len());
        assert(self@.entries.subrange(0, self@.entries.len() as int) =~= self@.entries);
        r
    }

    /// Copies of the pairs whose key is not below `k`, in ascending order.
    pub fn pairs_from(&self, k: &[u8]) -> (r: Vec<(Vec<u8>, Vec<u8>)>)
        requires
            self@.wf(),
        ensures
            entries_view(r@) == pairs_from(self@.entries, k@),
    {
        let ghost s = self@.entries;
        let lo = self.lower_bound(k);
        let r = self.copy_range(lo, self.entries.len());
        proof {
            let pred = key_at_least(k@);
            let s1 = s.subrange(0, lo as int);
            let s2 = s.subrange(lo as int, s.len() as int);
            assert(s1 + s2 =~= s);
            assert forall|i: int| 0 <= i < s1.len() implies !pred(#[trigger] s1[i]) by {
                assert(bytes_lt(s[i].0, k@));
                lemma_cmp_antisym(s[i].0, k@);
            }
            assert forall|i: int| 0 <= i < s2.len() implies pred(#[trigger] s2[i]) by {
                assert(bytes_le(k@, s[i + lo].0));
            }
            lemma_filter_none(s1, pred);
            lemma_filter_all(s2, pred);
            Seq::filter_distributes_over_add(s1, s2, pred);
            assert(Seq::<PairView>::empty() + s2 =~= s2);
        }
        r
    }

    /// Copies of the pairs under key `k`, by ascending value.
    pub fn pairs_with_key(&self, k: &[u8]) -> (r: Vec<(Vec<u8>, Vec<u8>)>)
        requires
            self@.wf(),
        ensures
            entries_view(r@) == self@.entries.filter(key_is(k@)),
    {
        let ghost s = self@.entries;
        let (lo, hi) = self.key_range(k);
        proof {
            lemma_values_of_range(s, k@, lo as int, hi as int);
        }
        self.copy_range(lo, hi)
    }

    /// The position of the first pair whose key is not below `k`.
    fn lower_bound(&self, k: &[u8]) -> (r: usize)
        requires
            self@.wf(),
        ensures
            r <= self@.entries.len(),
            forall|j: int| 0 <= j < r ==> bytes_lt(#[trigger] self@.entries[j].0, k@),
            forall|j: int| r <= j < self@.entries.len() ==> bytes_le(k@, #[trigger] self@.entries[j].0),
    {
        let ghost s = self@.entries;
        let mut lo: usize = 0;
        let mut hi: usize = self.entries.len();
        while lo < hi
            invariant
                s == self@.entries,
                s.len() == self.entries@.len(),
                sorted_pairs(s),
                lo <= hi <= s.len(),
                forall|j: int| 0 <= j < lo ==> bytes_lt(#[trigger] s[j].0, k@),
                forall|j: int| hi <= j < s.len() ==> bytes_le(k@, #[trigger] s[j].0),
            decreases hi - lo,
        {
            let mid = lo + (hi - lo) / 2;
            let c = compare_bytes(self.entries[mid].0.as_slice(), k);
            assert(s[mid as int] == view_pair(self.entries@[mid as int]));
            proof {
                lemma_cmp_range(s[mid as int].0, k@);
            }
            if c < 0 {
                assert forall|j: int| 0 <= j < mid + 1 implies bytes_lt(#[trigger] s[j].0, k@) by {
                    if j < mid {
                        assert(pair_lt(s[j], s[mid as int]));
                        lemma_pair_lt_key_le(s[j], s[mid as int]);
                        lemma_le_lt_trans(s[j].0, s[mid as int].0, k@);
                    }
                }
                lo = mid + 1;
            } else {
                assert forall|j: int| mid <= j < s.len() implies bytes_le(k@, #[trigger] s[j].0) by {
                    lemma_cmp_range(s[mid as int].0, k@);
                    lemma_cmp_antisym(s[mid as int].0, k@);
                    if j > mid {
                        assert(pair_lt(s[mid as int], s[j]));
                        lemma_pair_lt_key_le(s[mid as int], s[j]);
                        lemma_cmp_range(k@, s[j].0);
                        lemma_cmp_eq(k@, s[mid as int].0);
                        lemma_cmp_eq(s[mid as int].0, s[j].0);
                        if k@ != s[mid as int].0 && s[mid as int].0 != s[j].0 {
                            lemma_lt_trans(k@, s[mid as int].0, s[j].0);
                        }
                    }
                }
                hi = mid;
            }
        }
        lo
    }

    /// The position of the first pair whose key is above `k`.
    fn upper_bound(&self, k: &[u8]) -> (r: usize)
        requires
            self@.wf(),
        ensures
            r <= self@.entries.len(),
            forall|j: int| 0 <= j < r ==> bytes_le(#[trigger] self@.entries[j].0, k@),
            forall|j: int| r <= j < self@.entries.len() ==> bytes_lt(k@, #[trigger] self@.entries[j].0),
    {
        let ghost s = self@.entries;
        let mut lo: usize = 0;
        let mut hi: usize = self.entries.len();
        while lo < hi
            invariant
                s == self@.entries,
                s.len() == self.entries@.len(),
                sorted_pairs(s),
                lo <= hi <= s.len(),
                forall|j: int| 0 <= j < lo ==> bytes_le(#[trigger] s[j].0, k@),
                forall|j: int| hi <= j < s.len() ==> bytes_lt(k@, #[trigger] s[j].0),
            decreases hi - lo,
        {
            let mid = lo + (hi - lo) / 2;
            let c = compare_bytes(k, self.entries[mid].0.as_slice());
            assert(s[mid as int] == view_pair(self.entries@[mid as int]));
            proof {
                lemma_cmp_range(k@, s[mid as int].0);
            }
            if c < 0 {
                assert forall|j: int| mid <= j < s.len() implies bytes_lt(k@, #[trigger] s[j].0) by {
                    if j > mid {
                        assert(pair_lt(s[mid as int], s[j]));
                        lemma_pair_lt_key_le(s[mid as int], s[j]);
                        lemma_lt_le_trans(k@, s[mid as int].0, s[j].0);
                    }
                }
                hi = mid;
            } else {
                assert forall|j: int| 0 <= j < mid + 1 implies bytes_le(#[trigger] s[j].0, k@) by {
                    lemma_cmp_range(k@, s[mid as int].0);
                    lemma_cmp_antisym(k@, s[mid as int].0);
                    if j < mid {
                        assert(pair_lt(s[j], s[mid as int]));
                        lemma_pair_lt_key_le(s[j], s[mid as int]);
                        lemma_cmp_range(s[j].0, k@);
                        lemma_cmp_eq(s[j].0, s[mid as int].0);
                        lemma_cmp_eq(s[mid as int].0, k@);
                        if s[j].0 != s[mid as int].0 && s[mid as int].0 != k@ {
                            lemma_lt_trans(s[j].0, s[mid as int].0, k@);
                        }
                    }
                }
                lo = mid + 1;
            }
        }
        lo
    }
}

} // verus!
