//! Directory entries and the order in which a listing shows them:
//! directories before files, then by name.
use vstd::prelude::*;
use vstd::string::StringSliceAdditionalSpecFns;
use vstd::utf8::encode_utf8;
use crate::time::LocalTime;

verus! {

/// One immediate child of a listed directory.
pub struct DirectoryEntry {
    pub name: String,
    pub is_dir: bool,
    pub size: u64,
    pub modified: LocalTime,
}

impl DirectoryEntry {
    pub open spec fn wf(&self) -> bool {
        self.modified.wf()
    }
}

/// The UTF-8 bytes of an entry's name.
pub open spec fn name_bytes(e: DirectoryEntry) -> Seq<u8> {
    encode_utf8(e.name@)
}

/// Byte-wise comparison of `a` and `b` from index `i` on, shorter first on a
/// common prefix.
pub open spec fn lt_from(a: Seq<u8>, b: Seq<u8>, i: nat) -> bool
    decreases a.len() - i,
{
    if i >= a.len() {
        i < b.len()
    } else if i >= b.len() {
        false
    } else if a[i as int] != b[i as int] {
        a[i as int] < b[i as int]
    } else {
        lt_from(a, b, i + 1)
    }
}

/// Strict lexicographic order of byte strings (for UTF-8 text, the order of
/// code points).
pub open spec fn bytes_lt(a: Seq<u8>, b: Seq<u8>) -> bool {
    lt_from(a, b, 0)
}

/// `a` is listed before `b`: a directory before a file, else by name.
pub open spec fn entry_before(a: DirectoryEntry, b: DirectoryEntry) -> bool {
    (a.is_dir && !b.is_dir) || (a.is_dir == b.is_dir && bytes_lt(name_bytes(a), name_bytes(b)))
}

/// No entry is listed before one that precedes it.
pub open spec fn in_listing_order(s: Seq<DirectoryEntry>) -> bool {
    forall|i: int, j: int| 0 <= i < j < s.len() ==> !entry_before(#[trigger] s[j], #[trigger] s[i])
}

/// `e` placed before the first entry that it is listed before.
pub open spec fn insert_sorted(s: Seq<DirectoryEntry>, e: DirectoryEntry) -> Seq<DirectoryEntry>
    decreases s.len(),
{
    if s.len() == 0 {
        seq![e]
    } else if entry_before(e, s[0]) {
        seq![e] + s
    } else {
        seq![s[0]] + insert_sorted(s.subrange(1, s.len() as int), e)
    }
}

/// The first `i` entries, each inserted in turn.
pub open spec fn sort_prefix(s: Seq<DirectoryEntry>, i: nat) -> Seq<DirectoryEntry>
    decreases i,
{
    if i == 0 || i > s.len() {
        Seq::empty()
    } else {
        insert_sorted(sort_prefix(s, (i - 1) as nat), s[i - 1])
    }
}

/// The entries in listing order.
pub open spec fn sort_entries(s: Seq<DirectoryEntry>) -> Seq<DirectoryEntry> {
    sort_prefix(s, s.len())
}

proof fn lemma_lt_irreflexive(a: Seq<u8>, i: nat)
    ensures
        !lt_from(a, a, i),
    decreases a.len() - i,
{
    if i < a.len() {
        lemma_lt_irreflexive(a, i + 1);
    }
}

proof fn lemma_lt_transitive(a: Seq<u8>, b: Seq<u8>, c: Seq<u8>, i: nat)
    requires
        lt_from(a, b, i),
        lt_from(b, c, i),
    ensures
        lt_from(a, c, i),
    decreases a.len() - i,
{
    if i < a.len() && i < b.len() && i < c.len() && a[i as int] == b[i as int] && b[i as int]
        == c[i as int] {
        lemma_lt_transitive(a, b, c, i + 1);
    }
}

proof fn lemma_before_transitive(a: DirectoryEntry, b: DirectoryEntry, c: DirectoryEntry)
    requires
        entry_before(a, b),
        entry_before(b, c),
    ensures
        entry_before(a, c),
{
    if a.is_dir == b.is_dir && b.is_dir == c.is_dir {
        lemma_lt_transitive(name_bytes(a), name_bytes(b), name_bytes(c), 0);
    }
}

proof fn lemma_before_irreflexive(a: DirectoryEntry)
    ensures
        !entry_before(a, a),
{
    lemma_lt_irreflexive(name_bytes(a), 0);
}

/// Where `insert_sorted` places `e`: before the first entry that `e` is
/// listed before.
proof fn lemma_insert_index(s: Seq<DirectoryEntry>, e: DirectoryEntry) -> (k: int)
    ensures
        0 <= k <= s.len(),
        insert_sorted(s, e) == s.insert(k, e),
        forall|j: int| 0 <= j < k ==> !entry_before(e, #[trigger] s[j]),
        k < s.len() ==> entry_before(e, s[k]),
    decreases s.len(),
{
    if s.len() == 0 {
        assert(s.insert(0, e) =~= seq![e]);
        0
    } else if entry_before(e, s[0]) {
        assert(s.insert(0, e) =~= seq![e] + s);
        0
    } else {
        let t = s.subrange(1, s.len() as int);
        let k0 = lemma_insert_index(t, e);
        assert(s.insert(k0 + 1, e) =~= seq![s[0]] + t.insert(k0, e));
        assert forall|j: int| 0 <= j < k0 + 1 implies !entry_before(e, #[trigger] s[j]) by {
            if j > 0 {
                assert(s[j] == t[j - 1]);
            }
        }
        k0 + 1
    }
}

proof fn lemma_insert_keeps_order(s: Seq<DirectoryEntry>, e: DirectoryEntry)
    requires
        in_listing_order(s),
    ensures
        in_listing_order(insert_sorted(s, e)),
        insert_sorted(s, e).to_multiset() == s.to_multiset().insert(e),
{
    let k = lemma_insert_index(s, e);
    let r = insert_sorted(s, e);
    vstd::seq_lib::to_multiset_insert(s, k, e);
    assert forall|i: int, j: int| 0 <= i < j < r.len() implies !entry_before(
        #[trigger] r[j],
        #[trigger] r[i],
    ) by {
        if j < k {
            assert(r[i] == s[i] && r[j] == s[j]);
        } else if j == k {
            assert(r[i] == s[i] && r[j] == e);
        } else if i == k {
            assert(r[i] == e && r[j] == s[j - 1]);
            if entry_before(s[j - 1], e) {
                lemma_before_transitive(s[j - 1], e, s[k]);
                if j - 1 == k {
                    lemma_before_irreflexive(s[k]);
                }
            }
        } else if i < k {
            assert(r[i] == s[i] && r[j] == s[j - 1]);
        } else {
            assert(r[i] == s[i - 1] && r[j] == s[j - 1]);
        }
    }
}

/// Sorting keeps the entries and puts them in listing order: every
/// directory before every file, and within each kind no name after a
/// greater one.
pub proof fn lemma_sort_entries(s: Seq<DirectoryEntry>)
    ensures
        in_listing_order(sort_entries(s)),
        sort_entries(s).to_multiset() == s.to_multiset(),
        forall|i: int, j: int|
            0 <= i < j < sort_entries(s).len() ==> {
                let a = #[trigger] sort_entries(s)[i];
                let b = #[trigger] sort_entries(s)[j];
                &&& (b.is_dir ==> a.is_dir)
                &&& (a.is_dir == b.is_dir ==> !bytes_lt(name_bytes(b), name_bytes(a)))
            },
{
    lemma_sort_prefix(s, s.len());
    assert(s.subrange(0, s.len() as int) =~= s);
    let r = sort_entries(s);
    assert forall|i: int, j: int| 0 <= i < j < r.len() implies {
        let a = #[trigger] r[i];
        let b = #[trigger] r[j];
        &&& (b.is_dir ==> a.is_dir)
        &&& (a.is_dir == b.is_dir ==> !bytes_lt(name_bytes(b), name_bytes(a)))
    } by {
        assert(!entry_before(r[j], r[i]));
    }
}

proof fn lemma_sort_prefix(s: Seq<DirectoryEntry>, i: nat)
    requires
        i <= s.len(),
    ensures
        in_listing_order(sort_prefix(s, i)),
        sort_prefix(s, i).to_multiset() == s.subrange(0, i as int).to_multiset(),
    decreases i,
{
    if i == 0 {
        assert(s.subrange(0, 0) =~= Seq::<DirectoryEntry>::empty());
        assert(sort_prefix(s, 0) =~= Seq::<DirectoryEntry>::empty());
    } else {
        lemma_sort_prefix(s, (i - 1) as nat);
        lemma_insert_keeps_order(sort_prefix(s, (i - 1) as nat), s[i - 1]);
        assert(s.subrange(0, i as int) =~= s.subrange(0, i - 1).push(s[i - 1]));
        s.subrange(0, i - 1).to_multiset_ensures();
    }
}

proof fn lemma_lt_total(a: Seq<u8>, b: Seq<u8>, i: nat)
    requires
        a != b,
        i <= a.len(),
        i <= b.len(),
        forall|k: int| 0 <= k < i ==> a[k] == b[k],
    ensures
        lt_from(a, b, i) || lt_from(b, a, i),
    decreases a.len() - i,
{
    if i == a.len() && i == b.len() {
        assert(a =~= b);
    } else if i < a.len() && i < b.len() && a[i as int] == b[i as int] {
        lemma_lt_total(a, b, i + 1);
    }
}

/// Two entries with different names are listed one before the other.
proof fn lemma_before_total(x: DirectoryEntry, y: DirectoryEntry)
    requires
        name_bytes(x) != name_bytes(y),
    ensures
        entry_before(x, y) || entry_before(y, x),
{
    lemma_lt_total(name_bytes(x), name_bytes(y), 0);
}

/// Entries in listing order, any two of which are ordered one way, are
/// determined by what they hold.
proof fn lemma_listing_order_unique(s: Seq<DirectoryEntry>, t: Seq<DirectoryEntry>)
    requires
        in_listing_order(s),
        in_listing_order(t),
        s.to_multiset() == t.to_multiset(),
        forall|i: int, j: int|
            0 <= i < s.len() && 0 <= j < s.len() && i != j ==> entry_before(#[trigger] s[i], #[trigger] s[j])
                || entry_before(s[j], s[i]),
    ensures
        s == t,
    decreases s.len(),
{
    s.to_multiset_ensures();
    t.to_multiset_ensures();
    if s.len() == 0 {
        assert(t.len() == 0);
        assert(s =~= t);
    } else {
        assert(t.len() == s.len());
        vstd::seq_lib::to_multiset_contains(t, s[0]);
        vstd::seq_lib::to_multiset_contains(s, s[0]);
        vstd::seq_lib::to_multiset_contains(s, t[0]);
        vstd::seq_lib::to_multiset_contains(t, t[0]);
        assert(s.contains(s[0]));
        assert(t.contains(t[0]));
        let j = choose|j: int| 0 <= j < t.len() && t[j] == s[0];
        let k = choose|k: int| 0 <= k < s.len() && s[k] == t[0];
        if k != 0 {
            assert(!entry_before(s[k], s[0]));
            assert(entry_before(s[0], s[k]));
            if j == 0 {
                lemma_before_irreflexive(s[0]);
            } else {
                assert(!entry_before(t[j], t[0]));
            }
        }
        assert(s[0] == t[0]);
        let s1 = s.subrange(1, s.len() as int);
        let t1 = t.subrange(1, t.len() as int);
        assert(s.remove(0) =~= s1);
        assert(t.remove(0) =~= t1);
        assert(s1.to_multiset() == t1.to_multiset());
        assert forall|i: int, j: int| 0 <= i < j < s1.len() implies !entry_before(
            #[trigger] s1[j],
            #[trigger] s1[i],
        ) by {
            assert(s1[i] == s[i + 1] && s1[j] == s[j + 1]);
        }
        assert forall|i: int, j: int| 0 <= i < j < t1.len() implies !entry_before(
            #[trigger] t1[j],
            #[trigger] t1[i],
        ) by {
            assert(t1[i] == t[i + 1] && t1[j] == t[j + 1]);
        }
        assert forall|i: int, j: int|
            0 <= i < s1.len() && 0 <= j < s1.len() && i != j implies entry_before(
            #[trigger] s1[i],
            #[trigger] s1[j],
        ) || entry_before(s1[j], s1[i]) by {
            assert(s1[i] == s[i + 1] && s1[j] == s[j + 1]);
        }
        lemma_listing_order_unique(s1, t1);
        assert forall|k: int| 0 <= k < s.len() implies s[k] == t[k] by {
            if k > 0 {
                assert(s[k] == s1[k - 1] && t[k] == t1[k - 1]);
            }
        }
        assert(s =~= t);
    }
}

/// No two of the entries share a name.
pub open spec fn names_unique(s: Seq<DirectoryEntry>) -> bool {
    forall|i: int, j: int|
        0 <= i < s.len() && 0 <= j < s.len() && i != j ==> name_bytes(#[trigger] s[i])
            != name_bytes(#[trigger] s[j])
}

/// Sorted entries with unique names are pairwise ordered one way or the
/// other.
proof fn lemma_sorted_comparable(a: Seq<DirectoryEntry>)
    requires
        names_unique(a),
    ensures
        forall|i: int, j: int|
            0 <= i < sort_entries(a).len() && 0 <= j < sort_entries(a).len() && i != j
                ==> entry_before(#[trigger] sort_entries(a)[i], #[trigger] sort_entries(a)[j])
                || entry_before(sort_entries(a)[j], sort_entries(a)[i]),
{
    let s = sort_entries(a);
    lemma_sort_entries(a);
    assert(a.no_duplicates()) by {
        assert forall|i: int, j: int| 0 <= i < a.len() && 0 <= j < a.len() && i != j implies a[i]
            != a[j] by {
            assert(name_bytes(a[i]) != name_bytes(a[j]));
        }
    }
    a.lemma_multiset_has_no_duplicates();
    s.lemma_multiset_has_no_duplicates_conv();
    assert forall|i: int, j: int|
        0 <= i < s.len() && 0 <= j < s.len() && i != j implies entry_before(
        #[trigger] s[i],
        #[trigger] s[j],
    ) || entry_before(s[j], s[i]) by {
        vstd::seq_lib::to_multiset_contains(s, s[i]);
        vstd::seq_lib::to_multiset_contains(s, s[j]);
        vstd::seq_lib::to_multiset_contains(a, s[i]);
        vstd::seq_lib::to_multiset_contains(a, s[j]);
        assert(s.contains(s[i]));
        assert(s.contains(s[j]));
        let p = choose|p: int| 0 <= p < a.len() && a[p] == s[i];
        let q = choose|q: int| 0 <= q < a.len() && a[q] == s[j];
        assert(s[i] != s[j]);
        assert(p != q);
        lemma_before_total(s[i], s[j]);
    }
}

/// With unique names the listing order is strict: every directory comes
/// before every file, and within each kind names strictly ascend.
pub proof fn lemma_sort_strict(a: Seq<DirectoryEntry>)
    requires
        names_unique(a),
    ensures
        forall|i: int, j: int|
            0 <= i < j < sort_entries(a).len() ==> entry_before(
                #[trigger] sort_entries(a)[i],
                #[trigger] sort_entries(a)[j],
            ),
{
    lemma_sort_entries(a);
    lemma_sorted_comparable(a);
}

/// The listing order does not depend on the order in which a directory's
/// entries were read: entries with unique names, read in any order, sort
/// to the same sequence.
pub proof fn lemma_sort_order_independent(a: Seq<DirectoryEntry>, b: Seq<DirectoryEntry>)
    requires
        a.to_multiset() == b.to_multiset(),
        names_unique(a),
    ensures
        sort_entries(a) == sort_entries(b),
{
    lemma_sort_entries(a);
    lemma_sort_entries(b);
    lemma_sorted_comparable(a);
    lemma_listing_order_unique(sort_entries(a), sort_entries(b));
}

/// Whether `a` is listed before `b`.
pub fn listed_before(a: &DirectoryEntry, b: &DirectoryEntry) -> (r: bool)
    ensures
        r == entry_before(*a, *b),
{
    if a.is_dir != b.is_dir {
        return a.is_dir;
    }
    let x = a.name.as_str().as_bytes();
    let y = b.name.as_str().as_bytes();
    let mut i: usize = 0;
    while i < x.len() && i < y.len() && x[i] == y[i]
        invariant
            i <= x@.len(),
            i <= y@.len(),
            x@ == name_bytes(*a),
            y@ == name_bytes(*b),
            lt_from(x@, y@, i as nat) == lt_from(x@, y@, 0),
        decreases x@.len() - i,
    {
        i = i + 1;
    }
    if i >= x.len() {
        i < y.len()
    } else if i >= y.len() {
        false
    } else {
        x[i] < y[i]
    }
}

/// Inserts `e` into entries already in listing order, where it belongs.
fn insert_entry(out: &mut Vec<DirectoryEntry>, e: DirectoryEntry)
    ensures
        final(out)@ == insert_sorted(old(out)@, e),
{
    let mut k: usize = 0;
    while k < out.len() && !listed_before(&e, &out[k])
        invariant
            k <= out@.len(),
            forall|j: int| 0 <= j < k ==> !entry_before(e, #[trigger] out@[j]),
        decreases out@.len() - k,
    {
        k = k + 1;
    }
    proof {
        let k2 = lemma_insert_index(out@, e);
        if k2 < k {
            assert(!entry_before(e, out@[k2]));
        }
        if k < k2 {
            assert(!entry_before(e, out@[k as int]));
        }
    }
    out.insert(k, e);
}

/// The entries in listing order: directories before files, each kind in
/// ascending order of name bytes.
pub fn sort_directory_entries(entries: Vec<DirectoryEntry>) -> (r: Vec<DirectoryEntry>)
    ensures
        r@ == sort_entries(entries@),
{
    let ghost orig = entries@;
    let mut rest = entries;
    let mut out: Vec<DirectoryEntry> = Vec::new();
    let n = rest.len();
    let mut i: usize = 0;
    while i < n
        invariant
            i <= n == orig.len(),
            rest@ == orig.subrange(i as int, n as int),
            out@ == sort_prefix(orig, i as nat),
        decreases n - i,
    {
        let e = rest.remove(0);
        assert(e == orig[i as int]);
        insert_entry(&mut out, e);
        i = i + 1;
        assert(rest@ =~= orig.subrange(i as int, n as int));
    }
    out
}

} // verus!
