use vstd::prelude::*;
use crate::error::SyncError;
use itertools::Itertools;
use vstd::utf8::{encode_utf8, encode_utf8_decode_utf8};

verus! {

/// A point in time: whole seconds since the Unix epoch and the nanoseconds past that second.
#[derive(Debug, Clone, Copy, PartialEq, Eq, Structural)]
pub struct Timestamp {
    pub secs: i64,
    pub nanos: u32,
}

/// Metadata of one remote object, as one listing produced it.
#[derive(Debug, Clone)]
pub struct ObjectDetail {
    pub last_modified: Timestamp,
    pub key: String,
    pub size: u64,
    pub etag: String,
}

/// One object as the store listed it, before its metadata is read.
#[derive(Debug, Clone)]
pub struct ListedObject {
    pub key: String,
    pub size: u64,
    pub last_modified: String,
    pub e_tag: Option<String>,
}

/// What one listing call returned: the number of object groups the store reported, and the
/// objects of all groups, in the order listed.
#[derive(Debug, Clone)]
pub struct Listing {
    pub group_count: usize,
    pub objects: Vec<ListedObject>,
}

/// The instant (seconds, nanoseconds) that a date-time text denotes, if it reads as one.
pub uninterp spec fn parsed_instant(s: Seq<char>) -> Option<(i64, u32)>;

/// `a` comes strictly before `b` in time.
pub open spec fn earlier(a: Timestamp, b: Timestamp) -> bool {
    a.secs < b.secs || (a.secs == b.secs && a.nanos < b.nanos)
}

/// Lexicographic order on byte strings (a prefix comes first).
pub open spec fn bytes_le(a: Seq<u8>, b: Seq<u8>) -> bool
    decreases a.len(),
{
    if a.len() == 0 {
        true
    } else if b.len() == 0 {
        false
    } else if a[0] != b[0] {
        a[0] < b[0]
    } else {
        bytes_le(a.drop_first(), b.drop_first())
    }
}

/// The UTF-8 bytes of an object's key, the order in which keys compare.
pub open spec fn key_bytes(o: ObjectDetail) -> Seq<u8> {
    encode_utf8(o.key@)
}

/// Recency order: by modification time, and among equal times by key.
pub open spec fn recency_le(a: ObjectDetail, b: ObjectDetail) -> bool {
    earlier(a.last_modified, b.last_modified) || (a.last_modified == b.last_modified
        && bytes_le(key_bytes(a), key_bytes(b)))
}

/// `r` is an entry of `s` with content, and no entry of `s` with content is more recent.
pub open spec fn is_latest(s: Seq<ObjectDetail>, r: ObjectDetail) -> bool {
    &&& s.contains(r)
    &&& r.size > 0
    &&& forall|j: int| 0 <= j < s.len() && #[trigger] s[j].size > 0 ==> recency_le(s[j], r)
}

/// No two entries of `s` share a key.
pub open spec fn keys_unique(s: Seq<ObjectDetail>) -> bool {
    forall|i: int, j: int| 0 <= i < s.len() && 0 <= j < s.len() && i != j ==> #[trigger] s[i].key@
        != #[trigger] s[j].key@
}

pub proof fn lemma_bytes_le_refl(a: Seq<u8>)
    ensures
        bytes_le(a, a),
    decreases a.len(),
{
    if a.len() > 0 {
        lemma_bytes_le_refl(a.drop_first());
    }
}

pub proof fn lemma_bytes_le_total(a: Seq<u8>, b: Seq<u8>)
    ensures
        bytes_le(a, b) || bytes_le(b, a),
    decreases a.len(),
{
    if a.len() > 0 && b.len() > 0 && a[0] == b[0] {
        lemma_bytes_le_total(a.drop_first(), b.drop_first());
    }
}

pub proof fn lemma_bytes_le_trans(a: Seq<u8>, b: Seq<u8>, c: Seq<u8>)
    requires
        bytes_le(a, b),
        bytes_le(b, c),
    ensures
        bytes_le(a, c),
    decreases a.len(),
{
    if a.len() > 0 && b.len() > 0 && c.len() > 0 && a[0] == b[0] && b[0] == c[0] {
        lemma_bytes_le_trans(a.drop_first(), b.drop_first(), c.drop_first());
    }
}

pub proof fn lemma_bytes_le_antisym(a: Seq<u8>, b: Seq<u8>)
    requires
        bytes_le(a, b),
        bytes_le(b, a),
    ensures
        a == b,
    decreases a.len(),
{
    if a.len() > 0 {
        lemma_bytes_le_antisym(a.drop_first(), b.drop_first());
        assert(a =~= seq![a[0]] + a.drop_first());
        assert(b =~= seq![b[0]] + b.drop_first());
    }
}

pub proof fn lemma_recency_total(a: ObjectDetail, b: ObjectDetail)
    ensures
        recency_le(a, b) || recency_le(b, a),
{
    lemma_bytes_le_total(key_bytes(a), key_bytes(b));
}

pub proof fn lemma_recency_refl(a: ObjectDetail)
    ensures
        recency_le(a, a),
{
    lemma_bytes_le_refl(key_bytes(a));
}

pub proof fn lemma_recency_trans(a: ObjectDetail, b: ObjectDetail, c: ObjectDetail)
    requires
        recency_le(a, b),
        recency_le(b, c),
    ensures
        recency_le(a, c),
{
    if a.last_modified == b.last_modified && b.last_modified == c.last_modified {
        lemma_bytes_le_trans(key_bytes(a), key_bytes(b), key_bytes(c));
    }
}

/// Two objects that each rank at or below the other have one time and one key.
pub proof fn lemma_recency_antisym(a: ObjectDetail, b: ObjectDetail)
    requires
        recency_le(a, b),
        recency_le(b, a),
    ensures
        a.last_modified == b.last_modified,
        a.key@ == b.key@,
{
    lemma_bytes_le_antisym(key_bytes(a), key_bytes(b));
    encode_utf8_decode_utf8(a.key@);
    encode_utf8_decode_utf8(b.key@);
}

/// The choice of the latest summary does not depend on the order of the listing: two
/// listings that hold the same entries, no two with one key, have the same latest entry.
pub proof fn law_latest_is_order_independent(
    s: Seq<ObjectDetail>,
    t: Seq<ObjectDetail>,
    a: ObjectDetail,
    b: ObjectDetail,
)
    requires
        s.to_multiset() == t.to_multiset(),
        keys_unique(s),
        is_latest(s, a),
        is_latest(t, b),
    ensures
        a == b,
        a.size > 0,
{
    broadcast use vstd::seq_lib::group_to_multiset_ensures;

    assert(t.to_multiset().count(b) > 0);
    assert(s.contains(b));
    assert(s.to_multiset().count(a) > 0);
    assert(t.contains(a));
    let i = choose|i: int| 0 <= i < s.len() && s[i] == a;
    let k = choose|k: int| 0 <= k < s.len() && s[k] == b;
    let m = choose|m: int| 0 <= m < t.len() && t[m] == a;
    assert(s[k].size > 0);
    assert(t[m].size > 0);
    lemma_recency_antisym(a, b);
    if i != k {
        assert(s[i].key@ != s[k].key@);
    }
}

/// The summary that a listed object yields: `None` where its time does not read or its
/// fingerprint is missing.
pub open spec fn summary_of(o: ListedObject) -> Option<ObjectDetail> {
    match parsed_instant(o.last_modified@) {
        Some(t) => match o.e_tag {
            Some(tag) => Some(
                ObjectDetail {
                    last_modified: Timestamp { secs: t.0, nanos: t.1 },
                    key: o.key,
                    size: o.size,
                    etag: tag,
                },
            ),
            None => None,
        },
        None => None,
    }
}

/// The summaries of the listed objects of size above zero, in listing order; `None` where
/// one of them yields no summary.
pub open spec fn catalog_entries(objs: Seq<ListedObject>) -> Option<Seq<ObjectDetail>>
    decreases objs.len(),
{
    if objs.len() == 0 {
        Some(Seq::empty())
    } else {
        match catalog_entries(objs.drop_last()) {
            None => None,
            Some(prev) => if objs.last().size == 0 {
                Some(prev)
            } else {
                match summary_of(objs.last()) {
                    Some(d) => Some(prev.push(d)),
                    None => None,
                }
            },
        }
    }
}

/// Each entry ranks at or below every later one.
pub open spec fn sorted_by_recency(s: Seq<ObjectDetail>) -> bool {
    forall|i: int, j: int| 0 <= i < j < s.len() ==> recency_le(#[trigger] s[i], #[trigger] s[j])
}

/// The three-way comparison that the recency order gives.
pub open spec fn recency_cmp(a: ObjectDetail, b: ObjectDetail) -> core::cmp::Ordering {
    if recency_le(a, b) {
        if recency_le(b, a) {
            core::cmp::Ordering::Equal
        } else {
            core::cmp::Ordering::Less
        }
    } else {
        core::cmp::Ordering::Greater
    }
}

/// The outcome of listing: `EmptyBucket` where the store reported no group; a malformed
/// listing, with the key of the first object with content that yields no summary, where there
/// is one; else the summaries of the objects
/// with content, ordered ascending by recency.
pub open spec fn catalog_result(listing: Listing, r: Result<Vec<ObjectDetail>, SyncError>) -> bool {
    if listing.group_count == 0 {
        r == Err::<Vec<ObjectDetail>, SyncError>(SyncError::EmptyBucket)
    } else {
        match catalog_entries(listing.objects@) {
            None => exists|i: int|
                0 <= i < listing.objects@.len() && #[trigger] catalog_entries(
                    listing.objects@.subrange(0, i),
                ) is Some && listing.objects@[i].size > 0 && summary_of(listing.objects@[i]) is None
                    && r == Err::<Vec<ObjectDetail>, SyncError>(
                    SyncError::MalformedListing(listing.objects@[i].key),
                ),
            Some(e) => {
                &&& r is Ok
                &&& r->Ok_0@.to_multiset() == e.to_multiset()
                &&& sorted_by_recency(r->Ok_0@)
            },
        }
    }
}

proof fn lemma_catalog_entries_prefix(objs: Seq<ListedObject>, n: int)
    requires
        0 <= n <= objs.len(),
        catalog_entries(objs.subrange(0, n)) is None,
    ensures
        catalog_entries(objs) is None,
    decreases objs.len(),
{
    if n < objs.len() {
        assert(objs.drop_last().subrange(0, n) =~= objs.subrange(0, n));
        lemma_catalog_entries_prefix(objs.drop_last(), n);
    } else {
        assert(objs.subrange(0, n) =~= objs);
    }
}

/// Relies on chrono's `FromStr` for `DateTime<Utc>`, with `timestamp` and
/// `timestamp_subsec_nanos`: whether the text reads as a date-time and which instant it
/// denotes, which depends on the text alone.
#[verifier::external_body]
fn parse_instant(s: &str) -> (r: Option<Timestamp>)
    ensures
        match r {
            Some(t) => parsed_instant(s@) == Some((t.secs, t.nanos)),
            None => parsed_instant(s@) is None,
        },
{
    s.parse::<chrono::DateTime<chrono::Utc>>().ok().map(
        |d| Timestamp { secs: d.timestamp(), nanos: d.timestamp_subsec_nanos() },
    )
}

/// Relies on itertools' `Itertools::sorted_by`: the items, rearranged so that the comparator
/// never puts an item after one that it ranks below (a stable sort).
#[verifier::external_body]
fn sort_by_recency(items: Vec<ObjectDetail>) -> (r: Vec<ObjectDetail>)
    ensures
        r@.to_multiset() == items@.to_multiset(),
        forall|i: int, j: int|
            0 <= i < j < r@.len() ==> recency_cmp(#[trigger] r@[i], #[trigger] r@[j])
                != core::cmp::Ordering::Greater,
{
    items.into_iter().sorted_by(|a, b| compare_recency(a, b)).collect()
}

/// Compares two summaries in recency order.
pub fn compare_recency(a: &ObjectDetail, b: &ObjectDetail) -> (r: core::cmp::Ordering)
    ensures
        r == recency_cmp(*a, *b),
{
    if recency_at_most(a, b) {
        if recency_at_most(b, a) {
            core::cmp::Ordering::Equal
        } else {
            core::cmp::Ordering::Less
        }
    } else {
        core::cmp::Ordering::Greater
    }
}

/// The catalog of one listing: fails with `EmptyBucket` where the store reported no object
/// group at all; otherwise drops the objects of size zero and returns the summaries of the
/// others ordered ascending by modification time, equal times by key.
pub fn build_catalog(listing: &Listing) -> (r: Result<Vec<ObjectDetail>, SyncError>)
    ensures
        catalog_result(*listing, r),
{
    if listing.group_count == 0 {
        return Err(SyncError::EmptyBucket);
    }
    let ghost objs = listing.objects@;
    let mut acc: Vec<ObjectDetail> = Vec::new();
    let mut i: usize = 0;
    assert(objs.subrange(0, 0) =~= Seq::<ListedObject>::empty());
    while i < listing.objects.len()
        invariant
            i <= objs.len(),
            objs == listing.objects@,
            listing.group_count > 0,
            catalog_entries(objs.subrange(0, i as int)) == Some(acc@),
        decreases objs.len() - i,
    {
        let o = &listing.objects[i];
        proof {
            assert(objs.subrange(0, i + 1).drop_last() =~= objs.subrange(0, i as int));
            assert(objs.subrange(0, i + 1).last() == objs[i as int]);
        }
        if o.size > 0 {
            let parsed = parse_instant(o.last_modified.as_str());
            match (parsed, &o.e_tag) {
                (Some(t), Some(tag)) => {
                    let d = ObjectDetail {
                        last_modified: t,
                        key: o.key.clone(),
                        size: o.size,
                        etag: tag.clone(),
                    };
                    acc.push(d);
                },
                _ => {
                    proof {
                        assert(summary_of(objs[i as int]) is None);
                        lemma_catalog_entries_prefix(objs, i + 1);
                        assert(catalog_entries(objs.subrange(0, i as int)) is Some);
                    }
                    return Err(SyncError::MalformedListing(o.key.clone()));
                },
            }
        }
        i += 1;
    }
    assert(objs.subrange(0, objs.len() as int) =~= objs);
    let sorted = sort_by_recency(acc);
    proof {
        assert forall|a: int, b: int| 0 <= a < b < sorted@.len() implies recency_le(
            #[trigger] sorted@[a],
            #[trigger] sorted@[b],
        ) by {
            assert(recency_cmp(sorted@[a], sorted@[b]) != core::cmp::Ordering::Greater);
        }
    }
    Ok(sorted)
}

/// No two listed objects share a key.
pub open spec fn listed_keys_unique(s: Seq<ListedObject>) -> bool {
    forall|i: int, j: int| 0 <= i < s.len() && 0 <= j < s.len() && i != j ==> #[trigger] s[i].key@
        != #[trigger] s[j].key@
}

proof fn lemma_catalog_keys(objs: Seq<ListedObject>, e: Seq<ObjectDetail>)
    requires
        listed_keys_unique(objs),
        catalog_entries(objs) == Some(e),
    ensures
        keys_unique(e),
        forall|i: int|
            0 <= i < e.len() ==> exists|j: int| 0 <= j < objs.len() && #[trigger] e[i].key@ == objs[j].key@,
    decreases objs.len(),
{
    if objs.len() > 0 {
        let init = objs.drop_last();
        assert(listed_keys_unique(init)) by {
            assert forall|i: int, j: int|
                0 <= i < init.len() && 0 <= j < init.len() && i != j implies #[trigger] init[i].key@
                != #[trigger] init[j].key@ by {
                assert(init[i] == objs[i] && init[j] == objs[j]);
            }
        }
        let prev = catalog_entries(init)->0;
        lemma_catalog_keys(init, prev);
        if objs.last().size != 0 {
            let n = objs.len() - 1;
            assert forall|i: int| 0 <= i < prev.len() implies #[trigger] prev[i].key@ != objs[n].key@ by {
                let j = choose|j: int| 0 <= j < init.len() && prev[i].key@ == init[j].key@;
                assert(init[j] == objs[j]);
            }
            assert forall|i: int|
                0 <= i < e.len() implies exists|j: int| 0 <= j < objs.len() && #[trigger] e[i].key@ == objs[j].key@ by {
                if i < prev.len() {
                    let j = choose|j: int| 0 <= j < init.len() && prev[i].key@ == init[j].key@;
                    assert(init[j] == objs[j]);
                    assert(e[i] == prev[i]);
                } else {
                    assert(e[i].key@ == objs[n].key@);
                }
            }
            assert forall|i: int, j: int|
                0 <= i < e.len() && 0 <= j < e.len() && i != j implies #[trigger] e[i].key@
                != #[trigger] e[j].key@ by {
                if i < prev.len() && j < prev.len() {
                    assert(e[i] == prev[i] && e[j] == prev[j]);
                }
            }
        } else {
            assert forall|i: int|
                0 <= i < e.len() implies exists|j: int| 0 <= j < objs.len() && #[trigger] e[i].key@ == objs[j].key@ by {
                let j = choose|j: int| 0 <= j < init.len() && prev[i].key@ == init[j].key@;
                assert(init[j] == objs[j]);
            }
        }
    }
}

proof fn lemma_sorted_permutation_unique(x: Seq<ObjectDetail>, y: Seq<ObjectDetail>)
    requires
        x.to_multiset() == y.to_multiset(),
        sorted_by_recency(x),
        sorted_by_recency(y),
        keys_unique(x),
    ensures
        x == y,
    decreases x.len(),
{
    broadcast use vstd::seq_lib::group_to_multiset_ensures;

    vstd::seq_lib::to_multiset_len(x);
    vstd::seq_lib::to_multiset_len(y);
    if x.len() == 0 {
        assert(y.len() == 0);
        assert(x =~= y);
    } else {
        let n = x.len() - 1;
        assert(y.len() == x.len());
        assert(x.to_multiset().count(y[n]) > 0);
        assert(x.contains(y[n]));
        let k = choose|k: int| 0 <= k < x.len() && x[k] == y[n];
        assert(y.to_multiset().count(x[n]) > 0);
        assert(y.contains(x[n]));
        let m = choose|m: int| 0 <= m < y.len() && y[m] == x[n];
        if k < n {
            assert(recency_le(x[k], x[n]));
        } else {
            lemma_recency_refl(x[n]);
        }
        if m < n {
            assert(recency_le(y[m], y[n]));
        } else {
            lemma_recency_refl(y[n]);
        }
        lemma_recency_antisym(x[k], x[n]);
        assert(k == n);
        let xi = x.drop_last();
        let yi = y.drop_last();
        assert(x =~= xi.push(x[n]));
        assert(y =~= yi.push(y[n]));
        assert(xi.to_multiset() =~= yi.to_multiset()) by {
            let mx = xi.to_multiset();
            let my = yi.to_multiset();
            assert(xi.push(x[n]).to_multiset() == mx.insert(x[n]));
            assert(yi.push(y[n]).to_multiset() == my.insert(y[n]));
            assert forall|v: ObjectDetail| mx.count(v) == my.count(v) by {
                assert(mx.insert(x[n]).count(v) == my.insert(x[n]).count(v));
            }
        }
        assert(keys_unique(xi)) by {
            assert forall|i: int, j: int|
                0 <= i < xi.len() && 0 <= j < xi.len() && i != j implies #[trigger] xi[i].key@
                != #[trigger] xi[j].key@ by {
                assert(xi[i] == x[i] && xi[j] == x[j]);
            }
        }
        assert(sorted_by_recency(xi)) by {
            assert forall|i: int, j: int| 0 <= i < j < xi.len() implies recency_le(
                #[trigger] xi[i],
                #[trigger] xi[j],
            ) by {
                assert(xi[i] == x[i] && xi[j] == x[j]);
            }
        }
        assert(sorted_by_recency(yi)) by {
            assert forall|i: int, j: int| 0 <= i < j < yi.len() implies recency_le(
                #[trigger] yi[i],
                #[trigger] yi[j],
            ) by {
                assert(yi[i] == y[i] && yi[j] == y[j]);
            }
        }
        lemma_sorted_permutation_unique(xi, yi);
    }
}

/// Listing again with the remote state unchanged gives the same ordered catalog: two
/// outcomes that the contract of `build_catalog` allows for one listing, whose objects have
/// unique keys, are both failures, or are the same sequence of summaries.
pub proof fn law_catalog_is_deterministic(
    listing: Listing,
    r1: Result<Vec<ObjectDetail>, SyncError>,
    r2: Result<Vec<ObjectDetail>, SyncError>,
)
    requires
        listed_keys_unique(listing.objects@),
        catalog_result(listing, r1),
        catalog_result(listing, r2),
    ensures
        r1 is Ok <==> r2 is Ok,
        r1 is Ok ==> r1->Ok_0@ == r2->Ok_0@,
        listing.group_count == 0 ==> r1 == r2,
{
    if listing.group_count > 0 {
        if let Some(e) = catalog_entries(listing.objects@) {
            lemma_catalog_keys(listing.objects@, e);
            let x = r1->Ok_0@;
            let y = r2->Ok_0@;
            assert(keys_unique(x)) by {
                broadcast use vstd::seq_lib::group_to_multiset_ensures;

                assert(e.no_duplicates()) by {
                    assert forall|p: int, q: int|
                        0 <= p < e.len() && 0 <= q < e.len() && p != q implies e[p] != e[q] by {
                        assert(e[p].key@ != e[q].key@);
                    }
                }
                e.lemma_multiset_has_no_duplicates();
                x.lemma_multiset_has_no_duplicates_conv();
                assert forall|i: int, j: int|
                    0 <= i < x.len() && 0 <= j < x.len() && i != j implies #[trigger] x[i].key@
                    != #[trigger] x[j].key@ by {
                    assert(e.to_multiset().count(x[i]) > 0);
                    assert(e.contains(x[i]));
                    let a = choose|a: int| 0 <= a < e.len() && e[a] == x[i];
                    assert(e.to_multiset().count(x[j]) > 0);
                    assert(e.contains(x[j]));
                    let b = choose|b: int| 0 <= b < e.len() && e[b] == x[j];
                    assert(x[i] != x[j]);
                    assert(a != b);
                }
            }
            lemma_sorted_permutation_unique(x, y);
        }
    }
}

/// The first upload into an empty bucket is what listing then finds: a listing of one group
/// holding one object with content, whose time reads and which carries a fingerprint,
/// catalogs to that object's summary alone, and that summary is the latest.
pub proof fn law_single_upload_is_found(
    listing: Listing,
    r: Result<Vec<ObjectDetail>, SyncError>,
    latest: ObjectDetail,
)
    requires
        listing.group_count > 0,
        listing.objects@.len() == 1,
        listing.objects@[0].size > 0,
        summary_of(listing.objects@[0]) is Some,
        catalog_result(listing, r),
    ensures
        r is Ok,
        r->Ok_0@ == seq![summary_of(listing.objects@[0])->0],
        is_latest(r->Ok_0@, latest) ==> latest == summary_of(listing.objects@[0])->0,
{
    broadcast use vstd::seq_lib::group_to_multiset_ensures;

    let objs = listing.objects@;
    let d = summary_of(objs[0])->0;
    assert(objs.drop_last() =~= Seq::<ListedObject>::empty());
    assert(catalog_entries(objs.drop_last()) == Some(Seq::<ObjectDetail>::empty()));
    assert(catalog_entries(objs) == Some(Seq::<ObjectDetail>::empty().push(d)));
    let e = Seq::<ObjectDetail>::empty().push(d);
    assert(e =~= seq![d]);
    let v = r->Ok_0@;
    vstd::seq_lib::to_multiset_len(v);
    vstd::seq_lib::to_multiset_len(e);
    assert(v.len() == 1);
    assert(v.to_multiset().count(v[0]) > 0);
    assert(e.contains(v[0]));
    assert(v =~= seq![d]);
}

impl ObjectDetail {
    /// A copy of this summary, equal to it field for field.
    pub fn duplicate(&self) -> (r: Self)
        ensures
            r == *self,
    {
        ObjectDetail {
            last_modified: self.last_modified,
            key: self.key.clone(),
            size: self.size,
            etag: self.etag.clone(),
        }
    }
}

/// Whether `a` is at most `b` in lexicographic byte order.
pub fn bytes_at_most(a: &[u8], b: &[u8]) -> (r: bool)
    ensures
        r == bytes_le(a@, b@),
{
    let mut i: usize = 0;
    assert(a@.subrange(0, a@.len() as int) =~= a@);
    assert(b@.subrange(0, b@.len() as int) =~= b@);
    while i < a.len() && i < b.len()
        invariant
            i <= a@.len(),
            i <= b@.len(),
            a@.subrange(0, i as int) == b@.subrange(0, i as int),
            bytes_le(a@, b@) == bytes_le(
                a@.subrange(i as int, a@.len() as int),
                b@.subrange(i as int, b@.len() as int),
            ),
        decreases a@.len() - i,
    {
        if a[i] != b[i] {
            return a[i] < b[i];
        }
        proof {
            assert(a@.subrange(i as int, a@.len() as int).drop_first() =~= a@.subrange(
                i + 1,
                a@.len() as int,
            ));
            assert(b@.subrange(i as int, b@.len() as int).drop_first() =~= b@.subrange(
                i + 1,
                b@.len() as int,
            ));
            assert(a@.subrange(0, i + 1) =~= a@.subrange(0, i as int).push(a@[i as int]));
            assert(b@.subrange(0, i + 1) =~= b@.subrange(0, i as int).push(b@[i as int]));
        }
        i += 1;
    }
    i == a.len()
}

/// Whether `a` ranks at or below `b` in recency order.
pub fn recency_at_most(a: &ObjectDetail, b: &ObjectDetail) -> (r: bool)
    ensures
        r == recency_le(*a, *b),
{
    if a.last_modified.secs != b.last_modified.secs {
        a.last_modified.secs < b.last_modified.secs
    } else if a.last_modified.nanos != b.last_modified.nanos {
        a.last_modified.nanos < b.last_modified.nanos
    } else {
        bytes_at_most(a.key.as_str().as_bytes(), b.key.as_str().as_bytes())
    }
}

/// The most recent summary with content: the greatest in recency order among the entries
/// of size above zero (so among equal times, the greatest key). Nothing, and no error,
/// when there is no such entry.
pub fn find_latest(objects: &Vec<ObjectDetail>) -> (r: Option<ObjectDetail>)
    ensures
        r is None <==> forall|i: int| 0 <= i < objects@.len() ==> #[trigger] objects@[i].size == 0,
        r is Some ==> is_latest(objects@, r->0),
{
    let mut best: Option<usize> = None;
    let mut i: usize = 0;
    while i < objects.len()
        invariant
            i <= objects@.len(),
            best is None <==> forall|j: int| 0 <= j < i ==> #[trigger] objects@[j].size == 0,
            best is Some ==> {
                &&& best->0 < i
                &&& objects@[best->0 as int].size > 0
                &&& forall|j: int|
                    0 <= j < i && #[trigger] objects@[j].size > 0 ==> recency_le(
                        objects@[j],
                        objects@[best->0 as int],
                    )
            },
        decreases objects@.len() - i,
    {
        if objects[i].size > 0 {
            match best {
                None => {
                    proof {
                        lemma_recency_refl(objects@[i as int]);
                    }
                    best = Some(i);
                },
                Some(b) => {
                    if recency_at_most(&objects[b], &objects[i]) {
                        proof {
                            assert forall|j: int|
                                0 <= j <= i && #[trigger] objects@[j].size > 0 implies recency_le(
                                objects@[j],
                                objects@[i as int],
                            ) by {
                                if j < i {
                                    lemma_recency_trans(
                                        objects@[j],
                                        objects@[b as int],
                                        objects@[i as int],
                                    );
                                } else {
                                    lemma_recency_refl(objects@[i as int]);
                                }
                            }
                        }
                        best = Some(i);
                    } else {
                        proof {
                            lemma_recency_total(objects@[b as int], objects@[i as int]);
                        }
                    }
                },
            }
        }
        i += 1;
    }
    match best {
        None => None,
        Some(b) => {
            let r = objects[b].duplicate();
            assert(objects@[b as int] == r);
            Some(r)
        },
    }
}

} // verus!
