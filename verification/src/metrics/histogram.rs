//! Module implementing the sparse buckets of an Open Metrics native
//! histogram.
//!
//! A native histogram keeps its observations in sparse buckets: a list of
//! `(bucket index, count)` pairs ordered by strictly increasing index. The
//! functions here record an observation, halve the resolution of the buckets
//! and encode them as spans and deltas for the protobuf exposition.
use vstd::prelude::*;

verus! {

// ---------------------------------------------------------------------------
// The model of sparse buckets.
/// The bucket indices increase strictly from one bucket to the next.
pub open spec fn strictly_sorted(s: Seq<(i32, u64)>) -> bool {
    forall|i: int, j: int| 0 <= i < j < s.len() ==> s[i].0 < s[j].0
}

/// The buckets hold a bucket with index `k`.
pub open spec fn has_bucket(s: Seq<(i32, u64)>, k: i32) -> bool {
    exists|i: int| 0 <= i < s.len() && s[i].0 == k
}

/// The count of the bucket with index `k`, or 0 where there is none.
pub open spec fn count_at(s: Seq<(i32, u64)>, k: i32) -> int {
    if has_bucket(s, k) {
        s[choose|i: int| 0 <= i < s.len() && s[i].0 == k].1 as int
    } else {
        0
    }
}

/// The buckets as a map from bucket index to count.
pub open spec fn buckets_view(s: Seq<(i32, u64)>) -> Map<i32, int> {
    Map::new(|k: i32| has_bucket(s, k), |k: i32| count_at(s, k))
}

/// The sum of the counts of all buckets.
pub open spec fn total_count(s: Seq<(i32, u64)>) -> int
    decreases s.len(),
{
    if s.len() == 0 {
        0
    } else {
        total_count(s.drop_last()) + s.last().1
    }
}

/// In strictly sorted buckets, the bucket that holds index `s[i].0` is the
/// one at position `i`.
pub proof fn lemma_count_at_position(s: Seq<(i32, u64)>, i: int)
    requires
        strictly_sorted(s),
        0 <= i < s.len(),
    ensures
        has_bucket(s, s[i].0),
        count_at(s, s[i].0) == s[i].1,
{
    let j = choose|j: int| 0 <= j < s.len() && s[j].0 == s[i].0;
    assert(s[j].0 == s[i].0);
}

/// Replacing one bucket changes the total by the difference of the counts.
proof fn lemma_total_update(s: Seq<(i32, u64)>, i: int, v: (i32, u64))
    requires
        0 <= i < s.len(),
    ensures
        total_count(s.update(i, v)) == total_count(s) - s[i].1 + v.1,
    decreases s.len(),
{
    if i == s.len() - 1 {
        assert(s.update(i, v).drop_last() =~= s.drop_last());
    } else {
        lemma_total_update(s.drop_last(), i, v);
        assert(s.update(i, v).drop_last() =~= s.drop_last().update(i, v));
    }
}

/// Inserting one bucket adds its count to the total.
proof fn lemma_total_insert(s: Seq<(i32, u64)>, i: int, v: (i32, u64))
    requires
        0 <= i <= s.len(),
    ensures
        total_count(s.insert(i, v)) == total_count(s) + v.1,
    decreases s.len(),
{
    if i == s.len() {
        assert(s.insert(i, v).drop_last() =~= s);
    } else {
        lemma_total_insert(s.drop_last(), i, v);
        assert(s.insert(i, v).drop_last() =~= s.drop_last().insert(i, v));
    }
}

// ---------------------------------------------------------------------------
// Recording an observation.
/// Adds one observation to the bucket with the given index, creating the
/// bucket where there is none; the buckets stay ordered by index.
pub fn increment_bucket(buckets: &mut Vec<(i32, u64)>, index: i32)
    requires
        strictly_sorted(old(buckets)@),
        count_at(old(buckets)@, index) < u64::MAX,
    ensures
        strictly_sorted(final(buckets)@),
        buckets_view(final(buckets)@) == buckets_view(old(buckets)@).insert(
            index,
            count_at(old(buckets)@, index) + 1,
        ),
        total_count(final(buckets)@) == total_count(old(buckets)@) + 1,
        final(buckets)@.len() == old(buckets)@.len() + if has_bucket(old(buckets)@, index) {
            0int
        } else {
            1int
        },
{
    let ghost old_s = buckets@;
    let mut lo: usize = 0;
    let mut hi: usize = buckets.len();
    while lo < hi
        invariant
            0 <= lo <= hi <= buckets.len(),
            buckets@ == old_s,
            strictly_sorted(old_s),
            forall|i: int| 0 <= i < lo ==> old_s[i].0 < index,
            forall|i: int| hi <= i < old_s.len() ==> old_s[i].0 >= index,
        decreases hi - lo,
    {
        let mid = lo + (hi - lo) / 2;
        if buckets[mid].0 < index {
            lo = mid + 1;
        } else {
            hi = mid;
        }
    }
    if lo < buckets.len() && buckets[lo].0 == index {
        let (k, c) = buckets[lo];
        proof {
            lemma_count_at_position(old_s, lo as int);
        }
        buckets.set(lo, (k, c + 1));
        let ghost new_s = buckets@;
        proof {
            lemma_total_update(old_s, lo as int, (k, (c + 1) as u64));
            assert(has_bucket(old_s, index));
            assert(strictly_sorted(new_s));
            assert forall|key: i32| #[trigger]
                buckets_view(new_s).contains_key(key) == buckets_view(old_s).insert(
                    index,
                    count_at(old_s, index) + 1,
                ).contains_key(key) by {
                if has_bucket(new_s, key) {
                    let i = choose|i: int| 0 <= i < new_s.len() && new_s[i].0 == key;
                    assert(old_s[i].0 == key);
                }
                if has_bucket(old_s, key) {
                    let i = choose|i: int| 0 <= i < old_s.len() && old_s[i].0 == key;
                    assert(new_s[i].0 == key);
                }
            }
            assert forall|key: i32| #[trigger] buckets_view(new_s).contains_key(key) implies buckets_view(
                new_s,
            )[key] == buckets_view(old_s).insert(index, count_at(old_s, index) + 1)[key] by {
                let i = choose|i: int| 0 <= i < new_s.len() && new_s[i].0 == key;
                lemma_count_at_position(new_s, i);
                lemma_count_at_position(old_s, i);
            }
            assert(buckets_view(new_s) =~= buckets_view(old_s).insert(
                index,
                count_at(old_s, index) + 1,
            ));
        }
    } else {
        proof {
            if has_bucket(old_s, index) {
                let i = choose|i: int| 0 <= i < old_s.len() && old_s[i].0 == index;
                assert(false);
            }
        }
        buckets.insert(lo, (index, 1));
        let ghost new_s = buckets@;
        proof {
            lemma_total_insert(old_s, lo as int, (index, 1u64));
            assert forall|i: int, j: int| 0 <= i < j < new_s.len() implies new_s[i].0
                < new_s[j].0 by {
                if j < lo {
                } else if j == lo {
                } else if i < lo {
                } else if i == lo {
                    assert(new_s[j] == old_s[j - 1]);
                } else {
                    assert(new_s[j] == old_s[j - 1]);
                    assert(new_s[i] == old_s[i - 1]);
                }
            }
            assert(strictly_sorted(new_s));
            assert forall|key: i32| #[trigger]
                buckets_view(new_s).contains_key(key) == buckets_view(old_s).insert(
                    index,
                    count_at(old_s, index) + 1,
                ).contains_key(key) by {
                if has_bucket(new_s, key) && key != index {
                    let i = choose|i: int| 0 <= i < new_s.len() && new_s[i].0 == key;
                    if i < lo {
                        assert(old_s[i].0 == key);
                    } else {
                        assert(old_s[i - 1].0 == key);
                    }
                }
                if has_bucket(old_s, key) {
                    let i = choose|i: int| 0 <= i < old_s.len() && old_s[i].0 == key;
                    if i < lo {
                        assert(new_s[i].0 == key);
                    } else {
                        assert(new_s[i + 1].0 == key);
                    }
                }
                if key == index {
                    assert(new_s[lo as int].0 == key);
                }
            }
            assert forall|key: i32| #[trigger] buckets_view(new_s).contains_key(key) implies buckets_view(
                new_s,
            )[key] == buckets_view(old_s).insert(index, count_at(old_s, index) + 1)[key] by {
                let i = choose|i: int| 0 <= i < new_s.len() && new_s[i].0 == key;
                lemma_count_at_position(new_s, i);
                if i < lo {
                    lemma_count_at_position(old_s, i);
                } else if i > lo {
                    lemma_count_at_position(old_s, i - 1);
                }
            }
            assert(buckets_view(new_s) =~= buckets_view(old_s).insert(
                index,
                count_at(old_s, index) + 1,
            ));
        }
    }
}

// ---------------------------------------------------------------------------
// Halving the resolution.
/// The index of a bucket after the resolution is halved: bucket `k` and its
/// neighbour merge, `2j - 1` and `2j` into `j` (division rounds towards
/// zero after positive indices are moved up by one).
pub open spec fn ds_key(k: int) -> int {
    if k > 0 {
        (k + 1) / 2
    } else {
        -((-k) / 2)
    }
}

/// The sum of the counts of the buckets that merge into bucket `k` when the
/// resolution is halved.
pub open spec fn mapped_sum(s: Seq<(i32, u64)>, k: int) -> int
    decreases s.len(),
{
    if s.len() == 0 {
        0
    } else {
        mapped_sum(s.drop_last(), k) + if ds_key(s.last().0 as int) == k {
            s.last().1 as int
        } else {
            0
        }
    }
}

/// Halving the resolution keeps the order of bucket indices, and two steps
/// apart become one step apart.
pub proof fn lemma_ds_key_monotonic(a: int, b: int)
    ensures
        a <= b ==> ds_key(a) <= ds_key(b),
        ds_key(a + 2) == ds_key(a) + 1,
{
}

/// When the buckets at positions `i` and `i + 1` merge, the sum of their
/// counts fits in a `u64`.
pub open spec fn merge_fits(s: Seq<(i32, u64)>, i: int) -> bool {
    ds_key(s[i].0 as int) == ds_key(s[i + 1].0 as int) ==> s[i].1 + s[i + 1].1 <= u64::MAX
}

/// No bucket merges into `k`: nothing is summed.
proof fn lemma_mapped_sum_none(s: Seq<(i32, u64)>, k: int)
    requires
        forall|i: int| 0 <= i < s.len() ==> ds_key(s[i].0 as int) != k,
    ensures
        mapped_sum(s, k) == 0,
    decreases s.len(),
{
    if s.len() > 0 {
        lemma_mapped_sum_none(s.drop_last(), k);
    }
}

/// What downsampling asks of its input: ordered buckets, whose indices can
/// be moved up by one, and whose merged counts fit in a `u64`.
pub open spec fn downsample_input(b: Seq<(i32, u64)>) -> bool {
    &&& strictly_sorted(b)
    &&& forall|t: int| 0 <= t < b.len() ==> b[t].0 < i32::MAX
    &&& forall|t: int| 0 <= t < b.len() - 1 ==> #[trigger] merge_fits(b, t)
}

/// Each downsampled bucket of `d` holds the counts of the first `i` buckets
/// of `b` that merge into it.
#[verifier::opaque]
spec fn ds_counts(b: Seq<(i32, u64)>, i: int, d: Seq<(i32, u64)>) -> bool {
    forall|j: int| 0 <= j < d.len() ==> #[trigger] d[j].1 == mapped_sum(b.take(i), d[j].0 as int)
}

/// Each downsampled bucket of `d` comes from one of the first `i` buckets of
/// `b`.
#[verifier::opaque]
spec fn ds_from(b: Seq<(i32, u64)>, i: int, d: Seq<(i32, u64)>) -> bool {
    forall|j: int|
        #![trigger d[j]]
        0 <= j < d.len() ==> exists|t: int|
            #![trigger b[t]]
            0 <= t < i && ds_key(b[t].0 as int) == d[j].0
}

/// Each of the first `i` buckets of `b` lands in a downsampled bucket of `d`.
#[verifier::opaque]
spec fn ds_onto(b: Seq<(i32, u64)>, i: int, d: Seq<(i32, u64)>) -> bool {
    forall|t: int|
        #![trigger b[t]]
        0 <= t < i ==> exists|j: int|
            #![trigger d[j]]
            0 <= j < d.len() && d[j].0 == ds_key(b[t].0 as int)
}

/// `d` is the downsampling of the first `i` buckets of `b`.
spec fn downsampled_prefix(b: Seq<(i32, u64)>, i: int, d: Seq<(i32, u64)>) -> bool {
    &&& 0 <= i <= b.len()
    &&& strictly_sorted(d)
    &&& (i == 0 <==> d.len() == 0)
    &&& i > 0 ==> d.last().0 == ds_key(b[i - 1].0 as int)
    &&& i > 0 ==> d.last().1 == if i >= 2 && ds_key(b[i - 2].0 as int) == ds_key(
        b[i - 1].0 as int,
    ) {
        b[i - 2].1 + b[i - 1].1
    } else {
        b[i - 1].1 as int
    }
    &&& ds_counts(b, i, d)
    &&& ds_from(b, i, d)
    &&& ds_onto(b, i, d)
    &&& total_count(d) == total_count(b.take(i))
}

proof fn lemma_downsampled_start(b: Seq<(i32, u64)>)
    ensures
        downsampled_prefix(b, 0, Seq::empty()),
{
    reveal(ds_counts);
    reveal(ds_from);
    reveal(ds_onto);
    assert(b.take(0) =~= Seq::<(i32, u64)>::empty());
}

/// Facts about the next bucket: its merged index is not below the last one,
/// and where it merges with the last bucket, the sum fits.
proof fn lemma_downsampled_next(b: Seq<(i32, u64)>, i: int, d: Seq<(i32, u64)>)
    requires
        downsample_input(b),
        downsampled_prefix(b, i, d),
        0 <= i < b.len(),
    ensures
        d.len() > 0 ==> d.last().0 <= ds_key(b[i].0 as int),
        d.len() > 0 && d.last().0 == ds_key(b[i].0 as int) ==> d.last().1 + b[i].1 <= u64::MAX,
{
    if i > 0 {
        lemma_ds_key_monotonic(b[i - 1].0 as int, b[i].0 as int);
        if d.last().0 == ds_key(b[i].0 as int) {
            if i >= 2 && ds_key(b[i - 2].0 as int) == ds_key(b[i - 1].0 as int) {
                lemma_ds_key_monotonic(b[i - 2].0 as int, b[i].0 as int - 2);
                assert(false);
            }
            assert(merge_fits(b, i - 1));
        }
    }
}

/// Under `merge`, the last downsampled bucket takes the count of bucket `i`;
/// otherwise a new one is pushed. Either way the counts stay right.
proof fn lemma_ds_counts_step(
    b: Seq<(i32, u64)>,
    i: int,
    d0: Seq<(i32, u64)>,
    d1: Seq<(i32, u64)>,
    merge: bool,
)
    requires
        0 <= i < b.len(),
        strictly_sorted(d0),
        ds_counts(b, i, d0),
        ds_onto(b, i, d0),
        merge ==> d0.len() > 0 && d0.last().0 == ds_key(b[i].0 as int) && d1 == d0.update(
            d0.len() - 1,
            (d0.last().0, (d0.last().1 + b[i].1) as u64),
        ) && d0.last().1 + b[i].1 <= u64::MAX,
        !merge ==> (d0.len() > 0 ==> d0.last().0 < ds_key(b[i].0 as int)) && d1 == d0.push(
            (ds_key(b[i].0 as int) as i32, b[i].1),
        ),
    ensures
        ds_counts(b, i + 1, d1),
{
    reveal(ds_counts);
    let ti = b.take(i);
    let ti1 = b.take(i + 1);
    let key = ds_key(b[i].0 as int);
    assert(ti1.drop_last() =~= ti);
    assert(ti1.last() == b[i]);
    if merge {
        let n = d0.len() - 1;
        assert forall|j: int| 0 <= j < d1.len() implies #[trigger] d1[j].1 == mapped_sum(
            ti1,
            d1[j].0 as int,
        ) by {
            if j < n {
                assert(d0[j].0 < d0[n].0);
                assert(d1[j] == d0[j]);
            }
        }
    } else {
        let n = d0.len();
        assert forall|t: int| 0 <= t < ti.len() implies ds_key(ti[t].0 as int) != key by {
            reveal(ds_onto);
            assert(ti[t] == b[t]);
            let j = choose|j: int| #![trigger d0[j]] 0 <= j < d0.len() && d0[j].0 == ds_key(b[t].0 as int);
            assert(d0[j].0 <= d0.last().0);
        }
        lemma_mapped_sum_none(ti, key);
        assert forall|j: int| 0 <= j < d1.len() implies #[trigger] d1[j].1 == mapped_sum(
            ti1,
            d1[j].0 as int,
        ) by {
            if j < n {
                assert(d0[j].0 <= d0.last().0);
                assert(d1[j] == d0[j]);
            }
        }
    }
}

/// The downsampled buckets still come from the input, and the input still
/// lands in them.
proof fn lemma_ds_cover_step(
    b: Seq<(i32, u64)>,
    i: int,
    d0: Seq<(i32, u64)>,
    d1: Seq<(i32, u64)>,
)
    requires
        0 <= i < b.len(),
        ds_from(b, i, d0),
        ds_onto(b, i, d0),
        d0.len() <= d1.len() <= d0.len() + 1,
        d1.len() > 0,
        d1.last().0 == ds_key(b[i].0 as int),
        forall|j: int| 0 <= j < d0.len() && j < d1.len() - 1 ==> d1[j] == d0[j],
        d1.len() == d0.len() ==> d0.last().0 == d1.last().0,
    ensures
        ds_from(b, i + 1, d1),
        ds_onto(b, i + 1, d1),
{
    reveal(ds_from);
    reveal(ds_onto);
    let n = d1.len() - 1;
    assert forall|j: int| #![trigger d1[j]] 0 <= j < d1.len() implies exists|t: int|
        #![trigger b[t]]
        0 <= t < i + 1 && ds_key(b[t].0 as int) == d1[j].0 by {
        if j < n {
            assert(d1[j] == d0[j]);
            let t = choose|t: int| #![trigger b[t]] 0 <= t < i && ds_key(b[t].0 as int) == d0[j].0;
            assert(0 <= t < i + 1 && ds_key(b[t].0 as int) == d1[j].0);
        } else {
            assert(ds_key(b[i].0 as int) == d1[j].0);
        }
    }
    assert forall|t: int| #![trigger b[t]] 0 <= t < i + 1 implies exists|j: int|
        #![trigger d1[j]]
        0 <= j < d1.len() && d1[j].0 == ds_key(b[t].0 as int) by {
        if t < i {
            let j = choose|j: int| #![trigger d0[j]] 0 <= j < d0.len() && d0[j].0 == ds_key(b[t].0 as int);
            if j < n {
                assert(d1[j] == d0[j]);
                assert(d1[j].0 == ds_key(b[t].0 as int));
            } else {
                assert(d1[n].0 == ds_key(b[t].0 as int));
            }
        } else {
            assert(d1[n].0 == ds_key(b[t].0 as int));
        }
    }
}

/// The next bucket merges into the last downsampled bucket.
proof fn lemma_downsampled_merge(
    b: Seq<(i32, u64)>,
    i: int,
    d0: Seq<(i32, u64)>,
    d1: Seq<(i32, u64)>,
)
    requires
        downsample_input(b),
        downsampled_prefix(b, i, d0),
        0 <= i < b.len(),
        d0.len() > 0,
        d0.last().0 == ds_key(b[i].0 as int),
        d1 == d0.update(d0.len() - 1, (d0.last().0, (d0.last().1 + b[i].1) as u64)),
        d0.last().1 + b[i].1 <= u64::MAX,
    ensures
        downsampled_prefix(b, i + 1, d1),
{
    let ti = b.take(i);
    let ti1 = b.take(i + 1);
    assert(ti1.drop_last() =~= ti);
    assert(ti1.last() == b[i]);
    assert(d1.drop_last() =~= d0.drop_last());
    if i >= 2 && ds_key(b[i - 2].0 as int) == ds_key(b[i - 1].0 as int) {
        lemma_ds_key_monotonic(b[i - 2].0 as int, b[i].0 as int - 2);
        assert(false);
    }
    lemma_ds_counts_step(b, i, d0, d1, true);
    lemma_ds_cover_step(b, i, d0, d1);
}

/// The next bucket starts a new downsampled bucket.
proof fn lemma_downsampled_push(
    b: Seq<(i32, u64)>,
    i: int,
    d0: Seq<(i32, u64)>,
    d1: Seq<(i32, u64)>,
)
    requires
        downsample_input(b),
        downsampled_prefix(b, i, d0),
        0 <= i < b.len(),
        d0.len() > 0 ==> d0.last().0 < ds_key(b[i].0 as int),
        d1 == d0.push((ds_key(b[i].0 as int) as i32, b[i].1)),
    ensures
        downsampled_prefix(b, i + 1, d1),
{
    let ti = b.take(i);
    let ti1 = b.take(i + 1);
    assert(ti1.drop_last() =~= ti);
    assert(ti1.last() == b[i]);
    assert(d1.drop_last() =~= d0);
    if i > 0 {
        lemma_ds_key_monotonic(b[i - 1].0 as int, b[i].0 as int);
    }
    lemma_ds_counts_step(b, i, d0, d1, false);
    lemma_ds_cover_step(b, i, d0, d1);
}

/// The downsampling of all buckets meets the contract of
/// [`downsample_buckets`].
proof fn lemma_downsampled_end(b: Seq<(i32, u64)>, d: Seq<(i32, u64)>)
    requires
        downsampled_prefix(b, b.len() as int, d),
    ensures
        strictly_sorted(d),
        forall|j: int| 0 <= j < d.len() ==> d[j].1 == mapped_sum(b, d[j].0 as int),
        forall|j: int|
            #![trigger d[j]]
            0 <= j < d.len() ==> exists|i: int|
                #![trigger b[i]]
                0 <= i < b.len() && ds_key(b[i].0 as int) == d[j].0,
        forall|i: int|
            #![trigger b[i]]
            0 <= i < b.len() ==> exists|j: int|
                #![trigger d[j]]
                0 <= j < d.len() && d[j].0 == ds_key(b[i].0 as int),
        total_count(d) == total_count(b),
{
    reveal(ds_counts);
    reveal(ds_from);
    reveal(ds_onto);
    assert(b.take(b.len() as int) =~= b);
}

/// The buckets of `buckets` at half the resolution: bucket `2j - 1` and `2j`
/// merge into `j`, their counts added.
pub fn downsample_buckets(buckets: &Vec<(i32, u64)>) -> (r: Vec<(i32, u64)>)
    requires
        downsample_input(buckets@),
    ensures
        strictly_sorted(r@),
        forall|j: int| 0 <= j < r.len() ==> r@[j].1 == mapped_sum(buckets@, r@[j].0 as int),
        forall|j: int|
            #![trigger r@[j]]
            0 <= j < r.len() ==> exists|i: int|
                #![trigger buckets@[i]]
                0 <= i < buckets.len() && ds_key(buckets@[i].0 as int) == r@[j].0,
        forall|i: int|
            #![trigger buckets@[i]]
            0 <= i < buckets.len() ==> exists|j: int|
                #![trigger r@[j]]
                0 <= j < r.len() && r@[j].0 == ds_key(buckets@[i].0 as int),
        total_count(r@) == total_count(buckets@),
{
    let ghost b = buckets@;
    let mut downsampled: Vec<(i32, u64)> = Vec::new();
    proof {
        lemma_downsampled_start(b);
    }
    let mut i: usize = 0;
    while i < buckets.len()
        invariant
            i <= buckets.len(),
            b == buckets@,
            downsample_input(b),
            downsampled_prefix(b, i as int, downsampled@),
        decreases buckets.len() - i,
    {
        let (index, count) = buckets[i];
        let wide: i64 = index as i64;
        let key_wide: i64 = if wide > 0 {
            (wide + 1) / 2
        } else {
            -((-wide) / 2)
        };
        let key: i32 = key_wide as i32;
        let ghost d0 = downsampled@;
        proof {
            assert(key == ds_key(index as int));
            lemma_downsampled_next(b, i as int, d0);
        }
        let n = downsampled.len();
        if n > 0 && downsampled[n - 1].0 == key {
            let last_count = downsampled[n - 1].1;
            downsampled.set(n - 1, (key, last_count + count));
            proof {
                lemma_downsampled_merge(b, i as int, d0, downsampled@);
            }
        } else {
            downsampled.push((key, count));
            proof {
                lemma_downsampled_push(b, i as int, d0, downsampled@);
            }
        }
        i += 1;
    }
    proof {
        lemma_downsampled_end(b, downsampled@);
    }
    downsampled
}

// ---------------------------------------------------------------------------
// Spans and deltas.
/// The sparse buckets in the form of the protobuf exposition: spans of
/// consecutive bucket indices, each an offset from the end of the previous
/// span (from index 0 for the first) and a length, and the count of each
/// bucket of the spans as the difference to the count of the bucket before.
#[derive(Debug)]
pub struct NativeBucketEncoding {
    pub spans: Vec<(i32, u32)>,
    pub deltas: Vec<i64>,
}

/// `n` empty buckets from index `start` on; none of them starts a span.
pub open spec fn zero_run(start: int, n: int) -> Seq<(int, int, bool)> {
    Seq::new(n as nat, |j: int| (start + j, 0int, false))
}

/// Bucket `n` starts a span: it is the first bucket, or more than two empty
/// buckets lie between it and the bucket before.
pub open spec fn starts_span(s: Seq<(i32, u64)>, n: int) -> bool {
    n == 0 || s[n].0 - s[n - 1].0 - 1 > 2
}

/// The buckets as the spans cover them: gaps of one or two empty buckets
/// between neighbours are filled with empty buckets. Each entry is the index,
/// the count and whether the entry starts a span.
pub open spec fn filled(s: Seq<(i32, u64)>) -> Seq<(int, int, bool)>
    decreases s.len(),
{
    if s.len() == 0 {
        Seq::empty()
    } else {
        let n = s.len() - 1;
        let prev = filled(s.drop_last());
        if starts_span(s, n) {
            prev.push((s[n].0 as int, s[n].1 as int, true))
        } else {
            prev + zero_run(s[n - 1].0 + 1, s[n].0 - s[n - 1].0 - 1) + seq![
                (s[n].0 as int, s[n].1 as int, false),
            ]
        }
    }
}

/// The delta of each covered bucket: its count minus the count of the
/// bucket before (0 before the first).
pub open spec fn deltas_of(f: Seq<(int, int, bool)>) -> Seq<int> {
    Seq::new(
        f.len(),
        |j: int|
            f[j].1 - if j == 0 {
                0
            } else {
                f[j - 1].1
            },
    )
}

/// The spans of the covered buckets: a span starts at each entry that starts
/// one, with the offset from the end of the previous span, and takes in the
/// entries up to the next start.
pub open spec fn spans_of(f: Seq<(int, int, bool)>) -> Seq<(int, int)>
    decreases f.len(),
{
    if f.len() == 0 {
        Seq::empty()
    } else {
        let p = spans_of(f.drop_last());
        let j = f.len() - 1;
        if f[j].2 {
            p.push(
                (
                    f[j].0 - if j == 0 {
                        0
                    } else {
                        f[j - 1].0 + 1
                    },
                    1,
                ),
            )
        } else {
            p.update(p.len() - 1, (p.last().0, p.last().1 + 1))
        }
    }
}

/// The spans as integers.
pub open spec fn spans_view(v: Seq<(i32, u32)>) -> Seq<(int, int)> {
    v.map_values(|p: (i32, u32)| (p.0 as int, p.1 as int))
}

/// The deltas as integers.
pub open spec fn deltas_view(v: Seq<i64>) -> Seq<int> {
    v.map_values(|d: i64| d as int)
}

/// The offset between bucket `n - 1` and bucket `n` fits in an `i32`.
pub open spec fn gap_fits(s: Seq<(i32, u64)>, n: int) -> bool {
    s[n].0 - s[n - 1].0 - 1 <= i32::MAX
}

/// Each span of the covered buckets has a length that fits in a `u32`.
pub open spec fn spans_fit(f: Seq<(int, int, bool)>) -> bool {
    forall|m: int| 0 <= m < spans_of(f).len() ==> #[trigger] spans_of(f)[m].1 <= u32::MAX
}

/// What the encoding asks of its buckets: they are ordered, each index can
/// be moved up by one, the offsets between neighbours fit in an `i32`, and
/// the length of each span fits in a `u32`.
pub open spec fn encode_input(s: Seq<(i32, u64)>) -> bool {
    &&& strictly_sorted(s)
    &&& forall|n: int| 0 <= n < s.len() ==> s[n].0 < i32::MAX
    &&& forall|n: int| 1 <= n < s.len() ==> #[trigger] gap_fits(s, n)
    &&& spans_fit(filled(s))
}

proof fn lemma_filled_step(s: Seq<(i32, u64)>, n: int)
    requires
        0 <= n < s.len(),
    ensures
        filled(s.take(n + 1)) == if starts_span(s, n) {
            filled(s.take(n)).push((s[n].0 as int, s[n].1 as int, true))
        } else {
            filled(s.take(n)) + zero_run(s[n - 1].0 + 1, s[n].0 - s[n - 1].0 - 1) + seq![
                (s[n].0 as int, s[n].1 as int, false),
            ]
        },
        n > 0 ==> filled(s.take(n)).len() > 0 && filled(s.take(n)).last().0 == s[n - 1].0,
        n == 0 ==> filled(s.take(n)).len() == 0,
{
    let t = s.take(n + 1);
    assert(t.drop_last() =~= s.take(n));
    assert(t[n] == s[n]);
    if n > 0 {
        assert(t[n - 1] == s[n - 1]);
        let u = s.take(n);
        assert(u.drop_last() =~= s.take(n - 1));
        assert(u[n - 1] == s[n - 1]);
        if !starts_span(u, n - 1) {
            assert(u[n - 2] == s[n - 2]);
        }
    } else {
        assert(s.take(0) =~= Seq::<(i32, u64)>::empty());
    }
}

proof fn lemma_spans_deltas_push(f: Seq<(int, int, bool)>, e: (int, int, bool))
    ensures
        spans_of(f.push(e)) == if e.2 {
            spans_of(f).push(
                (
                    e.0 - if f.len() == 0 {
                        0
                    } else {
                        f.last().0 + 1
                    },
                    1,
                ),
            )
        } else {
            spans_of(f).update(spans_of(f).len() - 1, (spans_of(f).last().0, spans_of(f).last().1 + 1))
        },
        deltas_of(f.push(e)) == deltas_of(f).push(
            e.1 - if f.len() == 0 {
                0
            } else {
                f.last().1
            },
        ),
{
    let g = f.push(e);
    assert(g.drop_last() =~= f);
    assert(deltas_of(g) =~= deltas_of(f).push(
        e.1 - if f.len() == 0 {
            0
        } else {
            f.last().1
        },
    ));
}

/// Every span of the covered buckets has at least one and at most as many
/// entries as there are; a span exists once there is an entry.
proof fn lemma_spans_bounds(f: Seq<(int, int, bool)>)
    requires
        f.len() > 0 ==> f[0].2,
    ensures
        forall|m: int| 0 <= m < spans_of(f).len() ==> 1 <= #[trigger] spans_of(f)[m].1 <= f.len(),
        f.len() > 0 <==> spans_of(f).len() > 0,
    decreases f.len(),
{
    if f.len() > 0 {
        let g = f.drop_last();
        if g.len() > 0 {
            assert(g[0] == f[0]);
        }
        lemma_spans_bounds(g);
    }
}

/// Entries added after covered buckets keep their spans and make the last
/// of them no shorter.
proof fn lemma_spans_grow(f: Seq<(int, int, bool)>, r: Seq<(int, int, bool)>)
    requires
        f.len() > 0,
        f[0].2,
    ensures
        spans_of(f).len() <= spans_of(f + r).len(),
        spans_of(f).last().1 <= spans_of(f + r)[spans_of(f).len() - 1].1,
    decreases r.len(),
{
    lemma_spans_bounds(f);
    if r.len() == 0 {
        assert(f + r =~= f);
    } else {
        let h = f + r.drop_last();
        lemma_spans_grow(f, r.drop_last());
        assert(f + r =~= h.push(r.last()));
        assert(h[0] == f[0]);
        lemma_spans_bounds(h);
        lemma_spans_deltas_push(h, r.last());
    }
}

/// Covered buckets filled up to bucket `n` start the covered buckets of all.
proof fn lemma_filled_prefix(s: Seq<(i32, u64)>, n: int)
    requires
        0 <= n <= s.len(),
    ensures
        filled(s.take(n)).is_prefix_of(filled(s)),
    decreases s.len() - n,
{
    if n == s.len() {
        assert(s.take(n) =~= s);
        assert(filled(s).subrange(0, filled(s).len() as int) =~= filled(s));
    } else {
        lemma_filled_prefix(s, n + 1);
        lemma_filled_step(s, n);
        let a = filled(s.take(n));
        let b = filled(s.take(n + 1));
        assert(a =~= b.subrange(0, a.len() as int));
        crate::encoding::lemma_prefix_trans(a, b, filled(s));
    }
}

/// Where an entry that continues the last span leads to covered buckets
/// whose spans fit, the last span has room for the entry.
proof fn lemma_span_room(f: Seq<(int, int, bool)>, e: (int, int, bool), g: Seq<(int, int, bool)>)
    requires
        f.len() > 0,
        f[0].2,
        !e.2,
        f.push(e).is_prefix_of(g),
        spans_fit(g),
    ensures
        spans_of(f).last().1 < u32::MAX,
{
    let h = f.push(e);
    let r = g.skip(h.len() as int);
    assert(g =~= h + r);
    assert(h[0] == f[0]);
    lemma_spans_bounds(f);
    lemma_spans_deltas_push(f, e);
    lemma_spans_grow(h, r);
    assert(spans_of(g)[spans_of(h).len() - 1].1 <= u32::MAX);
}

/// Appends one entry that continues the current span.
fn append_delta(
    spans: &mut Vec<(i32, u32)>,
    deltas: &mut Vec<i64>,
    previous_count: &mut i64,
    count: i64,
    Ghost(f): Ghost<Seq<(int, int, bool)>>,
    Ghost(index): Ghost<int>,
)
    requires
        f.len() > 0,
        f[0].2,
        spans_of(f).last().1 < u32::MAX,
        spans_view(old(spans)@) == spans_of(f),
        deltas_view(old(deltas)@) == deltas_of(f),
        *old(previous_count) == f.last().1,
        0 <= f.last().1,
        0 <= count,
    ensures
        spans_view(final(spans)@) == spans_of(f.push((index, count as int, false))),
        deltas_view(final(deltas)@) == deltas_of(f.push((index, count as int, false))),
        *final(previous_count) == count,
{
    proof {
        lemma_spans_bounds(f);
        lemma_spans_deltas_push(f, (index, count as int, false));
        assert(spans_view(spans@).len() == spans@.len());
    }
    let last = spans.len() - 1;
    let (offset, len) = spans[last];
    proof {
        assert(spans_view(spans@)[last as int] == (offset as int, len as int));
    }
    let ghost s0 = spans@;
    let ghost d0 = deltas@;
    spans.set(last, (offset, len + 1));
    deltas.push(count - *previous_count);
    *previous_count = count;
    proof {
        assert(spans_view(spans@) =~= spans_view(s0).update(
            last as int,
            (offset as int, len + 1),
        ));
        assert(deltas_view(deltas@) =~= deltas_view(d0).push(count - f.last().1));
    }
}

/// Encodes sparse buckets as spans and deltas. Fails where a count does not
/// fit in the `i64` of a delta.
pub fn encode_spans_and_deltas(buckets: &Vec<(i32, u64)>) -> (r: Result<
    NativeBucketEncoding,
    std::fmt::Error,
>)
    requires
        encode_input(buckets@),
    ensures
        r is Err <==> exists|n: int| 0 <= n < buckets.len() && buckets@[n].1 > i64::MAX,
        r matches Ok(e) ==> spans_view(e.spans@) == spans_of(filled(buckets@)) && deltas_view(
            e.deltas@,
        ) == deltas_of(filled(buckets@)),
        r matches Ok(e) ==> decodes_to(spans_view(e.spans@), deltas_view(e.deltas@), buckets@),
{
    let ghost s = buckets@;
    let mut deltas: Vec<i64> = Vec::new();
    let mut previous_count: i64 = 0;
    let mut next_index: i32 = 0;
    let mut spans: Vec<(i32, u32)> = Vec::new();
    let mut n: usize = 0;
    proof {
        assert(s.take(0) =~= Seq::<(i32, u64)>::empty());
        assert(spans_view(spans@) =~= Seq::<(int, int)>::empty());
        assert(deltas_view(deltas@) =~= deltas_of(Seq::<(int, int, bool)>::empty()));
    }
    while n < buckets.len()
        invariant
            n <= buckets.len(),
            s == buckets@,
            encode_input(s),
            spans_view(spans@) == spans_of(filled(s.take(n as int))),
            deltas_view(deltas@) == deltas_of(filled(s.take(n as int))),
            n > 0 ==> previous_count == filled(s.take(n as int)).last().1 && next_index == s[n
                - 1].0 + 1,
            n == 0 ==> previous_count == 0 && next_index == 0,
            n > 0 ==> filled(s.take(n as int))[0].2,
            forall|t: int| 0 <= t < n ==> s[t].1 <= i64::MAX,
            forall|j: int|
                0 <= j < filled(s.take(n as int)).len() ==> 0 <= #[trigger] filled(
                    s.take(n as int),
                )[j].1,
        decreases buckets.len() - n,
    {
        let ghost f = filled(s.take(n as int));
        let (index, count_u) = buckets[n];
        if count_u > i64::MAX as u64 {
            return Err(crate::encoding::fmt_error());
        }
        let count = count_u as i64;
        proof {
            lemma_filled_step(s, n as int);
            if n > 0 {
                assert(gap_fits(s, n as int));
            }
        }
        let index_delta = index - next_index;
        if n == 0 || index_delta > 2 {
            let ghost s0 = spans@;
            let ghost d0 = deltas@;
            spans.push((index_delta, 1));
            deltas.push(count - previous_count);
            previous_count = count;
            proof {
                lemma_spans_deltas_push(f, (index as int, count as int, true));
                assert(spans_view(spans@) =~= spans_view(s0).push((index_delta as int, 1)));
                assert(deltas_view(deltas@) =~= deltas_view(d0).push(
                    count - if f.len() == 0 {
                        0
                    } else {
                        f.last().1
                    },
                ));
                let f1 = filled(s.take(n + 1));
                assert(f1 =~= f.push((index as int, count as int, true)));
                if f.len() > 0 {
                    assert(f1[0] == f[0]);
                }
                assert forall|j: int| 0 <= j < f1.len() implies 0 <= #[trigger] f1[j].1 by {
                    if j < f.len() {
                        assert(f1[j] == f[j]);
                    }
                }
            }
        } else {
            proof {
                lemma_filled_prefix(s, n + 1);
            }
            let mut z: i32 = 0;
            while z < index_delta
                invariant
                    0 <= z <= index_delta <= 2,
                    n > 0,
                    f.len() > 0,
                    f[0].2,
                    n < buckets.len(),
                    filled(s.take(n + 1)) == f + zero_run(next_index as int, index_delta as int)
                        + seq![(index as int, count as int, false)],
                    filled(s.take(n + 1)).is_prefix_of(filled(s)),
                    s == buckets@,
                    encode_input(s),
                    spans_view(spans@) == spans_of(f + zero_run(next_index as int, z as int)),
                    deltas_view(deltas@) == deltas_of(f + zero_run(next_index as int, z as int)),
                    previous_count == (f + zero_run(next_index as int, z as int)).last().1,
                    0 <= previous_count,
                decreases index_delta - z,
            {
                let ghost fz = f + zero_run(next_index as int, z as int);
                proof {
                    assert(fz[0] == f[0]);
                    assert(fz.len() == f.len() + z);
                    let e = (next_index + z, 0int, false);
                    let f1 = filled(s.take(n + 1));
                    let h = fz.push(e);
                    assert(h =~= f1.subrange(0, h.len() as int));
                    crate::encoding::lemma_prefix_trans(h, f1, filled(s));
                    lemma_span_room(fz, e, filled(s));
                }
                append_delta(
                    &mut spans,
                    &mut deltas,
                    &mut previous_count,
                    0,
                    Ghost(fz),
                    Ghost(next_index + z),
                );
                proof {
                    assert(f + zero_run(next_index as int, z + 1) =~= fz.push(
                        (next_index + z, 0int, false),
                    ));
                }
                z += 1;
            }
            let ghost fz = f + zero_run(next_index as int, index_delta as int);
            proof {
                assert(fz[0] == f[0]);
                assert(fz.len() == f.len() + index_delta);
                let e = (index as int, count as int, false);
                let f1 = filled(s.take(n + 1));
                assert(fz.push(e) =~= f1);
                lemma_span_room(fz, e, filled(s));
            }
            append_delta(
                &mut spans,
                &mut deltas,
                &mut previous_count,
                count,
                Ghost(fz),
                Ghost(index as int),
            );
            proof {
                let f1 = filled(s.take(n + 1));
                assert(f1 =~= fz.push((index as int, count as int, false)));
                assert(f1[0] == f[0]);
                assert forall|j: int| 0 <= j < f1.len() implies 0 <= #[trigger] f1[j].1 by {
                    if j < f.len() {
                        assert(f1[j] == f[j]);
                    }
                }
            }
        }
        next_index = index + 1;
        n += 1;
    }
    proof {
        assert(s.take(s.len() as int) =~= s);
        lemma_decodes(s);
    }
    Ok(NativeBucketEncoding { spans, deltas })
}

// ---------------------------------------------------------------------------
// Decoding spans and deltas.
/// The sum of the first `j` deltas.
pub open spec fn prefix_sum(d: Seq<int>, j: int) -> int
    decreases j,
{
    if j <= 0 {
        0
    } else {
        prefix_sum(d, j - 1) + d[j - 1]
    }
}

/// The bucket indices that spans cover: each span starts at its offset past
/// the end of the previous span (past index -1 for the first) and covers
/// as many consecutive indices as its length.
pub open spec fn span_indices(sp: Seq<(int, int)>) -> Seq<int>
    decreases sp.len(),
{
    if sp.len() == 0 {
        Seq::empty()
    } else {
        let prev = span_indices(sp.drop_last());
        let start = (if prev.len() == 0 {
            0
        } else {
            prev.last() + 1
        }) + sp.last().0;
        prev + Seq::new(sp.last().1 as nat, |j: int| start + j)
    }
}

/// Covered buckets are well formed: the first starts a span, and every
/// entry that does not start one directly follows the entry before.
pub open spec fn covered_well_formed(f: Seq<(int, int, bool)>) -> bool {
    &&& f.len() > 0 ==> f[0].2
    &&& forall|j: int| 0 < j < f.len() && !f[j].2 ==> #[trigger] f[j].0 == f[j - 1].0 + 1
}

/// An entry of the covered buckets is a bucket of `s`, or an empty bucket
/// strictly between two neighbouring buckets of `s`.
pub open spec fn entry_from(s: Seq<(i32, u64)>, e: (int, int, bool)) -> bool {
    ||| exists|n: int| 0 <= n < s.len() && e.0 == s[n].0 && e.1 == s[n].1
    ||| e.1 == 0 && exists|n: int| #![trigger s[n]] 1 <= n < s.len() && s[n - 1].0 < e.0 < s[n].0
}

proof fn lemma_filled_last(s: Seq<(i32, u64)>)
    ensures
        s.len() > 0 ==> filled(s).len() > 0 && filled(s).last().0 == s.last().0,
        s.len() == 0 ==> filled(s).len() == 0,
{
}

proof fn lemma_filled_well_formed(s: Seq<(i32, u64)>)
    requires
        strictly_sorted(s),
    ensures
        covered_well_formed(filled(s)),
    decreases s.len(),
{
    if s.len() > 0 {
        let g = s.drop_last();
        let n = s.len() - 1;
        lemma_filled_well_formed(g);
        lemma_filled_last(g);
        let p = filled(g);
        let f = filled(s);
        if n > 0 {
            assert(g[0] == s[0]);
            assert(g[n - 1] == s[n - 1]);
        }
        if starts_span(s, n) {
            assert(f == p.push((s[n].0 as int, s[n].1 as int, true)));
            if n > 0 {
                assert(f[0] == p[0]);
            }
            assert forall|j: int| 0 < j < f.len() && !f[j].2 implies #[trigger] f[j].0 == f[j
                - 1].0 + 1 by {
                assert(f[j] == p[j] && f[j - 1] == p[j - 1]);
            }
        } else {
            let gap = s[n].0 - s[n - 1].0 - 1;
            let z = zero_run(s[n - 1].0 + 1, gap);
            assert(f == p + z + seq![(s[n].0 as int, s[n].1 as int, false)]);
            assert(f[0] == p[0]);
            assert forall|j: int| 0 < j < f.len() && !f[j].2 implies #[trigger] f[j].0 == f[j
                - 1].0 + 1 by {
                if j < p.len() {
                    assert(f[j] == p[j] && f[j - 1] == p[j - 1]);
                } else if j == p.len() {
                    assert(f[j - 1] == p[j - 1]);
                } else if j < p.len() + gap {
                    assert(f[j] == z[j - p.len()] && f[j - 1] == z[j - 1 - p.len()]);
                } else if gap > 0 {
                    assert(f[j - 1] == z[gap - 1]);
                } else {
                    assert(f[j - 1] == p[j - 1]);
                }
            }
        }
    }
}

proof fn lemma_filled_from(s: Seq<(i32, u64)>)
    requires
        strictly_sorted(s),
    ensures
        forall|j: int| 0 <= j < filled(s).len() ==> entry_from(s, #[trigger] filled(s)[j]),
    decreases s.len(),
{
    if s.len() > 0 {
        let g = s.drop_last();
        let n = s.len() - 1;
        lemma_filled_from(g);
        let p = filled(g);
        let f = filled(s);
        assert forall|t: int| 0 <= t < p.len() implies entry_from(s, #[trigger] p[t]) by {
            assert(entry_from(g, p[t]));
            if exists|m: int| 0 <= m < g.len() && p[t].0 == g[m].0 && p[t].1 == g[m].1 {
                let m = choose|m: int| 0 <= m < g.len() && p[t].0 == g[m].0 && p[t].1 == g[m].1;
                assert(s[m] == g[m]);
            } else {
                let m = choose|m: int| #![trigger g[m]] 1 <= m < g.len() && g[m - 1].0 < p[t].0 < g[m].0;
                assert(s[m] == g[m] && s[m - 1] == g[m - 1]);
            }
        }
        if starts_span(s, n) {
            assert(f == p.push((s[n].0 as int, s[n].1 as int, true)));
            assert forall|j: int| 0 <= j < f.len() implies entry_from(s, #[trigger] f[j]) by {
                if j < p.len() {
                    assert(f[j] == p[j]);
                }
            }
        } else {
            let gap = s[n].0 - s[n - 1].0 - 1;
            let z = zero_run(s[n - 1].0 + 1, gap);
            assert(f == p + z + seq![(s[n].0 as int, s[n].1 as int, false)]);
            assert forall|j: int| 0 <= j < f.len() implies entry_from(s, #[trigger] f[j]) by {
                if j < p.len() {
                    assert(f[j] == p[j]);
                } else if j < p.len() + gap {
                    assert(f[j] == z[j - p.len()]);
                    assert(1 <= n < s.len() && s[n - 1].0 < f[j].0 < s[n].0);
                } else {
                    assert(f[j].0 == s[n].0 && f[j].1 == s[n].1);
                }
            }
        }
    }
}

proof fn lemma_filled_onto(s: Seq<(i32, u64)>)
    ensures
        forall|n: int|
            #![trigger s[n]]
            0 <= n < s.len() ==> exists|j: int|
                0 <= j < filled(s).len() && #[trigger] filled(s)[j].0 == s[n].0 && filled(s)[j].1
                    == s[n].1,
    decreases s.len(),
{
    if s.len() > 0 {
        let g = s.drop_last();
        let n = s.len() - 1;
        lemma_filled_onto(g);
        let p = filled(g);
        let f = filled(s);
        if starts_span(s, n) {
            assert(f == p.push((s[n].0 as int, s[n].1 as int, true)));
        } else {
            let gap = s[n].0 - s[n - 1].0 - 1;
            let z = zero_run(s[n - 1].0 + 1, gap);
            assert(f == p + z + seq![(s[n].0 as int, s[n].1 as int, false)]);
        }
        assert(f.len() >= p.len() + 1);
        assert forall|j: int| 0 <= j < p.len() implies f[j] == p[j] by {}
        assert(f[f.len() - 1].0 == s[n].0 && f[f.len() - 1].1 == s[n].1);
        assert forall|m: int| #![trigger s[m]] 0 <= m < s.len() implies exists|j: int|
            0 <= j < f.len() && #[trigger] f[j].0 == s[m].0 && f[j].1 == s[m].1 by {
            if m < n {
                assert(s[m] == g[m]);
                let j = choose|j: int| 0 <= j < p.len() && #[trigger] p[j].0 == g[m].0 && p[j].1 == g[m].1;
                assert(f[j] == p[j]);
            } else {
                assert(f[f.len() - 1].0 == s[m].0);
            }
        }
    }
}

proof fn lemma_span_indices_grow(sp: Seq<(int, int)>)
    requires
        sp.len() > 0,
        sp.last().1 >= 1,
    ensures
        span_indices(sp.update(sp.len() - 1, (sp.last().0, sp.last().1 + 1))) == span_indices(
            sp,
        ).push(span_indices(sp).last() + 1),
        span_indices(sp).len() > 0,
{
    let sp2 = sp.update(sp.len() - 1, (sp.last().0, sp.last().1 + 1));
    assert(sp2.drop_last() =~= sp.drop_last());
    let prev = span_indices(sp.drop_last());
    let start = (if prev.len() == 0 {
        0
    } else {
        prev.last() + 1
    }) + sp.last().0;
    assert(Seq::new((sp.last().1 + 1) as nat, |j: int| start + j) =~= Seq::new(
        sp.last().1 as nat,
        |j: int| start + j,
    ).push(start + sp.last().1));
    assert(span_indices(sp2) =~= span_indices(sp).push(span_indices(sp).last() + 1));
}

proof fn lemma_spans_decode(f: Seq<(int, int, bool)>)
    requires
        covered_well_formed(f),
    ensures
        span_indices(spans_of(f)) == f.map_values(|e: (int, int, bool)| e.0),
    decreases f.len(),
{
    if f.len() > 0 {
        let g = f.drop_last();
        let j = f.len() - 1;
        if g.len() > 0 {
            assert(g[0] == f[0]);
        }
        assert forall|k: int| 0 < k < g.len() && !g[k].2 implies #[trigger] g[k].0 == g[k
            - 1].0 + 1 by {
            assert(g[k] == f[k] && g[k - 1] == f[k - 1]);
        }
        lemma_spans_decode(g);
        lemma_spans_bounds(g);
        lemma_spans_bounds(f);
        let gi = g.map_values(|e: (int, int, bool)| e.0);
        if f[j].2 {
            let sp = spans_of(f);
            assert(sp.drop_last() =~= spans_of(g));
            assert(span_indices(sp) =~= f.map_values(|e: (int, int, bool)| e.0));
        } else {
            assert(j > 0);
            lemma_span_indices_grow(spans_of(g));
            assert(f.map_values(|e: (int, int, bool)| e.0) =~= gi.push(f[j].0));
        }
    }
}

proof fn lemma_deltas_decode(f: Seq<(int, int, bool)>, j: int)
    requires
        0 <= j < f.len(),
    ensures
        prefix_sum(deltas_of(f), j + 1) == f[j].1,
    decreases j,
{
    let d = deltas_of(f);
    assert(prefix_sum(d, j + 1) == prefix_sum(d, j) + d[j]);
    if j > 0 {
        lemma_deltas_decode(f, j - 1);
    } else {
        assert(prefix_sum(d, 0) == 0);
    }
}

/// Decoding the encoding of ordered buckets gives them back: the spans cover
/// the indices of the covered buckets, the running sums of the deltas are
/// their counts, and the covered buckets are the buckets of `s` with empty
/// buckets between them.
pub proof fn lemma_encoding_round_trip(s: Seq<(i32, u64)>)
    requires
        strictly_sorted(s),
    ensures
        span_indices(spans_of(filled(s))) == filled(s).map_values(|e: (int, int, bool)| e.0),
        forall|j: int|
            0 <= j < filled(s).len() ==> prefix_sum(deltas_of(filled(s)), j + 1) == #[trigger] filled(
                s,
            )[j].1,
        forall|j: int|
            0 <= j < filled(s).len() ==> (#[trigger] filled(s)[j]).0 == (filled(s)[j].0 as i32)
                && filled(s)[j].1 == count_at(s, filled(s)[j].0 as i32),
        forall|n: int|
            #![trigger s[n]]
            0 <= n < s.len() ==> exists|j: int|
                0 <= j < filled(s).len() && #[trigger] filled(s)[j].0 == s[n].0 && filled(s)[j].1
                    == s[n].1,
{
    let f = filled(s);
    lemma_filled_well_formed(s);
    lemma_filled_from(s);
    lemma_filled_onto(s);
    lemma_spans_decode(f);
    assert forall|j: int| 0 <= j < f.len() implies prefix_sum(deltas_of(f), j + 1)
        == #[trigger] f[j].1 by {
        lemma_deltas_decode(f, j);
    }
    assert forall|j: int| 0 <= j < f.len() implies (#[trigger] f[j]).0 == (f[j].0 as i32) && f[j].1
        == count_at(s, f[j].0 as i32) by {
        lemma_entry_count(s, f[j]);
    }
}

/// Spans and deltas decode to the buckets `s`: there are as many covered
/// indices as deltas, the running sum of the deltas at each covered index is
/// the count that `s` holds for it (0 for an index without a bucket), and
/// the index of every bucket is covered.
pub open spec fn decodes_to(spans: Seq<(int, int)>, deltas: Seq<int>, s: Seq<(i32, u64)>) -> bool {
    &&& span_indices(spans).len() == deltas.len()
    &&& forall|j: int|
        0 <= j < deltas.len() ==> #[trigger] prefix_sum(deltas, j + 1) == count_at(
            s,
            span_indices(spans)[j] as i32,
        ) && span_indices(spans)[j] == span_indices(spans)[j] as i32
    &&& forall|n: int|
        #![trigger s[n]]
        0 <= n < s.len() ==> exists|j: int|
            0 <= j < deltas.len() && #[trigger] span_indices(spans)[j] == s[n].0
}

/// The spans and deltas of ordered buckets decode to the buckets.
pub proof fn lemma_decodes(s: Seq<(i32, u64)>)
    requires
        strictly_sorted(s),
    ensures
        decodes_to(spans_of(filled(s)), deltas_of(filled(s)), s),
{
    let f = filled(s);
    lemma_encoding_round_trip(s);
    let idx = span_indices(spans_of(f));
    let d = deltas_of(f);
    assert(idx.len() == f.len());
    assert forall|j: int| 0 <= j < d.len() implies #[trigger] prefix_sum(d, j + 1) == count_at(
        s,
        idx[j] as i32,
    ) && idx[j] == idx[j] as i32 by {
        assert(idx[j] == f[j].0);
        assert(f[j].0 == (f[j].0 as i32) && f[j].1 == count_at(s, f[j].0 as i32));
    }
    assert forall|n: int| #![trigger s[n]] 0 <= n < s.len() implies exists|j: int|
        0 <= j < d.len() && #[trigger] idx[j] == s[n].0 by {
        let j = choose|j: int| 0 <= j < f.len() && #[trigger] f[j].0 == s[n].0 && f[j].1 == s[n].1;
        assert(idx[j] == f[j].0);
    }
}

/// An entry of the covered buckets has the count that `s` holds for its
/// index.
proof fn lemma_entry_count(s: Seq<(i32, u64)>, e: (int, int, bool))
    requires
        strictly_sorted(s),
        entry_from(s, e),
    ensures
        e.0 == (e.0 as i32),
        e.1 == count_at(s, e.0 as i32),
{
    if exists|n: int| 0 <= n < s.len() && e.0 == s[n].0 && e.1 == s[n].1 {
        let n = choose|n: int| 0 <= n < s.len() && e.0 == s[n].0 && e.1 == s[n].1;
        lemma_count_at_position(s, n);
    } else {
        let n = choose|n: int| #![trigger s[n]] 1 <= n < s.len() && s[n - 1].0 < e.0 < s[n].0;
        let k = e.0 as i32;
        if has_bucket(s, k) {
            let i = choose|i: int| 0 <= i < s.len() && s[i].0 == k;
            if i < n {
                if i < n - 1 {
                    assert(s[i].0 < s[n - 1].0);
                }
            } else {
                if i > n {
                    assert(s[n].0 < s[i].0);
                }
            }
        }
    }
}

} // verus!
