//! The summarizer: heart-rate statistics and per-kilometer split counts
//! computed from a time-ordered sequence of trackpoint samples.

use vstd::prelude::*;
use vstd::utf8::encode_utf8;

use crate::tcx;

verus! {

/// One recorded trackpoint: heart rate and cumulative distance.
///
/// The cumulative distance is a decimal number of meters; it is kept as its
/// whole-meter part together with a flag recording whether the fractional
/// part is non-zero. The only question ever asked of a distance is whether it
/// lies exactly on a positive whole-kilometer boundary, and that question is
/// answered exactly by these two fields.
#[derive(Clone, Copy, PartialEq, Eq, Structural, Debug)]
pub struct Sample {
    /// Heart rate in beats per minute.
    pub heart_rate: u32,
    /// Whole-meter part of the cumulative distance.
    pub distance_whole_m: u64,
    /// True when the fractional part of the cumulative distance is non-zero.
    pub distance_has_fraction: bool,
}

/// The sample's cumulative distance is a positive exact multiple of 1000 m.
pub open spec fn is_km_boundary(s: Sample) -> bool {
    &&& !s.distance_has_fraction
    &&& s.distance_whole_m > 0
    &&& s.distance_whole_m % 1000 == 0
}

/// Decides whether a sample sits exactly on a kilometer boundary.
pub fn km_boundary(s: &Sample) -> (b: bool)
    ensures
        b == is_km_boundary(*s),
{
    !s.distance_has_fraction && s.distance_whole_m > 0 && s.distance_whole_m % 1000 == 0
}

/// Sum of the heart rates of a sequence.
pub open spec fn sum_hr(s: Seq<u32>) -> int
    decreases s.len(),
{
    if s.len() == 0 {
        0
    } else {
        sum_hr(s.drop_last()) + s.last()
    }
}

/// Maximum heart rate of a sequence (0 for the empty sequence).
pub open spec fn max_hr(s: Seq<u32>) -> int
    decreases s.len(),
{
    if s.len() == 0 {
        0
    } else if s.last() as int >= max_hr(s.drop_last()) {
        s.last() as int
    } else {
        max_hr(s.drop_last())
    }
}

/// The bucket a heart rate falls in: below 115, from 115 up to (but not
/// including) 150, or 150 and above. Checked in this order, every rate lands
/// in exactly one bucket.
pub open spec fn bucket_label(hr: u32) -> Seq<char> {
    if hr < 115 {
        "<115"@
    } else if hr < 150 {
        "-150"@
    } else {
        ">150"@
    }
}

/// Adds one observation of `label` to an ordered bucket list: the count of
/// the matching entry grows by one, or a new entry with count one is appended.
pub open spec fn bump(acc: Seq<(Seq<char>, int)>, label: Seq<char>) -> Seq<(Seq<char>, int)>
    decreases acc.len(),
{
    if acc.len() == 0 {
        seq![(label, 1int)]
    } else if acc.first().0 == label {
        seq![(acc.first().0, acc.first().1 + 1)] + acc.drop_first()
    } else {
        seq![acc.first()] + bump(acc.drop_first(), label)
    }
}

/// The bucket list of a heart-rate sequence: entries appear in the order the
/// buckets are first seen, each carrying how many rates fell in it.
pub open spec fn buckets_of(hrs: Seq<u32>) -> Seq<(Seq<char>, int)>
    decreases hrs.len(),
{
    if hrs.len() == 0 {
        Seq::empty()
    } else {
        bump(buckets_of(hrs.drop_last()), bucket_label(hrs.last()))
    }
}

/// Mathematical view of an executable bucket list.
pub open spec fn details_view(v: Seq<(String, u32)>) -> Seq<(Seq<char>, int)> {
    v.map_values(|p: (String, u32)| (p.0@, p.1 as int))
}

/// Heart-rate statistics of one activity: truncated average, maximum, and
/// the bucket counts in first-seen order.
pub struct HeartRateSummary {
    pub average: u32,
    pub max: u32,
    pub details: Vec<(String, u32)>,
}

/// Splits and heart-rate statistics of one run.
pub struct RunningActivitySummary {
    pub split_time_summary: Vec<u32>,
    pub heart_rate_summary: HeartRateSummary,
}

/// The sample sequence was empty, so average and maximum are undefined.
#[derive(Clone, Copy, PartialEq, Eq, Structural, Debug)]
pub enum SummarizeError {
    EmptyInput,
}

/// The trackpoint document could not be decoded.
#[derive(Clone, Copy, PartialEq, Eq, Structural, Debug)]
pub enum ParseError {
    Malformed,
}

fn bucket_label_str(hr: u32) -> (r: &'static str)
    ensures
        r@ == bucket_label(hr),
{
    if hr < 115 {
        "<115"
    } else if hr < 150 {
        "-150"
    } else {
        ">150"
    }
}

/// The three bucket labels are pairwise distinct, and a heart rate is mapped
/// to a label exactly according to its range: the assignment is total and
/// exclusive.
pub proof fn lemma_bucket_assignment(hr: u32)
    ensures
        "<115"@ != "-150"@ && "<115"@ != ">150"@ && "-150"@ != ">150"@,
        hr < 115 <==> bucket_label(hr) == "<115"@,
        115 <= hr < 150 <==> bucket_label(hr) == "-150"@,
        150 <= hr <==> bucket_label(hr) == ">150"@,
{
    reveal_strlit("<115");
    reveal_strlit("-150");
    reveal_strlit(">150");
    assert("<115"@[0] == '<' && "-150"@[0] == '-' && ">150"@[0] == '>');
}

/// `idx` tracks where `label` sits in the bucket list `d`: it points at the
/// unique entry carrying `label`, or is `None` when no entry does.
pub open spec fn index_tracks(d: Seq<(String, u32)>, idx: Option<usize>, label: Seq<char>) -> bool {
    match idx {
        Option::Some(k) => k < d.len() && d[k as int].0@ == label && (forall|j: int|
            0 <= j < d.len() && j != k ==> d[j].0@ != label),
        Option::None => forall|j: int| 0 <= j < d.len() ==> d[j].0@ != label,
    }
}

/// When `label` already sits at position `k`, bumping only raises that count.
proof fn lemma_bump_present(acc: Seq<(Seq<char>, int)>, label: Seq<char>, k: int)
    requires
        0 <= k < acc.len(),
        acc[k].0 == label,
        forall|j: int| 0 <= j < k ==> acc[j].0 != label,
    ensures
        bump(acc, label) == acc.update(k, (label, acc[k].1 + 1)),
    decreases acc.len(),
{
    if k == 0 {
        assert(bump(acc, label) =~= acc.update(0, (label, acc[0].1 + 1)));
    } else {
        lemma_bump_present(acc.drop_first(), label, k - 1);
        assert(seq![acc.first()] + acc.drop_first().update(
            k - 1,
            (label, acc.drop_first()[k - 1].1 + 1),
        ) =~= acc.update(k, (label, acc[k].1 + 1)));
    }
}

/// When no entry carries `label`, bumping appends a fresh entry of count one.
proof fn lemma_bump_absent(acc: Seq<(Seq<char>, int)>, label: Seq<char>)
    requires
        forall|j: int| 0 <= j < acc.len() ==> acc[j].0 != label,
    ensures
        bump(acc, label) == acc.push((label, 1int)),
    decreases acc.len(),
{
    if acc.len() == 0 {
        assert(bump(acc, label) =~= acc.push((label, 1int)));
    } else {
        lemma_bump_absent(acc.drop_first(), label);
        assert(seq![acc.first()] + acc.drop_first().push((label, 1int)) =~= acc.push(
            (label, 1int),
        ));
    }
}

/// Adds one observation of `label` to the executable bucket list, keeping
/// `idx` as the tracked position of `label`.
fn bump_details(details: &mut Vec<(String, u32)>, idx: Option<usize>, label: &'static str) -> (r:
    Option<usize>)
    requires
        index_tracks(old(details)@, idx, label@),
        forall|j: int| 0 <= j < old(details)@.len() ==> (#[trigger] old(details)@[j].1) < u32::MAX,
    ensures
        details_view(final(details)@) == bump(details_view(old(details)@), label@),
        index_tracks(final(details)@, r, label@),
        r is Some,
        match idx {
            Option::Some(k) => final(details)@.len() == old(details)@.len() && r == idx && (forall|
                j: int,
            |
                0 <= j < old(details)@.len() && j != k ==> final(details)@[j] == old(details)@[j])
                && final(details)@[k as int].0@ == label@ && final(details)@[k as int].1 == old(
                details,
            )@[k as int].1 + 1,
            Option::None => final(details)@ == old(details)@.push(
                (final(details)@[old(details)@.len() as int].0, 1u32),
            ) && final(details)@[old(details)@.len() as int].0@ == label@,
        },
{
    match idx {
        Some(k) => {
            let count = details[k].1;
            details.set(k, (label.to_owned(), count + 1));
            proof {
                lemma_bump_present(details_view(old(details)@), label@, k as int);
                assert(details_view(details@) =~= details_view(old(details)@).update(
                    k as int,
                    (label@, old(details)@[k as int].1 + 1),
                ));
            }
            Some(k)
        },
        None => {
            let pos = details.len();
            details.push((label.to_owned(), 1));
            proof {
                lemma_bump_absent(details_view(old(details)@), label@);
                assert(details_view(details@) =~= details_view(old(details)@).push(
                    (label@, 1int),
                ));
            }
            Some(pos)
        },
    }
}

/// Computes average (integer truncation of sum over count), maximum, and the
/// bucket counts in first-seen order, of a non-empty heart-rate sequence.
pub fn create_heart_rate_summary(heart_rates: &Vec<u32>) -> (r: HeartRateSummary)
    requires
        1 <= heart_rates@.len() <= u32::MAX,
    ensures
        r.average as int == sum_hr(heart_rates@) / heart_rates@.len() as int,
        r.max as int == max_hr(heart_rates@),
        details_view(r.details@) == buckets_of(heart_rates@),
{
    let n = heart_rates.len();
    let mut sum: u64 = 0;
    let mut i: usize = 0;
    while i < n
        invariant
            n == heart_rates@.len(),
            1 <= n <= u32::MAX,
            i <= n,
            sum as int == sum_hr(heart_rates@.take(i as int)),
            sum as int <= (i as int) * 0xffff_ffff,
        decreases n - i,
    {
        let hr = heart_rates[i];
        proof {
            assert((i as int) * 0xffff_ffff + 0xffff_ffff <= 0xffff_ffff * 0xffff_ffff)
                by (nonlinear_arith)
                requires
                    i as int <= 0xffff_fffe,
            ;
            assert(heart_rates@.take(i + 1).drop_last() =~= heart_rates@.take(i as int));
        }
        sum = sum + hr as u64;
        i = i + 1;
    }
    proof {
        assert(heart_rates@.take(n as int) =~= heart_rates@);
        assert(sum as int / n as int <= 0xffff_ffff) by (nonlinear_arith)
            requires
                1 <= n as int <= 0xffff_ffff,
                0 <= sum as int <= (n as int) * 0xffff_ffff,
        ;
    }
    let average = (sum / (n as u64)) as u32;

    let mut max: u32 = heart_rates[0];
    proof {
        assert(heart_rates@.take(1).drop_last() =~= Seq::<u32>::empty());
        assert(max_hr(Seq::<u32>::empty()) == 0);
        assert(heart_rates@.take(1).last() == heart_rates@[0]);
        assert(max_hr(heart_rates@.take(1)) == heart_rates@[0] as int);
    }
    let mut i: usize = 1;
    while i < n
        invariant
            n == heart_rates@.len(),
            1 <= i <= n,
            max as int == max_hr(heart_rates@.take(i as int)),
        decreases n - i,
    {
        let hr = heart_rates[i];
        if hr > max {
            max = hr;
        }
        proof {
            assert(heart_rates@.take(i + 1).drop_last() =~= heart_rates@.take(i as int));
        }
        i = i + 1;
    }

    let mut details: Vec<(String, u32)> = Vec::new();
    let mut low: Option<usize> = None;
    let mut mid: Option<usize> = None;
    let mut high: Option<usize> = None;
    let mut i: usize = 0;
    while i < n
        invariant
            n == heart_rates@.len(),
            n <= u32::MAX,
            i <= n,
            details_view(details@) == buckets_of(heart_rates@.take(i as int)),
            index_tracks(details@, low, "<115"@),
            index_tracks(details@, mid, "-150"@),
            index_tracks(details@, high, ">150"@),
            forall|j: int|
                0 <= j < details@.len() ==> (#[trigger] details@[j].1) <= i,
        decreases n - i,
    {
        let hr = heart_rates[i];
        let label = bucket_label_str(hr);
        proof {
            lemma_bucket_assignment(hr);
            assert(heart_rates@.take(i + 1).drop_last() =~= heart_rates@.take(i as int));
        }
        if hr < 115 {
            low = bump_details(&mut details, low, label);
        } else if hr < 150 {
            mid = bump_details(&mut details, mid, label);
        } else {
            high = bump_details(&mut details, high, label);
        }
        i = i + 1;
    }
    proof {
        assert(heart_rates@.take(n as int) =~= heart_rates@);
    }
    HeartRateSummary { average, max, details }
}

/// Split counts paired with the pending tail: the elapsed-sample count of
/// each completed kilometer so far, and the number of samples seen since the
/// last crossing.
pub open spec fn splits_rec(s: Seq<Sample>) -> (Seq<int>, int)
    decreases s.len(),
{
    if s.len() == 0 {
        (Seq::empty(), 0int)
    } else {
        let prev = splits_rec(s.drop_last());
        if is_km_boundary(s.last()) {
            (prev.0.push(prev.1 + 1), 0int)
        } else {
            (prev.0, prev.1 + 1)
        }
    }
}

/// The per-kilometer split counts of a sample sequence: one entry for each
/// sample on a kilometer boundary, counting the samples elapsed since the
/// previous boundary (from the start of the sequence for the first).
pub open spec fn split_counts(s: Seq<Sample>) -> Seq<int> {
    splits_rec(s).0
}

/// Number of samples of `s` that lie on a kilometer boundary.
pub open spec fn boundary_count(s: Seq<Sample>) -> int
    decreases s.len(),
{
    if s.len() == 0 {
        0
    } else {
        boundary_count(s.drop_last()) + if is_km_boundary(s.last()) {
            1int
        } else {
            0int
        }
    }
}

/// Sum of a sequence of integers.
pub open spec fn sum_ints(s: Seq<int>) -> int
    decreases s.len(),
{
    if s.len() == 0 {
        0
    } else {
        sum_ints(s.drop_last()) + s.last()
    }
}

proof fn lemma_splits_rec_shape(s: Seq<Sample>)
    ensures
        splits_rec(s).0.len() == boundary_count(s),
        0 <= splits_rec(s).1 <= s.len(),
        sum_ints(splits_rec(s).0) + splits_rec(s).1 == s.len(),
    decreases s.len(),
{
    if s.len() == 0 {
    } else {
        lemma_splits_rec_shape(s.drop_last());
        let prev = splits_rec(s.drop_last());
        if is_km_boundary(s.last()) {
            assert(prev.0.push(prev.1 + 1).drop_last() =~= prev.0);
        }
    }
}

/// Shape of the split summary: its length equals the number of samples whose
/// cumulative distance is a positive exact multiple of 1000 m, and the
/// elapsed counts never add up to more than the number of samples.
pub proof fn lemma_split_summary_shape(s: Seq<Sample>)
    ensures
        split_counts(s).len() == boundary_count(s),
        sum_ints(split_counts(s)) <= s.len(),
{
    lemma_splits_rec_shape(s);
}

/// Computes the per-kilometer split counts of a sample sequence.
pub fn create_split_time_summary(samples: &Vec<Sample>) -> (r: Vec<u32>)
    requires
        samples@.len() <= u32::MAX,
    ensures
        r@.map_values(|c: u32| c as int) == split_counts(samples@),
{
    let n = samples.len();
    let mut splits: Vec<u32> = Vec::new();
    let mut since: u32 = 0;
    let mut i: usize = 0;
    while i < n
        invariant
            n == samples@.len(),
            n <= u32::MAX,
            i <= n,
            splits@.map_values(|c: u32| c as int) == splits_rec(samples@.take(i as int)).0,
            since as int == splits_rec(samples@.take(i as int)).1,
        decreases n - i,
    {
        proof {
            lemma_splits_rec_shape(samples@.take(i as int));
            assert(samples@.take(i + 1).drop_last() =~= samples@.take(i as int));
        }
        let s = samples[i];
        if km_boundary(&s) {
            splits.push(since + 1);
            since = 0;
            proof {
                assert(splits@.map_values(|c: u32| c as int) =~= splits_rec(
                    samples@.take(i + 1),
                ).0);
            }
        } else {
            since = since + 1;
        }
        i = i + 1;
    }
    proof {
        assert(samples@.take(n as int) =~= samples@);
    }
    splits
}

/// The labels of a bucket list, in order.
pub open spec fn labels_of(b: Seq<(Seq<char>, int)>) -> Seq<Seq<char>> {
    b.map_values(|p: (Seq<char>, int)| p.0)
}

/// How many heart rates of `hrs` fall in the bucket labelled `label`.
pub open spec fn count_label(hrs: Seq<u32>, label: Seq<char>) -> int
    decreases hrs.len(),
{
    if hrs.len() == 0 {
        0
    } else {
        count_label(hrs.drop_last(), label) + if bucket_label(hrs.last()) == label {
            1int
        } else {
            0int
        }
    }
}

/// The bucket labels of `hrs` in the order they are first seen.
pub open spec fn first_labels(hrs: Seq<u32>) -> Seq<Seq<char>>
    decreases hrs.len(),
{
    if hrs.len() == 0 {
        Seq::empty()
    } else {
        let p = first_labels(hrs.drop_last());
        if p.contains(bucket_label(hrs.last())) {
            p
        } else {
            p.push(bucket_label(hrs.last()))
        }
    }
}

/// The bucket list keeps exactly one entry per seen label, in first-seen
/// order (not numeric order), and each entry counts exactly the heart rates
/// that fall in its bucket.
pub proof fn lemma_bucket_order_and_counts(hrs: Seq<u32>)
    ensures
        labels_of(buckets_of(hrs)) == first_labels(hrs),
        forall|j: int|
            0 <= j < buckets_of(hrs).len() ==> (#[trigger] buckets_of(hrs)[j]).1 == count_label(
                hrs,
                buckets_of(hrs)[j].0,
            ),
        forall|j1: int, j2: int|
            0 <= j1 < j2 < buckets_of(hrs).len() ==> buckets_of(hrs)[j1].0 != buckets_of(
                hrs,
            )[j2].0,
        forall|label: Seq<char>|
            !labels_of(buckets_of(hrs)).contains(label) ==> count_label(hrs, label) == 0,
    decreases hrs.len(),
{
    if hrs.len() == 0 {
        assert(labels_of(buckets_of(hrs)) =~= first_labels(hrs));
    } else {
        lemma_bucket_order_and_counts(hrs.drop_last());
        let b = buckets_of(hrs.drop_last());
        let l = bucket_label(hrs.last());
        assert(buckets_of(hrs) == bump(b, l));
        if labels_of(b).contains(l) {
            let k = choose|k: int| 0 <= k < labels_of(b).len() && labels_of(b)[k] == l;
            assert(b[k].0 == l);
            assert(forall|j: int| 0 <= j < k ==> b[j].0 != l);
            lemma_bump_present(b, l, k);
            assert(labels_of(bump(b, l)) =~= labels_of(b));
            assert(first_labels(hrs.drop_last()).contains(l));
            assert(first_labels(hrs) == first_labels(hrs.drop_last()));
            assert forall|j: int| 0 <= j < bump(b, l).len() implies (#[trigger] bump(b, l)[j]).1
                == count_label(hrs, bump(b, l)[j].0) by {
                if j == k {
                    assert(bump(b, l)[j] == (l, b[k].1 + 1));
                } else {
                    assert(bump(b, l)[j] == b[j]);
                    assert(b[j].0 != l);
                }
            }
            assert forall|label: Seq<char>|
                !labels_of(bump(b, l)).contains(label) implies count_label(hrs, label) == 0 by {
                assert(!labels_of(b).contains(label));
                assert(label != l);
                assert(count_label(hrs.drop_last(), label) == 0);
                assert(count_label(hrs, label) == count_label(hrs.drop_last(), label));
            }
        } else {
            assert forall|j: int| 0 <= j < b.len() implies (#[trigger] b[j]).0 != l by {
                assert(labels_of(b)[j] == b[j].0);
                if b[j].0 == l {
                    assert(labels_of(b).contains(l));
                }
            }
            lemma_bump_absent(b, l);
            assert(labels_of(bump(b, l)) =~= labels_of(b).push(l));
            assert(!first_labels(hrs.drop_last()).contains(l));
            assert(first_labels(hrs) == first_labels(hrs.drop_last()).push(l));
            assert(labels_of(bump(b, l)) =~= first_labels(hrs));
            assert(count_label(hrs.drop_last(), l) == 0);
            assert forall|j: int| 0 <= j < bump(b, l).len() implies (#[trigger] bump(b, l)[j]).1
                == count_label(hrs, bump(b, l)[j].0) by {
                if j < b.len() {
                    assert(bump(b, l)[j] == b[j]);
                    assert(b[j].0 != l);
                } else {
                    assert(bump(b, l)[j] == (l, 1int));
                }
            }
            assert forall|label: Seq<char>|
                !labels_of(bump(b, l)).contains(label) implies count_label(hrs, label) == 0 by {
                assert(!labels_of(b).contains(label)) by {
                    if labels_of(b).contains(label) {
                        let j = choose|j: int|
                            0 <= j < labels_of(b).len() && labels_of(b)[j] == label;
                        assert(labels_of(bump(b, l))[j] == label);
                        assert(labels_of(bump(b, l)).contains(label));
                    }
                }
                assert(label != l) by {
                    assert(labels_of(bump(b, l))[b.len() as int] == l);
                    if label == l {
                        assert(labels_of(bump(b, l)).contains(label));
                    }
                }
                assert(count_label(hrs.drop_last(), label) == 0);
                assert(count_label(hrs, label) == count_label(hrs.drop_last(), label));
            }
        }
    }
}

/// Sum of the counts of a bucket list.
pub open spec fn total_count(b: Seq<(Seq<char>, int)>) -> int
    decreases b.len(),
{
    if b.len() == 0 {
        0
    } else {
        b.first().1 + total_count(b.drop_first())
    }
}

proof fn lemma_bump_total(acc: Seq<(Seq<char>, int)>, label: Seq<char>)
    ensures
        total_count(bump(acc, label)) == total_count(acc) + 1,
    decreases acc.len(),
{
    if acc.len() == 0 {
        assert(seq![(label, 1int)].drop_first() =~= Seq::<(Seq<char>, int)>::empty());
        assert(total_count(Seq::<(Seq<char>, int)>::empty()) == 0);
    } else if acc.first().0 == label {
        let bumped = seq![(acc.first().0, acc.first().1 + 1)] + acc.drop_first();
        assert(bumped.first() == (acc.first().0, acc.first().1 + 1));
        assert(bumped.drop_first() =~= acc.drop_first());
        assert(total_count(bumped) == acc.first().1 + 1 + total_count(acc.drop_first()));
    } else {
        lemma_bump_total(acc.drop_first(), label);
        let kept = seq![acc.first()] + bump(acc.drop_first(), label);
        assert(kept.first() == acc.first());
        assert(kept.drop_first() =~= bump(acc.drop_first(), label));
        assert(total_count(kept) == acc.first().1 + total_count(bump(acc.drop_first(), label)));
    }
}

/// Every heart rate lands in exactly one bucket: the bucket counts add up to
/// the number of heart rates.
pub proof fn lemma_bucket_counts_total(hrs: Seq<u32>)
    ensures
        total_count(buckets_of(hrs)) == hrs.len(),
    decreases hrs.len(),
{
    if hrs.len() == 0 {
    } else {
        lemma_bucket_counts_total(hrs.drop_last());
        lemma_bump_total(buckets_of(hrs.drop_last()), bucket_label(hrs.last()));
    }
}

/// The heart rates of a sample sequence, in order.
pub open spec fn heart_rates_of(s: Seq<Sample>) -> Seq<u32> {
    s.map_values(|x: Sample| x.heart_rate)
}

/// What a summary of a non-empty sample sequence states.
pub open spec fn summary_matches(r: RunningActivitySummary, samples: Seq<Sample>) -> bool {
    &&& r.heart_rate_summary.average as int == sum_hr(heart_rates_of(samples))
        / samples.len() as int
    &&& r.heart_rate_summary.max as int == max_hr(heart_rates_of(samples))
    &&& details_view(r.heart_rate_summary.details@) == buckets_of(heart_rates_of(samples))
    &&& r.split_time_summary@.map_values(|c: u32| c as int) == split_counts(samples)
}

/// The degenerate summary: zero average and maximum, no buckets, no splits.
pub open spec fn is_zero_summary(r: RunningActivitySummary) -> bool {
    &&& r.heart_rate_summary.average == 0
    &&& r.heart_rate_summary.max == 0
    &&& r.heart_rate_summary.details@.len() == 0
    &&& r.split_time_summary@.len() == 0
}

/// Builds the degenerate summary used when no detailed samples are available.
pub fn zero_summary() -> (r: RunningActivitySummary)
    ensures
        is_zero_summary(r),
{
    RunningActivitySummary {
        split_time_summary: Vec::new(),
        heart_rate_summary: HeartRateSummary { average: 0, max: 0, details: Vec::new() },
    }
}

/// Computes heart-rate statistics and split counts from a sample sequence;
/// an empty sequence has no average or maximum and is reported as
/// `EmptyInput`.
pub fn summarize(samples: &Vec<Sample>) -> (r: Result<RunningActivitySummary, SummarizeError>)
    requires
        samples@.len() <= u32::MAX,
    ensures
        match r {
            Result::Err(e) => samples@.len() == 0 && e == SummarizeError::EmptyInput,
            Result::Ok(s) => samples@.len() > 0 && summary_matches(s, samples@),
        },
{
    let n = samples.len();
    if n == 0 {
        return Result::Err(SummarizeError::EmptyInput);
    }
    let mut hrs: Vec<u32> = Vec::new();
    let mut i: usize = 0;
    while i < n
        invariant
            n == samples@.len(),
            i <= n,
            hrs@ == heart_rates_of(samples@.take(i as int)),
        decreases n - i,
    {
        hrs.push(samples[i].heart_rate);
        proof {
            assert(hrs@ =~= heart_rates_of(samples@.take(i + 1)));
        }
        i = i + 1;
    }
    proof {
        assert(samples@.take(n as int) =~= samples@);
    }
    let heart_rate_summary = create_heart_rate_summary(&hrs);
    let split_time_summary = create_split_time_summary(samples);
    Result::Ok(RunningActivitySummary { split_time_summary, heart_rate_summary })
}

/// Decodes a trackpoint document and summarizes it. A document whose lap is
/// absent, or whose track holds no trackpoint, yields the zero-valued
/// summary rather than an error; a malformed document is a `ParseError`.
pub fn collect_summary(content: &String) -> (r: Result<RunningActivitySummary, ParseError>)
    requires
        encode_utf8(content@).len() <= u32::MAX,
    ensures
        match (r, tcx::spec_parse_doc(encode_utf8(content@))) {
            (Result::Err(e1), Result::Err(e2)) => e1 == e2,
            (Result::Ok(s), Result::Ok(Option::None)) => is_zero_summary(s),
            (Result::Ok(s), Result::Ok(Option::Some(samples))) => if samples.len() == 0 {
                is_zero_summary(s)
            } else {
                summary_matches(s, samples)
            },
            _ => false,
        },
{
    let bytes = content.as_str().as_bytes();
    match tcx::parse_samples(bytes) {
        Result::Err(e) => Result::Err(e),
        Result::Ok(None) => Result::Ok(zero_summary()),
        Result::Ok(Some(samples)) => {
            proof {
                tcx::lemma_sample_count(bytes@);
            }
            if samples.len() == 0 {
                Result::Ok(zero_summary())
            } else {
                match summarize(&samples) {
                    Result::Ok(s) => Result::Ok(s),
                    Result::Err(_) => {
                        proof {
                            assert(false);
                        }
                        Result::Err(ParseError::Malformed)
                    },
                }
            }
        },
    }
}

} // verus!
