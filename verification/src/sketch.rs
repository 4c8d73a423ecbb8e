//! The histogram sketch: a compressed, mergeable summary of a stream of
//! integer observations, backed by hdrhistogram. The sketch quantizes each
//! observation to its bucket's highest equivalent value; with the fixed
//! configuration used here (three significant digits, lowest discernible
//! value 1) values below 2048 are kept exactly and larger values are kept
//! within one part in 1024. Quantile lookup is done here, in verified
//! code, over a sorted snapshot of the sketch's buckets.

use vstd::prelude::*;
use vstd::multiset::Multiset;
use vstd::relations::{is_minimal, total_ordering};
use hdrhistogram::Histogram;

verus! {

broadcast use vstd::multiset::group_multiset_axioms;

/// A recording fault: the sketch could not accept an observation.
#[derive(Clone, Copy, Debug, PartialEq, Eq, Structural)]
pub enum SketchError {
    /// The value lay outside the sketch's representable range.
    ValueOutOfRange,
    /// The sketch could not grow its bucket storage.
    StorageExhausted,
}

/// An approximate, mergeable summary of a stream of integer observations,
/// backed by an hdrhistogram counts array that verification treats as
/// opaque; `sketch_values` names what it holds.
#[verifier::external_body]
pub struct Sketch {
    hist: Histogram<u64>,
}

/// The multiset of observations a sketch holds, each quantized to its
/// bucket's highest equivalent value.
pub uninterp spec fn sketch_values(s: Sketch) -> Multiset<u64>;

impl View for Sketch {
    type V = Multiset<u64>;

    open spec fn view(&self) -> Multiset<u64> {
        sketch_values(*self)
    }
}

/// The highest value the sketch treats as equivalent to `v`, under the
/// fixed configuration used here. A pure function of `v`.
pub uninterp spec fn bucket_of(v: u64) -> u64;

/// Relies on hdrhistogram::Histogram::new: three significant digits is a
/// valid configuration, so construction cannot fail; the new histogram is
/// empty and auto-resizes to cover the full value range.
#[verifier::external_body]
fn hist_new() -> (s: Sketch)
    ensures
        sketch_values(s) == Multiset::<u64>::empty(),
{
    Sketch { hist: Histogram::new(3).expect("three significant digits is a valid configuration") }
}

/// Relies on hdrhistogram::Histogram::record: with auto-resize enabled the
/// only failure is bucket storage that cannot grow, and a failed record
/// leaves the histogram unchanged. Values below 2048 (the single-unit
/// sub-bucket range for three significant digits) always fit the bins
/// allocated at construction, so recording them cannot fail. A recorded
/// observation is counted under its bucket's highest equivalent value:
/// exact below 2048 and within one part in 1024 above.
#[verifier::external_body]
fn hist_record(s: &mut Sketch, value: u64) -> (r: Result<(), SketchError>)
    ensures
        r is Ok ==> {
            &&& sketch_values(*final(s)) == sketch_values(*old(s)).insert(bucket_of(value))
            &&& value <= bucket_of(value)
            &&& bucket_of(value) <= value + value / 1024
            &&& (value < 2048 ==> bucket_of(value) == value)
        },
        r is Err ==> sketch_values(*final(s)) == sketch_values(*old(s)),
        value < 2048 ==> r is Ok,
{
    match s.hist.record(value) {
        Ok(()) => Ok(()),
        Err(hdrhistogram::RecordError::ValueOutOfRangeResizeDisabled) => Err(
            SketchError::ValueOutOfRange,
        ),
        Err(hdrhistogram::RecordError::ResizeFailedUsizeTypeTooSmall) => Err(
            SketchError::StorageExhausted,
        ),
    }
}

/// Relies on hdrhistogram::Histogram::len: the total count of recorded
/// observations, accumulated with saturating additions, so it is exact
/// as long as the true count fits in a `u64`.
#[verifier::external_body]
fn hist_len(s: &Sketch) -> (r: u64)
    ensures
        sketch_values(*s).len() <= u64::MAX ==> r == sketch_values(*s).len(),
{
    s.hist.len()
}

/// Relies on hdrhistogram::Histogram::iter_recorded: one entry per
/// non-empty bucket in ascending value order, carrying the bucket's
/// highest equivalent value and its count. Bucket counts saturate only
/// past `u64::MAX`, so below that the snapshot holds exactly the
/// histogram's contents.
#[verifier::external_body]
fn hist_snapshot(s: &Sketch) -> (pairs: Vec<(u64, u64)>)
    ensures
        sorted_pairs(pairs@),
        sketch_values(*s).len() <= u64::MAX ==> pairs_ms(pairs@) == sketch_values(*s),
{
    s.hist.iter_recorded().map(|v| (v.value_iterated_to(), v.count_at_value())).collect()
}

/// Distinct values in strictly ascending order, each with a positive count.
pub open spec fn sorted_pairs(s: Seq<(u64, u64)>) -> bool {
    &&& forall|i: int, j: int| 0 <= i < j < s.len() ==> (#[trigger] s[i]).0 < (#[trigger] s[j]).0
    &&& forall|i: int| 0 <= i < s.len() ==> (#[trigger] s[i]).1 >= 1
}

/// The multiset holding `v` exactly `c` times.
pub open spec fn repeat_value(v: u64, c: nat) -> Multiset<u64>
    decreases c,
{
    if c == 0 {
        Multiset::empty()
    } else {
        repeat_value(v, (c - 1) as nat).insert(v)
    }
}

/// The multiset a (value, count) sequence denotes.
pub open spec fn pairs_ms(s: Seq<(u64, u64)>) -> Multiset<u64>
    decreases s.len(),
{
    if s.len() == 0 {
        Multiset::empty()
    } else {
        pairs_ms(s.drop_last()).add(repeat_value(s.last().0, s.last().1 as nat))
    }
}

/// The total count of a (value, count) sequence.
pub open spec fn pairs_total(s: Seq<(u64, u64)>) -> nat
    decreases s.len(),
{
    if s.len() == 0 {
        0
    } else {
        pairs_total(s.drop_last()) + s.last().1 as nat
    }
}

/// How many observations in `m` are at most `v`.
pub open spec fn count_le(m: Multiset<u64>, v: u64) -> nat {
    m.filter(|x: u64| x <= v).len()
}

/// The rank an observation must reach to be the value at quantile `q`
/// (in permille) among `len` observations: `max(1, ceil(q * len / 1000))`.
pub open spec fn quantile_target(len: nat, q: nat) -> nat {
    let c = (q * len + 999) / 1000;
    if c == 0 {
        1
    } else {
        c
    }
}

/// The numeric order on observation values.
pub open spec fn u64_le() -> spec_fn(u64, u64) -> bool {
    |a: u64, b: u64| a <= b
}

/// The observations of `m` whose rank reaches `t`.
pub open spec fn candidate_set(m: Multiset<u64>, t: nat) -> Set<u64> {
    Set::new(|v: u64| m.contains(v) && count_le(m, v) >= t)
}

/// The value at quantile `q` (in permille) of the observations `m`: the
/// smallest observation `v` such that at least `max(1, ceil(q*|m|/1000))`
/// observations are at most `v`; 0 when `m` is empty.
pub open spec fn spec_value_at(m: Multiset<u64>, q: nat) -> u64 {
    if m.len() == 0 {
        0
    } else {
        candidate_set(m, quantile_target(m.len(), q)).find_unique_minimal(u64_le())
    }
}

/// The reversed numeric order on observation values.
pub open spec fn u64_ge() -> spec_fn(u64, u64) -> bool {
    |a: u64, b: u64| a >= b
}

proof fn lemma_orders_total()
    ensures
        total_ordering(u64_le()),
        total_ordering(u64_ge()),
{
    assert forall|x: u64| #[trigger] u64_le()(x, x) by {}
    assert forall|x: u64| #[trigger] u64_ge()(x, x) by {}
}

proof fn lemma_repeat_value(v: u64, c: nat)
    ensures
        repeat_value(v, c).len() == c,
        forall|x: u64| repeat_value(v, c).count(x) == if x == v {
            c
        } else {
            0nat
        },
    decreases c,
{
    if c > 0 {
        lemma_repeat_value(v, (c - 1) as nat);
    }
}

proof fn lemma_filter_add(a: Multiset<u64>, b: Multiset<u64>, p: spec_fn(u64) -> bool)
    ensures
        a.add(b).filter(p) == a.filter(p).add(b.filter(p)),
{
    assert(a.add(b).filter(p) =~= a.filter(p).add(b.filter(p)));
}

proof fn lemma_filter_repeat(v: u64, c: nat, p: spec_fn(u64) -> bool)
    ensures
        p(v) ==> repeat_value(v, c).filter(p) == repeat_value(v, c),
        !p(v) ==> repeat_value(v, c).filter(p) == Multiset::<u64>::empty(),
{
    lemma_repeat_value(v, c);
    if p(v) {
        assert(repeat_value(v, c).filter(p) =~= repeat_value(v, c));
    } else {
        assert(repeat_value(v, c).filter(p) =~= Multiset::<u64>::empty());
    }
}

proof fn lemma_pairs_ms_len(s: Seq<(u64, u64)>)
    ensures
        pairs_ms(s).len() == pairs_total(s),
    decreases s.len(),
{
    if s.len() > 0 {
        lemma_pairs_ms_len(s.drop_last());
        lemma_repeat_value(s.last().0, s.last().1 as nat);
    }
}

proof fn lemma_pairs_total_concat(a: Seq<(u64, u64)>, b: Seq<(u64, u64)>)
    ensures
        pairs_total(a + b) == pairs_total(a) + pairs_total(b),
    decreases b.len(),
{
    if b.len() == 0 {
        assert(a + b =~= a);
    } else {
        assert((a + b).drop_last() =~= a + b.drop_last());
        assert((a + b).last() == b.last());
        lemma_pairs_total_concat(a, b.drop_last());
    }
}

proof fn lemma_count_le_all(s: Seq<(u64, u64)>, w: u64)
    requires
        forall|j: int| 0 <= j < s.len() ==> (#[trigger] s[j]).0 <= w,
    ensures
        count_le(pairs_ms(s), w) == pairs_total(s),
    decreases s.len(),
{
    let p = |x: u64| x <= w;
    if s.len() == 0 {
        assert(pairs_ms(s).filter(p) =~= Multiset::<u64>::empty());
    } else {
        assert(s.last() == s[s.len() - 1]);
        lemma_count_le_all(s.drop_last(), w);
        let rep = repeat_value(s.last().0, s.last().1 as nat);
        lemma_filter_add(pairs_ms(s.drop_last()), rep, p);
        lemma_filter_repeat(s.last().0, s.last().1 as nat, p);
        lemma_repeat_value(s.last().0, s.last().1 as nat);
    }
}

proof fn lemma_count_le_none(s: Seq<(u64, u64)>, w: u64)
    requires
        forall|j: int| 0 <= j < s.len() ==> (#[trigger] s[j]).0 > w,
    ensures
        count_le(pairs_ms(s), w) == 0,
    decreases s.len(),
{
    let p = |x: u64| x <= w;
    if s.len() == 0 {
        assert(pairs_ms(s).filter(p) =~= Multiset::<u64>::empty());
    } else {
        assert(s.last() == s[s.len() - 1]);
        lemma_count_le_none(s.drop_last(), w);
        let rep = repeat_value(s.last().0, s.last().1 as nat);
        lemma_filter_add(pairs_ms(s.drop_last()), rep, p);
        lemma_filter_repeat(s.last().0, s.last().1 as nat, p);
    }
}

proof fn lemma_count_le_split(s: Seq<(u64, u64)>, k: int, w: u64)
    requires
        0 <= k <= s.len(),
        forall|j: int| 0 <= j < k ==> (#[trigger] s[j]).0 <= w,
        forall|j: int| k <= j < s.len() ==> (#[trigger] s[j]).0 > w,
    ensures
        count_le(pairs_ms(s), w) == pairs_total(s.take(k)),
    decreases s.len() - k,
{
    if k == s.len() {
        assert(s.take(k) =~= s);
        lemma_count_le_all(s, w);
    } else {
        assert(s.drop_last().take(k) =~= s.take(k));
        lemma_count_le_split(s.drop_last(), k, w);
        let p = |x: u64| x <= w;
        let rep = repeat_value(s.last().0, s.last().1 as nat);
        lemma_filter_add(pairs_ms(s.drop_last()), rep, p);
        assert(s.last() == s[s.len() - 1]);
        lemma_filter_repeat(s.last().0, s.last().1 as nat, p);
    }
}

proof fn lemma_ms_value_index(s: Seq<(u64, u64)>, x: u64)
    requires
        pairs_ms(s).contains(x),
    ensures
        exists|j: int| 0 <= j < s.len() && (#[trigger] s[j]).0 == x,
    decreases s.len(),
{
    if s.len() == 0 {
        assert(false);
    } else {
        let rep = repeat_value(s.last().0, s.last().1 as nat);
        lemma_repeat_value(s.last().0, s.last().1 as nat);
        if rep.count(x) > 0 {
            assert(s[s.len() - 1].0 == x);
        } else {
            lemma_ms_value_index(s.drop_last(), x);
            let j = choose|j: int| 0 <= j < s.drop_last().len() && (#[trigger] s.drop_last()[j]).0
                == x;
            assert(s[j].0 == x);
        }
    }
}

proof fn lemma_ms_index_contains(s: Seq<(u64, u64)>, i: int)
    requires
        0 <= i < s.len(),
        (s[i]).1 >= 1,
    ensures
        pairs_ms(s).contains(s[i].0),
    decreases s.len(),
{
    let rep = repeat_value(s.last().0, s.last().1 as nat);
    lemma_repeat_value(s.last().0, s.last().1 as nat);
    if i == s.len() - 1 {
        assert(pairs_ms(s).count(s[i].0) >= rep.count(s[i].0));
    } else {
        lemma_ms_index_contains(s.drop_last(), i);
        assert(s.drop_last()[i] == s[i]);
        assert(pairs_ms(s).count(s[i].0) >= pairs_ms(s.drop_last()).count(s[i].0));
    }
}

proof fn lemma_count_at_index(s: Seq<(u64, u64)>, i: int)
    requires
        sorted_pairs(s),
        0 <= i < s.len(),
    ensures
        count_le(pairs_ms(s), s[i].0) == pairs_total(s.take(i + 1)),
{
    lemma_count_le_split(s, i + 1, s[i].0);
}

/// Every nonempty multiset of observations has a maximal element, whose
/// rank is the whole count.
proof fn lemma_has_max(m: Multiset<u64>)
    requires
        m.len() != 0,
    ensures
        exists|mx: u64| m.contains(mx) && #[trigger] count_le(m, mx) == m.len(),
{
    broadcast use vstd::set_lib::group_set_properties;

    if forall|x: u64| !(#[trigger] m.contains(x)) {
        assert forall|x: u64| m.count(x) == Multiset::<u64>::empty().count(x) by {
            assert(!m.contains(x));
        }
        assert(m =~= Multiset::<u64>::empty());
        assert(false);
    }
    let x0 = choose|x: u64| m.contains(x);
    let dom = m.dom();
    assert(dom.contains(x0));
    assert(dom.len() > 0);
    lemma_orders_total();
    let mx = dom.find_unique_minimal(u64_ge());
    dom.find_unique_minimal_ensures(u64_ge());
    assert(is_minimal(u64_ge(), mx, dom));
    assert forall|x: u64| m.contains(x) implies x <= mx by {
        assert(dom.contains(x));
        if x > mx {
            assert(u64_ge()(x, mx));
            assert(u64_ge()(mx, x));
        }
    }
    let p = |x: u64| x <= mx;
    assert forall|x: u64| m.filter(p).count(x) == m.count(x) by {
        if m.count(x) > 0 {
            assert(m.contains(x));
            assert(x <= mx);
        }
    }
    assert(m.filter(p) =~= m);
    assert(m.contains(mx) && count_le(m, mx) == m.len());
}

/// The target rank for a quantile at most one is at least one and at most
/// the observation count.
proof fn lemma_target_bounds(len: nat, q: nat)
    requires
        q <= 1000,
        len > 0,
    ensures
        1 <= quantile_target(len, q) <= len,
{
    assert((q * len + 999) / 1000 <= len) by (nonlinear_arith)
        requires
            q <= 1000,
            len > 0,
    ;
}

/// Larger quantiles ask for larger ranks.
proof fn lemma_target_monotonic(len: nat, q1: nat, q2: nat)
    requires
        q1 <= q2,
    ensures
        quantile_target(len, q1) <= quantile_target(len, q2),
{
    assert((q1 * len + 999) / 1000 <= (q2 * len + 999) / 1000) by (nonlinear_arith)
        requires
            q1 <= q2,
    ;
}

/// A value that reaches the rank, and below which the rank is not
/// reached, is the minimal candidate.
proof fn lemma_min_candidate(m: Multiset<u64>, t: nat, v: u64)
    requires
        m.contains(v),
        count_le(m, v) >= t,
        forall|w: u64| m.contains(w) && w < v ==> #[trigger] count_le(m, w) < t,
    ensures
        candidate_set(m, t).find_unique_minimal(u64_le()) == v,
{
    broadcast use vstd::set_lib::group_set_properties;
    broadcast use vstd::set_lib::lemma_set_subset_finite;

    let s = candidate_set(m, t);
    assert(s.contains(v));
    assert(s.subset_of(m.dom()));
    assert(m.dom().finite());
    assert(s.finite());
    assert(s.len() > 0);
    lemma_orders_total();
    assert(is_minimal(u64_le(), v, s)) by {
        assert forall|x: u64| s.contains(x) && #[trigger] u64_le()(x, v) implies u64_le()(v, x) by {
            if x < v {
                assert(m.contains(x) && count_le(m, x) >= t);
            }
        }
    }
    s.find_unique_minimal_ensures(u64_le());
}

/// Quantile lookup is monotone: for one fixed set of observations, a
/// larger quantile never yields a smaller value.
pub proof fn lemma_value_at_quantile_monotonic(m: Multiset<u64>, q1: nat, q2: nat)
    requires
        q1 <= q2 <= 1000,
    ensures
        spec_value_at(m, q1) <= spec_value_at(m, q2),
{
    broadcast use vstd::set_lib::group_set_properties;
    broadcast use vstd::set_lib::lemma_set_subset_finite;

    if m.len() != 0 {
        let t1 = quantile_target(m.len(), q1);
        let t2 = quantile_target(m.len(), q2);
        lemma_target_monotonic(m.len(), q1, q2);
        lemma_target_bounds(m.len(), q2);
        lemma_has_max(m);
        let mx = choose|mx: u64| m.contains(mx) && #[trigger] count_le(m, mx) == m.len();
        let s1 = candidate_set(m, t1);
        let s2 = candidate_set(m, t2);
        assert(s1.contains(mx));
        assert(s2.contains(mx));
        assert(s1.subset_of(m.dom()));
        assert(s2.subset_of(m.dom()));
        assert(m.dom().finite());
        assert(s1.finite() && s2.finite());
        assert(s1.len() > 0 && s2.len() > 0);
        lemma_orders_total();
        let v1 = s1.find_unique_minimal(u64_le());
        let v2 = s2.find_unique_minimal(u64_le());
        s1.find_unique_minimal_ensures(u64_le());
        s2.find_unique_minimal_ensures(u64_le());
        assert(s2.contains(v2));
        assert(s1.contains(v2));
        if v2 < v1 {
            assert(u64_le()(v2, v1));
            assert(u64_le()(v1, v2));
        }
    }
}

impl Sketch {
    /// Creates an empty sketch.
    pub fn new() -> (s: Sketch)
        ensures
            s@ == Multiset::<u64>::empty(),
    {
        hist_new()
    }

    /// Inserts one observation. The sketch keeps it under its bucket's
    /// highest equivalent value: exactly for values below 2048, within one
    /// part in 1024 above. Values below 2048 always succeed; a failure
    /// leaves the sketch unchanged and is reported, not swallowed.
    pub fn record(&mut self, value: u64) -> (r: Result<(), SketchError>)
        ensures
            r is Ok ==> {
                &&& final(self)@ == old(self)@.insert(bucket_of(value))
                &&& value <= bucket_of(value)
                &&& bucket_of(value) <= value + value / 1024
                &&& (value < 2048 ==> bucket_of(value) == value)
            },
            r is Err ==> final(self)@ == old(self)@,
            value < 2048 ==> r is Ok,
    {
        hist_record(self, value)
    }

    /// The total count of recorded observations.
    pub fn len(&self) -> (r: u64)
        ensures
            self@.len() <= u64::MAX ==> r == self@.len(),
    {
        hist_len(self)
    }

    /// The value at quantile `q`, given in permille: the smallest held
    /// value whose rank reaches `max(1, ceil(q * count / 1000))`, or 0 for
    /// an empty sketch. Monotone in `q` for a fixed sketch.
    pub fn value_at_quantile(&self, q: u16) -> (r: u64)
        requires
            q <= 1000,
        ensures
            self@.len() <= u64::MAX ==> r == spec_value_at(self@, q as nat),
    {
        let ghost m = self@;
        let pairs = hist_snapshot(self);
        let n = pairs.len();
        let mut total: u128 = 0;
        let mut i: usize = 0;
        while i < n
            invariant
                n == pairs@.len(),
                i <= n,
                total == pairs_total(pairs@.take(i as int)),
                total <= (i as int) * (u64::MAX as int),
            decreases n - i,
        {
            proof {
                assert(pairs@.take(i + 1).drop_last() =~= pairs@.take(i as int));
                assert(pairs@.take(i + 1).last() == pairs@[i as int]);
            }
            total = total + (pairs[i].1 as u128);
            i = i + 1;
        }
        proof {
            assert(pairs@.take(n as int) =~= pairs@);
            lemma_pairs_ms_len(pairs@);
        }
        if total == 0 {
            // An empty sketch: every quantile is 0.
            return 0;
        }
        let total64: u64 = if total > (u64::MAX as u128) {
            u64::MAX
        } else {
            total as u64
        };
        proof {
            assert((q as int) * (total64 as int) <= 1000 * (u64::MAX as int)) by (nonlinear_arith)
                requires
                    q <= 1000,
                    total64 <= u64::MAX,
            ;
        }
        let tnum: u128 = (q as u128) * (total64 as u128);
        let mut target: u128 = (tnum + 999) / 1000;
        if target == 0 {
            target = 1;
        }
        proof {
            // The target rank never exceeds the total count.
            assert((q as int) * (total64 as int) <= 1000 * (total64 as int)) by (nonlinear_arith)
                requires
                    q <= 1000,
            ;
            assert((1000 * (total64 as int) + 999) / 1000 == total64 as int) by (nonlinear_arith)
                requires
                    total64 >= 0,
            ;
            assert(target <= total);
            if m.len() <= u64::MAX {
                assert(total == m.len());
                assert(target == quantile_target(m.len(), q as nat));
            }
        }
        let mut cum: u128 = 0;
        let mut k: usize = 0;
        while k < n
            invariant
                m == self@,
                n == pairs@.len(),
                k <= n,
                sorted_pairs(pairs@),
                cum == pairs_total(pairs@.take(k as int)),
                cum < target,
                1 <= target <= total,
                total == pairs_total(pairs@),
                m.len() <= u64::MAX ==> {
                    &&& pairs_ms(pairs@) == m
                    &&& total == m.len()
                    &&& target == quantile_target(m.len(), q as nat)
                },
            decreases n - k,
        {
            proof {
                assert(pairs@.take(k + 1).drop_last() =~= pairs@.take(k as int));
                assert(pairs@.take(k + 1).last() == pairs@[k as int]);
                lemma_pairs_total_concat(pairs@.take(k + 1), pairs@.skip(k + 1));
                assert(pairs@.take(k + 1) + pairs@.skip(k + 1) =~= pairs@);
            }
            cum = cum + (pairs[k].1 as u128);
            if cum >= target {
                let v = pairs[k].0;
                proof {
                    if m.len() <= u64::MAX {
                        let t = target as nat;
                        lemma_count_at_index(pairs@, k as int);
                        lemma_ms_index_contains(pairs@, k as int);
                        assert(count_le(m, v) >= t);
                        assert forall|w: u64| m.contains(w) && w < v implies #[trigger] count_le(
                            m,
                            w,
                        ) < t by {
                            lemma_ms_value_index(pairs@, w);
                            let j = choose|j: int|
                                0 <= j < pairs@.len() && (#[trigger] pairs@[j]).0 == w;
                            assert(j < k);
                            lemma_count_at_index(pairs@, j);
                            lemma_pairs_total_concat(
                                pairs@.take(j + 1),
                                pairs@.take(k as int).skip(j + 1),
                            );
                            assert(pairs@.take(j + 1) + pairs@.take(k as int).skip(j + 1)
                                =~= pairs@.take(k as int));
                        }
                        lemma_min_candidate(m, t, v);
                        assert(m.len() != 0);
                        assert(t == quantile_target(m.len(), q as nat));
                        assert(spec_value_at(m, q as nat) == candidate_set(
                            m,
                            quantile_target(m.len(), q as nat),
                        ).find_unique_minimal(u64_le()));
                        assert(spec_value_at(m, q as nat) == v);
                    }
                }
                return v;
            }
            k = k + 1;
        }
        proof {
            assert(pairs@.take(n as int) =~= pairs@);
            assert(false);
        }
        0
    }
}

} // verus!
