use vstd::prelude::*;

verus! {

/// Something that can serve as an optional bound of an interval: either a plain `i32`
/// or an `Option<i32>`, where `None` stands for "unbounded".
pub trait IntoBound: Sized {
    spec fn bound_spec(self) -> Option<i32>;

    fn into_bound(self) -> (res: Option<i32>)
        ensures
            res == self.bound_spec(),
    ;
}

impl IntoBound for i32 {
    open spec fn bound_spec(self) -> Option<i32> {
        Some(self)
    }

    fn into_bound(self) -> (res: Option<i32>) {
        Some(self)
    }
}

impl IntoBound for Option<i32> {
    open spec fn bound_spec(self) -> Option<i32> {
        self
    }

    fn into_bound(self) -> (res: Option<i32>) {
        self
    }
}

/// A bound for the values of an Event's current value or previous value.
/// Represents a closed interval.
#[derive(Clone, Copy, PartialEq, Eq, Debug, Hash, Structural)]
pub struct Interval {
    /// The values min and max are inclusive bounds.
    pub min: i32,
    pub max: i32,
}

/// The lower end used when no lower bound is given.
pub open spec fn lower_or_min(bound: Option<i32>) -> i32 {
    match bound {
        Some(value) => value,
        None => i32::MIN,
    }
}

/// The upper end used when no upper bound is given.
pub open spec fn upper_or_max(bound: Option<i32>) -> i32 {
    match bound {
        Some(value) => value,
        None => i32::MAX,
    }
}

pub open spec fn spec_min(a: int, b: int) -> int {
    if a <= b { a } else { b }
}

pub open spec fn spec_max(a: int, b: int) -> int {
    if a >= b { a } else { b }
}

impl Interval {
    /// The mathematical set of values that lie within this interval.
    pub open spec fn has(self, value: int) -> bool {
        self.min <= value <= self.max
    }

    /// An interval that contains at least one value.
    pub open spec fn nonempty(self) -> bool {
        self.min <= self.max
    }

    pub open spec fn spec_intersect(self, other: Interval) -> Option<Interval> {
        let max = spec_min(self.max as int, other.max as int);
        let min = spec_max(self.min as int, other.min as int);
        if min > max {
            None
        } else {
            Some(Interval { min: min as i32, max: max as i32 })
        }
    }

    pub fn new<A: IntoBound, B: IntoBound>(min: A, max: B) -> (res: Interval)
        ensures
            res.min == lower_or_min(min.bound_spec()),
            res.max == upper_or_max(max.bound_spec()),
    {
        Interval {
            min: match min.into_bound() {
                Some(value) => value,
                None => i32::MIN,
            },
            max: match max.into_bound() {
                Some(value) => value,
                None => i32::MAX,
            },
        }
    }

    /// Returns a range that lies between the two provided integers. The two integers
    /// do not need to be provided in ascending order.
    pub fn spanned_between(a: i32, b: i32) -> (res: Interval)
        ensures
            res.min == spec_min(a as int, b as int),
            res.max == spec_max(a as int, b as int),
            res.nonempty(),
    {
        let max = if a >= b { a } else { b };
        let min = if a <= b { a } else { b };
        Interval { min, max }
    }

    /// Checks whether this Range contains a value.
    pub fn contains(&self, value: i32) -> (res: bool)
        ensures
            res == self.has(value as int),
    {
        self.min <= value && value <= self.max
    }

    /// Returns the closest integer to value that lies within this Range.
    pub fn bound(&self, value: i32) -> (res: i32)
        ensures
            res == spec_max(self.min as int, spec_min(self.max as int, value as int)),
            self.nonempty() ==> self.has(res as int),
            self.has(value as int) ==> res == value,
    {
        let upper = if self.max <= value { self.max } else { value };
        if self.min >= upper { self.min } else { upper }
    }

    /// The maximum difference between two event values that can fall in this range, which is one less
    /// than the total amount of event values that can fall in this range.
    pub fn span(&self) -> (res: u32)
        requires
            self.nonempty(),
        ensures
            res == self.max - self.min,
    {
        let min_i64: i64 = self.min as i64;
        let max_i64: i64 = self.max as i64;
        (max_i64 - min_i64) as u32
    }

    /// A range that contains every possible difference between two event codes that fall in this range.
    pub fn delta_range(&self) -> (res: Interval)
        requires
            self.nonempty(),
        ensures
            res.max == spec_min(self.max - self.min, i32::MAX as int),
            res.min == if self.max - self.min <= i32::MAX { -(self.max - self.min) } else { i32::MIN as int },
            self.max - self.min <= i32::MAX ==> forall|a: int, b: int| self.has(a) && self.has(b) ==> res.has(a - b),
    {
        let span = self.span();
        if span <= i32::MAX as u32 {
            let span_i32 = span as i32;
            Interval { min: -span_i32, max: span_i32 }
        } else {
            Interval { min: i32::MIN, max: i32::MAX }
        }
    }

    /// The range of the values of `other` after each is moved into this range.
    pub open spec fn spec_bound_range(self, other: Interval) -> Interval {
        match self.spec_intersect(other) {
            Some(intersection) => intersection,
            None => if self.min > other.max {
                Interval { min: self.min, max: self.min }
            } else {
                Interval { min: self.max, max: self.max }
            },
        }
    }

    /// Returns the range that would be generated if we bounded every value in the other range.
    pub fn bound_range(&self, other: &Interval) -> (res: Interval)
        ensures
            res == self.spec_bound_range(*other),
    {
        if let Some(intersection) = self.intersect(other) {
            intersection
        } else if self.min > other.max {
            Interval { min: self.min, max: self.min }
        } else {
            Interval { min: self.max, max: self.max }
        }
    }

    /// Returns the largest range that is contained by both self and other.
    pub fn intersect(&self, other: &Interval) -> (res: Option<Interval>)
        ensures
            res == self.spec_intersect(*other),
            match res {
                Some(iv) => iv.nonempty() && forall|v: int| iv.has(v) <==> (self.has(v) && other.has(v)),
                None => forall|v: int| !(self.has(v) && other.has(v)),
            },
    {
        let max = if self.max <= other.max { self.max } else { other.max };
        let min = if self.min >= other.min { self.min } else { other.min };
        if min > max {
            None
        } else {
            Some(Interval { min, max })
        }
    }

    /// Returns true if some value lies in both this range and the other.
    pub fn intersects_with(&self, other: &Interval) -> (res: bool)
        ensures
            res == self.spec_intersect(*other).is_some(),
            res == exists|v: int| self.has(v) && other.has(v),
    {
        let res = self.intersect(other).is_some();
        proof {
            if res {
                let iv = self.spec_intersect(*other).unwrap();
                assert(self.has(iv.min as int) && other.has(iv.min as int));
            }
        }
        res
    }

    /// Returns the smallest range that contains both self and other.
    pub fn merge(&self, other: &Interval) -> (res: Interval)
        ensures
            res.min == spec_min(self.min as int, other.min as int),
            res.max == spec_max(self.max as int, other.max as int),
    {
        let min = if self.min <= other.min { self.min } else { other.min };
        let max = if self.max >= other.max { self.max } else { other.max };
        Interval { min, max }
    }

    /// Returns a range if there is a contiguous range that is the union of both of these.
    /// If such a range does not exist (e.g. there is empty space between them), returns None.
    pub fn try_union(&self, other: &Interval) -> (res: Option<Interval>)
        ensures
            res is Some <==> (self.spec_intersect(*other) is Some
                || self.max - other.min == 1 || other.min - self.max == 1
                || self.min - other.max == 1 || other.max - self.min == 1),
            res matches Some(iv) ==> iv.min == spec_min(self.min as int, other.min as int)
                && iv.max == spec_max(self.max as int, other.max as int),
            res matches Some(iv) ==> self.nonempty() && other.nonempty()
                ==> forall|v: int| iv.has(v) <==> (self.has(v) || other.has(v)),
    {
        if self.intersect(other).is_none() && !is_adjacent(self.max, other.min) && !is_adjacent(
            self.min,
            other.max,
        ) {
            return None;
        }
        Some(
            Interval {
                min: if self.min <= other.min { self.min } else { other.min },
                max: if self.max >= other.max { self.max } else { other.max },
            },
        )
    }

    /// Tests whether this range is a subset of another range.
    pub fn is_subset_of(&self, other: &Interval) -> (res: bool)
        ensures
            res == (self.spec_intersect(*other) == Some(*self)),
            self.nonempty() ==> (res <==> forall|v: int| self.has(v) ==> other.has(v)),
    {
        let res = match self.intersect(other) {
            Some(iv) => iv.min == self.min && iv.max == self.max,
            None => false,
        };
        proof {
            if self.nonempty() && !res {
                if self.spec_intersect(*other) is Some {
                    let iv = self.spec_intersect(*other).unwrap();
                    if iv.min != self.min {
                        assert(self.has(self.min as int) && !other.has(self.min as int));
                    } else {
                        assert(self.has(self.max as int) && !other.has(self.max as int));
                    }
                } else {
                    assert(self.has(self.min as int));
                }
            }
        }
        res
    }

    /// Tests whether these ranges have no overlap.
    pub fn is_disjoint_with(&self, other: &Interval) -> (res: bool)
        ensures
            res == self.spec_intersect(*other).is_none(),
            res == forall|v: int| !(self.has(v) && other.has(v)),
    {
        let res = self.intersect(other).is_none();
        proof {
            if !res {
                let iv = self.spec_intersect(*other).unwrap();
                assert(self.has(iv.min as int) && other.has(iv.min as int));
            }
        }
        res
    }
}


/// True if `value` lies in at least one of the intervals.
pub open spec fn in_intervals(ivs: Seq<Interval>, value: int) -> bool {
    exists|i: int| 0 <= i < ivs.len() && #[trigger] ivs[i].has(value)
}

/// Every interval is nonempty, and the intervals are disjoint and appear in ascending order.
pub open spec fn is_ordered(ivs: Seq<Interval>) -> bool {
    &&& forall|i: int| 0 <= i < ivs.len() ==> (#[trigger] ivs[i]).nonempty()
    &&& forall|i: int, j: int| 0 <= i < j < ivs.len() ==> (#[trigger] ivs[i]).max < (#[trigger] ivs[j]).min
}

/// Like `is_ordered`, and moreover no two intervals touch: there is a gap between each two of them.
pub open spec fn is_canonical(ivs: Seq<Interval>) -> bool {
    &&& forall|i: int| 0 <= i < ivs.len() ==> (#[trigger] ivs[i]).nonempty()
    &&& forall|i: int, j: int| 0 <= i < j < ivs.len() ==> (#[trigger] ivs[i]).max + 1 < (#[trigger] ivs[j]).min
}

/// All values an `i32` can take.
pub open spec fn universe() -> Set<int> {
    Set::new(|v: int| i32::MIN <= v <= i32::MAX)
}

proof fn lemma_in_push(ivs: Seq<Interval>, x: Interval)
    ensures
        forall|v: int| in_intervals(ivs.push(x), v) <==> (in_intervals(ivs, v) || x.has(v)),
{
    assert forall|v: int| in_intervals(ivs.push(x), v) <==> (in_intervals(ivs, v) || x.has(v)) by {
        let s = ivs.push(x);
        if in_intervals(s, v) {
            let i = choose|i: int| 0 <= i < s.len() && #[trigger] s[i].has(v);
            if i < ivs.len() {
                assert(ivs[i].has(v));
            }
        }
        if in_intervals(ivs, v) {
            let i = choose|i: int| 0 <= i < ivs.len() && #[trigger] ivs[i].has(v);
            assert(s[i].has(v));
        }
        if x.has(v) {
            assert(s[ivs.len() as int].has(v));
        }
    }
}

proof fn lemma_same_elements_same_values(a: Seq<Interval>, b: Seq<Interval>)
    requires
        forall|x: Interval| a.contains(x) ==> b.contains(x),
    ensures
        forall|v: int| in_intervals(a, v) ==> in_intervals(b, v),
{
    assert forall|v: int| in_intervals(a, v) implies in_intervals(b, v) by {
        let i = choose|i: int| 0 <= i < a.len() && #[trigger] a[i].has(v);
        assert(a.contains(a[i]));
        let j = choose|j: int| 0 <= j < b.len() && b[j] == a[i];
        assert(b[j].has(v));
    }
}

/// Sorts intervals by ascending maximum.
fn sort_by_max(intervals: Vec<Interval>) -> (res: Vec<Interval>)
    ensures
        forall|x: Interval| res@.contains(x) <==> intervals@.contains(x),
        forall|i: int, j: int| 0 <= i < j < res@.len() ==> (#[trigger] res@[i]).max <= (#[trigger] res@[j]).max,
{
    let mut sorted: Vec<Interval> = Vec::new();
    let mut k: usize = 0;
    while k < intervals.len()
        invariant
            k <= intervals.len(),
            forall|x: Interval| sorted@.contains(x) <==> intervals@.take(k as int).contains(x),
            forall|i: int, j: int| 0 <= i < j < sorted@.len() ==> (#[trigger] sorted@[i]).max <= (#[trigger] sorted@[j]).max,
        decreases intervals.len() - k,
    {
        let item = intervals[k];
        let mut pos: usize = 0;
        while pos < sorted.len() && sorted[pos].max <= item.max
            invariant
                pos <= sorted.len(),
                forall|i: int| 0 <= i < pos ==> (#[trigger] sorted@[i]).max <= item.max,
            decreases sorted.len() - pos,
        {
            pos += 1;
        }
        let ghost old_sorted = sorted@;
        proof {
            assert forall|i: int| pos <= i < old_sorted.len() implies item.max < (#[trigger] old_sorted[i]).max by {
                if pos < old_sorted.len() {
                    assert(old_sorted[pos as int].max > item.max);
                    if i > pos {
                        assert(old_sorted[pos as int].max <= old_sorted[i].max);
                    }
                }
            }
        }
        sorted.insert(pos, item);
        proof {
            let taken = intervals@.take(k as int + 1);
            assert(taken == intervals@.take(k as int).push(item));
            assert forall|x: Interval| sorted@.contains(x) <==> taken.contains(x) by {
                if sorted@.contains(x) {
                    let i = choose|i: int| 0 <= i < sorted@.len() && sorted@[i] == x;
                    if i < pos {
                        assert(old_sorted[i] == x);
                    } else if i > pos {
                        assert(old_sorted[i - 1] == x);
                    }
                    if x != item {
                        assert(old_sorted.contains(x));
                        assert(intervals@.take(k as int).contains(x));
                        let j = choose|j: int| 0 <= j < k && intervals@.take(k as int)[j] == x;
                        assert(taken[j] == x);
                    } else {
                        assert(taken[k as int] == x);
                    }
                }
                if taken.contains(x) {
                    let j = choose|j: int| 0 <= j < taken.len() && taken[j] == x;
                    if j < k {
                        assert(intervals@.take(k as int)[j] == x);
                        assert(old_sorted.contains(x));
                        let i = choose|i: int| 0 <= i < old_sorted.len() && old_sorted[i] == x;
                        if i < pos {
                            assert(sorted@[i] == x);
                        } else {
                            assert(sorted@[i + 1] == x);
                        }
                    } else {
                        assert(sorted@[pos as int] == x);
                    }
                }
            }
        }
        k += 1;
    }
    proof {
        assert(intervals@.take(intervals@.len() as int) == intervals@);
    }
    sorted
}

/// Represents a subset of the interval [i32::MIN, i32::MAX].
/// We represent such sets as unions of contiguous intervals, e.g. [-5, -2] U [7, 12] U [18, i32::MAX].
#[derive(Clone, PartialEq, Eq, Hash, Debug)]
pub struct IntervalSet {
    /// Invariants to be upheld (see `well_formed`):
    /// 1. All intervals are disjoint.
    /// 2. The intervals should be ordered, i.e. if i<j then `intervals[i].max < intervals[j].min`
    pub intervals: Vec<Interval>,
}

impl View for IntervalSet {
    type V = Set<int>;

    open spec fn view(&self) -> Set<int> {
        Set::new(|v: int| in_intervals(self.intervals@, v))
    }
}

impl IntervalSet {
    pub open spec fn well_formed(&self) -> bool {
        is_ordered(self.intervals@)
    }

    /// The normal form that every operation returns: ordered and without touching intervals.
    pub open spec fn canonical(&self) -> bool {
        is_canonical(self.intervals@)
    }

    pub open spec fn has(&self, value: int) -> bool {
        in_intervals(self.intervals@, value)
    }

    /// A set holding exactly the values of one nonempty interval.
    pub fn from_interval(value: Interval) -> (res: IntervalSet)
        requires
            value.nonempty(),
        ensures
            res.intervals@ == seq![value],
            res.canonical(),
            forall|v: int| res.has(v) <==> value.has(v),
    {
        let res = IntervalSet { intervals: vec![value] };
        proof {
            assert forall|v: int| res.has(v) <==> value.has(v) by {
                if value.has(v) {
                    assert(res.intervals@[0].has(v));
                }
            }
        }
        res
    }

    /// Returns the empty set.
    pub fn empty() -> (res: IntervalSet)
        ensures
            res.intervals@.len() == 0,
            res.canonical(),
            res@ == Set::<int>::empty(),
    {
        let res = IntervalSet { intervals: Vec::new() };
        proof {
            assert(res@ =~= Set::<int>::empty());
        }
        res
    }

    /// Tells you whether this is the empty set.
    pub fn is_empty(&self) -> (res: bool)
        requires
            self.well_formed(),
        ensures
            res == (self.intervals@.len() == 0),
            res == (self@ == Set::<int>::empty()),
    {
        let res = self.intervals.len() == 0;
        proof {
            if !res {
                assert(self.intervals@[0].has(self.intervals@[0].min as int));
                assert(self@.contains(self.intervals@[0].min as int));
            } else {
                assert(self@ =~= Set::<int>::empty());
            }
        }
        res
    }

    /// Returns an interval that contains all values in this set.
    /// Returns None if this is the empty set.
    pub fn spanning_interval(&self) -> (res: Option<Interval>)
        requires
            self.well_formed(),
        ensures
            self.intervals@.len() == 0 ==> res is None,
            self.intervals@.len() > 0 ==> res == Some(Interval {
                min: self.intervals@[0].min,
                max: self.intervals@[self.intervals@.len() - 1].max,
            }),
            res matches Some(iv) ==> forall|v: int| self.has(v) ==> iv.has(v),
    {
        let n = self.intervals.len();
        if n == 0 {
            None
        } else {
            let res = Interval::new(self.intervals[0].min, self.intervals[n - 1].max);
            proof {
                let s = self.intervals@;
                assert forall|v: int| self.has(v) implies res.has(v) by {
                    let i = choose|i: int| 0 <= i < s.len() && #[trigger] s[i].has(v);
                    if i > 0 {
                        assert(s[0].max < s[i].min);
                    }
                    if i < s.len() - 1 {
                        assert(s[i].max < s[s.len() - 1].min);
                    }
                }
            }
            Some(res)
        }
    }

    /// Creates a set from intervals that may or may not be ordered and may or may not be disjoint.
    pub fn from_unordered_intervals(intervals: Vec<Interval>) -> (res: IntervalSet)
        requires
            forall|i: int| 0 <= i < intervals@.len() ==> (#[trigger] intervals@[i]).nonempty(),
        ensures
            res.canonical(),
            forall|v: int| res.has(v) <==> in_intervals(intervals@, v),
    {
        let sorted = sort_by_max(intervals);
        proof {
            lemma_same_elements_same_values(sorted@, intervals@);
            lemma_same_elements_same_values(intervals@, sorted@);
            assert forall|i: int| 0 <= i < sorted@.len() implies (#[trigger] sorted@[i]).nonempty() by {
                assert(sorted@.contains(sorted@[i]));
            }
        }

        // Merge overlapping intervals together, e.g. [1, 5] U [3, 7] -> [1, 7]
        let mut merged_intervals: Vec<Interval> = Vec::new();
        let mut idx: usize = 0;
        while idx < sorted.len()
            invariant
                idx <= sorted.len(),
                forall|i: int| 0 <= i < sorted@.len() ==> (#[trigger] sorted@[i]).nonempty(),
                forall|i: int, j: int| 0 <= i < j < sorted@.len() ==> (#[trigger] sorted@[i]).max <= (#[trigger] sorted@[j]).max,
                is_canonical(merged_intervals@),
                forall|v: int| in_intervals(merged_intervals@, v) <==> in_intervals(sorted@.take(idx as int), v),
                idx == 0 <==> merged_intervals@.len() == 0,
                idx > 0 ==> merged_intervals@.last().max == sorted@[idx - 1].max,
            decreases sorted.len() - idx,
        {
            let mut interval = sorted[idx];
            proof {
                assert(sorted@.take(idx as int + 1) == sorted@.take(idx as int).push(sorted@[idx as int]));
                lemma_in_push(sorted@.take(idx as int), sorted@[idx as int]);
                if idx > 0 {
                    assert(sorted@[idx - 1].max <= sorted@[idx as int].max);
                }
            }
            loop
                invariant
                    idx < sorted@.len(),
                    is_canonical(merged_intervals@),
                    interval.nonempty(),
                    interval.max == sorted@[idx as int].max,
                    merged_intervals@.len() > 0 ==> merged_intervals@.last().max <= interval.max,
                    forall|v: int| #![all_triggers] (in_intervals(merged_intervals@, v) || interval.has(v))
                        <==> in_intervals(sorted@.take(idx as int + 1), v),
                ensures
                    is_canonical(merged_intervals@),
                    interval.nonempty(),
                    interval.max == sorted@[idx as int].max,
                    merged_intervals@.len() > 0 ==> merged_intervals@.last().max + 1 < interval.min,
                    forall|v: int| #![all_triggers] (in_intervals(merged_intervals@, v) || interval.has(v))
                        <==> in_intervals(sorted@.take(idx as int + 1), v),
                decreases merged_intervals@.len(),
            {
                let n = merged_intervals.len();
                if n > 0 && merged_intervals[n - 1].max as i64 >= interval.min as i64 - 1 {
                    let last = merged_intervals[n - 1];
                    let ghost before = merged_intervals@;
                    let ghost old_interval = interval;
                    interval.min = if interval.min <= last.min { interval.min } else { last.min };
                    merged_intervals.pop();
                    proof {
                        assert(before[n - 1] == last);
                        assert(last.nonempty());
                        assert(last.max <= old_interval.max);
                        assert(before == merged_intervals@.push(last));
                        lemma_in_push(merged_intervals@, last);
                        lemma_in_push(before, old_interval);
                        assert forall|v: int| (last.has(v) || old_interval.has(v)) <==> interval.has(v) by {}
                        assert forall|v: int| (in_intervals(before, v) || old_interval.has(v))
                            <==> in_intervals(sorted@.take(idx as int + 1), v) by {}
                        assert forall|v: int| (in_intervals(merged_intervals@, v) || interval.has(v))
                            <==> (in_intervals(before, v) || old_interval.has(v)) by {}
                        if merged_intervals@.len() > 0 {
                            assert(merged_intervals@.last() == before[n - 2]);
                            assert(before[n - 2].max + 1 < before[n - 1].min);
                        }
                    }
                } else {
                    break;
                }
            }
            let ghost before = merged_intervals@;
            merged_intervals.push(interval);
            proof {
                lemma_in_push(before, interval);
                let m = merged_intervals@;
                assert forall|v: int| in_intervals(m, v) <==> in_intervals(sorted@.take(idx as int + 1), v) by {
                    assert(in_intervals(m, v) <==> (in_intervals(before, v) || interval.has(v)));
                }
                assert forall|i: int, j: int| 0 <= i < j < m.len() implies (#[trigger] m[i]).max + 1 < (#[trigger] m[j]).min by {
                    if j == m.len() - 1 && i < j - 1 {
                        assert(before[i].max + 1 < before[j - 1].min);
                    }
                }
            }
            idx += 1;
        }
        proof {
            assert(sorted@.take(sorted@.len() as int) == sorted@);
        }
        IntervalSet { intervals: merged_intervals }
    }
}

/// Every value that lies in both `first` and `second` either already lies in `out`, or lies in
/// intervals of `first` and `second` that the iteration has not moved past yet.
pub open spec fn pairs_covered(
    first: Seq<Interval>,
    second: Seq<Interval>,
    out: Seq<Interval>,
    index_1: int,
    index_2: int,
    finished: bool,
) -> bool {
    forall|v: int, p: int, q: int|
        #![trigger first[p].has(v), second[q].has(v)]
        0 <= p < first.len() && 0 <= q < second.len() && first[p].has(v) && second[q].has(v)
            ==> in_intervals(out, v) || (!finished && p >= index_1 && q >= index_2)
}

/// Generates pairs of intervals (interval_1, interval_2). Consecutively generated pairs will have exactly one
/// interval different. The interval that differs will always be the one whose maximum value was the lowest.
/// Unless the one with the lowest maximum value has reached end of iteration, then the other will change.
///
/// The pairs that a pair iterator yields from the given positions on: the current pair, then
/// those after advancing the list whose current interval has the lowest maximum, or the other
/// one if the former has no intervals left.
pub open spec fn pairs_from(first: Seq<Interval>, second: Seq<Interval>, i: int, j: int) -> Seq<(Interval, Interval)>
    decreases (first.len() - i) + (second.len() - j),
{
    if !(0 <= i < first.len() && 0 <= j < second.len()) {
        Seq::empty()
    } else {
        let a = first[i];
        let b = second[j];
        let next = if a.max < b.max {
            if i + 1 < first.len() {
                (i + 1, j)
            } else if j + 1 < second.len() {
                (i, j + 1)
            } else {
                (first.len() as int, second.len() as int)
            }
        } else {
            if j + 1 < second.len() {
                (i, j + 1)
            } else if i + 1 < first.len() {
                (i + 1, j)
            } else {
                (first.len() as int, second.len() as int)
            }
        };
        seq![(a, b)] + pairs_from(first, second, next.0, next.1)
    }
}

/// For example, if the first list holds [1,2], [3, 4] and the second list holds [2, 3], [5, 7] then
/// the pair iterator will yield ([1, 2], [2, 3]), ([3, 4], [2, 3]), ([3, 4], [5, 7])
pub struct IntervalPairIterator {
    intervals_1: Vec<Interval>,
    intervals_2: Vec<Interval>,
    index_1: usize,
    index_2: usize,
    finished: bool,
}

impl IntervalPairIterator {
    pub closed spec fn first(&self) -> Seq<Interval> {
        self.intervals_1@
    }

    pub closed spec fn second(&self) -> Seq<Interval> {
        self.intervals_2@
    }

    pub closed spec fn position(&self) -> (int, int) {
        (self.index_1 as int, self.index_2 as int)
    }

    pub closed spec fn is_finished(&self) -> bool {
        self.finished
    }

    pub closed spec fn inv(&self) -> bool {
        !self.finished ==> self.index_1 < self.intervals_1@.len() && self.index_2 < self.intervals_2@.len()
    }

    /// The number of pairs this iterator still yields.
    pub closed spec fn remaining(&self) -> nat {
        if self.finished {
            0
        } else {
            ((self.intervals_1@.len() - self.index_1) + (self.intervals_2@.len() - self.index_2) - 1) as nat
        }
    }

    pub fn new(interval_iter_1: Vec<Interval>, interval_iter_2: Vec<Interval>) -> (res: Self)
        ensures
            res.inv(),
            res.first() == interval_iter_1@,
            res.second() == interval_iter_2@,
            res.position() == (0int, 0int),
            res.is_finished() == (interval_iter_1@.len() == 0 || interval_iter_2@.len() == 0),
    {
        let finished = interval_iter_1.len() == 0 || interval_iter_2.len() == 0;
        IntervalPairIterator {
            intervals_1: interval_iter_1,
            intervals_2: interval_iter_2,
            index_1: 0,
            index_2: 0,
            finished,
        }
    }

    /// Yields the current pair, then advances the list whose current interval has the lowest
    /// maximum, or the other one if the former has no intervals left.
    pub fn next(&mut self) -> (res: Option<(Interval, Interval)>)
        requires
            old(self).inv(),
        ensures
            final(self).inv(),
            final(self).first() == old(self).first(),
            final(self).second() == old(self).second(),
            old(self).is_finished() ==> res is None && final(self).is_finished(),
            !old(self).is_finished() ==> {
                let (i, j) = old(self).position();
                let a = old(self).first()[i];
                let b = old(self).second()[j];
                let n = old(self).first().len();
                let m = old(self).second().len();
                &&& res == Some((a, b))
                &&& if a.max < b.max {
                    if i + 1 < n {
                        final(self).position() == (i + 1, j) && !final(self).is_finished()
                    } else if j + 1 < m {
                        final(self).position() == (i, j + 1) && !final(self).is_finished()
                    } else {
                        final(self).is_finished()
                    }
                } else {
                    if j + 1 < m {
                        final(self).position() == (i, j + 1) && !final(self).is_finished()
                    } else if i + 1 < n {
                        final(self).position() == (i + 1, j) && !final(self).is_finished()
                    } else {
                        final(self).is_finished()
                    }
                }
            },
            final(self).remaining() < old(self).remaining() || old(self).is_finished(),
    {
        if self.finished {
            return None;
        }
        let interval_1 = self.intervals_1[self.index_1];
        let interval_2 = self.intervals_2[self.index_2];
        let n = self.intervals_1.len();
        let m = self.intervals_2.len();

        if interval_1.max < interval_2.max {
            if self.index_1 + 1 < n {
                self.index_1 += 1;
            } else if self.index_2 + 1 < m {
                self.index_2 += 1;
            } else {
                self.finished = true;
            }
        } else {
            if self.index_2 + 1 < m {
                self.index_2 += 1;
            } else if self.index_1 + 1 < n {
                self.index_1 += 1;
            } else {
                self.finished = true;
            }
        }
        Some((interval_1, interval_2))
    }

    /// The pairs that this iterator still yields, in order.
    pub open spec fn pending(&self) -> Seq<(Interval, Interval)> {
        if self.is_finished() {
            Seq::empty()
        } else {
            pairs_from(self.first(), self.second(), self.position().0, self.position().1)
        }
    }

    /// Yields all remaining pairs in order.
    pub fn collect_pairs(self) -> (res: Vec<(Interval, Interval)>)
        requires
            self.inv(),
        ensures
            res@ == self.pending(),
    {
        let ghost all = self.pending();
        let mut iter = self;
        let mut res: Vec<(Interval, Interval)> = Vec::new();
        proof {
            assert(res@ + iter.pending() =~= all);
        }
        loop
            invariant_except_break
                iter.inv(),
                res@ + iter.pending() == all,
            ensures
                res@ == all,
            decreases iter.remaining(),
        {
            let ghost before = iter;
            let ghost done = res@;
            match iter.next() {
                Some(pair) => {
                    res.push(pair);
                    proof {
                        let n = before.first().len() as int;
                        let m = before.second().len() as int;
                        assert(pairs_from(before.first(), before.second(), n, m) == Seq::<(Interval, Interval)>::empty());
                        assert(before.pending() == seq![pair] + iter.pending());
                        assert(res@ + iter.pending() =~= done + before.pending());
                    }
                },
                None => {
                    proof {
                        assert(res@ =~= all);
                    }
                    break;
                },
            }
        }
        res
    }
}

fn copy_intervals(source: &Vec<Interval>) -> (res: Vec<Interval>)
    ensures
        res@ == source@,
{
    let mut res: Vec<Interval> = Vec::new();
    let mut k: usize = 0;
    while k < source.len()
        invariant
            k <= source.len(),
            res@ == source@.take(k as int),
        decreases source.len() - k,
    {
        res.push(source[k]);
        k += 1;
        proof {
            assert(res@ == source@.take(k as int));
        }
    }
    proof {
        assert(source@.take(source@.len() as int) == source@);
    }
    res
}

impl IntervalSet {
    pub fn intersect(&self, other: &IntervalSet) -> (res: IntervalSet)
        requires
            self.well_formed(),
            other.well_formed(),
        ensures
            res.canonical(),
            forall|v: int| res.has(v) <==> (self.has(v) && other.has(v)),
    {
        let ghost first = self.intervals@;
        let ghost second = other.intervals@;
        let mut intervals_out: Vec<Interval> = Vec::new();
        let mut pair_iter = IntervalPairIterator::new(
            copy_intervals(&self.intervals),
            copy_intervals(&other.intervals),
        );

        loop
            invariant
                pair_iter.inv(),
                pair_iter.first() == first,
                pair_iter.second() == second,
                is_ordered(first),
                is_ordered(second),
                forall|i: int| 0 <= i < intervals_out@.len() ==> (#[trigger] intervals_out@[i]).nonempty(),
                forall|v: int| in_intervals(intervals_out@, v) ==> in_intervals(first, v) && in_intervals(second, v),
                pairs_covered(first, second, intervals_out@, pair_iter.position().0, pair_iter.position().1, pair_iter.is_finished()),
            ensures
                pair_iter.is_finished(),
                forall|i: int| 0 <= i < intervals_out@.len() ==> (#[trigger] intervals_out@[i]).nonempty(),
                forall|v: int| in_intervals(intervals_out@, v) ==> in_intervals(first, v) && in_intervals(second, v),
                pairs_covered(first, second, intervals_out@, pair_iter.position().0, pair_iter.position().1, pair_iter.is_finished()),
            decreases pair_iter.remaining(),
        {
            let ghost (i, j) = pair_iter.position();
            let ghost before = intervals_out@;
            match pair_iter.next() {
                Some((interval_1, interval_2)) => {
                    if let Some(intersection) = interval_1.intersect(&interval_2) {
                        intervals_out.push(intersection);
                    }
                    proof {
                        let out = intervals_out@;
                        assert forall|v: int| in_intervals(before, v) implies in_intervals(out, v) by {
                            let k = choose|k: int| 0 <= k < before.len() && #[trigger] before[k].has(v);
                            assert(out[k] == before[k]);
                        }
                        assert forall|v: int| interval_1.has(v) && interval_2.has(v) implies in_intervals(out, v) by {
                            let iv = interval_1.spec_intersect(interval_2).unwrap();
                            assert(out[out.len() - 1] == iv);
                            assert(out[out.len() - 1].has(v));
                        }
                        assert forall|v: int| in_intervals(out, v) implies in_intervals(first, v) && in_intervals(second, v) by {
                            let k = choose|k: int| 0 <= k < out.len() && #[trigger] out[k].has(v);
                            if k < before.len() {
                                assert(before[k].has(v));
                            } else {
                                assert(first[i].has(v));
                                assert(second[j].has(v));
                            }
                        }
                        let (ni, nj) = pair_iter.position();
                        let fin = pair_iter.is_finished();
                        assert forall|v: int, p: int, q: int|
                            0 <= p < first.len() && 0 <= q < second.len() && #[trigger] first[p].has(v) && #[trigger] second[q].has(v)
                            implies in_intervals(out, v) || (!fin && p >= ni && q >= nj) by {
                            if !in_intervals(before, v) {
                                assert(p >= i && q >= j);
                                if p == i && q == j {
                                } else if p == i {
                                    assert(second[j].max < second[q].min);
                                } else if q == j {
                                    assert(first[i].max < first[p].min);
                                }
                            }
                        }
                    }
                },
                None => break,
            }
        }
        proof {
            assert forall|v: int| in_intervals(first, v) && in_intervals(second, v) implies in_intervals(intervals_out@, v) by {
                let p = choose|p: int| 0 <= p < first.len() && #[trigger] first[p].has(v);
                let q = choose|q: int| 0 <= q < second.len() && #[trigger] second[q].has(v);
                assert(first[p].has(v) && second[q].has(v));
            }
        }
        IntervalSet::from_unordered_intervals(intervals_out)
    }

    pub fn union(&self, other: &IntervalSet) -> (res: IntervalSet)
        requires
            self.well_formed(),
            other.well_formed(),
        ensures
            res.canonical(),
            forall|v: int| res.has(v) <==> (self.has(v) || other.has(v)),
    {
        let mut intervals_out: Vec<Interval> = copy_intervals(&self.intervals);
        let mut tail = copy_intervals(&other.intervals);
        intervals_out.append(&mut tail);
        proof {
            let a = self.intervals@;
            let b = other.intervals@;
            let all = intervals_out@;
            assert(all == a + b);
            assert forall|i: int| 0 <= i < all.len() implies (#[trigger] all[i]).nonempty() by {
                if i < a.len() {
                    assert(all[i] == a[i]);
                } else {
                    assert(all[i] == b[i - a.len()]);
                }
            }
            assert forall|v: int| in_intervals(all, v) <==> (in_intervals(a, v) || in_intervals(b, v)) by {
                if in_intervals(all, v) {
                    let k = choose|k: int| 0 <= k < all.len() && #[trigger] all[k].has(v);
                    if k < a.len() {
                        assert(a[k].has(v));
                    } else {
                        assert(b[k - a.len()].has(v));
                    }
                }
                if in_intervals(a, v) {
                    let k = choose|k: int| 0 <= k < a.len() && #[trigger] a[k].has(v);
                    assert(all[k].has(v));
                }
                if in_intervals(b, v) {
                    let k = choose|k: int| 0 <= k < b.len() && #[trigger] b[k].has(v);
                    assert(all[k + a.len()].has(v));
                }
            }
        }
        IntervalSet::from_unordered_intervals(intervals_out)
    }

    /// Returns [i32::MIN, i32::MAX] \ self.
    pub fn complement(&self) -> (res: IntervalSet)
        requires
            self.well_formed(),
        ensures
            res.canonical(),
            forall|v: int| res.has(v) <==> (i32::MIN <= v <= i32::MAX && !self.has(v)),
    {
        let n = self.intervals.len();
        if n == 0 {
            // This is the empty set and the complement is the universe set [i32::MIN, i32::MAX].
            return IntervalSet::from_interval(Interval::new(i32::MIN, i32::MAX));
        }
        let ghost s = self.intervals@;
        let first_interval = self.intervals[0];
        let last_interval = self.intervals[n - 1];

        let mut result: Vec<Interval> = Vec::new();
        if first_interval.min > i32::MIN {
            result.push(Interval::new(i32::MIN, first_interval.min - 1));
        }
        proof {
            assert forall|v: int| in_intervals(result@, v) <==> (i32::MIN <= v <= s[0].max && !in_intervals(s.take(1), v)) by {
                if in_intervals(result@, v) {
                    let k = choose|k: int| 0 <= k < result@.len() && #[trigger] result@[k].has(v);
                    assert(result@[k].has(v));
                    if in_intervals(s.take(1), v) {
                        let t = choose|t: int| 0 <= t < 1 && #[trigger] s.take(1)[t].has(v);
                        assert(s.take(1)[t] == s[0]);
                    }
                }
                if i32::MIN <= v <= s[0].max && !in_intervals(s.take(1), v) {
                    if v >= s[0].min {
                        assert(s.take(1)[0].has(v));
                    }
                    assert(result@[0].has(v));
                }
            }
        }
        let mut k: usize = 0;
        while k + 1 < n
            invariant
                n == s.len(),
                s == self.intervals@,
                n > 0,
                k < n,
                is_ordered(s),
                is_canonical(result@),
                result@.len() > 0 ==> result@.last().max < s[k as int].min,
                forall|v: int| in_intervals(result@, v) <==> (i32::MIN <= v <= s[k as int].max && !in_intervals(s.take(k + 1), v)),
            decreases n - k,
        {
            let interval_a = self.intervals[k];
            let interval_b = self.intervals[k + 1];
            let ghost before = result@;
            proof {
                assert(s[k as int].max < s[k + 1].min);
                assert(s[k + 1].nonempty());
                assert(s[k as int].nonempty());
            }
            let pushed = interval_b.min > interval_a.max + 1;
            if pushed {
                result.push(Interval::new(interval_a.max + 1, interval_b.min - 1));
            }
            proof {
                let gap = Interval { min: (interval_a.max + 1) as i32, max: (interval_b.min - 1) as i32 };
                lemma_in_push(before, gap);
                if pushed {
                    assert(result@ == before.push(gap));
                } else {
                    assert(result@ == before);
                }
                assert(s.take(k + 2) == s.take(k + 1).push(s[k + 1]));
                lemma_in_push(s.take(k + 1), s[k + 1]);
                assert forall|v: int| in_intervals(result@, v) <==> (i32::MIN <= v <= s[k + 1].max && !in_intervals(s.take(k + 2), v)) by {
                    assert(in_intervals(result@, v) <==> (in_intervals(before, v) || (pushed && gap.has(v))));
                    assert(in_intervals(s.take(k + 2), v) <==> (in_intervals(s.take(k + 1), v) || s[k + 1].has(v)));
                    if v > s[k as int].max {
                        assert forall|t: int| 0 <= t < k + 1 implies !(#[trigger] s.take(k + 1)[t]).has(v) by {
                            if t < k {
                                assert(s[t].max < s[k as int].min);
                            }
                        }
                        assert(!in_intervals(s.take(k + 1), v));
                        assert(!in_intervals(before, v));
                    }
                }
                let m = result@;
                assert forall|i: int, j: int| 0 <= i < j < m.len() implies (#[trigger] m[i]).max + 1 < (#[trigger] m[j]).min by {
                    if j == m.len() - 1 && j == before.len() {
                        if i < j - 1 {
                            assert(before[i].max + 1 < before[j - 1].min);
                        }
                    }
                }
            }
            k += 1;
        }
        let ghost mid = result@;
        let pushed_last = last_interval.max < i32::MAX;
        if pushed_last {
            let ghost before = result@;
            result.push(Interval::new(last_interval.max + 1, i32::MAX));
            proof {
                lemma_in_push(before, Interval { min: (last_interval.max + 1) as i32, max: i32::MAX });
                let m = result@;
                assert forall|i: int, j: int| 0 <= i < j < m.len() implies (#[trigger] m[i]).max + 1 < (#[trigger] m[j]).min by {
                    if j == m.len() - 1 && i < j - 1 {
                        assert(before[i].max + 1 < before[j - 1].min);
                    }
                }
            }
        }
        proof {
            assert(s.take(n as int) == s);
            let tail = Interval { min: (last_interval.max + 1) as i32, max: i32::MAX };
            lemma_in_push(mid, tail);
            if pushed_last {
                assert(result@ == mid.push(tail));
            }
            assert forall|v: int| in_intervals(result@, v) <==> (i32::MIN <= v <= i32::MAX && !in_intervals(s, v)) by {
                assert(in_intervals(result@, v) <==> (in_intervals(mid, v) || (pushed_last && tail.has(v))));
                if v > s[n - 1].max {
                    assert forall|t: int| 0 <= t < n implies !(#[trigger] s[t]).has(v) by {
                        if t < n - 1 {
                            assert(s[t].max < s[n - 1].min);
                        }
                    }
                    assert(!in_intervals(s, v));
                    assert(!in_intervals(mid, v));
                }
            }
        }
        IntervalSet { intervals: result }
    }

    /// In mathematical notation, computes self \ other.
    pub fn setminus(&self, other: &IntervalSet) -> (res: IntervalSet)
        requires
            self.well_formed(),
            other.well_formed(),
        ensures
            res.canonical(),
            forall|v: int| res.has(v) <==> (self.has(v) && !other.has(v)),
    {
        let complement = other.complement();
        let res = self.intersect(&complement);
        proof {
            assert forall|v: int| self.has(v) implies i32::MIN <= v <= i32::MAX by {
                let k = choose|k: int| 0 <= k < self.intervals@.len() && #[trigger] self.intervals@[k].has(v);
                assert(self.intervals@[k].has(v));
            }
        }
        res
    }
}

/// `outputs[i]` is a list of intervals that `function` may return for `inputs[i]`.
pub open spec fn produced_by<F: Fn(Interval) -> Vec<Interval>>(
    inputs: Seq<Interval>,
    function: F,
    outputs: Seq<Seq<Interval>>,
) -> bool {
    &&& outputs.len() == inputs.len()
    &&& forall|i: int| 0 <= i < outputs.len()
        ==> exists|out: Vec<Interval>| out@ == #[trigger] outputs[i] && function.ensures((inputs[i],), out)
}

impl IntervalSet {
    /// Applies a function to each interval in this set. That function may return zero or more intervals.
    /// Returns the set that is the union of all returned intervals.
    pub fn map<F: Fn(Interval) -> Vec<Interval>>(&self, function: F) -> (res: IntervalSet)
        requires
            forall|i: int| 0 <= i < self.intervals@.len() ==> function.requires((#[trigger] self.intervals@[i],)),
            forall|iv: Interval, out: Vec<Interval>, k: int| #[trigger] function.ensures((iv,), out) && 0 <= k < out@.len()
                ==> (#[trigger] out@[k]).nonempty(),
        ensures
            res.canonical(),
            exists|outputs: Seq<Seq<Interval>>| {
                &&& #[trigger] produced_by(self.intervals@, function, outputs)
                &&& forall|v: int| res.has(v) <==> exists|i: int| 0 <= i < outputs.len() && in_intervals(#[trigger] outputs[i], v)
            },
    {
        let mut all: Vec<Interval> = Vec::new();
        let ghost mut outputs: Seq<Seq<Interval>> = Seq::empty();
        let mut k: usize = 0;
        while k < self.intervals.len()
            invariant
                k <= self.intervals@.len(),
                outputs.len() == k,
                forall|i: int| 0 <= i < self.intervals@.len() ==> function.requires((#[trigger] self.intervals@[i],)),
                forall|iv: Interval, out: Vec<Interval>, t: int| #[trigger] function.ensures((iv,), out) && 0 <= t < out@.len()
                    ==> (#[trigger] out@[t]).nonempty(),
                produced_by(self.intervals@.take(k as int), function, outputs),
                forall|t: int| 0 <= t < all@.len() ==> (#[trigger] all@[t]).nonempty(),
                forall|v: int| in_intervals(all@, v) <==> exists|i: int| 0 <= i < outputs.len() && in_intervals(#[trigger] outputs[i], v),
            decreases self.intervals@.len() - k,
        {
            let mut produced = function(self.intervals[k]);
            let ghost produced_view = produced@;
            let ghost produced_value = produced;
            let ghost before = all@;
            let ghost old_outputs = outputs;
            proof {
                outputs = outputs.push(produced_view);
                assert(outputs[k as int] == produced_view);
            }
            all.append(&mut produced);
            proof {
                let inputs = self.intervals@.take(k as int + 1);
                assert forall|i: int| 0 <= i < outputs.len()
                    implies exists|out: Vec<Interval>| out@ == #[trigger] outputs[i] && function.ensures((inputs[i],), out) by {
                    if i < k {
                        assert(outputs[i] == old_outputs[i]);
                        assert(inputs[i] == self.intervals@.take(k as int)[i]);
                    } else {
                        assert(produced_value@ == outputs[i]);
                        assert(function.ensures((inputs[i],), produced_value));
                    }
                }
                assert(produced_by(inputs, function, outputs));
                let now = all@;
                assert(now == before + produced_view);
                assert forall|t: int| 0 <= t < now.len() implies (#[trigger] now[t]).nonempty() by {
                    if t < before.len() {
                        assert(now[t] == before[t]);
                    } else {
                        assert(now[t] == produced_view[t - before.len()]);
                    }
                }
                assert forall|v: int| in_intervals(now, v) <==> exists|i: int| 0 <= i < outputs.len() && in_intervals(#[trigger] outputs[i], v) by {
                    if in_intervals(now, v) {
                        let t = choose|t: int| 0 <= t < now.len() && #[trigger] now[t].has(v);
                        if t < before.len() {
                            assert(now[t] == before[t]);
                            assert(before[t].has(v));
                            assert(in_intervals(before, v));
                            assert(exists|i: int| 0 <= i < old_outputs.len() && in_intervals(#[trigger] old_outputs[i], v));
                            let i = choose|i: int| 0 <= i < old_outputs.len() && in_intervals(#[trigger] old_outputs[i], v);
                            assert(outputs[i] == old_outputs[i]);
                        } else {
                            assert(produced_view[t - before.len()].has(v));
                            assert(in_intervals(outputs[k as int], v));
                        }
                    }
                    if exists|i: int| 0 <= i < outputs.len() && in_intervals(#[trigger] outputs[i], v) {
                        let i = choose|i: int| 0 <= i < outputs.len() && in_intervals(#[trigger] outputs[i], v);
                        if i < k {
                            assert(outputs[i] == old_outputs[i]);
                            assert(in_intervals(before, v));
                            let t = choose|t: int| 0 <= t < before.len() && #[trigger] before[t].has(v);
                            assert(now[t].has(v));
                        } else {
                            let t = choose|t: int| 0 <= t < produced_view.len() && #[trigger] produced_view[t].has(v);
                            assert(now[t + before.len()].has(v));
                        }
                    }
                }
            }
            k += 1;
        }
        let res = IntervalSet::from_unordered_intervals(all);
        proof {
            assert(self.intervals@.take(self.intervals@.len() as int) == self.intervals@);
        }
        res
    }
}

/// Returns true if x and y differ by exactly one.
pub fn is_adjacent(x: i32, y: i32) -> (res: bool)
    ensures
        res == (x - y == 1 || y - x == 1),
{
    if x < y {
        y == x + 1
    } else if y < x {
        x == y + 1
    } else {
        false
    }
}

} // verus!
