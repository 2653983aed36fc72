//! Capabilities: which events a device can produce or accept, and what their values can be.

use vstd::prelude::*;

use crate::domain::Domain;
use crate::ecodes::{REP_DELAY, REP_PERIOD};
use crate::event::{EventCode, EventType, EventValue, Namespace, EV_KEY, EV_REP, EV_SYN};
use crate::key::spec_bound;
use crate::range::{spec_max, spec_min, Interval};

verus! {

/// Whether a capability matches some test: surely, surely not, or depending on the event.
/// The variants are in ascending order: No < Maybe < Yes.
#[derive(Clone, Copy, PartialEq, Eq, Debug, Hash, PartialOrd, Ord, Structural)]
pub enum CapMatch {
    No,
    Maybe,
    Yes,
}

impl CapMatch {
    /// Yes ranks highest, then Maybe, then No.
    pub open spec fn rank(self) -> int {
        match self {
            CapMatch::Yes => 2,
            CapMatch::Maybe => 1,
            CapMatch::No => 0,
        }
    }

    /// The lower of the two.
    pub open spec fn spec_min_with(self, other: CapMatch) -> CapMatch {
        if self.rank() <= other.rank() {
            self
        } else {
            other
        }
    }

    /// The lower of the two.
    pub fn min_with(self, other: CapMatch) -> (res: CapMatch)
        ensures
            res == self.spec_min_with(other),
            res.rank() == spec_min(self.rank(), other.rank()),
    {
        match (self, other) {
            (CapMatch::No, _) | (_, CapMatch::No) => CapMatch::No,
            (CapMatch::Maybe, _) | (_, CapMatch::Maybe) => CapMatch::Maybe,
            _ => CapMatch::Yes,
        }
    }
}

impl From<bool> for CapMatch {
    fn from(src: bool) -> (res: CapMatch) {
        if src {
            CapMatch::Yes
        } else {
            CapMatch::No
        }
    }
}

impl vstd::std_specs::convert::FromSpecImpl<bool> for CapMatch {
    open spec fn obeys_from_spec() -> bool {
        true
    }

    open spec fn from_spec(src: bool) -> CapMatch {
        if src {
            CapMatch::Yes
        } else {
            CapMatch::No
        }
    }
}

/// Represents the value related to EV_REP.
#[derive(Clone, Copy, PartialEq, Eq, Hash, Debug, Structural)]
pub struct RepeatInfo {
    /// REP_DELAY
    pub delay: EventValue,
    /// REP_PERIOD
    pub period: EventValue,
}

impl RepeatInfo {
    /// The kernel is ultimately going to ignore our choice of repeat info anyway, but we like
    /// to keep track of the real values in case the kernel gets fixed sometime. In case we don't
    /// have access to real values, this tells us what the kernel defaults are.
    pub fn kernel_default() -> (res: RepeatInfo)
        ensures
            res == (RepeatInfo { delay: 250, period: 33 }),
    {
        RepeatInfo { delay: 250, period: 33 }
    }
}

#[derive(Clone, Copy, PartialEq, Eq, Hash, Debug, Structural)]
pub struct AbsMeta {
    pub fuzz: i32,
    pub flat: i32,
    pub resolution: i32,
    pub value: i32,
}

#[derive(Clone, Copy, PartialEq, Eq, Hash, Debug, Structural)]
pub struct AbsInfo {
    pub min_value: EventValue,
    pub max_value: EventValue,
    pub meta: AbsMeta,
}

/// Two axes are alike up to their current value.
pub open spec fn equivalent_axes(a: AbsInfo, b: AbsInfo) -> bool {
    &&& a.min_value == b.min_value
    &&& a.max_value == b.max_value
    &&& a.meta.fuzz == b.meta.fuzz
    &&& a.meta.flat == b.meta.flat
    &&& a.meta.resolution == b.meta.resolution
}

impl AbsInfo {
    /// Tells you whether this AbsInfo is equal to the other AbsInfo up to the current value.
    pub fn is_equivalent_to(self, other: AbsInfo) -> (res: bool)
        ensures
            res == equivalent_axes(self, other),
    {
        self.min_value == other.min_value && self.max_value == other.max_value
            && self.meta.fuzz == other.meta.fuzz && self.meta.flat == other.meta.flat
            && self.meta.resolution == other.meta.resolution
    }
}

/// The order of event codes: by type, then by code.
pub open spec fn code_lt(a: EventCode, b: EventCode) -> bool {
    a.ev_type.value < b.ev_type.value || (a.ev_type.value == b.ev_type.value && a.code < b.code)
}

fn code_less(a: EventCode, b: EventCode) -> (res: bool)
    ensures
        res == code_lt(a, b),
{
    a.ev_type.value < b.ev_type.value || (a.ev_type.value == b.ev_type.value && a.code < b.code)
}

/// Codes in strictly ascending order, so each at most once.
pub open spec fn sorted_codes(s: Seq<EventCode>) -> bool {
    forall|i: int, j: int| 0 <= i < j < s.len() ==> code_lt(#[trigger] s[i], #[trigger] s[j])
}

pub open spec fn abs_keys(s: Seq<(EventCode, AbsInfo)>) -> Seq<EventCode> {
    s.map_values(|p: (EventCode, AbsInfo)| p.0)
}

/// The information of an axis in a list of axes, if it is there.
pub open spec fn abs_get(s: Seq<(EventCode, AbsInfo)>, code: EventCode) -> Option<AbsInfo> {
    if exists|i: int| 0 <= i < s.len() && (#[trigger] s[i]).0 == code {
        Some(s[choose|i: int| 0 <= i < s.len() && (#[trigger] s[i]).0 == code].1)
    } else {
        None
    }
}

proof fn lemma_sorted_unique(s: Seq<EventCode>, i: int, j: int)
    requires
        sorted_codes(s),
        0 <= i < s.len(),
        0 <= j < s.len(),
        s[i] == s[j],
    ensures
        i == j,
{
    if i < j {
        assert(code_lt(s[i], s[j]));
    } else if j < i {
        assert(code_lt(s[j], s[i]));
    }
}

proof fn lemma_abs_get_at(s: Seq<(EventCode, AbsInfo)>, i: int)
    requires
        sorted_codes(abs_keys(s)),
        0 <= i < s.len(),
    ensures
        abs_get(s, s[i].0) == Some(s[i].1),
{
    let k = choose|k: int| 0 <= k < s.len() && (#[trigger] s[k]).0 == s[i].0;
    assert(abs_keys(s)[k] == s[k].0 && abs_keys(s)[i] == s[i].0);
    lemma_sorted_unique(abs_keys(s), i, k);
}

/// Two strictly sorted lists with the same elements are the same list.
proof fn lemma_sorted_same_elements(a: Seq<EventCode>, b: Seq<EventCode>)
    requires
        sorted_codes(a),
        sorted_codes(b),
        forall|x: EventCode| a.contains(x) <==> b.contains(x),
    ensures
        a == b,
    decreases a.len(),
{
    if a.len() == 0 {
        if b.len() > 0 {
            assert(b.contains(b[0]));
        }
        assert(a =~= b);
    } else {
        assert(a.contains(a[0]));
        let j = choose|j: int| 0 <= j < b.len() && b[j] == a[0];
        assert(b.contains(b[0]));
        let i = choose|i: int| 0 <= i < a.len() && a[i] == b[0];
        if j > 0 {
            assert(code_lt(b[0], b[j]));
            if i > 0 {
                assert(code_lt(a[0], a[i]));
            }
            assert(false);
        }
        let ta = a.drop_first();
        let tb = b.drop_first();
        assert forall|i2: int, j2: int| 0 <= i2 < j2 < ta.len() implies code_lt(#[trigger] ta[i2], #[trigger] ta[j2]) by {
            assert(ta[i2] == a[i2 + 1] && ta[j2] == a[j2 + 1]);
        }
        assert forall|i2: int, j2: int| 0 <= i2 < j2 < tb.len() implies code_lt(#[trigger] tb[i2], #[trigger] tb[j2]) by {
            assert(tb[i2] == b[i2 + 1] && tb[j2] == b[j2 + 1]);
        }
        assert forall|x: EventCode| ta.contains(x) <==> tb.contains(x) by {
            if ta.contains(x) {
                let k = choose|k: int| 0 <= k < ta.len() && ta[k] == x;
                assert(a[k + 1] == x);
                assert(code_lt(a[0], a[k + 1]));
                assert(b.contains(x));
                let m = choose|m: int| 0 <= m < b.len() && b[m] == x;
                if m == 0 {
                    assert(false);
                }
                assert(tb[m - 1] == x);
            }
            if tb.contains(x) {
                let k = choose|k: int| 0 <= k < tb.len() && tb[k] == x;
                assert(b[k + 1] == x);
                assert(code_lt(b[0], b[k + 1]));
                assert(a.contains(x));
                let m = choose|m: int| 0 <= m < a.len() && a[m] == x;
                if m == 0 {
                    assert(false);
                }
                assert(ta[m - 1] == x);
            }
        }
        lemma_sorted_same_elements(ta, tb);
        assert(a =~= seq![a[0]] + ta);
        assert(b =~= seq![b[0]] + tb);
    }
}

/// All pairs of (type, code) that a device supports, with the additional information on
/// its absolute axes and on key repetition.
#[derive(Clone, PartialEq, Eq, Debug)]
pub struct Capabilities {
    /// All pairs of (type, code) supported by a device, in ascending order.
    codes: Vec<EventCode>,
    /// Additional information for the EV_ABS event types, in ascending order of code.
    abs_info: Vec<(EventCode, AbsInfo)>,
    /// Additional information about the repeat events that happen on EV_KEY, associated with EV_REP.
    rep_info: Option<RepeatInfo>,
}

impl Capabilities {
    pub closed spec fn well_formed(&self) -> bool {
        &&& sorted_codes(self.codes@)
        &&& sorted_codes(abs_keys(self.abs_info@))
    }

    /// The codes, in ascending order.
    pub closed spec fn code_seq(&self) -> Seq<EventCode> {
        self.codes@
    }

    /// The axes with their information, in ascending order of code.
    pub closed spec fn abs_seq(&self) -> Seq<(EventCode, AbsInfo)> {
        self.abs_info@
    }

    pub closed spec fn rep_spec(&self) -> Option<RepeatInfo> {
        self.rep_info
    }

    pub open spec fn has_code(&self, code: EventCode) -> bool {
        self.code_seq().contains(code)
    }

    pub open spec fn axis(&self, code: EventCode) -> Option<AbsInfo> {
        abs_get(self.abs_seq(), code)
    }

    pub proof fn lemma_well_formed(&self)
        requires
            self.well_formed(),
        ensures
            sorted_codes(self.code_seq()),
            sorted_codes(abs_keys(self.abs_seq())),
    {
    }

    pub fn new() -> (res: Capabilities)
        ensures
            res.well_formed(),
            res.code_seq() == Seq::<EventCode>::empty(),
            res.abs_seq() == Seq::<(EventCode, AbsInfo)>::empty(),
            res.rep_spec() is None,
    {
        let res = Capabilities { codes: Vec::new(), abs_info: Vec::new(), rep_info: None };
        proof {
            assert(abs_keys(res.abs_info@) =~= Seq::<EventCode>::empty());
        }
        res
    }

    /// The codes, in ascending order.
    pub fn codes(&self) -> (res: &Vec<EventCode>)
        ensures
            res@ == self.code_seq(),
    {
        &self.codes
    }

    /// The absolute axes, in ascending order of code.
    pub fn abs_info(&self) -> (res: &Vec<(EventCode, AbsInfo)>)
        ensures
            res@ == self.abs_seq(),
    {
        &self.abs_info
    }

    pub fn rep_info(&self) -> (res: Option<RepeatInfo>)
        ensures
            res == self.rep_spec(),
    {
        self.rep_info
    }

    pub fn is_empty(&self) -> (res: bool)
        ensures
            res == (self.code_seq().len() == 0),
    {
        self.codes.len() == 0
    }

    /// Returns true if this Capabilities is not capable of any non-trivial event codes, where
    /// events such as EV_SYN or EV_REP are deemed trivial.
    pub fn has_no_content(&self) -> (res: bool)
        ensures
            res == forall|i: int| 0 <= i < self.code_seq().len()
                ==> (#[trigger] self.code_seq()[i]).ev_type.value == EV_SYN || self.code_seq()[i].ev_type.value == EV_REP,
    {
        let mut i: usize = 0;
        while i < self.codes.len()
            invariant
                i <= self.codes@.len(),
                forall|k: int| 0 <= k < i
                    ==> (#[trigger] self.codes@[k]).ev_type.value == EV_SYN || self.codes@[k].ev_type.value == EV_REP,
            decreases self.codes@.len() - i,
        {
            let t = self.codes[i].ev_type.value;
            if t != EV_SYN && t != EV_REP {
                proof {
                    assert(self.code_seq()[i as int] == self.codes@[i as int]);
                }
                return false;
            }
            i += 1;
        }
        true
    }
}

/// The ability to produce events of one code, in one domain and namespace, with values in a range.
#[derive(Clone, Copy, PartialEq, Eq, Hash, Debug, Structural)]
pub struct Capability {
    pub code: EventCode,
    pub domain: Domain,
    pub namespace: Namespace,
    pub value_range: Interval,
    pub abs_meta: Option<AbsMeta>,
}

impl Capability {
    /// Returns a copy of self with an universal value range, and the original range.
    pub fn split_value(self) -> (res: (Capability, Interval))
        ensures
            res.0 == (Capability { value_range: Interval { min: i32::MIN, max: i32::MAX }, ..self }),
            res.1 == self.value_range,
    {
        let mut cap = self;
        let value = cap.value_range;
        cap.value_range = Interval::new(None, None);
        (cap, value)
    }

    pub open spec fn with_value_spec(self, range: Interval) -> Capability {
        Capability { value_range: range, ..self }
    }

    /// Returns a copy of self with the given value range.
    pub fn with_value(self, range: Interval) -> (res: Capability)
        ensures
            res == self.with_value_spec(range),
    {
        let mut cap = self;
        cap.value_range = range;
        cap
    }
}

/// Inserting an element adds exactly that element to those the sequence contains.
pub proof fn lemma_insert_contains<A>(s: Seq<A>, i: int, x: A)
    requires
        0 <= i <= s.len(),
    ensures
        forall|y: A| #[trigger] s.insert(i, x).contains(y) <==> (s.contains(y) || y == x),
{
    let q = s.insert(i, x);
    assert forall|y: A| #[trigger] q.contains(y) <==> (s.contains(y) || y == x) by {
        if q.contains(y) {
            let k = choose|k: int| 0 <= k < q.len() && q[k] == y;
            if k < i {
                assert(s[k] == y);
            } else if k > i {
                assert(s[k - 1] == y);
            }
        }
        if s.contains(y) {
            let k = choose|k: int| 0 <= k < s.len() && s[k] == y;
            if k < i {
                assert(q[k] == y);
            } else {
                assert(q[k + 1] == y);
            }
        }
        if y == x {
            assert(q[i] == y);
        }
    }
}

/// Inserts a code into a list in ascending order, unless it is already there.
fn insert_code(list: &mut Vec<EventCode>, code: EventCode)
    requires
        sorted_codes(old(list)@),
    ensures
        sorted_codes(final(list)@),
        forall|x: EventCode| final(list)@.contains(x) <==> (old(list)@.contains(x) || x == code),
{
    let mut i: usize = 0;
    while i < list.len() && code_less(list[i], code)
        invariant
            i <= list@.len(),
            *list == *old(list),
            forall|k: int| 0 <= k < i ==> code_lt(#[trigger] list@[k], code),
        decreases list@.len() - i,
    {
        i += 1;
    }
    if i < list.len() && list[i] == code {
        proof {
            assert(list@[i as int] == code);
        }
        return;
    }
    let ghost before = list@;
    assert(before == old(list)@);
    list.insert(i, code);
    proof {
        assert(i < before.len() ==> code_lt(code, before[i as int]));
        lemma_insert_contains(before, i as int, code);
        assert(list@ == before.insert(i as int, code));
        assert forall|a: int, b: int| 0 <= a < b < list@.len() implies code_lt(#[trigger] list@[a], #[trigger] list@[b]) by {
            if b < i {
                assert(list@[a] == before[a] && list@[b] == before[b]);
            } else if b == i {
                assert(list@[a] == before[a]);
            } else if a < i {
                assert(list@[a] == before[a] && list@[b] == before[b - 1]);
                assert(code_lt(before[a], code));
                assert(b - 1 == i || code_lt(before[i as int], before[b - 1]));
            } else if a == i {
                assert(list@[b] == before[b - 1]);
                assert(b - 1 == i || code_lt(before[i as int], before[b - 1]));
            } else {
                assert(list@[a] == before[a - 1] && list@[b] == before[b - 1]);
            }
        }
    }
}

/// Removes a code from a list in ascending order.
fn remove_code(list: &mut Vec<EventCode>, code: EventCode)
    requires
        sorted_codes(old(list)@),
    ensures
        sorted_codes(final(list)@),
        forall|x: EventCode| final(list)@.contains(x) <==> (old(list)@.contains(x) && x != code),
{
    let mut i: usize = 0;
    while i < list.len()
        invariant
            i <= list@.len(),
            *list == *old(list),
            sorted_codes(old(list)@),
            forall|k: int| 0 <= k < i ==> list@[k] != code,
        decreases list@.len() - i,
    {
        if list[i] == code {
            let ghost before = list@;
            list.remove(i);
            proof {
                assert forall|x: EventCode| list@.contains(x) <==> (before.contains(x) && x != code) by {
                    if list@.contains(x) {
                        let k = choose|k: int| 0 <= k < list@.len() && list@[k] == x;
                        if k < i {
                            assert(before[k] == x);
                        } else {
                            assert(before[k + 1] == x);
                            if x == code {
                                lemma_sorted_unique(before, k + 1, i as int);
                            }
                        }
                    }
                    if before.contains(x) && x != code {
                        let k = choose|k: int| 0 <= k < before.len() && before[k] == x;
                        if k < i {
                            assert(list@[k] == x);
                        } else {
                            assert(k != i);
                            assert(list@[k - 1] == x);
                        }
                    }
                }
                assert forall|a: int, b: int| 0 <= a < b < list@.len() implies code_lt(#[trigger] list@[a], #[trigger] list@[b]) by {
                    if b < i {
                        assert(list@[a] == before[a] && list@[b] == before[b]);
                    } else if a < i {
                        assert(list@[a] == before[a] && list@[b] == before[b + 1]);
                    } else {
                        assert(list@[a] == before[a + 1] && list@[b] == before[b + 1]);
                    }
                }
            }
            return;
        }
        i += 1;
    }
}

/// Looks up the information of an axis.
fn get_abs(list: &Vec<(EventCode, AbsInfo)>, code: EventCode) -> (res: Option<AbsInfo>)
    requires
        sorted_codes(abs_keys(list@)),
    ensures
        res == abs_get(list@, code),
{
    let mut i: usize = 0;
    while i < list.len()
        invariant
            i <= list@.len(),
            sorted_codes(abs_keys(list@)),
            forall|k: int| 0 <= k < i ==> (#[trigger] list@[k]).0 != code,
        decreases list@.len() - i,
    {
        if list[i].0 == code {
            proof {
                lemma_abs_get_at(list@, i as int);
            }
            return Some(list[i].1);
        }
        i += 1;
    }
    None
}

/// Sets the information of an axis, adding the axis if it is not there yet.
fn upsert_abs(list: &mut Vec<(EventCode, AbsInfo)>, code: EventCode, info: AbsInfo)
    requires
        sorted_codes(abs_keys(old(list)@)),
    ensures
        sorted_codes(abs_keys(final(list)@)),
        forall|c: EventCode| abs_get(final(list)@, c) == if c == code { Some(info) } else { abs_get(old(list)@, c) },
{
    let mut i: usize = 0;
    while i < list.len() && code_less(list[i].0, code)
        invariant
            i <= list@.len(),
            forall|k: int| 0 <= k < i ==> code_lt((#[trigger] list@[k]).0, code),
        decreases list@.len() - i,
    {
        i += 1;
    }
    let ghost before = list@;
    let ghost kb = abs_keys(before);
    if i < list.len() && list[i].0 == code {
        list.set(i, (code, info));
        proof {
            let ka = abs_keys(list@);
            assert forall|a: int, b: int| 0 <= a < b < ka.len() implies code_lt(#[trigger] ka[a], #[trigger] ka[b]) by {
                assert(ka[a] == kb[a] && ka[b] == kb[b]);
            }
            assert forall|c: EventCode| abs_get(list@, c) == if c == code { Some(info) } else { abs_get(before, c) } by {
                if c == code {
                    lemma_abs_get_at(list@, i as int);
                } else if exists|k: int| 0 <= k < before.len() && (#[trigger] before[k]).0 == c {
                    let k = choose|k: int| 0 <= k < before.len() && (#[trigger] before[k]).0 == c;
                    lemma_abs_get_at(before, k);
                    assert(list@[k] == before[k]);
                    lemma_abs_get_at(list@, k);
                } else {
                    assert forall|k: int| 0 <= k < list@.len() implies (#[trigger] list@[k]).0 != c by {
                        if k != i {
                            assert(list@[k] == before[k]);
                        }
                    }
                }
            }
        }
    } else {
        list.insert(i, (code, info));
        proof {
            let ka = abs_keys(list@);
            assert(i < before.len() ==> code_lt(code, kb[i as int]));
            assert forall|a: int, b: int| 0 <= a < b < ka.len() implies code_lt(#[trigger] ka[a], #[trigger] ka[b]) by {
                if b < i {
                    assert(ka[a] == kb[a] && ka[b] == kb[b]);
                } else if b == i {
                    assert(ka[a] == kb[a]);
                    assert(code_lt(before[a].0, code));
                } else if a < i {
                    assert(ka[a] == kb[a] && ka[b] == kb[b - 1]);
                    assert(code_lt(before[a].0, code));
                    assert(b - 1 == i || code_lt(kb[i as int], kb[b - 1]));
                } else if a == i {
                    assert(ka[b] == kb[b - 1]);
                    assert(b - 1 == i || code_lt(kb[i as int], kb[b - 1]));
                } else {
                    assert(ka[a] == kb[a - 1] && ka[b] == kb[b - 1]);
                }
            }
            assert forall|c: EventCode| abs_get(list@, c) == if c == code { Some(info) } else { abs_get(before, c) } by {
                if c == code {
                    lemma_abs_get_at(list@, i as int);
                } else if exists|k: int| 0 <= k < before.len() && (#[trigger] before[k]).0 == c {
                    let k = choose|k: int| 0 <= k < before.len() && (#[trigger] before[k]).0 == c;
                    lemma_abs_get_at(before, k);
                    if k < i {
                        assert(list@[k] == before[k]);
                        lemma_abs_get_at(list@, k);
                    } else {
                        assert(list@[k + 1] == before[k]);
                        lemma_abs_get_at(list@, k + 1);
                    }
                } else {
                    assert forall|k: int| 0 <= k < list@.len() implies (#[trigger] list@[k]).0 != c by {
                        if k < i {
                            assert(list@[k] == before[k]);
                        } else if k > i {
                            assert(list@[k] == before[k - 1]);
                        }
                    }
                }
            }
        }
    }
}

pub open spec fn default_meta() -> AbsMeta {
    AbsMeta { flat: 0, fuzz: 0, resolution: 0, value: 0 }
}

/// The information of an axis after a capability on it is added: the ranges are merged, the
/// smaller flat and fuzz and the larger resolution are kept, and the value is that of the
/// capability, moved into the merged range.
pub open spec fn merged_axis(existing: Option<AbsInfo>, cap: Capability) -> AbsInfo {
    let meta = match cap.abs_meta {
        Some(m) => m,
        None => default_meta(),
    };
    let (current_range, current_meta) = match existing {
        Some(info) => (Interval { min: info.min_value, max: info.max_value }, info.meta),
        None => (cap.value_range, meta),
    };
    let new_range = Interval {
        min: spec_min(current_range.min as int, cap.value_range.min as int) as i32,
        max: spec_max(current_range.max as int, cap.value_range.max as int) as i32,
    };
    AbsInfo {
        min_value: new_range.min,
        max_value: new_range.max,
        meta: AbsMeta {
            flat: spec_min(current_meta.flat as int, meta.flat as int) as i32,
            fuzz: spec_min(current_meta.fuzz as int, meta.fuzz as int) as i32,
            resolution: spec_max(current_meta.resolution as int, meta.resolution as int) as i32,
            value: spec_bound(new_range, meta.value),
        },
    }
}

/// Merging a capability into an axis gives the smallest range that holds both the range that the
/// axis had, if any, and the value range of the capability.
pub proof fn lemma_merged_axis_hull(existing: Option<AbsInfo>, cap: Capability)
    ensures
        ({
            let merged = merged_axis(existing, cap);
            &&& merged.min_value <= cap.value_range.min
            &&& merged.max_value >= cap.value_range.max
            &&& existing matches Some(info) ==> merged.min_value <= info.min_value && merged.max_value >= info.max_value
            &&& (merged.min_value == cap.value_range.min || (existing matches Some(info) && merged.min_value == info.min_value))
            &&& (merged.max_value == cap.value_range.max || (existing matches Some(info) && merged.max_value == info.max_value))
        }),
{
}

/// The capability that a device has for one of its codes.
pub open spec fn cap_of_code(code: EventCode, axis: Option<AbsInfo>, domain: Domain, namespace: Namespace) -> Capability {
    match axis {
        Some(info) => Capability {
            code,
            domain,
            namespace,
            value_range: Interval { min: info.min_value, max: info.max_value },
            abs_meta: Some(info.meta),
        },
        None => Capability {
            code,
            domain,
            namespace,
            value_range: if code.ev_type.value == EV_KEY {
                Interval { min: 0, max: 2 }
            } else {
                Interval { min: i32::MIN, max: i32::MAX }
            },
            abs_meta: None,
        },
    }
}

/// The capabilities of a device for all codes but those of EV_REP, which says that the kernel
/// repeats keys rather than that events can happen.
pub open spec fn caps_of_codes(
    codes: Seq<EventCode>,
    abs: Seq<(EventCode, AbsInfo)>,
    domain: Domain,
    namespace: Namespace,
) -> Seq<Capability>
    decreases codes.len(),
{
    if codes.len() == 0 {
        Seq::empty()
    } else {
        let rest = caps_of_codes(codes.drop_last(), abs, domain, namespace);
        let code = codes.last();
        if code.ev_type.value == EV_REP {
            rest
        } else {
            rest.push(cap_of_code(code, abs_get(abs, code), domain, namespace))
        }
    }
}

/// The types of codes in ascending order, each once, for codes in ascending order.
pub open spec fn type_list(codes: Seq<EventCode>) -> Seq<EventType>
    decreases codes.len(),
{
    if codes.len() == 0 {
        Seq::empty()
    } else {
        let rest = type_list(codes.drop_last());
        if rest.len() > 0 && rest.last() == codes.last().ev_type {
            rest
        } else {
            rest.push(codes.last().ev_type)
        }
    }
}

/// The codes of one type, in order.
pub open spec fn codes_of_type(codes: Seq<EventCode>, t: EventType) -> Seq<EventCode>
    decreases codes.len(),
{
    if codes.len() == 0 {
        Seq::empty()
    } else {
        let rest = codes_of_type(codes.drop_last(), t);
        if codes.last().ev_type == t {
            rest.push(codes.last())
        } else {
            rest
        }
    }
}

pub open spec fn rep_codes() -> Seq<EventCode> {
    seq![
        EventCode { ev_type: EventType { value: EV_REP }, code: REP_DELAY },
        EventCode { ev_type: EventType { value: EV_REP }, code: REP_PERIOD },
    ]
}

impl Capabilities {
    pub fn to_vec_from_domain_and_namespace(&self, domain: Domain, namespace: Namespace) -> (res: Vec<Capability>)
        requires
            self.well_formed(),
        ensures
            res@ == caps_of_codes(self.code_seq(), self.abs_seq(), domain, namespace),
    {
        let mut res: Vec<Capability> = Vec::new();
        let mut i: usize = 0;
        while i < self.codes.len()
            invariant
                i <= self.codes@.len(),
                self.well_formed(),
                res@ == caps_of_codes(self.codes@.take(i as int), self.abs_info@, domain, namespace),
            decreases self.codes@.len() - i,
        {
            let code = self.codes[i];
            proof {
                assert(self.codes@.take(i + 1).drop_last() == self.codes@.take(i as int));
                assert(self.codes@.take(i + 1).last() == code);
            }
            if !code.ev_type.is_rep() {
                let axis = get_abs(&self.abs_info, code);
                let cap = match axis {
                    Some(info) => Capability {
                        code,
                        domain,
                        namespace,
                        value_range: Interval::new(info.min_value, info.max_value),
                        abs_meta: Some(info.meta),
                    },
                    None => Capability {
                        code,
                        domain,
                        namespace,
                        value_range: if code.ev_type.is_key() { Interval::new(0, 2) } else { Interval::new(None, None) },
                        abs_meta: None,
                    },
                };
                res.push(cap);
            }
            i += 1;
        }
        proof {
            assert(self.codes@.take(self.codes@.len() as int) == self.codes@);
        }
        res
    }

    pub fn add_capability(&mut self, cap: Capability)
        requires
            old(self).well_formed(),
        ensures
            final(self).well_formed(),
            forall|c: EventCode| final(self).has_code(c) <==> (old(self).has_code(c) || c == cap.code),
            cap.code.ev_type.value == crate::event::EV_ABS ==> forall|c: EventCode| final(self).axis(c)
                == if c == cap.code { Some(merged_axis(old(self).axis(cap.code), cap)) } else { old(self).axis(c) },
            cap.code.ev_type.value != crate::event::EV_ABS ==> final(self).abs_seq() == old(self).abs_seq(),
            final(self).rep_spec() == old(self).rep_spec(),
    {
        insert_code(&mut self.codes, cap.code);
        // For events of type EV_ABS, an accompanying AbsInfo is required.
        if cap.code.ev_type.is_abs() {
            // Lacking abs_meta, e.g. when some non-abs event got mapped to an abs-event, the
            // sanest default is used.
            let meta = match cap.abs_meta {
                Some(meta) => meta,
                None => AbsMeta { flat: 0, fuzz: 0, resolution: 0, value: 0 },
            };
            let existing_info = get_abs(&self.abs_info, cap.code);
            let (current_range, current_meta) = match existing_info {
                Some(info) => (Interval::new(info.min_value, info.max_value), info.meta),
                None => (cap.value_range, meta),
            };
            let new_range = current_range.merge(&cap.value_range);
            let new_meta = AbsMeta {
                flat: if current_meta.flat <= meta.flat { current_meta.flat } else { meta.flat },
                fuzz: if current_meta.fuzz <= meta.fuzz { current_meta.fuzz } else { meta.fuzz },
                resolution: if current_meta.resolution >= meta.resolution { current_meta.resolution } else { meta.resolution },
                value: new_range.bound(meta.value),
            };
            upsert_abs(&mut self.abs_info, cap.code, AbsInfo { min_value: new_range.min, max_value: new_range.max, meta: new_meta });
        }
    }

    /// Sets the repeat information and makes sure that the codes of EV_REP are present.
    fn set_ev_rep(&mut self, repeat_info: RepeatInfo)
        requires
            old(self).well_formed(),
        ensures
            final(self).well_formed(),
            final(self).rep_spec() == Some(repeat_info),
            forall|c: EventCode| final(self).has_code(c) <==> (old(self).has_code(c) || rep_codes().contains(c)),
            final(self).abs_seq() == old(self).abs_seq(),
    {
        self.rep_info = Some(repeat_info);
        let delay = EventCode::new(EventType::rep(), REP_DELAY);
        let period = EventCode::new(EventType::rep(), REP_PERIOD);
        insert_code(&mut self.codes, delay);
        insert_code(&mut self.codes, period);
        proof {
            assert(rep_codes()[0] == delay && rep_codes()[1] == period);
            assert forall|c: EventCode| rep_codes().contains(c) implies c == delay || c == period by {
                let k = choose|k: int| 0 <= k < rep_codes().len() && rep_codes()[k] == c;
            }
        }
    }

    /// Adds EV_REP capabilities to self with arbitrary delay and period.
    /// The kernel is going to ignore the delay and period we give it anyway.
    pub fn require_ev_rep(&mut self)
        requires
            old(self).well_formed(),
        ensures
            final(self).well_formed(),
            old(self).rep_spec() is Some ==> *final(self) == *old(self),
            old(self).rep_spec() is None ==> {
                &&& final(self).rep_spec() == Some(RepeatInfo { delay: 250, period: 33 })
                &&& forall|c: EventCode| final(self).has_code(c) <==> (old(self).has_code(c) || rep_codes().contains(c))
                &&& final(self).abs_seq() == old(self).abs_seq()
            },
    {
        if self.rep_info.is_none() {
            self.set_ev_rep(RepeatInfo::kernel_default());
        }
    }

    /// Removes EV_REP cababilities from self.
    pub fn remove_ev_rep(&mut self)
        requires
            old(self).well_formed(),
        ensures
            final(self).well_formed(),
            final(self).rep_spec() is None,
            forall|c: EventCode| final(self).has_code(c) <==> (old(self).has_code(c) && !rep_codes().contains(c)),
            final(self).abs_seq() == old(self).abs_seq(),
    {
        self.rep_info = None;
        let delay = EventCode::new(EventType::rep(), REP_DELAY);
        let period = EventCode::new(EventType::rep(), REP_PERIOD);
        remove_code(&mut self.codes, delay);
        remove_code(&mut self.codes, period);
        proof {
            assert(rep_codes()[0] == delay && rep_codes()[1] == period);
            assert forall|c: EventCode| rep_codes().contains(c) <==> (c == delay || c == period) by {
                if c == delay {
                    assert(rep_codes()[0] == c);
                }
                if c == period {
                    assert(rep_codes()[1] == c);
                }
            }
        }
    }

    /// The types of the codes, each once, in ascending order.
    pub fn ev_types(&self) -> (res: Vec<EventType>)
        requires
            self.well_formed(),
        ensures
            res@ == type_list(self.code_seq()),
            forall|t: EventType| res@.contains(t) <==> exists|i: int| 0 <= i < self.code_seq().len() && (#[trigger] self.code_seq()[i]).ev_type == t,
            forall|a: int, b: int| 0 <= a < b < res@.len() ==> (#[trigger] res@[a]).value < (#[trigger] res@[b]).value,
    {
        let mut res: Vec<EventType> = Vec::new();
        let mut i: usize = 0;
        while i < self.codes.len()
            invariant
                i <= self.codes@.len(),
                sorted_codes(self.codes@),
                forall|t: EventType| res@.contains(t) <==> exists|k: int| 0 <= k < i && (#[trigger] self.codes@[k]).ev_type == t,
                forall|a: int, b: int| 0 <= a < b < res@.len() ==> (#[trigger] res@[a]).value < (#[trigger] res@[b]).value,
                i > 0 ==> res@.len() > 0 && res@.last() == self.codes@[i - 1].ev_type,
                i == 0 ==> res@.len() == 0,
                res@ == type_list(self.codes@.take(i as int)),
            decreases self.codes@.len() - i,
        {
            let t = self.codes[i].ev_type;
            let ghost before = res@;
            proof {
                assert(self.codes@.take(i + 1).drop_last() == self.codes@.take(i as int));
                assert(self.codes@.take(i + 1).last().ev_type == t);
            }
            if res.len() == 0 || res[res.len() - 1].value != t.value {
                res.push(t);
                proof {
                    if i > 0 {
                        assert(code_lt(self.codes@[i - 1], self.codes@[i as int]));
                    }
                    assert forall|a: int, b: int| 0 <= a < b < res@.len() implies (#[trigger] res@[a]).value < (#[trigger] res@[b]).value by {
                        if b < before.len() {
                            assert(res@[a] == before[a] && res@[b] == before[b]);
                        } else {
                            assert(res@[a] == before[a]);
                            if a < before.len() - 1 {
                                assert(before[a].value < before[before.len() - 1].value);
                            }
                        }
                    }
                    assert forall|x: EventType| res@.contains(x) <==> exists|k: int| 0 <= k < i + 1 && (#[trigger] self.codes@[k]).ev_type == x by {
                        if res@.contains(x) {
                            let m = choose|m: int| 0 <= m < res@.len() && res@[m] == x;
                            if m < before.len() {
                                assert(before[m] == x);
                                assert(before.contains(x));
                            } else {
                                assert(self.codes@[i as int].ev_type == x);
                            }
                        }
                        if exists|k: int| 0 <= k < i + 1 && (#[trigger] self.codes@[k]).ev_type == x {
                            let k = choose|k: int| 0 <= k < i + 1 && (#[trigger] self.codes@[k]).ev_type == x;
                            if k < i {
                                assert(before.contains(x));
                                let m = choose|m: int| 0 <= m < before.len() && before[m] == x;
                                assert(res@[m] == x);
                            } else {
                                assert(res@[res@.len() - 1] == x);
                            }
                        }
                    }
                }
            } else {
                proof {
                    assert(res@.last() == t);
                    assert forall|x: EventType| res@.contains(x) <==> exists|k: int| 0 <= k < i + 1 && (#[trigger] self.codes@[k]).ev_type == x by {
                        if exists|k: int| 0 <= k < i + 1 && (#[trigger] self.codes@[k]).ev_type == x {
                            let k = choose|k: int| 0 <= k < i + 1 && (#[trigger] self.codes@[k]).ev_type == x;
                            if k == i {
                                assert(res@[res@.len() - 1] == x);
                            }
                        }
                        if res@.contains(x) {
                            assert(exists|k: int| 0 <= k < i && (#[trigger] self.codes@[k]).ev_type == x);
                        }
                    }
                }
            }
            i += 1;
        }
        proof {
            assert(self.codes@.take(self.codes@.len() as int) == self.codes@);
            assert forall|t: EventType| res@.contains(t) <==> exists|k: int| 0 <= k < self.code_seq().len() && (#[trigger] self.code_seq()[k]).ev_type == t by {
                if res@.contains(t) {
                    let k = choose|k: int| 0 <= k < self.codes@.len() && (#[trigger] self.codes@[k]).ev_type == t;
                    assert(self.code_seq()[k].ev_type == t);
                }
                if exists|k: int| 0 <= k < self.code_seq().len() && (#[trigger] self.code_seq()[k]).ev_type == t {
                    let k = choose|k: int| 0 <= k < self.code_seq().len() && (#[trigger] self.code_seq()[k]).ev_type == t;
                    assert(self.codes@[k].ev_type == t);
                }
            }
        }
        res
    }

    /// The information of an axis, if it has one.
    pub fn get_axis(&self, code: EventCode) -> (res: Option<AbsInfo>)
        requires
            self.well_formed(),
        ensures
            res == self.axis(code),
    {
        get_abs(&self.abs_info, code)
    }

    /// Adds a code, as the set of codes does.
    pub fn add_code(&mut self, code: EventCode)
        requires
            old(self).well_formed(),
        ensures
            final(self).well_formed(),
            forall|c: EventCode| final(self).has_code(c) <==> (old(self).has_code(c) || c == code),
            final(self).abs_seq() == old(self).abs_seq(),
            final(self).rep_spec() == old(self).rep_spec(),
    {
        insert_code(&mut self.codes, code);
    }

    /// Sets the information of an axis, as a map from codes to axes does.
    pub fn set_axis(&mut self, code: EventCode, info: AbsInfo)
        requires
            old(self).well_formed(),
        ensures
            final(self).well_formed(),
            final(self).code_seq() == old(self).code_seq(),
            forall|c: EventCode| final(self).has_code(c) == old(self).has_code(c),
            forall|c: EventCode| final(self).axis(c) == if c == code { Some(info) } else { old(self).axis(c) },
            final(self).rep_spec() == old(self).rep_spec(),
    {
        upsert_abs(&mut self.abs_info, code, info);
    }

    pub fn set_rep_info(&mut self, rep_info: Option<RepeatInfo>)
        ensures
            final(self).code_seq() == old(self).code_seq(),
            forall|c: EventCode| final(self).has_code(c) == old(self).has_code(c),
            forall|c: EventCode| final(self).axis(c) == old(self).axis(c),
            final(self).abs_seq() == old(self).abs_seq(),
            final(self).rep_spec() == rep_info,
            old(self).well_formed() ==> final(self).well_formed(),
    {
        self.rep_info = rep_info;
    }

    /// Returns the abs info as a vector of (EventCode, AbsInfo) pairs, sorted by event code.
    pub fn abs_info_to_sorted_vec(&self) -> (res: Vec<(EventCode, AbsInfo)>)
        requires
            self.well_formed(),
        ensures
            res@ == self.abs_seq(),
            sorted_codes(abs_keys(res@)),
    {
        let mut res: Vec<(EventCode, AbsInfo)> = Vec::new();
        let mut i: usize = 0;
        while i < self.abs_info.len()
            invariant
                i <= self.abs_info@.len(),
                res@ == self.abs_info@.take(i as int),
            decreases self.abs_info@.len() - i,
        {
            res.push(self.abs_info[i]);
            i += 1;
            proof {
                assert(res@ == self.abs_info@.take(i as int));
            }
        }
        proof {
            assert(self.abs_info@.take(self.abs_info@.len() as int) == self.abs_info@);
        }
        res
    }
}

fn contains_code(list: &Vec<EventCode>, code: EventCode) -> (res: bool)
    ensures
        res == list@.contains(code),
{
    let mut i: usize = 0;
    while i < list.len()
        invariant
            i <= list@.len(),
            forall|k: int| 0 <= k < i ==> list@[k] != code,
        decreases list@.len() - i,
    {
        if list[i] == code {
            proof {
                assert(list@[i as int] == code);
            }
            return true;
        }
        i += 1;
    }
    false
}

/// Whether every event of `a` can be written to a device with capabilities `b`: `b` has all
/// codes of `a`, and the same absolute axes up to their current value.
pub open spec fn compatible_caps(a: Capabilities, b: Capabilities) -> bool {
    &&& forall|c: EventCode| a.has_code(c) ==> b.has_code(c)
    &&& forall|c: EventCode| #[trigger] a.axis(c) is Some
        ==> b.axis(c) is Some && equivalent_axes(a.axis(c).unwrap(), b.axis(c).unwrap())
}

/// Whether two sets of capabilities are equal up to the current values of the absolute axes.
pub open spec fn equivalent_caps(a: Capabilities, b: Capabilities) -> bool {
    &&& forall|c: EventCode| a.has_code(c) <==> b.has_code(c)
    &&& a.rep_spec() == b.rep_spec()
    &&& forall|c: EventCode| (#[trigger] a.axis(c) is Some) <==> b.axis(c) is Some
    &&& forall|c: EventCode| #[trigger] a.axis(c) is Some ==> equivalent_axes(a.axis(c).unwrap(), b.axis(c).unwrap())
}

proof fn lemma_abs_get_some(s: Seq<(EventCode, AbsInfo)>, c: EventCode)
    requires
        sorted_codes(abs_keys(s)),
    ensures
        abs_get(s, c) is Some <==> abs_keys(s).contains(c),
{
    if abs_keys(s).contains(c) {
        let k = choose|k: int| 0 <= k < abs_keys(s).len() && abs_keys(s)[k] == c;
        assert(s[k].0 == c);
    }
    if abs_get(s, c) is Some {
        let k = choose|k: int| 0 <= k < s.len() && (#[trigger] s[k]).0 == c;
        assert(abs_keys(s)[k] == c);
    }
}

impl Capabilities {
    /// Given a device that has output capabilities `other`, can we properly write all events
    /// corresponding to the capabilities of `self` to that device?
    ///
    /// To be true, `other` must have all event codes of `self` and identical absolute axes.
    /// Ignores the current value of absolute axes.
    pub fn is_compatible_with(&self, other: &Capabilities) -> (res: bool)
        requires
            self.well_formed(),
            other.well_formed(),
        ensures
            res == compatible_caps(*self, *other),
    {
        let mut i: usize = 0;
        while i < self.codes.len()
            invariant
                i <= self.codes@.len(),
                forall|k: int| 0 <= k < i ==> other.codes@.contains(#[trigger] self.codes@[k]),
            decreases self.codes@.len() - i,
        {
            if !contains_code(&other.codes, self.codes[i]) {
                proof {
                    assert(self.has_code(self.codes@[i as int]));
                }
                return false;
            }
            i += 1;
        }
        proof {
            assert forall|c: EventCode| self.has_code(c) implies other.has_code(c) by {
                let k = choose|k: int| 0 <= k < self.codes@.len() && self.codes@[k] == c;
                assert(other.codes@.contains(self.codes@[k]));
            }
        }
        let mut j: usize = 0;
        while j < self.abs_info.len()
            invariant
                j <= self.abs_info@.len(),
                self.well_formed(),
                other.well_formed(),
                forall|k: int| 0 <= k < j ==> {
                    let c = (#[trigger] self.abs_info@[k]).0;
                    other.axis(c) is Some && equivalent_axes(self.abs_info@[k].1, other.axis(c).unwrap())
                },
            decreases self.abs_info@.len() - j,
        {
            let (code, info) = self.abs_info[j];
            proof {
                lemma_abs_get_at(self.abs_info@, j as int);
            }
            match get_abs(&other.abs_info, code) {
                Some(other_info) => {
                    if !info.is_equivalent_to(other_info) {
                        proof {
                            assert(self.axis(code) == Some(info));
                        }
                        return false;
                    }
                },
                None => {
                    proof {
                        assert(self.axis(code) == Some(info));
                    }
                    return false;
                },
            }
            j += 1;
        }
        proof {
            assert forall|c: EventCode| #[trigger] self.axis(c) is Some
                implies other.axis(c) is Some && equivalent_axes(self.axis(c).unwrap(), other.axis(c).unwrap()) by {
                let k = choose|k: int| 0 <= k < self.abs_info@.len() && (#[trigger] self.abs_info@[k]).0 == c;
                lemma_abs_get_at(self.abs_info@, k);
            }
        }
        // The repeat information does not matter because the kernel ignores it.
        true
    }

    /// Tells you whether these capabilities are equal to the other capabilities up to the
    /// current state of the absolute axes.
    pub fn is_equivalent_to(&self, other: &Capabilities) -> (res: bool)
        requires
            self.well_formed(),
            other.well_formed(),
        ensures
            res == equivalent_caps(*self, *other),
    {
        proof {
            if equivalent_caps(*self, *other) {
                assert forall|x: EventCode| self.codes@.contains(x) <==> other.codes@.contains(x) by {
                    assert(self.has_code(x) <==> other.has_code(x));
                }
                lemma_sorted_same_elements(self.codes@, other.codes@);
                assert forall|x: EventCode| abs_keys(self.abs_info@).contains(x) <==> abs_keys(other.abs_info@).contains(x) by {
                    lemma_abs_get_some(self.abs_info@, x);
                    lemma_abs_get_some(other.abs_info@, x);
                    assert(self.axis(x) is Some <==> other.axis(x) is Some);
                }
                lemma_sorted_same_elements(abs_keys(self.abs_info@), abs_keys(other.abs_info@));
            }
        }
        if self.codes.len() != other.codes.len() {
            return false;
        }
        let mut i: usize = 0;
        while i < self.codes.len()
            invariant
                i <= self.codes@.len(),
                self.codes@.len() == other.codes@.len(),
                equivalent_caps(*self, *other) ==> self.codes@ == other.codes@,
                forall|k: int| 0 <= k < i ==> self.codes@[k] == other.codes@[k],
            decreases self.codes@.len() - i,
        {
            if self.codes[i] != other.codes[i] {
                return false;
            }
            i += 1;
        }
        proof {
            assert(self.codes@ =~= other.codes@);
        }
        let same_rep = match (self.rep_info, other.rep_info) {
            (None, None) => true,
            (Some(a), Some(b)) => a.delay == b.delay && a.period == b.period,
            _ => false,
        };
        if !same_rep {
            return false;
        }
        if self.abs_info.len() != other.abs_info.len() {
            proof {
                if equivalent_caps(*self, *other) {
                    assert(abs_keys(self.abs_info@).len() == abs_keys(other.abs_info@).len());
                }
            }
            return false;
        }
        let mut j: usize = 0;
        while j < self.abs_info.len()
            invariant
                j <= self.abs_info@.len(),
                self.abs_info@.len() == other.abs_info@.len(),
                self.well_formed(),
                other.well_formed(),
                equivalent_caps(*self, *other) ==> abs_keys(self.abs_info@) == abs_keys(other.abs_info@),
                forall|k: int| 0 <= k < j ==> (#[trigger] self.abs_info@[k]).0 == other.abs_info@[k].0
                    && equivalent_axes(self.abs_info@[k].1, other.abs_info@[k].1),
            decreases self.abs_info@.len() - j,
        {
            let (self_code, self_abs) = self.abs_info[j];
            let (other_code, other_abs) = other.abs_info[j];
            if self_code != other_code {
                proof {
                    if equivalent_caps(*self, *other) {
                        assert(abs_keys(self.abs_info@)[j as int] == self_code);
                        assert(abs_keys(other.abs_info@)[j as int] == other_code);
                    }
                }
                return false;
            }
            if !self_abs.is_equivalent_to(other_abs) {
                proof {
                    lemma_abs_get_at(self.abs_info@, j as int);
                    lemma_abs_get_at(other.abs_info@, j as int);
                    assert(self.axis(self_code) is Some);
                    assert(other.axis(self_code) == Some(other_abs));
                }
                return false;
            }
            j += 1;
        }
        proof {
            assert forall|c: EventCode| (#[trigger] self.axis(c) is Some) <==> other.axis(c) is Some by {
                lemma_abs_get_some(self.abs_info@, c);
                lemma_abs_get_some(other.abs_info@, c);
                assert(abs_keys(self.abs_info@) =~= abs_keys(other.abs_info@));
            }
            assert forall|c: EventCode| #[trigger] self.axis(c) is Some implies equivalent_axes(self.axis(c).unwrap(), other.axis(c).unwrap()) by {
                let k = choose|k: int| 0 <= k < self.abs_info@.len() && (#[trigger] self.abs_info@[k]).0 == c;
                lemma_abs_get_at(self.abs_info@, k);
                lemma_abs_get_at(other.abs_info@, k);
            }
        }
        true
    }
}

/// A capability without its value: the same capability with a universal value range.
pub open spec fn without_value(c: Capability) -> Capability {
    Capability { value_range: Interval { min: i32::MIN, max: i32::MAX }, ..c }
}

/// Whether some capability in the list, apart from its value, is `key` and has `v` among its values.
pub open spec fn caps_cover(caps: Seq<Capability>, key: Capability, v: int) -> bool {
    exists|i: int| 0 <= i < caps.len() && without_value(#[trigger] caps[i]) == key && caps[i].value_range.has(v)
}

/// Whether some interval of the list holds `v`.
pub open spec fn intervals_cover(list: Seq<Interval>, v: int) -> bool {
    exists|i: int| 0 <= i < list.len() && (#[trigger] list[i]).has(v)
}

pub open spec fn pairs_cover(pairs: Seq<(Capability, Interval)>, key: Capability, v: int) -> bool {
    exists|i: int| 0 <= i < pairs.len() && (#[trigger] pairs[i]).0 == key && pairs[i].1.has(v)
}

/// The ranges paired with `key`.
proof fn lemma_intervals_cover_push(list: Seq<Interval>, r: Interval, v: int)
    ensures
        intervals_cover(list.push(r), v) <==> intervals_cover(list, v) || r.has(v),
{
    let q = list.push(r);
    if intervals_cover(q, v) {
        let m = choose|m: int| 0 <= m < q.len() && (#[trigger] q[m]).has(v);
        if m < list.len() {
            assert(list[m] == q[m]);
        }
    }
    if intervals_cover(list, v) {
        let m = choose|m: int| 0 <= m < list.len() && (#[trigger] list[m]).has(v);
        assert(q[m] == list[m]);
    }
    if r.has(v) {
        assert(q[list.len() as int] == r);
    }
}

proof fn lemma_intervals_cover_last(list: Seq<Interval>, v: int)
    requires
        list.len() > 0,
    ensures
        intervals_cover(list, v) <==> intervals_cover(list.drop_last(), v) || list.last().has(v),
{
    lemma_intervals_cover_push(list.drop_last(), list.last(), v);
    assert(list.drop_last().push(list.last()) == list);
}

proof fn lemma_pairs_cover_step(pairs: Seq<(Capability, Interval)>, i: int, key: Capability, v: int)
    requires
        0 <= i < pairs.len(),
    ensures
        pairs_cover(pairs.take(i + 1), key, v) <==> pairs_cover(pairs.take(i), key, v) || (pairs[i].0 == key && pairs[i].1.has(v)),
{
    let a = pairs.take(i);
    let b = pairs.take(i + 1);
    if pairs_cover(b, key, v) {
        let t = choose|t: int| 0 <= t < b.len() && (#[trigger] b[t]).0 == key && b[t].1.has(v);
        if t < i {
            assert(a[t] == b[t]);
        } else {
            assert(b[t] == pairs[i]);
        }
    }
    if pairs_cover(a, key, v) {
        let t = choose|t: int| 0 <= t < a.len() && (#[trigger] a[t]).0 == key && a[t].1.has(v);
        assert(b[t] == a[t]);
    }
    if pairs[i].0 == key && pairs[i].1.has(v) {
        assert(b[i] == pairs[i]);
    }
}

/// The number of pairs whose capability is `key`.
pub open spec fn count_key(pairs: Seq<(Capability, Interval)>, key: Capability) -> nat
    decreases pairs.len(),
{
    if pairs.len() == 0 {
        0
    } else {
        count_key(pairs.drop_last(), key) + if pairs.last().0 == key { 1nat } else { 0nat }
    }
}

/// The number of pairs whose capability is one of the keys, counted once for each key.
pub open spec fn count_keys(pairs: Seq<(Capability, Interval)>, keys: Seq<Capability>) -> nat
    decreases keys.len(),
{
    if keys.len() == 0 {
        0
    } else {
        count_keys(pairs, keys.drop_last()) + count_key(pairs, keys.last())
    }
}

/// The number of times a capability occurs among the keys.
pub open spec fn occurrences(keys: Seq<Capability>, c: Capability) -> nat
    decreases keys.len(),
{
    if keys.len() == 0 {
        0
    } else {
        occurrences(keys.drop_last(), c) + if keys.last() == c { 1nat } else { 0nat }
    }
}

proof fn lemma_count_keys_last(pairs: Seq<(Capability, Interval)>, keys: Seq<Capability>)
    requires
        pairs.len() > 0,
    ensures
        count_keys(pairs, keys) == count_keys(pairs.drop_last(), keys) + occurrences(keys, pairs.last().0),
    decreases keys.len(),
{
    if keys.len() > 0 {
        lemma_count_keys_last(pairs, keys.drop_last());
    }
}

proof fn lemma_occurrences_distinct(keys: Seq<Capability>, c: Capability)
    requires
        forall|a: int, b: int| 0 <= a < b < keys.len() ==> keys[a] != keys[b],
    ensures
        occurrences(keys, c) <= 1,
        occurrences(keys, c) == 1 ==> keys.contains(c),
    decreases keys.len(),
{
    if keys.len() > 0 {
        let rest = keys.drop_last();
        assert forall|a: int, b: int| 0 <= a < b < rest.len() implies rest[a] != rest[b] by {
            assert(rest[a] == keys[a] && rest[b] == keys[b]);
        }
        lemma_occurrences_distinct(rest, c);
        if keys.last() == c && occurrences(rest, c) == 1 {
            let x = choose|x: int| 0 <= x < rest.len() && rest[x] == c;
            assert(keys[x] == keys[keys.len() - 1]);
        }
        if occurrences(rest, c) == 1 {
            let x = choose|x: int| 0 <= x < rest.len() && rest[x] == c;
            assert(keys[x] == c);
        }
        if keys.last() == c {
            assert(keys[keys.len() - 1] == c);
        }
    }
}

proof fn lemma_count_keys_bounded(pairs: Seq<(Capability, Interval)>, keys: Seq<Capability>)
    requires
        forall|a: int, b: int| 0 <= a < b < keys.len() ==> keys[a] != keys[b],
    ensures
        count_keys(pairs, keys) <= pairs.len(),
    decreases pairs.len(),
{
    if pairs.len() == 0 {
        lemma_count_keys_empty(pairs, keys);
    } else {
        lemma_count_keys_last(pairs, keys);
        lemma_occurrences_distinct(keys, pairs.last().0);
        lemma_count_keys_bounded(pairs.drop_last(), keys);
    }
}

proof fn lemma_count_keys_empty(pairs: Seq<(Capability, Interval)>, keys: Seq<Capability>)
    requires
        pairs.len() == 0,
    ensures
        count_keys(pairs, keys) == 0,
    decreases keys.len(),
{
    if keys.len() > 0 {
        lemma_count_keys_empty(pairs, keys.drop_last());
    }
}

/// The ranges paired with `key`.
fn values_of(pairs: &Vec<(Capability, Interval)>, key: Capability) -> (res: Vec<Interval>)
    requires
        forall|i: int| 0 <= i < pairs@.len() ==> (#[trigger] pairs@[i]).1.nonempty(),
    ensures
        forall|v: int| intervals_cover(res@, v) <==> pairs_cover(pairs@, key, v),
        forall|i: int| 0 <= i < res@.len() ==> (#[trigger] res@[i]).nonempty(),
        res@.len() == count_key(pairs@, key),
{
    let mut res: Vec<Interval> = Vec::new();
    let mut i: usize = 0;
    while i < pairs.len()
        invariant
            i <= pairs@.len(),
            res@.len() == count_key(pairs@.take(i as int), key),
            forall|k: int| 0 <= k < pairs@.len() ==> (#[trigger] pairs@[k]).1.nonempty(),
            forall|k: int| 0 <= k < res@.len() ==> (#[trigger] res@[k]).nonempty(),
            forall|v: int| intervals_cover(res@, v) <==> pairs_cover(pairs@.take(i as int), key, v),
        decreases pairs@.len() - i,
    {
        let ghost before = res@;
        let (k, r) = pairs[i];
        if k == key {
            res.push(r);
        }
        proof {
            assert(pairs@.take(i + 1).drop_last() == pairs@.take(i as int));
            assert(pairs@.take(i + 1).last() == pairs@[i as int]);
            assert forall|v: int| intervals_cover(res@, v) <==> pairs_cover(pairs@.take(i + 1), key, v) by {
                lemma_pairs_cover_step(pairs@, i as int, key, v);
                lemma_intervals_cover_push(before, r, v);
                assert(intervals_cover(before, v) <==> pairs_cover(pairs@.take(i as int), key, v));
            }
        }
        i += 1;
    }
    proof {
        assert(pairs@.take(pairs@.len() as int) == pairs@);
    }
    res
}

/// Sorts intervals by their lower end.
fn sort_by_min(list: &mut Vec<Interval>)
    ensures
        final(list)@.len() == old(list)@.len(),
        forall|r: Interval| final(list)@.contains(r) <==> old(list)@.contains(r),
        forall|a: int, b: int| 0 <= a < b < final(list)@.len() ==> (#[trigger] final(list)@[a]).min <= (#[trigger] final(list)@[b]).min,
{
    let mut sorted: Vec<Interval> = Vec::new();
    let mut i: usize = 0;
    while i < list.len()
        invariant
            i <= list@.len(),
            *list == *old(list),
            sorted@.len() == i,
            forall|r: Interval| sorted@.contains(r) <==> exists|k: int| 0 <= k < i && list@[k] == r,
            forall|a: int, b: int| 0 <= a < b < sorted@.len() ==> (#[trigger] sorted@[a]).min <= (#[trigger] sorted@[b]).min,
        decreases list@.len() - i,
    {
        let r = list[i];
        let mut at: usize = 0;
        while at < sorted.len() && sorted[at].min <= r.min
            invariant
                at <= sorted@.len(),
                forall|k: int| 0 <= k < at ==> (#[trigger] sorted@[k]).min <= r.min,
            decreases sorted@.len() - at,
        {
            at += 1;
        }
        let ghost before = sorted@;
        sorted.insert(at, r);
        proof {
            assert forall|a: int, b: int| 0 <= a < b < sorted@.len() implies (#[trigger] sorted@[a]).min <= (#[trigger] sorted@[b]).min by {
                if b < at {
                    assert(sorted@[a] == before[a] && sorted@[b] == before[b]);
                } else if b == at {
                    assert(sorted@[a] == before[a]);
                } else if a < at {
                    assert(sorted@[a] == before[a] && sorted@[b] == before[b - 1]);
                    assert(before[at as int].min > r.min);
                } else if a == at {
                    assert(sorted@[b] == before[b - 1]);
                    assert(before[at as int].min > r.min);
                } else {
                    assert(sorted@[a] == before[a - 1] && sorted@[b] == before[b - 1]);
                }
            }
            assert forall|x: Interval| sorted@.contains(x) <==> exists|k: int| 0 <= k < i + 1 && list@[k] == x by {
                if sorted@.contains(x) {
                    let m = choose|m: int| 0 <= m < sorted@.len() && sorted@[m] == x;
                    if m < at {
                        assert(before[m] == x);
                        assert(before.contains(x));
                    } else if m > at {
                        assert(before[m - 1] == x);
                        assert(before.contains(x));
                    } else {
                        assert(list@[i as int] == x);
                    }
                }
                if exists|k: int| 0 <= k < i + 1 && list@[k] == x {
                    let k = choose|k: int| 0 <= k < i + 1 && list@[k] == x;
                    if k < i {
                        assert(before.contains(x));
                        let m = choose|m: int| 0 <= m < before.len() && before[m] == x;
                        if m < at {
                            assert(sorted@[m] == x);
                        } else {
                            assert(sorted@[m + 1] == x);
                        }
                    } else {
                        assert(sorted@[at as int] == x);
                    }
                }
            }
        }
        i += 1;
    }
    proof {
        assert forall|r: Interval| sorted@.contains(r) <==> list@.contains(r) by {
            if list@.contains(r) {
                let k = choose|k: int| 0 <= k < list@.len() && list@[k] == r;
            }
        }
    }
    *list = sorted;
}

/// The intervals are in ascending order, with a gap between each two.
pub open spec fn separated(list: Seq<Interval>) -> bool {
    forall|a: int, b: int| 0 <= a < b < list.len() ==> (#[trigger] list[a]).max + 1 < (#[trigger] list[b]).min
}

/// Merges each interval into the last one where their union is an interval, and appends it otherwise.
fn merge_consecutive(values: &Vec<Interval>) -> (res: Vec<Interval>)
    requires
        forall|i: int| 0 <= i < values@.len() ==> (#[trigger] values@[i]).nonempty(),
        forall|a: int, b: int| 0 <= a < b < values@.len() ==> (#[trigger] values@[a]).min <= (#[trigger] values@[b]).min,
    ensures
        forall|v: int| intervals_cover(res@, v) <==> intervals_cover(values@, v),
        forall|i: int| 0 <= i < res@.len() ==> (#[trigger] res@[i]).nonempty(),
        separated(res@),
        res@.len() <= values@.len(),
{
    let mut merged: Vec<Interval> = Vec::new();
    let mut i: usize = 0;
    while i < values.len()
        invariant
            i <= values@.len(),
            forall|k: int| 0 <= k < values@.len() ==> (#[trigger] values@[k]).nonempty(),
            forall|a: int, b: int| 0 <= a < b < values@.len() ==> (#[trigger] values@[a]).min <= (#[trigger] values@[b]).min,
            forall|k: int| 0 <= k < merged@.len() ==> (#[trigger] merged@[k]).nonempty(),
            forall|v: int| intervals_cover(merged@, v) <==> intervals_cover(values@.take(i as int), v),
            separated(merged@),
            merged@.len() <= i,
            merged@.len() > 0 ==> forall|k: int| i <= k < values@.len() ==> merged@.last().min <= (#[trigger] values@[k]).min,
            merged@.len() == 0 <==> i == 0,
        decreases values@.len() - i,
    {
        let value = values[i];
        let ghost before = merged@;
        let n = merged.len();
        if n > 0 {
            let last = merged[n - 1];
            match value.try_union(&last) {
                Some(union_value) => {
                    merged.set(n - 1, union_value);
                    proof {
                        assert(merged@ == before.drop_last().push(union_value));
                        assert(before.last() == last);
                        assert(union_value.min == last.min);
                        assert forall|a: int, b: int| 0 <= a < b < merged@.len() implies
                            (#[trigger] merged@[a]).max + 1 < (#[trigger] merged@[b]).min by {
                            assert(merged@[a] == before[a]);
                            if b < n - 1 {
                                assert(merged@[b] == before[b]);
                            } else {
                                assert(before[a].max + 1 < before[b].min);
                            }
                        }
                        assert forall|v: int| intervals_cover(merged@, v) <==> intervals_cover(before, v) || value.has(v) by {
                            lemma_intervals_cover_push(before.drop_last(), union_value, v);
                            lemma_intervals_cover_last(before, v);
                        }
                        assert(union_value.has(value.min as int));
                        assert forall|k: int| 0 <= k < merged@.len() implies (#[trigger] merged@[k]).nonempty() by {
                            if k < n - 1 {
                                assert(merged@[k] == before[k]);
                            }
                        }
                    }
                },
                None => {
                    merged.push(value);
                    proof {
                        assert forall|v: int| intervals_cover(merged@, v) <==> intervals_cover(before, v) || value.has(v) by {
                            lemma_intervals_cover_push(before, value, v);
                        }
                        assert(last.min <= value.min);
                        assert(last.max + 1 < value.min);
                        assert forall|a: int, b: int| 0 <= a < b < merged@.len() implies
                            (#[trigger] merged@[a]).max + 1 < (#[trigger] merged@[b]).min by {
                            assert(merged@[a] == before[a]);
                            if b < n {
                                assert(merged@[b] == before[b]);
                            } else if a < n - 1 {
                                assert(before[a].max + 1 < before[n - 1].min);
                                assert(before[n - 1] == last);
                            }
                        }
                    }
                },
            }
        } else {
            merged.push(value);
            proof {
                assert forall|v: int| intervals_cover(merged@, v) <==> intervals_cover(before, v) || value.has(v) by {
                    lemma_intervals_cover_push(before, value, v);
                }
            }
        }
        proof {
            assert(merged@.last().min <= value.min);
            assert forall|k: int| i + 1 <= k < values@.len() implies merged@.last().min <= (#[trigger] values@[k]).min by {
                assert(values@[i as int].min <= values@[k].min);
            }
            assert(values@.take(i + 1) == values@.take(i as int).push(value));
            assert forall|v: int| intervals_cover(merged@, v) <==> intervals_cover(values@.take(i + 1), v) by {
                lemma_intervals_cover_push(values@.take(i as int), value, v);
                assert(intervals_cover(before, v) <==> intervals_cover(values@.take(i as int), v));
            }
        }
        i += 1;
    }
    proof {
        assert(values@.take(values@.len() as int) == values@);
    }
    merged
}

/// Tries to simplify a list of capabilites by merging similar capabilities (those that differ
/// only in value) together. This avoids a worst-case scenario of exponential complexity for some
/// degenerate input arguments. The capabilities come out grouped by the order in which each
/// group first appears.
pub fn aggregate_capabilities(capabilities: Vec<Capability>) -> (res: Vec<Capability>)
    requires
        forall|i: int| 0 <= i < capabilities@.len() ==> (#[trigger] capabilities@[i]).value_range.nonempty(),
    ensures
        forall|key: Capability, v: int| caps_cover(res@, key, v) <==> caps_cover(capabilities@, key, v),
        forall|j: int| 0 <= j < res@.len() ==> (#[trigger] res@[j]).value_range.nonempty(),
        forall|j: int| 0 <= j < res@.len() ==> exists|i: int| 0 <= i < capabilities@.len()
            && without_value(#[trigger] res@[j]) == without_value(capabilities@[i]),
        forall|a: int, b: int| 0 <= a < b < res@.len() && without_value(#[trigger] res@[a]) == without_value(#[trigger] res@[b])
            ==> res@[a].value_range.max + 1 < res@[b].value_range.min,
        res@.len() <= capabilities@.len(),
{
    // Separate the capabilities into their values and the rest.
    let mut pairs: Vec<(Capability, Interval)> = Vec::new();
    let mut keys: Vec<Capability> = Vec::new();
    let ghost mut origin: Seq<int> = Seq::empty();
    let mut i: usize = 0;
    while i < capabilities.len()
        invariant
            i <= capabilities@.len(),
            pairs@.len() == i,
            origin.len() == keys@.len(),
            forall|k: int| 0 <= k < capabilities@.len() ==> (#[trigger] capabilities@[k]).value_range.nonempty(),
            forall|k: int| 0 <= k < i ==> (#[trigger] pairs@[k]) == (without_value(capabilities@[k]), capabilities@[k].value_range),
            forall|k: int| 0 <= k < i ==> keys@.contains(#[trigger] pairs@[k].0),
            forall|t: int| 0 <= t < keys@.len() ==> 0 <= #[trigger] origin[t] < i && keys@[t] == pairs@[origin[t]].0,
            forall|a: int, b: int| 0 <= a < b < keys@.len() ==> keys@[a] != keys@[b],
        decreases capabilities@.len() - i,
    {
        let (key, value) = capabilities[i].split_value();
        let ghost keys_before = keys@;
        let ghost pairs_before = pairs@;
        let mut known = false;
        let mut g: usize = 0;
        while g < keys.len()
            invariant
                g <= keys@.len(),
                known == exists|t: int| 0 <= t < g && keys@[t] == key,
            decreases keys@.len() - g,
        {
            if keys[g] == key {
                known = true;
            }
            g += 1;
        }
        if !known {
            keys.push(key);
            proof {
                origin = origin.push(i as int);
            }
        }
        pairs.push((key, value));
        proof {
            assert forall|k: int| 0 <= k < i + 1 implies keys@.contains(#[trigger] pairs@[k].0) by {
                if k < i {
                    assert(keys_before.contains(pairs@[k].0));
                    let t = choose|t: int| 0 <= t < keys_before.len() && keys_before[t] == pairs@[k].0;
                    assert(keys@[t] == keys_before[t]);
                } else if known {
                    let t = choose|t: int| 0 <= t < keys_before.len() && keys_before[t] == key;
                    assert(keys@[t] == key);
                } else {
                    assert(keys@[keys@.len() - 1] == key);
                }
            }
            assert forall|t: int| 0 <= t < keys@.len() implies 0 <= #[trigger] origin[t] < i + 1 && keys@[t] == pairs@[origin[t]].0 by {
                if t < keys_before.len() {
                    assert(keys@[t] == keys_before[t]);
                    assert(pairs@[origin[t]] == pairs_before[origin[t]]);
                } else {
                    assert(pairs@[i as int].0 == key);
                }
            }
        }
        i += 1;
    }


    // Merge the values of each group.
    let mut results: Vec<Capability> = Vec::new();
    let mut g: usize = 0;
    while g < keys.len()
        invariant
            g <= keys@.len(),
            pairs@.len() == capabilities@.len(),
            forall|k: int| 0 <= k < pairs@.len() ==> (#[trigger] pairs@[k]) == (without_value(capabilities@[k]), capabilities@[k].value_range),
            forall|k: int| 0 <= k < pairs@.len() ==> keys@.contains(#[trigger] pairs@[k].0),
            origin.len() == keys@.len(),
            forall|t: int| 0 <= t < keys@.len() ==> 0 <= #[trigger] origin[t] < pairs@.len() && keys@[t] == pairs@[origin[t]].0,
            forall|a: int, b: int| 0 <= a < b < keys@.len() ==> keys@[a] != keys@[b],
            forall|k: int| 0 <= k < capabilities@.len() ==> (#[trigger] capabilities@[k]).value_range.nonempty(),
            forall|j: int| 0 <= j < results@.len() ==> (#[trigger] results@[j]).value_range.nonempty(),
            forall|j: int| 0 <= j < results@.len() ==> exists|t: int| 0 <= t < g && without_value(#[trigger] results@[j]) == keys@[t],
            forall|key: Capability, v: int| caps_cover(results@, key, v)
                <==> (exists|t: int| 0 <= t < g && keys@[t] == key) && pairs_cover(pairs@, key, v),
            forall|a: int, b: int| 0 <= a < b < results@.len() && without_value(#[trigger] results@[a]) == without_value(#[trigger] results@[b])
                ==> results@[a].value_range.max + 1 < results@[b].value_range.min,
            results@.len() <= count_keys(pairs@, keys@.take(g as int)),
        decreases keys@.len() - g,
    {
        let key = keys[g];
        let ghost t_key = origin[g as int];
        proof {
            assert(pairs@[t_key].0 == without_value(capabilities@[t_key]));
            assert(without_value(key) == key);
        }
        let mut values = values_of(&pairs, key);
        let ghost unsorted = values@;
        sort_by_min(&mut values);
        proof {
            assert forall|v: int| intervals_cover(values@, v) <==> intervals_cover(unsorted, v) by {
                if intervals_cover(values@, v) {
                    let m = choose|m: int| 0 <= m < values@.len() && (#[trigger] values@[m]).has(v);
                    assert(unsorted.contains(values@[m]));
                    let u = choose|u: int| 0 <= u < unsorted.len() && unsorted[u] == values@[m];
                }
                if intervals_cover(unsorted, v) {
                    let m = choose|m: int| 0 <= m < unsorted.len() && (#[trigger] unsorted[m]).has(v);
                    assert(values@.contains(unsorted[m]));
                    let u = choose|u: int| 0 <= u < values@.len() && values@[u] == unsorted[m];
                }
            }
            assert forall|k: int| 0 <= k < values@.len() implies (#[trigger] values@[k]).nonempty() by {
                assert(unsorted.contains(values@[k]));
                let u = choose|u: int| 0 <= u < unsorted.len() && unsorted[u] == values@[k];
            }
        }
        let merged = merge_consecutive(&values);
        proof {
            assert(merged@.len() <= count_key(pairs@, key));
        }
        let ghost results_before = results@;
        let mut m: usize = 0;
        while m < merged.len()
            invariant
                m <= merged@.len(),
                g < keys@.len(),
                key == keys@[g as int],
                without_value(key) == key,
                forall|k: int| 0 <= k < merged@.len() ==> (#[trigger] merged@[k]).nonempty(),
                results@.len() == results_before.len() + m,
                forall|j: int| 0 <= j < results_before.len() ==> results@[j] == results_before[j],
                forall|j: int| results_before.len() <= j < results@.len()
                    ==> (#[trigger] results@[j]) == key.with_value_spec(merged@[j - results_before.len()]),
            decreases merged@.len() - m,
        {
            results.push(key.with_value(merged[m]));
            m += 1;
        }
        proof {
            let n0 = results_before.len();
            assert(keys@.take(g + 1).drop_last() == keys@.take(g as int));
            assert(keys@.take(g + 1).last() == key);
            assert forall|a: int, b: int| 0 <= a < b < results@.len() && without_value(#[trigger] results@[a]) == without_value(#[trigger] results@[b])
                implies results@[a].value_range.max + 1 < results@[b].value_range.min by {
                if b < n0 {
                    assert(results@[a] == results_before[a] && results@[b] == results_before[b]);
                } else if a < n0 {
                    assert(results@[a] == results_before[a]);
                    assert(results@[b] == key.with_value_spec(merged@[b - n0]));
                    let t = choose|t: int| 0 <= t < g && without_value(results_before[a]) == keys@[t];
                    assert(keys@[t] != keys@[g as int]);
                } else {
                    assert(results@[a] == key.with_value_spec(merged@[a - n0]));
                    assert(results@[b] == key.with_value_spec(merged@[b - n0]));
                    assert(merged@[a - n0].max + 1 < merged@[b - n0].min);
                }
            }
            assert forall|j: int| 0 <= j < results@.len() implies (#[trigger] results@[j]).value_range.nonempty() by {
                if j >= n0 {
                    assert(results@[j] == key.with_value_spec(merged@[j - n0]));
                } else {
                    assert(results@[j] == results_before[j]);
                }
            }
            assert forall|j: int| 0 <= j < results@.len() implies exists|t: int| 0 <= t < g + 1 && without_value(#[trigger] results@[j]) == keys@[t] by {
                if j >= n0 {
                    assert(results@[j] == key.with_value_spec(merged@[j - n0]));
                    assert(without_value(results@[j]) == key);
                } else {
                    assert(results@[j] == results_before[j]);
                    let t = choose|t: int| 0 <= t < g && without_value(results_before[j]) == keys@[t];
                }
            }
            assert forall|k2: Capability, v: int| caps_cover(results@, k2, v)
                <==> (exists|t: int| 0 <= t < g + 1 && keys@[t] == k2) && pairs_cover(pairs@, k2, v) by {
                if caps_cover(results@, k2, v) {
                    let j = choose|j: int| 0 <= j < results@.len() && without_value(#[trigger] results@[j]) == k2 && results@[j].value_range.has(v);
                    if j < n0 {
                        assert(results@[j] == results_before[j]);
                        assert(caps_cover(results_before, k2, v));
                        let t = choose|t: int| 0 <= t < g && keys@[t] == k2;
                    } else {
                        assert(results@[j] == key.with_value_spec(merged@[j - n0]));
                        assert(k2 == key);
                        assert(intervals_cover(merged@, v));
                        assert(intervals_cover(unsorted, v));
                        assert(keys@[g as int] == k2);
                    }
                }
                if (exists|t: int| 0 <= t < g + 1 && keys@[t] == k2) && pairs_cover(pairs@, k2, v) {
                    let t = choose|t: int| 0 <= t < g + 1 && keys@[t] == k2;
                    if t < g {
                        assert(caps_cover(results_before, k2, v));
                        let j = choose|j: int| 0 <= j < results_before.len() && without_value(#[trigger] results_before[j]) == k2 && results_before[j].value_range.has(v);
                        assert(results@[j] == results_before[j]);
                    } else {
                        assert(k2 == key);
                        assert(intervals_cover(unsorted, v));
                        assert(intervals_cover(merged@, v));
                        let mm = choose|mm: int| 0 <= mm < merged@.len() && (#[trigger] merged@[mm]).has(v);
                        assert(results@[n0 + mm] == key.with_value_spec(merged@[mm]));
                        assert(without_value(results@[n0 + mm]) == k2);
                    }
                }
            }
        }
        g += 1;
    }
    proof {
        assert(keys@.take(keys@.len() as int) == keys@);
        lemma_count_keys_bounded(pairs@, keys@);
        assert forall|key: Capability, v: int| caps_cover(results@, key, v) <==> caps_cover(capabilities@, key, v) by {
            if caps_cover(capabilities@, key, v) {
                let k = choose|k: int| 0 <= k < capabilities@.len() && without_value(#[trigger] capabilities@[k]) == key && capabilities@[k].value_range.has(v);
                assert(pairs@[k].0 == key);
                assert(pairs_cover(pairs@, key, v));
                assert(keys@.contains(pairs@[k].0));
                let t = choose|t: int| 0 <= t < keys@.len() && keys@[t] == pairs@[k].0;
            }
            if pairs_cover(pairs@, key, v) {
                let k = choose|k: int| 0 <= k < pairs@.len() && (#[trigger] pairs@[k]).0 == key && pairs@[k].1.has(v);
                assert(pairs@[k] == (without_value(capabilities@[k]), capabilities@[k].value_range));
            }
        }
        assert forall|j: int| 0 <= j < results@.len() implies exists|i: int| 0 <= i < capabilities@.len()
            && without_value(#[trigger] results@[j]) == without_value(capabilities@[i]) by {
            let t = choose|t: int| 0 <= t < keys@.len() && without_value(results@[j]) == keys@[t];
            let k = origin[t];
            assert(keys@[t] == pairs@[k].0);
            assert(pairs@[k] == (without_value(capabilities@[k]), capabilities@[k].value_range));
        }
    }
    results
}

/// Generates a vector that contains every capability that the input devices can generate, one
/// device after another.
pub fn input_caps_to_vec(caps: &Vec<(Domain, Capabilities)>) -> (res: Vec<Capability>)
    requires
        forall|i: int| 0 <= i < caps@.len() ==> (#[trigger] caps@[i]).1.well_formed(),
    ensures
        res@ == input_caps_seq(caps@),
{
    let mut res: Vec<Capability> = Vec::new();
    let mut i: usize = 0;
    while i < caps.len()
        invariant
            i <= caps@.len(),
            forall|k: int| 0 <= k < caps@.len() ==> (#[trigger] caps@[k]).1.well_formed(),
            res@ == input_caps_seq(caps@.take(i as int)),
        decreases caps@.len() - i,
    {
        let (domain, device_caps) = (&caps[i].0, &caps[i].1);
        let more = device_caps.to_vec_from_domain_and_namespace(*domain, Namespace::Input);
        let ghost before = res@;
        let mut k: usize = 0;
        while k < more.len()
            invariant
                k <= more@.len(),
                res@ == before + more@.take(k as int),
            decreases more@.len() - k,
        {
            res.push(more[k]);
            k += 1;
            proof {
                assert(res@ == before + more@.take(k as int));
            }
        }
        proof {
            assert(more@.take(more@.len() as int) == more@);
            assert(caps@.take(i + 1).drop_last() == caps@.take(i as int));
        }
        i += 1;
    }
    proof {
        assert(caps@.take(caps@.len() as int) == caps@);
    }
    res
}

/// The capabilities of the input devices, one device after another.
pub open spec fn input_caps_seq(caps: Seq<(Domain, Capabilities)>) -> Seq<Capability>
    decreases caps.len(),
{
    if caps.len() == 0 {
        Seq::empty()
    } else {
        let (domain, device_caps) = caps.last();
        input_caps_seq(caps.drop_last()) + caps_of_codes(device_caps.code_seq(), device_caps.abs_seq(), domain, Namespace::Input)
    }
}

/// Capabilities are compatible with themselves.
pub proof fn lemma_compatible_reflexive(a: Capabilities)
    ensures
        compatible_caps(a, a),
{
}

/// If `a` fits in `b` and `b` fits in `c`, then `a` fits in `c`.
pub proof fn lemma_compatible_transitive(a: Capabilities, b: Capabilities, c: Capabilities)
    requires
        compatible_caps(a, b),
        compatible_caps(b, c),
    ensures
        compatible_caps(a, c),
{
    assert forall|x: EventCode| #[trigger] a.axis(x) is Some implies c.axis(x) is Some
        && equivalent_axes(a.axis(x).unwrap(), c.axis(x).unwrap()) by {
        assert(b.axis(x) is Some);
    }
}

/// Equivalence of capabilities is reflexive and symmetric, and equivalent capabilities are
/// compatible with each other both ways.
pub proof fn lemma_equivalent_laws(a: Capabilities, b: Capabilities)
    ensures
        equivalent_caps(a, a),
        equivalent_caps(a, b) ==> equivalent_caps(b, a),
        equivalent_caps(a, b) ==> compatible_caps(a, b) && compatible_caps(b, a),
{
    if equivalent_caps(a, b) {
        assert forall|c: EventCode| #[trigger] b.axis(c) is Some implies equivalent_axes(b.axis(c).unwrap(), a.axis(c).unwrap()) by {
            assert(a.axis(c) is Some);
        }
        assert forall|c: EventCode| #[trigger] b.axis(c) is Some implies a.axis(c) is Some
            && equivalent_axes(b.axis(c).unwrap(), a.axis(c).unwrap()) by {
            assert(a.axis(c) is Some);
        }
    }
}

} // verus!
