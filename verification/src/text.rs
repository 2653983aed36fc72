//! Small verified helpers for working with text as sequences of characters.

use vstd::prelude::*;

verus! {

/// Appends one character to a string.
///
/// Wraps `String::push`, which std documents as appending the given char to the end of the string.
#[verifier::external_body]
fn string_push(s: &mut String, c: char)
    ensures
        final(s)@ == old(s)@.push(c),
{
    s.push(c);
}

/// The characters of a string slice.
pub fn chars_of(s: &str) -> (res: Vec<char>)
    ensures
        res@ == s@,
{
    let n = s.unicode_len();
    let mut res: Vec<char> = Vec::new();
    let mut i: usize = 0;
    while i < n
        invariant
            n == s@.len(),
            i <= n,
            res@ == s@.take(i as int),
        decreases n - i,
    {
        res.push(s.get_char(i));
        i += 1;
        proof {
            assert(res@ == s@.take(i as int));
        }
    }
    proof {
        assert(s@.take(n as int) == s@);
    }
    res
}

/// A string holding the given characters.
pub fn string_from_chars(chars: &[char]) -> (res: String)
    ensures
        res@ == chars@,
{
    let mut res = String::new();
    let mut i: usize = 0;
    while i < chars.len()
        invariant
            i <= chars@.len(),
            res@ == chars@.take(i as int),
        decreases chars@.len() - i,
    {
        string_push(&mut res, chars[i]);
        i += 1;
        proof {
            assert(res@ == chars@.take(i as int));
        }
    }
    proof {
        assert(chars@.take(chars@.len() as int) == chars@);
    }
    res
}

/// A string holding the characters of `first` followed by those of `second`.
pub fn concat_chars(first: &[char], second: &[char]) -> (res: Vec<char>)
    ensures
        res@ == first@ + second@,
{
    let mut res: Vec<char> = Vec::new();
    let mut i: usize = 0;
    while i < first.len()
        invariant
            i <= first@.len(),
            res@ == first@.take(i as int),
        decreases first@.len() - i,
    {
        res.push(first[i]);
        i += 1;
        proof {
            assert(res@ == first@.take(i as int));
        }
    }
    let mut j: usize = 0;
    while j < second.len()
        invariant
            i == first@.len(),
            j <= second@.len(),
            res@ == first@ + second@.take(j as int),
        decreases second@.len() - j,
    {
        res.push(second[j]);
        j += 1;
        proof {
            assert(res@ == first@ + second@.take(j as int));
        }
    }
    proof {
        assert(first@.take(first@.len() as int) == first@);
        assert(second@.take(second@.len() as int) == second@);
    }
    res
}

/// The characters of `s` from index `from` up to but not including `to`.
pub fn slice_chars(s: &[char], from: usize, to: usize) -> (res: Vec<char>)
    requires
        from <= to <= s@.len(),
    ensures
        res@ == s@.subrange(from as int, to as int),
{
    let mut res: Vec<char> = Vec::new();
    let mut i: usize = from;
    while i < to
        invariant
            from <= i <= to,
            to <= s@.len(),
            res@ == s@.subrange(from as int, i as int),
        decreases to - i,
    {
        res.push(s[i]);
        i += 1;
        proof {
            assert(res@ == s@.subrange(from as int, i as int));
        }
    }
    res
}

/// Whether two character sequences are equal.
pub fn chars_eq(a: &[char], b: &[char]) -> (res: bool)
    ensures
        res == (a@ == b@),
{
    if a.len() != b.len() {
        return false;
    }
    let mut i: usize = 0;
    while i < a.len()
        invariant
            a@.len() == b@.len(),
            i <= a@.len(),
            forall|k: int| 0 <= k < i ==> a@[k] == b@[k],
        decreases a@.len() - i,
    {
        if a[i] != b[i] {
            return false;
        }
        i += 1;
    }
    proof {
        assert(a@ =~= b@);
    }
    true
}

/// Whether `s` starts with `prefix`.
pub open spec fn spec_starts_with(s: Seq<char>, prefix: Seq<char>) -> bool {
    prefix.len() <= s.len() && s.take(prefix.len() as int) == prefix
}

pub fn starts_with(s: &[char], prefix: &[char]) -> (res: bool)
    ensures
        res == spec_starts_with(s@, prefix@),
{
    if prefix.len() > s.len() {
        return false;
    }
    let mut i: usize = 0;
    while i < prefix.len()
        invariant
            prefix@.len() <= s@.len(),
            i <= prefix@.len(),
            forall|k: int| 0 <= k < i ==> s@[k] == prefix@[k],
        decreases prefix@.len() - i,
    {
        if s[i] != prefix[i] {
            proof {
                assert(s@.take(prefix@.len() as int)[i as int] != prefix@[i as int]);
            }
            return false;
        }
        i += 1;
    }
    proof {
        assert(s@.take(prefix@.len() as int) =~= prefix@);
    }
    true
}

/// Whether `c` occurs in `s`.
pub fn contains_char(s: &[char], c: char) -> (res: bool)
    ensures
        res == s@.contains(c),
{
    let mut i: usize = 0;
    while i < s.len()
        invariant
            i <= s@.len(),
            forall|k: int| 0 <= k < i ==> s@[k] != c,
        decreases s@.len() - i,
    {
        if s[i] == c {
            proof {
                assert(s@[i as int] == c);
            }
            return true;
        }
        i += 1;
    }
    false
}

/// Whether `pattern` occurs in `s` starting at index `at`.
pub open spec fn occurs_at(s: Seq<char>, pattern: Seq<char>, at: int) -> bool {
    0 <= at && at + pattern.len() <= s.len() && s.subrange(at, at + pattern.len()) == pattern
}

/// The index of the first occurrence of `pattern` in `s` at or after index `from`, if any.
pub open spec fn first_occurrence_from(s: Seq<char>, pattern: Seq<char>, from: int) -> Option<int>
    decreases s.len() + 1 - from,
{
    if from < 0 || from + pattern.len() > s.len() {
        None
    } else if occurs_at(s, pattern, from) {
        Some(from)
    } else {
        first_occurrence_from(s, pattern, from + 1)
    }
}

/// The index of the first occurrence of `pattern` in `s`, if any.
pub open spec fn first_occurrence(s: Seq<char>, pattern: Seq<char>) -> Option<int> {
    first_occurrence_from(s, pattern, 0)
}

/// Splits `s` at the first occurrence of `pattern`: the part before it, and the part after it
/// if `pattern` occurs.
pub open spec fn spec_split_once(s: Seq<char>, pattern: Seq<char>) -> (Seq<char>, Option<Seq<char>>) {
    match first_occurrence(s, pattern) {
        Some(at) => (s.take(at), Some(s.skip(at + pattern.len()))),
        None => (s, None),
    }
}

fn occurs_at_exec(s: &[char], pattern: &[char], at: usize) -> (res: bool)
    requires
        at + pattern@.len() <= s@.len(),
    ensures
        res == occurs_at(s@, pattern@, at as int),
{
    let n = s.len();
    let mut k: usize = 0;
    while k < pattern.len()
        invariant
            n == s@.len(),
            at + pattern@.len() <= s@.len(),
            k <= pattern@.len(),
            forall|t: int| 0 <= t < k ==> s@[at + t] == pattern@[t],
        decreases pattern@.len() - k,
    {
        assert(at + k < s@.len());
        if s[at + k] != pattern[k] {
            proof {
                assert(s@.subrange(at as int, at + pattern@.len())[k as int] != pattern@[k as int]);
            }
            return false;
        }
        k += 1;
    }
    proof {
        assert(s@.subrange(at as int, at + pattern@.len()) =~= pattern@);
    }
    true
}

/// Finds the first occurrence of `pattern` in `s`.
pub fn find(s: &[char], pattern: &[char]) -> (res: Option<usize>)
    ensures
        match res {
            Some(at) => first_occurrence(s@, pattern@) == Some(at as int) && at + pattern@.len() <= s@.len(),
            None => first_occurrence(s@, pattern@) is None,
        },
{
    if pattern.len() > s.len() {
        return None;
    }
    let last = s.len() - pattern.len();
    let mut at: usize = 0;
    while at <= last
        invariant
            last + pattern@.len() == s@.len(),
            at <= last + 1,
            first_occurrence(s@, pattern@) == first_occurrence_from(s@, pattern@, at as int),
        decreases last + 1 - at,
    {
        if occurs_at_exec(s, pattern, at) {
            return Some(at);
        }
        if at == last {
            proof {
                assert(first_occurrence_from(s@, pattern@, at + 1) is None);
            }
            return None;
        }
        at += 1;
    }
    None
}

/// Splits `s` at the first occurrence of `pattern`.
pub fn split_once(s: &[char], pattern: &[char]) -> (res: (Vec<char>, Option<Vec<char>>))
    ensures
        res.0@ == spec_split_once(s@, pattern@).0,
        match res.1 {
            Some(rest) => spec_split_once(s@, pattern@).1 == Some(rest@),
            None => spec_split_once(s@, pattern@).1 is None,
        },
{
    let n = s.len();
    match find(s, pattern) {
        Some(at) => {
            let before = slice_chars(s, 0, at);
            let after = slice_chars(s, at + pattern.len(), s.len());
            proof {
                assert(before@ == s@.take(at as int));
                assert(after@ == s@.skip(at + pattern@.len()));
            }
            (before, Some(after))
        },
        None => (slice_chars(s, 0, s.len()), None),
    }
}

/// Whether every character is an ASCII decimal digit.
pub open spec fn all_digits(s: Seq<char>) -> bool {
    forall|i: int| 0 <= i < s.len() ==> '0' <= #[trigger] s[i] <= '9'
}

pub open spec fn digit_value(c: char) -> int {
    c as int - '0' as int
}

/// The number that a sequence of decimal digits denotes.
pub open spec fn decimal_value(s: Seq<char>) -> int
    decreases s.len(),
{
    if s.len() == 0 {
        0
    } else {
        decimal_value(s.drop_last()) * 10 + digit_value(s.last())
    }
}

/// The integer denoted by an optional sign followed by at least one decimal digit.
pub open spec fn spec_parse_int(s: Seq<char>) -> Option<int> {
    if s.len() > 0 && (s[0] == '-' || s[0] == '+') {
        let digits = s.skip(1);
        if digits.len() > 0 && all_digits(digits) {
            if s[0] == '-' {
                Some(-decimal_value(digits))
            } else {
                Some(decimal_value(digits))
            }
        } else {
            None
        }
    } else if s.len() > 0 && all_digits(s) {
        Some(decimal_value(s))
    } else {
        None
    }
}

pub proof fn lemma_decimal_value_nonneg(s: Seq<char>)
    requires
        all_digits(s),
    ensures
        decimal_value(s) >= 0,
    decreases s.len(),
{
    if s.len() > 0 {
        lemma_decimal_value_nonneg(s.drop_last());
    }
}

proof fn lemma_decimal_value_grows(s: Seq<char>, k: int)
    requires
        all_digits(s),
        0 <= k <= s.len(),
    ensures
        decimal_value(s.take(k)) <= decimal_value(s),
    decreases s.len() - k,
{
    if k < s.len() {
        lemma_decimal_value_grows(s, k + 1);
        assert(s.take(k + 1).drop_last() == s.take(k));
        lemma_decimal_value_nonneg(s.take(k));
    } else {
        assert(s.take(k) == s);
    }
}

/// Parses the digits of `s` from index `start` on as a decimal number, giving up as soon as the
/// value exceeds `limit`.
fn parse_digits(s: &[char], start: usize, limit: u64) -> (res: Option<u64>)
    requires
        start <= s@.len(),
    ensures
        match res {
            Some(value) => all_digits(s@.skip(start as int)) && value == decimal_value(s@.skip(start as int))
                && value <= limit,
            None => !all_digits(s@.skip(start as int)) || decimal_value(s@.skip(start as int)) > limit,
        },
{
    let ghost digits = s@.skip(start as int);
    let mut value: u64 = 0;
    let mut i: usize = start;
    while i < s.len()
        invariant
            start <= i <= s@.len(),
            digits == s@.skip(start as int),
            all_digits(digits.take(i - start)),
            value == decimal_value(digits.take(i - start)),
            value <= limit,
        decreases s@.len() - i,
    {
        let c = s[i];
        proof {
            assert(digits.take(i - start + 1).drop_last() == digits.take(i - start));
            assert(digits[i - start] == c);
        }
        if c < '0' || c > '9' {
            proof {
                assert(!('0' <= digits[i - start] <= '9'));
            }
            return None;
        }
        let d = (c as u32 - '0' as u32) as u128;
        let next: u128 = value as u128 * 10 + d;
        proof {
            assert(all_digits(digits.take(i - start + 1)));
        }
        if next > limit as u128 {
            proof {
                assert(!all_digits(digits) || decimal_value(digits) > limit) by {
                    if all_digits(digits) {
                        lemma_decimal_value_grows(digits, i - start + 1);
                    }
                }
            }
            return None;
        }
        value = next as u64;
        i += 1;
    }
    proof {
        assert(digits.take(i - start) == digits);
    }
    Some(value)
}

/// Parses a string the way `str::parse::<i32>` does.
pub fn parse_i32(s: &[char]) -> (res: Option<i32>)
    ensures
        match res {
            Some(value) => spec_parse_int(s@) == Some(value as int),
            None => match spec_parse_int(s@) {
                Some(v) => v < i32::MIN || v > i32::MAX,
                None => true,
            },
        },
{
    if s.len() == 0 {
        return None;
    }
    if s[0] == '-' || s[0] == '+' {
        if s.len() == 1 {
            return None;
        }
        let negative = s[0] == '-';
        let limit: u64 = if negative { 2147483648 } else { 2147483647 };
        match parse_digits(s, 1, limit) {
            Some(value) => {
                if negative {
                    Some((0 - (value as i64)) as i32)
                } else {
                    Some(value as i32)
                }
            },
            None => None,
        }
    } else {
        match parse_digits(s, 0, 2147483647) {
            Some(value) => {
                proof {
                    assert(s@.skip(0) == s@);
                }
                Some(value as i32)
            },
            None => {
                proof {
                    assert(s@.skip(0) == s@);
                }
                None
            },
        }
    }
}

/// The value of a nonnegative decimal number, the way `str::parse` for unsigned integers reads it.
pub open spec fn spec_parse_unsigned(s: Seq<char>) -> Option<int> {
    if s.len() > 0 && s[0] == '+' {
        let digits = s.skip(1);
        if digits.len() > 0 && all_digits(digits) {
            Some(decimal_value(digits))
        } else {
            None
        }
    } else if s.len() > 0 && all_digits(s) {
        Some(decimal_value(s))
    } else {
        None
    }
}

/// Parses a string the way `str::parse` does for unsigned integers up to `limit`.
pub fn parse_unsigned(s: &[char], limit: u64) -> (res: Option<u64>)
    ensures
        match res {
            Some(value) => spec_parse_unsigned(s@) == Some(value as int) && value <= limit,
            None => match spec_parse_unsigned(s@) {
                Some(v) => v > limit,
                None => true,
            },
        },
{
    if s.len() == 0 {
        return None;
    }
    if s[0] == '+' {
        if s.len() == 1 {
            return None;
        }
        parse_digits(s, 1, limit)
    } else {
        proof {
            assert(s@.skip(0) == s@);
        }
        parse_digits(s, 0, limit)
    }
}


pub open spec fn digit_char(d: nat) -> char {
    ((d % 10) + 48) as char
}

/// The decimal representation of a natural number, without leading zeroes.
pub open spec fn spec_decimal(n: nat) -> Seq<char>
    decreases n,
{
    if n < 10 {
        seq![digit_char(n)]
    } else {
        spec_decimal(n / 10).push(digit_char(n % 10))
    }
}

/// The decimal representation of a number is a nonempty string of digits that denotes it.
pub proof fn lemma_decimal_round_trip(n: nat)
    ensures
        spec_decimal(n).len() > 0,
        all_digits(spec_decimal(n)),
        decimal_value(spec_decimal(n)) == n,
        spec_parse_unsigned(spec_decimal(n)) == Some(n as int),
    decreases n,
{
    if n < 10 {
        let s = spec_decimal(n);
        assert(s == seq![digit_char(n)]);
        assert(s.drop_last().len() == 0);
        assert(decimal_value(s.drop_last()) == 0);
    } else {
        lemma_decimal_round_trip(n / 10);
        let s = spec_decimal(n);
        let prefix = spec_decimal(n / 10);
        assert(s.drop_last() == prefix);
        assert(s.last() == digit_char(n % 10));
        assert(digit_value(digit_char(n % 10)) == n % 10);
        assert(forall|i: int| 0 <= i < prefix.len() ==> s[i] == prefix[i]);
        assert(n == (n / 10) * 10 + n % 10);
    }
    let s = spec_decimal(n);
    assert(s[0] != '+');
}

proof fn lemma_first_occurrence_at(s: Seq<char>, pattern: Seq<char>, from: int, at: int)
    requires
        0 <= from <= at,
        occurs_at(s, pattern, at),
        forall|i: int| from <= i < at ==> !occurs_at(s, pattern, i),
    ensures
        first_occurrence_from(s, pattern, from) == Some(at),
    decreases at - from,
{
    if from < at {
        assert(!occurs_at(s, pattern, from));
        lemma_first_occurrence_at(s, pattern, from + 1, at);
    }
}

proof fn lemma_no_occurrence_from(s: Seq<char>, pattern: Seq<char>, from: int)
    requires
        0 <= from,
        pattern.len() > 0,
        !s.contains(pattern[0]),
    ensures
        first_occurrence_from(s, pattern, from) is None,
    decreases s.len() + 1 - from,
{
    if from + pattern.len() <= s.len() {
        if occurs_at(s, pattern, from) {
            assert(s.subrange(from, from + pattern.len())[0] == s[from]);
        }
        lemma_no_occurrence_from(s, pattern, from + 1);
    }
}

/// A string in which the first character of a separator does not occur is not split by it.
pub proof fn lemma_split_once_absent(s: Seq<char>, sep: Seq<char>)
    requires
        sep.len() > 0,
        !s.contains(sep[0]),
    ensures
        spec_split_once(s, sep) == (s, Option::<Seq<char>>::None),
{
    lemma_no_occurrence_from(s, sep, 0);
}

/// Splitting `a`, a separator and `b` at the first occurrence of the separator gives back `a` and
/// `b`, when the first character of the separator does not occur in `a`.
pub proof fn lemma_split_once_joined(a: Seq<char>, sep: Seq<char>, b: Seq<char>)
    requires
        sep.len() > 0,
        !a.contains(sep[0]),
    ensures
        spec_split_once(a + sep + b, sep) == (a, Some(b)),
{
    let s = a + sep + b;
    assert(s.subrange(a.len() as int, (a.len() + sep.len()) as int) =~= sep);
    assert forall|i: int| 0 <= i < a.len() implies !occurs_at(s, sep, i) by {
        if occurs_at(s, sep, i) {
            assert(s.subrange(i, i + sep.len())[0] == s[i]);
            assert(s[i] == a[i]);
        }
    }
    lemma_first_occurrence_at(s, sep, 0, a.len() as int);
    assert(s.take(a.len() as int) =~= a);
    assert(s.skip((a.len() + sep.len()) as int) =~= b);
}

/// The decimal representation of an integer, with its sign, reads back as that integer.
pub proof fn lemma_signed_decimal_round_trip(v: int)
    ensures
        spec_parse_int(spec_signed_decimal(v)) == Some(v),
{
    if v < 0 {
        let n = (-v) as nat;
        lemma_decimal_round_trip(n);
        let s = spec_signed_decimal(v);
        assert(s.skip(1) =~= spec_decimal(n));
        assert(s[0] == '-');
    } else {
        lemma_decimal_round_trip(v as nat);
        let s = spec_decimal(v as nat);
        assert('0' <= s[0] <= '9');
    }
}

/// The decimal representation of an integer, with a minus sign for negative numbers.
pub open spec fn spec_signed_decimal(v: int) -> Seq<char> {
    if v < 0 {
        seq!['-'] + spec_decimal((-v) as nat)
    } else {
        spec_decimal(v as nat)
    }
}

/// The decimal representation of `n`.
pub fn decimal_chars(n: u64) -> (res: Vec<char>)
    ensures
        res@ == spec_decimal(n as nat),
    decreases n,
{
    let digit = ((n % 10) as u8 + 48u8) as char;
    proof {
        assert(digit == digit_char(n as nat));
    }
    if n < 10 {
        let mut res = Vec::new();
        res.push(digit);
        res
    } else {
        let mut res = decimal_chars(n / 10);
        res.push(digit);
        res
    }
}

/// The decimal representation of `v`, with a minus sign for negative numbers.
pub fn signed_decimal_chars(v: i64) -> (res: Vec<char>)
    requires
        v > i64::MIN,
    ensures
        res@ == spec_signed_decimal(v as int),
{
    if v < 0 {
        let digits = decimal_chars((-v) as u64);
        let mut res = Vec::new();
        res.push('-');
        concat_chars(res.as_slice(), digits.as_slice())
    } else {
        decimal_chars(v as u64)
    }
}


/// The owned string holding the characters of `s`.
pub fn owned(s: &str) -> (res: String)
    ensures
        res@ == s@,
{
    let chars = chars_of(s);
    string_from_chars(chars.as_slice())
}

/// All pieces one after another.
pub open spec fn flatten_strs(parts: Seq<&str>) -> Seq<char>
    decreases parts.len(),
{
    if parts.len() == 0 {
        Seq::empty()
    } else {
        flatten_strs(parts.drop_last()) + parts.last()@
    }
}

/// Joins the pieces of a message into one string.
pub fn join_strs(parts: &[&str]) -> (res: String)
    ensures
        res@ == flatten_strs(parts@),
{
    let mut out: Vec<char> = Vec::new();
    let mut i: usize = 0;
    while i < parts.len()
        invariant
            i <= parts@.len(),
            out@ == flatten_strs(parts@.take(i as int)),
        decreases parts@.len() - i,
    {
        let piece = chars_of(parts[i]);
        out = concat_chars(out.as_slice(), piece.as_slice());
        i += 1;
        proof {
            assert(parts@.take(i as int).drop_last() == parts@.take(i - 1));
        }
    }
    proof {
        assert(parts@.take(parts@.len() as int) == parts@);
    }
    string_from_chars(out.as_slice())
}

/// The characters of each string.
pub open spec fn strings_view(list: Seq<String>) -> Seq<Seq<char>> {
    list.map_values(|s: String| s@)
}

/// Whether one of the strings in the list is `s`.
pub open spec fn strs_contain(list: Seq<&str>, s: Seq<char>) -> bool {
    exists|i: int| 0 <= i < list.len() && (#[trigger] list[i])@ == s
}

/// Whether one of the strings in the list is `s`.
pub fn str_in(list: &[&str], s: &[char]) -> (res: bool)
    ensures
        res == strs_contain(list@, s@),
{
    let mut i: usize = 0;
    while i < list.len()
        invariant
            i <= list@.len(),
            forall|k: int| 0 <= k < i ==> (#[trigger] list@[k])@ != s@,
        decreases list@.len() - i,
    {
        let candidate = chars_of(list[i]);
        if chars_eq(candidate.as_slice(), s) {
            return true;
        }
        i += 1;
    }
    false
}

} // verus!
