//! The --delay argument and its period.

use vstd::prelude::*;

use crate::arguments::group::{
    all_parse, clause_values, parse_key_list, parsed_keys_are, spec_group_from, spec_keys_or_empty_key, ComplexArgGroup,
};
use crate::domain::DomainTracker;
use crate::error::ArgumentError;
use crate::key::{plain_parser, Key, KeyParser};
use crate::text::{strings_view,
    all_digits, chars_of, decimal_value, join_strs, parse_unsigned, spec_parse_unsigned, spec_split_once, split_once,
};
use crate::time::Duration;

verus! {

pub open spec fn pow10(n: nat) -> int
    decreases n,
{
    if n == 0 {
        1
    } else {
        10 * pow10((n - 1) as nat)
    }
}

/// The nanoseconds that the part after the decimal point stands for, or None if it is no
/// number or more precise than nanoseconds.
pub open spec fn spec_fraction_nanos(after: Option<Seq<char>>) -> Option<int> {
    match after {
        None => Some(0),
        Some(a) => match spec_parse_unsigned(a) {
            Some(u) => if u <= u64::MAX && a.len() <= 9 {
                Some(u * pow10((9 - a.len()) as nat))
            } else {
                None
            },
            None => None,
        },
    }
}

/// The whole seconds and the nanoseconds of a period like "2.04", if both parts are numbers.
pub open spec fn spec_period_parts(value: Seq<char>) -> Option<(int, int)> {
    if value.len() == 0 || value[0] == '-' {
        None
    } else {
        let (before, after) = spec_split_once(value, seq!['.']);
        match spec_parse_unsigned(before) {
            Some(seconds) => if seconds <= u64::MAX {
                match spec_fraction_nanos(after) {
                    Some(nanos) => Some((seconds, nanos)),
                    None => None,
                }
            } else {
                None
            },
            None => None,
        }
    }
}

/// The nanoseconds that a period stands for; None for errors, including a period of zero.
pub open spec fn spec_period_nanos(value: Seq<char>) -> Option<int> {
    match spec_period_parts(value) {
        Some((seconds, nanos)) => if seconds * 1_000_000_000 + nanos == 0 {
            None
        } else {
            Some(seconds * 1_000_000_000 + nanos)
        },
        None => None,
    }
}

/// Whether a period is too long to be counted in nanoseconds.
pub open spec fn spec_period_overflows(value: Seq<char>) -> bool {
    match spec_period_parts(value) {
        Some((seconds, nanos)) => seconds * 1_000_000_000 + nanos > u64::MAX,
        None => false,
    }
}

proof fn lemma_pow10_positive(n: nat)
    ensures
        pow10(n) >= 1,
    decreases n,
{
    if n > 0 {
        lemma_pow10_positive((n - 1) as nat);
    }
}

proof fn lemma_pow10_monotone(a: nat, b: nat)
    requires
        a <= b,
    ensures
        pow10(a) <= pow10(b),
    decreases b,
{
    if a < b {
        lemma_pow10_monotone(a, (b - 1) as nat);
        lemma_pow10_positive((b - 1) as nat);
    }
}

proof fn lemma_pow10_bounds(n: nat)
    ensures
        pow10(n) >= 1,
        n <= 9 ==> pow10(n) <= 1_000_000_000,
{
    lemma_pow10_positive(n);
    if n <= 9 {
        assert(pow10(9) == 1_000_000_000) by {
            reveal_with_fuel(pow10, 10);
        }
        lemma_pow10_monotone(n, 9);
    }
}

proof fn lemma_decimal_value_below(s: Seq<char>)
    requires
        all_digits(s),
    ensures
        decimal_value(s) < pow10(s.len()),
    decreases s.len(),
{
    if s.len() > 0 {
        lemma_decimal_value_below(s.drop_last());
        assert(all_digits(s.drop_last()));
    }
}

proof fn lemma_unsigned_below(s: Seq<char>, u: int)
    requires
        spec_parse_unsigned(s) == Some(u),
    ensures
        u < pow10(s.len()),
{
    if s[0] == '+' {
        lemma_decimal_value_below(s.skip(1));
        lemma_pow10_monotone((s.len() - 1) as nat, s.len());
    } else {
        lemma_decimal_value_below(s);
    }
}

/// The whole seconds and the nanoseconds of a period, as `spec_period_parts` says.
fn period_parts(chars: &[char]) -> (res: Option<(u64, u64)>)
    ensures
        match res {
            Some((seconds, nanos)) => spec_period_parts(chars@) == Some((seconds as int, nanos as int))
                && nanos < 1_000_000_000,
            None => spec_period_parts(chars@) is None,
        },
{
    if chars.len() == 0 || chars[0] == '-' {
        return None;
    }
    let dot = vec!['.'];
    proof {
        assert(dot@ =~= seq!['.']);
    }
    let (before, after) = split_once(chars, dot.as_slice());
    let seconds = match parse_unsigned(before.as_slice(), u64::MAX) {
        Some(seconds) => seconds,
        None => return None,
    };
    match after {
        None => Some((seconds, 0)),
        Some(fraction) => {
            let as_uint = match parse_unsigned(fraction.as_slice(), u64::MAX) {
                Some(v) => v,
                None => return None,
            };
            if fraction.len() > 9 {
                return None;
            }
            proof {
                lemma_unsigned_below(fraction@, as_uint as int);
            }
            let mut factor: u64 = 1;
            let mut k: usize = fraction.len();
            while k < 9
                invariant
                    fraction@.len() <= k <= 9,
                    factor == pow10((k - fraction@.len()) as nat),
                    as_uint < pow10(fraction@.len()),
                    as_uint * factor < pow10(k as nat),
                decreases 9 - k,
            {
                proof {
                    lemma_pow10_bounds((k - fraction@.len()) as nat);
                    lemma_pow10_bounds((k + 1) as nat);
                    assert(pow10((k + 1 - fraction@.len()) as nat) == 10 * pow10((k - fraction@.len()) as nat));
                    assert(pow10((k + 1) as nat) == 10 * pow10(k as nat));
                    assert(as_uint * (factor * 10) == (as_uint * factor) * 10) by (nonlinear_arith);
                    lemma_pow10_monotone((k - fraction@.len() + 1) as nat, 9);
                }
                factor = factor * 10;
                k += 1;
            }
            proof {
                lemma_pow10_bounds(9);
            }
            Some((seconds, as_uint * factor))
        },
    }
}

/// Parses a number of seconds with up to nanosecond precision.
pub fn parse_period_value(value: &str) -> (res: Result<Duration, ArgumentError>)
    requires
        !spec_period_overflows(value@),
    ensures
        match res {
            Ok(duration) => spec_period_nanos(value@) == Some(duration@ as int),
            Err(_) => spec_period_nanos(value@) is None,
        },
{
    let chars = chars_of(value);
    if chars.len() == 0 {
        return Err(ArgumentError::new(join_strs(&["Empty period specified."])));
    }
    if chars[0] == '-' {
        return Err(ArgumentError::new(join_strs(&["The period must be nonnegative."])));
    }
    let (seconds, nanoseconds) = match period_parts(chars.as_slice()) {
        Some(parts) => parts,
        None => {
            return Err(ArgumentError::new(join_strs(&[
                "Cannot interpret ", value, " as a period of time with at most nanosecond precision.",
            ])));
        },
    };
    let total: u64 = seconds * 1_000_000_000 + nanoseconds;
    if total == 0 {
        return Err(ArgumentError::new(join_strs(&["Cannot specify a period of zero."])));
    }
    Ok(Duration::from_nanos(total))
}

/// Whether a period can be parsed without its length overflowing.
pub fn period_fits(value: &str) -> (res: bool)
    ensures
        res == !spec_period_overflows(value@),
{
    let chars = chars_of(value);
    match period_parts(chars.as_slice()) {
        Some((seconds, nanoseconds)) => (seconds as u128) * 1_000_000_000 + (nanoseconds as u128) <= u64::MAX as u128,
        None => true,
    }
}

/// A --delay argument: the keys of the events to delay, and by how long.
pub struct DelayArg {
    pub keys: Vec<Key>,
    pub period: Duration,
}

/// What a --delay argument says, as plain values.
pub struct DelayView {
    pub key_strs: Seq<Seq<char>>,
    pub nanos: int,
}

/// What a --delay argument says, or None if it is not acceptable: its keys must parse, and it
/// needs exactly one period clause, which must be a positive number of seconds.
pub open spec fn spec_delay_arg(args: Seq<Seq<char>>) -> Option<DelayView> {
    match spec_group_from(args, Seq::empty(), seq!["period"], false, true) {
        None => None,
        Some(group) => {
            let strs = spec_keys_or_empty_key(group.keys);
            let periods = clause_values(group.clauses, "period"@);
            if !all_parse(plain_parser(true, true, true, true, false), strs) || periods.len() != 1 {
                None
            } else {
                match spec_period_nanos(periods[0]) {
                    Some(nanos) => Some(DelayView { key_strs: strs, nanos }),
                    None => None,
                }
            }
        },
    }
}

/// Whether the period clauses of an argument, grouped with the given flags and clauses, are short
/// enough to be counted in nanoseconds.
pub open spec fn periods_fit_for(args: Seq<Seq<char>>, flags: Seq<&str>, clauses: Seq<&str>) -> bool {
    spec_group_from(args, flags, clauses, false, true) matches Some(group)
        ==> forall|i: int| 0 <= i < clause_values(group.clauses, "period"@).len()
            ==> !spec_period_overflows(#[trigger] clause_values(group.clauses, "period"@)[i])
}

/// Whether the period clauses of a --delay argument are short enough to be counted in nanoseconds.
pub open spec fn periods_fit(args: Seq<Seq<char>>) -> bool {
    periods_fit_for(args, Seq::empty(), seq!["period"])
}

impl DelayArg {
    /// Parses a --delay argument, resolving the domain names of its keys.
    pub fn parse(args: Vec<String>, domains: &mut DomainTracker) -> (res: Result<DelayArg, ArgumentError>)
        requires
            old(domains).well_formed(),
            old(domains).next_id() + 2 * args@.len() + 2 < usize::MAX,
            periods_fit(strings_view(args@)),
        ensures
            final(domains).well_formed(),
            final(domains).next_id() <= old(domains).next_id() + 2 * args@.len() + 2,
            forall|name: Seq<char>| old(domains).lookup(name) is Some ==> final(domains).lookup(name) == old(domains).lookup(name),
            match res {
                Ok(arg) => spec_delay_arg(strings_view(args@)) matches Some(view)
                    && parsed_keys_are(arg.keys@, plain_parser(true, true, true, true, false), view.key_strs, *final(domains))
                    && arg.period@ == view.nanos,
                Err(_) => spec_delay_arg(strings_view(args@)) is None,
            },
    {
        let ghost argv = strings_view(args@);
        let flags: Vec<&str> = Vec::new();
        let clauses: Vec<&str> = vec!["period"];
        proof {
            assert(flags@ =~= Seq::<&str>::empty());
            assert(clauses@ =~= seq!["period"]);
        }
        let arg_group = ComplexArgGroup::parse(args, flags.as_slice(), clauses.as_slice(), false, true, domains)?;
        proof {
            crate::arguments::group::lemma_group_keys_bounded(argv, Seq::empty(), seq!["period"], false, true);
        }
        let strs = arg_group.get_keys_or_empty_key();
        proof {
            assert(strings_view(strs@) == spec_keys_or_empty_key(arg_group@.keys));
            assert(strs@.len() == strings_view(strs@).len());
        }
        let keys = parse_key_list(&KeyParser::default_filter(), &strs, domains)?;
        let value = arg_group.require_unique_clause("period")?;
        proof {
            let periods = clause_values(arg_group@.clauses, "period"@);
            assert(periods[0] == value@);
            assert(!spec_period_overflows(periods[0]));
        }
        let period = parse_period_value(value.as_str())?;
        Ok(DelayArg { keys, period })
    }
}

} // verus!
