//! The grammar of relative event values, such as in
//!     --map abs:z abs:z:30-4x+d
//!
//! A relative value is a sum of terms. Each term has a sign, a numeric factor and a variable:
//! `x` (the value of the event), `d` (the change in value since the previous event), or none at
//! all (a constant). This module reads that grammar exactly; computing with the factors is left to
//! whoever applies the expression to events.

use vstd::prelude::*;

use crate::error::ArgumentError;
use crate::text::{chars_of, join_strs, parse_i32, spec_parse_int, string_from_chars};

verus! {

#[derive(Clone, Copy, PartialEq, Eq, Debug, Structural)]
pub enum Variable {
    Value,
    Delta,
    One,
}

#[derive(Clone, Copy, PartialEq, Eq, Debug, Structural)]
pub enum Sign {
    Positive,
    Negative,
}

#[derive(Clone, Debug)]
pub enum Part {
    Sign(Sign),
    Numeric(Vec<char>),
    Variable(Variable),
}

/// What a lexed part stands for, with numerals by their characters.
pub enum PartView {
    Sign(Sign),
    Numeric(Seq<char>),
    Variable(Variable),
}

pub open spec fn part_view(part: Part) -> PartView {
    match part {
        Part::Sign(sign) => PartView::Sign(sign),
        Part::Numeric(chars) => PartView::Numeric(chars@),
        Part::Variable(variable) => PartView::Variable(variable),
    }
}

pub open spec fn parts_view(parts: Seq<Part>) -> Seq<PartView> {
    parts.map_values(|part: Part| part_view(part))
}

/// Splits a relative value into signs, numerals (runs of digits and dots) and variables.
/// Returns None if the value contains any other character.
pub open spec fn spec_lex_to_parts(source: Seq<char>) -> Option<Seq<PartView>>
    decreases source.len(),
{
    if source.len() == 0 {
        Some(Seq::empty())
    } else {
        match spec_lex_to_parts(source.drop_last()) {
            None => None,
            Some(parts) => {
                let c = source.last();
                if c == '-' {
                    Some(parts.push(PartView::Sign(Sign::Negative)))
                } else if c == '+' {
                    Some(parts.push(PartView::Sign(Sign::Positive)))
                } else if ('0' <= c <= '9') || c == '.' {
                    if parts.len() > 0 && parts.last() is Numeric {
                        Some(parts.drop_last().push(PartView::Numeric(parts.last()->Numeric_0.push(c))))
                    } else {
                        Some(parts.push(PartView::Numeric(seq![c])))
                    }
                } else if c == 'x' {
                    Some(parts.push(PartView::Variable(Variable::Value)))
                } else if c == 'd' {
                    Some(parts.push(PartView::Variable(Variable::Delta)))
                } else {
                    None
                }
            },
        }
    }
}

pub fn lex_to_parts(source: &str) -> (res: Result<Vec<Part>, ArgumentError>)
    ensures
        match res {
            Ok(parts) => spec_lex_to_parts(source@) == Some(parts_view(parts@)),
            Err(_) => spec_lex_to_parts(source@) is None,
        },
{
    let chars = chars_of(source);
    let mut parts: Vec<Part> = Vec::new();
    let mut i: usize = 0;
    while i < chars.len()
        invariant
            chars@ == source@,
            i <= chars@.len(),
            spec_lex_to_parts(source@.take(i as int)) == Some(parts_view(parts@)),
        decreases chars@.len() - i,
    {
        let character = chars[i];
        let ghost prefix = source@.take(i as int + 1);
        let ghost before = parts_view(parts@);
        proof {
            assert(prefix.drop_last() == source@.take(i as int));
            assert(prefix.last() == character);
        }
        if character == '-' {
            parts.push(Part::Sign(Sign::Negative));
        } else if character == '+' {
            parts.push(Part::Sign(Sign::Positive));
        } else if ('0' <= character && character <= '9') || character == '.' {
            let n = parts.len();
            let extend = n > 0 && match &parts[n - 1] {
                Part::Numeric(_) => true,
                _ => false,
            };
            if extend {
                let last = parts.pop();
                match last {
                    Some(Part::Numeric(mut vector)) => {
                        let ghost old_vector = vector@;
                        vector.push(character);
                        parts.push(Part::Numeric(vector));
                        proof {
                            assert(before.last() == PartView::Numeric(old_vector));
                        }
                    },
                    _ => {},
                }
            } else {
                let mut vector = Vec::new();
                vector.push(character);
                parts.push(Part::Numeric(vector));
                proof {
                    assert(vector@ == seq![character]);
                }
            }
        } else if character == 'x' {
            parts.push(Part::Variable(Variable::Value));
        } else if character == 'd' {
            parts.push(Part::Variable(Variable::Delta));
        } else {
            let invalid = string_from_chars(&[character]);
            proof {
                assert(spec_lex_to_parts(prefix) is None);
                lemma_lex_none_extends(source@, i as int + 1);
            }
            return Err(ArgumentError::new(join_strs(&["Invalid character: ", invalid.as_str()])));
        }
        proof {
            assert(parts_view(parts@) =~= spec_lex_to_parts(prefix).unwrap());
        }
        i += 1;
    }
    proof {
        assert(source@.take(chars@.len() as int) == source@);
    }
    Ok(parts)
}

proof fn lemma_lex_none_extends(source: Seq<char>, k: int)
    requires
        0 <= k <= source.len(),
        spec_lex_to_parts(source.take(k)) is None,
    ensures
        spec_lex_to_parts(source) is None,
    decreases source.len() - k,
{
    if k < source.len() {
        assert(source.take(k + 1).drop_last() == source.take(k));
        lemma_lex_none_extends(source, k + 1);
    } else {
        assert(source.take(k) == source);
    }
}

/// One term of a relative value: a sign, a numeral and a variable.
#[derive(Clone, Debug)]
pub struct Component {
    pub sign: Sign,
    pub numeral: Vec<char>,
    pub variable: Variable,
}

pub struct ComponentView {
    pub sign: Sign,
    pub numeral: Seq<char>,
    pub variable: Variable,
}

pub open spec fn components_view(components: Seq<Component>) -> Seq<ComponentView> {
    components.map_values(|c: Component| ComponentView { sign: c.sign, numeral: c.numeral@, variable: c.variable })
}

/// Whether a numeral is a valid decimal number: at least one digit and at most one dot.
pub open spec fn is_decimal_numeral(numeral: Seq<char>) -> bool {
    &&& exists|i: int| 0 <= i < numeral.len() && '0' <= #[trigger] numeral[i] <= '9'
    &&& forall|i: int, j: int| 0 <= i < j < numeral.len() && #[trigger] numeral[i] == '.' ==> #[trigger] numeral[j] != '.'
}

/// A numeral is acceptable for its variable: constants must be integers that fit an i32, factors
/// of `x` and `d` may be any decimal number.
pub open spec fn numeral_fits(numeral: Seq<char>, variable: Variable) -> bool {
    match variable {
        Variable::One => match spec_parse_int(numeral) {
            Some(v) => i32::MIN <= v <= i32::MAX,
            None => false,
        },
        _ => is_decimal_numeral(numeral),
    }
}

/// Reads the terms from the parts, starting at index `from`, where each term must start with a sign.
pub open spec fn spec_components_from(parts: Seq<PartView>, from: int) -> Option<Seq<ComponentView>>
    decreases parts.len() - from,
{
    if from < 0 || from >= parts.len() {
        Some(Seq::empty())
    } else {
        match parts[from] {
            PartView::Sign(sign) => if from + 1 >= parts.len() {
                None
            } else {
                match parts[from + 1] {
                    PartView::Variable(variable) => match spec_components_from(parts, from + 2) {
                        Some(rest) => Some(seq![ComponentView { sign, numeral: seq!['1'], variable }] + rest),
                        None => None,
                    },
                    PartView::Numeric(numeral) => {
                        let (variable, next) = if from + 2 < parts.len() && parts[from + 2] is Variable {
                            (parts[from + 2]->Variable_0, from + 3)
                        } else {
                            (Variable::One, from + 2)
                        };
                        if numeral_fits(numeral, variable) {
                            match spec_components_from(parts, next) {
                                Some(rest) => Some(seq![ComponentView { sign, numeral, variable }] + rest),
                                None => None,
                            }
                        } else {
                            None
                        }
                    },
                    PartView::Sign(_) => None,
                }
            },
            _ => None,
        }
    }
}

/// The terms of a relative value, or None if it is not a valid relative value.
pub open spec fn spec_lex_to_components(source: Seq<char>) -> Option<Seq<ComponentView>> {
    match spec_lex_to_parts(source) {
        None => None,
        Some(parts) => if parts.len() == 0 {
            None
        } else if parts[0] is Sign {
            spec_components_from(parts, 0)
        } else {
            spec_components_from(seq![PartView::Sign(Sign::Positive)] + parts, 0)
        },
    }
}

fn is_decimal_numeral_exec(numeral: &[char]) -> (res: bool)
    ensures
        res == is_decimal_numeral(numeral@),
{
    let mut has_digit = false;
    let mut dot_at: Option<usize> = None;
    let mut i: usize = 0;
    while i < numeral.len()
        invariant
            i <= numeral@.len(),
            has_digit == exists|k: int| 0 <= k < i && '0' <= #[trigger] numeral@[k] <= '9',
            match dot_at {
                Some(at) => at < i && numeral@[at as int] == '.'
                    && forall|k: int| 0 <= k < i && k != at ==> #[trigger] numeral@[k] != '.',
                None => forall|k: int| 0 <= k < i ==> #[trigger] numeral@[k] != '.',
            },
        decreases numeral@.len() - i,
    {
        let c = numeral[i];
        if '0' <= c && c <= '9' {
            has_digit = true;
        }
        if c == '.' {
            if dot_at.is_some() {
                proof {
                    let at = dot_at.unwrap();
                    assert(numeral@[at as int] == '.' && numeral@[i as int] == '.');
                }
                return false;
            }
            dot_at = Some(i);
        }
        i += 1;
    }
    has_digit
}

fn numeral_fits_exec(numeral: &[char], variable: Variable) -> (res: bool)
    ensures
        res == numeral_fits(numeral@, variable),
{
    match variable {
        Variable::One => parse_i32(numeral).is_some(),
        _ => is_decimal_numeral_exec(numeral),
    }
}

/// Splits a relative value into its terms.
pub fn lex_to_components(source: &str) -> (res: Result<Vec<Component>, ArgumentError>)
    ensures
        match res {
            Ok(components) => spec_lex_to_components(source@) == Some(components_view(components@)),
            Err(_) => spec_lex_to_components(source@) is None,
        },
{
    let mut parts = lex_to_parts(source)?;
    if parts.len() == 0 {
        return Err(ArgumentError::new(join_strs(&["Empty value."])));
    }
    // Add implicit first sign.
    let starts_with_sign = match &parts[0] {
        Part::Sign(_) => true,
        _ => false,
    };
    let ghost lexed = parts_view(parts@);
    if !starts_with_sign {
        parts.insert(0, Part::Sign(Sign::Positive));
    }
    let ghost all = parts_view(parts@);
    proof {
        if !starts_with_sign {
            assert(all =~= seq![PartView::Sign(Sign::Positive)] + lexed);
        }
        assert(spec_lex_to_components(source@) == spec_components_from(all, 0));
    }
    let total = parts.len();

    let mut components: Vec<Component> = Vec::new();
    let mut i: usize = 0;
    while i < total
        invariant
            total == all.len(),
            all == parts_view(parts@),
            spec_lex_to_components(source@) == spec_components_from(all, 0),
            i <= total,
            spec_components_from(all, 0) == match spec_components_from(all, i as int) {
                Some(rest) => Some(components_view(components@) + rest),
                None => None,
            },
        decreases total - i,
    {
        let sign = match &parts[i] {
            Part::Sign(sign) => *sign,
            _ => {
                proof {
                    assert(spec_components_from(all, i as int) is None);
                }
                return Err(ArgumentError::new(join_strs(&["Expected sign, found something else."])));
            },
        };
        if i + 1 >= total {
            proof {
                assert(spec_components_from(all, i as int) is None);
            }
            return Err(ArgumentError::new(join_strs(&["Invalid expression."])));
        }
        let ghost before = components_view(components@);
        match &parts[i + 1] {
            Part::Variable(variable) => {
                let mut numeral = Vec::new();
                numeral.push('1');
                let component = Component { sign, numeral, variable: *variable };
                components.push(component);
                proof {
                    let head = ComponentView { sign, numeral: seq!['1'], variable: *variable };
                    assert(numeral@ == seq!['1']);
                    assert(components_view(components@) =~= before + seq![head]);
                    let rest = spec_components_from(all, i + 2);
                    if rest is Some {
                        assert(before + (seq![head] + rest.unwrap()) =~= (before + seq![head]) + rest.unwrap());
                    }
                }
                i += 2;
            },
            Part::Numeric(numeral) => {
                let (variable, next) = if i + 2 < total {
                    match &parts[i + 2] {
                        Part::Variable(variable) => (*variable, i + 3),
                        _ => (Variable::One, i + 2),
                    }
                } else {
                    (Variable::One, i + 2)
                };
                if !numeral_fits_exec(numeral.as_slice(), variable) {
                    proof {
                        assert(spec_components_from(all, i as int) is None);
                    }
                    return Err(ArgumentError::new(join_strs(&[
                        match variable {
                            Variable::One => "Cannot parse factor as integer.",
                            _ => "Cannot parse factor as number.",
                        },
                    ])));
                }
                let component = Component { sign, numeral: numeral.clone(), variable };
                proof {
                    assert(component.numeral@ == numeral@);
                }
                components.push(component);
                proof {
                    let head = ComponentView { sign, numeral: numeral@, variable };
                    assert(components_view(components@) =~= before + seq![head]);
                    let rest = spec_components_from(all, next as int);
                    if rest is Some {
                        assert(before + (seq![head] + rest.unwrap()) =~= (before + seq![head]) + rest.unwrap());
                    }
                }
                i = next;
            },
            Part::Sign(_) => {
                proof {
                    assert(spec_components_from(all, i as int) is None);
                }
                return Err(ArgumentError::new(join_strs(&["Invalid expression."])));
            },
        }
    }
    proof {
        assert(components_view(components@) + Seq::<ComponentView>::empty() =~= components_view(components@));
    }
    Ok(components)
}

/// A relative value, kept as the terms it was written as.
#[derive(Clone, Debug)]
pub struct AffineFactor {
    pub components: Vec<Component>,
}

/// Whether a numeral denotes zero.
pub open spec fn is_zero_numeral(numeral: Seq<char>) -> bool {
    forall|i: int| 0 <= i < numeral.len() ==> #[trigger] numeral[i] == '0' || numeral[i] == '.'
}

/// The sum of the constant terms.
pub open spec fn constant_sum(components: Seq<ComponentView>) -> int
    decreases components.len(),
{
    if components.len() == 0 {
        0
    } else {
        let c = components.last();
        let term = if c.variable is One {
            match spec_parse_int(c.numeral) {
                Some(v) => if i32::MIN <= v <= i32::MAX {
                    if c.sign is Negative { -v } else { v }
                } else {
                    0
                },
                None => 0,
            }
        } else {
            0
        };
        constant_sum(components.drop_last()) + term
    }
}

pub open spec fn saturate_i32(v: int) -> i32 {
    if v < i32::MIN {
        i32::MIN
    } else if v > i32::MAX {
        i32::MAX
    } else {
        v as i32
    }
}

/// A relative value is constant if every term with `x` or `d` has a zero factor. Its value is
/// then the sum of the constant terms, limited to the range of an i32.
pub open spec fn spec_as_constant(components: Seq<ComponentView>) -> Option<i32> {
    if forall|i: int| 0 <= i < components.len() && !((#[trigger] components[i]).variable is One)
        ==> is_zero_numeral(components[i].numeral) {
        Some(saturate_i32(constant_sum(components)))
    } else {
        None
    }
}

impl AffineFactor {
    pub open spec fn view_components(&self) -> Seq<ComponentView> {
        components_view(self.components@)
    }

    /// Returns Some(value) if this factor can be seen as a simple constant.
    pub fn as_constant(&self) -> (res: Option<i32>)
        ensures
            res == spec_as_constant(self.view_components()),
    {
        let ghost view = self.view_components();
        let mut sum: i128 = 0;
        let mut all_zero = true;
        let mut i: usize = 0;
        let n = self.components.len();
        while i < n
            invariant
                n == self.components@.len(),
                view == self.view_components(),
                i <= n,
                all_zero == forall|k: int| 0 <= k < i && !((#[trigger] view[k]).variable is One)
                    ==> is_zero_numeral(view[k].numeral),
                sum as int == constant_sum(view.take(i as int)),
                -(i as int) * 0x8000_0000 <= sum <= (i as int) * 0x8000_0000,
            decreases n - i,
        {
            let component = &self.components[i];
            proof {
                assert(view.take(i as int + 1).drop_last() == view.take(i as int));
                assert(view[i as int].numeral == component.numeral@);
                assert(view.take(i as int + 1).last() == view[i as int]);
            }
            match component.variable {
                Variable::One => {
                    let value: i128 = match parse_i32(component.numeral.as_slice()) {
                        Some(v) => v as i128,
                        None => 0,
                    };
                    let term: i128 = match component.sign {
                        Sign::Negative => -value,
                        Sign::Positive => value,
                    };
                    sum = sum + term;
                },
                _ => {
                    let mut zero = true;
                    let mut k: usize = 0;
                    while k < component.numeral.len()
                        invariant
                            k <= component.numeral@.len(),
                            zero == forall|t: int| 0 <= t < k ==> #[trigger] component.numeral@[t] == '0' || component.numeral@[t] == '.',
                        decreases component.numeral@.len() - k,
                    {
                        if component.numeral[k] != '0' && component.numeral[k] != '.' {
                            zero = false;
                        }
                        k += 1;
                    }
                    if !zero {
                        all_zero = false;
                    }
                },
            }
            i += 1;
        }
        proof {
            assert(view.take(n as int) == view);
        }
        if all_zero {
            Some(if sum > i32::MAX as i128 { i32::MAX } else if sum < i32::MIN as i128 { i32::MIN } else { sum as i32 })
        } else {
            None
        }
    }
}

/// Parses a relative value like "0.1d" or "-x".
pub fn parse_affine_factor(source: &str) -> (res: Result<AffineFactor, ArgumentError>)
    ensures
        match res {
            Ok(factor) => spec_lex_to_components(source@) == Some(factor.view_components()),
            Err(_) => spec_lex_to_components(source@) is None,
        },
{
    let components = lex_to_components(source)?;
    Ok(AffineFactor { components })
}

} // verus!
