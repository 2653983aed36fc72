//! The --hook argument and its clauses.

use vstd::prelude::*;

use crate::arguments::delay::{parse_period_value, periods_fit_for, spec_period_nanos, spec_period_overflows};
use crate::arguments::group::{
    all_parse, clause_values, clauses_view, parse_key_list, parsed_keys_are, spec_group_from, spec_unique_clause,
    ComplexArgGroup,
};
use crate::domain::DomainTracker;
use crate::error::{ArgumentError, InternalError, RuntimeError};
use crate::event::{EventType, Namespace};
use crate::key::{
    first_code_requirement, has_affine, last_value, lemma_parsed_key_has_no_affine, lemma_parsed_key_stable, plain_parser,
    spec_key_domain, spec_parsed_key, spec_parses, without_values, Key, KeyParser, ParserView, PropertyView,
};
use crate::range::Interval;
use crate::state::{Effect, EffectView, State, ToggleIndex, ToggleStateView};
use crate::text::{
    chars_eq, chars_of, decimal_chars, join_strs, parse_unsigned, spec_parse_unsigned, spec_split_once, split_once, string_from_chars,
    strings_view,
};
use crate::time::Duration;

verus! {

/// Represents how a single toggle clause on a hook should modify some toggle.
#[derive(Clone, Copy, PartialEq, Eq, Debug, Structural)]
pub enum HookToggleShift {
    /// Move the active index to the next one, wrapping around.
    Next,
    /// Set the active index to a specific index, counting from zero.
    ToIndex(usize),
}

/// Represents the aggregate effect of all toggle= clauses on a single --hook.
/// This is used to track arguments, this is not the implementation of such an effect.
#[derive(Clone)]
pub struct HookToggleAction {
    /// The action based on a toggle flag or a toggle= without id.
    global_action: Option<HookToggleShift>,
    /// The specific toggle=id:index specified, each id once, in order.
    by_id_actions: Vec<(String, HookToggleShift)>,
}

pub struct ToggleActionView {
    pub global_action: Option<HookToggleShift>,
    pub by_id_actions: Seq<(Seq<char>, HookToggleShift)>,
}

impl View for HookToggleAction {
    type V = ToggleActionView;

    closed spec fn view(&self) -> ToggleActionView {
        ToggleActionView {
            global_action: self.global_action,
            by_id_actions: self.by_id_actions@.map_values(|a: (String, HookToggleShift)| (a.0@, a.1)),
        }
    }
}

/// The shift that the part after the colon asks for: the next index without it, else an index
/// counted from one.
pub open spec fn spec_toggle_shift(index: Option<Seq<char>>) -> Option<HookToggleShift> {
    match index {
        None => Some(HookToggleShift::Next),
        Some(s) => match spec_parse_unsigned(s) {
            Some(v) => if 1 <= v <= usize::MAX {
                Some(HookToggleShift::ToIndex((v - 1) as usize))
            } else {
                None
            },
            None => None,
        },
    }
}

/// The action after one more clause like "id:2", ":2", "id" or "": a clause without id sets the
/// global action, which may be set once; each id may be given once.
pub open spec fn spec_toggle_step(action: ToggleActionView, clause: Seq<char>) -> Option<ToggleActionView> {
    let (id, index) = spec_split_once(clause, seq![':']);
    match spec_toggle_shift(index) {
        None => None,
        Some(shift) => if id.len() == 0 {
            if action.global_action is Some {
                None
            } else {
                Some(ToggleActionView { global_action: Some(shift), ..action })
            }
        } else if exists|i: int| 0 <= i < action.by_id_actions.len() && (#[trigger] action.by_id_actions[i]).0 == id {
            None
        } else {
            Some(ToggleActionView { by_id_actions: action.by_id_actions.push((id, shift)), ..action })
        },
    }
}

/// The action that a toggle flag and the toggle= clauses ask for.
pub open spec fn spec_toggle_action(has_toggle_flag: bool, clauses: Seq<Seq<char>>) -> Option<ToggleActionView>
    decreases clauses.len(),
{
    if clauses.len() == 0 {
        Some(ToggleActionView {
            global_action: if has_toggle_flag { Some(HookToggleShift::Next) } else { None },
            by_id_actions: Seq::empty(),
        })
    } else {
        match spec_toggle_action(has_toggle_flag, clauses.drop_last()) {
            None => None,
            Some(action) => spec_toggle_step(action, clauses.last()),
        }
    }
}

proof fn lemma_toggle_none_extends(has_toggle_flag: bool, clauses: Seq<Seq<char>>, k: int)
    requires
        0 <= k <= clauses.len(),
        spec_toggle_action(has_toggle_flag, clauses.take(k)) is None,
    ensures
        spec_toggle_action(has_toggle_flag, clauses) is None,
    decreases clauses.len() - k,
{
    if k < clauses.len() {
        assert(clauses.take(k + 1).drop_last() == clauses.take(k));
        lemma_toggle_none_extends(has_toggle_flag, clauses, k + 1);
    } else {
        assert(clauses.take(k) == clauses);
    }
}

/// The position of the toggle with the given id: that of the first entry with the id.
pub open spec fn lookup_toggle(ids: Seq<(Seq<char>, ToggleIndex)>, id: Seq<char>) -> Option<ToggleIndex>
    decreases ids.len(),
{
    if ids.len() == 0 {
        None
    } else if ids[0].0 == id {
        Some(ids[0].1)
    } else {
        lookup_toggle(ids.drop_first(), id)
    }
}

/// The ids of the toggles with their positions, as plain values.
pub open spec fn toggle_ids_view(ids: Seq<(String, ToggleIndex)>) -> Seq<(Seq<char>, ToggleIndex)> {
    ids.map_values(|p: (String, ToggleIndex)| (p.0@, p.1))
}

/// The effects of the toggle= clauses with an id, in order, or None if one of them names a
/// toggle that does not exist or an index beyond the outputs of its toggle.
pub open spec fn spec_id_effects(
    actions: Seq<(Seq<char>, HookToggleShift)>,
    toggles: Seq<ToggleStateView>,
    ids: Seq<(Seq<char>, ToggleIndex)>,
) -> Option<Seq<EffectView>>
    decreases actions.len(),
{
    if actions.len() == 0 {
        Some(Seq::empty())
    } else {
        match spec_id_effects(actions.drop_last(), toggles, ids) {
            None => None,
            Some(effects) => match lookup_toggle(ids, actions.last().0) {
                None => None,
                Some(index) => if actions.last().1 matches HookToggleShift::ToIndex(target)
                    && target >= toggles[index.0 as int].size {
                    None
                } else {
                    Some(effects.push(EffectView::Shift(index, actions.last().1)))
                },
            },
        }
    }
}

/// The positions of the toggles that effects of single toggles shift.
pub open spec fn shifted_indices(effects: Seq<EffectView>) -> Seq<ToggleIndex> {
    effects.map_values(|e: EffectView| match e {
        EffectView::Shift(index, _) => index,
        EffectView::ShiftAllExcept(_, _) => ToggleIndex(0),
    })
}

/// The effects of a hook's toggle action: one for each toggle= clause with an id, then, if there
/// is a global action, one that shifts every other toggle. None if a clause names a toggle that
/// does not exist or an index beyond the outputs of its toggle.
pub open spec fn spec_toggle_effects(
    action: ToggleActionView,
    toggles: Seq<ToggleStateView>,
    ids: Seq<(Seq<char>, ToggleIndex)>,
) -> Option<Seq<EffectView>> {
    match spec_id_effects(action.by_id_actions, toggles, ids) {
        None => None,
        Some(effects) => match action.global_action {
            None => Some(effects),
            Some(shift) => Some(effects.push(EffectView::ShiftAllExcept(shift, shifted_indices(effects)))),
        },
    }
}

/// Whether a toggle= clause with an id cannot take effect: no toggle has the id, or the clause
/// names an index beyond the outputs of that toggle.
pub open spec fn clause_fails(
    action: (Seq<char>, HookToggleShift),
    toggles: Seq<ToggleStateView>,
    ids: Seq<(Seq<char>, ToggleIndex)>,
) -> bool {
    match lookup_toggle(ids, action.0) {
        None => true,
        Some(index) => action.1 matches HookToggleShift::ToIndex(target) && target >= toggles[index.0 as int].size,
    }
}

/// The clauses with an id fail together exactly when one of them fails; else each gives one effect.
proof fn lemma_id_effects_law(
    actions: Seq<(Seq<char>, HookToggleShift)>,
    toggles: Seq<ToggleStateView>,
    ids: Seq<(Seq<char>, ToggleIndex)>,
)
    ensures
        spec_id_effects(actions, toggles, ids) is None <==> exists|i: int| 0 <= i < actions.len()
            && clause_fails(#[trigger] actions[i], toggles, ids),
        spec_id_effects(actions, toggles, ids) matches Some(effects) ==> effects.len() == actions.len(),
    decreases actions.len(),
{
    if actions.len() > 0 {
        let rest = actions.drop_last();
        lemma_id_effects_law(rest, toggles, ids);
        if exists|i: int| 0 <= i < rest.len() && clause_fails(#[trigger] rest[i], toggles, ids) {
            let i = choose|i: int| 0 <= i < rest.len() && clause_fails(#[trigger] rest[i], toggles, ids);
            assert(actions[i] == rest[i]);
        }
        if spec_id_effects(rest, toggles, ids) is Some && !clause_fails(actions.last(), toggles, ids) {
            assert forall|i: int| 0 <= i < actions.len() implies !clause_fails(#[trigger] actions[i], toggles, ids) by {
                if i < rest.len() {
                    assert(actions[i] == rest[i]);
                }
            }
        }
        if clause_fails(actions.last(), toggles, ids) {
            assert(clause_fails(actions[actions.len() - 1], toggles, ids));
        }
    }
}

/// The effects of a hook's toggle action fail exactly when one of its toggle= clauses with an id
/// names a toggle that does not exist or an index beyond the outputs of its toggle; otherwise
/// there is one effect for each such clause, and one more when the hook also shifts the other
/// toggles.
pub proof fn lemma_toggle_effects_law(
    action: ToggleActionView,
    toggles: Seq<ToggleStateView>,
    ids: Seq<(Seq<char>, ToggleIndex)>,
)
    ensures
        spec_toggle_effects(action, toggles, ids) is None <==> exists|i: int| 0 <= i < action.by_id_actions.len()
            && clause_fails(#[trigger] action.by_id_actions[i], toggles, ids),
        spec_toggle_effects(action, toggles, ids) matches Some(effects) ==> effects.len()
            == action.by_id_actions.len() + (if action.global_action is Some { 1int } else { 0int }),
{
    lemma_id_effects_law(action.by_id_actions, toggles, ids);
}

/// The number of toggle= clauses that name an id.
pub open spec fn id_clause_count(clauses: Seq<Seq<char>>) -> nat
    decreases clauses.len(),
{
    if clauses.len() == 0 {
        0
    } else {
        id_clause_count(clauses.drop_last()) + (if spec_split_once(clauses.last(), seq![':']).0.len() > 0 { 1nat } else { 0nat })
    }
}

/// A parsed toggle action has one action by id for each toggle= clause with an id, and a global
/// action exactly when the hook has the toggle flag or a toggle= clause without an id.
pub proof fn lemma_toggle_action_law(has_toggle_flag: bool, clauses: Seq<Seq<char>>)
    ensures
        spec_toggle_action(has_toggle_flag, clauses) matches Some(action) ==> {
            &&& action.by_id_actions.len() == id_clause_count(clauses)
            &&& (action.global_action is Some <==> has_toggle_flag || exists|c: int| 0 <= c < clauses.len()
                && spec_split_once(#[trigger] clauses[c], seq![':']).0.len() == 0)
        },
    decreases clauses.len(),
{
    if clauses.len() > 0 {
        let rest = clauses.drop_last();
        lemma_toggle_action_law(has_toggle_flag, rest);
        if spec_toggle_action(has_toggle_flag, clauses) is Some {
            let last = clauses.last();
            assert(clauses[clauses.len() - 1] == last);
            assert forall|c: int| 0 <= c < rest.len() implies rest[c] == clauses[c] by {}
            if exists|c: int| 0 <= c < rest.len() && spec_split_once(#[trigger] rest[c], seq![':']).0.len() == 0 {
                let c = choose|c: int| 0 <= c < rest.len() && spec_split_once(#[trigger] rest[c], seq![':']).0.len() == 0;
                assert(clauses[c] == rest[c]);
            }
            if exists|c: int| 0 <= c < clauses.len() && spec_split_once(#[trigger] clauses[c], seq![':']).0.len() == 0 {
                let c = choose|c: int| 0 <= c < clauses.len() && spec_split_once(#[trigger] clauses[c], seq![':']).0.len() == 0;
                if c < rest.len() {
                    assert(rest[c] == clauses[c]);
                }
            }
        }
    }
}

proof fn lemma_id_effects_none_extends(
    actions: Seq<(Seq<char>, HookToggleShift)>,
    toggles: Seq<ToggleStateView>,
    ids: Seq<(Seq<char>, ToggleIndex)>,
    k: int,
)
    requires
        0 <= k <= actions.len(),
        spec_id_effects(actions.take(k), toggles, ids) is None,
    ensures
        spec_id_effects(actions, toggles, ids) is None,
    decreases actions.len() - k,
{
    if k < actions.len() {
        assert(actions.take(k + 1).drop_last() == actions.take(k));
        lemma_id_effects_none_extends(actions, toggles, ids, k + 1);
    } else {
        assert(actions.take(k) == actions);
    }
}

/// A toggle is found by its id exactly when an entry has that id.
pub proof fn lemma_lookup_toggle_in(ids: Seq<(Seq<char>, ToggleIndex)>, id: Seq<char>)
    ensures
        lookup_toggle(ids, id) matches Some(index) ==> exists|x: int| 0 <= x < ids.len() && ids[x] == (id, index),
        lookup_toggle(ids, id) is None ==> forall|x: int| 0 <= x < ids.len() ==> (#[trigger] ids[x]).0 != id,
    decreases ids.len(),
{
    if ids.len() > 0 && ids[0].0 != id {
        lemma_lookup_toggle_in(ids.drop_first(), id);
        if let Some(index) = lookup_toggle(ids, id) {
            let x = choose|x: int| 0 <= x < ids.drop_first().len() && ids.drop_first()[x] == (id, index);
            assert(ids[x + 1] == (id, index));
        } else {
            assert forall|x: int| 0 <= x < ids.len() implies (#[trigger] ids[x]).0 != id by {
                if x > 0 {
                    assert(ids[x] == ids.drop_first()[x - 1]);
                }
            }
        }
    }
}

/// The position of the toggle with the given id.
pub(crate) fn find_toggle(ids: &Vec<(String, ToggleIndex)>, id: &String) -> (res: Option<ToggleIndex>)
    ensures
        res == lookup_toggle(toggle_ids_view(ids@), id@),
{
    let ghost view = toggle_ids_view(ids@);
    let mut i: usize = 0;
    proof {
        assert(view.skip(0) == view);
    }
    while i < ids.len()
        invariant
            i <= ids@.len(),
            view == toggle_ids_view(ids@),
            lookup_toggle(view.skip(i as int), id@) == lookup_toggle(view, id@),
        decreases ids@.len() - i,
    {
        proof {
            assert(view.skip(i as int).drop_first() == view.skip(i + 1));
            assert(view.skip(i as int)[0] == view[i as int]);
            assert(view[i as int] == (ids@[i as int].0@, ids@[i as int].1));
        }
        if ids[i].0 == *id {
            return Some(ids[i].1);
        }
        i += 1;
    }
    proof {
        assert(view.skip(i as int).len() == 0);
    }
    None
}

impl HookToggleAction {
    /// Parses the toggle flag and the toggle= clauses of a hook.
    pub fn parse(has_toggle_flag: bool, toggle_clauses: Vec<String>) -> (res: Result<HookToggleAction, ArgumentError>)
        ensures
            match res {
                Ok(action) => spec_toggle_action(has_toggle_flag, strings_view(toggle_clauses@)) == Some(action@),
                Err(_) => spec_toggle_action(has_toggle_flag, strings_view(toggle_clauses@)) is None,
            },
    {
        let ghost clauses = strings_view(toggle_clauses@);
        let mut action = HookToggleAction {
            global_action: if has_toggle_flag { Some(HookToggleShift::Next) } else { None },
            by_id_actions: Vec::new(),
        };
        proof {
            assert(action@.by_id_actions =~= Seq::<(Seq<char>, HookToggleShift)>::empty());
            assert(clauses.take(0).len() == 0);
        }
        let colon = vec![':'];
        proof {
            assert(colon@ =~= seq![':']);
        }
        let mut i: usize = 0;
        while i < toggle_clauses.len()
            invariant
                i <= toggle_clauses@.len(),
                clauses == strings_view(toggle_clauses@),
                colon@ == seq![':'],
                spec_toggle_action(has_toggle_flag, clauses.take(i as int)) == Some(action@),
            decreases toggle_clauses@.len() - i,
        {
            proof {
                assert(clauses.take(i + 1).drop_last() == clauses.take(i as int));
                assert(clauses.take(i + 1).last() == toggle_clauses@[i as int]@);
            }
            let clause_chars = chars_of(toggle_clauses[i].as_str());
            let (id, index_opt) = split_once(clause_chars.as_slice(), colon.as_slice());
            let shift = match index_opt {
                None => HookToggleShift::Next,
                Some(index_chars) => match parse_unsigned(index_chars.as_slice(), usize::MAX as u64) {
                    Some(value) => {
                        if value == 0 {
                            proof {
                                lemma_toggle_none_extends(has_toggle_flag, clauses, i + 1);
                            }
                            return Err(ArgumentError::new(join_strs(&[
                                "Cannot use toggle index 0: toggle indices start at 1.",
                            ])));
                        }
                        HookToggleShift::ToIndex((value - 1) as usize)
                    },
                    None => {
                        proof {
                            lemma_toggle_none_extends(has_toggle_flag, clauses, i + 1);
                        }
                        let index_str = string_from_chars(index_chars.as_slice());
                        return Err(ArgumentError::new(join_strs(&[
                            "Cannot interpret ", index_str.as_str(), " as a positive integer.",
                        ])));
                    },
                },
            };
            let ghost before = action@;
            if id.len() == 0 {
                if action.global_action.is_some() {
                    proof {
                        lemma_toggle_none_extends(has_toggle_flag, clauses, i + 1);
                    }
                    return Err(ArgumentError::new(join_strs(&[
                        "A --hook cannot have multiple unspecified toggle clauses.",
                    ])));
                }
                action.global_action = Some(shift);
                proof {
                    assert(action@ == ToggleActionView { global_action: Some(shift), ..before });
                }
            } else {
                let id_string = string_from_chars(id.as_slice());
                let ghost step = spec_toggle_step(before, clauses[i as int]);
                proof {
                    assert(spec_toggle_action(has_toggle_flag, clauses.take(i + 1)) == step);
                }
                let mut k: usize = 0;
                while k < action.by_id_actions.len()
                    invariant
                        k <= action.by_id_actions@.len(),
                        i < toggle_clauses@.len(),
                        clauses == strings_view(toggle_clauses@),
                        spec_toggle_action(has_toggle_flag, clauses.take(i + 1)) == step,
                        step == spec_toggle_step(before, clauses[i as int]),
                        spec_split_once(clauses[i as int], seq![':']).0 == id@,
                        spec_toggle_shift(spec_split_once(clauses[i as int], seq![':']).1) == Some(shift),
                        id@.len() > 0,
                        before == action@,
                        id_string@ == id@,
                        forall|t: int| 0 <= t < k ==> (#[trigger] before.by_id_actions[t]).0 != id@,
                    decreases action.by_id_actions@.len() - k,
                {
                    proof {
                        assert(before.by_id_actions[k as int].0 == action.by_id_actions@[k as int].0@);
                    }
                    if action.by_id_actions[k].0 == id_string {
                        proof {
                            assert(before.by_id_actions[k as int].0 == id@);
                            lemma_toggle_none_extends(has_toggle_flag, clauses, i + 1);
                        }
                        return Err(ArgumentError::new(join_strs(&[
                            "A toggle=", id_string.as_str(), " clause has been specified multiple times.",
                        ])));
                    }
                    k += 1;
                }
                action.by_id_actions.push((id_string, shift));
                proof {
                    assert(action@.by_id_actions =~= before.by_id_actions.push((id@, shift)));
                }
            }
            i += 1;
        }
        proof {
            assert(clauses.take(toggle_clauses@.len() as int) == clauses);
        }
        Ok(action)
    }

    /// The action of the toggle flag or a toggle= clause without id, if any.
    pub fn global_action(&self) -> (res: Option<HookToggleShift>)
        ensures
            res == self@.global_action,
    {
        self.global_action
    }

    /// The effects that this action has on the toggles, given the position of each toggle with
    /// an id. Fails if a clause names an id that no toggle has, or an index beyond the outputs of
    /// its toggle.
    pub fn implement(&self, state: &State, toggle_index_by_id: &Vec<(String, ToggleIndex)>) -> (res: Result<Vec<Effect>, ArgumentError>)
        requires
            forall|i: int| 0 <= i < toggle_index_by_id@.len() ==> (#[trigger] toggle_index_by_id@[i]).1.0 < state@.len(),
        ensures
            match res {
                Ok(effects) => spec_toggle_effects(self@, state@, toggle_ids_view(toggle_index_by_id@))
                    == Some(effects@.map_values(|e: Effect| e@)),
                Err(_) => spec_toggle_effects(self@, state@, toggle_ids_view(toggle_index_by_id@)) is None,
            },
    {
        let ghost ids = toggle_ids_view(toggle_index_by_id@);
        let ghost actions = self@.by_id_actions;
        let mut effects: Vec<Effect> = Vec::new();
        let mut specified_indices: Vec<ToggleIndex> = Vec::new();
        let mut i: usize = 0;
        proof {
            assert(actions.take(0) =~= Seq::<(Seq<char>, HookToggleShift)>::empty());
            assert(effects@.map_values(|e: Effect| e@) =~= Seq::<EffectView>::empty());
            assert(specified_indices@ =~= shifted_indices(Seq::<EffectView>::empty()));
        }
        while i < self.by_id_actions.len()
            invariant
                i <= self.by_id_actions@.len(),
                actions == self@.by_id_actions,
                actions.len() == self.by_id_actions@.len(),
                ids == toggle_ids_view(toggle_index_by_id@),
                forall|x: int| 0 <= x < toggle_index_by_id@.len() ==> (#[trigger] toggle_index_by_id@[x]).1.0 < state@.len(),
                spec_id_effects(actions.take(i as int), state@, ids) == Some(effects@.map_values(|e: Effect| e@)),
                specified_indices@ == shifted_indices(effects@.map_values(|e: Effect| e@)),
            decreases self.by_id_actions@.len() - i,
        {
            let id = &self.by_id_actions[i].0;
            let shift = self.by_id_actions[i].1;
            proof {
                assert(actions.take(i + 1).drop_last() == actions.take(i as int));
                assert(actions.take(i + 1).last() == actions[i as int]);
                assert(actions[i as int] == (id@, shift));
            }
            let index = match find_toggle(toggle_index_by_id, id) {
                Some(index) => index,
                None => {
                    proof {
                        lemma_id_effects_none_extends(actions, state@, ids, i + 1);
                    }
                    return Err(ArgumentError::new(join_strs(&["No toggle with the id \"", id.as_str(), "\" exists."])));
                },
            };
            proof {
                lemma_lookup_toggle_in(ids, id@);
                let x = choose|x: int| 0 <= x < ids.len() && ids[x] == (id@, index);
                assert(ids[x].1 == toggle_index_by_id@[x].1);
            }
            if let HookToggleShift::ToIndex(target) = shift {
                let size = state.toggle(index).size();
                if target >= size {
                    proof {
                        lemma_id_effects_none_extends(actions, state@, ids, i + 1);
                    }
                    let shown: u64 = if (target as u64) < u64::MAX { target as u64 + 1 } else { u64::MAX };
                    let shown_chars = decimal_chars(shown);
                    let shown_str = string_from_chars(shown_chars.as_slice());
                    return Err(ArgumentError::new(join_strs(&[
                        "The index ", shown_str.as_str(), " is out of range for the toggle with id \"", id.as_str(), "\".",
                    ])));
                }
            }
            let ghost before = effects@;
            specified_indices.push(index);
            effects.push(Effect::Shift(index, shift));
            proof {
                assert(effects@.map_values(|e: Effect| e@) =~= before.map_values(|e: Effect| e@).push(EffectView::Shift(index, shift)));
                assert(specified_indices@ =~= shifted_indices(effects@.map_values(|e: Effect| e@)));
            }
            i += 1;
        }
        proof {
            assert(actions.take(actions.len() as int) == actions);
        }
        if let Some(shift) = self.global_action {
            let ghost before = effects@;
            let ghost except = specified_indices@;
            effects.push(Effect::ShiftAllExcept(shift, specified_indices));
            proof {
                assert(effects@.map_values(|e: Effect| e@) =~= before.map_values(|e: Effect| e@).push(EffectView::ShiftAllExcept(shift, except)));
            }
        }
        Ok(effects)
    }

    /// The actions of toggle= clauses with an id, in the order they were given.
    pub fn by_id_actions(&self) -> (res: &Vec<(String, HookToggleShift)>)
        ensures
            res@.map_values(|a: (String, HookToggleShift)| (a.0@, a.1)) == self@.by_id_actions,
    {
        &self.by_id_actions
    }
}

pub const SEND_KEY_CLAUSE: &'static str = "send-key";
pub const SEND_EVENT_CLAUSE: &'static str = "send-event";

/// The parser of the keys of a hook: values and ranges, and any positive value by default.
pub open spec fn hook_parser() -> ParserView {
    ParserView {
        default_value: "1~"@,
        allow_values: true,
        allow_transitions: false,
        allow_ranges: true,
        allow_types: false,
        allow_relative_values: false,
        type_whitelist: None,
        namespace: Namespace::User,
    }
}

/// The parser of send-key clauses: keys of type EV_KEY without values.
pub open spec fn send_key_parser() -> ParserView {
    ParserView {
        default_value: Seq::empty(),
        allow_values: false,
        allow_transitions: false,
        allow_ranges: false,
        allow_types: false,
        allow_relative_values: false,
        type_whitelist: Some(seq![EventType { value: crate::event::EV_KEY }]),
        namespace: Namespace::User,
    }
}

/// The parser of send-event clauses: keys with a single value.
pub open spec fn send_event_parser() -> ParserView {
    ParserView {
        default_value: Seq::empty(),
        allow_values: true,
        allow_transitions: false,
        allow_ranges: false,
        allow_types: false,
        allow_relative_values: false,
        type_whitelist: None,
        namespace: Namespace::User,
    }
}

/// A key with its value replaced by a single value.
pub open spec fn with_value(key: Seq<PropertyView>, value: i32) -> Seq<PropertyView> {
    without_values(key).push(PropertyView::Value(Interval { min: value, max: value }))
}

/// Whether a send-event key names a code and a value, as an event needs.
pub open spec fn send_event_ok(key: Seq<PropertyView>) -> bool {
    first_code_requirement(without_values(key)) is Some && last_value(key) is Some
}

/// The events that a hook sends, as keys.
pub struct DispatcherView {
    pub on_press: Seq<Seq<PropertyView>>,
    pub on_release: Seq<Seq<PropertyView>>,
}

/// What one clause adds to what a hook sends: a send-key presses its key on activation and
/// releases it on release, before the keys of earlier clauses; a send-event sends its event on
/// activation; other clauses add nothing. None if the clause is not acceptable.
pub open spec fn dispatcher_step(d: DispatcherView, clause: (Seq<char>, Seq<char>), domains: DomainTracker) -> Option<DispatcherView> {
    let (name, value) = clause;
    if name == SEND_KEY_CLAUSE@ {
        if spec_parses(send_key_parser(), value) {
            let k = spec_parsed_key(send_key_parser(), value, domains);
            Some(DispatcherView { on_press: d.on_press.push(with_value(k, 1)), on_release: seq![with_value(k, 0)] + d.on_release })
        } else {
            None
        }
    } else if name == SEND_EVENT_CLAUSE@ {
        if spec_parses(send_event_parser(), value) && send_event_ok(spec_parsed_key(send_event_parser(), value, domains)) {
            Some(DispatcherView { on_press: d.on_press.push(spec_parsed_key(send_event_parser(), value, domains)), ..d })
        } else {
            None
        }
    } else {
        Some(d)
    }
}

/// What the send-key and send-event clauses among the clauses ask a hook to send, in order, or
/// None if one of them is not acceptable.
pub open spec fn spec_dispatcher(clauses: Seq<(Seq<char>, Seq<char>)>, domains: DomainTracker) -> Option<DispatcherView>
    decreases clauses.len(),
{
    if clauses.len() == 0 {
        Some(DispatcherView { on_press: Seq::empty(), on_release: Seq::empty() })
    } else {
        match spec_dispatcher(clauses.drop_last(), domains) {
            None => None,
            Some(d) => dispatcher_step(d, clauses.last(), domains),
        }
    }
}

/// The events that a --hook sends when it activates and when it releases, as keys.
pub struct EventDispatcherArg {
    /// Sent on activation, in order.
    pub on_press: Vec<Key>,
    /// Sent on release, in order: the keys of send-key clauses in reverse.
    pub on_release: Vec<Key>,
}

impl EventDispatcherArg {
    pub open spec fn view(&self) -> DispatcherView {
        DispatcherView {
            on_press: self.on_press@.map_values(|k: Key| k@),
            on_release: self.on_release@.map_values(|k: Key| k@),
        }
    }

    /// The keys make no relative values.
    pub open spec fn well_formed(&self) -> bool {
        &&& forall|i: int| 0 <= i < self.on_press@.len() ==> !has_affine(#[trigger] self.on_press@[i]@)
        &&& forall|i: int| 0 <= i < self.on_release@.len() ==> !has_affine(#[trigger] self.on_release@[i]@)
    }

    pub fn new() -> (res: EventDispatcherArg)
        ensures
            res.view().on_press == Seq::<Seq<PropertyView>>::empty(),
            res.view().on_release == Seq::<Seq<PropertyView>>::empty(),
            res.well_formed(),
    {
        let res = EventDispatcherArg { on_press: Vec::new(), on_release: Vec::new() };
        proof {
            assert(res.view().on_press =~= Seq::<Seq<PropertyView>>::empty());
            assert(res.view().on_release =~= Seq::<Seq<PropertyView>>::empty());
        }
        res
    }

    /// Presses the key on activation, and releases it on release before the keys added earlier.
    pub fn add_send_key(&mut self, key: Key)
        requires
            old(self).well_formed(),
            !has_affine(key@),
        ensures
            final(self).well_formed(),
            final(self).view().on_press == old(self).view().on_press.push(with_value(key@, 1)),
            final(self).view().on_release == seq![with_value(key@, 0)] + old(self).view().on_release,
    {
        let ghost press_before = self.on_press@;
        let ghost release_before = self.on_release@;
        let mut on_press_key = key.duplicate();
        on_press_key.set_value(Interval { min: 1, max: 1 });
        let mut on_release_key = key;
        on_release_key.set_value(Interval { min: 0, max: 0 });
        proof {
            lemma_with_value_has_no_affine(key@, 1);
            lemma_with_value_has_no_affine(key@, 0);
        }
        self.on_press.push(on_press_key);
        self.on_release.insert(0, on_release_key);
        proof {
            assert(self.view().on_press =~= press_before.map_values(|k: Key| k@).push(with_value(key@, 1)));
            assert(self.view().on_release =~= seq![with_value(key@, 0)] + release_before.map_values(|k: Key| k@));
            assert forall|i: int| 0 <= i < self.on_press@.len() implies !has_affine(#[trigger] self.on_press@[i]@) by {
                if i < press_before.len() {
                    assert(self.on_press@[i] == press_before[i]);
                }
            }
            assert forall|i: int| 0 <= i < self.on_release@.len() implies !has_affine(#[trigger] self.on_release@[i]@) by {
                if i > 0 {
                    assert(self.on_release@[i] == release_before[i - 1]);
                }
            }
        }
    }

    /// Sends the event on activation.
    pub fn add_send_event(&mut self, key: Key)
        requires
            old(self).well_formed(),
            !has_affine(key@),
        ensures
            final(self).well_formed(),
            final(self).view().on_press == old(self).view().on_press.push(key@),
            final(self).view().on_release == old(self).view().on_release,
    {
        let ghost press_before = self.on_press@;
        let ghost k = key@;
        self.on_press.push(key);
        proof {
            assert(self.view().on_press =~= press_before.map_values(|k: Key| k@).push(k));
            assert forall|i: int| 0 <= i < self.on_press@.len() implies !has_affine(#[trigger] self.on_press@[i]@) by {
                if i < press_before.len() {
                    assert(self.on_press@[i] == press_before[i]);
                }
            }
        }
    }

    /// Every key whose events the hook may send: those sent on activation, then those on release.
    pub fn sendable_events(&self) -> (res: Vec<Key>)
        requires
            self.well_formed(),
        ensures
            res@.map_values(|k: Key| k@) == self.view().on_press + self.view().on_release,
            forall|i: int| 0 <= i < res@.len() ==> !has_affine(#[trigger] res@[i]@),
    {
        let mut res: Vec<Key> = Vec::new();
        let mut i: usize = 0;
        while i < self.on_press.len()
            invariant
                i <= self.on_press@.len(),
                self.well_formed(),
                res@.map_values(|k: Key| k@) == self.view().on_press.take(i as int),
                forall|j: int| 0 <= j < res@.len() ==> !has_affine(#[trigger] res@[j]@),
            decreases self.on_press@.len() - i,
        {
            let ghost before = res@;
            res.push(self.on_press[i].duplicate());
            proof {
                assert(res@.map_values(|k: Key| k@) =~= before.map_values(|k: Key| k@).push(self.on_press@[i as int]@));
                assert(self.view().on_press.take(i + 1) =~= self.view().on_press.take(i as int).push(self.on_press@[i as int]@));
                assert forall|j: int| 0 <= j < res@.len() implies !has_affine(#[trigger] res@[j]@) by {
                    if j < before.len() {
                        assert(res@[j] == before[j]);
                    }
                }
            }
            i += 1;
        }
        let ghost mid = self.view().on_press;
        proof {
            assert(self.view().on_press.take(self.on_press@.len() as int) == mid);
        }
        let mut j: usize = 0;
        while j < self.on_release.len()
            invariant
                j <= self.on_release@.len(),
                self.well_formed(),
                mid == self.view().on_press,
                res@.map_values(|k: Key| k@) == mid + self.view().on_release.take(j as int),
                forall|x: int| 0 <= x < res@.len() ==> !has_affine(#[trigger] res@[x]@),
            decreases self.on_release@.len() - j,
        {
            let ghost before = res@;
            res.push(self.on_release[j].duplicate());
            proof {
                assert(res@.map_values(|k: Key| k@) =~= before.map_values(|k: Key| k@).push(self.on_release@[j as int]@));
                assert(self.view().on_release.take(j + 1) =~= self.view().on_release.take(j as int).push(self.on_release@[j as int]@));
                assert forall|x: int| 0 <= x < res@.len() implies !has_affine(#[trigger] res@[x]@) by {
                    if x < before.len() {
                        assert(res@[x] == before[x]);
                    }
                }
            }
            j += 1;
        }
        proof {
            assert(self.view().on_release.take(self.on_release@.len() as int) == self.view().on_release);
        }
        res
    }
}

proof fn lemma_with_value_has_no_affine(key: Seq<PropertyView>, value: i32)
    requires
        !has_affine(key),
    ensures
        !has_affine(with_value(key, value)),
{
    lemma_without_values_subset(key);
    let w = with_value(key, value);
    assert forall|i: int| 0 <= i < w.len() implies !(#[trigger] w[i] is AffineFactor) by {
        if i < w.len() - 1 {
            assert(w[i] == without_values(key)[i]);
        }
    }
}

proof fn lemma_without_values_subset(key: Seq<PropertyView>)
    requires
        !has_affine(key),
    ensures
        !has_affine(without_values(key)),
    decreases key.len(),
{
    if key.len() > 0 {
        let tail = key.drop_first();
        assert forall|i: int| 0 <= i < tail.len() implies !(#[trigger] tail[i] is AffineFactor) by {
            assert(tail[i] == key[i + 1]);
        }
        lemma_without_values_subset(tail);
        if !(key[0] is Value) {
            let w = seq![key[0]] + without_values(tail);
            assert forall|i: int| 0 <= i < w.len() implies !(#[trigger] w[i] is AffineFactor) by {
                if i > 0 {
                    assert(w[i] == without_values(tail)[i - 1]);
                }
            }
        }
    }
}

/// A --hook argument: the keys that must be held at once, and what happens then.
pub struct HookArg {
    /// The keys of the trackers, with the strings that they were written as.
    pub keys_and_str: Vec<(Key, String)>,
    pub exec_shell: Vec<String>,
    pub toggle_action: HookToggleAction,
    pub period: Option<Duration>,
    pub sequential: bool,
    pub event_dispatcher: EventDispatcherArg,
    /// Events that match one of these keys but none of the hook's own release all trackers.
    pub breaks_on: Vec<Key>,
}

/// What a --hook argument says, as plain values.
pub struct HookView {
    pub key_strs: Seq<Seq<char>>,
    pub exec_shell: Seq<Seq<char>>,
    pub toggle: ToggleActionView,
    pub period: Option<int>,
    pub sequential: bool,
    pub dispatcher: DispatcherView,
    pub breaks_on: Seq<Seq<char>>,
}

pub open spec fn hook_flags() -> Seq<&'static str> {
    seq!["toggle", "sequential"]
}

pub open spec fn hook_clauses() -> Seq<&'static str> {
    seq!["exec-shell", "toggle", "period", SEND_KEY_CLAUSE, SEND_EVENT_CLAUSE, "breaks-on"]
}

/// What a --hook argument says, or None if it is not acceptable: it needs a key, all of its keys
/// and clauses must be acceptable, and it may have at most one period.
pub open spec fn spec_hook_arg(args: Seq<Seq<char>>, domains: DomainTracker) -> Option<HookView> {
    match spec_group_from(args, hook_flags(), hook_clauses(), false, true) {
        None => None,
        Some(g) => match (
            spec_toggle_action(g.flags.contains("toggle"@), clause_values(g.clauses, "toggle"@)),
            spec_unique_clause(g, "period"@),
            spec_dispatcher(g.clauses, domains),
        ) {
            (Some(toggle), Some(period_str), Some(dispatcher)) => {
                let period = match period_str {
                    None => Some(None),
                    Some(v) => match spec_period_nanos(v) {
                        Some(n) => Some(Some(n)),
                        None => None,
                    },
                };
                let breaks_on = clause_values(g.clauses, "breaks-on"@);
                if period is None || !all_parse(hook_parser(), g.keys)
                    || !all_parse(plain_parser(true, true, true, true, false), breaks_on) || g.keys.len() == 0 {
                    None
                } else {
                    Some(HookView {
                        key_strs: g.keys,
                        exec_shell: clause_values(g.clauses, "exec-shell"@),
                        toggle,
                        period: period.unwrap(),
                        sequential: g.flags.contains("sequential"@),
                        dispatcher,
                        breaks_on,
                    })
                }
            },
            _ => None,
        },
    }
}

/// Whether the domain names of the send clauses among the clauses resolve.
pub open spec fn send_domains_known(clauses: Seq<(Seq<char>, Seq<char>)>, domains: DomainTracker) -> bool {
    forall|j: int| 0 <= j < clauses.len() && (clauses[j].0 == SEND_KEY_CLAUSE@ || clauses[j].0 == SEND_EVENT_CLAUSE@)
        && (#[trigger] spec_key_domain(clauses[j].1)) is Some ==> domains.lookup(spec_key_domain(clauses[j].1).unwrap()) is Some
}

proof fn lemma_dispatcher_none_extends(clauses: Seq<(Seq<char>, Seq<char>)>, k: int, domains: DomainTracker)
    requires
        0 <= k <= clauses.len(),
        spec_dispatcher(clauses.take(k), domains) is None,
    ensures
        spec_dispatcher(clauses, domains) is None,
    decreases clauses.len() - k,
{
    if k < clauses.len() {
        assert(clauses.take(k + 1).drop_last() == clauses.take(k));
        lemma_dispatcher_none_extends(clauses, k + 1, domains);
    } else {
        assert(clauses.take(k) == clauses);
    }
}

proof fn lemma_dispatcher_stable(clauses: Seq<(Seq<char>, Seq<char>)>, before: DomainTracker, after: DomainTracker)
    requires
        send_domains_known(clauses, before),
        forall|name: Seq<char>| before.lookup(name) is Some ==> after.lookup(name) == before.lookup(name),
    ensures
        spec_dispatcher(clauses, after) == spec_dispatcher(clauses, before),
    decreases clauses.len(),
{
    if clauses.len() > 0 {
        let p = clauses.drop_last();
        assert(send_domains_known(p, before)) by {
            assert forall|j: int| 0 <= j < p.len() implies #[trigger] p[j] == clauses[j] by {}
        }
        lemma_dispatcher_stable(p, before, after);
        let (name, value) = clauses.last();
        assert(clauses.last() == clauses[clauses.len() - 1]);
        if name == SEND_KEY_CLAUSE@ || name == SEND_EVENT_CLAUSE@ {
            assert(spec_key_domain(clauses[clauses.len() - 1].1) == spec_key_domain(value));
            lemma_parsed_key_stable(send_key_parser(), value, before, after);
            lemma_parsed_key_stable(send_event_parser(), value, before, after);
        }
    }
}

impl HookArg {
    /// The argument holds what the view says, its keys parsed with the domains given.
    pub open spec fn matches_view(&self, view: HookView, domains: DomainTracker) -> bool {
        &&& self.keys_and_str@.len() == view.key_strs.len()
        &&& forall|i: int| 0 <= i < view.key_strs.len() ==> {
            &&& (#[trigger] self.keys_and_str@[i]).0@ == spec_parsed_key(hook_parser(), view.key_strs[i], domains)
            &&& self.keys_and_str@[i].1@ == view.key_strs[i]
        }
        &&& strings_view(self.exec_shell@) == view.exec_shell
        &&& self.toggle_action@ == view.toggle
        &&& (match self.period {
            Some(d) => view.period == Some(d@ as int),
            None => view.period is None,
        })
        &&& self.sequential == view.sequential
        &&& self.event_dispatcher.view() == view.dispatcher
        &&& parsed_keys_are(self.breaks_on@, plain_parser(true, true, true, true, false), view.breaks_on, domains)
    }

    /// Parses a --hook argument, resolving the domain names of its keys.
    #[verifier::rlimit(60)]
    #[verifier::spinoff_prover]
    pub fn parse(args: Vec<String>, domains: &mut DomainTracker) -> (res: Result<HookArg, RuntimeError>)
        requires
            old(domains).well_formed(),
            old(domains).next_id() + 4 * args@.len() + 4 < usize::MAX,
            periods_fit_for(strings_view(args@), hook_flags(), hook_clauses()),
        ensures
            final(domains).well_formed(),
            final(domains).next_id() <= old(domains).next_id() + 4 * args@.len() + 4,
            forall|name: Seq<char>| old(domains).lookup(name) is Some ==> final(domains).lookup(name) == old(domains).lookup(name),
            match res {
                Ok(arg) => spec_hook_arg(strings_view(args@), *final(domains)) matches Some(view)
                    && arg.matches_view(view, *final(domains)),
                Err(_) => spec_hook_arg(strings_view(args@), *final(domains)) is None,
            },
            res matches Ok(arg) ==> arg.event_dispatcher.well_formed() && arg.keys_and_str@.len() < args@.len(),
    {
        let ghost argv = strings_view(args@);
        let flags: Vec<&str> = vec!["toggle", "sequential"];
        let clauses: Vec<&str> = vec!["exec-shell", "toggle", "period", SEND_KEY_CLAUSE, SEND_EVENT_CLAUSE, "breaks-on"];
        proof {
            assert(flags@ =~= hook_flags());
            assert(clauses@ =~= hook_clauses());
        }
        let arg_group = match ComplexArgGroup::parse(args, flags.as_slice(), clauses.as_slice(), false, true, domains) {
            Ok(g) => g,
            Err(err) => return Err(RuntimeError::ArgumentError(err)),
        };
        let ghost g = arg_group@;
        proof {
            crate::arguments::group::lemma_group_keys_bounded(argv, hook_flags(), hook_clauses(), false, true);
            crate::arguments::group::lemma_group_clauses_bounded(argv, hook_flags(), hook_clauses(), false, true, "breaks-on"@);
            crate::arguments::group::lemma_group_all_clauses_bounded(argv, hook_flags(), hook_clauses(), false, true);
        }
        let toggle_action = match HookToggleAction::parse(arg_group.has_flag("toggle"), arg_group.get_clauses("toggle")) {
            Ok(a) => a,
            Err(err) => return Err(RuntimeError::ArgumentError(err)),
        };
        let hook_key_parser = KeyParser {
            default_value: "1~",
            allow_values: true,
            allow_ranges: true,
            allow_transitions: false,
            allow_types: false,
            allow_relative_values: false,
            type_whitelist: None,
            namespace: Namespace::User,
        };
        proof {
            assert(hook_key_parser@ == hook_parser());
        }
        let ghost d0 = *domains;
        let key_strs = arg_group.keys();
        let keys = match parse_key_list(&hook_key_parser, key_strs, domains) {
            Ok(keys) => keys,
            Err(err) => return Err(RuntimeError::ArgumentError(err)),
        };
        let ghost d1 = *domains;
        let mut keys_and_str: Vec<(Key, String)> = Vec::new();
        let mut keys = keys;
        let ghost key_views = keys@;
        let n = keys.len();
        let mut reversed: Vec<(Key, String)> = Vec::new();
        while keys.len() > 0
            invariant
                keys@ == key_views.take(keys@.len() as int),
                keys@.len() <= key_views.len(),
                key_views.len() == n,
                n == key_strs@.len(),
                reversed@.len() + keys@.len() == n,
                forall|j: int| 0 <= j < reversed@.len() ==> {
                    &&& (#[trigger] reversed@[j]).0 == key_views[n - 1 - j]
                    &&& reversed@[j].1@ == key_strs@[n - 1 - j]@
                },
            decreases keys@.len(),
        {
            let at = keys.len() - 1;
            let key = keys.pop().unwrap();
            let s = key_strs[at].clone();
            reversed.push((key, s));
        }
        while reversed.len() > 0
            invariant
                keys_and_str@.len() + reversed@.len() == n,
                key_views.len() == n,
                n == key_strs@.len(),
                forall|j: int| 0 <= j < reversed@.len() ==> {
                    &&& (#[trigger] reversed@[j]).0 == key_views[n - 1 - j]
                    &&& reversed@[j].1@ == key_strs@[n - 1 - j]@
                },
                forall|j: int| 0 <= j < keys_and_str@.len() ==> {
                    &&& (#[trigger] keys_and_str@[j]).0 == key_views[j]
                    &&& keys_and_str@[j].1@ == key_strs@[j]@
                },
            decreases reversed@.len(),
        {
            let pair = reversed.pop().unwrap();
            keys_and_str.push(pair);
        }
        let sequential = arg_group.has_flag("sequential");
        let period = match arg_group.get_unique_clause("period") {
            Ok(None) => None,
            Ok(Some(value)) => {
                proof {
                    assert(clause_values(g.clauses, "period"@)[0] == value@);
                }
                match parse_period_value(value.as_str()) {
                    Ok(d) => Some(d),
                    Err(err) => return Err(RuntimeError::ArgumentError(err)),
                }
            },
            Err(err) => return Err(RuntimeError::ArgumentError(err)),
        };
        // The send-key and send-event clauses, in order.
        let all_clauses = arg_group.clauses();
        let ghost cv = clauses_view(all_clauses@);
        let mut event_dispatcher = EventDispatcherArg::new();
        let mut i: usize = 0;
        while i < all_clauses.len()
            invariant
                i <= all_clauses@.len(),
                cv == clauses_view(all_clauses@),
                cv == g.clauses,
                domains.well_formed(),
                domains.next_id() <= d1.next_id() + i,
                d1.next_id() + 2 * cv.len() + 2 < usize::MAX,
                d1.next_id() + cv.len() <= old(domains).next_id() + 4 * args@.len() + 3,
                forall|name: Seq<char>| d1.lookup(name) is Some ==> domains.lookup(name) == d1.lookup(name),
                forall|name: Seq<char>| old(domains).lookup(name) is Some ==> domains.lookup(name) == old(domains).lookup(name),
                spec_group_from(argv, hook_flags(), hook_clauses(), false, true) == Some(g),
                argv == strings_view(args@),
                send_domains_known(cv.take(i as int), *domains),
                event_dispatcher.well_formed(),
                spec_dispatcher(cv.take(i as int), *domains) == Some(event_dispatcher.view()),
            decreases all_clauses@.len() - i,
        {
            let ghost before_domains = *domains;
            let ghost prefix = cv.take(i as int);
            proof {
                assert(cv.take(i + 1).drop_last() == prefix);
                assert(cv.take(i + 1).last() == cv[i as int]);
                assert(cv[i as int] == (all_clauses@[i as int].0@, all_clauses@[i as int].1@));
            }
            let ghost view_before = event_dispatcher.view();
            match apply_send_clause(&mut event_dispatcher, all_clauses[i].0.as_str(), all_clauses[i].1.as_str(), domains) {
                Ok(()) => {},
                Err(err) => {
                    proof {
                        lemma_dispatcher_stable(prefix, before_domains, *domains);
                        lemma_dispatcher_none_extends(cv, i + 1, *domains);
                    }
                    return Err(err);
                },
            }
            proof {
                lemma_dispatcher_stable(prefix, before_domains, *domains);
                assert(send_domains_known(cv.take(i + 1), *domains)) by {
                    assert forall|j: int| 0 <= j < cv.take(i + 1).len()
                        && (cv.take(i + 1)[j].0 == SEND_KEY_CLAUSE@ || cv.take(i + 1)[j].0 == SEND_EVENT_CLAUSE@)
                        && (#[trigger] spec_key_domain(cv.take(i + 1)[j].1)) is Some
                        implies domains.lookup(spec_key_domain(cv.take(i + 1)[j].1).unwrap()) is Some by {
                        if j < i {
                            assert(cv.take(i + 1)[j] == prefix[j]);
                        }
                    }
                }
            }
            i += 1;
        }
        proof {
            assert(cv.take(cv.len() as int) == cv);
        }
        let ghost d2 = *domains;
        let breaks_on_strs = arg_group.get_clauses("breaks-on");
        let breaks_on = match parse_key_list(&KeyParser::default_filter(), &breaks_on_strs, domains) {
            Ok(keys) => keys,
            Err(err) => {
                proof {
                    lemma_dispatcher_stable(cv, d2, *domains);
                }
                return Err(RuntimeError::ArgumentError(err));
            },
        };
        proof {
            lemma_dispatcher_stable(cv, d2, *domains);
        }
        if key_strs.len() == 0 {
            return Err(RuntimeError::ArgumentError(ArgumentError::new(join_strs(&[
                "A --hook argument requires at least one key.",
            ]))));
        }
        let exec_shell = arg_group.get_clauses("exec-shell");
        proof {
            assert forall|j: int| 0 <= j < n implies (#[trigger] keys_and_str@[j]).0@
                == spec_parsed_key(hook_parser(), g.keys[j], *domains) by {
                assert(key_strs@[j]@ == g.keys[j]);
                assert(strings_view(key_strs@)[j] == g.keys[j]);
                lemma_parsed_key_stable(hook_parser(), g.keys[j], d1, *domains);
            }
        }
        Ok(HookArg { keys_and_str, exec_shell, toggle_action, period, sequential, event_dispatcher, breaks_on })
    }
}

/// Adds what one clause asks a hook to send.
fn apply_send_clause(dispatcher: &mut EventDispatcherArg, name: &str, value: &str, domains: &mut DomainTracker)
    -> (res: Result<(), RuntimeError>)
    requires
        old(domains).well_formed(),
        old(domains).next_id() < usize::MAX,
        old(dispatcher).well_formed(),
    ensures
        final(domains).well_formed(),
        final(domains).next_id() <= old(domains).next_id() + 1,
        forall|n: Seq<char>| old(domains).lookup(n) is Some ==> final(domains).lookup(n) == old(domains).lookup(n),
        final(dispatcher).well_formed(),
        (name@ == SEND_KEY_CLAUSE@ || name@ == SEND_EVENT_CLAUSE@) && res is Ok && spec_key_domain(value@) is Some
            ==> final(domains).lookup(spec_key_domain(value@).unwrap()) is Some,
        match res {
            Ok(()) => dispatcher_step(old(dispatcher).view(), (name@, value@), *final(domains)) == Some(final(dispatcher).view()),
            Err(_) => dispatcher_step(old(dispatcher).view(), (name@, value@), *final(domains)) is None,
        },
{
    let name_chars = chars_of(name);
    if chars_eq(name_chars.as_slice(), chars_of(SEND_KEY_CLAUSE).as_slice()) {
        let key = parse_send_key_clause(value, domains)?;
        proof {
            lemma_parsed_key_has_no_affine(send_key_parser(), value@, *domains);
        }
        dispatcher.add_send_key(key);
        Ok(())
    } else if chars_eq(name_chars.as_slice(), chars_of(SEND_EVENT_CLAUSE).as_slice()) {
        let key = parse_send_event_clause(value, domains)?;
        proof {
            lemma_parsed_key_has_no_affine(send_event_parser(), value@, *domains);
        }
        dispatcher.add_send_event(key);
        Ok(())
    } else {
        Ok(())
    }
}

/// Parses the key of a send-key clause.
fn parse_send_key_clause(key: &str, domains: &mut DomainTracker) -> (res: Result<Key, RuntimeError>)
    requires
        old(domains).well_formed(),
        old(domains).next_id() < usize::MAX,
    ensures
        final(domains).well_formed(),
        final(domains).next_id() <= old(domains).next_id() + 1,
        forall|name: Seq<char>| old(domains).lookup(name) is Some ==> final(domains).lookup(name) == old(domains).lookup(name),
        spec_key_domain(key@) is Some && res is Ok ==> final(domains).lookup(spec_key_domain(key@).unwrap()) is Some,
        res is Ok <==> spec_parses(send_key_parser(), key@),
        res matches Ok(k) ==> k@ == spec_parsed_key(send_key_parser(), key@, *final(domains)),
        res is Err ==> *final(domains) == *old(domains),
{
    let whitelist: Vec<EventType> = vec![EventType::key()];
    let parser = KeyParser {
        default_value: "",
        allow_values: false,
        allow_ranges: false,
        allow_transitions: false,
        allow_types: false,
        allow_relative_values: false,
        type_whitelist: Some(whitelist),
        namespace: Namespace::User,
    };
    proof {
        reveal_strlit("");
        assert(parser.default_value@ =~= Seq::<char>::empty());
        assert(parser.type_whitelist.unwrap()@ =~= seq![EventType { value: crate::event::EV_KEY }]);
        assert(parser@ == send_key_parser());
    }
    match parser.parse(key, domains) {
        Ok(k) => Ok(k),
        Err(err) => Err(RuntimeError::ArgumentError(err)),
    }
}

/// Parses the key of a send-event clause, which must name a code and a value.
fn parse_send_event_clause(key: &str, domains: &mut DomainTracker) -> (res: Result<Key, RuntimeError>)
    requires
        old(domains).well_formed(),
        old(domains).next_id() < usize::MAX,
    ensures
        final(domains).well_formed(),
        final(domains).next_id() <= old(domains).next_id() + 1,
        forall|name: Seq<char>| old(domains).lookup(name) is Some ==> final(domains).lookup(name) == old(domains).lookup(name),
        spec_key_domain(key@) is Some && spec_parses(send_event_parser(), key@) ==> final(domains).lookup(spec_key_domain(key@).unwrap()) is Some,
        res is Ok <==> spec_parses(send_event_parser(), key@) && send_event_ok(spec_parsed_key(send_event_parser(), key@, *final(domains))),
        res matches Ok(k) ==> k@ == spec_parsed_key(send_event_parser(), key@, *final(domains)),
        !spec_parses(send_event_parser(), key@) ==> *final(domains) == *old(domains),
{
    let parser = KeyParser {
        default_value: "",
        allow_values: true,
        allow_ranges: false,
        allow_transitions: false,
        allow_types: false,
        allow_relative_values: false,
        type_whitelist: None,
        namespace: Namespace::User,
    };
    proof {
        reveal_strlit("");
        assert(parser.default_value@ =~= Seq::<char>::empty());
        assert(parser@ == send_event_parser());
    }
    let event = match parser.parse(key, domains) {
        Ok(k) => k,
        Err(err) => return Err(RuntimeError::ArgumentError(err)),
    };
    proof {
        lemma_parsed_key_has_no_affine(send_event_parser(), key@, *domains);
    }
    let (code, value) = event.duplicate().split_value();
    if code.requires_event_code().is_none() {
        return Err(RuntimeError::InternalError(InternalError::new(join_strs(&[
            "Parsing failed: no event code was found where one should exist according to an earlier check. This is a bug.",
        ]))));
    }
    if value.is_none() {
        return Err(RuntimeError::ArgumentError(ArgumentError::new(join_strs(&[
            "All events sent by the send-event clause must have their event value specified, e.g. \"key:a:1\"",
        ]))));
    }
    Ok(event)
}

} // verus!
