//! The state that arguments share while the program runs: the toggles, each with the index of
//! its active output, and the effects that hooks and commands have on them.

use vstd::prelude::*;

use crate::arguments::hook::HookToggleShift;

verus! {

/// The position of a toggle in the state.
#[derive(Clone, Copy, PartialEq, Eq, Debug, Structural)]
pub struct ToggleIndex(pub usize);

/// A toggle: which of its outputs is active, and how many outputs it has.
pub struct ToggleState {
    value: usize,
    size: usize,
}

/// What a toggle holds, as plain values.
pub struct ToggleStateView {
    pub value: nat,
    pub size: nat,
}

impl View for ToggleState {
    type V = ToggleStateView;

    closed spec fn view(&self) -> ToggleStateView {
        ToggleStateView { value: self.value as nat, size: self.size as nat }
    }
}

/// A toggle holds at least one output, and its active output is one of them.
pub open spec fn toggle_well_formed(t: ToggleStateView) -> bool {
    t.value < t.size
}

/// The toggle after a shift: to the next output, wrapping around, or to the given index modulo
/// the number of outputs.
pub open spec fn shifted(t: ToggleStateView, shift: HookToggleShift) -> ToggleStateView {
    match shift {
        HookToggleShift::Next => ToggleStateView { value: (t.value + 1) % t.size, size: t.size },
        HookToggleShift::ToIndex(index) => ToggleStateView { value: (index as nat) % t.size, size: t.size },
    }
}

/// The toggle after it advanced the given number of times.
pub open spec fn advanced(t: ToggleStateView, n: nat) -> ToggleStateView
    decreases n,
{
    if n == 0 {
        t
    } else {
        shifted(advanced(t, (n - 1) as nat), HookToggleShift::Next)
    }
}

proof fn lemma_advanced_value(t: ToggleStateView, n: nat)
    requires
        toggle_well_formed(t),
    ensures
        advanced(t, n).size == t.size,
        advanced(t, n).value == (t.value + n) % t.size,
    decreases n,
{
    if n == 0 {
        vstd::arithmetic::div_mod::lemma_small_mod(t.value, t.size);
    } else {
        lemma_advanced_value(t, (n - 1) as nat);
        vstd::arithmetic::div_mod::lemma_add_mod_noop_right(1, t.value + n - 1, t.size as int);
    }
}

/// Advancing a toggle as many times as it has outputs makes the output active again that was
/// active before.
pub proof fn lemma_advance_cycles(t: ToggleStateView)
    requires
        toggle_well_formed(t),
    ensures
        advanced(t, t.size) == t,
{
    lemma_advanced_value(t, t.size);
    vstd::arithmetic::div_mod::lemma_mod_add_multiples_vanish(t.value as int, t.size as int);
    vstd::arithmetic::div_mod::lemma_small_mod(t.value, t.size);
}

impl ToggleState {
    /// A toggle whose first output is active.
    pub fn new(size: usize) -> (res: ToggleState)
        requires
            size > 0,
        ensures
            res@ == (ToggleStateView { value: 0, size: size as nat }),
    {
        ToggleState { value: 0, size }
    }

    /// The index of the active output.
    pub fn value(&self) -> (res: usize)
        ensures
            res == self@.value,
    {
        self.value
    }

    /// The number of outputs.
    pub fn size(&self) -> (res: usize)
        ensures
            res == self@.size,
    {
        self.size
    }

    /// Makes the next output active, wrapping around after the last.
    pub fn advance(&mut self)
        requires
            toggle_well_formed(old(self)@),
        ensures
            final(self)@ == shifted(old(self)@, HookToggleShift::Next),
    {
        self.value = (self.value + 1) % self.size;
    }

    /// Makes the output with the given index active, modulo the number of outputs.
    pub fn set_value_wrapped(&mut self, value: usize)
        requires
            toggle_well_formed(old(self)@),
        ensures
            final(self)@ == shifted(old(self)@, HookToggleShift::ToIndex(value)),
    {
        self.value = value % self.size;
    }
}

/// A change to the toggles that a hook or a command makes.
#[derive(Debug)]
pub enum Effect {
    /// Shifts one toggle.
    Shift(ToggleIndex, HookToggleShift),
    /// Shifts every toggle but the listed ones.
    ShiftAllExcept(HookToggleShift, Vec<ToggleIndex>),
}

/// What an effect does, as plain values.
pub enum EffectView {
    Shift(ToggleIndex, HookToggleShift),
    ShiftAllExcept(HookToggleShift, Seq<ToggleIndex>),
}

impl View for Effect {
    type V = EffectView;

    open spec fn view(&self) -> EffectView {
        match self {
            Effect::Shift(index, shift) => EffectView::Shift(*index, *shift),
            Effect::ShiftAllExcept(shift, except) => EffectView::ShiftAllExcept(*shift, except@),
        }
    }
}

/// Whether an effect shifts the toggle at the given position, and how.
pub open spec fn shift_at(effect: EffectView, position: int) -> Option<HookToggleShift> {
    match effect {
        EffectView::Shift(index, shift) => if index.0 == position { Some(shift) } else { None },
        EffectView::ShiftAllExcept(shift, except) => if except.contains(ToggleIndex(position as usize)) {
            None
        } else {
            Some(shift)
        },
    }
}

/// The toggles after an effect.
pub open spec fn after_effect(toggles: Seq<ToggleStateView>, effect: EffectView) -> Seq<ToggleStateView> {
    Seq::new(toggles.len(), |j: int| match shift_at(effect, j) {
        Some(shift) => shifted(toggles[j], shift),
        None => toggles[j],
    })
}

/// The toggles of the program.
pub struct State {
    toggles: Vec<ToggleState>,
}

impl View for State {
    type V = Seq<ToggleStateView>;

    closed spec fn view(&self) -> Seq<ToggleStateView> {
        self.toggles@.map_values(|t: ToggleState| t@)
    }
}

impl State {
    /// Every toggle holds at least one output and has one of them active.
    pub open spec fn well_formed(&self) -> bool {
        forall|i: int| 0 <= i < self@.len() ==> toggle_well_formed(#[trigger] self@[i])
    }

    /// A state without toggles.
    pub fn new() -> (res: State)
        ensures
            res@ == Seq::<ToggleStateView>::empty(),
            res.well_formed(),
    {
        let res = State { toggles: Vec::new() };
        proof {
            assert(res@ =~= Seq::<ToggleStateView>::empty());
        }
        res
    }

    /// Adds a toggle with the given number of outputs, the first of them active, and returns
    /// its position.
    pub fn create_toggle_with_size(&mut self, size: usize) -> (res: ToggleIndex)
        requires
            size > 0,
            old(self).well_formed(),
        ensures
            final(self).well_formed(),
            final(self)@ == old(self)@.push(ToggleStateView { value: 0, size: size as nat }),
            res.0 == old(self)@.len(),
    {
        let index = ToggleIndex(self.toggles.len());
        let ghost before = self.toggles@;
        self.toggles.push(ToggleState::new(size));
        proof {
            assert(self.toggles@ == before.push(ToggleState { value: 0, size }));
            assert(self@ =~= old(self)@.push(ToggleStateView { value: 0, size: size as nat }));
        }
        index
    }

    /// The number of toggles.
    pub fn len(&self) -> (res: usize)
        ensures
            res == self@.len(),
    {
        self.toggles.len()
    }

    /// The toggle at the given position.
    pub fn toggle(&self, index: ToggleIndex) -> (res: &ToggleState)
        requires
            index.0 < self@.len(),
        ensures
            res@ == self@[index.0 as int],
    {
        &self.toggles[index.0]
    }

    /// Shifts the toggle at the given position.
    fn shift_one(&mut self, position: usize, shift: HookToggleShift)
        requires
            old(self).well_formed(),
            position < old(self)@.len(),
        ensures
            final(self).well_formed(),
            final(self)@ == old(self)@.update(position as int, shifted(old(self)@[position as int], shift)),
    {
        proof {
            assert(self@[position as int] == self.toggles@[position as int]@);
            assert(toggle_well_formed(self@[position as int]));
        }
        let size = self.toggles[position].size;
        let value = self.toggles[position].value;
        let new_value = match shift {
            HookToggleShift::Next => (value + 1) % size,
            HookToggleShift::ToIndex(index) => index % size,
        };
        proof {
            assert(self@[position as int] == self.toggles@[position as int]@);
        }
        let ghost shifted_toggle = ToggleStateView { value: new_value as nat, size: size as nat };
        self.toggles.set(position, ToggleState { value: new_value, size });
        proof {
            assert(self@ =~= old(self)@.update(position as int, shifted_toggle));
            assert forall|i: int| 0 <= i < self@.len() implies toggle_well_formed(#[trigger] self@[i]) by {
                if i != position {
                    assert(self@[i] == old(self)@[i]);
                }
            }
        }
    }

    /// Applies an effect to the toggles.
    pub fn apply_effect(&mut self, effect: &Effect)
        requires
            old(self).well_formed(),
            effect@ matches EffectView::Shift(index, _) ==> index.0 < old(self)@.len(),
        ensures
            final(self).well_formed(),
            final(self)@ == after_effect(old(self)@, effect@),
    {
        match effect {
            Effect::Shift(index, shift) => {
                self.shift_one(index.0, *shift);
                proof {
                    assert(self@ =~= after_effect(old(self)@, effect@));
                }
            },
            Effect::ShiftAllExcept(shift, except) => {
                let mut j: usize = 0;
                while j < self.toggles.len()
                    invariant
                        j <= self@.len(),
                        self@.len() == old(self)@.len(),
                        self.well_formed(),
                        effect@ == EffectView::ShiftAllExcept(*shift, except@),
                        forall|i: int| 0 <= i < j ==> self@[i] == #[trigger] after_effect(old(self)@, effect@)[i],
                        forall|i: int| j <= i < self@.len() ==> self@[i] == #[trigger] old(self)@[i],
                    decreases self@.len() - j,
                {
                    let mut listed = false;
                    let mut k: usize = 0;
                    while k < except.len()
                        invariant
                            k <= except@.len(),
                            listed == exists|x: int| 0 <= x < k && #[trigger] except@[x] == ToggleIndex(j),
                        decreases except@.len() - k,
                    {
                        if except[k].0 == j {
                            listed = true;
                        }
                        k += 1;
                    }
                    proof {
                        if listed {
                            let x = choose|x: int| 0 <= x < except@.len() && #[trigger] except@[x] == ToggleIndex(j);
                            assert(except@.contains(ToggleIndex(j)));
                        } else {
                            assert(!except@.contains(ToggleIndex(j)));
                        }
                    }
                    let ghost before = self@;
                    if !listed {
                        self.shift_one(j, *shift);
                    }
                    proof {
                        assert forall|i: int| 0 <= i <= j implies self@[i] == #[trigger] after_effect(old(self)@, effect@)[i] by {
                            if i < j {
                                assert(self@[i] == before[i]);
                            }
                        }
                        assert forall|i: int| j < i < self@.len() implies self@[i] == #[trigger] old(self)@[i] by {
                            assert(self@[i] == before[i]);
                        }
                    }
                    j += 1;
                }
                proof {
                    assert(self@ =~= after_effect(old(self)@, effect@));
                }
            },
        }
    }
}

} // verus!
