//! The commands that a control fifo hands to the program, one on each line.

use vstd::prelude::*;

use crate::arguments::config::{spec_words, split_whitespace};
use crate::arguments::hook::{
    lemma_lookup_toggle_in, spec_id_effects, spec_toggle_action, spec_toggle_effects, toggle_ids_view, HookToggleAction,
    HookToggleShift, ToggleActionView,
};
use crate::error::{ArgumentError, Context};
use crate::io::fifo::{split_lines, valid_texts, LineReader};
use crate::state::{after_effect, Effect, EffectView, State, ToggleIndex, ToggleStateView};
use crate::text::{chars_eq, chars_of, flatten_strs, join_strs, strings_view};

verus! {

/// A command that a control fifo can give.
pub enum Command {
    /// Shifts toggles, as the toggle clauses of a hook do.
    Toggle(HookToggleAction),
}

/// A command together with the line that gave it.
pub struct CommandInfo {
    /// The literal text that was received, for reporting errors.
    pub original_line: String,
    /// What the line asks for.
    pub action: Command,
}

/// What a line asks for, or None if it is not a command: the word "toggle" followed by toggle
/// clauses, which shifts every toggle when no clause follows.
pub open spec fn spec_command(line: Seq<char>) -> Option<ToggleActionView> {
    let words = spec_words(line);
    if words.len() == 0 || words[0] != "toggle"@ {
        None
    } else {
        spec_toggle_action(words.len() == 1, words.drop_first())
    }
}

/// Interprets one line of a control fifo.
pub fn parse_command(line: &str) -> (res: Result<Command, ArgumentError>)
    ensures
        match res {
            Ok(Command::Toggle(action)) => spec_command(line@) == Some(action@),
            Err(_) => spec_command(line@) is None,
        },
{
    let mut words = split_whitespace(line);
    let ghost all = strings_view(words@);
    if words.len() == 0 {
        return Err(ArgumentError::new(join_strs(&["No command provided."])));
    }
    let command = words.remove(0);
    proof {
        assert(command@ == all[0]);
        assert(strings_view(words@) =~= all.drop_first());
    }
    let toggle = chars_of("toggle");
    let name = chars_of(command.as_str());
    if chars_eq(name.as_slice(), toggle.as_slice()) {
        let has_toggle_flag = words.len() == 0;
        let action = HookToggleAction::parse(has_toggle_flag, words)?;
        Ok(Command::Toggle(action))
    } else {
        Err(ArgumentError::new(join_strs(&["Unknown command name: ", command.as_str()])))
    }
}

/// The lines that are not empty.
pub open spec fn nonempty_lines(lines: Seq<Seq<char>>) -> Seq<Seq<char>> {
    lines.filter(|line: Seq<char>| line.len() > 0)
}

/// The results for the lines: one for each line that is not empty, in order. A command comes
/// with its line; a line that is not a command gives an error whose first line of context names
/// the line.
pub open spec fn interprets(results: Seq<Result<CommandInfo, ArgumentError>>, lines: Seq<Seq<char>>) -> bool {
    &&& results.len() == nonempty_lines(lines).len()
    &&& forall|k: int| 0 <= k < results.len() ==> match #[trigger] results[k] {
        Ok(info) => {
            &&& info.original_line@ == nonempty_lines(lines)[k]
            &&& info.action matches Command::Toggle(action)
            &&& spec_command(info.original_line@) == Some(action@)
        },
        Err(error) => {
            &&& spec_command(nonempty_lines(lines)[k]) is None
            &&& error.context_spec().len() > 0
            &&& error.context_spec()[0] == "While parsing the command \""@ + nonempty_lines(lines)[k] + "\":"@
        },
    }
}

/// Interprets the lines that a control fifo gave, skipping empty lines. A line that is not a
/// command gives an error that names the line.
pub fn interpret_lines(lines: Vec<String>) -> (res: Vec<Result<CommandInfo, ArgumentError>>)
    ensures
        interprets(res@, strings_view(lines@)),
{
    let ghost view = strings_view(lines@);
    let mut res: Vec<Result<CommandInfo, ArgumentError>> = Vec::new();
    let mut i: usize = 0;
    let mut lines = lines;
    proof {
        reveal(Seq::filter);
        assert(view.take(0).filter(|line: Seq<char>| line.len() > 0) =~= Seq::<Seq<char>>::empty());
    }
    while i < lines.len()
        invariant
            i <= lines@.len(),
            view == strings_view(lines@),
            res@.len() == nonempty_lines(view.take(i as int)).len(),
            forall|k: int| 0 <= k < res@.len() ==> match #[trigger] res@[k] {
                Ok(info) => {
                    &&& info.original_line@ == nonempty_lines(view.take(i as int))[k]
                    &&& info.action matches Command::Toggle(action)
                    &&& spec_command(info.original_line@) == Some(action@)
                },
                Err(error) => {
                    &&& spec_command(nonempty_lines(view.take(i as int))[k]) is None
                    &&& error.context_spec().len() > 0
                    &&& error.context_spec()[0] == "While parsing the command \""@ + nonempty_lines(view.take(i as int))[k] + "\":"@
                },
            },
        decreases lines@.len() - i,
    {
        let ghost before = nonempty_lines(view.take(i as int));
        proof {
            assert(view.take(i + 1).drop_last() == view.take(i as int));
            assert(view.take(i + 1).last() == view[i as int]);
            assert(nonempty_lines(view.take(i + 1)) == if view[i as int].len() > 0 {
                before.push(view[i as int])
            } else {
                before
            }) by {
                reveal(Seq::filter);
            };
        }
        let line = lines[i].clone();
        if !line.as_str().is_empty() {
            let ghost old_res = res@;
            match parse_command(line.as_str()) {
                Ok(action) => {
                    res.push(Ok(CommandInfo { original_line: line, action }));
                },
                Err(error) => {
                    let context = join_strs(&["While parsing the command \"", line.as_str(), "\":"]);
                    proof {
                        reveal_with_fuel(flatten_strs, 4);
                        assert(context@ =~= "While parsing the command \""@ + line@ + "\":"@);
                    }
                    res.push(Err(error.with_context(context)));
                },
            }
            proof {
                assert(line@ == view[i as int]);
                assert(nonempty_lines(view.take(i + 1)) == before.push(line@));
                assert forall|k: int| 0 <= k < res@.len() implies match #[trigger] res@[k] {
                    Ok(info) => {
                        &&& info.original_line@ == nonempty_lines(view.take(i + 1))[k]
                        &&& info.action matches Command::Toggle(action)
                        &&& spec_command(info.original_line@) == Some(action@)
                    },
                    Err(error) => {
                        &&& spec_command(nonempty_lines(view.take(i + 1))[k]) is None
                        &&& error.context_spec().len() > 0
                        &&& error.context_spec()[0] == "While parsing the command \""@ + nonempty_lines(view.take(i + 1))[k] + "\":"@
                    },
                } by {
                    if k < old_res.len() {
                        assert(res@[k] == old_res[k]);
                    }
                }
            }
        }
        i += 1;
    }
    proof {
        assert(view.take(lines@.len() as int) == view);
    }
    res
}

/// The toggles after the effects, one after another.
pub open spec fn after_effects(toggles: Seq<ToggleStateView>, effects: Seq<EffectView>) -> Seq<ToggleStateView>
    decreases effects.len(),
{
    if effects.len() == 0 {
        toggles
    } else {
        after_effect(after_effects(toggles, effects.drop_last()), effects.last())
    }
}

/// The effects of single toggles name toggles that have an id.
proof fn lemma_id_effects_known(
    actions: Seq<(Seq<char>, HookToggleShift)>,
    toggles: Seq<ToggleStateView>,
    ids: Seq<(Seq<char>, ToggleIndex)>,
)
    ensures
        spec_id_effects(actions, toggles, ids) matches Some(effects) ==> forall|k: int| 0 <= k < effects.len()
            ==> (#[trigger] effects[k] matches EffectView::Shift(index, _)
                ==> exists|x: int| 0 <= x < ids.len() && ids[x].1 == index),
    decreases actions.len(),
{
    if actions.len() > 0 {
        lemma_id_effects_known(actions.drop_last(), toggles, ids);
        lemma_lookup_toggle_in(ids, actions.last().0);
    }
}

impl Command {
    /// Carries out the command on the toggles, given the position of each toggle with an id.
    pub fn execute(self, state: &mut State, toggle_indices: &Vec<(String, ToggleIndex)>) -> (res: Result<(), ArgumentError>)
        requires
            old(state).well_formed(),
            forall|i: int| 0 <= i < toggle_indices@.len() ==> (#[trigger] toggle_indices@[i]).1.0 < old(state)@.len(),
        ensures
            final(state).well_formed(),
            match self {
                Command::Toggle(action) => match spec_toggle_effects(action@, old(state)@, toggle_ids_view(toggle_indices@)) {
                    Some(effects) => res is Ok && final(state)@ == after_effects(old(state)@, effects),
                    None => res is Err && final(state)@ == old(state)@,
                },
            },
    {
        match self {
            Command::Toggle(action) => {
                let effects = action.implement(state, toggle_indices)?;
                let ghost ids = toggle_ids_view(toggle_indices@);
                let ghost effect_views = effects@.map_values(|e: Effect| e@);
                proof {
                    lemma_id_effects_known(action@.by_id_actions, old(state)@, ids);
                    assert(effect_views.take(0) =~= Seq::<EffectView>::empty());
                }
                let mut k: usize = 0;
                while k < effects.len()
                    invariant
                        k <= effects@.len(),
                        effect_views == effects@.map_values(|e: Effect| e@),
                        spec_toggle_effects(action@, old(state)@, ids) == Some(effect_views),
                        ids == toggle_ids_view(toggle_indices@),
                        forall|i: int| 0 <= i < toggle_indices@.len() ==> (#[trigger] toggle_indices@[i]).1.0 < old(state)@.len(),
                        spec_id_effects(action@.by_id_actions, old(state)@, ids) matches Some(id_effects)
                            && forall|j: int| 0 <= j < id_effects.len()
                                ==> (#[trigger] id_effects[j] matches EffectView::Shift(index, _)
                                    ==> exists|x: int| 0 <= x < ids.len() && ids[x].1 == index),
                        state.well_formed(),
                        state@.len() == old(state)@.len(),
                        state@ == after_effects(old(state)@, effect_views.take(k as int)),
                    decreases effects@.len() - k,
                {
                    proof {
                        assert(effect_views[k as int] == effects@[k as int]@);
                        let id_effects = spec_id_effects(action@.by_id_actions, old(state)@, ids).unwrap();
                        if let EffectView::Shift(index, _) = effect_views[k as int] {
                            if action@.global_action is Some {
                                assert(k < id_effects.len() || effect_views[k as int] is ShiftAllExcept);
                            }
                            assert(effect_views[k as int] == id_effects[k as int]);
                            let x = choose|x: int| 0 <= x < ids.len() && ids[x].1 == index;
                            assert(ids[x].1 == toggle_indices@[x].1);
                        }
                        assert(effect_views.take(k + 1).drop_last() == effect_views.take(k as int));
                        assert(effect_views.take(k + 1).last() == effect_views[k as int]);
                    }
                    state.apply_effect(&effects[k]);
                    k += 1;
                }
                proof {
                    assert(effect_views.take(effects@.len() as int) == effect_views);
                }
                Ok(())
            },
        }
    }
}

/// A control fifo: a named pipe through which commands arrive, one on each line. The pipe
/// itself is opened and read by the caller, which hands over the bytes it reads.
pub struct ControlFifo {
    path: String,
    reader: LineReader,
}

impl ControlFifo {
    pub closed spec fn path_spec(&self) -> Seq<char> {
        self.path@
    }

    /// The bytes that were read and do not complete a line yet.
    pub closed spec fn buffered(&self) -> Seq<u8> {
        self.reader.buffered()
    }

    /// A control fifo at the given path, which has received nothing yet.
    pub fn create(path: String) -> (res: ControlFifo)
        ensures
            res.path_spec() == path@,
            res.buffered() == Seq::<u8>::empty(),
    {
        ControlFifo { path, reader: LineReader::new() }
    }

    pub fn path(&self) -> (res: &str)
        ensures
            res@ == self.path_spec(),
    {
        self.path.as_str()
    }

    /// Takes the bytes of one read and returns the results for the lines that they complete.
    /// Lines that are not valid UTF-8 are left out.
    pub fn poll(&mut self, data: &[u8]) -> (res: Vec<Result<CommandInfo, ArgumentError>>)
        requires
            old(self).buffered().len() + data@.len() <= usize::MAX,
        ensures
            interprets(res@, valid_texts(split_lines(old(self).buffered() + data@).0)),
            final(self).buffered() == split_lines(old(self).buffered() + data@).1,
            final(self).path_spec() == old(self).path_spec(),
    {
        let lines = self.reader.read_lines(data);
        proof {
            assert(strings_view(lines@) == lines@.map_values(|t: String| t@));
        }
        interpret_lines(lines)
    }
}

} // verus!
