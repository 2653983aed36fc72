//! The scancodes that USB keyboards send for keys, as far as known.

use vstd::prelude::*;

use crate::ecodes::{event_code, spec_event_code};
use crate::event::EventCode;

verus! {

pub type Scancode = i32;

/// The names of keys of type "key", with the scancodes that they have.
pub open spec fn scancode_table() -> Seq<(&'static str, Scancode)> {
    seq![
        ("a", 458756i32),
        ("b", 458757i32),
        ("c", 458758i32),
        ("d", 458759i32),
        ("e", 458760i32),
        ("f", 458761i32),
        ("g", 458762i32),
        ("h", 458763i32),
        ("i", 458764i32),
        ("j", 458765i32),
        ("k", 458766i32),
        ("l", 458767i32),
        ("m", 458768i32),
        ("n", 458769i32),
        ("o", 458770i32),
        ("p", 458771i32),
        ("q", 458772i32),
        ("r", 458773i32),
        ("s", 458774i32),
        ("t", 458775i32),
        ("u", 458776i32),
        ("v", 458777i32),
        ("w", 458778i32),
        ("x", 458779i32),
        ("y", 458780i32),
        ("z", 458781i32),
        ("1", 458782i32),
        ("2", 458783i32),
        ("3", 458784i32),
        ("4", 458785i32),
        ("5", 458786i32),
        ("6", 458787i32),
        ("7", 458788i32),
        ("8", 458789i32),
        ("9", 458790i32),
        ("0", 458791i32),
        ("enter", 458792i32),
        ("esc", 458793i32),
        ("backspace", 458794i32),
        ("tab", 458795i32),
        ("space", 458796i32),
        ("minus", 458797i32),
        ("equal", 458798i32),
        ("leftbrace", 458799i32),
        ("rightbrace", 458800i32),
        ("backslash", 458801i32),
        ("semicolon", 458803i32),
        ("apostrophe", 458804i32),
        ("grave", 458805i32),
        ("comma", 458806i32),
        ("dot", 458807i32),
        ("slash", 458808i32),
        ("capslock", 458809i32),
        ("f1", 458810i32),
        ("f2", 458811i32),
        ("f3", 458812i32),
        ("f4", 458813i32),
        ("f5", 458814i32),
        ("f6", 458815i32),
        ("f7", 458816i32),
        ("f8", 458817i32),
        ("f9", 458818i32),
        ("f10", 458819i32),
        ("f11", 458820i32),
        ("f12", 458821i32),
        ("sysrq", 458822i32),
        ("scrolllock", 458823i32),
        ("pause", 458824i32),
        ("insert", 458825i32),
        ("home", 458826i32),
        ("pageup", 458827i32),
        ("delete", 458828i32),
        ("end", 458829i32),
        ("pagedown", 458830i32),
        ("right", 458831i32),
        ("left", 458832i32),
        ("down", 458833i32),
        ("up", 458834i32),
        ("numlock", 458835i32),
        ("kpslash", 458836i32),
        ("kpasterisk", 458837i32),
        ("kpminus", 458838i32),
        ("kpplus", 458839i32),
        ("kpenter", 458840i32),
        ("kp1", 458841i32),
        ("kp2", 458842i32),
        ("kp3", 458843i32),
        ("kp4", 458844i32),
        ("kp5", 458845i32),
        ("kp6", 458846i32),
        ("kp7", 458847i32),
        ("kp8", 458848i32),
        ("kp9", 458849i32),
        ("kp0", 458850i32),
        ("kpdot", 458851i32),
        ("compose", 458853i32),
        ("leftctrl", 458976i32),
        ("leftshift", 458977i32),
        ("leftalt", 458978i32),
        ("leftmeta", 458979i32),
        ("rightctrl", 458980i32),
        ("rightshift", 458981i32),
        ("rightalt", 458982i32),
    ]
}

/// The scancode of the first entry among the first `n` of the table whose key is `code`.
pub open spec fn first_scancode(table: Seq<(&'static str, Scancode)>, code: EventCode, n: nat) -> Option<Scancode>
    decreases n,
{
    if n == 0 {
        None
    } else {
        match first_scancode(table, code, (n - 1) as nat) {
            Some(s) => Some(s),
            None => if n <= table.len() && spec_event_code("key"@, table[n - 1].0@) == Some(code) {
                Some(table[n - 1].1)
            } else {
                None
            },
        }
    }
}

fn table() -> (res: Vec<(&'static str, Scancode)>)
    ensures
        res@ == scancode_table(),
{
    let res = vec![
        ("a", 458756i32),
        ("b", 458757i32),
        ("c", 458758i32),
        ("d", 458759i32),
        ("e", 458760i32),
        ("f", 458761i32),
        ("g", 458762i32),
        ("h", 458763i32),
        ("i", 458764i32),
        ("j", 458765i32),
        ("k", 458766i32),
        ("l", 458767i32),
        ("m", 458768i32),
        ("n", 458769i32),
        ("o", 458770i32),
        ("p", 458771i32),
        ("q", 458772i32),
        ("r", 458773i32),
        ("s", 458774i32),
        ("t", 458775i32),
        ("u", 458776i32),
        ("v", 458777i32),
        ("w", 458778i32),
        ("x", 458779i32),
        ("y", 458780i32),
        ("z", 458781i32),
        ("1", 458782i32),
        ("2", 458783i32),
        ("3", 458784i32),
        ("4", 458785i32),
        ("5", 458786i32),
        ("6", 458787i32),
        ("7", 458788i32),
        ("8", 458789i32),
        ("9", 458790i32),
        ("0", 458791i32),
        ("enter", 458792i32),
        ("esc", 458793i32),
        ("backspace", 458794i32),
        ("tab", 458795i32),
        ("space", 458796i32),
        ("minus", 458797i32),
        ("equal", 458798i32),
        ("leftbrace", 458799i32),
        ("rightbrace", 458800i32),
        ("backslash", 458801i32),
        ("semicolon", 458803i32),
        ("apostrophe", 458804i32),
        ("grave", 458805i32),
        ("comma", 458806i32),
        ("dot", 458807i32),
        ("slash", 458808i32),
        ("capslock", 458809i32),
        ("f1", 458810i32),
        ("f2", 458811i32),
        ("f3", 458812i32),
        ("f4", 458813i32),
        ("f5", 458814i32),
        ("f6", 458815i32),
        ("f7", 458816i32),
        ("f8", 458817i32),
        ("f9", 458818i32),
        ("f10", 458819i32),
        ("f11", 458820i32),
        ("f12", 458821i32),
        ("sysrq", 458822i32),
        ("scrolllock", 458823i32),
        ("pause", 458824i32),
        ("insert", 458825i32),
        ("home", 458826i32),
        ("pageup", 458827i32),
        ("delete", 458828i32),
        ("end", 458829i32),
        ("pagedown", 458830i32),
        ("right", 458831i32),
        ("left", 458832i32),
        ("down", 458833i32),
        ("up", 458834i32),
        ("numlock", 458835i32),
        ("kpslash", 458836i32),
        ("kpasterisk", 458837i32),
        ("kpminus", 458838i32),
        ("kpplus", 458839i32),
        ("kpenter", 458840i32),
        ("kp1", 458841i32),
        ("kp2", 458842i32),
        ("kp3", 458843i32),
        ("kp4", 458844i32),
        ("kp5", 458845i32),
        ("kp6", 458846i32),
        ("kp7", 458847i32),
        ("kp8", 458848i32),
        ("kp9", 458849i32),
        ("kp0", 458850i32),
        ("kpdot", 458851i32),
        ("compose", 458853i32),
        ("leftctrl", 458976i32),
        ("leftshift", 458977i32),
        ("leftalt", 458978i32),
        ("leftmeta", 458979i32),
        ("rightctrl", 458980i32),
        ("rightshift", 458981i32),
        ("rightalt", 458982i32),
    ];
    proof {
        assert(res@ =~= scancode_table());
    }
    res
}

/// The scancode of a key, if the table knows it.
pub fn from_event_code(code: EventCode) -> (res: Option<Scancode>)
    ensures
        res == first_scancode(scancode_table(), code, scancode_table().len()),
{
    let table = table();
    let mut i: usize = 0;
    while i < table.len()
        invariant
            i <= table@.len(),
            table@ == scancode_table(),
            first_scancode(scancode_table(), code, i as nat) is None,
        decreases table@.len() - i,
    {
        let (name, scancode) = table[i];
        if let Ok(found) = event_code("key", name) {
            if found == code {
                proof {
                    lemma_first_scancode_stays(scancode_table(), code, (i + 1) as nat, scancode_table().len());
                }
                return Some(scancode);
            }
        }
        i += 1;
    }
    None
}

proof fn lemma_first_scancode_stays(table: Seq<(&'static str, Scancode)>, code: EventCode, k: nat, n: nat)
    requires
        k <= n,
        first_scancode(table, code, k) is Some,
    ensures
        first_scancode(table, code, n) == first_scancode(table, code, k),
    decreases n - k,
{
    if k < n {
        lemma_first_scancode_stays(table, code, k, (n - 1) as nat);
    }
}

} // verus!
