//! The names of the event types and event codes of the Linux input subsystem, as the kernel's
//! `input-event-codes.h` and `input.h` define them. Each code name is split at its first underscore,
//! e.g. `BTN_LEFT` is stored as the pair ("btn", "left").

use vstd::prelude::*;

verus! {

/// The name of an event type, e.g. "key" for EV_KEY.
pub open spec fn spec_type_entry(ev_type: u16) -> Option<Seq<char>> {
    match ev_type {
        0u16 => Some("syn"@),
        1u16 => Some("key"@),
        2u16 => Some("rel"@),
        3u16 => Some("abs"@),
        4u16 => Some("msc"@),
        5u16 => Some("sw"@),
        17u16 => Some("led"@),
        18u16 => Some("snd"@),
        20u16 => Some("rep"@),
        21u16 => Some("ff"@),
        22u16 => Some("pwr"@),
        23u16 => Some("ff_status"@),
        31u16 => Some("max"@),
        _ => None,
    }
}

pub fn type_entry(ev_type: u16) -> (res: Option<&'static str>)
    ensures
        match res {
            Some(name) => spec_type_entry(ev_type) == Some(name@),
            None => spec_type_entry(ev_type) is None,
        },
{
    match ev_type {
        0u16 => Some("syn"),
        1u16 => Some("key"),
        2u16 => Some("rel"),
        3u16 => Some("abs"),
        4u16 => Some("msc"),
        5u16 => Some("sw"),
        17u16 => Some("led"),
        18u16 => Some("snd"),
        20u16 => Some("rep"),
        21u16 => Some("ff"),
        22u16 => Some("pwr"),
        23u16 => Some("ff_status"),
        31u16 => Some("max"),
        _ => None,
    }
}

/// The highest event code that exists for an event type, if that type has event codes.
pub open spec fn spec_type_max(ev_type: u16) -> Option<u16> {
    match ev_type {
        0u16 => Some(15u16),
        1u16 => Some(767u16),
        2u16 => Some(15u16),
        3u16 => Some(63u16),
        4u16 => Some(7u16),
        5u16 => Some(16u16),
        17u16 => Some(15u16),
        18u16 => Some(7u16),
        20u16 => Some(1u16),
        21u16 => Some(127u16),
        23u16 => Some(1u16),
        _ => None,
    }
}

pub fn type_max(ev_type: u16) -> (res: Option<u16>)
    ensures
        res == spec_type_max(ev_type),
{
    match ev_type {
        0u16 => Some(15u16),
        1u16 => Some(767u16),
        2u16 => Some(15u16),
        3u16 => Some(63u16),
        4u16 => Some(7u16),
        5u16 => Some(16u16),
        17u16 => Some(15u16),
        18u16 => Some(7u16),
        20u16 => Some(1u16),
        21u16 => Some(127u16),
        23u16 => Some(1u16),
        _ => None,
    }
}

pub open spec fn spec_codes_0_0(code: u16) -> Option<(Seq<char>, Seq<char>)> {
    match code {
        0u16 => Some(("syn"@, "report"@)),
        1u16 => Some(("syn"@, "config"@)),
        2u16 => Some(("syn"@, "mt_report"@)),
        3u16 => Some(("syn"@, "dropped"@)),
        15u16 => Some(("syn"@, "max"@)),
        _ => None,
    }
}

fn codes_0_0(code: u16) -> (res: Option<(&'static str, &'static str)>)
    ensures
        match res {
            Some((prefix, rest)) => spec_codes_0_0(code) == Some((prefix@, rest@)),
            None => spec_codes_0_0(code) is None,
        },
{
    match code {
        0u16 => Some(("syn", "report")),
        1u16 => Some(("syn", "config")),
        2u16 => Some(("syn", "mt_report")),
        3u16 => Some(("syn", "dropped")),
        15u16 => Some(("syn", "max")),
        _ => None,
    }
}

pub open spec fn spec_codes_1_0(code: u16) -> Option<(Seq<char>, Seq<char>)> {
    match code {
        0u16 => Some(("key"@, "reserved"@)),
        1u16 => Some(("key"@, "esc"@)),
        2u16 => Some(("key"@, "1"@)),
        3u16 => Some(("key"@, "2"@)),
        4u16 => Some(("key"@, "3"@)),
        5u16 => Some(("key"@, "4"@)),
        6u16 => Some(("key"@, "5"@)),
        7u16 => Some(("key"@, "6"@)),
        8u16 => Some(("key"@, "7"@)),
        9u16 => Some(("key"@, "8"@)),
        10u16 => Some(("key"@, "9"@)),
        11u16 => Some(("key"@, "0"@)),
        12u16 => Some(("key"@, "minus"@)),
        13u16 => Some(("key"@, "equal"@)),
        14u16 => Some(("key"@, "backspace"@)),
        15u16 => Some(("key"@, "tab"@)),
        16u16 => Some(("key"@, "q"@)),
        17u16 => Some(("key"@, "w"@)),
        18u16 => Some(("key"@, "e"@)),
        19u16 => Some(("key"@, "r"@)),
        20u16 => Some(("key"@, "t"@)),
        21u16 => Some(("key"@, "y"@)),
        22u16 => Some(("key"@, "u"@)),
        23u16 => Some(("key"@, "i"@)),
        24u16 => Some(("key"@, "o"@)),
        25u16 => Some(("key"@, "p"@)),
        26u16 => Some(("key"@, "leftbrace"@)),
        27u16 => Some(("key"@, "rightbrace"@)),
        28u16 => Some(("key"@, "enter"@)),
        29u16 => Some(("key"@, "leftctrl"@)),
        30u16 => Some(("key"@, "a"@)),
        31u16 => Some(("key"@, "s"@)),
        32u16 => Some(("key"@, "d"@)),
        33u16 => Some(("key"@, "f"@)),
        34u16 => Some(("key"@, "g"@)),
        35u16 => Some(("key"@, "h"@)),
        36u16 => Some(("key"@, "j"@)),
        37u16 => Some(("key"@, "k"@)),
        38u16 => Some(("key"@, "l"@)),
        39u16 => Some(("key"@, "semicolon"@)),
        40u16 => Some(("key"@, "apostrophe"@)),
        41u16 => Some(("key"@, "grave"@)),
        42u16 => Some(("key"@, "leftshift"@)),
        43u16 => Some(("key"@, "backslash"@)),
        44u16 => Some(("key"@, "z"@)),
        45u16 => Some(("key"@, "x"@)),
        46u16 => Some(("key"@, "c"@)),
        47u16 => Some(("key"@, "v"@)),
        48u16 => Some(("key"@, "b"@)),
        49u16 => Some(("key"@, "n"@)),
        50u16 => Some(("key"@, "m"@)),
        51u16 => Some(("key"@, "comma"@)),
        52u16 => Some(("key"@, "dot"@)),
        53u16 => Some(("key"@, "slash"@)),
        54u16 => Some(("key"@, "rightshift"@)),
        55u16 => Some(("key"@, "kpasterisk"@)),
        56u16 => Some(("key"@, "leftalt"@)),
        57u16 => Some(("key"@, "space"@)),
        58u16 => Some(("key"@, "capslock"@)),
        59u16 => Some(("key"@, "f1"@)),
        60u16 => Some(("key"@, "f2"@)),
        61u16 => Some(("key"@, "f3"@)),
        62u16 => Some(("key"@, "f4"@)),
        63u16 => Some(("key"@, "f5"@)),
        _ => None,
    }
}

fn codes_1_0(code: u16) -> (res: Option<(&'static str, &'static str)>)
    ensures
        match res {
            Some((prefix, rest)) => spec_codes_1_0(code) == Some((prefix@, rest@)),
            None => spec_codes_1_0(code) is None,
        },
{
    match code {
        0u16 => Some(("key", "reserved")),
        1u16 => Some(("key", "esc")),
        2u16 => Some(("key", "1")),
        3u16 => Some(("key", "2")),
        4u16 => Some(("key", "3")),
        5u16 => Some(("key", "4")),
        6u16 => Some(("key", "5")),
        7u16 => Some(("key", "6")),
        8u16 => Some(("key", "7")),
        9u16 => Some(("key", "8")),
        10u16 => Some(("key", "9")),
        11u16 => Some(("key", "0")),
        12u16 => Some(("key", "minus")),
        13u16 => Some(("key", "equal")),
        14u16 => Some(("key", "backspace")),
        15u16 => Some(("key", "tab")),
        16u16 => Some(("key", "q")),
        17u16 => Some(("key", "w")),
        18u16 => Some(("key", "e")),
        19u16 => Some(("key", "r")),
        20u16 => Some(("key", "t")),
        21u16 => Some(("key", "y")),
        22u16 => Some(("key", "u")),
        23u16 => Some(("key", "i")),
        24u16 => Some(("key", "o")),
        25u16 => Some(("key", "p")),
        26u16 => Some(("key", "leftbrace")),
        27u16 => Some(("key", "rightbrace")),
        28u16 => Some(("key", "enter")),
        29u16 => Some(("key", "leftctrl")),
        30u16 => Some(("key", "a")),
        31u16 => Some(("key", "s")),
        32u16 => Some(("key", "d")),
        33u16 => Some(("key", "f")),
        34u16 => Some(("key", "g")),
        35u16 => Some(("key", "h")),
        36u16 => Some(("key", "j")),
        37u16 => Some(("key", "k")),
        38u16 => Some(("key", "l")),
        39u16 => Some(("key", "semicolon")),
        40u16 => Some(("key", "apostrophe")),
        41u16 => Some(("key", "grave")),
        42u16 => Some(("key", "leftshift")),
        43u16 => Some(("key", "backslash")),
        44u16 => Some(("key", "z")),
        45u16 => Some(("key", "x")),
        46u16 => Some(("key", "c")),
        47u16 => Some(("key", "v")),
        48u16 => Some(("key", "b")),
        49u16 => Some(("key", "n")),
        50u16 => Some(("key", "m")),
        51u16 => Some(("key", "comma")),
        52u16 => Some(("key", "dot")),
        53u16 => Some(("key", "slash")),
        54u16 => Some(("key", "rightshift")),
        55u16 => Some(("key", "kpasterisk")),
        56u16 => Some(("key", "leftalt")),
        57u16 => Some(("key", "space")),
        58u16 => Some(("key", "capslock")),
        59u16 => Some(("key", "f1")),
        60u16 => Some(("key", "f2")),
        61u16 => Some(("key", "f3")),
        62u16 => Some(("key", "f4")),
        63u16 => Some(("key", "f5")),
        _ => None,
    }
}

pub open spec fn spec_codes_1_64(code: u16) -> Option<(Seq<char>, Seq<char>)> {
    match code {
        64u16 => Some(("key"@, "f6"@)),
        65u16 => Some(("key"@, "f7"@)),
        66u16 => Some(("key"@, "f8"@)),
        67u16 => Some(("key"@, "f9"@)),
        68u16 => Some(("key"@, "f10"@)),
        69u16 => Some(("key"@, "numlock"@)),
        70u16 => Some(("key"@, "scrolllock"@)),
        71u16 => Some(("key"@, "kp7"@)),
        72u16 => Some(("key"@, "kp8"@)),
        73u16 => Some(("key"@, "kp9"@)),
        74u16 => Some(("key"@, "kpminus"@)),
        75u16 => Some(("key"@, "kp4"@)),
        76u16 => Some(("key"@, "kp5"@)),
        77u16 => Some(("key"@, "kp6"@)),
        78u16 => Some(("key"@, "kpplus"@)),
        79u16 => Some(("key"@, "kp1"@)),
        80u16 => Some(("key"@, "kp2"@)),
        81u16 => Some(("key"@, "kp3"@)),
        82u16 => Some(("key"@, "kp0"@)),
        83u16 => Some(("key"@, "kpdot"@)),
        85u16 => Some(("key"@, "zenkakuhankaku"@)),
        86u16 => Some(("key"@, "102nd"@)),
        87u16 => Some(("key"@, "f11"@)),
        88u16 => Some(("key"@, "f12"@)),
        89u16 => Some(("key"@, "ro"@)),
        90u16 => Some(("key"@, "katakana"@)),
        91u16 => Some(("key"@, "hiragana"@)),
        92u16 => Some(("key"@, "henkan"@)),
        93u16 => Some(("key"@, "katakanahiragana"@)),
        94u16 => Some(("key"@, "muhenkan"@)),
        95u16 => Some(("key"@, "kpjpcomma"@)),
        96u16 => Some(("key"@, "kpenter"@)),
        97u16 => Some(("key"@, "rightctrl"@)),
        98u16 => Some(("key"@, "kpslash"@)),
        99u16 => Some(("key"@, "sysrq"@)),
        100u16 => Some(("key"@, "rightalt"@)),
        101u16 => Some(("key"@, "linefeed"@)),
        102u16 => Some(("key"@, "home"@)),
        103u16 => Some(("key"@, "up"@)),
        104u16 => Some(("key"@, "pageup"@)),
        105u16 => Some(("key"@, "left"@)),
        106u16 => Some(("key"@, "right"@)),
        107u16 => Some(("key"@, "end"@)),
        108u16 => Some(("key"@, "down"@)),
        109u16 => Some(("key"@, "pagedown"@)),
        110u16 => Some(("key"@, "insert"@)),
        111u16 => Some(("key"@, "delete"@)),
        112u16 => Some(("key"@, "macro"@)),
        113u16 => Some(("key"@, "mute"@)),
        114u16 => Some(("key"@, "volumedown"@)),
        115u16 => Some(("key"@, "volumeup"@)),
        116u16 => Some(("key"@, "power"@)),
        117u16 => Some(("key"@, "kpequal"@)),
        118u16 => Some(("key"@, "kpplusminus"@)),
        119u16 => Some(("key"@, "pause"@)),
        120u16 => Some(("key"@, "scale"@)),
        121u16 => Some(("key"@, "kpcomma"@)),
        122u16 => Some(("key"@, "hangeul"@)),
        123u16 => Some(("key"@, "hanja"@)),
        124u16 => Some(("key"@, "yen"@)),
        125u16 => Some(("key"@, "leftmeta"@)),
        126u16 => Some(("key"@, "rightmeta"@)),
        127u16 => Some(("key"@, "compose"@)),
        _ => None,
    }
}

fn codes_1_64(code: u16) -> (res: Option<(&'static str, &'static str)>)
    ensures
        match res {
            Some((prefix, rest)) => spec_codes_1_64(code) == Some((prefix@, rest@)),
            None => spec_codes_1_64(code) is None,
        },
{
    match code {
        64u16 => Some(("key", "f6")),
        65u16 => Some(("key", "f7")),
        66u16 => Some(("key", "f8")),
        67u16 => Some(("key", "f9")),
        68u16 => Some(("key", "f10")),
        69u16 => Some(("key", "numlock")),
        70u16 => Some(("key", "scrolllock")),
        71u16 => Some(("key", "kp7")),
        72u16 => Some(("key", "kp8")),
        73u16 => Some(("key", "kp9")),
        74u16 => Some(("key", "kpminus")),
        75u16 => Some(("key", "kp4")),
        76u16 => Some(("key", "kp5")),
        77u16 => Some(("key", "kp6")),
        78u16 => Some(("key", "kpplus")),
        79u16 => Some(("key", "kp1")),
        80u16 => Some(("key", "kp2")),
        81u16 => Some(("key", "kp3")),
        82u16 => Some(("key", "kp0")),
        83u16 => Some(("key", "kpdot")),
        85u16 => Some(("key", "zenkakuhankaku")),
        86u16 => Some(("key", "102nd")),
        87u16 => Some(("key", "f11")),
        88u16 => Some(("key", "f12")),
        89u16 => Some(("key", "ro")),
        90u16 => Some(("key", "katakana")),
        91u16 => Some(("key", "hiragana")),
        92u16 => Some(("key", "henkan")),
        93u16 => Some(("key", "katakanahiragana")),
        94u16 => Some(("key", "muhenkan")),
        95u16 => Some(("key", "kpjpcomma")),
        96u16 => Some(("key", "kpenter")),
        97u16 => Some(("key", "rightctrl")),
        98u16 => Some(("key", "kpslash")),
        99u16 => Some(("key", "sysrq")),
        100u16 => Some(("key", "rightalt")),
        101u16 => Some(("key", "linefeed")),
        102u16 => Some(("key", "home")),
        103u16 => Some(("key", "up")),
        104u16 => Some(("key", "pageup")),
        105u16 => Some(("key", "left")),
        106u16 => Some(("key", "right")),
        107u16 => Some(("key", "end")),
        108u16 => Some(("key", "down")),
        109u16 => Some(("key", "pagedown")),
        110u16 => Some(("key", "insert")),
        111u16 => Some(("key", "delete")),
        112u16 => Some(("key", "macro")),
        113u16 => Some(("key", "mute")),
        114u16 => Some(("key", "volumedown")),
        115u16 => Some(("key", "volumeup")),
        116u16 => Some(("key", "power")),
        117u16 => Some(("key", "kpequal")),
        118u16 => Some(("key", "kpplusminus")),
        119u16 => Some(("key", "pause")),
        120u16 => Some(("key", "scale")),
        121u16 => Some(("key", "kpcomma")),
        122u16 => Some(("key", "hangeul")),
        123u16 => Some(("key", "hanja")),
        124u16 => Some(("key", "yen")),
        125u16 => Some(("key", "leftmeta")),
        126u16 => Some(("key", "rightmeta")),
        127u16 => Some(("key", "compose")),
        _ => None,
    }
}

pub open spec fn spec_codes_1_128(code: u16) -> Option<(Seq<char>, Seq<char>)> {
    match code {
        128u16 => Some(("key"@, "stop"@)),
        129u16 => Some(("key"@, "again"@)),
        130u16 => Some(("key"@, "props"@)),
        131u16 => Some(("key"@, "undo"@)),
        132u16 => Some(("key"@, "front"@)),
        133u16 => Some(("key"@, "copy"@)),
        134u16 => Some(("key"@, "open"@)),
        135u16 => Some(("key"@, "paste"@)),
        136u16 => Some(("key"@, "find"@)),
        137u16 => Some(("key"@, "cut"@)),
        138u16 => Some(("key"@, "help"@)),
        139u16 => Some(("key"@, "menu"@)),
        140u16 => Some(("key"@, "calc"@)),
        141u16 => Some(("key"@, "setup"@)),
        142u16 => Some(("key"@, "sleep"@)),
        143u16 => Some(("key"@, "wakeup"@)),
        144u16 => Some(("key"@, "file"@)),
        145u16 => Some(("key"@, "sendfile"@)),
        146u16 => Some(("key"@, "deletefile"@)),
        147u16 => Some(("key"@, "xfer"@)),
        148u16 => Some(("key"@, "prog1"@)),
        149u16 => Some(("key"@, "prog2"@)),
        150u16 => Some(("key"@, "www"@)),
        151u16 => Some(("key"@, "msdos"@)),
        152u16 => Some(("key"@, "coffee"@)),
        153u16 => Some(("key"@, "rotate_display"@)),
        154u16 => Some(("key"@, "cyclewindows"@)),
        155u16 => Some(("key"@, "mail"@)),
        156u16 => Some(("key"@, "bookmarks"@)),
        157u16 => Some(("key"@, "computer"@)),
        158u16 => Some(("key"@, "back"@)),
        159u16 => Some(("key"@, "forward"@)),
        160u16 => Some(("key"@, "closecd"@)),
        161u16 => Some(("key"@, "ejectcd"@)),
        162u16 => Some(("key"@, "ejectclosecd"@)),
        163u16 => Some(("key"@, "nextsong"@)),
        164u16 => Some(("key"@, "playpause"@)),
        165u16 => Some(("key"@, "previoussong"@)),
        166u16 => Some(("key"@, "stopcd"@)),
        167u16 => Some(("key"@, "record"@)),
        168u16 => Some(("key"@, "rewind"@)),
        169u16 => Some(("key"@, "phone"@)),
        170u16 => Some(("key"@, "iso"@)),
        171u16 => Some(("key"@, "config"@)),
        172u16 => Some(("key"@, "homepage"@)),
        173u16 => Some(("key"@, "refresh"@)),
        174u16 => Some(("key"@, "exit"@)),
        175u16 => Some(("key"@, "move"@)),
        176u16 => Some(("key"@, "edit"@)),
        177u16 => Some(("key"@, "scrollup"@)),
        178u16 => Some(("key"@, "scrolldown"@)),
        179u16 => Some(("key"@, "kpleftparen"@)),
        180u16 => Some(("key"@, "kprightparen"@)),
        181u16 => Some(("key"@, "new"@)),
        182u16 => Some(("key"@, "redo"@)),
        183u16 => Some(("key"@, "f13"@)),
        184u16 => Some(("key"@, "f14"@)),
        185u16 => Some(("key"@, "f15"@)),
        186u16 => Some(("key"@, "f16"@)),
        187u16 => Some(("key"@, "f17"@)),
        188u16 => Some(("key"@, "f18"@)),
        189u16 => Some(("key"@, "f19"@)),
        190u16 => Some(("key"@, "f20"@)),
        191u16 => Some(("key"@, "f21"@)),
        _ => None,
    }
}

fn codes_1_128(code: u16) -> (res: Option<(&'static str, &'static str)>)
    ensures
        match res {
            Some((prefix, rest)) => spec_codes_1_128(code) == Some((prefix@, rest@)),
            None => spec_codes_1_128(code) is None,
        },
{
    match code {
        128u16 => Some(("key", "stop")),
        129u16 => Some(("key", "again")),
        130u16 => Some(("key", "props")),
        131u16 => Some(("key", "undo")),
        132u16 => Some(("key", "front")),
        133u16 => Some(("key", "copy")),
        134u16 => Some(("key", "open")),
        135u16 => Some(("key", "paste")),
        136u16 => Some(("key", "find")),
        137u16 => Some(("key", "cut")),
        138u16 => Some(("key", "help")),
        139u16 => Some(("key", "menu")),
        140u16 => Some(("key", "calc")),
        141u16 => Some(("key", "setup")),
        142u16 => Some(("key", "sleep")),
        143u16 => Some(("key", "wakeup")),
        144u16 => Some(("key", "file")),
        145u16 => Some(("key", "sendfile")),
        146u16 => Some(("key", "deletefile")),
        147u16 => Some(("key", "xfer")),
        148u16 => Some(("key", "prog1")),
        149u16 => Some(("key", "prog2")),
        150u16 => Some(("key", "www")),
        151u16 => Some(("key", "msdos")),
        152u16 => Some(("key", "coffee")),
        153u16 => Some(("key", "rotate_display")),
        154u16 => Some(("key", "cyclewindows")),
        155u16 => Some(("key", "mail")),
        156u16 => Some(("key", "bookmarks")),
        157u16 => Some(("key", "computer")),
        158u16 => Some(("key", "back")),
        159u16 => Some(("key", "forward")),
        160u16 => Some(("key", "closecd")),
        161u16 => Some(("key", "ejectcd")),
        162u16 => Some(("key", "ejectclosecd")),
        163u16 => Some(("key", "nextsong")),
        164u16 => Some(("key", "playpause")),
        165u16 => Some(("key", "previoussong")),
        166u16 => Some(("key", "stopcd")),
        167u16 => Some(("key", "record")),
        168u16 => Some(("key", "rewind")),
        169u16 => Some(("key", "phone")),
        170u16 => Some(("key", "iso")),
        171u16 => Some(("key", "config")),
        172u16 => Some(("key", "homepage")),
        173u16 => Some(("key", "refresh")),
        174u16 => Some(("key", "exit")),
        175u16 => Some(("key", "move")),
        176u16 => Some(("key", "edit")),
        177u16 => Some(("key", "scrollup")),
        178u16 => Some(("key", "scrolldown")),
        179u16 => Some(("key", "kpleftparen")),
        180u16 => Some(("key", "kprightparen")),
        181u16 => Some(("key", "new")),
        182u16 => Some(("key", "redo")),
        183u16 => Some(("key", "f13")),
        184u16 => Some(("key", "f14")),
        185u16 => Some(("key", "f15")),
        186u16 => Some(("key", "f16")),
        187u16 => Some(("key", "f17")),
        188u16 => Some(("key", "f18")),
        189u16 => Some(("key", "f19")),
        190u16 => Some(("key", "f20")),
        191u16 => Some(("key", "f21")),
        _ => None,
    }
}

pub open spec fn spec_codes_1_192(code: u16) -> Option<(Seq<char>, Seq<char>)> {
    match code {
        192u16 => Some(("key"@, "f22"@)),
        193u16 => Some(("key"@, "f23"@)),
        194u16 => Some(("key"@, "f24"@)),
        200u16 => Some(("key"@, "playcd"@)),
        201u16 => Some(("key"@, "pausecd"@)),
        202u16 => Some(("key"@, "prog3"@)),
        203u16 => Some(("key"@, "prog4"@)),
        204u16 => Some(("key"@, "all_applications"@)),
        205u16 => Some(("key"@, "suspend"@)),
        206u16 => Some(("key"@, "close"@)),
        207u16 => Some(("key"@, "play"@)),
        208u16 => Some(("key"@, "fastforward"@)),
        209u16 => Some(("key"@, "bassboost"@)),
        210u16 => Some(("key"@, "print"@)),
        211u16 => Some(("key"@, "hp"@)),
        212u16 => Some(("key"@, "camera"@)),
        213u16 => Some(("key"@, "sound"@)),
        214u16 => Some(("key"@, "question"@)),
        215u16 => Some(("key"@, "email"@)),
        216u16 => Some(("key"@, "chat"@)),
        217u16 => Some(("key"@, "search"@)),
        218u16 => Some(("key"@, "connect"@)),
        219u16 => Some(("key"@, "finance"@)),
        220u16 => Some(("key"@, "sport"@)),
        221u16 => Some(("key"@, "shop"@)),
        222u16 => Some(("key"@, "alterase"@)),
        223u16 => Some(("key"@, "cancel"@)),
        224u16 => Some(("key"@, "brightnessdown"@)),
        225u16 => Some(("key"@, "brightnessup"@)),
        226u16 => Some(("key"@, "media"@)),
        227u16 => Some(("key"@, "switchvideomode"@)),
        228u16 => Some(("key"@, "kbdillumtoggle"@)),
        229u16 => Some(("key"@, "kbdillumdown"@)),
        230u16 => Some(("key"@, "kbdillumup"@)),
        231u16 => Some(("key"@, "send"@)),
        232u16 => Some(("key"@, "reply"@)),
        233u16 => Some(("key"@, "forwardmail"@)),
        234u16 => Some(("key"@, "save"@)),
        235u16 => Some(("key"@, "documents"@)),
        236u16 => Some(("key"@, "battery"@)),
        237u16 => Some(("key"@, "bluetooth"@)),
        238u16 => Some(("key"@, "wlan"@)),
        239u16 => Some(("key"@, "uwb"@)),
        240u16 => Some(("key"@, "unknown"@)),
        241u16 => Some(("key"@, "video_next"@)),
        242u16 => Some(("key"@, "video_prev"@)),
        243u16 => Some(("key"@, "brightness_cycle"@)),
        244u16 => Some(("key"@, "brightness_auto"@)),
        245u16 => Some(("key"@, "display_off"@)),
        246u16 => Some(("key"@, "wwan"@)),
        247u16 => Some(("key"@, "rfkill"@)),
        248u16 => Some(("key"@, "micmute"@)),
        _ => None,
    }
}

fn codes_1_192(code: u16) -> (res: Option<(&'static str, &'static str)>)
    ensures
        match res {
            Some((prefix, rest)) => spec_codes_1_192(code) == Some((prefix@, rest@)),
            None => spec_codes_1_192(code) is None,
        },
{
    match code {
        192u16 => Some(("key", "f22")),
        193u16 => Some(("key", "f23")),
        194u16 => Some(("key", "f24")),
        200u16 => Some(("key", "playcd")),
        201u16 => Some(("key", "pausecd")),
        202u16 => Some(("key", "prog3")),
        203u16 => Some(("key", "prog4")),
        204u16 => Some(("key", "all_applications")),
        205u16 => Some(("key", "suspend")),
        206u16 => Some(("key", "close")),
        207u16 => Some(("key", "play")),
        208u16 => Some(("key", "fastforward")),
        209u16 => Some(("key", "bassboost")),
        210u16 => Some(("key", "print")),
        211u16 => Some(("key", "hp")),
        212u16 => Some(("key", "camera")),
        213u16 => Some(("key", "sound")),
        214u16 => Some(("key", "question")),
        215u16 => Some(("key", "email")),
        216u16 => Some(("key", "chat")),
        217u16 => Some(("key", "search")),
        218u16 => Some(("key", "connect")),
        219u16 => Some(("key", "finance")),
        220u16 => Some(("key", "sport")),
        221u16 => Some(("key", "shop")),
        222u16 => Some(("key", "alterase")),
        223u16 => Some(("key", "cancel")),
        224u16 => Some(("key", "brightnessdown")),
        225u16 => Some(("key", "brightnessup")),
        226u16 => Some(("key", "media")),
        227u16 => Some(("key", "switchvideomode")),
        228u16 => Some(("key", "kbdillumtoggle")),
        229u16 => Some(("key", "kbdillumdown")),
        230u16 => Some(("key", "kbdillumup")),
        231u16 => Some(("key", "send")),
        232u16 => Some(("key", "reply")),
        233u16 => Some(("key", "forwardmail")),
        234u16 => Some(("key", "save")),
        235u16 => Some(("key", "documents")),
        236u16 => Some(("key", "battery")),
        237u16 => Some(("key", "bluetooth")),
        238u16 => Some(("key", "wlan")),
        239u16 => Some(("key", "uwb")),
        240u16 => Some(("key", "unknown")),
        241u16 => Some(("key", "video_next")),
        242u16 => Some(("key", "video_prev")),
        243u16 => Some(("key", "brightness_cycle")),
        244u16 => Some(("key", "brightness_auto")),
        245u16 => Some(("key", "display_off")),
        246u16 => Some(("key", "wwan")),
        247u16 => Some(("key", "rfkill")),
        248u16 => Some(("key", "micmute")),
        _ => None,
    }
}

pub open spec fn spec_codes_1_256(code: u16) -> Option<(Seq<char>, Seq<char>)> {
    match code {
        256u16 => Some(("btn"@, "0"@)),
        257u16 => Some(("btn"@, "1"@)),
        258u16 => Some(("btn"@, "2"@)),
        259u16 => Some(("btn"@, "3"@)),
        260u16 => Some(("btn"@, "4"@)),
        261u16 => Some(("btn"@, "5"@)),
        262u16 => Some(("btn"@, "6"@)),
        263u16 => Some(("btn"@, "7"@)),
        264u16 => Some(("btn"@, "8"@)),
        265u16 => Some(("btn"@, "9"@)),
        272u16 => Some(("btn"@, "left"@)),
        273u16 => Some(("btn"@, "right"@)),
        274u16 => Some(("btn"@, "middle"@)),
        275u16 => Some(("btn"@, "side"@)),
        276u16 => Some(("btn"@, "extra"@)),
        277u16 => Some(("btn"@, "forward"@)),
        278u16 => Some(("btn"@, "back"@)),
        279u16 => Some(("btn"@, "task"@)),
        288u16 => Some(("btn"@, "trigger"@)),
        289u16 => Some(("btn"@, "thumb"@)),
        290u16 => Some(("btn"@, "thumb2"@)),
        291u16 => Some(("btn"@, "top"@)),
        292u16 => Some(("btn"@, "top2"@)),
        293u16 => Some(("btn"@, "pinkie"@)),
        294u16 => Some(("btn"@, "base"@)),
        295u16 => Some(("btn"@, "base2"@)),
        296u16 => Some(("btn"@, "base3"@)),
        297u16 => Some(("btn"@, "base4"@)),
        298u16 => Some(("btn"@, "base5"@)),
        299u16 => Some(("btn"@, "base6"@)),
        303u16 => Some(("btn"@, "dead"@)),
        304u16 => Some(("btn"@, "south"@)),
        305u16 => Some(("btn"@, "east"@)),
        306u16 => Some(("btn"@, "c"@)),
        307u16 => Some(("btn"@, "north"@)),
        308u16 => Some(("btn"@, "west"@)),
        309u16 => Some(("btn"@, "z"@)),
        310u16 => Some(("btn"@, "tl"@)),
        311u16 => Some(("btn"@, "tr"@)),
        312u16 => Some(("btn"@, "tl2"@)),
        313u16 => Some(("btn"@, "tr2"@)),
        314u16 => Some(("btn"@, "select"@)),
        315u16 => Some(("btn"@, "start"@)),
        316u16 => Some(("btn"@, "mode"@)),
        317u16 => Some(("btn"@, "thumbl"@)),
        318u16 => Some(("btn"@, "thumbr"@)),
        _ => None,
    }
}

fn codes_1_256(code: u16) -> (res: Option<(&'static str, &'static str)>)
    ensures
        match res {
            Some((prefix, rest)) => spec_codes_1_256(code) == Some((prefix@, rest@)),
            None => spec_codes_1_256(code) is None,
        },
{
    match code {
        256u16 => Some(("btn", "0")),
        257u16 => Some(("btn", "1")),
        258u16 => Some(("btn", "2")),
        259u16 => Some(("btn", "3")),
        260u16 => Some(("btn", "4")),
        261u16 => Some(("btn", "5")),
        262u16 => Some(("btn", "6")),
        263u16 => Some(("btn", "7")),
        264u16 => Some(("btn", "8")),
        265u16 => Some(("btn", "9")),
        272u16 => Some(("btn", "left")),
        273u16 => Some(("btn", "right")),
        274u16 => Some(("btn", "middle")),
        275u16 => Some(("btn", "side")),
        276u16 => Some(("btn", "extra")),
        277u16 => Some(("btn", "forward")),
        278u16 => Some(("btn", "back")),
        279u16 => Some(("btn", "task")),
        288u16 => Some(("btn", "trigger")),
        289u16 => Some(("btn", "thumb")),
        290u16 => Some(("btn", "thumb2")),
        291u16 => Some(("btn", "top")),
        292u16 => Some(("btn", "top2")),
        293u16 => Some(("btn", "pinkie")),
        294u16 => Some(("btn", "base")),
        295u16 => Some(("btn", "base2")),
        296u16 => Some(("btn", "base3")),
        297u16 => Some(("btn", "base4")),
        298u16 => Some(("btn", "base5")),
        299u16 => Some(("btn", "base6")),
        303u16 => Some(("btn", "dead")),
        304u16 => Some(("btn", "south")),
        305u16 => Some(("btn", "east")),
        306u16 => Some(("btn", "c")),
        307u16 => Some(("btn", "north")),
        308u16 => Some(("btn", "west")),
        309u16 => Some(("btn", "z")),
        310u16 => Some(("btn", "tl")),
        311u16 => Some(("btn", "tr")),
        312u16 => Some(("btn", "tl2")),
        313u16 => Some(("btn", "tr2")),
        314u16 => Some(("btn", "select")),
        315u16 => Some(("btn", "start")),
        316u16 => Some(("btn", "mode")),
        317u16 => Some(("btn", "thumbl")),
        318u16 => Some(("btn", "thumbr")),
        _ => None,
    }
}

pub open spec fn spec_codes_1_320(code: u16) -> Option<(Seq<char>, Seq<char>)> {
    match code {
        320u16 => Some(("btn"@, "tool_pen"@)),
        321u16 => Some(("btn"@, "tool_rubber"@)),
        322u16 => Some(("btn"@, "tool_brush"@)),
        323u16 => Some(("btn"@, "tool_pencil"@)),
        324u16 => Some(("btn"@, "tool_airbrush"@)),
        325u16 => Some(("btn"@, "tool_finger"@)),
        326u16 => Some(("btn"@, "tool_mouse"@)),
        327u16 => Some(("btn"@, "tool_lens"@)),
        328u16 => Some(("btn"@, "tool_quinttap"@)),
        329u16 => Some(("btn"@, "stylus3"@)),
        330u16 => Some(("btn"@, "touch"@)),
        331u16 => Some(("btn"@, "stylus"@)),
        332u16 => Some(("btn"@, "stylus2"@)),
        333u16 => Some(("btn"@, "tool_doubletap"@)),
        334u16 => Some(("btn"@, "tool_tripletap"@)),
        335u16 => Some(("btn"@, "tool_quadtap"@)),
        336u16 => Some(("btn"@, "gear_down"@)),
        337u16 => Some(("btn"@, "gear_up"@)),
        352u16 => Some(("key"@, "ok"@)),
        353u16 => Some(("key"@, "select"@)),
        354u16 => Some(("key"@, "goto"@)),
        355u16 => Some(("key"@, "clear"@)),
        356u16 => Some(("key"@, "power2"@)),
        357u16 => Some(("key"@, "option"@)),
        358u16 => Some(("key"@, "info"@)),
        359u16 => Some(("key"@, "time"@)),
        360u16 => Some(("key"@, "vendor"@)),
        361u16 => Some(("key"@, "archive"@)),
        362u16 => Some(("key"@, "program"@)),
        363u16 => Some(("key"@, "channel"@)),
        364u16 => Some(("key"@, "favorites"@)),
        365u16 => Some(("key"@, "epg"@)),
        366u16 => Some(("key"@, "pvr"@)),
        367u16 => Some(("key"@, "mhp"@)),
        368u16 => Some(("key"@, "language"@)),
        369u16 => Some(("key"@, "title"@)),
        370u16 => Some(("key"@, "subtitle"@)),
        371u16 => Some(("key"@, "angle"@)),
        372u16 => Some(("key"@, "full_screen"@)),
        373u16 => Some(("key"@, "mode"@)),
        374u16 => Some(("key"@, "keyboard"@)),
        375u16 => Some(("key"@, "aspect_ratio"@)),
        376u16 => Some(("key"@, "pc"@)),
        377u16 => Some(("key"@, "tv"@)),
        378u16 => Some(("key"@, "tv2"@)),
        379u16 => Some(("key"@, "vcr"@)),
        380u16 => Some(("key"@, "vcr2"@)),
        381u16 => Some(("key"@, "sat"@)),
        382u16 => Some(("key"@, "sat2"@)),
        383u16 => Some(("key"@, "cd"@)),
        _ => None,
    }
}

fn codes_1_320(code: u16) -> (res: Option<(&'static str, &'static str)>)
    ensures
        match res {
            Some((prefix, rest)) => spec_codes_1_320(code) == Some((prefix@, rest@)),
            None => spec_codes_1_320(code) is None,
        },
{
    match code {
        320u16 => Some(("btn", "tool_pen")),
        321u16 => Some(("btn", "tool_rubber")),
        322u16 => Some(("btn", "tool_brush")),
        323u16 => Some(("btn", "tool_pencil")),
        324u16 => Some(("btn", "tool_airbrush")),
        325u16 => Some(("btn", "tool_finger")),
        326u16 => Some(("btn", "tool_mouse")),
        327u16 => Some(("btn", "tool_lens")),
        328u16 => Some(("btn", "tool_quinttap")),
        329u16 => Some(("btn", "stylus3")),
        330u16 => Some(("btn", "touch")),
        331u16 => Some(("btn", "stylus")),
        332u16 => Some(("btn", "stylus2")),
        333u16 => Some(("btn", "tool_doubletap")),
        334u16 => Some(("btn", "tool_tripletap")),
        335u16 => Some(("btn", "tool_quadtap")),
        336u16 => Some(("btn", "gear_down")),
        337u16 => Some(("btn", "gear_up")),
        352u16 => Some(("key", "ok")),
        353u16 => Some(("key", "select")),
        354u16 => Some(("key", "goto")),
        355u16 => Some(("key", "clear")),
        356u16 => Some(("key", "power2")),
        357u16 => Some(("key", "option")),
        358u16 => Some(("key", "info")),
        359u16 => Some(("key", "time")),
        360u16 => Some(("key", "vendor")),
        361u16 => Some(("key", "archive")),
        362u16 => Some(("key", "program")),
        363u16 => Some(("key", "channel")),
        364u16 => Some(("key", "favorites")),
        365u16 => Some(("key", "epg")),
        366u16 => Some(("key", "pvr")),
        367u16 => Some(("key", "mhp")),
        368u16 => Some(("key", "language")),
        369u16 => Some(("key", "title")),
        370u16 => Some(("key", "subtitle")),
        371u16 => Some(("key", "angle")),
        372u16 => Some(("key", "full_screen")),
        373u16 => Some(("key", "mode")),
        374u16 => Some(("key", "keyboard")),
        375u16 => Some(("key", "aspect_ratio")),
        376u16 => Some(("key", "pc")),
        377u16 => Some(("key", "tv")),
        378u16 => Some(("key", "tv2")),
        379u16 => Some(("key", "vcr")),
        380u16 => Some(("key", "vcr2")),
        381u16 => Some(("key", "sat")),
        382u16 => Some(("key", "sat2")),
        383u16 => Some(("key", "cd")),
        _ => None,
    }
}

pub open spec fn spec_codes_1_384(code: u16) -> Option<(Seq<char>, Seq<char>)> {
    match code {
        384u16 => Some(("key"@, "tape"@)),
        385u16 => Some(("key"@, "radio"@)),
        386u16 => Some(("key"@, "tuner"@)),
        387u16 => Some(("key"@, "player"@)),
        388u16 => Some(("key"@, "text"@)),
        389u16 => Some(("key"@, "dvd"@)),
        390u16 => Some(("key"@, "aux"@)),
        391u16 => Some(("key"@, "mp3"@)),
        392u16 => Some(("key"@, "audio"@)),
        393u16 => Some(("key"@, "video"@)),
        394u16 => Some(("key"@, "directory"@)),
        395u16 => Some(("key"@, "list"@)),
        396u16 => Some(("key"@, "memo"@)),
        397u16 => Some(("key"@, "calendar"@)),
        398u16 => Some(("key"@, "red"@)),
        399u16 => Some(("key"@, "green"@)),
        400u16 => Some(("key"@, "yellow"@)),
        401u16 => Some(("key"@, "blue"@)),
        402u16 => Some(("key"@, "channelup"@)),
        403u16 => Some(("key"@, "channeldown"@)),
        404u16 => Some(("key"@, "first"@)),
        405u16 => Some(("key"@, "last"@)),
        406u16 => Some(("key"@, "ab"@)),
        407u16 => Some(("key"@, "next"@)),
        408u16 => Some(("key"@, "restart"@)),
        409u16 => Some(("key"@, "slow"@)),
        410u16 => Some(("key"@, "shuffle"@)),
        411u16 => Some(("key"@, "break"@)),
        412u16 => Some(("key"@, "previous"@)),
        413u16 => Some(("key"@, "digits"@)),
        414u16 => Some(("key"@, "teen"@)),
        415u16 => Some(("key"@, "twen"@)),
        416u16 => Some(("key"@, "videophone"@)),
        417u16 => Some(("key"@, "games"@)),
        418u16 => Some(("key"@, "zoomin"@)),
        419u16 => Some(("key"@, "zoomout"@)),
        420u16 => Some(("key"@, "zoomreset"@)),
        421u16 => Some(("key"@, "wordprocessor"@)),
        422u16 => Some(("key"@, "editor"@)),
        423u16 => Some(("key"@, "spreadsheet"@)),
        424u16 => Some(("key"@, "graphicseditor"@)),
        425u16 => Some(("key"@, "presentation"@)),
        426u16 => Some(("key"@, "database"@)),
        427u16 => Some(("key"@, "news"@)),
        428u16 => Some(("key"@, "voicemail"@)),
        429u16 => Some(("key"@, "addressbook"@)),
        430u16 => Some(("key"@, "messenger"@)),
        431u16 => Some(("key"@, "displaytoggle"@)),
        432u16 => Some(("key"@, "spellcheck"@)),
        433u16 => Some(("key"@, "logoff"@)),
        434u16 => Some(("key"@, "dollar"@)),
        435u16 => Some(("key"@, "euro"@)),
        436u16 => Some(("key"@, "frameback"@)),
        437u16 => Some(("key"@, "frameforward"@)),
        438u16 => Some(("key"@, "context_menu"@)),
        439u16 => Some(("key"@, "media_repeat"@)),
        440u16 => Some(("key"@, "10channelsup"@)),
        441u16 => Some(("key"@, "10channelsdown"@)),
        442u16 => Some(("key"@, "images"@)),
        444u16 => Some(("key"@, "notification_center"@)),
        445u16 => Some(("key"@, "pickup_phone"@)),
        446u16 => Some(("key"@, "hangup_phone"@)),
        447u16 => Some(("key"@, "link_phone"@)),
        _ => None,
    }
}

fn codes_1_384(code: u16) -> (res: Option<(&'static str, &'static str)>)
    ensures
        match res {
            Some((prefix, rest)) => spec_codes_1_384(code) == Some((prefix@, rest@)),
            None => spec_codes_1_384(code) is None,
        },
{
    match code {
        384u16 => Some(("key", "tape")),
        385u16 => Some(("key", "radio")),
        386u16 => Some(("key", "tuner")),
        387u16 => Some(("key", "player")),
        388u16 => Some(("key", "text")),
        389u16 => Some(("key", "dvd")),
        390u16 => Some(("key", "aux")),
        391u16 => Some(("key", "mp3")),
        392u16 => Some(("key", "audio")),
        393u16 => Some(("key", "video")),
        394u16 => Some(("key", "directory")),
        395u16 => Some(("key", "list")),
        396u16 => Some(("key", "memo")),
        397u16 => Some(("key", "calendar")),
        398u16 => Some(("key", "red")),
        399u16 => Some(("key", "green")),
        400u16 => Some(("key", "yellow")),
        401u16 => Some(("key", "blue")),
        402u16 => Some(("key", "channelup")),
        403u16 => Some(("key", "channeldown")),
        404u16 => Some(("key", "first")),
        405u16 => Some(("key", "last")),
        406u16 => Some(("key", "ab")),
        407u16 => Some(("key", "next")),
        408u16 => Some(("key", "restart")),
        409u16 => Some(("key", "slow")),
        410u16 => Some(("key", "shuffle")),
        411u16 => Some(("key", "break")),
        412u16 => Some(("key", "previous")),
        413u16 => Some(("key", "digits")),
        414u16 => Some(("key", "teen")),
        415u16 => Some(("key", "twen")),
        416u16 => Some(("key", "videophone")),
        417u16 => Some(("key", "games")),
        418u16 => Some(("key", "zoomin")),
        419u16 => Some(("key", "zoomout")),
        420u16 => Some(("key", "zoomreset")),
        421u16 => Some(("key", "wordprocessor")),
        422u16 => Some(("key", "editor")),
        423u16 => Some(("key", "spreadsheet")),
        424u16 => Some(("key", "graphicseditor")),
        425u16 => Some(("key", "presentation")),
        426u16 => Some(("key", "database")),
        427u16 => Some(("key", "news")),
        428u16 => Some(("key", "voicemail")),
        429u16 => Some(("key", "addressbook")),
        430u16 => Some(("key", "messenger")),
        431u16 => Some(("key", "displaytoggle")),
        432u16 => Some(("key", "spellcheck")),
        433u16 => Some(("key", "logoff")),
        434u16 => Some(("key", "dollar")),
        435u16 => Some(("key", "euro")),
        436u16 => Some(("key", "frameback")),
        437u16 => Some(("key", "frameforward")),
        438u16 => Some(("key", "context_menu")),
        439u16 => Some(("key", "media_repeat")),
        440u16 => Some(("key", "10channelsup")),
        441u16 => Some(("key", "10channelsdown")),
        442u16 => Some(("key", "images")),
        444u16 => Some(("key", "notification_center")),
        445u16 => Some(("key", "pickup_phone")),
        446u16 => Some(("key", "hangup_phone")),
        447u16 => Some(("key", "link_phone")),
        _ => None,
    }
}

pub open spec fn spec_codes_1_448(code: u16) -> Option<(Seq<char>, Seq<char>)> {
    match code {
        448u16 => Some(("key"@, "del_eol"@)),
        449u16 => Some(("key"@, "del_eos"@)),
        450u16 => Some(("key"@, "ins_line"@)),
        451u16 => Some(("key"@, "del_line"@)),
        464u16 => Some(("key"@, "fn"@)),
        465u16 => Some(("key"@, "fn_esc"@)),
        466u16 => Some(("key"@, "fn_f1"@)),
        467u16 => Some(("key"@, "fn_f2"@)),
        468u16 => Some(("key"@, "fn_f3"@)),
        469u16 => Some(("key"@, "fn_f4"@)),
        470u16 => Some(("key"@, "fn_f5"@)),
        471u16 => Some(("key"@, "fn_f6"@)),
        472u16 => Some(("key"@, "fn_f7"@)),
        473u16 => Some(("key"@, "fn_f8"@)),
        474u16 => Some(("key"@, "fn_f9"@)),
        475u16 => Some(("key"@, "fn_f10"@)),
        476u16 => Some(("key"@, "fn_f11"@)),
        477u16 => Some(("key"@, "fn_f12"@)),
        478u16 => Some(("key"@, "fn_1"@)),
        479u16 => Some(("key"@, "fn_2"@)),
        480u16 => Some(("key"@, "fn_d"@)),
        481u16 => Some(("key"@, "fn_e"@)),
        482u16 => Some(("key"@, "fn_f"@)),
        483u16 => Some(("key"@, "fn_s"@)),
        484u16 => Some(("key"@, "fn_b"@)),
        485u16 => Some(("key"@, "fn_right_shift"@)),
        497u16 => Some(("key"@, "brl_dot1"@)),
        498u16 => Some(("key"@, "brl_dot2"@)),
        499u16 => Some(("key"@, "brl_dot3"@)),
        500u16 => Some(("key"@, "brl_dot4"@)),
        501u16 => Some(("key"@, "brl_dot5"@)),
        502u16 => Some(("key"@, "brl_dot6"@)),
        503u16 => Some(("key"@, "brl_dot7"@)),
        504u16 => Some(("key"@, "brl_dot8"@)),
        505u16 => Some(("key"@, "brl_dot9"@)),
        506u16 => Some(("key"@, "brl_dot10"@)),
        _ => None,
    }
}

fn codes_1_448(code: u16) -> (res: Option<(&'static str, &'static str)>)
    ensures
        match res {
            Some((prefix, rest)) => spec_codes_1_448(code) == Some((prefix@, rest@)),
            None => spec_codes_1_448(code) is None,
        },
{
    match code {
        448u16 => Some(("key", "del_eol")),
        449u16 => Some(("key", "del_eos")),
        450u16 => Some(("key", "ins_line")),
        451u16 => Some(("key", "del_line")),
        464u16 => Some(("key", "fn")),
        465u16 => Some(("key", "fn_esc")),
        466u16 => Some(("key", "fn_f1")),
        467u16 => Some(("key", "fn_f2")),
        468u16 => Some(("key", "fn_f3")),
        469u16 => Some(("key", "fn_f4")),
        470u16 => Some(("key", "fn_f5")),
        471u16 => Some(("key", "fn_f6")),
        472u16 => Some(("key", "fn_f7")),
        473u16 => Some(("key", "fn_f8")),
        474u16 => Some(("key", "fn_f9")),
        475u16 => Some(("key", "fn_f10")),
        476u16 => Some(("key", "fn_f11")),
        477u16 => Some(("key", "fn_f12")),
        478u16 => Some(("key", "fn_1")),
        479u16 => Some(("key", "fn_2")),
        480u16 => Some(("key", "fn_d")),
        481u16 => Some(("key", "fn_e")),
        482u16 => Some(("key", "fn_f")),
        483u16 => Some(("key", "fn_s")),
        484u16 => Some(("key", "fn_b")),
        485u16 => Some(("key", "fn_right_shift")),
        497u16 => Some(("key", "brl_dot1")),
        498u16 => Some(("key", "brl_dot2")),
        499u16 => Some(("key", "brl_dot3")),
        500u16 => Some(("key", "brl_dot4")),
        501u16 => Some(("key", "brl_dot5")),
        502u16 => Some(("key", "brl_dot6")),
        503u16 => Some(("key", "brl_dot7")),
        504u16 => Some(("key", "brl_dot8")),
        505u16 => Some(("key", "brl_dot9")),
        506u16 => Some(("key", "brl_dot10")),
        _ => None,
    }
}

pub open spec fn spec_codes_1_512(code: u16) -> Option<(Seq<char>, Seq<char>)> {
    match code {
        512u16 => Some(("key"@, "numeric_0"@)),
        513u16 => Some(("key"@, "numeric_1"@)),
        514u16 => Some(("key"@, "numeric_2"@)),
        515u16 => Some(("key"@, "numeric_3"@)),
        516u16 => Some(("key"@, "numeric_4"@)),
        517u16 => Some(("key"@, "numeric_5"@)),
        518u16 => Some(("key"@, "numeric_6"@)),
        519u16 => Some(("key"@, "numeric_7"@)),
        520u16 => Some(("key"@, "numeric_8"@)),
        521u16 => Some(("key"@, "numeric_9"@)),
        522u16 => Some(("key"@, "numeric_star"@)),
        523u16 => Some(("key"@, "numeric_pound"@)),
        524u16 => Some(("key"@, "numeric_a"@)),
        525u16 => Some(("key"@, "numeric_b"@)),
        526u16 => Some(("key"@, "numeric_c"@)),
        527u16 => Some(("key"@, "numeric_d"@)),
        528u16 => Some(("key"@, "camera_focus"@)),
        529u16 => Some(("key"@, "wps_button"@)),
        530u16 => Some(("key"@, "touchpad_toggle"@)),
        531u16 => Some(("key"@, "touchpad_on"@)),
        532u16 => Some(("key"@, "touchpad_off"@)),
        533u16 => Some(("key"@, "camera_zoomin"@)),
        534u16 => Some(("key"@, "camera_zoomout"@)),
        535u16 => Some(("key"@, "camera_up"@)),
        536u16 => Some(("key"@, "camera_down"@)),
        537u16 => Some(("key"@, "camera_left"@)),
        538u16 => Some(("key"@, "camera_right"@)),
        539u16 => Some(("key"@, "attendant_on"@)),
        540u16 => Some(("key"@, "attendant_off"@)),
        541u16 => Some(("key"@, "attendant_toggle"@)),
        542u16 => Some(("key"@, "lights_toggle"@)),
        544u16 => Some(("btn"@, "dpad_up"@)),
        545u16 => Some(("btn"@, "dpad_down"@)),
        546u16 => Some(("btn"@, "dpad_left"@)),
        547u16 => Some(("btn"@, "dpad_right"@)),
        560u16 => Some(("key"@, "als_toggle"@)),
        561u16 => Some(("key"@, "rotate_lock_toggle"@)),
        562u16 => Some(("key"@, "refresh_rate_toggle"@)),
        _ => None,
    }
}

fn codes_1_512(code: u16) -> (res: Option<(&'static str, &'static str)>)
    ensures
        match res {
            Some((prefix, rest)) => spec_codes_1_512(code) == Some((prefix@, rest@)),
            None => spec_codes_1_512(code) is None,
        },
{
    match code {
        512u16 => Some(("key", "numeric_0")),
        513u16 => Some(("key", "numeric_1")),
        514u16 => Some(("key", "numeric_2")),
        515u16 => Some(("key", "numeric_3")),
        516u16 => Some(("key", "numeric_4")),
        517u16 => Some(("key", "numeric_5")),
        518u16 => Some(("key", "numeric_6")),
        519u16 => Some(("key", "numeric_7")),
        520u16 => Some(("key", "numeric_8")),
        521u16 => Some(("key", "numeric_9")),
        522u16 => Some(("key", "numeric_star")),
        523u16 => Some(("key", "numeric_pound")),
        524u16 => Some(("key", "numeric_a")),
        525u16 => Some(("key", "numeric_b")),
        526u16 => Some(("key", "numeric_c")),
        527u16 => Some(("key", "numeric_d")),
        528u16 => Some(("key", "camera_focus")),
        529u16 => Some(("key", "wps_button")),
        530u16 => Some(("key", "touchpad_toggle")),
        531u16 => Some(("key", "touchpad_on")),
        532u16 => Some(("key", "touchpad_off")),
        533u16 => Some(("key", "camera_zoomin")),
        534u16 => Some(("key", "camera_zoomout")),
        535u16 => Some(("key", "camera_up")),
        536u16 => Some(("key", "camera_down")),
        537u16 => Some(("key", "camera_left")),
        538u16 => Some(("key", "camera_right")),
        539u16 => Some(("key", "attendant_on")),
        540u16 => Some(("key", "attendant_off")),
        541u16 => Some(("key", "attendant_toggle")),
        542u16 => Some(("key", "lights_toggle")),
        544u16 => Some(("btn", "dpad_up")),
        545u16 => Some(("btn", "dpad_down")),
        546u16 => Some(("btn", "dpad_left")),
        547u16 => Some(("btn", "dpad_right")),
        560u16 => Some(("key", "als_toggle")),
        561u16 => Some(("key", "rotate_lock_toggle")),
        562u16 => Some(("key", "refresh_rate_toggle")),
        _ => None,
    }
}

pub open spec fn spec_codes_1_576(code: u16) -> Option<(Seq<char>, Seq<char>)> {
    match code {
        576u16 => Some(("key"@, "buttonconfig"@)),
        577u16 => Some(("key"@, "taskmanager"@)),
        578u16 => Some(("key"@, "journal"@)),
        579u16 => Some(("key"@, "controlpanel"@)),
        580u16 => Some(("key"@, "appselect"@)),
        581u16 => Some(("key"@, "screensaver"@)),
        582u16 => Some(("key"@, "voicecommand"@)),
        583u16 => Some(("key"@, "assistant"@)),
        584u16 => Some(("key"@, "kbd_layout_next"@)),
        585u16 => Some(("key"@, "emoji_picker"@)),
        586u16 => Some(("key"@, "dictate"@)),
        592u16 => Some(("key"@, "brightness_min"@)),
        593u16 => Some(("key"@, "brightness_max"@)),
        608u16 => Some(("key"@, "kbdinputassist_prev"@)),
        609u16 => Some(("key"@, "kbdinputassist_next"@)),
        610u16 => Some(("key"@, "kbdinputassist_prevgroup"@)),
        611u16 => Some(("key"@, "kbdinputassist_nextgroup"@)),
        612u16 => Some(("key"@, "kbdinputassist_accept"@)),
        613u16 => Some(("key"@, "kbdinputassist_cancel"@)),
        614u16 => Some(("key"@, "right_up"@)),
        615u16 => Some(("key"@, "right_down"@)),
        616u16 => Some(("key"@, "left_up"@)),
        617u16 => Some(("key"@, "left_down"@)),
        618u16 => Some(("key"@, "root_menu"@)),
        619u16 => Some(("key"@, "media_top_menu"@)),
        620u16 => Some(("key"@, "numeric_11"@)),
        621u16 => Some(("key"@, "numeric_12"@)),
        622u16 => Some(("key"@, "audio_desc"@)),
        623u16 => Some(("key"@, "3d_mode"@)),
        624u16 => Some(("key"@, "next_favorite"@)),
        625u16 => Some(("key"@, "stop_record"@)),
        626u16 => Some(("key"@, "pause_record"@)),
        627u16 => Some(("key"@, "vod"@)),
        628u16 => Some(("key"@, "unmute"@)),
        629u16 => Some(("key"@, "fastreverse"@)),
        630u16 => Some(("key"@, "slowreverse"@)),
        631u16 => Some(("key"@, "data"@)),
        632u16 => Some(("key"@, "onscreen_keyboard"@)),
        633u16 => Some(("key"@, "privacy_screen_toggle"@)),
        634u16 => Some(("key"@, "selective_screenshot"@)),
        635u16 => Some(("key"@, "next_element"@)),
        636u16 => Some(("key"@, "previous_element"@)),
        637u16 => Some(("key"@, "autopilot_engage_toggle"@)),
        638u16 => Some(("key"@, "mark_waypoint"@)),
        639u16 => Some(("key"@, "sos"@)),
        _ => None,
    }
}

fn codes_1_576(code: u16) -> (res: Option<(&'static str, &'static str)>)
    ensures
        match res {
            Some((prefix, rest)) => spec_codes_1_576(code) == Some((prefix@, rest@)),
            None => spec_codes_1_576(code) is None,
        },
{
    match code {
        576u16 => Some(("key", "buttonconfig")),
        577u16 => Some(("key", "taskmanager")),
        578u16 => Some(("key", "journal")),
        579u16 => Some(("key", "controlpanel")),
        580u16 => Some(("key", "appselect")),
        581u16 => Some(("key", "screensaver")),
        582u16 => Some(("key", "voicecommand")),
        583u16 => Some(("key", "assistant")),
        584u16 => Some(("key", "kbd_layout_next")),
        585u16 => Some(("key", "emoji_picker")),
        586u16 => Some(("key", "dictate")),
        592u16 => Some(("key", "brightness_min")),
        593u16 => Some(("key", "brightness_max")),
        608u16 => Some(("key", "kbdinputassist_prev")),
        609u16 => Some(("key", "kbdinputassist_next")),
        610u16 => Some(("key", "kbdinputassist_prevgroup")),
        611u16 => Some(("key", "kbdinputassist_nextgroup")),
        612u16 => Some(("key", "kbdinputassist_accept")),
        613u16 => Some(("key", "kbdinputassist_cancel")),
        614u16 => Some(("key", "right_up")),
        615u16 => Some(("key", "right_down")),
        616u16 => Some(("key", "left_up")),
        617u16 => Some(("key", "left_down")),
        618u16 => Some(("key", "root_menu")),
        619u16 => Some(("key", "media_top_menu")),
        620u16 => Some(("key", "numeric_11")),
        621u16 => Some(("key", "numeric_12")),
        622u16 => Some(("key", "audio_desc")),
        623u16 => Some(("key", "3d_mode")),
        624u16 => Some(("key", "next_favorite")),
        625u16 => Some(("key", "stop_record")),
        626u16 => Some(("key", "pause_record")),
        627u16 => Some(("key", "vod")),
        628u16 => Some(("key", "unmute")),
        629u16 => Some(("key", "fastreverse")),
        630u16 => Some(("key", "slowreverse")),
        631u16 => Some(("key", "data")),
        632u16 => Some(("key", "onscreen_keyboard")),
        633u16 => Some(("key", "privacy_screen_toggle")),
        634u16 => Some(("key", "selective_screenshot")),
        635u16 => Some(("key", "next_element")),
        636u16 => Some(("key", "previous_element")),
        637u16 => Some(("key", "autopilot_engage_toggle")),
        638u16 => Some(("key", "mark_waypoint")),
        639u16 => Some(("key", "sos")),
        _ => None,
    }
}

pub open spec fn spec_codes_1_640(code: u16) -> Option<(Seq<char>, Seq<char>)> {
    match code {
        640u16 => Some(("key"@, "nav_chart"@)),
        641u16 => Some(("key"@, "fishing_chart"@)),
        642u16 => Some(("key"@, "single_range_radar"@)),
        643u16 => Some(("key"@, "dual_range_radar"@)),
        644u16 => Some(("key"@, "radar_overlay"@)),
        645u16 => Some(("key"@, "traditional_sonar"@)),
        646u16 => Some(("key"@, "clearvu_sonar"@)),
        647u16 => Some(("key"@, "sidevu_sonar"@)),
        648u16 => Some(("key"@, "nav_info"@)),
        649u16 => Some(("key"@, "brightness_menu"@)),
        656u16 => Some(("key"@, "macro1"@)),
        657u16 => Some(("key"@, "macro2"@)),
        658u16 => Some(("key"@, "macro3"@)),
        659u16 => Some(("key"@, "macro4"@)),
        660u16 => Some(("key"@, "macro5"@)),
        661u16 => Some(("key"@, "macro6"@)),
        662u16 => Some(("key"@, "macro7"@)),
        663u16 => Some(("key"@, "macro8"@)),
        664u16 => Some(("key"@, "macro9"@)),
        665u16 => Some(("key"@, "macro10"@)),
        666u16 => Some(("key"@, "macro11"@)),
        667u16 => Some(("key"@, "macro12"@)),
        668u16 => Some(("key"@, "macro13"@)),
        669u16 => Some(("key"@, "macro14"@)),
        670u16 => Some(("key"@, "macro15"@)),
        671u16 => Some(("key"@, "macro16"@)),
        672u16 => Some(("key"@, "macro17"@)),
        673u16 => Some(("key"@, "macro18"@)),
        674u16 => Some(("key"@, "macro19"@)),
        675u16 => Some(("key"@, "macro20"@)),
        676u16 => Some(("key"@, "macro21"@)),
        677u16 => Some(("key"@, "macro22"@)),
        678u16 => Some(("key"@, "macro23"@)),
        679u16 => Some(("key"@, "macro24"@)),
        680u16 => Some(("key"@, "macro25"@)),
        681u16 => Some(("key"@, "macro26"@)),
        682u16 => Some(("key"@, "macro27"@)),
        683u16 => Some(("key"@, "macro28"@)),
        684u16 => Some(("key"@, "macro29"@)),
        685u16 => Some(("key"@, "macro30"@)),
        688u16 => Some(("key"@, "macro_record_start"@)),
        689u16 => Some(("key"@, "macro_record_stop"@)),
        690u16 => Some(("key"@, "macro_preset_cycle"@)),
        691u16 => Some(("key"@, "macro_preset1"@)),
        692u16 => Some(("key"@, "macro_preset2"@)),
        693u16 => Some(("key"@, "macro_preset3"@)),
        696u16 => Some(("key"@, "kbd_lcd_menu1"@)),
        697u16 => Some(("key"@, "kbd_lcd_menu2"@)),
        698u16 => Some(("key"@, "kbd_lcd_menu3"@)),
        699u16 => Some(("key"@, "kbd_lcd_menu4"@)),
        700u16 => Some(("key"@, "kbd_lcd_menu5"@)),
        _ => None,
    }
}

fn codes_1_640(code: u16) -> (res: Option<(&'static str, &'static str)>)
    ensures
        match res {
            Some((prefix, rest)) => spec_codes_1_640(code) == Some((prefix@, rest@)),
            None => spec_codes_1_640(code) is None,
        },
{
    match code {
        640u16 => Some(("key", "nav_chart")),
        641u16 => Some(("key", "fishing_chart")),
        642u16 => Some(("key", "single_range_radar")),
        643u16 => Some(("key", "dual_range_radar")),
        644u16 => Some(("key", "radar_overlay")),
        645u16 => Some(("key", "traditional_sonar")),
        646u16 => Some(("key", "clearvu_sonar")),
        647u16 => Some(("key", "sidevu_sonar")),
        648u16 => Some(("key", "nav_info")),
        649u16 => Some(("key", "brightness_menu")),
        656u16 => Some(("key", "macro1")),
        657u16 => Some(("key", "macro2")),
        658u16 => Some(("key", "macro3")),
        659u16 => Some(("key", "macro4")),
        660u16 => Some(("key", "macro5")),
        661u16 => Some(("key", "macro6")),
        662u16 => Some(("key", "macro7")),
        663u16 => Some(("key", "macro8")),
        664u16 => Some(("key", "macro9")),
        665u16 => Some(("key", "macro10")),
        666u16 => Some(("key", "macro11")),
        667u16 => Some(("key", "macro12")),
        668u16 => Some(("key", "macro13")),
        669u16 => Some(("key", "macro14")),
        670u16 => Some(("key", "macro15")),
        671u16 => Some(("key", "macro16")),
        672u16 => Some(("key", "macro17")),
        673u16 => Some(("key", "macro18")),
        674u16 => Some(("key", "macro19")),
        675u16 => Some(("key", "macro20")),
        676u16 => Some(("key", "macro21")),
        677u16 => Some(("key", "macro22")),
        678u16 => Some(("key", "macro23")),
        679u16 => Some(("key", "macro24")),
        680u16 => Some(("key", "macro25")),
        681u16 => Some(("key", "macro26")),
        682u16 => Some(("key", "macro27")),
        683u16 => Some(("key", "macro28")),
        684u16 => Some(("key", "macro29")),
        685u16 => Some(("key", "macro30")),
        688u16 => Some(("key", "macro_record_start")),
        689u16 => Some(("key", "macro_record_stop")),
        690u16 => Some(("key", "macro_preset_cycle")),
        691u16 => Some(("key", "macro_preset1")),
        692u16 => Some(("key", "macro_preset2")),
        693u16 => Some(("key", "macro_preset3")),
        696u16 => Some(("key", "kbd_lcd_menu1")),
        697u16 => Some(("key", "kbd_lcd_menu2")),
        698u16 => Some(("key", "kbd_lcd_menu3")),
        699u16 => Some(("key", "kbd_lcd_menu4")),
        700u16 => Some(("key", "kbd_lcd_menu5")),
        _ => None,
    }
}

pub open spec fn spec_codes_1_704(code: u16) -> Option<(Seq<char>, Seq<char>)> {
    match code {
        704u16 => Some(("btn"@, "trigger_happy1"@)),
        705u16 => Some(("btn"@, "trigger_happy2"@)),
        706u16 => Some(("btn"@, "trigger_happy3"@)),
        707u16 => Some(("btn"@, "trigger_happy4"@)),
        708u16 => Some(("btn"@, "trigger_happy5"@)),
        709u16 => Some(("btn"@, "trigger_happy6"@)),
        710u16 => Some(("btn"@, "trigger_happy7"@)),
        711u16 => Some(("btn"@, "trigger_happy8"@)),
        712u16 => Some(("btn"@, "trigger_happy9"@)),
        713u16 => Some(("btn"@, "trigger_happy10"@)),
        714u16 => Some(("btn"@, "trigger_happy11"@)),
        715u16 => Some(("btn"@, "trigger_happy12"@)),
        716u16 => Some(("btn"@, "trigger_happy13"@)),
        717u16 => Some(("btn"@, "trigger_happy14"@)),
        718u16 => Some(("btn"@, "trigger_happy15"@)),
        719u16 => Some(("btn"@, "trigger_happy16"@)),
        720u16 => Some(("btn"@, "trigger_happy17"@)),
        721u16 => Some(("btn"@, "trigger_happy18"@)),
        722u16 => Some(("btn"@, "trigger_happy19"@)),
        723u16 => Some(("btn"@, "trigger_happy20"@)),
        724u16 => Some(("btn"@, "trigger_happy21"@)),
        725u16 => Some(("btn"@, "trigger_happy22"@)),
        726u16 => Some(("btn"@, "trigger_happy23"@)),
        727u16 => Some(("btn"@, "trigger_happy24"@)),
        728u16 => Some(("btn"@, "trigger_happy25"@)),
        729u16 => Some(("btn"@, "trigger_happy26"@)),
        730u16 => Some(("btn"@, "trigger_happy27"@)),
        731u16 => Some(("btn"@, "trigger_happy28"@)),
        732u16 => Some(("btn"@, "trigger_happy29"@)),
        733u16 => Some(("btn"@, "trigger_happy30"@)),
        734u16 => Some(("btn"@, "trigger_happy31"@)),
        735u16 => Some(("btn"@, "trigger_happy32"@)),
        736u16 => Some(("btn"@, "trigger_happy33"@)),
        737u16 => Some(("btn"@, "trigger_happy34"@)),
        738u16 => Some(("btn"@, "trigger_happy35"@)),
        739u16 => Some(("btn"@, "trigger_happy36"@)),
        740u16 => Some(("btn"@, "trigger_happy37"@)),
        741u16 => Some(("btn"@, "trigger_happy38"@)),
        742u16 => Some(("btn"@, "trigger_happy39"@)),
        743u16 => Some(("btn"@, "trigger_happy40"@)),
        767u16 => Some(("key"@, "max"@)),
        _ => None,
    }
}

fn codes_1_704(code: u16) -> (res: Option<(&'static str, &'static str)>)
    ensures
        match res {
            Some((prefix, rest)) => spec_codes_1_704(code) == Some((prefix@, rest@)),
            None => spec_codes_1_704(code) is None,
        },
{
    match code {
        704u16 => Some(("btn", "trigger_happy1")),
        705u16 => Some(("btn", "trigger_happy2")),
        706u16 => Some(("btn", "trigger_happy3")),
        707u16 => Some(("btn", "trigger_happy4")),
        708u16 => Some(("btn", "trigger_happy5")),
        709u16 => Some(("btn", "trigger_happy6")),
        710u16 => Some(("btn", "trigger_happy7")),
        711u16 => Some(("btn", "trigger_happy8")),
        712u16 => Some(("btn", "trigger_happy9")),
        713u16 => Some(("btn", "trigger_happy10")),
        714u16 => Some(("btn", "trigger_happy11")),
        715u16 => Some(("btn", "trigger_happy12")),
        716u16 => Some(("btn", "trigger_happy13")),
        717u16 => Some(("btn", "trigger_happy14")),
        718u16 => Some(("btn", "trigger_happy15")),
        719u16 => Some(("btn", "trigger_happy16")),
        720u16 => Some(("btn", "trigger_happy17")),
        721u16 => Some(("btn", "trigger_happy18")),
        722u16 => Some(("btn", "trigger_happy19")),
        723u16 => Some(("btn", "trigger_happy20")),
        724u16 => Some(("btn", "trigger_happy21")),
        725u16 => Some(("btn", "trigger_happy22")),
        726u16 => Some(("btn", "trigger_happy23")),
        727u16 => Some(("btn", "trigger_happy24")),
        728u16 => Some(("btn", "trigger_happy25")),
        729u16 => Some(("btn", "trigger_happy26")),
        730u16 => Some(("btn", "trigger_happy27")),
        731u16 => Some(("btn", "trigger_happy28")),
        732u16 => Some(("btn", "trigger_happy29")),
        733u16 => Some(("btn", "trigger_happy30")),
        734u16 => Some(("btn", "trigger_happy31")),
        735u16 => Some(("btn", "trigger_happy32")),
        736u16 => Some(("btn", "trigger_happy33")),
        737u16 => Some(("btn", "trigger_happy34")),
        738u16 => Some(("btn", "trigger_happy35")),
        739u16 => Some(("btn", "trigger_happy36")),
        740u16 => Some(("btn", "trigger_happy37")),
        741u16 => Some(("btn", "trigger_happy38")),
        742u16 => Some(("btn", "trigger_happy39")),
        743u16 => Some(("btn", "trigger_happy40")),
        767u16 => Some(("key", "max")),
        _ => None,
    }
}

pub open spec fn spec_codes_2_0(code: u16) -> Option<(Seq<char>, Seq<char>)> {
    match code {
        0u16 => Some(("rel"@, "x"@)),
        1u16 => Some(("rel"@, "y"@)),
        2u16 => Some(("rel"@, "z"@)),
        3u16 => Some(("rel"@, "rx"@)),
        4u16 => Some(("rel"@, "ry"@)),
        5u16 => Some(("rel"@, "rz"@)),
        6u16 => Some(("rel"@, "hwheel"@)),
        7u16 => Some(("rel"@, "dial"@)),
        8u16 => Some(("rel"@, "wheel"@)),
        9u16 => Some(("rel"@, "misc"@)),
        10u16 => Some(("rel"@, "reserved"@)),
        11u16 => Some(("rel"@, "wheel_hi_res"@)),
        12u16 => Some(("rel"@, "hwheel_hi_res"@)),
        15u16 => Some(("rel"@, "max"@)),
        _ => None,
    }
}

fn codes_2_0(code: u16) -> (res: Option<(&'static str, &'static str)>)
    ensures
        match res {
            Some((prefix, rest)) => spec_codes_2_0(code) == Some((prefix@, rest@)),
            None => spec_codes_2_0(code) is None,
        },
{
    match code {
        0u16 => Some(("rel", "x")),
        1u16 => Some(("rel", "y")),
        2u16 => Some(("rel", "z")),
        3u16 => Some(("rel", "rx")),
        4u16 => Some(("rel", "ry")),
        5u16 => Some(("rel", "rz")),
        6u16 => Some(("rel", "hwheel")),
        7u16 => Some(("rel", "dial")),
        8u16 => Some(("rel", "wheel")),
        9u16 => Some(("rel", "misc")),
        10u16 => Some(("rel", "reserved")),
        11u16 => Some(("rel", "wheel_hi_res")),
        12u16 => Some(("rel", "hwheel_hi_res")),
        15u16 => Some(("rel", "max")),
        _ => None,
    }
}

pub open spec fn spec_codes_3_0(code: u16) -> Option<(Seq<char>, Seq<char>)> {
    match code {
        0u16 => Some(("abs"@, "x"@)),
        1u16 => Some(("abs"@, "y"@)),
        2u16 => Some(("abs"@, "z"@)),
        3u16 => Some(("abs"@, "rx"@)),
        4u16 => Some(("abs"@, "ry"@)),
        5u16 => Some(("abs"@, "rz"@)),
        6u16 => Some(("abs"@, "throttle"@)),
        7u16 => Some(("abs"@, "rudder"@)),
        8u16 => Some(("abs"@, "wheel"@)),
        9u16 => Some(("abs"@, "gas"@)),
        10u16 => Some(("abs"@, "brake"@)),
        16u16 => Some(("abs"@, "hat0x"@)),
        17u16 => Some(("abs"@, "hat0y"@)),
        18u16 => Some(("abs"@, "hat1x"@)),
        19u16 => Some(("abs"@, "hat1y"@)),
        20u16 => Some(("abs"@, "hat2x"@)),
        21u16 => Some(("abs"@, "hat2y"@)),
        22u16 => Some(("abs"@, "hat3x"@)),
        23u16 => Some(("abs"@, "hat3y"@)),
        24u16 => Some(("abs"@, "pressure"@)),
        25u16 => Some(("abs"@, "distance"@)),
        26u16 => Some(("abs"@, "tilt_x"@)),
        27u16 => Some(("abs"@, "tilt_y"@)),
        28u16 => Some(("abs"@, "tool_width"@)),
        32u16 => Some(("abs"@, "volume"@)),
        33u16 => Some(("abs"@, "profile"@)),
        40u16 => Some(("abs"@, "misc"@)),
        46u16 => Some(("abs"@, "reserved"@)),
        47u16 => Some(("abs"@, "mt_slot"@)),
        48u16 => Some(("abs"@, "mt_touch_major"@)),
        49u16 => Some(("abs"@, "mt_touch_minor"@)),
        50u16 => Some(("abs"@, "mt_width_major"@)),
        51u16 => Some(("abs"@, "mt_width_minor"@)),
        52u16 => Some(("abs"@, "mt_orientation"@)),
        53u16 => Some(("abs"@, "mt_position_x"@)),
        54u16 => Some(("abs"@, "mt_position_y"@)),
        55u16 => Some(("abs"@, "mt_tool_type"@)),
        56u16 => Some(("abs"@, "mt_blob_id"@)),
        57u16 => Some(("abs"@, "mt_tracking_id"@)),
        58u16 => Some(("abs"@, "mt_pressure"@)),
        59u16 => Some(("abs"@, "mt_distance"@)),
        60u16 => Some(("abs"@, "mt_tool_x"@)),
        61u16 => Some(("abs"@, "mt_tool_y"@)),
        63u16 => Some(("abs"@, "max"@)),
        _ => None,
    }
}

fn codes_3_0(code: u16) -> (res: Option<(&'static str, &'static str)>)
    ensures
        match res {
            Some((prefix, rest)) => spec_codes_3_0(code) == Some((prefix@, rest@)),
            None => spec_codes_3_0(code) is None,
        },
{
    match code {
        0u16 => Some(("abs", "x")),
        1u16 => Some(("abs", "y")),
        2u16 => Some(("abs", "z")),
        3u16 => Some(("abs", "rx")),
        4u16 => Some(("abs", "ry")),
        5u16 => Some(("abs", "rz")),
        6u16 => Some(("abs", "throttle")),
        7u16 => Some(("abs", "rudder")),
        8u16 => Some(("abs", "wheel")),
        9u16 => Some(("abs", "gas")),
        10u16 => Some(("abs", "brake")),
        16u16 => Some(("abs", "hat0x")),
        17u16 => Some(("abs", "hat0y")),
        18u16 => Some(("abs", "hat1x")),
        19u16 => Some(("abs", "hat1y")),
        20u16 => Some(("abs", "hat2x")),
        21u16 => Some(("abs", "hat2y")),
        22u16 => Some(("abs", "hat3x")),
        23u16 => Some(("abs", "hat3y")),
        24u16 => Some(("abs", "pressure")),
        25u16 => Some(("abs", "distance")),
        26u16 => Some(("abs", "tilt_x")),
        27u16 => Some(("abs", "tilt_y")),
        28u16 => Some(("abs", "tool_width")),
        32u16 => Some(("abs", "volume")),
        33u16 => Some(("abs", "profile")),
        40u16 => Some(("abs", "misc")),
        46u16 => Some(("abs", "reserved")),
        47u16 => Some(("abs", "mt_slot")),
        48u16 => Some(("abs", "mt_touch_major")),
        49u16 => Some(("abs", "mt_touch_minor")),
        50u16 => Some(("abs", "mt_width_major")),
        51u16 => Some(("abs", "mt_width_minor")),
        52u16 => Some(("abs", "mt_orientation")),
        53u16 => Some(("abs", "mt_position_x")),
        54u16 => Some(("abs", "mt_position_y")),
        55u16 => Some(("abs", "mt_tool_type")),
        56u16 => Some(("abs", "mt_blob_id")),
        57u16 => Some(("abs", "mt_tracking_id")),
        58u16 => Some(("abs", "mt_pressure")),
        59u16 => Some(("abs", "mt_distance")),
        60u16 => Some(("abs", "mt_tool_x")),
        61u16 => Some(("abs", "mt_tool_y")),
        63u16 => Some(("abs", "max")),
        _ => None,
    }
}

pub open spec fn spec_codes_4_0(code: u16) -> Option<(Seq<char>, Seq<char>)> {
    match code {
        0u16 => Some(("msc"@, "serial"@)),
        1u16 => Some(("msc"@, "pulseled"@)),
        2u16 => Some(("msc"@, "gesture"@)),
        3u16 => Some(("msc"@, "raw"@)),
        4u16 => Some(("msc"@, "scan"@)),
        5u16 => Some(("msc"@, "timestamp"@)),
        7u16 => Some(("msc"@, "max"@)),
        _ => None,
    }
}

fn codes_4_0(code: u16) -> (res: Option<(&'static str, &'static str)>)
    ensures
        match res {
            Some((prefix, rest)) => spec_codes_4_0(code) == Some((prefix@, rest@)),
            None => spec_codes_4_0(code) is None,
        },
{
    match code {
        0u16 => Some(("msc", "serial")),
        1u16 => Some(("msc", "pulseled")),
        2u16 => Some(("msc", "gesture")),
        3u16 => Some(("msc", "raw")),
        4u16 => Some(("msc", "scan")),
        5u16 => Some(("msc", "timestamp")),
        7u16 => Some(("msc", "max")),
        _ => None,
    }
}

pub open spec fn spec_codes_5_0(code: u16) -> Option<(Seq<char>, Seq<char>)> {
    match code {
        0u16 => Some(("sw"@, "lid"@)),
        1u16 => Some(("sw"@, "tablet_mode"@)),
        2u16 => Some(("sw"@, "headphone_insert"@)),
        3u16 => Some(("sw"@, "rfkill_all"@)),
        4u16 => Some(("sw"@, "microphone_insert"@)),
        5u16 => Some(("sw"@, "dock"@)),
        6u16 => Some(("sw"@, "lineout_insert"@)),
        7u16 => Some(("sw"@, "jack_physical_insert"@)),
        8u16 => Some(("sw"@, "videoout_insert"@)),
        9u16 => Some(("sw"@, "camera_lens_cover"@)),
        10u16 => Some(("sw"@, "keypad_slide"@)),
        11u16 => Some(("sw"@, "front_proximity"@)),
        12u16 => Some(("sw"@, "rotate_lock"@)),
        13u16 => Some(("sw"@, "linein_insert"@)),
        14u16 => Some(("sw"@, "mute_device"@)),
        15u16 => Some(("sw"@, "pen_inserted"@)),
        16u16 => Some(("sw"@, "machine_cover"@)),
        _ => None,
    }
}

fn codes_5_0(code: u16) -> (res: Option<(&'static str, &'static str)>)
    ensures
        match res {
            Some((prefix, rest)) => spec_codes_5_0(code) == Some((prefix@, rest@)),
            None => spec_codes_5_0(code) is None,
        },
{
    match code {
        0u16 => Some(("sw", "lid")),
        1u16 => Some(("sw", "tablet_mode")),
        2u16 => Some(("sw", "headphone_insert")),
        3u16 => Some(("sw", "rfkill_all")),
        4u16 => Some(("sw", "microphone_insert")),
        5u16 => Some(("sw", "dock")),
        6u16 => Some(("sw", "lineout_insert")),
        7u16 => Some(("sw", "jack_physical_insert")),
        8u16 => Some(("sw", "videoout_insert")),
        9u16 => Some(("sw", "camera_lens_cover")),
        10u16 => Some(("sw", "keypad_slide")),
        11u16 => Some(("sw", "front_proximity")),
        12u16 => Some(("sw", "rotate_lock")),
        13u16 => Some(("sw", "linein_insert")),
        14u16 => Some(("sw", "mute_device")),
        15u16 => Some(("sw", "pen_inserted")),
        16u16 => Some(("sw", "machine_cover")),
        _ => None,
    }
}

pub open spec fn spec_codes_17_0(code: u16) -> Option<(Seq<char>, Seq<char>)> {
    match code {
        0u16 => Some(("led"@, "numl"@)),
        1u16 => Some(("led"@, "capsl"@)),
        2u16 => Some(("led"@, "scrolll"@)),
        3u16 => Some(("led"@, "compose"@)),
        4u16 => Some(("led"@, "kana"@)),
        5u16 => Some(("led"@, "sleep"@)),
        6u16 => Some(("led"@, "suspend"@)),
        7u16 => Some(("led"@, "mute"@)),
        8u16 => Some(("led"@, "misc"@)),
        9u16 => Some(("led"@, "mail"@)),
        10u16 => Some(("led"@, "charging"@)),
        15u16 => Some(("led"@, "max"@)),
        _ => None,
    }
}

fn codes_17_0(code: u16) -> (res: Option<(&'static str, &'static str)>)
    ensures
        match res {
            Some((prefix, rest)) => spec_codes_17_0(code) == Some((prefix@, rest@)),
            None => spec_codes_17_0(code) is None,
        },
{
    match code {
        0u16 => Some(("led", "numl")),
        1u16 => Some(("led", "capsl")),
        2u16 => Some(("led", "scrolll")),
        3u16 => Some(("led", "compose")),
        4u16 => Some(("led", "kana")),
        5u16 => Some(("led", "sleep")),
        6u16 => Some(("led", "suspend")),
        7u16 => Some(("led", "mute")),
        8u16 => Some(("led", "misc")),
        9u16 => Some(("led", "mail")),
        10u16 => Some(("led", "charging")),
        15u16 => Some(("led", "max")),
        _ => None,
    }
}

pub open spec fn spec_codes_18_0(code: u16) -> Option<(Seq<char>, Seq<char>)> {
    match code {
        0u16 => Some(("snd"@, "click"@)),
        1u16 => Some(("snd"@, "bell"@)),
        2u16 => Some(("snd"@, "tone"@)),
        7u16 => Some(("snd"@, "max"@)),
        _ => None,
    }
}

fn codes_18_0(code: u16) -> (res: Option<(&'static str, &'static str)>)
    ensures
        match res {
            Some((prefix, rest)) => spec_codes_18_0(code) == Some((prefix@, rest@)),
            None => spec_codes_18_0(code) is None,
        },
{
    match code {
        0u16 => Some(("snd", "click")),
        1u16 => Some(("snd", "bell")),
        2u16 => Some(("snd", "tone")),
        7u16 => Some(("snd", "max")),
        _ => None,
    }
}

pub open spec fn spec_codes_20_0(code: u16) -> Option<(Seq<char>, Seq<char>)> {
    match code {
        0u16 => Some(("rep"@, "delay"@)),
        1u16 => Some(("rep"@, "period"@)),
        _ => None,
    }
}

fn codes_20_0(code: u16) -> (res: Option<(&'static str, &'static str)>)
    ensures
        match res {
            Some((prefix, rest)) => spec_codes_20_0(code) == Some((prefix@, rest@)),
            None => spec_codes_20_0(code) is None,
        },
{
    match code {
        0u16 => Some(("rep", "delay")),
        1u16 => Some(("rep", "period")),
        _ => None,
    }
}

pub open spec fn spec_codes_21_64(code: u16) -> Option<(Seq<char>, Seq<char>)> {
    match code {
        80u16 => Some(("ff"@, "rumble"@)),
        81u16 => Some(("ff"@, "periodic"@)),
        82u16 => Some(("ff"@, "constant"@)),
        83u16 => Some(("ff"@, "spring"@)),
        84u16 => Some(("ff"@, "friction"@)),
        85u16 => Some(("ff"@, "damper"@)),
        86u16 => Some(("ff"@, "inertia"@)),
        87u16 => Some(("ff"@, "ramp"@)),
        88u16 => Some(("ff"@, "square"@)),
        89u16 => Some(("ff"@, "triangle"@)),
        90u16 => Some(("ff"@, "sine"@)),
        91u16 => Some(("ff"@, "saw_up"@)),
        92u16 => Some(("ff"@, "saw_down"@)),
        93u16 => Some(("ff"@, "custom"@)),
        96u16 => Some(("ff"@, "gain"@)),
        97u16 => Some(("ff"@, "autocenter"@)),
        127u16 => Some(("ff"@, "max"@)),
        _ => None,
    }
}

fn codes_21_64(code: u16) -> (res: Option<(&'static str, &'static str)>)
    ensures
        match res {
            Some((prefix, rest)) => spec_codes_21_64(code) == Some((prefix@, rest@)),
            None => spec_codes_21_64(code) is None,
        },
{
    match code {
        80u16 => Some(("ff", "rumble")),
        81u16 => Some(("ff", "periodic")),
        82u16 => Some(("ff", "constant")),
        83u16 => Some(("ff", "spring")),
        84u16 => Some(("ff", "friction")),
        85u16 => Some(("ff", "damper")),
        86u16 => Some(("ff", "inertia")),
        87u16 => Some(("ff", "ramp")),
        88u16 => Some(("ff", "square")),
        89u16 => Some(("ff", "triangle")),
        90u16 => Some(("ff", "sine")),
        91u16 => Some(("ff", "saw_up")),
        92u16 => Some(("ff", "saw_down")),
        93u16 => Some(("ff", "custom")),
        96u16 => Some(("ff", "gain")),
        97u16 => Some(("ff", "autocenter")),
        127u16 => Some(("ff", "max")),
        _ => None,
    }
}

/// The name of an event code as a pair: the part before the first underscore and the part after it,
/// both in lower case.
pub open spec fn spec_code_entry(ev_type: u16, code: u16) -> Option<(Seq<char>, Seq<char>)> {
    if ev_type == 0u16 && 0u16 <= code && code < 64u16 {
        spec_codes_0_0(code)
    } else if ev_type == 1u16 && 0u16 <= code && code < 64u16 {
        spec_codes_1_0(code)
    } else if ev_type == 1u16 && 64u16 <= code && code < 128u16 {
        spec_codes_1_64(code)
    } else if ev_type == 1u16 && 128u16 <= code && code < 192u16 {
        spec_codes_1_128(code)
    } else if ev_type == 1u16 && 192u16 <= code && code < 256u16 {
        spec_codes_1_192(code)
    } else if ev_type == 1u16 && 256u16 <= code && code < 320u16 {
        spec_codes_1_256(code)
    } else if ev_type == 1u16 && 320u16 <= code && code < 384u16 {
        spec_codes_1_320(code)
    } else if ev_type == 1u16 && 384u16 <= code && code < 448u16 {
        spec_codes_1_384(code)
    } else if ev_type == 1u16 && 448u16 <= code && code < 512u16 {
        spec_codes_1_448(code)
    } else if ev_type == 1u16 && 512u16 <= code && code < 576u16 {
        spec_codes_1_512(code)
    } else if ev_type == 1u16 && 576u16 <= code && code < 640u16 {
        spec_codes_1_576(code)
    } else if ev_type == 1u16 && 640u16 <= code && code < 704u16 {
        spec_codes_1_640(code)
    } else if ev_type == 1u16 && 704u16 <= code && code < 768u16 {
        spec_codes_1_704(code)
    } else if ev_type == 2u16 && 0u16 <= code && code < 64u16 {
        spec_codes_2_0(code)
    } else if ev_type == 3u16 && 0u16 <= code && code < 64u16 {
        spec_codes_3_0(code)
    } else if ev_type == 4u16 && 0u16 <= code && code < 64u16 {
        spec_codes_4_0(code)
    } else if ev_type == 5u16 && 0u16 <= code && code < 64u16 {
        spec_codes_5_0(code)
    } else if ev_type == 17u16 && 0u16 <= code && code < 64u16 {
        spec_codes_17_0(code)
    } else if ev_type == 18u16 && 0u16 <= code && code < 64u16 {
        spec_codes_18_0(code)
    } else if ev_type == 20u16 && 0u16 <= code && code < 64u16 {
        spec_codes_20_0(code)
    } else if ev_type == 21u16 && 64u16 <= code && code < 128u16 {
        spec_codes_21_64(code)
    } else {
        None
    }
}

pub fn code_entry(ev_type: u16, code: u16) -> (res: Option<(&'static str, &'static str)>)
    ensures
        match res {
            Some((prefix, rest)) => spec_code_entry(ev_type, code) == Some((prefix@, rest@)),
            None => spec_code_entry(ev_type, code) is None,
        },
{
    if ev_type == 0u16 && 0u16 <= code && code < 64u16 {
        codes_0_0(code)
    } else if ev_type == 1u16 && 0u16 <= code && code < 64u16 {
        codes_1_0(code)
    } else if ev_type == 1u16 && 64u16 <= code && code < 128u16 {
        codes_1_64(code)
    } else if ev_type == 1u16 && 128u16 <= code && code < 192u16 {
        codes_1_128(code)
    } else if ev_type == 1u16 && 192u16 <= code && code < 256u16 {
        codes_1_192(code)
    } else if ev_type == 1u16 && 256u16 <= code && code < 320u16 {
        codes_1_256(code)
    } else if ev_type == 1u16 && 320u16 <= code && code < 384u16 {
        codes_1_320(code)
    } else if ev_type == 1u16 && 384u16 <= code && code < 448u16 {
        codes_1_384(code)
    } else if ev_type == 1u16 && 448u16 <= code && code < 512u16 {
        codes_1_448(code)
    } else if ev_type == 1u16 && 512u16 <= code && code < 576u16 {
        codes_1_512(code)
    } else if ev_type == 1u16 && 576u16 <= code && code < 640u16 {
        codes_1_576(code)
    } else if ev_type == 1u16 && 640u16 <= code && code < 704u16 {
        codes_1_640(code)
    } else if ev_type == 1u16 && 704u16 <= code && code < 768u16 {
        codes_1_704(code)
    } else if ev_type == 2u16 && 0u16 <= code && code < 64u16 {
        codes_2_0(code)
    } else if ev_type == 3u16 && 0u16 <= code && code < 64u16 {
        codes_3_0(code)
    } else if ev_type == 4u16 && 0u16 <= code && code < 64u16 {
        codes_4_0(code)
    } else if ev_type == 5u16 && 0u16 <= code && code < 64u16 {
        codes_5_0(code)
    } else if ev_type == 17u16 && 0u16 <= code && code < 64u16 {
        codes_17_0(code)
    } else if ev_type == 18u16 && 0u16 <= code && code < 64u16 {
        codes_18_0(code)
    } else if ev_type == 20u16 && 0u16 <= code && code < 64u16 {
        codes_20_0(code)
    } else if ev_type == 21u16 && 64u16 <= code && code < 128u16 {
        codes_21_64(code)
    } else {
        None
    }
}

proof fn lemma_code_rests_0_0(code: u16)
    ensures
        spec_codes_0_0(code) is Some ==> spec_codes_0_0(code).unwrap().1.len() > 0 && spec_codes_0_0(code).unwrap().1[0] != '%',
{
    reveal_strlit("report");
    reveal_strlit("config");
    reveal_strlit("mt_report");
    reveal_strlit("dropped");
    reveal_strlit("max");
}

proof fn lemma_code_rests_1_0(code: u16)
    ensures
        spec_codes_1_0(code) is Some ==> spec_codes_1_0(code).unwrap().1.len() > 0 && spec_codes_1_0(code).unwrap().1[0] != '%',
{
    reveal_strlit("reserved");
    reveal_strlit("esc");
    reveal_strlit("1");
    reveal_strlit("2");
    reveal_strlit("3");
    reveal_strlit("4");
    reveal_strlit("5");
    reveal_strlit("6");
    reveal_strlit("7");
    reveal_strlit("8");
    reveal_strlit("9");
    reveal_strlit("0");
    reveal_strlit("minus");
    reveal_strlit("equal");
    reveal_strlit("backspace");
    reveal_strlit("tab");
    reveal_strlit("q");
    reveal_strlit("w");
    reveal_strlit("e");
    reveal_strlit("r");
    reveal_strlit("t");
    reveal_strlit("y");
    reveal_strlit("u");
    reveal_strlit("i");
    reveal_strlit("o");
    reveal_strlit("p");
    reveal_strlit("leftbrace");
    reveal_strlit("rightbrace");
    reveal_strlit("enter");
    reveal_strlit("leftctrl");
    reveal_strlit("a");
    reveal_strlit("s");
    reveal_strlit("d");
    reveal_strlit("f");
    reveal_strlit("g");
    reveal_strlit("h");
    reveal_strlit("j");
    reveal_strlit("k");
    reveal_strlit("l");
    reveal_strlit("semicolon");
    reveal_strlit("apostrophe");
    reveal_strlit("grave");
    reveal_strlit("leftshift");
    reveal_strlit("backslash");
    reveal_strlit("z");
    reveal_strlit("x");
    reveal_strlit("c");
    reveal_strlit("v");
    reveal_strlit("b");
    reveal_strlit("n");
    reveal_strlit("m");
    reveal_strlit("comma");
    reveal_strlit("dot");
    reveal_strlit("slash");
    reveal_strlit("rightshift");
    reveal_strlit("kpasterisk");
    reveal_strlit("leftalt");
    reveal_strlit("space");
    reveal_strlit("capslock");
    reveal_strlit("f1");
    reveal_strlit("f2");
    reveal_strlit("f3");
    reveal_strlit("f4");
    reveal_strlit("f5");
}

proof fn lemma_code_rests_1_64(code: u16)
    ensures
        spec_codes_1_64(code) is Some ==> spec_codes_1_64(code).unwrap().1.len() > 0 && spec_codes_1_64(code).unwrap().1[0] != '%',
{
    reveal_strlit("f6");
    reveal_strlit("f7");
    reveal_strlit("f8");
    reveal_strlit("f9");
    reveal_strlit("f10");
    reveal_strlit("numlock");
    reveal_strlit("scrolllock");
    reveal_strlit("kp7");
    reveal_strlit("kp8");
    reveal_strlit("kp9");
    reveal_strlit("kpminus");
    reveal_strlit("kp4");
    reveal_strlit("kp5");
    reveal_strlit("kp6");
    reveal_strlit("kpplus");
    reveal_strlit("kp1");
    reveal_strlit("kp2");
    reveal_strlit("kp3");
    reveal_strlit("kp0");
    reveal_strlit("kpdot");
    reveal_strlit("zenkakuhankaku");
    reveal_strlit("102nd");
    reveal_strlit("f11");
    reveal_strlit("f12");
    reveal_strlit("ro");
    reveal_strlit("katakana");
    reveal_strlit("hiragana");
    reveal_strlit("henkan");
    reveal_strlit("katakanahiragana");
    reveal_strlit("muhenkan");
    reveal_strlit("kpjpcomma");
    reveal_strlit("kpenter");
    reveal_strlit("rightctrl");
    reveal_strlit("kpslash");
    reveal_strlit("sysrq");
    reveal_strlit("rightalt");
    reveal_strlit("linefeed");
    reveal_strlit("home");
    reveal_strlit("up");
    reveal_strlit("pageup");
    reveal_strlit("left");
    reveal_strlit("right");
    reveal_strlit("end");
    reveal_strlit("down");
    reveal_strlit("pagedown");
    reveal_strlit("insert");
    reveal_strlit("delete");
    reveal_strlit("macro");
    reveal_strlit("mute");
    reveal_strlit("volumedown");
    reveal_strlit("volumeup");
    reveal_strlit("power");
    reveal_strlit("kpequal");
    reveal_strlit("kpplusminus");
    reveal_strlit("pause");
    reveal_strlit("scale");
    reveal_strlit("kpcomma");
    reveal_strlit("hangeul");
    reveal_strlit("hanja");
    reveal_strlit("yen");
    reveal_strlit("leftmeta");
    reveal_strlit("rightmeta");
    reveal_strlit("compose");
}

proof fn lemma_code_rests_1_128(code: u16)
    ensures
        spec_codes_1_128(code) is Some ==> spec_codes_1_128(code).unwrap().1.len() > 0 && spec_codes_1_128(code).unwrap().1[0] != '%',
{
    reveal_strlit("stop");
    reveal_strlit("again");
    reveal_strlit("props");
    reveal_strlit("undo");
    reveal_strlit("front");
    reveal_strlit("copy");
    reveal_strlit("open");
    reveal_strlit("paste");
    reveal_strlit("find");
    reveal_strlit("cut");
    reveal_strlit("help");
    reveal_strlit("menu");
    reveal_strlit("calc");
    reveal_strlit("setup");
    reveal_strlit("sleep");
    reveal_strlit("wakeup");
    reveal_strlit("file");
    reveal_strlit("sendfile");
    reveal_strlit("deletefile");
    reveal_strlit("xfer");
    reveal_strlit("prog1");
    reveal_strlit("prog2");
    reveal_strlit("www");
    reveal_strlit("msdos");
    reveal_strlit("coffee");
    reveal_strlit("rotate_display");
    reveal_strlit("cyclewindows");
    reveal_strlit("mail");
    reveal_strlit("bookmarks");
    reveal_strlit("computer");
    reveal_strlit("back");
    reveal_strlit("forward");
    reveal_strlit("closecd");
    reveal_strlit("ejectcd");
    reveal_strlit("ejectclosecd");
    reveal_strlit("nextsong");
    reveal_strlit("playpause");
    reveal_strlit("previoussong");
    reveal_strlit("stopcd");
    reveal_strlit("record");
    reveal_strlit("rewind");
    reveal_strlit("phone");
    reveal_strlit("iso");
    reveal_strlit("config");
    reveal_strlit("homepage");
    reveal_strlit("refresh");
    reveal_strlit("exit");
    reveal_strlit("move");
    reveal_strlit("edit");
    reveal_strlit("scrollup");
    reveal_strlit("scrolldown");
    reveal_strlit("kpleftparen");
    reveal_strlit("kprightparen");
    reveal_strlit("new");
    reveal_strlit("redo");
    reveal_strlit("f13");
    reveal_strlit("f14");
    reveal_strlit("f15");
    reveal_strlit("f16");
    reveal_strlit("f17");
    reveal_strlit("f18");
    reveal_strlit("f19");
    reveal_strlit("f20");
    reveal_strlit("f21");
}

proof fn lemma_code_rests_1_192(code: u16)
    ensures
        spec_codes_1_192(code) is Some ==> spec_codes_1_192(code).unwrap().1.len() > 0 && spec_codes_1_192(code).unwrap().1[0] != '%',
{
    reveal_strlit("f22");
    reveal_strlit("f23");
    reveal_strlit("f24");
    reveal_strlit("playcd");
    reveal_strlit("pausecd");
    reveal_strlit("prog3");
    reveal_strlit("prog4");
    reveal_strlit("all_applications");
    reveal_strlit("suspend");
    reveal_strlit("close");
    reveal_strlit("play");
    reveal_strlit("fastforward");
    reveal_strlit("bassboost");
    reveal_strlit("print");
    reveal_strlit("hp");
    reveal_strlit("camera");
    reveal_strlit("sound");
    reveal_strlit("question");
    reveal_strlit("email");
    reveal_strlit("chat");
    reveal_strlit("search");
    reveal_strlit("connect");
    reveal_strlit("finance");
    reveal_strlit("sport");
    reveal_strlit("shop");
    reveal_strlit("alterase");
    reveal_strlit("cancel");
    reveal_strlit("brightnessdown");
    reveal_strlit("brightnessup");
    reveal_strlit("media");
    reveal_strlit("switchvideomode");
    reveal_strlit("kbdillumtoggle");
    reveal_strlit("kbdillumdown");
    reveal_strlit("kbdillumup");
    reveal_strlit("send");
    reveal_strlit("reply");
    reveal_strlit("forwardmail");
    reveal_strlit("save");
    reveal_strlit("documents");
    reveal_strlit("battery");
    reveal_strlit("bluetooth");
    reveal_strlit("wlan");
    reveal_strlit("uwb");
    reveal_strlit("unknown");
    reveal_strlit("video_next");
    reveal_strlit("video_prev");
    reveal_strlit("brightness_cycle");
    reveal_strlit("brightness_auto");
    reveal_strlit("display_off");
    reveal_strlit("wwan");
    reveal_strlit("rfkill");
    reveal_strlit("micmute");
}

proof fn lemma_code_rests_1_256(code: u16)
    ensures
        spec_codes_1_256(code) is Some ==> spec_codes_1_256(code).unwrap().1.len() > 0 && spec_codes_1_256(code).unwrap().1[0] != '%',
{
    reveal_strlit("0");
    reveal_strlit("1");
    reveal_strlit("2");
    reveal_strlit("3");
    reveal_strlit("4");
    reveal_strlit("5");
    reveal_strlit("6");
    reveal_strlit("7");
    reveal_strlit("8");
    reveal_strlit("9");
    reveal_strlit("left");
    reveal_strlit("right");
    reveal_strlit("middle");
    reveal_strlit("side");
    reveal_strlit("extra");
    reveal_strlit("forward");
    reveal_strlit("back");
    reveal_strlit("task");
    reveal_strlit("trigger");
    reveal_strlit("thumb");
    reveal_strlit("thumb2");
    reveal_strlit("top");
    reveal_strlit("top2");
    reveal_strlit("pinkie");
    reveal_strlit("base");
    reveal_strlit("base2");
    reveal_strlit("base3");
    reveal_strlit("base4");
    reveal_strlit("base5");
    reveal_strlit("base6");
    reveal_strlit("dead");
    reveal_strlit("south");
    reveal_strlit("east");
    reveal_strlit("c");
    reveal_strlit("north");
    reveal_strlit("west");
    reveal_strlit("z");
    reveal_strlit("tl");
    reveal_strlit("tr");
    reveal_strlit("tl2");
    reveal_strlit("tr2");
    reveal_strlit("select");
    reveal_strlit("start");
    reveal_strlit("mode");
    reveal_strlit("thumbl");
    reveal_strlit("thumbr");
}

proof fn lemma_code_rests_1_320(code: u16)
    ensures
        spec_codes_1_320(code) is Some ==> spec_codes_1_320(code).unwrap().1.len() > 0 && spec_codes_1_320(code).unwrap().1[0] != '%',
{
    reveal_strlit("tool_pen");
    reveal_strlit("tool_rubber");
    reveal_strlit("tool_brush");
    reveal_strlit("tool_pencil");
    reveal_strlit("tool_airbrush");
    reveal_strlit("tool_finger");
    reveal_strlit("tool_mouse");
    reveal_strlit("tool_lens");
    reveal_strlit("tool_quinttap");
    reveal_strlit("stylus3");
    reveal_strlit("touch");
    reveal_strlit("stylus");
    reveal_strlit("stylus2");
    reveal_strlit("tool_doubletap");
    reveal_strlit("tool_tripletap");
    reveal_strlit("tool_quadtap");
    reveal_strlit("gear_down");
    reveal_strlit("gear_up");
    reveal_strlit("ok");
    reveal_strlit("select");
    reveal_strlit("goto");
    reveal_strlit("clear");
    reveal_strlit("power2");
    reveal_strlit("option");
    reveal_strlit("info");
    reveal_strlit("time");
    reveal_strlit("vendor");
    reveal_strlit("archive");
    reveal_strlit("program");
    reveal_strlit("channel");
    reveal_strlit("favorites");
    reveal_strlit("epg");
    reveal_strlit("pvr");
    reveal_strlit("mhp");
    reveal_strlit("language");
    reveal_strlit("title");
    reveal_strlit("subtitle");
    reveal_strlit("angle");
    reveal_strlit("full_screen");
    reveal_strlit("mode");
    reveal_strlit("keyboard");
    reveal_strlit("aspect_ratio");
    reveal_strlit("pc");
    reveal_strlit("tv");
    reveal_strlit("tv2");
    reveal_strlit("vcr");
    reveal_strlit("vcr2");
    reveal_strlit("sat");
    reveal_strlit("sat2");
    reveal_strlit("cd");
}

proof fn lemma_code_rests_1_384(code: u16)
    ensures
        spec_codes_1_384(code) is Some ==> spec_codes_1_384(code).unwrap().1.len() > 0 && spec_codes_1_384(code).unwrap().1[0] != '%',
{
    reveal_strlit("tape");
    reveal_strlit("radio");
    reveal_strlit("tuner");
    reveal_strlit("player");
    reveal_strlit("text");
    reveal_strlit("dvd");
    reveal_strlit("aux");
    reveal_strlit("mp3");
    reveal_strlit("audio");
    reveal_strlit("video");
    reveal_strlit("directory");
    reveal_strlit("list");
    reveal_strlit("memo");
    reveal_strlit("calendar");
    reveal_strlit("red");
    reveal_strlit("green");
    reveal_strlit("yellow");
    reveal_strlit("blue");
    reveal_strlit("channelup");
    reveal_strlit("channeldown");
    reveal_strlit("first");
    reveal_strlit("last");
    reveal_strlit("ab");
    reveal_strlit("next");
    reveal_strlit("restart");
    reveal_strlit("slow");
    reveal_strlit("shuffle");
    reveal_strlit("break");
    reveal_strlit("previous");
    reveal_strlit("digits");
    reveal_strlit("teen");
    reveal_strlit("twen");
    reveal_strlit("videophone");
    reveal_strlit("games");
    reveal_strlit("zoomin");
    reveal_strlit("zoomout");
    reveal_strlit("zoomreset");
    reveal_strlit("wordprocessor");
    reveal_strlit("editor");
    reveal_strlit("spreadsheet");
    reveal_strlit("graphicseditor");
    reveal_strlit("presentation");
    reveal_strlit("database");
    reveal_strlit("news");
    reveal_strlit("voicemail");
    reveal_strlit("addressbook");
    reveal_strlit("messenger");
    reveal_strlit("displaytoggle");
    reveal_strlit("spellcheck");
    reveal_strlit("logoff");
    reveal_strlit("dollar");
    reveal_strlit("euro");
    reveal_strlit("frameback");
    reveal_strlit("frameforward");
    reveal_strlit("context_menu");
    reveal_strlit("media_repeat");
    reveal_strlit("10channelsup");
    reveal_strlit("10channelsdown");
    reveal_strlit("images");
    reveal_strlit("notification_center");
    reveal_strlit("pickup_phone");
    reveal_strlit("hangup_phone");
    reveal_strlit("link_phone");
}

proof fn lemma_code_rests_1_448(code: u16)
    ensures
        spec_codes_1_448(code) is Some ==> spec_codes_1_448(code).unwrap().1.len() > 0 && spec_codes_1_448(code).unwrap().1[0] != '%',
{
    reveal_strlit("del_eol");
    reveal_strlit("del_eos");
    reveal_strlit("ins_line");
    reveal_strlit("del_line");
    reveal_strlit("fn");
    reveal_strlit("fn_esc");
    reveal_strlit("fn_f1");
    reveal_strlit("fn_f2");
    reveal_strlit("fn_f3");
    reveal_strlit("fn_f4");
    reveal_strlit("fn_f5");
    reveal_strlit("fn_f6");
    reveal_strlit("fn_f7");
    reveal_strlit("fn_f8");
    reveal_strlit("fn_f9");
    reveal_strlit("fn_f10");
    reveal_strlit("fn_f11");
    reveal_strlit("fn_f12");
    reveal_strlit("fn_1");
    reveal_strlit("fn_2");
    reveal_strlit("fn_d");
    reveal_strlit("fn_e");
    reveal_strlit("fn_f");
    reveal_strlit("fn_s");
    reveal_strlit("fn_b");
    reveal_strlit("fn_right_shift");
    reveal_strlit("brl_dot1");
    reveal_strlit("brl_dot2");
    reveal_strlit("brl_dot3");
    reveal_strlit("brl_dot4");
    reveal_strlit("brl_dot5");
    reveal_strlit("brl_dot6");
    reveal_strlit("brl_dot7");
    reveal_strlit("brl_dot8");
    reveal_strlit("brl_dot9");
    reveal_strlit("brl_dot10");
}

proof fn lemma_code_rests_1_512(code: u16)
    ensures
        spec_codes_1_512(code) is Some ==> spec_codes_1_512(code).unwrap().1.len() > 0 && spec_codes_1_512(code).unwrap().1[0] != '%',
{
    reveal_strlit("numeric_0");
    reveal_strlit("numeric_1");
    reveal_strlit("numeric_2");
    reveal_strlit("numeric_3");
    reveal_strlit("numeric_4");
    reveal_strlit("numeric_5");
    reveal_strlit("numeric_6");
    reveal_strlit("numeric_7");
    reveal_strlit("numeric_8");
    reveal_strlit("numeric_9");
    reveal_strlit("numeric_star");
    reveal_strlit("numeric_pound");
    reveal_strlit("numeric_a");
    reveal_strlit("numeric_b");
    reveal_strlit("numeric_c");
    reveal_strlit("numeric_d");
    reveal_strlit("camera_focus");
    reveal_strlit("wps_button");
    reveal_strlit("touchpad_toggle");
    reveal_strlit("touchpad_on");
    reveal_strlit("touchpad_off");
    reveal_strlit("camera_zoomin");
    reveal_strlit("camera_zoomout");
    reveal_strlit("camera_up");
    reveal_strlit("camera_down");
    reveal_strlit("camera_left");
    reveal_strlit("camera_right");
    reveal_strlit("attendant_on");
    reveal_strlit("attendant_off");
    reveal_strlit("attendant_toggle");
    reveal_strlit("lights_toggle");
    reveal_strlit("dpad_up");
    reveal_strlit("dpad_down");
    reveal_strlit("dpad_left");
    reveal_strlit("dpad_right");
    reveal_strlit("als_toggle");
    reveal_strlit("rotate_lock_toggle");
    reveal_strlit("refresh_rate_toggle");
}

proof fn lemma_code_rests_1_576(code: u16)
    ensures
        spec_codes_1_576(code) is Some ==> spec_codes_1_576(code).unwrap().1.len() > 0 && spec_codes_1_576(code).unwrap().1[0] != '%',
{
    reveal_strlit("buttonconfig");
    reveal_strlit("taskmanager");
    reveal_strlit("journal");
    reveal_strlit("controlpanel");
    reveal_strlit("appselect");
    reveal_strlit("screensaver");
    reveal_strlit("voicecommand");
    reveal_strlit("assistant");
    reveal_strlit("kbd_layout_next");
    reveal_strlit("emoji_picker");
    reveal_strlit("dictate");
    reveal_strlit("brightness_min");
    reveal_strlit("brightness_max");
    reveal_strlit("kbdinputassist_prev");
    reveal_strlit("kbdinputassist_next");
    reveal_strlit("kbdinputassist_prevgroup");
    reveal_strlit("kbdinputassist_nextgroup");
    reveal_strlit("kbdinputassist_accept");
    reveal_strlit("kbdinputassist_cancel");
    reveal_strlit("right_up");
    reveal_strlit("right_down");
    reveal_strlit("left_up");
    reveal_strlit("left_down");
    reveal_strlit("root_menu");
    reveal_strlit("media_top_menu");
    reveal_strlit("numeric_11");
    reveal_strlit("numeric_12");
    reveal_strlit("audio_desc");
    reveal_strlit("3d_mode");
    reveal_strlit("next_favorite");
    reveal_strlit("stop_record");
    reveal_strlit("pause_record");
    reveal_strlit("vod");
    reveal_strlit("unmute");
    reveal_strlit("fastreverse");
    reveal_strlit("slowreverse");
    reveal_strlit("data");
    reveal_strlit("onscreen_keyboard");
    reveal_strlit("privacy_screen_toggle");
    reveal_strlit("selective_screenshot");
    reveal_strlit("next_element");
    reveal_strlit("previous_element");
    reveal_strlit("autopilot_engage_toggle");
    reveal_strlit("mark_waypoint");
    reveal_strlit("sos");
}

proof fn lemma_code_rests_1_640(code: u16)
    ensures
        spec_codes_1_640(code) is Some ==> spec_codes_1_640(code).unwrap().1.len() > 0 && spec_codes_1_640(code).unwrap().1[0] != '%',
{
    reveal_strlit("nav_chart");
    reveal_strlit("fishing_chart");
    reveal_strlit("single_range_radar");
    reveal_strlit("dual_range_radar");
    reveal_strlit("radar_overlay");
    reveal_strlit("traditional_sonar");
    reveal_strlit("clearvu_sonar");
    reveal_strlit("sidevu_sonar");
    reveal_strlit("nav_info");
    reveal_strlit("brightness_menu");
    reveal_strlit("macro1");
    reveal_strlit("macro2");
    reveal_strlit("macro3");
    reveal_strlit("macro4");
    reveal_strlit("macro5");
    reveal_strlit("macro6");
    reveal_strlit("macro7");
    reveal_strlit("macro8");
    reveal_strlit("macro9");
    reveal_strlit("macro10");
    reveal_strlit("macro11");
    reveal_strlit("macro12");
    reveal_strlit("macro13");
    reveal_strlit("macro14");
    reveal_strlit("macro15");
    reveal_strlit("macro16");
    reveal_strlit("macro17");
    reveal_strlit("macro18");
    reveal_strlit("macro19");
    reveal_strlit("macro20");
    reveal_strlit("macro21");
    reveal_strlit("macro22");
    reveal_strlit("macro23");
    reveal_strlit("macro24");
    reveal_strlit("macro25");
    reveal_strlit("macro26");
    reveal_strlit("macro27");
    reveal_strlit("macro28");
    reveal_strlit("macro29");
    reveal_strlit("macro30");
    reveal_strlit("macro_record_start");
    reveal_strlit("macro_record_stop");
    reveal_strlit("macro_preset_cycle");
    reveal_strlit("macro_preset1");
    reveal_strlit("macro_preset2");
    reveal_strlit("macro_preset3");
    reveal_strlit("kbd_lcd_menu1");
    reveal_strlit("kbd_lcd_menu2");
    reveal_strlit("kbd_lcd_menu3");
    reveal_strlit("kbd_lcd_menu4");
    reveal_strlit("kbd_lcd_menu5");
}

proof fn lemma_code_rests_1_704(code: u16)
    ensures
        spec_codes_1_704(code) is Some ==> spec_codes_1_704(code).unwrap().1.len() > 0 && spec_codes_1_704(code).unwrap().1[0] != '%',
{
    reveal_strlit("trigger_happy1");
    reveal_strlit("trigger_happy2");
    reveal_strlit("trigger_happy3");
    reveal_strlit("trigger_happy4");
    reveal_strlit("trigger_happy5");
    reveal_strlit("trigger_happy6");
    reveal_strlit("trigger_happy7");
    reveal_strlit("trigger_happy8");
    reveal_strlit("trigger_happy9");
    reveal_strlit("trigger_happy10");
    reveal_strlit("trigger_happy11");
    reveal_strlit("trigger_happy12");
    reveal_strlit("trigger_happy13");
    reveal_strlit("trigger_happy14");
    reveal_strlit("trigger_happy15");
    reveal_strlit("trigger_happy16");
    reveal_strlit("trigger_happy17");
    reveal_strlit("trigger_happy18");
    reveal_strlit("trigger_happy19");
    reveal_strlit("trigger_happy20");
    reveal_strlit("trigger_happy21");
    reveal_strlit("trigger_happy22");
    reveal_strlit("trigger_happy23");
    reveal_strlit("trigger_happy24");
    reveal_strlit("trigger_happy25");
    reveal_strlit("trigger_happy26");
    reveal_strlit("trigger_happy27");
    reveal_strlit("trigger_happy28");
    reveal_strlit("trigger_happy29");
    reveal_strlit("trigger_happy30");
    reveal_strlit("trigger_happy31");
    reveal_strlit("trigger_happy32");
    reveal_strlit("trigger_happy33");
    reveal_strlit("trigger_happy34");
    reveal_strlit("trigger_happy35");
    reveal_strlit("trigger_happy36");
    reveal_strlit("trigger_happy37");
    reveal_strlit("trigger_happy38");
    reveal_strlit("trigger_happy39");
    reveal_strlit("trigger_happy40");
    reveal_strlit("max");
}

proof fn lemma_code_rests_2_0(code: u16)
    ensures
        spec_codes_2_0(code) is Some ==> spec_codes_2_0(code).unwrap().1.len() > 0 && spec_codes_2_0(code).unwrap().1[0] != '%',
{
    reveal_strlit("x");
    reveal_strlit("y");
    reveal_strlit("z");
    reveal_strlit("rx");
    reveal_strlit("ry");
    reveal_strlit("rz");
    reveal_strlit("hwheel");
    reveal_strlit("dial");
    reveal_strlit("wheel");
    reveal_strlit("misc");
    reveal_strlit("reserved");
    reveal_strlit("wheel_hi_res");
    reveal_strlit("hwheel_hi_res");
    reveal_strlit("max");
}

proof fn lemma_code_rests_3_0(code: u16)
    ensures
        spec_codes_3_0(code) is Some ==> spec_codes_3_0(code).unwrap().1.len() > 0 && spec_codes_3_0(code).unwrap().1[0] != '%',
{
    reveal_strlit("x");
    reveal_strlit("y");
    reveal_strlit("z");
    reveal_strlit("rx");
    reveal_strlit("ry");
    reveal_strlit("rz");
    reveal_strlit("throttle");
    reveal_strlit("rudder");
    reveal_strlit("wheel");
    reveal_strlit("gas");
    reveal_strlit("brake");
    reveal_strlit("hat0x");
    reveal_strlit("hat0y");
    reveal_strlit("hat1x");
    reveal_strlit("hat1y");
    reveal_strlit("hat2x");
    reveal_strlit("hat2y");
    reveal_strlit("hat3x");
    reveal_strlit("hat3y");
    reveal_strlit("pressure");
    reveal_strlit("distance");
    reveal_strlit("tilt_x");
    reveal_strlit("tilt_y");
    reveal_strlit("tool_width");
    reveal_strlit("volume");
    reveal_strlit("profile");
    reveal_strlit("misc");
    reveal_strlit("reserved");
    reveal_strlit("mt_slot");
    reveal_strlit("mt_touch_major");
    reveal_strlit("mt_touch_minor");
    reveal_strlit("mt_width_major");
    reveal_strlit("mt_width_minor");
    reveal_strlit("mt_orientation");
    reveal_strlit("mt_position_x");
    reveal_strlit("mt_position_y");
    reveal_strlit("mt_tool_type");
    reveal_strlit("mt_blob_id");
    reveal_strlit("mt_tracking_id");
    reveal_strlit("mt_pressure");
    reveal_strlit("mt_distance");
    reveal_strlit("mt_tool_x");
    reveal_strlit("mt_tool_y");
    reveal_strlit("max");
}

proof fn lemma_code_rests_4_0(code: u16)
    ensures
        spec_codes_4_0(code) is Some ==> spec_codes_4_0(code).unwrap().1.len() > 0 && spec_codes_4_0(code).unwrap().1[0] != '%',
{
    reveal_strlit("serial");
    reveal_strlit("pulseled");
    reveal_strlit("gesture");
    reveal_strlit("raw");
    reveal_strlit("scan");
    reveal_strlit("timestamp");
    reveal_strlit("max");
}

proof fn lemma_code_rests_5_0(code: u16)
    ensures
        spec_codes_5_0(code) is Some ==> spec_codes_5_0(code).unwrap().1.len() > 0 && spec_codes_5_0(code).unwrap().1[0] != '%',
{
    reveal_strlit("lid");
    reveal_strlit("tablet_mode");
    reveal_strlit("headphone_insert");
    reveal_strlit("rfkill_all");
    reveal_strlit("microphone_insert");
    reveal_strlit("dock");
    reveal_strlit("lineout_insert");
    reveal_strlit("jack_physical_insert");
    reveal_strlit("videoout_insert");
    reveal_strlit("camera_lens_cover");
    reveal_strlit("keypad_slide");
    reveal_strlit("front_proximity");
    reveal_strlit("rotate_lock");
    reveal_strlit("linein_insert");
    reveal_strlit("mute_device");
    reveal_strlit("pen_inserted");
    reveal_strlit("machine_cover");
}

proof fn lemma_code_rests_17_0(code: u16)
    ensures
        spec_codes_17_0(code) is Some ==> spec_codes_17_0(code).unwrap().1.len() > 0 && spec_codes_17_0(code).unwrap().1[0] != '%',
{
    reveal_strlit("numl");
    reveal_strlit("capsl");
    reveal_strlit("scrolll");
    reveal_strlit("compose");
    reveal_strlit("kana");
    reveal_strlit("sleep");
    reveal_strlit("suspend");
    reveal_strlit("mute");
    reveal_strlit("misc");
    reveal_strlit("mail");
    reveal_strlit("charging");
    reveal_strlit("max");
}

proof fn lemma_code_rests_18_0(code: u16)
    ensures
        spec_codes_18_0(code) is Some ==> spec_codes_18_0(code).unwrap().1.len() > 0 && spec_codes_18_0(code).unwrap().1[0] != '%',
{
    reveal_strlit("click");
    reveal_strlit("bell");
    reveal_strlit("tone");
    reveal_strlit("max");
}

proof fn lemma_code_rests_20_0(code: u16)
    ensures
        spec_codes_20_0(code) is Some ==> spec_codes_20_0(code).unwrap().1.len() > 0 && spec_codes_20_0(code).unwrap().1[0] != '%',
{
    reveal_strlit("delay");
    reveal_strlit("period");
}

proof fn lemma_code_rests_21_64(code: u16)
    ensures
        spec_codes_21_64(code) is Some ==> spec_codes_21_64(code).unwrap().1.len() > 0 && spec_codes_21_64(code).unwrap().1[0] != '%',
{
    reveal_strlit("rumble");
    reveal_strlit("periodic");
    reveal_strlit("constant");
    reveal_strlit("spring");
    reveal_strlit("friction");
    reveal_strlit("damper");
    reveal_strlit("inertia");
    reveal_strlit("ramp");
    reveal_strlit("square");
    reveal_strlit("triangle");
    reveal_strlit("sine");
    reveal_strlit("saw_up");
    reveal_strlit("saw_down");
    reveal_strlit("custom");
    reveal_strlit("gain");
    reveal_strlit("autocenter");
    reveal_strlit("max");
}

/// No event code has a name whose part after the type starts with '%': a '%' always introduces
/// a number.
pub proof fn lemma_code_names_not_numeric(ev_type: u16, code: u16)
    ensures
        spec_code_entry(ev_type, code) is Some ==> spec_code_entry(ev_type, code).unwrap().1.len() > 0
            && spec_code_entry(ev_type, code).unwrap().1[0] != '%',
{
    if ev_type == 0u16 && 0u16 <= code && code < 64u16 {
        lemma_code_rests_0_0(code);
    } else if ev_type == 1u16 && 0u16 <= code && code < 64u16 {
        lemma_code_rests_1_0(code);
    } else if ev_type == 1u16 && 64u16 <= code && code < 128u16 {
        lemma_code_rests_1_64(code);
    } else if ev_type == 1u16 && 128u16 <= code && code < 192u16 {
        lemma_code_rests_1_128(code);
    } else if ev_type == 1u16 && 192u16 <= code && code < 256u16 {
        lemma_code_rests_1_192(code);
    } else if ev_type == 1u16 && 256u16 <= code && code < 320u16 {
        lemma_code_rests_1_256(code);
    } else if ev_type == 1u16 && 320u16 <= code && code < 384u16 {
        lemma_code_rests_1_320(code);
    } else if ev_type == 1u16 && 384u16 <= code && code < 448u16 {
        lemma_code_rests_1_384(code);
    } else if ev_type == 1u16 && 448u16 <= code && code < 512u16 {
        lemma_code_rests_1_448(code);
    } else if ev_type == 1u16 && 512u16 <= code && code < 576u16 {
        lemma_code_rests_1_512(code);
    } else if ev_type == 1u16 && 576u16 <= code && code < 640u16 {
        lemma_code_rests_1_576(code);
    } else if ev_type == 1u16 && 640u16 <= code && code < 704u16 {
        lemma_code_rests_1_640(code);
    } else if ev_type == 1u16 && 704u16 <= code && code < 768u16 {
        lemma_code_rests_1_704(code);
    } else if ev_type == 2u16 && 0u16 <= code && code < 64u16 {
        lemma_code_rests_2_0(code);
    } else if ev_type == 3u16 && 0u16 <= code && code < 64u16 {
        lemma_code_rests_3_0(code);
    } else if ev_type == 4u16 && 0u16 <= code && code < 64u16 {
        lemma_code_rests_4_0(code);
    } else if ev_type == 5u16 && 0u16 <= code && code < 64u16 {
        lemma_code_rests_5_0(code);
    } else if ev_type == 17u16 && 0u16 <= code && code < 64u16 {
        lemma_code_rests_17_0(code);
    } else if ev_type == 18u16 && 0u16 <= code && code < 64u16 {
        lemma_code_rests_18_0(code);
    } else if ev_type == 20u16 && 0u16 <= code && code < 64u16 {
        lemma_code_rests_20_0(code);
    } else if ev_type == 21u16 && 64u16 <= code && code < 128u16 {
        lemma_code_rests_21_64(code);
    } else {
    }
}

} // verus!
