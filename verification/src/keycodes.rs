//! Virtual key codes of the ANSI keyboard, and the keys and modifiers they stand for.
use vstd::prelude::*;

use crate::key::{Key, Modifier, is_key_name};

verus! {

/// The key name of a virtual key code on the ANSI layout.
pub open spec fn keycode_name(code: u16) -> Option<Seq<char>> {
    if code == 0 {
        Some("a"@)
    } else if code == 1 {
        Some("s"@)
    } else if code == 2 {
        Some("d"@)
    } else if code == 3 {
        Some("f"@)
    } else if code == 4 {
        Some("h"@)
    } else if code == 5 {
        Some("g"@)
    } else if code == 6 {
        Some("z"@)
    } else if code == 7 {
        Some("x"@)
    } else if code == 8 {
        Some("c"@)
    } else if code == 9 {
        Some("v"@)
    } else if code == 11 {
        Some("b"@)
    } else if code == 12 {
        Some("q"@)
    } else if code == 13 {
        Some("w"@)
    } else if code == 14 {
        Some("e"@)
    } else if code == 15 {
        Some("r"@)
    } else if code == 16 {
        Some("y"@)
    } else if code == 17 {
        Some("t"@)
    } else if code == 18 {
        Some("1"@)
    } else if code == 19 {
        Some("2"@)
    } else if code == 20 {
        Some("3"@)
    } else if code == 21 {
        Some("4"@)
    } else if code == 22 {
        Some("6"@)
    } else if code == 23 {
        Some("5"@)
    } else if code == 24 {
        Some("equal"@)
    } else if code == 25 {
        Some("9"@)
    } else if code == 26 {
        Some("7"@)
    } else if code == 27 {
        Some("minus"@)
    } else if code == 28 {
        Some("8"@)
    } else if code == 29 {
        Some("0"@)
    } else if code == 30 {
        Some("right_bracket"@)
    } else if code == 31 {
        Some("o"@)
    } else if code == 32 {
        Some("u"@)
    } else if code == 33 {
        Some("left_bracket"@)
    } else if code == 34 {
        Some("i"@)
    } else if code == 35 {
        Some("p"@)
    } else if code == 36 {
        Some("enter"@)
    } else if code == 37 {
        Some("l"@)
    } else if code == 38 {
        Some("j"@)
    } else if code == 39 {
        Some("quote"@)
    } else if code == 40 {
        Some("k"@)
    } else if code == 41 {
        Some("semicolon"@)
    } else if code == 42 {
        Some("backslash"@)
    } else if code == 43 {
        Some("comma"@)
    } else if code == 44 {
        Some("slash"@)
    } else if code == 45 {
        Some("n"@)
    } else if code == 46 {
        Some("m"@)
    } else if code == 47 {
        Some("period"@)
    } else if code == 48 {
        Some("tab"@)
    } else if code == 49 {
        Some("space"@)
    } else if code == 50 {
        Some("grave"@)
    } else if code == 51 {
        Some("delete"@)
    } else if code == 53 {
        Some("escape"@)
    } else if code == 57 {
        Some("caps_lock"@)
    } else if code == 64 {
        Some("f17"@)
    } else if code == 79 {
        Some("f18"@)
    } else if code == 80 {
        Some("f19"@)
    } else if code == 90 {
        Some("f20"@)
    } else if code == 96 {
        Some("f5"@)
    } else if code == 97 {
        Some("f6"@)
    } else if code == 98 {
        Some("f7"@)
    } else if code == 99 {
        Some("f3"@)
    } else if code == 100 {
        Some("f8"@)
    } else if code == 101 {
        Some("f9"@)
    } else if code == 103 {
        Some("f11"@)
    } else if code == 105 {
        Some("f13"@)
    } else if code == 106 {
        Some("f16"@)
    } else if code == 107 {
        Some("f14"@)
    } else if code == 109 {
        Some("f10"@)
    } else if code == 111 {
        Some("f12"@)
    } else if code == 113 {
        Some("f15"@)
    } else if code == 115 {
        Some("home"@)
    } else if code == 116 {
        Some("page_up"@)
    } else if code == 117 {
        Some("forward_delete"@)
    } else if code == 118 {
        Some("f4"@)
    } else if code == 119 {
        Some("end"@)
    } else if code == 120 {
        Some("f2"@)
    } else if code == 121 {
        Some("page_down"@)
    } else if code == 122 {
        Some("f1"@)
    } else if code == 123 {
        Some("left"@)
    } else if code == 124 {
        Some("right"@)
    } else if code == 125 {
        Some("down"@)
    } else if code == 126 {
        Some("up"@)
    } else {
        None
    }
}

/// The rank of the physical modifier a virtual key code stands for.
pub open spec fn keycode_modifier_rank(code: u16) -> Option<nat> {
    if code == 54 {
        Some(3nat)
    } else if code == 55 {
        Some(2nat)
    } else if code == 56 {
        Some(11nat)
    } else if code == 58 {
        Some(8nat)
    } else if code == 59 {
        Some(5nat)
    } else if code == 60 {
        Some(12nat)
    } else if code == 61 {
        Some(9nat)
    } else if code == 62 {
        Some(6nat)
    } else if code == 63 {
        Some(13nat)
    } else {
        None
    }
}

fn keycode_text(code: u16) -> (r: Option<&'static str>)
    ensures
        match r {
            Some(t) => keycode_name(code) == Some(t@),
            None => keycode_name(code) is None,
        },
{
    let name = match code {
        0 => "a",
        1 => "s",
        2 => "d",
        3 => "f",
        4 => "h",
        5 => "g",
        6 => "z",
        7 => "x",
        8 => "c",
        9 => "v",
        11 => "b",
        12 => "q",
        13 => "w",
        14 => "e",
        15 => "r",
        16 => "y",
        17 => "t",
        18 => "1",
        19 => "2",
        20 => "3",
        21 => "4",
        22 => "6",
        23 => "5",
        24 => "equal",
        25 => "9",
        26 => "7",
        27 => "minus",
        28 => "8",
        29 => "0",
        30 => "right_bracket",
        31 => "o",
        32 => "u",
        33 => "left_bracket",
        34 => "i",
        35 => "p",
        36 => "enter",
        37 => "l",
        38 => "j",
        39 => "quote",
        40 => "k",
        41 => "semicolon",
        42 => "backslash",
        43 => "comma",
        44 => "slash",
        45 => "n",
        46 => "m",
        47 => "period",
        48 => "tab",
        49 => "space",
        50 => "grave",
        51 => "delete",
        53 => "escape",
        57 => "caps_lock",
        64 => "f17",
        79 => "f18",
        80 => "f19",
        90 => "f20",
        96 => "f5",
        97 => "f6",
        98 => "f7",
        99 => "f3",
        100 => "f8",
        101 => "f9",
        103 => "f11",
        105 => "f13",
        106 => "f16",
        107 => "f14",
        109 => "f10",
        111 => "f12",
        113 => "f15",
        115 => "home",
        116 => "page_up",
        117 => "forward_delete",
        118 => "f4",
        119 => "end",
        120 => "f2",
        121 => "page_down",
        122 => "f1",
        123 => "left",
        124 => "right",
        125 => "down",
        126 => "up",
        _ => return None,
    };
    Some(name)
}

/// The key a virtual key code stands for.
pub fn keycode_to_key(code: u16) -> (r: Option<Key>)
    ensures
        match r {
            Some(k) => keycode_name(code) == Some(k@),
            None => keycode_name(code) is None,
        },
{
    match keycode_text(code) {
        Some(name) => {
            proof {
                lemma_keycode_names_are_keys(code);
            }
            Key::from_static(name)
        },
        None => None,
    }
}

/// The virtual key code of a key.
pub fn key_to_keycode(key: &Key) -> (r: Result<u16, String>)
    ensures
        match r {
            Ok(code) => keycode_name(code) == Some(key@),
            Err(e) => (forall|code: u16| keycode_name(code) != Some(key@)) && e@ == "no macOS key code for `"@
                + key@ + "`"@,
        },
{
    let mut code: u16 = 0;
    while code < 128
        invariant
            code <= 128,
            forall|c: u16| c < code ==> keycode_name(c) != Some(key@),
        decreases 128 - code,
    {
        match keycode_text(code) {
            Some(name) => {
                if crate::text::str_eq(name, key.as_str()) {
                    return Ok(code);
                }
            },
            None => {},
        }
        code = code + 1;
    }
    proof {
        assert forall|c: u16| keycode_name(c) != Some(key@) by {
            if c >= 128 {
                assert(keycode_name(c) is None);
            }
        }
    }
    let mut e = crate::text::owned("no macOS key code for `");
    crate::text::push_str(&mut e, key.as_str());
    crate::text::push_str(&mut e, "`");
    Err(e)
}

/// The physical modifier a virtual key code stands for.
pub fn modifier_for_keycode(code: u16) -> (r: Option<Modifier>)
    ensures
        match r {
            Some(m) => keycode_modifier_rank(code) == Some(m@.0) && m@.1 == Seq::<char>::empty(),
            None => keycode_modifier_rank(code) is None,
        },
{
    match code {
        54 => Some(Modifier::RightCommand),
        55 => Some(Modifier::LeftCommand),
        56 => Some(Modifier::LeftShift),
        58 => Some(Modifier::LeftOption),
        59 => Some(Modifier::LeftControl),
        60 => Some(Modifier::RightShift),
        61 => Some(Modifier::RightOption),
        62 => Some(Modifier::RightControl),
        63 => Some(Modifier::Function),
        _ => None,
    }
}

/// Every name in the key code table is a key name.
pub proof fn lemma_keycode_names_are_keys(code: u16)
    ensures
        keycode_name(code) matches Some(n) ==> is_key_name(n),
{
    reveal_with_fuel(crate::key::decimal, 3);
    reveal_strlit("a");
    reveal_strlit("s");
    reveal_strlit("d");
    reveal_strlit("f");
    reveal_strlit("h");
    reveal_strlit("g");
    reveal_strlit("z");
    reveal_strlit("x");
    reveal_strlit("c");
    reveal_strlit("v");
    reveal_strlit("b");
    reveal_strlit("q");
    reveal_strlit("w");
    reveal_strlit("e");
    reveal_strlit("r");
    reveal_strlit("y");
    reveal_strlit("t");
    reveal_strlit("1");
    reveal_strlit("2");
    reveal_strlit("3");
    reveal_strlit("4");
    reveal_strlit("6");
    reveal_strlit("5");
    reveal_strlit("equal");
    reveal_strlit("9");
    reveal_strlit("7");
    reveal_strlit("minus");
    reveal_strlit("8");
    reveal_strlit("0");
    reveal_strlit("right_bracket");
    reveal_strlit("o");
    reveal_strlit("u");
    reveal_strlit("left_bracket");
    reveal_strlit("i");
    reveal_strlit("p");
    reveal_strlit("enter");
    reveal_strlit("l");
    reveal_strlit("j");
    reveal_strlit("quote");
    reveal_strlit("k");
    reveal_strlit("semicolon");
    reveal_strlit("backslash");
    reveal_strlit("comma");
    reveal_strlit("slash");
    reveal_strlit("n");
    reveal_strlit("m");
    reveal_strlit("period");
    reveal_strlit("tab");
    reveal_strlit("space");
    reveal_strlit("grave");
    reveal_strlit("delete");
    reveal_strlit("escape");
    reveal_strlit("caps_lock");
    reveal_strlit("f17");
    reveal_strlit("f18");
    reveal_strlit("f19");
    reveal_strlit("f20");
    reveal_strlit("f5");
    reveal_strlit("f6");
    reveal_strlit("f7");
    reveal_strlit("f3");
    reveal_strlit("f8");
    reveal_strlit("f9");
    reveal_strlit("f11");
    reveal_strlit("f13");
    reveal_strlit("f16");
    reveal_strlit("f14");
    reveal_strlit("f10");
    reveal_strlit("f12");
    reveal_strlit("f15");
    reveal_strlit("home");
    reveal_strlit("page_up");
    reveal_strlit("forward_delete");
    reveal_strlit("f4");
    reveal_strlit("end");
    reveal_strlit("f2");
    reveal_strlit("page_down");
    reveal_strlit("f1");
    reveal_strlit("left");
    reveal_strlit("right");
    reveal_strlit("down");
    reveal_strlit("up");
}

} // verus!
