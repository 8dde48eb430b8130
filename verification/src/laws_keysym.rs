//! What holds of key names, characters and symbol names, name by name.

use vstd::prelude::*;

use crate::error::KeyErrorView;
use crate::keyspec;
use crate::keyspec::Modifier;
use crate::keysym;
use crate::laws;
use crate::laws_text;
use crate::text;

verus! {

/// The keysym names that are known, and what they stand for.
pub const KEYSYM_VALUES: [(&'static str, u32); 54] = [
    ("Control_L", 0xffe3),
    ("Control_R", 0xffe4),
    ("Shift_L", 0xffe1),
    ("Shift_R", 0xffe2),
    ("Alt_L", 0xffe9),
    ("Alt_R", 0xffea),
    ("Super_L", 0xffeb),
    ("Super_R", 0xffec),
    ("Meta_L", 0xffe7),
    ("Meta_R", 0xffe8),
    ("Caps_Lock", 0xffe5),
    ("Num_Lock", 0xff7f),
    ("Return", 0xff0d),
    ("BackSpace", 0xff08),
    ("Delete", 0xffff),
    ("Escape", 0xff1b),
    ("Tab", 0xff09),
    ("space", 0x20),
    ("Up", 0xff52),
    ("Down", 0xff54),
    ("Left", 0xff51),
    ("Right", 0xff53),
    ("Home", 0xff50),
    ("End", 0xff57),
    ("Prior", 0xff55),
    ("Next", 0xff56),
    ("Insert", 0xff63),
    ("Menu", 0xff67),
    ("Print", 0xff61),
    ("Pause", 0xff13),
    ("F1", 0xffbe),
    ("F2", 0xffbf),
    ("F3", 0xffc0),
    ("F4", 0xffc1),
    ("F5", 0xffc2),
    ("F6", 0xffc3),
    ("F7", 0xffc4),
    ("F8", 0xffc5),
    ("F9", 0xffc6),
    ("F10", 0xffc7),
    ("F11", 0xffc8),
    ("F12", 0xffc9),
    ("F13", 0xffca),
    ("F14", 0xffcb),
    ("F15", 0xffcc),
    ("F16", 0xffcd),
    ("F17", 0xffce),
    ("F18", 0xffcf),
    ("F19", 0xffd0),
    ("F20", 0xffd1),
    ("F21", 0xffd2),
    ("F22", 0xffd3),
    ("F23", 0xffd4),
    ("F24", 0xffd5),
];

/// The key names that are known, without underscores: the keysym name that each one
/// stands for, and the keysym.
pub const KEY_NAMES: [(&'static str, &'static str, u32); 17] = [
    ("enter", "Return", 0xff0d),
    ("return", "Return", 0xff0d),
    ("backspace", "BackSpace", 0xff08),
    ("delete", "Delete", 0xffff),
    ("escape", "Escape", 0xff1b),
    ("esc", "Escape", 0xff1b),
    ("tab", "Tab", 0xff09),
    ("space", "space", 0x20),
    ("up", "Up", 0xff52),
    ("down", "Down", 0xff54),
    ("left", "Left", 0xff51),
    ("right", "Right", 0xff53),
    ("home", "Home", 0xff50),
    ("end", "End", 0xff57),
    ("pageup", "Prior", 0xff55),
    ("pagedown", "Next", 0xff56),
    ("capslock", "Caps_Lock", 0xffe5),
];

/// The known keysym names stand for their values, and the values go by these names.
pub proof fn law_keysym_values(i: int)
    requires
        0 <= i < KEYSYM_VALUES@.len(),
    ensures
        keysym::named_value(KEYSYM_VALUES@[i].0@) == Some(KEYSYM_VALUES@[i].1),
        keysym::value_name(KEYSYM_VALUES@[i].1) == Some(KEYSYM_VALUES@[i].0@),
        keysym::symbol_of(KEYSYM_VALUES@[i].1) == KEYSYM_VALUES@[i].0@,
{
    laws::law_table_both_ways(i);
    assert(keysym::KEYSYM_NAMES@[i].0@ == KEYSYM_VALUES@[i].0@);
    assert(keysym::KEYSYM_NAMES@[i].1 == KEYSYM_VALUES@[i].1);
}

/// No other name stands for a value, and no other value goes by such a name.
pub proof fn law_no_other_keysym_names(name: Seq<char>, value: u32)
    ensures
        keysym::named_value(name) is Some ==> exists|i: int|
            0 <= i < KEYSYM_VALUES@.len() && (#[trigger] KEYSYM_VALUES@[i]).0@ == name,
        keysym::value_name(value) is Some ==> exists|i: int|
            0 <= i < KEYSYM_VALUES@.len() && (#[trigger] KEYSYM_VALUES@[i]).1 == value,
{
    if keysym::named_value(name) is Some {
        let i = choose|i: int| keysym::is_name_entry(name, i);
        assert(keysym::KEYSYM_NAMES@[i].0@ == KEYSYM_VALUES@[i].0@);
        assert(KEYSYM_VALUES@[i].0@ == name);
    }
    if keysym::value_name(value) is Some {
        let i = choose|i: int| keysym::is_value_entry(value, i);
        assert(keysym::KEYSYM_NAMES@[i].1 == KEYSYM_VALUES@[i].1);
        assert(KEYSYM_VALUES@[i].1 == value);
    }
}

/// The place of a known key name in the table.
spec fn table_place(j: int) -> int {
    if j == 0 {
        0
    } else if j == 1 {
        1
    } else if j == 2 {
        2
    } else if j == 3 {
        3
    } else if j == 4 {
        4
    } else if j == 5 {
        5
    } else if j == 6 {
        6
    } else if j == 7 {
        7
    } else if j == 8 {
        8
    } else if j == 9 {
        9
    } else if j == 10 {
        10
    } else if j == 11 {
        11
    } else if j == 12 {
        12
    } else if j == 13 {
        13
    } else if j == 14 {
        14
    } else if j == 15 {
        16
    } else {
        18
    }
}

/// The place of a known key name's keysym among the keysym values.
spec fn value_place(j: int) -> int {
    if j == 0 {
        12
    } else if j == 1 {
        12
    } else if j == 2 {
        13
    } else if j == 3 {
        14
    } else if j == 4 {
        15
    } else if j == 5 {
        15
    } else if j == 6 {
        16
    } else if j == 7 {
        17
    } else if j == 8 {
        18
    } else if j == 9 {
        19
    } else if j == 10 {
        20
    } else if j == 11 {
        21
    } else if j == 12 {
        22
    } else if j == 13 {
        23
    } else if j == 14 {
        24
    } else if j == 15 {
        25
    } else {
        10
    }
}

/// No key name stands twice in the table.
proof fn lemma_key_names_differ(i: int, j: int)
    requires
        0 <= i < j < keysym::CU_KEY_NAMES@.len(),
    ensures
        keysym::CU_KEY_NAMES@[i].0@ != keysym::CU_KEY_NAMES@[j].0@,
{
    reveal_strlit("enter");
    reveal_strlit("return");
    reveal_strlit("backspace");
    reveal_strlit("delete");
    reveal_strlit("escape");
    reveal_strlit("esc");
    reveal_strlit("tab");
    reveal_strlit("space");
    reveal_strlit("up");
    reveal_strlit("down");
    reveal_strlit("left");
    reveal_strlit("right");
    reveal_strlit("home");
    reveal_strlit("end");
    reveal_strlit("pageup");
    reveal_strlit("page_up");
    reveal_strlit("pagedown");
    reveal_strlit("page_down");
    reveal_strlit("capslock");
    let a = keysym::CU_KEY_NAMES@[i].0@;
    let b = keysym::CU_KEY_NAMES@[j].0@;
    if a == b {
        assert(a.len() == b.len());
        assert(a[0] == b[0]);
        assert(a[1] == b[1]);
        assert(a[2] == b[2] || a.len() <= 2);
        assert(a[a.len() - 2] == b[b.len() - 2]);
        assert(a[a.len() - 1] == b[b.len() - 1]);
        assert(false);
    }
}

/// A known key name is no modifier word, nor a blank.
proof fn lemma_key_name_is_no_modifier(name: Seq<char>, j: int)
    requires
        0 <= j < KEY_NAMES@.len(),
        keyspec::normalized(name) == KEY_NAMES@[j].0@,
    ensures
        keyspec::modifier_of(name) is None,
{
    reveal_strlit("enter");
    reveal_strlit("return");
    reveal_strlit("backspace");
    reveal_strlit("delete");
    reveal_strlit("escape");
    reveal_strlit("esc");
    reveal_strlit("tab");
    reveal_strlit("space");
    reveal_strlit("up");
    reveal_strlit("down");
    reveal_strlit("left");
    reveal_strlit("right");
    reveal_strlit("home");
    reveal_strlit("end");
    reveal_strlit("pageup");
    reveal_strlit("page_up");
    reveal_strlit("pagedown");
    reveal_strlit("page_down");
    reveal_strlit("capslock");
    reveal_strlit("ctrl");
    reveal_strlit("control");
    reveal_strlit("shift");
    reveal_strlit("alt");
    reveal_strlit("super");
    reveal_strlit("meta");
    reveal_strlit("cmd");
    reveal_strlit("command");
    let a = KEY_NAMES@[j].0@;
    assert(a.len() >= 2);
    let m = keyspec::modifier_of(name);
    if m is Some {
        assert(a[0] == "ctrl"@[0] || a[0] == "shift"@[0] || a[0] == "alt"@[0] || a[0]
            == "meta"@[0]);
        assert(a[1] == "ctrl"@[1] || a[1] == "control"@[1] || a[1] == "shift"@[1] || a[1]
            == "alt"@[1] || a[1] == "super"@[1] || a[1] == "meta"@[1] || a[1] == "cmd"@[1] || a[1]
            == "command"@[1]);
        assert(false);
    }
}

/// A known key name, in any case and with any underscores, stands for its keysym.
pub proof fn law_key_names(name: Seq<char>, j: int)
    requires
        0 <= j < KEY_NAMES@.len(),
        keyspec::normalized(name) == KEY_NAMES@[j].0@,
    ensures
        keysym::resolved_name(name) == KEY_NAMES@[j].1@,
        keysym::keysym_of_name(name) == Ok::<u32, KeyErrorView>(KEY_NAMES@[j].2),
{
    lemma_key_name_is_no_modifier(name, j);
    lemma_blank_is_nothing(name);
    let t = table_place(j);
    let v = value_place(j);
    let word = KEY_NAMES@[j].0@;
    assert(keysym::CU_KEY_NAMES@[t].0@ == word);
    assert(keysym::CU_KEY_NAMES@[t].1@ == KEY_NAMES@[j].1@);
    lemma_key_target_at(t);
    law_keysym_values(v);
    assert(KEYSYM_VALUES@[v].0@ == KEY_NAMES@[j].1@);
    assert(KEYSYM_VALUES@[v].1 == KEY_NAMES@[j].2);
    lemma_key_words_are_not_empty(j);
}

proof fn lemma_key_words_are_not_empty(j: int)
    requires
        0 <= j < KEY_NAMES@.len(),
    ensures
        KEY_NAMES@[j].0@.len() > 0,
{
    reveal_strlit("enter");
    reveal_strlit("return");
    reveal_strlit("backspace");
    reveal_strlit("delete");
    reveal_strlit("escape");
    reveal_strlit("esc");
    reveal_strlit("tab");
    reveal_strlit("space");
    reveal_strlit("up");
    reveal_strlit("down");
    reveal_strlit("left");
    reveal_strlit("right");
    reveal_strlit("home");
    reveal_strlit("end");
    reveal_strlit("pageup");
    reveal_strlit("page_up");
    reveal_strlit("pagedown");
    reveal_strlit("page_down");
    reveal_strlit("capslock");
}

/// A blank is looked up as the empty word.
proof fn lemma_blank_is_nothing(name: Seq<char>)
    ensures
        name == " "@ ==> keyspec::normalized(name).len() == 0,
{
    reveal_strlit(" ");
    if name == " "@ {
        laws_text::law_normalized(name);
        assert(text::is_white_space(name.first()));
        assert(text::trim(name.drop_first()).len() == 0);
        assert(text::trim(name).len() == 0);
    }
}

/// A token that names a modifier stands for the modifier's left-hand key.
pub proof fn law_modifier_names(name: Seq<char>)
    ensures
        keyspec::modifier_of(name) == Some(Modifier::Control) ==> keysym::resolved_name(name)
            == "Control_L"@ && keysym::keysym_of_name(name) == Ok::<u32, KeyErrorView>(0xffe3),
        keyspec::modifier_of(name) == Some(Modifier::Shift) ==> keysym::resolved_name(name)
            == "Shift_L"@ && keysym::keysym_of_name(name) == Ok::<u32, KeyErrorView>(0xffe1),
        keyspec::modifier_of(name) == Some(Modifier::Alt) ==> keysym::resolved_name(name)
            == "Alt_L"@ && keysym::keysym_of_name(name) == Ok::<u32, KeyErrorView>(0xffe9),
        keyspec::modifier_of(name) == Some(Modifier::Super) ==> keysym::resolved_name(name)
            == "Super_L"@ && keysym::keysym_of_name(name) == Ok::<u32, KeyErrorView>(0xffeb),
{
    if keyspec::modifier_of(name) is Some {
        laws::law_modifier_keysym(name);
    }
}

/// A single blank is the space bar.
pub proof fn law_blank()
    ensures
        keysym::resolved_name(" "@) == "space"@,
        keysym::keysym_of_name(" "@) == Ok::<u32, KeyErrorView>(0x20),
{
    lemma_blank_is_nothing(" "@);
    reveal_strlit("ctrl");
    reveal_strlit("control");
    reveal_strlit("shift");
    reveal_strlit("alt");
    reveal_strlit("super");
    reveal_strlit("meta");
    reveal_strlit("cmd");
    reveal_strlit("command");
    law_keysym_values(17);
    assert(KEYSYM_VALUES@[17].0@ == "space"@);
}

/// Any other name passes through, trimmed.
pub proof fn law_other_names(name: Seq<char>)
    requires
        keyspec::modifier_of(name) is None,
        name != " "@,
        forall|j: int|
            0 <= j < KEY_NAMES@.len() ==> (#[trigger] KEY_NAMES@[j]).0@ != keyspec::normalized(name),
    ensures
        keysym::resolved_name(name) == text::trim(name),
{
    let word = keyspec::normalized(name);
    if keysym::key_target(word) is Some {
        let i = choose|i: int| keysym::is_key_entry(word, i);
        assert(keysym::CU_KEY_NAMES@[i].0@ == word);
        if i == 15 || i == 17 {
            laws_text::law_normalized(name);
            reveal_strlit("page_up");
            reveal_strlit("page_down");
            assert(word[4] == '_');
        } else {
            let j = if i < 15 {
                i
            } else if i == 16 {
                15
            } else {
                16
            };
            assert(KEY_NAMES@[j].0@ == word);
        }
    }
}

/// What a resolved name stands for: the value of a known keysym name, else the keysym
/// of its only character, else nothing, and then both names are reported.
pub proof fn law_keysym_of_name(name: Seq<char>)
    ensures
        ({
            let resolved = keysym::resolved_name(name);
            let known = exists|i: int|
                0 <= i < KEYSYM_VALUES@.len() && (#[trigger] KEYSYM_VALUES@[i]).0@ == resolved;
            &&& forall|i: int|
                0 <= i < KEYSYM_VALUES@.len() && (#[trigger] KEYSYM_VALUES@[i]).0@ == resolved
                    ==> keysym::keysym_of_name(name) == Ok::<u32, KeyErrorView>(
                    KEYSYM_VALUES@[i].1,
                )
            &&& resolved.len() == 1 ==> keysym::keysym_of_name(name) == Ok::<u32, KeyErrorView>(
                keysym::keysym_of_char(resolved[0]),
            )
            &&& !known && resolved.len() != 1 ==> keysym::keysym_of_name(name) == Err::<
                u32,
                KeyErrorView,
            >(KeyErrorView::UnsupportedKey { name, resolved })
            &&& keysym::is_unsupported(name) <==> !known && resolved.len() != 1
        }),
{
    let resolved = keysym::resolved_name(name);
    law_no_other_keysym_names(resolved, 0);
    keysym::lemma_names_are_long(resolved);
    assert forall|i: int|
        0 <= i < KEYSYM_VALUES@.len() && (#[trigger] KEYSYM_VALUES@[i]).0@
            == resolved implies keysym::named_value(resolved) == Some(KEYSYM_VALUES@[i].1) by {
        law_keysym_values(i);
    }
}

/// The keysym of a character, range by range.
pub proof fn law_char_keysyms(ch: char)
    ensures
        0x20 <= ch as u32 <= 0x7e || 0xa0 <= ch as u32 <= 0xff ==> keysym::keysym_of_char(ch)
            == ch as u32,
        ch == '\n' || ch == '\r' ==> keysym::keysym_of_char(ch) == 0xff0d,
        ch == '\t' ==> keysym::keysym_of_char(ch) == 0xff09,
        ch as u32 == 0x08 ==> keysym::keysym_of_char(ch) == 0xff08,
        ch as u32 == 0x0b ==> keysym::keysym_of_char(ch) == 0xff0b,
        ch as u32 == 0x1b ==> keysym::keysym_of_char(ch) == 0xff1b,
        ch as u32 == 0x7f ==> keysym::keysym_of_char(ch) == 0xffff,
        ch as u32 > 0xff ==> keysym::keysym_of_char(ch) == 0x0100_0000 + ch as u32,
        0x80 <= ch as u32 <= 0x9f || ch as u32 <= 0x07 || ch as u32 == 0x0c || 0x0e <= ch as u32
            <= 0x1a || 0x1c <= ch as u32 <= 0x1f ==> keysym::keysym_of_char(ch) == 0x0100_0000
            + ch as u32,
{
}

/// What is made of the keysym crate's answer for a character: it counts up to U+00FF,
/// where it is a symbol and the character is neither a line end nor a tab. A NUL
/// without a symbol is refused, and every other character has the Unicode keysym.
pub proof fn law_char_keysym_named(ch: char, named: u32)
    ensures
        ch == '\n' || ch == '\r' ==> keysym::char_keysym(ch, named) == Ok::<u32, KeyErrorView>(0xff0d),
        ch == '\t' ==> keysym::char_keysym(ch, named) == Ok::<u32, KeyErrorView>(0xff09),
        ch != '\n' && ch != '\r' && ch != '\t' && ch as u32 <= 0xff && named != 0
            ==> keysym::char_keysym(ch, named) == Ok::<u32, KeyErrorView>(named),
        ch as u32 == 0 && named == 0 ==> keysym::char_keysym(ch, named) == Err::<u32, KeyErrorView>(
            KeyErrorView::NulCharacter,
        ),
        ch as u32 > 0xff || ch as u32 != 0 && named == 0 && ch != '\n' && ch != '\r' && ch != '\t'
            ==> keysym::char_keysym(ch, named) == Ok::<u32, KeyErrorView>(
            (0x0100_0000 + ch as u32) as u32,
        ),
{
}

/// The symbol name of a keysym, told by what the keysym crate calls it: a known value
/// goes by its known name, a Unicode keysym by `U` and a numeral of four or more digits
/// that is worth the code point; the rest go by the crate's name, less the letters `XK_`
/// in front, or by `U` and their own numeral.
pub proof fn law_symbol_names(keysym: u32, named: Option<Seq<char>>, rest: Seq<char>)
    ensures
        ({
            let symbol = keysym::symbol_from(keysym, named);
            let known = exists|i: int|
                0 <= i < KEYSYM_VALUES@.len() && (#[trigger] KEYSYM_VALUES@[i]).1 == keysym;
            let unicode = 0x0100_0000 <= keysym < 0x0200_0000;
            &&& forall|i: int|
                0 <= i < KEYSYM_VALUES@.len() && (#[trigger] KEYSYM_VALUES@[i]).1 == keysym
                    ==> symbol == KEYSYM_VALUES@[i].0@
            &&& !known && (unicode || named is None) ==> {
                &&& symbol.len() >= 5
                &&& symbol[0] == 'U'
                &&& laws_text::numeral_value(symbol.skip(1), 16) == if unicode {
                    keysym - 0x0100_0000
                } else {
                    keysym as int
                }
                &&& symbol.len() > 5 ==> symbol[1] != '0'
                &&& forall|i: int|
                    1 <= i < symbol.len() ==> ('0' <= #[trigger] symbol[i] <= '9' || 'A'
                        <= symbol[i] <= 'F')
            }
            &&& !known && !unicode && named == Some(seq!['X', 'K', '_'] + rest) ==> symbol == rest
            &&& keysym::symbol_of(keysym) == keysym::symbol_from(
                keysym,
                keysym::xkeysym_name(keysym),
            )
            &&& !known && !unicode && named == Some(rest) && !(rest.len() >= 3 && rest[0] == 'X'
                && rest[1] == 'K' && rest[2] == '_') ==> symbol == rest
        }),
{
    let symbol = keysym::symbol_from(keysym, named);
    law_no_other_keysym_names(Seq::<char>::empty(), keysym);
    assert forall|i: int|
        0 <= i < KEYSYM_VALUES@.len() && (#[trigger] KEYSYM_VALUES@[i]).1
            == keysym implies keysym::value_name(keysym) == Some(KEYSYM_VALUES@[i].0@) by {
        law_keysym_values(i);
    }
    reveal_strlit("U");
    reveal_strlit("XK_");
    laws_text::law_hex_value(keysym as nat, 4);
    laws_text::law_hex_value((keysym % 0x0100_0000) as nat, 4);
    if keysym::value_name(keysym) is None {
        if 0x0100_0000 <= keysym < 0x0200_0000 || named is None {
            let value: nat = if 0x0100_0000 <= keysym < 0x0200_0000 {
                (keysym % 0x0100_0000) as nat
            } else {
                keysym as nat
            };
            let digits = text::hex(value, 4);
            assert(symbol == "U"@ + digits);
            assert(symbol.skip(1) =~= digits);
            assert forall|i: int| 1 <= i < symbol.len() implies ('0' <= #[trigger] symbol[i] <= '9'
                || 'A' <= symbol[i] <= 'F') by {
                assert(symbol[i] == digits[i - 1]);
            }
            assert(symbol[1] == digits[0]);
        } else {
            let whole = seq!['X', 'K', '_'] + rest;
            assert(whole.take(3) =~= "XK_"@);
            assert(whole.skip(3) =~= rest);
            if rest.len() >= 3 && rest.take(3) == "XK_"@ {
                assert(rest[0] == rest.take(3)[0]);
                assert(rest[1] == rest.take(3)[1]);
                assert(rest[2] == rest.take(3)[2]);
            }
        }
    }
}

/// The letters `XK_` go from the front of a name, once; any other name stays whole.
pub proof fn law_without_prefix(name: Seq<char>)
    ensures
        keysym::without_prefix(seq!['X', 'K', '_'] + name) == name,
        !(name.len() >= 3 && name[0] == 'X' && name[1] == 'K' && name[2] == '_')
            ==> keysym::without_prefix(name) == name,
{
    reveal_strlit("XK_");
    let whole = seq!['X', 'K', '_'] + name;
    assert(whole.take(3) =~= "XK_"@);
    assert(whole.skip(3) =~= name);
    if name.len() >= 3 && name.take(3) == "XK_"@ {
        assert(name[0] == name.take(3)[0]);
        assert(name[1] == name.take(3)[1]);
        assert(name[2] == name.take(3)[2]);
    }
}

/// What the table of key names says of a word: the known key names, and the two that it
/// also lists with an underscore, have their keysym names, and no other word has one.
pub proof fn law_key_targets(word: Seq<char>, j: int)
    requires
        0 <= j < KEY_NAMES@.len(),
    ensures
        keysym::key_target(KEY_NAMES@[j].0@) == Some(KEY_NAMES@[j].1@),
        keysym::key_target("page_up"@) == Some("Prior"@),
        keysym::key_target("page_down"@) == Some("Next"@),
        keysym::key_target(word) is Some ==> word == "page_up"@ || word == "page_down"@
            || exists|k: int| 0 <= k < KEY_NAMES@.len() && (#[trigger] KEY_NAMES@[k]).0@ == word,
{
    lemma_key_target_at(table_place(j));
    assert(keysym::CU_KEY_NAMES@[table_place(j)].0@ == KEY_NAMES@[j].0@);
    assert(keysym::CU_KEY_NAMES@[table_place(j)].1@ == KEY_NAMES@[j].1@);
    lemma_key_target_at(15);
    assert(keysym::CU_KEY_NAMES@[15].0@ == "page_up"@);
    lemma_key_target_at(17);
    assert(keysym::CU_KEY_NAMES@[17].0@ == "page_down"@);
    if keysym::key_target(word) is Some {
        let i = choose|i: int| keysym::is_key_entry(word, i);
        if i != 15 && i != 17 {
            let k = if i < 15 {
                i
            } else if i == 16 {
                15
            } else {
                16
            };
            assert(KEY_NAMES@[k].0@ == word);
        }
    }
}

proof fn lemma_key_target_at(t: int)
    requires
        0 <= t < keysym::CU_KEY_NAMES@.len(),
    ensures
        keysym::key_target(keysym::CU_KEY_NAMES@[t].0@) == Some(keysym::CU_KEY_NAMES@[t].1@),
{
    let word = keysym::CU_KEY_NAMES@[t].0@;
    assert forall|k: int| 0 <= k < t implies (#[trigger] keysym::CU_KEY_NAMES@[k]).0@ != word by {
        lemma_key_names_differ(k, t);
    }
    assert(keysym::is_key_entry(word, t));
    let chosen = choose|i: int| keysym::is_key_entry(word, i);
    if chosen < t {
        lemma_key_names_differ(chosen, t);
    }
    if t < chosen {
        lemma_key_names_differ(t, chosen);
    }
}

} // verus!
