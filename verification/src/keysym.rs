//! Key names, characters and the keysyms they stand for.

use vstd::prelude::*;
use vstd::string::*;

use crate::error::{KeyError, KeyErrorView};
use crate::key;
use crate::keyspec;
use crate::text;

verus! {

/// Key names and the names of the keysyms they stand for. Lookup drops the
/// underscores of what it looks for, so `page_up` finds `pageup`.
pub const CU_KEY_NAMES: [(&'static str, &'static str); 19] = [
    ("enter", "Return"),
    ("return", "Return"),
    ("backspace", "BackSpace"),
    ("delete", "Delete"),
    ("escape", "Escape"),
    ("esc", "Escape"),
    ("tab", "Tab"),
    ("space", "space"),
    ("up", "Up"),
    ("down", "Down"),
    ("left", "Left"),
    ("right", "Right"),
    ("home", "Home"),
    ("end", "End"),
    ("pageup", "Prior"),
    ("page_up", "Prior"),
    ("pagedown", "Next"),
    ("page_down", "Next"),
    ("capslock", "Caps_Lock"),
];

/// Keysym names and keysym values. Names match case and all.
pub const KEYSYM_NAMES: [(&'static str, u32); 54] = [
    ("Control_L", key::CONTROL_L),
    ("Control_R", key::CONTROL_R),
    ("Shift_L", key::SHIFT_L),
    ("Shift_R", key::SHIFT_R),
    ("Alt_L", key::ALT_L),
    ("Alt_R", key::ALT_R),
    ("Super_L", key::SUPER_L),
    ("Super_R", key::SUPER_R),
    ("Meta_L", key::META_L),
    ("Meta_R", key::META_R),
    ("Caps_Lock", key::CAPS_LOCK),
    ("Num_Lock", key::NUM_LOCK),
    ("Return", key::RETURN),
    ("BackSpace", key::BACKSPACE),
    ("Delete", key::DELETE),
    ("Escape", key::ESCAPE),
    ("Tab", key::TAB),
    ("space", key::SPACE),
    ("Up", key::UP),
    ("Down", key::DOWN),
    ("Left", key::LEFT),
    ("Right", key::RIGHT),
    ("Home", key::HOME),
    ("End", key::END),
    ("Prior", key::PRIOR),
    ("Next", key::NEXT),
    ("Insert", key::INSERT),
    ("Menu", key::MENU),
    ("Print", key::PRINT),
    ("Pause", key::PAUSE),
    ("F1", key::F1),
    ("F2", key::F2),
    ("F3", key::F3),
    ("F4", key::F4),
    ("F5", key::F5),
    ("F6", key::F6),
    ("F7", key::F7),
    ("F8", key::F8),
    ("F9", key::F9),
    ("F10", key::F10),
    ("F11", key::F11),
    ("F12", key::F12),
    ("F13", key::F13),
    ("F14", key::F14),
    ("F15", key::F15),
    ("F16", key::F16),
    ("F17", key::F17),
    ("F18", key::F18),
    ("F19", key::F19),
    ("F20", key::F20),
    ("F21", key::F21),
    ("F22", key::F22),
    ("F23", key::F23),
    ("F24", key::F24),
];

/// What `xkeysym::Keysym::from_char` gives for a character, as a raw value.
pub uninterp spec fn xkeysym_from_char(ch: char) -> u32;

/// What `xkeysym::Keysym::name` gives for a raw keysym value.
pub uninterp spec fn xkeysym_name(keysym: u32) -> Option<Seq<char>>;

/// The code points that Unicode keeps for internal use.
pub open spec fn is_noncharacter(c: u32) -> bool {
    0xfdd0 <= c <= 0xfdef || c % 0x10000 >= 0xfffe
}

/// The printable characters of Basic Latin and Latin-1.
pub open spec fn is_latin1_printable(c: u32) -> bool {
    0x20 <= c <= 0x7e || 0xa0 <= c <= 0xff
}

/// What is known of the keysym that the keysym crate gives for a code point,
/// outside the range that its table of older keysyms covers.
pub open spec fn char_keysym_facts(c: u32, keysym: u32) -> bool {
    if is_latin1_printable(c) {
        keysym == c
    } else if 0x08 <= c <= 0x0b || c == 0x0d || c == 0x1b {
        keysym == c + 0xff00
    } else if c == 0x7f {
        keysym == key::DELETE
    } else if is_noncharacter(c) {
        keysym == key::NO_SYMBOL
    } else {
        ||| keysym == c + 0x0100_0000
        ||| 0x100 <= c <= 0x318e && 0x1a1 <= keysym <= 0x20ac
    }
}

/// A character that an XKB symbol name may hold.
pub open spec fn is_symbol_char(c: char) -> bool {
    ||| '0' <= c <= '9'
    ||| 'A' <= c <= 'Z'
    ||| 'a' <= c <= 'z'
    ||| c == '_'
}

/// A text that can stand as a symbol name: a word of letters, digits and underscores.
pub open spec fn is_symbol_text(s: Seq<char>) -> bool {
    &&& s.len() > 0
    &&& forall|i: int| 0 <= i < s.len() ==> is_symbol_char(#[trigger] s[i])
}

/// Whether `i` is the first place of the key-name table that holds `word`.
pub open spec fn is_key_entry(word: Seq<char>, i: int) -> bool {
    &&& 0 <= i < CU_KEY_NAMES@.len()
    &&& CU_KEY_NAMES@[i].0@ == word
    &&& forall|j: int| 0 <= j < i ==> (#[trigger] CU_KEY_NAMES@[j]).0@ != word
}

/// Whether `i` is the first place of the keysym table that holds the name.
pub open spec fn is_name_entry(name: Seq<char>, i: int) -> bool {
    &&& 0 <= i < KEYSYM_NAMES@.len()
    &&& KEYSYM_NAMES@[i].0@ == name
    &&& forall|j: int| 0 <= j < i ==> (#[trigger] KEYSYM_NAMES@[j]).0@ != name
}

/// Whether `i` is the first place of the keysym table that holds the value.
pub open spec fn is_value_entry(keysym: u32, i: int) -> bool {
    &&& 0 <= i < KEYSYM_NAMES@.len()
    &&& KEYSYM_NAMES@[i].1 == keysym
    &&& forall|j: int| 0 <= j < i ==> (#[trigger] KEYSYM_NAMES@[j]).1 != keysym
}

/// The keysym name that the key-name table gives for a normalized word.
pub open spec fn key_target(word: Seq<char>) -> Option<Seq<char>> {
    if exists|i: int| is_key_entry(word, i) {
        Some(CU_KEY_NAMES@[choose|i: int| is_key_entry(word, i)].1@)
    } else {
        None
    }
}

/// The value of a keysym name in the keysym table.
pub open spec fn named_value(name: Seq<char>) -> Option<u32> {
    if exists|i: int| is_name_entry(name, i) {
        Some(KEYSYM_NAMES@[choose|i: int| is_name_entry(name, i)].1)
    } else {
        None
    }
}

/// The name of a keysym value in the keysym table.
pub open spec fn value_name(keysym: u32) -> Option<Seq<char>> {
    if exists|i: int| is_value_entry(keysym, i) {
        Some(KEYSYM_NAMES@[choose|i: int| is_value_entry(keysym, i)].0@)
    } else {
        None
    }
}

/// The keysym name that a key name stands for: that of a modifier, `space` for
/// a blank, the entry of the key-name table, and else the trimmed name itself.
pub open spec fn resolved_name(name: Seq<char>) -> Seq<char> {
    match keyspec::modifier_of(name) {
        Some(modifier) => modifier.name(),
        None => if name == " "@ {
            "space"@
        } else {
            match key_target(keyspec::normalized(name)) {
                Some(target) => target,
                None => text::trim(name),
            }
        },
    }
}

/// The keysym of a character for which the keysym crate gives `named`, an answer
/// that counts up to U+00FF.
pub open spec fn char_keysym(ch: char, named: u32) -> Result<u32, KeyErrorView> {
    if ch == '\n' || ch == '\r' {
        Ok(key::RETURN)
    } else if ch == '\t' {
        Ok(key::TAB)
    } else if ch as u32 <= 0xff && named != key::NO_SYMBOL {
        Ok(named)
    } else if ch == '\0' {
        Err(KeyErrorView::NulCharacter)
    } else {
        Ok((0x0100_0000 + ch as u32) as u32)
    }
}

/// The keysym of a character: Return for a line end and Tab for a tab, the key of a
/// few other control characters, the code point of a printable character of Basic
/// Latin or Latin-1, and the Unicode keysym of any other.
pub open spec fn keysym_of_char(ch: char) -> u32 {
    let c = ch as u32;
    if ch == '\n' || ch == '\r' {
        key::RETURN
    } else if ch == '\t' {
        key::TAB
    } else if is_latin1_printable(c) {
        c
    } else if c == 0x08 || c == 0x0b || c == 0x1b {
        (0xff00 + c) as u32
    } else if c == 0x7f {
        key::DELETE
    } else {
        (0x0100_0000 + c) as u32
    }
}

/// The keysym that a key name stands for.
pub open spec fn keysym_of_name(name: Seq<char>) -> Result<u32, KeyErrorView> {
    let resolved = resolved_name(name);
    match named_value(resolved) {
        Some(value) => Ok(value),
        None => if resolved.len() == 1 {
            Ok(keysym_of_char(resolved[0]))
        } else {
            Err(KeyErrorView::UnsupportedKey { name, resolved })
        },
    }
}

/// Whether a key name stands for no keysym: it resolves to no name of the table
/// and is not a single character.
pub open spec fn is_unsupported(name: Seq<char>) -> bool {
    named_value(resolved_name(name)) is None && resolved_name(name).len() != 1
}

/// A keysym crate name without its `XK_` prefix, where it has one.
pub open spec fn without_prefix(name: Seq<char>) -> Seq<char> {
    if name.len() >= 3 && name.take(3) == "XK_"@ {
        name.skip(3)
    } else {
        name
    }
}

/// The symbol name of a keysym to which the keysym crate gives the name `named`.
pub open spec fn symbol_from(keysym: u32, named: Option<Seq<char>>) -> Seq<char> {
    match value_name(keysym) {
        Some(name) => name,
        None => if keysym / 0x0100_0000 == 1 {
            "U"@ + text::hex((keysym % 0x0100_0000) as nat, 4)
        } else {
            match named {
                Some(name) => without_prefix(name),
                None => "U"@ + text::hex(keysym as nat, 4),
            }
        },
    }
}

/// The symbol name of a keysym, as it stands in an `xkb_symbols` section.
pub open spec fn symbol_of(keysym: u32) -> Seq<char> {
    symbol_from(keysym, xkeysym_name(keysym))
}

/// Calls `xkeysym::Keysym::from_char` and takes the raw value of what it gives.
///
/// Printable Basic Latin and Latin-1 keep their code point, a few control
/// characters have a key of their own, noncharacters have no symbol, and every
/// other character has the Unicode keysym 0x01000000 + code point, unless it is
/// one of the characters from U+0100 to U+318E for which the crate's table lists
/// an older keysym (0x01a1 to 0x20ac). Which of those the table lists is not said.
#[verifier::external_body]
fn keysym_from_char(ch: char) -> (r: u32)
    ensures
        r == xkeysym_from_char(ch),
        char_keysym_facts(ch as u32, r),
{
    xkeysym::Keysym::from_char(ch).raw()
}

/// Calls `xkeysym::Keysym::name` on a raw value.
///
/// The name comes from a fixed table of words of letters, digits and
/// underscores, all of them longer than three characters.
#[verifier::external_body]
fn keysym_crate_name(keysym: u32) -> (r: Option<&'static str>)
    ensures
        match r {
            Some(name) => xkeysym_name(keysym) == Some(name@) && is_symbol_text(name@)
                && name@.len() > 3,
            None => xkeysym_name(keysym) is None,
        },
{
    xkeysym::Keysym::new(keysym).name()
}

/// The keysym name that the key-name table gives for a normalized word.
pub fn find_key_target(word: &str) -> (r: Option<&'static str>)
    ensures
        match r {
            Some(target) => key_target(word@) == Some(target@),
            None => key_target(word@) is None,
        },
{
    let mut i: usize = 0;
    while i < 19
        invariant
            i <= 19,
            forall|j: int| 0 <= j < i ==> (#[trigger] CU_KEY_NAMES@[j]).0@ != word@,
        decreases 19 - i,
    {
        if text::same_text(CU_KEY_NAMES[i].0, word) {
            proof {
                assert(is_key_entry(word@, i as int));
                let k = choose|k: int| is_key_entry(word@, k);
                if k < i {
                    assert(CU_KEY_NAMES@[k].0@ != word@);
                }
                if i < k {
                    assert(CU_KEY_NAMES@[i as int].0@ != word@);
                }
            }
            return Some(CU_KEY_NAMES[i].1);
        }
        i = i + 1;
    }
    None
}

/// The value of a keysym name in the keysym table.
pub fn find_named_value(name: &str) -> (r: Option<u32>)
    ensures
        r == named_value(name@),
{
    let mut i: usize = 0;
    while i < 54
        invariant
            i <= 54,
            forall|j: int| 0 <= j < i ==> (#[trigger] KEYSYM_NAMES@[j]).0@ != name@,
        decreases 54 - i,
    {
        if text::same_text(KEYSYM_NAMES[i].0, name) {
            proof {
                assert(is_name_entry(name@, i as int));
                let k = choose|k: int| is_name_entry(name@, k);
                if k < i {
                    assert(KEYSYM_NAMES@[k].0@ != name@);
                }
                if i < k {
                    assert(KEYSYM_NAMES@[i as int].0@ != name@);
                }
            }
            return Some(KEYSYM_NAMES[i].1);
        }
        i = i + 1;
    }
    None
}

/// The name of a keysym value in the keysym table.
pub fn find_value_name(keysym: u32) -> (r: Option<&'static str>)
    ensures
        match r {
            Some(name) => value_name(keysym) == Some(name@),
            None => value_name(keysym) is None,
        },
{
    let mut i: usize = 0;
    while i < 54
        invariant
            i <= 54,
            forall|j: int| 0 <= j < i ==> (#[trigger] KEYSYM_NAMES@[j]).1 != keysym,
        decreases 54 - i,
    {
        if KEYSYM_NAMES[i].1 == keysym {
            proof {
                assert(is_value_entry(keysym, i as int));
                let k = choose|k: int| is_value_entry(keysym, k);
                if k < i {
                    assert(KEYSYM_NAMES@[k].1 != keysym);
                }
                if i < k {
                    assert(KEYSYM_NAMES@[i as int].1 != keysym);
                }
            }
            return Some(KEYSYM_NAMES[i].0);
        }
        i = i + 1;
    }
    None
}

/// Resolves a key name (or literal character) to its keysym name.
///
/// Known key names map to their keysym name, modifiers to that of their left-hand
/// key and a blank to `space`; anything else passes through, trimmed.
pub fn keysym_name(name: &str) -> (r: Result<String, KeyError>)
    ensures
        r matches Ok(resolved) && resolved@ == resolved_name(name@),
{
    if let Some(modifier) = keyspec::modifier_keysym_name(name) {
        return Ok(modifier.to_owned());
    }
    if text::same_text(name, " ") {
        return Ok("space".to_owned());
    }
    let word = keyspec::normalize_token(name);
    if let Some(target) = find_key_target(word.as_str()) {
        return Ok(target.to_owned());
    }
    Ok(text::trimmed(name))
}

/// The keysym of a character for which the keysym crate gives `named`.
///
/// A line end is Return and a tab is Tab. Up to U+00FF the crate's answer is taken
/// where it is a symbol; any other character has the Unicode keysym, 0x01000000 with
/// the code point in its low bits.
pub fn keysym_for_char_named(ch: char, named: u32) -> (r: Result<u32, KeyError>)
    ensures
        match r {
            Ok(keysym) => char_keysym(ch, named) == Ok::<u32, KeyErrorView>(keysym),
            Err(e) => char_keysym(ch, named) == Err::<u32, KeyErrorView>(e@),
        },
{
    if ch == '\n' || ch == '\r' {
        return Ok(key::RETURN);
    }
    if ch == '\t' {
        return Ok(key::TAB);
    }
    let cp: u32 = ch as u32;
    if cp <= 0xff && named != key::NO_SYMBOL {
        return Ok(named);
    }
    if cp == 0 {
        return Err(KeyError::NulCharacter);
    }
    assert(cp < 0x0100_0000u32 ==> (0x0100_0000u32 | cp) == 0x0100_0000u32 + cp) by (bit_vector);
    Ok(0x0100_0000 | cp)
}

/// Maps a character to its keysym.
///
/// Printable Basic Latin and Latin-1 characters have their code point for keysym,
/// `\n` and `\r` are Return, `\t` is Tab, and a few other control characters have a
/// key of their own. Everything else has the Unicode keysym, 0x01000000 with the code
/// point in its low bits, which every XKB-based compositor accepts. No character is
/// refused.
pub fn keysym_for_char(ch: char) -> (r: Result<u32, KeyError>)
    ensures
        r == Ok::<u32, KeyError>(keysym_of_char(ch)),
        char_keysym(ch, xkeysym_from_char(ch)) == Ok::<u32, KeyErrorView>(keysym_of_char(ch)),
        char_keysym_facts(ch as u32, xkeysym_from_char(ch)),
        is_latin1_printable(ch as u32) ==> r == Ok::<u32, KeyError>(ch as u32),
        ch as u32 > 0xff ==> r == Ok::<u32, KeyError>((0x0100_0000 + ch as u32) as u32),
{
    keysym_for_char_named(ch, keysym_from_char(ch))
}

/// Resolves a token (key name, modifier, literal character or keysym name) to a
/// keysym value.
pub fn keysym_for_name(name: &str) -> (r: Result<u32, KeyError>)
    ensures
        match r {
            Ok(keysym) => keysym_of_name(name@) == Ok::<u32, KeyErrorView>(keysym),
            Err(e) => keysym_of_name(name@) == Err::<u32, KeyErrorView>(e@),
        },
        r is Err <==> is_unsupported(name@),
        resolved_name(name@).len() == 1 && is_latin1_printable(resolved_name(name@)[0] as u32)
            ==> r == Ok::<u32, KeyError>(resolved_name(name@)[0] as u32),
        resolved_name(name@).len() == 1 && resolved_name(name@)[0] as u32 > 0xff ==> r == Ok::<
            u32,
            KeyError,
        >((0x0100_0000 + resolved_name(name@)[0] as u32) as u32),
{
    proof {
        lemma_names_are_long(resolved_name(name@));
    }
    let resolved = match keysym_name(name) {
        Ok(resolved) => resolved,
        Err(e) => return Err(e),
    };
    if let Some(value) = find_named_value(resolved.as_str()) {
        return Ok(value);
    }
    let chars = text::chars_of(resolved.as_str());
    if chars.len() == 1 {
        return keysym_for_char(chars[0]);
    }
    Err(KeyError::UnsupportedKey { name: name.to_owned(), resolved })
}

/// Appends a name without its `XK_` prefix, where it has one.
pub fn push_without_prefix(out: &mut String, name: &str)
    ensures
        final(out)@ == old(out)@ + without_prefix(name@),
{
    let chars = text::chars_of(name);
    proof {
        reveal_strlit("XK_");
    }
    if chars.len() >= 3 && chars[0] == 'X' && chars[1] == 'K' && chars[2] == '_' {
        assert(name@.take(3) =~= "XK_"@);
        out.append(text::string_of(&chars, 3, chars.len()).as_str());
    } else {
        assert(name@.len() >= 3 && name@.take(3) == "XK_"@ ==> name@[0] == name@.take(3)[0]
            && name@[1] == name@.take(3)[1] && name@[2] == name@.take(3)[2]);
        out.append(name);
    }
}

/// The symbol name of a keysym to which the keysym crate gives the name `named`.
///
/// A keysym of the table goes by its name there, a Unicode keysym by `U` and the
/// code point in four or more hexadecimal digits; the rest go by the crate's name,
/// or else by `U` and their value.
pub fn xkb_symbol_name_from(keysym: u32, named: Option<&str>) -> (r: String)
    ensures
        r@ == symbol_from(
            keysym,
            match named {
                Some(name) => Some(name@),
                None => None,
            },
        ),
{
    if let Some(name) = find_value_name(keysym) {
        return name.to_owned();
    }
    let mut out = String::new();
    assert((keysym & 0xff00_0000 == 0x0100_0000) == (keysym / 0x0100_0000 == 1)) by (bit_vector);
    assert((keysym & 0x00ff_ffff) == keysym % 0x0100_0000) by (bit_vector);
    if keysym & 0xff00_0000 == 0x0100_0000 {
        let cp: u32 = keysym & 0x00ff_ffff;
        out.append("U");
        text::push_hex(&mut out, cp, 4);
        return out;
    }
    if let Some(name) = named {
        push_without_prefix(&mut out, name);
        return out;
    }
    out.append("U");
    text::push_hex(&mut out, keysym, 4);
    out
}

/// The symbol name of a keysym, as it must appear inside an `xkb_symbols`
/// section (`Return`, `a`, `U00E9`, `U1F600`).
pub fn xkb_symbol_name(keysym: u32) -> (r: String)
    ensures
        r@ == symbol_of(keysym),
        is_symbol_text(r@),
{
    let named = keysym_crate_name(keysym);
    proof {
        lemma_symbol_text(
            keysym,
            match named {
                Some(name) => Some(name@),
                None => None,
            },
        );
    }
    xkb_symbol_name_from(keysym, named)
}

/// Every hexadecimal numeral is a word of digits and capitals.
pub proof fn lemma_hex_symbol_text(n: nat, width: nat)
    ensures
        is_symbol_text(text::hex(n, width)),
    decreases n, width,
{
    if !(n < 16 && width <= 1) {
        lemma_hex_symbol_text(n / 16, if width == 0 { 0 } else { (width - 1) as nat });
    }
}

/// Every name of the keysym table is a word of letters, digits and underscores,
/// of more than one character.
pub proof fn lemma_table_symbol_text(i: int)
    requires
        0 <= i < KEYSYM_NAMES@.len(),
    ensures
        is_symbol_text(KEYSYM_NAMES@[i].0@),
        KEYSYM_NAMES@[i].0@.len() > 1,
{
    reveal_strlit("Control_L");
    reveal_strlit("Control_R");
    reveal_strlit("Shift_L");
    reveal_strlit("Shift_R");
    reveal_strlit("Alt_L");
    reveal_strlit("Alt_R");
    reveal_strlit("Super_L");
    reveal_strlit("Super_R");
    reveal_strlit("Meta_L");
    reveal_strlit("Meta_R");
    reveal_strlit("Caps_Lock");
    reveal_strlit("Num_Lock");
    reveal_strlit("Return");
    reveal_strlit("BackSpace");
    reveal_strlit("Delete");
    reveal_strlit("Escape");
    reveal_strlit("Tab");
    reveal_strlit("space");
    reveal_strlit("Up");
    reveal_strlit("Down");
    reveal_strlit("Left");
    reveal_strlit("Right");
    reveal_strlit("Home");
    reveal_strlit("End");
    reveal_strlit("Prior");
    reveal_strlit("Next");
    reveal_strlit("Insert");
    reveal_strlit("Menu");
    reveal_strlit("Print");
    reveal_strlit("Pause");
    reveal_strlit("F1");
    reveal_strlit("F2");
    reveal_strlit("F3");
    reveal_strlit("F4");
    reveal_strlit("F5");
    reveal_strlit("F6");
    reveal_strlit("F7");
    reveal_strlit("F8");
    reveal_strlit("F9");
    reveal_strlit("F10");
    reveal_strlit("F11");
    reveal_strlit("F12");
    reveal_strlit("F13");
    reveal_strlit("F14");
    reveal_strlit("F15");
    reveal_strlit("F16");
    reveal_strlit("F17");
    reveal_strlit("F18");
    reveal_strlit("F19");
    reveal_strlit("F20");
    reveal_strlit("F21");
    reveal_strlit("F22");
    reveal_strlit("F23");
    reveal_strlit("F24");
}

/// A symbol name is a word of letters, digits and underscores, provided that the
/// keysym crate's name is one and is more than a prefix.
pub proof fn lemma_symbol_text(keysym: u32, named: Option<Seq<char>>)
    requires
        named matches Some(name) ==> is_symbol_text(name) && name.len() > 3,
    ensures
        is_symbol_text(symbol_from(keysym, named)),
{
    reveal_strlit("U");
    lemma_hex_symbol_text(keysym as nat, 4);
    lemma_hex_symbol_text((keysym % 0x0100_0000) as nat, 4);
    if exists|i: int| is_value_entry(keysym, i) {
        lemma_table_symbol_text(choose|i: int| is_value_entry(keysym, i));
    }
}

/// No name of the keysym table is a single character.
pub proof fn lemma_names_are_long(name: Seq<char>)
    ensures
        named_value(name) is Some ==> name.len() > 1,
{
    if exists|i: int| is_name_entry(name, i) {
        lemma_table_symbol_text(choose|i: int| is_name_entry(name, i));
    }
}

} // verus!
