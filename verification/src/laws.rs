//! What holds of the library as a whole.

use vstd::prelude::*;

use crate::key;
use crate::keyboard;
use crate::keyboard::{KeyAction, TypePlanView};
use crate::keymap;
use crate::keymap::KeymapView;
use crate::keyspec;
use crate::keyspec::{KeySpecView, Modifier};
use crate::keysym;
use crate::layout;
use crate::layout::KeyPlacement;
use crate::syntax;
use crate::text;

verus! {

/// Splitting loses nothing: the pieces joined again are the text, and no piece
/// holds a separator.
pub proof fn law_split_join(s: Seq<char>, sep: char)
    ensures
        text::split(s, sep).len() > 0,
        text::join(text::split(s, sep), sep) == s,
        forall|i: int|
            0 <= i < text::split(s, sep).len() ==> !(#[trigger] text::split(s, sep)[i]).contains(
                sep,
            ),
    decreases s.len(),
{
    let pieces = text::split(s, sep);
    if s.len() > 0 {
        let init = s.drop_last();
        let before = text::split(init, sep);
        law_split_join(init, sep);
        if s.last() == sep {
            assert(pieces.drop_last() =~= before);
            assert(text::join(pieces, sep) =~= init.push(sep));
        } else {
            let head = before.drop_last();
            let tail = before.last().push(s.last());
            assert(pieces.drop_last() =~= head);
            if before.len() == 1 {
                assert(text::join(pieces, sep) =~= before[0].push(s.last()));
            } else {
                assert(text::join(pieces, sep) =~= (text::join(head, sep).push(sep)
                    + before.last()).push(s.last()));
            }
            assert forall|i: int| 0 <= i < pieces.len() implies !(
            #[trigger] pieces[i]).contains(sep) by {
                if i < head.len() {
                    assert(pieces[i] == before[i]);
                } else {
                    let last = before.last();
                    assert(!before[before.len() - 1].contains(sep));
                    if pieces[i].contains(sep) {
                        let j = choose|j: int| 0 <= j < tail.len() && tail[j] == sep;
                        assert(last[j] == sep);
                    }
                }
            }
        }
        assert(s =~= init.push(s.last()));
    } else {
        assert(text::join(pieces, sep) =~= s);
    }
}

/// What is left after trimming has no white space at either end, and is a
/// stretch of the text with nothing but white space around it.
pub proof fn law_trim(s: Seq<char>) -> (at: int)
    ensures
        ({
            let t = text::trim(s);
            &&& t.len() > 0 ==> !text::is_white_space(t.first()) && !text::is_white_space(t.last())
            &&& 0 <= at <= at + t.len() <= s.len()
            &&& t == s.subrange(at, at + t.len())
            &&& forall|i: int| 0 <= i < at ==> text::is_white_space(#[trigger] s[i])
            &&& forall|i: int|
                at + t.len() <= i < s.len() ==> text::is_white_space(#[trigger] s[i])
        }),
    decreases s.len(),
{
    if s.len() == 0 {
        assert(s =~= s.subrange(0, 0));
        0
    } else if text::is_white_space(s.first()) {
        let rest = s.drop_first();
        let k = law_trim(rest);
        let t = text::trim(s);
        assert(t =~= s.subrange(k + 1, k + 1 + t.len()));
        assert forall|i: int| 0 <= i < k + 1 implies text::is_white_space(#[trigger] s[i]) by {
            if i > 0 {
                assert(rest[i - 1] == s[i]);
            }
        }
        assert forall|i: int| k + 1 + t.len() <= i < s.len() implies text::is_white_space(
            #[trigger] s[i],
        ) by {
            assert(rest[i - 1] == s[i]);
        }
        k + 1
    } else if text::is_white_space(s.last()) {
        let rest = s.drop_last();
        let k = law_trim(rest);
        let t = text::trim(s);
        assert(t =~= s.subrange(k, k + t.len()));
        assert forall|i: int| 0 <= i < k implies text::is_white_space(#[trigger] s[i]) by {
            assert(rest[i] == s[i]);
        }
        assert forall|i: int| k + t.len() <= i < s.len() implies text::is_white_space(
            #[trigger] s[i],
        ) by {
            if i < rest.len() {
                assert(rest[i] == s[i]);
            }
        }
        k
    } else {
        assert(s =~= s.subrange(0, s.len() as int));
        0
    }
}

/// Different numbers have different decimal numerals.
pub proof fn law_decimal_injective(a: nat, b: nat)
    requires
        text::decimal(a) == text::decimal(b),
    ensures
        a == b,
    decreases a,
{
    let x = text::decimal(a);
    let y = text::decimal(b);
    lemma_decimal_nonempty(a / 10);
    lemma_decimal_nonempty(b / 10);
    if a >= 10 && b >= 10 {
        assert(x.drop_last() =~= text::decimal(a / 10));
        assert(y.drop_last() =~= text::decimal(b / 10));
        law_decimal_injective(a / 10, b / 10);
        assert(x.last() == text::digit(a % 10));
        assert(y.last() == text::digit(b % 10));
    } else {
        assert(x.last() == text::digit(a % 10));
        assert(y.last() == text::digit(b % 10));
    }
}

proof fn lemma_decimal_nonempty(n: nat)
    ensures
        text::decimal(n).len() > 0,
{
}

/// Different numbers have different hexadecimal numerals of the same width.
pub proof fn law_hex_injective(a: nat, b: nat, width: nat)
    requires
        text::hex(a, width) == text::hex(b, width),
    ensures
        a == b,
    decreases a, width,
{
    let x = text::hex(a, width);
    let y = text::hex(b, width);
    let rest = if width == 0 { 0 } else { (width - 1) as nat };
    keysym::lemma_hex_symbol_text(a / 16, rest);
    keysym::lemma_hex_symbol_text(b / 16, rest);
    assert(x.last() == text::digit(a % 16));
    assert(y.last() == text::digit(b % 16));
    if !(a < 16 && width <= 1) && !(b < 16 && width <= 1) {
        assert(x.drop_last() =~= text::hex(a / 16, rest));
        assert(y.drop_last() =~= text::hex(b / 16, rest));
        law_hex_injective(a / 16, b / 16, rest);
    }
}

/// Lower case and trimming can be taken in either order.
proof fn lemma_trim_lowered(s: Seq<char>)
    ensures
        text::trim(text::lowered(s)) == text::lowered(text::trim(s)),
    decreases s.len(),
{
    let low = text::lowered(s);
    if s.len() > 0 {
        if text::is_white_space(s.first()) {
            assert(low.drop_first() =~= text::lowered(s.drop_first()));
            lemma_trim_lowered(s.drop_first());
        } else if text::is_white_space(s.last()) {
            assert(low.drop_last() =~= text::lowered(s.drop_last()));
            lemma_trim_lowered(s.drop_last());
        }
    }
}

/// The form under which a token is looked up does not depend on its case.
pub proof fn law_lookup_ignores_case(token: Seq<char>)
    ensures
        keyspec::normalized(text::lowered(token)) == keyspec::normalized(token),
        keyspec::modifier_of(text::lowered(token)) == keyspec::modifier_of(token),
        keyspec::names_modifier(text::lowered(token)) == keyspec::names_modifier(token),
{
    lemma_trim_lowered(token);
    let t = text::trim(token);
    assert(text::lowered(text::lowered(t)) =~= text::lowered(t));
}

/// A modifier or a name of the key-name table resolves the same in any case.
pub proof fn law_known_names_ignore_case(name: Seq<char>)
    requires
        keyspec::modifier_of(name) is Some || keysym::key_target(keyspec::normalized(name)) is Some,
    ensures
        keysym::resolved_name(text::lowered(name)) == keysym::resolved_name(name),
{
    law_lookup_ignores_case(name);
    reveal_strlit(" ");
    if name == " "@ {
        assert(text::lowered(name) =~= name);
    } else if text::lowered(name) == " "@ {
        assert(text::lowered(name).len() == name.len());
        assert(text::lowered(name)[0] == text::lower(name[0]));
        assert(name =~= " "@);
    }
}

/// Two tokens that differ in underscores alone, once they are trimmed, are looked
/// up as the same word.
pub proof fn law_lookup_ignores_underscores(a: Seq<char>, b: Seq<char>)
    requires
        text::trim(a).filter(|c: char| c != '_') == text::trim(b).filter(|c: char| c != '_'),
    ensures
        keyspec::normalized(a) == keyspec::normalized(b),
{
    lemma_filter_lowered(text::trim(a));
    lemma_filter_lowered(text::trim(b));
}

proof fn lemma_filter_lowered(s: Seq<char>)
    ensures
        text::lowered(s).filter(|c: char| c != '_') == text::lowered(
            s.filter(|c: char| c != '_'),
        ),
    decreases s.len(),
{
    reveal(Seq::filter);
    if s.len() > 0 {
        lemma_filter_lowered(s.drop_last());
        assert(text::lowered(s).drop_last() =~= text::lowered(s.drop_last()));
        assert(text::lowered(s).filter(|c: char| c != '_') =~= text::lowered(
            s.filter(|c: char| c != '_'),
        ));
    } else {
        assert(text::lowered(s).filter(|c: char| c != '_') =~= text::lowered(
            s.filter(|c: char| c != '_'),
        ));
    }
}

/// A key spec parses exactly where it has tokens and at most one of them
/// names no modifier. The base key and the modifiers are then its tokens: that
/// one, or the last where all are modifiers, and the others in order.
pub proof fn law_parse_accepts(spec: Seq<char>)
    ensures
        keyspec::parsed(spec) is Ok <==> keyspec::tokens(spec).len() > 0 && forall|i: int, j: int|
            0 <= i < keyspec::tokens(spec).len() && 0 <= j < keyspec::tokens(spec).len()
                && !keyspec::names_modifier(#[trigger] keyspec::tokens(spec)[i])
                && !keyspec::names_modifier(#[trigger] keyspec::tokens(spec)[j]) ==> i == j,
        keyspec::parsed(spec) matches Ok(view) ==> exists|b: int|
            keyspec::is_base(keyspec::tokens(spec), b) && keyspec::tokens(spec)
                == #[trigger] view.modifiers.insert(b, view.base),
{
    let list = keyspec::tokens(spec);
    if list.len() > 0 {
        keyspec::lemma_base_exists(list);
        let base = choose|i: int| keyspec::is_base(list, i);
        if let Ok(view) = keyspec::parsed(spec) {
            assert forall|i: int, j: int|
                0 <= i < list.len() && 0 <= j < list.len() && !keyspec::names_modifier(
                    #[trigger] list[i],
                ) && !keyspec::names_modifier(#[trigger] list[j]) implies i == j by {
                if i != base {
                    keyspec::lemma_others_are_modifiers(spec, i);
                }
                if j != base {
                    keyspec::lemma_others_are_modifiers(spec, j);
                }
            }
            assert(view.modifiers.insert(base, view.base) =~= list);
        } else {
            let stray = choose|i: int| keyspec::is_first_plain(list, i) && i != base;
            assert(keyspec::is_first_plain(list, stray));
            if keyspec::names_modifier(list[base]) {
                assert(keyspec::names_modifier(list[stray]));
            }
        }
    }
}

/// Splitting and lower case can be taken in either order.
proof fn lemma_split_lowered(s: Seq<char>)
    ensures
        text::split(text::lowered(s), '+') == text::split(s, '+').map_values(
            |piece: Seq<char>| text::lowered(piece),
        ),
    decreases s.len(),
{
    let low = text::lowered(s);
    let f = |piece: Seq<char>| text::lowered(piece);
    if s.len() == 0 {
        assert(text::lowered(Seq::<char>::empty()) =~= Seq::<char>::empty());
        assert(text::split(low, '+') =~= text::split(s, '+').map_values(f));
    } else {
        let init = s.drop_last();
        assert(low.drop_last() =~= text::lowered(init));
        lemma_split_lowered(init);
        law_split_join(init, '+');
        let before = text::split(init, '+');
        assert(low.last() == text::lower(s.last()));
        if s.last() == '+' {
            assert(text::lowered(Seq::<char>::empty()) =~= Seq::<char>::empty());
            assert(text::split(low, '+') =~= text::split(s, '+').map_values(f));
        } else {
            assert(text::lowered(before.last().push(s.last())) =~= text::lowered(
                before.last(),
            ).push(text::lower(s.last())));
            assert(text::split(low, '+') =~= text::split(s, '+').map_values(f));
        }
    }
}

/// Dropping empty pieces and lower case can be taken in either order.
proof fn lemma_tokens_lowered_from(pieces: Seq<Seq<char>>)
    ensures
        pieces.map_values(|p: Seq<char>| text::lowered(p)).map_values(
            |p: Seq<char>| text::trim(p),
        ).filter(|t: Seq<char>| t.len() > 0) == pieces.map_values(
            |p: Seq<char>| text::trim(p),
        ).filter(|t: Seq<char>| t.len() > 0).map_values(|p: Seq<char>| text::lowered(p)),
    decreases pieces.len(),
{
    reveal(Seq::filter);
    let low = |p: Seq<char>| text::lowered(p);
    let cut = |p: Seq<char>| text::trim(p);
    let kept = |t: Seq<char>| t.len() > 0;
    let left = pieces.map_values(low).map_values(cut);
    let right = pieces.map_values(cut);
    if pieces.len() == 0 {
        assert(left.filter(kept) =~= right.filter(kept).map_values(low));
    } else {
        let init = pieces.drop_last();
        lemma_tokens_lowered_from(init);
        lemma_trim_lowered(pieces.last());
        assert(left.drop_last() =~= init.map_values(low).map_values(cut));
        assert(right.drop_last() =~= init.map_values(cut));
        assert(left.last() == text::lowered(right.last()));
        assert(left.filter(kept) =~= right.filter(kept).map_values(low));
    }
}

/// Tokens do not depend on case: a key spec put into lower case has the same tokens,
/// in lower case.
pub proof fn law_tokens_ignore_case(spec: Seq<char>)
    ensures
        keyspec::tokens(text::lowered(spec)) == keyspec::tokens(spec).map_values(
            |t: Seq<char>| text::lowered(t),
        ),
{
    lemma_split_lowered(spec);
    lemma_tokens_lowered_from(text::split(spec, '+'));
}

/// Parsing does not depend on case: a key spec put into lower case parses exactly
/// where it parses as written, and to the same tokens in lower case.
pub proof fn law_parse_ignores_case(spec: Seq<char>)
    ensures
        keyspec::parsed(text::lowered(spec)) is Ok <==> keyspec::parsed(spec) is Ok,
        keyspec::parsed(spec) matches Ok(view) ==> keyspec::parsed(text::lowered(spec)) == Ok::<
            KeySpecView,
            crate::error::KeyErrorView,
        >(
            KeySpecView {
                modifiers: view.modifiers.map_values(|t: Seq<char>| text::lowered(t)),
                base: text::lowered(view.base),
            },
        ),
{
    law_tokens_ignore_case(spec);
    let list = keyspec::tokens(spec);
    let low = keyspec::tokens(text::lowered(spec));
    let f = |t: Seq<char>| text::lowered(t);
    assert forall|i: int| 0 <= i < list.len() implies keyspec::names_modifier(#[trigger] low[i])
        == keyspec::names_modifier(list[i]) by {
        law_lookup_ignores_case(list[i]);
    }
    assert forall|i: int| 0 <= i < list.len() implies keyspec::names_modifier(#[trigger] list[i])
        == keyspec::names_modifier(low[i]) by {
        law_lookup_ignores_case(list[i]);
    }
    law_parse_accepts(spec);
    law_parse_accepts(text::lowered(spec));
    if let Ok(view) = keyspec::parsed(spec) {
        keyspec::lemma_base_exists(list);
        keyspec::lemma_base_exists(low);
        let a = choose|i: int| keyspec::is_base(list, i);
        let b = choose|i: int| keyspec::is_base(low, i);
        assert(a == b) by {
            if a < b {
                assert(keyspec::names_modifier(list[b]));
                assert(keyspec::names_modifier(low[b]));
                assert(keyspec::names_modifier(low[a]));
                assert(keyspec::names_modifier(list[a]));
            }
            if b < a {
                assert(keyspec::names_modifier(low[a]));
                assert(keyspec::names_modifier(list[a]));
                assert(keyspec::names_modifier(list[b]));
                assert(keyspec::names_modifier(low[b]));
            }
        }
        assert(low.remove(b) =~= list.remove(a).map_values(f));
    }
}

/// No name and no value stands twice in the keysym table.
proof fn lemma_names_distinct(i: int, j: int)
    requires
        0 <= i < j < keysym::KEYSYM_NAMES@.len(),
    ensures
        keysym::KEYSYM_NAMES@[i].0@ != keysym::KEYSYM_NAMES@[j].0@,
        keysym::KEYSYM_NAMES@[i].1 != keysym::KEYSYM_NAMES@[j].1,
{
    reveal_strlit("Control_L");
    reveal_strlit("Control_R");
    reveal_strlit("Shift_L");
    reveal_strlit("Shift_R");
    reveal_strlit("Alt_L");
    reveal_strlit("Alt_R");
    reveal_strlit("Super_L");
    reveal_strlit("Super_R");
    reveal_strlit("Meta_L");
    reveal_strlit("Meta_R");
    reveal_strlit("Caps_Lock");
    reveal_strlit("Num_Lock");
    reveal_strlit("Return");
    reveal_strlit("BackSpace");
    reveal_strlit("Delete");
    reveal_strlit("Escape");
    reveal_strlit("Tab");
    reveal_strlit("space");
    reveal_strlit("Up");
    reveal_strlit("Down");
    reveal_strlit("Left");
    reveal_strlit("Right");
    reveal_strlit("Home");
    reveal_strlit("End");
    reveal_strlit("Prior");
    reveal_strlit("Next");
    reveal_strlit("Insert");
    reveal_strlit("Menu");
    reveal_strlit("Print");
    reveal_strlit("Pause");
    reveal_strlit("F1");
    reveal_strlit("F2");
    reveal_strlit("F3");
    reveal_strlit("F4");
    reveal_strlit("F5");
    reveal_strlit("F6");
    reveal_strlit("F7");
    reveal_strlit("F8");
    reveal_strlit("F9");
    reveal_strlit("F10");
    reveal_strlit("F11");
    reveal_strlit("F12");
    reveal_strlit("F13");
    reveal_strlit("F14");
    reveal_strlit("F15");
    reveal_strlit("F16");
    reveal_strlit("F17");
    reveal_strlit("F18");
    reveal_strlit("F19");
    reveal_strlit("F20");
    reveal_strlit("F21");
    reveal_strlit("F22");
    reveal_strlit("F23");
    reveal_strlit("F24");

    let a = keysym::KEYSYM_NAMES@[i].0@;
    let b = keysym::KEYSYM_NAMES@[j].0@;
    if a == b {
        assert(a.len() == b.len());
        assert(a[0] == b[0]);
        assert(a[1] == b[1]);
        assert(a[a.len() - 1] == b[b.len() - 1]);
        assert(false);
    }
}

/// The keysym table can be read both ways: each of its names stands for its value,
/// and each of its values goes by its name.
pub proof fn law_table_both_ways(i: int)
    requires
        0 <= i < keysym::KEYSYM_NAMES@.len(),
    ensures
        keysym::named_value(keysym::KEYSYM_NAMES@[i].0@) == Some(keysym::KEYSYM_NAMES@[i].1),
        keysym::value_name(keysym::KEYSYM_NAMES@[i].1) == Some(keysym::KEYSYM_NAMES@[i].0@),
        keysym::symbol_of(keysym::KEYSYM_NAMES@[i].1) == keysym::KEYSYM_NAMES@[i].0@,
{
    let name = keysym::KEYSYM_NAMES@[i].0@;
    let value = keysym::KEYSYM_NAMES@[i].1;
    assert forall|j: int| 0 <= j < i implies (#[trigger] keysym::KEYSYM_NAMES@[j]).0@ != name
        && keysym::KEYSYM_NAMES@[j].1 != value by {
        lemma_names_distinct(j, i);
    }
    assert(keysym::is_name_entry(name, i));
    assert(keysym::is_value_entry(value, i));
    let a = choose|k: int| keysym::is_name_entry(name, k);
    if a < i {
        lemma_names_distinct(a, i);
    }
    if i < a {
        lemma_names_distinct(i, a);
    }
    let b = choose|k: int| keysym::is_value_entry(value, k);
    if b < i {
        lemma_names_distinct(b, i);
    }
    if i < b {
        lemma_names_distinct(i, b);
    }
}

/// A token that names a modifier stands for the keysym of the modifier's left-hand key.
pub proof fn law_modifier_keysym(token: Seq<char>)
    requires
        keyspec::modifier_of(token) is Some,
    ensures
        keysym::keysym_of_name(token) == Ok::<u32, crate::error::KeyErrorView>(
            match keyspec::modifier_of(token)->0 {
                Modifier::Control => key::CONTROL_L,
                Modifier::Shift => key::SHIFT_L,
                Modifier::Alt => key::ALT_L,
                Modifier::Super => key::SUPER_L,
            },
        ),
{
    law_table_both_ways(0);
    law_table_both_ways(2);
    law_table_both_ways(4);
    law_table_both_ways(6);
    assert(keysym::KEYSYM_NAMES@[0].0@ == "Control_L"@);
    assert(keysym::KEYSYM_NAMES@[2].0@ == "Shift_L"@);
    assert(keysym::KEYSYM_NAMES@[4].0@ == "Alt_L"@);
    assert(keysym::KEYSYM_NAMES@[6].0@ == "Super_L"@);
}

/// Every name of the key-name table leads to a keysym.
pub proof fn law_key_names_resolve(word: Seq<char>)
    requires
        keysym::key_target(word) is Some,
    ensures
        keysym::named_value(keysym::key_target(word)->0) is Some,
{
    let i = choose|i: int| keysym::is_key_entry(word, i);
    let k: int = if i == 0 {
        12
    } else if i == 1 {
        12
    } else if i == 2 {
        13
    } else if i == 3 {
        14
    } else if i == 4 {
        15
    } else if i == 5 {
        15
    } else if i == 6 {
        16
    } else if i == 7 {
        17
    } else if i == 8 {
        18
    } else if i == 9 {
        19
    } else if i == 10 {
        20
    } else if i == 11 {
        21
    } else if i == 12 {
        22
    } else if i == 13 {
        23
    } else if i == 14 {
        24
    } else if i == 15 {
        24
    } else if i == 16 {
        25
    } else if i == 17 {
        25
    } else {
        10
    };
    assert(keysym::CU_KEY_NAMES@[i].1@ == keysym::KEYSYM_NAMES@[k].0@);
    law_table_both_ways(k);
}

/// A Unicode keysym goes by `U` and its code point in hexadecimal, and no two of
/// them go by the same name.
pub proof fn law_unicode_symbols(a: u32, b: u32)
    requires
        a < 0x0100_0000,
        b < 0x0100_0000,
    ensures
        keysym::symbol_of((0x0100_0000 + a) as u32) == "U"@ + text::hex(a as nat, 4),
        keysym::symbol_of((0x0100_0000 + a) as u32) == keysym::symbol_of((0x0100_0000 + b) as u32)
            ==> a == b,
{
    assert forall|i: int|
        0 <= i < keysym::KEYSYM_NAMES@.len() implies (#[trigger] keysym::KEYSYM_NAMES@[i]).1
        < 0x10000 by {}
    let x = (0x0100_0000 + a) as u32;
    let y = (0x0100_0000 + b) as u32;
    if keysym::symbol_of(x) == keysym::symbol_of(y) {
        assert(("U"@ + text::hex(a as nat, 4)).skip("U"@.len() as int) =~= text::hex(a as nat, 4));
        assert(("U"@ + text::hex(b as nat, 4)).skip("U"@.len() as int) =~= text::hex(b as nat, 4));
        law_hex_injective(a as nat, b as nat, 4);
    }
}

/// A modifier or a name of the key-name table always stands for a keysym.
pub proof fn law_known_names_resolve(name: Seq<char>)
    requires
        keyspec::modifier_of(name) is Some || keysym::key_target(keyspec::normalized(name)) is Some,
    ensures
        !keysym::is_unsupported(name),
        keysym::named_value(keysym::resolved_name(name)) is Some,
{
    if keyspec::modifier_of(name) is Some {
        law_modifier_keysym(name);
        law_table_both_ways(0);
        law_table_both_ways(2);
        law_table_both_ways(4);
        law_table_both_ways(6);
        assert(keysym::KEYSYM_NAMES@[0].0@ == "Control_L"@);
        assert(keysym::KEYSYM_NAMES@[2].0@ == "Shift_L"@);
        assert(keysym::KEYSYM_NAMES@[4].0@ == "Alt_L"@);
        assert(keysym::KEYSYM_NAMES@[6].0@ == "Super_L"@);
    } else {
        law_key_names_resolve(keyspec::normalized(name));
        law_table_both_ways(17);
        assert(keysym::KEYSYM_NAMES@[17].0@ == "space"@);
    }
}

/// Where the rows place a keysym, a key of a row yields it.
pub(crate) proof fn lemma_row_seat(keysym: u32, row: int)
    requires
        0 <= row <= layout::ROWS@.len(),
    ensures
        layout::row_placement(keysym, row) matches Some(p) ==> exists|r: int, i: int| #[trigger]
            layout::is_seat(p, keysym, r, i),
    decreases layout::ROWS@.len() - row,
{
    if row < layout::ROWS@.len() {
        lemma_row_seat(keysym, row + 1);
        layout::lemma_rows(row);
        if let Some(p) = layout::row_placement(keysym, row) {
            let plain = layout::place_in(layout::row_chars(row, false), keysym);
            let shifted = layout::place_in(layout::row_chars(row, true), keysym);
            if let Some(i) = plain {
                assert(layout::is_seat(p, keysym, row, i));
            } else if let Some(i) = shifted {
                assert(layout::is_seat(p, keysym, row, i));
            }
        }
    }
}

/// A symbol is placed where the key yields it, and only symbols that some key
/// yields are placed.
pub proof fn law_placement_yields(keysym: u32)
    ensures
        layout::placement_of(keysym) matches Some(p) ==> layout::yields(p, keysym),
        layout::placement_of(keysym) is Some <==> exists|p: KeyPlacement| #[trigger]
            layout::yields(p, keysym),
{
    lemma_row_seat(keysym, 0);
    if exists|p: KeyPlacement| #[trigger] layout::yields(p, keysym) {
        let p = choose|p: KeyPlacement| #[trigger] layout::yields(p, keysym);
        if exists|row: int, i: int| #[trigger] layout::is_seat(p, keysym, row, i) {
            let (row, i) = choose|row: int, i: int| #[trigger] layout::is_seat(p, keysym, row, i);
            layout::lemma_row_places(keysym, 0, row, p.needs_shift, i);
        }
    }
    if let Some(p) = layout::placement_of(keysym) {
        assert(layout::yields(p, keysym));
    }
}

/// No key of a row has the code of a special key.
proof fn lemma_rows_and_specials_apart(p: KeyPlacement, a: u32, b: u32, row: int, i: int)
    requires
        layout::is_seat(p, a, row, i),
    ensures
        layout::special_code(b) != Some(p.evdev_code),
{
    layout::lemma_rows(row);
    reveal_strlit("1234567890-=");
    reveal_strlit("qwertyuiop[]");
    reveal_strlit("asdfghjkl;'`");
    reveal_strlit("\\");
    reveal_strlit("zxcvbnm,./");
    reveal_strlit(" ");
}

/// A position yields one symbol.
pub proof fn law_position_yields_one(p: KeyPlacement, a: u32, b: u32)
    requires
        layout::yields(p, a),
        layout::yields(p, b),
    ensures
        a == b,
{
    let seat_a = exists|row: int, i: int| #[trigger] layout::is_seat(p, a, row, i);
    let seat_b = exists|row: int, i: int| #[trigger] layout::is_seat(p, b, row, i);
    if seat_a && seat_b {
        let (r, i) = choose|row: int, i: int| #[trigger] layout::is_seat(p, a, row, i);
        let (s, j) = choose|row: int, i: int| #[trigger] layout::is_seat(p, b, row, i);
        assert forall|row: int| 0 <= row < layout::ROWS@.len() implies #[trigger] layout::row_chars(
            row,
            false,
        ).len() == layout::row_chars(row, true).len() && (row < 5 ==> layout::ROWS@[row].0
            + layout::row_chars(row, false).len() <= layout::ROWS@[row + 1].0) by {
            layout::lemma_rows(row);
        }
        lemma_row_order(r, s, i);
        lemma_row_order(s, r, j);
    } else if seat_a {
        let (r, i) = choose|row: int, i: int| #[trigger] layout::is_seat(p, a, row, i);
        lemma_rows_and_specials_apart(p, a, b, r, i);
    } else if seat_b {
        let (s, j) = choose|row: int, i: int| #[trigger] layout::is_seat(p, b, row, i);
        lemma_rows_and_specials_apart(p, b, a, s, j);
    }
}

/// The codes of a row lie below those of any later row.
proof fn lemma_row_order(r: int, s: int, i: int)
    requires
        0 <= r < layout::ROWS@.len(),
        0 <= s < layout::ROWS@.len(),
        0 <= i < layout::row_chars(r, false).len(),
    ensures
        r < s ==> layout::ROWS@[r].0 + i < layout::ROWS@[s].0,
    decreases s - r,
{
    layout::lemma_rows(r);
    if r + 1 < s {
        layout::lemma_rows(r + 1);
        lemma_row_nonempty(r + 1);
        lemma_row_order(r + 1, s, 0);
    }
}

proof fn lemma_row_nonempty(r: int)
    requires
        0 <= r < layout::ROWS@.len(),
    ensures
        layout::row_chars(r, false).len() > 0,
{
    reveal_strlit("1234567890-=");
    reveal_strlit("qwertyuiop[]");
    reveal_strlit("asdfghjkl;'`");
    reveal_strlit("\\");
    reveal_strlit("zxcvbnm,./");
    reveal_strlit(" ");
}

/// Different symbols have different positions.
pub proof fn law_placement_injective(a: u32, b: u32)
    requires
        layout::placement_of(a) is Some,
        layout::placement_of(a) == layout::placement_of(b),
    ensures
        a == b,
{
    law_placement_yields(a);
    law_placement_yields(b);
    law_position_yields_one(layout::placement_of(a)->0, a, b);
}

/// Capital letters and the punctuation that shares a key with other characters
/// above them take Shift; no other placed symbol does.
pub proof fn law_shift_level(keysym: u32)
    ensures
        layout::placement_of(keysym) matches Some(p) ==> p.needs_shift == layout::is_shifted(keysym),
{
    lemma_row_level(keysym, 0);
}

proof fn lemma_row_level(keysym: u32, row: int)
    requires
        0 <= row <= layout::ROWS@.len(),
    ensures
        layout::row_placement(keysym, row) matches Some(p) ==> p.needs_shift == layout::is_shifted(
            keysym,
        ),
    decreases layout::ROWS@.len() - row,
{
    if row < layout::ROWS@.len() {
        layout::lemma_rows(row);
        lemma_row_level(keysym, row + 1);
        let plain = layout::row_chars(row, false);
        let shifted = layout::row_chars(row, true);
        if let Some(i) = layout::place_in(plain, keysym) {
            assert(plain[i] as u32 == keysym);
        } else if let Some(i) = layout::place_in(shifted, keysym) {
            assert(shifted[i] as u32 == keysym);
            if shifted[i] == ' ' {
                layout::lemma_place_exists(plain, keysym, i);
            }
        }
    }
}

/// A keymap has one placement per requested keysym, in order. Where all keysyms
/// have a position on a US keyboard, these are the positions. Otherwise the codes
/// run on without a gap behind those of the modifiers, and none needs Shift.
pub proof fn law_placements(keysyms: Seq<u32>, i: int)
    requires
        0 <= i < keysyms.len(),
        keymap::all_physical(keysyms) || keysyms.len() <= keymap::MAX_SYMBOLS,
    ensures
        keymap::keymap_of(keysyms).placements.len() == keysyms.len(),
        keymap::all_physical(keysyms) ==> layout::placement_of(keysyms[i]) == Some(
            keymap::keymap_of(keysyms).placements[i],
        ) && layout::yields(keymap::keymap_of(keysyms).placements[i], keysyms[i]),
        !keymap::all_physical(keysyms) ==> ({
            let map = keymap::keymap_of(keysyms);
            &&& map.placements[i].evdev_code == 5 + i
            &&& !map.placements[i].needs_shift
            &&& forall|m: Modifier| #[trigger]
                map.modifier_code(m) < map.placements[i].evdev_code
        }),
{
    law_placement_yields(keysyms[i]);
}

/// Different keysyms of one keymap have different positions.
pub proof fn law_positions_differ(keysyms: Seq<u32>, i: int, j: int)
    requires
        0 <= i < keysyms.len(),
        0 <= j < keysyms.len(),
        keysyms[i] != keysyms[j],
        keymap::all_physical(keysyms) || keysyms.len() <= keymap::MAX_SYMBOLS,
    ensures
        keymap::keymap_of(keysyms).placements[i] != keymap::keymap_of(keysyms).placements[j],
{
    law_placements(keysyms, i);
    law_placements(keysyms, j);
    if keymap::all_physical(keysyms) && layout::placement_of(keysyms[i]) == layout::placement_of(
        keysyms[j],
    ) {
        law_placement_injective(keysyms[i], keysyms[j]);
    }
}

/// Different modifiers have different keys, and on the stock keymap these are
/// where the modifiers' left-hand keys are.
pub proof fn law_modifier_keys(keysyms: Seq<u32>, a: Modifier, b: Modifier)
    ensures
        keymap::keymap_of(keysyms).modifier_code(a) == keymap::keymap_of(keysyms).modifier_code(b)
            ==> a == b,
        keymap::all_physical(keysyms) ==> layout::placement_of(
            match a {
                Modifier::Control => key::CONTROL_L,
                Modifier::Shift => key::SHIFT_L,
                Modifier::Alt => key::ALT_L,
                Modifier::Super => key::SUPER_L,
            },
        ) == Some(
            KeyPlacement {
                evdev_code: keymap::keymap_of(keysyms).modifier_code(a),
                needs_shift: false,
            },
        ),
{
    lemma_rows_are_ascii(key::CONTROL_L, 0);
    lemma_rows_are_ascii(key::SHIFT_L, 0);
    lemma_rows_are_ascii(key::ALT_L, 0);
    lemma_rows_are_ascii(key::SUPER_L, 0);
}

/// The rows place nothing but printable ASCII characters.
pub(crate) proof fn lemma_rows_are_ascii(keysym: u32, row: int)
    requires
        0 <= row <= layout::ROWS@.len(),
        keysym > 0x7e,
    ensures
        layout::row_placement(keysym, row) is None,
    decreases layout::ROWS@.len() - row,
{
    if row < layout::ROWS@.len() {
        layout::lemma_rows(row);
        lemma_rows_are_ascii(keysym, row + 1);
        let plain = layout::row_chars(row, false);
        let shifted = layout::row_chars(row, true);
        if let Some(i) = layout::place_in(plain, keysym) {
            assert(plain[i] as u32 == keysym);
        }
        if let Some(i) = layout::place_in(shifted, keysym) {
            assert(shifted[i] as u32 == keysym);
        }
    }
}

proof fn lemma_occurs_within(part: Seq<char>, middle: Seq<char>, head: Seq<char>, tail: Seq<char>)
    requires
        syntax::occurs_in(part, middle),
    ensures
        syntax::occurs_in(part, head + middle + tail),
{
    let (before, after) = choose|before: Seq<char>, after: Seq<char>|
        middle == #[trigger] (before + part + after);
    assert(head + middle + tail =~= (head + before) + part + (after + tail));
}

proof fn lemma_occurs_whole(part: Seq<char>)
    ensures
        syntax::occurs_in(part, part),
{
    assert(part =~= Seq::<char>::empty() + part + Seq::<char>::empty());
}

proof fn lemma_binding_occurs(symbols: Seq<Seq<char>>, i: int)
    requires
        0 <= i < symbols.len(),
    ensures
        syntax::occurs_in(
            keymap::symbol_binding((keymap::FIRST_SYMBOL_KEYCODE + i) as nat, symbols[i]),
            keymap::symbol_bindings(symbols),
        ),
    decreases symbols.len(),
{
    let line = keymap::symbol_binding((keymap::FIRST_SYMBOL_KEYCODE + i) as nat, symbols[i]);
    let init = keymap::symbol_bindings(symbols.drop_last());
    let last = keymap::symbol_binding(
        (keymap::FIRST_SYMBOL_KEYCODE + symbols.len() - 1) as nat,
        symbols.last(),
    );
    let none = Seq::<char>::empty();
    if i < symbols.len() - 1 {
        lemma_binding_occurs(symbols.drop_last(), i);
        lemma_occurs_within(line, init, none, last);
        assert(none + init + last =~= keymap::symbol_bindings(symbols));
    } else {
        lemma_occurs_whole(line);
        lemma_occurs_within(line, line, init, none);
        assert(init + line + none =~= keymap::symbol_bindings(symbols));
    }
}

proof fn lemma_declaration_occurs(n: nat, keycode: nat)
    requires
        keymap::XKB_KEYCODE_BASE <= keycode < keymap::FIRST_SYMBOL_KEYCODE + n,
    ensures
        syntax::occurs_in(keymap::declaration(keycode), keymap::declarations(n)),
    decreases n,
{
    let line = keymap::declaration(keycode);
    let none = Seq::<char>::empty();
    lemma_occurs_whole(line);
    if n == 0 {
        let a = keymap::declaration(9);
        let b = keymap::declaration(10);
        let c = keymap::declaration(11);
        let d = keymap::declaration(12);
        if keycode == 9 {
            lemma_occurs_within(line, line, none, b + c + d);
            assert(none + line + (b + c + d) =~= keymap::declarations(n));
        } else if keycode == 10 {
            lemma_occurs_within(line, line, a, c + d);
            assert(a + line + (c + d) =~= keymap::declarations(n));
        } else if keycode == 11 {
            lemma_occurs_within(line, line, a + b, d);
            assert((a + b) + line + d =~= keymap::declarations(n));
        } else {
            lemma_occurs_within(line, line, a + b + c, none);
            assert((a + b + c) + line + none =~= keymap::declarations(n));
        }
    } else {
        let init = keymap::declarations((n - 1) as nat);
        let last = keymap::declaration((keymap::FIRST_SYMBOL_KEYCODE + n - 1) as nat);
        if keycode < keymap::FIRST_SYMBOL_KEYCODE + n - 1 {
            lemma_declaration_occurs((n - 1) as nat, keycode);
            lemma_occurs_within(line, init, none, last);
            assert(none + init + last =~= keymap::declarations(n));
        } else {
            lemma_occurs_within(line, line, init, none);
            assert(init + line + none =~= keymap::declarations(n));
        }
    }
}

/// The text of a keymap with a keycode for each symbol binds every symbol, at both
/// levels, to the key that its placement names.
pub proof fn law_symbol_is_bound(symbols: Seq<Seq<char>>, i: int)
    requires
        0 <= i < symbols.len() <= keymap::MAX_SYMBOLS,
    ensures
        syntax::occurs_in(
            keymap::symbol_binding(
                (keymap::symbol_keymap(symbols).placements[i].evdev_code + keymap::EVDEV_OFFSET) as nat,
                symbols[i],
            ),
            keymap::symbol_keymap(symbols).text,
        ),
{
    let line = keymap::symbol_binding((keymap::FIRST_SYMBOL_KEYCODE + i) as nat, symbols[i]);
    lemma_binding_occurs(symbols, i);
    lemma_in_symbols_section(symbols, line);
}

/// What occurs among the bindings of the symbols occurs in the text.
proof fn lemma_in_symbols_section(symbols: Seq<Seq<char>>, part: Seq<char>)
    requires
        syntax::occurs_in(part, keymap::symbol_bindings(symbols)),
    ensures
        syntax::occurs_in(part, keymap::symbol_text(symbols)),
{
    let head = "xkb_symbols \"wlroots-bridge\" {\n"@ + keymap::modifier_binding(9, "Control_L"@)
        + keymap::modifier_binding(10, "Shift_L"@) + keymap::modifier_binding(11, "Alt_L"@)
        + keymap::modifier_binding(12, "Super_L"@);
    let tail = keymap::modifier_map("Control"@, 9) + keymap::modifier_map("Shift"@, 10)
        + keymap::modifier_map("Mod1"@, 11) + keymap::modifier_map("Mod4"@, 12) + "};\n"@;
    lemma_occurs_within(part, keymap::symbol_bindings(symbols), head, tail);
    assert(head + keymap::symbol_bindings(symbols) + tail =~= keymap::symbols_section(symbols));
    lemma_section_in_text(symbols, part);
}

/// What occurs in the symbols section occurs in the text.
proof fn lemma_section_in_text(symbols: Seq<Seq<char>>, part: Seq<char>)
    requires
        syntax::occurs_in(part, keymap::symbols_section(symbols)),
    ensures
        syntax::occurs_in(part, keymap::symbol_text(symbols)),
{
    let before = "xkb_keymap {\n"@ + keymap::keycodes_section(symbols.len())
        + "xkb_types \"wlroots-bridge\" { include \"complete\" };\n"@
        + "xkb_compat \"wlroots-bridge\" { include \"complete\" };\n"@;
    lemma_occurs_within(part, keymap::symbols_section(symbols), before, "};\n"@);
    assert(before + keymap::symbols_section(symbols) + "};\n"@ =~= keymap::symbol_text(symbols));
}

/// The text of a keymap with a keycode for each symbol declares the keycode of
/// every modifier and of every symbol.
pub proof fn law_keycode_is_declared(symbols: Seq<Seq<char>>, keycode: nat)
    requires
        keymap::XKB_KEYCODE_BASE <= keycode < keymap::FIRST_SYMBOL_KEYCODE + symbols.len(),
    ensures
        syntax::occurs_in(keymap::declaration(keycode), keymap::symbol_text(symbols)),
{
    let n = symbols.len();
    let line = keymap::declaration(keycode);
    lemma_declaration_occurs(n, keycode);
    let head = "xkb_keycodes \"wlroots-bridge\" {\n"@ + "  minimum = "@ + text::decimal(
        keymap::XKB_KEYCODE_BASE as nat,
    ) + ";\n"@ + "  maximum = "@ + text::decimal(keymap::FIRST_SYMBOL_KEYCODE as nat + n) + ";\n"@;
    lemma_occurs_within(line, keymap::declarations(n), head, "};\n"@);
    assert(head + keymap::declarations(n) + "};\n"@ =~= keymap::keycodes_section(n));
    let after = "xkb_types \"wlroots-bridge\" { include \"complete\" };\n"@
        + "xkb_compat \"wlroots-bridge\" { include \"complete\" };\n"@ + keymap::symbols_section(
        symbols,
    ) + "};\n"@;
    lemma_occurs_within(line, keymap::keycodes_section(n), "xkb_keymap {\n"@, after);
    assert("xkb_keymap {\n"@ + keymap::keycodes_section(n) + after =~= keymap::symbol_text(symbols));
}

/// The real modifier that a modifier's key drives.
pub open spec fn real_modifier(m: Modifier) -> Seq<char> {
    match m {
        Modifier::Control => "Control"@,
        Modifier::Shift => "Shift"@,
        Modifier::Alt => "Mod1"@,
        Modifier::Super => "Mod4"@,
    }
}

/// The text of a keymap with a keycode for each symbol binds every modifier's
/// keysym to the modifier's key, and makes the key drive the real modifier.
pub proof fn law_modifier_is_mapped(symbols: Seq<Seq<char>>, m: Modifier)
    ensures
        syntax::occurs_in(
            keymap::modifier_binding(
                (keymap::symbol_keymap(symbols).modifier_code(m) + keymap::EVDEV_OFFSET) as nat,
                m.name(),
            ),
            keymap::symbol_keymap(symbols).text,
        ),
        syntax::occurs_in(
            keymap::modifier_map(
                real_modifier(m),
                (keymap::symbol_keymap(symbols).modifier_code(m) + keymap::EVDEV_OFFSET) as nat,
            ),
            keymap::symbol_keymap(symbols).text,
        ),
{
    let x0 = "xkb_symbols \"wlroots-bridge\" {\n"@;
    let x1 = x0 + keymap::modifier_binding(9, "Control_L"@);
    let x2 = x1 + keymap::modifier_binding(10, "Shift_L"@);
    let x3 = x2 + keymap::modifier_binding(11, "Alt_L"@);
    let x4 = x3 + keymap::modifier_binding(12, "Super_L"@);
    let x5 = x4 + keymap::symbol_bindings(symbols);
    let x6 = x5 + keymap::modifier_map("Control"@, 9);
    let x7 = x6 + keymap::modifier_map("Shift"@, 10);
    let x8 = x7 + keymap::modifier_map("Mod1"@, 11);
    let x9 = x8 + keymap::modifier_map("Mod4"@, 12);
    let keycode = (keymap::symbol_keymap(symbols).modifier_code(m) + keymap::EVDEV_OFFSET) as nat;
    let binding = keymap::modifier_binding(keycode, m.name());
    let map = keymap::modifier_map(real_modifier(m), keycode);
    match m {
        Modifier::Control => {
            lemma_occurs_last(x0, binding);
            lemma_occurs_before(binding, x1, keymap::modifier_binding(10, "Shift_L"@));
            lemma_occurs_before(binding, x2, keymap::modifier_binding(11, "Alt_L"@));
            lemma_occurs_before(binding, x3, keymap::modifier_binding(12, "Super_L"@));
            lemma_occurs_last(x5, map);
            lemma_occurs_before(map, x6, keymap::modifier_map("Shift"@, 10));
            lemma_occurs_before(map, x7, keymap::modifier_map("Mod1"@, 11));
            lemma_occurs_before(map, x8, keymap::modifier_map("Mod4"@, 12));
        },
        Modifier::Shift => {
            lemma_occurs_last(x1, binding);
            lemma_occurs_before(binding, x2, keymap::modifier_binding(11, "Alt_L"@));
            lemma_occurs_before(binding, x3, keymap::modifier_binding(12, "Super_L"@));
            lemma_occurs_last(x6, map);
            lemma_occurs_before(map, x7, keymap::modifier_map("Mod1"@, 11));
            lemma_occurs_before(map, x8, keymap::modifier_map("Mod4"@, 12));
        },
        Modifier::Alt => {
            lemma_occurs_last(x2, binding);
            lemma_occurs_before(binding, x3, keymap::modifier_binding(12, "Super_L"@));
            lemma_occurs_last(x7, map);
            lemma_occurs_before(map, x8, keymap::modifier_map("Mod4"@, 12));
        },
        Modifier::Super => {
            lemma_occurs_last(x3, binding);
            lemma_occurs_last(x8, map);
        },
    }
    lemma_occurs_before(binding, x4, keymap::symbol_bindings(symbols));
    lemma_occurs_before(binding, x5, keymap::modifier_map("Control"@, 9));
    lemma_occurs_before(binding, x6, keymap::modifier_map("Shift"@, 10));
    lemma_occurs_before(binding, x7, keymap::modifier_map("Mod1"@, 11));
    lemma_occurs_before(binding, x8, keymap::modifier_map("Mod4"@, 12));
    lemma_occurs_before(binding, x9, "};\n"@);
    lemma_occurs_before(map, x9, "};\n"@);
    lemma_section_in_text(symbols, binding);
    lemma_section_in_text(symbols, map);
}

proof fn lemma_occurs_before(part: Seq<char>, whole: Seq<char>, tail: Seq<char>)
    requires
        syntax::occurs_in(part, whole),
    ensures
        syntax::occurs_in(part, whole + tail),
{
    lemma_occurs_within(part, whole, Seq::<char>::empty(), tail);
    assert(Seq::<char>::empty() + whole + tail =~= whole + tail);
}

proof fn lemma_occurs_last(head: Seq<char>, part: Seq<char>)
    ensures
        syntax::occurs_in(part, head + part),
{
    lemma_occurs_whole(part);
    lemma_occurs_within(part, part, head, Seq::<char>::empty());
    assert(head + part + Seq::<char>::empty() =~= head + part);
}

/// The announced mask holds a modifier's bit exactly where a token names the
/// modifier, or where it is Shift and the key itself needs Shift.
pub proof fn law_mask_bits(modifiers: Seq<Seq<char>>, needs_shift: bool, m: Modifier)
    ensures
        keyboard::with_shift(keyboard::mask_of(modifiers), needs_shift) & m.bit() != 0 <==> (
        keyboard::lists(modifiers, m) || m == Modifier::Shift && needs_shift),
{
    let c = keyboard::lists(modifiers, Modifier::Control);
    let s = keyboard::lists(modifiers, Modifier::Shift);
    let a = keyboard::lists(modifiers, Modifier::Alt);
    let p = keyboard::lists(modifiers, Modifier::Super);
    assert(((keyboard::mask_with(c, s, a, p) | 1u32) & 0x4u32 != 0) == c) by (bit_vector);
    assert(((keyboard::mask_with(c, s, a, p) | 1u32) & 0x1u32 != 0)) by (bit_vector);
    assert(((keyboard::mask_with(c, s, a, p) | 1u32) & 0x8u32 != 0) == a) by (bit_vector);
    assert(((keyboard::mask_with(c, s, a, p) | 1u32) & 0x40u32 != 0) == p) by (bit_vector);
    assert((keyboard::mask_with(c, s, a, p) & 0x4u32 != 0) == c) by (bit_vector);
    assert((keyboard::mask_with(c, s, a, p) & 0x1u32 != 0) == s) by (bit_vector);
    assert((keyboard::mask_with(c, s, a, p) & 0x8u32 != 0) == a) by (bit_vector);
    assert((keyboard::mask_with(c, s, a, p) & 0x40u32 != 0) == p) by (bit_vector);
}

/// The key events among the actions: the code, and whether it goes down.
pub open spec fn key_events(actions: Seq<KeyAction>) -> Seq<(u32, bool)>
    decreases actions.len(),
{
    if actions.len() == 0 {
        Seq::<(u32, bool)>::empty()
    } else {
        let before = key_events(actions.drop_last());
        match actions.last() {
            KeyAction::Key { code, pressed } => before.push((code, pressed)),
            _ => before,
        }
    }
}

/// The mask that is announced when all is done, if `start` was announced before.
pub open spec fn final_mask(actions: Seq<KeyAction>, start: u32) -> u32
    decreases actions.len(),
{
    if actions.len() == 0 {
        start
    } else {
        match actions.last() {
            KeyAction::Modifiers { depressed } => depressed,
            _ => final_mask(actions.drop_last(), start),
        }
    }
}

/// Whether the keys go down in some order and then come up in the reverse order.
pub open spec fn is_mirrored(events: Seq<(u32, bool)>) -> bool {
    &&& events.len() % 2 == 0
    &&& forall|i: int|
        0 <= i < events.len() ==> (#[trigger] events[i]).1 == (2 * i < events.len())
            && events[i].0 == events[events.len() - 1 - i].0
}

/// How often a key goes down among the first `n` events, less how often it comes up.
pub open spec fn downs(events: Seq<(u32, bool)>, code: u32, n: int) -> int
    decreases n,
{
    if n <= 0 {
        0
    } else {
        downs(events, code, n - 1) + (if events[n - 1].0 != code {
            0int
        } else if events[n - 1].1 {
            1int
        } else {
            -1int
        })
    }
}

proof fn lemma_key_events_concat(a: Seq<KeyAction>, b: Seq<KeyAction>)
    ensures
        key_events(a + b) == key_events(a) + key_events(b),
    decreases b.len(),
{
    if b.len() == 0 {
        assert(a + b =~= a);
        assert(key_events(a) + key_events(b) =~= key_events(a));
    } else {
        assert((a + b).drop_last() =~= a + b.drop_last());
        lemma_key_events_concat(a, b.drop_last());
        assert(key_events(a + b) =~= key_events(a) + key_events(b));
    }
}

proof fn lemma_key_events_presses(codes: Seq<u32>)
    ensures
        key_events(keyboard::presses(codes)) == codes.map_values(|c: u32| (c, true)),
    decreases codes.len(),
{
    let actions = keyboard::presses(codes);
    if codes.len() > 0 {
        assert(actions.drop_last() =~= keyboard::presses(codes.drop_last()));
        lemma_key_events_presses(codes.drop_last());
    }
    assert(key_events(actions) =~= codes.map_values(|c: u32| (c, true)));
}

proof fn lemma_key_events_releases(codes: Seq<u32>)
    ensures
        key_events(keyboard::releases(codes)) == codes.reverse().map_values(|c: u32| (c, false)),
{
    lemma_key_events_ups(codes.reverse());
}

proof fn lemma_key_events_ups(codes: Seq<u32>)
    ensures
        key_events(codes.map_values(|code: u32| KeyAction::Key { code, pressed: false }))
            == codes.map_values(|c: u32| (c, false)),
    decreases codes.len(),
{
    let actions = codes.map_values(|code: u32| KeyAction::Key { code, pressed: false });
    if codes.len() > 0 {
        assert(actions.drop_last() =~= codes.drop_last().map_values(
            |code: u32| KeyAction::Key { code, pressed: false },
        ));
        lemma_key_events_ups(codes.drop_last());
    }
    assert(key_events(actions) =~= codes.map_values(|c: u32| (c, false)));
}

/// Keys that go down and then come up in reverse are mirrored.
proof fn lemma_mirrored(codes: Seq<u32>, events: Seq<(u32, bool)>)
    requires
        events == codes.map_values(|c: u32| (c, true)) + codes.reverse().map_values(
            |c: u32| (c, false),
        ),
    ensures
        is_mirrored(events),
{
}

/// Where key events are mirrored, no key stays down.
pub proof fn law_mirrored_releases_all(events: Seq<(u32, bool)>, code: u32)
    requires
        is_mirrored(events),
    ensures
        downs(events, code, events.len() as int) == 0,
        forall|n: int| 0 <= n <= events.len() ==> #[trigger] downs(events, code, n) >= 0,
{
    let half = events.len() / 2;
    assert forall|n: int| 0 <= n <= events.len() implies #[trigger] downs(events, code, n)
        == downs(events, code, if n <= half { n } else { events.len() - n }) by {
        lemma_downs_mirror(events, code, n);
    }
    assert forall|n: int| 0 <= n <= events.len() implies #[trigger] downs(events, code, n) >= 0 by {
        let k = if n <= half { n } else { events.len() - n };
        lemma_downs_rise(events, code, k);
        lemma_downs_mirror(events, code, n);
    }
    lemma_downs_mirror(events, code, events.len() as int);
}

proof fn lemma_downs_rise(events: Seq<(u32, bool)>, code: u32, n: int)
    requires
        is_mirrored(events),
        0 <= 2 * n <= events.len(),
    ensures
        downs(events, code, n) >= 0,
    decreases n,
{
    if n > 0 {
        lemma_downs_rise(events, code, n - 1);
        assert(events[n - 1].1);
    }
}

proof fn lemma_downs_mirror(events: Seq<(u32, bool)>, code: u32, n: int)
    requires
        is_mirrored(events),
        0 <= n <= events.len(),
    ensures
        downs(events, code, n) == downs(
            events,
            code,
            if 2 * n <= events.len() {
                n
            } else {
                events.len() - n
            },
        ),
    decreases n,
{
    if 2 * n > events.len() {
        lemma_downs_mirror(events, code, n - 1);
        let len = events.len() as int;
        let other = len - n;
        assert(events[n - 1].0 == events[len - n].0);
        assert(!events[n - 1].1);
        assert(events[other].1);
        assert(downs(events, code, other + 1) == downs(events, code, other) + (if events[other].0
            != code {
            0int
        } else {
            1int
        }));
    }
}

proof fn lemma_key_events_push(actions: Seq<KeyAction>, action: KeyAction)
    ensures
        key_events(actions.push(action)) == match action {
            KeyAction::Key { code, pressed } => key_events(actions).push((code, pressed)),
            _ => key_events(actions),
        },
{
    assert(actions.push(action).drop_last() =~= actions);
}

/// The key events of a tap between two announcements.
proof fn lemma_key_events_tap(announce: KeyAction, clear: KeyAction, code: u32)
    requires
        announce is Modifiers,
        clear is Modifiers,
    ensures
        key_events(
            seq![
                announce,
                KeyAction::Key { code, pressed: true },
                KeyAction::Key { code, pressed: false },
                clear,
            ],
        ) == seq![(code, true), (code, false)],
{
    let down = KeyAction::Key { code, pressed: true };
    let up = KeyAction::Key { code, pressed: false };
    let none = Seq::<KeyAction>::empty();
    lemma_key_events_push(none, announce);
    lemma_key_events_push(none.push(announce), down);
    lemma_key_events_push(none.push(announce).push(down), up);
    lemma_key_events_push(none.push(announce).push(down).push(up), clear);
    assert(seq![announce, down, up, clear] =~= none.push(announce).push(down).push(up).push(clear));
    assert(key_events(seq![announce, down, up, clear]) =~= seq![(code, true), (code, false)]);
}

/// In a chord the keys come up in the reverse of the order in which they go down,
/// and no modifier stays announced.
pub proof fn law_chord_is_mirrored(codes: Seq<u32>, mask: u32, shift_code: u32, base: KeyPlacement)
    ensures
        is_mirrored(key_events(keyboard::chord(codes, mask, shift_code, base))),
        forall|start: u32| #[trigger]
            final_mask(keyboard::chord(codes, mask, shift_code, base), start) == 0,
{
    let outer = codes + keyboard::shift_keys(base.needs_shift, shift_code);
    let down = KeyAction::Key { code: base.evdev_code, pressed: true };
    let up = KeyAction::Key { code: base.evdev_code, pressed: false };
    let announce = KeyAction::Modifiers {
        depressed: keyboard::with_shift(mask, base.needs_shift),
    };
    let clear = KeyAction::Modifiers { depressed: 0 };
    let middle = seq![announce, down, up, clear];
    let all = keyboard::chord(codes, mask, shift_code, base);
    lemma_key_events_tap(announce, clear, base.evdev_code);
    lemma_key_events_presses(outer);
    lemma_key_events_releases(outer);
    lemma_key_events_concat(keyboard::presses(outer), middle);
    lemma_key_events_concat(keyboard::presses(outer) + middle, keyboard::releases(outer));
    let codes_all = outer.push(base.evdev_code);
    assert(key_events(all) =~= codes_all.map_values(|c: u32| (c, true))
        + codes_all.reverse().map_values(|c: u32| (c, false)));
    lemma_mirrored(codes_all, key_events(all));
    assert forall|start: u32| #[trigger] final_mask(all, start) == 0 by {
        lemma_final_mask_releases(keyboard::presses(outer) + middle, outer.reverse(), start);
        assert((keyboard::presses(outer) + middle).last() == clear);
    }
}

/// Key events at the end do not change the announced mask.
proof fn lemma_final_mask_releases(head: Seq<KeyAction>, codes: Seq<u32>, start: u32)
    ensures
        final_mask(
            head + codes.map_values(|code: u32| KeyAction::Key { code, pressed: false }),
            start,
        ) == final_mask(head, start),
    decreases codes.len(),
{
    let ups = codes.map_values(|code: u32| KeyAction::Key { code, pressed: false });
    if codes.len() == 0 {
        assert(head + ups =~= head);
    } else {
        lemma_final_mask_releases(head, codes.drop_last(), start);
        assert((head + ups).drop_last() =~= head + codes.drop_last().map_values(
            |code: u32| KeyAction::Key { code, pressed: false },
        ));
    }
}

/// Where nothing but a roundtrip follows, the key events and the mask stay.
pub(crate) proof fn lemma_then_roundtrip(actions: Seq<KeyAction>, start: u32)
    ensures
        key_events(actions + seq![KeyAction::Roundtrip]) == key_events(actions),
        final_mask(actions + seq![KeyAction::Roundtrip], start) == final_mask(actions, start),
{
    assert((actions + seq![KeyAction::Roundtrip]).drop_last() =~= actions);
}

/// Held keys come up in the reverse of the order in which they went down, and no
/// modifier stays announced.
pub proof fn law_hold_is_mirrored(
    codes: Seq<u32>,
    mask: u32,
    shift_code: u32,
    placements: Seq<KeyPlacement>,
    duration_ms: u64,
)
    ensures
        is_mirrored(
            key_events(keyboard::hold(codes, mask, shift_code, placements, duration_ms)),
        ),
        forall|start: u32| #[trigger]
            final_mask(keyboard::hold(codes, mask, shift_code, placements, duration_ms), start)
                == 0,
{
    let shifted = keyboard::any_shift(placements);
    let outer = codes + keyboard::shift_keys(shifted, shift_code);
    let inner = keyboard::placed_codes(placements);
    let announce = seq![
        KeyAction::Modifiers { depressed: keyboard::with_shift(mask, shifted) },
    ];
    let pause = seq![KeyAction::Flush, KeyAction::Sleep { millis: duration_ms }];
    let clear = seq![KeyAction::Modifiers { depressed: 0 }];
    let last = seq![KeyAction::Roundtrip];
    let all = keyboard::hold(codes, mask, shift_code, placements, duration_ms);
    let none = Seq::<(u32, bool)>::empty();
    assert(key_events(announce) =~= none) by {
        reveal_with_fuel(key_events, 2);
    }
    assert(key_events(pause) =~= none) by {
        reveal_with_fuel(key_events, 3);
        assert(pause.drop_last() =~= seq![KeyAction::Flush]);
    }
    assert(key_events(clear) =~= none) by {
        reveal_with_fuel(key_events, 2);
    }
    lemma_key_events_presses(outer);
    lemma_key_events_presses(inner);
    lemma_key_events_releases(inner);
    lemma_key_events_releases(outer);
    let a = keyboard::presses(outer);
    let b = a + announce;
    let c = b + keyboard::presses(inner);
    let d = c + pause;
    let e = d + keyboard::releases(inner);
    let f = e + clear;
    let g = f + keyboard::releases(outer);
    lemma_key_events_concat(a, announce);
    lemma_key_events_concat(b, keyboard::presses(inner));
    lemma_key_events_concat(c, pause);
    lemma_key_events_concat(d, keyboard::releases(inner));
    lemma_key_events_concat(e, clear);
    lemma_key_events_concat(f, keyboard::releases(outer));
    lemma_then_roundtrip(g, 0);
    let codes_all = outer + inner;
    assert(key_events(all) =~= codes_all.map_values(|k: u32| (k, true))
        + codes_all.reverse().map_values(|k: u32| (k, false)));
    lemma_mirrored(codes_all, key_events(all));
    assert forall|start: u32| #[trigger] final_mask(all, start) == 0 by {
        lemma_then_roundtrip(g, start);
        lemma_final_mask_releases(f, outer.reverse(), start);
        assert(f.last() == KeyAction::Modifiers { depressed: 0 });
    }
}

/// Pressing modifiers and then releasing them leaves no key down and no modifier
/// announced, and the keys come up in reverse.
pub proof fn law_modifier_hold_is_mirrored(hold: keyboard::ModifierHold)
    ensures
        is_mirrored(key_events(hold.press_view() + hold.release_view())),
        forall|start: u32| #[trigger]
            final_mask(hold.press_view() + hold.release_view(), start) == 0,
        forall|start: u32| #[trigger] final_mask(hold.press_view(), start) == hold.mask,
{
    let codes = hold.codes@;
    let middle = seq![KeyAction::Modifiers { depressed: hold.mask }, KeyAction::Roundtrip];
    let clear = seq![KeyAction::Modifiers { depressed: 0 }];
    let none = Seq::<(u32, bool)>::empty();
    assert(key_events(middle) =~= none) by {
        reveal_with_fuel(key_events, 3);
        assert(middle.drop_last() =~= seq![KeyAction::Modifiers { depressed: hold.mask }]);
    }
    assert(key_events(clear) =~= none) by {
        reveal_with_fuel(key_events, 2);
    }
    let press = hold.press_view();
    let release = hold.release_view();
    let body = clear + keyboard::releases(codes);
    lemma_key_events_presses(codes);
    lemma_key_events_releases(codes);
    lemma_key_events_concat(keyboard::presses(codes), middle);
    lemma_key_events_concat(clear, keyboard::releases(codes));
    lemma_then_roundtrip(body, 0);
    lemma_key_events_concat(press, release);
    let all = press + release;
    assert(key_events(all) =~= codes.map_values(|k: u32| (k, true)) + codes.reverse().map_values(
        |k: u32| (k, false),
    ));
    lemma_mirrored(codes, key_events(all));
    assert forall|start: u32| #[trigger] final_mask(all, start) == 0 by {
        assert(all =~= (press + clear) + keyboard::releases(codes) + seq![KeyAction::Roundtrip]);
        lemma_then_roundtrip((press + clear) + keyboard::releases(codes), start);
        lemma_final_mask_releases(press + clear, codes.reverse(), start);
        assert((press + clear).last() == KeyAction::Modifiers { depressed: 0 });
    }
    assert forall|start: u32| #[trigger] final_mask(press, start) == hold.mask by {
        reveal_with_fuel(final_mask, 2);
        assert(press.last() == KeyAction::Roundtrip);
        assert(press.drop_last().last() == KeyAction::Modifiers { depressed: hold.mask });
    }
}

/// Every round of a key sequence leaves no key down and no modifier announced.
pub proof fn law_sequence_round_is_mirrored(sequence: keyboard::KeySequenceView, i: u32)
    ensures
        is_mirrored(key_events(sequence.round(i).actions)),
        forall|start: u32| #[trigger] final_mask(sequence.round(i).actions, start) == 0,
{
    let part = keyboard::chord(
        sequence.codes,
        sequence.mask,
        sequence.keymap.shift_code,
        sequence.base,
    );
    law_chord_is_mirrored(
        sequence.codes,
        sequence.mask,
        sequence.keymap.shift_code,
        sequence.base,
    );
    lemma_round_end(part, sequence.round(i).actions);
}

/// A round that is a part, perhaps with a roundtrip behind it, keeps what holds of
/// the part.
proof fn lemma_round_end(part: Seq<KeyAction>, actions: Seq<KeyAction>)
    requires
        actions == part + seq![KeyAction::Roundtrip] || actions == part + Seq::<KeyAction>::empty(),
        is_mirrored(key_events(part)),
        forall|start: u32| #[trigger] final_mask(part, start) == 0,
    ensures
        is_mirrored(key_events(actions)),
        forall|start: u32| #[trigger] final_mask(actions, start) == 0,
{
    assert(part + Seq::<KeyAction>::empty() =~= part);
    assert forall|start: u32| #[trigger] final_mask(actions, start) == 0 by {
        lemma_then_roundtrip(part, start);
        assert(final_mask(part, start) == 0);
    }
    lemma_then_roundtrip(part, 0);
}

/// Every round of typing leaves no key down and no modifier announced.
pub proof fn law_typing_round_is_mirrored(plan: TypePlanView, i: int)
    ensures
        is_mirrored(key_events(plan.round(i).actions)),
        forall|start: u32| #[trigger] final_mask(plan.round(i).actions, start) == 0,
{
    let (map, slot): (KeymapView, int) = match plan.page {
        Some(map) => (map, plan.slots[i] as int),
        None => (keymap::keymap_of(seq![plan.keysyms[i]]), 0),
    };
    law_chord_is_mirrored(Seq::<u32>::empty(), 0, map.shift_code, map.placements[slot]);
    lemma_round_end(keyboard::tap(map, slot), plan.round(i).actions);
}

/// A text with few enough distinct symbols is typed with a single upload, and each
/// of its characters with the key of its own keysym, so that a repeated character
/// uses the same key again.
pub proof fn law_one_page_typing(keysyms: Seq<u32>, delay_ms: u64, i: int, j: int)
    requires
        keyboard::fits_one_page(keysyms),
        0 <= i < keysyms.len() <= usize::MAX,
        0 <= j < keysyms.len(),
    ensures
        ({
            let plan = keyboard::plan_for(keysyms, delay_ms);
            let page = keyboard::distinct(keysyms);
            &&& plan.round(i).upload is Some <==> i == 0
            &&& plan.slots[i] < page.len()
            &&& page[plan.slots[i] as int] == keysyms[i]
            &&& keysyms[i] == keysyms[j] <==> plan.slots[i] == plan.slots[j]
        }),
{
    keyboard::lemma_distinct(keysyms);
    let page = keyboard::distinct(keysyms);
    assert(keysyms.contains(keysyms[i]));
    assert(keysyms.contains(keysyms[j]));
    assert(page.contains(keysyms[i]));
    assert(page.contains(keysyms[j]));
}

/// A text with too many distinct symbols gets a keymap for each character, which
/// places that character alone.
pub proof fn law_paged_typing(keysyms: Seq<u32>, delay_ms: u64, i: int)
    requires
        !keyboard::fits_one_page(keysyms),
        0 <= i < keysyms.len(),
    ensures
        keyboard::plan_for(keysyms, delay_ms).round(i).upload == Some(
            keymap::keymap_of(seq![keysyms[i]]),
        ),
        keymap::keymap_of(seq![keysyms[i]]).placements.len() == 1,
{
}

/// The codes of physical positions are below 128.
proof fn lemma_physical_code_bound(keysym: u32)
    ensures
        layout::placement_of(keysym) matches Some(p) ==> p.evdev_code <= 127,
{
    lemma_row_seat(keysym, 0);
    if let Some(p) = layout::row_placement(keysym, 0) {
        let (row, i) = choose|row: int, i: int| #[trigger] layout::is_seat(p, keysym, row, i);
        layout::lemma_rows(row);
    }
}

/// Every keymap that typing uploads keeps its XKB keycodes within one byte.
pub proof fn law_typing_keycodes_fit_a_byte(keysyms: Seq<u32>, delay_ms: u64, i: int)
    requires
        0 <= i < keysyms.len(),
    ensures
        keyboard::plan_for(keysyms, delay_ms).round(i).upload matches Some(map) ==> {
            &&& forall|m: Modifier| #[trigger]
                map.modifier_code(m) + keymap::EVDEV_OFFSET <= 255
            &&& forall|k: int|
                0 <= k < map.placements.len() ==> (#[trigger] map.placements[k]).evdev_code
                    + keymap::EVDEV_OFFSET <= 255
        },
{
    if let Some(map) = keyboard::plan_for(keysyms, delay_ms).round(i).upload {
        let wanted = if keyboard::fits_one_page(keysyms) {
            keyboard::distinct(keysyms)
        } else {
            seq![keysyms[i]]
        };
        assert(map == keymap::keymap_of(wanted));
        assert forall|k: int| 0 <= k < map.placements.len() implies (
        #[trigger] map.placements[k]).evdev_code + keymap::EVDEV_OFFSET <= 255 by {
            law_placements(wanted, k);
            lemma_physical_code_bound(wanted[k]);
        }
    }
}

/// Whether the key at a position of a keymap stands for the keysym: on the stock
/// keymap it is where a US keyboard has the symbol, and any other keymap binds the
/// symbol to the key at both levels.
pub open spec fn carries(map: KeymapView, p: KeyPlacement, keysym: u32) -> bool {
    ||| map.text == keymap::us_text() && layout::yields(p, keysym)
    ||| !p.needs_shift && syntax::occurs_in(
        keymap::symbol_binding(
            (p.evdev_code + keymap::EVDEV_OFFSET) as nat,
            keysym::symbol_of(keysym),
        ),
        map.text,
    )
}

/// Each key that a keymap places stands for the keysym that was asked for.
pub proof fn law_placement_carries(keysyms: Seq<u32>, i: int)
    requires
        0 <= i < keysyms.len(),
        keymap::all_physical(keysyms) || keysyms.len() <= keymap::MAX_SYMBOLS,
    ensures
        carries(keymap::keymap_of(keysyms), keymap::keymap_of(keysyms).placements[i], keysyms[i]),
{
    law_placements(keysyms, i);
    if !keymap::all_physical(keysyms) {
        law_symbol_is_bound(keymap::symbols_of(keysyms), i);
    }
}

/// A key sequence taps a key that stands for the base key's keysym.
pub proof fn law_sequence_carries(
    keysym: u32,
    modifiers: Seq<Seq<char>>,
    repeat: Option<u32>,
)
    ensures
        ({
            let map = keymap::keymap_of(seq![keysym]);
            carries(map, keyboard::sequence_on(map, modifiers, repeat).base, keysym)
        }),
{
    law_placement_carries(seq![keysym], 0);
}

/// The keymap that is in force in a round of typing: the page, or that of the round.
pub open spec fn typing_keymap(plan: TypePlanView, i: int) -> KeymapView {
    match plan.page {
        Some(map) => map,
        None => keymap::keymap_of(seq![plan.keysyms[i]]),
    }
}

/// Typing types the text: each round taps a key that stands, on the keymap which was
/// uploaded last, for the keysym of the round's character.
pub proof fn law_typing_carries(keysyms: Seq<u32>, delay_ms: u64, i: int) -> (slot: int)
    requires
        0 <= i < keysyms.len() <= usize::MAX,
    ensures
        ({
            let plan = keyboard::plan_for(keysyms, delay_ms);
            let map = typing_keymap(plan, i);
            &&& plan.round(0).upload == Some(typing_keymap(plan, 0))
            &&& plan.round(i).upload is None ==> map == typing_keymap(plan, 0)
            &&& plan.round(i).upload matches Some(uploaded) ==> map == uploaded
            &&& 0 <= slot < map.placements.len()
            &&& keyboard::tap(map, slot).is_prefix_of(plan.round(i).actions)
            &&& carries(map, map.placements[slot], keysyms[i])
        }),
{
    let plan = keyboard::plan_for(keysyms, delay_ms);
    if keyboard::fits_one_page(keysyms) {
        law_one_page_typing(keysyms, delay_ms, i, i);
        let slot = plan.slots[i] as int;
        law_placement_carries(keyboard::distinct(keysyms), slot);
        assert(keyboard::tap(plan.page->0, slot) =~= plan.round(i).actions.take(
            keyboard::tap(plan.page->0, slot).len() as int,
        ));
        slot
    } else {
        let map = keymap::keymap_of(seq![keysyms[i]]);
        law_placement_carries(seq![keysyms[i]], 0);
        assert(keyboard::tap(map, 0) =~= plan.round(i).actions.take(
            keyboard::tap(map, 0).len() as int,
        ));
        0
    }
}

/// Text whose braces match has as many that open as that close.
pub proof fn law_balanced_counts(s: Seq<char>)
    requires
        syntax::is_balanced(s),
    ensures
        syntax::occurrences(s, '{', s.len() as int) == syntax::occurrences(s, '}', s.len() as int),
{
    syntax::lemma_brace_counts(s, s.len() as int);
}

/// Physical positions are used exactly where every requested symbol has one, also
/// where none is requested: each symbol is then at its own position, the modifiers are
/// at theirs, and the text is the stock one. Where even one symbol has no position, the
/// whole list gets a keymap of its own and no physical position is mixed in.
pub proof fn law_physical_or_symbols(keysyms: Seq<u32>)
    ensures
        ({
            let map = keymap::keymap_of(keysyms);
            &&& map.placements.len() == keysyms.len()
            &&& keymap::all_physical(keysyms) ==> {
                &&& forall|i: int|
                    0 <= i < keysyms.len() ==> layout::placement_of(keysyms[i]) == Some(
                        #[trigger] map.placements[i],
                    )
                &&& map.ctrl_code == 29
                &&& map.shift_code == 42
                &&& map.alt_code == 56
                &&& map.super_code == 125
                &&& map.text == keymap::us_text()
                &&& syntax::occurs_in("evdev+aliases(qwerty)"@, map.text)
                &&& syntax::occurs_in("pc+us+inet(evdev)"@, map.text)
            }
            &&& !keymap::all_physical(keysyms) ==> {
                &&& map == keymap::symbol_keymap(keymap::symbols_of(keysyms))
                &&& map.placements == keymap::consecutive(keysyms.len())
                &&& map.ctrl_code == 1
                &&& map.shift_code == 2
                &&& map.alt_code == 3
                &&& map.super_code == 4
            }
        }),
{
    lemma_stock_includes();
    let map = keymap::keymap_of(keysyms);
    if keymap::all_physical(keysyms) {
        assert forall|i: int| 0 <= i < keysyms.len() implies layout::placement_of(keysyms[i])
            == Some(#[trigger] map.placements[i]) by {
            assert(layout::placement_of(keysyms[i]) is Some);
        }
    }
}

/// The stock text takes its keycodes and symbols from the US layout.
proof fn lemma_stock_includes()
    ensures
        syntax::occurs_in("evdev+aliases(qwerty)"@, keymap::us_text()),
        syntax::occurs_in("pc+us+inet(evdev)"@, keymap::us_text()),
{
    let head = "xkb_keymap {\n"@;
    let keycodes = "xkb_keycodes { include \"evdev+aliases(qwerty)\" };\n"@;
    let types = "xkb_types { include \"complete\" };\n"@;
    let compat = "xkb_compatibility { include \"complete\" };\n"@;
    let symbols = "xkb_symbols { include \"pc+us+inet(evdev)\" };\n"@;
    reveal_strlit("xkb_keycodes { include \"evdev+aliases(qwerty)\" };\n");
    reveal_strlit("xkb_symbols { include \"pc+us+inet(evdev)\" };\n");
    reveal_strlit("evdev+aliases(qwerty)");
    reveal_strlit("pc+us+inet(evdev)");
    assert(keycodes =~= keycodes.take(24) + "evdev+aliases(qwerty)"@ + keycodes.skip(45));
    assert(symbols =~= symbols.take(23) + "pc+us+inet(evdev)"@ + symbols.skip(40));
    let rest = types + compat + symbols + "};\n"@;
    lemma_occurs_within("evdev+aliases(qwerty)"@, keycodes, head, rest);
    assert(head + keycodes + rest =~= keymap::us_text());
    let front = head + keycodes + types + compat;
    lemma_occurs_within("pc+us+inet(evdev)"@, symbols, front, "};\n"@);
    assert(front + symbols + "};\n"@ =~= keymap::us_text());
}

/// Different characters have different keysyms, but for the two line ends.
pub proof fn law_char_keysyms_differ(a: char, b: char)
    requires
        keysym::keysym_of_char(a) == keysym::keysym_of_char(b),
    ensures
        a == b || (a == '\n' || a == '\r') && (b == '\n' || b == '\r'),
{
}

/// A character beyond Latin-1 has the Unicode keysym, and its symbol is `U` and its
/// code point in hexadecimal.
pub proof fn law_beyond_latin1(ch: char)
    requires
        ch as u32 > 0xff,
    ensures
        keysym::keysym_of_char(ch) == 0x0100_0000 + ch as u32,
        keysym::symbol_of(keysym::keysym_of_char(ch)) == "U"@ + text::hex(ch as nat, 4),
{
    law_unicode_symbols(ch as u32, ch as u32);
}

} // verus!
