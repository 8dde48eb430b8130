//! What holds of numerals, case and tokens.

use vstd::prelude::*;

use crate::error::KeyErrorView;
use crate::keyspec;
use crate::keyspec::Modifier;
use crate::laws;
use crate::syntax;
use crate::text;

verus! {

/// What a digit is worth.
pub open spec fn digit_value(c: char) -> nat {
    if '0' <= c <= '9' {
        (c as u32 - 0x30) as nat
    } else {
        (c as u32 - 0x37) as nat
    }
}

/// What a numeral is worth in a base.
pub open spec fn numeral_value(digits: Seq<char>, base: nat) -> nat
    decreases digits.len(),
{
    if digits.len() == 0 {
        0
    } else {
        numeral_value(digits.drop_last(), base) * base + digit_value(digits.last())
    }
}

/// A digit is one of 0 to 9 and A to F, and is worth its number.
pub proof fn law_digit(d: nat)
    requires
        d < 16,
    ensures
        digit_value(text::digit(d)) == d,
        d < 10 ==> '0' <= text::digit(d) <= '9',
        d >= 10 ==> 'A' <= text::digit(d) <= 'F',
{
}

/// A decimal numeral is made of the digits 0 to 9, is worth its number and has no
/// needless zero in front.
pub proof fn law_decimal_value(n: nat)
    ensures
        forall|i: int|
            0 <= i < text::decimal(n).len() ==> '0' <= #[trigger] text::decimal(n)[i] <= '9',
        numeral_value(text::decimal(n), 10) == n,
        text::decimal(n).len() > 0,
        n >= 10 ==> text::decimal(n).len() > 1,
        text::decimal(n).len() > 1 ==> text::decimal(n)[0] != '0',
    decreases n,
{
    let s = text::decimal(n);
    if n < 10 {
        assert(s.drop_last() =~= Seq::<char>::empty());
        assert(numeral_value(s.drop_last(), 10) == 0);
    } else {
        law_decimal_value(n / 10);
        assert(s.drop_last() =~= text::decimal(n / 10));
        if n / 10 < 10 {
            assert(text::decimal(n / 10)[0] == text::digit(n / 10));
        }
        assert(s[0] == text::decimal(n / 10)[0]);
    }
}

/// A hexadecimal numeral is made of the digits 0 to 9 and A to F, is worth its number,
/// has at least the digits that were asked for, and no needless zero beyond them.
pub proof fn law_hex_value(n: nat, width: nat)
    ensures
        forall|i: int|
            0 <= i < text::hex(n, width).len() ==> ('0' <= #[trigger] text::hex(n, width)[i] <= '9'
                || 'A' <= text::hex(n, width)[i] <= 'F'),
        numeral_value(text::hex(n, width), 16) == n,
        text::hex(n, width).len() > 0,
        n >= 16 ==> text::hex(n, width).len() > 1,
        text::hex(n, width).len() >= width,
        text::hex(n, width).len() > 1 && text::hex(n, width).len() > width ==> text::hex(
            n,
            width,
        )[0] != '0',
    decreases n, width,
{
    let s = text::hex(n, width);
    if n < 16 && width <= 1 {
        assert(s.drop_last() =~= Seq::<char>::empty());
        assert(numeral_value(s.drop_last(), 16) == 0);
    } else {
        let rest: nat = if width == 0 {
            0
        } else {
            (width - 1) as nat
        };
        law_hex_value(n / 16, rest);
        assert(s.drop_last() =~= text::hex(n / 16, rest));
        assert(s[0] == text::hex(n / 16, rest)[0]);
        assert(text::hex(n / 16, rest).last() == text::digit((n / 16) % 16));
    }
}

/// Lower case changes the capitals A to Z into a to z and nothing else.
pub proof fn law_lowered(s: Seq<char>, i: int)
    requires
        0 <= i < s.len(),
    ensures
        text::lowered(s).len() == s.len(),
        'A' <= s[i] <= 'Z' ==> text::lowered(s)[i] as u32 == s[i] as u32 + 0x20,
        !('A' <= s[i] <= 'Z') ==> text::lowered(s)[i] == s[i],
{
}

/// White space is a tab, a line end or another of U+0009 to U+000D, a blank, or one of
/// the spaces and separators that Unicode lists.
pub proof fn law_white_space(c: char)
    ensures
        text::is_white_space(c) <==> seq![
            0x9u32, 0xa, 0xb, 0xc, 0xd, 0x20, 0x85, 0xa0, 0x1680, 0x2000, 0x2001, 0x2002, 0x2003,
            0x2004, 0x2005, 0x2006, 0x2007, 0x2008, 0x2009, 0x200a, 0x2028, 0x2029, 0x202f, 0x205f,
            0x3000,
        ].contains(c as u32),
{
    let list = seq![
        0x9u32, 0xa, 0xb, 0xc, 0xd, 0x20, 0x85, 0xa0, 0x1680, 0x2000, 0x2001, 0x2002, 0x2003,
        0x2004, 0x2005, 0x2006, 0x2007, 0x2008, 0x2009, 0x200a, 0x2028, 0x2029, 0x202f, 0x205f,
        0x3000,
    ];
    assert(list[0] == 0x9 && list[1] == 0xa && list[2] == 0xb && list[3] == 0xc && list[4] == 0xd
        && list[5] == 0x20 && list[6] == 0x85 && list[7] == 0xa0 && list[8] == 0x1680);
    assert(list[9] == 0x2000 && list[10] == 0x2001 && list[11] == 0x2002 && list[12] == 0x2003
        && list[13] == 0x2004 && list[14] == 0x2005 && list[15] == 0x2006 && list[16] == 0x2007);
    assert(list[17] == 0x2008 && list[18] == 0x2009 && list[19] == 0x200a && list[20] == 0x2028
        && list[21] == 0x2029 && list[22] == 0x202f && list[23] == 0x205f && list[24] == 0x3000);
    if list.contains(c as u32) {
        let i = choose|i: int| 0 <= i < list.len() && list[i] == c as u32;
        assert(list[i] == c as u32);
    }
}

proof fn lemma_filter_last(s: Seq<char>)
    requires
        s.len() > 0,
    ensures
        s.filter(|c: char| c != '_') == if s.last() != '_' {
            s.drop_last().filter(|c: char| c != '_').push(s.last())
        } else {
            s.drop_last().filter(|c: char| c != '_')
        },
{
    reveal(Seq::filter);
}

/// Whether `word` holds the characters of `s` in order, each moved to the left by the
/// underscores before it, which are dropped.
spec fn is_without_underscores(s: Seq<char>, word: Seq<char>) -> bool {
    &&& word.len() == s.len() - syntax::occurrences(s, '_', s.len() as int)
    &&& forall|i: int|
        0 <= i < s.len() && #[trigger] s[i] != '_' ==> 0 <= i - syntax::occurrences(s, '_', i)
            < word.len() && word[i - syntax::occurrences(s, '_', i)] == s[i]
}

proof fn lemma_without_underscores(s: Seq<char>)
    ensures
        is_without_underscores(s, s.filter(|c: char| c != '_')),
    decreases s.len(),
{
    let word = s.filter(|c: char| c != '_');
    if s.len() > 0 {
        let init = s.drop_last();
        let n = init.len() as int;
        let before = init.filter(|c: char| c != '_');
        lemma_without_underscores(init);
        lemma_filter_last(s);
        lemma_occurrences_prefix(s, init, '_', n);
        assert forall|i: int| 0 <= i < s.len() && #[trigger] s[i] != '_' implies 0 <= i
            - syntax::occurrences(s, '_', i) < word.len() && word[i - syntax::occurrences(
            s,
            '_',
            i,
        )] == s[i] by {
            lemma_occurrences_prefix(s, init, '_', i);
            if i < n {
                assert(init[i] == s[i]);
                assert(before[i - syntax::occurrences(init, '_', i)] == s[i]);
            }
        }
    } else {
        reveal(Seq::filter);
    }
}

proof fn lemma_occurrences_prefix(s: Seq<char>, init: Seq<char>, c: char, n: int)
    requires
        0 <= n <= init.len() <= s.len(),
        init == s.take(init.len() as int),
    ensures
        syntax::occurrences(s, c, n) == syntax::occurrences(init, c, n),
        syntax::occurrences(s, c, n) <= n,
    decreases n,
{
    if n > 0 {
        lemma_occurrences_prefix(s, init, c, n - 1);
    }
}

/// The form under which a token is looked up holds the characters of the trimmed token
/// in order, in lower case, each moved to the left by the underscores before it, which
/// are dropped.
pub proof fn law_normalized(token: Seq<char>)
    ensures
        ({
            let t = text::trim(token);
            let word = keyspec::normalized(token);
            &&& word.len() == t.len() - syntax::occurrences(t, '_', t.len() as int)
            &&& forall|i: int|
                0 <= i < t.len() && #[trigger] t[i] != '_' ==> {
                    let at = i - syntax::occurrences(t, '_', i);
                    &&& 0 <= at < word.len()
                    &&& 'A' <= t[i] <= 'Z' ==> word[at] as u32 == t[i] as u32 + 0x20
                    &&& !('A' <= t[i] <= 'Z') ==> word[at] == t[i]
                }
            &&& !word.contains('_')
        }),
{
    let t = text::trim(token);
    let low = text::lowered(t);
    let word = keyspec::normalized(token);
    lemma_without_underscores(low);
    assert forall|n: int| 0 <= n <= t.len() implies #[trigger] syntax::occurrences(t, '_', n)
        == syntax::occurrences(low, '_', n) by {
        lemma_occurrences_lowered(t, n);
    }
    assert forall|i: int| 0 <= i < t.len() && #[trigger] t[i] != '_' implies {
        let at = i - syntax::occurrences(t, '_', i);
        &&& 0 <= at < word.len()
        &&& 'A' <= t[i] <= 'Z' ==> word[at] as u32 == t[i] as u32 + 0x20
        &&& !('A' <= t[i] <= 'Z') ==> word[at] == t[i]
    } by {
        assert(low[i] != '_');
    }
    lemma_no_underscore(low);
}

proof fn lemma_no_underscore(s: Seq<char>)
    ensures
        !s.filter(|c: char| c != '_').contains('_'),
    decreases s.len(),
{
    reveal(Seq::filter);
    let f = |c: char| c != '_';
    if s.len() > 0 {
        lemma_no_underscore(s.drop_last());
        let before = s.drop_last().filter(f);
        if s.filter(f).contains('_') {
            let i = choose|i: int| 0 <= i < s.filter(f).len() && s.filter(f)[i] == '_';
            if i < before.len() {
                assert(before[i] == '_');
                assert(before.contains('_'));
            }
        }
    }
}

proof fn lemma_occurrences_lowered(s: Seq<char>, n: int)
    requires
        0 <= n <= s.len(),
    ensures
        syntax::occurrences(s, '_', n) == syntax::occurrences(text::lowered(s), '_', n),
    decreases n,
{
    if n > 0 {
        lemma_occurrences_lowered(s, n - 1);
    }
}

/// The eight words that name a modifier, and which one each of them names; no other
/// word names one.
pub proof fn law_modifier_words(token: Seq<char>)
    ensures
        ({
            let word = keyspec::normalized(token);
            let control = word == "ctrl"@ || word == "control"@;
            let shift = word == "shift"@;
            let alt = word == "alt"@;
            let sup = word == "super"@ || word == "meta"@ || word == "cmd"@ || word == "command"@;
            &&& control <==> keyspec::modifier_of(token) == Some(Modifier::Control)
            &&& shift <==> keyspec::modifier_of(token) == Some(Modifier::Shift)
            &&& alt <==> keyspec::modifier_of(token) == Some(Modifier::Alt)
            &&& sup <==> keyspec::modifier_of(token) == Some(Modifier::Super)
            &&& keyspec::names_modifier(token) <==> control || shift || alt || sup
        }),
{
    keyspec::lemma_modifier_words(token);
    reveal_strlit("ctrl");
    reveal_strlit("control");
    reveal_strlit("shift");
    reveal_strlit("alt");
    reveal_strlit("super");
    reveal_strlit("meta");
    reveal_strlit("cmd");
    reveal_strlit("command");
    assert("ctrl"@[1] == 't');
    assert("cmd"@[1] == 'm');
    assert("control"@[1] == 'o');
    assert("command"@[2] == 'm');
    assert("control"@[2] == 'n');
    assert("shift"@[0] == 's');
    assert("super"@[1] == 'u');
    assert("shift"@[1] == 'h');
    assert("alt"@[0] == 'a');
    assert("meta"@[0] == 'm');
    assert("ctrl"@[0] == 'c');
    assert("cmd"@[0] == 'c');
    assert("control"@[0] == 'c');
    assert("command"@[0] == 'c');
    assert("super"@[0] == 's');
}

/// The names and real-modifier bits of the modifiers.
pub proof fn law_modifier_values()
    ensures
        Modifier::Control.name() == "Control_L"@,
        Modifier::Shift.name() == "Shift_L"@,
        Modifier::Alt.name() == "Alt_L"@,
        Modifier::Super.name() == "Super_L"@,
        Modifier::Shift.bit() == 0x1,
        Modifier::Control.bit() == 0x4,
        Modifier::Alt.bit() == 0x8,
        Modifier::Super.bit() == 0x40,
{
}

/// Two texts with a separator between them split like each of them alone.
proof fn lemma_split_concat(a: Seq<char>, b: Seq<char>, sep: char)
    ensures
        text::split(a.push(sep) + b, sep) == text::split(a, sep) + text::split(b, sep),
    decreases b.len(),
{
    let all = a.push(sep) + b;
    if b.len() == 0 {
        assert(all.drop_last() =~= a);
        assert(all.last() == sep);
        assert(text::split(all, sep) =~= text::split(a, sep) + text::split(b, sep));
    } else {
        lemma_split_concat(a, b.drop_last(), sep);
        laws::law_split_join(b.drop_last(), sep);
        assert(all.drop_last() =~= a.push(sep) + b.drop_last());
        assert(text::split(all, sep) =~= text::split(a, sep) + text::split(b, sep));
    }
}

proof fn lemma_split_whole(s: Seq<char>, sep: char)
    requires
        !s.contains(sep),
    ensures
        text::split(s, sep) == seq![s],
    decreases s.len(),
{
    if s.len() == 0 {
        assert(s =~= Seq::<char>::empty());
    } else {
        let init = s.drop_last();
        assert(s[s.len() - 1] != sep) by {
            if s[s.len() - 1] == sep {
                assert(s.contains(sep));
            }
        }
        assert(!init.contains(sep)) by {
            if init.contains(sep) {
                let i = choose|i: int| 0 <= i < init.len() && init[i] == sep;
                assert(s[i] == sep);
            }
        }
        lemma_split_whole(init, sep);
        assert(init.push(s.last()) =~= s);
        assert(text::split(s, sep) =~= seq![s]);
    }
}

proof fn lemma_filter_concat(a: Seq<Seq<char>>, b: Seq<Seq<char>>)
    ensures
        (a + b).filter(|t: Seq<char>| t.len() > 0) == a.filter(|t: Seq<char>| t.len() > 0)
            + b.filter(|t: Seq<char>| t.len() > 0),
    decreases b.len(),
{
    reveal(Seq::filter);
    let f = |t: Seq<char>| t.len() > 0;
    if b.len() == 0 {
        assert(a + b =~= a);
        assert((a + b).filter(f) =~= a.filter(f) + b.filter(f));
    } else {
        lemma_filter_concat(a, b.drop_last());
        assert((a + b).drop_last() =~= a + b.drop_last());
        assert((a + b).filter(f) =~= a.filter(f) + b.filter(f));
    }
}

/// Text without a plus sign is a single token, trimmed, or none where it is blank; and
/// a plus sign parts two runs of tokens.
pub proof fn law_tokens(a: Seq<char>, b: Seq<char>)
    ensures
        !a.contains('+') ==> keyspec::tokens(a) == if text::trim(a).len() > 0 {
            seq![text::trim(a)]
        } else {
            Seq::<Seq<char>>::empty()
        },
        keyspec::tokens(a.push('+') + b) == keyspec::tokens(a) + keyspec::tokens(b),
{
    let cut = |piece: Seq<char>| text::trim(piece);
    let f = |t: Seq<char>| t.len() > 0;
    if !a.contains('+') {
        lemma_split_whole(a, '+');
        let one = seq![a].map_values(cut);
        assert(one =~= seq![text::trim(a)]);
        reveal(Seq::filter);
        assert(one.drop_last() =~= Seq::<Seq<char>>::empty());
        assert(one.drop_last().filter(f) =~= Seq::<Seq<char>>::empty());
        assert(one.last() == text::trim(a));
        assert(keyspec::tokens(a) =~= if text::trim(a).len() > 0 {
            seq![text::trim(a)]
        } else {
            Seq::<Seq<char>>::empty()
        });
    }
    lemma_split_concat(a, b, '+');
    let x = text::split(a, '+');
    let y = text::split(b, '+');
    assert((x + y).map_values(cut) =~= x.map_values(cut) + y.map_values(cut));
    lemma_filter_concat(x.map_values(cut), y.map_values(cut));
}

/// What a key spec parses to, told by its tokens.
///
/// Without tokens it is empty. With tokens that all name modifiers, the last one is the
/// base key and the ones before it are the modifiers. With a single token that names
/// none, that token is the base key and the others are the modifiers, in order. With
/// more of them, the first one is to blame.
pub proof fn law_parsed(spec: Seq<char>)
    ensures
        ({
            let list = keyspec::tokens(spec);
            &&& list.len() == 0 ==> keyspec::parsed(spec) == Err::<
                keyspec::KeySpecView,
                KeyErrorView,
            >(KeyErrorView::EmptySpec)
            &&& list.len() > 0 && (forall|i: int|
                0 <= i < list.len() ==> keyspec::names_modifier(#[trigger] list[i]))
                ==> keyspec::parsed(spec) == Ok::<keyspec::KeySpecView, KeyErrorView>(
                keyspec::KeySpecView { modifiers: list.drop_last(), base: list.last() },
            )
            &&& forall|b: int| #![trigger list[b]]
                0 <= b < list.len() && !keyspec::names_modifier(list[b]) && (forall|i: int|
                    0 <= i < list.len() && i != b ==> keyspec::names_modifier(#[trigger] list[i]))
                    ==> keyspec::parsed(spec) == Ok::<keyspec::KeySpecView, KeyErrorView>(
                    keyspec::KeySpecView {
                        modifiers: list.take(b) + list.skip(b + 1),
                        base: list[b],
                    },
                )
            &&& forall|a: int, b: int| #![trigger list[a], list[b]]
                0 <= a < b < list.len() && !keyspec::names_modifier(list[a])
                    && !keyspec::names_modifier(list[b]) && (forall|i: int|
                    0 <= i < a ==> keyspec::names_modifier(#[trigger] list[i])) ==> keyspec::parsed(
                    spec,
                ) == Err::<keyspec::KeySpecView, KeyErrorView>(
                    KeyErrorView::UnexpectedToken { token: list[a], spec },
                )
        }),
{
    let list = keyspec::tokens(spec);
    if list.len() > 0 {
        keyspec::lemma_base_exists(list);
        let base = choose|i: int| keyspec::is_base(list, i);
        assert(keyspec::is_base(list, base));
        if forall|i: int| 0 <= i < list.len() ==> keyspec::names_modifier(#[trigger] list[i]) {
            assert(base == list.len() - 1);
            assert(list.remove(base) =~= list.drop_last());
        }
        assert forall|b: int| #![trigger list[b]]
            0 <= b < list.len() && !keyspec::names_modifier(list[b]) && (forall|i: int|
                0 <= i < list.len() && i != b ==> keyspec::names_modifier(
                    #[trigger] list[i],
                )) implies keyspec::parsed(spec) == Ok::<keyspec::KeySpecView, KeyErrorView>(
            keyspec::KeySpecView { modifiers: list.take(b) + list.skip(b + 1), base: list[b] },
        ) by {
            assert(base == b) by {
                if base < b {
                    assert(keyspec::names_modifier(list[b]));
                }
                if b < base {
                    assert(keyspec::names_modifier(list[base]));
                }
            }
            assert(list.remove(base) =~= list.take(b) + list.skip(b + 1));
        }
        assert forall|a: int, b: int| #![trigger list[a], list[b]]
            0 <= a < b < list.len() && !keyspec::names_modifier(list[a])
                && !keyspec::names_modifier(list[b]) && (forall|i: int|
                0 <= i < a ==> keyspec::names_modifier(#[trigger] list[i])) implies keyspec::parsed(
            spec,
        ) == Err::<keyspec::KeySpecView, KeyErrorView>(
            KeyErrorView::UnexpectedToken { token: list[a], spec },
        ) by {
            assert(base >= b) by {
                if base < b {
                    assert(keyspec::names_modifier(list[b]));
                }
            }
            assert(keyspec::is_first_plain(list, a));
            let stray = choose|i: int| keyspec::is_first_plain(list, i) && i != base;
            assert(keyspec::is_first_plain(list, stray));
            assert(stray == a) by {
                if stray < a {
                    assert(keyspec::names_modifier(list[stray]));
                }
                if a < stray {
                    assert(keyspec::names_modifier(list[a]));
                }
            }
        }
    }
}

/// What a person is told, with the token, the key spec or the name in its place.
pub proof fn law_sentences(token: Seq<char>, other: Seq<char>)
    ensures
        KeyErrorView::EmptySpec.sentence() == "key spec is empty"@,
        (KeyErrorView::UnexpectedToken { token, spec: other }).sentence()
            == "unexpected non-modifier token `"@ + token + "` before base key in `"@ + other
            + "`"@,
        (KeyErrorView::UnsupportedKey { name: token, resolved: other }).sentence()
            == "unsupported key name `"@ + token + "` (resolved keysym name `"@ + other + "`)"@,
        KeyErrorView::NulCharacter.sentence() == "cannot type NUL"@,
        (KeyErrorView::NotAModifier { token }).sentence() == "`"@ + token
            + "` is not a modifier"@,
        KeyErrorView::EmptyHold.sentence() == "hold key list is empty"@,
{
}

} // verus!
