//! Key specs such as `ctrl+shift+tab`.
//!
//! ```text
//! spec     := token ("+" token)*
//! token    := modifier | keyname
//! modifier := "ctrl" | "control" | "alt" | "shift"
//!           | "super" | "meta" | "cmd" | "command"
//! keyname  := a key name of `CU_KEY_NAMES`, or a single literal character
//! ```
//!
//! Modifiers and key names match whatever their case; the base key is the last
//! token that is not a modifier.

use vstd::prelude::*;

use crate::error::{KeyError, KeyErrorView};
use crate::text;

verus! {

/// The words that name a modifier, in lower case.
pub const MODIFIER_TOKENS: [&'static str; 8] = [
    "ctrl",
    "control",
    "alt",
    "shift",
    "super",
    "meta",
    "cmd",
    "command",
];

/// The four modifiers that a virtual keyboard drives.
#[derive(Debug, Clone, Copy, PartialEq, Eq, Structural)]
pub enum Modifier {
    Control,
    Shift,
    Alt,
    Super,
}

/// A parsed key spec: the modifier tokens and the base key, as written.
#[derive(Debug, Clone)]
pub struct KeySpec {
    pub modifiers: Vec<String>,
    pub base: String,
}

/// The mathematical value of a [`KeySpec`].
pub struct KeySpecView {
    pub modifiers: Seq<Seq<char>>,
    pub base: Seq<char>,
}

impl View for KeySpec {
    type V = KeySpecView;

    open spec fn view(&self) -> KeySpecView {
        KeySpecView { modifiers: text::texts(self.modifiers@), base: self.base@ }
    }
}

impl Modifier {
    /// The name of the keysym that the modifier's left-hand key carries.
    pub open spec fn name(self) -> Seq<char> {
        match self {
            Modifier::Control => "Control_L"@,
            Modifier::Shift => "Shift_L"@,
            Modifier::Alt => "Alt_L"@,
            Modifier::Super => "Super_L"@,
        }
    }

    /// The modifier's bit in an XKB real-modifier mask.
    pub open spec fn bit(self) -> u32 {
        match self {
            Modifier::Control => 0x4,
            Modifier::Shift => 0x1,
            Modifier::Alt => 0x8,
            Modifier::Super => 0x40,
        }
    }
}

/// A token as the tables hold it: trimmed, in lower case and without underscores.
pub open spec fn normalized(token: Seq<char>) -> Seq<char> {
    text::lowered(text::trim(token)).filter(|c: char| c != '_')
}

/// Whether the token is one of the words that name a modifier.
pub open spec fn names_modifier(token: Seq<char>) -> bool {
    exists|i: int| 0 <= i < MODIFIER_TOKENS@.len() && #[trigger] MODIFIER_TOKENS@[i]@ == normalized(token)
}

/// The modifier that the token names.
pub open spec fn modifier_of(token: Seq<char>) -> Option<Modifier> {
    let word = normalized(token);
    if word == "ctrl"@ || word == "control"@ {
        Some(Modifier::Control)
    } else if word == "alt"@ {
        Some(Modifier::Alt)
    } else if word == "shift"@ {
        Some(Modifier::Shift)
    } else if word == "super"@ || word == "meta"@ || word == "cmd"@ || word == "command"@ {
        Some(Modifier::Super)
    } else {
        None
    }
}

/// The tokens of a key spec: what stands between the plus signs, trimmed,
/// with the empty ones left out.
pub open spec fn tokens(spec: Seq<char>) -> Seq<Seq<char>> {
    text::split(spec, '+').map_values(|piece: Seq<char>| text::trim(piece)).filter(
        |token: Seq<char>| token.len() > 0,
    )
}

/// Whether `i` is the place of the first token that names no modifier.
pub open spec fn is_first_plain(list: Seq<Seq<char>>, i: int) -> bool {
    &&& 0 <= i < list.len()
    &&& !names_modifier(list[i])
    &&& forall|j: int| 0 <= j < i ==> names_modifier(#[trigger] list[j])
}

/// Whether `i` is the place of the base key: the last token that names no
/// modifier, or the last token where all of them do.
pub open spec fn is_base(list: Seq<Seq<char>>, i: int) -> bool {
    &&& 0 <= i < list.len()
    &&& forall|j: int| i < j < list.len() ==> names_modifier(#[trigger] list[j])
    &&& names_modifier(list[i]) ==> i == list.len() - 1 && (forall|j: int|
        0 <= j < i ==> names_modifier(#[trigger] list[j]))
}

/// What a key spec means.
///
/// A key spec without tokens is refused, and so is one with a second token
/// that names no modifier; the first such token is the one to blame.
pub open spec fn parsed(spec: Seq<char>) -> Result<KeySpecView, KeyErrorView> {
    let list = tokens(spec);
    if list.len() == 0 {
        Err(KeyErrorView::EmptySpec)
    } else {
        let base = choose|i: int| is_base(list, i);
        if exists|i: int| is_first_plain(list, i) && i != base {
            let stray = choose|i: int| is_first_plain(list, i) && i != base;
            Err(KeyErrorView::UnexpectedToken { token: list[stray], spec })
        } else {
            Ok(KeySpecView { modifiers: list.remove(base), base: list[base] })
        }
    }
}

/// A token as the tables hold it: trimmed, in lower case and without underscores.
pub fn normalize_token(token: &str) -> (r: String)
    ensures
        r@ == normalized(token@),
{
    let chars = text::chars_of(text::trimmed(token).as_str());
    let ghost folded = text::lowered(text::trim(token@));
    let mut out = String::new();
    let mut i: usize = 0;
    assert(folded.take(0).filter(|c: char| c != '_') =~= Seq::<char>::empty()) by {
        reveal(Seq::filter);
    }
    while i < chars.len()
        invariant
            i <= chars@.len(),
            chars@ == text::trim(token@),
            folded == text::lowered(chars@),
            out@ == folded.take(i as int).filter(|c: char| c != '_'),
        decreases chars@.len() - i,
    {
        let c = text::char_lower(chars[i]);
        proof {
            reveal(Seq::filter);
            assert(folded.take(i + 1).drop_last() =~= folded.take(i as int));
            assert(folded.take(i + 1).last() == c);
        }
        if c != '_' {
            out.push(c);
        }
        i = i + 1;
    }
    assert(folded.take(i as int) =~= folded);
    out
}

/// True if `token` names a modifier. `cmd`, `command`, `meta` and `super` all count.
pub fn is_modifier(token: &str) -> (r: bool)
    ensures
        r == names_modifier(token@),
{
    let word = normalize_token(token);
    let mut i: usize = 0;
    while i < 8
        invariant
            i <= 8,
            word@ == normalized(token@),
            forall|j: int| 0 <= j < i ==> #[trigger] MODIFIER_TOKENS@[j]@ != word@,
        decreases 8 - i,
    {
        if text::same_text(MODIFIER_TOKENS[i], word.as_str()) {
            assert(MODIFIER_TOKENS@[i as int]@ == normalized(token@));
            return true;
        }
        i = i + 1;
    }
    false
}

/// A token names a modifier exactly where there is a modifier that it names.
pub proof fn lemma_modifier_words(token: Seq<char>)
    ensures
        names_modifier(token) <==> modifier_of(token) is Some,
{
    let word = normalized(token);
    if names_modifier(token) {
        let i = choose|i: int|
            0 <= i < MODIFIER_TOKENS@.len() && #[trigger] MODIFIER_TOKENS@[i]@ == word;
        assert(i == 0 || i == 1 || i == 2 || i == 3 || i == 4 || i == 5 || i == 6 || i == 7);
    }
    if modifier_of(token) is Some {
        assert(MODIFIER_TOKENS@[0]@ == "ctrl"@);
        assert(MODIFIER_TOKENS@[1]@ == "control"@);
        assert(MODIFIER_TOKENS@[2]@ == "alt"@);
        assert(MODIFIER_TOKENS@[3]@ == "shift"@);
        assert(MODIFIER_TOKENS@[4]@ == "super"@);
        assert(MODIFIER_TOKENS@[5]@ == "meta"@);
        assert(MODIFIER_TOKENS@[6]@ == "cmd"@);
        assert(MODIFIER_TOKENS@[7]@ == "command"@);
    }
}

/// The modifier that the token names.
pub fn modifier_for(token: &str) -> (r: Option<Modifier>)
    ensures
        r == modifier_of(token@),
{
    let word = normalize_token(token);
    let word = word.as_str();
    if text::same_text(word, "ctrl") || text::same_text(word, "control") {
        Some(Modifier::Control)
    } else if text::same_text(word, "alt") {
        Some(Modifier::Alt)
    } else if text::same_text(word, "shift") {
        Some(Modifier::Shift)
    } else if text::same_text(word, "super") || text::same_text(word, "meta") || text::same_text(
        word,
        "cmd",
    ) || text::same_text(word, "command") {
        Some(Modifier::Super)
    } else {
        None
    }
}

/// The keysym name of the modifier that the token names (`ctrl` gives `Control_L`).
pub fn modifier_keysym_name(token: &str) -> (r: Option<&'static str>)
    ensures
        match r {
            Some(name) => modifier_of(token@) matches Some(modifier) && name@ == modifier.name(),
            None => modifier_of(token@) is None,
        },
{
    match modifier_for(token) {
        Some(Modifier::Control) => Some("Control_L"),
        Some(Modifier::Shift) => Some("Shift_L"),
        Some(Modifier::Alt) => Some("Alt_L"),
        Some(Modifier::Super) => Some("Super_L"),
        None => None,
    }
}

/// The XKB real-modifier bit of the modifier that the token names: Control is
/// 0x4, Shift 0x1, Alt (Mod1) 0x8 and Super (Mod4) 0x40.
///
/// A virtual keyboard announces this bit beside the modifier's key event, because
/// some compositors read the modifier state from the announcement alone.
pub fn modifier_mask(token: &str) -> (r: Result<u32, KeyError>)
    ensures
        match r {
            Ok(mask) => modifier_of(token@) matches Some(modifier) && mask == modifier.bit(),
            Err(e) => modifier_of(token@) is None && e@ == (KeyErrorView::NotAModifier {
                token: token@,
            }),
        },
{
    match modifier_for(token) {
        Some(Modifier::Control) => Ok(0x0000_0004),
        Some(Modifier::Shift) => Ok(0x0000_0001),
        Some(Modifier::Alt) => Ok(0x0000_0008),
        Some(Modifier::Super) => Ok(0x0000_0040),
        None => Err(KeyError::NotAModifier { token: token.to_owned() }),
    }
}

/// The tokens of a key spec, trimmed, with the empty ones left out.
pub fn spec_tokens(spec: &str) -> (r: Vec<String>)
    ensures
        text::texts(r@) == tokens(spec@),
{
    let pieces = text::split_at_char(spec, '+');
    let ghost all = text::split(spec@, '+').map_values(|piece: Seq<char>| text::trim(piece));
    let mut list: Vec<String> = Vec::new();
    let mut i: usize = 0;
    proof {
        reveal(Seq::filter);
        assert(all.take(0).filter(|token: Seq<char>| token.len() > 0) =~= text::texts(list@));
    }
    while i < pieces.len()
        invariant
            i <= pieces@.len(),
            text::texts(pieces@) == text::split(spec@, '+'),
            all == text::split(spec@, '+').map_values(|piece: Seq<char>| text::trim(piece)),
            text::texts(list@) == all.take(i as int).filter(|token: Seq<char>| token.len() > 0),
        decreases pieces@.len() - i,
    {
        let token = text::trimmed(pieces[i].as_str());
        let ghost before = text::texts(list@);
        proof {
            reveal(Seq::filter);
            assert(pieces@[i as int]@ == text::texts(pieces@)[i as int]);
            assert(all.take(i + 1).drop_last() =~= all.take(i as int));
            assert(all.take(i + 1).last() == token@);
        }
        if !token.as_str().is_empty() {
            list.push(token);
            assert(text::texts(list@) =~= before.push(token@));
        }
        i = i + 1;
    }
    assert(all.take(i as int) =~= all);
    list
}

/// The two ways to leave out one token agree: copying the others in order, and
/// removing that one.
proof fn lemma_skip_one<A>(list: Seq<A>, at: int, i: int)
    requires
        0 <= at < list.len(),
        0 <= i < list.len(),
    ensures
        i == at ==> (if at < i + 1 {
            list.take(i + 1).remove(at)
        } else {
            list.take(i + 1)
        }) == list.take(i),
        i != at ==> (if at < i + 1 {
            list.take(i + 1).remove(at)
        } else {
            list.take(i + 1)
        }) == (if at < i {
            list.take(i).remove(at)
        } else {
            list.take(i)
        }).push(list[i]),
{
    if i == at {
        assert(list.take(i + 1).remove(at) =~= list.take(i));
    } else if at < i {
        assert(list.take(i + 1).remove(at) =~= list.take(i).remove(at).push(list[i]));
    } else {
        assert(list.take(i + 1) =~= list.take(i).push(list[i]));
    }
}

/// Parses a key spec (`ctrl+shift+tab`) into modifiers and base key.
///
/// The base key is the last token that is not a modifier; a key spec that
/// is all modifiers (`ctrl`) uses its last token as the base.
pub fn parse_spec(spec: &str) -> (r: Result<KeySpec, KeyError>)
    ensures
        match r {
            Ok(key_spec) => parsed(spec@) == Ok::<KeySpecView, KeyErrorView>(key_spec@),
            Err(e) => parsed(spec@) == Err::<KeySpecView, KeyErrorView>(e@),
        },
{
    let list = spec_tokens(spec);
    let ghost all = tokens(spec@);
    if list.len() == 0 {
        return Err(KeyError::EmptySpec);
    }
    let mut base: usize = list.len() - 1;
    let mut at: usize = list.len();
    while at > 0
        invariant_except_break
            base == list@.len() - 1,
            forall|j: int| at <= j < all.len() ==> names_modifier(#[trigger] all[j]),
        invariant
            at <= list@.len(),
            list@.len() > 0,
            text::texts(list@) == all,
        ensures
            is_base(all, base as int),
        decreases at,
    {
        assert(all[at - 1] == list@[at - 1]@);
        if !is_modifier(list[at - 1].as_str()) {
            base = at - 1;
            break;
        }
        at = at - 1;
    }
    proof {
        let chosen = choose|i: int| is_base(all, i);
        assert(chosen == base) by {
            if chosen < base {
                assert(names_modifier(all[base as int]));
                assert(names_modifier(all[chosen]));
            }
            if base < chosen {
                assert(names_modifier(all[chosen]));
                assert(names_modifier(all[base as int]));
            }
        }
    }
    let mut modifiers: Vec<String> = Vec::new();
    let mut i: usize = 0;
    while i < list.len()
        invariant
            i <= list@.len(),
            base < list@.len(),
            text::texts(list@) == all,
            all == tokens(spec@),
            is_base(all, base as int),
            base == (choose|i: int| is_base(all, i)),
            forall|j: int| 0 <= j < i && j != base ==> names_modifier(#[trigger] all[j]),
            text::texts(modifiers@) == if base < i {
                all.take(i as int).remove(base as int)
            } else {
                all.take(i as int)
            },
        decreases list@.len() - i,
    {
        assert(all[i as int] == list@[i as int]@);
        proof {
            lemma_skip_one(all, base as int, i as int);
        }
        if i != base {
            if !is_modifier(list[i].as_str()) {
                proof {
                    if base < i {
                        assert(names_modifier(all[i as int]));
                    }
                    assert(is_first_plain(all, i as int));
                    let stray = choose|j: int| is_first_plain(all, j) && j != base;
                    assert(stray == i) by {
                        if stray < i {
                            assert(names_modifier(all[stray]));
                        }
                        if i < stray {
                            assert(names_modifier(all[i as int]));
                        }
                    }
                }
                return Err(
                    KeyError::UnexpectedToken { token: list[i].clone(), spec: spec.to_owned() },
                );
            }
            let ghost before = text::texts(modifiers@);
            modifiers.push(list[i].clone());
            assert(text::texts(modifiers@) =~= before.push(all[i as int]));
        }
        i = i + 1;
    }
    assert(all.take(i as int) =~= all);
    assert(all[base as int] == list@[base as int]@);
    Ok(KeySpec { modifiers, base: list[base].clone() })
}

/// A list of tokens has a base key.
pub proof fn lemma_base_exists(list: Seq<Seq<char>>)
    requires
        list.len() > 0,
    ensures
        exists|i: int| is_base(list, i),
{
    lemma_base_from(list, list.len() as int);
}

/// Looks for the base key backwards from `at`.
proof fn lemma_base_from(list: Seq<Seq<char>>, at: int)
    requires
        0 <= at <= list.len(),
        list.len() > 0,
        forall|j: int| at <= j < list.len() ==> names_modifier(#[trigger] list[j]),
    ensures
        exists|i: int| is_base(list, i),
    decreases at,
{
    if at == 0 {
        assert(is_base(list, list.len() - 1));
    } else if names_modifier(list[at - 1]) {
        lemma_base_from(list, at - 1);
    } else {
        assert(is_base(list, at - 1));
    }
}

/// If some token before `at` names no modifier, then one of them is the first.
proof fn lemma_first_plain_exists(list: Seq<Seq<char>>, at: int)
    requires
        0 <= at < list.len(),
        !names_modifier(list[at]),
    ensures
        exists|i: int| is_first_plain(list, i) && i <= at,
    decreases at,
{
    if exists|j: int| 0 <= j < at && !names_modifier(#[trigger] list[j]) {
        let j = choose|j: int| 0 <= j < at && !names_modifier(#[trigger] list[j]);
        lemma_first_plain_exists(list, j);
    } else {
        assert(is_first_plain(list, at));
    }
}

/// In a key spec that parses, every token but the base names a modifier.
pub proof fn lemma_others_are_modifiers(spec: Seq<char>, at: int)
    requires
        parsed(spec) is Ok,
        0 <= at < tokens(spec).len(),
        at != (choose|i: int| is_base(tokens(spec), i)),
    ensures
        names_modifier(tokens(spec)[at]),
{
    let list = tokens(spec);
    lemma_base_exists(list);
    let base = choose|i: int| is_base(list, i);
    if !names_modifier(list[at]) {
        lemma_first_plain_exists(list, at);
        let first = choose|i: int| is_first_plain(list, i) && i <= at;
        assert(at < base);
        assert(is_first_plain(list, first) && first != base);
    }
}

} // verus!
