//! XKB keymap text for the virtual keyboard.
//!
//! A virtual keyboard uploads a keymap before it sends keycodes, and the
//! compositor compiles the text. Where every requested symbol has a position on a
//! US keyboard, the stock US keymap is used with the physical codes of the keys;
//! any other set of symbols gets a keymap of its own, one keycode per symbol.

use vstd::prelude::*;
use vstd::string::*;

use crate::error::{KeyError, KeyErrorView};
use crate::keyspec;
use crate::keyspec::Modifier;
use crate::keysym;
use crate::layout;
use crate::layout::KeyPlacement;
use crate::syntax;
use crate::text;

verus! {

/// A generated XKB keymap: the text to upload, and where the requested symbols
/// and the modifier keys are.
#[derive(Debug)]
pub struct GeneratedKeymap {
    /// The full `xkb_keymap { ... }` text, without a terminating NUL.
    pub text: String,
    /// The evdev codes of the modifier keys.
    pub ctrl_code: u32,
    pub shift_code: u32,
    pub alt_code: u32,
    pub super_code: u32,
    /// The placement of each requested keysym, in the order requested.
    pub placements: Vec<KeyPlacement>,
}

/// The mathematical value of a [`GeneratedKeymap`].
#[verifier::ext_equal]
pub struct KeymapView {
    pub text: Seq<char>,
    pub ctrl_code: u32,
    pub shift_code: u32,
    pub alt_code: u32,
    pub super_code: u32,
    pub placements: Seq<KeyPlacement>,
}

impl View for GeneratedKeymap {
    type V = KeymapView;

    open spec fn view(&self) -> KeymapView {
        KeymapView {
            text: self.text@,
            ctrl_code: self.ctrl_code,
            shift_code: self.shift_code,
            alt_code: self.alt_code,
            super_code: self.super_code,
            placements: self.placements@,
        }
    }
}

impl Clone for GeneratedKeymap {
    fn clone(&self) -> (r: Self)
        ensures
            r@ == self@,
    {
        let mut placements: Vec<KeyPlacement> = Vec::new();
        let mut i: usize = 0;
        while i < self.placements.len()
            invariant
                i <= self.placements@.len(),
                placements@ =~= self.placements@.take(i as int),
            decreases self.placements@.len() - i,
        {
            placements.push(self.placements[i]);
            i = i + 1;
        }
        GeneratedKeymap {
            text: self.text.clone(),
            ctrl_code: self.ctrl_code,
            shift_code: self.shift_code,
            alt_code: self.alt_code,
            super_code: self.super_code,
            placements,
        }
    }
}

impl GeneratedKeymap {
    /// The bytes that are uploaded: the text and a terminating NUL.
    pub fn upload_bytes(&self) -> (r: Vec<u8>)
        ensures
            r@ == vstd::utf8::encode_utf8(self.text@).push(0u8),
            syntax::is_plain(self.text@) ==> r@.len() == self.text@.len() + 1 && forall|i: int|
                0 <= i < self.text@.len() ==> #[trigger] r@[i] == self.text@[i] as u8 && r@[i] != 0,
    {
        proof {
            if syntax::is_plain(self.text@) {
                assert(vstd::utf8::is_ascii_chars(self.text@));
                vstd::utf8::is_ascii_chars_encode_utf8(self.text@);
            }
        }
        let mut bytes = self.text.as_str().as_bytes_vec();
        bytes.push(0);
        bytes
    }
}

impl KeymapView {
    /// Whether the text can be uploaded as it is: it is ASCII without a NUL, and its
    /// braces match.
    pub open spec fn has_sound_text(self) -> bool {
        syntax::is_plain(self.text) && syntax::is_balanced(self.text)
    }

    /// The evdev code of a modifier's key.
    pub open spec fn modifier_code(self, modifier: Modifier) -> u32 {
        match modifier {
            Modifier::Control => self.ctrl_code,
            Modifier::Shift => self.shift_code,
            Modifier::Alt => self.alt_code,
            Modifier::Super => self.super_code,
        }
    }
}

/// XKB reserves the keycodes up to eight; ours start at a fixed one above them.
pub const XKB_KEYCODE_BASE: u32 = 9;

/// The keycode of the first requested symbol: it follows those of the modifiers.
pub const FIRST_SYMBOL_KEYCODE: u32 = 13;

/// How far an evdev code lies below the XKB keycode of the same key.
pub const EVDEV_OFFSET: u32 = 8;

/// The most symbols that can be given consecutive keycodes.
pub const MAX_SYMBOLS: u32 = 0xffff_fff2;

/// The line that declares a keycode under the name of its number.
pub open spec fn declaration(keycode: nat) -> Seq<char> {
    "  <K"@ + text::decimal(keycode) + "> = "@ + text::decimal(keycode) + ";\n"@
}

/// The lines that declare the keycodes of the modifiers and of `n` symbols.
pub open spec fn declarations(n: nat) -> Seq<char>
    decreases n,
{
    if n == 0 {
        declaration(9) + declaration(10) + declaration(11) + declaration(12)
    } else {
        declarations((n - 1) as nat) + declaration((FIRST_SYMBOL_KEYCODE + n - 1) as nat)
    }
}

/// The line that binds a modifier's keysym to a keycode.
pub open spec fn modifier_binding(keycode: nat, name: Seq<char>) -> Seq<char> {
    "  key <K"@ + text::decimal(keycode) + "> { [ "@ + name + " ] };\n"@
}

/// The line that binds a symbol to a keycode, the same with and without Shift.
pub open spec fn symbol_binding(keycode: nat, symbol: Seq<char>) -> Seq<char> {
    "  key <K"@ + text::decimal(keycode) + "> { [ "@ + symbol + ", "@ + symbol + " ] };\n"@
}

/// The lines that bind the symbols to consecutive keycodes.
pub open spec fn symbol_bindings(symbols: Seq<Seq<char>>) -> Seq<char>
    decreases symbols.len(),
{
    if symbols.len() == 0 {
        Seq::<char>::empty()
    } else {
        symbol_bindings(symbols.drop_last()) + symbol_binding(
            (FIRST_SYMBOL_KEYCODE + symbols.len() - 1) as nat,
            symbols.last(),
        )
    }
}

/// The line that makes a keycode drive a real modifier.
pub open spec fn modifier_map(modifier: Seq<char>, keycode: nat) -> Seq<char> {
    "  modifier_map "@ + modifier + " { <K"@ + text::decimal(keycode) + "> };\n"@
}

/// The section that declares the keycodes of the modifiers and of `n` symbols.
pub open spec fn keycodes_section(n: nat) -> Seq<char> {
    "xkb_keycodes \"wlroots-bridge\" {\n"@ + "  minimum = "@ + text::decimal(
        XKB_KEYCODE_BASE as nat,
    ) + ";\n"@ + "  maximum = "@ + text::decimal(FIRST_SYMBOL_KEYCODE as nat + n) + ";\n"@
        + declarations(n) + "};\n"@
}

/// The section that binds the modifiers and the symbols.
pub open spec fn symbols_section(symbols: Seq<Seq<char>>) -> Seq<char> {
    "xkb_symbols \"wlroots-bridge\" {\n"@ + modifier_binding(9, "Control_L"@) + modifier_binding(
        10,
        "Shift_L"@,
    ) + modifier_binding(11, "Alt_L"@) + modifier_binding(12, "Super_L"@) + symbol_bindings(symbols)
        + modifier_map("Control"@, 9) + modifier_map("Shift"@, 10) + modifier_map("Mod1"@, 11)
        + modifier_map("Mod4"@, 12) + "};\n"@
}

/// The keymap text that binds the modifiers and the symbols.
pub open spec fn symbol_text(symbols: Seq<Seq<char>>) -> Seq<char> {
    "xkb_keymap {\n"@ + keycodes_section(symbols.len())
        + "xkb_types \"wlroots-bridge\" { include \"complete\" };\n"@
        + "xkb_compat \"wlroots-bridge\" { include \"complete\" };\n"@ + symbols_section(symbols)
        + "};\n"@
}

/// The placements of `n` symbols on consecutive keycodes; none needs Shift.
pub open spec fn consecutive(n: nat) -> Seq<KeyPlacement> {
    Seq::new(
        n,
        |i: int|
            KeyPlacement {
                evdev_code: (FIRST_SYMBOL_KEYCODE - EVDEV_OFFSET + i) as u32,
                needs_shift: false,
            },
    )
}

/// The keymap that gives every symbol a keycode of its own.
pub open spec fn symbol_keymap(symbols: Seq<Seq<char>>) -> KeymapView {
    KeymapView {
        text: symbol_text(symbols),
        ctrl_code: 1,
        shift_code: 2,
        alt_code: 3,
        super_code: 4,
        placements: consecutive(symbols.len()),
    }
}

/// The text of the stock US keymap.
pub open spec fn us_text() -> Seq<char> {
    "xkb_keymap {\n"@ + "xkb_keycodes { include \"evdev+aliases(qwerty)\" };\n"@
        + "xkb_types { include \"complete\" };\n"@
        + "xkb_compatibility { include \"complete\" };\n"@
        + "xkb_symbols { include \"pc+us+inet(evdev)\" };\n"@ + "};\n"@
}

/// Whether every keysym has a position on a US keyboard.
pub open spec fn all_physical(keysyms: Seq<u32>) -> bool {
    forall|i: int| 0 <= i < keysyms.len() ==> layout::placement_of(#[trigger] keysyms[i]) is Some
}

/// The stock US keymap with the physical positions of the keysyms.
pub open spec fn us_keymap(keysyms: Seq<u32>) -> KeymapView {
    KeymapView {
        text: us_text(),
        ctrl_code: 29,
        shift_code: 42,
        alt_code: 56,
        super_code: 125,
        placements: keysyms.map_values(|k: u32| layout::placement_of(k)->0),
    }
}

/// The symbol names of the keysyms, in order.
pub open spec fn symbols_of(keysyms: Seq<u32>) -> Seq<Seq<char>> {
    keysyms.map_values(|k: u32| keysym::symbol_of(k))
}

/// The keymap for a set of keysyms.
pub open spec fn keymap_of(keysyms: Seq<u32>) -> KeymapView {
    if all_physical(keysyms) {
        us_keymap(keysyms)
    } else {
        symbol_keymap(symbols_of(keysyms))
    }
}

/// Appends the line that declares a keycode.
fn push_declaration(out: &mut String, keycode: u32)
    ensures
        final(out)@ == old(out)@ + declaration(keycode as nat),
{
    out.append("  <K");
    text::push_decimal(out, keycode);
    out.append("> = ");
    text::push_decimal(out, keycode);
    out.append(";\n");
}

/// Appends the line that binds a modifier's keysym.
fn push_modifier_binding(out: &mut String, keycode: u32, name: &str)
    ensures
        final(out)@ == old(out)@ + modifier_binding(keycode as nat, name@),
{
    out.append("  key <K");
    text::push_decimal(out, keycode);
    out.append("> { [ ");
    out.append(name);
    out.append(" ] };\n");
}

/// Appends the line that binds a symbol at both levels.
fn push_symbol_binding(out: &mut String, keycode: u32, symbol: &str)
    ensures
        final(out)@ == old(out)@ + symbol_binding(keycode as nat, symbol@),
{
    out.append("  key <K");
    text::push_decimal(out, keycode);
    out.append("> { [ ");
    out.append(symbol);
    out.append(", ");
    out.append(symbol);
    out.append(" ] };\n");
}

/// Appends the line that makes a keycode drive a real modifier.
fn push_modifier_map(out: &mut String, modifier: &str, keycode: u32)
    ensures
        final(out)@ == old(out)@ + modifier_map(modifier@, keycode as nat),
{
    out.append("  modifier_map ");
    out.append(modifier);
    out.append(" { <K");
    text::push_decimal(out, keycode);
    out.append("> };\n");
}

/// Appends the section that declares the keycodes.
fn push_keycodes_section(out: &mut String, n: u32)
    requires
        n <= MAX_SYMBOLS,
    ensures
        final(out)@ == old(out)@ + keycodes_section(n as nat),
{
    let ghost before = out@;
    out.append("xkb_keycodes \"wlroots-bridge\" {\n");
    out.append("  minimum = ");
    text::push_decimal(out, XKB_KEYCODE_BASE);
    out.append(";\n");
    out.append("  maximum = ");
    text::push_decimal(out, FIRST_SYMBOL_KEYCODE + n);
    out.append(";\n");
    let ghost head = out@;
    push_declaration(out, XKB_KEYCODE_BASE);
    push_declaration(out, XKB_KEYCODE_BASE + 1);
    push_declaration(out, XKB_KEYCODE_BASE + 2);
    push_declaration(out, XKB_KEYCODE_BASE + 3);
    assert(out@ =~= head + declarations(0));
    let mut i: u32 = 0;
    while i < n
        invariant
            i <= n <= MAX_SYMBOLS,
            out@ == head + declarations(i as nat),
        decreases n - i,
    {
        push_declaration(out, FIRST_SYMBOL_KEYCODE + i);
        i = i + 1;
        assert(out@ =~= head + declarations(i as nat));
    }
    out.append("};\n");
    assert(out@ =~= before + keycodes_section(n as nat));
}

/// Appends the section that binds the modifiers and the symbols.
fn push_symbols_section(out: &mut String, symbols: &Vec<String>)
    requires
        symbols@.len() <= MAX_SYMBOLS,
    ensures
        final(out)@ == old(out)@ + symbols_section(text::texts(symbols@)),
{
    let ghost before = out@;
    let ghost names = text::texts(symbols@);
    out.append("xkb_symbols \"wlroots-bridge\" {\n");
    push_modifier_binding(out, XKB_KEYCODE_BASE, "Control_L");
    push_modifier_binding(out, XKB_KEYCODE_BASE + 1, "Shift_L");
    push_modifier_binding(out, XKB_KEYCODE_BASE + 2, "Alt_L");
    push_modifier_binding(out, XKB_KEYCODE_BASE + 3, "Super_L");
    let ghost head = out@;
    let n: u32 = symbols.len() as u32;
    let mut i: u32 = 0;
    assert(head + symbol_bindings(names.take(0)) =~= head);
    while i < n
        invariant
            i <= n == symbols@.len() <= MAX_SYMBOLS,
            names == text::texts(symbols@),
            out@ == head + symbol_bindings(names.take(i as int)),
        decreases n - i,
    {
        let ghost done = names.take(i + 1);
        assert(done.drop_last() =~= names.take(i as int));
        assert(done.last() == symbols@[i as int]@);
        push_symbol_binding(out, FIRST_SYMBOL_KEYCODE + i, symbols[i as usize].as_str());
        i = i + 1;
        assert(out@ =~= head + symbol_bindings(done));
    }
    assert(names.take(n as int) =~= names);
    push_modifier_map(out, "Control", XKB_KEYCODE_BASE);
    push_modifier_map(out, "Shift", XKB_KEYCODE_BASE + 1);
    push_modifier_map(out, "Mod1", XKB_KEYCODE_BASE + 2);
    push_modifier_map(out, "Mod4", XKB_KEYCODE_BASE + 3);
    out.append("};\n");
    assert(out@ =~= before + symbols_section(names));
}

/// Builds the keymap that binds the four modifier keys and then every symbol to
/// consecutive keycodes.
///
/// A symbol is bound at both levels of its key, so that Shift never changes it.
pub fn keymap_for_symbols(symbols: &Vec<String>) -> (r: GeneratedKeymap)
    requires
        symbols@.len() <= MAX_SYMBOLS,
    ensures
        r@ == symbol_keymap(text::texts(symbols@)),
{
    let n: u32 = symbols.len() as u32;
    let ghost names = text::texts(symbols@);
    let mut text = String::new();
    text.append("xkb_keymap {\n");
    push_keycodes_section(&mut text, n);
    text.append("xkb_types \"wlroots-bridge\" { include \"complete\" };\n");
    text.append("xkb_compat \"wlroots-bridge\" { include \"complete\" };\n");
    push_symbols_section(&mut text, symbols);
    text.append("};\n");
    assert(text@ =~= symbol_text(names));
    let mut placements: Vec<KeyPlacement> = Vec::new();
    let mut i: u32 = 0;
    while i < n
        invariant
            i <= n <= MAX_SYMBOLS,
            placements@ =~= consecutive(i as nat),
        decreases n - i,
    {
        placements.push(
            KeyPlacement {
                evdev_code: FIRST_SYMBOL_KEYCODE + i - EVDEV_OFFSET,
                needs_shift: false,
            },
        );
        i = i + 1;
    }
    GeneratedKeymap {
        text,
        ctrl_code: XKB_KEYCODE_BASE - EVDEV_OFFSET,
        shift_code: XKB_KEYCODE_BASE + 1 - EVDEV_OFFSET,
        alt_code: XKB_KEYCODE_BASE + 2 - EVDEV_OFFSET,
        super_code: XKB_KEYCODE_BASE + 3 - EVDEV_OFFSET,
        placements,
    }
}

/// Builds the keymap that binds the four modifier keys and then every keysym to
/// consecutive keycodes.
pub fn generate_symbol_keymap(keysyms: &[u32]) -> (r: GeneratedKeymap)
    requires
        keysyms@.len() <= MAX_SYMBOLS,
    ensures
        r@ == symbol_keymap(symbols_of(keysyms@)),
        r@.has_sound_text(),
{
    let mut symbols: Vec<String> = Vec::new();
    let mut i: usize = 0;
    while i < keysyms.len()
        invariant
            i <= keysyms@.len(),
            forall|j: int| 0 <= j < i ==> keysym::is_symbol_text(#[trigger] symbols_of(keysyms@)[j]),
            text::texts(symbols@) =~= symbols_of(keysyms@.take(i as int)),
        decreases keysyms@.len() - i,
    {
        let symbol = keysym::xkb_symbol_name(keysyms[i]);
        let ghost before = text::texts(symbols@);
        symbols.push(symbol);
        i = i + 1;
        assert(text::texts(symbols@) =~= before.push(symbol@));
        assert(symbols_of(keysyms@.take(i as int)) =~= symbols_of(keysyms@.take(i - 1)).push(symbol@));
    }
    assert(keysyms@.take(i as int) =~= keysyms@);
    proof {
        syntax::lemma_symbol_text_shape(symbols_of(keysyms@));
    }
    keymap_for_symbols(&symbols)
}

/// The physical positions of the keysyms, where all of them have one.
fn physical_placements(keysyms: &[u32]) -> (r: Option<Vec<KeyPlacement>>)
    ensures
        match r {
            Some(placements) => all_physical(keysyms@) && placements@ == us_keymap(
                keysyms@,
            ).placements,
            None => !all_physical(keysyms@),
        },
{
    let mut placements: Vec<KeyPlacement> = Vec::new();
    let mut i: usize = 0;
    while i < keysyms.len()
        invariant
            i <= keysyms@.len(),
            all_physical(keysyms@.take(i as int)),
            placements@ =~= us_keymap(keysyms@.take(i as int)).placements,
        decreases keysyms@.len() - i,
    {
        match layout::physical_placement(keysyms[i]) {
            Some(placement) => {
                placements.push(placement);
                assert forall|j: int| 0 <= j < i + 1 implies layout::placement_of(
                    #[trigger] keysyms@.take(i + 1)[j],
                ) is Some by {
                    if j < i {
                        assert(keysyms@.take(i as int)[j] == keysyms@[j]);
                    }
                }
            },
            None => {
                assert(layout::placement_of(keysyms@[i as int]) is None);
                return None;
            },
        }
        i = i + 1;
    }
    assert(keysyms@.take(i as int) =~= keysyms@);
    Some(placements)
}

/// Builds the keymap for a set of keysyms.
///
/// Physical US keycodes are used when every keysym has one, for the modifiers
/// too: VM viewers forward hardware keycodes rather than the symbols of the
/// uploaded keymap. Any other set, also one that mixes both kinds, gets a keymap
/// of its own.
pub fn generate_keymap(keysyms: &[u32]) -> (r: GeneratedKeymap)
    requires
        all_physical(keysyms@) || keysyms@.len() <= MAX_SYMBOLS,
    ensures
        r@ == keymap_of(keysyms@),
        r@.has_sound_text(),
{
    match physical_placements(keysyms) {
        None => generate_symbol_keymap(keysyms),
        Some(placements) => {
            let mut text = String::new();
            text.append("xkb_keymap {\n");
            text.append("xkb_keycodes { include \"evdev+aliases(qwerty)\" };\n");
            text.append("xkb_types { include \"complete\" };\n");
            text.append("xkb_compatibility { include \"complete\" };\n");
            text.append("xkb_symbols { include \"pc+us+inet(evdev)\" };\n");
            text.append("};\n");
            assert(text@ =~= us_text());
            proof {
                syntax::lemma_us_text_shape();
            }
            GeneratedKeymap {
                text,
                ctrl_code: 29,
                shift_code: 42,
                alt_code: 56,
                super_code: 125,
                placements,
            }
        },
    }
}

/// The evdev code of a modifier's key within a generated keymap.
pub fn modifier_evdev_code(keymap: &GeneratedKeymap, token: &str) -> (r: Result<u32, KeyError>)
    ensures
        match r {
            Ok(code) => keyspec::modifier_of(token@) matches Some(modifier) && code
                == keymap@.modifier_code(modifier),
            Err(e) => keyspec::modifier_of(token@) is None && e@ == (KeyErrorView::NotAModifier {
                token: token@,
            }),
        },
{
    match keyspec::modifier_for(token) {
        Some(Modifier::Control) => Ok(keymap.ctrl_code),
        Some(Modifier::Shift) => Ok(keymap.shift_code),
        Some(Modifier::Alt) => Ok(keymap.alt_code),
        Some(Modifier::Super) => Ok(keymap.super_code),
        None => Err(KeyError::NotAModifier { token: token.to_owned() }),
    }
}

} // verus!
