//! What a virtual keyboard does for a request.
//!
//! A request becomes a series of rounds. In each round the keyboard waits, uploads
//! a keymap where the round brings one, and performs the actions of the round.

use vstd::prelude::*;

use crate::error::{KeyError, KeyErrorView};
use crate::keymap;
use crate::keymap::{GeneratedKeymap, KeymapView};
use crate::keyspec;
use crate::keyspec::Modifier;
use crate::keysym;
use crate::layout;
use crate::layout::KeyPlacement;
use crate::text;

verus! {

/// The state of a key that goes up.
pub const KEY_RELEASED: u32 = 0;

/// The state of a key that goes down.
pub const KEY_PRESSED: u32 = 1;

/// The keymap format of XKB text.
pub const XKB_V1: u32 = 1;

/// The pause between the repeats of a key sequence, in milliseconds.
pub const KEY_REPEAT_MS: u64 = 8;

/// The most distinct symbols that are put into one keymap when typing.
pub const MAX_KEYS_PER_PAGE: usize = 200;

/// The Shift bit of a real-modifier mask.
pub const SHIFT_BIT: u32 = 1;

/// One thing that a virtual keyboard does.
#[derive(Debug, Clone, Copy, PartialEq, Eq, Structural)]
pub enum KeyAction {
    /// Send the key event for an evdev code.
    Key { code: u32, pressed: bool },
    /// Announce the mask of depressed real modifiers.
    Modifiers { depressed: u32 },
    /// Send what is queued.
    Flush,
    /// Do nothing for a while.
    Sleep { millis: u64 },
    /// Wait until the compositor has handled everything.
    Roundtrip,
}

/// What a keyboard does in one round: wait, upload, act.
#[derive(Debug)]
pub struct Round {
    pub wait: Vec<KeyAction>,
    pub upload: Option<GeneratedKeymap>,
    pub actions: Vec<KeyAction>,
}

/// The mathematical value of a [`Round`].
#[verifier::ext_equal]
pub struct RoundView {
    pub wait: Seq<KeyAction>,
    pub upload: Option<KeymapView>,
    pub actions: Seq<KeyAction>,
}

impl View for Round {
    type V = RoundView;

    open spec fn view(&self) -> RoundView {
        RoundView {
            wait: self.wait@,
            upload: match self.upload {
                Some(keymap) => Some(keymap@),
                None => None,
            },
            actions: self.actions@,
        }
    }
}

/// The report of a key sequence or of held keys.
#[derive(Debug, Clone)]
pub struct KeyboardActionResult {
    pub action: String,
    pub keys: Vec<String>,
    pub repeat: Option<u32>,
    pub duration_ms: Option<u64>,
}

/// The report of typed text.
#[derive(Debug, Clone)]
pub struct TypeActionResult {
    pub action: String,
    pub text: String,
    pub char_count: usize,
}

/// The events that press the keys in order.
pub open spec fn presses(codes: Seq<u32>) -> Seq<KeyAction> {
    codes.map_values(|code: u32| KeyAction::Key { code, pressed: true })
}

/// The events that release the keys, the last one first.
pub open spec fn releases(codes: Seq<u32>) -> Seq<KeyAction> {
    codes.reverse().map_values(|code: u32| KeyAction::Key { code, pressed: false })
}

/// The key that is held for Shift, where Shift is needed.
pub open spec fn shift_keys(needed: bool, shift_code: u32) -> Seq<u32> {
    if needed {
        seq![shift_code]
    } else {
        Seq::<u32>::empty()
    }
}

/// A mask with the Shift bit, where Shift is needed.
pub open spec fn with_shift(mask: u32, needed: bool) -> u32 {
    if needed {
        mask | SHIFT_BIT
    } else {
        mask
    }
}

/// A key tapped while others are held: the held keys go down, Shift after them
/// where the key needs it, and come up in reverse; the modifier mask is announced
/// for as long as the key itself takes.
pub open spec fn chord(codes: Seq<u32>, mask: u32, shift_code: u32, base: KeyPlacement) -> Seq<
    KeyAction,
> {
    presses(codes + shift_keys(base.needs_shift, shift_code)) + seq![
        KeyAction::Modifiers { depressed: with_shift(mask, base.needs_shift) },
        KeyAction::Key { code: base.evdev_code, pressed: true },
        KeyAction::Key { code: base.evdev_code, pressed: false },
        KeyAction::Modifiers { depressed: 0 },
    ] + releases(codes + shift_keys(base.needs_shift, shift_code))
}

/// A single key tapped, with Shift where it needs it.
pub open spec fn tap(keymap: KeymapView, slot: int) -> Seq<KeyAction> {
    chord(Seq::<u32>::empty(), 0, keymap.shift_code, keymap.placements[slot])
}

/// The codes of the keys that were placed.
pub open spec fn placed_codes(placements: Seq<KeyPlacement>) -> Seq<u32> {
    placements.map_values(|p: KeyPlacement| p.evdev_code)
}

/// Whether one of the placements needs Shift.
pub open spec fn any_shift(placements: Seq<KeyPlacement>) -> bool {
    exists|i: int| 0 <= i < placements.len() && (#[trigger] placements[i]).needs_shift
}

/// Keys held down for a while: modifiers first, then Shift where one of the keys
/// needs it, then the keys; all come up in reverse.
pub open spec fn hold(
    codes: Seq<u32>,
    mask: u32,
    shift_code: u32,
    placements: Seq<KeyPlacement>,
    duration_ms: u64,
) -> Seq<KeyAction> {
    let outer = codes + shift_keys(any_shift(placements), shift_code);
    presses(outer) + seq![
        KeyAction::Modifiers { depressed: with_shift(mask, any_shift(placements)) },
    ] + presses(placed_codes(placements)) + seq![
        KeyAction::Flush,
        KeyAction::Sleep { millis: duration_ms },
    ] + releases(placed_codes(placements)) + seq![KeyAction::Modifiers { depressed: 0 }] + releases(
        outer,
    ) + seq![KeyAction::Roundtrip]
}

/// Whether one of the tokens names the modifier.
pub open spec fn lists(modifiers: Seq<Seq<char>>, modifier: Modifier) -> bool {
    exists|i: int|
        0 <= i < modifiers.len() && keyspec::modifier_of(#[trigger] modifiers[i]) == Some(modifier)
}

/// The mask that holds the given bits.
pub open spec fn mask_with(control: bool, shift: bool, alt: bool, sup: bool) -> u32 {
    (if control { 0x4u32 } else { 0u32 }) | (if shift { 0x1u32 } else { 0u32 }) | (if alt {
        0x8u32
    } else {
        0u32
    }) | (if sup { 0x40u32 } else { 0u32 })
}

/// The mask of the modifiers that the tokens name.
pub open spec fn mask_of(modifiers: Seq<Seq<char>>) -> u32 {
    mask_with(
        lists(modifiers, Modifier::Control),
        lists(modifiers, Modifier::Shift),
        lists(modifiers, Modifier::Alt),
        lists(modifiers, Modifier::Super),
    )
}

/// Whether every token names a modifier.
pub open spec fn all_modifiers(modifiers: Seq<Seq<char>>) -> bool {
    forall|i: int|
        0 <= i < modifiers.len() ==> keyspec::modifier_of(#[trigger] modifiers[i]) is Some
}

/// Whether `i` is the first token that names no modifier.
pub open spec fn is_first_stranger(modifiers: Seq<Seq<char>>, i: int) -> bool {
    &&& 0 <= i < modifiers.len()
    &&& keyspec::modifier_of(modifiers[i]) is None
    &&& forall|j: int| 0 <= j < i ==> keyspec::modifier_of(#[trigger] modifiers[j]) is Some
}

/// The codes of the keys that the modifier tokens stand for.
pub open spec fn codes_of(keymap: KeymapView, modifiers: Seq<Seq<char>>) -> Seq<u32> {
    modifiers.map_values(|t: Seq<char>| keymap.modifier_code(keyspec::modifier_of(t)->0))
}

/// Appends the events that press the keys in order.
fn push_presses(out: &mut Vec<KeyAction>, codes: &Vec<u32>)
    ensures
        final(out)@ == old(out)@ + presses(codes@),
{
    let ghost before = out@;
    let mut i: usize = 0;
    while i < codes.len()
        invariant
            i <= codes@.len(),
            out@ =~= before + presses(codes@.take(i as int)),
        decreases codes@.len() - i,
    {
        out.push(KeyAction::Key { code: codes[i], pressed: true });
        i = i + 1;
    }
    assert(codes@.take(i as int) =~= codes@);
}

/// Appends the events that release the keys, the last one first.
fn push_releases(out: &mut Vec<KeyAction>, codes: &Vec<u32>)
    ensures
        final(out)@ == old(out)@ + releases(codes@),
{
    let ghost before = out@;
    let mut i: usize = codes.len();
    while i > 0
        invariant
            i <= codes@.len(),
            out@ =~= before + releases(codes@).take(codes@.len() - i),
        decreases i,
    {
        i = i - 1;
        out.push(KeyAction::Key { code: codes[i], pressed: false });
    }
    assert(releases(codes@).take(codes@.len() as int) =~= releases(codes@));
}

/// The keys that are held around a base key: the given ones, and Shift where it
/// is needed.
fn held_codes(codes: &Vec<u32>, needed: bool, shift_code: u32) -> (r: Vec<u32>)
    ensures
        r@ == codes@ + shift_keys(needed, shift_code),
{
    let mut held: Vec<u32> = Vec::new();
    let mut i: usize = 0;
    while i < codes.len()
        invariant
            i <= codes@.len(),
            held@ =~= codes@.take(i as int),
        decreases codes@.len() - i,
    {
        held.push(codes[i]);
        i = i + 1;
    }
    if needed {
        held.push(shift_code);
    }
    assert(held@ =~= codes@ + shift_keys(needed, shift_code));
    held
}

/// Appends the actions of a chord.
fn push_chord(
    out: &mut Vec<KeyAction>,
    codes: &Vec<u32>,
    mask: u32,
    shift_code: u32,
    base: KeyPlacement,
)
    ensures
        final(out)@ == old(out)@ + chord(codes@, mask, shift_code, base),
{
    let ghost before = out@;
    let held = held_codes(codes, base.needs_shift, shift_code);
    push_presses(out, &held);
    let announced: u32 = if base.needs_shift { mask | SHIFT_BIT } else { mask };
    out.push(KeyAction::Modifiers { depressed: announced });
    out.push(KeyAction::Key { code: base.evdev_code, pressed: true });
    out.push(KeyAction::Key { code: base.evdev_code, pressed: false });
    out.push(KeyAction::Modifiers { depressed: 0 });
    push_releases(out, &held);
    assert(out@ =~= before + chord(codes@, mask, shift_code, base));
}

/// Presses and releases the key at `slot`, driving Shift where the placement needs it.
pub fn tap_actions(keymap: &GeneratedKeymap, slot: usize) -> (r: Vec<KeyAction>)
    requires
        slot < keymap.placements@.len(),
    ensures
        r@ == tap(keymap@, slot as int),
{
    let mut out: Vec<KeyAction> = Vec::new();
    let none: Vec<u32> = Vec::new();
    push_chord(&mut out, &none, 0, keymap.shift_code, keymap.placements[slot]);
    assert(none@ =~= Seq::<u32>::empty());
    assert(out@ =~= tap(keymap@, slot as int));
    out
}

/// What one more token does to the mask.
proof fn lemma_mask_push(modifiers: Seq<Seq<char>>, token: Seq<char>)
    requires
        keyspec::modifier_of(token) is Some,
    ensures
        mask_of(modifiers.push(token)) == mask_of(modifiers) | keyspec::modifier_of(token)->0.bit(),
{
    let m = keyspec::modifier_of(token)->0;
    let all = modifiers.push(token);
    assert forall|x: Modifier| #[trigger] lists(all, x) == (lists(modifiers, x) || x == m) by {
        if lists(modifiers, x) {
            let i = choose|i: int|
                0 <= i < modifiers.len() && keyspec::modifier_of(#[trigger] modifiers[i]) == Some(x);
            assert(all[i] == modifiers[i]);
        }
        if x == m {
            assert(all[modifiers.len() as int] == token);
        }
        if lists(all, x) {
            let i = choose|i: int|
                0 <= i < all.len() && keyspec::modifier_of(#[trigger] all[i]) == Some(x);
            if i < modifiers.len() {
                assert(all[i] == modifiers[i]);
            }
        }
    }
    let c = lists(modifiers, Modifier::Control);
    let s = lists(modifiers, Modifier::Shift);
    let a = lists(modifiers, Modifier::Alt);
    let p = lists(modifiers, Modifier::Super);
    assert(mask_with(true, s, a, p) == mask_with(c, s, a, p) | 0x4u32) by (bit_vector);
    assert(mask_with(c, true, a, p) == mask_with(c, s, a, p) | 0x1u32) by (bit_vector);
    assert(mask_with(c, s, true, p) == mask_with(c, s, a, p) | 0x8u32) by (bit_vector);
    assert(mask_with(c, s, a, true) == mask_with(c, s, a, p) | 0x40u32) by (bit_vector);
}

/// Resolves modifier tokens against a keymap: the codes of their keys, and the
/// mask to announce.
pub fn modifier_state(keymap: &GeneratedKeymap, modifiers: &[String]) -> (r: Result<
    (Vec<u32>, u32),
    KeyError,
>)
    ensures
        match r {
            Ok(state) => all_modifiers(text::texts(modifiers@)) && state.0@ == codes_of(
                keymap@,
                text::texts(modifiers@),
            ) && state.1 == mask_of(text::texts(modifiers@)),
            Err(e) => exists|i: int| #[trigger]
                is_first_stranger(text::texts(modifiers@), i) && e@ == (
                KeyErrorView::NotAModifier { token: modifiers@[i]@ }),
        },
{
    let ghost names = text::texts(modifiers@);
    let mut codes: Vec<u32> = Vec::new();
    let mut mask: u32 = 0;
    let mut i: usize = 0;
    proof {
        assert(mask_with(false, false, false, false) == 0) by (bit_vector);
    }
    while i < modifiers.len()
        invariant
            i <= modifiers@.len(),
            names == text::texts(modifiers@),
            all_modifiers(names.take(i as int)),
            codes@ =~= codes_of(keymap@, names.take(i as int)),
            mask == mask_of(names.take(i as int)),
        decreases modifiers@.len() - i,
    {
        let token = modifiers[i].as_str();
        assert(names[i as int] == token@);
        assert(forall|j: int| 0 <= j < i ==> names.take(i as int)[j] == #[trigger] names[j]);
        let code = match keymap::modifier_evdev_code(keymap, token) {
            Ok(code) => code,
            Err(e) => {
                assert(is_first_stranger(names, i as int));
                return Err(e);
            },
        };
        let bit = match keyspec::modifier_mask(token) {
            Ok(bit) => bit,
            Err(e) => {
                assert(is_first_stranger(names, i as int));
                return Err(e);
            },
        };
        proof {
            lemma_mask_push(names.take(i as int), token@);
            assert(names.take(i + 1) =~= names.take(i as int).push(token@));
        }
        codes.push(code);
        mask = mask | bit;
        i = i + 1;
    }
    assert(names.take(i as int) =~= names);
    Ok((codes, mask))
}

/// A key sequence that is ready to be sent: `repeat` rounds of one chord.
#[derive(Debug)]
pub struct KeySequence {
    pub keymap: GeneratedKeymap,
    /// The modifier keys, in the order in which they are pressed.
    pub codes: Vec<u32>,
    /// The mask of the modifiers.
    pub mask: u32,
    /// Where the base key is.
    pub base: KeyPlacement,
    pub repeat: u32,
}

/// The mathematical value of a [`KeySequence`].
#[verifier::ext_equal]
pub struct KeySequenceView {
    pub keymap: KeymapView,
    pub codes: Seq<u32>,
    pub mask: u32,
    pub base: KeyPlacement,
    pub repeat: u32,
}

impl View for KeySequence {
    type V = KeySequenceView;

    open spec fn view(&self) -> KeySequenceView {
        KeySequenceView {
            keymap: self.keymap@,
            codes: self.codes@,
            mask: self.mask,
            base: self.base,
            repeat: self.repeat,
        }
    }
}

/// How often a sequence is sent: once where nothing is asked, and never less.
pub open spec fn repeat_count(repeat: Option<u32>) -> u32 {
    match repeat {
        Some(n) => if n == 0 {
            1
        } else {
            n
        },
        None => 1,
    }
}

/// The sequence for a parsed key spec on a keymap whose first placement is
/// that of the base key.
pub open spec fn sequence_on(
    keymap: KeymapView,
    modifiers: Seq<Seq<char>>,
    repeat: Option<u32>,
) -> KeySequenceView {
    KeySequenceView {
        keymap,
        codes: codes_of(keymap, modifiers),
        mask: mask_of(modifiers),
        base: keymap.placements[0],
        repeat: repeat_count(repeat),
    }
}

impl KeySequenceView {
    /// What is done in round `i`: the first one brings the keymap, the others
    /// start with a pause, and the last one waits for the compositor.
    pub open spec fn round(self, i: u32) -> RoundView {
        RoundView {
            wait: if i > 0 {
                seq![KeyAction::Flush, KeyAction::Sleep { millis: KEY_REPEAT_MS }]
            } else {
                Seq::<KeyAction>::empty()
            },
            upload: if i == 0 {
                Some(self.keymap)
            } else {
                None
            },
            actions: chord(self.codes, self.mask, self.keymap.shift_code, self.base) + (if i + 1
                == self.repeat {
                seq![KeyAction::Roundtrip]
            } else {
                Seq::<KeyAction>::empty()
            }),
        }
    }
}

impl KeySequence {
    /// Resolves the modifier tokens against a keymap whose first placement is
    /// that of the base key.
    pub fn on_keymap(keymap: GeneratedKeymap, modifiers: &[String], repeat: Option<u32>) -> (r:
        Result<KeySequence, KeyError>)
        requires
            keymap.placements@.len() > 0,
        ensures
            match r {
                Ok(sequence) => all_modifiers(text::texts(modifiers@)) && sequence@ == sequence_on(
                    keymap@,
                    text::texts(modifiers@),
                    repeat,
                ),
                Err(e) => exists|i: int| #[trigger]
                    is_first_stranger(text::texts(modifiers@), i) && e@ == (
                    KeyErrorView::NotAModifier { token: modifiers@[i]@ }),
            },
    {
        let (codes, mask) = match modifier_state(&keymap, modifiers) {
            Ok(state) => state,
            Err(e) => return Err(e),
        };
        let repeat: u32 = match repeat {
            Some(n) => if n == 0 {
                1
            } else {
                n
            },
            None => 1,
        };
        let base = keymap.placements[0];
        Ok(KeySequence { keymap, codes, mask, base, repeat })
    }

    /// What is done in round `i`.
    pub fn round(&self, i: u32) -> (r: Round)
        requires
            i < self.repeat,
        ensures
            r@ == self@.round(i),
    {
        let mut wait: Vec<KeyAction> = Vec::new();
        if i > 0 {
            wait.push(KeyAction::Flush);
            wait.push(KeyAction::Sleep { millis: KEY_REPEAT_MS });
        }
        let upload = if i == 0 {
            Some(self.keymap.clone())
        } else {
            None
        };
        let mut actions: Vec<KeyAction> = Vec::new();
        push_chord(&mut actions, &self.codes, self.mask, self.keymap.shift_code, self.base);
        if i + 1 == self.repeat {
            actions.push(KeyAction::Roundtrip);
        }
        let round = Round { wait, upload, actions };
        assert(round@ =~= self@.round(i));
        round
    }
}

/// The keysym of the base key of a key spec, or why there is none.
pub open spec fn base_keysym(keys: Seq<char>) -> Result<u32, KeyErrorView> {
    match keyspec::parsed(keys) {
        Ok(spec) => keysym::keysym_of_name(spec.base),
        Err(e) => Err(e),
    }
}

/// Prepares a key sequence such as `ctrl+shift+tab`, to be sent `repeat` times
/// (once where nothing is asked), and its report.
pub fn key_sequence(keys: &str, repeat: Option<u32>) -> (r: Result<
    (KeySequence, KeyboardActionResult),
    KeyError,
>)
    ensures
        match r {
            Ok(prepared) => {
                &&& base_keysym(keys@) matches Ok(keysym)
                &&& keyspec::parsed(keys@) matches Ok(spec)
                &&& prepared.0@ == sequence_on(
                    keymap::keymap_of(seq![keysym]),
                    spec.modifiers,
                    repeat,
                )
                &&& prepared.0@.keymap.has_sound_text()
                &&& prepared.1.action@ == "key"@
                &&& text::texts(prepared.1.keys@) == keyspec::tokens(keys@)
                &&& prepared.1.repeat == Some(repeat_count(repeat))
                &&& prepared.1.duration_ms is None
            },
            Err(e) => base_keysym(keys@) == Err::<u32, KeyErrorView>(e@),
        },
        r is Err <==> match keyspec::parsed(keys@) {
            Ok(spec) => keysym::is_unsupported(spec.base),
            Err(_) => true,
        },
{
    let spec = match keyspec::parse_spec(keys) {
        Ok(spec) => spec,
        Err(e) => return Err(e),
    };
    let base = match keysym::keysym_for_name(spec.base.as_str()) {
        Ok(base) => base,
        Err(e) => return Err(e),
    };
    let mut wanted: Vec<u32> = Vec::new();
    wanted.push(base);
    assert(wanted@ =~= seq![base]);
    let keymap = keymap::generate_keymap(wanted.as_slice());
    proof {
        lemma_one_placement(wanted@);
        lemma_parsed_modifiers(keys@);
    }
    let sequence = match KeySequence::on_keymap(keymap, spec.modifiers.as_slice(), repeat) {
        Ok(sequence) => sequence,
        Err(e) => return Err(e),
    };
    let result = KeyboardActionResult {
        action: "key".to_owned(),
        keys: keyspec::spec_tokens(keys),
        repeat: Some(sequence.repeat),
        duration_ms: None,
    };
    Ok((sequence, result))
}

/// A keymap has one placement for each keysym that was asked for.
pub proof fn lemma_one_placement(keysyms: Seq<u32>)
    ensures
        keymap::keymap_of(keysyms).placements.len() == keysyms.len(),
{
}

/// The modifiers of a parsed key spec are modifiers, all of them.
pub proof fn lemma_parsed_modifiers(spec: Seq<char>)
    ensures
        keyspec::parsed(spec) matches Ok(view) ==> all_modifiers(view.modifiers),
{
    if let Ok(view) = keyspec::parsed(spec) {
        keyspec::lemma_base_exists(keyspec::tokens(spec));
        let list = keyspec::tokens(spec);
        let base = choose|i: int| keyspec::is_base(list, i);
        assert forall|i: int| 0 <= i < view.modifiers.len() implies keyspec::modifier_of(
            #[trigger] view.modifiers[i],
        ) is Some by {
            let at = if i < base { i } else { i + 1 };
            assert(view.modifiers[i] == list[at]);
            keyspec::lemma_others_are_modifiers(spec, at);
            keyspec::lemma_modifier_words(list[at]);
        }
    }
}

/// The members of a list without repeats, in the order of their first appearance.
pub open spec fn distinct(list: Seq<u32>) -> Seq<u32>
    decreases list.len(),
{
    if list.len() == 0 {
        Seq::<u32>::empty()
    } else {
        let before = distinct(list.drop_last());
        if before.contains(list.last()) {
            before
        } else {
            before.push(list.last())
        }
    }
}

/// The keysyms of the characters of a text, in order.
pub open spec fn text_keysyms(text: Seq<char>) -> Seq<u32> {
    text.map_values(|c: char| keysym::keysym_of_char(c))
}

/// Whether a text is made of printable ASCII characters, line ends and tabs.
pub open spec fn is_ascii_text(text: Seq<char>) -> bool {
    forall|i: int|
        0 <= i < text.len() ==> ({
            let c = #[trigger] text[i];
            ' ' <= c <= '~' || c == '\n' || c == '\r' || c == '\t'
        })
}

/// Text that is ready to be typed, one round for each character.
///
/// A text of few enough distinct symbols is typed on one keymap that holds them
/// all; any other text gets a keymap for each character.
#[derive(Debug)]
pub struct TypePlan {
    /// The keysym of each character.
    pub keysyms: Vec<u32>,
    /// The keymap of the whole text, where it has one.
    pub page: Option<GeneratedKeymap>,
    /// Where on that keymap each character is.
    pub slots: Vec<usize>,
    /// The pause between two characters, in milliseconds.
    pub delay_ms: u64,
}

/// The mathematical value of a [`TypePlan`].
#[verifier::ext_equal]
pub struct TypePlanView {
    pub keysyms: Seq<u32>,
    pub page: Option<KeymapView>,
    pub slots: Seq<usize>,
    pub delay_ms: u64,
}

impl View for TypePlan {
    type V = TypePlanView;

    open spec fn view(&self) -> TypePlanView {
        TypePlanView {
            keysyms: self.keysyms@,
            page: match self.page {
                Some(keymap) => Some(keymap@),
                None => None,
            },
            slots: self.slots@,
            delay_ms: self.delay_ms,
        }
    }
}

/// Whether one keymap holds every symbol of a run of keysyms.
pub open spec fn fits_one_page(keysyms: Seq<u32>) -> bool {
    distinct(keysyms).len() <= MAX_KEYS_PER_PAGE
}

/// The plan for a run of keysyms: one page of the distinct ones, in which every
/// keysym has its slot, or no page where they are too many.
pub open spec fn plan_for(keysyms: Seq<u32>, delay_ms: u64) -> TypePlanView {
    TypePlanView {
        keysyms,
        page: if fits_one_page(keysyms) {
            Some(keymap::keymap_of(distinct(keysyms)))
        } else {
            None
        },
        slots: keysyms.map_values(|k: u32| distinct(keysyms).index_of(k) as usize),
        delay_ms,
    }
}

impl TypePlanView {
    /// What is done in round `i`.
    ///
    /// On one page, the first round brings the keymap and the last one waits for
    /// the compositor. Otherwise every round does both.
    pub open spec fn round(self, i: int) -> RoundView {
        let pause = i > 0 && self.delay_ms > 0;
        match self.page {
            Some(keymap) => RoundView {
                wait: if pause {
                    seq![KeyAction::Flush, KeyAction::Sleep { millis: self.delay_ms }]
                } else {
                    Seq::<KeyAction>::empty()
                },
                upload: if i == 0 {
                    Some(keymap)
                } else {
                    None
                },
                actions: tap(keymap, self.slots[i] as int) + (if i + 1 == self.keysyms.len() {
                    seq![KeyAction::Roundtrip]
                } else {
                    Seq::<KeyAction>::empty()
                }),
            },
            None => {
                let keymap = keymap::keymap_of(seq![self.keysyms[i]]);
                RoundView {
                    wait: if pause {
                        seq![KeyAction::Sleep { millis: self.delay_ms }]
                    } else {
                        Seq::<KeyAction>::empty()
                    },
                    upload: Some(keymap),
                    actions: tap(keymap, 0) + seq![KeyAction::Roundtrip],
                }
            },
        }
    }
}

/// Each member of a list is in its distinct members, which hold nothing twice and
/// nothing else.
pub proof fn lemma_distinct(list: Seq<u32>)
    ensures
        distinct(list).no_duplicates(),
        forall|k: u32| list.contains(k) <==> #[trigger] distinct(list).contains(k),
        distinct(list).len() <= list.len(),
    decreases list.len(),
{
    if list.len() > 0 {
        let init = list.drop_last();
        lemma_distinct(init);
        let before = distinct(init);
        assert forall|k: u32| list.contains(k) <==> #[trigger] distinct(list).contains(k) by {
            if list.contains(k) {
                let i = choose|i: int| 0 <= i < list.len() && list[i] == k;
                if i < init.len() {
                    assert(init[i] == k);
                    assert(before.contains(k));
                    let j = choose|j: int| 0 <= j < before.len() && before[j] == k;
                    assert(distinct(list)[j] == k);
                } else if !before.contains(k) {
                    assert(distinct(list)[before.len() as int] == k);
                }
            }
            if distinct(list).contains(k) {
                let j = choose|j: int| 0 <= j < distinct(list).len() && distinct(list)[j] == k;
                if j < before.len() {
                    assert(before[j] == k);
                    assert(before.contains(k));
                    assert(init.contains(k));
                    let i = choose|i: int| 0 <= i < init.len() && init[i] == k;
                    assert(list[i] == k);
                } else {
                    assert(list[list.len() - 1] == k);
                }
            }
        }
    }
}

impl TypePlan {
    /// Every keysym has a slot, and where there is a page, its text can be uploaded
    /// and it has the slots.
    pub open spec fn wf(self) -> bool {
        &&& self.slots@.len() == self.keysyms@.len()
        &&& self.page matches Some(keymap) ==> keymap@.has_sound_text() && forall|i: int|
            0 <= i < self.slots@.len() ==> #[trigger] self.slots@[i] < keymap.placements@.len()
    }

    /// Prepares a run of keysyms.
    pub fn for_keysyms(keysyms: Vec<u32>, delay_ms: u64) -> (r: TypePlan)
        ensures
            r.wf(),
            r@ == plan_for(keysyms@, delay_ms),
            r@.page matches Some(map) ==> map.has_sound_text(),
    {
        let mut page: Vec<u32> = Vec::new();
        let mut slots: Vec<usize> = Vec::new();
        let mut i: usize = 0;
        while i < keysyms.len()
            invariant
                i <= keysyms@.len(),
                page@ == distinct(keysyms@.take(i as int)),
                slots@.len() == i,
                forall|j: int|
                    0 <= j < i ==> #[trigger] slots@[j] < page@.len() && page@[slots@[j] as int]
                        == keysyms@[j],
            decreases keysyms@.len() - i,
        {
            let keysym = keysyms[i];
            assert(keysyms@.take(i + 1).drop_last() =~= keysyms@.take(i as int));
            let mut slot: usize = 0;
            while slot < page.len() && page[slot] != keysym
                invariant
                    slot <= page@.len(),
                    forall|j: int| 0 <= j < slot ==> page@[j] != keysym,
                ensures
                    slot < page@.len() ==> page@[slot as int] == keysym,
                decreases page@.len() - slot,
            {
                slot = slot + 1;
            }
            if slot == page.len() {
                page.push(keysym);
            }
            slots.push(slot);
            i = i + 1;
        }
        assert(keysyms@.take(i as int) =~= keysyms@);
        let keymap = if page.len() <= MAX_KEYS_PER_PAGE {
            Some(keymap::generate_keymap(page.as_slice()))
        } else {
            None
        };
        proof {
            lemma_distinct(keysyms@);
            lemma_one_placement(page@);
            let all = distinct(keysyms@);
            assert forall|j: int| 0 <= j < slots@.len() implies #[trigger] slots@[j]
                == all.index_of(keysyms@[j]) as usize by {
                assert(keysyms@.contains(keysyms@[j]));
                assert(all.contains(keysyms@[j]));
            }
        }
        let plan = TypePlan { keysyms, page: keymap, slots, delay_ms };
        assert(plan@ =~= plan_for(keysyms@, delay_ms));
        plan
    }

    /// What is done in round `i`.
    pub fn round(&self, i: usize) -> (r: Round)
        requires
            self.wf(),
            i < self.keysyms@.len(),
        ensures
            r@ == self@.round(i as int),
            r@.upload matches Some(map) ==> map.has_sound_text(),
    {
        let last: usize = self.keysyms.len() - 1;
        let mut wait: Vec<KeyAction> = Vec::new();
        let round = match &self.page {
            Some(keymap) => {
                if i > 0 && self.delay_ms > 0 {
                    wait.push(KeyAction::Flush);
                    wait.push(KeyAction::Sleep { millis: self.delay_ms });
                }
                let upload = if i == 0 {
                    Some(keymap.clone())
                } else {
                    None
                };
                let mut actions = tap_actions(keymap, self.slots[i]);
                if i == last {
                    actions.push(KeyAction::Roundtrip);
                }
                Round { wait, upload, actions }
            },
            None => {
                if i > 0 && self.delay_ms > 0 {
                    wait.push(KeyAction::Sleep { millis: self.delay_ms });
                }
                let mut wanted: Vec<u32> = Vec::new();
                wanted.push(self.keysyms[i]);
                assert(wanted@ =~= seq![self.keysyms@[i as int]]);
                let keymap = keymap::generate_keymap(wanted.as_slice());
                proof {
                    lemma_one_placement(wanted@);
                }
                let mut actions = tap_actions(&keymap, 0);
                actions.push(KeyAction::Roundtrip);
                Round { wait, upload: Some(keymap), actions }
            },
        };
        assert(round@ =~= self@.round(i as int));
        round
    }
}

/// Prepares `text` to be typed as single key events `delay_ms` apart, and its
/// report. An empty text has no rounds. Plain ASCII text is typed with the physical
/// keys of a US keyboard.
pub fn type_text(text: &str, delay_ms: u64) -> (r: Result<(TypePlan, TypeActionResult), KeyError>)
    ensures
        r matches Ok(prepared) && {
            &&& prepared.0.wf()
            &&& prepared.0@ == plan_for(text_keysyms(text@), delay_ms)
            &&& prepared.0.keysyms@.len() == text@.len()
            &&& forall|i: int|
                0 <= i < text@.len() ==> #[trigger] prepared.0.keysyms@[i]
                    == keysym::keysym_of_char(text@[i])
            &&& prepared.0@.page matches Some(map) ==> map.has_sound_text()
            &&& prepared.1.action@ == "type"@
            &&& prepared.1.text@ == text@
            &&& prepared.1.char_count == text@.len()
            &&& is_ascii_text(text@) ==> keymap::all_physical(text_keysyms(text@))
        },
{
    let chars = text::chars_of(text);
    let mut keysyms: Vec<u32> = Vec::new();
    let mut i: usize = 0;
    while i < chars.len()
        invariant
            i <= chars@.len(),
            chars@ == text@,
            keysyms@ =~= text_keysyms(text@.take(i as int)),
            is_ascii_text(text@) ==> forall|j: int|
                0 <= j < i ==> layout::placement_of(#[trigger] keysyms@[j]) is Some,
        decreases chars@.len() - i,
    {
        let ch = chars[i];
        proof {
            if 0x20 <= ch as u32 <= 0x7e {
                layout::lemma_ascii_is_placed(ch as u32);
            }
        }
        match keysym::keysym_for_char(ch) {
            Ok(keysym) => keysyms.push(keysym),
            Err(e) => return Err(e),
        }
        i = i + 1;
    }
    assert(text@.take(i as int) =~= text@);
    let result = TypeActionResult {
        action: "type".to_owned(),
        text: text.to_owned(),
        char_count: chars.len(),
    };
    Ok((TypePlan::for_keysyms(keysyms, delay_ms), result))
}

/// The tokens of a list that name modifiers, in order.
pub open spec fn modifier_tokens(keys: Seq<Seq<char>>) -> Seq<Seq<char>> {
    keys.filter(|t: Seq<char>| keyspec::names_modifier(t))
}

/// The tokens of a list that name no modifier, in order.
pub open spec fn base_tokens(keys: Seq<Seq<char>>) -> Seq<Seq<char>> {
    keys.filter(|t: Seq<char>| !keyspec::names_modifier(t))
}

/// The keysyms of key names, or why the first name without one has none.
pub open spec fn name_keysyms(names: Seq<Seq<char>>) -> Result<Seq<u32>, KeyErrorView>
    decreases names.len(),
{
    if names.len() == 0 {
        Ok(Seq::<u32>::empty())
    } else {
        match name_keysyms(names.drop_last()) {
            Ok(before) => match keysym::keysym_of_name(names.last()) {
                Ok(keysym) => Ok(before.push(keysym)),
                Err(e) => Err(e),
            },
            Err(e) => Err(e),
        }
    }
}

/// The one round in which keys are held on a keymap that places them.
pub open spec fn hold_round(
    keymap: KeymapView,
    modifiers: Seq<Seq<char>>,
    duration_ms: u64,
) -> RoundView {
    RoundView {
        wait: Seq::<KeyAction>::empty(),
        upload: Some(keymap),
        actions: hold(
            codes_of(keymap, modifiers),
            mask_of(modifiers),
            keymap.shift_code,
            keymap.placements,
            duration_ms,
        ),
    }
}

/// Copies a list of strings.
fn copy_strings(list: &[String]) -> (r: Vec<String>)
    ensures
        text::texts(r@) == text::texts(list@),
{
    let mut copy: Vec<String> = Vec::new();
    let mut i: usize = 0;
    while i < list.len()
        invariant
            i <= list@.len(),
            text::texts(copy@) == text::texts(list@).take(i as int),
        decreases list@.len() - i,
    {
        let ghost before = text::texts(copy@);
        copy.push(list[i].clone());
        assert(text::texts(copy@) =~= before.push(list@[i as int]@));
        assert(text::texts(list@).take(i + 1) =~= before.push(list@[i as int]@));
        i = i + 1;
    }
    assert(text::texts(list@).take(i as int) =~= text::texts(list@));
    copy
}

/// Parts a list of tokens into those that name modifiers and the others.
pub fn partition_keys(keys: &[String]) -> (r: (Vec<String>, Vec<String>))
    ensures
        text::texts(r.0@) == modifier_tokens(text::texts(keys@)),
        text::texts(r.1@) == base_tokens(text::texts(keys@)),
{
    let ghost all = text::texts(keys@);
    let mut mods: Vec<String> = Vec::new();
    let mut bases: Vec<String> = Vec::new();
    let mut i: usize = 0;
    proof {
        reveal(Seq::filter);
        assert(text::texts(mods@) =~= modifier_tokens(all.take(0)));
        assert(text::texts(bases@) =~= base_tokens(all.take(0)));
    }
    while i < keys.len()
        invariant
            i <= keys@.len(),
            all == text::texts(keys@),
            text::texts(mods@) == modifier_tokens(all.take(i as int)),
            text::texts(bases@) == base_tokens(all.take(i as int)),
        decreases keys@.len() - i,
    {
        let ghost mods_before = text::texts(mods@);
        let ghost bases_before = text::texts(bases@);
        proof {
            reveal(Seq::filter);
            assert(all.take(i + 1).drop_last() =~= all.take(i as int));
            assert(all.take(i + 1).last() == keys@[i as int]@);
        }
        if keyspec::is_modifier(keys[i].as_str()) {
            mods.push(keys[i].clone());
            assert(text::texts(mods@) =~= mods_before.push(keys@[i as int]@));
        } else {
            bases.push(keys[i].clone());
            assert(text::texts(bases@) =~= bases_before.push(keys@[i as int]@));
        }
        i = i + 1;
    }
    assert(all.take(i as int) =~= all);
    (mods, bases)
}

/// Once a name has no keysym, no longer list of names has them.
proof fn lemma_name_keysyms_prefix(names: Seq<Seq<char>>, n: int)
    requires
        0 <= n <= names.len(),
        name_keysyms(names.take(n)) is Err,
    ensures
        name_keysyms(names) == name_keysyms(names.take(n)),
    decreases names.len(),
{
    if n == names.len() {
        assert(names.take(n) =~= names);
    } else {
        assert(names.drop_last().take(n) =~= names.take(n));
        lemma_name_keysyms_prefix(names.drop_last(), n);
    }
}

/// Resolves key names to keysyms, in order.
pub fn keysyms_for_names(names: &[String]) -> (r: Result<Vec<u32>, KeyError>)
    ensures
        match r {
            Ok(keysyms) => name_keysyms(text::texts(names@)) == Ok::<Seq<u32>, KeyErrorView>(
                keysyms@,
            ) && keysyms@.len() == names@.len(),
            Err(e) => name_keysyms(text::texts(names@)) == Err::<Seq<u32>, KeyErrorView>(e@),
        },
        r is Err <==> exists|i: int|
            0 <= i < names@.len() && keysym::is_unsupported(#[trigger] names@[i]@),
{
    let ghost all = text::texts(names@);
    let mut keysyms: Vec<u32> = Vec::new();
    let mut i: usize = 0;
    assert(keysyms@ =~= Seq::<u32>::empty());
    while i < names.len()
        invariant
            i <= names@.len(),
            all == text::texts(names@),
            keysyms@.len() == i,
            name_keysyms(all.take(i as int)) == Ok::<Seq<u32>, KeyErrorView>(keysyms@),
            forall|j: int| 0 <= j < i ==> !keysym::is_unsupported(#[trigger] names@[j]@),
        decreases names@.len() - i,
    {
        assert(all.take(i + 1).drop_last() =~= all.take(i as int));
        assert(all.take(i + 1).last() == names@[i as int]@);
        match keysym::keysym_for_name(names[i].as_str()) {
            Ok(keysym) => keysyms.push(keysym),
            Err(e) => {
                proof {
                    lemma_name_keysyms_prefix(all, i + 1);
                }
                return Err(e);
            },
        }
        i = i + 1;
    }
    assert(all.take(i as int) =~= all);
    Ok(keysyms)
}

/// Lays out the round in which keys are held on a keymap that places them.
pub fn hold_on_keymap(keymap: GeneratedKeymap, modifiers: &[String], duration_ms: u64) -> (r:
    Result<Round, KeyError>)
    ensures
        match r {
            Ok(round) => all_modifiers(text::texts(modifiers@)) && round@ == hold_round(
                keymap@,
                text::texts(modifiers@),
                duration_ms,
            ),
            Err(e) => exists|i: int| #[trigger]
                is_first_stranger(text::texts(modifiers@), i) && e@ == (
                KeyErrorView::NotAModifier { token: modifiers@[i]@ }),
        },
{
    let (codes, mask) = match modifier_state(&keymap, modifiers) {
        Ok(state) => state,
        Err(e) => return Err(e),
    };
    let mut placed: Vec<u32> = Vec::new();
    let mut shifted: bool = false;
    let mut i: usize = 0;
    while i < keymap.placements.len()
        invariant
            i <= keymap.placements@.len(),
            placed@ =~= placed_codes(keymap.placements@.take(i as int)),
            shifted == any_shift(keymap.placements@.take(i as int)),
        decreases keymap.placements@.len() - i,
    {
        let p = keymap.placements[i];
        let ghost now = keymap.placements@.take(i + 1);
        let ghost before = keymap.placements@.take(i as int);
        proof {
            assert(now[i as int] == p);
            assert(forall|j: int| 0 <= j < i ==> now[j] == #[trigger] before[j]);
            assert(forall|j: int| 0 <= j < i ==> #[trigger] now[j] == before[j]);
        }
        placed.push(p.evdev_code);
        shifted = shifted || p.needs_shift;
        i = i + 1;
    }
    assert(keymap.placements@.take(i as int) =~= keymap.placements@);
    let outer = held_codes(&codes, shifted, keymap.shift_code);
    let mut actions: Vec<KeyAction> = Vec::new();
    push_presses(&mut actions, &outer);
    let announced: u32 = if shifted { mask | SHIFT_BIT } else { mask };
    actions.push(KeyAction::Modifiers { depressed: announced });
    push_presses(&mut actions, &placed);
    actions.push(KeyAction::Flush);
    actions.push(KeyAction::Sleep { millis: duration_ms });
    push_releases(&mut actions, &placed);
    actions.push(KeyAction::Modifiers { depressed: 0 });
    push_releases(&mut actions, &outer);
    actions.push(KeyAction::Roundtrip);
    let wait: Vec<KeyAction> = Vec::new();
    let ghost view = hold_round(keymap@, text::texts(modifiers@), duration_ms);
    assert(actions@ =~= view.actions);
    let round = Round { wait, upload: Some(keymap), actions };
    assert(round@ =~= view);
    Ok(round)
}

/// The tokens of a list that name modifiers name modifiers.
pub proof fn lemma_modifier_tokens(keys: Seq<Seq<char>>)
    ensures
        all_modifiers(modifier_tokens(keys)),
        modifier_tokens(keys).len() + base_tokens(keys).len() == keys.len(),
    decreases keys.len(),
{
    reveal(Seq::filter);
    if keys.len() > 0 {
        lemma_modifier_tokens(keys.drop_last());
        keyspec::lemma_modifier_words(keys.last());
    }
}

/// Prepares `keys` to be held down for `duration_ms`, and the report.
///
/// Each entry is a token (modifier name or base key). Modifiers go down first, in
/// the order given; all keys come up in reverse order.
pub fn hold_key(keys: &[String], duration_ms: u64) -> (r: Result<
    (Round, KeyboardActionResult),
    KeyError,
>)
    requires
        base_tokens(text::texts(keys@)).len() <= keymap::MAX_SYMBOLS || match name_keysyms(
            base_tokens(text::texts(keys@)),
        ) {
            Ok(keysyms) => keymap::all_physical(keysyms),
            Err(_) => true,
        },
    ensures
        match r {
            Ok(prepared) => {
                &&& keys@.len() > 0
                &&& name_keysyms(base_tokens(text::texts(keys@))) matches Ok(keysyms)
                &&& prepared.0@ == hold_round(
                    keymap::keymap_of(keysyms),
                    modifier_tokens(text::texts(keys@)),
                    duration_ms,
                )
                &&& prepared.0@.upload matches Some(map) && map.has_sound_text()
                &&& prepared.1.action@ == "hold-key"@
                &&& text::texts(prepared.1.keys@) == text::texts(keys@)
                &&& prepared.1.repeat is None
                &&& prepared.1.duration_ms == Some(duration_ms)
            },
            Err(e) => if keys@.len() == 0 {
                e@ == KeyErrorView::EmptyHold
            } else {
                name_keysyms(base_tokens(text::texts(keys@))) == Err::<Seq<u32>, KeyErrorView>(e@)
            },
        },
        r is Err <==> keys@.len() == 0 || exists|i: int|
            0 <= i < base_tokens(text::texts(keys@)).len() && keysym::is_unsupported(
                #[trigger] base_tokens(text::texts(keys@))[i],
            ),
{
    if keys.len() == 0 {
        return Err(KeyError::EmptyHold);
    }
    let (mods, bases) = partition_keys(keys);
    proof {
        lemma_modifier_tokens(text::texts(keys@));
        assert forall|i: int| 0 <= i < bases@.len() implies #[trigger] bases@[i]@ == base_tokens(
            text::texts(keys@),
        )[i] by {
            assert(text::texts(bases@)[i] == bases@[i]@);
        }
        assert forall|i: int|
            0 <= i < base_tokens(text::texts(keys@)).len() implies #[trigger] base_tokens(
            text::texts(keys@),
        )[i] == bases@[i]@ by {
            assert(text::texts(bases@)[i] == bases@[i]@);
        }
    }
    let keysyms = match keysyms_for_names(bases.as_slice()) {
        Ok(keysyms) => keysyms,
        Err(e) => return Err(e),
    };
    let keymap = keymap::generate_keymap(keysyms.as_slice());
    let round = match hold_on_keymap(keymap, mods.as_slice(), duration_ms) {
        Ok(round) => round,
        Err(e) => return Err(e),
    };
    let result = KeyboardActionResult {
        action: "hold-key".to_owned(),
        keys: copy_strings(keys),
        repeat: None,
        duration_ms: Some(duration_ms),
    };
    Ok((round, result))
}

/// A set of modifier keys that are held on a keyboard, for chording pointer clicks.
#[derive(Debug)]
pub struct ModifierHold {
    pub keymap: GeneratedKeymap,
    /// The modifier keys, in the order in which they are pressed.
    pub codes: Vec<u32>,
    /// The mask of the modifiers.
    pub mask: u32,
}

impl ModifierHold {
    /// Resolves the modifier names against a keymap without base keys, which still
    /// binds the four modifier keys.
    pub fn press(modifiers: &[String]) -> (r: Result<ModifierHold, KeyError>)
        ensures
            match r {
                Ok(hold) => all_modifiers(text::texts(modifiers@)) && hold.keymap@
                    == keymap::keymap_of(Seq::<u32>::empty()) && hold.keymap@.has_sound_text()
                    && hold.codes@ == codes_of(
                    keymap::keymap_of(Seq::<u32>::empty()),
                    text::texts(modifiers@),
                ) && hold.mask == mask_of(text::texts(modifiers@)),
                Err(e) => exists|i: int| #[trigger]
                    is_first_stranger(text::texts(modifiers@), i) && e@ == (
                    KeyErrorView::NotAModifier { token: modifiers@[i]@ }),
            },
    {
        let none: Vec<u32> = Vec::new();
        assert(none@ =~= Seq::<u32>::empty());
        let keymap = keymap::generate_keymap(none.as_slice());
        let (codes, mask) = match modifier_state(&keymap, modifiers) {
            Ok(state) => state,
            Err(e) => return Err(e),
        };
        Ok(ModifierHold { keymap, codes, mask })
    }

    /// What is done to press the modifiers.
    pub open spec fn press_view(self) -> Seq<KeyAction> {
        presses(self.codes@) + seq![
            KeyAction::Modifiers { depressed: self.mask },
            KeyAction::Roundtrip,
        ]
    }

    /// What is done to release the modifiers.
    pub open spec fn release_view(self) -> Seq<KeyAction> {
        seq![KeyAction::Modifiers { depressed: 0 }] + releases(self.codes@) + seq![
            KeyAction::Roundtrip,
        ]
    }

    /// The round in which the modifiers are pressed, to be kept held.
    pub fn press_round(&self) -> (r: Round)
        ensures
            r@ == (RoundView {
                wait: Seq::<KeyAction>::empty(),
                upload: Some(self.keymap@),
                actions: self.press_view(),
            }),
    {
        let wait: Vec<KeyAction> = Vec::new();
        let mut actions: Vec<KeyAction> = Vec::new();
        push_presses(&mut actions, &self.codes);
        actions.push(KeyAction::Modifiers { depressed: self.mask });
        actions.push(KeyAction::Roundtrip);
        assert(actions@ =~= self.press_view());
        let round = Round { wait, upload: Some(self.keymap.clone()), actions };
        assert(round@.wait =~= Seq::<KeyAction>::empty());
        round
    }

    /// What is done to release the modifiers.
    pub fn release_actions(&self) -> (r: Vec<KeyAction>)
        ensures
            r@ == self.release_view(),
    {
        let mut actions: Vec<KeyAction> = Vec::new();
        actions.push(KeyAction::Modifiers { depressed: 0 });
        push_releases(&mut actions, &self.codes);
        actions.push(KeyAction::Roundtrip);
        assert(actions@ =~= self.release_view());
        actions
    }
}

/// The state that a key event carries.
pub fn key_state(pressed: bool) -> (r: u32)
    ensures
        r == if pressed {
            KEY_PRESSED
        } else {
            KEY_RELEASED
        },
{
    if pressed {
        KEY_PRESSED
    } else {
        KEY_RELEASED
    }
}

/// The time stamp of an event: the milliseconds since the epoch, in 32 bits, and
/// zero where the clock stands before the epoch.
pub fn event_time(since_epoch_ms: Option<u128>) -> (r: u32)
    ensures
        r == match since_epoch_ms {
            Some(ms) => (ms % 0x1_0000_0000) as u32,
            None => 0u32,
        },
{
    match since_epoch_ms {
        Some(ms) => {
            assert(ms as u32 == ms % 0x1_0000_0000) by (bit_vector);
            #[verifier::truncate]
            (ms as u32)
        },
        None => 0,
    }
}

} // verus!
