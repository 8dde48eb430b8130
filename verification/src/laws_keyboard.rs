//! What a virtual keyboard does for a request, action by action.

use vstd::prelude::*;

use crate::error::{KeyError, KeyErrorView};
use crate::keyboard;
use crate::keyboard::{
    KeyAction, KeySequence, KeySequenceView, ModifierHold, Round, TypePlan, TypePlanView,
};
use crate::keymap;
use crate::keymap::KeymapView;
use crate::keyspec;
use crate::keyspec::{KeySpec, Modifier};
use crate::keysym;
use crate::laws;
use crate::layout;
use crate::layout::KeyPlacement;
use crate::text;

verus! {

/// Whether one of the tokens names the modifier.
pub open spec fn some_token_names(modifiers: Seq<Seq<char>>, m: Modifier) -> bool {
    exists|i: int|
        0 <= i < modifiers.len() && keyspec::modifier_of(#[trigger] modifiers[i]) == Some(m)
}

/// Whether a mask holds the bits of the modifiers that the tokens name, Shift's where
/// it is needed, and no others: Shift is 0x1, Control 0x4, Alt 0x8 and Super 0x40.
pub open spec fn is_mask_for(mask: u32, modifiers: Seq<Seq<char>>, needs_shift: bool) -> bool {
    &&& mask & 0x1u32 != 0 <==> some_token_names(modifiers, Modifier::Shift) || needs_shift
    &&& mask & 0x4u32 != 0 <==> some_token_names(modifiers, Modifier::Control)
    &&& mask & 0x8u32 != 0 <==> some_token_names(modifiers, Modifier::Alt)
    &&& mask & 0x40u32 != 0 <==> some_token_names(modifiers, Modifier::Super)
    &&& mask & 0xffff_ffb2u32 == 0
}

/// The keys that are held around others: the key of each modifier token, in order, and
/// then Shift where it is needed.
pub open spec fn held_keys(
    map: KeymapView,
    modifiers: Seq<Seq<char>>,
    needs_shift: bool,
) -> Seq<u32> {
    Seq::new(
        modifiers.len() + if needs_shift {
            1nat
        } else {
            0nat
        },
        |j: int|
            if j >= modifiers.len() {
                map.shift_code
            } else {
                match keyspec::modifier_of(modifiers[j])->0 {
                    Modifier::Control => map.ctrl_code,
                    Modifier::Shift => map.shift_code,
                    Modifier::Alt => map.alt_code,
                    Modifier::Super => map.super_code,
                }
            },
    )
}

/// Whether the actions start with a tap: the held keys go down in order, the mask is
/// announced, the key goes down and up, the mask is cleared, and the held keys come up
/// in reverse order.
pub open spec fn starts_with_tap(
    actions: Seq<KeyAction>,
    held: Seq<u32>,
    mask: u32,
    code: u32,
) -> bool {
    let h = held.len() as int;
    &&& actions.len() >= 2 * h + 4
    &&& forall|j: int|
        0 <= j < h ==> actions[j] == (KeyAction::Key { code: #[trigger] held[j], pressed: true })
    &&& actions[h] == (KeyAction::Modifiers { depressed: mask })
    &&& actions[h + 1] == (KeyAction::Key { code, pressed: true })
    &&& actions[h + 2] == (KeyAction::Key { code, pressed: false })
    &&& actions[h + 3] == (KeyAction::Modifiers { depressed: 0 })
    &&& forall|j: int|
        0 <= j < h ==> actions[2 * h + 3 - j] == (KeyAction::Key {
            code: #[trigger] held[j],
            pressed: false,
        })
}

/// Whether the actions are held keys: the outer keys go down in order, the mask is
/// announced, the inner keys go down in order; all is sent and time passes; the inner
/// keys come up in reverse order, the mask is cleared, the outer keys come up in reverse
/// order, and the compositor is waited for.
pub open spec fn is_held(
    actions: Seq<KeyAction>,
    outer: Seq<u32>,
    mask: u32,
    inner: Seq<u32>,
    duration_ms: u64,
) -> bool {
    let h = outer.len() as int;
    let n = inner.len() as int;
    &&& actions.len() == 2 * h + 2 * n + 5
    &&& forall|j: int|
        0 <= j < h ==> actions[j] == (KeyAction::Key { code: #[trigger] outer[j], pressed: true })
    &&& actions[h] == (KeyAction::Modifiers { depressed: mask })
    &&& forall|k: int|
        0 <= k < n ==> actions[h + 1 + k] == (KeyAction::Key {
            code: #[trigger] inner[k],
            pressed: true,
        })
    &&& actions[h + n + 1] == KeyAction::Flush
    &&& actions[h + n + 2] == (KeyAction::Sleep { millis: duration_ms })
    &&& forall|k: int|
        0 <= k < n ==> actions[h + 2 + 2 * n - k] == (KeyAction::Key {
            code: #[trigger] inner[k],
            pressed: false,
        })
    &&& actions[h + 2 * n + 3] == (KeyAction::Modifiers { depressed: 0 })
    &&& forall|j: int|
        0 <= j < h ==> actions[2 * h + 2 * n + 3 - j] == (KeyAction::Key {
            code: #[trigger] outer[j],
            pressed: false,
        })
    &&& actions[2 * h + 2 * n + 4] == KeyAction::Roundtrip
}

/// The mask of modifier tokens holds the bits of the modifiers that they name.
pub proof fn law_mask(modifiers: Seq<Seq<char>>, needs_shift: bool)
    ensures
        is_mask_for(keyboard::mask_of(modifiers), modifiers, false),
        is_mask_for(
            keyboard::with_shift(keyboard::mask_of(modifiers), needs_shift),
            modifiers,
            needs_shift,
        ),
{
    let c = keyboard::lists(modifiers, Modifier::Control);
    let s = keyboard::lists(modifiers, Modifier::Shift);
    let a = keyboard::lists(modifiers, Modifier::Alt);
    let p = keyboard::lists(modifiers, Modifier::Super);
    laws::law_mask_bits(modifiers, needs_shift, Modifier::Control);
    laws::law_mask_bits(modifiers, needs_shift, Modifier::Shift);
    laws::law_mask_bits(modifiers, needs_shift, Modifier::Alt);
    laws::law_mask_bits(modifiers, needs_shift, Modifier::Super);
    laws::law_mask_bits(modifiers, false, Modifier::Control);
    laws::law_mask_bits(modifiers, false, Modifier::Shift);
    laws::law_mask_bits(modifiers, false, Modifier::Alt);
    laws::law_mask_bits(modifiers, false, Modifier::Super);
    assert(keyboard::mask_with(c, s, a, p) & 0xffff_ffb2u32 == 0) by (bit_vector);
    assert((keyboard::mask_with(c, s, a, p) | 1u32) & 0xffff_ffb2u32 == 0) by (bit_vector);
    assert(c == some_token_names(modifiers, Modifier::Control));
    assert(s == some_token_names(modifiers, Modifier::Shift));
    assert(a == some_token_names(modifiers, Modifier::Alt));
    assert(p == some_token_names(modifiers, Modifier::Super));
}

/// The keys of modifier tokens are the ones that the keymap has for the modifiers that
/// they name, in order.
pub proof fn law_codes(map: KeymapView, modifiers: Seq<Seq<char>>)
    ensures
        keyboard::codes_of(map, modifiers) == held_keys(map, modifiers, false),
{
    assert(keyboard::codes_of(map, modifiers) =~= held_keys(map, modifiers, false));
}

proof fn lemma_held(map: KeymapView, modifiers: Seq<Seq<char>>, needs_shift: bool)
    ensures
        keyboard::codes_of(map, modifiers) + keyboard::shift_keys(needs_shift, map.shift_code)
            == held_keys(map, modifiers, needs_shift),
{
    law_codes(map, modifiers);
    assert(keyboard::codes_of(map, modifiers) + keyboard::shift_keys(needs_shift, map.shift_code)
        =~= held_keys(map, modifiers, needs_shift));
}

proof fn lemma_chord(
    codes: Seq<u32>,
    mask: u32,
    shift_code: u32,
    base: KeyPlacement,
    rest: Seq<KeyAction>,
)
    ensures
        ({
            let held = codes + keyboard::shift_keys(base.needs_shift, shift_code);
            let all = keyboard::chord(codes, mask, shift_code, base);
            &&& all.len() == 2 * held.len() + 4
            &&& starts_with_tap(
                all + rest,
                held,
                keyboard::with_shift(mask, base.needs_shift),
                base.evdev_code,
            )
        }),
{
    let held = codes + keyboard::shift_keys(base.needs_shift, shift_code);
    let h = held.len() as int;
    let all = keyboard::chord(codes, mask, shift_code, base);
    let down = keyboard::presses(held);
    let up = keyboard::releases(held);
    assert(down.len() == h);
    assert(up.len() == h);
    assert(all.len() == 2 * h + 4);
    assert forall|j: int| 0 <= j < h implies (all + rest)[j] == (KeyAction::Key {
        code: #[trigger] held[j],
        pressed: true,
    }) by {
        assert(all[j] == down[j]);
    }
    assert forall|j: int| 0 <= j < h implies (all + rest)[2 * h + 3 - j] == (KeyAction::Key {
        code: #[trigger] held[j],
        pressed: false,
    }) by {
        assert(all[2 * h + 3 - j] == up[h - 1 - j]);
        assert(held.reverse()[h - 1 - j] == held[j]);
    }
}

/// What is done in each round of a key sequence.
///
/// It is sent as often as was asked, once where nothing was asked, and never less. The
/// first round brings the keymap; every later one starts with a pause of eight
/// milliseconds. Each round taps the base key with the keys of all modifier tokens held,
/// and Shift where the base key needs it, under a mask with exactly their bits. The
/// last round waits for the compositor.
pub proof fn law_sequence_rounds(
    map: KeymapView,
    modifiers: Seq<Seq<char>>,
    repeat: Option<u32>,
    i: u32,
) -> (mask: u32)
    ensures
        ({
            let sequence = keyboard::sequence_on(map, modifiers, repeat);
            let round = sequence.round(i);
            let base = map.placements[0];
            let held = held_keys(map, modifiers, base.needs_shift);
            &&& repeat is None || repeat == Some(0u32) ==> sequence.repeat == 1
            &&& forall|n: u32| n > 0 && repeat == Some(n) ==> sequence.repeat == n
            &&& sequence.repeat == keyboard::repeat_count(repeat)
            &&& sequence.keymap == map
            &&& i == 0 ==> round.wait.len() == 0 && round.upload == Some(map)
            &&& i > 0 ==> round.wait == seq![KeyAction::Flush, KeyAction::Sleep { millis: 8 }]
                && round.upload is None
            &&& starts_with_tap(round.actions, held, mask, base.evdev_code)
            &&& is_mask_for(mask, modifiers, base.needs_shift)
            &&& i + 1 == sequence.repeat ==> round.actions.len() == 2 * held.len() + 5
                && round.actions.last() == KeyAction::Roundtrip
            &&& i + 1 != sequence.repeat ==> round.actions.len() == 2 * held.len() + 4
        }),
{
    let sequence = keyboard::sequence_on(map, modifiers, repeat);
    let base = map.placements[0];
    lemma_held(map, modifiers, base.needs_shift);
    law_mask(modifiers, base.needs_shift);
    let rest = if i + 1 == sequence.repeat {
        seq![KeyAction::Roundtrip]
    } else {
        Seq::<KeyAction>::empty()
    };
    lemma_chord(sequence.codes, sequence.mask, map.shift_code, base, rest);
    keyboard::with_shift(sequence.mask, base.needs_shift)
}

/// A tap holds Shift where the key needs it, announces it, and nothing more.
pub proof fn law_tap(map: KeymapView, slot: int)
    ensures
        ({
            let p = map.placements[slot];
            let held = if p.needs_shift {
                seq![map.shift_code]
            } else {
                Seq::<u32>::empty()
            };
            &&& keyboard::tap(map, slot).len() == 2 * held.len() + 4
            &&& starts_with_tap(
                keyboard::tap(map, slot),
                held,
                if p.needs_shift {
                    1
                } else {
                    0
                },
                p.evdev_code,
            )
        }),
{
    let p = map.placements[slot];
    let none = Seq::<u32>::empty();
    assert(0u32 | 1u32 == 1u32) by (bit_vector);
    lemma_chord(none, 0, map.shift_code, p, Seq::<KeyAction>::empty());
    assert(keyboard::tap(map, slot) + Seq::<KeyAction>::empty() =~= keyboard::tap(map, slot));
    assert(none + keyboard::shift_keys(p.needs_shift, map.shift_code) =~= if p.needs_shift {
        seq![map.shift_code]
    } else {
        none
    });
}

/// Every round of a prepared key sequence taps its base key with all its modifier keys
/// held, and Shift where the base key needs it, under its mask.
pub proof fn law_sequence_round(sequence: KeySequenceView, i: u32)
    ensures
        ({
            let round = sequence.round(i);
            let held = if sequence.base.needs_shift {
                sequence.codes.push(sequence.keymap.shift_code)
            } else {
                sequence.codes
            };
            &&& i == 0 ==> round.wait.len() == 0 && round.upload == Some(sequence.keymap)
            &&& i > 0 ==> round.wait == seq![KeyAction::Flush, KeyAction::Sleep { millis: 8 }]
                && round.upload is None
            &&& starts_with_tap(
                round.actions,
                held,
                if sequence.base.needs_shift {
                    sequence.mask | 1u32
                } else {
                    sequence.mask
                },
                sequence.base.evdev_code,
            )
            &&& i + 1 == sequence.repeat ==> round.actions.len() == 2 * held.len() + 5
                && round.actions.last() == KeyAction::Roundtrip
            &&& i + 1 != sequence.repeat ==> round.actions.len() == 2 * held.len() + 4
        }),
{
    let base = sequence.base;
    let shift = sequence.keymap.shift_code;
    let rest = if i + 1 == sequence.repeat {
        seq![KeyAction::Roundtrip]
    } else {
        Seq::<KeyAction>::empty()
    };
    lemma_chord(sequence.codes, sequence.mask, shift, base, rest);
    assert(sequence.codes + keyboard::shift_keys(base.needs_shift, shift)
        =~= if base.needs_shift {
        sequence.codes.push(shift)
    } else {
        sequence.codes
    });
}

/// All rounds of a key sequence do the same to the keys and to the mask: any two agree
/// on every action up to the wait at the end, and on every key event.
pub proof fn law_rounds_are_alike(sequence: KeySequenceView, i: u32, j: u32)
    ensures
        forall|k: int|
            0 <= k < sequence.round(i).actions.len() && k < sequence.round(j).actions.len()
                ==> #[trigger] sequence.round(i).actions[k] == sequence.round(j).actions[k],
        laws::key_events(sequence.round(i).actions) == laws::key_events(sequence.round(j).actions),
        sequence.round(i).actions.len() <= sequence.round(j).actions.len() + 1,
{
    let part = keyboard::chord(
        sequence.codes,
        sequence.mask,
        sequence.keymap.shift_code,
        sequence.base,
    );
    laws::lemma_then_roundtrip(part, 0);
    assert(part + Seq::<KeyAction>::empty() =~= part);
}

/// What a key sequence does, told by the key spec: the tokens before the base key name
/// modifiers, and the keymap is the one for the keysym of the base key. A key spec that
/// does not parse, and a base key without a keysym, are reported as they are.
pub proof fn law_base_keysym(keys: Seq<char>)
    ensures
        forall|e: KeyErrorView|
            keyspec::parsed(keys) == Err::<keyspec::KeySpecView, KeyErrorView>(e)
                ==> keyboard::base_keysym(keys) == Err::<u32, KeyErrorView>(e),
        keyspec::parsed(keys) matches Ok(spec) ==> keyboard::base_keysym(keys)
            == keysym::keysym_of_name(spec.base) && forall|i: int|
            0 <= i < spec.modifiers.len() ==> keyspec::modifier_of(
                #[trigger] spec.modifiers[i],
            ) is Some,
{
    keyboard::lemma_parsed_modifiers(keys);
}

/// What is done to hold keys.
///
/// The keymap is uploaded at once. The keys of all modifier tokens go down in order,
/// then Shift where one of the placed keys needs it; the mask is announced; the placed
/// keys go down in order. After the pause all of them come up in reverse. The mask holds
/// the bits of the modifiers that the tokens name, and Shift's where it is needed.
pub proof fn law_hold_round(
    map: KeymapView,
    modifiers: Seq<Seq<char>>,
    duration_ms: u64,
) -> (mask: u32)
    ensures
        ({
            let round = keyboard::hold_round(map, modifiers, duration_ms);
            let shifted = exists|i: int|
                0 <= i < map.placements.len() && (#[trigger] map.placements[i]).needs_shift;
            let inner = Seq::new(map.placements.len(), |i: int| map.placements[i].evdev_code);
            &&& round.wait.len() == 0
            &&& round.upload == Some(map)
            &&& is_held(
                round.actions,
                held_keys(map, modifiers, shifted),
                mask,
                inner,
                duration_ms,
            )
            &&& is_mask_for(mask, modifiers, shifted)
        }),
{
    let shifted = exists|i: int|
        0 <= i < map.placements.len() && (#[trigger] map.placements[i]).needs_shift;
    let inner = Seq::new(map.placements.len(), |i: int| map.placements[i].evdev_code);
    let outer = held_keys(map, modifiers, shifted);
    assert(shifted == keyboard::any_shift(map.placements));
    assert(inner =~= keyboard::placed_codes(map.placements));
    lemma_held(map, modifiers, shifted);
    law_mask(modifiers, shifted);
    let mask = keyboard::with_shift(keyboard::mask_of(modifiers), shifted);
    let all = keyboard::hold_round(map, modifiers, duration_ms).actions;
    let h = outer.len() as int;
    let n = inner.len() as int;
    let a = keyboard::presses(outer);
    let b = keyboard::presses(inner);
    let c = keyboard::releases(inner);
    let d = keyboard::releases(outer);
    assert(a.len() == h && d.len() == h && b.len() == n && c.len() == n);
    assert(all =~= a + seq![KeyAction::Modifiers { depressed: mask }] + b + seq![
        KeyAction::Flush,
        KeyAction::Sleep { millis: duration_ms },
    ] + c + seq![KeyAction::Modifiers { depressed: 0 }] + d + seq![KeyAction::Roundtrip]);
    assert forall|j: int| 0 <= j < h implies all[j] == (KeyAction::Key {
        code: #[trigger] outer[j],
        pressed: true,
    }) by {
        assert(all[j] == a[j]);
    }
    assert forall|k: int| 0 <= k < n implies all[h + 1 + k] == (KeyAction::Key {
        code: #[trigger] inner[k],
        pressed: true,
    }) by {
        assert(all[h + 1 + k] == b[k]);
    }
    assert forall|k: int| 0 <= k < n implies all[h + 2 + 2 * n - k] == (KeyAction::Key {
        code: #[trigger] inner[k],
        pressed: false,
    }) by {
        assert(all[h + 2 + 2 * n - k] == c[n - 1 - k]);
        assert(inner.reverse()[n - 1 - k] == inner[k]);
    }
    assert forall|j: int| 0 <= j < h implies all[2 * h + 2 * n + 3 - j] == (KeyAction::Key {
        code: #[trigger] outer[j],
        pressed: false,
    }) by {
        assert(all[2 * h + 2 * n + 3 - j] == d[h - 1 - j]);
        assert(outer.reverse()[h - 1 - j] == outer[j]);
    }
    mask
}

/// The mask in force stays the one announced as long as none is announced again.
proof fn lemma_mask_stays(actions: Seq<KeyAction>, at: int, n: int, mask: u32, start: u32)
    requires
        0 <= at < n <= actions.len(),
        actions[at] == (KeyAction::Modifiers { depressed: mask }),
        forall|k: int| at < k < n ==> !(#[trigger] actions[k] is Modifiers),
    ensures
        laws::final_mask(actions.take(n), start) == mask,
    decreases n,
{
    let part = actions.take(n);
    assert(part.drop_last() =~= actions.take(n - 1));
    assert(part.last() == actions[n - 1]);
    if at < n - 1 {
        lemma_mask_stays(actions, at, n - 1, mask, start);
    }
}

/// While keys are held, from the first placed key going down to the end of the pause,
/// the mask in force has a modifier's bit exactly where a token names the modifier, or
/// where it is Shift and a placed key needs it.
pub proof fn law_hold_mask(
    map: KeymapView,
    modifiers: Seq<Seq<char>>,
    duration_ms: u64,
    n: int,
    start: u32,
)
    requires
        ({
            let shifted = exists|i: int|
                0 <= i < map.placements.len() && (#[trigger] map.placements[i]).needs_shift;
            held_keys(map, modifiers, shifted).len() < n <= held_keys(map, modifiers, shifted).len()
                + map.placements.len() + 3
        }),
    ensures
        ({
            let shifted = exists|i: int|
                0 <= i < map.placements.len() && (#[trigger] map.placements[i]).needs_shift;
            let actions = keyboard::hold_round(map, modifiers, duration_ms).actions;
            is_mask_for(laws::final_mask(actions.take(n), start), modifiers, shifted)
        }),
{
    let shifted = exists|i: int|
        0 <= i < map.placements.len() && (#[trigger] map.placements[i]).needs_shift;
    let actions = keyboard::hold_round(map, modifiers, duration_ms).actions;
    let inner = Seq::new(map.placements.len(), |i: int| map.placements[i].evdev_code);
    let h = held_keys(map, modifiers, shifted).len() as int;
    let mask = law_hold_round(map, modifiers, duration_ms);
    assert forall|k: int| h < k < n implies !(#[trigger] actions[k] is Modifiers) by {
        if k < h + 1 + inner.len() {
            let j = k - h - 1;
            assert(actions[h + 1 + j] == (KeyAction::Key { code: inner[j], pressed: true }));
        }
    }
    lemma_mask_stays(actions, h, n, mask, start);
}

/// When the base key of a key sequence goes down, in any round, the mask in force has a
/// modifier's bit exactly where a token names the modifier, or where it is Shift and the
/// base key needs it.
pub proof fn law_sequence_mask(
    map: KeymapView,
    modifiers: Seq<Seq<char>>,
    repeat: Option<u32>,
    i: u32,
    start: u32,
)
    ensures
        ({
            let shifted = map.placements[0].needs_shift;
            let h = held_keys(map, modifiers, shifted).len() as int;
            let actions = keyboard::sequence_on(map, modifiers, repeat).round(i).actions;
            &&& actions[h + 1] == (KeyAction::Key {
                code: map.placements[0].evdev_code,
                pressed: true,
            })
            &&& is_mask_for(laws::final_mask(actions.take(h + 1), start), modifiers, shifted)
        }),
{
    let shifted = map.placements[0].needs_shift;
    let h = held_keys(map, modifiers, shifted).len() as int;
    let actions = keyboard::sequence_on(map, modifiers, repeat).round(i).actions;
    let mask = law_sequence_rounds(map, modifiers, repeat, i);
    lemma_mask_stays(actions, h, h + 1, mask, start);
}

/// The distinct members of a list are as many as the set of its members has.
proof fn lemma_distinct_count(list: Seq<u32>)
    ensures
        keyboard::distinct(list).len() == list.to_set().len(),
{
    keyboard::lemma_distinct(list);
    let page = keyboard::distinct(list);
    page.unique_seq_to_set();
    assert(page.to_set() =~= list.to_set()) by {
        assert forall|k: u32| page.to_set().contains(k) <==> list.to_set().contains(k) by {
            assert(list.contains(k) <==> page.contains(k));
        }
    }
}

/// The distinct members of a list hold nothing twice, the same members as the list, and
/// in the order in which they first appear there.
pub proof fn law_distinct(list: Seq<u32>)
    ensures
        keyboard::distinct(list).no_duplicates(),
        forall|k: u32| list.contains(k) <==> #[trigger] keyboard::distinct(list).contains(k),
        forall|a: int, b: int|
            0 <= a < b < keyboard::distinct(list).len() ==> list.index_of_first(
                #[trigger] keyboard::distinct(list)[a],
            )->0 < list.index_of_first(#[trigger] keyboard::distinct(list)[b])->0,
    decreases list.len(),
{
    keyboard::lemma_distinct(list);
    let page = keyboard::distinct(list);
    if list.len() > 0 {
        let init = list.drop_last();
        law_distinct(init);
        let before = keyboard::distinct(init);
        assert forall|a: int, b: int| 0 <= a < b < page.len() implies list.index_of_first(
            #[trigger] page[a],
        )->0 < list.index_of_first(#[trigger] page[b])->0 by {
            lemma_first_in_prefix(list, page[a]);
            lemma_first_in_prefix(list, page[b]);
            assert(page.contains(page[a]) && page.contains(page[b]));
            assert(list.contains(page[a]) && list.contains(page[b]));
            assert(before[a] == page[a]);
            assert(before.contains(page[a]));
            if b < before.len() {
                assert(before[b] == page[b]);
                assert(before.contains(page[b]));
            }
        }
    }
}

/// Where a member that the list has without its last one first appears.
proof fn lemma_first_in_prefix(list: Seq<u32>, k: u32)
    requires
        list.len() > 0,
    ensures
        list.drop_last().contains(k) ==> list.index_of_first(k) == list.drop_last().index_of_first(k)
            && 0 <= list.index_of_first(k)->0 < list.len() - 1,
        !list.drop_last().contains(k) && list.contains(k) ==> list.index_of_first(k) == Some(
            list.len() - 1,
        ),
{
    let init = list.drop_last();
    list.index_of_first_ensures(k);
    init.index_of_first_ensures(k);
    if init.contains(k) {
        let i = init.index_of_first(k)->0;
        assert(list[i] == k);
        assert(list.contains(k));
        let j = list.index_of_first(k)->0;
        if j < i {
            assert(init[j] == k);
        }
        if i < j {
            assert(list[i] == k);
        }
    } else if list.contains(k) {
        let j = list.index_of_first(k)->0;
        if j < list.len() - 1 {
            assert(init[j] == k);
        }
    }
}

/// What is done to type a run of keysyms.
///
/// There is one round for each of them, in order. Up to two hundred different keysyms are typed on one keymap, which the
/// first round brings; it holds each of them once, in the order in which they first
/// appear. More get a keymap for each round.
/// Each round taps the key that the keymap has for the round's keysym, with Shift held and announced where the key needs it. Rounds are `delay_ms` apart, and
/// the compositor is waited for at the end of each keymap's use.
pub proof fn law_typing_rounds(keysyms: Seq<u32>, delay_ms: u64, i: int) -> (at: (Seq<u32>, int))
    requires
        0 <= i < keysyms.len() <= usize::MAX,
    ensures
        ({
            let plan = keyboard::plan_for(keysyms, delay_ms);
            let round = plan.round(i);
            let (wanted, slot) = at;
            let map = keymap::keymap_of(wanted);
            let p = map.placements[slot];
            let last = i + 1 == keysyms.len();
            let held = if p.needs_shift {
                seq![map.shift_code]
            } else {
                Seq::<u32>::empty()
            };
            &&& plan.keysyms == keysyms
            &&& plan.slots.len() == keysyms.len()
            &&& plan.delay_ms == delay_ms
            &&& 0 <= slot < wanted.len()
            &&& wanted[slot] == keysyms[i]
            &&& map.placements.len() == wanted.len()
            &&& starts_with_tap(
                round.actions,
                held,
                if p.needs_shift {
                    1
                } else {
                    0
                },
                p.evdev_code,
            )
            &&& i == 0 || delay_ms == 0 ==> round.wait.len() == 0
            &&& plan.page is Some <==> keysyms.to_set().len() <= 200
            &&& plan.page is Some ==> {
                &&& plan.page == Some(map)
                &&& plan.slots[i] == slot
                &&& forall|a: int, b: int|
                    0 <= a < b < wanted.len() ==> keysyms.index_of_first(#[trigger] wanted[a])->0
                        < keysyms.index_of_first(#[trigger] wanted[b])->0
                &&& wanted.no_duplicates()
                &&& forall|k: u32| keysyms.contains(k) <==> #[trigger] wanted.contains(k)
                &&& i == 0 ==> round.upload == Some(map)
                &&& i > 0 ==> round.upload is None
                &&& i > 0 && delay_ms > 0 ==> round.wait == seq![
                    KeyAction::Flush,
                    KeyAction::Sleep { millis: delay_ms },
                ]
                &&& last ==> round.actions.len() == 2 * held.len() + 5 && round.actions.last()
                    == KeyAction::Roundtrip
                &&& !last ==> round.actions.len() == 2 * held.len() + 4
            }
            &&& plan.page is None ==> {
                &&& wanted.len() == 1
                &&& round.upload == Some(map)
                &&& i > 0 && delay_ms > 0 ==> round.wait == seq![
                    KeyAction::Sleep { millis: delay_ms },
                ]
                &&& round.actions.len() == 2 * held.len() + 5
                &&& round.actions.last() == KeyAction::Roundtrip
            }
        }),
{
    let plan = keyboard::plan_for(keysyms, delay_ms);
    let none = Seq::<u32>::empty();
    lemma_distinct_count(keysyms);
    law_distinct(keysyms);
    assert(0u32 | 1u32 == 1u32) by (bit_vector);
    if plan.page is Some {
        let wanted = keyboard::distinct(keysyms);
        laws::law_one_page_typing(keysyms, delay_ms, i, i);
        keyboard::lemma_one_placement(wanted);
        let map = keymap::keymap_of(wanted);
        let slot = plan.slots[i] as int;
        let p = map.placements[slot];
        let rest = if i + 1 == keysyms.len() {
            seq![KeyAction::Roundtrip]
        } else {
            Seq::<KeyAction>::empty()
        };
        lemma_chord(none, 0, map.shift_code, p, rest);
        assert(none + keyboard::shift_keys(p.needs_shift, map.shift_code) =~= if p.needs_shift {
            seq![map.shift_code]
        } else {
            none
        });
        (wanted, slot)
    } else {
        let wanted = seq![keysyms[i]];
        keyboard::lemma_one_placement(wanted);
        let map = keymap::keymap_of(wanted);
        let p = map.placements[0];
        lemma_chord(none, 0, map.shift_code, p, seq![KeyAction::Roundtrip]);
        assert(none + keyboard::shift_keys(p.needs_shift, map.shift_code) =~= if p.needs_shift {
            seq![map.shift_code]
        } else {
            none
        });
        (wanted, 0)
    }
}

/// Typing a text has one round for each character, in order: the keysym of round `i` is
/// that of character `i`, and the round taps, with Shift held and announced where it is
/// needed, the key that the keymap in force has for it.
pub proof fn law_typing(text: Seq<char>, delay_ms: u64, i: int) -> (at: (Seq<u32>, int))
    requires
        0 <= i < text.len() <= usize::MAX,
    ensures
        ({
            let plan = keyboard::plan_for(keyboard::text_keysyms(text), delay_ms);
            let (wanted, slot) = at;
            let map = keymap::keymap_of(wanted);
            let p = map.placements[slot];
            &&& plan.keysyms.len() == text.len()
            &&& forall|j: int|
                0 <= j < text.len() ==> #[trigger] plan.keysyms[j] == keysym::keysym_of_char(
                    text[j],
                )
            &&& 0 <= slot < wanted.len()
            &&& wanted[slot] == keysym::keysym_of_char(text[i])
            &&& plan.page is Some ==> plan.page == Some(map) && plan.round(0).upload == Some(map)
            &&& plan.page is None ==> plan.round(i).upload == Some(map)
            &&& starts_with_tap(
                plan.round(i).actions,
                if p.needs_shift {
                    seq![map.shift_code]
                } else {
                    Seq::<u32>::empty()
                },
                if p.needs_shift {
                    1
                } else {
                    0
                },
                p.evdev_code,
            )
        }),
{
    let keysyms = keyboard::text_keysyms(text);
    let first = law_typing_rounds(keysyms, delay_ms, 0);
    law_typing_rounds(keysyms, delay_ms, i)
}

/// What is done in a round of any plan: on a page the slot of the round is tapped, and
/// without one the only key of a keymap for the round's keysym.
pub proof fn law_plan_round(plan: TypePlanView, i: int)
    ensures
        ({
            let round = plan.round(i);
            let pause = i > 0 && plan.delay_ms > 0;
            &&& !pause ==> round.wait.len() == 0
            &&& plan.page matches Some(map) ==> {
                &&& pause ==> round.wait == seq![
                    KeyAction::Flush,
                    KeyAction::Sleep { millis: plan.delay_ms },
                ]
                &&& i == 0 ==> round.upload == Some(map)
                &&& i != 0 ==> round.upload is None
                &&& i + 1 == plan.keysyms.len() ==> round.actions == keyboard::tap(
                    map,
                    plan.slots[i] as int,
                ).push(KeyAction::Roundtrip)
                &&& i + 1 != plan.keysyms.len() ==> round.actions == keyboard::tap(
                    map,
                    plan.slots[i] as int,
                )
            }
            &&& plan.page is None ==> {
                let map = keymap::keymap_of(seq![plan.keysyms[i]]);
                &&& pause ==> round.wait == seq![KeyAction::Sleep { millis: plan.delay_ms }]
                &&& round.upload == Some(map)
                &&& round.actions == keyboard::tap(map, 0).push(KeyAction::Roundtrip)
            }
        }),
{
    let map = typing_map(plan, i);
    let slot = if plan.page is Some {
        plan.slots[i] as int
    } else {
        0
    };
    let tap = keyboard::tap(map, slot);
    assert(tap + seq![KeyAction::Roundtrip] =~= tap.push(KeyAction::Roundtrip));
    assert(tap + Seq::<KeyAction>::empty() =~= tap);
}

spec fn typing_map(plan: TypePlanView, i: int) -> KeymapView {
    match plan.page {
        Some(map) => map,
        None => keymap::keymap_of(seq![plan.keysyms[i]]),
    }
}

/// The states and formats of the protocol, the pause between repeats and the size of a
/// page.
pub proof fn law_numbers()
    ensures
        keyboard::KEY_RELEASED == 0,
        keyboard::KEY_PRESSED == 1,
        keyboard::XKB_V1 == 1,
        keyboard::KEY_REPEAT_MS == 8,
        keyboard::MAX_KEYS_PER_PAGE == 200,
        keyboard::SHIFT_BIT == 1,
{
}

/// Text of printable ASCII characters, line ends and tabs has a physical key for every
/// character, and is typed on the stock keymap where it is typed on one.
pub proof fn law_ascii_text(text: Seq<char>, delay_ms: u64)
    requires
        forall|i: int|
            0 <= i < text.len() ==> {
                ||| ' ' <= #[trigger] text[i] <= '~'
                ||| text[i] == '\n'
                ||| text[i] == '\r'
                ||| text[i] == '\t'
            },
    ensures
        keyboard::is_ascii_text(text),
        forall|i: int|
            0 <= i < text.len() ==> layout::placement_of(
                #[trigger] keyboard::text_keysyms(text)[i],
            ) is Some,
        keyboard::plan_for(keyboard::text_keysyms(text), delay_ms).page matches Some(map)
            ==> map.text == keymap::us_text(),
{
    let keysyms = keyboard::text_keysyms(text);
    assert forall|i: int| 0 <= i < text.len() implies layout::placement_of(
        #[trigger] keysyms[i],
    ) is Some by {
        assert(keysyms[i] == keysym::keysym_of_char(text[i]));
        if 0x20 <= text[i] as u32 <= 0x7e {
            layout::lemma_ascii_is_placed(text[i] as u32);
        }
    }
    keyboard::lemma_distinct(keysyms);
    let page = keyboard::distinct(keysyms);
    assert forall|i: int| 0 <= i < page.len() implies layout::placement_of(
        #[trigger] page[i],
    ) is Some by {
        assert(page.contains(page[i]));
        assert(keysyms.contains(page[i]));
    }
}

/// A text of one character more is typed as before and then that character: its keysyms
/// are those of the text with one more behind them; no text has none.
pub proof fn law_text_keysyms(text: Seq<char>, ch: char)
    ensures
        keyboard::text_keysyms(Seq::<char>::empty()).len() == 0,
        keyboard::text_keysyms(text.push(ch)) == keyboard::text_keysyms(text).push(
            keysym::keysym_of_char(ch),
        ),
{
    assert(keyboard::text_keysyms(text.push(ch)) =~= keyboard::text_keysyms(text).push(
        keysym::keysym_of_char(ch),
    ));
}

/// Modifiers that are held: their keys go down in order and the mask is announced; to
/// let go, the mask is cleared and the keys come up in reverse order. The compositor is
/// waited for both times.
pub proof fn law_modifier_hold(hold: ModifierHold)
    ensures
        ({
            let codes = hold.codes@;
            let h = codes.len() as int;
            let press = hold.press_view();
            let release = hold.release_view();
            &&& press.len() == h + 2
            &&& forall|j: int|
                0 <= j < h ==> press[j] == (KeyAction::Key {
                    code: #[trigger] codes[j],
                    pressed: true,
                })
            &&& press[h] == (KeyAction::Modifiers { depressed: hold.mask })
            &&& press[h + 1] == KeyAction::Roundtrip
            &&& release.len() == h + 2
            &&& release[0] == (KeyAction::Modifiers { depressed: 0 })
            &&& forall|j: int|
                0 <= j < h ==> release[h - j] == (KeyAction::Key {
                    code: #[trigger] codes[j],
                    pressed: false,
                })
            &&& release[h + 1] == KeyAction::Roundtrip
        }),
{
    let codes = hold.codes@;
    let h = codes.len() as int;
    let press = hold.press_view();
    let release = hold.release_view();
    let down = keyboard::presses(codes);
    let up = keyboard::releases(codes);
    assert(down.len() == h && up.len() == h);
    assert forall|j: int| 0 <= j < h implies press[j] == (KeyAction::Key {
        code: #[trigger] codes[j],
        pressed: true,
    }) by {
        assert(press[j] == down[j]);
    }
    assert forall|j: int| 0 <= j < h implies release[h - j] == (KeyAction::Key {
        code: #[trigger] codes[j],
        pressed: false,
    }) by {
        assert(release[h - j] == up[h - 1 - j]);
        assert(codes.reverse()[h - 1 - j] == codes[j]);
    }
}

/// Each token of a list of keys goes to the modifiers where it names one and to the base
/// keys otherwise, behind those before it.
pub proof fn law_partition(keys: Seq<Seq<char>>, key: Seq<char>)
    ensures
        keyboard::modifier_tokens(Seq::<Seq<char>>::empty()).len() == 0,
        keyboard::base_tokens(Seq::<Seq<char>>::empty()).len() == 0,
        keyspec::modifier_of(key) is Some ==> keyboard::modifier_tokens(keys.push(key))
            == keyboard::modifier_tokens(keys).push(key) && keyboard::base_tokens(keys.push(key))
            == keyboard::base_tokens(keys),
        keyspec::modifier_of(key) is None ==> keyboard::modifier_tokens(keys.push(key))
            == keyboard::modifier_tokens(keys) && keyboard::base_tokens(keys.push(key))
            == keyboard::base_tokens(keys).push(key),
{
    reveal(Seq::filter);
    keyspec::lemma_modifier_words(key);
    assert(keys.push(key).drop_last() =~= keys);
    assert(keys.push(key).last() == key);
}

/// Names resolve one by one: to the keysym of each in order where each has one, and
/// otherwise to what is wrong with the first that has none.
pub proof fn law_name_keysyms(names: Seq<Seq<char>>)
    ensures
        (forall|i: int|
            0 <= i < names.len() ==> keysym::keysym_of_name(#[trigger] names[i]) is Ok) ==> {
            &&& keyboard::name_keysyms(names) matches Ok(keysyms)
            &&& keysyms.len() == names.len()
            &&& forall|i: int|
                0 <= i < names.len() ==> keysym::keysym_of_name(#[trigger] names[i]) == Ok::<
                    u32,
                    KeyErrorView,
                >(keysyms[i])
        },
        forall|i: int|
            #![trigger names[i]]
            0 <= i < names.len() && keysym::keysym_of_name(names[i]) is Err && (forall|j: int|
                0 <= j < i ==> keysym::keysym_of_name(#[trigger] names[j]) is Ok)
                ==> keyboard::name_keysyms(names) == Err::<Seq<u32>, KeyErrorView>(
                keysym::keysym_of_name(names[i])->Err_0,
            ),
    decreases names.len(),
{
    if names.len() > 0 {
        let init = names.drop_last();
        let last = names.len() - 1;
        law_name_keysyms(init);
        assert(names[last] == names.last());
        assert(forall|i: int| 0 <= i < last ==> #[trigger] init[i] == names[i]);
        assert(forall|i: int| 0 <= i < last ==> init[i] == #[trigger] names[i]);
        assert forall|i: int|
            #![trigger names[i]]
            0 <= i < names.len() && keysym::keysym_of_name(names[i]) is Err && (forall|j: int|
                0 <= j < i ==> keysym::keysym_of_name(
                    #[trigger] names[j],
                ) is Ok) implies keyboard::name_keysyms(names) == Err::<Seq<u32>, KeyErrorView>(
            keysym::keysym_of_name(names[i])->Err_0,
        ) by {
            if i < last {
                assert(init[i] == names[i]);
            } else {
                assert(forall|j: int|
                    0 <= j < init.len() ==> keysym::keysym_of_name(#[trigger] init[j]) is Ok);
            }
        }
    }
}

/// The first token that names no modifier is the one that is reported; where there is
/// none, all of them name modifiers.
pub proof fn law_strangers(modifiers: Seq<Seq<char>>, i: int)
    ensures
        keyboard::all_modifiers(modifiers) <==> forall|j: int|
            0 <= j < modifiers.len() ==> keyspec::modifier_of(#[trigger] modifiers[j]) is Some,
        keyboard::is_first_stranger(modifiers, i) <==> 0 <= i < modifiers.len()
            && keyspec::modifier_of(modifiers[i]) is None && forall|j: int|
            0 <= j < i ==> keyspec::modifier_of(#[trigger] modifiers[j]) is Some,
{
}

/// The values of rounds, plans, key specs and lists of strings are made of their parts
/// as they are.
pub proof fn law_parts(
    round: Round,
    sequence: KeySequence,
    plan: TypePlan,
    spec: KeySpec,
    list: Seq<String>,
)
    ensures
        round@.wait == round.wait@,
        round@.actions == round.actions@,
        round.upload matches Some(map) ==> round@.upload == Some(map@),
        round.upload is None ==> round@.upload is None,
        sequence@.keymap == sequence.keymap@,
        sequence@.codes == sequence.codes@,
        sequence@.mask == sequence.mask,
        sequence@.base == sequence.base,
        sequence@.repeat == sequence.repeat,
        plan@.keysyms == plan.keysyms@,
        plan.page matches Some(map) ==> plan@.page == Some(map@),
        plan.page is None ==> plan@.page is None,
        plan@.slots == plan.slots@,
        plan@.delay_ms == plan.delay_ms,
        spec@.base == spec.base@,
        spec@.modifiers == text::texts(spec.modifiers@),
        text::texts(list).len() == list.len(),
        forall|i: int| 0 <= i < list.len() ==> #[trigger] text::texts(list)[i] == list[i]@,
{
}

/// The value of an error is made of its parts as they are.
pub proof fn law_error_parts(error: KeyError)
    ensures
        error is EmptySpec <==> error@ is EmptySpec,
        error is NulCharacter <==> error@ is NulCharacter,
        error is EmptyHold <==> error@ is EmptyHold,
        error matches KeyError::UnexpectedToken { token, spec } ==> error@ == (
        KeyErrorView::UnexpectedToken { token: token@, spec: spec@ }),
        error matches KeyError::UnsupportedKey { name, resolved } ==> error@ == (
        KeyErrorView::UnsupportedKey { name: name@, resolved: resolved@ }),
        error matches KeyError::NotAModifier { token } ==> error@ == (KeyErrorView::NotAModifier {
            token: token@,
        }),
{
}

} // verus!
