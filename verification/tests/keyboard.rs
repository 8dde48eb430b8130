use wlroots_bridge::error::KeyError;
use wlroots_bridge::keyboard::{
    event_time, hold_key, hold_on_keymap, key_sequence, key_state, partition_keys, tap_actions,
    type_text, KeyAction, KeySequence, ModifierHold, TypePlan, KEY_PRESSED, KEY_RELEASED, XKB_V1,
};
use wlroots_bridge::keymap::generate_keymap;

fn down(code: u32) -> KeyAction {
    KeyAction::Key { code, pressed: true }
}

fn up(code: u32) -> KeyAction {
    KeyAction::Key { code, pressed: false }
}

fn mask(depressed: u32) -> KeyAction {
    KeyAction::Modifiers { depressed }
}

fn strings(list: &[&str]) -> Vec<String> {
    list.iter().map(|s| s.to_string()).collect()
}

fn events(actions: &[KeyAction]) -> Vec<(u32, bool)> {
    let mut list = Vec::new();
    for action in actions {
        if let KeyAction::Key { code, pressed } = action {
            list.push((*code, *pressed));
        }
    }
    list
}

fn assert_mirrored(list: &[(u32, bool)]) {
    let n = list.len();
    assert_eq!(n % 2, 0);
    for i in 0..n {
        assert_eq!(list[i].1, i < n / 2);
        assert_eq!(list[i].0, list[n - 1 - i].0);
    }
}

#[test]
fn key_state_constants() {
    assert_eq!(KEY_PRESSED, 1);
    assert_eq!(KEY_RELEASED, 0);
    assert_eq!(XKB_V1, 1);
}

#[test]
fn key_states_and_times() {
    assert_eq!(key_state(true), 1);
    assert_eq!(key_state(false), 0);
    assert_eq!(event_time(None), 0);
    assert_eq!(event_time(Some(5)), 5);
    assert_eq!(event_time(Some(0x1_0000_0007)), 7);
    assert_eq!(event_time(Some(u128::MAX)), u32::MAX);
}

#[test]
fn sequence_presses_modifiers_around_the_base() {
    let (seq, report) = key_sequence("ctrl+Shift+tab", None).unwrap();
    assert_eq!(seq.repeat, 1);
    let round = seq.round(0);
    assert!(round.wait.is_empty());
    assert_eq!(round.upload.unwrap().text, generate_keymap(&[0xff09]).text);
    assert_eq!(
        round.actions,
        vec![
            down(29),
            down(42),
            mask(0x5),
            down(15),
            up(15),
            mask(0),
            up(42),
            up(29),
            KeyAction::Roundtrip,
        ]
    );
    assert_eq!(report.action, "key");
    assert_eq!(report.keys, vec!["ctrl", "Shift", "tab"]);
    assert_eq!(report.repeat, Some(1));
    assert_eq!(report.duration_ms, None);
}

#[test]
fn sequence_drives_shift_for_a_shifted_base() {
    let (seq, _) = key_sequence("cmd+A", Some(0)).unwrap();
    assert_eq!(seq.repeat, 1);
    assert_eq!(
        seq.round(0).actions,
        vec![
            down(125),
            down(42),
            mask(0x41),
            down(30),
            up(30),
            mask(0),
            up(42),
            up(125),
            KeyAction::Roundtrip,
        ]
    );
}

#[test]
fn sequence_repeats_with_a_pause() {
    let (seq, report) = key_sequence("a", Some(3)).unwrap();
    assert_eq!(seq.repeat, 3);
    assert_eq!(report.repeat, Some(3));
    let plain = vec![mask(0), down(30), up(30), mask(0)];
    let first = seq.round(0);
    assert!(first.wait.is_empty());
    assert!(first.upload.is_some());
    assert_eq!(first.actions, plain);
    let second = seq.round(1);
    assert_eq!(second.wait, vec![KeyAction::Flush, KeyAction::Sleep { millis: 8 }]);
    assert!(second.upload.is_none());
    assert_eq!(second.actions, plain);
    let third = seq.round(2);
    assert_eq!(third.actions.last(), Some(&KeyAction::Roundtrip));
    assert_eq!(third.actions.len(), 5);
}

#[test]
fn sequence_on_a_dynamic_keymap() {
    let (seq, _) = key_sequence("alt+好", None).unwrap();
    assert_eq!(
        seq.round(0).actions,
        vec![
            down(3),
            mask(0x8),
            down(5),
            up(5),
            mask(0),
            up(3),
            KeyAction::Roundtrip,
        ]
    );
}

#[test]
fn sequence_errors() {
    assert!(matches!(key_sequence(" + ", None), Err(KeyError::EmptySpec)));
    assert!(matches!(
        key_sequence("a+b", None),
        Err(KeyError::UnexpectedToken { .. })
    ));
    assert!(matches!(
        key_sequence("ctrl+nope", None),
        Err(KeyError::UnsupportedKey { .. })
    ));
    let km = generate_keymap(&[u32::from('a')]);
    match KeySequence::on_keymap(km, &strings(&["ctrl", "x", "y"]), None) {
        Err(KeyError::NotAModifier { token }) => assert_eq!(token, "x"),
        other => panic!("{other:?}"),
    }
}

#[test]
fn typing_uses_one_upload_and_reuses_keys() {
    let (plan, report) = type_text("aA!a", 12).unwrap();
    assert_eq!(report.action, "type");
    assert_eq!(report.text, "aA!a");
    assert_eq!(report.char_count, 4);
    assert_eq!(plan.keysyms.len(), 4);
    let first = plan.round(0);
    assert!(first.wait.is_empty());
    assert_eq!(first.upload.unwrap().placements.len(), 3);
    assert_eq!(first.actions, vec![mask(0), down(30), up(30), mask(0)]);
    let second = plan.round(1);
    assert_eq!(second.wait, vec![KeyAction::Flush, KeyAction::Sleep { millis: 12 }]);
    assert!(second.upload.is_none());
    assert_eq!(
        second.actions,
        vec![down(42), mask(1), down(30), up(30), mask(0), up(42)]
    );
    let third = plan.round(2);
    assert_eq!(
        third.actions,
        vec![down(42), mask(1), down(2), up(2), mask(0), up(42)]
    );
    let fourth = plan.round(3);
    assert_eq!(
        fourth.actions,
        vec![mask(0), down(30), up(30), mask(0), KeyAction::Roundtrip]
    );
}

#[test]
fn typing_without_delay_does_not_wait() {
    let (plan, _) = type_text("ab", 0).unwrap();
    assert!(plan.round(1).wait.is_empty());
}

#[test]
fn typing_nothing_has_no_rounds() {
    let (plan, report) = type_text("", 5).unwrap();
    assert!(plan.keysyms.is_empty());
    assert_eq!(report.char_count, 0);
    assert_eq!(report.text, "");
}

#[test]
fn typing_line_ends_share_return() {
    let (plan, _) = type_text("\n\r\t", 0).unwrap();
    assert_eq!(plan.keysyms, vec![0xff0d, 0xff0d, 0xff09]);
    assert_eq!(plan.slots, vec![0, 0, 1]);
    assert_eq!(plan.round(1).actions, vec![mask(0), down(28), up(28), mask(0)]);
}

#[test]
fn typing_mixed_text_is_dynamic_throughout() {
    let (plan, report) = type_text("A好A", 1).unwrap();
    assert_eq!(report.char_count, 3);
    let round = plan.round(0);
    assert_eq!(round.actions, vec![mask(0), down(5), up(5), mask(0)]);
    assert_eq!(plan.round(1).actions, vec![mask(0), down(6), up(6), mask(0)]);
    let keymap = round.upload.unwrap();
    assert!(keymap.text.contains("{ [ A, A ] }"));
    for p in &keymap.placements {
        assert!(p.evdev_code + 8 <= 255);
    }
}

#[test]
fn typing_many_symbols_uploads_for_each() {
    let many: String = (0x4e00..0x4e00 + 201u32).map(|c| char::from_u32(c).unwrap()).collect();
    let (plan, report) = type_text(&many, 3).unwrap();
    assert_eq!(report.char_count, 201);
    let first = plan.round(0);
    assert!(first.wait.is_empty());
    assert!(first.upload.unwrap().text.contains("U4E00"));
    let tenth = plan.round(10);
    assert_eq!(tenth.wait, vec![KeyAction::Sleep { millis: 3 }]);
    let keymap = tenth.upload.unwrap();
    assert_eq!(keymap.placements.len(), 1);
    assert!(keymap.text.contains("U4E0A"));
    assert_eq!(
        tenth.actions,
        vec![mask(0), down(5), up(5), mask(0), KeyAction::Roundtrip]
    );
    // Two hundred still fit on one page.
    let fewer: String = many.chars().take(200).collect();
    let (plan, _) = type_text(&fewer, 3).unwrap();
    assert_eq!(plan.round(0).upload.unwrap().placements.len(), 200);
    assert!(plan.round(1).upload.is_none());
    assert_eq!(plan.round(199).actions[1], down(204));
}

#[test]
fn typing_plain_ascii_uses_physical_keys() {
    let text: String = (' '..='~').collect();
    let (plan, _) = type_text(&text, 0).unwrap();
    assert!(plan.round(0).upload.unwrap().text.contains("pc+us+inet(evdev)"));
    let plan = TypePlan::for_keysyms(vec![0x61, 0x62, 0x61], 0);
    assert_eq!(plan.slots, vec![0, 1, 0]);
}

#[test]
fn holding_presses_modifiers_first_and_releases_in_reverse() {
    let keys = strings(&["a", "shift", "B", "ctrl"]);
    let (round, report) = hold_key(&keys, 250).unwrap();
    assert!(round.wait.is_empty());
    assert_eq!(round.upload.unwrap().placements.len(), 2);
    assert_eq!(
        round.actions,
        vec![
            down(42),
            down(29),
            down(42),
            mask(0x5),
            down(30),
            down(48),
            KeyAction::Flush,
            KeyAction::Sleep { millis: 250 },
            up(48),
            up(30),
            mask(0),
            up(42),
            up(29),
            up(42),
            KeyAction::Roundtrip,
        ]
    );
    assert_mirrored(&events(&round.actions));
    assert_eq!(report.action, "hold-key");
    assert_eq!(report.keys, keys);
    assert_eq!(report.repeat, None);
    assert_eq!(report.duration_ms, Some(250));
}

#[test]
fn holding_only_modifiers_or_a_blank() {
    let (round, _) = hold_key(&strings(&["meta"]), 1).unwrap();
    assert_eq!(events(&round.actions), vec![(125, true), (125, false)]);
    let (round, _) = hold_key(&strings(&[" "]), 1).unwrap();
    assert_eq!(events(&round.actions), vec![(57, true), (57, false)]);
}

#[test]
fn holding_errors() {
    let empty: Vec<String> = Vec::new();
    let refused = hold_key(&empty, 1).unwrap_err();
    assert!(matches!(refused, KeyError::EmptyHold));
    assert_eq!(refused.message(), "hold key list is empty");
    match hold_key(&strings(&["a", "first", "second"]), 1) {
        Err(KeyError::UnsupportedKey { name, .. }) => assert_eq!(name, "first"),
        other => panic!("{other:?}"),
    }
    let km = generate_keymap(&[u32::from('a')]);
    assert!(matches!(
        hold_on_keymap(km, &strings(&["q"]), 1),
        Err(KeyError::NotAModifier { .. })
    ));
}

#[test]
fn keys_are_partitioned_in_order() {
    let (mods, bases) = partition_keys(&strings(&["x", "alt", "y", "Meta"]));
    assert_eq!(mods, vec!["alt", "Meta"]);
    assert_eq!(bases, vec!["x", "y"]);
}

#[test]
fn modifier_hold_presses_and_releases() {
    let hold = ModifierHold::press(&strings(&["ctrl", "alt"])).unwrap();
    let round = hold.press_round();
    assert!(round.wait.is_empty());
    assert_eq!(round.upload.unwrap().text, generate_keymap(&[]).text);
    assert_eq!(
        round.actions,
        vec![down(29), down(56), mask(0xc), KeyAction::Roundtrip]
    );
    assert_eq!(
        hold.release_actions(),
        vec![mask(0), up(56), up(29), KeyAction::Roundtrip]
    );
    let mut all = round.actions;
    all.extend(hold.release_actions());
    assert_mirrored(&events(&all));
    match ModifierHold::press(&strings(&["ctrl", "tab"])) {
        Err(KeyError::NotAModifier { token }) => assert_eq!(token, "tab"),
        other => panic!("{other:?}"),
    }
}

#[test]
fn every_round_is_mirrored() {
    for keys in ["ctrl+shift+A", "super", "alt+好", "!"] {
        let (seq, _) = key_sequence(keys, Some(2)).unwrap();
        for i in 0..2 {
            assert_mirrored(&events(&seq.round(i).actions));
        }
    }
    let km = generate_keymap(&[u32::from('?')]);
    assert_mirrored(&events(&tap_actions(&km, 0)));
}

#[test]
fn keymaps_that_are_handed_out_can_be_uploaded() {
    let mut maps = Vec::new();
    maps.push(key_sequence("ctrl+\u{e9}", None).unwrap().0.keymap);
    maps.push(type_text("{}Ω\u{1}", 0).unwrap().0.page.unwrap());
    maps.push(hold_key(&strings(&["Ж", "}"]), 1).unwrap().0.upload.unwrap());
    maps.push(ModifierHold::press(&strings(&["alt"])).unwrap().keymap);
    for map in maps {
        assert!(map.text.chars().all(|c| c.is_ascii() && c != '\0'));
        let mut depth = 0i32;
        for c in map.text.chars() {
            if c == '{' {
                depth += 1;
            } else if c == '}' {
                depth -= 1;
            }
            assert!(depth >= 0);
        }
        assert_eq!(depth, 0);
    }
}
