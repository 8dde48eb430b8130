use wlroots_bridge::keymap::{generate_keymap, modifier_evdev_code};
use wlroots_bridge::keyspec::{is_modifier, parse_spec};
use wlroots_bridge::keysym::{keysym_for_char, keysym_for_name, keysym_name, xkb_symbol_name};
use wlroots_bridge::layout::physical_placement;

#[test]
fn physical_text_preserves_guest_keycodes() {
    let syms: Vec<_> = "student"
        .chars()
        .map(|ch| keysym_for_char(ch).unwrap())
        .collect();
    let km = generate_keymap(&syms);
    let codes: Vec<_> = km.placements.iter().map(|p| p.evdev_code).collect();
    assert_eq!(codes, [31, 20, 22, 32, 18, 49, 20]);
    assert!(km.placements.iter().all(|p| !p.needs_shift));
    assert_eq!(
        (km.ctrl_code, km.shift_code, km.alt_code, km.super_code),
        (29, 42, 56, 125)
    );
}

#[test]
fn physical_shift_levels_share_a_key() {
    let km = generate_keymap(&[
        u32::from('a'),
        u32::from('A'),
        u32::from('1'),
        u32::from('!'),
    ]);
    let actual: Vec<_> = km
        .placements
        .iter()
        .map(|p| (p.evdev_code, p.needs_shift))
        .collect();
    assert_eq!(actual, [(30, false), (30, true), (2, false), (2, true)]);
}

#[test]
fn physical_navigation_keys() {
    let km = generate_keymap(&[
        xkeysym::key::BackSpace,
        xkeysym::key::Return,
        xkeysym::key::Tab,
        xkeysym::key::Left,
    ]);
    let codes: Vec<_> = km.placements.iter().map(|p| p.evdev_code).collect();
    assert_eq!(codes, [14, 28, 15, 105]);
}

#[test]
fn parses_modifier_chord() {
    let spec = parse_spec("ctrl+shift+tab").unwrap();
    assert_eq!(spec.modifiers, vec!["ctrl", "shift"]);
    assert_eq!(spec.base, "tab");
}

#[test]
fn parses_cmd_as_super_base_last() {
    let spec = parse_spec("cmd+a").unwrap();
    assert_eq!(spec.modifiers, vec!["cmd"]);
    assert_eq!(spec.base, "a");
}

#[test]
fn parses_single_key() {
    let spec = parse_spec("return").unwrap();
    assert!(spec.modifiers.is_empty());
    assert_eq!(spec.base, "return");
}

#[test]
fn parses_bare_modifier_as_base() {
    let spec = parse_spec("ctrl").unwrap();
    assert!(spec.modifiers.is_empty());
    assert_eq!(spec.base, "ctrl");
}

#[test]
fn empty_spec_errors() {
    assert!(parse_spec("").is_err());
    assert!(parse_spec("+").is_err());
}

#[test]
fn keysym_names_match_cu_table() {
    assert_eq!(keysym_name("return").unwrap(), "Return");
    assert_eq!(keysym_name("Enter").unwrap(), "Return");
    assert_eq!(keysym_name("escape").unwrap(), "Escape");
    assert_eq!(keysym_name("esc").unwrap(), "Escape");
    assert_eq!(keysym_name("page_down").unwrap(), "Next");
    assert_eq!(keysym_name("pagedown").unwrap(), "Next");
    assert_eq!(keysym_name("page_up").unwrap(), "Prior");
    assert_eq!(keysym_name("space").unwrap(), "space");
    assert_eq!(keysym_name("capslock").unwrap(), "Caps_Lock");
}

#[test]
fn keysym_names_map_modifiers() {
    assert_eq!(keysym_name("ctrl").unwrap(), "Control_L");
    assert_eq!(keysym_name("control").unwrap(), "Control_L");
    assert_eq!(keysym_name("cmd").unwrap(), "Super_L");
    assert_eq!(keysym_name("command").unwrap(), "Super_L");
    assert_eq!(keysym_name("meta").unwrap(), "Super_L");
    assert_eq!(keysym_name("super").unwrap(), "Super_L");
    assert_eq!(keysym_name("alt").unwrap(), "Alt_L");
    assert_eq!(keysym_name("shift").unwrap(), "Shift_L");
}

#[test]
fn keysym_values_resolve() {
    assert_eq!(keysym_for_name("return").unwrap(), xkeysym::key::Return);
    assert_eq!(keysym_for_name("tab").unwrap(), xkeysym::key::Tab);
    assert_eq!(keysym_for_name("F5").unwrap(), xkeysym::key::F5);
    assert_eq!(keysym_for_name("ctrl").unwrap(), xkeysym::key::Control_L);
    assert_eq!(keysym_for_name("a").unwrap(), u32::from('a'));
    assert_eq!(keysym_for_name("A").unwrap(), u32::from('A'));
    assert_eq!(keysym_for_name("é").unwrap(), 0x0e9);
}

#[test]
fn is_modifier_recognizes_aliases() {
    for token in [
        "ctrl", "Control", "ALT", "shift", "super", "meta", "cmd", "command",
    ] {
        assert!(is_modifier(token), "{token} should be a modifier");
    }
    assert!(!is_modifier("a"));
    assert!(!is_modifier("tab"));
}

#[test]
fn char_keysyms_use_unicode_encoding_for_cjk() {
    // Latin-1 stays as codepoint.
    assert_eq!(keysym_for_char('a').unwrap(), 0x61);
    assert_eq!(keysym_for_char('é').unwrap(), 0xe9);
    // A CJK char has no named/Latin-1 keysym -> Unicode encoding.
    let ks = keysym_for_char('好').unwrap();
    assert_eq!(ks, 0x0100_0000 | u32::from('好'));
    // Emoji likewise.
    let smile = keysym_for_char('😀').unwrap();
    assert_eq!(smile, 0x0100_0000 | 0x1F600);
    // Newline / tab map to Return / Tab.
    assert_eq!(keysym_for_char('\n').unwrap(), xkeysym::key::Return);
    assert_eq!(keysym_for_char('\t').unwrap(), xkeysym::key::Tab);
}

#[test]
fn xkb_symbol_names_are_well_formed() {
    assert_eq!(xkb_symbol_name(xkeysym::key::Return), "Return");
    assert_eq!(xkb_symbol_name(xkeysym::key::space), "space");
    // Unicode-encoded emoji.
    assert_eq!(xkb_symbol_name(0x0100_0000 | 0x1F600), "U1F600");
    // Latin-1 e acute -> its xkb name if there is one, else U00E9.
    let s = xkb_symbol_name(0xe9);
    assert!(s == "eacute" || s == "U00E9", "got {s}");
}

#[test]
fn generated_keymap_is_well_formed() {
    let syms = vec![
        keysym_for_char('h').unwrap(),
        keysym_for_char('i').unwrap(),
        keysym_for_char('好').unwrap(),
    ];
    let km = generate_keymap(&syms);

    // Structural sanity: the four sections and the wrapping braces exist.
    assert!(km.text.starts_with("xkb_keymap {"));
    assert!(km.text.contains("xkb_keycodes"));
    assert!(km.text.contains("xkb_types"));
    assert!(km.text.contains("xkb_compat"));
    assert!(km.text.contains("xkb_symbols"));
    assert!(km.text.trim_end().ends_with("};"));
    // No NUL sneaks into the text (it is appended separately when writing).
    assert!(!km.text.contains('\0'));
    // Balanced braces.
    let opens = km.text.matches('{').count();
    let closes = km.text.matches('}').count();
    assert_eq!(opens, closes, "unbalanced braces in keymap");

    // One placement per requested keysym, codes strictly increasing.
    assert_eq!(km.placements.len(), 3);
    assert!(km.placements[0].evdev_code < km.placements[1].evdev_code);
    assert!(km.placements[1].evdev_code < km.placements[2].evdev_code);

    // Modifier evdev codes distinct from key codes.
    assert!(km.ctrl_code < km.placements[0].evdev_code);
    assert!(km.shift_code < km.placements[0].evdev_code);

    // The CJK char is placed as a Unicode symbol.
    assert!(km.text.contains("U597D"));
    // modifier_map entries present.
    assert!(km.text.contains("modifier_map Control"));
    assert!(km.text.contains("modifier_map Shift"));
}

#[test]
fn generated_keymap_handles_repeated_chars() {
    // Repeated chars each get their own placement; the keymap must still be
    // well-formed and hold one placement per input.
    let syms: Vec<u32> = "aaa".chars().map(|c| keysym_for_char(c).unwrap()).collect();
    let km = generate_keymap(&syms);
    assert_eq!(km.placements.len(), 3);
    let opens = km.text.matches('{').count();
    let closes = km.text.matches('}').count();
    assert_eq!(opens, closes);
}

#[test]
fn modifier_evdev_code_maps_tokens() {
    let km = generate_keymap(&[keysym_for_char('x').unwrap()]);
    assert_eq!(modifier_evdev_code(&km, "ctrl").unwrap(), km.ctrl_code);
    assert_eq!(modifier_evdev_code(&km, "control").unwrap(), km.ctrl_code);
    assert_eq!(modifier_evdev_code(&km, "shift").unwrap(), km.shift_code);
    assert_eq!(modifier_evdev_code(&km, "alt").unwrap(), km.alt_code);
    assert_eq!(modifier_evdev_code(&km, "cmd").unwrap(), km.super_code);
    assert_eq!(modifier_evdev_code(&km, "super").unwrap(), km.super_code);
    assert!(modifier_evdev_code(&km, "a").is_err());
}

#[test]
fn symbol_keymap_text_is_exact() {
    let km = generate_keymap(&[u32::from('h'), 0x0100_597d]);
    let expected = "xkb_keymap {\n\
xkb_keycodes \"wlroots-bridge\" {\n  minimum = 9;\n  maximum = 15;\n  <K9> = 9;\n  <K10> = 10;\n  <K11> = 11;\n  <K12> = 12;\n  <K13> = 13;\n  <K14> = 14;\n};\n\
xkb_types \"wlroots-bridge\" { include \"complete\" };\n\
xkb_compat \"wlroots-bridge\" { include \"complete\" };\n\
xkb_symbols \"wlroots-bridge\" {\n  key <K9> { [ Control_L ] };\n  key <K10> { [ Shift_L ] };\n  key <K11> { [ Alt_L ] };\n  key <K12> { [ Super_L ] };\n  key <K13> { [ h, h ] };\n  key <K14> { [ U597D, U597D ] };\n  modifier_map Control { <K9> };\n  modifier_map Shift { <K10> };\n  modifier_map Mod1 { <K11> };\n  modifier_map Mod4 { <K12> };\n};\n\
};\n";
    assert_eq!(km.text, expected);
    assert_eq!(
        (km.ctrl_code, km.shift_code, km.alt_code, km.super_code),
        (1, 2, 3, 4)
    );
    let placed: Vec<_> = km
        .placements
        .iter()
        .map(|p| (p.evdev_code, p.needs_shift))
        .collect();
    assert_eq!(placed, [(5, false), (6, false)]);
}

#[test]
fn us_keymap_text_is_exact() {
    let km = generate_keymap(&[]);
    assert_eq!(
        km.text,
        "xkb_keymap {\nxkb_keycodes { include \"evdev+aliases(qwerty)\" };\nxkb_types { include \"complete\" };\nxkb_compatibility { include \"complete\" };\nxkb_symbols { include \"pc+us+inet(evdev)\" };\n};\n"
    );
    assert!(km.placements.is_empty());
    assert_eq!(
        (km.ctrl_code, km.shift_code, km.alt_code, km.super_code),
        (29, 42, 56, 125)
    );
}

#[test]
fn one_unplaced_symbol_makes_the_whole_keymap_dynamic() {
    let km = generate_keymap(&[u32::from('A'), 0x0101_f600]);
    assert_eq!(km.placements[0].evdev_code, 5);
    assert!(!km.placements[0].needs_shift);
    assert!(km.text.contains("  key <K13> { [ A, A ] };\n"));
    assert!(km.text.contains("  key <K14> { [ U1F600, U1F600 ] };\n"));
}

#[test]
fn upload_ends_in_the_only_nul() {
    for syms in [vec![], vec![0x0100_597d, 0xe9]] {
        let km = generate_keymap(&syms);
        let bytes = km.upload_bytes();
        assert_eq!(bytes.len(), km.text.len() + 1);
        assert_eq!(bytes.iter().position(|&b| b == 0), Some(bytes.len() - 1));
        assert_eq!(&bytes[..km.text.len()], km.text.as_bytes());
    }
}

#[test]
fn keymap_clone_is_equal() {
    let km = generate_keymap(&[u32::from('Q'), 0x0100_597d]);
    let copy = km.clone();
    assert_eq!(copy.text, km.text);
    assert_eq!(copy.placements, km.placements);
    assert_eq!(copy.super_code, km.super_code);
}

#[test]
fn every_symbol_is_bound_to_the_key_of_its_placement() {
    let syms = [u32::from('z'), 0x7d9, 0x0101_f600, xkeysym::key::F13];
    let km = generate_keymap(&syms);
    for (p, &ks) in km.placements.iter().zip(syms.iter()) {
        let name = xkb_symbol_name(ks);
        let line = format!("  key <K{}> {{ [ {name}, {name} ] }};\n", p.evdev_code + 8);
        assert!(km.text.contains(&line), "{line}");
    }
}

#[test]
fn stock_modifier_keys_are_the_left_hand_keys() {
    let km = generate_keymap(&[]);
    for token in ["ctrl", "shift", "alt", "super"] {
        let left = physical_placement(keysym_for_name(token).unwrap()).unwrap();
        assert_eq!(modifier_evdev_code(&km, token).unwrap(), left.evdev_code);
        assert!(!left.needs_shift);
    }
}

#[test]
fn every_keycode_is_declared_and_every_modifier_mapped() {
    let km = generate_keymap(&[0x0100_597d; 3]);
    for keycode in 9..16 {
        assert!(km.text.contains(&format!("  <K{keycode}> = {keycode};\n")));
    }
    for (name, code) in [
        ("Control", km.ctrl_code),
        ("Shift", km.shift_code),
        ("Mod1", km.alt_code),
        ("Mod4", km.super_code),
    ] {
        let line = format!("  modifier_map {name} {{ <K{}> }};\n", code + 8);
        assert!(km.text.contains(&line), "{line}");
    }
}
