use wlroots_bridge::error::KeyError;
use wlroots_bridge::key;
use wlroots_bridge::keysym::{
    keysym_for_char, keysym_for_char_named, keysym_for_name, keysym_name, xkb_symbol_name,
    xkb_symbol_name_from, CU_KEY_NAMES, KEYSYM_NAMES,
};
use wlroots_bridge::layout::physical_placement;

#[test]
fn keysym_values_are_those_of_the_keysym_crate() {
    assert_eq!(key::NO_SYMBOL, xkeysym::key::NoSymbol);
    assert_eq!(key::CONTROL_L, xkeysym::key::Control_L);
    assert_eq!(key::CONTROL_R, xkeysym::key::Control_R);
    assert_eq!(key::SHIFT_L, xkeysym::key::Shift_L);
    assert_eq!(key::SHIFT_R, xkeysym::key::Shift_R);
    assert_eq!(key::ALT_L, xkeysym::key::Alt_L);
    assert_eq!(key::ALT_R, xkeysym::key::Alt_R);
    assert_eq!(key::SUPER_L, xkeysym::key::Super_L);
    assert_eq!(key::SUPER_R, xkeysym::key::Super_R);
    assert_eq!(key::META_L, xkeysym::key::Meta_L);
    assert_eq!(key::META_R, xkeysym::key::Meta_R);
    assert_eq!(key::CAPS_LOCK, xkeysym::key::Caps_Lock);
    assert_eq!(key::NUM_LOCK, xkeysym::key::Num_Lock);
    assert_eq!(key::RETURN, xkeysym::key::Return);
    assert_eq!(key::BACKSPACE, xkeysym::key::BackSpace);
    assert_eq!(key::DELETE, xkeysym::key::Delete);
    assert_eq!(key::ESCAPE, xkeysym::key::Escape);
    assert_eq!(key::TAB, xkeysym::key::Tab);
    assert_eq!(key::SPACE, xkeysym::key::space);
    assert_eq!(key::UP, xkeysym::key::Up);
    assert_eq!(key::DOWN, xkeysym::key::Down);
    assert_eq!(key::LEFT, xkeysym::key::Left);
    assert_eq!(key::RIGHT, xkeysym::key::Right);
    assert_eq!(key::HOME, xkeysym::key::Home);
    assert_eq!(key::END, xkeysym::key::End);
    assert_eq!(key::PRIOR, xkeysym::key::Prior);
    assert_eq!(key::NEXT, xkeysym::key::Next);
    assert_eq!(key::INSERT, xkeysym::key::Insert);
    assert_eq!(key::MENU, xkeysym::key::Menu);
    assert_eq!(key::PRINT, xkeysym::key::Print);
    assert_eq!(key::PAUSE, xkeysym::key::Pause);
    assert_eq!(key::F1, xkeysym::key::F1);
    assert_eq!(key::F2, xkeysym::key::F2);
    assert_eq!(key::F3, xkeysym::key::F3);
    assert_eq!(key::F4, xkeysym::key::F4);
    assert_eq!(key::F5, xkeysym::key::F5);
    assert_eq!(key::F6, xkeysym::key::F6);
    assert_eq!(key::F7, xkeysym::key::F7);
    assert_eq!(key::F8, xkeysym::key::F8);
    assert_eq!(key::F9, xkeysym::key::F9);
    assert_eq!(key::F10, xkeysym::key::F10);
    assert_eq!(key::F11, xkeysym::key::F11);
    assert_eq!(key::F12, xkeysym::key::F12);
    assert_eq!(key::F13, xkeysym::key::F13);
    assert_eq!(key::F14, xkeysym::key::F14);
    assert_eq!(key::F15, xkeysym::key::F15);
    assert_eq!(key::F16, xkeysym::key::F16);
    assert_eq!(key::F17, xkeysym::key::F17);
    assert_eq!(key::F18, xkeysym::key::F18);
    assert_eq!(key::F19, xkeysym::key::F19);
    assert_eq!(key::F20, xkeysym::key::F20);
    assert_eq!(key::F21, xkeysym::key::F21);
    assert_eq!(key::F22, xkeysym::key::F22);
    assert_eq!(key::F23, xkeysym::key::F23);
    assert_eq!(key::F24, xkeysym::key::F24);
}

#[test]
fn keysym_table_reads_both_ways() {
    for (name, value) in KEYSYM_NAMES {
        assert_eq!(keysym_for_name(name).unwrap(), value, "{name}");
        assert_eq!(xkb_symbol_name(value), name);
    }
}

#[test]
fn every_key_name_resolves() {
    for (name, target) in CU_KEY_NAMES {
        assert_eq!(keysym_name(name).unwrap(), target);
        assert_eq!(keysym_name(&name.to_uppercase()).unwrap(), target);
        assert!(keysym_for_name(name).is_ok());
    }
}

#[test]
fn blank_is_the_space_key() {
    assert_eq!(keysym_name(" ").unwrap(), "space");
    assert_eq!(keysym_for_name(" ").unwrap(), 0x20);
    assert_eq!(keysym_name(" space ").unwrap(), "space");
    assert_eq!(keysym_name("  ").unwrap(), "");
}

#[test]
fn unknown_names_pass_through_trimmed_and_case_kept() {
    assert_eq!(keysym_name(" Foo_Bar ").unwrap(), "Foo_Bar");
    assert_eq!(keysym_name("_").unwrap(), "_");
    assert_eq!(keysym_for_name("_").unwrap(), 0x5f);
    assert_eq!(keysym_for_name("好").unwrap(), 0x0100_597d);
}

#[test]
fn unsupported_name_is_reported() {
    match keysym_for_name(" f5x ") {
        Err(KeyError::UnsupportedKey { name, resolved }) => {
            assert_eq!(name, " f5x ");
            assert_eq!(resolved, "f5x");
        }
        other => panic!("{other:?}"),
    }
    // Keysym names match case and all.
    assert!(keysym_for_name("f5").is_err());
    assert!(keysym_for_name("").is_err());
    assert_eq!(
        keysym_for_name("nope").unwrap_err().message(),
        "unsupported key name `nope` (resolved keysym name `nope`)"
    );
}

#[test]
fn symbol_names_come_from_the_keysym_crate() {
    assert_eq!(xkb_symbol_name(0x7d9), "Greek_OMEGA");
    assert_eq!(xkb_symbol_name(0x20ac), "EuroSign");
    assert_eq!(xkb_symbol_name(u32::from('{')), "braceleft");
    assert_eq!(xkb_symbol_name(u32::from('0')), "0");
    // A crate name without the usual prefix stays whole.
    assert_eq!(xkb_symbol_name(0x1008_ff12), "XF86XK_AudioMute");
    // A value without any name.
    assert_eq!(xkb_symbol_name(0x2000_0001), "U20000001");
    assert_eq!(xkb_symbol_name(0x01), "U0001");
}

#[test]
fn characters_beyond_latin1_use_the_unicode_keysym() {
    assert_eq!(keysym_for_char('\u{ff}').unwrap(), 0xff);
    assert_eq!(keysym_for_char('\u{100}').unwrap(), 0x0100_0100);
    assert_eq!(keysym_for_char('\u{104}').unwrap(), 0x0100_0104);
    assert_eq!(keysym_for_char('Ж').unwrap(), 0x0100_0416);
    assert_eq!(keysym_for_char('Ω').unwrap(), 0x0100_03a9);
    assert_eq!(keysym_for_char('€').unwrap(), 0x0100_20ac);
    assert_eq!(keysym_for_name("Ω").unwrap(), 0x0100_03a9);
    assert_eq!(xkb_symbol_name(keysym_for_char('Ω').unwrap()), "U03A9");
}

#[test]
fn control_and_special_characters() {
    assert_eq!(keysym_for_char('\u{1}').unwrap(), 0x0100_0001);
    assert_eq!(keysym_for_char('\u{b}').unwrap(), 0xff0b);
    assert_eq!(keysym_for_char('\u{c}').unwrap(), 0x0100_000c);
    assert_eq!(keysym_for_char('\u{80}').unwrap(), 0x0100_0080);
    assert_eq!(keysym_for_char('\r').unwrap(), 0xff0d);
    assert_eq!(keysym_for_char('\u{8}').unwrap(), 0xff08);
    assert_eq!(keysym_for_char('\u{1b}').unwrap(), 0xff1b);
    assert_eq!(keysym_for_char('\u{7f}').unwrap(), 0xffff);
    assert_eq!(keysym_for_char('\0').unwrap(), 0x0100_0000);
    assert_eq!(keysym_for_char('\u{fffe}').unwrap(), 0x0100_fffe);
    assert_eq!(keysym_for_char('\u{fdd0}').unwrap(), 0x0100_fdd0);
}

#[test]
fn nul_without_a_symbol_is_refused() {
    let refused = keysym_for_char_named('\0', 0).unwrap_err();
    assert!(matches!(refused, KeyError::NulCharacter));
    assert_eq!(refused.message(), "cannot type NUL");
    assert_eq!(keysym_for_char_named('x', 0).unwrap(), 0x0100_0078);
    assert_eq!(keysym_for_char_named('x', 7).unwrap(), 7);
    assert_eq!(keysym_for_char_named('\u{ff}', 7).unwrap(), 7);
    assert_eq!(keysym_for_char_named('\u{100}', 7).unwrap(), 0x0100_0100);
    assert_eq!(keysym_for_char_named('Ω', 0x7d9).unwrap(), 0x0100_03a9);
    assert_eq!(keysym_for_char_named('\n', 7).unwrap(), 0xff0d);
    assert_eq!(keysym_for_char_named('\t', 7).unwrap(), 0xff09);
}

#[test]
fn symbol_names_from_given_names() {
    assert_eq!(xkb_symbol_name_from(0x99, Some("XK_thing")), "thing");
    assert_eq!(xkb_symbol_name_from(0x99, Some("thing")), "thing");
    assert_eq!(xkb_symbol_name_from(0x99, Some("XK")), "XK");
    assert_eq!(xkb_symbol_name_from(0x99, None), "U0099");
    assert_eq!(xkb_symbol_name_from(0x0100_0041, Some("XK_thing")), "U0041");
    assert_eq!(xkb_symbol_name_from(0xff0d, Some("XK_thing")), "Return");
}

#[test]
fn every_character_has_the_documented_keysym() {
    for ch in '\0'..=char::MAX {
        let c = u32::from(ch);
        let keysym = keysym_for_char(ch).unwrap();
        if ch == '\n' || ch == '\r' {
            assert_eq!(keysym, 0xff0d);
        } else if ch == '\t' {
            assert_eq!(keysym, 0xff09);
        } else if (0x20..=0x7e).contains(&c) || (0xa0..=0xff).contains(&c) {
            assert_eq!(keysym, c);
        } else if (0x08..=0x0b).contains(&c) || c == 0x1b {
            assert_eq!(keysym, c + 0xff00);
        } else if c == 0x7f {
            assert_eq!(keysym, 0xffff);
        } else {
            assert_eq!(keysym, c + 0x0100_0000);
        }
        // What is relied on of the keysym crate beyond Latin-1.
        let named = xkeysym::Keysym::from_char(ch).raw();
        if (0xfdd0..=0xfdef).contains(&c) || c % 0x10000 >= 0xfffe {
            assert_eq!(named, 0);
        } else if c > 0xff {
            assert!(
                named == c + 0x0100_0000
                    || c <= 0x318e && (0x1a1..=0x20ac).contains(&named)
            );
        }
    }
}

#[test]
fn crate_names_are_long_words() {
    let mut seen = 0;
    for keysym in (0..0x2_0000u32).chain(0x0100_0000..0x0112_0000).chain(0x1000_0000..0x1010_0000) {
        if let Some(name) = xkeysym::Keysym::new(keysym).name() {
            seen += 1;
            assert!(name.len() > 3, "{name}");
            assert!(name.chars().all(|c| c.is_ascii_alphanumeric() || c == '_'), "{name}");
        }
    }
    assert!(seen > 2000);
}

#[test]
fn layout_places_all_of_ascii_and_each_position_once() {
    let mut seen: Vec<(u32, bool)> = Vec::new();
    for c in 0x20..=0x7eu32 {
        let p = physical_placement(c).unwrap();
        let ch = char::from_u32(c).unwrap();
        let shifted = ch.is_ascii_uppercase() || "!@#$%^&*()_+{}:\"~|<>?".contains(ch);
        assert_eq!(p.needs_shift, shifted, "{ch}");
        assert!(!seen.contains(&(p.evdev_code, p.needs_shift)));
        seen.push((p.evdev_code, p.needs_shift));
    }
    for (lower, upper) in ('a'..='z').zip('A'..='Z') {
        assert_eq!(
            physical_placement(u32::from(lower)).unwrap().evdev_code,
            physical_placement(u32::from(upper)).unwrap().evdev_code
        );
    }
}

#[test]
fn layout_places_special_keys() {
    let expected = [
        (xkeysym::key::Escape, 1),
        (xkeysym::key::Control_L, 29),
        (xkeysym::key::Shift_L, 42),
        (xkeysym::key::Shift_R, 54),
        (xkeysym::key::Alt_L, 56),
        (xkeysym::key::Caps_Lock, 58),
        (xkeysym::key::F1, 59),
        (xkeysym::key::F7, 65),
        (xkeysym::key::F10, 68),
        (xkeysym::key::Num_Lock, 69),
        (xkeysym::key::F11, 87),
        (xkeysym::key::F12, 88),
        (xkeysym::key::Control_R, 97),
        (xkeysym::key::Print, 99),
        (xkeysym::key::Alt_R, 100),
        (xkeysym::key::Home, 102),
        (xkeysym::key::Up, 103),
        (xkeysym::key::Prior, 104),
        (xkeysym::key::Right, 106),
        (xkeysym::key::End, 107),
        (xkeysym::key::Down, 108),
        (xkeysym::key::Next, 109),
        (xkeysym::key::Insert, 110),
        (xkeysym::key::Delete, 111),
        (xkeysym::key::Pause, 119),
        (xkeysym::key::Super_L, 125),
        (xkeysym::key::Super_R, 126),
        (xkeysym::key::Menu, 127),
        (0x20, 57),
        (u32::from('`'), 41),
        (u32::from('\\'), 43),
        (u32::from('/'), 53),
    ];
    for (keysym, code) in expected {
        let p = physical_placement(keysym).unwrap();
        assert_eq!((p.evdev_code, p.needs_shift), (code, false));
    }
    for keysym in [xkeysym::key::F13, xkeysym::key::Meta_L, 0xe9, 0x0100_597d, 0] {
        assert!(physical_placement(keysym).is_none());
    }
}

#[test]
fn unicode_symbols_are_told_apart() {
    assert_eq!(xkb_symbol_name(0x0100_0041), "U0041");
    assert_eq!(xkb_symbol_name(0x0100_0401), "U0401");
    assert_eq!(xkb_symbol_name(0x0110_ffff), "U10FFFF");
}

#[test]
fn only_the_line_ends_share_a_keysym() {
    let mut seen: Vec<(u32, char)> = ('\0'..='\u{500}')
        .map(|ch| (keysym_for_char(ch).unwrap(), ch))
        .collect();
    seen.sort();
    for pair in seen.windows(2) {
        if pair[0].0 == pair[1].0 {
            assert_eq!((pair[0].1, pair[1].1), ('\n', '\r'));
        }
    }
}
