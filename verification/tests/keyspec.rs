use wlroots_bridge::error::KeyError;
use wlroots_bridge::keyspec::{
    is_modifier, modifier_keysym_name, modifier_mask, normalize_token, parse_spec, spec_tokens,
    MODIFIER_TOKENS,
};
use wlroots_bridge::text::{
    char_is_white_space, char_lower, push_decimal, push_hex, same_text, split_at_char, trimmed,
};

#[test]
fn white_space_and_case_agree_with_the_standard_library() {
    for c in '\0'..=char::MAX {
        assert_eq!(char_is_white_space(c), c.is_whitespace(), "{c:?}");
        assert_eq!(char_lower(c), c.to_ascii_lowercase(), "{c:?}");
    }
}

#[test]
fn trimming_and_splitting_agree_with_the_standard_library() {
    for s in ["", " ", "a", " a b ", "\u{3000}x\u{2029}\t", "+", "a+b", "++a", "a+ +b+", "好+\u{e9}"] {
        assert_eq!(trimmed(s), s.trim());
        let pieces: Vec<&str> = s.split('+').collect();
        assert_eq!(split_at_char(s, '+'), pieces);
        assert_eq!(split_at_char(s, '+').join("+"), s);
    }
    assert!(same_text("abc", "abc"));
    assert!(!same_text("abc", "abd"));
    assert!(!same_text("abc", "ab"));
}

#[test]
fn numerals_agree_with_the_standard_library() {
    for n in [0, 1, 9, 10, 11, 99, 100, 255, 256, 4095, 4096, 65535, 65536, 0x1f600, u32::MAX] {
        let mut decimal = String::from("<");
        push_decimal(&mut decimal, n);
        assert_eq!(decimal, format!("<{n}"));
        for width in 0..=9u32 {
            let mut hex = String::from("U");
            push_hex(&mut hex, n, width);
            assert_eq!(hex, format!("U{:0w$X}", n, w = width as usize));
        }
    }
}

#[test]
fn tokens_are_normalized() {
    assert_eq!(normalize_token("  Page_DOWN "), "pagedown");
    assert_eq!(normalize_token("___"), "");
    // Trimming comes before the underscores go.
    assert_eq!(normalize_token("_ ctrl"), " ctrl");
    assert!(!is_modifier("_ ctrl"));
    assert!(is_modifier(" c_t_r_l "));
}

#[test]
fn modifier_words_have_names_and_masks() {
    for word in MODIFIER_TOKENS {
        assert!(is_modifier(word));
        let name = modifier_keysym_name(word).unwrap();
        let mask = modifier_mask(word).unwrap();
        let expected = match word {
            "ctrl" | "control" => ("Control_L", 0x4),
            "alt" => ("Alt_L", 0x8),
            "shift" => ("Shift_L", 0x1),
            _ => ("Super_L", 0x40),
        };
        assert_eq!((name, mask), expected);
    }
    assert!(modifier_keysym_name("tab").is_none());
    match modifier_mask(" tab") {
        Err(KeyError::NotAModifier { token }) => assert_eq!(token, " tab"),
        other => panic!("{other:?}"),
    }
    assert_eq!(modifier_mask("x").unwrap_err().message(), "`x` is not a modifier");
}

#[test]
fn spec_parsing_edges() {
    let spec = parse_spec(" Ctrl + a + SHIFT ").unwrap();
    assert_eq!(spec.modifiers, vec!["Ctrl", "SHIFT"]);
    assert_eq!(spec.base, "a");
    let all = parse_spec("ctrl+shift").unwrap();
    assert_eq!(all.modifiers, vec!["ctrl"]);
    assert_eq!(all.base, "shift");
    assert_eq!(spec_tokens("+ctrl++ tab+ "), vec!["ctrl", "tab"]);
    let spaced = parse_spec("++ctrl+ +x").unwrap();
    assert_eq!(spaced.modifiers, vec!["ctrl"]);
    assert_eq!(spaced.base, "x");
}

#[test]
fn spec_errors_name_the_first_stray_token() {
    assert!(matches!(parse_spec(" + "), Err(KeyError::EmptySpec)));
    assert_eq!(parse_spec("").unwrap_err().message(), "key spec is empty");
    match parse_spec("ctrl+a+b+c") {
        Err(KeyError::UnexpectedToken { token, spec }) => {
            assert_eq!(token, "a");
            assert_eq!(spec, "ctrl+a+b+c");
        }
        other => panic!("{other:?}"),
    }
    assert_eq!(
        parse_spec("a+b").unwrap_err().message(),
        "unexpected non-modifier token `a` before base key in `a+b`"
    );
}

#[test]
fn parsing_ignores_case() {
    for text in ["Ctrl+Shift+TAB", "CMD+A", "Control", "A+B", "PAGE_Up"] {
        let low = text.to_ascii_lowercase();
        match (parse_spec(text), parse_spec(&low)) {
            (Ok(a), Ok(b)) => {
                assert_eq!(a.base.to_ascii_lowercase(), b.base);
                let folded: Vec<String> = a.modifiers.iter().map(|m| m.to_ascii_lowercase()).collect();
                assert_eq!(folded, b.modifiers);
            }
            (Err(_), Err(_)) => {}
            other => panic!("{other:?}"),
        }
    }
}
