//! The shape of keymap text: characters that can be uploaded, braces that match.

use vstd::prelude::*;

use crate::keymap;
use crate::keysym;
use crate::text;

verus! {

/// Whether every character is one of ASCII and none is NUL.
pub open spec fn is_plain(s: Seq<char>) -> bool {
    forall|i: int| 0 <= i < s.len() ==> '\u{1}' <= #[trigger] s[i] <= '\u{7f}'
}

/// How many braces the first `n` characters open and leave open.
pub open spec fn depth(s: Seq<char>, n: int) -> int
    decreases n,
{
    if n <= 0 {
        0
    } else {
        depth(s, n - 1) + (if s[n - 1] == '{' {
            1int
        } else if s[n - 1] == '}' {
            -1int
        } else {
            0int
        })
    }
}

/// Whether every brace that opens is closed, and none closes that was not opened.
pub open spec fn is_balanced(s: Seq<char>) -> bool {
    &&& depth(s, s.len() as int) == 0
    &&& forall|n: int| 0 <= n <= s.len() ==> #[trigger] depth(s, n) >= 0
}

/// How often a character occurs among the first `n`.
pub open spec fn occurrences(s: Seq<char>, c: char, n: int) -> nat
    decreases n,
{
    if n <= 0 {
        0
    } else {
        occurrences(s, c, n - 1) + (if s[n - 1] == c {
            1nat
        } else {
            0nat
        })
    }
}

/// Whether `s` is plain and leads from `d` open braces to `e` without ever
/// closing more than are open.
pub open spec fn leads(s: Seq<char>, d: int, e: int) -> bool {
    &&& is_plain(s)
    &&& d + depth(s, s.len() as int) == e
    &&& forall|n: int| 0 <= n <= s.len() ==> d + #[trigger] depth(s, n) >= 0
}

/// Whether `part` occurs in `whole`.
pub open spec fn occurs_in(part: Seq<char>, whole: Seq<char>) -> bool {
    exists|before: Seq<char>, after: Seq<char>| whole == #[trigger] (before + part + after)
}

/// The depth is the number of braces that open less the number that close.
pub proof fn lemma_brace_counts(s: Seq<char>, n: int)
    requires
        0 <= n <= s.len(),
    ensures
        depth(s, n) == occurrences(s, '{', n) - occurrences(s, '}', n),
    decreases n,
{
    if n > 0 {
        lemma_brace_counts(s, n - 1);
    }
}

proof fn lemma_depth_concat(a: Seq<char>, b: Seq<char>, n: int)
    requires
        0 <= n <= a.len() + b.len(),
    ensures
        n <= a.len() ==> depth(a + b, n) == depth(a, n),
        n > a.len() ==> depth(a + b, n) == depth(a, a.len() as int) + depth(b, n - a.len()),
    decreases n,
{
    if n > 0 {
        lemma_depth_concat(a, b, n - 1);
        assert(depth(b, 0) == 0);
        if n > a.len() {
            assert((a + b)[n - 1] == b[n - 1 - a.len()]);
        }
    }
}

/// Two texts, one after the other.
pub proof fn lemma_then(a: Seq<char>, b: Seq<char>, d: int, e: int, f: int)
    requires
        leads(a, d, e),
        leads(b, e, f),
    ensures
        leads(a + b, d, f),
{
    lemma_depth_concat(a, b, (a + b).len() as int);
    assert forall|n: int| 0 <= n <= (a + b).len() implies d + #[trigger] depth(a + b, n) >= 0 by {
        lemma_depth_concat(a, b, n);
        if n > a.len() {
            assert(e + depth(b, n - a.len()) >= 0);
        } else {
            assert(d + depth(a, n) >= 0);
        }
    }
    if b.len() == 0 {
        assert(a + b =~= a);
    }
}

proof fn lemma_depth_flat(s: Seq<char>, from: int, n: int)
    requires
        0 <= from <= n <= s.len(),
        forall|i: int| from <= i < n ==> #[trigger] s[i] != '{' && s[i] != '}',
    ensures
        depth(s, n) == depth(s, from),
    decreases n - from,
{
    if from < n {
        lemma_depth_flat(s, from, n - 1);
    }
}

/// Text without braces.
pub proof fn lemma_word(s: Seq<char>, d: int)
    requires
        d >= 0,
        is_plain(s),
        forall|i: int| 0 <= i < s.len() ==> #[trigger] s[i] != '{' && s[i] != '}',
    ensures
        leads(s, d, d),
{
    assert forall|n: int| 0 <= n <= s.len() implies d + #[trigger] depth(s, n) >= 0 by {
        lemma_depth_flat(s, 0, n);
    }
    lemma_depth_flat(s, 0, s.len() as int);
}

/// Text with one brace that opens.
pub proof fn lemma_opening(s: Seq<char>, at: int, d: int)
    requires
        d >= 0,
        is_plain(s),
        0 <= at < s.len(),
        s[at] == '{',
        forall|i: int| 0 <= i < s.len() && i != at ==> #[trigger] s[i] != '{' && s[i] != '}',
    ensures
        leads(s, d, d + 1),
{
    lemma_depth_flat(s, 0, at);
    assert forall|n: int| 0 <= n <= s.len() implies d + #[trigger] depth(s, n) >= 0 by {
        if n <= at {
            lemma_depth_flat(s, 0, n);
        } else {
            lemma_depth_flat(s, at + 1, n);
        }
    }
    lemma_depth_flat(s, at + 1, s.len() as int);
}

/// Text with one brace that closes.
pub proof fn lemma_closing(s: Seq<char>, at: int, d: int)
    requires
        d >= 1,
        is_plain(s),
        0 <= at < s.len(),
        s[at] == '}',
        forall|i: int| 0 <= i < s.len() && i != at ==> #[trigger] s[i] != '{' && s[i] != '}',
    ensures
        leads(s, d, d - 1),
{
    lemma_depth_flat(s, 0, at);
    assert forall|n: int| 0 <= n <= s.len() implies d + #[trigger] depth(s, n) >= 0 by {
        if n <= at {
            lemma_depth_flat(s, 0, n);
        } else {
            lemma_depth_flat(s, at + 1, n);
        }
    }
    lemma_depth_flat(s, at + 1, s.len() as int);
}

/// Text with one brace that opens and one that closes it.
pub proof fn lemma_pair(s: Seq<char>, open: int, close: int, d: int)
    requires
        d >= 0,
        is_plain(s),
        0 <= open < close < s.len(),
        s[open] == '{',
        s[close] == '}',
        forall|i: int|
            0 <= i < s.len() && i != open && i != close ==> #[trigger] s[i] != '{' && s[i] != '}',
    ensures
        leads(s, d, d),
{
    lemma_depth_flat(s, 0, open);
    lemma_depth_flat(s, open + 1, close);
    assert forall|n: int| 0 <= n <= s.len() implies d + #[trigger] depth(s, n) >= 0 by {
        if n <= open {
            lemma_depth_flat(s, 0, n);
        } else if n <= close {
            lemma_depth_flat(s, open + 1, n);
        } else {
            lemma_depth_flat(s, close + 1, n);
        }
    }
    lemma_depth_flat(s, close + 1, s.len() as int);
}

/// A symbol name holds no braces.
pub proof fn lemma_symbol_word(s: Seq<char>, d: int)
    requires
        d >= 0,
        keysym::is_symbol_text(s),
    ensures
        leads(s, d, d),
{
    lemma_word(s, d);
}

/// A decimal numeral holds no braces.
pub proof fn lemma_decimal_word(n: nat, d: int)
    requires
        d >= 0,
    ensures
        leads(text::decimal(n), d, d),
{
    lemma_decimal_symbol(n);
    lemma_symbol_word(text::decimal(n), d);
}

proof fn lemma_decimal_symbol(n: nat)
    ensures
        keysym::is_symbol_text(text::decimal(n)),
    decreases n,
{
    if n >= 10 {
        lemma_decimal_symbol(n / 10);
    }
}

proof fn lemma_declaration(keycode: nat, d: int)
    requires
        d >= 0,
    ensures
        leads(keymap::declaration(keycode), d, d),
{
    reveal_strlit("  <K");
    reveal_strlit("> = ");
    reveal_strlit(";\n");
    let number = text::decimal(keycode);
    lemma_decimal_word(keycode, d);
    lemma_word("  <K"@, d);
    lemma_word("> = "@, d);
    lemma_word(";\n"@, d);
    lemma_then("  <K"@, number, d, d, d);
    lemma_then("  <K"@ + number, "> = "@, d, d, d);
    lemma_then("  <K"@ + number + "> = "@, number, d, d, d);
    lemma_then("  <K"@ + number + "> = "@ + number, ";\n"@, d, d, d);
}

proof fn lemma_declarations(n: nat, d: int)
    requires
        d >= 0,
    ensures
        leads(keymap::declarations(n), d, d),
    decreases n,
{
    if n == 0 {
        lemma_declaration(9, d);
        lemma_declaration(10, d);
        lemma_declaration(11, d);
        lemma_declaration(12, d);
        let two = keymap::declaration(9) + keymap::declaration(10);
        lemma_then(keymap::declaration(9), keymap::declaration(10), d, d, d);
        lemma_then(two, keymap::declaration(11), d, d, d);
        lemma_then(two + keymap::declaration(11), keymap::declaration(12), d, d, d);
    } else {
        let last = (keymap::FIRST_SYMBOL_KEYCODE + n - 1) as nat;
        lemma_declarations((n - 1) as nat, d);
        lemma_declaration(last, d);
        lemma_then(
            keymap::declarations((n - 1) as nat),
            keymap::declaration(last),
            d,
            d,
            d,
        );
    }
}

proof fn lemma_keycodes_section(n: nat, d: int)
    requires
        d >= 0,
    ensures
        leads(keymap::keycodes_section(n), d, d),
{
    let head = "xkb_keycodes \"wlroots-bridge\" {\n"@;
    let low = text::decimal(keymap::XKB_KEYCODE_BASE as nat);
    let high = text::decimal(keymap::FIRST_SYMBOL_KEYCODE as nat + n);
    reveal_strlit("xkb_keycodes \"wlroots-bridge\" {\n");
    reveal_strlit("  minimum = ");
    reveal_strlit("  maximum = ");
    reveal_strlit(";\n");
    reveal_strlit("};\n");
    lemma_opening(head, 30, d);
    lemma_word("  minimum = "@, d + 1);
    lemma_word("  maximum = "@, d + 1);
    lemma_word(";\n"@, d + 1);
    lemma_closing("};\n"@, 0, d + 1);
    lemma_decimal_word(keymap::XKB_KEYCODE_BASE as nat, d + 1);
    lemma_decimal_word(keymap::FIRST_SYMBOL_KEYCODE as nat + n, d + 1);
    lemma_declarations(n, d + 1);
    let a = head + "  minimum = "@;
    lemma_then(head, "  minimum = "@, d, d + 1, d + 1);
    let b = a + low;
    lemma_then(a, low, d, d + 1, d + 1);
    let c = b + ";\n"@;
    lemma_then(b, ";\n"@, d, d + 1, d + 1);
    let e = c + "  maximum = "@;
    lemma_then(c, "  maximum = "@, d, d + 1, d + 1);
    let f = e + high;
    lemma_then(e, high, d, d + 1, d + 1);
    let g = f + ";\n"@;
    lemma_then(f, ";\n"@, d, d + 1, d + 1);
    let h = g + keymap::declarations(n);
    lemma_then(g, keymap::declarations(n), d, d + 1, d + 1);
    lemma_then(h, "};\n"@, d, d + 1, d);
}

proof fn lemma_modifier_binding(keycode: nat, name: Seq<char>, d: int)
    requires
        d >= 0,
        keysym::is_symbol_text(name),
    ensures
        leads(keymap::modifier_binding(keycode, name), d, d),
{
    reveal_strlit("  key <K");
    reveal_strlit("> { [ ");
    reveal_strlit(" ] };\n");
    let number = text::decimal(keycode);
    lemma_word("  key <K"@, d);
    lemma_decimal_word(keycode, d);
    lemma_opening("> { [ "@, 2, d);
    lemma_symbol_word(name, d + 1);
    lemma_closing(" ] };\n"@, 3, d + 1);
    let a = "  key <K"@ + number;
    lemma_then("  key <K"@, number, d, d, d);
    let b = a + "> { [ "@;
    lemma_then(a, "> { [ "@, d, d, d + 1);
    let c = b + name;
    lemma_then(b, name, d, d + 1, d + 1);
    lemma_then(c, " ] };\n"@, d, d + 1, d);
}

proof fn lemma_symbol_binding(keycode: nat, symbol: Seq<char>, d: int)
    requires
        d >= 0,
        keysym::is_symbol_text(symbol),
    ensures
        leads(keymap::symbol_binding(keycode, symbol), d, d),
{
    reveal_strlit("  key <K");
    reveal_strlit("> { [ ");
    reveal_strlit(", ");
    reveal_strlit(" ] };\n");
    let number = text::decimal(keycode);
    lemma_word("  key <K"@, d);
    lemma_decimal_word(keycode, d);
    lemma_opening("> { [ "@, 2, d);
    lemma_symbol_word(symbol, d + 1);
    lemma_word(", "@, d + 1);
    lemma_closing(" ] };\n"@, 3, d + 1);
    let a = "  key <K"@ + number;
    lemma_then("  key <K"@, number, d, d, d);
    let b = a + "> { [ "@;
    lemma_then(a, "> { [ "@, d, d, d + 1);
    let c = b + symbol;
    lemma_then(b, symbol, d, d + 1, d + 1);
    let e = c + ", "@;
    lemma_then(c, ", "@, d, d + 1, d + 1);
    let f = e + symbol;
    lemma_then(e, symbol, d, d + 1, d + 1);
    lemma_then(f, " ] };\n"@, d, d + 1, d);
}

proof fn lemma_symbol_bindings(symbols: Seq<Seq<char>>, d: int)
    requires
        d >= 0,
        forall|i: int| 0 <= i < symbols.len() ==> keysym::is_symbol_text(#[trigger] symbols[i]),
    ensures
        leads(keymap::symbol_bindings(symbols), d, d),
    decreases symbols.len(),
{
    if symbols.len() == 0 {
        lemma_word(Seq::<char>::empty(), d);
    } else {
        let init = symbols.drop_last();
        let keycode = (keymap::FIRST_SYMBOL_KEYCODE + symbols.len() - 1) as nat;
        assert forall|i: int| 0 <= i < init.len() implies keysym::is_symbol_text(
            #[trigger] init[i],
        ) by {
            assert(init[i] == symbols[i]);
        }
        lemma_symbol_bindings(init, d);
        lemma_symbol_binding(keycode, symbols.last(), d);
        lemma_then(
            keymap::symbol_bindings(init),
            keymap::symbol_binding(keycode, symbols.last()),
            d,
            d,
            d,
        );
    }
}

proof fn lemma_modifier_map(modifier: Seq<char>, keycode: nat, d: int)
    requires
        d >= 0,
        keysym::is_symbol_text(modifier),
    ensures
        leads(keymap::modifier_map(modifier, keycode), d, d),
{
    reveal_strlit("  modifier_map ");
    reveal_strlit(" { <K");
    reveal_strlit("> };\n");
    let number = text::decimal(keycode);
    lemma_word("  modifier_map "@, d);
    lemma_symbol_word(modifier, d);
    lemma_opening(" { <K"@, 1, d);
    lemma_decimal_word(keycode, d + 1);
    lemma_closing("> };\n"@, 2, d + 1);
    let a = "  modifier_map "@ + modifier;
    lemma_then("  modifier_map "@, modifier, d, d, d);
    let b = a + " { <K"@;
    lemma_then(a, " { <K"@, d, d, d + 1);
    let c = b + number;
    lemma_then(b, number, d, d + 1, d + 1);
    lemma_then(c, "> };\n"@, d, d + 1, d);
}

proof fn lemma_symbols_section(symbols: Seq<Seq<char>>, d: int)
    requires
        d >= 0,
        forall|i: int| 0 <= i < symbols.len() ==> keysym::is_symbol_text(#[trigger] symbols[i]),
    ensures
        leads(keymap::symbols_section(symbols), d, d),
{
    reveal_strlit("xkb_symbols \"wlroots-bridge\" {\n");
    reveal_strlit("Control_L");
    reveal_strlit("Shift_L");
    reveal_strlit("Alt_L");
    reveal_strlit("Super_L");
    reveal_strlit("Control");
    reveal_strlit("Shift");
    reveal_strlit("Mod1");
    reveal_strlit("Mod4");
    reveal_strlit("};\n");
    let e = d + 1;
    let head = "xkb_symbols \"wlroots-bridge\" {\n"@;
    lemma_opening(head, 29, d);
    lemma_modifier_binding(9, "Control_L"@, e);
    lemma_modifier_binding(10, "Shift_L"@, e);
    lemma_modifier_binding(11, "Alt_L"@, e);
    lemma_modifier_binding(12, "Super_L"@, e);
    lemma_symbol_bindings(symbols, e);
    lemma_modifier_map("Control"@, 9, e);
    lemma_modifier_map("Shift"@, 10, e);
    lemma_modifier_map("Mod1"@, 11, e);
    lemma_modifier_map("Mod4"@, 12, e);
    lemma_closing("};\n"@, 0, e);
    let a = head + keymap::modifier_binding(9, "Control_L"@);
    lemma_then(head, keymap::modifier_binding(9, "Control_L"@), d, e, e);
    let b = a + keymap::modifier_binding(10, "Shift_L"@);
    lemma_then(a, keymap::modifier_binding(10, "Shift_L"@), d, e, e);
    let c = b + keymap::modifier_binding(11, "Alt_L"@);
    lemma_then(b, keymap::modifier_binding(11, "Alt_L"@), d, e, e);
    let f = c + keymap::modifier_binding(12, "Super_L"@);
    lemma_then(c, keymap::modifier_binding(12, "Super_L"@), d, e, e);
    let g = f + keymap::symbol_bindings(symbols);
    lemma_then(f, keymap::symbol_bindings(symbols), d, e, e);
    let h = g + keymap::modifier_map("Control"@, 9);
    lemma_then(g, keymap::modifier_map("Control"@, 9), d, e, e);
    let i = h + keymap::modifier_map("Shift"@, 10);
    lemma_then(h, keymap::modifier_map("Shift"@, 10), d, e, e);
    let j = i + keymap::modifier_map("Mod1"@, 11);
    lemma_then(i, keymap::modifier_map("Mod1"@, 11), d, e, e);
    let k = j + keymap::modifier_map("Mod4"@, 12);
    lemma_then(j, keymap::modifier_map("Mod4"@, 12), d, e, e);
    lemma_then(k, "};\n"@, d, e, d);
}

/// The text of a keymap with a keycode for each symbol can be uploaded and its
/// braces match, whatever the symbols, as long as they are words.
pub proof fn lemma_symbol_text_shape(symbols: Seq<Seq<char>>)
    requires
        forall|i: int| 0 <= i < symbols.len() ==> keysym::is_symbol_text(#[trigger] symbols[i]),
    ensures
        is_plain(keymap::symbol_text(symbols)),
        is_balanced(keymap::symbol_text(symbols)),
{
    reveal_strlit("xkb_keymap {\n");
    reveal_strlit("xkb_types \"wlroots-bridge\" { include \"complete\" };\n");
    reveal_strlit("xkb_compat \"wlroots-bridge\" { include \"complete\" };\n");
    reveal_strlit("};\n");
    let head = "xkb_keymap {\n"@;
    let types = "xkb_types \"wlroots-bridge\" { include \"complete\" };\n"@;
    let compat = "xkb_compat \"wlroots-bridge\" { include \"complete\" };\n"@;
    lemma_opening(head, 11, 0);
    lemma_keycodes_section(symbols.len(), 1);
    lemma_pair(types, 27, 48, 1);
    lemma_pair(compat, 28, 49, 1);
    lemma_symbols_section(symbols, 1);
    lemma_closing("};\n"@, 0, 1);
    let a = head + keymap::keycodes_section(symbols.len());
    lemma_then(head, keymap::keycodes_section(symbols.len()), 0, 1, 1);
    let b = a + types;
    lemma_then(a, types, 0, 1, 1);
    let c = b + compat;
    lemma_then(b, compat, 0, 1, 1);
    let d = c + keymap::symbols_section(symbols);
    lemma_then(c, keymap::symbols_section(symbols), 0, 1, 1);
    lemma_then(d, "};\n"@, 0, 1, 0);
    assert(leads(keymap::symbol_text(symbols), 0, 0));
    lemma_leads_balanced(keymap::symbol_text(symbols));
}

proof fn lemma_leads_balanced(s: Seq<char>)
    requires
        leads(s, 0, 0),
    ensures
        is_balanced(s),
{
    assert forall|n: int| 0 <= n <= s.len() implies #[trigger] depth(s, n) >= 0 by {
        assert(0 + depth(s, n) >= 0);
    }
}

/// The text of the stock keymap can be uploaded and its braces match.
pub proof fn lemma_us_text_shape()
    ensures
        is_plain(keymap::us_text()),
        is_balanced(keymap::us_text()),
{
    reveal_strlit("xkb_keymap {\n");
    reveal_strlit("xkb_keycodes { include \"evdev+aliases(qwerty)\" };\n");
    reveal_strlit("xkb_types { include \"complete\" };\n");
    reveal_strlit("xkb_compatibility { include \"complete\" };\n");
    reveal_strlit("xkb_symbols { include \"pc+us+inet(evdev)\" };\n");
    reveal_strlit("};\n");
    let head = "xkb_keymap {\n"@;
    let keycodes = "xkb_keycodes { include \"evdev+aliases(qwerty)\" };\n"@;
    let types = "xkb_types { include \"complete\" };\n"@;
    let compat = "xkb_compatibility { include \"complete\" };\n"@;
    let symbols = "xkb_symbols { include \"pc+us+inet(evdev)\" };\n"@;
    lemma_opening(head, 11, 0);
    lemma_pair(keycodes, 13, 47, 1);
    lemma_pair(types, 10, 31, 1);
    lemma_pair(compat, 18, 39, 1);
    lemma_pair(symbols, 12, 42, 1);
    lemma_closing("};\n"@, 0, 1);
    lemma_then(head, keycodes, 0, 1, 1);
    lemma_then(head + keycodes, types, 0, 1, 1);
    lemma_then(head + keycodes + types, compat, 0, 1, 1);
    lemma_then(head + keycodes + types + compat, symbols, 0, 1, 1);
    lemma_then(head + keycodes + types + compat + symbols, "};\n"@, 0, 1, 0);
    lemma_leads_balanced(keymap::us_text());
}

} // verus!
