//! What holds of keymap text, line by line.

use vstd::prelude::*;

use crate::keymap;
use crate::keymap::{GeneratedKeymap, KeymapView};
use crate::keysym;
use crate::laws;
use crate::laws_text;
use crate::layout;
use crate::layout::KeyPlacement;
use crate::keyspec::Modifier;
use crate::syntax;
use crate::text;

verus! {

/// The text that is made of the lines, each with a line end behind it.
pub open spec fn unlines(lines: Seq<Seq<char>>) -> Seq<char>
    decreases lines.len(),
{
    if lines.len() == 0 {
        Seq::<char>::empty()
    } else {
        unlines(lines.drop_last()) + lines.last().push('\n')
    }
}

proof fn lemma_unlines_push(lines: Seq<Seq<char>>, line: Seq<char>)
    ensures
        unlines(lines.push(line)) == unlines(lines) + line.push('\n'),
{
    assert(lines.push(line).drop_last() =~= lines);
}

proof fn lemma_unlines_concat(a: Seq<Seq<char>>, b: Seq<Seq<char>>)
    ensures
        unlines(a + b) == unlines(a) + unlines(b),
    decreases b.len(),
{
    if b.len() == 0 {
        assert(a + b =~= a);
        assert(unlines(a) + unlines(b) =~= unlines(a));
    } else {
        assert((a + b).drop_last() =~= a + b.drop_last());
        lemma_unlines_concat(a, b.drop_last());
        assert(unlines(a + b) =~= unlines(a) + unlines(b));
    }
}

/// The line that gives a keycode the name of its number.
spec fn declaration_line(k: nat) -> Seq<char> {
    "  <K"@ + text::decimal(k) + "> = "@ + text::decimal(k) + ";"@
}

/// The line that binds a modifier's keysym.
spec fn modifier_line(k: nat, name: Seq<char>) -> Seq<char> {
    "  key <K"@ + text::decimal(k) + "> { [ "@ + name + " ] };"@
}

/// The line that binds a symbol at both levels.
spec fn symbol_line(k: nat, symbol: Seq<char>) -> Seq<char> {
    "  key <K"@ + text::decimal(k) + "> { [ "@ + symbol + ", "@ + symbol + " ] };"@
}

/// The line that makes a key drive a real modifier.
spec fn map_line(modifier: Seq<char>, k: nat) -> Seq<char> {
    "  modifier_map "@ + modifier + " { <K"@ + text::decimal(k) + "> };"@
}

proof fn lemma_line_pieces(k: nat, word: Seq<char>)
    ensures
        keymap::declaration(k) == declaration_line(k).push('\n'),
        keymap::modifier_binding(k, word) == modifier_line(k, word).push('\n'),
        keymap::symbol_binding(k, word) == symbol_line(k, word).push('\n'),
        keymap::modifier_map(word, k) == map_line(word, k).push('\n'),
{
    reveal_strlit(";");
    reveal_strlit(";\n");
    reveal_strlit(" ] };");
    reveal_strlit(" ] };\n");
    reveal_strlit("> };");
    reveal_strlit("> };\n");
    assert(";\n"@ =~= ";"@.push('\n'));
    assert(" ] };\n"@ =~= " ] };"@.push('\n'));
    assert("> };\n"@ =~= "> };"@.push('\n'));
    assert(keymap::declaration(k) =~= declaration_line(k).push('\n'));
    assert(keymap::modifier_binding(k, word) =~= modifier_line(k, word).push('\n'));
    assert(keymap::symbol_binding(k, word) =~= symbol_line(k, word).push('\n'));
    assert(keymap::modifier_map(word, k) =~= map_line(word, k).push('\n'));
}

spec fn declaration_lines(n: nat) -> Seq<Seq<char>> {
    Seq::new(4 + n, |i: int| declaration_line((9 + i) as nat))
}

proof fn lemma_declaration_lines(n: nat)
    ensures
        keymap::declarations(n) == unlines(declaration_lines(n)),
    decreases n,
{
    let lines = declaration_lines(n);
    if n == 0 {
        let none = Seq::<Seq<char>>::empty();
        let a = none.push(declaration_line(9));
        let b = a.push(declaration_line(10));
        let c = b.push(declaration_line(11));
        let d = c.push(declaration_line(12));
        lemma_line_pieces(9, Seq::<char>::empty());
        lemma_line_pieces(10, Seq::<char>::empty());
        lemma_line_pieces(11, Seq::<char>::empty());
        lemma_line_pieces(12, Seq::<char>::empty());
        lemma_unlines_push(none, declaration_line(9));
        lemma_unlines_push(a, declaration_line(10));
        lemma_unlines_push(b, declaration_line(11));
        lemma_unlines_push(c, declaration_line(12));
        assert(lines =~= d);
        assert(unlines(none) + keymap::declaration(9) =~= keymap::declaration(9));
    } else {
        let before = declaration_lines((n - 1) as nat);
        let last = declaration_line((12 + n) as nat);
        lemma_declaration_lines((n - 1) as nat);
        lemma_line_pieces((12 + n) as nat, Seq::<char>::empty());
        lemma_unlines_push(before, last);
        assert(lines =~= before.push(last));
    }
}

spec fn symbol_lines(symbols: Seq<Seq<char>>) -> Seq<Seq<char>> {
    Seq::new(symbols.len(), |i: int| symbol_line((13 + i) as nat, symbols[i]))
}

proof fn lemma_symbol_lines(symbols: Seq<Seq<char>>)
    ensures
        keymap::symbol_bindings(symbols) == unlines(symbol_lines(symbols)),
    decreases symbols.len(),
{
    let lines = symbol_lines(symbols);
    if symbols.len() > 0 {
        let k = (12 + symbols.len()) as nat;
        let before = symbol_lines(symbols.drop_last());
        lemma_symbol_lines(symbols.drop_last());
        lemma_line_pieces(k, symbols.last());
        lemma_unlines_push(before, symbol_line(k, symbols.last()));
        assert(lines =~= before.push(symbol_line(k, symbols.last())));
    } else {
        assert(lines =~= Seq::<Seq<char>>::empty());
    }
}

/// The lines before the declarations.
spec fn head_lines(n: nat) -> Seq<Seq<char>> {
    seq![
        "xkb_keymap {"@,
        "xkb_keycodes \"wlroots-bridge\" {"@,
        "  minimum = "@ + text::decimal(9) + ";"@,
        "  maximum = "@ + text::decimal(13 + n) + ";"@,
    ]
}

proof fn lemma_unlines_four(a: Seq<char>, b: Seq<char>, c: Seq<char>, d: Seq<char>)
    ensures
        unlines(seq![a, b, c, d]) == a.push('\n') + b.push('\n') + c.push('\n') + d.push('\n'),
{
    let none = Seq::<Seq<char>>::empty();
    lemma_unlines_push(none, a);
    lemma_unlines_push(none.push(a), b);
    lemma_unlines_push(none.push(a).push(b), c);
    lemma_unlines_push(none.push(a).push(b).push(c), d);
    assert(seq![a, b, c, d] =~= none.push(a).push(b).push(c).push(d));
    assert(unlines(none) + a.push('\n') =~= a.push('\n'));
}

proof fn lemma_head(n: nat)
    ensures
        unlines(head_lines(n)) == "xkb_keymap {\n"@ + "xkb_keycodes \"wlroots-bridge\" {\n"@
            + "  minimum = "@ + text::decimal(9) + ";\n"@ + "  maximum = "@ + text::decimal(13 + n)
            + ";\n"@,
{
    reveal_strlit("xkb_keymap {");
    reveal_strlit("xkb_keymap {\n");
    reveal_strlit("xkb_keycodes \"wlroots-bridge\" {");
    reveal_strlit("xkb_keycodes \"wlroots-bridge\" {\n");
    reveal_strlit(";");
    reveal_strlit(";\n");
    assert("xkb_keymap {\n"@ =~= "xkb_keymap {"@.push('\n'));
    assert("xkb_keycodes \"wlroots-bridge\" {\n"@ =~= "xkb_keycodes \"wlroots-bridge\" {"@.push(
        '\n',
    ));
    assert(";\n"@ =~= ";"@.push('\n'));
    let low = "  minimum = "@ + text::decimal(9) + ";"@;
    let high = "  maximum = "@ + text::decimal(13 + n) + ";"@;
    lemma_unlines_four("xkb_keymap {"@, "xkb_keycodes \"wlroots-bridge\" {"@, low, high);
    assert(low.push('\n') =~= "  minimum = "@ + text::decimal(9) + ";\n"@);
    assert(high.push('\n') =~= "  maximum = "@ + text::decimal(13 + n) + ";\n"@);
    assert(unlines(head_lines(n)) =~= "xkb_keymap {\n"@ + "xkb_keycodes \"wlroots-bridge\" {\n"@
        + "  minimum = "@ + text::decimal(9) + ";\n"@ + "  maximum = "@ + text::decimal(13 + n)
        + ";\n"@);
}

/// The lines between the declarations and the bindings of the symbols.
spec fn middle_lines() -> Seq<Seq<char>> {
    seq![
        "};"@,
        "xkb_types \"wlroots-bridge\" { include \"complete\" };"@,
        "xkb_compat \"wlroots-bridge\" { include \"complete\" };"@,
        "xkb_symbols \"wlroots-bridge\" {"@,
    ] + seq![
        modifier_line(9, "Control_L"@),
        modifier_line(10, "Shift_L"@),
        modifier_line(11, "Alt_L"@),
        modifier_line(12, "Super_L"@),
    ]
}

proof fn lemma_middle()
    ensures
        unlines(middle_lines()) == "};\n"@
            + "xkb_types \"wlroots-bridge\" { include \"complete\" };\n"@
            + "xkb_compat \"wlroots-bridge\" { include \"complete\" };\n"@
            + "xkb_symbols \"wlroots-bridge\" {\n"@ + keymap::modifier_binding(9, "Control_L"@)
            + keymap::modifier_binding(10, "Shift_L"@) + keymap::modifier_binding(11, "Alt_L"@)
            + keymap::modifier_binding(12, "Super_L"@),
{
    let a = "};"@;
    let b = "xkb_types \"wlroots-bridge\" { include \"complete\" };"@;
    let c = "xkb_compat \"wlroots-bridge\" { include \"complete\" };"@;
    let d = "xkb_symbols \"wlroots-bridge\" {"@;
    reveal_strlit("};");
    reveal_strlit("};\n");
    reveal_strlit("xkb_types \"wlroots-bridge\" { include \"complete\" };");
    reveal_strlit("xkb_types \"wlroots-bridge\" { include \"complete\" };\n");
    reveal_strlit("xkb_compat \"wlroots-bridge\" { include \"complete\" };");
    reveal_strlit("xkb_compat \"wlroots-bridge\" { include \"complete\" };\n");
    reveal_strlit("xkb_symbols \"wlroots-bridge\" {");
    reveal_strlit("xkb_symbols \"wlroots-bridge\" {\n");
    assert("};\n"@ =~= a.push('\n'));
    assert("xkb_types \"wlroots-bridge\" { include \"complete\" };\n"@ =~= b.push('\n'));
    assert("xkb_compat \"wlroots-bridge\" { include \"complete\" };\n"@ =~= c.push('\n'));
    assert("xkb_symbols \"wlroots-bridge\" {\n"@ =~= d.push('\n'));
    lemma_unlines_four(a, b, c, d);
    lemma_unlines_four(
        modifier_line(9, "Control_L"@),
        modifier_line(10, "Shift_L"@),
        modifier_line(11, "Alt_L"@),
        modifier_line(12, "Super_L"@),
    );
    lemma_line_pieces(9, "Control_L"@);
    lemma_line_pieces(10, "Shift_L"@);
    lemma_line_pieces(11, "Alt_L"@);
    lemma_line_pieces(12, "Super_L"@);
    lemma_unlines_concat(
        seq![a, b, c, d],
        seq![
            modifier_line(9, "Control_L"@),
            modifier_line(10, "Shift_L"@),
            modifier_line(11, "Alt_L"@),
            modifier_line(12, "Super_L"@),
        ],
    );
    assert(unlines(middle_lines()) =~= "};\n"@
        + "xkb_types \"wlroots-bridge\" { include \"complete\" };\n"@
        + "xkb_compat \"wlroots-bridge\" { include \"complete\" };\n"@
        + "xkb_symbols \"wlroots-bridge\" {\n"@ + keymap::modifier_binding(9, "Control_L"@)
        + keymap::modifier_binding(10, "Shift_L"@) + keymap::modifier_binding(11, "Alt_L"@)
        + keymap::modifier_binding(12, "Super_L"@));
}

/// The lines behind the bindings of the symbols.
spec fn tail_lines() -> Seq<Seq<char>> {
    seq![
        map_line("Control"@, 9),
        map_line("Shift"@, 10),
        map_line("Mod1"@, 11),
        map_line("Mod4"@, 12),
    ].push("};"@).push("};"@)
}

proof fn lemma_tail()
    ensures
        unlines(tail_lines()) == keymap::modifier_map("Control"@, 9) + keymap::modifier_map(
            "Shift"@,
            10,
        ) + keymap::modifier_map("Mod1"@, 11) + keymap::modifier_map("Mod4"@, 12) + "};\n"@
            + "};\n"@,
{
    let four = seq![
        map_line("Control"@, 9),
        map_line("Shift"@, 10),
        map_line("Mod1"@, 11),
        map_line("Mod4"@, 12),
    ];
    reveal_strlit("};");
    reveal_strlit("};\n");
    assert("};\n"@ =~= "};"@.push('\n'));
    lemma_line_pieces(9, "Control"@);
    lemma_line_pieces(10, "Shift"@);
    lemma_line_pieces(11, "Mod1"@);
    lemma_line_pieces(12, "Mod4"@);
    lemma_unlines_four(
        map_line("Control"@, 9),
        map_line("Shift"@, 10),
        map_line("Mod1"@, 11),
        map_line("Mod4"@, 12),
    );
    lemma_unlines_push(four, "};"@);
    lemma_unlines_push(four.push("};"@), "};"@);
}

/// The text of a keymap with a keycode for each of `n` symbols has these lines and no
/// others: keycodes 9 to 12 belong to the modifiers and the symbols follow from 13 on.
/// Every keycode is declared under its own number, every symbol is bound to its keycode
/// at both levels, and the four modifier keys drive the real modifiers.
pub proof fn law_symbol_text(symbols: Seq<Seq<char>>) -> (lines: Seq<Seq<char>>)
    ensures
        keymap::symbol_keymap(symbols).text == unlines(lines),
        keymap::symbol_keymap(symbols).ctrl_code == 1,
        keymap::symbol_keymap(symbols).shift_code == 2,
        keymap::symbol_keymap(symbols).alt_code == 3,
        keymap::symbol_keymap(symbols).super_code == 4,
        lines.len() == 22 + 2 * symbols.len(),
        lines[0] == "xkb_keymap {"@,
        lines[1] == "xkb_keycodes \"wlroots-bridge\" {"@,
        lines[2] == "  minimum = "@ + text::decimal(9) + ";"@,
        lines[3] == "  maximum = "@ + text::decimal(13 + symbols.len()) + ";"@,
        forall|k: nat|
            9 <= k < 13 + symbols.len() ==> #[trigger] lines[k - 5] == "  <K"@ + text::decimal(k)
                + "> = "@ + text::decimal(k) + ";"@,
        lines[8int + symbols.len()] == "};"@,
        lines[9int + symbols.len()] == "xkb_types \"wlroots-bridge\" { include \"complete\" };"@,
        lines[10int + symbols.len()] == "xkb_compat \"wlroots-bridge\" { include \"complete\" };"@,
        lines[11int + symbols.len()] == "xkb_symbols \"wlroots-bridge\" {"@,
        lines[12int + symbols.len()] == "  key <K"@ + text::decimal(9) + "> { [ "@ + "Control_L"@
            + " ] };"@,
        lines[13int + symbols.len()] == "  key <K"@ + text::decimal(10) + "> { [ "@ + "Shift_L"@
            + " ] };"@,
        lines[14int + symbols.len()] == "  key <K"@ + text::decimal(11) + "> { [ "@ + "Alt_L"@
            + " ] };"@,
        lines[15int + symbols.len()] == "  key <K"@ + text::decimal(12) + "> { [ "@ + "Super_L"@
            + " ] };"@,
        forall|i: int|
            0 <= i < symbols.len() ==> lines[16int + symbols.len() + i] == "  key <K"@
                + text::decimal((13 + i) as nat) + "> { [ "@ + #[trigger] symbols[i] + ", "@
                + symbols[i] + " ] };"@,
        lines[16int + 2 * symbols.len()] == "  modifier_map "@ + "Control"@ + " { <K"@
            + text::decimal(9) + "> };"@,
        lines[17int + 2 * symbols.len()] == "  modifier_map "@ + "Shift"@ + " { <K"@ + text::decimal(
            10,
        ) + "> };"@,
        lines[18int + 2 * symbols.len()] == "  modifier_map "@ + "Mod1"@ + " { <K"@ + text::decimal(11)
            + "> };"@,
        lines[19int + 2 * symbols.len()] == "  modifier_map "@ + "Mod4"@ + " { <K"@ + text::decimal(12)
            + "> };"@,
        lines[20int + 2 * symbols.len()] == "};"@,
        lines[21int + 2 * symbols.len()] == "};"@,
{
    let n = symbols.len();
    let a = head_lines(n);
    let b = declaration_lines(n);
    let c = middle_lines();
    let d = symbol_lines(symbols);
    let e = tail_lines();
    let lines = a + b + c + d + e;
    lemma_head(n);
    lemma_declaration_lines(n);
    lemma_middle();
    lemma_symbol_lines(symbols);
    lemma_tail();
    lemma_unlines_concat(a, b);
    lemma_unlines_concat(a + b, c);
    lemma_unlines_concat(a + b + c, d);
    lemma_unlines_concat(a + b + c + d, e);
    lemma_text_grouping(symbols);
    assert forall|k: nat| 9 <= k < 13 + n implies #[trigger] lines[k - 5] == "  <K"@
        + text::decimal(k) + "> = "@ + text::decimal(k) + ";"@ by {
        assert(lines[k - 5] == b[k - 9]);
        assert(b[k - 9] == declaration_line(k));
    }
    assert forall|i: int| 0 <= i < n implies lines[16int + n + i] == "  key <K"@ + text::decimal(
        (13 + i) as nat,
    ) + "> { [ "@ + #[trigger] symbols[i] + ", "@ + symbols[i] + " ] };"@ by {
        assert(lines[16int + n + i] == d[i]);
    }
    assert(lines[0] == a[0] && lines[1] == a[1] && lines[2] == a[2] && lines[3] == a[3]);
    assert(lines[8int + n] == c[0] && lines[9int + n] == c[1] && lines[10int + n] == c[2] && lines[11int + n]
        == c[3]);
    assert(lines[12int + n] == c[4] && lines[13int + n] == c[5] && lines[14int + n] == c[6] && lines[15int + n]
        == c[7]);
    assert(lines[16int + 2 * n] == e[0] && lines[17int + 2 * n] == e[1] && lines[18int + 2 * n] == e[2]);
    assert(lines[19int + 2 * n] == e[3] && lines[20int + 2 * n] == e[4] && lines[21int + 2 * n] == e[5]);
    lines
}

proof fn lemma_regroup(a: Seq<char>, b: Seq<char>, c: Seq<char>)
    ensures
        a + (b + c) == a + b + c,
{
    assert(a + (b + c) =~= a + b + c);
}

/// The keycodes section behind the opening line.
proof fn lemma_front(n: nat)
    ensures
        "xkb_keymap {\n"@ + keymap::keycodes_section(n) == unlines(head_lines(n))
            + keymap::declarations(n) + "};\n"@,
{
    lemma_head(n);
    let k = "xkb_keymap {\n"@;
    let a = "xkb_keycodes \"wlroots-bridge\" {\n"@;
    let b = a + "  minimum = "@;
    let c = b + text::decimal(9);
    let d = c + ";\n"@;
    let e = d + "  maximum = "@;
    let f = e + text::decimal(13 + n);
    let g = f + ";\n"@;
    let h = g + keymap::declarations(n);
    lemma_regroup(k, h, "};\n"@);
    lemma_regroup(k, g, keymap::declarations(n));
    lemma_regroup(k, f, ";\n"@);
    lemma_regroup(k, e, text::decimal(13 + n));
    lemma_regroup(k, d, "  maximum = "@);
    lemma_regroup(k, c, ";\n"@);
    lemma_regroup(k, b, text::decimal(9));
    lemma_regroup(k, a, "  minimum = "@);
}

/// The symbols section behind the stock sections, up to the bindings.
proof fn lemma_back(symbols: Seq<Seq<char>>)
    ensures
        keymap::symbols_section(symbols) + "};\n"@ == "xkb_symbols \"wlroots-bridge\" {\n"@
            + keymap::modifier_binding(9, "Control_L"@) + keymap::modifier_binding(10, "Shift_L"@)
            + keymap::modifier_binding(11, "Alt_L"@) + keymap::modifier_binding(12, "Super_L"@)
            + keymap::symbol_bindings(symbols) + unlines(tail_lines()),
{
    lemma_tail();
    let x = "xkb_symbols \"wlroots-bridge\" {\n"@ + keymap::modifier_binding(9, "Control_L"@)
        + keymap::modifier_binding(10, "Shift_L"@) + keymap::modifier_binding(11, "Alt_L"@)
        + keymap::modifier_binding(12, "Super_L"@) + keymap::symbol_bindings(symbols);
    let a = keymap::modifier_map("Control"@, 9);
    let b = a + keymap::modifier_map("Shift"@, 10);
    let c = b + keymap::modifier_map("Mod1"@, 11);
    let d = c + keymap::modifier_map("Mod4"@, 12);
    let e = d + "};\n"@;
    lemma_regroup(x, a, keymap::modifier_map("Shift"@, 10));
    lemma_regroup(x, b, keymap::modifier_map("Mod1"@, 11));
    lemma_regroup(x, c, keymap::modifier_map("Mod4"@, 12));
    lemma_regroup(x, d, "};\n"@);
    lemma_regroup(x, e, "};\n"@);
}

/// The text is the parts one after the other.
proof fn lemma_text_grouping(symbols: Seq<Seq<char>>)
    ensures
        keymap::symbol_text(symbols) == unlines(head_lines(symbols.len())) + keymap::declarations(
            symbols.len(),
        ) + unlines(middle_lines()) + keymap::symbol_bindings(symbols) + unlines(tail_lines()),
{
    lemma_front(symbols.len());
    lemma_middle();
    lemma_back(symbols);
    let hd = unlines(head_lines(symbols.len())) + keymap::declarations(symbols.len());
    let types = "xkb_types \"wlroots-bridge\" { include \"complete\" };\n"@;
    let compat = "xkb_compat \"wlroots-bridge\" { include \"complete\" };\n"@;
    let open = "xkb_symbols \"wlroots-bridge\" {\n"@;
    let m1 = keymap::modifier_binding(9, "Control_L"@);
    let m2 = keymap::modifier_binding(10, "Shift_L"@);
    let m3 = keymap::modifier_binding(11, "Alt_L"@);
    let m4 = keymap::modifier_binding(12, "Super_L"@);
    let binds = keymap::symbol_bindings(symbols);
    let tail = unlines(tail_lines());
    let front = hd + "};\n"@ + types + compat;
    lemma_regroup(front, keymap::symbols_section(symbols), "};\n"@);
    lemma_regroup(front, open + m1 + m2 + m3 + m4 + binds, tail);
    lemma_regroup(front, open + m1 + m2 + m3 + m4, binds);
    lemma_regroup(front, open + m1 + m2 + m3, m4);
    lemma_regroup(front, open + m1 + m2, m3);
    lemma_regroup(front, open + m1, m2);
    lemma_regroup(front, open, m1);
    let x = "};\n"@;
    lemma_regroup(hd, x + types + compat + open + m1 + m2 + m3, m4);
    lemma_regroup(hd, x + types + compat + open + m1 + m2, m3);
    lemma_regroup(hd, x + types + compat + open + m1, m2);
    lemma_regroup(hd, x + types + compat + open, m1);
    lemma_regroup(hd, x + types + compat, open);
    lemma_regroup(hd, x + types, compat);
    lemma_regroup(hd, x, types);
}

/// Each key that a keymap of its own places is declared: the text holds the line that
/// gives the keycode of the placement, eight above its evdev code, the name of its
/// number, and the line that binds the symbol to that name at both levels.
pub proof fn law_placed_keys_are_declared(symbols: Seq<Seq<char>>, i: int)
    requires
        0 <= i < symbols.len() <= 0xffff_fff2,
    ensures
        ({
            let map = keymap::symbol_keymap(symbols);
            let k = (map.placements[i].evdev_code + 8) as nat;
            &&& map.placements.len() == symbols.len()
            &&& map.placements[i] == (KeyPlacement {
                evdev_code: (5 + i) as u32,
                needs_shift: false,
            })
            &&& syntax::occurs_in(
                "  <K"@ + text::decimal(k) + "> = "@ + text::decimal(k) + ";\n"@,
                map.text,
            )
            &&& syntax::occurs_in(
                "  key <K"@ + text::decimal(k) + "> { [ "@ + symbols[i] + ", "@ + symbols[i]
                    + " ] };\n"@,
                map.text,
            )
        }),
{
    laws::law_keycode_is_declared(symbols, (13 + i) as nat);
    laws::law_symbol_is_bound(symbols, i);
}

/// Different keys are declared under different names with different keycodes: no two
/// placements of a keymap of its own share the numeral of their keycode.
pub proof fn law_keycode_names_differ(symbols: Seq<Seq<char>>, i: int, j: int)
    requires
        0 <= i < j < symbols.len() <= 0xffff_fff2,
    ensures
        ({
            let map = keymap::symbol_keymap(symbols);
            text::decimal((map.placements[i].evdev_code + 8) as nat) != text::decimal(
                (map.placements[j].evdev_code + 8) as nat,
            )
        }),
{
    laws_text::law_decimal_value((13 + i) as nat);
    laws_text::law_decimal_value((13 + j) as nat);
}

/// The stock keymap has these six lines.
pub proof fn law_stock_text()
    ensures
        keymap::us_text() == unlines(
            seq![
                "xkb_keymap {"@,
                "xkb_keycodes { include \"evdev+aliases(qwerty)\" };"@,
                "xkb_types { include \"complete\" };"@,
                "xkb_compatibility { include \"complete\" };"@,
                "xkb_symbols { include \"pc+us+inet(evdev)\" };"@,
                "};"@,
            ],
        ),
{
    let a = "xkb_keymap {"@;
    let b = "xkb_keycodes { include \"evdev+aliases(qwerty)\" };"@;
    let c = "xkb_types { include \"complete\" };"@;
    let d = "xkb_compatibility { include \"complete\" };"@;
    let e = "xkb_symbols { include \"pc+us+inet(evdev)\" };"@;
    let f = "};"@;
    reveal_strlit("xkb_keymap {");
    reveal_strlit("xkb_keymap {\n");
    reveal_strlit("xkb_keycodes { include \"evdev+aliases(qwerty)\" };");
    reveal_strlit("xkb_keycodes { include \"evdev+aliases(qwerty)\" };\n");
    reveal_strlit("xkb_types { include \"complete\" };");
    reveal_strlit("xkb_types { include \"complete\" };\n");
    reveal_strlit("xkb_compatibility { include \"complete\" };");
    reveal_strlit("xkb_compatibility { include \"complete\" };\n");
    reveal_strlit("xkb_symbols { include \"pc+us+inet(evdev)\" };");
    reveal_strlit("xkb_symbols { include \"pc+us+inet(evdev)\" };\n");
    reveal_strlit("};");
    reveal_strlit("};\n");
    assert("xkb_keymap {\n"@ =~= a.push('\n'));
    assert("xkb_keycodes { include \"evdev+aliases(qwerty)\" };\n"@ =~= b.push('\n'));
    assert("xkb_types { include \"complete\" };\n"@ =~= c.push('\n'));
    assert("xkb_compatibility { include \"complete\" };\n"@ =~= d.push('\n'));
    assert("xkb_symbols { include \"pc+us+inet(evdev)\" };\n"@ =~= e.push('\n'));
    assert("};\n"@ =~= f.push('\n'));
    lemma_unlines_four(a, b, c, d);
    lemma_unlines_push(seq![a, b, c, d], e);
    lemma_unlines_push(seq![a, b, c, d].push(e), f);
    assert(seq![a, b, c, d, e, f] =~= seq![a, b, c, d].push(e).push(f));
    assert(keymap::us_text() =~= unlines(seq![a, b, c, d].push(e).push(f)));
}

/// The keymap for a set of keysyms, told by where they are on a US keyboard.
///
/// Where each has a position, they are at these positions and the modifiers at theirs,
/// on the stock keymap. Otherwise every keysym has a key of its own on a keymap that
/// binds its symbol name, in order, and the modifiers have the four keys before them.
pub proof fn law_keymap_of(keysyms: Seq<u32>)
    ensures
        ({
            let map = keymap::keymap_of(keysyms);
            let physical = forall|i: int|
                0 <= i < keysyms.len() ==> layout::placement_of(#[trigger] keysyms[i]) is Some;
            &&& keymap::all_physical(keysyms) <==> physical
            &&& keymap::symbols_of(keysyms).len() == keysyms.len()
            &&& forall|i: int|
                0 <= i < keysyms.len() ==> #[trigger] keymap::symbols_of(keysyms)[i]
                    == keysym::symbol_of(keysyms[i])
            &&& map.placements.len() == keysyms.len()
            &&& physical ==> {
                &&& map.text == keymap::us_text()
                &&& map.ctrl_code == 29
                &&& map.shift_code == 42
                &&& map.alt_code == 56
                &&& map.super_code == 125
                &&& forall|i: int|
                    0 <= i < keysyms.len() ==> layout::placement_of(keysyms[i]) == Some(
                        #[trigger] map.placements[i],
                    )
            }
            &&& !physical ==> {
                &&& map.ctrl_code == 1
                &&& map.shift_code == 2
                &&& map.alt_code == 3
                &&& map.super_code == 4
                &&& forall|i: int|
                    0 <= i < keysyms.len() ==> (#[trigger] map.placements[i]) == (KeyPlacement {
                        evdev_code: (5 + i) as u32,
                        needs_shift: false,
                    })
                &&& forall|symbols: Seq<Seq<char>>|
                    symbols.len() == keysyms.len() && (forall|i: int|
                        0 <= i < keysyms.len() ==> #[trigger] symbols[i] == keysym::symbol_of(
                            keysyms[i],
                        )) ==> map == #[trigger] keymap::symbol_keymap(symbols)
            }
        }),
{
    laws::law_physical_or_symbols(keysyms);
    if !keymap::all_physical(keysyms) {
        assert forall|symbols: Seq<Seq<char>>|
            symbols.len() == keysyms.len() && (forall|i: int|
                0 <= i < keysyms.len() ==> #[trigger] symbols[i] == keysym::symbol_of(
                    keysyms[i],
                )) implies keymap::keymap_of(keysyms) == #[trigger] keymap::symbol_keymap(
            symbols,
        ) by {
            assert(symbols =~= keymap::symbols_of(keysyms));
        }
    }
}

/// The keycodes that keymaps of their own use, and how many symbols they can hold.
pub proof fn law_keycode_range()
    ensures
        keymap::XKB_KEYCODE_BASE == 9,
        keymap::FIRST_SYMBOL_KEYCODE == keymap::XKB_KEYCODE_BASE + 4,
        keymap::EVDEV_OFFSET == 8,
        keymap::FIRST_SYMBOL_KEYCODE + keymap::MAX_SYMBOLS == u32::MAX,
{
}

/// The code of a modifier's key is the one that the keymap gives under the modifier's
/// name, and the value of a keymap is made of its fields as they are.
pub proof fn law_keymap_fields(keymap: GeneratedKeymap, map: KeymapView)
    ensures
        map.modifier_code(Modifier::Control) == map.ctrl_code,
        map.modifier_code(Modifier::Shift) == map.shift_code,
        map.modifier_code(Modifier::Alt) == map.alt_code,
        map.modifier_code(Modifier::Super) == map.super_code,
        map.has_sound_text() <==> syntax::is_plain(map.text) && syntax::is_balanced(map.text),
        keymap@.text == keymap.text@,
        keymap@.ctrl_code == keymap.ctrl_code,
        keymap@.shift_code == keymap.shift_code,
        keymap@.alt_code == keymap.alt_code,
        keymap@.super_code == keymap.super_code,
        keymap@.placements == keymap.placements@,
{
}

/// Text is sound where every character is one of ASCII other than NUL, no brace closes
/// that was not opened, and as many close as open.
pub proof fn law_sound_text(map: KeymapView)
    ensures
        map.has_sound_text() <==> {
            let s = map.text;
            &&& forall|i: int| 0 <= i < s.len() ==> '\u{1}' <= #[trigger] s[i] <= '\u{7f}'
            &&& syntax::occurrences(s, '{', s.len() as int) == syntax::occurrences(
                s,
                '}',
                s.len() as int,
            )
            &&& forall|n: int|
                0 <= n <= s.len() ==> #[trigger] syntax::occurrences(s, '}', n)
                    <= syntax::occurrences(s, '{', n)
        },
{
    let s = map.text;
    assert forall|n: int| 0 <= n <= s.len() implies #[trigger] syntax::depth(s, n)
        == syntax::occurrences(s, '{', n) - syntax::occurrences(s, '}', n) by {
        syntax::lemma_brace_counts(s, n);
    }
    if syntax::is_balanced(s) {
        assert forall|n: int| 0 <= n <= s.len() implies #[trigger] syntax::occurrences(s, '}', n)
            <= syntax::occurrences(s, '{', n) by {
            assert(syntax::depth(s, n) >= 0);
        }
    }
}

} // verus!
