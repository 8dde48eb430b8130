//! What holds of the US keyboard, key by key.

use vstd::prelude::*;

use crate::laws;
use crate::layout;
use crate::layout::KeyPlacement;

verus! {

/// The character keys of a US keyboard: the evdev code, and what the key yields
/// without and with Shift.
pub const CHARACTER_KEYS: [(u32, char, char); 48] = [
    (2, '1', '!'),
    (3, '2', '@'),
    (4, '3', '#'),
    (5, '4', '$'),
    (6, '5', '%'),
    (7, '6', '^'),
    (8, '7', '&'),
    (9, '8', '*'),
    (10, '9', '('),
    (11, '0', ')'),
    (12, '-', '_'),
    (13, '=', '+'),
    (16, 'q', 'Q'),
    (17, 'w', 'W'),
    (18, 'e', 'E'),
    (19, 'r', 'R'),
    (20, 't', 'T'),
    (21, 'y', 'Y'),
    (22, 'u', 'U'),
    (23, 'i', 'I'),
    (24, 'o', 'O'),
    (25, 'p', 'P'),
    (26, '[', '{'),
    (27, ']', '}'),
    (30, 'a', 'A'),
    (31, 's', 'S'),
    (32, 'd', 'D'),
    (33, 'f', 'F'),
    (34, 'g', 'G'),
    (35, 'h', 'H'),
    (36, 'j', 'J'),
    (37, 'k', 'K'),
    (38, 'l', 'L'),
    (39, ';', ':'),
    (40, '\'', '"'),
    (41, '`', '~'),
    (43, '\\', '|'),
    (44, 'z', 'Z'),
    (45, 'x', 'X'),
    (46, 'c', 'C'),
    (47, 'v', 'V'),
    (48, 'b', 'B'),
    (49, 'n', 'N'),
    (50, 'm', 'M'),
    (51, ',', '<'),
    (52, '.', '>'),
    (53, '/', '?'),
    (57, ' ', ' '),
];

/// The keys that yield no character: the keysym and the evdev code.
pub const SPECIAL_KEYS: [(u32, u32); 39] = [
    (0xff1b, 1),  // Escape
    (0xff08, 14),  // BackSpace
    (0xff09, 15),  // Tab
    (0xff0d, 28),  // Return
    (0xffe3, 29),  // Control_L
    (0xffe1, 42),  // Shift_L
    (0xffe2, 54),  // Shift_R
    (0xffe9, 56),  // Alt_L
    (0xffe5, 58),  // Caps_Lock
    (0xffbe, 59),  // F1
    (0xffbf, 60),  // F2
    (0xffc0, 61),  // F3
    (0xffc1, 62),  // F4
    (0xffc2, 63),  // F5
    (0xffc3, 64),  // F6
    (0xffc4, 65),  // F7
    (0xffc5, 66),  // F8
    (0xffc6, 67),  // F9
    (0xffc7, 68),  // F10
    (0xff7f, 69),  // Num_Lock
    (0xffc8, 87),  // F11
    (0xffc9, 88),  // F12
    (0xffe4, 97),  // Control_R
    (0xff61, 99),  // Print
    (0xffea, 100),  // Alt_R
    (0xff50, 102),  // Home
    (0xff52, 103),  // Up
    (0xff55, 104),  // Prior
    (0xff51, 105),  // Left
    (0xff53, 106),  // Right
    (0xff57, 107),  // End
    (0xff54, 108),  // Down
    (0xff56, 109),  // Next
    (0xff63, 110),  // Insert
    (0xffff, 111),  // Delete
    (0xff13, 119),  // Pause
    (0xffeb, 125),  // Super_L
    (0xffec, 126),  // Super_R
    (0xff67, 127),  // Menu
];

/// Where the keys of a row start in the list of character keys.
spec fn row_offset(row: int) -> int {
    if row == 0 {
        0
    } else if row == 1 {
        12
    } else if row == 2 {
        24
    } else if row == 3 {
        36
    } else if row == 4 {
        37
    } else {
        47
    }
}

/// The row of a character key.
spec fn row_of(j: int) -> int {
    if j < 12 {
        0
    } else if j < 24 {
        1
    } else if j < 36 {
        2
    } else if j < 37 {
        3
    } else if j < 47 {
        4
    } else {
        5
    }
}

/// What the `i`th key of a row is.
proof fn lemma_row_key(row: int, i: int)
    requires
        0 <= row < layout::ROWS@.len(),
        0 <= i < layout::row_chars(row, false).len(),
    ensures
        0 <= row_offset(row) + i < CHARACTER_KEYS@.len(),
        row_of(row_offset(row) + i) == row,
        CHARACTER_KEYS@[row_offset(row) + i].0 == layout::ROWS@[row].0 + i,
        CHARACTER_KEYS@[row_offset(row) + i].1 == layout::row_chars(row, false)[i],
        CHARACTER_KEYS@[row_offset(row) + i].2 == layout::row_chars(row, true)[i],
{
    reveal_strlit("1234567890-=");
    reveal_strlit("!@#$%^&*()_+");
    reveal_strlit("qwertyuiop[]");
    reveal_strlit("QWERTYUIOP{}");
    reveal_strlit("asdfghjkl;'`");
    reveal_strlit("ASDFGHJKL:\"~");
    reveal_strlit("\\");
    reveal_strlit("|");
    reveal_strlit("zxcvbnm,./");
    reveal_strlit("ZXCVBNM<>?");
    reveal_strlit(" ");
}

/// Every listed key is one of a row.
proof fn lemma_key_row(j: int)
    requires
        0 <= j < CHARACTER_KEYS@.len(),
    ensures
        0 <= row_of(j) < layout::ROWS@.len(),
        0 <= j - row_offset(row_of(j)) < layout::row_chars(row_of(j), false).len(),
        layout::row_chars(row_of(j), false).len() == layout::row_chars(row_of(j), true).len(),
{
    layout::lemma_rows(row_of(j));
    reveal_strlit("1234567890-=");
    reveal_strlit("qwertyuiop[]");
    reveal_strlit("asdfghjkl;'`");
    reveal_strlit("\\");
    reveal_strlit("zxcvbnm,./");
    reveal_strlit(" ");
}

/// No character stands twice among the keys, but for the blank on the space bar.
proof fn lemma_characters_differ(i: int, j: int)
    requires
        0 <= i < CHARACTER_KEYS@.len(),
        0 <= j < CHARACTER_KEYS@.len(),
    ensures
        CHARACTER_KEYS@[i].1 == CHARACTER_KEYS@[j].1 ==> i == j,
        CHARACTER_KEYS@[i].2 == CHARACTER_KEYS@[j].2 ==> i == j,
        CHARACTER_KEYS@[i].1 == CHARACTER_KEYS@[j].2 ==> i == 47 && j == 47,
{
}

/// A character that the layout places is on a listed key, at the level that the list
/// gives, and the space bar takes no Shift.
proof fn lemma_row_placement_listed(keysym: u32)
    ensures
        layout::row_placement(keysym, 0) matches Some(p) ==> exists|j: int|
            #![trigger CHARACTER_KEYS@[j]]
            0 <= j < CHARACTER_KEYS@.len() && p.evdev_code == CHARACTER_KEYS@[j].0 && keysym == (
            if p.needs_shift {
                CHARACTER_KEYS@[j].2
            } else {
                CHARACTER_KEYS@[j].1
            }) as u32,
        layout::row_placement(keysym, 0) matches Some(p) ==> keysym == 0x20 ==> !p.needs_shift,
{
    if let Some(p) = layout::row_placement(keysym, 0) {
        laws::lemma_row_seat(keysym, 0);
        let (row, i) = choose|row: int, i: int| #[trigger] layout::is_seat(p, keysym, row, i);
        layout::lemma_rows(row);
        lemma_row_key(row, i);
        assert(CHARACTER_KEYS@[row_offset(row) + i].0 == p.evdev_code);
        laws::law_shift_level(keysym);
    }
}

/// Every character key is where a US keyboard has it: what a key yields plain is at
/// the key's code without Shift, and what it yields with Shift is there with Shift. A
/// blank takes no Shift.
pub proof fn law_character_keys(j: int)
    requires
        0 <= j < CHARACTER_KEYS@.len(),
    ensures
        layout::placement_of(CHARACTER_KEYS@[j].1 as u32) == Some(
            KeyPlacement { evdev_code: CHARACTER_KEYS@[j].0, needs_shift: false },
        ),
        CHARACTER_KEYS@[j].2 != ' ' ==> layout::placement_of(CHARACTER_KEYS@[j].2 as u32) == Some(
            KeyPlacement { evdev_code: CHARACTER_KEYS@[j].0, needs_shift: true },
        ),
{
    let plain = CHARACTER_KEYS@[j].1 as u32;
    let shifted = CHARACTER_KEYS@[j].2 as u32;
    let row = row_of(j);
    let i = j - row_offset(row);
    lemma_key_row(j);
    lemma_row_key(row, i);
    layout::lemma_row_places(plain, 0, row, false, i);
    layout::lemma_row_places(shifted, 0, row, true, i);
    lemma_row_placement_listed(plain);
    lemma_row_placement_listed(shifted);
    let p = layout::row_placement(plain, 0)->0;
    let q = layout::row_placement(shifted, 0)->0;
    let a = choose|a: int|
        #![trigger CHARACTER_KEYS@[a]]
        0 <= a < CHARACTER_KEYS@.len() && p.evdev_code == CHARACTER_KEYS@[a].0 && plain == (
        if p.needs_shift {
            CHARACTER_KEYS@[a].2
        } else {
            CHARACTER_KEYS@[a].1
        }) as u32;
    let b = choose|b: int|
        #![trigger CHARACTER_KEYS@[b]]
        0 <= b < CHARACTER_KEYS@.len() && q.evdev_code == CHARACTER_KEYS@[b].0 && shifted == (
        if q.needs_shift {
            CHARACTER_KEYS@[b].2
        } else {
            CHARACTER_KEYS@[b].1
        }) as u32;
    lemma_characters_differ(j, a);
    lemma_characters_differ(j, b);
    lemma_characters_differ(b, j);
}

/// Every special key is where a US keyboard has it, and takes no Shift.
pub proof fn law_special_keys(j: int)
    requires
        0 <= j < SPECIAL_KEYS@.len(),
    ensures
        layout::placement_of(SPECIAL_KEYS@[j].0) == Some(
            KeyPlacement { evdev_code: SPECIAL_KEYS@[j].1, needs_shift: false },
        ),
{
    laws::lemma_rows_are_ascii(SPECIAL_KEYS@[j].0, 0);
}

/// The first ten function keys are side by side from code 59 on.
pub proof fn law_function_keys(k: u32)
    requires
        k < 10,
    ensures
        layout::placement_of((0xffbe + k) as u32) == Some(
            KeyPlacement { evdev_code: (59 + k) as u32, needs_shift: false },
        ),
{
    laws::lemma_rows_are_ascii((0xffbe + k) as u32, 0);
}

/// Nothing else is placed: a keysym with a position is a character of a character key
/// or the keysym of a special key.
pub proof fn law_nothing_else_is_placed(keysym: u32)
    requires
        layout::placement_of(keysym) is Some,
    ensures
        ({
            ||| exists|j: int|
                0 <= j < CHARACTER_KEYS@.len() && ((#[trigger] CHARACTER_KEYS@[j]).1 as u32
                    == keysym || CHARACTER_KEYS@[j].2 as u32 == keysym)
            ||| exists|j: int|
                0 <= j < SPECIAL_KEYS@.len() && (#[trigger] SPECIAL_KEYS@[j]).0 == keysym
        }),
{
    lemma_row_placement_listed(keysym);
    if layout::row_placement(keysym, 0) is None {
        lemma_special_listed(keysym);
    }
}

proof fn lemma_special_listed(keysym: u32)
    requires
        layout::special_code(keysym) is Some,
    ensures
        exists|j: int| 0 <= j < SPECIAL_KEYS@.len() && (#[trigger] SPECIAL_KEYS@[j]).0 == keysym,
{
    let code = layout::special_code(keysym)->0;
    let j: int = if code == 1 {
        0
    } else if code <= 15 {
        code - 13
    } else if code <= 29 {
        code - 25
    } else if code == 42 {
        5
    } else if code == 54 {
        6
    } else if code == 56 {
        7
    } else if code <= 69 {
        code - 50
    } else if code <= 88 {
        code - 67
    } else if code == 97 {
        22
    } else if code <= 100 {
        code - 76
    } else if code <= 111 {
        code - 77
    } else if code == 119 {
        35
    } else {
        code - 89
    };
    assert(SPECIAL_KEYS@[j].0 == keysym);
}

} // verus!
