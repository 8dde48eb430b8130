//! Where symbols sit on a US keyboard.

use vstd::prelude::*;

use crate::key;
use crate::text;

verus! {

/// Position of a key within a keymap.
#[derive(Debug, Clone, Copy, PartialEq, Eq, Structural)]
pub struct KeyPlacement {
    /// The Linux evdev code of the key: its XKB keycode less eight.
    pub evdev_code: u32,
    /// Whether Shift must be held for the key to yield the symbol.
    pub needs_shift: bool,
}

/// The rows of character keys: the code of the first key, and what the keys
/// yield without and with Shift, left to right.
pub const ROWS: [(u32, &'static str, &'static str); 6] = [
    (2, "1234567890-=", "!@#$%^&*()_+"),
    (16, "qwertyuiop[]", "QWERTYUIOP{}"),
    (30, "asdfghjkl;'`", "ASDFGHJKL:\"~"),
    (43, "\\", "|"),
    (44, "zxcvbnm,./", "ZXCVBNM<>?"),
    (57, " ", " "),
];

/// What the keys of a row yield at the given level, left to right.
pub open spec fn row_chars(row: int, shifted: bool) -> Seq<char> {
    if shifted {
        ROWS@[row].2@
    } else {
        ROWS@[row].1@
    }
}

/// Whether `i` is the first place at which `chars` holds the keysym's character.
pub open spec fn is_place(chars: Seq<char>, keysym: u32, i: int) -> bool {
    &&& 0 <= i < chars.len()
    &&& chars[i] as u32 == keysym
    &&& forall|j: int| 0 <= j < i ==> #[trigger] chars[j] as u32 != keysym
}

/// The place at which `chars` holds the keysym's character.
pub open spec fn place_in(chars: Seq<char>, keysym: u32) -> Option<int> {
    if exists|i: int| is_place(chars, keysym, i) {
        Some(choose|i: int| is_place(chars, keysym, i))
    } else {
        None
    }
}

/// The position of a character key in the rows from `row` on.
pub open spec fn row_placement(keysym: u32, row: int) -> Option<KeyPlacement>
    decreases ROWS@.len() - row,
{
    if !(0 <= row < ROWS@.len()) {
        None
    } else {
        match place_in(row_chars(row, false), keysym) {
            Some(i) => Some(
                KeyPlacement { evdev_code: (ROWS@[row].0 + i) as u32, needs_shift: false },
            ),
            None => match place_in(row_chars(row, true), keysym) {
                Some(i) => Some(
                    KeyPlacement { evdev_code: (ROWS@[row].0 + i) as u32, needs_shift: true },
                ),
                None => row_placement(keysym, row + 1),
            },
        }
    }
}

/// The code of a key that yields no character.
pub open spec fn special_code(keysym: u32) -> Option<u32> {
    if keysym == key::ESCAPE {
        Some(1u32)
    } else if keysym == key::BACKSPACE {
        Some(14u32)
    } else if keysym == key::TAB {
        Some(15u32)
    } else if keysym == key::RETURN {
        Some(28u32)
    } else if keysym == key::CONTROL_L {
        Some(29u32)
    } else if keysym == key::SHIFT_L {
        Some(42u32)
    } else if keysym == key::SHIFT_R {
        Some(54u32)
    } else if keysym == key::ALT_L {
        Some(56u32)
    } else if keysym == key::CAPS_LOCK {
        Some(58u32)
    } else if key::F1 <= keysym <= key::F10 {
        Some((59 + (keysym - key::F1)) as u32)
    } else if keysym == key::NUM_LOCK {
        Some(69u32)
    } else if keysym == key::F11 {
        Some(87u32)
    } else if keysym == key::F12 {
        Some(88u32)
    } else if keysym == key::CONTROL_R {
        Some(97u32)
    } else if keysym == key::PRINT {
        Some(99u32)
    } else if keysym == key::ALT_R {
        Some(100u32)
    } else if keysym == key::HOME {
        Some(102u32)
    } else if keysym == key::UP {
        Some(103u32)
    } else if keysym == key::PRIOR {
        Some(104u32)
    } else if keysym == key::LEFT {
        Some(105u32)
    } else if keysym == key::RIGHT {
        Some(106u32)
    } else if keysym == key::END {
        Some(107u32)
    } else if keysym == key::DOWN {
        Some(108u32)
    } else if keysym == key::NEXT {
        Some(109u32)
    } else if keysym == key::INSERT {
        Some(110u32)
    } else if keysym == key::DELETE {
        Some(111u32)
    } else if keysym == key::PAUSE {
        Some(119u32)
    } else if keysym == key::SUPER_L {
        Some(125u32)
    } else if keysym == key::SUPER_R {
        Some(126u32)
    } else if keysym == key::MENU {
        Some(127u32)
    } else {
        None
    }
}

/// The position of a keysym on a US keyboard, where it has one.
pub open spec fn placement_of(keysym: u32) -> Option<KeyPlacement> {
    match row_placement(keysym, 0) {
        Some(placement) => Some(placement),
        None => match special_code(keysym) {
            Some(code) => Some(KeyPlacement { evdev_code: code, needs_shift: false }),
            None => None,
        },
    }
}

/// Whether the key at the position yields the keysym on a US keyboard.
pub open spec fn yields(p: KeyPlacement, keysym: u32) -> bool {
    ||| exists|row: int, i: int| #[trigger] is_seat(p, keysym, row, i)
    ||| !p.needs_shift && special_code(keysym) == Some(p.evdev_code)
}

/// Whether the position is that of the `i`th key of a row, and the key yields the
/// keysym at that level.
pub open spec fn is_seat(p: KeyPlacement, keysym: u32, row: int, i: int) -> bool {
    &&& 0 <= row < ROWS@.len()
    &&& 0 <= i < row_chars(row, p.needs_shift).len()
    &&& p.evdev_code == ROWS@[row].0 + i
    &&& row_chars(row, p.needs_shift)[i] as u32 == keysym
}

/// The characters that take Shift on a US keyboard.
pub open spec fn is_shifted(c: u32) -> bool {
    ||| 0x41 <= c <= 0x5a  // A to Z
    ||| 0x21 <= c <= 0x26  // ! " # $ % &
    ||| 0x28 <= c <= 0x2b  // ( ) * +
    ||| c == 0x3a  // :
    ||| c == 0x3c  // <
    ||| 0x3e <= c <= 0x40  // > ? @
    ||| 0x5e <= c <= 0x5f  // ^ _
    ||| 0x7b <= c <= 0x7e  // { | } ~

}

/// The place at which `chars` holds the keysym's character.
fn find_place(chars: &str, keysym: u32) -> (r: Option<usize>)
    ensures
        match r {
            Some(i) => place_in(chars@, keysym) == Some(i as int) && i < chars@.len(),
            None => place_in(chars@, keysym) is None,
        },
{
    let list = text::chars_of(chars);
    let mut i: usize = 0;
    while i < list.len()
        invariant
            i <= list@.len(),
            list@ == chars@,
            forall|j: int| 0 <= j < i ==> #[trigger] chars@[j] as u32 != keysym,
        decreases list@.len() - i,
    {
        if list[i] as u32 == keysym {
            proof {
                assert(is_place(chars@, keysym, i as int));
                let k = choose|k: int| is_place(chars@, keysym, k);
                if k < i {
                    assert(chars@[k] as u32 != keysym);
                }
                if i < k {
                    assert(chars@[i as int] as u32 != keysym);
                }
            }
            return Some(i);
        }
        i = i + 1;
    }
    None
}

/// What the rows are made of: no row holds more than twelve keys, both levels of a
/// row are of one length, and the characters of the two levels are told apart by
/// whether they take Shift, but for the space bar.
pub proof fn lemma_rows(row: int)
    requires
        0 <= row < ROWS@.len(),
    ensures
        2 <= ROWS@[row].0 <= 57,
        row_chars(row, false).len() == row_chars(row, true).len() <= 12,
        row < 5 ==> ROWS@[row].0 + row_chars(row, false).len() <= ROWS@[row + 1].0,
        forall|i: int|
            0 <= i < row_chars(row, false).len() ==> ' ' <= #[trigger] row_chars(row, false)[i]
                <= '~' && !is_shifted(row_chars(row, false)[i] as u32),
        forall|i: int|
            0 <= i < row_chars(row, true).len() ==> ' ' <= #[trigger] row_chars(row, true)[i] <= '~'
                && (row_chars(row, true)[i] == ' ' || is_shifted(row_chars(row, true)[i] as u32)),
        forall|i: int|
            0 <= i < row_chars(row, true).len() && #[trigger] row_chars(row, true)[i] == ' '
                ==> row_chars(row, false)[i] == ' ',
{
    reveal_strlit("1234567890-=");
    reveal_strlit("!@#$%^&*()_+");
    reveal_strlit("qwertyuiop[]");
    reveal_strlit("QWERTYUIOP{}");
    reveal_strlit("asdfghjkl;'`");
    reveal_strlit("ASDFGHJKL:\"~");
    reveal_strlit("\\");
    reveal_strlit("|");
    reveal_strlit("zxcvbnm,./");
    reveal_strlit("ZXCVBNM<>?");
    reveal_strlit(" ");
}

/// The code of a key that yields no character.
fn find_special_code(keysym: u32) -> (r: Option<u32>)
    ensures
        r == special_code(keysym),
{
    let code: u32 = match keysym {
        key::ESCAPE => 1,
        key::BACKSPACE => 14,
        key::TAB => 15,
        key::RETURN => 28,
        key::CONTROL_L => 29,
        key::SHIFT_L => 42,
        key::SHIFT_R => 54,
        key::ALT_L => 56,
        key::CAPS_LOCK => 58,
        key::F1..=key::F10 => 59 + (keysym - key::F1),
        key::NUM_LOCK => 69,
        key::F11 => 87,
        key::F12 => 88,
        key::CONTROL_R => 97,
        key::PRINT => 99,
        key::ALT_R => 100,
        key::HOME => 102,
        key::UP => 103,
        key::PRIOR => 104,
        key::LEFT => 105,
        key::RIGHT => 106,
        key::END => 107,
        key::DOWN => 108,
        key::NEXT => 109,
        key::INSERT => 110,
        key::DELETE => 111,
        key::PAUSE => 119,
        key::SUPER_L => 125,
        key::SUPER_R => 126,
        key::MENU => 127,
        _ => return None,
    };
    Some(code)
}

/// Resolves a symbol to its physical position on a US keyboard.
pub fn physical_placement(keysym: u32) -> (r: Option<KeyPlacement>)
    ensures
        r == placement_of(keysym),
{
    let mut row: usize = 0;
    while row < 6
        invariant
            row <= 6,
            row_placement(keysym, row as int) == row_placement(keysym, 0),
        decreases 6 - row,
    {
        let start: u32 = ROWS[row].0;
        proof {
            lemma_rows(row as int);
        }
        if let Some(i) = find_place(ROWS[row].1, keysym) {
            return Some(KeyPlacement { evdev_code: start + i as u32, needs_shift: false });
        }
        if let Some(i) = find_place(ROWS[row].2, keysym) {
            return Some(KeyPlacement { evdev_code: start + i as u32, needs_shift: true });
        }
        row = row + 1;
    }
    match find_special_code(keysym) {
        Some(code) => Some(KeyPlacement { evdev_code: code, needs_shift: false }),
        None => None,
    }
}

/// A character that occurs among others has a first place.
pub proof fn lemma_place_exists(chars: Seq<char>, keysym: u32, i: int)
    requires
        0 <= i < chars.len(),
        chars[i] as u32 == keysym,
    ensures
        place_in(chars, keysym) is Some,
    decreases i,
{
    if exists|j: int| 0 <= j < i && #[trigger] chars[j] as u32 == keysym {
        let j = choose|j: int| 0 <= j < i && #[trigger] chars[j] as u32 == keysym;
        lemma_place_exists(chars, keysym, j);
    } else {
        assert(is_place(chars, keysym, i));
    }
}

/// A character of a row is placed by the rows from any earlier row on.
pub proof fn lemma_row_places(keysym: u32, from: int, row: int, shifted: bool, i: int)
    requires
        0 <= from <= row < ROWS@.len(),
        0 <= i < row_chars(row, shifted).len(),
        row_chars(row, shifted)[i] as u32 == keysym,
    ensures
        row_placement(keysym, from) is Some,
    decreases row - from,
{
    if from < row {
        lemma_row_places(keysym, from + 1, row, shifted, i);
    } else {
        lemma_place_exists(row_chars(row, shifted), keysym, i);
    }
}

/// A row of up to twelve characters without a certain one: spelled out.
proof fn lemma_row_without(row: int, shifted: bool, c: u32)
    requires
        0 <= row < ROWS@.len(),
        row_placement(c, 0) is None,
    ensures
        ({
            let s = row_chars(row, shifted);
            &&& s.len() > 0 ==> s[0] as u32 != c
            &&& s.len() > 1 ==> s[1] as u32 != c
            &&& s.len() > 2 ==> s[2] as u32 != c
            &&& s.len() > 3 ==> s[3] as u32 != c
            &&& s.len() > 4 ==> s[4] as u32 != c
            &&& s.len() > 5 ==> s[5] as u32 != c
            &&& s.len() > 6 ==> s[6] as u32 != c
            &&& s.len() > 7 ==> s[7] as u32 != c
            &&& s.len() > 8 ==> s[8] as u32 != c
            &&& s.len() > 9 ==> s[9] as u32 != c
            &&& s.len() > 10 ==> s[10] as u32 != c
            &&& s.len() > 11 ==> s[11] as u32 != c
        }),
{
    let s = row_chars(row, shifted);
    assert forall|i: int| 0 <= i < s.len() implies #[trigger] s[i] as u32 != c by {
        if s[i] as u32 == c {
            lemma_row_places(c, 0, row, shifted, i);
        }
    }
}

/// Every printable ASCII character has a position.
pub proof fn lemma_ascii_is_placed(c: u32)
    requires
        0x20 <= c <= 0x7e,
    ensures
        placement_of(c) is Some,
{
    if row_placement(c, 0) is None {
        lemma_row_without(0, false, c);
        lemma_row_without(0, true, c);
        lemma_row_without(1, false, c);
        lemma_row_without(1, true, c);
        lemma_row_without(2, false, c);
        lemma_row_without(2, true, c);
        lemma_row_without(3, false, c);
        lemma_row_without(3, true, c);
        lemma_row_without(4, false, c);
        lemma_row_without(4, true, c);
        lemma_row_without(5, false, c);
        reveal_strlit("1234567890-=");
        reveal_strlit("!@#$%^&*()_+");
        reveal_strlit("qwertyuiop[]");
        reveal_strlit("QWERTYUIOP{}");
        reveal_strlit("asdfghjkl;'`");
        reveal_strlit("ASDFGHJKL:\"~");
        reveal_strlit("\\");
        reveal_strlit("|");
        reveal_strlit("zxcvbnm,./");
        reveal_strlit("ZXCVBNM<>?");
        reveal_strlit(" ");
    }
}

} // verus!
