# wlroots_bridge

Keyboard input for wlroots-based Wayland sessions, over `zwp_virtual_keyboard_v1`.

The library under `src/` decides everything and touches nothing. It parses key specs
such as `ctrl+shift+tab`, resolves key names and characters to keysyms, generates the
XKB keymap text that a virtual keyboard uploads, and lays out, round by round, which
key events, modifier announcements and pauses a request takes. Each function carries
its contract, and Verus proves it.

- `text`: white space, case folding, splitting and number formatting
- `keyspec`: the grammar of key specs and the four modifiers
- `key`, `keysym`: keysym values, names and symbol names
- `layout`: where symbols sit on a US keyboard
- `keymap`, `syntax`: keymap text and its shape
- `keyboard`: key sequences, typed text, held keys and held modifiers
- `error`: what can be wrong with a request, and how to say it
- `laws`: what holds of the library as a whole

The code under `app/` connects to the compositor and performs the rounds.

What Verus takes on trust is `String::push` of the standard library, and two calls of
the `xkeysym` crate: `Keysym::from_char` and `Keysym::name`.
