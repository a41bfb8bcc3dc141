//! From keyboard scancodes to moves: a digit key 1 to 9 pressed down picks
//! the matching cell of the board.

use vstd::prelude::*;

use pc_keyboard::layouts::Us104Key;
use pc_keyboard::{HandleControl, KeyCode, KeyState, Keyboard, ScancodeSet1};

use crate::game::event::Play;

verus! {

/// A `pc_keyboard::Keyboard` for scancode set 1 and the US 104-key layout.
/// Verus sees nothing inside it; `KeyDecoder` models the one part of its
/// state that decoding depends on.
#[verifier::external_body]
struct Ps2Keyboard {
    keyboard: Keyboard<Us104Key, ScancodeSet1>,
}

/// The keyboard decoder, with the prefix byte of an extended scancode that
/// it has received and not yet completed (0xE0 or 0xE1), or 0 when none is
/// pending.
pub struct KeyDecoder {
    keyboard: Ps2Keyboard,
    pending: Ghost<u8>,
}

/// The prefix byte of an extended scancode (set 1).
pub const EXTENDED_PREFIX: u8 = 0xE0;

/// The prefix byte of a second-kind extended scancode (set 1).
pub const EXTENDED2_PREFIX: u8 = 0xE1;

/// The prefix pending after `scancode` is fed to a decoder with `pending`
/// pending: a prefix byte starts an extended scancode, and the byte after a
/// prefix completes it.
pub open spec fn next_pending(pending: u8, scancode: u8) -> u8 {
    if pending == 0 && (scancode == EXTENDED_PREFIX || scancode == EXTENDED2_PREFIX) {
        scancode
    } else {
        0
    }
}

/// The digit key whose scancode set 1 code (its make code; its break code
/// less 0x80) is `code`: 0x02 for key 1 on to 0x0A for key 9.
pub open spec fn digit_key(code: int) -> Key {
    if code == 0x02 {
        Key::Key1
    } else if code == 0x03 {
        Key::Key2
    } else if code == 0x04 {
        Key::Key3
    } else if code == 0x05 {
        Key::Key4
    } else if code == 0x06 {
        Key::Key5
    } else if code == 0x07 {
        Key::Key6
    } else if code == 0x08 {
        Key::Key7
    } else if code == 0x09 {
        Key::Key8
    } else if code == 0x0A {
        Key::Key9
    } else {
        Key::Other
    }
}

/// The moves that `scancode` adds to the queue when fed to a decoder with
/// `pending` pending: the move of a digit key 1 to 9 when the byte is that
/// key's make code with no prefix pending, nothing otherwise.
pub open spec fn scancode_moves(pending: u8, scancode: u8) -> Seq<Play> {
    if pending == 0 && 0x02 <= scancode <= 0x0A {
        match play_of_key(digit_key(scancode as int)) {
            Some(p) => seq![p],
            None => Seq::<Play>::empty(),
        }
    } else {
        Seq::<Play>::empty()
    }
}

/// The keys that the game tells apart: the digit keys 1 to 9, and any other.
#[derive(Clone, Copy, PartialEq, Eq, Structural, Debug)]
pub enum Key {
    Key1,
    Key2,
    Key3,
    Key4,
    Key5,
    Key6,
    Key7,
    Key8,
    Key9,
    Other,
}

/// A key going down (`pressed`) or coming up.
#[derive(Clone, Copy, PartialEq, Eq, Structural, Debug)]
pub struct KeyInput {
    pub key: Key,
    pub pressed: bool,
}

/// The move that a digit key names: key 1 the top-left cell, on to key 9
/// the bottom-right one; other keys name none.
pub open spec fn play_of_key(key: Key) -> Option<Play> {
    match key {
        Key::Key1 => Some(Play::One),
        Key::Key2 => Some(Play::Two),
        Key::Key3 => Some(Play::Three),
        Key::Key4 => Some(Play::Four),
        Key::Key5 => Some(Play::Five),
        Key::Key6 => Some(Play::Six),
        Key::Key7 => Some(Play::Seven),
        Key::Key8 => Some(Play::Eight),
        Key::Key9 => Some(Play::Nine),
        Key::Other => None,
    }
}

/// The moves that a decoded key input adds to the queue: the move of a digit
/// key when it goes down, nothing otherwise.
pub open spec fn queued(input: Option<KeyInput>) -> Seq<Play> {
    match input {
        Some(KeyInput { key, pressed: true }) => match play_of_key(key) {
            Some(p) => seq![p],
            None => Seq::<Play>::empty(),
        },
        _ => Seq::<Play>::empty(),
    }
}

impl KeyDecoder {
    /// The prefix byte pending in the decoder, or 0.
    pub closed spec fn pending(&self) -> u8 {
        self.pending@
    }

    /// A fresh decoder: `pc_keyboard::Keyboard::new` with `ScancodeSet1::new()`,
    /// the `Us104Key` layout and `HandleControl::Ignore`. `ScancodeSet1::new`
    /// starts in its `Start` state: no prefix is pending.
    #[verifier::external_body]
    pub fn new() -> (d: Self)
        ensures
            d.pending() == 0,
    {
        let keyboard = Keyboard::new(ScancodeSet1::new(), Us104Key, HandleControl::Ignore);
        KeyDecoder { keyboard: Ps2Keyboard { keyboard }, pending: Ghost(0) }
    }

    /// Feeds one scancode byte to `pc_keyboard::Keyboard::add_byte` and
    /// reports the key event it completes, if any, with the digit keys 1 to 9
    /// told apart and `KeyState::Down` as pressed; decoding errors and
    /// incomplete sequences give `None`. As set 1's `advance_state` shows:
    /// with no prefix pending, 0xE0 and 0xE1 start an extended scancode and
    /// complete nothing; any byte after a prefix completes it; the digit keys
    /// come only from the one-byte codes 0x02 to 0x0A (down) and 0x82 to 0x8A
    /// (up), never from an extended scancode. Which other keys come back, and
    /// which bytes are errors, is left unsaid.
    #[verifier::external_body]
    fn decode(&mut self, scancode: u8) -> (r: Option<KeyInput>)
        ensures
            final(self).pending() == next_pending(old(self).pending(), scancode),
            old(self).pending() == 0 && (scancode == EXTENDED_PREFIX || scancode == EXTENDED2_PREFIX) ==> r is None,
            old(self).pending() == 0 && 0x02 <= scancode <= 0x0A ==> r == Some(
                KeyInput { key: digit_key(scancode as int), pressed: true },
            ),
            old(self).pending() == 0 && 0x82 <= scancode <= 0x8A ==> r == Some(
                KeyInput { key: digit_key(scancode - 0x80), pressed: false },
            ),
            !(old(self).pending() == 0 && (0x02 <= scancode <= 0x0A || 0x82 <= scancode <= 0x8A)) ==> (r matches Some(
                input,
            ) ==> input.key == Key::Other),
    {
        match self.keyboard.keyboard.add_byte(scancode) {
            Ok(Some(event)) => Some(KeyInput {
                key: match event.code {
                    KeyCode::Key1 => Key::Key1, KeyCode::Key2 => Key::Key2, KeyCode::Key3 => Key::Key3,
                    KeyCode::Key4 => Key::Key4, KeyCode::Key5 => Key::Key5, KeyCode::Key6 => Key::Key6,
                    KeyCode::Key7 => Key::Key7, KeyCode::Key8 => Key::Key8, KeyCode::Key9 => Key::Key9,
                    _ => Key::Other,
                },
                pressed: matches!(event.state, KeyState::Down),
            }),
            _ => None,
        }
    }
}

/// Digit key `n` (make code `n + 1`) picks board cell `n - 1`, with no
/// prefix pending; anything else picks nothing.
pub proof fn lemma_make_codes_pick_cells(pending: u8, scancode: u8)
    ensures
        pending == 0 && 0x02 <= scancode <= 0x0A ==> scancode_moves(pending, scancode).len() == 1
            && scancode_moves(pending, scancode)[0].cell() == scancode - 2,
        !(pending == 0 && 0x02 <= scancode <= 0x0A) ==> scancode_moves(pending, scancode).len() == 0,
{
}

/// The move that a key input makes: a digit key 1 to 9 going down picks
/// its cell; anything else makes no move.
pub fn play_for(input: KeyInput) -> (p: Option<Play>)
    ensures
        p == (if input.pressed {
            play_of_key(input.key)
        } else {
            None
        }),
{
    if input.pressed {
        match input.key {
            Key::Key1 => Some(Play::One),
            Key::Key2 => Some(Play::Two),
            Key::Key3 => Some(Play::Three),
            Key::Key4 => Some(Play::Four),
            Key::Key5 => Some(Play::Five),
            Key::Key6 => Some(Play::Six),
            Key::Key7 => Some(Play::Seven),
            Key::Key8 => Some(Play::Eight),
            Key::Key9 => Some(Play::Nine),
            Key::Other => None,
        }
    } else {
        None
    }
}

/// Adds the move that a decoded key input makes, if any, to the end of the
/// queue.
pub fn queue_input(event_queue: &mut Vec<Play>, input: Option<KeyInput>)
    ensures
        final(event_queue)@ == old(event_queue)@ + queued(input),
{
    if let Some(key_input) = input {
        if let Some(play) = play_for(key_input) {
            event_queue.push(play);
            return;
        }
    }
    assert(old(event_queue)@ + Seq::<Play>::empty() =~= old(event_queue)@);
}

/// Handles one byte from the keyboard: decodes it with `keyboard` and, when
/// it completes a digit key 1 to 9 going down, queues that key's move.
pub fn handle_keyboard_interrupt(keyboard: &mut KeyDecoder, event_queue: &mut Vec<Play>, scancode: u8)
    ensures
        final(keyboard).pending() == next_pending(old(keyboard).pending(), scancode),
        final(event_queue)@ == old(event_queue)@ + scancode_moves(old(keyboard).pending(), scancode),
{
    let input = keyboard.decode(scancode);
    queue_input(event_queue, input);
    assert(queued(input) =~= scancode_moves(old(keyboard).pending(), scancode));
}

} // verus!
