use tictactoe::game::event::Play;
use tictactoe::interrupts::keyboard::{handle_keyboard_interrupt, play_for, queue_input, Key, KeyDecoder, KeyInput};

#[test]
fn digit_keys_pressed_pick_their_cells() {
    let keys = [Key::Key1, Key::Key2, Key::Key3, Key::Key4, Key::Key5, Key::Key6, Key::Key7, Key::Key8, Key::Key9];
    let plays = [
        Play::One,
        Play::Two,
        Play::Three,
        Play::Four,
        Play::Five,
        Play::Six,
        Play::Seven,
        Play::Eight,
        Play::Nine,
    ];
    for (k, p) in keys.iter().zip(plays.iter()) {
        assert_eq!(play_for(KeyInput { key: *k, pressed: true }), Some(*p));
        assert_eq!(play_for(KeyInput { key: *k, pressed: false }), None);
    }
    assert_eq!(play_for(KeyInput { key: Key::Other, pressed: true }), None);
}

#[test]
fn queue_input_appends_only_moves() {
    let mut q = vec![Play::Two];
    queue_input(&mut q, Some(KeyInput { key: Key::Key7, pressed: true }));
    assert_eq!(q, vec![Play::Two, Play::Seven]);
    queue_input(&mut q, Some(KeyInput { key: Key::Key7, pressed: false }));
    queue_input(&mut q, Some(KeyInput { key: Key::Other, pressed: true }));
    queue_input(&mut q, None);
    assert_eq!(q, vec![Play::Two, Play::Seven]);
}

#[test]
fn scancodes_of_digit_keys_queue_moves() {
    let mut kb = KeyDecoder::new();
    let mut q = Vec::new();
    // make code of key 1, then its break code
    handle_keyboard_interrupt(&mut kb, &mut q, 0x02);
    handle_keyboard_interrupt(&mut kb, &mut q, 0x82);
    assert_eq!(q, vec![Play::One]);
    // key 9 down
    handle_keyboard_interrupt(&mut kb, &mut q, 0x0A);
    assert_eq!(q, vec![Play::One, Play::Nine]);
    // key 0 and key A do not name cells
    handle_keyboard_interrupt(&mut kb, &mut q, 0x0B);
    handle_keyboard_interrupt(&mut kb, &mut q, 0x1E);
    assert_eq!(q, vec![Play::One, Play::Nine]);
}

#[test]
fn extended_scancodes_do_not_queue_moves() {
    let mut kb = KeyDecoder::new();
    let mut q = Vec::new();
    // 0xE0 0x1D is the right control key; 0x02 afterwards is key 1 again
    handle_keyboard_interrupt(&mut kb, &mut q, 0xE0);
    handle_keyboard_interrupt(&mut kb, &mut q, 0x1D);
    assert!(q.is_empty());
    handle_keyboard_interrupt(&mut kb, &mut q, 0x02);
    assert_eq!(q, vec![Play::One]);
}

#[test]
fn every_digit_make_code_queues_its_move() {
    let plays = [
        Play::One,
        Play::Two,
        Play::Three,
        Play::Four,
        Play::Five,
        Play::Six,
        Play::Seven,
        Play::Eight,
        Play::Nine,
    ];
    for (i, p) in plays.iter().enumerate() {
        let mut kb = KeyDecoder::new();
        let mut q = vec![Play::Five];
        handle_keyboard_interrupt(&mut kb, &mut q, 0x02 + i as u8);
        assert_eq!(q, vec![Play::Five, *p]);
    }
}

#[test]
fn only_digit_make_codes_queue_moves() {
    let mut kb = KeyDecoder::new();
    let mut q = Vec::new();
    for code in 0u8..=0xff {
        if code == 0xE0 || code == 0xE1 || (0x02..=0x0A).contains(&code) {
            continue;
        }
        handle_keyboard_interrupt(&mut kb, &mut q, code);
    }
    assert!(q.is_empty());
}

#[test]
fn a_digit_code_after_a_prefix_is_not_a_move() {
    let mut kb = KeyDecoder::new();
    let mut q = Vec::new();
    handle_keyboard_interrupt(&mut kb, &mut q, 0xE1);
    handle_keyboard_interrupt(&mut kb, &mut q, 0x05);
    assert!(q.is_empty());
    handle_keyboard_interrupt(&mut kb, &mut q, 0x05);
    assert_eq!(q, vec![Play::Four]);
}
