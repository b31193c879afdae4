use ruffle::keyboard::{winit_key_to_char, winit_to_ruffle_key_code, KeyCode, VirtualKeyCode};

#[test]
fn keys_report_their_flash_key_codes() {
    assert_eq!(winit_to_ruffle_key_code(VirtualKeyCode::Back), KeyCode::Backspace);
    assert_eq!(winit_to_ruffle_key_code(VirtualKeyCode::LShift), KeyCode::Shift);
    assert_eq!(winit_to_ruffle_key_code(VirtualKeyCode::RShift), KeyCode::Shift);
    assert_eq!(winit_to_ruffle_key_code(VirtualKeyCode::RControl), KeyCode::Control);
    assert_eq!(winit_to_ruffle_key_code(VirtualKeyCode::Capital), KeyCode::CapsLock);
    assert_eq!(winit_to_ruffle_key_code(VirtualKeyCode::Q), KeyCode::Q);
    assert_eq!(winit_to_ruffle_key_code(VirtualKeyCode::NumpadAdd), KeyCode::Plus);
    assert_eq!(winit_to_ruffle_key_code(VirtualKeyCode::NumpadSubtract), KeyCode::NumpadMinus);
    assert_eq!(winit_to_ruffle_key_code(VirtualKeyCode::PageDown), KeyCode::PgDown);
    assert_eq!(winit_to_ruffle_key_code(VirtualKeyCode::Scroll), KeyCode::ScrollLock);
    assert_eq!(winit_to_ruffle_key_code(VirtualKeyCode::F12), KeyCode::F12);
}

#[test]
fn keys_without_a_flash_key_code_are_unknown() {
    assert_eq!(winit_to_ruffle_key_code(VirtualKeyCode::NumpadEnter), KeyCode::Unknown);
    assert_eq!(winit_to_ruffle_key_code(VirtualKeyCode::Other), KeyCode::Unknown);
}

#[test]
fn letters_follow_the_shift_key() {
    assert_eq!(winit_key_to_char(VirtualKeyCode::A, false), Some('a'));
    assert_eq!(winit_key_to_char(VirtualKeyCode::A, true), Some('A'));
    assert_eq!(winit_key_to_char(VirtualKeyCode::Z, false), Some('z'));
    assert_eq!(winit_key_to_char(VirtualKeyCode::Z, true), Some('Z'));
}

#[test]
fn symbols_follow_the_us_layout() {
    assert_eq!(winit_key_to_char(VirtualKeyCode::Key7, true), Some('7'));
    assert_eq!(winit_key_to_char(VirtualKeyCode::Semicolon, true), Some(':'));
    assert_eq!(winit_key_to_char(VirtualKeyCode::Backslash, false), Some('\\'));
    assert_eq!(winit_key_to_char(VirtualKeyCode::Apostrophe, false), Some('\''));
    assert_eq!(winit_key_to_char(VirtualKeyCode::Apostrophe, true), Some('"'));
    assert_eq!(winit_key_to_char(VirtualKeyCode::NumpadDivide, true), Some('/'));
}

#[test]
fn control_keys_type_control_characters() {
    assert_eq!(winit_key_to_char(VirtualKeyCode::Return, false), Some('\r'));
    assert_eq!(winit_key_to_char(VirtualKeyCode::NumpadEnter, true), Some('\r'));
    assert_eq!(winit_key_to_char(VirtualKeyCode::Tab, false), Some('\t'));
    assert_eq!(winit_key_to_char(VirtualKeyCode::Back, false), Some('\u{8}'));
}

#[test]
fn keys_that_type_nothing() {
    assert_eq!(winit_key_to_char(VirtualKeyCode::Numpad4, true), None);
    assert_eq!(winit_key_to_char(VirtualKeyCode::Numpad4, false), Some('4'));
    assert_eq!(winit_key_to_char(VirtualKeyCode::Escape, false), None);
    assert_eq!(winit_key_to_char(VirtualKeyCode::F1, true), None);
    assert_eq!(winit_key_to_char(VirtualKeyCode::Other, false), None);
}

use ruffle::keyboard::{winit_to_ruffle_text_control, ModifiersState, TextControlCode};

fn mods(shift: bool, ctrl: bool, logo: bool) -> ModifiersState {
    ModifiersState { shift, ctrl, alt: false, logo }
}

#[test]
fn control_shortcuts_edit_the_clipboard() {
    let ctrl = mods(false, true, false);
    assert_eq!(winit_to_ruffle_text_control(VirtualKeyCode::A, ctrl, false), Some(TextControlCode::SelectAll));
    assert_eq!(winit_to_ruffle_text_control(VirtualKeyCode::C, ctrl, false), Some(TextControlCode::Copy));
    assert_eq!(winit_to_ruffle_text_control(VirtualKeyCode::V, ctrl, true), Some(TextControlCode::Paste));
    assert_eq!(winit_to_ruffle_text_control(VirtualKeyCode::X, ctrl, false), Some(TextControlCode::Cut));
    assert_eq!(winit_to_ruffle_text_control(VirtualKeyCode::Left, ctrl, false), None);
}

#[test]
fn the_logo_key_is_control_only_on_macos() {
    let logo = mods(false, false, true);
    assert_eq!(winit_to_ruffle_text_control(VirtualKeyCode::C, logo, true), Some(TextControlCode::Copy));
    assert_eq!(winit_to_ruffle_text_control(VirtualKeyCode::C, logo, false), None);
    assert_eq!(winit_to_ruffle_text_control(VirtualKeyCode::Back, logo, false), Some(TextControlCode::Backspace));
}

#[test]
fn arrows_move_or_select() {
    assert_eq!(winit_to_ruffle_text_control(VirtualKeyCode::Left, mods(false, false, false), false), Some(TextControlCode::MoveLeft));
    assert_eq!(winit_to_ruffle_text_control(VirtualKeyCode::Left, mods(true, false, false), false), Some(TextControlCode::SelectLeft));
    assert_eq!(winit_to_ruffle_text_control(VirtualKeyCode::Right, mods(false, false, false), false), Some(TextControlCode::MoveRight));
    assert_eq!(winit_to_ruffle_text_control(VirtualKeyCode::Right, mods(true, false, false), false), Some(TextControlCode::SelectRight));
    assert_eq!(winit_to_ruffle_text_control(VirtualKeyCode::Delete, mods(true, false, false), false), Some(TextControlCode::Delete));
    assert_eq!(winit_to_ruffle_text_control(VirtualKeyCode::A, mods(false, false, false), false), None);
}
