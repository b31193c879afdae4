//! The keys of the desktop player's keyboard, and the Flash key code and
//! character that each of them stands for.

use vstd::prelude::*;

verus! {

/// A key of the keyboard, by its place on a US layout. `Other` is any key
/// that the player neither sends to Flash nor types with.
#[derive(Clone, Copy, Debug, PartialEq, Eq, Structural)]
pub enum VirtualKeyCode {
    Back,
    Tab,
    Return,
    LShift,
    RShift,
    LControl,
    RControl,
    LAlt,
    RAlt,
    Capital,
    Escape,
    Space,
    Key0,
    Key1,
    Key2,
    Key3,
    Key4,
    Key5,
    Key6,
    Key7,
    Key8,
    Key9,
    A,
    B,
    C,
    D,
    E,
    F,
    G,
    H,
    I,
    J,
    K,
    L,
    M,
    N,
    O,
    P,
    Q,
    R,
    S,
    T,
    U,
    V,
    W,
    X,
    Y,
    Z,
    Semicolon,
    Equals,
    Comma,
    Minus,
    Period,
    Slash,
    Grave,
    LBracket,
    Backslash,
    RBracket,
    Apostrophe,
    Numpad0,
    Numpad1,
    Numpad2,
    Numpad3,
    Numpad4,
    Numpad5,
    Numpad6,
    Numpad7,
    Numpad8,
    Numpad9,
    NumpadMultiply,
    NumpadAdd,
    NumpadSubtract,
    NumpadDecimal,
    NumpadDivide,
    PageUp,
    PageDown,
    End,
    Home,
    Left,
    Up,
    Right,
    Down,
    Insert,
    Delete,
    Pause,
    Scroll,
    F1,
    F2,
    F3,
    F4,
    F5,
    F6,
    F7,
    F8,
    F9,
    F10,
    F11,
    F12,
    NumpadEnter,
    Other,
}

/// A Flash key code: the key that a keyboard event reports to the movie.
#[derive(Clone, Copy, Debug, PartialEq, Eq, Structural)]
pub enum KeyCode {
    Unknown,
    Backspace,
    Tab,
    Return,
    Shift,
    Control,
    Alt,
    CapsLock,
    Escape,
    Space,
    Key0,
    Key1,
    Key2,
    Key3,
    Key4,
    Key5,
    Key6,
    Key7,
    Key8,
    Key9,
    A,
    B,
    C,
    D,
    E,
    F,
    G,
    H,
    I,
    J,
    K,
    L,
    M,
    N,
    O,
    P,
    Q,
    R,
    S,
    T,
    U,
    V,
    W,
    X,
    Y,
    Z,
    Semicolon,
    Equals,
    Comma,
    Minus,
    Period,
    Slash,
    Grave,
    LBracket,
    Backslash,
    RBracket,
    Apostrophe,
    Numpad0,
    Numpad1,
    Numpad2,
    Numpad3,
    Numpad4,
    Numpad5,
    Numpad6,
    Numpad7,
    Numpad8,
    Numpad9,
    Multiply,
    Plus,
    NumpadMinus,
    NumpadPeriod,
    NumpadSlash,
    PgUp,
    PgDown,
    End,
    Home,
    Left,
    Up,
    Right,
    Down,
    Insert,
    Delete,
    Pause,
    ScrollLock,
    F1,
    F2,
    F3,
    F4,
    F5,
    F6,
    F7,
    F8,
    F9,
    F10,
    F11,
    F12,
}

/// The Flash key code of each key; `Unknown` where Flash has none.
pub open spec fn flash_key_code(key: VirtualKeyCode) -> KeyCode {
    match key {
        VirtualKeyCode::Back => KeyCode::Backspace,
        VirtualKeyCode::Tab => KeyCode::Tab,
        VirtualKeyCode::Return => KeyCode::Return,
        VirtualKeyCode::LShift | VirtualKeyCode::RShift => KeyCode::Shift,
        VirtualKeyCode::LControl | VirtualKeyCode::RControl => KeyCode::Control,
        VirtualKeyCode::LAlt | VirtualKeyCode::RAlt => KeyCode::Alt,
        VirtualKeyCode::Capital => KeyCode::CapsLock,
        VirtualKeyCode::Escape => KeyCode::Escape,
        VirtualKeyCode::Space => KeyCode::Space,
        VirtualKeyCode::Key0 => KeyCode::Key0,
        VirtualKeyCode::Key1 => KeyCode::Key1,
        VirtualKeyCode::Key2 => KeyCode::Key2,
        VirtualKeyCode::Key3 => KeyCode::Key3,
        VirtualKeyCode::Key4 => KeyCode::Key4,
        VirtualKeyCode::Key5 => KeyCode::Key5,
        VirtualKeyCode::Key6 => KeyCode::Key6,
        VirtualKeyCode::Key7 => KeyCode::Key7,
        VirtualKeyCode::Key8 => KeyCode::Key8,
        VirtualKeyCode::Key9 => KeyCode::Key9,
        VirtualKeyCode::A => KeyCode::A,
        VirtualKeyCode::B => KeyCode::B,
        VirtualKeyCode::C => KeyCode::C,
        VirtualKeyCode::D => KeyCode::D,
        VirtualKeyCode::E => KeyCode::E,
        VirtualKeyCode::F => KeyCode::F,
        VirtualKeyCode::G => KeyCode::G,
        VirtualKeyCode::H => KeyCode::H,
        VirtualKeyCode::I => KeyCode::I,
        VirtualKeyCode::J => KeyCode::J,
        VirtualKeyCode::K => KeyCode::K,
        VirtualKeyCode::L => KeyCode::L,
        VirtualKeyCode::M => KeyCode::M,
        VirtualKeyCode::N => KeyCode::N,
        VirtualKeyCode::O => KeyCode::O,
        VirtualKeyCode::P => KeyCode::P,
        VirtualKeyCode::Q => KeyCode::Q,
        VirtualKeyCode::R => KeyCode::R,
        VirtualKeyCode::S => KeyCode::S,
        VirtualKeyCode::T => KeyCode::T,
        VirtualKeyCode::U => KeyCode::U,
        VirtualKeyCode::V => KeyCode::V,
        VirtualKeyCode::W => KeyCode::W,
        VirtualKeyCode::X => KeyCode::X,
        VirtualKeyCode::Y => KeyCode::Y,
        VirtualKeyCode::Z => KeyCode::Z,
        VirtualKeyCode::Semicolon => KeyCode::Semicolon,
        VirtualKeyCode::Equals => KeyCode::Equals,
        VirtualKeyCode::Comma => KeyCode::Comma,
        VirtualKeyCode::Minus => KeyCode::Minus,
        VirtualKeyCode::Period => KeyCode::Period,
        VirtualKeyCode::Slash => KeyCode::Slash,
        VirtualKeyCode::Grave => KeyCode::Grave,
        VirtualKeyCode::LBracket => KeyCode::LBracket,
        VirtualKeyCode::Backslash => KeyCode::Backslash,
        VirtualKeyCode::RBracket => KeyCode::RBracket,
        VirtualKeyCode::Apostrophe => KeyCode::Apostrophe,
        VirtualKeyCode::Numpad0 => KeyCode::Numpad0,
        VirtualKeyCode::Numpad1 => KeyCode::Numpad1,
        VirtualKeyCode::Numpad2 => KeyCode::Numpad2,
        VirtualKeyCode::Numpad3 => KeyCode::Numpad3,
        VirtualKeyCode::Numpad4 => KeyCode::Numpad4,
        VirtualKeyCode::Numpad5 => KeyCode::Numpad5,
        VirtualKeyCode::Numpad6 => KeyCode::Numpad6,
        VirtualKeyCode::Numpad7 => KeyCode::Numpad7,
        VirtualKeyCode::Numpad8 => KeyCode::Numpad8,
        VirtualKeyCode::Numpad9 => KeyCode::Numpad9,
        VirtualKeyCode::NumpadMultiply => KeyCode::Multiply,
        VirtualKeyCode::NumpadAdd => KeyCode::Plus,
        VirtualKeyCode::NumpadSubtract => KeyCode::NumpadMinus,
        VirtualKeyCode::NumpadDecimal => KeyCode::NumpadPeriod,
        VirtualKeyCode::NumpadDivide => KeyCode::NumpadSlash,
        VirtualKeyCode::PageUp => KeyCode::PgUp,
        VirtualKeyCode::PageDown => KeyCode::PgDown,
        VirtualKeyCode::End => KeyCode::End,
        VirtualKeyCode::Home => KeyCode::Home,
        VirtualKeyCode::Left => KeyCode::Left,
        VirtualKeyCode::Up => KeyCode::Up,
        VirtualKeyCode::Right => KeyCode::Right,
        VirtualKeyCode::Down => KeyCode::Down,
        VirtualKeyCode::Insert => KeyCode::Insert,
        VirtualKeyCode::Delete => KeyCode::Delete,
        VirtualKeyCode::Pause => KeyCode::Pause,
        VirtualKeyCode::Scroll => KeyCode::ScrollLock,
        VirtualKeyCode::F1 => KeyCode::F1,
        VirtualKeyCode::F2 => KeyCode::F2,
        VirtualKeyCode::F3 => KeyCode::F3,
        VirtualKeyCode::F4 => KeyCode::F4,
        VirtualKeyCode::F5 => KeyCode::F5,
        VirtualKeyCode::F6 => KeyCode::F6,
        VirtualKeyCode::F7 => KeyCode::F7,
        VirtualKeyCode::F8 => KeyCode::F8,
        VirtualKeyCode::F9 => KeyCode::F9,
        VirtualKeyCode::F10 => KeyCode::F10,
        VirtualKeyCode::F11 => KeyCode::F11,
        VirtualKeyCode::F12 => KeyCode::F12,
        _ => KeyCode::Unknown,
    }
}

/// The character that a key types, with or without shift held, on a US
/// layout; `None` for a key that types nothing.
pub open spec fn key_char(key: VirtualKeyCode, shift: bool) -> Option<char> {
    match (key, shift) {
        (VirtualKeyCode::Space, _) => Some(' '),
        (VirtualKeyCode::Key0, _) => Some('0'),
        (VirtualKeyCode::Key1, _) => Some('1'),
        (VirtualKeyCode::Key2, _) => Some('2'),
        (VirtualKeyCode::Key3, _) => Some('3'),
        (VirtualKeyCode::Key4, _) => Some('4'),
        (VirtualKeyCode::Key5, _) => Some('5'),
        (VirtualKeyCode::Key6, _) => Some('6'),
        (VirtualKeyCode::Key7, _) => Some('7'),
        (VirtualKeyCode::Key8, _) => Some('8'),
        (VirtualKeyCode::Key9, _) => Some('9'),
        (VirtualKeyCode::A, false) => Some('a'),
        (VirtualKeyCode::A, true) => Some('A'),
        (VirtualKeyCode::B, false) => Some('b'),
        (VirtualKeyCode::B, true) => Some('B'),
        (VirtualKeyCode::C, false) => Some('c'),
        (VirtualKeyCode::C, true) => Some('C'),
        (VirtualKeyCode::D, false) => Some('d'),
        (VirtualKeyCode::D, true) => Some('D'),
        (VirtualKeyCode::E, false) => Some('e'),
        (VirtualKeyCode::E, true) => Some('E'),
        (VirtualKeyCode::F, false) => Some('f'),
        (VirtualKeyCode::F, true) => Some('F'),
        (VirtualKeyCode::G, false) => Some('g'),
        (VirtualKeyCode::G, true) => Some('G'),
        (VirtualKeyCode::H, false) => Some('h'),
        (VirtualKeyCode::H, true) => Some('H'),
        (VirtualKeyCode::I, false) => Some('i'),
        (VirtualKeyCode::I, true) => Some('I'),
        (VirtualKeyCode::J, false) => Some('j'),
        (VirtualKeyCode::J, true) => Some('J'),
        (VirtualKeyCode::K, false) => Some('k'),
        (VirtualKeyCode::K, true) => Some('K'),
        (VirtualKeyCode::L, false) => Some('l'),
        (VirtualKeyCode::L, true) => Some('L'),
        (VirtualKeyCode::M, false) => Some('m'),
        (VirtualKeyCode::M, true) => Some('M'),
        (VirtualKeyCode::N, false) => Some('n'),
        (VirtualKeyCode::N, true) => Some('N'),
        (VirtualKeyCode::O, false) => Some('o'),
        (VirtualKeyCode::O, true) => Some('O'),
        (VirtualKeyCode::P, false) => Some('p'),
        (VirtualKeyCode::P, true) => Some('P'),
        (VirtualKeyCode::Q, false) => Some('q'),
        (VirtualKeyCode::Q, true) => Some('Q'),
        (VirtualKeyCode::R, false) => Some('r'),
        (VirtualKeyCode::R, true) => Some('R'),
        (VirtualKeyCode::S, false) => Some('s'),
        (VirtualKeyCode::S, true) => Some('S'),
        (VirtualKeyCode::T, false) => Some('t'),
        (VirtualKeyCode::T, true) => Some('T'),
        (VirtualKeyCode::U, false) => Some('u'),
        (VirtualKeyCode::U, true) => Some('U'),
        (VirtualKeyCode::V, false) => Some('v'),
        (VirtualKeyCode::V, true) => Some('V'),
        (VirtualKeyCode::W, false) => Some('w'),
        (VirtualKeyCode::W, true) => Some('W'),
        (VirtualKeyCode::X, false) => Some('x'),
        (VirtualKeyCode::X, true) => Some('X'),
        (VirtualKeyCode::Y, false) => Some('y'),
        (VirtualKeyCode::Y, true) => Some('Y'),
        (VirtualKeyCode::Z, false) => Some('z'),
        (VirtualKeyCode::Z, true) => Some('Z'),
        (VirtualKeyCode::Semicolon, false) => Some(';'),
        (VirtualKeyCode::Semicolon, true) => Some(':'),
        (VirtualKeyCode::Equals, false) => Some('='),
        (VirtualKeyCode::Equals, true) => Some('+'),
        (VirtualKeyCode::Comma, false) => Some(','),
        (VirtualKeyCode::Comma, true) => Some('<'),
        (VirtualKeyCode::Minus, false) => Some('-'),
        (VirtualKeyCode::Minus, true) => Some('_'),
        (VirtualKeyCode::Period, false) => Some('.'),
        (VirtualKeyCode::Period, true) => Some('>'),
        (VirtualKeyCode::Slash, false) => Some('/'),
        (VirtualKeyCode::Slash, true) => Some('?'),
        (VirtualKeyCode::Grave, false) => Some('`'),
        (VirtualKeyCode::Grave, true) => Some('~'),
        (VirtualKeyCode::LBracket, false) => Some('['),
        (VirtualKeyCode::LBracket, true) => Some('{'),
        (VirtualKeyCode::Backslash, false) => Some('\\'),
        (VirtualKeyCode::Backslash, true) => Some('|'),
        (VirtualKeyCode::RBracket, false) => Some(']'),
        (VirtualKeyCode::RBracket, true) => Some('}'),
        (VirtualKeyCode::Apostrophe, false) => Some('\''),
        (VirtualKeyCode::Apostrophe, true) => Some('"'),
        (VirtualKeyCode::NumpadMultiply, _) => Some('*'),
        (VirtualKeyCode::NumpadAdd, _) => Some('+'),
        (VirtualKeyCode::NumpadSubtract, _) => Some('-'),
        (VirtualKeyCode::NumpadDecimal, _) => Some('.'),
        (VirtualKeyCode::NumpadDivide, _) => Some('/'),
        (VirtualKeyCode::Numpad0, false) => Some('0'),
        (VirtualKeyCode::Numpad1, false) => Some('1'),
        (VirtualKeyCode::Numpad2, false) => Some('2'),
        (VirtualKeyCode::Numpad3, false) => Some('3'),
        (VirtualKeyCode::Numpad4, false) => Some('4'),
        (VirtualKeyCode::Numpad5, false) => Some('5'),
        (VirtualKeyCode::Numpad6, false) => Some('6'),
        (VirtualKeyCode::Numpad7, false) => Some('7'),
        (VirtualKeyCode::Numpad8, false) => Some('8'),
        (VirtualKeyCode::Numpad9, false) => Some('9'),
        (VirtualKeyCode::NumpadEnter, _) => Some('\r'),
        (VirtualKeyCode::Tab, _) => Some('\t'),
        (VirtualKeyCode::Return, _) => Some('\r'),
        (VirtualKeyCode::Back, _) => Some('\u{0008}'),
        _ => None,
    }
}

/// Converts a keyboard key into the Flash key code it reports, or
/// `KeyCode::Unknown` where there is no matching Flash key code.
pub fn winit_to_ruffle_key_code(key_code: VirtualKeyCode) -> (r: KeyCode)
    ensures
        r == flash_key_code(key_code),
{
    match key_code {
        VirtualKeyCode::Back => KeyCode::Backspace,
        VirtualKeyCode::Tab => KeyCode::Tab,
        VirtualKeyCode::Return => KeyCode::Return,
        VirtualKeyCode::LShift | VirtualKeyCode::RShift => KeyCode::Shift,
        VirtualKeyCode::LControl | VirtualKeyCode::RControl => KeyCode::Control,
        VirtualKeyCode::LAlt | VirtualKeyCode::RAlt => KeyCode::Alt,
        VirtualKeyCode::Capital => KeyCode::CapsLock,
        VirtualKeyCode::Escape => KeyCode::Escape,
        VirtualKeyCode::Space => KeyCode::Space,
        VirtualKeyCode::Key0 => KeyCode::Key0,
        VirtualKeyCode::Key1 => KeyCode::Key1,
        VirtualKeyCode::Key2 => KeyCode::Key2,
        VirtualKeyCode::Key3 => KeyCode::Key3,
        VirtualKeyCode::Key4 => KeyCode::Key4,
        VirtualKeyCode::Key5 => KeyCode::Key5,
        VirtualKeyCode::Key6 => KeyCode::Key6,
        VirtualKeyCode::Key7 => KeyCode::Key7,
        VirtualKeyCode::Key8 => KeyCode::Key8,
        VirtualKeyCode::Key9 => KeyCode::Key9,
        VirtualKeyCode::A => KeyCode::A,
        VirtualKeyCode::B => KeyCode::B,
        VirtualKeyCode::C => KeyCode::C,
        VirtualKeyCode::D => KeyCode::D,
        VirtualKeyCode::E => KeyCode::E,
        VirtualKeyCode::F => KeyCode::F,
        VirtualKeyCode::G => KeyCode::G,
        VirtualKeyCode::H => KeyCode::H,
        VirtualKeyCode::I => KeyCode::I,
        VirtualKeyCode::J => KeyCode::J,
        VirtualKeyCode::K => KeyCode::K,
        VirtualKeyCode::L => KeyCode::L,
        VirtualKeyCode::M => KeyCode::M,
        VirtualKeyCode::N => KeyCode::N,
        VirtualKeyCode::O => KeyCode::O,
        VirtualKeyCode::P => KeyCode::P,
        VirtualKeyCode::Q => KeyCode::Q,
        VirtualKeyCode::R => KeyCode::R,
        VirtualKeyCode::S => KeyCode::S,
        VirtualKeyCode::T => KeyCode::T,
        VirtualKeyCode::U => KeyCode::U,
        VirtualKeyCode::V => KeyCode::V,
        VirtualKeyCode::W => KeyCode::W,
        VirtualKeyCode::X => KeyCode::X,
        VirtualKeyCode::Y => KeyCode::Y,
        VirtualKeyCode::Z => KeyCode::Z,
        VirtualKeyCode::Semicolon => KeyCode::Semicolon,
        VirtualKeyCode::Equals => KeyCode::Equals,
        VirtualKeyCode::Comma => KeyCode::Comma,
        VirtualKeyCode::Minus => KeyCode::Minus,
        VirtualKeyCode::Period => KeyCode::Period,
        VirtualKeyCode::Slash => KeyCode::Slash,
        VirtualKeyCode::Grave => KeyCode::Grave,
        VirtualKeyCode::LBracket => KeyCode::LBracket,
        VirtualKeyCode::Backslash => KeyCode::Backslash,
        VirtualKeyCode::RBracket => KeyCode::RBracket,
        VirtualKeyCode::Apostrophe => KeyCode::Apostrophe,
        VirtualKeyCode::Numpad0 => KeyCode::Numpad0,
        VirtualKeyCode::Numpad1 => KeyCode::Numpad1,
        VirtualKeyCode::Numpad2 => KeyCode::Numpad2,
        VirtualKeyCode::Numpad3 => KeyCode::Numpad3,
        VirtualKeyCode::Numpad4 => KeyCode::Numpad4,
        VirtualKeyCode::Numpad5 => KeyCode::Numpad5,
        VirtualKeyCode::Numpad6 => KeyCode::Numpad6,
        VirtualKeyCode::Numpad7 => KeyCode::Numpad7,
        VirtualKeyCode::Numpad8 => KeyCode::Numpad8,
        VirtualKeyCode::Numpad9 => KeyCode::Numpad9,
        VirtualKeyCode::NumpadMultiply => KeyCode::Multiply,
        VirtualKeyCode::NumpadAdd => KeyCode::Plus,
        VirtualKeyCode::NumpadSubtract => KeyCode::NumpadMinus,
        VirtualKeyCode::NumpadDecimal => KeyCode::NumpadPeriod,
        VirtualKeyCode::NumpadDivide => KeyCode::NumpadSlash,
        VirtualKeyCode::PageUp => KeyCode::PgUp,
        VirtualKeyCode::PageDown => KeyCode::PgDown,
        VirtualKeyCode::End => KeyCode::End,
        VirtualKeyCode::Home => KeyCode::Home,
        VirtualKeyCode::Left => KeyCode::Left,
        VirtualKeyCode::Up => KeyCode::Up,
        VirtualKeyCode::Right => KeyCode::Right,
        VirtualKeyCode::Down => KeyCode::Down,
        VirtualKeyCode::Insert => KeyCode::Insert,
        VirtualKeyCode::Delete => KeyCode::Delete,
        VirtualKeyCode::Pause => KeyCode::Pause,
        VirtualKeyCode::Scroll => KeyCode::ScrollLock,
        VirtualKeyCode::F1 => KeyCode::F1,
        VirtualKeyCode::F2 => KeyCode::F2,
        VirtualKeyCode::F3 => KeyCode::F3,
        VirtualKeyCode::F4 => KeyCode::F4,
        VirtualKeyCode::F5 => KeyCode::F5,
        VirtualKeyCode::F6 => KeyCode::F6,
        VirtualKeyCode::F7 => KeyCode::F7,
        VirtualKeyCode::F8 => KeyCode::F8,
        VirtualKeyCode::F9 => KeyCode::F9,
        VirtualKeyCode::F10 => KeyCode::F10,
        VirtualKeyCode::F11 => KeyCode::F11,
        VirtualKeyCode::F12 => KeyCode::F12,
        _ => KeyCode::Unknown,
    }
}

/// The character that a key types for the given shift state, so that key
/// up and key down events can both carry it; `None` for a key that types
/// nothing.
pub fn winit_key_to_char(key_code: VirtualKeyCode, is_shift_down: bool) -> (r: Option<char>)
    ensures
        r == key_char(key_code, is_shift_down),
{
    match (key_code, is_shift_down) {
        (VirtualKeyCode::Space, _) => Some(' '),
        (VirtualKeyCode::Key0, _) => Some('0'),
        (VirtualKeyCode::Key1, _) => Some('1'),
        (VirtualKeyCode::Key2, _) => Some('2'),
        (VirtualKeyCode::Key3, _) => Some('3'),
        (VirtualKeyCode::Key4, _) => Some('4'),
        (VirtualKeyCode::Key5, _) => Some('5'),
        (VirtualKeyCode::Key6, _) => Some('6'),
        (VirtualKeyCode::Key7, _) => Some('7'),
        (VirtualKeyCode::Key8, _) => Some('8'),
        (VirtualKeyCode::Key9, _) => Some('9'),
        (VirtualKeyCode::A, false) => Some('a'),
        (VirtualKeyCode::A, true) => Some('A'),
        (VirtualKeyCode::B, false) => Some('b'),
        (VirtualKeyCode::B, true) => Some('B'),
        (VirtualKeyCode::C, false) => Some('c'),
        (VirtualKeyCode::C, true) => Some('C'),
        (VirtualKeyCode::D, false) => Some('d'),
        (VirtualKeyCode::D, true) => Some('D'),
        (VirtualKeyCode::E, false) => Some('e'),
        (VirtualKeyCode::E, true) => Some('E'),
        (VirtualKeyCode::F, false) => Some('f'),
        (VirtualKeyCode::F, true) => Some('F'),
        (VirtualKeyCode::G, false) => Some('g'),
        (VirtualKeyCode::G, true) => Some('G'),
        (VirtualKeyCode::H, false) => Some('h'),
        (VirtualKeyCode::H, true) => Some('H'),
        (VirtualKeyCode::I, false) => Some('i'),
        (VirtualKeyCode::I, true) => Some('I'),
        (VirtualKeyCode::J, false) => Some('j'),
        (VirtualKeyCode::J, true) => Some('J'),
        (VirtualKeyCode::K, false) => Some('k'),
        (VirtualKeyCode::K, true) => Some('K'),
        (VirtualKeyCode::L, false) => Some('l'),
        (VirtualKeyCode::L, true) => Some('L'),
        (VirtualKeyCode::M, false) => Some('m'),
        (VirtualKeyCode::M, true) => Some('M'),
        (VirtualKeyCode::N, false) => Some('n'),
        (VirtualKeyCode::N, true) => Some('N'),
        (VirtualKeyCode::O, false) => Some('o'),
        (VirtualKeyCode::O, true) => Some('O'),
        (VirtualKeyCode::P, false) => Some('p'),
        (VirtualKeyCode::P, true) => Some('P'),
        (VirtualKeyCode::Q, false) => Some('q'),
        (VirtualKeyCode::Q, true) => Some('Q'),
        (VirtualKeyCode::R, false) => Some('r'),
        (VirtualKeyCode::R, true) => Some('R'),
        (VirtualKeyCode::S, false) => Some('s'),
        (VirtualKeyCode::S, true) => Some('S'),
        (VirtualKeyCode::T, false) => Some('t'),
        (VirtualKeyCode::T, true) => Some('T'),
        (VirtualKeyCode::U, false) => Some('u'),
        (VirtualKeyCode::U, true) => Some('U'),
        (VirtualKeyCode::V, false) => Some('v'),
        (VirtualKeyCode::V, true) => Some('V'),
        (VirtualKeyCode::W, false) => Some('w'),
        (VirtualKeyCode::W, true) => Some('W'),
        (VirtualKeyCode::X, false) => Some('x'),
        (VirtualKeyCode::X, true) => Some('X'),
        (VirtualKeyCode::Y, false) => Some('y'),
        (VirtualKeyCode::Y, true) => Some('Y'),
        (VirtualKeyCode::Z, false) => Some('z'),
        (VirtualKeyCode::Z, true) => Some('Z'),
        (VirtualKeyCode::Semicolon, false) => Some(';'),
        (VirtualKeyCode::Semicolon, true) => Some(':'),
        (VirtualKeyCode::Equals, false) => Some('='),
        (VirtualKeyCode::Equals, true) => Some('+'),
        (VirtualKeyCode::Comma, false) => Some(','),
        (VirtualKeyCode::Comma, true) => Some('<'),
        (VirtualKeyCode::Minus, false) => Some('-'),
        (VirtualKeyCode::Minus, true) => Some('_'),
        (VirtualKeyCode::Period, false) => Some('.'),
        (VirtualKeyCode::Period, true) => Some('>'),
        (VirtualKeyCode::Slash, false) => Some('/'),
        (VirtualKeyCode::Slash, true) => Some('?'),
        (VirtualKeyCode::Grave, false) => Some('`'),
        (VirtualKeyCode::Grave, true) => Some('~'),
        (VirtualKeyCode::LBracket, false) => Some('['),
        (VirtualKeyCode::LBracket, true) => Some('{'),
        (VirtualKeyCode::Backslash, false) => Some('\\'),
        (VirtualKeyCode::Backslash, true) => Some('|'),
        (VirtualKeyCode::RBracket, false) => Some(']'),
        (VirtualKeyCode::RBracket, true) => Some('}'),
        (VirtualKeyCode::Apostrophe, false) => Some('\''),
        (VirtualKeyCode::Apostrophe, true) => Some('"'),
        (VirtualKeyCode::NumpadMultiply, _) => Some('*'),
        (VirtualKeyCode::NumpadAdd, _) => Some('+'),
        (VirtualKeyCode::NumpadSubtract, _) => Some('-'),
        (VirtualKeyCode::NumpadDecimal, _) => Some('.'),
        (VirtualKeyCode::NumpadDivide, _) => Some('/'),
        (VirtualKeyCode::Numpad0, false) => Some('0'),
        (VirtualKeyCode::Numpad1, false) => Some('1'),
        (VirtualKeyCode::Numpad2, false) => Some('2'),
        (VirtualKeyCode::Numpad3, false) => Some('3'),
        (VirtualKeyCode::Numpad4, false) => Some('4'),
        (VirtualKeyCode::Numpad5, false) => Some('5'),
        (VirtualKeyCode::Numpad6, false) => Some('6'),
        (VirtualKeyCode::Numpad7, false) => Some('7'),
        (VirtualKeyCode::Numpad8, false) => Some('8'),
        (VirtualKeyCode::Numpad9, false) => Some('9'),
        (VirtualKeyCode::NumpadEnter, _) => Some('\r'),
        (VirtualKeyCode::Tab, _) => Some('\t'),
        (VirtualKeyCode::Return, _) => Some('\r'),
        (VirtualKeyCode::Back, _) => Some('\u{0008}'),
        _ => None,
    }
}

/// The modifier keys held down with a key.
#[derive(Clone, Copy, Debug, PartialEq, Eq, Structural)]
pub struct ModifiersState {
    pub shift: bool,
    pub ctrl: bool,
    pub alt: bool,
    pub logo: bool,
}

/// An editing command for a text field.
#[derive(Clone, Copy, Debug, PartialEq, Eq, Structural)]
pub enum TextControlCode {
    SelectAll,
    Copy,
    Paste,
    Cut,
    Backspace,
    Delete,
    MoveLeft,
    SelectLeft,
    MoveRight,
    SelectRight,
}

/// The editing command that a key gives with the modifiers held: with
/// control (or, on macOS, command) held, A, C, V and X select all, copy,
/// paste and cut; otherwise backspace and delete erase and the left and
/// right arrows move the caret, or extend the selection while shift is held.
pub open spec fn text_control(key: VirtualKeyCode, modifiers: ModifiersState, on_macos: bool) -> Option<TextControlCode> {
    if modifiers.ctrl || (modifiers.logo && on_macos) {
        match key {
            VirtualKeyCode::A => Some(TextControlCode::SelectAll),
            VirtualKeyCode::C => Some(TextControlCode::Copy),
            VirtualKeyCode::V => Some(TextControlCode::Paste),
            VirtualKeyCode::X => Some(TextControlCode::Cut),
            _ => None,
        }
    } else {
        match key {
            VirtualKeyCode::Back => Some(TextControlCode::Backspace),
            VirtualKeyCode::Delete => Some(TextControlCode::Delete),
            VirtualKeyCode::Left => Some(if modifiers.shift { TextControlCode::SelectLeft } else { TextControlCode::MoveLeft }),
            VirtualKeyCode::Right => Some(if modifiers.shift { TextControlCode::SelectRight } else { TextControlCode::MoveRight }),
            _ => None,
        }
    }
}

/// Converts a key and the modifiers held with it into a text editing
/// command, or `None` where there is none. The logo key acts as control only
/// when `on_macos` is set, where it is the command key.
pub fn winit_to_ruffle_text_control(key: VirtualKeyCode, modifiers: ModifiersState, on_macos: bool) -> (r: Option<TextControlCode>)
    ensures
        r == text_control(key, modifiers, on_macos),
{
    let shift = modifiers.shift;
    let ctrl_cmd = modifiers.ctrl || (modifiers.logo && on_macos);
    if ctrl_cmd {
        match key {
            VirtualKeyCode::A => Some(TextControlCode::SelectAll),
            VirtualKeyCode::C => Some(TextControlCode::Copy),
            VirtualKeyCode::V => Some(TextControlCode::Paste),
            VirtualKeyCode::X => Some(TextControlCode::Cut),
            _ => None,
        }
    } else {
        match key {
            VirtualKeyCode::Back => Some(TextControlCode::Backspace),
            VirtualKeyCode::Delete => Some(TextControlCode::Delete),
            VirtualKeyCode::Left => {
                if shift {
                    Some(TextControlCode::SelectLeft)
                } else {
                    Some(TextControlCode::MoveLeft)
                }
            },
            VirtualKeyCode::Right => {
                if shift {
                    Some(TextControlCode::SelectRight)
                } else {
                    Some(TextControlCode::MoveRight)
                }
            },
            _ => None,
        }
    }
}

/// Holding shift turns the lower case letter that a key types into its
/// upper case letter.
pub proof fn lemma_shift_capitalizes_letters(key: VirtualKeyCode)
    requires
        key_char(key, false) matches Some(c) && 'a' <= c <= 'z',
    ensures
        key_char(key, true) == Some(((key_char(key, false)->0 as u32) - 32) as char),
{
}

/// The number by which a Flash movie sees each key code (the value that
/// ActionScript's `Key.getCode()` gives); 0 for `Unknown`.
pub open spec fn flash_code(k: KeyCode) -> int {
    match k {
        KeyCode::Unknown => 0,
        KeyCode::Backspace => 8,
        KeyCode::Tab => 9,
        KeyCode::Return => 13,
        KeyCode::Shift => 16,
        KeyCode::Control => 17,
        KeyCode::Alt => 18,
        KeyCode::CapsLock => 20,
        KeyCode::Escape => 27,
        KeyCode::Space => 32,
        KeyCode::Key0 => 48,
        KeyCode::Key1 => 49,
        KeyCode::Key2 => 50,
        KeyCode::Key3 => 51,
        KeyCode::Key4 => 52,
        KeyCode::Key5 => 53,
        KeyCode::Key6 => 54,
        KeyCode::Key7 => 55,
        KeyCode::Key8 => 56,
        KeyCode::Key9 => 57,
        KeyCode::A => 65,
        KeyCode::B => 66,
        KeyCode::C => 67,
        KeyCode::D => 68,
        KeyCode::E => 69,
        KeyCode::F => 70,
        KeyCode::G => 71,
        KeyCode::H => 72,
        KeyCode::I => 73,
        KeyCode::J => 74,
        KeyCode::K => 75,
        KeyCode::L => 76,
        KeyCode::M => 77,
        KeyCode::N => 78,
        KeyCode::O => 79,
        KeyCode::P => 80,
        KeyCode::Q => 81,
        KeyCode::R => 82,
        KeyCode::S => 83,
        KeyCode::T => 84,
        KeyCode::U => 85,
        KeyCode::V => 86,
        KeyCode::W => 87,
        KeyCode::X => 88,
        KeyCode::Y => 89,
        KeyCode::Z => 90,
        KeyCode::Semicolon => 186,
        KeyCode::Equals => 187,
        KeyCode::Comma => 188,
        KeyCode::Minus => 189,
        KeyCode::Period => 190,
        KeyCode::Slash => 191,
        KeyCode::Grave => 192,
        KeyCode::LBracket => 219,
        KeyCode::Backslash => 220,
        KeyCode::RBracket => 221,
        KeyCode::Apostrophe => 222,
        KeyCode::Numpad0 => 96,
        KeyCode::Numpad1 => 97,
        KeyCode::Numpad2 => 98,
        KeyCode::Numpad3 => 99,
        KeyCode::Numpad4 => 100,
        KeyCode::Numpad5 => 101,
        KeyCode::Numpad6 => 102,
        KeyCode::Numpad7 => 103,
        KeyCode::Numpad8 => 104,
        KeyCode::Numpad9 => 105,
        KeyCode::Multiply => 106,
        KeyCode::Plus => 107,
        KeyCode::NumpadMinus => 109,
        KeyCode::NumpadPeriod => 110,
        KeyCode::NumpadSlash => 111,
        KeyCode::PgUp => 33,
        KeyCode::PgDown => 34,
        KeyCode::End => 35,
        KeyCode::Home => 36,
        KeyCode::Left => 37,
        KeyCode::Up => 38,
        KeyCode::Right => 39,
        KeyCode::Down => 40,
        KeyCode::Insert => 45,
        KeyCode::Delete => 46,
        KeyCode::Pause => 19,
        KeyCode::ScrollLock => 145,
        KeyCode::F1 => 112,
        KeyCode::F2 => 113,
        KeyCode::F3 => 114,
        KeyCode::F4 => 115,
        KeyCode::F5 => 116,
        KeyCode::F6 => 117,
        KeyCode::F7 => 118,
        KeyCode::F8 => 119,
        KeyCode::F9 => 120,
        KeyCode::F10 => 121,
        KeyCode::F11 => 122,
        KeyCode::F12 => 123,
    }
}

/// The Flash code of the key code that a key reports.
pub open spec fn code_of_key(key: VirtualKeyCode) -> int {
    flash_code(flash_key_code(key))
}

/// Every key that the player sends to Flash reports a Flash key code of
/// its own: only the numpad Enter key and keys outside the player's table
/// report `Unknown`, and two keys report the same code only when they are
/// the left and right versions of one modifier.
pub proof fn lemma_key_codes_known_and_distinct(a: VirtualKeyCode, b: VirtualKeyCode)
    ensures
        (flash_key_code(a) == KeyCode::Unknown) == (a == VirtualKeyCode::NumpadEnter || a == VirtualKeyCode::Other),
        (code_of_key(a) == 0) == (flash_key_code(a) == KeyCode::Unknown),
        code_of_key(a) == code_of_key(b) && code_of_key(a) != 0 ==> a == b
            || ((a == VirtualKeyCode::LShift || a == VirtualKeyCode::RShift) && (b == VirtualKeyCode::LShift || b == VirtualKeyCode::RShift))
            || ((a == VirtualKeyCode::LControl || a == VirtualKeyCode::RControl) && (b == VirtualKeyCode::LControl || b == VirtualKeyCode::RControl))
            || ((a == VirtualKeyCode::LAlt || a == VirtualKeyCode::RAlt) && (b == VirtualKeyCode::LAlt || b == VirtualKeyCode::RAlt)),
{
}

/// The character a key types agrees with its Flash key code: Backspace,
/// Tab, Enter, the space bar and the digit keys type the character whose
/// code is their key code, with or without shift; a letter key types its
/// upper case letter (its key code) with shift and the lower case one
/// without; a numpad digit types its digit without shift and nothing with
/// it; the numpad operators type their operator, whose code is 64 below
/// their key code; the punctuation keys type one character without shift
/// and another with it; every other key with a Flash key code types nothing.
pub proof fn lemma_typed_character_matches_key_code(key: VirtualKeyCode, shift: bool)
    ensures
        ({
            let v = code_of_key(key);
            (v == 8 || v == 9 || v == 13 || v == 32 || 48 <= v <= 57) ==> key_char(key, shift) == Some(v as char)
        }),
        ({
            let v = code_of_key(key);
            65 <= v <= 90 ==> key_char(key, true) == Some(v as char) && key_char(key, false) == Some((v + 32) as char)
        }),
        ({
            let v = code_of_key(key);
            96 <= v <= 105 ==> key_char(key, false) == Some((v - 48) as char) && key_char(key, true) is None
        }),
        ({
            let v = code_of_key(key);
            106 <= v <= 111 ==> key_char(key, shift) == Some((v - 64) as char)
        }),
        ({
            let v = code_of_key(key);
            (186 <= v <= 192 || 219 <= v <= 222) ==> key_char(key, false) is Some && key_char(key, true) is Some
                && key_char(key, false) != key_char(key, true)
        }),
        ({
            let v = code_of_key(key);
            v != 0 && !(v == 8 || v == 9 || v == 13 || 32 <= v <= 57 && !(33 <= v <= 47) || 65 <= v <= 90
                || 96 <= v <= 111 || 186 <= v <= 192 || 219 <= v <= 222) ==> key_char(key, shift) is None
        }),
{
}

} // verus!
