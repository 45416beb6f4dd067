//! Which keys type a text: the keyboard half of writing an answer into the focused window.
use vstd::prelude::*;
use vstd::string::*;

use crate::text::{chars_of, trim, trim_str};

verus! {

/// A key of a US keyboard, named as the virtual input device names it.
#[allow(non_camel_case_types)]
#[derive(Clone, Copy, Debug, PartialEq, Eq, Structural)]
pub enum Key {
    Space,
    A,
    B,
    C,
    D,
    E,
    F,
    G,
    H,
    I,
    J,
    K,
    L,
    M,
    N,
    O,
    P,
    Q,
    R,
    S,
    T,
    U,
    V,
    W,
    X,
    Y,
    Z,
    _0,
    _1,
    _2,
    _3,
    _4,
    _5,
    _6,
    _7,
    _8,
    _9,
    Grave,
    Slash,
    Comma,
    Dot,
    Minus,
    SemiColon,
    LeftBrace,
    RightBrace,
    Equal,
    BackSlash,
    Apostrophe,
    Enter,
    LeftShift,
    LeftControl,
}

/// Whether typing `c` takes the shift key.
pub open spec fn shifted(c: char) -> bool {
    match c {
        'A' | 'B' | 'C' | 'D' | 'E' | 'F' | 'G' | 'H' | 'I' | 'J' | 'K' | 'L' | 'M' | 'N' | 'O' | 'P' | 'Q' | 'R' | 'S' | 'T' | 'U' | 'V' | 'W' | 'X' | 'Y' | 'Z' | ')' | '!' | '@' | '#' | '$' | '%' | '^' | '&' | '*' | '(' | '~' | '?' | '<' | '>' | '_' | ':' | '{' | '}' | '+' | '|' | '"' => true,
        _ => false,
    }
}

/// Whether typing `c` takes the shift key on a US keyboard.
pub fn is_shifted(c: char) -> (b: bool)
    ensures
        b == shifted(c),
{
    match c {
        'A' | 'B' | 'C' | 'D' | 'E' | 'F' | 'G' | 'H' | 'I' | 'J' | 'K' | 'L' | 'M' | 'N' | 'O' | 'P' | 'Q' | 'R' | 'S' | 'T' | 'U' | 'V' | 'W' | 'X' | 'Y' | 'Z' | ')' | '!' | '@' | '#' | '$' | '%' | '^' | '&' | '*' | '(' | '~' | '?' | '<' | '>' | '_' | ':' | '{' | '}' | '+' | '|' | '"' => true,
        _ => false,
    }
}

/// The key that types `c`, with or without shift.
pub open spec fn key_for(c: char) -> Option<Key> {
    match c {
        ' ' => Some(Key::Space),
        'A' | 'a' => Some(Key::A),
        'B' | 'b' => Some(Key::B),
        'C' | 'c' => Some(Key::C),
        'D' | 'd' => Some(Key::D),
        'E' | 'e' => Some(Key::E),
        'F' | 'f' => Some(Key::F),
        'G' | 'g' => Some(Key::G),
        'H' | 'h' => Some(Key::H),
        'I' | 'i' => Some(Key::I),
        'J' | 'j' => Some(Key::J),
        'K' | 'k' => Some(Key::K),
        'L' | 'l' => Some(Key::L),
        'M' | 'm' => Some(Key::M),
        'N' | 'n' => Some(Key::N),
        'O' | 'o' => Some(Key::O),
        'P' | 'p' => Some(Key::P),
        'Q' | 'q' => Some(Key::Q),
        'R' | 'r' => Some(Key::R),
        'S' | 's' => Some(Key::S),
        'T' | 't' => Some(Key::T),
        'U' | 'u' => Some(Key::U),
        'V' | 'v' => Some(Key::V),
        'W' | 'w' => Some(Key::W),
        'X' | 'x' => Some(Key::X),
        'Y' | 'y' => Some(Key::Y),
        'Z' | 'z' => Some(Key::Z),
        '0' | ')' => Some(Key::_0),
        '1' | '!' => Some(Key::_1),
        '2' | '@' => Some(Key::_2),
        '3' | '#' => Some(Key::_3),
        '4' | '$' => Some(Key::_4),
        '5' | '%' => Some(Key::_5),
        '6' | '^' => Some(Key::_6),
        '7' | '&' => Some(Key::_7),
        '8' | '*' => Some(Key::_8),
        '9' | '(' => Some(Key::_9),
        '`' | '~' => Some(Key::Grave),
        '/' | '?' => Some(Key::Slash),
        ',' | '<' => Some(Key::Comma),
        '.' | '>' => Some(Key::Dot),
        '-' | '_' => Some(Key::Minus),
        ';' | ':' => Some(Key::SemiColon),
        '[' | '{' => Some(Key::LeftBrace),
        ']' | '}' => Some(Key::RightBrace),
        '=' | '+' => Some(Key::Equal),
        '\\' | '|' => Some(Key::BackSlash),
        '\'' | '"' => Some(Key::Apostrophe),
        '\n' => Some(Key::Enter),
        _ => None,
    }
}

/// The key that types `c`, with or without shift; `None` for a character no key types.
pub fn get_keybd_key(c: char) -> (k: Option<Key>)
    ensures
        k == key_for(c),
{
    match c {
        ' ' => Some(Key::Space),
        'A' | 'a' => Some(Key::A),
        'B' | 'b' => Some(Key::B),
        'C' | 'c' => Some(Key::C),
        'D' | 'd' => Some(Key::D),
        'E' | 'e' => Some(Key::E),
        'F' | 'f' => Some(Key::F),
        'G' | 'g' => Some(Key::G),
        'H' | 'h' => Some(Key::H),
        'I' | 'i' => Some(Key::I),
        'J' | 'j' => Some(Key::J),
        'K' | 'k' => Some(Key::K),
        'L' | 'l' => Some(Key::L),
        'M' | 'm' => Some(Key::M),
        'N' | 'n' => Some(Key::N),
        'O' | 'o' => Some(Key::O),
        'P' | 'p' => Some(Key::P),
        'Q' | 'q' => Some(Key::Q),
        'R' | 'r' => Some(Key::R),
        'S' | 's' => Some(Key::S),
        'T' | 't' => Some(Key::T),
        'U' | 'u' => Some(Key::U),
        'V' | 'v' => Some(Key::V),
        'W' | 'w' => Some(Key::W),
        'X' | 'x' => Some(Key::X),
        'Y' | 'y' => Some(Key::Y),
        'Z' | 'z' => Some(Key::Z),
        '0' | ')' => Some(Key::_0),
        '1' | '!' => Some(Key::_1),
        '2' | '@' => Some(Key::_2),
        '3' | '#' => Some(Key::_3),
        '4' | '$' => Some(Key::_4),
        '5' | '%' => Some(Key::_5),
        '6' | '^' => Some(Key::_6),
        '7' | '&' => Some(Key::_7),
        '8' | '*' => Some(Key::_8),
        '9' | '(' => Some(Key::_9),
        '`' | '~' => Some(Key::Grave),
        '/' | '?' => Some(Key::Slash),
        ',' | '<' => Some(Key::Comma),
        '.' | '>' => Some(Key::Dot),
        '-' | '_' => Some(Key::Minus),
        ';' | ':' => Some(Key::SemiColon),
        '[' | '{' => Some(Key::LeftBrace),
        ']' | '}' => Some(Key::RightBrace),
        '=' | '+' => Some(Key::Equal),
        '\\' | '|' => Some(Key::BackSlash),
        '\'' | '"' => Some(Key::Apostrophe),
        '\n' => Some(Key::Enter),
        _ => None,
    }
}

/// The character a US keyboard types for `key`, with shift held or not.
pub open spec fn typed(key: Key, shift: bool) -> Option<char> {
    match (key, shift) {
        (Key::Space, false) => Some(' '),
        (Key::A, false) => Some('a'),
        (Key::A, true) => Some('A'),
        (Key::B, false) => Some('b'),
        (Key::B, true) => Some('B'),
        (Key::C, false) => Some('c'),
        (Key::C, true) => Some('C'),
        (Key::D, false) => Some('d'),
        (Key::D, true) => Some('D'),
        (Key::E, false) => Some('e'),
        (Key::E, true) => Some('E'),
        (Key::F, false) => Some('f'),
        (Key::F, true) => Some('F'),
        (Key::G, false) => Some('g'),
        (Key::G, true) => Some('G'),
        (Key::H, false) => Some('h'),
        (Key::H, true) => Some('H'),
        (Key::I, false) => Some('i'),
        (Key::I, true) => Some('I'),
        (Key::J, false) => Some('j'),
        (Key::J, true) => Some('J'),
        (Key::K, false) => Some('k'),
        (Key::K, true) => Some('K'),
        (Key::L, false) => Some('l'),
        (Key::L, true) => Some('L'),
        (Key::M, false) => Some('m'),
        (Key::M, true) => Some('M'),
        (Key::N, false) => Some('n'),
        (Key::N, true) => Some('N'),
        (Key::O, false) => Some('o'),
        (Key::O, true) => Some('O'),
        (Key::P, false) => Some('p'),
        (Key::P, true) => Some('P'),
        (Key::Q, false) => Some('q'),
        (Key::Q, true) => Some('Q'),
        (Key::R, false) => Some('r'),
        (Key::R, true) => Some('R'),
        (Key::S, false) => Some('s'),
        (Key::S, true) => Some('S'),
        (Key::T, false) => Some('t'),
        (Key::T, true) => Some('T'),
        (Key::U, false) => Some('u'),
        (Key::U, true) => Some('U'),
        (Key::V, false) => Some('v'),
        (Key::V, true) => Some('V'),
        (Key::W, false) => Some('w'),
        (Key::W, true) => Some('W'),
        (Key::X, false) => Some('x'),
        (Key::X, true) => Some('X'),
        (Key::Y, false) => Some('y'),
        (Key::Y, true) => Some('Y'),
        (Key::Z, false) => Some('z'),
        (Key::Z, true) => Some('Z'),
        (Key::_0, false) => Some('0'),
        (Key::_0, true) => Some(')'),
        (Key::_1, false) => Some('1'),
        (Key::_1, true) => Some('!'),
        (Key::_2, false) => Some('2'),
        (Key::_2, true) => Some('@'),
        (Key::_3, false) => Some('3'),
        (Key::_3, true) => Some('#'),
        (Key::_4, false) => Some('4'),
        (Key::_4, true) => Some('$'),
        (Key::_5, false) => Some('5'),
        (Key::_5, true) => Some('%'),
        (Key::_6, false) => Some('6'),
        (Key::_6, true) => Some('^'),
        (Key::_7, false) => Some('7'),
        (Key::_7, true) => Some('&'),
        (Key::_8, false) => Some('8'),
        (Key::_8, true) => Some('*'),
        (Key::_9, false) => Some('9'),
        (Key::_9, true) => Some('('),
        (Key::Grave, false) => Some('`'),
        (Key::Grave, true) => Some('~'),
        (Key::Slash, false) => Some('/'),
        (Key::Slash, true) => Some('?'),
        (Key::Comma, false) => Some(','),
        (Key::Comma, true) => Some('<'),
        (Key::Dot, false) => Some('.'),
        (Key::Dot, true) => Some('>'),
        (Key::Minus, false) => Some('-'),
        (Key::Minus, true) => Some('_'),
        (Key::SemiColon, false) => Some(';'),
        (Key::SemiColon, true) => Some(':'),
        (Key::LeftBrace, false) => Some('['),
        (Key::LeftBrace, true) => Some('{'),
        (Key::RightBrace, false) => Some(']'),
        (Key::RightBrace, true) => Some('}'),
        (Key::Equal, false) => Some('='),
        (Key::Equal, true) => Some('+'),
        (Key::BackSlash, false) => Some('\\'),
        (Key::BackSlash, true) => Some('|'),
        (Key::Apostrophe, false) => Some('\''),
        (Key::Apostrophe, true) => Some('"'),
        (Key::Enter, false) => Some('\n'),
        _ => None,
    }
}


/// Every key the mapping gives types back its character on a US keyboard, with shift
/// exactly where `shifted` asks for it.
pub proof fn lemma_key_types_char(c: char)
    ensures
        key_for(c) matches Some(k) ==> typed(k, shifted(c)) == Some(c),
{
}

/// Every character that takes shift has a key.
pub proof fn lemma_shifted_has_key(c: char)
    ensures
        shifted(c) ==> key_for(c) is Some,
{
}

/// One press of a key, with or without shift held.
#[derive(Clone, Copy, Debug, PartialEq, Eq, Structural)]
pub struct KeyStroke {
    pub key: Key,
    pub shift: bool,
}

/// The strokes that type `s`, as far as every character has a key: stroke `i` types
/// `s[i]`, and the strokes stop at the first character no key types.
pub open spec fn strokes_for(s: Seq<char>, r: Seq<KeyStroke>) -> bool {
    &&& r.len() <= s.len()
    &&& forall|i: int|
        0 <= i < r.len() ==> key_for(s[i]) == Some(#[trigger] r[i].key) && r[i].shift == shifted(
            s[i],
        )
    &&& r.len() < s.len() ==> key_for(s[r.len() as int]) is None
}

/// The strokes that type `text`, up to its first character that no key types.
pub fn key_strokes(text: &str) -> (r: Vec<KeyStroke>)
    ensures
        strokes_for(text@, r@),
        forall|i: int| 0 <= i < r.len() ==> typed(#[trigger] r@[i].key, r@[i].shift) == Some(text@[i]),
{
    let v = chars_of(text);
    let mut r: Vec<KeyStroke> = Vec::new();
    let mut i: usize = 0;
    while i < v.len()
        invariant
            v@ == text@,
            i <= v.len(),
            r.len() == i,
            forall|t: int|
                0 <= t < i ==> key_for(v@[t]) == Some(#[trigger] r@[t].key) && r@[t].shift == shifted(v@[t]),
            forall|t: int| 0 <= t < i ==> typed(#[trigger] r@[t].key, r@[t].shift) == Some(text@[t]),
        decreases v.len() - i,
    {
        let c = v[i];
        match get_keybd_key(c) {
            None => {
                return r;
            },
            Some(key) => {
                proof {
                    lemma_key_types_char(c);
                }
                r.push(KeyStroke { key, shift: is_shifted(c) });
            },
        }
        i = i + 1;
    }
    r
}

/// How a text is put into the focused window.
#[derive(Debug)]
pub enum WritePlan {
    /// Typed key by key.
    Type(String),
    /// Put on the clipboard and pasted.
    Paste(String),
}

pub enum WritePlanView {
    Type(Seq<char>),
    Paste(Seq<char>),
}

impl View for WritePlan {
    type V = WritePlanView;

    open spec fn view(&self) -> WritePlanView {
        match self {
            WritePlan::Type(t) => WritePlanView::Type(t@),
            WritePlan::Paste(t) => WritePlanView::Paste(t@),
        }
    }
}

/// A text, trimmed, is typed when it is one line and pasted when it has several.
pub open spec fn write_plan(text: Seq<char>) -> WritePlanView {
    let t = trim(text);
    if t.contains('\n') {
        WritePlanView::Paste(t)
    } else {
        WritePlanView::Type(t)
    }
}

/// How `text` is put into the focused window: trimmed, then typed or pasted.
pub fn plan_write(text: &str) -> (r: WritePlan)
    ensures
        r@ == write_plan(text@),
{
    let t = trim_str(text);
    let v = chars_of(t);
    let mut i: usize = 0;
    while i < v.len()
        invariant
            v@ == t@,
            t@ == trim(text@),
            i <= v.len(),
            forall|k: int| 0 <= k < i ==> v@[k] != '\n',
        decreases v.len() - i,
    {
        if v[i] == '\n' {
            assert(t@[i as int] == '\n');
            assert(t@.contains('\n'));
            return WritePlan::Paste(String::from_str(t));
        }
        i = i + 1;
    }
    WritePlan::Type(String::from_str(t))
}


/// A text is pasted exactly when, once trimmed, it has a line break anywhere in it; else
/// it is typed. Either way what is written is the whole trimmed text.
pub proof fn lemma_paste_iff_line_break(text: Seq<char>)
    ensures
        (write_plan(text) == WritePlanView::Paste(trim(text))) <==> (exists|k: int|
            0 <= k < trim(text).len() && #[trigger] trim(text)[k] == '\n'),
        (write_plan(text) == WritePlanView::Type(trim(text))) <==> !(exists|k: int|
            0 <= k < trim(text).len() && #[trigger] trim(text)[k] == '\n'),
{
}

} // verus!
