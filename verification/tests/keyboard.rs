use searchcuts::keyboard::{get_keybd_key, is_shifted, key_strokes, plan_write, Key, KeyStroke, WritePlan};

const LOWER: &str = "abcdefghijklmnopqrstuvwxyz1234567890`/,.-;[]=\\' \n";
const UPPER: &str = "ABCDEFGHIJKLMNOPQRSTUVWXYZ!@#$%^&*()~?<>_:{}+|\"";

#[test]
fn shifted_characters() {
    for c in UPPER.chars() {
        assert!(is_shifted(c), "{c:?}");
    }
    for c in LOWER.chars() {
        assert!(!is_shifted(c), "{c:?}");
    }
    assert!(!is_shifted('\t'));
    assert!(!is_shifted('é'));
}

#[test]
fn keys_for_characters() {
    assert_eq!(get_keybd_key('a'), Some(Key::A));
    assert_eq!(get_keybd_key('A'), Some(Key::A));
    assert_eq!(get_keybd_key('!'), Some(Key::_1));
    assert_eq!(get_keybd_key('0'), Some(Key::_0));
    assert_eq!(get_keybd_key(')'), Some(Key::_0));
    assert_eq!(get_keybd_key('"'), Some(Key::Apostrophe));
    assert_eq!(get_keybd_key('\\'), Some(Key::BackSlash));
    assert_eq!(get_keybd_key(' '), Some(Key::Space));
    assert_eq!(get_keybd_key('\n'), Some(Key::Enter));
    assert_eq!(get_keybd_key('\t'), None);
    assert_eq!(get_keybd_key('é'), None);
}

#[test]
fn shifted_and_plain_share_keys() {
    // Each shifted character sits on the same key as a plain one.
    let lower: Vec<char> = "abcdefghijklmnopqrstuvwxyz1234567890`/,.-;[]=\\'".chars().collect();
    let upper: Vec<char> = "ABCDEFGHIJKLMNOPQRSTUVWXYZ!@#$%^&*()~?<>_:{}+|\"".chars().collect();
    let pairs = [
        ('1', '!'), ('2', '@'), ('3', '#'), ('4', '$'), ('5', '%'), ('6', '^'), ('7', '&'),
        ('8', '*'), ('9', '('), ('0', ')'), ('`', '~'), ('/', '?'), (',', '<'), ('.', '>'),
        ('-', '_'), (';', ':'), ('[', '{'), (']', '}'), ('=', '+'), ('\\', '|'), ('\'', '"'),
    ];
    for (a, b) in pairs {
        assert_eq!(get_keybd_key(a), get_keybd_key(b));
        assert!(get_keybd_key(a).is_some());
    }
    for c in upper.iter().take(26) {
        assert_eq!(get_keybd_key(*c), get_keybd_key(c.to_ascii_lowercase()));
    }
    assert_eq!(lower.len(), upper.len());
}

#[test]
fn strokes_for_text() {
    assert_eq!(
        key_strokes("Hi!"),
        vec![
            KeyStroke { key: Key::H, shift: true },
            KeyStroke { key: Key::I, shift: false },
            KeyStroke { key: Key::_1, shift: true },
        ]
    );
    assert_eq!(key_strokes(""), vec![]);
}

#[test]
fn strokes_stop_at_untypeable_character() {
    assert_eq!(key_strokes("a\tb"), vec![KeyStroke { key: Key::A, shift: false }]);
    assert_eq!(key_strokes("é"), vec![]);
}

#[test]
fn write_plan_types_one_line_and_pastes_several() {
    match plan_write("  hello world \n") {
        WritePlan::Type(t) => assert_eq!(t, "hello world"),
        WritePlan::Paste(_) => panic!("one line is typed"),
    }
    match plan_write(" a\nb ") {
        WritePlan::Paste(t) => assert_eq!(t, "a\nb"),
        WritePlan::Type(_) => panic!("several lines are pasted"),
    }
}
