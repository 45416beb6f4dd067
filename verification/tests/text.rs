use searchcuts::ai_stuff::{model_name, preamble};
use searchcuts::grammar::Command;
use searchcuts::text::{byte_len, checked_byte_prefix, is_whitespace, starts_with, trim_str};

#[test]
fn whitespace_matches_std_for_every_char() {
    for u in 0u32..=0x10FFFF {
        if let Some(c) = char::from_u32(u) {
            assert_eq!(is_whitespace(c), c.is_whitespace(), "U+{u:04X}");
        }
    }
}

#[test]
fn trim_matches_std() {
    for s in ["", "  ", " a ", "\u{3000}x\u{a0}", "a b", "\n\tz\r\n", "é ", " \u{85}q\u{2029}"] {
        assert_eq!(trim_str(s), s.trim(), "trimming {s:?}");
    }
}

#[test]
fn starts_with_matches_std() {
    for (s, p) in [("cal show", "cal"), ("ca", "cal"), ("", ""), ("x", ""), ("éa", "é"), ("ae", "é")] {
        assert_eq!(starts_with(s, p), s.starts_with(p), "{s:?} {p:?}");
    }
}

#[test]
fn byte_len_and_prefix() {
    assert_eq!(byte_len("héllo"), 6);
    assert_eq!(checked_byte_prefix("héllo", 1), Some("h"));
    assert_eq!(checked_byte_prefix("héllo", 2), None);
    assert_eq!(checked_byte_prefix("héllo", 3), Some("hé"));
    assert_eq!(checked_byte_prefix("ab", 5), None);
}

#[test]
fn models_for_commands() {
    assert_eq!(model_name(Command::Translate), "gemini-2.0-flash-lite");
    assert_eq!(model_name(Command::Assist { thinking: false }), "gemini-2.0-flash-lite");
    assert_eq!(model_name(Command::Assist { thinking: true }), "gemini-2.0-flash-thinking-exp-01-21");
    assert!(preamble(Command::Translate).starts_with("You are an assistant here to translate"));
    assert!(preamble(Command::Assist { thinking: true }).starts_with("You are an assistant that has control"));
}
