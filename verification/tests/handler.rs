use searchcuts::bus_stuff::MetaResult;
use searchcuts::grammar::Command;
use searchcuts::searchcuts::{ensure_args, handle_cal, res, ActivateError, Activation, Handler};

fn fields(m: &MetaResult) -> (String, String, String, Option<String>) {
    (m.name.clone(), m.path.clone(), m.description.clone(), m.icon.clone())
}

fn result(name: &str, path: &str, description: &str) -> (String, String, String, Option<String>) {
    (name.to_string(), path.to_string(), description.to_string(), None)
}

fn shown(raw: &str) -> Vec<(String, String, String, Option<String>)> {
    Handler::new().handle(raw.to_string()).iter().map(fields).collect()
}

#[test]
fn no_prefix_gives_nothing() {
    assert!(shown("").is_empty());
    assert!(shown("cal show").is_empty());
    assert!(shown("1t hello").is_empty());
}

#[test]
fn blank_after_prefix_gives_nothing() {
    assert!(shown("0").is_empty());
    assert!(shown("0   ").is_empty());
    assert!(shown("0 \t\u{3000}").is_empty());
}

#[test]
fn calendar_show() {
    assert_eq!(shown("0cal show"), vec![result("Calendar", "cal show", "Showing calendar")]);
    assert_eq!(shown("0calshow"), vec![result("Calendar", "cal show", "Showing calendar")]);
}

#[test]
fn calendar_remove() {
    assert_eq!(shown("0cal remove"), vec![result("Remove", "cal remove", "Remove calendar")]);
}

#[test]
fn root_suggestions_for_partial_keyword() {
    assert_eq!(shown("0c"), vec![result(" cal", " c", " c")]);
    assert_eq!(shown("0sm"), vec![result(" smart", " sm", " sm")]);
}

#[test]
fn calendar_suggestions_after_keyword() {
    assert_eq!(
        shown("0cal"),
        vec![result("cal show", "cal ", "cal "), result("cal remove", "cal ", "cal ")]
    );
    assert_eq!(shown("0cal s"), vec![result("cal show", "cal  s", "cal s")]);
    assert_eq!(shown("0cal r"), vec![result("cal remove", "cal  r", "cal r")]);
}

#[test]
fn trailing_space_widens_the_path() {
    // The consumed byte count includes the trailing white space, so the path takes one
    // more byte of the input than the keyword and the space before the argument.
    assert_eq!(shown("0cal s "), vec![result("cal s show", "cal s s", "cal s s")]);
}

#[test]
fn unknown_word_gives_nothing() {
    assert!(shown("0xyz").is_empty());
    assert!(shown("0 cal").is_empty());
    assert!(shown("0cal xyz").is_empty());
}

#[test]
fn text_layers_preview_their_text() {
    assert_eq!(shown("0t hello"), vec![result("Translate \"hello\"", "translate", "")]);
    assert_eq!(shown("0thello"), vec![result("Translate \"hello\"", "translate", "")]);
    assert_eq!(shown("0a  make tea "), vec![result("AI Assistant \"make tea\"", "assistant", "")]);
    assert_eq!(
        shown("0smart sort a list"),
        vec![result("Smart AI Assistant \"sort a list\"", "smart assistant", "")]
    );
    assert_eq!(shown("0t"), vec![result("Translate \"\"", "translate", "")]);
}

#[test]
fn non_ascii_text() {
    assert_eq!(shown("0t café"), vec![result("Translate \"café\"", "translate", "")]);
}

#[test]
fn slicing_off_a_char_boundary_is_refused() {
    let h = Handler::new();
    assert!(h.try_handle("0t é ".to_string()).is_none());
    assert!(h.try_handle("0t é".to_string()).is_some());
    assert!(h.try_handle("0t éé ".to_string()).is_none());
}

#[test]
fn activate_text_asks_for_command() {
    let h = Handler::new();
    match h.activate("0t hello".to_string()) {
        Activation::Done(o) => {
            assert!(o.results.is_empty());
            let q = o.request.expect("a request");
            assert_eq!(q.command, Command::Translate);
            assert_eq!(q.text, "hello");
        }
        Activation::EmptyInput => panic!("expected a request"),
    }
    match h.activate("0smart  two words ".to_string()) {
        Activation::Done(o) => {
            let q = o.request.expect("a request");
            assert_eq!(q.command, Command::Assist { thinking: true });
            assert_eq!(q.text, "two words");
        }
        Activation::EmptyInput => panic!("expected a request"),
    }
    match h.activate("0a x".to_string()) {
        Activation::Done(o) => {
            let q = o.request.expect("a request");
            assert_eq!(q.command, Command::Assist { thinking: false });
            assert_eq!(q.text, "x");
        }
        Activation::EmptyInput => panic!("expected a request"),
    }
}

#[test]
fn activate_calendar_gives_results() {
    let h = Handler::new();
    match h.activate("0cal show".to_string()) {
        Activation::Done(o) => {
            assert!(o.request.is_none());
            let got: Vec<_> = o.results.iter().map(fields).collect();
            assert_eq!(got, vec![result("Calendar", "cal show", "Showing calendar")]);
        }
        Activation::EmptyInput => panic!("expected results"),
    }
}

#[test]
fn activate_without_single_match_does_nothing() {
    let h = Handler::new();
    match h.activate("0c".to_string()) {
        Activation::Done(o) => {
            assert!(o.results.is_empty());
            assert!(o.request.is_none());
        }
        Activation::EmptyInput => panic!("not empty"),
    }
}

#[test]
fn activate_empty_and_missing_prefix() {
    let h = Handler::new();
    assert!(matches!(h.activate("0  ".to_string()), Activation::EmptyInput));
    assert!(matches!(h.try_activate("t hello".to_string()), Err(ActivateError::MissingPrefix)));
    assert!(matches!(h.try_activate("0t é ".to_string()), Err(ActivateError::NotCharBoundary)));
}

#[test]
fn activated_request_was_previewed() {
    let h = Handler::new();
    for raw in ["0t hi", "0a  x y", "0smart q", "0tz"] {
        let shown_results = h.handle(raw.to_string());
        match h.activate(raw.to_string()) {
            Activation::Done(o) => {
                let q = o.request.expect("a request");
                assert_eq!(shown_results.len(), 1);
                assert!(shown_results[0].name.ends_with(&format!(" \"{}\"", q.text)));
            }
            Activation::EmptyInput => panic!("expected a request"),
        }
    }
}

#[test]
fn ensure_args_trims_after_name() {
    assert_eq!(ensure_args("cal", "cal  next week "), Some("next week".to_string()));
    assert_eq!(ensure_args("cal", "calendar"), Some("endar".to_string()));
    assert_eq!(ensure_args("cal", "ca"), None);
}

#[test]
fn handle_cal_result() {
    let m = handle_cal("cal x").expect("calendar");
    assert_eq!(fields(&m), result("Calendar", "calender", "Woah!"));
    assert!(handle_cal("show").is_none());
}

#[test]
fn res_builds_plain_result() {
    assert_eq!(fields(&res("n", "d", "p")), result("n", "p", "d"));
}

#[test]
fn every_keyword_is_reached_alone() {
    // No keyword of a layer starts another, so each one leads on by itself.
    assert_eq!(shown("0cal show").len(), 1);
    assert_eq!(shown("0t x").len(), 1);
    assert_eq!(shown("0a x").len(), 1);
    assert_eq!(shown("0smart x").len(), 1);
    assert_eq!(shown("0cal remove").len(), 1);
}
