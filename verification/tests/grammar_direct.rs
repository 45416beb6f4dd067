// The search-cuts grammar written directly over byte-indexed string slices, compared
// with the library on many inputs.
use searchcuts::searchcuts::Handler;

type Row = (String, String, String);

enum Next {
    Layer(fn(String, &str) -> Option<Vec<Row>>),
    Fixed(Row),
}

fn choices(path: String, input: &str, options: &[(&str, Next)]) -> Option<Vec<Row>> {
    let data: Vec<&(&str, Next)> = options.iter().filter(|(n, _)| input.starts_with(n)).collect();
    if data.len() == 1 {
        let d = data[0];
        let new_input = input[d.0.len()..].trim();
        let rem_len = input.len() - new_input.len();
        if !input.is_char_boundary(rem_len) {
            return None;
        }
        let path = format!("{path}{}", &input[..rem_len]);
        match &d.1 {
            Next::Layer(f) => f(path, new_input),
            Next::Fixed(r) => Some(vec![r.clone()]),
        }
    } else if data.is_empty() {
        Some(
            options
                .iter()
                .filter(|(n, _)| n.starts_with(input))
                .map(|(n, _)| (format!("{} {n}", path.trim()), format!("{path} {input}"), format!("{} {input}", path.trim())))
                .collect(),
        )
    } else {
        Some(vec![])
    }
}

fn row(n: &str, p: &str, d: &str) -> Row {
    (n.to_string(), p.to_string(), d.to_string())
}

fn calendar(path: String, input: &str) -> Option<Vec<Row>> {
    choices(
        path,
        input,
        &[
            ("show", Next::Fixed(row("Calendar", "cal show", "Showing calendar"))),
            ("remove", Next::Fixed(row("Remove", "cal remove", "Remove calendar"))),
        ],
    )
}

fn translate(_path: String, input: &str) -> Option<Vec<Row>> {
    Some(vec![row(&format!("Translate \"{input}\""), "translate", "")])
}

fn assistant(_path: String, input: &str) -> Option<Vec<Row>> {
    Some(vec![row(&format!("AI Assistant \"{input}\""), "assistant", "")])
}

fn solve(_path: String, input: &str) -> Option<Vec<Row>> {
    Some(vec![row(&format!("Smart AI Assistant \"{input}\""), "smart assistant", "")])
}

fn root(path: String, input: &str) -> Option<Vec<Row>> {
    choices(
        path,
        input,
        &[
            ("cal", Next::Layer(calendar)),
            ("t", Next::Layer(translate)),
            ("a", Next::Layer(assistant)),
            ("smart", Next::Layer(solve)),
        ],
    )
}

fn direct(raw: &str) -> Option<Vec<Row>> {
    if !raw.starts_with("0") {
        return Some(vec![]);
    }
    let input = &raw[1..];
    if input.trim().is_empty() {
        return Some(vec![]);
    }
    root(String::new(), input)
}

#[test]
fn library_agrees_with_direct_grammar() {
    let heads = ["", "0", "1", "0 ", "00"];
    let words = ["", "c", "ca", "cal", "cal ", "cal s", "cal show", "calshow", "cal remove", "cal  r ",
        "t", "t ", "t x", "tx", "a", "a b c", "s", "sm", "smart", "smart q", "x", "é", "t é", "t é ",
        "cal é ", "a\u{3000}b\u{3000}", "t\u{a0}ü\u{a0}", "cal\u{2003}s", "smart  ab ", "t \u{85}"];
    let tails = ["", " ", "  ", "\t", "é", " é", "\u{3000}"];
    let h = Handler::new();
    for head in heads {
        for word in words {
            for tail in tails {
                let raw = format!("{head}{word}{tail}");
                let got = h.try_handle(raw.clone()).map(|v| {
                    v.iter().map(|m| (m.name.clone(), m.path.clone(), m.description.clone())).collect::<Vec<_>>()
                });
                assert_eq!(got, direct(&raw), "input {raw:?}");
            }
        }
    }
}
