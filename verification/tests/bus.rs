use searchcuts::bus_stuff::{decimal_string, join_terms, parse_usize, result_ids, split_once_char, MetasError};
use searchcuts::searchcuts::Handler;

fn strings(v: &[&str]) -> Vec<String> {
    v.iter().map(|s| s.to_string()).collect()
}

#[test]
fn join_terms_with_spaces() {
    assert_eq!(join_terms(&strings(&["0cal", "show"])), "0cal show");
    assert_eq!(join_terms(&strings(&["one"])), "one");
    assert_eq!(join_terms(&strings(&[])), "");
    assert_eq!(join_terms(&strings(&["a", "", "b"])), "a  b");
}

#[test]
fn result_ids_are_numbered() {
    assert_eq!(result_ids("0cal", 2), strings(&["0-0cal", "1-0cal"]));
    assert_eq!(result_ids("x", 0), strings(&[]));
    assert_eq!(result_ids("e", 7), strings(&["0-e", "1-e", "2-e", "3-e", "4-e"]));
}

#[test]
fn result_set_for_terms() {
    let h = Handler::new();
    assert_eq!(h.result_set(&strings(&["0cal"])), Some(strings(&["0-0cal", "1-0cal"])));
    assert_eq!(h.result_set(&strings(&["0t", "good", "day"])), Some(strings(&["0-0t good day"])));
    assert_eq!(h.result_set(&strings(&["cal"])), Some(strings(&[])));
    assert_eq!(h.result_set(&strings(&["0t", "é", ""])), None);
}

#[test]
fn result_metas_describe_results() {
    let h = Handler::new();
    let metas = h.result_metas(&strings(&["0-0cal", "1-0cal"])).expect("metas");
    assert_eq!(metas.len(), 2);
    assert_eq!(metas[0].name, "cal show");
    assert_eq!(metas[0].id, "0-0cal");
    assert_eq!(metas[0].description, "cal ");
    assert_eq!(metas[0].icon, None);
    assert_eq!(metas[1].name, "cal remove");
    assert_eq!(metas[1].id, "1-0cal");
}

#[test]
fn result_metas_of_result_set_round_trip() {
    let h = Handler::new();
    for terms in [vec!["0cal"], vec!["0t", "word"], vec!["0cal", "show"], vec!["0s"]] {
        let terms = strings(&terms);
        let ids = h.result_set(&terms).expect("ids");
        let expr = join_terms(&terms);
        let results = h.handle(expr);
        let metas = h.result_metas(&ids).expect("metas");
        assert_eq!(metas.len(), ids.len());
        for (i, m) in metas.iter().enumerate() {
            assert_eq!(m.id, ids[i]);
            assert_eq!(m.name, results[i].name);
            assert_eq!(m.description, results[i].description);
        }
    }
}

#[test]
fn result_metas_use_each_ids_number() {
    let h = Handler::new();
    let metas = h.result_metas(&strings(&["1-0cal", "+0-anything"])).expect("metas");
    assert_eq!(metas[0].name, "cal remove");
    assert_eq!(metas[1].name, "cal show");
    assert_eq!(metas[1].id, "+0-anything");
}

#[test]
fn result_metas_errors() {
    let h = Handler::new();
    assert_eq!(h.result_metas(&strings(&[])).map(|v| v.len()), Ok(0));
    assert_eq!(h.result_metas(&strings(&["nodash"])).err(), Some(MetasError::MissingDash));
    assert_eq!(h.result_metas(&strings(&["0-0cal", "nodash"])).err(), Some(MetasError::MissingDash));
    assert_eq!(h.result_metas(&strings(&["a-0cal"])).err(), Some(MetasError::IdNotAnInt));
    assert_eq!(h.result_metas(&strings(&["7-0cal"])).err(), Some(MetasError::NoSuchResult));
    assert_eq!(h.result_metas(&strings(&["0-0t é "])).err(), Some(MetasError::NotCharBoundary));
    assert_eq!(h.result_metas(&strings(&["0-x"])).err(), Some(MetasError::NoSuchResult));
}

#[test]
fn decimal_matches_format() {
    for n in [0usize, 1, 9, 10, 42, 99, 100, 1234, 987654321, usize::MAX] {
        assert_eq!(decimal_string(n), format!("{n}"));
    }
}

#[test]
fn parse_matches_std() {
    let samples = [
        "", "+", "-", "0", "7", "+7", "-7", "007", "12a", " 1", "1 ", "18446744073709551615",
        "18446744073709551616", "99999999999999999999", "+0", "++1", "٣", "4294967295", "4294967296",
    ];
    for s in samples {
        assert_eq!(parse_usize(s), s.parse::<usize>().ok(), "parsing {s:?}");
    }
}

#[test]
fn split_once_matches_std() {
    for s in ["a-b", "-x", "x-", "no", "1-2-3", "", "é-ü"] {
        assert_eq!(split_once_char(s, '-'), s.split_once('-'), "splitting {s:?}");
    }
}
