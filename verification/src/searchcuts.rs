//! The search handler: the grammar of the search cuts, and how a search string or an
//! activated result is answered.
use vstd::prelude::*;
use vstd::string::*;

use crate::bus_stuff::{metas_view, MetaResult, MetaView};
use crate::grammar::{
    choices_view, lemma_activation_previewed, matching, run_layer, text_result, Choice, ChoiceView, Command, Grammar, Layer, LayerView, Outcome, OutcomeView, Target,
    TargetView, TextRule, TextRuleView,
};
use crate::text::{starts_with, trim, trim_str};

verus! {

/// The character every search for a cut starts with.
pub open spec fn prefix() -> Seq<char> {
    seq!['0']
}

/// A result with no icon.
pub open spec fn plain_result(name: Seq<char>, description: Seq<char>, path: Seq<char>) -> MetaView {
    MetaView { name, path, description, icon: None }
}

/// The grammar of the search cuts: `cal show`, `cal remove`, `t <text>`, `a <text>`, `smart <text>`.
pub open spec fn search_grammar() -> Seq<LayerView> {
    seq![
        LayerView::Choices(
            seq![
                ChoiceView { keyword: "cal"@, target: TargetView::Layer(1) },
                ChoiceView { keyword: "t"@, target: TargetView::Layer(2) },
                ChoiceView { keyword: "a"@, target: TargetView::Layer(3) },
                ChoiceView { keyword: "smart"@, target: TargetView::Layer(4) },
            ],
        ),
        LayerView::Choices(
            seq![
                ChoiceView {
                    keyword: "show"@,
                    target: TargetView::Results(
                        seq![plain_result("Calendar"@, "Showing calendar"@, "cal show"@)],
                    ),
                },
                ChoiceView {
                    keyword: "remove"@,
                    target: TargetView::Results(
                        seq![plain_result("Remove"@, "Remove calendar"@, "cal remove"@)],
                    ),
                },
            ],
        ),
        LayerView::Text(
            TextRuleView { title: "Translate"@, path: "translate"@, command: Command::Translate },
        ),
        LayerView::Text(
            TextRuleView {
                title: "AI Assistant"@,
                path: "assistant"@,
                command: Command::Assist { thinking: false },
            },
        ),
        LayerView::Text(
            TextRuleView {
                title: "Smart AI Assistant"@,
                path: "smart assistant"@,
                command: Command::Assist { thinking: true },
            },
        ),
    ]
}

/// The results for search string `raw` under grammar `g`; `None` where answering it would
/// panic on slicing the input off a character boundary.
pub open spec fn handle_spec(g: Seq<LayerView>, raw: Seq<char>) -> Option<Seq<MetaView>> {
    if !prefix().is_prefix_of(raw) {
        Some(seq![])
    } else if trim(raw.skip(1)).len() == 0 {
        Some(seq![])
    } else {
        match run_layer(g, 0, seq![], raw.skip(1), false) {
            Some(o) => Some(o.results),
            None => None,
        }
    }
}

/// What activating a result for a search string gives.
pub enum Activation {
    /// Nothing follows the prefix but white space.
    EmptyInput,
    /// The grammar was run to activate a result.
    Done(Outcome),
}

pub enum ActivationView {
    EmptyInput,
    Done(OutcomeView),
}

impl View for Activation {
    type V = ActivationView;

    open spec fn view(&self) -> ActivationView {
        match self {
            Activation::EmptyInput => ActivationView::EmptyInput,
            Activation::Done(o) => ActivationView::Done(o@),
        }
    }
}

/// Why an activation cannot go on; the search provider panics in either case.
#[derive(Clone, Copy, Debug, PartialEq, Eq, Structural)]
pub enum ActivateError {
    /// The activated string does not start with the prefix.
    MissingPrefix,
    /// A step of the grammar would slice the input off a character boundary.
    NotCharBoundary,
}

/// What activating search string `raw` under grammar `g` gives, or why it fails.
pub open spec fn activate_spec(g: Seq<LayerView>, raw: Seq<char>) -> Result<ActivationView, ActivateError> {
    if !prefix().is_prefix_of(raw) {
        Err(ActivateError::MissingPrefix)
    } else if trim(raw.skip(1)).len() == 0 {
        Ok(ActivationView::EmptyInput)
    } else {
        match run_layer(g, 0, seq![], raw.skip(1), true) {
            Some(o) => Ok(ActivationView::Done(o)),
            None => Err(ActivateError::NotCharBoundary),
        }
    }
}

/// Answers search strings with results of the search-cuts grammar.
pub struct Handler {
    parser: Grammar,
}

impl Handler {
    #[verifier::type_invariant]
    spec fn inv(self) -> bool {
        self.parser.wf()
    }

    /// The grammar the handler answers with.
    pub closed spec fn grammar(self) -> Seq<LayerView> {
        self.parser@
    }
}

/// A string with the contents of a literal.
fn owned(s: &str) -> (r: String)
    ensures
        r@ == s@,
{
    String::from_str(s)
}

/// A result with no icon.
pub fn res(n: &str, d: &str, p: &str) -> (r: MetaResult)
    ensures
        r@ == plain_result(n@, d@, p@),
{
    MetaResult { name: owned(n), description: owned(d), path: owned(p), icon: None }
}

/// The search-cuts grammar as data.
fn build_grammar() -> (g: Grammar)
    ensures
        g@ == search_grammar(),
        g.wf(),
{
    let root = vec![
        Choice { keyword: owned("cal"), target: Target::Layer(1) },
        Choice { keyword: owned("t"), target: Target::Layer(2) },
        Choice { keyword: owned("a"), target: Target::Layer(3) },
        Choice { keyword: owned("smart"), target: Target::Layer(4) },
    ];
    let show = vec![res("Calendar", "Showing calendar", "cal show")];
    let remove = vec![res("Remove", "Remove calendar", "cal remove")];
    assert(metas_view(show@) =~= seq![plain_result("Calendar"@, "Showing calendar"@, "cal show"@)]);
    assert(metas_view(remove@) =~= seq![plain_result("Remove"@, "Remove calendar"@, "cal remove"@)]);
    let calendar = vec![
        Choice { keyword: owned("show"), target: Target::Results(show) },
        Choice { keyword: owned("remove"), target: Target::Results(remove) },
    ];
    let translate = TextRule {
        title: owned("Translate"),
        path: owned("translate"),
        command: Command::Translate,
    };
    let assistant = TextRule {
        title: owned("AI Assistant"),
        path: owned("assistant"),
        command: Command::Assist { thinking: false },
    };
    let solve = TextRule {
        title: owned("Smart AI Assistant"),
        path: owned("smart assistant"),
        command: Command::Assist { thinking: true },
    };
    let g = Grammar {
        layers: vec![
            Layer::Choices(root),
            Layer::Choices(calendar),
            Layer::Text(translate),
            Layer::Text(assistant),
            Layer::Text(solve),
        ],
    };
    proof {
        reveal_strlit("cal");
        reveal_strlit("t");
        reveal_strlit("a");
        reveal_strlit("smart");
        reveal_strlit("show");
        reveal_strlit("remove");
    }
    let ghost sg = search_grammar();
    assert(choices_view(g.layers@[0]->Choices_0@) =~= sg[0]->Choices_0);
    assert(choices_view(g.layers@[1]->Choices_0@) =~= sg[1]->Choices_0);
    assert(g@ =~= sg);
    g
}


/// The prefix, as a string.
fn prefix_str() -> (s: &'static str)
    ensures
        s@ == prefix(),
{
    proof {
        reveal_strlit("0");
    }
    "0"
}

/// What follows the one-character prefix of `raw`.
fn after_prefix(raw: &str) -> (r: &str)
    requires
        prefix().is_prefix_of(raw@),
    ensures
        r@ == raw@.skip(1),
{
    let n = raw.unicode_len();
    let r = raw.substring_char(1, n);
    assert(r@ =~= raw@.skip(1));
    r
}

impl Handler {
    /// A handler for the search-cuts grammar.
    pub fn new() -> (h: Handler)
        ensures
            h.grammar() == search_grammar(),
    {
        Handler { parser: build_grammar() }
    }

    /// The results for `raw_input`, or `None` where the search provider panics: where a
    /// step of the grammar would slice the input off a character boundary.
    pub fn try_handle(&self, raw_input: String) -> (r: Option<Vec<MetaResult>>)
        ensures
            match r {
                Some(v) => handle_spec(self.grammar(), raw_input@) == Some(metas_view(v@)),
                None => handle_spec(self.grammar(), raw_input@) is None,
            },
    {
        proof {
            use_type_invariant(self);
        }
        let raw = raw_input.as_str();
        if !starts_with(raw, prefix_str()) {
            return Some(Vec::new());
        }
        let input = after_prefix(raw);
        if trim_str(input).is_empty() {
            return Some(Vec::new());
        }
        match self.parser.run_layer(0, String::new(), input, false) {
            Some(o) => Some(o.results),
            None => None,
        }
    }

    /// The results for `raw_input`: none unless it starts with the prefix and goes on with
    /// more than white space; else what the grammar gives for the rest.
    pub fn handle(&self, raw_input: String) -> (r: Vec<MetaResult>)
        requires
            handle_spec(self.grammar(), raw_input@) is Some,
        ensures
            handle_spec(self.grammar(), raw_input@) == Some(metas_view(r@)),
    {
        match self.try_handle(raw_input) {
            Some(v) => v,
            None => Vec::new(),
        }
    }

    /// Activates the result for `raw_input`, or tells why it cannot be activated.
    pub fn try_activate(&self, raw_input: String) -> (r: Result<Activation, ActivateError>)
        ensures
            match r {
                Ok(a) => activate_spec(self.grammar(), raw_input@) == Ok::<ActivationView, ActivateError>(a@),
                Err(e) => activate_spec(self.grammar(), raw_input@) == Err::<ActivationView, ActivateError>(e),
            },
    {
        proof {
            use_type_invariant(self);
        }
        let raw = raw_input.as_str();
        if !starts_with(raw, prefix_str()) {
            return Err(ActivateError::MissingPrefix);
        }
        let input = after_prefix(raw);
        if trim_str(input).is_empty() {
            return Ok(Activation::EmptyInput);
        }
        match self.parser.run_layer(0, String::new(), input, true) {
            Some(o) => Ok(Activation::Done(o)),
            None => Err(ActivateError::NotCharBoundary),
        }
    }

    /// Activates the result for `raw_input`: the results and the request that the grammar
    /// gives for what follows the prefix, or `EmptyInput` where only white space follows it.
    pub fn activate(&self, raw_input: String) -> (r: Activation)
        requires
            activate_spec(self.grammar(), raw_input@) is Ok,
        ensures
            activate_spec(self.grammar(), raw_input@) == Ok::<ActivationView, ActivateError>(r@),
    {
        match self.try_activate(raw_input) {
            Ok(a) => a,
            Err(_) => Activation::EmptyInput,
        }
    }
}

/// The arguments after command `name` at the start of `input`, trimmed.
pub open spec fn ensure_args_spec(name: Seq<char>, input: Seq<char>) -> Option<Seq<char>> {
    if name.is_prefix_of(input) {
        Some(trim(input.skip(name.len() as int)))
    } else {
        None
    }
}

/// The arguments after command `name` at the start of `input`, trimmed; `None` when
/// `input` does not start with `name`.
pub fn ensure_args(name: &str, input: &str) -> (r: Option<String>)
    ensures
        match r {
            Some(a) => ensure_args_spec(name@, input@) == Some(a@),
            None => ensure_args_spec(name@, input@) is None,
        },
{
    if !starts_with(input, name) {
        None
    } else {
        let k = name.unicode_len();
        let n = input.unicode_len();
        let after = input.substring_char(k, n);
        assert(after@ =~= input@.skip(k as int));
        Some(owned(trim_str(after)))
    }
}

/// The calendar result, when `input` starts with `cal`.
pub fn handle_cal(input: &str) -> (r: Option<MetaResult>)
    ensures
        match r {
            Some(m) => "cal"@.is_prefix_of(input@) && m@ == plain_result("Calendar"@, "Woah!"@, "calender"@),
            None => !"cal"@.is_prefix_of(input@),
        },
{
    let _args = ensure_args("cal", input)?;
    Some(res("Calendar", "Woah!", "calender"))
}


/// Activating a search string asks for a command on a text only where showing results for
/// the same string shows exactly one result: that command's preview of that text.
pub proof fn lemma_activated_request_was_shown(g: Seq<LayerView>, raw: Seq<char>)
    requires
        activate_spec(g, raw) matches Ok(ActivationView::Done(o)) && o.request is Some,
    ensures
        ({
            let q = activate_spec(g, raw)->Ok_0->Done_0.request.unwrap();
            exists|rule: TextRuleView|
                rule.command == q.command && handle_spec(g, raw) == Some(seq![text_result(rule, q.text)])
        }),
{
    let input = raw.skip(1);
    lemma_activation_previewed(g, 0, seq![], input);
    let q = run_layer(g, 0, seq![], input, true).unwrap().request.unwrap();
    let rule = choose|rule: TextRuleView|
        rule.command == q.command && run_layer(g, 0, seq![], input, false) == Some(
            OutcomeView { results: seq![text_result(rule, q.text)], request: None },
        );
    assert(rule.command == q.command && handle_spec(g, raw) == Some(seq![text_result(rule, q.text)]));
}


/// No search string starts with two keywords of one layer of the search-cuts grammar, so
/// no search is ambiguous.
pub proof fn lemma_search_grammar_unambiguous(input: Seq<char>)
    ensures
        forall|i: int|
            0 <= i < search_grammar().len() ==> (#[trigger] search_grammar()[i] matches LayerView::Choices(cs)
                ==> matching(cs, input, cs.len() as int).len() <= 1),
{
    reveal_strlit("cal");
    reveal_strlit("t");
    reveal_strlit("a");
    reveal_strlit("smart");
    reveal_strlit("show");
    reveal_strlit("remove");
    let g = search_grammar();
    if let LayerView::Choices(cs) = g[0] {
        assert forall|k: int| 0 <= k < cs.len() && #[trigger] cs[k].keyword.is_prefix_of(input) implies
            input[0] == cs[k].keyword[0] by {
            assert(cs[k].keyword[0] == input.subrange(0, cs[k].keyword.len() as int)[0]);
        }
        reveal_with_fuel(matching, 5);
        assert(cs[0].keyword[0] == 'c' && cs[1].keyword[0] == 't' && cs[2].keyword[0] == 'a'
            && cs[3].keyword[0] == 's');
        assert(matching(cs, input, cs.len() as int).len() <= 1);
    }
    if let LayerView::Choices(cs) = g[1] {
        assert forall|k: int| 0 <= k < cs.len() && #[trigger] cs[k].keyword.is_prefix_of(input) implies
            input[0] == cs[k].keyword[0] by {
            assert(cs[k].keyword[0] == input.subrange(0, cs[k].keyword.len() as int)[0]);
        }
        reveal_with_fuel(matching, 3);
        assert(cs[0].keyword[0] == 's' && cs[1].keyword[0] == 'r');
        assert(matching(cs, input, cs.len() as int).len() <= 1);
    }
}

} // verus!
