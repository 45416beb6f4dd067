//! Search grammars: layers of keywords that lead to further layers or to results,
//! and the interpreter that turns a search string into results.
use vstd::prelude::*;
use vstd::string::*;

use crate::bus_stuff::{copy_results, metas_view, MetaResult, MetaView};
use crate::text::{
    byte_len, byte_prefix, checked_byte_prefix, lemma_trim_is_subrange, lemma_trim_len, lemma_utf8_len_subrange, on_char_boundary,
    starts_with, trim, trim_str, utf8_len,
};

verus! {

/// What a text rule asks for once its result is activated.
#[derive(Clone, Copy, Debug, PartialEq, Eq, Structural)]
pub enum Command {
    /// Translate the text.
    Translate,
    /// Ask the assistant, with or without its thinking model.
    Assist { thinking: bool },
}

/// A command together with the text it applies to.
#[derive(Debug)]
pub struct Request {
    pub command: Command,
    pub text: String,
}

pub struct RequestView {
    pub command: Command,
    pub text: Seq<char>,
}

impl View for Request {
    type V = RequestView;

    open spec fn view(&self) -> RequestView {
        RequestView { command: self.command, text: self.text@ }
    }
}

/// Where a keyword leads: to another layer, or to a fixed list of results.
pub enum Target {
    Layer(usize),
    Results(Vec<MetaResult>),
}

pub enum TargetView {
    Layer(nat),
    Results(Seq<MetaView>),
}

impl View for Target {
    type V = TargetView;

    open spec fn view(&self) -> TargetView {
        match self {
            Target::Layer(j) => TargetView::Layer(*j as nat),
            Target::Results(v) => TargetView::Results(metas_view(v@)),
        }
    }
}

/// A keyword of a layer and where it leads.
pub struct Choice {
    pub keyword: String,
    pub target: Target,
}

pub struct ChoiceView {
    pub keyword: Seq<char>,
    pub target: TargetView,
}

impl View for Choice {
    type V = ChoiceView;

    open spec fn view(&self) -> ChoiceView {
        ChoiceView { keyword: self.keyword@, target: self.target@ }
    }
}

/// A layer that takes the rest of the input as free text.
pub struct TextRule {
    /// The start of the result's name, which goes on with the quoted text.
    pub title: String,
    /// The path of the result.
    pub path: String,
    /// What activating the result asks for.
    pub command: Command,
}

pub struct TextRuleView {
    pub title: Seq<char>,
    pub path: Seq<char>,
    pub command: Command,
}

impl View for TextRule {
    type V = TextRuleView;

    open spec fn view(&self) -> TextRuleView {
        TextRuleView { title: self.title@, path: self.path@, command: self.command }
    }
}

/// One layer of a grammar: a list of keywords, or free text.
pub enum Layer {
    Choices(Vec<Choice>),
    Text(TextRule),
}

pub enum LayerView {
    Choices(Seq<ChoiceView>),
    Text(TextRuleView),
}

/// The contents of a list of choices.
pub open spec fn choices_view(cs: Seq<Choice>) -> Seq<ChoiceView> {
    cs.map_values(|c: Choice| c@)
}

impl View for Layer {
    type V = LayerView;

    open spec fn view(&self) -> LayerView {
        match self {
            Layer::Choices(cs) => LayerView::Choices(choices_view(cs@)),
            Layer::Text(t) => LayerView::Text(t@),
        }
    }
}

/// A grammar; its first layer is the root.
pub struct Grammar {
    pub layers: Vec<Layer>,
}

impl View for Grammar {
    type V = Seq<LayerView>;

    open spec fn view(&self) -> Seq<LayerView> {
        self.layers@.map_values(|l: Layer| l@)
    }
}

/// Every keyword of `l` is non-empty, and every layer it leads to is below `n`.
pub open spec fn layer_wf(l: LayerView, n: nat) -> bool {
    match l {
        LayerView::Choices(cs) => forall|k: int|
            0 <= k < cs.len() ==> {
                &&& (#[trigger] cs[k]).keyword.len() > 0
                &&& (cs[k].target matches TargetView::Layer(j) ==> j < n)
            },
        LayerView::Text(_) => true,
    }
}

/// A grammar has a root, its keywords are not empty, and every layer a keyword leads to exists.
pub open spec fn grammar_wf(g: Seq<LayerView>) -> bool {
    &&& g.len() > 0
    &&& forall|i: int| 0 <= i < g.len() ==> layer_wf(#[trigger] g[i], g.len())
}

impl Grammar {
    pub open spec fn wf(&self) -> bool {
        grammar_wf(self@)
    }
}

/// What running a layer gives: results, and for an activated text rule, a request.
pub struct Outcome {
    pub results: Vec<MetaResult>,
    pub request: Option<Request>,
}

pub struct OutcomeView {
    pub results: Seq<MetaView>,
    pub request: Option<RequestView>,
}

pub open spec fn request_view(r: Option<Request>) -> Option<RequestView> {
    match r {
        Some(q) => Some(q@),
        None => None,
    }
}

impl View for Outcome {
    type V = OutcomeView;

    open spec fn view(&self) -> OutcomeView {
        OutcomeView { results: metas_view(self.results@), request: request_view(self.request) }
    }
}

pub open spec fn outcome_view(r: Option<Outcome>) -> Option<OutcomeView> {
    match r {
        Some(o) => Some(o@),
        None => None,
    }
}

/// No results and no request.
pub open spec fn no_outcome() -> OutcomeView {
    OutcomeView { results: seq![], request: None }
}

/// Indices, in order, of the first `k` choices whose keyword starts the input.
pub open spec fn matching(cs: Seq<ChoiceView>, input: Seq<char>, k: int) -> Seq<int>
    decreases k,
{
    if k <= 0 {
        seq![]
    } else if cs[k - 1].keyword.is_prefix_of(input) {
        matching(cs, input, k - 1).push(k - 1)
    } else {
        matching(cs, input, k - 1)
    }
}

/// The result that proposes `keyword` to complete `input`.
pub open spec fn suggestion(path: Seq<char>, input: Seq<char>, keyword: Seq<char>) -> MetaView {
    MetaView {
        name: trim(path) + seq![' '] + keyword,
        path: path + seq![' '] + input,
        description: trim(path) + seq![' '] + input,
        icon: None,
    }
}

/// Suggestions, in order, for those of the first `k` choices whose keyword the input starts.
pub open spec fn suggestions(cs: Seq<ChoiceView>, path: Seq<char>, input: Seq<char>, k: int) -> Seq<
    MetaView,
>
    decreases k,
{
    if k <= 0 {
        seq![]
    } else if input.is_prefix_of(cs[k - 1].keyword) {
        suggestions(cs, path, input, k - 1).push(suggestion(path, input, cs[k - 1].keyword))
    } else {
        suggestions(cs, path, input, k - 1)
    }
}

/// The result a text rule shows for `input` before it is activated.
pub open spec fn text_result(rule: TextRuleView, input: Seq<char>) -> MetaView {
    MetaView {
        name: rule.title + seq![' ', '"'] + input + seq!['"'],
        path: rule.path,
        description: seq![],
        icon: None,
    }
}

/// The input that is left once `keyword` and the white space around what follows it are taken off.
pub open spec fn rest_after(input: Seq<char>, keyword: Seq<char>) -> Seq<char> {
    trim(input.skip(keyword.len() as int))
}

/// How many bytes of `input` the step over `keyword` takes away.
pub open spec fn consumed(input: Seq<char>, keyword: Seq<char>) -> int {
    utf8_len(input) - utf8_len(rest_after(input, keyword))
}

/// What layer `i` of grammar `g` gives for `input`, reached along `path`;
/// `None` where the byte slice that extends the path would not fall on a character boundary.
pub open spec fn run_layer(
    g: Seq<LayerView>,
    i: int,
    path: Seq<char>,
    input: Seq<char>,
    activate: bool,
) -> Option<OutcomeView>
    decreases input.len(),
{
    if !(0 <= i < g.len()) {
        Some(no_outcome())
    } else {
        match g[i] {
            LayerView::Text(rule) => if activate {
                Some(
                    OutcomeView {
                        results: seq![],
                        request: Some(RequestView { command: rule.command, text: input }),
                    },
                )
            } else {
                Some(OutcomeView { results: seq![text_result(rule, input)], request: None })
            },
            LayerView::Choices(cs) => {
                let found = matching(cs, input, cs.len() as int);
                if activate && found.len() != 1 {
                    Some(no_outcome())
                } else if found.len() == 1 {
                    let c = cs[found[0]];
                    let n = consumed(input, c.keyword);
                    if !on_char_boundary(input, n) {
                        None
                    } else {
                        match c.target {
                            TargetView::Results(r) => Some(OutcomeView { results: r, request: None }),
                            TargetView::Layer(j) => if 0 < c.keyword.len() <= input.len() {
                                proof {
                                    lemma_trim_len(input.skip(c.keyword.len() as int));
                                }
                                run_layer(
                                    g,
                                    j as int,
                                    path + byte_prefix(input, n),
                                    rest_after(input, c.keyword),
                                    activate,
                                )
                            } else {
                                Some(no_outcome())
                            },
                        }
                    }
                } else if found.len() == 0 {
                    Some(
                        OutcomeView {
                            results: suggestions(cs, path, input, cs.len() as int),
                            request: None,
                        },
                    )
                } else {
                    Some(no_outcome())
                }
            },
        }
    }
}

/// Every index that `matching` lists is a choice whose keyword starts the input.
proof fn lemma_matching(cs: Seq<ChoiceView>, input: Seq<char>, k: int)
    requires
        0 <= k <= cs.len(),
    ensures
        forall|t: int|
            0 <= t < matching(cs, input, k).len() ==> {
                let m = #[trigger] matching(cs, input, k)[t];
                &&& 0 <= m < k
                &&& cs[m].keyword.is_prefix_of(input)
            },
    decreases k,
{
    if k > 0 {
        lemma_matching(cs, input, k - 1);
    }
}

/// The single space.
fn space() -> (s: &'static str)
    ensures
        s@ == seq![' '],
{
    proof {
        reveal_strlit(" ");
    }
    " "
}

/// Indices of the choices whose keyword starts `input`.
fn matching_indices(cs: &Vec<Choice>, input: &str) -> (v: Vec<usize>)
    ensures
        v@.len() == matching(choices_view(cs@), input@, cs.len() as int).len(),
        forall|t: int|
            0 <= t < v@.len() ==> v@[t] as int == matching(choices_view(cs@), input@, cs.len() as int)[t],
{
    let ghost cv = choices_view(cs@);
    let mut v: Vec<usize> = Vec::new();
    for i in 0..cs.len()
        invariant
            cv == choices_view(cs@),
            v@.len() == matching(cv, input@, i as int).len(),
            forall|t: int| 0 <= t < v@.len() ==> v@[t] as int == matching(cv, input@, i as int)[t],
    {
        assert(cv[i as int] == cs@[i as int]@);
        if starts_with(input, cs[i].keyword.as_str()) {
            v.push(i);
        }
    }
    v
}

/// The suggestions of `cs` for `input` reached along `path`.
fn suggest(cs: &Vec<Choice>, path: &String, input: &str) -> (r: Vec<MetaResult>)
    ensures
        metas_view(r@) == suggestions(choices_view(cs@), path@, input@, cs.len() as int),
{
    let ghost cv = choices_view(cs@);
    let tp = trim_str(path.as_str());
    let mut r: Vec<MetaResult> = Vec::new();
    for i in 0..cs.len()
        invariant
            cv == choices_view(cs@),
            tp@ == trim(path@),
            metas_view(r@) == suggestions(cv, path@, input@, i as int),
    {
        assert(cv[i as int] == cs@[i as int]@);
        let kw = cs[i].keyword.as_str();
        if starts_with(kw, input) {
            let mut name = String::from_str(tp);
            name.append(space());
            name.append(kw);
            let mut p = path.clone();
            p.append(space());
            p.append(input);
            let mut description = String::from_str(tp);
            description.append(space());
            description.append(input);
            let m = MetaResult { name, path: p, description, icon: None };
            let ghost old_r = r@;
            r.push(m);
            assert(metas_view(r@) =~= metas_view(old_r).push(m@));
        }
    }
    r
}

/// The result `rule` shows for `input`.
fn make_text_result(rule: &TextRule, input: &str) -> (m: MetaResult)
    ensures
        m@ == text_result(rule@, input@),
{
    let open = " \"";
    let close = "\"";
    proof {
        reveal_strlit(" \"");
        reveal_strlit("\"");
    }
    let mut name = String::from_str(rule.title.as_str());
    name.append(open);
    name.append(input);
    name.append(close);
    assert(name@ =~= rule@.title + seq![' ', '"'] + input@ + seq!['"']);
    let description = String::new();
    assert(description@ =~= seq![]);
    MetaResult { name, path: rule.path.clone(), description, icon: None }
}

impl Grammar {
    /// Runs layer `i` on `input`, reached along `path`, for showing results or, with
    /// `activate`, for activating one. `None` where the step would panic on
    /// slicing the input off a character boundary.
    pub fn run_layer(&self, i: usize, path: String, input: &str, activate: bool) -> (r: Option<
        Outcome,
    >)
        requires
            self.wf(),
            i < self@.len(),
        ensures
            outcome_view(r) == run_layer(self@, i as int, path@, input@, activate),
        decreases input@.len(),
    {
        let ghost g = self@;
        assert(g[i as int] == self.layers@[i as int]@);
        match &self.layers[i] {
            Layer::Text(rule) => {
                if !activate {
                    let m = make_text_result(rule, input);
                    let results = vec![m];
                    assert(metas_view(results@) =~= seq![m@]);
                    Some(Outcome { results, request: None })
                } else {
                    let results: Vec<MetaResult> = Vec::new();
                    assert(metas_view(results@) =~= seq![]);
                    Some(
                        Outcome {
                            results,
                            request: Some(Request { command: rule.command, text: String::from_str(input) }),
                        },
                    )
                }
            },
            Layer::Choices(cs) => {
                let ghost cv = choices_view(cs@);
                let found = matching_indices(cs, input);
                proof {
                    lemma_matching(cv, input@, cs.len() as int);
                }
                if activate && found.len() != 1 {
                    let results: Vec<MetaResult> = Vec::new();
                    assert(metas_view(results@) =~= seq![]);
                    return Some(Outcome { results, request: None });
                }
                if found.len() == 1 {
                    let c = &cs[found[0]];
                    let ghost ci = found@[0] as int;
                    assert(cv[ci] == c@);
                    assert(matching(cv, input@, cs.len() as int)[0] == ci);
                    let k = c.keyword.as_str().unicode_len();
                    let n = input.unicode_len();
                    let after = input.substring_char(k, n);
                    assert(after@ =~= input@.skip(k as int));
                    let rest = trim_str(after);
                    proof {
                        lemma_trim_len(after@);
                        lemma_rest_shorter(input@, k as int, rest@);
                    }
                    let cut = byte_len(input) - byte_len(rest);
                    match checked_byte_prefix(input, cut) {
                        None => None,
                        Some(pre) => {
                            match &c.target {
                                Target::Results(res) => {
                                    Some(Outcome { results: copy_results(res), request: None })
                                },
                                Target::Layer(j) => {
                                    let mut new_path = path;
                                    new_path.append(pre);
                                    self.run_layer(*j, new_path, rest, activate)
                                },
                            }
                        },
                    }
                } else if found.len() == 0 {
                    Some(Outcome { results: suggest(cs, &path, input), request: None })
                } else {
                    let results: Vec<MetaResult> = Vec::new();
                    assert(metas_view(results@) =~= seq![]);
                    Some(Outcome { results, request: None })
                }
            },
        }
    }
}

/// What is left after a keyword takes no more bytes than the input it was taken from.
proof fn lemma_rest_shorter(input: Seq<char>, k: int, rest: Seq<char>)
    requires
        0 <= k <= input.len(),
        rest == trim(input.skip(k)),
    ensures
        utf8_len(rest) <= utf8_len(input),
{
    let t = input.skip(k);
    let (a, b) = lemma_trim_is_subrange(t);
    assert(rest =~= input.subrange(k + a, k + b));
    lemma_utf8_len_subrange(input, k + a, k + b);
}


/// Whatever request activating an input gives, showing results for the same input gives
/// exactly one result: the text rule's preview of that same text, under a rule with that
/// same command.
pub proof fn lemma_activation_previewed(
    g: Seq<LayerView>,
    i: int,
    path: Seq<char>,
    input: Seq<char>,
)
    requires
        run_layer(g, i, path, input, true) matches Some(o) && o.request is Some,
    ensures
        ({
            let q = run_layer(g, i, path, input, true).unwrap().request.unwrap();
            exists|rule: TextRuleView|
                rule.command == q.command && run_layer(g, i, path, input, false) == Some(
                    OutcomeView { results: seq![text_result(rule, q.text)], request: None },
                )
        }),
    decreases input.len(),
{
    if 0 <= i < g.len() {
        match g[i] {
            LayerView::Text(rule) => {
                let q = run_layer(g, i, path, input, true).unwrap().request.unwrap();
                assert(rule.command == q.command && run_layer(g, i, path, input, false) == Some(
                    OutcomeView { results: seq![text_result(rule, q.text)], request: None },
                ));
            },
            LayerView::Choices(cs) => {
                let found = matching(cs, input, cs.len() as int);
                if found.len() == 1 {
                    let c = cs[found[0]];
                    let n = consumed(input, c.keyword);
                    if on_char_boundary(input, n) {
                        if let TargetView::Layer(j) = c.target {
                            if 0 < c.keyword.len() <= input.len() {
                                lemma_trim_len(input.skip(c.keyword.len() as int));
                                let p2 = path + byte_prefix(input, n);
                                let in2 = rest_after(input, c.keyword);
                                lemma_activation_previewed(g, j as int, p2, in2);
                                let q = run_layer(g, j as int, p2, in2, true).unwrap().request.unwrap();
                                let rule = choose|rule: TextRuleView|
                                    rule.command == q.command && run_layer(g, j as int, p2, in2, false)
                                        == Some(
                                        OutcomeView {
                                            results: seq![text_result(rule, q.text)],
                                            request: None,
                                        },
                                    );
                                assert(run_layer(g, i, path, input, false) == run_layer(
                                    g,
                                    j as int,
                                    p2,
                                    in2,
                                    false,
                                ));
                                assert(rule.command == q.command && run_layer(g, i, path, input, false)
                                    == Some(
                                    OutcomeView {
                                        results: seq![text_result(rule, q.text)],
                                        request: None,
                                    },
                                ));
                            }
                        }
                    }
                }
            },
        }
    }
}


/// With the `k`-th keyword the only one that starts the input, the first `n` choices
/// match exactly at `k`.
proof fn lemma_matching_single(cs: Seq<ChoiceView>, input: Seq<char>, k: int, n: int)
    requires
        0 <= n <= cs.len(),
        0 <= k < cs.len(),
        cs[k].keyword.is_prefix_of(input),
        forall|m: int| 0 <= m < cs.len() && m != k ==> !(#[trigger] cs[m].keyword.is_prefix_of(input)),
    ensures
        matching(cs, input, n) == (if n <= k { seq![] } else { seq![k] }),
    decreases n,
{
    if n > 0 {
        lemma_matching_single(cs, input, k, n - 1);
        if n - 1 == k {
            assert(seq![].push(k) =~= seq![k]);
        }
    }
}

/// With no keyword starting the input, none of the first `n` choices match.
proof fn lemma_matching_none(cs: Seq<ChoiceView>, input: Seq<char>, n: int)
    requires
        0 <= n <= cs.len(),
        forall|m: int| 0 <= m < cs.len() ==> !(#[trigger] cs[m].keyword.is_prefix_of(input)),
    ensures
        matching(cs, input, n) == Seq::<int>::empty(),
    decreases n,
{
    if n > 0 {
        lemma_matching_none(cs, input, n - 1);
    }
}

/// A keyword that leads to a text rule hands that rule the whole of the input after the
/// keyword, trimmed, however long it is: activated, the rule asks for its command on exactly
/// that text; shown, it previews exactly that text as `title "text"`.
pub proof fn lemma_text_rule_takes_whole_rest(
    g: Seq<LayerView>,
    i: int,
    path: Seq<char>,
    input: Seq<char>,
    cs: Seq<ChoiceView>,
    k: int,
    j: int,
    rule: TextRuleView,
)
    requires
        grammar_wf(g),
        0 <= i < g.len(),
        g[i] == LayerView::Choices(cs),
        0 <= k < cs.len(),
        cs[k].keyword.is_prefix_of(input),
        forall|m: int| 0 <= m < cs.len() && m != k ==> !(#[trigger] cs[m].keyword.is_prefix_of(input)),
        cs[k].target == TargetView::Layer(j as nat),
        0 <= j < g.len(),
        g[j] == LayerView::Text(rule),
        vstd::utf8::is_char_boundary(
            vstd::utf8::encode_utf8(input),
            vstd::utf8::encode_utf8(input).len() - vstd::utf8::encode_utf8(
                trim(input.skip(cs[k].keyword.len() as int)),
            ).len(),
        ),
    ensures
        (run_layer(g, i, path, input, true) is Some),
        run_layer(g, i, path, input, true).unwrap().results.len() == 0,
        run_layer(g, i, path, input, true).unwrap().request == Some(
            (RequestView { command: rule.command, text: trim(input.skip(cs[k].keyword.len() as int)) }),
        ),
        (run_layer(g, i, path, input, false) is Some),
        run_layer(g, i, path, input, false).unwrap().request == Option::<RequestView>::None,
        shown(g, i, path, input).len() == 1,
        shown(g, i, path, input)[0].name == rule.title + seq![' ', '"'] + trim(
            input.skip(cs[k].keyword.len() as int),
        ) + seq!['"'],
        shown(g, i, path, input)[0].path == rule.path,
        shown(g, i, path, input)[0].description == Seq::<char>::empty(),
        shown(g, i, path, input)[0].icon == Option::<Seq<char>>::None,
{
    lemma_matching_single(cs, input, k, cs.len() as int);
    assert(layer_wf(g[i], g.len()));
    assert(cs[k].keyword.len() > 0);
    let kw = cs[k].keyword;
    let rest = rest_after(input, kw);
    let n = consumed(input, kw);
    lemma_trim_len(input.skip(kw.len() as int));
    let p2 = path + byte_prefix(input, n);
    assert(run_layer(g, i, path, input, true) == run_layer(g, j, p2, rest, true));
    assert(run_layer(g, i, path, input, false) == run_layer(g, j, p2, rest, false));
}

/// `suggestions` over the first `n` choices: one per keyword the input starts, and only those.
proof fn lemma_suggestions_members(cs: Seq<ChoiceView>, path: Seq<char>, input: Seq<char>, n: int)
    requires
        0 <= n <= cs.len(),
    ensures
        forall|m: int|
            0 <= m < n && input.is_prefix_of(#[trigger] cs[m].keyword) ==> exists|t: int|
                0 <= t < suggestions(cs, path, input, n).len() && #[trigger] suggestions(
                    cs,
                    path,
                    input,
                    n,
                )[t] == suggestion(path, input, cs[m].keyword),
        forall|t: int|
            0 <= t < suggestions(cs, path, input, n).len() ==> exists|m: int|
                0 <= m < n && input.is_prefix_of(#[trigger] cs[m].keyword) && #[trigger] suggestions(
                    cs,
                    path,
                    input,
                    n,
                )[t] == suggestion(path, input, cs[m].keyword),
    decreases n,
{
    if n > 0 {
        lemma_suggestions_members(cs, path, input, n - 1);
        let prev = suggestions(cs, path, input, n - 1);
        let cur = suggestions(cs, path, input, n);
        if input.is_prefix_of(cs[n - 1].keyword) {
            assert(cur == prev.push(suggestion(path, input, cs[n - 1].keyword)));
            assert forall|m: int|
                0 <= m < n && input.is_prefix_of(#[trigger] cs[m].keyword) implies exists|t: int|
                0 <= t < cur.len() && #[trigger] cur[t] == suggestion(path, input, cs[m].keyword) by {
                if m == n - 1 {
                    assert(cur[prev.len() as int] == suggestion(path, input, cs[m].keyword));
                } else {
                    let t = choose|t: int|
                        0 <= t < prev.len() && #[trigger] prev[t] == suggestion(path, input, cs[m].keyword);
                    assert(cur[t] == prev[t]);
                }
            }
            assert forall|t: int| 0 <= t < cur.len() implies exists|m: int|
                0 <= m < n && input.is_prefix_of(#[trigger] cs[m].keyword) && #[trigger] cur[t]
                    == suggestion(path, input, cs[m].keyword) by {
                if t == prev.len() {
                    assert(input.is_prefix_of(cs[n - 1].keyword) && cur[t] == suggestion(
                        path,
                        input,
                        cs[n - 1].keyword,
                    ));
                } else {
                    assert(cur[t] == prev[t]);
                    let m = choose|m: int|
                        0 <= m < n - 1 && input.is_prefix_of(#[trigger] cs[m].keyword) && #[trigger] prev[t]
                            == suggestion(path, input, cs[m].keyword);
                    assert(input.is_prefix_of(cs[m].keyword) && cur[t] == suggestion(path, input, cs[m].keyword));
                }
            }
        }
    }
}

/// The result that offers `keyword` for `input`, reached along `path`: it names
/// `trim(path) + " " + keyword`, with path `path + " " + input` and description
/// `trim(path) + " " + input`.
pub open spec fn completion(path: Seq<char>, input: Seq<char>, keyword: Seq<char>) -> MetaView {
    MetaView {
        name: trim(path) + seq![' '] + keyword,
        path: path + seq![' '] + input,
        description: trim(path) + seq![' '] + input,
        icon: None,
    }
}

/// The results a layer shows for an input.
pub open spec fn shown(g: Seq<LayerView>, i: int, path: Seq<char>, input: Seq<char>) -> Seq<MetaView> {
    run_layer(g, i, path, input, false).unwrap().results
}

/// Where no keyword of a layer starts the input, the layer answers with the completion of
/// every keyword that the input starts, whatever the input's length, and with nothing else.
pub proof fn lemma_suggests_every_completion(
    g: Seq<LayerView>,
    i: int,
    path: Seq<char>,
    input: Seq<char>,
    cs: Seq<ChoiceView>,
)
    requires
        0 <= i < g.len(),
        g[i] == LayerView::Choices(cs),
        forall|m: int| 0 <= m < cs.len() ==> !(#[trigger] cs[m].keyword.is_prefix_of(input)),
    ensures
        (run_layer(g, i, path, input, false) is Some),
        (run_layer(g, i, path, input, false).unwrap().request is None),
        forall|m: int|
            0 <= m < cs.len() && input.is_prefix_of(#[trigger] cs[m].keyword) ==> (exists|t: int|
                0 <= t < shown(g, i, path, input).len() && #[trigger] shown(g, i, path, input)[t]
                    == completion(path, input, cs[m].keyword)),
        forall|t: int|
            0 <= t < shown(g, i, path, input).len() ==> (exists|m: int|
                0 <= m < cs.len() && input.is_prefix_of(#[trigger] cs[m].keyword) && #[trigger] shown(
                    g,
                    i,
                    path,
                    input,
                )[t] == completion(path, input, cs[m].keyword)),
{
    lemma_matching_none(cs, input, cs.len() as int);
    lemma_suggestions_members(cs, path, input, cs.len() as int);
    assert(run_layer(g, i, path, input, false) == Some(
        OutcomeView { results: suggestions(cs, path, input, cs.len() as int), request: None },
    ));
    let sh = suggestions(cs, path, input, cs.len() as int);
    assert(shown(g, i, path, input) == sh);
    assert forall|m: int|
        0 <= m < cs.len() && input.is_prefix_of(#[trigger] cs[m].keyword) implies (exists|t: int|
        0 <= t < shown(g, i, path, input).len() && #[trigger] shown(g, i, path, input)[t]
            == completion(path, input, cs[m].keyword)) by {
        let t = choose|t: int| 0 <= t < sh.len() && #[trigger] sh[t] == suggestion(path, input, cs[m].keyword);
        assert(shown(g, i, path, input)[t] == completion(path, input, cs[m].keyword));
    }
}

} // verus!
