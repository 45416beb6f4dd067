//! Search results and what the session bus is told about them: result identifiers and
//! the metadata they resolve to.
use vstd::prelude::*;
use vstd::string::*;

use crate::searchcuts::{handle_spec, Handler};
use crate::grammar::LayerView;

verus! {

/// One search result as the shell shows it.
#[derive(Debug)]
pub struct MetaResult {
    pub name: String,
    pub path: String,
    pub description: String,
    pub icon: Option<String>,
}

/// The contents of a [`MetaResult`].
pub struct MetaView {
    pub name: Seq<char>,
    pub path: Seq<char>,
    pub description: Seq<char>,
    pub icon: Option<Seq<char>>,
}

/// The contents of an optional string.
pub open spec fn opt_view(s: Option<String>) -> Option<Seq<char>> {
    match s {
        Some(t) => Some(t@),
        None => None,
    }
}

impl View for MetaResult {
    type V = MetaView;

    open spec fn view(&self) -> MetaView {
        MetaView {
            name: self.name@,
            path: self.path@,
            description: self.description@,
            icon: opt_view(self.icon),
        }
    }
}

/// The contents of a list of results.
pub open spec fn metas_view(v: Seq<MetaResult>) -> Seq<MetaView> {
    v.map_values(|m: MetaResult| m@)
}

/// A copy of an optional string.
pub fn copy_opt_string(s: &Option<String>) -> (r: Option<String>)
    ensures
        opt_view(r) == opt_view(*s),
{
    match s {
        Some(t) => Some(t.clone()),
        None => None,
    }
}

impl MetaResult {
    /// A copy of this result.
    pub fn duplicate(&self) -> (r: MetaResult)
        ensures
            r@ == self@,
    {
        MetaResult {
            name: self.name.clone(),
            path: self.path.clone(),
            description: self.description.clone(),
            icon: copy_opt_string(&self.icon),
        }
    }
}

/// A copy of a list of results.
pub fn copy_results(v: &Vec<MetaResult>) -> (r: Vec<MetaResult>)
    ensures
        metas_view(r@) == metas_view(v@),
{
    let mut r: Vec<MetaResult> = Vec::new();
    for i in 0..v.len()
        invariant
            r.len() == i,
            forall|k: int| 0 <= k < i ==> (#[trigger] r@[k])@ == v@[k]@,
    {
        r.push(v[i].duplicate());
    }
    assert(metas_view(r@) =~= metas_view(v@));
    r
}


/// The contents of a list of strings.
pub open spec fn strings_view(v: Seq<String>) -> Seq<Seq<char>> {
    v.map_values(|s: String| s@)
}

/// `parts` joined with `sep` between each two of them, as `[String]::join` does.
pub open spec fn join(parts: Seq<Seq<char>>, sep: Seq<char>) -> Seq<char>
    decreases parts.len(),
{
    if parts.len() == 0 {
        seq![]
    } else if parts.len() == 1 {
        parts[0]
    } else {
        join(parts.drop_last(), sep) + sep + parts.last()
    }
}

/// The search terms joined with single spaces.
pub fn join_terms(terms: &Vec<String>) -> (r: String)
    ensures
        r@ == join(strings_view(terms@), seq![' ']),
{
    let sep = " ";
    proof {
        reveal_strlit(" ");
    }
    let ghost parts = strings_view(terms@);
    let mut r = String::new();
    assert(r@ =~= join(parts.take(0), seq![' ']));
    for i in 0..terms.len()
        invariant
            parts == strings_view(terms@),
            sep@ == seq![' '],
            r@ == join(parts.take(i as int), seq![' ']),
    {
        assert(parts.take(i + 1).drop_last() =~= parts.take(i as int));
        assert(parts.take(i + 1).last() == terms@[i as int]@);
        if i != 0 {
            r.append(sep);
        } else {
            assert(r@ =~= seq![]);
        }
        r.append(terms[i].as_str());
        assert(i == 0 ==> r@ =~= parts.take(i + 1)[0]);
    }
    assert(parts.take(terms.len() as int) =~= parts);
    r
}

/// The decimal digit for `d`.
pub open spec fn digit_char(d: nat) -> char {
    (d + 48) as char
}

/// `n` written in decimal, as `format!("{n}")` writes it.
pub open spec fn decimal(n: nat) -> Seq<char>
    decreases n,
{
    if n < 10 {
        seq![digit_char(n)]
    } else {
        decimal(n / 10).push(digit_char(n % 10))
    }
}

/// The one-character string of decimal digit `d`.
fn digit_str(d: usize) -> (s: &'static str)
    requires
        d < 10,
    ensures
        s@ == seq![digit_char(d as nat)],
{
    proof {
        reveal_strlit("0");
        reveal_strlit("1");
        reveal_strlit("2");
        reveal_strlit("3");
        reveal_strlit("4");
        reveal_strlit("5");
        reveal_strlit("6");
        reveal_strlit("7");
        reveal_strlit("8");
        reveal_strlit("9");
    }
    match d {
        0 => "0",
        1 => "1",
        2 => "2",
        3 => "3",
        4 => "4",
        5 => "5",
        6 => "6",
        7 => "7",
        8 => "8",
        _ => "9",
    }
}

/// `n` written in decimal.
pub fn decimal_string(n: usize) -> (s: String)
    ensures
        s@ == decimal(n as nat),
    decreases n,
{
    if n < 10 {
        String::from_str(digit_str(n))
    } else {
        let mut s = decimal_string(n / 10);
        s.append(digit_str(n % 10));
        s
    }
}

/// The largest number of results the shell is offered.
pub const MAX_RESULTS: usize = 5;

/// The identifier of result `i` for search string `expr`.
pub open spec fn result_id(i: nat, expr: Seq<char>) -> Seq<char> {
    decimal(i) + seq!['-'] + expr
}

/// The identifiers of the first `n` results, at most `MAX_RESULTS` of them, for `expr`.
pub open spec fn result_ids_spec(expr: Seq<char>, n: nat) -> Seq<Seq<char>> {
    let k = if n < MAX_RESULTS { n } else { MAX_RESULTS as nat };
    Seq::new(k, |i: int| result_id(i as nat, expr))
}

/// Identifiers `"{i}-{expr}"` for the first results, at most `MAX_RESULTS`, of `n` results.
pub fn result_ids(expr: &str, n: usize) -> (ids: Vec<String>)
    ensures
        strings_view(ids@) == result_ids_spec(expr@, n as nat),
{
    let dash = "-";
    proof {
        reveal_strlit("-");
    }
    let k = if n < MAX_RESULTS {
        n
    } else {
        MAX_RESULTS
    };
    let mut ids: Vec<String> = Vec::new();
    for i in 0..k
        invariant
            dash@ == seq!['-'],
            ids.len() == i,
            forall|t: int| 0 <= t < i ==> (#[trigger] ids@[t])@ == result_id(t as nat, expr@),
    {
        let mut id = decimal_string(i);
        id.append(dash);
        id.append(expr);
        ids.push(id);
    }
    assert(strings_view(ids@) =~= result_ids_spec(expr@, n as nat));
    ids
}

/// The identifiers answered for `terms`: those of the results for the joined terms; `None`
/// where the handler panics on them.
pub open spec fn result_set_spec(g: Seq<LayerView>, terms: Seq<Seq<char>>) -> Option<Seq<Seq<char>>> {
    let expr = join(terms, seq![' ']);
    match handle_spec(g, expr) {
        Some(results) => Some(result_ids_spec(expr, results.len())),
        None => None,
    }
}

impl Handler {
    /// The identifiers of the results for `terms` joined with spaces, at most
    /// `MAX_RESULTS` of them; `None` where answering them would slice off a character boundary.
    pub fn result_set(&self, terms: &Vec<String>) -> (r: Option<Vec<String>>)
        ensures
            match r {
                Some(ids) => result_set_spec(self.grammar(), strings_view(terms@)) == Some(strings_view(ids@)),
                None => result_set_spec(self.grammar(), strings_view(terms@)) is None,
            },
    {
        let expr = join_terms(terms);
        let results = self.try_handle(expr.clone())?;
        Some(result_ids(expr.as_str(), results.len()))
    }
}


/// The index of the first `c` in `s` at or after `from`.
pub open spec fn find_from(s: Seq<char>, c: char, from: int) -> Option<int>
    decreases s.len() - from,
{
    if from < 0 || from >= s.len() {
        None
    } else if s[from] == c {
        Some(from)
    } else {
        find_from(s, c, from + 1)
    }
}

/// `s` split around its first `c`, as `str::split_once` splits it.
pub open spec fn split_once(s: Seq<char>, c: char) -> Option<(Seq<char>, Seq<char>)> {
    match find_from(s, c, 0) {
        Some(k) => Some((s.take(k), s.skip(k + 1))),
        None => None,
    }
}

/// Where `find_from` finds nothing, no character from `from` on is `c`; where it finds
/// something, it is the first `c` from there.
proof fn lemma_find_from(s: Seq<char>, c: char, from: int)
    requires
        0 <= from <= s.len(),
    ensures
        match find_from(s, c, from) {
            Some(k) => from <= k < s.len() && s[k] == c && forall|t: int| from <= t < k ==> s[t] != c,
            None => forall|t: int| from <= t < s.len() ==> s[t] != c,
        },
    decreases s.len() - from,
{
    if from < s.len() && s[from] != c {
        lemma_find_from(s, c, from + 1);
    }
}

/// `s` split around its first `c`.
pub fn split_once_char(s: &str, c: char) -> (r: Option<(&str, &str)>)
    ensures
        match r {
            Some((a, b)) => split_once(s@, c) == Some((a@, b@)),
            None => split_once(s@, c) is None,
        },
{
    let v = crate::text::chars_of(s);
    let n = v.len();
    let mut i: usize = 0;
    while i < n
        invariant
            v@ == s@,
            n == v.len(),
            i <= n,
            find_from(s@, c, 0) == find_from(s@, c, i as int),
        decreases n - i,
    {
        if v[i] == c {
            let a = s.substring_char(0, i);
            let b = s.substring_char(i + 1, n);
            assert(a@ =~= s@.take(i as int));
            assert(b@ =~= s@.skip(i + 1));
            return Some((a, b));
        }
        i = i + 1;
    }
    None
}

/// The value of a string of decimal digits.
pub open spec fn digits_value(s: Seq<char>) -> nat
    decreases s.len(),
{
    if s.len() == 0 {
        0
    } else {
        digits_value(s.drop_last()) * 10 + ((s.last() as nat) - 48) as nat
    }
}

pub open spec fn is_digit(c: char) -> bool {
    '0' <= c <= '9'
}

/// `s` without its leading `+`, if it has one.
pub open spec fn unsigned_digits(s: Seq<char>) -> Seq<char> {
    if s.len() > 0 && s[0] == '+' {
        s.drop_first()
    } else {
        s
    }
}

/// Every character of `d` is a decimal digit.
pub open spec fn all_digits(d: Seq<char>) -> bool {
    forall|i: int| 0 <= i < d.len() ==> is_digit(#[trigger] d[i])
}

/// What `s.parse::<usize>()` gives: an optional `+`, then one or more decimal digits whose
/// value fits in a `usize`.
pub open spec fn parse_usize_spec(s: Seq<char>) -> Option<usize> {
    let d = unsigned_digits(s);
    if d.len() > 0 && all_digits(d) && digits_value(d) <= usize::MAX {
        Some(digits_value(d) as usize)
    } else {
        None
    }
}

/// A longer digit string is worth at least as much as its prefix.
proof fn lemma_digits_value_prefix(s: Seq<char>, i: int)
    requires
        0 <= i <= s.len(),
    ensures
        digits_value(s.take(i)) <= digits_value(s),
    decreases s.len() - i,
{
    if i < s.len() {
        lemma_digits_value_prefix(s, i + 1);
        assert(s.take(i + 1).drop_last() =~= s.take(i));
    } else {
        assert(s.take(i) =~= s);
    }
}

/// The number that `s` writes in decimal, as `str::parse::<usize>` reads it.
pub fn parse_usize(s: &str) -> (r: Option<usize>)
    ensures
        r == parse_usize_spec(s@),
{
    let v = crate::text::chars_of(s);
    let n = v.len();
    let start: usize = if n > 0 && v[0] == '+' {
        1
    } else {
        0
    };
    let ghost d = v@.skip(start as int);
    assert(d =~= unsigned_digits(s@));
    if start == n {
        return None;
    }
    let mut value: usize = 0;
    let mut i: usize = start;
    while i < n
        invariant
            v@ == s@,
            n == v.len(),
            start <= i <= n,
            d == v@.skip(start as int),
            d == unsigned_digits(s@),
            forall|t: int| 0 <= t < i - start ==> is_digit(#[trigger] d[t]),
            value == digits_value(d.take(i - start)),
        decreases n - i,
    {
        let c = v[i];
        assert(c == d[i - start]);
        if !('0' <= c && c <= '9') {
            assert(!is_digit(d[i - start]));
            assert(!all_digits(d));
            return None;
        }
        assert(d.take(i - start + 1).drop_last() =~= d.take(i - start));
        assert(d.take(i - start + 1).last() == c);
        assert(digits_value(d.take(i - start + 1)) == value * 10 + ((c as nat) - 48) as nat);
        let digit = (c as u32 - 48) as usize;
        match value.checked_mul(10) {
            None => {
                proof {
                    lemma_digits_value_prefix(d, i - start + 1);
                }
                assert(digits_value(d) > usize::MAX);
                return None;
            },
            Some(m) => match m.checked_add(digit) {
                None => {
                    proof {
                        lemma_digits_value_prefix(d, i - start + 1);
                    }
                    assert(digits_value(d) > usize::MAX);
                    return None;
                },
                Some(next) => {
                    value = next;
                },
            },
        }
        i = i + 1;
    }
    assert(d.take(n - start) =~= d);
    Some(value)
}


/// What the shell is told about one result: the entries of its metadata map.
#[derive(Debug)]
pub struct ResultMeta {
    pub name: String,
    pub id: String,
    pub description: String,
    pub icon: Option<String>,
}

pub struct ResultMetaView {
    pub name: Seq<char>,
    pub id: Seq<char>,
    pub description: Seq<char>,
    pub icon: Option<Seq<char>>,
}

impl View for ResultMeta {
    type V = ResultMetaView;

    open spec fn view(&self) -> ResultMetaView {
        ResultMetaView {
            name: self.name@,
            id: self.id@,
            description: self.description@,
            icon: opt_view(self.icon),
        }
    }
}

pub open spec fn result_metas_view(v: Seq<ResultMeta>) -> Seq<ResultMetaView> {
    v.map_values(|m: ResultMeta| m@)
}

/// The metadata of result `m` under identifier `id`.
pub open spec fn meta_of(m: MetaView, id: Seq<char>) -> ResultMetaView {
    ResultMetaView { name: m.name, id, description: m.description, icon: m.icon }
}

/// Why metadata cannot be given for a list of identifiers; the search provider panics
/// in each case.
#[derive(Clone, Copy, Debug, PartialEq, Eq, Structural)]
pub enum MetasError {
    /// An identifier has no `-`.
    MissingDash,
    /// The handler would slice the search string off a character boundary.
    NotCharBoundary,
    /// What comes before the `-` of an identifier is not a number.
    IdNotAnInt,
    /// An identifier's number is not the index of a result.
    NoSuchResult,
}

/// The metadata for the first `k` identifiers, given the results they index, or the error
/// of the first identifier that fails.
pub open spec fn metas_from(ids: Seq<Seq<char>>, results: Seq<MetaView>, k: int) -> Result<
    Seq<ResultMetaView>,
    MetasError,
>
    decreases k,
{
    if k <= 0 {
        Ok(seq![])
    } else {
        match metas_from(ids, results, k - 1) {
            Err(e) => Err(e),
            Ok(prev) => match split_once(ids[k - 1], '-') {
                None => Err(MetasError::MissingDash),
                Some((num, _)) => match parse_usize_spec(num) {
                    None => Err(MetasError::IdNotAnInt),
                    Some(n) => if n < results.len() {
                        Ok(prev.push(meta_of(results[n as int], ids[k - 1])))
                    } else {
                        Err(MetasError::NoSuchResult)
                    },
                },
            },
        }
    }
}

/// The metadata for `ids`: the search string after the first identifier's `-` is answered,
/// and each identifier's number picks one of its results.
pub open spec fn result_metas_spec(g: Seq<LayerView>, ids: Seq<Seq<char>>) -> Result<
    Seq<ResultMetaView>,
    MetasError,
> {
    if ids.len() == 0 {
        Ok(seq![])
    } else {
        match split_once(ids[0], '-') {
            None => Err(MetasError::MissingDash),
            Some((_, expr)) => match handle_spec(g, expr) {
                None => Err(MetasError::NotCharBoundary),
                Some(results) => metas_from(ids, results, ids.len() as int),
            },
        }
    }
}

/// Once an identifier fails, every longer list fails with its error.
proof fn lemma_metas_from_err(ids: Seq<Seq<char>>, results: Seq<MetaView>, j: int, k: int)
    requires
        0 <= j <= k,
        metas_from(ids, results, j) is Err,
    ensures
        metas_from(ids, results, k) == metas_from(ids, results, j),
    decreases k - j,
{
    if j < k {
        lemma_metas_from_err(ids, results, j, k - 1);
    }
}

impl Handler {
    /// The metadata for result identifiers `ids`, or the error for which the search provider
    /// panics.
    pub fn result_metas(&self, ids: &Vec<String>) -> (r: Result<Vec<ResultMeta>, MetasError>)
        ensures
            match r {
                Ok(v) => result_metas_spec(self.grammar(), strings_view(ids@)) == Ok::<
                    Seq<ResultMetaView>,
                    MetasError,
                >(result_metas_view(v@)),
                Err(e) => result_metas_spec(self.grammar(), strings_view(ids@)) == Err::<
                    Seq<ResultMetaView>,
                    MetasError,
                >(e),
            },
    {
        let ghost iv = strings_view(ids@);
        if ids.len() == 0 {
            let v: Vec<ResultMeta> = Vec::new();
            assert(result_metas_view(v@) =~= seq![]);
            return Ok(v);
        }
        let expr = match split_once_char(ids[0].as_str(), '-') {
            None => {
                return Err(MetasError::MissingDash);
            },
            Some((_, expr)) => expr,
        };
        let results = match self.try_handle(String::from_str(expr)) {
            None => {
                return Err(MetasError::NotCharBoundary);
            },
            Some(results) => results,
        };
        let ghost rv = metas_view(results@);
        let ghost g = self.grammar();
        assert(result_metas_spec(g, iv) == metas_from(iv, rv, iv.len() as int));
        let mut metas: Vec<ResultMeta> = Vec::new();
        assert(result_metas_view(metas@) =~= seq![]);
        for i in 0..ids.len()
            invariant
                iv == strings_view(ids@),
                rv == metas_view(results@),
                g == self.grammar(),
                result_metas_spec(g, iv) == metas_from(iv, rv, iv.len() as int),
                metas_from(iv, rv, i as int) == Ok::<Seq<ResultMetaView>, MetasError>(
                    result_metas_view(metas@),
                ),
        {
            let input = ids[i].as_str();
            let num = match split_once_char(input, '-') {
                None => {
                    proof {
                        lemma_metas_from_err(iv, rv, i + 1, iv.len() as int);
                    }
                    return Err(MetasError::MissingDash);
                },
                Some((num, _)) => num,
            };
            let id = match parse_usize(num) {
                None => {
                    proof {
                        lemma_metas_from_err(iv, rv, i + 1, iv.len() as int);
                    }
                    return Err(MetasError::IdNotAnInt);
                },
                Some(id) => id,
            };
            if id >= results.len() {
                proof {
                    lemma_metas_from_err(iv, rv, i + 1, iv.len() as int);
                }
                return Err(MetasError::NoSuchResult);
            }
            let result = &results[id];
            let m = ResultMeta {
                name: result.name.clone(),
                id: ids[i].clone(),
                description: result.description.clone(),
                icon: copy_opt_string(&result.icon),
            };
            let ghost old_metas = metas@;
            metas.push(m);
            assert(result_metas_view(metas@) =~= result_metas_view(old_metas).push(m@));
        }
        Ok(metas)
    }
}


/// A number written in decimal is a non-empty string of digits worth that number.
proof fn lemma_decimal_digits(n: nat)
    ensures
        decimal(n).len() > 0,
        all_digits(decimal(n)),
        digits_value(decimal(n)) == n,
    decreases n,
{
    if n >= 10 {
        lemma_decimal_digits(n / 10);
        let s = decimal(n / 10);
        let c = digit_char(n % 10);
        assert(s.push(c).drop_last() =~= s);
        assert((c as nat) == n % 10 + 48);
        assert(decimal(n) == s.push(c));
        assert(digits_value(s.push(c)) == digits_value(s) * 10 + ((c as nat) - 48) as nat);
        assert(n == (n / 10) * 10 + n % 10);
    } else {
        assert(digit_char(n) as nat == n + 48);
        assert(seq![digit_char(n)].drop_last() =~= seq![]);
        assert(digits_value(seq![]) == 0);
        assert(digits_value(decimal(n)) == n);
    }
}

/// The number of a result identifier reads back as the number written into it.
proof fn lemma_parse_decimal(n: nat)
    requires
        n <= usize::MAX,
    ensures
        parse_usize_spec(decimal(n)) == Some(n as usize),
{
    lemma_decimal_digits(n);
    assert(is_digit(decimal(n)[0]));
    assert(unsigned_digits(decimal(n)) == decimal(n));
}

/// `find_from` finds the first `c` from `from` on.
proof fn lemma_find_from_first(s: Seq<char>, c: char, from: int, k: int)
    requires
        0 <= from <= k < s.len(),
        s[k] == c,
        forall|t: int| from <= t < k ==> s[t] != c,
    ensures
        find_from(s, c, from) == Some(k),
    decreases k - from,
{
    if from < k {
        lemma_find_from_first(s, c, from + 1, k);
    }
}

/// A result identifier splits at its dash into its number and its search string.
proof fn lemma_split_result_id(i: nat, expr: Seq<char>)
    ensures
        split_once(result_id(i, expr), '-') == Some((decimal(i), expr)),
{
    lemma_decimal_digits(i);
    let d = decimal(i);
    let s = result_id(i, expr);
    assert forall|t: int| 0 <= t < d.len() implies s[t] != '-' by {
        assert(is_digit(d[t]));
    }
    lemma_find_from_first(s, '-', 0, d.len() as int);
    assert(s.take(d.len() as int) =~= d);
    assert(s.skip(d.len() + 1 as int) =~= expr);
}

/// The metadata of the first `k` results, under the first `k` identifiers.
pub open spec fn described(ids: Seq<Seq<char>>, results: Seq<MetaView>, k: int) -> Seq<ResultMetaView> {
    Seq::new(k as nat, |i: int| meta_of(results[i], ids[i]))
}

/// The metadata for the first `k` of identifiers that index results in order.
proof fn lemma_metas_from_ids(ids: Seq<Seq<char>>, expr: Seq<char>, results: Seq<MetaView>, k: int)
    requires
        0 <= k <= ids.len() <= results.len(),
        ids.len() <= MAX_RESULTS,
        forall|i: int| 0 <= i < ids.len() ==> #[trigger] ids[i] == result_id(i as nat, expr),
    ensures
        metas_from(ids, results, k) == Ok::<Seq<ResultMetaView>, MetasError>(
            described(ids, results, k),
        ),
    decreases k,
{
    if k > 0 {
        lemma_metas_from_ids(ids, expr, results, k - 1);
        assert(ids[k - 1] == result_id((k - 1) as nat, expr));
        lemma_split_result_id((k - 1) as nat, expr);
        lemma_parse_decimal((k - 1) as nat);
        let prev = described(ids, results, k - 1);
        assert(split_once(ids[k - 1], '-') == Some((decimal((k - 1) as nat), expr)));
        assert(parse_usize_spec(decimal((k - 1) as nat)) == Some((k - 1) as usize));
        assert(metas_from(ids, results, k) == Ok::<Seq<ResultMetaView>, MetasError>(
            prev.push(meta_of(results[k - 1], ids[k - 1])),
        ));
        assert(described(ids, results, k - 1).push(
            meta_of(results[k - 1], ids[k - 1]),
        ) =~= described(ids, results, k));
    } else {
        assert(described(ids, results, k) =~= seq![]);
    }
}

/// The identifiers given for a search resolve to the metadata of the results they were
/// given for, in order: what the shell gets for the identifiers of a result set describes
/// that result set.
pub proof fn lemma_result_ids_resolve(g: Seq<LayerView>, terms: Seq<Seq<char>>)
    requires
        result_set_spec(g, terms) is Some,
    ensures
        ({
            let results = handle_spec(g, join(terms, seq![' '])).unwrap();
            let ids = result_set_spec(g, terms).unwrap();
            result_metas_spec(g, ids) == Ok::<Seq<ResultMetaView>, MetasError>(
                described(ids, results, ids.len() as int),
            )
        }),
{
    let expr = join(terms, seq![' ']);
    let results = handle_spec(g, expr).unwrap();
    let ids = result_set_spec(g, terms).unwrap();
    if ids.len() == 0 {
        assert(described(ids, results, ids.len() as int) =~= seq![]);
    } else {
        assert(ids[0] == result_id(0, expr));
        lemma_split_result_id(0, expr);
        lemma_metas_from_ids(ids, expr, results, ids.len() as int);
    }
}


/// Joining puts every part in, in order, with the separator between each two: no parts give
/// nothing, one part gives itself, and one more part adds the separator and that part.
pub proof fn lemma_join_every_part(parts: Seq<Seq<char>>, x: Seq<char>, sep: Seq<char>)
    ensures
        join(Seq::<Seq<char>>::empty(), sep) == Seq::<char>::empty(),
        join(seq![x], sep) == x,
        parts.len() > 0 ==> join(parts.push(x), sep) == join(parts, sep) + sep + x,
{
    assert(parts.push(x).drop_last() =~= parts);
}

/// The length of a join is the parts' lengths plus one separator between each two parts.
pub proof fn lemma_join_len(parts: Seq<Seq<char>>, sep: Seq<char>)
    requires
        parts.len() > 0,
    ensures
        join(parts, sep).len() == parts_len(parts) + (parts.len() - 1) * sep.len(),
    decreases parts.len(),
{
    let n = parts.len() as int;
    let d = parts.drop_last();
    if n > 1 {
        lemma_join_len(d, sep);
        assert(join(parts, sep) == join(d, sep) + sep + parts.last());
        assert(parts_len(parts) == parts_len(d) + parts.last().len());
        assert((n - 1) * sep.len() == (n - 2) * sep.len() + sep.len()) by (nonlinear_arith);
    } else {
        assert(d.len() == 0);
        assert(parts_len(d) == 0);
        assert(parts.last() == parts[0]);
    }
}

/// The total length of some strings.
pub open spec fn parts_len(parts: Seq<Seq<char>>) -> int
    decreases parts.len(),
{
    if parts.len() == 0 {
        0
    } else {
        parts_len(parts.drop_last()) + parts.last().len()
    }
}

} // verus!
