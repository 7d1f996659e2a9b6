//! The query parser's syntax tree and the parser itself.
//!
//! Grammar, keywords case-insensitive:
//!
//! ```text
//! query      := "where" pred ( "and" pred )* ( order_by | select )*
//! pred       := path op value
//! op         := "==" | "!="
//! order_by   := "order" "by" sort_key ( "," sort_key )*
//! sort_key   := path ( "asc" | "desc" )?
//! select     := "select" ( path_list | agg_list )
//! agg        := ( "count" "(" ( "*" | path ) ")" ) |
//!               ( ("sum"|"min"|"max"|"avg") "(" path ")" )
//! path       := ident ( "." ident )*
//! ident      := [A-Za-z_][A-Za-z0-9_-]*
//! value      := quoted_string | bare_token
//! ```
//!
//! The grammar stands in this file as the `spec_` functions, one per
//! production, and every executable function returns exactly what its spec
//! production says. A bare token is typed: `true`/`false`; a signed integer;
//! an unsigned integer; a finite float; otherwise a string. Quoted strings
//! stay verbatim. At most one `select` and one `order by` may appear, in
//! either order; a selection holds either plain paths or aggregations, never
//! both.

use vstd::prelude::*;

use crate::jsonv::{canonical_rep, float_value, parse_float_token, val_wf, JsonVal, JsonValue};
use crate::num::{parse_i64_chars, parse_u64_chars};
use crate::text::{
    chars_vec, eq_ignore_case, is_query_space, is_unicode_space, lower_char, spec_lower,
    spec_lower_char, spec_trim, string_from_chars, strs_view, trim_chars, unicode_space,
};

verus! {

broadcast use crate::text::lemma_strs_view_len, crate::text::lemma_strs_view_index;

/// A comparison operator of the query language.
#[derive(Clone, Copy, Debug, PartialEq, Eq, Structural)]
pub enum Operator {
    Eq,
    Ne,
}

/// One `path op value` predicate as parsed.
#[derive(Debug, PartialEq)]
pub struct Predicate {
    pub path: String,
    pub op: Operator,
    pub value: JsonValue,
}

/// The direction of a sort key.
#[derive(Clone, Copy, Debug, PartialEq, Eq, Structural)]
pub enum SortDirection {
    Asc,
    Desc,
}

/// One `order by` key.
#[derive(Debug, PartialEq)]
pub struct SortKey {
    pub path: String,
    pub direction: SortDirection,
}

/// What `select` asked for: plain paths, or aggregations — never both.
#[derive(Debug, PartialEq)]
pub enum SelectClause {
    Paths(Vec<String>),
    Aggregations(Vec<AggregationExpr>),
}

/// The aggregation functions of the query language.
#[derive(Clone, Copy, Debug, PartialEq, Eq, Structural)]
pub enum AggregationFunction {
    Count,
    Sum,
    Min,
    Max,
    Avg,
}

/// One aggregation of a `select` clause; `count(*)` carries no path.
#[derive(Debug, PartialEq)]
pub struct AggregationExpr {
    pub function: AggregationFunction,
    pub path: Option<String>,
}

/// A parsed query: predicates, an optional selection, optional sort keys.
#[derive(Debug, PartialEq)]
pub struct QueryAst {
    pub predicates: Vec<Predicate>,
    pub select: Option<SelectClause>,
    pub order_by: Option<Vec<SortKey>>,
}

/// A predicate as specifications see it: path, operator, typed value.
pub ghost struct PredS {
    pub path: Seq<char>,
    pub op: Operator,
    pub value: JsonVal,
}

/// A sort key as specifications see it.
pub ghost struct SortS {
    pub path: Seq<char>,
    pub direction: SortDirection,
}

/// A selection as specifications see it.
pub ghost enum SelS {
    PathsS(Seq<Seq<char>>),
    AggsS(Seq<(AggregationFunction, Option<Seq<char>>)>),
}

/// A parsed query as specifications see it.
pub ghost struct AstS {
    pub predicates: Seq<PredS>,
    pub select: Option<SelS>,
    pub order_by: Option<Seq<SortS>>,
}

/// How parsing one query ends: a syntax tree, or one of the three errors.
pub ghost enum ParseOut {
    Parsed(AstS),
    EmptyWhere,
    NotWhere,
    Invalid,
}

/// The views of a predicate vector.
pub open spec fn preds_view(s: Seq<Predicate>) -> Seq<PredS>
    decreases s.len(),
{
    if s.len() == 0 {
        Seq::empty()
    } else {
        preds_view(s.drop_last()).push(
            PredS { path: s.last().path@, op: s.last().op, value: s.last().value@ },
        )
    }
}

pub broadcast proof fn lemma_preds_view_len(s: Seq<Predicate>)
    ensures
        #[trigger] preds_view(s).len() == s.len(),
    decreases s.len(),
{
    if s.len() > 0 {
        lemma_preds_view_len(s.drop_last());
    }
}

pub broadcast proof fn lemma_preds_view_index(s: Seq<Predicate>, i: int)
    requires
        0 <= i < s.len(),
    ensures
        #[trigger] preds_view(s)[i] == (PredS {
            path: s[i].path@,
            op: s[i].op,
            value: s[i].value@,
        }),
    decreases s.len(),
{
    lemma_preds_view_len(s);
    if i + 1 < s.len() {
        lemma_preds_view_index(s.drop_last(), i);
    }
}

/// The views of a sort-key vector.
pub open spec fn sorts_view(s: Seq<SortKey>) -> Seq<SortS>
    decreases s.len(),
{
    if s.len() == 0 {
        Seq::empty()
    } else {
        sorts_view(s.drop_last()).push(
            SortS { path: s.last().path@, direction: s.last().direction },
        )
    }
}

pub broadcast proof fn lemma_sorts_view_len(s: Seq<SortKey>)
    ensures
        #[trigger] sorts_view(s).len() == s.len(),
    decreases s.len(),
{
    if s.len() > 0 {
        lemma_sorts_view_len(s.drop_last());
    }
}

pub broadcast proof fn lemma_sorts_view_index(s: Seq<SortKey>, i: int)
    requires
        0 <= i < s.len(),
    ensures
        #[trigger] sorts_view(s)[i] == (SortS { path: s[i].path@, direction: s[i].direction }),
    decreases s.len(),
{
    lemma_sorts_view_len(s);
    if i + 1 < s.len() {
        lemma_sorts_view_index(s.drop_last(), i);
    }
}

/// The views of an aggregation vector.
pub open spec fn aggs_view(s: Seq<AggregationExpr>) -> Seq<(AggregationFunction, Option<Seq<char>>)>
    decreases s.len(),
{
    if s.len() == 0 {
        Seq::empty()
    } else {
        aggs_view(s.drop_last()).push(
            (
                s.last().function,
                match s.last().path {
                    Some(p) => Some(p@),
                    None => None,
                },
            ),
        )
    }
}

pub broadcast proof fn lemma_aggs_view_len(s: Seq<AggregationExpr>)
    ensures
        #[trigger] aggs_view(s).len() == s.len(),
    decreases s.len(),
{
    if s.len() > 0 {
        lemma_aggs_view_len(s.drop_last());
    }
}

pub broadcast proof fn lemma_aggs_view_index(s: Seq<AggregationExpr>, i: int)
    requires
        0 <= i < s.len(),
    ensures
        #[trigger] aggs_view(s)[i] == (
            s[i].function,
            match s[i].path {
                Some(p) => Some(p@),
                None => None::<Seq<char>>,
            },
        ),
    decreases s.len(),
{
    lemma_aggs_view_len(s);
    if i + 1 < s.len() {
        lemma_aggs_view_index(s.drop_last(), i);
    }
}

/// The view of a selection.
pub open spec fn sel_view(c: &SelectClause) -> SelS {
    match c {
        SelectClause::Paths(paths) => SelS::PathsS(strs_view(paths@)),
        SelectClause::Aggregations(exprs) => SelS::AggsS(aggs_view(exprs@)),
    }
}

/// The view of a parsed query.
pub open spec fn ast_view(ast: &QueryAst) -> AstS {
    AstS {
        predicates: preds_view(ast.predicates@),
        select: match ast.select {
            Some(ref c) => Some(sel_view(c)),
            None => None,
        },
        order_by: match ast.order_by {
            Some(ref keys) => Some(sorts_view(keys@)),
            None => None,
        },
    }
}

/// Every predicate value of an AST is a well-formed scalar.
pub open spec fn ast_wf(ast: &QueryAst) -> bool {
    forall|i: int|
        #![trigger ast.predicates@[i]]
        0 <= i < ast.predicates@.len() ==> val_wf(ast.predicates@[i].value@) && canonical_rep(
            &ast.predicates@[i].value,
        )
}

pub open spec fn is_ident_start(c: char) -> bool {
    ('a' <= c && c <= 'z') || ('A' <= c && c <= 'Z') || c == '_'
}

pub open spec fn is_ident_char(c: char) -> bool {
    is_ident_start(c) || ('0' <= c && c <= '9') || c == '-'
}

fn ident_start(c: char) -> (r: bool)
    ensures
        r == is_ident_start(c),
{
    ('a' <= c && c <= 'z') || ('A' <= c && c <= 'Z') || c == '_'
}

fn ident_char(c: char) -> (r: bool)
    ensures
        r == is_ident_char(c),
{
    ident_start(c) || ('0' <= c && c <= '9') || c == '-'
}

/// The first index at or after `i` that is not a blank.
pub open spec fn spec_ws0(s: Seq<char>, i: int) -> int
    decreases s.len() - i,
    when 0 <= i <= s.len()
{
    if i == s.len() {
        i
    } else if is_query_space(s[i]) {
        spec_ws0(s, i + 1)
    } else {
        i
    }
}

proof fn lemma_spec_ws0(s: Seq<char>, i: int)
    requires
        0 <= i <= s.len(),
    ensures
        i <= spec_ws0(s, i) <= s.len(),
    decreases s.len() - i,
{
    if i < s.len() && is_query_space(s[i]) {
        lemma_spec_ws0(s, i + 1);
    }
}

/// Skips blanks; returns the next position.
fn ws0(s: &Vec<char>, pos: usize) -> (r: usize)
    requires
        pos <= s@.len(),
    ensures
        pos <= r <= s@.len(),
        r == spec_ws0(s@, pos as int),
{
    proof {
        lemma_spec_ws0(s@, pos as int);
    }
    let mut i = pos;
    while i < s.len() && query_space_at(s, i)
        invariant
            pos <= i <= s@.len(),
            spec_ws0(s@, pos as int) == spec_ws0(s@, i as int),
        decreases s@.len() - i,
    {
        i = i + 1;
    }
    i
}

fn query_space_at(s: &Vec<char>, i: usize) -> (r: bool)
    requires
        i < s@.len(),
    ensures
        r == is_query_space(s@[i as int]),
{
    let c = s[i];
    c == ' ' || c == '\t' || c == '\r' || c == '\n'
}

/// At least one blank, then the rest skipped.
pub open spec fn spec_ws1(s: Seq<char>, i: int) -> Option<int>
    decreases 0nat,
    when 0 <= i <= s.len()
{
    if i < s.len() && is_query_space(s[i]) {
        Some(spec_ws0(s, i + 1))
    } else {
        None
    }
}

fn ws1(s: &Vec<char>, pos: usize) -> (r: Option<usize>)
    requires
        pos <= s@.len(),
    ensures
        match r {
            Some(n) => pos < n <= s@.len() && spec_ws1(s@, pos as int) == Some(n as int),
            None => spec_ws1(s@, pos as int) is None,
        },
{
    if pos < s.len() && query_space_at(s, pos) {
        proof {
            lemma_spec_ws0(s@, pos + 1);
        }
        Some(ws0(s, pos + 1))
    } else {
        None
    }
}

/// A keyword matched case-insensitively on ASCII: the position after it, or
/// nothing.
pub open spec fn spec_tag_nc(s: Seq<char>, i: int, w: Seq<char>) -> Option<int> {
    if 0 <= i && i + w.len() <= s.len() && spec_lower(s.subrange(i, i + w.len())) == spec_lower(w) {
        Some(i + w.len())
    } else {
        None
    }
}

/// Matches a keyword, case-insensitively on ASCII.
fn tag_nc(s: &Vec<char>, pos: usize, word: &str) -> (r: Option<usize>)
    requires
        pos <= s@.len(),
    ensures
        match r {
            Some(n) => pos <= n <= s@.len() && spec_tag_nc(s@, pos as int, word@) == Some(n as int),
            None => spec_tag_nc(s@, pos as int, word@) is None,
        },
{
    let w = chars_vec(word);
    if w.len() > s.len() - pos {
        proof {
            assert(spec_tag_nc(s@, pos as int, word@) is None);
        }
        return None;
    }
    let n = s.len();
    let mut j: usize = 0;
    while j < w.len()
        invariant
            j <= w@.len(),
            pos + w@.len() <= s@.len(),
            s@.len() == n,
            w@ == word@,
            forall|q: int|
                0 <= q < j ==> spec_lower_char(#[trigger] s@[pos + q]) == spec_lower_char(w@[q]),
        decreases w@.len() - j,
    {
        if lower_char(s[pos + j]) != lower_char(w[j]) {
            proof {
                assert(spec_lower(s@.subrange(pos as int, pos + w@.len()))[j as int]
                    == spec_lower_char(s@[pos + j]));
                assert(spec_lower(w@)[j as int] == spec_lower_char(w@[j as int]));
            }
            return None;
        }
        j = j + 1;
    }
    proof {
        assert forall|q: int|
            0 <= q < w@.len() implies spec_lower(s@.subrange(pos as int, pos + w@.len()))[q]
            == spec_lower(w@)[q] by {
            assert(s@.subrange(pos as int, pos + w@.len())[q] == s@[pos + q]);
            assert(spec_lower_char(s@[pos + q]) == spec_lower_char(w@[q]));
        }
        assert(spec_lower(s@.subrange(pos as int, pos + w@.len())) =~= spec_lower(w@));
    }
    Some(pos + w.len())
}

/// The end of the run of identifier characters starting at `i`.
pub open spec fn ident_run_end(s: Seq<char>, i: int) -> int
    decreases s.len() - i,
    when 0 <= i <= s.len()
{
    if i == s.len() {
        i
    } else if is_ident_char(s[i]) {
        ident_run_end(s, i + 1)
    } else {
        i
    }
}

proof fn lemma_ident_run_end(s: Seq<char>, i: int)
    requires
        0 <= i <= s.len(),
    ensures
        i <= ident_run_end(s, i) <= s.len(),
    decreases s.len() - i,
{
    if i < s.len() && is_ident_char(s[i]) {
        lemma_ident_run_end(s, i + 1);
    }
}

fn ident_run(s: &Vec<char>, pos: usize) -> (r: usize)
    requires
        pos <= s@.len(),
    ensures
        pos <= r <= s@.len(),
        r == ident_run_end(s@, pos as int),
{
    proof {
        lemma_ident_run_end(s@, pos as int);
    }
    let mut i = pos;
    while i < s.len() && ident_char(s[i])
        invariant
            pos <= i <= s@.len(),
            ident_run_end(s@, pos as int) == ident_run_end(s@, i as int),
        decreases s@.len() - i,
    {
        i = i + 1;
    }
    i
}

/// The dotted-segment tail of a path: more `"." ident` pairs as long as they
/// come.
pub open spec fn spec_path_more(s: Seq<char>, e: int) -> int
    decreases s.len() - e,
    when 0 <= e <= s.len()
{
    if s.len() - e > 1 && s[e] == '.' && is_ident_start(s[e + 1]) {
        let n0 = ident_run_end(s, e + 2);
        let n = if e + 2 <= n0 <= s.len() {
            n0
        } else {
            e + 2
        };
        spec_path_more(s, n)
    } else {
        e
    }
}

proof fn lemma_spec_path_more(s: Seq<char>, e: int)
    requires
        0 <= e <= s.len(),
    ensures
        e <= spec_path_more(s, e) <= s.len(),
    decreases s.len() - e,
{
    if s.len() - e > 1 && s[e] == '.' && is_ident_start(s[e + 1]) {
        lemma_ident_run_end(s, e + 2);
        lemma_spec_path_more(s, ident_run_end(s, e + 2));
    }
}

/// The end of a path — `ident ( "." ident )*` — or nothing.
pub open spec fn spec_path_end(s: Seq<char>, i: int) -> Option<int>
    decreases 0nat,
    when 0 <= i <= s.len()
{
    if i < s.len() && is_ident_start(s[i]) {
        Some(spec_path_more(s, ident_run_end(s, i + 1)))
    } else {
        None
    }
}

proof fn lemma_spec_path_end(s: Seq<char>, i: int)
    requires
        0 <= i <= s.len(),
    ensures
        match spec_path_end(s, i) {
            Some(n) => i < n <= s.len(),
            None => true,
        },
{
    if i < s.len() && is_ident_start(s[i]) {
        lemma_ident_run_end(s, i + 1);
        lemma_spec_path_more(s, ident_run_end(s, i + 1));
    }
}

/// Parses `ident ( "." ident )*`; returns the end of the path.
fn path_end(s: &Vec<char>, pos: usize) -> (r: Option<usize>)
    requires
        pos <= s@.len(),
    ensures
        match r {
            Some(n) => pos < n <= s@.len() && spec_path_end(s@, pos as int) == Some(n as int),
            None => spec_path_end(s@, pos as int) is None,
        },
{
    if pos >= s.len() || !ident_start(s[pos]) {
        return None;
    }
    proof {
        lemma_spec_path_end(s@, pos as int);
    }
    let mut i = ident_run(s, pos + 1);
    loop
        invariant
            pos < i <= s@.len(),
            spec_path_more(s@, i as int) == spec_path_end(s@, pos as int).unwrap(),
        ensures
            pos < i <= s@.len(),
            i == spec_path_end(s@, pos as int).unwrap(),
        decreases s@.len() - i,
    {
        if s.len() - i > 1 && s[i] == '.' && ident_start(s[i + 1]) {
            let k = ident_run(s, i + 2);
            proof {
                lemma_ident_run_end(s@, i + 2);
            }
            i = k;
        } else {
            break;
        }
    }
    Some(i)
}

/// Copies the characters of the span `[a, b)` into a string.
fn span_string(s: &Vec<char>, a: usize, b: usize) -> (r: String)
    requires
        a <= b <= s@.len(),
    ensures
        r@ == s@.subrange(a as int, b as int),
{
    let mut out: Vec<char> = Vec::new();
    let mut i = a;
    while i < b
        invariant
            a <= i <= b <= s@.len(),
            out@ =~= s@.subrange(a as int, i as int),
        decreases b - i,
    {
        proof {
            assert(s@.subrange(a as int, i + 1) =~= s@.subrange(a as int, i as int).push(
                s@[i as int],
            ));
        }
        out.push(s[i]);
        i = i + 1;
    }
    string_from_chars(&out)
}

/// The value a bare token denotes: `true` and `false` become booleans; a
/// signed or unsigned integer becomes an integer; a token that parses to a
/// finite double becomes a float carried as its canonical decimal; anything
/// else stays a string.
pub open spec fn spec_typed_scalar(t: Seq<char>) -> JsonVal {
    if spec_lower(t) == spec_lower("true"@) {
        JsonVal::Bool(true)
    } else if spec_lower(t) == spec_lower("false"@) {
        JsonVal::Bool(false)
    } else {
        match crate::num::spec_parse_i64(t) {
            Some(v) => JsonVal::Int(v as int),
            None => match crate::num::spec_parse_u64(t) {
                Some(v) => JsonVal::Int(v as int),
                None => match crate::jsonv::parsed_float_dec(t) {
                    Some(d) => if crate::num::spec_dec_of_chars(d) is Some {
                        JsonVal::Float(d)
                    } else {
                        JsonVal::Str(t)
                    },
                    None => JsonVal::Str(t),
                },
            },
        }
    }
}

/// Types a bare token: booleans, then signed and unsigned integers, then
/// finite floats, else the verbatim string.
fn typed_scalar(s: &Vec<char>, a: usize, b: usize) -> (r: JsonValue)
    requires
        a <= b <= s@.len(),
    ensures
        r@ == spec_typed_scalar(s@.subrange(a as int, b as int)),
        val_wf(r@),
        canonical_rep(&r),
{
    let mut tok: Vec<char> = Vec::new();
    let mut i = a;
    while i < b
        invariant
            a <= i <= b <= s@.len(),
            tok@ =~= s@.subrange(a as int, i as int),
        decreases b - i,
    {
        proof {
            assert(s@.subrange(a as int, i + 1) =~= s@.subrange(a as int, i as int).push(
                s@[i as int],
            ));
        }
        tok.push(s[i]);
        i = i + 1;
    }
    let t_true = chars_vec("true");
    let t_false = chars_vec("false");
    if eq_ignore_case(&tok, &t_true) {
        return JsonValue::Bool(true);
    }
    if eq_ignore_case(&tok, &t_false) {
        return JsonValue::Bool(false);
    }
    if let Some(v) = parse_i64_chars(&tok) {
        return JsonValue::Int(v);
    }
    if let Some(v) = parse_u64_chars(&tok) {
        if v > 0x7fff_ffff_ffff_ffffu64 {
            return JsonValue::Uint(v);
        }
        return JsonValue::Int(v as i64);
    }
    proof {
        assert(crate::num::spec_parse_i64(tok@) is None);
        assert(crate::num::spec_parse_u64(tok@) is None);
    }
    let text = string_from_chars(&tok);
    if let Some(d) = parse_float_token(text.as_str()) {
        if let Some(v) = float_value(d) {
            return v;
        }
    }
    JsonValue::Str(string_from_chars(&tok))
}

/// The end of the run of non-quote characters starting at `i`.
pub open spec fn quote_run_end(s: Seq<char>, i: int) -> int
    decreases s.len() - i,
    when 0 <= i <= s.len()
{
    if i == s.len() {
        i
    } else if s[i] != '\'' {
        quote_run_end(s, i + 1)
    } else {
        i
    }
}

proof fn lemma_quote_run_end(s: Seq<char>, i: int)
    requires
        0 <= i <= s.len(),
    ensures
        i <= quote_run_end(s, i) <= s.len(),
    decreases s.len() - i,
{
    if i < s.len() && s[i] != '\'' {
        lemma_quote_run_end(s, i + 1);
    }
}

/// The end of the run of non-blank characters starting at `i`.
pub open spec fn token_run_end(s: Seq<char>, i: int) -> int
    decreases s.len() - i,
    when 0 <= i <= s.len()
{
    if i == s.len() {
        i
    } else if !is_query_space(s[i]) {
        token_run_end(s, i + 1)
    } else {
        i
    }
}

proof fn lemma_token_run_end(s: Seq<char>, i: int)
    requires
        0 <= i <= s.len(),
    ensures
        i <= token_run_end(s, i) <= s.len(),
    decreases s.len() - i,
{
    if i < s.len() && !is_query_space(s[i]) {
        lemma_token_run_end(s, i + 1);
    }
}

/// One value: a single-quoted verbatim string, or a typed bare token running
/// to the next blank.
pub open spec fn spec_value_at(s: Seq<char>, i: int) -> Option<(int, JsonVal)>
    decreases 0nat,
    when 0 <= i <= s.len()
{
    if i < s.len() && s[i] == '\'' {
        let e = quote_run_end(s, i + 1);
        if e < s.len() {
            Some((e + 1, JsonVal::Str(s.subrange(i + 1, e))))
        } else {
            None
        }
    } else {
        let b = token_run_end(s, i);
        if b == i {
            None
        } else {
            Some((b, spec_typed_scalar(s.subrange(i, b))))
        }
    }
}

/// Parses one value.
fn value_at(s: &Vec<char>, pos: usize) -> (r: Option<(usize, JsonValue)>)
    requires
        pos <= s@.len(),
    ensures
        match r {
            Some((n, v)) => pos < n <= s@.len() && (spec_value_at(s@, pos as int) matches Some(sv)
                && sv.0 == n as int && sv.1 == v@) && val_wf(v@) && canonical_rep(&v),
            None => spec_value_at(s@, pos as int) is None,
        },
{
    if pos < s.len() && s[pos] == '\'' {
        proof {
            lemma_quote_run_end(s@, pos + 1);
        }
        let mut i = pos + 1;
        while i < s.len() && s[i] != '\''
            invariant
                pos < i <= s@.len(),
                quote_run_end(s@, pos + 1) == quote_run_end(s@, i as int),
            decreases s@.len() - i,
        {
            i = i + 1;
        }
        proof {
            assert(quote_run_end(s@, pos + 1) == i);
        }
        if i >= s.len() {
            return None;
        }
        let text = span_string(s, pos + 1, i);
        return Some((i + 1, JsonValue::Str(text)));
    }
    proof {
        lemma_token_run_end(s@, pos as int);
    }
    let mut i = pos;
    while i < s.len() && !query_space_at(s, i)
        invariant
            pos <= i <= s@.len(),
            token_run_end(s@, pos as int) == token_run_end(s@, i as int),
        decreases s@.len() - i,
    {
        i = i + 1;
    }
    proof {
        assert(token_run_end(s@, pos as int) == i);
    }
    if i == pos {
        return None;
    }
    Some((i, typed_scalar(s, pos, i)))
}

/// One predicate: `path op value`, blanks allowed around the operator.
pub open spec fn spec_predicate_at(s: Seq<char>, i: int) -> Option<(int, PredS)>
    decreases 0nat,
    when 0 <= i <= s.len()
{
    match spec_path_end(s, i) {
        None => None,
        Some(pe) => {
            let j = spec_ws0(s, pe);
            let opr = if spec_tag_nc(s, j, "=="@) is Some {
                Some((j + 2, Operator::Eq))
            } else if spec_tag_nc(s, j, "!="@) is Some {
                Some((j + 2, Operator::Ne))
            } else {
                None
            };
            match opr {
                None => None,
                Some((k, op)) => {
                    let m = spec_ws0(s, k);
                    match spec_value_at(s, m) {
                        None => None,
                        Some((n, v)) => Some(
                            (n, PredS { path: s.subrange(i, pe), op: op, value: v }),
                        ),
                    }
                },
            }
        },
    }
}

/// Parses one predicate.
fn predicate_at(s: &Vec<char>, pos: usize) -> (r: Option<(usize, Predicate)>)
    requires
        pos <= s@.len(),
    ensures
        match r {
            Some((n, p)) => pos < n <= s@.len() && (spec_predicate_at(s@, pos as int)
                matches Some(sp) && sp.0 == n as int && sp.1 == (PredS {
                path: p.path@,
                op: p.op,
                value: p.value@,
            })) && val_wf(p.value@) && canonical_rep(&p.value),
            None => spec_predicate_at(s@, pos as int) is None,
        },
{
    let pe = match path_end(s, pos) {
        Some(pe) => pe,
        None => {
            return None;
        },
    };
    let path = span_string(s, pos, pe);
    let i = ws0(s, pe);
    proof {
        reveal_strlit("==");
        reveal_strlit("!=");
    }
    let (i, op) = if let Some(n) = tag_nc(s, i, "==") {
        proof {
            assert(n == i + 2);
        }
        (n, Operator::Eq)
    } else if let Some(n) = tag_nc(s, i, "!=") {
        proof {
            assert(n == i + 2);
        }
        (n, Operator::Ne)
    } else {
        return None;
    };
    let i = ws0(s, i);
    match value_at(s, i) {
        Some((n, value)) => Some((n, Predicate { path, op, value })),
        None => None,
    }
}

/// The predicates after the first: as many `"and" pred` tails as parse, the
/// list ending at the first position where they stop.
pub open spec fn spec_preds_more(s: Seq<char>, i: int, acc: Seq<PredS>) -> (int, Seq<PredS>)
    decreases s.len() - i,
    when 0 <= i <= s.len()
{
    let sep = match spec_ws1(s, i) {
        Some(a) => match spec_tag_nc(s, a, "and"@) {
            Some(b) => spec_ws1(s, b),
            None => None,
        },
        None => None,
    };
    match sep {
        None => (i, acc),
        Some(c) => match spec_predicate_at(s, if 0 <= c <= s.len() {
            c
        } else {
            i
        }) {
            Some((n, p)) => if i < n <= s.len() {
                spec_preds_more(s, n, acc.push(p))
            } else {
                (i, acc)
            },
            None => (i, acc),
        },
    }
}

/// `pred ( "and" pred )*`.
pub open spec fn spec_preds_at(s: Seq<char>, i: int) -> Option<(int, Seq<PredS>)>
    decreases 0nat,
    when 0 <= i <= s.len()
{
    match spec_predicate_at(s, i) {
        None => None,
        Some((n, p)) => if i < n <= s.len() {
            Some(spec_preds_more(s, n, seq![p]))
        } else {
            None
        },
    }
}

/// Parses `pred ( "and" pred )*`.
fn predicates_at(s: &Vec<char>, pos: usize) -> (r: Option<(usize, Vec<Predicate>)>)
    requires
        pos <= s@.len(),
    ensures
        match r {
            Some((n, ps)) => pos < n <= s@.len() && ps@.len() >= 1 && (spec_preds_at(
                s@,
                pos as int,
            ) matches Some(sp) && sp.0 == n as int && sp.1 == preds_view(ps@)) && (forall|i: int|
                #![trigger ps@[i]]
                0 <= i < ps@.len() ==> val_wf(ps@[i].value@) && canonical_rep(&ps@[i].value)),
            None => spec_preds_at(s@, pos as int) is None,
        },
{
    broadcast use lemma_preds_view_len, lemma_preds_view_index;

    let (first_end, first) = match predicate_at(s, pos) {
        Some(r) => r,
        None => {
            return None;
        },
    };
    let mut i = first_end;
    let mut preds: Vec<Predicate> = Vec::new();
    preds.push(first);
    proof {
        assert(preds_view(preds@) =~= seq![
            PredS { path: preds@[0].path@, op: preds@[0].op, value: preds@[0].value@ },
        ]);
    }
    loop
        invariant
            pos < i <= s@.len(),
            preds@.len() >= 1,
            (spec_preds_at(s@, pos as int) matches Some(sp) && sp == spec_preds_more(
                s@,
                i as int,
                preds_view(preds@),
            )),
            forall|q: int|
                #![trigger preds@[q]]
                0 <= q < preds@.len() ==> val_wf(preds@[q].value@) && canonical_rep(
                    &preds@[q].value,
                ),
        ensures
            pos < i <= s@.len(),
            preds@.len() >= 1,
            (spec_preds_at(s@, pos as int) matches Some(sp) && sp.0 == i as int && sp.1
                == preds_view(preds@)),
            forall|q: int|
                #![trigger preds@[q]]
                0 <= q < preds@.len() ==> val_wf(preds@[q].value@) && canonical_rep(
                    &preds@[q].value,
                ),
        decreases s@.len() - i,
    {
        let sep = match ws1(s, i) {
            Some(a) => match tag_nc(s, a, "and") {
                Some(b) => match ws1(s, b) {
                    Some(c) => Some(c),
                    None => None,
                },
                None => None,
            },
            None => None,
        };
        let next = match sep {
            Some(c) => c,
            None => {
                break;
            },
        };
        match predicate_at(s, next) {
            Some((n, p)) => {
                let ghost pre = preds@;
                let ghost pv = PredS { path: p.path@, op: p.op, value: p.value@ };
                preds.push(p);
                proof {
                    assert(preds@.drop_last() =~= pre);
                    assert(preds_view(preds@) =~= preds_view(pre).push(pv));
                }
                i = n;
            },
            None => {
                break;
            },
        }
    }
    Some((i, preds))
}

/// One sort key: `path ( "asc" | "desc" )?`; the direction defaults to
/// ascending.
pub open spec fn spec_sort_key_at(s: Seq<char>, i: int) -> Option<(int, SortS)>
    decreases 0nat,
    when 0 <= i <= s.len()
{
    match spec_path_end(s, i) {
        None => None,
        Some(pe) => {
            let path = s.subrange(i, pe);
            match spec_ws1(s, pe) {
                Some(a) => if 0 <= a <= s.len() && spec_tag_nc(s, a, "asc"@) is Some {
                    Some((a + 3, SortS { path: path, direction: SortDirection::Asc }))
                } else if 0 <= a <= s.len() && spec_tag_nc(s, a, "desc"@) is Some {
                    Some((a + 4, SortS { path: path, direction: SortDirection::Desc }))
                } else {
                    Some((pe, SortS { path: path, direction: SortDirection::Asc }))
                },
                None => Some((pe, SortS { path: path, direction: SortDirection::Asc })),
            }
        },
    }
}

/// Parses one sort key.
fn sort_key_at(s: &Vec<char>, pos: usize) -> (r: Option<(usize, SortKey)>)
    requires
        pos <= s@.len(),
    ensures
        match r {
            Some((n, k)) => pos < n <= s@.len() && (spec_sort_key_at(s@, pos as int)
                matches Some(sk) && sk.0 == n as int && sk.1 == (SortS {
                path: k.path@,
                direction: k.direction,
            })),
            None => spec_sort_key_at(s@, pos as int) is None,
        },
{
    let pe = match path_end(s, pos) {
        Some(pe) => pe,
        None => {
            return None;
        },
    };
    let path = span_string(s, pos, pe);
    proof {
        reveal_strlit("asc");
        reveal_strlit("desc");
    }
    if let Some(a) = ws1(s, pe) {
        if let Some(n) = tag_nc(s, a, "asc") {
            return Some((n, SortKey { path, direction: SortDirection::Asc }));
        }
        if let Some(n) = tag_nc(s, a, "desc") {
            return Some((n, SortKey { path, direction: SortDirection::Desc }));
        }
    }
    Some((pe, SortKey { path, direction: SortDirection::Asc }))
}

/// The sort keys after the first: more `"," sort_key` as long as they come.
pub open spec fn spec_sorts_more(s: Seq<char>, i: int, acc: Seq<SortS>) -> (int, Seq<SortS>)
    decreases s.len() - i,
    when 0 <= i <= s.len()
{
    let a = spec_ws0(s, i);
    if 0 <= a < s.len() && s[a] == ',' {
        let b = spec_ws0(s, a + 1);
        match spec_sort_key_at(s, if 0 <= b <= s.len() {
            b
        } else {
            i
        }) {
            Some((n, k)) => if i < n <= s.len() {
                spec_sorts_more(s, n, acc.push(k))
            } else {
                (i, acc)
            },
            None => (i, acc),
        }
    } else {
        (i, acc)
    }
}

/// A comma-separated list of sort keys.
pub open spec fn spec_sort_keys_at(s: Seq<char>, i: int) -> Option<(int, Seq<SortS>)>
    decreases 0nat,
    when 0 <= i <= s.len()
{
    match spec_sort_key_at(s, i) {
        None => None,
        Some((n, k)) => if i < n <= s.len() {
            Some(spec_sorts_more(s, n, seq![k]))
        } else {
            None
        },
    }
}

/// Parses a comma-separated list of sort keys.
fn sort_keys_at(s: &Vec<char>, pos: usize) -> (r: Option<(usize, Vec<SortKey>)>)
    requires
        pos <= s@.len(),
    ensures
        match r {
            Some((n, ks)) => pos < n <= s@.len() && ks@.len() >= 1 && (spec_sort_keys_at(
                s@,
                pos as int,
            ) matches Some(sk) && sk.0 == n as int && sk.1 == sorts_view(ks@)),
            None => spec_sort_keys_at(s@, pos as int) is None,
        },
{
    broadcast use lemma_sorts_view_len, lemma_sorts_view_index;

    let (first_end, first) = match sort_key_at(s, pos) {
        Some(r) => r,
        None => {
            return None;
        },
    };
    let mut i = first_end;
    let mut keys: Vec<SortKey> = Vec::new();
    keys.push(first);
    proof {
        assert(sorts_view(keys@) =~= seq![
            SortS { path: keys@[0].path@, direction: keys@[0].direction },
        ]);
    }
    loop
        invariant
            pos < i <= s@.len(),
            keys@.len() >= 1,
            (spec_sort_keys_at(s@, pos as int) matches Some(sk) && sk == spec_sorts_more(
                s@,
                i as int,
                sorts_view(keys@),
            )),
        ensures
            pos < i <= s@.len(),
            keys@.len() >= 1,
            (spec_sort_keys_at(s@, pos as int) matches Some(sk) && sk.0 == i as int && sk.1
                == sorts_view(keys@)),
        decreases s@.len() - i,
    {
        let a = ws0(s, i);
        if a < s.len() && s[a] == ',' {
            let b = ws0(s, a + 1);
            match sort_key_at(s, b) {
                Some((n, k)) => {
                    let ghost pre = keys@;
                    let ghost kv = SortS { path: k.path@, direction: k.direction };
                    keys.push(k);
                    proof {
                        assert(keys@.drop_last() =~= pre);
                        assert(sorts_view(keys@) =~= sorts_view(pre).push(kv));
                    }
                    i = n;
                },
                None => {
                    break;
                },
            }
        } else {
            break;
        }
    }
    Some((i, keys))
}

/// One aggregation: a function name with a parenthesised path, or
/// `count(*)`.
pub open spec fn spec_agg_at(s: Seq<char>, i: int) -> Option<
    (int, (AggregationFunction, Option<Seq<char>>)),
>
    decreases 0nat,
    when 0 <= i <= s.len()
{
    let head = if spec_tag_nc(s, i, "count"@) is Some {
        Some((i + 5, AggregationFunction::Count))
    } else if spec_tag_nc(s, i, "sum"@) is Some {
        Some((i + 3, AggregationFunction::Sum))
    } else if spec_tag_nc(s, i, "min"@) is Some {
        Some((i + 3, AggregationFunction::Min))
    } else if spec_tag_nc(s, i, "max"@) is Some {
        Some((i + 3, AggregationFunction::Max))
    } else if spec_tag_nc(s, i, "avg"@) is Some {
        Some((i + 3, AggregationFunction::Avg))
    } else {
        None
    };
    match head {
        None => None,
        Some((j, f)) => if j < s.len() && s[j] == '(' {
            if f is Count && j + 1 < s.len() && s[j + 1] == '*' {
                if s.len() - j > 2 && s[j + 2] == ')' {
                    Some((j + 3, (f, None)))
                } else {
                    None
                }
            } else {
                match spec_path_end(s, j + 1) {
                    Some(pe) => if pe < s.len() && s[pe] == ')' {
                        Some((pe + 1, (f, Some(s.subrange(j + 1, pe)))))
                    } else {
                        None
                    },
                    None => None,
                }
            }
        } else {
            None
        },
    }
}

/// Parses one aggregation.
fn agg_at(s: &Vec<char>, pos: usize) -> (r: Option<(usize, AggregationExpr)>)
    requires
        pos <= s@.len(),
    ensures
        match r {
            Some((n, e)) => pos < n <= s@.len() && (spec_agg_at(s@, pos as int) matches Some(sa)
                && sa.0 == n as int && sa.1 == (
                e.function,
                match e.path {
                    Some(ref p) => Some(p@),
                    None => None::<Seq<char>>,
                },
            )),
            None => spec_agg_at(s@, pos as int) is None,
        },
{
    proof {
        reveal_strlit("count");
        reveal_strlit("sum");
        reveal_strlit("min");
        reveal_strlit("max");
        reveal_strlit("avg");
    }
    let (i, function) = if let Some(n) = tag_nc(s, pos, "count") {
        (n, AggregationFunction::Count)
    } else if let Some(n) = tag_nc(s, pos, "sum") {
        (n, AggregationFunction::Sum)
    } else if let Some(n) = tag_nc(s, pos, "min") {
        (n, AggregationFunction::Min)
    } else if let Some(n) = tag_nc(s, pos, "max") {
        (n, AggregationFunction::Max)
    } else if let Some(n) = tag_nc(s, pos, "avg") {
        (n, AggregationFunction::Avg)
    } else {
        return None;
    };
    if i >= s.len() || s[i] != '(' {
        return None;
    }
    if matches!(function, AggregationFunction::Count) && i + 1 < s.len() && s[i + 1] == '*' {
        if s.len() - i > 2 && s[i + 2] == ')' {
            return Some((i + 3, AggregationExpr { function, path: None }));
        }
        return None;
    }
    let pe = match path_end(s, i + 1) {
        Some(pe) => pe,
        None => {
            return None;
        },
    };
    if pe >= s.len() || s[pe] != ')' {
        return None;
    }
    let path = span_string(s, i + 1, pe);
    Some((pe + 1, AggregationExpr { function, path: Some(path) }))
}

/// The aggregations after the first: `"," agg` repeated; a comma not
/// followed by an aggregation fails the whole selection.
pub open spec fn spec_aggs_more(
    s: Seq<char>,
    i: int,
    acc: Seq<(AggregationFunction, Option<Seq<char>>)>,
) -> Option<(int, Seq<(AggregationFunction, Option<Seq<char>>)>)>
    decreases s.len() - i,
    when 0 <= i <= s.len()
{
    let a = spec_ws0(s, i);
    if 0 <= a < s.len() && s[a] == ',' {
        let b = spec_ws0(s, a + 1);
        match spec_agg_at(s, if 0 <= b <= s.len() {
            b
        } else {
            i
        }) {
            Some((n, e)) => if i < n <= s.len() {
                spec_aggs_more(s, n, acc.push(e))
            } else {
                None
            },
            None => None,
        }
    } else {
        Some((i, acc))
    }
}

/// The paths after the first: `"," path` repeated; a comma not followed by a
/// path fails the whole selection.
pub open spec fn spec_sel_paths_more(s: Seq<char>, i: int, acc: Seq<Seq<char>>) -> Option<
    (int, Seq<Seq<char>>),
>
    decreases s.len() - i,
    when 0 <= i <= s.len()
{
    let a = spec_ws0(s, i);
    if 0 <= a < s.len() && s[a] == ',' {
        let b = spec_ws0(s, a + 1);
        match spec_path_end(s, if 0 <= b <= s.len() {
            b
        } else {
            i
        }) {
            Some(pe) => if i < pe <= s.len() && 0 <= b {
                spec_sel_paths_more(s, pe, acc.push(s.subrange(b, pe)))
            } else {
                None
            },
            None => None,
        }
    } else {
        Some((i, acc))
    }
}

/// A selection: all aggregations, or all plain paths, comma-separated.
pub open spec fn spec_select_items_at(s: Seq<char>, i: int) -> Option<(int, SelS)>
    decreases 0nat,
    when 0 <= i <= s.len()
{
    match spec_agg_at(s, i) {
        Some((n, e)) => if i < n <= s.len() {
            match spec_aggs_more(s, n, seq![e]) {
                Some((m, aggs)) => Some((m, SelS::AggsS(aggs))),
                None => None,
            }
        } else {
            None
        },
        None => match spec_path_end(s, i) {
            Some(pe) => match spec_sel_paths_more(s, pe, seq![s.subrange(i, pe)]) {
                Some((m, paths)) => Some((m, SelS::PathsS(paths))),
                None => None,
            },
            None => None,
        },
    }
}

/// Parses a selection.
fn select_items_at(s: &Vec<char>, pos: usize) -> (r: Option<(usize, SelectClause)>)
    requires
        pos <= s@.len(),
    ensures
        match r {
            Some((n, c)) => pos < n <= s@.len() && (spec_select_items_at(s@, pos as int)
                matches Some(sc) && sc.0 == n as int && sc.1 == sel_view(&c)),
            None => spec_select_items_at(s@, pos as int) is None,
        },
{
    broadcast use lemma_aggs_view_len, lemma_aggs_view_index;

    if let Some((first_end, first)) = agg_at(s, pos) {
        let mut i = first_end;
        let mut aggs: Vec<AggregationExpr> = Vec::new();
        aggs.push(first);
        proof {
            assert(aggs_view(aggs@) =~= seq![
                (
                    aggs@[0].function,
                    match aggs@[0].path {
                        Some(p) => Some(p@),
                        None => None::<Seq<char>>,
                    },
                ),
            ]);
        }
        loop
            invariant
                pos < i <= s@.len(),
                spec_select_items_at(s@, pos as int) == (match spec_aggs_more(
                    s@,
                    i as int,
                    aggs_view(aggs@),
                ) {
                    Some((m, out)) => Some((m, SelS::AggsS(out))),
                    None => None::<(int, SelS)>,
                }),
            ensures
                pos < i <= s@.len(),
                (spec_select_items_at(s@, pos as int) matches Some(sc) && sc.0 == i as int && sc.1
                    == SelS::AggsS(aggs_view(aggs@))),
            decreases s@.len() - i,
        {
            let a = ws0(s, i);
            if a < s.len() && s[a] == ',' {
                let b = ws0(s, a + 1);
                match agg_at(s, b) {
                    Some((n, e)) => {
                        let ghost pre = aggs@;
                        let ghost ev = (
                            e.function,
                            match e.path {
                                Some(ref p) => Some(p@),
                                None => None::<Seq<char>>,
                            },
                        );
                        aggs.push(e);
                        proof {
                            assert(aggs@.drop_last() =~= pre);
                            assert(aggs_view(aggs@) =~= aggs_view(pre).push(ev));
                        }
                        i = n;
                    },
                    None => {
                        return None;
                    },
                }
            } else {
                break;
            }
        }
        return Some((i, SelectClause::Aggregations(aggs)));
    }
    let pe = match path_end(s, pos) {
        Some(pe) => pe,
        None => {
            return None;
        },
    };
    let mut i = pe;
    let mut paths: Vec<String> = Vec::new();
    paths.push(span_string(s, pos, pe));
    proof {
        assert(strs_view(paths@) =~= seq![paths@[0]@]);
    }
    loop
        invariant
            pos < i <= s@.len(),
            spec_select_items_at(s@, pos as int) == (match spec_sel_paths_more(
                s@,
                i as int,
                strs_view(paths@),
            ) {
                Some((m, out)) => Some((m, SelS::PathsS(out))),
                None => None::<(int, SelS)>,
            }),
        ensures
            pos < i <= s@.len(),
            (spec_select_items_at(s@, pos as int) matches Some(sc) && sc.0 == i as int && sc.1
                == SelS::PathsS(strs_view(paths@))),
        decreases s@.len() - i,
    {
        let a = ws0(s, i);
        if a < s.len() && s[a] == ',' {
            let b = ws0(s, a + 1);
            match path_end(s, b) {
                Some(pe2) => {
                    let ghost pre = paths@;
                    paths.push(span_string(s, b, pe2));
                    proof {
                        assert(paths@.drop_last() =~= pre);
                        assert(strs_view(paths@) =~= strs_view(pre).push(
                            s@.subrange(b as int, pe2 as int),
                        ));
                    }
                    i = pe2;
                },
                None => {
                    return None;
                },
            }
        } else {
            break;
        }
    }
    Some((i, SelectClause::Paths(paths)))
}

/// The suffix clauses after the predicates: any number of `order by` and
/// `select` clauses, each at most once; a duplicate, or a clause that starts
/// and then fails, fails the query.
pub open spec fn spec_suffix(
    s: Seq<char>,
    i: int,
    sel: Option<SelS>,
    ord: Option<Seq<SortS>>,
) -> Option<(int, Option<SelS>, Option<Seq<SortS>>)>
    decreases s.len() - i,
    when 0 <= i <= s.len()
{
    match spec_ws1(s, i) {
        None => Some((i, sel, ord)),
        Some(a0) => {
            let a = if 0 <= a0 <= s.len() {
                a0
            } else {
                i
            };
            if spec_tag_nc(s, a, "order"@) is Some {
                match spec_ws1(s, a + 5) {
                    None => None,
                    Some(c0) => {
                        let c = if 0 <= c0 <= s.len() {
                            c0
                        } else {
                            i
                        };
                        if spec_tag_nc(s, c, "by"@) is Some {
                            match spec_ws1(s, c + 2) {
                                None => None,
                                Some(e0) => {
                                    let e = if 0 <= e0 <= s.len() {
                                        e0
                                    } else {
                                        i
                                    };
                                    match spec_sort_keys_at(s, e) {
                                        None => None,
                                        Some((n, keys)) => if ord is Some {
                                            None
                                        } else if i < n <= s.len() {
                                            spec_suffix(s, n, sel, Some(keys))
                                        } else {
                                            None
                                        },
                                    }
                                },
                            }
                        } else {
                            None
                        }
                    },
                }
            } else if spec_tag_nc(s, a, "select"@) is Some {
                match spec_ws1(s, a + 6) {
                    None => None,
                    Some(c0) => {
                        let c = if 0 <= c0 <= s.len() {
                            c0
                        } else {
                            i
                        };
                        match spec_select_items_at(s, c) {
                            None => None,
                            Some((n, clause)) => if sel is Some {
                                None
                            } else if i < n <= s.len() {
                                spec_suffix(s, n, Some(clause), ord)
                            } else {
                                None
                            },
                        }
                    },
                }
            } else {
                Some((i, sel, ord))
            }
        },
    }
}

/// The whole query body: `where`, the predicates, the suffix clauses, and
/// nothing but blanks to the end.
pub open spec fn spec_query_body(s: Seq<char>) -> Option<AstS> {
    let i0 = spec_ws0(s, 0);
    match spec_tag_nc(s, if 0 <= i0 <= s.len() {
        i0
    } else {
        0
    }, "where"@) {
        None => None,
        Some(i1) => match spec_ws1(s, i1) {
            None => None,
            Some(i2) => match spec_preds_at(s, if 0 <= i2 <= s.len() {
                i2
            } else {
                0
            }) {
                None => None,
                Some((i3, preds)) => if 0 <= i3 <= s.len() {
                    match spec_suffix(s, i3, None, None) {
                        None => None,
                        Some((i4, sel, ord)) => if 0 <= i4 <= s.len() && spec_ws0(s, i4) == s.len() {
                            Some(AstS { predicates: preds, select: sel, order_by: ord })
                        } else {
                            None
                        },
                    }
                } else {
                    None
                },
            },
        },
    }
}

/// Parses the whole query body, from the `where` keyword to the end.
fn query_body(s: &Vec<char>) -> (r: Option<QueryAst>)
    ensures
        match r {
            Some(ast) => spec_query_body(s@) == Some(ast_view(&ast)) && ast.predicates@.len() >= 1
                && ast_wf(&ast),
            None => spec_query_body(s@) is None,
        },
{
    proof {
        reveal_strlit("where");
        reveal_strlit("order");
        reveal_strlit("by");
        reveal_strlit("select");
    }
    let i0 = ws0(s, 0);
    let i1 = match tag_nc(s, i0, "where") {
        Some(n) => n,
        None => {
            return None;
        },
    };
    let i2 = match ws1(s, i1) {
        Some(n) => n,
        None => {
            return None;
        },
    };
    let (preds_end, predicates) = match predicates_at(s, i2) {
        Some(r) => r,
        None => {
            return None;
        },
    };
    proof {
        assert(spec_ws0(s@, 0) == i0 as int);
        assert(spec_tag_nc(s@, i0 as int, "where"@) == Some(i1 as int));
        assert(spec_ws1(s@, i1 as int) == Some(i2 as int));
        assert(spec_preds_at(s@, i2 as int) matches Some(sp) && sp.0 == preds_end as int && sp.1
            == preds_view(predicates@));
        assert(spec_query_body(s@) == (match spec_suffix(s@, preds_end as int, None, None) {
            None => None::<AstS>,
            Some((i4, sel, ord)) => if 0 <= i4 <= s@.len() && spec_ws0(s@, i4) == s@.len() {
                Some(AstS { predicates: preds_view(predicates@), select: sel, order_by: ord })
            } else {
                None::<AstS>
            },
        }));
    }
    let mut i = preds_end;
    let mut select: Option<SelectClause> = None;
    let mut order_by: Option<Vec<SortKey>> = None;
    loop
        invariant
            i <= s@.len(),
            predicates@.len() >= 1,
            forall|q: int|
                #![trigger predicates@[q]]
                0 <= q < predicates@.len() ==> val_wf(predicates@[q].value@) && canonical_rep(
                    &predicates@[q].value,
                ),
            spec_query_body(s@) == (match spec_suffix(
                s@,
                i as int,
                match select {
                    Some(ref c) => Some(sel_view(c)),
                    None => None,
                },
                match order_by {
                    Some(ref keys) => Some(sorts_view(keys@)),
                    None => None,
                },
            ) {
                None => None::<AstS>,
                Some((i4, sel, ord)) => if 0 <= i4 <= s@.len() && spec_ws0(s@, i4) == s@.len() {
                    Some(AstS { predicates: preds_view(predicates@), select: sel, order_by: ord })
                } else {
                    None::<AstS>
                },
            }),
        ensures
            i <= s@.len(),
            predicates@.len() >= 1,
            forall|q: int|
                #![trigger predicates@[q]]
                0 <= q < predicates@.len() ==> val_wf(predicates@[q].value@) && canonical_rep(
                    &predicates@[q].value,
                ),
            spec_query_body(s@) == (if spec_ws0(s@, i as int) == s@.len() {
                Some(
                    AstS {
                        predicates: preds_view(predicates@),
                        select: match select {
                            Some(ref c) => Some(sel_view(c)),
                            None => None,
                        },
                        order_by: match order_by {
                            Some(ref keys) => Some(sorts_view(keys@)),
                            None => None,
                        },
                    },
                )
            } else {
                None::<AstS>
            }),
        decreases s@.len() - i,
    {
        proof {
            reveal_strlit("order");
            reveal_strlit("by");
            reveal_strlit("select");
        }
        let a = match ws1(s, i) {
            Some(a) => a,
            None => {
                break;
            },
        };
        if let Some(b) = tag_nc(s, a, "order") {
            proof {
                assert(b == a + 5);
            }
            let c = match ws1(s, b) {
                Some(c) => c,
                None => {
                    return None;
                },
            };
            let d = match tag_nc(s, c, "by") {
                Some(d) => d,
                None => {
                    return None;
                },
            };
            proof {
                assert(d == c + 2);
            }
            let e = match ws1(s, d) {
                Some(e) => e,
                None => {
                    return None;
                },
            };
            match sort_keys_at(s, e) {
                Some((n, keys)) => {
                    if order_by.is_some() {
                        return None;
                    }
                    order_by = Some(keys);
                    i = n;
                },
                None => {
                    return None;
                },
            }
        } else if let Some(b) = tag_nc(s, a, "select") {
            proof {
                assert(b == a + 6);
            }
            let c = match ws1(s, b) {
                Some(c) => c,
                None => {
                    return None;
                },
            };
            match select_items_at(s, c) {
                Some((n, clause)) => {
                    if select.is_some() {
                        return None;
                    }
                    select = Some(clause);
                    i = n;
                },
                None => {
                    return None;
                },
            }
        } else {
            break;
        }
    }
    let end = ws0(s, i);
    if end != s.len() {
        return None;
    }
    Some(QueryAst { predicates, select, order_by })
}

/// The first blank-delimited token of the trimmed input.
pub open spec fn spec_first_token(s: Seq<char>) -> Seq<char> {
    s.take(nonspace_run_end(s, 0))
}

/// The end of the run of non-white-space characters starting at `i`.
pub open spec fn nonspace_run_end(s: Seq<char>, i: int) -> int
    decreases s.len() - i,
    when 0 <= i <= s.len()
{
    if i == s.len() {
        i
    } else if !is_unicode_space(s[i]) {
        nonspace_run_end(s, i + 1)
    } else {
        i
    }
}

proof fn lemma_nonspace_run_end(s: Seq<char>, i: int)
    requires
        0 <= i <= s.len(),
    ensures
        i <= nonspace_run_end(s, i) <= s.len(),
    decreases s.len() - i,
{
    if i < s.len() && !is_unicode_space(s[i]) {
        lemma_nonspace_run_end(s, i + 1);
    }
}

/// Whether the first blank-separated token is `where`, case-insensitively.
pub fn starts_with_where_keyword(input: &str) -> (r: bool)
    ensures
        r == (spec_lower(spec_first_token(spec_trim(input@))) == spec_lower("where"@)),
{
    let cs = chars_vec(input);
    let t = trim_chars(&cs);
    proof {
        lemma_nonspace_run_end(t@, 0);
    }
    let mut i: usize = 0;
    while i < t.len() && !space_at(&t, i)
        invariant
            i <= t@.len(),
            nonspace_run_end(t@, 0) == nonspace_run_end(t@, i as int),
        decreases t@.len() - i,
    {
        i = i + 1;
    }
    proof {
        assert(nonspace_run_end(t@, 0) == i);
    }
    let mut tok: Vec<char> = Vec::new();
    let mut j: usize = 0;
    while j < i
        invariant
            j <= i <= t@.len(),
            tok@ =~= t@.take(j as int),
        decreases i - j,
    {
        proof {
            assert(t@.take(j + 1) =~= t@.take(j as int).push(t@[j as int]));
        }
        tok.push(t[j]);
        j = j + 1;
    }
    let w = chars_vec("where");
    eq_ignore_case(&tok, &w)
}

fn space_at(s: &Vec<char>, i: usize) -> (r: bool)
    requires
        i < s@.len(),
    ensures
        r == is_unicode_space(s@[i as int]),
{
    unicode_space(s[i])
}

/// How parsing one joined query string ends: empty-where on an all-blank
/// input; not-where when the first token is not `where`; else the grammar
/// decides.
pub open spec fn spec_parse_query(input: Seq<char>) -> ParseOut {
    let t = spec_trim(input);
    if t.len() == 0 {
        ParseOut::EmptyWhere
    } else if spec_lower(spec_first_token(t)) != spec_lower("where"@) {
        ParseOut::NotWhere
    } else {
        match spec_query_body(t) {
            Some(ast) => ParseOut::Parsed(ast),
            None => ParseOut::Invalid,
        }
    }
}

/// Parses one joined query string: `Ok` exactly when the trimmed input
/// matches the grammar, with the syntax tree pinned; each error message
/// comes exactly on its own condition.
pub fn parse_query(input: &str) -> (r: Result<QueryAst, String>)
    ensures
        match r {
            Ok(ast) => spec_parse_query(input@) == ParseOut::Parsed(ast_view(&ast))
                && ast.predicates@.len() >= 1 && ast_wf(&ast),
            Err(e) => match spec_parse_query(input@) {
                ParseOut::EmptyWhere => e@ == "WHERE clause is empty"@,
                ParseOut::NotWhere => e@ == "query must start with WHERE"@,
                ParseOut::Invalid => e@ == "invalid query syntax"@,
                ParseOut::Parsed(_) => false,
            },
        },
{
    let cs = chars_vec(input);
    let trimmed = trim_chars(&cs);
    if trimmed.len() == 0 {
        return Err(String::from_str("WHERE clause is empty"));
    }
    if !starts_with_where_keyword(input) {
        return Err(String::from_str("query must start with WHERE"));
    }
    match query_body(&trimmed) {
        Some(ast) => Ok(ast),
        None => Err(String::from_str("invalid query syntax")),
    }
}

/// An argv token, single-quoted when it holds a blank so its value survives
/// the re-join.
pub open spec fn spec_quoted_token(t: Seq<char>) -> Seq<char> {
    if crate::text::seq_has_unicode_space(t) {
        seq!['\''] + t + seq!['\'']
    } else {
        t
    }
}

/// The argv tokens re-joined with single blanks, blank-holding tokens
/// quoted.
pub open spec fn spec_quoted_join(tokens: Seq<Seq<char>>, i: int) -> Seq<char>
    decreases tokens.len() - i,
    when 0 <= i <= tokens.len()
{
    if i == tokens.len() {
        Seq::empty()
    } else if i + 1 == tokens.len() {
        spec_quoted_token(tokens[i])
    } else {
        spec_quoted_token(tokens[i]) + seq![' '] + spec_quoted_join(tokens, i + 1)
    }
}

/// How parsing argv tokens ends: empty-where with no tokens; not-where when
/// the first token is not `where`; else the joined string's parse.
pub open spec fn spec_parse_query_args(tokens: Seq<Seq<char>>) -> ParseOut {
    if tokens.len() == 0 {
        ParseOut::EmptyWhere
    } else if spec_lower(tokens[0]) != spec_lower("where"@) {
        ParseOut::NotWhere
    } else {
        spec_parse_query(spec_quoted_join(tokens, 0))
    }
}

/// Parses already-split argument tokens: the first must be `where`; a token
/// holding blanks is single-quoted so its value survives re-joining; the
/// result is exactly the joined string's parse.
pub fn parse_query_args(args: &Vec<String>) -> (r: Result<QueryAst, String>)
    ensures
        match r {
            Ok(ast) => spec_parse_query_args(strs_view(args@)) == ParseOut::Parsed(ast_view(&ast))
                && ast.predicates@.len() >= 1 && ast_wf(&ast),
            Err(e) => match spec_parse_query_args(strs_view(args@)) {
                ParseOut::EmptyWhere => e@ == "WHERE clause is empty"@,
                ParseOut::NotWhere => e@ == "query must start with WHERE"@,
                ParseOut::Invalid => e@ == "invalid query syntax"@,
                ParseOut::Parsed(_) => false,
            },
        },
{
    broadcast use crate::text::lemma_strs_view_len, crate::text::lemma_strs_view_index;

    if args.len() == 0 {
        return Err(String::from_str("WHERE clause is empty"));
    }
    let first = chars_vec(args[0].as_str());
    let w = chars_vec("where");
    if !eq_ignore_case(&first, &w) {
        return Err(String::from_str("query must start with WHERE"));
    }
    let joined = quoted_join(args);
    parse_query(joined.as_str())
}

/// The tokens re-joined with single blanks, unquoted.
pub open spec fn spec_plain_join(tokens: Seq<Seq<char>>, i: int) -> Seq<char>
    decreases tokens.len() - i,
    when 0 <= i <= tokens.len()
{
    if i == tokens.len() {
        Seq::empty()
    } else if i + 1 == tokens.len() {
        tokens[i]
    } else {
        tokens[i] + seq![' '] + spec_plain_join(tokens, i + 1)
    }
}

/// Joins tokens with single blanks.
pub fn plain_join(args: &Vec<String>) -> (r: String)
    ensures
        r@ == spec_plain_join(strs_view(args@), 0),
{
    broadcast use crate::text::lemma_strs_view_len, crate::text::lemma_strs_view_index;

    let mut out: Vec<char> = Vec::new();
    let mut i: usize = 0;
    proof {
        assert(Seq::<char>::empty() + spec_plain_join(strs_view(args@), 0) =~= spec_plain_join(
            strs_view(args@),
            0,
        ));
    }
    while i < args.len()
        invariant
            i <= args@.len(),
            out@ + spec_plain_join(strs_view(args@), i as int) == spec_plain_join(
                strs_view(args@),
                0,
            ),
        decreases args@.len() - i,
    {
        let ac = chars_vec(args[i].as_str());
        let ghost pre = out@;
        let mut k: usize = 0;
        proof {
            assert(ac@.take(0) =~= Seq::<char>::empty());
            assert(out@ =~= pre + ac@.take(0));
        }
        while k < ac.len()
            invariant
                k <= ac@.len(),
                out@ == pre + ac@.take(k as int),
            decreases ac@.len() - k,
        {
            proof {
                assert(ac@.take(k + 1) =~= ac@.take(k as int).push(ac@[k as int]));
                assert(pre + ac@.take(k as int).push(ac@[k as int]) =~= (pre + ac@.take(
                    k as int,
                )).push(ac@[k as int]));
            }
            out.push(ac[k]);
            k = k + 1;
        }
        proof {
            assert(ac@.take(ac@.len() as int) =~= ac@);
            assert(strs_view(args@)[i as int] == args@[i as int]@);
        }
        if i + 1 < args.len() {
            out.push(' ');
            proof {
                assert(out@ =~= pre + strs_view(args@)[i as int] + seq![' ']);
                assert(out@ + spec_plain_join(strs_view(args@), i + 1) =~= pre + (strs_view(
                    args@,
                )[i as int] + seq![' '] + spec_plain_join(strs_view(args@), i + 1)));
                assert(out@ + spec_plain_join(strs_view(args@), i + 1) =~= pre + spec_plain_join(
                    strs_view(args@),
                    i as int,
                ));
            }
        } else {
            proof {
                assert(spec_plain_join(strs_view(args@), i + 1) =~= Seq::<char>::empty());
                assert(out@ + spec_plain_join(strs_view(args@), i + 1) =~= out@);
                assert(out@ =~= pre + spec_plain_join(strs_view(args@), i as int));
            }
        }
        i = i + 1;
    }
    proof {
        assert(spec_plain_join(strs_view(args@), i as int) =~= Seq::<char>::empty());
        assert(out@ + Seq::<char>::empty() =~= out@);
    }
    string_from_chars(&out)
}

/// Joins argv tokens with single blanks, quoting any token that holds one.
fn quoted_join(args: &Vec<String>) -> (r: String)
    requires
        args@.len() >= 1,
    ensures
        r@ == spec_quoted_join(strs_view(args@), 0),
{
    broadcast use crate::text::lemma_strs_view_len, crate::text::lemma_strs_view_index;

    let mut out: Vec<char> = Vec::new();
    let mut i: usize = 0;
    proof {
        assert(Seq::<char>::empty() + spec_quoted_join(strs_view(args@), 0) =~= spec_quoted_join(
            strs_view(args@),
            0,
        ));
    }
    while i < args.len()
        invariant
            i <= args@.len(),
            args@.len() >= 1,
            out@ + spec_quoted_join(strs_view(args@), i as int) == spec_quoted_join(
                strs_view(args@),
                0,
            ),
        decreases args@.len() - i,
    {
        let ac = chars_vec(args[i].as_str());
        let quoted = crate::text::has_unicode_space(&ac);
        let ghost pre = out@;
        let ghost prefix: Seq<char> = if quoted {
            pre.push('\'')
        } else {
            pre
        };
        if quoted {
            out.push('\'');
        }
        proof {
            assert(ac@.take(0) =~= Seq::<char>::empty());
            assert(out@ =~= prefix + ac@.take(0));
        }
        let mut k: usize = 0;
        while k < ac.len()
            invariant
                k <= ac@.len(),
                out@ == prefix + ac@.take(k as int),
            decreases ac@.len() - k,
        {
            proof {
                assert(ac@.take(k + 1) =~= ac@.take(k as int).push(ac@[k as int]));
                assert(prefix + ac@.take(k as int).push(ac@[k as int]) =~= (prefix + ac@.take(
                    k as int,
                )).push(ac@[k as int]));
            }
            out.push(ac[k]);
            k = k + 1;
        }
        proof {
            assert(ac@.take(ac@.len() as int) =~= ac@);
        }
        if quoted {
            out.push('\'');
        }
        proof {
            assert(out@ =~= pre + spec_quoted_token(args@[i as int]@));
            assert(strs_view(args@)[i as int] == args@[i as int]@);
        }
        if i + 1 < args.len() {
            out.push(' ');
            proof {
                assert(out@ =~= pre + spec_quoted_token(strs_view(args@)[i as int]) + seq![' ']);
                assert(out@ + spec_quoted_join(strs_view(args@), i + 1) =~= pre + (
                spec_quoted_token(strs_view(args@)[i as int]) + seq![' '] + spec_quoted_join(
                    strs_view(args@),
                    i + 1,
                )));
                assert(out@ + spec_quoted_join(strs_view(args@), i + 1) =~= pre + spec_quoted_join(
                    strs_view(args@),
                    i as int,
                ));
            }
        } else {
            proof {
                assert(spec_quoted_join(strs_view(args@), i + 1) =~= Seq::<char>::empty());
                assert(out@ + spec_quoted_join(strs_view(args@), i + 1) =~= out@);
                assert(out@ =~= pre + spec_quoted_join(strs_view(args@), i as int));
            }
        }
        i = i + 1;
    }
    proof {
        assert(spec_quoted_join(strs_view(args@), i as int) =~= Seq::<char>::empty());
        assert(out@ + Seq::<char>::empty() =~= out@);
    }
    string_from_chars(&out)
}

} // verus!
