//! The pure parts of the command line: turning a parsed query into the
//! engine's plan, and rendering the diagnostics printed to standard error.

use vstd::prelude::*;

use crate::engine::{
    EngineAggregationExpr, EngineAggregationFunction, EngineOperator, EnginePredicate,
    EngineSelection, EngineSortDirection, EngineSortKey, QueryPlan,
};
use crate::errors::CliError;
use crate::jsonv::{canonical_rep, clone_string, val_wf};
use crate::k8s::{K8sDiagnostic, SelectorFallbackReason};
use crate::parser::{
    parse_query, parse_query_args, AggregationExpr, AggregationFunction, Operator, QueryAst,
    SelectClause, SortDirection, SortKey,
};
use crate::planner::{NotPushableReason, PlannerDiagnostic};

verus! {

/// How parsing the command line's query tokens ends: the argv form when the
/// first token is `where`, else the tokens joined as one query string.
pub open spec fn spec_parse_query_tokens(tokens: Seq<Seq<char>>) -> crate::parser::ParseOut {
    if tokens.len() > 0 && crate::text::spec_lower(tokens[0]) == crate::text::spec_lower(
        "where"@,
    ) {
        crate::parser::spec_parse_query_args(tokens)
    } else {
        crate::parser::spec_parse_query(crate::parser::spec_plain_join(tokens, 0))
    }
}

/// Parses the query tokens: the argv form when the first token is `where`,
/// else the tokens joined as one query string; a parse failure carries the
/// parser's message.
pub fn parse_query_tokens(tokens: &Vec<String>) -> (r: Result<QueryAst, CliError>)
    ensures
        match r {
            Ok(ast) => spec_parse_query_tokens(crate::text::strs_view(tokens@))
                == crate::parser::ParseOut::Parsed(crate::parser::ast_view(&ast))
                && crate::parser::ast_wf(&ast),
            Err(e) => e matches CliError::Parse(msg) && (match spec_parse_query_tokens(
                crate::text::strs_view(tokens@),
            ) {
                crate::parser::ParseOut::EmptyWhere => msg@ == "WHERE clause is empty"@,
                crate::parser::ParseOut::NotWhere => msg@ == "query must start with WHERE"@,
                crate::parser::ParseOut::Invalid => msg@ == "invalid query syntax"@,
                crate::parser::ParseOut::Parsed(_) => false,
            }),
        },
{
    broadcast use crate::text::lemma_strs_view_len, crate::text::lemma_strs_view_index;

    let looks_argv = if tokens.len() > 0 {
        let first = crate::text::chars_vec(tokens[0].as_str());
        let w = crate::text::chars_vec("where");
        crate::text::eq_ignore_case(&first, &w)
    } else {
        false
    };
    let parsed = if looks_argv {
        parse_query_args(tokens)
    } else {
        let joined = crate::parser::plain_join(tokens);
        parse_query(joined.as_str())
    };
    match parsed {
        Ok(ast) => Ok(ast),
        Err(msg) => Err(CliError::Parse(msg)),
    }
}

/// One parsed operator as the engine sees it.
pub fn operator_to_engine(op: &Operator) -> (r: EngineOperator)
    ensures
        op is Eq <==> r is Eq,
{
    match op {
        Operator::Eq => EngineOperator::Eq,
        Operator::Ne => EngineOperator::Ne,
    }
}

/// One parsed predicate as the engine sees it.
pub fn predicate_to_engine(p: &crate::parser::Predicate) -> (r: EnginePredicate)
    requires
        val_wf(p.value@),
        canonical_rep(&p.value),
    ensures
        r.path@ == p.path@,
        r.value@ == p.value@,
        (p.op is Eq <==> r.op is Eq),
        val_wf(r.value@),
        canonical_rep(&r.value),
{
    EnginePredicate {
        path: clone_string(&p.path),
        op: operator_to_engine(&p.op),
        value: p.value.duplicate(),
    }
}

/// One parsed sort direction as the engine sees it.
pub fn sort_direction_to_engine(d: SortDirection) -> (r: EngineSortDirection)
    ensures
        d is Asc <==> r is Asc,
{
    match d {
        SortDirection::Asc => EngineSortDirection::Asc,
        SortDirection::Desc => EngineSortDirection::Desc,
    }
}

/// One parsed sort key as the engine sees it.
pub fn sort_key_to_engine(k: &SortKey) -> (r: EngineSortKey)
    ensures
        r.path@ == k.path@,
        (k.direction is Asc <==> r.direction is Asc),
{
    EngineSortKey {
        path: clone_string(&k.path),
        direction: sort_direction_to_engine(k.direction),
    }
}

/// One parsed aggregation function as the engine sees it.
pub fn aggregation_function_to_engine(f: AggregationFunction) -> (r: EngineAggregationFunction)
    ensures
        (f is Count <==> r is Count),
        (f is Sum <==> r is Sum),
        (f is Min <==> r is Min),
        (f is Max <==> r is Max),
        (f is Avg <==> r is Avg),
{
    match f {
        AggregationFunction::Count => EngineAggregationFunction::Count,
        AggregationFunction::Sum => EngineAggregationFunction::Sum,
        AggregationFunction::Min => EngineAggregationFunction::Min,
        AggregationFunction::Max => EngineAggregationFunction::Max,
        AggregationFunction::Avg => EngineAggregationFunction::Avg,
    }
}

/// One parsed aggregation as the engine sees it.
pub fn aggregation_to_engine(e: &AggregationExpr) -> (r: EngineAggregationExpr)
    ensures
        agg_fn_matches(e.function, r.function),
        crate::agg::opt_path_view(&r.path) == (match e.path {
            Some(ref p) => Some(p@),
            None => None::<Seq<char>>,
        }),
{
    EngineAggregationExpr {
        function: aggregation_function_to_engine(e.function),
        path: match &e.path {
            Some(p) => Some(clone_string(p)),
            None => None,
        },
    }
}

/// A parsed selection as the engine sees it.
pub fn select_clause_to_engine(c: &SelectClause) -> (r: EngineSelection)
    ensures
        selection_matches(c, &r),
{
    match c {
        SelectClause::Paths(paths) => {
            let mut out: Vec<String> = Vec::new();
            let mut i: usize = 0;
            while i < paths.len()
                invariant
                    i <= paths@.len(),
                    out@.len() == i,
                    forall|j: int| 0 <= j < i ==> #[trigger] out@[j]@ == paths@[j]@,
                decreases paths@.len() - i,
            {
                out.push(clone_string(&paths[i]));
                i = i + 1;
            }
            proof {
                broadcast use crate::text::lemma_strs_view_len, crate::text::lemma_strs_view_index;

                assert forall|j: int|
                    0 <= j < out@.len() implies #[trigger] crate::text::strs_view(paths@)[j]
                    == crate::text::strs_view(out@)[j] by {
                    assert(out@[j]@ == paths@[j]@);
                }
                assert(crate::text::strs_view(paths@) =~= crate::text::strs_view(out@));
            }
            EngineSelection::Paths(out)
        },
        SelectClause::Aggregations(exprs) => {
            let mut out: Vec<EngineAggregationExpr> = Vec::new();
            let mut i: usize = 0;
            while i < exprs.len()
                invariant
                    i <= exprs@.len(),
                    out@.len() == i,
                    forall|j: int|
                        #![trigger out@[j]]
                        0 <= j < i ==> agg_fn_matches(exprs@[j].function, out@[j].function) && (
                        match (exprs@[j].path, out@[j].path) {
                            (Some(p), Some(q)) => p@ == q@,
                            (None, None) => true,
                            _ => false,
                        }),
                decreases exprs@.len() - i,
            {
                out.push(aggregation_to_engine(&exprs[i]));
                i = i + 1;
            }
            EngineSelection::Aggregations(out)
        },
    }
}

/// Whether an engine aggregation mirrors a parsed one.
pub open spec fn agg_fn_matches(f: AggregationFunction, g: EngineAggregationFunction) -> bool {
    match (f, g) {
        (AggregationFunction::Count, EngineAggregationFunction::Count) => true,
        (AggregationFunction::Sum, EngineAggregationFunction::Sum) => true,
        (AggregationFunction::Min, EngineAggregationFunction::Min) => true,
        (AggregationFunction::Max, EngineAggregationFunction::Max) => true,
        (AggregationFunction::Avg, EngineAggregationFunction::Avg) => true,
        _ => false,
    }
}

/// Whether an engine selection mirrors a parsed one: the same paths, or the
/// same aggregations.
pub open spec fn selection_matches(c: &SelectClause, e: &EngineSelection) -> bool {
    match (c, e) {
        (SelectClause::Paths(a), EngineSelection::Paths(b)) => crate::text::strs_view(a@)
            == crate::text::strs_view(b@),
        (SelectClause::Aggregations(a), EngineSelection::Aggregations(b)) => a@.len() == b@.len()
            && forall|i: int|
            #![trigger a@[i], b@[i]]
            0 <= i < a@.len() ==> agg_fn_matches(a@[i].function, b@[i].function) && (match (
                a@[i].path,
                b@[i].path,
            ) {
                (Some(p), Some(q)) => p@ == q@,
                (None, None) => true,
                _ => false,
            }),
        _ => false,
    }
}

/// The engine plan a parsed query denotes: the same predicates, selection
/// and sort keys, element for element, with every predicate value well
/// formed.
pub fn ast_to_engine_plan(ast: &QueryAst) -> (r: QueryPlan)
    requires
        crate::parser::ast_wf(ast),
    ensures
        crate::engine::preds_wf(r.predicates@),
        r.predicates@.len() == ast.predicates@.len(),
        forall|i: int|
            #![trigger r.predicates@[i]]
            0 <= i < r.predicates@.len() ==> r.predicates@[i].path@ == ast.predicates@[i].path@
                && r.predicates@[i].value@ == ast.predicates@[i].value@ && (
            ast.predicates@[i].op is Eq <==> r.predicates@[i].op is Eq),
        (match (&ast.select, &r.selection) {
            (None, None) => true,
            (Some(c), Some(e)) => selection_matches(c, e),
            _ => false,
        }),
        (match (&ast.order_by, &r.sort_keys) {
            (None, None) => true,
            (Some(a), Some(b)) => a@.len() == b@.len() && forall|i: int|
                #![trigger a@[i], b@[i]]
                0 <= i < a@.len() ==> a@[i].path@ == b@[i].path@ && (a@[i].direction is Asc <==> b@[
                    i
                ].direction is Asc),
            _ => false,
        }),
{
    let mut predicates: Vec<EnginePredicate> = Vec::new();
    let mut i: usize = 0;
    while i < ast.predicates.len()
        invariant
            i <= ast.predicates@.len(),
            crate::parser::ast_wf(ast),
            predicates@.len() == i,
            crate::engine::preds_wf(predicates@),
            forall|j: int|
                #![trigger predicates@[j]]
                0 <= j < i ==> predicates@[j].path@ == ast.predicates@[j].path@ && predicates@[
                    j
                ].value@ == ast.predicates@[j].value@ && (ast.predicates@[j].op is Eq
                    <==> predicates@[j].op is Eq),
        decreases ast.predicates@.len() - i,
    {
        let ghost pre = predicates@;
        predicates.push(predicate_to_engine(&ast.predicates[i]));
        proof {
            assert forall|j: int|
                #![trigger predicates@[j]]
                0 <= j < predicates@.len() implies val_wf(predicates@[j].value@) && canonical_rep(
                &predicates@[j].value,
            ) by {
                if j < pre.len() {
                    assert(predicates@[j] == pre[j]);
                }
            }
        }
        i = i + 1;
    }
    let selection = match &ast.select {
        Some(c) => Some(select_clause_to_engine(c)),
        None => None,
    };
    let sort_keys = match &ast.order_by {
        Some(keys) => {
            let mut out: Vec<EngineSortKey> = Vec::new();
            let mut i: usize = 0;
            while i < keys.len()
                invariant
                    i <= keys@.len(),
                    out@.len() == i,
                    forall|j: int|
                        #![trigger out@[j]]
                        0 <= j < i ==> keys@[j].path@ == out@[j].path@ && (keys@[j].direction is Asc
                            <==> out@[j].direction is Asc),
                decreases keys@.len() - i,
            {
                out.push(sort_key_to_engine(&keys[i]));
                i = i + 1;
            }
            Some(out)
        },
        None => None,
    };
    QueryPlan { predicates, selection, sort_keys }
}

/// The operator as the query language writes it.
pub fn format_operator(op: &Operator) -> (r: &'static str)
    ensures
        op is Eq ==> r@ == "=="@,
        op is Ne ==> r@ == "!="@,
{
    match op {
        Operator::Eq => "==",
        Operator::Ne => "!=",
    }
}

/// The reason a predicate was not pushed, in words.
pub fn format_not_pushable_reason(reason: &NotPushableReason) -> (r: &'static str)
    ensures
        reason is UnsupportedPath ==> r@ == "unsupported path"@,
        reason is UnsupportedOperator ==> r@ == "unsupported operator"@,
        reason is NonStringValue ==> r@ == "non-string value"@,
        reason is UnsafeSelectorValue ==> r@ == "unsafe selector value"@,
        reason is UnsafeLabelKey ==> r@ == "unsafe label key"@,
{
    match reason {
        NotPushableReason::UnsupportedPath => "unsupported path",
        NotPushableReason::UnsupportedOperator => "unsupported operator",
        NotPushableReason::NonStringValue => "non-string value",
        NotPushableReason::UnsafeSelectorValue => "unsafe selector value",
        NotPushableReason::UnsafeLabelKey => "unsafe label key",
    }
}

/// The reason the lister dropped its selectors, in words.
pub fn format_selector_fallback_reason(reason: &SelectorFallbackReason) -> (r: &'static str)
    ensures
        r@ == "bad request"@,
{
    match reason {
        SelectorFallbackReason::ApiRejectedBadRequest => "bad request",
    }
}

/// The planner warning printed to standard error.
pub fn format_planner_diagnostic(diagnostic: &PlannerDiagnostic) -> (r: String)
    ensures
        r@ == "[pushdown] predicate `"@ + diagnostic.path@ + "` "@ + (match diagnostic.op {
            Operator::Eq => "=="@,
            Operator::Ne => "!="@,
        }) + " was not pushed: "@ + spec_reason_text(diagnostic.reason),
{
    let mut out = String::from_str("[pushdown] predicate `");
    out.append(diagnostic.path.as_str());
    out.append("` ");
    out.append(format_operator(&diagnostic.op));
    out.append(" was not pushed: ");
    out.append(format_not_pushable_reason(&diagnostic.reason));
    out
}

pub open spec fn spec_reason_text(reason: NotPushableReason) -> Seq<char> {
    match reason {
        NotPushableReason::UnsupportedPath => "unsupported path"@,
        NotPushableReason::UnsupportedOperator => "unsupported operator"@,
        NotPushableReason::NonStringValue => "non-string value"@,
        NotPushableReason::UnsafeSelectorValue => "unsafe selector value"@,
        NotPushableReason::UnsafeLabelKey => "unsafe label key"@,
    }
}

/// An optional selector, rendered the way a debug formatter would.
pub open spec fn spec_dbg_opt(o: &Option<String>) -> Seq<char> {
    match o {
        Some(s) => "Some(\""@ + s@ + "\")"@,
        None => "None"@,
    }
}

fn dbg_opt(o: &Option<String>) -> (r: String)
    ensures
        r@ == spec_dbg_opt(o),
{
    match o {
        Some(s) => {
            let mut out = String::from_str("Some(\"");
            out.append(s.as_str());
            out.append("\")");
            out
        },
        None => String::from_str("None"),
    }
}

/// The line a runtime diagnostic prints to standard error.
pub open spec fn spec_k8s_diagnostic_line(diagnostic: &K8sDiagnostic) -> Seq<char> {
    match diagnostic {
        K8sDiagnostic::SelectorFallback { reason, attempted } => "[pushdown] API rejected selectors ("@
            + (match reason {
            SelectorFallbackReason::ApiRejectedBadRequest => "bad request"@,
        }) + "); retried without selectors (field_selector="@ + spec_dbg_opt(
            &attempted.field_selector,
        ) + ", label_selector="@ + spec_dbg_opt(&attempted.label_selector) + ")"@,
        K8sDiagnostic::RetrySummary { stage, attempts, .. } => "[retry] "@ + stage@
            + " gave up after "@ + crate::num::nat_chars(*attempts as nat) + " attempts"@,
    }
}

/// The runtime diagnostic printed to standard error.
pub fn format_k8s_diagnostic(diagnostic: &K8sDiagnostic) -> (r: String)
    ensures
        r@ == spec_k8s_diagnostic_line(diagnostic),
{
    match diagnostic {
        K8sDiagnostic::SelectorFallback { reason, attempted } => {
            let mut out = String::from_str("[pushdown] API rejected selectors (");
            out.append(format_selector_fallback_reason(reason));
            out.append("); retried without selectors (field_selector=");
            let f = dbg_opt(&attempted.field_selector);
            out.append(f.as_str());
            out.append(", label_selector=");
            let l = dbg_opt(&attempted.label_selector);
            out.append(l.as_str());
            out.append(")");
            out
        },
        K8sDiagnostic::RetrySummary { stage, attempts, .. } => {
            let mut out = String::from_str("[retry] ");
            out.append(stage.as_str());
            out.append(" gave up after ");
            let mut cs: Vec<char> = Vec::new();
            crate::num::push_u128_chars(*attempts as u128, &mut cs);
            let n = crate::text::string_from_chars(&cs);
            out.append(n.as_str());
            out.append(" attempts");
            out
        },
    }
}

} // verus!
