//! The pushdown planner: turns safe predicates into Kubernetes field and
//! label selectors, and reports every predicate it could not push.

use vstd::prelude::*;

use crate::jsonv::{JsonVal, JsonValue};
use crate::k8s::ListQueryOptions;
use crate::parser::{Operator, Predicate};
use crate::text::{
    chars_vec, eq_ignore_case, has_char, has_unicode_space, is_unicode_space, seq_has_char,
    seq_has_unicode_space, spec_lower, string_from_chars, strs_view,
};

verus! {

broadcast use crate::text::lemma_strs_view_len, crate::text::lemma_strs_view_index;

/// Why a predicate was not pushed down.
#[derive(Clone, Copy, Debug, PartialEq, Eq, Structural)]
pub enum NotPushableReason {
    UnsupportedPath,
    UnsupportedOperator,
    NonStringValue,
    UnsafeSelectorValue,
    UnsafeLabelKey,
}

/// One predicate the planner left to client-side evaluation.
#[derive(Debug, PartialEq)]
pub struct PlannerDiagnostic {
    pub path: String,
    pub op: Operator,
    pub reason: NotPushableReason,
}

/// The planner's outcome: selector options plus diagnostics.
#[derive(Debug, PartialEq)]
pub struct PushdownPlan {
    pub options: ListQueryOptions,
    pub diagnostics: Vec<PlannerDiagnostic>,
}

/// A selector value is safe when non-empty and free of commas, equals signs,
/// exclamation marks and white space.
pub open spec fn spec_selector_value_safe(v: Seq<char>) -> bool {
    v.len() > 0 && !seq_has_char(v, ',') && !seq_has_char(v, '=') && !seq_has_char(v, '!')
        && !seq_has_unicode_space(v)
}

/// A label key is safe when non-empty and free of commas and white space.
pub open spec fn spec_label_key_safe(k: Seq<char>) -> bool {
    k.len() > 0 && !seq_has_char(k, ',') && !seq_has_unicode_space(k)
}

pub open spec fn spec_op_chars(op: Operator) -> Seq<char> {
    match op {
        Operator::Eq => "="@,
        Operator::Ne => "!="@,
    }
}

/// The two paths the API serves as field selectors, case-insensitively.
pub open spec fn spec_field_path(path: Seq<char>) -> bool {
    spec_lower(path) == spec_lower("metadata.name"@) || spec_lower(path) == spec_lower(
        "metadata.namespace"@,
    )
}

pub open spec fn spec_label_prefix() -> Seq<char> {
    "metadata.labels."@
}

pub open spec fn spec_has_label_prefix(path: Seq<char>) -> bool {
    path.len() >= spec_label_prefix().len() && path.take(spec_label_prefix().len() as int)
        == spec_label_prefix()
}

pub open spec fn spec_label_key(path: Seq<char>) -> Seq<char> {
    path.skip(spec_label_prefix().len() as int)
}

/// Where one predicate goes: a field-selector part, a label-selector part, or
/// a diagnostic reason.
pub ghost enum SelTarget {
    Field(Seq<char>),
    Label(Seq<char>),
}

/// The planner's rule for one predicate: the value must be a safe string, and
/// the path must be a whitelisted field path or carry the label prefix with a
/// safe key.
pub open spec fn spec_pred_selector(path: Seq<char>, op: Operator, value: JsonVal) -> Result<
    SelTarget,
    NotPushableReason,
> {
    match value {
        JsonVal::Str(text) => if !spec_selector_value_safe(text) {
            Err(NotPushableReason::UnsafeSelectorValue)
        } else if spec_field_path(path) {
            Ok(SelTarget::Field(path + spec_op_chars(op) + text))
        } else if spec_has_label_prefix(path) {
            if !spec_label_key_safe(spec_label_key(path)) {
                Err(NotPushableReason::UnsafeLabelKey)
            } else {
                Ok(SelTarget::Label(spec_label_key(path) + spec_op_chars(op) + text))
            }
        } else {
            Err(NotPushableReason::UnsupportedPath)
        },
        _ => Err(NotPushableReason::NonStringValue),
    }
}

/// The field-selector parts of a predicate list, in order.
pub open spec fn spec_field_parts(preds: Seq<Predicate>) -> Seq<Seq<char>>
    decreases preds.len(),
{
    if preds.len() == 0 {
        Seq::empty()
    } else {
        spec_field_parts(preds.drop_last()) + (match spec_pred_selector(
            preds.last().path@,
            preds.last().op,
            preds.last().value@,
        ) {
            Ok(SelTarget::Field(part)) => seq![part],
            _ => Seq::empty(),
        })
    }
}

/// The label-selector parts of a predicate list, in order.
pub open spec fn spec_label_parts(preds: Seq<Predicate>) -> Seq<Seq<char>>
    decreases preds.len(),
{
    if preds.len() == 0 {
        Seq::empty()
    } else {
        spec_label_parts(preds.drop_last()) + (match spec_pred_selector(
            preds.last().path@,
            preds.last().op,
            preds.last().value@,
        ) {
            Ok(SelTarget::Label(part)) => seq![part],
            _ => Seq::empty(),
        })
    }
}

/// The diagnostics of a predicate list, in order.
pub open spec fn spec_planner_diags(preds: Seq<Predicate>) -> Seq<
    (Seq<char>, Operator, NotPushableReason),
>
    decreases preds.len(),
{
    if preds.len() == 0 {
        Seq::empty()
    } else {
        spec_planner_diags(preds.drop_last()) + (match spec_pred_selector(
            preds.last().path@,
            preds.last().op,
            preds.last().value@,
        ) {
            Err(reason) => seq![(preds.last().path@, preds.last().op, reason)],
            Ok(_) => Seq::empty(),
        })
    }
}

/// Comma-joined parts; absent when there are none.
pub open spec fn spec_join_comma(parts: Seq<Seq<char>>) -> Option<Seq<char>>
    decreases parts.len(),
{
    if parts.len() == 0 {
        None
    } else {
        match spec_join_comma(parts.drop_last()) {
            None => Some(parts.last()),
            Some(prefix) => Some(prefix + ","@ + parts.last()),
        }
    }
}

/// Classifies one predicate.
fn predicate_to_selector(p: &Predicate) -> (r: Result<(bool, String), NotPushableReason>)
    ensures
        match r {
            Ok((is_field, part)) => spec_pred_selector(p.path@, p.op, p.value@) == Ok::<
                SelTarget,
                NotPushableReason,
            >(
                if is_field {
                    SelTarget::Field(part@)
                } else {
                    SelTarget::Label(part@)
                },
            ),
            Err(reason) => spec_pred_selector(p.path@, p.op, p.value@) == Err::<
                SelTarget,
                NotPushableReason,
            >(reason),
        },
{
    let text = match &p.value {
        JsonValue::Str(text) => text,
        _ => {
            return Err(NotPushableReason::NonStringValue);
        },
    };
    let tc = chars_vec(text.as_str());
    if text.as_str().is_empty() || has_char(&tc, ',') || has_char(&tc, '=') || has_char(&tc, '!')
        || has_unicode_space(&tc) {
        return Err(NotPushableReason::UnsafeSelectorValue);
    }
    let pc = chars_vec(p.path.as_str());
    let name_c = chars_vec("metadata.name");
    let ns_c = chars_vec("metadata.namespace");
    let op_str: &str = match p.op {
        Operator::Eq => "=",
        Operator::Ne => "!=",
    };
    if eq_ignore_case(&pc, &name_c) || eq_ignore_case(&pc, &ns_c) {
        let mut part = crate::jsonv::clone_string(&p.path);
        part.append(op_str);
        part.append(text.as_str());
        return Ok((true, part));
    }
    let prefix_c = chars_vec("metadata.labels.");
    if pc.len() >= prefix_c.len() {
        let mut same = true;
        let mut i: usize = 0;
        while i < prefix_c.len()
            invariant
                i <= prefix_c@.len(),
                prefix_c@.len() <= pc@.len(),
                same ==> forall|j: int| 0 <= j < i ==> pc@[j] == prefix_c@[j],
                !same ==> pc@.take(prefix_c@.len() as int) != prefix_c@,
            decreases prefix_c@.len() - i,
        {
            if pc[i] != prefix_c[i] {
                proof {
                    assert(pc@.take(prefix_c@.len() as int)[i as int] != prefix_c@[i as int]);
                }
                same = false;
                i = prefix_c.len();
            } else {
                i = i + 1;
            }
        }
        if same {
            proof {
                assert(pc@.take(prefix_c@.len() as int) =~= prefix_c@);
            }
            let mut key: Vec<char> = Vec::new();
            let mut k: usize = prefix_c.len();
            while k < pc.len()
                invariant
                    prefix_c@.len() <= k <= pc@.len(),
                    key@ =~= pc@.subrange(prefix_c@.len() as int, k as int),
                decreases pc@.len() - k,
            {
                proof {
                    assert(pc@.subrange(prefix_c@.len() as int, k + 1) =~= pc@.subrange(
                        prefix_c@.len() as int,
                        k as int,
                    ).push(pc@[k as int]));
                }
                key.push(pc[k]);
                k = k + 1;
            }
            proof {
                assert(key@ =~= pc@.skip(prefix_c@.len() as int));
            }
            if key.len() == 0 || has_char(&key, ',') || has_unicode_space(&key) {
                return Err(NotPushableReason::UnsafeLabelKey);
            }
            let mut part = string_from_chars(&key);
            part.append(op_str);
            part.append(text.as_str());
            return Ok((false, part));
        }
    }
    proof {
        if spec_has_label_prefix(pc@) {
            assert(pc@.take(prefix_c@.len() as int) == prefix_c@);
        }
    }
    Err(NotPushableReason::UnsupportedPath)
}

/// Joins selector parts with commas; no parts give no selector.
fn join_selector_parts(parts: Vec<String>) -> (r: Option<String>)
    ensures
        match r {
            Some(s) => spec_join_comma(strs_view(parts@)) == Some(s@),
            None => spec_join_comma(strs_view(parts@)) is None,
        },
{
    if parts.len() == 0 {
        proof {
            assert(strs_view(parts@) =~= Seq::<Seq<char>>::empty());
        }
        return None;
    }
    let mut out = String::new();
    let mut i: usize = 0;
    while i < parts.len()
        invariant
            i <= parts@.len(),
            parts@.len() > 0,
            i > 0 ==> spec_join_comma(strs_view(parts@.take(i as int))) == Some(out@),
            i == 0 ==> out@ == Seq::<char>::empty(),
        decreases parts@.len() - i,
    {
        proof {
            assert(strs_view(parts@.take(i + 1)).drop_last() =~= strs_view(parts@.take(i as int)))
                by {
                assert(parts@.take(i + 1).drop_last() =~= parts@.take(i as int));
            }
            assert(strs_view(parts@.take(i + 1)).last() == parts@[i as int]@) by {
                assert(parts@.take(i + 1).last() == parts@[i as int]);
            }
        }
        if i > 0 {
            out.append(",");
        }
        out.append(parts[i].as_str());
        i = i + 1;
    }
    proof {
        assert(parts@.take(i as int) =~= parts@);
    }
    Some(out)
}

/// Plans the pushdown: safe predicates become selector parts, the rest become
/// diagnostics; client-side evaluation still runs every predicate.
pub fn plan_pushdown(predicates: &Vec<Predicate>) -> (r: PushdownPlan)
    ensures
        match r.options.field_selector {
            Some(s) => spec_join_comma(spec_field_parts(predicates@)) == Some(s@),
            None => spec_join_comma(spec_field_parts(predicates@)) is None,
        },
        match r.options.label_selector {
            Some(s) => spec_join_comma(spec_label_parts(predicates@)) == Some(s@),
            None => spec_join_comma(spec_label_parts(predicates@)) is None,
        },
        r.diagnostics@.len() == spec_planner_diags(predicates@).len(),
        forall|i: int|
            #![trigger r.diagnostics@[i]]
            0 <= i < r.diagnostics@.len() ==> r.diagnostics@[i].path@ == spec_planner_diags(
                predicates@,
            )[i].0 && r.diagnostics@[i].op == spec_planner_diags(predicates@)[i].1
                && r.diagnostics@[i].reason == spec_planner_diags(predicates@)[i].2,
{
    let mut field_parts: Vec<String> = Vec::new();
    let mut label_parts: Vec<String> = Vec::new();
    let mut diagnostics: Vec<PlannerDiagnostic> = Vec::new();
    let mut i: usize = 0;
    while i < predicates.len()
        invariant
            i <= predicates@.len(),
            strs_view(field_parts@) == spec_field_parts(predicates@.take(i as int)),
            strs_view(label_parts@) == spec_label_parts(predicates@.take(i as int)),
            diagnostics@.len() == spec_planner_diags(predicates@.take(i as int)).len(),
            forall|j: int|
                #![trigger diagnostics@[j]]
                0 <= j < diagnostics@.len() ==> diagnostics@[j].path@ == spec_planner_diags(
                    predicates@.take(i as int),
                )[j].0 && diagnostics@[j].op == spec_planner_diags(predicates@.take(i as int))[j].1
                    && diagnostics@[j].reason == spec_planner_diags(predicates@.take(i as int))[
                    j
                ].2,
        decreases predicates@.len() - i,
    {
        let ghost takei = predicates@.take(i as int);
        let ghost takei1 = predicates@.take(i + 1);
        proof {
            assert(takei1.drop_last() =~= takei);
            assert(takei1.last() == predicates@[i as int]);
        }
        match predicate_to_selector(&predicates[i]) {
            Ok((is_field, part)) => {
                if is_field {
                    let ghost pre = field_parts@;
                    field_parts.push(part);
                    proof {
                        assert(field_parts@.drop_last() =~= pre);
                        assert(strs_view(field_parts@) =~= spec_field_parts(takei1));
                        assert(spec_label_parts(takei1) =~= spec_label_parts(takei));
                        assert(spec_planner_diags(takei1) =~= spec_planner_diags(takei));
                    }
                } else {
                    let ghost pre = label_parts@;
                    label_parts.push(part);
                    proof {
                        assert(label_parts@.drop_last() =~= pre);
                        assert(strs_view(label_parts@) =~= spec_label_parts(takei1));
                        assert(spec_field_parts(takei1) =~= spec_field_parts(takei));
                        assert(spec_planner_diags(takei1) =~= spec_planner_diags(takei));
                    }
                }
            },
            Err(reason) => {
                let d = PlannerDiagnostic {
                    path: crate::jsonv::clone_string(&predicates[i].path),
                    op: predicates[i].op,
                    reason,
                };
                let ghost pre = diagnostics@;
                diagnostics.push(d);
                proof {
                    assert(spec_planner_diags(takei1) =~= spec_planner_diags(takei).push(
                        (predicates@[i as int].path@, predicates@[i as int].op, reason),
                    ));
                    assert(spec_field_parts(takei1) =~= spec_field_parts(takei));
                    assert(spec_label_parts(takei1) =~= spec_label_parts(takei));
                }
            },
        }
        i = i + 1;
    }
    proof {
        assert(predicates@.take(i as int) =~= predicates@);
    }
    let field_selector = join_selector_parts(field_parts);
    let label_selector = join_selector_parts(label_parts);
    PushdownPlan {
        options: ListQueryOptions { field_selector, label_selector },
        diagnostics,
    }
}

/// Every part of a field selector is a whitelisted path, the operator, and a
/// safe value.
pub open spec fn spec_field_part_safe(part: Seq<char>) -> bool {
    exists|p: Seq<char>, op: Operator, v: Seq<char>|
        part == #[trigger] (p + spec_op_chars(op) + v) && spec_field_path(p)
            && spec_selector_value_safe(v)
}

/// Every part of a label selector is a safe key, the operator, and a safe
/// value.
pub open spec fn spec_label_part_safe(part: Seq<char>) -> bool {
    exists|k: Seq<char>, op: Operator, v: Seq<char>|
        part == #[trigger] (k + spec_op_chars(op) + v) && spec_label_key_safe(k)
            && spec_selector_value_safe(v)
}

/// Planner safety: every produced selector part individually satisfies the
/// safety rules — a non-empty value with no comma, equals sign, exclamation
/// mark or white space; label keys non-empty with no comma or white space;
/// and no path outside the whitelist appears in a field selector.
pub proof fn lemma_planner_safety(preds: Seq<Predicate>)
    ensures
        forall|i: int|
            0 <= i < spec_field_parts(preds).len() ==> spec_field_part_safe(
                #[trigger] spec_field_parts(preds)[i],
            ),
        forall|i: int|
            0 <= i < spec_label_parts(preds).len() ==> spec_label_part_safe(
                #[trigger] spec_label_parts(preds)[i],
            ),
    decreases preds.len(),
{
    if preds.len() > 0 {
        lemma_planner_safety(preds.drop_last());
        let p = preds.last();
        let fp = spec_field_parts(preds);
        let fpd = spec_field_parts(preds.drop_last());
        let lp = spec_label_parts(preds);
        let lpd = spec_label_parts(preds.drop_last());
        match spec_pred_selector(p.path@, p.op, p.value@) {
            Ok(SelTarget::Field(part)) => {
                assert(spec_field_part_safe(part)) by {
                    let text = p.value@->Str_0;
                    assert(part == (p.path@ + spec_op_chars(p.op) + text));
                }
                assert(fp =~= fpd.push(part));
                assert(lp =~= lpd);
                assert forall|i: int| 0 <= i < fp.len() implies spec_field_part_safe(
                    #[trigger] fp[i],
                ) by {
                    if i < fpd.len() {
                        assert(fp[i] == fpd[i]);
                    } else {
                        assert(fp[i] == part);
                    }
                }
            },
            Ok(SelTarget::Label(part)) => {
                assert(spec_label_part_safe(part)) by {
                    let text = p.value@->Str_0;
                    assert(part == (spec_label_key(p.path@) + spec_op_chars(p.op) + text));
                }
                assert(lp =~= lpd.push(part));
                assert(fp =~= fpd);
                assert forall|i: int| 0 <= i < lp.len() implies spec_label_part_safe(
                    #[trigger] lp[i],
                ) by {
                    if i < lpd.len() {
                        assert(lp[i] == lpd[i]);
                    } else {
                        assert(lp[i] == part);
                    }
                }
            },
            Err(_) => {
                assert(fp =~= fpd);
                assert(lp =~= lpd);
            },
        }
    }
}

} // verus!
