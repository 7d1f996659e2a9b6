//! The query plan and the client-side predicate evaluator.

use vstd::prelude::*;

use crate::jsonv::{comparable_eq, spec_comparable_eq, val_wf, JsonVal, JsonValue};
use crate::object::{obj_wf, spec_obj_get, DynamicObject};

verus! {

/// One predicate as the engine runs it.
#[derive(Debug, PartialEq)]
pub struct EnginePredicate {
    pub path: String,
    pub op: EngineOperator,
    pub value: JsonValue,
}

#[derive(Clone, Copy, Debug, PartialEq, Eq, Structural)]
pub enum EngineOperator {
    Eq,
    Ne,
}

#[derive(Debug, PartialEq)]
pub struct EngineSortKey {
    pub path: String,
    pub direction: EngineSortDirection,
}

#[derive(Clone, Copy, Debug, PartialEq, Eq, Structural)]
pub enum EngineSortDirection {
    Asc,
    Desc,
}

#[derive(Debug, PartialEq)]
pub enum EngineSelection {
    Paths(Vec<String>),
    Aggregations(Vec<EngineAggregationExpr>),
}

#[derive(Debug, PartialEq)]
pub struct EngineAggregationExpr {
    pub function: EngineAggregationFunction,
    pub path: Option<String>,
}

#[derive(Clone, Copy, Debug, PartialEq, Eq, Structural)]
pub enum EngineAggregationFunction {
    Count,
    Sum,
    Min,
    Max,
    Avg,
}

/// The plan the engine consumes: predicates, an optional selection, optional
/// sort keys.
#[derive(Debug, PartialEq)]
pub struct QueryPlan {
    pub predicates: Vec<EnginePredicate>,
    pub selection: Option<EngineSelection>,
    pub sort_keys: Option<Vec<EngineSortKey>>,
}

/// Every predicate value of the plan is a well-formed scalar.
pub open spec fn preds_wf(preds: Seq<EnginePredicate>) -> bool {
    forall|i: int|
        #![trigger preds[i]]
        0 <= i < preds.len() ==> val_wf(preds[i].value@) && crate::jsonv::canonical_rep(
            &preds[i].value,
        )
}

/// Whether one predicate holds of a flattened object: the value at the path,
/// found with the decoded fallback, must be strictly comparable to the
/// predicate's value, and the comparison must agree with the operator. A
/// missing field, a null, or a type mismatch satisfies neither `Eq` nor `Ne`.
pub open spec fn spec_pred_matches(
    m: Seq<(Seq<char>, JsonVal)>,
    path: Seq<char>,
    op: EngineOperator,
    value: JsonVal,
) -> bool {
    match spec_obj_get(m, path) {
        Some(actual) => match spec_comparable_eq(actual, value) {
            Some(eq) => match op {
                EngineOperator::Eq => eq,
                EngineOperator::Ne => !eq,
            },
            None => false,
        },
        None => false,
    }
}

/// Whether every predicate holds of the object.
pub open spec fn spec_matches_all(
    m: Seq<(Seq<char>, JsonVal)>,
    preds: Seq<EnginePredicate>,
) -> bool {
    forall|i: int|
        #![trigger preds[i]]
        0 <= i < preds.len() ==> spec_pred_matches(m, preds[i].path@, preds[i].op, preds[i].value@)
}

/// The objects that pass every predicate, in input order.
pub open spec fn spec_evaluate(
    preds: Seq<EnginePredicate>,
    s: Seq<DynamicObject>,
) -> Seq<DynamicObject>
    decreases s.len(),
{
    if s.len() == 0 {
        Seq::empty()
    } else {
        spec_evaluate(preds, s.drop_last()) + (if spec_matches_all(s.last()@, preds) {
            seq![s.last()]
        } else {
            Seq::empty()
        })
    }
}

/// Whether one object satisfies every predicate of the plan.
pub fn matches_all(object: &DynamicObject, predicates: &Vec<EnginePredicate>) -> (r: bool)
    requires
        obj_wf(object),
        preds_wf(predicates@),
    ensures
        r == spec_matches_all(object@, predicates@),
{
    let mut i: usize = 0;
    while i < predicates.len()
        invariant
            i <= predicates@.len(),
            obj_wf(object),
            preds_wf(predicates@),
            forall|j: int|
                #![trigger predicates@[j]]
                0 <= j < i ==> spec_pred_matches(
                    object@,
                    predicates@[j].path@,
                    predicates@[j].op,
                    predicates@[j].value@,
                ),
        decreases predicates@.len() - i,
    {
        let p = &predicates[i];
        let holds = match object.get(p.path.as_str()) {
            Some(actual) => {
                match comparable_eq(actual, &p.value) {
                    Some(eq) => match p.op {
                        EngineOperator::Eq => eq,
                        EngineOperator::Ne => !eq,
                    },
                    None => false,
                }
            },
            None => false,
        };
        if !holds {
            return false;
        }
        i = i + 1;
    }
    true
}

/// Keeps exactly the objects that satisfy every predicate, in input order.
pub fn evaluate(plan: &QueryPlan, objects: Vec<DynamicObject>) -> (r: Vec<DynamicObject>)
    requires
        preds_wf(plan.predicates@),
        forall|i: int| 0 <= i < objects@.len() ==> obj_wf(#[trigger] &objects@[i]),
    ensures
        r@ == spec_evaluate(plan.predicates@, objects@),
        forall|i: int| 0 <= i < r@.len() ==> obj_wf(#[trigger] &r@[i]),
{
    let ghost orig = objects@;
    let mut objects = objects;
    let n = objects.len();
    proof {
        assert(orig.len() == n);
    }
    let mut out: Vec<DynamicObject> = Vec::new();
    let mut i: usize = 0;
    while objects.len() > 0
        invariant
            orig.len() == n,
            i + objects@.len() == orig.len(),
            objects@ == orig.skip(i as int),
            out@ == spec_evaluate(plan.predicates@, orig.take(i as int)),
            preds_wf(plan.predicates@),
            forall|j: int| 0 <= j < orig.len() ==> obj_wf(#[trigger] &orig[j]),
            forall|j: int| 0 <= j < out@.len() ==> obj_wf(#[trigger] &out@[j]),
        decreases objects@.len(),
    {
        let x = objects.remove(0);
        proof {
            assert(x == orig[i as int]);
            assert(objects@ =~= orig.skip(i + 1));
            assert(orig.take(i + 1).drop_last() =~= orig.take(i as int));
            assert(orig.take(i + 1).last() == orig[i as int]);
        }
        if matches_all(&x, &plan.predicates) {
            out.push(x);
            proof {
                assert(out@ =~= spec_evaluate(plan.predicates@, orig.take(i + 1)));
            }
        } else {
            proof {
                assert(out@ =~= spec_evaluate(plan.predicates@, orig.take(i + 1)));
            }
        }
        i = i + 1;
    }
    proof {
        assert(orig.take(i as int) =~= orig);
    }
    out
}

/// Filtering ignores predicate order: two plans whose predicate lists are
/// permutations keep the same objects. Stated for swapping two halves.
pub proof fn lemma_filter_commutative(
    m: Seq<(Seq<char>, JsonVal)>,
    p1: Seq<EnginePredicate>,
    p2: Seq<EnginePredicate>,
)
    ensures
        spec_matches_all(m, p1 + p2) == spec_matches_all(m, p2 + p1),
{
    if spec_matches_all(m, p1 + p2) {
        assert forall|i: int|
            #![trigger (p2 + p1)[i]]
            0 <= i < (p2 + p1).len() implies spec_pred_matches(
            m,
            (p2 + p1)[i].path@,
            (p2 + p1)[i].op,
            (p2 + p1)[i].value@,
        ) by {
            if i < p2.len() {
                assert((p2 + p1)[i] == (p1 + p2)[p1.len() + i]);
            } else {
                assert((p2 + p1)[i] == (p1 + p2)[i - p2.len()]);
            }
        }
    }
    if spec_matches_all(m, p2 + p1) {
        assert forall|i: int|
            #![trigger (p1 + p2)[i]]
            0 <= i < (p1 + p2).len() implies spec_pred_matches(
            m,
            (p1 + p2)[i].path@,
            (p1 + p2)[i].op,
            (p1 + p2)[i].value@,
        ) by {
            if i < p1.len() {
                assert((p1 + p2)[i] == (p2 + p1)[p2.len() + i]);
            } else {
                assert((p1 + p2)[i] == (p2 + p1)[i - p1.len()]);
            }
        }
    }
}

/// Filtering ignores predicate order entirely: plans whose predicate lists
/// hold the same predicates, in any order and multiplicity, keep the same
/// objects.
pub proof fn lemma_filter_commutative_perm(
    m: Seq<(Seq<char>, JsonVal)>,
    p1: Seq<EnginePredicate>,
    p2: Seq<EnginePredicate>,
)
    requires
        p1.to_multiset() == p2.to_multiset(),
    ensures
        spec_matches_all(m, p1) == spec_matches_all(m, p2),
{
    p1.to_multiset_ensures();
    p2.to_multiset_ensures();
    if spec_matches_all(m, p1) {
        assert forall|i: int|
            #![trigger p2[i]]
            0 <= i < p2.len() implies spec_pred_matches(
            m,
            p2[i].path@,
            p2[i].op,
            p2[i].value@,
        ) by {
            assert(p2.contains(p2[i]));
            assert(p2.to_multiset().count(p2[i]) > 0);
            assert(p1.to_multiset().count(p2[i]) > 0);
            assert(p1.contains(p2[i]));
            let j = choose|j: int| 0 <= j < p1.len() && p1[j] == p2[i];
            assert(spec_pred_matches(m, p1[j].path@, p1[j].op, p1[j].value@));
        }
    }
    if spec_matches_all(m, p2) {
        assert forall|i: int|
            #![trigger p1[i]]
            0 <= i < p1.len() implies spec_pred_matches(
            m,
            p1[i].path@,
            p1[i].op,
            p1[i].value@,
        ) by {
            assert(p1.contains(p1[i]));
            assert(p1.to_multiset().count(p1[i]) > 0);
            assert(p2.to_multiset().count(p1[i]) > 0);
            assert(p2.contains(p1[i]));
            let j = choose|j: int| 0 <= j < p2.len() && p2[j] == p1[i];
            assert(spec_pred_matches(m, p2[j].path@, p2[j].op, p2[j].value@));
        }
    }
}

/// Filtering is idempotent: running the same predicates again keeps every
/// object that the first pass kept.
pub proof fn lemma_filter_idempotent(preds: Seq<EnginePredicate>, s: Seq<DynamicObject>)
    ensures
        spec_evaluate(preds, spec_evaluate(preds, s)) == spec_evaluate(preds, s),
    decreases s.len(),
{
    if s.len() == 0 {
        assert(spec_evaluate(preds, spec_evaluate(preds, s)) =~= spec_evaluate(preds, s));
    } else {
        lemma_filter_idempotent(preds, s.drop_last());
        let f = spec_evaluate(preds, s);
        let fd = spec_evaluate(preds, s.drop_last());
        if spec_matches_all(s.last()@, preds) {
            assert(f =~= fd + seq![s.last()]);
            assert(f.drop_last() =~= fd);
            assert(f.last() == s.last());
            assert(spec_evaluate(preds, f) =~= spec_evaluate(preds, fd) + seq![s.last()]);
            assert(spec_evaluate(preds, f) =~= f);
        } else {
            assert(f =~= fd);
        }
    }
}

/// A missing field never satisfies a predicate, under either operator.
pub proof fn lemma_missing_field_never_matches(
    m: Seq<(Seq<char>, JsonVal)>,
    path: Seq<char>,
    op: EngineOperator,
    value: JsonVal,
)
    requires
        spec_obj_get(m, path) is None,
    ensures
        !spec_pred_matches(m, path, op, value),
{
}

} // verus!
