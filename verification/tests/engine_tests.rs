use kubiq::agg::aggregate;
use kubiq::engine::{
    evaluate, EngineAggregationExpr, EngineAggregationFunction, EngineOperator, EnginePredicate,
    EngineSelection, EngineSortDirection, EngineSortKey, QueryPlan,
};
use kubiq::jsonv::JsonValue;
use kubiq::object::{DynamicObject, FieldMap};
use kubiq::sort::sort_objects;

fn object(entries: Vec<(&str, JsonValue)>) -> DynamicObject {
    let mut fields = FieldMap::new();
    for (path, value) in entries {
        fields.insert(path.to_string(), value);
    }
    DynamicObject { fields }
}

fn names(objects: &[DynamicObject]) -> Vec<String> {
    objects
        .iter()
        .map(|object| match object.fields.get("metadata.name") {
            Some(JsonValue::Str(s)) => s.clone(),
            _ => "-".to_string(),
        })
        .collect()
}

#[test]
fn keeps_only_matching_objects() {
    let plan = QueryPlan {
        predicates: vec![EnginePredicate {
            path: "metadata.namespace".to_string(),
            op: EngineOperator::Eq,
            value: JsonValue::Str("default".to_string()),
        }],
        selection: None,
        sort_keys: None,
    };

    let objects = vec![
        object(vec![("metadata.namespace", JsonValue::Str("default".to_string()))]),
        object(vec![("metadata.namespace", JsonValue::Str("kube-system".to_string()))]),
    ];

    let result = evaluate(&plan, objects);
    assert_eq!(result.len(), 1);
}

#[test]
fn missing_field_does_not_match_eq_or_ne() {
    let make = |op: EngineOperator| QueryPlan {
        predicates: vec![EnginePredicate {
            path: "spec.nodeName".to_string(),
            op,
            value: JsonValue::Str("worker-1".to_string()),
        }],
        selection: None,
        sort_keys: None,
    };
    let obj = || object(vec![("metadata.namespace", JsonValue::Str("default".to_string()))]);

    assert!(evaluate(&make(EngineOperator::Eq), vec![obj()]).is_empty());
    assert!(evaluate(&make(EngineOperator::Ne), vec![obj()]).is_empty());
}

#[test]
fn type_mismatch_does_not_match_eq_or_ne() {
    let make = |op: EngineOperator| QueryPlan {
        predicates: vec![EnginePredicate {
            path: "spec.replicas".to_string(),
            op,
            value: JsonValue::Str("2".to_string()),
        }],
        selection: None,
        sort_keys: None,
    };
    let obj = || object(vec![("spec.replicas", JsonValue::Int(2))]);

    assert!(evaluate(&make(EngineOperator::Eq), vec![obj()]).is_empty());
    assert!(evaluate(&make(EngineOperator::Ne), vec![obj()]).is_empty());
}

fn sort_plan(path: &str, direction: EngineSortDirection) -> QueryPlan {
    QueryPlan {
        predicates: Vec::new(),
        selection: None,
        sort_keys: Some(vec![EngineSortKey { path: path.to_string(), direction }]),
    }
}

#[test]
fn sorts_by_single_key_asc() {
    let objects = vec![
        object(vec![("metadata.name", JsonValue::Str("pod-c".to_string()))]),
        object(vec![("metadata.name", JsonValue::Str("pod-a".to_string()))]),
        object(vec![("metadata.name", JsonValue::Str("pod-b".to_string()))]),
    ];

    let sorted = sort_objects(&sort_plan("metadata.name", EngineSortDirection::Asc), objects);
    assert_eq!(names(&sorted), vec!["pod-a", "pod-b", "pod-c"]);
}

#[test]
fn sorts_by_single_key_desc() {
    let objects = vec![
        object(vec![("spec.priority", JsonValue::Int(1))]),
        object(vec![("spec.priority", JsonValue::Int(3))]),
        object(vec![("spec.priority", JsonValue::Int(2))]),
    ];

    let sorted = sort_objects(&sort_plan("spec.priority", EngineSortDirection::Desc), objects);
    let priorities: Vec<JsonValue> = sorted
        .iter()
        .map(|o| match o.fields.get("spec.priority") {
            Some(v) => v.duplicate(),
            None => JsonValue::Null,
        })
        .collect();
    assert_eq!(
        priorities,
        vec![JsonValue::Int(3), JsonValue::Int(2), JsonValue::Int(1)]
    );
}

#[test]
fn sorts_nullish_sql_style() {
    let objects = || vec![
        object(vec![
            ("spec.rank", JsonValue::Int(2)),
            ("metadata.name", JsonValue::Str("c".to_string())),
        ]),
        object(vec![("metadata.name", JsonValue::Str("a".to_string()))]),
        object(vec![
            ("spec.rank", JsonValue::Null),
            ("metadata.name", JsonValue::Str("b".to_string())),
        ]),
        object(vec![
            ("spec.rank", JsonValue::Int(1)),
            ("metadata.name", JsonValue::Str("d".to_string())),
        ]),
    ];

    let asc = names(&sort_objects(&sort_plan("spec.rank", EngineSortDirection::Asc), objects()));
    let desc = names(&sort_objects(&sort_plan("spec.rank", EngineSortDirection::Desc), objects()));

    assert_eq!(asc, vec!["a", "b", "d", "c"]);
    assert_eq!(desc, vec!["c", "d", "a", "b"]);
}

#[test]
fn sorts_mixed_types_with_fixed_precedence() {
    let objects = vec![
        object(vec![
            ("spec.value", JsonValue::Str("z".to_string())),
            ("metadata.name", JsonValue::Str("s".to_string())),
        ]),
        object(vec![
            ("spec.value", JsonValue::Int(10)),
            ("metadata.name", JsonValue::Str("n".to_string())),
        ]),
        object(vec![
            ("spec.value", JsonValue::Bool(true)),
            ("metadata.name", JsonValue::Str("b".to_string())),
        ]),
        object(vec![
            ("spec.value", JsonValue::Obj(vec![("k".to_string(), JsonValue::Str("v".to_string()))])),
            ("metadata.name", JsonValue::Str("o".to_string())),
        ]),
    ];

    let sorted = names(&sort_objects(&sort_plan("spec.value", EngineSortDirection::Asc), objects));
    assert_eq!(sorted, vec!["b", "n", "s", "o"]);
}

#[test]
fn sorts_by_multiple_keys_and_is_stable() {
    let objects = vec![
        object(vec![
            ("spec.rank", JsonValue::Int(1)),
            ("metadata.name", JsonValue::Str("beta".to_string())),
        ]),
        object(vec![
            ("spec.rank", JsonValue::Int(1)),
            ("metadata.name", JsonValue::Str("alpha".to_string())),
        ]),
        object(vec![
            ("spec.rank", JsonValue::Int(2)),
            ("metadata.name", JsonValue::Str("gamma".to_string())),
        ]),
        object(vec![("spec.rank", JsonValue::Int(1))]),
    ];

    let plan = QueryPlan {
        predicates: Vec::new(),
        selection: None,
        sort_keys: Some(vec![
            EngineSortKey { path: "spec.rank".to_string(), direction: EngineSortDirection::Asc },
            EngineSortKey { path: "metadata.name".to_string(), direction: EngineSortDirection::Asc },
        ]),
    };

    let sorted = sort_objects(&plan, objects);
    assert_eq!(names(&sorted), vec!["-", "alpha", "beta", "gamma"]);
}

fn agg(function: EngineAggregationFunction, path: Option<&str>) -> EngineAggregationExpr {
    EngineAggregationExpr { function, path: path.map(|p| p.to_string()) }
}

fn agg_plan(exprs: Vec<EngineAggregationExpr>) -> QueryPlan {
    QueryPlan {
        predicates: Vec::new(),
        selection: Some(EngineSelection::Aggregations(exprs)),
        sort_keys: None,
    }
}

#[test]
fn aggregates_count_sum_min_max_avg() {
    let objects = vec![
        object(vec![("spec.replicas", JsonValue::Int(1))]),
        object(vec![("spec.replicas", JsonValue::Int(3))]),
        object(vec![("spec.replicas", JsonValue::Int(2))]),
    ];
    let plan = agg_plan(vec![
        agg(EngineAggregationFunction::Count, None),
        agg(EngineAggregationFunction::Sum, Some("spec.replicas")),
        agg(EngineAggregationFunction::Min, Some("spec.replicas")),
        agg(EngineAggregationFunction::Max, Some("spec.replicas")),
        agg(EngineAggregationFunction::Avg, Some("spec.replicas")),
    ]);

    let rows = aggregate(&plan, objects).expect("must aggregate");
    assert_eq!(rows.len(), 1);
    let row = &rows[0].fields;
    assert_eq!(row.get("count(*)"), Some(&JsonValue::Int(3)));
    assert_eq!(row.get("sum(spec.replicas)"), Some(&JsonValue::Int(6)));
    assert_eq!(row.get("min(spec.replicas)"), Some(&JsonValue::Int(1)));
    assert_eq!(row.get("max(spec.replicas)"), Some(&JsonValue::Int(3)));
    assert_eq!(row.get("avg(spec.replicas)"), Some(&JsonValue::Float("2.0".to_string())));
}

#[test]
fn aggregates_empty_set_sql_like() {
    let plan = agg_plan(vec![
        agg(EngineAggregationFunction::Count, None),
        agg(EngineAggregationFunction::Count, Some("spec.replicas")),
        agg(EngineAggregationFunction::Sum, Some("spec.replicas")),
        agg(EngineAggregationFunction::Avg, Some("spec.replicas")),
        agg(EngineAggregationFunction::Min, Some("spec.replicas")),
        agg(EngineAggregationFunction::Max, Some("spec.replicas")),
    ]);

    let rows = aggregate(&plan, Vec::new()).expect("must aggregate");
    let row = &rows[0].fields;
    assert_eq!(row.get("count(*)"), Some(&JsonValue::Int(0)));
    assert_eq!(row.get("count(spec.replicas)"), Some(&JsonValue::Int(0)));
    assert_eq!(row.get("sum(spec.replicas)"), Some(&JsonValue::Int(0)));
    assert_eq!(row.get("avg(spec.replicas)"), Some(&JsonValue::Null));
    assert_eq!(row.get("min(spec.replicas)"), Some(&JsonValue::Null));
    assert_eq!(row.get("max(spec.replicas)"), Some(&JsonValue::Null));
}

#[test]
fn aggregate_sum_errors_on_non_numeric_values() {
    let objects = vec![object(vec![("spec.replicas", JsonValue::Str("bad".to_string()))])];
    let plan = agg_plan(vec![agg(EngineAggregationFunction::Sum, Some("spec.replicas"))]);

    let err = aggregate(&plan, objects).expect_err("must fail");
    assert!(err.render().contains("expects number"));
}

#[test]
fn aggregate_min_errors_on_mixed_types() {
    let objects = vec![
        object(vec![("spec.value", JsonValue::Int(10))]),
        object(vec![("spec.value", JsonValue::Str("x".to_string()))]),
    ];
    let plan = agg_plan(vec![agg(EngineAggregationFunction::Min, Some("spec.value"))]);

    let err = aggregate(&plan, objects).expect_err("must fail");
    assert!(err.render().contains("cannot compare mixed types"));
}

#[test]
fn aggregate_count_path_ignores_missing_and_null() {
    let objects = vec![
        object(vec![("spec.replicas", JsonValue::Int(3))]),
        object(vec![("spec.replicas", JsonValue::Null)]),
        object(vec![]),
    ];
    let plan = agg_plan(vec![agg(EngineAggregationFunction::Count, Some("spec.replicas"))]);

    let rows = aggregate(&plan, objects).expect("must aggregate");
    let row = &rows[0].fields;
    assert_eq!(row.get("count(spec.replicas)"), Some(&JsonValue::Int(1)));
}

#[test]
fn aggregate_sum_keeps_large_integer_precision() {
    let objects = vec![
        object(vec![("spec.value", JsonValue::Int(9_007_199_254_740_993i64))]),
        object(vec![("spec.value", JsonValue::Int(2))]),
    ];
    let plan = agg_plan(vec![agg(EngineAggregationFunction::Sum, Some("spec.value"))]);

    let rows = aggregate(&plan, objects).expect("must aggregate");
    let row = &rows[0].fields;
    assert_eq!(row.get("sum(spec.value)"), Some(&JsonValue::Int(9_007_199_254_740_995i64)));
}

#[test]
fn aggregate_min_max_compare_large_integers_exactly() {
    let objects = vec![
        object(vec![("spec.value", JsonValue::Int(9_007_199_254_740_993i64))]),
        object(vec![("spec.value", JsonValue::Int(9_007_199_254_740_992i64))]),
    ];
    let plan = agg_plan(vec![
        agg(EngineAggregationFunction::Min, Some("spec.value")),
        agg(EngineAggregationFunction::Max, Some("spec.value")),
    ]);

    let rows = aggregate(&plan, objects).expect("must aggregate");
    let row = &rows[0].fields;
    assert_eq!(row.get("min(spec.value)"), Some(&JsonValue::Int(9_007_199_254_740_992i64)));
    assert_eq!(row.get("max(spec.value)"), Some(&JsonValue::Int(9_007_199_254_740_993i64)));
}

#[test]
fn aggregate_avg_supports_float_values() {
    let objects = vec![
        object(vec![("spec.value", JsonValue::Float("1.5".to_string()))]),
        object(vec![("spec.value", JsonValue::Float("2.5".to_string()))]),
    ];
    let plan = agg_plan(vec![agg(EngineAggregationFunction::Avg, Some("spec.value"))]);

    let rows = aggregate(&plan, objects).expect("must aggregate");
    let row = &rows[0].fields;
    assert_eq!(row.get("avg(spec.value)"), Some(&JsonValue::Float("2.0".to_string())));
}

#[test]
fn filter_then_project_flat_row() {
    let obj = object(vec![
        ("metadata.name", JsonValue::Str("pod-a".to_string())),
        ("metadata.namespace", JsonValue::Str("demo-a".to_string())),
    ]);
    let plan = QueryPlan {
        predicates: vec![EnginePredicate {
            path: "metadata.namespace".to_string(),
            op: EngineOperator::Eq,
            value: JsonValue::Str("demo-a".to_string()),
        }],
        selection: Some(EngineSelection::Paths(vec![
            "metadata.name".to_string(),
            "metadata.namespace".to_string(),
        ])),
        sort_keys: None,
    };
    let kept = evaluate(&plan, vec![obj]);
    assert_eq!(kept.len(), 1);
    let paths = vec!["metadata.name".to_string(), "metadata.namespace".to_string()];
    let row = kubiq::output::project_fields(&kept[0], kubiq::output::DetailLevel::Summary, Some(&paths));
    assert_eq!(row.get("metadata.name"), Some(&JsonValue::Str("pod-a".to_string())));
    assert_eq!(row.get("metadata.namespace"), Some(&JsonValue::Str("demo-a".to_string())));
}

#[test]
fn subtree_projection_rebuilds_nested_object() {
    let obj = object(vec![
        ("metadata.name", JsonValue::Str("pod-a".to_string())),
        ("metadata.namespace", JsonValue::Str("demo-a".to_string())),
    ]);
    let paths = vec!["metadata".to_string()];
    let row = kubiq::output::project_fields(&obj, kubiq::output::DetailLevel::Summary, Some(&paths));
    let expected = JsonValue::Obj(vec![
        ("name".to_string(), JsonValue::Str("pod-a".to_string())),
        ("namespace".to_string(), JsonValue::Str("demo-a".to_string())),
    ]);
    assert_eq!(row.get("metadata"), Some(&expected));
}

#[test]
fn ne_matches_only_comparable_unequal_values() {
    let make = |op: EngineOperator| QueryPlan {
        predicates: vec![EnginePredicate {
            path: "metadata.namespace".to_string(),
            op,
            value: JsonValue::Str("demo-a".to_string()),
        }],
        selection: None,
        sort_keys: None,
    };
    let other = || object(vec![("metadata.namespace", JsonValue::Str("demo-b".to_string()))]);
    assert_eq!(evaluate(&make(EngineOperator::Ne), vec![other()]).len(), 1);
    assert!(evaluate(&make(EngineOperator::Eq), vec![other()]).is_empty());
}

#[test]
fn integer_never_equals_float_of_same_magnitude() {
    let plan = QueryPlan {
        predicates: vec![EnginePredicate {
            path: "spec.replicas".to_string(),
            op: EngineOperator::Ne,
            value: JsonValue::Float("2.0".to_string()),
        }],
        selection: None,
        sort_keys: None,
    };
    let obj = object(vec![("spec.replicas", JsonValue::Int(2))]);
    // both sides are numbers, so they are comparable but unequal: Ne matches
    assert_eq!(evaluate(&plan, vec![obj]).len(), 1);
}

#[test]
fn sum_switches_to_double_arithmetic_when_a_float_appears() {
    let objects = vec![
        object(vec![("spec.value", JsonValue::Int(1))]),
        object(vec![("spec.value", JsonValue::Float("0.5".to_string()))]),
    ];
    let plan = agg_plan(vec![agg(EngineAggregationFunction::Sum, Some("spec.value"))]);
    let rows = aggregate(&plan, objects).expect("must aggregate");
    assert_eq!(rows[0].fields.get("sum(spec.value)"), Some(&JsonValue::Float("1.5".to_string())));
}
