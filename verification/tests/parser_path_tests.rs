use kubiq::jsonv::JsonValue;
use kubiq::object::{DynamicObject, FieldMap};
use kubiq::parser::{
    parse_query, parse_query_args, Operator, SelectClause, SortDirection,
};
use kubiq::path::{
    decode_path, decode_segment, encode_path, encode_segment, flatten_json_to_fields,
    reconstruct_nested_from_fields, select_path_value,
};

#[test]
fn parses_and_chain() {
    let ast = parse_query("where metadata.namespace == default AND spec.nodeName != worker-1")
        .expect("must parse valid query");

    assert_eq!(ast.predicates.len(), 2);
    assert_eq!(ast.predicates[0].op, Operator::Eq);
    assert_eq!(ast.predicates[1].op, Operator::Ne);
    assert_eq!(ast.select, None);
    assert_eq!(ast.order_by, None);
}

#[test]
fn parses_lowercase_and() {
    let ast = parse_query("where metadata.namespace == default and spec.nodeName != worker-1")
        .expect("must parse valid query");
    assert_eq!(ast.predicates.len(), 2);
    assert_eq!(ast.select, None);
}

#[test]
fn does_not_split_and_inside_quoted_value() {
    let ast = parse_query("where metadata.name == 'a AND b' and metadata.namespace == demo-a")
        .expect("must parse valid query");
    assert_eq!(ast.predicates.len(), 2);
    assert_eq!(ast.predicates[0].value, JsonValue::Str("a AND b".to_string()));
    assert_eq!(ast.select, None);
}

#[test]
fn parses_bool_and_number_literals() {
    let ast = parse_query("where spec.replicas == 2 AND spec.enabled == true")
        .expect("must parse valid query");

    assert_eq!(ast.predicates[0].value, JsonValue::Int(2));
    assert_eq!(ast.predicates[1].value, JsonValue::Bool(true));
    assert_eq!(ast.select, None);
}

#[test]
fn parses_float_literals_canonically() {
    let ast = parse_query("where spec.value == 2.50").expect("must parse valid query");
    assert_eq!(ast.predicates[0].value, JsonValue::Float("2.5".to_string()));
}

#[test]
fn parses_where_from_args() {
    let args = vec![
        "where".to_string(),
        "metadata.namespace".to_string(),
        "==".to_string(),
        "demo-a".to_string(),
    ];
    let ast = parse_query_args(&args).expect("must parse valid args");
    assert_eq!(ast.predicates.len(), 1);
    assert_eq!(ast.predicates[0].value, JsonValue::Str("demo-a".to_string()));
    assert_eq!(ast.select, None);
}

#[test]
fn parses_select_in_string_query() {
    let ast =
        parse_query("where metadata.namespace == demo-a select metadata.name, metadata.namespace")
            .expect("must parse valid query");
    assert_eq!(
        ast.select,
        Some(SelectClause::Paths(vec![
            "metadata.name".to_string(),
            "metadata.namespace".to_string()
        ]))
    );
}

#[test]
fn parses_select_in_args_query() {
    let args = vec![
        "where".to_string(),
        "metadata.namespace".to_string(),
        "==".to_string(),
        "demo-a".to_string(),
        "select".to_string(),
        "metadata.name,metadata.namespace".to_string(),
    ];
    let ast = parse_query_args(&args).expect("must parse valid args");
    assert_eq!(
        ast.select,
        Some(SelectClause::Paths(vec![
            "metadata.name".to_string(),
            "metadata.namespace".to_string()
        ]))
    );
}

#[test]
fn parses_select_single_path_in_args_query() {
    let args = vec![
        "where".to_string(),
        "metadata.namespace".to_string(),
        "==".to_string(),
        "demo-a".to_string(),
        "select".to_string(),
        "metadata.name".to_string(),
    ];
    let ast = parse_query_args(&args).expect("must parse valid args");
    assert_eq!(ast.select, Some(SelectClause::Paths(vec!["metadata.name".to_string()])));
}

#[test]
fn rejects_select_paths_separated_by_spaces() {
    let err = parse_query("where metadata.namespace == demo-a select metadata.name metadata.namespace")
        .expect_err("must reject whitespace-separated select paths");
    assert_eq!(err, "invalid query syntax");
}

#[test]
fn parses_order_by_single_key_with_default_direction() {
    let ast = parse_query("where metadata.namespace == demo-a order by metadata.name")
        .expect("must parse valid query");

    let keys = ast.order_by.expect("order keys must be parsed");
    assert_eq!(keys.len(), 1);
    assert_eq!(keys[0].path, "metadata.name");
    assert_eq!(keys[0].direction, SortDirection::Asc);
}

#[test]
fn parses_order_by_multiple_keys() {
    let ast =
        parse_query("where metadata.namespace == demo-a order by spec.priority desc, metadata.name asc")
            .expect("must parse valid query");

    let keys = ast.order_by.expect("order keys must be parsed");
    assert_eq!(keys.len(), 2);
    assert_eq!(keys[0].path, "spec.priority");
    assert_eq!(keys[0].direction, SortDirection::Desc);
    assert_eq!(keys[1].path, "metadata.name");
    assert_eq!(keys[1].direction, SortDirection::Asc);
}

#[test]
fn parses_order_by_before_select() {
    let ast =
        parse_query("where metadata.namespace == demo-a order by metadata.name desc select metadata.name")
            .expect("must parse valid query");

    assert_eq!(ast.select, Some(SelectClause::Paths(vec!["metadata.name".to_string()])));
    assert_eq!(ast.order_by.expect("must parse order")[0].direction, SortDirection::Desc);
}

#[test]
fn parses_select_before_order_by() {
    let ast =
        parse_query("where metadata.namespace == demo-a select metadata.name order by metadata.name desc")
            .expect("must parse valid query");

    assert_eq!(ast.select, Some(SelectClause::Paths(vec!["metadata.name".to_string()])));
    assert_eq!(ast.order_by.expect("must parse order")[0].direction, SortDirection::Desc);
}

#[test]
fn rejects_duplicate_select_clause() {
    let err = parse_query("where metadata.name == pod-a select metadata.name select spec.nodeName")
        .expect_err("must reject duplicate select");
    assert_eq!(err, "invalid query syntax");
}

#[test]
fn rejects_duplicate_order_by_clause() {
    let err = parse_query("where metadata.name == pod-a order by metadata.name order by spec.nodeName")
        .expect_err("must reject duplicate order by");
    assert_eq!(err, "invalid query syntax");
}

#[test]
fn rejects_order_by_without_path() {
    let err = parse_query("where metadata.name == pod-a order by")
        .expect_err("must reject empty order by");
    assert_eq!(err, "invalid query syntax");
}

#[test]
fn rejects_unknown_sort_direction() {
    let err = parse_query("where metadata.name == pod-a order by metadata.name upward")
        .expect_err("must reject unknown direction");
    assert_eq!(err, "invalid query syntax");
}

#[test]
fn rejects_non_where_prefix_keyword() {
    let err = parse_query("wherever metadata.name == pod-a").expect_err("must reject non-WHERE prefix");
    assert_eq!(err, "query must start with WHERE");
}

#[test]
fn rejects_blank_query_as_empty_where() {
    let err = parse_query("   ").expect_err("must reject a blank query");
    assert_eq!(err, "WHERE clause is empty");
}

#[test]
fn parse_query_args_preserves_values_with_spaces() {
    let args = vec![
        "where".to_string(),
        "metadata.name".to_string(),
        "==".to_string(),
        "api pod".to_string(),
    ];
    let ast = parse_query_args(&args).expect("must parse spaced value from args");
    assert_eq!(ast.predicates[0].value, JsonValue::Str("api pod".to_string()));
}

#[test]
fn parses_aggregation_selection() {
    let ast = parse_query("where metadata.namespace == demo-a select count(*), sum(spec.replicas)")
        .expect("must parse query");
    match ast.select {
        Some(SelectClause::Aggregations(exprs)) => {
            assert_eq!(exprs.len(), 2);
            assert_eq!(exprs[0].function, kubiq::parser::AggregationFunction::Count);
            assert_eq!(exprs[0].path, None);
            assert_eq!(exprs[1].function, kubiq::parser::AggregationFunction::Sum);
            assert_eq!(exprs[1].path.as_deref(), Some("spec.replicas"));
        },
        other => panic!("expected aggregation selection, got {:?}", other),
    }
}

#[test]
fn encodes_and_decodes_segments() {
    assert_eq!(encode_segment("annotations"), "annotations");
    assert_eq!(
        encode_segment("kubectl.kubernetes.io/restartedAt"),
        "kubectl%2Ekubernetes%2Eio/restartedAt"
    );
    assert_eq!(encode_segment("a%b"), "a%25b");
    assert_eq!(
        decode_segment("kubectl%2Ekubernetes%2Eio/restartedAt"),
        "kubectl.kubernetes.io/restartedAt"
    );
    assert_eq!(decode_segment("a%25b"), "a%b");
}

#[test]
fn encodes_path_segment_wise() {
    assert_eq!(
        encode_path("metadata.annotations.kubectl.kubernetes.io/restartedAt"),
        "metadata.annotations.kubectl.kubernetes.io/restartedAt"
    );
    assert_eq!(
        decode_path("metadata.annotations.kubectl%2Ekubernetes%2Eio/restartedAt"),
        "metadata.annotations.kubectl.kubernetes.io/restartedAt"
    );
}

#[test]
fn flatten_and_reconstruct_roundtrip_with_dotted_keys() {
    let root = JsonValue::Obj(vec![(
        "metadata".to_string(),
        JsonValue::Obj(vec![
            (
                "annotations".to_string(),
                JsonValue::Obj(vec![
                    (
                        "kubectl.kubernetes.io/restartedAt".to_string(),
                        JsonValue::Str("2026-02-22T10:00:00Z".to_string()),
                    ),
                    ("x%y".to_string(), JsonValue::Str("pct".to_string())),
                ]),
            ),
            ("name".to_string(), JsonValue::Str("worker-a".to_string())),
        ]),
    )]);

    let fields = flatten_json_to_fields(&root);
    assert_eq!(
        fields.get("metadata.annotations.kubectl%2Ekubernetes%2Eio/restartedAt"),
        Some(&JsonValue::Str("2026-02-22T10:00:00Z".to_string()))
    );
    assert_eq!(
        fields.get("metadata.annotations.x%25y"),
        Some(&JsonValue::Str("pct".to_string()))
    );

    let reconstructed = reconstruct_nested_from_fields(&fields);
    assert_eq!(reconstructed, root);
}

#[test]
fn select_parent_path_rebuilds_with_dotted_keys() {
    let mut fields = FieldMap::new();
    fields.insert(
        "metadata.annotations.kubectl%2Ekubernetes%2Eio/restartedAt".to_string(),
        JsonValue::Str("2026-02-22T10:00:00Z".to_string()),
    );
    fields.insert(
        "metadata.annotations.app%2Ekubernetes%2Eio/name".to_string(),
        JsonValue::Str("api".to_string()),
    );

    let selected = select_path_value(&fields, "metadata.annotations")
        .expect("metadata.annotations must be reconstructed");
    let expected = JsonValue::Obj(vec![
        (
            "app.kubernetes.io/name".to_string(),
            JsonValue::Str("api".to_string()),
        ),
        (
            "kubectl.kubernetes.io/restartedAt".to_string(),
            JsonValue::Str("2026-02-22T10:00:00Z".to_string()),
        ),
    ]);
    assert_eq!(selected, expected);
}

#[test]
fn preserves_distinct_percent_encoded_keys() {
    let root = JsonValue::Obj(vec![(
        "metadata".to_string(),
        JsonValue::Obj(vec![(
            "labels".to_string(),
            JsonValue::Obj(vec![
                ("a%2Eb".to_string(), JsonValue::Str("literal".to_string())),
                ("a.b".to_string(), JsonValue::Str("dot".to_string())),
            ]),
        )]),
    )]);

    let fields = flatten_json_to_fields(&root);
    assert_eq!(fields.get("metadata.labels.a%2Eb"), Some(&JsonValue::Str("dot".to_string())));
    assert_eq!(
        fields.get("metadata.labels.a%252Eb"),
        Some(&JsonValue::Str("literal".to_string()))
    );
    assert_eq!(reconstruct_nested_from_fields(&fields), root);
}

#[test]
fn get_reads_plain_path() {
    let mut fields = FieldMap::new();
    fields.insert("metadata.name".to_string(), JsonValue::Str("worker-a".to_string()));
    let object = DynamicObject { fields };
    assert_eq!(
        object.get("metadata.name"),
        Some(&JsonValue::Str("worker-a".to_string()))
    );
}

#[test]
fn get_reads_encoded_path_via_raw_query_path() {
    let mut fields = FieldMap::new();
    fields.insert(
        "metadata.annotations.kubectl%2Ekubernetes%2Eio/restartedAt".to_string(),
        JsonValue::Str("2026-02-22T10:00:00Z".to_string()),
    );
    let object = DynamicObject { fields };
    assert_eq!(
        object.get("metadata.annotations.kubectl.kubernetes.io/restartedAt"),
        Some(&JsonValue::Str("2026-02-22T10:00:00Z".to_string()))
    );
}

#[test]
fn flattens_nested_objects_to_dot_paths() {
    let value = JsonValue::Obj(vec![
        (
            "metadata".to_string(),
            JsonValue::Obj(vec![("namespace".to_string(), JsonValue::Str("demo-a".to_string()))]),
        ),
        (
            "spec".to_string(),
            JsonValue::Obj(vec![
                ("enabled".to_string(), JsonValue::Bool(true)),
                ("replicas".to_string(), JsonValue::Int(2)),
            ]),
        ),
    ]);

    let out = flatten_json_to_fields(&value);

    assert_eq!(out.get("metadata.namespace"), Some(&JsonValue::Str("demo-a".to_string())));
    assert_eq!(out.get("spec.replicas"), Some(&JsonValue::Int(2)));
    assert_eq!(out.get("spec.enabled"), Some(&JsonValue::Bool(true)));
}

#[test]
fn flatten_stores_arrays_both_exploded_and_whole() {
    let root = JsonValue::Obj(vec![(
        "spec".to_string(),
        JsonValue::Obj(vec![(
            "ports".to_string(),
            JsonValue::Arr(vec![JsonValue::Int(80), JsonValue::Int(443)]),
        )]),
    )]);

    let fields = flatten_json_to_fields(&root);
    assert_eq!(fields.get("spec.ports.0"), Some(&JsonValue::Int(80)));
    assert_eq!(fields.get("spec.ports.1"), Some(&JsonValue::Int(443)));
    assert_eq!(
        fields.get("spec.ports"),
        Some(&JsonValue::Arr(vec![JsonValue::Int(80), JsonValue::Int(443)]))
    );
    assert_eq!(fields.get(""), None);
}

#[test]
fn parses_query_tokens_from_args_form() {
    let tokens = vec![
        "where".to_string(),
        "metadata.namespace".to_string(),
        "==".to_string(),
        "demo-a".to_string(),
        "select".to_string(),
        "metadata.name".to_string(),
    ];

    let ast = kubiq::cli::parse_query_tokens(&tokens).expect("must parse query tokens");
    assert_eq!(ast.predicates.len(), 1);
    assert_eq!(ast.select, Some(SelectClause::Paths(vec!["metadata.name".to_string()])));
}

#[test]
fn parses_query_tokens_with_order_by_from_args_form() {
    let tokens = vec![
        "where".to_string(),
        "metadata.namespace".to_string(),
        "==".to_string(),
        "demo-a".to_string(),
        "order".to_string(),
        "by".to_string(),
        "metadata.name".to_string(),
        "desc".to_string(),
    ];

    let ast = kubiq::cli::parse_query_tokens(&tokens).expect("must parse query tokens");
    let order_keys = ast.order_by.expect("must parse order by");
    assert_eq!(order_keys.len(), 1);
    assert_eq!(order_keys[0].path, "metadata.name");
    assert!(matches!(order_keys[0].direction, SortDirection::Desc));
}

#[test]
fn pushes_field_selectors_for_eq_and_ne() {
    let predicates = vec![
        kubiq::parser::Predicate {
            path: "metadata.name".to_string(),
            op: Operator::Eq,
            value: JsonValue::Str("pod-a".to_string()),
        },
        kubiq::parser::Predicate {
            path: "metadata.namespace".to_string(),
            op: Operator::Ne,
            value: JsonValue::Str("kube-system".to_string()),
        },
    ];

    let plan = kubiq::planner::plan_pushdown(&predicates);
    assert_eq!(
        plan.options.field_selector.as_deref(),
        Some("metadata.name=pod-a,metadata.namespace!=kube-system")
    );
    assert_eq!(plan.options.label_selector, None);
    assert!(plan.diagnostics.is_empty());
}

#[test]
fn pushes_label_selectors_for_eq_and_ne() {
    let predicates = vec![
        kubiq::parser::Predicate {
            path: "metadata.labels.app".to_string(),
            op: Operator::Eq,
            value: JsonValue::Str("api".to_string()),
        },
        kubiq::parser::Predicate {
            path: "metadata.labels.tier".to_string(),
            op: Operator::Ne,
            value: JsonValue::Str("batch".to_string()),
        },
    ];

    let plan = kubiq::planner::plan_pushdown(&predicates);
    assert_eq!(plan.options.field_selector, None);
    assert_eq!(plan.options.label_selector.as_deref(), Some("app=api,tier!=batch"));
    assert!(plan.diagnostics.is_empty());
}

#[test]
fn reports_non_string_and_unsupported_path_as_not_pushable() {
    let predicates = vec![
        kubiq::parser::Predicate {
            path: "spec.replicas".to_string(),
            op: Operator::Eq,
            value: JsonValue::Int(3),
        },
        kubiq::parser::Predicate {
            path: "spec.nodeName".to_string(),
            op: Operator::Eq,
            value: JsonValue::Str("worker-a".to_string()),
        },
    ];

    let plan = kubiq::planner::plan_pushdown(&predicates);
    assert_eq!(plan.options.field_selector, None);
    assert_eq!(plan.options.label_selector, None);
    assert_eq!(plan.diagnostics.len(), 2);
    assert_eq!(plan.diagnostics[0].reason, kubiq::planner::NotPushableReason::NonStringValue);
    assert_eq!(plan.diagnostics[1].reason, kubiq::planner::NotPushableReason::UnsupportedPath);
}

#[test]
fn reports_unsafe_selector_inputs() {
    let predicates = vec![
        kubiq::parser::Predicate {
            path: "metadata.name".to_string(),
            op: Operator::Eq,
            value: JsonValue::Str("pod,a".to_string()),
        },
        kubiq::parser::Predicate {
            path: "metadata.labels.bad,key".to_string(),
            op: Operator::Eq,
            value: JsonValue::Str("ok".to_string()),
        },
    ];

    let plan = kubiq::planner::plan_pushdown(&predicates);
    assert_eq!(plan.diagnostics.len(), 2);
    assert_eq!(plan.diagnostics[0].reason, kubiq::planner::NotPushableReason::UnsafeSelectorValue);
    assert_eq!(plan.diagnostics[1].reason, kubiq::planner::NotPushableReason::UnsafeLabelKey);
}

#[test]
fn plans_mixed_field_label_and_unsupported_predicates() {
    let predicates = vec![
        kubiq::parser::Predicate {
            path: "metadata.name".to_string(),
            op: Operator::Eq,
            value: JsonValue::Str("worker-a".to_string()),
        },
        kubiq::parser::Predicate {
            path: "metadata.labels.app".to_string(),
            op: Operator::Eq,
            value: JsonValue::Str("api".to_string()),
        },
        kubiq::parser::Predicate {
            path: "spec.nodeName".to_string(),
            op: Operator::Eq,
            value: JsonValue::Str("w".to_string()),
        },
    ];

    let plan = kubiq::planner::plan_pushdown(&predicates);
    assert_eq!(plan.options.field_selector.as_deref(), Some("metadata.name=worker-a"));
    assert_eq!(plan.options.label_selector.as_deref(), Some("app=api"));
    assert_eq!(plan.diagnostics.len(), 1);
    assert_eq!(plan.diagnostics[0].path, "spec.nodeName");
    assert_eq!(plan.diagnostics[0].reason, kubiq::planner::NotPushableReason::UnsupportedPath);
}

#[test]
fn codec_round_trips_unicode_segments() {
    let original = "naïve.key% with dots…";
    let encoded = encode_segment(original);
    assert_eq!(decode_segment(&encoded), original);
    let path = "metadata.labels.naïve%key";
    assert_eq!(decode_path(&encode_path(path)), path);
}

#[test]
fn decode_is_case_insensitive_on_hex_codes() {
    assert_eq!(decode_segment("a%2eb"), "a.b");
    assert_eq!(decode_segment("a%2Eb"), "a.b");
}
