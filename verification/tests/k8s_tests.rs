use kubiq::cli::{format_k8s_diagnostic, format_planner_diagnostic};
use kubiq::errors::{CliError, K8sError, RetryErrorKind, RetryStopReason};
use kubiq::k8s::{
    classify_list_error, default_retry_policy, ensure_page_limit, is_retryable_transport_error,
    next_continue_token, normalize_resource, retry_backoff_for_attempt, retry_summary_diagnostic,
    should_retry_with_fresh_discovery, should_retry_without_selectors, AttemptOutcome,
    DiscoveryCacheKey, K8sDiagnostic, ListErrorClass, ListQueryOptions, RetryDecision,
    TransportError, list_retry_step, MAX_LIST_PAGES,
};
use kubiq::planner::{NotPushableReason, PlannerDiagnostic};
use kubiq::parser::Operator;

#[test]
fn page_limit_accepts_boundary_value() {
    let result = ensure_page_limit("pods", MAX_LIST_PAGES);
    assert!(result.is_ok());
}

#[test]
fn page_limit_rejects_overflow() {
    let result = ensure_page_limit("pods", MAX_LIST_PAGES + 1);
    assert!(matches!(
        result,
        Err(K8sError::PaginationExceeded { resource, max_pages })
            if resource == "pods" && max_pages == MAX_LIST_PAGES
    ));
}

#[test]
fn next_continue_token_treats_absent_as_done() {
    let result = next_continue_token("pods", None, None).expect("must succeed");
    assert_eq!(result, None);
}

#[test]
fn next_continue_token_treats_empty_as_done() {
    let current = "token-a".to_string();
    let result = next_continue_token("pods", Some(&current), Some(String::new())).expect("must succeed");
    assert_eq!(result, None);
}

#[test]
fn next_continue_token_accepts_new_token() {
    let current = "token-a".to_string();
    let result =
        next_continue_token("pods", Some(&current), Some("token-b".to_string())).expect("must succeed");
    assert_eq!(result.as_deref(), Some("token-b"));
}

#[test]
fn next_continue_token_rejects_same_token() {
    let current = "token-a".to_string();
    let result = next_continue_token("pods", Some(&current), Some("token-a".to_string()));
    assert!(matches!(
        result,
        Err(K8sError::PaginationStuck { resource, token })
            if resource == "pods" && token == "token-a"
    ));
}

#[test]
fn normalizes_resource_to_trimmed_lowercase() {
    assert_eq!(normalize_resource("  Pods "), "pods");
}

#[test]
fn discovery_cache_key_normalizes_resource_segment() {
    let key = DiscoveryCacheKey::new("cluster-a".to_string(), "default".to_string(), " PoDs ");
    assert_eq!(key.resource, "pods");
}

#[test]
fn retries_without_selectors_on_selector_rejected_errors() {
    let error = K8sError::SelectorRejected {
        resource: "pods".to_string(),
        detail: "bad request".to_string(),
    };
    assert!(should_retry_without_selectors(&error));
}

#[test]
fn retries_with_fresh_discovery_on_stale_resolution_errors() {
    let error = K8sError::ResourceResolutionStale {
        resource: "pods".to_string(),
        detail: "stale mapping".to_string(),
    };
    assert!(should_retry_with_fresh_discovery(&error));
}

#[test]
fn retries_with_fresh_discovery_on_retry_exhausted_stale_resolution() {
    let error = K8sError::RetryExhausted {
        stage: "list".to_string(),
        attempts: 3,
        reason: RetryStopReason::RetryCapReached,
        final_error: RetryErrorKind::ResourceResolutionStale,
        detail: "stale mapping".to_string(),
    };
    assert!(should_retry_with_fresh_discovery(&error));
}

#[test]
fn computes_exponential_backoff_with_cap() {
    let policy = default_retry_policy();
    assert_eq!(retry_backoff_for_attempt(&policy, 1), 100);
    assert_eq!(retry_backoff_for_attempt(&policy, 2), 200);
    assert_eq!(retry_backoff_for_attempt(&policy, 3), 400);
    assert_eq!(retry_backoff_for_attempt(&policy, 4), 400);
}

#[test]
fn builds_retry_summary_diagnostic_from_retry_exhausted_error() {
    let error = K8sError::RetryExhausted {
        stage: "list".to_string(),
        attempts: 3,
        reason: RetryStopReason::RetryCapReached,
        final_error: RetryErrorKind::RequestTimeout,
        detail: "timeout".to_string(),
    };

    let diagnostic = retry_summary_diagnostic(&error).expect("must produce diagnostic");
    assert!(matches!(
        diagnostic,
        K8sDiagnostic::RetrySummary {
            ref stage,
            attempts: 3,
            reason: RetryStopReason::RetryCapReached,
            final_error: RetryErrorKind::RequestTimeout,
        } if stage == "list"
    ));
}

#[test]
fn selector_fallback_diagnostic_keeps_attempted_selectors() {
    let diagnostic = K8sDiagnostic::SelectorFallback {
        reason: kubiq::k8s::SelectorFallbackReason::ApiRejectedBadRequest,
        attempted: ListQueryOptions {
            field_selector: Some("metadata.namespace=demo-a".to_string()),
            label_selector: None,
        },
    };

    assert!(matches!(
        diagnostic,
        K8sDiagnostic::SelectorFallback {
            reason: kubiq::k8s::SelectorFallbackReason::ApiRejectedBadRequest,
            attempted: ListQueryOptions { field_selector: Some(_), label_selector: None },
        }
    ));
}

#[test]
fn formats_planner_diagnostics() {
    let diagnostic = PlannerDiagnostic {
        path: "spec.nodeName".to_string(),
        op: Operator::Eq,
        reason: NotPushableReason::UnsupportedPath,
    };

    let rendered = format_planner_diagnostic(&diagnostic);
    assert!(rendered.contains("spec.nodeName"));
    assert!(rendered.contains("unsupported path"));
}

#[test]
fn formats_runtime_selector_fallback_diagnostics() {
    let diagnostic = K8sDiagnostic::SelectorFallback {
        reason: kubiq::k8s::SelectorFallbackReason::ApiRejectedBadRequest,
        attempted: ListQueryOptions {
            field_selector: Some("metadata.namespace=demo-a".to_string()),
            label_selector: None,
        },
    };

    let rendered = format_k8s_diagnostic(&diagnostic);
    assert!(rendered.contains("retried without selectors"));
    assert!(rendered.contains("metadata.namespace=demo-a"));
}

#[test]
fn classifies_api_bad_request_as_selector_rejected() {
    let error = TransportError::Api {
        code: 400,
        reason: "BadRequest".to_string(),
        message: "field selector not supported".to_string(),
    };
    assert_eq!(classify_list_error(&error, true), ListErrorClass::SelectorRejected);
}

#[test]
fn classifies_non_selector_bad_request_as_other() {
    let error = TransportError::Api {
        code: 400,
        reason: "BadRequest".to_string(),
        message: "invalid request body".to_string(),
    };
    assert_eq!(classify_list_error(&error, true), ListErrorClass::Other);
}

#[test]
fn classifies_selector_bad_request_as_other_without_selectors() {
    let error = TransportError::Api {
        code: 400,
        reason: "BadRequest".to_string(),
        message: "field selector not supported".to_string(),
    };
    assert_eq!(classify_list_error(&error, false), ListErrorClass::Other);
}

#[test]
fn classifies_service_error_as_api_unreachable() {
    let error = TransportError::Connection { detail: "connect".to_string() };
    assert_eq!(classify_list_error(&error, false), ListErrorClass::ApiUnreachable);
}

#[test]
fn classifies_other_api_errors_as_other() {
    let error = TransportError::Api {
        code: 403,
        reason: "Forbidden".to_string(),
        message: "forbidden".to_string(),
    };
    assert_eq!(classify_list_error(&error, false), ListErrorClass::Other);
}

#[test]
fn classifies_not_found_as_resource_resolution_stale() {
    let error = TransportError::Api {
        code: 404,
        reason: "NotFound".to_string(),
        message: "the server could not find the requested resource".to_string(),
    };
    assert_eq!(classify_list_error(&error, false), ListErrorClass::ResourceResolutionStale);
}

#[test]
fn classifies_gone_as_resource_resolution_stale() {
    let error = TransportError::Api {
        code: 410,
        reason: "Gone".to_string(),
        message: "resource no longer available".to_string(),
    };
    assert_eq!(classify_list_error(&error, false), ListErrorClass::ResourceResolutionStale);
}

#[test]
fn classifies_api_429_as_retryable() {
    let error = TransportError::Api {
        code: 429,
        reason: "TooManyRequests".to_string(),
        message: "too many requests".to_string(),
    };
    assert!(is_retryable_transport_error(&error));
}

#[test]
fn classifies_api_500_as_retryable() {
    let error = TransportError::Api {
        code: 500,
        reason: "InternalError".to_string(),
        message: "internal".to_string(),
    };
    assert!(is_retryable_transport_error(&error));
}

#[test]
fn classifies_api_400_as_non_retryable() {
    let error = TransportError::Api {
        code: 400,
        reason: "BadRequest".to_string(),
        message: "bad request".to_string(),
    };
    assert!(!is_retryable_transport_error(&error));
}

#[test]
fn run_with_retry_succeeds_after_transient_error() {
    let policy = default_retry_policy();
    let transient = AttemptOutcome::Failed(TransportError::Connection { detail: "connect".to_string() });
    let first = list_retry_step("pods", false, &policy, 1, &transient);
    assert!(matches!(first, RetryDecision::Retry { .. }));
    let second = list_retry_step("pods", false, &policy, 2, &AttemptOutcome::Success);
    assert!(matches!(second, RetryDecision::Done));
}

#[test]
fn run_with_retry_fails_fast_for_non_retryable_error() {
    let policy = default_retry_policy();
    let outcome = AttemptOutcome::Failed(TransportError::Api {
        code: 403,
        reason: "Forbidden".to_string(),
        message: "forbidden".to_string(),
    });
    let decision = list_retry_step("pods", false, &policy, 1, &outcome);
    assert!(matches!(decision, RetryDecision::Fail(K8sError::ListFailed { .. })));
}

#[test]
fn run_with_retry_returns_retry_exhausted_on_retry_cap() {
    let policy = default_retry_policy();
    let failing = || AttemptOutcome::Failed(TransportError::Connection { detail: "dial tcp timeout".to_string() });
    assert!(matches!(list_retry_step("pods", false, &policy, 1, &failing()), RetryDecision::Retry { .. }));
    assert!(matches!(list_retry_step("pods", false, &policy, 2, &failing()), RetryDecision::Retry { .. }));
    let last = list_retry_step("pods", false, &policy, 3, &failing());
    assert!(matches!(
        last,
        RetryDecision::Fail(K8sError::RetryExhausted {
            ref stage,
            attempts: 3,
            reason: RetryStopReason::RetryCapReached,
            final_error: RetryErrorKind::ApiUnreachable,
            ..
        }) if stage == "list"
    ));
}

#[test]
fn run_with_retry_reports_timeout_path() {
    let mut policy = default_retry_policy();
    policy.max_attempts = 2;
    assert!(matches!(
        list_retry_step("pods", false, &policy, 1, &AttemptOutcome::TimedOut),
        RetryDecision::Retry { .. }
    ));
    let last = list_retry_step("pods", false, &policy, 2, &AttemptOutcome::TimedOut);
    assert!(matches!(
        last,
        RetryDecision::Fail(K8sError::RetryExhausted {
            ref stage,
            attempts: 2,
            reason: RetryStopReason::RetryCapReached,
            final_error: RetryErrorKind::RequestTimeout,
            ..
        }) if stage == "list"
    ));
}

#[test]
fn cache_lookup_returns_inserted_entry_before_expiry() {
    let mut cache = kubiq::k8s::DiscoveryCache::new();
    let key = DiscoveryCacheKey::new("cluster-a".to_string(), "default".to_string(), "pods");
    let info = kubiq::k8s::ApiResourceInfo {
        group: "apps".to_string(),
        version: "v1".to_string(),
        kind: "Deployment".to_string(),
        plural: "deployments".to_string(),
    };
    cache.insert(key.duplicate(), info, 30_000);

    let cached = cache.lookup(&key, 10_000).expect("cache hit expected");
    assert_eq!(cached.plural, "deployments");
}

#[test]
fn cache_lookup_drops_expired_entry() {
    let mut cache = kubiq::k8s::DiscoveryCache::new();
    let key = DiscoveryCacheKey::new("cluster-a".to_string(), "default".to_string(), "pods");
    let info = kubiq::k8s::ApiResourceInfo {
        group: "apps".to_string(),
        version: "v1".to_string(),
        kind: "Deployment".to_string(),
        plural: "deployments".to_string(),
    };
    cache.insert(key.duplicate(), info, 1_000);

    assert!(cache.lookup(&key, 2_000).is_none());
    assert!(cache.lookup(&key, 500).is_none());
}

#[test]
fn invalidate_discovery_cache_removes_entry() {
    let mut cache = kubiq::k8s::DiscoveryCache::new();
    let key = DiscoveryCacheKey::new("cluster-a".to_string(), "default".to_string(), "pods");
    let info = kubiq::k8s::ApiResourceInfo {
        group: "apps".to_string(),
        version: "v1".to_string(),
        kind: "Deployment".to_string(),
        plural: "deployments".to_string(),
    };
    cache.insert(key.duplicate(), info, 30_000);
    cache.invalidate(&key);

    assert!(cache.lookup(&key, 10_000).is_none());
}

#[test]
fn pagination_totals_sum_over_pages_with_distinct_tokens() {
    let pages = vec![
        (2u64, Some("token-a".to_string())),
        (3u64, Some("token-b".to_string())),
        (5u64, None),
    ];
    let (total, pages_walked) =
        kubiq::k8s::run_paged_mock("pods", &pages).expect("distinct tokens must finish");
    assert_eq!(total, 10);
    assert_eq!(pages_walked, 3);
}

#[test]
fn pagination_fails_stuck_on_repeated_token() {
    let pages = vec![
        (2u64, Some("token-a".to_string())),
        (3u64, Some("token-a".to_string())),
        (5u64, None),
    ];
    let err = kubiq::k8s::run_paged_mock("pods", &pages).expect_err("repeat must fail");
    assert!(matches!(
        err,
        K8sError::PaginationStuck { resource, token } if resource == "pods" && token == "token-a"
    ));
}

#[test]
fn pagination_fails_exceeded_past_the_cap() {
    let mut pages: Vec<(u64, Option<String>)> = Vec::new();
    let mut i: u64 = 0;
    while i < MAX_LIST_PAGES + 1 {
        pages.push((1, Some(format!("token-{i}"))));
        i += 1;
    }
    let err = kubiq::k8s::run_paged_mock("pods", &pages).expect_err("cap must fail");
    assert!(matches!(
        err,
        K8sError::PaginationExceeded { resource, max_pages }
            if resource == "pods" && max_pages == MAX_LIST_PAGES
    ));
}

#[test]
fn empty_resource_name_normalizes_to_empty() {
    assert_eq!(normalize_resource("   "), "");
}

#[test]
fn k8s_error_contains_connectivity_tip() {
    let err = CliError::K8s(K8sError::ApiUnreachable {
        stage: "discovery".to_string(),
        detail: "dial tcp timeout".to_string(),
    });
    let rendered = err.render();
    assert!(rendered.contains("Kubernetes API is unreachable"));
    assert!(rendered.contains("kubectl cluster-info"));
}

#[test]
fn k8s_error_not_found_contains_api_resources_tip() {
    let err = CliError::K8s(K8sError::ResourceNotFound { resource: "podsx".to_string() });
    let rendered = err.render();
    assert!(rendered.contains("resource was not found"));
    assert!(rendered.contains("kubectl api-resources"));
}

#[test]
fn k8s_error_includes_source_details_in_rendered_message() {
    let err = CliError::K8s(K8sError::ConfigInfer {
        detail: "no such file or directory: /tmp/missing-kubeconfig".to_string(),
    });
    let rendered = err.render();
    assert!(rendered.contains("failed to infer kube config"));
    assert!(rendered.contains("missing-kubeconfig"));
}

#[test]
fn parse_error_contains_query_example_tip() {
    let err = CliError::Parse("invalid query syntax".to_string());
    let rendered = err.render();
    assert!(rendered.contains("query format"));
    assert!(rendered.contains("kubiq pods where"));
}

#[test]
fn k8s_error_fallback_tip_is_rendered_for_non_connectivity_failures() {
    let err = CliError::K8s(K8sError::DiscoveryRun { detail: "forbidden".to_string() });
    let rendered = err.render();
    assert!(rendered.contains("verify cluster access with `kubectl get ns`"));
}

#[test]
fn output_error_contains_format_tip() {
    let err = CliError::Output(kubiq::errors::OutputError::JsonSerialize {
        detail: "expected value at line 1".to_string(),
    });
    let rendered = err.render();
    assert!(rendered.contains("output error"));
    assert!(rendered.contains("supported formats are `table`, `json`, `yaml`"));
}

#[test]
fn retry_driver_transient_then_success_finishes_within_cap() {
    let policy = default_retry_policy();
    let outcomes = vec![
        AttemptOutcome::Failed(TransportError::Connection { detail: "connect".to_string() }),
        AttemptOutcome::Success,
    ];
    let attempts =
        kubiq::k8s::run_retry_mock("pods", false, &policy, &outcomes).expect("must succeed after retry");
    assert_eq!(attempts, 2);
    assert!(attempts <= policy.max_attempts);
}

#[test]
fn retry_driver_fails_fast_on_bad_request() {
    let policy = default_retry_policy();
    let outcomes = vec![AttemptOutcome::Failed(TransportError::Api {
        code: 400,
        reason: "BadRequest".to_string(),
        message: "bad request".to_string(),
    })];
    let err = kubiq::k8s::run_retry_mock("pods", false, &policy, &outcomes).expect_err("must fail");
    assert!(matches!(err, K8sError::ListFailed { .. }));
}

#[test]
fn retry_driver_exhausts_on_persistent_transport_error() {
    let policy = default_retry_policy();
    let failing = || AttemptOutcome::Failed(TransportError::Connection { detail: "dial tcp timeout".to_string() });
    let outcomes = vec![failing(), failing(), failing()];
    let err = kubiq::k8s::run_retry_mock("pods", false, &policy, &outcomes).expect_err("must exhaust");
    assert!(matches!(
        err,
        K8sError::RetryExhausted {
            reason: RetryStopReason::RetryCapReached,
            final_error: RetryErrorKind::ApiUnreachable,
            ..
        }
    ));
}
