//! The cluster-facing decisions: selector options, pagination guards, the
//! retry policy, error classification and the discovery cache. The network
//! calls themselves live outside the library; these functions decide what
//! those calls are handed and what their outcomes mean.

use vstd::prelude::*;

use crate::errors::{K8sError, RetryErrorKind, RetryStopReason};
use crate::jsonv::clone_string;
use crate::object::DynamicObject;
use crate::text::{
    chars_vec, contains_sub, lower_chars, seq_contains_sub, spec_lower, spec_trim,
    string_from_chars, trim_chars,
};

verus! {

/// Already-joined selector strings for one list request.
#[derive(Debug, PartialEq)]
pub struct ListQueryOptions {
    pub field_selector: Option<String>,
    pub label_selector: Option<String>,
}

impl ListQueryOptions {
    /// An empty set of selectors.
    pub fn none() -> (r: Self)
        ensures
            r.field_selector is None,
            r.label_selector is None,
    {
        ListQueryOptions { field_selector: None, label_selector: None }
    }

    /// Whether any selector is set.
    pub fn has_selectors(&self) -> (r: bool)
        ensures
            r == (self.field_selector is Some || self.label_selector is Some),
    {
        self.field_selector.is_some() || self.label_selector.is_some()
    }

    /// A copy with the same selectors.
    pub fn duplicate(&self) -> (r: Self)
        ensures
            opt_str_view(&r.field_selector) == opt_str_view(&self.field_selector),
            opt_str_view(&r.label_selector) == opt_str_view(&self.label_selector),
    {
        ListQueryOptions {
            field_selector: match &self.field_selector {
                Some(s) => Some(clone_string(s)),
                None => None,
            },
            label_selector: match &self.label_selector {
                Some(s) => Some(clone_string(s)),
                None => None,
            },
        }
    }
}

pub open spec fn opt_str_view(o: &Option<String>) -> Option<Seq<char>> {
    match o {
        Some(s) => Some(s@),
        None => None,
    }
}

/// Why the lister dropped its selectors and retried.
#[derive(Clone, Copy, Debug, PartialEq, Eq, Structural)]
pub enum SelectorFallbackReason {
    ApiRejectedBadRequest,
}

/// What the lister reports beside its objects.
#[derive(Debug, PartialEq)]
pub enum K8sDiagnostic {
    SelectorFallback { reason: SelectorFallbackReason, attempted: ListQueryOptions },
    RetrySummary {
        stage: String,
        attempts: u64,
        reason: RetryStopReason,
        final_error: RetryErrorKind,
    },
}

/// What a list call returns: flattened objects plus diagnostics.
#[derive(Debug)]
pub struct ListResult {
    pub objects: Vec<DynamicObject>,
    pub diagnostics: Vec<K8sDiagnostic>,
}

/// A transport or API failure, as the library models what the HTTP client
/// reports: an API error with its status code, reason and message; a
/// connect- or protocol-class failure; or anything else.
#[derive(Debug, PartialEq)]
pub enum TransportError {
    Api { code: u16, reason: String, message: String },
    Connection { detail: String },
    Other { detail: String },
}

/// How a list failure is classified.
#[derive(Clone, Copy, Debug, PartialEq, Eq, Structural)]
pub enum ListErrorClass {
    SelectorRejected,
    ResourceResolutionStale,
    ApiUnreachable,
    Other,
}

pub open spec fn spec_marker_1() -> Seq<char> {
    "field selector"@
}

pub open spec fn spec_marker_2() -> Seq<char> {
    "label selector"@
}

pub open spec fn spec_marker_3() -> Seq<char> {
    "not a known field selector"@
}

pub open spec fn spec_marker_4() -> Seq<char> {
    "field label not supported"@
}

pub open spec fn spec_mentions_selectors(text: Seq<char>) -> bool {
    seq_contains_sub(spec_lower(text), spec_marker_1()) || seq_contains_sub(
        spec_lower(text),
        spec_marker_2(),
    ) || seq_contains_sub(spec_lower(text), spec_marker_3()) || seq_contains_sub(
        spec_lower(text),
        spec_marker_4(),
    )
}

/// A selector rejection: HTTP 400 whose reason or message names selectors.
pub open spec fn spec_is_selector_rejection(code: u16, reason: Seq<char>, message: Seq<char>) -> bool {
    code == 400 && (spec_mentions_selectors(reason) || spec_mentions_selectors(message))
}

fn mentions_selectors(text: &str) -> (r: bool)
    ensures
        r == spec_mentions_selectors(text@),
{
    let cs = chars_vec(text);
    let low = lower_chars(&cs);
    let m1 = chars_vec("field selector");
    let m2 = chars_vec("label selector");
    let m3 = chars_vec("not a known field selector");
    let m4 = chars_vec("field label not supported");
    contains_sub(&low, &m1) || contains_sub(&low, &m2) || contains_sub(&low, &m3) || contains_sub(
        &low,
        &m4,
    )
}

/// Whether a 400 response is a selector rejection, judged only by explicit
/// selector markers so an unrelated 400 is never masked.
pub fn is_selector_rejection(code: u16, reason: &str, message: &str) -> (r: bool)
    ensures
        r == spec_is_selector_rejection(code, reason@, message@),
{
    if code != 400 {
        return false;
    }
    mentions_selectors(reason) || mentions_selectors(message)
}

/// Whether a response says the cached resource resolution went stale.
pub open spec fn spec_is_stale(code: u16) -> bool {
    code == 404 || code == 410
}

pub fn is_resource_resolution_stale(code: u16) -> (r: bool)
    ensures
        r == spec_is_stale(code),
{
    code == 404 || code == 410
}

/// The classification of a failed list call.
pub open spec fn spec_classify_list_error(e: &TransportError, had_selectors: bool) -> ListErrorClass {
    match e {
        TransportError::Api { code, reason, message } => if had_selectors
            && spec_is_selector_rejection(*code, reason@, message@) {
            ListErrorClass::SelectorRejected
        } else if spec_is_stale(*code) {
            ListErrorClass::ResourceResolutionStale
        } else {
            ListErrorClass::Other
        },
        TransportError::Connection { .. } => ListErrorClass::ApiUnreachable,
        TransportError::Other { .. } => ListErrorClass::Other,
    }
}

/// Classifies a failed list call: a 400 that names selectors while selectors
/// were sent; a 404 or 410 as stale resolution; connect- or protocol-class
/// failures as unreachable; anything else as other.
pub fn classify_list_error(e: &TransportError, had_selectors: bool) -> (r: ListErrorClass)
    ensures
        r == spec_classify_list_error(e, had_selectors),
{
    match e {
        TransportError::Api { code, reason, message } => {
            if had_selectors && is_selector_rejection(*code, reason.as_str(), message.as_str()) {
                ListErrorClass::SelectorRejected
            } else if is_resource_resolution_stale(*code) {
                ListErrorClass::ResourceResolutionStale
            } else {
                ListErrorClass::Other
            }
        },
        TransportError::Connection { .. } => ListErrorClass::ApiUnreachable,
        TransportError::Other { .. } => ListErrorClass::Other,
    }
}

/// The failure text carried into the error taxonomy.
pub open spec fn spec_transport_detail(e: &TransportError) -> Seq<char> {
    match e {
        TransportError::Api { message, .. } => message@,
        TransportError::Connection { detail } => detail@,
        TransportError::Other { detail } => detail@,
    }
}

pub fn transport_detail(e: &TransportError) -> (r: String)
    ensures
        r@ == spec_transport_detail(e),
{
    match e {
        TransportError::Api { message, .. } => clone_string(message),
        TransportError::Connection { detail } => clone_string(detail),
        TransportError::Other { detail } => clone_string(detail),
    }
}

/// Whether `mapped` is the error the classification of `e` calls for.
pub open spec fn spec_mapped_list_error(
    resource: Seq<char>,
    had_selectors: bool,
    e: &TransportError,
    mapped: &K8sError,
) -> bool {
    match spec_classify_list_error(e, had_selectors) {
        ListErrorClass::SelectorRejected => mapped matches K8sError::SelectorRejected {
            resource: res,
            detail,
        } && res@ == resource && detail@ == spec_transport_detail(e),
        ListErrorClass::ResourceResolutionStale => mapped
            matches K8sError::ResourceResolutionStale { resource: res, detail } && res@ == resource
            && detail@ == spec_transport_detail(e),
        ListErrorClass::ApiUnreachable => mapped matches K8sError::ApiUnreachable {
            stage,
            detail,
        } && stage@ == "list"@ && detail@ == spec_transport_detail(e),
        ListErrorClass::Other => mapped matches K8sError::ListFailed { resource: res, detail }
            && res@ == resource && detail@ == spec_transport_detail(e),
    }
}

/// Maps a failed list call into the error taxonomy by its classification.
pub fn map_list_error(resource: &str, had_selectors: bool, e: &TransportError) -> (r: K8sError)
    ensures
        spec_mapped_list_error(resource@, had_selectors, e, &r),
{
    let detail = transport_detail(e);
    match classify_list_error(e, had_selectors) {
        ListErrorClass::SelectorRejected => K8sError::SelectorRejected {
            resource: String::from_str(resource),
            detail,
        },
        ListErrorClass::ResourceResolutionStale => K8sError::ResourceResolutionStale {
            resource: String::from_str(resource),
            detail,
        },
        ListErrorClass::ApiUnreachable => K8sError::ApiUnreachable {
            stage: String::from_str("list"),
            detail,
        },
        ListErrorClass::Other => K8sError::ListFailed {
            resource: String::from_str(resource),
            detail,
        },
    }
}

/// Maps a failed discovery call into the error taxonomy.
pub fn map_discovery_error(e: &TransportError) -> (r: K8sError)
    ensures
        spec_mapped_discovery_error(e, &r),
{
    let detail = transport_detail(e);
    match classify_list_error(e, false) {
        ListErrorClass::ApiUnreachable => K8sError::ApiUnreachable {
            stage: String::from_str("discovery"),
            detail,
        },
        _ => K8sError::DiscoveryRun { detail },
    }
}

/// Whether a transport failure may be retried: connect- and protocol-class
/// failures, HTTP 429, and HTTP 500 and above.
pub open spec fn spec_is_retryable(e: &TransportError) -> bool {
    match e {
        TransportError::Connection { .. } => true,
        TransportError::Api { code, .. } => *code == 429 || *code >= 500,
        TransportError::Other { .. } => false,
    }
}

pub fn is_retryable_transport_error(e: &TransportError) -> (r: bool)
    ensures
        r == spec_is_retryable(e),
{
    match e {
        TransportError::Connection { .. } => true,
        TransportError::Api { code, .. } => *code == 429 || *code >= 500,
        TransportError::Other { .. } => false,
    }
}

/// The kind tag of an error, for retry diagnostics.
pub open spec fn spec_retry_kind(error: &K8sError) -> RetryErrorKind {
    match error {
        K8sError::ApiUnreachable { .. } => RetryErrorKind::ApiUnreachable,
        K8sError::RequestTimeout { .. } => RetryErrorKind::RequestTimeout,
        K8sError::SelectorRejected { .. } => RetryErrorKind::SelectorRejected,
        K8sError::ResourceResolutionStale { .. } => RetryErrorKind::ResourceResolutionStale,
        K8sError::ListFailed { .. } => RetryErrorKind::ListFailed,
        K8sError::DiscoveryRun { .. } => RetryErrorKind::DiscoveryRun,
        _ => RetryErrorKind::Other,
    }
}

/// The kind a failed list call's mapped error carries, by classification.
pub open spec fn spec_list_error_kind(e: &TransportError, had_selectors: bool) -> RetryErrorKind {
    match spec_classify_list_error(e, had_selectors) {
        ListErrorClass::SelectorRejected => RetryErrorKind::SelectorRejected,
        ListErrorClass::ResourceResolutionStale => RetryErrorKind::ResourceResolutionStale,
        ListErrorClass::ApiUnreachable => RetryErrorKind::ApiUnreachable,
        ListErrorClass::Other => RetryErrorKind::ListFailed,
    }
}

/// The kind a failed discovery call's mapped error carries.
pub open spec fn spec_discovery_error_kind(e: &TransportError) -> RetryErrorKind {
    match spec_classify_list_error(e, false) {
        ListErrorClass::ApiUnreachable => RetryErrorKind::ApiUnreachable,
        _ => RetryErrorKind::DiscoveryRun,
    }
}

pub fn retry_error_kind(error: &K8sError) -> (r: RetryErrorKind)
    ensures
        r == spec_retry_kind(error),
{
    match error {
        K8sError::ApiUnreachable { .. } => RetryErrorKind::ApiUnreachable,
        K8sError::RequestTimeout { .. } => RetryErrorKind::RequestTimeout,
        K8sError::SelectorRejected { .. } => RetryErrorKind::SelectorRejected,
        K8sError::ResourceResolutionStale { .. } => RetryErrorKind::ResourceResolutionStale,
        K8sError::ListFailed { .. } => RetryErrorKind::ListFailed,
        K8sError::DiscoveryRun { .. } => RetryErrorKind::DiscoveryRun,
        _ => RetryErrorKind::Other,
    }
}

/// After a selector rejection the list is retried once without selectors.
pub fn should_retry_without_selectors(error: &K8sError) -> (r: bool)
    ensures
        r == (error is SelectorRejected),
{
    matches!(error, K8sError::SelectorRejected { .. })
}

/// After a stale resolution — direct or as a retry loop's final error — the
/// cache entry is dropped and discovery runs once more.
pub fn should_retry_with_fresh_discovery(error: &K8sError) -> (r: bool)
    ensures
        r == (error is ResourceResolutionStale || (error matches K8sError::RetryExhausted {
            final_error: RetryErrorKind::ResourceResolutionStale,
            ..
        })),
{
    match error {
        K8sError::ResourceResolutionStale { .. } => true,
        K8sError::RetryExhausted { final_error: RetryErrorKind::ResourceResolutionStale, .. } =>
            true,
        _ => false,
    }
}

/// The retry summary diagnostic a retry-exhausted error turns into.
pub fn retry_summary_diagnostic(error: &K8sError) -> (r: Option<K8sDiagnostic>)
    ensures
        match error {
            K8sError::RetryExhausted { stage, attempts, reason, final_error, .. } => (
            r matches Some(K8sDiagnostic::RetrySummary {
                stage: s,
                attempts: a,
                reason: re,
                final_error: fe,
            }) && s@ == stage@ && a == attempts && re == reason && fe == final_error),
            _ => r is None,
        },
{
    match error {
        K8sError::RetryExhausted { stage, attempts, reason, final_error, .. } => Some(
            K8sDiagnostic::RetrySummary {
                stage: clone_string(stage),
                attempts: *attempts,
                reason: *reason,
                final_error: *final_error,
            },
        ),
        _ => None,
    }
}

/// How many objects one page may carry.
pub const LIST_PAGE_SIZE: u32 = 500;

/// The hard cap on pages walked in one list.
pub const MAX_LIST_PAGES: u64 = 10000;

/// The discovery cache's time to live, in milliseconds.
pub const DISCOVERY_CACHE_TTL_MS: u64 = 60000;

/// Guards the pagination cap: pages past the cap fail.
pub fn ensure_page_limit(resource: &str, page_count: u64) -> (r: Result<(), K8sError>)
    ensures
        page_count <= MAX_LIST_PAGES <==> r is Ok,
        page_count > MAX_LIST_PAGES ==> (r matches Err(K8sError::PaginationExceeded {
            resource: res,
            max_pages,
        }) && res@ == resource@ && max_pages == MAX_LIST_PAGES),
{
    if page_count > MAX_LIST_PAGES {
        return Err(K8sError::PaginationExceeded {
            resource: String::from_str(resource),
            max_pages: MAX_LIST_PAGES,
        });
    }
    Ok(())
}

/// The non-progress guard on continue tokens: an absent or empty token ends
/// the walk; a token equal to the previous one fails; a new token continues.
pub fn next_continue_token(resource: &str, current: Option<&String>, raw_next: Option<String>) -> (r:
    Result<Option<String>, K8sError>)
    ensures
        match raw_next {
            None => r == Ok::<Option<String>, K8sError>(None::<String>),
            Some(t) => if t@.len() == 0 {
                r == Ok::<Option<String>, K8sError>(None::<String>)
            } else if (match current {
                Some(c) => c@ == t@,
                None => false,
            }) {
                r matches Err(K8sError::PaginationStuck { resource: res, token }) && res@
                    == resource@ && token@ == t@
            } else {
                r matches Ok(Some(next)) && next@ == t@
            },
        },
{
    let t = match raw_next {
        None => {
            return Ok(None);
        },
        Some(t) => t,
    };
    if t.as_str().is_empty() {
        return Ok(None);
    }
    let same = match current {
        Some(c) => crate::object::str_equal(c.as_str(), t.as_str()),
        None => false,
    };
    if same {
        return Err(K8sError::PaginationStuck { resource: String::from_str(resource), token: t });
    }
    Ok(Some(t))
}

/// The retry policy: attempt cap, backoff bounds, per-attempt timeout, all in
/// milliseconds.
#[derive(Clone, Copy, Debug, PartialEq)]
pub struct RetryPolicy {
    pub max_attempts: u64,
    pub initial_backoff_ms: u64,
    pub max_backoff_ms: u64,
    pub request_timeout_ms: u64,
}

/// The policy the lister and discovery share: three attempts, exponential
/// backoff from 100 ms capped at 400 ms, and a five-second attempt timeout.
pub fn default_retry_policy() -> (r: RetryPolicy)
    ensures
        r.max_attempts == 3,
        r.initial_backoff_ms == 100,
        r.max_backoff_ms == 400,
        r.request_timeout_ms == 5000,
{
    RetryPolicy { max_attempts: 3, initial_backoff_ms: 100, max_backoff_ms: 400, request_timeout_ms: 5000 }
}

/// The delay before the attempt after attempt `attempt`: the initial backoff
/// doubled per attempt, saturating, and never over the cap.
pub open spec fn spec_backoff(policy: &RetryPolicy, attempt: u64) -> u64 {
    let shift: u64 = if attempt <= 1 {
        0
    } else if attempt - 1 > 8 {
        8
    } else {
        (attempt - 1) as u64
    };
    let factor: u64 = 1u64 << shift;
    let raw: int = policy.initial_backoff_ms * factor;
    let sat: u64 = if raw > u64::MAX {
        u64::MAX
    } else {
        raw as u64
    };
    if sat > policy.max_backoff_ms {
        policy.max_backoff_ms
    } else {
        sat
    }
}

pub fn retry_backoff_for_attempt(policy: &RetryPolicy, attempt: u64) -> (r: u64)
    ensures
        r == spec_backoff(policy, attempt),
{
    let shift: u64 = if attempt <= 1 {
        0
    } else if attempt - 1 > 8 {
        8
    } else {
        attempt - 1
    };
    let factor: u64 = 1u64 << shift;
    proof {
        assert(factor >= 1 && factor <= 256) by (bit_vector)
            requires
                factor == 1u64 << shift && shift <= 8,
        ;
    }
    let sat: u64;
    if policy.initial_backoff_ms > u64::MAX / factor {
        sat = u64::MAX;
        proof {
            assert(policy.initial_backoff_ms * factor > u64::MAX) by (nonlinear_arith)
                requires
                    policy.initial_backoff_ms > u64::MAX / factor,
                    1 <= factor,
            ;
        }
    } else {
        proof {
            assert(policy.initial_backoff_ms * factor <= u64::MAX) by (nonlinear_arith)
                requires
                    policy.initial_backoff_ms <= u64::MAX / factor,
                    1 <= factor,
            ;
        }
        sat = policy.initial_backoff_ms * factor;
    }
    if sat > policy.max_backoff_ms {
        policy.max_backoff_ms
    } else {
        sat
    }
}

/// What one attempt of an outside call came back with: success, a transport
/// failure, or a per-attempt timeout.
#[derive(Debug, PartialEq)]
pub enum AttemptOutcome {
    Success,
    Failed(TransportError),
    TimedOut,
}

/// What the retry state machine decides after an attempt: run the next
/// attempt after a delay, or fail with the mapped error.
#[derive(Debug, PartialEq)]
pub enum RetryDecision {
    Done,
    Retry { delay_ms: u64 },
    Fail(K8sError),
}

/// The retry state machine for the list stage, one step per attempt: success
/// ends the loop; a retryable failure or a timeout under the attempt cap
/// waits out the backoff; exhaustion or a non-retryable failure maps the
/// error, wrapped in the retry report when any retry ran.
pub fn list_retry_step(
    resource: &str,
    had_selectors: bool,
    policy: &RetryPolicy,
    attempt: u64,
    outcome: &AttemptOutcome,
) -> (r: RetryDecision)
    requires
        attempt >= 1,
    ensures
        outcome is Success ==> r is Done,
        (outcome matches AttemptOutcome::Failed(e) && spec_is_retryable(e) && attempt
            < policy.max_attempts) ==> (r matches RetryDecision::Retry { delay_ms } && delay_ms
            == spec_backoff(policy, attempt)),
        (match outcome {
            AttemptOutcome::Failed(e) => (spec_is_retryable(e) && attempt >= policy.max_attempts)
                ==> (r matches RetryDecision::Fail(
                K8sError::RetryExhausted { stage, attempts, reason, final_error, .. },
            ) && stage@ == "list"@ && attempts == attempt && reason
                == RetryStopReason::RetryCapReached && final_error == spec_list_error_kind(
                e,
                had_selectors,
            )),
            _ => true,
        }),
        (match outcome {
            AttemptOutcome::Failed(e) => (!spec_is_retryable(e) && attempt > 1) ==> (
            r matches RetryDecision::Fail(
                K8sError::RetryExhausted { stage, attempts, reason, final_error, .. },
            ) && stage@ == "list"@ && attempts == attempt && reason
                == RetryStopReason::NonRetryable && final_error == spec_list_error_kind(
                e,
                had_selectors,
            )),
            _ => true,
        }),
        (match outcome {
            AttemptOutcome::Failed(e) => (!spec_is_retryable(e) && attempt == 1) ==> (
            r matches RetryDecision::Fail(mapped) && spec_mapped_list_error(
                resource@,
                had_selectors,
                e,
                &mapped,
            )),
            _ => true,
        }),
        (outcome is TimedOut && attempt < policy.max_attempts) ==> (
        r matches RetryDecision::Retry { delay_ms } && delay_ms == spec_backoff(policy, attempt)),
        (outcome is TimedOut && attempt >= policy.max_attempts) ==> (r matches RetryDecision::Fail(
            K8sError::RetryExhausted { stage, attempts, reason, final_error, .. },
        ) && stage@ == "list"@ && attempts == attempt && reason == RetryStopReason::RetryCapReached
            && final_error == RetryErrorKind::RequestTimeout),
{
    match outcome {
        AttemptOutcome::Success => RetryDecision::Done,
        AttemptOutcome::Failed(e) => {
            let retryable = is_retryable_transport_error(e);
            let mapped = map_list_error(resource, had_selectors, e);
            if retryable && attempt < policy.max_attempts {
                RetryDecision::Retry { delay_ms: retry_backoff_for_attempt(policy, attempt) }
            } else if retryable {
                let kind = retry_error_kind(&mapped);
                let detail = mapped.render();
                RetryDecision::Fail(K8sError::RetryExhausted {
                    stage: String::from_str("list"),
                    attempts: attempt,
                    reason: RetryStopReason::RetryCapReached,
                    final_error: kind,
                    detail,
                })
            } else if attempt > 1 {
                let kind = retry_error_kind(&mapped);
                let detail = mapped.render();
                RetryDecision::Fail(K8sError::RetryExhausted {
                    stage: String::from_str("list"),
                    attempts: attempt,
                    reason: RetryStopReason::NonRetryable,
                    final_error: kind,
                    detail,
                })
            } else {
                RetryDecision::Fail(mapped)
            }
        },
        AttemptOutcome::TimedOut => {
            if attempt < policy.max_attempts {
                RetryDecision::Retry { delay_ms: retry_backoff_for_attempt(policy, attempt) }
            } else {
                let timed = K8sError::RequestTimeout {
                    stage: String::from_str("list"),
                    timeout_ms: policy.request_timeout_ms,
                };
                let detail = timed.render();
                RetryDecision::Fail(K8sError::RetryExhausted {
                    stage: String::from_str("list"),
                    attempts: attempt,
                    reason: RetryStopReason::RetryCapReached,
                    final_error: RetryErrorKind::RequestTimeout,
                    detail,
                })
            }
        },
    }
}


/// Trims and lower-cases a resource plural.
pub fn normalize_resource(resource: &str) -> (r: String)
    ensures
        r@ == spec_lower(spec_trim(resource@)),
{
    let cs = chars_vec(resource);
    let trimmed = trim_chars(&cs);
    let lowered = lower_chars(&trimmed);
    string_from_chars(&lowered)
}

/// What discovery resolved a plural to, as plain values.
#[derive(Debug, PartialEq)]
pub struct ApiResourceInfo {
    pub group: String,
    pub version: String,
    pub kind: String,
    pub plural: String,
}

pub open spec fn info_view(i: &ApiResourceInfo) -> (Seq<char>, Seq<char>, Seq<char>, Seq<char>) {
    (i.group@, i.version@, i.kind@, i.plural@)
}

impl ApiResourceInfo {
    /// A copy with the same fields.
    pub fn duplicate(&self) -> (r: Self)
        ensures
            info_view(&r) == info_view(self),
    {
        ApiResourceInfo {
            group: clone_string(&self.group),
            version: clone_string(&self.version),
            kind: clone_string(&self.kind),
            plural: clone_string(&self.plural),
        }
    }
}

/// The key of one discovery cache entry: cluster, namespace, and the
/// normalized resource.
#[derive(Debug, PartialEq)]
pub struct DiscoveryCacheKey {
    pub cluster_identity: String,
    pub namespace: String,
    pub resource: String,
}

impl DiscoveryCacheKey {
    /// Builds a key, normalizing the resource segment.
    pub fn new(cluster_identity: String, namespace: String, resource: &str) -> (r: Self)
        ensures
            r.cluster_identity@ == cluster_identity@,
            r.namespace@ == namespace@,
            r.resource@ == spec_lower(spec_trim(resource@)),
    {
        DiscoveryCacheKey { cluster_identity, namespace, resource: normalize_resource(resource) }
    }

    /// A copy with the same fields.
    pub fn duplicate(&self) -> (r: Self)
        ensures
            key_view(&r) == key_view(self),
    {
        DiscoveryCacheKey {
            cluster_identity: clone_string(&self.cluster_identity),
            namespace: clone_string(&self.namespace),
            resource: clone_string(&self.resource),
        }
    }
}

pub open spec fn key_view(k: &DiscoveryCacheKey) -> (Seq<char>, Seq<char>, Seq<char>) {
    (k.cluster_identity@, k.namespace@, k.resource@)
}

/// Whether two keys name the same cache slot.
pub fn key_equal(a: &DiscoveryCacheKey, b: &DiscoveryCacheKey) -> (r: bool)
    ensures
        r == (key_view(a) == key_view(b)),
{
    let c1 = crate::object::str_equal(a.cluster_identity.as_str(), b.cluster_identity.as_str());
    let c2 = crate::object::str_equal(a.namespace.as_str(), b.namespace.as_str());
    let c3 = crate::object::str_equal(a.resource.as_str(), b.resource.as_str());
    c1 && c2 && c3
}

/// The first cached entry under the key.
pub open spec fn spec_cache_find(
    s: Seq<(DiscoveryCacheKey, ApiResourceInfo, u64)>,
    k: &DiscoveryCacheKey,
) -> Option<(DiscoveryCacheKey, ApiResourceInfo, u64)>
    decreases s.len(),
{
    if s.len() == 0 {
        None
    } else if key_view(&s[0].0) == key_view(k) {
        Some(s[0])
    } else {
        spec_cache_find(s.drop_first(), k)
    }
}

/// The entries with the first match under the key removed.
pub open spec fn spec_cache_remove(
    s: Seq<(DiscoveryCacheKey, ApiResourceInfo, u64)>,
    k: &DiscoveryCacheKey,
) -> Seq<(DiscoveryCacheKey, ApiResourceInfo, u64)>
    decreases s.len(),
{
    if s.len() == 0 {
        Seq::empty()
    } else if key_view(&s[0].0) == key_view(k) {
        s.drop_first()
    } else {
        seq![s[0]] + spec_cache_remove(s.drop_first(), k)
    }
}

/// The in-process discovery cache: resolved resources with their expiry, in
/// milliseconds of some monotonic clock the caller supplies.
#[derive(Debug)]
pub struct DiscoveryCache {
    entries: Vec<(DiscoveryCacheKey, ApiResourceInfo, u64)>,
}

impl DiscoveryCache {
    pub closed spec fn entries_seq(&self) -> Seq<(DiscoveryCacheKey, ApiResourceInfo, u64)> {
        self.entries@
    }

    /// An empty cache.
    pub fn new() -> (r: Self)
        ensures
            r.entries_seq() == Seq::<(DiscoveryCacheKey, ApiResourceInfo, u64)>::empty(),
    {
        let r = DiscoveryCache { entries: Vec::new() };
        proof {
            assert(r.entries_seq() =~= Seq::<(DiscoveryCacheKey, ApiResourceInfo, u64)>::empty());
        }
        r
    }

    /// Looks the key up at time `now_ms`: a fresh entry is returned; an
    /// expired one is dropped and counts as a miss.
    pub fn lookup(&mut self, key: &DiscoveryCacheKey, now_ms: u64) -> (r: Option<ApiResourceInfo>)
        ensures
            (match spec_cache_find(old(self).entries_seq(), key) {
                Some(entry) => {
                    &&& now_ms <= entry.2 ==> {
                        &&& (r matches Some(info) && info_view(&info) == info_view(&entry.1))
                        &&& final(self).entries_seq() == old(self).entries_seq()
                    }
                    &&& now_ms > entry.2 ==> {
                        &&& r is None
                        &&& final(self).entries_seq() == spec_cache_remove(old(self).entries_seq(), key)
                    }
                },
                None => r is None && final(self).entries_seq() == old(self).entries_seq(),
            }),
    {
        let ghost orig = self.entries@;
        proof {
            assert(orig.skip(0) =~= orig);
        }
        let mut i: usize = 0;
        while i < self.entries.len()
            invariant
                i <= self.entries@.len(),
                self.entries@ == orig,
                orig == old(self).entries_seq(),
                spec_cache_find(orig, key) == spec_cache_find(orig.skip(i as int), key),
                spec_cache_remove(orig, key) =~= orig.take(i as int) + spec_cache_remove(
                    orig.skip(i as int),
                    key,
                ),
                forall|j: int| 0 <= j < i ==> key_view(&#[trigger] orig[j].0) != key_view(key),
            decreases self.entries@.len() - i,
        {
            proof {
                assert(orig.skip(i as int)[0] == orig[i as int]);
                assert(orig.skip(i as int).drop_first() =~= orig.skip(i + 1));
            }
            if key_equal(&self.entries[i].0, key) {
                if now_ms <= self.entries[i].2 {
                    return Some(self.entries[i].1.duplicate());
                }
                proof {
                    assert(spec_cache_remove(orig.skip(i as int), key) =~= orig.skip(i + 1));
                }
                let ghost pre = self.entries@;
                self.entries.remove(i);
                proof {
                    assert(self.entries@ =~= orig.take(i as int) + orig.skip(i + 1));
                    assert(self.entries@ =~= spec_cache_remove(orig, key));
                }
                return None;
            }
            proof {
                assert(orig.take(i + 1) =~= orig.take(i as int).push(orig[i as int]));
                assert(orig.take(i as int).push(orig[i as int]) + spec_cache_remove(
                    orig.skip(i + 1),
                    key,
                ) =~= orig.take(i as int) + (seq![orig[i as int]] + spec_cache_remove(
                    orig.skip(i + 1),
                    key,
                )));
            }
            i = i + 1;
        }
        proof {
            assert(orig.skip(i as int) =~= Seq::<(DiscoveryCacheKey, ApiResourceInfo, u64)>::empty());
        }
        None
    }

    /// Stores a resolution under the key, replacing what the key held.
    pub fn insert(&mut self, key: DiscoveryCacheKey, info: ApiResourceInfo, expires_at_ms: u64)
        ensures
            final(self).entries_seq() == spec_cache_remove(old(self).entries_seq(), &key).push(
                (key, info, expires_at_ms),
            ),
    {
        self.remove_entry(&key);
        let ghost mid = self.entries@;
        self.entries.push((key, info, expires_at_ms));
        proof {
            assert(self.entries@ =~= mid.push(
                (self.entries@.last().0, self.entries@.last().1, self.entries@.last().2),
            ));
        }
    }

    /// Drops the key's entry, if any.
    pub fn invalidate(&mut self, key: &DiscoveryCacheKey)
        ensures
            final(self).entries_seq() == spec_cache_remove(old(self).entries_seq(), key),
    {
        self.remove_entry(key);
    }

    fn remove_entry(&mut self, key: &DiscoveryCacheKey)
        ensures
            final(self).entries_seq() == spec_cache_remove(old(self).entries_seq(), key),
    {
        let ghost orig = self.entries@;
        proof {
            assert(orig.skip(0) =~= orig);
        }
        let mut i: usize = 0;
        while i < self.entries.len()
            invariant
                i <= self.entries@.len(),
                self.entries@ == orig,
                orig == old(self).entries_seq(),
                spec_cache_remove(orig, key) =~= orig.take(i as int) + spec_cache_remove(
                    orig.skip(i as int),
                    key,
                ),
            decreases self.entries@.len() - i,
        {
            proof {
                assert(orig.skip(i as int)[0] == orig[i as int]);
                assert(orig.skip(i as int).drop_first() =~= orig.skip(i + 1));
            }
            if key_equal(&self.entries[i].0, key) {
                proof {
                    assert(spec_cache_remove(orig.skip(i as int), key) =~= orig.skip(i + 1));
                }
                self.entries.remove(i);
                proof {
                    assert(self.entries@ =~= orig.take(i as int) + orig.skip(i + 1));
                    assert(self.entries@ =~= spec_cache_remove(orig, key));
                }
                return;
            }
            proof {
                assert(orig.take(i + 1) =~= orig.take(i as int).push(orig[i as int]));
                assert(orig.take(i as int).push(orig[i as int]) + spec_cache_remove(
                    orig.skip(i + 1),
                    key,
                ) =~= orig.take(i as int) + (seq![orig[i as int]] + spec_cache_remove(
                    orig.skip(i + 1),
                    key,
                )));
            }
            i = i + 1;
        }
        proof {
            assert(orig.skip(i as int) =~= Seq::<(DiscoveryCacheKey, ApiResourceInfo, u64)>::empty());
            assert(spec_cache_remove(orig, key) =~= orig.take(i as int));
            assert(orig.take(i as int) =~= orig);
        }
    }
}


/// How a paginated walk over given pages ends: the total count and page
/// count on completion, the cap being hit, or a repeated continue token.
pub ghost enum PagedEnd {
    Done { total: int, pages_walked: int },
    Exceeded,
    Stuck { token: Seq<char> },
}

/// The walk over a recorded sequence of pages, each a count with the continue
/// token the server returned: counts accumulate page by page; an absent or
/// empty token ends the walk; a repeated token or the page cap stops it.
/// Pages past the recording count as empty and final.
pub open spec fn spec_paged(
    pages: Seq<(u64, Option<String>)>,
    i: int,
    prev: Option<Seq<char>>,
    pages_walked: int,
    total: int,
) -> PagedEnd
    decreases pages.len() - i,
    when 0 <= i <= pages.len()
{
    if pages_walked + 1 > MAX_LIST_PAGES {
        PagedEnd::Exceeded
    } else if i >= pages.len() {
        PagedEnd::Done { total: total, pages_walked: pages_walked + 1 }
    } else {
        let total2 = total + pages[i].0;
        match pages[i].1 {
            None => PagedEnd::Done { total: total2, pages_walked: pages_walked + 1 },
            Some(t) => if t@.len() == 0 {
                PagedEnd::Done { total: total2, pages_walked: pages_walked + 1 }
            } else if prev == Some(t@) {
                PagedEnd::Stuck { token: t@ }
            } else {
                spec_paged(pages, i + 1, Some(t@), pages_walked + 1, total2)
            },
        }
    }
}

/// Walks a recorded sequence of pages through the pagination guards, as the
/// lister walks live pages: the total over the walked pages accumulates, the
/// page cap and the non-progress guard fail exactly as they would live.
pub fn run_paged_mock(resource: &str, pages: &Vec<(u64, Option<String>)>) -> (r: Result<
    (u64, u64),
    K8sError,
>)
    requires
        pages@.len() < 0x1_0000_0000,
        forall|j: int| #![trigger pages@[j]] 0 <= j < pages@.len() ==> pages@[j].0 < 0x1_0000_0000,
    ensures
        match r {
            Ok((total, pages_walked)) => spec_paged(pages@, 0, None::<Seq<char>>, 0, 0) == (
            PagedEnd::Done { total: total as int, pages_walked: pages_walked as int }),
            Err(e) => match e {
                K8sError::PaginationExceeded { .. } => spec_paged(pages@, 0, None::<Seq<char>>, 0, 0)
                    is Exceeded,
                K8sError::PaginationStuck { token, .. } => spec_paged(
                    pages@,
                    0,
                    None::<Seq<char>>,
                    0,
                    0,
                ) == (PagedEnd::Stuck { token: token@ }),
                _ => false,
            },
        },
{
    let mut total: u64 = 0;
    let mut pages_walked: u64 = 0;
    let mut token: Option<String> = None;
    let mut i: usize = 0;
    loop
        invariant
            i <= pages@.len(),
            pages@.len() < 0x1_0000_0000,
            forall|j: int|
                #![trigger pages@[j]]
                0 <= j < pages@.len() ==> pages@[j].0 < 0x1_0000_0000,
            pages_walked == i,
            total < 0x1_0000_0000_0000_0000,
            total <= 0x1_0000_0000 * i,
            spec_paged(pages@, 0, None::<Seq<char>>, 0, 0) == spec_paged(
                pages@,
                i as int,
                (match token {
                    Some(ref t) => Some(t@),
                    None => None,
                }),
                pages_walked as int,
                total as int,
            ),
        decreases pages@.len() - i,
    {
        match ensure_page_limit(resource, pages_walked + 1) {
            Ok(()) => {
            },
            Err(e) => {
                return Err(e);
            },
        }
        if i >= pages.len() {
            return Ok((total, pages_walked + 1));
        }
        let count = pages[i].0;
        let raw_next: Option<String> = match &pages[i].1 {
            Some(t) => Some(clone_string(t)),
            None => None,
        };
        proof {
            assert(total + count < 0x1_0000_0000 * (i + 1) + 0x1_0000_0000) by (nonlinear_arith)
                requires
                    total <= 0x1_0000_0000 * i,
                    count < 0x1_0000_0000,
            ;
            assert(0x1_0000_0000 * (i + 1) + 0x1_0000_0000 <= 0x1_0000_0000_0000_0000) by (nonlinear_arith)
                requires
                    i + 2 <= 0x1_0000_0000,
            ;
        }
        total = total + count;
        match next_continue_token(resource, token.as_ref(), raw_next) {
            Ok(next) => {
                match next {
                    None => {
                        return Ok((total, pages_walked + 1));
                    },
                    Some(t) => {
                        token = Some(t);
                    },
                }
            },
            Err(e) => {
                return Err(e);
            },
        }
        pages_walked = pages_walked + 1;
        i = i + 1;
        proof {
            assert(total <= 0x1_0000_0000 * i) by (nonlinear_arith)
                requires
                    total <= 0x1_0000_0000 * (i - 1) + 0x1_0000_0000,
            ;
        }
    }
}



/// Whether `mapped` is the error the discovery classification of `e` calls
/// for.
pub open spec fn spec_mapped_discovery_error(e: &TransportError, mapped: &K8sError) -> bool {
    match spec_classify_list_error(e, false) {
        ListErrorClass::ApiUnreachable => mapped matches K8sError::ApiUnreachable {
            stage,
            detail,
        } && stage@ == "discovery"@ && detail@ == spec_transport_detail(e),
        _ => mapped matches K8sError::DiscoveryRun { detail } && detail@ == spec_transport_detail(
            e,
        ),
    }
}

/// The retry state machine for the discovery stage, one step per attempt:
/// the same policy as the list stage, with failures mapped through the
/// discovery classification.
pub fn discovery_retry_step(policy: &RetryPolicy, attempt: u64, outcome: &AttemptOutcome) -> (r:
    RetryDecision)
    requires
        attempt >= 1,
    ensures
        outcome is Success ==> r is Done,
        (outcome matches AttemptOutcome::Failed(e) && spec_is_retryable(e) && attempt
            < policy.max_attempts) ==> (r matches RetryDecision::Retry { delay_ms } && delay_ms
            == spec_backoff(policy, attempt)),
        (match outcome {
            AttemptOutcome::Failed(e) => (spec_is_retryable(e) && attempt >= policy.max_attempts)
                ==> (r matches RetryDecision::Fail(
                K8sError::RetryExhausted { stage, attempts, reason, final_error, .. },
            ) && stage@ == "discovery"@ && attempts == attempt && reason
                == RetryStopReason::RetryCapReached && final_error == spec_discovery_error_kind(e)),
            _ => true,
        }),
        (match outcome {
            AttemptOutcome::Failed(e) => (!spec_is_retryable(e) && attempt > 1) ==> (
            r matches RetryDecision::Fail(
                K8sError::RetryExhausted { stage, attempts, reason, final_error, .. },
            ) && stage@ == "discovery"@ && attempts == attempt && reason
                == RetryStopReason::NonRetryable && final_error == spec_discovery_error_kind(e)),
            _ => true,
        }),
        (match outcome {
            AttemptOutcome::Failed(e) => (!spec_is_retryable(e) && attempt == 1) ==> (
            r matches RetryDecision::Fail(mapped) && spec_mapped_discovery_error(e, &mapped)),
            _ => true,
        }),
        (outcome is TimedOut && attempt < policy.max_attempts) ==> (
        r matches RetryDecision::Retry { delay_ms } && delay_ms == spec_backoff(policy, attempt)),
        (outcome is TimedOut && attempt >= policy.max_attempts) ==> (r matches RetryDecision::Fail(
            K8sError::RetryExhausted { stage, attempts, reason, final_error, .. },
        ) && stage@ == "discovery"@ && attempts == attempt && reason
            == RetryStopReason::RetryCapReached && final_error == RetryErrorKind::RequestTimeout),
{
    match outcome {
        AttemptOutcome::Success => RetryDecision::Done,
        AttemptOutcome::Failed(e) => {
            let retryable = is_retryable_transport_error(e);
            let mapped = map_discovery_error(e);
            if retryable && attempt < policy.max_attempts {
                RetryDecision::Retry { delay_ms: retry_backoff_for_attempt(policy, attempt) }
            } else if retryable {
                let kind = retry_error_kind(&mapped);
                let detail = mapped.render();
                RetryDecision::Fail(K8sError::RetryExhausted {
                    stage: String::from_str("discovery"),
                    attempts: attempt,
                    reason: RetryStopReason::RetryCapReached,
                    final_error: kind,
                    detail,
                })
            } else if attempt > 1 {
                let kind = retry_error_kind(&mapped);
                let detail = mapped.render();
                RetryDecision::Fail(K8sError::RetryExhausted {
                    stage: String::from_str("discovery"),
                    attempts: attempt,
                    reason: RetryStopReason::NonRetryable,
                    final_error: kind,
                    detail,
                })
            } else {
                RetryDecision::Fail(mapped)
            }
        },
        AttemptOutcome::TimedOut => {
            if attempt < policy.max_attempts {
                RetryDecision::Retry { delay_ms: retry_backoff_for_attempt(policy, attempt) }
            } else {
                let timed = K8sError::RequestTimeout {
                    stage: String::from_str("discovery"),
                    timeout_ms: policy.request_timeout_ms,
                };
                let detail = timed.render();
                RetryDecision::Fail(K8sError::RetryExhausted {
                    stage: String::from_str("discovery"),
                    attempts: attempt,
                    reason: RetryStopReason::RetryCapReached,
                    final_error: RetryErrorKind::RequestTimeout,
                    detail,
                })
            }
        },
    }
}

/// Replays recorded attempt outcomes through the retry state machine, as the
/// lister replays live attempts: outcomes past the recording count as
/// timeouts. Success always comes within the policy's attempt cap.
pub fn run_retry_mock(
    resource: &str,
    had_selectors: bool,
    policy: &RetryPolicy,
    outcomes: &Vec<AttemptOutcome>,
) -> (r: Result<u64, K8sError>)
    requires
        policy.max_attempts >= 1,
    ensures
        (r matches Ok(n) ==> 1 <= n && n <= policy.max_attempts && n - 1 < outcomes@.len()
            && outcomes@[n - 1] is Success),
        (r matches Err(_) ==> !(outcomes@.len() > 0 && outcomes@[0] is Success)),
{
    let mut attempt: u64 = 1;
    loop
        invariant
            1 <= attempt <= policy.max_attempts,
            attempt > 1 ==> (outcomes@.len() > 0 ==> !(outcomes@[0] is Success)),
        decreases policy.max_attempts - attempt,
    {
        let fallback = AttemptOutcome::TimedOut;
        let outcome: &AttemptOutcome = if attempt - 1 < outcomes.len() as u64 {
            &outcomes[(attempt - 1) as usize]
        } else {
            &fallback
        };
        if matches!(outcome, AttemptOutcome::Success) {
            return Ok(attempt);
        }
        match list_retry_step(resource, had_selectors, policy, attempt, outcome) {
            RetryDecision::Done => {
                return Ok(attempt);
            },
            RetryDecision::Retry { delay_ms: _ } => {
                if attempt >= policy.max_attempts {
                    return Err(K8sError::RequestTimeout {
                        stage: String::from_str("list"),
                        timeout_ms: policy.request_timeout_ms,
                    });
                }
                attempt = attempt + 1;
            },
            RetryDecision::Fail(e) => {
                return Err(e);
            },
        }
    }
}

} // verus!
