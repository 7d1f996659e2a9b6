//! The error taxonomy: tagged variants with the source detail carried as
//! text, and the rendering that the command line prints, tips included.

use vstd::prelude::*;

use crate::num::nat_chars;
use crate::text::string_from_chars;

verus! {

/// An engine failure, as specifications see it.
pub ghost enum EngineErrVal {
    InvalidAggregation { function: Seq<char>, path: Seq<char>, expected: Seq<char>, actual: Seq<char> },
    IncompatibleAggregationTypes {
        function: Seq<char>,
        path: Seq<char>,
        left: Seq<char>,
        right: Seq<char>,
    },
}

/// A failure inside the evaluator's aggregations.
#[derive(Debug, PartialEq)]
pub enum EngineError {
    InvalidAggregation { function: String, path: String, expected: String, actual: String },
    IncompatibleAggregationTypes { function: String, path: String, left: String, right: String },
}

impl View for EngineError {
    type V = EngineErrVal;

    open spec fn view(&self) -> EngineErrVal {
        match self {
            EngineError::InvalidAggregation { function, path, expected, actual } =>
                EngineErrVal::InvalidAggregation {
                function: function@,
                path: path@,
                expected: expected@,
                actual: actual@,
            },
            EngineError::IncompatibleAggregationTypes { function, path, left, right } =>
                EngineErrVal::IncompatibleAggregationTypes {
                function: function@,
                path: path@,
                left: left@,
                right: right@,
            },
        }
    }
}

/// Why a retry loop stopped.
#[derive(Clone, Copy, Debug, PartialEq, Eq, Structural)]
pub enum RetryStopReason {
    RetryCapReached,
    NonRetryable,
}

/// The kind of the final error a retry loop saw.
#[derive(Clone, Copy, Debug, PartialEq, Eq, Structural)]
pub enum RetryErrorKind {
    ApiUnreachable,
    RequestTimeout,
    SelectorRejected,
    ResourceResolutionStale,
    ListFailed,
    DiscoveryRun,
    Other,
}

/// A failure while talking to the cluster. The source error's text travels in
/// `detail` so the chain can be rendered.
#[derive(Debug, PartialEq)]
pub enum K8sError {
    EmptyResourceName,
    RuntimeInit { detail: String },
    ConfigInfer { detail: String },
    ClientBuild { detail: String },
    DiscoveryRun { detail: String },
    ApiUnreachable { stage: String, detail: String },
    ResourceNotFound { resource: String },
    ListFailed { resource: String, detail: String },
    SelectorRejected { resource: String, detail: String },
    ResourceResolutionStale { resource: String, detail: String },
    PaginationExceeded { resource: String, max_pages: u64 },
    PaginationStuck { resource: String, token: String },
    RequestTimeout { stage: String, timeout_ms: u64 },
    RetryExhausted {
        stage: String,
        attempts: u64,
        reason: RetryStopReason,
        final_error: RetryErrorKind,
        detail: String,
    },
}

/// A failure while rendering output.
#[derive(Debug, PartialEq)]
pub enum OutputError {
    JsonSerialize { detail: String },
    YamlSerialize { detail: String },
}

/// The error the command line surfaces.
#[derive(Debug, PartialEq)]
pub enum CliError {
    InvalidArgs(String),
    Parse(String),
    Engine(EngineError),
    K8s(K8sError),
    Output(OutputError),
}

/// A growing message buffer.
struct Msg {
    text: String,
}

impl Msg {
    fn new() -> (r: Self)
        ensures
            r.text@ == Seq::<char>::empty(),
    {
        Msg { text: String::new() }
    }

    fn lit(&mut self, piece: &str)
        ensures
            final(self).text@ == old(self).text@ + piece@,
    {
        self.text.append(piece);
    }

    fn num(&mut self, n: u64)
        ensures
            final(self).text@ == old(self).text@ + nat_chars(n as nat),
    {
        let mut cs: Vec<char> = Vec::new();
        crate::num::push_u128_chars(n as u128, &mut cs);
        let s = string_from_chars(&cs);
        self.text.append(s.as_str());
    }
}

/// The message of an engine error.
pub open spec fn spec_engine_message(e: EngineErrVal) -> Seq<char> {
    match e {
        EngineErrVal::InvalidAggregation { function, path, expected, actual } => "aggregation `"@
            + function + "` expects "@ + expected + " at path `"@ + path + "`, got "@ + actual,
        EngineErrVal::IncompatibleAggregationTypes { function, path, left, right } =>
            "aggregation `"@ + function + "` cannot compare mixed types at path `"@ + path + "`: "@
            + left + " vs "@ + right,
    }
}

impl EngineError {
    /// Renders the failure for the terminal.
    pub fn render(&self) -> (r: String)
        ensures
            r@ == spec_engine_message(self@),
    {
        let mut m = Msg::new();
        match self {
            EngineError::InvalidAggregation { function, path, expected, actual } => {
                m.lit("aggregation `");
                m.lit(function.as_str());
                m.lit("` expects ");
                m.lit(expected.as_str());
                m.lit(" at path `");
                m.lit(path.as_str());
                m.lit("`, got ");
                m.lit(actual.as_str());
            },
            EngineError::IncompatibleAggregationTypes { function, path, left, right } => {
                m.lit("aggregation `");
                m.lit(function.as_str());
                m.lit("` cannot compare mixed types at path `");
                m.lit(path.as_str());
                m.lit("`: ");
                m.lit(left.as_str());
                m.lit(" vs ");
                m.lit(right.as_str());
            },
        }
        m.text
    }
}

/// The message each cluster failure renders as.
pub open spec fn spec_k8s_message(e: &K8sError) -> Seq<char> {
    match e {
        K8sError::EmptyResourceName => "resource name is empty"@,
        K8sError::RuntimeInit { detail } => "failed to init async runtime: "@ + detail@,
        K8sError::ConfigInfer { detail } => "failed to infer kube config: "@ + detail@,
        K8sError::ClientBuild { detail } => "failed to build kube client: "@ + detail@,
        K8sError::DiscoveryRun { detail } => "discovery failed: "@ + detail@,
        K8sError::ApiUnreachable { stage, detail } => "kubernetes api is unreachable during "@
            + stage@ + ": "@ + detail@,
        K8sError::ResourceNotFound { resource } => "resource '"@ + resource@
            + "' was not found via discovery"@,
        K8sError::ListFailed { resource, detail } => "failed to list resource '"@ + resource@
            + "': "@ + detail@,
        K8sError::SelectorRejected { resource, detail } =>
            "server rejected selectors for resource '"@ + resource@ + "': "@ + detail@,
        K8sError::ResourceResolutionStale { resource, detail } => "resource resolution for '"@
            + resource@ + "' went stale: "@ + detail@,
        K8sError::PaginationExceeded { resource, max_pages } => "pagination for resource '"@
            + resource@ + "' exceeded max pages ("@ + nat_chars(*max_pages as nat) + ")"@,
        K8sError::PaginationStuck { resource, token } => "pagination for resource '"@ + resource@
            + "' got stuck on continue token '"@ + token@ + "'"@,
        K8sError::RequestTimeout { stage, timeout_ms } => "request during "@ + stage@
            + " timed out after "@ + nat_chars(*timeout_ms as nat) + " ms"@,
        K8sError::RetryExhausted { stage, attempts, reason, detail, .. } => "retries for "@
            + stage@ + " gave up after "@ + nat_chars(*attempts as nat) + (match reason {
            RetryStopReason::RetryCapReached => " attempts (retry cap reached): "@,
            RetryStopReason::NonRetryable => " attempts (final error not retryable): "@,
        }) + detail@,
    }
}

impl K8sError {
    /// Renders the failure for the terminal, source detail included.
    pub fn render(&self) -> (r: String)
        ensures
            r@ == spec_k8s_message(self),
    {
        let mut m = Msg::new();
        match self {
            K8sError::EmptyResourceName => {
                m.lit("resource name is empty");
            },
            K8sError::RuntimeInit { detail } => {
                m.lit("failed to init async runtime: ");
                m.lit(detail.as_str());
            },
            K8sError::ConfigInfer { detail } => {
                m.lit("failed to infer kube config: ");
                m.lit(detail.as_str());
            },
            K8sError::ClientBuild { detail } => {
                m.lit("failed to build kube client: ");
                m.lit(detail.as_str());
            },
            K8sError::DiscoveryRun { detail } => {
                m.lit("discovery failed: ");
                m.lit(detail.as_str());
            },
            K8sError::ApiUnreachable { stage, detail } => {
                m.lit("kubernetes api is unreachable during ");
                m.lit(stage.as_str());
                m.lit(": ");
                m.lit(detail.as_str());
            },
            K8sError::ResourceNotFound { resource } => {
                m.lit("resource '");
                m.lit(resource.as_str());
                m.lit("' was not found via discovery");
            },
            K8sError::ListFailed { resource, detail } => {
                m.lit("failed to list resource '");
                m.lit(resource.as_str());
                m.lit("': ");
                m.lit(detail.as_str());
            },
            K8sError::SelectorRejected { resource, detail } => {
                m.lit("server rejected selectors for resource '");
                m.lit(resource.as_str());
                m.lit("': ");
                m.lit(detail.as_str());
            },
            K8sError::ResourceResolutionStale { resource, detail } => {
                m.lit("resource resolution for '");
                m.lit(resource.as_str());
                m.lit("' went stale: ");
                m.lit(detail.as_str());
            },
            K8sError::PaginationExceeded { resource, max_pages } => {
                m.lit("pagination for resource '");
                m.lit(resource.as_str());
                m.lit("' exceeded max pages (");
                m.num(*max_pages);
                m.lit(")");
            },
            K8sError::PaginationStuck { resource, token } => {
                m.lit("pagination for resource '");
                m.lit(resource.as_str());
                m.lit("' got stuck on continue token '");
                m.lit(token.as_str());
                m.lit("'");
            },
            K8sError::RequestTimeout { stage, timeout_ms } => {
                m.lit("request during ");
                m.lit(stage.as_str());
                m.lit(" timed out after ");
                m.num(*timeout_ms);
                m.lit(" ms");
            },
            K8sError::RetryExhausted { stage, attempts, reason, final_error: _, detail } => {
                m.lit("retries for ");
                m.lit(stage.as_str());
                m.lit(" gave up after ");
                m.num(*attempts);
                match reason {
                    RetryStopReason::RetryCapReached => {
                        m.lit(" attempts (retry cap reached): ");
                    },
                    RetryStopReason::NonRetryable => {
                        m.lit(" attempts (final error not retryable): ");
                    },
                }
                m.lit(detail.as_str());
            },
        }
        m.text
    }
}

/// The message each output failure renders as.
pub open spec fn spec_output_message(e: &OutputError) -> Seq<char> {
    match e {
        OutputError::JsonSerialize { detail } => "failed to serialize json output: "@ + detail@,
        OutputError::YamlSerialize { detail } => "failed to serialize yaml output: "@ + detail@,
    }
}

impl OutputError {
    /// Renders the failure for the terminal.
    pub fn render(&self) -> (r: String)
        ensures
            r@ == spec_output_message(self),
    {
        let mut m = Msg::new();
        match self {
            OutputError::JsonSerialize { detail } => {
                m.lit("failed to serialize json output: ");
                m.lit(detail.as_str());
            },
            OutputError::YamlSerialize { detail } => {
                m.lit("failed to serialize yaml output: ");
                m.lit(detail.as_str());
            },
        }
        m.text
    }
}

/// The tip printed under each cluster error: a discovery hint for an unknown
/// plural, connectivity commands for an unreachable API, the fallback note
/// for rejected selectors, and a generic access check otherwise.
pub open spec fn spec_k8s_tip(error: &K8sError) -> Seq<char> {
    match error {
        K8sError::ResourceNotFound { .. } =>
            "Tip: resource was not found. Check plural name via:\n  kubectl api-resources"@,
        K8sError::ApiUnreachable { .. } =>
            "Tip: Kubernetes API is unreachable. Check context/cluster:\n  kubectl config current-context\n  kubectl cluster-info"@,
        K8sError::SelectorRejected { .. } =>
            "Tip: API server rejected selectors; kubiq can retry without selectors and continue with client-side filtering."@,
        _ => "Tip: verify cluster access with `kubectl get ns` and then retry."@,
    }
}

pub fn k8s_tip(error: &K8sError) -> (r: &'static str)
    ensures
        r@ == spec_k8s_tip(error),
{
    match error {
        K8sError::ResourceNotFound { .. } => {
            "Tip: resource was not found. Check plural name via:\n  kubectl api-resources"
        },
        K8sError::ApiUnreachable { .. } => {
            "Tip: Kubernetes API is unreachable. Check context/cluster:\n  kubectl config current-context\n  kubectl cluster-info"
        },
        K8sError::SelectorRejected { .. } => {
            "Tip: API server rejected selectors; kubiq can retry without selectors and continue with client-side filtering."
        },
        _ => "Tip: verify cluster access with `kubectl get ns` and then retry.",
    }
}

/// The full message the command line prints: the category, the failure, and
/// its tip.
pub open spec fn spec_cli_message(e: &CliError) -> Seq<char> {
    match e {
        CliError::InvalidArgs(detail) => "invalid args: "@ + detail@
            + "\n\nTip: run `kubiq --help` to see usage and examples."@,
        CliError::Parse(detail) => "parse error: "@ + detail@
            + "\n\nTip: query format is `<resource> where <predicates> [order by <path> [asc|desc]] [select <paths>|<aggregations>]`.\nExample: `kubiq pods where metadata.namespace == demo-a order by metadata.name desc select metadata.name`\nAggregation example: `kubiq pods where metadata.namespace == demo-a select count(*)`"@,
        CliError::Engine(error) => "engine error: "@ + spec_engine_message(error@),
        CliError::K8s(error) => "k8s error: "@ + spec_k8s_message(error) + "\n\n"@ + spec_k8s_tip(
            error,
        ),
        CliError::Output(error) => "output error: "@ + spec_output_message(error)
            + "\n\nTip: supported formats are `table`, `json`, `yaml`."@,
    }
}

impl CliError {
    /// Renders the failure with its tip, as the command line prints it.
    pub fn render(&self) -> (r: String)
        ensures
            r@ == spec_cli_message(self),
    {
        let mut m = Msg::new();
        match self {
            CliError::InvalidArgs(detail) => {
                m.lit("invalid args: ");
                m.lit(detail.as_str());
                m.lit("\n\nTip: run `kubiq --help` to see usage and examples.");
            },
            CliError::Parse(detail) => {
                m.lit("parse error: ");
                m.lit(detail.as_str());
                m.lit(
                    "\n\nTip: query format is `<resource> where <predicates> [order by <path> [asc|desc]] [select <paths>|<aggregations>]`.\nExample: `kubiq pods where metadata.namespace == demo-a order by metadata.name desc select metadata.name`\nAggregation example: `kubiq pods where metadata.namespace == demo-a select count(*)`",
                );
            },
            CliError::Engine(error) => {
                m.lit("engine error: ");
                let rendered = error.render();
                m.lit(rendered.as_str());
            },
            CliError::K8s(error) => {
                m.lit("k8s error: ");
                let rendered = error.render();
                m.lit(rendered.as_str());
                m.lit("\n\n");
                m.lit(k8s_tip(error));
            },
            CliError::Output(error) => {
                m.lit("output error: ");
                let rendered = error.render();
                m.lit(rendered.as_str());
                m.lit("\n\nTip: supported formats are `table`, `json`, `yaml`.");
            },
        }
        m.text
    }
}

} // verus!
