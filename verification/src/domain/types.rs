//! The configuration model of the gateway: upstream endpoints, model
//! descriptors, race groups with their candidates, key pools and settings.
//!
//! Floating-point configuration values (candidate weights and the group's
//! scheduling ratios) are carried as their IEEE-754 bit patterns; no logic of
//! this crate interprets them.
use vstd::prelude::*;

verus! {

/// The wire protocol an upstream endpoint speaks.
#[derive(Debug, Clone, Copy, PartialEq, Eq, Structural)]
pub enum ProtocolFamily {
    OpenAi,
    Anthropic,
    Google,
}

/// How the selected key is attached to an upstream request.
#[derive(Debug, PartialEq, Eq)]
pub enum AuthStrategy {
    Bearer,
    HeaderApiKey { header_name: String },
    QueryApiKey { parameter_name: String },
}

/// How a key is picked out of a key pool.
#[derive(Debug, Clone, Copy, PartialEq, Eq, Structural)]
pub enum KeySelectionStrategy {
    Random,
}

/// The downstream API surface a request arrived on.
#[derive(Debug, Clone, Copy, PartialEq, Eq, Structural)]
pub enum DownstreamRouteKind {
    OpenAiChatCompletions,
    OpenAiResponses,
    AnthropicMessages,
    GoogleV1BetaModels,
    GoogleV1Models,
}

/// One entry of a string-to-string table (extra headers, extra query
/// parameters); a table holds its entries sorted by key, without duplicates.
#[derive(Debug, PartialEq, Eq)]
pub struct KeyValue {
    pub key: String,
    pub value: String,
}

/// An upstream endpoint of a model or a candidate.
#[derive(Debug, PartialEq)]
pub struct RaceTargetEndpoint {
    pub protocol_family: ProtocolFamily,
    pub base_url: String,
    pub auth_strategy: AuthStrategy,
    pub key_pool_id: String,
    pub request_timeout_ms: Option<u64>,
    pub extra_headers: Vec<KeyValue>,
    pub extra_query: Vec<KeyValue>,
    pub enabled: bool,
}

/// A model served by one or more upstream endpoints. `metadata` holds the
/// descriptor's free-form metadata as JSON text.
#[derive(Debug, PartialEq)]
pub struct RaceModelDescriptor {
    pub id: String,
    pub display_name: String,
    pub upstream_model: String,
    pub description: String,
    pub enabled: bool,
    pub endpoints: Vec<RaceTargetEndpoint>,
    pub metadata: String,
}

/// A participant of a race group. `initial_weight_bits` is the bit pattern of
/// the candidate's initial weight; `metadata` is JSON text.
#[derive(Debug, PartialEq)]
pub struct RaceCandidate {
    pub id: String,
    pub group_id: String,
    pub name: String,
    pub model_id: Option<String>,
    pub upstream_model: String,
    pub inline_endpoint_overrides: Vec<RaceTargetEndpoint>,
    pub initial_weight_bits: u64,
    pub response_protection_timeout_ms: u64,
    pub enabled: bool,
    pub metadata: String,
}

/// A group of candidates raced against each other. The `*_bits` fields are
/// the bit patterns of the group's scheduling and weighting parameters.
#[derive(Debug, PartialEq)]
pub struct RaceGroup {
    pub id: String,
    pub display_name: String,
    pub fallback_ratio_bits: u64,
    pub decay_factor_bits: u64,
    pub penalty_rate_bits: u64,
    pub recovery_rate_bits: u64,
    pub race_max_wait_time_ms: Option<u64>,
    pub enabled: bool,
    pub candidates: Vec<RaceCandidate>,
}

/// A pool of upstream credentials.
#[derive(Debug, PartialEq)]
pub struct RaceKeyPool {
    pub id: String,
    pub display_name: String,
    pub auth_strategy: AuthStrategy,
    pub selection_strategy: KeySelectionStrategy,
    pub enabled: bool,
    pub keys: Vec<RaceKey>,
}

/// One upstream credential; `metadata` is JSON text.
#[derive(Debug, PartialEq)]
pub struct RaceKey {
    pub id: String,
    pub key_pool_id: String,
    pub secret: String,
    pub enabled: bool,
    pub metadata: String,
}

/// Gateway-wide race settings.
#[derive(Debug, Clone, Copy, PartialEq, Eq, Structural)]
pub struct RaceSettings {
    pub enable_race_diagnostics_header: bool,
    pub max_buffer_events: usize,
    pub buffer_backpressure_timeout_ms: u64,
}

/// Default of `RaceSettings::max_buffer_events`.
pub const DEFAULT_MAX_BUFFER_EVENTS: usize = 100_000;

/// Default of `RaceSettings::buffer_backpressure_timeout_ms`.
pub const DEFAULT_BUFFER_BACKPRESSURE_TIMEOUT_MS: u64 = 100;

impl Default for RaceSettings {
    fn default() -> (r: Self)
        ensures
            r == (RaceSettings {
                enable_race_diagnostics_header: false,
                max_buffer_events: DEFAULT_MAX_BUFFER_EVENTS,
                buffer_backpressure_timeout_ms: DEFAULT_BUFFER_BACKPRESSURE_TIMEOUT_MS,
            }),
    {
        RaceSettings {
            enable_race_diagnostics_header: false,
            max_buffer_events: DEFAULT_MAX_BUFFER_EVENTS,
            buffer_backpressure_timeout_ms: DEFAULT_BUFFER_BACKPRESSURE_TIMEOUT_MS,
        }
    }
}

impl RaceSettings {
    /// The default settings: no diagnostics header, the default buffer
    /// limits.
    pub open spec fn default_settings() -> RaceSettings {
        RaceSettings {
            enable_race_diagnostics_header: false,
            max_buffer_events: DEFAULT_MAX_BUFFER_EVENTS,
            buffer_backpressure_timeout_ms: DEFAULT_BUFFER_BACKPRESSURE_TIMEOUT_MS,
        }
    }

    /// The settings after normalization: both limits raised to at least 1.
    pub open spec fn spec_normalized(self) -> RaceSettings {
        RaceSettings {
            enable_race_diagnostics_header: self.enable_race_diagnostics_header,
            max_buffer_events: if self.max_buffer_events >= 1 {
                self.max_buffer_events
            } else {
                1
            },
            buffer_backpressure_timeout_ms: if self.buffer_backpressure_timeout_ms >= 1 {
                self.buffer_backpressure_timeout_ms
            } else {
                1
            },
        }
    }

    /// Raises `max_buffer_events` and `buffer_backpressure_timeout_ms` to at
    /// least 1, keeping everything else.
    pub fn normalized(self) -> (r: Self)
        ensures
            r == self.spec_normalized(),
    {
        RaceSettings {
            enable_race_diagnostics_header: self.enable_race_diagnostics_header,
            max_buffer_events: if self.max_buffer_events >= 1 {
                self.max_buffer_events
            } else {
                1
            },
            buffer_backpressure_timeout_ms: if self.buffer_backpressure_timeout_ms >= 1 {
                self.buffer_backpressure_timeout_ms
            } else {
                1
            },
        }
    }
}

/// Normalized settings have both limits at least 1, and normalizing twice is
/// the same as normalizing once.
pub proof fn lemma_normalized_idempotent(s: RaceSettings)
    ensures
        s.spec_normalized().max_buffer_events >= 1,
        s.spec_normalized().buffer_backpressure_timeout_ms >= 1,
        s.spec_normalized().spec_normalized() == s.spec_normalized(),
        s.max_buffer_events >= 1 && s.buffer_backpressure_timeout_ms >= 1 ==> s.spec_normalized()
            == s,
{
}

/// A summary of a model descriptor for listings.
#[derive(Debug, PartialEq)]
pub struct RaceModelSummary {
    pub id: String,
    pub display_name: String,
    pub upstream_model: String,
    pub enabled: bool,
    pub protocol_families: Vec<ProtocolFamily>,
    pub key_pool_ids: Vec<String>,
}

/// A summary of a race group for listings.
#[derive(Debug, PartialEq)]
pub struct RaceGroupSummary {
    pub id: String,
    pub display_name: String,
    pub enabled: bool,
    pub candidate_count: usize,
    pub enabled_candidate_count: usize,
    pub protocol_families: Vec<ProtocolFamily>,
    pub candidate_names: Vec<String>,
}

/// A summary of a key pool for listings.
#[derive(Debug, PartialEq)]
pub struct RaceKeyPoolSummary {
    pub id: String,
    pub display_name: String,
    pub enabled: bool,
    pub auth_strategy: AuthStrategy,
    pub selection_strategy: KeySelectionStrategy,
    pub total_keys: usize,
    pub enabled_keys: usize,
}

/// One problem found by validation.
#[derive(Debug, PartialEq, Eq)]
pub struct ValidationIssue {
    pub field: String,
    pub code: String,
    pub message: String,
}

/// The outcome of a validation: `valid` holds exactly when `issues` is empty.
#[derive(Debug, PartialEq, Eq)]
pub struct ValidationErrorResponse {
    pub valid: bool,
    pub issues: Vec<ValidationIssue>,
}

/// Where a resolved candidate's endpoint came from.
#[derive(Debug, Clone, Copy, PartialEq, Eq, Structural)]
pub enum ResolvedEndpointSource {
    CandidateInlineOverride,
    ModelDescriptor,
}

/// A candidate together with the endpoint it will be raced on.
#[derive(Debug, PartialEq)]
pub struct ResolvedCandidateTarget {
    pub candidate: RaceCandidate,
    pub endpoint: RaceTargetEndpoint,
    pub endpoint_source: ResolvedEndpointSource,
    pub key_pool_id: String,
}

/// A full configuration as read from a bootstrap file.
#[derive(Debug, PartialEq)]
pub struct BootstrapData {
    pub models: Vec<RaceModelDescriptor>,
    pub groups: Vec<RaceGroup>,
    pub key_pools: Vec<RaceKeyPool>,
    pub settings: Option<RaceSettings>,
}

impl Default for BootstrapData {
    fn default() -> (r: Self)
        ensures
            r.models@.len() == 0,
            r.groups@.len() == 0,
            r.key_pools@.len() == 0,
            r.settings == Some(RaceSettings::default_settings()),
    {
        BootstrapData {
            models: Vec::new(),
            groups: Vec::new(),
            key_pools: Vec::new(),
            settings: Some(RaceSettings::default()),
        }
    }
}

/// The abstract value of an endpoint: strings as character sequences.
pub struct EndpointView {
    pub protocol_family: ProtocolFamily,
    pub base_url: Seq<char>,
    pub auth_strategy: AuthStrategy,
    pub key_pool_id: Seq<char>,
    pub request_timeout_ms: Option<u64>,
    pub extra_headers: Seq<KeyValue>,
    pub extra_query: Seq<KeyValue>,
    pub enabled: bool,
}

impl View for RaceTargetEndpoint {
    type V = EndpointView;

    open spec fn view(&self) -> EndpointView {
        EndpointView {
            protocol_family: self.protocol_family,
            base_url: self.base_url@,
            auth_strategy: self.auth_strategy,
            key_pool_id: self.key_pool_id@,
            request_timeout_ms: self.request_timeout_ms,
            extra_headers: self.extra_headers@,
            extra_query: self.extra_query@,
            enabled: self.enabled,
        }
    }
}

/// The views of a list of endpoints.
pub open spec fn endpoints_view(v: Seq<RaceTargetEndpoint>) -> Seq<EndpointView> {
    v.map_values(|e: RaceTargetEndpoint| e@)
}

/// The abstract value of a model descriptor.
pub struct ModelView {
    pub id: Seq<char>,
    pub display_name: Seq<char>,
    pub upstream_model: Seq<char>,
    pub description: Seq<char>,
    pub enabled: bool,
    pub endpoints: Seq<EndpointView>,
    pub metadata: Seq<char>,
}

impl View for RaceModelDescriptor {
    type V = ModelView;

    open spec fn view(&self) -> ModelView {
        ModelView {
            id: self.id@,
            display_name: self.display_name@,
            upstream_model: self.upstream_model@,
            description: self.description@,
            enabled: self.enabled,
            endpoints: endpoints_view(self.endpoints@),
            metadata: self.metadata@,
        }
    }
}

/// The abstract value of an optional string.
pub open spec fn opt_view(o: Option<String>) -> Option<Seq<char>> {
    match o {
        Some(s) => Some(s@),
        None => None,
    }
}

/// The abstract value of a candidate.
pub struct CandidateView {
    pub id: Seq<char>,
    pub group_id: Seq<char>,
    pub name: Seq<char>,
    pub model_id: Option<Seq<char>>,
    pub upstream_model: Seq<char>,
    pub inline_endpoint_overrides: Seq<EndpointView>,
    pub initial_weight_bits: u64,
    pub response_protection_timeout_ms: u64,
    pub enabled: bool,
    pub metadata: Seq<char>,
}

impl View for RaceCandidate {
    type V = CandidateView;

    open spec fn view(&self) -> CandidateView {
        CandidateView {
            id: self.id@,
            group_id: self.group_id@,
            name: self.name@,
            model_id: opt_view(self.model_id),
            upstream_model: self.upstream_model@,
            inline_endpoint_overrides: endpoints_view(self.inline_endpoint_overrides@),
            initial_weight_bits: self.initial_weight_bits,
            response_protection_timeout_ms: self.response_protection_timeout_ms,
            enabled: self.enabled,
            metadata: self.metadata@,
        }
    }
}

/// The views of a list of candidates.
pub open spec fn candidates_view(v: Seq<RaceCandidate>) -> Seq<CandidateView> {
    v.map_values(|c: RaceCandidate| c@)
}

/// The abstract value of a race group.
pub struct GroupView {
    pub id: Seq<char>,
    pub display_name: Seq<char>,
    pub fallback_ratio_bits: u64,
    pub decay_factor_bits: u64,
    pub penalty_rate_bits: u64,
    pub recovery_rate_bits: u64,
    pub race_max_wait_time_ms: Option<u64>,
    pub enabled: bool,
    pub candidates: Seq<CandidateView>,
}

impl View for RaceGroup {
    type V = GroupView;

    open spec fn view(&self) -> GroupView {
        GroupView {
            id: self.id@,
            display_name: self.display_name@,
            fallback_ratio_bits: self.fallback_ratio_bits,
            decay_factor_bits: self.decay_factor_bits,
            penalty_rate_bits: self.penalty_rate_bits,
            recovery_rate_bits: self.recovery_rate_bits,
            race_max_wait_time_ms: self.race_max_wait_time_ms,
            enabled: self.enabled,
            candidates: candidates_view(self.candidates@),
        }
    }
}

/// The abstract value of a key.
pub struct KeyView {
    pub id: Seq<char>,
    pub key_pool_id: Seq<char>,
    pub secret: Seq<char>,
    pub enabled: bool,
    pub metadata: Seq<char>,
}

impl View for RaceKey {
    type V = KeyView;

    open spec fn view(&self) -> KeyView {
        KeyView {
            id: self.id@,
            key_pool_id: self.key_pool_id@,
            secret: self.secret@,
            enabled: self.enabled,
            metadata: self.metadata@,
        }
    }
}

/// The views of a list of keys.
pub open spec fn keys_view(v: Seq<RaceKey>) -> Seq<KeyView> {
    v.map_values(|k: RaceKey| k@)
}

/// The abstract value of a key pool.
pub struct KeyPoolView {
    pub id: Seq<char>,
    pub display_name: Seq<char>,
    pub auth_strategy: AuthStrategy,
    pub selection_strategy: KeySelectionStrategy,
    pub enabled: bool,
    pub keys: Seq<KeyView>,
}

impl View for RaceKeyPool {
    type V = KeyPoolView;

    open spec fn view(&self) -> KeyPoolView {
        KeyPoolView {
            id: self.id@,
            display_name: self.display_name@,
            auth_strategy: self.auth_strategy,
            selection_strategy: self.selection_strategy,
            enabled: self.enabled,
            keys: keys_view(self.keys@),
        }
    }
}

/// The abstract value of a validation issue.
pub struct IssueView {
    pub field: Seq<char>,
    pub code: Seq<char>,
    pub message: Seq<char>,
}

impl View for ValidationIssue {
    type V = IssueView;

    open spec fn view(&self) -> IssueView {
        IssueView { field: self.field@, code: self.code@, message: self.message@ }
    }
}

/// The views of a list of issues.
pub open spec fn issues_view(v: Seq<ValidationIssue>) -> Seq<IssueView> {
    v.map_values(|i: ValidationIssue| i@)
}

/// Clones an optional string into an equal one.
pub fn clone_opt_string(s: &Option<String>) -> (r: Option<String>)
    ensures
        r == *s,
{
    match s {
        Some(v) => Some(v.clone()),
        None => None,
    }
}

impl Clone for AuthStrategy {
    fn clone(&self) -> (r: Self)
        ensures
            r == *self,
    {
        match self {
            AuthStrategy::Bearer => AuthStrategy::Bearer,
            AuthStrategy::HeaderApiKey { header_name } => AuthStrategy::HeaderApiKey {
                header_name: header_name.clone(),
            },
            AuthStrategy::QueryApiKey { parameter_name } => AuthStrategy::QueryApiKey {
                parameter_name: parameter_name.clone(),
            },
        }
    }
}

impl Clone for KeyValue {
    fn clone(&self) -> (r: Self)
        ensures
            r == *self,
    {
        KeyValue { key: self.key.clone(), value: self.value.clone() }
    }
}

/// Clones a key-value table into an equal one.
pub fn clone_table(v: &Vec<KeyValue>) -> (r: Vec<KeyValue>)
    ensures
        r@ == v@,
{
    let mut out: Vec<KeyValue> = Vec::new();
    let mut i: usize = 0;
    while i < v.len()
        invariant
            i <= v.len(),
            out@ == v@.subrange(0, i as int),
        decreases v.len() - i,
    {
        out.push(v[i].clone());
        i += 1;
        assert(out@ =~= v@.subrange(0, i as int));
    }
    assert(v@.subrange(0, v.len() as int) =~= v@);
    out
}

impl Clone for RaceTargetEndpoint {
    fn clone(&self) -> (r: Self)
        ensures
            r@ == self@,
    {
        RaceTargetEndpoint {
            protocol_family: self.protocol_family,
            base_url: self.base_url.clone(),
            auth_strategy: self.auth_strategy.clone(),
            key_pool_id: self.key_pool_id.clone(),
            request_timeout_ms: self.request_timeout_ms,
            extra_headers: clone_table(&self.extra_headers),
            extra_query: clone_table(&self.extra_query),
            enabled: self.enabled,
        }
    }
}

/// Clones a list of endpoints into one with the same view.
pub fn clone_endpoints(v: &Vec<RaceTargetEndpoint>) -> (r: Vec<RaceTargetEndpoint>)
    ensures
        endpoints_view(r@) == endpoints_view(v@),
{
    let mut out: Vec<RaceTargetEndpoint> = Vec::new();
    let mut i: usize = 0;
    while i < v.len()
        invariant
            i <= v.len(),
            out.len() == i,
            forall|k: int| 0 <= k < i ==> (#[trigger] out@[k])@ == v@[k]@,
        decreases v.len() - i,
    {
        let e = v[i].clone();
        out.push(e);
        i += 1;
    }
    assert(endpoints_view(out@) =~= endpoints_view(v@));
    out
}

impl Clone for RaceModelDescriptor {
    fn clone(&self) -> (r: Self)
        ensures
            r@ == self@,
    {
        RaceModelDescriptor {
            id: self.id.clone(),
            display_name: self.display_name.clone(),
            upstream_model: self.upstream_model.clone(),
            description: self.description.clone(),
            enabled: self.enabled,
            endpoints: clone_endpoints(&self.endpoints),
            metadata: self.metadata.clone(),
        }
    }
}

impl Clone for RaceCandidate {
    fn clone(&self) -> (r: Self)
        ensures
            r@ == self@,
    {
        RaceCandidate {
            id: self.id.clone(),
            group_id: self.group_id.clone(),
            name: self.name.clone(),
            model_id: clone_opt_string(&self.model_id),
            upstream_model: self.upstream_model.clone(),
            inline_endpoint_overrides: clone_endpoints(&self.inline_endpoint_overrides),
            initial_weight_bits: self.initial_weight_bits,
            response_protection_timeout_ms: self.response_protection_timeout_ms,
            enabled: self.enabled,
            metadata: self.metadata.clone(),
        }
    }
}

impl Clone for RaceKey {
    fn clone(&self) -> (r: Self)
        ensures
            r@ == self@,
    {
        RaceKey {
            id: self.id.clone(),
            key_pool_id: self.key_pool_id.clone(),
            secret: self.secret.clone(),
            enabled: self.enabled,
            metadata: self.metadata.clone(),
        }
    }
}

impl Clone for ValidationIssue {
    fn clone(&self) -> (r: Self)
        ensures
            r@ == self@,
    {
        ValidationIssue {
            field: self.field.clone(),
            code: self.code.clone(),
            message: self.message.clone(),
        }
    }
}

} // verus!
