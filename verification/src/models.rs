//! The request and response bodies of the service's endpoints, the stored
//! settings they carry, and the conversions between them.
use vstd::prelude::*;
use crate::text::opt_view;
use crate::llm::{LlmBackend, LlmBackendPublic, ProviderKind};
use crate::text::{trim, trim_spec};

verus! {

/// The body of a search request: the query and the context lines wanted.
#[derive(Debug, Clone)]
pub struct SearchBody {
    pub q: String,
    pub context: Option<usize>,
}

/// The generated query of the natural language endpoint.
#[derive(Debug, Clone)]
pub struct NL2QOut {
    pub q: String,
}

/// Object storage settings (S3 and compatible services).
#[derive(Debug, Clone)]
pub struct S3Settings {
    pub endpoint: String,
    pub access_key: String,
    pub secret_key: String,
}

/// A named object storage profile.
#[derive(Debug, Clone)]
pub struct S3Profile {
    pub profile_name: String,
    pub endpoint: String,
    pub access_key: String,
    pub secret_key: String,
}

/// Object storage settings as the settings endpoint takes and gives them,
/// with whether they are configured and the last connection error.
#[derive(Debug, Clone)]
pub struct S3SettingsPayload {
    pub endpoint: String,
    pub access_key: String,
    pub secret_key: String,
    pub configured: bool,
    pub connection_error: Option<String>,
}

impl Default for S3SettingsPayload {
    fn default() -> (r: S3SettingsPayload)
        ensures
            r.endpoint@.len() == 0,
            r.access_key@.len() == 0,
            r.secret_key@.len() == 0,
            !r.configured,
            r.connection_error is None,
    {
        S3SettingsPayload {
            endpoint: String::new(),
            access_key: String::new(),
            secret_key: String::new(),
            configured: false,
            connection_error: None,
        }
    }
}

impl From<S3SettingsPayload> for S3Settings {
    fn from(value: S3SettingsPayload) -> (r: S3Settings) {
        S3Settings { endpoint: value.endpoint, access_key: value.access_key, secret_key: value.secret_key }
    }
}

impl vstd::std_specs::convert::FromSpecImpl<S3SettingsPayload> for S3Settings {
    open spec fn obeys_from_spec() -> bool {
        true
    }

    open spec fn from_spec(value: S3SettingsPayload) -> S3Settings {
        S3Settings { endpoint: value.endpoint, access_key: value.access_key, secret_key: value.secret_key }
    }
}

impl From<S3Settings> for S3SettingsPayload {
    fn from(value: S3Settings) -> (r: S3SettingsPayload) {
        S3SettingsPayload {
            endpoint: value.endpoint,
            access_key: value.access_key,
            secret_key: value.secret_key,
            configured: false,
            connection_error: None,
        }
    }
}

impl vstd::std_specs::convert::FromSpecImpl<S3Settings> for S3SettingsPayload {
    open spec fn obeys_from_spec() -> bool {
        true
    }

    open spec fn from_spec(value: S3Settings) -> S3SettingsPayload {
        S3SettingsPayload {
            endpoint: value.endpoint,
            access_key: value.access_key,
            secret_key: value.secret_key,
            configured: false,
            connection_error: None,
        }
    }
}

/// The parameters of a cache view: session, file, and the 1-based range.
#[derive(Debug, Clone)]
pub struct ViewParams {
    pub sid: String,
    pub file: String,
    pub start: Option<usize>,
    pub end: Option<usize>,
}

/// An object storage profile as the profile endpoints take and give it.
#[derive(Debug, Clone)]
pub struct S3ProfilePayload {
    pub profile_name: String,
    pub endpoint: String,
    pub access_key: String,
    pub secret_key: String,
}

impl From<S3ProfilePayload> for S3Profile {
    fn from(value: S3ProfilePayload) -> (r: S3Profile) {
        S3Profile {
            profile_name: value.profile_name,
            endpoint: value.endpoint,
            access_key: value.access_key,
            secret_key: value.secret_key,
        }
    }
}

impl vstd::std_specs::convert::FromSpecImpl<S3ProfilePayload> for S3Profile {
    open spec fn obeys_from_spec() -> bool {
        true
    }

    open spec fn from_spec(value: S3ProfilePayload) -> S3Profile {
        S3Profile {
            profile_name: value.profile_name,
            endpoint: value.endpoint,
            access_key: value.access_key,
            secret_key: value.secret_key,
        }
    }
}

impl From<S3Profile> for S3ProfilePayload {
    fn from(value: S3Profile) -> (r: S3ProfilePayload) {
        S3ProfilePayload {
            profile_name: value.profile_name,
            endpoint: value.endpoint,
            access_key: value.access_key,
            secret_key: value.secret_key,
        }
    }
}

impl vstd::std_specs::convert::FromSpecImpl<S3Profile> for S3ProfilePayload {
    open spec fn obeys_from_spec() -> bool {
        true
    }

    open spec fn from_spec(value: S3Profile) -> S3ProfilePayload {
        S3ProfilePayload {
            profile_name: value.profile_name,
            endpoint: value.endpoint,
            access_key: value.access_key,
            secret_key: value.secret_key,
        }
    }
}

/// The list of object storage profiles.
#[derive(Debug, Clone)]
pub struct S3ProfileListResponse {
    pub profiles: Vec<S3ProfilePayload>,
}

/// The query of the settings endpoint: whether to test the connection.
#[derive(Debug, Clone)]
pub struct S3Query {
    pub verify: Option<bool>,
}

/// The parameters of the file list of a session.
#[derive(Debug, Clone)]
pub struct FileListParams {
    pub sid: String,
}

/// A stored planner script of an application.
#[derive(Debug, Clone)]
pub struct PlannerScript {
    pub app: String,
    pub script: String,
    pub updated_at: i64,
}

/// A planner script's application and time of last change.
#[derive(Debug, Clone)]
pub struct PlannerScriptMeta {
    pub app: String,
    pub updated_at: i64,
}

/// The body that stores a planner script.
#[derive(Debug, Clone)]
pub struct PlannerUpsertPayload {
    pub app: String,
    pub script: String,
}

/// One entry of the planner list.
#[derive(Debug, Clone)]
pub struct PlannerItemMeta {
    pub app: String,
    pub updated_at: i64,
}

/// The planner list with the default application.
#[derive(Debug, Clone)]
pub struct PlannerListResponse {
    pub items: Vec<PlannerItemMeta>,
    pub default: Option<String>,
}

/// The body that sets the default planner.
#[derive(Debug, Clone)]
pub struct DefaultPlannerPayload {
    pub app: String,
}

/// A planner script as the endpoint gives it.
#[derive(Debug, Clone)]
pub struct PlannerGetResponse {
    pub app: String,
    pub script: String,
    pub updated_at: i64,
}

/// The body of a planner test: the application, the full query and an
/// optional unsaved script.
#[derive(Debug, Clone)]
pub struct PlannerTestPayload {
    pub app: String,
    pub q: String,
    pub script: Option<String>,
}

/// The outcome of a planner test: the query without its qualifiers, the
/// planned sources and the script's debug output.
#[derive(Debug, Clone)]
pub struct PlannerTestResponse {
    pub cleaned_query: String,
    pub sources: Vec<String>,
    pub debug_logs: Vec<String>,
}

/// Run-time tuning of the object storage access.
#[derive(Debug, Clone)]
pub struct Tuning {
    pub server_id: Option<String>,
    pub io_max_concurrency: usize,
    pub io_timeout_sec: u64,
    pub io_max_retries: u32,
}

/// A provider kind as the endpoints take and give it.
#[derive(Debug, Clone, Copy, PartialEq, Eq, Structural)]
pub enum ProviderKindPayload {
    Ollama,
    OpenAI,
}

impl From<ProviderKindPayload> for ProviderKind {
    fn from(p: ProviderKindPayload) -> (r: ProviderKind) {
        match p {
            ProviderKindPayload::Ollama => ProviderKind::Ollama,
            ProviderKindPayload::OpenAI => ProviderKind::OpenAI,
        }
    }
}

impl vstd::std_specs::convert::FromSpecImpl<ProviderKindPayload> for ProviderKind {
    open spec fn obeys_from_spec() -> bool {
        true
    }

    open spec fn from_spec(p: ProviderKindPayload) -> ProviderKind {
        match p {
            ProviderKindPayload::Ollama => ProviderKind::Ollama,
            ProviderKindPayload::OpenAI => ProviderKind::OpenAI,
        }
    }
}

impl From<ProviderKind> for ProviderKindPayload {
    fn from(p: ProviderKind) -> (r: ProviderKindPayload) {
        match p {
            ProviderKind::Ollama => ProviderKindPayload::Ollama,
            ProviderKind::OpenAI => ProviderKindPayload::OpenAI,
        }
    }
}

impl vstd::std_specs::convert::FromSpecImpl<ProviderKind> for ProviderKindPayload {
    open spec fn obeys_from_spec() -> bool {
        true
    }

    open spec fn from_spec(p: ProviderKind) -> ProviderKindPayload {
        match p {
            ProviderKind::Ollama => ProviderKindPayload::Ollama,
            ProviderKind::OpenAI => ProviderKindPayload::OpenAI,
        }
    }
}

/// The body that creates or changes a model backend.
#[derive(Debug, Clone)]
pub struct LlmBackendUpsertPayload {
    pub name: String,
    pub provider: ProviderKindPayload,
    pub base_url: String,
    pub model: String,
    /// Time-out in seconds; 0 or less means the default of 60.
    pub timeout_secs: i64,
    /// OpenAI: the API key; left out or blank on a change keeps the old one.
    pub api_key: Option<String>,
    pub organization: Option<String>,
    pub project: Option<String>,
    /// Whether to also try a minimal chat with the model before saving.
    pub verify_strict: bool,
}

/// A backend of the backend list.
#[derive(Debug, Clone)]
pub struct LlmBackendListItem {
    pub name: String,
    pub provider: ProviderKindPayload,
    pub base_url: String,
    pub model: String,
    pub timeout_secs: i64,
    pub has_api_key: bool,
}

/// The payload form of a provider kind.
pub open spec fn payload_kind(p: ProviderKind) -> ProviderKindPayload {
    match p {
        ProviderKind::Ollama => ProviderKindPayload::Ollama,
        ProviderKind::OpenAI => ProviderKindPayload::OpenAI,
    }
}

impl From<LlmBackendPublic> for LlmBackendListItem {
    fn from(v: LlmBackendPublic) -> (r: LlmBackendListItem) {
        let provider = ProviderKindPayload::from(v.provider);
        LlmBackendListItem {
            name: v.name,
            provider,
            base_url: v.base_url,
            model: v.model,
            timeout_secs: v.timeout_secs,
            has_api_key: v.has_api_key,
        }
    }
}

impl vstd::std_specs::convert::FromSpecImpl<LlmBackendPublic> for LlmBackendListItem {
    open spec fn obeys_from_spec() -> bool {
        true
    }

    open spec fn from_spec(v: LlmBackendPublic) -> LlmBackendListItem {
        LlmBackendListItem {
            name: v.name,
            provider: payload_kind(v.provider),
            base_url: v.base_url,
            model: v.model,
            timeout_secs: v.timeout_secs,
            has_api_key: v.has_api_key,
        }
    }
}

/// The backend list with the default backend's name.
#[derive(Debug, Clone)]
pub struct LlmBackendListResponse {
    pub backends: Vec<LlmBackendListItem>,
    pub default: Option<String>,
}

/// The models a backend offers.
#[derive(Debug, Clone)]
pub struct LlmModelsResponse {
    pub models: Vec<String>,
}

/// The parameters of a model listing for a backend not yet saved.
#[derive(Debug, Clone)]
pub struct LlmModelsParamsPayload {
    pub provider: ProviderKindPayload,
    pub base_url: String,
    pub api_key: Option<String>,
    pub organization: Option<String>,
    pub project: Option<String>,
}

/// The body that sets the default backend.
#[derive(Debug, Clone)]
pub struct DefaultLlmPayload {
    pub name: String,
}

/// An optional text, trimmed, with a blank one dropped.
pub open spec fn trimmed_opt(s: Option<String>) -> Option<Seq<char>> {
    match s {
        Some(t) => if trim_spec(t@).len() > 0 { Some(trim_spec(t@)) } else { None },
        None => None,
    }
}

/// An optional text, trimmed, with a blank one dropped.
fn trim_opt(s: &Option<String>) -> (r: Option<String>)
    ensures
        opt_view(r) == trimmed_opt(*s),
{
    match s {
        Some(t) => {
            let x = trim(t.as_str());
            if x.as_str().is_empty() {
                None
            } else {
                Some(x)
            }
        },
        None => None,
    }
}

/// The backend that an edit describes: names and addresses trimmed, a
/// time-out of 0 or less taken as 60 seconds, and the optional texts
/// trimmed with blank ones dropped.
pub fn backend_of_payload(payload: &LlmBackendUpsertPayload) -> (r: LlmBackend)
    ensures
        r.name@ == trim_spec(payload.name@),
        r.provider == (match payload.provider {
            ProviderKindPayload::Ollama => ProviderKind::Ollama,
            ProviderKindPayload::OpenAI => ProviderKind::OpenAI,
        }),
        r.base_url@ == trim_spec(payload.base_url@),
        r.model@ == trim_spec(payload.model@),
        r.timeout_secs == (if payload.timeout_secs <= 0 { 60 } else { payload.timeout_secs }),
        opt_view(r.api_key) == trimmed_opt(payload.api_key),
        opt_view(r.organization) == trimmed_opt(payload.organization),
        opt_view(r.project) == trimmed_opt(payload.project),
{
    let provider = ProviderKind::from(payload.provider);
    let timeout_secs = if payload.timeout_secs <= 0 { 60 } else { payload.timeout_secs };
    LlmBackend {
        name: trim(payload.name.as_str()),
        provider,
        base_url: trim(payload.base_url.as_str()),
        model: trim(payload.model.as_str()),
        timeout_secs,
        api_key: trim_opt(&payload.api_key),
        organization: trim_opt(&payload.organization),
        project: trim_opt(&payload.project),
    }
}

/// Whether an edit replaces the stored key (it gives a new one), and the
/// backend to save: without a new key, the stored key (if any) stays.
pub fn settle_api_key(backend: LlmBackend, stored_key: Option<String>) -> (r: (LlmBackend, bool))
    ensures
        r.1 == backend.api_key is Some,
        r.1 ==> r.0 == backend,
        !r.1 ==> r.0 == (LlmBackend { api_key: stored_key, ..backend }),
{
    if backend.api_key.is_some() {
        (backend, true)
    } else {
        let mut b = backend;
        b.api_key = stored_key;
        (b, false)
    }
}

} // verus!
