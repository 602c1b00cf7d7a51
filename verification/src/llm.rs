//! Language model backends: their stored form, the form shown to users,
//! the normalisation of an edit, and the choice of the client to build.
use vstd::prelude::*;
use crate::text::string_views;
use crate::text::chars_of;
use crate::repository_error::{RepositoryError, labelled};
use crate::nl2q::NL2QError;

verus! {

/// The kind of a model provider.
#[derive(Debug, Clone, Copy, PartialEq, Eq, Structural)]
pub enum ProviderKind {
    Ollama,
    OpenAI,
}

/// `c` with an ASCII upper-case letter turned to lower case.
pub open spec fn ascii_lower_char(c: char) -> char {
    if 'A' <= c <= 'Z' { ((c as u32) + 32) as char } else { c }
}

/// `s` with its ASCII upper-case letters turned to lower case.
pub open spec fn ascii_lower(s: Seq<char>) -> Seq<char> {
    s.map_values(|c: char| ascii_lower_char(c))
}

/// The provider named by `s`, ignoring ASCII case.
pub open spec fn provider_parse_spec(s: Seq<char>) -> Option<ProviderKind> {
    if ascii_lower(s) == seq!['o', 'l', 'l', 'a', 'm', 'a'] {
        Some(ProviderKind::Ollama)
    } else if ascii_lower(s) == seq!['o', 'p', 'e', 'n', 'a', 'i'] {
        Some(ProviderKind::OpenAI)
    } else {
        None
    }
}

/// The lower-case name of a provider.
pub open spec fn provider_name(k: ProviderKind) -> Seq<char> {
    match k {
        ProviderKind::Ollama => seq!['o', 'l', 'l', 'a', 'm', 'a'],
        ProviderKind::OpenAI => seq!['o', 'p', 'e', 'n', 'a', 'i'],
    }
}

/// `a` and `b` are equal but for the ASCII case of their letters
/// (`str::eq_ignore_ascii_case`).
pub open spec fn eq_ignore_ascii_case(a: Seq<char>, b: Seq<char>) -> bool {
    a.len() == b.len() && forall|i: int| 0 <= i < a.len() ==> ascii_lower_char(#[trigger] a[i]) == ascii_lower_char(b[i])
}

/// Two texts have the same lower case exactly when they are equal but for
/// ASCII case.
proof fn lemma_ascii_lower_eq(a: Seq<char>, b: Seq<char>)
    ensures
        (ascii_lower(a) == ascii_lower(b)) <==> eq_ignore_ascii_case(a, b),
{
    assert(ascii_lower(a).len() == a.len());
    assert(ascii_lower(b).len() == b.len());
    if ascii_lower(a) == ascii_lower(b) {
        assert forall|i: int| 0 <= i < a.len() implies ascii_lower_char(#[trigger] a[i]) == ascii_lower_char(b[i]) by {
            assert(ascii_lower(a)[i] == ascii_lower_char(a[i]));
            assert(ascii_lower(b)[i] == ascii_lower_char(b[i]));
        }
    }
    if eq_ignore_ascii_case(a, b) {
        assert(ascii_lower(a) =~= ascii_lower(b));
    }
}

/// A provider's name is matched without regard to ASCII case, and parsing
/// a provider's own name gives that provider back.
pub proof fn lemma_provider_parse_laws(s: Seq<char>, k: ProviderKind)
    ensures
        provider_parse_spec(s) == Some(ProviderKind::Ollama) <==> eq_ignore_ascii_case(s, provider_name(ProviderKind::Ollama)),
        provider_parse_spec(s) == Some(ProviderKind::OpenAI) <==> eq_ignore_ascii_case(s, provider_name(ProviderKind::OpenAI)),
        provider_parse_spec(s) is None <==> (!eq_ignore_ascii_case(s, provider_name(ProviderKind::Ollama))
            && !eq_ignore_ascii_case(s, provider_name(ProviderKind::OpenAI))),
        provider_parse_spec(provider_name(k)) == Some(k),
{
    let ol = provider_name(ProviderKind::Ollama);
    let oa = provider_name(ProviderKind::OpenAI);
    assert(ascii_lower(ol) =~= ol);
    assert(ascii_lower(oa) =~= oa);
    lemma_ascii_lower_eq(s, ol);
    lemma_ascii_lower_eq(s, oa);
    assert(ol != oa) by {
        assert(ol[1] != oa[1]);
    }
    match k {
        ProviderKind::Ollama => {},
        ProviderKind::OpenAI => {},
    }
}

/// `c` with an ASCII upper-case letter turned to lower case.
pub fn to_ascii_lower(c: char) -> (r: char)
    ensures
        r == ascii_lower_char(c),
{
    if 'A' <= c && c <= 'Z' {
        let u = (c as u32) + 32;
        assert(u <= 0x7f);
        char_from_ascii(u)
    } else {
        c
    }
}

/// The character of an ASCII code.
fn char_from_ascii(u: u32) -> (r: char)
    requires
        u <= 0x7f,
    ensures
        r == u as char,
{
    (u as u8) as char
}

impl ProviderKind {
    /// The provider's name, in lower case.
    pub fn as_str(&self) -> (r: &'static str)
        ensures
            *self == ProviderKind::Ollama ==> r@ == "ollama"@,
            *self == ProviderKind::OpenAI ==> r@ == "openai"@,
            r@ == provider_name(*self),
    {
        proof {
            reveal_strlit("ollama");
            reveal_strlit("openai");
        }
        match self {
            ProviderKind::Ollama => "ollama",
            ProviderKind::OpenAI => "openai",
        }
    }

    /// The provider named by `s` ("ollama" or "openai", in any ASCII case).
    pub fn parse(s: &str) -> (r: Option<ProviderKind>)
        ensures
            r == provider_parse_spec(s@),
    {
        let v = chars_of(s);
        let mut lower: Vec<char> = Vec::new();
        let mut i: usize = 0;
        while i < v.len()
            invariant
                i <= v@.len(),
                lower@ == ascii_lower(v@.take(i as int)),
            decreases v@.len() - i,
        {
            lower.push(to_ascii_lower(v[i]));
            assert(ascii_lower(v@.take(i as int + 1)) =~= ascii_lower(v@.take(i as int)).push(ascii_lower_char(v@[i as int])));
            i += 1;
        }
        assert(v@.take(v@.len() as int) =~= v@);
        let ollama: Vec<char> = vec!['o', 'l', 'l', 'a', 'm', 'a'];
        let openai: Vec<char> = vec!['o', 'p', 'e', 'n', 'a', 'i'];
        if same_chars(&lower, &ollama) {
            assert(lower@ =~= seq!['o', 'l', 'l', 'a', 'm', 'a']);
            Some(ProviderKind::Ollama)
        } else if same_chars(&lower, &openai) {
            assert(lower@ =~= seq!['o', 'p', 'e', 'n', 'a', 'i']);
            assert(lower@ != seq!['o', 'l', 'l', 'a', 'm', 'a']);
            Some(ProviderKind::OpenAI)
        } else {
            assert(lower@ != seq!['o', 'l', 'l', 'a', 'm', 'a']) by {
                if lower@ == seq!['o', 'l', 'l', 'a', 'm', 'a'] {
                    assert(lower@ == ollama@);
                }
            }
            assert(lower@ != seq!['o', 'p', 'e', 'n', 'a', 'i']) by {
                if lower@ == seq!['o', 'p', 'e', 'n', 'a', 'i'] {
                    assert(lower@ == openai@);
                }
            }
            None
        }
    }
}

/// Whether `a` and `b` hold the same characters.
pub fn same_chars(a: &Vec<char>, b: &Vec<char>) -> (r: bool)
    ensures
        r == (a@ == b@),
{
    if a.len() != b.len() {
        return false;
    }
    let mut i: usize = 0;
    while i < a.len()
        invariant
            a@.len() == b@.len(),
            i <= a@.len(),
            forall|j: int| 0 <= j < i ==> a@[j] == b@[j],
        decreases a@.len() - i,
    {
        if a[i] != b[i] {
            return false;
        }
        i += 1;
    }
    assert(a@ =~= b@);
    true
}

/// A stored model backend.
#[derive(Debug, Clone)]
pub struct LlmBackend {
    /// Unique name, for choosing and showing.
    pub name: String,
    pub provider: ProviderKind,
    /// Base address (such as http://127.0.0.1:11434).
    pub base_url: String,
    /// Default model (such as qwen3:8b).
    pub model: String,
    /// Time-out in seconds.
    pub timeout_secs: i64,
    /// OpenAI: the API key.
    pub api_key: Option<String>,
    /// OpenAI: the organization.
    pub organization: Option<String>,
    /// OpenAI: the project.
    pub project: Option<String>,
}

/// A backend as shown to users: without its secrets.
#[derive(Debug, Clone)]
pub struct LlmBackendPublic {
    pub name: String,
    pub provider: ProviderKind,
    pub base_url: String,
    pub model: String,
    pub timeout_secs: i64,
    /// Whether an API key is set (meaningful for OpenAI only).
    pub has_api_key: bool,
}

/// A key is set: present and not empty.
pub open spec fn key_set(k: Option<String>) -> bool {
    k matches Some(s) && s@.len() > 0
}

/// Whether a key is set: present and not empty.
fn has_key(k: &Option<String>) -> (r: bool)
    ensures
        r == key_set(*k),
{
    match k {
        Some(s) => !s.as_str().is_empty(),
        None => false,
    }
}

impl From<LlmBackend> for LlmBackendPublic {
    fn from(v: LlmBackend) -> (r: LlmBackendPublic) {
        let has_api_key = has_key(&v.api_key);
        LlmBackendPublic {
            name: v.name,
            provider: v.provider,
            base_url: v.base_url,
            model: v.model,
            timeout_secs: v.timeout_secs,
            has_api_key,
        }
    }
}

impl vstd::std_specs::convert::FromSpecImpl<LlmBackend> for LlmBackendPublic {
    open spec fn obeys_from_spec() -> bool {
        true
    }

    open spec fn from_spec(v: LlmBackend) -> LlmBackendPublic {
        LlmBackendPublic {
            name: v.name,
            provider: v.provider,
            base_url: v.base_url,
            model: v.model,
            timeout_secs: v.timeout_secs,
            has_api_key: key_set(v.api_key),
        }
    }
}

/// The backend of a stored row: an unknown provider name is taken as
/// Ollama, a missing time-out as 60 seconds.
pub fn backend_from_row(
    name: String,
    provider: &str,
    base_url: String,
    model: String,
    timeout_secs: Option<i64>,
    api_key: Option<String>,
    organization: Option<String>,
    project: Option<String>,
) -> (r: LlmBackend)
    ensures
        r.name == name,
        r.provider == (match provider_parse_spec(provider@) {
            Some(p) => p,
            None => ProviderKind::Ollama,
        }),
        r.base_url == base_url,
        r.model == model,
        r.timeout_secs == (match timeout_secs {
            Some(t) => t,
            None => 60,
        }),
        r.api_key == api_key,
        r.organization == organization,
        r.project == project,
{
    let provider = match ProviderKind::parse(provider) {
        Some(p) => p,
        None => ProviderKind::Ollama,
    };
    let timeout_secs = match timeout_secs {
        Some(t) => t,
        None => 60,
    };
    LlmBackend { name, provider, base_url, model, timeout_secs, api_key, organization, project }
}

/// The public form of a stored row for the backend list: a row with an
/// unknown provider name is left out, a missing time-out is 60 seconds.
pub fn public_from_row(
    name: String,
    provider: &str,
    base_url: String,
    model: String,
    timeout_secs: Option<i64>,
    api_key: Option<String>,
) -> (r: Option<LlmBackendPublic>)
    ensures
        r is Some <==> provider_parse_spec(provider@) is Some,
        r matches Some(p) ==> (p.name == name && Some(p.provider) == provider_parse_spec(provider@)
            && p.base_url == base_url && p.model == model
            && p.timeout_secs == (match timeout_secs {
                Some(t) => t,
                None => 60,
            })
            && p.has_api_key == key_set(api_key)),
{
    let provider = match ProviderKind::parse(provider) {
        Some(p) => p,
        None => {
            return None;
        },
    };
    let timeout_secs = match timeout_secs {
        Some(t) => t,
        None => 60,
    };
    let has_api_key = has_key(&api_key);
    Some(LlmBackendPublic { name, provider, base_url, model, timeout_secs, has_api_key })
}

/// The names joined with ", ".
pub open spec fn comma_joined(v: Seq<Seq<char>>) -> Seq<char>
    decreases v.len(),
{
    if v.len() == 0 {
        Seq::empty()
    } else if v.len() == 1 {
        v[0]
    } else {
        comma_joined(v.drop_last()) + ", "@ + v.last()
    }
}

/// The strings joined with ", ".
pub fn join_comma(v: &Vec<String>) -> (r: String)
    ensures
        r@ == comma_joined(string_views(v@)),
{
    let mut out = String::new();
    let mut i: usize = 0;
    while i < v.len()
        invariant
            i <= v@.len(),
            out@ == comma_joined(string_views(v@.take(i as int))),
        decreases v@.len() - i,
    {
        assert(string_views(v@.take(i as int + 1)).drop_last() =~= string_views(v@.take(i as int)));
        if i > 0 {
            out.append(", ");
        } else {
            assert(string_views(v@.take(1)) =~= seq![v@[0]@]);
        }
        out.append(v[i].as_str());
        i += 1;
    }
    assert(v@.take(v@.len() as int) =~= v@);
    out
}

/// The model of a backend must be among the models its provider lists;
/// otherwise the error names the model and the available ones.
pub fn check_model_listed(model: &str, models: &Vec<String>) -> (r: Result<(), RepositoryError>)
    ensures
        r is Ok <==> exists|i: int| 0 <= i < models@.len() && #[trigger] models@[i]@ == model@,
        r matches Err(e) ==> (e matches RepositoryError::StorageError(m)
            && m@ == "指定模型不存在："@ + model@ + "，可用模型："@ + comma_joined(string_views(models@))),
{
    let wanted = String::from_str(model);
    let mut i: usize = 0;
    while i < models.len()
        invariant
            i <= models@.len(),
            wanted@ == model@,
            forall|j: int| 0 <= j < i ==> models@[j]@ != model@,
        decreases models@.len() - i,
    {
        if models[i] == wanted {
            return Ok(());
        }
        i += 1;
    }
    let mut msg = labelled("指定模型不存在：", model);
    msg.append("，可用模型：");
    let list = join_comma(models);
    msg.append(list.as_str());
    Err(RepositoryError::StorageError(msg))
}

/// The configuration of the model client to build.
#[derive(Debug)]
pub enum LlmClientConfig {
    Ollama { base_url: String, model: String, timeout_secs: u64 },
    OpenAI {
        base_url: String,
        api_key: String,
        model: String,
        timeout_secs: u64,
        organization: Option<String>,
        project: Option<String>,
    },
}

/// The client configuration of the default backend: the default's name as
/// stored (if any) and the backend stored under it (if any). Without a
/// default, without its backend, or for an OpenAI backend without key, the
/// error says which.
pub fn select_llm_config(default: Option<String>, backend: Option<LlmBackend>) -> (r: Result<LlmClientConfig, NL2QError>)
    ensures
        default is None ==> (r matches Err(NL2QError::Http(m)) && m@ == "未设置默认大模型"@),
        (default is Some && backend is None) ==> (r matches Err(NL2QError::Http(m)) && m@ == "默认大模型不存在"@),
        default is Some ==> (backend matches Some(b) ==> (match b.provider {
            ProviderKind::Ollama => r matches Ok(LlmClientConfig::Ollama { base_url, model, timeout_secs })
                && base_url == b.base_url && model == b.model && timeout_secs == b.timeout_secs as u64,
            ProviderKind::OpenAI => match b.api_key {
                None => r matches Err(NL2QError::Http(m)) && m@ == "OpenAI 配置缺少 API Key"@,
                Some(k) => r matches Ok(LlmClientConfig::OpenAI { base_url, api_key, model, timeout_secs, organization, project })
                    && base_url == b.base_url && api_key == k && model == b.model
                    && timeout_secs == b.timeout_secs as u64 && organization == b.organization && project == b.project,
            },
        })),
{
    if default.is_none() {
        return Err(NL2QError::Http(String::from_str("未设置默认大模型")));
    }
    let b = match backend {
        Some(b) => b,
        None => {
            return Err(NL2QError::Http(String::from_str("默认大模型不存在")));
        },
    };
    match b.provider {
        ProviderKind::Ollama => Ok(LlmClientConfig::Ollama {
            base_url: b.base_url,
            model: b.model,
            timeout_secs: b.timeout_secs as u64,
        }),
        ProviderKind::OpenAI => match b.api_key {
            None => Err(NL2QError::Http(String::from_str("OpenAI 配置缺少 API Key"))),
            Some(api_key) => Ok(LlmClientConfig::OpenAI {
                base_url: b.base_url,
                api_key,
                model: b.model,
                timeout_secs: b.timeout_secs as u64,
                organization: b.organization,
                project: b.project,
            }),
        },
    }
}

} // verus!
