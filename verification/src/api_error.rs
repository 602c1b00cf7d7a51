//! Errors of the HTTP interface: how each error of the layers below is
//! answered (status, title and detail of a problem document).
use vstd::prelude::*;
use crate::service_error::{ServiceError, service_message};
use crate::repository_error::{RepositoryError, repository_message, labelled};
use crate::file_url::{FileUrlError, file_url_error_message};

verus! {

/// The kinds of error of the core services.
#[derive(Debug, Clone, Copy, PartialEq, Eq, Structural)]
pub enum CoreErrorKind {
    Database,
    Config,
    Internal,
    BadRequest,
    NotFound,
    ExternalService,
}

/// An error of the core services: its kind and its text.
#[derive(Debug, Clone)]
pub struct CoreError {
    pub kind: CoreErrorKind,
    pub text: String,
}

/// An error of the interface, from whichever layer it came.
#[derive(Debug)]
pub enum LogSeekApiError {
    /// An error of the service layer.
    Service(ServiceError),
    /// An error of the repository layer.
    Repository(RepositoryError),
    /// A file URL that could not be read.
    Domain(FileUrlError),
    /// A request body that is no valid JSON, with the reason.
    BadJson(String),
    /// A query that does not parse, with the reason.
    QueryParse(String),
    /// A failure of object storage, with its text.
    StorageError(String),
    /// An error of the core services.
    Internal(CoreError),
}

/// The text of an interface error, where it does not rest on the `url`
/// crate's text of a parse error.
pub open spec fn api_error_message(e: LogSeekApiError) -> Option<Seq<char>> {
    match e {
        LogSeekApiError::Service(s) => Some(service_message(s)),
        LogSeekApiError::Repository(r) => Some(repository_message(r)),
        LogSeekApiError::Domain(d) => file_url_error_message(d),
        LogSeekApiError::BadJson(m) => Some("JSON 解析失败: "@ + m@),
        LogSeekApiError::QueryParse(m) => Some("查询语法错误: "@ + m@),
        LogSeekApiError::StorageError(m) => Some("存储错误: "@ + m@),
        LogSeekApiError::Internal(c) => Some(c.text@),
    }
}

impl LogSeekApiError {
    /// The text of the error: an error of a layer below keeps its own text.
    pub fn message(&self) -> (r: String)
        ensures
            api_error_message(*self) matches Some(m) ==> r@ == m,
    {
        match self {
            LogSeekApiError::Service(s) => s.message(),
            LogSeekApiError::Repository(r) => r.message(),
            LogSeekApiError::Domain(d) => d.message(),
            LogSeekApiError::BadJson(m) => labelled("JSON 解析失败: ", m.as_str()),
            LogSeekApiError::QueryParse(m) => labelled("查询语法错误: ", m.as_str()),
            LogSeekApiError::StorageError(m) => labelled("存储错误: ", m.as_str()),
            LogSeekApiError::Internal(c) => c.text.clone(),
        }
    }
}

/// The answer to a refused request: an HTTP status, a title and a detail.
#[derive(Debug, Clone)]
pub struct Problem {
    pub status: u16,
    pub title: String,
    pub detail: String,
}

/// The status and title of a repository error.
pub open spec fn repository_problem(r: RepositoryError) -> (u16, Seq<char>) {
    match r {
        RepositoryError::NotFound(_) => (404, "资源不存在"@),
        RepositoryError::StorageError(_) => (502, "存储服务错误"@),
        RepositoryError::Database(_) => (500, "数据库错误"@),
        RepositoryError::QueryFailed(_) => (500, "查询失败"@),
        RepositoryError::CacheFailed(_) => (500, "缓存操作失败"@),
    }
}

/// The status of an error of the core services.
pub open spec fn core_status(k: CoreErrorKind) -> u16 {
    match k {
        CoreErrorKind::BadRequest => 400,
        CoreErrorKind::NotFound => 404,
        CoreErrorKind::ExternalService => 502,
        _ => 500,
    }
}

/// The status and title with which an error is answered; the detail is
/// the error's text, but for a closed channel, which is answered
/// "数据通道已关闭". A service error that wraps a repository error is
/// answered as that repository error.
pub open spec fn problem_spec(e: LogSeekApiError) -> (u16, Seq<char>) {
    match e {
        LogSeekApiError::Service(s) => match s {
            ServiceError::SearchFailed { .. } => (500, "搜索失败"@),
            ServiceError::ConfigError(_) => (500, "配置错误"@),
            ServiceError::ProcessingError(_) => (500, "数据处理失败"@),
            ServiceError::IoError { .. } => (500, "IO 操作失败"@),
            ServiceError::ChannelClosed => (500, "通信中断"@),
            ServiceError::Repository(r) => repository_problem(r),
        },
        LogSeekApiError::Repository(r) => repository_problem(r),
        LogSeekApiError::Domain(_) => (400, "业务验证失败"@),
        LogSeekApiError::BadJson(_) => (400, "JSON 请求格式错误"@),
        LogSeekApiError::QueryParse(_) => (400, "查询语法错误"@),
        LogSeekApiError::StorageError(_) => (502, "存储服务错误"@),
        LogSeekApiError::Internal(c) => (core_status(c.kind), "内部错误"@),
    }
}

/// The status and title of a repository error.
fn repository_status(r: &RepositoryError) -> (p: (u16, &'static str))
    ensures
        p.0 == repository_problem(*r).0,
        p.1@ == repository_problem(*r).1,
{
    match r {
        RepositoryError::NotFound(_) => (404, "资源不存在"),
        RepositoryError::StorageError(_) => (502, "存储服务错误"),
        RepositoryError::Database(_) => (500, "数据库错误"),
        RepositoryError::QueryFailed(_) => (500, "查询失败"),
        RepositoryError::CacheFailed(_) => (500, "缓存操作失败"),
    }
}

/// The answer to a request refused with error `e`.
pub fn problem_of(e: &LogSeekApiError) -> (r: Problem)
    ensures
        r.status == problem_spec(*e).0,
        r.title@ == problem_spec(*e).1,
        (*e matches LogSeekApiError::Service(ServiceError::ChannelClosed)) ==> r.detail@ == "数据通道已关闭"@,
        !(*e matches LogSeekApiError::Service(ServiceError::ChannelClosed)) ==> (api_error_message(*e) matches Some(m) ==> r.detail@ == m),
{
    let (status, title): (u16, &str) = match e {
        LogSeekApiError::Service(s) => match s {
            ServiceError::SearchFailed { .. } => (500, "搜索失败"),
            ServiceError::ConfigError(_) => (500, "配置错误"),
            ServiceError::ProcessingError(_) => (500, "数据处理失败"),
            ServiceError::IoError { .. } => (500, "IO 操作失败"),
            ServiceError::ChannelClosed => {
                return Problem { status: 500, title: "通信中断".to_owned(), detail: "数据通道已关闭".to_owned() };
            },
            ServiceError::Repository(r) => repository_status(r),
        },
        LogSeekApiError::Repository(r) => repository_status(r),
        LogSeekApiError::Domain(_) => (400, "业务验证失败"),
        LogSeekApiError::BadJson(_) => (400, "JSON 请求格式错误"),
        LogSeekApiError::QueryParse(_) => (400, "查询语法错误"),
        LogSeekApiError::StorageError(_) => (502, "存储服务错误"),
        LogSeekApiError::Internal(c) => {
            let status: u16 = match c.kind {
                CoreErrorKind::BadRequest => 400,
                CoreErrorKind::NotFound => 404,
                CoreErrorKind::ExternalService => 502,
                _ => 500,
            };
            (status, "内部错误")
        },
    };
    Problem { status, title: title.to_owned(), detail: e.message() }
}

/// Whether a refused request is answered with a client error (4xx) rather
/// than a server or gateway error (5xx).
pub open spec fn is_client_problem(e: LogSeekApiError) -> bool {
    400 <= problem_spec(e).0 < 500
}

/// Every refused request is answered with an error status (400 to 599),
/// and the client is blamed (4xx) exactly for a bad file URL, bad JSON, a
/// query that does not parse, a missing resource, or a core error of the
/// kinds bad request and not found.
pub proof fn lemma_problem_status(e: LogSeekApiError)
    ensures
        400 <= problem_spec(e).0 <= 599,
        is_client_problem(e) <==> (match e {
            LogSeekApiError::Domain(_) | LogSeekApiError::BadJson(_) | LogSeekApiError::QueryParse(_) => true,
            LogSeekApiError::Repository(RepositoryError::NotFound(_)) => true,
            LogSeekApiError::Service(ServiceError::Repository(RepositoryError::NotFound(_))) => true,
            LogSeekApiError::Internal(c) => c.kind == CoreErrorKind::BadRequest || c.kind == CoreErrorKind::NotFound,
            _ => false,
        }),
{
}

} // verus!
