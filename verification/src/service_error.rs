//! Errors of the service layer: configuration, search and processing.
use vstd::prelude::*;
use crate::repository_error::{RepositoryError, labelled, repository_message};
use crate::io_error::io_error_text;

verus! {

/// An error of the service layer.
#[derive(Debug, Clone)]
pub enum ServiceError {
    /// The configuration is wrong.
    ConfigError(String),
    /// Searching `path` failed.
    SearchFailed { path: String, error: String },
    /// Processing data failed.
    ProcessingError(String),
    /// An I/O operation on `path` failed.
    IoError { path: String, error: String },
    /// The receiving end of the result channel is gone.
    ChannelClosed,
    /// An error of the data access layer, shown as it is.
    Repository(RepositoryError),
}

/// The result of a service operation.
pub type Result<T> = core::result::Result<T, ServiceError>;

/// The text of a service error.
pub open spec fn service_message(e: ServiceError) -> Seq<char> {
    match e {
        ServiceError::ConfigError(s) => "配置错误: "@ + s@,
        ServiceError::SearchFailed { path, error } => "搜索失败 - 路径: "@ + path@ + ", 错误: "@ + error@,
        ServiceError::ProcessingError(s) => "数据处理错误: "@ + s@,
        ServiceError::IoError { path, error } => "IO 错误: path="@ + path@ + ", error="@ + error@,
        ServiceError::ChannelClosed => "Channel 已关闭: 接收端已断开连接"@,
        ServiceError::Repository(r) => repository_message(r),
    }
}

/// `a`, `b`, `c` and `d` one after the other.
pub fn joined4(a: &str, b: &str, c: &str, d: &str) -> (r: String)
    ensures
        r@ == a@ + b@ + c@ + d@,
{
    let mut s = String::from_str(a);
    s.append(b);
    s.append(c);
    s.append(d);
    s
}

impl ServiceError {
    /// The text of the error.
    pub fn message(&self) -> (r: String)
        ensures
            r@ == service_message(*self),
    {
        match self {
            ServiceError::ConfigError(s) => labelled("配置错误: ", s.as_str()),
            ServiceError::SearchFailed { path, error } => joined4("搜索失败 - 路径: ", path.as_str(), ", 错误: ", error.as_str()),
            ServiceError::ProcessingError(s) => labelled("数据处理错误: ", s.as_str()),
            ServiceError::IoError { path, error } => joined4("IO 错误: path=", path.as_str(), ", error=", error.as_str()),
            ServiceError::ChannelClosed => String::from_str("Channel 已关闭: 接收端已断开连接"),
            ServiceError::Repository(r) => r.message(),
        }
    }

    /// The error of a failed I/O operation, from the I/O error's text.
    pub fn from_io_text(text: &str) -> (r: ServiceError)
        ensures
            r matches ServiceError::ProcessingError(s) && s@ == "IO 错误: "@ + text@,
    {
        ServiceError::ProcessingError(labelled("IO 错误: ", text))
    }
}

impl From<RepositoryError> for ServiceError {
    fn from(e: RepositoryError) -> (r: ServiceError) {
        ServiceError::Repository(e)
    }
}

impl vstd::std_specs::convert::FromSpecImpl<RepositoryError> for ServiceError {
    open spec fn obeys_from_spec() -> bool {
        true
    }

    open spec fn from_spec(e: RepositoryError) -> ServiceError {
        ServiceError::Repository(e)
    }
}

impl From<std::io::Error> for ServiceError {
    /// A processing error whose text is "IO 错误: " and the I/O error's
    /// text (see `from_io_text`); that text comes from the system, so this
    /// conversion states nothing more.
    fn from(e: std::io::Error) -> (r: ServiceError) {
        let text = io_error_text(&e);
        ServiceError::from_io_text(text.as_str())
    }
}

/// The text of an I/O error comes from the system, so no exact result of
/// the conversion is stated: it does not claim to obey a specification.
impl vstd::std_specs::convert::FromSpecImpl<std::io::Error> for ServiceError {
    open spec fn obeys_from_spec() -> bool {
        false
    }

    open spec fn from_spec(e: std::io::Error) -> ServiceError {
        ServiceError::ChannelClosed
    }
}

} // verus!
