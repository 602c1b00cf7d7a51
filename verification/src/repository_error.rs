//! Errors of the data access layer: database, object storage and cache.
use vstd::prelude::*;

verus! {

/// An error of the data access layer.
#[derive(Debug, Clone)]
pub enum RepositoryError {
    /// A query failed.
    QueryFailed(String),
    /// The object storage failed.
    StorageError(String),
    /// The resource does not exist.
    NotFound(String),
    /// A cache operation failed.
    CacheFailed(String),
    /// The database failed.
    Database(String),
}

/// The result of a data access operation.
pub type Result<T> = core::result::Result<T, RepositoryError>;

/// The text of a repository error: its kind's label, then its detail.
pub open spec fn repository_message(e: RepositoryError) -> Seq<char> {
    match e {
        RepositoryError::QueryFailed(s) => "查询失败: "@ + s@,
        RepositoryError::StorageError(s) => "对象存储错误: "@ + s@,
        RepositoryError::NotFound(s) => "资源不存在: "@ + s@,
        RepositoryError::CacheFailed(s) => "缓存操作失败: "@ + s@,
        RepositoryError::Database(s) => "数据库错误: "@ + s@,
    }
}

/// `prefix` followed by `detail`.
pub fn labelled(prefix: &str, detail: &str) -> (r: String)
    ensures
        r@ == prefix@ + detail@,
{
    let mut s = String::from_str(prefix);
    s.append(detail);
    s
}

impl RepositoryError {
    /// The text of the error.
    pub fn message(&self) -> (r: String)
        ensures
            r@ == repository_message(*self),
    {
        match self {
            RepositoryError::QueryFailed(s) => labelled("查询失败: ", s.as_str()),
            RepositoryError::StorageError(s) => labelled("对象存储错误: ", s.as_str()),
            RepositoryError::NotFound(s) => labelled("资源不存在: ", s.as_str()),
            RepositoryError::CacheFailed(s) => labelled("缓存操作失败: ", s.as_str()),
            RepositoryError::Database(s) => labelled("数据库错误: ", s.as_str()),
        }
    }

    /// The error of a failed database call, from the driver's error text.
    pub fn from_database_text(text: &str) -> (r: RepositoryError)
        ensures
            r matches RepositoryError::Database(s) && s@ == "数据库错误: "@ + text@,
    {
        RepositoryError::Database(labelled("数据库错误: ", text))
    }
}

} // verus!
