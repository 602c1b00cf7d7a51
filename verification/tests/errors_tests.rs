use logseek::repository_error::{RepositoryError, Result as RepoResult};
use logseek::service_error::ServiceError;
use logseek::search::SearchError;

#[test]
fn test_repository_error_display() {
    let err = RepositoryError::QueryFailed("SQL syntax error".to_string());
    assert_eq!(err.message(), "查询失败: SQL syntax error");

    let err = RepositoryError::StorageError("S3 connection failed".to_string());
    assert_eq!(err.message(), "对象存储错误: S3 connection failed");

    let err = RepositoryError::NotFound("User ID 123".to_string());
    assert_eq!(err.message(), "资源不存在: User ID 123");

    let err = RepositoryError::CacheFailed("Redis timeout".to_string());
    assert_eq!(err.message(), "缓存操作失败: Redis timeout");

    let err = RepositoryError::Database("Connection pool exhausted".to_string());
    assert_eq!(err.message(), "数据库错误: Connection pool exhausted");
}

#[test]
fn test_repository_error_clone() {
    let err = RepositoryError::NotFound("test".to_string());
    let cloned = err.clone();
    assert_eq!(err.message(), cloned.message());
}

#[test]
fn test_result_type_alias() {
    let ok_result: RepoResult<i32> = Ok(42);
    assert!(ok_result.is_ok());
    assert_eq!(ok_result.unwrap(), 42);

    let err_result: RepoResult<i32> = Err(RepositoryError::NotFound("test".to_string()));
    assert!(err_result.is_err());
}

#[test]
fn repository_error_from_database_text() {
    let err = RepositoryError::from_database_text("no such table: x");
    match &err {
        RepositoryError::Database(s) => assert_eq!(s, "数据库错误: no such table: x"),
        _ => panic!("expected a database error"),
    }
    assert_eq!(err.message(), "数据库错误: 数据库错误: no such table: x");
}

#[test]
fn test_service_error_config_error() {
    let err = ServiceError::ConfigError("配置文件缺失".to_string());
    assert_eq!(err.message(), "配置错误: 配置文件缺失");
}

#[test]
fn test_service_error_search_failed() {
    let err = ServiceError::SearchFailed { path: "/test/path".to_string(), error: "连接超时".to_string() };
    let msg = err.message();
    assert!(msg.contains("/test/path"));
    assert!(msg.contains("连接超时"));
    assert_eq!(msg, "搜索失败 - 路径: /test/path, 错误: 连接超时");
}

#[test]
fn test_service_error_processing_error() {
    let err = ServiceError::ProcessingError("数据解析失败".to_string());
    assert_eq!(err.message(), "数据处理错误: 数据解析失败");
}

#[test]
fn test_service_error_io_error() {
    let err = ServiceError::IoError { path: "/test/file.log".to_string(), error: "文件不存在".to_string() };
    let msg = err.message();
    assert!(msg.contains("/test/file.log"));
    assert!(msg.contains("文件不存在"));
}

#[test]
fn test_service_error_channel_closed() {
    let err = ServiceError::ChannelClosed;
    assert_eq!(err.message(), "Channel 已关闭: 接收端已断开连接");
}

#[test]
fn test_service_error_from_io_error() {
    let io_err = std::io::Error::new(std::io::ErrorKind::NotFound, "文件未找到");
    let service_err: ServiceError = io_err.into();

    match service_err {
        ServiceError::ProcessingError(msg) => {
            assert!(msg.contains("IO 错误"));
            assert!(msg.contains("文件未找到"));
        },
        _ => panic!("期望 ProcessingError"),
    }
}

#[test]
fn test_service_error_from_repository_error() {
    let repo_err = RepositoryError::NotFound("资源不存在".to_string());
    let service_err: ServiceError = repo_err.into();

    match service_err {
        ServiceError::Repository(_) => {},
        _ => panic!("期望 Repository 错误"),
    }
}

#[test]
fn service_error_of_repository_keeps_its_text() {
    let err: ServiceError = RepositoryError::NotFound("x".to_string()).into();
    assert_eq!(err.message(), "资源不存在: x");
}

#[test]
fn search_test_search_error_display() {
    let err = SearchError::Io { path: "/test/path".to_string(), error: "permission denied".to_string() };
    let msg = err.message();
    assert!(msg.contains("/test/path"));
    assert!(msg.contains("permission denied"));

    let err = SearchError::ChannelClosed;
    assert_eq!(err.message(), "Channel 已关闭: 接收端已断开连接");
}

#[test]
fn test_search_error_from_io_error() {
    let io_err = std::io::Error::new(std::io::ErrorKind::NotFound, "file not found");
    let search_err: SearchError = io_err.into();

    match search_err {
        SearchError::Io { path, error } => {
            assert_eq!(path, "unknown");
            assert!(error.contains("file not found"));
        },
        _ => panic!("Expected Io error"),
    }
}

#[test]
fn search_tests_test_search_error_display() {
    let err = SearchError::ChannelClosed;
    assert!(err.message().contains("Channel"));

    let io_err = SearchError::Io { path: "/tmp/test".to_string(), error: "permission denied".to_string() };
    assert!(io_err.message().contains("permission denied"));
}

#[test]
fn test_search_error_from_io() {
    let io_err = std::io::Error::new(std::io::ErrorKind::NotFound, "file not found");
    let err: SearchError = io_err.into();
    match err {
        SearchError::Io { path, error } => {
            assert_eq!(path, "unknown");
            assert!(error.contains("file not found"));
        },
        _ => panic!("Expected Io error"),
    }
}

#[test]
fn search_error_io_text_is_exact() {
    let err = SearchError::Io { path: "/a".to_string(), error: "b".to_string() };
    assert_eq!(err.message(), "IO错误: path=/a, error=b");
}
