use logseek::api_error::{problem_of, CoreError, CoreErrorKind, LogSeekApiError};
use logseek::file_url::FileUrlError;
use logseek::repository_error::RepositoryError;
use logseek::service_error::ServiceError;

#[test]
fn test_service_error_to_api_error_conversion() {
    let service_err = ServiceError::ProcessingError("LLM 调用失败: test".to_string());
    let api_err = LogSeekApiError::Service(service_err);
    match api_err {
        LogSeekApiError::Service(ServiceError::ProcessingError(msg)) => {
            assert!(msg.contains("LLM"));
        },
        _ => panic!("Expected ProcessingError"),
    }
}

#[test]
fn api_error_message_keeps_the_inner_text() {
    let err = LogSeekApiError::Service(ServiceError::ProcessingError("test error".to_string()));
    assert!(err.message().contains("test error"));
    assert_eq!(LogSeekApiError::QueryParse("x".to_string()).message(), "查询语法错误: x");
    assert_eq!(LogSeekApiError::BadJson("eof".to_string()).message(), "JSON 解析失败: eof");
    assert_eq!(LogSeekApiError::Domain(FileUrlError::MissingField("host".to_string())).message(), "Missing required field: host");
}

#[test]
fn a_bad_query_is_a_bad_request() {
    let p = problem_of(&LogSeekApiError::QueryParse("invalid syntax".to_string()));
    assert_eq!(p.status, 400);
    assert_eq!(p.title, "查询语法错误");
    assert_eq!(p.detail, "查询语法错误: invalid syntax");
}

#[test]
fn repository_errors_through_the_service_are_answered_alike() {
    let direct = problem_of(&LogSeekApiError::Repository(RepositoryError::NotFound("x".to_string())));
    let wrapped = problem_of(&LogSeekApiError::Service(ServiceError::Repository(RepositoryError::NotFound("x".to_string()))));
    assert_eq!(direct.status, 404);
    assert_eq!(wrapped.status, 404);
    assert_eq!(direct.title, wrapped.title);
    assert_eq!(direct.detail, "资源不存在: x");
    assert_eq!(wrapped.detail, "资源不存在: x");
    let storage = problem_of(&LogSeekApiError::Repository(RepositoryError::StorageError("s3".to_string())));
    assert_eq!(storage.status, 502);
}

#[test]
fn a_closed_channel_is_answered_without_its_text() {
    let p = problem_of(&LogSeekApiError::Service(ServiceError::ChannelClosed));
    assert_eq!(p.status, 500);
    assert_eq!(p.title, "通信中断");
    assert_eq!(p.detail, "数据通道已关闭");
}

#[test]
fn core_errors_map_by_kind() {
    let e = |kind| problem_of(&LogSeekApiError::Internal(CoreError { kind, text: "t".to_string() }));
    assert_eq!(e(CoreErrorKind::BadRequest).status, 400);
    assert_eq!(e(CoreErrorKind::NotFound).status, 404);
    assert_eq!(e(CoreErrorKind::ExternalService).status, 502);
    assert_eq!(e(CoreErrorKind::Database).status, 500);
    assert_eq!(e(CoreErrorKind::Config).detail, "t");
    assert_eq!(problem_of(&LogSeekApiError::StorageError("down".to_string())).detail, "存储错误: down");
}

#[test]
fn test_logseek_api_error_display() {
    let error = LogSeekApiError::QueryParse("unexpected token at 0..1".to_string());
    let error_string = error.message();
    assert!(error_string.contains("查询语法错误"));
}

#[test]
fn test_logseek_api_error_to_response() {
    let error = LogSeekApiError::QueryParse("invalid syntax".to_string());
    let response = problem_of(&error);
    assert_eq!(response.status, 400);
}
