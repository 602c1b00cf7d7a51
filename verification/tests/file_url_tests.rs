use logseek::file_url::{FileUrl, EndpointType, TargetType, FileUrlError};
use logseek::config::{Endpoint, Source, Target};
use logseek::file_url::{
    build_file_url_for_result, build_file_url_for_result_with_archive_path, build_file_url_for_result_with_source_type,
};
use logseek::search::EntrySourceType;

#[test]
fn test_local_file() {
    let url = FileUrl::new(EndpointType::Local, "localhost".to_string(), TargetType::Dir, "/var/log/syslog".to_string(), None);
    assert_eq!(url.to_url_string().unwrap(), "ls://local/var/log/syslog");
}

#[test]
fn test_agent_file() {
    let url = FileUrl::new(EndpointType::Agent, "web-01".to_string(), TargetType::Dir, "app/logs/error.log".to_string(), None);
    assert_eq!(url.to_url_string().unwrap(), "ls://web-01@agent/app/logs/error.log");
}

#[test]
fn test_s3_archive() {
    let url = FileUrl::new(
        EndpointType::S3,
        "prod:logs".to_string(),
        TargetType::Archive,
        "2023/data.tgz".to_string(),
        Some("access.log".to_string()),
    );
    assert_eq!(url.to_url_string().unwrap(), "ls://prod@s3/logs/2023/data.tgz?entry=access.log");
}

#[test]
fn test_multi_cluster() {
    let url = FileUrl::new(EndpointType::Agent, "web-01".to_string(), TargetType::Dir, "app.log".to_string(), None)
        .with_server_addr("hk-prod".to_string());
    assert_eq!(url.to_url_string().unwrap(), "ls://web-01@agent.hk-prod/app.log");

    let url_with_port = FileUrl::new(EndpointType::Agent, "web-01".to_string(), TargetType::Dir, "app.log".to_string(), None)
        .with_server_addr("hk-prod:4000".to_string());
    assert_eq!(url_with_port.to_url_string().unwrap(), "ls://web-01@agent.hk-prod:4000/app.log");
}

#[test]
fn test_parse_concise() {
    let s = "ls://web-01@agent.hk-prod:4000/var/log/syslog?entry=internal.log";
    let url = FileUrl::from_str(s).unwrap();
    assert_eq!(url.endpoint_id, "web-01");
    assert_eq!(url.endpoint_type, EndpointType::Agent);
    assert_eq!(url.server_addr.as_deref(), Some("hk-prod:4000"));
    assert_eq!(url.path, "var/log/syslog");
    assert_eq!(url.entry_path.as_deref(), Some("internal.log"));
    assert_eq!(url.target_type, TargetType::Archive);
}

#[test]
fn test_parse_s3_with_colon() {
    let s = "ls://prod@s3/bucket/archive.tgz?entry=log";
    let url = FileUrl::from_str(s).unwrap();
    assert_eq!(url.endpoint_id, "prod:bucket");
    assert_eq!(url.endpoint_type, EndpointType::S3);
    assert_eq!(url.target_type, TargetType::Archive);
}

#[test]
fn file_url_round_trip_through_text() {
    let url = FileUrl::new(EndpointType::Agent, "web-01".to_string(), TargetType::Archive, "var/a.tar.gz".to_string(), Some("x/y.log".to_string()));
    let text = url.to_url_string().unwrap();
    let back = FileUrl::from_str(&text).unwrap();
    assert_eq!(back.endpoint_id, "web-01");
    assert_eq!(back.path, "var/a.tar.gz");
    assert_eq!(back.entry_path.as_deref(), Some("x/y.log"));
}

#[test]
fn file_url_refuses_other_schemes() {
    assert!(matches!(FileUrl::from_str("http://x@agent/a"), Err(FileUrlError::UnsupportedScheme(_))));
}

#[test]
fn file_url_display_name_is_last_segment() {
    let url = FileUrl::new(EndpointType::Local, "localhost".to_string(), TargetType::Archive, "/a/b.tar".to_string(), Some("d/e.log".to_string()));
    assert_eq!(url.display_name(), "e.log");
    assert!(url.is_archive_entry());
}

#[test]
fn from_str_names_the_refused_scheme_and_endpoint_type() {
    assert!(matches!(FileUrl::from_str("http://x/y"), Err(FileUrlError::UnsupportedScheme(s)) if s == "http"));
    assert!(matches!(FileUrl::from_str("ls://foo/y"), Err(FileUrlError::InvalidEndpointType(s)) if s == "foo"));
}

#[test]
fn the_url_builders_agree_and_give_the_url_text() {
    let source = Source {
        endpoint: Endpoint::Agent { agent_id: "web-01".to_string(), subpath: "logs".to_string() },
        target: Target::Archive { path: "a.tar.gz".to_string(), entry: None },
        filter_glob: None,
    };
    let (u, text) = build_file_url_for_result_with_archive_path(&source, "./inner/x.log", Some("/data/a.tar.gz"), None).unwrap();
    let expected = FileUrl::new(EndpointType::Agent, "web-01".to_string(), TargetType::Archive, "data/a.tar.gz".to_string(), Some("inner/x.log".to_string()));
    assert_eq!(format!("{:?}", u), format!("{:?}", expected));
    assert_eq!(text, expected.to_url_string().unwrap());
    let a = build_file_url_for_result(&source, "x.log", None).unwrap();
    let b = build_file_url_for_result_with_source_type(&source, "x.log", EntrySourceType::Tar, None).unwrap();
    let c = build_file_url_for_result_with_archive_path(&source, "x.log", None, None).unwrap();
    assert_eq!(format!("{:?}", a), format!("{:?}", b));
    assert_eq!(format!("{:?}", a), format!("{:?}", c));
}
