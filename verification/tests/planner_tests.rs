use chrono::{Datelike, NaiveDate};
use logseek::planner::{
    parse_date_directives_checked, split_date_range_by_today, BbipPlanner, DateRange, PlannerProfile, SourceConfig, write_padded,
};

fn day(y: i32, m: u32, d: u32) -> i32 {
    NaiveDate::from_ymd_opt(y, m, d).unwrap().num_days_from_ce()
}

#[test]
fn date_range_orders_its_ends() {
    assert_eq!(DateRange::new(5, 3), DateRange { start: 3, end: 5 });
    assert_eq!(DateRange::new(3, 5), DateRange { start: 3, end: 5 });
}

#[test]
fn directives_give_the_range_and_the_cleaned_query() {
    let today = day(2024, 3, 10);
    let (q, r) = parse_date_directives_checked("error fdt:20240301 tdt:20240305 app:x", today).unwrap();
    assert_eq!(q, "error app:x");
    assert_eq!(r, DateRange { start: day(2024, 3, 1), end: day(2024, 3, 5) });

    let (q, r) = parse_date_directives_checked("dt:20240102 timeout", today).unwrap();
    assert_eq!(q, "timeout");
    assert_eq!(r, DateRange { start: day(2024, 1, 2), end: day(2024, 1, 2) });

    let (q, r) = parse_date_directives_checked("just words", today).unwrap();
    assert_eq!(q, "just words");
    assert_eq!(r, DateRange { start: today, end: today });

    // reversed ends are put in order; a value that is no date is today
    let (_, r) = parse_date_directives_checked("fdt:20240305 tdt:20240301", today).unwrap();
    assert_eq!(r, DateRange { start: day(2024, 3, 1), end: day(2024, 3, 5) });
    let (_, r) = parse_date_directives_checked("dt:20241399", today).unwrap();
    assert_eq!(r, DateRange { start: today, end: today });
}

#[test]
fn split_by_today_partitions_the_range() {
    let today = 100;
    assert_eq!(split_date_range_by_today(DateRange { start: 90, end: 99 }, today), (None, Some(DateRange { start: 90, end: 99 })));
    assert_eq!(split_date_range_by_today(DateRange { start: 100, end: 105 }, today), (Some(DateRange { start: 100, end: 105 }), None));
    assert_eq!(
        split_date_range_by_today(DateRange { start: 95, end: 102 }, today),
        (Some(DateRange { start: 100, end: 102 }), Some(DateRange { start: 95, end: 99 }))
    );
}

#[test]
fn padded_numbers() {
    assert_eq!(write_padded(7, 2), "07");
    assert_eq!(write_padded(2024, 4), "2024");
    assert_eq!(write_padded(-5, 3), "-05");
    assert_eq!(write_padded(123, 2), "123");
}

#[test]
fn plan_sources_agents_today_archives_before() {
    let planner = BbipPlanner;
    assert_eq!(planner.app_id(), "bbip");
    let today = day(2024, 3, 10);
    let profiles = vec![PlannerProfile { profile_name: "p1".to_string(), bucket: "b1".to_string() }];
    let agents = vec!["agent-1".to_string()];
    let plan = planner.plan_sources(&profiles, &agents, "error fdt:20240309 tdt:20240310", today);
    assert_eq!(plan.cleaned_query, "error");
    // one agent source for today, four archives (one per bucket) for yesterday
    assert_eq!(plan.sources.len(), 5);
    match &plan.sources[0] {
        SourceConfig::Agent { endpoint, scope_root, path_filter_glob } => {
            assert_eq!(endpoint, "agent-1");
            assert_eq!(scope_root.as_deref(), Some("logs"));
            assert_eq!(path_filter_glob.as_deref(), Some("**/2024-03-10/**"));
        },
        _ => panic!("expected an agent source"),
    }
    match &plan.sources[1] {
        SourceConfig::S3 { profile, bucket, key, .. } => {
            assert_eq!(profile, "p1");
            assert_eq!(bucket.as_deref(), Some("b1"));
            assert_eq!(key.as_deref(), Some("bbip/2024/202403/20240310/BBIP_20_APPLOG_2024-03-09.tar.gz"));
        },
        _ => panic!("expected an archive source"),
    }
}

#[test]
fn plan_sources_without_agents_or_profiles() {
    let planner = BbipPlanner;
    let today = day(2024, 3, 10);
    let plan = planner.plan_sources(&vec![], &vec![], "dt:20240301 x", today);
    assert!(plan.sources.is_empty());
    assert_eq!(plan.cleaned_query, "x");
}

#[test]
fn plan_checked_refuses_days_chrono_cannot_hold() {
    let planner = BbipPlanner;
    assert!(planner.plan_checked(&vec![], &vec![], "x", i32::MIN).is_none());
    assert!(planner.plan_checked(&vec![], &vec![], "x", i32::MAX).is_none());
    let today = day(2024, 3, 10);
    let p = planner.plan_checked(&vec![], &vec!["a".to_string()], "x", today).unwrap();
    assert_eq!(p.sources.len(), 1);
}

#[test]
fn a_plan_for_today_is_always_made() {
    let planner = BbipPlanner;
    let plan = planner.plan(&vec![], &vec!["agent-1".to_string()], "error dt:20240101");
    let plan = plan.expect("today is a day chrono holds");
    assert_eq!(plan.cleaned_query, "error");
}
