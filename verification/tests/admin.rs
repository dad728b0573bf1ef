use log_collector::admin::{
    api_clear_log, api_log_complete, api_log_content, api_log_remove, api_user_log, DetailReply,
    GroupSelector, Removal, Reporter,
};
use log_collector::auth::{user_authentication, AppState, Challenge, Credentials};
use log_collector::group::{GroupStatus, LogGroup};
use log_collector::list::{api_log_list, listing_order, passes_filter, PageRequest};

fn group(hash: &str, ids: Vec<i32>, status: GroupStatus, last_time: i64) -> LogGroup {
    LogGroup {
        hash: hash.to_string(),
        log_type: "error".to_string(),
        message: format!("message of {}", hash),
        total_count: ids.len() as u64 + 3,
        reporter_ids: ids,
        first_time: 100,
        last_time,
        status,
        resolution_time: 150,
    }
}

fn reporter(id: i32) -> Reporter {
    Reporter {
        id,
        package: "pkg".to_string(),
        nav_url: "nav".to_string(),
        version: "v1".to_string(),
        user: format!("user{}", id),
        logs: format!("logs of {}", id),
        ip: "10.0.0.1".to_string(),
        time: 1000 + id as i64,
    }
}

fn state(username: &str, password: &str, admin_account: &str, admin_password: &str) -> AppState {
    AppState {
        username: username.to_string(),
        password: password.to_string(),
        admin_account: admin_account.to_string(),
        admin_password: admin_password.to_string(),
    }
}

fn credentials(user_id: &str, password: Option<&str>) -> Credentials {
    Credentials { user_id: user_id.to_string(), password: password.map(|p| p.to_string()) }
}

#[test]
fn elevated_credentials_are_elevated_beside_other_baseline_credentials() {
    let app = state("viewer", "look", "root", "secret");
    assert_eq!(user_authentication(&credentials("root", Some("secret")), &app), Ok(true));
}

#[test]
fn elevated_credentials_are_elevated_without_baseline_credentials() {
    let app = state("", "", "root", "secret");
    assert_eq!(user_authentication(&credentials("root", Some("secret")), &app), Ok(true));
    assert_eq!(user_authentication(&credentials("root", Some("wrong")), &app), Ok(false));
}

#[test]
fn baseline_credentials_are_let_in_not_elevated() {
    let app = state("viewer", "look", "root", "secret");
    assert_eq!(user_authentication(&credentials("viewer", Some("look")), &app), Ok(false));
}

#[test]
fn baseline_credentials_with_a_wrong_password_are_challenged() {
    let app = state("viewer", "look", "root", "secret");
    assert_eq!(user_authentication(&credentials("viewer", Some("nope")), &app), Err(Challenge));
    assert_eq!(user_authentication(&credentials("viewer", None), &app), Err(Challenge));
}

#[test]
fn a_right_password_with_a_wrong_user_is_challenged() {
    let app = state("viewer", "look", "", "");
    assert_eq!(user_authentication(&credentials("other", Some("look")), &app), Err(Challenge));
    assert_eq!(user_authentication(&credentials("root", Some("secret")), &app), Err(Challenge));
}

#[test]
fn with_nothing_configured_everyone_is_let_in() {
    let app = state("", "", "", "");
    assert_eq!(user_authentication(&credentials("anyone", Some("x")), &app), Ok(false));
    assert_eq!(user_authentication(&credentials("", None), &app), Ok(false));
}

#[test]
fn a_missing_password_counts_as_the_empty_one() {
    let app = state("viewer", "", "", "");
    assert_eq!(user_authentication(&credentials("viewer", None), &app), Ok(false));
    let app = state("", "", "root", "");
    assert_eq!(user_authentication(&credentials("root", None), &app), Ok(true));
}

#[test]
fn detail_leaves_out_reporters_that_are_gone() {
    let found = Some(group("abc", vec![1, 2, 3], GroupStatus::Resolved, 200));
    let resolved = vec![Some(reporter(1)), None, Some(reporter(3))];
    match api_log_content(true, "abc", &found, &resolved) {
        DetailReply::Found(detail) => {
            assert_eq!(detail.hash, "abc");
            assert_eq!(detail.user_list.len(), 2);
            assert_eq!(detail.user_list[0].id, 1);
            assert_eq!(detail.user_list[0].user, "user1");
            assert_eq!(detail.user_list[0].time, 1001);
            assert_eq!(detail.user_list[1].id, 3);
            assert_eq!(detail.user_list[1].ip, "10.0.0.1");
            assert_eq!(detail.first_time, 100);
            assert_eq!(detail.last_time, 200);
            assert_eq!(detail.total_count, 6);
            assert_eq!(detail.status, 1);
            assert_eq!(detail.resolution_time, 150);
            assert_eq!(detail.message, "message of abc");
            assert!(detail.can_remove);
        }
        DetailReply::Missing(_) => panic!("expected the detail"),
    }
}

#[test]
fn only_a_resolved_group_can_be_removed_and_only_by_an_elevated_caller() {
    for (status, is_admin, expected) in [
        (GroupStatus::Resolved, true, true),
        (GroupStatus::Resolved, false, false),
        (GroupStatus::Open, true, false),
        (GroupStatus::Reopened, true, false),
        (GroupStatus::Open, false, false),
    ] {
        let found = Some(group("abc", vec![], status, 1));
        match api_log_content(is_admin, "abc", &found, &vec![]) {
            DetailReply::Found(detail) => assert_eq!(detail.can_remove, expected),
            DetailReply::Missing(_) => panic!("expected the detail"),
        }
    }
}

#[test]
fn detail_of_an_unknown_key_says_so() {
    match api_log_content(true, "nokey", &None, &vec![]) {
        DetailReply::Missing(text) => assert_eq!(text, "no file: nokey"),
        DetailReply::Found(_) => panic!("expected no detail"),
    }
}

#[test]
fn completing_resolves_the_group() {
    let saved = api_log_complete(Some(group("abc", vec![4], GroupStatus::Reopened, 9)), 777);
    let saved = saved.unwrap();
    assert_eq!(saved.status, GroupStatus::Resolved);
    assert_eq!(saved.resolution_time, 777);
    assert_eq!(saved.reporter_ids, vec![4]);
    assert_eq!(saved.total_count, 4);
    assert_eq!(saved.last_time, 9);
    assert!(api_log_complete(None, 777).is_none());
}

#[test]
fn removing_deletes_every_listed_reporter_and_then_the_group() {
    let found = Some(group("abc", vec![5, 6, 9], GroupStatus::Resolved, 1));
    match api_log_remove(true, &found) {
        Removal::Delete { reporter_ids, groups } => {
            assert_eq!(reporter_ids, vec![5, 6, 9]);
            match groups {
                GroupSelector::ByHash(hash) => assert_eq!(hash, "abc"),
                GroupSelector::ByCategory(_) => panic!("expected one group"),
            }
        }
        _ => panic!("expected a removal"),
    }
    match api_log_content(true, "abc", &None, &vec![]) {
        DetailReply::Missing(text) => assert_eq!(text, "no file: abc"),
        DetailReply::Found(_) => panic!("expected no detail"),
    }
}

#[test]
fn removing_is_refused_to_a_caller_that_is_not_elevated() {
    let found = Some(group("abc", vec![5], GroupStatus::Resolved, 1));
    assert!(matches!(api_log_remove(false, &found), Removal::Forbidden));
    assert!(matches!(api_log_remove(false, &None), Removal::Forbidden));
    assert!(matches!(api_clear_log(false, "error", &vec![]), Removal::Forbidden));
}

#[test]
fn removing_an_unknown_group_does_nothing() {
    assert!(matches!(api_log_remove(true, &None), Removal::Nothing));
}

#[test]
fn clearing_a_category_deletes_the_reporters_of_all_its_groups() {
    let groups = vec![
        group("a", vec![1, 2], GroupStatus::Open, 1),
        group("b", vec![], GroupStatus::Resolved, 2),
        group("c", vec![7], GroupStatus::Reopened, 3),
    ];
    match api_clear_log(true, "error", &groups) {
        Removal::Delete { reporter_ids, groups } => {
            assert_eq!(reporter_ids, vec![1, 2, 7]);
            match groups {
                GroupSelector::ByCategory(category) => assert_eq!(category, "error"),
                GroupSelector::ByHash(_) => panic!("expected a category"),
            }
        }
        _ => panic!("expected a removal"),
    }
}

#[test]
fn reporter_lookup_gives_the_attachment_or_empty() {
    assert_eq!(api_user_log(&Some(reporter(4))), "logs of 4");
    assert_eq!(api_user_log(&None), "empty");
}

fn many(n: usize) -> Vec<LogGroup> {
    (0..n)
        .map(|i| {
            let status = match i % 3 {
                0 => GroupStatus::Open,
                1 => GroupStatus::Resolved,
                _ => GroupStatus::Reopened,
            };
            group(&format!("h{}", i), vec![], status, 10_000 - i as i64)
        })
        .collect()
}

#[test]
fn second_page_of_ten_among_twenty_five() {
    let out = api_log_list(false, 2, 10, &None, &many(25));
    assert_eq!(out.list.len(), 10);
    assert_eq!(out.total, 25);
    assert_eq!(out.total_pages, 3);
    assert_eq!(out.page, 2);
    assert_eq!(out.page_size, 10);
    assert_eq!(out.list[0].hash, "h10");
    assert_eq!(out.list[9].hash, "h19");
    assert_eq!(out.list[0].last_time, 9_990);
    assert_eq!(out.list[0].message, "message of h10");
    assert_eq!(out.list[0].status, 1);
    assert_eq!(out.unresolved, 9);
    assert_eq!(out.resolved, 8);
    assert!(!out.is_admin);
}

#[test]
fn last_page_is_short_and_pages_beyond_are_empty() {
    let groups = many(25);
    let out = api_log_list(true, 3, 10, &None, &groups);
    assert_eq!(out.list.len(), 5);
    assert_eq!(out.list[4].hash, "h24");
    assert!(out.is_admin);
    let out = api_log_list(true, 4, 10, &None, &groups);
    assert_eq!(out.list.len(), 0);
    assert_eq!(out.total, 25);
    assert_eq!(out.total_pages, 3);
    let out = api_log_list(true, i64::MAX, 100, &None, &groups);
    assert_eq!(out.list.len(), 0);
    assert_eq!(out.page, i64::MAX as u64);
}

#[test]
fn page_size_of_five_hundred_is_clamped_to_one_hundred() {
    let request = PageRequest::new(1, 500);
    assert_eq!(request.page_size, 100);
    let out = api_log_list(false, 1, 500, &None, &many(150));
    assert_eq!(out.page_size, 100);
    assert_eq!(out.list.len(), 100);
    assert_eq!(out.total, 150);
    assert_eq!(out.total_pages, 2);
}

#[test]
fn page_and_size_below_one_become_one() {
    assert_eq!(PageRequest::new(0, 0), PageRequest { page: 1, page_size: 1 });
    assert_eq!(PageRequest::new(-3, -8), PageRequest { page: 1, page_size: 1 });
    assert_eq!(PageRequest::new(7, 100), PageRequest { page: 7, page_size: 100 });
    assert_eq!(PageRequest::new(7, 101), PageRequest { page: 7, page_size: 100 });
    let out = api_log_list(false, 0, 0, &None, &many(3));
    assert_eq!(out.list.len(), 1);
    assert_eq!(out.list[0].hash, "h0");
    assert_eq!(out.total_pages, 3);
}

#[test]
fn no_rows_fill_no_pages() {
    let out = api_log_list(false, 1, 10, &None, &vec![]);
    assert_eq!(out.total, 0);
    assert_eq!(out.total_pages, 0);
    assert_eq!(out.list.len(), 0);
    assert_eq!(out.unresolved, 0);
    assert_eq!(out.resolved, 0);
}

#[test]
fn pages_are_counted_rounding_up() {
    let request = PageRequest::new(1, 10);
    assert_eq!(request.total_pages(0), 0);
    assert_eq!(request.total_pages(1), 1);
    assert_eq!(request.total_pages(10), 1);
    assert_eq!(request.total_pages(11), 2);
    assert_eq!(request.total_pages(25), 3);
    assert_eq!(PageRequest::new(1, 1).total_pages(u64::MAX), u64::MAX);
    assert_eq!(request.window(25), (0, 10));
    assert_eq!(PageRequest::new(3, 10).window(25), (20, 25));
    assert_eq!(PageRequest::new(4, 10).window(25), (25, 25));
}

fn timed(hash: &str, log_type: &str, last_time: i64) -> LogGroup {
    let mut g = group(hash, vec![], GroupStatus::Open, last_time);
    g.log_type = log_type.to_string();
    g
}

#[test]
fn list_shows_the_latest_report_first() {
    let groups = vec![
        timed("a", "error", 50),
        timed("b", "error", 90),
        timed("c", "error", 10),
        timed("d", "error", 90),
        timed("e", "error", 70),
    ];
    assert_eq!(listing_order(&groups, &None), vec![1, 3, 4, 0, 2]);
    let out = api_log_list(false, 1, 10, &None, &groups);
    let hashes: Vec<&str> = out.list.iter().map(|row| row.hash.as_str()).collect();
    assert_eq!(hashes, vec!["b", "d", "e", "a", "c"]);
    let out = api_log_list(false, 2, 2, &None, &groups);
    let hashes: Vec<&str> = out.list.iter().map(|row| row.hash.as_str()).collect();
    assert_eq!(hashes, vec!["e", "a"]);
    assert_eq!(out.total_pages, 3);
}

#[test]
fn list_is_filtered_by_category() {
    let mut groups = vec![
        timed("a", "error", 1),
        timed("b", "error_lua", 2),
        timed("c", "error", 3),
        timed("d", "error_lua", 4),
        timed("e", "error_net", 5),
    ];
    groups[0].status = GroupStatus::Resolved;
    groups[1].status = GroupStatus::Resolved;
    groups[2].status = GroupStatus::Reopened;
    let filter = Some("error".to_string());
    assert!(passes_filter(&groups[0], &filter));
    assert!(!passes_filter(&groups[1], &filter));
    assert!(passes_filter(&groups[1], &None));
    assert_eq!(listing_order(&groups, &filter), vec![2, 0]);
    let out = api_log_list(true, 1, 10, &filter, &groups);
    let hashes: Vec<&str> = out.list.iter().map(|row| row.hash.as_str()).collect();
    assert_eq!(hashes, vec!["c", "a"]);
    assert_eq!(out.total, 2);
    assert_eq!(out.unresolved, 0);
    assert_eq!(out.resolved, 1);
    assert_eq!(out.total_pages, 1);
    let out = api_log_list(true, 1, 10, &Some("nothing".to_string()), &groups);
    assert_eq!(out.total, 0);
    assert_eq!(out.total_pages, 0);
    assert!(out.list.is_empty());
}
