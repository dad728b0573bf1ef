use log_collector::group::{should_link_reporter, GroupStatus, LogGroup, MEMBER_CAP};
use log_collector::ingest::{
    api_upload_log, draft_reporter, merge_report, IngestAction, IngestEvent, IngestState,
    Submission,
};
use log_collector::key::group_key;

fn submission(log_type: &str, message: &str) -> Submission {
    Submission {
        log_type: log_type.to_string(),
        message: message.to_string(),
        user: "ann".to_string(),
        package: "pkg".to_string(),
        nav_url: "nav".to_string(),
        version: "{\"game_id\":0}".to_string(),
        logs: "attached".to_string(),
    }
}

/// Plays storage: takes one report through all its steps and returns the
/// group that was saved, if one was.
fn deliver(
    report: &Submission,
    stored: Option<LogGroup>,
    next_id: i32,
    now: i64,
) -> (Option<LogGroup>, bool) {
    let address = Some("10.0.0.7".to_string());
    let mut reporter_stored = false;
    let (mut state, mut action) =
        api_upload_log(IngestState::Received, IngestEvent::Begin, report, &address, now);
    let mut stored = stored;
    let mut saved = None;
    loop {
        let event = match action {
            IngestAction::FindGroup { hash } => {
                assert_eq!(hash, group_key(&report.message, &report.log_type));
                IngestEvent::GroupFound(stored.take())
            }
            IngestAction::StoreReporter(draft) => {
                assert_eq!(draft.user, "ann");
                assert_eq!(draft.ip, "10.0.0.7");
                assert_eq!(draft.time, now);
                reporter_stored = true;
                IngestEvent::ReporterStored(next_id)
            }
            IngestAction::SaveGroup(group) => {
                saved = Some(group);
                IngestEvent::GroupSaved
            }
            IngestAction::Acknowledge => {
                assert!(matches!(state, IngestState::Done));
                return (saved, reporter_stored);
            }
            IngestAction::Fail(message) => panic!("failed: {}", message),
            IngestAction::OutOfTurn => panic!("out of turn"),
        };
        let step = api_upload_log(state, event, report, &address, now);
        state = step.0;
        action = step.1;
    }
}

#[test]
fn first_report_founds_a_group() {
    let report = submission("error", "crash at 0xDEADBEEF\nstack");
    let (saved, reporter_stored) = deliver(&report, None, 7, 1000);
    let group = saved.unwrap();
    assert!(reporter_stored);
    assert_eq!(group.hash, group_key("crash at 0xDEADBEEF\nstack", "error"));
    assert_eq!(group.log_type, "error");
    assert_eq!(group.message, "crash at 0xDEADBEEF\nstack");
    assert_eq!(group.reporter_ids, vec![7]);
    assert_eq!(group.total_count, 1);
    assert_eq!(group.first_time, 1000);
    assert_eq!(group.last_time, 1000);
    assert_eq!(group.status, GroupStatus::Open);
    assert_eq!(group.resolution_time, 1000);
}

#[test]
fn second_report_counts_once_and_keeps_the_first_message() {
    let first = submission("error", "crash at 0xDEADBEEF");
    let (saved, _) = deliver(&first, None, 1, 1000);
    let second = submission("error", "crash at 0x1");
    let (saved, reporter_stored) = deliver(&second, saved, 2, 2000);
    let group = saved.unwrap();
    assert!(reporter_stored);
    assert_eq!(group.total_count, 2);
    assert_eq!(group.reporter_ids, vec![1, 2]);
    assert_eq!(group.message, "crash at 0xDEADBEEF");
    assert_eq!(group.first_time, 1000);
    assert_eq!(group.last_time, 2000);
    assert_eq!(group.status, GroupStatus::Open);
}

#[test]
fn other_categories_are_acknowledged_and_not_stored() {
    let report = submission("warning", "crash at 0xDEADBEEF");
    let address = None;
    let (state, action) =
        api_upload_log(IngestState::Received, IngestEvent::Begin, &report, &address, 5);
    assert!(matches!(state, IngestState::Done));
    assert!(matches!(action, IngestAction::Acknowledge));
    let (saved, reporter_stored) = deliver(&report, None, 1, 5);
    assert!(saved.is_none());
    assert!(!reporter_stored);
}

#[test]
fn every_report_is_counted_and_reporters_stop_past_the_cap() {
    let report = submission("error", "boom");
    let mut stored = None;
    let mut stored_reporters = 0;
    for n in 1..=101 {
        let (saved, reporter_stored) = deliver(&report, stored, n, 100 + n as i64);
        if reporter_stored {
            stored_reporters += 1;
        }
        stored = saved;
        let group = stored.as_ref().unwrap();
        assert_eq!(group.total_count, n as u64);
        assert_eq!(group.reporter_ids.len(), n as usize);
    }
    let group = stored.as_ref().unwrap();
    assert_eq!(group.total_count, 101);
    assert_eq!(group.reporter_ids.len(), MEMBER_CAP + 1);
    assert_eq!(stored_reporters, 101);
    for n in 102..=150 {
        let (saved, reporter_stored) = deliver(&report, stored, n, 100 + n as i64);
        assert!(!reporter_stored);
        stored = saved;
        let group = stored.as_ref().unwrap();
        assert_eq!(group.total_count, n as u64);
        assert_eq!(group.reporter_ids.len(), MEMBER_CAP + 1);
        assert_eq!(group.last_time, 100 + n as i64);
    }
    let group = stored.unwrap();
    assert_eq!(group.total_count, 150);
    assert_eq!(group.reporter_ids, (1..=101).collect::<Vec<i32>>());
    assert!(group.total_count >= group.reporter_ids.len() as u64);
}

#[test]
fn a_group_at_the_cap_still_takes_one_reporter() {
    let mut group = LogGroup::found("k".to_string(), "error".to_string(), "m".to_string(), None, 0);
    group.reporter_ids = (0..100).collect();
    group.total_count = 100;
    assert!(group.takes_reporters());
    assert!(should_link_reporter(&Some(group)));
    let mut full =
        LogGroup::found("k".to_string(), "error".to_string(), "m".to_string(), None, 0);
    full.reporter_ids = (0..101).collect();
    full.total_count = 101;
    assert!(!full.takes_reporters());
    assert!(!should_link_reporter(&Some(full)));
    assert!(should_link_reporter(&None));
}

#[test]
fn resolved_group_reopens_on_a_new_report() {
    let report = submission("error", "boom");
    let (saved, _) = deliver(&report, None, 1, 10);
    let resolved = saved.unwrap().resolve(20);
    assert_eq!(resolved.status, GroupStatus::Resolved);
    assert_eq!(resolved.status.code(), 1);
    assert_eq!(resolved.resolution_time, 20);
    let (saved, _) = deliver(&report, Some(resolved), 2, 30);
    let group = saved.unwrap();
    assert_eq!(group.status, GroupStatus::Reopened);
    assert_eq!(group.status.code(), -1);
    assert_eq!(group.resolution_time, 20);
    assert_eq!(group.total_count, 2);
    let (saved, _) = deliver(&report, Some(group), 3, 40);
    assert_eq!(saved.unwrap().status, GroupStatus::Reopened);
}

#[test]
fn open_group_stays_open_on_a_new_report() {
    let report = submission("error", "boom");
    let (saved, _) = deliver(&report, None, 1, 10);
    let (saved, _) = deliver(&report, saved, 2, 20);
    let group = saved.unwrap();
    assert_eq!(group.status, GroupStatus::Open);
    assert_eq!(group.status.code(), 0);
}

#[test]
fn status_codes_go_both_ways() {
    assert_eq!(GroupStatus::from_code(0), Some(GroupStatus::Open));
    assert_eq!(GroupStatus::from_code(1), Some(GroupStatus::Resolved));
    assert_eq!(GroupStatus::from_code(-1), Some(GroupStatus::Reopened));
    assert_eq!(GroupStatus::from_code(2), None);
    assert_eq!(GroupStatus::from_code(-2), None);
    assert_eq!(GroupStatus::Open.reported_again(), GroupStatus::Open);
    assert_eq!(GroupStatus::Resolved.reported_again(), GroupStatus::Reopened);
    assert_eq!(GroupStatus::Reopened.reported_again(), GroupStatus::Reopened);
}

#[test]
fn storage_failure_ends_the_report_with_an_internal_error() {
    let report = submission("error", "boom");
    let address = None;
    let (state, _) =
        api_upload_log(IngestState::Received, IngestEvent::Begin, &report, &address, 1);
    let (state, action) = api_upload_log(
        state,
        IngestEvent::StorageFailed("disk full".to_string()),
        &report,
        &address,
        1,
    );
    assert!(matches!(state, IngestState::Done));
    match action {
        IngestAction::Fail(message) => assert_eq!(message, "sqlx error:disk full"),
        _ => panic!("expected a failure"),
    }
}

#[test]
fn an_event_out_of_turn_is_refused() {
    let report = submission("error", "boom");
    let address = None;
    let (state, action) =
        api_upload_log(IngestState::Received, IngestEvent::GroupSaved, &report, &address, 1);
    assert!(matches!(state, IngestState::Done));
    assert!(matches!(action, IngestAction::OutOfTurn));
    let (_, action) =
        api_upload_log(IngestState::Done, IngestEvent::Begin, &report, &address, 1);
    assert!(matches!(action, IngestAction::OutOfTurn));
}

#[test]
fn reporter_without_address_is_recorded_as_unknown() {
    let report = submission("error", "boom");
    let draft = draft_reporter(&report, &None, 77);
    assert_eq!(draft.ip, "unknown");
    assert_eq!(draft.package, "pkg");
    assert_eq!(draft.nav_url, "nav");
    assert_eq!(draft.version, "{\"game_id\":0}");
    assert_eq!(draft.logs, "attached");
    assert_eq!(draft.time, 77);
}

#[test]
fn a_report_past_the_cap_is_counted_without_a_reporter() {
    let report = submission("error", "boom");
    let mut group =
        LogGroup::found("k".to_string(), "error".to_string(), "first".to_string(), Some(1), 5);
    group.status = GroupStatus::Resolved;
    let merged = merge_report(Some(group), "k".to_string(), &report, None, 9);
    assert_eq!(merged.total_count, 2);
    assert_eq!(merged.reporter_ids, vec![1]);
    assert_eq!(merged.message, "first");
    assert_eq!(merged.status, GroupStatus::Reopened);
    assert_eq!(merged.last_time, 9);
    assert_eq!(merged.first_time, 5);
}
