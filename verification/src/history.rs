//! What holds of a group over the reports it takes.

use vstd::prelude::*;
use crate::group::{reported, GroupModel, GroupStatus, MEMBER_CAP};

verus! {

/// The group under `key` after the reports `arrivals`, oldest first, of
/// which each is the id that storage gives its reporter if it stores one,
/// and the time it came at. `None` while no report has come.
pub open spec fn after_reports(
    key: Seq<char>,
    log_type: Seq<char>,
    message: Seq<char>,
    arrivals: Seq<(i32, i64)>,
) -> Option<GroupModel>
    decreases arrivals.len(),
{
    if arrivals.len() == 0 {
        None
    } else {
        let earlier = after_reports(key, log_type, message, arrivals.drop_last());
        Some(reported(earlier, key, log_type, message, arrivals.last().0, arrivals.last().1))
    }
}

/// The smaller of two numbers.
pub open spec fn least(a: int, b: int) -> int {
    if a <= b {
        a
    } else {
        b
    }
}

/// One more report counts once, whatever the group: the count grows by
/// exactly one, the reporters already listed stay as they are, and the
/// group stays well formed.
pub proof fn lemma_report_counts_once(
    group: GroupModel,
    key: Seq<char>,
    log_type: Seq<char>,
    message: Seq<char>,
    id: i32,
    now: i64,
)
    ensures
        ({
            let after = reported(Some(group), key, log_type, message, id, now);
            &&& after.total_count == group.total_count + 1
            &&& after.hash == group.hash
            &&& after.message == group.message
            &&& after.first_time == group.first_time
            &&& after.last_time == now
            &&& group.reporter_ids.is_prefix_of(after.reporter_ids)
            &&& after.reporter_ids.len() <= group.reporter_ids.len() + 1
            &&& group.well_formed() ==> after.well_formed()
        }),
{
}

/// A resolved group that is reported again is reopened; an open group stays
/// open, and a reopened one stays reopened.
pub proof fn lemma_status_after_report(
    group: GroupModel,
    key: Seq<char>,
    log_type: Seq<char>,
    message: Seq<char>,
    id: i32,
    now: i64,
)
    ensures
        ({
            let after = reported(Some(group), key, log_type, message, id, now);
            &&& group.status == GroupStatus::Resolved ==> after.status == GroupStatus::Reopened
            &&& group.status == GroupStatus::Open ==> after.status == GroupStatus::Open
            &&& group.status == GroupStatus::Reopened ==> after.status == GroupStatus::Reopened
            &&& after.resolution_time == group.resolution_time
        }),
{
}

/// After any number of reports the group has counted every one of them,
/// and it lists the reporters of the first of them, up to one beyond the
/// cap: later reports are counted and no longer linked.
pub proof fn lemma_count_and_cap(
    key: Seq<char>,
    log_type: Seq<char>,
    message: Seq<char>,
    arrivals: Seq<(i32, i64)>,
)
    requires
        arrivals.len() >= 1,
    ensures
        after_reports(key, log_type, message, arrivals) is Some,
        ({
            let group = after_reports(key, log_type, message, arrivals)->0;
            &&& group.total_count == arrivals.len()
            &&& group.reporter_ids.len() == least(arrivals.len() as int, MEMBER_CAP + 1)
            &&& forall|i: int|
                0 <= i < group.reporter_ids.len() ==> group.reporter_ids[i] == arrivals[i].0
            &&& group.well_formed()
            &&& group.status == GroupStatus::Open
            &&& group.hash == key
            &&& group.log_type == log_type
            &&& group.message == message
            &&& group.first_time == arrivals[0].1
            &&& group.last_time == arrivals.last().1
        }),
    decreases arrivals.len(),
{
    let earlier = arrivals.drop_last();
    let before = after_reports(key, log_type, message, earlier);
    let group = after_reports(key, log_type, message, arrivals)->0;
    assert(group == reported(
        before,
        key,
        log_type,
        message,
        arrivals.last().0,
        arrivals.last().1,
    ));
    if arrivals.len() > 1 {
        lemma_count_and_cap(key, log_type, message, earlier);
        assert forall|i: int| 0 <= i < group.reporter_ids.len() implies group.reporter_ids[i]
            == arrivals[i].0 by {}
    }
}

} // verus!
