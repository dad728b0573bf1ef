//! Taking in a report: which group it joins, whether its reporter is stored,
//! and what the group looks like afterwards.
//!
//! Storage is not reached from here. [`api_upload_log`] says, for the state
//! a report is in and for what storage answered, what to ask of storage
//! next; the caller does that and comes back with the answer.

use vstd::prelude::*;
use vstd::utf8::*;
use crate::group::{links_reporter, merged, model_of, reported, should_link_reporter, LogGroup};
use crate::key::{
    group_key,
    is_error_category,
    is_error_log,
    key_text,
    lemma_same_normalized_message_same_key,
};
use crate::normalize::normalized;
use crate::reply::{address_or, caller_address, map_db_err, storage_error_text};

verus! {

/// A report as a client sends it.
#[derive(Debug)]
pub struct Submission {
    pub log_type: String,
    pub message: String,
    pub user: String,
    pub package: String,
    pub nav_url: String,
    pub version: String,
    /// Whatever the client attached; it is stored and never read here.
    pub logs: String,
}

/// A reporter that is not stored yet, and so has no id.
#[derive(Debug)]
pub struct ReporterDraft {
    pub package: String,
    pub nav_url: String,
    pub version: String,
    pub user: String,
    pub logs: String,
    pub ip: String,
    pub time: i64,
}

/// How far a report has come.
#[derive(Debug)]
pub enum IngestState {
    /// It has arrived and nothing was done.
    Received,
    /// Storage is looking for the group under `key`.
    FindingGroup { key: String },
    /// Storage is storing the reporter; `existing` is the group found.
    StoringReporter { key: String, existing: Option<LogGroup> },
    /// Storage is saving the group.
    SavingGroup,
    /// The report was answered.
    Done,
}

/// What the caller comes back with.
#[derive(Debug)]
pub enum IngestEvent {
    /// The report has arrived.
    Begin,
    /// Storage looked for the group and found this.
    GroupFound(Option<LogGroup>),
    /// Storage stored the reporter under this id.
    ReporterStored(i32),
    /// Storage saved the group.
    GroupSaved,
    /// Storage failed, with these words.
    StorageFailed(String),
}

/// What the caller is to do next.
#[derive(Debug)]
pub enum IngestAction {
    /// Look for the group with this key.
    FindGroup { hash: String },
    /// Store this reporter.
    StoreReporter(ReporterDraft),
    /// Save this group, new or changed.
    SaveGroup(LogGroup),
    /// Answer that the report was taken.
    Acknowledge,
    /// Answer with an internal error that carries this message.
    Fail(String),
    /// The event does not belong to the state; answer with an internal error.
    OutOfTurn,
}

/// Whether `draft` is the reporter of `submission`, seen from `address` at
/// time `now`.
pub open spec fn is_draft_of(
    draft: ReporterDraft,
    submission: Submission,
    address: Option<String>,
    now: i64,
) -> bool {
    &&& draft.package@ == submission.package@
    &&& draft.nav_url@ == submission.nav_url@
    &&& draft.version@ == submission.version@
    &&& draft.user@ == submission.user@
    &&& draft.logs@ == submission.logs@
    &&& draft.ip@ == address_or(address, "unknown"@)
    &&& draft.time == now
}

/// Whether the count of the group found, if any, has room for one more.
pub open spec fn has_room(existing: Option<LogGroup>) -> bool {
    existing matches Some(group) ==> group.total_count < u64::MAX
}

/// Whether `next` and `action` are the step to take from `state` on `event`.
pub open spec fn is_ingest_step(
    state: IngestState,
    event: IngestEvent,
    submission: Submission,
    address: Option<String>,
    now: i64,
    next: IngestState,
    action: IngestAction,
) -> bool {
    let key = key_text(submission.message@, submission.log_type@);
    match (state, event) {
        (_, IngestEvent::StorageFailed(detail)) => {
            &&& next is Done
            &&& action matches IngestAction::Fail(message)
            &&& message@ == storage_error_text(detail@)
        },
        (IngestState::Received, IngestEvent::Begin) => {
            if is_error_category(submission.log_type@) {
                &&& next matches IngestState::FindingGroup { key: kept }
                &&& kept@ == key
                &&& action matches IngestAction::FindGroup { hash }
                &&& hash@ == key
            } else {
                next is Done && action is Acknowledge
            }
        },
        (IngestState::FindingGroup { key: kept }, IngestEvent::GroupFound(existing)) => {
            if links_reporter(model_of(existing)) {
                &&& next matches IngestState::StoringReporter { key: held, existing: found }
                &&& held@ == kept@
                &&& found == existing
                &&& action matches IngestAction::StoreReporter(draft)
                &&& is_draft_of(draft, submission, address, now)
            } else {
                &&& next is SavingGroup
                &&& action matches IngestAction::SaveGroup(group)
                &&& group@ == merged(
                    model_of(existing),
                    kept@,
                    submission.log_type@,
                    submission.message@,
                    None,
                    now,
                )
            }
        },
        (IngestState::StoringReporter { key: kept, existing }, IngestEvent::ReporterStored(id)) => {
            &&& next is SavingGroup
            &&& action matches IngestAction::SaveGroup(group)
            &&& group@ == merged(
                model_of(existing),
                kept@,
                submission.log_type@,
                submission.message@,
                Some(id),
                now,
            )
        },
        (IngestState::SavingGroup, IngestEvent::GroupSaved) => {
            next is Done && action is Acknowledge
        },
        _ => next is Done && action is OutOfTurn,
    }
}

/// The reporter of `submission`, seen from `address` at time `now`; where
/// no address is known it is recorded as `unknown`.
pub fn draft_reporter(submission: &Submission, address: &Option<String>, now: i64) -> (draft:
    ReporterDraft)
    ensures
        is_draft_of(draft, *submission, *address, now),
{
    ReporterDraft {
        package: submission.package.clone(),
        nav_url: submission.nav_url.clone(),
        version: submission.version.clone(),
        user: submission.user.clone(),
        logs: submission.logs.clone(),
        ip: caller_address(address, "unknown"),
        time: now,
    }
}

/// The group to save for a report: `existing` with the report counted, or a
/// new group under `key`.
pub fn merge_report(
    existing: Option<LogGroup>,
    key: String,
    submission: &Submission,
    reporter: Option<i32>,
    now: i64,
) -> (group: LogGroup)
    requires
        has_room(existing),
    ensures
        group@ == merged(
            model_of(existing),
            key@,
            submission.log_type@,
            submission.message@,
            reporter,
            now,
        ),
{
    match existing {
        Some(found) => found.absorb(reporter, now),
        None => LogGroup::found(
            key,
            submission.log_type.clone(),
            submission.message.clone(),
            reporter,
            now,
        ),
    }
}

/// One step of taking in `submission`: from the state it is in and what
/// storage answered, the state it moves to and what to ask of storage next.
///
/// A report whose category is not an error category is acknowledged at once
/// and nothing is stored. Otherwise the group is looked up by the report's
/// key; the reporter is stored unless the group found lists more reporters
/// than the cap; then the group is saved with the report counted, and the
/// report is acknowledged. A storage failure ends the report with an
/// internal error wherever it stands.
pub fn api_upload_log(
    state: IngestState,
    event: IngestEvent,
    submission: &Submission,
    address: &Option<String>,
    now: i64,
) -> (step: (IngestState, IngestAction))
    requires
        event matches IngestEvent::GroupFound(existing) ==> has_room(existing),
        state matches IngestState::StoringReporter { existing, .. } ==> has_room(existing),
    ensures
        is_ingest_step(state, event, *submission, *address, now, step.0, step.1),
{
    match (state, event) {
        (_, IngestEvent::StorageFailed(detail)) => {
            (IngestState::Done, IngestAction::Fail(map_db_err(detail.as_str())))
        },
        (IngestState::Received, IngestEvent::Begin) => {
            if is_error_log(submission.log_type.as_str()) {
                let key = group_key(submission.message.as_str(), submission.log_type.as_str());
                let hash = key.clone();
                (IngestState::FindingGroup { key }, IngestAction::FindGroup { hash })
            } else {
                (IngestState::Done, IngestAction::Acknowledge)
            }
        },
        (IngestState::FindingGroup { key }, IngestEvent::GroupFound(existing)) => {
            if should_link_reporter(&existing) {
                let draft = draft_reporter(submission, address, now);
                (
                    IngestState::StoringReporter { key, existing },
                    IngestAction::StoreReporter(draft),
                )
            } else {
                let group = merge_report(existing, key, submission, None, now);
                (IngestState::SavingGroup, IngestAction::SaveGroup(group))
            }
        },
        (IngestState::StoringReporter { key, existing }, IngestEvent::ReporterStored(id)) => {
            let group = merge_report(existing, key, submission, Some(id), now);
            (IngestState::SavingGroup, IngestAction::SaveGroup(group))
        },
        (IngestState::SavingGroup, IngestEvent::GroupSaved) => {
            (IngestState::Done, IngestAction::Acknowledge)
        },
        _ => (IngestState::Done, IngestAction::OutOfTurn),
    }
}

/// Whichever way a report goes once its group was looked up, the group that
/// is saved is the group found with the report counted once: with the
/// reporter linked where one was stored, and without where the cap was
/// passed.
pub proof fn lemma_saved_group_is_reported(
    key: String,
    existing: Option<LogGroup>,
    id: i32,
    submission: Submission,
    address: Option<String>,
    now: i64,
    first: (IngestState, IngestAction),
    second: (IngestState, IngestAction),
)
    requires
        is_ingest_step(
            IngestState::FindingGroup { key },
            IngestEvent::GroupFound(existing),
            submission,
            address,
            now,
            first.0,
            first.1,
        ),
        first.1 is StoreReporter ==> is_ingest_step(
            first.0,
            IngestEvent::ReporterStored(id),
            submission,
            address,
            now,
            second.0,
            second.1,
        ),
    ensures
        first.1 is SaveGroup || first.1 is StoreReporter,
        first.1 is StoreReporter ==> second.1 is SaveGroup,
        ({
            let saved = if first.1 is SaveGroup {
                first.1->SaveGroup_0
            } else {
                second.1->SaveGroup_0
            };
            &&& saved@ == reported(
                model_of(existing),
                key@,
                submission.log_type@,
                submission.message@,
                id,
                now,
            )
            &&& (existing matches Some(group) ==> group@.well_formed()) ==> saved@.well_formed()
        }),
{
}

/// Two reports of one error category whose normalized messages agree are
/// looked up under the same key, and so join the same group.
pub proof fn lemma_same_report_same_lookup(
    first: Submission,
    second: Submission,
    address: Option<String>,
    now: i64,
    first_step: (IngestState, IngestAction),
    second_step: (IngestState, IngestAction),
)
    requires
        is_error_category(first.log_type@),
        first.log_type@ == second.log_type@,
        normalized(encode_utf8(first.message@)) == normalized(encode_utf8(second.message@)),
        is_ingest_step(
            IngestState::Received,
            IngestEvent::Begin,
            first,
            address,
            now,
            first_step.0,
            first_step.1,
        ),
        is_ingest_step(
            IngestState::Received,
            IngestEvent::Begin,
            second,
            address,
            now,
            second_step.0,
            second_step.1,
        ),
    ensures
        first_step.1 is FindGroup,
        second_step.1 is FindGroup,
        first_step.1->hash@ == second_step.1->hash@,
{
    lemma_same_normalized_message_same_key(first.message@, second.message@, first.log_type@);
}

/// How many answers of storage a report in `state` still waits for, at
/// most.
pub open spec fn steps_left(state: IngestState) -> nat {
    match state {
        IngestState::Received => 4,
        IngestState::FindingGroup { .. } => 3,
        IngestState::StoringReporter { .. } => 2,
        IngestState::SavingGroup => 1,
        IngestState::Done => 0,
    }
}

/// Every step brings a report nearer to its answer: the report is answered
/// exactly when it moves to the last state, and until then it moves to a
/// state that waits for fewer answers of storage. So a report is answered
/// after four steps at most.
pub proof fn lemma_every_step_brings_the_answer_nearer(
    state: IngestState,
    event: IngestEvent,
    submission: Submission,
    address: Option<String>,
    now: i64,
    next: IngestState,
    action: IngestAction,
)
    requires
        is_ingest_step(state, event, submission, address, now, next, action),
    ensures
        next is Done <==> (action is Acknowledge || action is Fail || action is OutOfTurn),
        !(state is Done) ==> steps_left(next) < steps_left(state),
        state is Done ==> next is Done,
{
}

} // verus!
