//! Error groups: one per distinct normalized message and category.

use vstd::prelude::*;

verus! {

/// A group takes new reporters as long as it lists no more than this many.
pub const MEMBER_CAP: usize = 100;

/// Where a group stands with the people who look after it.
#[derive(Clone, Copy, Debug, PartialEq, Eq, Structural)]
pub enum GroupStatus {
    /// Nobody has resolved it.
    Open,
    /// It was resolved, and nothing has come in since.
    Resolved,
    /// It was resolved, and then reported again.
    Reopened,
}

impl GroupStatus {
    /// The number under which a status is stored and sent.
    pub open spec fn code_of(self) -> int {
        match self {
            GroupStatus::Open => 0,
            GroupStatus::Resolved => 1,
            GroupStatus::Reopened => -1,
        }
    }

    /// The status after one more report: a resolved group is reopened, any
    /// other keeps its status.
    pub open spec fn after_report(self) -> GroupStatus {
        match self {
            GroupStatus::Open => GroupStatus::Open,
            GroupStatus::Resolved => GroupStatus::Reopened,
            GroupStatus::Reopened => GroupStatus::Reopened,
        }
    }

    /// The number under which the status is stored and sent.
    pub fn code(self) -> (code: i32)
        ensures
            code == self.code_of(),
    {
        match self {
            GroupStatus::Open => 0,
            GroupStatus::Resolved => 1,
            GroupStatus::Reopened => -1,
        }
    }

    /// The status stored under `code`, if `code` is one of the three.
    pub fn from_code(code: i32) -> (status: Option<GroupStatus>)
        ensures
            status is Some <==> -1 <= code <= 1,
            status is Some ==> status->0.code_of() == code,
    {
        if code == 0 {
            Some(GroupStatus::Open)
        } else if code == 1 {
            Some(GroupStatus::Resolved)
        } else if code == -1 {
            Some(GroupStatus::Reopened)
        } else {
            None
        }
    }

    /// The status after one more report.
    pub fn reported_again(self) -> (next: GroupStatus)
        ensures
            next == self.after_report(),
    {
        match self {
            GroupStatus::Open => GroupStatus::Open,
            GroupStatus::Resolved => GroupStatus::Reopened,
            GroupStatus::Reopened => GroupStatus::Reopened,
        }
    }
}

/// A group of reports that share one key. Times are seconds since the epoch.
#[derive(Debug)]
pub struct LogGroup {
    /// The key: the digest of the normalized message and the category.
    pub hash: String,
    pub log_type: String,
    /// The message of the first report, as it came.
    pub message: String,
    /// The reporters linked to this group, oldest first.
    pub reporter_ids: Vec<i32>,
    /// How many reports the group has taken, linked or not.
    pub total_count: u64,
    pub first_time: i64,
    pub last_time: i64,
    pub status: GroupStatus,
    /// When the group was last resolved; it is kept when the group reopens.
    pub resolution_time: i64,
}

/// A group as a mathematical value.
pub ghost struct GroupModel {
    pub hash: Seq<char>,
    pub log_type: Seq<char>,
    pub message: Seq<char>,
    pub reporter_ids: Seq<i32>,
    pub total_count: nat,
    pub first_time: i64,
    pub last_time: i64,
    pub status: GroupStatus,
    pub resolution_time: i64,
}

impl View for LogGroup {
    type V = GroupModel;

    open spec fn view(&self) -> GroupModel {
        GroupModel {
            hash: self.hash@,
            log_type: self.log_type@,
            message: self.message@,
            reporter_ids: self.reporter_ids@,
            total_count: self.total_count as nat,
            first_time: self.first_time,
            last_time: self.last_time,
            status: self.status,
            resolution_time: self.resolution_time,
        }
    }
}

impl GroupModel {
    /// What every group built by this library satisfies: it has counted at
    /// least as many reports as it lists reporters, and it lists at most one
    /// reporter beyond the cap.
    pub open spec fn well_formed(self) -> bool {
        &&& self.reporter_ids.len() <= self.total_count
        &&& self.reporter_ids.len() <= MEMBER_CAP + 1
    }

    /// Whether a report to this group still gets a reporter linked.
    pub open spec fn takes_reporters(self) -> bool {
        self.reporter_ids.len() <= MEMBER_CAP
    }

    /// The group after one more report at time `now`, with `reporter` linked
    /// if one was stored.
    pub open spec fn absorb(self, reporter: Option<i32>, now: i64) -> GroupModel {
        GroupModel {
            reporter_ids: match reporter {
                Some(id) => self.reporter_ids.push(id),
                None => self.reporter_ids,
            },
            total_count: self.total_count + 1,
            last_time: now,
            status: self.status.after_report(),
            ..self
        }
    }

    /// The group after it was resolved at time `now`.
    pub open spec fn resolve(self, now: i64) -> GroupModel {
        GroupModel { status: GroupStatus::Resolved, resolution_time: now, ..self }
    }

    /// Whether the group may be removed by a caller of the given tier: only
    /// a resolved group, and only by an elevated caller.
    pub open spec fn removable_by(self, elevated: bool) -> bool {
        self.status == GroupStatus::Resolved && elevated
    }
}

/// The group that a first report founds.
pub open spec fn founded(
    hash: Seq<char>,
    log_type: Seq<char>,
    message: Seq<char>,
    reporter: Option<i32>,
    now: i64,
) -> GroupModel {
    GroupModel {
        hash,
        log_type,
        message,
        reporter_ids: match reporter {
            Some(id) => seq![id],
            None => Seq::empty(),
        },
        total_count: 1,
        first_time: now,
        last_time: now,
        status: GroupStatus::Open,
        resolution_time: now,
    }
}

/// The model of the group found, if one was.
pub open spec fn model_of(existing: Option<LogGroup>) -> Option<GroupModel> {
    match existing {
        Some(group) => Some(group@),
        None => None,
    }
}

/// Whether a report to `existing` gets a reporter stored and linked: always
/// for a new group, and for a known one unless it lists more than the cap.
pub open spec fn links_reporter(existing: Option<GroupModel>) -> bool {
    match existing {
        Some(group) => group.takes_reporters(),
        None => true,
    }
}

/// The group to save for a report: the known group with the report counted,
/// or a new group founded on it.
pub open spec fn merged(
    existing: Option<GroupModel>,
    key: Seq<char>,
    log_type: Seq<char>,
    message: Seq<char>,
    reporter: Option<i32>,
    now: i64,
) -> GroupModel {
    match existing {
        Some(group) => group.absorb(reporter, now),
        None => founded(key, log_type, message, reporter, now),
    }
}

/// The group under `key` after a report at time `now`, where storage gives
/// the reporter the id `id` if it is asked to store one.
pub open spec fn reported(
    existing: Option<GroupModel>,
    key: Seq<char>,
    log_type: Seq<char>,
    message: Seq<char>,
    id: i32,
    now: i64,
) -> GroupModel {
    let reporter = if links_reporter(existing) {
        Some(id)
    } else {
        None
    };
    merged(existing, key, log_type, message, reporter, now)
}

impl LogGroup {
    /// Founds a group on its first report.
    pub fn found(
        hash: String,
        log_type: String,
        message: String,
        reporter: Option<i32>,
        now: i64,
    ) -> (group: LogGroup)
        ensures
            group@ == founded(hash@, log_type@, message@, reporter, now),
            group@.well_formed(),
    {
        let mut reporter_ids: Vec<i32> = Vec::new();
        if let Some(id) = reporter {
            reporter_ids.push(id);
        }
        let group = LogGroup {
            hash,
            log_type,
            message,
            reporter_ids,
            total_count: 1,
            first_time: now,
            last_time: now,
            status: GroupStatus::Open,
            resolution_time: now,
        };
        assert(group@.reporter_ids =~= founded(
            hash@,
            log_type@,
            message@,
            reporter,
            now,
        ).reporter_ids);
        group
    }

    /// Whether a report to this group still gets a reporter linked.
    pub fn takes_reporters(&self) -> (takes: bool)
        ensures
            takes == self@.takes_reporters(),
    {
        self.reporter_ids.len() <= MEMBER_CAP
    }

    /// Counts one more report at time `now` and links `reporter` if one was
    /// stored. The count must have room for it.
    pub fn absorb(self, reporter: Option<i32>, now: i64) -> (group: LogGroup)
        requires
            self.total_count < u64::MAX,
        ensures
            group@ == self@.absorb(reporter, now),
            self@.well_formed() && (reporter is Some ==> self@.takes_reporters())
                ==> group@.well_formed(),
    {
        let mut group = self;
        if let Some(id) = reporter {
            group.reporter_ids.push(id);
        }
        group.total_count = group.total_count + 1;
        group.last_time = now;
        group.status = group.status.reported_again();
        group
    }

    /// Marks the group resolved at time `now`.
    pub fn resolve(self, now: i64) -> (group: LogGroup)
        ensures
            group@ == self@.resolve(now),
            self@.well_formed() ==> group@.well_formed(),
    {
        let mut group = self;
        group.status = GroupStatus::Resolved;
        group.resolution_time = now;
        group
    }

    /// Whether a caller of the given tier may remove the group.
    pub fn removable_by(&self, elevated: bool) -> (allowed: bool)
        ensures
            allowed == self@.removable_by(elevated),
    {
        match self.status {
            GroupStatus::Resolved => elevated,
            _ => false,
        }
    }
}

/// Whether a report to `existing` gets a reporter stored and linked.
pub fn should_link_reporter(existing: &Option<LogGroup>) -> (link: bool)
    ensures
        link == links_reporter(model_of(*existing)),
{
    match existing {
        Some(group) => group.takes_reporters(),
        None => true,
    }
}

} // verus!
