//! Looking at a group, resolving it, and removing what was collected.

use vstd::prelude::*;
use crate::group::{model_of, GroupModel, LogGroup};

verus! {

/// A stored reporter: one accepted report. `time` is seconds since the
/// epoch.
#[derive(Debug)]
pub struct Reporter {
    pub id: i32,
    pub package: String,
    pub nav_url: String,
    pub version: String,
    pub user: String,
    /// Whatever the client attached.
    pub logs: String,
    pub ip: String,
    pub time: i64,
}

/// A reporter as the detail of a group shows it: without what it attached.
#[derive(Debug)]
pub struct BriefReporter {
    pub id: i32,
    pub package: String,
    pub nav_url: String,
    pub version: String,
    pub user: String,
    pub ip: String,
    pub time: i64,
}

/// The detail of a group. Times are seconds since the epoch.
#[derive(Debug)]
pub struct GroupDetail {
    pub hash: String,
    pub user_list: Vec<BriefReporter>,
    pub first_time: i64,
    pub last_time: i64,
    pub total_count: u64,
    /// 0 for open, 1 for resolved, -1 for reopened.
    pub status: i32,
    pub resolution_time: i64,
    pub message: String,
    /// Whether this caller may remove the group.
    pub can_remove: bool,
}

/// The answer to a request for a group's detail.
#[derive(Debug)]
pub enum DetailReply {
    Found(GroupDetail),
    /// No group has the key; the text says so.
    Missing(String),
}

/// Whether `brief` shows `reporter`.
pub open spec fn is_brief_of(brief: BriefReporter, reporter: Reporter) -> bool {
    &&& brief.id == reporter.id
    &&& brief.package@ == reporter.package@
    &&& brief.nav_url@ == reporter.nav_url@
    &&& brief.version@ == reporter.version@
    &&& brief.user@ == reporter.user@
    &&& brief.ip@ == reporter.ip@
    &&& brief.time == reporter.time
}

/// The reporters that were found, in the order they were asked for.
pub open spec fn found_among(resolved: Seq<Option<Reporter>>) -> Seq<Reporter>
    decreases resolved.len(),
{
    if resolved.len() == 0 {
        Seq::empty()
    } else {
        let earlier = found_among(resolved.drop_last());
        match resolved.last() {
            Some(reporter) => earlier.push(reporter),
            None => earlier,
        }
    }
}

/// Whether `briefs` shows exactly `reporters`, one for one.
pub open spec fn are_briefs_of(briefs: Seq<BriefReporter>, reporters: Seq<Reporter>) -> bool {
    &&& briefs.len() == reporters.len()
    &&& forall|i: int| 0 <= i < briefs.len() ==> is_brief_of(#[trigger] briefs[i], reporters[i])
}

/// The text that answers a request for a group that does not exist.
pub open spec fn missing_text(hash: Seq<char>) -> Seq<char> {
    "no file: "@ + hash
}

/// Whether `detail` is the detail of `group` for a caller of the given tier,
/// with `resolved` what storage held for each linked reporter.
pub open spec fn is_detail_of(
    detail: GroupDetail,
    group: GroupModel,
    resolved: Seq<Option<Reporter>>,
    elevated: bool,
) -> bool {
    &&& detail.hash@ == group.hash
    &&& are_briefs_of(detail.user_list@, found_among(resolved))
    &&& detail.first_time == group.first_time
    &&& detail.last_time == group.last_time
    &&& detail.total_count == group.total_count
    &&& detail.status == group.status.code_of()
    &&& detail.resolution_time == group.resolution_time
    &&& detail.message@ == group.message
    &&& detail.can_remove == group.removable_by(elevated)
}

/// Shows a reporter without what it attached.
pub fn brief_of(reporter: &Reporter) -> (brief: BriefReporter)
    ensures
        is_brief_of(brief, *reporter),
{
    BriefReporter {
        id: reporter.id,
        package: reporter.package.clone(),
        nav_url: reporter.nav_url.clone(),
        version: reporter.version.clone(),
        user: reporter.user.clone(),
        ip: reporter.ip.clone(),
        time: reporter.time,
    }
}

/// Answers a request for the detail of the group under `hash`.
///
/// `found` is what storage holds under `hash`, and `resolved` what it holds
/// for each reporter that the group lists, `None` where the reporter is
/// gone: those are left out. The group may be removed only if it is
/// resolved and the caller is elevated. Where there is no group the answer
/// is a text that says so.
pub fn api_log_content(
    is_admin: bool,
    hash: &str,
    found: &Option<LogGroup>,
    resolved: &Vec<Option<Reporter>>,
) -> (reply: DetailReply)
    ensures
        match *found {
            Some(group) => reply matches DetailReply::Found(detail) && is_detail_of(
                detail,
                group@,
                resolved@,
                is_admin,
            ),
            None => reply matches DetailReply::Missing(text) && text@ == missing_text(hash@),
        },
{
    match found {
        Some(group) => {
            let mut user_list: Vec<BriefReporter> = Vec::new();
            let mut i: usize = 0;
            while i < resolved.len()
                invariant
                    i <= resolved.len(),
                    are_briefs_of(user_list@, found_among(resolved@.take(i as int))),
                decreases resolved.len() - i,
            {
                proof {
                    assert(resolved@.take(i + 1).drop_last() =~= resolved@.take(i as int));
                }
                let ghost before = user_list@;
                if let Some(reporter) = &resolved[i] {
                    user_list.push(brief_of(reporter));
                    assert forall|k: int| 0 <= k < user_list@.len() implies is_brief_of(
                        #[trigger] user_list@[k],
                        found_among(resolved@.take(i + 1))[k],
                    ) by {
                        if k < before.len() {
                            assert(user_list@[k] == before[k]);
                        }
                    }
                }
                i = i + 1;
            }
            assert(resolved@.take(resolved.len() as int) =~= resolved@);
            DetailReply::Found(
                GroupDetail {
                    hash: group.hash.clone(),
                    user_list,
                    first_time: group.first_time,
                    last_time: group.last_time,
                    total_count: group.total_count,
                    status: group.status.code(),
                    resolution_time: group.resolution_time,
                    message: group.message.clone(),
                    can_remove: group.removable_by(is_admin),
                },
            )
        },
        None => DetailReply::Missing(String::from_str("no file: ").concat(hash)),
    }
}

/// Resolves the group under a key at time `now`: the group to save, or
/// `None` where storage holds no such group and nothing is to be done.
pub fn api_log_complete(found: Option<LogGroup>, now: i64) -> (save: Option<LogGroup>)
    ensures
        match found {
            Some(group) => save matches Some(resolved) && resolved@ == group@.resolve(now),
            None => save is None,
        },
{
    match found {
        Some(group) => Some(group.resolve(now)),
        None => None,
    }
}

/// What to do about a request to remove.
#[derive(Debug)]
pub enum Removal {
    /// The caller is not elevated: refuse.
    Forbidden,
    /// Nothing is stored that the request names: nothing to do.
    Nothing,
    /// Delete these reporters, then the groups.
    Delete { reporter_ids: Vec<i32>, groups: GroupSelector },
}

/// Which groups a removal deletes.
#[derive(Debug)]
pub enum GroupSelector {
    /// The one group with this key.
    ByHash(String),
    /// Every group of this category.
    ByCategory(String),
}

/// Whether `removal` is what a request to remove one group comes to, from a
/// caller of the given tier, with `found` what storage holds under the key.
pub open spec fn is_removal_of(removal: Removal, elevated: bool, found: Option<GroupModel>) -> bool {
    if !elevated {
        removal is Forbidden
    } else {
        match found {
            Some(group) => {
                &&& removal matches Removal::Delete { reporter_ids, groups }
                &&& reporter_ids@ == group.reporter_ids
                &&& groups matches GroupSelector::ByHash(hash)
                &&& hash@ == group.hash
            },
            None => removal is Nothing,
        }
    }
}

/// Decides a request to remove the group under a key, with `found` what
/// storage holds under it. Only an elevated caller may remove. Every
/// reporter that the group lists is deleted, and then the group.
pub fn api_log_remove(is_admin: bool, found: &Option<LogGroup>) -> (removal: Removal)
    ensures
        is_removal_of(removal, is_admin, model_of(*found)),
{
    if !is_admin {
        return Removal::Forbidden;
    }
    match found {
        Some(group) => Removal::Delete {
            reporter_ids: group.reporter_ids.clone(),
            groups: GroupSelector::ByHash(group.hash.clone()),
        },
        None => Removal::Nothing,
    }
}

/// The reporters that `groups` list, group after group.
pub open spec fn all_reporters(groups: Seq<LogGroup>) -> Seq<i32>
    decreases groups.len(),
{
    if groups.len() == 0 {
        Seq::empty()
    } else {
        all_reporters(groups.drop_last()) + groups.last().reporter_ids@
    }
}

/// Whether `removal` is what a request to remove a whole category comes to,
/// from a caller of the given tier, with `groups` the groups that storage
/// holds of the category.
pub open spec fn is_clearing_of(
    removal: Removal,
    elevated: bool,
    category: Seq<char>,
    groups: Seq<LogGroup>,
) -> bool {
    if !elevated {
        removal is Forbidden
    } else {
        &&& removal matches Removal::Delete { reporter_ids, groups: selected }
        &&& reporter_ids@ == all_reporters(groups)
        &&& selected matches GroupSelector::ByCategory(named)
        &&& named@ == category
    }
}

/// Decides a request to remove every group of a category, with `groups` the
/// groups that storage holds of it. Only an elevated caller may remove.
/// Every reporter that any of the groups lists is deleted, and then all
/// groups of the category.
pub fn api_clear_log(is_admin: bool, log_type: &str, groups: &Vec<LogGroup>) -> (removal: Removal)
    ensures
        is_clearing_of(removal, is_admin, log_type@, groups@),
{
    if !is_admin {
        return Removal::Forbidden;
    }
    let mut reporter_ids: Vec<i32> = Vec::new();
    let mut i: usize = 0;
    while i < groups.len()
        invariant
            i <= groups.len(),
            reporter_ids@ == all_reporters(groups@.take(i as int)),
        decreases groups.len() - i,
    {
        let listed = &groups[i].reporter_ids;
        let ghost before = reporter_ids@;
        let mut j: usize = 0;
        while j < listed.len()
            invariant
                j <= listed.len(),
                reporter_ids@ == before + listed@.take(j as int),
            decreases listed.len() - j,
        {
            reporter_ids.push(listed[j]);
            j = j + 1;
        }
        proof {
            assert(groups@.take(i + 1).drop_last() =~= groups@.take(i as int));
        }
        i = i + 1;
    }
    assert(groups@.take(groups.len() as int) =~= groups@);
    Removal::Delete {
        reporter_ids,
        groups: GroupSelector::ByCategory(String::from_str(log_type)),
    }
}

/// The text that stands for a reporter that does not exist.
pub open spec fn attachment_of(found: Option<Reporter>) -> Seq<char> {
    match found {
        Some(reporter) => reporter.logs@,
        None => "empty"@,
    }
}

/// Answers a request for what a reporter attached: the attachment, or the
/// word `empty` where storage holds no such reporter.
pub fn api_user_log(found: &Option<Reporter>) -> (body: String)
    ensures
        body@ == attachment_of(*found),
{
    match found {
        Some(reporter) => reporter.logs.clone(),
        None => String::from_str("empty"),
    }
}

/// What storage holds, as far as removal goes: the groups by key, and the
/// ids of the reporters.
pub ghost struct Stored {
    pub groups: Map<Seq<char>, GroupModel>,
    pub reporters: Set<i32>,
}

impl Stored {
    /// What storage holds under `hash`.
    pub open spec fn lookup(self, hash: Seq<char>) -> Option<GroupModel> {
        if self.groups.contains_key(hash) {
            Some(self.groups[hash])
        } else {
            None
        }
    }

    /// What storage holds once `removal` was carried out.
    pub open spec fn after(self, removal: Removal) -> Stored {
        match removal {
            Removal::Delete { reporter_ids, groups } => Stored {
                groups: match groups {
                    GroupSelector::ByHash(hash) => self.groups.remove(hash@),
                    GroupSelector::ByCategory(category) => self.groups.restrict(
                        Set::new(|key: Seq<char>| self.groups[key].log_type != category@),
                    ),
                },
                reporters: self.reporters.difference(reporter_ids@.to_set()),
            },
            _ => self,
        }
    }
}

/// Once an elevated caller's removal of the group under `hash` was carried
/// out, storage holds none of the reporters that the group listed, and no
/// group under `hash`: a later request for its detail finds nothing. Other
/// groups are untouched.
pub proof fn lemma_removed_group_is_gone(stored: Stored, hash: Seq<char>, removal: Removal)
    requires
        is_removal_of(removal, true, stored.lookup(hash)),
        stored.lookup(hash) matches Some(group) ==> group.hash == hash,
    ensures
        stored.after(removal).lookup(hash) is None,
        stored.lookup(hash) matches Some(group) ==> forall|i: int|
            0 <= i < group.reporter_ids.len() ==> !stored.after(removal).reporters.contains(
                #[trigger] group.reporter_ids[i],
            ),
        forall|other: Seq<char>|
            other != hash ==> stored.after(removal).lookup(other) == stored.lookup(other),
{
    if let Some(group) = stored.lookup(hash) {
        let listed = removal->reporter_ids;
        assert forall|i: int| 0 <= i < group.reporter_ids.len() implies !stored.after(
            removal,
        ).reporters.contains(#[trigger] group.reporter_ids[i]) by {
            assert(listed@.contains(group.reporter_ids[i]));
        }
    }
}

/// A reporter that one of `groups` lists is among all that they list.
pub proof fn lemma_listed_reporter_is_among_all(groups: Seq<LogGroup>, at: int, id: i32)
    requires
        0 <= at < groups.len(),
        groups[at].reporter_ids@.contains(id),
    ensures
        all_reporters(groups).contains(id),
    decreases groups.len(),
{
    let front = all_reporters(groups.drop_last());
    let last = groups.last().reporter_ids@;
    if at == groups.len() - 1 {
        let i = choose|i: int| 0 <= i < last.len() && last[i] == id;
        assert((front + last)[front.len() + i] == id);
    } else {
        lemma_listed_reporter_is_among_all(groups.drop_last(), at, id);
        let i = choose|i: int| 0 <= i < front.len() && front[i] == id;
        assert((front + last)[i] == id);
    }
}

/// Once an elevated caller's removal of a category was carried out, with
/// `groups` all the groups that storage held of it, storage holds no group
/// of the category and none of the reporters that those groups listed.
/// Groups of other categories are untouched.
pub proof fn lemma_cleared_category_is_gone(
    stored: Stored,
    category: Seq<char>,
    groups: Seq<LogGroup>,
    removal: Removal,
)
    requires
        is_clearing_of(removal, true, category, groups),
        forall|key: Seq<char>|
            stored.groups.contains_key(key) && stored.groups[key].log_type == category
                ==> exists|at: int|
                0 <= at < groups.len() && (#[trigger] groups[at])@ == stored.groups[key],
    ensures
        forall|key: Seq<char>| #[trigger]
            stored.after(removal).groups.contains_key(key) ==> stored.after(
                removal,
            ).groups[key].log_type != category,
        forall|key: Seq<char>, id: i32|
            stored.groups.contains_key(key) && stored.groups[key].log_type == category
                && #[trigger] stored.groups[key].reporter_ids.contains(id) ==> !stored.after(
                removal,
            ).reporters.contains(id),
        forall|key: Seq<char>|
            stored.groups.contains_key(key) && stored.groups[key].log_type != category
                ==> stored.after(removal).lookup(key) == stored.lookup(key),
{
    let listed = removal->reporter_ids;
    assert forall|key: Seq<char>, id: i32|
        stored.groups.contains_key(key) && stored.groups[key].log_type == category
            && #[trigger] stored.groups[key].reporter_ids.contains(
            id,
        ) implies !stored.after(removal).reporters.contains(id) by {
        let at = choose|at: int|
            0 <= at < groups.len() && (#[trigger] groups[at])@ == stored.groups[key];
        lemma_listed_reporter_is_among_all(groups, at, id);
        assert(listed@.contains(id));
    }
}

} // verus!
