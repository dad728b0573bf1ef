//! The paged list of groups.

use vstd::prelude::*;
use crate::group::{GroupStatus, LogGroup};
use crate::text::text_equal;

verus! {

/// The largest page that is served.
pub const MAX_PAGE_SIZE: u64 = 100;

/// The page asked for, once out-of-range values are brought into range.
#[derive(Clone, Copy, Debug, PartialEq, Eq, Structural)]
pub struct PageRequest {
    /// At least 1.
    pub page: u64,
    /// Between 1 and the largest page size.
    pub page_size: u64,
}

/// The page number served for the one asked: at least 1.
pub open spec fn clamped_page(page: int) -> int {
    if page < 1 {
        1
    } else {
        page
    }
}

/// The page size served for the one asked: between 1 and the largest.
pub open spec fn clamped_size(page_size: int) -> int {
    if page_size < 1 {
        1
    } else if page_size > MAX_PAGE_SIZE {
        MAX_PAGE_SIZE as int
    } else {
        page_size
    }
}

/// How many pages `total` rows fill: the quotient rounded up.
pub open spec fn page_count(total: int, page_size: int) -> int {
    if total <= 0 {
        0
    } else {
        (total + page_size - 1) / page_size
    }
}

/// How many rows stand before the page.
pub open spec fn page_offset(page: int, page_size: int) -> int {
    (page - 1) * page_size
}

/// Where the page begins among `total` rows.
pub open spec fn page_start(total: int, page: int, page_size: int) -> int {
    if page_offset(page, page_size) < total {
        page_offset(page, page_size)
    } else {
        total
    }
}

/// Where the page ends among `total` rows.
pub open spec fn page_end(total: int, page: int, page_size: int) -> int {
    if page_offset(page, page_size) + page_size < total {
        page_offset(page, page_size) + page_size
    } else {
        total
    }
}

impl PageRequest {
    /// Whether page and page size are in range.
    pub open spec fn well_formed(self) -> bool {
        1 <= self.page && 1 <= self.page_size <= MAX_PAGE_SIZE
    }

    /// Brings the page and page size asked for into range. Neither is ever
    /// refused: a page below 1 becomes 1, a size below 1 becomes 1, and a
    /// size above the largest becomes the largest.
    pub fn new(page: i64, page_size: i64) -> (request: PageRequest)
        ensures
            request.page == clamped_page(page as int),
            request.page_size == clamped_size(page_size as int),
            request.well_formed(),
    {
        let page: u64 = if page < 1 {
            1
        } else {
            page as u64
        };
        let page_size: u64 = if page_size < 1 {
            1
        } else if page_size > 100 {
            MAX_PAGE_SIZE
        } else {
            page_size as u64
        };
        PageRequest { page, page_size }
    }

    /// How many pages `total` rows fill at this page size; none for no rows.
    pub fn total_pages(&self, total: u64) -> (pages: u64)
        requires
            self.well_formed(),
        ensures
            pages == page_count(total as int, self.page_size as int),
    {
        if total == 0 {
            0
        } else {
            let full: u64 = total / self.page_size;
            assert(total % self.page_size != 0 ==> full < total) by (nonlinear_arith)
                requires
                    full == total / self.page_size,
                    self.page_size >= 1,
            ;
            let pages: u64 = if total % self.page_size == 0 {
                full
            } else {
                full + 1
            };
            proof {
                lemma_rounded_up(total as int, self.page_size as int);
            }
            pages
        }
    }

    /// The rows of this page among `total` rows: from the first of the two
    /// positions up to the second. A page beyond the last row is empty.
    pub fn window(&self, total: usize) -> (bounds: (usize, usize))
        requires
            self.well_formed(),
        ensures
            bounds.0 == page_start(total as int, self.page as int, self.page_size as int),
            bounds.1 == page_end(total as int, self.page as int, self.page_size as int),
            bounds.0 <= bounds.1 <= total,
            bounds.1 - bounds.0 <= self.page_size,
    {
        let before: u128 = (self.page - 1) as u128;
        let size: u128 = self.page_size as u128;
        assert(before * size <= 0xffff_ffff_ffff_ffff * 100) by (nonlinear_arith)
            requires
                before <= 0xffff_ffff_ffff_ffff,
                size <= 100,
        ;
        let offset: u128 = before * size;
        let start: usize = if offset < total as u128 {
            offset as usize
        } else {
            total
        };
        let end: usize = if offset + size < total as u128 {
            (offset + size) as usize
        } else {
            total
        };
        (start, end)
    }
}

/// Rounding a quotient up is the quotient, and one more where a remainder
/// is left.
pub proof fn lemma_rounded_up(total: int, size: int)
    requires
        total >= 1,
        size >= 1,
    ensures
        (total + size - 1) / size == if total % size == 0 {
            total / size
        } else {
            total / size + 1
        },
{
    let q = total / size;
    let r = total % size;
    assert(total == q * size + r && 0 <= r < size) by (nonlinear_arith)
        requires
            q == total / size,
            r == total % size,
            size >= 1,
    ;
    if r == 0 {
        assert((q * size + size - 1) / size == q) by (nonlinear_arith)
            requires
                size >= 1,
        ;
    } else {
        assert((q * size + r + size - 1) / size == q + 1) by (nonlinear_arith)
            requires
                size >= 1,
                1 <= r < size,
        ;
    }
}

/// One row of the list. Times are seconds since the epoch.
#[derive(Debug)]
pub struct GroupRow {
    pub hash: String,
    pub first_time: i64,
    pub last_time: i64,
    pub total_count: u64,
    /// 0 for open, 1 for resolved, -1 for reopened.
    pub status: i32,
    pub message: String,
}

/// One page of the list, with the totals over all rows that matched.
#[derive(Debug)]
pub struct GroupList {
    pub list: Vec<GroupRow>,
    pub total: u64,
    /// How many of the matching groups are open.
    pub unresolved: u64,
    /// How many of the matching groups are resolved.
    pub resolved: u64,
    pub page: u64,
    pub page_size: u64,
    pub total_pages: u64,
    /// Whether the caller is elevated.
    pub is_admin: bool,
}

/// Whether `row` shows `group`.
pub open spec fn is_row_of(row: GroupRow, group: LogGroup) -> bool {
    &&& row.hash@ == group.hash@
    &&& row.first_time == group.first_time
    &&& row.last_time == group.last_time
    &&& row.total_count == group.total_count
    &&& row.status == group.status.code_of()
    &&& row.message@ == group.message@
}

/// Whether `group` passes the caller's filter: any group where none is set,
/// and otherwise those of the category named.
pub open spec fn passes(group: LogGroup, log_type: Option<String>) -> bool {
    match log_type {
        Some(category) => group.log_type@ == category@,
        None => true,
    }
}

/// Whether the group at position `a` is listed before the one at `b`: the
/// one reported later comes first, and of two reported at the same time the
/// one stored first.
pub open spec fn listed_before(groups: Seq<LogGroup>, a: int, b: int) -> bool {
    groups[a].last_time > groups[b].last_time || (groups[a].last_time == groups[b].last_time
        && a < b)
}

/// Whether `order` lists the positions below `bound` of the groups that
/// pass the filter: each of them, none other, latest report first.
pub open spec fn lists_up_to(
    order: Seq<usize>,
    groups: Seq<LogGroup>,
    log_type: Option<String>,
    bound: int,
) -> bool {
    &&& forall|i: int|
        0 <= i < order.len() ==> (#[trigger] order[i]) < bound && passes(
            groups[order[i] as int],
            log_type,
        )
    &&& forall|k: int|
        0 <= k < bound && passes(#[trigger] groups[k], log_type) ==> order.contains(k as usize)
    &&& forall|i: int, j: int|
        0 <= i < j < order.len() ==> listed_before(
            groups,
            #[trigger] order[i] as int,
            #[trigger] order[j] as int,
        )
}

/// Whether `order` is the order in which the list shows `groups`: the
/// positions of all groups that pass the filter, latest report first.
pub open spec fn is_listing_order(
    order: Seq<usize>,
    groups: Seq<LogGroup>,
    log_type: Option<String>,
) -> bool {
    lists_up_to(order, groups, log_type, groups.len() as int)
}

/// Whether `order` goes by the order of the list: each position is listed
/// before every one that follows it.
pub open spec fn is_in_list_order(order: Seq<usize>, groups: Seq<LogGroup>) -> bool {
    forall|i: int, j: int|
        0 <= i < j < order.len() ==> listed_before(
            groups,
            #[trigger] order[i] as int,
            #[trigger] order[j] as int,
        )
}

/// Two orders that go by the order of the list and hold the same positions
/// are the same order.
pub proof fn lemma_list_order_is_unique(a: Seq<usize>, b: Seq<usize>, groups: Seq<LogGroup>)
    requires
        is_in_list_order(a, groups),
        is_in_list_order(b, groups),
        forall|x: usize| a.contains(x) <==> b.contains(x),
    ensures
        a == b,
    decreases a.len(),
{
    if a.len() == 0 {
        if b.len() > 0 {
            assert(b.contains(b[0]));
        }
        assert(a =~= b);
    } else {
        assert(a.contains(a[0]));
        let j = choose|j: int| 0 <= j < b.len() && b[j] == a[0];
        assert(b.contains(b[0]));
        let i = choose|i: int| 0 <= i < a.len() && a[i] == b[0];
        if j > 0 {
            assert(listed_before(groups, b[0] as int, b[j] as int));
            if i > 0 {
                assert(listed_before(groups, a[0] as int, a[i] as int));
            }
        }
        assert(a[0] == b[0]);
        let rest_a = a.drop_first();
        let rest_b = b.drop_first();
        assert forall|x: usize| rest_a.contains(x) <==> rest_b.contains(x) by {
            if rest_a.contains(x) {
                let at = choose|at: int| 0 <= at < rest_a.len() && rest_a[at] == x;
                assert(a[at + 1] == x);
                assert(listed_before(groups, a[0] as int, a[at + 1] as int));
                assert(a.contains(x));
                let to = choose|to: int| 0 <= to < b.len() && b[to] == x;
                assert(to > 0);
                assert(rest_b[to - 1] == x);
            }
            if rest_b.contains(x) {
                let at = choose|at: int| 0 <= at < rest_b.len() && rest_b[at] == x;
                assert(b[at + 1] == x);
                assert(listed_before(groups, b[0] as int, b[at + 1] as int));
                assert(b.contains(x));
                let to = choose|to: int| 0 <= to < a.len() && a[to] == x;
                assert(to > 0);
                assert(rest_a[to - 1] == x);
            }
        }
        assert forall|i: int, j: int| 0 <= i < j < rest_a.len() implies listed_before(
            groups,
            #[trigger] rest_a[i] as int,
            #[trigger] rest_a[j] as int,
        ) by {
            assert(listed_before(groups, a[i + 1] as int, a[j + 1] as int));
        }
        assert forall|i: int, j: int| 0 <= i < j < rest_b.len() implies listed_before(
            groups,
            #[trigger] rest_b[i] as int,
            #[trigger] rest_b[j] as int,
        ) by {
            assert(listed_before(groups, b[i + 1] as int, b[j + 1] as int));
        }
        lemma_list_order_is_unique(rest_a, rest_b, groups);
        assert(a =~= seq![a[0]] + rest_a);
        assert(b =~= seq![b[0]] + rest_b);
    }
}

/// The order of the list is one order and no other: whatever lists the
/// groups that pass the filter, latest report first, lists them alike.
pub proof fn lemma_listing_order_is_unique(
    a: Seq<usize>,
    b: Seq<usize>,
    groups: Seq<LogGroup>,
    log_type: Option<String>,
)
    requires
        is_listing_order(a, groups, log_type),
        is_listing_order(b, groups, log_type),
    ensures
        a == b,
{
    assert forall|x: usize| a.contains(x) <==> b.contains(x) by {
        if a.contains(x) {
            let at = choose|at: int| 0 <= at < a.len() && a[at] == x;
            assert(a[at] < groups.len() && passes(groups[a[at] as int], log_type));
            assert(b.contains(x as int as usize));
        }
        if b.contains(x) {
            let at = choose|at: int| 0 <= at < b.len() && b[at] == x;
            assert(b[at] < groups.len() && passes(groups[b[at] as int], log_type));
            assert(a.contains(x as int as usize));
        }
    }
    lemma_list_order_is_unique(a, b, groups);
}

/// The groups at the positions `order`.
pub open spec fn picked(order: Seq<usize>, groups: Seq<LogGroup>) -> Seq<LogGroup> {
    Seq::new(order.len(), |i: int| groups[order[i] as int])
}

/// How many of `groups` have the status `status`.
pub open spec fn count_with(groups: Seq<LogGroup>, status: GroupStatus) -> nat
    decreases groups.len(),
{
    if groups.len() == 0 {
        0
    } else {
        count_with(groups.drop_last(), status) + if groups.last().status == status {
            1nat
        } else {
            0nat
        }
    }
}

/// No more groups have a status than there are groups.
pub proof fn lemma_count_bounded(groups: Seq<LogGroup>, status: GroupStatus)
    ensures
        count_with(groups, status) <= groups.len(),
    decreases groups.len(),
{
    if groups.len() > 0 {
        lemma_count_bounded(groups.drop_last(), status);
    }
}

/// Whether `rows` shows `groups` from position `start` up to `end`.
pub open spec fn are_rows_of(rows: Seq<GroupRow>, groups: Seq<LogGroup>, start: int, end: int) -> bool {
    &&& rows.len() == end - start
    &&& forall|i: int| 0 <= i < rows.len() ==> is_row_of(#[trigger] rows[i], groups[start + i])
}

/// Whether `out` is the page asked for of the groups `listed`, which are
/// all that passed the filter, in the order of the list.
pub open spec fn is_page_of(
    out: GroupList,
    listed: Seq<LogGroup>,
    is_admin: bool,
    page: int,
    page_size: int,
) -> bool {
    &&& out.page == clamped_page(page)
    &&& out.page_size == clamped_size(page_size)
    &&& out.total == listed.len()
    &&& out.unresolved == count_with(listed, GroupStatus::Open)
    &&& out.resolved == count_with(listed, GroupStatus::Resolved)
    &&& out.total_pages == page_count(listed.len() as int, out.page_size as int)
    &&& are_rows_of(
        out.list@,
        listed,
        page_start(listed.len() as int, out.page as int, out.page_size as int),
        page_end(listed.len() as int, out.page as int, out.page_size as int),
    )
    &&& out.is_admin == is_admin
}

/// Shows a group as a row of the list.
pub fn row_of(group: &LogGroup) -> (row: GroupRow)
    ensures
        is_row_of(row, *group),
{
    GroupRow {
        hash: group.hash.clone(),
        first_time: group.first_time,
        last_time: group.last_time,
        total_count: group.total_count,
        status: group.status.code(),
        message: group.message.clone(),
    }
}

/// Whether `group` passes the caller's filter.
pub fn passes_filter(group: &LogGroup, log_type: &Option<String>) -> (passed: bool)
    ensures
        passed == passes(*group, *log_type),
{
    match log_type {
        Some(category) => text_equal(group.log_type.as_str(), category.as_str()),
        None => true,
    }
}

/// The order in which the list shows `groups`: the positions of those that
/// pass the filter, latest report first.
pub fn listing_order(groups: &Vec<LogGroup>, log_type: &Option<String>) -> (order: Vec<usize>)
    ensures
        is_listing_order(order@, groups@, *log_type),
{
    let mut order: Vec<usize> = Vec::new();
    let mut k: usize = 0;
    while k < groups.len()
        invariant
            k <= groups.len(),
            lists_up_to(order@, groups@, *log_type, k as int),
        decreases groups.len() - k,
    {
        if passes_filter(&groups[k], log_type) {
            let time = groups[k].last_time;
            let mut p: usize = 0;
            while p < order.len() && groups[order[p]].last_time >= time
                invariant
                    k < groups.len(),
                    p <= order.len(),
                    time == groups@[k as int].last_time,
                    lists_up_to(order@, groups@, *log_type, k as int),
                    forall|i: int|
                        0 <= i < p ==> groups@[(#[trigger] order@[i]) as int].last_time >= time,
                decreases order.len() - p,
            {
                p = p + 1;
            }
            let ghost before = order@;
            order.insert(p, k);
            proof {
                before.insert_ensures(p as int, k);
                assert forall|i: int| 0 <= i < order@.len() implies (#[trigger] order@[i]) < k
                    + 1 && passes(groups@[order@[i] as int], *log_type) by {
                    if i < p {
                        assert(order@[i] == before[i]);
                    } else if i > p {
                        assert(order@[i] == before[i - 1]);
                    }
                }
                assert forall|j: int|
                    0 <= j < k + 1 && passes(
                        #[trigger] groups@[j],
                        *log_type,
                    ) implies order@.contains(j as usize) by {
                    if j < k {
                        let at = choose|at: int| 0 <= at < before.len() && before[at] == j as usize;
                        if at < p {
                            assert(order@[at] == j as usize);
                        } else {
                            assert(order@[at + 1] == j as usize);
                        }
                    } else {
                        assert(order@[p as int] == j as usize);
                    }
                }
                assert forall|i: int, j: int| 0 <= i < j < order@.len() implies listed_before(
                    groups@,
                    #[trigger] order@[i] as int,
                    #[trigger] order@[j] as int,
                ) by {
                    let a = if i < p {
                        i
                    } else {
                        i - 1
                    };
                    let b = if j < p {
                        j
                    } else {
                        j - 1
                    };
                    if i != p && j != p {
                        assert(order@[i] == before[a]);
                        assert(order@[j] == before[b]);
                        assert(listed_before(groups@, before[a] as int, before[b] as int));
                    } else if i == p {
                        assert(order@[j] == before[b]);
                        assert(before[b] < k);
                        if b > p {
                            assert(listed_before(groups@, before[p as int] as int, before[b] as int));
                        }
                    } else {
                        assert(order@[i] == before[a]);
                        assert(before[a] < k);
                    }
                }
            }
        }
        k = k + 1;
    }
    order
}

/// How many of the groups at the positions `order` have the status
/// `status`.
pub fn count_status(groups: &Vec<LogGroup>, order: &Vec<usize>, status: GroupStatus) -> (count:
    u64)
    requires
        forall|i: int| 0 <= i < order@.len() ==> (#[trigger] order@[i]) < groups@.len(),
    ensures
        count == count_with(picked(order@, groups@), status),
{
    let mut count: u64 = 0;
    let mut i: usize = 0;
    while i < order.len()
        invariant
            i <= order.len(),
            forall|j: int| 0 <= j < order@.len() ==> (#[trigger] order@[j]) < groups@.len(),
            count == count_with(picked(order@, groups@).take(i as int), status),
            count <= i,
        decreases order.len() - i,
    {
        proof {
            let listed = picked(order@, groups@);
            assert(listed.take(i + 1).drop_last() =~= listed.take(i as int));
        }
        if groups[order[i]].status == status {
            count = count + 1;
        }
        i = i + 1;
    }
    assert(picked(order@, groups@).take(order.len() as int) =~= picked(order@, groups@));
    count
}

/// One page of the list of groups.
///
/// Of `groups`, those that pass the filter are listed, latest report first.
/// The page asked for is brought into range, never refused. The answer
/// counts all listed groups, the open and the resolved among them, and the
/// pages they fill, and shows the rows of the page asked for; a page beyond
/// the last row shows none.
pub fn api_log_list(
    is_admin: bool,
    page: i64,
    page_size: i64,
    log_type: &Option<String>,
    groups: &Vec<LogGroup>,
) -> (out: GroupList)
    ensures
        exists|order: Seq<usize>|
            is_listing_order(order, groups@, *log_type) && is_page_of(
                out,
                #[trigger] picked(order, groups@),
                is_admin,
                page as int,
                page_size as int,
            ),
{
    let order = listing_order(groups, log_type);
    let ghost listed = picked(order@, groups@);
    let request = PageRequest::new(page, page_size);
    let total: usize = order.len();
    let (start, end) = request.window(total);
    let mut list: Vec<GroupRow> = Vec::new();
    let mut i: usize = start;
    while i < end
        invariant
            start <= i <= end <= order.len(),
            listed == picked(order@, groups@),
            forall|j: int| 0 <= j < order@.len() ==> (#[trigger] order@[j]) < groups@.len(),
            are_rows_of(list@, listed, start as int, i as int),
        decreases end - i,
    {
        list.push(row_of(&groups[order[i]]));
        assert forall|k: int| 0 <= k < list@.len() implies is_row_of(
            #[trigger] list@[k],
            listed[start + k],
        ) by {}
        i = i + 1;
    }
    let out = GroupList {
        list,
        total: total as u64,
        unresolved: count_status(groups, &order, GroupStatus::Open),
        resolved: count_status(groups, &order, GroupStatus::Resolved),
        page: request.page,
        page_size: request.page_size,
        total_pages: request.total_pages(total as u64),
        is_admin,
    };
    out
}

/// Every listed row stands on exactly one page: the first page begins with
/// the first row, each page begins where the one before it ends, and the
/// last page ends with the last row.
pub proof fn lemma_pages_cover_the_rows(total: int, page: int, page_size: int)
    requires
        total >= 0,
        page >= 1,
        page_size >= 1,
    ensures
        page_start(total, 1, page_size) == 0,
        page_end(total, page, page_size) == page_start(total, page + 1, page_size),
        page_start(total, page, page_size) <= page_end(total, page, page_size) <= total,
        page_end(total, page, page_size) - page_start(total, page, page_size) <= page_size,
        page >= page_count(total, page_size) ==> page_end(total, page, page_size) == total,
        page < page_count(total, page_size) ==> page_end(total, page, page_size)
            - page_start(total, page, page_size) == page_size,
{
    assert(page_offset(page + 1, page_size) == page_offset(page, page_size) + page_size)
        by (nonlinear_arith);
    assert(page_offset(page, page_size) >= 0) by (nonlinear_arith)
        requires
            page >= 1,
            page_size >= 1,
    ;
    if total > 0 {
        lemma_rounded_up(total, page_size);
        let count = page_count(total, page_size);
        assert(count * page_size >= total && (count - 1) * page_size < total) by (nonlinear_arith)
            requires
                total >= 1,
                page_size >= 1,
                count == if total % page_size == 0 {
                    total / page_size
                } else {
                    total / page_size + 1
                },
        ;
        if page >= count {
            assert(page * page_size >= count * page_size) by (nonlinear_arith)
                requires
                    page >= count,
                    page_size >= 1,
            ;
        } else {
            assert(page * page_size <= (count - 1) * page_size) by (nonlinear_arith)
                requires
                    page <= count - 1,
                    page_size >= 1,
            ;
        }
        assert(page_offset(page, page_size) + page_size == page * page_size)
            by (nonlinear_arith);
    }
}

} // verus!
