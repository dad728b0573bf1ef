//! Usage statistics: what clients report of their configuration, and the
//! table of reports per day.

use vstd::prelude::*;
use crate::decimal::{decimal_text, push_decimal};
use crate::reply::{address_or, caller_address};

verus! {

/// What a client reports of itself.
#[derive(Debug)]
pub struct StatisticsUpload {
    pub cli_type: String,
    pub user: String,
    pub package: String,
    /// Whatever the client says of its configuration; it is stored as it is.
    pub configuration_info: String,
}

/// A report of a client as it is stored, with where and when it came from.
#[derive(Debug)]
pub struct StatisticsRecord {
    pub cli_type: String,
    pub user: String,
    pub package: String,
    pub configuration_info: String,
    pub ip: String,
    pub time: i64,
}

/// Whether `record` stores `upload`, seen from `address` at time `now`.
pub open spec fn is_record_of(
    record: StatisticsRecord,
    upload: StatisticsUpload,
    address: Option<String>,
    now: i64,
) -> bool {
    &&& record.cli_type@ == upload.cli_type@
    &&& record.user@ == upload.user@
    &&& record.package@ == upload.package@
    &&& record.configuration_info@ == upload.configuration_info@
    &&& record.ip@ == address_or(address, "unknown"@)
    &&& record.time == now
}

/// The record to store for what a client reported. Every report is stored,
/// none is merged with another; where no address is known it is recorded as
/// `unknown`.
pub fn api_upload_statistics(upload: &StatisticsUpload, address: &Option<String>, now: i64) -> (record:
    StatisticsRecord)
    ensures
        is_record_of(record, *upload, *address, now),
{
    StatisticsRecord {
        cli_type: upload.cli_type.clone(),
        user: upload.user.clone(),
        package: upload.package.clone(),
        configuration_info: upload.configuration_info.clone(),
        ip: caller_address(address, "unknown"),
        time: now,
    }
}

/// How many seconds a day has.
pub const SECONDS_PER_DAY: i64 = 86_400;

/// The day of a time: whole days since the epoch, earlier days below zero.
pub open spec fn day_of(time: int) -> int {
    time / 86_400
}

/// How many reports a day has.
#[derive(Clone, Copy, Debug, PartialEq, Eq, Structural)]
pub struct DayTotal {
    /// Whole days since the epoch.
    pub day: i64,
    pub count: u64,
}

/// How many of `times` fall on `day`.
pub open spec fn count_on(times: Seq<i64>, day: int) -> nat
    decreases times.len(),
{
    if times.len() == 0 {
        0
    } else {
        count_on(times.drop_last(), day) + if day_of(times.last() as int) == day {
            1nat
        } else {
            0nat
        }
    }
}

/// Whether `totals` sums up `times` by day: one entry for each day on which
/// any of the times falls, none for any other day, each with the number of
/// times on its day, the earliest day first.
pub open spec fn is_daily_summary(totals: Seq<DayTotal>, times: Seq<i64>) -> bool {
    &&& forall|i: int, j: int|
        0 <= i < j < totals.len() ==> (#[trigger] totals[i]).day < (#[trigger] totals[j]).day
    &&& forall|i: int|
        0 <= i < totals.len() ==> (#[trigger] totals[i]).count == count_on(
            times,
            totals[i].day as int,
        ) && totals[i].count >= 1
    &&& forall|k: int|
        0 <= k < times.len() ==> exists|i: int|
            0 <= i < totals.len() && (#[trigger] totals[i]).day == day_of(
                (#[trigger] times[k]) as int,
            )
}

/// No more times fall on a day than there are.
pub proof fn lemma_count_on_bounded(times: Seq<i64>, day: int)
    ensures
        count_on(times, day) <= times.len(),
    decreases times.len(),
{
    if times.len() > 0 {
        lemma_count_on_bounded(times.drop_last(), day);
    }
}

/// The day of a time.
pub fn day_number(time: i64) -> (day: i64)
    ensures
        day == day_of(time as int),
{
    if time >= 0 {
        time / 86_400
    } else {
        let back: u64 = (-(time + 1)) as u64;
        let whole: u64 = back / 86_400;
        -(whole as i64) - 1
    }
}

/// Sums up the times of reports by day: how many came on each day on which
/// any came, the earliest day first.
pub fn daily_totals(times: &Vec<i64>) -> (totals: Vec<DayTotal>)
    ensures
        is_daily_summary(totals@, times@),
{
    let mut totals: Vec<DayTotal> = Vec::new();
    let mut k: usize = 0;
    while k < times.len()
        invariant
            k <= times.len(),
            is_daily_summary(totals@, times@.take(k as int)),
        decreases times.len() - k,
    {
        let day = day_number(times[k]);
        let ghost seen = times@.take(k as int);
        let ghost next = times@.take(k + 1);
        let ghost before = totals@;
        proof {
            assert(next.drop_last() =~= seen);
            assert(next.last() == times@[k as int]);
            lemma_count_on_bounded(seen, day as int);
        }
        let mut p: usize = 0;
        while p < totals.len() && totals[p].day < day
            invariant
                p <= totals.len(),
                totals@ == before,
                forall|i: int| 0 <= i < p ==> (#[trigger] totals@[i]).day < day,
            decreases totals.len() - p,
        {
            p = p + 1;
        }
        if p < totals.len() && totals[p].day == day {
            let count = totals[p].count;
            totals.set(p, DayTotal { day, count: count + 1 });
            proof {
                assert forall|m: int| 0 <= m < next.len() implies exists|i: int|
                    0 <= i < totals@.len() && (#[trigger] totals@[i]).day == day_of(
                        (#[trigger] next[m]) as int,
                    ) by {
                    if m < k {
                        assert(next[m] == seen[m]);
                        let at = choose|at: int|
                            0 <= at < before.len() && (#[trigger] before[at]).day == day_of(
                                seen[m] as int,
                            );
                        assert(totals@[at].day == before[at].day);
                    } else {
                        assert(totals@[p as int].day == day);
                    }
                }
            }
        } else {
            totals.insert(p, DayTotal { day, count: 1 });
            proof {
                before.insert_ensures(p as int, DayTotal { day, count: 1 });
                assert forall|i: int| 0 <= i < before.len() implies (#[trigger] before[i]).day
                    != day by {
                    if i < p {
                    } else if i > p {
                        assert(before[p as int].day < before[i].day);
                    }
                }
                assert(count_on(seen, day as int) == 0) by {
                    lemma_absent_day_counts_nothing(before, seen, day as int);
                }
                assert forall|i: int, j: int| 0 <= i < j < totals@.len() implies (
                #[trigger] totals@[i]).day < (#[trigger] totals@[j]).day by {
                    let a = if i < p {
                        i
                    } else {
                        i - 1
                    };
                    let b = if j < p {
                        j
                    } else {
                        j - 1
                    };
                    if i != p && j != p {
                        assert(totals@[i] == before[a]);
                        assert(totals@[j] == before[b]);
                    } else if i == p {
                        assert(totals@[j] == before[b]);
                        if b > p {
                            assert(before[p as int].day < before[b].day);
                        }
                    } else {
                        assert(totals@[i] == before[a]);
                    }
                }
                assert forall|i: int| 0 <= i < totals@.len() implies (#[trigger] totals@[i]).count
                    == count_on(next, totals@[i].day as int) && totals@[i].count >= 1 by {
                    if i < p {
                        assert(totals@[i] == before[i]);
                    } else if i > p {
                        assert(totals@[i] == before[i - 1]);
                    }
                }
                assert forall|m: int| 0 <= m < next.len() implies exists|i: int|
                    0 <= i < totals@.len() && (#[trigger] totals@[i]).day == day_of(
                        (#[trigger] next[m]) as int,
                    ) by {
                    if m < k {
                        assert(next[m] == seen[m]);
                        let at = choose|at: int|
                            0 <= at < before.len() && (#[trigger] before[at]).day == day_of(
                                seen[m] as int,
                            );
                        if at < p {
                            assert(totals@[at] == before[at]);
                        } else {
                            assert(totals@[at + 1] == before[at]);
                        }
                    } else {
                        assert(totals@[p as int].day == day);
                    }
                }
            }
        }
        k = k + 1;
    }
    assert(times@.take(times.len() as int) =~= times@);
    totals
}

/// A day that a summary of `times` does not list has none of the times.
pub proof fn lemma_absent_day_counts_nothing(totals: Seq<DayTotal>, times: Seq<i64>, day: int)
    requires
        is_daily_summary(totals, times),
        forall|i: int| 0 <= i < totals.len() ==> (#[trigger] totals[i]).day != day,
    ensures
        count_on(times, day) == 0,
{
    lemma_count_nothing(times, day);
}

/// Where none of `times` falls on `day`, the count of that day is nothing.
pub proof fn lemma_count_nothing(times: Seq<i64>, day: int)
    requires
        forall|k: int| 0 <= k < times.len() ==> day_of((#[trigger] times[k]) as int) != day,
    ensures
        count_on(times, day) == 0,
    decreases times.len(),
{
    if times.len() > 0 {
        assert forall|k: int| 0 <= k < times.drop_last().len() implies day_of(
            (#[trigger] times.drop_last()[k]) as int,
        ) != day by {}
        lemma_count_nothing(times.drop_last(), day);
    }
}

/// How many reports came on one day.
#[derive(Debug)]
pub struct DailyCount {
    /// The day, as storage writes it.
    pub date: String,
    pub count: i64,
}

/// The table row of one day.
pub open spec fn row_text(date: Seq<char>, count: int) -> Seq<char> {
    "\n        <tr>\n        <td style=\"border: 1px solid black; padding: 8px;\">"@ + date
        + "</td>\n        <td style=\"border: 1px solid black; padding: 8px;\">"@ + decimal_text(
        count,
    ) + "</td>\n        </tr>"@
}

/// The table rows of `days`, in the order given, one line break between two
/// rows.
pub open spec fn table_text(days: Seq<DailyCount>) -> Seq<char>
    decreases days.len(),
{
    if days.len() == 0 {
        Seq::empty()
    } else if days.len() == 1 {
        row_text(days[0].date@, days[0].count as int)
    } else {
        table_text(days.drop_last()) + "\n"@ + row_text(days.last().date@, days.last().count as int)
    }
}

/// Renders the reports per day as table rows, in the order given: storage
/// hands the days over earliest first.
pub fn statistics_users(days: &Vec<DailyCount>) -> (table: String)
    ensures
        table@ == table_text(days@),
{
    let mut table = String::new();
    let mut i: usize = 0;
    while i < days.len()
        invariant
            i <= days.len(),
            table@ == table_text(days@.take(i as int)),
        decreases days.len() - i,
    {
        let ghost before = table@;
        let ghost shown = days@.take(i + 1);
        if i > 0 {
            table.append("\n");
        }
        table.append(
            "\n        <tr>\n        <td style=\"border: 1px solid black; padding: 8px;\">",
        );
        table.append(days[i].date.as_str());
        table.append("</td>\n        <td style=\"border: 1px solid black; padding: 8px;\">");
        push_decimal(&mut table, days[i].count);
        table.append("</td>\n        </tr>");
        proof {
            assert(shown.drop_last() =~= days@.take(i as int));
            assert(shown.last() == days@[i as int]);
            let row = row_text(days@[i as int].date@, days@[i as int].count as int);
            if i > 0 {
                assert(table@ =~= before + "\n"@ + row);
            } else {
                assert(shown[0] == days@[0]);
                assert(before =~= Seq::<char>::empty());
                assert(table@ =~= row);
            }
        }
        i = i + 1;
    }
    assert(days@.take(days.len() as int) =~= days@);
    table
}

} // verus!
