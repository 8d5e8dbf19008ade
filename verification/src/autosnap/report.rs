//! The report: for every dataset that has automatic snapshots, how many there
//! are of each period and when the latest of each was taken.

use super::{recognize, recognized, AutosnapEntry, AutosnapList, Period};
use crate::text::{
    comes_before, lemma_precedes_irreflexive, lemma_precedes_total, lemma_precedes_transitive,
    precedes, same_text,
};
use crate::time::{format_time_ago, time_ago_text, Timestamp};
use vstd::prelude::*;

verus! {

/// The snapshots of one dataset and one period: how many, and the latest.
#[derive(Clone, Copy, Debug)]
pub struct AutosnapReportPeriodItem {
    pub count: usize,
    pub last: Option<Timestamp>,
}

/// The mathematical content of an `AutosnapReportPeriodItem`.
pub struct PeriodStat {
    pub count: nat,
    pub last: Option<Timestamp>,
}

/// The mathematical content of an `AutosnapReportItem`: one row of the report.
pub struct ReportRow {
    pub name: Seq<char>,
    pub hourly: PeriodStat,
    pub daily: PeriodStat,
    pub monthly: PeriodStat,
    pub yearly: PeriodStat,
}

/// One row of the report: a dataset and its snapshots of each period.
#[derive(Debug)]
pub struct AutosnapReportItem {
    name: String,
    hourly: AutosnapReportPeriodItem,
    daily: AutosnapReportPeriodItem,
    monthly: AutosnapReportPeriodItem,
    yearly: AutosnapReportPeriodItem,
}

/// The report: one row for each dataset, in the order of their names.
#[derive(Debug)]
pub struct AutosnapReport(Vec<AutosnapReportItem>);

impl View for AutosnapReportPeriodItem {
    type V = PeriodStat;

    open spec fn view(&self) -> PeriodStat {
        PeriodStat { count: self.count as nat, last: self.last }
    }
}

impl PeriodStat {
    /// No snapshot seen.
    pub open spec fn empty() -> PeriodStat {
        PeriodStat { count: 0, last: None }
    }

    /// One more snapshot seen, taken at `timestamp`.
    pub open spec fn with(self, timestamp: Timestamp) -> PeriodStat {
        PeriodStat { count: self.count + 1, last: later(self.last, timestamp) }
    }
}

impl ReportRow {
    /// The row of a dataset of which no snapshot was seen.
    pub open spec fn empty(name: Seq<char>) -> ReportRow {
        ReportRow {
            name,
            hourly: PeriodStat::empty(),
            daily: PeriodStat::empty(),
            monthly: PeriodStat::empty(),
            yearly: PeriodStat::empty(),
        }
    }

    /// The part of the row that belongs to `period`.
    pub open spec fn stat(self, period: Period) -> PeriodStat {
        match period {
            Period::Hourly => self.hourly,
            Period::Daily => self.daily,
            Period::Monthly => self.monthly,
            Period::Yearly => self.yearly,
        }
    }

    /// The row after one more snapshot of `period`, taken at `timestamp`.
    pub open spec fn with(self, period: Period, timestamp: Timestamp) -> ReportRow {
        match period {
            Period::Hourly => ReportRow { hourly: self.hourly.with(timestamp), ..self },
            Period::Daily => ReportRow { daily: self.daily.with(timestamp), ..self },
            Period::Monthly => ReportRow { monthly: self.monthly.with(timestamp), ..self },
            Period::Yearly => ReportRow { yearly: self.yearly.with(timestamp), ..self },
        }
    }

    /// The number of snapshots of the dataset, whatever their period.
    pub open spec fn total(self) -> nat {
        self.hourly.count + self.daily.count + self.monthly.count + self.yearly.count
    }

    /// When the latest snapshot of the dataset was taken, whatever its period.
    pub open spec fn overall_last(self) -> Option<Timestamp> {
        latest_of_two(
            latest_of_two(latest_of_two(self.hourly.last, self.daily.last), self.monthly.last),
            self.yearly.last,
        )
    }
}

/// The later of an instant seen before, if any, and a new one; on a tie the
/// earlier one stays.
pub open spec fn later(last: Option<Timestamp>, timestamp: Timestamp) -> Option<Timestamp> {
    match last {
        Some(seen) => if timestamp.secs > seen.secs {
            Some(timestamp)
        } else {
            Some(seen)
        },
        None => Some(timestamp),
    }
}

/// The later of two instants of which either may be missing.
pub open spec fn latest_of_two(a: Option<Timestamp>, b: Option<Timestamp>) -> Option<Timestamp> {
    match b {
        Some(timestamp) => later(a, timestamp),
        None => a,
    }
}

/// The number of entries of dataset `name` and period `period`.
pub open spec fn count_of(entries: Seq<AutosnapEntry>, name: Seq<char>, period: Period) -> nat
    decreases entries.len(),
{
    if entries.len() == 0 {
        0
    } else {
        let before = count_of(entries.drop_last(), name, period);
        if entries.last().dataset == name && entries.last().period == period {
            before + 1
        } else {
            before
        }
    }
}

/// The latest instant among the entries of dataset `name` and period
/// `period`; of two entries with the same instant the first one counts.
pub open spec fn latest_of(entries: Seq<AutosnapEntry>, name: Seq<char>, period: Period) -> Option<
    Timestamp,
>
    decreases entries.len(),
{
    if entries.len() == 0 {
        None
    } else {
        let before = latest_of(entries.drop_last(), name, period);
        if entries.last().dataset == name && entries.last().period == period {
            later(before, entries.last().timestamp)
        } else {
            before
        }
    }
}

/// Count and latest instant of the entries of one dataset and one period.
pub open spec fn stat_of(entries: Seq<AutosnapEntry>, name: Seq<char>, period: Period) -> PeriodStat {
    PeriodStat { count: count_of(entries, name, period), last: latest_of(entries, name, period) }
}

/// The row that the entries give to dataset `name`.
pub open spec fn row_of(entries: Seq<AutosnapEntry>, name: Seq<char>) -> ReportRow {
    ReportRow {
        name,
        hourly: stat_of(entries, name, Period::Hourly),
        daily: stat_of(entries, name, Period::Daily),
        monthly: stat_of(entries, name, Period::Monthly),
        yearly: stat_of(entries, name, Period::Yearly),
    }
}

/// Some entry belongs to dataset `name`.
pub open spec fn mentions(entries: Seq<AutosnapEntry>, name: Seq<char>) -> bool {
    exists|k: int| 0 <= k < entries.len() && #[trigger] entries[k].dataset == name
}

/// Some row belongs to dataset `name`.
pub open spec fn has_row(rows: Seq<ReportRow>, name: Seq<char>) -> bool {
    exists|i: int| 0 <= i < rows.len() && #[trigger] rows[i].name == name
}

/// The rows stand in the strict order of their names.
pub open spec fn ascending(rows: Seq<ReportRow>) -> bool {
    forall|i: int, j: int| 0 <= i < j < rows.len() ==> precedes(#[trigger] rows[i].name, #[trigger] rows[j].name)
}

/// Each row counts at least one snapshot.
pub open spec fn populated(rows: Seq<ReportRow>) -> bool {
    forall|i: int| 0 <= i < rows.len() ==> (#[trigger] rows[i]).total() >= 1
}

/// `rows` is the report of `entries`: the rows stand in the order of their
/// names, each dataset that the entries mention has a row and no other has
/// one, and each row holds the counts and latest instants of its dataset.
pub open spec fn is_report_of(rows: Seq<ReportRow>, entries: Seq<AutosnapEntry>) -> bool {
    &&& ascending(rows)
    &&& forall|i: int|
        0 <= i < rows.len() ==> mentions(entries, #[trigger] rows[i].name) && rows[i] == row_of(
            entries,
            rows[i].name,
        )
    &&& forall|k: int| 0 <= k < entries.len() ==> has_row(rows, #[trigger] entries[k].dataset)
}

/// The rows that a vector of report items stands for.
pub open spec fn row_views(items: Seq<AutosnapReportItem>) -> Seq<ReportRow> {
    items.map_values(|item: AutosnapReportItem| item@)
}

/// One more entry changes the row of its own dataset and no other.
pub proof fn lemma_row_of_push(entries: Seq<AutosnapEntry>, entry: AutosnapEntry, name: Seq<char>)
    ensures
        row_of(entries.push(entry), name) == if name == entry.dataset {
            row_of(entries, name).with(entry.period, entry.timestamp)
        } else {
            row_of(entries, name)
        },
{
    assert(entries.push(entry).drop_last() == entries);
    assert(entries.push(entry).last() == entry);
}

/// A dataset that no entry mentions has the empty row.
pub proof fn lemma_row_of_unmentioned(entries: Seq<AutosnapEntry>, name: Seq<char>)
    requires
        !mentions(entries, name),
    ensures
        row_of(entries, name) == ReportRow::empty(name),
    decreases entries.len(),
{
    if entries.len() > 0 {
        let before = entries.drop_last();
        assert(entries.last() == entries[entries.len() - 1]);
        assert(entries[entries.len() - 1].dataset != name);
        assert forall|k: int| 0 <= k < before.len() implies #[trigger] before[k].dataset
            != name by {
            assert(before[k] == entries[k]);
        }
        lemma_row_of_unmentioned(before, name);
    }
}

/// A dataset that some entry mentions has a snapshot counted in its row.
pub proof fn lemma_row_of_mentioned(entries: Seq<AutosnapEntry>, name: Seq<char>)
    requires
        mentions(entries, name),
    ensures
        row_of(entries, name).total() >= 1,
    decreases entries.len(),
{
    let k = choose|k: int| 0 <= k < entries.len() && #[trigger] entries[k].dataset == name;
    if k < entries.len() - 1 {
        assert(entries.drop_last()[k].dataset == name);
        lemma_row_of_mentioned(entries.drop_last(), name);
    } else {
        match entries.last().period {
            Period::Hourly => {},
            Period::Daily => {},
            Period::Monthly => {},
            Period::Yearly => {},
        }
    }
}

/// A report has no empty row.
pub proof fn lemma_report_populated(rows: Seq<ReportRow>, entries: Seq<AutosnapEntry>)
    requires
        is_report_of(rows, entries),
    ensures
        populated(rows),
{
    assert forall|i: int| 0 <= i < rows.len() implies (#[trigger] rows[i]).total() >= 1 by {
        lemma_row_of_mentioned(entries, rows[i].name);
    }
}

/// No more entries are counted than there are.
pub proof fn lemma_count_bound(entries: Seq<AutosnapEntry>, name: Seq<char>, period: Period)
    ensures
        count_of(entries, name, period) <= entries.len(),
    decreases entries.len(),
{
    if entries.len() > 0 {
        lemma_count_bound(entries.drop_last(), name, period);
    }
}

/// The entries of dataset `name`, whatever their period.
pub open spec fn of_dataset(name: Seq<char>) -> spec_fn(AutosnapEntry) -> bool {
    |entry: AutosnapEntry| entry.dataset == name
}

/// The entries of dataset `name` and period `period`.
pub open spec fn of_dataset_and_period(name: Seq<char>, period: Period) -> spec_fn(
    AutosnapEntry,
) -> bool {
    |entry: AutosnapEntry| entry.dataset == name && entry.period == period
}

/// `last` is the greatest instant among the entries that `chosen` picks:
/// one of them was taken at it and none after it; it is `None` exactly when
/// `chosen` picks no entry.
pub open spec fn is_latest_among(
    entries: Seq<AutosnapEntry>,
    chosen: spec_fn(AutosnapEntry) -> bool,
    last: Option<Timestamp>,
) -> bool {
    match last {
        Some(instant) => {
            &&& exists|k: int|
                0 <= k < entries.len() && chosen(#[trigger] entries[k]) && entries[k].timestamp
                    == instant
            &&& forall|k: int|
                0 <= k < entries.len() && chosen(#[trigger] entries[k])
                    ==> entries[k].timestamp.secs <= instant.secs
        },
        None => forall|k: int| 0 <= k < entries.len() ==> !chosen(#[trigger] entries[k]),
    }
}

/// The instant that a row keeps for a period is the greatest among the
/// entries of its dataset and that period.
pub proof fn lemma_latest_of_is_latest(
    entries: Seq<AutosnapEntry>,
    name: Seq<char>,
    period: Period,
)
    ensures
        is_latest_among(
            entries,
            of_dataset_and_period(name, period),
            latest_of(entries, name, period),
        ),
    decreases entries.len(),
{
    let chosen = of_dataset_and_period(name, period);
    if entries.len() > 0 {
        let before = entries.drop_last();
        let end = entries.len() - 1;
        lemma_latest_of_is_latest(before, name, period);
        let earlier = latest_of(before, name, period);
        assert(forall|k: int| 0 <= k < before.len() ==> #[trigger] before[k] == entries[k]);
        assert(entries.last() == entries[end]);
        match latest_of(entries, name, period) {
            Some(instant) => {
                if chosen(entries[end]) && entries[end].timestamp == instant {
                    assert(0 <= end < entries.len() && chosen(entries[end]));
                } else {
                    assert(earlier == Some(instant));
                    let k = choose|k: int|
                        0 <= k < before.len() && chosen(#[trigger] before[k])
                            && before[k].timestamp == instant;
                    assert(chosen(entries[k]) && entries[k].timestamp == instant);
                }
                assert forall|k: int|
                    0 <= k < entries.len() && chosen(
                        #[trigger] entries[k],
                    ) implies entries[k].timestamp.secs <= instant.secs by {
                    if k < end {
                        assert(chosen(before[k]));
                    }
                }
            },
            None => {
                assert forall|k: int| 0 <= k < entries.len() implies !chosen(
                    #[trigger] entries[k],
                ) by {
                    if k < end {
                        assert(before[k] == entries[k]);
                    }
                }
            },
        }
    }
}

/// The four counts of a row add up to the number of entries of its dataset.
pub proof fn lemma_row_total(entries: Seq<AutosnapEntry>, name: Seq<char>)
    ensures
        row_of(entries, name).total() == entries.filter(of_dataset(name)).len(),
    decreases entries.len(),
{
    reveal(Seq::filter);
    if entries.len() > 0 {
        lemma_row_total(entries.drop_last(), name);
    }
}

/// The latest instant of a row is the greatest among the entries of its
/// dataset.
pub proof fn lemma_row_overall_last(entries: Seq<AutosnapEntry>, name: Seq<char>)
    ensures
        is_latest_among(entries, of_dataset(name), row_of(entries, name).overall_last()),
{
    lemma_latest_of_is_latest(entries, name, Period::Hourly);
    lemma_latest_of_is_latest(entries, name, Period::Daily);
    lemma_latest_of_is_latest(entries, name, Period::Monthly);
    lemma_latest_of_is_latest(entries, name, Period::Yearly);
    let row = row_of(entries, name);
    let all = of_dataset(name);
    let hourly = of_dataset_and_period(name, Period::Hourly);
    let daily = of_dataset_and_period(name, Period::Daily);
    let monthly = of_dataset_and_period(name, Period::Monthly);
    let yearly = of_dataset_and_period(name, Period::Yearly);
    assert forall|k: int| 0 <= k < entries.len() && all(#[trigger] entries[k]) implies hourly(
        entries[k],
    ) || daily(entries[k]) || monthly(entries[k]) || yearly(entries[k]) by {
        match entries[k].period {
            Period::Hourly => {},
            Period::Daily => {},
            Period::Monthly => {},
            Period::Yearly => {},
        }
    }
    match row.overall_last() {
        Some(instant) => {
            let k = if row.hourly.last == Some(instant) {
                choose|k: int|
                    0 <= k < entries.len() && hourly(#[trigger] entries[k])
                        && entries[k].timestamp == instant
            } else if row.daily.last == Some(instant) {
                choose|k: int|
                    0 <= k < entries.len() && daily(#[trigger] entries[k]) && entries[k].timestamp
                        == instant
            } else if row.monthly.last == Some(instant) {
                choose|k: int|
                    0 <= k < entries.len() && monthly(#[trigger] entries[k])
                        && entries[k].timestamp == instant
            } else {
                choose|k: int|
                    0 <= k < entries.len() && yearly(#[trigger] entries[k])
                        && entries[k].timestamp == instant
            };
            assert(0 <= k < entries.len() && all(entries[k]) && entries[k].timestamp == instant);
            assert forall|k: int|
                0 <= k < entries.len() && all(
                    #[trigger] entries[k],
                ) implies entries[k].timestamp.secs <= instant.secs by {
                assert(hourly(entries[k]) || daily(entries[k]) || monthly(entries[k]) || yearly(
                    entries[k],
                ));
            }
        },
        None => {
            assert forall|k: int| 0 <= k < entries.len() implies !all(#[trigger] entries[k]) by {
                if all(entries[k]) {
                    assert(hourly(entries[k]) || daily(entries[k]) || monthly(entries[k])
                        || yearly(entries[k]));
                }
            }
        },
    }
}

/// Taking one entry out lowers the count of its dataset and period by one
/// and no other count.
proof fn lemma_count_remove(entries: Seq<AutosnapEntry>, at: int, name: Seq<char>, period: Period)
    requires
        0 <= at < entries.len(),
    ensures
        count_of(entries, name, period) == count_of(entries.remove(at), name, period) + if of_dataset_and_period(
            name,
            period,
        )(entries[at]) {
            1nat
        } else {
            0nat
        },
    decreases entries.len(),
{
    if at == entries.len() - 1 {
        assert(entries.remove(at) =~= entries.drop_last());
    } else {
        assert(entries.remove(at).drop_last() =~= entries.drop_last().remove(at));
        assert(entries.remove(at).last() == entries.last());
        lemma_count_remove(entries.drop_last(), at, name, period);
    }
}

/// The latest instant of all entries is the later of the latest of all but
/// one and the instant of that one, if it belongs to the dataset and period.
proof fn lemma_latest_remove(entries: Seq<AutosnapEntry>, at: int, name: Seq<char>, period: Period)
    requires
        0 <= at < entries.len(),
    ensures
        latest_of(entries, name, period) == if of_dataset_and_period(name, period)(entries[at]) {
            later(latest_of(entries.remove(at), name, period), entries[at].timestamp)
        } else {
            latest_of(entries.remove(at), name, period)
        },
    decreases entries.len(),
{
    if at == entries.len() - 1 {
        assert(entries.remove(at) =~= entries.drop_last());
    } else {
        assert(entries.remove(at).drop_last() =~= entries.drop_last().remove(at));
        assert(entries.remove(at).last() == entries.last());
        lemma_latest_remove(entries.drop_last(), at, name, period);
    }
}

/// Counts and latest instants do not depend on the order of the entries.
pub proof fn lemma_stat_of_permutation(
    a: Seq<AutosnapEntry>,
    b: Seq<AutosnapEntry>,
    name: Seq<char>,
    period: Period,
)
    requires
        a.to_multiset() == b.to_multiset(),
    ensures
        stat_of(a, name, period) == stat_of(b, name, period),
    decreases a.len(),
{
    a.to_multiset_ensures();
    b.to_multiset_ensures();
    if a.len() == 0 {
        assert(b.len() == 0);
    } else {
        let entry = a.last();
        let rest = a.drop_last();
        assert(a =~= rest.push(entry));
        rest.to_multiset_ensures();
        assert(a.to_multiset().count(entry) > 0);
        assert(b.contains(entry));
        let at = choose|at: int| 0 <= at < b.len() && b[at] == entry;
        assert(b.remove(at).to_multiset() =~= b.to_multiset().remove(entry));
        assert(rest.to_multiset() =~= a.to_multiset().remove(entry));
        lemma_stat_of_permutation(rest, b.remove(at), name, period);
        lemma_count_remove(b, at, name, period);
        lemma_latest_remove(b, at, name, period);
    }
}

/// Whether a dataset is mentioned does not depend on the order of the entries.
proof fn lemma_mentions_permutation(a: Seq<AutosnapEntry>, b: Seq<AutosnapEntry>, name: Seq<char>)
    requires
        a.to_multiset() == b.to_multiset(),
        mentions(a, name),
    ensures
        mentions(b, name),
{
    a.to_multiset_ensures();
    b.to_multiset_ensures();
    let k = choose|k: int| 0 <= k < a.len() && #[trigger] a[k].dataset == name;
    assert(a.contains(a[k]));
    assert(a.to_multiset().count(a[k]) > 0);
    assert(b.to_multiset().count(a[k]) > 0);
    assert(b.contains(a[k]));
    let j = choose|j: int| 0 <= j < b.len() && b[j] == a[k];
    assert(b[j].dataset == name);
}

/// Rows in the strict order of their names, covering the same names and
/// equal where the names are equal, are the same rows.
proof fn lemma_ascending_unique(a: Seq<ReportRow>, b: Seq<ReportRow>)
    requires
        ascending(a),
        ascending(b),
        forall|i: int| 0 <= i < a.len() ==> has_row(b, #[trigger] a[i].name),
        forall|i: int| 0 <= i < b.len() ==> has_row(a, #[trigger] b[i].name),
        forall|i: int, j: int|
            0 <= i < a.len() && 0 <= j < b.len() && #[trigger] a[i].name == #[trigger] b[j].name
                ==> a[i] == b[j],
    ensures
        a == b,
    decreases a.len(),
{
    if a.len() == 0 {
        if b.len() > 0 {
            assert(has_row(a, b[0].name));
        }
        assert(a =~= b);
    } else {
        assert(has_row(b, a[0].name));
        let j = choose|j: int| 0 <= j < b.len() && #[trigger] b[j].name == a[0].name;
        assert(has_row(a, b[0].name));
        let i = choose|i: int| 0 <= i < a.len() && #[trigger] a[i].name == b[0].name;
        lemma_precedes_irreflexive(a[0].name);
        if i > 0 && j > 0 {
            lemma_precedes_transitive(a[0].name, a[i].name, b[j].name);
        }
        if i > 0 && j == 0 {
            assert(precedes(a[0].name, a[i].name));
        }
        if i == 0 && j > 0 {
            assert(precedes(b[0].name, b[j].name));
        }
        assert(a[0].name == b[0].name);
        let x = a.drop_first();
        let y = b.drop_first();
        assert forall|m: int| 0 <= m < x.len() implies has_row(y, #[trigger] x[m].name) by {
            assert(x[m] == a[m + 1]);
            assert(has_row(b, a[m + 1].name));
            let n = choose|n: int| 0 <= n < b.len() && #[trigger] b[n].name == a[m + 1].name;
            assert(precedes(a[0].name, a[m + 1].name));
            assert(n > 0);
            assert(y[n - 1].name == x[m].name);
        }
        assert forall|n: int| 0 <= n < y.len() implies has_row(x, #[trigger] y[n].name) by {
            assert(y[n] == b[n + 1]);
            assert(has_row(a, b[n + 1].name));
            let m = choose|m: int| 0 <= m < a.len() && #[trigger] a[m].name == b[n + 1].name;
            assert(precedes(b[0].name, b[n + 1].name));
            assert(m > 0);
            assert(x[m - 1].name == y[n].name);
        }
        assert forall|m: int, n: int| 0 <= m < n < x.len() implies precedes(
            #[trigger] x[m].name,
            #[trigger] x[n].name,
        ) by {
            assert(x[m] == a[m + 1] && x[n] == a[n + 1]);
        }
        assert forall|m: int, n: int| 0 <= m < n < y.len() implies precedes(
            #[trigger] y[m].name,
            #[trigger] y[n].name,
        ) by {
            assert(y[m] == b[m + 1] && y[n] == b[n + 1]);
        }
        assert forall|m: int, n: int|
            0 <= m < x.len() && 0 <= n < y.len() && #[trigger] x[m].name
                == #[trigger] y[n].name implies x[m] == y[n] by {
            assert(x[m] == a[m + 1] && y[n] == b[n + 1]);
        }
        lemma_ascending_unique(x, y);
        assert(a =~= seq![a[0]] + x);
        assert(b =~= seq![b[0]] + y);
    }
}

/// The entries have one report only.
pub proof fn lemma_report_unique(
    first: Seq<ReportRow>,
    second: Seq<ReportRow>,
    entries: Seq<AutosnapEntry>,
)
    requires
        is_report_of(first, entries),
        is_report_of(second, entries),
    ensures
        first == second,
{
    lemma_report_permutation(first, entries, second, entries);
}

/// The report does not depend on the order of the entries: lists that hold
/// the same entries, each as often as the other, have the same report.
pub proof fn lemma_report_permutation(
    first: Seq<ReportRow>,
    a: Seq<AutosnapEntry>,
    second: Seq<ReportRow>,
    b: Seq<AutosnapEntry>,
)
    requires
        a.to_multiset() == b.to_multiset(),
        is_report_of(first, a),
        is_report_of(second, b),
    ensures
        first == second,
{
    assert forall|i: int| 0 <= i < first.len() implies has_row(second, #[trigger] first[i].name) by {
        lemma_mentions_permutation(a, b, first[i].name);
        let k = choose|k: int| 0 <= k < b.len() && #[trigger] b[k].dataset == first[i].name;
        assert(has_row(second, b[k].dataset));
    }
    assert forall|i: int| 0 <= i < second.len() implies has_row(first, #[trigger] second[i].name) by {
        lemma_mentions_permutation(b, a, second[i].name);
        let k = choose|k: int| 0 <= k < a.len() && #[trigger] a[k].dataset == second[i].name;
        assert(has_row(first, a[k].dataset));
    }
    assert forall|i: int, j: int|
        0 <= i < first.len() && 0 <= j < second.len() && #[trigger] first[i].name
            == #[trigger] second[j].name implies first[i] == second[j] by {
        let name = first[i].name;
        lemma_stat_of_permutation(a, b, name, Period::Hourly);
        lemma_stat_of_permutation(a, b, name, Period::Daily);
        lemma_stat_of_permutation(a, b, name, Period::Monthly);
        lemma_stat_of_permutation(a, b, name, Period::Yearly);
    }
    lemma_ascending_unique(first, second);
}

/// An identifier that is not an autosnap name does not change the report:
/// the list with it and the list without it have the same report.
pub proof fn lemma_rejected_keeps_report(
    before: Seq<Seq<char>>,
    identifier: Seq<char>,
    after: Seq<Seq<char>>,
    with: Seq<ReportRow>,
    without: Seq<ReportRow>,
)
    requires
        recognize(identifier) is Err,
        is_report_of(with, recognized(before.push(identifier) + after)),
        is_report_of(without, recognized(before + after)),
    ensures
        with == without,
{
    super::lemma_rejected_leaves_no_trace(before, identifier, after);
    lemma_report_unique(with, without, recognized(before + after));
}

/// The report of no entries has no rows.
pub proof fn lemma_report_of_nothing(rows: Seq<ReportRow>)
    requires
        is_report_of(rows, Seq::<AutosnapEntry>::empty()),
    ensures
        rows.len() == 0,
{
    if rows.len() > 0 {
        assert(mentions(Seq::<AutosnapEntry>::empty(), rows[0].name));
    }
}

/// Moves `last` forward to `timestamp` if that is later.
pub fn update_last_timestamp(last: &mut Option<Timestamp>, timestamp: Timestamp)
    ensures
        *final(last) == later(*old(last), timestamp),
{
    match *last {
        Some(seen) => {
            if timestamp.unix_seconds() > seen.unix_seconds() {
                *last = Some(timestamp);
            }
        },
        None => {
            *last = Some(timestamp);
        },
    }
}

/// Counts one more snapshot, taken at `timestamp`.
pub fn update_period_item(curr: &mut AutosnapReportPeriodItem, timestamp: Timestamp)
    requires
        old(curr).count < usize::MAX,
    ensures
        final(curr).count == old(curr).count + 1,
        final(curr).last == later(old(curr).last, timestamp),
{
    update_last_timestamp(&mut curr.last, timestamp);
    curr.count += 1;
}

impl Default for AutosnapReportPeriodItem {
    /// No snapshot seen.
    fn default() -> (item: AutosnapReportPeriodItem)
        ensures
            item@ == PeriodStat::empty(),
    {
        AutosnapReportPeriodItem { count: 0, last: None }
    }
}

impl View for AutosnapReportItem {
    type V = ReportRow;

    closed spec fn view(&self) -> ReportRow {
        ReportRow {
            name: self.name@,
            hourly: self.hourly@,
            daily: self.daily@,
            monthly: self.monthly@,
            yearly: self.yearly@,
        }
    }
}

impl AutosnapReportItem {
    /// The row of dataset `name` before any of its snapshots is counted.
    pub fn new(name: String) -> (item: AutosnapReportItem)
        ensures
            item@ == ReportRow::empty(name@),
    {
        AutosnapReportItem {
            name,
            hourly: Default::default(),
            daily: Default::default(),
            monthly: Default::default(),
            yearly: Default::default(),
        }
    }

    /// The dataset of the row.
    pub fn name(&self) -> (name: &str)
        ensures
            name@ == self@.name,
    {
        self.name.as_str()
    }

    /// The part of the row that belongs to `period`.
    pub fn stat(&self, period: Period) -> (item: AutosnapReportPeriodItem)
        ensures
            item@ == self@.stat(period),
    {
        match period {
            Period::Hourly => self.hourly,
            Period::Daily => self.daily,
            Period::Monthly => self.monthly,
            Period::Yearly => self.yearly,
        }
    }

    /// When the latest snapshot of the dataset was taken, whatever its period.
    pub fn overall_last_seen(&self) -> (last: Option<Timestamp>)
        ensures
            last == self@.overall_last(),
    {
        latest(latest(latest(self.hourly.last, self.daily.last), self.monthly.last), self.yearly.last)
    }

    /// How long before `now` the latest snapshot of the dataset was taken, in
    /// words such as "2 days ago"; empty where it was taken after `now`.
    pub fn last_seen_ago(&self, now: Timestamp) -> (text: String)
        ensures
            text@ == age_text(self@.overall_last(), now),
    {
        match self.overall_last_seen() {
            Some(instant) => match now.seconds_since(instant) {
                Some(elapsed) => format_time_ago(elapsed),
                None => String::new(),
            },
            None => String::new(),
        }
    }

    /// Counts one more snapshot of `period`, taken at `timestamp`.
    pub fn record(&mut self, period: Period, timestamp: Timestamp)
        requires
            old(self)@.stat(period).count < usize::MAX,
        ensures
            final(self)@ == old(self)@.with(period, timestamp),
    {
        match period {
            Period::Hourly => update_period_item(&mut self.hourly, timestamp),
            Period::Daily => update_period_item(&mut self.daily, timestamp),
            Period::Monthly => update_period_item(&mut self.monthly, timestamp),
            Period::Yearly => update_period_item(&mut self.yearly, timestamp),
        }
    }
}

/// How long before `now` the instant `last` lies, in words; the empty text
/// where there is no such instant or where it lies after `now`.
pub open spec fn age_text(last: Option<Timestamp>, now: Timestamp) -> Seq<char> {
    match last {
        Some(instant) => match now.elapsed_since(instant) {
            Some(elapsed) => time_ago_text(elapsed),
            None => Seq::empty(),
        },
        None => Seq::empty(),
    }
}

/// The later of two instants of which either may be missing.
fn latest(a: Option<Timestamp>, b: Option<Timestamp>) -> (last: Option<Timestamp>)
    ensures
        last == latest_of_two(a, b),
{
    let mut last = a;
    if let Some(timestamp) = b {
        update_last_timestamp(&mut last, timestamp);
    }
    last
}

/// Where the row of dataset `name` stands, or where it would have to stand.
fn locate(rows: &Vec<AutosnapReportItem>, name: &str) -> (place: (usize, bool))
    requires
        ascending(row_views(rows@)),
    ensures
        place.0 <= rows.len(),
        forall|i: int| 0 <= i < place.0 ==> precedes(#[trigger] row_views(rows@)[i].name, name@),
        place.1 ==> place.0 < rows.len() && row_views(rows@)[place.0 as int].name == name@,
        !place.1 ==> forall|i: int|
            place.0 <= i < rows.len() ==> precedes(name@, #[trigger] row_views(rows@)[i].name),
{
    let ghost views = row_views(rows@);
    let mut at: usize = 0;
    while at < rows.len() && comes_before(rows[at].name(), name)
        invariant
            at <= rows.len(),
            views == row_views(rows@),
            forall|i: int| 0 <= i < at ==> precedes(#[trigger] views[i].name, name@),
        decreases rows.len() - at,
    {
        at += 1;
    }
    if at < rows.len() && same_text(rows[at].name(), name) {
        return (at, true);
    }
    proof {
        if at < rows.len() {
            lemma_precedes_total(views[at as int].name, name@);
            assert forall|i: int| at <= i < rows.len() implies precedes(
                name@,
                #[trigger] views[i].name,
            ) by {
                if at < i {
                    lemma_precedes_transitive(name@, views[at as int].name, views[i].name);
                }
            }
        }
    }
    (at, false)
}

/// The report of `entries` with one more entry: the row of its dataset has
/// been replaced, at `at`, by the row that counts it.
proof fn lemma_report_replace(
    rows: Seq<ReportRow>,
    entries: Seq<AutosnapEntry>,
    entry: AutosnapEntry,
    at: int,
)
    requires
        is_report_of(rows, entries),
        0 <= at < rows.len(),
        rows[at].name == entry.dataset,
    ensures
        is_report_of(
            rows.update(at, rows[at].with(entry.period, entry.timestamp)),
            entries.push(entry),
        ),
{
    let next = entries.push(entry);
    let after = rows.update(at, rows[at].with(entry.period, entry.timestamp));
    assert forall|i: int, j: int| 0 <= i < j < after.len() implies precedes(
        #[trigger] after[i].name,
        #[trigger] after[j].name,
    ) by {
        assert(after[i].name == rows[i].name);
        assert(after[j].name == rows[j].name);
    }
    assert forall|i: int| 0 <= i < after.len() implies mentions(next, #[trigger] after[i].name)
        && after[i] == row_of(next, after[i].name) by {
        assert(after[i].name == rows[i].name);
        assert(mentions(entries, rows[i].name));
        let k = choose|k: int| 0 <= k < entries.len() && #[trigger] entries[k].dataset
            == rows[i].name;
        assert(next[k].dataset == rows[i].name);
        lemma_row_of_push(entries, entry, rows[i].name);
        if i != at {
            if i < at {
                lemma_precedes_irreflexive(rows[i].name);
            } else {
                lemma_precedes_irreflexive(rows[at].name);
            }
        }
    }
    assert forall|k: int| 0 <= k < next.len() implies has_row(after, #[trigger] next[k].dataset) by {
        if k < entries.len() {
            assert(next[k] == entries[k]);
            assert(has_row(rows, entries[k].dataset));
            let i = choose|i: int| 0 <= i < rows.len() && #[trigger] rows[i].name
                == entries[k].dataset;
            assert(after[i].name == next[k].dataset);
        } else {
            assert(after[at].name == next[k].dataset);
        }
    }
}

/// The report of `entries` with one more entry whose dataset had no row: the
/// row that counts it has been put in at `at`, where the order wants it.
proof fn lemma_report_insert(
    rows: Seq<ReportRow>,
    entries: Seq<AutosnapEntry>,
    entry: AutosnapEntry,
    at: int,
)
    requires
        is_report_of(rows, entries),
        0 <= at <= rows.len(),
        forall|i: int| 0 <= i < at ==> precedes(#[trigger] rows[i].name, entry.dataset),
        forall|i: int| at <= i < rows.len() ==> precedes(entry.dataset, #[trigger] rows[i].name),
    ensures
        is_report_of(
            rows.insert(
                at,
                ReportRow::empty(entry.dataset).with(entry.period, entry.timestamp),
            ),
            entries.push(entry),
        ),
{
    let next = entries.push(entry);
    let row = ReportRow::empty(entry.dataset).with(entry.period, entry.timestamp);
    let after = rows.insert(at, row);
    lemma_precedes_irreflexive(entry.dataset);
    assert(!has_row(rows, entry.dataset));
    assert(!mentions(entries, entry.dataset)) by {
        if mentions(entries, entry.dataset) {
            let k = choose|k: int| 0 <= k < entries.len() && #[trigger] entries[k].dataset
                == entry.dataset;
            assert(has_row(rows, entries[k].dataset));
        }
    }
    assert forall|i: int, j: int| 0 <= i < j < after.len() implies precedes(
        #[trigger] after[i].name,
        #[trigger] after[j].name,
    ) by {
        if j < at {
            assert(after[i] == rows[i] && after[j] == rows[j]);
        } else if j == at {
            assert(after[i] == rows[i]);
        } else if i < at {
            assert(after[i] == rows[i] && after[j] == rows[j - 1]);
            if i == j - 1 {
            }
        } else if i == at {
            assert(after[j] == rows[j - 1]);
        } else {
            assert(after[i] == rows[i - 1] && after[j] == rows[j - 1]);
        }
    }
    assert forall|i: int| 0 <= i < after.len() implies mentions(next, #[trigger] after[i].name)
        && after[i] == row_of(next, after[i].name) by {
        lemma_row_of_push(entries, entry, after[i].name);
        if i == at {
            assert(next[entries.len() as int].dataset == entry.dataset);
            lemma_row_of_unmentioned(entries, entry.dataset);
        } else {
            let old_i = if i < at {
                i
            } else {
                i - 1
            };
            assert(after[i] == rows[old_i]);
            assert(mentions(entries, rows[old_i].name));
            let k = choose|k: int| 0 <= k < entries.len() && #[trigger] entries[k].dataset
                == rows[old_i].name;
            assert(next[k].dataset == rows[old_i].name);
        }
    }
    assert forall|k: int| 0 <= k < next.len() implies has_row(after, #[trigger] next[k].dataset) by {
        if k < entries.len() {
            assert(next[k] == entries[k]);
            assert(has_row(rows, entries[k].dataset));
            let i = choose|i: int| 0 <= i < rows.len() && #[trigger] rows[i].name
                == entries[k].dataset;
            let new_i = if i < at {
                i
            } else {
                i + 1
            };
            assert(after[new_i].name == next[k].dataset);
        } else {
            assert(after[at].name == next[k].dataset);
        }
    }
}

impl View for AutosnapReport {
    type V = Seq<ReportRow>;

    closed spec fn view(&self) -> Seq<ReportRow> {
        row_views(self.0@)
    }
}

impl AutosnapReport {
    /// The rows stand in the strict order of their names, and each of them
    /// counts at least one snapshot.
    #[verifier::type_invariant]
    spec fn ordered(self) -> bool {
        ascending(row_views(self.0@)) && populated(row_views(self.0@))
    }

    /// The number of rows. Whatever their number, the rows stand in the
    /// strict order of their names and none of them is empty.
    pub fn len(&self) -> (n: usize)
        ensures
            n == self@.len(),
            ascending(self@),
            populated(self@),
    {
        proof {
            use_type_invariant(self);
        }
        self.0.len()
    }

    /// The row at position `i`.
    pub fn get(&self, i: usize) -> (row: &AutosnapReportItem)
        requires
            i < self@.len(),
        ensures
            row@ == self@[i as int],
            row@.total() >= 1,
    {
        proof {
            use_type_invariant(self);
        }
        &self.0[i]
    }

    /// Counts the snapshots of a list: one row for each dataset, in the
    /// order of the names, each with the number of snapshots of each period
    /// and the instant of the latest of them.
    pub fn from(list: AutosnapList) -> (report: AutosnapReport)
        ensures
            is_report_of(report@, list@),
    {
        let mut rows: Vec<AutosnapReportItem> = Vec::new();
        let mut k: usize = 0;
        assert(list@.take(0) =~= Seq::<AutosnapEntry>::empty());
        while k < list.len()
            invariant
                k <= list@.len(),
                is_report_of(row_views(rows@), list@.take(k as int)),
            decreases list@.len() - k,
        {
            let info = list.get(k);
            let ghost seen = list@.take(k as int);
            let ghost before = row_views(rows@);
            let (at, found) = locate(&rows, info.name());
            if !found {
                let row = AutosnapReportItem::new(info.name().to_owned());
                rows.insert(at, row);
                assert(row_views(rows@) =~= before.insert(
                    at as int,
                    ReportRow::empty(info@.dataset),
                ));
            }
            let ghost middle = row_views(rows@);
            proof {
                assert(middle[at as int] == row_of(seen, info@.dataset)) by {
                    if !found {
                        lemma_precedes_irreflexive(info@.dataset);
                        if mentions(seen, info@.dataset) {
                            let j = choose|j: int| 0 <= j < seen.len() && #[trigger] seen[j].dataset
                                == info@.dataset;
                            assert(has_row(before, seen[j].dataset));
                        }
                        lemma_row_of_unmentioned(seen, info@.dataset);
                    }
                }
                lemma_count_bound(seen, info@.dataset, info@.period);
            }
            rows[at].record(info.period(), info.timestamp());
            proof {
                assert(list@.take(k + 1) =~= seen.push(info@));
                assert(row_views(rows@) =~= middle.update(
                    at as int,
                    middle[at as int].with(info@.period, info@.timestamp),
                ));
                if found {
                    lemma_report_replace(before, seen, info@, at as int);
                } else {
                    lemma_report_insert(before, seen, info@, at as int);
                    assert(row_views(rows@) =~= before.insert(
                        at as int,
                        ReportRow::empty(info@.dataset).with(info@.period, info@.timestamp),
                    ));
                }
            }
            k += 1;
        }
        assert(list@.take(list@.len() as int) =~= list@);
        proof {
            lemma_report_populated(row_views(rows@), list@);
        }
        AutosnapReport(rows)
    }
}

} // verus!
