use zfs_autosnap::autosnap::report::{
    update_last_timestamp, update_period_item, AutosnapReport, AutosnapReportItem,
    AutosnapReportPeriodItem,
};
use zfs_autosnap::autosnap::{AutosnapInfo, AutosnapList, Period};
use zfs_autosnap::parser::List;
use zfs_autosnap::time::Timestamp;

const PERIODS: [Period; 4] = [
    Period::Hourly,
    Period::Daily,
    Period::Monthly,
    Period::Yearly,
];

fn entry(dataset: &str, secs: i64, tag: &str) -> AutosnapInfo {
    AutosnapInfo::from_parts(dataset, Ok(secs), tag).unwrap()
}

fn report_of(entries: &[(&str, i64, &str)]) -> AutosnapReport {
    let list = AutosnapList::new(
        entries
            .iter()
            .map(|(dataset, secs, tag)| entry(dataset, *secs, tag))
            .collect(),
    );
    AutosnapReport::from(list)
}

fn rows_of(report: &AutosnapReport) -> Vec<(String, [(usize, Option<i64>); 4])> {
    let mut rows = Vec::new();
    for i in 0..report.len() {
        let row = report.get(i);
        let mut stats = [(0, None); 4];
        for (k, period) in PERIODS.iter().enumerate() {
            let stat = row.stat(*period);
            stats[k] = (stat.count, stat.last.map(|t| t.unix_seconds()));
        }
        rows.push((row.name().to_string(), stats));
    }
    rows
}

#[test]
fn two_daily_snapshots_of_one_dataset() {
    let report = report_of(&[
        ("pool/x", 1640995200, "daily"),
        ("pool/x", 1641081600, "daily"),
    ]);
    assert_eq!(report.len(), 1);
    let row = report.get(0);
    assert_eq!(row.name(), "pool/x");
    let daily = row.stat(Period::Daily);
    assert_eq!(daily.count, 2);
    assert_eq!(daily.last, Some(Timestamp::from_unix_seconds(1641081600)));
    for period in [Period::Hourly, Period::Monthly, Period::Yearly] {
        assert_eq!(row.stat(period).count, 0);
        assert_eq!(row.stat(period).last, None);
    }
    assert_eq!(
        row.overall_last_seen(),
        Some(Timestamp::from_unix_seconds(1641081600))
    );
}

#[test]
fn latest_instant_does_not_depend_on_the_order() {
    let report = report_of(&[
        ("pool/x", 1641081600, "daily"),
        ("pool/x", 1640995200, "daily"),
        ("pool/x", 1641081600, "daily"),
    ]);
    let daily = report.get(0).stat(Period::Daily);
    assert_eq!(daily.count, 3);
    assert_eq!(daily.last, Some(Timestamp::from_unix_seconds(1641081600)));
}

#[test]
fn first_snapshot_of_a_dataset_is_counted() {
    let report = report_of(&[("pool/x", 7, "hourly")]);
    assert_eq!(report.len(), 1);
    assert_eq!(report.get(0).stat(Period::Hourly).count, 1);
    assert_eq!(
        report.get(0).stat(Period::Hourly).last,
        Some(Timestamp::from_unix_seconds(7))
    );
}

#[test]
fn empty_text_gives_empty_report() {
    let list = List::from_str("").unwrap();
    let snapshots = AutosnapList::try_from(list).unwrap();
    let report = AutosnapReport::from(snapshots);
    assert_eq!(report.len(), 0);
    assert_eq!(report_of(&[]).len(), 0);
}

#[test]
fn rows_stand_in_the_order_of_their_names() {
    let report = report_of(&[
        ("pool/b", 1, "daily"),
        ("pool", 2, "daily"),
        ("pool/a/z", 3, "hourly"),
        ("Pool", 4, "yearly"),
        ("pool/a", 5, "monthly"),
        ("pool/b", 6, "daily"),
        ("\u{e4}", 7, "daily"),
    ]);
    let names: Vec<String> = rows_of(&report).into_iter().map(|row| row.0).collect();
    assert_eq!(
        names,
        vec!["Pool", "pool", "pool/a", "pool/a/z", "pool/b", "\u{e4}"]
    );
    for i in 1..names.len() {
        assert!(names[i - 1] < names[i]);
    }
}

#[test]
fn permuted_entries_give_the_same_report() {
    let entries = [
        ("pool/b", 10, "daily"),
        ("pool/a", 20, "hourly"),
        ("pool/b", 30, "daily"),
        ("pool/c", 30, "yearly"),
        ("pool/a", 5, "hourly"),
        ("pool/b", 30, "monthly"),
    ];
    let expected = rows_of(&report_of(&entries));
    assert_eq!(
        expected,
        vec![
            (
                "pool/a".to_string(),
                [(2, Some(20)), (0, None), (0, None), (0, None)]
            ),
            (
                "pool/b".to_string(),
                [(0, None), (2, Some(30)), (1, Some(30)), (0, None)]
            ),
            (
                "pool/c".to_string(),
                [(0, None), (0, None), (0, None), (1, Some(30))]
            ),
        ]
    );
    let mut reversed = entries;
    reversed.reverse();
    assert_eq!(rows_of(&report_of(&reversed)), expected);
    for shift in 1..entries.len() {
        let mut rotated = entries;
        rotated.rotate_left(shift);
        assert_eq!(rows_of(&report_of(&rotated)), expected);
    }
}

#[test]
fn counts_add_up_to_the_entries_of_the_dataset() {
    let entries = [
        ("a", 100, "hourly"),
        ("b", 900, "daily"),
        ("a", 300, "daily"),
        ("a", 200, "monthly"),
        ("a", 250, "hourly"),
        ("b", 50, "yearly"),
        ("a", 10, "yearly"),
    ];
    let report = report_of(&entries);
    assert_eq!(report.len(), 2);
    for i in 0..report.len() {
        let row = report.get(i);
        let expected = entries.iter().filter(|e| e.0 == row.name()).count();
        let latest = entries
            .iter()
            .filter(|e| e.0 == row.name())
            .map(|e| e.1)
            .max();
        let total: usize = PERIODS.iter().map(|p| row.stat(*p).count).sum();
        assert_eq!(total, expected);
        assert_eq!(row.overall_last_seen().map(|t| t.unix_seconds()), latest);
    }
    assert_eq!(report.get(0).overall_last_seen().unwrap().unix_seconds(), 300);
    assert_eq!(report.get(1).overall_last_seen().unwrap().unix_seconds(), 900);
}

#[test]
fn rejected_line_does_not_change_the_report() {
    let with = "a@autosnap_2022-01-01_00:00:00_daily 1K - 1K -\n\
                a@autosnap_2022-01-01_00:00:00_weekly 1K - 1K -\n\
                a@manual 1K - 1K -\n\
                b@autosnap_2022-01-02_00:00:00_hourly 1K - 1K -\n";
    let without = "a@autosnap_2022-01-01_00:00:00_daily 1K - 1K -\n\
                   b@autosnap_2022-01-02_00:00:00_hourly 1K - 1K -\n";
    let first = AutosnapReport::from(
        AutosnapList::try_from(List::from_str(with).unwrap()).unwrap(),
    );
    let second = AutosnapReport::from(
        AutosnapList::try_from(List::from_str(without).unwrap()).unwrap(),
    );
    assert_eq!(rows_of(&first), rows_of(&second));
    assert_eq!(
        rows_of(&first),
        vec![
            (
                "a".to_string(),
                [(0, None), (1, Some(1640995200)), (0, None), (0, None)]
            ),
            (
                "b".to_string(),
                [(1, Some(1641081600)), (0, None), (0, None), (0, None)]
            ),
        ]
    );
}

#[test]
fn last_timestamp_moves_forward_only() {
    let mut last = None;
    update_last_timestamp(&mut last, Timestamp::from_unix_seconds(5));
    assert_eq!(last, Some(Timestamp::from_unix_seconds(5)));
    update_last_timestamp(&mut last, Timestamp::from_unix_seconds(3));
    assert_eq!(last, Some(Timestamp::from_unix_seconds(5)));
    update_last_timestamp(&mut last, Timestamp::from_unix_seconds(5));
    assert_eq!(last, Some(Timestamp::from_unix_seconds(5)));
    update_last_timestamp(&mut last, Timestamp::from_unix_seconds(6));
    assert_eq!(last, Some(Timestamp::from_unix_seconds(6)));
    update_last_timestamp(&mut last, Timestamp::from_unix_seconds(-6));
    assert_eq!(last, Some(Timestamp::from_unix_seconds(6)));
}

#[test]
fn period_item_counts_and_keeps_the_latest() {
    let mut item = AutosnapReportPeriodItem::default();
    assert_eq!(item.count, 0);
    assert_eq!(item.last, None);
    update_period_item(&mut item, Timestamp::from_unix_seconds(9));
    update_period_item(&mut item, Timestamp::from_unix_seconds(4));
    assert_eq!(item.count, 2);
    assert_eq!(item.last, Some(Timestamp::from_unix_seconds(9)));
}

#[test]
fn row_records_snapshots_by_period() {
    let mut row = AutosnapReportItem::new("tank".to_string());
    assert_eq!(row.name(), "tank");
    assert_eq!(row.overall_last_seen(), None);
    row.record(Period::Monthly, Timestamp::from_unix_seconds(50));
    row.record(Period::Hourly, Timestamp::from_unix_seconds(70));
    row.record(Period::Yearly, Timestamp::from_unix_seconds(60));
    row.record(Period::Monthly, Timestamp::from_unix_seconds(40));
    assert_eq!(row.stat(Period::Hourly).count, 1);
    assert_eq!(row.stat(Period::Daily).count, 0);
    assert_eq!(row.stat(Period::Monthly).count, 2);
    assert_eq!(row.stat(Period::Yearly).count, 1);
    assert_eq!(
        row.stat(Period::Monthly).last,
        Some(Timestamp::from_unix_seconds(50))
    );
    assert_eq!(row.stat(Period::Daily).last, None);
    assert_eq!(
        row.overall_last_seen(),
        Some(Timestamp::from_unix_seconds(70))
    );
}

#[test]
fn age_of_the_latest_snapshot_in_words() {
    let mut row = AutosnapReportItem::new("tank".to_string());
    assert_eq!(row.last_seen_ago(Timestamp::from_unix_seconds(0)), "");
    row.record(Period::Daily, Timestamp::from_unix_seconds(1640995200));
    row.record(Period::Hourly, Timestamp::from_unix_seconds(1640995200 - 3600));
    let now = |after: i64| Timestamp::from_unix_seconds(1640995200 + after);
    assert_eq!(row.last_seen_ago(now(0)), "now");
    assert_eq!(row.last_seen_ago(now(1)), "1 second ago");
    assert_eq!(row.last_seen_ago(now(59)), "59 seconds ago");
    assert_eq!(row.last_seen_ago(now(60)), "1 minute ago");
    assert_eq!(row.last_seen_ago(now(2 * 3600 + 5)), "2 hours ago");
    assert_eq!(row.last_seen_ago(now(86400)), "1 day ago");
    assert_eq!(row.last_seen_ago(now(3 * 86400)), "3 days ago");
    assert_eq!(row.last_seen_ago(now(-1)), "");
}
