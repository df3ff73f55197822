use tuilog::models::{LogEntry, LogbookColumn, OperatorConfig};
use tuilog::store::Store;
use tuilog::timestamp::{parse_timestamp, Timestamp};
use tuilog::LogbookError;

fn s(text: &str) -> String {
    text.to_string()
}

fn append_at(store: &mut Store, text: &str, call: &str, profile_id: u64) -> u64 {
    let t = parse_timestamp(text).unwrap();
    store
        .append(
            t,
            s(call),
            s("59"),
            s("57"),
            s("20M"),
            s("14.0"),
            s("USB"),
            s("100"),
            s(""),
            profile_id,
        )
        .unwrap()
}

#[test]
fn profile_ids_count_up_and_are_never_reused() {
    let mut store = Store::new();
    assert_eq!(store.create_profile().unwrap(), 1);
    assert_eq!(store.create_profile().unwrap(), 2);
    store.delete_profile(2);
    assert_eq!(store.create_profile().unwrap(), 3);
    let ids: Vec<u64> = store.list_profiles().iter().map(|p| p.id).collect();
    assert_eq!(ids, vec![1, 3]);
}

#[test]
fn new_profile_has_placeholder_attributes() {
    let mut store = Store::new();
    let id = store.create_profile().unwrap();
    let profiles = store.list_profiles();
    assert_eq!(profiles.len(), 1);
    assert_eq!(profiles[0].id, id);
    assert_eq!(profiles[0].name, "New Option");
    assert_eq!(profiles[0].call, "");
}

#[test]
fn update_profile_replaces_all_attributes() {
    let mut store = Store::new();
    let id = store.create_profile().unwrap();
    store
        .update_profile(id, s("Home"), s("W1AW"), s("FN31"), s("5"), s("8"), s("291"), s("NA"))
        .unwrap();
    let p = &store.list_profiles()[0];
    assert_eq!(p.name, "Home");
    assert_eq!(p.call, "W1AW");
    assert_eq!(p.grid, "FN31");
    assert_eq!(p.cqz, "5");
    assert_eq!(p.ituz, "8");
    assert_eq!(p.dxcc, "291");
    assert_eq!(p.cont, "NA");
}

#[test]
fn update_missing_profile_is_reported() {
    let mut store = Store::new();
    let r = store.update_profile(7, s(""), s(""), s(""), s(""), s(""), s(""), s(""));
    assert_eq!(r, Err(LogbookError::ProfileNotFound));
}

#[test]
fn append_to_missing_profile_is_rejected() {
    let mut store = Store::new();
    let t = parse_timestamp("2024-01-01 12:00:00").unwrap();
    let r = store.append(
        t,
        s("K1ABC"),
        s("59"),
        s("59"),
        s("20M"),
        s("14.0"),
        s("USB"),
        s(""),
        s(""),
        1,
    );
    assert_eq!(r, Err(LogbookError::ProfileNotFound));
    assert!(store.list_logs().is_empty());
}

#[test]
fn list_logs_is_descending_by_timestamp() {
    let mut store = Store::new();
    let pid = store.create_profile().unwrap();
    append_at(&mut store, "2024-01-02 00:00:00", "A", pid);
    append_at(&mut store, "2024-01-03 00:00:00", "B", pid);
    append_at(&mut store, "2024-01-01 00:00:00", "C", pid);
    let calls: Vec<String> = store.list_logs().iter().map(|l| l.call.clone()).collect();
    assert_eq!(calls, vec!["B", "A", "C"]);
}

#[test]
fn equal_timestamps_list_newest_append_first() {
    let mut store = Store::new();
    let pid = store.create_profile().unwrap();
    append_at(&mut store, "2024-01-02 00:00:00", "first", pid);
    append_at(&mut store, "2024-01-02 00:00:00", "second", pid);
    append_at(&mut store, "2024-01-02 00:00:00", "third", pid);
    let calls: Vec<String> = store.list_logs().iter().map(|l| l.call.clone()).collect();
    assert_eq!(calls, vec!["third", "second", "first"]);
}

#[test]
fn append_log_stamps_a_valid_moment() {
    let mut store = Store::new();
    let pid = store.create_profile().unwrap();
    let id = store
        .append_log(s("K1ABC"), s("59"), s("59"), s("20M"), s("14.0"), s("CW"), s(""), s(""), pid)
        .unwrap();
    assert_eq!(id, 1);
    let logs = store.list_logs();
    assert_eq!(logs.len(), 1);
    let t = logs[0].timestamp;
    assert!(t.is_valid());
    assert!(t.year >= 2024);
    // the stored text form must parse back to the same moment
    assert_eq!(parse_timestamp(&t.to_text()), Some(t));
}

#[test]
fn deleting_a_referenced_profile_keeps_the_log_rows() {
    let mut store = Store::new();
    let pid = store.create_profile().unwrap();
    append_at(&mut store, "2024-01-01 00:00:00", "K1ABC", pid);
    append_at(&mut store, "2024-01-02 00:00:00", "K2DEF", pid);
    let before = store.list_logs();
    store.delete_profile(pid);
    let after = store.list_logs();
    assert_eq!(before.len(), 2);
    assert_eq!(after.len(), 2);
    for (a, b) in before.iter().zip(after.iter()) {
        assert_eq!(a.timestamp, b.timestamp);
        assert_eq!(a.call, b.call);
    }
}

#[test]
fn restore_round_trips_store_contents() {
    let mut store = Store::new();
    let pid = store.create_profile().unwrap();
    append_at(&mut store, "2024-05-06 07:08:09", "K1ABC", pid);
    let profiles = store.list_profiles();
    let mut logs: Vec<LogEntry> = Vec::new();
    logs.push(LogEntry {
        id: 1,
        timestamp: parse_timestamp("2024-05-06 07:08:09").unwrap(),
        call: s("K1ABC"),
        rsttx: s("59"),
        rstrx: s("57"),
        band: s("20M"),
        frequency: s("14.0"),
        mode: s("USB"),
        power: s("100"),
        comments: s(""),
        profile_id: pid,
    });
    let restored = Store::restore(profiles, logs).unwrap();
    let rows = restored.list_logs();
    assert_eq!(rows.len(), 1);
    assert_eq!(rows[0].call, "K1ABC");
    assert_eq!(rows[0].timestamp.to_text(), "2024-05-06 07:08:09");
}

#[test]
fn restore_rejects_unordered_ids() {
    let p1 = OperatorConfig {
        id: 2,
        name: s("a"),
        call: s(""),
        grid: s(""),
        cqz: s(""),
        ituz: s(""),
        dxcc: s(""),
        cont: s(""),
    };
    let p2 = OperatorConfig {
        id: 1,
        name: s("b"),
        call: s(""),
        grid: s(""),
        cqz: s(""),
        ituz: s(""),
        dxcc: s(""),
        cont: s(""),
    };
    assert!(Store::restore(vec![p1, p2], Vec::new()).is_none());
}

#[test]
fn restore_rejects_impossible_timestamps() {
    let entry = LogEntry {
        id: 1,
        timestamp: Timestamp { year: 2023, month: 2, day: 29, hour: 0, minute: 0, second: 0 },
        call: s("K1ABC"),
        rsttx: s("59"),
        rstrx: s("59"),
        band: s("20M"),
        frequency: s("14.0"),
        mode: s("CW"),
        power: s(""),
        comments: s(""),
        profile_id: 1,
    };
    assert!(Store::restore(Vec::new(), vec![entry]).is_none());
}

#[test]
fn column_titles_and_cells() {
    assert_eq!(LogbookColumn::Timestamp.as_str(), "Timestamp");
    assert_eq!(LogbookColumn::Frequency.as_str(), "Frequency");
    let mut store = Store::new();
    let pid = store.create_profile().unwrap();
    append_at(&mut store, "2024-01-01 12:00:00", "K1ABC", pid);
    let row = &store.list_logs()[0];
    assert_eq!(row.to_column(LogbookColumn::Timestamp), "2024-01-01 12:00:00");
    assert_eq!(row.to_column(LogbookColumn::Call), "K1ABC");
    assert_eq!(row.to_column(LogbookColumn::Band), "20M");
}

#[test]
fn column_comparison_orders_rows() {
    let mut store = Store::new();
    let pid = store.create_profile().unwrap();
    append_at(&mut store, "2024-01-01 12:00:00", "K1ABC", pid);
    append_at(&mut store, "2024-01-02 12:00:00", "A1AAA", pid);
    let rows = store.list_logs();
    assert_eq!(
        rows[0].cmp(&rows[1], LogbookColumn::Timestamp),
        std::cmp::Ordering::Greater
    );
    assert_eq!(rows[0].cmp(&rows[1], LogbookColumn::Call), std::cmp::Ordering::Less);
    assert_eq!(rows[0].cmp(&rows[0], LogbookColumn::Call), std::cmp::Ordering::Equal);
}
