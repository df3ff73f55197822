use tuilog::codec::{header_fields, AdifField};
use tuilog::models::{LogbookExt, OperatorConfig};
use tuilog::store::Store;
use tuilog::timestamp::parse_timestamp;
use tuilog::LogbookError;

fn s(text: &str) -> String {
    text.to_string()
}

fn home_profile(store: &mut Store) -> u64 {
    let id = store.create_profile().unwrap();
    store
        .update_profile(id, s("Home"), s("W1AW"), s("FN31"), s("5"), s("8"), s("291"), s("NA"))
        .unwrap();
    id
}

fn append_contact(store: &mut Store, text: &str, call: &str, mode: &str, pid: u64) {
    let t = parse_timestamp(text).unwrap();
    store
        .append(t, s(call), s("59"), s("59"), s("20M"), s("14.0"), s(mode), s(""), s(""), pid)
        .unwrap();
}

fn names_and_values(fields: &[AdifField]) -> Vec<(String, String)> {
    fields.iter().map(|f| (f.name.clone(), f.value.clone())).collect()
}

fn sample_enriched(mode: &str) -> LogbookExt {
    LogbookExt {
        timestamp: parse_timestamp("2024-01-01 12:00:00").unwrap(),
        call: s("K1ABC"),
        rsttx: s("59"),
        rstrx: s("57"),
        band: s("20M"),
        frequency: s("14.0"),
        mode: s(mode),
        power: s("100"),
        comments: s("hi"),
        operator: OperatorConfig {
            id: 1,
            name: s("Home"),
            call: s("W1AW"),
            grid: s("FN31"),
            cqz: s("5"),
            ituz: s("8"),
            dxcc: s("291"),
            cont: s("NA"),
        },
    }
}

#[test]
fn usb_mode_splits_into_ssb_and_submode() {
    let fields = names_and_values(&sample_enriched("USB").record_fields());
    assert!(fields.contains(&(s("MODE"), s("SSB"))));
    assert!(fields.contains(&(s("SUBMODE"), s("USB"))));
}

#[test]
fn lsb_mode_splits_into_ssb_and_submode() {
    let fields = names_and_values(&sample_enriched("LSB").record_fields());
    assert!(fields.contains(&(s("MODE"), s("SSB"))));
    assert!(fields.contains(&(s("SUBMODE"), s("LSB"))));
}

#[test]
fn other_modes_pass_through_without_submode() {
    let fields = names_and_values(&sample_enriched("CW").record_fields());
    assert!(fields.contains(&(s("MODE"), s("CW"))));
    assert!(fields.iter().all(|(name, _)| name != "SUBMODE"));
}

#[test]
fn receive_fields_duplicate_transmit_fields() {
    for mode in ["USB", "CW", "FT8"] {
        let fields = names_and_values(&sample_enriched(mode).record_fields());
        let value_of = |wanted: &str| -> String {
            fields.iter().find(|(name, _)| name == wanted).unwrap().1.clone()
        };
        assert_eq!(value_of("FREQ_RX"), value_of("FREQ"));
        assert_eq!(value_of("BAND_RX"), value_of("BAND"));
    }
}

#[test]
fn record_field_order_is_fixed() {
    let fields = names_and_values(&sample_enriched("CW").record_fields());
    let names: Vec<String> = fields.iter().map(|(name, _)| name.clone()).collect();
    assert_eq!(
        names,
        vec![
            "CALL",
            "QSO_DATE",
            "TIME_ON",
            "FREQ",
            "BAND",
            "FREQ_RX",
            "BAND_RX",
            "COMMENT",
            "MODE",
            "MY_GRIDSQUARE",
            "STATION_CALLSIGN",
            "CQZ",
            "ITUZ",
            "DXCC",
            "CONT",
            "OPERATOR",
            "RST_SENT",
            "RST_RCVD",
            "TX_PWR"
        ]
    );
}

#[test]
fn header_names_the_program() {
    let fields = names_and_values(&header_fields());
    assert_eq!(fields, vec![(s("PROGRAMVERSION"), s("1.0.0")), (s("PROGRAMID"), s("TUILOG"))]);
}

#[test]
fn export_range_applies_inclusive_bounds() {
    let mut store = Store::new();
    let pid = home_profile(&mut store);
    append_contact(&mut store, "2024-01-01 00:00:00", "A", "CW", pid);
    append_contact(&mut store, "2024-01-02 00:00:00", "B", "CW", pid);
    append_contact(&mut store, "2024-01-03 00:00:00", "C", "CW", pid);
    let all = store.export_range(None, None).unwrap();
    assert_eq!(all.len(), 3);
    let from = store.export_range(Some("2024-01-02 00:00:00"), None).unwrap();
    let calls: Vec<String> = from.iter().map(|e| e.call.clone()).collect();
    assert_eq!(calls, vec!["C", "B"]);
    let upto = store.export_range(None, Some("2024-01-02 00:00:00")).unwrap();
    let calls: Vec<String> = upto.iter().map(|e| e.call.clone()).collect();
    assert_eq!(calls, vec!["B", "A"]);
    let both = store
        .export_range(Some("2024-01-02 00:00:00"), Some("2024-01-02 00:00:00"))
        .unwrap();
    assert_eq!(both.len(), 1);
    assert_eq!(both[0].call, "B");
}

#[test]
fn narrowing_a_bound_never_adds_entries() {
    let mut store = Store::new();
    let pid = home_profile(&mut store);
    for (day, call) in [("01", "A"), ("02", "B"), ("03", "C"), ("04", "D")] {
        let text = format!("2024-01-{} 00:00:00", day);
        append_contact(&mut store, &text, call, "CW", pid);
    }
    let wide = store.export_range(Some("2024-01-01 00:00:00"), None).unwrap();
    let narrow = store
        .export_range(Some("2024-01-02 00:00:00"), Some("2024-01-03 00:00:00"))
        .unwrap();
    assert!(narrow.len() <= wide.len());
    let wide_calls: Vec<String> = wide.iter().map(|e| e.call.clone()).collect();
    for e in &narrow {
        assert!(wide_calls.contains(&e.call));
    }
}

#[test]
fn malformed_bound_fails_the_export() {
    let mut store = Store::new();
    let pid = home_profile(&mut store);
    append_contact(&mut store, "2024-01-01 00:00:00", "A", "CW", pid);
    match store.export_range(Some("not-a-date"), None) {
        Err(e) => assert_eq!(e, LogbookError::InvalidTimestamp),
        Ok(_) => panic!("malformed start bound was accepted"),
    }
    match store.export_range(None, Some("2024-1-1 00:00:00")) {
        Err(e) => assert_eq!(e, LogbookError::InvalidTimestamp),
        Ok(_) => panic!("malformed end bound was accepted"),
    }
    assert_eq!(
        store.export_text(Some("not-a-date"), None),
        Err(LogbookError::InvalidTimestamp)
    );
    // the store itself is untouched
    assert_eq!(store.list_logs().len(), 1);
}

#[test]
fn deleted_profile_rows_leave_the_export_only() {
    let mut store = Store::new();
    let keep = home_profile(&mut store);
    let gone = store.create_profile().unwrap();
    append_contact(&mut store, "2024-01-01 00:00:00", "KEPT", "CW", keep);
    append_contact(&mut store, "2024-01-02 00:00:00", "ORPHAN", "CW", gone);
    store.delete_profile(gone);
    assert_eq!(store.list_logs().len(), 2);
    let exported = store.export_range(None, None).unwrap();
    assert_eq!(exported.len(), 1);
    assert_eq!(exported[0].call, "KEPT");
}

#[test]
fn export_text_example_scenario() {
    let mut store = Store::new();
    let pid = home_profile(&mut store);
    assert_eq!(pid, 1);
    let t = parse_timestamp("2024-01-01 12:00:00").unwrap();
    store
        .append(t, s("K1ABC"), s("59"), s("59"), s("20M"), s("14.0"), s("USB"), s(""), s(""), pid)
        .unwrap();
    let text = store.export_text(None, None).unwrap();
    assert!(text.contains("<CALL:5>K1ABC"));
    assert!(text.contains("<QSO_DATE:8>20240101"));
    assert!(text.contains("<TIME_ON:6>120000"));
    assert!(text.contains("<MODE:3>SSB"));
    assert!(text.contains("<SUBMODE:3>USB"));
    assert!(text.contains("<MY_GRIDSQUARE:4>FN31"));
    assert!(text.contains("<STATION_CALLSIGN:4>W1AW"));
    assert!(text.contains("<PROGRAMVERSION:5>1.0.0"));
    assert!(text.contains("<PROGRAMID:6>TUILOG"));
    assert!(text.contains("<EOH>"));
    assert!(text.contains("<eor>"));
}

#[test]
fn export_text_orders_records_newest_first() {
    let mut store = Store::new();
    let pid = home_profile(&mut store);
    append_contact(&mut store, "2024-01-01 00:00:00", "OLD1X", "CW", pid);
    append_contact(&mut store, "2024-01-02 00:00:00", "NEW2X", "CW", pid);
    let text = store.export_text(None, None).unwrap();
    let newer = text.find("NEW2X").unwrap();
    let older = text.find("OLD1X").unwrap();
    assert!(newer < older);
}

#[test]
fn empty_store_exports_header_only() {
    let store = Store::new();
    let text = store.export_text(None, None).unwrap();
    assert!(text.contains("<PROGRAMID:6>TUILOG"));
    assert!(text.contains("<EOH>"));
    assert!(!text.contains("<eor>"));
}

#[test]
fn exhausted_id_counter_is_reported() {
    let profile = OperatorConfig {
        id: u64::MAX - 1,
        name: s("last"),
        call: s(""),
        grid: s(""),
        cqz: s(""),
        ituz: s(""),
        dxcc: s(""),
        cont: s(""),
    };
    let mut store = Store::restore(vec![profile], Vec::new()).unwrap();
    assert_eq!(store.create_profile(), Err(LogbookError::StoreFull));
}

#[test]
fn non_ascii_text_is_reported() {
    let mut store = Store::new();
    let pid = home_profile(&mut store);
    let t = parse_timestamp("2024-01-01 12:00:00").unwrap();
    store
        .append(
            t,
            s("K1ABC"),
            s("59"),
            s("59"),
            s("20M"),
            s("14.0"),
            s("CW"),
            s(""),
            s("danke schön"),
            pid,
        )
        .unwrap();
    assert_eq!(store.export_text(None, None), Err(LogbookError::NotSerializable));
}

#[test]
fn unserializable_text_is_reported() {
    let mut store = Store::new();
    let pid = home_profile(&mut store);
    let t = parse_timestamp("2024-01-01 12:00:00").unwrap();
    store
        .append(
            t,
            s("K1ABC"),
            s("59"),
            s("59"),
            s("20M"),
            s("14.0"),
            s("CW"),
            s(""),
            s("line one\nline two"),
            pid,
        )
        .unwrap();
    assert_eq!(store.export_text(None, None), Err(LogbookError::NotSerializable));
}
