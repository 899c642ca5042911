use timeline::{
    decimal_text, format_percent, key_lt, logon_table_rows, sorted_event_counts,
    sorted_logon_counts, strip_user_key, EventCatalog, EventMetrics, ReportError, ReportFlags,
    Timeline,
};

fn metrics_with_events(total: usize, events: &[(&str, usize)]) -> EventMetrics {
    let mut m = EventMetrics::new(
        total,
        "Security.evtx".to_string(),
        "2021-01-01 00:00:00".to_string(),
        "2021-01-02 00:00:00".to_string(),
    );
    for (id, n) in events {
        for _ in 0..*n {
            m.add_event(id.to_string());
        }
    }
    m
}

fn add_logons(m: &mut EventMetrics, user: &str, successful: usize, failed: usize) {
    for _ in 0..successful {
        m.add_logon(user.to_string(), true);
    }
    for _ in 0..failed {
        m.add_logon(user.to_string(), false);
    }
}

fn logon_catalog() -> EventCatalog {
    let mut c = EventCatalog::new();
    c.add_title("4624".to_string(), "Logon".to_string());
    c
}

fn both_reports() -> ReportFlags {
    ReportFlags { metrics: true, logon_summary: true }
}

#[test]
fn decimal_text_writes_digits() {
    assert_eq!(decimal_text(0), "0");
    assert_eq!(decimal_text(7), "7");
    assert_eq!(decimal_text(10), "10");
    assert_eq!(decimal_text(1234567890), "1234567890");
    assert_eq!(decimal_text(u64::MAX as u128), u64::MAX.to_string());
}

#[test]
fn percent_has_one_decimal() {
    assert_eq!(format_percent(75, 100), "75.0%");
    assert_eq!(format_percent(25, 100), "25.0%");
    assert_eq!(format_percent(1, 3), "33.3%");
    assert_eq!(format_percent(2, 3), "66.7%");
    assert_eq!(format_percent(100, 100), "100.0%");
    assert_eq!(format_percent(0, 7), "0.0%");
}

#[test]
fn percent_rounds_half_up() {
    // 1/8 is exactly 12.5%; 1/16 is exactly 6.25%, rounded up to 6.3%.
    assert_eq!(format_percent(1, 8), "12.5%");
    assert_eq!(format_percent(1, 16), "6.3%");
    assert_eq!(format_percent(1, 2000), "0.1%");
    assert_eq!(format_percent(1, 2001), "0.0%");
}

#[test]
fn percent_of_zero_total_is_zero() {
    assert_eq!(format_percent(0, 0), "0.0%");
    assert_eq!(format_percent(5, 0), "0.0%");
}

#[test]
fn percent_of_largest_counts() {
    assert_eq!(format_percent(usize::MAX, usize::MAX), "100.0%");
    assert_eq!(format_percent(usize::MAX, 1), format!("{}.0%", (usize::MAX as u128) * 100));
}

#[test]
fn key_order_is_by_code_point() {
    assert!(key_lt(&"a".to_string(), &"b".to_string()));
    assert!(key_lt(&"ab".to_string(), &"b".to_string()));
    assert!(key_lt(&"".to_string(), &"a".to_string()));
    assert!(key_lt(&"Z".to_string(), &"a".to_string()));
    assert!(!key_lt(&"a".to_string(), &"a".to_string()));
    assert!(!key_lt(&"b".to_string(), &"ab".to_string()));
    assert!(key_lt(&"\"alice\"".to_string(), &"\"bob\"".to_string()));
}

#[test]
fn strip_removes_first_and_last_characters() {
    assert_eq!(strip_user_key(&"\"alice\"".to_string()), Some("alice".to_string()));
    assert_eq!(strip_user_key(&"ab".to_string()), Some(String::new()));
    assert_eq!(strip_user_key(&"«é»".to_string()), Some("é".to_string()));
}

#[test]
fn strip_refuses_short_keys() {
    assert_eq!(strip_user_key(&"a".to_string()), None);
    assert_eq!(strip_user_key(&String::new()), None);
}

#[test]
fn catalog_lookup() {
    let c = logon_catalog();
    assert_eq!(c.get_event_id(&"4624".to_string()), Some("Logon".to_string()));
    assert_eq!(c.get_event_id(&"4625".to_string()), None);
}

#[test]
fn new_timeline_is_empty() {
    let t = Timeline::new();
    assert_eq!(t.stats.total, 0);
    assert_eq!(t.stats.filepath, "");
    assert!(sorted_event_counts(&t.stats.stats_list).is_empty());
    assert!(sorted_logon_counts(&t.stats.stats_login_list).is_empty());
    let d = Timeline::default();
    assert_eq!(d.stats.total, 0);
}

#[test]
fn start_takes_the_counters() {
    let mut t = Timeline::new();
    t.start(metrics_with_events(3, &[("1", 3)]));
    assert_eq!(t.stats.total, 3);
    assert_eq!(sorted_event_counts(&t.stats.stats_list), vec![("1".to_string(), 3)]);
}

#[test]
fn events_sorted_by_count_then_id() {
    let m = metrics_with_events(20, &[("b", 2), ("a", 2), ("c", 5), ("d", 1), ("e", 2)]);
    let sorted = sorted_event_counts(&m.stats_list);
    let expected: Vec<(String, usize)> = vec![
        ("c".to_string(), 5),
        ("a".to_string(), 2),
        ("b".to_string(), 2),
        ("e".to_string(), 2),
        ("d".to_string(), 1),
    ];
    assert_eq!(sorted, expected);
}

#[test]
fn event_order_ignores_insertion_order() {
    let a = metrics_with_events(9, &[("x", 1), ("y", 3), ("z", 3), ("w", 2)]);
    let b = metrics_with_events(9, &[("w", 2), ("z", 3), ("x", 1), ("y", 3)]);
    let sa = sorted_event_counts(&a.stats_list);
    assert_eq!(sa, sorted_event_counts(&b.stats_list));
    assert_eq!(sa.len(), 4);
}

#[test]
fn repeated_events_are_counted() {
    let mut m = metrics_with_events(0, &[]);
    m.add_event("7".to_string());
    m.add_event("7".to_string());
    m.add_event("8".to_string());
    assert_eq!(
        sorted_event_counts(&m.stats_list),
        vec![("7".to_string(), 2), ("8".to_string(), 1)]
    );
}

#[test]
fn frequency_rows_scenario() {
    let mut t = Timeline::new();
    t.start(metrics_with_events(100, &[("4625", 25), ("4624", 75)]));
    let sorted = sorted_event_counts(&t.stats.stats_list);
    let rows = t.tm_stats_set_msg(&sorted, &logon_catalog());
    assert_eq!(
        rows,
        vec![
            vec!["75".to_string(), "75.0%".to_string(), "4624".to_string(), "Logon".to_string()],
            vec!["25".to_string(), "25.0%".to_string(), "4625".to_string(), "Unknown".to_string()],
        ]
    );
}

#[test]
fn frequency_rows_with_zero_total() {
    let mut t = Timeline::new();
    t.start(metrics_with_events(0, &[("1", 2)]));
    let sorted = sorted_event_counts(&t.stats.stats_list);
    let rows = t.tm_stats_set_msg(&sorted, &EventCatalog::new());
    assert_eq!(rows[0][1], "0.0%");
}

#[test]
fn frequency_report_lines() {
    let mut t = Timeline::new();
    t.start(metrics_with_events(100, &[("4625", 25), ("4624", 75)]));
    let lines = t.tm_stats_dsp_msg(&both_reports(), &logon_catalog());
    assert_eq!(lines.len(), 6);
    assert_eq!(lines[0], "---------------------------------------");
    assert_eq!(lines[1], "Evtx File Path: Security.evtx");
    assert_eq!(lines[2], "Total Event Records: 100\n");
    assert_eq!(lines[3], "First Timestamp: 2021-01-01 00:00:00");
    assert_eq!(lines[4], "Last Timestamp: 2021-01-02 00:00:00\n");
    let table = &lines[5];
    assert!(table.starts_with('╭'));
    assert!(table.contains("Percent"));
    let logon_at = table.find("Logon").unwrap();
    let unknown_at = table.find("Unknown").unwrap();
    assert!(logon_at < unknown_at);
    assert!(table.contains("75.0%"));
    assert!(table.contains("25.0%"));
}

#[test]
fn frequency_report_off() {
    let mut t = Timeline::new();
    t.start(metrics_with_events(1, &[("1", 1)]));
    let flags = ReportFlags { metrics: false, logon_summary: true };
    assert!(t.tm_stats_dsp_msg(&flags, &EventCatalog::new()).is_empty());
}

#[test]
fn logon_row_scenario() {
    let mut m = metrics_with_events(4, &[]);
    add_logons(&mut m, "\"alice\"", 3, 1);
    let sorted = sorted_logon_counts(&m.stats_login_list);
    let rows = logon_table_rows(&sorted).ok().unwrap();
    assert_eq!(rows, vec![vec!["alice".to_string(), "1".to_string(), "3".to_string()]]);
}

#[test]
fn logon_rows_sorted_by_raw_key() {
    let mut m = metrics_with_events(0, &[]);
    add_logons(&mut m, "\"carol\"", 1, 0);
    add_logons(&mut m, "'bob'", 0, 2);
    add_logons(&mut m, "\"alice\"", 2, 2);
    let sorted = sorted_logon_counts(&m.stats_login_list);
    let keys: Vec<&str> = sorted.iter().map(|e| e.0.as_str()).collect();
    // '"' sorts before '\'', so the quoting character decides first.
    assert_eq!(keys, vec!["\"alice\"", "\"carol\"", "'bob'"]);
    let rows = logon_table_rows(&sorted).ok().unwrap();
    assert_eq!(rows[2], vec!["bob".to_string(), "2".to_string(), "0".to_string()]);
}

#[test]
fn logon_report_without_logons() {
    let mut t = Timeline::new();
    t.start(metrics_with_events(10, &[("4624", 10)]));
    let lines = match t.tm_logon_stats_dsp_msg(&both_reports()) {
        Ok(lines) => lines,
        Err(_) => panic!("no user key to refuse"),
    };
    assert_eq!(lines.len(), 10);
    assert_eq!(lines[5], "---------------------------------------");
    assert_eq!(lines[6], "Logon Summary");
    assert_eq!(lines[7], "-----------------------------------------");
    assert_eq!(lines[8], "|     No logon events were detected.    |");
    assert_eq!(lines[9], "-----------------------------------------\n");
    let stats = t.tm_stats_dsp_msg(&both_reports(), &logon_catalog());
    assert_eq!(stats.len(), 6);
    assert!(stats[5].contains("100.0%"));
}

#[test]
fn logon_report_with_table() {
    let mut m = metrics_with_events(4, &[]);
    add_logons(&mut m, "\"alice\"", 3, 1);
    let mut t = Timeline::new();
    t.start(m);
    let lines = match t.tm_logon_stats_dsp_msg(&both_reports()) {
        Ok(lines) => lines,
        Err(_) => panic!("no user key to refuse"),
    };
    assert_eq!(lines.len(), 9);
    assert_eq!(lines[6], "Logon Summary");
    assert!(lines[7].starts_with('╭'));
    assert!(lines[7].contains("Successful"));
    assert!(lines[7].contains("alice"));
    assert!(!lines[7].contains("\"alice\""));
    assert_eq!(lines[8], "");
}

#[test]
fn logon_report_off() {
    let mut m = metrics_with_events(4, &[]);
    add_logons(&mut m, "x", 1, 0);
    let mut t = Timeline::new();
    t.start(m);
    let flags = ReportFlags { metrics: true, logon_summary: false };
    match t.tm_logon_stats_dsp_msg(&flags) {
        Ok(lines) => assert!(lines.is_empty()),
        Err(_) => panic!("a report that is off refuses nothing"),
    }
}

#[test]
fn logon_report_refuses_short_key() {
    let mut m = metrics_with_events(4, &[]);
    add_logons(&mut m, "\"alice\"", 1, 0);
    add_logons(&mut m, "x", 1, 0);
    let mut t = Timeline::new();
    t.start(m);
    match t.tm_logon_stats_dsp_msg(&both_reports()) {
        Err(ReportError::MalformedUserKey(k)) => assert_eq!(k, "x"),
        Ok(_) => panic!("the key \"x\" cannot be unquoted"),
    }
}

#[test]
fn first_short_key_in_order_is_named() {
    let mut m = metrics_with_events(2, &[]);
    add_logons(&mut m, "b", 1, 0);
    add_logons(&mut m, "\"zed\"", 0, 1);
    add_logons(&mut m, "a", 1, 0);
    let sorted = sorted_logon_counts(&m.stats_login_list);
    match logon_table_rows(&sorted) {
        Err(ReportError::MalformedUserKey(k)) => assert_eq!(k, "a"),
        Ok(_) => panic!("the keys \"a\" and \"b\" cannot be unquoted"),
    }
}

#[test]
fn logon_report_names_first_short_key() {
    let mut m = metrics_with_events(2, &[]);
    add_logons(&mut m, "q", 1, 0);
    add_logons(&mut m, "p", 0, 1);
    let mut t = Timeline::new();
    t.start(m);
    match t.tm_logon_stats_dsp_msg(&both_reports()) {
        Err(ReportError::MalformedUserKey(k)) => assert_eq!(k, "p"),
        Ok(_) => panic!("the keys \"p\" and \"q\" cannot be unquoted"),
    }
}
