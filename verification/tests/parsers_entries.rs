use pgweasel::aggregators::{SlowQueryAggregator, ZeroAgregator};
use pgweasel::errors::get_csv_log_entries;
use pgweasel::parsers::{CsvLogParser, LogLogParser};
use pgweasel::timeparse::parse_timestamp_from_string;

fn lines(raw: &[&str]) -> Vec<Vec<u8>> {
    raw.iter().map(|s| s.as_bytes().to_vec()).collect()
}

fn contains(hay: &[u8], needle: &[u8]) -> bool {
    hay.windows(needle.len()).any(|w| w == needle)
}

#[test]
fn log_parser_filters_by_severity_and_window() {
    let input = lines(&[
        "2025-05-21 11:00:40.000 UTC [1] LOG:  checkpoint starting",
        "2025-05-21 11:00:41.000 UTC [1] ERROR:  relation \"foo\" does not exist",
        "DETAIL:  it never did",
        "2025-05-21 11:00:42.000 UTC [1] WARNING:  could not open statistics file",
    ]);
    let mut parser = LogLogParser::new();
    let out = parser.parse_lines(&input, 8, &None, &None, &None).unwrap();
    assert_eq!(out.len(), 1);
    assert!(contains(&out[0].raw, b"relation \"foo\" does not exist"));
    assert!(contains(&out[0].raw, b"DETAIL:  it never did"));

    let begin = parse_timestamp_from_string("2025-05-21 11:00:42.000 UTC").unwrap();
    let mut parser = LogLogParser::new();
    let out = parser.parse_lines(&input, 0, &None, &Some(begin), &None).unwrap();
    assert_eq!(out.len(), 1);
    assert!(contains(&out[0].raw, b"statistics file"));
}

#[test]
fn log_parser_applies_mask() {
    let input = lines(&[
        "2025-05-21 11:00:40.000 UTC [1] LOG:  one",
        "2025-05-22 11:00:40.000 UTC [1] LOG:  two",
    ]);
    let mut parser = LogLogParser::new();
    let mask = Some(b"2025-05-22".to_vec());
    let out = parser.parse_lines(&input, 0, &mask, &None, &None).unwrap();
    assert_eq!(out.len(), 1);
    assert!(contains(&out[0].raw, b"two"));
}

#[test]
fn csv_parser_reads_severity_and_message_columns() {
    let input = lines(&[
        "2025-05-08 12:24:30.000 EEST,\"postgres\",\"postgres\",1,\"c\",s,1,\"idle\",2025-05-08 12:24:00 EEST,3/44,0,LOG,00000,\"statement: select 1\",,,,,,,,,\"psql\"",
        "2025-05-08 12:24:37.731 EEST,\"postgres\",\"postgres\",1,\"c\",s,2,\"SELECT\",2025-05-08 12:24:00 EEST,3/44,0,ERROR,42P01,\"relation \"\"foo\"\" does not exist\",,,,,,,,,\"psql\"",
    ]);
    let mut parser = CsvLogParser::new();
    let out = parser.parse_lines(&input, 8, &None, &None, &None).unwrap();
    assert_eq!(out.len(), 1);
    assert_eq!(out[0].message, b"relation \"foo\" does not exist".to_vec());
}

#[test]
fn csv_entries_carry_their_columns() {
    let recs = lines(&[
        // 24 columns: the v14 layout
        "2025-05-08 12:24:37.731 EEST,user1,db1,1,conn,sess,2,tag,start,vx,0,ERROR,42P01,boom,,,,,,,,,appname,backend",
        // unsupported column count: skipped
        "2025-01-01,x,y",
    ]);
    let entries = get_csv_log_entries(recs);
    assert_eq!(entries.len(), 1);
    assert_eq!(entries[0].log_time, b"2025-05-08 12:24:37.731 EEST".to_vec());
    assert_eq!(entries[0].error_severity, b"ERROR".to_vec());
    assert_eq!(entries[0].message, b"boom".to_vec());
    let cols = entries[0].csv_columns.as_ref().unwrap();
    assert_eq!(cols.csv_column_count, 24);
    assert_eq!(cols.user_name, b"user1".to_vec());
    assert_eq!(cols.application_name, b"appname".to_vec());
}

#[test]
fn slow_query_collector_keeps_lines_above_threshold() {
    let input = lines(&[
        "2025-05-21 11:00:40.000 UTC [1] LOG:  duration: 121.997 ms more text",
        "2025-05-21 11:00:41.000 UTC [1] LOG:  duration: 3.032 ms quick",
    ]);
    let mut parser = LogLogParser::new();
    let parsed = parser.parse_lines(&input, 0, &None, &None, &None).unwrap();
    let mut agg = SlowQueryAggregator::new(50_000_000);
    for line in &parsed {
        agg.add(line);
    }
    assert_eq!(agg.slow_queries.len(), 1);
    assert_eq!(agg.slow_queries[0].1, 122_000_000);
    let rendered = agg.render();
    assert!(contains(&rendered, b"122ms | "));
}

#[test]
fn zero_sink_echoes_raw_lines() {
    let input = lines(&["2025-05-21 11:00:40.000 UTC [1] LOG:  pass me through"]);
    let mut parser = LogLogParser::new();
    let parsed = parser.parse_lines(&input, 0, &None, &None, &None).unwrap();
    let sink = ZeroAgregator;
    let echoed = sink.add(&parsed[0]);
    assert_eq!(echoed, parsed[0].raw);
    assert_eq!(sink.render().len(), 0);
}
