use pgweasel::aggregators::slow_query;
use pgweasel::duration::{extract_duration, format_duration, parse_duration};
use pgweasel::filters::locking_filter::matches_process_acquired;
use pgweasel::filters::{Filter, FilterContainsCi, SystemFilter};
use pgweasel::format::{csv, plain};
use pgweasel::logparser::get_log_records_from_line_stream;
use pgweasel::records::{is_pg_timestamp_start, is_record_start};
use pgweasel::severity::{log_entry_severity_to_num, validate_severity};
use pgweasel::timeparse::{parse_timestamp_from_string, round_floor, LogInstant};
use pgweasel::util::time_or_interval_string_to_time;
use pgweasel::countmap::CountMap;
use pgweasel::filters::{FilterContains, FilterStartsWith, Predicate};
use pgweasel::Format;
use pgweasel::Severity;

fn lines(raw: &[&str]) -> Vec<Vec<u8>> {
    raw.iter().map(|s| s.as_bytes().to_vec()).collect()
}

fn contains(hay: &[u8], needle: &[u8]) -> bool {
    hay.windows(needle.len()).any(|w| w == needle)
}

#[test]
fn from_log_string() {
    // no severity keyword with its trailing colon occurs, so the scan
    // reports the LOG level
    let sev1 = Severity::from_log_string("string :ERROR string");
    assert_eq!(Severity::Log, sev1);

    let sev2 = Severity::from_log_string(
        "2025-05-21 10:57:10.100 UTC [596]: [1-1] db=postgres,user=postgres,host=91.129.106.131 ERROR:  syntax error at or near \"sdaasdasda\" at character 12025-05-21 10:57:10.100 UTC [596]: [2-1] db=postgres,user=postgres,host=91.129.106.131 STATEMENT:  sdaasdasda",
    );
    assert_eq!(Severity::Error, sev2);
}

#[test]
fn test_matches_process_acquired() {
    assert!(matches_process_acquired(b"process 123 acquired"));
    assert!(matches_process_acquired(b"foo process 9 acquired bar"));
    assert!(matches_process_acquired(b"xprocess 1 acquired"));
    assert!(!matches_process_acquired(b"process acquired"));
    assert!(!matches_process_acquired(b"process  acquired"));
}

#[test]
fn test_message() {
    let line = b"2025-01-01,1,db,user,ERROR,bad thing happened";
    assert_eq!(csv::message(line), Some(b"bad thing happened".to_vec()));
}

#[test]
fn plain_plain_message() {
    let line = b"2025-01-01 UTC [1] ERROR: bad thing happened\nError details...";
    assert_eq!(Some(b"bad thing happened".to_vec()), plain::message(line));

    let line = b"2025-08-27 17:35:28.619 EEST [275518] sitt@postgres FATAL:  password authentication failed for user \"sitt\"";
    assert_eq!(
        Some(b"password authentication failed for user \"sitt\"".to_vec()),
        plain::message(line)
    );
}

#[test]
fn test_get_log_records_from_line_stream_single_line_entries() {
    let input = lines(&[
        "2024-01-15 10:30:45 UTC LOG:  database system is ready to accept connections",
        "2024-01-15 10:30:46 UTC ERROR:  relation \"users\" does not exist",
        "2024-01-15 10:30:47 UTC WARNING:  could not open statistics file",
    ]);
    let log_entries = get_log_records_from_line_stream(input);

    assert_eq!(log_entries.len(), 3);
    assert_eq!(log_entries[0].error_severity, b"LOG".to_vec());
    assert_eq!(
        log_entries[0].message,
        b"database system is ready to accept connections".to_vec()
    );
    assert_eq!(log_entries[0].lines.len(), 1);

    assert_eq!(log_entries[1].error_severity, b"ERROR".to_vec());
    assert_eq!(log_entries[1].message, b"relation \"users\" does not exist".to_vec());

    assert_eq!(log_entries[2].error_severity, b"WARNING".to_vec());
    assert_eq!(log_entries[2].message, b"could not open statistics file".to_vec());
}

#[test]
fn test_get_log_records_from_line_stream_multi_line_entries() {
    let input = lines(&[
        "2024-01-15 10:30:45 UTC ERROR:  syntax error at or near \"SELCT\"",
        "DETAIL:  Invalid SQL syntax",
        "HINT:  Did you mean SELECT?",
        "2024-01-15 10:30:46 UTC LOG:  checkpoint complete",
        "2024-01-15 10:30:47 UTC FATAL:  connection terminated",
        "CONTEXT:  while processing query",
    ]);
    let log_entries = get_log_records_from_line_stream(input);

    assert_eq!(log_entries.len(), 3);

    assert_eq!(log_entries[0].error_severity, b"ERROR".to_vec());
    assert_eq!(log_entries[0].message, b"syntax error at or near \"SELCT\"".to_vec());
    assert_eq!(log_entries[0].lines.len(), 3);
    assert!(contains(&log_entries[0].lines[1], b"DETAIL:"));
    assert!(contains(&log_entries[0].lines[2], b"HINT:"));

    assert_eq!(log_entries[1].error_severity, b"LOG".to_vec());
    assert_eq!(log_entries[1].lines.len(), 1);

    assert_eq!(log_entries[2].error_severity, b"FATAL".to_vec());
    assert_eq!(log_entries[2].lines.len(), 2);
    assert!(contains(&log_entries[2].lines[1], b"CONTEXT:"));
}

#[test]
fn test_get_log_records_from_line_stream_empty_input() {
    let input: Vec<Vec<u8>> = Vec::new();
    let log_entries = get_log_records_from_line_stream(input);
    assert_eq!(log_entries.len(), 0);
}

#[test]
fn test_get_log_records_from_line_stream_with_orphaned_lines() {
    let input = lines(&[
        "DETAIL:  Orphaned line",
        "2024-01-15 10:30:45 UTC LOG:  valid log entry",
        "CONTEXT:  continuation of valid entry",
    ]);
    let log_entries = get_log_records_from_line_stream(input);

    assert_eq!(log_entries.len(), 1);
    assert_eq!(log_entries[0].error_severity, b"LOG".to_vec());
    assert_eq!(log_entries[0].lines.len(), 2);
}

#[test]
fn test_timestamp_finder() {
    let good = "2025-08-27 01:24:43.415 EEST [3863330] LOG: something";
    let bad = "ERROR: something";
    let almost = "2025/08/27 01:24:43 LOG";

    assert!(is_pg_timestamp_start(good));
    assert!(!is_pg_timestamp_start(bad));
    assert!(!is_pg_timestamp_start(almost));
}

#[test]
fn simpleduration_extract_from_csv() {
    let log = b"Big text and duration: 121.997 ms more text";
    assert_eq!(extract_duration(log), Some(121_997_000));
}

#[test]
fn simple_duration_extract_from_log() {
    let log = b"2025-05-21 11:00:40.296 UTC [675]: [3-1] db=postgres,user=cloudsqladmin,host=127.0.0.1 LOG:  duration: 3.032 ms  statement: SELECT extname, current_timestamp FROM pg_catalog.pg_extension UNION SELECT plugin, current_timestamp FROM pg_catalog.pg_replication_slots WHERE slot_type = 'logical' AND database = current_database();";
    assert_eq!(extract_duration(log), Some(3_032_000));
}

#[test]
fn test_parse_duration() {
    let cases: Vec<(&str, u64)> = vec![
        ("10ms", 10_000_000),
        ("5s", 5_000_000_000),
        ("2 m", 120_000_000_000),
        ("100us", 100_000),
        ("200ns", 200),
        ("15min", 900_000_000_000),
        ("20minutes", 1_200_000_000_000),
    ];
    for (input, expected) in cases {
        let result = parse_duration(input).unwrap();
        assert_eq!(result, expected, "Failed on input: {}", input);
    }

    let invalid_cases = vec!["10xyz", "abc", ""];
    for input in invalid_cases {
        let result = parse_duration(input);
        assert!(result.is_err(), "Expected error for input: {}", input);
    }
}

#[test]
fn log_extract_test() {
    let log = b"Big text and duration: 121.997 ms more text";
    assert_eq!(slow_query::extract_duration(log), Some(122_000_000));
}

#[test]
fn test_system_filter() {
    let filter = SystemFilter::new();
    let cases: Vec<(&[u8], bool)> = vec![
        (b"autovacuum process started", true),
        (b"Background writer is active", true),
        (b"WAL segment created", true),
        (b"Database system is starting up", true),
        (b"Reloading configuration file", true),
        (b"Creating extension pg_stat_statements", true),
        (b"listening on IPv4 address \"127.0.0.1\", port 54316", true),
        (b"This is a normal log message", false),
        (b"User logged in successfully", false),
    ];
    for (input, expected) in cases {
        let result = filter.matches(input, &Format::Plain);
        assert_eq!(result, expected, "Failed on input: {:?}", String::from_utf8_lossy(input));
    }
}

#[test]
fn format_plain_message() {
    let line = b"2025-01-01 UTC [1] ERROR: bad thing happened\nError details...";
    let fmt = Format::Plain;
    assert_eq!(fmt.message_from_bytes(line), Some(b"bad thing happened".to_vec()));
}

#[test]
fn csv_message() {
    // the CSV accessor reads the fourteenth column under RFC-4180 quoting
    let line = b"2025-05-08 12:24:37.731 EEST,\"postgres\",\"postgres\",12345,\"127.0.0.1:50098\",681c6f85.3039,1,\"SELECT\",2025-05-08 12:24:00 EEST,3/44,0,ERROR,42P01,\"relation \"\"foo\"\" does not exist\",,,,,,\"select * from foo\",8,,\"psql\"";
    let fmt = Format::Csv;
    assert_eq!(
        fmt.message_from_bytes(line),
        Some(b"relation \"foo\" does not exist".to_vec())
    );
}

#[test]
fn test_user_extract_after_csv() {
    let record = b"2025-12-01 08:50:20.071 EET,\"binsy\",\"binsy\",1653291,\"10.203.8.108:50372\",692d3aac.193a2b,3,\"authentication\",2025-12-01 08:50:20 EET,104/121,0,LOG,00000,\"connection authorized: user=binsy database=binsy\",,,,,,,,,\"\",\"client backend\",,0";
    let extracted = pgweasel::format::extract_after_needle(record, b"user=").unwrap();
    assert_eq!(extracted, b"binsy".to_vec());
}

#[test]
fn test_user_extract_after_log() {
    let record = b"2021-02-14 01:34:02 CET [30291]: db=template1,user=postgres,app=[unknown],client=[local] LOG:  connection authorized: user=postgres database=template1 application_name=psql";
    let extracted = pgweasel::format::extract_after_needle(record, b"user=").unwrap();
    assert_eq!(extracted, b"postgres".to_vec());
}

#[test]
fn test_record_start() {
    let line = b"2025-05-21 11:01:20 UTC-682db26c.535-LOG:  disconnection: session time: 0:00:20.034 user=azuresu database=azure_maintenance host=127.0.0.1 port=55304";
    assert!(is_record_start(line));
}

#[test]
fn severity_helpers() {
    assert!(validate_severity("error").is_ok());
    assert!(validate_severity("WARNING").is_ok());
    assert!(validate_severity("nonsense").is_err());
    assert_eq!(log_entry_severity_to_num("LOG"), 5);
    assert_eq!(log_entry_severity_to_num("info"), 5);
    assert_eq!(log_entry_severity_to_num("PANIC"), 10);
    assert_eq!(log_entry_severity_to_num("whatever"), 5);
}

#[test]
fn severity_agrees_across_formats() {
    // the same logical event in both on-disk formats carries one severity
    let plain_rec = b"2025-05-08 12:24:37.731 EEST [123] ERROR:  relation \"foo\" does not exist";
    let csv_rec = b"2025-05-08 12:24:37.731 EEST,\"postgres\",\"postgres\",12345,\"127.0.0.1:1\",681c.1,1,\"SELECT\",2025-05-08 12:24:00 EEST,3/44,0,ERROR,42P01,\"relation \"\"foo\"\" does not exist\",,,,,,,,,\"psql\"";
    let sp = Format::Plain.severity_from_bytes(plain_rec);
    let sc = Format::Csv.severity_from_bytes(csv_rec);
    assert_eq!(sp, sc);
    assert_eq!(sp.rank(), sc.rank());
}

#[test]
fn bucket_floor_idempotent_samples() {
    let samples: Vec<(i128, i128)> = vec![
        (0, 600_000_000_000),
        (1_234_567_890_123, 600_000_000_000),
        (999, 1),
        (86_400_000_000_001, 3_600_000_000_000),
    ];
    for (t, i) in samples {
        let once = round_floor(t, i);
        let twice = round_floor(once, i);
        assert_eq!(once, twice);
        assert!(once <= t);
        assert_eq!(once % i, 0);
    }
}

#[test]
fn duration_round_trip_canonical() {
    let values: Vec<u64> = vec![
        200,
        100_000,
        10_000_000,
        25_000_000,
        5_000_000_000,
        120_000_000_000,
    ];
    for v in values {
        let text = format_duration(v);
        let back = parse_duration(std::str::from_utf8(&text).unwrap()).unwrap();
        assert_eq!(back, v, "round trip failed for {} ({:?})", v, String::from_utf8_lossy(&text));
    }
    // a fractional spelling below the display unit does not survive the
    // rounding argument parser
    assert_eq!(format_duration(25_761_000), b"25.761ms".to_vec());
}

#[test]
fn filter_chain_reorder_same_accepts() {
    let recs: Vec<&[u8]> = vec![
        b"2025-05-08 12:24:37.731 EEST [1] LOG:  connection received: host=1.2.3.4",
        b"2025-05-08 12:24:38.000 EEST [1] ERROR:  relation \"foo\" does not exist",
        b"2025-05-08 12:24:39.000 EEST [1] LOG:  checkpoint complete",
    ];
    for rec in recs {
        let a = vec![
            Predicate::Contains(FilterContains::new("EEST".to_string())),
            Predicate::StartsWith(FilterStartsWith::new("2025-05-08".to_string())),
        ];
        let b = vec![
            Predicate::StartsWith(FilterStartsWith::new("2025-05-08".to_string())),
            Predicate::Contains(FilterContains::new("EEST".to_string())),
        ];
        assert_eq!(
            pgweasel::filters::chain_matches(&a, rec, &Format::Plain),
            pgweasel::filters::chain_matches(&b, rec, &Format::Plain)
        );
    }
}

#[test]
fn count_map_sorted_desc_with_key_ties() {
    let mut m = CountMap::new();
    m.bump(b"delta", 2);
    m.bump(b"alpha", 1);
    m.bump(b"bravo", 1);
    m.bump(b"alpha", 1);
    assert_eq!(m.get_count(b"alpha"), 2);
    assert_eq!(m.get_count(b"missing"), 0);
    let sorted = m.sorted_entries();
    // counts: alpha 2, delta 2, bravo 1; descending with ascending-key ties
    assert_eq!(sorted[0].0, b"alpha".to_vec());
    assert_eq!(sorted[0].1, 2);
    assert_eq!(sorted[1].0, b"delta".to_vec());
    assert_eq!(sorted[1].1, 2);
    assert_eq!(sorted[2].0, b"bravo".to_vec());
    assert_eq!(sorted[2].1, 1);
}

#[test]
fn timeparse_eest_offset() {
    let t = parse_timestamp_from_string("2023-10-05 14:30:15.123 EEST").unwrap();
    assert_eq!(t.offset_secs, 10_800);
    let expected = chrono::DateTime::parse_from_rfc3339("2023-10-05T14:30:15.123+03:00")
        .unwrap()
        .timestamp_nanos_opt()
        .unwrap() as i128;
    assert_eq!(t.nanos, expected);
}

#[test]
fn timeparse_utc_offset() {
    let t = parse_timestamp_from_string("2025-11-11 06:25:53.178 UTC").unwrap();
    assert_eq!(t.offset_secs, 0);
    let expected = chrono::DateTime::parse_from_rfc3339("2025-11-11T06:25:53.178+00:00")
        .unwrap()
        .timestamp_nanos_opt()
        .unwrap() as i128;
    assert_eq!(t.nanos, expected);
}

#[test]
fn test_parse_timestamp_from_string() {
    let t = parse_timestamp_from_string("2025-05-02 18:25:51.151 EEST").unwrap();
    let dt = chrono::DateTime::from_timestamp_nanos(t.nanos as i64)
        .with_timezone(&chrono::FixedOffset::east_opt(t.offset_secs).unwrap());
    assert_eq!(chrono::Datelike::month(&dt), 5);
}

fn instant_of(dt: chrono::DateTime<chrono::FixedOffset>) -> LogInstant {
    LogInstant {
        nanos: dt.timestamp_nanos_opt().unwrap() as i128,
        offset_secs: chrono::Offset::fix(dt.offset()).local_minus_utc(),
    }
}

#[test]
fn test_time_intervals() {
    let reference = instant_of(
        chrono::DateTime::parse_from_rfc3339("2025-09-19T15:30:00+03:00").unwrap(),
    );
    let result = time_or_interval_string_to_time("10m", Some(reference)).unwrap();
    assert_eq!(result.nanos, reference.nanos - 600_000_000_000);

    let result = time_or_interval_string_to_time("2h", Some(reference)).unwrap();
    assert_eq!(result.nanos, reference.nanos - 7_200_000_000_000);

    let result = time_or_interval_string_to_time("1d", Some(reference)).unwrap();
    assert_eq!(result.nanos, reference.nanos - 86_400_000_000_000);
}

#[test]
fn test_time_intervals_extended() {
    let reference = instant_of(
        chrono::DateTime::parse_from_rfc3339("2025-09-19T15:30:00+03:00").unwrap(),
    );
    let result = time_or_interval_string_to_time("10min", Some(reference)).unwrap();
    assert_eq!(result.nanos, reference.nanos - 600_000_000_000);

    let result = time_or_interval_string_to_time("5minutes", Some(reference)).unwrap();
    assert_eq!(result.nanos, reference.nanos - 300_000_000_000);

    let result = time_or_interval_string_to_time("2hours", Some(reference)).unwrap();
    assert_eq!(result.nanos, reference.nanos - 7_200_000_000_000);
}

#[test]
fn test_negative_intervals() {
    let reference = instant_of(
        chrono::DateTime::parse_from_rfc3339("2025-09-19T15:30:00+03:00").unwrap(),
    );
    let result = time_or_interval_string_to_time("-10m", Some(reference)).unwrap();
    assert_eq!(result.nanos, reference.nanos + 600_000_000_000);
}

#[test]
fn test_today() {
    let result = time_or_interval_string_to_time("today", None).unwrap();
    let now = chrono::Local::now();
    let dt = chrono::DateTime::from_timestamp_nanos(result.nanos as i64)
        .with_timezone(&chrono::FixedOffset::east_opt(result.offset_secs).unwrap());
    assert_eq!(dt.date_naive(), now.date_naive());
    assert_eq!(chrono::Timelike::hour(&dt), 0);
    assert_eq!(chrono::Timelike::minute(&dt), 0);
    assert_eq!(chrono::Timelike::second(&dt), 0);
}

#[test]
fn test_date_only() {
    let result = time_or_interval_string_to_time("2025-09-19", None).unwrap();
    let dt = chrono::DateTime::from_timestamp_nanos(result.nanos as i64)
        .with_timezone(&chrono::FixedOffset::east_opt(result.offset_secs).unwrap());
    assert_eq!(dt.date_naive().to_string(), "2025-09-19");
    assert_eq!(chrono::Timelike::hour(&dt), 0);
    assert_eq!(chrono::Timelike::second(&dt), 0);
}

#[test]
fn test_full_timestamp() {
    let result = time_or_interval_string_to_time("2025-09-19 15:30:00", None).unwrap();
    let dt = chrono::DateTime::from_timestamp_nanos(result.nanos as i64)
        .with_timezone(&chrono::FixedOffset::east_opt(result.offset_secs).unwrap());
    assert_eq!(dt.date_naive().to_string(), "2025-09-19");
    assert_eq!(chrono::Timelike::hour(&dt), 15);
    assert_eq!(chrono::Timelike::minute(&dt), 30);
}

#[test]
fn test_invalid_input() {
    assert!(time_or_interval_string_to_time("invalid", None).is_err());
    assert!(time_or_interval_string_to_time("", None).is_err());
}

#[test]
fn grep_filter_is_case_insensitive() {
    let f = FilterContainsCi::new("DADASD".to_string());
    assert!(f.matches(b"2025-05-22 15:15:09.392 UTC [1] ERROR:  dadasd is unknown", &Format::Plain));
    assert!(!f.matches(b"2025-05-22 15:15:09.392 UTC [1] LOG:  nothing here", &Format::Plain));
}
