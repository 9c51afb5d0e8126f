use pgweasel::aggregators::{
    Aggregator, ConnectionsAggregator, ErrorFrequencyAggregator, ErrorHistogramAggregator,
    TopSlowQueries,
};
use pgweasel::engine::{run_file, run_file_with_context, ScanConfig};
use pgweasel::filters::{FilterContainsCi, FilterSlow, LockingFilter, Predicate};
use pgweasel::timeparse::parse_timestamp_from_string;
use pgweasel::Format;

fn contains(hay: &[u8], needle: &[u8]) -> bool {
    hay.windows(needle.len()).any(|w| w == needle)
}

fn base_cfg(fmt: Format, min_rank: i32) -> ScanConfig {
    ScanConfig {
        static_filters: Vec::new(),
        min_severity_rank: min_rank,
        begin: None,
        end: None,
        custom_filters: Vec::new(),
        format: fmt,
    }
}

fn csvlog() -> Vec<u8> {
    let mut v = Vec::new();
    v.extend_from_slice(b"2025-05-08 12:24:30.000 EEST,\"postgres\",\"postgres\",12345,\"127.0.0.1:50098\",681c6f85.3039,1,\"idle\",2025-05-08 12:24:00 EEST,3/44,0,LOG,00000,\"statement: select 1\",,,,,,,,,\"psql\"\n");
    v.extend_from_slice(b"2025-05-08 12:24:37.731 EEST,\"postgres\",\"postgres\",12345,\"127.0.0.1:50098\",681c6f85.3039,2,\"SELECT\",2025-05-08 12:24:00 EEST,3/44,0,ERROR,42P01,\"relation \"\"foo\"\" does not exist\",,,,,,\"select * from foo\",8,,\"psql\"\n");
    v.extend_from_slice(b"2025-05-08 12:25:01.000 EEST,\"postgres\",\"postgres\",12345,\"127.0.0.1:50098\",681c6f85.3039,3,\"idle\",2025-05-08 12:24:00 EEST,3/44,0,LOG,00000,\"statement: select 2\",,,,,,,,,\"psql\"\n");
    v
}

#[test]
fn errors_over_csv_prints_the_error_record() {
    let bytes = csvlog();
    let cfg = base_cfg(Format::Csv, 8);
    let mut aggs: Vec<Aggregator> = Vec::new();
    let out = run_file(&bytes, &cfg, &mut aggs, 1).unwrap();
    assert_eq!(out.len(), 1);
    assert!(contains(&out[0], b"2025-05-08 12:24:37.731 EEST"));
    assert!(contains(&out[0], b"relation \"\"foo\"\" does not exist"));
}

#[test]
fn errors_over_csv_with_window() {
    let bytes = csvlog();
    let mut cfg = base_cfg(Format::Csv, 8);
    cfg.begin = Some(parse_timestamp_from_string("2025-05-08 12:24:37.000 EEST").unwrap());
    cfg.end = Some(parse_timestamp_from_string("2025-05-08 12:24:37.999 EEST").unwrap());
    let mut aggs: Vec<Aggregator> = Vec::new();
    let out = run_file(&bytes, &cfg, &mut aggs, 1).unwrap();
    assert_eq!(out.len(), 1);
    assert!(contains(&out[0], b"2025-05-08 12:24:37.731 EEST"));
}

#[test]
fn window_excludes_everything_outside() {
    let bytes = csvlog();
    let mut cfg = base_cfg(Format::Csv, 0);
    cfg.begin = Some(parse_timestamp_from_string("2025-05-08 12:24:37.000 EEST").unwrap());
    cfg.end = Some(parse_timestamp_from_string("2025-05-08 12:24:37.999 EEST").unwrap());
    let mut aggs: Vec<Aggregator> = Vec::new();
    let out = run_file(&bytes, &cfg, &mut aggs, 1).unwrap();
    assert_eq!(out.len(), 1);
}

#[test]
fn slow_filter_prints_records_above_threshold() {
    let mut bytes = Vec::new();
    bytes.extend_from_slice(b"2025-05-21 11:00:40.296 UTC [675] LOG:  duration: 2722.543 ms  statement: SELECT pg_sleep(2.7);\n");
    bytes.extend_from_slice(b"2025-05-21 11:00:41.000 UTC [675] LOG:  duration: 3.032 ms  statement: SELECT 1;\n");
    let mut cfg = base_cfg(Format::Plain, 0);
    cfg.custom_filters = vec![Predicate::Slow(FilterSlow::new(1_000_000_000))];
    let mut aggs: Vec<Aggregator> = Vec::new();
    let out = run_file(&bytes, &cfg, &mut aggs, 1).unwrap();
    assert_eq!(out.len(), 1);
    assert!(contains(&out[0], b"duration: 2722.543 ms"));
}

#[test]
fn top_slow_renders_the_largest_duration() {
    let mut bytes = Vec::new();
    bytes.extend_from_slice(b"2025-05-21 11:00:40.296 UTC [675] LOG:  duration: 25.761 ms  statement: WITH RECURSIVE t AS (SELECT 1) SELECT * FROM t;\n");
    bytes.extend_from_slice(b"2025-05-21 11:00:41.000 UTC [675] LOG:  duration: 3.032 ms  statement: SELECT 1;\n");
    bytes.extend_from_slice(b"2025-05-21 11:00:42.000 UTC [675] LOG:  duration: 11.5 ms  statement: SELECT 2;\n");
    let cfg = base_cfg(Format::Plain, 0);
    let mut aggs: Vec<Aggregator> = vec![Aggregator::TopSlow(TopSlowQueries::new(10))];
    let _ = run_file(&bytes, &cfg, &mut aggs, 1).unwrap();
    let rendered = aggs[0].render();
    assert!(contains(&rendered, b"Top 3 slowest queries:"));
    assert!(contains(&rendered, b"--- 25.761ms ---"));
}

#[test]
fn top_slow_keeps_only_the_largest() {
    let mut bytes = Vec::new();
    bytes.extend_from_slice(b"2025-05-21 11:00:40.000 UTC [1] LOG:  duration: 10.0 ms  statement: a;\n");
    bytes.extend_from_slice(b"2025-05-21 11:00:41.000 UTC [1] LOG:  duration: 30.0 ms  statement: b;\n");
    bytes.extend_from_slice(b"2025-05-21 11:00:42.000 UTC [1] LOG:  duration: 20.0 ms  statement: c;\n");
    let cfg = base_cfg(Format::Plain, 0);
    let mut aggs: Vec<Aggregator> = vec![Aggregator::TopSlow(TopSlowQueries::new(2))];
    let _ = run_file(&bytes, &cfg, &mut aggs, 1).unwrap();
    let rendered = aggs[0].render();
    assert!(contains(&rendered, b"30ms"));
    assert!(contains(&rendered, b"20ms"));
    assert!(!contains(&rendered, b"10ms"));
}

#[test]
fn locks_filter_matches_deadlock_record() {
    let mut bytes = Vec::new();
    bytes.extend_from_slice(b"2025-06-03 12:46:07.925 UTC [77] ERROR:  deadlock detected\n");
    bytes.extend_from_slice(b"2025-06-03 12:46:08.000 UTC [77] LOG:  checkpoint complete\n");
    let mut cfg = base_cfg(Format::Plain, 5);
    cfg.custom_filters = vec![Predicate::Locking(LockingFilter::new())];
    let mut aggs: Vec<Aggregator> = Vec::new();
    let out = run_file(&bytes, &cfg, &mut aggs, 1).unwrap();
    assert_eq!(out.len(), 1);
    assert!(out[0].starts_with(b"2025-06-03 12:46:07.925"));
}

#[test]
fn connections_render_buckets_by_time() {
    let mut bytes = Vec::new();
    for sec in ["00:40", "01:10", "02:20", "05:05", "09:59"] {
        bytes.extend_from_slice(b"2025-05-21 11:");
        bytes.extend_from_slice(sec.as_bytes());
        bytes.extend_from_slice(b".296 EEST [675] LOG:  connection received: host=10.0.0.7 port=4711\n");
    }
    bytes.extend_from_slice(b"2025-05-21 11:12:00.000 EEST [675] LOG:  connection received: host=10.0.0.7 port=4712\n");
    let cfg = base_cfg(Format::Plain, 0);
    let mut aggs: Vec<Aggregator> = vec![Aggregator::Connections(ConnectionsAggregator::new())];
    let _ = run_file(&bytes, &cfg, &mut aggs, 1).unwrap();
    let rendered = aggs[0].render();
    assert!(contains(&rendered, b"Connections by time bucket:"));
    assert!(contains(&rendered, b"5  2025-05-21 11:00:00 +03:00"));
    assert!(contains(&rendered, b"1  2025-05-21 11:10:00 +03:00"));
    assert!(contains(&rendered, b"Total connection attempts: 6"));
    assert!(contains(&rendered, b"6  10.0.0.7"));
}

#[test]
fn connections_counts_failures_and_authorized() {
    let mut bytes = Vec::new();
    bytes.extend_from_slice(b"2025-05-21 11:00:40.000 UTC [1] LOG:  connection authorized: user=alice database=app SSL enabled\n");
    bytes.extend_from_slice(b"2025-05-21 11:00:41.000 UTC [1] LOG:  connection authorized: user=bob database=app\n");
    bytes.extend_from_slice(b"2025-05-21 11:00:42.000 UTC [1] FATAL:  password authentication failed for user \"eve\"\n");
    let cfg = base_cfg(Format::Plain, 0);
    let mut aggs: Vec<Aggregator> = vec![Aggregator::Connections(ConnectionsAggregator::new())];
    let _ = run_file(&bytes, &cfg, &mut aggs, 1).unwrap();
    let rendered = aggs[0].render();
    assert!(contains(&rendered, b"Total authenticated connections: 2"));
    assert!(contains(&rendered, b"Total authenticated SSL connections: 1"));
    assert!(contains(&rendered, b"Total connection failures: 1"));
    assert!(contains(&rendered, b"1  alice"));
    assert!(contains(&rendered, b"2  app"));
}

#[test]
fn grep_after_context_prints_following_record() {
    let mut bytes = Vec::new();
    bytes.extend_from_slice(b"2025-05-22 15:15:09.392 UTC [1] ERROR:  syntax error at or near \"dadasd\"\n");
    bytes.extend_from_slice(b"2025-05-22 15:15:10.000 UTC [1] LOG:  terminating background worker\n");
    bytes.extend_from_slice(b"2025-05-22 15:15:11.000 UTC [1] LOG:  unrelated afterthought\n");
    let mut cfg = base_cfg(Format::Plain, 0);
    cfg.custom_filters = vec![Predicate::ContainsCi(FilterContainsCi::new("dadasd".to_string()))];
    let out = run_file_with_context(&bytes, &cfg, 0, 1).unwrap();
    assert_eq!(out.len(), 2);
    assert!(contains(&out[0], b"dadasd"));
    assert!(contains(&out[1], b"terminating background worker"));
    assert!(!contains(&out[1], b"afterthought"));
}

#[test]
fn grep_before_context_prints_preceding_record() {
    let mut bytes = Vec::new();
    bytes.extend_from_slice(b"2025-05-22 15:15:08.000 UTC [1] LOG:  warm-up chatter\n");
    bytes.extend_from_slice(b"2025-05-22 15:15:09.392 UTC [1] ERROR:  syntax error at or near \"dadasd\"\n");
    bytes.extend_from_slice(b"2025-05-22 15:15:10.000 UTC [1] LOG:  terminating background worker\n");
    let mut cfg = base_cfg(Format::Plain, 0);
    cfg.custom_filters = vec![Predicate::ContainsCi(FilterContainsCi::new("DADASD".to_string()))];
    let out = run_file_with_context(&bytes, &cfg, 1, 0).unwrap();
    assert_eq!(out.len(), 2);
    assert!(contains(&out[0], b"warm-up chatter"));
    assert!(contains(&out[1], b"dadasd"));
}

#[test]
fn partition_invariance_over_worker_counts() {
    let mut bytes = Vec::new();
    for i in 0..40 {
        bytes.extend_from_slice(b"2025-05-21 11:00:40.000 UTC [1] LOG:  connection received: host=10.0.0.");
        bytes.extend_from_slice(format!("{}", i % 4).as_bytes());
        bytes.extend_from_slice(b" port=1\n");
        bytes.extend_from_slice(b"2025-05-21 11:00:41.000 UTC [1] ERROR:  relation \"r");
        bytes.extend_from_slice(format!("{}", i % 3).as_bytes());
        bytes.extend_from_slice(b"\" does not exist\nDETAIL:  second line\n");
    }
    let make_aggs = || -> Vec<Aggregator> {
        vec![
            Aggregator::Connections(ConnectionsAggregator::new()),
            Aggregator::Frequency(ErrorFrequencyAggregator::new()),
            Aggregator::Histogram(ErrorHistogramAggregator::new(3600)),
            Aggregator::TopSlow(TopSlowQueries::new(5)),
        ]
    };
    let cfg = base_cfg(Format::Plain, 0);
    let mut base: Vec<Aggregator> = make_aggs();
    let out1 = run_file(&bytes, &cfg, &mut base, 1).unwrap();
    for workers in [2usize, 3, 7] {
        let mut aggs = make_aggs();
        let out_w = run_file(&bytes, &cfg, &mut aggs, workers).unwrap();
        assert_eq!(out1.len(), out_w.len());
        for k in 0..base.len() {
            assert_eq!(base[k].render(), aggs[k].render(), "workers={}", workers);
        }
    }
}

#[test]
fn histogram_additivity_bucket_wise() {
    let mut a_bytes = Vec::new();
    a_bytes.extend_from_slice(b"2025-05-21 11:00:40.000 UTC [1] ERROR:  one\n");
    a_bytes.extend_from_slice(b"2025-05-21 11:20:40.000 UTC [1] ERROR:  two\n");
    let mut b_bytes = Vec::new();
    b_bytes.extend_from_slice(b"2025-05-21 11:00:50.000 UTC [1] ERROR:  three\n");
    b_bytes.extend_from_slice(b"2025-05-21 12:00:40.000 UTC [1] ERROR:  four\n");
    let mut ab = a_bytes.clone();
    ab.extend_from_slice(&b_bytes);

    let cfg = base_cfg(Format::Plain, 0);
    let mut whole = vec![Aggregator::Histogram(ErrorHistogramAggregator::new(600))];
    let _ = run_file(&ab, &cfg, &mut whole, 1).unwrap();

    let mut ha = vec![Aggregator::Histogram(ErrorHistogramAggregator::new(600))];
    let _ = run_file(&a_bytes, &cfg, &mut ha, 1).unwrap();
    let mut hb = vec![Aggregator::Histogram(ErrorHistogramAggregator::new(600))];
    let _ = run_file(&b_bytes, &cfg, &mut hb, 1).unwrap();
    let hb0 = hb.remove(0);
    ha[0].merge(&hb0);

    assert_eq!(whole[0].render(), ha[0].render());
}

#[test]
fn empty_file_produces_no_records() {
    let bytes: Vec<u8> = Vec::new();
    let cfg = base_cfg(Format::Plain, 0);
    let mut aggs: Vec<Aggregator> = Vec::new();
    let out = run_file(&bytes, &cfg, &mut aggs, 4).unwrap();
    assert_eq!(out.len(), 0);
}

#[test]
fn unrecognizable_text_produces_no_records() {
    let bytes = b"no timestamps here\njust chatter\n".to_vec();
    let cfg = base_cfg(Format::Plain, 0);
    let mut aggs: Vec<Aggregator> = Vec::new();
    let out = run_file(&bytes, &cfg, &mut aggs, 2).unwrap();
    assert_eq!(out.len(), 0);
}

#[test]
fn frequency_render_cuts_to_limit_after_merge() {
    let mut bytes = Vec::new();
    for i in 0..12 {
        for _ in 0..(i + 1) {
            bytes.extend_from_slice(b"2025-05-21 11:00:40.000 UTC [1] ERROR:  failure kind ");
            bytes.extend_from_slice(format!("{:02}", i).as_bytes());
            bytes.extend_from_slice(b"\n");
        }
    }
    let cfg = base_cfg(Format::Plain, 0);
    let mut aggs = vec![Aggregator::Frequency(ErrorFrequencyAggregator::new())];
    let _ = run_file(&bytes, &cfg, &mut aggs, 3).unwrap();
    let rendered = aggs[0].render();
    assert!(contains(&rendered, b"Most frequent error messages:"));
    assert!(contains(&rendered, b"failure kind 11"));
    // twelve kinds counted, but only the ten most frequent are printed
    assert!(!contains(&rendered, b"failure kind 00"));
    assert!(!contains(&rendered, b"failure kind 01"));
    assert!(contains(&rendered, b"failure kind 02"));
}

#[test]
fn malformed_timestamp_is_reported() {
    let bytes = b"9999-99-99 99:99:99.000 UTC [1] ERROR:  broken clock\n".to_vec();
    let cfg = base_cfg(Format::Plain, 0);
    let mut aggs: Vec<Aggregator> = Vec::new();
    assert!(run_file(&bytes, &cfg, &mut aggs, 1).is_err());
}
