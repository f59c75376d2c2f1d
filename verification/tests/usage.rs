use dsh_harness::balance::{balance_args, balance_is_fresh, fetch_balance, price_tier, PriceTier};
use dsh_harness::cache::{FileStamp, Moment, PathMap};
use dsh_harness::counts::Counts;
use dsh_harness::scan::{scan_cached, scan_file, ScanStep, SessionFile};
use dsh_harness::usage::{aggregate, aggregate_file, aggregate_unpacked, lines_fit, FileAgg};
use dsh_harness::usage_log::{read_log, LogLine, LogUsage, Unpacked};
use dsh_harness::usage_report::{scan_sessions, SessionScan};

fn log() -> String {
    [
    "{\"type\":\"session\",\"cwd\":\"/work\"}\r\n",
    "\n",
    "not json\n",
    "{\"type\":\"assistant/chunk\",\"data\":{\"usage\":{\"inputTokens\":9}}}\n",
    "{\"type\":\"assistant/message\",\"cwd\":\"/other\",\"data\":{\"usage\":{\"inputTokens\":5,\"outputTokens\":2,\"cacheReadTokens\":1,\"reasoningTokens\":4},\"message\":{\"source\":{\"model\":\"m2\"}}}}\n",
    "{\"type\":\"assistant/message\",\"data\":{\"usage\":{\"inputTokens\":1,\"outputTokens\":-3},\"message\":{\"source\":{\"model\":\"m1\"}}}}\n",
    "{\"type\":\"assistant/message\",\"data\":{\"usage\":null}}\n",
    "{\"type\":\"assistant/message\",\"data\":{}}\n",
    "{\"type\":\"assistant/message\",\"data\":{\"usage\":{\"inputTokens\":10},\"message\":{\"source\":{\"model\":\"m2\"}}}}",
    ]
    .concat()
}

fn packed(s: &[u8]) -> Vec<u8> {
    zstd::encode_all(s, 0).unwrap()
}

fn numbers(c: &Counts) -> (u64, u64, u64, u64, u64) {
    (c.input, c.output, c.cache_read, c.reasoning, c.calls)
}

fn error(data: &[u8]) -> String {
    match aggregate_file(data) {
        Some(Err(e)) => e,
        _ => panic!("no error"),
    }
}

#[test]
fn log_is_aggregated() {
    let (agg, cwd) = aggregate_file(&packed(log().as_bytes())).unwrap().unwrap();
    assert_eq!(cwd.as_deref(), Some("/work"));
    assert_eq!(numbers(&agg.counts), (16, 2, 1, 4, 4));
    let models: Vec<_> = agg.by_model.iter().map(|m| (m.model.as_str(), numbers(&m.counts))).collect();
    assert_eq!(models, vec![("m1", (1, 0, 0, 0, 1)), ("m2", (15, 2, 1, 4, 2))]);
}

#[test]
fn empty_log_says_nothing() {
    let (agg, cwd) = aggregate_file(&packed(b"")).unwrap().unwrap();
    assert_eq!(numbers(&agg.counts), (0, 0, 0, 0, 0));
    assert!(agg.by_model.is_empty() && cwd.is_none());
}

#[test]
fn broken_stream_is_an_error() {
    assert!(!error(b"no zstd stream").is_empty());
    let mut cut = packed(log().as_bytes());
    cut.truncate(cut.len() - 4);
    assert!(!error(&cut).is_empty());
}

#[test]
fn text_that_is_not_utf8_is_an_error() {
    let told = "stream did not contain valid UTF-8";
    assert_eq!(error(&packed(b"{}\n\xff\n{}\n")), told);
    let broken = |b: &[u8]| match read_log(&Unpacked::Broken(b.to_vec(), "why".to_string())) {
        Err(e) => e,
        Ok(_) => panic!("no error"),
    };
    assert_eq!(broken(b"\xff\n{}"), told);
    assert_eq!(broken(b"{}\n\xff"), "why");
    match aggregate_unpacked(&Unpacked::NotStarted("why".to_string())) {
        Some(Err(e)) => assert_eq!(e, "zstd 解压失败: why"),
        _ => panic!("no error"),
    }
}

/// What reading the lines through a buffer fails with.
fn first_error(data: &[u8]) -> Option<String> {
    let decoder = zstd::stream::read::Decoder::new(std::io::BufReader::new(data)).unwrap();
    let mut lines = std::io::BufRead::lines(std::io::BufReader::new(decoder));
    loop {
        match lines.next()? {
            Ok(_) => {}
            Err(e) => return Some(e.to_string()),
        }
    }
}

fn told(data: &[u8]) -> Option<String> {
    match aggregate_file(data) {
        Some(r) => r.err(),
        None => panic!("too much"),
    }
}

/// Lines that do not pack well, of which the one in the middle is not UTF-8 where it says so.
fn long_log(bad: bool) -> Vec<u8> {
    let mut out = vec![];
    let mut x: u64 = 1;
    for i in 0..3000 {
        x = x.wrapping_mul(6364136223846793005).wrapping_add(1442695040888963407);
        out.extend(format!("{{\"cwd\":\"{:x}{:x}{:x}\"}}", x, x.rotate_left(17) ^ i, x.rotate_left(31)).into_bytes());
        if bad && i == 1500 {
            out.push(0xff);
        }
        out.push(b'\n');
    }
    out
}

#[test]
fn failures_come_as_a_buffered_reader_meets_them() {
    let mut seen = std::collections::BTreeSet::new();
    for bad in [false, true] {
        let whole = packed(&long_log(bad));
        assert_eq!(told(&whole), first_error(&whole));
        for k in 0..24 {
            let at = whole.len() * k / 24;
            let cut = &whole[..at];
            assert_eq!(told(cut), first_error(cut));
            let mut hurt = whole.clone();
            hurt[at] ^= 0x55;
            assert_eq!(told(&hurt), first_error(&hurt));
            seen.extend(told(cut));
            seen.extend(told(&hurt));
        }
    }
    assert!(seen.contains("incomplete frame"));
    assert!(seen.contains("stream did not contain valid UTF-8"));
    assert!(seen.len() > 2);
}

#[test]
fn a_small_frame_with_a_wide_window_is_read() {
    let content = "{\"cwd\":\"/wide\"}\n".repeat(40).into_bytes();
    let n = content.len() as u32;
    let mut frame = vec![0x28, 0xb5, 0x2f, 0xfd, 0x80, 0x90];
    frame.extend(n.to_le_bytes());
    frame.extend(&((n << 3) | 1).to_le_bytes()[..3]);
    frame.extend(content);
    assert_eq!(first_error(&frame), None);
    let (_, cwd) = aggregate_file(&frame).unwrap().unwrap();
    assert_eq!(cwd.as_deref(), Some("/wide"));
}

fn line(input: u64, model: Option<&str>) -> LogLine {
    let counts = Counts { input, output: 0, cache_read: 0, reasoning: 0, calls: 1 };
    LogLine { cwd: None, usage: Some(LogUsage { counts, model: model.map(|m| m.to_string()) }) }
}

#[test]
fn sums_that_do_not_fit_are_found() {
    assert!(lines_fit(&vec![line(u64::MAX, None), line(0, None)]));
    assert!(!lines_fit(&vec![line(u64::MAX, None), line(1, None), line(0, None)]));
    let log = "{\"type\":\"assistant/message\",\"data\":{\"usage\":{\"inputTokens\":18446744073709551615}}}\n";
    assert!(aggregate_file(&packed(log.repeat(2).as_bytes())).is_none());
}

fn scan(slug: &str, id: &str, lines: Vec<LogLine>, cwd: Option<&str>) -> SessionScan {
    let (agg, _) = aggregate(&lines);
    SessionScan {
        slug: slug.to_string(),
        session_id: id.to_string(),
        path: format!("/s/{id}"),
        result: Ok((agg, cwd.map(|c| c.to_string()))),
    }
}

#[test]
fn sessions_are_reported_with_the_most_used_first() {
    let broken = SessionScan {
        slug: "w".to_string(),
        session_id: "x".to_string(),
        path: "/s/x".to_string(),
        result: Err("bad".to_string()),
    };
    let scans = vec![
        scan("w", "a", vec![line(1, Some("b")), line(2, Some("c"))], None),
        broken,
        scan("w", "b", vec![line(5, Some("a")), line(4, None)], Some("/cwd")),
        scan("v", "c", vec![line(3, Some("b"))], None),
        scan("v", "d", vec![line(1, Some("c")), line(2, Some("c"))], None),
    ];
    let r = scan_sessions("/s", true, &scans).unwrap();
    assert_eq!((r.total.input, r.total.output, r.total.total), (18, 0, 18));
    assert_eq!((r.session_count, r.scanned_files), (5, 5));
    assert_eq!(r.errors, vec!["/s/x: bad"]);
    let models: Vec<_> = r.models.iter().map(|m| (m.model.as_str(), m.counts.input, m.counts.calls)).collect();
    assert_eq!(models, vec![("a", 5, 1), ("b", 4, 2), ("c", 5, 3)]);
    let by_model: Vec<_> = r.by_model.iter().map(|m| m.model.as_str()).collect();
    assert_eq!(by_model, vec!["a", "c", "b"]);
    let by_session: Vec<_> = r.by_session.iter().map(|s| (s.workspace.as_str(), s.session_id.as_str(), s.counts.input)).collect();
    assert_eq!(by_session, vec![("/cwd", "b", 9), ("w", "a", 3), ("v", "c", 3), ("v", "d", 3)]);
    assert_eq!(r.by_session.iter().map(|s| s.counts.input).sum::<u64>(), r.total.input);
}

#[test]
fn missing_directory_is_reported() {
    let r = scan_sessions("/s", false, &vec![]).unwrap();
    assert_eq!(r.errors, vec!["未找到会话目录: /s"]);
    assert_eq!((r.total.total, r.session_count), (0, 0));
    let much = vec![scan("w", "a", vec![line(u64::MAX, None)], None), scan("w", "b", vec![line(1, None)], None)];
    assert!(scan_sessions("/s", true, &much).is_none());
}

fn stamp(len: u64, secs: u64) -> Option<FileStamp> {
    Some(FileStamp { len, modified: Some(Moment { before_epoch: false, secs, nanos: 0 }) })
}

fn tokens(s: &ScanStep) -> Option<u64> {
    match s {
        ScanStep::Done(SessionScan { result: Ok((FileAgg { counts, .. }, _)), .. }) => Some(counts.input),
        _ => None,
    }
}

#[test]
fn unchanged_files_are_not_read_again() {
    let mut cache = PathMap::new();
    let file = SessionFile {
        slug: "w".to_string(),
        session_id: "a".to_string(),
        shown: "/s/a".to_string(),
        path: b"/s/a".to_vec(),
    };
    assert!(matches!(scan_cached(&cache, &file, &stamp(7, 1)), ScanStep::Read));
    let data = Ok(packed(log().as_bytes()));
    assert_eq!(tokens(&scan_file(&mut cache, &file, stamp(7, 1), &data)), Some(16));
    assert_eq!(tokens(&scan_cached(&cache, &file, &stamp(7, 1))), Some(16));
    assert!(matches!(scan_cached(&cache, &file, &stamp(8, 1)), ScanStep::Read));
    assert!(matches!(scan_cached(&cache, &file, &stamp(7, 2)), ScanStep::Read));
    assert!(matches!(scan_cached(&cache, &file, &None), ScanStep::Read));
    let log = "{\"type\":\"assistant/message\",\"data\":{\"usage\":{\"inputTokens\":3}}}";
    let data = Ok(packed(log.as_bytes()));
    assert_eq!(tokens(&scan_file(&mut cache, &file, None, &data)), Some(3));
    assert_eq!(tokens(&scan_cached(&cache, &file, &stamp(7, 1))), Some(16));
    assert_eq!(tokens(&scan_file(&mut cache, &file, stamp(8, 1), &data)), Some(3));
    assert!(matches!(scan_cached(&cache, &file, &stamp(7, 1)), ScanStep::Read));
    match scan_file(&mut cache, &file, stamp(9, 1), &Err("gone".to_string())) {
        ScanStep::Done(s) => assert!(matches!(s.result, Err(e) if e == "gone")),
        _ => panic!("not done"),
    }
}

#[test]
fn path_map_keeps_the_latest() {
    let mut m: PathMap<Option<String>> = PathMap::new();
    assert!(m.get(&b"a".to_vec()).is_none());
    m.insert(b"a".to_vec(), None);
    m.insert(b"b".to_vec(), Some("1".to_string()));
    m.insert(b"a".to_vec(), Some("2".to_string()));
    assert_eq!(m.get(&b"a".to_vec()), Some(&Some("2".to_string())));
    assert_eq!(m.get(&b"b".to_vec()), Some(&Some("1".to_string())));
    assert!(m.get(&b"ab".to_vec()).is_none());
}

#[test]
fn balance_is_asked_for_and_read() {
    assert_eq!(
        balance_args("refs:\n  DEEPSEEK_API_KEY: \"sk-test\"\n").unwrap(),
        vec!["-sS", "-m", "10", "-H", "Authorization: Bearer sk-test", "https://api.deepseek.com/user/balance"]
    );
    assert!(balance_args("refs:\n").is_none());
    let b = fetch_balance(&br#"{"balance_infos":[{"total_balance":"1.50","currency":"CNY"},{"total_balance":"2"}]}"#.to_vec()).unwrap();
    assert_eq!((b.total_balance.as_str(), b.currency.as_str()), ("1.50", "CNY"));
    let b = fetch_balance(&br#"{"balance_infos":[{"total_balance":"1"}]}"#.to_vec()).unwrap();
    assert_eq!(b.currency, "USD");
    assert!(fetch_balance(&br#"{"balance_infos":[{"total_balance":1}]}"#.to_vec()).is_none());
    assert!(fetch_balance(&br#"{"balance_infos":[]}"#.to_vec()).is_none());
    assert!(fetch_balance(&b"oops".to_vec()).is_none());
}

#[test]
fn balance_is_good_for_five_minutes() {
    assert!(balance_is_fresh(Some(299)));
    assert!(!balance_is_fresh(Some(300)));
    assert!(!balance_is_fresh(None));
    assert!(matches!(price_tier("deepseek-reasoner"), PriceTier::Reasoner));
    assert!(matches!(price_tier("x-r1"), PriceTier::Reasoner));
    assert!(matches!(price_tier("deepseek-chat"), PriceTier::Chat));
}
