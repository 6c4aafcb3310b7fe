use java_guard::text::{replace_chars, trim_prefix_repeated};
use java_guard::gate::{GateConfig, GateResult, SeverityCounts};
use java_guard::git_diff::{
    parse_diff, parse_hunk_header, DiffKind, FileDiff, Hunk, LineFilter, LineMapper, LineRange,
};
use java_guard::reporter::{
    csv_escape, ConsoleReporter, CsvReporter, JsonReporter, ReportFormat, SarifReporter, ScanStats,
};
use java_guard::rule::{Severity, SpanPolicy, Violation, ViolationCollector};
use std::str::FromStr;

fn make_violations(critical: usize, major: usize, minor: usize, info: usize) -> Vec<Violation> {
    let mut vs = Vec::new();
    for _ in 0..critical {
        vs.push(Violation::new("T", Severity::Critical, "f.java", 1, "c"));
    }
    for _ in 0..major {
        vs.push(Violation::new("T", Severity::Major, "f.java", 1, "m"));
    }
    for _ in 0..minor {
        vs.push(Violation::new("T", Severity::Minor, "f.java", 1, "mi"));
    }
    for _ in 0..info {
        vs.push(Violation::new("T", Severity::Info, "f.java", 1, "i"));
    }
    vs
}

#[test]
fn gate_pass_when_no_violations() {
    let config = GateConfig::default();
    let counts = SeverityCounts::default();
    assert!(config.check(&counts).is_pass());
}

#[test]
fn gate_fail_when_major_exceeds() {
    let config = GateConfig::default();
    let vs = make_violations(0, 1, 0, 0);
    let counts = SeverityCounts::from_violations(&vs);
    let result = config.check(&counts);
    assert!(!result.is_pass());
    assert_eq!(result.exit_code(), 1);
}

#[test]
fn gate_pass_when_within_threshold() {
    let config = GateConfig { max_critical: 0, max_major: 5, max_minor: usize::MAX, max_info: usize::MAX };
    let vs = make_violations(0, 3, 10, 5);
    let counts = SeverityCounts::from_violations(&vs);
    assert!(config.check(&counts).is_pass());
}

#[test]
fn gate_fail_multiple_levels() {
    let config = GateConfig { max_critical: 0, max_major: 0, max_minor: 5, max_info: usize::MAX };
    let vs = make_violations(1, 2, 10, 3);
    let counts = SeverityCounts::from_violations(&vs);
    let result = config.check(&counts);
    assert!(matches!(result, GateResult::Fail(_)));
    if let GateResult::Fail(reasons) = result {
        assert!(reasons.iter().any(|r| r.contains("critical")));
        assert!(reasons.iter().any(|r| r.contains("major")));
        assert!(reasons.iter().any(|r| r.contains("minor")));
    }
}

#[test]
fn gate_reasons_name_counts_and_limits() {
    let config = GateConfig { max_critical: 0, max_major: 0, max_minor: 5, max_info: usize::MAX };
    let counts = SeverityCounts::from_violations(&make_violations(1, 2, 10, 3));
    match config.check(&counts) {
        GateResult::Fail(reasons) => {
            assert_eq!(reasons, vec!["critical: 1 > 0", "major: 2 > 0", "minor: 10 > 5"]);
        }
        GateResult::Pass => panic!("expected failure"),
    }
    assert_eq!(GateResult::Pass.exit_code(), 0);
}

#[test]
fn severity_ordering() {
    assert!(Severity::Critical > Severity::Major);
    assert!(Severity::Major > Severity::Minor);
    assert!(Severity::Minor > Severity::Info);
}

#[test]
fn severity_from_str() {
    assert_eq!(Severity::from_str("major").unwrap(), Severity::Major);
    assert_eq!(Severity::from_str("MINOR").unwrap(), Severity::Minor);
    assert!(Severity::from_str("unknown").is_err());
}

#[test]
fn severity_names_round_trip() {
    for s in [Severity::Info, Severity::Minor, Severity::Major, Severity::Critical] {
        assert_eq!(Severity::from_str(s.as_str()).unwrap(), s);
    }
    assert_eq!(Severity::from_str("  Critical ").unwrap(), Severity::Critical);
    assert_eq!(Severity::from_str("warning").unwrap_err().0, "warning");
}

#[test]
fn collector_add_and_sort() {
    let mut c = ViolationCollector::new();
    c.add(Violation::new("J002", Severity::Major, "B.java", 5, "b"));
    c.add(Violation::new("J001", Severity::Minor, "A.java", 10, "a"));
    c.add(Violation::new("J001", Severity::Minor, "A.java", 3, "a2"));
    c.sort();
    let v = c.violations();
    assert_eq!(v[0].file, "A.java");
    assert_eq!(v[0].line, 3);
    assert_eq!(v[1].file, "A.java");
    assert_eq!(v[1].line, 10);
    assert_eq!(v[2].file, "B.java");
}

#[test]
fn collector_sort_orders_rule_ids_and_keeps_ties() {
    let mut c = ViolationCollector::new();
    c.add_all(vec![
        Violation::new("J009", Severity::Major, "A.java", 7, "first"),
        Violation::new("J001", Severity::Major, "A.java", 7, "x"),
        Violation::new("J009", Severity::Major, "A.java", 7, "second"),
    ]);
    c.sort();
    let v = c.into_inner();
    assert_eq!(v[0].rule_id.0, "J001");
    assert_eq!(v[1].message, "first");
    assert_eq!(v[2].message, "second");
}

#[test]
fn parse_simple_diff() {
    let diff = r#"diff --git a/src/Foo.java b/src/Foo.java
new file mode 100644
index 0000000..1234567
--- /dev/null
+++ b/src/Foo.java
@@ -0,0 +1,5 @@
+public class Foo {
+    public void bar() {
+        System.out.println("hello");
+    }
+}
"#;
    let files = parse_diff(diff);
    assert_eq!(files.len(), 1);
    assert_eq!(files[0].path, "src/Foo.java");
    assert!(files[0].is_new);
    assert_eq!(files[0].line_ranges.len(), 1);
    assert_eq!(files[0].line_ranges[0].start, 1);
    assert_eq!(files[0].line_ranges[0].end, 5);
}

#[test]
fn parse_modified_diff() {
    let diff = r#"diff --git a/src/Bar.java b/src/Bar.java
index 1234567..abcdef0 100644
--- a/src/Bar.java
+++ b/src/Bar.java
@@ -10,3 +10,8 @@
+    System.out.println("new line");
+    System.out.println("new line 2");
@@ -20,2 +25,3 @@
+    // another change
"#;
    let files = parse_diff(diff);
    assert_eq!(files.len(), 1);
    assert_eq!(files[0].path, "src/Bar.java");
    assert!(!files[0].is_new);
    assert_eq!(files[0].line_ranges.len(), 2);
    assert_eq!(files[0].line_ranges[0].start, 10);
    assert_eq!(files[0].line_ranges[0].end, 17);
    assert_eq!(files[0].line_ranges[1].start, 25);
    assert_eq!(files[0].line_ranges[1].end, 27);
}

#[test]
fn parse_single_line_hunk() {
    let diff = "--- a/x.java\n+++ b/x.java\n@@ -5 +5 @@\n+// change\n";
    let files = parse_diff(diff);
    assert_eq!(files.len(), 1);
    assert_eq!(files[0].line_ranges[0].start, 5);
    assert_eq!(files[0].line_ranges[0].end, 5);
}

#[test]
fn line_filter_all() {
    let filter = LineFilter::all();
    assert!(filter.allows("any/file.java", 1));
    assert!(filter.allows("any/file.java", 999));
}

#[test]
fn line_filter_incremental() {
    let diffs = vec![FileDiff {
        path: "src/Foo.java".to_string(),
        kind: DiffKind::Modified,
        line_ranges: vec![LineRange { start: 10, end: 15 }, LineRange { start: 20, end: 22 }],
        hunks: vec![],
        is_new: false,
    }];
    let filter = LineFilter::from_diffs(&diffs);

    assert!(filter.is_incremental());
    assert!(filter.allows("src/Foo.java", 10));
    assert!(filter.allows("src/Foo.java", 15));
    assert!(!filter.allows("src/Foo.java", 16));
    assert!(filter.allows("src/Foo.java", 20));
    assert!(!filter.allows("src/Foo.java", 18));
    assert!(filter.allows("src/Other.java", 1));
}

#[test]
fn line_filter_ranges_per_file() {
    let diffs = vec![
        FileDiff {
            path: "src/Foo.java".to_string(),
            kind: DiffKind::Modified,
            line_ranges: vec![LineRange { start: 3, end: 4 }],
            hunks: vec![],
            is_new: false,
        },
        FileDiff {
            path: "src/Foo.java".to_string(),
            kind: DiffKind::Modified,
            line_ranges: vec![LineRange { start: 9, end: 9 }],
            hunks: vec![],
            is_new: false,
        },
    ];
    let filter = LineFilter::from_diffs(&diffs);
    let rs = filter.get_ranges("src/Foo.java").unwrap();
    assert_eq!(rs, &[LineRange { start: 3, end: 4 }, LineRange { start: 9, end: 9 }][..]);
    assert!(filter.get_ranges("src/Bar.java").is_none());
    assert!(filter.allows("src/Foo.java", 9));
    assert!(!filter.allows("src/Foo.java", 5));
    assert!(LineFilter::all().get_ranges("src/Foo.java").is_none());
    assert!(!LineFilter::all().is_incremental());
}

#[test]
fn line_range_contains_is_inclusive() {
    let r = LineRange { start: 5, end: 7 };
    assert!(!r.contains(4));
    assert!(r.contains(5));
    assert!(r.contains(7));
    assert!(!r.contains(8));
}

#[test]
fn line_filter_new_file() {
    let diffs = vec![FileDiff {
        path: "src/New.java".to_string(),
        kind: DiffKind::Added,
        line_ranges: vec![],
        hunks: vec![],
        is_new: true,
    }];
    let filter = LineFilter::from_diffs(&diffs);
    assert!(filter.allows("src/New.java", 1));
    assert!(filter.allows("src/New.java", 999));
}

#[test]
fn line_filter_policy_anchor_vs_intersect() {
    let diffs = vec![FileDiff {
        path: "src/Foo.java".to_string(),
        kind: DiffKind::Modified,
        line_ranges: vec![LineRange { start: 20, end: 25 }],
        hunks: vec![],
        is_new: false,
    }];
    let filter = LineFilter::from_diffs(&diffs);

    assert!(filter.allows_policy("src/Foo.java", 20, None, SpanPolicy::Anchor));
    assert!(filter.allows_policy("src/Foo.java", 25, None, SpanPolicy::Anchor));
    assert!(!filter.allows_policy("src/Foo.java", 19, Some(30), SpanPolicy::Anchor));
    assert!(!filter.allows_policy("src/Foo.java", 26, None, SpanPolicy::Anchor));

    assert!(filter.allows_policy("src/Foo.java", 19, Some(30), SpanPolicy::Intersect));
    assert!(filter.allows_policy("src/Foo.java", 25, Some(30), SpanPolicy::Intersect));
    assert!(!filter.allows_policy("src/Foo.java", 26, Some(30), SpanPolicy::Intersect));
    assert!(!filter.allows_policy("src/Foo.java", 30, Some(40), SpanPolicy::Intersect));
    assert!(filter.allows_policy("src/Foo.java", 10, Some(40), SpanPolicy::Intersect));
    assert!(!filter.allows_policy("src/Foo.java", 19, None, SpanPolicy::Intersect));
    assert!(filter.allows_policy("src/Foo.java", 21, None, SpanPolicy::Intersect));
}

#[test]
fn parse_hunk_header_basic() {
    let hunk = parse_hunk_header("@@ -10,5 +10,5 @@ fn foo() {").unwrap();
    assert_eq!(hunk, Hunk { old_start: 10, old_len: 5, new_start: 10, new_len: 5 });
}

#[test]
fn parse_hunk_header_single_line() {
    let hunk = parse_hunk_header("@@ -3 +4 @@").unwrap();
    assert_eq!(hunk, Hunk { old_start: 3, old_len: 1, new_start: 4, new_len: 1 });
}

#[test]
fn parse_hunk_header_zero_len() {
    let hunk = parse_hunk_header("@@ -7,0 +8,3 @@").unwrap();
    assert_eq!(hunk, Hunk { old_start: 7, old_len: 0, new_start: 8, new_len: 3 });
    let hunk = parse_hunk_header("@@ -4,2 +3,0 @@").unwrap();
    assert_eq!(hunk, Hunk { old_start: 4, old_len: 2, new_start: 3, new_len: 0 });
}

#[test]
fn parse_hunk_header_rejects_other_lines() {
    assert!(parse_hunk_header("+++ b/x.java").is_none());
    assert!(parse_hunk_header("@@ -x +1 @@").is_none());
}

#[test]
fn line_mapper_translate_with_offset() {
    let diffs = vec![FileDiff {
        path: "src/Foo.java".to_string(),
        kind: DiffKind::Modified,
        line_ranges: vec![LineRange { start: 10, end: 14 }],
        hunks: vec![Hunk { old_start: 10, old_len: 5, new_start: 10, new_len: 5 }],
        is_new: false,
    }];
    let mapper = LineMapper::from_diffs(&diffs);
    assert_eq!(mapper.translate("src/Foo.java", 9), Some(9));
    assert_eq!(mapper.translate("src/Foo.java", 12), Some(12));
    assert_eq!(mapper.translate("src/Foo.java", 14), Some(14));
    assert_eq!(mapper.translate("src/Foo.java", 15), Some(15));
    assert_eq!(mapper.translate("src/Other.java", 5), None);
}

#[test]
fn line_mapper_translate_with_insertion() {
    let diffs = vec![FileDiff {
        path: "src/Foo.java".to_string(),
        kind: DiffKind::Modified,
        line_ranges: vec![LineRange { start: 8, end: 10 }],
        hunks: vec![
            Hunk { old_start: 5, old_len: 0, new_start: 8, new_len: 3 },
            Hunk { old_start: 10, old_len: 1, new_start: 13, new_len: 1 },
        ],
        is_new: false,
    }];
    let mapper = LineMapper::from_diffs(&diffs);
    assert_eq!(mapper.translate("src/Foo.java", 4), Some(4));
    assert_eq!(mapper.translate("src/Foo.java", 6), Some(9));
    assert_eq!(mapper.translate("src/Foo.java", 9), Some(12));
    assert_eq!(mapper.translate("src/Foo.java", 10), Some(13));
    assert_eq!(mapper.translate("src/Foo.java", 11), Some(14));
    assert_eq!(mapper.translate("src/Foo.java", 100), Some(103));
}

#[test]
fn line_mapper_translate_with_deletion() {
    let diffs = vec![FileDiff {
        path: "src/Foo.java".to_string(),
        kind: DiffKind::Modified,
        line_ranges: vec![LineRange { start: 9, end: 9 }],
        hunks: vec![
            Hunk { old_start: 5, old_len: 3, new_start: 5, new_len: 0 },
            Hunk { old_start: 12, old_len: 1, new_start: 9, new_len: 1 },
        ],
        is_new: false,
    }];
    let mapper = LineMapper::from_diffs(&diffs);
    assert_eq!(mapper.translate("src/Foo.java", 4), Some(4));
    assert_eq!(mapper.translate("src/Foo.java", 5), None);
    assert_eq!(mapper.translate("src/Foo.java", 7), None);
    assert_eq!(mapper.translate("src/Foo.java", 8), Some(5));
    assert_eq!(mapper.translate("src/Foo.java", 12), Some(9));
    assert_eq!(mapper.translate("src/Foo.java", 13), Some(10));
}

fn sample_violations() -> Vec<Violation> {
    vec![
        Violation::new("J001", Severity::Minor, "Foo.java", 10, "missing serial version UID"),
        Violation::new("J002", Severity::Major, "Bar.java", 5, "empty catch block"),
        Violation::new("J001", Severity::Minor, "Foo.java", 3, "duplicate import"),
    ]
}

#[test]
fn console_report_produces_output() {
    let vs = sample_violations();
    let mut output = String::new();
    ConsoleReporter::report_to(&mut output, &vs);
    assert!(output.contains("Foo.java"));
    assert!(output.contains("Bar.java"));
    assert!(output.contains("J001"));
    assert!(output.contains("J002"));
    assert!(output.contains("3 violations"));
}

#[test]
fn console_report_empty() {
    let mut output = String::new();
    ConsoleReporter::report_to(&mut output, &[]);
    assert!(output.contains("No issues"));
}

#[test]
fn json_report_valid_json() {
    let vs = sample_violations();
    let report = JsonReporter::build(&vs, 3, 0, Some(100), "2024-01-01T00:00:00Z".to_string());
    assert_eq!(report.violations.len(), 3);
    assert_eq!(report.scan_info.files_scanned, 3);
    assert_eq!(report.scan_info.duration_ms, Some(100));
    assert_eq!(report.stats.total_violations, 3);
    assert_eq!(report.version, "1.0");
}

#[test]
fn sarif_report_valid() {
    let vs = sample_violations();
    let log = SarifReporter::build(&vs);
    assert_eq!(log.version, "2.1.0");
    assert_eq!(log.tool_name, "java-guard");
    assert_eq!(log.results.len(), 3);
    assert_eq!(log.rules.len(), 2);
    assert_eq!(log.rules[0].id, "J001");
    assert_eq!(log.rules[0].level, "warning");
    assert_eq!(log.rules[1].level, "error");
    assert_eq!(log.results[1].uri, "Bar.java");
    assert_eq!(log.results[1].end_line, 5);
}

#[test]
fn csv_report_has_header() {
    let vs = sample_violations();
    let mut csv = String::new();
    CsvReporter::report_to(&mut csv, &vs);
    assert!(csv.starts_with("rule_id,severity,file,line,end_line,message"));
    assert!(csv.contains("J001"));
    assert!(csv.contains("J002"));
}

#[test]
fn csv_escape_comma() {
    assert_eq!(csv_escape("hello"), "hello");
    assert_eq!(csv_escape("hello, world"), "\"hello, world\"");
    assert_eq!(csv_escape("say \"hi\""), "\"say \"\"hi\"\"\"");
}

#[test]
fn report_format_from_str() {
    assert_eq!("console".parse::<ReportFormat>().unwrap(), ReportFormat::Console);
    assert_eq!("JSON".parse::<ReportFormat>().unwrap(), ReportFormat::Json);
    assert_eq!("sarif".parse::<ReportFormat>().unwrap(), ReportFormat::Sarif);
    assert_eq!("csv".parse::<ReportFormat>().unwrap(), ReportFormat::Csv);
    assert!("unknown".parse::<ReportFormat>().is_err());
}

#[test]
fn scan_stats_correct() {
    let vs = sample_violations();
    let stats = ScanStats::from_violations(&vs, 3, 1);
    assert_eq!(stats.total_violations, 3);
    assert_eq!(stats.by_severity.minor, 2);
    assert_eq!(stats.by_severity.major, 1);
    assert_eq!(stats.rule_count("J001"), Some(2));
    assert_eq!(stats.rule_count("J002"), Some(1));
    assert_eq!(stats.files_scanned, 3);
    assert_eq!(stats.parse_errors, 1);
}

#[test]
fn default_gate_fails_only_on_critical_or_major() {
    let config = GateConfig::default();
    assert!(config.check(&SeverityCounts::from_violations(&make_violations(0, 0, 50, 50))).is_pass());
    assert!(!config.check(&SeverityCounts::from_violations(&make_violations(1, 0, 0, 0))).is_pass());
}

#[test]
fn console_lists_each_file_by_severity_then_line() {
    let vs = vec![
        Violation::new("J001", Severity::Major, "A.java", 10, "ten"),
        Violation::new("J001", Severity::Major, "A.java", 3, "three"),
        Violation::new("J002", Severity::Critical, "A.java", 20, "twenty"),
        Violation::new("J003", Severity::Minor, "A.java", 1, "one"),
    ];
    let mut output = String::new();
    ConsoleReporter::report_to(&mut output, &vs);
    let pos = |m: &str| output.find(m).unwrap();
    assert!(pos("twenty") < pos("three"));
    assert!(pos("three") < pos("ten"));
    assert!(pos("ten") < pos("one"));
}

#[test]
fn csv_escapes_every_text_field() {
    let vs = vec![Violation::new("J,1", Severity::Minor, "src/a,b.java", 4, "plain")];
    let mut csv = String::new();
    CsvReporter::report_to(&mut csv, &vs);
    assert_eq!(
        csv,
        "rule_id,severity,file,line,end_line,message\n\"J,1\",minor,\"src/a,b.java\",4,,plain\n"
    );
}

#[test]
fn empty_pattern_replaces_and_trims_like_std() {
    let s: Vec<char> = "ab".chars().collect();
    let dash: Vec<char> = vec!['-'];
    let got: String = replace_chars(&s, &[], &dash).into_iter().collect();
    assert_eq!(got, "ab".replace("", "-"));
    let kept: String = trim_prefix_repeated(&s, &[]).into_iter().collect();
    assert_eq!(kept, "ab".trim_start_matches(""));
    let x: Vec<char> = "xxab".chars().collect();
    let trimmed: String = trim_prefix_repeated(&x, &['x']).into_iter().collect();
    assert_eq!(trimmed, "ab");
}

#[test]
fn console_violation_lines_match_the_manual() {
    let mut v = Violation::new("J008", Severity::Major, "src/Main.java", 15, "empty catch");
    v.end_line = Some(17);
    let vs = vec![Violation::new("J001", Severity::Minor, "src/Main.java", 23, "println"), v];
    let mut output = String::new();
    ConsoleReporter::report_to(&mut output, &vs);
    let expected = "\n\x1b[1msrc/Main.java\x1b[0m (2 issues)\n\
                    \x20 \x1b[90m15:-17\x1b[0m \x1b[31mmajor\x1b[0m\n\
                    \x20   \x1b[1mJ008\x1b[0m empty catch\n\
                    \x20 \x1b[90m23:\x1b[0m \x1b[33mminor\x1b[0m\n\
                    \x20   \x1b[1mJ001\x1b[0m println\n\
                    \n\x1b[1m2 violations in 1 file\x1b[0m\n";
    assert_eq!(output, expected);
}
