use java_guard::ast::{CompilationUnit, TypeDecl, ClassDecl, MemberDecl, MethodDecl, Stmt, WhileStmt, BlockStmt, Expr, LiteralExpr};
use java_guard::baseline::{apply_baseline, filter_baseline, filter_baseline_mapped, semantic_difference};
use java_guard::gate::{chosen_gate, GateConfig};
use java_guard::builtin::{builtin_rules, BuiltinRule};
use java_guard::git_diff::{find_git_root, DiffKind, FileDiff, Hunk, LineFilter, LineMapper, LineRange};
use java_guard::rule::{Rule, Severity, SpanPolicy, Violation};
use java_guard::options::{
    check_semantic_diff,
    effective_encoding, effective_excludes, effective_ids, effective_includes, effective_min_severity,
    effective_rules_file,
};
use java_guard::scan::{
    changed_file, check_unique_ids, filter_changed, narrow_findings, script_kind, ScriptKind, find_parser_jar, old_side, path_included, rebase_diff_path,
    rule_policy, run_rules, select_rules, split_list, strip_extended_prefix, BuiltinRuleOverride,
    OldRef, RuleEntry, ScanRule,
};

#[test]
fn baseline_matches_exact_line() {
    let baseline = vec![("A.java".to_string(), 10, "J001".to_string())];
    let vs = vec![Violation::new("J001", Severity::Minor, "A.java", 10, "x")];
    assert!(filter_baseline(vs, &baseline, 5).is_empty());
}

#[test]
fn baseline_tolerates_line_drift() {
    let baseline = vec![("A.java".to_string(), 10, "J001".to_string())];
    let vs = vec![Violation::new("J001", Severity::Minor, "A.java", 12, "x")];
    assert!(filter_baseline(vs, &baseline, 5).is_empty());
    let vs2 = vec![Violation::new("J001", Severity::Minor, "A.java", 16, "x")];
    assert_eq!(filter_baseline(vs2, &baseline, 5).len(), 1);
    let vs3 = vec![Violation::new("J001", Severity::Minor, "A.java", 11, "x")];
    assert_eq!(filter_baseline(vs3, &baseline, 0).len(), 1);
}

#[test]
fn baseline_requires_same_file_and_rule() {
    let baseline = vec![("A.java".to_string(), 10, "J001".to_string())];
    let vs = vec![
        Violation::new("J001", Severity::Minor, "B.java", 10, "x"),
        Violation::new("J003", Severity::Minor, "A.java", 10, "x"),
    ];
    assert_eq!(filter_baseline(vs, &baseline, 5).len(), 2);
}

#[test]
fn baseline_one_to_one_matching() {
    let baseline = vec![
        ("A.java".to_string(), 10, "J001".to_string()),
        ("A.java".to_string(), 13, "J001".to_string()),
    ];
    let vs = vec![
        Violation::new("J001", Severity::Minor, "A.java", 11, "x"),
        Violation::new("J001", Severity::Minor, "A.java", 12, "x"),
    ];
    assert!(filter_baseline(vs, &baseline, 5).is_empty());
    let baseline1 = vec![("A.java".to_string(), 10, "J001".to_string())];
    let vs2 = vec![
        Violation::new("J001", Severity::Minor, "A.java", 11, "x"),
        Violation::new("J001", Severity::Minor, "A.java", 12, "x"),
    ];
    assert_eq!(filter_baseline(vs2, &baseline1, 5).len(), 1);
}

#[test]
fn baseline_prefers_the_closest_entry() {
    // The violation at 12 takes the entry at 13 (closer than 10), leaving the
    // entry at 10 for the violation at 9.
    let baseline = vec![
        ("A.java".to_string(), 10, "J001".to_string()),
        ("A.java".to_string(), 13, "J001".to_string()),
    ];
    let vs = vec![
        Violation::new("J001", Severity::Minor, "A.java", 12, "x"),
        Violation::new("J001", Severity::Minor, "A.java", 9, "y"),
        Violation::new("J001", Severity::Minor, "A.java", 20, "z"),
    ];
    let kept = filter_baseline(vs, &baseline, 5);
    assert_eq!(kept.len(), 1);
    assert_eq!(kept[0].message, "z");
}

fn mapper_with_hunks(hunks: Vec<Hunk>) -> LineMapper {
    LineMapper::from_diffs(&[FileDiff {
        path: "src/A.java".to_string(),
        kind: DiffKind::Modified,
        line_ranges: vec![],
        hunks,
        is_new: false,
    }])
}

#[test]
fn semantic_difference_removes_translated_lines() {
    let mapper = mapper_with_hunks(vec![Hunk { old_start: 5, old_len: 0, new_start: 8, new_len: 3 }]);
    let old_vs = vec![Violation::new("J001", Severity::Minor, "src/A.java", 12, "x")];
    let new_vs = vec![
        Violation::new("J001", Severity::Minor, "src/A.java", 15, "x"),
        Violation::new("J001", Severity::Minor, "src/A.java", 30, "x"),
    ];
    let kept = semantic_difference(new_vs, old_vs, &mapper);
    assert_eq!(kept.len(), 1);
    assert_eq!(kept[0].line, 30);
}

#[test]
fn semantic_difference_keeps_new_violations() {
    let mapper = mapper_with_hunks(vec![]);
    let old_vs = vec![Violation::new("J001", Severity::Minor, "src/A.java", 10, "x")];
    let new_vs = vec![
        Violation::new("J001", Severity::Minor, "src/A.java", 11, "x"),
        Violation::new("J003", Severity::Minor, "src/A.java", 10, "x"),
    ];
    let kept = semantic_difference(new_vs, old_vs, &mapper);
    assert_eq!(kept.len(), 2);
}

#[test]
fn semantic_difference_deleted_lines_not_known() {
    let mapper = mapper_with_hunks(vec![Hunk { old_start: 5, old_len: 3, new_start: 5, new_len: 0 }]);
    let old_vs = vec![Violation::new("J001", Severity::Minor, "src/A.java", 6, "x")];
    let new_vs = vec![Violation::new("J001", Severity::Minor, "src/A.java", 5, "x")];
    let kept = semantic_difference(new_vs, old_vs, &mapper);
    assert_eq!(kept.len(), 1);
}

#[test]
fn filter_baseline_mapped_translates_lines() {
    let mapper = mapper_with_hunks(vec![Hunk { old_start: 3, old_len: 0, new_start: 5, new_len: 2 }]);
    let baseline = vec![("src/A.java".to_string(), 10, "J001".to_string())];
    let vs = vec![
        Violation::new("J001", Severity::Minor, "src/A.java", 12, "x"),
        Violation::new("J001", Severity::Minor, "src/A.java", 11, "x"),
    ];
    let kept = filter_baseline_mapped(vs, &baseline, &mapper);
    assert_eq!(kept.len(), 1);
    assert_eq!(kept[0].line, 11);
}

#[test]
fn filter_baseline_mapped_deleted_line_not_known() {
    let mapper = mapper_with_hunks(vec![Hunk { old_start: 10, old_len: 2, new_start: 10, new_len: 0 }]);
    let baseline = vec![("src/A.java".to_string(), 11, "J001".to_string())];
    let vs = vec![Violation::new("J001", Severity::Minor, "src/A.java", 11, "x")];
    let kept = filter_baseline_mapped(vs, &baseline, &mapper);
    assert_eq!(kept.len(), 1);
}

#[test]
fn resolve_old_ref_forms() {
    assert_eq!(old_side("HEAD~1"), OldRef::Ref("HEAD~1".to_string()));
    assert_eq!(old_side("main..feature"), OldRef::Ref("main".to_string()));
    assert_eq!(old_side("v1.0"), OldRef::Ref("v1.0".to_string()));
    assert_eq!(
        old_side("main...feature"),
        OldRef::MergeBase("main".to_string(), "feature".to_string())
    );
}

#[test]
fn find_parser_jar_explicit_missing_errors() {
    let res = find_parser_jar(Some("/no/such/java-parser.jar"), false, &[]);
    assert!(res.is_err());
    assert_eq!(res.unwrap_err(), "parser jar not found: /no/such/java-parser.jar");
}

#[test]
fn find_parser_jar_takes_first_existing_default() {
    assert_eq!(find_parser_jar(Some("/x.jar"), true, &[]).unwrap(), "/x.jar");
    let candidates = vec![
        ("a.jar".to_string(), false),
        ("b.jar".to_string(), true),
        ("c.jar".to_string(), true),
    ];
    assert_eq!(find_parser_jar(None, false, &candidates).unwrap(), "b.jar");
    assert!(find_parser_jar(None, false, &candidates[..1]).unwrap_err().starts_with("java-parser.jar not found"));
}

#[test]
fn load_rules_file_duplicate_id_errors() {
    let ids = vec!["J001".to_string(), "J002".to_string(), "J001".to_string()];
    assert_eq!(check_unique_ids(&ids).unwrap_err(), "duplicate rule ID: J001");
    assert!(check_unique_ids(&ids[..2]).is_ok());
}

#[test]
fn option_lists_are_trimmed_and_skip_empty_items() {
    assert_eq!(split_list(" J008, J009 ,,"), vec!["J008".to_string(), "J009".to_string()]);
    assert!(split_list("").is_empty());
}

#[test]
fn include_filter_matches_substrings_with_slashes() {
    assert!(path_included("C:\\repo\\src\\main\\A.java", &["src/main".to_string()]));
    assert!(!path_included("/repo/src/test/A.java", &["src/main".to_string()]));
    assert!(path_included("/repo/x.java", &[]));
}

#[test]
fn diff_paths_are_rebased_on_the_scan_root() {
    assert_eq!(rebase_diff_path("mod/src/A.java", "/repo", "/repo/mod"), "src/A.java");
    assert_eq!(rebase_diff_path("other/B.java", "/repo/", "/repo/mod"), "/repo/other/B.java");
    assert_eq!(rebase_diff_path("/repo/mod", "/repo", "/repo/mod"), "");
    assert_eq!(rebase_diff_path("a\\b.java", "C:\\repo", "C:\\repo"), "a/b.java");
}

#[test]
fn scan_root_normalizes_windows_extended_prefix() {
    assert_eq!(strip_extended_prefix("\\\\?\\C:\\foo"), "C:\\foo");
    assert_eq!(strip_extended_prefix("/home/foo"), "/home/foo");
}

#[test]
fn git_root_is_the_nearest_directory_with_git() {
    let root = find_git_root("/work/repo/src/main", |p: &String| p == "/work/repo").unwrap();
    assert_eq!(root, "/work/repo");
    assert!(find_git_root("/work/none", |_: &String| false).is_err());
}

fn loop_unit() -> CompilationUnit {
    let body = Stmt::BlockStmt(BlockStmt { statements: vec![], line: 4, end_line: 6 });
    let while_true = Stmt::WhileStmt(WhileStmt {
        condition: Expr::LiteralExpr(LiteralExpr {
            value: "true".to_string(),
            literal_type: Some("boolean".to_string()),
            line: 4,
        }),
        body: Box::new(body),
        line: 4,
    });
    CompilationUnit {
        package: None,
        imports: vec![],
        types: vec![TypeDecl::ClassDeclaration(ClassDecl {
            name: "Loop".to_string(),
            modifiers: vec![],
            annotations: vec![],
            extends: None,
            implements: vec![],
            members: vec![MemberDecl::MethodDeclaration(MethodDecl {
                name: "run".to_string(),
                modifiers: vec![],
                annotations: vec![],
                return_type: Some("void".to_string()),
                parameters: vec![],
                body: Some(BlockStmt { statements: vec![while_true], line: 3, end_line: 7 }),
                line: 3,
                end_line: 7,
            })],
            line: 1,
            end_line: 8,
        })],
        source_file: "Loop.java".to_string(),
        source_lines: vec![],
        raw_json: String::new(),
    }
}

fn entry(id: &str, severity: &str, enabled: bool) -> RuleEntry {
    RuleEntry {
        id: id.to_string(),
        name: "n".to_string(),
        group: None,
        description: None,
        script_path: format!("builtin:{id}"),
        applies_to: vec!["java".to_string()],
        severity: severity.to_string(),
        enabled,
        params: None,
    }
}

#[test]
fn builtin_rules_are_j008_and_j009() {
    let rules = builtin_rules();
    assert_eq!(rules.len(), 2);
    assert_eq!(rules[0].id().0, "J008");
    assert_eq!(rules[1].id().0, "J009");
    assert_eq!(rules[1].span_policy(), SpanPolicy::Intersect);
}

#[test]
fn run_rules_skips_disabled_rules() {
    let unit = loop_unit();
    let mut rules: Vec<ScanRule> = builtin_rules().into_iter().map(ScanRule::Builtin).collect();
    let vs = run_rules(&unit, &rules);
    assert_eq!(vs.len(), 1);
    assert_eq!(vs[0].rule_id.0, "J009");
    let j009 = match rules.pop() {
        Some(ScanRule::Builtin(b)) => b,
        _ => panic!("expected a built-in rule"),
    };
    rules.push(ScanRule::Overridden(BuiltinRuleOverride::new(j009, &entry("J009", "critical", false))));
    assert!(run_rules(&unit, &rules).is_empty());
}

#[test]
fn overridden_builtin_takes_entry_severity() {
    let rule = match builtin_rules().pop() {
        Some(b) => b,
        None => panic!("no rules"),
    };
    let r = ScanRule::Overridden(BuiltinRuleOverride::new(rule, &entry("J009", "critical", true)));
    assert_eq!(r.severity(), Severity::Critical);
    let rule2: BuiltinRule = builtin_rules().remove(0);
    let r2 = ScanRule::Overridden(BuiltinRuleOverride::new(rule2, &entry("J008", "warning", true)));
    assert_eq!(r2.severity(), Severity::Major);
}

#[test]
fn rule_selection_applies_enable_disable_and_min_severity() {
    let rules: Vec<ScanRule> = builtin_rules().into_iter().map(ScanRule::Builtin).collect();
    let kept = select_rules(rules, &[], &["J008".to_string()], Severity::Info);
    assert_eq!(kept.len(), 1);
    assert_eq!(kept[0].id().0, "J009");
    let rules: Vec<ScanRule> = builtin_rules().into_iter().map(ScanRule::Builtin).collect();
    let kept = select_rules(rules, &["J008".to_string()], &[], Severity::Info);
    assert_eq!(kept.len(), 1);
    assert_eq!(kept[0].id().0, "J008");
    let rules: Vec<ScanRule> = builtin_rules().into_iter().map(ScanRule::Builtin).collect();
    assert!(select_rules(rules, &[], &[], Severity::Critical).is_empty());
}

#[test]
fn incremental_filter_uses_rule_span_policy() {
    let rules: Vec<ScanRule> = builtin_rules().into_iter().map(ScanRule::Builtin).collect();
    let filter = LineFilter::from_diffs(&[FileDiff {
        path: "Loop.java".to_string(),
        kind: DiffKind::Modified,
        line_ranges: vec![LineRange { start: 5, end: 5 }],
        hunks: vec![],
        is_new: false,
    }]);
    let mut j009 = Violation::new("J009", Severity::Major, "Loop.java", 4, "x");
    j009.end_line = Some(6);
    let mut j008 = Violation::new("J008", Severity::Major, "Loop.java", 4, "y");
    j008.end_line = Some(6);
    assert_eq!(rule_policy(&j009, &rules), SpanPolicy::Intersect);
    assert_eq!(rule_policy(&j008, &rules), SpanPolicy::Anchor);
    let kept = filter_changed(vec![j009, j008], "Loop.java", &filter, &rules);
    assert_eq!(kept.len(), 1);
    assert_eq!(kept[0].rule_id.0, "J009");
}

#[test]
fn empty_baseline_keeps_every_violation() {
    let vs = vec![
        Violation::new("J001", Severity::Minor, "A.java", 1, "a"),
        Violation::new("J001", Severity::Minor, "A.java", 1, "b"),
    ];
    assert_eq!(filter_baseline(vs, &[], 5).len(), 2);
}

fn strings(v: &[&str]) -> Vec<String> {
    v.iter().map(|s| s.to_string()).collect()
}

#[test]
fn command_line_ids_override_the_project_file() {
    let configured = strings(&["J001"]);
    assert_eq!(effective_ids(Some(" J008 , ,J009"), &configured), strings(&["J008", "J009"]));
    assert_eq!(effective_ids(Some(""), &configured), configured);
    assert_eq!(effective_ids(None, &configured), configured);
}

#[test]
fn excludes_default_then_project_file() {
    let configured = strings(&["gen"]);
    assert_eq!(
        effective_excludes(None, &configured),
        strings(&["target", "build", ".git", "node_modules", "gen"])
    );
    assert_eq!(effective_excludes(Some("out, tmp"), &configured), strings(&["out", "tmp", "gen"]));
    assert_eq!(effective_excludes(Some(""), &[]), Vec::<String>::new());
}

#[test]
fn includes_from_command_line_or_project_file() {
    let configured = strings(&["src/main"]);
    assert_eq!(effective_includes(Some("a,b"), &configured), strings(&["a", "b"]));
    assert_eq!(effective_includes(Some(""), &configured), Vec::<String>::new());
    assert_eq!(effective_includes(None, &configured), configured);
}

#[test]
fn encoding_auto_defers_to_project_file() {
    assert_eq!(effective_encoding("gbk", Some("utf-8")), "gbk");
    assert_eq!(effective_encoding("auto", Some("utf-8")), "utf-8");
    assert_eq!(effective_encoding("auto", None), "auto");
}

#[test]
fn min_severity_from_command_line_project_file_or_info() {
    assert_eq!(effective_min_severity("Major", Some("minor")).unwrap(), Severity::Major);
    assert_eq!(effective_min_severity("", Some("minor")).unwrap(), Severity::Minor);
    assert_eq!(effective_min_severity("", None).unwrap(), Severity::Info);
    assert_eq!(effective_min_severity("loud", None).unwrap_err().0, "loud");
}

#[test]
fn rules_file_from_command_line_project_file_or_default() {
    assert_eq!(effective_rules_file(Some("a.toml"), Some("b.toml")), "a.toml");
    assert_eq!(effective_rules_file(None, Some("b.toml")), "b.toml");
    assert_eq!(effective_rules_file(None, None), "javaguard.rules.toml");
}

#[test]
fn changed_file_compares_with_slashes() {
    let diffs = vec![FileDiff {
        path: "src/A.java".to_string(),
        kind: DiffKind::Modified,
        line_ranges: vec![],
        hunks: vec![],
        is_new: false,
    }];
    assert!(changed_file("src\\A.java", &diffs));
    assert!(changed_file("src/A.java", &diffs));
    assert!(!changed_file("src/B.java", &diffs));
    assert!(!changed_file("src/A.java", &[]));
}

#[test]
fn narrow_findings_by_mode() {
    let rules: Vec<ScanRule> = builtin_rules().into_iter().map(ScanRule::Builtin).collect();
    let filter = LineFilter::from_diffs(&[FileDiff {
        path: "src/A.java".to_string(),
        kind: DiffKind::Modified,
        line_ranges: vec![LineRange { start: 15, end: 15 }],
        hunks: vec![],
        is_new: false,
    }]);
    let mapper = mapper_with_hunks(vec![Hunk { old_start: 5, old_len: 0, new_start: 8, new_len: 3 }]);
    let found = || {
        vec![
            Violation::new("J008", Severity::Major, "src/A.java", 15, "x"),
            Violation::new("J008", Severity::Major, "src/A.java", 30, "x"),
        ]
    };
    let old = vec![Violation::new("J008", Severity::Major, "src/A.java", 12, "x")];

    let semantic = narrow_findings(found(), "src/A.java", Some(old.clone()), Some(&mapper), &filter, &rules);
    assert_eq!(semantic.len(), 1);
    assert_eq!(semantic[0].line, 30);

    let unmapped = narrow_findings(found(), "src/A.java", Some(old), None, &filter, &rules);
    assert_eq!(unmapped.len(), 2);

    let incremental = narrow_findings(found(), "src/A.java", None, None, &filter, &rules);
    assert_eq!(incremental.len(), 1);
    assert_eq!(incremental[0].line, 15);

    let full = narrow_findings(found(), "src/A.java", None, None, &LineFilter::all(), &rules);
    assert_eq!(full.len(), 2);
}

#[test]
fn script_kind_by_extension() {
    assert_eq!(script_kind("yml"), ScriptKind::Yaml);
    assert_eq!(script_kind("yaml"), ScriptKind::Yaml);
    assert_eq!(script_kind("rhai"), ScriptKind::Rhai);
    assert_eq!(script_kind("YAML"), ScriptKind::Unsupported);
    assert_eq!(script_kind(""), ScriptKind::Unsupported);
}

#[test]
fn git_root_probes_start_then_each_parent() {
    let asked = std::cell::RefCell::new(Vec::<String>::new());
    let root = find_git_root("/work/repo/src/main", |p: &String| {
        asked.borrow_mut().push(p.clone());
        p == "/work/repo" || p == "/work"
    })
    .unwrap();
    assert_eq!(root, "/work/repo");
    assert_eq!(*asked.borrow(), vec!["/work/repo/src/main", "/work/repo/src", "/work/repo"]);
    asked.borrow_mut().clear();
    assert!(find_git_root("/a/b", |p: &String| {
        asked.borrow_mut().push(p.clone());
        false
    })
    .is_err());
    assert_eq!(*asked.borrow(), vec!["/a/b", "/a", "/"]);
}

#[test]
fn semantic_diff_needs_a_diff() {
    assert_eq!(
        check_semantic_diff(true, None).unwrap_err(),
        "--semantic-diff requires --diff (e.g. --diff HEAD~1)"
    );
    assert!(check_semantic_diff(true, Some("HEAD~1")).is_ok());
    assert!(check_semantic_diff(false, None).is_ok());
}

#[test]
fn gate_file_over_project_over_default() {
    let file = GateConfig { max_critical: 1, max_major: 2, max_minor: 3, max_info: 4 };
    let project = GateConfig { max_critical: 5, max_major: 6, max_minor: 7, max_info: 8 };
    assert_eq!(chosen_gate(Some(file), Some(project)).max_major, 2);
    assert_eq!(chosen_gate(None, Some(project)).max_major, 6);
    let d = chosen_gate(None, None);
    assert_eq!((d.max_critical, d.max_major, d.max_minor, d.max_info), (0, 0, usize::MAX, usize::MAX));
}

#[test]
fn apply_baseline_by_mapper_or_tolerance() {
    let baseline = vec![("src/A.java".to_string(), 12, "J001".to_string())];
    let mapper = mapper_with_hunks(vec![Hunk { old_start: 5, old_len: 0, new_start: 8, new_len: 3 }]);
    let vs = || vec![Violation::new("J001", Severity::Minor, "src/A.java", 15, "x")];
    assert!(apply_baseline(vs(), &baseline, Some(&mapper), 0).is_empty());
    assert_eq!(apply_baseline(vs(), &baseline, None, 2).len(), 1);
    assert!(apply_baseline(vs(), &baseline, None, 3).is_empty());
}
