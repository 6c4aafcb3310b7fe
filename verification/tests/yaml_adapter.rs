use java_guard::ast::{CompilationUnit, TypeDecl, ClassDecl, MemberDecl, MethodDecl, Stmt, ExprStmt, BlockStmt, Expr, MethodCallExpr};
use java_guard::rule::{Rule, Severity, SpanPolicy};
use java_guard::yaml_adapter::YamlRuleAdapter;
use java_guard::yaml_rule::{MatchValue, Pattern, PatternKind, YamlRule};

fn sysout_unit() -> CompilationUnit {
    CompilationUnit {
        package: Some("com.example".to_string()),
        imports: vec![],
        types: vec![TypeDecl::ClassDeclaration(ClassDecl {
            name: "Demo".to_string(),
            modifiers: vec!["public".to_string()],
            annotations: vec![],
            extends: None,
            implements: vec![],
            members: vec![MemberDecl::MethodDeclaration(MethodDecl {
                name: "run".to_string(),
                modifiers: vec![],
                annotations: vec![],
                return_type: Some("void".to_string()),
                parameters: vec![],
                body: Some(BlockStmt {
                    statements: vec![Stmt::ExpressionStmt(ExprStmt {
                        expr: Expr::MethodCallExpr(MethodCallExpr {
                            callee: Some("System.out".to_string()),
                            method_name: "println".to_string(),
                            arguments: vec![],
                            line: 5,
                        }),
                        line: 5,
                    })],
                    line: 4,
                    end_line: 6,
                }),
                line: 4,
                end_line: 6,
            })],
            line: 1,
            end_line: 8,
        })],
        source_file: "Demo.java".to_string(),
        source_lines: vec![],
        raw_json: String::new(),
    }
}

/// The rule a YAML file with these fields describes.
fn sysout_rule(message: &str, enabled: bool) -> YamlRule {
    YamlRule {
        id: "J001".to_string(),
        title: "禁止 System.out.println".to_string(),
        severity: "minor".to_string(),
        category: String::new(),
        pattern: Pattern::new(
            PatternKind::MethodCall,
            vec![
                ("callee".to_string(), MatchValue::Single("System.out".to_string())),
                ("method".to_string(), MatchValue::Single("println".to_string())),
            ],
        ),
        message: message.to_string(),
        enabled,
        params: serde_yaml::Value::Null,
        span_policy: SpanPolicy::Anchor,
    }
}

#[test]
fn adapter_exposes_rule_metadata() {
    let adapter = YamlRuleAdapter::new(sysout_rule("不要使用 System.out.println", true));
    assert_eq!(adapter.id().0, "J001");
    assert_eq!(adapter.description(), "禁止 System.out.println");
    assert_eq!(adapter.severity(), Severity::Minor);
    assert!(adapter.enabled());
}

#[test]
fn adapter_check_unit_produces_violation() {
    let adapter = YamlRuleAdapter::new(sysout_rule("不要使用 {callee}.{method}", true));
    let vs = adapter.check_unit(&sysout_unit());
    assert_eq!(vs.len(), 1);
    assert_eq!(vs[0].rule_id.0, "J001");
    assert_eq!(vs[0].line, 5);
    assert_eq!(vs[0].message, "不要使用 System.out.println");
}

#[test]
fn adapter_skips_disabled_rule() {
    let adapter = YamlRuleAdapter::new(sysout_rule("x", false));
    assert!(!adapter.enabled());
    let vs = adapter.check_unit(&sysout_unit());
    assert_eq!(vs.len(), 1);
}

#[test]
fn adapter_reports_unknown_file_for_unnamed_unit() {
    let adapter = YamlRuleAdapter::new(sysout_rule("x", true));
    let mut unit = sysout_unit();
    unit.source_file = String::new();
    let vs = adapter.check_unit(&unit);
    assert_eq!(vs[0].file, "<unknown>");
}

#[test]
fn validate_rejects_unknown_field_and_bad_severity() {
    let mut rule = sysout_rule("x", true);
    rule.pattern = Pattern::new(
        PatternKind::Import,
        vec![("callee".to_string(), MatchValue::Single("x".to_string()))],
    );
    rule.severity = "warning".to_string();
    let errors = rule.validate().unwrap_err();
    assert_eq!(errors.len(), 2);
    assert!(errors[0].starts_with("unknown match_fields key `callee`"));
    assert_eq!(errors[1], "invalid severity `warning`");
    assert!(sysout_rule("x", true).validate().is_ok());
}

#[test]
fn pattern_keeps_last_value_of_repeated_key() {
    let p = Pattern::new(
        PatternKind::MethodCall,
        vec![
            ("method".to_string(), MatchValue::Single("a".to_string())),
            ("callee".to_string(), MatchValue::Single("b".to_string())),
            ("method".to_string(), MatchValue::Single("c".to_string())),
        ],
    );
    assert_eq!(p.get("method"), Some(&MatchValue::Single("c".to_string())));
    assert_eq!(p.match_fields.len(), 2);
    assert_eq!(p.match_fields[0].0, "callee");
}
