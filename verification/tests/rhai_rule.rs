use java_guard::rhai_rule::{
    parse_rhai_script, parse_violations, HeaderParam, RhaiParams, RhaiRule, RhaiRuleError,
    ScriptHit, ScriptItem, ScriptResult, EngineError,
};
use java_guard::rule::{Severity, SpanPolicy};

fn header_param<'a>(rule: &'a RhaiRule, key: &str) -> Option<&'a HeaderParam> {
    match &rule.params {
        RhaiParams::Header(m) => m.iter().find(|(k, _)| k == key).map(|(_, v)| v),
        _ => panic!("expected mapping"),
    }
}

#[test]
fn parse_pure_rhai_script() {
    let script = r#"
//! rule: J006
//! title: 方法不超过 50 行
//! severity: minor
//! category: code-smell
//! params: max_lines=50

let violations = [];
let max_lines = config["max_lines"];
if max_lines == () { max_lines = 50; }
violations
"#;
    let rule = parse_rhai_script(script).unwrap();
    assert_eq!(rule.id, "J006");
    assert_eq!(rule.title, "方法不超过 50 行");
    assert_eq!(rule.severity, "minor");
    assert_eq!(rule.category, "code-smell");
    assert!(rule.enabled);
    assert!(rule.script.contains("let violations = []"));
    assert!(rule.script.contains("config[\"max_lines\"]"));
    assert_eq!(header_param(&rule, "max_lines"), Some(&HeaderParam::Int(50)));
}

#[test]
fn parse_rhai_script_missing_id_errors() {
    let script = "//! title: no id\nlet x = 1;";
    assert!(parse_rhai_script(script).is_err());
}

#[test]
fn parse_rhai_script_default_severity() {
    let script = "//! rule: J999\nlet x = 1;";
    let rule = parse_rhai_script(script).unwrap();
    assert_eq!(rule.id, "J999");
    assert_eq!(rule.severity, "minor");
    assert_eq!(rule.title, "J999");
}

#[test]
fn parse_rhai_script_enabled_case_insensitive() {
    let script = "//! rule: J101\n//! enabled: True\nlet x = 1;";
    let rule = parse_rhai_script(script).unwrap();
    assert!(rule.enabled);

    let script = "//! rule: J102\n//! enabled: OFF\nlet x = 1;";
    let rule = parse_rhai_script(script).unwrap();
    assert!(!rule.enabled);

    let script = "//! rule: J103\n//! enabled: YES\nlet x = 1;";
    let rule = parse_rhai_script(script).unwrap();
    assert!(rule.enabled);
}

#[test]
fn parse_rhai_script_invalid_enabled_errors() {
    let script = "//! rule: J104\n//! enabled: maybe\nlet x = 1;";
    assert!(parse_rhai_script(script).is_err());
}

#[test]
fn parse_rhai_script_keeps_body_comments() {
    let script = "\
//! rule: J105
//! title: 保留正文注释

// 正文开头的注释块
// 应当原样保留
let x = 1;
x
";
    let rule = parse_rhai_script(script).unwrap();
    assert_eq!(rule.id, "J105");
    assert!(rule.script.contains("// 正文开头的注释块"), "script: {}", rule.script);
    assert!(rule.script.contains("// 应当原样保留"), "script: {}", rule.script);
}

#[test]
fn parse_rhai_script_strips_utf8_bom() {
    let script = "\u{FEFF}//! rule: J106\n//! severity: major\nlet x = 1;";
    let rule = parse_rhai_script(script).unwrap();
    assert_eq!(rule.id, "J106");
    assert_eq!(rule.severity, "major");
    assert!(rule.script.contains("let x = 1;"));
}

#[test]
fn parse_rhai_script_error_messages() {
    match parse_rhai_script("//! rule: J104\n//! enabled: maybe\nlet x = 1;") {
        Err(RhaiRuleError::Compile(m)) => {
            assert_eq!(m, "invalid `enabled` value `maybe` in .rhai file header")
        }
        other => panic!("unexpected: {other:?}"),
    }
    match parse_rhai_script("let x = 1;") {
        Err(RhaiRuleError::Compile(m)) => {
            assert_eq!(m, "missing `//! rule:` metadata in .rhai file header")
        }
        other => panic!("unexpected: {other:?}"),
    }
}

#[test]
fn parse_rhai_script_params_classified() {
    let script = "//! id: J100\n//! name: N\n//! params: a=1, b = true ,c=foo,a=-7,d\nbody";
    let rule = parse_rhai_script(script).unwrap();
    assert_eq!(rule.title, "N");
    assert_eq!(rule.span_policy, SpanPolicy::Anchor);
    match &rule.params {
        RhaiParams::Header(m) => {
            assert_eq!(
                m,
                &vec![
                    ("a".to_string(), HeaderParam::Int(-7)),
                    ("b".to_string(), HeaderParam::Bool(true)),
                    ("c".to_string(), HeaderParam::Text("foo".to_string())),
                ]
            );
        }
        _ => panic!("expected mapping"),
    }
    assert!(matches!(parse_rhai_script("//! rule: X\nx").unwrap().params, RhaiParams::Null));
}

#[test]
fn parse_rhai_script_header_ends_at_first_other_line() {
    let script = "\n\n//! rule: J1\n\n//! title: late\nscript";
    let rule = parse_rhai_script(script).unwrap();
    assert_eq!(rule.title, "J1");
    assert_eq!(rule.script, "\n//! title: late\nscript");
}

#[test]
fn rhai_rule_severity_and_validation() {
    let mut rule = parse_rhai_script("//! rule: J7\n//! severity: Critical\n  ").unwrap();
    assert_eq!(rule.severity(), Severity::Critical);
    assert_eq!(rule.rule_id().0, "J7");
    assert_eq!(rule.validate().unwrap_err(), vec!["empty script".to_string()]);
    rule.severity = "loud".to_string();
    assert_eq!(rule.severity(), Severity::Minor);
    rule.script = "1".to_string();
    assert_eq!(rule.validate().unwrap_err(), vec!["invalid severity `loud`".to_string()]);
}

#[test]
fn script_results_become_violations() {
    let result = ScriptResult::Items(vec![
        ScriptItem::Record(ScriptHit { line: Some(7), end_line: None, message: Some("rhai hit".to_string()) }),
        ScriptItem::Record(ScriptHit { line: None, end_line: Some(9), message: None }),
    ]);
    let vs = parse_violations(&result, "J006", Severity::Minor, "T.java").unwrap();
    assert_eq!(vs.len(), 2);
    assert_eq!(vs[0].rule_id.0, "J006");
    assert_eq!(vs[0].line, 7);
    assert_eq!(vs[0].message, "rhai hit");
    assert_eq!(vs[1].line, 0);
    assert_eq!(vs[1].end_line, Some(9));
    assert_eq!(vs[1].message, "violation");
}

#[test]
fn script_results_of_wrong_type_are_errors() {
    match parse_violations(&ScriptResult::NotArray("i64".to_string()), "J", Severity::Minor, "f") {
        Err(EngineError::ReturnType(t)) => assert_eq!(t, "i64"),
        other => panic!("unexpected: {other:?}"),
    }
    let result = ScriptResult::Items(vec![
        ScriptItem::Record(ScriptHit { line: Some(1), end_line: None, message: None }),
        ScriptItem::Other("string".to_string()),
    ]);
    match parse_violations(&result, "J", Severity::Minor, "f") {
        Err(EngineError::ReturnType(t)) => assert_eq!(t, "expected map, got string"),
        other => panic!("unexpected: {other:?}"),
    }
}
