use java_guard::ast::{CompilationUnit, ImportDecl, TypeDecl, ClassDecl, MemberDecl, FieldDecl, MethodDecl, Annotation, Stmt, ExprStmt, BlockStmt, Expr, MethodCallExpr};
use java_guard::matcher::{match_pattern, render_message, value_matches};
use java_guard::rule::Severity;
use java_guard::yaml_rule::{MatchValue, Pattern, PatternKind};
fn make_unit() -> CompilationUnit {
    CompilationUnit {
        package: Some("com.example".to_string()),
        imports: vec![
            ImportDecl { package: "java.util.*".to_string(), is_wildcard: true, is_static: false, line: 1 },
            ImportDecl { package: "java.util.List".to_string(), is_wildcard: false, is_static: false, line: 2 },
        ],
        types: vec![
            TypeDecl::ClassDeclaration(ClassDecl {
                name: "badName".to_string(),
                modifiers: vec!["public".to_string()],
                annotations: vec![],
                extends: None,
                implements: vec![],
                members: vec![
                    MemberDecl::MethodDeclaration(MethodDecl {
                        name: "doStuff".to_string(),
                        modifiers: vec!["public".to_string()],
                        annotations: vec![],
                        return_type: Some("void".to_string()),
                        parameters: vec![],
                        body: Some(BlockStmt {
                            statements: vec![
                                Stmt::ExpressionStmt(ExprStmt {
                                    expr: Expr::MethodCallExpr(MethodCallExpr {
                                        callee: Some("System.out".to_string()),
                                        method_name: "println".to_string(),
                                        arguments: vec![],
                                        line: 5,
                                    }),
                                    line: 5,
                                }),
                            ],
                            line: 4,
                            end_line: 6,
                        }),
                        line: 4,
                        end_line: 6,
                    }),
                ],
                line: 3,
                end_line: 7,
            }),
        ],
        source_file: "Test.java".to_string(),
        source_lines: vec![],
        raw_json: String::new(),
    }
}

#[test]
fn match_method_call() {
    let unit = make_unit();
    let pattern = Pattern::new(PatternKind::MethodCall, vec![
            ("callee".to_string(), MatchValue::Single("System.out".to_string())),
            ("method".to_string(), MatchValue::Single("println".to_string())),
        ]);
    let vs = match_pattern(&pattern, &unit, "Test.java", "J001", Severity::Minor, "call {callee}.{method} at {line}");
    assert_eq!(vs.len(), 1);
    assert_eq!(vs[0].line, 5);
    assert_eq!(vs[0].message, "call System.out.println at 5");
}

#[test]
fn match_import_wildcard() {
    let unit = make_unit();
    let pattern = Pattern::new(PatternKind::Import, vec![("is_wildcard".to_string(), MatchValue::Single("true".to_string()))]);
    let vs = match_pattern(&pattern, &unit, "Test.java", "J003", Severity::Minor, "test");
    assert_eq!(vs.len(), 1);
    assert_eq!(vs[0].line, 1);
}

#[test]
fn match_class_name_regex() {
    let unit = make_unit();
    let pattern = Pattern::new(PatternKind::ClassDeclaration, vec![("name".to_string(), MatchValue::Single("^[a-z]".to_string()))]);
    let vs = match_pattern(&pattern, &unit, "Test.java", "J004", Severity::Minor, "test");
    assert_eq!(vs.len(), 1); // "badName" 以小写开头
}

#[test]
fn match_value_any_of() {
    let unit = make_unit();
    // any_of：callee 为 System.out 或 System.err 都应命中
    let pattern = Pattern::new(PatternKind::MethodCall, vec![
            ("callee".to_string(), MatchValue::Any(vec!["System.out".to_string(), "System.err".to_string()])),
            ("method".to_string(), MatchValue::Any(vec!["print".to_string(), "println".to_string(), "printf".to_string()])),
        ]);
    let vs = match_pattern(&pattern, &unit, "Test.java", "J001", Severity::Minor, "no sysout");
    assert_eq!(vs.len(), 1);
}

#[test]
fn match_method_decl_nested_class() {
    // 深层嵌套类里的方法也应被 MethodDeclaration 检出（递归一致）
    let unit = CompilationUnit {
        package: None,
        imports: vec![],
        types: vec![TypeDecl::ClassDeclaration(ClassDecl {
            name: "Outer".to_string(),
            modifiers: vec![],
            annotations: vec![],
            extends: None,
            implements: vec![],
            members: vec![MemberDecl::ClassDeclaration(ClassDecl {
                name: "Inner".to_string(),
                modifiers: vec![],
                annotations: vec![],
                extends: None,
                implements: vec![],
                members: vec![MemberDecl::MethodDeclaration(MethodDecl {
                    name: "BADNAME".to_string(),
                    modifiers: vec![],
                    annotations: vec![],
                    return_type: None,
                    parameters: vec![],
                    body: None,
                    line: 10,
                    end_line: 10,
                })],
                line: 8,
                end_line: 12,
            })],
            line: 1,
            end_line: 20,
        })],
        source_file: "T.java".to_string(),
        source_lines: vec![],
        raw_json: String::new(),
    };
    let pattern = Pattern::new(PatternKind::MethodDeclaration, vec![("name".to_string(), MatchValue::Single("^[A-Z]+$".to_string()))]);
    let vs = match_pattern(&pattern, &unit, "T.java", "J005", Severity::Minor, "bad method {name}");
    assert_eq!(vs.len(), 1);
    assert_eq!(vs[0].line, 10);
    assert_eq!(vs[0].message, "bad method BADNAME");
}

// ── value_matches 单测（精确 / glob / 正则 / any_of）──

#[test]
fn value_matches_exact() {
    assert!(value_matches(&MatchValue::Single("System.out".to_string()), "System.out"));
    assert!(!value_matches(&MatchValue::Single("System.out".to_string()), "System.err"));
}

#[test]
fn value_matches_glob() {
    assert!(value_matches(&MatchValue::Single("Sys*".to_string()), "System.out"));
    assert!(value_matches(&MatchValue::Single("*out".to_string()), "System.out"));
    assert!(!value_matches(&MatchValue::Single("Foo*".to_string()), "Bar"));
    // 裸 "*" 匹配任意
    assert!(value_matches(&MatchValue::Single("*".to_string()), "anything"));
}

#[test]
fn value_matches_regex() {
    assert!(value_matches(&MatchValue::Single("^[a-z]".to_string()), "badName"));
    assert!(!value_matches(&MatchValue::Single("^[a-z]".to_string()), "GoodName"));
    // 含正则元字符才走正则；纯字符串走精确/通配
    assert!(value_matches(&MatchValue::Single("^J[0-9]+$".to_string()), "J007"));
    assert!(!value_matches(&MatchValue::Single("^J[0-9]+$".to_string()), "X007"));
}

#[test]
fn value_matches_any_of() {
    let v = MatchValue::Any(vec!["System.out".to_string(), "System.err".to_string()]);
    assert!(value_matches(&v, "System.err"));
    assert!(value_matches(&v, "System.out"));
    assert!(!value_matches(&v, "java.lang"));
}

// ── render_message 单测 ──

#[test]
fn render_message_substitutes() {
    let ctx = vec![
        ("callee", "System.out".to_string()),
        ("method", "println".to_string()),
    ];
    assert_eq!(
        render_message("{callee}.{method} called", &ctx),
        "System.out.println called"
    );
}

#[test]
fn render_message_keeps_unknown() {
    let ctx = vec![("callee", "X".to_string())];
    assert_eq!(
        render_message("{callee} {unknown}", &ctx),
        "X {unknown}"
    );
}

// ── 各 PatternKind 匹配单测 ──

#[test]
fn match_annotation_by_name() {
    let unit = CompilationUnit {
        package: None,
        imports: vec![],
        types: vec![TypeDecl::ClassDeclaration(ClassDecl {
            name: "Controller".to_string(),
            modifiers: vec![],
            annotations: vec![Annotation {
                name: "RestController".to_string(),
                members: vec![],
                line: 1,
            }],
            extends: None,
            implements: vec![],
            members: vec![],
            line: 1,
            end_line: 5,
        })],
        source_file: "T.java".to_string(),
        source_lines: vec![],
        raw_json: String::new(),
    };
    let pattern = Pattern::new(PatternKind::Annotation, vec![(
            "name".to_string(),
            MatchValue::Single("RestController".to_string()),
        )]);
    let vs = match_pattern(&pattern, &unit, "T.java", "J009", Severity::Minor, "no {name}");
    assert_eq!(vs.len(), 1);
    assert_eq!(vs[0].message, "no RestController");
    assert_eq!(vs[0].line, 1);
}

#[test]
fn match_field_declaration() {
    let unit = CompilationUnit {
        package: None,
        imports: vec![],
        types: vec![TypeDecl::ClassDeclaration(ClassDecl {
            name: "C".to_string(),
            modifiers: vec![],
            annotations: vec![],
            extends: None,
            implements: vec![],
            members: vec![MemberDecl::FieldDeclaration(FieldDecl {
                name: "myField".to_string(),
                modifiers: vec![],
                annotations: vec![],
                field_type: Some("int".to_string()),
                initializer: None,
                line: 3,
            })],
            line: 1,
            end_line: 10,
        })],
        source_file: "T.java".to_string(),
        source_lines: vec![],
        raw_json: String::new(),
    };
    let pattern = Pattern::new(PatternKind::FieldDeclaration, vec![(
            "field_type".to_string(),
            MatchValue::Single("int".to_string()),
        )]);
    let vs = match_pattern(
        &pattern,
        &unit,
        "T.java",
        "J007",
        Severity::Minor,
        "field {name} type {field_type}",
    );
    assert_eq!(vs.len(), 1);
    assert_eq!(vs[0].message, "field myField type int");
}

#[test]
fn match_class_decl_with_modifier() {
    let unit = make_unit(); // badName 类, public 修饰符
    let pattern = Pattern::new(PatternKind::ClassDeclaration, vec![(
            "modifier".to_string(),
            MatchValue::Single("public".to_string()),
        )]);
    let vs = match_pattern(
        &pattern,
        &unit,
        "Test.java",
        "J004",
        Severity::Minor,
        "class {name} mod {modifier}",
    );
    assert_eq!(vs.len(), 1);
    assert_eq!(vs[0].message, "class badName mod public");
}

#[test]
fn match_method_decl_return_type() {
    let unit = make_unit(); // doStuff 返回 void
    let pattern = Pattern::new(PatternKind::MethodDeclaration, vec![(
            "return_type".to_string(),
            MatchValue::Single("void".to_string()),
        )]);
    let vs = match_pattern(
        &pattern,
        &unit,
        "Test.java",
        "J005",
        Severity::Minor,
        "method returns {return_type}",
    );
    assert_eq!(vs.len(), 1);
    assert_eq!(vs[0].message, "method returns void");
}

#[test]
fn match_import_package_glob() {
    let unit = make_unit();
    let pattern = Pattern::new(PatternKind::Import, vec![(
            "package".to_string(),
            MatchValue::Single("java.util.*".to_string()),
        )]);
    let vs = match_pattern(&pattern, &unit, "Test.java", "J003", Severity::Minor, "import {package}");
    // glob `java.util.*` 同时命中 `java.util.*` 与 `java.util.List`
    assert_eq!(vs.len(), 2);
    let msgs: Vec<&str> = vs.iter().map(|v| v.message.as_str()).collect();
    assert!(msgs.contains(&"import java.util.*"), "got: {msgs:?}");
    assert!(msgs.contains(&"import java.util.List"), "got: {msgs:?}");
}

#[test]
fn match_method_call_in_arguments() {
    // System.out.println(foo()) —— 嵌套调用应被递归检出
    let unit = CompilationUnit {
        package: None,
        imports: vec![],
        types: vec![TypeDecl::ClassDeclaration(ClassDecl {
            name: "C".to_string(),
            modifiers: vec![],
            annotations: vec![],
            extends: None,
            implements: vec![],
            members: vec![MemberDecl::MethodDeclaration(MethodDecl {
                name: "m".to_string(),
                modifiers: vec![],
                annotations: vec![],
                return_type: None,
                parameters: vec![],
                body: Some(BlockStmt {
                    statements: vec![Stmt::ExpressionStmt(ExprStmt {
                        expr: Expr::MethodCallExpr(MethodCallExpr {
                            callee: Some("System.out".to_string()),
                            method_name: "println".to_string(),
                            arguments: vec![Expr::MethodCallExpr(MethodCallExpr {
                                callee: None,
                                method_name: "foo".to_string(),
                                arguments: vec![],
                                line: 6,
                            })],
                            line: 5,
                        }),
                        line: 5,
                    })],
                    line: 4,
                    end_line: 7,
                }),
                line: 4,
                end_line: 7,
            })],
            line: 1,
            end_line: 8,
        })],
        source_file: "T.java".to_string(),
        source_lines: vec![],
        raw_json: String::new(),
    };
    let pattern = Pattern::new(PatternKind::MethodCall, vec![
            ("callee".to_string(), MatchValue::Single("System.out".to_string())),
            ("method".to_string(), MatchValue::Single("println".to_string())),
        ]);
    let vs = match_pattern(&pattern, &unit, "T.java", "J001", Severity::Minor, "call");
    assert_eq!(vs.len(), 1);
    assert_eq!(vs[0].line, 5);
}

#[test]
fn match_method_call_in_nested_class() {
    let unit = CompilationUnit {
        package: None,
        imports: vec![],
        types: vec![TypeDecl::ClassDeclaration(ClassDecl {
            name: "Outer".to_string(),
            modifiers: vec![],
            annotations: vec![],
            extends: None,
            implements: vec![],
            members: vec![MemberDecl::ClassDeclaration(ClassDecl {
                name: "Inner".to_string(),
                modifiers: vec![],
                annotations: vec![],
                extends: None,
                implements: vec![],
                members: vec![MemberDecl::MethodDeclaration(MethodDecl {
                    name: "inner".to_string(),
                    modifiers: vec![],
                    annotations: vec![],
                    return_type: None,
                    parameters: vec![],
                    body: Some(BlockStmt {
                        statements: vec![Stmt::ExpressionStmt(ExprStmt {
                            expr: Expr::MethodCallExpr(MethodCallExpr {
                                callee: Some("System.out".to_string()),
                                method_name: "println".to_string(),
                                arguments: vec![],
                                line: 11,
                            }),
                            line: 11,
                        })],
                        line: 10,
                        end_line: 12,
                    }),
                    line: 10,
                    end_line: 12,
                })],
                line: 8,
                end_line: 14,
            })],
            line: 1,
            end_line: 16,
        })],
        source_file: "T.java".to_string(),
        source_lines: vec![],
        raw_json: String::new(),
    };
    let pattern = Pattern::new(PatternKind::MethodCall, vec![
            ("callee".to_string(), MatchValue::Single("System.out".to_string())),
            ("method".to_string(), MatchValue::Single("println".to_string())),
        ]);
    let vs = match_pattern(&pattern, &unit, "T.java", "J001", Severity::Minor, "call");
    assert_eq!(vs.len(), 1);
    assert_eq!(vs[0].line, 11);
}

#[test]
fn match_any_of_no_match_yields_no_violation() {
    let unit = make_unit(); // callee 是 System.out
    let pattern = Pattern::new(PatternKind::MethodCall, vec![
            (
                "callee".to_string(),
                MatchValue::Any(vec!["System.err".to_string()]),
            ),
            ("method".to_string(), MatchValue::Single("println".to_string())),
        ]);
    let vs = match_pattern(&pattern, &unit, "Test.java", "J001", Severity::Minor, "x");
    assert_eq!(vs.len(), 0);
}

#[test]
fn match_class_decl_nested_class() {
    // 嵌套类名称违反 PascalCase 也应被 ClassDeclaration 递归检出
    let unit = CompilationUnit {
        package: None,
        imports: vec![],
        types: vec![TypeDecl::ClassDeclaration(ClassDecl {
            name: "Outer".to_string(),
            modifiers: vec![],
            annotations: vec![],
            extends: None,
            implements: vec![],
            members: vec![MemberDecl::ClassDeclaration(ClassDecl {
                name: "innerBad".to_string(),
                modifiers: vec![],
                annotations: vec![],
                extends: None,
                implements: vec![],
                members: vec![],
                line: 8,
                end_line: 14,
            })],
            line: 1,
            end_line: 16,
        })],
        source_file: "T.java".to_string(),
        source_lines: vec![],
        raw_json: String::new(),
    };
    let pattern = Pattern::new(PatternKind::ClassDeclaration, vec![(
            "name".to_string(),
            MatchValue::Single("^[a-z]".to_string()),
        )]);
    let vs = match_pattern(&pattern, &unit, "T.java", "J004", Severity::Minor, "bad class {name}");
    assert_eq!(vs.len(), 1);
    assert_eq!(vs[0].line, 8);
    assert_eq!(vs[0].message, "bad class innerBad");
}
