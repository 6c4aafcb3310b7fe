use java_guard::ast::{CompilationUnit, TypeDecl, ClassDecl, MemberDecl, MethodDecl, Stmt, ExprStmt, TryStmt, CatchClause, BlockStmt, Expr, MethodCallExpr};
use java_guard::empty_catch::EmptyCatchRule;
use java_guard::rule::Rule;

fn make_violation_file() -> String {
    "Test.java".to_string()
}

#[test]
fn detects_empty_catch() {
    let unit = CompilationUnit {
        package: None,
        imports: vec![],
        types: vec![TypeDecl::ClassDeclaration(ClassDecl {
            name: "Test".to_string(),
            modifiers: vec![],
            annotations: vec![],
            extends: None,
            implements: vec![],
            members: vec![MemberDecl::MethodDeclaration(MethodDecl {
                name: "foo".to_string(),
                modifiers: vec![],
                annotations: vec![],
                return_type: Some("void".to_string()),
                parameters: vec![],
                body: Some(BlockStmt {
                    statements: vec![Stmt::TryStmt(TryStmt {
                        resources: vec![],
                        try_body: BlockStmt {
                            statements: vec![],
                            line: 1,
                            end_line: 2,
                        },
                        catch_clauses: vec![CatchClause {
                            exception_type: Some("Exception".to_string()),
                            exception_name: Some("e".to_string()),
                            body: BlockStmt {
                                statements: vec![],
                                line: 3,
                                end_line: 4,
                            },
                            line: 3,
                        }],
                        finally_body: None,
                        line: 1,
                    })],
                    line: 1,
                    end_line: 5,
                }),
                line: 1,
                end_line: 5,
            })],
            line: 1,
            end_line: 5,
        })],
        source_file: make_violation_file(),
        source_lines: vec![],
        raw_json: String::new(),
    };

    let rule = EmptyCatchRule::new();
    let vs = rule.check_unit(&unit);
    assert_eq!(vs.len(), 1);
    assert_eq!(vs[0].rule_id.0, "J008");
    assert_eq!(vs[0].line, 3);
}

#[test]
fn ignores_non_empty_catch() {
    let unit = CompilationUnit {
        package: None,
        imports: vec![],
        types: vec![TypeDecl::ClassDeclaration(ClassDecl {
            name: "Test".to_string(),
            modifiers: vec![],
            annotations: vec![],
            extends: None,
            implements: vec![],
            members: vec![MemberDecl::MethodDeclaration(MethodDecl {
                name: "foo".to_string(),
                modifiers: vec![],
                annotations: vec![],
                return_type: Some("void".to_string()),
                parameters: vec![],
                body: Some(BlockStmt {
                    statements: vec![Stmt::TryStmt(TryStmt {
                        resources: vec![],
                        try_body: BlockStmt {
                            statements: vec![],
                            line: 1,
                            end_line: 2,
                        },
                        catch_clauses: vec![CatchClause {
                            exception_type: Some("Exception".to_string()),
                            exception_name: Some("e".to_string()),
                            body: BlockStmt {
                                statements: vec![Stmt::ExpressionStmt(ExprStmt {
                                    expr: Expr::MethodCallExpr(MethodCallExpr {
                                        callee: Some("e".to_string()),
                                        method_name: "printStackTrace".to_string(),
                                        arguments: vec![],
                                        line: 4,
                                    }),
                                    line: 4,
                                })],
                                line: 3,
                                end_line: 5,
                            },
                            line: 3,
                        }],
                        finally_body: None,
                        line: 1,
                    })],
                    line: 1,
                    end_line: 6,
                }),
                line: 1,
                end_line: 6,
            })],
            line: 1,
            end_line: 6,
        })],
        source_file: make_violation_file(),
        source_lines: vec![],
        raw_json: String::new(),
    };

    let rule = EmptyCatchRule::new();
    let vs = rule.check_unit(&unit);
    assert_eq!(vs.len(), 0);
}
