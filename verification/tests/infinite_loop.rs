use java_guard::ast::{CompilationUnit, TypeDecl, ClassDecl, MemberDecl, FieldDecl, MethodDecl, Stmt, ExprStmt, VarDeclStmt, VarDeclarator, IfStmt, ForStmt, ForEachStmt, WhileStmt, DoStmt, ReturnStmt, BreakStmt, BlockStmt, Expr, MethodCallExpr, NameExpr, LiteralExpr, BinaryExpr, UnaryExpr, AssignExpr, LambdaExpr};
use java_guard::infinite_loop::InfiniteLoopRule;
use java_guard::rule::Rule;

fn file() -> String {
    "Test.java".to_string()
}

fn true_expr() -> Expr {
    Expr::LiteralExpr(LiteralExpr {
        value: "true".to_string(),
        literal_type: Some("boolean".to_string()),
        line: 1,
    })
}

fn empty_block() -> Stmt {
    Stmt::BlockStmt(BlockStmt {
        statements: vec![],
        line: 2,
        end_line: 3,
    })
}

fn while_true(body: Stmt) -> Stmt {
    Stmt::WhileStmt(WhileStmt {
        condition: true_expr(),
        body: Box::new(body),
        line: 1,
    })
}

fn while_stmt(cond: Expr, body: Stmt) -> Stmt {
    Stmt::WhileStmt(WhileStmt {
        condition: cond,
        body: Box::new(body),
        line: 1,
    })
}

fn do_while_stmt(cond: Expr, body: Stmt) -> Stmt {
    Stmt::DoStmt(DoStmt {
        body: Box::new(body),
        condition: cond,
        line: 1,
    })
}

fn name(n: &str) -> Expr {
    Expr::NameExpr(NameExpr {
        name: n.to_string(),
        line: 1,
    })
}

fn int_lit(v: &str) -> Expr {
    Expr::LiteralExpr(LiteralExpr {
        value: v.to_string(),
        literal_type: Some("int".to_string()),
        line: 1,
    })
}

fn bin(op: &str, l: Expr, r: Expr) -> Expr {
    Expr::BinaryExpr(BinaryExpr {
        left: Box::new(l),
        op: op.to_string(),
        right: Box::new(r),
        line: 1,
    })
}

fn method_call(m: &str) -> Expr {
    Expr::MethodCallExpr(MethodCallExpr {
        callee: None,
        method_name: m.to_string(),
        arguments: vec![],
        line: 1,
    })
}

/// 局部布尔声明语句（带任意初始化表达式）。
fn local_bool_stmt(var: &str, init: Expr) -> Stmt {
    Stmt::VariableDeclarationStmt(VarDeclStmt {
        var_type: Some("boolean".to_string()),
        declarations: vec![VarDeclarator {
            name: var.to_string(),
            initializer: Some(init),
        }],
        line: 1,
    })
}

fn unary_inc(n: &str) -> Expr {
    Expr::UnaryExpr(UnaryExpr {
        expr: Box::new(name(n)),
        op: "++".to_string(),
        prefix: false,
        line: 1,
    })
}

fn unary_dec(n: &str) -> Expr {
    Expr::UnaryExpr(UnaryExpr {
        expr: Box::new(name(n)),
        op: "--".to_string(),
        prefix: false,
        line: 1,
    })
}

fn assign_update(n: &str, op: &str, val: Expr) -> Expr {
    Expr::AssignExpr(AssignExpr {
        target: Box::new(name(n)),
        op: op.to_string(),
        value: Box::new(val),
        line: 1,
    })
}

fn assign_stmt(n: &str, val: Expr) -> Stmt {
    Stmt::ExpressionStmt(ExprStmt {
        expr: Expr::AssignExpr(AssignExpr {
            target: Box::new(name(n)),
            op: "=".to_string(),
            value: Box::new(val),
            line: 1,
        }),
        line: 1,
    })
}

fn for_loop(init: Option<Expr>, cond: Option<Expr>, update: Vec<Expr>, body: Stmt) -> Stmt {
    Stmt::ForStmt(ForStmt {
        initialization: init,
        condition: cond,
        update,
        body: Box::new(body),
        line: 1,
    })
}

fn int_var_init(var: &str, val: &str) -> Expr {
    Expr::VariableDeclarationExpr(VarDeclStmt {
        var_type: Some("int".to_string()),
        declarations: vec![VarDeclarator {
            name: var.to_string(),
            initializer: Some(int_lit(val)),
        }],
        line: 1,
    })
}

fn body_with(stmts: Vec<Stmt>) -> Stmt {
    Stmt::BlockStmt(BlockStmt {
        statements: stmts,
        line: 2,
        end_line: 5,
    })
}

fn unit_with(stmts: Vec<Stmt>) -> CompilationUnit {
    CompilationUnit {
        package: None,
        imports: vec![],
        types: vec![TypeDecl::ClassDeclaration(ClassDecl {
            name: "Test".to_string(),
            modifiers: vec![],
            annotations: vec![],
            extends: None,
            implements: vec![],
            members: vec![MemberDecl::MethodDeclaration(MethodDecl {
                name: "run".to_string(),
                modifiers: vec![],
                annotations: vec![],
                return_type: Some("void".to_string()),
                parameters: vec![],
                body: Some(BlockStmt {
                    statements: stmts,
                    line: 1,
                    end_line: 10,
                }),
                line: 1,
                end_line: 10,
            })],
            line: 1,
            end_line: 10,
        })],
        source_file: file(),
        source_lines: vec![],
        raw_json: String::new(),
    }
}

fn unit_with_field(field: FieldDecl, stmts: Vec<Stmt>) -> CompilationUnit {
    CompilationUnit {
        package: None,
        imports: vec![],
        types: vec![TypeDecl::ClassDeclaration(ClassDecl {
            name: "Test".to_string(),
            modifiers: vec![],
            annotations: vec![],
            extends: None,
            implements: vec![],
            members: vec![
                MemberDecl::FieldDeclaration(field),
                MemberDecl::MethodDeclaration(MethodDecl {
                    name: "run".to_string(),
                    modifiers: vec![],
                    annotations: vec![],
                    return_type: Some("void".to_string()),
                    parameters: vec![],
                    body: Some(BlockStmt {
                        statements: stmts,
                        line: 1,
                        end_line: 10,
                    }),
                    line: 1,
                    end_line: 10,
                }),
            ],
            line: 1,
            end_line: 10,
        })],
        source_file: file(),
        source_lines: vec![],
        raw_json: String::new(),
    }
}

fn final_bool_field(name: &str, val: &str) -> FieldDecl {
    FieldDecl {
        name: name.to_string(),
        modifiers: vec!["final".to_string()],
        annotations: vec![],
        field_type: Some("boolean".to_string()),
        initializer: Some(Expr::LiteralExpr(LiteralExpr {
            value: val.to_string(),
            literal_type: Some("boolean".to_string()),
            line: 1,
        })),
        line: 1,
    }
}

// ---- 原 definite 死循环用例 ----

#[test]
fn detects_bare_while_true() {
    let unit = unit_with(vec![while_true(empty_block())]);
    let vs = InfiniteLoopRule::new().check_unit(&unit);
    assert_eq!(vs.len(), 1, "应检测到裸 while(true)");
    assert_eq!(vs[0].rule_id.0, "J009");
    assert_eq!(vs[0].line, 1);
}

#[test]
fn detects_for_empty_condition() {
    // for (;;) 无 condition -> 恒定真
    let f = for_loop(None, None, vec![], empty_block());
    let unit = unit_with(vec![f]);
    let vs = InfiniteLoopRule::new().check_unit(&unit);
    assert_eq!(vs.len(), 1, "应检测到 for(;;)");
}

#[test]
fn detects_do_while_true() {
    let d = do_while_stmt(true_expr(), empty_block());
    let unit = unit_with(vec![d]);
    let vs = InfiniteLoopRule::new().check_unit(&unit);
    assert_eq!(vs.len(), 1, "应检测到 do-while(true)");
}

#[test]
fn ignores_while_true_with_break() {
    let body = body_with(vec![Stmt::BreakStmt(BreakStmt { label: None, line: 2 })]);
    let unit = unit_with(vec![while_true(body)]);
    let vs = InfiniteLoopRule::new().check_unit(&unit);
    assert_eq!(vs.len(), 0, "while(true) 含 break 不会死循环");
}

#[test]
fn ignores_non_constant_condition() {
    // 方法调用条件（非变量、非字面量）不触发任何分支
    let w = while_stmt(method_call("hasNext"), empty_block());
    let unit = unit_with(vec![w]);
    let vs = InfiniteLoopRule::new().check_unit(&unit);
    assert_eq!(vs.len(), 0, "非常量且非变量条件不报");
}

#[test]
fn ignores_conditional_break() {
    let body = body_with(vec![Stmt::IfStmt(IfStmt {
        condition: name("x"),
        then_stmt: Box::new(Stmt::BreakStmt(BreakStmt { label: None, line: 3 })),
        else_stmt: None,
        line: 2,
    })]);
    let unit = unit_with(vec![while_true(body)]);
    let vs = InfiniteLoopRule::new().check_unit(&unit);
    assert_eq!(vs.len(), 0, "条件性 break 视为可能退出，不报");
}

#[test]
fn detects_nested_infinite() {
    let inner = Stmt::WhileStmt(WhileStmt {
        condition: true_expr(),
        body: Box::new(empty_block()),
        line: 2,
    });
    let outer_body = body_with(vec![inner]);
    let unit = unit_with(vec![while_true(outer_body)]);
    let vs = InfiniteLoopRule::new().check_unit(&unit);
    assert_eq!(vs.len(), 2, "内层与外层 while(true) 均被判死循环");
    assert!(vs.iter().any(|v| v.line == 1), "外层循环（line 1）应被报告");
}

#[test]
fn lambda_return_does_not_mask_outer_loop() {
    let lambda = Expr::LambdaExpr(LambdaExpr {
        parameters: vec![],
        body: Box::new(body_with(vec![Stmt::ReturnStmt(ReturnStmt { expr: None, line: 2 })])),
        line: 2,
    });
    let es = Stmt::ExpressionStmt(ExprStmt {
        expr: lambda,
        line: 2,
    });
    let unit = unit_with(vec![while_true(es)]);
    let vs = InfiniteLoopRule::new().check_unit(&unit);
    assert_eq!(vs.len(), 1, "lambda 内 return 不退出外层 while(true)");
}

// ---- #1：for 计数器不推进 ----

#[test]
fn detects_for_without_update_counter_unmutated() {
    // for (int i = 0; i < n; ) { doWork(); }
    let f = for_loop(
        Some(int_var_init("i", "0")),
        Some(bin("<", name("i"), name("n"))),
        vec![],
        body_with(vec![Stmt::ExpressionStmt(ExprStmt {
            expr: method_call("doWork"),
            line: 2,
        })]),
    );
    let unit = unit_with(vec![f]);
    let vs = InfiniteLoopRule::new().check_unit(&unit);
    assert_eq!(vs.len(), 1, "for 缺 update 且计数器未变应报 #1");
    assert!(vs[0].message.contains("缺少更新表达式"), "应给出 #1 提示");
}

#[test]
fn ignores_for_with_update() {
    let f = for_loop(
        Some(int_var_init("i", "0")),
        Some(bin("<", name("i"), name("n"))),
        vec![unary_inc("i")],
        body_with(vec![Stmt::ExpressionStmt(ExprStmt {
            expr: method_call("doWork"),
            line: 2,
        })]),
    );
    let unit = unit_with(vec![f]);
    let vs = InfiniteLoopRule::new().check_unit(&unit);
    assert_eq!(vs.len(), 0, "有 update 的正常 for 不报");
}

#[test]
fn ignores_for_counter_mutated_in_body() {
    // for (int i = 0; i < n; ) { i = 5; } —— 计数器在循环体内被修改
    let f = for_loop(
        Some(int_var_init("i", "0")),
        Some(bin("<", name("i"), name("n"))),
        vec![],
        body_with(vec![assign_stmt("i", int_lit("5"))]),
    );
    let unit = unit_with(vec![f]);
    let vs = InfiniteLoopRule::new().check_unit(&unit);
    assert_eq!(vs.len(), 0, "计数器在循环体内被修改则不报 #1");
}

#[test]
fn detects_for_constant_bound_no_update() {
    // for (int i = 0; i < 10; ) { doWork(); } —— 常量边界，i 永不达 10
    let f = for_loop(
        Some(int_var_init("i", "0")),
        Some(bin("<", name("i"), int_lit("10"))),
        vec![],
        body_with(vec![Stmt::ExpressionStmt(ExprStmt {
            expr: method_call("doWork"),
            line: 2,
        })]),
    );
    let unit = unit_with(vec![f]);
    let vs = InfiniteLoopRule::new().check_unit(&unit);
    assert_eq!(vs.len(), 1, "常量边界 for 缺 update 必死循环（definite）");
}

// ---- #2：常量传播恒真 ----

#[test]
fn detects_const_propagation_field() {
    // final boolean T = true; while (T) {}
    let field = final_bool_field("T", "true");
    let w = while_stmt(name("T"), empty_block());
    let unit = unit_with_field(field, vec![w]);
    let vs = InfiniteLoopRule::new().check_unit(&unit);
    assert_eq!(vs.len(), 1, "final 字段常量 T=true 应判死循环（#2）");
    assert!(vs[0].message.contains("常量传播"), "应说明常量传播");
}

#[test]
fn detects_const_propagation_local() {
    // boolean running = true; while (running) {}
    let body = vec![
        local_bool_stmt("running", true_expr()),
        while_stmt(name("running"), empty_block()),
    ];
    let unit = unit_with(body);
    let vs = InfiniteLoopRule::new().check_unit(&unit);
    assert_eq!(vs.len(), 1, "有效终态局部布尔常量应判死循环（#2）");
}

#[test]
fn ignores_const_propagation_local_reassigned() {
    // boolean running = true; running = false; while (running) {}
    let body = vec![
        local_bool_stmt("running", true_expr()),
        assign_stmt("running", true_expr()),
        while_stmt(name("running"), empty_block()),
    ];
    let unit = unit_with(body);
    let vs = InfiniteLoopRule::new().check_unit(&unit);
    assert_eq!(vs.len(), 0, "被重赋值的局部变量不再是常量，不报");
}

// ---- #3：条件变量从不更新 ----

#[test]
fn detects_while_var_never_updated_external_state() {
    // boolean b = ext(); while (b) { doWork(); }
    let body = vec![
        local_bool_stmt("b", method_call("ext")),
        while_stmt(
            name("b"),
            body_with(vec![Stmt::ExpressionStmt(ExprStmt {
                expr: method_call("doWork"),
                line: 2,
            })]),
        ),
    ];
    let unit = unit_with(body);
    let vs = InfiniteLoopRule::new().check_unit(&unit);
    assert_eq!(vs.len(), 1, "while(外部状态变量) 且从不更新应报 #3");
    assert!(vs[0].message.contains("从未被修改"), "应给出 #3 提示");
}

#[test]
fn ignores_while_var_mutated_in_body() {
    // while (b) { b = false; }
    let w = while_stmt(name("b"), body_with(vec![assign_stmt("b", true_expr())]));
    let unit = unit_with(vec![w]);
    let vs = InfiniteLoopRule::new().check_unit(&unit);
    assert_eq!(vs.len(), 0, "条件变量在循环体内被修改则不报 #3");
}

#[test]
fn detects_do_while_var_never_updated() {
    // boolean b = ext(); do { doWork(); } while (b);
    let body = vec![
        local_bool_stmt("b", method_call("ext")),
        do_while_stmt(
            name("b"),
            body_with(vec![Stmt::ExpressionStmt(ExprStmt {
                expr: method_call("doWork"),
                line: 2,
            })]),
        ),
    ];
    let unit = unit_with(body);
    let vs = InfiniteLoopRule::new().check_unit(&unit);
    assert_eq!(vs.len(), 1, "do-while(变量) 且从不更新应报 #3");
}

#[test]
fn ignores_while_var_with_break_event_loop() {
    // boolean running = true; while (running) { if (x) break; }
    let body = vec![
        local_bool_stmt("running", true_expr()),
        while_stmt(
            name("running"),
            body_with(vec![Stmt::IfStmt(IfStmt {
                condition: name("x"),
                then_stmt: Box::new(Stmt::BreakStmt(BreakStmt { label: None, line: 3 })),
                else_stmt: None,
                line: 2,
            })]),
        ),
    ];
    let unit = unit_with(body);
    let vs = InfiniteLoopRule::new().check_unit(&unit);
    assert_eq!(vs.len(), 0, "存在 break 的合法事件循环不报");
}

// ---- #1b：无效 update ----

#[test]
fn detects_for_self_assign_update() {
    // for (int i = 0; i < 10; i = i) { }
    let f = for_loop(
        Some(int_var_init("i", "0")),
        Some(bin("<", name("i"), int_lit("10"))),
        vec![assign_update("i", "=", name("i"))],
        empty_block(),
    );
    let unit = unit_with(vec![f]);
    let vs = InfiniteLoopRule::new().check_unit(&unit);
    assert_eq!(vs.len(), 1, "i = i 自赋值应报 #1b");
    assert!(vs[0].message.contains("无实际效果"), "应给出 #1b 提示");
}

// ---- #1b 回归：无效 update 必须考虑初始值与入口条件 ----

#[test]
fn ignores_for_reset_to_non_initial_value() {
    // for (int i = 10; i > 0; i = 0) —— i = 0 使条件立即为 false，循环正常终止
    let f = for_loop(
        Some(int_var_init("i", "10")),
        Some(bin(">", name("i"), int_lit("0"))),
        vec![assign_update("i", "=", int_lit("0"))],
        empty_block(),
    );
    let unit = unit_with(vec![f]);
    let vs = InfiniteLoopRule::new().check_unit(&unit);
    assert_eq!(vs.len(), 0, "i = 0 与初始值 10 不同，循环可正常终止，不应报 #1b");
}

#[test]
fn ignores_for_ineffective_update_never_entered() {
    // for (int i = 10; i < 10; i = 0) —— 入口条件为 false，循环体根本不执行
    let f = for_loop(
        Some(int_var_init("i", "10")),
        Some(bin("<", name("i"), int_lit("10"))),
        vec![assign_update("i", "=", int_lit("0"))],
        empty_block(),
    );
    let unit = unit_with(vec![f]);
    let vs = InfiniteLoopRule::new().check_unit(&unit);
    assert_eq!(vs.len(), 0, "入口条件恒 false 的循环不应报死循环");
}

#[test]
fn ignores_for_effective_update_alongside_ineffective() {
    // for (int i = 0; i < 10; i = 0, i++) —— i++ 仍能推进，循环可终止
    let f = for_loop(
        Some(int_var_init("i", "0")),
        Some(bin("<", name("i"), int_lit("10"))),
        vec![assign_update("i", "=", int_lit("0")), unary_inc("i")],
        empty_block(),
    );
    let unit = unit_with(vec![f]);
    let vs = InfiniteLoopRule::new().check_unit(&unit);
    assert_eq!(vs.len(), 0, "i = 0 与 i++ 并存时循环仍会推进，不应报 #1b");
}

// ---- #1 回归：条件中的非 init 变量被修改时不应误报 ----

#[test]
fn ignores_for_cond_var_mutated_in_body() {
    // for (int i = 0; i < n; ) { n -= 1; } —— n 递减使条件终将变为 false
    let dec = Stmt::ExpressionStmt(ExprStmt {
        expr: Expr::AssignExpr(AssignExpr {
            target: Box::new(name("n")),
            op: "-=".to_string(),
            value: Box::new(int_lit("1")),
            line: 2,
        }),
        line: 2,
    });
    let f = for_loop(
        Some(int_var_init("i", "0")),
        Some(bin("<", name("i"), name("n"))),
        vec![],
        body_with(vec![dec]),
    );
    let unit = unit_with(vec![f]);
    let vs = InfiniteLoopRule::new().check_unit(&unit);
    assert_eq!(vs.len(), 0, "条件变量 n 在循环体内被修改，循环可能终止，不应报 #1");
}

// ---- #1c 回归：无关变量的 update 不应中断方向矛盾检测 ----

#[test]
fn detects_direction_conflict_with_unrelated_update_first() {
    // for (int i = 0, j = 0; i < 10; j++, i--) —— j++ 在前，i-- 仍需被检出
    let multi = Expr::VariableDeclarationExpr(VarDeclStmt {
        var_type: Some("int".to_string()),
        declarations: vec![
            VarDeclarator {
                name: "i".to_string(),
                initializer: Some(int_lit("0")),
            },
            VarDeclarator {
                name: "j".to_string(),
                initializer: Some(int_lit("0")),
            },
        ],
        line: 1,
    });
    let f = for_loop(
        Some(multi),
        Some(bin("<", name("i"), int_lit("10"))),
        vec![unary_inc("j"), unary_dec("i")],
        empty_block(),
    );
    let unit = unit_with(vec![f]);
    let vs = InfiniteLoopRule::new().check_unit(&unit);
    assert_eq!(vs.len(), 1, "j++ 之后 i-- 与 i < 10 矛盾仍应检出 #1c");
}

// ---- for-each 遍历 ----

fn for_each_stmt(iterable: Expr, body: Stmt) -> Stmt {
    Stmt::ForEachStmt(ForEachStmt {
        variable: Expr::VariableDeclarationExpr(VarDeclStmt {
            var_type: Some("String".to_string()),
            declarations: vec![VarDeclarator {
                name: "s".to_string(),
                initializer: None,
            }],
            line: 2,
        }),
        iterable,
        body: Box::new(body),
        line: 2,
    })
}

#[test]
fn for_each_break_does_not_exit_outer_loop() {
    // while (true) { for (String s : list) { break; } } —— break 只退出 for-each
    let fe = for_each_stmt(name("list"), Stmt::BreakStmt(BreakStmt { label: None, line: 3 }));
    let unit = unit_with(vec![while_true(body_with(vec![fe]))]);
    let vs = InfiniteLoopRule::new().check_unit(&unit);
    assert_eq!(vs.len(), 1, "for-each 内的 break 不退出外层 while(true)，外层仍应报死循环");
}

#[test]
fn for_each_return_exits_outer_loop() {
    // while (true) { for (String s : list) { return; } } —— return 退出整个方法
    let fe = for_each_stmt(name("list"), Stmt::ReturnStmt(ReturnStmt { expr: None, line: 3 }));
    let unit = unit_with(vec![while_true(body_with(vec![fe]))]);
    let vs = InfiniteLoopRule::new().check_unit(&unit);
    assert_eq!(vs.len(), 0, "for-each 内的 return 会退出外层 while(true)，不应报死循环");
}

#[test]
fn for_each_body_loops_are_checked() {
    // for (String s : list) { while (true) {} } —— 体内死循环应被检出
    let inner = Stmt::WhileStmt(WhileStmt {
        condition: true_expr(),
        body: Box::new(empty_block()),
        line: 3,
    });
    let fe = for_each_stmt(name("list"), body_with(vec![inner]));
    let unit = unit_with(vec![fe]);
    let vs = InfiniteLoopRule::new().check_unit(&unit);
    assert_eq!(vs.len(), 1, "for-each 体内的 while(true) 应被检出");
    assert_eq!(vs[0].line, 3);
}

#[test]
fn detects_for_zero_plus_update() {
    // for (int i = 0; i < 10; i += 0) { }
    let f = for_loop(
        Some(int_var_init("i", "0")),
        Some(bin("<", name("i"), int_lit("10"))),
        vec![assign_update("i", "+=", int_lit("0"))],
        empty_block(),
    );
    let unit = unit_with(vec![f]);
    let vs = InfiniteLoopRule::new().check_unit(&unit);
    assert_eq!(vs.len(), 1, "i += 0 无效更新应报 #1b");
}

#[test]
fn detects_for_reset_to_zero_update() {
    // for (int i = 0; i < 10; i = 0) { }
    let f = for_loop(
        Some(int_var_init("i", "0")),
        Some(bin("<", name("i"), int_lit("10"))),
        vec![assign_update("i", "=", int_lit("0"))],
        empty_block(),
    );
    let unit = unit_with(vec![f]);
    let vs = InfiniteLoopRule::new().check_unit(&unit);
    assert_eq!(vs.len(), 1, "i = 0 重置为初始值应报 #1b");
}

#[test]
fn ignores_for_effective_update() {
    // for (int i = 0; i < 10; i += 2) { } — 正常更新
    let f = for_loop(
        Some(int_var_init("i", "0")),
        Some(bin("<", name("i"), int_lit("10"))),
        vec![assign_update("i", "+=", int_lit("2"))],
        empty_block(),
    );
    let unit = unit_with(vec![f]);
    let vs = InfiniteLoopRule::new().check_unit(&unit);
    assert_eq!(vs.len(), 0, "i += 2 正常更新不报");
}

// ---- #1c：update 方向矛盾 ----

#[test]
fn detects_for_decrement_with_lt_condition() {
    // for (int i = 0; i < 10; i--) { } — i 递减但条件是 i < 10
    let f = for_loop(
        Some(int_var_init("i", "0")),
        Some(bin("<", name("i"), int_lit("10"))),
        vec![unary_dec("i")],
        empty_block(),
    );
    let unit = unit_with(vec![f]);
    let vs = InfiniteLoopRule::new().check_unit(&unit);
    assert_eq!(vs.len(), 1, "i-- 与 i < 10 矛盾应报 #1c");
    assert!(vs[0].message.contains("方向与条件矛盾"), "应给出 #1c 提示");
}

#[test]
fn detects_for_increment_with_gt_condition() {
    // for (int i = 10; i > 0; i++) { } — i 递增但条件是 i > 0
    let f = for_loop(
        Some(int_var_init("i", "10")),
        Some(bin(">", name("i"), int_lit("0"))),
        vec![unary_inc("i")],
        empty_block(),
    );
    let unit = unit_with(vec![f]);
    let vs = InfiniteLoopRule::new().check_unit(&unit);
    assert_eq!(vs.len(), 1, "i++ 与 i > 0 矛盾应报 #1c");
}

#[test]
fn detects_for_subtract_with_lt_condition() {
    // for (int i = 0; i < 10; i -= 1) { } — i 递减但条件是 i < 10
    let f = for_loop(
        Some(int_var_init("i", "0")),
        Some(bin("<", name("i"), int_lit("10"))),
        vec![assign_update("i", "-=", int_lit("1"))],
        empty_block(),
    );
    let unit = unit_with(vec![f]);
    let vs = InfiniteLoopRule::new().check_unit(&unit);
    assert_eq!(vs.len(), 1, "i -= 1 与 i < 10 矛盾应报 #1c");
}

#[test]
fn ignores_for_correct_direction() {
    // for (int i = 0; i < 10; i++) { } — 正常递增
    let f = for_loop(
        Some(int_var_init("i", "0")),
        Some(bin("<", name("i"), int_lit("10"))),
        vec![unary_inc("i")],
        empty_block(),
    );
    let unit = unit_with(vec![f]);
    let vs = InfiniteLoopRule::new().check_unit(&unit);
    assert_eq!(vs.len(), 0, "i++ 与 i < 10 方向一致不报");
}

#[test]
fn ignores_for_correct_decrement() {
    // for (int i = 10; i > 0; i--) { } — 正常递减
    let f = for_loop(
        Some(int_var_init("i", "10")),
        Some(bin(">", name("i"), int_lit("0"))),
        vec![unary_dec("i")],
        empty_block(),
    );
    let unit = unit_with(vec![f]);
    let vs = InfiniteLoopRule::new().check_unit(&unit);
    assert_eq!(vs.len(), 0, "i-- 与 i > 0 方向一致不报");
}
