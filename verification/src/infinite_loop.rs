//! Built-in rule J009: loops that may never terminate.
//!
//! Three findings, from strong to weak:
//!
//! 1. definite: the condition is `true` at compile time (a literal, or after
//!    constant propagation), no variable it reads changes in the loop, and
//!    the body has no exit (`break` of this loop, `return`, `throw`);
//! 2. a `for` loop whose counter never moves: no update, or only updates
//!    without effect, or updates that move away from the bound;
//! 3. a `while`/`do` loop on a single variable that the loop never changes
//!    and that is neither a known constant nor reassigned.
//!
//! Integer evaluation wraps on overflow, as two's-complement machine
//! integers do.

use vstd::prelude::*;
use crate::ast::{
    BinaryExpr, BlockStmt, CatchClause, CompilationUnit, Expr, LiteralExpr, MemberDecl, Stmt,
    SwitchCase, TypeDecl, VarDeclarator,
};
use crate::matcher::{join_comma, join_modifiers, members_of, type_members};
use crate::yaml_rule::string_views;
use crate::rule::{views, Rule, RuleId, Severity, SpanPolicy, Violation, ViolationV};
use crate::text::{append_str, chars_of, decimal, parse_i64, parse_i64_spec, str_eq, u64_to_string};

verus! {

broadcast use vstd::string::group_string_axioms;

/// The last value bound to `k` in an association list.
pub open spec fn lookup<V>(s: Seq<(Seq<char>, V)>, k: Seq<char>) -> Option<V>
    decreases s.len(),
{
    if s.len() == 0 {
        None
    } else if s.last().0 == k {
        Some(s.last().1)
    } else {
        lookup(s.drop_last(), k)
    }
}

/// The abstract value of an executable association list.
pub open spec fn pair_views<V>(s: Seq<(String, V)>) -> Seq<(Seq<char>, V)> {
    s.map_values(|e: (String, V)| (e.0@, e.1))
}

/// The character sequences of a list of strings.
pub open spec fn name_views(s: Seq<String>) -> Seq<Seq<char>> {
    s.map_values(|x: String| x@)
}

fn lookup_in<V: Copy>(s: &Vec<(String, V)>, k: &str) -> (r: Option<V>)
    ensures
        r == lookup(pair_views(s@), k@),
{
    let ghost ps = pair_views(s@);
    let mut i = s.len();
    assert(ps.take(i as int) == ps);
    while i > 0
        invariant
            i <= s.len(),
            ps == pair_views(s@),
            lookup(ps, k@) == lookup(ps.take(i as int), k@),
        decreases i,
    {
        let ghost t = ps.take(i as int);
        assert(t.drop_last() == ps.take(i - 1));
        assert(t.last() == (s@[i - 1].0@, s@[i - 1].1));
        if str_eq(s[i - 1].0.as_str(), k) {
            return Some(s[i - 1].1);
        }
        i -= 1;
    }
    None
}

fn contains_name(s: &Vec<String>, k: &str) -> (r: bool)
    ensures
        r == name_views(s@).contains(k@),
{
    let mut i: usize = 0;
    while i < s.len()
        invariant
            i <= s.len(),
            forall|m: int| 0 <= m < i ==> (#[trigger] s@[m])@ != k@,
        decreases s.len() - i,
    {
        if str_eq(s[i].as_str(), k) {
            assert(name_views(s@)[i as int] == k@);
            return true;
        }
        i += 1;
    }
    assert forall|m: int| 0 <= m < name_views(s@).len() implies #[trigger] name_views(s@)[m] != k@ by {
        assert(name_views(s@)[m] == s@[m]@);
    }
    false
}

/// The boolean a literal spells (`true` or `false`).
pub open spec fn literal_bool_spec(e: Expr) -> Option<bool> {
    match e {
        Expr::LiteralExpr(l) => if l.value@ == "true"@ {
            Some(true)
        } else if l.value@ == "false"@ {
            Some(false)
        } else {
            None
        },
        _ => None,
    }
}

fn literal_bool(e: &Expr) -> (r: Option<bool>)
    ensures
        r == literal_bool_spec(*e),
{
    match e {
        Expr::LiteralExpr(l) => {
            if str_eq(l.value.as_str(), "true") {
                Some(true)
            } else if str_eq(l.value.as_str(), "false") {
                Some(false)
            } else {
                None
            }
        },
        _ => None,
    }
}

/// `s` without its trailing `L`/`l` characters.
pub open spec fn trim_long_suffix(s: Seq<char>) -> Seq<char>
    decreases s.len(),
{
    if s.len() > 0 && (s.last() == 'L' || s.last() == 'l') {
        trim_long_suffix(s.drop_last())
    } else {
        s
    }
}

/// The integer a literal's text denotes, a `long` suffix ignored.
pub open spec fn literal_int_spec(l: LiteralExpr) -> Option<int> {
    parse_i64_spec(trim_long_suffix(l.value@))
}

fn literal_int(l: &LiteralExpr) -> (r: Option<i64>)
    ensures
        match r {
            Some(v) => literal_int_spec(*l) == Some(v as int),
            None => literal_int_spec(*l) is None,
        },
{
    let cs = chars_of(l.value.as_str());
    let mut n = cs.len();
    assert(cs@.take(n as int) == cs@);
    while n > 0 && (cs[n - 1] == 'L' || cs[n - 1] == 'l')
        invariant
            n <= cs.len(),
            trim_long_suffix(cs@) == trim_long_suffix(cs@.take(n as int)),
        decreases n,
    {
        assert(cs@.take(n as int).drop_last() == cs@.take(n - 1));
        n -= 1;
    }
    let t = crate::text::copy_range(cs.as_slice(), 0, n);
    assert(t@ == cs@.take(n as int));
    parse_i64(t.as_slice())
}

/// `-v`, wrapping at `i64::MIN`.
pub open spec fn neg_wrap(v: i64) -> i64 {
    if v == i64::MIN {
        i64::MIN
    } else {
        (-v) as i64
    }
}

/// The magnitude of `v`.
pub open spec fn magnitude(v: int) -> nat {
    if v < 0 {
        (-v) as nat
    } else {
        v as nat
    }
}

/// Division rounding toward zero (`r != 0`).
pub open spec fn trunc_div(l: int, r: int) -> int {
    let q = (magnitude(l) / magnitude(r)) as int;
    if (l < 0) != (r < 0) {
        -q
    } else {
        q
    }
}

/// The remainder of [`trunc_div`]; it takes the sign of `l`.
pub open spec fn trunc_rem(l: int, r: int) -> int {
    let m = (magnitude(l) % magnitude(r)) as int;
    if l < 0 {
        -m
    } else {
        m
    }
}

/// `l / r` on `i64` (`r != 0`), wrapping at `i64::MIN / -1`.
pub open spec fn div_wrap(l: i64, r: i64) -> i64 {
    if l == i64::MIN && r == -1 {
        i64::MIN
    } else {
        trunc_div(l as int, r as int) as i64
    }
}

/// `l % r` on `i64` (`r != 0`), wrapping at `i64::MIN % -1`.
pub open spec fn rem_wrap(l: i64, r: i64) -> i64 {
    if l == i64::MIN && r == -1 {
        0
    } else {
        trunc_rem(l as int, r as int) as i64
    }
}

fn abs_u64(v: i64) -> (r: u64)
    ensures
        r as nat == magnitude(v as int),
{
    if v == i64::MIN {
        0x8000_0000_0000_0000u64
    } else if v < 0 {
        (-v) as u64
    } else {
        v as u64
    }
}

fn neg_i64(v: i64) -> (r: i64)
    ensures
        r == neg_wrap(v),
{
    if v == i64::MIN {
        i64::MIN
    } else {
        -v
    }
}

fn div_i64(l: i64, r: i64) -> (q: i64)
    requires
        r != 0,
    ensures
        q == div_wrap(l, r),
{
    if l == i64::MIN && r == -1 {
        return i64::MIN;
    }
    let a = abs_u64(l);
    let b = abs_u64(r);
    let m = a / b;
    assert(m <= a) by (nonlinear_arith)
        requires b >= 1, m == a / b;
    if (l < 0) != (r < 0) {
        if m == 0x8000_0000_0000_0000u64 {
            i64::MIN
        } else {
            -(m as i64)
        }
    } else {
        proof {
            if m == 0x8000_0000_0000_0000u64 {
                assert(a == 0x8000_0000_0000_0000u64);
                assert(l == i64::MIN);
                assert(r < 0);
                assert(b == 1) by (nonlinear_arith)
                    requires m == a / b, a == m, b >= 1, m > 0;
                assert(r == -1);
            }
        }
        m as i64
    }
}

fn rem_i64(l: i64, r: i64) -> (m: i64)
    requires
        r != 0,
    ensures
        m == rem_wrap(l, r),
{
    if l == i64::MIN && r == -1 {
        return 0;
    }
    let a = abs_u64(l);
    let b = abs_u64(r);
    let k = a % b;
    assert(k < b) by (nonlinear_arith)
        requires b >= 1, k == a % b;
    assert(k <= 0x7fff_ffff_ffff_ffffu64);
    if l < 0 {
        -(k as i64)
    } else {
        k as i64
    }
}

/// The integer value of an expression at loop entry: literals, the
/// integers `ints` binds, parentheses, negation and `+ - * / %`.
pub open spec fn eval_int_spec(e: Expr, ints: Seq<(Seq<char>, i64)>) -> Option<i64>
    decreases e,
{
    match e {
        Expr::LiteralExpr(l) => match literal_int_spec(l) {
            Some(v) => Some(v as i64),
            None => None,
        },
        Expr::NameExpr(n) => lookup(ints, n.name@),
        Expr::EnclosedExpr { inner, .. } => eval_int_spec(*inner, ints),
        Expr::UnaryExpr(u) => if u.op@ == "-"@ {
            match eval_int_spec(*u.expr, ints) {
                Some(v) => Some(neg_wrap(v)),
                None => None,
            }
        } else {
            None
        },
        Expr::BinaryExpr(be) => match (eval_int_spec(*be.left, ints), eval_int_spec(*be.right, ints)) {
            (Some(l), Some(r)) => if be.op@ == "+"@ {
                Some(l.wrapping_add(r))
            } else if be.op@ == "-"@ {
                Some(l.wrapping_sub(r))
            } else if be.op@ == "*"@ {
                Some(l.wrapping_mul(r))
            } else if be.op@ == "/"@ {
                if r == 0 {
                    None
                } else {
                    Some(div_wrap(l, r))
                }
            } else if be.op@ == "%"@ {
                if r == 0 {
                    None
                } else {
                    Some(rem_wrap(l, r))
                }
            } else {
                None
            },
            _ => None,
        },
        _ => None,
    }
}

fn eval_int(e: &Expr, ints: &Vec<(String, i64)>) -> (r: Option<i64>)
    ensures
        r == eval_int_spec(*e, pair_views(ints@)),
    decreases e,
{
    match e {
        Expr::LiteralExpr(l) => literal_int(l),
        Expr::NameExpr(n) => lookup_in(ints, n.name.as_str()),
        Expr::EnclosedExpr { inner, .. } => eval_int(inner, ints),
        Expr::UnaryExpr(u) => {
            if str_eq(u.op.as_str(), "-") {
                match eval_int(&u.expr, ints) {
                    Some(v) => Some(neg_i64(v)),
                    None => None,
                }
            } else {
                None
            }
        },
        Expr::BinaryExpr(be) => {
            let l = match eval_int(&be.left, ints) {
                Some(v) => v,
                None => return None,
            };
            let r = match eval_int(&be.right, ints) {
                Some(v) => v,
                None => return None,
            };
            let op = be.op.as_str();
            if str_eq(op, "+") {
                Some(l.wrapping_add(r))
            } else if str_eq(op, "-") {
                Some(l.wrapping_sub(r))
            } else if str_eq(op, "*") {
                Some(l.wrapping_mul(r))
            } else if str_eq(op, "/") {
                if r == 0 {
                    None
                } else {
                    Some(div_i64(l, r))
                }
            } else if str_eq(op, "%") {
                if r == 0 {
                    None
                } else {
                    Some(rem_i64(l, r))
                }
            } else {
                None
            }
        },
        _ => None,
    }
}

/// The comparison `l op r` for the six comparison operators; `false` for
/// any other operator.
pub open spec fn compare_spec(op: Seq<char>, l: i64, r: i64) -> bool {
    if op == "<"@ {
        l < r
    } else if op == ">"@ {
        l > r
    } else if op == "<="@ {
        l <= r
    } else if op == ">="@ {
        l >= r
    } else if op == "=="@ {
        l == r
    } else if op == "!="@ {
        l != r
    } else {
        false
    }
}

fn compare_op(op: &str, l: i64, r: i64) -> (b: bool)
    ensures
        b == compare_spec(op@, l, r),
{
    if str_eq(op, "<") {
        l < r
    } else if str_eq(op, ">") {
        l > r
    } else if str_eq(op, "<=") {
        l <= r
    } else if str_eq(op, ">=") {
        l >= r
    } else if str_eq(op, "==") {
        l == r
    } else if str_eq(op, "!=") {
        l != r
    } else {
        false
    }
}

/// Constants known in a method: boolean constants (fields declared
/// `final` with a literal, and locals with a literal that are never
/// reassigned), and the names assigned anywhere in the method.
pub struct ConstFacts {
    pub bools: Seq<(Seq<char>, bool)>,
    pub reassigned: Seq<Seq<char>>,
}

/// Executable [`ConstFacts`].
struct ConstCtx {
    bools: Vec<(String, bool)>,
    reassigned: Vec<String>,
}

impl View for ConstCtx {
    type V = ConstFacts;

    closed spec fn view(&self) -> ConstFacts {
        ConstFacts { bools: pair_views(self.bools@), reassigned: name_views(self.reassigned@) }
    }
}

/// The boolean value of a loop condition at entry, where constants decide
/// it: literals, known constants (also as `this.x`), `!`, `&&`, `||`,
/// integer comparisons, and `==`/`!=` of booleans.
pub open spec fn eval_bool_spec(e: Expr, ctx: ConstFacts, ints: Seq<(Seq<char>, i64)>) -> Option<bool>
    decreases e,
{
    match e {
        Expr::LiteralExpr(l) => if l.value@ == "true"@ {
            Some(true)
        } else if l.value@ == "false"@ {
            Some(false)
        } else {
            None
        },
        Expr::NameExpr(n) => lookup(ctx.bools, n.name@),
        Expr::FieldAccessExpr(fa) => if *fa.target is ThisExpr {
            lookup(ctx.bools, fa.field@)
        } else {
            None
        },
        Expr::EnclosedExpr { inner, .. } => eval_bool_spec(*inner, ctx, ints),
        Expr::UnaryExpr(u) => if u.op@ == "!"@ {
            match eval_bool_spec(*u.expr, ctx, ints) {
                Some(b) => Some(!b),
                None => None,
            }
        } else {
            None
        },
        Expr::BinaryExpr(be) => if be.op@ == "&&"@ {
            match (eval_bool_spec(*be.left, ctx, ints), eval_bool_spec(*be.right, ctx, ints)) {
                (Some(a), Some(b)) => Some(a && b),
                _ => None,
            }
        } else if be.op@ == "||"@ {
            match (eval_bool_spec(*be.left, ctx, ints), eval_bool_spec(*be.right, ctx, ints)) {
                (Some(a), Some(b)) => Some(a || b),
                _ => None,
            }
        } else {
            match (eval_int_spec(*be.left, ints), eval_int_spec(*be.right, ints)) {
                (Some(a), Some(b)) => Some(compare_spec(be.op@, a, b)),
                _ => if be.op@ == "=="@ {
                    match (eval_bool_spec(*be.left, ctx, ints), eval_bool_spec(*be.right, ctx, ints)) {
                        (Some(a), Some(b)) => Some(a == b),
                        _ => None,
                    }
                } else if be.op@ == "!="@ {
                    match (eval_bool_spec(*be.left, ctx, ints), eval_bool_spec(*be.right, ctx, ints)) {
                        (Some(a), Some(b)) => Some(a != b),
                        _ => None,
                    }
                } else {
                    None
                },
            }
        },
        _ => None,
    }
}

fn eval_bool(e: &Expr, ctx: &ConstCtx, ints: &Vec<(String, i64)>) -> (r: Option<bool>)
    ensures
        r == eval_bool_spec(*e, ctx@, pair_views(ints@)),
    decreases e,
{
    match e {
        Expr::LiteralExpr(l) => {
            if str_eq(l.value.as_str(), "true") {
                Some(true)
            } else if str_eq(l.value.as_str(), "false") {
                Some(false)
            } else {
                None
            }
        },
        Expr::NameExpr(n) => lookup_in(&ctx.bools, n.name.as_str()),
        Expr::FieldAccessExpr(fa) => {
            match &*fa.target {
                Expr::ThisExpr(_) => lookup_in(&ctx.bools, fa.field.as_str()),
                _ => None,
            }
        },
        Expr::EnclosedExpr { inner, .. } => eval_bool(inner, ctx, ints),
        Expr::UnaryExpr(u) => {
            if str_eq(u.op.as_str(), "!") {
                match eval_bool(&u.expr, ctx, ints) {
                    Some(b) => Some(!b),
                    None => None,
                }
            } else {
                None
            }
        },
        Expr::BinaryExpr(be) => {
            let op = be.op.as_str();
            if str_eq(op, "&&") {
                match (eval_bool(&be.left, ctx, ints), eval_bool(&be.right, ctx, ints)) {
                    (Some(a), Some(b)) => Some(a && b),
                    _ => None,
                }
            } else if str_eq(op, "||") {
                match (eval_bool(&be.left, ctx, ints), eval_bool(&be.right, ctx, ints)) {
                    (Some(a), Some(b)) => Some(a || b),
                    _ => None,
                }
            } else {
                match (eval_int(&be.left, ints), eval_int(&be.right, ints)) {
                    (Some(a), Some(b)) => Some(compare_op(op, a, b)),
                    _ => {
                        if str_eq(op, "==") {
                            match (eval_bool(&be.left, ctx, ints), eval_bool(&be.right, ctx, ints)) {
                                (Some(a), Some(b)) => Some(a == b),
                                _ => None,
                            }
                        } else if str_eq(op, "!=") {
                            match (eval_bool(&be.left, ctx, ints), eval_bool(&be.right, ctx, ints)) {
                                (Some(a), Some(b)) => Some(a != b),
                                _ => None,
                            }
                        } else {
                            None
                        }
                    },
                }
            }
        },
        _ => None,
    }
}

/// The name an assignment writes: a variable, or the field of a field
/// access.
pub open spec fn assign_target(e: Expr) -> Seq<Seq<char>> {
    match e {
        Expr::NameExpr(n) => seq![n.name@],
        Expr::FieldAccessExpr(fa) => seq![fa.field@],
        _ => seq![],
    }
}

/// The names an expression reads or writes (variables and accessed fields), lambda bodies included.
pub open spec fn names_expr(e: Expr) -> Seq<Seq<char>>
    decreases e,
{
    match e {
        Expr::NameExpr(n) => seq![n.name@],
        Expr::FieldAccessExpr(fa) => seq![fa.field@] + names_expr(*fa.target),
        Expr::MethodCallExpr(mc) => names_exprs(mc.arguments@),
        Expr::BinaryExpr(be) => names_expr(*be.left) + names_expr(*be.right),
        Expr::UnaryExpr(ue) => names_expr(*ue.expr),
        Expr::AssignExpr(ae) => names_expr(*ae.target) + names_expr(*ae.value),
        Expr::CastExpr(ce) => names_expr(*ce.expr),
        Expr::ConditionalExpr(ce) => names_expr(*ce.condition) + names_expr(*ce.then_expr) + names_expr(
            *ce.else_expr,
        ),
        Expr::ArrayAccessExpr(aa) => names_expr(*aa.array) + names_expr(*aa.index),
        Expr::ArrayCreationExpr(ac) => names_exprs(ac.initializer@),
        Expr::ObjectCreationExpr(oc) => names_exprs(oc.arguments@),
        Expr::InstanceOfExpr(io) => names_expr(*io.expr),
        Expr::LambdaExpr(le) => names_stmt(*le.body),
        Expr::VariableDeclarationExpr(vde) => names_decls(vde.declarations@),
        Expr::EnclosedExpr { inner, .. } => names_expr(*inner),
        _ => seq![],
    }
}

/// [`names_expr`] of a list of expressions, in order.
pub open spec fn names_exprs(es: Seq<Expr>) -> Seq<Seq<char>>
    decreases es,
{
    if es.len() == 0 {
        seq![]
    } else {
        names_exprs(es.drop_last()) + names_expr(es.last())
    }
}

/// [`names_expr`] of an optional expression.
pub open spec fn names_opt(e: Option<Expr>) -> Seq<Seq<char>>
    decreases e,
{
    match e {
        Some(x) => names_expr(x),
        None => seq![],
    }
}

/// [`names_expr`] of the initialisers of declarators, in order.
pub open spec fn names_decls(ds: Seq<VarDeclarator>) -> Seq<Seq<char>>
    decreases ds,
{
    if ds.len() == 0 {
        seq![]
    } else {
        names_decls(ds.drop_last()) + names_opt(ds.last().initializer)
    }
}

/// The names a statement reads or writes.
pub open spec fn names_stmt(s: Stmt) -> Seq<Seq<char>>
    decreases s,
{
    match s {
        Stmt::BlockStmt(b) => names_block(b),
        Stmt::IfStmt(is) => names_stmt(*is.then_stmt) + match is.else_stmt {
            Some(e) => names_stmt(*e),
            None => seq![],
        } + names_expr(is.condition),
        Stmt::ForStmt(fs) => names_stmt(*fs.body) + names_opt(fs.condition) + names_opt(fs.initialization)
            + names_exprs(fs.update@),
        Stmt::ForEachStmt(fe) => names_stmt(*fe.body) + names_expr(fe.iterable),
        Stmt::WhileStmt(w) => names_stmt(*w.body) + names_expr(w.condition),
        Stmt::DoStmt(d) => names_stmt(*d.body) + names_expr(d.condition),
        Stmt::TryStmt(ts) => names_block(ts.try_body) + names_catches(ts.catch_clauses@) + match ts.finally_body {
            Some(f) => names_block(f),
            None => seq![],
        },
        Stmt::SwitchStmt(ss) => names_expr(ss.selector) + names_cases(ss.cases@),
        Stmt::SynchronizedStmt(sy) => names_expr(sy.expr) + names_block(sy.body),
        Stmt::ExpressionStmt(es) => names_expr(es.expr),
        Stmt::VariableDeclarationStmt(vs) => names_decls(vs.declarations@),
        Stmt::ReturnStmt(rs) => names_opt(rs.expr),
        Stmt::ThrowStmt(ts) => names_expr(ts.expr),
        _ => seq![],
    }
}

/// [`names_stmt`] of a list of statements, in order.
pub open spec fn names_stmts(ss: Seq<Stmt>) -> Seq<Seq<char>>
    decreases ss,
{
    if ss.len() == 0 {
        seq![]
    } else {
        names_stmts(ss.drop_last()) + names_stmt(ss.last())
    }
}

/// [`names_stmt`] of a block.
pub open spec fn names_block(b: BlockStmt) -> Seq<Seq<char>>
    decreases b,
{
    names_stmts(b.statements@)
}

/// [`names_block`] of the bodies of catch clauses, in order.
pub open spec fn names_catches(cs: Seq<CatchClause>) -> Seq<Seq<char>>
    decreases cs,
{
    if cs.len() == 0 {
        seq![]
    } else {
        names_catches(cs.drop_last()) + names_block(cs.last().body)
    }
}

/// [`names_stmts`] of the statements of switch cases, in order.
pub open spec fn names_cases(cs: Seq<SwitchCase>) -> Seq<Seq<char>>
    decreases cs,
{
    if cs.len() == 0 {
        seq![]
    } else {
        names_cases(cs.drop_last()) + names_stmts(cs.last().statements@)
    }
}

/// The names an expression assigns or increments, lambda bodies included.
pub open spec fn muts_expr(e: Expr) -> Seq<Seq<char>>
    decreases e,
{
    match e {
        Expr::MethodCallExpr(mc) => muts_exprs(mc.arguments@),
        Expr::FieldAccessExpr(fa) => muts_expr(*fa.target),
        Expr::BinaryExpr(be) => muts_expr(*be.left) + muts_expr(*be.right),
        Expr::UnaryExpr(ue) => (if ue.op@ == "++"@ || ue.op@ == "--"@ {
            assign_target(*ue.expr)
        } else {
            seq![]
        }) + muts_expr(*ue.expr),
        Expr::AssignExpr(ae) => assign_target(*ae.target) + muts_expr(*ae.target) + muts_expr(*ae.value),
        Expr::CastExpr(ce) => muts_expr(*ce.expr),
        Expr::ConditionalExpr(ce) => muts_expr(*ce.condition) + muts_expr(*ce.then_expr) + muts_expr(
            *ce.else_expr,
        ),
        Expr::ArrayAccessExpr(aa) => muts_expr(*aa.array) + muts_expr(*aa.index),
        Expr::ArrayCreationExpr(ac) => muts_exprs(ac.initializer@),
        Expr::ObjectCreationExpr(oc) => muts_exprs(oc.arguments@),
        Expr::InstanceOfExpr(io) => muts_expr(*io.expr),
        Expr::LambdaExpr(le) => muts_stmt(*le.body),
        Expr::VariableDeclarationExpr(vde) => muts_decls(vde.declarations@),
        Expr::EnclosedExpr { inner, .. } => muts_expr(*inner),
        _ => seq![],
    }
}

/// [`muts_expr`] of a list of expressions, in order.
pub open spec fn muts_exprs(es: Seq<Expr>) -> Seq<Seq<char>>
    decreases es,
{
    if es.len() == 0 {
        seq![]
    } else {
        muts_exprs(es.drop_last()) + muts_expr(es.last())
    }
}

/// [`muts_expr`] of an optional expression.
pub open spec fn muts_opt(e: Option<Expr>) -> Seq<Seq<char>>
    decreases e,
{
    match e {
        Some(x) => muts_expr(x),
        None => seq![],
    }
}

/// [`muts_expr`] of the initialisers of declarators, in order.
pub open spec fn muts_decls(ds: Seq<VarDeclarator>) -> Seq<Seq<char>>
    decreases ds,
{
    if ds.len() == 0 {
        seq![]
    } else {
        muts_decls(ds.drop_last()) + muts_opt(ds.last().initializer)
    }
}

/// The names a statement assigns or increments.
pub open spec fn muts_stmt(s: Stmt) -> Seq<Seq<char>>
    decreases s,
{
    match s {
        Stmt::BlockStmt(b) => muts_block(b),
        Stmt::IfStmt(is) => muts_stmt(*is.then_stmt) + match is.else_stmt {
            Some(e) => muts_stmt(*e),
            None => seq![],
        } + muts_expr(is.condition),
        Stmt::ForStmt(fs) => muts_stmt(*fs.body) + muts_opt(fs.condition) + muts_opt(fs.initialization)
            + muts_exprs(fs.update@),
        Stmt::ForEachStmt(fe) => muts_stmt(*fe.body) + muts_expr(fe.iterable),
        Stmt::WhileStmt(w) => muts_stmt(*w.body) + muts_expr(w.condition),
        Stmt::DoStmt(d) => muts_stmt(*d.body) + muts_expr(d.condition),
        Stmt::TryStmt(ts) => muts_block(ts.try_body) + muts_catches(ts.catch_clauses@) + match ts.finally_body {
            Some(f) => muts_block(f),
            None => seq![],
        },
        Stmt::SwitchStmt(ss) => muts_expr(ss.selector) + muts_cases(ss.cases@),
        Stmt::SynchronizedStmt(sy) => muts_expr(sy.expr) + muts_block(sy.body),
        Stmt::ExpressionStmt(es) => muts_expr(es.expr),
        Stmt::VariableDeclarationStmt(vs) => muts_decls(vs.declarations@),
        Stmt::ReturnStmt(rs) => muts_opt(rs.expr),
        Stmt::ThrowStmt(ts) => muts_expr(ts.expr),
        _ => seq![],
    }
}

/// [`muts_stmt`] of a list of statements, in order.
pub open spec fn muts_stmts(ss: Seq<Stmt>) -> Seq<Seq<char>>
    decreases ss,
{
    if ss.len() == 0 {
        seq![]
    } else {
        muts_stmts(ss.drop_last()) + muts_stmt(ss.last())
    }
}

/// [`muts_stmt`] of a block.
pub open spec fn muts_block(b: BlockStmt) -> Seq<Seq<char>>
    decreases b,
{
    muts_stmts(b.statements@)
}

/// [`muts_block`] of the bodies of catch clauses, in order.
pub open spec fn muts_catches(cs: Seq<CatchClause>) -> Seq<Seq<char>>
    decreases cs,
{
    if cs.len() == 0 {
        seq![]
    } else {
        muts_catches(cs.drop_last()) + muts_block(cs.last().body)
    }
}

/// [`muts_stmts`] of the statements of switch cases, in order.
pub open spec fn muts_cases(cs: Seq<SwitchCase>) -> Seq<Seq<char>>
    decreases cs,
{
    if cs.len() == 0 {
        seq![]
    } else {
        muts_cases(cs.drop_last()) + muts_stmts(cs.last().statements@)
    }
}

proof fn lemma_cat3<A>(a: Seq<A>, b: Seq<A>, c: Seq<A>)
    ensures
        a + b + c == a + (b + c),
{
    assert(a + b + c =~= a + (b + c));
}

fn push_name(out: &mut Vec<String>, n: String)
    ensures
        name_views(final(out)@) == name_views(old(out)@).push(n@),
{
    out.push(n);
    assert(name_views(out@) =~= name_views(old(out)@).push(n@));
}

fn record_target(e: &Expr, out: &mut Vec<String>)
    ensures
        name_views(final(out)@) == name_views(old(out)@) + assign_target(*e),
{
    match e {
        Expr::NameExpr(n) => push_name(out, n.name.clone()),
        Expr::FieldAccessExpr(fa) => push_name(out, fa.field.clone()),
        _ => {
            assert(name_views(out@) == name_views(out@) + Seq::<Seq<char>>::empty());
        },
    }
}

fn names_expr_into(e: &Expr, out: &mut Vec<String>)
    ensures
        name_views(final(out)@) == name_views(old(out)@) + names_expr(*e),
    decreases e,
{
    let ghost v0 = name_views(out@);
    match e {
        Expr::NameExpr(n) => {
            push_name(out, n.name.clone());
        },
        Expr::FieldAccessExpr(fa) => {
            push_name(out, fa.field.clone());
            names_expr_into(&fa.target, out);
            proof { lemma_cat3(v0, seq![fa.field@], names_expr(*fa.target)); }
        },
        Expr::MethodCallExpr(mc) => {
            let ghost b0 = name_views(out@);
            let mut i: usize = 0;
            assert(mc.arguments@.take(0) == Seq::<Expr>::empty());
            assert(name_views(out@) == b0 + Seq::<Seq<char>>::empty());
            while i < mc.arguments.len()
                invariant
                    i <= mc.arguments.len(),
                    *e == Expr::MethodCallExpr(*mc),
                    name_views(out@) == b0 + names_exprs(mc.arguments@.take(i as int)),
                decreases mc.arguments.len() - i,
            {
                proof {
                    assert(decreases_to!(*e => (*e)->MethodCallExpr_0));
                    assert(decreases_to!(*mc => mc.arguments));
                    assert(decreases_to!(mc.arguments => mc.arguments@));
                    assert(decreases_to!(mc.arguments@ => mc.arguments@[i as int]));
                }
                names_expr_into(&mc.arguments[i], out);
                proof {
                    let t = mc.arguments@.take(i + 1);
                    assert(t.drop_last() == mc.arguments@.take(i as int));
                    assert(t.last() == mc.arguments@[i as int]);
                    lemma_cat3(b0, names_exprs(mc.arguments@.take(i as int)), names_expr(mc.arguments@[i as int]));
                }
                i += 1;
            }
            assert(mc.arguments@.take(i as int) == mc.arguments@);
        },
        Expr::BinaryExpr(be) => {
            names_expr_into(&be.left, out);
            names_expr_into(&be.right, out);
            proof { lemma_cat3(v0, names_expr(*be.left), names_expr(*be.right)); }
        },
        Expr::UnaryExpr(ue) => names_expr_into(&ue.expr, out),
        Expr::AssignExpr(ae) => {
            names_expr_into(&ae.target, out);
            names_expr_into(&ae.value, out);
            proof { lemma_cat3(v0, names_expr(*ae.target), names_expr(*ae.value)); }
        },
        Expr::CastExpr(ce) => names_expr_into(&ce.expr, out),
        Expr::ConditionalExpr(ce) => {
            names_expr_into(&ce.condition, out);
            names_expr_into(&ce.then_expr, out);
            proof { lemma_cat3(v0, names_expr(*ce.condition), names_expr(*ce.then_expr)); }
            names_expr_into(&ce.else_expr, out);
            proof { lemma_cat3(v0, names_expr(*ce.condition) + names_expr(*ce.then_expr), names_expr(*ce.else_expr)); }
        },
        Expr::ArrayAccessExpr(aa) => {
            names_expr_into(&aa.array, out);
            names_expr_into(&aa.index, out);
            proof { lemma_cat3(v0, names_expr(*aa.array), names_expr(*aa.index)); }
        },
        Expr::ArrayCreationExpr(ac) => {
            let ghost b0 = name_views(out@);
            let mut i: usize = 0;
            assert(ac.initializer@.take(0) == Seq::<Expr>::empty());
            assert(name_views(out@) == b0 + Seq::<Seq<char>>::empty());
            while i < ac.initializer.len()
                invariant
                    i <= ac.initializer.len(),
                    *e == Expr::ArrayCreationExpr(*ac),
                    name_views(out@) == b0 + names_exprs(ac.initializer@.take(i as int)),
                decreases ac.initializer.len() - i,
            {
                proof {
                    assert(decreases_to!(*e => (*e)->ArrayCreationExpr_0));
                    assert(decreases_to!(*ac => ac.initializer));
                    assert(decreases_to!(ac.initializer => ac.initializer@));
                    assert(decreases_to!(ac.initializer@ => ac.initializer@[i as int]));
                }
                names_expr_into(&ac.initializer[i], out);
                proof {
                    let t = ac.initializer@.take(i + 1);
                    assert(t.drop_last() == ac.initializer@.take(i as int));
                    assert(t.last() == ac.initializer@[i as int]);
                    lemma_cat3(b0, names_exprs(ac.initializer@.take(i as int)), names_expr(ac.initializer@[i as int]));
                }
                i += 1;
            }
            assert(ac.initializer@.take(i as int) == ac.initializer@);
        },
        Expr::ObjectCreationExpr(oc) => {
            let ghost b0 = name_views(out@);
            let mut i: usize = 0;
            assert(oc.arguments@.take(0) == Seq::<Expr>::empty());
            assert(name_views(out@) == b0 + Seq::<Seq<char>>::empty());
            while i < oc.arguments.len()
                invariant
                    i <= oc.arguments.len(),
                    *e == Expr::ObjectCreationExpr(*oc),
                    name_views(out@) == b0 + names_exprs(oc.arguments@.take(i as int)),
                decreases oc.arguments.len() - i,
            {
                proof {
                    assert(decreases_to!(*e => (*e)->ObjectCreationExpr_0));
                    assert(decreases_to!(*oc => oc.arguments));
                    assert(decreases_to!(oc.arguments => oc.arguments@));
                    assert(decreases_to!(oc.arguments@ => oc.arguments@[i as int]));
                }
                names_expr_into(&oc.arguments[i], out);
                proof {
                    let t = oc.arguments@.take(i + 1);
                    assert(t.drop_last() == oc.arguments@.take(i as int));
                    assert(t.last() == oc.arguments@[i as int]);
                    lemma_cat3(b0, names_exprs(oc.arguments@.take(i as int)), names_expr(oc.arguments@[i as int]));
                }
                i += 1;
            }
            assert(oc.arguments@.take(i as int) == oc.arguments@);
        },
        Expr::InstanceOfExpr(io) => names_expr_into(&io.expr, out),
        Expr::LambdaExpr(le) => names_stmt_into(&le.body, out),
        Expr::VariableDeclarationExpr(vde) => {
            let ghost b0 = name_views(out@);
            let mut i: usize = 0;
            assert(vde.declarations@.take(0) == Seq::<VarDeclarator>::empty());
            assert(name_views(out@) == b0 + Seq::<Seq<char>>::empty());
            while i < vde.declarations.len()
                invariant
                    i <= vde.declarations.len(),
                    *e == Expr::VariableDeclarationExpr(*vde),
                    name_views(out@) == b0 + names_decls(vde.declarations@.take(i as int)),
                decreases vde.declarations.len() - i,
            {
                proof {
                    assert(decreases_to!(*e => (*e)->VariableDeclarationExpr_0));
                    assert(decreases_to!(*vde => vde.declarations));
                    assert(decreases_to!(vde.declarations => vde.declarations@));
                    assert(decreases_to!(vde.declarations@ => vde.declarations@[i as int]));
                    assert(decreases_to!(vde.declarations@[i as int] => vde.declarations@[i as int].initializer));
                }
                names_opt_into(&vde.declarations[i].initializer, out);
                proof {
                    let t = vde.declarations@.take(i + 1);
                    assert(t.drop_last() == vde.declarations@.take(i as int));
                    assert(t.last() == vde.declarations@[i as int]);
                    lemma_cat3(b0, names_decls(vde.declarations@.take(i as int)), names_opt(vde.declarations@[i as int].initializer));
                }
                i += 1;
            }
            assert(vde.declarations@.take(i as int) == vde.declarations@);
        },
        Expr::EnclosedExpr { inner, .. } => names_expr_into(inner, out),
        _ => {
            assert(name_views(out@) == v0 + Seq::<Seq<char>>::empty());
        },
    }
}

fn names_opt_into(e: &Option<Expr>, out: &mut Vec<String>)
    ensures
        name_views(final(out)@) == name_views(old(out)@) + names_opt(*e),
    decreases e,
{
    match e {
        Some(x) => names_expr_into(x, out),
        None => {
            assert(name_views(out@) == name_views(out@) + Seq::<Seq<char>>::empty());
        },
    }
}

fn names_block_into(b: &BlockStmt, out: &mut Vec<String>)
    ensures
        name_views(final(out)@) == name_views(old(out)@) + names_block(*b),
    decreases b,
{
            let ghost b0 = name_views(out@);
            let mut i: usize = 0;
            assert(b.statements@.take(0) == Seq::<Stmt>::empty());
            assert(name_views(out@) == b0 + Seq::<Seq<char>>::empty());
            while i < b.statements.len()
                invariant
                    i <= b.statements.len(),
                    name_views(out@) == b0 + names_stmts(b.statements@.take(i as int)),
                decreases b.statements.len() - i,
            {
                proof {
                    assert(decreases_to!(*b => b.statements));
                    assert(decreases_to!(b.statements => b.statements@));
                    assert(decreases_to!(b.statements@ => b.statements@[i as int]));
                }
                names_stmt_into(&b.statements[i], out);
                proof {
                    let t = b.statements@.take(i + 1);
                    assert(t.drop_last() == b.statements@.take(i as int));
                    assert(t.last() == b.statements@[i as int]);
                    lemma_cat3(b0, names_stmts(b.statements@.take(i as int)), names_stmt(b.statements@[i as int]));
                }
                i += 1;
            }
            assert(b.statements@.take(i as int) == b.statements@);
}

fn names_stmt_into(s: &Stmt, out: &mut Vec<String>)
    ensures
        name_views(final(out)@) == name_views(old(out)@) + names_stmt(*s),
    decreases s,
{
    let ghost v0 = name_views(out@);
    match s {
        Stmt::BlockStmt(b) => names_block_into(b, out),
        Stmt::IfStmt(is) => {
            names_stmt_into(&is.then_stmt, out);
            let ghost a1 = names_stmt(*is.then_stmt);
            match &is.else_stmt {
                Some(x) => {
                    names_stmt_into(x, out);
                    proof { lemma_cat3(v0, a1, names_stmt(**x)); }
                },
                None => {
                    assert(a1 + Seq::<Seq<char>>::empty() == a1);
                },
            }
            let ghost a2 = a1 + match &is.else_stmt { Some(x) => names_stmt(**x), None => Seq::<Seq<char>>::empty() };
            names_expr_into(&is.condition, out);
            proof { lemma_cat3(v0, a2, names_expr(is.condition)); }
        },
        Stmt::ForStmt(fs) => {
            names_stmt_into(&fs.body, out);
            names_opt_into(&fs.condition, out);
            proof { lemma_cat3(v0, names_stmt(*fs.body), names_opt(fs.condition)); }
            let ghost a2 = names_stmt(*fs.body) + names_opt(fs.condition);
            names_opt_into(&fs.initialization, out);
            proof { lemma_cat3(v0, a2, names_opt(fs.initialization)); }
            let ghost a3 = a2 + names_opt(fs.initialization);
            {
            let ghost b1 = name_views(out@);
            let mut i: usize = 0;
            assert(fs.update@.take(0) == Seq::<Expr>::empty());
            assert(name_views(out@) == b1 + Seq::<Seq<char>>::empty());
            while i < fs.update.len()
                invariant
                    i <= fs.update.len(),
                    *s == Stmt::ForStmt(*fs),
                    name_views(out@) == b1 + names_exprs(fs.update@.take(i as int)),
                decreases fs.update.len() - i,
            {
                proof {
                    assert(decreases_to!(*s => (*s)->ForStmt_0));
                    assert(decreases_to!(*fs => fs.update));
                    assert(decreases_to!(fs.update => fs.update@));
                    assert(decreases_to!(fs.update@ => fs.update@[i as int]));
                }
                names_expr_into(&fs.update[i], out);
                proof {
                    let t = fs.update@.take(i + 1);
                    assert(t.drop_last() == fs.update@.take(i as int));
                    assert(t.last() == fs.update@[i as int]);
                    lemma_cat3(b1, names_exprs(fs.update@.take(i as int)), names_expr(fs.update@[i as int]));
                }
                i += 1;
            }
            assert(fs.update@.take(i as int) == fs.update@);
            }
            proof { lemma_cat3(v0, a3, names_exprs(fs.update@)); }
        },
        Stmt::ForEachStmt(fe) => {
            names_stmt_into(&fe.body, out);
            names_expr_into(&fe.iterable, out);
            proof { lemma_cat3(v0, names_stmt(*fe.body), names_expr(fe.iterable)); }
        },
        Stmt::WhileStmt(w) => {
            names_stmt_into(&w.body, out);
            names_expr_into(&w.condition, out);
            proof { lemma_cat3(v0, names_stmt(*w.body), names_expr(w.condition)); }
        },
        Stmt::DoStmt(d) => {
            names_stmt_into(&d.body, out);
            names_expr_into(&d.condition, out);
            proof { lemma_cat3(v0, names_stmt(*d.body), names_expr(d.condition)); }
        },
        Stmt::TryStmt(ts) => {
            names_block_into(&ts.try_body, out);
            {
            let ghost b1 = name_views(out@);
            let mut i: usize = 0;
            assert(ts.catch_clauses@.take(0) == Seq::<CatchClause>::empty());
            assert(name_views(out@) == b1 + Seq::<Seq<char>>::empty());
            while i < ts.catch_clauses.len()
                invariant
                    i <= ts.catch_clauses.len(),
                    *s == Stmt::TryStmt(*ts),
                    name_views(out@) == b1 + names_catches(ts.catch_clauses@.take(i as int)),
                decreases ts.catch_clauses.len() - i,
            {
                proof {
                    assert(decreases_to!(*s => (*s)->TryStmt_0));
                    assert(decreases_to!(*ts => ts.catch_clauses));
                    assert(decreases_to!(ts.catch_clauses => ts.catch_clauses@));
                    assert(decreases_to!(ts.catch_clauses@ => ts.catch_clauses@[i as int]));
                    assert(decreases_to!(ts.catch_clauses@[i as int] => ts.catch_clauses@[i as int].body));
                }
                names_block_into(&ts.catch_clauses[i].body, out);
                proof {
                    let t = ts.catch_clauses@.take(i + 1);
                    assert(t.drop_last() == ts.catch_clauses@.take(i as int));
                    assert(t.last() == ts.catch_clauses@[i as int]);
                    lemma_cat3(b1, names_catches(ts.catch_clauses@.take(i as int)), names_block(ts.catch_clauses@[i as int].body));
                }
                i += 1;
            }
            assert(ts.catch_clauses@.take(i as int) == ts.catch_clauses@);
            }
            proof { lemma_cat3(v0, names_block(ts.try_body), names_catches(ts.catch_clauses@)); }
            let ghost a2 = names_block(ts.try_body) + names_catches(ts.catch_clauses@);
            match &ts.finally_body {
                Some(f) => {
                    names_block_into(f, out);
                    proof { lemma_cat3(v0, a2, names_block(*f)); }
                },
                None => {
                    assert(a2 + Seq::<Seq<char>>::empty() == a2);
                },
            }
        },
        Stmt::SwitchStmt(ss) => {
            names_expr_into(&ss.selector, out);
            let ghost b1 = name_views(out@);
            let mut c: usize = 0;
            assert(ss.cases@.take(0) == Seq::<SwitchCase>::empty());
            assert(name_views(out@) == b1 + Seq::<Seq<char>>::empty());
            while c < ss.cases.len()
                invariant
                    c <= ss.cases.len(),
                    *s == Stmt::SwitchStmt(*ss),
                    name_views(out@) == b1 + names_cases(ss.cases@.take(c as int)),
                decreases ss.cases.len() - c,
            {
                let case = &ss.cases[c];
                let ghost b2 = name_views(out@);
                let mut k: usize = 0;
                assert(case.statements@.take(0) == Seq::<Stmt>::empty());
                assert(name_views(out@) == b2 + Seq::<Seq<char>>::empty());
                while k < case.statements.len()
                    invariant
                        k <= case.statements.len(),
                        *s == Stmt::SwitchStmt(*ss),
                        c < ss.cases.len(),
                        *case == ss.cases@[c as int],
                        name_views(out@) == b2 + names_stmts(case.statements@.take(k as int)),
                    decreases case.statements.len() - k,
                {
                    proof {
                        assert(decreases_to!(*s => (*s)->SwitchStmt_0));
                        assert(decreases_to!(*ss => ss.cases));
                        assert(decreases_to!(ss.cases => ss.cases@));
                        assert(decreases_to!(ss.cases@ => ss.cases@[c as int]));
                        assert(decreases_to!(ss.cases@[c as int] => ss.cases@[c as int].statements));
                        assert(decreases_to!(case.statements => case.statements@));
                        assert(decreases_to!(case.statements@ => case.statements@[k as int]));
                    }
                    names_stmt_into(&case.statements[k], out);
                    proof {
                        let t = case.statements@.take(k + 1);
                        assert(t.drop_last() == case.statements@.take(k as int));
                        assert(t.last() == case.statements@[k as int]);
                        lemma_cat3(b2, names_stmts(case.statements@.take(k as int)), names_stmt(case.statements@[k as int]));
                    }
                    k += 1;
                }
                assert(case.statements@.take(k as int) == case.statements@);
                proof {
                    let t = ss.cases@.take(c + 1);
                    assert(t.drop_last() == ss.cases@.take(c as int));
                    assert(t.last() == ss.cases@[c as int]);
                    lemma_cat3(b1, names_cases(ss.cases@.take(c as int)), names_stmts(case.statements@));
                }
                c += 1;
            }
            assert(ss.cases@.take(c as int) == ss.cases@);
            proof { lemma_cat3(v0, names_expr(ss.selector), names_cases(ss.cases@)); }
        },
        Stmt::SynchronizedStmt(sy) => {
            names_expr_into(&sy.expr, out);
            names_block_into(&sy.body, out);
            proof { lemma_cat3(v0, names_expr(sy.expr), names_block(sy.body)); }
        },
        Stmt::ExpressionStmt(es) => names_expr_into(&es.expr, out),
        Stmt::VariableDeclarationStmt(vs) => {
            let ghost b0 = name_views(out@);
            let mut i: usize = 0;
            assert(vs.declarations@.take(0) == Seq::<VarDeclarator>::empty());
            assert(name_views(out@) == b0 + Seq::<Seq<char>>::empty());
            while i < vs.declarations.len()
                invariant
                    i <= vs.declarations.len(),
                    *s == Stmt::VariableDeclarationStmt(*vs),
                    name_views(out@) == b0 + names_decls(vs.declarations@.take(i as int)),
                decreases vs.declarations.len() - i,
            {
                proof {
                    assert(decreases_to!(*s => (*s)->VariableDeclarationStmt_0));
                    assert(decreases_to!(*vs => vs.declarations));
                    assert(decreases_to!(vs.declarations => vs.declarations@));
                    assert(decreases_to!(vs.declarations@ => vs.declarations@[i as int]));
                    assert(decreases_to!(vs.declarations@[i as int] => vs.declarations@[i as int].initializer));
                }
                names_opt_into(&vs.declarations[i].initializer, out);
                proof {
                    let t = vs.declarations@.take(i + 1);
                    assert(t.drop_last() == vs.declarations@.take(i as int));
                    assert(t.last() == vs.declarations@[i as int]);
                    lemma_cat3(b0, names_decls(vs.declarations@.take(i as int)), names_opt(vs.declarations@[i as int].initializer));
                }
                i += 1;
            }
            assert(vs.declarations@.take(i as int) == vs.declarations@);
        },
        Stmt::ReturnStmt(rs) => names_opt_into(&rs.expr, out),
        Stmt::ThrowStmt(ts) => names_expr_into(&ts.expr, out),
        _ => {
            assert(name_views(out@) == v0 + Seq::<Seq<char>>::empty());
        },
    }
}

fn muts_expr_into(e: &Expr, out: &mut Vec<String>)
    ensures
        name_views(final(out)@) == name_views(old(out)@) + muts_expr(*e),
    decreases e,
{
    let ghost v0 = name_views(out@);
    match e {
        Expr::FieldAccessExpr(fa) => muts_expr_into(&fa.target, out),
        Expr::UnaryExpr(ue) => {
            let ghost t = if ue.op@ == "++"@ || ue.op@ == "--"@ { assign_target(*ue.expr) } else { Seq::<Seq<char>>::empty() };
            if str_eq(ue.op.as_str(), "++") || str_eq(ue.op.as_str(), "--") {
                record_target(&ue.expr, out);
            } else {
                assert(name_views(out@) == v0 + t);
            }
            muts_expr_into(&ue.expr, out);
            proof { lemma_cat3(v0, t, muts_expr(*ue.expr)); }
        },
        Expr::AssignExpr(ae) => {
            record_target(&ae.target, out);
            muts_expr_into(&ae.target, out);
            proof { lemma_cat3(v0, assign_target(*ae.target), muts_expr(*ae.target)); }
            muts_expr_into(&ae.value, out);
            proof { lemma_cat3(v0, assign_target(*ae.target) + muts_expr(*ae.target), muts_expr(*ae.value)); }
        },
        Expr::MethodCallExpr(mc) => {
            let ghost b0 = name_views(out@);
            let mut i: usize = 0;
            assert(mc.arguments@.take(0) == Seq::<Expr>::empty());
            assert(name_views(out@) == b0 + Seq::<Seq<char>>::empty());
            while i < mc.arguments.len()
                invariant
                    i <= mc.arguments.len(),
                    *e == Expr::MethodCallExpr(*mc),
                    name_views(out@) == b0 + muts_exprs(mc.arguments@.take(i as int)),
                decreases mc.arguments.len() - i,
            {
                proof {
                    assert(decreases_to!(*e => (*e)->MethodCallExpr_0));
                    assert(decreases_to!(*mc => mc.arguments));
                    assert(decreases_to!(mc.arguments => mc.arguments@));
                    assert(decreases_to!(mc.arguments@ => mc.arguments@[i as int]));
                }
                muts_expr_into(&mc.arguments[i], out);
                proof {
                    let t = mc.arguments@.take(i + 1);
                    assert(t.drop_last() == mc.arguments@.take(i as int));
                    assert(t.last() == mc.arguments@[i as int]);
                    lemma_cat3(b0, muts_exprs(mc.arguments@.take(i as int)), muts_expr(mc.arguments@[i as int]));
                }
                i += 1;
            }
            assert(mc.arguments@.take(i as int) == mc.arguments@);
        },
        Expr::BinaryExpr(be) => {
            muts_expr_into(&be.left, out);
            muts_expr_into(&be.right, out);
            proof { lemma_cat3(v0, muts_expr(*be.left), muts_expr(*be.right)); }
        },
        Expr::CastExpr(ce) => muts_expr_into(&ce.expr, out),
        Expr::ConditionalExpr(ce) => {
            muts_expr_into(&ce.condition, out);
            muts_expr_into(&ce.then_expr, out);
            proof { lemma_cat3(v0, muts_expr(*ce.condition), muts_expr(*ce.then_expr)); }
            muts_expr_into(&ce.else_expr, out);
            proof { lemma_cat3(v0, muts_expr(*ce.condition) + muts_expr(*ce.then_expr), muts_expr(*ce.else_expr)); }
        },
        Expr::ArrayAccessExpr(aa) => {
            muts_expr_into(&aa.array, out);
            muts_expr_into(&aa.index, out);
            proof { lemma_cat3(v0, muts_expr(*aa.array), muts_expr(*aa.index)); }
        },
        Expr::ArrayCreationExpr(ac) => {
            let ghost b0 = name_views(out@);
            let mut i: usize = 0;
            assert(ac.initializer@.take(0) == Seq::<Expr>::empty());
            assert(name_views(out@) == b0 + Seq::<Seq<char>>::empty());
            while i < ac.initializer.len()
                invariant
                    i <= ac.initializer.len(),
                    *e == Expr::ArrayCreationExpr(*ac),
                    name_views(out@) == b0 + muts_exprs(ac.initializer@.take(i as int)),
                decreases ac.initializer.len() - i,
            {
                proof {
                    assert(decreases_to!(*e => (*e)->ArrayCreationExpr_0));
                    assert(decreases_to!(*ac => ac.initializer));
                    assert(decreases_to!(ac.initializer => ac.initializer@));
                    assert(decreases_to!(ac.initializer@ => ac.initializer@[i as int]));
                }
                muts_expr_into(&ac.initializer[i], out);
                proof {
                    let t = ac.initializer@.take(i + 1);
                    assert(t.drop_last() == ac.initializer@.take(i as int));
                    assert(t.last() == ac.initializer@[i as int]);
                    lemma_cat3(b0, muts_exprs(ac.initializer@.take(i as int)), muts_expr(ac.initializer@[i as int]));
                }
                i += 1;
            }
            assert(ac.initializer@.take(i as int) == ac.initializer@);
        },
        Expr::ObjectCreationExpr(oc) => {
            let ghost b0 = name_views(out@);
            let mut i: usize = 0;
            assert(oc.arguments@.take(0) == Seq::<Expr>::empty());
            assert(name_views(out@) == b0 + Seq::<Seq<char>>::empty());
            while i < oc.arguments.len()
                invariant
                    i <= oc.arguments.len(),
                    *e == Expr::ObjectCreationExpr(*oc),
                    name_views(out@) == b0 + muts_exprs(oc.arguments@.take(i as int)),
                decreases oc.arguments.len() - i,
            {
                proof {
                    assert(decreases_to!(*e => (*e)->ObjectCreationExpr_0));
                    assert(decreases_to!(*oc => oc.arguments));
                    assert(decreases_to!(oc.arguments => oc.arguments@));
                    assert(decreases_to!(oc.arguments@ => oc.arguments@[i as int]));
                }
                muts_expr_into(&oc.arguments[i], out);
                proof {
                    let t = oc.arguments@.take(i + 1);
                    assert(t.drop_last() == oc.arguments@.take(i as int));
                    assert(t.last() == oc.arguments@[i as int]);
                    lemma_cat3(b0, muts_exprs(oc.arguments@.take(i as int)), muts_expr(oc.arguments@[i as int]));
                }
                i += 1;
            }
            assert(oc.arguments@.take(i as int) == oc.arguments@);
        },
        Expr::InstanceOfExpr(io) => muts_expr_into(&io.expr, out),
        Expr::LambdaExpr(le) => muts_stmt_into(&le.body, out),
        Expr::VariableDeclarationExpr(vde) => {
            let ghost b0 = name_views(out@);
            let mut i: usize = 0;
            assert(vde.declarations@.take(0) == Seq::<VarDeclarator>::empty());
            assert(name_views(out@) == b0 + Seq::<Seq<char>>::empty());
            while i < vde.declarations.len()
                invariant
                    i <= vde.declarations.len(),
                    *e == Expr::VariableDeclarationExpr(*vde),
                    name_views(out@) == b0 + muts_decls(vde.declarations@.take(i as int)),
                decreases vde.declarations.len() - i,
            {
                proof {
                    assert(decreases_to!(*e => (*e)->VariableDeclarationExpr_0));
                    assert(decreases_to!(*vde => vde.declarations));
                    assert(decreases_to!(vde.declarations => vde.declarations@));
                    assert(decreases_to!(vde.declarations@ => vde.declarations@[i as int]));
                    assert(decreases_to!(vde.declarations@[i as int] => vde.declarations@[i as int].initializer));
                }
                muts_opt_into(&vde.declarations[i].initializer, out);
                proof {
                    let t = vde.declarations@.take(i + 1);
                    assert(t.drop_last() == vde.declarations@.take(i as int));
                    assert(t.last() == vde.declarations@[i as int]);
                    lemma_cat3(b0, muts_decls(vde.declarations@.take(i as int)), muts_opt(vde.declarations@[i as int].initializer));
                }
                i += 1;
            }
            assert(vde.declarations@.take(i as int) == vde.declarations@);
        },
        Expr::EnclosedExpr { inner, .. } => muts_expr_into(inner, out),
        _ => {
            assert(name_views(out@) == v0 + Seq::<Seq<char>>::empty());
        },
    }
}

fn muts_opt_into(e: &Option<Expr>, out: &mut Vec<String>)
    ensures
        name_views(final(out)@) == name_views(old(out)@) + muts_opt(*e),
    decreases e,
{
    match e {
        Some(x) => muts_expr_into(x, out),
        None => {
            assert(name_views(out@) == name_views(out@) + Seq::<Seq<char>>::empty());
        },
    }
}

fn muts_block_into(b: &BlockStmt, out: &mut Vec<String>)
    ensures
        name_views(final(out)@) == name_views(old(out)@) + muts_block(*b),
    decreases b,
{
            let ghost b0 = name_views(out@);
            let mut i: usize = 0;
            assert(b.statements@.take(0) == Seq::<Stmt>::empty());
            assert(name_views(out@) == b0 + Seq::<Seq<char>>::empty());
            while i < b.statements.len()
                invariant
                    i <= b.statements.len(),
                    name_views(out@) == b0 + muts_stmts(b.statements@.take(i as int)),
                decreases b.statements.len() - i,
            {
                proof {
                    assert(decreases_to!(*b => b.statements));
                    assert(decreases_to!(b.statements => b.statements@));
                    assert(decreases_to!(b.statements@ => b.statements@[i as int]));
                }
                muts_stmt_into(&b.statements[i], out);
                proof {
                    let t = b.statements@.take(i + 1);
                    assert(t.drop_last() == b.statements@.take(i as int));
                    assert(t.last() == b.statements@[i as int]);
                    lemma_cat3(b0, muts_stmts(b.statements@.take(i as int)), muts_stmt(b.statements@[i as int]));
                }
                i += 1;
            }
            assert(b.statements@.take(i as int) == b.statements@);
}

fn muts_stmt_into(s: &Stmt, out: &mut Vec<String>)
    ensures
        name_views(final(out)@) == name_views(old(out)@) + muts_stmt(*s),
    decreases s,
{
    let ghost v0 = name_views(out@);
    match s {
        Stmt::BlockStmt(b) => muts_block_into(b, out),
        Stmt::IfStmt(is) => {
            muts_stmt_into(&is.then_stmt, out);
            let ghost a1 = muts_stmt(*is.then_stmt);
            match &is.else_stmt {
                Some(x) => {
                    muts_stmt_into(x, out);
                    proof { lemma_cat3(v0, a1, muts_stmt(**x)); }
                },
                None => {
                    assert(a1 + Seq::<Seq<char>>::empty() == a1);
                },
            }
            let ghost a2 = a1 + match &is.else_stmt { Some(x) => muts_stmt(**x), None => Seq::<Seq<char>>::empty() };
            muts_expr_into(&is.condition, out);
            proof { lemma_cat3(v0, a2, muts_expr(is.condition)); }
        },
        Stmt::ForStmt(fs) => {
            muts_stmt_into(&fs.body, out);
            muts_opt_into(&fs.condition, out);
            proof { lemma_cat3(v0, muts_stmt(*fs.body), muts_opt(fs.condition)); }
            let ghost a2 = muts_stmt(*fs.body) + muts_opt(fs.condition);
            muts_opt_into(&fs.initialization, out);
            proof { lemma_cat3(v0, a2, muts_opt(fs.initialization)); }
            let ghost a3 = a2 + muts_opt(fs.initialization);
            {
            let ghost b1 = name_views(out@);
            let mut i: usize = 0;
            assert(fs.update@.take(0) == Seq::<Expr>::empty());
            assert(name_views(out@) == b1 + Seq::<Seq<char>>::empty());
            while i < fs.update.len()
                invariant
                    i <= fs.update.len(),
                    *s == Stmt::ForStmt(*fs),
                    name_views(out@) == b1 + muts_exprs(fs.update@.take(i as int)),
                decreases fs.update.len() - i,
            {
                proof {
                    assert(decreases_to!(*s => (*s)->ForStmt_0));
                    assert(decreases_to!(*fs => fs.update));
                    assert(decreases_to!(fs.update => fs.update@));
                    assert(decreases_to!(fs.update@ => fs.update@[i as int]));
                }
                muts_expr_into(&fs.update[i], out);
                proof {
                    let t = fs.update@.take(i + 1);
                    assert(t.drop_last() == fs.update@.take(i as int));
                    assert(t.last() == fs.update@[i as int]);
                    lemma_cat3(b1, muts_exprs(fs.update@.take(i as int)), muts_expr(fs.update@[i as int]));
                }
                i += 1;
            }
            assert(fs.update@.take(i as int) == fs.update@);
            }
            proof { lemma_cat3(v0, a3, muts_exprs(fs.update@)); }
        },
        Stmt::ForEachStmt(fe) => {
            muts_stmt_into(&fe.body, out);
            muts_expr_into(&fe.iterable, out);
            proof { lemma_cat3(v0, muts_stmt(*fe.body), muts_expr(fe.iterable)); }
        },
        Stmt::WhileStmt(w) => {
            muts_stmt_into(&w.body, out);
            muts_expr_into(&w.condition, out);
            proof { lemma_cat3(v0, muts_stmt(*w.body), muts_expr(w.condition)); }
        },
        Stmt::DoStmt(d) => {
            muts_stmt_into(&d.body, out);
            muts_expr_into(&d.condition, out);
            proof { lemma_cat3(v0, muts_stmt(*d.body), muts_expr(d.condition)); }
        },
        Stmt::TryStmt(ts) => {
            muts_block_into(&ts.try_body, out);
            {
            let ghost b1 = name_views(out@);
            let mut i: usize = 0;
            assert(ts.catch_clauses@.take(0) == Seq::<CatchClause>::empty());
            assert(name_views(out@) == b1 + Seq::<Seq<char>>::empty());
            while i < ts.catch_clauses.len()
                invariant
                    i <= ts.catch_clauses.len(),
                    *s == Stmt::TryStmt(*ts),
                    name_views(out@) == b1 + muts_catches(ts.catch_clauses@.take(i as int)),
                decreases ts.catch_clauses.len() - i,
            {
                proof {
                    assert(decreases_to!(*s => (*s)->TryStmt_0));
                    assert(decreases_to!(*ts => ts.catch_clauses));
                    assert(decreases_to!(ts.catch_clauses => ts.catch_clauses@));
                    assert(decreases_to!(ts.catch_clauses@ => ts.catch_clauses@[i as int]));
                    assert(decreases_to!(ts.catch_clauses@[i as int] => ts.catch_clauses@[i as int].body));
                }
                muts_block_into(&ts.catch_clauses[i].body, out);
                proof {
                    let t = ts.catch_clauses@.take(i + 1);
                    assert(t.drop_last() == ts.catch_clauses@.take(i as int));
                    assert(t.last() == ts.catch_clauses@[i as int]);
                    lemma_cat3(b1, muts_catches(ts.catch_clauses@.take(i as int)), muts_block(ts.catch_clauses@[i as int].body));
                }
                i += 1;
            }
            assert(ts.catch_clauses@.take(i as int) == ts.catch_clauses@);
            }
            proof { lemma_cat3(v0, muts_block(ts.try_body), muts_catches(ts.catch_clauses@)); }
            let ghost a2 = muts_block(ts.try_body) + muts_catches(ts.catch_clauses@);
            match &ts.finally_body {
                Some(f) => {
                    muts_block_into(f, out);
                    proof { lemma_cat3(v0, a2, muts_block(*f)); }
                },
                None => {
                    assert(a2 + Seq::<Seq<char>>::empty() == a2);
                },
            }
        },
        Stmt::SwitchStmt(ss) => {
            muts_expr_into(&ss.selector, out);
            let ghost b1 = name_views(out@);
            let mut c: usize = 0;
            assert(ss.cases@.take(0) == Seq::<SwitchCase>::empty());
            assert(name_views(out@) == b1 + Seq::<Seq<char>>::empty());
            while c < ss.cases.len()
                invariant
                    c <= ss.cases.len(),
                    *s == Stmt::SwitchStmt(*ss),
                    name_views(out@) == b1 + muts_cases(ss.cases@.take(c as int)),
                decreases ss.cases.len() - c,
            {
                let case = &ss.cases[c];
                let ghost b2 = name_views(out@);
                let mut k: usize = 0;
                assert(case.statements@.take(0) == Seq::<Stmt>::empty());
                assert(name_views(out@) == b2 + Seq::<Seq<char>>::empty());
                while k < case.statements.len()
                    invariant
                        k <= case.statements.len(),
                        *s == Stmt::SwitchStmt(*ss),
                        c < ss.cases.len(),
                        *case == ss.cases@[c as int],
                        name_views(out@) == b2 + muts_stmts(case.statements@.take(k as int)),
                    decreases case.statements.len() - k,
                {
                    proof {
                        assert(decreases_to!(*s => (*s)->SwitchStmt_0));
                        assert(decreases_to!(*ss => ss.cases));
                        assert(decreases_to!(ss.cases => ss.cases@));
                        assert(decreases_to!(ss.cases@ => ss.cases@[c as int]));
                        assert(decreases_to!(ss.cases@[c as int] => ss.cases@[c as int].statements));
                        assert(decreases_to!(case.statements => case.statements@));
                        assert(decreases_to!(case.statements@ => case.statements@[k as int]));
                    }
                    muts_stmt_into(&case.statements[k], out);
                    proof {
                        let t = case.statements@.take(k + 1);
                        assert(t.drop_last() == case.statements@.take(k as int));
                        assert(t.last() == case.statements@[k as int]);
                        lemma_cat3(b2, muts_stmts(case.statements@.take(k as int)), muts_stmt(case.statements@[k as int]));
                    }
                    k += 1;
                }
                assert(case.statements@.take(k as int) == case.statements@);
                proof {
                    let t = ss.cases@.take(c + 1);
                    assert(t.drop_last() == ss.cases@.take(c as int));
                    assert(t.last() == ss.cases@[c as int]);
                    lemma_cat3(b1, muts_cases(ss.cases@.take(c as int)), muts_stmts(case.statements@));
                }
                c += 1;
            }
            assert(ss.cases@.take(c as int) == ss.cases@);
            proof { lemma_cat3(v0, muts_expr(ss.selector), muts_cases(ss.cases@)); }
        },
        Stmt::SynchronizedStmt(sy) => {
            muts_expr_into(&sy.expr, out);
            muts_block_into(&sy.body, out);
            proof { lemma_cat3(v0, muts_expr(sy.expr), muts_block(sy.body)); }
        },
        Stmt::ExpressionStmt(es) => muts_expr_into(&es.expr, out),
        Stmt::VariableDeclarationStmt(vs) => {
            let ghost b0 = name_views(out@);
            let mut i: usize = 0;
            assert(vs.declarations@.take(0) == Seq::<VarDeclarator>::empty());
            assert(name_views(out@) == b0 + Seq::<Seq<char>>::empty());
            while i < vs.declarations.len()
                invariant
                    i <= vs.declarations.len(),
                    *s == Stmt::VariableDeclarationStmt(*vs),
                    name_views(out@) == b0 + muts_decls(vs.declarations@.take(i as int)),
                decreases vs.declarations.len() - i,
            {
                proof {
                    assert(decreases_to!(*s => (*s)->VariableDeclarationStmt_0));
                    assert(decreases_to!(*vs => vs.declarations));
                    assert(decreases_to!(vs.declarations => vs.declarations@));
                    assert(decreases_to!(vs.declarations@ => vs.declarations@[i as int]));
                    assert(decreases_to!(vs.declarations@[i as int] => vs.declarations@[i as int].initializer));
                }
                muts_opt_into(&vs.declarations[i].initializer, out);
                proof {
                    let t = vs.declarations@.take(i + 1);
                    assert(t.drop_last() == vs.declarations@.take(i as int));
                    assert(t.last() == vs.declarations@[i as int]);
                    lemma_cat3(b0, muts_decls(vs.declarations@.take(i as int)), muts_opt(vs.declarations@[i as int].initializer));
                }
                i += 1;
            }
            assert(vs.declarations@.take(i as int) == vs.declarations@);
        },
        Stmt::ReturnStmt(rs) => muts_opt_into(&rs.expr, out),
        Stmt::ThrowStmt(ts) => muts_expr_into(&ts.expr, out),
        _ => {
            assert(name_views(out@) == v0 + Seq::<Seq<char>>::empty());
        },
    }
}

/// What a method body tells about constants: the boolean literals its local
/// declarations bind, in order, and the names it assigns.
pub struct Facts {
    pub bools: Seq<(Seq<char>, bool)>,
    pub re: Seq<Seq<char>>,
}

/// No facts.
pub open spec fn no_facts() -> Facts {
    Facts { bools: seq![], re: seq![] }
}

/// The facts of `a` followed by those of `b`.
pub open spec fn fcat(a: Facts, b: Facts) -> Facts {
    Facts { bools: a.bools + b.bools, re: a.re + b.re }
}

/// The facts held in executable lists.
pub open spec fn fstate(bools: Seq<(String, bool)>, re: Seq<String>) -> Facts {
    Facts { bools: pair_views(bools), re: name_views(re) }
}

/// Assignments as facts.
pub open spec fn re_facts(names: Seq<Seq<char>>) -> Facts {
    Facts { bools: seq![], re: names }
}

/// Facts of an expression: its assignments and increments, and the facts
/// of lambda bodies.
pub open spec fn facts_expr(e: Expr) -> Facts
    decreases e,
{
    match e {
        Expr::AssignExpr(ae) => fcat(re_facts(assign_target(*ae.target)), facts_expr(*ae.value)),
        Expr::UnaryExpr(ue) => fcat(
            re_facts(
                if ue.op@ == "++"@ || ue.op@ == "--"@ {
                    assign_target(*ue.expr)
                } else {
                    seq![]
                },
            ),
            facts_expr(*ue.expr),
        ),
        Expr::BinaryExpr(be) => fcat(facts_expr(*be.left), facts_expr(*be.right)),
        Expr::MethodCallExpr(mc) => facts_exprs(mc.arguments@),
        Expr::FieldAccessExpr(fa) => facts_expr(*fa.target),
        Expr::CastExpr(ce) => facts_expr(*ce.expr),
        Expr::ConditionalExpr(ce) => fcat(
            fcat(facts_expr(*ce.condition), facts_expr(*ce.then_expr)),
            facts_expr(*ce.else_expr),
        ),
        Expr::ArrayAccessExpr(aa) => fcat(facts_expr(*aa.array), facts_expr(*aa.index)),
        Expr::ArrayCreationExpr(ac) => facts_exprs(ac.initializer@),
        Expr::ObjectCreationExpr(oc) => facts_exprs(oc.arguments@),
        Expr::InstanceOfExpr(io) => facts_expr(*io.expr),
        Expr::LambdaExpr(le) => facts_stmt(*le.body),
        Expr::EnclosedExpr { inner, .. } => facts_expr(*inner),
        _ => no_facts(),
    }
}

/// [`facts_expr`] of a list of expressions, in order.
pub open spec fn facts_exprs(es: Seq<Expr>) -> Facts
    decreases es,
{
    if es.len() == 0 {
        no_facts()
    } else {
        fcat(facts_exprs(es.drop_last()), facts_expr(es.last()))
    }
}

/// [`facts_expr`] of an optional expression.
pub open spec fn facts_opt(e: Option<Expr>) -> Facts
    decreases e,
{
    match e {
        Some(x) => facts_expr(x),
        None => no_facts(),
    }
}

/// The boolean literals that declarators bind, in order.
pub open spec fn decl_bools(ds: Seq<VarDeclarator>) -> Facts
    decreases ds.len(),
{
    if ds.len() == 0 {
        no_facts()
    } else {
        fcat(decl_bools(ds.drop_last()), decl_bool(ds.last()))
    }
}

/// The boolean literal one declarator binds, as facts.
pub open spec fn decl_bool(d: VarDeclarator) -> Facts {
    match d.initializer {
        Some(init) => match literal_bool_spec(init) {
            Some(b) => Facts { bools: seq![(d.name@, b)], re: seq![] },
            None => no_facts(),
        },
        None => no_facts(),
    }
}

/// Facts of a statement.
pub open spec fn facts_stmt(s: Stmt) -> Facts
    decreases s,
{
    match s {
        Stmt::BlockStmt(b) => facts_block(b),
        Stmt::VariableDeclarationStmt(vs) => decl_bools(vs.declarations@),
        Stmt::ExpressionStmt(es) => facts_expr(es.expr),
        Stmt::IfStmt(is) => fcat(
            fcat(
                facts_stmt(*is.then_stmt),
                match is.else_stmt {
                    Some(e) => facts_stmt(*e),
                    None => no_facts(),
                },
            ),
            facts_expr(is.condition),
        ),
        Stmt::ForStmt(fs) => fcat(
            fcat(fcat(facts_stmt(*fs.body), facts_opt(fs.initialization)), facts_opt(fs.condition)),
            facts_exprs(fs.update@),
        ),
        Stmt::ForEachStmt(fe) => fcat(facts_stmt(*fe.body), facts_expr(fe.iterable)),
        Stmt::WhileStmt(w) => fcat(facts_stmt(*w.body), facts_expr(w.condition)),
        Stmt::DoStmt(d) => fcat(facts_stmt(*d.body), facts_expr(d.condition)),
        Stmt::TryStmt(ts) => fcat(
            fcat(facts_block(ts.try_body), facts_catches(ts.catch_clauses@)),
            match ts.finally_body {
                Some(f) => facts_block(f),
                None => no_facts(),
            },
        ),
        Stmt::SwitchStmt(ss) => fcat(facts_expr(ss.selector), facts_cases(ss.cases@)),
        Stmt::SynchronizedStmt(sy) => fcat(facts_expr(sy.expr), facts_block(sy.body)),
        Stmt::ReturnStmt(rs) => facts_opt(rs.expr),
        Stmt::ThrowStmt(ts) => facts_expr(ts.expr),
        _ => no_facts(),
    }
}

/// [`facts_stmt`] of a list of statements, in order.
pub open spec fn facts_stmts(ss: Seq<Stmt>) -> Facts
    decreases ss,
{
    if ss.len() == 0 {
        no_facts()
    } else {
        fcat(facts_stmts(ss.drop_last()), facts_stmt(ss.last()))
    }
}

/// [`facts_stmt`] of a block.
pub open spec fn facts_block(b: BlockStmt) -> Facts
    decreases b,
{
    facts_stmts(b.statements@)
}

/// [`facts_block`] of the bodies of catch clauses, in order.
pub open spec fn facts_catches(cs: Seq<CatchClause>) -> Facts
    decreases cs,
{
    if cs.len() == 0 {
        no_facts()
    } else {
        fcat(facts_catches(cs.drop_last()), facts_block(cs.last().body))
    }
}

/// [`facts_stmts`] of the statements of switch cases, in order.
pub open spec fn facts_cases(cs: Seq<SwitchCase>) -> Facts
    decreases cs,
{
    if cs.len() == 0 {
        no_facts()
    } else {
        fcat(facts_cases(cs.drop_last()), facts_stmts(cs.last().statements@))
    }
}

proof fn lemma_fcat3(a: Facts, b: Facts, c: Facts)
    ensures
        fcat(fcat(a, b), c) == fcat(a, fcat(b, c)),
{
    assert(fcat(fcat(a, b), c).bools =~= fcat(a, fcat(b, c)).bools);
    assert(fcat(fcat(a, b), c).re =~= fcat(a, fcat(b, c)).re);
}

proof fn lemma_fcat_none(a: Facts)
    ensures
        fcat(a, no_facts()) == a,
{
    assert(fcat(a, no_facts()).bools =~= a.bools);
    assert(fcat(a, no_facts()).re =~= a.re);
}

fn push_bool(bools: &mut Vec<(String, bool)>, n: String, b: bool)
    ensures
        pair_views(final(bools)@) == pair_views(old(bools)@).push((n@, b)),
{
    bools.push((n, b));
    assert(pair_views(bools@) =~= pair_views(old(bools)@).push((n@, b)));
}

fn facts_expr_into(e: &Expr, bools: &mut Vec<(String, bool)>, re: &mut Vec<String>)
    ensures
        fstate(final(bools)@, final(re)@) == fcat(fstate(old(bools)@, old(re)@), facts_expr(*e)),
    decreases e,
{
    let ghost v0 = fstate(bools@, re@);
    match e {
        Expr::AssignExpr(ae) => {
            record_target(&ae.target, re);
            proof { assert(fstate(bools@, re@) == fcat(v0, re_facts(assign_target(*ae.target)))); }
            facts_expr_into(&ae.value, bools, re);
            proof { lemma_fcat3(v0, re_facts(assign_target(*ae.target)), facts_expr(*ae.value)); }
        },
        Expr::UnaryExpr(ue) => {
            let ghost t = if ue.op@ == "++"@ || ue.op@ == "--"@ { assign_target(*ue.expr) } else { Seq::<Seq<char>>::empty() };
            if str_eq(ue.op.as_str(), "++") || str_eq(ue.op.as_str(), "--") {
                record_target(&ue.expr, re);
            }
            proof { assert(fstate(bools@, re@) == fcat(v0, re_facts(t))); }
            facts_expr_into(&ue.expr, bools, re);
            proof { lemma_fcat3(v0, re_facts(t), facts_expr(*ue.expr)); }
        },
        Expr::BinaryExpr(be) => {
            facts_expr_into(&be.left, bools, re);
            facts_expr_into(&be.right, bools, re);
            proof { lemma_fcat3(v0, facts_expr(*be.left), facts_expr(*be.right)); }
        },
        Expr::MethodCallExpr(mc) => {
            let ghost b0 = fstate(bools@, re@);
            let mut i: usize = 0;
            assert(mc.arguments@.take(0) == Seq::<Expr>::empty());
            assert(fstate(bools@, re@) == fcat(b0, no_facts()));
            while i < mc.arguments.len()
                invariant
                    i <= mc.arguments.len(),
                    *e == Expr::MethodCallExpr(*mc),
                    fstate(bools@, re@) == fcat(b0, facts_exprs(mc.arguments@.take(i as int))),
                decreases mc.arguments.len() - i,
            {
                proof {
                    assert(decreases_to!(*e => (*e)->MethodCallExpr_0));
                    assert(decreases_to!(*mc => mc.arguments));
                    assert(decreases_to!(mc.arguments => mc.arguments@));
                    assert(decreases_to!(mc.arguments@ => mc.arguments@[i as int]));
                }
                facts_expr_into(&mc.arguments[i], bools, re);
                proof {
                    let t = mc.arguments@.take(i + 1);
                    assert(t.drop_last() == mc.arguments@.take(i as int));
                    assert(t.last() == mc.arguments@[i as int]);
                    lemma_fcat3(b0, facts_exprs(mc.arguments@.take(i as int)), facts_expr(mc.arguments@[i as int]));
                }
                i += 1;
            }
            assert(mc.arguments@.take(i as int) == mc.arguments@);
        },
        Expr::FieldAccessExpr(fa) => facts_expr_into(&fa.target, bools, re),
        Expr::CastExpr(ce) => facts_expr_into(&ce.expr, bools, re),
        Expr::ConditionalExpr(ce) => {
            facts_expr_into(&ce.condition, bools, re);
            facts_expr_into(&ce.then_expr, bools, re);
            proof { lemma_fcat3(v0, facts_expr(*ce.condition), facts_expr(*ce.then_expr)); }
            facts_expr_into(&ce.else_expr, bools, re);
            proof { lemma_fcat3(v0, fcat(facts_expr(*ce.condition), facts_expr(*ce.then_expr)), facts_expr(*ce.else_expr)); }
        },
        Expr::ArrayAccessExpr(aa) => {
            facts_expr_into(&aa.array, bools, re);
            facts_expr_into(&aa.index, bools, re);
            proof { lemma_fcat3(v0, facts_expr(*aa.array), facts_expr(*aa.index)); }
        },
        Expr::ArrayCreationExpr(ac) => {
            let ghost b0 = fstate(bools@, re@);
            let mut i: usize = 0;
            assert(ac.initializer@.take(0) == Seq::<Expr>::empty());
            assert(fstate(bools@, re@) == fcat(b0, no_facts()));
            while i < ac.initializer.len()
                invariant
                    i <= ac.initializer.len(),
                    *e == Expr::ArrayCreationExpr(*ac),
                    fstate(bools@, re@) == fcat(b0, facts_exprs(ac.initializer@.take(i as int))),
                decreases ac.initializer.len() - i,
            {
                proof {
                    assert(decreases_to!(*e => (*e)->ArrayCreationExpr_0));
                    assert(decreases_to!(*ac => ac.initializer));
                    assert(decreases_to!(ac.initializer => ac.initializer@));
                    assert(decreases_to!(ac.initializer@ => ac.initializer@[i as int]));
                }
                facts_expr_into(&ac.initializer[i], bools, re);
                proof {
                    let t = ac.initializer@.take(i + 1);
                    assert(t.drop_last() == ac.initializer@.take(i as int));
                    assert(t.last() == ac.initializer@[i as int]);
                    lemma_fcat3(b0, facts_exprs(ac.initializer@.take(i as int)), facts_expr(ac.initializer@[i as int]));
                }
                i += 1;
            }
            assert(ac.initializer@.take(i as int) == ac.initializer@);
        },
        Expr::ObjectCreationExpr(oc) => {
            let ghost b0 = fstate(bools@, re@);
            let mut i: usize = 0;
            assert(oc.arguments@.take(0) == Seq::<Expr>::empty());
            assert(fstate(bools@, re@) == fcat(b0, no_facts()));
            while i < oc.arguments.len()
                invariant
                    i <= oc.arguments.len(),
                    *e == Expr::ObjectCreationExpr(*oc),
                    fstate(bools@, re@) == fcat(b0, facts_exprs(oc.arguments@.take(i as int))),
                decreases oc.arguments.len() - i,
            {
                proof {
                    assert(decreases_to!(*e => (*e)->ObjectCreationExpr_0));
                    assert(decreases_to!(*oc => oc.arguments));
                    assert(decreases_to!(oc.arguments => oc.arguments@));
                    assert(decreases_to!(oc.arguments@ => oc.arguments@[i as int]));
                }
                facts_expr_into(&oc.arguments[i], bools, re);
                proof {
                    let t = oc.arguments@.take(i + 1);
                    assert(t.drop_last() == oc.arguments@.take(i as int));
                    assert(t.last() == oc.arguments@[i as int]);
                    lemma_fcat3(b0, facts_exprs(oc.arguments@.take(i as int)), facts_expr(oc.arguments@[i as int]));
                }
                i += 1;
            }
            assert(oc.arguments@.take(i as int) == oc.arguments@);
        },
        Expr::InstanceOfExpr(io) => facts_expr_into(&io.expr, bools, re),
        Expr::LambdaExpr(le) => facts_stmt_into(&le.body, bools, re),
        Expr::EnclosedExpr { inner, .. } => facts_expr_into(inner, bools, re),
        _ => {
            proof { lemma_fcat_none(v0); }
        },
    }
}

fn facts_opt_into(e: &Option<Expr>, bools: &mut Vec<(String, bool)>, re: &mut Vec<String>)
    ensures
        fstate(final(bools)@, final(re)@) == fcat(fstate(old(bools)@, old(re)@), facts_opt(*e)),
    decreases e,
{
    match e {
        Some(x) => facts_expr_into(x, bools, re),
        None => {
            proof { lemma_fcat_none(fstate(bools@, re@)); }
        },
    }
}

fn facts_block_into(b: &BlockStmt, bools: &mut Vec<(String, bool)>, re: &mut Vec<String>)
    ensures
        fstate(final(bools)@, final(re)@) == fcat(fstate(old(bools)@, old(re)@), facts_block(*b)),
    decreases b,
{
            let ghost b0 = fstate(bools@, re@);
            let mut i: usize = 0;
            assert(b.statements@.take(0) == Seq::<Stmt>::empty());
            assert(fstate(bools@, re@) == fcat(b0, no_facts()));
            while i < b.statements.len()
                invariant
                    i <= b.statements.len(),
                    fstate(bools@, re@) == fcat(b0, facts_stmts(b.statements@.take(i as int))),
                decreases b.statements.len() - i,
            {
                proof {
                    assert(decreases_to!(*b => b.statements));
                    assert(decreases_to!(b.statements => b.statements@));
                    assert(decreases_to!(b.statements@ => b.statements@[i as int]));
                }
                facts_stmt_into(&b.statements[i], bools, re);
                proof {
                    let t = b.statements@.take(i + 1);
                    assert(t.drop_last() == b.statements@.take(i as int));
                    assert(t.last() == b.statements@[i as int]);
                    lemma_fcat3(b0, facts_stmts(b.statements@.take(i as int)), facts_stmt(b.statements@[i as int]));
                }
                i += 1;
            }
            assert(b.statements@.take(i as int) == b.statements@);
}

fn facts_stmt_into(s: &Stmt, bools: &mut Vec<(String, bool)>, re: &mut Vec<String>)
    ensures
        fstate(final(bools)@, final(re)@) == fcat(fstate(old(bools)@, old(re)@), facts_stmt(*s)),
    decreases s,
{
    let ghost v0 = fstate(bools@, re@);
    match s {
        Stmt::BlockStmt(b) => facts_block_into(b, bools, re),
        Stmt::VariableDeclarationStmt(vs) => {
            let ghost b0 = fstate(bools@, re@);
            let mut i: usize = 0;
            assert(vs.declarations@.take(0) == Seq::<VarDeclarator>::empty());
            proof { lemma_fcat_none(b0); }
            while i < vs.declarations.len()
                invariant
                    i <= vs.declarations.len(),
                    fstate(bools@, re@) == fcat(b0, decl_bools(vs.declarations@.take(i as int))),
                decreases vs.declarations.len() - i,
            {
                let d = &vs.declarations[i];
                let ghost piece = decl_bool(*d);
                let ghost a = fstate(bools@, re@);
                match &d.initializer {
                    Some(init) => match literal_bool(init) {
                        Some(b) => {
                            push_bool(bools, d.name.clone(), b);
                            assert(fstate(bools@, re@).bools =~= fcat(a, piece).bools);
                            assert(fstate(bools@, re@).re =~= fcat(a, piece).re);
                        },
                        None => {
                            proof { lemma_fcat_none(a); }
                        },
                    },
                    None => {
                        proof { lemma_fcat_none(a); }
                    },
                }
                proof {
                    let t = vs.declarations@.take(i + 1);
                    assert(t.drop_last() == vs.declarations@.take(i as int));
                    assert(t.last() == vs.declarations@[i as int]);
                    lemma_fcat3(b0, decl_bools(vs.declarations@.take(i as int)), piece);
                }
                i += 1;
            }
            assert(vs.declarations@.take(i as int) == vs.declarations@);
        },
        Stmt::ExpressionStmt(es) => facts_expr_into(&es.expr, bools, re),
        Stmt::IfStmt(is) => {
            facts_stmt_into(&is.then_stmt, bools, re);
            let ghost a1 = facts_stmt(*is.then_stmt);
            let ghost e1 = match &is.else_stmt { Some(x) => facts_stmt(**x), None => no_facts() };
            match &is.else_stmt {
                Some(x) => {
                    facts_stmt_into(x, bools, re);
                },
                None => {
                    proof { lemma_fcat_none(fstate(bools@, re@)); }
                },
            }
            proof { lemma_fcat3(v0, a1, e1); }
            facts_expr_into(&is.condition, bools, re);
            proof { lemma_fcat3(v0, fcat(a1, e1), facts_expr(is.condition)); }
        },
        Stmt::ForStmt(fs) => {
            facts_stmt_into(&fs.body, bools, re);
            facts_opt_into(&fs.initialization, bools, re);
            proof { lemma_fcat3(v0, facts_stmt(*fs.body), facts_opt(fs.initialization)); }
            let ghost a2 = fcat(facts_stmt(*fs.body), facts_opt(fs.initialization));
            facts_opt_into(&fs.condition, bools, re);
            proof { lemma_fcat3(v0, a2, facts_opt(fs.condition)); }
            let ghost a3 = fcat(a2, facts_opt(fs.condition));
            {
            let ghost b1 = fstate(bools@, re@);
            let mut i: usize = 0;
            assert(fs.update@.take(0) == Seq::<Expr>::empty());
            assert(fstate(bools@, re@) == fcat(b1, no_facts()));
            while i < fs.update.len()
                invariant
                    i <= fs.update.len(),
                    *s == Stmt::ForStmt(*fs),
                    fstate(bools@, re@) == fcat(b1, facts_exprs(fs.update@.take(i as int))),
                decreases fs.update.len() - i,
            {
                proof {
                    assert(decreases_to!(*s => (*s)->ForStmt_0));
                    assert(decreases_to!(*fs => fs.update));
                    assert(decreases_to!(fs.update => fs.update@));
                    assert(decreases_to!(fs.update@ => fs.update@[i as int]));
                }
                facts_expr_into(&fs.update[i], bools, re);
                proof {
                    let t = fs.update@.take(i + 1);
                    assert(t.drop_last() == fs.update@.take(i as int));
                    assert(t.last() == fs.update@[i as int]);
                    lemma_fcat3(b1, facts_exprs(fs.update@.take(i as int)), facts_expr(fs.update@[i as int]));
                }
                i += 1;
            }
            assert(fs.update@.take(i as int) == fs.update@);
            }
            proof { lemma_fcat3(v0, a3, facts_exprs(fs.update@)); }
        },
        Stmt::ForEachStmt(fe) => {
            facts_stmt_into(&fe.body, bools, re);
            facts_expr_into(&fe.iterable, bools, re);
            proof { lemma_fcat3(v0, facts_stmt(*fe.body), facts_expr(fe.iterable)); }
        },
        Stmt::WhileStmt(w) => {
            facts_stmt_into(&w.body, bools, re);
            facts_expr_into(&w.condition, bools, re);
            proof { lemma_fcat3(v0, facts_stmt(*w.body), facts_expr(w.condition)); }
        },
        Stmt::DoStmt(d) => {
            facts_stmt_into(&d.body, bools, re);
            facts_expr_into(&d.condition, bools, re);
            proof { lemma_fcat3(v0, facts_stmt(*d.body), facts_expr(d.condition)); }
        },
        Stmt::TryStmt(ts) => {
            facts_block_into(&ts.try_body, bools, re);
            {
            let ghost b1 = fstate(bools@, re@);
            let mut i: usize = 0;
            assert(ts.catch_clauses@.take(0) == Seq::<CatchClause>::empty());
            assert(fstate(bools@, re@) == fcat(b1, no_facts()));
            while i < ts.catch_clauses.len()
                invariant
                    i <= ts.catch_clauses.len(),
                    *s == Stmt::TryStmt(*ts),
                    fstate(bools@, re@) == fcat(b1, facts_catches(ts.catch_clauses@.take(i as int))),
                decreases ts.catch_clauses.len() - i,
            {
                proof {
                    assert(decreases_to!(*s => (*s)->TryStmt_0));
                    assert(decreases_to!(*ts => ts.catch_clauses));
                    assert(decreases_to!(ts.catch_clauses => ts.catch_clauses@));
                    assert(decreases_to!(ts.catch_clauses@ => ts.catch_clauses@[i as int]));
                    assert(decreases_to!(ts.catch_clauses@[i as int] => ts.catch_clauses@[i as int].body));
                }
                facts_block_into(&ts.catch_clauses[i].body, bools, re);
                proof {
                    let t = ts.catch_clauses@.take(i + 1);
                    assert(t.drop_last() == ts.catch_clauses@.take(i as int));
                    assert(t.last() == ts.catch_clauses@[i as int]);
                    lemma_fcat3(b1, facts_catches(ts.catch_clauses@.take(i as int)), facts_block(ts.catch_clauses@[i as int].body));
                }
                i += 1;
            }
            assert(ts.catch_clauses@.take(i as int) == ts.catch_clauses@);
            }
            proof { lemma_fcat3(v0, facts_block(ts.try_body), facts_catches(ts.catch_clauses@)); }
            let ghost a2 = fcat(facts_block(ts.try_body), facts_catches(ts.catch_clauses@));
            let ghost f1 = match &ts.finally_body { Some(f) => facts_block(*f), None => no_facts() };
            match &ts.finally_body {
                Some(f) => {
                    facts_block_into(f, bools, re);
                },
                None => {
                    proof { lemma_fcat_none(fstate(bools@, re@)); }
                },
            }
            proof { lemma_fcat3(v0, a2, f1); }
        },
        Stmt::SwitchStmt(ss) => {
            facts_expr_into(&ss.selector, bools, re);
            let ghost b1 = fstate(bools@, re@);
            let mut c: usize = 0;
            assert(ss.cases@.take(0) == Seq::<SwitchCase>::empty());
            proof { lemma_fcat_none(b1); }
            while c < ss.cases.len()
                invariant
                    c <= ss.cases.len(),
                    *s == Stmt::SwitchStmt(*ss),
                    fstate(bools@, re@) == fcat(b1, facts_cases(ss.cases@.take(c as int))),
                decreases ss.cases.len() - c,
            {
                let case = &ss.cases[c];
                let ghost b2 = fstate(bools@, re@);
                let mut k: usize = 0;
                assert(case.statements@.take(0) == Seq::<Stmt>::empty());
                proof { lemma_fcat_none(b2); }
                while k < case.statements.len()
                    invariant
                        k <= case.statements.len(),
                        *s == Stmt::SwitchStmt(*ss),
                        c < ss.cases.len(),
                        *case == ss.cases@[c as int],
                        fstate(bools@, re@) == fcat(b2, facts_stmts(case.statements@.take(k as int))),
                    decreases case.statements.len() - k,
                {
                    proof {
                        assert(decreases_to!(*s => (*s)->SwitchStmt_0));
                        assert(decreases_to!(*ss => ss.cases));
                        assert(decreases_to!(ss.cases => ss.cases@));
                        assert(decreases_to!(ss.cases@ => ss.cases@[c as int]));
                        assert(decreases_to!(ss.cases@[c as int] => ss.cases@[c as int].statements));
                        assert(decreases_to!(case.statements => case.statements@));
                        assert(decreases_to!(case.statements@ => case.statements@[k as int]));
                    }
                    facts_stmt_into(&case.statements[k], bools, re);
                    proof {
                        let t = case.statements@.take(k + 1);
                        assert(t.drop_last() == case.statements@.take(k as int));
                        assert(t.last() == case.statements@[k as int]);
                        lemma_fcat3(b2, facts_stmts(case.statements@.take(k as int)), facts_stmt(case.statements@[k as int]));
                    }
                    k += 1;
                }
                assert(case.statements@.take(k as int) == case.statements@);
                proof {
                    let t = ss.cases@.take(c + 1);
                    assert(t.drop_last() == ss.cases@.take(c as int));
                    assert(t.last() == ss.cases@[c as int]);
                    lemma_fcat3(b1, facts_cases(ss.cases@.take(c as int)), facts_stmts(case.statements@));
                }
                c += 1;
            }
            assert(ss.cases@.take(c as int) == ss.cases@);
            proof { lemma_fcat3(v0, facts_expr(ss.selector), facts_cases(ss.cases@)); }
        },
        Stmt::SynchronizedStmt(sy) => {
            facts_expr_into(&sy.expr, bools, re);
            facts_block_into(&sy.body, bools, re);
            proof { lemma_fcat3(v0, facts_expr(sy.expr), facts_block(sy.body)); }
        },
        Stmt::ReturnStmt(rs) => facts_opt_into(&rs.expr, bools, re),
        Stmt::ThrowStmt(ts) => facts_expr_into(&ts.expr, bools, re),
        _ => {
            proof { lemma_fcat_none(v0); }
        },
    }
}

/// Whether an expression holds an exit from the loop being checked: a
/// lambda body inside it is searched with `in_lambda` set.
pub open spec fn exit_expr(e: Expr, nested: bool, in_lambda: bool) -> bool
    decreases e,
{
    match e {
        Expr::MethodCallExpr(mc) => exit_exprs(mc.arguments@, nested, in_lambda),
        Expr::FieldAccessExpr(fa) => exit_expr(*fa.target, nested, in_lambda),
        Expr::BinaryExpr(be) => exit_expr(*be.left, nested, in_lambda) || exit_expr(*be.right, nested, in_lambda),
        Expr::UnaryExpr(ue) => exit_expr(*ue.expr, nested, in_lambda),
        Expr::AssignExpr(ae) => exit_expr(*ae.target, nested, in_lambda) || exit_expr(*ae.value, nested, in_lambda),
        Expr::CastExpr(ce) => exit_expr(*ce.expr, nested, in_lambda),
        Expr::ConditionalExpr(ce) => exit_expr(*ce.condition, nested, in_lambda) || exit_expr(*ce.then_expr, nested, in_lambda)
            || exit_expr(*ce.else_expr, nested, in_lambda),
        Expr::ArrayAccessExpr(aa) => exit_expr(*aa.array, nested, in_lambda) || exit_expr(*aa.index, nested, in_lambda),
        Expr::ArrayCreationExpr(ac) => exit_exprs(ac.initializer@, nested, in_lambda),
        Expr::ObjectCreationExpr(oc) => exit_exprs(oc.arguments@, nested, in_lambda),
        Expr::InstanceOfExpr(io) => exit_expr(*io.expr, nested, in_lambda),
        Expr::LambdaExpr(le) => exit_stmt(*le.body, nested, true),
        Expr::VariableDeclarationExpr(vde) => exit_decls(vde.declarations@, nested, in_lambda),
        Expr::EnclosedExpr { inner, .. } => exit_expr(*inner, nested, in_lambda),
        _ => false,
    }
}

/// Whether one of the expressions holds an exit.
pub open spec fn exit_exprs(es: Seq<Expr>, nested: bool, in_lambda: bool) -> bool
    decreases es,
{
    if es.len() == 0 {
        false
    } else {
        exit_exprs(es.drop_last(), nested, in_lambda) || exit_expr(es.last(), nested, in_lambda)
    }
}

/// Whether an optional expression holds an exit.
pub open spec fn exit_opt(e: Option<Expr>, nested: bool, in_lambda: bool) -> bool
    decreases e,
{
    match e {
        Some(x) => exit_expr(x, nested, in_lambda),
        None => false,
    }
}

/// Whether the initialiser of one of the declarators holds an exit.
pub open spec fn exit_decls(ds: Seq<VarDeclarator>, nested: bool, in_lambda: bool) -> bool
    decreases ds,
{
    if ds.len() == 0 {
        false
    } else {
        exit_decls(ds.drop_last(), nested, in_lambda) || exit_opt(ds.last().initializer, nested, in_lambda)
    }
}

/// Whether a statement of a loop body can leave the loop being checked: an
/// unlabelled `break` not inside a nested loop, a labelled `break` (its
/// target is unknown), a `return`, or a `throw` (also inside a lambda);
/// `nested` is set inside nested loops, `in_lambda` inside lambda bodies.
pub open spec fn exit_stmt(s: Stmt, nested: bool, in_lambda: bool) -> bool
    decreases s,
{
    match s {
        Stmt::BreakStmt(b) => if in_lambda {
            false
        } else if b.label is Some {
            true
        } else {
            !nested
        },
        Stmt::ReturnStmt(_) => !in_lambda,
        Stmt::ThrowStmt(_) => true,
        Stmt::ForStmt(f) => exit_stmt(*f.body, true, in_lambda) || exit_opt(f.condition, true, in_lambda)
            || exit_opt(f.initialization, true, in_lambda) || exit_exprs(f.update@, true, in_lambda),
        Stmt::ForEachStmt(fe) => exit_stmt(*fe.body, true, in_lambda) || exit_expr(fe.iterable, true, in_lambda),
        Stmt::WhileStmt(w) => exit_stmt(*w.body, true, in_lambda) || exit_expr(w.condition, true, in_lambda),
        Stmt::DoStmt(d) => exit_stmt(*d.body, true, in_lambda) || exit_expr(d.condition, true, in_lambda),
        Stmt::BlockStmt(b) => exit_stmts(b.statements@, nested, in_lambda),
        Stmt::IfStmt(is) => exit_stmt(*is.then_stmt, nested, in_lambda) || match is.else_stmt {
            Some(e) => exit_stmt(*e, nested, in_lambda),
            None => false,
        } || exit_expr(is.condition, nested, in_lambda),
        Stmt::TryStmt(ts) => exit_block(ts.try_body, nested, in_lambda) || exit_catches(ts.catch_clauses@, nested, in_lambda)
            || match ts.finally_body {
            Some(f) => exit_block(f, nested, in_lambda),
            None => false,
        },
        Stmt::SwitchStmt(ss) => exit_expr(ss.selector, nested, in_lambda) || exit_cases(ss.cases@, nested, in_lambda),
        Stmt::SynchronizedStmt(sy) => exit_expr(sy.expr, nested, in_lambda) || exit_block(sy.body, nested, in_lambda),
        Stmt::ExpressionStmt(es) => exit_expr(es.expr, nested, in_lambda),
        Stmt::VariableDeclarationStmt(vs) => exit_decls(vs.declarations@, nested, in_lambda),
        _ => false,
    }
}

/// Whether one of the statements can leave the loop.
pub open spec fn exit_stmts(ss: Seq<Stmt>, nested: bool, in_lambda: bool) -> bool
    decreases ss,
{
    if ss.len() == 0 {
        false
    } else {
        exit_stmts(ss.drop_last(), nested, in_lambda) || exit_stmt(ss.last(), nested, in_lambda)
    }
}

/// Whether a block can leave the loop.
pub open spec fn exit_block(b: BlockStmt, nested: bool, in_lambda: bool) -> bool
    decreases b,
{
    exit_stmts(b.statements@, nested, in_lambda)
}

/// Whether the body of one of the catch clauses can leave the loop.
pub open spec fn exit_catches(cs: Seq<CatchClause>, nested: bool, in_lambda: bool) -> bool
    decreases cs,
{
    if cs.len() == 0 {
        false
    } else {
        exit_catches(cs.drop_last(), nested, in_lambda) || exit_block(cs.last().body, nested, in_lambda)
    }
}

/// Whether a statement of one of the switch cases can leave the loop.
pub open spec fn exit_cases(cs: Seq<SwitchCase>, nested: bool, in_lambda: bool) -> bool
    decreases cs,
{
    if cs.len() == 0 {
        false
    } else {
        exit_cases(cs.drop_last(), nested, in_lambda) || exit_stmts(cs.last().statements@, nested, in_lambda)
    }
}

fn exit_expr_exec(e: &Expr, nested: bool, in_lambda: bool) -> (r: bool)
    ensures
        r == exit_expr(*e, nested, in_lambda),
    decreases e,
{
    match e {
        Expr::MethodCallExpr(mc) => {
            let mut found = false;
            let mut i: usize = 0;
            assert(mc.arguments@.take(0) == Seq::<Expr>::empty());
            while i < mc.arguments.len()
                invariant
                    i <= mc.arguments.len(),
                    *e == Expr::MethodCallExpr(*mc),
                    found == exit_exprs(mc.arguments@.take(i as int), nested, in_lambda),
                decreases mc.arguments.len() - i,
            {
                proof {
                    let t = mc.arguments@.take(i + 1);
                    assert(t.drop_last() == mc.arguments@.take(i as int));
                    assert(t.last() == mc.arguments@[i as int]);
                    assert(decreases_to!(*e => (*e)->MethodCallExpr_0));
                    assert(decreases_to!(*mc => mc.arguments));
                    assert(decreases_to!(mc.arguments => mc.arguments@));
                    assert(decreases_to!(mc.arguments@ => mc.arguments@[i as int]));
                }
                if !found {
                    found = exit_expr_exec(&mc.arguments[i], nested, in_lambda);
                }
                i += 1;
            }
            assert(mc.arguments@.take(i as int) == mc.arguments@);
            found
        },
        Expr::FieldAccessExpr(fa) => exit_expr_exec(&fa.target, nested, in_lambda),
        Expr::BinaryExpr(be) => {
            if exit_expr_exec(&be.left, nested, in_lambda) {
                true
            } else {
                exit_expr_exec(&be.right, nested, in_lambda)
            }
        },
        Expr::UnaryExpr(ue) => exit_expr_exec(&ue.expr, nested, in_lambda),
        Expr::AssignExpr(ae) => {
            if exit_expr_exec(&ae.target, nested, in_lambda) {
                true
            } else {
                exit_expr_exec(&ae.value, nested, in_lambda)
            }
        },
        Expr::CastExpr(ce) => exit_expr_exec(&ce.expr, nested, in_lambda),
        Expr::ConditionalExpr(ce) => {
            if exit_expr_exec(&ce.condition, nested, in_lambda) {
                true
            } else if exit_expr_exec(&ce.then_expr, nested, in_lambda) {
                true
            } else {
                exit_expr_exec(&ce.else_expr, nested, in_lambda)
            }
        },
        Expr::ArrayAccessExpr(aa) => {
            if exit_expr_exec(&aa.array, nested, in_lambda) {
                true
            } else {
                exit_expr_exec(&aa.index, nested, in_lambda)
            }
        },
        Expr::ArrayCreationExpr(ac) => {
            let mut found = false;
            let mut i: usize = 0;
            assert(ac.initializer@.take(0) == Seq::<Expr>::empty());
            while i < ac.initializer.len()
                invariant
                    i <= ac.initializer.len(),
                    *e == Expr::ArrayCreationExpr(*ac),
                    found == exit_exprs(ac.initializer@.take(i as int), nested, in_lambda),
                decreases ac.initializer.len() - i,
            {
                proof {
                    let t = ac.initializer@.take(i + 1);
                    assert(t.drop_last() == ac.initializer@.take(i as int));
                    assert(t.last() == ac.initializer@[i as int]);
                    assert(decreases_to!(*e => (*e)->ArrayCreationExpr_0));
                    assert(decreases_to!(*ac => ac.initializer));
                    assert(decreases_to!(ac.initializer => ac.initializer@));
                    assert(decreases_to!(ac.initializer@ => ac.initializer@[i as int]));
                }
                if !found {
                    found = exit_expr_exec(&ac.initializer[i], nested, in_lambda);
                }
                i += 1;
            }
            assert(ac.initializer@.take(i as int) == ac.initializer@);
            found
        },
        Expr::ObjectCreationExpr(oc) => {
            let mut found = false;
            let mut i: usize = 0;
            assert(oc.arguments@.take(0) == Seq::<Expr>::empty());
            while i < oc.arguments.len()
                invariant
                    i <= oc.arguments.len(),
                    *e == Expr::ObjectCreationExpr(*oc),
                    found == exit_exprs(oc.arguments@.take(i as int), nested, in_lambda),
                decreases oc.arguments.len() - i,
            {
                proof {
                    let t = oc.arguments@.take(i + 1);
                    assert(t.drop_last() == oc.arguments@.take(i as int));
                    assert(t.last() == oc.arguments@[i as int]);
                    assert(decreases_to!(*e => (*e)->ObjectCreationExpr_0));
                    assert(decreases_to!(*oc => oc.arguments));
                    assert(decreases_to!(oc.arguments => oc.arguments@));
                    assert(decreases_to!(oc.arguments@ => oc.arguments@[i as int]));
                }
                if !found {
                    found = exit_expr_exec(&oc.arguments[i], nested, in_lambda);
                }
                i += 1;
            }
            assert(oc.arguments@.take(i as int) == oc.arguments@);
            found
        },
        Expr::InstanceOfExpr(io) => exit_expr_exec(&io.expr, nested, in_lambda),
        Expr::LambdaExpr(le) => exit_stmt_exec(&le.body, nested, true),
        Expr::VariableDeclarationExpr(vde) => {
            let mut found = false;
            let mut i: usize = 0;
            assert(vde.declarations@.take(0) == Seq::<VarDeclarator>::empty());
            while i < vde.declarations.len()
                invariant
                    i <= vde.declarations.len(),
                    *e == Expr::VariableDeclarationExpr(*vde),
                    found == exit_decls(vde.declarations@.take(i as int), nested, in_lambda),
                decreases vde.declarations.len() - i,
            {
                proof {
                    let t = vde.declarations@.take(i + 1);
                    assert(t.drop_last() == vde.declarations@.take(i as int));
                    assert(t.last() == vde.declarations@[i as int]);
                    assert(decreases_to!(*e => (*e)->VariableDeclarationExpr_0));
                    assert(decreases_to!(*vde => vde.declarations));
                    assert(decreases_to!(vde.declarations => vde.declarations@));
                    assert(decreases_to!(vde.declarations@ => vde.declarations@[i as int]));
                    assert(decreases_to!(vde.declarations@[i as int] => vde.declarations@[i as int].initializer));
                }
                if !found {
                    found = exit_opt_exec(&vde.declarations[i].initializer, nested, in_lambda);
                }
                i += 1;
            }
            assert(vde.declarations@.take(i as int) == vde.declarations@);
            found
        },
        Expr::EnclosedExpr { inner, .. } => exit_expr_exec(inner, nested, in_lambda),
        _ => false,
    }
}

fn exit_opt_exec(e: &Option<Expr>, nested: bool, in_lambda: bool) -> (r: bool)
    ensures
        r == exit_opt(*e, nested, in_lambda),
    decreases e,
{
    match e {
        Some(x) => exit_expr_exec(x, nested, in_lambda),
        None => false,
    }
}

fn exit_block_exec(b: &BlockStmt, nested: bool, in_lambda: bool) -> (r: bool)
    ensures
        r == exit_block(*b, nested, in_lambda),
    decreases b,
{
            let mut found = false;
            let mut i: usize = 0;
            assert(b.statements@.take(0) == Seq::<Stmt>::empty());
            while i < b.statements.len()
                invariant
                    i <= b.statements.len(),
                    found == exit_stmts(b.statements@.take(i as int), nested, in_lambda),
                decreases b.statements.len() - i,
            {
                proof {
                    let t = b.statements@.take(i + 1);
                    assert(t.drop_last() == b.statements@.take(i as int));
                    assert(t.last() == b.statements@[i as int]);
                    assert(decreases_to!(*b => b.statements));
                    assert(decreases_to!(b.statements => b.statements@));
                    assert(decreases_to!(b.statements@ => b.statements@[i as int]));
                }
                if !found {
                    found = exit_stmt_exec(&b.statements[i], nested, in_lambda);
                }
                i += 1;
            }
            assert(b.statements@.take(i as int) == b.statements@);
            found
        }

fn exit_stmt_exec(s: &Stmt, nested: bool, in_lambda: bool) -> (r: bool)
    ensures
        r == exit_stmt(*s, nested, in_lambda),
    decreases s,
{
    match s {
        Stmt::BreakStmt(b) => {
            if in_lambda {
                false
            } else if b.label.is_some() {
                true
            } else {
                !nested
            }
        },
        Stmt::ReturnStmt(_) => !in_lambda,
        Stmt::ThrowStmt(_) => true,
        Stmt::ForStmt(f) => {
            if exit_stmt_exec(&f.body, true, in_lambda) {
                true
            } else if exit_opt_exec(&f.condition, true, in_lambda) {
                true
            } else if exit_opt_exec(&f.initialization, true, in_lambda) {
                true
            } else {
            let mut found = false;
            let mut i: usize = 0;
            assert(f.update@.take(0) == Seq::<Expr>::empty());
            while i < f.update.len()
                invariant
                    i <= f.update.len(),
                    *s == Stmt::ForStmt(*f),
                    found == exit_exprs(f.update@.take(i as int), true, in_lambda),
                decreases f.update.len() - i,
            {
                proof {
                    let t = f.update@.take(i + 1);
                    assert(t.drop_last() == f.update@.take(i as int));
                    assert(t.last() == f.update@[i as int]);
                    assert(decreases_to!(*s => (*s)->ForStmt_0));
                    assert(decreases_to!(*f => f.update));
                    assert(decreases_to!(f.update => f.update@));
                    assert(decreases_to!(f.update@ => f.update@[i as int]));
                }
                if !found {
                    found = exit_expr_exec(&f.update[i], true, in_lambda);
                }
                i += 1;
            }
            assert(f.update@.take(i as int) == f.update@);
            found
        }
        },
        Stmt::ForEachStmt(fe) => {
            if exit_stmt_exec(&fe.body, true, in_lambda) {
                true
            } else {
                exit_expr_exec(&fe.iterable, true, in_lambda)
            }
        },
        Stmt::WhileStmt(w) => {
            if exit_stmt_exec(&w.body, true, in_lambda) {
                true
            } else {
                exit_expr_exec(&w.condition, true, in_lambda)
            }
        },
        Stmt::DoStmt(d) => {
            if exit_stmt_exec(&d.body, true, in_lambda) {
                true
            } else {
                exit_expr_exec(&d.condition, true, in_lambda)
            }
        },
        Stmt::BlockStmt(b) => exit_block_exec(b, nested, in_lambda),
        Stmt::IfStmt(is) => {
            if exit_stmt_exec(&is.then_stmt, nested, in_lambda) {
                true
            } else if match &is.else_stmt {
                Some(x) => exit_stmt_exec(x, nested, in_lambda),
                None => false,
            } {
                true
            } else {
                exit_expr_exec(&is.condition, nested, in_lambda)
            }
        },
        Stmt::TryStmt(ts) => {
            if exit_block_exec(&ts.try_body, nested, in_lambda) {
                true
            } else if {
            let mut found = false;
            let mut i: usize = 0;
            assert(ts.catch_clauses@.take(0) == Seq::<CatchClause>::empty());
            while i < ts.catch_clauses.len()
                invariant
                    i <= ts.catch_clauses.len(),
                    *s == Stmt::TryStmt(*ts),
                    found == exit_catches(ts.catch_clauses@.take(i as int), nested, in_lambda),
                decreases ts.catch_clauses.len() - i,
            {
                proof {
                    let t = ts.catch_clauses@.take(i + 1);
                    assert(t.drop_last() == ts.catch_clauses@.take(i as int));
                    assert(t.last() == ts.catch_clauses@[i as int]);
                    assert(decreases_to!(*s => (*s)->TryStmt_0));
                    assert(decreases_to!(*ts => ts.catch_clauses));
                    assert(decreases_to!(ts.catch_clauses => ts.catch_clauses@));
                    assert(decreases_to!(ts.catch_clauses@ => ts.catch_clauses@[i as int]));
                    assert(decreases_to!(ts.catch_clauses@[i as int] => ts.catch_clauses@[i as int].body));
                }
                if !found {
                    found = exit_block_exec(&ts.catch_clauses[i].body, nested, in_lambda);
                }
                i += 1;
            }
            assert(ts.catch_clauses@.take(i as int) == ts.catch_clauses@);
            found
        } {
                true
            } else {
                match &ts.finally_body {
                    Some(f) => exit_block_exec(f, nested, in_lambda),
                    None => false,
                }
            }
        },
        Stmt::SwitchStmt(ss) => {
            if exit_expr_exec(&ss.selector, nested, in_lambda) {
                return true;
            }
            let mut found = false;
            let mut c: usize = 0;
            assert(ss.cases@.take(0) == Seq::<SwitchCase>::empty());
            while c < ss.cases.len()
                invariant
                    c <= ss.cases.len(),
                    *s == Stmt::SwitchStmt(*ss),
                    found == exit_cases(ss.cases@.take(c as int), nested, in_lambda),
                decreases ss.cases.len() - c,
            {
                let case = &ss.cases[c];
                let mut hit = false;
                let mut k: usize = 0;
                assert(case.statements@.take(0) == Seq::<Stmt>::empty());
                while k < case.statements.len()
                    invariant
                        k <= case.statements.len(),
                        *s == Stmt::SwitchStmt(*ss),
                        c < ss.cases.len(),
                        *case == ss.cases@[c as int],
                        hit == exit_stmts(case.statements@.take(k as int), nested, in_lambda),
                    decreases case.statements.len() - k,
                {
                    proof {
                        let t = case.statements@.take(k + 1);
                        assert(t.drop_last() == case.statements@.take(k as int));
                        assert(t.last() == case.statements@[k as int]);
                        assert(decreases_to!(*s => (*s)->SwitchStmt_0));
                        assert(decreases_to!(*ss => ss.cases));
                        assert(decreases_to!(ss.cases => ss.cases@));
                        assert(decreases_to!(ss.cases@ => ss.cases@[c as int]));
                        assert(decreases_to!(ss.cases@[c as int] => ss.cases@[c as int].statements));
                        assert(decreases_to!(case.statements => case.statements@));
                        assert(decreases_to!(case.statements@ => case.statements@[k as int]));
                    }
                    if !hit {
                        hit = exit_stmt_exec(&case.statements[k], nested, in_lambda);
                    }
                    k += 1;
                }
                assert(case.statements@.take(k as int) == case.statements@);
                proof {
                    let t = ss.cases@.take(c + 1);
                    assert(t.drop_last() == ss.cases@.take(c as int));
                    assert(t.last() == ss.cases@[c as int]);
                }
                found = found || hit;
                c += 1;
            }
            assert(ss.cases@.take(c as int) == ss.cases@);
            found
        },
        Stmt::SynchronizedStmt(sy) => {
            if exit_expr_exec(&sy.expr, nested, in_lambda) {
                true
            } else {
                exit_block_exec(&sy.body, nested, in_lambda)
            }
        },
        Stmt::ExpressionStmt(es) => exit_expr_exec(&es.expr, nested, in_lambda),
        Stmt::VariableDeclarationStmt(vs) => {
            let mut found = false;
            let mut i: usize = 0;
            assert(vs.declarations@.take(0) == Seq::<VarDeclarator>::empty());
            while i < vs.declarations.len()
                invariant
                    i <= vs.declarations.len(),
                    *s == Stmt::VariableDeclarationStmt(*vs),
                    found == exit_decls(vs.declarations@.take(i as int), nested, in_lambda),
                decreases vs.declarations.len() - i,
            {
                proof {
                    let t = vs.declarations@.take(i + 1);
                    assert(t.drop_last() == vs.declarations@.take(i as int));
                    assert(t.last() == vs.declarations@[i as int]);
                    assert(decreases_to!(*s => (*s)->VariableDeclarationStmt_0));
                    assert(decreases_to!(*vs => vs.declarations));
                    assert(decreases_to!(vs.declarations => vs.declarations@));
                    assert(decreases_to!(vs.declarations@ => vs.declarations@[i as int]));
                    assert(decreases_to!(vs.declarations@[i as int] => vs.declarations@[i as int].initializer));
                }
                if !found {
                    found = exit_opt_exec(&vs.declarations[i].initializer, nested, in_lambda);
                }
                i += 1;
            }
            assert(vs.declarations@.take(i as int) == vs.declarations@);
            found
        },
        _ => false,
    }
}

/// The variable an update writes: an assignment to a variable, or `++`/`--`
/// of one.
pub open spec fn update_target_spec(u: Expr) -> Option<Seq<char>> {
    match u {
        Expr::AssignExpr(ae) => match *ae.target {
            Expr::NameExpr(n) => Some(n.name@),
            _ => None,
        },
        Expr::UnaryExpr(ue) => if ue.op@ == "++"@ || ue.op@ == "--"@ {
            match *ue.expr {
                Expr::NameExpr(n) => Some(n.name@),
                _ => None,
            }
        } else {
            None
        },
        _ => None,
    }
}

/// Whether an update leaves its variable as it was: `i = i`, `i = <its
/// initial value>`, `i += 0`, `i -= 0`, `i *= 1`, `i /= 1`.
pub open spec fn ineffective_update(u: Expr, ints: Seq<(Seq<char>, i64)>) -> bool {
    match u {
        Expr::AssignExpr(ae) => if ae.op@ == "="@ {
            match (*ae.target, *ae.value) {
                (Expr::NameExpr(t), Expr::NameExpr(v)) => t.name@ == v.name@,
                (Expr::NameExpr(t), Expr::LiteralExpr(l)) => match literal_int_spec(l) {
                    Some(n) => lookup(ints, t.name@) == Some(n as i64),
                    None => false,
                },
                _ => false,
            }
        } else if ae.op@ == "+="@ || ae.op@ == "-="@ {
            match *ae.value {
                Expr::LiteralExpr(l) => literal_int_spec(l) == Some(0int),
                _ => false,
            }
        } else if ae.op@ == "*="@ || ae.op@ == "/="@ {
            match *ae.value {
                Expr::LiteralExpr(l) => literal_int_spec(l) == Some(1int),
                _ => false,
            }
        } else {
            false
        },
        _ => false,
    }
}

/// The step an update moves variable `var` by: `++`, `--`, `+= n`, `-= n`,
/// `= var + n`, `= n + var`, `= var - n`.
pub open spec fn update_delta(u: Expr, var: Seq<char>) -> Option<i64> {
    match u {
        Expr::UnaryExpr(ue) => if ue.op@ == "++"@ {
            match *ue.expr {
                Expr::NameExpr(n) => if n.name@ == var {
                    Some(1i64)
                } else {
                    None
                },
                _ => None,
            }
        } else if ue.op@ == "--"@ {
            match *ue.expr {
                Expr::NameExpr(n) => if n.name@ == var {
                    Some(-1i64)
                } else {
                    None
                },
                _ => None,
            }
        } else {
            None
        },
        Expr::AssignExpr(ae) => if ae.op@ == "+="@ {
            match (*ae.target, *ae.value) {
                (Expr::NameExpr(n), Expr::LiteralExpr(l)) => if n.name@ == var {
                    match literal_int_spec(l) {
                        Some(d) => Some(d as i64),
                        None => None,
                    }
                } else {
                    None
                },
                _ => None,
            }
        } else if ae.op@ == "-="@ {
            match (*ae.target, *ae.value) {
                (Expr::NameExpr(n), Expr::LiteralExpr(l)) => if n.name@ == var {
                    match literal_int_spec(l) {
                        Some(d) => Some(neg_wrap(d as i64)),
                        None => None,
                    }
                } else {
                    None
                },
                _ => None,
            }
        } else if ae.op@ == "="@ {
            match (*ae.target, *ae.value) {
                (Expr::NameExpr(n), Expr::BinaryExpr(be)) => if n.name@ == var && be.op@ == "+"@ {
                    match (*be.right, *be.left) {
                        (Expr::LiteralExpr(l), Expr::NameExpr(n2)) if n2.name@ == var => match literal_int_spec(l) {
                            Some(d) => Some(d as i64),
                            None => None,
                        },
                        _ => match (*be.left, *be.right) {
                            (Expr::LiteralExpr(l), Expr::NameExpr(n2)) if n2.name@ == var => match literal_int_spec(l) {
                                Some(d) => Some(d as i64),
                                None => None,
                            },
                            _ => None,
                        },
                    }
                } else if n.name@ == var && be.op@ == "-"@ {
                    match (*be.left, *be.right) {
                        (Expr::NameExpr(n2), Expr::LiteralExpr(l)) if n2.name@ == var => match literal_int_spec(l) {
                            Some(d) => Some(neg_wrap(d as i64)),
                            None => None,
                        },
                        _ => None,
                    }
                } else {
                    None
                },
                _ => None,
            }
        } else {
            None
        },
        _ => None,
    }
}

/// A comparison read from the other side (`5 > i` is `i < 5`).
pub open spec fn flip_op_spec(op: Seq<char>) -> Seq<char> {
    if op == "<"@ {
        ">"@
    } else if op == ">"@ {
        "<"@
    } else if op == "<="@ {
        ">="@
    } else if op == ">="@ {
        "<="@
    } else {
        op
    }
}

/// Whether `op` is `<` or `<=`.
pub open spec fn is_upward(op: Seq<char>) -> bool {
    op == "<"@ || op == "<="@
}

/// Whether `op` is `>` or `>=`.
pub open spec fn is_downward(op: Seq<char>) -> bool {
    op == ">"@ || op == ">="@
}

/// Whether a loop `var op bound` starting at `init` is entered.
pub open spec fn enters_loop(op: Seq<char>, init: i64, bound: i64) -> bool {
    if is_upward(op) {
        init < bound || (init == bound && op == "<="@)
    } else {
        init > bound || (init == bound && op == ">="@)
    }
}

/// Whether a step moves the variable away from the bound.
pub open spec fn moves_away(op: Seq<char>, delta: i64) -> bool {
    (is_upward(op) && delta < 0) || (is_downward(op) && delta > 0)
}

/// The decimal text of an `i64`.
pub open spec fn i64_text(v: i64) -> Seq<char> {
    if v < 0 {
        "-"@ + decimal(magnitude(v as int))
    } else {
        decimal(v as nat)
    }
}

/// The message of a `for` loop whose update moves away from its bound.
pub open spec fn conflict_message(var: Seq<char>, init: i64, op: Seq<char>, bound: i64, delta: i64) -> Seq<char> {
    "for 循环更新方向与条件矛盾：循环变量 `"@ + var + "` 初始值为 "@ + i64_text(init) + "，条件为 `"@ + var
        + " "@ + op + " "@ + i64_text(bound) + "`，但更新表达式使变量朝远离条件的方向变化（delta="@
        + i64_text(delta) + "），条件永远不会变为 false：死循环"@
}

/// The first update among `us` that, on a loop that is entered, moves the
/// variable away from its bound, as a message.
pub open spec fn first_conflict(us: Seq<Expr>, var: Seq<char>, op: Seq<char>, bound: i64, init: i64) -> Option<
    Seq<char>,
>
    decreases us.len(),
{
    if us.len() == 0 {
        None
    } else {
        match update_delta(us[0], var) {
            Some(delta) => if (is_upward(op) || is_downward(op)) && enters_loop(op, init, bound)
                && moves_away(op, delta) {
                Some(conflict_message(var, init, op, bound, delta))
            } else {
                first_conflict(us.drop_first(), var, op, bound, init)
            },
            None => first_conflict(us.drop_first(), var, op, bound, init),
        }
    }
}

/// A condition `var op literal` (or `literal op var`, read flipped).
pub open spec fn simple_bound(cond: Expr) -> Option<(Seq<char>, Seq<char>, i64)> {
    match cond {
        Expr::BinaryExpr(be) => match (*be.left, *be.right) {
            (Expr::NameExpr(n), Expr::LiteralExpr(l)) => match literal_int_spec(l) {
                Some(v) => Some((n.name@, be.op@, v as i64)),
                None => None,
            },
            (Expr::LiteralExpr(l), Expr::NameExpr(n)) => match literal_int_spec(l) {
                Some(v) => Some((n.name@, flip_op_spec(be.op@), v as i64)),
                None => None,
            },
            _ => None,
        },
        _ => None,
    }
}

/// The message for a `for` loop whose update moves its counter away from
/// the bound of a simple condition, if there is such an update.
pub open spec fn direction_conflict(cond: Expr, us: Seq<Expr>, ints: Seq<(Seq<char>, i64)>) -> Option<Seq<char>> {
    match simple_bound(cond) {
        Some(b) => match lookup(ints, b.0) {
            Some(init) => first_conflict(us, b.0, b.1, b.2, init),
            None => None,
        },
        None => None,
    }
}

/// The variables a `for` initialiser declares.
pub open spec fn init_vars(init: Option<Expr>) -> Seq<Seq<char>> {
    match init {
        Some(Expr::VariableDeclarationExpr(vde)) => vde.declarations@.map_values(|d: VarDeclarator| d.name@),
        _ => seq![],
    }
}

/// The integers a list of declarators binds to constant initialisers.
pub open spec fn decl_ints(ds: Seq<VarDeclarator>) -> Seq<(Seq<char>, i64)>
    decreases ds.len(),
{
    if ds.len() == 0 {
        seq![]
    } else {
        let d = ds.last();
        decl_ints(ds.drop_last()) + match d.initializer {
            Some(e) => match eval_int_spec(e, seq![]) {
                Some(v) => seq![(d.name@, v)],
                None => seq![],
            },
            None => seq![],
        }
    }
}

/// The integers a `for` initialiser binds.
pub open spec fn init_ints(init: Option<Expr>) -> Seq<(Seq<char>, i64)> {
    match init {
        Some(Expr::VariableDeclarationExpr(vde)) => decl_ints(vde.declarations@),
        _ => seq![],
    }
}

/// The variables, among those of `names`, that the updates write, in order.
pub open spec fn cond_update_targets(us: Seq<Expr>, names: Seq<Seq<char>>) -> Seq<Seq<char>>
    decreases us.len(),
{
    if us.len() == 0 {
        seq![]
    } else {
        cond_update_targets(us.drop_last(), names) + match update_target_spec(us.last()) {
            Some(v) => if names.contains(v) {
                seq![v]
            } else {
                seq![]
            },
            None => seq![],
        }
    }
}

/// Whether every update of a variable of `names` is ineffective.
pub open spec fn cond_updates_ineffective(us: Seq<Expr>, names: Seq<Seq<char>>, ints: Seq<(Seq<char>, i64)>) -> bool
    decreases us.len(),
{
    if us.len() == 0 {
        true
    } else {
        cond_updates_ineffective(us.drop_last(), names, ints) && match update_target_spec(us.last()) {
            Some(v) => names.contains(v) ==> ineffective_update(us.last(), ints),
            None => true,
        }
    }
}

/// Whether no element of `a` is in `b`.
pub open spec fn disjoint(a: Seq<Seq<char>>, b: Seq<Seq<char>>) -> bool {
    forall|i: int| 0 <= i < a.len() ==> !b.contains(#[trigger] a[i])
}

/// The message of a definite infinite loop.
pub open spec fn definite_message() -> Seq<char> {
    "循环条件在编译期即可确定为 true（字面量或常量传播），且条件所用变量在循环体内不被修改，且无 break/return/throw 退出：该循环将永不终止（死循环）"@
}

/// The message of a `for` loop without update whose counter never moves.
pub open spec fn no_update_message(vars: Seq<char>) -> Seq<char> {
    "for 循环缺少更新表达式（update），循环变量 ["@ + vars
        + "] 在条件中使用且条件涉及的所有变量在循环体内均未被修改，且无 break/return/throw 退出：计数器不会推进，可能死循环"@
}

/// The message of a `for` loop whose updates have no effect.
pub open spec fn ineffective_message(vars: Seq<char>) -> Seq<char> {
    "for 循环的更新表达式对循环变量 ["@ + vars
        + "] 无实际效果（如 i = i / i = 0 / i += 0），条件永远不会因更新而变为 false，且无 break/return/throw 退出：可能死循环"@
}

/// The message of a `while`/`do` loop on a variable that never changes.
pub open spec fn stale_message(name: Seq<char>) -> Seq<char> {
    "while/do-while 的循环条件仅依赖变量 `"@ + name
        + "`，该变量在循环体内从未被修改且无 break/return/throw 退出：可能为事件循环误用或死循环（请确认存在外部修改或退出机制）"@
}

/// A J009 violation.
pub open spec fn loop_violation(file: Seq<char>, line: usize, end_line: Option<usize>, msg: Seq<char>) -> ViolationV {
    ViolationV {
        rule_id: "J009"@,
        severity: Severity::Major,
        file,
        line: line as nat,
        end_line,
        message: msg,
    }
}

/// The variable a condition consists of, if it is a single variable.
pub open spec fn cond_name(cond: Option<Expr>) -> Option<Seq<char>> {
    match cond {
        Some(Expr::NameExpr(n)) => Some(n.name@),
        _ => None,
    }
}

/// What the check of one loop reports (nothing, or one violation).
pub open spec fn loop_check(
    file: Seq<char>,
    cond: Option<Expr>,
    body: Stmt,
    line: usize,
    is_for: bool,
    update: Seq<Expr>,
    init: Option<Expr>,
    ctx: ConstFacts,
) -> Seq<ViolationV> {
    let ints = init_ints(init);
    let cond_val = match cond {
        Some(c) => eval_bool_spec(c, ctx, ints),
        None => Some(true),
    };
    let names = match cond {
        Some(c) => names_expr(c),
        None => seq![],
    };
    let body_mut = muts_stmt(body) + muts_exprs(update);
    let unchanged = disjoint(names, body_mut);
    let has_exit = exit_stmt(body, false, false);
    let end_line = match body {
        Stmt::BlockStmt(b) => Some(b.end_line),
        _ => None,
    };
    let vars = init_vars(init);
    let targets = cond_update_targets(update, names);
    if cond_val == Some(true) && unchanged && !has_exit {
        seq![loop_violation(file, line, end_line, definite_message())]
    } else if has_exit {
        seq![]
    } else if is_for && update.len() == 0 && (exists|i: int| 0 <= i < vars.len() && names.contains(#[trigger] vars[i]))
        && unchanged {
        seq![loop_violation(file, line, end_line, no_update_message(join_comma(vars)))]
    } else if is_for && update.len() > 0 && cond is Some && cond_val != Some(false) && targets.len() > 0
        && cond_updates_ineffective(update, names, ints) {
        seq![loop_violation(file, line, end_line, ineffective_message(join_comma(targets)))]
    } else if is_for && update.len() > 0 && cond is Some && direction_conflict(cond->0, update, ints) is Some {
        seq![loop_violation(file, line, end_line, direction_conflict(cond->0, update, ints)->0)]
    } else if !is_for && cond_name(cond) is Some && lookup(ctx.bools, cond_name(cond)->0) is None
        && !ctx.reassigned.contains(cond_name(cond)->0) && !body_mut.contains(cond_name(cond)->0) {
        seq![loop_violation(file, line, end_line, stale_message(cond_name(cond)->0))]
    } else {
        seq![]
    }
}

/// A loop whose body has a way out of it (a `break` of this loop, a `return`,
/// or a `throw`) is never reported, whatever its condition.
pub proof fn lemma_exit_never_reported(
    file: Seq<char>,
    cond: Option<Expr>,
    body: Stmt,
    line: usize,
    is_for: bool,
    update: Seq<Expr>,
    init: Option<Expr>,
    ctx: ConstFacts,
)
    requires
        exit_stmt(body, false, false),
    ensures
        loop_check(file, cond, body, line, is_for, update, init, ctx) == Seq::<ViolationV>::empty(),
{
}

/// The check of one loop reports at most one violation: rule `J009`, severity
/// major, at the loop's file and line, ending where the loop's block ends.
pub proof fn lemma_loop_report_shape(
    file: Seq<char>,
    cond: Option<Expr>,
    body: Stmt,
    line: usize,
    is_for: bool,
    update: Seq<Expr>,
    init: Option<Expr>,
    ctx: ConstFacts,
)
    ensures
        ({
            let r = loop_check(file, cond, body, line, is_for, update, init, ctx);
            &&& r.len() <= 1
            &&& r.len() == 1 ==> {
                &&& r[0].rule_id == "J009"@
                &&& r[0].severity == Severity::Major
                &&& r[0].file == file
                &&& r[0].line == line
                &&& r[0].end_line == match body {
                    Stmt::BlockStmt(b) => Some(b.end_line),
                    _ => None,
                }
            }
        }),
{
}

/// How far an exit reaches: a `break` without a label leaves the loop only
/// where it is not inside a nested loop, a labelled `break` and a `return`
/// leave it unless they are inside a lambda, a `throw` always leaves it, and
/// a `continue` never does; a nested loop is searched as nested, and a lambda
/// body as inside a lambda.
pub proof fn lemma_exit_scoping(s: Stmt, e: Expr, nested: bool, in_lambda: bool)
    ensures
        s matches Stmt::BreakStmt(b) ==> exit_stmt(s, nested, in_lambda) == (!in_lambda && (
        b.label is Some || !nested)),
        s is ReturnStmt ==> exit_stmt(s, nested, in_lambda) == !in_lambda,
        s is ThrowStmt ==> exit_stmt(s, nested, in_lambda),
        s is ContinueStmt ==> !exit_stmt(s, nested, in_lambda),
        s matches Stmt::WhileStmt(w) ==> exit_stmt(s, nested, in_lambda) == (exit_stmt(
            *w.body,
            true,
            in_lambda,
        ) || exit_expr(w.condition, true, in_lambda)),
        s matches Stmt::DoStmt(d) ==> exit_stmt(s, nested, in_lambda) == (exit_stmt(
            *d.body,
            true,
            in_lambda,
        ) || exit_expr(d.condition, true, in_lambda)),
        s matches Stmt::ForEachStmt(f) ==> exit_stmt(s, nested, in_lambda) == (exit_stmt(
            *f.body,
            true,
            in_lambda,
        ) || exit_expr(f.iterable, true, in_lambda)),
        e matches Expr::LambdaExpr(le) ==> exit_expr(e, nested, in_lambda) == exit_stmt(
            *le.body,
            nested,
            true,
        ),
{
}

/// Whether `e` is the variable `var`.
pub open spec fn is_var(e: Expr, var: Seq<char>) -> bool {
    e matches Expr::NameExpr(n) && n.name@ == var
}

/// The integer `e` denotes, if it is an integer literal.
pub open spec fn int_literal(e: Expr) -> Option<int> {
    match e {
        Expr::LiteralExpr(l) => literal_int_spec(l),
        _ => None,
    }
}

/// The operands and operator of `e`, if it is a binary operation.
pub open spec fn binary_parts(e: Expr) -> Option<(Expr, Seq<char>, Expr)> {
    match e {
        Expr::BinaryExpr(be) => Some((*be.left, be.op@, *be.right)),
        _ => None,
    }
}

/// The target, operator and value of `e`, if it is an assignment.
pub open spec fn assign_parts(e: Expr) -> Option<(Expr, Seq<char>, Expr)> {
    match e {
        Expr::AssignExpr(ae) => Some((*ae.target, ae.op@, *ae.value)),
        _ => None,
    }
}

/// The operator and operand of `e`, if it is a unary operation.
pub open spec fn unary_parts(e: Expr) -> Option<(Seq<char>, Expr)> {
    match e {
        Expr::UnaryExpr(ue) => Some((ue.op@, *ue.expr)),
        _ => None,
    }
}

/// The step each form of counter update moves `var` by: `var++` moves it by
/// 1 and `var--` by -1; `var += n`, `var = var + n` and `var = n + var` move
/// it by `n`; `var -= n` and `var = var - n` move it by `-n` (`a` and `b`
/// are the operands of the right-hand side, `n` the literal's value).
pub proof fn lemma_update_steps(u: Expr, var: Seq<char>, a: Expr, b: Expr, n: int)
    ensures
        (unary_parts(u) == Some(("++"@, a)) && is_var(a, var)) ==> update_delta(u, var) == Some(1i64),
        (unary_parts(u) == Some(("--"@, a)) && is_var(a, var)) ==> update_delta(u, var) == Some(-1i64),
        (assign_parts(u) == Some((a, "+="@, b)) && is_var(a, var) && int_literal(b) == Some(n)
            && i64::MIN <= n <= i64::MAX) ==> update_delta(u, var) == Some(n as i64),
        (assign_parts(u) == Some((a, "-="@, b)) && is_var(a, var) && int_literal(b) == Some(n)
            && i64::MIN < n <= i64::MAX) ==> update_delta(u, var) == Some((-n) as i64),
        (assign_parts(u) matches Some(t) && t.1 == "="@ && is_var(t.0, var) && binary_parts(t.2) == Some(
            (a, "+"@, b),
        ) && is_var(a, var) && int_literal(b) == Some(n) && i64::MIN <= n <= i64::MAX) ==> update_delta(
            u,
            var,
        ) == Some(n as i64),
        (assign_parts(u) matches Some(t) && t.1 == "="@ && is_var(t.0, var) && binary_parts(t.2) == Some(
            (a, "+"@, b),
        ) && int_literal(a) == Some(n) && is_var(b, var) && i64::MIN <= n <= i64::MAX) ==> update_delta(
            u,
            var,
        ) == Some(n as i64),
        (assign_parts(u) matches Some(t) && t.1 == "="@ && is_var(t.0, var) && binary_parts(t.2) == Some(
            (a, "-"@, b),
        ) && is_var(a, var) && int_literal(b) == Some(n) && i64::MIN < n <= i64::MAX) ==> update_delta(
            u,
            var,
        ) == Some((-n) as i64),
{
    reveal_strlit("++");
    reveal_strlit("--");
    reveal_strlit("+=");
    reveal_strlit("-=");
    reveal_strlit("=");
    reveal_strlit("+");
    reveal_strlit("-");
    assert("--"@[0] != "++"@[0]);
    assert("-="@[0] != "+="@[0]);
    assert("-"@[0] != "+"@[0]);
}

/// A counter that steps down (`var--`, `var -= n` or `var = var - n` with a
/// positive `n`) in a loop bounded below (`var > b` or `var >= b`) is no
/// direction conflict; in a loop bounded above (`var < b` or `var <= b`)
/// that is entered, it is one.
pub proof fn lemma_count_down_direction(
    u: Expr,
    var: Seq<char>,
    a: Expr,
    b: Expr,
    n: int,
    op: Seq<char>,
    bound: i64,
    init: i64,
)
    requires
        (unary_parts(u) == Some(("--"@, a)) && is_var(a, var)) || (assign_parts(u) == Some((a, "-="@, b))
            && is_var(a, var) && int_literal(b) == Some(n) && 0 < n <= i64::MAX) || (assign_parts(
            u,
        ) matches Some(t) && t.1 == "="@ && is_var(t.0, var) && binary_parts(t.2) == Some((a, "-"@, b))
            && is_var(a, var) && int_literal(b) == Some(n) && 0 < n <= i64::MAX),
    ensures
        (op == ">"@ || op == ">="@) ==> first_conflict(seq![u], var, op, bound, init) is None,
        ((op == "<"@ && init < bound) || (op == "<="@ && init <= bound)) ==> first_conflict(
            seq![u],
            var,
            op,
            bound,
            init,
        ) is Some,
{
    lemma_update_steps(u, var, a, b, n);
    reveal_strlit(">");
    reveal_strlit(">=");
    reveal_strlit("<");
    reveal_strlit("<=");
    assert(">"@[0] != "<"@[0]);
    assert(">="@[0] != "<="@[0]);
    assert(seq![u][0] == u);
    assert(seq![u].drop_first() == Seq::<Expr>::empty());
    assert(first_conflict(Seq::<Expr>::empty(), var, op, bound, init) is None);
}

/// A counter that steps up (`var++`, `var += n` or `var = var + n` with a
/// positive `n`) in a loop bounded above (`var < b` or `var <= b`) is no
/// direction conflict; in a loop bounded below (`var > b` or `var >= b`)
/// that is entered, it is one.
pub proof fn lemma_count_up_direction(
    u: Expr,
    var: Seq<char>,
    a: Expr,
    b: Expr,
    n: int,
    op: Seq<char>,
    bound: i64,
    init: i64,
)
    requires
        (unary_parts(u) == Some(("++"@, a)) && is_var(a, var)) || (assign_parts(u) == Some((a, "+="@, b))
            && is_var(a, var) && int_literal(b) == Some(n) && 0 < n <= i64::MAX) || (assign_parts(
            u,
        ) matches Some(t) && t.1 == "="@ && is_var(t.0, var) && binary_parts(t.2) == Some((a, "+"@, b))
            && is_var(a, var) && int_literal(b) == Some(n) && 0 < n <= i64::MAX),
    ensures
        (op == "<"@ || op == "<="@) ==> first_conflict(seq![u], var, op, bound, init) is None,
        ((op == ">"@ && init > bound) || (op == ">="@ && init >= bound)) ==> first_conflict(
            seq![u],
            var,
            op,
            bound,
            init,
        ) is Some,
{
    lemma_update_steps(u, var, a, b, n);
    reveal_strlit(">");
    reveal_strlit(">=");
    reveal_strlit("<");
    reveal_strlit("<=");
    assert(">"@[0] != "<"@[0]);
    assert(">="@[0] != "<="@[0]);
    assert(seq![u][0] == u);
    assert(seq![u].drop_first() == Seq::<Expr>::empty());
    assert(first_conflict(Seq::<Expr>::empty(), var, op, bound, init) is None);
}

fn update_target(u: &Expr) -> (r: Option<&String>)
    ensures
        match r {
            Some(v) => update_target_spec(*u) == Some(v@),
            None => update_target_spec(*u) is None,
        },
{
    match u {
        Expr::AssignExpr(ae) => match &*ae.target {
            Expr::NameExpr(n) => Some(&n.name),
            _ => None,
        },
        Expr::UnaryExpr(ue) => {
            if str_eq(ue.op.as_str(), "++") || str_eq(ue.op.as_str(), "--") {
                match &*ue.expr {
                    Expr::NameExpr(n) => Some(&n.name),
                    _ => None,
                }
            } else {
                None
            }
        },
        _ => None,
    }
}

fn literal_is(e: &Expr, v: i64) -> (r: bool)
    ensures
        r == (match *e {
            Expr::LiteralExpr(l) => literal_int_spec(l) == Some(v as int),
            _ => false,
        }),
{
    match e {
        Expr::LiteralExpr(l) => match literal_int(l) {
            Some(n) => n == v,
            None => false,
        },
        _ => false,
    }
}

fn is_ineffective_update(u: &Expr, ints: &Vec<(String, i64)>) -> (r: bool)
    ensures
        r == ineffective_update(*u, pair_views(ints@)),
{
    match u {
        Expr::AssignExpr(ae) => {
            let op = ae.op.as_str();
            if str_eq(op, "=") {
                match (&*ae.target, &*ae.value) {
                    (Expr::NameExpr(t), Expr::NameExpr(v)) => str_eq(t.name.as_str(), v.name.as_str()),
                    (Expr::NameExpr(t), Expr::LiteralExpr(l)) => match literal_int(l) {
                        Some(n) => match lookup_in(ints, t.name.as_str()) {
                            Some(x) => x == n,
                            None => false,
                        },
                        None => false,
                    },
                    _ => false,
                }
            } else if str_eq(op, "+=") || str_eq(op, "-=") {
                literal_is(&ae.value, 0)
            } else if str_eq(op, "*=") || str_eq(op, "/=") {
                literal_is(&ae.value, 1)
            } else {
                false
            }
        },
        _ => false,
    }
}

fn name_is(e: &Expr, var: &str) -> (r: bool)
    ensures
        r == (match *e {
            Expr::NameExpr(n) => n.name@ == var@,
            _ => false,
        }),
{
    match e {
        Expr::NameExpr(n) => str_eq(n.name.as_str(), var),
        _ => false,
    }
}

fn analyze_update_delta(u: &Expr, var: &str) -> (r: Option<i64>)
    ensures
        r == update_delta(*u, var@),
{
    match u {
        Expr::UnaryExpr(ue) => {
            if str_eq(ue.op.as_str(), "++") {
                if name_is(&ue.expr, var) {
                    Some(1)
                } else {
                    None
                }
            } else if str_eq(ue.op.as_str(), "--") {
                if name_is(&ue.expr, var) {
                    Some(-1)
                } else {
                    None
                }
            } else {
                None
            }
        },
        Expr::AssignExpr(ae) => {
            let op = ae.op.as_str();
            if str_eq(op, "+=") || str_eq(op, "-=") {
                let plus = str_eq(op, "+=");
                match (&*ae.target, &*ae.value) {
                    (Expr::NameExpr(n), Expr::LiteralExpr(l)) => {
                        if str_eq(n.name.as_str(), var) {
                            match literal_int(l) {
                                Some(d) => if plus {
                                    Some(d)
                                } else {
                                    Some(neg_i64(d))
                                },
                                None => None,
                            }
                        } else {
                            None
                        }
                    },
                    _ => None,
                }
            } else if str_eq(op, "=") {
                match (&*ae.target, &*ae.value) {
                    (Expr::NameExpr(n), Expr::BinaryExpr(be)) => {
                        let same = str_eq(n.name.as_str(), var);
                        if same && str_eq(be.op.as_str(), "+") {
                            match (&*be.right, &*be.left) {
                                (Expr::LiteralExpr(l), Expr::NameExpr(n2)) if str_eq(n2.name.as_str(), var) => {
                                    return match literal_int(l) {
                                        Some(d) => Some(d),
                                        None => None,
                                    };
                                },
                                _ => {},
                            }
                            match (&*be.left, &*be.right) {
                                (Expr::LiteralExpr(l), Expr::NameExpr(n2)) if str_eq(n2.name.as_str(), var) => {
                                    match literal_int(l) {
                                        Some(d) => Some(d),
                                        None => None,
                                    }
                                },
                                _ => None,
                            }
                        } else if same && str_eq(be.op.as_str(), "-") {
                            match (&*be.left, &*be.right) {
                                (Expr::NameExpr(n2), Expr::LiteralExpr(l)) if str_eq(n2.name.as_str(), var) => {
                                    match literal_int(l) {
                                        Some(d) => Some(neg_i64(d)),
                                        None => None,
                                    }
                                },
                                _ => None,
                            }
                        } else {
                            None
                        }
                    },
                    _ => None,
                }
            } else {
                None
            }
        },
        _ => None,
    }
}

fn flip_op<'a>(op: &'a str) -> (r: &'a str)
    ensures
        r@ == flip_op_spec(op@),
{
    if str_eq(op, "<") {
        ">"
    } else if str_eq(op, ">") {
        "<"
    } else if str_eq(op, "<=") {
        ">="
    } else if str_eq(op, ">=") {
        "<="
    } else {
        op
    }
}

fn i64_to_string(v: i64) -> (r: String)
    ensures
        r@ == i64_text(v),
{
    if v < 0 {
        let mut s = String::new();
        append_str(&mut s, "-");
        let d = u64_to_string(abs_u64(v));
        append_str(&mut s, d.as_str());
        s
    } else {
        u64_to_string(v as u64)
    }
}

fn conflict_text(var: &str, init: i64, op: &str, bound: i64, delta: i64) -> (r: String)
    ensures
        r@ == conflict_message(var@, init, op@, bound, delta),
{
    let mut s = String::new();
    append_str(&mut s, "for 循环更新方向与条件矛盾：循环变量 `");
    append_str(&mut s, var);
    append_str(&mut s, "` 初始值为 ");
    append_str(&mut s, i64_to_string(init).as_str());
    append_str(&mut s, "，条件为 `");
    append_str(&mut s, var);
    append_str(&mut s, " ");
    append_str(&mut s, op);
    append_str(&mut s, " ");
    append_str(&mut s, i64_to_string(bound).as_str());
    append_str(&mut s, "`，但更新表达式使变量朝远离条件的方向变化（delta=");
    append_str(&mut s, i64_to_string(delta).as_str());
    append_str(&mut s, "），条件永远不会变为 false：死循环");
    s
}

fn check_update_direction_conflict(cond: &Expr, update: &Vec<Expr>, ints: &Vec<(String, i64)>) -> (r: Option<String>)
    ensures
        match r {
            Some(m) => direction_conflict(*cond, update@, pair_views(ints@)) == Some(m@),
            None => direction_conflict(*cond, update@, pair_views(ints@)) is None,
        },
{
    let (var, op, bound): (&String, &str, i64) = match cond {
        Expr::BinaryExpr(be) => match (&*be.left, &*be.right) {
            (Expr::NameExpr(n), Expr::LiteralExpr(l)) => match literal_int(l) {
                Some(v) => (&n.name, be.op.as_str(), v),
                None => return None,
            },
            (Expr::LiteralExpr(l), Expr::NameExpr(n)) => match literal_int(l) {
                Some(v) => (&n.name, flip_op(be.op.as_str()), v),
                None => return None,
            },
            _ => return None,
        },
        _ => return None,
    };
    assert(simple_bound(*cond) == Some((var@, op@, bound)));
    let init = match lookup_in(ints, var.as_str()) {
        Some(x) => x,
        None => return None,
    };
    let upward = str_eq(op, "<") || str_eq(op, "<=");
    let downward = str_eq(op, ">") || str_eq(op, ">=");
    let enters = if upward {
        init < bound || (init == bound && str_eq(op, "<="))
    } else {
        init > bound || (init == bound && str_eq(op, ">="))
    };
    let mut i: usize = 0;
    assert(update@.skip(0) == update@);
    while i < update.len()
        invariant
            i <= update.len(),
            upward == is_upward(op@),
            downward == is_downward(op@),
            enters == enters_loop(op@, init, bound),
            direction_conflict(*cond, update@, pair_views(ints@)) == first_conflict(update@, var@, op@, bound, init),
            first_conflict(update@, var@, op@, bound, init) == first_conflict(update@.skip(i as int), var@, op@, bound, init),
        decreases update.len() - i,
    {
        assert(update@.skip(i as int)[0] == update@[i as int]);
        assert(update@.skip(i as int).drop_first() == update@.skip(i + 1));
        match analyze_update_delta(&update[i], var.as_str()) {
            Some(delta) => {
                if (upward || downward) && enters && ((upward && delta < 0) || (downward && delta > 0)) {
                    return Some(conflict_text(var.as_str(), init, op, bound, delta));
                }
            },
            None => {},
        }
        i += 1;
    }
    assert(update@.skip(i as int).len() == 0);
    None
}

fn extract_init_vars(init: &Option<Expr>) -> (r: Vec<String>)
    ensures
        name_views(r@) == init_vars(*init),
{
    match init {
        Some(Expr::VariableDeclarationExpr(vde)) => {
            let mut r: Vec<String> = Vec::new();
            let mut i: usize = 0;
            while i < vde.declarations.len()
                invariant
                    i <= vde.declarations.len(),
                    r@.len() == i,
                    forall|m: int| 0 <= m < i ==> (#[trigger] r@[m])@ == vde.declarations@[m].name@,
                decreases vde.declarations.len() - i,
            {
                r.push(vde.declarations[i].name.clone());
                i += 1;
            }
            assert(name_views(r@) =~= init_vars(*init));
            r
        },
        _ => {
            let r: Vec<String> = Vec::new();
            assert(name_views(r@) =~= init_vars(*init));
            r
        },
    }
}

fn extract_init_ints(init: &Option<Expr>) -> (r: Vec<(String, i64)>)
    ensures
        pair_views(r@) == init_ints(*init),
{
    let mut r: Vec<(String, i64)> = Vec::new();
    assert(pair_views(r@) =~= Seq::<(Seq<char>, i64)>::empty());
    match init {
        Some(Expr::VariableDeclarationExpr(vde)) => {
            let empty: Vec<(String, i64)> = Vec::new();
            assert(pair_views(empty@) =~= Seq::<(Seq<char>, i64)>::empty());
            let mut i: usize = 0;
            assert(vde.declarations@.take(0) == Seq::<VarDeclarator>::empty());
            while i < vde.declarations.len()
                invariant
                    i <= vde.declarations.len(),
                    pair_views(empty@) == Seq::<(Seq<char>, i64)>::empty(),
                    pair_views(r@) == decl_ints(vde.declarations@.take(i as int)),
                decreases vde.declarations.len() - i,
            {
                let d = &vde.declarations[i];
                let ghost before = pair_views(r@);
                match &d.initializer {
                    Some(e) => match eval_int(e, &empty) {
                        Some(v) => {
                            r.push((d.name.clone(), v));
                            assert(pair_views(r@) =~= before + seq![(d.name@, v)]);
                        },
                        None => {
                            assert(pair_views(r@) =~= before + Seq::<(Seq<char>, i64)>::empty());
                        },
                    },
                    None => {
                        assert(pair_views(r@) =~= before + Seq::<(Seq<char>, i64)>::empty());
                    },
                }
                proof {
                    let t = vde.declarations@.take(i + 1);
                    assert(t.drop_last() == vde.declarations@.take(i as int));
                    assert(t.last() == vde.declarations@[i as int]);
                }
                i += 1;
            }
            assert(vde.declarations@.take(i as int) == vde.declarations@);
            r
        },
        _ => r,
    }
}

fn updates_of_cond(update: &Vec<Expr>, names: &Vec<String>, ints: &Vec<(String, i64)>) -> (r: (Vec<String>, bool))
    ensures
        name_views(r.0@) == cond_update_targets(update@, name_views(names@)),
        r.1 == cond_updates_ineffective(update@, name_views(names@), pair_views(ints@)),
{
    let ghost ns = name_views(names@);
    let mut targets: Vec<String> = Vec::new();
    let mut all = true;
    let mut i: usize = 0;
    assert(update@.take(0) == Seq::<Expr>::empty());
    assert(name_views(targets@) =~= Seq::<Seq<char>>::empty());
    while i < update.len()
        invariant
            i <= update.len(),
            ns == name_views(names@),
            name_views(targets@) == cond_update_targets(update@.take(i as int), ns),
            all == cond_updates_ineffective(update@.take(i as int), ns, pair_views(ints@)),
        decreases update.len() - i,
    {
        let u = &update[i];
        let ghost before = name_views(targets@);
        proof {
            let t = update@.take(i + 1);
            assert(t.drop_last() == update@.take(i as int));
            assert(t.last() == update@[i as int]);
        }
        match update_target(u) {
            Some(v) => {
                if contains_name(names, v.as_str()) {
                    targets.push(v.clone());
                    assert(name_views(targets@) =~= before + seq![v@]);
                    if !is_ineffective_update(u, ints) {
                        all = false;
                    }
                } else {
                    assert(name_views(targets@) =~= before + Seq::<Seq<char>>::empty());
                }
            },
            None => {
                assert(name_views(targets@) =~= before + Seq::<Seq<char>>::empty());
            },
        }
        i += 1;
    }
    assert(update@.take(i as int) == update@);
    (targets, all)
}

fn push_loop_violation(out: &mut Vec<Violation>, file: &str, line: usize, end_line: Option<usize>, msg: &str)
    ensures
        views(final(out)@) == views(old(out)@).push(loop_violation(file@, line, end_line, msg@)),
{
    proof {
        reveal_strlit("J009");
    }
    let mut v = Violation::new("J009", Severity::Major, file, line, msg);
    v.end_line = end_line;
    out.push(v);
    assert(views(out@) =~= views(old(out)@).push(loop_violation(file@, line, end_line, msg@)));
}

/// The expression an optional reference points to.
pub open spec fn opt_expr(o: Option<&Expr>) -> Option<Expr> {
    match o {
        Some(e) => Some(*e),
        None => None,
    }
}

fn check_loop(
    file: &str,
    out: &mut Vec<Violation>,
    cond: Option<&Expr>,
    body: &Stmt,
    line: usize,
    is_for: bool,
    update: &Vec<Expr>,
    init: &Option<Expr>,
    ctx: &ConstCtx,
)
    ensures
        views(final(out)@) == views(old(out)@) + loop_check(
            file@,
            opt_expr(cond),
            *body,
            line,
            is_for,
            update@,
            *init,
            ctx@,
        ),
{
    let ghost v0 = views(out@);
    let ghost spec_r = loop_check(file@, opt_expr(cond), *body, line, is_for, update@, *init, ctx@);
    let ints = extract_init_ints(init);
    let vars = extract_init_vars(init);
    let cond_val: Option<bool> = match cond {
        None => Some(true),
        Some(c) => eval_bool(c, ctx, &ints),
    };
    let mut names: Vec<String> = Vec::new();
    assert(name_views(names@) =~= Seq::<Seq<char>>::empty());
    match cond {
        Some(c) => {
            names_expr_into(c, &mut names);
            assert(name_views(names@) =~= names_expr(*c));
        },
        None => {},
    }
    let mut body_mut: Vec<String> = Vec::new();
    assert(name_views(body_mut@) =~= Seq::<Seq<char>>::empty());
    muts_stmt_into(body, &mut body_mut);
    assert(name_views(body_mut@) =~= muts_stmt(*body));
    let mut k: usize = 0;
    assert(update@.take(0) == Seq::<Expr>::empty());
    while k < update.len()
        invariant
            k <= update.len(),
            name_views(body_mut@) == muts_stmt(*body) + muts_exprs(update@.take(k as int)),
        decreases update.len() - k,
    {
        muts_expr_into(&update[k], &mut body_mut);
        proof {
            let t = update@.take(k + 1);
            assert(t.drop_last() == update@.take(k as int));
            assert(t.last() == update@[k as int]);
            lemma_cat3(muts_stmt(*body), muts_exprs(update@.take(k as int)), muts_expr(update@[k as int]));
        }
        k += 1;
    }
    assert(update@.take(k as int) == update@);
    let ghost ns = name_views(names@);
    let ghost bm = name_views(body_mut@);
    let mut unchanged = true;
    let mut j: usize = 0;
    while j < names.len()
        invariant
            j <= names.len(),
            ns == name_views(names@),
            bm == name_views(body_mut@),
            unchanged == (forall|m: int| 0 <= m < j ==> !bm.contains(#[trigger] ns[m])),
        decreases names.len() - j,
    {
        assert(ns[j as int] == names@[j as int]@);
        if contains_name(&body_mut, names[j].as_str()) {
            unchanged = false;
        }
        j += 1;
    }
    assert(unchanged == disjoint(ns, bm));
    let has_exit = exit_stmt_exec(body, false, false);
    let end_line: Option<usize> = match body {
        Stmt::BlockStmt(b) => Some(b.end_line),
        _ => None,
    };
    let definite = match cond_val {
        Some(b) => b,
        None => false,
    };
    if definite && unchanged && !has_exit {
        proof {
            reveal_strlit("循环条件在编译期即可确定为 true（字面量或常量传播），且条件所用变量在循环体内不被修改，且无 break/return/throw 退出：该循环将永不终止（死循环）");
        }
        push_loop_violation(out, file, line, end_line, "循环条件在编译期即可确定为 true（字面量或常量传播），且条件所用变量在循环体内不被修改，且无 break/return/throw 退出：该循环将永不终止（死循环）");
        assert(views(out@) =~= v0 + spec_r);
        return;
    }
    if has_exit {
        assert(views(out@) =~= v0 + spec_r);
        return;
    }
    if is_for && update.len() == 0 {
        let mut dependent = false;
        let mut m: usize = 0;
        while m < vars.len()
            invariant
                m <= vars.len(),
                ns == name_views(names@),
                dependent == (exists|x: int| 0 <= x < m && ns.contains(#[trigger] name_views(vars@)[x])),
            decreases vars.len() - m,
        {
            assert(name_views(vars@)[m as int] == vars@[m as int]@);
            if contains_name(&names, vars[m].as_str()) {
                dependent = true;
            }
            m += 1;
        }
        if dependent && unchanged {
            let mut msg = String::new();
            append_str(&mut msg, "for 循环缺少更新表达式（update），循环变量 [");
            let joined = join_modifiers(&vars);
            assert(string_views(vars@) =~= name_views(vars@));
            append_str(&mut msg, joined.as_str());
            append_str(&mut msg, "] 在条件中使用且条件涉及的所有变量在循环体内均未被修改，且无 break/return/throw 退出：计数器不会推进，可能死循环");
            push_loop_violation(out, file, line, end_line, msg.as_str());
            assert(views(out@) =~= v0 + spec_r);
            return;
        }
    }
    let not_false = match cond_val {
        Some(b) => b,
        None => true,
    };
    if is_for && update.len() > 0 && cond.is_some() && not_false {
        let (targets, all) = updates_of_cond(update, &names, &ints);
        if targets.len() > 0 && all {
            let mut msg = String::new();
            append_str(&mut msg, "for 循环的更新表达式对循环变量 [");
            let joined = join_modifiers(&targets);
            assert(string_views(targets@) =~= name_views(targets@));
            append_str(&mut msg, joined.as_str());
            append_str(&mut msg, "] 无实际效果（如 i = i / i = 0 / i += 0），条件永远不会因更新而变为 false，且无 break/return/throw 退出：可能死循环");
            push_loop_violation(out, file, line, end_line, msg.as_str());
            assert(views(out@) =~= v0 + spec_r);
            return;
        }
    }
    if is_for && update.len() > 0 {
        match cond {
            Some(c) => match check_update_direction_conflict(c, update, &ints) {
                Some(msg) => {
                    push_loop_violation(out, file, line, end_line, msg.as_str());
                    assert(views(out@) =~= v0 + spec_r);
                    return;
                },
                None => {},
            },
            None => {},
        }
    }
    if !is_for {
        match cond {
            Some(Expr::NameExpr(n)) => {
                let name = n.name.as_str();
                if lookup_in(&ctx.bools, name).is_none() && !contains_name(&ctx.reassigned, name)
                    && !contains_name(&body_mut, name) {
                    let mut msg = String::new();
                    append_str(&mut msg, "while/do-while 的循环条件仅依赖变量 `");
                    append_str(&mut msg, name);
                    append_str(&mut msg, "`，该变量在循环体内从未被修改且无 break/return/throw 退出：可能为事件循环误用或死循环（请确认存在外部修改或退出机制）");
                    push_loop_violation(out, file, line, end_line, msg.as_str());
                    assert(views(out@) =~= v0 + spec_r);
                    return;
                }
            },
            _ => {},
        }
    }
    assert(views(out@) =~= v0 + spec_r);
}

/// No constants known.
pub open spec fn empty_facts() -> ConstFacts {
    ConstFacts { bools: seq![], reassigned: seq![] }
}

/// Loop findings in an expression: lambda bodies are checked with no
/// constants known.
pub open spec fn visit_expr(file: Seq<char>, e: Expr) -> Seq<ViolationV>
    decreases e,
{
    match e {
        Expr::MethodCallExpr(mc) => visit_exprs(file, mc.arguments@),
        Expr::FieldAccessExpr(fa) => visit_expr(file, *fa.target),
        Expr::BinaryExpr(be) => visit_expr(file, *be.left) + visit_expr(file, *be.right),
        Expr::UnaryExpr(ue) => visit_expr(file, *ue.expr),
        Expr::AssignExpr(ae) => visit_expr(file, *ae.target) + visit_expr(file, *ae.value),
        Expr::CastExpr(ce) => visit_expr(file, *ce.expr),
        Expr::ConditionalExpr(ce) => visit_expr(file, *ce.condition) + visit_expr(file, *ce.then_expr)
            + visit_expr(file, *ce.else_expr),
        Expr::ArrayAccessExpr(aa) => visit_expr(file, *aa.array) + visit_expr(file, *aa.index),
        Expr::ArrayCreationExpr(ac) => visit_exprs(file, ac.initializer@),
        Expr::ObjectCreationExpr(oc) => visit_exprs(file, oc.arguments@),
        Expr::InstanceOfExpr(io) => visit_expr(file, *io.expr),
        Expr::LambdaExpr(le) => visit_stmt(file, *le.body, empty_facts()),
        Expr::VariableDeclarationExpr(vde) => visit_decls(file, vde.declarations@),
        Expr::EnclosedExpr { inner, .. } => visit_expr(file, *inner),
        _ => seq![],
    }
}

/// [`visit_expr`] of a list of expressions, in order.
pub open spec fn visit_exprs(file: Seq<char>, es: Seq<Expr>) -> Seq<ViolationV>
    decreases es,
{
    if es.len() == 0 {
        seq![]
    } else {
        visit_exprs(file, es.drop_last()) + visit_expr(file, es.last())
    }
}

/// [`visit_expr`] of an optional expression.
pub open spec fn visit_opt(file: Seq<char>, e: Option<Expr>) -> Seq<ViolationV>
    decreases e,
{
    match e {
        Some(x) => visit_expr(file, x),
        None => seq![],
    }
}

/// [`visit_expr`] of the initialisers of declarators, in order.
pub open spec fn visit_decls(file: Seq<char>, ds: Seq<VarDeclarator>) -> Seq<ViolationV>
    decreases ds,
{
    if ds.len() == 0 {
        seq![]
    } else {
        visit_decls(file, ds.drop_last()) + visit_opt(file, ds.last().initializer)
    }
}

/// Loop findings in a statement: each loop is checked, then its parts.
pub open spec fn visit_stmt(file: Seq<char>, s: Stmt, ctx: ConstFacts) -> Seq<ViolationV>
    decreases s,
{
    match s {
        Stmt::ForStmt(fs) => loop_check(file, fs.condition, *fs.body, fs.line, true, fs.update@, fs.initialization, ctx)
            + visit_stmt(file, *fs.body, ctx) + visit_opt(file, fs.initialization) + visit_opt(file, fs.condition)
            + visit_exprs(file, fs.update@),
        Stmt::ForEachStmt(fe) => visit_expr(file, fe.iterable) + visit_stmt(file, *fe.body, ctx),
        Stmt::WhileStmt(ws) => loop_check(file, Some(ws.condition), *ws.body, ws.line, false, seq![], None, ctx)
            + visit_stmt(file, *ws.body, ctx) + visit_expr(file, ws.condition),
        Stmt::DoStmt(ds) => loop_check(file, Some(ds.condition), *ds.body, ds.line, false, seq![], None, ctx)
            + visit_stmt(file, *ds.body, ctx) + visit_expr(file, ds.condition),
        Stmt::BlockStmt(b) => visit_block(file, b, ctx),
        Stmt::IfStmt(is) => visit_stmt(file, *is.then_stmt, ctx) + match is.else_stmt {
            Some(e) => visit_stmt(file, *e, ctx),
            None => seq![],
        } + visit_expr(file, is.condition),
        Stmt::TryStmt(ts) => visit_block(file, ts.try_body, ctx) + visit_catches(file, ts.catch_clauses@, ctx)
            + match ts.finally_body {
            Some(f) => visit_block(file, f, ctx),
            None => seq![],
        },
        Stmt::SwitchStmt(ss) => visit_expr(file, ss.selector) + visit_cases(file, ss.cases@, ctx),
        Stmt::SynchronizedStmt(sy) => visit_expr(file, sy.expr) + visit_block(file, sy.body, ctx),
        Stmt::ExpressionStmt(es) => visit_expr(file, es.expr),
        Stmt::VariableDeclarationStmt(vs) => visit_decls(file, vs.declarations@),
        Stmt::ReturnStmt(rs) => visit_opt(file, rs.expr),
        Stmt::ThrowStmt(ts) => visit_expr(file, ts.expr),
        _ => seq![],
    }
}

/// [`visit_stmt`] of a list of statements, in order.
pub open spec fn visit_stmts(file: Seq<char>, ss: Seq<Stmt>, ctx: ConstFacts) -> Seq<ViolationV>
    decreases ss,
{
    if ss.len() == 0 {
        seq![]
    } else {
        visit_stmts(file, ss.drop_last(), ctx) + visit_stmt(file, ss.last(), ctx)
    }
}

/// [`visit_stmt`] of a block.
pub open spec fn visit_block(file: Seq<char>, b: BlockStmt, ctx: ConstFacts) -> Seq<ViolationV>
    decreases b,
{
    visit_stmts(file, b.statements@, ctx)
}

/// [`visit_block`] of the bodies of catch clauses, in order.
pub open spec fn visit_catches(file: Seq<char>, cs: Seq<CatchClause>, ctx: ConstFacts) -> Seq<ViolationV>
    decreases cs,
{
    if cs.len() == 0 {
        seq![]
    } else {
        visit_catches(file, cs.drop_last(), ctx) + visit_block(file, cs.last().body, ctx)
    }
}

/// [`visit_stmts`] of the statements of switch cases, in order.
pub open spec fn visit_cases(file: Seq<char>, cs: Seq<SwitchCase>, ctx: ConstFacts) -> Seq<ViolationV>
    decreases cs,
{
    if cs.len() == 0 {
        seq![]
    } else {
        visit_cases(file, cs.drop_last(), ctx) + visit_stmts(file, cs.last().statements@, ctx)
    }
}

/// The boolean constants of a type: its fields declared `final` with a
/// boolean literal, in order.
pub open spec fn field_consts(ms: Seq<MemberDecl>) -> Seq<(Seq<char>, bool)>
    decreases ms.len(),
{
    if ms.len() == 0 {
        seq![]
    } else {
        field_consts(ms.drop_last()) + match ms.last() {
            MemberDecl::FieldDeclaration(fd) => if string_views(fd.modifiers@).contains("final"@) {
                match fd.initializer {
                    Some(init) => match literal_bool_spec(init) {
                        Some(b) => seq![(fd.name@, b)],
                        None => seq![],
                    },
                    None => seq![],
                }
            } else {
                seq![]
            },
            _ => seq![],
        }
    }
}

/// The boolean locals of `bools` whose names are not in `re`, in order.
pub open spec fn unassigned(bools: Seq<(Seq<char>, bool)>, re: Seq<Seq<char>>) -> Seq<(Seq<char>, bool)>
    decreases bools.len(),
{
    if bools.len() == 0 {
        seq![]
    } else {
        unassigned(bools.drop_last(), re) + if re.contains(bools.last().0) {
            seq![]
        } else {
            seq![bools.last()]
        }
    }
}

/// The constants inside a body: the type's, its own unreassigned boolean
/// locals, and its reassigned names.
pub open spec fn body_ctx(base: ConstFacts, f: Facts) -> ConstFacts {
    ConstFacts { bools: base.bools + unassigned(f.bools, f.re), reassigned: base.reassigned + f.re }
}

/// Loop findings in a member; nested types are checked with their own
/// constants.
pub open spec fn visit_member(file: Seq<char>, m: MemberDecl, base: ConstFacts) -> Seq<ViolationV>
    decreases m,
{
    match m {
        MemberDecl::MethodDeclaration(md) => match md.body {
            Some(b) => visit_block(file, b, body_ctx(base, facts_block(b))),
            None => seq![],
        },
        MemberDecl::ConstructorDeclaration(cd) => match cd.body {
            Some(b) => visit_block(file, b, body_ctx(base, facts_block(b))),
            None => seq![],
        },
        MemberDecl::FieldDeclaration(fd) => visit_opt(file, fd.initializer),
        MemberDecl::InitializerDeclaration(init) => visit_block(file, init.body, body_ctx(base, facts_block(init.body))),
        MemberDecl::ClassDeclaration(c) => visit_members(file, c.members@, type_facts(c.members@)),
        MemberDecl::InterfaceDeclaration(i) => visit_members(file, i.members@, type_facts(i.members@)),
        MemberDecl::EnumDeclaration(e) => visit_members(file, e.members@, type_facts(e.members@)),
        MemberDecl::AnnotationDeclaration(a) => visit_members(file, a.members@, type_facts(a.members@)),
    }
}

/// The constants of a type with the given members.
pub open spec fn type_facts(ms: Seq<MemberDecl>) -> ConstFacts {
    ConstFacts { bools: field_consts(ms), reassigned: seq![] }
}

/// [`visit_member`] of a list of members, in order.
pub open spec fn visit_members(file: Seq<char>, ms: Seq<MemberDecl>, base: ConstFacts) -> Seq<ViolationV>
    decreases ms,
{
    if ms.len() == 0 {
        seq![]
    } else {
        visit_members(file, ms.drop_last(), base) + visit_member(file, ms.last(), base)
    }
}

/// Loop findings in the types of a unit, in order.
pub open spec fn visit_types(file: Seq<char>, tys: Seq<TypeDecl>) -> Seq<ViolationV>
    decreases tys.len(),
{
    if tys.len() == 0 {
        seq![]
    } else {
        let ms = type_members(tys.last());
        visit_types(file, tys.drop_last()) + visit_members(file, ms, type_facts(ms))
    }
}

fn visit_expr_exec(file: &str, e: &Expr, out: &mut Vec<Violation>)
    ensures
        views(final(out)@) == views(old(out)@) + visit_expr(file@, *e),
    decreases e,
{
    let ghost v0 = views(out@);
    match e {
        Expr::MethodCallExpr(mc) => {
            let ghost b0 = views(out@);
            let mut i: usize = 0;
            assert(mc.arguments@.take(0) == Seq::<Expr>::empty());
            assert(views(out@) == b0 + Seq::<ViolationV>::empty());
            while i < mc.arguments.len()
                invariant
                    i <= mc.arguments.len(),
                    *e == Expr::MethodCallExpr(*mc),
                    views(out@) == b0 + visit_exprs(file@, mc.arguments@.take(i as int)),
                decreases mc.arguments.len() - i,
            {
                proof {
                    assert(decreases_to!(*e => (*e)->MethodCallExpr_0));
                    assert(decreases_to!(*mc => mc.arguments));
                    assert(decreases_to!(mc.arguments => mc.arguments@));
                    assert(decreases_to!(mc.arguments@ => mc.arguments@[i as int]));
                }
                visit_expr_exec(file, &mc.arguments[i], out);
                proof {
                    let t = mc.arguments@.take(i + 1);
                    assert(t.drop_last() == mc.arguments@.take(i as int));
                    assert(t.last() == mc.arguments@[i as int]);
                    lemma_cat3(b0, visit_exprs(file@, mc.arguments@.take(i as int)), visit_expr(file@, mc.arguments@[i as int]));
                }
                i += 1;
            }
            assert(mc.arguments@.take(i as int) == mc.arguments@);
        },
        Expr::FieldAccessExpr(fa) => visit_expr_exec(file, &fa.target, out),
        Expr::BinaryExpr(be) => {
            visit_expr_exec(file, &be.left, out);
            visit_expr_exec(file, &be.right, out);
            proof { lemma_cat3(v0, visit_expr(file@, *be.left), visit_expr(file@, *be.right)); }
        },
        Expr::UnaryExpr(ue) => visit_expr_exec(file, &ue.expr, out),
        Expr::AssignExpr(ae) => {
            visit_expr_exec(file, &ae.target, out);
            visit_expr_exec(file, &ae.value, out);
            proof { lemma_cat3(v0, visit_expr(file@, *ae.target), visit_expr(file@, *ae.value)); }
        },
        Expr::CastExpr(ce) => visit_expr_exec(file, &ce.expr, out),
        Expr::ConditionalExpr(ce) => {
            visit_expr_exec(file, &ce.condition, out);
            visit_expr_exec(file, &ce.then_expr, out);
            proof { lemma_cat3(v0, visit_expr(file@, *ce.condition), visit_expr(file@, *ce.then_expr)); }
            visit_expr_exec(file, &ce.else_expr, out);
            proof { lemma_cat3(v0, (visit_expr(file@, *ce.condition) + visit_expr(file@, *ce.then_expr)), visit_expr(file@, *ce.else_expr)); }
        },
        Expr::ArrayAccessExpr(aa) => {
            visit_expr_exec(file, &aa.array, out);
            visit_expr_exec(file, &aa.index, out);
            proof { lemma_cat3(v0, visit_expr(file@, *aa.array), visit_expr(file@, *aa.index)); }
        },
        Expr::ArrayCreationExpr(ac) => {
            let ghost b0 = views(out@);
            let mut i: usize = 0;
            assert(ac.initializer@.take(0) == Seq::<Expr>::empty());
            assert(views(out@) == b0 + Seq::<ViolationV>::empty());
            while i < ac.initializer.len()
                invariant
                    i <= ac.initializer.len(),
                    *e == Expr::ArrayCreationExpr(*ac),
                    views(out@) == b0 + visit_exprs(file@, ac.initializer@.take(i as int)),
                decreases ac.initializer.len() - i,
            {
                proof {
                    assert(decreases_to!(*e => (*e)->ArrayCreationExpr_0));
                    assert(decreases_to!(*ac => ac.initializer));
                    assert(decreases_to!(ac.initializer => ac.initializer@));
                    assert(decreases_to!(ac.initializer@ => ac.initializer@[i as int]));
                }
                visit_expr_exec(file, &ac.initializer[i], out);
                proof {
                    let t = ac.initializer@.take(i + 1);
                    assert(t.drop_last() == ac.initializer@.take(i as int));
                    assert(t.last() == ac.initializer@[i as int]);
                    lemma_cat3(b0, visit_exprs(file@, ac.initializer@.take(i as int)), visit_expr(file@, ac.initializer@[i as int]));
                }
                i += 1;
            }
            assert(ac.initializer@.take(i as int) == ac.initializer@);
        },
        Expr::ObjectCreationExpr(oc) => {
            let ghost b0 = views(out@);
            let mut i: usize = 0;
            assert(oc.arguments@.take(0) == Seq::<Expr>::empty());
            assert(views(out@) == b0 + Seq::<ViolationV>::empty());
            while i < oc.arguments.len()
                invariant
                    i <= oc.arguments.len(),
                    *e == Expr::ObjectCreationExpr(*oc),
                    views(out@) == b0 + visit_exprs(file@, oc.arguments@.take(i as int)),
                decreases oc.arguments.len() - i,
            {
                proof {
                    assert(decreases_to!(*e => (*e)->ObjectCreationExpr_0));
                    assert(decreases_to!(*oc => oc.arguments));
                    assert(decreases_to!(oc.arguments => oc.arguments@));
                    assert(decreases_to!(oc.arguments@ => oc.arguments@[i as int]));
                }
                visit_expr_exec(file, &oc.arguments[i], out);
                proof {
                    let t = oc.arguments@.take(i + 1);
                    assert(t.drop_last() == oc.arguments@.take(i as int));
                    assert(t.last() == oc.arguments@[i as int]);
                    lemma_cat3(b0, visit_exprs(file@, oc.arguments@.take(i as int)), visit_expr(file@, oc.arguments@[i as int]));
                }
                i += 1;
            }
            assert(oc.arguments@.take(i as int) == oc.arguments@);
        },
        Expr::InstanceOfExpr(io) => visit_expr_exec(file, &io.expr, out),
        Expr::LambdaExpr(le) => {
            let empty = ConstCtx { bools: Vec::new(), reassigned: Vec::new() };
            assert(empty@.bools =~= empty_facts().bools && empty@.reassigned =~= empty_facts().reassigned);
            assert(empty@ == empty_facts());
            visit_stmt_exec(file, &le.body, out, &empty);
        },
        Expr::VariableDeclarationExpr(vde) => {
            let ghost b0 = views(out@);
            let mut i: usize = 0;
            assert(vde.declarations@.take(0) == Seq::<VarDeclarator>::empty());
            assert(views(out@) == b0 + Seq::<ViolationV>::empty());
            while i < vde.declarations.len()
                invariant
                    i <= vde.declarations.len(),
                    *e == Expr::VariableDeclarationExpr(*vde),
                    views(out@) == b0 + visit_decls(file@, vde.declarations@.take(i as int)),
                decreases vde.declarations.len() - i,
            {
                proof {
                    assert(decreases_to!(*e => (*e)->VariableDeclarationExpr_0));
                    assert(decreases_to!(*vde => vde.declarations));
                    assert(decreases_to!(vde.declarations => vde.declarations@));
                    assert(decreases_to!(vde.declarations@ => vde.declarations@[i as int]));
                    assert(decreases_to!(vde.declarations@[i as int] => vde.declarations@[i as int].initializer));
                }
                visit_opt_exec(file, &vde.declarations[i].initializer, out);
                proof {
                    let t = vde.declarations@.take(i + 1);
                    assert(t.drop_last() == vde.declarations@.take(i as int));
                    assert(t.last() == vde.declarations@[i as int]);
                    lemma_cat3(b0, visit_decls(file@, vde.declarations@.take(i as int)), visit_opt(file@, vde.declarations@[i as int].initializer));
                }
                i += 1;
            }
            assert(vde.declarations@.take(i as int) == vde.declarations@);
        },
        Expr::EnclosedExpr { inner, .. } => visit_expr_exec(file, inner, out),
        _ => {
            assert(views(out@) == v0 + Seq::<ViolationV>::empty());
        },
    }
}

fn visit_opt_exec(file: &str, e: &Option<Expr>, out: &mut Vec<Violation>)
    ensures
        views(final(out)@) == views(old(out)@) + visit_opt(file@, *e),
    decreases e,
{
    match e {
        Some(x) => visit_expr_exec(file, x, out),
        None => {
            assert(views(out@) == views(out@) + Seq::<ViolationV>::empty());
        },
    }
}

fn opt_ref(o: &Option<Expr>) -> (r: Option<&Expr>)
    ensures
        opt_expr(r) == *o,
{
    match o {
        Some(x) => Some(x),
        None => None,
    }
}

fn visit_block_exec(file: &str, b: &BlockStmt, out: &mut Vec<Violation>, ctx: &ConstCtx)
    ensures
        views(final(out)@) == views(old(out)@) + visit_block(file@, *b, ctx@),
    decreases b,
{
            let ghost b0 = views(out@);
            let mut i: usize = 0;
            assert(b.statements@.take(0) == Seq::<Stmt>::empty());
            assert(views(out@) == b0 + Seq::<ViolationV>::empty());
            while i < b.statements.len()
                invariant
                    i <= b.statements.len(),
                    views(out@) == b0 + visit_stmts(file@, b.statements@.take(i as int), ctx@),
                decreases b.statements.len() - i,
            {
                proof {
                    assert(decreases_to!(*b => b.statements));
                    assert(decreases_to!(b.statements => b.statements@));
                    assert(decreases_to!(b.statements@ => b.statements@[i as int]));
                }
                visit_stmt_exec(file, &b.statements[i], out, ctx);
                proof {
                    let t = b.statements@.take(i + 1);
                    assert(t.drop_last() == b.statements@.take(i as int));
                    assert(t.last() == b.statements@[i as int]);
                    lemma_cat3(b0, visit_stmts(file@, b.statements@.take(i as int), ctx@), visit_stmt(file@, b.statements@[i as int], ctx@));
                }
                i += 1;
            }
            assert(b.statements@.take(i as int) == b.statements@);
}

fn visit_stmt_exec(file: &str, s: &Stmt, out: &mut Vec<Violation>, ctx: &ConstCtx)
    ensures
        views(final(out)@) == views(old(out)@) + visit_stmt(file@, *s, ctx@),
    decreases s,
{
    let ghost v0 = views(out@);
    match s {
        Stmt::ForStmt(fs) => {
            check_loop(file, out, opt_ref(&fs.condition), &fs.body, fs.line, true, &fs.update, &fs.initialization, ctx);
            let ghost a0 = loop_check(file@, fs.condition, *fs.body, fs.line, true, fs.update@, fs.initialization, ctx@);
            visit_stmt_exec(file, &fs.body, out, ctx);
            proof { lemma_cat3(v0, a0, visit_stmt(file@, *fs.body, ctx@)); }
            let ghost a1 = a0 + visit_stmt(file@, *fs.body, ctx@);
            visit_opt_exec(file, &fs.initialization, out);
            proof { lemma_cat3(v0, a1, visit_opt(file@, fs.initialization)); }
            let ghost a2 = a1 + visit_opt(file@, fs.initialization);
            visit_opt_exec(file, &fs.condition, out);
            proof { lemma_cat3(v0, a2, visit_opt(file@, fs.condition)); }
            let ghost a3 = a2 + visit_opt(file@, fs.condition);
            {
            let ghost b1 = views(out@);
            let mut i: usize = 0;
            assert(fs.update@.take(0) == Seq::<Expr>::empty());
            assert(views(out@) == b1 + Seq::<ViolationV>::empty());
            while i < fs.update.len()
                invariant
                    i <= fs.update.len(),
                    *s == Stmt::ForStmt(*fs),
                    views(out@) == b1 + visit_exprs(file@, fs.update@.take(i as int)),
                decreases fs.update.len() - i,
            {
                proof {
                    assert(decreases_to!(*s => (*s)->ForStmt_0));
                    assert(decreases_to!(*fs => fs.update));
                    assert(decreases_to!(fs.update => fs.update@));
                    assert(decreases_to!(fs.update@ => fs.update@[i as int]));
                }
                visit_expr_exec(file, &fs.update[i], out);
                proof {
                    let t = fs.update@.take(i + 1);
                    assert(t.drop_last() == fs.update@.take(i as int));
                    assert(t.last() == fs.update@[i as int]);
                    lemma_cat3(b1, visit_exprs(file@, fs.update@.take(i as int)), visit_expr(file@, fs.update@[i as int]));
                }
                i += 1;
            }
            assert(fs.update@.take(i as int) == fs.update@);
            }
            proof { lemma_cat3(v0, a3, visit_exprs(file@, fs.update@)); }
        },
        Stmt::ForEachStmt(fe) => {
            visit_expr_exec(file, &fe.iterable, out);
            visit_stmt_exec(file, &fe.body, out, ctx);
            proof { lemma_cat3(v0, visit_expr(file@, fe.iterable), visit_stmt(file@, *fe.body, ctx@)); }
        },
        Stmt::WhileStmt(ws) => {
            let empty: Vec<Expr> = Vec::new();
            let none: Option<Expr> = None;
            assert(empty@ =~= Seq::<Expr>::empty());
            check_loop(file, out, Some(&ws.condition), &ws.body, ws.line, false, &empty, &none, ctx);
            let ghost a0 = loop_check(file@, Some(ws.condition), *ws.body, ws.line, false, seq![], None, ctx@);
            visit_stmt_exec(file, &ws.body, out, ctx);
            proof { lemma_cat3(v0, a0, visit_stmt(file@, *ws.body, ctx@)); }
            visit_expr_exec(file, &ws.condition, out);
            proof { lemma_cat3(v0, a0 + visit_stmt(file@, *ws.body, ctx@), visit_expr(file@, ws.condition)); }
        },
        Stmt::DoStmt(ds) => {
            let empty: Vec<Expr> = Vec::new();
            let none: Option<Expr> = None;
            assert(empty@ =~= Seq::<Expr>::empty());
            check_loop(file, out, Some(&ds.condition), &ds.body, ds.line, false, &empty, &none, ctx);
            let ghost a0 = loop_check(file@, Some(ds.condition), *ds.body, ds.line, false, seq![], None, ctx@);
            visit_stmt_exec(file, &ds.body, out, ctx);
            proof { lemma_cat3(v0, a0, visit_stmt(file@, *ds.body, ctx@)); }
            visit_expr_exec(file, &ds.condition, out);
            proof { lemma_cat3(v0, a0 + visit_stmt(file@, *ds.body, ctx@), visit_expr(file@, ds.condition)); }
        },
        Stmt::BlockStmt(b) => visit_block_exec(file, b, out, ctx),
        Stmt::IfStmt(is) => {
            visit_stmt_exec(file, &is.then_stmt, out, ctx);
            let ghost a1 = visit_stmt(file@, *is.then_stmt, ctx@);
            let ghost e1 = match &is.else_stmt { Some(x) => visit_stmt(file@, **x, ctx@), None => Seq::<ViolationV>::empty() };
            match &is.else_stmt {
                Some(x) => {
                    visit_stmt_exec(file, x, out, ctx);
                },
                None => {
                    assert(views(out@) == views(out@) + Seq::<ViolationV>::empty());
                },
            }
            proof { lemma_cat3(v0, a1, e1); }
            visit_expr_exec(file, &is.condition, out);
            proof { lemma_cat3(v0, a1 + e1, visit_expr(file@, is.condition)); }
        },
        Stmt::TryStmt(ts) => {
            visit_block_exec(file, &ts.try_body, out, ctx);
            {
            let ghost b1 = views(out@);
            let mut i: usize = 0;
            assert(ts.catch_clauses@.take(0) == Seq::<CatchClause>::empty());
            assert(views(out@) == b1 + Seq::<ViolationV>::empty());
            while i < ts.catch_clauses.len()
                invariant
                    i <= ts.catch_clauses.len(),
                    *s == Stmt::TryStmt(*ts),
                    views(out@) == b1 + visit_catches(file@, ts.catch_clauses@.take(i as int), ctx@),
                decreases ts.catch_clauses.len() - i,
            {
                proof {
                    assert(decreases_to!(*s => (*s)->TryStmt_0));
                    assert(decreases_to!(*ts => ts.catch_clauses));
                    assert(decreases_to!(ts.catch_clauses => ts.catch_clauses@));
                    assert(decreases_to!(ts.catch_clauses@ => ts.catch_clauses@[i as int]));
                    assert(decreases_to!(ts.catch_clauses@[i as int] => ts.catch_clauses@[i as int].body));
                }
                visit_block_exec(file, &ts.catch_clauses[i].body, out, ctx);
                proof {
                    let t = ts.catch_clauses@.take(i + 1);
                    assert(t.drop_last() == ts.catch_clauses@.take(i as int));
                    assert(t.last() == ts.catch_clauses@[i as int]);
                    lemma_cat3(b1, visit_catches(file@, ts.catch_clauses@.take(i as int), ctx@), visit_block(file@, ts.catch_clauses@[i as int].body, ctx@));
                }
                i += 1;
            }
            assert(ts.catch_clauses@.take(i as int) == ts.catch_clauses@);
            }
            proof { lemma_cat3(v0, visit_block(file@, ts.try_body, ctx@), visit_catches(file@, ts.catch_clauses@, ctx@)); }
            let ghost a2 = visit_block(file@, ts.try_body, ctx@) + visit_catches(file@, ts.catch_clauses@, ctx@);
            let ghost f1 = match &ts.finally_body { Some(f) => visit_block(file@, *f, ctx@), None => Seq::<ViolationV>::empty() };
            match &ts.finally_body {
                Some(f) => {
                    visit_block_exec(file, f, out, ctx);
                },
                None => {
                    assert(views(out@) == views(out@) + Seq::<ViolationV>::empty());
                },
            }
            proof { lemma_cat3(v0, a2, f1); }
        },
        Stmt::SwitchStmt(ss) => {
            visit_expr_exec(file, &ss.selector, out);
            let ghost b1 = views(out@);
            let mut c: usize = 0;
            assert(ss.cases@.take(0) == Seq::<SwitchCase>::empty());
            assert(views(out@) == b1 + Seq::<ViolationV>::empty());
            while c < ss.cases.len()
                invariant
                    c <= ss.cases.len(),
                    *s == Stmt::SwitchStmt(*ss),
                    views(out@) == b1 + visit_cases(file@, ss.cases@.take(c as int), ctx@),
                decreases ss.cases.len() - c,
            {
                let case = &ss.cases[c];
                let ghost b2 = views(out@);
                let mut k: usize = 0;
                assert(case.statements@.take(0) == Seq::<Stmt>::empty());
                assert(views(out@) == b2 + Seq::<ViolationV>::empty());
                while k < case.statements.len()
                    invariant
                        k <= case.statements.len(),
                        *s == Stmt::SwitchStmt(*ss),
                        c < ss.cases.len(),
                        *case == ss.cases@[c as int],
                        views(out@) == b2 + visit_stmts(file@, case.statements@.take(k as int), ctx@),
                    decreases case.statements.len() - k,
                {
                    proof {
                        assert(decreases_to!(*s => (*s)->SwitchStmt_0));
                        assert(decreases_to!(*ss => ss.cases));
                        assert(decreases_to!(ss.cases => ss.cases@));
                        assert(decreases_to!(ss.cases@ => ss.cases@[c as int]));
                        assert(decreases_to!(ss.cases@[c as int] => ss.cases@[c as int].statements));
                        assert(decreases_to!(case.statements => case.statements@));
                        assert(decreases_to!(case.statements@ => case.statements@[k as int]));
                    }
                    visit_stmt_exec(file, &case.statements[k], out, ctx);
                    proof {
                        let t = case.statements@.take(k + 1);
                        assert(t.drop_last() == case.statements@.take(k as int));
                        assert(t.last() == case.statements@[k as int]);
                        lemma_cat3(b2, visit_stmts(file@, case.statements@.take(k as int), ctx@), visit_stmt(file@, case.statements@[k as int], ctx@));
                    }
                    k += 1;
                }
                assert(case.statements@.take(k as int) == case.statements@);
                proof {
                    let t = ss.cases@.take(c + 1);
                    assert(t.drop_last() == ss.cases@.take(c as int));
                    assert(t.last() == ss.cases@[c as int]);
                    lemma_cat3(b1, visit_cases(file@, ss.cases@.take(c as int), ctx@), visit_stmts(file@, case.statements@, ctx@));
                }
                c += 1;
            }
            assert(ss.cases@.take(c as int) == ss.cases@);
            proof { lemma_cat3(v0, visit_expr(file@, ss.selector), visit_cases(file@, ss.cases@, ctx@)); }
        },
        Stmt::SynchronizedStmt(sy) => {
            visit_expr_exec(file, &sy.expr, out);
            visit_block_exec(file, &sy.body, out, ctx);
            proof { lemma_cat3(v0, visit_expr(file@, sy.expr), visit_block(file@, sy.body, ctx@)); }
        },
        Stmt::ExpressionStmt(es) => visit_expr_exec(file, &es.expr, out),
        Stmt::VariableDeclarationStmt(vs) => {
            let ghost b0 = views(out@);
            let mut i: usize = 0;
            assert(vs.declarations@.take(0) == Seq::<VarDeclarator>::empty());
            assert(views(out@) == b0 + Seq::<ViolationV>::empty());
            while i < vs.declarations.len()
                invariant
                    i <= vs.declarations.len(),
                    *s == Stmt::VariableDeclarationStmt(*vs),
                    views(out@) == b0 + visit_decls(file@, vs.declarations@.take(i as int)),
                decreases vs.declarations.len() - i,
            {
                proof {
                    assert(decreases_to!(*s => (*s)->VariableDeclarationStmt_0));
                    assert(decreases_to!(*vs => vs.declarations));
                    assert(decreases_to!(vs.declarations => vs.declarations@));
                    assert(decreases_to!(vs.declarations@ => vs.declarations@[i as int]));
                    assert(decreases_to!(vs.declarations@[i as int] => vs.declarations@[i as int].initializer));
                }
                visit_opt_exec(file, &vs.declarations[i].initializer, out);
                proof {
                    let t = vs.declarations@.take(i + 1);
                    assert(t.drop_last() == vs.declarations@.take(i as int));
                    assert(t.last() == vs.declarations@[i as int]);
                    lemma_cat3(b0, visit_decls(file@, vs.declarations@.take(i as int)), visit_opt(file@, vs.declarations@[i as int].initializer));
                }
                i += 1;
            }
            assert(vs.declarations@.take(i as int) == vs.declarations@);
        },
        Stmt::ReturnStmt(rs) => visit_opt_exec(file, &rs.expr, out),
        Stmt::ThrowStmt(ts) => visit_expr_exec(file, &ts.expr, out),
        _ => {
            assert(views(out@) == v0 + Seq::<ViolationV>::empty());
        },
    }
}

fn build_field_consts(ms: &Vec<MemberDecl>) -> (r: Vec<(String, bool)>)
    ensures
        pair_views(r@) == field_consts(ms@),
{
    let mut r: Vec<(String, bool)> = Vec::new();
    let mut i: usize = 0;
    assert(ms@.take(0) == Seq::<MemberDecl>::empty());
    assert(pair_views(r@) =~= Seq::<(Seq<char>, bool)>::empty());
    while i < ms.len()
        invariant
            i <= ms.len(),
            pair_views(r@) == field_consts(ms@.take(i as int)),
        decreases ms.len() - i,
    {
        let ghost before = pair_views(r@);
        proof {
            let t = ms@.take(i + 1);
            assert(t.drop_last() == ms@.take(i as int));
            assert(t.last() == ms@[i as int]);
        }
        match &ms[i] {
            MemberDecl::FieldDeclaration(fd) => {
                let is_final = contains_name(&fd.modifiers, "final");
                assert(name_views(fd.modifiers@) =~= string_views(fd.modifiers@));
                let mut pushed = false;
                if is_final {
                    match &fd.initializer {
                        Some(init) => match literal_bool(init) {
                            Some(b) => {
                                r.push((fd.name.clone(), b));
                                pushed = true;
                                assert(pair_views(r@) =~= before + seq![(fd.name@, b)]);
                            },
                            None => {},
                        },
                        None => {},
                    }
                }
                if !pushed {
                    assert(pair_views(r@) =~= before + Seq::<(Seq<char>, bool)>::empty());
                }
            },
            _ => {
                assert(pair_views(r@) =~= before + Seq::<(Seq<char>, bool)>::empty());
            },
        }
        i += 1;
    }
    assert(ms@.take(i as int) == ms@);
    r
}

fn copy_names(v: &Vec<String>) -> (r: Vec<String>)
    ensures
        name_views(r@) == name_views(v@),
{
    let mut r: Vec<String> = Vec::new();
    let mut i: usize = 0;
    while i < v.len()
        invariant
            i <= v.len(),
            r@.len() == i,
            forall|m: int| 0 <= m < i ==> (#[trigger] r@[m])@ == v@[m]@,
        decreases v.len() - i,
    {
        r.push(v[i].clone());
        i += 1;
    }
    assert(name_views(r@) =~= name_views(v@));
    r
}

fn copy_bools(v: &Vec<(String, bool)>) -> (r: Vec<(String, bool)>)
    ensures
        pair_views(r@) == pair_views(v@),
{
    let mut r: Vec<(String, bool)> = Vec::new();
    let mut i: usize = 0;
    while i < v.len()
        invariant
            i <= v.len(),
            r@.len() == i,
            forall|m: int| 0 <= m < i ==> (#[trigger] r@[m]).0@ == v@[m].0@ && r@[m].1 == v@[m].1,
        decreases v.len() - i,
    {
        r.push((v[i].0.clone(), v[i].1));
        i += 1;
    }
    assert(pair_views(r@) =~= pair_views(v@));
    r
}

fn type_ctx(ms: &Vec<MemberDecl>) -> (r: ConstCtx)
    ensures
        r@ == type_facts(ms@),
{
    let r = ConstCtx { bools: build_field_consts(ms), reassigned: Vec::new() };
    assert(r@.reassigned =~= type_facts(ms@).reassigned);
    r
}

fn body_ctx_exec(base: &ConstCtx, b: &BlockStmt) -> (r: ConstCtx)
    ensures
        r@ == body_ctx(base@, facts_block(*b)),
{
    let mut bools: Vec<(String, bool)> = Vec::new();
    let mut re: Vec<String> = Vec::new();
    assert(fstate(bools@, re@).bools =~= no_facts().bools);
    assert(fstate(bools@, re@).re =~= no_facts().re);
    facts_block_into(b, &mut bools, &mut re);
    let ghost f = facts_block(*b);
    assert(fcat(no_facts(), f).bools =~= f.bools);
    assert(fcat(no_facts(), f).re =~= f.re);
    let mut out_bools = copy_bools(&base.bools);
    let ghost base_b = pair_views(out_bools@);
    let mut i: usize = 0;
    assert(f.bools.take(0) == Seq::<(Seq<char>, bool)>::empty());
    assert(pair_views(out_bools@) =~= base_b + unassigned(f.bools.take(0), f.re));
    while i < bools.len()
        invariant
            i <= bools.len(),
            f.bools == pair_views(bools@),
            f.re == name_views(re@),
            pair_views(out_bools@) == base_b + unassigned(f.bools.take(i as int), f.re),
        decreases bools.len() - i,
    {
        let ghost before = pair_views(out_bools@);
        proof {
            let t = f.bools.take(i + 1);
            assert(t.drop_last() == f.bools.take(i as int));
            assert(t.last() == (bools@[i as int].0@, bools@[i as int].1));
        }
        if !contains_name(&re, bools[i].0.as_str()) {
            out_bools.push((bools[i].0.clone(), bools[i].1));
            assert(pair_views(out_bools@) =~= before.push((bools@[i as int].0@, bools@[i as int].1)));
            proof {
                lemma_cat3(base_b, unassigned(f.bools.take(i as int), f.re), seq![(bools@[i as int].0@, bools@[i as int].1)]);
                assert(before.push((bools@[i as int].0@, bools@[i as int].1)) =~= before + seq![(bools@[i as int].0@, bools@[i as int].1)]);
            }
        } else {
            assert(unassigned(f.bools.take(i as int), f.re) + Seq::<(Seq<char>, bool)>::empty() =~= unassigned(f.bools.take(i as int), f.re));
        }
        i += 1;
    }
    assert(f.bools.take(i as int) == f.bools);
    let mut out_re = copy_names(&base.reassigned);
    let ghost base_r = name_views(out_re@);
    let mut k: usize = 0;
    while k < re.len()
        invariant
            k <= re.len(),
            f.re == name_views(re@),
            name_views(out_re@) == base_r + f.re.take(k as int),
        decreases re.len() - k,
    {
        let ghost before = name_views(out_re@);
        out_re.push(re[k].clone());
        assert(f.re[k as int] == re@[k as int]@);
        assert(name_views(out_re@) =~= before.push(re@[k as int]@));
        assert(f.re.take(k + 1) =~= f.re.take(k as int).push(re@[k as int]@));
        assert(name_views(out_re@) =~= base_r + f.re.take(k + 1));
        k += 1;
    }
    assert(f.re.take(k as int) == f.re);
    let r = ConstCtx { bools: out_bools, reassigned: out_re };
    assert(r@.bools =~= body_ctx(base@, f).bools);
    assert(r@.reassigned =~= body_ctx(base@, f).reassigned);
    r
}

fn visit_members_exec(file: &str, ms: &Vec<MemberDecl>, base: &ConstCtx, out: &mut Vec<Violation>)
    ensures
        views(final(out)@) == views(old(out)@) + visit_members(file@, ms@, base@),
    decreases ms,
{
    let ghost v0 = views(out@);
    let mut i: usize = 0;
    assert(ms@.take(0) == Seq::<MemberDecl>::empty());
    assert(views(out@) == v0 + Seq::<ViolationV>::empty());
    while i < ms.len()
        invariant
            i <= ms.len(),
            views(out@) == v0 + visit_members(file@, ms@.take(i as int), base@),
        decreases ms.len() - i,
    {
        let ghost a = views(out@);
        proof {
            assert(decreases_to!(*ms => ms@));
            assert(decreases_to!(ms@ => ms@[i as int]));
        }
        match &ms[i] {
            MemberDecl::MethodDeclaration(md) => match &md.body {
                Some(b) => {
                    let ctx = body_ctx_exec(base, b);
                    visit_block_exec(file, b, out, &ctx);
                },
                None => {
                    assert(views(out@) == a + Seq::<ViolationV>::empty());
                },
            },
            MemberDecl::ConstructorDeclaration(cd) => match &cd.body {
                Some(b) => {
                    let ctx = body_ctx_exec(base, b);
                    visit_block_exec(file, b, out, &ctx);
                },
                None => {
                    assert(views(out@) == a + Seq::<ViolationV>::empty());
                },
            },
            MemberDecl::FieldDeclaration(fd) => visit_opt_exec(file, &fd.initializer, out),
            MemberDecl::InitializerDeclaration(init) => {
                let ctx = body_ctx_exec(base, &init.body);
                visit_block_exec(file, &init.body, out, &ctx);
            },
            MemberDecl::ClassDeclaration(c) => {
                proof {
                    assert(decreases_to!(ms@[i as int] => (ms@[i as int])->ClassDeclaration_0));
                    assert(decreases_to!(*c => c.members));
                }
                let t = type_ctx(&c.members);
                visit_members_exec(file, &c.members, &t, out);
            },
            MemberDecl::InterfaceDeclaration(c) => {
                proof {
                    assert(decreases_to!(ms@[i as int] => (ms@[i as int])->InterfaceDeclaration_0));
                    assert(decreases_to!(*c => c.members));
                }
                let t = type_ctx(&c.members);
                visit_members_exec(file, &c.members, &t, out);
            },
            MemberDecl::EnumDeclaration(c) => {
                proof {
                    assert(decreases_to!(ms@[i as int] => (ms@[i as int])->EnumDeclaration_0));
                    assert(decreases_to!(*c => c.members));
                }
                let t = type_ctx(&c.members);
                visit_members_exec(file, &c.members, &t, out);
            },
            MemberDecl::AnnotationDeclaration(c) => {
                proof {
                    assert(decreases_to!(ms@[i as int] => (ms@[i as int])->AnnotationDeclaration_0));
                    assert(decreases_to!(*c => c.members));
                }
                let t = type_ctx(&c.members);
                visit_members_exec(file, &c.members, &t, out);
            },
        }
        proof {
            let t = ms@.take(i + 1);
            assert(t.drop_last() == ms@.take(i as int));
            assert(t.last() == ms@[i as int]);
            lemma_cat3(v0, visit_members(file@, ms@.take(i as int), base@), visit_member(file@, ms@[i as int], base@));
        }
        i += 1;
    }
    assert(ms@.take(i as int) == ms@);
}

/// Rule J009: loops that may never terminate.
pub struct InfiniteLoopRule {
    id: RuleId,
}

impl InfiniteLoopRule {
    /// The rule, with id `J009`.
    pub fn new() -> (r: Self)
        ensures
            r.id_spec() == "J009"@,
    {
        InfiniteLoopRule { id: RuleId(String::from_str("J009")) }
    }

    /// The id it reports under.
    pub closed spec fn id_spec(&self) -> Seq<char> {
        self.id.0@
    }
}

impl Default for InfiniteLoopRule {
    fn default() -> (r: Self)
        ensures
            r.id_spec() == "J009"@,
    {
        InfiniteLoopRule::new()
    }
}

impl Rule<CompilationUnit> for InfiniteLoopRule {
    fn id(&self) -> (r: &RuleId)
        ensures
            r.0@ == self.id_spec(),
    {
        &self.id
    }

    fn description(&self) -> (r: &str)
        ensures
            r@ == "Loop that may never terminate (definite/potential infinite loop)"@,
    {
        "Loop that may never terminate (definite/potential infinite loop)"
    }

    fn severity(&self) -> (r: Severity)
        ensures
            r == Severity::Major,
    {
        Severity::Major
    }

    /// A loop's cause may lie anywhere in its body, so a violation counts as
    /// changed when its whole span meets a change.
    fn span_policy(&self) -> (r: SpanPolicy)
        ensures
            r == SpanPolicy::Intersect,
    {
        SpanPolicy::Intersect
    }

    fn check_unit(&self, unit: &CompilationUnit) -> (r: Vec<Violation>)
        ensures
            views(r@) == visit_types(unit.source_file@, unit.types@),
    {
        let mut out: Vec<Violation> = Vec::new();
        let file = unit.source_file.as_str();
        let mut i: usize = 0;
        assert(unit.types@.take(0) == Seq::<TypeDecl>::empty());
        assert(views(out@) == Seq::<ViolationV>::empty());
        while i < unit.types.len()
            invariant
                i <= unit.types.len(),
                file@ == unit.source_file@,
                views(out@) == visit_types(file@, unit.types@.take(i as int)),
            decreases unit.types.len() - i,
        {
            let ms = members_of(&unit.types[i]);
            let base = type_ctx(ms);
            visit_members_exec(file, ms, &base, &mut out);
            proof {
                let t = unit.types@.take(i + 1);
                assert(t.drop_last() == unit.types@.take(i as int));
                assert(t.last() == unit.types@[i as int]);
            }
            i += 1;
        }
        assert(unit.types@.take(i as int) == unit.types@);
        out
    }
}

} // verus!
