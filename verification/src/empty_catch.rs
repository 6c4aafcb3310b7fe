//! Built-in rule J008: empty catch blocks, which swallow exceptions.

use vstd::prelude::*;
use crate::ast::{BlockStmt, CatchClause, CompilationUnit, MemberDecl, Stmt, TryStmt, TypeDecl};
use crate::matcher::type_members;
use crate::rule::{views, Rule, RuleId, Severity, Violation, ViolationV};

verus! {

broadcast use vstd::string::group_string_axioms;

/// The violation reported for an empty catch clause at `line` of `file`.
pub open spec fn empty_catch_violation(file: Seq<char>, line: usize) -> ViolationV {
    ViolationV {
        rule_id: "J008"@,
        severity: Severity::Major,
        file,
        line: line as nat,
        end_line: None,
        message: "empty catch block: exception is silently swallowed"@,
    }
}

/// Empty catch clauses in a statement, searched through nested blocks,
/// branches, loop bodies, `try` parts and `synchronized` bodies.
pub open spec fn catch_stmt(file: Seq<char>, s: Stmt) -> Seq<ViolationV>
    decreases s,
{
    match s {
        Stmt::TryStmt(ts) => catch_block(file, ts.try_body) + catch_clauses(file, ts.catch_clauses@)
            + match ts.finally_body {
            Some(f) => catch_block(file, f),
            None => seq![],
        },
        Stmt::BlockStmt(b) => catch_block(file, b),
        Stmt::IfStmt(is) => catch_stmt(file, *is.then_stmt) + match is.else_stmt {
            Some(e) => catch_stmt(file, *e),
            None => seq![],
        },
        Stmt::ForStmt(fs) => catch_stmt(file, *fs.body),
        Stmt::WhileStmt(ws) => catch_stmt(file, *ws.body),
        Stmt::DoStmt(ds) => catch_stmt(file, *ds.body),
        Stmt::SynchronizedStmt(ss) => catch_block(file, ss.body),
        _ => seq![],
    }
}

/// Empty catch clauses in the statements of a block.
pub open spec fn catch_stmts(file: Seq<char>, ss: Seq<Stmt>) -> Seq<ViolationV>
    decreases ss,
{
    if ss.len() == 0 {
        seq![]
    } else {
        catch_stmts(file, ss.drop_last()) + catch_stmt(file, ss.last())
    }
}

/// Empty catch clauses in a block.
pub open spec fn catch_block(file: Seq<char>, b: BlockStmt) -> Seq<ViolationV>
    decreases b,
{
    catch_stmts(file, b.statements@)
}

/// A violation for each empty clause; the bodies of the others are searched.
pub open spec fn catch_clauses(file: Seq<char>, cs: Seq<CatchClause>) -> Seq<ViolationV>
    decreases cs,
{
    if cs.len() == 0 {
        seq![]
    } else {
        let cc = cs.last();
        catch_clauses(file, cs.drop_last()) + if cc.body.statements@.len() == 0 {
            seq![empty_catch_violation(file, cc.line)]
        } else {
            catch_block(file, cc.body)
        }
    }
}

/// Empty catch clauses in a member: method and constructor bodies, and the
/// members of nested types.
pub open spec fn catch_member(file: Seq<char>, m: MemberDecl) -> Seq<ViolationV>
    decreases m,
{
    match m {
        MemberDecl::MethodDeclaration(md) => match md.body {
            Some(b) => catch_block(file, b),
            None => seq![],
        },
        MemberDecl::ConstructorDeclaration(cd) => match cd.body {
            Some(b) => catch_block(file, b),
            None => seq![],
        },
        MemberDecl::ClassDeclaration(c) => catch_members(file, c.members@),
        MemberDecl::InterfaceDeclaration(i) => catch_members(file, i.members@),
        MemberDecl::EnumDeclaration(e) => catch_members(file, e.members@),
        MemberDecl::AnnotationDeclaration(a) => catch_members(file, a.members@),
        _ => seq![],
    }
}

/// Empty catch clauses in a list of members, in order.
pub open spec fn catch_members(file: Seq<char>, ms: Seq<MemberDecl>) -> Seq<ViolationV>
    decreases ms,
{
    if ms.len() == 0 {
        seq![]
    } else {
        catch_members(file, ms.drop_last()) + catch_member(file, ms.last())
    }
}

/// Empty catch clauses in the types of a unit, in order.
pub open spec fn catch_types(file: Seq<char>, tys: Seq<TypeDecl>) -> Seq<ViolationV>
    decreases tys.len(),
{
    if tys.len() == 0 {
        seq![]
    } else {
        catch_types(file, tys.drop_last()) + catch_members(file, type_members(tys.last()))
    }
}

proof fn lemma_add3(a: Seq<ViolationV>, b: Seq<ViolationV>, c: Seq<ViolationV>)
    ensures
        a + b + c == a + (b + c),
{
    assert(a + b + c =~= a + (b + c));
}

/// Whether every violation of `vs` is the J008 finding of `file` (rule J008,
/// severity major, the fixed message, no end line) at its own line.
pub open spec fn j008_findings(vs: Seq<ViolationV>, file: Seq<char>) -> bool {
    forall|i: int| 0 <= i < vs.len() ==> #[trigger] vs[i] == empty_catch_violation(file, vs[i].line as usize)
}

proof fn lemma_j008_cat(a: Seq<ViolationV>, b: Seq<ViolationV>, file: Seq<char>)
    requires
        j008_findings(a, file),
        j008_findings(b, file),
    ensures
        j008_findings(a + b, file),
{
    assert forall|i: int| 0 <= i < (a + b).len() implies #[trigger] (a + b)[i] == empty_catch_violation(
        file,
        (a + b)[i].line as usize,
    ) by {
        if i < a.len() {
            assert((a + b)[i] == a[i]);
        } else {
            assert((a + b)[i] == b[i - a.len()]);
        }
    }
}

proof fn lemma_j008_stmt(file: Seq<char>, s: Stmt)
    ensures
        j008_findings(catch_stmt(file, s), file),
    decreases s,
{
    match s {
        Stmt::TryStmt(ts) => {
            lemma_j008_block(file, ts.try_body);
            lemma_j008_clauses(file, ts.catch_clauses@);
            lemma_j008_cat(catch_block(file, ts.try_body), catch_clauses(file, ts.catch_clauses@), file);
            let f = match ts.finally_body {
                Some(f) => catch_block(file, f),
                None => seq![],
            };
            match ts.finally_body {
                Some(fb) => lemma_j008_block(file, fb),
                None => {},
            }
            lemma_j008_cat(catch_block(file, ts.try_body) + catch_clauses(file, ts.catch_clauses@), f, file);
        },
        Stmt::BlockStmt(b) => lemma_j008_block(file, b),
        Stmt::IfStmt(is) => {
            lemma_j008_stmt(file, *is.then_stmt);
            let e = match is.else_stmt {
                Some(e) => catch_stmt(file, *e),
                None => seq![],
            };
            match is.else_stmt {
                Some(x) => lemma_j008_stmt(file, *x),
                None => {},
            }
            lemma_j008_cat(catch_stmt(file, *is.then_stmt), e, file);
        },
        Stmt::ForStmt(fs) => lemma_j008_stmt(file, *fs.body),
        Stmt::WhileStmt(ws) => lemma_j008_stmt(file, *ws.body),
        Stmt::DoStmt(ds) => lemma_j008_stmt(file, *ds.body),
        Stmt::SynchronizedStmt(ss) => lemma_j008_block(file, ss.body),
        _ => {},
    }
}

proof fn lemma_j008_stmts(file: Seq<char>, ss: Seq<Stmt>)
    ensures
        j008_findings(catch_stmts(file, ss), file),
    decreases ss,
{
    if ss.len() > 0 {
        lemma_j008_stmts(file, ss.drop_last());
        lemma_j008_stmt(file, ss.last());
        lemma_j008_cat(catch_stmts(file, ss.drop_last()), catch_stmt(file, ss.last()), file);
    }
}

proof fn lemma_j008_block(file: Seq<char>, b: BlockStmt)
    ensures
        j008_findings(catch_block(file, b), file),
    decreases b,
{
    lemma_j008_stmts(file, b.statements@);
}

proof fn lemma_j008_clauses(file: Seq<char>, cs: Seq<CatchClause>)
    ensures
        j008_findings(catch_clauses(file, cs), file),
    decreases cs,
{
    if cs.len() > 0 {
        let cc = cs.last();
        lemma_j008_clauses(file, cs.drop_last());
        if cc.body.statements@.len() == 0 {
            let one = seq![empty_catch_violation(file, cc.line)];
            assert(one[0].line as usize == cc.line);
            lemma_j008_cat(catch_clauses(file, cs.drop_last()), one, file);
        } else {
            lemma_j008_block(file, cc.body);
            lemma_j008_cat(catch_clauses(file, cs.drop_last()), catch_block(file, cc.body), file);
        }
    }
}

proof fn lemma_j008_member(file: Seq<char>, m: MemberDecl)
    ensures
        j008_findings(catch_member(file, m), file),
    decreases m,
{
    match m {
        MemberDecl::MethodDeclaration(md) => match md.body {
            Some(b) => lemma_j008_block(file, b),
            None => {},
        },
        MemberDecl::ConstructorDeclaration(cd) => match cd.body {
            Some(b) => lemma_j008_block(file, b),
            None => {},
        },
        MemberDecl::ClassDeclaration(c) => lemma_j008_members(file, c.members@),
        MemberDecl::InterfaceDeclaration(i) => lemma_j008_members(file, i.members@),
        MemberDecl::EnumDeclaration(e) => lemma_j008_members(file, e.members@),
        MemberDecl::AnnotationDeclaration(a) => lemma_j008_members(file, a.members@),
        _ => {},
    }
}

proof fn lemma_j008_members(file: Seq<char>, ms: Seq<MemberDecl>)
    ensures
        j008_findings(catch_members(file, ms), file),
    decreases ms,
{
    if ms.len() > 0 {
        lemma_j008_members(file, ms.drop_last());
        lemma_j008_member(file, ms.last());
        lemma_j008_cat(catch_members(file, ms.drop_last()), catch_member(file, ms.last()), file);
    }
}

/// Every finding of J008 on a unit is the J008 violation (rule `J008`,
/// severity major, the fixed message, no end line) of the unit's file, at the
/// line of an empty catch clause; a clause with statements is searched, never
/// reported.
pub proof fn lemma_empty_catch_findings(file: Seq<char>, tys: Seq<TypeDecl>)
    ensures
        j008_findings(catch_types(file, tys), file),
    decreases tys.len(),
{
    if tys.len() > 0 {
        lemma_empty_catch_findings(file, tys.drop_last());
        lemma_j008_members(file, type_members(tys.last()));
        lemma_j008_cat(catch_types(file, tys.drop_last()), catch_members(file, type_members(tys.last())), file);
    }
}

/// A catch clause with statements is not reported itself: its findings are
/// those of its body.
pub proof fn lemma_nonempty_catch_not_reported(file: Seq<char>, cc: CatchClause)
    requires
        cc.body.statements@.len() > 0,
    ensures
        catch_clauses(file, seq![cc]) == catch_block(file, cc.body),
{
    let one = seq![cc];
    assert(one.drop_last() == Seq::<CatchClause>::empty());
    assert(one.last() == cc);
    assert(catch_clauses(file, one.drop_last()) == Seq::<ViolationV>::empty());
    assert(Seq::<ViolationV>::empty() + catch_block(file, cc.body) == catch_block(file, cc.body));
}

/// The statements of the bodies of the catch clauses `cs`, in order.
pub open spec fn catch_body_stmts(cs: Seq<CatchClause>) -> Seq<Stmt>
    decreases cs.len(),
{
    if cs.len() == 0 {
        seq![]
    } else {
        catch_body_stmts(cs.drop_last()) + cs.last().body.statements@
    }
}

/// The statements directly inside `s` that the rule looks into: the
/// branches of an `if`, the bodies of `for`, `while` and `do`, and the
/// statements of a block, of a `synchronized` body, and of the body, the
/// catch bodies and the `finally` of a `try`.
pub open spec fn searched_inner(s: Stmt) -> Seq<Stmt> {
    match s {
        Stmt::BlockStmt(b) => b.statements@,
        Stmt::TryStmt(ts) => ts.try_body.statements@ + catch_body_stmts(ts.catch_clauses@) + match ts.finally_body {
            Some(f) => f.statements@,
            None => seq![],
        },
        Stmt::IfStmt(is) => seq![*is.then_stmt] + match is.else_stmt {
            Some(e) => seq![*e],
            None => seq![],
        },
        Stmt::ForStmt(fs) => seq![*fs.body],
        Stmt::WhileStmt(ws) => seq![*ws.body],
        Stmt::DoStmt(ds) => seq![*ds.body],
        Stmt::SynchronizedStmt(ss) => ss.body.statements@,
        _ => seq![],
    }
}

/// The statement reached from `s` by following `path`, each step an index
/// into [`searched_inner`].
pub open spec fn stmt_at(s: Stmt, path: Seq<int>) -> Option<Stmt>
    decreases path.len(),
{
    if path.len() == 0 {
        Some(s)
    } else if 0 <= path[0] < searched_inner(s).len() {
        stmt_at(searched_inner(s)[path[0]], path.drop_first())
    } else {
        None
    }
}

proof fn lemma_contains_cat(a: Seq<ViolationV>, b: Seq<ViolationV>, x: ViolationV)
    ensures
        (a.contains(x) || b.contains(x)) ==> (a + b).contains(x),
{
    if a.contains(x) {
        let i = choose|i: int| 0 <= i < a.len() && a[i] == x;
        assert((a + b)[i] == x);
    } else if b.contains(x) {
        let i = choose|i: int| 0 <= i < b.len() && b[i] == x;
        assert((a + b)[a.len() + i] == x);
    }
}

proof fn lemma_stmts_contain(file: Seq<char>, ss: Seq<Stmt>, i: int, x: ViolationV)
    requires
        0 <= i < ss.len(),
        catch_stmt(file, ss[i]).contains(x),
    ensures
        catch_stmts(file, ss).contains(x),
    decreases ss.len(),
{
    let d = ss.drop_last();
    if i < d.len() {
        assert(d[i] == ss[i]);
        lemma_stmts_contain(file, d, i, x);
    }
    lemma_contains_cat(catch_stmts(file, d), catch_stmt(file, ss.last()), x);
}

proof fn lemma_clause_bodies_contain(file: Seq<char>, cs: Seq<CatchClause>, i: int, x: ViolationV)
    requires
        0 <= i < catch_body_stmts(cs).len(),
        catch_stmt(file, catch_body_stmts(cs)[i]).contains(x),
    ensures
        catch_clauses(file, cs).contains(x),
    decreases cs.len(),
{
    let d = cs.drop_last();
    let cc = cs.last();
    let p = catch_body_stmts(d);
    if i < p.len() {
        assert(catch_body_stmts(cs)[i] == p[i]);
        lemma_clause_bodies_contain(file, d, i, x);
        lemma_contains_cat(catch_clauses(file, d), if cc.body.statements@.len() == 0 {
            seq![empty_catch_violation(file, cc.line)]
        } else {
            catch_block(file, cc.body)
        }, x);
    } else {
        let k = i - p.len();
        assert(catch_body_stmts(cs)[i] == cc.body.statements@[k]);
        lemma_stmts_contain(file, cc.body.statements@, k, x);
        lemma_contains_cat(catch_clauses(file, d), catch_block(file, cc.body), x);
    }
}

proof fn lemma_clauses_find_empty(file: Seq<char>, cs: Seq<CatchClause>, c: int)
    requires
        0 <= c < cs.len(),
        cs[c].body.statements@.len() == 0,
    ensures
        catch_clauses(file, cs).contains(empty_catch_violation(file, cs[c].line)),
    decreases cs.len(),
{
    let x = empty_catch_violation(file, cs[c].line);
    let d = cs.drop_last();
    let cc = cs.last();
    let tail = if cc.body.statements@.len() == 0 {
        seq![empty_catch_violation(file, cc.line)]
    } else {
        catch_block(file, cc.body)
    };
    if c < d.len() {
        assert(d[c] == cs[c]);
        lemma_clauses_find_empty(file, d, c);
    } else {
        assert(tail[0] == x);
    }
    lemma_contains_cat(catch_clauses(file, d), tail, x);
}

proof fn lemma_inner_contain(file: Seq<char>, s: Stmt, i: int, x: ViolationV)
    requires
        0 <= i < searched_inner(s).len(),
        catch_stmt(file, searched_inner(s)[i]).contains(x),
    ensures
        catch_stmt(file, s).contains(x),
{
    match s {
        Stmt::BlockStmt(b) => {
            assert(searched_inner(s) == b.statements@);
            lemma_stmts_contain(file, b.statements@, i, x);
            assert(catch_block(file, b) == catch_stmts(file, b.statements@));
            assert(catch_stmt(file, s) == catch_block(file, b));
        },
        Stmt::TryStmt(ts) => {
            let a = ts.try_body.statements@;
            let m = catch_body_stmts(ts.catch_clauses@);
            let f = match ts.finally_body {
                Some(fb) => fb.statements@,
                None => seq![],
            };
            let fv = match ts.finally_body {
                Some(fb) => catch_block(file, fb),
                None => seq![],
            };
            let ab = catch_block(file, ts.try_body) + catch_clauses(file, ts.catch_clauses@);
            if i < a.len() {
                assert(searched_inner(s)[i] == a[i]);
                lemma_stmts_contain(file, a, i, x);
                lemma_contains_cat(catch_block(file, ts.try_body), catch_clauses(file, ts.catch_clauses@), x);
            } else if i < a.len() + m.len() {
                assert(searched_inner(s)[i] == m[i - a.len()]);
                lemma_clause_bodies_contain(file, ts.catch_clauses@, i - a.len(), x);
                lemma_contains_cat(catch_block(file, ts.try_body), catch_clauses(file, ts.catch_clauses@), x);
            } else {
                assert(searched_inner(s)[i] == f[i - a.len() - m.len()]);
                match ts.finally_body {
                    Some(fb) => {
                        lemma_stmts_contain(file, fb.statements@, i - a.len() - m.len(), x);
                    },
                    None => {},
                }
            }
            lemma_contains_cat(ab, fv, x);
            assert(catch_stmt(file, s) == ab + fv);
            assert(catch_stmt(file, s).contains(x));
        },
        Stmt::IfStmt(is) => {
            let e = match is.else_stmt {
                Some(e) => catch_stmt(file, *e),
                None => seq![],
            };
            if i == 0 {
                assert(searched_inner(s)[0] == *is.then_stmt);
            } else {
                assert(searched_inner(s)[1] == *is.else_stmt->0);
            }
            lemma_contains_cat(catch_stmt(file, *is.then_stmt), e, x);
            assert(catch_stmt(file, s).contains(x));
        },
        Stmt::ForStmt(fs) => {
            assert(searched_inner(s)[0] == *fs.body);
        },
        Stmt::WhileStmt(ws) => {
            assert(searched_inner(s)[0] == *ws.body);
        },
        Stmt::DoStmt(ds) => {
            assert(searched_inner(s)[0] == *ds.body);
        },
        Stmt::SynchronizedStmt(ss) => {
            lemma_stmts_contain(file, ss.body.statements@, i, x);
            assert(catch_block(file, ss.body) == catch_stmts(file, ss.body.statements@));
            assert(catch_stmt(file, s).contains(x));
        },
        _ => {},
    }
}

/// Every empty catch clause is reported: for any `try` statement reached
/// from `s` through the statements the rule looks into (blocks, branches,
/// loop bodies, `try` parts and `synchronized` bodies, at any depth), each
/// of its catch clauses with an empty body gives the J008 violation at the
/// clause's line among the findings of `s`.
pub proof fn lemma_empty_catch_found(file: Seq<char>, s: Stmt, path: Seq<int>, t: TryStmt, c: int)
    requires
        stmt_at(s, path) == Some(Stmt::TryStmt(t)),
        0 <= c < t.catch_clauses@.len(),
        t.catch_clauses@[c].body.statements@.len() == 0,
    ensures
        catch_stmt(file, s).contains(empty_catch_violation(file, t.catch_clauses@[c].line)),
    decreases path.len(),
{
    let x = empty_catch_violation(file, t.catch_clauses@[c].line);
    if path.len() == 0 {
        lemma_clauses_find_empty(file, t.catch_clauses@, c);
        let ab = catch_block(file, t.try_body) + catch_clauses(file, t.catch_clauses@);
        lemma_contains_cat(catch_block(file, t.try_body), catch_clauses(file, t.catch_clauses@), x);
        lemma_contains_cat(ab, match t.finally_body {
            Some(f) => catch_block(file, f),
            None => seq![],
        }, x);
    } else {
        let i = path[0];
        lemma_empty_catch_found(file, searched_inner(s)[i], path.drop_first(), t, c);
        lemma_inner_contain(file, s, i, x);
    }
}

/// Whether some `try` statement reached from `s` (through
/// [`searched_inner`]) has a catch clause with an empty body at line `l`.
pub open spec fn empty_clause_at(s: Stmt, l: usize) -> bool {
    exists|path: Seq<int>, t: TryStmt, c: int|
        #![trigger stmt_at(s, path), t.catch_clauses@[c]]
        stmt_at(s, path) == Some(Stmt::TryStmt(t)) && 0 <= c < t.catch_clauses@.len()
            && t.catch_clauses@[c].body.statements@.len() == 0 && t.catch_clauses@[c].line == l
}

proof fn lemma_split_cat(a: Seq<ViolationV>, b: Seq<ViolationV>, x: ViolationV)
    ensures
        (a + b).contains(x) ==> a.contains(x) || b.contains(x),
{
    if (a + b).contains(x) {
        let i = choose|i: int| 0 <= i < (a + b).len() && (a + b)[i] == x;
        if i < a.len() {
            assert(a[i] == x);
        } else {
            assert(b[i - a.len()] == x);
        }
    }
}

proof fn lemma_split_stmts(file: Seq<char>, ss: Seq<Stmt>, x: ViolationV)
    requires
        catch_stmts(file, ss).contains(x),
    ensures
        exists|j: int| 0 <= j < ss.len() && #[trigger] catch_stmt(file, ss[j]).contains(x),
    decreases ss.len(),
{
    let d = ss.drop_last();
    lemma_split_cat(catch_stmts(file, d), catch_stmt(file, ss.last()), x);
    if catch_stmts(file, d).contains(x) {
        lemma_split_stmts(file, d, x);
        let j = choose|j: int| 0 <= j < d.len() && #[trigger] catch_stmt(file, d[j]).contains(x);
        assert(ss[j] == d[j]);
    } else {
        assert(catch_stmt(file, ss[ss.len() - 1]).contains(x));
    }
}

proof fn lemma_split_clauses(file: Seq<char>, cs: Seq<CatchClause>, x: ViolationV)
    requires
        catch_clauses(file, cs).contains(x),
    ensures
        exists|c: int|
            0 <= c < cs.len() && ((#[trigger] cs[c].body.statements@.len() == 0 && x
                == empty_catch_violation(file, cs[c].line)) || (cs[c].body.statements@.len() > 0
                && catch_stmts(file, cs[c].body.statements@).contains(x))),
    decreases cs.len(),
{
    let d = cs.drop_last();
    let cc = cs.last();
    let tail = if cc.body.statements@.len() == 0 {
        seq![empty_catch_violation(file, cc.line)]
    } else {
        catch_block(file, cc.body)
    };
    lemma_split_cat(catch_clauses(file, d), tail, x);
    if catch_clauses(file, d).contains(x) {
        lemma_split_clauses(file, d, x);
        let c = choose|c: int|
            0 <= c < d.len() && ((#[trigger] d[c].body.statements@.len() == 0 && x == empty_catch_violation(
                file,
                d[c].line,
            )) || (d[c].body.statements@.len() > 0 && catch_stmts(file, d[c].body.statements@).contains(x)));
        assert(cs[c] == d[c]);
    } else {
        let c = cs.len() - 1;
        assert(cs[c] == cc);
        if cc.body.statements@.len() == 0 {
            let i = choose|i: int| 0 <= i < tail.len() && tail[i] == x;
            assert(tail[i] == empty_catch_violation(file, cc.line));
        }
    }
}

proof fn lemma_body_index(cs: Seq<CatchClause>, c: int, k: int)
    requires
        0 <= c < cs.len(),
        0 <= k < cs[c].body.statements@.len(),
    ensures
        exists|m: int|
            0 <= m < catch_body_stmts(cs).len() && #[trigger] catch_body_stmts(cs)[m]
                == cs[c].body.statements@[k],
    decreases cs.len(),
{
    let d = cs.drop_last();
    let p = catch_body_stmts(d);
    if c < d.len() {
        assert(d[c] == cs[c]);
        lemma_body_index(d, c, k);
        let m = choose|m: int| 0 <= m < p.len() && #[trigger] p[m] == d[c].body.statements@[k];
        assert(catch_body_stmts(cs)[m] == p[m]);
    } else {
        assert(catch_body_stmts(cs)[p.len() + k] == cs.last().body.statements@[k]);
    }
}

proof fn lemma_lift_clause(s: Stmt, i: int, l: usize)
    requires
        0 <= i < searched_inner(s).len(),
        empty_clause_at(searched_inner(s)[i], l),
    ensures
        empty_clause_at(s, l),
{
    let inner = searched_inner(s)[i];
    let (p, t, c) = choose|path: Seq<int>, t: TryStmt, c: int|
        #![trigger stmt_at(inner, path), t.catch_clauses@[c]]
        stmt_at(inner, path) == Some(Stmt::TryStmt(t)) && 0 <= c < t.catch_clauses@.len()
            && t.catch_clauses@[c].body.statements@.len() == 0 && t.catch_clauses@[c].line == l;
    let q = seq![i] + p;
    assert(q[0] == i);
    assert(q.drop_first() == p);
    assert(stmt_at(s, q) == stmt_at(inner, p));
    assert(t.catch_clauses@[c].line == l);
}

/// Every finding of the rule on a statement is that of an empty catch clause:
/// its line is the line of a catch clause with an empty body, in a `try`
/// statement reached from `s` through the statements the rule looks into.
pub proof fn lemma_findings_are_empty_clauses(file: Seq<char>, s: Stmt, x: ViolationV)
    requires
        catch_stmt(file, s).contains(x),
    ensures
        empty_clause_at(s, x.line as usize),
    decreases s,
{
    let l = x.line as usize;
    match s {
        Stmt::BlockStmt(b) => {
            assert(catch_block(file, b) == catch_stmts(file, b.statements@));
            lemma_split_stmts(file, b.statements@, x);
            let j = choose|j: int| 0 <= j < b.statements@.len() && #[trigger] catch_stmt(file, b.statements@[j]).contains(x);
            lemma_findings_are_empty_clauses(file, b.statements@[j], x);
            lemma_lift_clause(s, j, l);
        },
        Stmt::TryStmt(ts) => {
            let a = ts.try_body.statements@;
            let cs = ts.catch_clauses@;
            let m = catch_body_stmts(cs);
            let fv = match ts.finally_body {
                Some(fb) => catch_block(file, fb),
                None => seq![],
            };
            let ab = catch_block(file, ts.try_body) + catch_clauses(file, cs);
            lemma_split_cat(ab, fv, x);
            lemma_split_cat(catch_block(file, ts.try_body), catch_clauses(file, cs), x);
            if catch_block(file, ts.try_body).contains(x) {
                assert(catch_block(file, ts.try_body) == catch_stmts(file, a));
                lemma_split_stmts(file, a, x);
                let j = choose|j: int| 0 <= j < a.len() && #[trigger] catch_stmt(file, a[j]).contains(x);
                lemma_findings_are_empty_clauses(file, a[j], x);
                assert(searched_inner(s)[j] == a[j]);
                lemma_lift_clause(s, j, l);
            } else if catch_clauses(file, cs).contains(x) {
                lemma_split_clauses(file, cs, x);
                let c = choose|c: int|
                    0 <= c < cs.len() && ((#[trigger] cs[c].body.statements@.len() == 0 && x
                        == empty_catch_violation(file, cs[c].line)) || (cs[c].body.statements@.len() > 0
                        && catch_stmts(file, cs[c].body.statements@).contains(x)));
                if cs[c].body.statements@.len() == 0 {
                    let p = Seq::<int>::empty();
                    assert(stmt_at(s, p) == Some(Stmt::TryStmt(ts)));
                    assert(ts.catch_clauses@[c].line == l);
                } else {
                    let body = cs[c].body.statements@;
                    lemma_split_stmts(file, body, x);
                    let j = choose|j: int| 0 <= j < body.len() && #[trigger] catch_stmt(file, body[j]).contains(x);
                    lemma_findings_are_empty_clauses(file, body[j], x);
                    lemma_body_index(cs, c, j);
                    let k = choose|k: int| 0 <= k < m.len() && #[trigger] m[k] == cs[c].body.statements@[j];
                    assert(searched_inner(s)[a.len() + k] == m[k]);
                    lemma_lift_clause(s, a.len() + k, l);
                }
            } else {
                match ts.finally_body {
                    Some(fb) => {
                        let f = fb.statements@;
                        assert(catch_block(file, fb) == catch_stmts(file, f));
                        lemma_split_stmts(file, f, x);
                        let j = choose|j: int| 0 <= j < f.len() && #[trigger] catch_stmt(file, f[j]).contains(x);
                        lemma_findings_are_empty_clauses(file, f[j], x);
                        assert(searched_inner(s)[a.len() + m.len() + j] == f[j]);
                        lemma_lift_clause(s, a.len() + m.len() + j, l);
                    },
                    None => {},
                }
            }
        },
        Stmt::IfStmt(is) => {
            let e = match is.else_stmt {
                Some(e) => catch_stmt(file, *e),
                None => seq![],
            };
            lemma_split_cat(catch_stmt(file, *is.then_stmt), e, x);
            if catch_stmt(file, *is.then_stmt).contains(x) {
                lemma_findings_are_empty_clauses(file, *is.then_stmt, x);
                assert(searched_inner(s)[0] == *is.then_stmt);
                lemma_lift_clause(s, 0, l);
            } else {
                match is.else_stmt {
                    Some(es) => {
                        lemma_findings_are_empty_clauses(file, *es, x);
                        assert(searched_inner(s)[1] == *es);
                        lemma_lift_clause(s, 1, l);
                    },
                    None => {},
                }
            }
        },
        Stmt::ForStmt(fs) => {
            lemma_findings_are_empty_clauses(file, *fs.body, x);
            assert(searched_inner(s)[0] == *fs.body);
            lemma_lift_clause(s, 0, l);
        },
        Stmt::WhileStmt(ws) => {
            lemma_findings_are_empty_clauses(file, *ws.body, x);
            assert(searched_inner(s)[0] == *ws.body);
            lemma_lift_clause(s, 0, l);
        },
        Stmt::DoStmt(ds) => {
            lemma_findings_are_empty_clauses(file, *ds.body, x);
            assert(searched_inner(s)[0] == *ds.body);
            lemma_lift_clause(s, 0, l);
        },
        Stmt::SynchronizedStmt(sy) => {
            assert(catch_block(file, sy.body) == catch_stmts(file, sy.body.statements@));
            lemma_split_stmts(file, sy.body.statements@, x);
            let j = choose|j: int|
                0 <= j < sy.body.statements@.len() && #[trigger] catch_stmt(file, sy.body.statements@[j]).contains(x);
            lemma_findings_are_empty_clauses(file, sy.body.statements@[j], x);
            lemma_lift_clause(s, j, l);
        },
        _ => {},
    }
}

fn push_violation(out: &mut Vec<Violation>, v: Violation)
    ensures
        views(final(out)@) == views(old(out)@).push(v@),
{
    out.push(v);
    assert(views(out@) =~= views(old(out)@).push(v@));
}

fn check_block(b: &BlockStmt, file: &str, out: &mut Vec<Violation>)
    ensures
        views(final(out)@) == views(old(out)@) + catch_block(file@, *b),
    decreases b, 0nat,
{
    let ghost v0 = views(out@);
    let mut i: usize = 0;
    assert(b.statements@.take(0) == Seq::<Stmt>::empty());
    assert(views(out@) == v0 + Seq::<ViolationV>::empty());
    while i < b.statements.len()
        invariant
            i <= b.statements.len(),
            views(out@) == v0 + catch_stmts(file@, b.statements@.take(i as int)),
        decreases b.statements.len() - i,
    {
        proof {
            assert(decreases_to!(*b => b.statements));
            assert(decreases_to!(b.statements => b.statements@));
            assert(decreases_to!(b.statements@ => b.statements@[i as int]));
        }
        check_stmt(&b.statements[i], file, out);
        proof {
            let t = b.statements@.take(i + 1);
            assert(t.drop_last() == b.statements@.take(i as int));
            assert(t.last() == b.statements@[i as int]);
            lemma_add3(v0, catch_stmts(file@, b.statements@.take(i as int)), catch_stmt(file@, b.statements@[i as int]));
        }
        i += 1;
    }
    assert(b.statements@.take(i as int) == b.statements@);
}

fn check_stmt(s: &Stmt, file: &str, out: &mut Vec<Violation>)
    ensures
        views(final(out)@) == views(old(out)@) + catch_stmt(file@, *s),
    decreases s, 0nat,
{
    let ghost v0 = views(out@);
    match s {
        Stmt::TryStmt(ts) => {
            check_block(&ts.try_body, file, out);
            let ghost v1 = views(out@);
            let mut i: usize = 0;
            assert(ts.catch_clauses@.take(0) == Seq::<CatchClause>::empty());
            assert(views(out@) == v1 + Seq::<ViolationV>::empty());
            while i < ts.catch_clauses.len()
                invariant
                    i <= ts.catch_clauses.len(),
                    *s == Stmt::TryStmt(*ts),
                    views(out@) == v1 + catch_clauses(file@, ts.catch_clauses@.take(i as int)),
                decreases ts.catch_clauses.len() - i,
            {
                let cc = &ts.catch_clauses[i];
                let ghost a = views(out@);
                if cc.body.statements.len() == 0 {
                    let v = Violation::new(
                        "J008",
                        Severity::Major,
                        file,
                        cc.line,
                        "empty catch block: exception is silently swallowed",
                    );
                    push_violation(out, v);
                    assert(views(out@) == a + seq![empty_catch_violation(file@, cc.line)]);
                } else {
                    proof {
                        assert(decreases_to!(*s => (*s)->TryStmt_0));
                        assert(decreases_to!(*ts => ts.catch_clauses));
                        assert(decreases_to!(ts.catch_clauses => ts.catch_clauses@));
                        assert(decreases_to!(ts.catch_clauses@ => ts.catch_clauses@[i as int]));
                        assert(decreases_to!(ts.catch_clauses@[i as int] => ts.catch_clauses@[i as int].body));
                    }
                    check_block(&cc.body, file, out);
                }
                proof {
                    let t = ts.catch_clauses@.take(i + 1);
                    assert(t.drop_last() == ts.catch_clauses@.take(i as int));
                    assert(t.last() == ts.catch_clauses@[i as int]);
                    let piece = if cc.body.statements@.len() == 0 {
                        seq![empty_catch_violation(file@, cc.line)]
                    } else {
                        catch_block(file@, cc.body)
                    };
                    lemma_add3(v1, catch_clauses(file@, ts.catch_clauses@.take(i as int)), piece);
                }
                i += 1;
            }
            assert(ts.catch_clauses@.take(i as int) == ts.catch_clauses@);
            proof {
                lemma_add3(v0, catch_block(file@, ts.try_body), catch_clauses(file@, ts.catch_clauses@));
            }
            let ghost a = catch_block(file@, ts.try_body) + catch_clauses(file@, ts.catch_clauses@);
            match &ts.finally_body {
                Some(f) => {
                    check_block(f, file, out);
                    proof {
                        lemma_add3(v0, a, catch_block(file@, *f));
                    }
                },
                None => {
                    assert(a + Seq::<ViolationV>::empty() == a);
                },
            }
        },
        Stmt::BlockStmt(b) => check_block(b, file, out),
        Stmt::IfStmt(is) => {
            check_stmt(&is.then_stmt, file, out);
            match &is.else_stmt {
                Some(e) => {
                    check_stmt(e, file, out);
                    proof {
                        lemma_add3(v0, catch_stmt(file@, *is.then_stmt), catch_stmt(file@, **e));
                    }
                },
                None => {
                    assert(catch_stmt(file@, *is.then_stmt) + Seq::<ViolationV>::empty() == catch_stmt(
                        file@,
                        *is.then_stmt,
                    ));
                },
            }
        },
        Stmt::ForStmt(fs) => check_stmt(&fs.body, file, out),
        Stmt::WhileStmt(ws) => check_stmt(&ws.body, file, out),
        Stmt::DoStmt(ds) => check_stmt(&ds.body, file, out),
        Stmt::SynchronizedStmt(ss) => check_block(&ss.body, file, out),
        _ => {
            assert(views(out@) == v0 + Seq::<ViolationV>::empty());
        },
    }
}

fn check_members(ms: &Vec<MemberDecl>, file: &str, out: &mut Vec<Violation>)
    ensures
        views(final(out)@) == views(old(out)@) + catch_members(file@, ms@),
    decreases ms,
{
    let ghost v0 = views(out@);
    let mut i: usize = 0;
    assert(ms@.take(0) == Seq::<MemberDecl>::empty());
    assert(views(out@) == v0 + Seq::<ViolationV>::empty());
    while i < ms.len()
        invariant
            i <= ms.len(),
            views(out@) == v0 + catch_members(file@, ms@.take(i as int)),
        decreases ms.len() - i,
    {
        let ghost a = views(out@);
        proof {
            assert(decreases_to!(*ms => ms@));
            assert(decreases_to!(ms@ => ms@[i as int]));
        }
        match &ms[i] {
            MemberDecl::MethodDeclaration(md) => match &md.body {
                Some(b) => check_block(b, file, out),
                None => {
                    assert(views(out@) == a + Seq::<ViolationV>::empty());
                },
            },
            MemberDecl::ConstructorDeclaration(cd) => match &cd.body {
                Some(b) => check_block(b, file, out),
                None => {
                    assert(views(out@) == a + Seq::<ViolationV>::empty());
                },
            },
            MemberDecl::ClassDeclaration(c) => {
                proof {
                    assert(decreases_to!(ms@[i as int] => (ms@[i as int])->ClassDeclaration_0));
                    assert(decreases_to!(*c => c.members));
                }
                check_members(&c.members, file, out);
            },
            MemberDecl::InterfaceDeclaration(c) => {
                proof {
                    assert(decreases_to!(ms@[i as int] => (ms@[i as int])->InterfaceDeclaration_0));
                    assert(decreases_to!(*c => c.members));
                }
                check_members(&c.members, file, out);
            },
            MemberDecl::EnumDeclaration(c) => {
                proof {
                    assert(decreases_to!(ms@[i as int] => (ms@[i as int])->EnumDeclaration_0));
                    assert(decreases_to!(*c => c.members));
                }
                check_members(&c.members, file, out);
            },
            MemberDecl::AnnotationDeclaration(c) => {
                proof {
                    assert(decreases_to!(ms@[i as int] => (ms@[i as int])->AnnotationDeclaration_0));
                    assert(decreases_to!(*c => c.members));
                }
                check_members(&c.members, file, out);
            },
            _ => {
                assert(views(out@) == a + Seq::<ViolationV>::empty());
            },
        }
        proof {
            let t = ms@.take(i + 1);
            assert(t.drop_last() == ms@.take(i as int));
            assert(t.last() == ms@[i as int]);
            lemma_add3(v0, catch_members(file@, ms@.take(i as int)), catch_member(file@, ms@[i as int]));
        }
        i += 1;
    }
    assert(ms@.take(i as int) == ms@);
}

/// Rule J008: reports each catch clause whose body is empty.
pub struct EmptyCatchRule {
    id: RuleId,
}

impl EmptyCatchRule {
    /// The rule, with id `J008`.
    pub fn new() -> (r: Self)
        ensures
            r.id_spec() == "J008"@,
    {
        EmptyCatchRule { id: RuleId(String::from_str("J008")) }
    }

    /// The id it reports under.
    pub closed spec fn id_spec(&self) -> Seq<char> {
        self.id.0@
    }
}

impl Default for EmptyCatchRule {
    fn default() -> (r: Self)
        ensures
            r.id_spec() == "J008"@,
    {
        EmptyCatchRule::new()
    }
}

impl Rule<CompilationUnit> for EmptyCatchRule {
    fn id(&self) -> (r: &RuleId)
        ensures
            r.0@ == self.id_spec(),
    {
        &self.id
    }

    fn description(&self) -> (r: &str)
        ensures
            r@ == "Empty catch block silently swallows exceptions"@,
    {
        "Empty catch block silently swallows exceptions"
    }

    fn severity(&self) -> (r: Severity)
        ensures
            r == Severity::Major,
    {
        Severity::Major
    }

    fn check_unit(&self, unit: &CompilationUnit) -> (r: Vec<Violation>)
        ensures
            views(r@) == catch_types(unit.source_file@, unit.types@),
    {
        let mut out: Vec<Violation> = Vec::new();
        let file = unit.source_file.as_str();
        let mut i: usize = 0;
        assert(unit.types@.take(0) == Seq::<TypeDecl>::empty());
        assert(views(out@) == Seq::<ViolationV>::empty());
        while i < unit.types.len()
            invariant
                i <= unit.types.len(),
                file@ == unit.source_file@,
                views(out@) == catch_types(file@, unit.types@.take(i as int)),
            decreases unit.types.len() - i,
        {
            let ms = crate::matcher::members_of(&unit.types[i]);
            check_members(ms, file, &mut out);
            proof {
                let t = unit.types@.take(i + 1);
                assert(t.drop_last() == unit.types@.take(i as int));
                assert(t.last() == unit.types@[i as int]);
            }
            i += 1;
        }
        assert(unit.types@.take(i as int) == unit.types@);
        out
    }
}

} // verus!
