//! The pattern matcher: walks a compilation unit and reports the nodes a
//! pattern matches, with the rule's message rendered for each.

use vstd::prelude::*;
use crate::text::{
    chars_of, contains_seq, ends_with, find_sub, has_prefix, has_suffix, replace_all,
    replace_chars, starts_with, str_eq, string_of,
};
use crate::ast::{
    Annotation, BlockStmt, CatchClause, ClassDecl, CompilationUnit, Expr, FieldDecl, ImportDecl,
    MemberDecl, MethodCallExpr, MethodDecl, Stmt, SwitchCase, TypeDecl, VarDeclarator,
};
use crate::rule::{views, Severity, Violation, ViolationV};
use crate::text::{decimal, usize_to_string};
use crate::yaml_rule::{
    field_views, match_value_text, string_views, MatchValue, MatchValueV, Pattern, PatternKind,
};

verus! {

broadcast use vstd::string::group_string_axioms;

#[verifier::external_type_specification]
#[verifier::external_body]
pub struct ExRegex(regex::Regex);

/// Whether `regex::Regex::new` accepts `pattern`.
pub uninterp spec fn regex_compiles(pattern: Seq<char>) -> bool;

/// Whether the regular expression `pattern` matches somewhere in `text`,
/// as `regex::Regex::is_match` decides it.
pub uninterp spec fn regex_finds(pattern: Seq<char>, text: Seq<char>) -> bool;

/// A compiled regular expression, with the pattern it was compiled from.
struct CompiledRegex {
    re: regex::Regex,
    source: Ghost<Seq<char>>,
}

impl View for CompiledRegex {
    type V = Seq<char>;

    closed spec fn view(&self) -> Seq<char> {
        self.source@
    }
}

/// Compiles `pattern`.
///
/// Trusted: calls `regex::Regex::new`. The contract claims only that the
/// call succeeds exactly where `regex_compiles` holds (a function of the
/// pattern alone: its syntax and the default size limit) and that the
/// result remembers the pattern it came from.
#[verifier::external_body]
fn compile_regex(pattern: &str) -> (r: Option<CompiledRegex>)
    ensures
        r is Some <==> regex_compiles(pattern@),
        r matches Some(c) ==> c@ == pattern@,
{
    match regex::Regex::new(pattern) {
        Ok(re) => Some(CompiledRegex { re, source: Ghost(pattern@) }),
        Err(_) => None,
    }
}

/// Whether the compiled expression matches somewhere in `text`.
///
/// Trusted: calls `regex::Regex::is_match`; its result is named
/// `regex_finds` of the pattern the expression was compiled from and the
/// text.
#[verifier::external_body]
fn regex_is_match(c: &CompiledRegex, text: &str) -> (r: bool)
    ensures
        r == regex_finds(c@, text@),
{
    c.re.is_match(text)
}

/// Whether a pattern is read as a regular expression: it is anchored, or
/// holds `[`, `+`, `|` or a backslash.
pub open spec fn regex_like(p: Seq<char>) -> bool {
    has_prefix(p, seq!['^']) || has_suffix(p, seq!['$']) || contains_seq(p, seq!['['])
        || contains_seq(p, seq!['+']) || contains_seq(p, seq!['|']) || contains_seq(p, seq!['\\'])
}

/// The regular expression a glob pattern stands for: dots escaped, each `*`
/// any run of characters, anchored at both ends.
pub open spec fn glob_regex(p: Seq<char>) -> Seq<char> {
    seq!['^'] + replace_all(replace_all(p, seq!['.'], seq!['\\', '.']), seq!['*'], seq!['.', '*'])
        + seq!['$']
}

/// Glob matching: `*` alone matches anything; a pattern without `*` must
/// equal the text; otherwise the pattern's regular expression decides (or
/// equality, where it does not compile).
pub open spec fn glob_spec(p: Seq<char>, t: Seq<char>) -> bool {
    if p == seq!['*'] {
        true
    } else if !contains_seq(p, seq!['*']) {
        p == t
    } else if regex_compiles(glob_regex(p)) {
        regex_finds(glob_regex(p), t)
    } else {
        p == t
    }
}

/// How one expected value matches a text: `*` matches anything; a
/// regular-expression-like pattern that compiles is searched in the text;
/// anything else is matched as a glob.
pub open spec fn pattern_matches(p: Seq<char>, t: Seq<char>) -> bool {
    if p == seq!['*'] {
        true
    } else if regex_like(p) && regex_compiles(p) {
        regex_finds(p, t)
    } else {
        glob_spec(p, t)
    }
}

/// Whether an expected value matches a text: a single value by
/// [`pattern_matches`], alternatives when any of them does.
pub open spec fn value_matches_spec(v: MatchValueV, t: Seq<char>) -> bool {
    match v {
        MatchValueV::Single(p) => pattern_matches(p, t),
        MatchValueV::Any(ps) => any_pattern_matches(ps, t),
    }
}

/// Whether one of the patterns `ps` matches `t`.
pub open spec fn any_pattern_matches(ps: Seq<Seq<char>>, t: Seq<char>) -> bool {
    exists|i: int| 0 <= i < ps.len() && pattern_matches(#[trigger] ps[i], t)
}

fn has_char(s: &[char], c: char) -> (r: bool)
    ensures
        r == contains_seq(s@, seq![c]),
{
    let v: Vec<char> = vec![c];
    assert(v@ == seq![c]);
    find_sub(s, v.as_slice(), 0).is_some()
}

/// Glob matching of `text` against `pattern`.
pub fn glob_match(pattern: &str, text: &str) -> (r: bool)
    ensures
        r == glob_spec(pattern@, text@),
{
    proof {
        reveal_strlit("*");
        assert("*"@ =~= seq!['*']);
    }
    if str_eq(pattern, "*") {
        return true;
    }
    let p = chars_of(pattern);
    if !has_char(p.as_slice(), '*') {
        return str_eq(pattern, text);
    }
    let dot: Vec<char> = vec!['.'];
    let esc: Vec<char> = vec!['\\', '.'];
    let star: Vec<char> = vec!['*'];
    let any: Vec<char> = vec!['.', '*'];
    assert(dot@ == seq!['.'] && esc@ == seq!['\\', '.'] && star@ == seq!['*'] && any@ == seq!['.', '*']);
    let a = replace_chars(p.as_slice(), dot.as_slice(), esc.as_slice());
    let b = replace_chars(a.as_slice(), star.as_slice(), any.as_slice());
    let mut re: Vec<char> = Vec::new();
    re.push('^');
    let mut i: usize = 0;
    while i < b.len()
        invariant
            i <= b.len(),
            re@ == seq!['^'] + b@.take(i as int),
        decreases b.len() - i,
    {
        re.push(b[i]);
        assert(b@.take(i + 1) == b@.take(i as int).push(b@[i as int]));
        i += 1;
    }
    re.push('$');
    assert(b@.take(i as int) == b@);
    assert(re@ == glob_regex(pattern@));
    let rs = string_of(re.as_slice());
    match compile_regex(rs.as_str()) {
        Some(c) => regex_is_match(&c, text),
        None => str_eq(pattern, text),
    }
}

/// Matching of `text` against one expected value.
pub fn regex_match(pattern: &str, text: &str) -> (r: bool)
    ensures
        r == pattern_matches(pattern@, text@),
{
    proof {
        reveal_strlit("*");
        assert("*"@ =~= seq!['*']);
    }
    if str_eq(pattern, "*") {
        return true;
    }
    let p = chars_of(pattern);
    let caret: Vec<char> = vec!['^'];
    let dollar: Vec<char> = vec!['$'];
    assert(caret@ == seq!['^'] && dollar@ == seq!['$']);
    if starts_with(p.as_slice(), caret.as_slice()) || ends_with(p.as_slice(), dollar.as_slice())
        || has_char(p.as_slice(), '[') || has_char(p.as_slice(), '+') || has_char(p.as_slice(), '|')
        || has_char(p.as_slice(), '\\') {
        match compile_regex(pattern) {
            Some(c) => {
                return regex_is_match(&c, text);
            },
            None => {},
        }
    }
    glob_match(pattern, text)
}

/// Whether an expected value matches a text.
pub fn value_matches(v: &MatchValue, text: &str) -> (r: bool)
    ensures
        r == value_matches_spec(v@, text@),
{
    match v {
        MatchValue::Single(s) => regex_match(s.as_str(), text),
        MatchValue::Any(list) => {
            let mut i: usize = 0;
            while i < list.len()
                invariant
                    i <= list.len(),
                    v@ == MatchValueV::Any(string_views(list@)),
                    forall|m: int| 0 <= m < i ==> !pattern_matches(#[trigger] string_views(list@)[m], text@),
                decreases list.len() - i,
            {
                assert(string_views(list@)[i as int] == list@[i as int]@);
                if regex_match(list[i].as_str(), text) {
                    let ghost ps = string_views(list@);
                    assert(0 <= i < ps.len() && pattern_matches(ps[i as int], text@));
                    assert(any_pattern_matches(ps, text@));
                    return true;
                }
                i += 1;
            }
            false
        },
    }
}

/// The abstract value of a rendering context.
pub open spec fn ctx_views(ctx: Seq<(&str, String)>) -> Seq<(Seq<char>, Seq<char>)> {
    ctx.map_values(|e: (&str, String)| (e.0@, e.1@))
}

/// `t` with each placeholder `{key}` of the context replaced by its value,
/// the context's entries applied in order.
pub open spec fn render_spec(t: Seq<char>, ctx: Seq<(Seq<char>, Seq<char>)>) -> Seq<char>
    decreases ctx.len(),
{
    if ctx.len() == 0 {
        t
    } else {
        render_spec(replace_all(t, seq!['{'] + ctx[0].0 + seq!['}'], ctx[0].1), ctx.drop_first())
    }
}

/// Fills the placeholders `{key}` of a message template; placeholders the
/// context does not name stay as they are.
pub fn render_message(template: &str, ctx: &[(&str, String)]) -> (r: String)
    ensures
        r@ == render_spec(template@, ctx_views(ctx@)),
{
    let ghost cv = ctx_views(ctx@);
    let mut out = chars_of(template);
    let mut i: usize = 0;
    assert(cv.skip(0) == cv);
    while i < ctx.len()
        invariant
            i <= ctx.len(),
            cv == ctx_views(ctx@),
            render_spec(template@, cv) == render_spec(out@, cv.skip(i as int)),
        decreases ctx.len() - i,
    {
        let k = chars_of(ctx[i].0);
        let mut ph: Vec<char> = Vec::new();
        ph.push('{');
        let mut j: usize = 0;
        while j < k.len()
            invariant
                j <= k.len(),
                ph@ == seq!['{'] + k@.take(j as int),
            decreases k.len() - j,
        {
            ph.push(k[j]);
            assert(k@.take(j + 1) == k@.take(j as int).push(k@[j as int]));
            j += 1;
        }
        ph.push('}');
        assert(k@.take(j as int) == k@);
        assert(cv[i as int] == (ctx@[i as int].0@, ctx@[i as int].1@));
        assert(ph@ == seq!['{'] + cv[i as int].0 + seq!['}']);
        let v = chars_of(ctx[i].1.as_str());
        out = replace_chars(out.as_slice(), ph.as_slice(), v.as_slice());
        assert(cv.skip(i as int).drop_first() == cv.skip(i + 1));
        assert(cv.skip(i as int)[0] == cv[i as int]);
        i += 1;
    }
    assert(cv.skip(i as int).len() == 0);
    string_of(out.as_slice())
}

/// A rendering context: `(placeholder name, value)` pairs.
pub type CtxV = Seq<(Seq<char>, Seq<char>)>;

/// The field conditions of a pattern.
pub type FieldsV = Seq<(Seq<char>, MatchValueV)>;

/// The text of an optional string (empty where there is none).
pub open spec fn opt_text(o: Option<String>) -> Seq<char> {
    match o {
        Some(s) => s@,
        None => seq![],
    }
}

/// The strings `parts` joined by `", "`.
pub open spec fn join_comma(parts: Seq<Seq<char>>) -> Seq<char>
    decreases parts.len(),
{
    if parts.len() == 0 {
        seq![]
    } else if parts.len() == 1 {
        parts[0]
    } else {
        join_comma(parts.drop_last()) + ", "@ + parts.last()
    }
}

/// Whether an expected value matches one of the modifiers.
pub open spec fn any_modifier_matches(v: MatchValueV, mods: Seq<Seq<char>>) -> bool {
    exists|i: int| 0 <= i < mods.len() && value_matches_spec(v, #[trigger] mods[i])
}

/// The checked fields of a method call; `None` where one does not match,
/// else the context of the fields it matched.
pub open spec fn call_fields(mc: MethodCallExpr, fs: FieldsV, ctx: CtxV) -> Option<CtxV>
    decreases fs.len(),
{
    if fs.len() == 0 {
        Some(ctx)
    } else {
        let key = fs[0].0;
        let v = fs[0].1;
        let rest = fs.drop_first();
        if key == "callee"@ {
            if value_matches_spec(v, opt_text(mc.callee)) {
                call_fields(mc, rest, ctx.push(("callee"@, opt_text(mc.callee))))
            } else {
                None
            }
        } else if key == "method"@ || key == "method_name"@ {
            if value_matches_spec(v, mc.method_name@) {
                call_fields(mc, rest, ctx.push(("method"@, mc.method_name@)))
            } else {
                None
            }
        } else {
            call_fields(mc, rest, ctx)
        }
    }
}

/// Whether `s` is `true` with any letters in either case.
pub open spec fn is_true_ignoring_case(s: Seq<char>) -> bool {
    s.len() == 4 && forall|i: int| 0 <= i < 4 ==> (#[trigger] s[i] == "true"@[i] || s[i] == "TRUE"@[i])
}

/// The flag value a boolean field asks for: its text is `true` in any
/// ASCII case.
pub open spec fn wanted_flag(v: MatchValueV) -> bool {
    match match_value_text(v) {
        Some(s) => is_true_ignoring_case(s),
        None => false,
    }
}

/// The checked fields of an import; `None` where one does not match.
pub open spec fn import_fields(imp: ImportDecl, fs: FieldsV, ctx: CtxV) -> Option<CtxV>
    decreases fs.len(),
{
    if fs.len() == 0 {
        Some(ctx)
    } else {
        let key = fs[0].0;
        let v = fs[0].1;
        let rest = fs.drop_first();
        if key == "package"@ {
            if value_matches_spec(v, imp.package@) {
                import_fields(imp, rest, ctx.push(("package"@, imp.package@)))
            } else {
                None
            }
        } else if key == "is_wildcard"@ {
            if imp.is_wildcard == wanted_flag(v) {
                import_fields(imp, rest, ctx)
            } else {
                None
            }
        } else if key == "is_static"@ {
            if imp.is_static == wanted_flag(v) {
                import_fields(imp, rest, ctx)
            } else {
                None
            }
        } else {
            import_fields(imp, rest, ctx)
        }
    }
}

/// The checked fields of an annotation; `None` where one does not match.
pub open spec fn annotation_fields(name: Seq<char>, fs: FieldsV, ctx: CtxV) -> Option<CtxV>
    decreases fs.len(),
{
    if fs.len() == 0 {
        Some(ctx)
    } else {
        let key = fs[0].0;
        let v = fs[0].1;
        let rest = fs.drop_first();
        if key == "name"@ || key == "type"@ {
            if value_matches_spec(v, name) {
                annotation_fields(name, rest, ctx.push(("name"@, name)))
            } else {
                None
            }
        } else {
            annotation_fields(name, rest, ctx)
        }
    }
}

/// What the field checks of a declaration read: its name, an optional
/// typed field (label, accepted key, other accepted key, text) and its
/// modifiers.
pub struct DeclInfo {
    pub name: Seq<char>,
    pub typed: Option<(Seq<char>, Seq<char>, Seq<char>)>,
    pub modifiers: Seq<Seq<char>>,
}

/// Whether `key` names the typed field of a declaration.
pub open spec fn is_typed_key(d: DeclInfo, key: Seq<char>) -> bool {
    match d.typed {
        Some(t) => key == t.0 || key == t.1,
        None => false,
    }
}

/// The checked fields of a declaration; `None` where one does not match.
pub open spec fn decl_fields(d: DeclInfo, fs: FieldsV, ctx: CtxV) -> Option<CtxV>
    decreases fs.len(),
{
    if fs.len() == 0 {
        Some(ctx)
    } else {
        let key = fs[0].0;
        let v = fs[0].1;
        let rest = fs.drop_first();
        if key == "name"@ {
            if value_matches_spec(v, d.name) {
                decl_fields(d, rest, ctx.push(("name"@, d.name)))
            } else {
                None
            }
        } else if is_typed_key(d, key) {
            let t = d.typed->0;
            if value_matches_spec(v, t.2) {
                decl_fields(d, rest, ctx.push((t.0, t.2)))
            } else {
                None
            }
        } else if key == "modifier"@ || key == "modifiers"@ {
            if any_modifier_matches(v, d.modifiers) {
                decl_fields(d, rest, ctx.push(("modifier"@, join_comma(d.modifiers))))
            } else {
                None
            }
        } else {
            decl_fields(d, rest, ctx)
        }
    }
}

/// What the field checks of a class read.
pub open spec fn class_info(cd: ClassDecl) -> DeclInfo {
    DeclInfo { name: cd.name@, typed: None, modifiers: string_views(cd.modifiers@) }
}

/// The context a class match starts from.
pub open spec fn class_ctx(cd: ClassDecl) -> CtxV {
    seq![("name"@, cd.name@), ("modifier"@, join_comma(string_views(cd.modifiers@)))]
}

/// What the field checks of a method read.
pub open spec fn method_info(md: MethodDecl) -> DeclInfo {
    DeclInfo {
        name: md.name@,
        typed: Some(("return_type"@, "return_type"@, opt_text(md.return_type))),
        modifiers: string_views(md.modifiers@),
    }
}

/// The context a method match starts from.
pub open spec fn method_ctx(md: MethodDecl) -> CtxV {
    seq![
        ("name"@, md.name@),
        ("return_type"@, opt_text(md.return_type)),
        ("modifier"@, join_comma(string_views(md.modifiers@))),
    ]
}

/// What the field checks of a field declaration read.
pub open spec fn field_info(fd: FieldDecl) -> DeclInfo {
    DeclInfo {
        name: fd.name@,
        typed: Some(("field_type"@, "type"@, opt_text(fd.field_type))),
        modifiers: string_views(fd.modifiers@),
    }
}

/// The context a field match starts from.
pub open spec fn field_ctx(fd: FieldDecl) -> CtxV {
    seq![
        ("name"@, fd.name@),
        ("field_type"@, opt_text(fd.field_type)),
        ("modifier"@, join_comma(string_views(fd.modifiers@))),
    ]
}

pub fn join_modifiers(mods: &Vec<String>) -> (r: String)
    ensures
        r@ == join_comma(string_views(mods@)),
{
    let ghost ms = string_views(mods@);
    let mut out = String::new();
    let mut i: usize = 0;
    assert(ms.take(0) == Seq::<Seq<char>>::empty());
    while i < mods.len()
        invariant
            i <= mods.len(),
            ms == string_views(mods@),
            out@ == join_comma(ms.take(i as int)),
        decreases mods.len() - i,
    {
        assert(ms.take(i + 1).drop_last() == ms.take(i as int));
        assert(ms.take(i + 1).last() == mods@[i as int]@);
        if i > 0 {
            crate::text::append_str(&mut out, ", ");
            crate::text::append_str(&mut out, mods[i].as_str());
        } else {
            crate::text::append_str(&mut out, mods[i].as_str());
            assert(ms.take(1) =~= seq![mods@[0]@]);
        }
        i += 1;
    }
    assert(ms.take(i as int) == ms);
    out
}

fn modifier_matches(v: &MatchValue, mods: &Vec<String>) -> (r: bool)
    ensures
        r == any_modifier_matches(v@, string_views(mods@)),
{
    let mut i: usize = 0;
    while i < mods.len()
        invariant
            i <= mods.len(),
            forall|m: int| 0 <= m < i ==> !value_matches_spec(v@, #[trigger] string_views(mods@)[m]),
        decreases mods.len() - i,
    {
        assert(string_views(mods@)[i as int] == mods@[i as int]@);
        if value_matches(v, mods[i].as_str()) {
            return true;
        }
        i += 1;
    }
    false
}

fn is_true_word(s: &str) -> (r: bool)
    ensures
        r == is_true_ignoring_case(s@),
{
    let cs = chars_of(s);
    let lower: Vec<char> = vec!['t', 'r', 'u', 'e'];
    let upper: Vec<char> = vec!['T', 'R', 'U', 'E'];
    proof {
        reveal_strlit("true");
        reveal_strlit("TRUE");
    }
    assert(lower@ =~= "true"@ && upper@ =~= "TRUE"@);
    if cs.len() != 4 {
        return false;
    }
    let mut i: usize = 0;
    while i < 4
        invariant
            i <= 4,
            cs@ == s@,
            cs.len() == 4 && lower.len() == 4 && upper.len() == 4,
            lower@ =~= "true"@ && upper@ =~= "TRUE"@,
            forall|m: int| 0 <= m < i ==> (#[trigger] cs@[m] == lower@[m] || cs@[m] == upper@[m]),
        decreases 4 - i,
    {
        if cs[i] != lower[i] && cs[i] != upper[i] {
            return false;
        }
        i += 1;
    }
    true
}

fn flag_wanted(v: &MatchValue) -> (r: bool)
    ensures
        r == wanted_flag(v@),
{
    match v.as_str() {
        Some(s) => is_true_word(s),
        None => false,
    }
}

/// The abstract value of an optional context.
pub open spec fn opt_ctx_view(o: Option<Vec<(&str, String)>>) -> Option<CtxV> {
    match o {
        Some(c) => Some(ctx_views(c@)),
        None => None,
    }
}

proof fn lemma_ctx_push(ctx: Seq<(&str, String)>, e: (&str, String))
    ensures
        ctx_views(ctx.push(e)) == ctx_views(ctx).push((e.0@, e.1@)),
{
    assert(ctx_views(ctx.push(e)) =~= ctx_views(ctx).push((e.0@, e.1@)));
}

proof fn lemma_fields_step(fs: Seq<(String, MatchValue)>, i: int)
    requires
        0 <= i < fs.len(),
    ensures
        field_views(fs).skip(i)[0] == (fs[i].0@, fs[i].1@),
        field_views(fs).skip(i).drop_first() == field_views(fs).skip(i + 1),
        field_views(fs).skip(i).len() > 0,
{
    assert(field_views(fs).skip(i).drop_first() =~= field_views(fs).skip(i + 1));
}

fn opt_string(o: &Option<String>) -> (r: String)
    ensures
        r@ == opt_text(*o),
{
    match o {
        Some(s) => s.clone(),
        None => String::new(),
    }
}

/// Checks the fields of a method call.
fn match_fields_method_call(mc: &MethodCallExpr, fields: &[(String, MatchValue)]) -> (r: Option<
    Vec<(&'static str, String)>,
>)
    ensures
        opt_ctx_view(r) == call_fields(*mc, field_views(fields@), seq![]),
{
    let ghost fs = field_views(fields@);
    let mut ctx: Vec<(&'static str, String)> = Vec::new();
    let mut i: usize = 0;
    assert(fs.skip(0) == fs);
    assert(ctx_views(ctx@) == Seq::<(Seq<char>, Seq<char>)>::empty());
    while i < fields.len()
        invariant
            i <= fields.len(),
            fs == field_views(fields@),
            call_fields(*mc, fs, seq![]) == call_fields(*mc, fs.skip(i as int), ctx_views(ctx@)),
        decreases fields.len() - i,
    {
        proof {
            lemma_fields_step(fields@, i as int);
        }
        let key = fields[i].0.as_str();
        let v = &fields[i].1;
        if str_eq(key, "callee") {
            let actual = opt_string(&mc.callee);
            if !value_matches(v, actual.as_str()) {
                return None;
            }
            proof {
                lemma_ctx_push(ctx@, ("callee", actual));
            }
            ctx.push(("callee", actual));
        } else if str_eq(key, "method") || str_eq(key, "method_name") {
            let actual = mc.method_name.clone();
            if !value_matches(v, actual.as_str()) {
                return None;
            }
            proof {
                lemma_ctx_push(ctx@, ("method", actual));
            }
            ctx.push(("method", actual));
        }
        i += 1;
    }
    assert(fs.skip(i as int).len() == 0);
    Some(ctx)
}

/// Checks the fields of an import.
fn match_fields_import(imp: &ImportDecl, fields: &[(String, MatchValue)]) -> (r: Option<
    Vec<(&'static str, String)>,
>)
    ensures
        opt_ctx_view(r) == import_fields(*imp, field_views(fields@), seq![]),
{
    let ghost fs = field_views(fields@);
    let mut ctx: Vec<(&'static str, String)> = Vec::new();
    let mut i: usize = 0;
    assert(fs.skip(0) == fs);
    assert(ctx_views(ctx@) == Seq::<(Seq<char>, Seq<char>)>::empty());
    while i < fields.len()
        invariant
            i <= fields.len(),
            fs == field_views(fields@),
            import_fields(*imp, fs, seq![]) == import_fields(*imp, fs.skip(i as int), ctx_views(ctx@)),
        decreases fields.len() - i,
    {
        proof {
            lemma_fields_step(fields@, i as int);
        }
        let key = fields[i].0.as_str();
        let v = &fields[i].1;
        if str_eq(key, "package") {
            if !value_matches(v, imp.package.as_str()) {
                return None;
            }
            let actual = imp.package.clone();
            proof {
                lemma_ctx_push(ctx@, ("package", actual));
            }
            ctx.push(("package", actual));
        } else if str_eq(key, "is_wildcard") {
            if imp.is_wildcard != flag_wanted(v) {
                return None;
            }
        } else if str_eq(key, "is_static") {
            if imp.is_static != flag_wanted(v) {
                return None;
            }
        }
        i += 1;
    }
    assert(fs.skip(i as int).len() == 0);
    Some(ctx)
}

/// Checks the fields of an annotation.
fn match_fields_annotation(ann: &Annotation, fields: &[(String, MatchValue)]) -> (r: Option<
    Vec<(&'static str, String)>,
>)
    ensures
        opt_ctx_view(r) == annotation_fields(ann.name@, field_views(fields@), seq![("name"@, ann.name@)]),
{
    let ghost fs = field_views(fields@);
    let mut ctx: Vec<(&'static str, String)> = Vec::new();
    let first = ann.name.clone();
    proof {
        lemma_ctx_push(ctx@, ("name", first));
    }
    ctx.push(("name", first));
    let mut i: usize = 0;
    assert(fs.skip(0) == fs);
    assert(ctx_views(ctx@) == seq![("name"@, ann.name@)]);
    while i < fields.len()
        invariant
            i <= fields.len(),
            fs == field_views(fields@),
            annotation_fields(ann.name@, fs, seq![("name"@, ann.name@)]) == annotation_fields(
                ann.name@,
                fs.skip(i as int),
                ctx_views(ctx@),
            ),
        decreases fields.len() - i,
    {
        proof {
            lemma_fields_step(fields@, i as int);
        }
        let key = fields[i].0.as_str();
        let v = &fields[i].1;
        if str_eq(key, "name") || str_eq(key, "type") {
            if !value_matches(v, ann.name.as_str()) {
                return None;
            }
            let actual = ann.name.clone();
            proof {
                lemma_ctx_push(ctx@, ("name", actual));
            }
            ctx.push(("name", actual));
        }
        i += 1;
    }
    assert(fs.skip(i as int).len() == 0);
    Some(ctx)
}

/// The abstract value of the typed field of a declaration.
pub open spec fn typed_view(t: Option<(&str, &str, &String)>) -> Option<(Seq<char>, Seq<char>, Seq<char>)> {
    match t {
        Some(x) => Some((x.0@, x.1@, x.2@)),
        None => None,
    }
}

/// Checks the fields of a declaration, from the context `ctx`.
fn match_fields_decl(
    name: &String,
    typed: Option<(&'static str, &'static str, &String)>,
    modifiers: &Vec<String>,
    fields: &[(String, MatchValue)],
    start: Vec<(&'static str, String)>,
) -> (r: Option<Vec<(&'static str, String)>>)
    ensures
        opt_ctx_view(r) == decl_fields(
            DeclInfo { name: name@, typed: typed_view(typed), modifiers: string_views(modifiers@) },
            field_views(fields@),
            ctx_views(start@),
        ),
{
    let ghost d = DeclInfo {
        name: name@,
        typed: typed_view(typed),
        modifiers: string_views(modifiers@),
    };
    let ghost fs = field_views(fields@);
    let ghost ctx0 = ctx_views(start@);
    let mut ctx = start;
    let mut i: usize = 0;
    assert(fs.skip(0) == fs);
    while i < fields.len()
        invariant
            i <= fields.len(),
            fs == field_views(fields@),
            d == (DeclInfo { name: name@, typed: typed_view(typed), modifiers: string_views(modifiers@) }),
            ctx0 == ctx_views(start@),
            decl_fields(d, fs, ctx0) == decl_fields(d, fs.skip(i as int), ctx_views(ctx@)),
        decreases fields.len() - i,
    {
        proof {
            lemma_fields_step(fields@, i as int);
        }
        let key = fields[i].0.as_str();
        let v = &fields[i].1;
        if str_eq(key, "name") {
            if !value_matches(v, name.as_str()) {
                return None;
            }
            let actual = name.clone();
            proof {
                lemma_ctx_push(ctx@, ("name", actual));
            }
            ctx.push(("name", actual));
        } else if match typed {
            Some(t) => str_eq(key, t.0) || str_eq(key, t.1),
            None => false,
        } {
            let t = typed.unwrap();
            if !value_matches(v, t.2.as_str()) {
                return None;
            }
            let actual = t.2.clone();
            proof {
                lemma_ctx_push(ctx@, (t.0, actual));
            }
            ctx.push((t.0, actual));
        } else if str_eq(key, "modifier") || str_eq(key, "modifiers") {
            if !modifier_matches(v, modifiers) {
                return None;
            }
            let joined = join_modifiers(modifiers);
            proof {
                lemma_ctx_push(ctx@, ("modifier", joined));
            }
            ctx.push(("modifier", joined));
        }
        i += 1;
    }
    assert(fs.skip(i as int).len() == 0);
    Some(ctx)
}

/// Checks the fields of a class.
fn match_fields_class(cd: &ClassDecl, fields: &[(String, MatchValue)]) -> (r: Option<
    Vec<(&'static str, String)>,
>)
    ensures
        opt_ctx_view(r) == decl_fields(class_info(*cd), field_views(fields@), class_ctx(*cd)),
{
    let mut ctx: Vec<(&'static str, String)> = Vec::new();
    ctx.push(("name", cd.name.clone()));
    ctx.push(("modifier", join_modifiers(&cd.modifiers)));
    assert(ctx_views(ctx@) =~= class_ctx(*cd));
    match_fields_decl(&cd.name, None, &cd.modifiers, fields, ctx)
}

/// Checks the fields of a method.
fn match_fields_method_decl(md: &MethodDecl, fields: &[(String, MatchValue)]) -> (r: Option<
    Vec<(&'static str, String)>,
>)
    ensures
        opt_ctx_view(r) == decl_fields(method_info(*md), field_views(fields@), method_ctx(*md)),
{
    let rt = opt_string(&md.return_type);
    let mut ctx: Vec<(&'static str, String)> = Vec::new();
    ctx.push(("name", md.name.clone()));
    ctx.push(("return_type", rt.clone()));
    ctx.push(("modifier", join_modifiers(&md.modifiers)));
    assert(ctx_views(ctx@) =~= method_ctx(*md));
    match_fields_decl(&md.name, Some(("return_type", "return_type", &rt)), &md.modifiers, fields, ctx)
}

/// Checks the fields of a field declaration.
fn match_fields_field_decl(fd: &FieldDecl, fields: &[(String, MatchValue)]) -> (r: Option<
    Vec<(&'static str, String)>,
>)
    ensures
        opt_ctx_view(r) == decl_fields(field_info(*fd), field_views(fields@), field_ctx(*fd)),
{
    let ft = opt_string(&fd.field_type);
    let mut ctx: Vec<(&'static str, String)> = Vec::new();
    ctx.push(("name", fd.name.clone()));
    ctx.push(("field_type", ft.clone()));
    ctx.push(("modifier", join_modifiers(&fd.modifiers)));
    assert(ctx_views(ctx@) =~= field_ctx(*fd));
    match_fields_decl(&fd.name, Some(("field_type", "type", &ft)), &fd.modifiers, fields, ctx)
}

/// What every match of one rule shares: where it reports, and what it
/// matches on.
pub struct MatchEnv {
    pub file: Seq<char>,
    pub rule_id: Seq<char>,
    pub severity: Severity,
    pub message: Seq<char>,
    pub fields: FieldsV,
}

/// The violation reported for a match at `line` with context `ctx`: the
/// message rendered with the context and the line number.
pub open spec fn hit(env: MatchEnv, line: usize, ctx: CtxV) -> ViolationV {
    ViolationV {
        rule_id: env.rule_id,
        severity: env.severity,
        file: env.file,
        line: line as nat,
        end_line: None,
        message: render_spec(env.message, ctx.push(("line"@, decimal(line as nat)))),
    }
}

/// The violation of a match, if the fields matched.
pub open spec fn hits(env: MatchEnv, line: usize, m: Option<CtxV>) -> Seq<ViolationV> {
    match m {
        Some(c) => seq![hit(env, line, c)],
        None => seq![],
    }
}

/// Method-call matches in an expression, outer call first, then its
/// arguments.
pub open spec fn call_expr(env: MatchEnv, e: Expr) -> Seq<ViolationV>
    decreases e,
{
    match e {
        Expr::MethodCallExpr(mc) => hits(env, mc.line, call_fields(mc, env.fields, seq![]))
            + call_exprs(env, mc.arguments@),
        Expr::BinaryExpr(be) => call_expr(env, *be.left) + call_expr(env, *be.right),
        Expr::UnaryExpr(ue) => call_expr(env, *ue.expr),
        Expr::AssignExpr(ae) => call_expr(env, *ae.target) + call_expr(env, *ae.value),
        Expr::FieldAccessExpr(fa) => call_expr(env, *fa.target),
        Expr::CastExpr(ce) => call_expr(env, *ce.expr),
        Expr::ConditionalExpr(ce) => call_expr(env, *ce.condition) + call_expr(env, *ce.then_expr)
            + call_expr(env, *ce.else_expr),
        Expr::ArrayAccessExpr(aa) => call_expr(env, *aa.array) + call_expr(env, *aa.index),
        Expr::EnclosedExpr { inner, .. } => call_expr(env, *inner),
        Expr::ObjectCreationExpr(oc) => call_exprs(env, oc.arguments@),
        _ => seq![],
    }
}

/// Method-call matches in a list of expressions, in order.
pub open spec fn call_exprs(env: MatchEnv, es: Seq<Expr>) -> Seq<ViolationV>
    decreases es,
{
    if es.len() == 0 {
        seq![]
    } else {
        call_exprs(env, es.drop_last()) + call_expr(env, es.last())
    }
}

/// Method-call matches in an optional expression.
pub open spec fn call_opt_expr(env: MatchEnv, e: Option<Expr>) -> Seq<ViolationV> {
    match e {
        Some(x) => call_expr(env, x),
        None => seq![],
    }
}

/// Method-call matches in the initialisers of variable declarators.
pub open spec fn call_decls(env: MatchEnv, ds: Seq<VarDeclarator>) -> Seq<ViolationV>
    decreases ds.len(),
{
    if ds.len() == 0 {
        seq![]
    } else {
        call_decls(env, ds.drop_last()) + call_opt_expr(env, ds.last().initializer)
    }
}

/// Method-call matches in a statement.
pub open spec fn call_stmt(env: MatchEnv, s: Stmt) -> Seq<ViolationV>
    decreases s,
{
    match s {
        Stmt::ExpressionStmt(es) => call_expr(env, es.expr),
        Stmt::VariableDeclarationStmt(vds) => call_decls(env, vds.declarations@),
        Stmt::IfStmt(is) => call_expr(env, is.condition) + call_stmt(env, *is.then_stmt) + match is.else_stmt {
            Some(e) => call_stmt(env, *e),
            None => seq![],
        },
        Stmt::ForStmt(fs) => call_opt_expr(env, fs.initialization) + call_opt_expr(env, fs.condition)
            + call_stmt(env, *fs.body),
        Stmt::WhileStmt(ws) => call_expr(env, ws.condition) + call_stmt(env, *ws.body),
        Stmt::DoStmt(ds) => call_stmt(env, *ds.body) + call_expr(env, ds.condition),
        Stmt::TryStmt(ts) => call_block(env, ts.try_body) + call_catches(env, ts.catch_clauses@)
            + match ts.finally_body {
            Some(b) => call_block(env, b),
            None => seq![],
        },
        Stmt::ReturnStmt(rs) => call_opt_expr(env, rs.expr),
        Stmt::ThrowStmt(ts) => call_expr(env, ts.expr),
        Stmt::BlockStmt(bs) => call_block(env, bs),
        Stmt::SwitchStmt(ss) => call_expr(env, ss.selector) + call_cases(env, ss.cases@),
        Stmt::SynchronizedStmt(ss) => call_expr(env, ss.expr) + call_block(env, ss.body),
        _ => seq![],
    }
}

/// Method-call matches in a list of statements, in order.
pub open spec fn call_stmts(env: MatchEnv, ss: Seq<Stmt>) -> Seq<ViolationV>
    decreases ss,
{
    if ss.len() == 0 {
        seq![]
    } else {
        call_stmts(env, ss.drop_last()) + call_stmt(env, ss.last())
    }
}

/// Method-call matches in a block.
pub open spec fn call_block(env: MatchEnv, b: BlockStmt) -> Seq<ViolationV>
    decreases b,
{
    call_stmts(env, b.statements@)
}

/// Method-call matches in the bodies of catch clauses.
pub open spec fn call_catches(env: MatchEnv, cs: Seq<CatchClause>) -> Seq<ViolationV>
    decreases cs,
{
    if cs.len() == 0 {
        seq![]
    } else {
        call_catches(env, cs.drop_last()) + call_block(env, cs.last().body)
    }
}

/// Method-call matches in the statements of switch cases.
pub open spec fn call_cases(env: MatchEnv, cs: Seq<SwitchCase>) -> Seq<ViolationV>
    decreases cs,
{
    if cs.len() == 0 {
        seq![]
    } else {
        call_cases(env, cs.drop_last()) + call_stmts(env, cs.last().statements@)
    }
}

/// `[x]` for `Some(x)`, empty for `None`.
pub open spec fn opt_seq(o: Option<Expr>) -> Seq<Expr> {
    match o {
        Some(x) => seq![x],
        None => seq![],
    }
}

/// The expressions directly inside `e` that the method-call search enters:
/// the arguments of a call or an object creation, and the operands of the
/// other compound expressions.
pub open spec fn call_inner_exprs(e: Expr) -> Seq<Expr> {
    match e {
        Expr::MethodCallExpr(mc) => mc.arguments@,
        Expr::BinaryExpr(be) => seq![*be.left, *be.right],
        Expr::UnaryExpr(ue) => seq![*ue.expr],
        Expr::AssignExpr(ae) => seq![*ae.target, *ae.value],
        Expr::FieldAccessExpr(fa) => seq![*fa.target],
        Expr::CastExpr(ce) => seq![*ce.expr],
        Expr::ConditionalExpr(ce) => seq![*ce.condition, *ce.then_expr, *ce.else_expr],
        Expr::ArrayAccessExpr(aa) => seq![*aa.array, *aa.index],
        Expr::EnclosedExpr { inner, .. } => seq![*inner],
        Expr::ObjectCreationExpr(oc) => oc.arguments@,
        _ => seq![],
    }
}

/// The expression reached from `e` by following `path` through
/// [`call_inner_exprs`].
pub open spec fn call_expr_at(e: Expr, path: Seq<int>) -> Option<Expr>
    decreases path.len(),
{
    if path.len() == 0 {
        Some(e)
    } else if 0 <= path[0] < call_inner_exprs(e).len() {
        call_expr_at(call_inner_exprs(e)[path[0]], path.drop_first())
    } else {
        None
    }
}

/// The initialisers of a list of declarators, in order.
pub open spec fn decl_inits(ds: Seq<VarDeclarator>) -> Seq<Expr>
    decreases ds.len(),
{
    if ds.len() == 0 {
        seq![]
    } else {
        decl_inits(ds.drop_last()) + opt_seq(ds.last().initializer)
    }
}

/// The statements of the bodies of catch clauses, in order.
pub open spec fn catch_bodies(cs: Seq<CatchClause>) -> Seq<Stmt>
    decreases cs.len(),
{
    if cs.len() == 0 {
        seq![]
    } else {
        catch_bodies(cs.drop_last()) + cs.last().body.statements@
    }
}

/// The statements of switch cases, in order.
pub open spec fn case_bodies(cs: Seq<SwitchCase>) -> Seq<Stmt>
    decreases cs.len(),
{
    if cs.len() == 0 {
        seq![]
    } else {
        case_bodies(cs.drop_last()) + cs.last().statements@
    }
}

/// The expressions a statement holds itself (not through inner statements)
/// that the method-call search looks at: an expression statement's
/// expression, declarators' initialisers, conditions of `if`, `while`, `do`
/// and `for` and a `for` initialiser, the value of `return` and `throw`, a
/// switch selector and a `synchronized` lock.
pub open spec fn stmt_own_exprs(s: Stmt) -> Seq<Expr> {
    match s {
        Stmt::ExpressionStmt(es) => seq![es.expr],
        Stmt::VariableDeclarationStmt(vds) => decl_inits(vds.declarations@),
        Stmt::IfStmt(is) => seq![is.condition],
        Stmt::ForStmt(fs) => opt_seq(fs.initialization) + opt_seq(fs.condition),
        Stmt::WhileStmt(ws) => seq![ws.condition],
        Stmt::DoStmt(ds) => seq![ds.condition],
        Stmt::ReturnStmt(rs) => opt_seq(rs.expr),
        Stmt::ThrowStmt(ts) => seq![ts.expr],
        Stmt::SwitchStmt(ss) => seq![ss.selector],
        Stmt::SynchronizedStmt(ss) => seq![ss.expr],
        _ => seq![],
    }
}

/// The statements directly inside `s` that the method-call search enters.
pub open spec fn call_inner_stmts(s: Stmt) -> Seq<Stmt> {
    match s {
        Stmt::IfStmt(is) => seq![*is.then_stmt] + match is.else_stmt {
            Some(e) => seq![*e],
            None => seq![],
        },
        Stmt::ForStmt(fs) => seq![*fs.body],
        Stmt::WhileStmt(ws) => seq![*ws.body],
        Stmt::DoStmt(ds) => seq![*ds.body],
        Stmt::TryStmt(ts) => ts.try_body.statements@ + catch_bodies(ts.catch_clauses@) + match ts.finally_body {
            Some(b) => b.statements@,
            None => seq![],
        },
        Stmt::BlockStmt(bs) => bs.statements@,
        Stmt::SwitchStmt(ss) => case_bodies(ss.cases@),
        Stmt::SynchronizedStmt(ss) => ss.body.statements@,
        _ => seq![],
    }
}

/// The statement reached from `s` by following `path` through
/// [`call_inner_stmts`].
pub open spec fn call_stmt_at(s: Stmt, path: Seq<int>) -> Option<Stmt>
    decreases path.len(),
{
    if path.len() == 0 {
        Some(s)
    } else if 0 <= path[0] < call_inner_stmts(s).len() {
        call_stmt_at(call_inner_stmts(s)[path[0]], path.drop_first())
    } else {
        None
    }
}

proof fn lemma_has_cat(a: Seq<ViolationV>, b: Seq<ViolationV>, x: ViolationV)
    ensures
        (a.contains(x) || b.contains(x)) ==> (a + b).contains(x),
{
    if a.contains(x) {
        let i = choose|i: int| 0 <= i < a.len() && a[i] == x;
        assert((a + b)[i] == x);
    } else if b.contains(x) {
        let i = choose|i: int| 0 <= i < b.len() && b[i] == x;
        assert((a + b)[a.len() + i] == x);
    }
}

proof fn lemma_exprs_have(env: MatchEnv, es: Seq<Expr>, i: int, x: ViolationV)
    requires
        0 <= i < es.len(),
        call_expr(env, es[i]).contains(x),
    ensures
        call_exprs(env, es).contains(x),
    decreases es.len(),
{
    let d = es.drop_last();
    if i < d.len() {
        assert(d[i] == es[i]);
        lemma_exprs_have(env, d, i, x);
    }
    lemma_has_cat(call_exprs(env, d), call_expr(env, es.last()), x);
}

proof fn lemma_inner_expr_has(env: MatchEnv, e: Expr, i: int, x: ViolationV)
    requires
        0 <= i < call_inner_exprs(e).len(),
        call_expr(env, call_inner_exprs(e)[i]).contains(x),
    ensures
        call_expr(env, e).contains(x),
{
    match e {
        Expr::MethodCallExpr(mc) => {
            lemma_exprs_have(env, mc.arguments@, i, x);
            lemma_has_cat(hits(env, mc.line, call_fields(mc, env.fields, seq![])), call_exprs(env, mc.arguments@), x);
        },
        Expr::BinaryExpr(be) => {
            lemma_has_cat(call_expr(env, *be.left), call_expr(env, *be.right), x);
        },
        Expr::AssignExpr(ae) => {
            lemma_has_cat(call_expr(env, *ae.target), call_expr(env, *ae.value), x);
        },
        Expr::ConditionalExpr(ce) => {
            lemma_has_cat(call_expr(env, *ce.condition), call_expr(env, *ce.then_expr), x);
            lemma_has_cat(call_expr(env, *ce.condition) + call_expr(env, *ce.then_expr), call_expr(env, *ce.else_expr), x);
        },
        Expr::ArrayAccessExpr(aa) => {
            lemma_has_cat(call_expr(env, *aa.array), call_expr(env, *aa.index), x);
        },
        Expr::ObjectCreationExpr(oc) => {
            lemma_exprs_have(env, oc.arguments@, i, x);
        },
        _ => {},
    }
}

proof fn lemma_call_found_in_expr(env: MatchEnv, e: Expr, path: Seq<int>, mc: MethodCallExpr, c: CtxV)
    requires
        call_expr_at(e, path) == Some(Expr::MethodCallExpr(mc)),
        call_fields(mc, env.fields, seq![]) == Some(c),
    ensures
        call_expr(env, e).contains(hit(env, mc.line, c)),
    decreases path.len(),
{
    let x = hit(env, mc.line, c);
    if path.len() == 0 {
        assert(hits(env, mc.line, Some(c))[0] == x);
        lemma_has_cat(hits(env, mc.line, Some(c)), call_exprs(env, mc.arguments@), x);
    } else {
        let i = path[0];
        lemma_call_found_in_expr(env, call_inner_exprs(e)[i], path.drop_first(), mc, c);
        lemma_inner_expr_has(env, e, i, x);
    }
}

proof fn lemma_decls_have(env: MatchEnv, ds: Seq<VarDeclarator>, i: int, x: ViolationV)
    requires
        0 <= i < decl_inits(ds).len(),
        call_expr(env, decl_inits(ds)[i]).contains(x),
    ensures
        call_decls(env, ds).contains(x),
    decreases ds.len(),
{
    let d = ds.drop_last();
    let p = decl_inits(d);
    if i < p.len() {
        assert(decl_inits(ds)[i] == p[i]);
        lemma_decls_have(env, d, i, x);
    } else {
        assert(decl_inits(ds)[i] == opt_seq(ds.last().initializer)[i - p.len()]);
    }
    lemma_has_cat(call_decls(env, d), call_opt_expr(env, ds.last().initializer), x);
}

proof fn lemma_own_expr_has(env: MatchEnv, s: Stmt, k: int, x: ViolationV)
    requires
        0 <= k < stmt_own_exprs(s).len(),
        call_expr(env, stmt_own_exprs(s)[k]).contains(x),
    ensures
        call_stmt(env, s).contains(x),
{
    match s {
        Stmt::VariableDeclarationStmt(vds) => {
            lemma_decls_have(env, vds.declarations@, k, x);
        },
        Stmt::IfStmt(is) => {
            let e = match is.else_stmt {
                Some(e) => call_stmt(env, *e),
                None => seq![],
            };
            lemma_has_cat(call_expr(env, is.condition), call_stmt(env, *is.then_stmt), x);
            lemma_has_cat(call_expr(env, is.condition) + call_stmt(env, *is.then_stmt), e, x);
        },
        Stmt::ForStmt(fs) => {
            let a = opt_seq(fs.initialization);
            let ia = call_opt_expr(env, fs.initialization);
            let ic = call_opt_expr(env, fs.condition);
            if k < a.len() {
                assert(stmt_own_exprs(s)[k] == a[k]);
            } else {
                assert(stmt_own_exprs(s)[k] == opt_seq(fs.condition)[k - a.len()]);
            }
            lemma_has_cat(ia, ic, x);
            lemma_has_cat(ia + ic, call_stmt(env, *fs.body), x);
        },
        Stmt::WhileStmt(ws) => {
            lemma_has_cat(call_expr(env, ws.condition), call_stmt(env, *ws.body), x);
        },
        Stmt::DoStmt(ds) => {
            lemma_has_cat(call_stmt(env, *ds.body), call_expr(env, ds.condition), x);
        },
        Stmt::SwitchStmt(ss) => {
            lemma_has_cat(call_expr(env, ss.selector), call_cases(env, ss.cases@), x);
        },
        Stmt::SynchronizedStmt(ss) => {
            lemma_has_cat(call_expr(env, ss.expr), call_block(env, ss.body), x);
        },
        _ => {},
    }
}

proof fn lemma_stmts_have(env: MatchEnv, ss: Seq<Stmt>, i: int, x: ViolationV)
    requires
        0 <= i < ss.len(),
        call_stmt(env, ss[i]).contains(x),
    ensures
        call_stmts(env, ss).contains(x),
    decreases ss.len(),
{
    let d = ss.drop_last();
    if i < d.len() {
        assert(d[i] == ss[i]);
        lemma_stmts_have(env, d, i, x);
    }
    lemma_has_cat(call_stmts(env, d), call_stmt(env, ss.last()), x);
}

proof fn lemma_catches_have(env: MatchEnv, cs: Seq<CatchClause>, i: int, x: ViolationV)
    requires
        0 <= i < catch_bodies(cs).len(),
        call_stmt(env, catch_bodies(cs)[i]).contains(x),
    ensures
        call_catches(env, cs).contains(x),
    decreases cs.len(),
{
    let d = cs.drop_last();
    let p = catch_bodies(d);
    if i < p.len() {
        assert(catch_bodies(cs)[i] == p[i]);
        lemma_catches_have(env, d, i, x);
    } else {
        assert(catch_bodies(cs)[i] == cs.last().body.statements@[i - p.len()]);
        lemma_stmts_have(env, cs.last().body.statements@, i - p.len(), x);
    }
    lemma_has_cat(call_catches(env, d), call_block(env, cs.last().body), x);
}

proof fn lemma_cases_have(env: MatchEnv, cs: Seq<SwitchCase>, i: int, x: ViolationV)
    requires
        0 <= i < case_bodies(cs).len(),
        call_stmt(env, case_bodies(cs)[i]).contains(x),
    ensures
        call_cases(env, cs).contains(x),
    decreases cs.len(),
{
    let d = cs.drop_last();
    let p = case_bodies(d);
    if i < p.len() {
        assert(case_bodies(cs)[i] == p[i]);
        lemma_cases_have(env, d, i, x);
    } else {
        assert(case_bodies(cs)[i] == cs.last().statements@[i - p.len()]);
        lemma_stmts_have(env, cs.last().statements@, i - p.len(), x);
    }
    lemma_has_cat(call_cases(env, d), call_stmts(env, cs.last().statements@), x);
}

proof fn lemma_inner_stmt_has(env: MatchEnv, s: Stmt, i: int, x: ViolationV)
    requires
        0 <= i < call_inner_stmts(s).len(),
        call_stmt(env, call_inner_stmts(s)[i]).contains(x),
    ensures
        call_stmt(env, s).contains(x),
{
    match s {
        Stmt::IfStmt(is) => {
            let e = match is.else_stmt {
                Some(e) => call_stmt(env, *e),
                None => seq![],
            };
            if i == 0 {
                assert(call_inner_stmts(s)[0] == *is.then_stmt);
            } else {
                assert(call_inner_stmts(s)[1] == *is.else_stmt->0);
            }
            lemma_has_cat(call_expr(env, is.condition), call_stmt(env, *is.then_stmt), x);
            lemma_has_cat(call_expr(env, is.condition) + call_stmt(env, *is.then_stmt), e, x);
        },
        Stmt::ForStmt(fs) => {
            assert(call_inner_stmts(s)[0] == *fs.body);
            let ia = call_opt_expr(env, fs.initialization) + call_opt_expr(env, fs.condition);
            lemma_has_cat(ia, call_stmt(env, *fs.body), x);
        },
        Stmt::WhileStmt(ws) => {
            assert(call_inner_stmts(s)[0] == *ws.body);
            lemma_has_cat(call_expr(env, ws.condition), call_stmt(env, *ws.body), x);
        },
        Stmt::DoStmt(ds) => {
            assert(call_inner_stmts(s)[0] == *ds.body);
            lemma_has_cat(call_stmt(env, *ds.body), call_expr(env, ds.condition), x);
        },
        Stmt::TryStmt(ts) => {
            let a = ts.try_body.statements@;
            let m = catch_bodies(ts.catch_clauses@);
            let fv = match ts.finally_body {
                Some(b) => call_block(env, b),
                None => seq![],
            };
            let ab = call_block(env, ts.try_body) + call_catches(env, ts.catch_clauses@);
            if i < a.len() {
                assert(call_inner_stmts(s)[i] == a[i]);
                lemma_stmts_have(env, a, i, x);
                assert(call_block(env, ts.try_body) == call_stmts(env, a));
            } else if i < a.len() + m.len() {
                assert(call_inner_stmts(s)[i] == m[i - a.len()]);
                lemma_catches_have(env, ts.catch_clauses@, i - a.len(), x);
            } else {
                match ts.finally_body {
                    Some(b) => {
                        assert(call_inner_stmts(s)[i] == b.statements@[i - a.len() - m.len()]);
                        lemma_stmts_have(env, b.statements@, i - a.len() - m.len(), x);
                        assert(call_block(env, b) == call_stmts(env, b.statements@));
                    },
                    None => {},
                }
            }
            lemma_has_cat(call_block(env, ts.try_body), call_catches(env, ts.catch_clauses@), x);
            lemma_has_cat(ab, fv, x);
        },
        Stmt::BlockStmt(bs) => {
            lemma_stmts_have(env, bs.statements@, i, x);
            assert(call_block(env, bs) == call_stmts(env, bs.statements@));
        },
        Stmt::SwitchStmt(ss) => {
            lemma_cases_have(env, ss.cases@, i, x);
            lemma_has_cat(call_expr(env, ss.selector), call_cases(env, ss.cases@), x);
        },
        Stmt::SynchronizedStmt(ss) => {
            lemma_stmts_have(env, ss.body.statements@, i, x);
            assert(call_block(env, ss.body) == call_stmts(env, ss.body.statements@));
            lemma_has_cat(call_expr(env, ss.expr), call_block(env, ss.body), x);
        },
        _ => {},
    }
}

/// Every matching method call is reported: for any statement reached from
/// `s` through the statements the search enters, any expression that
/// statement holds itself (such as the value of a `return`), and any method
/// call reached from that expression through operands and arguments, a call
/// whose fields match the pattern gives its violation at the call's line
/// among the matches of `s`.
pub proof fn lemma_method_call_found(
    env: MatchEnv,
    s: Stmt,
    sp: Seq<int>,
    t: Stmt,
    k: int,
    ep: Seq<int>,
    mc: MethodCallExpr,
    c: CtxV,
)
    requires
        call_stmt_at(s, sp) == Some(t),
        0 <= k < stmt_own_exprs(t).len(),
        call_expr_at(stmt_own_exprs(t)[k], ep) == Some(Expr::MethodCallExpr(mc)),
        call_fields(mc, env.fields, seq![]) == Some(c),
    ensures
        call_stmt(env, s).contains(hit(env, mc.line, c)),
    decreases sp.len(),
{
    let x = hit(env, mc.line, c);
    if sp.len() == 0 {
        lemma_call_found_in_expr(env, stmt_own_exprs(t)[k], ep, mc, c);
        lemma_own_expr_has(env, t, k, x);
    } else {
        let i = sp[0];
        lemma_method_call_found(env, call_inner_stmts(s)[i], sp.drop_first(), t, k, ep, mc, c);
        lemma_inner_stmt_has(env, s, i, x);
    }
}

/// Whether `x` is the violation of a method call reached from `e` (through
/// [`call_inner_exprs`]) whose fields match the pattern.
pub open spec fn expr_call_hit(env: MatchEnv, e: Expr, x: ViolationV) -> bool {
    exists|ep: Seq<int>, mc: MethodCallExpr, c: CtxV|
        #![trigger call_expr_at(e, ep), hit(env, mc.line, c)]
        call_expr_at(e, ep) == Some(Expr::MethodCallExpr(mc)) && call_fields(mc, env.fields, seq![]) == Some(c)
            && x == hit(env, mc.line, c)
}

/// Whether `x` is the violation of a method call, in an expression held by a
/// statement reached from `s`, whose fields match the pattern.
pub open spec fn stmt_call_hit(env: MatchEnv, s: Stmt, x: ViolationV) -> bool {
    exists|sp: Seq<int>, t: Stmt, k: int|
        #![trigger call_stmt_at(s, sp), stmt_own_exprs(t)[k]]
        call_stmt_at(s, sp) == Some(t) && 0 <= k < stmt_own_exprs(t).len() && expr_call_hit(
            env,
            stmt_own_exprs(t)[k],
            x,
        )
}

proof fn lemma_split_has(a: Seq<ViolationV>, b: Seq<ViolationV>, x: ViolationV)
    ensures
        (a + b).contains(x) ==> a.contains(x) || b.contains(x),
{
    if (a + b).contains(x) {
        let i = choose|i: int| 0 <= i < (a + b).len() && (a + b)[i] == x;
        if i < a.len() {
            assert(a[i] == x);
        } else {
            assert(b[i - a.len()] == x);
        }
    }
}

proof fn lemma_split_exprs(env: MatchEnv, es: Seq<Expr>, x: ViolationV)
    requires
        call_exprs(env, es).contains(x),
    ensures
        exists|j: int| 0 <= j < es.len() && #[trigger] call_expr(env, es[j]).contains(x),
    decreases es.len(),
{
    let d = es.drop_last();
    lemma_split_has(call_exprs(env, d), call_expr(env, es.last()), x);
    if call_exprs(env, d).contains(x) {
        lemma_split_exprs(env, d, x);
        let j = choose|j: int| 0 <= j < d.len() && #[trigger] call_expr(env, d[j]).contains(x);
        assert(es[j] == d[j]);
    } else {
        assert(call_expr(env, es[es.len() - 1]).contains(x));
    }
}

proof fn lemma_lift_expr_hit(env: MatchEnv, e: Expr, i: int, x: ViolationV)
    requires
        0 <= i < call_inner_exprs(e).len(),
        expr_call_hit(env, call_inner_exprs(e)[i], x),
    ensures
        expr_call_hit(env, e, x),
{
    let inner = call_inner_exprs(e)[i];
    let (p, mc, c) = choose|ep: Seq<int>, mc: MethodCallExpr, c: CtxV|
        #![trigger call_expr_at(inner, ep), hit(env, mc.line, c)]
        call_expr_at(inner, ep) == Some(Expr::MethodCallExpr(mc)) && call_fields(mc, env.fields, seq![]) == Some(c)
            && x == hit(env, mc.line, c);
    let q = seq![i] + p;
    assert(q[0] == i);
    assert(q.drop_first() == p);
    assert(call_expr_at(e, q) == call_expr_at(inner, p));
}

/// Every match in an expression is the violation of a method call reached
/// from it whose fields match the pattern.
pub proof fn lemma_expr_hits_are_calls(env: MatchEnv, e: Expr, x: ViolationV)
    requires
        call_expr(env, e).contains(x),
    ensures
        expr_call_hit(env, e, x),
    decreases e,
{
    match e {
        Expr::MethodCallExpr(mc) => {
            let h = hits(env, mc.line, call_fields(mc, env.fields, seq![]));
            lemma_split_has(h, call_exprs(env, mc.arguments@), x);
            if h.contains(x) {
                let c = call_fields(mc, env.fields, seq![])->0;
                assert(h[0] == x);
                assert(call_expr_at(e, Seq::<int>::empty()) == Some(e));
            } else {
                lemma_split_exprs(env, mc.arguments@, x);
                let j = choose|j: int| 0 <= j < mc.arguments@.len() && #[trigger] call_expr(env, mc.arguments@[j]).contains(x);
                lemma_expr_hits_are_calls(env, mc.arguments@[j], x);
                lemma_lift_expr_hit(env, e, j, x);
            }
        },
        Expr::ObjectCreationExpr(oc) => {
            lemma_split_exprs(env, oc.arguments@, x);
            let j = choose|j: int| 0 <= j < oc.arguments@.len() && #[trigger] call_expr(env, oc.arguments@[j]).contains(x);
            lemma_expr_hits_are_calls(env, oc.arguments@[j], x);
            lemma_lift_expr_hit(env, e, j, x);
        },
        Expr::BinaryExpr(be) => {
            lemma_split_has(call_expr(env, *be.left), call_expr(env, *be.right), x);
            if call_expr(env, *be.left).contains(x) {
                lemma_expr_hits_are_calls(env, *be.left, x);
                lemma_lift_expr_hit(env, e, 0, x);
            } else {
                lemma_expr_hits_are_calls(env, *be.right, x);
                lemma_lift_expr_hit(env, e, 1, x);
            }
        },
        Expr::AssignExpr(ae) => {
            lemma_split_has(call_expr(env, *ae.target), call_expr(env, *ae.value), x);
            if call_expr(env, *ae.target).contains(x) {
                lemma_expr_hits_are_calls(env, *ae.target, x);
                lemma_lift_expr_hit(env, e, 0, x);
            } else {
                lemma_expr_hits_are_calls(env, *ae.value, x);
                lemma_lift_expr_hit(env, e, 1, x);
            }
        },
        Expr::ArrayAccessExpr(aa) => {
            lemma_split_has(call_expr(env, *aa.array), call_expr(env, *aa.index), x);
            if call_expr(env, *aa.array).contains(x) {
                lemma_expr_hits_are_calls(env, *aa.array, x);
                lemma_lift_expr_hit(env, e, 0, x);
            } else {
                lemma_expr_hits_are_calls(env, *aa.index, x);
                lemma_lift_expr_hit(env, e, 1, x);
            }
        },
        Expr::ConditionalExpr(ce) => {
            let ab = call_expr(env, *ce.condition) + call_expr(env, *ce.then_expr);
            lemma_split_has(ab, call_expr(env, *ce.else_expr), x);
            lemma_split_has(call_expr(env, *ce.condition), call_expr(env, *ce.then_expr), x);
            if call_expr(env, *ce.condition).contains(x) {
                lemma_expr_hits_are_calls(env, *ce.condition, x);
                lemma_lift_expr_hit(env, e, 0, x);
            } else if call_expr(env, *ce.then_expr).contains(x) {
                lemma_expr_hits_are_calls(env, *ce.then_expr, x);
                lemma_lift_expr_hit(env, e, 1, x);
            } else {
                lemma_expr_hits_are_calls(env, *ce.else_expr, x);
                lemma_lift_expr_hit(env, e, 2, x);
            }
        },
        Expr::UnaryExpr(ue) => {
            lemma_expr_hits_are_calls(env, *ue.expr, x);
            lemma_lift_expr_hit(env, e, 0, x);
        },
        Expr::FieldAccessExpr(fa) => {
            lemma_expr_hits_are_calls(env, *fa.target, x);
            lemma_lift_expr_hit(env, e, 0, x);
        },
        Expr::CastExpr(ce) => {
            lemma_expr_hits_are_calls(env, *ce.expr, x);
            lemma_lift_expr_hit(env, e, 0, x);
        },
        Expr::EnclosedExpr { inner, .. } => {
            lemma_expr_hits_are_calls(env, *inner, x);
            lemma_lift_expr_hit(env, e, 0, x);
        },
        _ => {},
    }
}

proof fn lemma_split_decls(env: MatchEnv, ds: Seq<VarDeclarator>, x: ViolationV)
    requires
        call_decls(env, ds).contains(x),
    ensures
        exists|m: int| 0 <= m < decl_inits(ds).len() && #[trigger] call_expr(env, decl_inits(ds)[m]).contains(x),
    decreases ds.len(),
{
    let d = ds.drop_last();
    let p = decl_inits(d);
    lemma_split_has(call_decls(env, d), call_opt_expr(env, ds.last().initializer), x);
    if call_decls(env, d).contains(x) {
        lemma_split_decls(env, d, x);
        let m = choose|m: int| 0 <= m < p.len() && #[trigger] call_expr(env, p[m]).contains(x);
        assert(decl_inits(ds)[m] == p[m]);
    } else {
        assert(decl_inits(ds)[p.len() as int] == ds.last().initializer->0);
    }
}

proof fn lemma_split_stmt_list(env: MatchEnv, ss: Seq<Stmt>, x: ViolationV)
    requires
        call_stmts(env, ss).contains(x),
    ensures
        exists|j: int| 0 <= j < ss.len() && #[trigger] call_stmt(env, ss[j]).contains(x),
    decreases ss.len(),
{
    let d = ss.drop_last();
    lemma_split_has(call_stmts(env, d), call_stmt(env, ss.last()), x);
    if call_stmts(env, d).contains(x) {
        lemma_split_stmt_list(env, d, x);
        let j = choose|j: int| 0 <= j < d.len() && #[trigger] call_stmt(env, d[j]).contains(x);
        assert(ss[j] == d[j]);
    } else {
        assert(call_stmt(env, ss[ss.len() - 1]).contains(x));
    }
}

proof fn lemma_split_catches(env: MatchEnv, cs: Seq<CatchClause>, x: ViolationV)
    requires
        call_catches(env, cs).contains(x),
    ensures
        exists|c: int, j: int|
            0 <= c < cs.len() && 0 <= j < cs[c].body.statements@.len() && #[trigger] call_stmt(
                env,
                cs[c].body.statements@[j],
            ).contains(x),
    decreases cs.len(),
{
    let d = cs.drop_last();
    lemma_split_has(call_catches(env, d), call_block(env, cs.last().body), x);
    if call_catches(env, d).contains(x) {
        lemma_split_catches(env, d, x);
        let (c, j) = choose|c: int, j: int|
            0 <= c < d.len() && 0 <= j < d[c].body.statements@.len() && #[trigger] call_stmt(
                env,
                d[c].body.statements@[j],
            ).contains(x);
        assert(cs[c] == d[c]);
    } else {
        let b = cs.last().body.statements@;
        assert(call_block(env, cs.last().body) == call_stmts(env, b));
        lemma_split_stmt_list(env, b, x);
        let j = choose|j: int| 0 <= j < b.len() && #[trigger] call_stmt(env, b[j]).contains(x);
        assert(cs[cs.len() - 1].body.statements@[j] == b[j]);
    }
}

proof fn lemma_catch_index(cs: Seq<CatchClause>, c: int, k: int)
    requires
        0 <= c < cs.len(),
        0 <= k < cs[c].body.statements@.len(),
    ensures
        exists|m: int| 0 <= m < catch_bodies(cs).len() && #[trigger] catch_bodies(cs)[m] == cs[c].body.statements@[k],
    decreases cs.len(),
{
    let d = cs.drop_last();
    let p = catch_bodies(d);
    if c < d.len() {
        assert(d[c] == cs[c]);
        lemma_catch_index(d, c, k);
        let m = choose|m: int| 0 <= m < p.len() && #[trigger] p[m] == d[c].body.statements@[k];
        assert(catch_bodies(cs)[m] == p[m]);
    } else {
        assert(catch_bodies(cs)[p.len() + k] == cs.last().body.statements@[k]);
    }
}

proof fn lemma_split_cases(env: MatchEnv, cs: Seq<SwitchCase>, x: ViolationV)
    requires
        call_cases(env, cs).contains(x),
    ensures
        exists|c: int, j: int|
            0 <= c < cs.len() && 0 <= j < cs[c].statements@.len() && #[trigger] call_stmt(
                env,
                cs[c].statements@[j],
            ).contains(x),
    decreases cs.len(),
{
    let d = cs.drop_last();
    lemma_split_has(call_cases(env, d), call_stmts(env, cs.last().statements@), x);
    if call_cases(env, d).contains(x) {
        lemma_split_cases(env, d, x);
        let (c, j) = choose|c: int, j: int|
            0 <= c < d.len() && 0 <= j < d[c].statements@.len() && #[trigger] call_stmt(
                env,
                d[c].statements@[j],
            ).contains(x);
        assert(cs[c] == d[c]);
    } else {
        let b = cs.last().statements@;
        lemma_split_stmt_list(env, b, x);
        let j = choose|j: int| 0 <= j < b.len() && #[trigger] call_stmt(env, b[j]).contains(x);
        assert(cs[cs.len() - 1].statements@[j] == b[j]);
    }
}

proof fn lemma_case_index(cs: Seq<SwitchCase>, c: int, k: int)
    requires
        0 <= c < cs.len(),
        0 <= k < cs[c].statements@.len(),
    ensures
        exists|m: int| 0 <= m < case_bodies(cs).len() && #[trigger] case_bodies(cs)[m] == cs[c].statements@[k],
    decreases cs.len(),
{
    let d = cs.drop_last();
    let p = case_bodies(d);
    if c < d.len() {
        assert(d[c] == cs[c]);
        lemma_case_index(d, c, k);
        let m = choose|m: int| 0 <= m < p.len() && #[trigger] p[m] == d[c].statements@[k];
        assert(case_bodies(cs)[m] == p[m]);
    } else {
        assert(case_bodies(cs)[p.len() + k] == cs.last().statements@[k]);
    }
}

proof fn lemma_own_hit(env: MatchEnv, t: Stmt, k: int, x: ViolationV)
    requires
        0 <= k < stmt_own_exprs(t).len(),
        call_expr(env, stmt_own_exprs(t)[k]).contains(x),
    ensures
        stmt_call_hit(env, t, x),
{
    lemma_expr_hits_are_calls(env, stmt_own_exprs(t)[k], x);
    assert(call_stmt_at(t, Seq::<int>::empty()) == Some(t));
}

proof fn lemma_lift_stmt_hit(env: MatchEnv, s: Stmt, i: int, x: ViolationV)
    requires
        0 <= i < call_inner_stmts(s).len(),
        stmt_call_hit(env, call_inner_stmts(s)[i], x),
    ensures
        stmt_call_hit(env, s, x),
{
    let inner = call_inner_stmts(s)[i];
    let (p, t, k) = choose|sp: Seq<int>, t: Stmt, k: int|
        #![trigger call_stmt_at(inner, sp), stmt_own_exprs(t)[k]]
        call_stmt_at(inner, sp) == Some(t) && 0 <= k < stmt_own_exprs(t).len() && expr_call_hit(
            env,
            stmt_own_exprs(t)[k],
            x,
        );
    let q = seq![i] + p;
    assert(q[0] == i);
    assert(q.drop_first() == p);
    assert(call_stmt_at(s, q) == call_stmt_at(inner, p));
}

/// Every match of a method-call rule in a statement is the violation of a
/// method call whose fields match the pattern, in an expression held by a
/// statement reached from `s` (the converse of
/// [`lemma_method_call_found`]).
pub proof fn lemma_stmt_hits_are_calls(env: MatchEnv, s: Stmt, x: ViolationV)
    requires
        call_stmt(env, s).contains(x),
    ensures
        stmt_call_hit(env, s, x),
    decreases s,
{
    match s {
        Stmt::ExpressionStmt(es) => {
            lemma_own_hit(env, s, 0, x);
        },
        Stmt::VariableDeclarationStmt(vds) => {
            lemma_split_decls(env, vds.declarations@, x);
            let m = choose|m: int|
                0 <= m < decl_inits(vds.declarations@).len() && #[trigger] call_expr(env, decl_inits(vds.declarations@)[m]).contains(x);
            lemma_own_hit(env, s, m, x);
        },
        Stmt::IfStmt(is) => {
            let e = match is.else_stmt {
                Some(e) => call_stmt(env, *e),
                None => seq![],
            };
            let ab = call_expr(env, is.condition) + call_stmt(env, *is.then_stmt);
            lemma_split_has(ab, e, x);
            lemma_split_has(call_expr(env, is.condition), call_stmt(env, *is.then_stmt), x);
            if call_expr(env, is.condition).contains(x) {
                lemma_own_hit(env, s, 0, x);
            } else if call_stmt(env, *is.then_stmt).contains(x) {
                lemma_stmt_hits_are_calls(env, *is.then_stmt, x);
                assert(call_inner_stmts(s)[0] == *is.then_stmt);
                lemma_lift_stmt_hit(env, s, 0, x);
            } else {
                match is.else_stmt {
                    Some(es) => {
                        lemma_stmt_hits_are_calls(env, *es, x);
                        assert(call_inner_stmts(s)[1] == *es);
                        lemma_lift_stmt_hit(env, s, 1, x);
                    },
                    None => {},
                }
            }
        },
        Stmt::ForStmt(fs) => {
            let ia = call_opt_expr(env, fs.initialization);
            let ic = call_opt_expr(env, fs.condition);
            lemma_split_has(ia + ic, call_stmt(env, *fs.body), x);
            lemma_split_has(ia, ic, x);
            let a = opt_seq(fs.initialization);
            if ia.contains(x) {
                assert(stmt_own_exprs(s)[0] == fs.initialization->0);
                lemma_own_hit(env, s, 0, x);
            } else if ic.contains(x) {
                assert(stmt_own_exprs(s)[a.len() as int] == fs.condition->0);
                lemma_own_hit(env, s, a.len() as int, x);
            } else {
                lemma_stmt_hits_are_calls(env, *fs.body, x);
                assert(call_inner_stmts(s)[0] == *fs.body);
                lemma_lift_stmt_hit(env, s, 0, x);
            }
        },
        Stmt::WhileStmt(ws) => {
            lemma_split_has(call_expr(env, ws.condition), call_stmt(env, *ws.body), x);
            if call_expr(env, ws.condition).contains(x) {
                lemma_own_hit(env, s, 0, x);
            } else {
                lemma_stmt_hits_are_calls(env, *ws.body, x);
                assert(call_inner_stmts(s)[0] == *ws.body);
                lemma_lift_stmt_hit(env, s, 0, x);
            }
        },
        Stmt::DoStmt(ds) => {
            lemma_split_has(call_stmt(env, *ds.body), call_expr(env, ds.condition), x);
            if call_expr(env, ds.condition).contains(x) {
                lemma_own_hit(env, s, 0, x);
            } else {
                lemma_stmt_hits_are_calls(env, *ds.body, x);
                assert(call_inner_stmts(s)[0] == *ds.body);
                lemma_lift_stmt_hit(env, s, 0, x);
            }
        },
        Stmt::TryStmt(ts) => {
            let a = ts.try_body.statements@;
            let m = catch_bodies(ts.catch_clauses@);
            let fv = match ts.finally_body {
                Some(b) => call_block(env, b),
                None => seq![],
            };
            let ab = call_block(env, ts.try_body) + call_catches(env, ts.catch_clauses@);
            lemma_split_has(ab, fv, x);
            lemma_split_has(call_block(env, ts.try_body), call_catches(env, ts.catch_clauses@), x);
            if call_block(env, ts.try_body).contains(x) {
                assert(call_block(env, ts.try_body) == call_stmts(env, a));
                lemma_split_stmt_list(env, a, x);
                let j = choose|j: int| 0 <= j < a.len() && #[trigger] call_stmt(env, a[j]).contains(x);
                lemma_stmt_hits_are_calls(env, a[j], x);
                assert(call_inner_stmts(s)[j] == a[j]);
                lemma_lift_stmt_hit(env, s, j, x);
            } else if call_catches(env, ts.catch_clauses@).contains(x) {
                let cs = ts.catch_clauses@;
                lemma_split_catches(env, cs, x);
                let (c, j) = choose|c: int, j: int|
                    0 <= c < cs.len() && 0 <= j < cs[c].body.statements@.len() && #[trigger] call_stmt(
                        env,
                        cs[c].body.statements@[j],
                    ).contains(x);
                lemma_stmt_hits_are_calls(env, cs[c].body.statements@[j], x);
                lemma_catch_index(cs, c, j);
                let k = choose|k: int| 0 <= k < m.len() && #[trigger] m[k] == cs[c].body.statements@[j];
                assert(call_inner_stmts(s)[a.len() + k] == m[k]);
                lemma_lift_stmt_hit(env, s, a.len() + k, x);
            } else {
                match ts.finally_body {
                    Some(b) => {
                        let f = b.statements@;
                        assert(call_block(env, b) == call_stmts(env, f));
                        lemma_split_stmt_list(env, f, x);
                        let j = choose|j: int| 0 <= j < f.len() && #[trigger] call_stmt(env, f[j]).contains(x);
                        lemma_stmt_hits_are_calls(env, f[j], x);
                        assert(call_inner_stmts(s)[a.len() + m.len() + j] == f[j]);
                        lemma_lift_stmt_hit(env, s, a.len() + m.len() + j, x);
                    },
                    None => {},
                }
            }
        },
        Stmt::ReturnStmt(rs) => {
            lemma_own_hit(env, s, 0, x);
        },
        Stmt::ThrowStmt(ts) => {
            lemma_own_hit(env, s, 0, x);
        },
        Stmt::BlockStmt(bs) => {
            assert(call_block(env, bs) == call_stmts(env, bs.statements@));
            lemma_split_stmt_list(env, bs.statements@, x);
            let j = choose|j: int| 0 <= j < bs.statements@.len() && #[trigger] call_stmt(env, bs.statements@[j]).contains(x);
            lemma_stmt_hits_are_calls(env, bs.statements@[j], x);
            lemma_lift_stmt_hit(env, s, j, x);
        },
        Stmt::SwitchStmt(ss) => {
            lemma_split_has(call_expr(env, ss.selector), call_cases(env, ss.cases@), x);
            if call_expr(env, ss.selector).contains(x) {
                lemma_own_hit(env, s, 0, x);
            } else {
                let cs = ss.cases@;
                lemma_split_cases(env, cs, x);
                let (c, j) = choose|c: int, j: int|
                    0 <= c < cs.len() && 0 <= j < cs[c].statements@.len() && #[trigger] call_stmt(
                        env,
                        cs[c].statements@[j],
                    ).contains(x);
                lemma_stmt_hits_are_calls(env, cs[c].statements@[j], x);
                lemma_case_index(cs, c, j);
                let m = case_bodies(cs);
                let k = choose|k: int| 0 <= k < m.len() && #[trigger] m[k] == cs[c].statements@[j];
                lemma_lift_stmt_hit(env, s, k, x);
            }
        },
        Stmt::SynchronizedStmt(sy) => {
            lemma_split_has(call_expr(env, sy.expr), call_block(env, sy.body), x);
            if call_expr(env, sy.expr).contains(x) {
                lemma_own_hit(env, s, 0, x);
            } else {
                assert(call_block(env, sy.body) == call_stmts(env, sy.body.statements@));
                lemma_split_stmt_list(env, sy.body.statements@, x);
                let j = choose|j: int|
                    0 <= j < sy.body.statements@.len() && #[trigger] call_stmt(env, sy.body.statements@[j]).contains(x);
                lemma_stmt_hits_are_calls(env, sy.body.statements@[j], x);
                lemma_lift_stmt_hit(env, s, j, x);
            }
        },
        _ => {},
    }
}

proof fn lemma_add3(a: Seq<ViolationV>, b: Seq<ViolationV>, c: Seq<ViolationV>)
    ensures
        a + b + c == a + (b + c),
{
    assert(a + b + c =~= a + (b + c));
}

/// One rule's matching run over a compilation unit.
struct Matcher<'a> {
    fields: &'a [(String, MatchValue)],
    file: &'a str,
    rule_id: &'a str,
    severity: Severity,
    message: &'a str,
}

impl<'a> View for Matcher<'a> {
    type V = MatchEnv;

    closed spec fn view(&self) -> MatchEnv {
        MatchEnv {
            file: self.file@,
            rule_id: self.rule_id@,
            severity: self.severity,
            message: self.message@,
            fields: field_views(self.fields@),
        }
    }
}

fn push_violation(out: &mut Vec<Violation>, v: Violation)
    ensures
        views(final(out)@) == views(old(out)@).push(v@),
{
    out.push(v);
    assert(views(out@) =~= views(old(out)@).push(v@));
}

impl<'a> Matcher<'a> {
    /// Reports a match at `line`, if the fields matched.
    fn report(&self, out: &mut Vec<Violation>, line: usize, m: Option<Vec<(&'static str, String)>>)
        ensures
            views(final(out)@) == views(old(out)@) + hits(self@, line, opt_ctx_view(m)),
    {
        match m {
            Some(ctx) => {
                let mut ctx = ctx;
                let l = usize_to_string(line);
                proof {
                    lemma_ctx_push(ctx@, ("line", l));
                }
                ctx.push(("line", l));
                let msg = render_message(self.message, ctx.as_slice());
                let v = Violation::new(self.rule_id, self.severity, self.file, line, msg.as_str());
                push_violation(out, v);
                assert(views(out@) =~= views(old(out)@) + hits(self@, line, opt_ctx_view(Some(ctx))).take(0).push(v@));
            },
            None => {
                assert(views(out@) =~= views(out@) + Seq::<ViolationV>::empty());
            },
        }
    }

    fn call_expr(&self, e: &Expr, out: &mut Vec<Violation>)
        ensures
            views(final(out)@) == views(old(out)@) + call_expr(self@, *e),
        decreases e,
    {
        let ghost v0 = views(out@);
        match e {
            Expr::MethodCallExpr(mc) => {
                let m = match_fields_method_call(mc, self.fields);
                self.report(out, mc.line, m);
                let ghost v1 = views(out@);
                let mut i: usize = 0;
                assert(mc.arguments@.take(0) == Seq::<Expr>::empty());
                while i < mc.arguments.len()
                    invariant
                        i <= mc.arguments.len(),
                        *e == Expr::MethodCallExpr(*mc),
                        views(out@) == v1 + call_exprs(self@, mc.arguments@.take(i as int)),
                    decreases mc.arguments.len() - i,
                {
                    proof {
                        assert(decreases_to!(*e => (*e)->MethodCallExpr_0));
                        assert(decreases_to!(*mc => mc.arguments));
                        assert(decreases_to!(mc.arguments => mc.arguments@));
                        assert(decreases_to!(mc.arguments@ => mc.arguments@[i as int]));
                    }
                    self.call_expr(&mc.arguments[i], out);
                    proof {
                        let t = mc.arguments@.take(i + 1);
                        assert(t.drop_last() == mc.arguments@.take(i as int));
                        assert(t.last() == mc.arguments@[i as int]);
                        lemma_add3(v1, call_exprs(self@, mc.arguments@.take(i as int)), call_expr(self@, mc.arguments@[i as int]));
                    }
                    i += 1;
                }
                assert(mc.arguments@.take(i as int) == mc.arguments@);
                proof {
                    lemma_add3(v0, hits(self@, mc.line, call_fields(*mc, self@.fields, seq![])), call_exprs(self@, mc.arguments@));
                }
            },
            Expr::BinaryExpr(be) => {
                self.call_expr(&be.left, out);
                self.call_expr(&be.right, out);
                proof {
                    lemma_add3(v0, call_expr(self@, *be.left), call_expr(self@, *be.right));
                }
            },
            Expr::UnaryExpr(ue) => {
                self.call_expr(&ue.expr, out);
            },
            Expr::AssignExpr(ae) => {
                self.call_expr(&ae.target, out);
                self.call_expr(&ae.value, out);
                proof {
                    lemma_add3(v0, call_expr(self@, *ae.target), call_expr(self@, *ae.value));
                }
            },
            Expr::FieldAccessExpr(fa) => {
                self.call_expr(&fa.target, out);
            },
            Expr::CastExpr(ce) => {
                self.call_expr(&ce.expr, out);
            },
            Expr::ConditionalExpr(ce) => {
                self.call_expr(&ce.condition, out);
                self.call_expr(&ce.then_expr, out);
                proof {
                    lemma_add3(v0, call_expr(self@, *ce.condition), call_expr(self@, *ce.then_expr));
                }
                let ghost v2 = views(out@);
                self.call_expr(&ce.else_expr, out);
                proof {
                    lemma_add3(v0, call_expr(self@, *ce.condition) + call_expr(self@, *ce.then_expr), call_expr(self@, *ce.else_expr));
                }
            },
            Expr::ArrayAccessExpr(aa) => {
                self.call_expr(&aa.array, out);
                self.call_expr(&aa.index, out);
                proof {
                    lemma_add3(v0, call_expr(self@, *aa.array), call_expr(self@, *aa.index));
                }
            },
            Expr::EnclosedExpr { inner, .. } => {
                self.call_expr(inner, out);
            },
            Expr::ObjectCreationExpr(oc) => {
                let mut i: usize = 0;
                assert(oc.arguments@.take(0) == Seq::<Expr>::empty());
                assert(views(out@) == v0 + Seq::<ViolationV>::empty());
                while i < oc.arguments.len()
                    invariant
                        i <= oc.arguments.len(),
                        *e == Expr::ObjectCreationExpr(*oc),
                        views(out@) == v0 + call_exprs(self@, oc.arguments@.take(i as int)),
                    decreases oc.arguments.len() - i,
                {
                    proof {
                        assert(decreases_to!(*e => (*e)->ObjectCreationExpr_0));
                        assert(decreases_to!(*oc => oc.arguments));
                        assert(decreases_to!(oc.arguments => oc.arguments@));
                        assert(decreases_to!(oc.arguments@ => oc.arguments@[i as int]));
                    }
                    self.call_expr(&oc.arguments[i], out);
                    proof {
                        let t = oc.arguments@.take(i + 1);
                        assert(t.drop_last() == oc.arguments@.take(i as int));
                        assert(t.last() == oc.arguments@[i as int]);
                        lemma_add3(v0, call_exprs(self@, oc.arguments@.take(i as int)), call_expr(self@, oc.arguments@[i as int]));
                    }
                    i += 1;
                }
                assert(oc.arguments@.take(i as int) == oc.arguments@);
            },
            _ => {
                assert(views(out@) == v0 + Seq::<ViolationV>::empty());
            },
        }
    }
}

impl<'a> Matcher<'a> {
    fn call_opt_expr(&self, e: &Option<Expr>, out: &mut Vec<Violation>)
        ensures
            views(final(out)@) == views(old(out)@) + call_opt_expr(self@, *e),
    {
        match e {
            Some(x) => self.call_expr(x, out),
            None => {
                assert(views(out@) == views(out@) + Seq::<ViolationV>::empty());
            },
        }
    }

    fn call_block(&self, b: &BlockStmt, out: &mut Vec<Violation>)
        ensures
            views(final(out)@) == views(old(out)@) + call_block(self@, *b),
        decreases b, 0nat,
    {
        let ghost v0 = views(out@);
        let mut i: usize = 0;
        assert(b.statements@.take(0) == Seq::<Stmt>::empty());
        assert(views(out@) == v0 + Seq::<ViolationV>::empty());
        while i < b.statements.len()
            invariant
                i <= b.statements.len(),
                views(out@) == v0 + call_stmts(self@, b.statements@.take(i as int)),
            decreases b.statements.len() - i,
        {
            proof {
                assert(decreases_to!(*b => b.statements));
                assert(decreases_to!(b.statements => b.statements@));
                assert(decreases_to!(b.statements@ => b.statements@[i as int]));
            }
            self.call_stmt(&b.statements[i], out);
            proof {
                let t = b.statements@.take(i + 1);
                assert(t.drop_last() == b.statements@.take(i as int));
                assert(t.last() == b.statements@[i as int]);
                lemma_add3(v0, call_stmts(self@, b.statements@.take(i as int)), call_stmt(self@, b.statements@[i as int]));
            }
            i += 1;
        }
        assert(b.statements@.take(i as int) == b.statements@);
    }

    fn call_stmt(&self, s: &Stmt, out: &mut Vec<Violation>)
        ensures
            views(final(out)@) == views(old(out)@) + call_stmt(self@, *s),
        decreases s, 0nat,
    {
        let ghost v0 = views(out@);
        match s {
            Stmt::ExpressionStmt(es) => {
                self.call_expr(&es.expr, out);
            },
            Stmt::VariableDeclarationStmt(vds) => {
                let mut i: usize = 0;
                assert(vds.declarations@.take(0) == Seq::<VarDeclarator>::empty());
                assert(views(out@) == v0 + Seq::<ViolationV>::empty());
                while i < vds.declarations.len()
                    invariant
                        i <= vds.declarations.len(),
                        views(out@) == v0 + call_decls(self@, vds.declarations@.take(i as int)),
                    decreases vds.declarations.len() - i,
                {
                    self.call_opt_expr(&vds.declarations[i].initializer, out);
                    proof {
                        let t = vds.declarations@.take(i + 1);
                        assert(t.drop_last() == vds.declarations@.take(i as int));
                        assert(t.last() == vds.declarations@[i as int]);
                        lemma_add3(v0, call_decls(self@, vds.declarations@.take(i as int)), call_opt_expr(self@, vds.declarations@[i as int].initializer));
                    }
                    i += 1;
                }
                assert(vds.declarations@.take(i as int) == vds.declarations@);
            },
            Stmt::IfStmt(is) => {
                self.call_expr(&is.condition, out);
                self.call_stmt(&is.then_stmt, out);
                proof {
                    lemma_add3(v0, call_expr(self@, is.condition), call_stmt(self@, *is.then_stmt));
                }
                let ghost a = call_expr(self@, is.condition) + call_stmt(self@, *is.then_stmt);
                match &is.else_stmt {
                    Some(e) => {
                        self.call_stmt(e, out);
                        proof {
                            lemma_add3(v0, a, call_stmt(self@, **e));
                        }
                    },
                    None => {
                        assert(a + Seq::<ViolationV>::empty() == a);
                    },
                }
            },
            Stmt::ForStmt(fs) => {
                self.call_opt_expr(&fs.initialization, out);
                self.call_opt_expr(&fs.condition, out);
                proof {
                    lemma_add3(v0, call_opt_expr(self@, fs.initialization), call_opt_expr(self@, fs.condition));
                }
                self.call_stmt(&fs.body, out);
                proof {
                    lemma_add3(v0, call_opt_expr(self@, fs.initialization) + call_opt_expr(self@, fs.condition), call_stmt(self@, *fs.body));
                }
            },
            Stmt::WhileStmt(ws) => {
                self.call_expr(&ws.condition, out);
                self.call_stmt(&ws.body, out);
                proof {
                    lemma_add3(v0, call_expr(self@, ws.condition), call_stmt(self@, *ws.body));
                }
            },
            Stmt::DoStmt(ds) => {
                self.call_stmt(&ds.body, out);
                self.call_expr(&ds.condition, out);
                proof {
                    lemma_add3(v0, call_stmt(self@, *ds.body), call_expr(self@, ds.condition));
                }
            },
            Stmt::TryStmt(ts) => {
                self.call_block(&ts.try_body, out);
                let ghost v1 = views(out@);
                let mut i: usize = 0;
                assert(ts.catch_clauses@.take(0) == Seq::<CatchClause>::empty());
                assert(views(out@) == v1 + Seq::<ViolationV>::empty());
                while i < ts.catch_clauses.len()
                    invariant
                        i <= ts.catch_clauses.len(),
                        *s == Stmt::TryStmt(*ts),
                        views(out@) == v1 + call_catches(self@, ts.catch_clauses@.take(i as int)),
                    decreases ts.catch_clauses.len() - i,
                {
                    proof {
                        assert(decreases_to!(*s => (*s)->TryStmt_0));
                        assert(decreases_to!(*ts => ts.catch_clauses));
                        assert(decreases_to!(ts.catch_clauses => ts.catch_clauses@));
                        assert(decreases_to!(ts.catch_clauses@ => ts.catch_clauses@[i as int]));
                        assert(decreases_to!(ts.catch_clauses@[i as int] => ts.catch_clauses@[i as int].body));
                    }
                    self.call_block(&ts.catch_clauses[i].body, out);
                    proof {
                        let t = ts.catch_clauses@.take(i + 1);
                        assert(t.drop_last() == ts.catch_clauses@.take(i as int));
                        assert(t.last() == ts.catch_clauses@[i as int]);
                        lemma_add3(v1, call_catches(self@, ts.catch_clauses@.take(i as int)), call_block(self@, ts.catch_clauses@[i as int].body));
                    }
                    i += 1;
                }
                assert(ts.catch_clauses@.take(i as int) == ts.catch_clauses@);
                proof {
                    lemma_add3(v0, call_block(self@, ts.try_body), call_catches(self@, ts.catch_clauses@));
                }
                let ghost a = call_block(self@, ts.try_body) + call_catches(self@, ts.catch_clauses@);
                match &ts.finally_body {
                    Some(f) => {
                        self.call_block(f, out);
                        proof {
                            lemma_add3(v0, a, call_block(self@, *f));
                        }
                    },
                    None => {
                        assert(a + Seq::<ViolationV>::empty() == a);
                    },
                }
            },
            Stmt::ReturnStmt(rs) => {
                self.call_opt_expr(&rs.expr, out);
            },
            Stmt::ThrowStmt(ts) => {
                self.call_expr(&ts.expr, out);
            },
            Stmt::BlockStmt(bs) => {
                self.call_block(bs, out);
            },
            Stmt::SwitchStmt(ss) => {
                self.call_expr(&ss.selector, out);
                let ghost v1 = views(out@);
                let mut c: usize = 0;
                assert(ss.cases@.take(0) == Seq::<SwitchCase>::empty());
                assert(views(out@) == v1 + Seq::<ViolationV>::empty());
                while c < ss.cases.len()
                    invariant
                        c <= ss.cases.len(),
                        *s == Stmt::SwitchStmt(*ss),
                        views(out@) == v1 + call_cases(self@, ss.cases@.take(c as int)),
                    decreases ss.cases.len() - c,
                {
                    let case = &ss.cases[c];
                    let ghost v2 = views(out@);
                    let mut k: usize = 0;
                    assert(case.statements@.take(0) == Seq::<Stmt>::empty());
                    assert(views(out@) == v2 + Seq::<ViolationV>::empty());
                    while k < case.statements.len()
                        invariant
                            k <= case.statements.len(),
                            *s == Stmt::SwitchStmt(*ss),
                            c < ss.cases.len(),
                            *case == ss.cases@[c as int],
                            views(out@) == v2 + call_stmts(self@, case.statements@.take(k as int)),
                        decreases case.statements.len() - k,
                    {
                        proof {
                            assert(decreases_to!(*s => (*s)->SwitchStmt_0));
                            assert(decreases_to!(*ss => ss.cases));
                            assert(decreases_to!(ss.cases => ss.cases@));
                            assert(decreases_to!(ss.cases@ => ss.cases@[c as int]));
                            assert(decreases_to!(ss.cases@[c as int] => ss.cases@[c as int].statements));
                            assert(decreases_to!(case.statements => case.statements@));
                            assert(decreases_to!(case.statements@ => case.statements@[k as int]));
                        }
                        self.call_stmt(&case.statements[k], out);
                        proof {
                            let t = case.statements@.take(k + 1);
                            assert(t.drop_last() == case.statements@.take(k as int));
                            assert(t.last() == case.statements@[k as int]);
                            lemma_add3(v2, call_stmts(self@, case.statements@.take(k as int)), call_stmt(self@, case.statements@[k as int]));
                        }
                        k += 1;
                    }
                    assert(case.statements@.take(k as int) == case.statements@);
                    proof {
                        let t = ss.cases@.take(c + 1);
                        assert(t.drop_last() == ss.cases@.take(c as int));
                        assert(t.last() == ss.cases@[c as int]);
                        lemma_add3(v1, call_cases(self@, ss.cases@.take(c as int)), call_stmts(self@, case.statements@));
                    }
                    c += 1;
                }
                assert(ss.cases@.take(c as int) == ss.cases@);
                proof {
                    lemma_add3(v0, call_expr(self@, ss.selector), call_cases(self@, ss.cases@));
                }
            },
            Stmt::SynchronizedStmt(ss) => {
                self.call_expr(&ss.expr, out);
                self.call_block(&ss.body, out);
                proof {
                    lemma_add3(v0, call_expr(self@, ss.expr), call_block(self@, ss.body));
                }
            },
            _ => {
                assert(views(out@) == v0 + Seq::<ViolationV>::empty());
            },
        }
    }
}

/// The members of a type declaration.
pub open spec fn type_members(ty: TypeDecl) -> Seq<MemberDecl> {
    match ty {
        TypeDecl::ClassDeclaration(c) => c.members@,
        TypeDecl::InterfaceDeclaration(i) => i.members@,
        TypeDecl::EnumDeclaration(e) => e.members@,
        TypeDecl::AnnotationDeclaration(a) => a.members@,
    }
}

/// The annotations directly on a member (fields, methods, constructors).
pub open spec fn member_annotations(m: MemberDecl) -> Seq<Annotation> {
    match m {
        MemberDecl::FieldDeclaration(f) => f.annotations@,
        MemberDecl::MethodDeclaration(md) => md.annotations@,
        MemberDecl::ConstructorDeclaration(cd) => cd.annotations@,
        _ => seq![],
    }
}

/// Method-call matches in a member: method and constructor bodies, and
/// the members of nested classes.
pub open spec fn call_member(env: MatchEnv, m: MemberDecl) -> Seq<ViolationV>
    decreases m,
{
    match m {
        MemberDecl::MethodDeclaration(md) => match md.body {
            Some(b) => call_block(env, b),
            None => seq![],
        },
        MemberDecl::ConstructorDeclaration(cd) => match cd.body {
            Some(b) => call_block(env, b),
            None => seq![],
        },
        MemberDecl::ClassDeclaration(inner) => call_members(env, inner.members@),
        _ => seq![],
    }
}

/// Method-call matches in a list of members, in order.
pub open spec fn call_members(env: MatchEnv, ms: Seq<MemberDecl>) -> Seq<ViolationV>
    decreases ms,
{
    if ms.len() == 0 {
        seq![]
    } else {
        call_members(env, ms.drop_last()) + call_member(env, ms.last())
    }
}

/// The match of a class declaration.
pub open spec fn class_hit(env: MatchEnv, cd: ClassDecl) -> Seq<ViolationV> {
    hits(env, cd.line, decl_fields(class_info(cd), env.fields, class_ctx(cd)))
}

/// Class matches among members: each nested class, then its own nested
/// classes.
pub open spec fn class_members(env: MatchEnv, ms: Seq<MemberDecl>) -> Seq<ViolationV>
    decreases ms,
{
    if ms.len() == 0 {
        seq![]
    } else {
        class_members(env, ms.drop_last()) + match ms.last() {
            MemberDecl::ClassDeclaration(cd) => class_hit(env, cd) + class_members(env, cd.members@),
            _ => seq![],
        }
    }
}

/// Method-declaration matches among members, nested classes included.
pub open spec fn method_members(env: MatchEnv, ms: Seq<MemberDecl>) -> Seq<ViolationV>
    decreases ms,
{
    if ms.len() == 0 {
        seq![]
    } else {
        method_members(env, ms.drop_last()) + match ms.last() {
            MemberDecl::MethodDeclaration(md) => hits(
                env,
                md.line,
                decl_fields(method_info(md), env.fields, method_ctx(md)),
            ),
            MemberDecl::ClassDeclaration(cd) => method_members(env, cd.members@),
            _ => seq![],
        }
    }
}

/// Field-declaration matches among members, nested classes included.
pub open spec fn field_members(env: MatchEnv, ms: Seq<MemberDecl>) -> Seq<ViolationV>
    decreases ms,
{
    if ms.len() == 0 {
        seq![]
    } else {
        field_members(env, ms.drop_last()) + match ms.last() {
            MemberDecl::FieldDeclaration(fd) => hits(
                env,
                fd.line,
                decl_fields(field_info(fd), env.fields, field_ctx(fd)),
            ),
            MemberDecl::ClassDeclaration(cd) => field_members(env, cd.members@),
            _ => seq![],
        }
    }
}

/// Annotation matches in a list of annotations, in order.
pub open spec fn annotation_list(env: MatchEnv, anns: Seq<Annotation>) -> Seq<ViolationV>
    decreases anns.len(),
{
    if anns.len() == 0 {
        seq![]
    } else {
        let a = anns.last();
        annotation_list(env, anns.drop_last()) + hits(
            env,
            a.line,
            annotation_fields(a.name@, env.fields, seq![("name"@, a.name@)]),
        )
    }
}

/// Annotation matches among members: each member's own annotations, then,
/// for a nested class, the class's annotations and its members'.
pub open spec fn annotation_members(env: MatchEnv, ms: Seq<MemberDecl>) -> Seq<ViolationV>
    decreases ms,
{
    if ms.len() == 0 {
        seq![]
    } else {
        annotation_members(env, ms.drop_last()) + annotation_list(env, member_annotations(ms.last()))
            + match ms.last() {
            MemberDecl::ClassDeclaration(cd) => annotation_list(env, cd.annotations@)
                + annotation_members(env, cd.members@),
            _ => seq![],
        }
    }
}

/// Annotation matches of a type: its own annotations, then its members';
/// annotation types are not searched.
pub open spec fn type_annotations(env: MatchEnv, ty: TypeDecl) -> Seq<ViolationV> {
    match ty {
        TypeDecl::ClassDeclaration(c) => annotation_list(env, c.annotations@) + annotation_members(
            env,
            c.members@,
        ),
        TypeDecl::InterfaceDeclaration(i) => annotation_list(env, i.annotations@)
            + annotation_members(env, i.members@),
        TypeDecl::EnumDeclaration(e) => annotation_list(env, e.annotations@) + annotation_members(
            env,
            e.members@,
        ),
        TypeDecl::AnnotationDeclaration(_) => seq![],
    }
}

/// The matches of a pattern kind in one type declaration.
pub open spec fn type_matches(env: MatchEnv, kind: PatternKind, ty: TypeDecl) -> Seq<ViolationV> {
    match kind {
        PatternKind::MethodCall => call_members(env, type_members(ty)),
        PatternKind::Annotation => type_annotations(env, ty),
        PatternKind::ClassDeclaration => match ty {
            TypeDecl::ClassDeclaration(cd) => class_hit(env, cd) + class_members(env, cd.members@),
            _ => seq![],
        },
        PatternKind::MethodDeclaration => method_members(env, type_members(ty)),
        PatternKind::FieldDeclaration => field_members(env, type_members(ty)),
        PatternKind::Import => seq![],
    }
}

/// The matches of a pattern kind in a list of type declarations, in order.
pub open spec fn types_matches(env: MatchEnv, kind: PatternKind, tys: Seq<TypeDecl>) -> Seq<
    ViolationV,
>
    decreases tys.len(),
{
    if tys.len() == 0 {
        seq![]
    } else {
        types_matches(env, kind, tys.drop_last()) + type_matches(env, kind, tys.last())
    }
}

/// Import matches, in order.
pub open spec fn import_matches(env: MatchEnv, imps: Seq<ImportDecl>) -> Seq<ViolationV>
    decreases imps.len(),
{
    if imps.len() == 0 {
        seq![]
    } else {
        let imp = imps.last();
        import_matches(env, imps.drop_last()) + hits(env, imp.line, import_fields(imp, env.fields, seq![]))
    }
}

/// The violations a pattern of `kind` reports in a compilation unit.
pub open spec fn unit_matches(env: MatchEnv, kind: PatternKind, unit: CompilationUnit) -> Seq<
    ViolationV,
> {
    match kind {
        PatternKind::Import => import_matches(env, unit.imports@),
        _ => types_matches(env, kind, unit.types@),
    }
}

pub fn members_of(ty: &TypeDecl) -> (r: &Vec<MemberDecl>)
    ensures
        r@ == type_members(*ty),
{
    match ty {
        TypeDecl::ClassDeclaration(c) => &c.members,
        TypeDecl::InterfaceDeclaration(i) => &i.members,
        TypeDecl::EnumDeclaration(e) => &e.members,
        TypeDecl::AnnotationDeclaration(a) => &a.members,
    }
}

fn annotations_of(m: &MemberDecl) -> (r: Option<&Vec<Annotation>>)
    ensures
        match r {
            Some(a) => a@ == member_annotations(*m),
            None => member_annotations(*m) == Seq::<Annotation>::empty(),
        },
{
    match m {
        MemberDecl::FieldDeclaration(f) => Some(&f.annotations),
        MemberDecl::MethodDeclaration(md) => Some(&md.annotations),
        MemberDecl::ConstructorDeclaration(cd) => Some(&cd.annotations),
        _ => None,
    }
}

impl<'a> Matcher<'a> {
    fn call_member(&self, m: &MemberDecl, out: &mut Vec<Violation>)
        ensures
            views(final(out)@) == views(old(out)@) + call_member(self@, *m),
        decreases m,
    {
        let ghost v0 = views(out@);
        match m {
            MemberDecl::MethodDeclaration(md) => match &md.body {
                Some(b) => self.call_block(b, out),
                None => {
                    assert(views(out@) == v0 + Seq::<ViolationV>::empty());
                },
            },
            MemberDecl::ConstructorDeclaration(cd) => match &cd.body {
                Some(b) => self.call_block(b, out),
                None => {
                    assert(views(out@) == v0 + Seq::<ViolationV>::empty());
                },
            },
            MemberDecl::ClassDeclaration(inner) => {
                let mut i: usize = 0;
                assert(inner.members@.take(0) == Seq::<MemberDecl>::empty());
                assert(views(out@) == v0 + Seq::<ViolationV>::empty());
                while i < inner.members.len()
                    invariant
                        i <= inner.members.len(),
                        *m == MemberDecl::ClassDeclaration(*inner),
                        views(out@) == v0 + call_members(self@, inner.members@.take(i as int)),
                    decreases inner.members.len() - i,
                {
                    proof {
                        assert(decreases_to!(*m => (*m)->ClassDeclaration_0));
                        assert(decreases_to!(*inner => inner.members));
                        assert(decreases_to!(inner.members => inner.members@));
                        assert(decreases_to!(inner.members@ => inner.members@[i as int]));
                    }
                    self.call_member(&inner.members[i], out);
                    proof {
                        let t = inner.members@.take(i + 1);
                        assert(t.drop_last() == inner.members@.take(i as int));
                        assert(t.last() == inner.members@[i as int]);
                        lemma_add3(v0, call_members(self@, inner.members@.take(i as int)), call_member(self@, inner.members@[i as int]));
                    }
                    i += 1;
                }
                assert(inner.members@.take(i as int) == inner.members@);
            },
            _ => {
                assert(views(out@) == v0 + Seq::<ViolationV>::empty());
            },
        }
    }

    fn call_members(&self, ms: &Vec<MemberDecl>, out: &mut Vec<Violation>)
        ensures
            views(final(out)@) == views(old(out)@) + call_members(self@, ms@),
    {
        let ghost v0 = views(out@);
        let mut i: usize = 0;
        assert(ms@.take(0) == Seq::<MemberDecl>::empty());
        assert(views(out@) == v0 + Seq::<ViolationV>::empty());
        while i < ms.len()
            invariant
                i <= ms.len(),
                views(out@) == v0 + call_members(self@, ms@.take(i as int)),
            decreases ms.len() - i,
        {
            self.call_member(&ms[i], out);
            proof {
                let t = ms@.take(i + 1);
                assert(t.drop_last() == ms@.take(i as int));
                assert(t.last() == ms@[i as int]);
                lemma_add3(v0, call_members(self@, ms@.take(i as int)), call_member(self@, ms@[i as int]));
            }
            i += 1;
        }
        assert(ms@.take(i as int) == ms@);
    }

    fn class_members(&self, ms: &Vec<MemberDecl>, out: &mut Vec<Violation>)
        ensures
            views(final(out)@) == views(old(out)@) + class_members(self@, ms@),
        decreases ms,
    {
        let ghost v0 = views(out@);
        let mut i: usize = 0;
        assert(ms@.take(0) == Seq::<MemberDecl>::empty());
        assert(views(out@) == v0 + Seq::<ViolationV>::empty());
        while i < ms.len()
            invariant
                i <= ms.len(),
                views(out@) == v0 + class_members(self@, ms@.take(i as int)),
            decreases ms.len() - i,
        {
            let ghost a = views(out@);
            let ghost t = ms@.take(i + 1);
            assert(t.drop_last() == ms@.take(i as int));
            assert(t.last() == ms@[i as int]);
            match &ms[i] {
                MemberDecl::ClassDeclaration(cd) => {
                    let m = match_fields_class(cd, self.fields);
                    self.report(out, cd.line, m);
                    proof {
                        assert(decreases_to!(*ms => ms@));
                        assert(decreases_to!(ms@ => ms@[i as int]));
                        assert(decreases_to!(ms@[i as int] => (ms@[i as int])->ClassDeclaration_0));
                        assert(decreases_to!(*cd => cd.members));
                    }
                    self.class_members(&cd.members, out);
                    proof {
                        lemma_add3(a, class_hit(self@, *cd), class_members(self@, cd.members@));
                        lemma_add3(v0, class_members(self@, ms@.take(i as int)), class_hit(self@, *cd) + class_members(self@, cd.members@));
                    }
                },
                _ => {
                    assert(views(out@) == a + Seq::<ViolationV>::empty());
                    proof {
                        lemma_add3(v0, class_members(self@, ms@.take(i as int)), Seq::<ViolationV>::empty());
                    }
                },
            }
            i += 1;
        }
        assert(ms@.take(i as int) == ms@);
    }

    fn method_members(&self, ms: &Vec<MemberDecl>, out: &mut Vec<Violation>)
        ensures
            views(final(out)@) == views(old(out)@) + method_members(self@, ms@),
        decreases ms,
    {
        let ghost v0 = views(out@);
        let mut i: usize = 0;
        assert(ms@.take(0) == Seq::<MemberDecl>::empty());
        assert(views(out@) == v0 + Seq::<ViolationV>::empty());
        while i < ms.len()
            invariant
                i <= ms.len(),
                views(out@) == v0 + method_members(self@, ms@.take(i as int)),
            decreases ms.len() - i,
        {
            let ghost a = views(out@);
            let ghost t = ms@.take(i + 1);
            assert(t.drop_last() == ms@.take(i as int));
            assert(t.last() == ms@[i as int]);
            match &ms[i] {
                MemberDecl::MethodDeclaration(md) => {
                    let m = match_fields_method_decl(md, self.fields);
                    self.report(out, md.line, m);
                    proof {
                        lemma_add3(v0, method_members(self@, ms@.take(i as int)), hits(self@, md.line, decl_fields(method_info(*md), self@.fields, method_ctx(*md))));
                    }
                },
                MemberDecl::ClassDeclaration(cd) => {
                    proof {
                        assert(decreases_to!(*ms => ms@));
                        assert(decreases_to!(ms@ => ms@[i as int]));
                        assert(decreases_to!(ms@[i as int] => (ms@[i as int])->ClassDeclaration_0));
                        assert(decreases_to!(*cd => cd.members));
                    }
                    self.method_members(&cd.members, out);
                    proof {
                        lemma_add3(v0, method_members(self@, ms@.take(i as int)), method_members(self@, cd.members@));
                    }
                },
                _ => {
                    assert(views(out@) == a + Seq::<ViolationV>::empty());
                    proof {
                        lemma_add3(v0, method_members(self@, ms@.take(i as int)), Seq::<ViolationV>::empty());
                    }
                },
            }
            i += 1;
        }
        assert(ms@.take(i as int) == ms@);
    }

    fn field_members(&self, ms: &Vec<MemberDecl>, out: &mut Vec<Violation>)
        ensures
            views(final(out)@) == views(old(out)@) + field_members(self@, ms@),
        decreases ms,
    {
        let ghost v0 = views(out@);
        let mut i: usize = 0;
        assert(ms@.take(0) == Seq::<MemberDecl>::empty());
        assert(views(out@) == v0 + Seq::<ViolationV>::empty());
        while i < ms.len()
            invariant
                i <= ms.len(),
                views(out@) == v0 + field_members(self@, ms@.take(i as int)),
            decreases ms.len() - i,
        {
            let ghost a = views(out@);
            let ghost t = ms@.take(i + 1);
            assert(t.drop_last() == ms@.take(i as int));
            assert(t.last() == ms@[i as int]);
            match &ms[i] {
                MemberDecl::FieldDeclaration(fd) => {
                    let m = match_fields_field_decl(fd, self.fields);
                    self.report(out, fd.line, m);
                    proof {
                        lemma_add3(v0, field_members(self@, ms@.take(i as int)), hits(self@, fd.line, decl_fields(field_info(*fd), self@.fields, field_ctx(*fd))));
                    }
                },
                MemberDecl::ClassDeclaration(cd) => {
                    proof {
                        assert(decreases_to!(*ms => ms@));
                        assert(decreases_to!(ms@ => ms@[i as int]));
                        assert(decreases_to!(ms@[i as int] => (ms@[i as int])->ClassDeclaration_0));
                        assert(decreases_to!(*cd => cd.members));
                    }
                    self.field_members(&cd.members, out);
                    proof {
                        lemma_add3(v0, field_members(self@, ms@.take(i as int)), field_members(self@, cd.members@));
                    }
                },
                _ => {
                    assert(views(out@) == a + Seq::<ViolationV>::empty());
                    proof {
                        lemma_add3(v0, field_members(self@, ms@.take(i as int)), Seq::<ViolationV>::empty());
                    }
                },
            }
            i += 1;
        }
        assert(ms@.take(i as int) == ms@);
    }

    fn annotation_list(&self, anns: &Vec<Annotation>, out: &mut Vec<Violation>)
        ensures
            views(final(out)@) == views(old(out)@) + annotation_list(self@, anns@),
    {
        let ghost v0 = views(out@);
        let mut i: usize = 0;
        assert(anns@.take(0) == Seq::<Annotation>::empty());
        assert(views(out@) == v0 + Seq::<ViolationV>::empty());
        while i < anns.len()
            invariant
                i <= anns.len(),
                views(out@) == v0 + annotation_list(self@, anns@.take(i as int)),
            decreases anns.len() - i,
        {
            let a = &anns[i];
            let m = match_fields_annotation(a, self.fields);
            self.report(out, a.line, m);
            proof {
                let t = anns@.take(i + 1);
                assert(t.drop_last() == anns@.take(i as int));
                assert(t.last() == anns@[i as int]);
                lemma_add3(v0, annotation_list(self@, anns@.take(i as int)), hits(self@, a.line, annotation_fields(a.name@, self@.fields, seq![("name"@, a.name@)])));
            }
            i += 1;
        }
        assert(anns@.take(i as int) == anns@);
    }

    fn annotation_members(&self, ms: &Vec<MemberDecl>, out: &mut Vec<Violation>)
        ensures
            views(final(out)@) == views(old(out)@) + annotation_members(self@, ms@),
        decreases ms,
    {
        let ghost v0 = views(out@);
        let mut i: usize = 0;
        assert(ms@.take(0) == Seq::<MemberDecl>::empty());
        assert(views(out@) == v0 + Seq::<ViolationV>::empty());
        while i < ms.len()
            invariant
                i <= ms.len(),
                views(out@) == v0 + annotation_members(self@, ms@.take(i as int)),
            decreases ms.len() - i,
        {
            let ghost t = ms@.take(i + 1);
            assert(t.drop_last() == ms@.take(i as int));
            assert(t.last() == ms@[i as int]);
            let m = &ms[i];
            let ghost own = annotation_list(self@, member_annotations(*m));
            match annotations_of(m) {
                Some(anns) => self.annotation_list(anns, out),
                None => {
                    assert(annotation_list(self@, Seq::<Annotation>::empty()) == Seq::<ViolationV>::empty());
                    assert(views(out@) == views(out@) + own);
                },
            }
            proof {
                lemma_add3(v0, annotation_members(self@, ms@.take(i as int)), own);
            }
            let ghost a = views(out@);
            let ghost base = annotation_members(self@, ms@.take(i as int)) + own;
            match m {
                MemberDecl::ClassDeclaration(cd) => {
                    self.annotation_list(&cd.annotations, out);
                    proof {
                        assert(decreases_to!(*ms => ms@));
                        assert(decreases_to!(ms@ => ms@[i as int]));
                        assert(decreases_to!(ms@[i as int] => (ms@[i as int])->ClassDeclaration_0));
                        assert(decreases_to!(*cd => cd.members));
                    }
                    self.annotation_members(&cd.members, out);
                    proof {
                        lemma_add3(a, annotation_list(self@, cd.annotations@), annotation_members(self@, cd.members@));
                        lemma_add3(v0, base, annotation_list(self@, cd.annotations@) + annotation_members(self@, cd.members@));
                    }
                },
                _ => {
                    assert(views(out@) == a + Seq::<ViolationV>::empty());
                    proof {
                        lemma_add3(v0, base, Seq::<ViolationV>::empty());
                    }
                },
            }
            i += 1;
        }
        assert(ms@.take(i as int) == ms@);
    }

    fn type_matches(&self, kind: PatternKind, ty: &TypeDecl, out: &mut Vec<Violation>)
        ensures
            views(final(out)@) == views(old(out)@) + type_matches(self@, kind, *ty),
    {
        let ghost v0 = views(out@);
        match kind {
            PatternKind::MethodCall => self.call_members(members_of(ty), out),
            PatternKind::Annotation => match ty {
                TypeDecl::ClassDeclaration(c) => {
                    self.annotation_list(&c.annotations, out);
                    self.annotation_members(&c.members, out);
                    proof {
                        lemma_add3(v0, annotation_list(self@, c.annotations@), annotation_members(self@, c.members@));
                    }
                },
                TypeDecl::InterfaceDeclaration(c) => {
                    self.annotation_list(&c.annotations, out);
                    self.annotation_members(&c.members, out);
                    proof {
                        lemma_add3(v0, annotation_list(self@, c.annotations@), annotation_members(self@, c.members@));
                    }
                },
                TypeDecl::EnumDeclaration(c) => {
                    self.annotation_list(&c.annotations, out);
                    self.annotation_members(&c.members, out);
                    proof {
                        lemma_add3(v0, annotation_list(self@, c.annotations@), annotation_members(self@, c.members@));
                    }
                },
                TypeDecl::AnnotationDeclaration(_) => {
                    assert(views(out@) == v0 + Seq::<ViolationV>::empty());
                },
            },
            PatternKind::ClassDeclaration => match ty {
                TypeDecl::ClassDeclaration(cd) => {
                    let m = match_fields_class(cd, self.fields);
                    self.report(out, cd.line, m);
                    self.class_members(&cd.members, out);
                    proof {
                        lemma_add3(v0, class_hit(self@, *cd), class_members(self@, cd.members@));
                    }
                },
                _ => {
                    assert(views(out@) == v0 + Seq::<ViolationV>::empty());
                },
            },
            PatternKind::MethodDeclaration => self.method_members(members_of(ty), out),
            PatternKind::FieldDeclaration => self.field_members(members_of(ty), out),
            PatternKind::Import => {
                assert(views(out@) == v0 + Seq::<ViolationV>::empty());
            },
        }
    }
}

/// The violations a pattern reports in a compilation unit, in the order
/// the unit is walked; each message is the rule's template with the
/// matched node's fields and `{line}` filled in.
pub fn match_pattern(
    pattern: &Pattern,
    unit: &CompilationUnit,
    file: &str,
    rule_id: &str,
    severity: Severity,
    message: &str,
) -> (r: Vec<Violation>)
    ensures
        views(r@) == unit_matches(
            MatchEnv {
                file: file@,
                rule_id: rule_id@,
                severity,
                message: message@,
                fields: field_views(pattern.match_fields@),
            },
            pattern.kind,
            *unit,
        ),
{
    let m = Matcher {
        fields: pattern.match_fields.as_slice(),
        file,
        rule_id,
        severity,
        message,
    };
    let mut out: Vec<Violation> = Vec::new();
    assert(views(out@) == Seq::<ViolationV>::empty());
    match pattern.kind {
        PatternKind::Import => {
            let mut i: usize = 0;
            assert(unit.imports@.take(0) == Seq::<ImportDecl>::empty());
            while i < unit.imports.len()
                invariant
                    i <= unit.imports.len(),
                    views(out@) == import_matches(m@, unit.imports@.take(i as int)),
                decreases unit.imports.len() - i,
            {
                let imp = &unit.imports[i];
                let ctx = match_fields_import(imp, m.fields);
                m.report(&mut out, imp.line, ctx);
                proof {
                    let t = unit.imports@.take(i + 1);
                    assert(t.drop_last() == unit.imports@.take(i as int));
                    assert(t.last() == unit.imports@[i as int]);
                }
                i += 1;
            }
            assert(unit.imports@.take(i as int) == unit.imports@);
        },
        _ => {
            let mut i: usize = 0;
            assert(unit.types@.take(0) == Seq::<TypeDecl>::empty());
            while i < unit.types.len()
                invariant
                    i <= unit.types.len(),
                    views(out@) == types_matches(m@, pattern.kind, unit.types@.take(i as int)),
                decreases unit.types.len() - i,
            {
                m.type_matches(pattern.kind, &unit.types[i], &mut out);
                proof {
                    let t = unit.types@.take(i + 1);
                    assert(t.drop_last() == unit.types@.take(i as int));
                    assert(t.last() == unit.types@[i as int]);
                }
                i += 1;
            }
            assert(unit.types@.take(i as int) == unit.types@);
        },
    }
    out
}

} // verus!
