//! Declarative YAML rules: the pattern model and the load-time checks of a
//! rule definition.

use vstd::prelude::*;
use crate::rule::{
    passes_before, seq_order, severity_key, severity_named, RuleId, Severity, SpanPolicy,
};
use crate::text::{append_str, str_eq};

verus! {

broadcast use vstd::string::group_string_axioms;

#[verifier::external_type_specification]
#[verifier::external_body]
pub struct ExYamlValue(serde_yaml::Value);

/// The expected value of one matched field.
///
/// - `Single`: one value (exact, glob with `*`, or regular expression);
/// - `Any`: alternatives, any of which may match.
#[derive(Debug, Clone, PartialEq)]
pub enum MatchValue {
    Single(String),
    Any(Vec<String>),
}

/// Abstract value of a [`MatchValue`].
pub enum MatchValueV {
    Single(Seq<char>),
    Any(Seq<Seq<char>>),
}

/// The character sequences of a list of strings.
pub open spec fn string_views(s: Seq<String>) -> Seq<Seq<char>> {
    s.map_values(|x: String| x@)
}

impl View for MatchValue {
    type V = MatchValueV;

    open spec fn view(&self) -> MatchValueV {
        match self {
            MatchValue::Single(s) => MatchValueV::Single(s@),
            MatchValue::Any(l) => MatchValueV::Any(string_views(l@)),
        }
    }
}

/// The text a boolean field is read from: the value, or the first
/// alternative.
pub open spec fn match_value_text(v: MatchValueV) -> Option<Seq<char>> {
    match v {
        MatchValueV::Single(s) => Some(s),
        MatchValueV::Any(l) => if l.len() > 0 {
            Some(l[0])
        } else {
            None
        },
    }
}

impl MatchValue {
    /// The text of a boolean field: the value, or the first alternative.
    pub fn as_str(&self) -> (r: Option<&str>)
        ensures
            match r {
                Some(s) => match_value_text(self@) == Some(s@),
                None => match_value_text(self@) is None,
            },
    {
        match self {
            MatchValue::Single(s) => Some(s.as_str()),
            MatchValue::Any(l) => {
                if l.len() > 0 {
                    Some(l[0].as_str())
                } else {
                    None
                }
            },
        }
    }
}

/// The node kinds a pattern can match.
#[derive(Debug, Clone, Copy, PartialEq, Eq, Structural)]
pub enum PatternKind {
    MethodCall,
    Import,
    Annotation,
    ClassDeclaration,
    MethodDeclaration,
    FieldDeclaration,
}

/// A pattern: the node kind and the conditions on its fields, one entry
/// per field name, in name order.
#[derive(Debug, Clone)]
pub struct Pattern {
    pub kind: PatternKind,
    pub match_fields: Vec<(String, MatchValue)>,
}

/// The abstract value of a list of field conditions.
pub open spec fn field_views(s: Seq<(String, MatchValue)>) -> Seq<(Seq<char>, MatchValueV)> {
    s.map_values(|e: (String, MatchValue)| (e.0@, e.1@))
}

/// `s` with the condition `v` on field `k` set: an existing entry is
/// replaced; a new field goes before the first name that orders after it.
pub open spec fn put_field(s: Seq<(Seq<char>, MatchValueV)>, k: Seq<char>, v: MatchValueV) -> Seq<
    (Seq<char>, MatchValueV),
>
    decreases s.len(),
{
    if s.len() == 0 {
        seq![(k, v)]
    } else if s[0].0 == k {
        s.update(0, (k, v))
    } else if seq_order(s[0].0, k) > 0 {
        seq![(k, v)] + s
    } else {
        seq![s[0]] + put_field(s.drop_first(), k, v)
    }
}

/// The conditions that a list of `(field, value)` entries sets, later
/// entries for a field replacing earlier ones.
pub open spec fn field_map(fs: Seq<(Seq<char>, MatchValueV)>) -> Seq<(Seq<char>, MatchValueV)>
    decreases fs.len(),
{
    if fs.len() == 0 {
        seq![]
    } else {
        put_field(field_map(fs.drop_last()), fs.last().0, fs.last().1)
    }
}

proof fn lemma_put_field_at(s: Seq<(Seq<char>, MatchValueV)>, k: Seq<char>, v: MatchValueV, j: int)
    requires
        0 <= j <= s.len(),
        forall|m: int| 0 <= m < j ==> (#[trigger] s[m]).0 != k && seq_order(s[m].0, k) <= 0,
    ensures
        put_field(s, k, v) == s.take(j) + put_field(s.skip(j), k, v),
    decreases j,
{
    if j == 0 {
        assert(s.skip(0) == s);
        assert(s.take(0) + put_field(s, k, v) == put_field(s, k, v));
    } else {
        let d = s.drop_first();
        assert forall|m: int| 0 <= m < j - 1 implies (#[trigger] d[m]).0 != k && seq_order(
            d[m].0,
            k,
        ) <= 0 by {
            assert(d[m] == s[m + 1]);
        }
        lemma_put_field_at(d, k, v, j - 1);
        assert(s[0].0 != k && seq_order(s[0].0, k) <= 0);
        assert(d.skip(j - 1) == s.skip(j));
        assert(seq![s[0]] + d.take(j - 1) == s.take(j));
        assert(seq![s[0]] + (d.take(j - 1) + put_field(s.skip(j), k, v)) == s.take(j) + put_field(
            s.skip(j),
            k,
            v,
        ));
    }
}

impl Pattern {
    /// A pattern of `kind` with the given field conditions, one per field
    /// name in name order; a later entry for a field replaces an earlier one.
    pub fn new(kind: PatternKind, fields: Vec<(String, MatchValue)>) -> (r: Pattern)
        ensures
            r.kind == kind,
            field_views(r.match_fields@) == field_map(field_views(fields@)),
    {
        let ghost fs = field_views(fields@);
        let ghost orig = fields@;
        let mut fields = fields;
        let mut res: Vec<(String, MatchValue)> = Vec::new();
        let mut i: usize = 0;
        let n = fields.len();
        assert(fs.take(0) == Seq::<(Seq<char>, MatchValueV)>::empty());
        while fields.len() > 0
            invariant
                i + fields.len() == n == orig.len(),
                fs == field_views(orig),
                fields@ == orig.skip(i as int),
                field_views(res@) == field_map(fs.take(i as int)),
            decreases fields.len(),
        {
            let (k, v) = fields.remove(0);
            assert(orig[i as int] == (k, v));
            let kc = crate::text::chars_of(k.as_str());
            let ghost t = field_views(res@);
            let mut j: usize = 0;
            while j < res.len() && passes_before(&res[j].0, kc.as_slice())
                invariant
                    j <= res.len(),
                    t == field_views(res@),
                    kc@ == k@,
                    forall|m: int| 0 <= m < j ==> (#[trigger] t[m]).0 != k@ && seq_order(t[m].0, k@) <= 0,
                decreases res.len() - j,
            {
                j += 1;
            }
            proof {
                lemma_put_field_at(t, k@, v@, j as int);
                assert(fs.take(i + 1).drop_last() == fs.take(i as int));
                assert(fs.take(i + 1).last() == (k@, v@));
            }
            if j < res.len() && res[j].0 == k {
                assert(t.skip(j as int)[0] == t[j as int]);
                let ghost e = (k@, v@);
                res.set(j, (k, v));
                assert(field_views(res@) == t.update(j as int, e));
                assert(t.skip(j as int).update(0, e) == t.update(j as int, e).skip(j as int));
                assert(t.take(j as int) + t.update(j as int, e).skip(j as int) == t.update(j as int, e));
            } else {
                proof {
                    if j < res.len() {
                        assert(t.skip(j as int)[0] == t[j as int]);
                    }
                }
                let ghost e = (k@, v@);
                res.insert(j, (k, v));
                assert(field_views(res@) == t.insert(j as int, e));
                assert(t.take(j as int) + (seq![e] + t.skip(j as int)) == t.insert(j as int, e));
                proof {
                    if j == t.len() {
                        assert(t.skip(j as int) == Seq::<(Seq<char>, MatchValueV)>::empty());
                        assert(seq![e] + t.skip(j as int) == seq![e]);
                    }
                }
            }
            i += 1;
            assert(fields@ == orig.skip(i as int));
        }
        assert(fs.take(i as int) == fs);
        Pattern { kind, match_fields: res }
    }

    /// The condition on field `key`, if the pattern has one.
    pub fn get(&self, key: &str) -> (r: Option<&MatchValue>)
        ensures
            r matches Some(v) ==> exists|i: int|
                0 <= i < self.match_fields@.len() && (#[trigger] self.match_fields@[i]).0@ == key@
                    && self.match_fields@[i].1 == *v,
            r is None ==> forall|i: int|
                0 <= i < self.match_fields@.len() ==> (#[trigger] self.match_fields@[i]).0@ != key@,
    {
        let mut i: usize = 0;
        while i < self.match_fields.len()
            invariant
                i <= self.match_fields.len(),
                forall|m: int| 0 <= m < i ==> (#[trigger] self.match_fields@[m]).0@ != key@,
            decreases self.match_fields.len() - i,
        {
            if str_eq(self.match_fields[i].0.as_str(), key) {
                return Some(&self.match_fields[i].1);
            }
            i += 1;
        }
        None
    }
}

/// The field names a pattern kind can match on.
pub open spec fn allowed_keys(kind: PatternKind) -> Seq<Seq<char>> {
    match kind {
        PatternKind::MethodCall => seq!["callee"@, "method"@, "method_name"@],
        PatternKind::Import => seq!["package"@, "is_wildcard"@, "is_static"@],
        PatternKind::Annotation => seq!["name"@, "type"@],
        PatternKind::ClassDeclaration => seq!["name"@, "modifier"@, "modifiers"@],
        PatternKind::MethodDeclaration => seq!["name"@, "return_type"@, "modifier"@, "modifiers"@],
        PatternKind::FieldDeclaration => seq![
            "name"@,
            "field_type"@,
            "type"@,
            "modifier"@,
            "modifiers"@,
        ],
    }
}

/// The field names a pattern kind can match on; the matcher ignores others.
pub fn allowed_match_fields(kind: PatternKind) -> (r: Vec<&'static str>)
    ensures
        r@.map_values(|s: &str| s@) == allowed_keys(kind),
{
    let r = match kind {
        PatternKind::MethodCall => vec!["callee", "method", "method_name"],
        PatternKind::Import => vec!["package", "is_wildcard", "is_static"],
        PatternKind::Annotation => vec!["name", "type"],
        PatternKind::ClassDeclaration => vec!["name", "modifier", "modifiers"],
        PatternKind::MethodDeclaration => vec!["name", "return_type", "modifier", "modifiers"],
        PatternKind::FieldDeclaration => vec!["name", "field_type", "type", "modifier", "modifiers"],
    };
    assert(r@.map_values(|s: &str| s@) =~= allowed_keys(kind));
    r
}

/// The name of a pattern kind.
pub open spec fn kind_name(kind: PatternKind) -> Seq<char> {
    match kind {
        PatternKind::MethodCall => "MethodCall"@,
        PatternKind::Import => "Import"@,
        PatternKind::Annotation => "Annotation"@,
        PatternKind::ClassDeclaration => "ClassDeclaration"@,
        PatternKind::MethodDeclaration => "MethodDeclaration"@,
        PatternKind::FieldDeclaration => "FieldDeclaration"@,
    }
}

/// The allowed field names of a kind, written as a bracketed list of
/// quoted names.
pub open spec fn allowed_list_text(kind: PatternKind) -> Seq<char> {
    match kind {
        PatternKind::MethodCall => "[\"callee\", \"method\", \"method_name\"]"@,
        PatternKind::Import => "[\"package\", \"is_wildcard\", \"is_static\"]"@,
        PatternKind::Annotation => "[\"name\", \"type\"]"@,
        PatternKind::ClassDeclaration => "[\"name\", \"modifier\", \"modifiers\"]"@,
        PatternKind::MethodDeclaration => "[\"name\", \"return_type\", \"modifier\", \"modifiers\"]"@,
        PatternKind::FieldDeclaration => "[\"name\", \"field_type\", \"type\", \"modifier\", \"modifiers\"]"@,
    }
}

impl PatternKind {
    /// The name of this kind.
    pub fn name(&self) -> (r: &'static str)
        ensures
            r@ == kind_name(*self),
    {
        match self {
            PatternKind::MethodCall => "MethodCall",
            PatternKind::Import => "Import",
            PatternKind::Annotation => "Annotation",
            PatternKind::ClassDeclaration => "ClassDeclaration",
            PatternKind::MethodDeclaration => "MethodDeclaration",
            PatternKind::FieldDeclaration => "FieldDeclaration",
        }
    }

    fn allowed_list(&self) -> (r: &'static str)
        ensures
            r@ == allowed_list_text(*self),
    {
        match self {
            PatternKind::MethodCall => "[\"callee\", \"method\", \"method_name\"]",
            PatternKind::Import => "[\"package\", \"is_wildcard\", \"is_static\"]",
            PatternKind::Annotation => "[\"name\", \"type\"]",
            PatternKind::ClassDeclaration => "[\"name\", \"modifier\", \"modifiers\"]",
            PatternKind::MethodDeclaration => "[\"name\", \"return_type\", \"modifier\", \"modifiers\"]",
            PatternKind::FieldDeclaration => "[\"name\", \"field_type\", \"type\", \"modifier\", \"modifiers\"]",
        }
    }
}

/// A declarative YAML rule.
#[derive(Debug)]
pub struct YamlRule {
    /// Rule id (such as `"J001"`).
    pub id: String,
    /// Title.
    pub title: String,
    /// Severity name: info, minor, major or critical.
    pub severity: String,
    /// Category (code-smell, bug, security, style).
    pub category: String,
    /// What to match.
    pub pattern: Pattern,
    /// Message template; `{name}`-style placeholders are filled in.
    pub message: String,
    /// Whether the rule is on by default.
    pub enabled: bool,
    /// Rule parameters (unused by YAML rules).
    pub params: serde_yaml::Value,
    /// How violations meet a git diff.
    pub span_policy: SpanPolicy,
}

/// The error for a field name a kind does not allow.
pub open spec fn unknown_key_error(key: Seq<char>, kind: PatternKind) -> Seq<char> {
    "unknown match_fields key `"@ + key + "` (allowed for "@ + kind_name(kind) + ": "@
        + allowed_list_text(kind) + ")"@
}

/// The errors for the field names of `fs` that `kind` does not allow, in order.
pub open spec fn unknown_key_errors(fs: Seq<(Seq<char>, MatchValueV)>, kind: PatternKind) -> Seq<
    Seq<char>,
>
    decreases fs.len(),
{
    if fs.len() == 0 {
        seq![]
    } else {
        let prev = unknown_key_errors(fs.drop_last(), kind);
        if allowed_keys(kind).contains(fs.last().0) {
            prev
        } else {
            prev.push(unknown_key_error(fs.last().0, kind))
        }
    }
}

/// All load-time errors of a rule: unknown field names, then an invalid
/// severity name.
pub open spec fn rule_errors(
    fs: Seq<(Seq<char>, MatchValueV)>,
    kind: PatternKind,
    severity: Seq<char>,
) -> Seq<Seq<char>> {
    let e = unknown_key_errors(fs, kind);
    if severity_named(severity_key(severity)) is None {
        e.push("invalid severity `"@ + severity + "`"@)
    } else {
        e
    }
}

impl YamlRule {
    /// The rule's id.
    pub fn rule_id(&self) -> (r: RuleId)
        ensures
            r.0@ == self.id@,
    {
        RuleId(self.id.clone())
    }

    /// The rule's severity; `Minor` where the name is not a severity.
    pub fn severity(&self) -> (r: Severity)
        ensures
            r == match severity_named(severity_key(self.severity@)) {
                Some(s) => s,
                None => Severity::Minor,
            },
    {
        match Severity::parse_name(self.severity.as_str()) {
            Ok(s) => s,
            Err(_) => Severity::Minor,
        }
    }

    /// Checks the definition: every field name must be allowed for the
    /// pattern kind, and the severity must be a severity name.
    pub fn validate(&self) -> (r: Result<(), Vec<String>>)
        ensures
            match r {
                Ok(()) => rule_errors(
                    field_views(self.pattern.match_fields@),
                    self.pattern.kind,
                    self.severity@,
                ).len() == 0,
                Err(es) => es@.len() > 0 && string_views(es@) == rule_errors(
                    field_views(self.pattern.match_fields@),
                    self.pattern.kind,
                    self.severity@,
                ),
            },
    {
        let kind = self.pattern.kind;
        let ghost fs = field_views(self.pattern.match_fields@);
        let allowed = allowed_match_fields(kind);
        let mut errors: Vec<String> = Vec::new();
        let mut i: usize = 0;
        assert(fs.take(0) == Seq::<(Seq<char>, MatchValueV)>::empty());
        while i < self.pattern.match_fields.len()
            invariant
                i <= self.pattern.match_fields.len(),
                fs == field_views(self.pattern.match_fields@),
                allowed@.map_values(|s: &str| s@) == allowed_keys(kind),
                kind == self.pattern.kind,
                string_views(errors@) == unknown_key_errors(fs.take(i as int), kind),
            decreases self.pattern.match_fields.len() - i,
        {
            let key = &self.pattern.match_fields[i].0;
            assert(fs[i as int].0 == key@);
            let mut found = false;
            let mut j: usize = 0;
            while j < allowed.len()
                invariant
                    j <= allowed.len(),
                    allowed@.map_values(|s: &str| s@) == allowed_keys(kind),
                    found == (exists|m: int| 0 <= m < j && allowed_keys(kind)[m] == key@),
                decreases allowed.len() - j,
            {
                assert(allowed_keys(kind)[j as int] == allowed@[j as int]@);
                if str_eq(allowed[j], key.as_str()) {
                    found = true;
                }
                j += 1;
            }
            proof {
                assert(fs.take(i + 1).drop_last() == fs.take(i as int));
                assert(fs.take(i + 1).last() == fs[i as int]);
                if allowed_keys(kind).contains(key@) {
                    let m = choose|m: int| 0 <= m < allowed_keys(kind).len() && allowed_keys(kind)[m] == key@;
                    assert(found);
                }
            }
            if !found {
                let mut e = String::new();
                append_str(&mut e, "unknown match_fields key `");
                append_str(&mut e, key.as_str());
                append_str(&mut e, "` (allowed for ");
                append_str(&mut e, kind.name());
                append_str(&mut e, ": ");
                append_str(&mut e, kind.allowed_list());
                append_str(&mut e, ")");
                errors.push(e);
                assert(string_views(errors@) == string_views(errors@.drop_last()).push(e@));
            }
            i += 1;
        }
        assert(fs.take(i as int) == fs);
        if Severity::parse_name(self.severity.as_str()).is_err() {
            let mut e = String::new();
            append_str(&mut e, "invalid severity `");
            append_str(&mut e, self.severity.as_str());
            append_str(&mut e, "`");
            errors.push(e);
            assert(string_views(errors@) == string_views(errors@.drop_last()).push(e@));
        }
        if errors.len() == 0 {
            Ok(())
        } else {
            Err(errors)
        }
    }
}

} // verus!
