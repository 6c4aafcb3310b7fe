//! The decisions of a scan: which rules run, what each file's violations
//! are, which of them an incremental scan keeps, and the options that steer
//! it.

use vstd::prelude::*;
use crate::ast::CompilationUnit;
use crate::builtin::BuiltinRule;
use crate::git_diff::{FileDiff, LineFilter, LineMapper, ranges_allow};
use crate::baseline::{new_only, semantic_difference};
use crate::rule::{
    Rule, RuleId, Severity, SpanPolicy, Violation, ViolationV, views, severity_named, severity_key,
    severity_rank,
};
use crate::text::{
    append_str, chars_of, copy_range, find_from, find_sub, lemma_find_from_bounds,
    lemma_find_from_skip, str_eq, string_of, trim, trim_chars, has_prefix, starts_with,
    contains_seq,
};
use crate::rhai_rule::split_on;
use crate::yaml_adapter::{YamlRuleAdapter, report_file, yaml_severity};
use crate::yaml_rule::{field_views, string_views, YamlRule};
use crate::rhai_rule::RhaiRule;
use crate::matcher::{unit_matches, MatchEnv};

verus! {

broadcast use vstd::string::group_string_axioms;

#[verifier::external_type_specification]
#[verifier::external_body]
pub struct ExTomlValue(toml::Value);

/// One `[[rules]]` entry of a rules file.
#[derive(Debug)]
pub struct RuleEntry {
    /// Rule id, unique in the file.
    pub id: String,
    /// Rule name, for logs and listings.
    pub name: String,
    pub group: Option<String>,
    pub description: Option<String>,
    /// Script path (YAML or Rhai file) relative to the rules file, or
    /// `builtin:<id>` for a rule written in Rust.
    pub script_path: String,
    /// File kinds it applies to.
    pub applies_to: Vec<String>,
    /// Severity name.
    pub severity: String,
    pub enabled: bool,
    /// Parameters handed to a Rhai script.
    pub params: Option<toml::Value>,
}

/// A built-in rule whose severity and enabled flag come from a rules-file
/// entry.
pub struct BuiltinRuleOverride {
    inner: BuiltinRule,
    severity: String,
    enabled: bool,
}

impl BuiltinRuleOverride {
    /// Overrides `inner` by `entry`.
    pub fn new(inner: BuiltinRule, entry: &RuleEntry) -> (r: Self)
        ensures
            r.inner() == inner,
            r.severity_name() == entry.severity@,
            r.is_enabled() == entry.enabled,
    {
        BuiltinRuleOverride { inner, severity: entry.severity.clone(), enabled: entry.enabled }
    }

    /// The rule it overrides.
    pub closed spec fn inner(&self) -> BuiltinRule {
        self.inner
    }

    /// The severity name of the entry.
    pub closed spec fn severity_name(&self) -> Seq<char> {
        self.severity@
    }

    /// The entry's enabled flag.
    pub closed spec fn is_enabled(&self) -> bool {
        self.enabled
    }
}

/// A rule a scan runs (rules scripted in Rhai run beside these).
pub enum ScanRule {
    Builtin(BuiltinRule),
    Overridden(BuiltinRuleOverride),
    Yaml(YamlRuleAdapter),
}

/// Id of a scan rule.
pub open spec fn scan_id(r: ScanRule) -> Seq<char> {
    match r {
        ScanRule::Builtin(b) => b.id_spec(),
        ScanRule::Overridden(o) => o.inner().id_spec(),
        ScanRule::Yaml(y) => y.id_spec(),
    }
}

/// Whether a scan rule is enabled.
pub open spec fn scan_enabled(r: ScanRule) -> bool {
    match r {
        ScanRule::Builtin(_) => true,
        ScanRule::Overridden(o) => o.is_enabled(),
        ScanRule::Yaml(y) => y.rule().enabled,
    }
}

/// Severity of a scan rule; an override whose name is no severity keeps the
/// built-in one.
pub open spec fn scan_severity(r: ScanRule) -> Severity {
    match r {
        ScanRule::Builtin(_) => Severity::Major,
        ScanRule::Overridden(o) => match severity_named(severity_key(o.severity_name())) {
            Some(s) => s,
            None => Severity::Major,
        },
        ScanRule::Yaml(y) => yaml_severity(y.rule()),
    }
}

/// Span policy of a scan rule.
pub open spec fn scan_policy(r: ScanRule) -> SpanPolicy {
    match r {
        ScanRule::Builtin(b) => b.policy_spec(),
        ScanRule::Overridden(o) => o.inner().policy_spec(),
        ScanRule::Yaml(_) => SpanPolicy::Anchor,
    }
}

/// What a scan rule reports on a unit.
pub open spec fn scan_findings(r: ScanRule, unit: CompilationUnit) -> Seq<ViolationV> {
    match r {
        ScanRule::Builtin(b) => b.findings(&unit),
        ScanRule::Overridden(o) => o.inner().findings(&unit),
        ScanRule::Yaml(y) => unit_matches(
            MatchEnv {
                file: report_file(unit),
                rule_id: y.rule().id@,
                severity: yaml_severity(y.rule()),
                message: y.rule().message@,
                fields: field_views(y.rule().pattern.match_fields@),
            },
            y.rule().pattern.kind,
            unit,
        ),
    }
}

impl Rule<CompilationUnit> for ScanRule {
    fn id(&self) -> (r: &RuleId)
        ensures
            r.0@ == scan_id(*self),
    {
        match self {
            ScanRule::Builtin(b) => b.id(),
            ScanRule::Overridden(o) => o.inner.id(),
            ScanRule::Yaml(y) => y.id(),
        }
    }

    fn description(&self) -> (r: &str)
        ensures
            r@ == match *self {
                ScanRule::Builtin(b) => b.description_spec(),
                ScanRule::Overridden(o) => o.inner().description_spec(),
                ScanRule::Yaml(y) => y.rule().title@,
            },
    {
        match self {
            ScanRule::Builtin(b) => b.description(),
            ScanRule::Overridden(o) => o.inner.description(),
            ScanRule::Yaml(y) => y.description(),
        }
    }

    fn severity(&self) -> (r: Severity)
        ensures
            r == scan_severity(*self),
    {
        match self {
            ScanRule::Builtin(b) => b.severity(),
            ScanRule::Overridden(o) => match Severity::parse_name(o.severity.as_str()) {
                Ok(s) => s,
                Err(_) => o.inner.severity(),
            },
            ScanRule::Yaml(y) => y.severity(),
        }
    }

    fn enabled(&self) -> (r: bool)
        ensures
            r == scan_enabled(*self),
    {
        match self {
            ScanRule::Builtin(b) => b.enabled(),
            ScanRule::Overridden(o) => o.enabled,
            ScanRule::Yaml(y) => y.enabled(),
        }
    }

    fn check_unit(&self, unit: &CompilationUnit) -> (r: Vec<Violation>)
        ensures
            views(r@) == scan_findings(*self, *unit),
    {
        match self {
            ScanRule::Builtin(b) => b.check_unit(unit),
            ScanRule::Overridden(o) => o.inner.check_unit(unit),
            ScanRule::Yaml(y) => y.check_unit(unit),
        }
    }

    fn span_policy(&self) -> (r: SpanPolicy)
        ensures
            r == scan_policy(*self),
    {
        match self {
            ScanRule::Builtin(b) => b.span_policy(),
            ScanRule::Overridden(o) => o.inner.span_policy(),
            ScanRule::Yaml(_) => SpanPolicy::Anchor,
        }
    }
}

/// The violations of all enabled rules on a unit, rule after rule.
pub open spec fn rules_findings(rules: Seq<ScanRule>, unit: CompilationUnit) -> Seq<ViolationV>
    decreases rules.len(),
{
    if rules.len() == 0 {
        Seq::empty()
    } else {
        rules_findings(rules.drop_last(), unit) + if scan_enabled(rules.last()) {
            scan_findings(rules.last(), unit)
        } else {
            Seq::empty()
        }
    }
}

/// Runs every enabled rule on a unit and collects what they report, in
/// rule order.
pub fn run_rules(unit: &CompilationUnit, rules: &[ScanRule]) -> (r: Vec<Violation>)
    ensures
        views(r@) == rules_findings(rules@, *unit),
{
    let mut out: Vec<Violation> = Vec::new();
    let mut i: usize = 0;
    assert(rules@.take(0) == Seq::<ScanRule>::empty());
    while i < rules.len()
        invariant
            i <= rules.len(),
            views(out@) == rules_findings(rules@.take(i as int), *unit),
        decreases rules.len() - i,
    {
        let rule = &rules[i];
        assert(rules@.take(i + 1).drop_last() == rules@.take(i as int));
        assert(rules@.take(i + 1).last() == *rule);
        if rule.enabled() {
            let mut vs = rule.check_unit(unit);
            let ghost before = out@;
            out.append(&mut vs);
            assert(views(out@) == views(before) + scan_findings(*rule, *unit));
        } else {
            assert(views(out@) == views(out@) + Seq::<ViolationV>::empty());
        }
        i += 1;
    }
    assert(rules@.take(i as int) == rules@);
    out
}

/// The span policy of the first rule with id `id` at or after `i`; `Anchor`
/// where there is none.
pub open spec fn policy_from(rules: Seq<ScanRule>, id: Seq<char>, i: int) -> SpanPolicy
    decreases rules.len() - i,
{
    if i < 0 || i >= rules.len() {
        SpanPolicy::Anchor
    } else if scan_id(rules[i]) == id {
        scan_policy(rules[i])
    } else {
        policy_from(rules, id, i + 1)
    }
}

/// The span policy of the rule a violation belongs to (the first rule with
/// its id; `Anchor` where none has it).
pub fn rule_policy(v: &Violation, rules: &[ScanRule]) -> (r: SpanPolicy)
    ensures
        r == policy_from(rules@, v.rule_id.0@, 0),
{
    let mut i: usize = 0;
    while i < rules.len()
        invariant
            i <= rules.len(),
            policy_from(rules@, v.rule_id.0@, 0) == policy_from(rules@, v.rule_id.0@, i as int),
        decreases rules.len() - i,
    {
        let rule = &rules[i];
        if str_eq(rule.id().0.as_str(), v.rule_id.0.as_str()) {
            return rule.span_policy();
        }
        i += 1;
    }
    SpanPolicy::Anchor
}

/// The violations an incremental scan keeps: those the changed ranges of
/// `file` admit under their rule's span policy.
pub open spec fn changed_only(
    vs: Seq<ViolationV>,
    file: Seq<char>,
    m: Map<Seq<char>, Seq<crate::git_diff::LineRange>>,
    rules: Seq<ScanRule>,
) -> Seq<ViolationV>
    decreases vs.len(),
{
    if vs.len() == 0 {
        vs
    } else {
        let p = changed_only(vs.drop_last(), file, m, rules);
        let v = vs.last();
        let keep = match policy_from(rules, v.rule_id, 0) {
            SpanPolicy::Anchor => ranges_allow(m, file, v.line as usize, None),
            SpanPolicy::Intersect => ranges_allow(m, file, v.line as usize, v.end_line),
        };
        if keep {
            p.push(v)
        } else {
            p
        }
    }
}

/// Keeps the violations of `file` that touch its changed lines.
pub fn filter_changed(
    violations: Vec<Violation>,
    file: &str,
    filter: &LineFilter,
    rules: &[ScanRule],
) -> (r: Vec<Violation>)
    ensures
        views(r@) == changed_only(views(violations@), file@, filter@, rules@),
{
    let ghost vv = views(violations@);
    let mut out: Vec<Violation> = Vec::new();
    let mut k: usize = 0;
    assert(vv.take(0) == Seq::<ViolationV>::empty());
    while k < violations.len()
        invariant
            k <= violations.len(),
            vv == views(violations@),
            views(out@) == changed_only(vv.take(k as int), file@, filter@, rules@),
        decreases violations.len() - k,
    {
        let v = &violations[k];
        proof {
            assert(vv.take(k + 1).drop_last() == vv.take(k as int));
            assert(vv.take(k + 1).last() == v@);
            assert(v@.line as usize == v.line);
        }
        let policy = rule_policy(v, rules);
        if filter.allows_policy(file, v.line, v.end_line, policy) {
            out.push(v.clone());
        }
        k += 1;
    }
    assert(vv.take(k as int) == vv);
    out
}

/// Whether a file, by its path under the scan root, is one a diff touches
/// (compared with slashes).
pub fn changed_file(rel_path: &str, diffs: &[FileDiff]) -> (r: bool)
    ensures
        r == exists|i: int| 0 <= i < diffs.len() && #[trigger] diffs@[i].path@ == slashed(rel_path@),
{
    let rel = to_slashes(rel_path);
    let mut i: usize = 0;
    while i < diffs.len()
        invariant
            i <= diffs.len(),
            rel@ == slashed(rel_path@),
            forall|j: int| 0 <= j < i ==> #[trigger] diffs@[j].path@ != rel@,
        decreases diffs.len() - i,
    {
        if str_eq(diffs[i].path.as_str(), rel.as_str()) {
            return true;
        }
        i += 1;
    }
    false
}

/// What the findings of one file come to. In a semantic comparison (`old`
/// holds the findings of the old revision) they are the ones the old revision
/// does not account for, where a line mapper is at hand, and all of them
/// where not; otherwise, in an incremental scan, the ones on changed lines;
/// otherwise all of them.
pub fn narrow_findings(
    violations: Vec<Violation>,
    file: &str,
    old: Option<Vec<Violation>>,
    mapper: Option<&LineMapper>,
    filter: &LineFilter,
    rules: &[ScanRule],
) -> (r: Vec<Violation>)
    ensures
        views(r@) == match old {
            Some(o) => match mapper {
                Some(m) => new_only(views(violations@), views(o@), m@),
                None => views(violations@),
            },
            None => if filter@.dom() != Set::<Seq<char>>::empty() {
                changed_only(views(violations@), file@, filter@, rules@)
            } else {
                views(violations@)
            },
        },
{
    match old {
        Some(o) => match mapper {
            Some(m) => semantic_difference(violations, o, m),
            None => violations,
        },
        None => {
            if filter.is_incremental() {
                filter_changed(violations, file, filter, rules)
            } else {
                violations
            }
        },
    }
}

/// Whether a rule passes the scan's selection: not disabled, enabled
/// explicitly where a list of enabled ids is given, and at least `min` severe.
pub open spec fn selected(
    id: Seq<char>,
    severity: Severity,
    enable: Seq<Seq<char>>,
    disable: Seq<Seq<char>>,
    min: Severity,
) -> bool {
    &&& !disable.contains(id)
    &&& (enable.len() == 0 || enable.contains(id))
    &&& severity_rank(severity) >= severity_rank(min)
}

/// Whether `ids` holds `id`.
fn holds_id(ids: &[String], id: &str) -> (r: bool)
    ensures
        r == string_views(ids@).contains(id@),
{
    let ghost sv = string_views(ids@);
    let mut i: usize = 0;
    while i < ids.len()
        invariant
            i <= ids.len(),
            sv == string_views(ids@),
            forall|j: int| 0 <= j < i ==> sv[j] != id@,
        decreases ids.len() - i,
    {
        if str_eq(ids[i].as_str(), id) {
            assert(sv[i as int] == id@);
            return true;
        }
        i += 1;
    }
    false
}

/// Executable [`selected`].
pub fn rule_selected(
    id: &str,
    severity: Severity,
    enable: &[String],
    disable: &[String],
    min: Severity,
) -> (r: bool)
    ensures
        r == selected(id@, severity, string_views(enable@), string_views(disable@), min),
{
    !holds_id(disable, id) && (enable.len() == 0 || holds_id(enable, id)) && severity.at_least(&min)
}

/// The rules of `rules` that pass the selection, in order.
pub open spec fn selected_rules(
    rules: Seq<ScanRule>,
    enable: Seq<Seq<char>>,
    disable: Seq<Seq<char>>,
    min: Severity,
) -> Seq<ScanRule>
    decreases rules.len(),
{
    if rules.len() == 0 {
        rules
    } else {
        let p = selected_rules(rules.drop_last(), enable, disable, min);
        let r = rules.last();
        if selected(scan_id(r), scan_severity(r), enable, disable, min) {
            p.push(r)
        } else {
            p
        }
    }
}

/// Drops the disabled ids, keeps only the enabled ids where any are given,
/// and drops rules less severe than `min`.
pub fn select_rules(
    rules: Vec<ScanRule>,
    enable: &[String],
    disable: &[String],
    min: Severity,
) -> (r: Vec<ScanRule>)
    ensures
        r@ == selected_rules(rules@, string_views(enable@), string_views(disable@), min),
{
    let ghost all = rules@;
    assert(all.len() == rules.len());
    let ghost ev = string_views(enable@);
    let ghost dv = string_views(disable@);
    let mut rest = rules;
    let mut out: Vec<ScanRule> = Vec::new();
    let mut k: usize = 0;
    assert(all.take(0) == Seq::<ScanRule>::empty());
    assert(all.skip(0) == all);
    while rest.len() > 0
        invariant
            k <= all.len() <= usize::MAX,
            k + rest.len() == all.len(),
            rest@ == all.skip(k as int),
            out@ == selected_rules(all.take(k as int), ev, dv, min),
            ev == string_views(enable@),
            dv == string_views(disable@),
        decreases rest.len(),
    {
        let r = rest.remove(0);
        assert(r == all[k as int]);
        assert(all.take(k + 1).drop_last() == all.take(k as int));
        assert(all.take(k + 1).last() == r);
        assert(all.skip(k as int).drop_first() == all.skip(k + 1));
        let keep = rule_selected(r.id().0.as_str(), r.severity(), enable, disable, min);
        if keep {
            out.push(r);
        }
        k += 1;
    }
    assert(all.take(k as int) == all);
    out
}

/// The ids a comma-separated option lists: trimmed, empty ones dropped.
pub open spec fn listed_ids(pieces: Seq<Seq<char>>) -> Seq<Seq<char>>
    decreases pieces.len(),
{
    if pieces.len() == 0 {
        Seq::empty()
    } else {
        let p = listed_ids(pieces.drop_last());
        let t = trim(pieces.last());
        if t.len() == 0 {
            p
        } else {
            p.push(t)
        }
    }
}

/// Splits a comma-separated list of ids (or paths): each piece trimmed,
/// empty ones dropped.
pub fn split_list(s: &str) -> (r: Vec<String>)
    ensures
        string_views(r@) == listed_ids(split_on(s@, ',')),
{
    let cs = chars_of(s);
    let text = cs.as_slice();
    let p: Vec<char> = vec![','];
    let mut out: Vec<String> = Vec::new();
    let n = text.len();
    let mut i: usize = 0;
    let ghost pieces = split_on(s@, ',');
    let ghost done: Seq<Seq<char>> = Seq::empty();
    assert(text@.skip(0) == text@);
    loop
        invariant
            i <= n == text@.len(),
            text@ == s@,
            p@ == seq![','],
            pieces == split_on(s@, ','),
            done + split_on(text@.skip(i as int), ',') == pieces,
            string_views(out@) == listed_ids(done),
        decreases n - i,
    {
        let ghost rest = text@.skip(i as int);
        proof {
            lemma_find_from_skip(text@, seq![','], i as int, 0);
            lemma_find_from_bounds(text@, seq![','], i as int);
        }
        let (piece, next) = match find_sub(text, p.as_slice(), i) {
            Some(k) => (copy_range(text, i, k), Some(k + 1)),
            None => (copy_range(text, i, n), None),
        };
        let t = trim_chars(piece.as_slice());
        proof {
            assert(done.push(piece@).drop_last() == done);
            assert(done.push(piece@).last() == piece@);
        }
        if t.len() > 0 {
            out.push(string_of(t.as_slice()));
            assert(string_views(out@) == string_views(out@.drop_last()).push(t@));
        }
        match next {
            Some(j) => {
                proof {
                    assert(rest.take(j - 1 - i) == piece@);
                    assert(rest.skip(j - 1 - i + 1) == text@.skip(j as int));
                    assert(split_on(rest, ',') == seq![piece@] + split_on(text@.skip(j as int), ','));
                    assert(done + split_on(rest, ',') == done.push(piece@) + split_on(
                        text@.skip(j as int),
                        ',',
                    ));
                    done = done.push(piece@);
                }
                i = j;
            },
            None => {
                proof {
                    assert(piece@ == rest);
                    assert(split_on(rest, ',') == seq![piece@]);
                    done = done.push(piece@);
                    assert(done == pieces);
                }
                return out;
            },
        }
    }
}

/// The old side of a diff specification: `A...B` compares against the merge
/// base of `A` and `B`, `A..B` against `A`, a single ref against itself.
#[derive(Debug, PartialEq, Eq)]
pub enum OldRef {
    MergeBase(String, String),
    Ref(String),
}

/// Abstract value of [`OldRef`].
pub enum OldRefV {
    MergeBase(Seq<char>, Seq<char>),
    Ref(Seq<char>),
}

impl View for OldRef {
    type V = OldRefV;

    open spec fn view(&self) -> OldRefV {
        match self {
            OldRef::MergeBase(a, b) => OldRefV::MergeBase(a@, b@),
            OldRef::Ref(a) => OldRefV::Ref(a@),
        }
    }
}

/// The old side of `spec`, split at its first `...`, else its first `..`.
pub open spec fn old_ref_spec(spec: Seq<char>) -> OldRefV {
    match find_from(spec, "..."@, 0) {
        Some(k) => OldRefV::MergeBase(spec.take(k), spec.skip(k + 3)),
        None => match find_from(spec, ".."@, 0) {
            Some(k) => OldRefV::Ref(spec.take(k)),
            None => OldRefV::Ref(spec),
        },
    }
}

/// Which revision the old side of a diff specification names.
pub fn old_side(diff_spec: &str) -> (r: OldRef)
    ensures
        r@ == old_ref_spec(diff_spec@),
{
    let cs = chars_of(diff_spec);
    let s = cs.as_slice();
    let three = chars_of("...");
    let two = chars_of("..");
    proof {
        reveal_strlit("...");
        reveal_strlit("..");
        lemma_find_from_bounds(s@, "..."@, 0);
        lemma_find_from_bounds(s@, ".."@, 0);
    }
    assert(three@ == "..."@ && "..."@.len() == 3);
    assert(two@ == ".."@ && ".."@.len() == 2);
    match find_sub(s, three.as_slice(), 0) {
        Some(k) => {
            assert(k + 3 <= s.len());
            let a = copy_range(s, 0, k);
            let b = copy_range(s, k + 3, s.len());
            assert(a@ == s@.take(k as int));
            assert(b@ == s@.skip(k + 3));
            OldRef::MergeBase(string_of(a.as_slice()), string_of(b.as_slice()))
        },
        None => match find_sub(s, two.as_slice(), 0) {
            Some(k) => {
                assert(k + 2 <= s.len());
                let a = copy_range(s, 0, k);
                assert(a@ == s@.take(k as int));
                OldRef::Ref(string_of(a.as_slice()))
            },
            None => OldRef::Ref(String::from_str(diff_spec)),
        },
    }
}

/// Whether every id occurs once.
pub open spec fn ids_unique(ids: Seq<Seq<char>>) -> bool {
    forall|i: int, j: int| 0 <= i < j < ids.len() ==> ids[i] != ids[j]
}

/// Whether position `j` repeats an earlier id.
pub open spec fn repeats(ids: Seq<Seq<char>>, j: int) -> bool {
    exists|i: int| 0 <= i < j && ids[i] == #[trigger] ids[j]
}

/// Checks that no rule id occurs twice; the error names the first repeated
/// one.
pub fn check_unique_ids(ids: &[String]) -> (r: Result<(), String>)
    ensures
        r is Ok <==> ids_unique(string_views(ids@)),
        r matches Err(m) ==> exists|j: int|
            0 <= j < ids@.len() && repeats(string_views(ids@), j) && (forall|k: int|
                0 <= k < j ==> !#[trigger] repeats(string_views(ids@), k)) && m@
                == "duplicate rule ID: "@ + ids@[j]@,
{
    let ghost sv = string_views(ids@);
    let mut j: usize = 0;
    while j < ids.len()
        invariant
            j <= ids.len(),
            sv == string_views(ids@),
            forall|a: int, b: int| 0 <= a < b < j ==> sv[a] != sv[b],
        decreases ids.len() - j,
    {
        let mut i: usize = 0;
        while i < j
            invariant
                i <= j < ids.len(),
                sv == string_views(ids@),
                forall|a: int, b: int| 0 <= a < b < j ==> sv[a] != sv[b],
                forall|a: int| 0 <= a < i ==> sv[a] != sv[j as int],
            decreases j - i,
        {
            if str_eq(ids[i].as_str(), ids[j].as_str()) {
                let mut m = String::new();
                append_str(&mut m, "duplicate rule ID: ");
                append_str(&mut m, ids[j].as_str());
                proof {
                    assert(sv[i as int] == sv[j as int]);
                    assert(repeats(sv, j as int));
                    assert forall|k: int| 0 <= k < j implies !#[trigger] repeats(sv, k) by {
                        if repeats(sv, k) {
                            let a = choose|a: int| 0 <= a < k && sv[a] == sv[k];
                            assert(sv[a] != sv[k]);
                        }
                    }
                }
                return Err(m);
            }
            i += 1;
        }
        j += 1;
    }
    Ok(())
}

/// Where the parser jar is: an explicit path must exist; otherwise the first
/// existing default location. `candidates` pairs each default location with
/// whether it exists.
pub open spec fn parser_jar_spec(
    explicit: Option<Seq<char>>,
    explicit_exists: bool,
    candidates: Seq<(Seq<char>, bool)>,
) -> Result<Seq<char>, Seq<char>> {
    match explicit {
        Some(p) => if explicit_exists {
            Ok(p)
        } else {
            Err("parser jar not found: "@ + p)
        },
        None => if exists|i: int| 0 <= i < candidates.len() && #[trigger] candidates[i].1 {
            Ok(
                candidates[choose|i: int|
                    0 <= i < candidates.len() && #[trigger] candidates[i].1 && forall|j: int|
                        0 <= j < i ==> !#[trigger] candidates[j].1].0,
            )
        } else {
            Err("java-parser.jar not found. Set --parser-jar or JAVAGUARD_PARSER_JAR env."@)
        },
    }
}

/// Picks the parser jar (see [`parser_jar_spec`]).
pub fn find_parser_jar(
    explicit: Option<&str>,
    explicit_exists: bool,
    candidates: &[(String, bool)],
) -> (r: Result<String, String>)
    ensures
        match (r, parser_jar_spec(
            match explicit {
                Some(p) => Some(p@),
                None => None,
            },
            explicit_exists,
            candidates@.map_values(|c: (String, bool)| (c.0@, c.1)),
        )) {
            (Ok(a), Ok(b)) => a@ == b,
            (Err(a), Err(b)) => a@ == b,
            _ => false,
        },
{
    let ghost cv = candidates@.map_values(|c: (String, bool)| (c.0@, c.1));
    match explicit {
        Some(p) => {
            if explicit_exists {
                Ok(String::from_str(p))
            } else {
                let mut m = String::new();
                append_str(&mut m, "parser jar not found: ");
                append_str(&mut m, p);
                Err(m)
            }
        },
        None => {
            let mut i: usize = 0;
            while i < candidates.len()
                invariant
                    i <= candidates.len(),
                    explicit is None,
                    cv == candidates@.map_values(|c: (String, bool)| (c.0@, c.1)),
                    forall|j: int| 0 <= j < i ==> !#[trigger] cv[j].1,
                decreases candidates.len() - i,
            {
                if candidates[i].1 {
                    proof {
                        assert(cv[i as int].1);
                        let w = choose|x: int|
                            0 <= x < cv.len() && #[trigger] cv[x].1 && forall|j: int|
                                0 <= j < x ==> !#[trigger] cv[j].1;
                        assert(0 <= w < cv.len() && cv[w].1 && forall|j: int| 0 <= j < w ==> !#[trigger] cv[j].1);
                        if w < i {
                            assert(!cv[w].1);
                        }
                        if w > i {
                            assert(!cv[i as int].1);
                        }
                        assert(w == i);
                        assert(cv[i as int].0 == candidates@[i as int].0@);
                    }
                    let found = candidates[i].0.clone();
                    assert(found@ == cv[i as int].0);
                    return Ok(found);
                }
                i += 1;
            }
            let mut m = String::new();
            append_str(
                &mut m,
                "java-parser.jar not found. Set --parser-jar or JAVAGUARD_PARSER_JAR env.",
            );
            Err(m)
        },
    }
}

/// `s` with every back-slash turned into a slash.
pub open spec fn slashed(s: Seq<char>) -> Seq<char> {
    s.map_values(|c: char| if c == '\\' { '/' } else { c })
}

/// Executable [`slashed`].
pub fn to_slashes(s: &str) -> (r: String)
    ensures
        r@ == slashed(s@),
{
    let cs = chars_of(s);
    let mut out: Vec<char> = Vec::new();
    let mut i: usize = 0;
    while i < cs.len()
        invariant
            i <= cs.len(),
            cs@ == s@,
            out@ == slashed(s@.take(i as int)),
        decreases cs.len() - i,
    {
        let c = cs[i];
        out.push(if c == '\\' { '/' } else { c });
        assert(slashed(s@.take(i + 1)) == slashed(s@.take(i as int)).push(if c == '\\' { '/' } else { c }));
        i += 1;
    }
    assert(s@.take(i as int) == s@);
    string_of(out.as_slice())
}

/// Whether a scanned file passes the path allow-list: any entry occurs in its
/// path (both with slashes); an empty list allows every file.
pub open spec fn included(path: Seq<char>, includes: Seq<Seq<char>>) -> bool {
    includes.len() == 0 || exists|i: int|
        0 <= i < includes.len() && contains_seq(slashed(path), slashed(#[trigger] includes[i]))
}

/// Executable [`included`].
pub fn path_included(path: &str, includes: &[String]) -> (r: bool)
    ensures
        r == included(path@, string_views(includes@)),
{
    if includes.len() == 0 {
        return true;
    }
    let ghost iv = string_views(includes@);
    let ps = to_slashes(path);
    let pc = chars_of(ps.as_str());
    let mut i: usize = 0;
    while i < includes.len()
        invariant
            i <= includes.len(),
            iv == string_views(includes@),
            pc@ == slashed(path@),
            forall|j: int| 0 <= j < i ==> !contains_seq(slashed(path@), slashed(#[trigger] iv[j])),
        decreases includes.len() - i,
    {
        let inc = to_slashes(includes[i].as_str());
        let ic = chars_of(inc.as_str());
        assert(iv[i as int] == includes@[i as int]@);
        if find_sub(pc.as_slice(), ic.as_slice(), 0).is_some() {
            return true;
        }
        i += 1;
    }
    false
}

/// `s` with a `/` added unless it ends with one.
pub open spec fn with_slash(s: Seq<char>) -> Seq<char> {
    if s.len() > 0 && s.last() == '/' {
        s
    } else {
        s.push('/')
    }
}

/// The path of a diff entry relative to the scan root. A diff path is
/// relative to the repository root: it is made absolute against `git_root`
/// (unless it already is), then taken relative to `scan_root`; a path outside
/// the scan root stays absolute. All back-slashes become slashes first.
pub open spec fn rebased(path: Seq<char>, git_root: Seq<char>, scan_root: Seq<char>) -> Seq<char> {
    let p = slashed(path);
    let g = slashed(git_root);
    let s = slashed(scan_root);
    let abs = if has_prefix(p, with_slash(g)) || p == g {
        p
    } else {
        with_slash(g) + p
    };
    if has_prefix(abs, with_slash(s)) {
        abs.skip(with_slash(s).len() as int)
    } else if abs == s {
        Seq::empty()
    } else {
        abs
    }
}

/// `s` with a trailing `/` ensured.
fn slash_terminated(s: &Vec<char>) -> (r: Vec<char>)
    ensures
        r@ == with_slash(s@),
{
    let mut r = copy_range(s.as_slice(), 0, s.len());
    assert(s@.subrange(0, s@.len() as int) == s@);
    if !(r.len() > 0 && r[r.len() - 1] == '/') {
        r.push('/');
    }
    r
}

/// Re-bases a diff path onto the scan root (see [`rebased`]).
pub fn rebase_diff_path(path: &str, git_root: &str, scan_root: &str) -> (r: String)
    ensures
        r@ == rebased(path@, git_root@, scan_root@),
{
    let p = chars_of(to_slashes(path).as_str());
    let g = chars_of(to_slashes(git_root).as_str());
    let s = chars_of(to_slashes(scan_root).as_str());
    let gp = slash_terminated(&g);
    let sp = slash_terminated(&s);
    let p_eq_g = string_of(p.as_slice()) == string_of(g.as_slice());
    let abs: Vec<char> = if starts_with(p.as_slice(), gp.as_slice()) || p_eq_g {
        p
    } else {
        let mut a = gp.clone();
        let mut i: usize = 0;
        let ghost start = a@;
        while i < p.len()
            invariant
                i <= p.len(),
                a@ == start + p@.take(i as int),
            decreases p.len() - i,
        {
            a.push(p[i]);
            assert(p@.take(i + 1) == p@.take(i as int).push(p@[i as int]));
            i += 1;
        }
        assert(p@.take(i as int) == p@);
        a
    };
    if starts_with(abs.as_slice(), sp.as_slice()) {
        let rel = copy_range(abs.as_slice(), sp.len(), abs.len());
        assert(rel@ == abs@.skip(sp@.len() as int));
        string_of(rel.as_slice())
    } else if string_of(abs.as_slice()) == string_of(s.as_slice()) {
        String::new()
    } else {
        string_of(abs.as_slice())
    }
}

/// The `.java` files found under a scan root.
#[derive(Debug)]
pub struct ScanResult {
    /// The files, absolute, in path order.
    pub files: Vec<String>,
    /// The canonical scan root.
    pub root: String,
}

/// `path` without a Windows extended-length prefix (`\\?\`).
pub open spec fn without_extended_prefix(path: Seq<char>) -> Seq<char> {
    if has_prefix(path, seq!['\\', '\\', '?', '\\']) {
        path.skip(4)
    } else {
        path
    }
}

/// Drops a Windows extended-length prefix from a canonical path, so that it
/// compares with the plain paths a directory walk yields.
pub fn strip_extended_prefix(path: &str) -> (r: String)
    ensures
        r@ == without_extended_prefix(path@),
{
    let cs = chars_of(path);
    let p: Vec<char> = vec!['\\', '\\', '?', '\\'];
    assert(p@ == seq!['\\', '\\', '?', '\\']);
    if starts_with(cs.as_slice(), p.as_slice()) {
        let rest = copy_range(cs.as_slice(), 4, cs.len());
        string_of(rest.as_slice())
    } else {
        String::from_str(path)
    }
}

/// Every rule a selection keeps passes it: no disabled id, only enabled ids
/// where a list is given, nothing below the minimum severity.
pub proof fn lemma_selection_sound(
    rules: Seq<ScanRule>,
    enable: Seq<Seq<char>>,
    disable: Seq<Seq<char>>,
    min: Severity,
)
    ensures
        forall|i: int|
            0 <= i < selected_rules(rules, enable, disable, min).len() ==> #[trigger] selected(
                scan_id(selected_rules(rules, enable, disable, min)[i]),
                scan_severity(selected_rules(rules, enable, disable, min)[i]),
                enable,
                disable,
                min,
            ),
    decreases rules.len(),
{
    if rules.len() > 0 {
        lemma_selection_sound(rules.drop_last(), enable, disable, min);
    }
}

/// The ids listed by an option are never empty.
pub proof fn lemma_listed_ids_nonempty(pieces: Seq<Seq<char>>)
    ensures
        forall|i: int| 0 <= i < listed_ids(pieces).len() ==> (#[trigger] listed_ids(pieces)[i]).len() > 0,
    decreases pieces.len(),
{
    if pieces.len() > 0 {
        let p = listed_ids(pieces.drop_last());
        lemma_listed_ids_nonempty(pieces.drop_last());
        let t = trim(pieces.last());
        if t.len() > 0 {
            assert forall|i: int| 0 <= i < p.push(t).len() implies (#[trigger] p.push(t)[i]).len() > 0 by {
                if i < p.len() {
                    assert(p.push(t)[i] == p[i]);
                }
            }
        }
    }
}

/// Gives a YAML rule the metadata of its rules-file entry: id, severity and
/// enabled flag, and the description as title where the entry has one.
pub fn apply_entry_to_yaml(rule: &mut YamlRule, entry: &RuleEntry)
    ensures
        final(rule).id@ == entry.id@,
        final(rule).title@ == match entry.description {
            Some(d) => d@,
            None => old(rule).title@,
        },
        final(rule).severity@ == entry.severity@,
        final(rule).enabled == entry.enabled,
        final(rule).category == old(rule).category,
        final(rule).pattern == old(rule).pattern,
        final(rule).message == old(rule).message,
        final(rule).params == old(rule).params,
        final(rule).span_policy == old(rule).span_policy,
{
    rule.id = entry.id.clone();
    match &entry.description {
        Some(d) => {
            rule.title = d.clone();
        },
        None => {},
    }
    rule.severity = entry.severity.clone();
    rule.enabled = entry.enabled;
}

/// Gives a Rhai rule the metadata of its rules-file entry: id, severity and
/// enabled flag, and the description as title where the entry has one.
pub fn apply_entry_to_rhai(rule: &mut RhaiRule, entry: &RuleEntry)
    ensures
        final(rule).id@ == entry.id@,
        final(rule).title@ == match entry.description {
            Some(d) => d@,
            None => old(rule).title@,
        },
        final(rule).severity@ == entry.severity@,
        final(rule).enabled == entry.enabled,
        final(rule).category == old(rule).category,
        final(rule).script == old(rule).script,
        final(rule).params == old(rule).params,
        final(rule).span_policy == old(rule).span_policy,
{
    rule.id = entry.id.clone();
    match &entry.description {
        Some(d) => {
            rule.title = d.clone();
        },
        None => {},
    }
    rule.severity = entry.severity.clone();
    rule.enabled = entry.enabled;
}

/// The built-in rule an entry's script path names (`builtin:<id>`), if it
/// names one that way.
pub open spec fn builtin_ref(script_path: Seq<char>) -> Option<Seq<char>> {
    if has_prefix(script_path, "builtin:"@) {
        Some(script_path.skip(8))
    } else {
        None
    }
}

/// Executable [`builtin_ref`].
pub fn builtin_ref_of(script_path: &str) -> (r: Option<String>)
    ensures
        match (r, builtin_ref(script_path@)) {
            (Some(a), Some(b)) => a@ == b,
            (None, None) => true,
            _ => false,
        },
{
    let cs = chars_of(script_path);
    let p = chars_of("builtin:");
    proof {
        reveal_strlit("builtin:");
    }
    if starts_with(cs.as_slice(), p.as_slice()) {
        let rest = copy_range(cs.as_slice(), 8, cs.len());
        Some(string_of(rest.as_slice()))
    } else {
        None
    }
}

/// How a rule script is loaded, by its file extension.
#[derive(Debug, Clone, Copy, PartialEq, Eq, Structural)]
pub enum ScriptKind {
    Yaml,
    Rhai,
    Unsupported,
}

/// The loader a script's extension calls for: `yml` and `yaml` are YAML
/// rules, `rhai` is a Rhai script, anything else is not supported.
pub fn script_kind(ext: &str) -> (r: ScriptKind)
    ensures
        r == if ext@ == "yml"@ || ext@ == "yaml"@ {
            ScriptKind::Yaml
        } else if ext@ == "rhai"@ {
            ScriptKind::Rhai
        } else {
            ScriptKind::Unsupported
        },
{
    if str_eq(ext, "yml") || str_eq(ext, "yaml") {
        ScriptKind::Yaml
    } else if str_eq(ext, "rhai") {
        ScriptKind::Rhai
    } else {
        ScriptKind::Unsupported
    }
}

} // verus!
