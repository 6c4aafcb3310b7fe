//! Rule core types: severity, violation, rule id, the `Rule` trait and the
//! violation collector.

use vstd::prelude::*;
use crate::text::{chars_of, trim_chars, string_of, to_lowercase, str_eq, trim, lowercase_of, all_ascii, ascii_lower};

verus! {

broadcast use vstd::string::group_string_axioms;

/// Globally unique rule id (such as `"J001"`).
#[derive(Debug, PartialEq, Eq, Hash, PartialOrd, Ord)]
pub struct RuleId(pub String);

impl Clone for RuleId {
    fn clone(&self) -> (r: Self)
        ensures
            r == *self,
    {
        RuleId(self.0.clone())
    }
}

/// Violation severity, ordered from lowest to highest.
#[derive(Debug, Clone, Copy, PartialEq, Eq, Structural, PartialOrd, Ord, Hash)]
pub enum Severity {
    Info,
    Minor,
    Major,
    Critical,
}

/// Position of a severity in the order `Info < Minor < Major < Critical`.
pub open spec fn severity_rank(s: Severity) -> nat {
    match s {
        Severity::Info => 0,
        Severity::Minor => 1,
        Severity::Major => 2,
        Severity::Critical => 3,
    }
}

/// The lower-case name of a severity.
pub open spec fn severity_name(s: Severity) -> Seq<char> {
    match s {
        Severity::Info => "info"@,
        Severity::Minor => "minor"@,
        Severity::Major => "major"@,
        Severity::Critical => "critical"@,
    }
}

/// The severity whose lower-case name is `name`, if any.
pub open spec fn severity_named(name: Seq<char>) -> Option<Severity> {
    if name == "info"@ {
        Some(Severity::Info)
    } else if name == "minor"@ {
        Some(Severity::Minor)
    } else if name == "major"@ {
        Some(Severity::Major)
    } else if name == "critical"@ {
        Some(Severity::Critical)
    } else {
        None
    }
}

/// The text a severity name is looked up by: trimmed, then lower-cased.
pub open spec fn severity_key(s: Seq<char>) -> Seq<char> {
    lowercase_of(trim(s))
}

/// Error returned for an unknown severity name; holds the looked-up text.
#[derive(Debug)]
pub struct SeverityParseError(pub String);

impl Severity {
    /// The lower-case name of this severity.
    pub fn as_str(&self) -> (r: &'static str)
        ensures
            r@ == severity_name(*self),
    {
        match self {
            Severity::Info => "info",
            Severity::Minor => "minor",
            Severity::Major => "major",
            Severity::Critical => "critical",
        }
    }

    /// Exec form of the order: whether `self >= other`.
    pub fn at_least(&self, other: &Severity) -> (r: bool)
        ensures
            r == (severity_rank(*self) >= severity_rank(*other)),
    {
        self.rank() >= other.rank()
    }

    /// Position of this severity in the order.
    pub fn rank(&self) -> (r: u8)
        ensures
            r as nat == severity_rank(*self),
    {
        match self {
            Severity::Info => 0,
            Severity::Minor => 1,
            Severity::Major => 2,
            Severity::Critical => 3,
        }
    }

    /// Parses a severity name: surrounding white space is ignored and case
    /// does not matter.
    pub fn parse_name(s: &str) -> (r: Result<Severity, SeverityParseError>)
        ensures
            r matches Ok(v) ==> severity_named(severity_key(s@)) == Some(v),
            r matches Err(e) ==> severity_named(severity_key(s@)) is None && e.0@ == severity_key(s@),
            all_ascii(trim(s@)) ==> severity_key(s@) == ascii_lower(trim(s@)),
    {
        let cs = chars_of(s);
        let t = trim_chars(cs.as_slice());
        let ts = string_of(t.as_slice());
        let low = to_lowercase(ts.as_str());
        let l = low.as_str();
        proof {
            reveal_strlit("info");
            reveal_strlit("minor");
            reveal_strlit("major");
            reveal_strlit("critical");
        }
        if str_eq(l, "info") {
            Ok(Severity::Info)
        } else if str_eq(l, "minor") {
            Ok(Severity::Minor)
        } else if str_eq(l, "major") {
            Ok(Severity::Major)
        } else if str_eq(l, "critical") {
            Ok(Severity::Critical)
        } else {
            Err(SeverityParseError(low))
        }
    }
}

impl std::str::FromStr for Severity {
    type Err = SeverityParseError;

    fn from_str(s: &str) -> (r: Result<Self, Self::Err>)
        ensures
            r matches Ok(v) ==> severity_named(severity_key(s@)) == Some(v),
            r matches Err(e) ==> severity_named(severity_key(s@)) is None && e.0@ == severity_key(s@),
            all_ascii(trim(s@)) ==> severity_key(s@) == ascii_lower(trim(s@)),
    {
        Severity::parse_name(s)
    }
}

/// How a violation is compared with the changed line ranges of a git diff.
///
/// - `Anchor` (default): reported only when its anchor line lies in a changed range.
/// - `Intersect`: reported when its span `[line, end_line]` meets a changed range.
#[derive(Debug, Clone, Copy, PartialEq, Eq, Structural)]
pub enum SpanPolicy {
    Anchor,
    Intersect,
}

impl Default for SpanPolicy {
    fn default() -> (r: Self)
        ensures
            r == SpanPolicy::Anchor,
    {
        SpanPolicy::Anchor
    }
}

/// One reported violation.
#[derive(Debug)]
pub struct Violation {
    /// Rule id.
    pub rule_id: RuleId,
    /// Severity.
    pub severity: Severity,
    /// File path (relative to the project root).
    pub file: String,
    /// First line (1-based).
    pub line: usize,
    /// Last line (1-based, inclusive), when the violation spans lines.
    pub end_line: Option<usize>,
    /// Description.
    pub message: String,
}

/// Abstract value of a violation: its strings taken by characters.
pub struct ViolationV {
    pub rule_id: Seq<char>,
    pub severity: Severity,
    pub file: Seq<char>,
    pub line: nat,
    pub end_line: Option<usize>,
    pub message: Seq<char>,
}

impl View for Violation {
    type V = ViolationV;

    open spec fn view(&self) -> ViolationV {
        ViolationV {
            rule_id: self.rule_id.0@,
            severity: self.severity,
            file: self.file@,
            line: self.line as nat,
            end_line: self.end_line,
            message: self.message@,
        }
    }
}

/// The abstract values of a sequence of violations.
pub open spec fn views(s: Seq<Violation>) -> Seq<ViolationV> {
    s.map_values(|v: Violation| v@)
}

impl Clone for Violation {
    fn clone(&self) -> (r: Self)
        ensures
            r == *self,
    {
        Violation {
            rule_id: self.rule_id.clone(),
            severity: self.severity,
            file: self.file.clone(),
            line: self.line,
            end_line: self.end_line,
            message: self.message.clone(),
        }
    }
}

impl Violation {
    /// A violation without an end line.
    pub fn new(rule_id: &str, severity: Severity, file: &str, line: usize, message: &str) -> (v:
        Violation)
        ensures
            v@ == (ViolationV {
                rule_id: rule_id@,
                severity,
                file: file@,
                line: line as nat,
                end_line: None,
                message: message@,
            }),
    {
        Violation {
            rule_id: RuleId(String::from_str(rule_id)),
            severity,
            file: String::from_str(file),
            line,
            end_line: None,
            message: String::from_str(message),
        }
    }
}

/// A rule: every check implements this interface over an AST root type `U`.
pub trait Rule<U>: Send + Sync {
    /// Rule id (such as `"J001"`).
    fn id(&self) -> &RuleId;

    /// Human-readable description.
    fn description(&self) -> &str;

    /// Severity of the violations it reports.
    fn severity(&self) -> Severity;

    /// Whether the rule is enabled (by default it is).
    fn enabled(&self) -> (r: bool)
        default_ensures
            r,
    {
        true
    }

    /// Checks one compilation unit.
    fn check_unit(&self, unit: &U) -> Vec<Violation>;

    /// How its violations meet a git diff (default: by anchor line).
    fn span_policy(&self) -> (r: SpanPolicy)
        default_ensures
            r == SpanPolicy::Anchor,
    {
        SpanPolicy::Anchor
    }
}

} // verus!

verus! {

/// Three-way lexicographic comparison of character sequences by code point
/// (the order of `str`/`String`): `-1`, `0` or `1`.
pub open spec fn seq_order(a: Seq<char>, b: Seq<char>) -> int
    decreases a.len(),
{
    if a.len() == 0 {
        if b.len() == 0 {
            0
        } else {
            -1
        }
    } else if b.len() == 0 {
        1
    } else if (a[0] as u32) < (b[0] as u32) {
        -1
    } else if (a[0] as u32) > (b[0] as u32) {
        1
    } else {
        seq_order(a.drop_first(), b.drop_first())
    }
}

/// Executable [`seq_order`].
pub fn order_chars(a: &[char], b: &[char]) -> (r: i8)
    ensures
        r as int == seq_order(a@, b@),
{
    let mut i: usize = 0;
    assert(a@.skip(0) == a@);
    assert(b@.skip(0) == b@);
    while i < a.len() && i < b.len() && (a[i] as u32) == (b[i] as u32)
        invariant
            i <= a.len(),
            i <= b.len(),
            seq_order(a@, b@) == seq_order(a@.skip(i as int), b@.skip(i as int)),
        decreases a.len() - i,
    {
        assert(a@.skip(i as int).drop_first() == a@.skip(i + 1));
        assert(b@.skip(i as int).drop_first() == b@.skip(i + 1));
        i += 1;
    }
    if i < a.len() {
        assert(a@.skip(i as int)[0] == a@[i as int]);
    }
    if i < b.len() {
        assert(b@.skip(i as int)[0] == b@[i as int]);
    }
    if i == a.len() {
        if i == b.len() {
            0
        } else {
            -1
        }
    } else if i == b.len() {
        1
    } else if (a[i] as u32) < (b[i] as u32) {
        -1
    } else {
        1
    }
}

/// Order of violations in reports: by file, then line, then rule id.
pub open spec fn violation_order(x: ViolationV, y: ViolationV) -> int {
    let c = seq_order(x.file, y.file);
    if c != 0 {
        c
    } else if x.line < y.line {
        -1
    } else if x.line > y.line {
        1
    } else {
        seq_order(x.rule_id, y.rule_id)
    }
}

/// Inserts `x` into `s` after every element that does not order after it.
pub open spec fn insert_sorted(s: Seq<Violation>, x: Violation) -> Seq<Violation>
    decreases s.len(),
{
    if s.len() == 0 {
        seq![x]
    } else if violation_order(s.last()@, x@) > 0 {
        insert_sorted(s.drop_last(), x).push(s.last())
    } else {
        s.push(x)
    }
}

/// Stable insertion sort of violations by [`violation_order`].
pub open spec fn sort_violations(s: Seq<Violation>) -> Seq<Violation>
    decreases s.len(),
{
    if s.len() == 0 {
        s
    } else {
        insert_sorted(sort_violations(s.drop_last()), s.last())
    }
}

/// Executable [`violation_order`].
pub fn compare_violations(x: &Violation, y: &Violation) -> (r: i8)
    ensures
        r as int == violation_order(x@, y@),
{
    let xf = chars_of(x.file.as_str());
    let yf = chars_of(y.file.as_str());
    let c = order_chars(xf.as_slice(), yf.as_slice());
    if c != 0 {
        c
    } else if x.line < y.line {
        -1
    } else if x.line > y.line {
        1
    } else {
        let xr = chars_of(x.rule_id.0.as_str());
        let yr = chars_of(y.rule_id.0.as_str());
        order_chars(xr.as_slice(), yr.as_slice())
    }
}

proof fn lemma_insert_at(s: Seq<Violation>, x: Violation, j: int)
    requires
        0 <= j <= s.len(),
        forall|k: int| j <= k < s.len() ==> violation_order(#[trigger] s[k]@, x@) > 0,
        j == 0 || violation_order(s[j - 1]@, x@) <= 0,
    ensures
        insert_sorted(s, x) == s.take(j).push(x) + s.skip(j),
    decreases s.len() - j,
{
    if s.len() == 0 {
        assert(s.take(j).push(x) + s.skip(j) == seq![x]);
    } else if j == s.len() {
        assert(s.take(j) == s);
        assert(s.skip(j) == Seq::<Violation>::empty());
        assert(s.take(j).push(x) + s.skip(j) == s.push(x));
    } else {
        let d = s.drop_last();
        assert(violation_order(s.last()@, x@) > 0);
        assert forall|k: int| j <= k < d.len() implies violation_order(#[trigger] d[k]@, x@) > 0 by {
            assert(d[k] == s[k]);
        }
        if j > 0 {
            assert(d[j - 1] == s[j - 1]);
        }
        lemma_insert_at(d, x, j);
        assert(d.take(j) == s.take(j));
        assert((d.take(j).push(x) + d.skip(j)).push(s.last()) == s.take(j).push(x) + s.skip(j));
    }
}

/// Swapping the arguments of [`seq_order`] negates it.
pub proof fn lemma_seq_order_flip(a: Seq<char>, b: Seq<char>)
    ensures
        seq_order(a, b) == -seq_order(b, a),
    decreases a.len(),
{
    if a.len() > 0 && b.len() > 0 && (a[0] as u32) == (b[0] as u32) {
        lemma_seq_order_flip(a.drop_first(), b.drop_first());
    }
}

/// [`seq_order`] is `-1`, `0` or `1`.
pub proof fn lemma_seq_order_range(a: Seq<char>, b: Seq<char>)
    ensures
        -1 <= seq_order(a, b) <= 1,
    decreases a.len(),
{
    if a.len() > 0 && b.len() > 0 && (a[0] as u32) == (b[0] as u32) {
        lemma_seq_order_range(a.drop_first(), b.drop_first());
    }
}

/// [`seq_order`] is transitive, strictly where either step is strict.
pub proof fn lemma_seq_order_trans(a: Seq<char>, b: Seq<char>, c: Seq<char>)
    requires
        seq_order(a, b) <= 0,
        seq_order(b, c) <= 0,
    ensures
        seq_order(a, c) <= 0,
        (seq_order(a, b) < 0 || seq_order(b, c) < 0) ==> seq_order(a, c) < 0,
    decreases a.len(),
{
    if a.len() > 0 && b.len() > 0 && c.len() > 0 && (a[0] as u32) == (b[0] as u32) && (b[0] as u32)
        == (c[0] as u32) {
        lemma_seq_order_trans(a.drop_first(), b.drop_first(), c.drop_first());
    }
}

/// Swapping the arguments of [`violation_order`] negates it.
pub proof fn lemma_violation_order_flip(x: ViolationV, y: ViolationV)
    ensures
        violation_order(x, y) == -violation_order(y, x),
{
    lemma_seq_order_flip(x.file, y.file);
    lemma_seq_order_flip(x.rule_id, y.rule_id);
}

/// [`violation_order`] is transitive.
pub proof fn lemma_violation_order_trans(x: ViolationV, y: ViolationV, z: ViolationV)
    requires
        violation_order(x, y) <= 0,
        violation_order(y, z) <= 0,
    ensures
        violation_order(x, z) <= 0,
{
    lemma_seq_order_range(x.file, y.file);
    lemma_seq_order_range(y.file, z.file);
    lemma_seq_order_range(x.file, z.file);
    lemma_seq_order_flip(x.file, y.file);
    lemma_seq_order_flip(y.file, z.file);
    lemma_seq_order_flip(x.file, z.file);
    lemma_seq_order_trans(x.file, y.file, z.file);
    if seq_order(x.file, y.file) == 0 && seq_order(y.file, z.file) == 0 {
        lemma_seq_order_trans(z.file, y.file, x.file);
        if x.line == y.line && y.line == z.line {
            lemma_seq_order_trans(x.rule_id, y.rule_id, z.rule_id);
        }
    }
}

/// Whether `s` is ordered by [`violation_order`].
pub open spec fn sorted_violations(s: Seq<Violation>) -> bool {
    forall|i: int, j: int| 0 <= i < j < s.len() ==> violation_order(s[i]@, s[j]@) <= 0
}

proof fn lemma_insert_sorted_props(s: Seq<Violation>, x: Violation)
    requires
        sorted_violations(s),
    ensures
        sorted_violations(insert_sorted(s, x)),
        insert_sorted(s, x).to_multiset() == s.to_multiset().insert(x),
    decreases s.len(),
{
    broadcast use vstd::seq_lib::group_to_multiset_ensures;

    if s.len() == 0 {
        assert(seq![x] == Seq::<Violation>::empty().push(x));
    } else {
        let d = s.drop_last();
        let l = s.last();
        assert(d.push(l) == s);
        if violation_order(l@, x@) > 0 {
            assert(sorted_violations(d));
            lemma_insert_sorted_props(d, x);
            let t = insert_sorted(d, x);
            lemma_violation_order_flip(l@, x@);
            assert forall|k: int| 0 <= k < t.len() implies violation_order(t[k]@, l@) <= 0 by {
                assert(t.to_multiset().count(t[k]) > 0);
                if t[k] != x {
                    assert(d.to_multiset().count(t[k]) > 0);
                    assert(d.contains(t[k]));
                    let m = choose|m: int| 0 <= m < d.len() && d[m] == t[k];
                    assert(s[m] == d[m]);
                    assert(violation_order(s[m]@, s[s.len() - 1]@) <= 0);
                }
            }
            assert forall|i: int, j: int|
                0 <= i < j < t.push(l).len() implies violation_order(t.push(l)[i]@, t.push(l)[j]@)
                <= 0 by {
                if j == t.len() {
                    assert(t.push(l)[j] == l);
                    assert(t.push(l)[i] == t[i]);
                } else {
                    assert(t.push(l)[i] == t[i]);
                    assert(t.push(l)[j] == t[j]);
                }
            }
        } else {
            assert forall|i: int, j: int|
                0 <= i < j < s.push(x).len() implies violation_order(s.push(x)[i]@, s.push(x)[j]@)
                <= 0 by {
                if j == s.len() {
                    assert(s.push(x)[i] == s[i]);
                    if i < s.len() - 1 {
                        lemma_violation_order_trans(s[i]@, l@, x@);
                    }
                } else {
                    assert(s.push(x)[i] == s[i]);
                    assert(s.push(x)[j] == s[j]);
                }
            }
        }
    }
}

/// Sorting orders violations by file, then line, then rule id, and keeps
/// exactly the same violations.
pub proof fn lemma_sort_violations(s: Seq<Violation>)
    ensures
        sorted_violations(sort_violations(s)),
        sort_violations(s).to_multiset() == s.to_multiset(),
    decreases s.len(),
{
    broadcast use vstd::seq_lib::group_to_multiset_ensures;

    if s.len() > 0 {
        lemma_sort_violations(s.drop_last());
        lemma_insert_sorted_props(sort_violations(s.drop_last()), s.last());
        assert(s.drop_last().push(s.last()) == s);
    }
}

/// The violations of `s` whose sort key (file, line and rule id) equals that
/// of `k`, in order.
pub open spec fn same_key(s: Seq<Violation>, k: ViolationV) -> Seq<Violation>
    decreases s.len(),
{
    if s.len() == 0 {
        s
    } else {
        let p = same_key(s.drop_last(), k);
        if violation_order(s.last()@, k) == 0 {
            p.push(s.last())
        } else {
            p
        }
    }
}

proof fn lemma_insert_sorted_same_key(t: Seq<Violation>, x: Violation, k: ViolationV)
    ensures
        same_key(insert_sorted(t, x), k) == if violation_order(x@, k) == 0 {
            same_key(t, k).push(x)
        } else {
            same_key(t, k)
        },
    decreases t.len(),
{
    if t.len() == 0 {
        assert(seq![x].drop_last() == t);
    } else {
        let d = t.drop_last();
        let l = t.last();
        if violation_order(l@, x@) > 0 {
            lemma_insert_sorted_same_key(d, x, k);
            let u = insert_sorted(d, x);
            assert(u.push(l).drop_last() == u);
            if violation_order(l@, k) == 0 && violation_order(x@, k) == 0 {
                lemma_violation_order_flip(x@, k);
                lemma_violation_order_trans(l@, k, x@);
            }
        } else {
            assert(t.push(x).drop_last() == t);
        }
    }
}

/// Sorting is stable: violations that share a sort key come out in the order
/// they went in.
pub proof fn lemma_sort_stable(s: Seq<Violation>, k: ViolationV)
    ensures
        same_key(sort_violations(s), k) == same_key(s, k),
    decreases s.len(),
{
    if s.len() > 0 {
        lemma_sort_stable(s.drop_last(), k);
        lemma_insert_sorted_same_key(sort_violations(s.drop_last()), s.last(), k);
    }
}

/// Collects the violations of several rules.
#[derive(Debug)]
pub struct ViolationCollector {
    violations: Vec<Violation>,
}

impl View for ViolationCollector {
    type V = Seq<Violation>;

    closed spec fn view(&self) -> Seq<Violation> {
        self.violations@
    }
}

impl Default for ViolationCollector {
    fn default() -> (r: Self)
        ensures
            r@ == Seq::<Violation>::empty(),
    {
        ViolationCollector { violations: Vec::new() }
    }
}

impl ViolationCollector {
    /// An empty collector.
    pub fn new() -> (r: Self)
        ensures
            r@ == Seq::<Violation>::empty(),
    {
        ViolationCollector { violations: Vec::new() }
    }

    /// Adds one violation at the end.
    pub fn add(&mut self, v: Violation)
        ensures
            final(self)@ == old(self)@.push(v),
    {
        self.violations.push(v);
    }

    /// Adds all of `vs` at the end, in order.
    pub fn add_all(&mut self, vs: Vec<Violation>)
        ensures
            final(self)@ == old(self)@ + vs@,
    {
        let mut vs = vs;
        self.violations.append(&mut vs);
    }

    /// The collected violations.
    pub fn violations(&self) -> (r: &[Violation])
        ensures
            r@ == self@,
    {
        self.violations.as_slice()
    }

    /// The collected violations, by value.
    pub fn into_inner(self) -> (r: Vec<Violation>)
        ensures
            r@ == self@,
    {
        self.violations
    }

    /// Number of collected violations.
    pub fn count(&self) -> (r: usize)
        ensures
            r == self@.len(),
    {
        self.violations.len()
    }

    /// Whether nothing was collected.
    pub fn is_empty(&self) -> (r: bool)
        ensures
            r == (self@.len() == 0),
    {
        self.violations.len() == 0
    }

    /// Sorts by file, then line, then rule id; equal keys keep their order.
    pub fn sort(&mut self)
        ensures
            final(self)@ == sort_violations(old(self)@),
    {
        let mut src: Vec<Violation> = Vec::new();
        std::mem::swap(&mut src, &mut self.violations);
        let ghost orig = src@;
        let mut res: Vec<Violation> = Vec::new();
        let mut k: usize = 0;
        let n = src.len();
        while src.len() > 0
            invariant
                orig.len() == n,
                k <= n,
                src@ == orig.skip(k as int),
                res@ == sort_violations(orig.take(k as int)),
            decreases src.len(),
        {
            let x = src.remove(0);
            assert(x == orig[k as int]);
            let mut j: usize = res.len();
            while j > 0 && compare_violations(&res[j - 1], &x) > 0
                invariant
                    j <= res.len(),
                    forall|m: int| j <= m < res.len() ==> violation_order(#[trigger] res@[m]@, x@) > 0,
                decreases j,
            {
                j -= 1;
            }
            proof {
                lemma_insert_at(res@, x, j as int);
                assert(orig.take(k + 1).drop_last() == orig.take(k as int));
                assert(orig.take(k + 1).last() == x);
                assert(orig.skip(k as int).drop_first() == orig.skip(k + 1));
            }
            res.insert(j, x);
            assert(res@ == sort_violations(orig.take(k + 1)));
            k += 1;
        }
        assert(orig.take(n as int) == orig);
        self.violations = res;
    }
}

/// Whether a walk to the sorted insertion point of `k` passes `a`: `a`
/// differs from `k` and does not order after it.
pub fn passes_before(a: &String, k: &[char]) -> (r: bool)
    ensures
        r == (a@ != k@ && seq_order(a@, k@) <= 0),
{
    let ks = string_of(k);
    if *a == ks {
        return false;
    }
    let ac = chars_of(a.as_str());
    order_chars(ac.as_slice(), k) <= 0
}

} // verus!
