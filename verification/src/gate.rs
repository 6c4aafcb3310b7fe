//! CI gate: decides pass or fail from violation counts and thresholds.
//!
//! Exit codes: 0 when every count is within its threshold, 1 otherwise.

use vstd::prelude::*;
use crate::rule::{Severity, Violation};
use crate::text::{decimal, usize_to_string};

verus! {

broadcast use vstd::string::group_string_axioms;

/// Gate thresholds: the largest allowed number of violations per severity.
#[derive(Debug, Clone, Copy)]
pub struct GateConfig {
    /// Allowed critical violations (default 0).
    pub max_critical: usize,
    /// Allowed major violations (default 0).
    pub max_major: usize,
    /// Allowed minor violations (default: unlimited).
    pub max_minor: usize,
    /// Allowed info violations (default: unlimited).
    pub max_info: usize,
}

impl Default for GateConfig {
    fn default() -> (r: Self)
        ensures
            r.max_critical == 0,
            r.max_major == 0,
            r.max_minor == usize::MAX,
            r.max_info == usize::MAX,
    {
        GateConfig { max_critical: 0, max_major: 0, max_minor: usize::MAX, max_info: usize::MAX }
    }
}

/// Which thresholds the severity check uses: the ones read from `--gate-config`,
/// else the project's own, else the defaults.
pub fn chosen_gate(from_file: Option<GateConfig>, from_project: Option<GateConfig>) -> (r: GateConfig)
    ensures
        match (from_file, from_project) {
            (Some(g), _) => r == g,
            (None, Some(g)) => r == g,
            (None, None) => r.max_critical == 0 && r.max_major == 0 && r.max_minor == usize::MAX
                && r.max_info == usize::MAX,
        },
{
    match from_file {
        Some(g) => g,
        None => match from_project {
            Some(g) => g,
            None => GateConfig::default(),
        },
    }
}

/// Violation counts per severity.
#[derive(Debug, Clone, Copy, Default)]
pub struct SeverityCounts {
    pub critical: usize,
    pub major: usize,
    pub minor: usize,
    pub info: usize,
}

/// Number of violations in `s` with severity `sev`.
pub open spec fn count_severity(s: Seq<Violation>, sev: Severity) -> nat
    decreases s.len(),
{
    if s.len() == 0 {
        0
    } else {
        count_severity(s.drop_last(), sev) + if s.last().severity == sev {
            1nat
        } else {
            0nat
        }
    }
}

proof fn lemma_count_le(s: Seq<Violation>, sev: Severity)
    ensures
        count_severity(s, sev) <= s.len(),
    decreases s.len(),
{
    if s.len() > 0 {
        lemma_count_le(s.drop_last(), sev);
    }
}

/// Counting by severity adds up over concatenation.
pub proof fn lemma_count_concat(a: Seq<Violation>, b: Seq<Violation>, sev: Severity)
    ensures
        count_severity(a + b, sev) == count_severity(a, sev) + count_severity(b, sev),
    decreases b.len(),
{
    if b.len() == 0 {
        assert(a + b == a);
    } else {
        lemma_count_concat(a, b.drop_last(), sev);
        assert((a + b).drop_last() == a + b.drop_last());
        assert((a + b).last() == b.last());
    }
}

proof fn lemma_count_remove(t: Seq<Violation>, j: int, sev: Severity)
    requires
        0 <= j < t.len(),
    ensures
        count_severity(t, sev) == count_severity(t.remove(j), sev) + if t[j].severity == sev {
            1nat
        } else {
            0nat
        },
{
    let a = t.take(j);
    let b = t.skip(j + 1);
    let x = seq![t[j]];
    assert(t =~= a + x + b);
    assert(t.remove(j) =~= a + b);
    lemma_count_concat(a + x, b, sev);
    lemma_count_concat(a, x, sev);
    lemma_count_concat(a, b, sev);
    assert(x.drop_last() == Seq::<Violation>::empty());
    assert(x.last() == t[j]);
    assert(count_severity(x.drop_last(), sev) == 0);
}

/// Counting by severity does not depend on the order of the violations: two
/// sequences holding the same violations have the same counts.
pub proof fn lemma_count_order_free(s: Seq<Violation>, t: Seq<Violation>, sev: Severity)
    requires
        s.to_multiset() == t.to_multiset(),
    ensures
        count_severity(s, sev) == count_severity(t, sev),
    decreases s.len(),
{
    broadcast use vstd::seq_lib::group_to_multiset_ensures;
    broadcast use vstd::multiset::group_multiset_axioms;

    if s.len() == 0 {
        vstd::seq_lib::to_multiset_len(s);
        vstd::seq_lib::to_multiset_len(t);
        assert(t.len() == 0);
    } else {
        let x = s.last();
        let d = s.drop_last();
        assert(d.push(x) == s);
        assert(s.to_multiset().count(x) > 0);
        assert(t.contains(x));
        let j = choose|j: int| 0 <= j < t.len() && t[j] == x;
        let u = t.remove(j);
        assert(u.to_multiset() == t.to_multiset().remove(x));
        assert(d.to_multiset() =~= u.to_multiset());
        lemma_count_order_free(d, u, sev);
        lemma_count_remove(t, j, sev);
    }
}

impl SeverityCounts {
    /// Counts `violations` by severity.
    pub fn from_violations(violations: &[Violation]) -> (c: SeverityCounts)
        ensures
            c.critical == count_severity(violations@, Severity::Critical),
            c.major == count_severity(violations@, Severity::Major),
            c.minor == count_severity(violations@, Severity::Minor),
            c.info == count_severity(violations@, Severity::Info),
    {
        let mut c = SeverityCounts { critical: 0, major: 0, minor: 0, info: 0 };
        let mut i: usize = 0;
        while i < violations.len()
            invariant
                i <= violations.len(),
                c.critical == count_severity(violations@.take(i as int), Severity::Critical),
                c.major == count_severity(violations@.take(i as int), Severity::Major),
                c.minor == count_severity(violations@.take(i as int), Severity::Minor),
                c.info == count_severity(violations@.take(i as int), Severity::Info),
            decreases violations.len() - i,
        {
            let ghost t = violations@.take(i + 1);
            assert(t.drop_last() == violations@.take(i as int));
            proof {
                lemma_count_le(violations@.take(i as int), Severity::Critical);
                lemma_count_le(violations@.take(i as int), Severity::Major);
                lemma_count_le(violations@.take(i as int), Severity::Minor);
                lemma_count_le(violations@.take(i as int), Severity::Info);
            }
            match violations[i].severity {
                Severity::Critical => c.critical = c.critical + 1,
                Severity::Major => c.major = c.major + 1,
                Severity::Minor => c.minor = c.minor + 1,
                Severity::Info => c.info = c.info + 1,
            }
            i += 1;
        }
        assert(violations@.take(violations.len() as int) == violations@);
        c
    }
}

/// Result of a gate check.
#[derive(Debug)]
pub enum GateResult {
    Pass,
    /// The reasons, one per exceeded threshold.
    Fail(Vec<String>),
}

/// The reason text for one exceeded threshold: `"<label>: <count> > <max>"`.
pub open spec fn fail_reason(label: Seq<char>, count: nat, max: nat) -> Seq<char> {
    label + ": "@ + decimal(count) + " > "@ + decimal(max)
}

/// The reasons a gate check fails with, in the order critical, major, minor, info.
pub open spec fn gate_failures(cfg: GateConfig, c: SeverityCounts) -> Seq<Seq<char>> {
    (if c.critical > cfg.max_critical {
        seq![fail_reason("critical"@, c.critical as nat, cfg.max_critical as nat)]
    } else {
        seq![]
    }) + (if c.major > cfg.max_major {
        seq![fail_reason("major"@, c.major as nat, cfg.max_major as nat)]
    } else {
        seq![]
    }) + (if c.minor > cfg.max_minor {
        seq![fail_reason("minor"@, c.minor as nat, cfg.max_minor as nat)]
    } else {
        seq![]
    }) + (if c.info > cfg.max_info {
        seq![fail_reason("info"@, c.info as nat, cfg.max_info as nat)]
    } else {
        seq![]
    })
}

/// The abstract value of a list of strings.
pub open spec fn string_views(v: Seq<String>) -> Seq<Seq<char>> {
    v.map_values(|s: String| s@)
}

fn fail_line(label: &str, count: usize, max: usize) -> (s: String)
    ensures
        s@ == fail_reason(label@, count as nat, max as nat),
{
    let mut s = String::from_str(label);
    s.append(": ");
    let cs = usize_to_string(count);
    s.append(cs.as_str());
    s.append(" > ");
    let ms = usize_to_string(max);
    s.append(ms.as_str());
    s
}

impl GateConfig {
    /// Checks the counts against the thresholds.
    pub fn check(&self, counts: &SeverityCounts) -> (r: GateResult)
        ensures
            r matches GateResult::Pass ==> gate_failures(*self, *counts).len() == 0,
            r matches GateResult::Fail(v) ==> gate_failures(*self, *counts).len() > 0
                && string_views(v@) == gate_failures(*self, *counts),
    {
        let mut failures: Vec<String> = Vec::new();
        let ghost g = gate_failures(*self, *counts);
        if counts.critical > self.max_critical {
            failures.push(fail_line("critical", counts.critical, self.max_critical));
        }
        if counts.major > self.max_major {
            failures.push(fail_line("major", counts.major, self.max_major));
        }
        if counts.minor > self.max_minor {
            failures.push(fail_line("minor", counts.minor, self.max_minor));
        }
        if counts.info > self.max_info {
            failures.push(fail_line("info", counts.info, self.max_info));
        }
        assert(string_views(failures@) =~= g);
        if failures.len() == 0 {
            GateResult::Pass
        } else {
            GateResult::Fail(failures)
        }
    }
}

impl GateResult {
    /// Whether the check succeeded.
    pub fn is_pass(&self) -> (r: bool)
        ensures
            r == (self is Pass),
    {
        match self {
            GateResult::Pass => true,
            GateResult::Fail(_) => false,
        }
    }

    /// Process exit code: 0 on pass, 1 on failure.
    pub fn exit_code(&self) -> (r: i32)
        ensures
            r == (if self is Pass { 0i32 } else { 1i32 }),
    {
        match self {
            GateResult::Pass => 0,
            GateResult::Fail(_) => 1,
        }
    }
}

/// A check succeeds exactly when every count is within its threshold.
pub proof fn lemma_gate_pass_iff_within(cfg: GateConfig, c: SeverityCounts)
    ensures
        (gate_failures(cfg, c).len() == 0) <==> (c.critical <= cfg.max_critical && c.major
            <= cfg.max_major && c.minor <= cfg.max_minor && c.info <= cfg.max_info),
{
}

/// More violations never turn a failed check into a successful one.
pub proof fn lemma_gate_monotone(cfg: GateConfig, c: SeverityCounts, d: SeverityCounts)
    requires
        c.critical <= d.critical,
        c.major <= d.major,
        c.minor <= d.minor,
        c.info <= d.info,
        gate_failures(cfg, c).len() > 0,
    ensures
        gate_failures(cfg, d).len() > 0,
{
}

/// With the default thresholds a check fails exactly on a critical or major
/// violation.
pub proof fn lemma_default_gate(c: SeverityCounts)
    ensures
        (gate_failures(
            GateConfig { max_critical: 0, max_major: 0, max_minor: usize::MAX, max_info: usize::MAX },
            c,
        ).len() == 0) <==> (c.critical == 0 && c.major == 0),
{
}

} // verus!
