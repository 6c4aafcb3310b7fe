//! Report formats, scan statistics and the text reports (console and CSV);
//! the data that the JSON and SARIF reports are made from.

use vstd::prelude::*;
use crate::gate::count_severity;
use crate::rule::{
    passes_before, seq_order, severity_name, severity_rank, views, Severity, Violation, ViolationV,
    lemma_seq_order_flip, lemma_seq_order_range, lemma_seq_order_trans,
};
use crate::text::{
    all_ascii, append_str, ascii_lower, chars_of, contains_seq, decimal, find_sub, lowercase_of, replace_all,
    replace_chars, str_eq, string_of, to_lowercase, trim, trim_chars, usize_to_string,
};

verus! {

broadcast use vstd::string::group_string_axioms;

/// The supported report formats.
#[derive(Debug, Clone, Copy, PartialEq, Eq, Structural)]
pub enum ReportFormat {
    /// Coloured console text.
    Console,
    /// JSON.
    Json,
    /// SARIF 2.1.0.
    Sarif,
    /// CSV.
    Csv,
}

impl Default for ReportFormat {
    fn default() -> (r: Self)
        ensures
            r == ReportFormat::Console,
    {
        ReportFormat::Console
    }
}

/// The text a format name is looked up by: trimmed, then lower-cased.
pub open spec fn format_key(s: Seq<char>) -> Seq<char> {
    lowercase_of(trim(s))
}

/// The format whose name is `name`, if any.
pub open spec fn format_named(name: Seq<char>) -> Option<ReportFormat> {
    if name == "console"@ {
        Some(ReportFormat::Console)
    } else if name == "json"@ {
        Some(ReportFormat::Json)
    } else if name == "sarif"@ {
        Some(ReportFormat::Sarif)
    } else if name == "csv"@ {
        Some(ReportFormat::Csv)
    } else {
        None
    }
}

impl ReportFormat {
    /// Parses a format name: surrounding white space is ignored and case
    /// does not matter. The error reads `unknown report format: <name>`.
    pub fn parse_name(s: &str) -> (r: Result<ReportFormat, String>)
        ensures
            r matches Ok(f) ==> format_named(format_key(s@)) == Some(f),
            r matches Err(e) ==> format_named(format_key(s@)) is None && e@
                == "unknown report format: "@ + format_key(s@),
            all_ascii(trim(s@)) ==> format_key(s@) == ascii_lower(trim(s@)),
    {
        let cs = chars_of(s);
        let t = trim_chars(cs.as_slice());
        let ts = string_of(t.as_slice());
        let low = to_lowercase(ts.as_str());
        let l = low.as_str();
        if str_eq(l, "console") {
            Ok(ReportFormat::Console)
        } else if str_eq(l, "json") {
            Ok(ReportFormat::Json)
        } else if str_eq(l, "sarif") {
            Ok(ReportFormat::Sarif)
        } else if str_eq(l, "csv") {
            Ok(ReportFormat::Csv)
        } else {
            let mut e = String::new();
            append_str(&mut e, "unknown report format: ");
            append_str(&mut e, l);
            Err(e)
        }
    }
}

impl std::str::FromStr for ReportFormat {
    type Err = String;

    fn from_str(s: &str) -> (r: Result<Self, Self::Err>)
        ensures
            r matches Ok(f) ==> format_named(format_key(s@)) == Some(f),
            r matches Err(e) ==> format_named(format_key(s@)) is None && e@
                == "unknown report format: "@ + format_key(s@),
            all_ascii(trim(s@)) ==> format_key(s@) == ascii_lower(trim(s@)),
    {
        ReportFormat::parse_name(s)
    }
}

/// One key of a tally: the key, the index of its first occurrence and how
/// often it occurs.
pub struct KeyTally {
    pub key: Seq<char>,
    pub first: nat,
    pub count: nat,
}

/// `s` after key `k`, found at index `idx`, is counted: an existing entry
/// is counted once more; a new key is inserted before the first key that
/// orders after it.
pub open spec fn bump_key(s: Seq<KeyTally>, k: Seq<char>, idx: nat) -> Seq<KeyTally>
    decreases s.len(),
{
    if s.len() == 0 {
        seq![KeyTally { key: k, first: idx, count: 1 }]
    } else if s[0].key == k {
        s.update(0, KeyTally { count: s[0].count + 1, ..s[0] })
    } else if seq_order(s[0].key, k) > 0 {
        seq![KeyTally { key: k, first: idx, count: 1 }] + s
    } else {
        seq![s[0]] + bump_key(s.drop_first(), k, idx)
    }
}

/// The tally of a list of keys, ordered by key.
pub open spec fn key_tally(ks: Seq<Seq<char>>) -> Seq<KeyTally>
    decreases ks.len(),
{
    if ks.len() == 0 {
        seq![]
    } else {
        bump_key(key_tally(ks.drop_last()), ks.last(), (ks.len() - 1) as nat)
    }
}

/// The abstract value of an executable tally.
pub open spec fn tally_views(t: Seq<(String, usize, usize)>) -> Seq<KeyTally> {
    t.map_values(|e: (String, usize, usize)| KeyTally { key: e.0@, first: e.1 as nat, count: e.2 as nat })
}

/// The rule ids of a list of violations.
pub open spec fn rule_ids(vs: Seq<ViolationV>) -> Seq<Seq<char>> {
    vs.map_values(|v: ViolationV| v.rule_id)
}

/// The files of a list of violations.
pub open spec fn file_names(vs: Seq<ViolationV>) -> Seq<Seq<char>> {
    vs.map_values(|v: ViolationV| v.file)
}

proof fn lemma_bump_at(s: Seq<KeyTally>, k: Seq<char>, idx: nat, j: int)
    requires
        0 <= j <= s.len(),
        forall|m: int| 0 <= m < j ==> (#[trigger] s[m]).key != k && seq_order(s[m].key, k) <= 0,
    ensures
        bump_key(s, k, idx) == s.take(j) + bump_key(s.skip(j), k, idx),
    decreases j,
{
    if j == 0 {
        assert(s.skip(0) == s);
        assert(s.take(0) + bump_key(s, k, idx) == bump_key(s, k, idx));
    } else {
        let d = s.drop_first();
        assert forall|m: int| 0 <= m < j - 1 implies (#[trigger] d[m]).key != k && seq_order(
            d[m].key,
            k,
        ) <= 0 by {
            assert(d[m] == s[m + 1]);
        }
        lemma_bump_at(d, k, idx, j - 1);
        assert(s[0].key != k && seq_order(s[0].key, k) <= 0);
        assert(d.skip(j - 1) == s.skip(j));
        assert(seq![s[0]] + d.take(j - 1) == s.take(j));
        assert(seq![s[0]] + (d.take(j - 1) + bump_key(s.skip(j), k, idx)) == s.take(j) + bump_key(
            s.skip(j),
            k,
            idx,
        ));
    }
}

/// Tallies a list of keys: each distinct key once, in key order, with the
/// index of its first occurrence and its number of occurrences.
pub fn tally_keys(keys: &Vec<String>) -> (r: Vec<(String, usize, usize)>)
    ensures
        tally_views(r@) == key_tally(keys@.map_values(|k: String| k@)),
{
    let ghost ks = keys@.map_values(|k: String| k@);
    let mut res: Vec<(String, usize, usize)> = Vec::new();
    let mut i: usize = 0;
    assert(ks.take(0) == Seq::<Seq<char>>::empty());
    while i < keys.len()
        invariant
            i <= keys.len(),
            ks == keys@.map_values(|k: String| k@),
            tally_views(res@) == key_tally(ks.take(i as int)),
            forall|m: int| 0 <= m < res.len() ==> (#[trigger] res@[m]).2 <= i && res@[m].1 < i,
        decreases keys.len() - i,
    {
        let k = &keys[i];
        assert(ks[i as int] == k@);
        let kc = chars_of(k.as_str());
        let ghost t = tally_views(res@);
        let mut j: usize = 0;
        while j < res.len() && passes_before(&res[j].0, kc.as_slice())
            invariant
                j <= res.len(),
                t == tally_views(res@),
                kc@ == k@,
                forall|m: int| 0 <= m < j ==> (#[trigger] t[m]).key != k@ && seq_order(t[m].key, k@) <= 0,
            decreases res.len() - j,
        {
            assert(t[j as int].key == res@[j as int].0@);
            j += 1;
        }
        proof {
            lemma_bump_at(t, k@, i as nat, j as int);
            assert(ks.take(i + 1).drop_last() == ks.take(i as int));
            assert(ks.take(i + 1).last() == k@);
        }
        if j < res.len() && res[j].0 == *k {
            let n = res[j].2;
            let f = res[j].1;
            let key = res[j].0.clone();
            assert(t.skip(j as int)[0] == t[j as int]);
            res.set(j, (key, f, n + 1));
            assert(tally_views(res@) == t.update(j as int, KeyTally { count: t[j as int].count + 1, ..t[j as int] }));
            assert(t.skip(j as int).update(0, KeyTally { count: t[j as int].count + 1, ..t[j as int] })
                == t.update(j as int, KeyTally { count: t[j as int].count + 1, ..t[j as int] }).skip(j as int));
            assert(t.take(j as int) + t.update(j as int, KeyTally { count: t[j as int].count + 1, ..t[j as int] }).skip(j as int)
                == t.update(j as int, KeyTally { count: t[j as int].count + 1, ..t[j as int] }));
        } else {
            proof {
                if j < res.len() {
                    assert(t[j as int].key == res@[j as int].0@);
                    assert(t.skip(j as int)[0] == t[j as int]);
                }
            }
            res.insert(j, (k.clone(), i, 1));
            let ghost e = KeyTally { key: k@, first: i as nat, count: 1 };
            assert(tally_views(res@) == t.insert(j as int, e));
            assert(t.take(j as int) + (seq![e] + t.skip(j as int)) == t.insert(j as int, e));
            proof {
                if j == t.len() {
                    assert(t.skip(j as int) == Seq::<KeyTally>::empty());
                    assert(seq![e] + t.skip(j as int) == seq![e]);
                }
            }
        }
        i += 1;
    }
    assert(ks.take(i as int) == ks);
    res
}

/// Violation counts per severity.
#[derive(Debug, Clone, Copy)]
pub struct BySeverity {
    pub critical: usize,
    pub major: usize,
    pub minor: usize,
    pub info: usize,
}

impl Default for BySeverity {
    fn default() -> (r: Self)
        ensures
            r.critical == 0 && r.major == 0 && r.minor == 0 && r.info == 0,
    {
        BySeverity { critical: 0, major: 0, minor: 0, info: 0 }
    }
}

/// Statistics of a scan.
#[derive(Debug, Clone)]
pub struct ScanStats {
    pub files_scanned: usize,
    pub parse_errors: usize,
    pub total_violations: usize,
    pub by_severity: BySeverity,
    /// Violations per rule id, ordered by rule id.
    pub by_rule: Vec<(String, usize)>,
}

/// The `(rule id, count)` pairs of an executable per-rule list.
pub open spec fn rule_count_views(s: Seq<(String, usize)>) -> Seq<(Seq<char>, nat)> {
    s.map_values(|e: (String, usize)| (e.0@, e.1 as nat))
}

/// The `(key, count)` pairs of a tally.
pub open spec fn tally_counts(t: Seq<KeyTally>) -> Seq<(Seq<char>, nat)> {
    t.map_values(|e: KeyTally| (e.key, e.count))
}

impl Default for ScanStats {
    fn default() -> (r: Self)
        ensures
            r.files_scanned == 0 && r.parse_errors == 0 && r.total_violations == 0,
            r.by_severity.critical == 0 && r.by_severity.major == 0,
            r.by_severity.minor == 0 && r.by_severity.info == 0,
            r.by_rule@.len() == 0,
    {
        ScanStats {
            files_scanned: 0,
            parse_errors: 0,
            total_violations: 0,
            by_severity: BySeverity::default(),
            by_rule: Vec::new(),
        }
    }
}

impl ScanStats {
    /// The statistics of `violations`.
    pub fn from_violations(violations: &[Violation], files_scanned: usize, parse_errors: usize) -> (r:
        Self)
        ensures
            r.files_scanned == files_scanned,
            r.parse_errors == parse_errors,
            r.total_violations == violations@.len(),
            r.by_severity.critical == count_severity(violations@, Severity::Critical),
            r.by_severity.major == count_severity(violations@, Severity::Major),
            r.by_severity.minor == count_severity(violations@, Severity::Minor),
            r.by_severity.info == count_severity(violations@, Severity::Info),
            rule_count_views(r.by_rule@) == tally_counts(key_tally(rule_ids(views(violations@)))),
    {
        let c = crate::gate::SeverityCounts::from_violations(violations);
        let mut ids: Vec<String> = Vec::new();
        let mut i: usize = 0;
        while i < violations.len()
            invariant
                i <= violations.len(),
                ids@.len() == i,
                forall|m: int| 0 <= m < i ==> (#[trigger] ids@[m])@ == violations@[m].rule_id.0@,
            decreases violations.len() - i,
        {
            ids.push(violations[i].rule_id.0.clone());
            i += 1;
        }
        assert(ids@.map_values(|k: String| k@) =~= rule_ids(views(violations@)));
        let t = tally_keys(&ids);
        let mut by_rule: Vec<(String, usize)> = Vec::new();
        let mut j: usize = 0;
        while j < t.len()
            invariant
                j <= t.len(),
                by_rule@.len() == j,
                forall|m: int|
                    0 <= m < j ==> (#[trigger] by_rule@[m]).0@ == t@[m].0@ && by_rule@[m].1 == t@[m].2,
            decreases t.len() - j,
        {
            by_rule.push((t[j].0.clone(), t[j].2));
            j += 1;
        }
        assert(rule_count_views(by_rule@) =~= tally_counts(tally_views(t@)));
        ScanStats {
            files_scanned,
            parse_errors,
            total_violations: violations.len(),
            by_severity: BySeverity {
                critical: c.critical,
                major: c.major,
                minor: c.minor,
                info: c.info,
            },
            by_rule,
        }
    }

    /// The number of violations of rule `id`, if any rule with that id
    /// reported one.
    pub fn rule_count(&self, id: &str) -> (r: Option<usize>)
        ensures
            r matches Some(n) ==> exists|i: int|
                0 <= i < self.by_rule@.len() && (#[trigger] self.by_rule@[i]).0@ == id@
                    && self.by_rule@[i].1 == n,
            r is None ==> forall|i: int|
                0 <= i < self.by_rule@.len() ==> (#[trigger] self.by_rule@[i]).0@ != id@,
    {
        let mut i: usize = 0;
        while i < self.by_rule.len()
            invariant
                i <= self.by_rule.len(),
                forall|m: int| 0 <= m < i ==> (#[trigger] self.by_rule@[m]).0@ != id@,
            decreases self.by_rule.len() - i,
        {
            if str_eq(self.by_rule[i].0.as_str(), id) {
                return Some(self.by_rule[i].1);
            }
            i += 1;
        }
        None
    }
}

/// ANSI colour of a severity in console output.
pub open spec fn severity_color(s: Severity) -> Seq<char> {
    match s {
        Severity::Critical => "\x1b[31m"@,
        Severity::Major => "\x1b[31m"@,
        Severity::Minor => "\x1b[33m"@,
        Severity::Info => "\x1b[34m"@,
    }
}

fn append_severity_color(out: &mut String, s: Severity)
    ensures
        final(out)@ == old(out)@ + severity_color(s),
{
    match s {
        Severity::Critical => append_str(out, "\x1b[31m"),
        Severity::Major => append_str(out, "\x1b[31m"),
        Severity::Minor => append_str(out, "\x1b[33m"),
        Severity::Info => append_str(out, "\x1b[34m"),
    }
}

/// `"s"` for a count above one, else nothing.
pub open spec fn plural(n: nat) -> Seq<char> {
    if n > 1 {
        "s"@
    } else {
        ""@
    }
}

/// `"-<end>"` for a violation with an end line, else nothing.
pub open spec fn end_suffix(e: Option<usize>) -> Seq<char> {
    match e {
        Some(x) => "-"@ + decimal(x as nat),
        None => ""@,
    }
}

/// `acc` followed by the two console lines of one violation.
pub open spec fn console_violation(acc: Seq<char>, v: ViolationV) -> Seq<char> {
    acc + "  "@ + "\x1b[90m"@ + decimal(v.line) + ":"@ + end_suffix(v.end_line) + "\x1b[0m"@ + " "@
        + severity_color(v.severity) + severity_name(v.severity) + "\x1b[0m"@ + "\n"@ + "    "@
        + "\x1b[1m"@ + v.rule_id + "\x1b[0m"@ + " "@ + v.message + "\n"@
}

/// Whether `a` is listed after `b` in a file's console block: it is less
/// severe, or as severe and on a later line.
pub open spec fn console_after(a: ViolationV, b: ViolationV) -> bool {
    severity_rank(a.severity) < severity_rank(b.severity) || (severity_rank(a.severity)
        == severity_rank(b.severity) && a.line > b.line)
}

/// Inserts `x` into `s` after every element it is not listed before.
pub open spec fn console_insert(s: Seq<ViolationV>, x: ViolationV) -> Seq<ViolationV>
    decreases s.len(),
{
    if s.len() == 0 {
        seq![x]
    } else if console_after(s.last(), x) {
        console_insert(s.drop_last(), x).push(s.last())
    } else {
        s.push(x)
    }
}

/// `vs` in console order: most severe first, then by line; violations with
/// the same severity and line keep their order.
pub open spec fn console_sorted(vs: Seq<ViolationV>) -> Seq<ViolationV>
    decreases vs.len(),
{
    if vs.len() == 0 {
        vs
    } else {
        console_insert(console_sorted(vs.drop_last()), vs.last())
    }
}

/// The violations of `vs` in file `f`, in order.
pub open spec fn of_file(vs: Seq<ViolationV>, f: Seq<char>) -> Seq<ViolationV>
    decreases vs.len(),
{
    if vs.len() == 0 {
        vs
    } else {
        let p = of_file(vs.drop_last(), f);
        if vs.last().file == f {
            p.push(vs.last())
        } else {
            p
        }
    }
}

/// `acc` followed by the console lines of the violations `vs`, in order.
pub open spec fn console_lines(acc: Seq<char>, vs: Seq<ViolationV>) -> Seq<char>
    decreases vs.len(),
{
    if vs.len() == 0 {
        acc
    } else {
        console_violation(console_lines(acc, vs.drop_last()), vs.last())
    }
}

/// `acc` followed by the console lines of the violations of `vs` in file `f`,
/// most severe first, then by line.
pub open spec fn console_file_violations(acc: Seq<char>, vs: Seq<ViolationV>, f: Seq<char>) -> Seq<
    char,
> {
    console_lines(acc, console_sorted(of_file(vs, f)))
}

proof fn lemma_console_insert_at(s: Seq<ViolationV>, x: ViolationV, j: int)
    requires
        0 <= j <= s.len(),
        forall|k: int| j <= k < s.len() ==> console_after(#[trigger] s[k], x),
        j == 0 || !console_after(s[j - 1], x),
    ensures
        console_insert(s, x) == s.take(j).push(x) + s.skip(j),
    decreases s.len() - j,
{
    if s.len() == 0 {
        assert(s.take(j).push(x) + s.skip(j) == seq![x]);
    } else if j == s.len() {
        assert(s.take(j) == s);
        assert(s.skip(j) == Seq::<ViolationV>::empty());
        assert(s.take(j).push(x) + s.skip(j) == s.push(x));
    } else {
        let d = s.drop_last();
        assert(console_after(s.last(), x));
        assert forall|k: int| j <= k < d.len() implies console_after(#[trigger] d[k], x) by {
            assert(d[k] == s[k]);
        }
        if j > 0 {
            assert(d[j - 1] == s[j - 1]);
        }
        lemma_console_insert_at(d, x, j);
        assert(d.take(j) == s.take(j));
        assert((d.take(j).push(x) + d.skip(j)).push(s.last()) == s.take(j).push(x) + s.skip(j));
    }
}

/// Whether `s` is in console order: no element is listed after a later one.
pub open spec fn console_ordered(s: Seq<ViolationV>) -> bool {
    forall|i: int, j: int| 0 <= i < j < s.len() ==> !console_after(s[i], s[j])
}

proof fn lemma_console_insert_props(s: Seq<ViolationV>, x: ViolationV)
    requires
        console_ordered(s),
    ensures
        console_ordered(console_insert(s, x)),
        console_insert(s, x).to_multiset() == s.to_multiset().insert(x),
    decreases s.len(),
{
    broadcast use vstd::seq_lib::group_to_multiset_ensures;

    if s.len() == 0 {
        assert(seq![x] == Seq::<ViolationV>::empty().push(x));
    } else {
        let d = s.drop_last();
        let l = s.last();
        assert(d.push(l) == s);
        if console_after(l, x) {
            assert(console_ordered(d));
            lemma_console_insert_props(d, x);
            let t = console_insert(d, x);
            assert forall|k: int| 0 <= k < t.len() implies !console_after(t[k], l) by {
                assert(t.to_multiset().count(t[k]) > 0);
                if t[k] != x {
                    assert(d.to_multiset().count(t[k]) > 0);
                    assert(d.contains(t[k]));
                    let m = choose|m: int| 0 <= m < d.len() && d[m] == t[k];
                    assert(s[m] == d[m]);
                    assert(!console_after(s[m], s[s.len() - 1]));
                }
            }
            assert forall|i: int, j: int|
                0 <= i < j < t.push(l).len() implies !console_after(t.push(l)[i], t.push(l)[j]) by {
                if j == t.len() {
                    assert(t.push(l)[j] == l);
                    assert(t.push(l)[i] == t[i]);
                } else {
                    assert(t.push(l)[i] == t[i]);
                    assert(t.push(l)[j] == t[j]);
                }
            }
        } else {
            assert forall|i: int, j: int|
                0 <= i < j < s.push(x).len() implies !console_after(s.push(x)[i], s.push(x)[j]) by {
                if j == s.len() {
                    assert(s.push(x)[i] == s[i]);
                    if i < s.len() - 1 {
                        assert(!console_after(s[i], l));
                    }
                } else {
                    assert(s.push(x)[i] == s[i]);
                    assert(s.push(x)[j] == s[j]);
                }
            }
        }
    }
}

proof fn lemma_console_sorted_props(s: Seq<ViolationV>)
    ensures
        console_ordered(console_sorted(s)),
        console_sorted(s).to_multiset() == s.to_multiset(),
    decreases s.len(),
{
    broadcast use vstd::seq_lib::group_to_multiset_ensures;

    if s.len() > 0 {
        lemma_console_sorted_props(s.drop_last());
        lemma_console_insert_props(console_sorted(s.drop_last()), s.last());
        assert(s.drop_last().push(s.last()) == s);
    }
}

proof fn lemma_of_file_props(vs: Seq<ViolationV>, f: Seq<char>)
    ensures
        forall|i: int| 0 <= i < of_file(vs, f).len() ==> (#[trigger] of_file(vs, f)[i]).file == f,
        forall|i: int| 0 <= i < vs.len() && vs[i].file == f ==> of_file(vs, f).contains(#[trigger] vs[i]),
    decreases vs.len(),
{
    if vs.len() > 0 {
        lemma_of_file_props(vs.drop_last(), f);
        let p = of_file(vs.drop_last(), f);
        assert forall|i: int| 0 <= i < vs.len() && vs[i].file == f implies of_file(vs, f).contains(
            #[trigger] vs[i],
        ) by {
            if i < vs.len() - 1 {
                assert(vs.drop_last()[i] == vs[i]);
                assert(p.contains(vs[i]));
                let m = choose|m: int| 0 <= m < p.len() && p[m] == vs[i];
                if vs.last().file == f {
                    assert(p.push(vs.last())[m] == vs[i]);
                }
            } else {
                assert(p.push(vs.last())[p.len() as int] == vs[i]);
            }
        }
    }
}

/// The console block of a file lists exactly the violations of that file
/// (each as often as it occurs), most severe first and, among equally severe
/// ones, by line.
pub proof fn lemma_console_block(vs: Seq<ViolationV>, f: Seq<char>)
    ensures
        console_ordered(console_sorted(of_file(vs, f))),
        console_sorted(of_file(vs, f)).to_multiset() == of_file(vs, f).to_multiset(),
        forall|i: int| 0 <= i < of_file(vs, f).len() ==> (#[trigger] of_file(vs, f)[i]).file == f,
        forall|i: int| 0 <= i < vs.len() && vs[i].file == f ==> of_file(vs, f).contains(#[trigger] vs[i]),
{
    lemma_console_sorted_props(of_file(vs, f));
    lemma_of_file_props(vs, f);
}

fn listed_after(a: &Violation, b: &Violation) -> (r: bool)
    ensures
        r == console_after(a@, b@),
{
    let ra = a.severity.rank();
    let rb = b.severity.rank();
    ra < rb || (ra == rb && a.line > b.line)
}

/// `acc` followed by the header line of a file with `n` violations.
pub open spec fn console_file_header(acc: Seq<char>, f: Seq<char>, n: nat) -> Seq<char> {
    acc + "\n"@ + "\x1b[1m"@ + f + "\x1b[0m"@ + " ("@ + decimal(n) + " issue"@ + plural(n) + ")"@
        + "\n"@
}

/// `acc` followed by the blocks of the files `gs`, each a header and the
/// file's violations in their order in `vs`.
pub open spec fn console_groups(acc: Seq<char>, gs: Seq<KeyTally>, vs: Seq<ViolationV>) -> Seq<char>
    decreases gs.len(),
{
    if gs.len() == 0 {
        acc
    } else {
        let a = console_groups(acc, gs.drop_last(), vs);
        console_file_violations(console_file_header(a, gs.last().key, gs.last().count), vs, gs.last().key)
    }
}

/// `acc` followed by the closing summary line.
pub open spec fn console_summary(acc: Seq<char>, total: nat, files: nat) -> Seq<char> {
    acc + "\n"@ + "\x1b[1m"@ + decimal(total) + " violation"@ + plural(total) + " in "@ + decimal(
        files,
    ) + " file"@ + plural(files) + "\x1b[0m"@ + "\n"@
}

/// `acc` followed by the console report of `vs`: the files in path order,
/// then a summary; a single green line where there is nothing to report.
pub open spec fn console_report(acc: Seq<char>, vs: Seq<ViolationV>) -> Seq<char> {
    if vs.len() == 0 {
        acc + "\x1b[32m"@ + "No issues found."@ + "\x1b[0m"@ + "\n"@
    } else {
        let gs = key_tally(file_names(vs));
        console_summary(console_groups(acc, gs, vs), vs.len(), gs.len())
    }
}

fn append_usize(out: &mut String, n: usize)
    ensures
        final(out)@ == old(out)@ + decimal(n as nat),
{
    let d = usize_to_string(n);
    append_str(out, d.as_str());
}

fn append_plural(out: &mut String, n: usize)
    ensures
        final(out)@ == old(out)@ + plural(n as nat),
{
    if n > 1 {
        append_str(out, "s");
    } else {
        append_str(out, "");
    }
}

fn append_console_violation(out: &mut String, v: &Violation)
    ensures
        final(out)@ == console_violation(old(out)@, v@),
{
    append_str(out, "  ");
    append_str(out, "\x1b[90m");
    append_usize(out, v.line);
    append_str(out, ":");
    match v.end_line {
        Some(e) => {
            let ghost before = out@;
            append_str(out, "-");
            append_usize(out, e);
            assert(out@ == before + ("-"@ + decimal(e as nat)));
        },
        None => {
            append_str(out, "");
        },
    }
    append_str(out, "\x1b[0m");
    append_str(out, " ");
    append_severity_color(out, v.severity);
    append_str(out, v.severity.as_str());
    append_str(out, "\x1b[0m");
    append_str(out, "\n");
    append_str(out, "    ");
    append_str(out, "\x1b[1m");
    append_str(out, v.rule_id.0.as_str());
    append_str(out, "\x1b[0m");
    append_str(out, " ");
    append_str(out, v.message.as_str());
    append_str(out, "\n");
}

/// The console report.
pub struct ConsoleReporter;

impl ConsoleReporter {
    /// Appends the console report of `violations` to `out`.
    pub fn report_to(out: &mut String, violations: &[Violation])
        ensures
            final(out)@ == console_report(old(out)@, views(violations@)),
    {
        let ghost vs = views(violations@);
        if violations.len() == 0 {
            append_str(out, "\x1b[32m");
            append_str(out, "No issues found.");
            append_str(out, "\x1b[0m");
            append_str(out, "\n");
            return;
        }
        let mut files: Vec<String> = Vec::new();
        let mut i: usize = 0;
        while i < violations.len()
            invariant
                i <= violations.len(),
                files@.len() == i,
                forall|m: int| 0 <= m < i ==> (#[trigger] files@[m])@ == violations@[m].file@,
            decreases violations.len() - i,
        {
            files.push(violations[i].file.clone());
            i += 1;
        }
        assert(files@.map_values(|k: String| k@) =~= file_names(vs));
        let gs = tally_keys(&files);
        let ghost gv = tally_views(gs@);
        let ghost acc0 = out@;
        let mut g: usize = 0;
        assert(gv.take(0) == Seq::<KeyTally>::empty());
        while g < gs.len()
            invariant
                g <= gs.len(),
                gv == tally_views(gs@),
                vs == views(violations@),
                out@ == console_groups(acc0, gv.take(g as int), vs),
            decreases gs.len() - g,
        {
            let f = &gs[g].0;
            assert(gv[g as int].key == f@);
            append_str(out, "\n");
            append_str(out, "\x1b[1m");
            append_str(out, f.as_str());
            append_str(out, "\x1b[0m");
            append_str(out, " (");
            append_usize(out, gs[g].2);
            append_str(out, " issue");
            append_plural(out, gs[g].2);
            append_str(out, ")");
            append_str(out, "\n");
            let ghost head = out@;
            let mut mine: Vec<Violation> = Vec::new();
            let mut k: usize = 0;
            assert(vs.take(0) == Seq::<ViolationV>::empty());
            while k < violations.len()
                invariant
                    k <= violations.len(),
                    vs == views(violations@),
                    views(mine@) == console_sorted(of_file(vs.take(k as int), f@)),
                decreases violations.len() - k,
            {
                assert(vs.take(k + 1).drop_last() == vs.take(k as int));
                assert(vs.take(k + 1).last() == violations@[k as int]@);
                if violations[k].file == *f {
                    let x = violations[k].clone();
                    let ghost before = views(mine@);
                    let mut j: usize = mine.len();
                    while j > 0 && listed_after(&mine[j - 1], &x)
                        invariant
                            j <= mine.len(),
                            before == views(mine@),
                            forall|m: int| j <= m < mine.len() ==> console_after(#[trigger] before[m], x@),
                        decreases j,
                    {
                        j -= 1;
                    }
                    proof {
                        lemma_console_insert_at(before, x@, j as int);
                    }
                    let ghost xv = x@;
                    mine.insert(j, x);
                    assert(views(mine@) =~= before.take(j as int).push(xv) + before.skip(j as int));
                    let ghost p = of_file(vs.take(k as int), f@);
                    assert(of_file(vs.take(k + 1), f@) == p.push(xv));
                    assert(p.push(xv).drop_last() == p);
                    assert(console_sorted(p.push(xv)) == console_insert(console_sorted(p), xv));
                } else {
                    assert(of_file(vs.take(k + 1), f@) == of_file(vs.take(k as int), f@));
                }
                k += 1;
            }
            assert(vs.take(k as int) == vs);
            let ghost sorted = views(mine@);
            let mut i: usize = 0;
            assert(sorted.take(0) == Seq::<ViolationV>::empty());
            while i < mine.len()
                invariant
                    i <= mine.len(),
                    sorted == views(mine@),
                    out@ == console_lines(head, sorted.take(i as int)),
                decreases mine.len() - i,
            {
                assert(sorted.take(i + 1).drop_last() == sorted.take(i as int));
                assert(sorted.take(i + 1).last() == mine@[i as int]@);
                append_console_violation(out, &mine[i]);
                i += 1;
            }
            assert(sorted.take(i as int) == sorted);
            assert(gv.take(g + 1).drop_last() == gv.take(g as int));
            assert(gv.take(g + 1).last() == gv[g as int]);
            g += 1;
        }
        assert(gv.take(g as int) == gv);
        append_str(out, "\n");
        append_str(out, "\x1b[1m");
        append_usize(out, violations.len());
        append_str(out, " violation");
        append_plural(out, violations.len());
        append_str(out, " in ");
        append_usize(out, gs.len());
        append_str(out, " file");
        append_plural(out, gs.len());
        append_str(out, "\x1b[0m");
        append_str(out, "\n");
    }
}

/// A CSV field: quoted, with inner quotes doubled, when it holds a comma, a
/// quote or a line feed; else as it is.
pub open spec fn csv_field(s: Seq<char>) -> Seq<char> {
    if contains_seq(s, seq![',']) || contains_seq(s, seq!['"']) || contains_seq(s, seq!['\n']) {
        seq!['"'] + replace_all(s, seq!['"'], seq!['"', '"']) + seq!['"']
    } else {
        s
    }
}

/// Escapes a CSV field.
pub fn csv_escape(s: &str) -> (r: String)
    ensures
        r@ == csv_field(s@),
{
    let cs = chars_of(s);
    let comma: Vec<char> = vec![','];
    let quote: Vec<char> = vec!['"'];
    let nl: Vec<char> = vec!['\n'];
    assert(comma@ == seq![',']);
    assert(quote@ == seq!['"']);
    assert(nl@ == seq!['\n']);
    if find_sub(cs.as_slice(), comma.as_slice(), 0).is_some() || find_sub(
        cs.as_slice(),
        quote.as_slice(),
        0,
    ).is_some() || find_sub(cs.as_slice(), nl.as_slice(), 0).is_some() {
        let twice: Vec<char> = vec!['"', '"'];
        let body = replace_chars(cs.as_slice(), quote.as_slice(), twice.as_slice());
        let mut out: Vec<char> = Vec::new();
        out.push('"');
        let mut i: usize = 0;
        while i < body.len()
            invariant
                i <= body.len(),
                out@ == seq!['"'] + body@.take(i as int),
            decreases body.len() - i,
        {
            out.push(body[i]);
            assert(body@.take(i + 1) == body@.take(i as int).push(body@[i as int]));
            i += 1;
        }
        out.push('"');
        assert(body@.take(i as int) == body@);
        assert(twice@ == seq!['"', '"']);
        string_of(out.as_slice())
    } else {
        String::from_str(s)
    }
}

/// `acc` followed by the CSV row of one violation.
pub open spec fn csv_row(acc: Seq<char>, v: ViolationV) -> Seq<char> {
    acc + csv_field(v.rule_id) + ","@ + severity_name(v.severity) + ","@ + csv_field(v.file) + ","@
        + decimal(v.line) + ","@
        + match v.end_line {
        Some(e) => decimal(e as nat),
        None => ""@,
    } + ","@ + csv_field(v.message) + "\n"@
}

/// The end-line column of a CSV row holds the violation's end line in
/// decimal, and nothing when it has none: the row of a violation without an
/// end line has that column empty, between the comma after the line and the
/// comma before the message, and giving the violation end line `e` puts the
/// digits of `e` there and changes nothing else.
pub proof fn lemma_csv_end_column(acc: Seq<char>, v: ViolationV, e: usize)
    requires
        v.end_line is None,
    ensures
        ({
            let tail = ","@ + csv_field(v.message) + "\n"@;
            let row = csv_row(acc, v);
            &&& row.len() >= tail.len() + 1
            &&& row.subrange(row.len() - tail.len() - 1, row.len() as int) == ","@ + tail
            &&& csv_row(acc, ViolationV { end_line: Some(e), ..v }) == row.subrange(
                0,
                row.len() - tail.len(),
            ) + decimal(e as nat) + tail
        }),
{
    let tail = ","@ + csv_field(v.message) + "\n"@;
    let x = acc + csv_field(v.rule_id) + ","@ + severity_name(v.severity) + ","@ + csv_field(v.file) + ","@
        + decimal(v.line) + ","@;
    let row = csv_row(acc, v);
    reveal_strlit("");
    reveal_strlit(",");
    assert(row =~= x + tail);
    assert(row.subrange(0, row.len() - tail.len()) =~= x);
    assert(x.len() >= 1 && x[x.len() - 1] == ',');
    assert(row.subrange(row.len() - tail.len() - 1, row.len() as int) =~= ","@ + tail);
    assert(csv_row(acc, ViolationV { end_line: Some(e), ..v }) =~= x + decimal(e as nat) + tail);
}

/// `acc` followed by the CSV rows of `vs`.
pub open spec fn csv_rows(acc: Seq<char>, vs: Seq<ViolationV>) -> Seq<char>
    decreases vs.len(),
{
    if vs.len() == 0 {
        acc
    } else {
        csv_row(csv_rows(acc, vs.drop_last()), vs.last())
    }
}

/// `acc` followed by the CSV report of `vs`: a header line, then one row
/// per violation.
pub open spec fn csv_report(acc: Seq<char>, vs: Seq<ViolationV>) -> Seq<char> {
    csv_rows(acc + "rule_id,severity,file,line,end_line,message"@ + "\n"@, vs)
}

/// The CSV report.
pub struct CsvReporter;

impl CsvReporter {
    /// Appends the CSV report of `violations` to `out`.
    pub fn report_to(out: &mut String, violations: &[Violation])
        ensures
            final(out)@ == csv_report(old(out)@, views(violations@)),
    {
        let ghost vs = views(violations@);
        append_str(out, "rule_id,severity,file,line,end_line,message");
        append_str(out, "\n");
        let ghost head = out@;
        let mut i: usize = 0;
        assert(vs.take(0) == Seq::<ViolationV>::empty());
        while i < violations.len()
            invariant
                i <= violations.len(),
                vs == views(violations@),
                out@ == csv_rows(head, vs.take(i as int)),
            decreases violations.len() - i,
        {
            let v = &violations[i];
            assert(vs.take(i + 1).drop_last() == vs.take(i as int));
            assert(vs.take(i + 1).last() == v@);
            let id = csv_escape(v.rule_id.0.as_str());
            append_str(out, id.as_str());
            append_str(out, ",");
            append_str(out, v.severity.as_str());
            append_str(out, ",");
            let file = csv_escape(v.file.as_str());
            append_str(out, file.as_str());
            append_str(out, ",");
            append_usize(out, v.line);
            append_str(out, ",");
            match v.end_line {
                Some(e) => append_usize(out, e),
                None => append_str(out, ""),
            }
            append_str(out, ",");
            let m = csv_escape(v.message.as_str());
            append_str(out, m.as_str());
            append_str(out, "\n");
            i += 1;
        }
        assert(vs.take(i as int) == vs);
    }
}

/// Scan information of a JSON report.
#[derive(Debug)]
pub struct JsonScanInfo {
    pub timestamp: String,
    pub files_scanned: usize,
    pub parse_errors: usize,
    pub duration_ms: Option<u64>,
}

/// The content of a JSON report.
#[derive(Debug)]
pub struct JsonReport {
    pub version: String,
    pub scan_info: JsonScanInfo,
    pub violations: Vec<Violation>,
    pub stats: ScanStats,
}

fn copy_violations(vs: &[Violation]) -> (r: Vec<Violation>)
    ensures
        r@ == vs@,
{
    let mut r: Vec<Violation> = Vec::new();
    let mut i: usize = 0;
    while i < vs.len()
        invariant
            i <= vs.len(),
            r@ == vs@.take(i as int),
        decreases vs.len() - i,
    {
        r.push(vs[i].clone());
        assert(vs@.take(i + 1) == vs@.take(i as int).push(vs@[i as int]));
        i += 1;
    }
    assert(vs@.take(i as int) == vs@);
    r
}

/// Whether `r` is the JSON report content of `vs` with the given scan
/// information: format version `"1.0"`, the violations in order and their
/// statistics.
pub open spec fn json_report_of(
    r: JsonReport,
    vs: Seq<Violation>,
    files_scanned: usize,
    parse_errors: usize,
    duration_ms: Option<u64>,
    timestamp: String,
) -> bool {
    &&& r.version@ == "1.0"@
    &&& r.scan_info.timestamp == timestamp
    &&& r.scan_info.files_scanned == files_scanned
    &&& r.scan_info.parse_errors == parse_errors
    &&& r.scan_info.duration_ms == duration_ms
    &&& r.violations@ == vs
    &&& r.stats.files_scanned == files_scanned
    &&& r.stats.parse_errors == parse_errors
    &&& r.stats.total_violations == vs.len()
    &&& r.stats.by_severity.critical == count_severity(vs, Severity::Critical)
    &&& r.stats.by_severity.major == count_severity(vs, Severity::Major)
    &&& r.stats.by_severity.minor == count_severity(vs, Severity::Minor)
    &&& r.stats.by_severity.info == count_severity(vs, Severity::Info)
    &&& rule_count_views(r.stats.by_rule@) == tally_counts(key_tally(rule_ids(views(vs))))
}

/// The JSON report.
pub struct JsonReporter;

impl JsonReporter {
    /// The content of the JSON report of `violations`, stamped with
    /// `timestamp`: format version `"1.0"`, the scan information, the
    /// violations in order and their statistics.
    pub fn build(
        violations: &[Violation],
        files_scanned: usize,
        parse_errors: usize,
        duration_ms: Option<u64>,
        timestamp: String,
    ) -> (r: JsonReport)
        ensures
            json_report_of(r, violations@, files_scanned, parse_errors, duration_ms, timestamp),
    {
        JsonReport {
            version: String::from_str("1.0"),
            scan_info: JsonScanInfo { timestamp, files_scanned, parse_errors, duration_ms },
            violations: copy_violations(violations),
            stats: ScanStats::from_violations(violations, files_scanned, parse_errors),
        }
    }
}

/// The SARIF level of a severity.
pub open spec fn sarif_level_name(s: Severity) -> Seq<char> {
    match s {
        Severity::Critical => "error"@,
        Severity::Major => "error"@,
        Severity::Minor => "warning"@,
        Severity::Info => "note"@,
    }
}

/// The SARIF level of a severity.
pub fn sarif_level(s: Severity) -> (r: &'static str)
    ensures
        r@ == sarif_level_name(s),
{
    match s {
        Severity::Critical => "error",
        Severity::Major => "error",
        Severity::Minor => "warning",
        Severity::Info => "note",
    }
}

/// A rule entry of a SARIF log.
#[derive(Debug)]
pub struct SarifRule {
    pub id: String,
    /// The message of the rule's first violation.
    pub message: String,
    /// The level of the rule's first violation.
    pub level: String,
}

/// A result entry of a SARIF log.
#[derive(Debug)]
pub struct SarifResult {
    pub rule_id: String,
    pub level: String,
    pub message: String,
    pub uri: String,
    pub start_line: usize,
    pub end_line: usize,
}

/// The content of a SARIF log: the format version and schema, the tool that
/// wrote it, its rules and its results.
#[derive(Debug)]
pub struct SarifLog {
    pub version: String,
    pub schema: String,
    pub tool_name: String,
    pub information_uri: String,
    pub rules: Vec<SarifRule>,
    pub results: Vec<SarifResult>,
}

/// Whether `r` is the SARIF rule entry made from the tally entry `t` of `vs`.
pub open spec fn sarif_rule_of(r: SarifRule, t: KeyTally, vs: Seq<ViolationV>) -> bool {
    &&& r.id@ == t.key
    &&& r.message@ == vs[t.first as int].message
    &&& r.level@ == sarif_level_name(vs[t.first as int].severity)
}

/// Whether `r` is the SARIF result entry of violation `v`.
pub open spec fn sarif_result_of(r: SarifResult, v: ViolationV) -> bool {
    &&& r.rule_id@ == v.rule_id
    &&& r.level@ == sarif_level_name(v.severity)
    &&& r.message@ == v.message
    &&& r.uri@ == v.file
    &&& r.start_line == v.line
    &&& r.end_line == match v.end_line {
        Some(e) => e,
        None => v.line as usize,
    }
}

/// Whether `r` is the SARIF log of `vs`: version 2.1.0 written by
/// `java-guard`; one rule per rule id, in id order, described by its first violation; one
/// result per violation, in order.
pub open spec fn sarif_log_of(r: SarifLog, vs: Seq<ViolationV>) -> bool {
    &&& r.version@ == "2.1.0"@
    &&& r.schema@ == "https://raw.githubusercontent.com/oasis-tcs/sarif-spec/main/Schemata/sarif-schema-2.1.0.json"@
    &&& r.tool_name@ == "java-guard"@
    &&& r.information_uri@ == "https://github.com/javaguard/java-guard"@
    &&& r.rules@.len() == key_tally(rule_ids(vs)).len()
    &&& forall|i: int|
        0 <= i < r.rules@.len() ==> sarif_rule_of(#[trigger] r.rules@[i], key_tally(rule_ids(vs))[i], vs)
    &&& r.results@.len() == vs.len()
    &&& forall|i: int| 0 <= i < r.results@.len() ==> sarif_result_of(#[trigger] r.results@[i], vs[i])
}

/// The SARIF report.
pub struct SarifReporter;

impl SarifReporter {
    /// The SARIF log of `violations`: version 2.1.0, tool `java-guard`, one rule per
    /// rule id, in id order, described by its first violation; one result
    /// per violation, in order.
    pub fn build(violations: &[Violation]) -> (r: SarifLog)
        ensures
            sarif_log_of(r, views(violations@)),
    {
        let ghost vs = views(violations@);
        let mut ids: Vec<String> = Vec::new();
        let mut i: usize = 0;
        while i < violations.len()
            invariant
                i <= violations.len(),
                ids@.len() == i,
                forall|m: int| 0 <= m < i ==> (#[trigger] ids@[m])@ == violations@[m].rule_id.0@,
            decreases violations.len() - i,
        {
            ids.push(violations[i].rule_id.0.clone());
            i += 1;
        }
        assert(ids@.map_values(|k: String| k@) =~= rule_ids(vs));
        let t = tally_keys(&ids);
        let ghost tv = tally_views(t@);
        proof {
            lemma_tally_first_bound(rule_ids(vs));
        }
        let mut rules: Vec<SarifRule> = Vec::new();
        let mut j: usize = 0;
        while j < t.len()
            invariant
                j <= t.len(),
                tv == tally_views(t@),
                tv == key_tally(rule_ids(vs)),
                vs == views(violations@),
                forall|m: int| 0 <= m < tv.len() ==> (#[trigger] tv[m]).first < vs.len(),
                rules@.len() == j,
                forall|m: int| 0 <= m < j ==> sarif_rule_of(#[trigger] rules@[m], tv[m], vs),
            decreases t.len() - j,
        {
            assert(tv[j as int].first == t@[j as int].1);
            let first = &violations[t[j].1];
            rules.push(
                SarifRule {
                    id: t[j].0.clone(),
                    message: first.message.clone(),
                    level: String::from_str(sarif_level(first.severity)),
                },
            );
            j += 1;
        }
        let mut results: Vec<SarifResult> = Vec::new();
        let mut k: usize = 0;
        while k < violations.len()
            invariant
                k <= violations.len(),
                results@.len() == k,
                forall|m: int| 0 <= m < k ==> sarif_result_of(#[trigger] results@[m], violations@[m]@),
            decreases violations.len() - k,
        {
            let v = &violations[k];
            results.push(
                SarifResult {
                    rule_id: v.rule_id.0.clone(),
                    level: String::from_str(sarif_level(v.severity)),
                    message: v.message.clone(),
                    uri: v.file.clone(),
                    start_line: v.line,
                    end_line: match v.end_line {
                        Some(e) => e,
                        None => v.line,
                    },
                },
            );
            k += 1;
        }
        SarifLog {
            version: String::from_str("2.1.0"),
            schema: String::from_str(
                "https://raw.githubusercontent.com/oasis-tcs/sarif-spec/main/Schemata/sarif-schema-2.1.0.json",
            ),
            tool_name: String::from_str("java-guard"),
            information_uri: String::from_str("https://github.com/javaguard/java-guard"),
            rules,
            results,
        }
    }
}

proof fn lemma_bump_first_bound(s: Seq<KeyTally>, k: Seq<char>, idx: nat, n: nat)
    requires
        forall|m: int| 0 <= m < s.len() ==> (#[trigger] s[m]).first < n,
        idx < n,
    ensures
        forall|m: int| 0 <= m < bump_key(s, k, idx).len() ==> (#[trigger] bump_key(s, k, idx)[m]).first < n,
    decreases s.len(),
{
    if s.len() > 0 && s[0].key != k && seq_order(s[0].key, k) <= 0 {
        let d = s.drop_first();
        assert forall|m: int| 0 <= m < d.len() implies (#[trigger] d[m]).first < n by {
            assert(d[m] == s[m + 1]);
        }
        lemma_bump_first_bound(d, k, idx, n);
        let b = bump_key(d, k, idx);
        assert forall|m: int| 0 <= m < bump_key(s, k, idx).len() implies (#[trigger] bump_key(
            s,
            k,
            idx,
        )[m]).first < n by {
            if m > 0 {
                assert(bump_key(s, k, idx)[m] == b[m - 1]);
            }
        }
    }
}

/// Every first index of a tally of `ks` is an index of `ks`.
pub proof fn lemma_tally_first_bound(ks: Seq<Seq<char>>)
    ensures
        forall|m: int| 0 <= m < key_tally(ks).len() ==> (#[trigger] key_tally(ks)[m]).first < ks.len(),
    decreases ks.len(),
{
    if ks.len() > 0 {
        lemma_tally_first_bound(ks.drop_last());
        lemma_bump_first_bound(key_tally(ks.drop_last()), ks.last(), (ks.len() - 1) as nat, ks.len());
    }
}

/// How often `k` occurs in `ks`.
pub open spec fn occurrences(ks: Seq<Seq<char>>, k: Seq<char>) -> nat
    decreases ks.len(),
{
    if ks.len() == 0 {
        0
    } else {
        occurrences(ks.drop_last(), k) + if ks.last() == k {
            1nat
        } else {
            0nat
        }
    }
}

/// The count a tally holds for `k` (its first entry with that key), or 0.
pub open spec fn tally_count(t: Seq<KeyTally>, k: Seq<char>) -> nat
    decreases t.len(),
{
    if t.len() == 0 {
        0
    } else if t[0].key == k {
        t[0].count
    } else {
        tally_count(t.drop_first(), k)
    }
}

/// Whether a tally lists its keys once each, in key order.
pub open spec fn tally_ordered(t: Seq<KeyTally>) -> bool {
    &&& forall|i: int, j: int| 0 <= i < j < t.len() ==> seq_order(t[i].key, t[j].key) <= 0
    &&& forall|i: int, j: int| 0 <= i < j < t.len() ==> t[i].key != t[j].key
}

proof fn lemma_seq_order_self(a: Seq<char>)
    ensures
        seq_order(a, a) == 0,
    decreases a.len(),
{
    if a.len() > 0 {
        lemma_seq_order_self(a.drop_first());
    }
}

proof fn lemma_tally_count_absent(t: Seq<KeyTally>, k: Seq<char>)
    requires
        forall|i: int| 0 <= i < t.len() ==> (#[trigger] t[i]).key != k,
    ensures
        tally_count(t, k) == 0,
    decreases t.len(),
{
    if t.len() > 0 {
        assert forall|i: int| 0 <= i < t.drop_first().len() implies (#[trigger] t.drop_first()[i]).key != k by {
            assert(t.drop_first()[i] == t[i + 1]);
        }
        lemma_tally_count_absent(t.drop_first(), k);
    }
}

proof fn lemma_bump_props(s: Seq<KeyTally>, k: Seq<char>, idx: nat)
    requires
        tally_ordered(s),
    ensures
        tally_ordered(bump_key(s, k, idx)),
        forall|k2: Seq<char>| #[trigger] tally_count(bump_key(s, k, idx), k2) == tally_count(s, k2) + if k2 == k {
            1nat
        } else {
            0nat
        },
        forall|i: int|
            0 <= i < bump_key(s, k, idx).len() ==> (#[trigger] bump_key(s, k, idx)[i]).key == k
                || exists|j: int| 0 <= j < s.len() && s[j].key == bump_key(s, k, idx)[i].key,
    decreases s.len(),
{
    let r = bump_key(s, k, idx);
    if s.len() == 0 {
        assert forall|k2: Seq<char>| #[trigger] tally_count(r, k2) == tally_count(s, k2) + if k2 == k {
            1nat
        } else {
            0nat
        } by {
            assert(r.len() == 1 && r[0].key == k && r[0].count == 1);
            assert(r.drop_first().len() == 0);
            assert(tally_count(r.drop_first(), k2) == 0);
            assert(tally_count(s, k2) == 0);
        }
    } else if s[0].key == k {
        assert forall|k2: Seq<char>| #[trigger] tally_count(r, k2) == tally_count(s, k2) + if k2 == k {
            1nat
        } else {
            0nat
        } by {
            assert(r.drop_first() == s.drop_first());
        }
        assert forall|i: int| 0 <= i < r.len() implies (#[trigger] r[i]).key == k || exists|j: int|
            0 <= j < s.len() && s[j].key == r[i].key by {
            assert(r[i].key == s[i].key);
        }
    } else if seq_order(s[0].key, k) > 0 {
        assert forall|j: int| 0 <= j < s.len() implies (#[trigger] s[j]).key != k by {
            lemma_seq_order_range(s[0].key, k);
            lemma_seq_order_flip(s[0].key, k);
            if j > 0 {
                lemma_seq_order_range(s[0].key, s[j].key);
                lemma_seq_order_flip(s[0].key, s[j].key);
                lemma_seq_order_trans(k, s[0].key, s[j].key);
            }
            if s[j].key == k {
                lemma_seq_order_self(k);
            }
        }
        lemma_tally_count_absent(s, k);
        assert(r.drop_first() == s);
        assert forall|k2: Seq<char>| #[trigger] tally_count(r, k2) == tally_count(s, k2) + if k2 == k {
            1nat
        } else {
            0nat
        } by {}
        assert forall|i: int, j: int| 0 <= i < j < r.len() implies seq_order(r[i].key, r[j].key) <= 0 by {
            if i == 0 {
                lemma_seq_order_range(s[0].key, k);
                lemma_seq_order_flip(s[0].key, k);
                if j > 1 {
                    lemma_seq_order_trans(k, s[0].key, s[j - 1].key);
                }
            } else {
                assert(r[i] == s[i - 1] && r[j] == s[j - 1]);
            }
        }
        assert forall|i: int, j: int| 0 <= i < j < r.len() implies r[i].key != r[j].key by {
            if i > 0 {
                assert(r[i] == s[i - 1] && r[j] == s[j - 1]);
            } else {
                assert(r[j] == s[j - 1]);
            }
        }
        assert forall|i: int| 0 <= i < r.len() implies (#[trigger] r[i]).key == k || exists|j: int|
            0 <= j < s.len() && s[j].key == r[i].key by {
            if i > 0 {
                assert(r[i] == s[i - 1]);
            }
        }
    } else {
        let d = s.drop_first();
        assert(tally_ordered(d)) by {
            assert forall|i: int, j: int| 0 <= i < j < d.len() implies seq_order(d[i].key, d[j].key) <= 0 by {
                assert(d[i] == s[i + 1] && d[j] == s[j + 1]);
            }
            assert forall|i: int, j: int| 0 <= i < j < d.len() implies d[i].key != d[j].key by {
                assert(d[i] == s[i + 1] && d[j] == s[j + 1]);
            }
        }
        lemma_bump_props(d, k, idx);
        let b = bump_key(d, k, idx);
        assert(r == seq![s[0]] + b);
        assert(r.drop_first() == b);
        assert forall|k2: Seq<char>| #[trigger] tally_count(r, k2) == tally_count(s, k2) + if k2 == k {
            1nat
        } else {
            0nat
        } by {
            assert(r[0] == s[0]);
            assert(s.drop_first() == d);
            assert(s[0].key != k);
            assert(tally_count(b, k2) == tally_count(d, k2) + if k2 == k {
                1nat
            } else {
                0nat
            });
            if s[0].key == k2 {
                assert(tally_count(r, k2) == s[0].count);
                assert(tally_count(s, k2) == s[0].count);
            } else {
                assert(tally_count(r, k2) == tally_count(b, k2));
                assert(tally_count(s, k2) == tally_count(d, k2));
            }
        }
        assert forall|i: int| 0 <= i < r.len() implies (#[trigger] r[i]).key == k || exists|j: int|
            0 <= j < s.len() && s[j].key == r[i].key by {
            if i == 0 {
                assert(s[0].key == r[0].key);
            } else {
                assert(r[i] == b[i - 1]);
                if b[i - 1].key != k {
                    let j = choose|j: int| 0 <= j < d.len() && d[j].key == b[i - 1].key;
                    assert(s[j + 1] == d[j]);
                }
            }
        }
        assert forall|i: int, j: int| 0 <= i < j < r.len() implies seq_order(r[i].key, r[j].key) <= 0
            && r[i].key != r[j].key by {
            if i == 0 {
                assert(r[j] == b[j - 1]);
                if b[j - 1].key == k {
                } else {
                    let m = choose|m: int| 0 <= m < d.len() && d[m].key == b[j - 1].key;
                    assert(d[m] == s[m + 1]);
                }
            } else {
                assert(r[i] == b[i - 1] && r[j] == b[j - 1]);
            }
        }
    }
}

/// The tally of a list of keys lists every key once, in key order, and
/// counts for each key exactly its occurrences.
pub proof fn lemma_key_tally(ks: Seq<Seq<char>>)
    ensures
        tally_ordered(key_tally(ks)),
        forall|k: Seq<char>| #[trigger] tally_count(key_tally(ks), k) == occurrences(ks, k),
    decreases ks.len(),
{
    if ks.len() > 0 {
        lemma_key_tally(ks.drop_last());
        lemma_bump_props(key_tally(ks.drop_last()), ks.last(), (ks.len() - 1) as nat);
    }
}

proof fn lemma_occurrences_pos(ks: Seq<Seq<char>>, k: Seq<char>)
    ensures
        occurrences(ks, k) > 0 <==> exists|j: int| 0 <= j < ks.len() && ks[j] == k,
    decreases ks.len(),
{
    if ks.len() > 0 {
        let d = ks.drop_last();
        lemma_occurrences_pos(d, k);
        if exists|j: int| 0 <= j < d.len() && d[j] == k {
            let j = choose|j: int| 0 <= j < d.len() && d[j] == k;
            assert(ks[j] == k);
        }
        if exists|j: int| 0 <= j < ks.len() && ks[j] == k {
            let j = choose|j: int| 0 <= j < ks.len() && ks[j] == k;
            if j < d.len() {
                assert(d[j] == k);
            }
        }
    }
}

proof fn lemma_bump_positive(s: Seq<KeyTally>, k: Seq<char>, idx: nat)
    requires
        forall|i: int| 0 <= i < s.len() ==> (#[trigger] s[i]).count >= 1,
    ensures
        forall|i: int| 0 <= i < bump_key(s, k, idx).len() ==> (#[trigger] bump_key(s, k, idx)[i]).count >= 1,
    decreases s.len(),
{
    let r = bump_key(s, k, idx);
    if s.len() == 0 {
    } else if s[0].key == k {
    } else if seq_order(s[0].key, k) > 0 {
        assert forall|i: int| 0 <= i < r.len() implies (#[trigger] r[i]).count >= 1 by {
            if i > 0 {
                assert(r[i] == s[i - 1]);
            }
        }
    } else {
        let d = s.drop_first();
        assert forall|i: int| 0 <= i < d.len() implies (#[trigger] d[i]).count >= 1 by {
            assert(d[i] == s[i + 1]);
        }
        lemma_bump_positive(d, k, idx);
        assert forall|i: int| 0 <= i < r.len() implies (#[trigger] r[i]).count >= 1 by {
            if i > 0 {
                assert(r[i] == bump_key(d, k, idx)[i - 1]);
            }
        }
    }
}

proof fn lemma_tally_positive(ks: Seq<Seq<char>>)
    ensures
        forall|i: int| 0 <= i < key_tally(ks).len() ==> (#[trigger] key_tally(ks)[i]).count >= 1,
    decreases ks.len(),
{
    if ks.len() > 0 {
        lemma_tally_positive(ks.drop_last());
        lemma_bump_positive(key_tally(ks.drop_last()), ks.last(), (ks.len() - 1) as nat);
    }
}

proof fn lemma_tally_count_at(t: Seq<KeyTally>, i: int)
    requires
        0 <= i < t.len(),
        forall|a: int, b: int| 0 <= a < b < t.len() ==> t[a].key != t[b].key,
    ensures
        tally_count(t, t[i].key) == t[i].count,
    decreases i,
{
    if i > 0 {
        let d = t.drop_first();
        assert(d[i - 1] == t[i]);
        assert(t[0].key != t[i].key);
        assert forall|a: int, b: int| 0 <= a < b < d.len() implies d[a].key != d[b].key by {
            assert(d[a] == t[a + 1] && d[b] == t[b + 1]);
        }
        lemma_tally_count_at(d, i - 1);
    }
}

/// Whether some entry of the tally `t` has key `k`.
pub open spec fn tally_has(t: Seq<KeyTally>, k: Seq<char>) -> bool {
    exists|i: int| 0 <= i < t.len() && #[trigger] t[i].key == k
}

/// Whether `k` occurs in `ks`.
pub open spec fn key_occurs(ks: Seq<Seq<char>>, k: Seq<char>) -> bool {
    exists|j: int| 0 <= j < ks.len() && #[trigger] ks[j] == k
}

/// The tally of a list of keys lists exactly the keys that occur in it.
pub proof fn lemma_tally_keys(ks: Seq<Seq<char>>)
    ensures
        forall|k: Seq<char>| #[trigger] tally_has(key_tally(ks), k) == key_occurs(ks, k),
{
    let t = key_tally(ks);
    lemma_key_tally(ks);
    lemma_tally_positive(ks);
    assert forall|k: Seq<char>| #[trigger] tally_has(t, k) == key_occurs(ks, k) by {
        lemma_occurrences_pos(ks, k);
        assert(tally_count(t, k) == occurrences(ks, k));
        if tally_has(t, k) {
            let i = choose|i: int| 0 <= i < t.len() && #[trigger] t[i].key == k;
            lemma_tally_count_at(t, i);
        } else {
            lemma_tally_count_absent(t, k);
        }
    }
}

/// Whether the SARIF log `r` lists a rule with id `k`.
pub open spec fn sarif_lists_rule(r: SarifLog, k: Seq<char>) -> bool {
    exists|i: int| 0 <= i < r.rules@.len() && #[trigger] r.rules@[i].id@ == k
}

/// Whether some violation of `vs` has rule id `k`.
pub open spec fn some_rule_is(vs: Seq<ViolationV>, k: Seq<char>) -> bool {
    exists|j: int| 0 <= j < vs.len() && #[trigger] vs[j].rule_id == k
}

/// The rules of the SARIF log of `vs` are the distinct rule ids of the
/// violations: each listed once, in id order, and exactly those that occur.
pub proof fn lemma_sarif_rules(r: SarifLog, vs: Seq<ViolationV>)
    requires
        sarif_log_of(r, vs),
    ensures
        forall|i: int, j: int|
            0 <= i < j < r.rules@.len() ==> r.rules@[i].id@ != r.rules@[j].id@ && seq_order(
                r.rules@[i].id@,
                r.rules@[j].id@,
            ) <= 0,
        forall|k: Seq<char>| #[trigger] sarif_lists_rule(r, k) == some_rule_is(vs, k),
{
    let ks = rule_ids(vs);
    let t = key_tally(ks);
    lemma_key_tally(ks);
    lemma_tally_keys(ks);
    assert forall|i: int| 0 <= i < r.rules@.len() implies r.rules@[i].id@ == t[i].key by {
        assert(sarif_rule_of(r.rules@[i], t[i], vs));
    }
    assert forall|k: Seq<char>| #[trigger] sarif_lists_rule(r, k) == some_rule_is(vs, k) by {
        assert(tally_has(t, k) == key_occurs(ks, k));
        if sarif_lists_rule(r, k) {
            let i = choose|i: int| 0 <= i < r.rules@.len() && #[trigger] r.rules@[i].id@ == k;
            assert(t[i].key == k);
            let j = choose|j: int| 0 <= j < ks.len() && #[trigger] ks[j] == k;
            assert(vs[j].rule_id == k);
        }
        if some_rule_is(vs, k) {
            let j = choose|j: int| 0 <= j < vs.len() && #[trigger] vs[j].rule_id == k;
            assert(ks[j] == k);
            let i = choose|i: int| 0 <= i < t.len() && #[trigger] t[i].key == k;
            assert(r.rules@[i].id@ == k);
        }
    }
}

/// A rendered report: text for the console and CSV formats, the content
/// to serialise for JSON and SARIF.
#[derive(Debug)]
pub enum Report {
    Text(String),
    Json(JsonReport),
    Sarif(SarifLog),
}

/// The report of `violations` in `format`, with the scan statistics for
/// JSON (stamped with `timestamp`).
pub fn report_to(
    format: &ReportFormat,
    violations: &[Violation],
    files_scanned: usize,
    parse_errors: usize,
    duration_ms: Option<u64>,
    timestamp: String,
) -> (r: Report)
    ensures
        match *format {
            ReportFormat::Console => r matches Report::Text(t) && t@ == console_report(
                Seq::empty(),
                views(violations@),
            ),
            ReportFormat::Csv => r matches Report::Text(t) && t@ == csv_report(
                Seq::empty(),
                views(violations@),
            ),
            ReportFormat::Json => r matches Report::Json(j) && json_report_of(
                j,
                violations@,
                files_scanned,
                parse_errors,
                duration_ms,
                timestamp,
            ),
            ReportFormat::Sarif => r matches Report::Sarif(s) && sarif_log_of(s, views(violations@)),
        },
{
    match format {
        ReportFormat::Console => {
            let mut out = String::new();
            ConsoleReporter::report_to(&mut out, violations);
            Report::Text(out)
        },
        ReportFormat::Csv => {
            let mut out = String::new();
            CsvReporter::report_to(&mut out, violations);
            Report::Text(out)
        },
        ReportFormat::Json => Report::Json(
            JsonReporter::build(violations, files_scanned, parse_errors, duration_ms, timestamp),
        ),
        ReportFormat::Sarif => Report::Sarif(SarifReporter::build(violations)),
    }
}

/// The report of `violations` in `format`, without scan statistics.
pub fn report(format: &ReportFormat, violations: &[Violation], timestamp: String) -> (r: Report)
    ensures
        match *format {
            ReportFormat::Console => r matches Report::Text(t) && t@ == console_report(
                Seq::empty(),
                views(violations@),
            ),
            ReportFormat::Csv => r matches Report::Text(t) && t@ == csv_report(
                Seq::empty(),
                views(violations@),
            ),
            ReportFormat::Json => r matches Report::Json(j) && json_report_of(
                j,
                violations@,
                0,
                0,
                None,
                timestamp,
            ),
            ReportFormat::Sarif => r matches Report::Sarif(s) && sarif_log_of(s, views(violations@)),
        },
{
    report_to(format, violations, 0, 0, None, timestamp)
}

} // verus!
