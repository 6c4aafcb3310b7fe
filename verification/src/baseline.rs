//! Baseline filtering and semantic comparison: which violations of a scan
//! are new with respect to known ones.

use vstd::prelude::*;
use crate::rule::{Violation, ViolationV, views};
use crate::git_diff::{Hunk, LineMapper, translate_from};
use crate::text::str_eq;

verus! {

broadcast use vstd::string::group_string_axioms;

/// A known violation of a baseline file: `(file, line, rule id)`.
pub open spec fn entry_view(e: (String, usize, String)) -> (Seq<char>, usize, Seq<char>) {
    (e.0@, e.1, e.2@)
}

/// The views of baseline entries.
pub open spec fn entries_view(b: Seq<(String, usize, String)>) -> Seq<(Seq<char>, usize, Seq<char>)> {
    b.map_values(|e: (String, usize, String)| entry_view(e))
}

/// Distance between two line numbers.
pub open spec fn line_distance(a: int, b: int) -> int {
    if a >= b {
        a - b
    } else {
        b - a
    }
}

/// Whether entry `i` may absorb `v`: it is not used yet, names the same file
/// and rule, and lies within `tol` lines of it.
pub open spec fn candidate(
    b: Seq<(Seq<char>, usize, Seq<char>)>,
    used: Seq<bool>,
    v: ViolationV,
    tol: usize,
    i: int,
) -> bool {
    &&& 0 <= i < b.len()
    &&& !used[i]
    &&& b[i].0 == v.file
    &&& b[i].2 == v.rule_id
    &&& line_distance(b[i].1 as int, v.line as int) <= tol
}

/// The closest candidate among the first `k` entries; of equally close ones
/// the first.
pub open spec fn nearest_in(
    b: Seq<(Seq<char>, usize, Seq<char>)>,
    used: Seq<bool>,
    v: ViolationV,
    tol: usize,
    k: int,
) -> Option<int>
    decreases k,
{
    if k <= 0 {
        None
    } else {
        let prev = nearest_in(b, used, v, tol, k - 1);
        if candidate(b, used, v, tol, k - 1) && (prev is None || line_distance(
            b[k - 1].1 as int,
            v.line as int,
        ) < line_distance(b[prev->0].1 as int, v.line as int)) {
            Some(k - 1)
        } else {
            prev
        }
    }
}

/// The closest candidate entry for `v`, if any.
pub open spec fn nearest(
    b: Seq<(Seq<char>, usize, Seq<char>)>,
    used: Seq<bool>,
    v: ViolationV,
    tol: usize,
) -> Option<int> {
    nearest_in(b, used, v, tol, b.len() as int)
}

/// Baseline filtering of `vs` in order: each violation is absorbed by its
/// closest unused candidate entry, which is then used up; a violation with no
/// candidate is kept. The result is `(used entries, kept violations)`.
pub open spec fn baseline_pass(
    vs: Seq<ViolationV>,
    b: Seq<(Seq<char>, usize, Seq<char>)>,
    tol: usize,
) -> (Seq<bool>, Seq<ViolationV>)
    decreases vs.len(),
{
    if vs.len() == 0 {
        (Seq::new(b.len(), |i: int| false), Seq::empty())
    } else {
        let prev = baseline_pass(vs.drop_last(), b, tol);
        let v = vs.last();
        match nearest(b, prev.0, v, tol) {
            Some(i) => (prev.0.update(i, true), prev.1),
            None => (prev.0, prev.1.push(v)),
        }
    }
}

/// Number of `true` flags.
pub open spec fn count_true(s: Seq<bool>) -> nat
    decreases s.len(),
{
    if s.len() == 0 {
        0
    } else {
        count_true(s.drop_last()) + if s.last() {
            1nat
        } else {
            0nat
        }
    }
}

/// Keeps only the violations that are not known in the baseline (the
/// "new" ones).
///
/// Entries are matched by `(file, rule id)`; a violation is absorbed by the
/// closest unused entry whose line is at most `tolerance` lines away, and each
/// entry absorbs at most one violation.
pub fn filter_baseline(
    violations: Vec<Violation>,
    baseline: &[(String, usize, String)],
    tolerance: usize,
) -> (r: Vec<Violation>)
    ensures
        views(r@) == baseline_pass(views(violations@), entries_view(baseline@), tolerance).1,
{
    let ghost bv = entries_view(baseline@);
    let ghost vv = views(violations@);
    let n = baseline.len();
    let mut used: Vec<bool> = Vec::new();
    while used.len() < n
        invariant
            used.len() <= n,
            forall|i: int| 0 <= i < used.len() ==> !used@[i],
        decreases n - used.len(),
    {
        used.push(false);
    }
    assert(used@ == Seq::new(n as nat, |i: int| false));
    let mut out: Vec<Violation> = Vec::new();
    let mut k: usize = 0;
    assert(vv.take(0) == Seq::<ViolationV>::empty());
    while k < violations.len()
        invariant
            k <= violations.len(),
            n == baseline.len(),
            bv == entries_view(baseline@),
            vv == views(violations@),
            used@.len() == n,
            (used@, views(out@)) == baseline_pass(vv.take(k as int), bv, tolerance),
        decreases violations.len() - k,
    {
        let v = violations[k].clone();
        let mut best: Option<usize> = None;
        let mut best_d: usize = 0;
        let mut j: usize = 0;
        while j < n
            invariant
                j <= n,
                n == baseline.len(),
                bv == entries_view(baseline@),
                used@.len() == n,
                best is None <==> nearest_in(bv, used@, v@, tolerance, j as int) is None,
                best matches Some(i) ==> nearest_in(bv, used@, v@, tolerance, j as int) == Some(
                    i as int,
                ),
                best matches Some(i) ==> i < j && best_d as int == line_distance(
                    baseline@[i as int].1 as int,
                    v.line as int,
                ),
            decreases n - j,
        {
            let e = &baseline[j];
            if !used[j] && str_eq(e.0.as_str(), v.file.as_str()) && str_eq(
                e.2.as_str(),
                v.rule_id.0.as_str(),
            ) {
                let d: usize = if e.1 >= v.line {
                    e.1 - v.line
                } else {
                    v.line - e.1
                };
                if d <= tolerance && (best.is_none() || d < best_d) {
                    best = Some(j);
                    best_d = d;
                }
            }
            j += 1;
        }
        proof {
            assert(vv.take(k + 1).drop_last() == vv.take(k as int));
            assert(vv.take(k + 1).last() == v@);
        }
        match best {
            Some(i) => {
                assert(nearest(bv, used@, v@, tolerance) == Some(i as int));
                used.set(i, true);
            },
            None => {
                out.push(v);
                assert(views(out@) == baseline_pass(vv.take(k as int), bv, tolerance).1.push(v@));
            },
        }
        k += 1;
    }
    assert(vv.take(k as int) == vv);
    out
}

proof fn lemma_count_true_update(s: Seq<bool>, i: int)
    requires
        0 <= i < s.len(),
        !s[i],
    ensures
        count_true(s.update(i, true)) == count_true(s) + 1,
    decreases s.len(),
{
    let t = s.update(i, true);
    if i == s.len() - 1 {
        assert(t.drop_last() == s.drop_last());
    } else {
        assert(t.drop_last() == s.drop_last().update(i, true));
        lemma_count_true_update(s.drop_last(), i);
    }
}

proof fn lemma_count_true_bound(s: Seq<bool>)
    ensures
        count_true(s) <= s.len(),
    decreases s.len(),
{
    if s.len() > 0 {
        lemma_count_true_bound(s.drop_last());
    }
}

proof fn lemma_count_true_none(n: nat)
    ensures
        count_true(Seq::new(n, |i: int| false)) == 0,
    decreases n,
{
    if n > 0 {
        assert(Seq::new(n, |i: int| false).drop_last() == Seq::new((n - 1) as nat, |i: int| false));
        lemma_count_true_none((n - 1) as nat);
    }
}

/// The entry chosen for a violation is a candidate, and no candidate is
/// closer to it; when none is chosen there is no candidate.
pub proof fn lemma_nearest_is_closest(
    b: Seq<(Seq<char>, usize, Seq<char>)>,
    used: Seq<bool>,
    v: ViolationV,
    tol: usize,
    k: int,
)
    ensures
        match nearest_in(b, used, v, tol, k) {
            Some(i) => {
                &&& 0 <= i < k
                &&& candidate(b, used, v, tol, i)
                &&& forall|j: int|
                    0 <= j < k && #[trigger] candidate(b, used, v, tol, j) ==> line_distance(
                        b[i].1 as int,
                        v.line as int,
                    ) <= line_distance(b[j].1 as int, v.line as int)
            },
            None => forall|j: int| 0 <= j < k ==> !#[trigger] candidate(b, used, v, tol, j),
        },
    decreases k,
{
    if k > 0 {
        lemma_nearest_is_closest(b, used, v, tol, k - 1);
    }
}

/// Each baseline entry absorbs at most one violation: the used entries and
/// the kept violations together account for every violation, so at most
/// `b.len()` violations are dropped.
pub proof fn lemma_baseline_one_to_one(
    vs: Seq<ViolationV>,
    b: Seq<(Seq<char>, usize, Seq<char>)>,
    tol: usize,
)
    ensures
        baseline_pass(vs, b, tol).0.len() == b.len(),
        count_true(baseline_pass(vs, b, tol).0) + baseline_pass(vs, b, tol).1.len() == vs.len(),
        baseline_pass(vs, b, tol).1.len() + b.len() >= vs.len(),
    decreases vs.len(),
{
    let p = baseline_pass(vs, b, tol);
    if vs.len() == 0 {
        lemma_count_true_none(b.len());
    } else {
        lemma_baseline_one_to_one(vs.drop_last(), b, tol);
        let q = baseline_pass(vs.drop_last(), b, tol);
        lemma_nearest_is_closest(b, q.0, vs.last(), tol, b.len() as int);
        match nearest(b, q.0, vs.last(), tol) {
            Some(i) => {
                lemma_count_true_update(q.0, i);
            },
            None => {},
        }
    }
    lemma_count_true_bound(p.0);
}

/// The kept violations of a prefix stay kept: the result of a longer list
/// extends that of its prefix.
proof fn lemma_baseline_prefix(
    vs: Seq<ViolationV>,
    b: Seq<(Seq<char>, usize, Seq<char>)>,
    tol: usize,
    k: int,
)
    requires
        0 <= k <= vs.len(),
    ensures
        baseline_pass(vs.take(k), b, tol).1.is_prefix_of(baseline_pass(vs, b, tol).1),
    decreases vs.len() - k,
{
    if k < vs.len() {
        lemma_baseline_prefix(vs, b, tol, k + 1);
        assert(vs.take(k + 1).drop_last() == vs.take(k));
    } else {
        assert(vs.take(k) == vs);
    }
}

/// A violation with no baseline entry of the same file and rule within the
/// tolerance is always reported.
pub proof fn lemma_baseline_keeps_unmatched(
    vs: Seq<ViolationV>,
    b: Seq<(Seq<char>, usize, Seq<char>)>,
    tol: usize,
    k: int,
)
    requires
        0 <= k < vs.len(),
        forall|j: int|
            0 <= j < b.len() ==> !(#[trigger] b[j].0 == vs[k].file && b[j].2 == vs[k].rule_id
                && line_distance(b[j].1 as int, vs[k].line as int) <= tol),
    ensures
        baseline_pass(vs, b, tol).1.contains(vs[k]),
{
    let pre = vs.take(k + 1);
    assert(pre.drop_last() == vs.take(k));
    assert(pre.last() == vs[k]);
    let q = baseline_pass(vs.take(k), b, tol);
    lemma_nearest_is_closest(b, q.0, vs[k], tol, b.len() as int);
    if nearest(b, q.0, vs[k], tol) is Some {
        let i = nearest(b, q.0, vs[k], tol)->0;
        assert(candidate(b, q.0, vs[k], tol, i));
        assert(false);
    }
    let kept = baseline_pass(pre, b, tol).1;
    assert(kept[kept.len() - 1] == vs[k]);
    lemma_baseline_prefix(vs, b, tol, k + 1);
    let all = baseline_pass(vs, b, tol).1;
    assert(all[kept.len() - 1] == kept[kept.len() - 1]);
}

/// The elements of `vs` whose flag in `keep` is set, in order.
pub open spec fn select(vs: Seq<ViolationV>, keep: Seq<bool>) -> Seq<ViolationV>
    decreases vs.len(),
{
    if vs.len() == 0 {
        vs
    } else {
        let p = select(vs.drop_last(), keep.drop_last());
        if keep.last() {
            p.push(vs.last())
        } else {
            p
        }
    }
}

/// For each violation, whether baseline filtering keeps it (no unused entry
/// absorbs it).
pub open spec fn baseline_kept_flags(
    vs: Seq<ViolationV>,
    b: Seq<(Seq<char>, usize, Seq<char>)>,
    tol: usize,
) -> Seq<bool>
    decreases vs.len(),
{
    if vs.len() == 0 {
        seq![]
    } else {
        baseline_kept_flags(vs.drop_last(), b, tol).push(
            nearest(b, baseline_pass(vs.drop_last(), b, tol).0, vs.last(), tol) is None,
        )
    }
}

/// Baseline filtering keeps a subsequence of the violations, in their order,
/// and drops a violation only where a baseline entry of the same file and
/// rule lies within the tolerance of it.
pub proof fn lemma_baseline_subsequence(
    vs: Seq<ViolationV>,
    b: Seq<(Seq<char>, usize, Seq<char>)>,
    tol: usize,
)
    ensures
        baseline_kept_flags(vs, b, tol).len() == vs.len(),
        baseline_pass(vs, b, tol).1 == select(vs, baseline_kept_flags(vs, b, tol)),
        forall|i: int|
            0 <= i < vs.len() && !#[trigger] baseline_kept_flags(vs, b, tol)[i] ==> exists|j: int|
                0 <= j < b.len() && #[trigger] b[j].0 == vs[i].file && b[j].2 == vs[i].rule_id
                    && line_distance(b[j].1 as int, vs[i].line as int) <= tol,
    decreases vs.len(),
{
    if vs.len() > 0 {
        let d = vs.drop_last();
        let fd = baseline_kept_flags(d, b, tol);
        let f = baseline_kept_flags(vs, b, tol);
        lemma_baseline_subsequence(d, b, tol);
        let q = baseline_pass(d, b, tol);
        assert(f.drop_last() == fd);
        lemma_nearest_is_closest(b, q.0, vs.last(), tol, b.len() as int);
        assert forall|i: int|
            0 <= i < vs.len() && !#[trigger] f[i] implies exists|j: int|
                0 <= j < b.len() && #[trigger] b[j].0 == vs[i].file && b[j].2 == vs[i].rule_id
                    && line_distance(b[j].1 as int, vs[i].line as int) <= tol by {
            if i < d.len() {
                assert(f[i] == fd[i]);
                assert(vs[i] == d[i]);
            } else {
                let j = nearest(b, q.0, vs.last(), tol)->0;
                assert(candidate(b, q.0, vs.last(), tol, j));
                assert(b[j].0 == vs[i].file);
            }
        }
    }
}

/// With an empty baseline every violation is reported.
pub proof fn lemma_baseline_empty(vs: Seq<ViolationV>, tol: usize)
    ensures
        baseline_pass(vs, Seq::empty(), tol).1 == vs,
    decreases vs.len(),
{
    if vs.len() > 0 {
        lemma_baseline_empty(vs.drop_last(), tol);
        assert(vs.drop_last().push(vs.last()) == vs);
    }
}

/// Where an old line of `file` lands in the new file, as the mapper says.
pub open spec fn translated(m: Map<Seq<char>, Seq<Hunk>>, file: Seq<char>, line: usize) -> Option<usize> {
    if m.contains_key(file) {
        translate_from(m[file], line, 0)
    } else {
        None
    }
}

/// Whether some old violation of the same file and rule lands, after
/// translation, on the line of `v`.
pub open spec fn known_old(old: Seq<ViolationV>, m: Map<Seq<char>, Seq<Hunk>>, v: ViolationV) -> bool {
    exists|j: int|
        0 <= j < old.len() && #[trigger] old[j].file == v.file && old[j].rule_id == v.rule_id
            && translated(m, old[j].file, old[j].line as usize) == Some(v.line as usize)
}

/// The violations of `new` that no old violation accounts for, in order.
pub open spec fn new_only(new: Seq<ViolationV>, old: Seq<ViolationV>, m: Map<Seq<char>, Seq<Hunk>>) -> Seq<
    ViolationV,
>
    decreases new.len(),
{
    if new.len() == 0 {
        new
    } else {
        let p = new_only(new.drop_last(), old, m);
        if known_old(old, m, new.last()) {
            p
        } else {
            p.push(new.last())
        }
    }
}

/// Whether some baseline entry of the same file and rule lands, after
/// translation, on the line of `v`.
pub open spec fn known_entry(
    b: Seq<(Seq<char>, usize, Seq<char>)>,
    m: Map<Seq<char>, Seq<Hunk>>,
    v: ViolationV,
) -> bool {
    exists|j: int|
        0 <= j < b.len() && #[trigger] b[j].0 == v.file && b[j].2 == v.rule_id && translated(
            m,
            b[j].0,
            b[j].1,
        ) == Some(v.line as usize)
}

/// The violations of `vs` that no baseline entry accounts for, in order.
pub open spec fn unmapped(
    vs: Seq<ViolationV>,
    b: Seq<(Seq<char>, usize, Seq<char>)>,
    m: Map<Seq<char>, Seq<Hunk>>,
) -> Seq<ViolationV>
    decreases vs.len(),
{
    if vs.len() == 0 {
        vs
    } else {
        let p = unmapped(vs.drop_last(), b, m);
        if known_entry(b, m, vs.last()) {
            p
        } else {
            p.push(vs.last())
        }
    }
}

/// Semantic comparison: the new violations minus the old ones. Each old
/// violation's line is translated to the new file through the diff hunks;
/// one on a deleted line matches nothing.
pub fn semantic_difference(
    new_violations: Vec<Violation>,
    old_violations: Vec<Violation>,
    mapper: &LineMapper,
) -> (r: Vec<Violation>)
    ensures
        views(r@) == new_only(views(new_violations@), views(old_violations@), mapper@),
{
    let ghost nv = views(new_violations@);
    let ghost ov = views(old_violations@);
    let mut lines: Vec<Option<usize>> = Vec::new();
    let mut i: usize = 0;
    while i < old_violations.len()
        invariant
            i <= old_violations.len(),
            lines.len() == i,
            ov == views(old_violations@),
            forall|j: int|
                0 <= j < i ==> #[trigger] lines@[j] == translated(
                    mapper@,
                    ov[j].file,
                    ov[j].line as usize,
                ),
        decreases old_violations.len() - i,
    {
        let o = &old_violations[i];
        lines.push(mapper.translate(o.file.as_str(), o.line));
        i += 1;
    }
    let mut out: Vec<Violation> = Vec::new();
    let mut k: usize = 0;
    assert(nv.take(0) == Seq::<ViolationV>::empty());
    while k < new_violations.len()
        invariant
            k <= new_violations.len(),
            nv == views(new_violations@),
            ov == views(old_violations@),
            lines.len() == old_violations.len(),
            forall|j: int|
                0 <= j < lines.len() ==> #[trigger] lines@[j] == translated(
                    mapper@,
                    ov[j].file,
                    ov[j].line as usize,
                ),
            views(out@) == new_only(nv.take(k as int), ov, mapper@),
        decreases new_violations.len() - k,
    {
        let v = &new_violations[k];
        let mut found = false;
        let mut j: usize = 0;
        while j < old_violations.len()
            invariant
                j <= old_violations.len(),
                lines.len() == old_violations.len(),
                ov == views(old_violations@),
                forall|x: int|
                    0 <= x < lines.len() ==> #[trigger] lines@[x] == translated(
                        mapper@,
                        ov[x].file,
                        ov[x].line as usize,
                    ),
                found <==> exists|x: int|
                    0 <= x < j && #[trigger] ov[x].file == v@.file && ov[x].rule_id == v@.rule_id
                        && translated(mapper@, ov[x].file, ov[x].line as usize) == Some(
                        v.line,
                    ),
            decreases old_violations.len() - j,
        {
            let o = &old_violations[j];
            if !found && lines[j] == Some(v.line) && str_eq(o.file.as_str(), v.file.as_str())
                && str_eq(o.rule_id.0.as_str(), v.rule_id.0.as_str()) {
                found = true;
            }
            proof {
                if !found {
                    assert forall|x: int|
                        0 <= x < j + 1 && #[trigger] ov[x].file == v@.file && ov[x].rule_id
                            == v@.rule_id implies translated(
                        mapper@,
                        ov[x].file,
                        ov[x].line as usize,
                    ) != Some(v.line) by {
                        if x == j {
                            assert(ov[x] == o@);
                        }
                    }
                } else {
                    if !(exists|x: int|
                        0 <= x < j && #[trigger] ov[x].file == v@.file && ov[x].rule_id
                            == v@.rule_id && translated(mapper@, ov[x].file, ov[x].line as usize)
                            == Some(v.line)) {
                        assert(ov[j as int] == o@);
                    }
                }
            }
            j += 1;
        }
        proof {
            assert(nv.take(k + 1).drop_last() == nv.take(k as int));
            assert(nv.take(k + 1).last() == v@);
            assert(v@.line as usize == v.line);
        }
        if !found {
            out.push(v.clone());
        }
        k += 1;
    }
    assert(nv.take(k as int) == nv);
    out
}

/// Baseline filtering by diff hunks: each entry's line is translated to the
/// new file and must then match a violation exactly (same file, rule and
/// line); an entry on a deleted line matches nothing.
pub fn filter_baseline_mapped(
    violations: Vec<Violation>,
    baseline: &[(String, usize, String)],
    mapper: &LineMapper,
) -> (r: Vec<Violation>)
    ensures
        views(r@) == unmapped(views(violations@), entries_view(baseline@), mapper@),
{
    let ghost nv = views(violations@);
    let ghost bv = entries_view(baseline@);
    let mut lines: Vec<Option<usize>> = Vec::new();
    let mut i: usize = 0;
    while i < baseline.len()
        invariant
            i <= baseline.len(),
            lines.len() == i,
            bv == entries_view(baseline@),
            forall|j: int| 0 <= j < i ==> #[trigger] lines@[j] == translated(mapper@, bv[j].0, bv[j].1),
        decreases baseline.len() - i,
    {
        let e = &baseline[i];
        lines.push(mapper.translate(e.0.as_str(), e.1));
        i += 1;
    }
    let mut out: Vec<Violation> = Vec::new();
    let mut k: usize = 0;
    assert(nv.take(0) == Seq::<ViolationV>::empty());
    while k < violations.len()
        invariant
            k <= violations.len(),
            nv == views(violations@),
            bv == entries_view(baseline@),
            lines.len() == baseline.len(),
            forall|j: int|
                0 <= j < lines.len() ==> #[trigger] lines@[j] == translated(mapper@, bv[j].0, bv[j].1),
            views(out@) == unmapped(nv.take(k as int), bv, mapper@),
        decreases violations.len() - k,
    {
        let v = &violations[k];
        let mut found = false;
        let mut j: usize = 0;
        while j < baseline.len()
            invariant
                j <= baseline.len(),
                lines.len() == baseline.len(),
                bv == entries_view(baseline@),
                forall|x: int|
                    0 <= x < lines.len() ==> #[trigger] lines@[x] == translated(mapper@, bv[x].0, bv[x].1),
                found <==> exists|x: int|
                    0 <= x < j && #[trigger] bv[x].0 == v@.file && bv[x].2 == v@.rule_id
                        && translated(mapper@, bv[x].0, bv[x].1) == Some(v.line),
            decreases baseline.len() - j,
        {
            let e = &baseline[j];
            if !found && lines[j] == Some(v.line) && str_eq(e.0.as_str(), v.file.as_str())
                && str_eq(e.2.as_str(), v.rule_id.0.as_str()) {
                found = true;
            }
            proof {
                if !found {
                    assert forall|x: int|
                        0 <= x < j + 1 && #[trigger] bv[x].0 == v@.file && bv[x].2
                            == v@.rule_id implies translated(mapper@, bv[x].0, bv[x].1) != Some(
                        v.line,
                    ) by {
                        if x == j {
                            assert(bv[x] == entry_view(*e));
                        }
                    }
                } else {
                    if !(exists|x: int|
                        0 <= x < j && #[trigger] bv[x].0 == v@.file && bv[x].2 == v@.rule_id
                            && translated(mapper@, bv[x].0, bv[x].1) == Some(v.line)) {
                        assert(bv[j as int] == entry_view(*e));
                    }
                }
            }
            j += 1;
        }
        proof {
            assert(nv.take(k + 1).drop_last() == nv.take(k as int));
            assert(nv.take(k + 1).last() == v@);
            assert(v@.line as usize == v.line);
        }
        if !found {
            out.push(v.clone());
        }
        k += 1;
    }
    assert(nv.take(k as int) == nv);
    out
}

/// Baseline filtering as a scan applies it: by the diff hunks, with no
/// tolerance, where a line mapper is at hand (a semantic comparison); by line
/// distance within `tolerance` otherwise.
pub fn apply_baseline(
    violations: Vec<Violation>,
    baseline: &[(String, usize, String)],
    mapper: Option<&LineMapper>,
    tolerance: usize,
) -> (r: Vec<Violation>)
    ensures
        views(r@) == match mapper {
            Some(m) => unmapped(views(violations@), entries_view(baseline@), m@),
            None => baseline_pass(views(violations@), entries_view(baseline@), tolerance).1,
        },
{
    match mapper {
        Some(m) => filter_baseline_mapped(violations, baseline, m),
        None => filter_baseline(violations, baseline, tolerance),
    }
}

} // verus!
