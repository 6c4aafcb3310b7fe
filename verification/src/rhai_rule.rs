//! Rules scripted in Rhai: their metadata, and the header format of a plain
//! `.rhai` script file.

use vstd::prelude::*;
use crate::rule::{RuleId, Severity, SpanPolicy, Violation, ViolationV, severity_named, severity_key};
use crate::yaml_rule::string_views;
use crate::text::{
    chars_of, string_of, str_eq, append_str, trim, trim_start, trim_chars, trim_start_chars,
    has_prefix, find_from, starts_with, find_sub, copy_range, split_lines, lines_spec, vviews,
    lemma_find_from_skip, lemma_find_from_bounds, parse_i64, parse_i64_spec, ascii_lower,
    ascii_lower_chars,
};

verus! {

broadcast use vstd::string::group_string_axioms;

/// A parameter value written in a `.rhai` header: an integer, a boolean, or
/// any other text as written (a decimal such as `3.14` is kept as text here;
/// the script engine turns it into a number).
#[derive(Debug, Clone, PartialEq)]
pub enum HeaderParam {
    Int(i64),
    Bool(bool),
    Text(String),
}

/// Abstract value of a header parameter.
pub enum HeaderParamV {
    Int(int),
    Bool(bool),
    Text(Seq<char>),
}

impl View for HeaderParam {
    type V = HeaderParamV;

    open spec fn view(&self) -> HeaderParamV {
        match self {
            HeaderParam::Int(n) => HeaderParamV::Int(*n as int),
            HeaderParam::Bool(b) => HeaderParamV::Bool(*b),
            HeaderParam::Text(s) => HeaderParamV::Text(s@),
        }
    }
}

/// Parameters of a Rhai rule, handed to its script as `config`.
#[derive(Debug)]
pub enum RhaiParams {
    /// No parameters (`config` is unit).
    Null,
    /// Key/value pairs of a `.rhai` header, in order of first appearance.
    Header(Vec<(String, HeaderParam)>),
    /// A YAML value (rule files in YAML, or parameters of a rules file).
    Yaml(serde_yaml::Value),
}

/// Abstract value of header parameters.
pub open spec fn params_view(v: Seq<(String, HeaderParam)>) -> Seq<(Seq<char>, HeaderParamV)> {
    v.map_values(|p: (String, HeaderParam)| (p.0@, p.1@))
}

/// Metadata and script of a Rhai rule.
#[derive(Debug)]
pub struct RhaiRule {
    pub id: String,
    pub title: String,
    pub severity: String,
    pub category: String,
    /// The Rhai script.
    pub script: String,
    pub enabled: bool,
    /// Injected into the script as `config`.
    pub params: RhaiParams,
    /// How violations meet a diff in incremental scans.
    pub span_policy: SpanPolicy,
}

/// Error while loading a Rhai rule.
#[derive(Debug)]
pub enum RhaiRuleError {
    /// The YAML rule file could not be parsed (the parser's message).
    Yaml(String),
    /// The rule is malformed.
    Compile(String),
}

impl RhaiRuleError {
    /// The error's message.
    pub fn message(&self) -> (r: String)
        ensures
            r@ == match self {
                RhaiRuleError::Yaml(m) => "failed to parse rule YAML: "@ + m@,
                RhaiRuleError::Compile(m) => "script compilation failed: "@ + m@,
            },
    {
        let mut s = String::new();
        match self {
            RhaiRuleError::Yaml(m) => {
                append_str(&mut s, "failed to parse rule YAML: ");
                append_str(&mut s, m.as_str());
            },
            RhaiRuleError::Compile(m) => {
                append_str(&mut s, "script compilation failed: ");
                append_str(&mut s, m.as_str());
            },
        }
        s
    }
}

/// The boolean a header `enabled` value stands for (ASCII case ignored).
pub open spec fn bool_header(v: Seq<char>) -> Option<bool> {
    let l = ascii_lower(v);
    if l == "true"@ || l == "yes"@ || l == "on"@ || l == "1"@ {
        Some(true)
    } else if l == "false"@ || l == "no"@ || l == "off"@ || l == "0"@ {
        Some(false)
    } else {
        None
    }
}

/// State of the header scan of a `.rhai` file.
pub struct HeaderScan {
    pub in_header: bool,
    pub saw_meta: bool,
    pub id: Seq<char>,
    pub title: Seq<char>,
    pub severity: Seq<char>,
    pub category: Seq<char>,
    pub enabled: bool,
    pub params: Seq<char>,
    /// The first `enabled` value that is not a boolean.
    pub bad_enabled: Option<Seq<char>>,
    /// Lines of the script body.
    pub body: Seq<Seq<char>>,
}

/// State before the first line.
pub open spec fn header_start() -> HeaderScan {
    HeaderScan {
        in_header: true,
        saw_meta: false,
        id: Seq::empty(),
        title: Seq::empty(),
        severity: "minor"@,
        category: Seq::empty(),
        enabled: true,
        params: Seq::empty(),
        bad_enabled: None,
        body: Seq::empty(),
    }
}

/// `key: value` of a metadata comment (both trimmed), split at the first `:`.
pub open spec fn meta_pair(rest: Seq<char>) -> Option<(Seq<char>, Seq<char>)> {
    match find_from(rest, seq![':'], 0) {
        Some(k) => Some((trim(rest.take(k)), trim(rest.skip(k + 1)))),
        None => None,
    }
}

/// One metadata entry applied to the state.
pub open spec fn apply_meta(h: HeaderScan, key: Seq<char>, val: Seq<char>) -> HeaderScan {
    if key == "rule"@ || key == "id"@ {
        HeaderScan { id: val, ..h }
    } else if key == "title"@ || key == "name"@ {
        HeaderScan { title: val, ..h }
    } else if key == "severity"@ {
        HeaderScan { severity: val, ..h }
    } else if key == "category"@ {
        HeaderScan { category: val, ..h }
    } else if key == "enabled"@ {
        match bool_header(val) {
            Some(b) => HeaderScan { enabled: b, ..h },
            None => HeaderScan { bad_enabled: Some(val), ..h },
        }
    } else if key == "params"@ {
        HeaderScan { params: val, ..h }
    } else {
        h
    }
}

/// One line of the file applied to the state. Lines of the header start with
/// `//!` (after white space); blank lines before the first such line are
/// skipped; the first other line starts the body, which keeps every line as
/// written. Once an invalid `enabled` value was met nothing changes.
pub open spec fn header_step(h: HeaderScan, line: Seq<char>) -> HeaderScan {
    if h.bad_enabled is Some {
        h
    } else if h.in_header {
        let t = trim_start(line);
        if has_prefix(t, "//!"@) {
            let h1 = HeaderScan { saw_meta: true, ..h };
            match meta_pair(trim(t.skip(3))) {
                Some(kv) => apply_meta(h1, kv.0, kv.1),
                None => h1,
            }
        } else if t.len() == 0 && !h.saw_meta {
            h
        } else {
            HeaderScan { in_header: false, body: h.body.push(line), ..h }
        }
    } else {
        HeaderScan { body: h.body.push(line), ..h }
    }
}

/// The state after all `lines`.
pub open spec fn header_scan(lines: Seq<Seq<char>>) -> HeaderScan
    decreases lines.len(),
{
    if lines.len() == 0 {
        header_start()
    } else {
        header_step(header_scan(lines.drop_last()), lines.last())
    }
}

/// Lines joined by `'\n'`.
pub open spec fn join_lines(ls: Seq<Seq<char>>) -> Seq<char>
    decreases ls.len(),
{
    if ls.len() == 0 {
        Seq::empty()
    } else if ls.len() == 1 {
        ls[0]
    } else {
        join_lines(ls.drop_last()) + seq!['\n'] + ls.last()
    }
}

/// The pieces of `s` between occurrences of `c` (what `str::split` yields).
pub open spec fn split_on(s: Seq<char>, c: char) -> Seq<Seq<char>>
    decreases s.len(),
{
    match find_from(s, seq![c], 0) {
        Some(k) => if 0 <= k < s.len() {
            seq![s.take(k)] + split_on(s.skip(k + 1), c)
        } else {
            seq![s]
        },
        None => seq![s],
    }
}

/// `key=value` of one parameter (both trimmed), split at the first `=`.
pub open spec fn param_pair(piece: Seq<char>) -> Option<(Seq<char>, Seq<char>)> {
    let t = trim(piece);
    match find_from(t, seq!['='], 0) {
        Some(k) => Some((trim(t.take(k)), trim(t.skip(k + 1)))),
        None => None,
    }
}

/// The value a parameter text stands for: an `i64` if it reads as one, else
/// `true`/`false`, else the text itself.
pub open spec fn classify_param(v: Seq<char>) -> HeaderParamV {
    match parse_i64_spec(v) {
        Some(n) => HeaderParamV::Int(n),
        None => if v == "true"@ {
            HeaderParamV::Bool(true)
        } else if v == "false"@ {
            HeaderParamV::Bool(false)
        } else {
            HeaderParamV::Text(v)
        },
    }
}

/// Index of the first entry with key `k` at or after `i`.
pub open spec fn key_index(m: Seq<(Seq<char>, HeaderParamV)>, k: Seq<char>, i: int) -> Option<int>
    decreases m.len() - i,
{
    if i < 0 || i >= m.len() {
        None
    } else if m[i].0 == k {
        Some(i)
    } else {
        key_index(m, k, i + 1)
    }
}

/// Sets key `k` to `v`: an existing entry keeps its place, a new one goes last.
pub open spec fn put_param(m: Seq<(Seq<char>, HeaderParamV)>, k: Seq<char>, v: HeaderParamV) -> Seq<
    (Seq<char>, HeaderParamV),
> {
    match key_index(m, k, 0) {
        Some(i) => m.update(i, (k, v)),
        None => m.push((k, v)),
    }
}

/// The parameters written by comma-separated pieces, in order.
pub open spec fn params_fold(pieces: Seq<Seq<char>>) -> Seq<(Seq<char>, HeaderParamV)>
    decreases pieces.len(),
{
    if pieces.len() == 0 {
        Seq::empty()
    } else {
        let m = params_fold(pieces.drop_last());
        match param_pair(pieces.last()) {
            Some(kv) => put_param(m, kv.0, classify_param(kv.1)),
            None => m,
        }
    }
}

/// Abstract value of the result of reading a `.rhai` file: the rule's fields,
/// or the error message.
pub struct RhaiScriptV {
    pub id: Seq<char>,
    pub title: Seq<char>,
    pub severity: Seq<char>,
    pub category: Seq<char>,
    pub script: Seq<char>,
    pub enabled: bool,
    /// `None` when the header gives no parameters.
    pub params: Option<Seq<(Seq<char>, HeaderParamV)>>,
}

/// `content` without one leading byte-order mark.
pub open spec fn strip_bom(content: Seq<char>) -> Seq<char> {
    if content.len() > 0 && content[0] == '\u{FEFF}' {
        content.skip(1)
    } else {
        content
    }
}

/// What reading a `.rhai` file gives.
pub open spec fn rhai_script_spec(content: Seq<char>) -> Result<RhaiScriptV, Seq<char>> {
    let h = header_scan(lines_spec(strip_bom(content)));
    match h.bad_enabled {
        Some(v) => Err("invalid `enabled` value `"@ + v + "` in .rhai file header"@),
        None => if h.id.len() == 0 {
            Err("missing `//! rule:` metadata in .rhai file header"@)
        } else {
            Ok(
                RhaiScriptV {
                    id: h.id,
                    title: if h.title.len() == 0 {
                        h.id
                    } else {
                        h.title
                    },
                    severity: h.severity,
                    category: h.category,
                    script: join_lines(h.body),
                    enabled: h.enabled,
                    params: if h.params.len() == 0 {
                        None
                    } else {
                        Some(params_fold(split_on(h.params, ',')))
                    },
                },
            )
        },
    }
}

/// Whether a rule holds the abstract value `s`.
pub open spec fn rule_is(r: RhaiRule, s: RhaiScriptV) -> bool {
    &&& r.id@ == s.id
    &&& r.title@ == s.title
    &&& r.severity@ == s.severity
    &&& r.category@ == s.category
    &&& r.script@ == s.script
    &&& r.enabled == s.enabled
    &&& r.span_policy == SpanPolicy::Anchor
    &&& match s.params {
        None => r.params is Null,
        Some(p) => r.params matches RhaiParams::Header(v) && params_view(v@) == p,
    }
}

/// Whether `a` holds the characters of `lit`.
fn chars_are(a: &[char], lit: &str) -> (r: bool)
    ensures
        r == (a@ == lit@),
{
    let s = string_of(a);
    str_eq(s.as_str(), lit)
}

/// Executable [`bool_header`].
pub fn parse_bool_header(v: &[char]) -> (r: Option<bool>)
    ensures
        r == bool_header(v@),
{
    let l = ascii_lower_chars(v);
    let ls = l.as_slice();
    if chars_are(ls, "true") || chars_are(ls, "yes") || chars_are(ls, "on") || chars_are(ls, "1") {
        Some(true)
    } else if chars_are(ls, "false") || chars_are(ls, "no") || chars_are(ls, "off") || chars_are(
        ls,
        "0",
    ) {
        Some(false)
    } else {
        None
    }
}

/// Splits at the first `sep`, trimming both sides.
fn split_trimmed(s: &[char], sep: char) -> (r: Option<(Vec<char>, Vec<char>)>)
    ensures
        r matches Some(kv) ==> find_from(s@, seq![sep], 0) matches Some(k) && kv.0@ == trim(
            s@.take(k),
        ) && kv.1@ == trim(s@.skip(k + 1)),
        r is None ==> find_from(s@, seq![sep], 0) is None,
{
    let p: Vec<char> = vec![sep];
    assert(p@ == seq![sep]);
    proof {
        lemma_find_from_bounds(s@, seq![sep], 0);
    }
    match find_sub(s, p.as_slice(), 0) {
        Some(k) => {
            let a = copy_range(s, 0, k);
            let b = copy_range(s, k + 1, s.len());
            assert(a@ == s@.take(k as int));
            assert(b@ == s@.skip(k + 1));
            Some((trim_chars(a.as_slice()), trim_chars(b.as_slice())))
        },
        None => None,
    }
}

/// Executable [`split_on`].
fn split_pieces(s: &[char], c: char) -> (r: Vec<Vec<char>>)
    ensures
        vviews(r@) == split_on(s@, c),
{
    let p: Vec<char> = vec![c];
    let mut out: Vec<Vec<char>> = Vec::new();
    let n = s.len();
    let mut i: usize = 0;
    assert(s@.skip(0) == s@);
    loop
        invariant
            i <= n == s@.len(),
            p@ == seq![c],
            vviews(out@) + split_on(s@.skip(i as int), c) == split_on(s@, c),
        decreases n - i,
    {
        let ghost rest = s@.skip(i as int);
        proof {
            lemma_find_from_skip(s@, seq![c], i as int, 0);
            lemma_find_from_bounds(s@, seq![c], i as int);
        }
        match find_sub(s, p.as_slice(), i) {
            Some(k) => {
                let piece = copy_range(s, i, k);
                assert(rest.take(k - i) == piece@);
                assert(rest.skip(k - i + 1) == s@.skip(k + 1));
                out.push(piece);
                assert(vviews(out@) == vviews(out@.drop_last()).push(out@.last()@));
                i = k + 1;
            },
            None => {
                let piece = copy_range(s, i, n);
                assert(piece@ == rest);
                out.push(piece);
                assert(vviews(out@) == vviews(out@.drop_last()).push(out@.last()@));
                return out;
            },
        }
    }
}

proof fn lemma_key_index_skip(m: Seq<(Seq<char>, HeaderParamV)>, k: Seq<char>, j: int)
    requires
        0 <= j <= m.len(),
        forall|x: int| 0 <= x < j ==> #[trigger] m[x].0 != k,
    ensures
        key_index(m, k, 0) == key_index(m, k, j),
    decreases j,
{
    if j > 0 {
        lemma_key_index_skip_from(m, k, 0, j);
    }
}

proof fn lemma_key_index_skip_from(m: Seq<(Seq<char>, HeaderParamV)>, k: Seq<char>, i: int, j: int)
    requires
        0 <= i <= j <= m.len(),
        forall|x: int| i <= x < j ==> #[trigger] m[x].0 != k,
    ensures
        key_index(m, k, i) == key_index(m, k, j),
    decreases j - i,
{
    if i < j {
        lemma_key_index_skip_from(m, k, i + 1, j);
    }
}

/// Executable [`classify_param`].
fn classify_value(v: &[char]) -> (r: HeaderParam)
    ensures
        r@ == classify_param(v@),
{
    match parse_i64(v) {
        Some(n) => HeaderParam::Int(n),
        None => {
            if chars_are(v, "true") {
                HeaderParam::Bool(true)
            } else if chars_are(v, "false") {
                HeaderParam::Bool(false)
            } else {
                HeaderParam::Text(string_of(v))
            }
        },
    }
}

/// Executable [`params_fold`] of the pieces of `text`.
fn parse_params(text: &[char]) -> (r: Vec<(String, HeaderParam)>)
    ensures
        params_view(r@) == params_fold(split_on(text@, ',')),
{
    let pieces = split_pieces(text, ',');
    let ghost ps = vviews(pieces@);
    let mut out: Vec<(String, HeaderParam)> = Vec::new();
    let mut i: usize = 0;
    assert(ps.take(0) == Seq::<Seq<char>>::empty());
    while i < pieces.len()
        invariant
            i <= pieces.len(),
            ps == vviews(pieces@),
            ps == split_on(text@, ','),
            params_view(out@) == params_fold(ps.take(i as int)),
        decreases pieces.len() - i,
    {
        let ghost m = params_view(out@);
        let piece = trim_chars(pieces[i].as_slice());
        proof {
            assert(ps.take(i + 1).drop_last() == ps.take(i as int));
            assert(ps.take(i + 1).last() == pieces@[i as int]@);
        }
        match split_trimmed(piece.as_slice(), '=') {
            Some(kv) => {
                let (key, val) = kv;
                let pv = classify_value(val.as_slice());
                let ks = string_of(key.as_slice());
                let mut j: usize = 0;
                while j < out.len() && !str_eq(out[j].0.as_str(), ks.as_str())
                    invariant
                        j <= out.len(),
                        m == params_view(out@),
                        forall|x: int| 0 <= x < j ==> #[trigger] m[x].0 != ks@,
                    decreases out.len() - j,
                {
                    j += 1;
                }
                proof {
                    lemma_key_index_skip(m, ks@, j as int);
                }
                if j < out.len() {
                    out.set(j, (ks, pv));
                    assert(params_view(out@) == m.update(j as int, (key@, pv@)));
                } else {
                    out.push((ks, pv));
                    assert(params_view(out@) == m.push((key@, pv@)));
                }
            },
            None => {},
        }
        i += 1;
    }
    assert(ps.take(i as int) == ps);
    out
}

/// Joins lines with `'\n'`.
fn join_body(ls: &Vec<Vec<char>>) -> (r: String)
    ensures
        r@ == join_lines(vviews(ls@)),
{
    let ghost v = vviews(ls@);
    let mut out: Vec<char> = Vec::new();
    let mut i: usize = 0;
    while i < ls.len()
        invariant
            i <= ls.len(),
            v == vviews(ls@),
            out@ == join_lines(v.take(i as int)),
        decreases ls.len() - i,
    {
        assert(v.take(i + 1).drop_last() == v.take(i as int));
        if i > 0 {
            out.push('\n');
        }
        let line = &ls[i];
        let mut j: usize = 0;
        let ghost before = out@;
        while j < line.len()
            invariant
                j <= line.len(),
                out@ == before + line@.take(j as int),
            decreases line.len() - j,
        {
            out.push(line[j]);
            assert(line@.take(j + 1) == line@.take(j as int).push(line@[j as int]));
            j += 1;
        }
        assert(line@.take(j as int) == line@);
        assert(v.take(i + 1).last() == line@);
        if i == 0 {
            assert(before == Seq::<char>::empty());
        }
        i += 1;
    }
    assert(v.take(i as int) == v);
    string_of(out.as_slice())
}

/// Reads a plain `.rhai` script file: `//!` comment lines at its head give
/// the metadata, the rest is the script.
///
/// ```text
/// //! rule: J006
/// //! title: methods stay short
/// //! severity: minor
/// //! category: code-smell
/// //! enabled: true
/// //! params: max_lines=50,threshold=10
/// ```
///
/// `rule` (or `id`) is required; `severity` defaults to `minor`, `title` to
/// the id. `enabled` takes true/false/yes/no/on/off/1/0 in any case. A leading
/// byte-order mark is ignored; comment lines that open the body are kept.
pub fn parse_rhai_script(content: &str) -> (r: Result<RhaiRule, RhaiRuleError>)
    ensures
        r matches Ok(rule) ==> rhai_script_spec(content@) matches Ok(s) && rule_is(rule, s),
        r matches Err(e) ==> rhai_script_spec(content@) matches Err(m) && e matches RhaiRuleError::Compile(
            em,
        ) && em@ == m,
{
    let all = chars_of(content);
    let body_start: usize = if all.len() > 0 && all[0] == '\u{FEFF}' {
        1
    } else {
        0
    };
    let text = copy_range(all.as_slice(), body_start, all.len());
    assert(text@ == strip_bom(content@));
    let lines = split_lines(text.as_slice());
    let ghost ls = vviews(lines@);
    let mut in_header = true;
    let mut saw_meta = false;
    let mut id: Vec<char> = Vec::new();
    let mut title: Vec<char> = Vec::new();
    let mut severity: Vec<char> = chars_of("minor");
    let mut category: Vec<char> = Vec::new();
    let mut enabled = true;
    let mut params: Vec<char> = Vec::new();
    let mut bad: Option<Vec<char>> = None;
    let mut body: Vec<Vec<char>> = Vec::new();
    assert(ls.take(0) == Seq::<Seq<char>>::empty());
    assert(vviews(body@) == Seq::<Seq<char>>::empty());
    proof {
        reveal_strlit("minor");
    }
    assert(severity@ == "minor"@);
    let mut i: usize = 0;
    while i < lines.len()
        invariant
            i <= lines.len(),
            ls == vviews(lines@),
            ls == lines_spec(strip_bom(content@)),
            header_scan(ls.take(i as int)) == (HeaderScan {
                in_header,
                saw_meta,
                id: id@,
                title: title@,
                severity: severity@,
                category: category@,
                enabled,
                params: params@,
                bad_enabled: match bad {
                    Some(b) => Some(b@),
                    None => None,
                },
                body: vviews(body@),
            }),
        decreases lines.len() - i,
    {
        let line = &lines[i];
        let ghost h0 = header_scan(ls.take(i as int));
        proof {
            assert(ls.take(i + 1).drop_last() == ls.take(i as int));
            assert(ls.take(i + 1).last() == line@);
            assert(header_scan(ls.take(i + 1)) == header_step(h0, line@));
        }
        if bad.is_none() {
            if in_header {
                let t = trim_start_chars(line.as_slice());
                let marker: Vec<char> = chars_of("//!");
                proof {
                    reveal_strlit("//!");
                }
                if starts_with(t.as_slice(), marker.as_slice()) {
                    saw_meta = true;
                    let rest0 = copy_range(t.as_slice(), 3, t.len());
                    assert(rest0@ == t@.skip(3));
                    let rest = trim_chars(rest0.as_slice());
                    let ghost h1 = HeaderScan { saw_meta: true, ..h0 };
                    match split_trimmed(rest.as_slice(), ':') {
                        Some(kv) => {
                            let (key, val) = kv;
                            assert(meta_pair(trim(t@.skip(3))) == Some((key@, val@)));
                            assert(header_step(h0, line@) == apply_meta(h1, key@, val@));
                            let k = key.as_slice();
                            if chars_are(k, "rule") || chars_are(k, "id") {
                                id = val;
                            } else if chars_are(k, "title") || chars_are(k, "name") {
                                title = val;
                            } else if chars_are(k, "severity") {
                                severity = val;
                            } else if chars_are(k, "category") {
                                category = val;
                            } else if chars_are(k, "enabled") {
                                match parse_bool_header(val.as_slice()) {
                                    Some(b) => {
                                        enabled = b;
                                    },
                                    None => {
                                        bad = Some(val);
                                    },
                                }
                            } else if chars_are(k, "params") {
                                params = val;
                            }
                        },
                        None => {
                            assert(header_step(h0, line@) == h1);
                        },
                    }
                } else if t.len() == 0 && !saw_meta {
                } else {
                    in_header = false;
                    assert(line@.subrange(0, line@.len() as int) == line@);
                    let ghost old_body = body@;
                    body.push(copy_range(line.as_slice(), 0, line.len()));
                    assert(body@.drop_last() == old_body);
                    assert(vviews(body@) == vviews(old_body).push(line@));
                }
            } else {
                assert(line@.subrange(0, line@.len() as int) == line@);
                let ghost old_body = body@;
                body.push(copy_range(line.as_slice(), 0, line.len()));
                assert(body@.drop_last() == old_body);
                assert(vviews(body@) == vviews(old_body).push(line@));
            }
        }
        i += 1;
    }
    assert(ls.take(i as int) == ls);
    match bad {
        Some(v) => {
            let mut msg = String::new();
            append_str(&mut msg, "invalid `enabled` value `");
            let vs = string_of(v.as_slice());
            append_str(&mut msg, vs.as_str());
            append_str(&mut msg, "` in .rhai file header");
            return Err(RhaiRuleError::Compile(msg));
        },
        None => {},
    }
    if id.len() == 0 {
        let mut msg = String::new();
        append_str(&mut msg, "missing `//! rule:` metadata in .rhai file header");
        return Err(RhaiRuleError::Compile(msg));
    }
    let title_s = if title.len() == 0 {
        string_of(id.as_slice())
    } else {
        string_of(title.as_slice())
    };
    let ps = if params.len() == 0 {
        RhaiParams::Null
    } else {
        RhaiParams::Header(parse_params(params.as_slice()))
    };
    let script = join_body(&body);
    Ok(
        RhaiRule {
            id: string_of(id.as_slice()),
            title: title_s,
            severity: string_of(severity.as_slice()),
            category: string_of(category.as_slice()),
            script,
            enabled,
            params: ps,
            span_policy: SpanPolicy::Anchor,
        },
    )
}

/// Load-time problems of a Rhai rule: an unknown severity name, then an
/// empty script.
pub open spec fn rhai_problems(severity: Seq<char>, script: Seq<char>) -> Seq<Seq<char>> {
    let a: Seq<Seq<char>> = if severity_named(severity_key(severity)) is None {
        seq!["invalid severity `"@ + severity + "`"@]
    } else {
        Seq::empty()
    };
    if trim(script).len() == 0 {
        a.push("empty script"@)
    } else {
        a
    }
}

/// The severity a Rhai rule reports with: its named severity, else `Minor`.
pub open spec fn rhai_severity(severity: Seq<char>) -> Severity {
    match severity_named(severity_key(severity)) {
        Some(s) => s,
        None => Severity::Minor,
    }
}

impl RhaiRule {
    /// The rule's id.
    pub fn rule_id(&self) -> (r: RuleId)
        ensures
            r.0@ == self.id@,
    {
        RuleId(self.id.clone())
    }

    /// The rule's severity; `Minor` where the name is not a severity.
    pub fn severity(&self) -> (r: Severity)
        ensures
            r == rhai_severity(self.severity@),
    {
        match Severity::parse_name(self.severity.as_str()) {
            Ok(s) => s,
            Err(_) => Severity::Minor,
        }
    }

    /// Checks the definition: the severity must be a severity name and the
    /// script must not be blank.
    pub fn validate(&self) -> (r: Result<(), Vec<String>>)
        ensures
            match r {
                Ok(()) => rhai_problems(self.severity@, self.script@).len() == 0,
                Err(es) => es@.len() > 0 && string_views(es@) == rhai_problems(
                    self.severity@,
                    self.script@,
                ),
            },
    {
        let mut errors: Vec<String> = Vec::new();
        match Severity::parse_name(self.severity.as_str()) {
            Ok(_) => {},
            Err(_) => {
                let mut m = String::new();
                append_str(&mut m, "invalid severity `");
                append_str(&mut m, self.severity.as_str());
                append_str(&mut m, "`");
                errors.push(m);
            },
        }
        let sc = chars_of(self.script.as_str());
        let t = trim_chars(sc.as_slice());
        if t.len() == 0 {
            errors.push(String::from_str("empty script"));
        }
        proof {
            reveal_strlit("empty script");
        }
        assert(string_views(errors@) == rhai_problems(self.severity@, self.script@));
        if errors.len() == 0 {
            Ok(())
        } else {
            Err(errors)
        }
    }
}

/// Error while running a Rhai script.
#[derive(Debug)]
pub enum EngineError {
    /// The script did not compile.
    Compile(String),
    /// The script failed while running.
    Runtime(String),
    /// The script returned something other than an array of maps.
    ReturnType(String),
}

impl EngineError {
    /// The error's message.
    pub fn message(&self) -> (r: String)
        ensures
            r@ == match self {
                EngineError::Compile(m) => "script compilation error: "@ + m@,
                EngineError::Runtime(m) => "script execution error: "@ + m@,
                EngineError::ReturnType(m) => "script returned wrong type: expected array, got "@ + m@,
            },
    {
        let mut s = String::new();
        match self {
            EngineError::Compile(m) => {
                append_str(&mut s, "script compilation error: ");
                append_str(&mut s, m.as_str());
            },
            EngineError::Runtime(m) => {
                append_str(&mut s, "script execution error: ");
                append_str(&mut s, m.as_str());
            },
            EngineError::ReturnType(m) => {
                append_str(&mut s, "script returned wrong type: expected array, got ");
                append_str(&mut s, m.as_str());
            },
        }
        s
    }
}

/// One map of a script's result, by the fields a violation is made of: each
/// `None` where the field is missing or of another type.
pub struct ScriptHit {
    pub line: Option<i64>,
    pub end_line: Option<i64>,
    pub message: Option<String>,
}

/// One element of a script's result array.
pub enum ScriptItem {
    Record(ScriptHit),
    /// Not a map; holds the value's type name.
    Other(String),
}

/// What a script returned.
pub enum ScriptResult {
    Items(Vec<ScriptItem>),
    /// Not an array; holds the value's type name.
    NotArray(String),
}

/// The violation a result map stands for: line 0 and message `"violation"`
/// where those fields are missing.
pub open spec fn hit_violation(h: ScriptHit, rule_id: Seq<char>, severity: Severity, file: Seq<char>) -> ViolationV {
    ViolationV {
        rule_id,
        severity,
        file,
        line: (match h.line {
            Some(n) => n as usize,
            None => 0usize,
        }) as nat,
        end_line: match h.end_line {
            Some(e) => Some(e as usize),
            None => None,
        },
        message: match h.message {
            Some(m) => m@,
            None => "violation"@,
        },
    }
}

/// Whether `v` is the violation an element stands for (only a map stands
/// for one).
pub open spec fn item_gives(item: ScriptItem, v: ViolationV, rule_id: Seq<char>, severity: Severity, file: Seq<char>) -> bool {
    match item {
        ScriptItem::Record(h) => v == hit_violation(h, rule_id, severity, file),
        ScriptItem::Other(_) => false,
    }
}

/// The type name an element that is not a map holds.
pub open spec fn other_name(item: ScriptItem) -> Seq<char> {
    match item {
        ScriptItem::Record(_) => Seq::empty(),
        ScriptItem::Other(t) => t@,
    }
}

/// Whether `r` is the wrong-type error with message `msg`.
pub open spec fn is_type_error(r: Result<Vec<Violation>, EngineError>, msg: Seq<char>) -> bool {
    match r {
        Err(EngineError::ReturnType(m)) => m@ == msg,
        _ => false,
    }
}

/// Whether `r` holds, element by element, the violations `items` stand for.
pub open spec fn gives_all(
    r: Result<Vec<Violation>, EngineError>,
    items: Seq<ScriptItem>,
    rule_id: Seq<char>,
    severity: Severity,
    file: Seq<char>,
) -> bool {
    match r {
        Ok(vs) => vs.len() == items.len() && forall|i: int|
            0 <= i < items.len() ==> item_gives(#[trigger] items[i], vs@[i]@, rule_id, severity, file),
        Err(_) => false,
    }
}

/// Turns a script's result into violations of `rule_id`: the result must be
/// an array of maps, each giving `line`, optionally `end_line`, and `message`.
pub fn parse_violations(result: &ScriptResult, rule_id: &str, severity: Severity, file: &str) -> (r: Result<
    Vec<Violation>,
    EngineError,
>)
    ensures
        match result {
            ScriptResult::NotArray(t) => is_type_error(r, t@),
            ScriptResult::Items(items) => {
                if exists|i: int| 0 <= i < items@.len() && #[trigger] items@[i] is Other {
                    exists|i: int|
                        0 <= i < items@.len() && #[trigger] items@[i] is Other && (forall|j: int|
                            0 <= j < i ==> !(#[trigger] items@[j] is Other)) && is_type_error(
                            r,
                            "expected map, got "@ + other_name(items@[i]),
                        )
                } else {
                    gives_all(r, items@, rule_id@, severity, file@)
                }
            },
        },
{
    match result {
        ScriptResult::NotArray(t) => Err(EngineError::ReturnType(t.clone())),
        ScriptResult::Items(items) => {
            let mut out: Vec<Violation> = Vec::new();
            let mut i: usize = 0;
            while i < items.len()
                invariant
                    i <= items.len(),
                    out.len() == i,
                    match result {
                        ScriptResult::Items(its) => its@ == items@,
                        _ => false,
                    },
                    forall|j: int| 0 <= j < i ==> !(#[trigger] items@[j] is Other),
                    forall|j: int|
                        0 <= j < i ==> item_gives(#[trigger] items@[j], out@[j]@, rule_id@, severity, file@),
                decreases items.len() - i,
            {
                match &items[i] {
                    ScriptItem::Other(tn) => {
                        let mut m = String::new();
                        append_str(&mut m, "expected map, got ");
                        append_str(&mut m, tn.as_str());
                        assert(items@[i as int] is Other);
                        assert(other_name(items@[i as int]) == tn@);
                        let r: Result<Vec<Violation>, EngineError> = Err(EngineError::ReturnType(m));
                        proof {
                            let k = i as int;
                            assert(0 <= k < items@.len() && #[trigger] items@[k] is Other && (forall|j: int|
                                0 <= j < k ==> !(#[trigger] items@[j] is Other)) && is_type_error(
                                r,
                                "expected map, got "@ + other_name(items@[k]),
                            ));
                        }
                        return r;
                    },
                    ScriptItem::Record(h) => {
                        let line: usize = match h.line {
                            Some(n) => n as usize,
                            None => 0,
                        };
                        let end_line: Option<usize> = match h.end_line {
                            Some(e) => Some(e as usize),
                            None => None,
                        };
                        let mut v = match &h.message {
                            Some(msg) => Violation::new(rule_id, severity, file, line, msg.as_str()),
                            None => {
                                proof {
                                    reveal_strlit("violation");
                                }
                                Violation::new(rule_id, severity, file, line, "violation")
                            },
                        };
                        v.end_line = end_line;
                        out.push(v);
                    },
                }
                i += 1;
            }
            Ok(out)
        },
    }
}

/// A byte-order mark before a `.rhai` file changes nothing.
pub proof fn lemma_bom_ignored(c: Seq<char>)
    requires
        !(c.len() > 0 && c[0] == '\u{FEFF}'),
    ensures
        rhai_script_spec(seq!['\u{FEFF}'] + c) == rhai_script_spec(c),
{
    assert((seq!['\u{FEFF}'] + c).skip(1) == c);
}

/// A rule without a title is titled by its id.
pub proof fn lemma_title_defaults_to_id(c: Seq<char>)
    ensures
        rhai_script_spec(c) matches Ok(r) ==> r.title.len() > 0 && (header_scan(
            lines_spec(strip_bom(c)),
        ).title.len() == 0 ==> r.title == r.id),
{
}

} // verus!
