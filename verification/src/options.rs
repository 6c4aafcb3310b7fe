//! The settings a scan runs with: the command line's value where it gives
//! one, else the project file's, else the default.

use vstd::prelude::*;
use crate::rhai_rule::split_on;
use crate::rule::{Severity, SeverityParseError, severity_key, severity_named};
use crate::scan::{listed_ids, split_list};
use crate::text::{chars_of, str_eq};
use crate::yaml_rule::string_views;

verus! {

broadcast use vstd::string::group_string_axioms;

/// A copy of a list of strings.
fn copy_strings(v: &[String]) -> (r: Vec<String>)
    ensures
        r@ == v@,
{
    let mut out: Vec<String> = Vec::new();
    let mut i: usize = 0;
    while i < v.len()
        invariant
            i <= v.len(),
            out@ == v@.take(i as int),
        decreases v.len() - i,
    {
        out.push(v[i].clone());
        assert(v@.take(i + 1) == v@.take(i as int).push(v@[i as int]));
        i += 1;
    }
    assert(v@.take(i as int) == v@);
    out
}

/// The ids an enable or disable option names: the command line's list where
/// it is given and not empty, the project file's list otherwise.
pub open spec fn chosen_ids(cli: Option<&str>, configured: Seq<Seq<char>>) -> Seq<Seq<char>> {
    match cli {
        Some(s) => if s@.len() > 0 {
            listed_ids(split_on(s@, ','))
        } else {
            configured
        },
        None => configured,
    }
}

/// The rule ids an enable or disable option selects.
pub fn effective_ids(cli: Option<&str>, configured: &[String]) -> (r: Vec<String>)
    ensures
        string_views(r@) == chosen_ids(cli, string_views(configured@)),
{
    match cli {
        Some(s) => {
            if chars_of(s).len() > 0 {
                split_list(s)
            } else {
                copy_strings(configured)
            }
        },
        None => copy_strings(configured),
    }
}

/// The directories a scan skips unless told otherwise.
pub open spec fn default_excludes() -> Seq<Seq<char>> {
    seq!["target"@, "build"@, ".git"@, "node_modules"@]
}

/// The excluded directory names: the command line's list (the defaults where
/// it gives none), followed by the project file's.
pub open spec fn chosen_excludes(cli: Option<&str>, configured: Seq<Seq<char>>) -> Seq<Seq<char>> {
    let given = match cli {
        Some(s) => listed_ids(split_on(s@, ',')),
        None => default_excludes(),
    };
    given + configured
}

/// The directory names a scan excludes.
pub fn effective_excludes(cli: Option<&str>, configured: &[String]) -> (r: Vec<String>)
    ensures
        string_views(r@) == chosen_excludes(cli, string_views(configured@)),
{
    let mut out: Vec<String> = match cli {
        Some(s) => split_list(s),
        None => {
            let v: Vec<String> = vec![
                String::from_str("target"),
                String::from_str("build"),
                String::from_str(".git"),
                String::from_str("node_modules"),
            ];
            assert(string_views(v@) == default_excludes());
            v
        },
    };
    let ghost first = string_views(out@);
    let mut rest = copy_strings(configured);
    out.append(&mut rest);
    assert(string_views(out@) == first + string_views(configured@));
    out
}

/// The path fragments a scan is limited to: the command line's list where it
/// is given, the project file's otherwise.
pub open spec fn chosen_includes(cli: Option<&str>, configured: Seq<Seq<char>>) -> Seq<Seq<char>> {
    match cli {
        Some(s) => listed_ids(split_on(s@, ',')),
        None => configured,
    }
}

/// The path fragments a scan is limited to (none: no limit).
pub fn effective_includes(cli: Option<&str>, configured: &[String]) -> (r: Vec<String>)
    ensures
        string_views(r@) == chosen_includes(cli, string_views(configured@)),
{
    match cli {
        Some(s) => split_list(s),
        None => copy_strings(configured),
    }
}

/// The source encoding: the command line's unless it is `auto`, else the
/// project file's, else `auto`.
pub open spec fn chosen_encoding(cli: Seq<char>, configured: Option<Seq<char>>) -> Seq<char> {
    if cli != "auto"@ {
        cli
    } else {
        match configured {
            Some(e) => e,
            None => "auto"@,
        }
    }
}

/// The encoding source files are read with.
pub fn effective_encoding(cli: &str, configured: Option<&str>) -> (r: String)
    ensures
        r@ == chosen_encoding(cli@, match configured {
            Some(e) => Some(e@),
            None => None,
        }),
{
    if !str_eq(cli, "auto") {
        String::from_str(cli)
    } else {
        match configured {
            Some(e) => String::from_str(e),
            None => String::from_str("auto"),
        }
    }
}

/// The name of the least severity a rule needs to run: the command line's
/// where it is not empty, else the project file's, else `info`.
pub open spec fn chosen_severity_name(cli: Seq<char>, configured: Option<Seq<char>>) -> Seq<char> {
    if cli.len() == 0 {
        match configured {
            Some(n) => n,
            None => "info"@,
        }
    } else {
        cli
    }
}

/// The least severity a rule needs to run; an unknown name is an error.
pub fn effective_min_severity(cli: &str, configured: Option<&str>) -> (r: Result<
    Severity,
    SeverityParseError,
>)
    ensures
        ({
            let name = chosen_severity_name(cli@, match configured {
                Some(n) => Some(n@),
                None => None,
            });
            &&& r matches Ok(v) ==> severity_named(severity_key(name)) == Some(v)
            &&& r matches Err(e) ==> severity_named(severity_key(name)) is None && e.0@ == severity_key(name)
        }),
{
    if chars_of(cli).len() == 0 {
        match configured {
            Some(n) => Severity::parse_name(n),
            None => Severity::parse_name("info"),
        }
    } else {
        Severity::parse_name(cli)
    }
}

/// The rules file: the command line's, else the project file's, else
/// `javaguard.rules.toml`.
pub open spec fn chosen_rules_file(cli: Option<&str>, configured: Option<&str>) -> Seq<char> {
    match cli {
        Some(s) => s@,
        None => match configured {
            Some(c) => c@,
            None => "javaguard.rules.toml"@,
        },
    }
}

/// The path of the rules file, before it is resolved against the project
/// file's directory.
pub fn effective_rules_file(cli: Option<&str>, configured: Option<&str>) -> (r: String)
    ensures
        r@ == chosen_rules_file(cli, configured),
{
    match cli {
        Some(s) => String::from_str(s),
        None => match configured {
            Some(c) => String::from_str(c),
            None => String::from_str("javaguard.rules.toml"),
        },
    }
}

/// A semantic comparison needs a diff to compare against: it is refused
/// when `--semantic-diff` is given without `--diff`.
pub fn check_semantic_diff(semantic_diff: bool, diff: Option<&str>) -> (r: Result<(), String>)
    ensures
        r is Err <==> (semantic_diff && diff is None),
        r matches Err(e) ==> e@ == "--semantic-diff requires --diff (e.g. --diff HEAD~1)"@,
{
    if semantic_diff && diff.is_none() {
        Err(String::from_str("--semantic-diff requires --diff (e.g. --diff HEAD~1)"))
    } else {
        Ok(())
    }
}

} // verus!
