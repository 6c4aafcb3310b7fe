//! A YAML rule as a [`Rule`] over compilation units.

use vstd::prelude::*;
use crate::ast::CompilationUnit;
use crate::matcher::{match_pattern, unit_matches, MatchEnv};
use crate::rule::{severity_key, severity_named, views, Rule, RuleId, Severity, Violation};
use crate::text::str_eq;
use crate::yaml_rule::{field_views, YamlRule};

verus! {

broadcast use vstd::string::group_string_axioms;

/// A YAML rule seen through the [`Rule`] interface.
pub struct YamlRuleAdapter {
    rule: YamlRule,
    rule_id: RuleId,
}

/// The file name a unit's violations are reported under: its source file,
/// or `<unknown>` where that is empty.
pub open spec fn report_file(unit: CompilationUnit) -> Seq<char> {
    if unit.source_file@.len() == 0 {
        "<unknown>"@
    } else {
        unit.source_file@
    }
}

/// The severity a YAML rule reports with.
pub open spec fn yaml_severity(rule: YamlRule) -> Severity {
    match severity_named(severity_key(rule.severity@)) {
        Some(s) => s,
        None => Severity::Minor,
    }
}

impl YamlRuleAdapter {
    /// Wraps a YAML rule.
    pub fn new(rule: YamlRule) -> (r: Self)
        ensures
            r.rule() == rule,
            r.id_spec() == rule.id@,
    {
        let rule_id = rule.rule_id();
        YamlRuleAdapter { rule, rule_id }
    }

    /// The wrapped rule.
    pub closed spec fn rule(&self) -> YamlRule {
        self.rule
    }

    /// The id it reports under.
    pub closed spec fn id_spec(&self) -> Seq<char> {
        self.rule_id.0@
    }
}

impl Rule<CompilationUnit> for YamlRuleAdapter {
    fn id(&self) -> (r: &RuleId)
        ensures
            r.0@ == self.id_spec(),
    {
        &self.rule_id
    }

    fn description(&self) -> (r: &str)
        ensures
            r@ == self.rule().title@,
    {
        self.rule.title.as_str()
    }

    fn severity(&self) -> (r: Severity)
        ensures
            r == yaml_severity(self.rule()),
    {
        self.rule.severity()
    }

    fn enabled(&self) -> (r: bool)
        ensures
            r == self.rule().enabled,
    {
        self.rule.enabled
    }

    fn check_unit(&self, unit: &CompilationUnit) -> (r: Vec<Violation>)
        ensures
            views(r@) == unit_matches(
                MatchEnv {
                    file: report_file(*unit),
                    rule_id: self.rule().id@,
                    severity: yaml_severity(self.rule()),
                    message: self.rule().message@,
                    fields: field_views(self.rule().pattern.match_fields@),
                },
                self.rule().pattern.kind,
                *unit,
            ),
    {
        proof {
            reveal_strlit("");
            assert(""@ =~= Seq::<char>::empty());
            if unit.source_file@.len() == 0 {
                assert(unit.source_file@ =~= ""@);
            }
        }
        let file: &str = if str_eq(unit.source_file.as_str(), "") {
            "<unknown>"
        } else {
            unit.source_file.as_str()
        };
        match_pattern(
            &self.rule.pattern,
            unit,
            file,
            self.rule.id.as_str(),
            self.rule.severity(),
            self.rule.message.as_str(),
        )
    }
}

} // verus!
