//! Registry of the rules written in Rust (J008, J009).

use vstd::prelude::*;
use crate::ast::CompilationUnit;
use crate::rule::{Rule, RuleId, Severity, SpanPolicy, Violation, ViolationV, views};
use crate::empty_catch::{EmptyCatchRule, catch_types};
use crate::infinite_loop::{InfiniteLoopRule, visit_types};

verus! {

/// One of the built-in rules.
pub enum BuiltinRule {
    EmptyCatch(EmptyCatchRule),
    InfiniteLoop(InfiniteLoopRule),
}

impl BuiltinRule {
    /// The id the rule reports under.
    pub open spec fn id_spec(&self) -> Seq<char> {
        match self {
            BuiltinRule::EmptyCatch(r) => r.id_spec(),
            BuiltinRule::InfiniteLoop(r) => r.id_spec(),
        }
    }

    /// What the rule reports on a unit.
    pub open spec fn findings(&self, unit: &CompilationUnit) -> Seq<ViolationV> {
        match self {
            BuiltinRule::EmptyCatch(_) => catch_types(unit.source_file@, unit.types@),
            BuiltinRule::InfiniteLoop(_) => visit_types(unit.source_file@, unit.types@),
        }
    }

    /// The rule's description.
    pub open spec fn description_spec(&self) -> Seq<char> {
        match self {
            BuiltinRule::EmptyCatch(_) => "Empty catch block silently swallows exceptions"@,
            BuiltinRule::InfiniteLoop(_) => "Loop that may never terminate (definite/potential infinite loop)"@,
        }
    }

    /// The span policy the rule asks for.
    pub open spec fn policy_spec(&self) -> SpanPolicy {
        match self {
            BuiltinRule::EmptyCatch(_) => SpanPolicy::Anchor,
            BuiltinRule::InfiniteLoop(_) => SpanPolicy::Intersect,
        }
    }
}

impl Rule<CompilationUnit> for BuiltinRule {
    fn id(&self) -> (r: &RuleId)
        ensures
            r.0@ == self.id_spec(),
    {
        match self {
            BuiltinRule::EmptyCatch(r) => r.id(),
            BuiltinRule::InfiniteLoop(r) => r.id(),
        }
    }

    fn description(&self) -> (r: &str)
        ensures
            r@ == self.description_spec(),
    {
        match self {
            BuiltinRule::EmptyCatch(r) => r.description(),
            BuiltinRule::InfiniteLoop(r) => r.description(),
        }
    }

    fn severity(&self) -> (r: Severity)
        ensures
            r == Severity::Major,
    {
        match self {
            BuiltinRule::EmptyCatch(r) => r.severity(),
            BuiltinRule::InfiniteLoop(r) => r.severity(),
        }
    }

    fn enabled(&self) -> (r: bool)
        ensures
            r,
    {
        true
    }

    fn check_unit(&self, unit: &CompilationUnit) -> (r: Vec<Violation>)
        ensures
            views(r@) == self.findings(unit),
    {
        match self {
            BuiltinRule::EmptyCatch(r) => r.check_unit(unit),
            BuiltinRule::InfiniteLoop(r) => r.check_unit(unit),
        }
    }

    fn span_policy(&self) -> (r: SpanPolicy)
        ensures
            r == self.policy_spec(),
    {
        match self {
            BuiltinRule::EmptyCatch(_) => SpanPolicy::Anchor,
            BuiltinRule::InfiniteLoop(r) => r.span_policy(),
        }
    }
}

/// All built-in rules: the empty-catch rule (J008), then the infinite-loop
/// rule (J009).
pub fn builtin_rules() -> (r: Vec<BuiltinRule>)
    ensures
        r.len() == 2,
        r[0] is EmptyCatch,
        r[0].id_spec() == "J008"@,
        r[1] is InfiniteLoop,
        r[1].id_spec() == "J009"@,
{
    let mut v: Vec<BuiltinRule> = Vec::new();
    v.push(BuiltinRule::EmptyCatch(EmptyCatchRule::new()));
    v.push(BuiltinRule::InfiniteLoop(InfiniteLoopRule::new()));
    v
}

/// The built-in rule with id `name`, if there is one.
pub fn builtin_named(name: &str) -> (r: Option<BuiltinRule>)
    ensures
        r matches Some(b) ==> b.id_spec() == name@,
        r is None ==> name@ != "J008"@ && name@ != "J009"@,
{
    let mut rules = builtin_rules();
    let b = rules.pop();
    let a = rules.pop();
    match (a, b) {
        (Some(a), Some(b)) => {
            if crate::text::str_eq(a.id().0.as_str(), name) {
                Some(a)
            } else if crate::text::str_eq(b.id().0.as_str(), name) {
                Some(b)
            } else {
                None
            }
        },
        _ => None,
    }
}

} // verus!
