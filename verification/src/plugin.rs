//! Rules written as Java plugins: the interface and the loader settings.

use vstd::prelude::*;
use crate::rule::{RuleId, Severity, Violation, ViolationV};
use crate::text::append_str;

verus! {

broadcast use vstd::string::group_string_axioms;

/// A rule provided by a Java plugin jar.
pub trait PluginRule {
    /// Rule id.
    fn id(&self) -> &RuleId;

    /// Severity.
    fn severity(&self) -> Severity;

    /// Description.
    fn description(&self) -> &str;

    /// Whether the rule is enabled (by default it is).
    fn enabled(&self) -> (r: bool)
        default_ensures
            r,
    {
        true
    }

    /// Analyses the parser's AST JSON of `file`.
    fn analyze(&self, ast_json: &str, file: &str) -> Result<Vec<Violation>, PluginError>;
}

/// Error while loading or running a plugin.
#[derive(Debug)]
pub enum PluginError {
    JarNotFound(String),
    JvmStart(String),
    Communication(String),
    PluginRuntime(String),
    InvalidResponse(String),
}

impl PluginError {
    /// The error's message.
    pub fn message(&self) -> (r: String)
        ensures
            r@ == match self {
                PluginError::JarNotFound(p) => "plugin jar not found: "@ + p@,
                PluginError::JvmStart(m) => "failed to start JVM: "@ + m@,
                PluginError::Communication(m) => "plugin communication error: "@ + m@,
                PluginError::PluginRuntime(m) => "plugin returned error: "@ + m@,
                PluginError::InvalidResponse(m) => "invalid plugin response: "@ + m@,
            },
    {
        let mut s = String::new();
        match self {
            PluginError::JarNotFound(p) => {
                append_str(&mut s, "plugin jar not found: ");
                append_str(&mut s, p.as_str());
            },
            PluginError::JvmStart(m) => {
                append_str(&mut s, "failed to start JVM: ");
                append_str(&mut s, m.as_str());
            },
            PluginError::Communication(m) => {
                append_str(&mut s, "plugin communication error: ");
                append_str(&mut s, m.as_str());
            },
            PluginError::PluginRuntime(m) => {
                append_str(&mut s, "plugin returned error: ");
                append_str(&mut s, m.as_str());
            },
            PluginError::InvalidResponse(m) => {
                append_str(&mut s, "invalid plugin response: ");
                append_str(&mut s, m.as_str());
            },
        }
        s
    }
}

/// Settings of the plugin loader.
#[derive(Debug)]
pub struct PluginConfig {
    /// The plugin jar.
    pub jar_path: String,
    /// The Java command.
    pub java_cmd: String,
    /// Options of the JVM.
    pub jvm_args: Vec<String>,
}

impl PluginConfig {
    /// Settings for the jar at `jar_path`, run by `java_cmd` (the value of
    /// `JAVA_CMD` where it is set) or else `java`, with a 512 MiB heap limit.
    pub fn new(jar_path: &str, java_cmd: Option<String>) -> (r: Self)
        ensures
            r.jar_path@ == jar_path@,
            r.java_cmd@ == match java_cmd {
                Some(c) => c@,
                None => "java"@,
            },
            r.jvm_args@.len() == 1,
            r.jvm_args@[0]@ == "-Xmx512m"@,
    {
        let cmd = match java_cmd {
            Some(c) => c,
            None => String::from_str("java"),
        };
        let mut args: Vec<String> = Vec::new();
        args.push(String::from_str("-Xmx512m"));
        PluginConfig { jar_path: String::from_str(jar_path), java_cmd: cmd, jvm_args: args }
    }
}

/// Loads the rules of a plugin jar.
#[derive(Debug)]
pub struct PluginLoader {
    config: PluginConfig,
}

impl PluginLoader {
    /// A loader with the given settings.
    pub fn new(config: PluginConfig) -> (r: Self)
        ensures
            r.jar_view() == config.jar_path@,
    {
        PluginLoader { config }
    }

    /// The plugin jar, as characters.
    pub closed spec fn jar_view(&self) -> Seq<char> {
        self.config.jar_path@
    }

    /// The rule ids the plugin provides. The jar must exist (`jar_exists`
    /// tells whether it does); the protocol that would list its rules is not
    /// implemented yet, so an existing jar provides none.
    pub fn load(&self, jar_exists: bool) -> (r: Result<Vec<RuleId>, PluginError>)
        ensures
            !jar_exists ==> (r matches Err(PluginError::JarNotFound(p)) && p@ == self.jar_view()),
            jar_exists ==> (r matches Ok(v) && v.len() == 0),
    {
        if !jar_exists {
            return Err(PluginError::JarNotFound(self.config.jar_path.clone()));
        }
        Ok(Vec::new())
    }
}

/// One violation in a plugin's answer.
#[derive(Debug)]
pub struct RpcViolation {
    pub line: usize,
    pub end_line: Option<usize>,
    pub message: String,
}

/// The violation of rule `rule_id` in `file` a plugin reported.
pub open spec fn rpc_violation(v: RpcViolation, rule_id: Seq<char>, file: Seq<char>) -> ViolationV {
    ViolationV {
        rule_id,
        severity: Severity::Minor,
        file,
        line: v.line as nat,
        end_line: v.end_line,
        message: v.message@,
    }
}

/// The result of a plugin's answer: its violations (reported as `Minor`)
/// where its status is `ok`, else its error.
pub fn plugin_violations(
    status: &str,
    error: Option<String>,
    violations: &[RpcViolation],
    rule_id: &str,
    file: &str,
) -> (r: Result<Vec<Violation>, PluginError>)
    ensures
        status@ != "ok"@ ==> (r matches Err(PluginError::PluginRuntime(m)) && m@ == match error {
            Some(e) => e@,
            None => "unknown plugin error"@,
        }),
        status@ == "ok"@ ==> (r matches Ok(vs) && vs@.len() == violations@.len() && forall|i: int|
            0 <= i < violations@.len() ==> #[trigger] vs@[i]@ == rpc_violation(
                violations@[i],
                rule_id@,
                file@,
            )),
{
    if !crate::text::str_eq(status, "ok") {
        let m = match error {
            Some(e) => e,
            None => String::from_str("unknown plugin error"),
        };
        return Err(PluginError::PluginRuntime(m));
    }
    let mut out: Vec<Violation> = Vec::new();
    let mut i: usize = 0;
    while i < violations.len()
        invariant
            i <= violations.len(),
            out@.len() == i,
            forall|j: int| 0 <= j < i ==> #[trigger] out@[j]@ == rpc_violation(violations@[j], rule_id@, file@),
        decreases violations.len() - i,
    {
        let v = &violations[i];
        let mut x = Violation::new(rule_id, Severity::Minor, file, v.line, v.message.as_str());
        x.end_line = v.end_line;
        out.push(x);
        i += 1;
    }
    Ok(out)
}

} // verus!
