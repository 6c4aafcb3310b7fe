//! Verified core of a lightweight Java static-analysis tool.

pub mod text;
pub mod assoc;
pub mod ast;
pub mod rule;
pub mod gate;
pub mod git_diff;
pub mod reporter;
pub mod yaml_rule;
pub mod matcher;
pub mod yaml_adapter;
pub mod empty_catch;
pub mod infinite_loop;
pub mod builtin;
pub mod baseline;
pub mod rhai_rule;
pub mod scan;
pub mod bridge;
pub mod plugin;
pub mod source;
pub mod options;
