//! The discovery registry: what a running instance advertises, and the names
//! of the files it advertises it in.

use vstd::prelude::*;

use crate::text::{decimal, push_decimal};

verus! {

/// Subdirectory of the runtime directory that holds the instance files.
pub const REGISTRY_SUBDIR: &'static str = "gtk4-e2e";

/// What an instance file advertises.
#[derive(Debug, Clone, PartialEq, Eq)]
pub struct InstanceFile {
    pub pid: u32,
    pub port: u16,
    pub app_name: String,
    pub app_version: String,
    pub started_at: String,
    /// Only present when a token is required.
    pub token: Option<String>,
}

/// `instance-<pid>.json`.
pub open spec fn instance_name(pid: u32) -> Seq<char> {
    "instance-"@ + decimal(pid as nat) + ".json"@
}

/// Name of the instance file of process `pid`.
pub fn instance_file_name(pid: u32) -> (r: String)
    ensures
        r@ == instance_name(pid),
{
    let mut s = String::from_str("instance-");
    push_decimal(&mut s, pid as u64);
    s.append(".json");
    s
}

/// Name of the temporary file an instance file is written to before it is
/// renamed into place: `instance-<pid>.json.tmp.<suffix>`.
pub fn temp_file_name(pid: u32, suffix: &str) -> (r: String)
    ensures
        r@ == instance_name(pid) + ".tmp."@ + suffix@,
{
    let mut s = instance_file_name(pid);
    s.append(".tmp.");
    s.append(suffix);
    s
}

} // verus!
