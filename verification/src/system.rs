//! Static system identity: hostname, OS and kernel names, uptime.

use vstd::prelude::*;
use vstd::string::StringExecFns;

verus! {

/// System identity snapshot.
#[derive(Debug, Clone)]
pub struct SystemInfo {
    pub hostname: String,
    pub os_name: String,
    pub os_version: String,
    pub kernel_version: String,
    pub architecture: String,
    pub uptime: u64,
    pub boot_time: u64,
}

/// System identity monitor; it holds no mutable state.
pub struct SystemMonitor;

/// What an absent identity field reads as.
pub open spec fn unknown_label() -> Seq<char> {
    "Unknown"@
}

fn field_or_unknown(v: Option<String>) -> (r: String)
    ensures
        match v {
            Some(s) => r == s,
            None => r@ == unknown_label(),
        },
{
    match v {
        Some(s) => s,
        None => String::from_str("Unknown"),
    }
}

impl Default for SystemMonitor {
    fn default() -> SystemMonitor {
        SystemMonitor::new()
    }
}

impl SystemMonitor {
    pub fn new() -> (r: SystemMonitor) {
        SystemMonitor
    }

    /// Assemble the identity snapshot; every absent field reads "Unknown".
    pub fn refresh(
        &self,
        hostname: Option<String>,
        os_name: Option<String>,
        os_version: Option<String>,
        kernel_version: Option<String>,
        architecture: Option<String>,
        uptime: u64,
        boot_time: u64,
    ) -> (r: SystemInfo)
        ensures
            (match hostname {
                Some(s) => r.hostname == s,
                None => r.hostname@ == unknown_label(),
            }),
            (match os_name {
                Some(s) => r.os_name == s,
                None => r.os_name@ == unknown_label(),
            }),
            (match os_version {
                Some(s) => r.os_version == s,
                None => r.os_version@ == unknown_label(),
            }),
            (match kernel_version {
                Some(s) => r.kernel_version == s,
                None => r.kernel_version@ == unknown_label(),
            }),
            (match architecture {
                Some(s) => r.architecture == s,
                None => r.architecture@ == unknown_label(),
            }),
            r.uptime == uptime,
            r.boot_time == boot_time,
    {
        SystemInfo {
            hostname: field_or_unknown(hostname),
            os_name: field_or_unknown(os_name),
            os_version: field_or_unknown(os_version),
            kernel_version: field_or_unknown(kernel_version),
            architecture: field_or_unknown(architecture),
            uptime,
            boot_time,
        }
    }
}

} // verus!
