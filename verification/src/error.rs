//! Error taxonomy for the monitor core.
//!
//! Probe-level failures are absorbed into snapshots as absent fields or
//! diagnostic strings; only the process-management operations surface one of
//! these hard errors to the caller.

use vstd::prelude::*;
use vstd::string::StringExecFns;

verus! {

/// Hard error returned by the process-management operations.
#[derive(Debug, Clone)]
pub enum MonitorError {
    /// Unexpected OS or library failure, with diagnostic detail attached.
    SystemAccess(String),
    /// The requested vendor or device is absent.
    GpuNotAvailable(String),
    /// A signal or priority change was rejected by the OS.
    PermissionDenied(String),
    /// The process vanished between enumeration and action.
    ProcessNotFound(u32),
}

impl MonitorError {
    /// Which variant this is, as a spec-level discriminant for contracts.
    pub open spec fn is_system_access(&self) -> bool {
        matches!(self, MonitorError::SystemAccess(_))
    }

    pub open spec fn is_gpu_not_available(&self) -> bool {
        matches!(self, MonitorError::GpuNotAvailable(_))
    }

    pub open spec fn is_permission_denied(&self) -> bool {
        matches!(self, MonitorError::PermissionDenied(_))
    }

    pub open spec fn is_process_not_found(&self) -> bool {
        matches!(self, MonitorError::ProcessNotFound(_))
    }

    /// Human-readable description, in place of a `Display` impl.
    pub fn message(&self) -> (r: String)
        ensures
            r@ == (match *self {
                MonitorError::SystemAccess(ref d) => "Failed to access system information: "@
                    + d@,
                MonitorError::GpuNotAvailable(ref d) => "GPU not available: "@ + d@,
                MonitorError::PermissionDenied(ref d) => "Permission denied: "@ + d@,
                MonitorError::ProcessNotFound(pid) => "Process not found: "@ + crate::text::dec_str(
                    pid as nat,
                ),
            }),
    {
        match self {
            MonitorError::SystemAccess(detail) => {
                let mut s = String::from_str("Failed to access system information: ");
                s.append(detail.as_str());
                s
            },
            MonitorError::GpuNotAvailable(detail) => {
                let mut s = String::from_str("GPU not available: ");
                s.append(detail.as_str());
                s
            },
            MonitorError::PermissionDenied(detail) => {
                let mut s = String::from_str("Permission denied: ");
                s.append(detail.as_str());
                s
            },
            MonitorError::ProcessNotFound(pid) => {
                let mut s = String::from_str("Process not found: ");
                let digits = crate::text::u64_to_dec_string(*pid as u64);
                s.append(digits.as_str());
                s
            },
        }
    }
}

} // verus!
