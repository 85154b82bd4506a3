//! Monitor agent decisions: a single long-lived heartbeat loop on a
//! fixed interval. Each tick resolves the hardware address and reports
//! liveness; a failed tick is logged and the loop goes on — only a
//! process-wide stop request ends it.

use vstd::prelude::*;

verus! {

/// Seconds between heartbeat ticks; a tick's report must finish before
/// the next interval is considered elapsed.
pub const REPORT_INTERVAL_SECS: u64 = 60;

/// What the monitor loop does at a tick boundary.
#[derive(Clone, Copy, Debug, PartialEq, Eq, Structural)]
pub enum MonitorAction {
    /// Resolve the hardware address and send a heartbeat.
    SendReport,
    /// End the loop.
    Shutdown,
}

/// The heartbeat body the monitor sends.
pub struct ReportRequest {
    pub mac: String,
    pub synced: bool,
}

/// The loop ends exactly on a stop request; in particular a failed
/// previous report never ends it.
pub fn monitor_step(stop_requested: bool) -> (r: MonitorAction)
    ensures
        r == MonitorAction::Shutdown <==> stop_requested,
{
    if stop_requested {
        MonitorAction::Shutdown
    } else {
        MonitorAction::SendReport
    }
}

/// The heartbeat a monitor tick sends: it asserts liveness only, never
/// a synced claim — only the sync flow's own confirmation does that.
pub fn monitor_report_request(mac: String) -> (r: ReportRequest)
    ensures
        r.mac@ == mac@,
        !r.synced,
{
    ReportRequest { mac, synced: false }
}

} // verus!
