//! When the daemon looks at the devices.

use crate::text::{is_text, opt_ref};
use vstd::prelude::*;

verus! {

/// How long to wait after a pass that left something undone, in seconds.
pub const RECONCILE_RETRY_SECONDS: u64 = 2;

/// How long to wait after a pass that did all of its work, in seconds.
pub const RECONCILE_SAFETY_SECONDS: u64 = 30;

/// How long to wait for the next pass, in seconds. After a failure, or where
/// a machine was not running yet, the next pass comes soon.
pub fn reconcile_delay(succeeded: bool, deferred: bool) -> (seconds: u64)
    ensures
        seconds == if succeeded && !deferred {
            RECONCILE_SAFETY_SECONDS
        } else {
            RECONCILE_RETRY_SECONDS
        },
{
    if succeeded && !deferred {
        RECONCILE_SAFETY_SECONDS
    } else {
        RECONCILE_RETRY_SECONDS
    }
}

/// How long to wait for the first pass of the loop, in seconds, after a pass
/// at the start where one was asked for.
pub fn initial_delay(attach_connected: bool, succeeded: bool, deferred: bool) -> (seconds: u64)
    ensures
        seconds == if attach_connected && succeeded && !deferred {
            RECONCILE_SAFETY_SECONDS
        } else {
            RECONCILE_RETRY_SECONDS
        },
{
    reconcile_delay(attach_connected && succeeded, deferred)
}

/// What ends the wait for the next pass.
#[derive(Clone, Copy, Debug, PartialEq, Eq, Structural)]
pub enum Wake {
    Event,
    Timeout,
    /// No event can come any more.
    Closed,
}

/// Whether a pass follows. Without events the loop ends.
pub fn passes(wake: Wake) -> (r: bool)
    ensures
        r == (wake != Wake::Closed),
{
    match wake {
        Wake::Closed => false,
        _ => true,
    }
}

/// Whether an event of the system concerns the manager.
pub fn is_relevant(subsystem: Option<&str>) -> (r: bool)
    ensures
        r == (opt_ref(subsystem) == Some("usb"@) || opt_ref(subsystem) == Some("pci"@)),
{
    is_text(subsystem, "usb") || is_text(subsystem, "pci")
}

/// The next pass comes after half a minute where the last one did all of its
/// work, and after two seconds where it failed or put work off; at the start it
/// comes soon unless a pass was asked for and did all of its work.
pub proof fn law_passes_come_soon_after_failures(
    succeeded: bool,
    deferred: bool,
    attach: bool,
    delay: u64,
    first: u64,
)
    requires
        call_ensures(reconcile_delay, (succeeded, deferred), delay),
        call_ensures(initial_delay, (attach, succeeded, deferred), first),
    ensures
        succeeded && !deferred ==> delay == 30,
        !succeeded || deferred ==> delay == 2,
        attach ==> first == delay,
        !attach ==> first == 2,
{
}

/// A pass follows every event and every timeout, and none once no event can
/// come. Only USB and PCI events count.
pub proof fn law_events_wake_the_daemon(
    wake: Wake,
    r: bool,
    subsystem: Option<&str>,
    relevant: bool,
)
    requires
        call_ensures(passes, (wake,), r),
        call_ensures(is_relevant, (subsystem,), relevant),
    ensures
        wake is Event || wake is Timeout ==> r,
        wake is Closed ==> !r,
        relevant <==> subsystem is Some && (subsystem->0@ == "usb"@ || subsystem->0@ == "pci"@),
{
}

} // verus!
