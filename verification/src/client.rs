//! Talking to the manager.

use crate::error::Error;
use crate::protocol::Response;
use vstd::prelude::*;

verus! {

/// How the manager is reached.
#[derive(Clone, Debug)]
pub enum Transport {
    Unix { path: String },
    Tcp { host: String, port: u32 },
    Vsock { cid: u32, port: u32 },
}

/// The request for the context id of this machine. Its number has no bits for
/// a direction, although the kernel writes the id through its argument.
pub const IOCTL_VM_SOCKETS_GET_LOCAL_CID: u64 = (7 << 8) | 0xb9;

/// The context id that stands for any machine.
pub const CID_ANY: u32 = 0xffff_ffff;

/// The context id of the host.
pub const CID_HOST: u32 = 2;

/// The context id of a machine that talks to itself.
pub const CID_LOCAL: u32 = 1;

/// Whether this is a guest, from the context id where the kernel gave one.
pub fn running_in_vm(cid: Option<u32>) -> (r: bool)
    ensures
        r == (cid is Some && cid->0 != 0xffff_ffff && cid->0 != 2 && cid->0 != 1),
{
    match cid {
        Some(cid) => cid != CID_ANY && cid != CID_HOST && cid != CID_LOCAL,
        None => false,
    }
}

/// What is left of the time for a request, in nanoseconds.
pub fn remaining(deadline: u128, elapsed: u128) -> (left: u128)
    ensures
        left == if elapsed < deadline {
            deadline - elapsed
        } else {
            0
        },
{
    if elapsed < deadline {
        deadline - elapsed
    } else {
        0
    }
}

/// How long to wait before a request is tried again, in nanoseconds: a second,
/// or less where less is left. None where the time is over.
pub fn retry_pause(deadline: u128, elapsed: u128) -> (pause: Option<u64>)
    ensures
        pause is Some <==> elapsed < deadline,
        pause is Some ==> pause->0 == if deadline - elapsed < 1_000_000_000 {
            deadline - elapsed
        } else {
            1_000_000_000
        },
{
    if elapsed < deadline {
        let left: u128 = deadline - elapsed;
        if left < 1_000_000_000 {
            Some(left as u64)
        } else {
            Some(1_000_000_000)
        }
    } else {
        None
    }
}

/// Whether notifications were turned on.
pub fn listening(response: Response) -> (out: Result<(), Error>)
    ensures
        match response {
            Response::Done { payload } => out is Ok,
            Response::Failed { error } => out == Err::<(), Error>(Error::ListenRefused(error)),
        },
{
    match response {
        Response::Done { .. } => Ok(()),
        Response::Failed { error } => Err(Error::ListenRefused(error)),
    }
}

/// A machine is a guest exactly where the kernel gave it an id that is neither
/// that of the host, nor the local one, nor the one for any machine.
pub proof fn law_guests_are_told_by_their_id(cid: Option<u32>, r: bool)
    requires
        call_ensures(running_in_vm, (cid,), r),
    ensures
        cid is None ==> !r,
        cid is Some && cid->0 <= 2 ==> (r <==> cid->0 == 0),
        cid is Some && cid->0 > 2 ==> (r <==> cid->0 != u32::MAX),
{
}

/// A request is never tried beyond its time: what is left and what has passed
/// make up the time that there is, and a pause is at most what is left and at
/// most a second.
pub proof fn law_time_is_kept(deadline: u128, elapsed: u128, left: u128, pause: Option<u64>)
    requires
        call_ensures(remaining, (deadline, elapsed), left),
        call_ensures(retry_pause, (deadline, elapsed), pause),
    ensures
        elapsed <= deadline ==> left + elapsed == deadline,
        elapsed >= deadline ==> left == 0,
        pause is Some <==> left > 0,
        pause is Some ==> pause->0 > 0 && pause->0 <= left && pause->0 <= 1_000_000_000 && (
        pause->0 == left || pause->0 == 1_000_000_000),
{
}

/// Notifications are on exactly where the manager said so.
pub proof fn law_notifications(response: Response, out: Result<(), Error>)
    requires
        call_ensures(listening, (response,), out),
    ensures
        out is Ok <==> response is Done,
        response matches Response::Failed { error } ==> out == Err::<(), Error>(
            Error::ListenRefused(error),
        ),
{
}

} // verus!
