//! The interface of the manager: where it listens and what a request does.

use crate::config::{is_transport, Api};
use crate::error::Error;
use crate::manager::Selector;
use crate::number::{decimal_digits, digits, law_written_is_read_back, parse, parsed};
use crate::number::{radix_failure, to_text, why_not};
use crate::protocol::{pci_selector, usb_selector, Action, Response};
use crate::text::{opt_ref, same};
use vstd::prelude::*;

verus! {

/// The longest message that is taken, in bytes.
pub const MAX_MESSAGE: usize = 1048576;

/// How many clients are served at once, over all transports.
pub const MAX_CONNECTIONS: usize = 64;

/// How long to wait after a client could not be taken, in milliseconds.
pub const ACCEPT_BACKOFF_MILLISECONDS: u64 = 100;

/// The permissions that a socket has until its owner and mode are set: it is
/// never open to anyone whom the configuration did not name.
pub const SOCKET_MODE: u32 = 0o600;

/// A place to listen at.
#[derive(Debug)]
pub enum Listener {
    Unix { path: String },
    Tcp { address: String },
    Vsock { port: u32 },
}

/// Whether `listener` is the place that a transport stands for.
pub open spec fn is_listener(api: Api, transport: Seq<char>, listener: Listener) -> bool {
    if transport == "unix"@ {
        listener == (Listener::Unix { path: api.unix_socket })
    } else if transport == "tcp"@ {
        listener matches Listener::Tcp { address } && address@ == api.host@ + ":"@ + decimal_digits(
            api.port as nat,
        )
    } else {
        listener == (Listener::Vsock { port: api.port })
    }
}

/// Whether a transport cannot be used.
pub open spec fn is_unusable(api: Api, transport: Seq<char>) -> bool {
    !is_transport(transport) || (transport == "tcp"@ && api.port > 65535)
}

/// Whether `error` says why a transport cannot be used.
pub open spec fn is_refusal(api: Api, transport: Seq<char>, error: Error) -> bool {
    if is_transport(transport) {
        transport == "tcp"@ && api.port > 65535 && error is TcpPortTooLarge
    } else {
        error matches Error::UnsupportedTransport(name) && name@ == transport
    }
}

/// The place that a transport stands for.
pub fn listener(api: &Api, transport: &str) -> (out: Result<Listener, Error>)
    ensures
        match out {
            Ok(listener) => !is_unusable(*api, transport@) && is_listener(
                *api,
                transport@,
                listener,
            ),
            Err(error) => is_refusal(*api, transport@, error),
        },
{
    proof {
        reveal_strlit("unix");
        reveal_strlit("tcp");
        reveal_strlit("vsock");
    }
    if same(transport, "unix") {
        return Ok(Listener::Unix { path: api.unix_socket.clone() });
    }
    if same(transport, "tcp") {
        assert("unix"@.len() != "tcp"@.len());
        if api.port > 65535 {
            return Err(Error::TcpPortTooLarge);
        }
        let mut address = api.host.clone();
        address.append(":");
        address.append(to_text(api.port as u64).as_str());
        return Ok(Listener::Tcp { address });
    }
    if same(transport, "vsock") {
        return Ok(Listener::Vsock { port: api.port });
    }
    Err(Error::UnsupportedTransport(transport.to_owned()))
}

/// The places to listen at: one for each transport, and none where the
/// interface is off. The first transport that cannot be used is the failure. Without any place no client is ever served.
pub fn listeners(api: &Api) -> (out: Result<Vec<Listener>, Error>)
    ensures
        match out {
            Ok(found) => if api.enable {
                &&& found@.len() == api.transports@.len()
                &&& forall|i: int|
                    0 <= i < found@.len() ==> !is_unusable(*api, (#[trigger] api.transports@[i])@)
                        && is_listener(*api, api.transports@[i]@, found@[i])
            } else {
                found@.len() == 0
            },
            Err(error) => api.enable && exists|i: int|
                0 <= i < api.transports@.len() && is_refusal(
                    *api,
                    (#[trigger] api.transports@[i])@,
                    error,
                ) && forall|k: int|
                    0 <= k < i ==> !is_unusable(*api, (#[trigger] api.transports@[k])@),
        },
{
    let mut found: Vec<Listener> = Vec::new();
    if !api.enable {
        return Ok(found);
    }
    let mut i: usize = 0;
    while i < api.transports.len()
        invariant
            i == found@.len() <= api.transports@.len(),
            api.enable,
            forall|k: int|
                0 <= k < i ==> !is_unusable(*api, (#[trigger] api.transports@[k])@) && is_listener(
                    *api,
                    api.transports@[k]@,
                    found@[k],
                ),
        decreases api.transports.len() - i,
    {
        match listener(api, api.transports[i].as_str()) {
            Ok(place) => {
                found.push(place);
            },
            Err(error) => {
                assert(is_refusal(*api, api.transports@[i as int]@, error));
                return Err(error);
            },
        }
        i += 1;
    }
    Ok(found)
}

/// Whether a guest may use the interface: an empty list lets every guest in.
pub fn cid_allowed(allowed: &Vec<u32>, cid: u32) -> (r: bool)
    ensures
        r == (allowed@.len() == 0 || allowed@.contains(cid)),
{
    if allowed.len() == 0 {
        return true;
    }
    let mut i: usize = 0;
    while i < allowed.len()
        invariant
            i <= allowed.len(),
            allowed@.len() > 0,
            forall|k: int| 0 <= k < i ==> allowed@[k] != cid,
        decreases allowed.len() - i,
    {
        if allowed[i] == cid {
            return true;
        }
        i += 1;
    }
    false
}

/// One step of setting a socket up.
#[derive(Debug)]
pub enum SocketStep {
    SetOwner { user: Option<u32>, group: Option<u32> },
    SetMode(u32),
    Fail(Error),
}

/// The step that the configured mode asks for; octal digits are wanted.
pub open spec fn is_mode_step(mode: Seq<char>, step: SocketStep) -> bool {
    match parsed(mode, 8, u32::MAX as nat) {
        Some(n) => step matches SocketStep::SetMode(found) && found as nat == n,
        None => step matches SocketStep::Fail(Error::InvalidSocketMode(Some(reason))) && Some(
            reason@,
        ) == radix_failure(mode, 8),
    }
}

/// The steps that set a new socket up. Until its owner is set nobody else may
/// use it; only then is the configured mode applied.
pub fn configure_unix_socket(user: Option<u32>, group: Option<u32>, mode: Option<&str>) -> (steps:
    Vec<SocketStep>)
    ensures
        ({
            let owned: int = if user is Some || group is Some {
                1
            } else {
                0
            };
            &&& steps@.len() == 1 + owned + if mode is Some {
                1int
            } else {
                0
            }
            &&& steps@[0] == SocketStep::SetMode(SOCKET_MODE)
            &&& owned == 1 ==> steps@[1] == (SocketStep::SetOwner { user, group })
            &&& mode is Some ==> is_mode_step(mode->0@, steps@[1 + owned])
        }),
{
    let mut steps: Vec<SocketStep> = Vec::new();
    steps.push(SocketStep::SetMode(SOCKET_MODE));
    if user.is_some() || group.is_some() {
        steps.push(SocketStep::SetOwner { user, group });
    }
    if let Some(mode) = mode {
        match parse(mode, 8, u32::MAX) {
            Some(mode) => {
                steps.push(SocketStep::SetMode(mode));
            },
            None => {
                steps.push(SocketStep::Fail(Error::InvalidSocketMode(why_not(mode, 8))));
            },
        }
    }
    steps
}

/// What a request makes the manager do.
#[derive(Debug)]
pub enum Operation {
    Nothing,
    UsbList { disconnected: Option<bool>, tag: Option<String> },
    AttachUsb { selector: Selector, vm: Option<String> },
    DetachUsb { selector: Selector, permanent: bool },
    SuspendUsb { vm: Option<String> },
    ResumeUsb { vm: Option<String> },
    PciList { disconnected: Option<bool>, tag: Option<String> },
    AttachPci { selector: Selector, vm: Option<String> },
    DetachPci { selector: Selector, permanent: bool },
    SuspendPci { vm: Option<String> },
    ResumePci { vm: Option<String> },
    VmmArgs { vm: String, require_pci: bool },
}

/// What a request makes the manager do. A device that a client detaches stays
/// disconnected until a client attaches it again.
pub open spec fn operation_of(action: Action) -> Operation {
    match action {
        Action::EnableNotifications => Operation::Nothing,
        Action::UsbList { disconnected, tag } => Operation::UsbList { disconnected, tag },
        Action::UsbAttach { selector, vm } => Operation::AttachUsb {
            selector: usb_selector(selector),
            vm,
        },
        Action::UsbDetach { selector } => Operation::DetachUsb {
            selector: usb_selector(selector),
            permanent: true,
        },
        Action::UsbSuspend { vm } => Operation::SuspendUsb { vm },
        Action::UsbResume { vm } => Operation::ResumeUsb { vm },
        Action::PciList { disconnected, tag } => Operation::PciList { disconnected, tag },
        Action::PciAttach { selector, vm } => Operation::AttachPci {
            selector: pci_selector(selector),
            vm,
        },
        Action::PciDetach { selector } => Operation::DetachPci {
            selector: pci_selector(selector),
            permanent: true,
        },
        Action::PciSuspend { vm } => Operation::SuspendPci { vm },
        Action::PciResume { vm } => Operation::ResumePci { vm },
        Action::VmmArgs { vm, qemu_bus_prefix, qemu_bus_start_index, require_pci } =>
        Operation::VmmArgs { vm, require_pci },
    }
}

/// What a request makes the manager do.
pub fn handle(action: Action) -> (operation: Operation)
    ensures
        operation == operation_of(action),
{
    match action {
        Action::EnableNotifications => Operation::Nothing,
        Action::UsbList { disconnected, tag } => Operation::UsbList { disconnected, tag },
        Action::UsbAttach { selector, vm } => Operation::AttachUsb {
            selector: Selector::from(selector),
            vm,
        },
        Action::UsbDetach { selector } => Operation::DetachUsb {
            selector: Selector::from(selector),
            permanent: true,
        },
        Action::UsbSuspend { vm } => Operation::SuspendUsb { vm },
        Action::UsbResume { vm } => Operation::ResumeUsb { vm },
        Action::PciList { disconnected, tag } => Operation::PciList { disconnected, tag },
        Action::PciAttach { selector, vm } => Operation::AttachPci {
            selector: Selector::from(selector),
            vm,
        },
        Action::PciDetach { selector } => Operation::DetachPci {
            selector: Selector::from(selector),
            permanent: true,
        },
        Action::PciSuspend { vm } => Operation::SuspendPci { vm },
        Action::PciResume { vm } => Operation::ResumePci { vm },
        Action::VmmArgs { vm, require_pci, .. } => Operation::VmmArgs { vm, require_pci },
    }
}

/// Whether a request asks for notifications.
pub fn enables_notifications(action: &Action) -> (r: bool)
    ensures
        r == (*action is EnableNotifications),
{
    match action {
        Action::EnableNotifications => true,
        _ => false,
    }
}

/// The answer to a message that is no request.
pub fn invalid_message(error: &str) -> (response: Response)
    ensures
        response matches Response::Failed { error: text } && text@ == "Invalid API message: "@
            + error@,
{
    let mut text: String = "Invalid API message: ".to_owned();
    text.append(error);
    Response::failed(text)
}

/// A transport stands for the place that the configuration gives it: the Unix
/// socket, host and port, or the port alone. A TCP port that is too large and
/// an unknown transport are refused.
pub proof fn law_places_to_listen(api: &Api, transport: &str, out: Result<Listener, Error>)
    requires
        call_ensures(listener, (api, transport), out),
    ensures
        transport@ == "unix"@ ==> out == Ok::<Listener, Error>(
            Listener::Unix { path: api.unix_socket },
        ),
        transport@ == "vsock"@ ==> out == Ok::<Listener, Error>(Listener::Vsock { port: api.port }),
        transport@ == "tcp"@ && api.port <= 65535 ==> (out matches Ok(Listener::Tcp { address })
            && address@ == api.host@ + ":"@ + decimal_digits(api.port as nat)),
        transport@ == "tcp"@ && api.port > 65535 ==> out == Err::<Listener, Error>(
            Error::TcpPortTooLarge,
        ),
        transport@ != "unix"@ && transport@ != "tcp"@ && transport@ != "vsock"@ ==> (
        out matches Err(Error::UnsupportedTransport(name)) && name@ == transport@),
{
    reveal_strlit("unix");
    reveal_strlit("tcp");
    reveal_strlit("vsock");
    assert("unix"@.len() != "tcp"@.len());
    assert("unix"@.len() != "vsock"@.len());
    assert("tcp"@.len() != "vsock"@.len());
}

/// An interface that is off listens nowhere; one that is on listens at one
/// place for each transport, in order, or at none where one cannot be used.
pub proof fn law_listening(api: &Api, out: Result<Vec<Listener>, Error>)
    requires
        call_ensures(listeners, (api,), out),
    ensures
        !api.enable ==> out is Ok && (out->Ok_0)@.len() == 0,
        api.enable && out is Ok ==> (out->Ok_0)@.len() == api.transports@.len() && forall|i: int|
            #![trigger api.transports@[i]]
            0 <= i < api.transports@.len() ==> {
                &&& api.transports@[i]@ == "unix"@ ==> (out->Ok_0)@[i] is Unix
                &&& api.transports@[i]@ == "tcp"@ ==> (out->Ok_0)@[i] is Tcp
                &&& api.transports@[i]@ == "vsock"@ ==> (out->Ok_0)@[i] is Vsock
            },
        api.enable ==> (out is Err <==> exists|i: int|
            #![trigger api.transports@[i]]
            0 <= i < api.transports@.len() && ((api.transports@[i]@ != "unix"@
                && api.transports@[i]@ != "tcp"@ && api.transports@[i]@ != "vsock"@) || (
            api.transports@[i]@ == "tcp"@ && api.port > 65535))),
{
    reveal_strlit("unix");
    reveal_strlit("tcp");
    reveal_strlit("vsock");
    assert("unix"@.len() != "tcp"@.len());
    assert("unix"@.len() != "vsock"@.len());
    assert("tcp"@.len() != "vsock"@.len());
}

/// A list of guests lets exactly those in that it names, and no list lets all
/// in.
pub proof fn law_guests(allowed: &Vec<u32>, cid: u32, r: bool)
    requires
        call_ensures(cid_allowed, (allowed, cid), r),
    ensures
        allowed@.len() == 0 ==> r,
        allowed@.len() > 0 ==> (r <==> exists|i: int|
            0 <= i < allowed@.len() && #[trigger] allowed@[i] == cid),
{
}

/// A new socket is for its owner alone until its owner is set; only then is the
/// mode of the configuration applied, which is read as an octal number. A mode
/// that is none fails and sets nothing else.
pub proof fn law_socket_is_closed_first(
    user: Option<u32>,
    group: Option<u32>,
    mode: Option<&str>,
    steps: Vec<SocketStep>,
    n: u32,
)
    requires
        call_ensures(configure_unix_socket, (user, group, mode), steps),
    ensures
        steps@.len() > 0 && steps@[0] == SocketStep::SetMode(0o600),
        user is None && group is None && mode is None ==> steps@.len() == 1,
        user is Some || group is Some ==> steps@.len() > 1 && steps@[1] == (SocketStep::SetOwner {
            user,
            group,
        }),
        user is None && group is None ==> forall|i: int|
            0 <= i < steps@.len() ==> !((#[trigger] steps@[i]) is SetOwner),
        mode is Some && mode->0@ == digits(n as nat, 8) ==> steps@.len() > 1 && steps@.last()
            == SocketStep::SetMode(n),
        mode is Some && parsed(mode->0@, 8, u32::MAX as nat) is None ==> steps@.last() is Fail,
        mode is None ==> forall|i: int|
            1 <= i < steps@.len() ==> !((#[trigger] steps@[i]) is SetMode),
{
    law_written_is_read_back(n as nat, 8, 0, u32::MAX as nat);
}

/// A request makes the manager do what it names, on the kind of device that it
/// names, with the selector, machine, filter and tag that it gives. A device
/// that a client detaches is disconnected on purpose.
pub proof fn law_requests_are_carried_out(action: Action, operation: Operation, notifies: bool)
    requires
        call_ensures(handle, (action,), operation),
        call_ensures(enables_notifications, (&action,), notifies),
    ensures
        action matches Action::UsbList { disconnected, tag } ==> operation == (
        Operation::UsbList { disconnected, tag }),
        action matches Action::PciList { disconnected, tag } ==> operation == (
        Operation::PciList { disconnected, tag }),
        action matches Action::UsbAttach { selector, vm } ==> (
        operation matches Operation::AttachUsb { selector: found, vm: to } && to == vm && found
            == usb_selector(selector)),
        action matches Action::PciAttach { selector, vm } ==> (
        operation matches Operation::AttachPci { selector: found, vm: to } && to == vm && found
            == pci_selector(selector)),
        action matches Action::UsbDetach { selector } ==> (
        operation matches Operation::DetachUsb { selector: found, permanent } && permanent && found
            == usb_selector(selector)),
        action matches Action::PciDetach { selector } ==> (
        operation matches Operation::DetachPci { selector: found, permanent } && permanent && found
            == pci_selector(selector)),
        action matches Action::UsbSuspend { vm } ==> operation == (Operation::SuspendUsb { vm }),
        action matches Action::UsbResume { vm } ==> operation == (Operation::ResumeUsb { vm }),
        action matches Action::PciSuspend { vm } ==> operation == (Operation::SuspendPci { vm }),
        action matches Action::PciResume { vm } ==> operation == (Operation::ResumePci { vm }),
        action matches Action::VmmArgs { vm, require_pci, .. } ==> operation == (
        Operation::VmmArgs { vm, require_pci }),
        operation is Nothing <==> action is EnableNotifications,
        notifies <==> action is EnableNotifications,
{
}

/// A message that is no request is answered with a failure that says why.
pub proof fn law_invalid_messages_are_answered(error: &str, response: Response)
    requires
        call_ensures(invalid_message, (error,), response),
    ensures
        response matches Response::Failed { error: text } && text@ == "Invalid API message: "@
            + error@,
{
}

} // verus!
