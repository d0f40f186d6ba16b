//! Requests and answers of the interface.

use crate::device::{PciDevice, UsbDevice};
use crate::error::Error;
use crate::manager::Selector;
use vstd::prelude::*;
use vstd::std_specs::convert::FromSpecImpl;

verus! {

#[derive(Debug)]
pub enum Action {
    EnableNotifications,
    UsbList { disconnected: Option<bool>, tag: Option<String> },
    UsbAttach { selector: UsbSelector, vm: Option<String> },
    UsbDetach { selector: UsbSelector },
    UsbSuspend { vm: Option<String> },
    UsbResume { vm: Option<String> },
    PciList { disconnected: Option<bool>, tag: Option<String> },
    PciAttach { selector: PciSelector, vm: Option<String> },
    PciDetach { selector: PciSelector },
    PciSuspend { vm: Option<String> },
    PciResume { vm: Option<String> },
    VmmArgs {
        vm: String,
        qemu_bus_prefix: Option<String>,
        qemu_bus_start_index: Option<u32>,
        require_pci: bool,
    },
}

/// What clients are told of without having asked.
#[derive(Clone, Copy, Debug, PartialEq, Eq, Structural)]
pub enum Event {
    UsbConnected,
    UsbDisconnected,
    UsbSelectVm,
    UsbAttached,
    UsbDetached,
    PciConnected,
    PciDisconnected,
    PciAttached,
    PciDetached,
}

impl Event {
    /// The name of an event in a notification.
    pub open spec fn text(self) -> Seq<char> {
        match self {
            Event::UsbConnected => "usb_connected"@,
            Event::UsbDisconnected => "usb_disconnected"@,
            Event::UsbSelectVm => "usb_select_vm"@,
            Event::UsbAttached => "usb_attached"@,
            Event::UsbDetached => "usb_detached"@,
            Event::PciConnected => "pci_connected"@,
            Event::PciDisconnected => "pci_disconnected"@,
            Event::PciAttached => "pci_attached"@,
            Event::PciDetached => "pci_detached"@,
        }
    }

    /// The name of an event in a notification.
    pub fn name(self) -> (out: &'static str)
        ensures
            out@ == self.text(),
    {
        match self {
            Event::UsbConnected => "usb_connected",
            Event::UsbDisconnected => "usb_disconnected",
            Event::UsbSelectVm => "usb_select_vm",
            Event::UsbAttached => "usb_attached",
            Event::UsbDetached => "usb_detached",
            Event::PciConnected => "pci_connected",
            Event::PciDisconnected => "pci_disconnected",
            Event::PciAttached => "pci_attached",
            Event::PciDetached => "pci_detached",
        }
    }
}

#[derive(Clone, Debug)]
pub enum Response {
    Done { payload: ResponsePayload },
    Failed { error: String },
}

#[derive(Clone, Debug)]
pub enum ResponsePayload {
    UsbList(UsbListResponse),
    PciList(PciListResponse),
    VmmArgs(VmmArgsResponse),
    Empty(EmptyResponse),
}

#[derive(Clone, Debug)]
pub struct EmptyResponse {}

#[derive(Clone, Debug)]
pub struct UsbListResponse {
    pub usb_devices: Vec<UsbListDevice>,
}

#[derive(Clone, Debug)]
pub struct PciListResponse {
    pub pci_devices: Vec<PciListDevice>,
}

#[derive(Clone, Debug)]
pub struct VmmArgsResponse {
    pub vmm_args: Vec<String>,
}

/// A USB device, the machines it may go to and the one that has it.
#[derive(Clone, Debug)]
pub struct UsbListDevice {
    pub device: UsbDevice,
    pub allowed_vms: Vec<String>,
    pub vm: Option<String>,
    pub disconnected: bool,
}

/// A PCI device, the machines it may go to and the one that has it.
#[derive(Clone, Debug)]
pub struct PciListDevice {
    pub device: PciDevice,
    pub allowed_vms: Vec<String>,
    pub vm: Option<String>,
    pub disconnected: bool,
}

#[derive(Clone, Debug)]
pub enum UsbSelector {
    DeviceNode { device_node: String },
    BusPort { bus: u32, port: u32 },
    VidPid { vid: String, pid: String },
    Tag { tag: String },
}

#[derive(Clone, Debug)]
pub enum PciSelector {
    Address { address: String },
    VidDid { vid: String, did: String },
    Tag { tag: String },
}

/// A selector that asks for nothing.
pub open spec fn empty_selector() -> Selector {
    Selector {
        device_node: None,
        bus: None,
        port: None,
        vid: None,
        pid: None,
        address: None,
        did: None,
        tag: None,
    }
}

/// What a USB request asks for.
pub open spec fn usb_selector(value: UsbSelector) -> Selector {
    match value {
        UsbSelector::DeviceNode { device_node } => Selector {
            device_node: Some(device_node),
            ..empty_selector()
        },
        UsbSelector::BusPort { bus, port } => Selector {
            bus: Some(bus),
            port: Some(port),
            ..empty_selector()
        },
        UsbSelector::VidPid { vid, pid } => Selector {
            vid: Some(vid),
            pid: Some(pid),
            ..empty_selector()
        },
        UsbSelector::Tag { tag } => Selector { tag: Some(tag), ..empty_selector() },
    }
}

/// What a PCI request asks for.
pub open spec fn pci_selector(value: PciSelector) -> Selector {
    match value {
        PciSelector::Address { address } => Selector {
            address: Some(address),
            ..empty_selector()
        },
        PciSelector::VidDid { vid, did } => Selector {
            vid: Some(vid),
            did: Some(did),
            ..empty_selector()
        },
        PciSelector::Tag { tag } => Selector { tag: Some(tag), ..empty_selector() },
    }
}

impl FromSpecImpl<UsbSelector> for Selector {
    open spec fn obeys_from_spec() -> bool {
        true
    }

    open spec fn from_spec(value: UsbSelector) -> Selector {
        usb_selector(value)
    }
}

impl From<UsbSelector> for Selector {
    fn from(value: UsbSelector) -> (selector: Selector) {
        let mut selector = Selector::default();
        match value {
            UsbSelector::DeviceNode { device_node } => {
                selector.device_node = Some(device_node);
            },
            UsbSelector::BusPort { bus, port } => {
                selector.bus = Some(bus);
                selector.port = Some(port);
            },
            UsbSelector::VidPid { vid, pid } => {
                selector.vid = Some(vid);
                selector.pid = Some(pid);
            },
            UsbSelector::Tag { tag } => {
                selector.tag = Some(tag);
            },
        }
        selector
    }
}

impl FromSpecImpl<PciSelector> for Selector {
    open spec fn obeys_from_spec() -> bool {
        true
    }

    open spec fn from_spec(value: PciSelector) -> Selector {
        pci_selector(value)
    }
}

impl From<PciSelector> for Selector {
    fn from(value: PciSelector) -> (selector: Selector) {
        let mut selector = Selector::default();
        match value {
            PciSelector::Address { address } => {
                selector.address = Some(address);
            },
            PciSelector::VidDid { vid, did } => {
                selector.vid = Some(vid);
                selector.did = Some(did);
            },
            PciSelector::Tag { tag } => {
                selector.tag = Some(tag);
            },
        }
        selector
    }
}

impl ResponsePayload {
    /// The payload of an answer that only says that all went well.
    pub fn empty() -> (payload: ResponsePayload)
        ensures
            payload is Empty,
    {
        ResponsePayload::Empty(EmptyResponse {  })
    }
}

impl Response {
    pub fn ok(payload: ResponsePayload) -> (response: Response)
        ensures
            response == (Response::Done { payload }),
    {
        Response::Done { payload }
    }

    pub fn failed(error: String) -> (response: Response)
        ensures
            response == (Response::Failed { error }),
    {
        Response::Failed { error }
    }

    /// The answer to a request that was carried out or failed.
    pub fn from_result(result: Result<ResponsePayload, Error>) -> (response: Response)
        ensures
            match result {
                Ok(payload) => response == (Response::Done { payload }),
                Err(error) => response matches Response::Failed { error: text } && text@
                    == error.text(),
            },
    {
        match result {
            Ok(payload) => Response::ok(payload),
            Err(error) => Response::failed(error.message()),
        }
    }

    /// The payload of an answer, or the failure that it reports.
    pub fn into_payload(self) -> (result: Result<ResponsePayload, Error>)
        ensures
            match self {
                Response::Done { payload } => result == Ok::<ResponsePayload, Error>(payload),
                Response::Failed { error } => result == Err::<ResponsePayload, Error>(
                    Error::Outside(error),
                ),
            },
    {
        match self {
            Response::Done { payload } => Ok(payload),
            Response::Failed { error } => Err(Error::Outside(error)),
        }
    }
}

/// What a request gave comes back from its answer: the same payload, or a
/// failure with the same message.
pub proof fn law_answer_carries_the_result(
    result: Result<ResponsePayload, Error>,
    response: Response,
    back: Result<ResponsePayload, Error>,
)
    requires
        match result {
            Ok(payload) => response == (Response::Done { payload }),
            Err(error) => response matches Response::Failed { error: text } && text@
                == error.text(),
        },
        match response {
            Response::Done { payload } => back == Ok::<ResponsePayload, Error>(payload),
            Response::Failed { error } => back == Err::<ResponsePayload, Error>(
                Error::Outside(error),
            ),
        },
    ensures
        result is Ok ==> back == result,
        result is Err ==> back is Err && back->Err_0.text() == result->Err_0.text(),
{
}

/// A request asks for what it gives and for nothing else: each kind of selector
/// sets its own fields, with its own values.
pub proof fn law_selectors_ask_for_what_they_give(
    usb: UsbSelector,
    wanted: Selector,
    pci: PciSelector,
    asked: Selector,
)
    requires
        call_ensures(<Selector as From<UsbSelector>>::from, (usb,), wanted),
        call_ensures(<Selector as From<PciSelector>>::from, (pci,), asked),
    ensures
        wanted.device_node is Some <==> usb is DeviceNode,
        usb matches UsbSelector::DeviceNode { device_node } ==> wanted.device_node == Some(
            device_node,
        ),
        wanted.bus is Some <==> usb is BusPort,
        wanted.port is Some <==> usb is BusPort,
        usb matches UsbSelector::BusPort { bus, port } ==> wanted.bus == Some(bus) && wanted.port
            == Some(port),
        wanted.vid is Some <==> usb is VidPid,
        wanted.pid is Some <==> usb is VidPid,
        usb matches UsbSelector::VidPid { vid, pid } ==> wanted.vid == Some(vid) && wanted.pid
            == Some(pid),
        wanted.tag is Some <==> usb is Tag,
        usb matches UsbSelector::Tag { tag } ==> wanted.tag == Some(tag),
        wanted.address is None && wanted.did is None,
        asked.address is Some <==> pci is Address,
        pci matches PciSelector::Address { address } ==> asked.address == Some(address),
        asked.vid is Some <==> pci is VidDid,
        asked.did is Some <==> pci is VidDid,
        pci matches PciSelector::VidDid { vid, did } ==> asked.vid == Some(vid) && asked.did == Some(
            did,
        ),
        asked.tag is Some <==> pci is Tag,
        pci matches PciSelector::Tag { tag } ==> asked.tag == Some(tag),
        asked.device_node is None && asked.bus is None && asked.port is None && asked.pid is None,
        wanted == usb_selector(usb),
        asked == pci_selector(pci),
{
}

/// An answer says whether a request succeeded: success carries its payload, and
/// a failure its message, and both come back as they were.
pub proof fn law_answers(
    result: Result<ResponsePayload, Error>,
    response: Response,
    back: Result<ResponsePayload, Error>,
)
    requires
        call_ensures(Response::from_result, (result,), response),
        call_ensures(Response::into_payload, (response,), back),
    ensures
        response is Done <==> result is Ok,
        result is Ok ==> back == result,
        result is Err ==> back is Err && back->Err_0.text() == result->Err_0.text(),
        result is Err ==> (response matches Response::Failed { error } && error@
            == result->Err_0.text()),
{
}

/// No two events have the same name in a notification, and the name says
/// whether it is about USB or PCI.
pub proof fn law_events_are_told_apart(one: Event, other: Event)
    ensures
        one.text() == other.text() ==> one == other,
        one.text()[0] == 'u' || one.text()[0] == 'p',
        one.text()[0] == 'p' <==> one is PciConnected || one is PciDisconnected
            || one is PciAttached || one is PciDetached,
{
    reveal_strlit("usb_connected");
    reveal_strlit("usb_disconnected");
    reveal_strlit("usb_select_vm");
    reveal_strlit("usb_attached");
    reveal_strlit("usb_detached");
    reveal_strlit("pci_connected");
    reveal_strlit("pci_disconnected");
    reveal_strlit("pci_attached");
    reveal_strlit("pci_detached");
    let a = one.text();
    let b = other.text();
    if a == b {
        assert(a.len() == b.len());
        assert(a[0] == b[0] && a[4] == b[4]);
    }
}

} // verus!
