//! What can go wrong, and how it is reported.

use crate::number::{signed_digits, to_signed_text};
use crate::text::{join, joined, law_beginnings_and_parts, occurs, opt, views};
use vstd::prelude::*;

verus! {

/// A failure of the manager. Its message is what clients and logs see.
#[derive(Debug)]
pub enum Error {
    /// A failure of the system around the manager, in its own words.
    Outside(String),
    /// Several devices failed; one line each.
    Several(Vec<String>),
    UnsupportedVmType,
    EmptyVmField,
    DuplicateVm(String),
    UnsupportedTransport(String),
    TcpPortTooLarge,
    UnknownVm(String),
    NoUsbMatch,
    NoPciMatch,
    UsbVmNotAllowed { vm: String, device: String },
    PciVmNotAllowed { vm: String, device: String },
    NoDeviceNode,
    CannotClaim(String),
    DifferentDevice,
    AmbiguousDetach,
    NoTargetVm,
    VfioPreflight,
    SharedGroup(String),
    Quarantined(String),
    NoPciRules(String),
    NoPciDevices(String),
    CommandFailed { args: Vec<String>, status: i32, detail: String },
    MalformedUsbList(String),
    InvalidUsbPort,
    NoNewPort,
    UnexpectedAttach(String),
    NoFreePort,
    UnexpectedDetach(String),
    MalformedVfioList(String),
    UnexpectedVfioEntry,
    VfioNotAdded(String),
    VfioNotRemoved(String),
    UnbindFailed(String),
    OverrideFailed(String),
    InvalidPciRoot,
    ProbeFailed(String),
    NoStateParent,
    UnknownAccount(String),
    NoTransports,
    /// The mode is no octal number, for the reason given.
    InvalidSocketMode(Option<String>),
    TcpPortOutOfRange,
    SpacedArgument,
    /// An answer to another question, as it is reported, where it is.
    UnexpectedPayload(Option<String>),
    ReconcileStopped,
    ListenRefused(String),
}

/// What `{:?}` writes for a list of strings.
pub uninterp spec fn debug_text(list: Seq<Seq<char>>) -> Seq<char>;

/// `format!` with `{:?}` on a `Vec<String>`: the list in brackets with quoted
/// and escaped strings, which depends on nothing but the strings. The result
/// is only named here.
#[verifier::external_body]
fn debug_list(list: &Vec<String>) -> (out: String)
    ensures
        out@ == debug_text(views(list@)),
{
    format!("{:?}", list)
}

/// The report of a failed command, from its arguments as `{:?}` writes them.
pub open spec fn command_text(args: Seq<char>, status: int, detail: Seq<char>) -> Seq<char> {
    "Crosvm command "@ + args + " failed with code "@ + signed_digits(status) + ": "@ + detail
}

/// The report of a failed command, from its arguments as `{:?}` writes them.
pub fn command_message(args: &str, status: i32, detail: &str) -> (out: String)
    ensures
        out@ == command_text(args@, status as int, detail@),
{
    let mut out: String = "Crosvm command ".to_owned();
    out.append(args);
    out.append(" failed with code ");
    out.append(to_signed_text(status as i64).as_str());
    out.append(": ");
    out.append(detail);
    out
}

fn framed(before: &str, middle: &str, after: &str) -> (out: String)
    ensures
        out@ == before@ + middle@ + after@,
{
    let mut out: String = before.to_owned();
    out.append(middle);
    out.append(after);
    out
}

fn phrase(before: &str, last: &str) -> (out: String)
    ensures
        out@ == before@ + last@,
{
    let mut out: String = before.to_owned();
    out.append(last);
    out
}

impl Error {
    /// The message of a failure.
    pub open spec fn text(self) -> Seq<char> {
        match self {
            Error::Outside(text) => text@,
            Error::Several(lines) => joined(views(lines@), "; "@),
            Error::UnsupportedVmType => "ghaf-device-manager supports only Crosvm VMs"@,
            Error::EmptyVmField => "VM name and socket must not be empty"@,
            Error::DuplicateVm(name) => "duplicate VM name "@ + name@,
            Error::UnsupportedTransport(name) => "unsupported API transport "@ + name@,
            Error::TcpPortTooLarge => "TCP API port must be at most 65535"@,
            Error::UnknownVm(name) => "VM "@ + name@ + " is not found in the configuration"@,
            Error::NoUsbMatch => "no matching USB device found"@,
            Error::NoPciMatch => "no matching PCI device found"@,
            Error::UsbVmNotAllowed { vm, device } => "VM "@ + vm@
                + " is not allowed for USB device "@ + device@,
            Error::PciVmNotAllowed { vm, device } => "VM "@ + vm@
                + " is not allowed for PCI device "@ + device@,
            Error::NoDeviceNode => "USB device has no device node"@,
            Error::CannotClaim(device) => "cannot claim "@ + device@,
            Error::DifferentDevice =>
            "Crosvm USB port contains a different device; refusing to detach"@,
            Error::AmbiguousDetach =>
            "multiple matching USB devices are attached; refusing an ambiguous detach"@,
            Error::NoTargetVm => "PCI rule has no targetVm"@,
            Error::VfioPreflight => "VFIO hotplug preflight failed"@,
            Error::SharedGroup(address) => "IOMMU group for "@ + address@ + " is shared"@,
            Error::Quarantined(address) => "failed to attach "@ + address@
                + "; its IOMMU group remains quarantined under vfio-pci"@,
            Error::NoPciRules(vm) => "No PCI passthrough rules are configured for VM "@ + vm@,
            Error::NoPciDevices(vm) => "PCI passthrough is configured for VM "@ + vm@
                + ", but no matching devices are present"@,
            Error::CommandFailed { args, status, detail } => command_text(
                debug_text(views(args@)),
                status as int,
                detail@,
            ),
            Error::MalformedUsbList(text) => "malformed Crosvm USB list response: "@ + text@,
            Error::InvalidUsbPort => "invalid Crosvm USB port"@,
            Error::NoNewPort => "Crosvm attached USB but did not identify one new port"@,
            Error::UnexpectedAttach(text) => "unexpected Crosvm USB attach response: "@ + text@,
            Error::NoFreePort => "Crosvm USB attach timed out waiting for a free port"@,
            Error::UnexpectedDetach(text) => "unexpected Crosvm USB detach response: "@ + text@,
            Error::MalformedVfioList(text) => "malformed Crosvm VFIO list response: "@ + text@,
            Error::UnexpectedVfioEntry => "unexpected entry in Crosvm VFIO list response"@,
            Error::VfioNotAdded(path) => "Crosvm accepted VFIO add but "@ + path@
                + " did not appear"@,
            Error::VfioNotRemoved(path) => "Crosvm accepted VFIO remove but "@ + path@
                + " is still attached"@,
            Error::UnbindFailed(address) => "failed to unbind PCI device "@ + address@,
            Error::OverrideFailed(address) => "failed to set driver_override for "@ + address@,
            Error::InvalidPciRoot => "invalid PCI sysfs root"@,
            Error::ProbeFailed(address) => "failed to probe vfio-pci for "@ + address@,
            Error::NoStateParent => "state path has no parent"@,
            Error::UnknownAccount(text) => text@,
            Error::NoTransports => "no API transports configured"@,
            Error::InvalidSocketMode(_) => "invalid unixSocketMode"@,
            Error::TcpPortOutOfRange => "TCP port must be at most 65535"@,
            Error::SpacedArgument => "VMM arguments containing whitespace are not supported"@,
            Error::UnexpectedPayload(received) => match received {
                Some(received) => "unexpected response payload"@ + ": "@ + received@,
                None => "unexpected response payload"@,
            },
            Error::ReconcileStopped => "device reconciliation stopped"@,
            Error::ListenRefused(text) => "failed to enable notifications: "@ + text@,
        }
    }

    /// What brought the failure about, where its report says so behind the
    /// message.
    pub open spec fn reason(self) -> Option<Seq<char>> {
        match self {
            Error::InvalidSocketMode(reason) => opt(reason),
            Error::TcpPortOutOfRange => Some("out of range integral type conversion attempted"@),
            _ => None,
        }
    }

    /// What brought the failure about, where its report says so behind the
    /// message.
    pub fn cause(&self) -> (out: Option<String>)
        ensures
            opt(out) == self.reason(),
    {
        match self {
            Error::InvalidSocketMode(reason) => reason.clone(),
            Error::TcpPortOutOfRange => Some(
                "out of range integral type conversion attempted".to_owned(),
            ),
            _ => None,
        }
    }

    /// The message of a failure.
    pub fn message(&self) -> (out: String)
        ensures
            out@ == self.text(),
    {
        match self {
            Error::Outside(text) => text.clone(),
            Error::Several(lines) => join(lines, "; "),
            Error::UnsupportedVmType => "ghaf-device-manager supports only Crosvm VMs".to_owned(),
            Error::EmptyVmField => "VM name and socket must not be empty".to_owned(),
            Error::DuplicateVm(name) => phrase("duplicate VM name ", name.as_str()),
            Error::UnsupportedTransport(name) => phrase(
                "unsupported API transport ",
                name.as_str(),
            ),
            Error::TcpPortTooLarge => "TCP API port must be at most 65535".to_owned(),
            Error::UnknownVm(name) => framed(
                "VM ",
                name.as_str(),
                " is not found in the configuration",
            ),
            Error::NoUsbMatch => "no matching USB device found".to_owned(),
            Error::NoPciMatch => "no matching PCI device found".to_owned(),
            Error::UsbVmNotAllowed { vm, device } => phrase(
                framed("VM ", vm.as_str(), " is not allowed for USB device ").as_str(),
                device.as_str(),
            ),
            Error::PciVmNotAllowed { vm, device } => phrase(
                framed("VM ", vm.as_str(), " is not allowed for PCI device ").as_str(),
                device.as_str(),
            ),
            Error::NoDeviceNode => "USB device has no device node".to_owned(),
            Error::CannotClaim(device) => phrase("cannot claim ", device.as_str()),
            Error::DifferentDevice =>
            "Crosvm USB port contains a different device; refusing to detach".to_owned(),
            Error::AmbiguousDetach =>
            "multiple matching USB devices are attached; refusing an ambiguous detach".to_owned(),
            Error::NoTargetVm => "PCI rule has no targetVm".to_owned(),
            Error::VfioPreflight => "VFIO hotplug preflight failed".to_owned(),
            Error::SharedGroup(address) => framed(
                "IOMMU group for ",
                address.as_str(),
                " is shared",
            ),
            Error::Quarantined(address) => framed(
                "failed to attach ",
                address.as_str(),
                "; its IOMMU group remains quarantined under vfio-pci",
            ),
            Error::NoPciRules(vm) => phrase(
                "No PCI passthrough rules are configured for VM ",
                vm.as_str(),
            ),
            Error::NoPciDevices(vm) => framed(
                "PCI passthrough is configured for VM ",
                vm.as_str(),
                ", but no matching devices are present",
            ),
            Error::CommandFailed { args, status, detail } => command_message(
                debug_list(args).as_str(),
                *status,
                detail.as_str(),
            ),
            Error::MalformedUsbList(text) => phrase(
                "malformed Crosvm USB list response: ",
                text.as_str(),
            ),
            Error::InvalidUsbPort => "invalid Crosvm USB port".to_owned(),
            Error::NoNewPort => "Crosvm attached USB but did not identify one new port".to_owned(),
            Error::UnexpectedAttach(text) => phrase(
                "unexpected Crosvm USB attach response: ",
                text.as_str(),
            ),
            Error::NoFreePort => "Crosvm USB attach timed out waiting for a free port".to_owned(),
            Error::UnexpectedDetach(text) => phrase(
                "unexpected Crosvm USB detach response: ",
                text.as_str(),
            ),
            Error::MalformedVfioList(text) => phrase(
                "malformed Crosvm VFIO list response: ",
                text.as_str(),
            ),
            Error::UnexpectedVfioEntry =>
            "unexpected entry in Crosvm VFIO list response".to_owned(),
            Error::VfioNotAdded(path) => framed(
                "Crosvm accepted VFIO add but ",
                path.as_str(),
                " did not appear",
            ),
            Error::VfioNotRemoved(path) => framed(
                "Crosvm accepted VFIO remove but ",
                path.as_str(),
                " is still attached",
            ),
            Error::UnbindFailed(address) => phrase(
                "failed to unbind PCI device ",
                address.as_str(),
            ),
            Error::OverrideFailed(address) => phrase(
                "failed to set driver_override for ",
                address.as_str(),
            ),
            Error::InvalidPciRoot => "invalid PCI sysfs root".to_owned(),
            Error::ProbeFailed(address) => phrase(
                "failed to probe vfio-pci for ",
                address.as_str(),
            ),
            Error::NoStateParent => "state path has no parent".to_owned(),
            Error::UnknownAccount(text) => text.clone(),
            Error::NoTransports => "no API transports configured".to_owned(),
            Error::InvalidSocketMode(_) => "invalid unixSocketMode".to_owned(),
            Error::TcpPortOutOfRange => "TCP port must be at most 65535".to_owned(),
            Error::SpacedArgument =>
            "VMM arguments containing whitespace are not supported".to_owned(),
            Error::UnexpectedPayload(received) => match received {
                Some(received) => framed("unexpected response payload", ": ", received.as_str()),
                None => "unexpected response payload".to_owned(),
            },
            Error::ReconcileStopped => "device reconciliation stopped".to_owned(),
            Error::ListenRefused(text) => phrase(
                "failed to enable notifications: ",
                text.as_str(),
            ),
        }
    }
}

/// The message of a failure names what it is about: the machine, the device,
/// the address, the path or the answer.
pub proof fn law_messages_name_their_subject(error: &Error, out: String)
    requires
        call_ensures(Error::message, (error,), out),
    ensures
        out@ == error.text(),
        *error matches Error::Outside(text) ==> out@ == text@,
        *error matches Error::UnknownAccount(text) ==> out@ == text@,
        *error matches Error::DuplicateVm(name) ==> occurs(out@, name@),
        *error matches Error::UnsupportedTransport(name) ==> occurs(out@, name@),
        *error matches Error::UnknownVm(name) ==> occurs(out@, name@),
        *error matches Error::UsbVmNotAllowed { vm, device } ==> occurs(out@, vm@) && occurs(
            out@,
            device@,
        ),
        *error matches Error::PciVmNotAllowed { vm, device } ==> occurs(out@, vm@) && occurs(
            out@,
            device@,
        ),
        *error matches Error::CannotClaim(name) ==> occurs(out@, name@),
        *error matches Error::SharedGroup(name) ==> occurs(out@, name@),
        *error matches Error::Quarantined(name) ==> occurs(out@, name@),
        *error matches Error::NoPciRules(name) ==> occurs(out@, name@),
        *error matches Error::NoPciDevices(name) ==> occurs(out@, name@),
        *error matches Error::CommandFailed { detail, .. } ==> occurs(out@, detail@),
        *error matches Error::MalformedUsbList(text) ==> occurs(out@, text@),
        *error matches Error::UnexpectedAttach(text) ==> occurs(out@, text@),
        *error matches Error::UnexpectedDetach(text) ==> occurs(out@, text@),
        *error matches Error::MalformedVfioList(text) ==> occurs(out@, text@),
        *error matches Error::VfioNotAdded(path) ==> occurs(out@, path@),
        *error matches Error::VfioNotRemoved(path) ==> occurs(out@, path@),
        *error matches Error::UnbindFailed(name) ==> occurs(out@, name@),
        *error matches Error::OverrideFailed(name) ==> occurs(out@, name@),
        *error matches Error::ProbeFailed(name) ==> occurs(out@, name@),
        *error matches Error::UnexpectedPayload(Some(text)) ==> occurs(out@, text@),
        *error matches Error::ListenRefused(text) ==> occurs(out@, text@),
{
    match *error {
        Error::DuplicateVm(name) => lemma_names("duplicate VM name "@, name@, ""@),
        Error::UnsupportedTransport(name) => lemma_names("unsupported API transport "@, name@, ""@),
        Error::UnknownVm(name) => lemma_names(
            "VM "@,
            name@,
            " is not found in the configuration"@,
        ),
        Error::UsbVmNotAllowed { vm, device } => {
            lemma_names("VM "@, vm@, " is not allowed for USB device "@ + device@);
            lemma_names("VM "@ + vm@ + " is not allowed for USB device "@, device@, ""@);
            assert("VM "@ + vm@ + (" is not allowed for USB device "@ + device@) =~= "VM "@ + vm@
                + " is not allowed for USB device "@ + device@);
        },
        Error::PciVmNotAllowed { vm, device } => {
            lemma_names("VM "@, vm@, " is not allowed for PCI device "@ + device@);
            lemma_names("VM "@ + vm@ + " is not allowed for PCI device "@, device@, ""@);
            assert("VM "@ + vm@ + (" is not allowed for PCI device "@ + device@) =~= "VM "@ + vm@
                + " is not allowed for PCI device "@ + device@);
        },
        Error::CannotClaim(name) => lemma_names("cannot claim "@, name@, ""@),
        Error::SharedGroup(name) => lemma_names("IOMMU group for "@, name@, " is shared"@),
        Error::Quarantined(name) => lemma_names(
            "failed to attach "@,
            name@,
            "; its IOMMU group remains quarantined under vfio-pci"@,
        ),
        Error::NoPciRules(name) => lemma_names(
            "No PCI passthrough rules are configured for VM "@,
            name@,
            ""@,
        ),
        Error::NoPciDevices(name) => lemma_names(
            "PCI passthrough is configured for VM "@,
            name@,
            ", but no matching devices are present"@,
        ),
        Error::CommandFailed { args, status, detail } => lemma_names(
            "Crosvm command "@ + debug_text(views(args@)) + " failed with code "@ + signed_digits(
                status as int,
            ) + ": "@,
            detail@,
            ""@,
        ),
        Error::MalformedUsbList(text) => lemma_names(
            "malformed Crosvm USB list response: "@,
            text@,
            ""@,
        ),
        Error::UnexpectedAttach(text) => lemma_names(
            "unexpected Crosvm USB attach response: "@,
            text@,
            ""@,
        ),
        Error::UnexpectedDetach(text) => lemma_names(
            "unexpected Crosvm USB detach response: "@,
            text@,
            ""@,
        ),
        Error::MalformedVfioList(text) => lemma_names(
            "malformed Crosvm VFIO list response: "@,
            text@,
            ""@,
        ),
        Error::VfioNotAdded(path) => lemma_names(
            "Crosvm accepted VFIO add but "@,
            path@,
            " did not appear"@,
        ),
        Error::VfioNotRemoved(path) => lemma_names(
            "Crosvm accepted VFIO remove but "@,
            path@,
            " is still attached"@,
        ),
        Error::UnbindFailed(name) => lemma_names("failed to unbind PCI device "@, name@, ""@),
        Error::OverrideFailed(name) => lemma_names(
            "failed to set driver_override for "@,
            name@,
            ""@,
        ),
        Error::ProbeFailed(name) => lemma_names("failed to probe vfio-pci for "@, name@, ""@),
        Error::UnexpectedPayload(Some(text)) => lemma_names(
            "unexpected response payload"@ + ": "@,
            text@,
            ""@,
        ),
        Error::ListenRefused(text) => lemma_names(
            "failed to enable notifications: "@,
            text@,
            ""@,
        ),
        _ => {},
    }
}

proof fn lemma_names(before: Seq<char>, name: Seq<char>, after: Seq<char>)
    ensures
        occurs(before + name + after, name),
        after.len() == 0 ==> before + name + after == before + name,
        ""@.len() == 0,
{
    reveal_strlit("");
    law_beginnings_and_parts(before + name + after, name);
    if after.len() == 0 {
        assert(before + name + after =~= before + name);
    }
}

} // verus!
