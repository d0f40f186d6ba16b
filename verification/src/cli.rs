//! The command line client.

use crate::client::Transport;
use crate::device::or_none;
use crate::error::Error;
use crate::protocol::{Action, PciListDevice, PciSelector, ResponsePayload, UsbListDevice};
use crate::protocol::{UsbSelector, VmmArgsResponse};
use crate::text::{as_deref, chars, has_whitespace, is_space, join, joined, law_words, opt, opt_ref};
use crate::text::{spaced, views, words};
use vstd::prelude::*;

verus! {

/// How long a request may take, in seconds, unless the user says otherwise.
pub const REQUEST_SECONDS: u64 = 10;

#[derive(Clone, Copy, Debug, PartialEq, Eq, Structural)]
pub enum TransportKind {
    Unix,
    Tcp,
    Vsock,
}

/// What the answer to a request is shown as.
#[derive(Clone, Copy, Debug, PartialEq, Eq, Structural)]
pub enum OutputKind {
    Usb { short: bool },
    Pci { short: bool },
    Vmm,
    Nothing,
}

#[derive(Debug)]
pub enum UsbCommand {
    Attach { selector: UsbSelector, vm: Option<String> },
    Detach { selector: UsbSelector },
    List { connected: bool, disconnected: bool, short: bool, tag: Option<String> },
    Suspend { vm: Option<String> },
    Resume { vm: Option<String> },
}

#[derive(Debug)]
pub enum PciCommand {
    Attach { selector: PciSelector, vm: Option<String> },
    Detach { selector: PciSelector },
    List { connected: bool, disconnected: bool, short: bool, tag: Option<String> },
    Suspend { vm: Option<String> },
    Resume { vm: Option<String> },
}

#[derive(Debug)]
pub enum Command {
    Usb(UsbCommand),
    Pci(PciCommand),
    Listen,
    VmmArgs {
        vm: String,
        qemu_bus_prefix: Option<String>,
        qemu_bus_start_index: Option<u32>,
        require_pci: bool,
    },
}

/// What a command makes the client do.
#[derive(Debug)]
pub enum Plan {
    /// Show notifications until the manager goes away.
    Listen,
    /// Send a request and show the answer. Where it is to be repeated, a
    /// manager that is not there yet is waited for.
    Request { action: Action, output: OutputKind, repeat: bool },
}

/// Which devices a list has: those not disconnected, those disconnected, or
/// all.
pub open spec fn filter_of(connected: bool, disconnected: bool) -> Option<bool> {
    if connected {
        Some(false)
    } else if disconnected {
        Some(true)
    } else {
        None
    }
}

/// Which devices a list has.
pub fn connection_filter(connected: bool, disconnected: bool) -> (out: Option<bool>)
    ensures
        out == filter_of(connected, disconnected),
{
    if connected {
        Some(false)
    } else if disconnected {
        Some(true)
    } else {
        None
    }
}

/// What a command on USB devices asks for.
pub open spec fn usb_request(command: UsbCommand) -> (Action, OutputKind) {
    match command {
        UsbCommand::Attach { selector, vm } => (
            Action::UsbAttach { selector, vm },
            OutputKind::Nothing,
        ),
        UsbCommand::Detach { selector } => (Action::UsbDetach { selector }, OutputKind::Nothing),
        UsbCommand::List { connected, disconnected, short, tag } => (
            Action::UsbList { disconnected: filter_of(connected, disconnected), tag },
            OutputKind::Usb { short },
        ),
        UsbCommand::Suspend { vm } => (Action::UsbSuspend { vm }, OutputKind::Nothing),
        UsbCommand::Resume { vm } => (Action::UsbResume { vm }, OutputKind::Nothing),
    }
}

/// What a command on PCI devices asks for.
pub open spec fn pci_request(command: PciCommand) -> (Action, OutputKind) {
    match command {
        PciCommand::Attach { selector, vm } => (
            Action::PciAttach { selector, vm },
            OutputKind::Nothing,
        ),
        PciCommand::Detach { selector } => (Action::PciDetach { selector }, OutputKind::Nothing),
        PciCommand::List { connected, disconnected, short, tag } => (
            Action::PciList { disconnected: filter_of(connected, disconnected), tag },
            OutputKind::Pci { short },
        ),
        PciCommand::Suspend { vm } => (Action::PciSuspend { vm }, OutputKind::Nothing),
        PciCommand::Resume { vm } => (Action::PciResume { vm }, OutputKind::Nothing),
    }
}

/// What a command makes the client do. Only the arguments of a machine are
/// asked for again and again, since a machine may start before the manager.
pub open spec fn plan_of(command: Command) -> Plan {
    match command {
        Command::Usb(command) => Plan::Request {
            action: usb_request(command).0,
            output: usb_request(command).1,
            repeat: false,
        },
        Command::Pci(command) => Plan::Request {
            action: pci_request(command).0,
            output: pci_request(command).1,
            repeat: false,
        },
        Command::Listen => Plan::Listen,
        Command::VmmArgs { vm, qemu_bus_prefix, qemu_bus_start_index, require_pci } =>
        Plan::Request {
            action: Action::VmmArgs { vm, qemu_bus_prefix, qemu_bus_start_index, require_pci },
            output: OutputKind::Vmm,
            repeat: true,
        },
    }
}

fn usb_plan(command: UsbCommand) -> (out: (Action, OutputKind))
    ensures
        out == usb_request(command),
{
    match command {
        UsbCommand::Attach { selector, vm } => (
            Action::UsbAttach { selector, vm },
            OutputKind::Nothing,
        ),
        UsbCommand::Detach { selector } => (Action::UsbDetach { selector }, OutputKind::Nothing),
        UsbCommand::List { connected, disconnected, short, tag } => (
            Action::UsbList { disconnected: connection_filter(connected, disconnected), tag },
            OutputKind::Usb { short },
        ),
        UsbCommand::Suspend { vm } => (Action::UsbSuspend { vm }, OutputKind::Nothing),
        UsbCommand::Resume { vm } => (Action::UsbResume { vm }, OutputKind::Nothing),
    }
}

fn pci_plan(command: PciCommand) -> (out: (Action, OutputKind))
    ensures
        out == pci_request(command),
{
    match command {
        PciCommand::Attach { selector, vm } => (
            Action::PciAttach { selector, vm },
            OutputKind::Nothing,
        ),
        PciCommand::Detach { selector } => (Action::PciDetach { selector }, OutputKind::Nothing),
        PciCommand::List { connected, disconnected, short, tag } => (
            Action::PciList { disconnected: connection_filter(connected, disconnected), tag },
            OutputKind::Pci { short },
        ),
        PciCommand::Suspend { vm } => (Action::PciSuspend { vm }, OutputKind::Nothing),
        PciCommand::Resume { vm } => (Action::PciResume { vm }, OutputKind::Nothing),
    }
}

/// What a command makes the client do.
pub fn plan(command: Command) -> (plan: Plan)
    ensures
        plan == plan_of(command),
{
    match command {
        Command::Usb(command) => {
            let (action, output) = usb_plan(command);
            Plan::Request { action, output, repeat: false }
        },
        Command::Pci(command) => {
            let (action, output) = pci_plan(command);
            Plan::Request { action, output, repeat: false }
        },
        Command::Listen => Plan::Listen,
        Command::VmmArgs { vm, qemu_bus_prefix, qemu_bus_start_index, require_pci } =>
        Plan::Request {
            action: Action::VmmArgs { vm, qemu_bus_prefix, qemu_bus_start_index, require_pci },
            output: OutputKind::Vmm,
            repeat: true,
        },
    }
}

/// What the client shows.
#[derive(Debug)]
pub enum Shown {
    Nothing,
    Usb { devices: Vec<UsbListDevice>, short: bool },
    Pci { devices: Vec<PciListDevice>, short: bool },
    Text(String),
}

/// Whether an argument has white space in it.
pub open spec fn any_spaced(args: Seq<String>) -> bool {
    exists|i: int| 0 <= i < args.len() && spaced((#[trigger] args[i])@)
}

/// The arguments of a machine on one line. White space inside an argument
/// could not be told from that between two of them.
pub fn vmm_line(args: &Vec<String>) -> (out: Result<String, Error>)
    ensures
        match out {
            Ok(line) => !any_spaced(args@) && line@ == joined(views(args@), " "@),
            Err(error) => any_spaced(args@) && error is SpacedArgument,
        },
{
    let mut i: usize = 0;
    while i < args.len()
        invariant
            i <= args.len(),
            forall|k: int| 0 <= k < i ==> !spaced((#[trigger] args@[k])@),
        decreases args.len() - i,
    {
        if has_whitespace(args[i].as_str()) {
            return Err(Error::SpacedArgument);
        }
        i += 1;
    }
    Ok(join(args, " "))
}

/// What an answer is shown as; an answer to another question is refused, and
/// is part of the report where a list was wanted. `received` is the answer as
/// it is written there.
pub fn show(output: OutputKind, payload: ResponsePayload, received: &str) -> (out: Result<
    Shown,
    Error,
>)
    ensures
        match (output, payload) {
            (OutputKind::Usb { short }, ResponsePayload::UsbList(list)) => out == Ok::<
                Shown,
                Error,
            >(Shown::Usb { devices: list.usb_devices, short }),
            (OutputKind::Pci { short }, ResponsePayload::PciList(list)) => out == Ok::<
                Shown,
                Error,
            >(Shown::Pci { devices: list.pci_devices, short }),
            (OutputKind::Vmm, ResponsePayload::VmmArgs(list)) => if any_spaced(list.vmm_args@) {
                out == Err::<Shown, Error>(Error::SpacedArgument)
            } else {
                out matches Ok(shown) && (shown matches Shown::Text(line) && line@ == joined(
                    views(list.vmm_args@),
                    " "@,
                ))
            },
            (OutputKind::Nothing, _) => out == Ok::<Shown, Error>(Shown::Nothing),
            (OutputKind::Vmm, _) => out == Err::<Shown, Error>(Error::UnexpectedPayload(None)),
            _ => out matches Err(Error::UnexpectedPayload(Some(text))) && text@ == received@,
        },
{
    match (output, payload) {
        (OutputKind::Usb { short }, ResponsePayload::UsbList(list)) => Ok(
            Shown::Usb { devices: list.usb_devices, short },
        ),
        (OutputKind::Pci { short }, ResponsePayload::PciList(list)) => Ok(
            Shown::Pci { devices: list.pci_devices, short },
        ),
        (OutputKind::Vmm, ResponsePayload::VmmArgs(list)) => match vmm_line(&list.vmm_args) {
            Ok(line) => Ok(Shown::Text(line)),
            Err(_) => Err(Error::SpacedArgument),
        },
        (OutputKind::Nothing, _) => Ok(Shown::Nothing),
        (OutputKind::Vmm, _) => Err(Error::UnexpectedPayload(None)),
        _ => Err(Error::UnexpectedPayload(Some(received.to_owned()))),
    }
}

/// A text, or the word `None` in its place.
pub fn opt_text(value: Option<&str>) -> (out: &str)
    ensures
        out@ == or_none(opt_ref(value)),
{
    match value {
        Some(text) => text,
        None => "None",
    }
}

fn put(out: &mut String, value: &Option<String>)
    ensures
        final(out)@ == old(out)@ + or_none(opt(*value)),
{
    out.append(opt_text(as_deref(value)));
}

/// The line that names a USB device.
pub fn usb_summary(entry: &UsbListDevice) -> (out: String)
    ensures
        out@ == or_none(opt(entry.device.vid)) + ":"@ + or_none(opt(entry.device.pid)) + " "@
            + or_none(opt(entry.device.vendor_name)) + " "@ + or_none(
            opt(entry.device.product_name),
        ),
{
    let mut out = String::new();
    put(&mut out, &entry.device.vid);
    out.append(":");
    put(&mut out, &entry.device.pid);
    out.append(" ");
    put(&mut out, &entry.device.vendor_name);
    out.append(" ");
    put(&mut out, &entry.device.product_name);
    assert(out@ =~= or_none(opt(entry.device.vid)) + ":"@ + or_none(opt(entry.device.pid)) + " "@
        + or_none(opt(entry.device.vendor_name)) + " "@ + or_none(opt(entry.device.product_name)));
    out
}

/// The line that names a PCI device.
pub fn pci_summary(entry: &PciListDevice) -> (out: String)
    ensures
        out@ == entry.device.address@ + " "@ + or_none(opt(entry.device.vendor_id_text)) + ":"@
            + or_none(opt(entry.device.device_id_text)) + " "@ + or_none(
            opt(entry.device.vendor_name),
        ) + " "@ + or_none(opt(entry.device.device_name)),
{
    let mut out: String = entry.device.address.clone();
    out.append(" ");
    put(&mut out, &entry.device.vendor_id_text);
    out.append(":");
    put(&mut out, &entry.device.device_id_text);
    out.append(" ");
    put(&mut out, &entry.device.vendor_name);
    out.append(" ");
    put(&mut out, &entry.device.device_name);
    out
}

/// A text filled up with spaces on the right.
pub open spec fn filled(text: Seq<char>, width: nat) -> Seq<char>
    decreases width - text.len(),
{
    if text.len() >= width {
        text
    } else {
        filled(text.push(' '), width)
    }
}

/// The line that shows one detail of a device.
pub fn detail_line(key: &str, value: &str) -> (out: String)
    ensures
        out@ == "  "@ + filled(key@, 16) + ": "@ + value@,
{
    let mut name: String = key.to_owned();
    let mut width: usize = chars(key).len();
    while width < 16
        invariant
            width == name@.len(),
            filled(key@, 16) == filled(name@, 16),
        decreases 16 - width,
    {
        name.push(' ');
        width += 1;
    }
    let mut out: String = "  ".to_owned();
    out.append(name.as_str());
    out.append(": ");
    out.append(value);
    out
}

/// The selector that the arguments name, where they name just one.
pub fn usb_selector(
    device_node: Option<String>,
    bus_port: Option<(u32, u32)>,
    vid_pid: Option<(String, String)>,
    tag: Option<String>,
) -> (out: Option<UsbSelector>)
    ensures
        out == match (device_node, bus_port, vid_pid, tag) {
            (Some(device_node), None, None, None) => Some(UsbSelector::DeviceNode { device_node }),
            (None, Some((bus, port)), None, None) => Some(UsbSelector::BusPort { bus, port }),
            (None, None, Some((vid, pid)), None) => Some(UsbSelector::VidPid { vid, pid }),
            (None, None, None, Some(tag)) => Some(UsbSelector::Tag { tag }),
            _ => None,
        },
{
    match (device_node, bus_port, vid_pid, tag) {
        (Some(device_node), None, None, None) => Some(UsbSelector::DeviceNode { device_node }),
        (None, Some((bus, port)), None, None) => Some(UsbSelector::BusPort { bus, port }),
        (None, None, Some((vid, pid)), None) => Some(UsbSelector::VidPid { vid, pid }),
        (None, None, None, Some(tag)) => Some(UsbSelector::Tag { tag }),
        _ => None,
    }
}

/// The selector that the arguments name, where they name just one.
pub fn pci_selector(
    address: Option<String>,
    vid_did: Option<(String, String)>,
    tag: Option<String>,
) -> (out: Option<PciSelector>)
    ensures
        out == match (address, vid_did, tag) {
            (Some(address), None, None) => Some(PciSelector::Address { address }),
            (None, Some((vid, did)), None) => Some(PciSelector::VidDid { vid, did }),
            (None, None, Some(tag)) => Some(PciSelector::Tag { tag }),
            _ => None,
        },
{
    match (address, vid_did, tag) {
        (Some(address), None, None) => Some(PciSelector::Address { address }),
        (None, Some((vid, did)), None) => Some(PciSelector::VidDid { vid, did }),
        (None, None, Some(tag)) => Some(PciSelector::Tag { tag }),
        _ => None,
    }
}

/// How the manager is reached: as asked for, else over the socket of the host
/// or, in a guest, through the hypervisor.
pub fn transport(
    kind: Option<TransportKind>,
    in_vm: bool,
    path: String,
    host: String,
    net_port: u32,
    cid: u32,
) -> (out: Result<Transport, Error>)
    ensures
        ({
            let kind = match kind {
                Some(kind) => kind,
                None => if in_vm {
                    TransportKind::Vsock
                } else {
                    TransportKind::Unix
                },
            };
            out == match kind {
                TransportKind::Unix => Ok::<Transport, Error>(Transport::Unix { path }),
                TransportKind::Tcp => if net_port > 65535 {
                    Err(Error::TcpPortOutOfRange)
                } else {
                    Ok(Transport::Tcp { host, port: net_port })
                },
                TransportKind::Vsock => Ok(Transport::Vsock { cid, port: net_port }),
            }
        }),
{
    let kind = match kind {
        Some(kind) => kind,
        None => if in_vm {
            TransportKind::Vsock
        } else {
            TransportKind::Unix
        },
    };
    match kind {
        TransportKind::Unix => Ok(Transport::Unix { path }),
        TransportKind::Tcp => {
            if net_port > 65535 {
                return Err(Error::TcpPortOutOfRange);
            }
            Ok(Transport::Tcp { host, port: net_port })
        },
        TransportKind::Vsock => Ok(Transport::Vsock { cid, port: net_port }),
    }
}

/// A list shows the connected devices, the disconnected ones, or all, as asked
/// for.
pub proof fn law_list_filters(connected: bool, disconnected: bool, out: Option<bool>)
    requires
        call_ensures(connection_filter, (connected, disconnected), out),
    ensures
        connected ==> out == Some(false),
        disconnected && !connected ==> out == Some(true),
        !connected && !disconnected ==> out is None,
{
}

/// A command asks for what it names, on the kind of device that it names, with
/// all that it gives, and its answer is shown as what was asked for. Only the
/// arguments of a machine are asked for again and again.
pub proof fn law_commands_ask_for_what_they_name(command: Command, plan: Plan)
    requires
        call_ensures(crate::cli::plan, (command,), plan),
    ensures
        command is Listen <==> plan is Listen,
        plan matches Plan::Request { action, output, repeat } ==> {
            &&& repeat <==> command is VmmArgs
            &&& command matches Command::VmmArgs { vm, qemu_bus_prefix, qemu_bus_start_index, require_pci }
                ==> action == (Action::VmmArgs {
                vm,
                qemu_bus_prefix,
                qemu_bus_start_index,
                require_pci,
            }) && output is Vmm
            &&& command matches Command::Usb(UsbCommand::Attach { selector, vm }) ==> action == (
            Action::UsbAttach { selector, vm }) && output is Nothing
            &&& command matches Command::Usb(UsbCommand::Detach { selector }) ==> action == (
            Action::UsbDetach { selector }) && output is Nothing
            &&& command matches Command::Usb(UsbCommand::Suspend { vm }) ==> action == (
            Action::UsbSuspend { vm }) && output is Nothing
            &&& command matches Command::Usb(UsbCommand::Resume { vm }) ==> action == (
            Action::UsbResume { vm }) && output is Nothing
            &&& command matches Command::Usb(
                UsbCommand::List { connected, disconnected, short, tag },
            ) ==> (action matches Action::UsbList { disconnected: only, tag: wanted } && wanted
                == tag && (connected ==> only == Some(false)) && (disconnected && !connected
                ==> only == Some(true)) && (!connected && !disconnected ==> only is None)) && (
            output matches OutputKind::Usb { short: brief } && brief == short)
            &&& command matches Command::Pci(PciCommand::Attach { selector, vm }) ==> action == (
            Action::PciAttach { selector, vm }) && output is Nothing
            &&& command matches Command::Pci(PciCommand::Detach { selector }) ==> action == (
            Action::PciDetach { selector }) && output is Nothing
            &&& command matches Command::Pci(PciCommand::Suspend { vm }) ==> action == (
            Action::PciSuspend { vm }) && output is Nothing
            &&& command matches Command::Pci(PciCommand::Resume { vm }) ==> action == (
            Action::PciResume { vm }) && output is Nothing
            &&& command matches Command::Pci(
                PciCommand::List { connected, disconnected, short, tag },
            ) ==> (action matches Action::PciList { disconnected: only, tag: wanted } && wanted
                == tag && (connected ==> only == Some(false)) && (disconnected && !connected
                ==> only == Some(true)) && (!connected && !disconnected ==> only is None)) && (
            output matches OutputKind::Pci { short: brief } && brief == short)
        },
{
}

/// The arguments of a machine can be told apart on their line: its words are
/// the arguments. An argument with white space in it is refused.
pub proof fn law_arguments_can_be_told_apart(args: &Vec<String>, out: Result<String, Error>)
    requires
        call_ensures(vmm_line, (args,), out),
        forall|i: int| 0 <= i < args@.len() ==> (#[trigger] args@[i])@.len() > 0,
    ensures
        out is Ok <==> forall|i: int, k: int|
            #![trigger args@[i]@[k]]
            0 <= i < args@.len() && 0 <= k < args@[i]@.len() ==> !is_space(args@[i]@[k]),
        out matches Ok(line) ==> words(line@) == views(args@),
{
    if out is Ok {
        assert forall|i: int, k: int|
            #![trigger args@[i]@[k]]
            0 <= i < args@.len() && 0 <= k < args@[i]@.len() implies !is_space(args@[i]@[k]) by {
            assert(!spaced(args@[i]@));
        }
        assert forall|i: int| 0 <= i < views(args@).len() implies (
        #[trigger] views(args@)[i]).len() > 0 && !spaced(views(args@)[i]) by {
            assert(args@[i]@.len() > 0);
            assert(!spaced(args@[i]@));
        }
        lemma_words_of_joined(views(args@));
    } else {
        let i = choose|i: int| 0 <= i < args@.len() && spaced((#[trigger] args@[i])@);
        let text = args@[i]@;
        let k = choose|k: int| 0 <= k < text.len() && is_space(#[trigger] text[k]);
        assert(is_space(args@[i]@[k]));
    }
}

proof fn lemma_words_of_joined(parts: Seq<Seq<char>>)
    requires
        forall|i: int|
            0 <= i < parts.len() ==> (#[trigger] parts[i]).len() > 0 && !spaced(parts[i]),
    ensures
        words(joined(parts, " "@)) == parts,
    decreases parts.len(),
{
    reveal_strlit(" ");
    let none = Seq::<char>::empty();
    if parts.len() == 0 {
        assert(words(joined(parts, " "@)) =~= parts);
    } else {
        let last = parts.last();
        assert(parts[parts.len() - 1] == last);
        law_words(last, ' ', none);
        if parts.len() == 1 {
            assert(parts =~= seq![last]);
        } else {
            let short = parts.drop_last();
            assert forall|i: int| 0 <= i < short.len() implies (#[trigger] short[i]).len() > 0
                && !spaced(short[i]) by {
                assert(parts[i] == short[i]);
            }
            lemma_words_of_joined(short);
            law_words(joined(short, " "@), ' ', last);
            assert(" "@ =~= seq![' ']);
            assert(words(joined(parts, " "@)) =~= parts);
        }
    }
}

/// An answer is shown only as what was asked for, with all of its devices, or
/// refused; where only success was wanted nothing is shown.
pub proof fn law_answers_are_shown_as_asked(
    output: OutputKind,
    payload: ResponsePayload,
    received: &str,
    out: Result<Shown, Error>,
)
    requires
        call_ensures(show, (output, payload, received), out),
    ensures
        output is Nothing ==> out == Ok::<Shown, Error>(Shown::Nothing),
        output matches OutputKind::Usb { short } ==> (out is Ok <==> payload is UsbList) && (
        payload matches ResponsePayload::UsbList(list) ==> out == Ok::<Shown, Error>(
            Shown::Usb { devices: list.usb_devices, short },
        )),
        output matches OutputKind::Pci { short } ==> (out is Ok <==> payload is PciList) && (
        payload matches ResponsePayload::PciList(list) ==> out == Ok::<Shown, Error>(
            Shown::Pci { devices: list.pci_devices, short },
        )),
        (output is Usb && payload !is UsbList) || (output is Pci && payload !is PciList) ==> (
        out->Err_0 matches Error::UnexpectedPayload(Some(text)) && text@ == received@),
        output is Vmm && payload !is VmmArgs ==> out == Err::<Shown, Error>(
            Error::UnexpectedPayload(None),
        ),
        output is Vmm && out is Ok ==> (out->Ok_0) is Text,
{
}

/// The arguments of a machine are shown as their line, or refused where they
/// have none.
pub proof fn law_arguments_are_shown_as_their_line(
    list: VmmArgsResponse,
    received: &str,
    out: Result<Shown, Error>,
    line: Result<String, Error>,
)
    requires
        call_ensures(show, (OutputKind::Vmm, ResponsePayload::VmmArgs(list), received), out),
        call_ensures(vmm_line, (&list.vmm_args,), line),
    ensures
        out is Ok <==> line is Ok,
        line matches Ok(text) ==> (out->Ok_0 matches Shown::Text(shown) && shown@ == text@),
        line is Err ==> out->Err_0 is SpacedArgument,
{
}

/// The line of a device has its ids and then its names.
pub proof fn law_summaries(usb: &UsbListDevice, line: String, pci: &PciListDevice, other: String)
    requires
        call_ensures(usb_summary, (usb,), line),
        call_ensures(pci_summary, (pci,), other),
    ensures
        (usb.device.vid is Some && usb.device.pid is Some && usb.device.vendor_name is Some
            && usb.device.product_name is Some) ==> line@ == usb.device.vid->0@
            + ":"@ + usb.device.pid->0@ + " "@ + usb.device.vendor_name->0@ + " "@
            + usb.device.product_name->0@,
        (pci.device.vendor_id_text is Some && pci.device.device_id_text is Some
            && pci.device.vendor_name is Some && pci.device.device_name is Some) ==> other@
            == pci.device.address@ + " "@ + pci.device.vendor_id_text->0@ + ":"@
            + pci.device.device_id_text->0@ + " "@ + pci.device.vendor_name->0@ + " "@
            + pci.device.device_name->0@,
{
}

/// What is not known of a device leaves a word in its place and everything else
/// as it was.
pub proof fn law_unknown_parts_are_named(
    usb: &UsbListDevice,
    line: String,
    pci: &PciListDevice,
    other: String,
)
    requires
        call_ensures(usb_summary, (usb,), line),
        call_ensures(pci_summary, (pci,), other),
    ensures
        usb.device.vid is None && usb.device.pid is None && usb.device.vendor_name is None
            && usb.device.product_name is None ==> line@ == "None"@ + ":"@ + "None"@ + " "@
            + "None"@ + " "@ + "None"@,
        pci.device.vendor_id_text is None && pci.device.device_id_text is None
            && pci.device.vendor_name is None && pci.device.device_name is None ==> other@
            == pci.device.address@ + " "@ + "None"@ + ":"@ + "None"@ + " "@ + "None"@ + " "@
            + "None"@,
{
}

/// The details of a device stand in one column: every key is filled up to the
/// same width, and its value follows.
pub proof fn law_details_stand_in_a_column(key: &str, value: &str, out: String)
    requires
        call_ensures(detail_line, (key, value), out),
        key@.len() <= 16,
    ensures
        out@.len() == 20 + value@.len(),
        out@.skip(20) == value@,
        out@.subrange(2, 2 + key@.len() as int) == key@,
{
    reveal_strlit("  ");
    reveal_strlit(": ");
    lemma_filled(key@, 16);
    let wide = filled(key@, 16);
    assert(out@.skip(20) =~= value@);
    assert(out@.subrange(2, 2 + key@.len() as int) =~= key@) by {
        assert forall|i: int| 0 <= i < key@.len() implies wide[i] == key@[i] by {
            assert(wide.take(key@.len() as int)[i] == wide[i]);
        }
    }
}

proof fn lemma_filled(text: Seq<char>, width: nat)
    requires
        text.len() <= width,
    ensures
        filled(text, width).len() == width,
        filled(text, width).take(text.len() as int) == text,
    decreases width - text.len(),
{
    if text.len() < width {
        let more = text.push(' ');
        lemma_filled(more, width);
        assert(filled(text, width).take(text.len() as int) =~= text) by {
            assert forall|i: int| 0 <= i < text.len() implies filled(text, width)[i]
                == text[i] by {
                assert(filled(more, width).take(more.len() as int)[i] == more[i]);
            }
        }
    } else {
        assert(text.take(text.len() as int) =~= text);
    }
}

/// A selector is made exactly where one kind of selection is given, and of that
/// kind.
pub proof fn law_one_selection(
    node: Option<String>,
    place: Option<(u32, u32)>,
    ids: Option<(String, String)>,
    tag: Option<String>,
    usb: Option<UsbSelector>,
    address: Option<String>,
    pci: Option<PciSelector>,
)
    requires
        call_ensures(usb_selector, (node, place, ids, tag), usb),
        call_ensures(pci_selector, (address, ids, tag), pci),
    ensures
        usb matches Some(UsbSelector::DeviceNode { device_node }) ==> Some(device_node) == node,
        usb matches Some(UsbSelector::BusPort { bus, port }) ==> Some((bus, port)) == place,
        usb matches Some(UsbSelector::VidPid { vid, pid }) ==> Some((vid, pid)) == ids,
        usb matches Some(UsbSelector::Tag { tag: wanted }) ==> Some(wanted) == tag,
        usb is Some <==> (node is Some && place is None && ids is None && tag is None) || (
        node is None && place is Some && ids is None && tag is None) || (node is None
            && place is None && ids is Some && tag is None) || (node is None && place is None
            && ids is None && tag is Some),
        pci matches Some(PciSelector::Address { address: wanted }) ==> Some(wanted) == address,
        pci matches Some(PciSelector::VidDid { vid, did }) ==> Some((vid, did)) == ids,
        pci matches Some(PciSelector::Tag { tag: wanted }) ==> Some(wanted) == tag,
        pci is Some <==> (address is Some && ids is None && tag is None) || (address is None
            && ids is Some && tag is None) || (address is None && ids is None && tag is Some),
{
}

/// The manager is reached as asked for. Where nothing is asked for, a guest
/// goes through the hypervisor and the host over its socket. A TCP port that is
/// too large is refused.
pub proof fn law_way_to_the_manager(
    kind: Option<TransportKind>,
    in_vm: bool,
    path: String,
    host: String,
    port: u32,
    cid: u32,
    out: Result<Transport, Error>,
)
    requires
        call_ensures(transport, (kind, in_vm, path, host, port, cid), out),
    ensures
        kind == Some(TransportKind::Unix) || (kind is None && !in_vm) ==> out == Ok::<
            Transport,
            Error,
        >(Transport::Unix { path }),
        kind == Some(TransportKind::Vsock) || (kind is None && in_vm) ==> out == Ok::<
            Transport,
            Error,
        >(Transport::Vsock { cid, port }),
        kind == Some(TransportKind::Tcp) && port <= 65535 ==> out == Ok::<Transport, Error>(
            Transport::Tcp { host, port },
        ),
        kind == Some(TransportKind::Tcp) && port > 65535 ==> out == Err::<Transport, Error>(
            Error::TcpPortOutOfRange,
        ),
{
}

} // verus!
