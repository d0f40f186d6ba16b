//! The control commands of crosvm: what to run and what the answers mean.

use crate::error::Error;
use crate::number::{decimal_digits, law_written_is_read_back, parse, parsed, to_text};
use crate::order::lemma_filter_places;
use crate::text::{begins, chars, contains, is_text, lemma_views_push, lists, opt, same};
use crate::text::{split_whitespace, starts_with, trim, trimmed, views, words};
use crate::usb_gate::{Place, SysfsWrite};
use vstd::prelude::*;

verus! {

/// How long a command may take, in seconds.
pub const COMMAND_DEADLINE_SECONDS: u64 = 10;

/// How long to wait before a command is tried again, in milliseconds.
pub const RETRY_MILLISECONDS: u64 = 250;

/// How often a command is tried.
pub const ATTEMPTS: u32 = 6;

/// What a command left behind.
#[derive(Clone, Debug)]
pub struct Output {
    pub status: i32,
    pub stdout: String,
    pub stderr: String,
}

/// The arguments that a command is run with: none of them writes to syslog.
pub fn command_args(args: &Vec<String>) -> (out: Vec<String>)
    ensures
        views(out@) == seq!["--no-syslog"@] + views(args@),
{
    let mut out: Vec<String> = Vec::new();
    out.push("--no-syslog".to_owned());
    assert(views(out@) =~= seq!["--no-syslog"@] + views(args@).take(0));
    let mut i: usize = 0;
    while i < args.len()
        invariant
            i <= args.len(),
            views(out@) == seq!["--no-syslog"@] + views(args@).take(i as int),
        decreases args.len() - i,
    {
        let ghost done = out@;
        let arg = args[i].clone();
        out.push(arg);
        proof {
            lemma_views_push(done, arg);
        }
        i += 1;
        assert(views(out@) =~= seq!["--no-syslog"@] + views(args@).take(i as int));
    }
    assert(views(args@).take(args@.len() as int) =~= views(args@));
    out
}

/// What a failed command has to say: what it wrote to its error stream, or
/// else to its output.
pub open spec fn complaint(output: Output) -> Seq<char> {
    if trimmed(output.stderr@).len() == 0 {
        trimmed(output.stdout@)
    } else {
        trimmed(output.stderr@)
    }
}

/// The output of a command that succeeded.
pub fn command(args: Vec<String>, output: Output) -> (out: Result<String, Error>)
    ensures
        match out {
            Ok(stdout) => output.status == 0 && stdout == output.stdout,
            Err(error) => {
                &&& output.status != 0
                &&& error matches Error::CommandFailed { args: run, status, detail }
                &&& run == args
                &&& status == output.status
                &&& detail@ == complaint(output)
            },
        },
{
    if output.status != 0 {
        let stderr = trim(output.stderr.as_str());
        let detail = if stderr.as_str().is_empty() {
            trim(output.stdout.as_str())
        } else {
            stderr
        };
        return Err(Error::CommandFailed { args, status: output.status, detail });
    }
    Ok(output.stdout)
}

fn three(a: &str, b: &str, c: &str) -> (out: Vec<String>)
    ensures
        views(out@) == seq![a@, b@, c@],
{
    let mut out: Vec<String> = Vec::new();
    out.push(a.to_owned());
    out.push(b.to_owned());
    out.push(c.to_owned());
    assert(views(out@) =~= seq![a@, b@, c@]);
    out
}

fn four(a: &str, b: &str, c: &str, d: &str) -> (out: Vec<String>)
    ensures
        views(out@) == seq![a@, b@, c@, d@],
{
    let mut out = three(a, b, c);
    let ghost done = out@;
    let last: String = d.to_owned();
    out.push(last);
    proof {
        lemma_views_push(done, last);
    }
    assert(views(out@) =~= seq![a@, b@, c@, d@]);
    out
}

/// Lists the USB devices of a machine.
pub fn usb_list_args(socket: &str) -> (out: Vec<String>)
    ensures
        views(out@) == seq!["usb"@, "list"@, socket@],
{
    three("usb", "list", socket)
}

/// Attaches a USB device to a machine.
pub fn usb_attach_args(socket: &str, device_node: &str) -> (out: Vec<String>)
    ensures
        views(out@) == seq!["usb"@, "attach"@, "00:00:00:00"@, device_node@, socket@],
{
    let mut out = four("usb", "attach", "00:00:00:00", device_node);
    let ghost done = out@;
    let last: String = socket.to_owned();
    out.push(last);
    proof {
        lemma_views_push(done, last);
    }
    assert(views(out@) =~= seq!["usb"@, "attach"@, "00:00:00:00"@, device_node@, socket@]);
    out
}

/// Detaches the USB device at a port of a machine.
pub fn usb_detach_args(socket: &str, port: u8) -> (out: Vec<String>)
    ensures
        views(out@) == seq!["usb"@, "detach"@, decimal_digits(port as nat), socket@],
{
    let port = to_text(port as u64);
    four("usb", "detach", port.as_str(), socket)
}

/// Lists the PCI devices of a machine.
pub fn vfio_list_args(socket: &str) -> (out: Vec<String>)
    ensures
        views(out@) == seq!["vfio"@, "list"@, socket@],
{
    three("vfio", "list", socket)
}

/// Whether an answer has the shape of a USB list: the word `devices`, then
/// three words for each device.
pub open spec fn is_usb_listing(fields: Seq<Seq<char>>) -> bool {
    fields.len() > 0 && fields[0] == "devices"@ && (fields.len() - 1) % 3 == 0
}

/// The port that the given entry of a USB list names.
pub open spec fn listed_port(fields: Seq<Seq<char>>, at: int) -> Option<nat> {
    parsed(fields[1 + 3 * at], 10, 255)
}

/// Whether `list` holds the entries of a USB list: port, vendor and product.
pub open spec fn is_usb_list(fields: Seq<Seq<char>>, list: Seq<(u8, String, String)>) -> bool {
    &&& 3 * list.len() + 1 == fields.len()
    &&& forall|i: int|
        0 <= i < list.len() ==> listed_port(fields, i) == Some((#[trigger] list[i]).0 as nat)
            && list[i].1@ == fields[2 + 3 * i] && list[i].2@ == fields[3 + 3 * i]
}

/// Whether some entry of a USB list names no port.
pub open spec fn has_bad_port(fields: Seq<Seq<char>>) -> bool {
    exists|i: int| 0 <= 3 * i < fields.len() - 1 && #[trigger] listed_port(fields, i) is None
}

/// Reads the answer to a USB list.
pub fn parse_usb_list(output: &str) -> (out: Result<Vec<(u8, String, String)>, Error>)
    ensures
        match out {
            Ok(list) => is_usb_listing(words(output@)) && is_usb_list(words(output@), list@),
            Err(Error::MalformedUsbList(text)) => !is_usb_listing(words(output@)) && text@
                == trimmed(output@),
            Err(error) => is_usb_listing(words(output@)) && has_bad_port(words(output@)) && error
                is InvalidUsbPort,
        },
{
    let fields = split_whitespace(output);
    let ghost texts = words(output@);
    assert(views(fields@).len() == fields@.len());
    if fields.len() == 0 {
        return Err(Error::MalformedUsbList(trim(output)));
    }
    assert(texts[0] == fields@[0]@);
    if !same(fields[0].as_str(), "devices") || (fields.len() - 1) % 3 != 0 {
        return Err(Error::MalformedUsbList(trim(output)));
    }
    let mut list: Vec<(u8, String, String)> = Vec::new();
    let mut at: usize = 1;
    while at < fields.len()
        invariant
            texts == words(output@),
            texts == views(fields@),
            texts.len() == fields@.len(),
            is_usb_listing(texts),
            1 <= at <= fields.len(),
            at == 3 * list@.len() + 1,
            forall|i: int|
                0 <= i < list@.len() ==> listed_port(texts, i) == Some(
                    (#[trigger] list@[i]).0 as nat,
                ) && list@[i].1@ == texts[2 + 3 * i] && list@[i].2@ == texts[3 + 3 * i],
        decreases fields.len() - at,
    {
        let ghost i = list@.len() as int;
        assert(at + 2 < fields.len());
        assert(texts[at as int] == fields@[at as int]@);
        assert(texts[at + 1] == fields@[at + 1]@);
        assert(texts[at + 2] == fields@[at + 2]@);
        match parse(fields[at].as_str(), 10, 255) {
            Some(port) => {
                assert(listed_port(texts, i) == Some(port as nat));
                list.push((port as u8, fields[at + 1].clone(), fields[at + 2].clone()));
            },
            None => {
                assert(listed_port(texts, i) is None);
                return Err(Error::InvalidUsbPort);
            },
        }
        at += 3;
    }
    Ok(list)
}

/// Waiting for a machine to take a USB device.
#[derive(Debug)]
pub struct UsbAttaching {
    /// The ports in use before.
    pub before: Vec<u8>,
    /// How often the device was offered already.
    pub attempt: u32,
}

/// What comes after an attach command.
#[derive(Debug)]
pub enum UsbAttachStep {
    /// The device sits at this port.
    Attached(u8),
    /// The machine took the device; its list tells the port.
    Identify(UsbAttaching),
    /// No port is free; offer the device again after a pause.
    Wait(UsbAttaching),
    Failed(Error),
}

/// The word at a place of an answer.
pub open spec fn field(output: Seq<char>, at: int) -> Option<Seq<char>> {
    if words(output).len() > at {
        Some(words(output)[at])
    } else {
        None
    }
}

/// The port that an answer names.
pub open spec fn named_port(output: Seq<char>) -> Option<nat> {
    match field(output, 1) {
        Some(text) => parsed(text, 10, 255),
        None => None,
    }
}

fn nth_field(output: &str, at: usize) -> (out: Option<String>)
    ensures
        opt(out) == field(output@, at as int),
{
    let mut fields = split_whitespace(output);
    assert(views(fields@).len() == fields@.len());
    if at < fields.len() {
        assert(views(fields@)[at as int] == fields@[at as int]@);
        Some(fields.remove(at))
    } else {
        None
    }
}

fn field_is(output: &str, at: usize, wanted: &str) -> (r: bool)
    ensures
        r == (field(output@, at as int) == Some(wanted@)),
{
    match nth_field(output, at) {
        Some(text) => same(text.as_str(), wanted),
        None => false,
    }
}

/// The entries of a USB list whose ports were not in use before.
pub open spec fn added(
    before: Seq<u8>,
    after: Seq<(u8, String, String)>,
) -> Seq<(u8, String, String)> {
    after.filter(|item: (u8, String, String)| !before.contains(item.0))
}

fn has_port(ports: &Vec<u8>, port: u8) -> (r: bool)
    ensures
        r == ports@.contains(port),
{
    let mut i: usize = 0;
    while i < ports.len()
        invariant
            i <= ports.len(),
            forall|k: int| 0 <= k < i ==> ports@[k] != port,
        decreases ports.len() - i,
    {
        if ports[i] == port {
            return true;
        }
        i += 1;
    }
    false
}

impl UsbAttaching {
    /// Starts with the USB list of the machine before the device is offered.
    pub fn new(before: &Vec<(u8, String, String)>) -> (task: UsbAttaching)
        ensures
            task.attempt == 0,
            task.before@ == Seq::new(before@.len(), |i: int| before@[i].0),
    {
        let mut ports: Vec<u8> = Vec::new();
        let mut i: usize = 0;
        while i < before.len()
            invariant
                i <= before.len(),
                ports@ == Seq::new(i as nat, |k: int| before@[k].0),
            decreases before.len() - i,
        {
            ports.push(before[i].0);
            i += 1;
            assert(ports@ =~= Seq::new(i as nat, |k: int| before@[k].0));
        }
        UsbAttaching { before: ports, attempt: 0 }
    }

    /// Takes the answer to an attach command.
    pub fn answered(self, output: &str) -> (step: UsbAttachStep)
        ensures
            if field(output@, 0) == Some("ok"@) {
                match named_port(output@) {
                    Some(port) => step matches UsbAttachStep::Attached(found) && found as nat
                        == port,
                    None => step == UsbAttachStep::Identify(self),
                }
            } else if field(output@, 0) != Some("no_available_port"@) {
                &&& step matches UsbAttachStep::Failed(error)
                &&& error matches Error::UnexpectedAttach(text)
                &&& text@ == trimmed(output@)
            } else if self.attempt + 1 < ATTEMPTS {
                step == UsbAttachStep::Wait(
                    (UsbAttaching { before: self.before, attempt: (self.attempt + 1) as u32 }),
                )
            } else {
                step == UsbAttachStep::Failed(Error::NoFreePort)
            },
    {
        if field_is(output, 0, "ok") {
            let port = match nth_field(output, 1) {
                Some(text) => parse(text.as_str(), 10, 255),
                None => None,
            };
            return match port {
                Some(port) => UsbAttachStep::Attached(port as u8),
                None => UsbAttachStep::Identify(self),
            };
        }
        if !field_is(output, 0, "no_available_port") {
            return UsbAttachStep::Failed(Error::UnexpectedAttach(trim(output)));
        }
        if self.attempt < ATTEMPTS - 1 {
            UsbAttachStep::Wait(UsbAttaching { before: self.before, attempt: self.attempt + 1 })
        } else {
            UsbAttachStep::Failed(Error::NoFreePort)
        }
    }

    /// Takes the USB list after the machine took the device, and finds the
    /// one port that is new.
    pub fn listed(self, after: &Vec<(u8, String, String)>) -> (out: Result<u8, Error>)
        ensures
            ({
                let new = added(self.before@, after@);
                out == if new.len() == 1 {
                    Ok::<u8, Error>(new[0].0)
                } else {
                    Err(Error::NoNewPort)
                }
            }),
    {
        let mut ports: Vec<u8> = Vec::new();
        let mut i: usize = 0;
        proof {
            reveal(Seq::filter);
            assert(after@.take(0).len() == 0);
        }
        while i < after.len()
            invariant
                i <= after.len(),
                ports@.len() == added(self.before@, after@.take(i as int)).len(),
                forall|k: int|
                    0 <= k < ports@.len() ==> ports@[k] == (#[trigger] added(
                        self.before@,
                        after@.take(i as int),
                    )[k]).0,
            decreases after.len() - i,
        {
            let ghost next = after@.take(i + 1);
            proof {
                reveal(Seq::filter);
                assert(next.drop_last() =~= after@.take(i as int));
                assert(next.last() == after@[i as int]);
            }
            let port: u8 = after[i].0;
            if !has_port(&self.before, port) {
                assert(added(self.before@, next) == added(self.before@, after@.take(i as int)).push(
                    after@[i as int],
                ));
                ports.push(port);
            } else {
                assert(added(self.before@, next) == added(self.before@, after@.take(i as int)));
            }
            i += 1;
        }
        assert(after@.take(after@.len() as int) =~= after@);
        if ports.len() == 1 {
            assert(added(self.before@, after@)[0].0 == ports@[0]);
            Ok(ports[0])
        } else {
            Err(Error::NoNewPort)
        }
    }
}

/// The answer to a detach command.
pub fn parse_usb_detach(output: &str) -> (out: Result<(), Error>)
    ensures
        match out {
            Ok(_) => field(output@, 0) == Some("ok"@),
            Err(error) => {
                &&& field(output@, 0) != Some("ok"@)
                &&& error matches Error::UnexpectedDetach(text)
                &&& text@ == trimmed(output@)
            },
        },
{
    if !field_is(output, 0, "ok") {
        return Err(Error::UnexpectedDetach(trim(output)));
    }
    Ok(())
}

/// Where sysfs keeps the PCI devices.
pub open spec fn vfio_path(address: Seq<char>) -> Seq<char> {
    "/sys/bus/pci/devices/"@ + address
}

/// The sysfs path of a PCI device.
pub fn pci_path(address: &str) -> (out: String)
    ensures
        out@ == vfio_path(address@),
{
    let mut out: String = "/sys/bus/pci/devices/".to_owned();
    out.append(address);
    out
}

pub open spec fn is_hex(c: char) -> bool {
    '0' <= c <= '9' || 'A' <= c <= 'F' || 'a' <= c <= 'f'
}

/// Whether a text is a PCI address: four, two and two hexadecimal digits for
/// domain, bus and device, and one octal digit for the function.
pub open spec fn is_pci_address(text: Seq<char>) -> bool {
    &&& text.len() == 12
    &&& is_hex(text[0]) && is_hex(text[1]) && is_hex(text[2]) && is_hex(text[3])
    &&& text[4] == ':'
    &&& is_hex(text[5]) && is_hex(text[6])
    &&& text[7] == ':'
    &&& is_hex(text[8]) && is_hex(text[9])
    &&& text[10] == '.'
    &&& '0' <= text[11] <= '7'
}

/// Whether a text is the sysfs path of a PCI device.
pub open spec fn is_vfio_entry(text: Seq<char>) -> bool {
    let dir = "/sys/bus/pci/devices/"@;
    begins(text, dir) && is_pci_address(text.skip(dir.len() as int))
}

fn hex_char(c: char) -> (r: bool)
    ensures
        r == is_hex(c),
{
    ('0' <= c && c <= '9') || ('A' <= c && c <= 'F') || ('a' <= c && c <= 'f')
}

/// Whether a text is the sysfs path of a PCI device.
pub fn is_vfio_path(text: &str) -> (r: bool)
    ensures
        r == is_vfio_entry(text@),
{
    let dir = "/sys/bus/pci/devices/";
    if !starts_with(text, dir) {
        return false;
    }
    let t = chars(text);
    let n: usize = chars(dir).len();
    let ghost rest = text@.skip(n as int);
    if t.len() - n != 12 {
        return false;
    }
    assert(forall|k: int| 0 <= k < 12 ==> rest[k] == t@[n + k]);
    hex_char(t[n]) && hex_char(t[n + 1]) && hex_char(t[n + 2]) && hex_char(t[n + 3]) && t[n + 4]
        == ':' && hex_char(t[n + 5]) && hex_char(t[n + 6]) && t[n + 7] == ':' && hex_char(t[n + 8])
        && hex_char(t[n + 9]) && t[n + 10] == '.' && '0' <= t[n + 11] && t[n + 11] <= '7'
}

/// Whether every entry behind the first word is the path of a PCI device.
pub open spec fn is_vfio_listing(fields: Seq<Seq<char>>) -> bool {
    forall|i: int| 1 <= i < fields.len() ==> is_vfio_entry(#[trigger] fields[i])
}

/// Reads the answer to a PCI list.
pub fn parse_vfio_list(output: &str) -> (out: Result<Vec<String>, Error>)
    ensures
        match out {
            Ok(list) => field(output@, 0) == Some("devices"@) && is_vfio_listing(words(output@))
                && views(list@) == words(output@).skip(1),
            Err(Error::MalformedVfioList(text)) => field(output@, 0) != Some("devices"@) && text@
                == trimmed(output@),
            Err(error) => field(output@, 0) == Some("devices"@) && !is_vfio_listing(words(output@))
                && error is UnexpectedVfioEntry,
        },
{
    let mut fields = split_whitespace(output);
    let ghost texts = words(output@);
    assert(views(fields@).len() == fields@.len());
    if fields.len() == 0 {
        return Err(Error::MalformedVfioList(trim(output)));
    }
    assert(texts[0] == fields@[0]@);
    if !same(fields[0].as_str(), "devices") {
        return Err(Error::MalformedVfioList(trim(output)));
    }
    let mut i: usize = 1;
    while i < fields.len()
        invariant
            1 <= i <= fields.len(),
            texts == words(output@),
            texts == views(fields@),
            texts.len() == fields@.len(),
            field(output@, 0) == Some("devices"@),
            forall|k: int| 1 <= k < i ==> is_vfio_entry(#[trigger] texts[k]),
        decreases fields.len() - i,
    {
        assert(texts[i as int] == fields@[i as int]@);
        if !is_vfio_path(fields[i].as_str()) {
            return Err(Error::UnexpectedVfioEntry);
        }
        i += 1;
    }
    fields.remove(0);
    assert(views(fields@) =~= texts.skip(1));
    Ok(fields)
}

/// Adding a PCI device to a machine or removing it.
#[derive(Debug)]
pub struct VfioChange {
    /// The sysfs path of the device.
    pub path: String,
    pub adding: bool,
    /// How often the list was looked at since the command ran.
    pub attempt: u32,
}

/// What comes after a list.
#[derive(Debug)]
pub enum VfioStep {
    Done,
    /// The list does not show the change yet; look again after a pause.
    Wait(VfioChange),
    Failed(Error),
}

impl VfioChange {
    /// Whether a list shows the change.
    pub open spec fn shows(self, live: Seq<String>) -> bool {
        lists(live, self.path@) == self.adding
    }

    /// The change that adds a device.
    pub fn add(address: &str) -> (change: VfioChange)
        ensures
            change.path@ == vfio_path(address@),
            change.adding,
            change.attempt == 0,
    {
        VfioChange { path: pci_path(address), adding: true, attempt: 0 }
    }

    /// The change that removes a device.
    pub fn remove(address: &str) -> (change: VfioChange)
        ensures
            change.path@ == vfio_path(address@),
            !change.adding,
            change.attempt == 0,
    {
        VfioChange { path: pci_path(address), adding: false, attempt: 0 }
    }

    /// Whether a command has to be run: the list does not show the change.
    pub fn needed(&self, live: &Vec<String>) -> (r: bool)
        ensures
            r == !self.shows(live@),
    {
        contains(live, self.path.as_str()) != self.adding
    }

    /// The command that makes the change.
    pub fn args(&self, socket: &str) -> (out: Vec<String>)
        ensures
            views(out@) == seq![
                "vfio"@,
                if self.adding {
                    "add"@
                } else {
                    "remove"@
                },
                self.path@,
                socket@,
            ],
    {
        if self.adding {
            four("vfio", "add", self.path.as_str(), socket)
        } else {
            four("vfio", "remove", self.path.as_str(), socket)
        }
    }

    /// Takes the list after the command ran.
    pub fn listed(self, live: &Vec<String>) -> (step: VfioStep)
        ensures
            step == if self.shows(live@) {
                VfioStep::Done
            } else if self.attempt + 1 < ATTEMPTS {
                VfioStep::Wait(
                    (VfioChange {
                        path: self.path,
                        adding: self.adding,
                        attempt: (self.attempt + 1) as u32,
                    }),
                )
            } else if self.adding {
                VfioStep::Failed(Error::VfioNotAdded(self.path))
            } else {
                VfioStep::Failed(Error::VfioNotRemoved(self.path))
            },
    {
        if !self.needed(live) {
            return VfioStep::Done;
        }
        if self.attempt < ATTEMPTS - 1 {
            VfioStep::Wait(
                VfioChange { path: self.path, adding: self.adding, attempt: self.attempt + 1 },
            )
        } else if self.adding {
            VfioStep::Failed(Error::VfioNotAdded(self.path))
        } else {
            VfioStep::Failed(Error::VfioNotRemoved(self.path))
        }
    }
}

/// One step of handing a PCI device to `vfio-pci`, with what to report where
/// it fails.
#[derive(Debug)]
pub enum BindStep {
    Write { write: SysfsWrite, failure: Error },
    Fail(Error),
}

/// Whether `step` writes a value for the device, and reports `failure` with
/// the address of the device.
pub open spec fn is_bind_write(
    step: BindStep,
    place: Place,
    path: Seq<char>,
    value: Seq<char>,
    failure: Seq<char>,
) -> bool {
    step matches BindStep::Write { write, failure: error } && write.is(place, path, value)
        && error.text() == failure
}

/// Whether `steps` hand a device over: its driver is taken off, where it has
/// one, `vfio-pci` is made the only driver that may bind it, and the kernel
/// probes it again.
pub open spec fn hands_over(
    steps: Seq<BindStep>,
    address: Seq<char>,
    has_driver: bool,
    has_bus: bool,
) -> bool {
    let first: int = if has_driver {
        1
    } else {
        0
    };
    &&& steps.len() == first + 2
    &&& has_driver ==> is_bind_write(
        steps[0],
        Place::Devices,
        address + "/driver/unbind"@,
        address,
        "failed to unbind PCI device "@ + address,
    )
    &&& is_bind_write(
        steps[first],
        Place::Devices,
        address + "/driver_override"@,
        "vfio-pci"@,
        "failed to set driver_override for "@ + address,
    )
    &&& if has_bus {
        is_bind_write(
            steps[first + 1],
            Place::Bus,
            "drivers_probe"@,
            address,
            "failed to probe vfio-pci for "@ + address,
        )
    } else {
        steps[first + 1] == BindStep::Fail(Error::InvalidPciRoot)
    }
}

fn below(address: &str, file: &str) -> (out: String)
    ensures
        out@ == address@ + file@,
{
    let mut out: String = address.to_owned();
    out.append(file);
    out
}

/// The steps that hand a PCI device to `vfio-pci`; none where it has it.
pub fn bind_vfio(address: &str, current_driver: Option<&str>, has_bus: bool) -> (steps: Vec<
    BindStep,
>)
    ensures
        if current_driver is Some && current_driver->0@ == "vfio-pci"@ {
            steps@.len() == 0
        } else {
            hands_over(steps@, address@, current_driver is Some, has_bus)
        },
{
    let mut steps: Vec<BindStep> = Vec::new();
    if is_text(current_driver, "vfio-pci") {
        return steps;
    }
    if current_driver.is_some() {
        steps.push(
            BindStep::Write {
                write: SysfsWrite {
                    place: Place::Devices,
                    path: below(address, "/driver/unbind"),
                    value: address.to_owned(),
                },
                failure: Error::UnbindFailed(address.to_owned()),
            },
        );
    }
    steps.push(
        BindStep::Write {
            write: SysfsWrite {
                place: Place::Devices,
                path: below(address, "/driver_override"),
                value: "vfio-pci".to_owned(),
            },
            failure: Error::OverrideFailed(address.to_owned()),
        },
    );
    if has_bus {
        steps.push(
            BindStep::Write {
                write: SysfsWrite {
                    place: Place::Bus,
                    path: "drivers_probe".to_owned(),
                    value: address.to_owned(),
                },
                failure: Error::ProbeFailed(address.to_owned()),
            },
        );
    } else {
        steps.push(BindStep::Fail(Error::InvalidPciRoot));
    }
    steps
}

/// A change that the list shows needs no command: adding an added device, or
/// removing a removed one, does nothing.
pub proof fn law_shown_change_is_not_repeated(change: VfioChange, again: VfioChange, live: Seq<
    String,
>)
    requires
        change.shows(live),
        again.path@ == change.path@,
        again.adding == change.adding,
    ensures
        again.shows(live),
{
}

/// Removing undoes adding: a list shows one or the other.
pub proof fn law_add_and_remove_exclude(one: VfioChange, other: VfioChange, live: Seq<String>)
    requires
        one.path@ == other.path@,
        one.adding != other.adding,
    ensures
        one.shows(live) != other.shows(live),
{
}

/// A command counts as done exactly where its status is zero, and its output is
/// what it printed. A failed one is reported with its arguments, its status and
/// what it wrote to its error stream, or to its output where that is blank. No
/// command writes to the system log.
pub proof fn law_commands(
    args: Vec<String>,
    output: Output,
    out: Result<String, Error>,
    list: &Vec<String>,
    run: Vec<String>,
)
    requires
        call_ensures(command, (args, output), out),
        call_ensures(command_args, (list,), run),
    ensures
        out is Ok <==> output.status == 0,
        out is Ok ==> (out->Ok_0)@ == output.stdout@,
        out is Err ==> (out->Err_0 matches Error::CommandFailed { args: given, status, detail }
            && given == args && status == output.status && (trimmed(output.stderr@).len() > 0
            ==> detail@ == trimmed(output.stderr@)) && (trimmed(output.stderr@).len() == 0
            ==> detail@ == trimmed(output.stdout@))),
        run@.len() == list@.len() + 1,
        run@[0]@ == "--no-syslog"@,
        forall|i: int| 0 <= i < list@.len() ==> run@[i + 1]@ == #[trigger] list@[i]@,
{
    assert(views(run@).len() == run@.len());
    assert(views(run@)[0] == run@[0]@);
    assert forall|i: int| 0 <= i < list@.len() implies run@[i + 1]@ == #[trigger] list@[i]@ by {
        assert(views(run@)[i + 1] == views(list@)[i]);
    }
}

/// The commands name what they are for, the device or the port, and last the
/// socket of the machine.
pub proof fn law_commands_name_their_machine(
    socket: &str,
    node: &str,
    port: u8,
    lists_usb: Vec<String>,
    attaches: Vec<String>,
    detaches: Vec<String>,
    lists_pci: Vec<String>,
    change: &VfioChange,
    changes: Vec<String>,
)
    requires
        call_ensures(usb_list_args, (socket,), lists_usb),
        call_ensures(usb_attach_args, (socket, node), attaches),
        call_ensures(usb_detach_args, (socket, port), detaches),
        call_ensures(vfio_list_args, (socket,), lists_pci),
        call_ensures(VfioChange::args, (change, socket), changes),
    ensures
        lists_usb@.len() == 3 && lists_usb@[0]@ == "usb"@ && lists_usb@[1]@ == "list"@
            && lists_usb@[2]@ == socket@,
        attaches@.len() == 5 && attaches@[0]@ == "usb"@ && attaches@[1]@ == "attach"@
            && attaches@[3]@ == node@ && attaches@[4]@ == socket@,
        detaches@.len() == 4 && detaches@[0]@ == "usb"@ && detaches@[1]@ == "detach"@
            && detaches@[2]@ == decimal_digits(port as nat) && detaches@[3]@ == socket@,
        lists_pci@.len() == 3 && lists_pci@[0]@ == "vfio"@ && lists_pci@[1]@ == "list"@
            && lists_pci@[2]@ == socket@,
        changes@.len() == 4 && changes@[0]@ == "vfio"@ && changes@[2]@ == change.path@
            && changes@[3]@ == socket@,
        changes@[1]@ == (if change.adding {
            "add"@
        } else {
            "remove"@
        }),
{
    assert(views(lists_usb@).len() == lists_usb@.len());
    assert(views(attaches@).len() == attaches@.len());
    assert(views(detaches@).len() == detaches@.len());
    assert(views(lists_pci@).len() == lists_pci@.len());
    assert(views(changes@).len() == changes@.len());
    assert(views(lists_usb@)[0] == lists_usb@[0]@ && views(lists_usb@)[1] == lists_usb@[1]@
        && views(lists_usb@)[2] == lists_usb@[2]@);
    assert(views(attaches@)[0] == attaches@[0]@ && views(attaches@)[1] == attaches@[1]@ && views(
        attaches@,
    )[3] == attaches@[3]@ && views(attaches@)[4] == attaches@[4]@);
    assert(views(detaches@)[0] == detaches@[0]@ && views(detaches@)[1] == detaches@[1]@ && views(
        detaches@,
    )[2] == detaches@[2]@ && views(detaches@)[3] == detaches@[3]@);
    assert(views(lists_pci@)[0] == lists_pci@[0]@ && views(lists_pci@)[1] == lists_pci@[1]@
        && views(lists_pci@)[2] == lists_pci@[2]@);
    assert(views(changes@)[0] == changes@[0]@ && views(changes@)[1] == changes@[1]@ && views(
        changes@,
    )[2] == changes@[2]@ && views(changes@)[3] == changes@[3]@);
}

/// Whether an answer has an entry with the port and the ids at a place.
pub open spec fn shows_entry(
    fields: Seq<Seq<char>>,
    i: int,
    port: u8,
    vid: Seq<char>,
    pid: Seq<char>,
) -> bool {
    &&& 0 <= i
    &&& 3 * i + 3 < fields.len()
    &&& fields[3 * i + 1] == decimal_digits(port as nat)
    &&& fields[3 * i + 2] == vid
    &&& fields[3 * i + 3] == pid
}

/// A list of USB devices is read as it is written: the word `devices`, and
/// behind it port, vendor and product of each, in order.
pub proof fn law_usb_list_is_read_as_written(
    output: &str,
    out: Result<Vec<(u8, String, String)>, Error>,
    list: Seq<(u8, Seq<char>, Seq<char>)>,
)
    requires
        call_ensures(parse_usb_list, (output,), out),
        words(output@).len() == 3 * list.len() + 1,
        words(output@)[0] == "devices"@,
        forall|i: int|
            #![trigger list[i]]
            0 <= i < list.len() ==> shows_entry(
                words(output@),
                i,
                list[i].0,
                list[i].1,
                list[i].2,
            ),
    ensures
        out matches Ok(found) && found@.len() == list.len() && forall|i: int|
            #![trigger found@[i]]
            0 <= i < list.len() ==> found@[i].0 == list[i].0 && found@[i].1@ == list[i].1
                && found@[i].2@ == list[i].2,
{
    let fields = words(output@);
    assert forall|i: int| 0 <= i < list.len() implies #[trigger] listed_port(fields, i) == Some(
        list[i].0 as nat,
    ) by {
        assert(shows_entry(fields, i, list[i].0, list[i].1, list[i].2));
        law_written_is_read_back(list[i].0 as nat, 10, 0, 255);
    }
    assert(!has_bad_port(fields)) by {
        if has_bad_port(fields) {
            let i = choose|i: int|
                0 <= 3 * i < fields.len() - 1 && #[trigger] listed_port(fields, i) is None;
            assert(i < list.len());
        }
    }
    match out {
        Ok(found) => {
            assert forall|i: int|
                #![trigger found@[i]]
                0 <= i < list.len() implies found@[i].0 == list[i].0 && found@[i].1@ == list[i].1
                && found@[i].2@ == list[i].2 by {
                assert(shows_entry(fields, i, list[i].0, list[i].1, list[i].2));
                assert(listed_port(fields, i) == Some(list[i].0 as nat));
            }
        },
        Err(_) => {},
    }
}

/// What is no list of USB devices is refused: an answer that does not start
/// with `devices`, or with words left over.
pub proof fn law_malformed_usb_lists_are_refused(
    output: &str,
    out: Result<Vec<(u8, String, String)>, Error>,
)
    requires
        call_ensures(parse_usb_list, (output,), out),
    ensures
        words(output@).len() == 0 || words(output@)[0] != "devices"@ || words(output@).len() % 3
            != 1 ==> (out matches Err(error) && error is MalformedUsbList),
        out matches Ok(found) ==> words(output@).len() == 3 * found@.len() + 1,
{
}

/// What an attach command was answered: a port that is named is taken, without
/// one the list has to tell it, a machine without a free port is tried again
/// until it was offered the device six times, and any other answer is a
/// failure.
pub proof fn law_attach_answers(
    task: UsbAttaching,
    output: &str,
    step: UsbAttachStep,
    port: u8,
)
    requires
        call_ensures(UsbAttaching::answered, (task, output), step),
    ensures
        words(output@).len() >= 2 && words(output@)[0] == "ok"@ && words(output@)[1]
            == decimal_digits(port as nat) ==> step == UsbAttachStep::Attached(port),
        words(output@).len() == 1 && words(output@)[0] == "ok"@ ==> step
            == UsbAttachStep::Identify(task),
        words(output@).len() == 0 ==> step is Failed,
        words(output@).len() > 0 && words(output@)[0] != "ok"@ && words(output@)[0]
            != "no_available_port"@ ==> (step matches UsbAttachStep::Failed(error)
            && error is UnexpectedAttach),
        words(output@).len() > 0 && words(output@)[0] == "no_available_port"@ && task.attempt < 5
            ==> (step matches UsbAttachStep::Wait(next) && next.attempt == task.attempt + 1
            && next.before == task.before),
        words(output@).len() > 0 && words(output@)[0] == "no_available_port"@ && task.attempt >= 5
            ==> step == UsbAttachStep::Failed(Error::NoFreePort),
        step is Attached || step is Identify ==> words(output@).len() > 0 && words(output@)[0]
            == "ok"@,
{
    reveal_strlit("ok");
    reveal_strlit("no_available_port");
    assert("ok"@.len() != "no_available_port"@.len());
    law_written_is_read_back(port as nat, 10, 0, 255);
}

/// The port of a device that was attached is the only one of the list that was
/// not in use before; where there is none or more than one it is not known.
pub proof fn law_new_port_is_the_only_one(
    before: &Vec<(u8, String, String)>,
    start: UsbAttaching,
    task: UsbAttaching,
    after: &Vec<(u8, String, String)>,
    out: Result<u8, Error>,
)
    requires
        call_ensures(UsbAttaching::new, (before,), start),
        call_ensures(UsbAttaching::listed, (task, after), out),
    ensures
        start.attempt == 0,
        start.before@.len() == before@.len(),
        forall|i: int| 0 <= i < before@.len() ==> start.before@[i] == (#[trigger] before@[i]).0,
        out is Err ==> out->Err_0 is NoNewPort,
        forall|i: int|
            #![trigger after@[i]]
            0 <= i < after@.len() && !task.before@.contains(after@[i].0) && (forall|k: int|
                #![trigger after@[k]]
                0 <= k < after@.len() && k != i ==> task.before@.contains(after@[k].0)) ==> out
                == Ok::<u8, Error>(after@[i].0),
        out matches Ok(port) ==> !task.before@.contains(port) && exists|i: int|
            #![trigger after@[i]]
            0 <= i < after@.len() && after@[i].0 == port,
        forall|i: int, k: int|
            #![trigger after@[i], after@[k]]
            0 <= i < k < after@.len() && !task.before@.contains(after@[i].0)
                && !task.before@.contains(after@[k].0) ==> out is Err,
{
    let keep = |item: (u8, String, String)| !task.before@.contains(item.0);
    let places = lemma_filter_places(after@, keep);
    let new = added(task.before@, after@);
    if new.len() > 0 {
        assert(places.contains(places[0]));
        assert(keep(after@[places[0]]));
        assert(new[0] == after@[places[0]]);
    }
    if new.len() > 1 {
        assert(places.contains(places[1]));
        assert(keep(after@[places[1]]));
        assert(places[0] < places[1]);
    }
    assert forall|i: int|
        #![trigger after@[i]]
        0 <= i < after@.len() && keep(after@[i]) && (forall|k: int|
            #![trigger after@[k]]
            0 <= k < after@.len() && k != i ==> !keep(after@[k])) implies out == Ok::<u8, Error>(
        after@[i].0,
    ) by {
        assert(places.contains(i));
        let m = choose|m: int| 0 <= m < places.len() && places[m] == i;
        assert(new.len() == 1);
        assert(places[0] == i);
    }
    assert forall|i: int, k: int|
        #![trigger after@[i], after@[k]]
        0 <= i < k < after@.len() && keep(after@[i]) && keep(after@[k]) implies out is Err by {
        assert(places.contains(i));
        assert(places.contains(k));
        let m = choose|m: int| 0 <= m < places.len() && places[m] == i;
        let n = choose|n: int| 0 <= n < places.len() && places[n] == k;
        assert(m != n);
    }
}

/// A detachment counts as done exactly where the answer starts with `ok`.
pub proof fn law_detach_answers(output: &str, out: Result<(), Error>)
    requires
        call_ensures(parse_usb_detach, (output,), out),
    ensures
        out is Ok <==> words(output@).len() > 0 && words(output@)[0] == "ok"@,
        out is Err ==> out->Err_0 is UnexpectedDetach,
{
}

/// A list of PCI devices is read exactly where it starts with `devices` and
/// all that follows are paths of PCI devices, and it holds those, in order.
pub proof fn law_pci_lists(output: &str, out: Result<Vec<String>, Error>)
    requires
        call_ensures(parse_vfio_list, (output,), out),
    ensures
        out is Ok <==> words(output@).len() > 0 && words(output@)[0] == "devices"@ && forall|i: int|
            1 <= i < words(output@).len() ==> is_vfio_entry(#[trigger] words(output@)[i]),
        out matches Ok(found) ==> found@.len() == words(output@).len() - 1 && forall|i: int|
            0 <= i < found@.len() ==> #[trigger] found@[i]@ == words(output@)[i + 1],
{
    match out {
        Ok(found) => {
            assert(views(found@).len() == found@.len());
            assert forall|i: int| 0 <= i < found@.len() implies #[trigger] found@[i]@ == words(
                output@,
            )[i + 1] by {
                assert(views(found@)[i] == words(output@).skip(1)[i]);
            }
        },
        Err(_) => {},
    }
}

/// The path of a PCI device is the directory of PCI devices and an address:
/// four, two and two hexadecimal digits and an octal one, with their marks
/// between them.
pub proof fn law_pci_paths(text: &str, r: bool, address: Seq<char>)
    requires
        call_ensures(is_vfio_path, (text,), r),
        text@ == "/sys/bus/pci/devices/"@ + address,
    ensures
        r <==> address.len() == 12 && (forall|i: int|
            0 <= i < 12 ==> if i == 4 || i == 7 {
                #[trigger] address[i] == ':'
            } else if i == 10 {
                address[i] == '.'
            } else if i == 11 {
                '0' <= address[i] <= '7'
            } else {
                '0' <= address[i] <= '9' || 'a' <= address[i] <= 'f' || 'A' <= address[i] <= 'F'
            }),
        r <==> is_vfio_entry(text@),
        vfio_path(address) == text@,
{
    let dir = "/sys/bus/pci/devices/"@;
    assert(text@.take(dir.len() as int) =~= dir);
    assert(text@.skip(dir.len() as int) =~= address);
    if address.len() == 12 && is_pci_address(address) {
        assert forall|i: int| 0 <= i < 12 implies if i == 4 || i == 7 {
            #[trigger] address[i] == ':'
        } else if i == 10 {
            address[i] == '.'
        } else if i == 11 {
            '0' <= address[i] <= '7'
        } else {
            '0' <= address[i] <= '9' || 'a' <= address[i] <= 'f' || 'A' <= address[i] <= 'F'
        } by {
            assert(i == 0 || i == 1 || i == 2 || i == 3 || i == 4 || i == 5 || i == 6 || i == 7
                || i == 8 || i == 9 || i == 10 || i == 11);
        }
    }
}

/// A command is needed exactly where a machine does not have what is added, or
/// has what is removed. After it the list is looked at until it shows the
/// change, six times at most.
pub proof fn law_changes_are_seen_through(
    change: &VfioChange,
    live: &Vec<String>,
    needed: bool,
    task: VfioChange,
    step: VfioStep,
    address: &str,
    adds: VfioChange,
    removes: VfioChange,
)
    requires
        call_ensures(VfioChange::needed, (change, live), needed),
        call_ensures(VfioChange::listed, (task, live), step),
        call_ensures(VfioChange::add, (address,), adds),
        call_ensures(VfioChange::remove, (address,), removes),
    ensures
        ({
            let there = exists|i: int| 0 <= i < live@.len() && (#[trigger] live@[i])@ == change.path@;
            needed <==> change.adding && !there || !change.adding && there
        }),
        ({
            let there = exists|i: int| 0 <= i < live@.len() && (#[trigger] live@[i])@ == task.path@;
            let shown = there == task.adding;
            &&& step is Done <==> shown
            &&& !shown && task.attempt < 5 ==> (step matches VfioStep::Wait(next) && next.path
                == task.path && next.adding == task.adding && next.attempt == task.attempt + 1)
            &&& !shown && task.attempt >= 5 ==> step == VfioStep::Failed(
                if task.adding {
                    Error::VfioNotAdded(task.path)
                } else {
                    Error::VfioNotRemoved(task.path)
                },
            )
        }),
        adds.adding && adds.attempt == 0 && adds.path@ == "/sys/bus/pci/devices/"@ + address@,
        !removes.adding && removes.attempt == 0 && removes.path@ == "/sys/bus/pci/devices/"@
            + address@,
{
}

/// A PCI device that `vfio-pci` has is left alone. Any other is taken off its
/// driver, where it has one, then `vfio-pci` is made the only driver for it, and
/// last it is probed; without a bus that can be probed it fails at the end.
pub proof fn law_handing_over(
    address: &str,
    driver: Option<&str>,
    has_bus: bool,
    steps: Vec<BindStep>,
)
    requires
        call_ensures(bind_vfio, (address, driver, has_bus), steps),
    ensures
        steps@.len() == 0 <==> driver is Some && driver->0@ == "vfio-pci"@,
        driver is None ==> steps@.len() == 2,
        driver is Some && driver->0@ != "vfio-pci"@ ==> steps@.len() == 3 && (
        steps@[0] matches BindStep::Write { write, .. } && write.place is Devices && write.path@
            == address@ + "/driver/unbind"@ && write.value@ == address@),
        steps@.len() > 0 ==> (steps@[steps@.len() - 2] matches BindStep::Write { write, .. }
            && write.place is Devices && write.path@ == address@ + "/driver_override"@
            && write.value@ == "vfio-pci"@),
        steps@.len() > 0 && has_bus ==> (steps@.last() matches BindStep::Write { write, .. }
            && write.place is Bus && write.path@ == "drivers_probe"@ && write.value@ == address@),
        steps@.len() > 0 && !has_bus ==> steps@.last() == BindStep::Fail(Error::InvalidPciRoot),
{
}

/// An answer that is not understood is part of the report, without the white
/// space around it.
pub proof fn law_strange_answers_are_reported(
    output: &str,
    devices: Result<Vec<(u8, String, String)>, Error>,
    paths: Result<Vec<String>, Error>,
    off: Result<(), Error>,
    task: UsbAttaching,
    on: UsbAttachStep,
    text: String,
)
    requires
        call_ensures(parse_usb_list, (output,), devices),
        call_ensures(parse_vfio_list, (output,), paths),
        call_ensures(parse_usb_detach, (output,), off),
        call_ensures(UsbAttaching::answered, (task, output), on),
        call_ensures(trim, (output,), text),
    ensures
        devices matches Err(error) ==> error is InvalidUsbPort || (
        error matches Error::MalformedUsbList(said) && said@ == text@),
        paths matches Err(error) ==> if words(output@).len() > 0 && words(output@)[0]
            == "devices"@ {
            error is UnexpectedVfioEntry
        } else {
            error matches Error::MalformedVfioList(said) && said@ == text@
        },
        off matches Err(error) ==> (error matches Error::UnexpectedDetach(said) && said@ == text@),
        on matches UsbAttachStep::Failed(error) ==> error is NoFreePort || (
        error matches Error::UnexpectedAttach(said) && said@ == text@),
{
}

} // verus!
