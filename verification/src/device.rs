//! USB and PCI devices as the kernel describes them, and the block devices
//! that tell whether a USB device carries host storage.

use crate::number::{decimal_digits, digits, law_written_is_read_back, lemma_digits, padded};
use crate::number::{parse, parsed, to_digits, to_text};
use crate::order::{precedes, sort, sorts, text_precedes, Ranked};
use crate::order::{at_places, in_order, lemma_filter_places, taken_at};
use crate::order::{lemma_precedes_chain, lemma_precedes_total};
use crate::table::StringMap;
use crate::text::{before, behind, begins, contains, cut, join, joined, lines, lines_of};
use crate::text::{lemma_views_push, lists, opt, same, split_whitespace, starts_with};
use crate::text::{is_space, law_cut_at_the_first_mark, law_prefix_is_removed, lemma_cut_alike};
use crate::text::{law_joining, lemma_first_mark, lemma_trim_line};
use crate::text::{stripped, trim, trim_start_matches, trimmed, views, words};
use vstd::prelude::*;

verus! {

/// The characters of a file that may be missing or unreadable, without the
/// white space around them.
pub open spec fn content(file: Option<Seq<char>>) -> Option<Seq<char>> {
    match file {
        Some(text) => Some(trimmed(text)),
        None => None,
    }
}

/// The decimal number that an attribute file holds.
pub open spec fn decimal_content(file: Option<Seq<char>>) -> Option<nat> {
    match file {
        Some(text) => parsed(trimmed(text), 10, u32::MAX as nat),
        None => None,
    }
}

/// The hexadecimal number that an attribute file holds, with or without `0x`.
pub open spec fn hex_content(file: Option<Seq<char>>) -> Option<nat> {
    match file {
        Some(text) => parsed(stripped(trimmed(text), "0x"@), 16, u32::MAX as nat),
        None => None,
    }
}

/// An optional machine number as a mathematical one.
pub open spec fn nat_of(n: Option<u32>) -> Option<nat> {
    match n {
        Some(n) => Some(n as nat),
        None => None,
    }
}

/// The trimmed content of an attribute file.
pub fn read(file: &Option<String>) -> (out: Option<String>)
    ensures
        opt(out) == content(opt(*file)),
{
    match file {
        Some(text) => Some(trim(text.as_str())),
        None => None,
    }
}

/// The decimal number in an attribute file.
pub fn decimal(file: &Option<String>) -> (out: Option<u32>)
    ensures
        nat_of(out) == decimal_content(opt(*file)),
{
    match file {
        Some(text) => {
            let text = trim(text.as_str());
            parse(text.as_str(), 10, u32::MAX)
        },
        None => None,
    }
}

/// The hexadecimal number in an attribute file.
pub fn hex(file: &Option<String>) -> (out: Option<u32>)
    ensures
        nat_of(out) == hex_content(opt(*file)),
{
    match file {
        Some(text) => {
            let text = trim(text.as_str());
            let plain = trim_start_matches(text.as_str(), "0x");
            parse(plain.as_str(), 16, u32::MAX)
        },
        None => None,
    }
}

#[derive(Clone, Debug, PartialEq, Eq)]
pub struct UsbInterface {
    pub class: Option<u32>,
    pub subclass: Option<u32>,
    pub protocol: Option<u32>,
}

#[derive(Clone, Debug, PartialEq, Eq)]
pub struct UsbDevice {
    pub sys_name: String,
    pub device_node: Option<String>,
    pub bus: Option<u32>,
    pub port: Option<u32>,
    pub root_port: Option<u32>,
    pub vid: Option<String>,
    pub pid: Option<String>,
    pub vendor_name: Option<String>,
    pub product_name: Option<String>,
    pub serial: Option<String>,
    pub removable: Option<String>,
    pub device_class: Option<u32>,
    pub device_subclass: Option<u32>,
    pub device_protocol: Option<u32>,
    pub interfaces_text: Option<String>,
    pub interfaces: Vec<UsbInterface>,
    pub driver_paths: Vec<String>,
    pub modaliases: Vec<String>,
}

/// A text, or the word `None` in its place.
pub open spec fn or_none(value: Option<Seq<char>>) -> Seq<char> {
    match value {
        Some(text) => text,
        None => "None"@,
    }
}

/// The name under which state remembers a USB device.
pub open spec fn usb_id(device: UsbDevice) -> Seq<char> {
    "usb-"@ + or_none(opt(device.vid)) + ":"@ + or_none(opt(device.pid)) + ":"@ + or_none(
        opt(device.serial),
    )
}

fn append_or_none(out: &mut String, value: &Option<String>)
    ensures
        final(out)@ == old(out)@ + or_none(opt(*value)),
{
    match value {
        Some(text) => out.append(text.as_str()),
        None => out.append("None"),
    }
}

impl UsbDevice {
    /// The name under which state remembers this device.
    pub fn persistent_id(&self) -> (id: String)
        ensures
            id@ == usb_id(*self),
    {
        let mut id = String::new();
        id.append("usb-");
        append_or_none(&mut id, &self.vid);
        id.append(":");
        append_or_none(&mut id, &self.pid);
        id.append(":");
        append_or_none(&mut id, &self.serial);
        assert(id@ =~= usb_id(*self));
        id
    }
}

#[derive(Clone, Debug, PartialEq, Eq)]
pub struct PciDevice {
    pub address: String,
    pub driver: Option<String>,
    pub vendor_id: Option<u32>,
    pub device_id: Option<u32>,
    pub vendor_id_text: Option<String>,
    pub device_id_text: Option<String>,
    pub vendor_name: Option<String>,
    pub device_name: Option<String>,
    pub class: Option<u32>,
    pub subclass: Option<u32>,
    pub prog_if: Option<u32>,
    pub pci_subsystem_vendor_id: Option<String>,
    pub pci_subsystem_id: Option<String>,
}

/// The name under which state remembers a PCI device.
pub open spec fn pci_id(device: PciDevice) -> Seq<char> {
    "pci-"@ + device.address@
}

impl PciDevice {
    /// The name under which state remembers this device.
    pub fn persistent_id(&self) -> (id: String)
        ensures
            id@ == pci_id(*self),
    {
        let mut id = String::new();
        id.append("pci-");
        id.append(self.address.as_str());
        assert(id@ =~= pci_id(*self));
        id
    }
}

impl Ranked for UsbDevice {
    open spec fn upto(&self, other: &Self) -> bool {
        precedes(self.sys_name@, other.sys_name@)
    }

    proof fn upto_total(a: &Self, b: &Self) {
        lemma_precedes_total(a.sys_name@, b.sys_name@);
    }

    proof fn upto_chain(a: &Self, b: &Self, c: &Self) {
        lemma_precedes_chain(a.sys_name@, b.sys_name@, c.sys_name@);
    }

    fn is_upto(&self, other: &Self) -> (r: bool) {
        text_precedes(self.sys_name.as_str(), other.sys_name.as_str())
    }
}

impl Ranked for PciDevice {
    open spec fn upto(&self, other: &Self) -> bool {
        precedes(self.address@, other.address@)
    }

    proof fn upto_total(a: &Self, b: &Self) {
        lemma_precedes_total(a.address@, b.address@);
    }

    proof fn upto_chain(a: &Self, b: &Self, c: &Self) {
        lemma_precedes_chain(a.address@, b.address@, c.address@);
    }

    fn is_upto(&self, other: &Self) -> (r: bool) {
        text_precedes(self.address.as_str(), other.address.as_str())
    }
}

/// What sysfs shows of one directory entry that may be a USB device. Files
/// are given as read, `None` where that failed.
#[derive(Debug)]
pub struct UsbSource {
    pub sys_name: String,
    pub has_vendor: bool,
    pub has_bus: bool,
    pub backs_host_storage: bool,
    pub busnum: Option<String>,
    pub devnum: Option<String>,
    pub id_vendor: Option<String>,
    pub id_product: Option<String>,
    pub manufacturer: Option<String>,
    pub product: Option<String>,
    pub serial: Option<String>,
    pub removable: Option<String>,
    pub device_class: Option<String>,
    pub device_subclass: Option<String>,
    pub device_protocol: Option<String>,
    /// The vendor and product names that the hardware database has.
    pub hwdb_vendor: Option<String>,
    pub hwdb_product: Option<String>,
}

/// What sysfs shows of one directory entry that may be a USB interface.
#[derive(Debug)]
pub struct InterfaceSource {
    pub name: String,
    pub class: Option<String>,
    pub subclass: Option<String>,
    pub protocol: Option<String>,
    /// The resolved path of the bound driver.
    pub driver: Option<String>,
    pub modalias: Option<String>,
}

/// What `str::to_uppercase` gives for a text.
pub uninterp spec fn uppercase_of(text: Seq<char>) -> Seq<char>;

/// `str::to_uppercase`: the upper case of a text by the Unicode tables, which
/// depends on nothing but the text. The result is only named here.
#[verifier::external_body]
fn to_uppercase(text: &str) -> (out: String)
    ensures
        out@ == uppercase_of(text@),
{
    text.to_uppercase()
}

/// The hardware database key of a vendor and product id in upper case.
pub fn hwdb_modalias(vid: &str, pid: &str) -> (out: String)
    ensures
        out@ == "usb:v"@ + vid@ + "p"@ + pid@,
{
    let mut out = String::new();
    out.append("usb:v");
    out.append(vid);
    out.append("p");
    out.append(pid);
    assert(out@ =~= "usb:v"@ + vid@ + "p"@ + pid@);
    out
}

/// The hardware database key to look a device's names up by; none where the
/// vendor or the product id cannot be read.
pub fn hwdb_names(id_vendor: &Option<String>, id_product: &Option<String>) -> (out: Option<String>)
    ensures
        opt(out) == match (content(opt(*id_vendor)), content(opt(*id_product))) {
            (Some(vid), Some(pid)) => Some(
                "usb:v"@ + uppercase_of(vid) + "p"@ + uppercase_of(pid),
            ),
            _ => None,
        },
{
    match (read(id_vendor), read(id_product)) {
        (Some(vid), Some(pid)) => {
            let vid = to_uppercase(vid.as_str());
            let pid = to_uppercase(pid.as_str());
            Some(hwdb_modalias(vid.as_str(), pid.as_str()))
        },
        _ => None,
    }
}

/// The path of a device node from the numbers of its bus and device.
pub open spec fn node_path(bus: nat, port: nat) -> Seq<char> {
    "/dev/bus/usb/"@ + padded(decimal_digits(bus), 3) + "/"@ + padded(decimal_digits(port), 3)
}

fn device_node(bus: u32, port: u32) -> (out: String)
    ensures
        out@ == node_path(bus as nat, port as nat),
{
    let mut out = String::new();
    out.append("/dev/bus/usb/");
    out.append(to_digits(bus as u64, 10, 3).as_str());
    out.append("/");
    out.append(to_digits(port as u64, 10, 3).as_str());
    assert(out@ =~= node_path(bus as nat, port as nat));
    out
}

/// The port on the root hub that a name such as `1-2.3` gives.
pub open spec fn root_port_of(sys_name: Seq<char>) -> Option<nat> {
    match behind(sys_name, '-') {
        Some(ports) => parsed(before(ports, '.'), 10, u32::MAX as nat),
        None => None,
    }
}

fn root_port(sys_name: &str) -> (out: Option<u32>)
    ensures
        nat_of(out) == root_port_of(sys_name@),
{
    match cut(sys_name, '-').1 {
        Some(ports) => {
            let first = cut(ports.as_str(), '.').0;
            parse(first.as_str(), 10, u32::MAX)
        },
        None => None,
    }
}

/// Whether an entry is an interface of the named device.
pub open spec fn is_child(sys_name: Seq<char>, entry: InterfaceSource) -> bool {
    begins(entry.name@, sys_name + ":"@)
}

/// The interfaces of the named device among the directory entries.
pub open spec fn children(
    sys_name: Seq<char>,
    entries: Seq<InterfaceSource>,
) -> Seq<InterfaceSource> {
    entries.filter(|entry: InterfaceSource| is_child(sys_name, entry))
}

/// The texts that are present, in order.
pub open spec fn somes(list: Seq<Option<Seq<char>>>) -> Seq<Seq<char>>
    decreases list.len(),
{
    if list.len() == 0 {
        Seq::empty()
    } else {
        match list.last() {
            Some(text) => somes(list.drop_last()).push(text),
            None => somes(list.drop_last()),
        }
    }
}

/// Whether `interface` holds the class codes of `entry`.
pub open spec fn describes_interface(entry: InterfaceSource, interface: UsbInterface) -> bool {
    &&& nat_of(interface.class) == hex_content(opt(entry.class))
    &&& nat_of(interface.subclass) == hex_content(opt(entry.subclass))
    &&& nat_of(interface.protocol) == hex_content(opt(entry.protocol))
}

pub open spec fn describes_interfaces(
    found: Seq<InterfaceSource>,
    interfaces: Seq<UsbInterface>,
) -> bool {
    &&& interfaces.len() == found.len()
    &&& forall|i: int|
        0 <= i < found.len() ==> describes_interface(found[i], #[trigger] interfaces[i])
}

pub open spec fn drivers_of(found: Seq<InterfaceSource>) -> Seq<Seq<char>> {
    somes(Seq::new(found.len(), |i: int| opt(found[i].driver)))
}

pub open spec fn modaliases_of(found: Seq<InterfaceSource>) -> Seq<Seq<char>> {
    somes(Seq::new(found.len(), |i: int| content(opt(found[i].modalias))))
}

/// A class code as two hexadecimal digits or more; zero where it is unknown.
pub open spec fn code_text(code: Option<u32>) -> Seq<char> {
    padded(
        digits(
            match code {
                Some(n) => n as nat,
                None => 0,
            },
            16,
        ),
        2,
    )
}

pub open spec fn interface_text(interface: UsbInterface) -> Seq<char> {
    code_text(interface.class) + code_text(interface.subclass) + code_text(interface.protocol)
}

/// The class codes of all interfaces between colons; none without interfaces.
pub open spec fn interfaces_text_of(interfaces: Seq<UsbInterface>) -> Option<Seq<char>> {
    if interfaces.len() == 0 {
        None
    } else {
        Some(
            ":"@ + joined(
                Seq::new(interfaces.len(), |i: int| interface_text(interfaces[i])),
                ":"@,
            ) + ":"@,
        )
    }
}

fn append_code(out: &mut String, code: Option<u32>)
    ensures
        final(out)@ == old(out)@ + code_text(code),
{
    let n: u32 = match code {
        Some(n) => n,
        None => 0,
    };
    let text = to_digits(n as u64, 16, 2);
    out.append(text.as_str());
}

fn interfaces_text(interfaces: &Vec<UsbInterface>) -> (out: Option<String>)
    ensures
        opt(out) == interfaces_text_of(interfaces@),
{
    if interfaces.len() == 0 {
        return None;
    }
    let mut parts: Vec<String> = Vec::new();
    let ghost texts = Seq::new(interfaces.len() as nat, |i: int| interface_text(interfaces@[i]));
    let mut i: usize = 0;
    while i < interfaces.len()
        invariant
            i <= interfaces.len(),
            texts == Seq::new(interfaces.len() as nat, |i: int| interface_text(interfaces@[i])),
            views(parts@) == texts.take(i as int),
        decreases interfaces.len() - i,
    {
        let ghost done = parts@;
        let mut part = String::new();
        append_code(&mut part, interfaces[i].class);
        append_code(&mut part, interfaces[i].subclass);
        append_code(&mut part, interfaces[i].protocol);
        assert(part@ =~= interface_text(interfaces@[i as int]));
        parts.push(part);
        proof {
            lemma_views_push(done, part);
        }
        assert(texts.take(i + 1) =~= texts.take(i as int).push(part@));
        i += 1;
    }
    assert(texts.take(interfaces.len() as int) =~= texts);
    let mut out = String::new();
    out.append(":");
    out.append(join(&parts, ":").as_str());
    out.append(":");
    assert(out@ =~= ":"@ + joined(texts, ":"@) + ":"@);
    Some(out)
}

/// The first text that is present.
pub open spec fn first_of(a: Option<Seq<char>>, b: Option<Seq<char>>) -> Option<Seq<char>> {
    if a is Some {
        a
    } else {
        b
    }
}

/// The name of a device that nothing names.
pub open spec fn plain_name(vid: Option<Seq<char>>, pid: Option<Seq<char>>) -> Option<Seq<char>> {
    match (vid, pid) {
        (Some(vid), Some(pid)) => Some("USB device "@ + vid + ":"@ + pid),
        _ => None,
    }
}

fn plain_product(vid: &Option<String>, pid: &Option<String>) -> (out: Option<String>)
    ensures
        opt(out) == plain_name(opt(*vid), opt(*pid)),
{
    match (vid, pid) {
        (Some(vid), Some(pid)) => {
            let mut out = String::new();
            out.append("USB device ");
            out.append(vid.as_str());
            out.append(":");
            out.append(pid.as_str());
            assert(out@ =~= "USB device "@ + vid@ + ":"@ + pid@);
            Some(out)
        },
        _ => None,
    }
}

/// Whether `device` is what the files of `source` and the entries of the
/// directory say. Names from the hardware database come before the device's
/// own.
pub open spec fn describes_usb(
    source: UsbSource,
    entries: Seq<InterfaceSource>,
    device: UsbDevice,
) -> bool {
    let found = children(source.sys_name@, entries);
    let vid = content(opt(source.id_vendor));
    let pid = content(opt(source.id_product));
    &&& device.sys_name@ == source.sys_name@
    &&& nat_of(device.bus) == decimal_content(opt(source.busnum))
    &&& nat_of(device.port) == decimal_content(opt(source.devnum))
    &&& opt(device.device_node) == match (device.bus, device.port) {
        (Some(bus), Some(port)) => Some(node_path(bus as nat, port as nat)),
        _ => None,
    }
    &&& nat_of(device.root_port) == root_port_of(source.sys_name@)
    &&& opt(device.vid) == vid
    &&& opt(device.pid) == pid
    &&& opt(device.vendor_name) == first_of(
        opt(source.hwdb_vendor),
        content(opt(source.manufacturer)),
    )
    &&& opt(device.product_name) == first_of(
        opt(source.hwdb_product),
        first_of(content(opt(source.product)), plain_name(vid, pid)),
    )
    &&& opt(device.serial) == content(opt(source.serial))
    &&& opt(device.removable) == content(opt(source.removable))
    &&& nat_of(device.device_class) == hex_content(opt(source.device_class))
    &&& nat_of(device.device_subclass) == hex_content(opt(source.device_subclass))
    &&& nat_of(device.device_protocol) == hex_content(opt(source.device_protocol))
    &&& describes_interfaces(found, device.interfaces@)
    &&& views(device.driver_paths@) == drivers_of(found)
    &&& views(device.modaliases@) == modaliases_of(found)
    &&& opt(device.interfaces_text) == interfaces_text_of(device.interfaces@)
}

/// Assembles a device from its files and the entries of its directory.
pub fn describe_usb(source: &UsbSource, entries: &Vec<InterfaceSource>) -> (device: UsbDevice)
    ensures
        describes_usb(*source, entries@, device),
{
    let mut prefix = source.sys_name.clone();
    prefix.append(":");
    let mut interfaces: Vec<UsbInterface> = Vec::new();
    let mut driver_paths: Vec<String> = Vec::new();
    let mut modaliases: Vec<String> = Vec::new();
    let ghost keep = |entry: InterfaceSource| is_child(source.sys_name@, entry);
    let mut i: usize = 0;
    proof {
        reveal(Seq::filter);
        assert(entries@.take(0).filter(keep) =~= Seq::<InterfaceSource>::empty());
        assert(views(driver_paths@) =~= drivers_of(entries@.take(0).filter(keep)));
        assert(views(modaliases@) =~= modaliases_of(entries@.take(0).filter(keep)));
    }
    while i < entries.len()
        invariant
            i <= entries.len(),
            prefix@ == source.sys_name@ + ":"@,
            keep == (|entry: InterfaceSource| is_child(source.sys_name@, entry)),
            describes_interfaces(entries@.take(i as int).filter(keep), interfaces@),
            views(driver_paths@) == drivers_of(entries@.take(i as int).filter(keep)),
            views(modaliases@) == modaliases_of(entries@.take(i as int).filter(keep)),
        decreases entries.len() - i,
    {
        let entry = &entries[i];
        let ghost head = entries@.take(i as int);
        let ghost found = head.filter(keep);
        let ghost next = entries@.take(i + 1);
        proof {
            reveal(Seq::filter);
            assert(next.drop_last() =~= head);
            assert(next.last() == *entry);
        }
        if starts_with(entry.name.as_str(), prefix.as_str()) {
            assert(next.filter(keep) == found.push(*entry));
            let ghost drivers = Seq::new(found.len(), |k: int| opt(found[k].driver));
            let ghost aliases = Seq::new(found.len(), |k: int| content(opt(found[k].modalias)));
            proof {
                let more = found.push(*entry);
                assert(Seq::new(more.len(), |k: int| opt(more[k].driver)) =~= drivers.push(
                    opt(entry.driver),
                ));
                assert(Seq::new(more.len(), |k: int| content(opt(more[k].modalias)))
                    =~= aliases.push(content(opt(entry.modalias))));
                assert(drivers.push(opt(entry.driver)).drop_last() =~= drivers);
                assert(aliases.push(content(opt(entry.modalias))).drop_last() =~= aliases);
            }
            interfaces.push(
                UsbInterface {
                    class: hex(&entry.class),
                    subclass: hex(&entry.subclass),
                    protocol: hex(&entry.protocol),
                },
            );
            match &entry.driver {
                Some(driver) => {
                    let ghost done = driver_paths@;
                    let driver = driver.clone();
                    driver_paths.push(driver);
                    proof {
                        lemma_views_push(done, driver);
                    }
                },
                None => {},
            }
            match read(&entry.modalias) {
                Some(modalias) => {
                    let ghost done = modaliases@;
                    modaliases.push(modalias);
                    proof {
                        lemma_views_push(done, modalias);
                    }
                },
                None => {},
            }
        } else {
            assert(next.filter(keep) == found);
        }
        i += 1;
    }
    assert(entries@.take(entries.len() as int) =~= entries@);
    let bus = decimal(&source.busnum);
    let port = decimal(&source.devnum);
    let device_node = match (bus, port) {
        (Some(bus), Some(port)) => Some(device_node(bus, port)),
        _ => None,
    };
    let vid = read(&source.id_vendor);
    let pid = read(&source.id_product);
    let vendor_name = match &source.hwdb_vendor {
        Some(name) => Some(name.clone()),
        None => read(&source.manufacturer),
    };
    let product_name = match &source.hwdb_product {
        Some(name) => Some(name.clone()),
        None => match read(&source.product) {
            Some(name) => Some(name),
            None => plain_product(&vid, &pid),
        },
    };
    let interfaces_text = interfaces_text(&interfaces);
    UsbDevice {
        sys_name: source.sys_name.clone(),
        device_node,
        bus,
        port,
        root_port: root_port(source.sys_name.as_str()),
        vid,
        pid,
        vendor_name,
        product_name,
        serial: read(&source.serial),
        removable: read(&source.removable),
        device_class: hex(&source.device_class),
        device_subclass: hex(&source.device_subclass),
        device_protocol: hex(&source.device_protocol),
        interfaces_text,
        interfaces,
        driver_paths,
        modaliases,
    }
}

/// Whether an entry of the USB directory is a device to manage: it has the
/// files of a device, and the host keeps no storage on it.
pub open spec fn is_listed(source: UsbSource) -> bool {
    source.has_vendor && source.has_bus && !source.backs_host_storage
}

pub open spec fn listed(sources: Seq<UsbSource>) -> Seq<UsbSource> {
    sources.filter(|source: UsbSource| is_listed(source))
}

/// Whether `devices` describe the listed entries one for one.
pub open spec fn describes_all_usb(
    sources: Seq<UsbSource>,
    entries: Seq<InterfaceSource>,
    devices: Seq<UsbDevice>,
) -> bool {
    &&& devices.len() == listed(sources).len()
    &&& forall|i: int|
        0 <= i < devices.len() ==> describes_usb(
            listed(sources)[i],
            entries,
            #[trigger] devices[i],
        )
}

/// The USB devices of a directory, sorted by name.
pub fn scan_usb(sources: &Vec<UsbSource>, entries: &Vec<InterfaceSource>) -> (out: Vec<UsbDevice>)
    ensures
        exists|devices: Seq<UsbDevice>| #[trigger]
            describes_all_usb(sources@, entries@, devices) && sorts(devices, out@),
{
    let mut devices: Vec<UsbDevice> = Vec::new();
    let mut i: usize = 0;
    proof {
        reveal(Seq::filter);
        assert(listed(sources@.take(0)) =~= Seq::<UsbSource>::empty());
    }
    while i < sources.len()
        invariant
            i <= sources.len(),
            describes_all_usb(sources@.take(i as int), entries@, devices@),
        decreases sources.len() - i,
    {
        let source = &sources[i];
        let ghost head = sources@.take(i as int);
        let ghost next = sources@.take(i + 1);
        proof {
            reveal(Seq::filter);
            assert(next.drop_last() =~= head);
            assert(next.last() == *source);
        }
        if source.has_vendor && source.has_bus && !source.backs_host_storage {
            assert(listed(next) == listed(head).push(*source));
            devices.push(describe_usb(source, entries));
        } else {
            assert(listed(next) == listed(head));
        }
        i += 1;
    }
    assert(sources@.take(sources.len() as int) =~= sources@);
    let ghost all = devices@;
    let out = sort(devices);
    assert(describes_all_usb(sources@, entries@, all));
    out
}

/// A block device: its number, the components of its place in the device
/// tree, and the block devices that it is built from.
#[derive(Debug)]
pub struct BlockDevice {
    pub device_id: String,
    pub sys_path: Vec<String>,
    pub slaves: Vec<String>,
    pub has_holders: bool,
}

/// Whether a path is a directory or lies below it.
pub open spec fn lies_in(path: Seq<Seq<char>>, dir: Seq<Seq<char>>) -> bool {
    dir.len() <= path.len() && path.take(dir.len() as int) == dir
}

/// Whether a block device sits on the USB device itself.
pub open spec fn sits_on(
    blocks: Map<Seq<char>, BlockDevice>,
    device: Seq<Seq<char>>,
    name: Seq<char>,
) -> bool {
    blocks.contains_key(name) && lies_in(views(blocks[name].sys_path@), device)
}

/// Whether a block device is built, in at most `steps` layers, on one that
/// sits on the USB device.
pub open spec fn built_on(
    blocks: Map<Seq<char>, BlockDevice>,
    device: Seq<Seq<char>>,
    name: Seq<char>,
    steps: nat,
) -> bool
    decreases steps,
{
    if steps == 0 {
        sits_on(blocks, device, name)
    } else {
        let fewer = (steps - 1) as nat;
        ||| built_on(blocks, device, name, fewer)
        ||| blocks.contains_key(name) && exists|k: int|
            0 <= k < blocks[name].slaves@.len() && built_on(
                blocks,
                device,
                (#[trigger] blocks[name].slaves@[k])@,
                fewer,
            )
    }
}

/// Whether a block device keeps its data on the USB device, through any
/// number of layers.
pub open spec fn stored_on(
    blocks: Map<Seq<char>, BlockDevice>,
    device: Seq<Seq<char>>,
    name: Seq<char>,
) -> bool {
    exists|steps: nat| built_on(blocks, device, name, steps)
}

/// Whether some block device that sits on the USB device is held by another.
pub open spec fn is_held(blocks: Map<Seq<char>, BlockDevice>, device: Seq<Seq<char>>) -> bool {
    exists|name: Seq<char>| #[trigger]
        sits_on(blocks, device, name) && blocks[name].has_holders
}

/// Whether the host uses storage on the USB device: one of its block devices
/// is held, or one that keeps its data there has a number in use.
pub open spec fn in_use(
    blocks: Map<Seq<char>, BlockDevice>,
    device: Seq<Seq<char>>,
    active: Seq<String>,
) -> bool {
    ||| is_held(blocks, device)
    ||| exists|name: Seq<char>| #[trigger]
        stored_on(blocks, device, name) && lists(active, blocks[name].device_id@)
}

/// A block device that keeps its data on the USB device is a known one.
proof fn lemma_stored_known(
    blocks: Map<Seq<char>, BlockDevice>,
    device: Seq<Seq<char>>,
    name: Seq<char>,
    steps: nat,
)
    requires
        built_on(blocks, device, name, steps),
    ensures
        blocks.contains_key(name),
    decreases steps,
{
    if steps > 0 && built_on(blocks, device, name, (steps - 1) as nat) {
        lemma_stored_known(blocks, device, name, (steps - 1) as nat);
    }
}

/// A set that holds what sits on the device, and what is built on anything
/// that it holds, holds everything that is stored there.
proof fn lemma_closed(
    blocks: Map<Seq<char>, BlockDevice>,
    device: Seq<Seq<char>>,
    found: Map<Seq<char>, ()>,
    name: Seq<char>,
    steps: nat,
)
    requires
        forall|other: Seq<char>| #[trigger]
            sits_on(blocks, device, other) ==> found.contains_key(other),
        forall|other: Seq<char>, k: int|
            blocks.contains_key(other) && 0 <= k < blocks[other].slaves@.len()
                && #[trigger] found.contains_key(blocks[other].slaves@[k]@) ==> found.contains_key(
                other,
            ),
        built_on(blocks, device, name, steps),
    ensures
        found.contains_key(name),
    decreases steps,
{
    if steps > 0 {
        let fewer = (steps - 1) as nat;
        if built_on(blocks, device, name, fewer) {
            lemma_closed(blocks, device, found, name, fewer);
        } else {
            let k = choose|k: int|
                0 <= k < blocks[name].slaves@.len() && built_on(
                    blocks,
                    device,
                    (#[trigger] blocks[name].slaves@[k])@,
                    fewer,
                );
            lemma_closed(blocks, device, found, blocks[name].slaves@[k]@, fewer);
        }
    } else {
        assert(sits_on(blocks, device, name));
    }
}

fn is_within(path: &Vec<String>, dir: &Vec<String>) -> (r: bool)
    ensures
        r == lies_in(views(path@), views(dir@)),
{
    if dir.len() > path.len() {
        return false;
    }
    let mut i: usize = 0;
    while i < dir.len()
        invariant
            i <= dir.len() <= path.len(),
            forall|k: int| 0 <= k < i ==> #[trigger] path@[k]@ == dir@[k]@,
        decreases dir.len() - i,
    {
        if !same(path[i].as_str(), dir[i].as_str()) {
            assert(views(path@).take(dir.len() as int)[i as int] != views(dir@)[i as int]);
            return false;
        }
        i += 1;
    }
    assert(views(path@).take(dir.len() as int) =~= views(dir@));
    true
}

fn any_known(names: &Vec<String>, found: &StringMap<()>) -> (r: bool)
    ensures
        r == exists|k: int|
            0 <= k < names@.len() && found@.contains_key(#[trigger] names@[k]@),
{
    let mut i: usize = 0;
    while i < names.len()
        invariant
            i <= names.len(),
            forall|k: int| 0 <= k < i ==> !found@.contains_key(#[trigger] names@[k]@),
        decreases names.len() - i,
    {
        if found.contains_key(names[i].as_str()) {
            return true;
        }
        i += 1;
    }
    false
}

/// Whether the host uses storage on a USB device: directly, through a device
/// that is built on it, or because another device holds one of its disks.
pub fn usb_backs_active_storage(
    device: &Vec<String>,
    blocks: &StringMap<BlockDevice>,
    active_device_ids: &Vec<String>,
) -> (r: bool)
    ensures
        r == in_use(blocks@, views(device@), active_device_ids@),
{
    let names = blocks.keys();
    let ghost dir = views(device@);
    let mut backing: StringMap<()> = StringMap::new();
    let mut pending: Vec<String> = Vec::new();
    let mut i: usize = 0;
    while i < names.len()
        invariant
            i <= names.len(),
            dir == views(device@),
            forall|name: Seq<char>| lists(names@, name) <==> #[trigger] blocks@.contains_key(name),
            forall|name: Seq<char>| #[trigger]
                backing@.contains_key(name) ==> sits_on(blocks@, dir, name)
                    && !blocks@[name].has_holders,
            forall|k: int|
                0 <= k < i ==> backing@.contains_key((#[trigger] names@[k])@) || lists(
                    pending@,
                    names@[k]@,
                ) && !sits_on(blocks@, dir, names@[k]@),
            forall|k: int|
                0 <= k < pending@.len() ==> blocks@.contains_key((#[trigger] pending@[k])@),
        decreases names.len() - i,
    {
        let name = &names[i];
        assert(lists(names@, name@));
        match blocks.get(name.as_str()) {
            Some(block) => {
                if is_within(&block.sys_path, device) {
                    assert(sits_on(blocks@, dir, name@));
                    if block.has_holders {
                        return true;
                    }
                    backing.insert(name.as_str(), ());
                } else {
                    let ghost before = pending@;
                    let name = name.clone();
                    pending.push(name);
                    assert(pending@[before.len() as int]@ == names@[i as int]@);
                    assert forall|k: int|
                        0 <= k < i && lists(before, (#[trigger] names@[k])@) implies lists(
                        pending@,
                        names@[k]@,
                    ) by {
                        let at = choose|at: int|
                            0 <= at < before.len() && #[trigger] before[at]@ == names@[k]@;
                        assert(pending@[at]@ == names@[k]@);
                    }
                }
            },
            None => {},
        }
        i += 1;
    }
    assert forall|name: Seq<char>| blocks@.contains_key(name) implies backing@.contains_key(name)
        || lists(pending@, name) && !sits_on(blocks@, dir, name) by {
        assert(lists(names@, name));
        let k = choose|k: int| 0 <= k < names@.len() && #[trigger] names@[k]@ == name;
        assert(names@[k]@ == name);
    }
    assert(!is_held(blocks@, dir)) by {
        if is_held(blocks@, dir) {
            let name = choose|name: Seq<char>| #[trigger]
                sits_on(blocks@, dir, name) && blocks@[name].has_holders;
            assert(blocks@.contains_key(name));
        }
    }
    assert forall|name: Seq<char>| #[trigger] backing@.contains_key(name) implies stored_on(
        blocks@,
        dir,
        name,
    ) by {
        assert(built_on(blocks@, dir, name, 0));
    }
    loop
        invariant
            dir == views(device@),
            forall|name: Seq<char>| #[trigger]
                backing@.contains_key(name) ==> stored_on(blocks@, dir, name),
            forall|name: Seq<char>| #[trigger]
                blocks@.contains_key(name) ==> backing@.contains_key(name) || lists(
                    pending@,
                    name,
                ) && !sits_on(blocks@, dir, name),
            forall|k: int|
                0 <= k < pending@.len() ==> blocks@.contains_key((#[trigger] pending@[k])@),
        ensures
            forall|name: Seq<char>| #[trigger]
                backing@.contains_key(name) <==> stored_on(blocks@, dir, name),
        decreases pending.len(),
    {
        let mut rest: Vec<String> = Vec::new();
        let ghost start = backing@;
        let mut i: usize = 0;
        while i < pending.len()
            invariant
                i <= pending.len(),
                rest.len() <= i,
                rest.len() == i ==> backing@ == start && forall|k: int|
                    0 <= k < i ==> !(exists|j: int|
                        0 <= j < blocks@[(#[trigger] pending@[k])@].slaves@.len()
                            && start.contains_key(
                            #[trigger] blocks@[pending@[k]@].slaves@[j]@,
                        )),
                forall|name: Seq<char>| #[trigger]
                    backing@.contains_key(name) ==> stored_on(blocks@, dir, name),
                forall|name: Seq<char>|
                    start.contains_key(name) ==> #[trigger] backing@.contains_key(name),
                forall|k: int|
                    0 <= k < i ==> backing@.contains_key((#[trigger] pending@[k])@) || lists(
                        rest@,
                        pending@[k]@,
                    ),
                forall|k: int|
                    0 <= k < pending@.len() ==> blocks@.contains_key((#[trigger] pending@[k])@),
                forall|k: int|
                    0 <= k < rest@.len() ==> blocks@.contains_key((#[trigger] rest@[k])@),
            decreases pending.len() - i,
        {
            let name = &pending[i];
            let ghost known = backing@;
            assert(blocks@.contains_key(name@));
            match blocks.get(name.as_str()) {
                Some(block) => {
                    if any_known(&block.slaves, &backing) {
                        proof {
                            let j = choose|j: int|
                                0 <= j < block.slaves@.len() && known.contains_key(
                                    #[trigger] block.slaves@[j]@,
                                );
                            let slave = block.slaves@[j]@;
                            assert(stored_on(blocks@, dir, slave));
                            let steps = choose|steps: nat| built_on(blocks@, dir, slave, steps);
                            assert(built_on(blocks@, dir, slave, steps));
                            assert(built_on(blocks@, dir, blocks@[name@].slaves@[j]@, steps));
                            assert(built_on(blocks@, dir, name@, steps + 1));
                        }
                        backing.insert(name.as_str(), ());
                    } else {
                        let ghost before = rest@;
                        let copy = name.clone();
                        rest.push(copy);
                        assert(rest@[before.len() as int]@ == pending@[i as int]@);
                        assert forall|k: int|
                            0 <= k < i && lists(before, (#[trigger] pending@[k])@) implies lists(
                            rest@,
                            pending@[k]@,
                        ) by {
                            let at = choose|at: int|
                                0 <= at < before.len() && #[trigger] before[at]@ == pending@[k]@;
                            assert(rest@[at]@ == pending@[k]@);
                        }
                    }
                },
                None => {},
            }
            i += 1;
        }
        if rest.len() == pending.len() {
            proof {
                assert forall|name: Seq<char>| stored_on(
                    blocks@,
                    dir,
                    name,
                ) implies #[trigger] backing@.contains_key(name) by {
                    let steps = choose|steps: nat| built_on(blocks@, dir, name, steps);
                    assert forall|other: Seq<char>| #[trigger]
                        sits_on(blocks@, dir, other) implies backing@.contains_key(other) by {
                        assert(blocks@.contains_key(other));
                    }
                    assert forall|other: Seq<char>, k: int|
                        blocks@.contains_key(other) && 0 <= k < blocks@[other].slaves@.len()
                            && #[trigger] backing@.contains_key(
                            blocks@[other].slaves@[k]@,
                        ) implies backing@.contains_key(other) by {
                        if !backing@.contains_key(other) {
                            let at = choose|at: int|
                                0 <= at < pending@.len() && #[trigger] pending@[at]@ == other;
                            assert(pending@[at]@ == other);
                        }
                    }
                    lemma_closed(blocks@, dir, backing@, name, steps);
                }
            }
            break;
        }
        proof {
            assert forall|name: Seq<char>| #[trigger]
                blocks@.contains_key(name) implies backing@.contains_key(name) || lists(
                rest@,
                name,
            ) && !sits_on(blocks@, dir, name) by {
                if !start.contains_key(name) {
                    let at = choose|at: int|
                        0 <= at < pending@.len() && #[trigger] pending@[at]@ == name;
                    assert(pending@[at]@ == name);
                }
            }
        }
        pending = rest;
    }
    let found = backing.keys();
    let mut i: usize = 0;
    while i < found.len()
        invariant
            i <= found.len(),
            forall|name: Seq<char>| lists(found@, name) <==> #[trigger] backing@.contains_key(name),
            forall|name: Seq<char>| #[trigger]
                backing@.contains_key(name) <==> stored_on(blocks@, dir, name),
            dir == views(device@),
            forall|k: int|
                0 <= k < i ==> !lists(
                    active_device_ids@,
                    blocks@[(#[trigger] found@[k])@].device_id@,
                ),
        decreases found.len() - i,
    {
        let name = &found[i];
        proof {
            assert(lists(found@, name@));
            assert(backing@.contains_key(name@));
            assert(stored_on(blocks@, dir, name@));
            let steps = choose|steps: nat| built_on(blocks@, dir, name@, steps);
            lemma_stored_known(blocks@, dir, name@, steps);
        }
        match blocks.get(name.as_str()) {
            Some(block) => {
                if contains(active_device_ids, block.device_id.as_str()) {
                    return true;
                }
            },
            None => {},
        }
        i += 1;
    }
    assert forall|name: Seq<char>| #[trigger] stored_on(blocks@, dir, name) implies !lists(
        active_device_ids@,
        blocks@[name].device_id@,
    ) by {
        assert(lists(found@, name));
        let at = choose|at: int| 0 <= at < found@.len() && #[trigger] found@[at]@ == name;
        assert(found@[at]@ == name);
    }
    false
}

/// The major number in a device number: twelve bits above the lowest eight,
/// then the highest twenty.
pub fn linux_major(device: u64) -> (n: u64)
    ensures
        n == (device / 0x100) % 0x1000 + (device / 0x1000_0000_0000) * 0x1000,
{
    let n: u64 = ((device >> 8) & 0xfff) | ((device >> 32) & 0xffff_f000);
    assert(n == (device / 0x100) % 0x1000 + (device / 0x1000_0000_0000) * 0x1000) by (bit_vector)
        requires
            n == ((device >> 8) & 0xfff) | ((device >> 32) & 0xffff_f000),
    ;
    n
}

/// The minor number in a device number: the lowest eight bits, then the
/// twenty above the lowest twenty.
pub fn linux_minor(device: u64) -> (n: u64)
    ensures
        n == device % 0x100 + ((device / 0x10_0000) % 0x10_0000) * 0x100,
{
    let n: u64 = (device & 0xff) | ((device >> 12) & 0xfff_ff00);
    assert(n == device % 0x100 + ((device / 0x10_0000) % 0x10_0000) * 0x100) by (bit_vector)
        requires
            n == (device & 0xff) | ((device >> 12) & 0xfff_ff00),
    ;
    n
}

/// The major and minor number in a device number.
pub open spec fn device_numbers(device: u64) -> (nat, nat) {
    (
        ((device / 0x100) % 0x1000 + (device / 0x1000_0000_0000) * 0x1000) as nat,
        (device % 0x100 + ((device / 0x10_0000) % 0x10_0000) * 0x100) as nat,
    )
}

/// The device number that the kernel makes of a major and a minor number.
pub open spec fn device_number(major: u32, minor: u32) -> u64 {
    (((major as u64) & 0xfff) << 8) | (((major as u64) & 0xffff_f000) << 32) | ((minor as u64)
        & 0xff) | (((minor as u64) & 0xfff_ff00) << 12)
}

/// Reading a device number gives back the numbers that it was made of, for
/// every major number and every minor number of at most twenty-eight bits.
pub proof fn law_device_number(major: u32, minor: u32)
    requires
        minor < 0x1000_0000,
    ensures
        device_numbers(device_number(major, minor)) == (major as nat, minor as nat),
{
    let n = device_number(major, minor);
    assert((n / 0x100) % 0x1000 + (n / 0x1000_0000_0000) * 0x1000 == major) by (bit_vector)
        requires
            n == (((major as u64) & 0xfff) << 8) | (((major as u64) & 0xffff_f000) << 32) | ((
            minor as u64) & 0xff) | (((minor as u64) & 0xfff_ff00) << 12),
            minor < 0x1000_0000,
    ;
    assert(n % 0x100 + ((n / 0x10_0000) % 0x10_0000) * 0x100 == minor) by (bit_vector)
        requires
            n == (((major as u64) & 0xfff) << 8) | (((major as u64) & 0xffff_f000) << 32) | ((
            minor as u64) & 0xff) | (((minor as u64) & 0xfff_ff00) << 12),
            minor < 0x1000_0000,
    ;
}

/// What the file system says of a swap area: whether it is a block device,
/// the number of that device, and the number of the device that holds it.
#[derive(Debug)]
pub struct SwapArea {
    pub is_block_device: bool,
    pub rdev: u64,
    pub dev: u64,
}

/// The number of the device that a swap area uses.
pub open spec fn swap_device(area: SwapArea) -> u64 {
    if area.is_block_device {
        area.rdev
    } else {
        area.dev
    }
}

/// A device number as `major:minor`.
pub open spec fn device_id_text(device: u64) -> Seq<char> {
    decimal_digits(device_numbers(device).0) + ":"@ + decimal_digits(device_numbers(device).1)
}

/// The word at a place in a line, where there is one.
pub open spec fn word_at(line: Seq<char>, at: int) -> Option<Seq<char>> {
    if words(line).len() > at {
        Some(words(line)[at])
    } else {
        None
    }
}

/// The words at one place in each line that has one.
pub open spec fn column(lines: Seq<Seq<char>>, at: int) -> Seq<Seq<char>> {
    somes(Seq::new(lines.len(), |i: int| word_at(lines[i], at)))
}

fn column_of(lines: &Vec<String>, from: usize, at: usize) -> (out: Vec<String>)
    requires
        from <= lines.len(),
    ensures
        views(out@) == column(views(lines@).skip(from as int), at as int),
{
    let mut out: Vec<String> = Vec::new();
    let mut i: usize = from;
    let ghost all = views(lines@).skip(from as int);
    let ghost found = Seq::new(all.len(), |i: int| word_at(all[i], at as int));
    assert(views(out@) =~= Seq::<Seq<char>>::empty());
    while i < lines.len()
        invariant
            from <= i <= lines.len(),
            all == views(lines@).skip(from as int),
            found == Seq::new(all.len(), |i: int| word_at(all[i], at as int)),
            views(out@) == somes(found.take(i - from)),
        decreases lines.len() - i,
    {
        let mut line = split_whitespace(lines[i].as_str());
        assert(found.take(i + 1 - from).drop_last() =~= found.take(i - from));
        assert(found.take(i + 1 - from).last() == word_at(lines@[i as int]@, at as int));
        assert(views(line@).len() == line@.len());
        if at < line.len() {
            let ghost done = out@;
            assert(views(line@)[at as int] == line@[at as int]@);
            let word = line.remove(at);
            out.push(word);
            proof {
                lemma_views_push(done, word);
            }
        }
        i += 1;
    }
    assert(found.take(all.len() as int) =~= found);
    out
}

/// The swap areas that the kernel lists: the first word of each line but the
/// heading.
pub fn swap_sources(swaps: &str) -> (out: Vec<String>)
    ensures
        views(out@) == if lines_of(swaps@).len() == 0 {
            Seq::empty()
        } else {
            column(lines_of(swaps@).skip(1), 0)
        },
{
    let lines = lines(swaps);
    assert(views(lines@).len() == lines@.len());
    if lines.len() == 0 {
        let out: Vec<String> = Vec::new();
        assert(views(out@) =~= Seq::<Seq<char>>::empty());
        return out;
    }
    column_of(&lines, 1, 0)
}

/// The numbers of the devices that hold a mounted file system or an active
/// swap area.
pub open spec fn active_ids(mountinfo: Seq<char>, swaps: Seq<SwapArea>) -> Seq<Seq<char>> {
    column(lines_of(mountinfo), 2) + Seq::new(
        swaps.len(),
        |i: int| device_id_text(swap_device(swaps[i])),
    )
}

/// The numbers of the devices in use: the third word of each mount, and the
/// device of each swap area that could be examined.
pub fn active_host_storage_device_ids(mountinfo: &str, swaps: &Vec<SwapArea>) -> (out: Vec<String>)
    ensures
        views(out@) == active_ids(mountinfo@, swaps@),
{
    let lines = lines(mountinfo);
    let mut out = column_of(&lines, 0, 2);
    assert(views(lines@).skip(0) =~= views(lines@));
    let ghost mounts = column(lines_of(mountinfo@), 2);
    let ghost ids = Seq::new(swaps.len() as nat, |i: int| device_id_text(swap_device(swaps@[i])));
    let mut i: usize = 0;
    assert(views(out@) =~= mounts + ids.take(0));
    while i < swaps.len()
        invariant
            i <= swaps.len(),
            ids == Seq::new(
                swaps.len() as nat,
                |i: int| device_id_text(swap_device(swaps@[i])),
            ),
            views(out@) == mounts + ids.take(i as int),
        decreases swaps.len() - i,
    {
        let area = &swaps[i];
        let device: u64 = if area.is_block_device {
            area.rdev
        } else {
            area.dev
        };
        let mut id = to_text(linux_major(device));
        id.append(":");
        id.append(to_text(linux_minor(device)).as_str());
        assert(id@ =~= device_id_text(swap_device(swaps@[i as int])));
        let ghost done = out@;
        out.push(id);
        proof {
            lemma_views_push(done, id);
        }
        assert(mounts + ids.take(i + 1) =~= (mounts + ids.take(i as int)).push(id@));
        i += 1;
    }
    assert(ids.take(ids.len() as int) =~= ids);
    out
}

/// Whether the host keeps a mounted file system, swap or a held disk on a USB
/// device.
pub fn usb_backs_host_storage(
    device: &Vec<String>,
    blocks: &StringMap<BlockDevice>,
    mountinfo: &str,
    swaps: &Vec<SwapArea>,
) -> (r: bool)
    ensures
        exists|active: Seq<String>|
            views(active) == active_ids(mountinfo@, swaps@) && r == #[trigger] in_use(
                blocks@,
                views(device@),
                active,
            ),
{
    let active = active_host_storage_device_ids(mountinfo, swaps);
    usb_backs_active_storage(device, blocks, &active)
}

/// What sysfs shows of one PCI device. Files are given as read, `None` where
/// that failed.
#[derive(Debug)]
pub struct PciSource {
    pub address: String,
    /// The name of the bound driver.
    pub driver: Option<String>,
    pub vendor: Option<String>,
    pub device: Option<String>,
    pub class: Option<String>,
    pub subsystem_vendor: Option<String>,
    pub subsystem_device: Option<String>,
}

/// A number as four hexadecimal digits or more behind a label.
pub open spec fn hex_label(label: Seq<char>, n: Option<nat>) -> Option<Seq<char>> {
    match n {
        Some(n) => Some(label + padded(digits(n, 16), 4)),
        None => None,
    }
}

fn labelled(label: &str, n: Option<u32>) -> (out: Option<String>)
    ensures
        opt(out) == hex_label(label@, nat_of(n)),
{
    match n {
        Some(n) => {
            let mut out: String = label.to_owned();
            out.append(to_digits(n as u64, 16, 4).as_str());
            Some(out)
        },
        None => None,
    }
}

/// One byte of a number, counted from the lowest.
pub open spec fn byte_of(n: Option<nat>, place: nat) -> Option<nat> {
    match n {
        Some(n) => Some(
            if place == 0 {
                n % 256
            } else if place == 1 {
                (n / 256) % 256
            } else {
                (n / 65536) % 256
            },
        ),
        None => None,
    }
}

fn class_bytes(code: Option<u32>) -> (out: (Option<u32>, Option<u32>, Option<u32>))
    ensures
        nat_of(out.0) == byte_of(nat_of(code), 2),
        nat_of(out.1) == byte_of(nat_of(code), 1),
        nat_of(out.2) == byte_of(nat_of(code), 0),
{
    match code {
        Some(n) => {
            assert((n >> 16) & 0xff == (n / 65536) % 256) by (bit_vector);
            assert((n >> 8) & 0xff == (n / 256) % 256) by (bit_vector);
            assert(n & 0xff == n % 256) by (bit_vector);
            (Some((n >> 16) & 0xff), Some((n >> 8) & 0xff), Some(n & 0xff))
        },
        None => (None, None, None),
    }
}

/// Whether `device` is what the files of `source` say. The class code holds
/// class, subclass and programming interface in its three lowest bytes.
pub open spec fn describes_pci(source: PciSource, device: PciDevice) -> bool {
    let vendor = hex_content(opt(source.vendor));
    let product = hex_content(opt(source.device));
    let class = hex_content(opt(source.class));
    &&& device.address@ == source.address@
    &&& opt(device.driver) == opt(source.driver)
    &&& nat_of(device.vendor_id) == vendor
    &&& nat_of(device.device_id) == product
    &&& opt(device.vendor_id_text) == hex_label(""@, vendor)
    &&& opt(device.device_id_text) == hex_label(""@, product)
    &&& opt(device.vendor_name) == hex_label("PCI vendor "@, vendor)
    &&& opt(device.device_name) == hex_label("PCI device "@, product)
    &&& nat_of(device.class) == byte_of(class, 2)
    &&& nat_of(device.subclass) == byte_of(class, 1)
    &&& nat_of(device.prog_if) == byte_of(class, 0)
    &&& opt(device.pci_subsystem_vendor_id) == hex_label(
        ""@,
        hex_content(opt(source.subsystem_vendor)),
    )
    &&& opt(device.pci_subsystem_id) == hex_label(""@, hex_content(opt(source.subsystem_device)))
}

/// Assembles a PCI device from its files.
pub fn describe_pci(source: &PciSource) -> (device: PciDevice)
    ensures
        describes_pci(*source, device),
{
    let vendor_id = hex(&source.vendor);
    let device_id = hex(&source.device);
    let (class, subclass, prog_if) = class_bytes(hex(&source.class));
    PciDevice {
        address: source.address.clone(),
        driver: source.driver.clone(),
        vendor_id,
        device_id,
        vendor_id_text: labelled("", vendor_id),
        device_id_text: labelled("", device_id),
        vendor_name: labelled("PCI vendor ", vendor_id),
        device_name: labelled("PCI device ", device_id),
        class,
        subclass,
        prog_if,
        pci_subsystem_vendor_id: labelled("", hex(&source.subsystem_vendor)),
        pci_subsystem_id: labelled("", hex(&source.subsystem_device)),
    }
}

/// Whether `devices` describe the sources one for one.
pub open spec fn describes_all_pci(sources: Seq<PciSource>, devices: Seq<PciDevice>) -> bool {
    &&& devices.len() == sources.len()
    &&& forall|i: int|
        0 <= i < devices.len() ==> describes_pci(sources[i], #[trigger] devices[i])
}

/// The PCI devices of a directory, sorted by address.
pub fn scan_pci(sources: &Vec<PciSource>) -> (out: Vec<PciDevice>)
    ensures
        exists|devices: Seq<PciDevice>| #[trigger]
            describes_all_pci(sources@, devices) && sorts(devices, out@),
{
    let mut devices: Vec<PciDevice> = Vec::new();
    let mut i: usize = 0;
    while i < sources.len()
        invariant
            i == devices.len() <= sources.len(),
            forall|k: int| 0 <= k < i ==> describes_pci(sources@[k], #[trigger] devices@[k]),
        decreases sources.len() - i,
    {
        devices.push(describe_pci(&sources[i]));
        i += 1;
    }
    let ghost all = devices@;
    let out = sort(devices);
    assert(describes_all_pci(sources@, all));
    out
}

/// The members of a device's IOMMU group, sorted; none where the device is in
/// no group.
pub fn iommu_group(members: Option<Vec<String>>) -> (out: Vec<String>)
    ensures
        match members {
            Some(members) => sorts(members@, out@),
            None => out@.len() == 0,
        },
{
    match members {
        Some(members) => sort(members),
        None => Vec::new(),
    }
}

/// What a file holds is read without the white space at its end: a decimal
/// number as it is written, a hexadecimal one with `0x` before it or not. A
/// file that cannot be read holds nothing.
pub proof fn law_files_are_read(
    n: u32,
    file: &Option<String>,
    text: Option<String>,
    ten: Option<u32>,
    sixteen: Option<u32>,
)
    requires
        call_ensures(read, (file,), text),
        call_ensures(decimal, (file,), ten),
        call_ensures(hex, (file,), sixteen),
    ensures
        file is None ==> text is None && ten is None && sixteen is None,
        file is Some ==> text is Some && text->0@ == trimmed(file->0@),
        file is Some && file->0@ == decimal_digits(n as nat) + seq!['\n'] ==> ten == Some(n),
        file is Some && file->0@ == digits(n as nat, 16) + seq!['\n'] ==> sixteen == Some(n),
        file is Some && file->0@ == "0x"@ + digits(n as nat, 16) + seq!['\n'] ==> sixteen == Some(
            n,
        ),
{
    if file is Some {
        let tail = seq!['\n'];
        let plain = decimal_digits(n as nat);
        let small = digits(n as nat, 16);
        let long = "0x"@ + small;
        reveal_strlit("0x");
        lemma_digits(n as nat, 10);
        lemma_digits(n as nat, 16);
        law_written_is_read_back(n as nat, 10, 0, u32::MAX as nat);
        law_written_is_read_back(n as nat, 16, 0, u32::MAX as nat);
        assert(is_space('\n'));
        assert forall|i: int| 0 <= i < plain.len() implies !is_space(#[trigger] plain[i]) by {
            assert(plain[i] == digits(n as nat, 10)[i]);
        }
        assert forall|i: int| 0 <= i < small.len() implies !is_space(#[trigger] small[i]) by {}
        assert forall|i: int| 0 <= i < long.len() implies !is_space(#[trigger] long[i]) by {
            if i >= 2 {
                assert(long[i] == small[i - 2]);
            }
        }
        lemma_trim_line(plain, tail);
        lemma_trim_line(small, tail);
        lemma_trim_line(long, tail);
        law_prefix_is_removed(small, "0x"@);
        assert(!begins(small, "0x"@)) by {
            if begins(small, "0x"@) {
                assert(small.take(2)[1] == 'x');
                assert(small[1] == 'x');
            }
        }
    }
}

/// A device is remembered by its vendor, product and serial number alone: two
/// devices that have all three are remembered alike exactly where these agree.
pub proof fn law_usb_identity(one: &UsbDevice, other: &UsbDevice, a: String, b: String)
    requires
        call_ensures(UsbDevice::persistent_id, (one,), a),
        call_ensures(UsbDevice::persistent_id, (other,), b),
    ensures
        opt(one.vid) == opt(other.vid) && opt(one.pid) == opt(other.pid) && opt(one.serial) == opt(
            other.serial,
        ) ==> a@ == b@,
        one.vid is Some && one.pid is Some && one.serial is Some && other.vid is Some
            && other.pid is Some && other.serial is Some && !one.vid->0@.contains(':')
            && !one.pid->0@.contains(':') && !other.vid->0@.contains(':')
            && !other.pid->0@.contains(':') && a@ == b@ ==> one.vid->0@ == other.vid->0@
            && one.pid->0@ == other.pid->0@ && one.serial->0@ == other.serial->0@,
        a@ == usb_id(*one),
        begins(a@, "usb-"@),
{
    assert(a@.take("usb-"@.len() as int) =~= "usb-"@);
    if one.vid is Some && one.pid is Some && one.serial is Some && other.vid is Some
        && other.pid is Some && other.serial is Some && !one.vid->0@.contains(':')
        && !one.pid->0@.contains(':') && !other.vid->0@.contains(':') && !other.pid->0@.contains(
        ':',
    ) && a@ == b@ {
        reveal_strlit(":");
        let n = "usb-"@.len() as int;
        let x = one.vid->0@ + seq![':'] + (one.pid->0@ + seq![':'] + one.serial->0@);
        let y = other.vid->0@ + seq![':'] + (other.pid->0@ + seq![':'] + other.serial->0@);
        assert(a@.skip(n) =~= x);
        assert(b@.skip(n) =~= y);
        lemma_cut_alike(
            ':',
            one.vid->0@,
            one.pid->0@ + seq![':'] + one.serial->0@,
            other.vid->0@,
            other.pid->0@ + seq![':'] + other.serial->0@,
        );
        lemma_cut_alike(':', one.pid->0@, one.serial->0@, other.pid->0@, other.serial->0@);
    }
}

/// A PCI device is remembered by its address: two are remembered alike exactly
/// where they have the same.
pub proof fn law_pci_identity(one: &PciDevice, other: &PciDevice, a: String, b: String)
    requires
        call_ensures(PciDevice::persistent_id, (one,), a),
        call_ensures(PciDevice::persistent_id, (other,), b),
    ensures
        a@ == b@ <==> one.address@ == other.address@,
        a@ == pci_id(*one),
        begins(a@, "pci-"@),
{
    assert(a@.take("pci-"@.len() as int) =~= "pci-"@);
    let n = "pci-"@.len() as int;
    assert(a@.skip(n) =~= one.address@);
    assert(b@.skip(n) =~= other.address@);
}

/// The root port of a device is the first number behind the dash in its name.
pub proof fn law_root_port(
    bus: Seq<char>,
    port: u32,
    rest: Seq<char>,
    source: &UsbSource,
    entries: &Vec<InterfaceSource>,
    device: UsbDevice,
)
    requires
        !bus.contains('-'),
        call_ensures(describe_usb, (source, entries), device),
        source.sys_name@ == bus + seq!['-'] + decimal_digits(port as nat) || source.sys_name@ == bus
            + seq!['-'] + (decimal_digits(port as nat) + seq!['.'] + rest),
    ensures
        device.root_port == Some(port),
{
    let number = decimal_digits(port as nat);
    lemma_digits(port as nat, 10);
    law_written_is_read_back(port as nat, 10, 0, u32::MAX as nat);
    assert(!number.contains('.')) by {
        if number.contains('.') {
            let i = choose|i: int| 0 <= i < number.len() && number[i] == '.';
            assert(number[i] == digits(port as nat, 10)[i]);
        }
    }
    lemma_first_mark(bus, '-', number);
    lemma_first_mark(bus, '-', number + seq!['.'] + rest);
    lemma_first_mark(number, '.', rest);
    law_cut_at_the_first_mark(number, '.');
}

/// What a device says of itself is taken over: its ids, serial number and
/// removable state without white space, its codes as hexadecimal numbers, and
/// its node from the numbers of bus and device.
pub proof fn law_usb_files_describe_the_device(
    source: &UsbSource,
    entries: &Vec<InterfaceSource>,
    device: UsbDevice,
)
    requires
        call_ensures(describe_usb, (source, entries), device),
    ensures
        device.sys_name@ == source.sys_name@,
        device.vid is Some <==> source.id_vendor is Some,
        device.vid is Some ==> device.vid->0@ == trimmed(source.id_vendor->0@),
        device.pid is Some <==> source.id_product is Some,
        device.pid is Some ==> device.pid->0@ == trimmed(source.id_product->0@),
        device.serial is Some <==> source.serial is Some,
        device.serial is Some ==> device.serial->0@ == trimmed(source.serial->0@),
        device.removable is Some <==> source.removable is Some,
        device.removable is Some ==> device.removable->0@ == trimmed(source.removable->0@),
        nat_of(device.bus) == decimal_content(opt(source.busnum)),
        nat_of(device.port) == decimal_content(opt(source.devnum)),
        nat_of(device.device_class) == hex_content(opt(source.device_class)),
        nat_of(device.device_subclass) == hex_content(opt(source.device_subclass)),
        nat_of(device.device_protocol) == hex_content(opt(source.device_protocol)),
        device.device_node is Some <==> device.bus is Some && device.port is Some,
        device.device_node is Some ==> device.device_node->0@ == "/dev/bus/usb/"@ + padded(
            digits(device.bus->0 as nat, 10),
            3,
        ) + "/"@ + padded(digits(device.port->0 as nat, 10), 3),
{
}

/// The name of a vendor or product is that of the hardware database, else what
/// the device says; a product that nothing names is called by its ids.
pub proof fn law_database_names_come_first(
    source: &UsbSource,
    entries: &Vec<InterfaceSource>,
    device: UsbDevice,
)
    requires
        call_ensures(describe_usb, (source, entries), device),
    ensures
        source.hwdb_vendor is Some ==> device.vendor_name is Some && device.vendor_name->0@
            == source.hwdb_vendor->0@,
        source.hwdb_vendor is None && source.manufacturer is Some ==> device.vendor_name is Some
            && device.vendor_name->0@ == trimmed(source.manufacturer->0@),
        source.hwdb_vendor is None && source.manufacturer is None ==> device.vendor_name is None,
        source.hwdb_product is Some ==> device.product_name is Some && device.product_name->0@
            == source.hwdb_product->0@,
        source.hwdb_product is None && source.product is Some ==> device.product_name is Some
            && device.product_name->0@ == trimmed(source.product->0@),
        source.hwdb_product is None && source.product is None && device.vid is Some
            && device.pid is Some ==> device.product_name is Some && device.product_name->0@
            == "USB device "@ + device.vid->0@ + ":"@ + device.pid->0@,
        source.hwdb_product is None && source.product is None && (device.vid is None
            || device.pid is None) ==> device.product_name is None,
{
}

/// The interfaces of a device are exactly the entries that start with its name
/// and a colon, in order, each with its own codes; the drivers and modaliases
/// are those that they have.
pub proof fn law_interfaces_describe_the_device(
    source: &UsbSource,
    entries: &Vec<InterfaceSource>,
    device: UsbDevice,
)
    requires
        call_ensures(describe_usb, (source, entries), device),
    ensures
        exists|places: Seq<int>|
            {
                &&& places.len() == device.interfaces@.len()
                &&& #[trigger] taken_at(entries@, places, at_places(entries@, places))
                &&& forall|k: int|
                    #![trigger places.contains(k)]
                    0 <= k < entries@.len() ==> (places.contains(k) <==> begins(
                        entries@[k].name@,
                        source.sys_name@ + ":"@,
                    ))
                &&& forall|i: int|
                    #![trigger device.interfaces@[i]]
                    0 <= i < places.len() ==> {
                        let entry = entries@[places[i]];
                        let interface = device.interfaces@[i];
                        &&& nat_of(interface.class) == hex_content(opt(entry.class))
                        &&& nat_of(interface.subclass) == hex_content(opt(entry.subclass))
                        &&& nat_of(interface.protocol) == hex_content(opt(entry.protocol))
                    }
            },
        forall|k: int|
            #![trigger entries@[k]]
            0 <= k < entries@.len() && begins(entries@[k].name@, source.sys_name@ + ":"@)
                && entries@[k].driver is Some ==> lists(
                device.driver_paths@,
                entries@[k].driver->0@,
            ),
        forall|k: int|
            #![trigger entries@[k]]
            0 <= k < entries@.len() && begins(entries@[k].name@, source.sys_name@ + ":"@)
                && entries@[k].modalias is Some ==> lists(
                device.modaliases@,
                trimmed(entries@[k].modalias->0@),
            ),
        device.interfaces_text is Some <==> device.interfaces@.len() > 0,
{
    let keep = |entry: InterfaceSource| is_child(source.sys_name@, entry);
    let places = lemma_filter_places(entries@, keep);
    let found = children(source.sys_name@, entries@);
    assert(found =~= at_places(entries@, places));
    assert(taken_at(entries@, places, at_places(entries@, places)));
    assert forall|k: int|
        #![trigger places.contains(k)]
        0 <= k < entries@.len() implies (places.contains(k) <==> begins(
        entries@[k].name@,
        source.sys_name@ + ":"@,
    )) by {
        assert(places.contains(k) <==> keep(entries@[k]));
    }
    assert forall|i: int|
        #![trigger device.interfaces@[i]]
        0 <= i < places.len() implies describes_interface(
        entries@[places[i]],
        device.interfaces@[i],
    ) by {
        assert(found[i] == entries@[places[i]]);
    }
    let drivers = Seq::new(found.len(), |i: int| opt(found[i].driver));
    let aliases = Seq::new(found.len(), |i: int| content(opt(found[i].modalias)));
    assert forall|k: int|
        #![trigger entries@[k]]
        0 <= k < entries@.len() && keep(entries@[k]) implies (entries@[k].driver is Some ==> lists(
        device.driver_paths@,
        entries@[k].driver->0@,
    )) && (entries@[k].modalias is Some ==> lists(
        device.modaliases@,
        trimmed(entries@[k].modalias->0@),
    )) by {
        assert(places.contains(k));
        let i = choose|i: int| 0 <= i < places.len() && places[i] == k;
        assert(found[i] == entries@[k]);
        if entries@[k].driver is Some {
            let at = lemma_somes(drivers, i);
            assert(views(device.driver_paths@)[at] == device.driver_paths@[at]@);
        }
        if entries@[k].modalias is Some {
            let at = lemma_somes(aliases, i);
            assert(views(device.modaliases@)[at] == device.modaliases@[at]@);
        }
    }
}

proof fn lemma_somes(list: Seq<Option<Seq<char>>>, i: int) -> (at: int)
    requires
        0 <= i < list.len(),
        list[i] is Some,
    ensures
        0 <= at < somes(list).len(),
        somes(list)[at] == list[i]->0,
    decreases list.len(),
{
    let short = list.drop_last();
    if i < short.len() {
        let at = lemma_somes(short, i);
        assert(somes(list)[at] == somes(short)[at]);
        at
    } else {
        somes(short).len() as int
    }
}

proof fn lemma_some_of(list: Seq<Option<Seq<char>>>, at: int) -> (i: int)
    requires
        0 <= at < somes(list).len(),
    ensures
        0 <= i < list.len(),
        list[i] == Some(somes(list)[at]),
    decreases list.len(),
{
    let short = list.drop_last();
    if at < somes(short).len() {
        let i = lemma_some_of(short, at);
        assert(list[i] == short[i]);
        i
    } else {
        list.len() - 1
    }
}

/// A look finds exactly the entries that have the files of a device and carry
/// no storage of the host, each once, sorted by name.
pub proof fn law_host_storage_is_not_managed(
    sources: &Vec<UsbSource>,
    entries: &Vec<InterfaceSource>,
    out: Vec<UsbDevice>,
    name: Seq<char>,
)
    requires
        call_ensures(scan_usb, (sources, entries), out),
    ensures
        (exists|k: int| 0 <= k < out@.len() && (#[trigger] out@[k]).sys_name@ == name) <==> (
        exists|i: int|
            #![trigger sources@[i]]
            0 <= i < sources@.len() && sources@[i].sys_name@ == name && sources@[i].has_vendor
                && sources@[i].has_bus && !sources@[i].backs_host_storage),
        forall|i: int, j: int|
            #![trigger out@[i], out@[j]]
            0 <= i < j < out@.len() ==> precedes(out@[i].sys_name@, out@[j].sys_name@),
        out@.len() <= sources@.len(),
{
    broadcast use vstd::seq_lib::group_to_multiset_ensures;

    let devices = choose|devices: Seq<UsbDevice>| #[trigger]
        describes_all_usb(sources@, entries@, devices) && sorts(devices, out@);
    let keep = |source: UsbSource| is_listed(source);
    let places = lemma_filter_places(sources@, keep);
    let found = listed(sources@);
    assert(devices.to_multiset().len() == devices.len());
    assert(out@.to_multiset().len() == out@.len());
    lemma_places_bound(sources@, places, found);
    if exists|k: int| 0 <= k < out@.len() && (#[trigger] out@[k]).sys_name@ == name {
        let k = choose|k: int| 0 <= k < out@.len() && (#[trigger] out@[k]).sys_name@ == name;
        assert(out@.to_multiset().count(out@[k]) > 0);
        assert(devices.to_multiset().count(out@[k]) > 0);
        assert(devices.contains(out@[k]));
        let m = choose|m: int| 0 <= m < devices.len() && devices[m] == out@[k];
        assert(describes_usb(found[m], entries@, devices[m]));
        assert(places.contains(places[m]));
        assert(keep(sources@[places[m]]));
        assert(sources@[places[m]].sys_name@ == name);
    }
    if exists|i: int|
        #![trigger sources@[i]]
        0 <= i < sources@.len() && sources@[i].sys_name@ == name && is_listed(sources@[i]) {
        let i = choose|i: int|
            #![trigger sources@[i]]
            0 <= i < sources@.len() && sources@[i].sys_name@ == name && is_listed(sources@[i]);
        assert(keep(sources@[i]));
        assert(places.contains(i));
        let m = choose|m: int| 0 <= m < places.len() && places[m] == i;
        assert(found[m] == sources@[i]);
        assert(describes_usb(found[m], entries@, devices[m]));
        assert(devices.to_multiset().count(devices[m]) > 0);
        assert(out@.to_multiset().count(devices[m]) > 0);
        assert(out@.contains(devices[m]));
        let k = choose|k: int| 0 <= k < out@.len() && out@[k] == devices[m];
        assert(out@[k].sys_name@ == name);
    }
    assert(in_order(out@));
}

proof fn lemma_places_bound<T>(all: Seq<T>, places: Seq<int>, found: Seq<T>)
    requires
        taken_at(all, places, found),
    ensures
        found.len() <= all.len(),
{
    if found.len() > 0 {
        lemma_place_grows(all, places, found, found.len() - 1);
    }
}

proof fn lemma_place_grows<T>(all: Seq<T>, places: Seq<int>, found: Seq<T>, i: int)
    requires
        taken_at(all, places, found),
        0 <= i < places.len(),
    ensures
        places[i] >= i,
        places[i] < all.len(),
    decreases i,
{
    if i > 0 {
        lemma_place_grows(all, places, found, i - 1);
        assert(places[i - 1] < places[i]);
    }
}

/// Whether a chain of block devices leads from the first, each built from the
/// next, to one that lies below the device in the device tree.
pub open spec fn leads_to(
    blocks: Map<Seq<char>, BlockDevice>,
    device: Seq<Seq<char>>,
    chain: Seq<Seq<char>>,
) -> bool {
    &&& chain.len() > 0
    &&& forall|i: int| 0 <= i < chain.len() ==> blocks.contains_key(#[trigger] chain[i])
    &&& forall|i: int|
        #![trigger chain[i]]
        0 <= i < chain.len() - 1 ==> lists(blocks[chain[i]].slaves@, chain[i + 1])
    &&& device.len() <= blocks[chain.last()].sys_path@.len()
    &&& forall|i: int|
        0 <= i < device.len() ==> (#[trigger] blocks[chain.last()].sys_path@[i])@ == device[i]
}

/// A USB device carries storage of the host exactly where one of its own block
/// devices is held by another, or a block device with a number in use is built,
/// through any number of layers, on one of its own.
pub proof fn law_storage_through_all_layers(
    device: &Vec<String>,
    blocks: &StringMap<BlockDevice>,
    active: &Vec<String>,
    r: bool,
)
    requires
        call_ensures(usb_backs_active_storage, (device, blocks, active), r),
    ensures
        r <==> {
            ||| exists|chain: Seq<Seq<char>>| #[trigger]
                leads_to(blocks@, views(device@), chain) && chain.len() == 1
                    && blocks@[chain[0]].has_holders
            ||| exists|chain: Seq<Seq<char>>| #[trigger]
                leads_to(blocks@, views(device@), chain) && lists(
                    active@,
                    blocks@[chain[0]].device_id@,
                )
        },
{
    let dir = views(device@);
    if is_held(blocks@, dir) {
        let name = choose|name: Seq<char>| #[trigger]
            sits_on(blocks@, dir, name) && blocks@[name].has_holders;
        lemma_chain_of_one(blocks@, dir, name);
        assert(leads_to(blocks@, dir, seq![name]) && seq![name].len() == 1);
    }
    if exists|name: Seq<char>| #[trigger]
        stored_on(blocks@, dir, name) && lists(active@, blocks@[name].device_id@) {
        let name = choose|name: Seq<char>| #[trigger]
            stored_on(blocks@, dir, name) && lists(active@, blocks@[name].device_id@);
        let steps = choose|steps: nat| built_on(blocks@, dir, name, steps);
        let chain = lemma_chain(blocks@, dir, name, steps);
        assert(leads_to(blocks@, dir, chain));
    }
    assert forall|chain: Seq<Seq<char>>| #[trigger]
        leads_to(blocks@, dir, chain) implies stored_on(blocks@, dir, chain[0]) && (chain.len()
        == 1 ==> sits_on(blocks@, dir, chain[0])) by {
        lemma_chain_stores(blocks@, dir, chain);
    }
}

proof fn lemma_chain_of_one(
    blocks: Map<Seq<char>, BlockDevice>,
    device: Seq<Seq<char>>,
    name: Seq<char>,
)
    ensures
        leads_to(blocks, device, seq![name]) <==> sits_on(blocks, device, name),
{
    let chain = seq![name];
    assert(chain.last() == name);
    assert(chain[0] == name);
    let path = views(blocks[name].sys_path@);
    if sits_on(blocks, device, name) {
        assert forall|i: int| 0 <= i < device.len() implies (
        #[trigger] blocks[chain.last()].sys_path@[i])@ == device[i] by {
            assert(path.take(device.len() as int)[i] == path[i]);
        }
    }
    if leads_to(blocks, device, chain) {
        assert(blocks.contains_key(chain[0]));
        assert(path.take(device.len() as int) =~= device) by {
            assert forall|i: int| 0 <= i < device.len() implies path[i] == device[i] by {
                assert(blocks[chain.last()].sys_path@[i]@ == device[i]);
            }
        }
    }
}

proof fn lemma_chain(
    blocks: Map<Seq<char>, BlockDevice>,
    device: Seq<Seq<char>>,
    name: Seq<char>,
    steps: nat,
) -> (chain: Seq<Seq<char>>)
    requires
        built_on(blocks, device, name, steps),
    ensures
        leads_to(blocks, device, chain),
        chain[0] == name,
    decreases steps,
{
    if steps == 0 {
        lemma_chain_of_one(blocks, device, name);
        seq![name]
    } else {
        let fewer = (steps - 1) as nat;
        if built_on(blocks, device, name, fewer) {
            lemma_chain(blocks, device, name, fewer)
        } else {
            let slaves = blocks[name].slaves@;
            let k = choose|k: int|
                0 <= k < slaves.len() && built_on(
                    blocks,
                    device,
                    (#[trigger] slaves[k])@,
                    fewer,
                );
            let rest = lemma_chain(blocks, device, slaves[k]@, fewer);
            let chain = seq![name] + rest;
            assert(chain.last() == rest.last());
            assert forall|i: int| 0 <= i < chain.len() implies blocks.contains_key(
                #[trigger] chain[i],
            ) by {
                if i > 0 {
                    assert(chain[i] == rest[i - 1]);
                }
            }
            assert forall|i: int|
                #![trigger chain[i]]
                0 <= i < chain.len() - 1 implies lists(blocks[chain[i]].slaves@, chain[i + 1]) by {
                if i > 0 {
                    assert(chain[i] == rest[i - 1]);
                    assert(chain[i + 1] == rest[i]);
                } else {
                    assert(chain[1] == rest[0]);
                    assert(slaves[k]@ == chain[1]);
                }
            }
            chain
        }
    }
}

proof fn lemma_chain_stores(
    blocks: Map<Seq<char>, BlockDevice>,
    device: Seq<Seq<char>>,
    chain: Seq<Seq<char>>,
)
    requires
        leads_to(blocks, device, chain),
    ensures
        built_on(blocks, device, chain[0], (chain.len() - 1) as nat),
        stored_on(blocks, device, chain[0]),
        chain.len() == 1 ==> sits_on(blocks, device, chain[0]),
    decreases chain.len(),
{
    if chain.len() == 1 {
        assert(chain =~= seq![chain[0]]);
        lemma_chain_of_one(blocks, device, chain[0]);
    } else {
        let rest = chain.skip(1);
        assert(rest.last() == chain.last());
        assert forall|i: int| 0 <= i < rest.len() implies blocks.contains_key(
            #[trigger] rest[i],
        ) by {
            assert(rest[i] == chain[i + 1]);
        }
        assert forall|i: int|
            #![trigger rest[i]]
            0 <= i < rest.len() - 1 implies lists(blocks[rest[i]].slaves@, rest[i + 1]) by {
            assert(rest[i] == chain[i + 1]);
            assert(rest[i + 1] == chain[i + 2]);
        }
        lemma_chain_stores(blocks, device, rest);
        let name = chain[0];
        let slaves = blocks[name].slaves@;
        assert(lists(blocks[chain[0]].slaves@, chain[1]));
        let k = choose|k: int| 0 <= k < slaves.len() && #[trigger] slaves[k]@ == chain[1];
        assert(rest[0] == chain[1]);
        assert(built_on(blocks, device, slaves[k]@, (rest.len() - 1) as nat));
        assert(blocks.contains_key(chain[0]));
    }
}

/// The numbers in use are the third word of every line of the mounts and the
/// number of every swap area: its own where it is a block device, else that of
/// the device that holds it.
pub proof fn law_numbers_in_use(
    mountinfo: &str,
    swaps: &Vec<SwapArea>,
    out: Vec<String>,
    id: Seq<char>,
)
    requires
        call_ensures(active_host_storage_device_ids, (mountinfo, swaps), out),
    ensures
        lists(out@, id) <==> {
            ||| exists|i: int|
                #![trigger lines_of(mountinfo@)[i]]
                0 <= i < lines_of(mountinfo@).len() && words(lines_of(mountinfo@)[i]).len() > 2
                    && words(lines_of(mountinfo@)[i])[2] == id
            ||| exists|i: int|
                #![trigger swaps@[i]]
                0 <= i < swaps@.len() && id == device_id_text(
                    if swaps@[i].is_block_device {
                        swaps@[i].rdev
                    } else {
                        swaps@[i].dev
                    },
                )
        },
{
    let rows = lines_of(mountinfo@);
    let found = Seq::new(rows.len(), |i: int| word_at(rows[i], 2));
    let mounts = column(rows, 2);
    let ids = Seq::new(swaps@.len(), |i: int| device_id_text(swap_device(swaps@[i])));
    assert(views(out@).len() == out@.len());
    if lists(out@, id) {
        let k = choose|k: int| 0 <= k < out@.len() && #[trigger] out@[k]@ == id;
        assert(views(out@)[k] == id);
        if k < mounts.len() {
            let i = lemma_some_of(found, k);
            assert(word_at(rows[i], 2) == Some(id));
        } else {
            let i = k - mounts.len();
            assert(ids[i] == id);
            assert(swaps@[i] == swaps@[i]);
        }
    }
    assert forall|i: int|
        #![trigger rows[i]]
        0 <= i < rows.len() && words(rows[i]).len() > 2 && words(rows[i])[2] == id implies lists(
        out@,
        id,
    ) by {
        assert(found[i] == Some(id));
        let at = lemma_somes(found, i);
        assert(views(out@)[at] == id);
        assert(out@[at]@ == id);
    }
    assert forall|i: int|
        #![trigger swaps@[i]]
        0 <= i < swaps@.len() && id == device_id_text(swap_device(swaps@[i])) implies lists(
        out@,
        id,
    ) by {
        let at = mounts.len() + i;
        assert(views(out@)[at] == ids[i]);
        assert(out@[at]@ == id);
    }
}

/// The swap areas are the first words of all lines but the heading.
pub proof fn law_swap_areas(swaps: &str, out: Vec<String>, name: Seq<char>)
    requires
        call_ensures(swap_sources, (swaps,), out),
    ensures
        lists(out@, name) <==> exists|i: int|
            #![trigger lines_of(swaps@)[i]]
            1 <= i < lines_of(swaps@).len() && words(lines_of(swaps@)[i]).len() > 0 && words(
                lines_of(swaps@)[i],
            )[0] == name,
{
    let all = lines_of(swaps@);
    let rows = all.skip(1);
    let found = Seq::new(rows.len(), |i: int| word_at(rows[i], 0));
    assert(views(out@).len() == out@.len());
    if all.len() > 0 {
        if lists(out@, name) {
            let k = choose|k: int| 0 <= k < out@.len() && #[trigger] out@[k]@ == name;
            assert(views(out@)[k] == name);
            let i = lemma_some_of(found, k);
            assert(rows[i] == all[i + 1]);
        }
        assert forall|i: int|
            #![trigger all[i]]
            1 <= i < all.len() && words(all[i]).len() > 0 && words(all[i])[0] == name implies lists(
            out@,
            name,
        ) by {
            assert(rows[i - 1] == all[i]);
            assert(found[i - 1] == Some(name));
            let at = lemma_somes(found, i - 1);
            assert(views(out@)[at] == name);
            assert(out@[at]@ == name);
        }
    }
}

/// The numbers that a device number is read as are those that the kernel made
/// it of.
pub proof fn law_numbers_are_read_back(major: u32, minor: u32, a: u64, b: u64)
    requires
        minor < 0x1000_0000,
        call_ensures(linux_major, (device_number(major, minor),), a),
        call_ensures(linux_minor, (device_number(major, minor),), b),
    ensures
        a == major,
        b == minor,
        device_id_text(device_number(major, minor)) == decimal_digits(major as nat) + ":"@
            + decimal_digits(minor as nat),
{
    law_device_number(major, minor);
}

/// A PCI device has the numbers of its files, its ids as four hexadecimal
/// digits or more, and its codes from the three lowest bytes of the class file:
/// class, subclass and programming interface, the highest first.
pub proof fn law_pci_files_describe_the_device(
    source: &PciSource,
    device: PciDevice,
    class: u32,
)
    requires
        call_ensures(describe_pci, (source,), device),
        hex_content(opt(source.class)) == Some(class as nat),
        class < 0x100_0000,
    ensures
        device.address@ == source.address@,
        opt(device.driver) == opt(source.driver),
        nat_of(device.vendor_id) == hex_content(opt(source.vendor)),
        nat_of(device.device_id) == hex_content(opt(source.device)),
        device.class is Some && device.subclass is Some && device.prog_if is Some,
        device.class->0 < 256 && device.subclass->0 < 256 && device.prog_if->0 < 256,
        class == device.class->0 * 0x1_0000 + device.subclass->0 * 0x100 + device.prog_if->0,
        device.vendor_id is Some ==> device.vendor_id_text is Some && device.vendor_id_text->0@
            == padded(digits(device.vendor_id->0 as nat, 16), 4),
        device.device_id is Some ==> device.device_id_text is Some && device.device_id_text->0@
            == padded(digits(device.device_id->0 as nat, 16), 4),
        device.vendor_id is None ==> device.vendor_id_text is None,
        device.device_id is None ==> device.device_id_text is None,
{
    reveal_strlit("");
    if device.vendor_id is Some {
        let text = padded(digits(device.vendor_id->0 as nat, 16), 4);
        assert(""@ + text =~= text);
    }
    if device.device_id is Some {
        let text = padded(digits(device.device_id->0 as nat, 16), 4);
        assert(""@ + text =~= text);
    }
}

/// A look finds every PCI device once, sorted by address, and a group has every
/// member once, sorted.
pub proof fn law_pci_look_is_complete(
    sources: &Vec<PciSource>,
    out: Vec<PciDevice>,
    members: Vec<String>,
    group: Vec<String>,
    none: Vec<String>,
    name: Seq<char>,
    member: String,
)
    requires
        call_ensures(scan_pci, (sources,), out),
        call_ensures(iommu_group, (Some(members),), group),
        call_ensures(iommu_group, (None,), none),
    ensures
        out@.len() == sources@.len(),
        (exists|k: int| 0 <= k < out@.len() && (#[trigger] out@[k]).address@ == name) <==> (exists|
            i: int,
        | 0 <= i < sources@.len() && (#[trigger] sources@[i]).address@ == name),
        forall|i: int, j: int|
            #![trigger out@[i], out@[j]]
            0 <= i < j < out@.len() ==> precedes(out@[i].address@, out@[j].address@),
        group@.len() == members@.len(),
        group@.contains(member) <==> members@.contains(member),
        forall|i: int, j: int|
            #![trigger group@[i], group@[j]]
            0 <= i < j < group@.len() ==> precedes(group@[i]@, group@[j]@),
        none@.len() == 0,
{
    broadcast use vstd::seq_lib::group_to_multiset_ensures;

    let devices = choose|devices: Seq<PciDevice>| #[trigger]
        describes_all_pci(sources@, devices) && sorts(devices, out@);
    assert(devices.to_multiset().len() == devices.len());
    assert(out@.to_multiset().len() == out@.len());
    if exists|k: int| 0 <= k < out@.len() && (#[trigger] out@[k]).address@ == name {
        let k = choose|k: int| 0 <= k < out@.len() && (#[trigger] out@[k]).address@ == name;
        assert(out@.to_multiset().count(out@[k]) > 0);
        assert(devices.to_multiset().count(out@[k]) > 0);
        assert(devices.contains(out@[k]));
        let m = choose|m: int| 0 <= m < devices.len() && devices[m] == out@[k];
        assert(describes_pci(sources@[m], devices[m]));
        assert(sources@[m].address@ == name);
    }
    if exists|i: int| 0 <= i < sources@.len() && (#[trigger] sources@[i]).address@ == name {
        let i = choose|i: int| 0 <= i < sources@.len() && (#[trigger] sources@[i]).address@ == name;
        assert(describes_pci(sources@[i], devices[i]));
        assert(devices.to_multiset().count(devices[i]) > 0);
        assert(out@.contains(devices[i]));
        let k = choose|k: int| 0 <= k < out@.len() && out@[k] == devices[i];
        assert(out@[k].address@ == name);
    }
    assert(in_order(out@));
    assert(members@.to_multiset().len() == members@.len());
    assert(group@.to_multiset().len() == group@.len());
    assert(group@.contains(member) <==> group@.to_multiset().count(member) > 0);
    assert(members@.contains(member) <==> members@.to_multiset().count(member) > 0);
    assert(in_order(group@));
}

/// The names of a device are looked up under both of its ids, in upper case,
/// and not at all where one is missing.
pub proof fn law_names_are_looked_up_by_both_ids(
    vendor: &Option<String>,
    product: &Option<String>,
    out: Option<String>,
)
    requires
        call_ensures(hwdb_names, (vendor, product), out),
    ensures
        out is Some <==> vendor is Some && product is Some,
        out is Some ==> out->0@ == "usb:v"@ + uppercase_of(trimmed(vendor->0@)) + "p"@
            + uppercase_of(trimmed(product->0@)),
{
}

/// A USB device backs the storage of the host exactly where it carries storage
/// with a number that the mounts and swap areas use.
pub proof fn law_storage_in_use(
    device: &Vec<String>,
    blocks: &StringMap<BlockDevice>,
    mountinfo: &str,
    swaps: &Vec<SwapArea>,
    r: bool,
    active: Vec<String>,
    uses: bool,
)
    requires
        call_ensures(usb_backs_host_storage, (device, blocks, mountinfo, swaps), r),
        call_ensures(active_host_storage_device_ids, (mountinfo, swaps), active),
        call_ensures(usb_backs_active_storage, (device, blocks, &active), uses),
    ensures
        r == uses,
{
    let dir = views(device@);
    let other = choose|other: Seq<String>|
        views(other) == active_ids(mountinfo@, swaps@) && r == #[trigger] in_use(
            blocks@,
            dir,
            other,
        );
    assert forall|id: Seq<char>| #[trigger] lists(other, id) <==> lists(active@, id) by {
        assert(views(other).len() == other.len());
        assert(views(active@).len() == active@.len());
        if lists(other, id) {
            let k = choose|k: int| 0 <= k < other.len() && #[trigger] other[k]@ == id;
            assert(views(other)[k] == id);
            assert(views(active@)[k] == active@[k]@);
        }
        if lists(active@, id) {
            let k = choose|k: int| 0 <= k < active@.len() && #[trigger] active@[k]@ == id;
            assert(views(active@)[k] == id);
            assert(views(other)[k] == other[k]@);
        }
    }
    if in_use(blocks@, dir, other) && !is_held(blocks@, dir) {
        let name = choose|name: Seq<char>| #[trigger]
            stored_on(blocks@, dir, name) && lists(other, blocks@[name].device_id@);
        assert(lists(active@, blocks@[name].device_id@));
    }
    if in_use(blocks@, dir, active@) && !is_held(blocks@, dir) {
        let name = choose|name: Seq<char>| #[trigger]
            stored_on(blocks@, dir, name) && lists(active@, blocks@[name].device_id@);
        assert(lists(other, blocks@[name].device_id@));
    }
}

/// The text of the interfaces has the three codes of each, in hexadecimal with
/// two digits at least, behind a colon each and with one at the end.
pub proof fn law_text_of_the_interfaces(interfaces: Seq<UsbInterface>, more: UsbInterface)
    requires
        more.class is Some,
        more.subclass is Some,
        more.protocol is Some,
    ensures
        ({
            let codes = padded(digits(more.class->0 as nat, 16), 2) + padded(
                digits(more.subclass->0 as nat, 16),
                2,
            ) + padded(digits(more.protocol->0 as nat, 16), 2);
            &&& interfaces.len() == 0 ==> interfaces_text_of(interfaces.push(more)) == Some(
                ":"@ + codes + ":"@,
            )
            &&& interfaces.len() > 0 ==> interfaces_text_of(interfaces) is Some
                && interfaces_text_of(interfaces.push(more)) == Some(
                interfaces_text_of(interfaces)->0 + codes + ":"@,
            )
        }),
        interfaces.len() == 0 ==> interfaces_text_of(interfaces) is None,
{
    let all = interfaces.push(more);
    let texts = Seq::new(interfaces.len(), |i: int| interface_text(interfaces[i]));
    let longer = Seq::new(all.len(), |i: int| interface_text(all[i]));
    assert(longer =~= texts.push(interface_text(more)));
    law_joining(texts, interface_text(more), ":"@);
    if interfaces.len() == 0 {
        assert(longer =~= seq![interface_text(more)]);
    } else {
        let old_text = interfaces_text_of(interfaces)->0;
        assert(":"@ + (joined(texts, ":"@) + ":"@ + interface_text(more)) + ":"@ =~= old_text
            + interface_text(more) + ":"@);
    }
}

} // verus!
