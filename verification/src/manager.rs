//! The memory of the manager, and the choice of devices for a request.

use crate::config::{
    capped, case_eq, fault, first_pci_route, first_route, gives, gives_pci, has_usb_rules,
    is_enabled, is_pci_match, is_pci_rule, is_routed, is_usb_match, is_usb_rule,
    lemma_pci_routed_is_given, lemma_routed_is_given, lemma_vm_named, position, routes,
    routes_pci, same_text, vm_named, Config, RuleMatch,
};
use crate::device::{pci_id, usb_id, PciDevice, UsbDevice};
use crate::error::Error;
use crate::number::{decimal_digits, law_sign_is_written, law_written_alike_is_the_same};
use crate::number::{lemma_digits, signed_digits, to_signed_text, to_text};
use crate::order::{in_order, lemma_filter_places, lemma_precedes_chain, lemma_precedes_total};
use crate::order::{at_places, firsts, precedes, taken_at};
use crate::order::{sort, sorts, text_precedes, Ranked};
use crate::protocol::{empty_selector, PciListDevice, UsbListDevice};
use crate::state::{PersistentState, State, UsbPortBinding};
use crate::table::StringMap;
use crate::text::{as_deref, begins, is_text, join, joined, lemma_views_push, opt, opt_ref, same};
use crate::text::{lemma_cut_alike, same_letters, views};
use vstd::prelude::*;

verus! {

/// What a request asks for; what is absent does not count.
#[derive(Clone, Debug)]
pub struct Selector {
    pub device_node: Option<String>,
    pub bus: Option<u32>,
    pub port: Option<u32>,
    pub vid: Option<String>,
    pub pid: Option<String>,
    pub address: Option<String>,
    pub did: Option<String>,
    pub tag: Option<String>,
}

impl Default for Selector {
    fn default() -> (selector: Self)
        ensures
            selector == empty_selector(),
    {
        Selector {
            device_node: None,
            bus: None,
            port: None,
            vid: None,
            pid: None,
            address: None,
            did: None,
            tag: None,
        }
    }
}

/// What the manager knows.
#[derive(Debug)]
pub struct DeviceManager {
    pub config: Config,
    pub state: State,
    /// The routed USB devices at the last look, by name.
    pub observed_usb: StringMap<UsbDevice>,
    /// The routed PCI devices at the last look, by address.
    pub observed_pci: StringMap<PciDevice>,
    /// The devices for which a machine was asked for, by id.
    pub pending_usb_selection: StringMap<()>,
    /// The devices that are routed, by name and id. A rule that looks at driver
    /// paths matches only while a driver is bound, so the verdict is kept.
    pub usb_routing: Vec<(String, String)>,
    /// The devices that were reported as hubs, by id.
    pub reported_usb_hubs: StringMap<()>,
    /// Whether the last pass left work undone because a machine was not
    /// running.
    pub deferred: bool,
}

/// The machines that a rule allows: its target, then those that it lists.
pub open spec fn allowed(rule: RuleMatch) -> Seq<Seq<char>> {
    match rule.target_vm {
        Some(target) => seq![target@] + views(rule.allowed_vms@),
        None => views(rule.allowed_vms@),
    }
}

/// The machines that a rule allows: its target, then those that it lists.
pub fn allowed_vms(rule: &RuleMatch) -> (out: Vec<String>)
    ensures
        views(out@) == allowed(*rule),
{
    let mut out: Vec<String> = Vec::new();
    if let Some(target) = &rule.target_vm {
        out.push(target.clone());
    }
    let ghost first = views(out@);
    assert(allowed(*rule) =~= first + views(rule.allowed_vms@));
    let mut i: usize = 0;
    assert(views(out@) =~= first + views(rule.allowed_vms@).take(0));
    while i < rule.allowed_vms.len()
        invariant
            i <= rule.allowed_vms.len(),
            views(out@) == first + views(rule.allowed_vms@).take(i as int),
        decreases rule.allowed_vms.len() - i,
    {
        let ghost done = out@;
        let name = rule.allowed_vms[i].clone();
        out.push(name);
        proof {
            lemma_views_push(done, name);
        }
        i += 1;
        assert(views(out@) =~= first + views(rule.allowed_vms@).take(i as int));
    }
    assert(views(rule.allowed_vms@).take(rule.allowed_vms@.len() as int) =~= views(
        rule.allowed_vms@,
    ));
    out
}

/// The outcome of work on several devices: it failed where any of it did.
pub fn aggregate(failures: Vec<String>) -> (out: Result<(), Error>)
    ensures
        match out {
            Ok(_) => failures@.len() == 0,
            Err(error) => failures@.len() > 0 && error == Error::Several(failures)
                && error.text() == joined(views(failures@), "; "@),
        },
{
    if failures.len() == 0 {
        Ok(())
    } else {
        Err(Error::Several(failures))
    }
}

/// The line that reports the failure of one device or one part of the work.
pub fn failure_line(name: &str, error: &Error) -> (out: String)
    ensures
        out@ == name@ + ": "@ + error.text(),
{
    let mut out: String = name.to_owned();
    out.append(": ");
    out.append(error.message().as_str());
    out
}

/// What tells one run of a machine from another: the identity of its control
/// socket.
pub fn socket_generation(dev: u64, ino: u64, ctime_nsec: i64) -> (out: String)
    ensures
        out@ == decimal_digits(dev as nat) + ":"@
            + decimal_digits(ino as nat) + ":"@ + signed_digits(
            ctime_nsec as int,
        ),
{
    let mut out = to_text(dev);
    out.append(":");
    out.append(to_text(ino).as_str());
    out.append(":");
    out.append(to_signed_text(ctime_nsec).as_str());
    out
}

/// The routed devices, in order.
pub open spec fn routed(config: Config, devices: Seq<UsbDevice>) -> Seq<UsbDevice> {
    devices.filter(|device: UsbDevice| is_routed(config, device))
}

/// Whether `found` holds the devices in order, each with what the rules say
/// of it.
pub open spec fn pairs_usb(
    config: Config,
    devices: Seq<UsbDevice>,
    found: Seq<(UsbDevice, RuleMatch)>,
) -> bool {
    &&& found.len() == devices.len()
    &&& forall|i: int|
        0 <= i < found.len() ==> (#[trigger] found[i]).0 == devices[i] && is_usb_rule(
            config,
            devices[i],
            Some(found[i].1),
        )
}

/// Whether the rules route a PCI device.
pub open spec fn is_pci_routed(config: Config, device: PciDevice) -> bool {
    !is_pci_rule(config.pci_passthrough@, device, None)
}

/// The routed PCI devices, in order.
pub open spec fn routed_pci(config: Config, devices: Seq<PciDevice>) -> Seq<PciDevice> {
    devices.filter(|device: PciDevice| is_pci_routed(config, device))
}

pub open spec fn pairs_pci(
    config: Config,
    devices: Seq<PciDevice>,
    found: Seq<(PciDevice, RuleMatch)>,
) -> bool {
    &&& found.len() == devices.len()
    &&& forall|i: int|
        0 <= i < found.len() ==> (#[trigger] found[i]).0 == devices[i] && is_pci_rule(
            config.pci_passthrough@,
            devices[i],
            Some(found[i].1),
        )
}

/// A routed PCI device, what the rules say of it, and how many devices its
/// IOMMU group has, where that was looked at.
pub type PciCandidate = (PciDevice, RuleMatch, usize);

/// Whether a device is left out because it shares its IOMMU group.
pub open spec fn is_left_out(candidate: PciCandidate) -> bool {
    candidate.1.iommu_skip_if_shared && candidate.2 > 1
}

/// The candidates that are not left out, without the sizes of their groups.
pub open spec fn kept(candidates: Seq<PciCandidate>) -> Seq<(PciDevice, RuleMatch)>
    decreases candidates.len(),
{
    if candidates.len() == 0 {
        Seq::empty()
    } else {
        let before = kept(candidates.drop_last());
        if is_left_out(candidates.last()) {
            before
        } else {
            before.push((candidates.last().0, candidates.last().1))
        }
    }
}

impl Ranked for (PciDevice, RuleMatch) {
    /// By the order of the rules, then by address.
    open spec fn upto(&self, other: &Self) -> bool {
        self.1.order < other.1.order || (self.1.order == other.1.order && precedes(
            self.0.address@,
            other.0.address@,
        ))
    }

    proof fn upto_total(a: &Self, b: &Self) {
        lemma_precedes_total(a.0.address@, b.0.address@);
    }

    proof fn upto_chain(a: &Self, b: &Self, c: &Self) {
        if a.1.order == b.1.order && b.1.order == c.1.order {
            lemma_precedes_chain(a.0.address@, b.0.address@, c.0.address@);
        }
    }

    fn is_upto(&self, other: &Self) -> (r: bool) {
        self.1.order < other.1.order || (self.1.order == other.1.order && text_precedes(
            self.0.address.as_str(),
            other.0.address.as_str(),
        ))
    }
}

/// The sorted list of the routed PCI devices that are not left out.
pub fn pci_devices(candidates: Vec<PciCandidate>) -> (out: Vec<(PciDevice, RuleMatch)>)
    ensures
        sorts(kept(candidates@), out@),
{
    let mut found: Vec<(PciDevice, RuleMatch)> = Vec::new();
    let ghost all = candidates@;
    assert(all.take(0).len() == 0);
    for candidate in it: candidates
        invariant
            it.seq() == all,
            found@ == kept(all.take(it.index())),
    {
        let ghost next = all.take(it.index() + 1);
        proof {
            assert(next.drop_last() =~= all.take(it.index()));
            assert(next.last() == candidate);
        }
        let (device, rule, members) = candidate;
        if !(rule.iommu_skip_if_shared && members > 1) {
            found.push((device, rule));
        }
    }
    assert(all.take(all.len() as int) =~= all);
    sort(found)
}

/// Whether a tag is asked for and the rule has another one, or none.
pub open spec fn lacks_tag(rule: RuleMatch, tag: Option<Seq<char>>) -> bool {
    tag is Some && opt(rule.tag) != tag
}

/// Whether a list that asks for some devices has this one.
pub open spec fn is_wanted(
    rule: RuleMatch,
    is_disconnected: bool,
    disconnected: Option<bool>,
    tag: Option<Seq<char>>,
) -> bool {
    !(disconnected is Some && disconnected->0 != is_disconnected) && !lacks_tag(rule, tag)
}

fn wanted(
    rule: &RuleMatch,
    is_disconnected: bool,
    disconnected: Option<bool>,
    tag: Option<&str>,
) -> (r: bool)
    ensures
        r == is_wanted(*rule, is_disconnected, disconnected, opt_ref(tag)),
{
    if let Some(disconnected) = disconnected {
        if disconnected != is_disconnected {
            return false;
        }
    }
    match tag {
        Some(tag) => is_text(as_deref(&rule.tag), tag),
        None => true,
    }
}

/// Whether both numbers are asked for and are those of the device.
pub open spec fn picks_place(selector: Selector, device: UsbDevice) -> bool {
    selector.bus is Some && selector.port is Some && device.bus == selector.bus && device.root_port
        == selector.port
}

/// Whether a request asks for a USB device: by node, by port, by ids or by
/// tag.
pub open spec fn asks_usb(selector: Selector, device: UsbDevice, rule: RuleMatch) -> bool {
    ||| selector.device_node is Some && opt(device.device_node) == opt(selector.device_node)
    ||| picks_place(selector, device)
    ||| same_text(opt(device.vid), opt(selector.vid)) && same_text(
        opt(device.pid),
        opt(selector.pid),
    )
    ||| selector.tag is Some && opt(rule.tag) == opt(selector.tag)
}

/// Whether a request asks for a PCI device: by address, by ids or by tag.
pub open spec fn asks_pci(selector: Selector, device: PciDevice, rule: RuleMatch) -> bool {
    ||| same_text(Some(device.address@), opt(selector.address))
    ||| same_text(opt(device.vendor_id_text), opt(selector.vid)) && same_text(
        opt(device.device_id_text),
        opt(selector.did),
    )
    ||| selector.tag is Some && opt(rule.tag) == opt(selector.tag)
}

fn same_number(a: Option<u32>, b: Option<u32>) -> (r: bool)
    ensures
        r == (a is Some && a == b),
{
    match (a, b) {
        (Some(a), Some(b)) => a == b,
        _ => false,
    }
}

fn asked_text(wanted: &Option<String>, actual: &Option<String>) -> (r: bool)
    ensures
        r == (wanted is Some && opt(*actual) == opt(*wanted)),
{
    match wanted {
        Some(wanted) => is_text(as_deref(actual), wanted.as_str()),
        None => false,
    }
}

/// Whether a request asks for a USB device.
pub fn usb_asked(selector: &Selector, device: &UsbDevice, rule: &RuleMatch) -> (r: bool)
    ensures
        r == asks_usb(*selector, *device, *rule),
{
    asked_text(&selector.device_node, &device.device_node) || (same_number(
        selector.bus,
        device.bus,
    ) && same_number(selector.port, device.root_port)) || (case_eq(
        as_deref(&device.vid),
        as_deref(&selector.vid),
    ) && case_eq(as_deref(&device.pid), as_deref(&selector.pid))) || asked_text(
        &selector.tag,
        &rule.tag,
    )
}

/// Whether a request asks for a PCI device.
pub fn pci_asked(selector: &Selector, device: &PciDevice, rule: &RuleMatch) -> (r: bool)
    ensures
        r == asks_pci(*selector, *device, *rule),
{
    case_eq(Some(device.address.as_str()), as_deref(&selector.address)) || (case_eq(
        as_deref(&device.vendor_id_text),
        as_deref(&selector.vid),
    ) && case_eq(as_deref(&device.device_id_text), as_deref(&selector.did))) || asked_text(
        &selector.tag,
        &rule.tag,
    )
}

/// The devices that a request asks for, in order.
pub open spec fn asked_usb(
    selector: Selector,
    devices: Seq<(UsbDevice, RuleMatch)>,
) -> Seq<(UsbDevice, RuleMatch)> {
    devices.filter(|item: (UsbDevice, RuleMatch)| asks_usb(selector, item.0, item.1))
}

/// The PCI devices that a request asks for, in order.
pub open spec fn asked_pci(
    selector: Selector,
    devices: Seq<(PciDevice, RuleMatch)>,
) -> Seq<(PciDevice, RuleMatch)> {
    devices.filter(|item: (PciDevice, RuleMatch)| asks_pci(selector, item.0, item.1))
}

/// The USB devices that a request asks for; a request that fits none fails.
pub fn selected_usb(devices: Vec<(UsbDevice, RuleMatch)>, selector: &Selector) -> (out: Result<
    Vec<(UsbDevice, RuleMatch)>,
    Error,
>)
    ensures
        match out {
            Ok(found) => found@.len() > 0 && found@ == asked_usb(*selector, devices@),
            Err(error) => asked_usb(*selector, devices@).len() == 0 && error is NoUsbMatch,
        },
{
    let mut found: Vec<(UsbDevice, RuleMatch)> = Vec::new();
    let ghost all = devices@;
    proof {
        reveal(Seq::filter);
        assert(all.take(0).len() == 0);
    }
    for item in it: devices
        invariant
            it.seq() == all,
            found@ == asked_usb(*selector, all.take(it.index())),
    {
        let ghost next = all.take(it.index() + 1);
        proof {
            reveal(Seq::filter);
            assert(next.drop_last() =~= all.take(it.index()));
            assert(next.last() == item);
        }
        if usb_asked(selector, &item.0, &item.1) {
            found.push(item);
        }
    }
    assert(all.take(all.len() as int) =~= all);
    if found.len() == 0 {
        return Err(Error::NoUsbMatch);
    }
    Ok(found)
}

/// The PCI devices that a request asks for; a request that fits none fails.
pub fn selected_pci(devices: Vec<(PciDevice, RuleMatch)>, selector: &Selector) -> (out: Result<
    Vec<(PciDevice, RuleMatch)>,
    Error,
>)
    ensures
        match out {
            Ok(found) => found@.len() > 0 && found@ == asked_pci(*selector, devices@),
            Err(error) => asked_pci(*selector, devices@).len() == 0 && error is NoPciMatch,
        },
{
    let mut found: Vec<(PciDevice, RuleMatch)> = Vec::new();
    let ghost all = devices@;
    proof {
        reveal(Seq::filter);
        assert(all.take(0).len() == 0);
    }
    for item in it: devices
        invariant
            it.seq() == all,
            found@ == asked_pci(*selector, all.take(it.index())),
    {
        let ghost next = all.take(it.index() + 1);
        proof {
            reveal(Seq::filter);
            assert(next.drop_last() =~= all.take(it.index()));
            assert(next.last() == item);
        }
        if pci_asked(selector, &item.0, &item.1) {
            found.push(item);
        }
    }
    assert(all.take(all.len() as int) =~= all);
    if found.len() == 0 {
        return Err(Error::NoPciMatch);
    }
    Ok(found)
}

/// The machine that has the device at a node.
pub open spec fn holder(vms: Map<Seq<char>, String>, key: Option<Seq<char>>) -> Option<Seq<char>> {
    match key {
        Some(key) => if vms.contains_key(key) {
            Some(vms[key]@)
        } else {
            None
        },
        None => None,
    }
}

fn lookup(vms: &StringMap<String>, key: Option<&str>) -> (out: Option<String>)
    ensures
        opt(out) == holder(vms@, opt_ref(key)),
        out is Some ==> out->0 == vms@[opt_ref(key)->0],
{
    match key {
        Some(key) => match vms.get(key) {
            Some(name) => Some(name.clone()),
            None => None,
        },
        None => None,
    }
}

/// The devices that a list of USB devices has.
pub open spec fn wanted_usb(
    state: State,
    devices: Seq<(UsbDevice, RuleMatch)>,
    disconnected: Option<bool>,
    tag: Option<Seq<char>>,
) -> Seq<(UsbDevice, RuleMatch)> {
    devices.filter(
        |item: (UsbDevice, RuleMatch)|
            is_wanted(item.1, state.is_disconnected(usb_id(item.0)), disconnected, tag),
    )
}

/// Whether `entry` says what is known of a device.
pub open spec fn is_usb_entry(state: State, item: (UsbDevice, RuleMatch), entry: UsbListDevice) -> bool {
    &&& entry.device == item.0
    &&& views(entry.allowed_vms@) == allowed(item.1)
    &&& opt(entry.vm) == holder(state.usb_vms@, opt(item.0.device_node))
    &&& entry.disconnected == state.is_disconnected(usb_id(item.0))
}

pub open spec fn are_usb_entries(
    state: State,
    items: Seq<(UsbDevice, RuleMatch)>,
    entries: Seq<UsbListDevice>,
) -> bool {
    &&& entries.len() == items.len()
    &&& forall|i: int| 0 <= i < items.len() ==> is_usb_entry(state, items[i], #[trigger] entries[i])
}

/// The devices that a list of PCI devices has.
pub open spec fn wanted_pci(
    state: State,
    devices: Seq<(PciDevice, RuleMatch)>,
    disconnected: Option<bool>,
    tag: Option<Seq<char>>,
) -> Seq<(PciDevice, RuleMatch)> {
    devices.filter(
        |item: (PciDevice, RuleMatch)|
            is_wanted(item.1, state.is_disconnected(pci_id(item.0)), disconnected, tag),
    )
}

/// Whether `entry` says what is known of a PCI device.
pub open spec fn is_pci_entry(state: State, item: (PciDevice, RuleMatch), entry: PciListDevice) -> bool {
    &&& entry.device == item.0
    &&& views(entry.allowed_vms@) == allowed(item.1)
    &&& opt(entry.vm) == holder(state.pci_vms@, Some(item.0.address@))
    &&& entry.disconnected == state.is_disconnected(pci_id(item.0))
}

pub open spec fn are_pci_entries(
    state: State,
    items: Seq<(PciDevice, RuleMatch)>,
    entries: Seq<PciListDevice>,
) -> bool {
    &&& entries.len() == items.len()
    &&& forall|i: int| 0 <= i < items.len() ==> is_pci_entry(state, items[i], #[trigger] entries[i])
}

/// What tells a device from all others that are plugged in: its name together
/// with its id. Devices of the same make may share an id.
pub open spec fn usb_key(device: UsbDevice) -> (Seq<char>, Seq<char>) {
    (device.sys_name@, usb_id(device))
}

/// The names and ids in a list.
pub open spec fn usb_keys(list: Seq<(String, String)>) -> Seq<(Seq<char>, Seq<char>)> {
    Seq::new(list.len(), |i: int| (list[i].0@, list[i].1@))
}

/// Whether a device is routed: by a rule, or because it was before.
pub open spec fn verdict(
    config: Config,
    known: Seq<(Seq<char>, Seq<char>)>,
    device: UsbDevice,
) -> bool {
    is_routed(config, device) || known.contains(usb_key(device))
}

/// The devices that are there and routed, by name and id.
pub open spec fn routed_keys(
    config: Config,
    known: Seq<(Seq<char>, Seq<char>)>,
    devices: Seq<UsbDevice>,
) -> Seq<(Seq<char>, Seq<char>)>
    decreases devices.len(),
{
    if devices.len() == 0 {
        Seq::empty()
    } else {
        let before = routed_keys(config, known, devices.drop_last());
        if verdict(config, known, devices.last()) {
            before.push(usb_key(devices.last()))
        } else {
            before
        }
    }
}

/// Whether a device of that name is kept from the host: it is routed, and was
/// not handed back on purpose.
pub open spec fn is_reserved(
    config: Config,
    known: Seq<(Seq<char>, Seq<char>)>,
    state: State,
    devices: Seq<UsbDevice>,
    name: Seq<char>,
) -> bool {
    exists|i: int|
        0 <= i < devices.len() && (#[trigger] devices[i]).sys_name@ == name && verdict(
            config,
            known,
            devices[i],
        ) && !state.is_disconnected(usb_id(devices[i]))
}

fn has_key(list: &Vec<(String, String)>, name: &str, id: &str) -> (r: bool)
    ensures
        r == usb_keys(list@).contains((name@, id@)),
{
    let mut i: usize = 0;
    while i < list.len()
        invariant
            i <= list.len(),
            forall|k: int| 0 <= k < i ==> #[trigger] usb_keys(list@)[k] != (name@, id@),
        decreases list.len() - i,
    {
        assert(usb_keys(list@)[i as int] == (list@[i as int].0@, list@[i as int].1@));
        if same(list[i].0.as_str(), name) && same(list[i].1.as_str(), id) {
            return true;
        }
        i += 1;
    }
    false
}

/// Whether a device of that name is attached to a machine.
pub open spec fn is_held(state: State, devices: Seq<UsbDevice>, name: Seq<char>) -> bool {
    exists|i: int|
        0 <= i < devices.len() && (#[trigger] devices[i]).sys_name@ == name && holder(
            state.usb_vms@,
            opt(devices[i].device_node),
        ) is Some
}

/// The machine that a device goes to by itself: the target of its rule, or
/// the one that it was last attached to.
pub open spec fn resume_target(state: State, device: UsbDevice, rule: RuleMatch) -> Option<Seq<char>> {
    if rule.target_vm is Some {
        opt(rule.target_vm)
    } else {
        holder(state.persistent.selected_vms@, Some(usb_id(device)))
    }
}

/// Whether a request for one machine, or for all, covers a device with the
/// given target.
pub open spec fn in_scope(vm: Option<Seq<char>>, target: Option<Seq<char>>) -> bool {
    vm is None || vm == target
}

/// What to do about a device when machines resume.
#[derive(Debug)]
pub enum Resume {
    Skip,
    /// Attach the device, to this machine where one is known.
    Attach(Option<String>),
}

impl DeviceManager {
    /// A manager with a valid configuration. It starts with what was stored,
    /// where storing is enabled, and else with nothing.
    pub fn new(config: Config, stored: Option<PersistentState>) -> (out: Result<Self, Error>)
        ensures
            match out {
                Ok(manager) => {
                    &&& fault(config) is None
                    &&& manager.config == config
                    &&& manager.state.enabled == config.general.persistency
                    &&& manager.state.path == config.general.state_path
                    &&& manager.state.usb_vms@ == Map::<Seq<char>, String>::empty()
                    &&& manager.state.pci_vms@ == Map::<Seq<char>, String>::empty()
                    &&& match stored {
                        Some(stored) if config.general.persistency => manager.state.persistent
                            == stored,
                        _ => {
                            let fresh = manager.state.persistent;
                            &&& fresh.selected_vms@ == Map::<Seq<char>, String>::empty()
                            &&& fresh.disconnected_devices@.len() == 0
                            &&& fresh.crosvm_usb_ports@ == Map::<
                                Seq<char>,
                                UsbPortBinding,
                            >::empty()
                        },
                    }
                    &&& manager.observed_usb@ == Map::<Seq<char>, UsbDevice>::empty()
                    &&& manager.observed_pci@ == Map::<Seq<char>, PciDevice>::empty()
                    &&& manager.pending_usb_selection@ == Map::<Seq<char>, ()>::empty()
                    &&& manager.usb_routing@.len() == 0
                    &&& manager.reported_usb_hubs@ == Map::<Seq<char>, ()>::empty()
                    &&& !manager.deferred
                },
                Err(error) => fault(config) == Some(error),
            },
    {
        match config.validate() {
            Ok(_) => {},
            Err(error) => {
                return Err(error);
            },
        }
        let state = State::load(
            config.general.persistency,
            config.general.state_path.clone(),
            stored,
        );
        Ok(
            DeviceManager {
                config,
                state,
                observed_usb: StringMap::new(),
                observed_pci: StringMap::new(),
                pending_usb_selection: StringMap::new(),
                usb_routing: Vec::new(),
                reported_usb_hubs: StringMap::new(),
                deferred: false,
            },
        )
    }

    /// The routed devices among those that were found.
    pub fn usb_devices(&self, devices: Vec<UsbDevice>) -> (out: Vec<(UsbDevice, RuleMatch)>)
        ensures
            pairs_usb(self.config, routed(self.config, devices@), out@),
    {
        let mut out: Vec<(UsbDevice, RuleMatch)> = Vec::new();
        let ghost all = devices@;
        proof {
            reveal(Seq::filter);
            assert(all.take(0).len() == 0);
        }
        for device in it: devices
            invariant
                it.seq() == all,
                pairs_usb(self.config, routed(self.config, all.take(it.index())), out@),
        {
            let ghost head = all.take(it.index());
            let ghost next = all.take(it.index() + 1);
            proof {
                reveal(Seq::filter);
                assert(next.drop_last() =~= head);
                assert(next.last() == device);
            }
            match self.config.usb_rule(&device) {
                Some(rule) => {
                    proof {
                        let rules = self.config.usb_passthrough@;
                        let at = choose|at: int|
                            #![trigger rules[at]]
                            first_route(self.config, device, at)
                                && is_usb_match(rules[at], rule);
                        assert(is_routed(self.config, device));
                    }
                    assert(routed(self.config, next) == routed(self.config, head).push(device));
                    out.push((device, rule));
                },
                None => {
                    assert(routed(self.config, next) == routed(self.config, head));
                },
            }
        }
        assert(all.take(all.len() as int) =~= all);
        out
    }

    /// The routed PCI devices among those that were found.
    pub fn pci_candidates(&self, devices: Vec<PciDevice>) -> (out: Vec<(PciDevice, RuleMatch)>)
        ensures
            pairs_pci(self.config, routed_pci(self.config, devices@), out@),
    {
        let mut out: Vec<(PciDevice, RuleMatch)> = Vec::new();
        let ghost all = devices@;
        proof {
            reveal(Seq::filter);
            assert(all.take(0).len() == 0);
        }
        for device in it: devices
            invariant
                it.seq() == all,
                pairs_pci(self.config, routed_pci(self.config, all.take(it.index())), out@),
        {
            let ghost head = all.take(it.index());
            let ghost next = all.take(it.index() + 1);
            proof {
                reveal(Seq::filter);
                assert(next.drop_last() =~= head);
                assert(next.last() == device);
            }
            match self.config.pci_rule(&device) {
                Some(rule) => {
                    proof {
                        let rules = self.config.pci_passthrough@;
                        let at = choose|at: int|
                            #![trigger rules[at]]
                            first_pci_route(rules, device, at)
                                && is_pci_match(rules[at], rule) && rule.order
                                == capped(
                                position(rules.take(at + 1), device),
                            );
                        assert(routes_pci(rules[at], device));
                        assert(is_pci_routed(self.config, device));
                    }
                    assert(routed_pci(self.config, next) == routed_pci(self.config, head).push(
                        device,
                    ));
                    out.push((device, rule));
                },
                None => {
                    assert(routed_pci(self.config, next) == routed_pci(self.config, head));
                },
            }
        }
        assert(all.take(all.len() as int) =~= all);
        out
    }

    /// What is known of the routed USB devices.
    pub fn usb_list(
        &self,
        devices: Vec<(UsbDevice, RuleMatch)>,
        disconnected: Option<bool>,
        tag: Option<&str>,
    ) -> (out: Vec<UsbListDevice>)
        ensures
            are_usb_entries(
                self.state,
                wanted_usb(self.state, devices@, disconnected, opt_ref(tag)),
                out@,
            ),
    {
        let mut out: Vec<UsbListDevice> = Vec::new();
        let ghost all = devices@;
        let ghost wish = opt_ref(tag);
        proof {
            reveal(Seq::filter);
            assert(all.take(0).len() == 0);
        }
        for item in it: devices
            invariant
                it.seq() == all,
                wish == opt_ref(tag),
                are_usb_entries(
                    self.state,
                    wanted_usb(self.state, all.take(it.index()), disconnected, wish),
                    out@,
                ),
        {
            let ghost head = wanted_usb(self.state, all.take(it.index()), disconnected, wish);
            let ghost next = all.take(it.index() + 1);
            proof {
                reveal(Seq::filter);
                assert(next.drop_last() =~= all.take(it.index()));
                assert(next.last() == item);
            }
            let (device, rule) = item;
            let id = device.persistent_id();
            let is_disconnected = self.state.disconnected(id.as_str());
            if wanted(&rule, is_disconnected, disconnected, tag) {
                assert(wanted_usb(self.state, next, disconnected, wish) == head.push(item));
                let vm = lookup(&self.state.usb_vms, as_deref(&device.device_node));
                let allowed_vms = allowed_vms(&rule);
                out.push(UsbListDevice { device, allowed_vms, vm, disconnected: is_disconnected });
            } else {
                assert(wanted_usb(self.state, next, disconnected, wish) == head);
            }
        }
        assert(all.take(all.len() as int) =~= all);
        out
    }

    /// What is known of the routed PCI devices.
    pub fn pci_list(
        &self,
        devices: Vec<(PciDevice, RuleMatch)>,
        disconnected: Option<bool>,
        tag: Option<&str>,
    ) -> (out: Vec<PciListDevice>)
        ensures
            are_pci_entries(
                self.state,
                wanted_pci(self.state, devices@, disconnected, opt_ref(tag)),
                out@,
            ),
    {
        let mut out: Vec<PciListDevice> = Vec::new();
        let ghost all = devices@;
        let ghost wish = opt_ref(tag);
        proof {
            reveal(Seq::filter);
            assert(all.take(0).len() == 0);
        }
        for item in it: devices
            invariant
                it.seq() == all,
                wish == opt_ref(tag),
                are_pci_entries(
                    self.state,
                    wanted_pci(self.state, all.take(it.index()), disconnected, wish),
                    out@,
                ),
        {
            let ghost head = wanted_pci(self.state, all.take(it.index()), disconnected, wish);
            let ghost next = all.take(it.index() + 1);
            proof {
                reveal(Seq::filter);
                assert(next.drop_last() =~= all.take(it.index()));
                assert(next.last() == item);
            }
            let (device, rule) = item;
            let id = device.persistent_id();
            let is_disconnected = self.state.disconnected(id.as_str());
            if wanted(&rule, is_disconnected, disconnected, tag) {
                assert(wanted_pci(self.state, next, disconnected, wish) == head.push(item));
                let vm = lookup(&self.state.pci_vms, Some(device.address.as_str()));
                let allowed_vms = allowed_vms(&rule);
                out.push(PciListDevice { device, allowed_vms, vm, disconnected: is_disconnected });
            } else {
                assert(wanted_pci(self.state, next, disconnected, wish) == head);
            }
        }
        assert(all.take(all.len() as int) =~= all);
        out
    }

    /// Whether drivers are kept off routed devices: the bus can be gated, and
    /// there are USB rules.
    pub open spec fn gates(self, has_bus: bool) -> bool {
        has_bus && has_usb_rules(self.config.usb_passthrough@)
    }

    /// Whether drivers are kept off routed devices.
    pub fn gates_usb(&self, has_bus: bool) -> (r: bool)
        ensures
            r == self.gates(has_bus),
    {
        has_bus && self.config.routes_usb()
    }

    /// Decides anew which devices are kept from the host, by name. A device
    /// that was routed stays so for as long as it is plugged in; one that is
    /// gone is forgotten.
    pub fn usb_routing(&mut self, devices: &Vec<UsbDevice>) -> (out: StringMap<()>)
        ensures
            forall|name: Seq<char>| #[trigger]
                out@.contains_key(name) <==> is_reserved(
                    old(self).config,
                    usb_keys(old(self).usb_routing@),
                    old(self).state,
                    devices@,
                    name,
                ),
            usb_keys(final(self).usb_routing@) == routed_keys(
                old(self).config,
                usb_keys(old(self).usb_routing@),
                devices@,
            ),
            *final(self) == (DeviceManager {
                usb_routing: final(self).usb_routing,
                ..*old(self)
            }),
    {
        let mut names: StringMap<()> = StringMap::new();
        let mut routed: Vec<(String, String)> = Vec::new();
        let ghost known = usb_keys(self.usb_routing@);
        let mut i: usize = 0;
        assert(devices@.take(0).len() == 0);
        assert(usb_keys(routed@) =~= Seq::<(Seq<char>, Seq<char>)>::empty());
        while i < devices.len()
            invariant
                i <= devices.len(),
                *self == *old(self),
                known == usb_keys(old(self).usb_routing@),
                usb_keys(routed@) == routed_keys(self.config, known, devices@.take(i as int)),
                forall|name: Seq<char>| #[trigger]
                    names@.contains_key(name) <==> is_reserved(
                        self.config,
                        known,
                        self.state,
                        devices@.take(i as int),
                        name,
                    ),
            decreases devices.len() - i,
        {
            let device = &devices[i];
            let ghost head = devices@.take(i as int);
            let ghost next = devices@.take(i + 1);
            assert(next.drop_last() =~= head);
            assert(next.last() == *device);
            let id = device.persistent_id();
            let matched = self.config.usb_rule(device).is_some() || has_key(
                &self.usb_routing,
                device.sys_name.as_str(),
                id.as_str(),
            );
            proof {
                lemma_rule_is_routed(self.config, *device);
            }
            assert(matched == verdict(self.config, known, *device));
            let ghost before = names@;
            if matched && !self.state.disconnected(id.as_str()) {
                names.insert(device.sys_name.as_str(), ());
            }
            if matched {
                let ghost done = routed@;
                routed.push((device.sys_name.clone(), id));
                assert(usb_keys(routed@) =~= usb_keys(done).push(usb_key(*device)));
            }
            assert forall|name: Seq<char>| #[trigger]
                names@.contains_key(name) <==> is_reserved(
                self.config,
                known,
                self.state,
                next,
                name,
            ) by {
                lemma_reserved_push(self.config, known, self.state, head, *device, name);
                assert(next =~= head.push(*device));
                assert(before.contains_key(name) <==> is_reserved(
                    self.config,
                    known,
                    self.state,
                    head,
                    name,
                ));
            }
            i += 1;
        }
        assert(devices@.take(devices@.len() as int) =~= devices@);
        self.usb_routing = routed;
        names
    }

    /// The names of the devices that are attached to a machine.
    pub fn usb_held_by_vms(&self, devices: &Vec<UsbDevice>) -> (out: StringMap<()>)
        ensures
            forall|name: Seq<char>| #[trigger]
                out@.contains_key(name) <==> is_held(self.state, devices@, name),
    {
        let mut names: StringMap<()> = StringMap::new();
        let mut i: usize = 0;
        while i < devices.len()
            invariant
                i <= devices.len(),
                forall|name: Seq<char>| #[trigger]
                    names@.contains_key(name) <==> is_held(
                        self.state,
                        devices@.take(i as int),
                        name,
                    ),
            decreases devices.len() - i,
        {
            let device = &devices[i];
            let ghost head = devices@.take(i as int);
            let ghost next = devices@.take(i + 1);
            let ghost before = names@;
            assert(next =~= head.push(*device));
            if lookup(&self.state.usb_vms, as_deref(&device.device_node)).is_some() {
                names.insert(device.sys_name.as_str(), ());
            }
            assert forall|name: Seq<char>| #[trigger]
                names@.contains_key(name) <==> is_held(self.state, next, name) by {
                assert(before.contains_key(name) <==> is_held(self.state, head, name));
                lemma_held_push(self.state, head, *device, name);
            }
            i += 1;
        }
        assert(devices@.take(devices@.len() as int) =~= devices@);
        names
    }

    /// Whether a USB device is taken off its machine when machines suspend.
    pub fn suspends_usb(&self, device: &UsbDevice, rule: &RuleMatch, vm: Option<&str>) -> (r: bool)
        ensures
            r == ({
                let node = match opt(device.device_node) {
                    Some(node) => node,
                    None => ""@,
                };
                let attached = holder(self.state.usb_vms@, Some(node));
                !rule.skip_on_suspend && attached is Some && in_scope(opt_ref(vm), attached)
            }),
    {
        if rule.skip_on_suspend {
            return false;
        }
        let node = match &device.device_node {
            Some(node) => node.as_str(),
            None => "",
        };
        match lookup(&self.state.usb_vms, Some(node)) {
            Some(name) => match vm {
                Some(vm) => same(vm, name.as_str()),
                None => true,
            },
            None => false,
        }
    }

    /// Whether a PCI device is taken off its machine when machines suspend.
    pub fn suspends_pci(&self, device: &PciDevice, rule: &RuleMatch, vm: Option<&str>) -> (r: bool)
        ensures
            r == ({
                let attached = holder(self.state.pci_vms@, Some(device.address@));
                !rule.skip_on_suspend && attached is Some && in_scope(opt_ref(vm), attached)
            }),
    {
        if rule.skip_on_suspend {
            return false;
        }
        match lookup(&self.state.pci_vms, Some(device.address.as_str())) {
            Some(name) => match vm {
                Some(vm) => same(vm, name.as_str()),
                None => true,
            },
            None => false,
        }
    }

    /// What to do about a USB device when machines resume.
    pub fn resumes_usb(&self, device: &UsbDevice, rule: &RuleMatch, vm: Option<&str>) -> (out:
        Resume)
        ensures
            ({
                let target = resume_target(self.state, *device, *rule);
                if self.state.is_disconnected(usb_id(*device)) || !in_scope(opt_ref(vm), target) {
                    out is Skip
                } else {
                    out matches Resume::Attach(name) && opt(name) == target
                }
            }),
    {
        let id = device.persistent_id();
        if self.state.disconnected(id.as_str()) {
            return Resume::Skip;
        }
        let target = match &rule.target_vm {
            Some(target) => Some(target.clone()),
            None => lookup(&self.state.persistent.selected_vms, Some(id.as_str())),
        };
        let covered = match vm {
            Some(vm) => is_text(as_deref(&target), vm),
            None => true,
        };
        if covered {
            Resume::Attach(target)
        } else {
            Resume::Skip
        }
    }

    /// Whether a PCI device is attached to its machine when machines resume.
    pub fn resumes_pci(&self, device: &PciDevice, rule: &RuleMatch, vm: Option<&str>) -> (r: bool)
        ensures
            r == (!self.state.is_disconnected(pci_id(*device)) && rule.target_vm is Some
                && in_scope(opt_ref(vm), opt(rule.target_vm))),
    {
        let id = device.persistent_id();
        if self.state.disconnected(id.as_str()) {
            return false;
        }
        match &rule.target_vm {
            Some(name) => match vm {
                Some(vm) => same(vm, name.as_str()),
                None => true,
            },
            None => false,
        }
    }

    /// The control socket that shows whether a machine runs; none where the
    /// machine is not known.
    pub fn vm_socket(&self, vm: Option<&str>) -> (out: Option<String>)
        ensures
            match opt_ref(vm) {
                Some(name) => match vm_named(self.config.vms@, name) {
                    Some(found) => out == Some(found.socket),
                    None => out is None,
                },
                None => out is None,
            },
    {
        match vm {
            Some(name) => match self.config.vm(name) {
                Ok(vm) => Some(vm.socket.clone()),
                Err(_) => None,
            },
            None => None,
        }
    }

    /// Takes the failure of an attach while machines resume. Where the
    /// machine does not run the work is put off, else the failure is
    /// reported.
    pub fn attach_failed(&mut self, name: &str, error: &Error, vm_stopped: bool) -> (line: Option<
        String,
    >)
        ensures
            line is Some <==> !vm_stopped,
            line is Some ==> line->0@ == name@ + ": "@ + error.text(),
            *final(self) == (DeviceManager {
                deferred: old(self).deferred || vm_stopped,
                ..*old(self)
            }),
    {
        if vm_stopped {
            self.deferred = true;
            None
        } else {
            Some(failure_line(name, error))
        }
    }

    /// Whether the last pass put work off because a machine was not running.
    pub fn deferred(&self) -> (r: bool)
        ensures
            r == self.deferred,
    {
        self.deferred
    }
}

proof fn lemma_rule_is_routed(config: Config, device: UsbDevice)
    ensures
        forall|found: Option<RuleMatch>| #[trigger]
            is_usb_rule(config, device, found) ==> (found is Some <==> is_routed(config, device)),
{
    assert forall|found: Option<RuleMatch>| #[trigger] is_usb_rule(config, device, found)
        && found is Some implies is_routed(config, device) by {
        let rules = config.usb_passthrough@;
        let at = choose|at: int|
            #![trigger rules[at]]
            first_route(config, device, at) && is_usb_match(
                rules[at],
                found->0,
            );
        assert(routes(config, rules[at], device));
    }
}

proof fn lemma_reserved_push(
    config: Config,
    known: Seq<(Seq<char>, Seq<char>)>,
    state: State,
    devices: Seq<UsbDevice>,
    device: UsbDevice,
    name: Seq<char>,
)
    ensures
        is_reserved(config, known, state, devices.push(device), name) <==> is_reserved(
            config,
            known,
            state,
            devices,
            name,
        ) || (device.sys_name@ == name && verdict(config, known, device) && !state.is_disconnected(
            usb_id(device),
        )),
{
    let more = devices.push(device);
    if is_reserved(config, known, state, devices, name) {
        let i = choose|i: int|
            0 <= i < devices.len() && (#[trigger] devices[i]).sys_name@ == name && verdict(
                config,
                known,
                devices[i],
            ) && !state.is_disconnected(usb_id(devices[i]));
        assert(more[i] == devices[i]);
    }
    assert(more[devices.len() as int] == device);
    if is_reserved(config, known, state, more, name) {
        let i = choose|i: int|
            0 <= i < more.len() && (#[trigger] more[i]).sys_name@ == name && verdict(
                config,
                known,
                more[i],
            ) && !state.is_disconnected(usb_id(more[i]));
        if i < devices.len() {
            assert(more[i] == devices[i]);
        }
    }
}

proof fn lemma_held_push(state: State, devices: Seq<UsbDevice>, device: UsbDevice, name: Seq<char>)
    ensures
        is_held(state, devices.push(device), name) <==> is_held(state, devices, name) || (
        device.sys_name@ == name && holder(state.usb_vms@, opt(device.device_node)) is Some),
{
    let more = devices.push(device);
    if is_held(state, devices, name) {
        let i = choose|i: int|
            0 <= i < devices.len() && (#[trigger] devices[i]).sys_name@ == name && holder(
                state.usb_vms@,
                opt(devices[i].device_node),
            ) is Some;
        assert(more[i] == devices[i]);
    }
    assert(more[devices.len() as int] == device);
    if is_held(state, more, name) {
        let i = choose|i: int|
            0 <= i < more.len() && (#[trigger] more[i]).sys_name@ == name && holder(
                state.usb_vms@,
                opt(more[i].device_node),
            ) is Some;
        if i < devices.len() {
            assert(more[i] == devices[i]);
        }
    }
}

proof fn lemma_routed_keys(
    config: Config,
    known: Seq<(Seq<char>, Seq<char>)>,
    devices: Seq<UsbDevice>,
    at: int,
)
    requires
        0 <= at < devices.len(),
        verdict(config, known, devices[at]),
    ensures
        routed_keys(config, known, devices).contains(usb_key(devices[at])),
    decreases devices.len(),
{
    let key = usb_key(devices[at]);
    let all = routed_keys(config, known, devices);
    let before = routed_keys(config, known, devices.drop_last());
    if at < devices.len() - 1 {
        lemma_routed_keys(config, known, devices.drop_last(), at);
        let k = choose|k: int| 0 <= k < before.len() && before[k] == key;
        assert(all[k] == key);
    } else {
        assert(all[before.len() as int] == key);
    }
}

/// A device that was routed stays so for as long as it is plugged in, even
/// where no rule matches it any more.
pub proof fn law_routing_sticks(
    config: Config,
    known: Seq<(Seq<char>, Seq<char>)>,
    devices: Seq<UsbDevice>,
    at: int,
)
    requires
        0 <= at < devices.len(),
        known.contains(usb_key(devices[at])),
    ensures
        routed_keys(config, known, devices).contains(usb_key(devices[at])),
{
    lemma_routed_keys(config, known, devices, at);
}

/// A device that a rule routes is known as routed after the pass, whatever
/// else is plugged in.
pub proof fn law_routing_is_remembered(
    config: Config,
    known: Seq<(Seq<char>, Seq<char>)>,
    devices: Seq<UsbDevice>,
    at: int,
)
    requires
        0 <= at < devices.len(),
        is_routed(config, devices[at]),
    ensures
        routed_keys(config, known, devices).contains(usb_key(devices[at])),
{
    lemma_routed_keys(config, known, devices, at);
}

/// A device that is routed in one pass is kept from the host in the next one,
/// as long as it is still there and was not disconnected on purpose: no rule
/// has to match it again, and no other device changes that.
pub proof fn law_routed_stays_reserved(
    first: Config,
    known: Seq<(Seq<char>, Seq<char>)>,
    before: Seq<UsbDevice>,
    at: int,
    second: Config,
    state: State,
    after: Seq<UsbDevice>,
    place: int,
)
    requires
        0 <= at < before.len(),
        verdict(first, known, before[at]),
        0 <= place < after.len(),
        usb_key(after[place]) == usb_key(before[at]),
        !state.is_disconnected(usb_id(after[place])),
    ensures
        is_reserved(
            second,
            routed_keys(first, known, before),
            state,
            after,
            before[at].sys_name@,
        ),
        routed_keys(second, routed_keys(first, known, before), after).contains(
            usb_key(before[at]),
        ),
{
    lemma_routed_keys(first, known, before, at);
    assert(verdict(second, routed_keys(first, known, before), after[place]));
    lemma_routed_keys(second, routed_keys(first, known, before), after, place);
}

/// A device that is not plugged in any more is forgotten, so that it is
/// decided anew when it comes back.
pub proof fn law_unplugged_is_forgotten(
    config: Config,
    known: Seq<(Seq<char>, Seq<char>)>,
    devices: Seq<UsbDevice>,
    device: UsbDevice,
)
    requires
        forall|i: int| 0 <= i < devices.len() ==> usb_key(#[trigger] devices[i]) != usb_key(device),
    ensures
        !routed_keys(config, known, devices).contains(usb_key(device)),
    decreases devices.len(),
{
    if devices.len() > 0 {
        assert(usb_key(devices[devices.len() - 1]) != usb_key(device));
        let head = devices.drop_last();
        assert forall|i: int| 0 <= i < head.len() implies usb_key(#[trigger] head[i]) != usb_key(
            device,
        ) by {
            assert(devices[i] == head[i]);
        }
        law_unplugged_is_forgotten(config, known, head, device);
        let before = routed_keys(config, known, head);
        let all = routed_keys(config, known, devices);
        if all.contains(usb_key(device)) {
            let k = choose|k: int| 0 <= k < all.len() && all[k] == usb_key(device);
            if k < before.len() {
                assert(before[k] == usb_key(device));
            }
        }
    }
}

/// A device that was disconnected on purpose belongs to the host again: it is
/// not kept from it, whatever the rules say.
pub proof fn law_disconnected_is_not_reserved(
    config: Config,
    known: Seq<(Seq<char>, Seq<char>)>,
    state: State,
    devices: Seq<UsbDevice>,
    name: Seq<char>,
)
    requires
        forall|i: int|
            0 <= i < devices.len() && (#[trigger] devices[i]).sys_name@ == name
                ==> state.is_disconnected(usb_id(devices[i])),
    ensures
        !is_reserved(config, known, state, devices, name),
{
}

/// A routed device stays reserved while its machine does not run: nothing but
/// a mark of a disconnected device hands it back, wherever devices are
/// attached.
pub proof fn law_waiting_device_stays_reserved(
    config: Config,
    known: Seq<(Seq<char>, Seq<char>)>,
    before: State,
    after: State,
    devices: Seq<UsbDevice>,
    name: Seq<char>,
)
    requires
        forall|id: Seq<char>| #[trigger] after.is_disconnected(id) ==> before.is_disconnected(id),
        is_reserved(config, known, before, devices, name),
    ensures
        is_reserved(config, known, after, devices, name),
{
    let i = choose|i: int|
        0 <= i < devices.len() && (#[trigger] devices[i]).sys_name@ == name && verdict(
            config,
            known,
            devices[i],
        ) && !before.is_disconnected(usb_id(devices[i]));
    assert(!after.is_disconnected(usb_id(devices[i])));
}

/// Without USB rules the USB gate is never used.
pub proof fn law_no_rules_no_gate(manager: DeviceManager, has_bus: bool)
    requires
        !has_usb_rules(manager.config.usb_passthrough@),
    ensures
        !manager.gates(has_bus),
{
}

/// A request selects exactly the PCI devices that it asks for, in order; where
/// it asks for none of those that there are it fails.
pub proof fn law_pci_selection_is_exact(
    devices: Vec<(PciDevice, RuleMatch)>,
    selector: &Selector,
    out: Result<Vec<(PciDevice, RuleMatch)>, Error>,
    answers: Seq<bool>,
)
    requires
        call_ensures(selected_pci, (devices, selector), out),
        answers.len() == devices@.len(),
        forall|k: int|
            #![trigger answers[k]]
            0 <= k < answers.len() ==> call_ensures(
                pci_asked,
                (selector, &devices@[k].0, &devices@[k].1),
                answers[k],
            ),
    ensures
        out is Ok <==> exists|k: int| 0 <= k < answers.len() && #[trigger] answers[k],
        out is Err ==> out->Err_0 is NoPciMatch,
        out is Ok ==> exists|places: Seq<int>| #[trigger]
            taken_at(devices@, places, (out->Ok_0)@) && forall|k: int|
                #![trigger places.contains(k)]
                0 <= k < devices@.len() ==> (places.contains(k) <==> answers[k]),
{
    let keep = |item: (PciDevice, RuleMatch)| asks_pci(*selector, item.0, item.1);
    let places = lemma_filter_places(devices@, keep);
    let found = asked_pci(*selector, devices@);
    assert(taken_at(devices@, places, found));
    assert forall|k: int| 0 <= k < answers.len() implies #[trigger] answers[k] == keep(
        devices@[k],
    ) by {}
    if found.len() > 0 {
        assert(places.contains(places[0]));
        assert(answers[places[0]]);
    }
    assert forall|k: int| 0 <= k < answers.len() && #[trigger] answers[k] implies found.len()
        > 0 by {
        assert(places.contains(k));
    }
}

/// A request that gives a vendor id and a device id, no address and no tag
/// asks for exactly the PCI devices that have both, in any letter case.
pub proof fn law_pci_ids_are_asked_for(
    selector: &Selector,
    device: &PciDevice,
    rule: &RuleMatch,
    r: bool,
)
    requires
        call_ensures(pci_asked, (selector, device, rule), r),
        selector.address is None,
        selector.tag is None,
    ensures
        r <==> {
            &&& selector.vid is Some
            &&& selector.did is Some
            &&& device.vendor_id_text is Some
            &&& device.device_id_text is Some
            &&& same_letters(device.vendor_id_text->0@, selector.vid->0@)
            &&& same_letters(device.device_id_text->0@, selector.did->0@)
        },
        r <==> asks_pci(*selector, *device, *rule),
{
}

/// A request that gives an address, a tag or both asks for the PCI device at
/// the address, in any letter case, and those whose rule has the tag; half an
/// id asks for nothing.
pub proof fn law_pci_is_asked_for_by_address_or_tag(
    selector: &Selector,
    device: &PciDevice,
    rule: &RuleMatch,
    r: bool,
)
    requires
        call_ensures(pci_asked, (selector, device, rule), r),
        selector.vid is None || selector.did is None,
    ensures
        r <==> {
            ||| selector.address is Some && same_letters(device.address@, selector.address->0@)
            ||| selector.tag is Some && rule.tag is Some && rule.tag->0@ == selector.tag->0@
        },
{
}

/// A request selects exactly the PCI devices with the vendor id and the device
/// id that it gives, where it gives no address and no tag: every selected
/// device has both, and none that has both is left out.
pub proof fn law_pci_ids_select(
    devices: Vec<(PciDevice, RuleMatch)>,
    selector: &Selector,
    out: Result<Vec<(PciDevice, RuleMatch)>, Error>,
)
    requires
        call_ensures(selected_pci, (devices, selector), out),
        selector.address is None,
        selector.tag is None,
    ensures
        out is Ok ==> forall|i: int|
            #![trigger (out->Ok_0)@[i]]
            0 <= i < (out->Ok_0)@.len() ==> {
                let device = (out->Ok_0)@[i].0;
                &&& device.vendor_id_text is Some
                &&& device.device_id_text is Some
                &&& selector.vid is Some
                &&& selector.did is Some
                &&& same_letters(device.vendor_id_text->0@, selector.vid->0@)
                &&& same_letters(device.device_id_text->0@, selector.did->0@)
                &&& devices@.contains((out->Ok_0)@[i])
            },
        forall|k: int|
            #![trigger devices@[k]]
            {
                let device = devices@[k].0;
                &&& 0 <= k < devices@.len()
                &&& device.vendor_id_text is Some
                &&& device.device_id_text is Some
                &&& selector.vid is Some
                &&& selector.did is Some
                &&& same_letters(device.vendor_id_text->0@, selector.vid->0@)
                &&& same_letters(device.device_id_text->0@, selector.did->0@)
            } ==> out is Ok && (out->Ok_0)@.contains(devices@[k]),
{
    let keep = |item: (PciDevice, RuleMatch)| asks_pci(*selector, item.0, item.1);
    let places = lemma_filter_places(devices@, keep);
    let found = asked_pci(*selector, devices@);
    assert forall|i: int|
        #![trigger found[i]]
        0 <= i < found.len() implies keep(found[i]) && devices@.contains(found[i]) by {
        assert(places.contains(places[i]));
        assert(found[i] == devices@[places[i]]);
    }
    assert forall|k: int|
        #![trigger devices@[k]]
        0 <= k < devices@.len() && keep(devices@[k]) implies found.contains(devices@[k]) by {
        assert(places.contains(k));
        let i = choose|i: int| 0 <= i < places.len() && places[i] == k;
        assert(found[i] == devices@[k]);
    }
}

/// A request selects exactly the USB devices that it asks for, in order; where
/// it asks for none of those that there are it fails.
pub proof fn law_usb_selection_is_exact(
    devices: Vec<(UsbDevice, RuleMatch)>,
    selector: &Selector,
    out: Result<Vec<(UsbDevice, RuleMatch)>, Error>,
    answers: Seq<bool>,
)
    requires
        call_ensures(selected_usb, (devices, selector), out),
        answers.len() == devices@.len(),
        forall|k: int|
            #![trigger answers[k]]
            0 <= k < answers.len() ==> call_ensures(
                usb_asked,
                (selector, &devices@[k].0, &devices@[k].1),
                answers[k],
            ),
    ensures
        out is Ok <==> exists|k: int| 0 <= k < answers.len() && #[trigger] answers[k],
        out is Err ==> out->Err_0 is NoUsbMatch,
        out is Ok ==> exists|places: Seq<int>| #[trigger]
            taken_at(devices@, places, (out->Ok_0)@) && forall|k: int|
                #![trigger places.contains(k)]
                0 <= k < devices@.len() ==> (places.contains(k) <==> answers[k]),
{
    let keep = |item: (UsbDevice, RuleMatch)| asks_usb(*selector, item.0, item.1);
    let places = lemma_filter_places(devices@, keep);
    let found = asked_usb(*selector, devices@);
    assert(taken_at(devices@, places, found));
    assert forall|k: int| 0 <= k < answers.len() implies #[trigger] answers[k] == keep(
        devices@[k],
    ) by {}
    if found.len() > 0 {
        assert(places.contains(places[0]));
        assert(answers[places[0]]);
    }
    assert forall|k: int| 0 <= k < answers.len() && #[trigger] answers[k] implies found.len()
        > 0 by {
        assert(places.contains(k));
    }
}

/// A request asks for exactly the USB devices that have the node, sit at the
/// bus and port, have both ids in any letter case, or whose rule has the tag,
/// of which it gives any. Half a place and half an id ask for nothing.
pub proof fn law_usb_is_asked_for(
    selector: &Selector,
    device: &UsbDevice,
    rule: &RuleMatch,
    r: bool,
)
    requires
        call_ensures(usb_asked, (selector, device, rule), r),
    ensures
        selector.device_node is Some && device.device_node is Some && selector.device_node->0@
            == device.device_node->0@ ==> r,
        selector.tag is Some && rule.tag is Some && selector.tag->0@ == rule.tag->0@ ==> r,
        selector.bus is Some && selector.port is Some && device.bus == selector.bus
            && device.root_port == selector.port ==> r,
        selector.vid is Some && selector.pid is Some && device.vid is Some && device.pid is Some
            && same_letters(device.vid->0@, selector.vid->0@) && same_letters(
            device.pid->0@,
            selector.pid->0@,
        ) ==> r,
        r && selector.device_node is None && selector.tag is None && (selector.bus is None
            || selector.port is None) ==> selector.vid is Some && selector.pid is Some
            && device.vid is Some && device.pid is Some && same_letters(
            device.vid->0@,
            selector.vid->0@,
        ) && same_letters(device.pid->0@, selector.pid->0@),
        r && selector.device_node is None && selector.tag is None && (selector.vid is None
            || selector.pid is None) ==> selector.bus is Some && selector.port is Some
            && device.bus == selector.bus && device.root_port == selector.port,
        r && (selector.vid is None || selector.pid is None) && selector.tag is None && (
        selector.bus is None || selector.port is None) ==> selector.device_node is Some
            && device.device_node is Some && selector.device_node->0@ == device.device_node->0@,
        r && (selector.vid is None || selector.pid is None) && selector.device_node is None && (
        selector.bus is None || selector.port is None) ==> selector.tag is Some && rule.tag is Some
            && selector.tag->0@ == rule.tag->0@,
        r <==> asks_usb(*selector, *device, *rule),
{
}

/// The routed devices are exactly those of a look that a rule gives to a
/// machine, in order, each with what the rules say of it.
pub proof fn law_routed_devices_are_those_with_a_rule(
    manager: &DeviceManager,
    devices: Vec<UsbDevice>,
    out: Vec<(UsbDevice, RuleMatch)>,
)
    requires
        call_ensures(DeviceManager::usb_devices, (manager, devices), out),
    ensures
        exists|places: Seq<int>| #[trigger]
            taken_at(devices@, places, firsts(out@)) && forall|k: int|
                #![trigger places.contains(k)]
                0 <= k < devices@.len() ==> (places.contains(k) <==> exists|at: int|
                    #![trigger manager.config.usb_passthrough@[at]]
                    0 <= at < manager.config.usb_passthrough@.len() && gives(
                        manager.config,
                        manager.config.usb_passthrough@[at],
                        devices@[k],
                    )),
        forall|i: int|
            #![trigger out@[i]]
            0 <= i < out@.len() ==> is_usb_rule(manager.config, out@[i].0, Some(out@[i].1)),
{
    let config = manager.config;
    let keep = |device: UsbDevice| is_routed(config, device);
    let places = lemma_filter_places(devices@, keep);
    let found = routed(config, devices@);
    assert(firsts(out@) =~= found);
    assert(taken_at(devices@, places, firsts(out@)));
    assert forall|k: int|
        #![trigger places.contains(k)]
        0 <= k < devices@.len() implies (places.contains(k) <==> exists|at: int|
        #![trigger config.usb_passthrough@[at]]
        0 <= at < config.usb_passthrough@.len() && gives(
            config,
            config.usb_passthrough@[at],
            devices@[k],
        )) by {
        assert(places.contains(k) <==> keep(devices@[k]));
        lemma_routed_is_given(config, devices@[k]);
    }
}

/// The routed PCI devices are exactly those of a look that a rule gives to a
/// machine, in order, each with what the rules say of it.
pub proof fn law_routed_pci_devices_are_those_with_a_rule(
    manager: &DeviceManager,
    devices: Vec<PciDevice>,
    out: Vec<(PciDevice, RuleMatch)>,
)
    requires
        call_ensures(DeviceManager::pci_candidates, (manager, devices), out),
    ensures
        exists|places: Seq<int>| #[trigger]
            taken_at(devices@, places, firsts(out@)) && forall|k: int|
                #![trigger places.contains(k)]
                0 <= k < devices@.len() ==> (places.contains(k) <==> exists|at: int|
                    #![trigger manager.config.pci_passthrough@[at]]
                    0 <= at < manager.config.pci_passthrough@.len() && gives_pci(
                        manager.config.pci_passthrough@[at],
                        devices@[k],
                    )),
        forall|i: int|
            #![trigger out@[i]]
            0 <= i < out@.len() ==> is_pci_rule(
                manager.config.pci_passthrough@,
                out@[i].0,
                Some(out@[i].1),
            ),
{
    let config = manager.config;
    let keep = |device: PciDevice| is_pci_routed(config, device);
    let places = lemma_filter_places(devices@, keep);
    let found = routed_pci(config, devices@);
    assert(firsts(out@) =~= found);
    assert(taken_at(devices@, places, firsts(out@)));
    assert forall|k: int|
        #![trigger places.contains(k)]
        0 <= k < devices@.len() implies (places.contains(k) <==> exists|at: int|
        #![trigger config.pci_passthrough@[at]]
        0 <= at < config.pci_passthrough@.len() && gives_pci(
            config.pci_passthrough@[at],
            devices@[k],
        )) by {
        assert(places.contains(k) <==> keep(devices@[k]));
        lemma_pci_routed_is_given(config, devices@[k]);
    }
}

/// The list of PCI devices has exactly those that are not kept back because
/// they share their group, sorted by the place of their rule and then by
/// address.
pub proof fn law_shared_devices_are_kept_back(
    candidates: Vec<PciCandidate>,
    out: Vec<(PciDevice, RuleMatch)>,
)
    requires
        call_ensures(pci_devices, (candidates,), out),
    ensures
        forall|i: int|
            #![trigger candidates@[i]]
            0 <= i < candidates@.len() && !(candidates@[i].1.iommu_skip_if_shared
                && candidates@[i].2 > 1) ==> out@.contains((candidates@[i].0, candidates@[i].1)),
        forall|k: int|
            #![trigger out@[k]]
            0 <= k < out@.len() ==> exists|i: int|
                #![trigger candidates@[i]]
                0 <= i < candidates@.len() && candidates@[i].0 == out@[k].0 && candidates@[i].1
                    == out@[k].1 && !(candidates@[i].1.iommu_skip_if_shared && candidates@[i].2
                    > 1),
        forall|i: int, j: int|
            #![trigger out@[i], out@[j]]
            0 <= i < j < out@.len() ==> out@[i].1.order < out@[j].1.order || (out@[i].1.order
                == out@[j].1.order && precedes(out@[i].0.address@, out@[j].0.address@)),
{
    broadcast use vstd::seq_lib::group_to_multiset_ensures;

    let list = kept(candidates@);
    assert forall|item: (PciDevice, RuleMatch)| #[trigger]
        out@.contains(item) <==> list.contains(item) by {
        assert(out@.contains(item) <==> out@.to_multiset().count(item) > 0);
        assert(list.contains(item) <==> list.to_multiset().count(item) > 0);
    }
    lemma_kept(candidates@);
    assert forall|i: int|
        #![trigger candidates@[i]]
        0 <= i < candidates@.len() && !is_left_out(candidates@[i]) implies out@.contains(
        (candidates@[i].0, candidates@[i].1),
    ) by {
        assert(list.contains((candidates@[i].0, candidates@[i].1)));
    }
    assert forall|k: int| 0 <= k < out@.len() implies stays(
        candidates@,
        #[trigger] out@[k],
    ) by {
        assert(out@.contains(out@[k]));
        assert(list.contains(out@[k]));
    }
    assert(in_order(out@));
}

spec fn stays(candidates: Seq<PciCandidate>, item: (PciDevice, RuleMatch)) -> bool {
    exists|i: int|
        #![trigger candidates[i]]
        0 <= i < candidates.len() && candidates[i].0 == item.0 && candidates[i].1 == item.1
            && !is_left_out(candidates[i])
}

proof fn lemma_kept(candidates: Seq<PciCandidate>)
    ensures
        forall|item: (PciDevice, RuleMatch)| #[trigger]
            kept(candidates).contains(item) <==> stays(candidates, item),
    decreases candidates.len(),
{
    if candidates.len() == 0 {
        assert(kept(candidates).len() == 0);
    } else {
        let short = candidates.drop_last();
        let last = candidates.last();
        lemma_kept(short);
        let before = kept(short);
        let all = kept(candidates);
        assert forall|item: (PciDevice, RuleMatch)| #[trigger]
            all.contains(item) <==> stays(candidates, item) by {
            if stays(candidates, item) {
                let i = choose|i: int|
                    #![trigger candidates[i]]
                    0 <= i < candidates.len() && candidates[i].0 == item.0 && candidates[i].1
                        == item.1 && !is_left_out(candidates[i]);
                if i < short.len() {
                    assert(short[i] == candidates[i]);
                    assert(before.contains(item));
                    let k = choose|k: int| 0 <= k < before.len() && before[k] == item;
                    assert(all[k] == item);
                } else {
                    assert(all[before.len() as int] == item);
                }
            }
            if all.contains(item) {
                let k = choose|k: int| 0 <= k < all.len() && all[k] == item;
                if k < before.len() {
                    assert(before[k] == item);
                    assert(before.contains(item));
                    let i = choose|i: int|
                        #![trigger short[i]]
                        0 <= i < short.len() && short[i].0 == item.0 && short[i].1 == item.1
                            && !is_left_out(short[i]);
                    assert(candidates[i] == short[i]);
                } else {
                    assert(candidates[candidates.len() - 1] == last);
                }
            }
        }
    }
}

/// A rule allows its target, where it has one, and after it the machines that
/// it lists, in order.
pub proof fn law_target_is_allowed_first(rule: &RuleMatch, out: Vec<String>)
    requires
        call_ensures(allowed_vms, (rule,), out),
    ensures
        rule.target_vm is Some ==> out@.len() == rule.allowed_vms@.len() + 1 && out@[0]@
            == rule.target_vm->0@ && forall|i: int|
            0 <= i < rule.allowed_vms@.len() ==> out@[i + 1]@ == #[trigger] rule.allowed_vms@[i]@,
        rule.target_vm is None ==> out@.len() == rule.allowed_vms@.len() && forall|i: int|
            0 <= i < rule.allowed_vms@.len() ==> out@[i]@ == #[trigger] rule.allowed_vms@[i]@,
{
    let list = views(rule.allowed_vms@);
    assert(views(out@).len() == out@.len());
    if rule.target_vm is Some {
        assert(views(out@)[0] == out@[0]@);
        assert forall|i: int| 0 <= i < rule.allowed_vms@.len() implies out@[i + 1]@
            == #[trigger] rule.allowed_vms@[i]@ by {
            assert(views(out@)[i + 1] == list[i]);
        }
    } else {
        assert forall|i: int| 0 <= i < rule.allowed_vms@.len() implies out@[i]@
            == #[trigger] rule.allowed_vms@[i]@ by {
            assert(views(out@)[i] == list[i]);
        }
    }
}

/// A list has exactly the devices that are disconnected or not, as asked for,
/// and whose rule has the tag that is asked for; it says of each which machine
/// has it and whether it is disconnected.
pub proof fn law_usb_list_is_what_is_asked_for(
    manager: &DeviceManager,
    devices: Vec<(UsbDevice, RuleMatch)>,
    disconnected: Option<bool>,
    tag: Option<&str>,
    out: Vec<UsbListDevice>,
)
    requires
        call_ensures(DeviceManager::usb_list, (manager, devices, disconnected, tag), out),
    ensures
        exists|places: Seq<int>|
            {
                &&& places.len() == out@.len()
                &&& #[trigger] taken_at(devices@, places, at_places(devices@, places))
                &&& forall|k: int|
                    #![trigger places.contains(k)]
                    0 <= k < devices@.len() ==> (places.contains(k) <==> {
                        &&& disconnected is Some ==> disconnected->0
                            == manager.state.is_disconnected(usb_id(devices@[k].0))
                        &&& tag is Some ==> devices@[k].1.tag is Some && devices@[k].1.tag->0@
                            == tag->0@
                    })
                &&& forall|i: int|
                    #![trigger out@[i]]
                    0 <= i < out@.len() ==> {
                        let device = devices@[places[i]].0;
                        let vms = manager.state.usb_vms@;
                        &&& out@[i].device == device
                        &&& out@[i].disconnected == manager.state.is_disconnected(usb_id(device))
                        &&& out@[i].vm is Some <==> device.device_node is Some && vms.contains_key(
                            device.device_node->0@,
                        )
                        &&& out@[i].vm is Some ==> out@[i].vm->0@ == vms[device.device_node->0@]@
                        &&& views(out@[i].allowed_vms@) == allowed(devices@[places[i]].1)
                    }
            },
{
    let wish = opt_ref(tag);
    let keep = |item: (UsbDevice, RuleMatch)|
        is_wanted(item.1, manager.state.is_disconnected(usb_id(item.0)), disconnected, wish);
    let places = lemma_filter_places(devices@, keep);
    let found = wanted_usb(manager.state, devices@, disconnected, wish);
    assert(found =~= at_places(devices@, places));
    assert(taken_at(devices@, places, at_places(devices@, places)));
    assert forall|i: int| 0 <= i < out@.len() implies is_usb_entry(
        manager.state,
        devices@[places[i]],
        #[trigger] out@[i],
    ) by {
        assert(found[i] == devices@[places[i]]);
    }
    assert forall|k: int|
        #![trigger places.contains(k)]
        0 <= k < devices@.len() implies (places.contains(k) <==> keep(devices@[k])) by {}
}

/// A list of PCI devices has exactly those that are disconnected or not, as
/// asked for, and whose rule has the tag that is asked for.
pub proof fn law_pci_list_is_what_is_asked_for(
    manager: &DeviceManager,
    devices: Vec<(PciDevice, RuleMatch)>,
    disconnected: Option<bool>,
    tag: Option<&str>,
    out: Vec<PciListDevice>,
)
    requires
        call_ensures(DeviceManager::pci_list, (manager, devices, disconnected, tag), out),
    ensures
        exists|places: Seq<int>|
            {
                &&& places.len() == out@.len()
                &&& #[trigger] taken_at(devices@, places, at_places(devices@, places))
                &&& forall|k: int|
                    #![trigger places.contains(k)]
                    0 <= k < devices@.len() ==> (places.contains(k) <==> {
                        &&& disconnected is Some ==> disconnected->0
                            == manager.state.is_disconnected(pci_id(devices@[k].0))
                        &&& tag is Some ==> devices@[k].1.tag is Some && devices@[k].1.tag->0@
                            == tag->0@
                    })
                &&& forall|i: int|
                    #![trigger out@[i]]
                    0 <= i < out@.len() ==> {
                        let device = devices@[places[i]].0;
                        let vms = manager.state.pci_vms@;
                        &&& out@[i].device == device
                        &&& out@[i].disconnected == manager.state.is_disconnected(pci_id(device))
                        &&& out@[i].vm is Some <==> vms.contains_key(device.address@)
                        &&& out@[i].vm is Some ==> out@[i].vm->0@ == vms[device.address@]@
                        &&& views(out@[i].allowed_vms@) == allowed(devices@[places[i]].1)
                    }
            },
{
    let wish = opt_ref(tag);
    let keep = |item: (PciDevice, RuleMatch)|
        is_wanted(item.1, manager.state.is_disconnected(pci_id(item.0)), disconnected, wish);
    let places = lemma_filter_places(devices@, keep);
    let found = wanted_pci(manager.state, devices@, disconnected, wish);
    assert(found =~= at_places(devices@, places));
    assert(taken_at(devices@, places, at_places(devices@, places)));
    assert forall|i: int| 0 <= i < out@.len() implies is_pci_entry(
        manager.state,
        devices@[places[i]],
        #[trigger] out@[i],
    ) by {
        assert(found[i] == devices@[places[i]]);
    }
    assert forall|k: int|
        #![trigger places.contains(k)]
        0 <= k < devices@.len() implies (places.contains(k) <==> keep(devices@[k])) by {}
}

/// A device is kept from the host exactly where a rule gives it to a machine,
/// now or since it was plugged in, and it is not disconnected on purpose. What
/// is attached is told by its node.
pub proof fn law_reserved_devices(
    manager: &mut DeviceManager,
    devices: &Vec<UsbDevice>,
    reserved: StringMap<()>,
    keeper: &DeviceManager,
    held: StringMap<()>,
    name: Seq<char>,
)
    requires
        call_ensures(DeviceManager::usb_routing, (manager, devices), reserved),
        call_ensures(DeviceManager::usb_held_by_vms, (keeper, devices), held),
    ensures
        reserved@.contains_key(name) <==> exists|i: int|
            #![trigger devices@[i]]
            0 <= i < devices@.len() && devices@[i].sys_name@ == name && !old(
                manager,
            ).state.is_disconnected(usb_id(devices@[i])) && ((exists|at: int|
                #![trigger old(manager).config.usb_passthrough@[at]]
                0 <= at < old(manager).config.usb_passthrough@.len() && gives(
                    old(manager).config,
                    old(manager).config.usb_passthrough@[at],
                    devices@[i],
                )) || (exists|k: int|
                #![trigger old(manager).usb_routing@[k]]
                0 <= k < old(manager).usb_routing@.len() && old(manager).usb_routing@[k].0@ == name
                    && old(manager).usb_routing@[k].1@ == usb_id(devices@[i]))),
        held@.contains_key(name) <==> exists|i: int|
            #![trigger devices@[i]]
            0 <= i < devices@.len() && devices@[i].sys_name@ == name
                && devices@[i].device_node is Some && keeper.state.usb_vms@.contains_key(
                devices@[i].device_node->0@,
            ),
        final(manager).state == old(manager).state,
        final(manager).config == old(manager).config,
{
    let config = old(manager).config;
    let routing = old(manager).usb_routing@;
    let known = usb_keys(routing);
    assert forall|i: int|
        #![trigger devices@[i]]
        0 <= i < devices@.len() && devices@[i].sys_name@ == name implies (verdict(
        config,
        known,
        devices@[i],
    ) <==> (exists|at: int|
        #![trigger config.usb_passthrough@[at]]
        0 <= at < config.usb_passthrough@.len() && gives(
            config,
            config.usb_passthrough@[at],
            devices@[i],
        )) || (exists|k: int|
        #![trigger routing[k]]
        0 <= k < routing.len() && routing[k].0@ == name && routing[k].1@ == usb_id(
            devices@[i],
        ))) by {
        lemma_routed_is_given(config, devices@[i]);
        let key = usb_key(devices@[i]);
        if known.contains(key) {
            let k = choose|k: int| 0 <= k < known.len() && known[k] == key;
            assert(routing[k].0@ == name && routing[k].1@ == usb_id(devices@[i]));
        }
        assert forall|k: int|
            #![trigger routing[k]]
            0 <= k < routing.len() && routing[k].0@ == name && routing[k].1@ == usb_id(
                devices@[i],
            ) implies known.contains(key) by {
            assert(known[k] == key);
        }
    }
}

/// Suspending takes a device off exactly where a machine has it, its rule does
/// not except it, and the request is for that machine or for all.
pub proof fn law_suspension_is_scoped(
    manager: &DeviceManager,
    usb: &UsbDevice,
    pci: &PciDevice,
    rule: &RuleMatch,
    vm: Option<&str>,
    off_usb: bool,
    off_pci: bool,
)
    requires
        call_ensures(DeviceManager::suspends_usb, (manager, usb, rule, vm), off_usb),
        call_ensures(DeviceManager::suspends_pci, (manager, pci, rule, vm), off_pci),
        usb.device_node is Some,
    ensures
        ({
            let vms = manager.state.usb_vms@;
            let node = usb.device_node->0@;
            off_usb <==> !rule.skip_on_suspend && vms.contains_key(node) && (vm is Some
                ==> vms[node]@ == vm->0@)
        }),
        ({
            let vms = manager.state.pci_vms@;
            off_pci <==> !rule.skip_on_suspend && vms.contains_key(pci.address@) && (vm is Some
                ==> vms[pci.address@]@ == vm->0@)
        }),
{
}

/// Resuming brings a device back exactly where it was not disconnected on
/// purpose and the request is for all or for the machine that it goes to: the
/// target of its rule, else the machine that was last selected for it.
pub proof fn law_resumption_is_scoped(
    manager: &DeviceManager,
    usb: &UsbDevice,
    pci: &PciDevice,
    rule: &RuleMatch,
    vm: Option<&str>,
    back: Resume,
    back_pci: bool,
)
    requires
        call_ensures(DeviceManager::resumes_usb, (manager, usb, rule, vm), back),
        call_ensures(DeviceManager::resumes_pci, (manager, pci, rule, vm), back_pci),
    ensures
        manager.state.is_disconnected(usb_id(*usb)) ==> back is Skip,
        manager.state.is_disconnected(pci_id(*pci)) ==> !back_pci,
        back matches Resume::Attach(name) ==> {
            &&& rule.target_vm is Some ==> name is Some && name->0@ == rule.target_vm->0@
            &&& name is Some && rule.target_vm is None
                ==> manager.state.persistent.selected_vms@.contains_key(usb_id(*usb))
                && name->0@ == manager.state.persistent.selected_vms@[usb_id(*usb)]@
            &&& vm is Some ==> name is Some && name->0@ == vm->0@
            &&& name is None ==> rule.target_vm is None
                && !manager.state.persistent.selected_vms@.contains_key(usb_id(*usb))
        },
        !manager.state.is_disconnected(usb_id(*usb)) && vm is None ==> back is Attach,
        !manager.state.is_disconnected(usb_id(*usb)) && vm is Some && rule.target_vm is Some
            && rule.target_vm->0@ == vm->0@ ==> back is Attach,
        !manager.state.is_disconnected(usb_id(*usb)) && vm is Some && rule.target_vm is None
            && manager.state.persistent.selected_vms@.contains_key(usb_id(*usb))
            && manager.state.persistent.selected_vms@[usb_id(*usb)]@ == vm->0@ ==> back is Attach,
        !manager.state.is_disconnected(pci_id(*pci)) ==> (back_pci <==> rule.target_vm is Some && (
        vm is Some ==> rule.target_vm->0@ == vm->0@)),
{
}

/// A failure is put off exactly where the machine does not run, and is else
/// reported under the name of the device; it is the socket of the very machine
/// that tells whether it runs.
pub proof fn law_failures_are_put_off(
    manager: &mut DeviceManager,
    name: &str,
    error: &Error,
    stopped: bool,
    line: Option<String>,
    keeper: &DeviceManager,
    vm: Option<&str>,
    socket: Option<String>,
)
    requires
        call_ensures(DeviceManager::attach_failed, (manager, name, error, stopped), line),
        call_ensures(DeviceManager::vm_socket, (keeper, vm), socket),
    ensures
        stopped ==> line is None && final(manager).deferred,
        !stopped ==> final(manager).deferred == old(manager).deferred && line is Some
            && line->0@.len() > 0 && begins(line->0@, name@),
        final(manager).state == old(manager).state,
        vm is None ==> socket is None,
        socket is Some ==> vm is Some && exists|i: int|
            0 <= i < keeper.config.vms@.len() && (#[trigger] keeper.config.vms@[i]).name@ == vm->0@
                && keeper.config.vms@[i].socket == socket->0,
        vm is Some && (exists|i: int|
            0 <= i < keeper.config.vms@.len() && (#[trigger] keeper.config.vms@[i]).name@
                == vm->0@) ==> socket is Some,
{
    if !stopped {
        reveal_strlit(": ");
        assert(line->0@.take(name@.len() as int) =~= name@);
    }
    if vm is Some {
        lemma_vm_named(keeper.config.vms@, vm->0@);
    }
}

/// Work on several devices succeeds exactly where nothing failed.
pub proof fn law_all_or_failed(failures: Vec<String>, out: Result<(), Error>)
    requires
        call_ensures(aggregate, (failures,), out),
    ensures
        out is Ok <==> failures@.len() == 0,
        out is Err ==> out->Err_0 == Error::Several(failures),
{
}

/// A manager starts with a valid configuration alone, holds no device, and
/// knows of earlier runs only what was stored, where storing is on.
pub proof fn law_manager_starts_empty(
    config: Config,
    stored: Option<PersistentState>,
    out: Result<DeviceManager, Error>,
    valid: Result<(), Error>,
)
    requires
        call_ensures(DeviceManager::new, (config, stored), out),
        call_ensures(Config::validate, (&config,), valid),
    ensures
        out is Ok <==> valid is Ok,
        out is Err ==> out->Err_0 == valid->Err_0,
        out matches Ok(manager) ==> {
            &&& manager.config == config
            &&& manager.state.path@ == config.general.state_path@
            &&& manager.state.enabled == config.general.persistency
            &&& forall|key: Seq<char>| !(#[trigger] manager.state.usb_vms@.contains_key(key))
            &&& forall|key: Seq<char>| !(#[trigger] manager.state.pci_vms@.contains_key(key))
            &&& config.general.persistency && stored is Some ==> manager.state.persistent
                == stored->0
            &&& !config.general.persistency || stored is None ==> {
                &&& manager.state.persistent.disconnected_devices@.len() == 0
                &&& forall|key: Seq<char>|
                    !(#[trigger] manager.state.persistent.selected_vms@.contains_key(key))
                &&& forall|key: Seq<char>|
                    !(#[trigger] manager.state.persistent.crosvm_usb_ports@.contains_key(key))
            }
            &&& manager.usb_routing@.len() == 0
            &&& !manager.deferred
        },
{
}

/// Drivers are kept off the routed devices exactly where the bus allows it and
/// a USB rule is on.
pub proof fn law_bus_is_kept_closed_for_rules(manager: &DeviceManager, has_bus: bool, r: bool)
    requires
        call_ensures(DeviceManager::gates_usb, (manager, has_bus), r),
    ensures
        r <==> has_bus && exists|i: int|
            #![trigger manager.config.usb_passthrough@[i]]
            0 <= i < manager.config.usb_passthrough@.len() && is_enabled(
                manager.config.usb_passthrough@[i],
            ),
        r <==> manager.gates(has_bus),
{
}

/// Two runs of a machine are told apart: the identity of a control socket is
/// the same exactly where the device, the inode and the time of change are.
pub proof fn law_generation_is_the_identity(
    one: (u64, u64, i64),
    other: (u64, u64, i64),
    a: String,
    b: String,
)
    requires
        call_ensures(socket_generation, one, a),
        call_ensures(socket_generation, other, b),
    ensures
        a@ == b@ <==> one == other,
{
    reveal_strlit(":");
    if a@ == b@ {
        let first = decimal_digits(one.0 as nat);
        let second = decimal_digits(one.1 as nat);
        let third = signed_digits(one.2 as int);
        let x = decimal_digits(other.0 as nat);
        let y = decimal_digits(other.1 as nat);
        let z = signed_digits(other.2 as int);
        lemma_digits(one.0 as nat, 10);
        lemma_digits(one.1 as nat, 10);
        lemma_digits(other.0 as nat, 10);
        lemma_digits(other.1 as nat, 10);
        assert(a@ =~= first + seq![':'] + (second + seq![':'] + third));
        assert(b@ =~= x + seq![':'] + (y + seq![':'] + z));
        lemma_cut_alike(':', first, second + seq![':'] + third, x, y + seq![':'] + z);
        lemma_cut_alike(':', second, third, y, z);
        law_written_alike_is_the_same(one.0 as nat, other.0 as nat, 10);
        law_written_alike_is_the_same(one.1 as nat, other.1 as nat, 10);
        law_sign_is_written(one.2 as int, other.2 as int);
    }
}

} // verus!
