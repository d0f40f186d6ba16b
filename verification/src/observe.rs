//! Noticing devices that come and go.

use crate::config::{lemma_vm_named, vm_named};
use crate::device::{usb_id, PciDevice, UsbDevice};
use crate::error::Error;
use crate::manager::DeviceManager;
use crate::pci::rest_of;
use crate::protocol::Event;
use crate::state::{PersistentState, State, UsbPortBinding};
use crate::table::StringMap;
use crate::text::{lemma_lists_push, lists, opt, same, unique};
use crate::usb_attach::{has_live, is_live, known_binding};
use vstd::prelude::*;

verus! {

/// Whether a USB device of that name is there.
pub open spec fn names_usb(devices: Seq<UsbDevice>, name: Seq<char>) -> bool {
    exists|i: int| 0 <= i < devices.len() && (#[trigger] devices[i]).sys_name@ == name
}

/// Whether a PCI device of that address is there.
pub open spec fn names_pci(devices: Seq<PciDevice>, address: Seq<char>) -> bool {
    exists|i: int| 0 <= i < devices.len() && (#[trigger] devices[i]).address@ == address
}

/// The USB devices by name.
pub open spec fn usb_by_name(devices: Seq<UsbDevice>) -> Map<Seq<char>, UsbDevice>
    decreases devices.len(),
{
    if devices.len() == 0 {
        Map::empty()
    } else {
        usb_by_name(devices.drop_last()).insert(devices.last().sys_name@, devices.last())
    }
}

/// The PCI devices by address.
pub open spec fn pci_by_address(devices: Seq<PciDevice>) -> Map<Seq<char>, PciDevice>
    decreases devices.len(),
{
    if devices.len() == 0 {
        Map::empty()
    } else {
        pci_by_address(devices.drop_last()).insert(devices.last().address@, devices.last())
    }
}

/// Whether a place is among those listed.
pub open spec fn has_place(places: Seq<usize>, at: int) -> bool {
    exists|k: int| 0 <= k < places.len() && #[trigger] places[k] == at
}

/// Whether no later device has the name of the one at a place.
pub open spec fn is_last_usb(devices: Seq<UsbDevice>, at: int) -> bool {
    forall|k: int| at < k < devices.len() ==> (#[trigger] devices[k]).sys_name@ != devices[at].sys_name@
}

/// Whether no later device has the address of the one at a place.
pub open spec fn is_last_pci(devices: Seq<PciDevice>, at: int) -> bool {
    forall|k: int| at < k < devices.len() ==> (#[trigger] devices[k]).address@ != devices[at].address@
}

/// Whether the device at a place is news: its name was not there before. Of
/// several devices of one name the last one counts.
pub open spec fn is_new_usb(
    observed: Map<Seq<char>, UsbDevice>,
    devices: Seq<UsbDevice>,
    at: int,
) -> bool {
    !observed.contains_key(devices[at].sys_name@) && is_last_usb(devices, at)
}

/// Whether the device at a place is news: its address was not there before.
/// Of several devices of one address the last one counts.
pub open spec fn is_new_pci(
    observed: Map<Seq<char>, PciDevice>,
    devices: Seq<PciDevice>,
    at: int,
) -> bool {
    !observed.contains_key(devices[at].address@) && is_last_pci(devices, at)
}

/// Whether `places` are those of the devices that were not there before, in
/// order.
pub open spec fn are_new_usb(
    observed: Map<Seq<char>, UsbDevice>,
    devices: Seq<UsbDevice>,
    places: Seq<usize>,
) -> bool {
    &&& forall|k: int|
        0 <= k < places.len() ==> (#[trigger] places[k]) < devices.len() && is_new_usb(
            observed,
            devices,
            places[k] as int,
        )
    &&& forall|j: int, k: int| 0 <= j < k < places.len() ==> places[j] < places[k]
    &&& forall|i: int|
        0 <= i < devices.len() && #[trigger] is_new_usb(observed, devices, i) ==> has_place(
            places,
            i,
        )
}

/// Whether `places` are those of the devices that were not there before, in
/// order.
pub open spec fn are_new_pci(
    observed: Map<Seq<char>, PciDevice>,
    devices: Seq<PciDevice>,
    places: Seq<usize>,
) -> bool {
    &&& forall|k: int|
        0 <= k < places.len() ==> (#[trigger] places[k]) < devices.len() && is_new_pci(
            observed,
            devices,
            places[k] as int,
        )
    &&& forall|j: int, k: int| 0 <= j < k < places.len() ==> places[j] < places[k]
    &&& forall|i: int|
        0 <= i < devices.len() && #[trigger] is_new_pci(observed, devices, i) ==> has_place(
            places,
            i,
        )
}

/// Whether `names` are those of the devices that were there before and are
/// gone, each once.
pub open spec fn are_gone_usb(
    observed: Map<Seq<char>, UsbDevice>,
    devices: Seq<UsbDevice>,
    names: Seq<String>,
) -> bool {
    &&& unique(names)
    &&& forall|name: Seq<char>| #[trigger]
        lists(names, name) <==> observed.contains_key(name) && !names_usb(devices, name)
}

/// Whether `addresses` are those of the devices that were there before and
/// are gone, each once.
pub open spec fn are_gone_pci(
    observed: Map<Seq<char>, PciDevice>,
    devices: Seq<PciDevice>,
    addresses: Seq<String>,
) -> bool {
    &&& unique(addresses)
    &&& forall|address: Seq<char>| #[trigger]
        lists(addresses, address) <==> observed.contains_key(address) && !names_pci(
            devices,
            address,
        )
}

fn comes_last_usb(devices: &Vec<UsbDevice>, at: usize) -> (r: bool)
    requires
        at < devices.len(),
    ensures
        r == is_last_usb(devices@, at as int),
{
    let mut i: usize = at + 1;
    while i < devices.len()
        invariant
            at < i <= devices.len(),
            forall|k: int|
                at < k < i ==> (#[trigger] devices@[k]).sys_name@ != devices@[at as int].sys_name@,
        decreases devices.len() - i,
    {
        if same(devices[i].sys_name.as_str(), devices[at].sys_name.as_str()) {
            return false;
        }
        i += 1;
    }
    true
}

fn is_usb_named(devices: &Vec<UsbDevice>, name: &str) -> (r: bool)
    ensures
        r == names_usb(devices@, name@),
{
    let mut i: usize = 0;
    while i < devices.len()
        invariant
            i <= devices.len(),
            forall|k: int| 0 <= k < i ==> (#[trigger] devices@[k]).sys_name@ != name@,
        decreases devices.len() - i,
    {
        if same(devices[i].sys_name.as_str(), name) {
            return true;
        }
        i += 1;
    }
    false
}

fn comes_last_pci(devices: &Vec<PciDevice>, at: usize) -> (r: bool)
    requires
        at < devices.len(),
    ensures
        r == is_last_pci(devices@, at as int),
{
    let mut i: usize = at + 1;
    while i < devices.len()
        invariant
            at < i <= devices.len(),
            forall|k: int|
                at < k < i ==> (#[trigger] devices@[k]).address@ != devices@[at as int].address@,
        decreases devices.len() - i,
    {
        if same(devices[i].address.as_str(), devices[at].address.as_str()) {
            return false;
        }
        i += 1;
    }
    true
}

fn is_pci_named(devices: &Vec<PciDevice>, address: &str) -> (r: bool)
    ensures
        r == names_pci(devices@, address@),
{
    let mut i: usize = 0;
    while i < devices.len()
        invariant
            i <= devices.len(),
            forall|k: int| 0 <= k < i ==> (#[trigger] devices@[k]).address@ != address@,
        decreases devices.len() - i,
    {
        if same(devices[i].address.as_str(), address) {
            return true;
        }
        i += 1;
    }
    false
}

proof fn lemma_unique_push(names: Seq<String>, at: int, taken: Seq<String>)
    requires
        unique(names),
        0 <= at < names.len(),
        unique(taken),
        forall|name: Seq<char>| #[trigger] lists(taken, name) ==> lists(names.take(at), name),
    ensures
        unique(taken.push(names[at])),
{
    let head = names.take(at);
    let more = taken.push(names[at]);
    assert forall|i: int, j: int|
        #![trigger more[i], more[j]]
        0 <= i < j < more.len() implies more[i]@ != more[j]@ by {
        assert(more[i] == taken[i]);
        assert(lists(taken, taken[i]@));
        assert(lists(head, taken[i]@));
        let k = choose|k: int| 0 <= k < head.len() && #[trigger] head[k]@ == taken[i]@;
        assert(names[k] == head[k]);
        if j < taken.len() {
            assert(more[j] == taken[j]);
        } else {
            assert(more[j] == names[at]);
        }
    }
}

/// What the loss of a device asks for.
#[derive(Debug)]
pub enum Departure {
    /// No port is remembered.
    Forget,
    /// A port of this machine is remembered. Where the control socket exists,
    /// look whether the port is to be freed.
    Look { socket: String, binding: UsbPortBinding },
    Failed(Error),
}

/// Whether a remembered port belongs to this run of the machine.
pub fn same_run(binding: &UsbPortBinding, generation: &str) -> (r: bool)
    ensures
        r == (binding.socket_generation@ == generation@),
{
    same(binding.socket_generation.as_str(), generation)
}

/// The port to free: the remembered one, where the machine still has there
/// what was attached.
pub fn freed_port(binding: &UsbPortBinding, live: &Vec<(u8, String, String)>) -> (port: Option<u8>)
    ensures
        port == if is_live(live@, binding.port, opt(binding.vid), opt(binding.pid)) {
            Some(binding.port)
        } else {
            None
        },
{
    if has_live(live, binding.port, &binding.vid, &binding.pid) {
        Some(binding.port)
    } else {
        None
    }
}

impl DeviceManager {
    /// The places of the USB devices that were not there before.
    pub fn connected_usb(&self, devices: &Vec<UsbDevice>) -> (out: Vec<usize>)
        ensures
            are_new_usb(self.observed_usb@, devices@, out@),
    {
        let mut out: Vec<usize> = Vec::new();
        let mut i: usize = 0;
        while i < devices.len()
            invariant
                i <= devices.len(),
                forall|k: int|
                    0 <= k < out@.len() ==> (#[trigger] out@[k]) < i && is_new_usb(
                        self.observed_usb@,
                        devices@,
                        out@[k] as int,
                    ),
                forall|j: int, k: int| 0 <= j < k < out@.len() ==> out@[j] < out@[k],
                forall|m: int|
                    0 <= m < i && #[trigger] is_new_usb(self.observed_usb@, devices@, m)
                        ==> has_place(out@, m),
            decreases devices.len() - i,
        {
            if !self.observed_usb.contains_key(devices[i].sys_name.as_str()) && comes_last_usb(
                devices,
                i,
            ) {
                let ghost before = out@;
                out.push(i);
                assert(out@[before.len() as int] == i);
                assert forall|m: int| #[trigger] has_place(before, m) implies has_place(
                    out@,
                    m,
                ) by {
                    let k = choose|k: int| 0 <= k < before.len() && #[trigger] before[k] == m;
                    assert(out@[k] == m);
                }
            }
            i += 1;
        }
        out
    }

    /// The places of the PCI devices that were not there before.
    pub fn connected_pci(&self, devices: &Vec<PciDevice>) -> (out: Vec<usize>)
        ensures
            are_new_pci(self.observed_pci@, devices@, out@),
    {
        let mut out: Vec<usize> = Vec::new();
        let mut i: usize = 0;
        while i < devices.len()
            invariant
                i <= devices.len(),
                forall|k: int|
                    0 <= k < out@.len() ==> (#[trigger] out@[k]) < i && is_new_pci(
                        self.observed_pci@,
                        devices@,
                        out@[k] as int,
                    ),
                forall|j: int, k: int| 0 <= j < k < out@.len() ==> out@[j] < out@[k],
                forall|m: int|
                    0 <= m < i && #[trigger] is_new_pci(self.observed_pci@, devices@, m)
                        ==> has_place(out@, m),
            decreases devices.len() - i,
        {
            if !self.observed_pci.contains_key(devices[i].address.as_str()) && comes_last_pci(
                devices,
                i,
            ) {
                let ghost before = out@;
                out.push(i);
                assert(out@[before.len() as int] == i);
                assert forall|m: int| #[trigger] has_place(before, m) implies has_place(
                    out@,
                    m,
                ) by {
                    let k = choose|k: int| 0 <= k < before.len() && #[trigger] before[k] == m;
                    assert(out@[k] == m);
                }
            }
            i += 1;
        }
        out
    }

    /// The names of the USB devices that were there before and are gone.
    pub fn gone_usb(&self, devices: &Vec<UsbDevice>) -> (out: Vec<String>)
        ensures
            are_gone_usb(self.observed_usb@, devices@, out@),
    {
        let names = self.observed_usb.keys();
        let mut out: Vec<String> = Vec::new();
        let mut i: usize = 0;
        while i < names.len()
            invariant
                i <= names.len(),
                unique(names@),
                unique(out@),
                forall|name: Seq<char>|
                    #![trigger lists(out@, name)]
                    lists(out@, name) <==> lists(names@.take(i as int), name) && !names_usb(
                        devices@,
                        name,
                    ),
            decreases names.len() - i,
        {
            let ghost head = names@.take(i as int);
            let ghost next = names@.take(i + 1);
            let ghost before = out@;
            assert(next =~= head.push(names@[i as int]));
            if !is_usb_named(devices, names[i].as_str()) {
                proof {
                    lemma_unique_push(names@, i as int, before);
                }
                out.push(names[i].clone());
            }
            assert forall|name: Seq<char>|
                #![trigger lists(out@, name)]
                lists(out@, name) <==> lists(next, name) && !names_usb(devices@, name) by {
                lemma_lists_push(head, names@[i as int], name);
                lemma_lists_push(before, names@[i as int], name);
                assert(lists(before, name) <==> lists(head, name) && !names_usb(devices@, name));
            }
            i += 1;
        }
        assert(names@.take(names@.len() as int) =~= names@);
        out
    }

    /// The addresses of the PCI devices that were there before and are gone.
    pub fn gone_pci(&self, devices: &Vec<PciDevice>) -> (out: Vec<String>)
        ensures
            are_gone_pci(self.observed_pci@, devices@, out@),
    {
        let names = self.observed_pci.keys();
        let mut out: Vec<String> = Vec::new();
        let mut i: usize = 0;
        while i < names.len()
            invariant
                i <= names.len(),
                unique(names@),
                unique(out@),
                forall|name: Seq<char>|
                    #![trigger lists(out@, name)]
                    lists(out@, name) <==> lists(names@.take(i as int), name) && !names_pci(
                        devices@,
                        name,
                    ),
            decreases names.len() - i,
        {
            let ghost head = names@.take(i as int);
            let ghost next = names@.take(i + 1);
            let ghost before = out@;
            assert(next =~= head.push(names@[i as int]));
            if !is_pci_named(devices, names[i].as_str()) {
                proof {
                    lemma_unique_push(names@, i as int, before);
                }
                out.push(names[i].clone());
            }
            assert forall|name: Seq<char>|
                #![trigger lists(out@, name)]
                lists(out@, name) <==> lists(next, name) && !names_pci(devices@, name) by {
                lemma_lists_push(head, names@[i as int], name);
                lemma_lists_push(before, names@[i as int], name);
                assert(lists(before, name) <==> lists(head, name) && !names_pci(devices@, name));
            }
            i += 1;
        }
        assert(names@.take(names@.len() as int) =~= names@);
        out
    }

    /// What the loss of a USB device asks for.
    pub fn departure(&self, name: &str) -> (step: Departure)
        ensures
            match known_binding(self.state, name@) {
                None => step is Forget,
                Some(binding) => match vm_named(self.config.vms@, binding.vm@) {
                    None => {
                        &&& step matches Departure::Failed(error)
                        &&& error matches Error::UnknownVm(vm)
                        &&& vm@ == binding.vm@
                    },
                    Some(found) => step == (Departure::Look { socket: found.socket, binding }),
                },
            },
    {
        match self.state.persistent.crosvm_usb_ports.get(name) {
            Some(binding) => match self.config.vm(binding.vm.as_str()) {
                Ok(found) => Departure::Look {
                    socket: found.socket.clone(),
                    binding: binding.clone(),
                },
                Err(error) => Departure::Failed(error),
            },
            None => Departure::Forget,
        }
    }

    /// The device node that a lost device had.
    pub fn lost_node(&self, name: &str) -> (node: Option<String>)
        ensures
            node == if self.observed_usb@.contains_key(name@) {
                self.observed_usb@[name@].device_node
            } else {
                None
            },
    {
        match self.observed_usb.get(name) {
            Some(device) => device.device_node.clone(),
            None => None,
        }
    }

    /// Forgets where a lost USB device was. The state is saved after this.
    pub fn forget_usb(&mut self, name: &str)
        ensures
            *final(self) == (DeviceManager { state: final(self).state, ..*old(self) }),
            final(self).state.persistent.crosvm_usb_ports@ == old(
                self,
            ).state.persistent.crosvm_usb_ports@.remove(name@),
            ({
                let known = old(self).observed_usb@;
                if known.contains_key(name@) && known[name@].device_node is Some {
                    final(self).state.usb_vms@ == old(self).state.usb_vms@.remove(
                        known[name@].device_node->0@,
                    )
                } else {
                    final(self).state.usb_vms == old(self).state.usb_vms
                }
            }),
            final(self).state == (State {
                usb_vms: final(self).state.usb_vms,
                persistent: (PersistentState {
                    crosvm_usb_ports: final(self).state.persistent.crosvm_usb_ports,
                    ..old(self).state.persistent
                }),
                ..old(self).state
            }),
    {
        if let Some(node) = self.lost_node(name) {
            self.state.usb_vms.remove(node.as_str());
        }
        self.state.persistent.crosvm_usb_ports.remove(name);
    }

    /// Asks for no machine for a lost USB device any more.
    pub fn forget_selection(&mut self, name: &str)
        ensures
            ({
                let known = old(self).observed_usb@;
                if known.contains_key(name@) {
                    final(self).pending_usb_selection@ == old(self).pending_usb_selection@.remove(
                        usb_id(known[name@]),
                    )
                } else {
                    final(self).pending_usb_selection == old(self).pending_usb_selection
                }
            }),
            *final(self) == (DeviceManager {
                pending_usb_selection: final(self).pending_usb_selection,
                ..*old(self)
            }),
    {
        let id = match self.observed_usb.get(name) {
            Some(device) => Some(device.persistent_id()),
            None => None,
        };
        if let Some(id) = id {
            self.pending_usb_selection.remove(id.as_str());
        }
    }

    /// Remembers the USB devices that are there.
    pub fn observed_usb(&mut self, devices: Vec<UsbDevice>)
        ensures
            final(self).observed_usb@ == usb_by_name(devices@),
            *final(self) == (DeviceManager {
                observed_usb: final(self).observed_usb,
                ..*old(self)
            }),
    {
        let mut known: StringMap<UsbDevice> = StringMap::new();
        let ghost all = devices@;
        assert(all.take(0).len() == 0);
        for device in it: devices
            invariant
                it.seq() == all,
                known@ == usb_by_name(all.take(it.index())),
        {
            let ghost next = all.take(it.index() + 1);
            assert(next.drop_last() =~= all.take(it.index()));
            assert(next.last() == device);
            let name = device.sys_name.clone();
            known.insert(name.as_str(), device);
        }
        assert(all.take(all.len() as int) =~= all);
        self.observed_usb = known;
    }

    /// Remembers the PCI devices that are there.
    pub fn observed_pci(&mut self, devices: Vec<PciDevice>)
        ensures
            final(self).observed_pci@ == pci_by_address(devices@),
            *final(self) == (DeviceManager {
                observed_pci: final(self).observed_pci,
                ..*old(self)
            }),
    {
        let mut known: StringMap<PciDevice> = StringMap::new();
        let ghost all = devices@;
        assert(all.take(0).len() == 0);
        for device in it: devices
            invariant
                it.seq() == all,
                known@ == pci_by_address(all.take(it.index())),
        {
            let ghost next = all.take(it.index() + 1);
            assert(next.drop_last() =~= all.take(it.index()));
            assert(next.last() == device);
            let address = device.address.clone();
            known.insert(address.as_str(), device);
        }
        assert(all.take(all.len() as int) =~= all);
        self.observed_pci = known;
    }
}

/// A look at the devices, under way.
#[derive(Debug)]
pub struct ObserveTask {
    /// The routed USB devices that are there.
    pub usb: Vec<UsbDevice>,
    /// The routed PCI devices that are there.
    pub pci: Vec<PciDevice>,
    /// The devices that are gone and not yet dealt with.
    pub left: Vec<String>,
}

/// What a look at the devices needs next.
#[derive(Debug)]
pub enum ObserveStep {
    /// Make known that the USB devices at these places came.
    AnnounceUsb { places: Vec<usize>, next: ObserveUsb },
    /// Look at the control socket of the machine that had a device.
    Look { socket: String, next: ObserveLook },
    /// Read the USB list of the machine.
    ListUsb { socket: String, next: ObserveList },
    /// Free the port that the device had.
    FreePort { socket: String, port: u8, next: ObserveFree },
    /// Make known that the device at this node is gone.
    Lost { node: Option<String>, next: ObserveLost },
    /// Save the state.
    Save(ObserveSave),
    /// Make known that the PCI devices at these places came.
    AnnouncePci { places: Vec<usize>, next: ObservePci },
    /// Make known that the device at this address is gone.
    LostPci { address: String, next: ObserveLostPci },
    Done,
    Failed(Error),
}

impl ObserveStep {
    /// The event that this step makes known, if any.
    pub fn event(&self) -> (out: Option<Event>)
        ensures
            out == match *self {
                ObserveStep::AnnounceUsb { .. } => Some(Event::UsbConnected),
                ObserveStep::Lost { .. } => Some(Event::UsbDisconnected),
                ObserveStep::AnnouncePci { .. } => Some(Event::PciConnected),
                ObserveStep::LostPci { .. } => Some(Event::PciDisconnected),
                _ => None::<Event>,
            },
    {
        match self {
            ObserveStep::AnnounceUsb { .. } => Some(Event::UsbConnected),
            ObserveStep::Lost { .. } => Some(Event::UsbDisconnected),
            ObserveStep::AnnouncePci { .. } => Some(Event::PciConnected),
            ObserveStep::LostPci { .. } => Some(Event::PciDisconnected),
            _ => None::<Event>,
        }
    }
}

/// New USB devices are made known.
#[derive(Debug)]
pub struct ObserveUsb {
    pub task: ObserveTask,
}

/// The control socket of a machine is looked at.
#[derive(Debug)]
pub struct ObserveLook {
    pub task: ObserveTask,
    pub socket: String,
    pub binding: UsbPortBinding,
}

/// The USB list of a machine is read.
#[derive(Debug)]
pub struct ObserveList {
    pub task: ObserveTask,
    pub socket: String,
    pub binding: UsbPortBinding,
}

/// A port is freed.
#[derive(Debug)]
pub struct ObserveFree {
    pub task: ObserveTask,
}

/// The loss of a device is made known.
#[derive(Debug)]
pub struct ObserveLost {
    pub task: ObserveTask,
}

/// The state without the device is saved.
#[derive(Debug)]
pub struct ObserveSave {
    pub task: ObserveTask,
}

/// New PCI devices are made known.
#[derive(Debug)]
pub struct ObservePci {
    pub pci: Vec<PciDevice>,
}

/// The loss of a PCI device is made known.
#[derive(Debug)]
pub struct ObserveLostPci {
    pub pci: Vec<PciDevice>,
    /// The devices that are gone and not yet dealt with.
    pub left: Vec<String>,
}

/// The device node that a lost device had.
pub open spec fn node_of(manager: DeviceManager, name: Seq<char>) -> Option<String> {
    if manager.observed_usb@.contains_key(name) {
        manager.observed_usb@[name].device_node
    } else {
        None
    }
}

/// Whether `step` makes the loss of the current device known.
pub open spec fn is_lost_step(manager: DeviceManager, task: ObserveTask, step: ObserveStep) -> bool {
    &&& step matches ObserveStep::Lost { node, next }
    &&& next.task == task
    &&& task.left@.len() > 0 ==> node == node_of(manager, task.left@[0]@)
}

/// Whether `step` deals with the first of the devices that are gone. Where
/// none is left, the devices that are there are remembered, and the PCI
/// devices are next.
pub open spec fn is_gone_step(
    before: DeviceManager,
    task: ObserveTask,
    step: ObserveStep,
    after: DeviceManager,
) -> bool {
    if task.left@.len() == 0 {
        &&& step matches ObserveStep::AnnouncePci { places, next }
        &&& next.pci == task.pci
        &&& are_new_pci(before.observed_pci@, task.pci@, places@)
        &&& after.observed_usb@ == usb_by_name(task.usb@)
        &&& after == (DeviceManager { observed_usb: after.observed_usb, ..before })
    } else {
        &&& after == before
        &&& match known_binding(before.state, task.left@[0]@) {
            None => is_lost_step(before, task, step),
            Some(binding) => match vm_named(before.config.vms@, binding.vm@) {
                None => {
                    &&& step matches ObserveStep::Failed(error)
                    &&& error matches Error::UnknownVm(vm)
                    &&& vm@ == binding.vm@
                },
                Some(found) => step == (ObserveStep::Look {
                    socket: found.socket,
                    next: (ObserveLook { task, socket: found.socket, binding }),
                }),
            },
        }
    }
}

fn lost_step(manager: &DeviceManager, task: ObserveTask) -> (step: ObserveStep)
    ensures
        is_lost_step(*manager, task, step),
{
    let node = if task.left.len() > 0 {
        manager.lost_node(task.left[0].as_str())
    } else {
        None
    };
    ObserveStep::Lost { node, next: ObserveLost { task } }
}

fn gone_step(manager: &mut DeviceManager, task: ObserveTask) -> (step: ObserveStep)
    ensures
        is_gone_step(*old(manager), task, step, *final(manager)),
{
    if task.left.len() == 0 {
        let places = manager.connected_pci(&task.pci);
        manager.observed_usb(task.usb);
        return ObserveStep::AnnouncePci { places, next: ObservePci { pci: task.pci } };
    }
    match manager.departure(task.left[0].as_str()) {
        Departure::Forget => lost_step(manager, task),
        Departure::Look { socket, binding } => {
            let place = socket.clone();
            ObserveStep::Look { socket, next: ObserveLook { task, socket: place, binding } }
        },
        Departure::Failed(error) => ObserveStep::Failed(error),
    }
}

/// Starts a look at the routed devices that are there.
pub fn observe(manager: &DeviceManager, usb: Vec<UsbDevice>, pci: Vec<PciDevice>) -> (step:
    ObserveStep)
    ensures
        step matches ObserveStep::AnnounceUsb { places, next } && next.task.usb == usb
            && next.task.pci == pci && next.task.left@.len() == 0 && are_new_usb(
            manager.observed_usb@,
            usb@,
            places@,
        ),
{
    let places = manager.connected_usb(&usb);
    ObserveStep::AnnounceUsb {
        places,
        next: ObserveUsb { task: ObserveTask { usb, pci, left: Vec::new() } },
    }
}

impl ObserveUsb {
    /// Goes on once the new USB devices are made known: deals with those that
    /// are gone.
    pub fn announced(self, manager: &mut DeviceManager) -> (step: ObserveStep)
        ensures
            exists|task: ObserveTask| #[trigger]
                is_gone_step(*old(manager), task, step, *final(manager)) && task.usb
                    == self.task.usb && task.pci == self.task.pci && are_gone_usb(
                    old(manager).observed_usb@,
                    task.usb@,
                    task.left@,
                ),
    {
        let left = manager.gone_usb(&self.task.usb);
        let task = ObserveTask { usb: self.task.usb, pci: self.task.pci, left };
        gone_step(manager, task)
    }
}

impl ObserveLook {
    /// Takes the identity of the control socket, where it exists. Only the run
    /// of the machine that got the device can still have it.
    pub fn looked(self, manager: &DeviceManager, generation: Option<String>) -> (step: ObserveStep)
        ensures
            if opt(generation) == Some(self.binding.socket_generation@) {
                step == (ObserveStep::ListUsb {
                    socket: self.socket,
                    next: (ObserveList {
                        task: self.task,
                        socket: self.socket,
                        binding: self.binding,
                    }),
                })
            } else {
                is_lost_step(*manager, self.task, step)
            },
    {
        let is_same = match &generation {
            Some(generation) => same_run(&self.binding, generation.as_str()),
            None => false,
        };
        if is_same {
            let socket = self.socket.clone();
            ObserveStep::ListUsb {
                socket,
                next: ObserveList {
                    task: self.task,
                    socket: self.socket,
                    binding: self.binding,
                },
            }
        } else {
            lost_step(manager, self.task)
        }
    }
}

impl ObserveList {
    /// Takes the USB list of the machine.
    pub fn listed(
        self,
        manager: &DeviceManager,
        live: Result<Vec<(u8, String, String)>, Error>,
    ) -> (step: ObserveStep)
        ensures
            match live {
                Err(error) => step == ObserveStep::Failed(error),
                Ok(live) => if is_live(
                    live@,
                    self.binding.port,
                    opt(self.binding.vid),
                    opt(self.binding.pid),
                ) {
                    step == (ObserveStep::FreePort {
                        socket: self.socket,
                        port: self.binding.port,
                        next: (ObserveFree { task: self.task }),
                    })
                } else {
                    is_lost_step(*manager, self.task, step)
                },
            },
    {
        match live {
            Ok(live) => match freed_port(&self.binding, &live) {
                Some(port) => ObserveStep::FreePort {
                    socket: self.socket,
                    port,
                    next: ObserveFree { task: self.task },
                },
                None => lost_step(manager, self.task),
            },
            Err(error) => ObserveStep::Failed(error),
        }
    }
}

impl ObserveFree {
    /// Goes on once the port is free.
    pub fn freed(self, manager: &DeviceManager, outcome: Result<(), Error>) -> (step: ObserveStep)
        ensures
            match outcome {
                Ok(_) => is_lost_step(*manager, self.task, step),
                Err(error) => step == ObserveStep::Failed(error),
            },
    {
        match outcome {
            Ok(_) => lost_step(manager, self.task),
            Err(error) => ObserveStep::Failed(error),
        }
    }
}

/// Whether a state has forgotten where a lost device was, and nothing else
/// changed.
pub open spec fn loses(before: State, name: Seq<char>, node: Option<String>, after: State) -> bool {
    &&& after.persistent.crosvm_usb_ports@ == before.persistent.crosvm_usb_ports@.remove(name)
    &&& match node {
        Some(node) => after.usb_vms@ == before.usb_vms@.remove(node@),
        None => after.usb_vms == before.usb_vms,
    }
    &&& after == (State {
        usb_vms: after.usb_vms,
        persistent: (PersistentState {
            crosvm_usb_ports: after.persistent.crosvm_usb_ports,
            ..before.persistent
        }),
        ..before
    })
}

impl ObserveLost {
    /// Goes on once the loss is made known: forgets where the device was.
    pub fn announced(self, manager: &mut DeviceManager) -> (step: ObserveStep)
        ensures
            step == ObserveStep::Save((ObserveSave { task: self.task })),
            *final(manager) == (DeviceManager { state: final(manager).state, ..*old(manager) }),
            if self.task.left@.len() > 0 {
                let name = self.task.left@[0]@;
                loses(old(manager).state, name, node_of(*old(manager), name), final(manager).state)
            } else {
                final(manager).state == old(manager).state
            },
    {
        if self.task.left.len() > 0 {
            let name = self.task.left[0].clone();
            manager.forget_usb(name.as_str());
        }
        ObserveStep::Save(ObserveSave { task: self.task })
    }
}

impl ObserveSave {
    /// Goes on once the state is saved: no machine is asked for any more for
    /// the lost device, and the next one is dealt with.
    pub fn saved(self, manager: &mut DeviceManager, outcome: Result<(), Error>) -> (step:
        ObserveStep)
        ensures
            match outcome {
                Err(error) => step == ObserveStep::Failed(error) && *final(manager) == *old(
                    manager,
                ),
                Ok(_) => exists|between: DeviceManager, task: ObserveTask| #[trigger]
                    is_gone_step(between, task, step, *final(manager)) && task.usb
                        == self.task.usb && task.pci == self.task.pci && task.left@ == rest_of(
                        self.task.left@,
                    ) && unasks(*old(manager), self.task.left@, between),
            },
    {
        match outcome {
            Ok(_) => {
                let mut left = self.task.left;
                if left.len() > 0 {
                    let name = left.remove(0);
                    manager.forget_selection(name.as_str());
                }
                assert(left@ =~= rest_of(self.task.left@));
                let ghost between = *manager;
                assert(unasks(*old(manager), self.task.left@, between));
                let task = ObserveTask { usb: self.task.usb, pci: self.task.pci, left };
                gone_step(manager, task)
            },
            Err(error) => ObserveStep::Failed(error),
        }
    }
}

/// Whether no machine is asked for any more for the first of the lost
/// devices, and nothing else changed.
pub open spec fn unasks(before: DeviceManager, left: Seq<String>, after: DeviceManager) -> bool {
    &&& after == (DeviceManager {
        pending_usb_selection: after.pending_usb_selection,
        ..before
    })
    &&& if left.len() > 0 && before.observed_usb@.contains_key(left[0]@) {
        after.pending_usb_selection@ == before.pending_usb_selection@.remove(
            usb_id(before.observed_usb@[left[0]@]),
        )
    } else {
        after.pending_usb_selection == before.pending_usb_selection
    }
}

/// Whether `step` makes the loss of the first of the PCI devices that are
/// gone known. Where none is left, the devices that are there are remembered.
pub open spec fn is_gone_pci_step(
    before: DeviceManager,
    pci: Vec<PciDevice>,
    left: Seq<String>,
    step: ObserveStep,
    after: DeviceManager,
) -> bool {
    if left.len() == 0 {
        &&& step is Done
        &&& after.observed_pci@ == pci_by_address(pci@)
        &&& after == (DeviceManager { observed_pci: after.observed_pci, ..before })
    } else {
        &&& step matches ObserveStep::LostPci { address, next }
        &&& address == left[0]
        &&& next.pci == pci
        &&& next.left@ == left
        &&& after == before
    }
}

fn gone_pci_step(manager: &mut DeviceManager, pci: Vec<PciDevice>, left: Vec<String>) -> (step:
    ObserveStep)
    ensures
        is_gone_pci_step(*old(manager), pci, left@, step, *final(manager)),
{
    if left.len() == 0 {
        manager.observed_pci(pci);
        ObserveStep::Done
    } else {
        let address = left[0].clone();
        ObserveStep::LostPci { address, next: ObserveLostPci { pci, left } }
    }
}

impl ObservePci {
    /// Goes on once the new PCI devices are made known: deals with those that
    /// are gone.
    pub fn announced(self, manager: &mut DeviceManager) -> (step: ObserveStep)
        ensures
            exists|left: Seq<String>| #[trigger]
                is_gone_pci_step(*old(manager), self.pci, left, step, *final(manager))
                    && are_gone_pci(old(manager).observed_pci@, self.pci@, left),
    {
        let left = manager.gone_pci(&self.pci);
        gone_pci_step(manager, self.pci, left)
    }
}

impl ObserveLostPci {
    /// Goes on once the loss is made known: forgets the machine of the
    /// device.
    pub fn announced(self, manager: &mut DeviceManager) -> (step: ObserveStep)
        ensures
            exists|between: DeviceManager| #[trigger]
                is_gone_pci_step(between, self.pci, rest_of(self.left@), step, *final(manager)) && (
                if self.left@.len() > 0 {
                    &&& between.state.pci_vms@ == old(manager).state.pci_vms@.remove(
                        self.left@[0]@,
                    )
                    &&& between == (DeviceManager {
                        state: (State { pci_vms: between.state.pci_vms, ..old(manager).state }),
                        ..*old(manager)
                    })
                } else {
                    between == *old(manager)
                }),
    {
        let mut left = self.left;
        if left.len() > 0 {
            let address = left.remove(0);
            manager.forget_pci(address.as_str());
        }
        assert(left@ =~= rest_of(self.left@));
        gone_pci_step(manager, self.pci, left)
    }
}

proof fn lemma_last_usb(devices: Seq<UsbDevice>, name: Seq<char>) -> (at: int)
    requires
        names_usb(devices, name),
    ensures
        0 <= at < devices.len(),
        devices[at].sys_name@ == name,
        is_last_usb(devices, at),
    decreases devices.len(),
{
    let last = devices.len() - 1;
    if devices[last].sys_name@ == name {
        last
    } else {
        let head = devices.drop_last();
        let i = choose|i: int| 0 <= i < devices.len() && (#[trigger] devices[i]).sys_name@ == name;
        assert(head[i].sys_name@ == name);
        let at = lemma_last_usb(head, name);
        assert forall|k: int| at < k < devices.len() implies (#[trigger] devices[k]).sys_name@
            != devices[at].sys_name@ by {
            if k < head.len() {
                assert(head[k].sys_name@ != head[at].sys_name@);
            }
        }
        at
    }
}

proof fn lemma_last_pci(devices: Seq<PciDevice>, address: Seq<char>) -> (at: int)
    requires
        names_pci(devices, address),
    ensures
        0 <= at < devices.len(),
        devices[at].address@ == address,
        is_last_pci(devices, at),
    decreases devices.len(),
{
    let last = devices.len() - 1;
    if devices[last].address@ == address {
        last
    } else {
        let head = devices.drop_last();
        let i = choose|i: int| 0 <= i < devices.len() && (#[trigger] devices[i]).address@ == address;
        assert(head[i].address@ == address);
        let at = lemma_last_pci(head, address);
        assert forall|k: int| at < k < devices.len() implies (#[trigger] devices[k]).address@
            != devices[at].address@ by {
            if k < head.len() {
                assert(head[k].address@ != head[at].address@);
            }
        }
        at
    }
}

/// Whether exactly one of the places is that of a device of that name.
pub open spec fn tells_usb_once(
    devices: Seq<UsbDevice>,
    places: Seq<usize>,
    name: Seq<char>,
) -> bool {
    &&& exists|k: int|
        0 <= k < places.len() && devices[#[trigger] places[k] as int].sys_name@ == name
    &&& forall|j: int, k: int|
        #![trigger places[j], places[k]]
        0 <= j < k < places.len() ==> !(devices[places[j] as int].sys_name@ == name
            && devices[places[k] as int].sys_name@ == name)
}

/// Whether exactly one of the places is that of a device of that address.
pub open spec fn tells_pci_once(
    devices: Seq<PciDevice>,
    places: Seq<usize>,
    address: Seq<char>,
) -> bool {
    &&& exists|k: int|
        0 <= k < places.len() && devices[#[trigger] places[k] as int].address@ == address
    &&& forall|j: int, k: int|
        #![trigger places[j], places[k]]
        0 <= j < k < places.len() ==> !(devices[places[j] as int].address@ == address
            && devices[places[k] as int].address@ == address)
}

/// Each arrival of a USB device is told exactly once: a device that was not
/// there before is among those made known, and no other place has its name.
pub proof fn law_arrival_is_told_once(
    observed: Map<Seq<char>, UsbDevice>,
    devices: Seq<UsbDevice>,
    places: Seq<usize>,
    name: Seq<char>,
)
    requires
        are_new_usb(observed, devices, places),
        names_usb(devices, name),
        !observed.contains_key(name),
    ensures
        tells_usb_once(devices, places, name),
{
    let at = lemma_last_usb(devices, name);
    assert(is_new_usb(observed, devices, at));
    assert(has_place(places, at));
    let k = choose|k: int| 0 <= k < places.len() && #[trigger] places[k] == at;
    assert(devices[places[k] as int].sys_name@ == name);
}

/// Each arrival of a PCI device is told exactly once.
pub proof fn law_pci_arrival_is_told_once(
    observed: Map<Seq<char>, PciDevice>,
    devices: Seq<PciDevice>,
    places: Seq<usize>,
    address: Seq<char>,
)
    requires
        are_new_pci(observed, devices, places),
        names_pci(devices, address),
        !observed.contains_key(address),
    ensures
        tells_pci_once(devices, places, address),
{
    let at = lemma_last_pci(devices, address);
    assert(is_new_pci(observed, devices, at));
    assert(has_place(places, at));
    let k = choose|k: int| 0 <= k < places.len() && #[trigger] places[k] == at;
    assert(devices[places[k] as int].address@ == address);
}

/// Nothing comes or goes between two looks at the same USB devices: none is
/// new, and none is gone.
pub proof fn law_unchanged_devices_are_no_news(
    observed: Map<Seq<char>, UsbDevice>,
    devices: Seq<UsbDevice>,
    places: Seq<usize>,
    gone: Seq<String>,
)
    requires
        forall|name: Seq<char>| #[trigger]
            observed.contains_key(name) <==> names_usb(devices, name),
        are_new_usb(observed, devices, places),
        are_gone_usb(observed, devices, gone),
    ensures
        places.len() == 0,
        gone.len() == 0,
{
    if places.len() > 0 {
        let at = places[0] as int;
        assert(names_usb(devices, devices[at].sys_name@));
    }
    if gone.len() > 0 {
        assert(lists(gone, gone[0]@));
    }
}

/// Nothing comes or goes between two looks at the same PCI devices: none is
/// new, and none is gone.
pub proof fn law_unchanged_pci_devices_are_no_news(
    observed: Map<Seq<char>, PciDevice>,
    devices: Seq<PciDevice>,
    places: Seq<usize>,
    gone: Seq<String>,
)
    requires
        forall|address: Seq<char>| #[trigger]
            observed.contains_key(address) <==> names_pci(devices, address),
        are_new_pci(observed, devices, places),
        are_gone_pci(observed, devices, gone),
    ensures
        places.len() == 0,
        gone.len() == 0,
{
    if places.len() > 0 {
        let at = places[0] as int;
        assert(names_pci(devices, devices[at].address@));
    }
    if gone.len() > 0 {
        assert(lists(gone, gone[0]@));
    }
}

/// What a look remembers of the USB devices are the names that were there.
pub proof fn law_seen_is_remembered(devices: Seq<UsbDevice>, name: Seq<char>)
    ensures
        usb_by_name(devices).contains_key(name) <==> names_usb(devices, name),
    decreases devices.len(),
{
    if devices.len() > 0 {
        let head = devices.drop_last();
        law_seen_is_remembered(head, name);
        if names_usb(head, name) {
            let i = choose|i: int| 0 <= i < head.len() && (#[trigger] head[i]).sys_name@ == name;
            assert(devices[i].sys_name@ == name);
        }
        if devices.last().sys_name@ == name {
            assert(devices[devices.len() - 1].sys_name@ == name);
        }
        if names_usb(devices, name) {
            let i = choose|i: int|
                0 <= i < devices.len() && (#[trigger] devices[i]).sys_name@ == name;
            if i < head.len() {
                assert(head[i].sys_name@ == name);
            }
        }
    }
}

/// What a look remembers of the PCI devices are the addresses that were there.
pub proof fn law_seen_pci_is_remembered(devices: Seq<PciDevice>, address: Seq<char>)
    ensures
        pci_by_address(devices).contains_key(address) <==> names_pci(devices, address),
    decreases devices.len(),
{
    if devices.len() > 0 {
        let head = devices.drop_last();
        law_seen_pci_is_remembered(head, address);
        if names_pci(head, address) {
            let i = choose|i: int| 0 <= i < head.len() && (#[trigger] head[i]).address@ == address;
            assert(devices[i].address@ == address);
        }
        if devices.last().address@ == address {
            assert(devices[devices.len() - 1].address@ == address);
        }
        if names_pci(devices, address) {
            let i = choose|i: int|
                0 <= i < devices.len() && (#[trigger] devices[i]).address@ == address;
            if i < head.len() {
                assert(head[i].address@ == address);
            }
        }
    }
}

/// A lost device is held by no machine any more, and no port of it is
/// remembered.
pub proof fn law_lost_is_forgotten(before: State, after: State, name: Seq<char>, node: String)
    requires
        loses(before, name, Some(node), after),
    ensures
        !after.usb_vms@.contains_key(node@),
        known_binding(after, name) is None,
{
}

/// A look tells of exactly the devices whose name was not there at the last
/// look, and of each such name once.
pub proof fn law_arrivals_were_not_there(
    manager: &DeviceManager,
    usb: Vec<UsbDevice>,
    pci: Vec<PciDevice>,
    step: ObserveStep,
    places: Vec<usize>,
    name: Seq<char>,
)
    requires
        call_ensures(observe, (manager, usb, pci), step),
        call_ensures(DeviceManager::connected_pci, (manager, &pci), places),
    ensures
        step matches ObserveStep::AnnounceUsb { places, next } && next.task.usb == usb
            && next.task.pci == pci && (forall|k: int|
            #![trigger places@[k]]
            0 <= k < places@.len() ==> places@[k] < usb@.len()
                && !manager.observed_usb@.contains_key(usb@[places@[k] as int].sys_name@)) && ((
        exists|i: int|
            #![trigger usb@[i]]
            0 <= i < usb@.len() && usb@[i].sys_name@ == name
                && !manager.observed_usb@.contains_key(name)) ==> exists|k: int|
            #![trigger places@[k]]
            0 <= k < places@.len() && usb@[places@[k] as int].sys_name@ == name),
        forall|k: int|
            #![trigger places@[k]]
            0 <= k < places@.len() ==> places@[k] < pci@.len()
                && !manager.observed_pci@.contains_key(pci@[places@[k] as int].address@),
        (exists|i: int|
            #![trigger pci@[i]]
            0 <= i < pci@.len() && pci@[i].address@ == name && !manager.observed_pci@.contains_key(
                name,
            )) ==> exists|k: int|
            #![trigger places@[k]]
            0 <= k < places@.len() && pci@[places@[k] as int].address@ == name,
{
    match step {
        ObserveStep::AnnounceUsb { places, next } => {
            if exists|i: int|
                #![trigger usb@[i]]
                0 <= i < usb@.len() && usb@[i].sys_name@ == name
                    && !manager.observed_usb@.contains_key(name) {
                assert(names_usb(usb@, name));
                let at = lemma_last_usb(usb@, name);
                assert(is_new_usb(manager.observed_usb@, usb@, at));
                let k = choose|k: int| 0 <= k < places@.len() && #[trigger] places@[k] == at;
                assert(usb@[places@[k] as int].sys_name@ == name);
            }
        },
        _ => {},
    }
    if exists|i: int|
        #![trigger pci@[i]]
        0 <= i < pci@.len() && pci@[i].address@ == name && !manager.observed_pci@.contains_key(
            name,
        ) {
        assert(names_pci(pci@, name));
        let at = lemma_last_pci(pci@, name);
        assert(is_new_pci(manager.observed_pci@, pci@, at));
        let k = choose|k: int| 0 <= k < places@.len() && #[trigger] places@[k] == at;
        assert(pci@[places@[k] as int].address@ == name);
    }
}

/// A device counts as gone exactly where it was there at the last look and no
/// device has its name now.
pub proof fn law_gone_is_what_is_no_longer_there(
    manager: &DeviceManager,
    usb: &Vec<UsbDevice>,
    pci: &Vec<PciDevice>,
    gone: Vec<String>,
    gone_pci: Vec<String>,
    name: Seq<char>,
)
    requires
        call_ensures(DeviceManager::gone_usb, (manager, usb), gone),
        call_ensures(DeviceManager::gone_pci, (manager, pci), gone_pci),
    ensures
        (exists|k: int| 0 <= k < gone@.len() && (#[trigger] gone@[k])@ == name) <==> (
        manager.observed_usb@.contains_key(name) && forall|i: int|
            0 <= i < usb@.len() ==> (#[trigger] usb@[i]).sys_name@ != name),
        (exists|k: int| 0 <= k < gone_pci@.len() && (#[trigger] gone_pci@[k])@ == name) <==> (
        manager.observed_pci@.contains_key(name) && forall|i: int|
            0 <= i < pci@.len() ==> (#[trigger] pci@[i]).address@ != name),
        forall|i: int, j: int|
            #![trigger gone@[i], gone@[j]]
            0 <= i < j < gone@.len() ==> gone@[i]@ != gone@[j]@,
        forall|i: int, j: int|
            #![trigger gone_pci@[i], gone_pci@[j]]
            0 <= i < j < gone_pci@.len() ==> gone_pci@[i]@ != gone_pci@[j]@,
{
    assert(lists(gone@, name) <==> manager.observed_usb@.contains_key(name) && !names_usb(
        usb@,
        name,
    ));
    assert(lists(gone_pci@, name) <==> manager.observed_pci@.contains_key(name) && !names_pci(
        pci@,
        name,
    ));
}

/// The port of a lost device is looked for at the machine that it is
/// remembered for, and only where one is remembered.
pub proof fn law_lost_ports_are_looked_for(manager: &DeviceManager, name: &str, step: Departure)
    requires
        call_ensures(DeviceManager::departure, (manager, name), step),
    ensures
        ({
            let ports = manager.state.persistent.crosvm_usb_ports@;
            &&& step is Forget <==> !ports.contains_key(name@)
            &&& step matches Departure::Look { socket, binding } ==> ports.contains_key(name@)
                && binding == ports[name@] && exists|i: int|
                0 <= i < manager.config.vms@.len() && (#[trigger] manager.config.vms@[i]).name@
                    == binding.vm@ && manager.config.vms@[i].socket == socket
            &&& step matches Departure::Failed(error) ==> ports.contains_key(name@) && (
            error matches Error::UnknownVm(vm) && vm@ == ports[name@].vm@)
        }),
{
    let ports = manager.state.persistent.crosvm_usb_ports@;
    if ports.contains_key(name@) {
        lemma_vm_named(manager.config.vms@, ports[name@].vm@);
    }
}

/// The port of a lost device is freed exactly where the machine still runs as
/// it did when it got the device and still has at that port a device of the
/// ids that were remembered. In any other case the loss is made known at once.
pub proof fn law_lost_port_is_freed(
    look: ObserveLook,
    manager: &DeviceManager,
    generation: Option<String>,
    step: ObserveStep,
    list: ObserveList,
    live: Vec<(u8, String, String)>,
    after: ObserveStep,
)
    requires
        call_ensures(ObserveLook::looked, (look, manager, generation), step),
        call_ensures(ObserveList::listed, (list, manager, Ok(live)), after),
    ensures
        step is ListUsb || step is Lost,
        step is ListUsb <==> generation is Some && generation->0@
            == look.binding.socket_generation@,
        step matches ObserveStep::ListUsb { socket, next } ==> socket == look.socket
            && next.binding == look.binding && next.task == look.task,
        step matches ObserveStep::Lost { next, .. } ==> next.task == look.task,
        after is FreePort || after is Lost,
        after is FreePort <==> list.binding.vid is Some && list.binding.pid is Some && exists|
            i: int,
        |
            #![trigger live@[i]]
            0 <= i < live@.len() && live@[i].0 == list.binding.port && live@[i].1@
                == list.binding.vid->0@ && live@[i].2@ == list.binding.pid->0@,
        after matches ObserveStep::FreePort { socket, port, next } ==> socket == list.socket
            && port == list.binding.port && next.task == list.task,
{
    if is_live(live@, list.binding.port, opt(list.binding.vid), opt(list.binding.pid)) {
        let i = choose|i: int|
            0 <= i < live@.len() && (#[trigger] live@[i]).0 == list.binding.port && Some(
                live@[i].1@,
            ) == opt(list.binding.vid) && Some(live@[i].2@) == opt(list.binding.pid);
        assert(live@[i].0 == list.binding.port);
    }
}

/// What is known of a lost device is forgotten: its port, and the machine of
/// the node that it had at the last look. What is known of every other device
/// stays.
pub proof fn law_lost_device_is_forgotten(
    lost: ObserveLost,
    manager: &mut DeviceManager,
    step: ObserveStep,
    other: Seq<char>,
)
    requires
        call_ensures(ObserveLost::announced, (lost, manager), step),
        lost.task.left@.len() > 0,
    ensures
        ({
            let name = lost.task.left@[0]@;
            let seen = old(manager).observed_usb@;
            let before = old(manager).state;
            let after = final(manager).state;
            &&& step == ObserveStep::Save((ObserveSave { task: lost.task }))
            &&& !after.persistent.crosvm_usb_ports@.contains_key(name)
            &&& other != name ==> (after.persistent.crosvm_usb_ports@.contains_key(other)
                <==> before.persistent.crosvm_usb_ports@.contains_key(other))
            &&& seen.contains_key(name) && seen[name].device_node is Some
                ==> !after.usb_vms@.contains_key(seen[name].device_node->0@)
            &&& !(seen.contains_key(name) && seen[name].device_node is Some
                && seen[name].device_node->0@ == other) ==> (after.usb_vms@.contains_key(other)
                <==> before.usb_vms@.contains_key(other))
            &&& after.persistent.selected_vms == before.persistent.selected_vms
            &&& after.persistent.disconnected_devices == before.persistent.disconnected_devices
            &&& after.pci_vms == before.pci_vms
        }),
{
}

/// After the last lost device no machine is asked for it any more, and the
/// devices that are there now are those that the next look compares with.
pub proof fn law_look_is_remembered(
    save: ObserveSave,
    manager: &mut DeviceManager,
    step: ObserveStep,
    name: Seq<char>,
)
    requires
        call_ensures(ObserveSave::saved, (save, manager, Ok(())), step),
        save.task.left@.len() == 1,
    ensures
        step is AnnouncePci,
        final(manager).observed_usb@.contains_key(name) <==> exists|i: int|
            0 <= i < save.task.usb@.len() && (#[trigger] save.task.usb@[i]).sys_name@ == name,
        old(manager).observed_usb@.contains_key(save.task.left@[0]@) ==> !final(manager).pending_usb_selection@.contains_key(usb_id(old(manager).observed_usb@[save.task.left@[
            0
        ]@])),
        final(manager).state == old(manager).state,
{
    law_seen_is_remembered(save.task.usb@, name);
    assert(rest_of(save.task.left@).len() == 0);
}

/// The machine of a lost PCI device is forgotten, and that of every other one
/// stays.
pub proof fn law_lost_pci_device_is_forgotten(
    lost: ObserveLostPci,
    manager: &mut DeviceManager,
    step: ObserveStep,
    other: Seq<char>,
)
    requires
        call_ensures(ObserveLostPci::announced, (lost, manager), step),
        lost.left@.len() > 0,
    ensures
        !final(manager).state.pci_vms@.contains_key(lost.left@[0]@),
        other != lost.left@[0]@ ==> (final(manager).state.pci_vms@.contains_key(other) <==> old(
            manager,
        ).state.pci_vms@.contains_key(other)),
        lost.left@.len() > 1 ==> (step matches ObserveStep::LostPci { address, .. } && address
            == lost.left@[1]),
        lost.left@.len() == 1 ==> step is Done,
        final(manager).state.usb_vms == old(manager).state.usb_vms,
        final(manager).state.persistent == old(manager).state.persistent,
{
}

/// Each kind of news has its own event.
pub proof fn law_news_have_their_events(step: &ObserveStep, out: Option<Event>)
    requires
        call_ensures(ObserveStep::event, (step,), out),
    ensures
        *step is AnnounceUsb ==> out == Some(Event::UsbConnected),
        *step is Lost ==> out == Some(Event::UsbDisconnected),
        *step is AnnouncePci ==> out == Some(Event::PciConnected),
        *step is LostPci ==> out == Some(Event::PciDisconnected),
        out is Some ==> *step is AnnounceUsb || *step is Lost || *step is AnnouncePci
            || *step is LostPci,
{
}

/// While the lost USB devices are dealt with, what was seen stays with the work,
/// and the PCI devices that were seen are dealt with afterwards.
pub proof fn law_look_is_not_lost(
    save: ObserveSave,
    manager: &mut DeviceManager,
    step: ObserveStep,
)
    requires
        call_ensures(ObserveSave::saved, (save, manager, Ok(())), step),
        save.task.left@.len() > 0,
    ensures
        save.task.left@.len() == 1 ==> (step matches ObserveStep::AnnouncePci { places, next }
            && next.pci == save.task.pci),
        step matches ObserveStep::Look { socket, next } ==> next.task.usb == save.task.usb
            && next.task.pci == save.task.pci && next.task.left@.len() == save.task.left@.len() - 1
            && next.task.left@[0] == save.task.left@[1],
        step matches ObserveStep::Lost { node, next } ==> next.task.usb == save.task.usb
            && next.task.pci == save.task.pci && next.task.left@.len() == save.task.left@.len() - 1
            && next.task.left@[0] == save.task.left@[1],
{
    assert(rest_of(save.task.left@).len() == save.task.left@.len() - 1);
    if save.task.left@.len() > 1 {
        assert(rest_of(save.task.left@)[0] == save.task.left@[1]);
    }
}

/// Once the new USB devices are made known, the lost ones are dealt with, and
/// what was seen stays with the work.
pub proof fn law_news_do_not_lose_the_look(
    news: ObserveUsb,
    manager: &mut DeviceManager,
    step: ObserveStep,
)
    requires
        call_ensures(ObserveUsb::announced, (news, manager), step),
    ensures
        step matches ObserveStep::AnnouncePci { places, next } ==> next.pci == news.task.pci,
        step matches ObserveStep::Look { socket, next } ==> next.task.usb == news.task.usb
            && next.task.pci == news.task.pci,
        step matches ObserveStep::Lost { node, next } ==> next.task.usb == news.task.usb
            && next.task.pci == news.task.pci,
{
}

} // verus!
