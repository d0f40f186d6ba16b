//! Attaching a USB device to a machine, step by step.
//!
//! Each step says what has to be done or looked up outside, and goes on with
//! what came of it.

use crate::config::{lemma_vm_named, vm_named, RuleMatch};
use crate::device::{usb_id, UsbDevice};
use crate::error::Error;
use crate::manager::{allowed, allowed_vms, holder, DeviceManager};
use crate::order::sorts;
use crate::protocol::Event;
use crate::state::{sets_mark, PersistentState, State, UsbPortBinding};
use crate::text::{as_deref, contains, is_text, lists, opt, opt_ref, same, same_opt, views};
use crate::usb_gate::{interfaces, interfaces_of, probe, release, SysfsWrite, CLAIM, HUB};
use vstd::prelude::*;

verus! {

/// What an attachment needs to know of its device.
#[derive(Debug)]
pub struct UsbTarget {
    pub sys_name: String,
    pub node: String,
    pub id: String,
    pub vid: Option<String>,
    pub pid: Option<String>,
    pub serial: Option<String>,
}

/// Whether `target` is what an attachment needs to know of `device`.
pub open spec fn is_target(device: UsbDevice, target: UsbTarget) -> bool {
    &&& target.sys_name == device.sys_name
    &&& device.device_node == Some(target.node)
    &&& target.id@ == usb_id(device)
    &&& target.vid == device.vid
    &&& target.pid == device.pid
    &&& target.serial == device.serial
}

/// An attachment under way.
#[derive(Debug)]
pub struct UsbAttach {
    pub target: UsbTarget,
    pub vm: String,
    /// The control socket of the machine.
    pub socket: String,
    /// Whether the attachment is news.
    pub changed: bool,
    /// Whether the kernel binds no drivers by itself.
    pub gated: bool,
}

/// What an attachment needs next.
#[derive(Debug)]
pub enum AttachStep {
    /// Nobody has chosen a machine yet. Ask for one, where that was not done.
    Undecided { notify: bool },
    /// Another machine has the device: take it off there first.
    Detach(AttachDetach),
    /// Read the driver of the device itself.
    ReadDeviceDriver(AttachDriver),
    /// Let the kernel configure the device.
    Configure { write: SysfsWrite, next: AttachConfigure },
    /// List the entries of the device directory.
    ListInterfaces(AttachList),
    /// Read the driver of this interface.
    ReadDriver { interface: String, next: UsbClaim },
    /// Take the driver off an interface.
    Release { write: SysfsWrite, next: ClaimRelease },
    /// The device is a hub and is left alone. Report that, where it was not
    /// done.
    Hub { report: bool },
    /// Look at the control socket and the USB list of the machine.
    Inspect(AttachInspect),
    /// Attach the device to the machine.
    Attach(AttachCommand),
    /// Free the port that the device had before.
    FreePort { port: u8, next: AttachFree },
    /// Save the state.
    SaveVm(CommitVm),
    SaveConnected(CommitConnected),
    SavePort(CommitPort),
    /// This machine has the device. Make that known, where it is news.
    Done { notify: bool, vm: String },
    Failed(Error),
}

impl AttachStep {
    /// The event that this step makes known, if any.
    pub fn event(&self) -> (out: Option<Event>)
        ensures
            out == match *self {
                AttachStep::Undecided { notify: true } => Some(Event::UsbSelectVm),
                AttachStep::Done { notify: true, .. } => Some(Event::UsbAttached),
                _ => None::<Event>,
            },
    {
        match self {
            AttachStep::Undecided { notify: true } => Some(Event::UsbSelectVm),
            AttachStep::Done { notify: true, .. } => Some(Event::UsbAttached),
            _ => None::<Event>,
        }
    }
}

/// The device is taken off another machine.
#[derive(Debug)]
pub struct AttachDetach {
    pub task: UsbAttach,
}

/// The driver of the device is read.
#[derive(Debug)]
pub struct AttachDriver {
    pub task: UsbAttach,
}

/// The device is configured.
#[derive(Debug)]
pub struct AttachConfigure {
    pub task: UsbAttach,
}

/// The interfaces of the device are listed.
#[derive(Debug)]
pub struct AttachList {
    pub task: UsbAttach,
}

/// Taking the host drivers off a device before a machine claims it. A claim
/// takes any driver off in the middle of a command, which leaves some
/// firmware unusable.
#[derive(Debug)]
pub struct UsbClaim {
    pub task: UsbAttach,
    /// The interfaces that are left.
    pub interfaces: Vec<String>,
}

/// A driver is taken off.
#[derive(Debug)]
pub struct ClaimRelease {
    pub claim: UsbClaim,
}

/// The machine is looked at.
#[derive(Debug)]
pub struct AttachInspect {
    pub task: UsbAttach,
}

/// The machine gets the device.
#[derive(Debug)]
pub struct AttachCommand {
    pub task: UsbAttach,
    pub generation: String,
    /// The port to free afterwards.
    pub stale: Option<u8>,
}

/// A device that a machine has, to be remembered.
#[derive(Debug)]
pub struct UsbCommit {
    pub task: UsbAttach,
    pub generation: String,
    pub port: u8,
}

/// A port is freed.
#[derive(Debug)]
pub struct AttachFree {
    pub commit: UsbCommit,
}

/// The machine of the device is saved.
#[derive(Debug)]
pub struct CommitVm {
    pub commit: UsbCommit,
}

/// The lifted mark of the device is saved.
#[derive(Debug)]
pub struct CommitConnected {
    pub commit: UsbCommit,
}

/// The port of the device is saved.
#[derive(Debug)]
pub struct CommitPort {
    pub commit: UsbCommit,
}

/// The machine that a device goes to: the one asked for, else the target of
/// the rule, else the one it was last attached to, else the only one allowed.
pub open spec fn chosen_vm(
    state: State,
    device: UsbDevice,
    rule: RuleMatch,
    requested: Option<Seq<char>>,
) -> Option<Seq<char>> {
    if requested is Some {
        requested
    } else if rule.target_vm is Some {
        opt(rule.target_vm)
    } else if state.persistent.selected_vms@.contains_key(usb_id(device)) {
        Some(state.persistent.selected_vms@[usb_id(device)]@)
    } else if rule.allowed_vms@.len() == 1 {
        Some(rule.allowed_vms@[0]@)
    } else {
        None
    }
}

/// Whether `task` attaches a device to a machine that has not got it yet, or
/// has it already.
pub open spec fn is_attach_task(
    manager: DeviceManager,
    device: UsbDevice,
    vm: Seq<char>,
    has_bus: bool,
    task: UsbAttach,
) -> bool {
    &&& is_target(device, task.target)
    &&& task.vm@ == vm
    &&& vm_named(manager.config.vms@, vm) is Some
    &&& task.socket == vm_named(manager.config.vms@, vm)->0.socket
    &&& task.changed == (holder(manager.state.usb_vms@, opt(device.device_node)) != Some(vm))
    &&& task.gated == manager.gates(has_bus)
}

/// Whether `step` makes a device ready: where the kernel binds no drivers by
/// itself, a device that came late is configured first.
pub open spec fn is_prepare_step(task: UsbAttach, step: AttachStep) -> bool {
    if task.gated {
        step == AttachStep::ReadDeviceDriver((AttachDriver { task }))
    } else {
        step == AttachStep::ListInterfaces((AttachList { task }))
    }
}

/// Starts to attach a device. Only a machine that the rule allows may get it.
pub fn attach_one_usb(
    manager: &mut DeviceManager,
    device: &UsbDevice,
    rule: &RuleMatch,
    requested: Option<&str>,
    has_bus: bool,
) -> (step: AttachStep)
    ensures
        *final(manager) == (DeviceManager {
            pending_usb_selection: final(manager).pending_usb_selection,
            ..*old(manager)
        }),
        match chosen_vm(old(manager).state, *device, *rule, opt_ref(requested)) {
            None => {
                &&& step == (AttachStep::Undecided {
                    notify: !old(manager).pending_usb_selection@.contains_key(usb_id(*device)),
                })
                &&& final(manager).pending_usb_selection@ == old(
                    manager,
                ).pending_usb_selection@.insert(usb_id(*device), ())
            },
            Some(vm) => {
                let current = holder(old(manager).state.usb_vms@, opt(device.device_node));
                &&& final(manager).pending_usb_selection == old(manager).pending_usb_selection
                &&& if !allowed(*rule).contains(vm) {
                    &&& step matches AttachStep::Failed(error)
                    &&& error matches Error::UsbVmNotAllowed { vm: name, device: sys_name }
                    &&& name@ == vm
                    &&& sys_name@ == device.sys_name@
                } else if vm_named(old(manager).config.vms@, vm) is None {
                    &&& step matches AttachStep::Failed(error)
                    &&& error matches Error::UnknownVm(name)
                    &&& name@ == vm
                } else if device.device_node is None {
                    step == AttachStep::Failed(Error::NoDeviceNode)
                } else if current is Some && current != Some(vm) {
                    step matches AttachStep::Detach(next) && is_attach_task(
                        *old(manager),
                        *device,
                        vm,
                        has_bus,
                        next.task,
                    )
                } else {
                    exists|task: UsbAttach| #[trigger]
                        is_attach_task(*old(manager), *device, vm, has_bus, task)
                            && is_prepare_step(task, step)
                }
            },
        },
{
    let id = device.persistent_id();
    let chosen: Option<String> = match requested {
        Some(name) => Some(name.to_owned()),
        None => match &rule.target_vm {
            Some(name) => Some(name.clone()),
            None => match manager.state.persistent.selected_vms.get(id.as_str()) {
                Some(name) => Some(name.clone()),
                None => if rule.allowed_vms.len() == 1 {
                    Some(rule.allowed_vms[0].clone())
                } else {
                    None
                },
            },
        },
    };
    assert(opt(chosen) == chosen_vm(manager.state, *device, *rule, opt_ref(requested)));
    let vm_name = match chosen {
        Some(name) => name,
        None => {
            let before = manager.pending_usb_selection.insert(id.as_str(), ());
            return AttachStep::Undecided { notify: before.is_none() };
        },
    };
    let names = allowed_vms(rule);
    proof {
        if lists(names@, vm_name@) {
            let i = choose|i: int| 0 <= i < names@.len() && #[trigger] names@[i]@ == vm_name@;
            assert(views(names@)[i] == vm_name@);
        }
        if views(names@).contains(vm_name@) {
            let i = choose|i: int| 0 <= i < views(names@).len() && views(names@)[i] == vm_name@;
            assert(names@[i]@ == vm_name@);
        }
    }
    if !contains(&names, vm_name.as_str()) {
        return AttachStep::Failed(
            Error::UsbVmNotAllowed { vm: vm_name, device: device.sys_name.clone() },
        );
    }
    let socket = match manager.config.vm(vm_name.as_str()) {
        Ok(vm) => vm.socket.clone(),
        Err(error) => {
            return AttachStep::Failed(error);
        },
    };
    let node = match &device.device_node {
        Some(node) => node.clone(),
        None => {
            return AttachStep::Failed(Error::NoDeviceNode);
        },
    };
    let current: Option<&String> = manager.state.usb_vms.get(node.as_str());
    let has_other = match current {
        Some(name) => !same(name.as_str(), vm_name.as_str()),
        None => false,
    };
    let changed = has_other || current.is_none();
    let task = UsbAttach {
        target: UsbTarget {
            sys_name: device.sys_name.clone(),
            node,
            id,
            vid: device.vid.clone(),
            pid: device.pid.clone(),
            serial: device.serial.clone(),
        },
        vm: vm_name,
        socket,
        changed,
        gated: manager.gates_usb(has_bus),
    };
    assert(is_attach_task(
        *manager,
        *device,
        vm_name@,
        has_bus,
        task,
    ));
    if has_other {
        AttachStep::Detach(AttachDetach { task })
    } else {
        prepare(task)
    }
}

fn prepare(task: UsbAttach) -> (step: AttachStep)
    ensures
        is_prepare_step(task, step),
{
    if task.gated {
        AttachStep::ReadDeviceDriver(AttachDriver { task })
    } else {
        AttachStep::ListInterfaces(AttachList { task })
    }
}

impl AttachDetach {
    /// Goes on once the device left the other machine.
    pub fn detached(self, outcome: Result<(), Error>) -> (step: AttachStep)
        ensures
            match outcome {
                Ok(_) => is_prepare_step(self.task, step),
                Err(error) => step == AttachStep::Failed(error),
            },
    {
        match outcome {
            Ok(_) => prepare(self.task),
            Err(error) => AttachStep::Failed(error),
        }
    }
}

impl AttachDriver {
    /// Takes the driver of the device. A device that came while drivers were
    /// being settled has none yet: it is configured first, since crosvm reads
    /// the descriptors only once, when it gets the device.
    pub fn driver(self, driver: &Option<String>) -> (step: AttachStep)
        ensures
            if driver is None {
                &&& step matches AttachStep::Configure { write, next }
                &&& write.probes(self.task.target.sys_name@)
                &&& next.task == self.task
            } else {
                step == AttachStep::ListInterfaces((AttachList { task: self.task }))
            },
    {
        if driver.is_none() {
            let write = probe(self.task.target.sys_name.as_str());
            AttachStep::Configure { write, next: AttachConfigure { task: self.task } }
        } else {
            AttachStep::ListInterfaces(AttachList { task: self.task })
        }
    }
}

impl AttachConfigure {
    /// Goes on once the device is configured.
    pub fn configured(self, succeeded: bool) -> (step: AttachStep)
        ensures
            step == if succeeded {
                AttachStep::ListInterfaces((AttachList { task: self.task }))
            } else {
                AttachStep::Failed(Error::CannotClaim(self.task.target.sys_name))
            },
    {
        if succeeded {
            AttachStep::ListInterfaces(AttachList { task: self.task })
        } else {
            AttachStep::Failed(Error::CannotClaim(self.task.target.sys_name))
        }
    }
}

/// Whether `step` deals with the first of the interfaces that are left, or
/// looks at the machine where none is.
pub open spec fn is_claim_step(task: UsbAttach, interfaces: Seq<String>, step: AttachStep) -> bool {
    if interfaces.len() == 0 {
        step == AttachStep::Inspect((AttachInspect { task }))
    } else {
        &&& step matches AttachStep::ReadDriver { interface, next }
        &&& interface == interfaces[0]
        &&& next.task == task
        &&& next.interfaces@ == interfaces
    }
}

impl AttachList {
    /// Takes the entries of the device directory and finds the interfaces.
    pub fn listed(self, entries: Option<Vec<String>>) -> (step: AttachStep)
        ensures
            match entries {
                Some(entries) => exists|names: Seq<String>| #[trigger]
                    sorts(interfaces_of(entries@, self.task.target.sys_name@), names)
                        && is_claim_step(self.task, names, step),
                None => step == AttachStep::Failed(Error::CannotClaim(self.task.target.sys_name)),
            },
    {
        match entries {
            Some(entries) => {
                let interfaces = interfaces(entries, self.task.target.sys_name.as_str());
                UsbClaim { task: self.task, interfaces }.step()
            },
            None => AttachStep::Failed(Error::CannotClaim(self.task.target.sys_name)),
        }
    }
}

impl UsbClaim {
    /// What comes next for the interfaces that are left.
    pub fn step(self) -> (step: AttachStep)
        ensures
            is_claim_step(self.task, self.interfaces@, step),
    {
        if self.interfaces.len() == 0 {
            AttachStep::Inspect(AttachInspect { task: self.task })
        } else {
            let interface = self.interfaces[0].clone();
            AttachStep::ReadDriver { interface, next: self }
        }
    }

    /// Takes the driver of the first interface. A VM's own claim stays, and a
    /// hub is left alone altogether.
    pub fn driver(self, manager: &mut DeviceManager, driver: &Option<String>) -> (step: AttachStep)
        ensures
            *final(manager) == (DeviceManager {
                reported_usb_hubs: final(manager).reported_usb_hubs,
                ..*old(manager)
            }),
            if opt(*driver) == Some("hub"@) {
                let id = self.task.target.id@;
                &&& step == (AttachStep::Hub {
                    report: !old(manager).reported_usb_hubs@.contains_key(id),
                })
                &&& final(manager).reported_usb_hubs@ == old(manager).reported_usb_hubs@.insert(
                    id,
                    (),
                )
            } else if self.interfaces@.len() == 0 {
                &&& final(manager).reported_usb_hubs == old(manager).reported_usb_hubs
                &&& step == AttachStep::Inspect((AttachInspect { task: self.task }))
            } else {
                &&& final(manager).reported_usb_hubs == old(manager).reported_usb_hubs
                &&& if driver is Some && opt(*driver) != Some("usbfs"@) {
                    &&& step matches AttachStep::Release { write, next }
                    &&& write.releases(self.interfaces@[0]@)
                    &&& next.claim.task == self.task
                    &&& next.claim.interfaces@ == self.interfaces@.skip(1)
                } else {
                    is_claim_step(self.task, self.interfaces@.skip(1), step)
                }
            },
    {
        if is_text(as_deref(driver), HUB) {
            let before = manager.reported_usb_hubs.insert(self.task.target.id.as_str(), ());
            return AttachStep::Hub { report: before.is_none() };
        }
        if self.interfaces.len() == 0 {
            return self.step();
        }
        let mut claim = self;
        let name = claim.interfaces.remove(0);
        assert(claim.interfaces@ =~= self.interfaces@.skip(1));
        if driver.is_some() && !is_text(as_deref(driver), CLAIM) {
            let write = release(name.as_str());
            AttachStep::Release { write, next: ClaimRelease { claim } }
        } else {
            claim.step()
        }
    }
}

impl ClaimRelease {
    /// Goes on once the driver is off.
    pub fn released(self, succeeded: bool) -> (step: AttachStep)
        ensures
            if succeeded {
                is_claim_step(self.claim.task, self.claim.interfaces@, step)
            } else {
                step == AttachStep::Failed(Error::CannotClaim(self.claim.task.target.sys_name))
            },
    {
        if succeeded {
            self.claim.step()
        } else {
            AttachStep::Failed(Error::CannotClaim(self.claim.task.target.sys_name))
        }
    }
}

/// Whether a machine has a device of those ids at a port.
pub open spec fn is_live(
    live: Seq<(u8, String, String)>,
    port: u8,
    vid: Option<Seq<char>>,
    pid: Option<Seq<char>>,
) -> bool {
    exists|i: int|
        0 <= i < live.len() && (#[trigger] live[i]).0 == port && Some(live[i].1@) == vid && Some(
            live[i].2@,
        ) == pid
}

/// Whether a machine has a device of those ids at a port.
pub fn has_live(
    live: &Vec<(u8, String, String)>,
    port: u8,
    vid: &Option<String>,
    pid: &Option<String>,
) -> (r: bool)
    ensures
        r == is_live(live@, port, opt(*vid), opt(*pid)),
{
    let mut i: usize = 0;
    while i < live.len()
        invariant
            i <= live.len(),
            forall|k: int|
                0 <= k < i ==> !((#[trigger] live@[k]).0 == port && Some(live@[k].1@) == opt(*vid)
                    && Some(live@[k].2@) == opt(*pid)),
        decreases live.len() - i,
    {
        if live[i].0 == port && is_text(as_deref(vid), live[i].1.as_str()) && is_text(
            as_deref(pid),
            live[i].2.as_str(),
        ) {
            return true;
        }
        i += 1;
    }
    false
}

/// Whether a remembered port belongs to this run of this machine.
pub open spec fn is_current(
    binding: Option<UsbPortBinding>,
    vm: Seq<char>,
    generation: Seq<char>,
) -> bool {
    binding is Some && binding->0.vm@ == vm && binding->0.socket_generation@ == generation
}

/// The remembered port, where the machine still has there what was attached.
pub open spec fn stale_port(
    binding: Option<UsbPortBinding>,
    vm: Seq<char>,
    generation: Seq<char>,
    live: Seq<(u8, String, String)>,
) -> Option<u8> {
    if is_current(binding, vm, generation) && is_live(
        live,
        binding->0.port,
        opt(binding->0.vid),
        opt(binding->0.pid),
    ) {
        Some(binding->0.port)
    } else {
        None
    }
}

/// Whether the remembered port still has this very device.
pub open spec fn is_attached(
    binding: Option<UsbPortBinding>,
    target: UsbTarget,
    vm: Seq<char>,
    generation: Seq<char>,
    live: Seq<(u8, String, String)>,
) -> bool {
    &&& is_current(binding, vm, generation)
    &&& opt(binding->0.vid) == opt(target.vid)
    &&& opt(binding->0.pid) == opt(target.pid)
    &&& opt(binding->0.serial) == opt(target.serial)
    &&& is_live(live, binding->0.port, opt(target.vid), opt(target.pid))
}

/// The port that is remembered for a device.
pub open spec fn known_binding(state: State, sys_name: Seq<char>) -> Option<UsbPortBinding> {
    if state.persistent.crosvm_usb_ports@.contains_key(sys_name) {
        Some(state.persistent.crosvm_usb_ports@[sys_name])
    } else {
        None
    }
}

/// Whether a state remembers which machine has the device, and nothing else
/// changed.
pub open spec fn notes_vm(before: State, commit: UsbCommit, after: State) -> bool {
    &&& after.usb_vms@ == before.usb_vms@.insert(commit.task.target.node@, commit.task.vm)
    &&& exists|name: String|
        name@ == commit.task.vm@ && after.persistent.selected_vms@
            == #[trigger] before.persistent.selected_vms@.insert(commit.task.target.id@, name)
    &&& after == (State {
        usb_vms: after.usb_vms,
        persistent: (PersistentState {
            selected_vms: after.persistent.selected_vms,
            ..before.persistent
        }),
        ..before
    })
}

/// Whether a state has lifted the mark of a disconnected device, and nothing
/// else changed.
pub open spec fn notes_connected(before: State, commit: UsbCommit, after: State) -> bool {
    &&& forall|other: Seq<char>| #[trigger]
        after.is_disconnected(other) == (other != commit.task.target.id@ && before.is_disconnected(
            other,
        ))
    &&& sets_mark(
        before.persistent.disconnected_devices@,
        commit.task.target.id@,
        false,
        after.persistent.disconnected_devices@,
    )
    &&& after == (State {
        persistent: (PersistentState {
            disconnected_devices: after.persistent.disconnected_devices,
            ..before.persistent
        }),
        ..before
    })
}

/// Whether a state remembers the port of the device, and nothing else
/// changed.
pub open spec fn notes_port(before: State, commit: UsbCommit, after: State) -> bool {
    &&& exists|binding: UsbPortBinding|
        remembers(commit, binding) && after.persistent.crosvm_usb_ports@
            == #[trigger] before.persistent.crosvm_usb_ports@.insert(
            commit.task.target.sys_name@,
            binding,
        )
    &&& after == (State {
        persistent: (PersistentState {
            crosvm_usb_ports: after.persistent.crosvm_usb_ports,
            ..before.persistent
        }),
        ..before
    })
}

fn note_vm(manager: &mut DeviceManager, commit: UsbCommit) -> (step: AttachStep)
    ensures
        step == AttachStep::SaveVm((CommitVm { commit })),
        notes_vm(old(manager).state, commit, final(manager).state),
        *final(manager) == (DeviceManager { state: final(manager).state, ..*old(manager) }),
{
    manager.state.usb_vms.insert(commit.task.target.node.as_str(), commit.task.vm.clone());
    manager.state.select_vm(commit.task.target.id.as_str(), commit.task.vm.as_str());
    AttachStep::SaveVm(CommitVm { commit })
}

impl AttachInspect {
    /// Takes the identity of the control socket and the USB list of the
    /// machine. A machine that has this very device already keeps it.
    pub fn inspected(
        self,
        manager: &mut DeviceManager,
        generation: String,
        live: Result<Vec<(u8, String, String)>, Error>,
    ) -> (step: AttachStep)
        ensures
            match live {
                Err(error) => step == AttachStep::Failed(error) && *final(manager) == *old(manager),
                Ok(live) => {
                    let task = self.task;
                    let known = known_binding(old(manager).state, task.target.sys_name@);
                    if is_attached(known, task.target, task.vm@, generation@, live@) {
                        let commit = UsbCommit { task, generation, port: known->0.port };
                        &&& step == AttachStep::SaveVm((CommitVm { commit }))
                        &&& notes_vm(old(manager).state, commit, final(manager).state)
                        &&& *final(manager) == (DeviceManager {
                            state: final(manager).state,
                            ..*old(manager)
                        })
                    } else {
                        &&& step == AttachStep::Attach(
                            (AttachCommand {
                                task: (UsbAttach { changed: true, ..task }),
                                generation,
                                stale: stale_port(known, task.vm@, generation@, live@),
                            }),
                        )
                        &&& *final(manager) == *old(manager)
                    }
                },
            },
    {
        let live = match live {
            Ok(live) => live,
            Err(error) => {
                return AttachStep::Failed(error);
            },
        };
        let task = self.task;
        let known = match manager.state.persistent.crosvm_usb_ports.get(
            task.target.sys_name.as_str(),
        ) {
            Some(binding) => Some(binding.clone()),
            None => None,
        };
        assert(known == known_binding(manager.state, task.target.sys_name@));
        let mut stale: Option<u8> = None;
        if let Some(binding) = &known {
            if same(binding.vm.as_str(), task.vm.as_str()) && same(
                binding.socket_generation.as_str(),
                generation.as_str(),
            ) {
                if same_opt(&binding.vid, &task.target.vid) && same_opt(
                    &binding.pid,
                    &task.target.pid,
                ) && same_opt(&binding.serial, &task.target.serial) && has_live(
                    &live,
                    binding.port,
                    &task.target.vid,
                    &task.target.pid,
                ) {
                    let port: u8 = binding.port;
                    return note_vm(manager, UsbCommit { task, generation, port });
                }
                if has_live(&live, binding.port, &binding.vid, &binding.pid) {
                    stale = Some(binding.port);
                }
            }
        }
        let task = UsbAttach {
            target: task.target,
            vm: task.vm,
            socket: task.socket,
            changed: true,
            gated: task.gated,
        };
        AttachStep::Attach(AttachCommand { task, generation, stale })
    }
}

impl AttachCommand {
    /// Takes the port that the machine gave the device. The port that it had
    /// before is freed.
    pub fn attached(self, manager: &mut DeviceManager, port: Result<u8, Error>) -> (step: AttachStep)
        ensures
            match port {
                Err(error) => step == AttachStep::Failed(error) && *final(manager) == *old(manager),
                Ok(port) => {
                    let commit = UsbCommit { task: self.task, generation: self.generation, port };
                    if self.stale is Some && self.stale->0 != port {
                        &&& step == (AttachStep::FreePort {
                            port: self.stale->0,
                            next: (AttachFree { commit }),
                        })
                        &&& *final(manager) == *old(manager)
                    } else {
                        &&& step == AttachStep::SaveVm((CommitVm { commit }))
                        &&& notes_vm(old(manager).state, commit, final(manager).state)
                        &&& *final(manager) == (DeviceManager {
                            state: final(manager).state,
                            ..*old(manager)
                        })
                    }
                },
            },
    {
        let port: u8 = match port {
            Ok(port) => port,
            Err(error) => {
                return AttachStep::Failed(error);
            },
        };
        let commit = UsbCommit { task: self.task, generation: self.generation, port };
        match self.stale {
            Some(stale) => {
                if stale != port {
                    return AttachStep::FreePort { port: stale, next: AttachFree { commit } };
                }
            },
            None => {},
        }
        note_vm(manager, commit)
    }
}

impl AttachFree {
    /// Goes on once the old port is free.
    pub fn freed(self, manager: &mut DeviceManager, outcome: Result<(), Error>) -> (step: AttachStep)
        ensures
            match outcome {
                Err(error) => step == AttachStep::Failed(error) && *final(manager) == *old(manager),
                Ok(_) => {
                    &&& step == AttachStep::SaveVm((CommitVm { commit: self.commit }))
                    &&& notes_vm(old(manager).state, self.commit, final(manager).state)
                    &&& *final(manager) == (DeviceManager {
                        state: final(manager).state,
                        ..*old(manager)
                    })
                },
            },
    {
        match outcome {
            Ok(_) => note_vm(manager, self.commit),
            Err(error) => AttachStep::Failed(error),
        }
    }
}

/// Whether `binding` remembers where the device is.
pub open spec fn remembers(commit: UsbCommit, binding: UsbPortBinding) -> bool {
    &&& binding.vm == commit.task.vm
    &&& binding.port == commit.port
    &&& binding.socket_generation == commit.generation
    &&& binding.vid == commit.task.target.vid
    &&& binding.pid == commit.task.target.pid
    &&& binding.serial == commit.task.target.serial
}

impl CommitVm {
    /// Goes on once the machine of the device is saved: lifts the mark of a
    /// disconnected device.
    pub fn saved(self, manager: &mut DeviceManager, outcome: Result<(), Error>) -> (step: AttachStep)
        ensures
            match outcome {
                Err(error) => step == AttachStep::Failed(error) && *final(manager) == *old(manager),
                Ok(_) => {
                    &&& step == AttachStep::SaveConnected((CommitConnected { commit: self.commit }))
                    &&& notes_connected(old(manager).state, self.commit, final(manager).state)
                    &&& *final(manager) == (DeviceManager {
                        state: final(manager).state,
                        ..*old(manager)
                    })
                },
            },
    {
        match outcome {
            Ok(_) => {
                manager.state.set_disconnected(self.commit.task.target.id.as_str(), false);
                AttachStep::SaveConnected(CommitConnected { commit: self.commit })
            },
            Err(error) => AttachStep::Failed(error),
        }
    }
}

impl CommitConnected {
    /// Goes on once the lifted mark is saved: remembers the port.
    pub fn saved(self, manager: &mut DeviceManager, outcome: Result<(), Error>) -> (step: AttachStep)
        ensures
            match outcome {
                Err(error) => step == AttachStep::Failed(error) && *final(manager) == *old(manager),
                Ok(_) => {
                    &&& step == AttachStep::SavePort((CommitPort { commit: self.commit }))
                    &&& notes_port(old(manager).state, self.commit, final(manager).state)
                    &&& *final(manager) == (DeviceManager {
                        state: final(manager).state,
                        ..*old(manager)
                    })
                },
            },
    {
        match outcome {
            Ok(_) => {
                let commit = self.commit;
                let binding = UsbPortBinding {
                    vm: commit.task.vm.clone(),
                    port: commit.port,
                    socket_generation: commit.generation.clone(),
                    vid: commit.task.target.vid.clone(),
                    pid: commit.task.target.pid.clone(),
                    serial: commit.task.target.serial.clone(),
                };
                manager.state.persistent.crosvm_usb_ports.insert(
                    commit.task.target.sys_name.as_str(),
                    binding,
                );
                AttachStep::SavePort(CommitPort { commit })
            },
            Err(error) => AttachStep::Failed(error),
        }
    }
}

impl CommitPort {
    /// Ends the attachment once the port is saved: no machine is asked for
    /// any more, and the attachment is made known where it is news.
    pub fn saved(self, manager: &mut DeviceManager, outcome: Result<(), Error>) -> (step: AttachStep)
        ensures
            match outcome {
                Err(error) => step == AttachStep::Failed(error) && *final(manager) == *old(manager),
                Ok(_) => {
                    &&& step == (AttachStep::Done {
                        notify: self.commit.task.changed,
                        vm: self.commit.task.vm,
                    })
                    &&& final(manager).pending_usb_selection@ == old(
                        manager,
                    ).pending_usb_selection@.remove(self.commit.task.target.id@)
                    &&& *final(manager) == (DeviceManager {
                        pending_usb_selection: final(manager).pending_usb_selection,
                        ..*old(manager)
                    })
                },
            },
    {
        match outcome {
            Ok(_) => {
                manager.pending_usb_selection.remove(self.commit.task.target.id.as_str());
                AttachStep::Done { notify: self.commit.task.changed, vm: self.commit.task.vm }
            },
            Err(error) => AttachStep::Failed(error),
        }
    }
}

/// A machine that already has the device keeps it: once an attachment was
/// remembered, a look at the same run of the machine finds the device at its
/// port, so that nothing is attached again.
pub proof fn law_attachment_is_kept(
    commit: UsbCommit,
    binding: UsbPortBinding,
    again: UsbAttach,
    live: Seq<(u8, String, String)>,
)
    requires
        remembers(commit, binding),
        opt(again.target.vid) == opt(commit.task.target.vid),
        opt(again.target.pid) == opt(commit.task.target.pid),
        opt(again.target.serial) == opt(commit.task.target.serial),
        again.vm@ == commit.task.vm@,
        is_live(live, commit.port, opt(commit.task.target.vid), opt(commit.task.target.pid)),
    ensures
        is_attached(Some(binding), again.target, again.vm@, commit.generation@, live),
{
}

/// An attachment that ran to its end is remembered: the machine has the
/// device, the device is not marked as disconnected, and a later look at the
/// same run of the machine finds it, so that nothing is attached again.
pub proof fn law_attached_is_remembered(
    start: State,
    one: State,
    two: State,
    end: State,
    commit: UsbCommit,
    live: Seq<(u8, String, String)>,
)
    requires
        notes_vm(start, commit, one),
        notes_connected(one, commit, two),
        notes_port(two, commit, end),
        is_live(live, commit.port, opt(commit.task.target.vid), opt(commit.task.target.pid)),
    ensures
        holder(end.usb_vms@, Some(commit.task.target.node@)) == Some(commit.task.vm@),
        !end.is_disconnected(commit.task.target.id@),
        is_attached(
            known_binding(end, commit.task.target.sys_name@),
            commit.task.target,
            commit.task.vm@,
            commit.generation@,
            live,
        ),
{
    let id = commit.task.target.id@;
    assert(!two.is_disconnected(id));
    assert(end.is_disconnected(id) == two.is_disconnected(id));
}

/// An attachment leaves the other devices alone: what is known of their
/// machines, ports and marks stays.
pub proof fn law_attachment_leaves_others(
    start: State,
    one: State,
    two: State,
    end: State,
    commit: UsbCommit,
    node: Seq<char>,
    sys_name: Seq<char>,
    id: Seq<char>,
)
    requires
        notes_vm(start, commit, one),
        notes_connected(one, commit, two),
        notes_port(two, commit, end),
        node != commit.task.target.node@,
        sys_name != commit.task.target.sys_name@,
        id != commit.task.target.id@,
    ensures
        holder(end.usb_vms@, Some(node)) == holder(start.usb_vms@, Some(node)),
        known_binding(end, sys_name) == known_binding(start, sys_name),
        end.is_disconnected(id) == start.is_disconnected(id),
        end.pci_vms == start.pci_vms,
{
    assert(two.is_disconnected(id) == one.is_disconnected(id));
    assert(end.is_disconnected(id) == two.is_disconnected(id));
    assert(one.is_disconnected(id) == start.is_disconnected(id));
}

/// A machine that was started anew never has an old port: a remembered port
/// counts only for the run of the machine that it was remembered for.
pub proof fn law_new_run_forgets_ports(
    binding: Option<UsbPortBinding>,
    target: UsbTarget,
    vm: Seq<char>,
    generation: Seq<char>,
    live: Seq<(u8, String, String)>,
)
    requires
        binding is Some ==> binding->0.socket_generation@ != generation,
    ensures
        !is_attached(binding, target, vm, generation, live),
        stale_port(binding, vm, generation, live) is None,
{
}

/// A device that took the place of another one in the same machine frees the
/// port of that one.
pub proof fn law_replaced_port_is_freed(
    binding: UsbPortBinding,
    target: UsbTarget,
    vm: Seq<char>,
    generation: Seq<char>,
    live: Seq<(u8, String, String)>,
)
    requires
        is_current(Some(binding), vm, generation),
        is_live(live, binding.port, opt(binding.vid), opt(binding.pid)),
        opt(binding.serial) != opt(target.serial),
    ensures
        !is_attached(Some(binding), target, vm, generation, live),
        stale_port(Some(binding), vm, generation, live) == Some(binding.port),
{
}

/// A machine is asked for once: after the first request the device is known
/// to wait, and a second attempt asks no more.
pub proof fn law_selection_is_asked_once(
    before: Map<Seq<char>, ()>,
    after: Map<Seq<char>, ()>,
    id: Seq<char>,
)
    requires
        after == before.insert(id, ()),
    ensures
        after.contains_key(id),
        after.insert(id, ()) == after,
{
    assert(after.insert(id, ()) =~= after);
}

/// A machine that the rule alone chooses is one that it allows.
pub proof fn law_chosen_by_rule_is_allowed(state: State, device: UsbDevice, rule: RuleMatch)
    requires
        rule.target_vm is Some || !state.persistent.selected_vms@.contains_key(usb_id(device)),
        chosen_vm(state, device, rule, None) is Some,
    ensures
        allowed(rule).contains(chosen_vm(state, device, rule, None)->0),
{
    if rule.target_vm is Some {
        assert(allowed(rule)[0] == rule.target_vm->0@);
    } else {
        assert(allowed(rule)[0] == rule.allowed_vms@[0]@);
    }
}

/// The attachment that a step belongs to, where it carries one.
pub open spec fn task_of(step: AttachStep) -> Option<UsbAttach> {
    match step {
        AttachStep::Detach(next) => Some(next.task),
        AttachStep::ReadDeviceDriver(next) => Some(next.task),
        AttachStep::Configure { next, .. } => Some(next.task),
        AttachStep::ListInterfaces(next) => Some(next.task),
        AttachStep::ReadDriver { next, .. } => Some(next.task),
        AttachStep::Release { next, .. } => Some(next.claim.task),
        AttachStep::Inspect(next) => Some(next.task),
        AttachStep::Attach(next) => Some(next.task),
        AttachStep::FreePort { next, .. } => Some(next.commit.task),
        AttachStep::SaveVm(next) => Some(next.commit.task),
        AttachStep::SaveConnected(next) => Some(next.commit.task),
        AttachStep::SavePort(next) => Some(next.commit.task),
        _ => None,
    }
}

/// The order in which a machine is chosen: what was asked for, then the
/// target of the rule, then the machine that the device was last attached to,
/// then the only one allowed.
pub proof fn law_request_comes_first(
    state: State,
    device: UsbDevice,
    rule: RuleMatch,
    name: Seq<char>,
)
    ensures
        chosen_vm(state, device, rule, Some(name)) == Some(name),
        rule.target_vm is Some ==> chosen_vm(state, device, rule, None) == Some(
            rule.target_vm->0@,
        ),
        rule.target_vm is None && state.persistent.selected_vms@.contains_key(usb_id(device))
            ==> chosen_vm(state, device, rule, None) == Some(
            state.persistent.selected_vms@[usb_id(device)]@,
        ),
        rule.target_vm is None && !state.persistent.selected_vms@.contains_key(usb_id(device))
            && rule.allowed_vms@.len() == 1 ==> chosen_vm(state, device, rule, None) == Some(
            rule.allowed_vms@[0]@,
        ),
        rule.target_vm is None && !state.persistent.selected_vms@.contains_key(usb_id(device))
            && rule.allowed_vms@.len() != 1 ==> chosen_vm(state, device, rule, None) is None,
{
}

/// A rule allows exactly its target and the machines that it lists.
pub open spec fn lets_in(rule: RuleMatch, name: Seq<char>) -> bool {
    ||| rule.target_vm is Some && rule.target_vm->0@ == name
    ||| exists|i: int| 0 <= i < rule.allowed_vms@.len() && #[trigger] rule.allowed_vms@[i]@ == name
}

proof fn lemma_lets_in(rule: RuleMatch, name: Seq<char>)
    ensures
        lets_in(rule, name) <==> allowed(rule).contains(name),
{
    let list = views(rule.allowed_vms@);
    let all = allowed(rule);
    let shift: int = if rule.target_vm is Some {
        1
    } else {
        0
    };
    assert(all.len() == list.len() + shift);
    assert forall|i: int| 0 <= i < list.len() implies all[i + shift] == #[trigger] list[i] by {}
    if lets_in(rule, name) {
        if rule.target_vm is Some && rule.target_vm->0@ == name {
            assert(all[0] == name);
        } else {
            let i = choose|i: int|
                0 <= i < rule.allowed_vms@.len() && #[trigger] rule.allowed_vms@[i]@ == name;
            assert(list[i] == name);
            assert(all[i + shift] == name);
        }
    }
    if all.contains(name) {
        let k = choose|k: int| 0 <= k < all.len() && all[k] == name;
        if k >= shift {
            assert(list[k - shift] == name);
            assert(rule.allowed_vms@[k - shift]@ == name);
        }
    }
}

/// An explicit request decides: where a machine is asked for that the rule
/// allows and the configuration knows, the attachment is one to that machine
/// and its socket, whatever else is known; where the rule does not allow it,
/// the attachment fails and names it.
pub proof fn law_request_decides(
    manager: &mut DeviceManager,
    device: &UsbDevice,
    rule: &RuleMatch,
    name: &str,
    has_bus: bool,
    step: AttachStep,
)
    requires
        call_ensures(attach_one_usb, (manager, device, rule, Some(name), has_bus), step),
    ensures
        task_of(step) is Some ==> task_of(step)->0.vm@ == name@,
        step !is Undecided && step !is Done,
        !lets_in(*rule, name@) ==> (step matches AttachStep::Failed(error) && (
        error matches Error::UsbVmNotAllowed { vm, device: sys_name } && vm@ == name@ && sys_name@
            == device.sys_name@)),
        lets_in(*rule, name@) && device.device_node is Some && (exists|i: int|
            0 <= i < old(manager).config.vms@.len() && (#[trigger] old(manager).config.vms@[i]).name@
                == name@) ==> task_of(step) is Some,
        lets_in(*rule, name@) && (forall|i: int|
            0 <= i < old(manager).config.vms@.len() ==> (
            #[trigger] old(manager).config.vms@[i]).name@ != name@) ==> (
        step matches AttachStep::Failed(error) && (error matches Error::UnknownVm(vm) && vm@
            == name@)),
        task_of(step) is Some ==> exists|i: int|
            0 <= i < old(manager).config.vms@.len() && (#[trigger] old(manager).config.vms@[i]).name@
                == name@ && old(manager).config.vms@[i].socket == task_of(step)->0.socket,
        final(manager).state == old(manager).state,
        final(manager).pending_usb_selection == old(manager).pending_usb_selection,
{
    lemma_lets_in(*rule, name@);
    lemma_vm_named(old(manager).config.vms@, name@);
}

/// Without a request a device never goes to a machine that its rule does not
/// allow, and one for which nothing chooses a machine is not attached but
/// waits.
pub proof fn law_attachment_is_allowed(
    manager: &mut DeviceManager,
    device: &UsbDevice,
    rule: &RuleMatch,
    requested: Option<&str>,
    has_bus: bool,
    step: AttachStep,
)
    requires
        call_ensures(attach_one_usb, (manager, device, rule, requested, has_bus), step),
    ensures
        task_of(step) is Some ==> lets_in(*rule, task_of(step)->0.vm@),
        requested is None && rule.target_vm is Some && task_of(step) is Some ==> task_of(
            step,
        )->0.vm@ == rule.target_vm->0@,
        requested is None && rule.target_vm is None && old(
            manager,
        ).state.persistent.selected_vms@.contains_key(usb_id(*device)) && task_of(step) is Some
            ==> task_of(step)->0.vm@ == old(manager).state.persistent.selected_vms@[usb_id(
            *device,
        )]@,
        requested is None && rule.target_vm is None && !old(
            manager,
        ).state.persistent.selected_vms@.contains_key(usb_id(*device)) && rule.allowed_vms@.len()
            != 1 ==> {
            &&& step matches AttachStep::Undecided { notify }
            &&& notify <==> !old(manager).pending_usb_selection@.contains_key(usb_id(*device))
            &&& final(manager).pending_usb_selection@.contains_key(usb_id(*device))
        },
        step is Undecided ==> requested is None && rule.target_vm is None,
        final(manager).state == old(manager).state,
{
    if task_of(step) is Some {
        lemma_lets_in(*rule, task_of(step)->0.vm@);
    }
}

/// An attachment is that of the device: its name, node, ids and serial number.
/// A device that another machine has is taken off there first; one that no
/// machine or the chosen one has is not.
pub proof fn law_device_leaves_its_machine_first(
    manager: &mut DeviceManager,
    device: &UsbDevice,
    rule: &RuleMatch,
    requested: Option<&str>,
    has_bus: bool,
    step: AttachStep,
)
    requires
        call_ensures(attach_one_usb, (manager, device, rule, requested, has_bus), step),
        task_of(step) is Some,
    ensures
        ({
            let task = task_of(step)->0;
            let vms = old(manager).state.usb_vms@;
            &&& device.device_node is Some
            &&& task.target.sys_name == device.sys_name
            &&& Some(task.target.node) == device.device_node
            &&& task.target.id@ == usb_id(*device)
            &&& task.target.vid == device.vid
            &&& task.target.pid == device.pid
            &&& task.target.serial == device.serial
            &&& step is Detach <==> vms.contains_key(device.device_node->0@)
                && vms[device.device_node->0@]@ != task.vm@
            &&& task.changed <==> !(vms.contains_key(device.device_node->0@)
                && vms[device.device_node->0@]@ == task.vm@)
            &&& step !is Detach ==> (if task.gated {
                step is ReadDeviceDriver
            } else {
                step is ListInterfaces
            })
        }),
{
}

/// A host driver is taken off every interface before the machine gets the
/// device, save for a claim of a machine; a hub is left alone and goes to no
/// machine.
pub proof fn law_drivers_leave_first(
    claim: UsbClaim,
    manager: &mut DeviceManager,
    driver: &Option<String>,
    step: AttachStep,
)
    requires
        call_ensures(UsbClaim::driver, (claim, manager, driver), step),
        claim.interfaces@.len() > 0,
    ensures
        driver is Some && driver->0@ == "hub"@ ==> (step matches AttachStep::Hub { report }
            && report == !old(manager).reported_usb_hubs@.contains_key(claim.task.target.id@)),
        driver is Some && driver->0@ != "hub"@ && driver->0@ != "usbfs"@ ==> (
        step matches AttachStep::Release { write, next } && write.releases(claim.interfaces@[0]@)
            && next.claim.task == claim.task && next.claim.interfaces@.len()
            == claim.interfaces@.len() - 1),
        (driver is None || driver->0@ == "usbfs"@) && claim.interfaces@.len() == 1 ==> step
            == AttachStep::Inspect((AttachInspect { task: claim.task })),
        (driver is None || driver->0@ == "usbfs"@) && claim.interfaces@.len() > 1 ==> (
        step matches AttachStep::ReadDriver { interface, next } && interface
            == claim.interfaces@[1] && next.task == claim.task && next.interfaces@.len()
            == claim.interfaces@.len() - 1),
        step !is Hub ==> task_of(step) == Some(claim.task),
        final(manager).state == old(manager).state,
{
    reveal_strlit("hub");
    reveal_strlit("usbfs");
    assert("hub"@.len() != "usbfs"@.len());
}

/// A device without a driver of its own is configured first, and what cannot
/// be configured, listed or released is not attached.
pub proof fn law_unusable_devices_are_not_attached(
    first: AttachDriver,
    driver: &Option<String>,
    step: AttachStep,
    configure: AttachConfigure,
    list: AttachList,
    release: ClaimRelease,
    one: AttachStep,
    two: AttachStep,
    three: AttachStep,
)
    requires
        call_ensures(AttachDriver::driver, (first, driver), step),
        call_ensures(AttachConfigure::configured, (configure, false), one),
        call_ensures(AttachList::listed, (list, None), two),
        call_ensures(ClaimRelease::released, (release, false), three),
    ensures
        step is Configure <==> driver is None,
        step is ListInterfaces <==> driver is Some,
        task_of(step) == Some(first.task),
        one == AttachStep::Failed(Error::CannotClaim(configure.task.target.sys_name)),
        two == AttachStep::Failed(Error::CannotClaim(list.task.target.sys_name)),
        three == AttachStep::Failed(Error::CannotClaim(release.claim.task.target.sys_name)),
{
}

/// A machine that is asked anew whether it has a device is believed only
/// where the remembered port is of this run of this machine, is of this very
/// device and still has a device of its ids; a remembered port is freed only
/// where the machine still has there what was remembered.
pub proof fn law_machine_is_asked(
    inspect: AttachInspect,
    manager: &mut DeviceManager,
    generation: String,
    live: Vec<(u8, String, String)>,
    step: AttachStep,
)
    requires
        call_ensures(AttachInspect::inspected, (inspect, manager, generation, Ok(live)), step),
    ensures
        ({
            let ports = old(manager).state.persistent.crosvm_usb_ports@;
            let target = inspect.task.target;
            let name = target.sys_name@;
            let binding = ports[name];
            &&& step is SaveVm || step is Attach
            &&& !ports.contains_key(name) ==> (step matches AttachStep::Attach(next)
                && next.stale is None)
            &&& ports.contains_key(name) && (binding.vm@ != inspect.task.vm@
                || binding.socket_generation@ != generation@) ==> (step matches AttachStep::Attach(
                next,
            ) && next.stale is None)
            &&& step is SaveVm ==> {
                &&& ports.contains_key(name)
                &&& binding.vm@ == inspect.task.vm@
                &&& binding.socket_generation@ == generation@
                &&& opt(binding.vid) == opt(target.vid)
                &&& opt(binding.pid) == opt(target.pid)
                &&& opt(binding.serial) == opt(target.serial)
                &&& target.vid is Some && target.pid is Some
                &&& exists|i: int|
                    #![trigger live@[i]]
                    0 <= i < live@.len() && live@[i].0 == binding.port && live@[i].1@
                        == target.vid->0@ && live@[i].2@ == target.pid->0@
            }
            &&& step matches AttachStep::SaveVm(next) ==> next.commit.port == binding.port
                && next.commit.task == inspect.task && next.commit.generation == generation
            &&& step matches AttachStep::Attach(next) ==> {
                &&& next.task.vm == inspect.task.vm
                &&& next.task.target == target
                &&& next.task.socket == inspect.task.socket
                &&& next.task.changed
                &&& next.generation == generation
                &&& next.stale is Some ==> ports.contains_key(name) && next.stale->0
                    == binding.port && binding.vm@ == inspect.task.vm@
                    && binding.socket_generation@ == generation@ && exists|i: int|
                    #![trigger live@[i]]
                    0 <= i < live@.len() && live@[i].0 == binding.port && Some(live@[i].1@) == opt(
                        binding.vid,
                    ) && Some(live@[i].2@) == opt(binding.pid)
            }
        }),
        step is Attach ==> *final(manager) == *old(manager),
{
}

/// The port that a device had before is freed exactly where it is another
/// one, and what is remembered is the port that the machine gave.
pub proof fn law_old_port_is_freed_once(
    command: AttachCommand,
    manager: &mut DeviceManager,
    port: u8,
    step: AttachStep,
)
    requires
        call_ensures(AttachCommand::attached, (command, manager, Ok(port)), step),
    ensures
        step is FreePort <==> command.stale is Some && command.stale->0 != port,
        step matches AttachStep::FreePort { port: freed, next } ==> Some(freed) == command.stale
            && next.commit.port == port && next.commit.task == command.task
            && next.commit.generation == command.generation,
        step !is FreePort ==> (step matches AttachStep::SaveVm(next) && next.commit.port == port
            && next.commit.task == command.task && next.commit.generation == command.generation),
        step is FreePort ==> *final(manager) == *old(manager),
        step is SaveVm ==> final(manager).state.usb_vms@.contains_key(
            command.task.target.node@,
        ) && final(manager).state.usb_vms@[command.task.target.node@]@ == command.task.vm@,
{
}

/// What an attachment remembers: the machine of the node, the machine that
/// was selected for the device, no mark, and the port with all that tells the
/// device and the run of the machine apart. At its end no machine is asked
/// for any more, and it is made known where it is news.
pub proof fn law_attachment_remembers(
    start: AttachFree,
    manager: &mut DeviceManager,
    saved: AttachStep,
    vm: CommitVm,
    two: &mut DeviceManager,
    connected: AttachStep,
    mark: CommitConnected,
    three: &mut DeviceManager,
    ported: AttachStep,
    port: CommitPort,
    four: &mut DeviceManager,
    done: AttachStep,
)
    requires
        call_ensures(AttachFree::freed, (start, manager, Ok(())), saved),
        call_ensures(CommitVm::saved, (vm, two, Ok(())), connected),
        call_ensures(CommitConnected::saved, (mark, three, Ok(())), ported),
        call_ensures(CommitPort::saved, (port, four, Ok(())), done),
    ensures
        ({
            let target = start.commit.task.target;
            &&& final(manager).state.usb_vms@.contains_key(target.node@)
            &&& final(manager).state.usb_vms@[target.node@]@ == start.commit.task.vm@
            &&& final(manager).state.persistent.selected_vms@.contains_key(target.id@)
            &&& final(manager).state.persistent.selected_vms@[target.id@]@
                == start.commit.task.vm@
            &&& saved == AttachStep::SaveVm((CommitVm { commit: start.commit }))
        }),
        !final(two).state.is_disconnected(vm.commit.task.target.id@),
        connected == AttachStep::SaveConnected((CommitConnected { commit: vm.commit })),
        ({
            let ports = final(three).state.persistent.crosvm_usb_ports@;
            let name = mark.commit.task.target.sys_name@;
            &&& ports.contains_key(name)
            &&& ports[name].vm@ == mark.commit.task.vm@
            &&& ports[name].port == mark.commit.port
            &&& ports[name].socket_generation@ == mark.commit.generation@
            &&& opt(ports[name].vid) == opt(mark.commit.task.target.vid)
            &&& opt(ports[name].pid) == opt(mark.commit.task.target.pid)
            &&& opt(ports[name].serial) == opt(mark.commit.task.target.serial)
            &&& ported == AttachStep::SavePort((CommitPort { commit: mark.commit }))
        }),
        !final(four).pending_usb_selection@.contains_key(port.commit.task.target.id@),
        done == (AttachStep::Done {
            notify: port.commit.task.changed,
            vm: port.commit.task.vm,
        }),
{
    assert(final(two).state.is_disconnected(vm.commit.task.target.id@) == false);
}

/// A failure anywhere ends the attachment and changes nothing.
pub proof fn law_failed_attachment_changes_nothing(
    error: Error,
    manager: &mut DeviceManager,
    inspect: AttachInspect,
    generation: String,
    command: AttachCommand,
    free: AttachFree,
    vm: CommitVm,
    mark: CommitConnected,
    port: CommitPort,
    step: AttachStep,
)
    requires
        call_ensures(AttachInspect::inspected, (inspect, manager, generation, Err(error)), step)
            || call_ensures(AttachCommand::attached, (command, manager, Err(error)), step)
            || call_ensures(AttachFree::freed, (free, manager, Err(error)), step) || call_ensures(
            CommitVm::saved,
            (vm, manager, Err(error)),
            step,
        ) || call_ensures(CommitConnected::saved, (mark, manager, Err(error)), step)
            || call_ensures(CommitPort::saved, (port, manager, Err(error)), step),
    ensures
        step == AttachStep::Failed(error),
        *final(manager) == *old(manager),
{
}

/// An attachment is made known only at its end and only where it is news; a
/// choice is asked for only where none was.
pub proof fn law_events_of_an_attachment(step: &AttachStep, out: Option<Event>)
    requires
        call_ensures(AttachStep::event, (step,), out),
    ensures
        out == Some(Event::UsbAttached) <==> (*step matches AttachStep::Done { notify, .. }
            && notify),
        out == Some(Event::UsbSelectVm) <==> (*step matches AttachStep::Undecided { notify }
            && notify),
        out is Some ==> out->0 is UsbAttached || out->0 is UsbSelectVm,
{
}

/// An attachment goes over the control socket that the configuration has for
/// the machine, whatever made the machine the one.
pub proof fn law_attachment_goes_to_a_known_machine(
    manager: &mut DeviceManager,
    device: &UsbDevice,
    rule: &RuleMatch,
    requested: Option<&str>,
    has_bus: bool,
    step: AttachStep,
)
    requires
        call_ensures(attach_one_usb, (manager, device, rule, requested, has_bus), step),
    ensures
        task_of(step) is Some ==> device.device_node is Some && exists|i: int|
            0 <= i < old(manager).config.vms@.len() && (#[trigger] old(manager).config.vms@[i]).name@
                == task_of(step)->0.vm@ && old(manager).config.vms@[i].socket
                == task_of(step)->0.socket,
{
    if task_of(step) is Some {
        lemma_vm_named(old(manager).config.vms@, task_of(step)->0.vm@);
    }
}

/// A device that came without a driver is configured before its interfaces are
/// looked at, and goes on to them once it is.
pub proof fn law_late_devices_are_configured(
    first: AttachDriver,
    step: AttachStep,
    configure: AttachConfigure,
    after: AttachStep,
)
    requires
        call_ensures(AttachDriver::driver, (first, &None), step),
        call_ensures(AttachConfigure::configured, (configure, true), after),
    ensures
        step matches AttachStep::Configure { write, next } && next.task == first.task
            && write.place is Bus && write.path@ == "drivers_probe"@ && write.value@
            == first.task.target.sys_name@,
        after == AttachStep::ListInterfaces((AttachList { task: configure.task })),
{
}

} // verus!
