//! Attaching a PCI device to a machine and taking it off, step by step.

use crate::config::{lemma_vm_named, vm_named, Config, RuleMatch};
use crate::crosvm::{pci_path, vfio_path};
use crate::device::{pci_id, PciDevice};
use crate::error::Error;
use crate::manager::{holder, DeviceManager};
use crate::order::{lemma_filter_places, taken_at};
use crate::protocol::Event;
use crate::state::{sets_mark, PersistentState, State};
use crate::table::StringMap;
use crate::text::{contains, lemma_lists_push, lists, opt, opt_ref, same, views};
use vstd::prelude::*;

verus! {

/// A PCI device on its way to a machine.
#[derive(Debug)]
pub struct PciAttach {
    pub address: String,
    pub id: String,
    pub vm: String,
    /// The control socket of the machine.
    pub socket: String,
    /// Whether the machine gets all devices of the IOMMU group.
    pub add_all: bool,
    /// Whether a device that shares its IOMMU group is refused.
    pub skip_if_shared: bool,
}

/// What the attachment of a PCI device needs next.
#[derive(Debug)]
pub enum PciAttachStep {
    /// Read the device list of the machine. A machine that does not give one
    /// cannot take devices.
    List(PciList),
    /// Read the IOMMU group of the device.
    Group(PciGroup),
    /// Hand this device to `vfio-pci`.
    Bind { address: String, next: PciBind },
    /// Add this device to the machine.
    Add { address: String, next: PciAdd },
    /// Save the state.
    Save(PciSave),
    /// This machine has the device. Make that known, where it is news.
    Done { notify: bool, vm: String },
    Failed(Error),
}

impl PciAttachStep {
    /// The event that this step makes known, if any.
    pub fn event(&self) -> (out: Option<Event>)
        ensures
            out == match *self {
                PciAttachStep::Done { notify: true, .. } => Some(Event::PciAttached),
                _ => None::<Event>,
            },
    {
        match self {
            PciAttachStep::Done { notify: true, .. } => Some(Event::PciAttached),
            _ => None::<Event>,
        }
    }
}

/// The device list of the machine is read.
#[derive(Debug)]
pub struct PciList {
    pub task: PciAttach,
}

/// The IOMMU group of the device is read.
#[derive(Debug)]
pub struct PciGroup {
    pub task: PciAttach,
    /// The devices that the machine had at the start.
    pub live: Vec<String>,
}

/// The devices of the group leave the host.
#[derive(Debug)]
pub struct PciBind {
    pub task: PciAttach,
    pub live: Vec<String>,
    /// The devices that have to leave the host together.
    pub members: Vec<String>,
    /// Those that are left.
    pub left: Vec<String>,
}

/// The machine gets the devices.
#[derive(Debug)]
pub struct PciAdd {
    pub addition: PciAddition,
    /// The devices that are left.
    pub left: Vec<String>,
}

/// The machine of the devices is saved.
#[derive(Debug)]
pub struct PciSave {
    pub addition: PciAddition,
}

/// The machine that a PCI device goes to: the one asked for, else the target
/// of its rule.
pub open spec fn requested_vm(rule: RuleMatch, requested: Option<Seq<char>>) -> Option<Seq<char>> {
    if requested is Some {
        requested
    } else {
        opt(rule.target_vm)
    }
}

/// Starts to attach a PCI device. Only the target of its rule may get it.
pub fn attach_one_pci(
    config: &Config,
    device: &PciDevice,
    rule: &RuleMatch,
    requested: Option<&str>,
) -> (step: PciAttachStep)
    ensures
        ({
            let vm = requested_vm(*rule, opt_ref(requested));
            if rule.target_vm is None {
                step == PciAttachStep::Failed(Error::NoTargetVm)
            } else if vm != opt(rule.target_vm) {
                &&& step matches PciAttachStep::Failed(error)
                &&& error matches Error::PciVmNotAllowed { vm: name, device: address }
                &&& Some(name@) == vm
                &&& address@ == device.address@
            } else {
                match vm_named(config.vms@, vm->0) {
                    None => {
                        &&& step matches PciAttachStep::Failed(error)
                        &&& error matches Error::UnknownVm(name)
                        &&& Some(name@) == vm
                    },
                    Some(found) => {
                        &&& step matches PciAttachStep::List(next)
                        &&& next.task.address == device.address
                        &&& next.task.id@ == pci_id(*device)
                        &&& Some(next.task.vm@) == vm
                        &&& next.task.socket == found.socket
                        &&& next.task.add_all == rule.iommu_add_all
                        &&& next.task.skip_if_shared == rule.iommu_skip_if_shared
                    },
                }
            }
        }),
{
    let target = match &rule.target_vm {
        Some(target) => target,
        None => {
            return PciAttachStep::Failed(Error::NoTargetVm);
        },
    };
    let vm: String = match requested {
        Some(name) => name.to_owned(),
        None => target.clone(),
    };
    if !same(vm.as_str(), target.as_str()) {
        return PciAttachStep::Failed(Error::PciVmNotAllowed { vm, device: device.address.clone() });
    }
    let socket = match config.vm(vm.as_str()) {
        Ok(found) => found.socket.clone(),
        Err(error) => {
            return PciAttachStep::Failed(error);
        },
    };
    let task = PciAttach {
        address: device.address.clone(),
        id: device.persistent_id(),
        vm,
        socket,
        add_all: rule.iommu_add_all,
        skip_if_shared: rule.iommu_skip_if_shared,
    };
    PciAttachStep::List(PciList { task })
}

fn alone(address: &str) -> (out: Vec<String>)
    ensures
        views(out@) == seq![address@],
{
    let mut out: Vec<String> = Vec::new();
    out.push(address.to_owned());
    assert(views(out@) =~= seq![address@]);
    out
}

/// The devices that have to leave the host together: the IOMMU group, or the
/// device alone where it is in none.
pub open spec fn quarantined(address: Seq<char>, group: Seq<Seq<char>>) -> Seq<Seq<char>> {
    if group.len() == 0 {
        seq![address]
    } else {
        group
    }
}

/// The devices that have to leave the host together.
pub fn quarantine(address: &str, group: Vec<String>) -> (out: Vec<String>)
    ensures
        views(out@) == quarantined(address@, views(group@)),
{
    assert(views(group@).len() == group@.len());
    if group.len() == 0 {
        alone(address)
    } else {
        group
    }
}

/// The paths of the devices that a machine has not got yet.
pub open spec fn missing_from(attach: Seq<String>, live: Seq<String>) -> Seq<String> {
    attach.filter(|address: String| !lists(live, vfio_path(address@)))
}

/// Whether every device is known to be with the machine.
pub open spec fn all_with(vms: Map<Seq<char>, String>, attach: Seq<String>, vm: Seq<char>) -> bool {
    forall|i: int|
        0 <= i < attach.len() ==> holder(vms, Some((#[trigger] attach[i])@)) == Some(vm)
}

/// The devices that a machine gets.
#[derive(Debug)]
pub struct PciAddition {
    pub task: PciAttach,
    /// All devices that belong to the attachment.
    pub attach: Vec<String>,
    /// Those that the machine has not got yet.
    pub missing: Vec<String>,
    /// Whether the attachment is news.
    pub changed: bool,
}

/// Whether `addition` is what a machine gets: the group or the device alone,
/// as the rule says.
pub open spec fn is_addition(
    vms: Map<Seq<char>, String>,
    task: PciAttach,
    members: Seq<Seq<char>>,
    live: Seq<String>,
    addition: PciAddition,
) -> bool {
    &&& addition.task == task
    &&& views(addition.attach@) == if task.add_all {
        members
    } else {
        seq![task.address@]
    }
    &&& addition.missing@ == missing_from(addition.attach@, live)
    &&& addition.changed == (addition.missing@.len() > 0 || !all_with(
        vms,
        addition.attach@,
        task.vm@,
    ))
}

fn plan_addition(
    manager: &DeviceManager,
    task: PciAttach,
    members: Vec<String>,
    live: &Vec<String>,
) -> (out: PciAddition)
    ensures
        is_addition(manager.state.pci_vms@, task, views(members@), live@, out),
{
    let attach = if task.add_all {
        members
    } else {
        alone(task.address.as_str())
    };
    let mut missing: Vec<String> = Vec::new();
    let mut known = true;
    let mut i: usize = 0;
    proof {
        reveal(Seq::filter);
        assert(attach@.take(0).len() == 0);
    }
    while i < attach.len()
        invariant
            i <= attach.len(),
            missing@ == missing_from(attach@.take(i as int), live@),
            known == forall|k: int|
                0 <= k < i ==> holder(
                    manager.state.pci_vms@,
                    Some((#[trigger] attach@[k])@),
                ) == Some(task.vm@),
        decreases attach.len() - i,
    {
        let ghost next = attach@.take(i + 1);
        proof {
            reveal(Seq::filter);
            assert(next.drop_last() =~= attach@.take(i as int));
            assert(next.last() == attach@[i as int]);
        }
        let address = &attach[i];
        let is_known = match manager.state.pci_vms.get(address.as_str()) {
            Some(name) => same(name.as_str(), task.vm.as_str()),
            None => false,
        };
        if !is_known {
            known = false;
        }
        let path = pci_path(address.as_str());
        if !contains(live, path.as_str()) {
            missing.push(address.clone());
        }
        i += 1;
    }
    assert(attach@.take(attach@.len() as int) =~= attach@);
    let changed = missing.len() > 0 || !known;
    PciAddition { task, attach, missing, changed }
}

fn put_all(vms: &mut StringMap<String>, addresses: &Vec<String>, vm: &String)
    ensures
        forall|key: Seq<char>| #[trigger]
            final(vms)@.contains_key(key) <==> lists(addresses@, key) || old(vms)@.contains_key(key),
        forall|key: Seq<char>| lists(addresses@, key) ==> #[trigger] final(vms)@[key] == *vm,
        forall|key: Seq<char>|
            !lists(addresses@, key) && old(vms)@.contains_key(key) ==> #[trigger] final(vms)@[key]
                == old(vms)@[key],
{
    let mut i: usize = 0;
    while i < addresses.len()
        invariant
            i <= addresses.len(),
            forall|key: Seq<char>| #[trigger]
                vms@.contains_key(key) <==> lists(addresses@.take(i as int), key) || old(
                    vms,
                )@.contains_key(key),
            forall|key: Seq<char>|
                lists(addresses@.take(i as int), key) ==> #[trigger] vms@[key] == *vm,
            forall|key: Seq<char>|
                !lists(addresses@.take(i as int), key) && old(vms)@.contains_key(key)
                    ==> #[trigger] vms@[key] == old(vms)@[key],
        decreases addresses.len() - i,
    {
        let ghost head = addresses@.take(i as int);
        let ghost next = addresses@.take(i + 1);
        let ghost before = vms@;
        assert(next =~= head.push(addresses@[i as int]));
        vms.insert(addresses[i].as_str(), vm.clone());
        assert forall|key: Seq<char>|
            #![trigger lists(next, key)]
            lists(next, key) <==> lists(head, key) || key == addresses@[i as int]@ by {
            lemma_lists_push(head, addresses@[i as int], key);
        }
        i += 1;
    }
    assert(addresses@.take(addresses@.len() as int) =~= addresses@);
}

fn take_all(vms: &mut StringMap<String>, addresses: &Vec<String>)
    ensures
        forall|key: Seq<char>| #[trigger]
            final(vms)@.contains_key(key) <==> !lists(addresses@, key) && old(vms)@.contains_key(
                key,
            ),
        forall|key: Seq<char>|
            final(vms)@.contains_key(key) ==> #[trigger] final(vms)@[key] == old(vms)@[key],
{
    let mut i: usize = 0;
    while i < addresses.len()
        invariant
            i <= addresses.len(),
            forall|key: Seq<char>| #[trigger]
                vms@.contains_key(key) <==> !lists(addresses@.take(i as int), key) && old(
                    vms,
                )@.contains_key(key),
            forall|key: Seq<char>|
                vms@.contains_key(key) ==> #[trigger] vms@[key] == old(vms)@[key],
        decreases addresses.len() - i,
    {
        let ghost head = addresses@.take(i as int);
        let ghost next = addresses@.take(i + 1);
        assert(next =~= head.push(addresses@[i as int]));
        vms.remove(addresses[i].as_str());
        assert forall|key: Seq<char>|
            #![trigger lists(next, key)]
            lists(next, key) <==> lists(head, key) || key == addresses@[i as int]@ by {
            lemma_lists_push(head, addresses@[i as int], key);
        }
        i += 1;
    }
    assert(addresses@.take(addresses@.len() as int) =~= addresses@);
}

/// Whether a state remembers which machine has the devices and has lifted the
/// mark of a disconnected device, and nothing else changed.
pub open spec fn notes_addition(before: State, addition: PciAddition, after: State) -> bool {
    &&& forall|key: Seq<char>| #[trigger]
        after.pci_vms@.contains_key(key) <==> lists(addition.attach@, key)
            || before.pci_vms@.contains_key(key)
    &&& forall|key: Seq<char>|
        lists(addition.attach@, key) ==> #[trigger] after.pci_vms@[key] == addition.task.vm
    &&& forall|key: Seq<char>|
        !lists(addition.attach@, key) && before.pci_vms@.contains_key(key)
            ==> #[trigger] after.pci_vms@[key] == before.pci_vms@[key]
    &&& forall|other: Seq<char>| #[trigger]
        after.is_disconnected(other) == (other != addition.task.id@ && before.is_disconnected(
            other,
        ))
    &&& sets_mark(
        before.persistent.disconnected_devices@,
        addition.task.id@,
        false,
        after.persistent.disconnected_devices@,
    )
    &&& after == (State {
        pci_vms: after.pci_vms,
        persistent: (PersistentState {
            disconnected_devices: after.persistent.disconnected_devices,
            ..before.persistent
        }),
        ..before
    })
}

/// Whether `step` adds the first of the devices that are left, or notes the
/// attachment where none is.
pub open spec fn is_add_step(
    before: DeviceManager,
    addition: PciAddition,
    left: Seq<String>,
    step: PciAttachStep,
    after: DeviceManager,
) -> bool {
    if left.len() == 0 {
        &&& step == PciAttachStep::Save((PciSave { addition }))
        &&& notes_addition(before.state, addition, after.state)
        &&& after == (DeviceManager { state: after.state, ..before })
    } else {
        &&& step matches PciAttachStep::Add { address, next }
        &&& address == left[0]
        &&& next.addition == addition
        &&& next.left@ == left
        &&& after == before
    }
}

fn add_step(manager: &mut DeviceManager, addition: PciAddition, left: Vec<String>) -> (step:
    PciAttachStep)
    ensures
        is_add_step(*old(manager), addition, left@, step, *final(manager)),
{
    if left.len() == 0 {
        put_all(&mut manager.state.pci_vms, &addition.attach, &addition.task.vm);
        manager.state.set_disconnected(addition.task.id.as_str(), false);
        PciAttachStep::Save(PciSave { addition })
    } else {
        let address = left[0].clone();
        PciAttachStep::Add { address, next: PciAdd { addition, left } }
    }
}

/// Whether `step` hands the first of the devices that are left over, or goes
/// on to the machine where none is.
pub open spec fn is_bind_step(
    before: DeviceManager,
    task: PciAttach,
    live: Seq<String>,
    members: Seq<Seq<char>>,
    left: Seq<Seq<char>>,
    step: PciAttachStep,
    after: DeviceManager,
) -> bool {
    if left.len() == 0 {
        exists|addition: PciAddition| #[trigger]
            is_addition(before.state.pci_vms@, task, members, live, addition) && is_add_step(
                before,
                addition,
                addition.missing@,
                step,
                after,
            )
    } else {
        &&& step matches PciAttachStep::Bind { address, next }
        &&& address@ == left[0]
        &&& next.task == task
        &&& next.live@ == live
        &&& views(next.members@) == members
        &&& views(next.left@) == left
        &&& after == before
    }
}

impl PciBind {
    fn step(self, manager: &mut DeviceManager) -> (step: PciAttachStep)
        ensures
            is_bind_step(
                *old(manager),
                self.task,
                self.live@,
                views(self.members@),
                views(self.left@),
                step,
                *final(manager),
            ),
    {
        assert(views(self.left@).len() == self.left@.len());
        if self.left.len() == 0 {
            let addition = plan_addition(manager, self.task, self.members, &self.live);
            let missing = addition.missing.clone();
            assert(missing@ =~= addition.missing@);
            add_step(manager, addition, missing)
        } else {
            assert(views(self.left@)[0] == self.left@[0]@);
            let address = self.left[0].clone();
            PciAttachStep::Bind { address, next: self }
        }
    }

    /// Goes on once the first of the devices that are left is handed over.
    pub fn bound(self, manager: &mut DeviceManager, outcome: Result<(), Error>) -> (step:
        PciAttachStep)
        ensures
            match outcome {
                Err(error) => step == PciAttachStep::Failed(error) && *final(manager) == *old(
                    manager,
                ),
                Ok(_) => is_bind_step(
                    *old(manager),
                    self.task,
                    self.live@,
                    views(self.members@),
                    rest_of(views(self.left@)),
                    step,
                    *final(manager),
                ),
            },
    {
        match outcome {
            Ok(_) => {
                let mut next = self;
                if next.left.len() > 0 {
                    next.left.remove(0);
                }
                assert(views(next.left@) =~= rest_of(views(self.left@)));
                next.step(manager)
            },
            Err(error) => PciAttachStep::Failed(error),
        }
    }
}

/// A list without its first entry.
pub open spec fn rest_of<T>(list: Seq<T>) -> Seq<T> {
    if list.len() == 0 {
        list
    } else {
        list.skip(1)
    }
}

impl PciList {
    /// Takes the device list of the machine.
    pub fn listed(self, live: Result<Vec<String>, Error>) -> (step: PciAttachStep)
        ensures
            match live {
                Ok(live) => step == PciAttachStep::Group((PciGroup { task: self.task, live })),
                Err(_) => step == PciAttachStep::Failed(Error::VfioPreflight),
            },
    {
        match live {
            Ok(live) => PciAttachStep::Group(PciGroup { task: self.task, live }),
            Err(_) => PciAttachStep::Failed(Error::VfioPreflight),
        }
    }
}

impl PciGroup {
    /// Takes the IOMMU group of the device. All of its devices leave the host
    /// before the machine gets any.
    pub fn grouped(self, manager: &mut DeviceManager, group: Result<Vec<String>, Error>) -> (step:
        PciAttachStep)
        ensures
            match group {
                Err(error) => step == PciAttachStep::Failed(error) && *final(manager) == *old(
                    manager,
                ),
                Ok(group) => if self.task.skip_if_shared && group@.len() > 1 {
                    &&& step == PciAttachStep::Failed(Error::SharedGroup(self.task.address))
                    &&& *final(manager) == *old(manager)
                } else {
                    let members = quarantined(self.task.address@, views(group@));
                    is_bind_step(
                        *old(manager),
                        self.task,
                        self.live@,
                        members,
                        members,
                        step,
                        *final(manager),
                    )
                },
            },
    {
        let group = match group {
            Ok(group) => group,
            Err(error) => {
                return PciAttachStep::Failed(error);
            },
        };
        if self.task.skip_if_shared && group.len() > 1 {
            return PciAttachStep::Failed(Error::SharedGroup(self.task.address));
        }
        let members = quarantine(self.task.address.as_str(), group);
        let left = members.clone();
        assert(left@ =~= members@);
        PciBind { task: self.task, live: self.live, members, left }.step(manager)
    }
}

impl PciAdd {
    /// Goes on once the machine took the first of the devices that are left.
    /// Where it did not, the group stays away from the host.
    pub fn added(self, manager: &mut DeviceManager, succeeded: bool) -> (step: PciAttachStep)
        ensures
            if succeeded {
                is_add_step(
                    *old(manager),
                    self.addition,
                    rest_of(self.left@),
                    step,
                    *final(manager),
                )
            } else {
                let address = if self.left@.len() > 0 {
                    self.left@[0]@
                } else {
                    self.addition.task.address@
                };
                &&& step matches PciAttachStep::Failed(error)
                &&& error matches Error::Quarantined(name)
                &&& name@ == address
                &&& *final(manager) == *old(manager)
            },
    {
        let mut left = self.left;
        if succeeded {
            if left.len() > 0 {
                left.remove(0);
            }
            assert(left@ =~= rest_of(self.left@));
            add_step(manager, self.addition, left)
        } else if left.len() > 0 {
            PciAttachStep::Failed(Error::Quarantined(left.remove(0)))
        } else {
            PciAttachStep::Failed(Error::Quarantined(self.addition.task.address))
        }
    }
}

impl PciSave {
    /// Ends the attachment once the state is saved.
    pub fn saved(self, outcome: Result<(), Error>) -> (step: PciAttachStep)
        ensures
            step == match outcome {
                Ok(_) => PciAttachStep::Done {
                    notify: self.addition.changed,
                    vm: self.addition.task.vm,
                },
                Err(error) => PciAttachStep::Failed(error),
            },
    {
        match outcome {
            Ok(_) => PciAttachStep::Done {
                notify: self.addition.changed,
                vm: self.addition.task.vm,
            },
            Err(error) => PciAttachStep::Failed(error),
        }
    }
}

/// A PCI device on its way off a machine.
#[derive(Debug)]
pub struct PciDetach {
    pub address: String,
    pub id: String,
    pub vm: String,
    /// The control socket of the machine.
    pub socket: String,
    pub add_all: bool,
    /// Whether the device is disconnected on purpose.
    pub permanent: bool,
}

/// What the detachment of a PCI device needs next.
#[derive(Debug)]
pub enum PciDetachStep {
    /// Read the IOMMU group of the device.
    Group(PciDetachGroup),
    /// See whether the control socket of the machine exists.
    Look(PciDetachLook),
    /// Remove this device from the machine.
    Remove { address: String, next: PciRemove },
    /// Make known that the device left the machine.
    Notify(PciDetachNotify),
    /// Save the state.
    Save(PciDetachSave),
    Done,
    Failed(Error),
}

impl PciDetachStep {
    /// The event that this step makes known, if any.
    pub fn event(&self) -> (out: Option<Event>)
        ensures
            out == match *self {
                PciDetachStep::Notify(_) => Some(Event::PciDetached),
                _ => None::<Event>,
            },
    {
        match self {
            PciDetachStep::Notify(_) => Some(Event::PciDetached),
            _ => None::<Event>,
        }
    }
}

/// The IOMMU group of the device is read.
#[derive(Debug)]
pub struct PciDetachGroup {
    pub task: PciDetach,
}

/// The control socket is looked for.
#[derive(Debug)]
pub struct PciDetachLook {
    pub task: PciDetach,
    /// The devices that leave the machine.
    pub members: Vec<String>,
}

/// The machine gives the devices up.
#[derive(Debug)]
pub struct PciRemove {
    pub task: PciDetach,
    /// The devices that leave the machine.
    pub members: Vec<String>,
    /// Those that are left.
    pub left: Vec<String>,
}

/// The detachment is made known.
#[derive(Debug)]
pub struct PciDetachNotify {
    pub task: PciDetach,
}

/// The state without the devices is saved.
#[derive(Debug)]
pub struct PciDetachSave {}

/// The machine that has a PCI device, as far as is known: the one that it was
/// attached to, else the target of its rule.
pub open spec fn holding_pci_vm(state: State, device: PciDevice, rule: RuleMatch) -> Option<Seq<char>> {
    let attached = holder(state.pci_vms@, Some(device.address@));
    if attached is Some {
        attached
    } else {
        opt(rule.target_vm)
    }
}

/// Whether a state has the mark of a device as asked for, and nothing else
/// changed.
pub open spec fn marks(before: State, id: Seq<char>, permanent: bool, after: State) -> bool {
    &&& forall|other: Seq<char>| #[trigger]
        after.is_disconnected(other) == if other == id {
            permanent
        } else {
            before.is_disconnected(other)
        }
    &&& sets_mark(
        before.persistent.disconnected_devices@,
        id,
        permanent,
        after.persistent.disconnected_devices@,
    )
    &&& after == (State {
        persistent: (PersistentState {
            disconnected_devices: after.persistent.disconnected_devices,
            ..before.persistent
        }),
        ..before
    })
}

/// Whether a state has forgotten the machine of some devices, and nothing
/// else changed.
pub open spec fn drops(before: State, addresses: Seq<String>, after: State) -> bool {
    &&& forall|key: Seq<char>| #[trigger]
        after.pci_vms@.contains_key(key) <==> !lists(addresses, key)
            && before.pci_vms@.contains_key(key)
    &&& forall|key: Seq<char>|
        after.pci_vms@.contains_key(key) ==> #[trigger] after.pci_vms@[key] == before.pci_vms@[key]
    &&& after == (State { pci_vms: after.pci_vms, ..before })
}

fn mark(manager: &mut DeviceManager, id: &str, permanent: bool) -> (step: PciDetachStep)
    ensures
        step == PciDetachStep::Save((PciDetachSave {  })),
        marks(old(manager).state, id@, permanent, final(manager).state),
        *final(manager) == (DeviceManager { state: final(manager).state, ..*old(manager) }),
{
    manager.state.set_disconnected(id, permanent);
    PciDetachStep::Save(PciDetachSave {  })
}

/// Starts to take a PCI device off the machine that has it.
pub fn detach_one_pci(
    manager: &mut DeviceManager,
    device: &PciDevice,
    rule: &RuleMatch,
    permanent: bool,
) -> (step: PciDetachStep)
    ensures
        *final(manager) == (DeviceManager { state: final(manager).state, ..*old(manager) }),
        match holding_pci_vm(old(manager).state, *device, *rule) {
            None => {
                &&& step is Save
                &&& marks(old(manager).state, pci_id(*device), permanent, final(manager).state)
            },
            Some(vm) => {
                &&& final(manager).state == old(manager).state
                &&& match vm_named(old(manager).config.vms@, vm) {
                    None => {
                        &&& step matches PciDetachStep::Failed(error)
                        &&& error matches Error::UnknownVm(name)
                        &&& name@ == vm
                    },
                    Some(found) => {
                        &&& step matches PciDetachStep::Group(next)
                        &&& next.task.address == device.address
                        &&& next.task.id@ == pci_id(*device)
                        &&& next.task.vm@ == vm
                        &&& next.task.socket == found.socket
                        &&& next.task.add_all == rule.iommu_add_all
                        &&& next.task.permanent == permanent
                    },
                }
            },
        },
{
    let id = device.persistent_id();
    let vm: Option<String> = match manager.state.pci_vms.get(device.address.as_str()) {
        Some(name) => Some(name.clone()),
        None => rule.target_vm.clone(),
    };
    assert(opt(vm) == holding_pci_vm(manager.state, *device, *rule));
    let vm = match vm {
        Some(vm) => vm,
        None => {
            return mark(manager, id.as_str(), permanent);
        },
    };
    let socket = match manager.config.vm(vm.as_str()) {
        Ok(found) => found.socket.clone(),
        Err(error) => {
            return PciDetachStep::Failed(error);
        },
    };
    let task = PciDetach {
        address: device.address.clone(),
        id,
        vm,
        socket,
        add_all: rule.iommu_add_all,
        permanent,
    };
    PciDetachStep::Group(PciDetachGroup { task })
}

impl PciDetachGroup {
    /// Takes the IOMMU group of the device. What came together leaves
    /// together.
    pub fn grouped(self, group: Result<Vec<String>, Error>) -> (step: PciDetachStep)
        ensures
            match group {
                Err(error) => step == PciDetachStep::Failed(error),
                Ok(group) => {
                    &&& step matches PciDetachStep::Look(next)
                    &&& next.task == self.task
                    &&& views(next.members@) == if self.task.add_all {
                        quarantined(self.task.address@, views(group@))
                    } else {
                        seq![self.task.address@]
                    }
                },
            },
    {
        match group {
            Ok(group) => {
                let members = if self.task.add_all {
                    quarantine(self.task.address.as_str(), group)
                } else {
                    alone(self.task.address.as_str())
                };
                PciDetachStep::Look(PciDetachLook { task: self.task, members })
            },
            Err(error) => PciDetachStep::Failed(error),
        }
    }
}

/// Whether `step` removes the first of the devices that are left, or forgets
/// them all where none is.
pub open spec fn is_remove_step(
    before: DeviceManager,
    task: PciDetach,
    members: Seq<String>,
    left: Seq<String>,
    step: PciDetachStep,
    after: DeviceManager,
) -> bool {
    if left.len() == 0 {
        &&& step == PciDetachStep::Notify((PciDetachNotify { task }))
        &&& drops(before.state, members, after.state)
        &&& after == (DeviceManager { state: after.state, ..before })
    } else {
        &&& step matches PciDetachStep::Remove { address, next }
        &&& address == left[0]
        &&& next.task == task
        &&& next.members@ == members
        &&& next.left@ == left
        &&& after == before
    }
}

impl PciRemove {
    fn step(self, manager: &mut DeviceManager) -> (step: PciDetachStep)
        ensures
            is_remove_step(
                *old(manager),
                self.task,
                self.members@,
                self.left@,
                step,
                *final(manager),
            ),
    {
        if self.left.len() == 0 {
            take_all(&mut manager.state.pci_vms, &self.members);
            PciDetachStep::Notify(PciDetachNotify { task: self.task })
        } else {
            let address = self.left[0].clone();
            PciDetachStep::Remove { address, next: self }
        }
    }

    /// Goes on once the machine gave the first of the devices that are left
    /// up.
    pub fn removed(self, manager: &mut DeviceManager, outcome: Result<(), Error>) -> (step:
        PciDetachStep)
        ensures
            match outcome {
                Err(error) => step == PciDetachStep::Failed(error) && *final(manager) == *old(
                    manager,
                ),
                Ok(_) => is_remove_step(
                    *old(manager),
                    self.task,
                    self.members@,
                    rest_of(self.left@),
                    step,
                    *final(manager),
                ),
            },
    {
        match outcome {
            Ok(_) => {
                let mut next = self;
                if next.left.len() > 0 {
                    next.left.remove(0);
                }
                assert(next.left@ =~= rest_of(self.left@));
                next.step(manager)
            },
            Err(error) => PciDetachStep::Failed(error),
        }
    }
}

impl PciDetachLook {
    /// Takes whether the control socket exists. A machine that does not run
    /// has no device any more.
    pub fn looked(self, manager: &mut DeviceManager, exists: bool) -> (step: PciDetachStep)
        ensures
            is_remove_step(
                *old(manager),
                self.task,
                self.members@,
                if exists {
                    self.members@
                } else {
                    Seq::empty()
                },
                step,
                *final(manager),
            ),
    {
        let left: Vec<String> = if exists {
            let left = self.members.clone();
            assert(left@ =~= self.members@);
            left
        } else {
            let left: Vec<String> = Vec::new();
            assert(left@ =~= Seq::<String>::empty());
            left
        };
        PciRemove { task: self.task, members: self.members, left }.step(manager)
    }
}

impl PciDetachNotify {
    /// Goes on once the detachment is made known: notes whether the device is
    /// disconnected on purpose.
    pub fn notified(self, manager: &mut DeviceManager) -> (step: PciDetachStep)
        ensures
            step is Save,
            marks(old(manager).state, self.task.id@, self.task.permanent, final(manager).state),
            *final(manager) == (DeviceManager { state: final(manager).state, ..*old(manager) }),
    {
        mark(manager, self.task.id.as_str(), self.task.permanent)
    }
}

impl PciDetachSave {
    /// Ends the detachment once the state is saved.
    pub fn saved(self, outcome: Result<(), Error>) -> (step: PciDetachStep)
        ensures
            step == match outcome {
                Ok(_) => PciDetachStep::Done,
                Err(error) => PciDetachStep::Failed(error),
            },
    {
        match outcome {
            Ok(_) => PciDetachStep::Done,
            Err(error) => PciDetachStep::Failed(error),
        }
    }
}

impl DeviceManager {
    /// Forgets the machine of a lost PCI device.
    pub fn forget_pci(&mut self, address: &str)
        ensures
            final(self).state.pci_vms@ == old(self).state.pci_vms@.remove(address@),
            *final(self) == (DeviceManager {
                state: (State { pci_vms: final(self).state.pci_vms, ..old(self).state }),
                ..*old(self)
            }),
    {
        self.state.pci_vms.remove(address);
    }
}

/// Every device of an IOMMU group leaves the host together with the device
/// itself.
pub proof fn law_group_leaves_together(address: Seq<char>, group: Seq<Seq<char>>)
    requires
        group.len() > 0 ==> group.contains(address),
    ensures
        quarantined(address, group).contains(address),
        forall|i: int| 0 <= i < group.len() ==> quarantined(address, group).contains(
            #[trigger] group[i],
        ),
{
    if group.len() == 0 {
        assert(quarantined(address, group)[0] == address);
    }
}

/// An attachment that was noted is no news: where the machine has all of its
/// devices, attaching them again adds nothing and is not made known.
pub proof fn law_pci_attachment_is_kept(
    vms: Map<Seq<char>, String>,
    attach: Seq<String>,
    vm: String,
    live: Seq<String>,
)
    requires
        forall|key: Seq<char>| #[trigger] lists(attach, key) ==> vms.contains_key(key) && vms[key]
            == vm,
        forall|i: int|
            0 <= i < attach.len() ==> lists(live, vfio_path((#[trigger] attach[i])@)),
    ensures
        all_with(vms, attach, vm@),
        missing_from(attach, live).len() == 0,
{
    assert forall|i: int| 0 <= i < attach.len() implies holder(
        vms,
        Some((#[trigger] attach[i])@),
    ) == Some(vm@) by {
        assert(lists(attach, attach[i]@));
    }
    lemma_nothing_missing(attach, live);
}

proof fn lemma_nothing_missing(attach: Seq<String>, live: Seq<String>)
    requires
        forall|i: int|
            0 <= i < attach.len() ==> lists(live, vfio_path((#[trigger] attach[i])@)),
    ensures
        missing_from(attach, live).len() == 0,
    decreases attach.len(),
{
    reveal(Seq::filter);
    if attach.len() > 0 {
        let short = attach.drop_last();
        assert forall|i: int| 0 <= i < short.len() implies lists(
            live,
            vfio_path((#[trigger] short[i])@),
        ) by {
            assert(attach[i] == short[i]);
        }
        lemma_nothing_missing(short, live);
        assert(lists(live, vfio_path(attach[attach.len() - 1]@)));
    }
}

/// Devices that left a machine are with none any more.
pub proof fn law_dropped_is_held_by_none(
    before: State,
    members: Seq<String>,
    after: State,
    address: Seq<char>,
)
    requires
        drops(before, members, after),
        lists(members, address),
    ensures
        holder(after.pci_vms@, Some(address)) is None,
{
    assert(!after.pci_vms@.contains_key(address));
}

/// Only the target of its rule gets a PCI device: a request for another
/// machine fails and names it, and every attachment is one to the target and
/// its socket, with what the rule says of the group.
pub proof fn law_pci_device_goes_to_its_target(
    config: &Config,
    device: &PciDevice,
    rule: &RuleMatch,
    requested: Option<&str>,
    step: PciAttachStep,
)
    requires
        call_ensures(attach_one_pci, (config, device, rule, requested), step),
    ensures
        step is Failed || step is List,
        rule.target_vm is None ==> step == PciAttachStep::Failed(Error::NoTargetVm),
        rule.target_vm is Some && requested is Some && requested->0@ != rule.target_vm->0@ ==> (
        step matches PciAttachStep::Failed(error) && (
        error matches Error::PciVmNotAllowed { vm, device: address } && vm@ == requested->0@
            && address@ == device.address@)),
        step matches PciAttachStep::List(next) ==> {
            &&& rule.target_vm is Some
            &&& next.task.vm@ == rule.target_vm->0@
            &&& requested is Some ==> requested->0@ == rule.target_vm->0@
            &&& next.task.address@ == device.address@
            &&& next.task.id@ == pci_id(*device)
            &&& next.task.add_all == rule.iommu_add_all
            &&& next.task.skip_if_shared == rule.iommu_skip_if_shared
            &&& exists|i: int|
                0 <= i < config.vms@.len() && (#[trigger] config.vms@[i]).name@
                    == rule.target_vm->0@ && config.vms@[i].socket == next.task.socket
        },
        rule.target_vm is Some && (requested is None || requested->0@ == rule.target_vm->0@) && (
        exists|i: int|
            0 <= i < config.vms@.len() && (#[trigger] config.vms@[i]).name@ == rule.target_vm->0@)
            ==> step is List,
{
    if rule.target_vm is Some {
        lemma_vm_named(config.vms@, rule.target_vm->0@);
    }
}

/// What a machine has yet to get of an attachment is exactly what belongs to
/// it and is not among the devices that the machine showed, in order.
pub proof fn law_missing_is_what_is_not_shown(
    vms: Map<Seq<char>, String>,
    task: PciAttach,
    members: Seq<Seq<char>>,
    live: Seq<String>,
    addition: PciAddition,
)
    requires
        is_addition(vms, task, members, live, addition),
    ensures
        exists|places: Seq<int>| #[trigger]
            taken_at(addition.attach@, places, addition.missing@) && forall|k: int|
                #![trigger places.contains(k)]
                0 <= k < addition.attach@.len() ==> (places.contains(k) <==> forall|i: int|
                    0 <= i < live.len() ==> (#[trigger] live[i])@ != "/sys/bus/pci/devices/"@
                        + addition.attach@[k]@),
        addition.changed <==> addition.missing@.len() > 0 || exists|k: int|
            #![trigger addition.attach@[k]]
            0 <= k < addition.attach@.len() && !(vms.contains_key(addition.attach@[k]@)
                && vms[addition.attach@[k]@]@ == task.vm@),
{
    let keep = |address: String| !lists(live, vfio_path(address@));
    let places = lemma_filter_places(addition.attach@, keep);
    assert(taken_at(addition.attach@, places, addition.missing@));
    assert forall|k: int|
        #![trigger places.contains(k)]
        0 <= k < addition.attach@.len() implies (places.contains(k) <==> forall|i: int|
        0 <= i < live.len() ==> (#[trigger] live[i])@ != "/sys/bus/pci/devices/"@
            + addition.attach@[k]@) by {
        assert(places.contains(k) <==> keep(addition.attach@[k]));
    }
}

/// A device whose rule does not ask for the whole group comes alone: nothing
/// but the device itself belongs to the attachment, is added to the machine or
/// is noted as its device. Where the rule asks for it, the whole group belongs
/// to the attachment, and each device of it is added or was there.
pub proof fn law_device_comes_alone(
    vms: Map<Seq<char>, String>,
    task: PciAttach,
    members: Seq<Seq<char>>,
    live: Seq<String>,
    addition: PciAddition,
)
    requires
        is_addition(vms, task, members, live, addition),
    ensures
        addition.task == task,
        !task.add_all ==> addition.attach@.len() == 1 && addition.attach@[0]@ == task.address@,
        !task.add_all ==> forall|i: int|
            0 <= i < addition.missing@.len() ==> #[trigger] addition.missing@[i]@ == task.address@,
        task.add_all ==> addition.attach@.len() == members.len() && forall|i: int|
            0 <= i < members.len() ==> addition.attach@[i]@ == #[trigger] members[i],
        task.add_all ==> forall|i: int|
            #![trigger members[i]]
            0 <= i < members.len() ==> lists(addition.missing@, members[i]) || lists(
                live,
                "/sys/bus/pci/devices/"@ + members[i],
            ),
{
    assert(views(addition.attach@).len() == addition.attach@.len());
    let keep = |address: String| !lists(live, vfio_path(address@));
    let places = lemma_filter_places(addition.attach@, keep);
    if !task.add_all {
        assert(views(addition.attach@)[0] == addition.attach@[0]@);
        assert forall|i: int| 0 <= i < addition.missing@.len() implies #[trigger] addition.missing@[
            i
        ]@ == task.address@ by {
            assert(addition.missing@[i] == addition.attach@[places[i]]);
        }
    } else {
        assert forall|i: int| 0 <= i < members.len() implies addition.attach@[i]@
            == #[trigger] members[i] by {
            assert(views(addition.attach@)[i] == members[i]);
        }
        assert forall|i: int|
            #![trigger members[i]]
            0 <= i < members.len() implies lists(addition.missing@, members[i]) || lists(
            live,
            "/sys/bus/pci/devices/"@ + members[i],
        ) by {
            assert(addition.attach@[i]@ == members[i]);
            if !lists(live, "/sys/bus/pci/devices/"@ + members[i]) {
                assert(keep(addition.attach@[i]));
                assert(places.contains(i));
                let k = choose|k: int| 0 <= k < places.len() && places[k] == i;
                assert(addition.missing@[k]@ == members[i]);
            }
        }
    }
}

/// The end of an attachment notes its own devices alone: which machine has
/// any other device stays, and without the whole group nothing changes but at
/// the device itself.
pub proof fn law_attachment_notes_its_devices(
    vms: Map<Seq<char>, String>,
    task: PciAttach,
    members: Seq<Seq<char>>,
    live: Seq<String>,
    addition: PciAddition,
    before: DeviceManager,
    left: Seq<String>,
    step: PciAttachStep,
    after: DeviceManager,
    other: Seq<char>,
)
    requires
        is_addition(vms, task, members, live, addition),
        is_add_step(before, addition, left, step, after),
    ensures
        !task.add_all && other != task.address@ ==> {
            &&& after.state.pci_vms@.contains_key(other) <==> before.state.pci_vms@.contains_key(
                other,
            )
            &&& before.state.pci_vms@.contains_key(other) ==> after.state.pci_vms@[other]
                == before.state.pci_vms@[other]
        },
        task.add_all && !members.contains(other) ==> {
            &&& after.state.pci_vms@.contains_key(other) <==> before.state.pci_vms@.contains_key(
                other,
            )
            &&& before.state.pci_vms@.contains_key(other) ==> after.state.pci_vms@[other]
                == before.state.pci_vms@[other]
        },
        left.len() == 0 && (if task.add_all {
            members.contains(other)
        } else {
            other == task.address@
        }) ==> after.state.pci_vms@.contains_key(other) && after.state.pci_vms@[other]
            == task.vm,
        left.len() == 0 ==> step is Save && !after.state.is_disconnected(task.id@),
        left.len() > 0 ==> after == before && (step matches PciAttachStep::Add { address, .. }
            && address == left[0]),
        after.state.usb_vms == before.state.usb_vms,
        after.config == before.config,
{
    law_device_comes_alone(vms, task, members, live, addition);
    if lists(addition.attach@, other) {
        let i = choose|i: int|
            0 <= i < addition.attach@.len() && #[trigger] addition.attach@[i]@ == other;
        if task.add_all {
            assert(members[i] == other);
        }
    }
    if task.add_all && members.contains(other) {
        let i = choose|i: int| 0 <= i < members.len() && members[i] == other;
        assert(addition.attach@[i]@ == members[i]);
    }
    if left.len() == 0 {
        assert(after.state.is_disconnected(task.id@) == false);
    }
}

/// A shared group is refused where the rule says so. Otherwise every device of
/// the group leaves the host, in order, before the machine gets any, and a
/// device in no group leaves alone.
pub proof fn law_group_is_bound_first(
    group: PciGroup,
    manager: &mut DeviceManager,
    found: Vec<String>,
    step: PciAttachStep,
)
    requires
        call_ensures(PciGroup::grouped, (group, manager, Ok(found)), step),
    ensures
        group.task.skip_if_shared && found@.len() > 1 ==> step == PciAttachStep::Failed(
            Error::SharedGroup(group.task.address),
        ),
        !(group.task.skip_if_shared && found@.len() > 1) ==> {
            &&& step matches PciAttachStep::Bind { address, next }
            &&& next.task == group.task
            &&& next.live@ == group.live@
            &&& found@.len() > 0 ==> address@ == found@[0]@ && next.left@.len() == found@.len()
                && forall|i: int|
                0 <= i < found@.len() ==> #[trigger] next.left@[i]@ == found@[i]@
            &&& found@.len() > 0 ==> next.members@.len() == found@.len() && forall|i: int|
                0 <= i < found@.len() ==> #[trigger] next.members@[i]@ == found@[i]@
            &&& found@.len() == 0 ==> address@ == group.task.address@ && next.left@.len() == 1
                && next.left@[0]@ == group.task.address@ && next.members@.len() == 1
                && next.members@[0]@ == group.task.address@
        },
        *final(manager) == *old(manager),
{
    assert(views(found@).len() == found@.len());
    if !(group.task.skip_if_shared && found@.len() > 1) {
        match step {
            PciAttachStep::Bind { address, next } => {
                assert(views(next.left@).len() == next.left@.len());
                assert(views(next.members@).len() == next.members@.len());
                if found@.len() > 0 {
                    assert(views(found@)[0] == found@[0]@);
                    assert forall|i: int| 0 <= i < found@.len() implies #[trigger] next.left@[i]@
                        == found@[i]@ by {
                        assert(views(next.left@)[i] == views(found@)[i]);
                    }
                    assert forall|i: int| 0 <= i < found@.len() implies #[trigger] next.members@[
                        i
                    ]@ == found@[i]@ by {
                        assert(views(next.members@)[i] == views(found@)[i]);
                    }
                } else {
                    assert(views(next.left@)[0] == next.left@[0]@);
                    assert(views(next.members@)[0] == next.members@[0]@);
                }
            },
            _ => {},
        }
    }
}

/// Devices leave the host one after the other. After the last of them, a
/// device that comes alone is the only one that is added or noted.
pub proof fn law_alone_after_binding(
    bind: PciBind,
    manager: &mut DeviceManager,
    step: PciAttachStep,
)
    requires
        call_ensures(PciBind::bound, (bind, manager, Ok(())), step),
    ensures
        bind.left@.len() > 1 ==> (step matches PciAttachStep::Bind { address, next } && address@
            == bind.left@[1]@ && next.left@.len() == bind.left@.len() - 1 && next.task == bind.task)
            && *final(manager) == *old(manager),
        bind.left@.len() == 1 ==> step is Add || step is Save,
        bind.left@.len() == 1 && !bind.task.add_all && step is Add ==> (
        step matches PciAttachStep::Add { address, next } && address@ == bind.task.address@
            && next.left@.len() == 1 && next.addition.attach@.len() == 1
            && next.addition.attach@[0]@ == bind.task.address@ && next.addition.task == bind.task),
        bind.left@.len() == 1 && !bind.task.add_all ==> forall|other: Seq<char>|
            other != bind.task.address@ ==> (#[trigger] final(manager).state.pci_vms@.contains_key(
                other,
            ) <==> old(manager).state.pci_vms@.contains_key(other)),
        bind.left@.len() == 1 && step is Save ==> if bind.task.add_all {
            forall|i: int|
                0 <= i < bind.members@.len() ==> final(manager).state.pci_vms@.contains_key(
                    #[trigger] bind.members@[i]@,
                )
        } else {
            final(manager).state.pci_vms@.contains_key(bind.task.address@)
        },
{
    assert(views(bind.left@).len() == bind.left@.len());
    assert(views(bind.members@).len() == bind.members@.len());
    let rest = rest_of(views(bind.left@));
    if bind.left@.len() > 1 {
        assert(rest.len() == bind.left@.len() - 1);
        assert(rest[0] == bind.left@[1]@);
        match step {
            PciAttachStep::Bind { address, next } => {
                assert(views(next.left@).len() == next.left@.len());
            },
            _ => {},
        }
    } else if bind.left@.len() == 1 {
        assert(rest.len() == 0);
        let vms = old(manager).state.pci_vms@;
        let members = views(bind.members@);
        let addition = choose|addition: PciAddition| #[trigger]
            is_addition(vms, bind.task, members, bind.live@, addition) && is_add_step(
                *old(manager),
                addition,
                addition.missing@,
                step,
                *final(manager),
            );
        law_device_comes_alone(vms, bind.task, members, bind.live@, addition);
        let keep = |address: String| !lists(bind.live@, vfio_path(address@));
        let places = lemma_filter_places(addition.attach@, keep);
        if addition.missing@.len() > 0 {
            assert(addition.missing@[0] == addition.attach@[places[0]]);
            if !bind.task.add_all && addition.missing@.len() > 1 {
                assert(places[0] < places[1]);
                assert(addition.missing@[1] == addition.attach@[places[1]]);
            }
        }
        assert forall|other: Seq<char>|
            !bind.task.add_all && other != bind.task.address@ implies (
        #[trigger] final(manager).state.pci_vms@.contains_key(other) <==> old(
            manager,
        ).state.pci_vms@.contains_key(other)) by {
            law_attachment_notes_its_devices(
                vms,
                bind.task,
                members,
                bind.live@,
                addition,
                *old(manager),
                addition.missing@,
                step,
                *final(manager),
                other,
            );
        }
        if step is Save {
            if bind.task.add_all {
                assert forall|i: int| 0 <= i < bind.members@.len() implies final(manager).state.pci_vms@.contains_key(#[trigger] bind.members@[i]@) by {
                    assert(members[i] == bind.members@[i]@);
                    assert(addition.attach@[i]@ == members[i]);
                    assert(lists(addition.attach@, members[i]));
                }
            } else {
                assert(lists(addition.attach@, addition.attach@[0]@));
            }
        }
    }
}

/// A machine gets the missing devices one after the other, and one that it
/// does not take ends the attachment with the group away from the host.
pub proof fn law_devices_are_added_in_turn(
    add: PciAdd,
    manager: &mut DeviceManager,
    succeeded: bool,
    step: PciAttachStep,
)
    requires
        call_ensures(PciAdd::added, (add, manager, succeeded), step),
        add.left@.len() > 0,
    ensures
        !succeeded ==> *final(manager) == *old(manager) && (step matches PciAttachStep::Failed(
            error,
        ) && (error matches Error::Quarantined(name) && name@ == add.left@[0]@)),
        succeeded && add.left@.len() > 1 ==> *final(manager) == *old(manager) && (
        step matches PciAttachStep::Add { address, next } && address == add.left@[1]
            && next.addition == add.addition && next.left@ == add.left@.skip(1)),
        succeeded && add.left@.len() == 1 ==> (step matches PciAttachStep::Save(next)
            && next.addition == add.addition) && forall|i: int|
            0 <= i < add.addition.attach@.len() ==> final(manager).state.pci_vms@.contains_key(
                #[trigger] add.addition.attach@[i]@,
            ) && final(manager).state.pci_vms@[add.addition.attach@[i]@]
                == add.addition.task.vm,
{
    assert forall|i: int| 0 <= i < add.addition.attach@.len() implies lists(
        add.addition.attach@,
        #[trigger] add.addition.attach@[i]@,
    ) by {}
}

/// The machine that a PCI device is taken off is the one that it was attached
/// to, else the target of its rule. What came with the whole group leaves with
/// it, and what came alone leaves alone.
pub proof fn law_pci_leaves_its_machine(
    manager: &mut DeviceManager,
    device: &PciDevice,
    rule: &RuleMatch,
    permanent: bool,
    step: PciDetachStep,
    found: Vec<String>,
    after: PciDetachStep,
)
    requires
        call_ensures(detach_one_pci, (manager, device, rule, permanent), step),
        step matches PciDetachStep::Group(next) ==> call_ensures(
            PciDetachGroup::grouped,
            (next, Ok(found)),
            after,
        ),
    ensures
        ({
            let vms = old(manager).state.pci_vms@;
            let held = vms.contains_key(device.address@);
            &&& step matches PciDetachStep::Group(next) ==> {
                &&& next.task.address@ == device.address@
                &&& next.task.id@ == pci_id(*device)
                &&& next.task.permanent == permanent
                &&& held ==> next.task.vm@ == vms[device.address@]@
                &&& !held ==> rule.target_vm is Some && next.task.vm@ == rule.target_vm->0@
                &&& after matches PciDetachStep::Look(look) && look.task == next.task && if !rule
                    .iommu_add_all {
                    look.members@.len() == 1 && look.members@[0]@ == device.address@
                } else if found@.len() == 0 {
                    look.members@.len() == 1 && look.members@[0]@ == device.address@
                } else {
                    look.members@.len() == found@.len() && forall|i: int|
                        0 <= i < found@.len() ==> #[trigger] look.members@[i]@ == found@[i]@
                }
            }
            &&& step is Save <==> !held && rule.target_vm is None
            &&& step is Save ==> final(manager).state.is_disconnected(pci_id(*device))
                == permanent
            &&& step !is Save ==> final(manager).state == old(manager).state
        }),
{
    if step is Save {
        assert(final(manager).state.is_disconnected(pci_id(*device)) == permanent);
    }
    match (step, after) {
        (PciDetachStep::Group(next), PciDetachStep::Look(look)) => {
            assert(views(look.members@).len() == look.members@.len());
            assert(views(found@).len() == found@.len());
            assert(views(look.members@)[0] == look.members@[0]@);
            if rule.iommu_add_all && found@.len() > 0 {
                assert forall|i: int| 0 <= i < found@.len() implies #[trigger] look.members@[i]@
                    == found@[i]@ by {
                    assert(views(look.members@)[i] == views(found@)[i]);
                }
            }
        },
        _ => {},
    }
}

/// A machine that runs gives every device up in turn before any is forgotten;
/// one that does not run has none any more. What is forgotten is what leaves,
/// and nothing else.
pub proof fn law_pci_is_removed_before_it_is_forgotten(
    look: PciDetachLook,
    manager: &mut DeviceManager,
    runs: bool,
    step: PciDetachStep,
    other: Seq<char>,
)
    requires
        call_ensures(PciDetachLook::looked, (look, manager, runs), step),
        look.members@.len() > 0,
    ensures
        runs ==> *final(manager) == *old(manager) && (step matches PciDetachStep::Remove {
            address,
            next,
        } && address == look.members@[0] && next.left@ == look.members@ && next.members@
            == look.members@ && next.task == look.task),
        !runs ==> (step matches PciDetachStep::Notify(next) && next.task == look.task) && (
        final(manager).state.pci_vms@.contains_key(other) <==> old(
            manager,
        ).state.pci_vms@.contains_key(other) && forall|i: int|
            0 <= i < look.members@.len() ==> (#[trigger] look.members@[i])@ != other),
        final(manager).state.usb_vms == old(manager).state.usb_vms,
        final(manager).state.persistent == old(manager).state.persistent,
{
}

/// Once a machine gave a device up the next one follows, and after the last
/// all are forgotten; a refusal ends the detachment and forgets nothing. The
/// mark of the device is set exactly where it is disconnected on purpose.
pub proof fn law_pci_detachment_ends(
    remove: PciRemove,
    manager: &mut DeviceManager,
    outcome: Result<(), Error>,
    step: PciDetachStep,
    notify: PciDetachNotify,
    noted: &mut DeviceManager,
    saved: PciDetachStep,
)
    requires
        call_ensures(PciRemove::removed, (remove, manager, outcome), step),
        call_ensures(PciDetachNotify::notified, (notify, noted), saved),
        remove.left@.len() > 0,
    ensures
        outcome is Err ==> step == PciDetachStep::Failed(outcome->Err_0) && *final(manager) == *old(
            manager,
        ),
        outcome is Ok && remove.left@.len() > 1 ==> *final(manager) == *old(manager) && (
        step matches PciDetachStep::Remove { address, next } && address == remove.left@[1]
            && next.left@ == remove.left@.skip(1)),
        outcome is Ok && remove.left@.len() == 1 ==> (step matches PciDetachStep::Notify(next)
            && next.task == remove.task) && forall|i: int|
            0 <= i < remove.members@.len() ==> !final(manager).state.pci_vms@.contains_key(
                #[trigger] remove.members@[i]@,
            ),
        saved is Save,
        final(noted).state.is_disconnected(notify.task.id@) == notify.task.permanent,
        forall|other: Seq<char>|
            other != notify.task.id@ ==> #[trigger] final(noted).state.is_disconnected(other)
                == old(noted).state.is_disconnected(other),
        final(noted).state.pci_vms == old(noted).state.pci_vms,
{
    assert(final(noted).state.is_disconnected(notify.task.id@) == notify.task.permanent);
    assert forall|i: int| 0 <= i < remove.members@.len() implies lists(
        remove.members@,
        #[trigger] remove.members@[i]@,
    ) by {}
}

/// A PCI attachment is made known at its end where it is news, and a PCI
/// detachment when the device has left.
pub proof fn law_pci_events(
    step: &PciAttachStep,
    out: Option<Event>,
    off: &PciDetachStep,
    told: Option<Event>,
    save: PciSave,
    done: PciAttachStep,
)
    requires
        call_ensures(PciAttachStep::event, (step,), out),
        call_ensures(PciDetachStep::event, (off,), told),
        call_ensures(PciSave::saved, (save, Ok(())), done),
    ensures
        out is Some <==> (*step matches PciAttachStep::Done { notify, .. } && notify),
        out is Some ==> out->0 is PciAttached,
        told is Some <==> *off is Notify,
        told is Some ==> told->0 is PciDetached,
        done == (PciAttachStep::Done {
            notify: save.addition.changed,
            vm: save.addition.task.vm,
        }),
{
}

} // verus!
