//! Taking a USB device off a machine, step by step.

use crate::config::{lemma_vm_named, vm_named};
use crate::device::{usb_id, UsbDevice};
use crate::error::Error;
use crate::manager::{holder, DeviceManager};
use crate::order::lemma_filter_places;
use crate::protocol::Event;
use crate::state::{sets_mark, PersistentState, State, UsbPortBinding};
use crate::text::{as_deref, is_text, opt, same};
use crate::usb_attach::{is_live, known_binding};
use vstd::prelude::*;

verus! {

/// Forgetting where a device is.
#[derive(Debug)]
pub struct UsbClear {
    pub sys_name: String,
    pub node: String,
    pub id: String,
    /// Whether the device is disconnected on purpose.
    pub permanent: bool,
}

/// A device on its way off a machine.
#[derive(Debug)]
pub struct UsbDetach {
    pub clear: UsbClear,
    pub vid: Option<String>,
    pub pid: Option<String>,
    pub vm: String,
    /// The control socket of the machine.
    pub socket: String,
    /// The port that is remembered for the device.
    pub binding: Option<UsbPortBinding>,
}

/// What a detachment needs next.
#[derive(Debug)]
pub enum DetachStep {
    /// Look at the control socket of the machine. Where it exists, read the
    /// USB list of the machine.
    Look(DetachLook),
    /// Detach the device at this port.
    Detach { port: u8, next: DetachCommand },
    /// Make known that the device left the machine.
    Notify(DetachNotify),
    /// Save the state.
    Save(DetachSave),
    Done,
    Failed(Error),
}

impl DetachStep {
    /// The event that this step makes known, if any.
    pub fn event(&self) -> (out: Option<Event>)
        ensures
            out == match *self {
                DetachStep::Notify(_) => Some(Event::UsbDetached),
                _ => None::<Event>,
            },
    {
        match self {
            DetachStep::Notify(_) => Some(Event::UsbDetached),
            _ => None::<Event>,
        }
    }
}

/// The machine is looked at.
#[derive(Debug)]
pub struct DetachLook {
    pub task: UsbDetach,
}

/// The device is detached.
#[derive(Debug)]
pub struct DetachCommand {
    pub task: UsbDetach,
}

/// The detachment is made known.
#[derive(Debug)]
pub struct DetachNotify {
    pub task: UsbDetach,
}

/// The state without the device is saved.
#[derive(Debug)]
pub struct DetachSave {
    pub clear: UsbClear,
}

/// What a look at a machine gave.
#[derive(Debug)]
pub enum Look {
    /// The control socket does not exist: the machine does not run.
    Stopped,
    /// The machine runs. This is the identity of its control socket, and its
    /// USB list.
    Running { generation: String, live: Result<Vec<(u8, String, String)>, Error> },
}

pub open spec fn is_clear(device: UsbDevice, permanent: bool, clear: UsbClear) -> bool {
    &&& clear.sys_name == device.sys_name
    &&& device.device_node == Some(clear.node)
    &&& clear.id@ == usb_id(device)
    &&& clear.permanent == permanent
}

/// The machine that has a device, as far as is known: the one that it was
/// attached to, else the one whose port is remembered.
pub open spec fn holding_vm(state: State, device: UsbDevice) -> Option<Seq<char>> {
    let attached = holder(state.usb_vms@, opt(device.device_node));
    if attached is Some {
        attached
    } else {
        match known_binding(state, device.sys_name@) {
            Some(binding) => Some(binding.vm@),
            None => None,
        }
    }
}

/// Whether a state has forgotten where the device is, and nothing else
/// changed.
pub open spec fn forgets(before: State, clear: UsbClear, after: State) -> bool {
    &&& after.usb_vms@ == before.usb_vms@.remove(clear.node@)
    &&& after.persistent.crosvm_usb_ports@ == before.persistent.crosvm_usb_ports@.remove(
        clear.sys_name@,
    )
    &&& forall|other: Seq<char>| #[trigger]
        after.is_disconnected(other) == if other == clear.id@ {
            clear.permanent
        } else {
            before.is_disconnected(other)
        }
    &&& sets_mark(
        before.persistent.disconnected_devices@,
        clear.id@,
        clear.permanent,
        after.persistent.disconnected_devices@,
    )
    &&& after == (State {
        usb_vms: after.usb_vms,
        persistent: (PersistentState {
            crosvm_usb_ports: after.persistent.crosvm_usb_ports,
            disconnected_devices: after.persistent.disconnected_devices,
            ..before.persistent
        }),
        ..before
    })
}

fn forget(manager: &mut DeviceManager, clear: UsbClear) -> (step: DetachStep)
    ensures
        step == DetachStep::Save((DetachSave { clear })),
        forgets(old(manager).state, clear, final(manager).state),
        *final(manager) == (DeviceManager { state: final(manager).state, ..*old(manager) }),
{
    manager.state.usb_vms.remove(clear.node.as_str());
    manager.state.persistent.crosvm_usb_ports.remove(clear.sys_name.as_str());
    manager.state.set_disconnected(clear.id.as_str(), clear.permanent);
    DetachStep::Save(DetachSave { clear })
}

/// Starts to take a device off the machine that has it.
pub fn detach_one_usb(manager: &mut DeviceManager, device: &UsbDevice, permanent: bool) -> (step:
    DetachStep)
    ensures
        *final(manager) == (DeviceManager { state: final(manager).state, ..*old(manager) }),
        if device.device_node is None {
            &&& step == DetachStep::Failed(Error::NoDeviceNode)
            &&& final(manager).state == old(manager).state
        } else {
            match holding_vm(old(manager).state, *device) {
                None => {
                    &&& step matches DetachStep::Save(next)
                    &&& is_clear(*device, permanent, next.clear)
                    &&& forgets(old(manager).state, next.clear, final(manager).state)
                },
                Some(vm) => {
                    &&& final(manager).state == old(manager).state
                    &&& match vm_named(old(manager).config.vms@, vm) {
                        None => {
                            &&& step matches DetachStep::Failed(error)
                            &&& error matches Error::UnknownVm(name)
                            &&& name@ == vm
                        },
                        Some(found) => {
                            &&& step matches DetachStep::Look(next)
                            &&& is_clear(*device, permanent, next.task.clear)
                            &&& next.task.vid == device.vid
                            &&& next.task.pid == device.pid
                            &&& next.task.vm@ == vm
                            &&& next.task.socket == found.socket
                            &&& next.task.binding == known_binding(
                                old(manager).state,
                                device.sys_name@,
                            )
                        },
                    }
                },
            }
        },
{
    let node = match &device.device_node {
        Some(node) => node.clone(),
        None => {
            return DetachStep::Failed(Error::NoDeviceNode);
        },
    };
    let binding = match manager.state.persistent.crosvm_usb_ports.get(device.sys_name.as_str()) {
        Some(binding) => Some(binding.clone()),
        None => None,
    };
    assert(binding == known_binding(manager.state, device.sys_name@));
    let vm: Option<String> = match manager.state.usb_vms.get(node.as_str()) {
        Some(name) => Some(name.clone()),
        None => match &binding {
            Some(binding) => Some(binding.vm.clone()),
            None => None,
        },
    };
    assert(opt(vm) == holding_vm(manager.state, *device));
    let clear = UsbClear {
        sys_name: device.sys_name.clone(),
        node,
        id: device.persistent_id(),
        permanent,
    };
    let vm = match vm {
        Some(vm) => vm,
        None => {
            return forget(manager, clear);
        },
    };
    let socket = match manager.config.vm(vm.as_str()) {
        Ok(found) => found.socket.clone(),
        Err(error) => {
            return DetachStep::Failed(error);
        },
    };
    let task = UsbDetach {
        clear,
        vid: device.vid.clone(),
        pid: device.pid.clone(),
        vm,
        socket,
        binding,
    };
    DetachStep::Look(DetachLook { task })
}

/// The first entry of a USB list at a port.
pub open spec fn entry_at(
    live: Seq<(u8, String, String)>,
    port: u8,
) -> Option<(u8, String, String)>
    decreases live.len(),
{
    if live.len() == 0 {
        None
    } else if live[0].0 == port {
        Some(live[0])
    } else {
        entry_at(live.skip(1), port)
    }
}

/// Whether an entry of a USB list has the given ids.
pub open spec fn has_ids(
    entry: (u8, String, String),
    vid: Option<Seq<char>>,
    pid: Option<Seq<char>>,
) -> bool {
    Some(entry.1@) == vid && Some(entry.2@) == pid
}

/// The entries of a USB list with the given ids.
pub open spec fn with_ids(
    live: Seq<(u8, String, String)>,
    vid: Option<Seq<char>>,
    pid: Option<Seq<char>>,
) -> Seq<(u8, String, String)> {
    live.filter(|entry: (u8, String, String)| has_ids(entry, vid, pid))
}

fn is_ids(entry: &(u8, String, String), vid: &Option<String>, pid: &Option<String>) -> (r: bool)
    ensures
        r == has_ids(*entry, opt(*vid), opt(*pid)),
{
    is_text(as_deref(vid), entry.1.as_str()) && is_text(as_deref(pid), entry.2.as_str())
}

/// What is to be done at a machine.
#[derive(Debug)]
pub enum Verdict {
    Detach(u8),
    /// The machine has not got the device.
    Absent,
    /// It may be another device.
    Refuse(Error),
}

impl UsbDetach {
    /// Whether the remembered port belongs to this run of the machine.
    pub open spec fn knows_port(self, generation: Seq<char>) -> bool {
        self.binding is Some && self.binding->0.socket_generation@ == generation
    }

    /// What is to be done at a machine. Nothing is detached that may be
    /// another device: a port that has other ids than the device, or a choice
    /// between several ports, is refused.
    pub open spec fn verdict(self, generation: Seq<char>, live: Seq<(u8, String, String)>) -> Verdict {
        if self.knows_port(generation) {
            match entry_at(live, self.binding->0.port) {
                None => Verdict::Absent,
                Some(entry) => if has_ids(entry, opt(self.vid), opt(self.pid)) {
                    Verdict::Detach(self.binding->0.port)
                } else {
                    Verdict::Refuse(Error::DifferentDevice)
                },
            }
        } else {
            let matching = with_ids(live, opt(self.vid), opt(self.pid));
            if matching.len() == 0 {
                Verdict::Absent
            } else if matching.len() == 1 {
                Verdict::Detach(matching[0].0)
            } else {
                Verdict::Refuse(Error::AmbiguousDetach)
            }
        }
    }

    /// What is to be done at a machine.
    pub fn judge(&self, generation: &str, live: &Vec<(u8, String, String)>) -> (out: Verdict)
        ensures
            out == self.verdict(generation@, live@),
    {
        if let Some(binding) = &self.binding {
            if same(binding.socket_generation.as_str(), generation) {
                let port: u8 = binding.port;
                let mut i: usize = 0;
                assert(live@.skip(0) =~= live@);
                while i < live.len()
                    invariant
                        i <= live.len(),
                        self.knows_port(generation@),
                        port == self.binding->0.port,
                        entry_at(live@, port) == entry_at(live@.skip(i as int), port),
                    decreases live.len() - i,
                {
                    let ghost rest = live@.skip(i as int);
                    assert(rest[0] == live@[i as int]);
                    assert(rest.skip(1) =~= live@.skip(i + 1));
                    if live[i].0 == port {
                        if is_ids(&live[i], &self.vid, &self.pid) {
                            return Verdict::Detach(port);
                        }
                        return Verdict::Refuse(Error::DifferentDevice);
                    }
                    i += 1;
                }
                return Verdict::Absent;
            }
        }
        let ghost vid = opt(self.vid);
        let ghost pid = opt(self.pid);
        let mut ports: Vec<u8> = Vec::new();
        let mut i: usize = 0;
        proof {
            reveal(Seq::filter);
            assert(live@.take(0).len() == 0);
        }
        while i < live.len()
            invariant
                i <= live.len(),
                vid == opt(self.vid),
                pid == opt(self.pid),
                ports@.len() == with_ids(live@.take(i as int), vid, pid).len(),
                forall|k: int|
                    0 <= k < ports@.len() ==> ports@[k] == (#[trigger] with_ids(
                        live@.take(i as int),
                        vid,
                        pid,
                    )[k]).0,
            decreases live.len() - i,
        {
            let ghost head = with_ids(live@.take(i as int), vid, pid);
            let ghost next = live@.take(i + 1);
            proof {
                reveal(Seq::filter);
                assert(next.drop_last() =~= live@.take(i as int));
                assert(next.last() == live@[i as int]);
            }
            if is_ids(&live[i], &self.vid, &self.pid) {
                assert(with_ids(next, vid, pid) == head.push(live@[i as int]));
                ports.push(live[i].0);
            } else {
                assert(with_ids(next, vid, pid) == head);
            }
            i += 1;
        }
        assert(live@.take(live@.len() as int) =~= live@);
        if ports.len() == 0 {
            Verdict::Absent
        } else if ports.len() == 1 {
            assert(with_ids(live@, vid, pid)[0].0 == ports@[0]);
            Verdict::Detach(ports[0])
        } else {
            Verdict::Refuse(Error::AmbiguousDetach)
        }
    }
}

impl DetachLook {
    /// Takes what the look at the machine gave. A machine that does not run
    /// has no device any more.
    pub fn looked(self, look: Look) -> (step: DetachStep)
        ensures
            match look {
                Look::Stopped => step == DetachStep::Notify((DetachNotify { task: self.task })),
                Look::Running { generation, live: Err(error) } => step == DetachStep::Failed(error),
                Look::Running { generation, live: Ok(live) } => step == match self.task.verdict(
                    generation@,
                    live@,
                ) {
                    Verdict::Detach(port) => DetachStep::Detach {
                        port,
                        next: (DetachCommand { task: self.task }),
                    },
                    Verdict::Absent => DetachStep::Notify((DetachNotify { task: self.task })),
                    Verdict::Refuse(error) => DetachStep::Failed(error),
                },
            },
    {
        match look {
            Look::Stopped => DetachStep::Notify(DetachNotify { task: self.task }),
            Look::Running { generation, live } => match live {
                Err(error) => DetachStep::Failed(error),
                Ok(live) => match self.task.judge(generation.as_str(), &live) {
                    Verdict::Detach(port) => DetachStep::Detach {
                        port,
                        next: DetachCommand { task: self.task },
                    },
                    Verdict::Absent => DetachStep::Notify(DetachNotify { task: self.task }),
                    Verdict::Refuse(error) => DetachStep::Failed(error),
                },
            },
        }
    }
}

impl DetachCommand {
    /// Goes on once the machine gave the device up.
    pub fn detached(self, outcome: Result<(), Error>) -> (step: DetachStep)
        ensures
            step == match outcome {
                Ok(_) => DetachStep::Notify((DetachNotify { task: self.task })),
                Err(error) => DetachStep::Failed(error),
            },
    {
        match outcome {
            Ok(_) => DetachStep::Notify(DetachNotify { task: self.task }),
            Err(error) => DetachStep::Failed(error),
        }
    }
}

impl DetachNotify {
    /// Goes on once the detachment is made known: forgets where the device
    /// is.
    pub fn notified(self, manager: &mut DeviceManager) -> (step: DetachStep)
        ensures
            step == DetachStep::Save((DetachSave { clear: self.task.clear })),
            forgets(old(manager).state, self.task.clear, final(manager).state),
            *final(manager) == (DeviceManager { state: final(manager).state, ..*old(manager) }),
    {
        forget(manager, self.task.clear)
    }
}

impl DetachSave {
    /// Ends the detachment once the state is saved: no machine is asked for
    /// any more.
    pub fn saved(self, manager: &mut DeviceManager, outcome: Result<(), Error>) -> (step: DetachStep)
        ensures
            match outcome {
                Err(error) => step == DetachStep::Failed(error) && *final(manager) == *old(manager),
                Ok(_) => {
                    &&& step == DetachStep::Done
                    &&& final(manager).pending_usb_selection@ == old(
                        manager,
                    ).pending_usb_selection@.remove(self.clear.id@)
                    &&& *final(manager) == (DeviceManager {
                        pending_usb_selection: final(manager).pending_usb_selection,
                        ..*old(manager)
                    })
                },
            },
    {
        match outcome {
            Ok(_) => {
                manager.pending_usb_selection.remove(self.clear.id.as_str());
                DetachStep::Done
            },
            Err(error) => DetachStep::Failed(error),
        }
    }
}

/// Forgetting a device undoes attaching it: no machine has it any more, so
/// that a second detachment asks no machine. It is marked as disconnected
/// just where that was asked for.
pub proof fn law_forgotten_is_held_by_none(
    before: State,
    after: State,
    device: UsbDevice,
    clear: UsbClear,
)
    requires
        is_clear(device, clear.permanent, clear),
        forgets(before, clear, after),
    ensures
        holding_vm(after, device) is None,
        after.is_disconnected(usb_id(device)) == clear.permanent,
{
    assert(after.is_disconnected(clear.id@) == clear.permanent);
}

/// Only a port that has the ids of the device is ever detached.
pub proof fn law_detached_port_has_the_device(
    task: UsbDetach,
    generation: Seq<char>,
    live: Seq<(u8, String, String)>,
)
    requires
        task.verdict(generation, live) is Detach,
    ensures
        is_live(live, task.verdict(generation, live)->Detach_0, opt(task.vid), opt(task.pid)),
{
    let port = task.verdict(generation, live)->Detach_0;
    if task.knows_port(generation) {
        lemma_entry_at(live, port);
    } else {
        let vid = opt(task.vid);
        let pid = opt(task.pid);
        lemma_with_ids(live, vid, pid, 0);
        let i = choose|i: int|
            0 <= i < live.len() && #[trigger] live[i] == with_ids(live, vid, pid)[0];
        assert(live[i].0 == port);
    }
}

/// A machine with two devices of the same ids keeps both, unless it is known
/// at which port the device is.
pub proof fn law_ambiguous_detach_is_refused(
    task: UsbDetach,
    generation: Seq<char>,
    live: Seq<(u8, String, String)>,
)
    requires
        !task.knows_port(generation),
        with_ids(live, opt(task.vid), opt(task.pid)).len() > 1,
    ensures
        task.verdict(generation, live) == Verdict::Refuse(Error::AmbiguousDetach),
{
}

proof fn lemma_entry_at(live: Seq<(u8, String, String)>, port: u8)
    requires
        entry_at(live, port) is Some,
    ensures
        exists|i: int| 0 <= i < live.len() && #[trigger] live[i] == entry_at(live, port)->0,
        (entry_at(live, port)->0).0 == port,
    decreases live.len(),
{
    if live[0].0 != port {
        lemma_entry_at(live.skip(1), port);
        let rest = live.skip(1);
        let i = choose|i: int| 0 <= i < rest.len() && #[trigger] rest[i] == entry_at(rest, port)->0;
        assert(live[i + 1] == rest[i]);
    } else {
        assert(live[0] == entry_at(live, port)->0);
    }
}

proof fn lemma_with_ids(
    live: Seq<(u8, String, String)>,
    vid: Option<Seq<char>>,
    pid: Option<Seq<char>>,
    at: int,
)
    requires
        0 <= at < with_ids(live, vid, pid).len(),
    ensures
        exists|i: int| 0 <= i < live.len() && #[trigger] live[i] == with_ids(live, vid, pid)[at],
        has_ids(with_ids(live, vid, pid)[at], vid, pid),
    decreases live.len(),
{
    reveal(Seq::filter);
    let short = live.drop_last();
    let before = with_ids(short, vid, pid);
    if at < before.len() {
        lemma_with_ids(short, vid, pid, at);
        let i = choose|i: int| 0 <= i < short.len() && #[trigger] short[i] == before[at];
        assert(live[i] == short[i]);
    } else {
        assert(live[live.len() - 1] == with_ids(live, vid, pid)[at]);
    }
}

/// A device is taken off the machine that it was attached to, else the one
/// whose port is remembered. One that no machine has is forgotten at once, and
/// marked exactly where it is disconnected on purpose.
pub proof fn law_device_leaves_its_machine(
    manager: &mut DeviceManager,
    device: &UsbDevice,
    permanent: bool,
    step: DetachStep,
)
    requires
        call_ensures(detach_one_usb, (manager, device, permanent), step),
    ensures
        ({
            let vms = old(manager).state.usb_vms@;
            let ports = old(manager).state.persistent.crosvm_usb_ports@;
            let name = device.sys_name@;
            let held = device.device_node is Some && vms.contains_key(device.device_node->0@);
            &&& device.device_node is None ==> step == DetachStep::Failed(Error::NoDeviceNode)
                && final(manager).state == old(manager).state
            &&& step matches DetachStep::Look(next) ==> {
                &&& held ==> next.task.vm@ == vms[device.device_node->0@]@
                &&& !held ==> ports.contains_key(name) && next.task.vm@ == ports[name].vm@
                &&& ports.contains_key(name) ==> next.task.binding == Some(ports[name])
                &&& !ports.contains_key(name) ==> next.task.binding is None
                &&& Some(next.task.clear.node) == device.device_node
                &&& next.task.clear.sys_name == device.sys_name
                &&& next.task.clear.id@ == usb_id(*device)
                &&& next.task.clear.permanent == permanent
                &&& next.task.vid == device.vid
                &&& next.task.pid == device.pid
                &&& exists|i: int|
                    0 <= i < old(manager).config.vms@.len() && (
                    #[trigger] old(manager).config.vms@[i]).name@ == next.task.vm@ && old(
                        manager,
                    ).config.vms@[i].socket == next.task.socket
            }
            &&& step is Save <==> device.device_node is Some && !held && !ports.contains_key(name)
            &&& step is Save ==> final(manager).state.is_disconnected(usb_id(*device))
                == permanent
            &&& step !is Save ==> final(manager).state == old(manager).state
        }),
{
    if device.device_node is Some && holding_vm(old(manager).state, *device) is Some {
        lemma_vm_named(
            old(manager).config.vms@,
            holding_vm(old(manager).state, *device)->0,
        );
    }
    match step {
        DetachStep::Save(next) => {
            assert(final(manager).state.is_disconnected(next.clear.id@) == next.clear.permanent);
        },
        _ => {},
    }
}

/// What a look at a machine leads to. Where the remembered port is of this run
/// of the machine, that port alone counts: it is freed where it has the ids of
/// the device, the detachment is refused where it has others, and where it has
/// nothing the device is gone. Else the device is taken from the only port with
/// its ids, is gone where there is none, and is refused where there are
/// several. A machine that does not run has nothing.
pub proof fn law_only_the_device_is_taken_off(
    look: DetachLook,
    stopped: DetachStep,
    generation: String,
    live: Vec<(u8, String, String)>,
    step: DetachStep,
)
    requires
        call_ensures(DetachLook::looked, (look, Look::Stopped), stopped),
        call_ensures(
            DetachLook::looked,
            (look, Look::Running { generation, live: Ok(live) }),
            step,
        ),
    ensures
        stopped == DetachStep::Notify((DetachNotify { task: look.task })),
        step matches DetachStep::Detach { port, next } ==> next.task == look.task
            && look.task.vid is Some && look.task.pid is Some && exists|i: int|
            #![trigger live@[i]]
            0 <= i < live@.len() && live@[i].0 == port && live@[i].1@ == look.task.vid->0@
                && live@[i].2@ == look.task.pid->0@,
        step is Detach || step is Notify || step is Failed,
        step matches DetachStep::Notify(next) ==> next.task == look.task,
        ({
            let known = look.task.binding is Some
                && look.task.binding->0.socket_generation@ == generation@;
            let port = look.task.binding->0.port;
            let fits = |i: int|
                look.task.vid is Some && look.task.pid is Some && live@[i].1@ == look.task.vid->0@
                    && live@[i].2@ == look.task.pid->0@;
            &&& known && (forall|i: int|
                #![trigger live@[i]]
                0 <= i < live@.len() ==> live@[i].0 != port) ==> step is Notify
            &&& known && step is Detach ==> (step matches DetachStep::Detach { port: freed, .. }
                && freed == port)
            &&& forall|i: int|
                #![trigger live@[i]]
                known && 0 <= i < live@.len() && live@[i].0 == port && (forall|k: int|
                    #![trigger live@[k]]
                    0 <= k < i ==> live@[k].0 != port) ==> (if fits(i) {
                    step is Detach
                } else {
                    step == DetachStep::Failed(Error::DifferentDevice)
                })
            &&& !known && (forall|i: int|
                #![trigger live@[i]]
                0 <= i < live@.len() ==> !fits(i)) ==> step is Notify
            &&& forall|i: int|
                #![trigger live@[i]]
                !known && 0 <= i < live@.len() && fits(i) && (forall|k: int|
                    #![trigger live@[k]]
                    0 <= k < live@.len() && k != i ==> !fits(k)) ==> (
                step matches DetachStep::Detach { port: freed, .. } && freed == live@[i].0)
            &&& forall|i: int, k: int|
                #![trigger live@[i], live@[k]]
                !known && 0 <= i < k < live@.len() && fits(i) && fits(k) ==> step
                    == DetachStep::Failed(Error::AmbiguousDetach)
        }),
{
    let task = look.task;
    let known = task.knows_port(generation@);
    let vid = opt(task.vid);
    let pid = opt(task.pid);
    let found = with_ids(live@, vid, pid);
    let keep = |entry: (u8, String, String)| has_ids(entry, vid, pid);
    let places = lemma_filter_places(live@, keep);
    if step is Detach {
        law_detached_port_has_the_device(task, generation@, live@);
        let port = task.verdict(generation@, live@)->Detach_0;
        let i = choose|i: int|
            0 <= i < live@.len() && (#[trigger] live@[i]).0 == port && Some(live@[i].1@) == vid
                && Some(live@[i].2@) == pid;
        assert(live@[i].0 == port);
    }
    if known {
        let port = task.binding->0.port;
        assert forall|i: int|
            #![trigger live@[i]]
            0 <= i < live@.len() && live@[i].0 == port && (forall|k: int|
                #![trigger live@[k]]
                0 <= k < i ==> live@[k].0 != port) implies entry_at(live@, port) == Some(
            live@[i],
        ) by {
            lemma_first_entry(live@, port, i);
        }
        if forall|i: int|
            #![trigger live@[i]]
            0 <= i < live@.len() ==> live@[i].0 != port {
            lemma_first_entry(live@, port, live@.len() as int);
        }
    } else {
        assert forall|i: int|
            #![trigger live@[i]]
            0 <= i < live@.len() && keep(live@[i]) implies found.len() > 0 && exists|m: int|
            0 <= m < places.len() && #[trigger] places[m] == i by {
            assert(places.contains(i));
            let m = choose|m: int| 0 <= m < places.len() && places[m] == i;
            assert(places[m] == i);
        }
        if found.len() > 0 {
            assert(places.contains(places[0]));
            assert(keep(live@[places[0]]));
            assert(found[0] == live@[places[0]]);
        }
        if found.len() > 1 {
            assert(places.contains(places[1]));
            assert(keep(live@[places[1]]));
            assert(places[0] < places[1]);
        }
        assert forall|i: int, k: int|
            #![trigger live@[i], live@[k]]
            0 <= i < k < live@.len() && keep(live@[i]) && keep(live@[k]) implies found.len() > 1 by {
            assert(places.contains(i));
            assert(places.contains(k));
            let m = choose|m: int| 0 <= m < places.len() && places[m] == i;
            let n = choose|n: int| 0 <= n < places.len() && places[n] == k;
            assert(m != n);
        }
    }
}

proof fn lemma_first_entry(live: Seq<(u8, String, String)>, port: u8, at: int)
    requires
        0 <= at <= live.len(),
        forall|k: int| 0 <= k < at ==> (#[trigger] live[k]).0 != port,
        at < live.len() ==> live[at].0 == port,
    ensures
        entry_at(live, port) == if at < live.len() {
            Some(live[at])
        } else {
            None
        },
    decreases live.len(),
{
    if at > 0 {
        let rest = live.skip(1);
        assert(live[0].0 != port);
        assert forall|k: int| 0 <= k < at - 1 implies (#[trigger] rest[k]).0 != port by {
            assert(rest[k] == live[k + 1]);
        }
        lemma_first_entry(rest, port, at - 1);
    }
}

/// A detachment that the machine refuses changes nothing. Once the device has
/// left, its node, its port and its place in the queue of those that wait for a
/// choice are forgotten, its mark is set exactly where it is disconnected on
/// purpose, and what is known of every other device stays.
pub proof fn law_detachment_forgets(
    command: DetachCommand,
    outcome: Result<(), Error>,
    left: DetachStep,
    notify: DetachNotify,
    manager: &mut DeviceManager,
    saved: DetachStep,
    save: DetachSave,
    last: &mut DeviceManager,
    done: DetachStep,
    other: Seq<char>,
)
    requires
        call_ensures(DetachCommand::detached, (command, outcome), left),
        call_ensures(DetachNotify::notified, (notify, manager), saved),
        call_ensures(DetachSave::saved, (save, last, Ok(())), done),
    ensures
        outcome is Ok ==> left == DetachStep::Notify((DetachNotify { task: command.task })),
        outcome is Err ==> left == DetachStep::Failed(outcome->Err_0),
        ({
            let clear = notify.task.clear;
            let before = old(manager).state;
            let after = final(manager).state;
            &&& saved == DetachStep::Save((DetachSave { clear }))
            &&& !after.usb_vms@.contains_key(clear.node@)
            &&& !after.persistent.crosvm_usb_ports@.contains_key(clear.sys_name@)
            &&& after.is_disconnected(clear.id@) == clear.permanent
            &&& other != clear.node@ ==> (after.usb_vms@.contains_key(other)
                <==> before.usb_vms@.contains_key(other)) && (before.usb_vms@.contains_key(other)
                ==> after.usb_vms@[other] == before.usb_vms@[other])
            &&& other != clear.sys_name@ ==> (after.persistent.crosvm_usb_ports@.contains_key(other)
                <==> before.persistent.crosvm_usb_ports@.contains_key(other))
            &&& other != clear.id@ ==> after.is_disconnected(other) == before.is_disconnected(
                other,
            )
            &&& after.persistent.selected_vms == before.persistent.selected_vms
            &&& after.pci_vms == before.pci_vms
        }),
        done == DetachStep::Done,
        !final(last).pending_usb_selection@.contains_key(save.clear.id@),
        final(last).state == old(last).state,
{
    assert(final(manager).state.is_disconnected(notify.task.clear.id@)
        == notify.task.clear.permanent);
    assert(other != notify.task.clear.id@ ==> final(manager).state.is_disconnected(other) == old(
        manager,
    ).state.is_disconnected(other));
}

/// A USB detachment is made known exactly when the device has left.
pub proof fn law_usb_detachment_is_made_known(step: &DetachStep, out: Option<Event>)
    requires
        call_ensures(DetachStep::event, (step,), out),
    ensures
        out is Some <==> *step is Notify,
        out is Some ==> out->0 is UsbDetached,
{
}

} // verus!
