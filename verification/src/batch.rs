//! Work on several devices, and a pass over all of them.

use crate::config::{lemma_vm_named, vm_named, RuleMatch};
use crate::device::{pci_id, usb_id, PciDevice, UsbDevice};
use crate::error::Error;
use crate::manager::{aggregate, asked_pci, asked_usb, failure_line, holder, in_scope};
use crate::manager::{resume_target, selected_pci, selected_usb, DeviceManager, Resume, Selector};
use crate::text::{as_deref, begins, lemma_views_push, opt, views};
use crate::usb_attach::chosen_vm;
use vstd::prelude::*;

verus! {

/// A device that can be attached to a machine.
#[derive(Debug)]
pub enum Device {
    Usb(UsbDevice),
    Pci(PciDevice),
}

impl Device {
    /// The name by which failures are reported.
    pub open spec fn label(self) -> Seq<char> {
        match self {
            Device::Usb(device) => device.sys_name@,
            Device::Pci(device) => device.address@,
        }
    }

    fn name(&self) -> (out: String)
        ensures
            out@ == self.label(),
    {
        match self {
            Device::Usb(device) => device.sys_name.clone(),
            Device::Pci(device) => device.address.clone(),
        }
    }
}

/// What is done with the devices.
#[derive(Debug)]
pub enum Work {
    /// Attach them, to this machine where one is named.
    Attach { vm: Option<String> },
    Detach { permanent: bool },
    /// Take them off their machines, or off this one.
    Suspend { vm: Option<String> },
    /// Attach them to the machines that they belong to, or to this one.
    Resume { vm: Option<String> },
}

/// Work on several devices, under way.
#[derive(Debug)]
pub struct Batch {
    pub work: Work,
    /// The devices that are left.
    pub left: Vec<(Device, RuleMatch)>,
    /// One line for each device that failed.
    pub failures: Vec<String>,
}

/// What the work needs next.
#[derive(Debug)]
pub enum BatchStep {
    /// Attach this device.
    Attach { device: Device, rule: RuleMatch, vm: Option<String>, next: BatchItem },
    /// Take this device off its machine.
    Detach { device: Device, rule: RuleMatch, permanent: bool, next: BatchItem },
    /// See whether this control socket exists.
    Look { socket: String, next: BatchLook },
    Finished(Result<(), Error>),
}

/// One device is worked on.
#[derive(Debug)]
pub struct BatchItem {
    pub batch: Batch,
    pub name: String,
    /// The machine that the device goes to, where it resumes.
    pub target: Option<String>,
}

/// A device could not be attached; it is seen whether its machine runs.
#[derive(Debug)]
pub struct BatchLook {
    pub batch: Batch,
    pub name: String,
    pub error: Error,
}

/// The machine that has a device.
pub open spec fn attached_to(manager: DeviceManager, device: Device) -> Option<Seq<char>> {
    match device {
        Device::Usb(device) => holder(
            manager.state.usb_vms@,
            Some(
                match opt(device.device_node) {
                    Some(node) => node,
                    None => ""@,
                },
            ),
        ),
        Device::Pci(device) => holder(manager.state.pci_vms@, Some(device.address@)),
    }
}

/// Whether a device was disconnected on purpose.
pub open spec fn is_parted(manager: DeviceManager, device: Device) -> bool {
    match device {
        Device::Usb(device) => manager.state.is_disconnected(usb_id(device)),
        Device::Pci(device) => manager.state.is_disconnected(pci_id(device)),
    }
}

/// The machine that a device belongs to.
pub open spec fn home_of(manager: DeviceManager, device: Device, rule: RuleMatch) -> Option<Seq<char>> {
    match device {
        Device::Usb(device) => resume_target(manager.state, device, rule),
        Device::Pci(_) => opt(rule.target_vm),
    }
}

/// The machine that a device goes to when it resumes: the one that it belongs
/// to, else the only one that its rule allows.
pub open spec fn bound_for(manager: DeviceManager, device: Device, rule: RuleMatch) -> Option<
    Seq<char>,
> {
    match device {
        Device::Usb(usb) => chosen_vm(manager.state, usb, rule, home_of(manager, device, rule)),
        Device::Pci(_) => opt(rule.target_vm),
    }
}

/// Whether the work is done on a device. A device that is not to be suspended
/// stays, and one that was disconnected on purpose does not come back by
/// itself.
pub open spec fn applies(manager: DeviceManager, work: Work, item: (Device, RuleMatch)) -> bool {
    match work {
        Work::Attach { .. } => true,
        Work::Detach { .. } => true,
        Work::Suspend { vm } => {
            &&& !item.1.skip_on_suspend
            &&& attached_to(manager, item.0) is Some
            &&& in_scope(opt(vm), attached_to(manager, item.0))
        },
        Work::Resume { vm } => {
            &&& !is_parted(manager, item.0)
            &&& in_scope(opt(vm), home_of(manager, item.0, item.1))
            &&& item.0 is Pci ==> item.1.target_vm is Some
        },
    }
}

/// Whether `step` does the work on a device, with `rest` still to do.
pub open spec fn is_item_step(
    manager: DeviceManager,
    work: Work,
    item: (Device, RuleMatch),
    rest: Seq<(Device, RuleMatch)>,
    failures: Seq<Seq<char>>,
    step: BatchStep,
) -> bool {
    match work {
        Work::Attach { vm } => {
            &&& step matches BatchStep::Attach { device, rule, vm: to, next }
            &&& (device, rule) == item
            &&& opt(to) == opt(vm)
            &&& is_item(work, item, rest, failures, next)
            &&& next.target is None
        },
        Work::Detach { permanent } => {
            &&& step matches BatchStep::Detach { device, rule, permanent: parts, next }
            &&& (device, rule) == item
            &&& parts == permanent
            &&& is_item(work, item, rest, failures, next)
            &&& next.target is None
        },
        Work::Suspend { vm } => {
            &&& step matches BatchStep::Detach { device, rule, permanent: parts, next }
            &&& (device, rule) == item
            &&& !parts
            &&& is_item(work, item, rest, failures, next)
            &&& next.target is None
        },
        Work::Resume { vm } => {
            &&& step matches BatchStep::Attach { device, rule, vm: to, next }
            &&& (device, rule) == item
            &&& opt(to) == home_of(manager, item.0, item.1)
            &&& is_item(work, item, rest, failures, next)
            &&& opt(next.target) == bound_for(manager, item.0, item.1)
        },
    }
}

pub open spec fn is_item(
    work: Work,
    item: (Device, RuleMatch),
    rest: Seq<(Device, RuleMatch)>,
    failures: Seq<Seq<char>>,
    next: BatchItem,
) -> bool {
    &&& next.batch.work == work
    &&& next.batch.left@ == rest
    &&& views(next.batch.failures@) == failures
    &&& next.name@ == item.0.label()
}

/// Whether `step` does the work on the first device that it applies to, or
/// ends it where it applies to none.
pub open spec fn is_batch_step(
    manager: DeviceManager,
    work: Work,
    left: Seq<(Device, RuleMatch)>,
    failures: Seq<Seq<char>>,
    step: BatchStep,
) -> bool
    decreases left.len(),
{
    if left.len() == 0 {
        &&& step matches BatchStep::Finished(outcome)
        &&& match outcome {
            Ok(_) => failures.len() == 0,
            Err(error) => {
                &&& failures.len() > 0
                &&& error matches Error::Several(lines)
                &&& views(lines@) == failures
            },
        }
    } else if applies(manager, work, left[0]) {
        is_item_step(manager, work, left[0], left.skip(1), failures, step)
    } else {
        is_batch_step(manager, work, left.skip(1), failures, step)
    }
}

impl Batch {
    /// Starts the work on some devices.
    pub fn start(manager: &DeviceManager, work: Work, devices: Vec<(Device, RuleMatch)>) -> (step:
        BatchStep)
        ensures
            is_batch_step(*manager, work, devices@, Seq::empty(), step),
    {
        let failures: Vec<String> = Vec::new();
        assert(views(failures@) =~= Seq::<Seq<char>>::empty());
        Batch { work, left: devices, failures }.step(manager)
    }

    fn applies_to(&self, manager: &DeviceManager, device: &Device, rule: &RuleMatch) -> (r: bool)
        ensures
            r == applies(*manager, self.work, (*device, *rule)),
    {
        match &self.work {
            Work::Attach { .. } => true,
            Work::Detach { .. } => true,
            Work::Suspend { vm } => match device {
                Device::Usb(device) => manager.suspends_usb(device, rule, as_deref(vm)),
                Device::Pci(device) => manager.suspends_pci(device, rule, as_deref(vm)),
            },
            Work::Resume { vm } => match device {
                Device::Usb(device) => match manager.resumes_usb(device, rule, as_deref(vm)) {
                    Resume::Attach(_) => true,
                    Resume::Skip => false,
                },
                Device::Pci(device) => manager.resumes_pci(device, rule, as_deref(vm)),
            },
        }
    }

    /// Goes on with the devices that are left.
    pub fn step(self, manager: &DeviceManager) -> (step: BatchStep)
        ensures
            is_batch_step(*manager, self.work, self.left@, views(self.failures@), step),
    {
        let mut batch = self;
        let ghost failures = views(self.failures@);
        while batch.left.len() > 0
            invariant
                batch.work == self.work,
                views(batch.failures@) == failures,
                failures == views(self.failures@),
                forall|step: BatchStep|
                    is_batch_step(*manager, self.work, batch.left@, failures, step)
                        ==> #[trigger] is_batch_step(
                        *manager,
                        self.work,
                        self.left@,
                        failures,
                        step,
                    ),
            decreases batch.left.len(),
        {
            let ghost before = batch.left@;
            let (device, rule) = batch.left.remove(0);
            let ghost item = (device, rule);
            assert(item == before[0]);
            assert(batch.left@ =~= before.skip(1));
            if batch.applies_to(manager, &device, &rule) {
                let step = batch.item(manager, device, rule);
                assert(is_batch_step(*manager, self.work, before, failures, step));
                return step;
            }
            assert forall|step: BatchStep|
                is_batch_step(*manager, self.work, batch.left@, failures, step) implies
                #[trigger] is_batch_step(*manager, self.work, self.left@, failures, step) by {
                assert(is_batch_step(*manager, self.work, before, failures, step));
            }
        }
        assert(views(batch.failures@).len() == batch.failures@.len());
        let step = BatchStep::Finished(aggregate(batch.failures));
        assert(is_batch_step(*manager, self.work, batch.left@, failures, step));
        step
    }

    fn item(self, manager: &DeviceManager, device: Device, rule: RuleMatch) -> (step: BatchStep)
        requires
            applies(*manager, self.work, (device, rule)),
        ensures
            is_item_step(
                *manager,
                self.work,
                (device, rule),
                self.left@,
                views(self.failures@),
                step,
            ),
    {
        let name = device.name();
        let mut vm: Option<String> = None;
        let mut target: Option<String> = None;
        match &self.work {
            Work::Attach { vm: to } => {
                vm = to.clone();
            },
            Work::Detach { permanent } => {
                let permanent: bool = *permanent;
                let next = BatchItem { batch: self, name, target: None };
                return BatchStep::Detach { device, rule, permanent, next };
            },
            Work::Suspend { .. } => {
                let next = BatchItem { batch: self, name, target: None };
                return BatchStep::Detach { device, rule, permanent: false, next };
            },
            Work::Resume { vm: wanted } => {
                vm = match &device {
                    Device::Usb(device) => match manager.resumes_usb(
                        device,
                        &rule,
                        as_deref(wanted),
                    ) {
                        Resume::Attach(target) => target,
                        Resume::Skip => None,
                    },
                    Device::Pci(_) => rule.target_vm.clone(),
                };
                target = match &vm {
                    Some(vm) => Some(vm.clone()),
                    None => match &device {
                        Device::Usb(_) => if rule.allowed_vms.len() == 1 {
                            Some(rule.allowed_vms[0].clone())
                        } else {
                            None
                        },
                        Device::Pci(_) => None,
                    },
                };
            },
        }
        let next = BatchItem { batch: self, name, target };
        BatchStep::Attach { device, rule, vm, next }
    }
}

/// USB devices as devices.
pub open spec fn usb_items(devices: Seq<(UsbDevice, RuleMatch)>) -> Seq<(Device, RuleMatch)> {
    Seq::new(devices.len(), |i: int| (Device::Usb(devices[i].0), devices[i].1))
}

/// PCI devices as devices.
pub open spec fn pci_items(devices: Seq<(PciDevice, RuleMatch)>) -> Seq<(Device, RuleMatch)> {
    Seq::new(devices.len(), |i: int| (Device::Pci(devices[i].0), devices[i].1))
}

fn as_usb_items(devices: Vec<(UsbDevice, RuleMatch)>) -> (out: Vec<(Device, RuleMatch)>)
    ensures
        out@ == usb_items(devices@),
{
    let mut out: Vec<(Device, RuleMatch)> = Vec::new();
    let ghost all = devices@;
    for item in it: devices
        invariant
            it.seq() == all,
            out@ == usb_items(all.take(it.index())),
    {
        let (device, rule) = item;
        out.push((Device::Usb(device), rule));
        assert(out@ =~= usb_items(all.take(it.index() + 1)));
    }
    assert(all.take(all.len() as int) =~= all);
    out
}

fn as_pci_items(devices: Vec<(PciDevice, RuleMatch)>) -> (out: Vec<(Device, RuleMatch)>)
    ensures
        out@ == pci_items(devices@),
{
    let mut out: Vec<(Device, RuleMatch)> = Vec::new();
    let ghost all = devices@;
    for item in it: devices
        invariant
            it.seq() == all,
            out@ == pci_items(all.take(it.index())),
    {
        let (device, rule) = item;
        out.push((Device::Pci(device), rule));
        assert(out@ =~= pci_items(all.take(it.index() + 1)));
    }
    assert(all.take(all.len() as int) =~= all);
    out
}

/// Whether `step` starts the work on the USB devices that a request asks for,
/// or refuses a request that fits none.
pub open spec fn is_asked_usb_step(
    manager: DeviceManager,
    work: Work,
    devices: Seq<(UsbDevice, RuleMatch)>,
    selector: Selector,
    step: BatchStep,
) -> bool {
    if asked_usb(selector, devices).len() == 0 {
        step == BatchStep::Finished(Err(Error::NoUsbMatch))
    } else {
        is_batch_step(
            manager,
            work,
            usb_items(asked_usb(selector, devices)),
            Seq::empty(),
            step,
        )
    }
}

/// Whether `step` starts the work on the PCI devices that a request asks for,
/// or refuses a request that fits none.
pub open spec fn is_asked_pci_step(
    manager: DeviceManager,
    work: Work,
    devices: Seq<(PciDevice, RuleMatch)>,
    selector: Selector,
    step: BatchStep,
) -> bool {
    if asked_pci(selector, devices).len() == 0 {
        step == BatchStep::Finished(Err(Error::NoPciMatch))
    } else {
        is_batch_step(
            manager,
            work,
            pci_items(asked_pci(selector, devices)),
            Seq::empty(),
            step,
        )
    }
}

impl DeviceManager {
    fn start_usb(
        &self,
        devices: Vec<(UsbDevice, RuleMatch)>,
        selector: &Selector,
        work: Work,
    ) -> (step: BatchStep)
        ensures
            is_asked_usb_step(*self, work, devices@, *selector, step),
    {
        match selected_usb(devices, selector) {
            Ok(found) => Batch::start(self, work, as_usb_items(found)),
            Err(error) => BatchStep::Finished(Err(error)),
        }
    }

    fn start_pci(
        &self,
        devices: Vec<(PciDevice, RuleMatch)>,
        selector: &Selector,
        work: Work,
    ) -> (step: BatchStep)
        ensures
            is_asked_pci_step(*self, work, devices@, *selector, step),
    {
        match selected_pci(devices, selector) {
            Ok(found) => Batch::start(self, work, as_pci_items(found)),
            Err(error) => BatchStep::Finished(Err(error)),
        }
    }

    /// Attaches the USB devices that a request asks for, to this machine
    /// where one is named.
    pub fn attach_usb(
        &self,
        devices: Vec<(UsbDevice, RuleMatch)>,
        selector: &Selector,
        vm: Option<String>,
    ) -> (step: BatchStep)
        ensures
            is_asked_usb_step(*self, Work::Attach { vm }, devices@, *selector, step),
    {
        self.start_usb(devices, selector, Work::Attach { vm })
    }

    /// Takes the USB devices that a request asks for off their machines.
    pub fn detach_usb(
        &self,
        devices: Vec<(UsbDevice, RuleMatch)>,
        selector: &Selector,
        permanent: bool,
    ) -> (step: BatchStep)
        ensures
            is_asked_usb_step(*self, Work::Detach { permanent }, devices@, *selector, step),
    {
        self.start_usb(devices, selector, Work::Detach { permanent })
    }

    /// Attaches the PCI devices that a request asks for, to this machine
    /// where one is named.
    pub fn attach_pci(
        &self,
        devices: Vec<(PciDevice, RuleMatch)>,
        selector: &Selector,
        vm: Option<String>,
    ) -> (step: BatchStep)
        ensures
            is_asked_pci_step(*self, Work::Attach { vm }, devices@, *selector, step),
    {
        self.start_pci(devices, selector, Work::Attach { vm })
    }

    /// Takes the PCI devices that a request asks for off their machines.
    pub fn detach_pci(
        &self,
        devices: Vec<(PciDevice, RuleMatch)>,
        selector: &Selector,
        permanent: bool,
    ) -> (step: BatchStep)
        ensures
            is_asked_pci_step(*self, Work::Detach { permanent }, devices@, *selector, step),
    {
        self.start_pci(devices, selector, Work::Detach { permanent })
    }

    /// Takes the USB devices off their machines, or off this one.
    pub fn suspend_usb(&self, devices: Vec<(UsbDevice, RuleMatch)>, vm: Option<String>) -> (step:
        BatchStep)
        ensures
            is_batch_step(
                *self,
                Work::Suspend { vm },
                usb_items(devices@),
                Seq::empty(),
                step,
            ),
    {
        Batch::start(self, Work::Suspend { vm }, as_usb_items(devices))
    }

    /// Takes the PCI devices off their machines, or off this one.
    pub fn suspend_pci(&self, devices: Vec<(PciDevice, RuleMatch)>, vm: Option<String>) -> (step:
        BatchStep)
        ensures
            is_batch_step(
                *self,
                Work::Suspend { vm },
                pci_items(devices@),
                Seq::empty(),
                step,
            ),
    {
        Batch::start(self, Work::Suspend { vm }, as_pci_items(devices))
    }

    /// Attaches the USB devices to the machines that they belong to, or to
    /// this one.
    pub fn resume_usb(&self, devices: Vec<(UsbDevice, RuleMatch)>, vm: Option<String>) -> (step:
        BatchStep)
        ensures
            is_batch_step(*self, Work::Resume { vm }, usb_items(devices@), Seq::empty(), step),
    {
        Batch::start(self, Work::Resume { vm }, as_usb_items(devices))
    }

    /// Attaches the PCI devices to the machines that they belong to, or to
    /// this one.
    pub fn resume_pci(&self, devices: Vec<(PciDevice, RuleMatch)>, vm: Option<String>) -> (step:
        BatchStep)
        ensures
            is_batch_step(*self, Work::Resume { vm }, pci_items(devices@), Seq::empty(), step),
    {
        Batch::start(self, Work::Resume { vm }, as_pci_items(devices))
    }
}

impl BatchItem {
    /// Takes the outcome for the device. A failure is noted; where the device
    /// resumes, it is seen first whether its machine runs.
    pub fn done(self, manager: &DeviceManager, outcome: Result<(), Error>) -> (step: BatchStep)
        ensures
            match outcome {
                Ok(_) => is_batch_step(
                    *manager,
                    self.batch.work,
                    self.batch.left@,
                    views(self.batch.failures@),
                    step,
                ),
                Err(error) => {
                    let home = match opt(self.target) {
                        Some(name) => vm_named(manager.config.vms@, name),
                        None => None,
                    };
                    match home {
                        Some(vm) => step == (BatchStep::Look {
                            socket: vm.socket,
                            next: (BatchLook { batch: self.batch, name: self.name, error }),
                        }),
                        None => is_batch_step(
                            *manager,
                            self.batch.work,
                            self.batch.left@,
                            views(self.batch.failures@).push(
                                self.name@ + ": "@ + error.text(),
                            ),
                            step,
                        ),
                    }
                },
            },
    {
        let error = match outcome {
            Ok(_) => {
                return self.batch.step(manager);
            },
            Err(error) => error,
        };
        match manager.vm_socket(as_deref(&self.target)) {
            Some(socket) => BatchStep::Look {
                socket,
                next: BatchLook { batch: self.batch, name: self.name, error },
            },
            None => {
                let mut batch = self.batch;
                let line = failure_line(self.name.as_str(), &error);
                let ghost before = batch.failures@;
                batch.failures.push(line);
                proof {
                    lemma_views_push(before, line);
                }
                batch.step(manager)
            },
        }
    }
}

impl BatchLook {
    /// Takes whether the control socket exists. The failure to attach a
    /// device to a machine that does not run is no failure: it is put off.
    pub fn looked(self, manager: &mut DeviceManager, exists: bool) -> (step: BatchStep)
        ensures
            *final(manager) == (DeviceManager {
                deferred: old(manager).deferred || !exists,
                ..*old(manager)
            }),
            is_batch_step(
                *final(manager),
                self.batch.work,
                self.batch.left@,
                if exists {
                    views(self.batch.failures@).push(self.name@ + ": "@ + self.error.text())
                } else {
                    views(self.batch.failures@)
                },
                step,
            ),
    {
        let mut batch = self.batch;
        let ghost before = batch.failures@;
        match manager.attach_failed(self.name.as_str(), &self.error, !exists) {
            Some(line) => {
                batch.failures.push(line);
                proof {
                    lemma_views_push(before, line);
                }
            },
            None => {},
        }
        batch.step(manager)
    }
}

/// What a pass over all devices needs next.
#[derive(Debug)]
pub enum PassStep {
    /// Settle the host drivers. A failure is reported and does no harm.
    Gate(PassGate),
    /// Notice the devices that came and went.
    Observe(PassObserve),
    /// Attach the PCI devices to their machines.
    ResumePci(PassPci),
    /// Attach the USB devices to their machines.
    ResumeUsb(PassUsb),
    Finished(Result<(), Error>),
}

#[derive(Debug)]
pub struct PassGate {}

#[derive(Debug)]
pub struct PassObserve {}

#[derive(Debug)]
pub struct PassPci {}

#[derive(Debug)]
pub struct PassUsb {
    /// What the PCI devices failed with.
    pub pci: Result<(), Error>,
}

impl DeviceManager {
    /// Starts a pass over all devices.
    pub fn reconcile(&mut self) -> (step: PassStep)
        ensures
            step is Gate,
            *final(self) == (DeviceManager { deferred: false, ..*old(self) }),
    {
        self.deferred = false;
        PassStep::Gate(PassGate {  })
    }
}

impl PassGate {
    /// Goes on whatever came of the host drivers.
    pub fn settled(self) -> (step: PassStep)
        ensures
            step is Observe,
    {
        PassStep::Observe(PassObserve {  })
    }
}

impl PassObserve {
    /// Goes on once the devices are looked at.
    pub fn observed(self, outcome: Result<(), Error>) -> (step: PassStep)
        ensures
            match outcome {
                Ok(_) => step is ResumePci,
                Err(error) => step == PassStep::Finished(Err(error)),
            },
    {
        match outcome {
            Ok(_) => PassStep::ResumePci(PassPci {  }),
            Err(error) => PassStep::Finished(Err(error)),
        }
    }
}

impl PassPci {
    /// Goes on to the USB devices, whatever came of the PCI devices.
    pub fn resumed(self, outcome: Result<(), Error>) -> (step: PassStep)
        ensures
            step == PassStep::ResumeUsb((PassUsb { pci: outcome })),
    {
        PassStep::ResumeUsb(PassUsb { pci: outcome })
    }
}

/// The lines that report the failures of a pass.
pub open spec fn pass_failures(pci: Result<(), Error>, usb: Result<(), Error>) -> Seq<Seq<char>> {
    (match pci {
        Ok(_) => Seq::<Seq<char>>::empty(),
        Err(error) => seq!["PCI"@ + ": "@ + error.text()],
    }) + (match usb {
        Ok(_) => Seq::<Seq<char>>::empty(),
        Err(error) => seq!["USB"@ + ": "@ + error.text()],
    })
}

impl PassUsb {
    /// Ends the pass: it failed where any part of it did.
    pub fn resumed(self, outcome: Result<(), Error>) -> (step: PassStep)
        ensures
            step matches PassStep::Finished(result) && match result {
                Ok(_) => self.pci is Ok && outcome is Ok,
                Err(error) => {
                    &&& self.pci is Err || outcome is Err
                    &&& error matches Error::Several(lines)
                    &&& views(lines@) == pass_failures(self.pci, outcome)
                },
            },
    {
        let mut failures: Vec<String> = Vec::new();
        if let Err(error) = &self.pci {
            failures.push(failure_line("PCI", error));
        }
        let ghost first = failures@;
        if let Err(error) = &outcome {
            let line = failure_line("USB", error);
            failures.push(line);
            proof {
                lemma_views_push(first, line);
            }
        }
        assert(views(failures@) =~= pass_failures(self.pci, outcome));
        assert(views(failures@).len() == failures@.len());
        PassStep::Finished(aggregate(failures))
    }
}

/// A device that was disconnected on purpose does not come back by itself:
/// resuming leaves it out, for every machine.
pub proof fn law_parted_is_not_resumed(
    manager: DeviceManager,
    vm: Option<String>,
    item: (Device, RuleMatch),
)
    requires
        is_parted(manager, item.0),
    ensures
        !applies(manager, Work::Resume { vm }, item),
{
}

/// A device that resumes and fails is held against the very machine that the
/// attachment goes to. So where that machine is configured, the failure comes
/// only after a look at its control socket, however the machine was chosen.
pub proof fn law_failure_is_held_against_the_chosen_machine(
    manager: DeviceManager,
    vm: Option<String>,
    device: UsbDevice,
    rule: RuleMatch,
    rest: Seq<(Device, RuleMatch)>,
    failures: Seq<Seq<char>>,
    step: BatchStep,
)
    requires
        is_item_step(
            manager,
            Work::Resume { vm },
            (Device::Usb(device), rule),
            rest,
            failures,
            step,
        ),
    ensures
        step matches BatchStep::Attach { vm: to, next, .. } && opt(next.target) == chosen_vm(
            manager.state,
            device,
            rule,
            opt(to),
        ),
{
}

/// Suspending and resuming agree on the machine: a device that a machine has,
/// and that belongs to it, is taken off and attached again by requests for
/// that machine, unless it is not to be suspended.
pub proof fn law_suspended_is_resumed(
    manager: DeviceManager,
    vm: String,
    item: (Device, RuleMatch),
)
    requires
        attached_to(manager, item.0) == Some(vm@),
        home_of(manager, item.0, item.1) == Some(vm@),
        !item.1.skip_on_suspend,
        !is_parted(manager, item.0),
    ensures
        applies(manager, Work::Suspend { vm: Some(vm) }, item),
        applies(manager, Work::Resume { vm: Some(vm) }, item),
        applies(manager, Work::Suspend { vm: None }, item),
        applies(manager, Work::Resume { vm: None }, item),
{
}

/// Work goes to the first device that it applies to; those before it are left
/// out, and those behind it are still to do. Where it applies to none it ends.
proof fn lemma_first_applies(
    manager: DeviceManager,
    work: Work,
    left: Seq<(Device, RuleMatch)>,
    failures: Seq<Seq<char>>,
    step: BatchStep,
) -> (at: int)
    requires
        is_batch_step(manager, work, left, failures, step),
    ensures
        0 <= at <= left.len(),
        forall|k: int| 0 <= k < at ==> !applies(manager, work, #[trigger] left[k]),
        at < left.len() ==> applies(manager, work, left[at]) && is_item_step(
            manager,
            work,
            left[at],
            left.skip(at + 1),
            failures,
            step,
        ),
        at == left.len() ==> is_batch_step(manager, work, Seq::empty(), failures, step),
    decreases left.len(),
{
    if left.len() == 0 {
        assert(left =~= Seq::<(Device, RuleMatch)>::empty());
        0
    } else if applies(manager, work, left[0]) {
        0
    } else {
        let rest = left.skip(1);
        let at = lemma_first_applies(manager, work, rest, failures, step);
        assert forall|k: int| 0 <= k < at + 1 implies !applies(
            manager,
            work,
            #[trigger] left[k],
        ) by {
            if k > 0 {
                assert(rest[k - 1] == left[k]);
            }
        }
        if at < rest.len() {
            assert(rest[at] == left[at + 1]);
            assert(rest.skip(at + 1) =~= left.skip(at + 2));
        }
        at + 1
    }
}

/// Suspending takes USB devices off for now: exactly those that a machine has,
/// or the machine that is named, and that their rule does not except, the
/// first of them first.
pub proof fn law_usb_suspension(
    manager: &DeviceManager,
    devices: Vec<(UsbDevice, RuleMatch)>,
    vm: Option<String>,
    step: BatchStep,
)
    requires
        call_ensures(DeviceManager::suspend_usb, (manager, devices, vm), step),
        forall|i: int| 0 <= i < devices@.len() ==> (#[trigger] devices@[i]).0.device_node is Some,
    ensures
        ({
            let vms = manager.state.usb_vms@;
            let off = |i: int|
                {
                    let node = devices@[i].0.device_node->0@;
                    &&& !devices@[i].1.skip_on_suspend
                    &&& vms.contains_key(node)
                    &&& vm is Some ==> vms[node]@ == vm->0@
                };
            ||| step matches BatchStep::Finished(outcome) && outcome is Ok && forall|i: int|
                #![trigger devices@[i]]
                0 <= i < devices@.len() ==> !off(i)
            ||| step matches BatchStep::Detach { device, rule, permanent, next } && !permanent && (
            exists|i: int|
                #![trigger devices@[i]]
                0 <= i < devices@.len() && off(i) && device == Device::Usb(devices@[i].0) && rule
                    == devices@[i].1 && (forall|k: int|
                    #![trigger devices@[k]]
                    0 <= k < i ==> !off(k)) && next.batch.left@.len() == devices@.len() - i - 1)
        }),
{
    let left = usb_items(devices@);
    let work = Work::Suspend { vm };
    let at = lemma_first_applies(*manager, work, left, Seq::empty(), step);
    let vms = manager.state.usb_vms@;
    let off = |i: int|
        {
            let node = devices@[i].0.device_node->0@;
            &&& !devices@[i].1.skip_on_suspend
            &&& vms.contains_key(node)
            &&& vm is Some ==> vms[node]@ == vm->0@
        };
    assert forall|i: int|
        #![trigger devices@[i]]
        0 <= i < devices@.len() implies off(i) == applies(*manager, work, left[i]) by {}
    if at < left.len() {
        assert(off(at));
        assert(devices@[at].0.device_node is Some);
    }
}

/// Suspending takes PCI devices off for now: exactly those that a machine has,
/// or the machine that is named, and that their rule does not except, the
/// first of them first.
pub proof fn law_pci_suspension(
    manager: &DeviceManager,
    devices: Vec<(PciDevice, RuleMatch)>,
    vm: Option<String>,
    step: BatchStep,
)
    requires
        call_ensures(DeviceManager::suspend_pci, (manager, devices, vm), step),
    ensures
        ({
            let vms = manager.state.pci_vms@;
            let off = |i: int|
                {
                    let address = devices@[i].0.address@;
                    &&& !devices@[i].1.skip_on_suspend
                    &&& vms.contains_key(address)
                    &&& vm is Some ==> vms[address]@ == vm->0@
                };
            ||| step matches BatchStep::Finished(outcome) && outcome is Ok && forall|i: int|
                #![trigger devices@[i]]
                0 <= i < devices@.len() ==> !off(i)
            ||| step matches BatchStep::Detach { device, rule, permanent, next } && !permanent && (
            exists|i: int|
                #![trigger devices@[i]]
                0 <= i < devices@.len() && off(i) && device == Device::Pci(devices@[i].0) && rule
                    == devices@[i].1 && (forall|k: int|
                    #![trigger devices@[k]]
                    0 <= k < i ==> !off(k)) && next.batch.left@.len() == devices@.len() - i - 1)
        }),
{
    let left = pci_items(devices@);
    let work = Work::Suspend { vm };
    let at = lemma_first_applies(*manager, work, left, Seq::empty(), step);
    let vms = manager.state.pci_vms@;
    let off = |i: int|
        {
            let address = devices@[i].0.address@;
            &&& !devices@[i].1.skip_on_suspend
            &&& vms.contains_key(address)
            &&& vm is Some ==> vms[address]@ == vm->0@
        };
    assert forall|i: int|
        #![trigger devices@[i]]
        0 <= i < devices@.len() implies off(i) == applies(*manager, work, left[i]) by {}
    if at < left.len() {
        assert(off(at));
        assert(devices@[at].0.address@ == devices@[at].0.address@);
    }
}

/// Resuming attaches USB devices: exactly those that were not disconnected on
/// purpose and, where a machine is named, belong to it. Each goes to the target
/// of its rule, else to the machine that was last selected for it.
pub proof fn law_usb_resumption(
    manager: &DeviceManager,
    devices: Vec<(UsbDevice, RuleMatch)>,
    vm: Option<String>,
    step: BatchStep,
)
    requires
        call_ensures(DeviceManager::resume_usb, (manager, devices, vm), step),
    ensures
        ({
            let selected = manager.state.persistent.selected_vms@;
            let back = |i: int|
                {
                    let device = devices@[i].0;
                    let rule = devices@[i].1;
                    &&& !manager.state.is_disconnected(usb_id(device))
                    &&& vm is Some ==> {
                        ||| rule.target_vm is Some && rule.target_vm->0@ == vm->0@
                        ||| rule.target_vm is None && selected.contains_key(usb_id(device))
                            && selected[usb_id(device)]@ == vm->0@
                    }
                };
            ||| step matches BatchStep::Finished(outcome) && outcome is Ok && forall|i: int|
                #![trigger devices@[i]]
                0 <= i < devices@.len() ==> !back(i)
            ||| step matches BatchStep::Attach { device, rule, vm: to, next } && (exists|i: int|
                #![trigger devices@[i]]
                {
                    &&& 0 <= i < devices@.len()
                    &&& back(i)
                    &&& device == Device::Usb(devices@[i].0)
                    &&& rule == devices@[i].1
                    &&& rule.target_vm is Some ==> to is Some && to->0@ == rule.target_vm->0@
                    &&& rule.target_vm is None && selected.contains_key(usb_id(devices@[i].0))
                        ==> to is Some && to->0@ == selected[usb_id(devices@[i].0)]@
                    &&& rule.target_vm is None && !selected.contains_key(usb_id(devices@[i].0))
                        ==> to is None
                    &&& forall|k: int|
                        #![trigger devices@[k]]
                        0 <= k < i ==> !back(k)
                    &&& next.batch.left@.len() == devices@.len() - i - 1
                })
        }),
{
    let left = usb_items(devices@);
    let work = Work::Resume { vm };
    let at = lemma_first_applies(*manager, work, left, Seq::empty(), step);
    let selected = manager.state.persistent.selected_vms@;
    let back = |i: int|
        {
            let device = devices@[i].0;
            let rule = devices@[i].1;
            &&& !manager.state.is_disconnected(usb_id(device))
            &&& vm is Some ==> {
                ||| rule.target_vm is Some && rule.target_vm->0@ == vm->0@
                ||| rule.target_vm is None && selected.contains_key(usb_id(device))
                    && selected[usb_id(device)]@ == vm->0@
            }
        };
    assert forall|i: int|
        #![trigger devices@[i]]
        0 <= i < devices@.len() implies back(i) == applies(*manager, work, left[i]) by {}
    if at < left.len() {
        assert(back(at));
        assert(devices@[at].0 == devices@[at].0);
    }
}

/// Resuming attaches PCI devices: exactly those that were not disconnected on
/// purpose and whose rule has a target, which is the machine that is named
/// where one is. Each goes to that target.
pub proof fn law_pci_resumption(
    manager: &DeviceManager,
    devices: Vec<(PciDevice, RuleMatch)>,
    vm: Option<String>,
    step: BatchStep,
)
    requires
        call_ensures(DeviceManager::resume_pci, (manager, devices, vm), step),
    ensures
        ({
            let back = |i: int|
                {
                    let rule = devices@[i].1;
                    &&& !manager.state.is_disconnected(pci_id(devices@[i].0))
                    &&& rule.target_vm is Some
                    &&& vm is Some ==> rule.target_vm->0@ == vm->0@
                };
            ||| step matches BatchStep::Finished(outcome) && outcome is Ok && forall|i: int|
                #![trigger devices@[i]]
                0 <= i < devices@.len() ==> !back(i)
            ||| step matches BatchStep::Attach { device, rule, vm: to, next } && (exists|i: int|
                #![trigger devices@[i]]
                {
                    &&& 0 <= i < devices@.len()
                    &&& back(i)
                    &&& device == Device::Pci(devices@[i].0)
                    &&& rule == devices@[i].1
                    &&& to is Some && to->0@ == rule.target_vm->0@
                    &&& forall|k: int|
                        #![trigger devices@[k]]
                        0 <= k < i ==> !back(k)
                    &&& next.batch.left@.len() == devices@.len() - i - 1
                })
        }),
{
    let left = pci_items(devices@);
    let work = Work::Resume { vm };
    let at = lemma_first_applies(*manager, work, left, Seq::empty(), step);
    let back = |i: int|
        {
            let rule = devices@[i].1;
            &&& !manager.state.is_disconnected(pci_id(devices@[i].0))
            &&& rule.target_vm is Some
            &&& vm is Some ==> rule.target_vm->0@ == vm->0@
        };
    assert forall|i: int|
        #![trigger devices@[i]]
        0 <= i < devices@.len() implies back(i) == applies(*manager, work, left[i]) by {}
    if at < left.len() {
        assert(back(at));
        assert(devices@[at].0 == devices@[at].0);
    }
}

/// A request to attach or to take off works on the devices that it selects,
/// one after the other, with the machine that it names or whether the device
/// is disconnected on purpose; a request that selects none fails.
pub proof fn law_requests_work_on_what_they_select(
    manager: &DeviceManager,
    usb: Vec<(UsbDevice, RuleMatch)>,
    pci: Vec<(PciDevice, RuleMatch)>,
    selector: &Selector,
    vm: Option<String>,
    permanent: bool,
    chosen_usb: Result<Vec<(UsbDevice, RuleMatch)>, Error>,
    chosen_pci: Result<Vec<(PciDevice, RuleMatch)>, Error>,
    on_usb: BatchStep,
    off_usb: BatchStep,
    on_pci: BatchStep,
    off_pci: BatchStep,
)
    requires
        call_ensures(selected_usb, (usb, selector), chosen_usb),
        call_ensures(selected_pci, (pci, selector), chosen_pci),
        call_ensures(DeviceManager::attach_usb, (manager, usb, selector, vm), on_usb),
        call_ensures(DeviceManager::detach_usb, (manager, usb, selector, permanent), off_usb),
        call_ensures(DeviceManager::attach_pci, (manager, pci, selector, vm), on_pci),
        call_ensures(DeviceManager::detach_pci, (manager, pci, selector, permanent), off_pci),
    ensures
        chosen_usb is Err ==> on_usb == BatchStep::Finished(Err(Error::NoUsbMatch)) && off_usb
            == BatchStep::Finished(Err(Error::NoUsbMatch)),
        chosen_pci is Err ==> on_pci == BatchStep::Finished(Err(Error::NoPciMatch)) && off_pci
            == BatchStep::Finished(Err(Error::NoPciMatch)),
        chosen_usb matches Ok(found) ==> {
            &&& on_usb matches BatchStep::Attach { device, rule, vm: to, next } && device
                == Device::Usb(found@[0].0) && rule == found@[0].1 && opt(to) == opt(vm)
                && next.batch.left@.len() == found@.len() - 1
            &&& off_usb matches BatchStep::Detach { device, rule, permanent: parts, next } && device
                == Device::Usb(found@[0].0) && rule == found@[0].1 && parts == permanent
                && next.batch.left@.len() == found@.len() - 1
        },
        chosen_pci matches Ok(found) ==> {
            &&& on_pci matches BatchStep::Attach { device, rule, vm: to, next } && device
                == Device::Pci(found@[0].0) && rule == found@[0].1 && opt(to) == opt(vm)
                && next.batch.left@.len() == found@.len() - 1
            &&& off_pci matches BatchStep::Detach { device, rule, permanent: parts, next } && device
                == Device::Pci(found@[0].0) && rule == found@[0].1 && parts == permanent
                && next.batch.left@.len() == found@.len() - 1
        },
{
}

/// Work goes on with the next device whatever came of the last. A failure is
/// noted under the name of the device, but for one of a device that resumes,
/// for which the socket of its machine is looked at first.
pub proof fn law_failures_are_noted(
    item: BatchItem,
    manager: &DeviceManager,
    outcome: Result<(), Error>,
    step: BatchStep,
)
    requires
        call_ensures(BatchItem::done, (item, manager, outcome), step),
        item.batch.left@.len() == 0,
    ensures
        outcome is Ok && item.batch.failures@.len() == 0 ==> (step matches BatchStep::Finished(end)
            && end is Ok),
        outcome is Ok && item.batch.failures@.len() > 0 ==> (step matches BatchStep::Finished(end)
            && end is Err),
        outcome is Err && item.target is Some && (exists|i: int|
            0 <= i < manager.config.vms@.len() && (#[trigger] manager.config.vms@[i]).name@
                == item.target->0@) ==> (step matches BatchStep::Look { socket, next }
            && next.batch == item.batch && next.name == item.name && next.error
            == outcome->Err_0 && exists|i: int|
            0 <= i < manager.config.vms@.len() && (#[trigger] manager.config.vms@[i]).name@
                == item.target->0@ && manager.config.vms@[i].socket == socket),
        outcome is Err && item.target is None ==> (step matches BatchStep::Finished(end)
            && end is Err && (end->Err_0 matches Error::Several(lines) && lines@.len()
            == item.batch.failures@.len() + 1 && lines@.last()@ == item.name@ + ": "@ + (
        outcome->Err_0).text())),
{
    assert(views(item.batch.failures@).len() == item.batch.failures@.len());
    if item.target is Some {
        lemma_vm_named(manager.config.vms@, item.target->0@);
    }
    match step {
        BatchStep::Finished(Err(Error::Several(lines))) => {
            assert(views(lines@).len() == lines@.len());
            if lines@.len() > 0 {
                assert(views(lines@).last() == lines@.last()@);
            }
        },
        _ => {},
    }
}

/// The failure to attach a device to a machine that does not run counts for
/// nothing but that the work is put off; to one that runs it is a failure.
pub proof fn law_stopped_machines_are_no_failure(
    look: BatchLook,
    manager: &mut DeviceManager,
    runs: bool,
    step: BatchStep,
)
    requires
        call_ensures(BatchLook::looked, (look, manager, runs), step),
        look.batch.left@.len() == 0,
        look.batch.failures@.len() == 0,
    ensures
        !runs ==> final(manager).deferred && (step matches BatchStep::Finished(end)
            && end is Ok),
        runs ==> final(manager).deferred == old(manager).deferred && (
        step matches BatchStep::Finished(end) && end is Err && (end->Err_0 matches Error::Several(
            lines,
        ) && lines@.len() == 1 && lines@[0]@ == look.name@ + ": "@ + look.error.text())),
        final(manager).state == old(manager).state,
{
    assert(views(look.batch.failures@).len() == 0);
    match step {
        BatchStep::Finished(Err(Error::Several(lines))) => {
            assert(views(lines@).len() == lines@.len());
            if lines@.len() > 0 {
                assert(views(lines@)[0] == lines@[0]@);
            }
        },
        _ => {},
    }
}

/// A pass settles the drivers, notices what came and went, brings the PCI
/// devices and then the USB devices back. It forgets at its start what was put
/// off, goes on to the USB devices whatever came of the PCI devices, and
/// succeeds exactly where both did.
pub proof fn law_pass_goes_over_all(
    manager: &mut DeviceManager,
    start: PassStep,
    gate: PassGate,
    two: PassStep,
    observe: PassObserve,
    seen: Result<(), Error>,
    three: PassStep,
    pci: PassPci,
    first: Result<(), Error>,
    four: PassStep,
    usb: PassUsb,
    second: Result<(), Error>,
    end: PassStep,
)
    requires
        call_ensures(DeviceManager::reconcile, (manager,), start),
        call_ensures(PassGate::settled, (gate,), two),
        call_ensures(PassObserve::observed, (observe, seen), three),
        call_ensures(PassPci::resumed, (pci, first), four),
        call_ensures(PassUsb::resumed, (usb, second), end),
    ensures
        start is Gate && !final(manager).deferred && final(manager).state == old(manager).state,
        two is Observe,
        seen is Ok ==> three is ResumePci,
        seen is Err ==> three == PassStep::Finished(Err(seen->Err_0)),
        four matches PassStep::ResumeUsb(next) && next.pci == first,
        end matches PassStep::Finished(outcome) && (outcome is Ok <==> usb.pci is Ok
            && second is Ok),
        usb.pci is Err && second is Err ==> (end matches PassStep::Finished(outcome) && (
        outcome->Err_0 matches Error::Several(lines) && lines@.len() == 2 && begins(
            lines@[0]@,
            "PCI"@,
        ) && begins(lines@[1]@, "USB"@))),
{
    if usb.pci is Err && second is Err {
        let all = pass_failures(usb.pci, second);
        match end {
            PassStep::Finished(Err(Error::Several(lines))) => {
                assert(views(lines@).len() == lines@.len());
                assert(views(lines@)[0] == lines@[0]@);
                assert(views(lines@)[1] == lines@[1]@);
                assert(lines@[0]@.take("PCI"@.len() as int) =~= "PCI"@);
                assert(lines@[1]@.take("USB"@.len() as int) =~= "USB"@);
            },
            _ => {},
        }
    }
}

/// The work goes on as it was asked for: it is kept, no failure is noted before
/// a device was tried, and only a device that comes back is looked for on its
/// machine when it fails.
pub proof fn law_work_is_kept(
    manager: &DeviceManager,
    usb: Vec<(UsbDevice, RuleMatch)>,
    pci: Vec<(PciDevice, RuleMatch)>,
    selector: &Selector,
    vm: Option<String>,
    step: BatchStep,
)
    requires
        call_ensures(DeviceManager::attach_usb, (manager, usb, selector, vm), step)
            || call_ensures(DeviceManager::attach_pci, (manager, pci, selector, vm), step),
    ensures
        step matches BatchStep::Attach { device, next, .. } ==> next.batch.work == (
        Work::Attach { vm }) && next.batch.failures@.len() == 0 && next.target is None
            && next.name@ == device.label(),
        step is Attach || step is Finished,
{
    match step {
        BatchStep::Attach { device, rule, vm: to, next } => {
            assert(views(next.batch.failures@).len() == next.batch.failures@.len());
        },
        _ => {},
    }
}

/// Taking devices away goes on as it was asked for, too, and no device is
/// looked for when that fails.
pub proof fn law_taking_away_is_kept(
    manager: &DeviceManager,
    usb: Vec<(UsbDevice, RuleMatch)>,
    pci: Vec<(PciDevice, RuleMatch)>,
    selector: &Selector,
    permanent: bool,
    step: BatchStep,
)
    requires
        call_ensures(DeviceManager::detach_usb, (manager, usb, selector, permanent), step)
            || call_ensures(DeviceManager::detach_pci, (manager, pci, selector, permanent), step),
    ensures
        step matches BatchStep::Detach { device, next, .. } ==> next.batch.work == (
        Work::Detach { permanent }) && next.batch.failures@.len() == 0 && next.target is None
            && next.name@ == device.label(),
        step is Detach || step is Finished,
{
    match step {
        BatchStep::Detach { device, rule, permanent: parts, next } => {
            assert(views(next.batch.failures@).len() == next.batch.failures@.len());
        },
        _ => {},
    }
}

/// A suspension stays one, over the same machine, for all of its devices.
pub proof fn law_suspension_is_kept(
    manager: &DeviceManager,
    usb: Vec<(UsbDevice, RuleMatch)>,
    pci: Vec<(PciDevice, RuleMatch)>,
    vm: Option<String>,
    one: BatchStep,
    other: BatchStep,
)
    requires
        call_ensures(DeviceManager::suspend_usb, (manager, usb, vm), one),
        call_ensures(DeviceManager::suspend_pci, (manager, pci, vm), other),
    ensures
        one is Detach || one is Finished,
        other is Detach || other is Finished,
        one matches BatchStep::Detach { device, next, .. } ==> next.batch.work == (Work::Suspend {
            vm,
        }) && next.batch.failures@.len() == 0 && next.target is None && next.name@
            == device.label(),
        other matches BatchStep::Detach { device, next, .. } ==> next.batch.work == (
        Work::Suspend { vm }) && next.batch.failures@.len() == 0 && next.target is None
            && next.name@ == device.label(),
{
    let work = Work::Suspend { vm };
    let a = lemma_first_applies(*manager, work, usb_items(usb@), Seq::empty(), one);
    let b = lemma_first_applies(*manager, work, pci_items(pci@), Seq::empty(), other);
    match one {
        BatchStep::Detach { device, rule, permanent, next } => {
            assert(views(next.batch.failures@).len() == next.batch.failures@.len());
        },
        _ => {},
    }
    match other {
        BatchStep::Detach { device, rule, permanent, next } => {
            assert(views(next.batch.failures@).len() == next.batch.failures@.len());
        },
        _ => {},
    }
}

/// A resumption stays one, over the same machine, for all of its devices. The
/// machine that a device comes back to is known where its rule names it.
pub proof fn law_resumption_is_kept(
    manager: &DeviceManager,
    usb: Vec<(UsbDevice, RuleMatch)>,
    pci: Vec<(PciDevice, RuleMatch)>,
    vm: Option<String>,
    one: BatchStep,
    other: BatchStep,
)
    requires
        call_ensures(DeviceManager::resume_usb, (manager, usb, vm), one),
        call_ensures(DeviceManager::resume_pci, (manager, pci, vm), other),
    ensures
        one is Attach || one is Finished,
        other is Attach || other is Finished,
        one matches BatchStep::Attach { device, rule, vm: to, next } ==> next.batch.work == (
        Work::Resume { vm }) && next.batch.failures@.len() == 0 && next.name@ == device.label() && (
        to is Some ==> next.target is Some && next.target->0@ == to->0@) && (to is None
            && rule.allowed_vms@.len() != 1 ==> next.target is None) && (to is None
            && rule.allowed_vms@.len() == 1 && rule.target_vm is None ==> next.target is None
            || next.target->0@ == rule.allowed_vms@[0]@),
        other matches BatchStep::Attach { device, rule, vm: to, next } ==> next.batch.work == (
        Work::Resume { vm }) && next.batch.failures@.len() == 0 && next.name@ == device.label()
            && to is Some && next.target is Some && next.target->0@ == to->0@,
{
    let work = Work::Resume { vm };
    let a = lemma_first_applies(*manager, work, usb_items(usb@), Seq::empty(), one);
    let b = lemma_first_applies(*manager, work, pci_items(pci@), Seq::empty(), other);
    match one {
        BatchStep::Attach { device, rule, vm: to, next } => {
            assert(views(next.batch.failures@).len() == next.batch.failures@.len());
        },
        _ => {},
    }
    match other {
        BatchStep::Attach { device, rule, vm: to, next } => {
            assert(views(next.batch.failures@).len() == next.batch.failures@.len());
        },
        _ => {},
    }
}

} // verus!
