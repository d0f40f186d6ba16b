//! Whole requests and passes, with a host that answers as it is told to.

use std::collections::{HashMap, VecDeque};

use ghaf_device_manager::api::{handle, Operation};
use ghaf_device_manager::batch::{BatchStep, Device, PassStep};
use ghaf_device_manager::config::{General, RuleMatch, Vm};
use ghaf_device_manager::crosvm::{
    bind_vfio, command, command_args, parse_usb_detach, parse_usb_list, parse_vfio_list,
    usb_attach_args, usb_detach_args, usb_list_args, vfio_list_args, BindStep, Output,
    UsbAttachStep, UsbAttaching, VfioChange, VfioStep,
};
use ghaf_device_manager::device::{
    iommu_group, scan_pci, scan_usb, InterfaceSource, PciDevice, PciSource, UsbDevice, UsbSource,
};
use ghaf_device_manager::error::Error;
use ghaf_device_manager::gate::{GateStep, ReopenStep};
use ghaf_device_manager::json::Value;
use ghaf_device_manager::manager::pci_devices;
use ghaf_device_manager::observe::{observe, ObserveStep};
use ghaf_device_manager::pci::{
    attach_one_pci, detach_one_pci, PciAttachStep, PciDetachStep,
};
use ghaf_device_manager::protocol::{Event, PciListDevice, UsbListDevice};
use ghaf_device_manager::state::PersistentState;
use ghaf_device_manager::table::StringMap;
use ghaf_device_manager::usb_attach::{attach_one_usb, AttachStep};
use ghaf_device_manager::usb_detach::{detach_one_usb, DetachStep, Look};
use ghaf_device_manager::usb_gate::{Place, SysfsWrite};
use ghaf_device_manager::vmm::{EvdevDevice, VmmStep};
use ghaf_device_manager::{Action, Config, DeviceManager, Selector, UsbSelector};

fn convert(value: serde_json::Value) -> Value {
    match value {
        serde_json::Value::Null => Value::Null,
        serde_json::Value::Bool(b) => Value::Bool(b),
        serde_json::Value::Number(n) => Value::Number(n.as_u64()),
        serde_json::Value::String(s) => Value::Text(s),
        serde_json::Value::Array(items) => Value::Array(items.into_iter().map(convert).collect()),
        serde_json::Value::Object(members) => {
            Value::Object(members.into_iter().map(|(k, v)| (k, convert(v))).collect())
        }
    }
}

fn rules(text: &str) -> Vec<Value> {
    match convert(serde_json::from_str(text).unwrap()) {
        Value::Array(items) => items,
        _ => panic!("rules are a list"),
    }
}

#[derive(Clone, Debug, PartialEq)]
struct Note {
    event: &'static str,
    device: Option<String>,
    vm: Option<String>,
    allowed_vms: Vec<String>,
}

fn note(event: Event, device: Option<String>, vm: Option<String>) -> Note {
    Note { event: event.name(), device, vm, allowed_vms: Vec::new() }
}

/// A host with devices, machines that answer commands, and a record of what
/// was done.
struct Host {
    manager: DeviceManager,
    usb: Vec<UsbSource>,
    interfaces: Vec<InterfaceSource>,
    pci: Vec<PciSource>,
    groups: HashMap<String, Vec<String>>,
    sockets: HashMap<String, String>,
    outputs: VecDeque<Output>,
    calls: Vec<Vec<String>>,
    notes: Vec<Note>,
    drivers: HashMap<String, String>,
    pci_drivers: HashMap<String, String>,
    autoprobe: Option<String>,
    writes: Vec<(String, String)>,
    saves: usize,
    warnings: usize,
    inputs: Vec<EvdevDevice>,
}

fn ok(stdout: &str) -> Output {
    Output { status: 0, stdout: stdout.into(), stderr: String::new() }
}

impl Host {
    fn new(config: Config) -> Host {
        Host {
            manager: DeviceManager::new(config, None).unwrap(),
            usb: Vec::new(),
            interfaces: Vec::new(),
            pci: Vec::new(),
            groups: HashMap::new(),
            sockets: HashMap::new(),
            outputs: VecDeque::new(),
            calls: Vec::new(),
            notes: Vec::new(),
            drivers: HashMap::new(),
            pci_drivers: HashMap::new(),
            autoprobe: None,
            writes: Vec::new(),
            saves: 0,
            warnings: 0,
            inputs: Vec::new(),
        }
    }

    fn with_fixtures(config: Config) -> Host {
        let mut host = Host::new(config);
        host.usb.push(usb_fixture());
        host.interfaces.push(interface_fixture());
        host.pci.push(pci_fixture());
        host
    }

    fn script(&mut self, answers: &[&str]) {
        for answer in answers {
            self.outputs.push_back(ok(answer));
        }
    }

    fn run(&mut self, args: Vec<String>) -> Result<String, Error> {
        let full = command_args(&args);
        self.calls.push(full.clone());
        match self.outputs.pop_front() {
            Some(output) => command(args, output),
            None => Err(Error::Outside(format!("unexpected command: {full:?}"))),
        }
    }

    fn usb_list(&mut self, socket: &str) -> Result<Vec<(u8, String, String)>, Error> {
        parse_usb_list(&self.run(usb_list_args(socket))?)
    }

    fn usb_attach(&mut self, socket: &str, node: &str) -> Result<u8, Error> {
        let before = self.usb_list(socket)?;
        let mut task = UsbAttaching::new(&before);
        loop {
            let output = self.run(usb_attach_args(socket, node))?;
            match task.answered(&output) {
                UsbAttachStep::Attached(port) => return Ok(port),
                UsbAttachStep::Identify(task) => {
                    let after = self.usb_list(socket)?;
                    return task.listed(&after);
                }
                UsbAttachStep::Wait(next) => task = next,
                UsbAttachStep::Failed(error) => return Err(error),
            }
        }
    }

    fn usb_detach(&mut self, socket: &str, port: u8) -> Result<(), Error> {
        parse_usb_detach(&self.run(usb_detach_args(socket, port))?)
    }

    fn vfio_list(&mut self, socket: &str) -> Result<Vec<String>, Error> {
        parse_vfio_list(&self.run(vfio_list_args(socket))?)
    }

    fn vfio_change(&mut self, socket: &str, change: VfioChange) -> Result<(), Error> {
        let live = self.vfio_list(socket)?;
        if !change.needed(&live) {
            return Ok(());
        }
        self.run(change.args(socket))?;
        let mut change = change;
        loop {
            let live = self.vfio_list(socket)?;
            match change.listed(&live) {
                VfioStep::Done => return Ok(()),
                VfioStep::Wait(next) => change = next,
                VfioStep::Failed(error) => return Err(error),
            }
        }
    }

    fn entries(&self) -> Vec<String> {
        let devices = self.usb.iter().map(|source| source.sys_name.clone());
        let interfaces = self.interfaces.iter().map(|source| source.name.clone());
        devices.chain(interfaces).collect()
    }

    fn scan(&self) -> Vec<UsbDevice> {
        scan_usb(&self.usb, &self.interfaces)
    }

    fn usb_devices(&self) -> Vec<(UsbDevice, RuleMatch)> {
        self.manager.usb_devices(self.scan())
    }

    fn group(&self, address: &str) -> Vec<String> {
        iommu_group(self.groups.get(address).cloned())
    }

    fn pci_devices(&self) -> Vec<(PciDevice, RuleMatch)> {
        let candidates = self.manager.pci_candidates(scan_pci(&self.pci));
        let sized = candidates
            .into_iter()
            .map(|(device, rule)| {
                let size = self.group(&device.address).len();
                (device, rule, size)
            })
            .collect();
        pci_devices(sized)
    }

    fn write(&mut self, write: &SysfsWrite) -> bool {
        let place = match write.place {
            Place::Bus => "bus/",
            Place::Devices => "devices/",
        };
        self.writes.push((format!("{place}{}", write.path), write.value.clone()));
        if write.path == "drivers_autoprobe" {
            self.autoprobe = Some(write.value.clone());
        }
        if write.path.ends_with("/driver/unbind") {
            self.drivers.remove(&write.value);
        }
        if write.path == "drivers_probe" {
            self.drivers.insert(write.value.clone(), "usb".into());
        }
        true
    }

    fn save(&mut self) -> Result<(), Error> {
        self.saves += 1;
        self.manager.state.save(true, Some("state.json")).map(|_| ())
    }

    fn bind(&mut self, address: &str) -> Result<(), Error> {
        let driver = self.pci_drivers.get(address).cloned();
        for step in bind_vfio(address, driver.as_deref(), true) {
            match step {
                BindStep::Write { write, .. } => {
                    self.write(&write);
                }
                BindStep::Fail(error) => return Err(error),
            }
        }
        self.pci_drivers.insert(address.into(), "vfio-pci".into());
        Ok(())
    }

    fn attach_usb_device(
        &mut self,
        device: &UsbDevice,
        rule: &RuleMatch,
        vm: Option<&str>,
    ) -> Result<(), Error> {
        let has_bus = self.autoprobe.is_some();
        let mut step = attach_one_usb(&mut self.manager, device, rule, vm, has_bus);
        loop {
            let event = step.event();
            step = match step {
                AttachStep::Undecided { notify } => {
                    assert_eq!(event.is_some(), notify);
                    if let Some(event) = event {
                        let mut told = note(event, Some(device.sys_name.clone()), None);
                        told.allowed_vms = rule.allowed_vms.clone();
                        self.notes.push(told);
                    }
                    return Ok(());
                }
                AttachStep::Detach(next) => {
                    let outcome = self.detach_usb_device(device, false);
                    next.detached(outcome)
                }
                AttachStep::ReadDeviceDriver(next) => {
                    next.driver(&self.drivers.get(&device.sys_name).cloned())
                }
                AttachStep::Configure { write, next } => {
                    let done = self.write(&write);
                    next.configured(done)
                }
                AttachStep::ListInterfaces(next) => next.listed(Some(self.entries())),
                AttachStep::ReadDriver { interface, next } => {
                    let driver = self.drivers.get(&interface).cloned();
                    next.driver(&mut self.manager, &driver)
                }
                AttachStep::Release { write, next } => {
                    let done = self.write(&write);
                    next.released(done)
                }
                AttachStep::Hub { report } => {
                    if report {
                        self.warnings += 1;
                    }
                    return Ok(());
                }
                AttachStep::Inspect(next) => {
                    let socket = next.task.socket.clone();
                    let generation = self.sockets.get(&socket).cloned().unwrap_or_default();
                    let live = self.usb_list(&socket);
                    next.inspected(&mut self.manager, generation, live)
                }
                AttachStep::Attach(next) => {
                    let socket = next.task.socket.clone();
                    let node = next.task.target.node.clone();
                    let port = self.usb_attach(&socket, &node);
                    next.attached(&mut self.manager, port)
                }
                AttachStep::FreePort { port, next } => {
                    let socket = next.commit.task.socket.clone();
                    let outcome = self.usb_detach(&socket, port);
                    next.freed(&mut self.manager, outcome)
                }
                AttachStep::SaveVm(next) => {
                    let outcome = self.save();
                    next.saved(&mut self.manager, outcome)
                }
                AttachStep::SaveConnected(next) => {
                    let outcome = self.save();
                    next.saved(&mut self.manager, outcome)
                }
                AttachStep::SavePort(next) => {
                    let outcome = self.save();
                    next.saved(&mut self.manager, outcome)
                }
                AttachStep::Done { notify, vm } => {
                    assert_eq!(event.is_some(), notify);
                    if let Some(event) = event {
                        self.notes.push(note(event, Some(device.sys_name.clone()), Some(vm)));
                    }
                    return Ok(());
                }
                AttachStep::Failed(error) => return Err(error),
            }
        }
    }

    fn detach_usb_device(&mut self, device: &UsbDevice, permanent: bool) -> Result<(), Error> {
        let mut step = detach_one_usb(&mut self.manager, device, permanent);
        loop {
            let event = step.event();
            step = match step {
                DetachStep::Look(next) => {
                    let socket = next.task.socket.clone();
                    let look = match self.sockets.get(&socket).cloned() {
                        Some(generation) => {
                            let live = self.usb_list(&socket);
                            Look::Running { generation, live }
                        }
                        None => Look::Stopped,
                    };
                    next.looked(look)
                }
                DetachStep::Detach { port, next } => {
                    let socket = next.task.socket.clone();
                    let outcome = self.usb_detach(&socket, port);
                    next.detached(outcome)
                }
                DetachStep::Notify(next) => {
                    self.notes.push(note(
                        event.unwrap(),
                        Some(next.task.clear.node.clone()),
                        Some(next.task.vm.clone()),
                    ));
                    next.notified(&mut self.manager)
                }
                DetachStep::Save(next) => {
                    let outcome = self.save();
                    next.saved(&mut self.manager, outcome)
                }
                DetachStep::Done => return Ok(()),
                DetachStep::Failed(error) => return Err(error),
            }
        }
    }

    fn attach_pci_device(
        &mut self,
        device: &PciDevice,
        rule: &RuleMatch,
        vm: Option<&str>,
    ) -> Result<(), Error> {
        let mut step = attach_one_pci(&self.manager.config, device, rule, vm);
        loop {
            let event = step.event();
            step = match step {
                PciAttachStep::List(next) => {
                    let socket = next.task.socket.clone();
                    let live = self.vfio_list(&socket);
                    next.listed(live)
                }
                PciAttachStep::Group(next) => {
                    let group = self.group(&next.task.address);
                    next.grouped(&mut self.manager, Ok(group))
                }
                PciAttachStep::Bind { address, next } => {
                    let outcome = self.bind(&address);
                    next.bound(&mut self.manager, outcome)
                }
                PciAttachStep::Add { address, next } => {
                    let socket = next.addition.task.socket.clone();
                    let outcome = self.vfio_change(&socket, VfioChange::add(&address));
                    next.added(&mut self.manager, outcome.is_ok())
                }
                PciAttachStep::Save(next) => {
                    let outcome = self.save();
                    next.saved(outcome)
                }
                PciAttachStep::Done { notify, vm } => {
                    assert_eq!(event.is_some(), notify);
                    if let Some(event) = event {
                        self.notes.push(note(event, Some(device.address.clone()), Some(vm)));
                    }
                    return Ok(());
                }
                PciAttachStep::Failed(error) => return Err(error),
            }
        }
    }

    fn detach_pci_device(
        &mut self,
        device: &PciDevice,
        rule: &RuleMatch,
        permanent: bool,
    ) -> Result<(), Error> {
        let mut step = detach_one_pci(&mut self.manager, device, rule, permanent);
        loop {
            let event = step.event();
            step = match step {
                PciDetachStep::Group(next) => {
                    let group = self.group(&next.task.address);
                    next.grouped(Ok(group))
                }
                PciDetachStep::Look(next) => {
                    let exists = self.sockets.contains_key(&next.task.socket);
                    next.looked(&mut self.manager, exists)
                }
                PciDetachStep::Remove { address, next } => {
                    let socket = next.task.socket.clone();
                    let outcome = self.vfio_change(&socket, VfioChange::remove(&address));
                    next.removed(&mut self.manager, outcome)
                }
                PciDetachStep::Notify(next) => {
                    self.notes.push(note(
                        event.unwrap(),
                        Some(device.address.clone()),
                        Some(next.task.vm.clone()),
                    ));
                    next.notified(&mut self.manager)
                }
                PciDetachStep::Save(next) => {
                    let outcome = self.save();
                    next.saved(outcome)
                }
                PciDetachStep::Done => return Ok(()),
                PciDetachStep::Failed(error) => return Err(error),
            }
        }
    }

    fn work(&mut self, step: BatchStep) -> Result<(), Error> {
        let mut step = step;
        loop {
            step = match step {
                BatchStep::Attach { device, rule, vm, next } => {
                    let outcome = match &device {
                        Device::Usb(device) => self.attach_usb_device(device, &rule, vm.as_deref()),
                        Device::Pci(device) => self.attach_pci_device(device, &rule, vm.as_deref()),
                    };
                    next.done(&self.manager, outcome)
                }
                BatchStep::Detach { device, rule, permanent, next } => {
                    let outcome = match &device {
                        Device::Usb(device) => self.detach_usb_device(device, permanent),
                        Device::Pci(device) => self.detach_pci_device(device, &rule, permanent),
                    };
                    next.done(&self.manager, outcome)
                }
                BatchStep::Look { socket, next } => {
                    let exists = self.sockets.contains_key(&socket);
                    next.looked(&mut self.manager, exists)
                }
                BatchStep::Finished(outcome) => return outcome,
            }
        }
    }

    fn look_around(&mut self) -> Result<(), Error> {
        let usb = self.usb_devices().into_iter().map(|(device, _)| device).collect();
        let pci = self.pci_devices().into_iter().map(|(device, _)| device).collect();
        let mut step = observe(&self.manager, usb, pci);
        loop {
            let event = step.event();
            step = match step {
                ObserveStep::AnnounceUsb { places, next } => {
                    for place in places {
                        let name = next.task.usb[place].sys_name.clone();
                        self.notes.push(note(event.unwrap(), Some(name), None));
                    }
                    next.announced(&mut self.manager)
                }
                ObserveStep::Look { socket, next } => {
                    let generation = self.sockets.get(&socket).cloned();
                    next.looked(&self.manager, generation)
                }
                ObserveStep::ListUsb { socket, next } => {
                    let live = self.usb_list(&socket);
                    next.listed(&self.manager, live)
                }
                ObserveStep::FreePort { socket, port, next } => {
                    let outcome = self.usb_detach(&socket, port);
                    next.freed(&self.manager, outcome)
                }
                ObserveStep::Lost { node, next } => {
                    self.notes.push(note(event.unwrap(), node, None));
                    next.announced(&mut self.manager)
                }
                ObserveStep::Save(next) => {
                    let outcome = self.save();
                    next.saved(&mut self.manager, outcome)
                }
                ObserveStep::AnnouncePci { places, next } => {
                    for place in places {
                        let name = next.pci[place].address.clone();
                        self.notes.push(note(event.unwrap(), Some(name), None));
                    }
                    next.announced(&mut self.manager)
                }
                ObserveStep::LostPci { address, next } => {
                    self.notes.push(note(event.unwrap(), Some(address), None));
                    next.announced(&mut self.manager)
                }
                ObserveStep::Done => return Ok(()),
                ObserveStep::Failed(error) => return Err(error),
            }
        }
    }

    fn gate(&mut self) -> Result<(), Error> {
        let mut step = self.manager.apply_usb_gate(self.autoprobe.is_some());
        loop {
            step = match step {
                GateStep::Close { write, next } => {
                    self.write(&write);
                    next.closed(Ok(()))
                }
                GateStep::ListDevices(next) => next.listed(Ok(self.entries())),
                GateStep::ReadDeviceDriver { name, next } => {
                    next.driver(&self.drivers.get(&name).cloned())
                }
                GateStep::Probe { write, next } => {
                    self.write(&write);
                    next.tried()
                }
                GateStep::Scan(next) => {
                    let devices = self.scan();
                    next.scanned(&mut self.manager, Ok(devices))
                }
                GateStep::ListAgain(next) => next.listed(Ok(self.entries())),
                GateStep::ListInterfaces { next, .. } => next.listed(Some(self.entries())),
                GateStep::ReadDriver { name, next } => {
                    next.driver(&self.drivers.get(&name).cloned())
                }
                GateStep::Write { write, next } => {
                    self.write(&write);
                    next.tried()
                }
                GateStep::Finished => return Ok(()),
                GateStep::Failed(error) => return Err(error),
            }
        }
    }

    fn reopen(&mut self) -> Result<(), Error> {
        let mut step = self.manager.open_usb_gate(self.autoprobe.is_some(), &self.autoprobe);
        loop {
            step = match step {
                ReopenStep::Scan(next) => next.scanned(&self.manager, Some(self.scan())),
                ReopenStep::Open { write, next } => {
                    self.write(&write);
                    next.opened(Ok(()))
                }
                ReopenStep::ListDevices(next) => next.listed(Ok(self.entries())),
                ReopenStep::ReadDriver { name, next } => {
                    next.driver(&self.drivers.get(&name).cloned())
                }
                ReopenStep::ListInterfaces { next, .. } => next.listed(Some(self.entries())),
                ReopenStep::Probe { write, next } => {
                    self.write(&write);
                    next.tried()
                }
                ReopenStep::Finished => return Ok(()),
                ReopenStep::Failed(error) => return Err(error),
            }
        }
    }

    fn reconcile(&mut self) -> Result<(), Error> {
        let mut step = self.manager.reconcile();
        loop {
            step = match step {
                PassStep::Gate(next) => {
                    if self.gate().is_err() {
                        self.warnings += 1;
                    }
                    next.settled()
                }
                PassStep::Observe(next) => {
                    let outcome = self.look_around();
                    next.observed(outcome)
                }
                PassStep::ResumePci(next) => {
                    let start = self.manager.resume_pci(self.pci_devices(), None);
                    let outcome = self.work(start);
                    next.resumed(outcome)
                }
                PassStep::ResumeUsb(next) => {
                    let start = self.manager.resume_usb(self.usb_devices(), None);
                    let outcome = self.work(start);
                    next.resumed(outcome)
                }
                PassStep::Finished(outcome) => return outcome,
            }
        }
    }

    fn vmm_args(&mut self, vm: &str, require_pci: bool) -> Result<Vec<String>, Error> {
        let mut step = self.manager.vmm_args(self.pci_devices(), vm, require_pci);
        loop {
            step = match step {
                VmmStep::Group { address, next } => next.grouped(Ok(self.group(&address))),
                VmmStep::Bind { address, next } => {
                    let outcome = self.bind(&address);
                    next.bound(outcome)
                }
                VmmStep::Acpi { table, next } => next.checked(Ok(table.table != "/absent")),
                VmmStep::Evdev(next) => {
                    let inputs = std::mem::take(&mut self.inputs);
                    next.found(&self.manager, Ok(inputs))
                }
                VmmStep::Done(args) => return Ok(args),
                VmmStep::Failed(error) => return Err(error),
            }
        }
    }

    fn attach_calls(&self) -> usize {
        self.calls.iter().filter(|args| args[1..3] == ["usb", "attach"]).count()
    }

    fn take_notes(&mut self) -> Vec<Note> {
        std::mem::take(&mut self.notes)
    }
}

fn usb_fixture() -> UsbSource {
    UsbSource {
        sys_name: "1-2.3".into(),
        has_vendor: true,
        has_bus: true,
        backs_host_storage: false,
        busnum: Some("1\n".into()),
        devnum: Some("4\n".into()),
        id_vendor: Some("046d\n".into()),
        id_product: Some("c52b\n".into()),
        manufacturer: Some("Logitech\n".into()),
        product: Some("USB Receiver\n".into()),
        serial: None,
        removable: Some("removable\n".into()),
        device_class: Some("00\n".into()),
        device_subclass: Some("00\n".into()),
        device_protocol: Some("00\n".into()),
        hwdb_vendor: None,
        hwdb_product: None,
    }
}

fn interface_fixture() -> InterfaceSource {
    InterfaceSource {
        name: "1-2.3:1.0".into(),
        class: Some("03\n".into()),
        subclass: Some("01\n".into()),
        protocol: Some("02\n".into()),
        driver: None,
        modalias: None,
    }
}

fn pci_fixture() -> PciSource {
    PciSource {
        address: "0000:00:1f.3".into(),
        driver: None,
        vendor: Some("0x8086\n".into()),
        device: Some("0x51ca\n".into()),
        class: Some("0x040100\n".into()),
        subsystem_vendor: Some("0x1028\n".into()),
        subsystem_device: Some("0x0b00\n".into()),
    }
}

fn sibling_fixture() -> PciSource {
    PciSource {
        address: "0000:00:1f.0".into(),
        driver: None,
        vendor: Some("0x8086\n".into()),
        device: Some("0x5182\n".into()),
        class: Some("0x060100\n".into()),
        subsystem_vendor: Some("0x17aa\n".into()),
        subsystem_device: Some("0x2315\n".into()),
    }
}

const USB_RULES: &str = r#"[{
    "allowedVms": ["gui-vm", "admin-vm"],
    "tag": "input",
    "allow": [{"vendorId": "046d", "productId": "c52b"}]
}]"#;

const TARGET_RULES: &str = r#"[{
    "allowedVms": ["gui-vm", "admin-vm"],
    "targetVm": "gui-vm",
    "tag": "input",
    "allow": [{"vendorId": "046d", "productId": "c52b"}]
}]"#;

const PCI_RULES: &str = r#"[{
    "targetVm": "audio-vm",
    "tag": "audio",
    "allow": [{"address": "0000:00:1f.3"}]
}]"#;

fn vm(name: &str) -> Vm {
    Vm { name: name.into(), vm_type: "crosvm".into(), socket: "/run/vm.sock".into() }
}

fn config(usb: &str, pci: &str) -> Config {
    Config::new(
        rules(usb),
        rules(pci),
        Vec::new(),
        Vec::new(),
        vec![vm("gui-vm"), vm("admin-vm"), vm("audio-vm")],
        General::default(),
    )
}

fn default_config() -> Config {
    config(USB_RULES, PCI_RULES)
}

fn usb_list(host: &Host, disconnected: Option<bool>, tag: Option<&str>) -> Vec<UsbListDevice> {
    host.manager.usb_list(host.usb_devices(), disconnected, tag)
}

fn pci_list(host: &Host, disconnected: Option<bool>, tag: Option<&str>) -> Vec<PciListDevice> {
    host.manager.pci_list(host.pci_devices(), disconnected, tag)
}

#[test]
fn usb_list_preserves_widget_fields() {
    let host = Host::with_fixtures(default_config());
    let operation = handle(Action::UsbList { disconnected: None, tag: None });
    assert!(matches!(operation, Operation::UsbList { disconnected: None, tag: None }));
    let list = usb_list(&host, None, None);
    assert_eq!(list.len(), 1);
    let entry = &list[0];
    assert_eq!(entry.device.device_node.as_deref(), Some("/dev/bus/usb/001/004"));
    assert_eq!(entry.device.product_name.as_deref(), Some("USB Receiver"));
    assert_eq!(entry.allowed_vms, ["gui-vm", "admin-vm"]);
    assert!(entry.vm.is_none());
    assert_eq!(entry.device.root_port, Some(2));
}

#[test]
fn pci_list_preserves_cli_fields_and_tag_filter() {
    let host = Host::with_fixtures(default_config());
    let list = pci_list(&host, None, Some("audio"));
    assert_eq!(list.len(), 1);
    let entry = &list[0];
    assert_eq!(entry.device.address, "0000:00:1f.3");
    assert_eq!(entry.device.vendor_id_text.as_deref(), Some("8086"));
    assert_eq!(entry.device.device_id_text.as_deref(), Some("51ca"));
    assert_eq!(entry.device.class, Some(4));
    assert_eq!(entry.allowed_vms, ["audio-vm"]);
    assert!(pci_list(&host, None, Some("video")).is_empty());
    assert!(pci_list(&host, Some(true), None).is_empty());
    assert_eq!(pci_list(&host, Some(false), None).len(), 1);
}

#[test]
fn reconciliation_defers_instead_of_failing_when_the_vm_is_not_running() {
    // No control socket exists, so the machine is not running.
    let mut host = Host::with_fixtures(default_config());
    host.reconcile().unwrap();
    assert!(host.manager.deferred());
}

#[test]
fn reconciliation_still_fails_when_the_vm_is_running() {
    let mut host = Host::with_fixtures(default_config());
    host.sockets.insert("/run/vm.sock".into(), "vm generation".into());
    let error = host.reconcile().unwrap_err();
    assert_eq!(error.message(), "PCI: 0000:00:1f.3: VFIO hotplug preflight failed");
    assert!(!host.manager.deferred());
}

#[test]
fn vmm_args_include_crosvm_hotplug_contract() {
    let mut host = Host::with_fixtures(default_config());
    assert_eq!(
        host.vmm_args("audio-vm", true).unwrap(),
        vec![
            "--vfio-isolate-hotplug",
            "--vfio",
            "/sys/bus/pci/devices/0000:00:1f.3,iommu=viommu,removable=true",
        ]
    );
    let expected = ("devices/0000:00:1f.3/driver_override".to_owned(), "vfio-pci".to_owned());
    assert!(host.writes.contains(&expected));
}

#[test]
fn vmm_args_include_all_requested_iommu_group_members() {
    let pci = PCI_RULES.replace("\"tag\"", "\"pciIommuAddAll\": true, \"tag\"");
    let mut host = Host::with_fixtures(config(USB_RULES, &pci));
    host.pci.push(sibling_fixture());
    let group = vec!["0000:00:1f.3".to_owned(), "0000:00:1f.0".to_owned()];
    host.groups.insert("0000:00:1f.3".into(), group.clone());
    host.groups.insert("0000:00:1f.0".into(), group);
    assert_eq!(
        host.vmm_args("audio-vm", true).unwrap(),
        vec![
            "--vfio-isolate-hotplug",
            "--vfio",
            "/sys/bus/pci/devices/0000:00:1f.0,iommu=viommu,removable=true",
            "--vfio",
            "/sys/bus/pci/devices/0000:00:1f.3,iommu=viommu,removable=true",
        ]
    );
}

#[test]
fn qemu_vm_is_rejected() {
    let config = Config::new(
        Vec::new(),
        Vec::new(),
        Vec::new(),
        Vec::new(),
        vec![Vm {
            name: "gui-vm".into(),
            vm_type: "qemu".into(),
            socket: "/run/qemu.sock".into(),
        }],
        General::default(),
    );
    assert_eq!(
        config.validate().unwrap_err().message(),
        "ghaf-device-manager supports only Crosvm VMs"
    );
}

#[test]
fn multi_vm_usb_requests_a_selection_without_running_crosvm() {
    let mut host = Host::with_fixtures(default_config());
    let start = host.manager.resume_usb(host.usb_devices(), None);
    host.work(start).unwrap();
    let notes = host.take_notes();
    assert_eq!(notes.len(), 1);
    assert_eq!(notes[0].event, "usb_select_vm");
    assert_eq!(notes[0].allowed_vms, ["gui-vm", "admin-vm"]);
    let start = host.manager.resume_usb(host.usb_devices(), None);
    host.work(start).unwrap();
    assert!(host.take_notes().is_empty());
    assert!(host.calls.is_empty());
}

#[test]
fn selected_usb_attach_completes_and_updates_legacy_list_fields() {
    let mut host = Host::with_fixtures(default_config());
    host.script(&["devices", "devices", "ok 3"]);
    let selector = Selector {
        vid: Some("046d".into()),
        pid: Some("c52b".into()),
        ..Default::default()
    };
    let start = host.manager.attach_usb(host.usb_devices(), &selector, Some("gui-vm".into()));
    host.work(start).unwrap();
    let list = usb_list(&host, Some(false), None);
    assert_eq!(list[0].vm.as_deref(), Some("gui-vm"));
    let state = &host.manager.state.persistent;
    assert_eq!(state.selected_vms.keys(), ["usb-046d:c52b:None"]);
    assert_eq!(state.selected_vms.get("usb-046d:c52b:None").unwrap(), "gui-vm");
    assert!(state.disconnected_devices.is_empty());
    assert_eq!(state.crosvm_usb_ports.keys(), ["1-2.3"]);
    let binding = state.crosvm_usb_ports.get("1-2.3").unwrap();
    assert_eq!(binding.vm, "gui-vm");
    assert_eq!(binding.port, 3);
    assert_eq!(binding.socket_generation, "");
    assert_eq!(binding.vid.as_deref(), Some("046d"));
    assert_eq!(binding.pid.as_deref(), Some("c52b"));
    assert_eq!(binding.serial, None);
    assert_eq!(host.saves, 3);
    assert!(host.outputs.is_empty());
}

#[test]
fn reconciliation_reuses_live_binding_and_replaces_it_for_a_new_socket() {
    let mut host = Host::with_fixtures(config(TARGET_RULES, "[]"));
    host.sockets.insert("/run/vm.sock".into(), "first generation".into());
    host.script(&[
        "devices",
        "devices",
        "ok 3",
        "devices 3 046d c52b",
        "devices",
        "devices",
        "ok 4",
    ]);
    host.reconcile().unwrap();
    host.reconcile().unwrap();
    assert_eq!(host.attach_calls(), 1);
    let notes = host.take_notes();
    assert_eq!(notes.iter().filter(|note| note.event == "usb_attached").count(), 1);
    let first = host.manager.state.persistent.crosvm_usb_ports.get("1-2.3").unwrap().clone();
    assert_eq!(first.port, 3);
    assert_ne!(first.socket_generation, "");

    host.sockets.insert("/run/vm.sock".into(), "second generation".into());
    host.reconcile().unwrap();
    assert_eq!(host.attach_calls(), 2);
    let notes = host.take_notes();
    assert_eq!(notes.len(), 1);
    assert_eq!(notes[0].event, "usb_attached");
    assert!(host.outputs.is_empty());
    let second = host.manager.state.persistent.crosvm_usb_ports.get("1-2.3").unwrap();
    assert_eq!(second.port, 4);
    assert_ne!(second.socket_generation, first.socket_generation);
}

#[test]
fn reconciliation_detaches_replaced_usb_port_in_the_same_vm() {
    let mut host = Host::with_fixtures(config(TARGET_RULES, "[]"));
    host.sockets.insert("/run/vm.sock".into(), "one generation".into());
    host.script(&[
        "devices",
        "devices",
        "ok 3",
        "devices 3 046d c52b",
        "devices 3 046d c52b",
        "ok 4",
        "ok 3",
    ]);
    host.reconcile().unwrap();
    host.usb[0].serial = Some("000001\n".into());
    host.reconcile().unwrap();
    assert_eq!(host.attach_calls(), 2);
    assert!(host.calls.iter().any(|args| args[1..4] == ["usb", "detach", "3"]));
    assert!(host.outputs.is_empty());
    let binding = host.manager.state.persistent.crosvm_usb_ports.get("1-2.3").unwrap();
    assert_eq!(binding.port, 4);
    assert_eq!(binding.serial.as_deref(), Some("000001"));
}

#[test]
fn reconciliation_detaches_usb_port_before_reattaching_a_reenumerated_device() {
    let mut host = Host::with_fixtures(config(TARGET_RULES, "[]"));
    host.sockets.insert("/run/vm.sock".into(), "one generation".into());
    host.script(&[
        "devices",
        "devices",
        "ok 3",
        "devices 3 046d c52b",
        "ok 3",
        "devices",
        "devices",
        "ok 4",
    ]);
    host.reconcile().unwrap();
    host.usb.clear();
    host.interfaces.clear();
    host.reconcile().unwrap();
    host.usb.push(usb_fixture());
    host.interfaces.push(interface_fixture());
    host.reconcile().unwrap();
    let actions: Vec<&str> = host
        .calls
        .iter()
        .filter(|args| args[1] == "usb" && (args[2] == "attach" || args[2] == "detach"))
        .map(|args| args[2].as_str())
        .collect();
    assert_eq!(actions, ["attach", "detach", "attach"]);
    assert!(host.outputs.is_empty());
    let binding = host.manager.state.persistent.crosvm_usb_ports.get("1-2.3").unwrap();
    assert_eq!(binding.port, 4);
}

#[test]
fn reconciliation_does_not_repeat_unchanged_pci_attachment_notification() {
    let mut host = Host::with_fixtures(config("[]", PCI_RULES));
    host.script(&[
        "devices",
        "devices",
        "ok",
        "devices /sys/bus/pci/devices/0000:00:1f.3",
        "devices /sys/bus/pci/devices/0000:00:1f.3",
    ]);
    host.reconcile().unwrap();
    let notes = host.take_notes();
    assert_eq!(notes.iter().filter(|note| note.event == "pci_attached").count(), 1);
    host.reconcile().unwrap();
    assert!(host.take_notes().is_empty());
    let adds = host.calls.iter().filter(|args| args[1..3] == ["vfio", "add"]).count();
    assert_eq!(adds, 1);
    assert!(host.outputs.is_empty());
}

#[test]
fn a_device_moves_from_one_machine_to_another() {
    let mut host = Host::with_fixtures(default_config());
    host.sockets.insert("/run/vm.sock".into(), "one".into());
    host.script(&["devices", "devices", "ok 3"]);
    let selector = Selector { tag: Some("input".into()), ..Default::default() };
    let start = host.manager.attach_usb(host.usb_devices(), &selector, Some("gui-vm".into()));
    host.work(start).unwrap();
    host.take_notes();
    host.script(&["devices 3 046d c52b", "ok", "devices", "devices", "ok 5"]);
    let start = host.manager.attach_usb(host.usb_devices(), &selector, Some("admin-vm".into()));
    host.work(start).unwrap();
    let events: Vec<_> = host.take_notes().into_iter().map(|note| (note.event, note.vm)).collect();
    assert_eq!(
        events,
        [
            ("usb_detached", Some("gui-vm".to_owned())),
            ("usb_attached", Some("admin-vm".to_owned())),
        ]
    );
    assert_eq!(usb_list(&host, None, None)[0].vm.as_deref(), Some("admin-vm"));
    assert!(host.outputs.is_empty());
}

#[test]
fn a_machine_that_no_rule_allows_is_refused() {
    let mut host = Host::with_fixtures(default_config());
    let selector = Selector { tag: Some("input".into()), ..Default::default() };
    let start = host.manager.attach_usb(host.usb_devices(), &selector, Some("audio-vm".into()));
    assert_eq!(
        host.work(start).unwrap_err().message(),
        "1-2.3: VM audio-vm is not allowed for USB device 1-2.3"
    );
    let selector = Selector { address: Some("0000:00:1F.3".into()), ..Default::default() };
    let start = host.manager.attach_pci(host.pci_devices(), &selector, Some("gui-vm".into()));
    assert_eq!(
        host.work(start).unwrap_err().message(),
        "0000:00:1f.3: VM gui-vm is not allowed for PCI device 0000:00:1f.3"
    );
    assert!(host.calls.is_empty());
}

#[test]
fn a_request_that_fits_no_device_fails() {
    let mut host = Host::with_fixtures(default_config());
    let selector = Selector { tag: Some("other".into()), ..Default::default() };
    let start = host.manager.detach_usb(host.usb_devices(), &selector, true);
    assert_eq!(host.work(start).unwrap_err().message(), "no matching USB device found");
    let start = host.manager.detach_pci(host.pci_devices(), &selector, true);
    assert_eq!(host.work(start).unwrap_err().message(), "no matching PCI device found");
}

#[test]
fn a_detached_device_stays_away_until_it_is_attached_again() {
    let mut host = Host::with_fixtures(config(TARGET_RULES, "[]"));
    host.sockets.insert("/run/vm.sock".into(), "one".into());
    host.script(&["devices", "devices", "ok 3"]);
    host.reconcile().unwrap();
    host.script(&["devices 3 046d c52b", "ok"]);
    let selector = Selector { bus: Some(1), port: Some(2), ..Default::default() };
    let start = host.manager.detach_usb(host.usb_devices(), &selector, true);
    host.work(start).unwrap();
    assert!(usb_list(&host, None, None)[0].disconnected);
    host.take_notes();
    host.reconcile().unwrap();
    assert!(host.take_notes().is_empty());
    host.script(&["devices", "devices", "ok 6"]);
    let start = host.manager.attach_usb(host.usb_devices(), &selector, None);
    host.work(start).unwrap();
    assert!(!usb_list(&host, None, None)[0].disconnected);
    assert!(host.outputs.is_empty());
}

#[test]
fn suspend_and_resume_bring_a_device_back() {
    let mut host = Host::with_fixtures(config(TARGET_RULES, "[]"));
    host.sockets.insert("/run/vm.sock".into(), "one".into());
    host.script(&["devices", "devices", "ok 3"]);
    host.reconcile().unwrap();
    let start = host.manager.suspend_usb(host.usb_devices(), Some("admin-vm".into()));
    host.work(start).unwrap();
    assert_eq!(usb_list(&host, None, None)[0].vm.as_deref(), Some("gui-vm"));
    host.script(&["devices 3 046d c52b", "ok"]);
    let start = host.manager.suspend_usb(host.usb_devices(), Some("gui-vm".into()));
    host.work(start).unwrap();
    assert!(usb_list(&host, None, None)[0].vm.is_none());
    host.script(&["devices", "devices", "ok 3"]);
    let start = host.manager.resume_usb(host.usb_devices(), Some("gui-vm".into()));
    host.work(start).unwrap();
    assert_eq!(usb_list(&host, None, None)[0].vm.as_deref(), Some("gui-vm"));
    assert!(host.outputs.is_empty());
}

#[test]
fn a_rule_can_keep_a_device_through_suspend() {
    let usb = TARGET_RULES.replace("\"tag\"", "\"skipOnSuspend\": true, \"tag\"");
    let mut host = Host::with_fixtures(config(&usb, "[]"));
    host.sockets.insert("/run/vm.sock".into(), "one".into());
    host.script(&["devices", "devices", "ok 3"]);
    host.reconcile().unwrap();
    let start = host.manager.suspend_usb(host.usb_devices(), None);
    host.work(start).unwrap();
    assert_eq!(usb_list(&host, None, None)[0].vm.as_deref(), Some("gui-vm"));
}

#[test]
fn a_pci_device_is_suspended_and_resumed() {
    let mut host = Host::with_fixtures(config("[]", PCI_RULES));
    host.sockets.insert("/run/vm.sock".into(), "one".into());
    let present = "devices /sys/bus/pci/devices/0000:00:1f.3";
    host.script(&["devices", "devices", "ok", present]);
    host.reconcile().unwrap();
    assert_eq!(pci_list(&host, None, None)[0].vm.as_deref(), Some("audio-vm"));
    host.script(&[present, "ok", present, "devices"]);
    let start = host.manager.suspend_pci(host.pci_devices(), None);
    host.work(start).unwrap();
    assert!(pci_list(&host, None, None)[0].vm.is_none());
    host.script(&[present]);
    let start = host.manager.resume_pci(host.pci_devices(), Some("audio-vm".into()));
    host.work(start).unwrap();
    assert_eq!(pci_list(&host, None, None)[0].vm.as_deref(), Some("audio-vm"));
    assert!(host.outputs.is_empty());
}

#[test]
fn a_shared_group_is_refused_where_the_rule_says_so() {
    let pci = PCI_RULES.replace("\"tag\"", "\"pciIommuSkipIfShared\": true, \"tag\"");
    let mut host = Host::with_fixtures(config("[]", &pci));
    assert_eq!(host.pci_devices().len(), 1);
    let devices = host.pci_devices();
    let group = vec!["0000:00:1f.3".to_owned(), "0000:00:1f.0".to_owned()];
    host.groups.insert("0000:00:1f.3".into(), group);
    assert!(host.pci_devices().is_empty());
    host.script(&["devices"]);
    let (device, rule) = &devices[0];
    assert_eq!(
        host.attach_pci_device(device, rule, None).unwrap_err().message(),
        "IOMMU group for 0000:00:1f.3 is shared"
    );
    assert_eq!(
        host.vmm_args("audio-vm", true).unwrap_err().message(),
        "PCI passthrough is configured for VM audio-vm, but no matching devices are present"
    );
}

#[test]
fn a_device_that_crosvm_does_not_take_stays_quarantined() {
    let mut host = Host::with_fixtures(config("[]", PCI_RULES));
    host.script(&["devices", "devices"]);
    let devices = host.pci_devices();
    let (device, rule) = &devices[0];
    assert_eq!(
        host.attach_pci_device(device, rule, None).unwrap_err().message(),
        "failed to attach 0000:00:1f.3; its IOMMU group remains quarantined under vfio-pci"
    );
    assert_eq!(host.pci_drivers.get("0000:00:1f.3").unwrap(), "vfio-pci");
    assert!(pci_list(&host, None, None)[0].vm.is_none());
}

fn gated_host(usb: &str) -> Host {
    let mut host = Host::with_fixtures(config(usb, "[]"));
    host.autoprobe = Some("1".into());
    let mut other = usb_fixture();
    other.sys_name = "1-3".into();
    other.id_vendor = Some("1234\n".into());
    other.devnum = Some("5\n".into());
    host.usb.push(other);
    let mut interface = interface_fixture();
    interface.name = "1-3:1.0".into();
    host.interfaces.push(interface);
    host
}

#[test]
fn a_pass_takes_drivers_off_routed_devices_alone() {
    let mut host = gated_host(USB_RULES);
    host.drivers.insert("1-2.3".into(), "usb".into());
    host.drivers.insert("1-2.3:1.0".into(), "usbhid".into());
    host.gate().unwrap();
    assert_eq!(
        host.writes,
        [
            ("bus/drivers_autoprobe".to_owned(), "0".to_owned()),
            ("bus/drivers_probe".to_owned(), "1-3".to_owned()),
            ("devices/1-2.3:1.0/driver/unbind".to_owned(), "1-2.3:1.0".to_owned()),
            ("bus/drivers_probe".to_owned(), "1-3:1.0".to_owned()),
        ]
    );
    host.writes.clear();
    host.gate().unwrap();
    assert_eq!(host.writes, [("bus/drivers_autoprobe".to_owned(), "0".to_owned())]);
}

#[test]
fn a_pass_leaves_the_claim_of_a_machine_alone() {
    let mut host = gated_host(USB_RULES);
    for name in ["1-2.3", "1-3"] {
        host.drivers.insert(name.into(), "usb".into());
    }
    host.drivers.insert("1-2.3:1.0".into(), "usbfs".into());
    host.drivers.insert("1-3:1.0".into(), "uas".into());
    host.gate().unwrap();
    assert_eq!(host.writes, [("bus/drivers_autoprobe".to_owned(), "0".to_owned())]);
}

#[test]
fn a_disconnected_device_gets_its_driver_back() {
    let mut host = gated_host(TARGET_RULES);
    host.sockets.insert("/run/vm.sock".into(), "one".into());
    for name in ["1-2.3", "1-3", "1-3:1.0"] {
        host.drivers.insert(name.into(), "usb".into());
    }
    host.gate().unwrap();
    assert!(!host.drivers.contains_key("1-2.3:1.0"));
    let device = host.scan().remove(0);
    host.detach_usb_device(&device, true).unwrap();
    host.gate().unwrap();
    assert!(host.drivers.contains_key("1-2.3:1.0"));
}

#[test]
fn a_driver_path_verdict_lasts_while_the_device_is_plugged_in() {
    let usb = r#"[{"targetVm": "gui-vm", "allow": [{"driverPath": ".*/net/usb/.*"}]}]"#;
    let mut host = gated_host(usb);
    host.interfaces[0].class = Some("ff\n".into());
    host.interfaces[0].driver = Some("/lib/modules/net/usb/cdc_ether.ko".into());
    host.gate().unwrap();
    assert!(!host.drivers.contains_key("1-2.3:1.0"));
    // The driver is off, so that no rule matches any more.
    host.interfaces[0].driver = None;
    host.writes.clear();
    host.gate().unwrap();
    assert!(!host.drivers.contains_key("1-2.3:1.0"));
    let (unplugged, interface) = (host.usb.remove(0), host.interfaces.remove(0));
    host.gate().unwrap();
    host.usb.push(unplugged);
    host.interfaces.push(interface);
    host.gate().unwrap();
    assert!(host.drivers.contains_key("1-2.3:1.0"));
}

#[test]
fn a_twin_does_not_change_the_verdict_on_a_device() {
    let usb = r#"[{"targetVm": "gui-vm", "allow": [{"driverPath": ".*/net/usb/.*"}]}]"#;
    for (routed, other) in [(0, 1), (1, 0)] {
        let mut host = gated_host(usb);
        host.usb[1].id_vendor = host.usb[0].id_vendor.clone();
        for interface in &mut host.interfaces {
            interface.class = Some("ff\n".into());
        }
        host.interfaces[routed].driver = Some("/lib/modules/net/usb/cdc_ether.ko".into());
        let devices = host.scan();
        assert_eq!(devices[0].persistent_id(), devices[1].persistent_id());
        let name = devices[routed].sys_name.clone();
        assert_eq!(host.manager.usb_routing(&devices).keys(), [name.clone()]);
        // The driver is off, so that no rule matches any more.
        host.interfaces[routed].driver = None;
        let devices = host.scan();
        assert!(host.manager.config.usb_rule(&devices[routed]).is_none());
        for _ in 0..2 {
            assert_eq!(host.manager.usb_routing(&devices).keys(), [name.clone()]);
        }
        // The twin stays when the device goes, and takes nothing over.
        let twin = vec![devices[other].clone()];
        assert!(host.manager.usb_routing(&twin).keys().is_empty());
        assert!(host.manager.usb_routing(&devices).keys().is_empty());
    }
}

const ONLY_RULES: &str = r#"[{
    "allowedVms": ["gui-vm"],
    "allow": [{"vendorId": "046d", "productId": "c52b"}]
}]"#;

#[test]
fn the_only_allowed_machine_is_waited_for() {
    let mut host = Host::with_fixtures(config(ONLY_RULES, "[]"));
    host.reconcile().unwrap();
    assert!(host.manager.deferred());
    host.sockets.insert("/run/vm.sock".into(), "one".into());
    let error = host.reconcile().unwrap_err().message();
    assert!(error.starts_with("USB: 1-2.3: "), "{error}");
    assert!(!host.manager.deferred());
    host.script(&["devices", "devices", "ok 3"]);
    host.reconcile().unwrap();
    assert_eq!(usb_list(&host, None, None)[0].vm.as_deref(), Some("gui-vm"));
}

#[test]
fn comings_and_goings_are_told_once() {
    let usb = r#"[{"targetVm": "gui-vm", "allow": [{"interfaceClass": 3}]}]"#;
    let mut host = gated_host(usb);
    host.pci.clear();
    host.look_around().unwrap();
    let told: Vec<_> =
        host.take_notes().into_iter().map(|note| (note.event, note.device)).collect();
    assert_eq!(
        told,
        [
            ("usb_connected", Some("1-2.3".to_owned())),
            ("usb_connected", Some("1-3".to_owned())),
        ]
    );
    host.look_around().unwrap();
    assert!(host.take_notes().is_empty());
    host.usb.clear();
    host.look_around().unwrap();
    let mut lost: Vec<_> = host.take_notes().into_iter().map(|note| note.device).collect();
    lost.sort();
    assert_eq!(
        lost,
        [Some("/dev/bus/usb/001/004".to_owned()), Some("/dev/bus/usb/001/005".to_owned())]
    );
    host.look_around().unwrap();
    assert!(host.take_notes().is_empty());
}

#[test]
fn a_device_waits_for_a_machine_that_is_not_running() {
    let mut host = gated_host(TARGET_RULES);
    host.reconcile().unwrap();
    assert!(host.manager.deferred());
    assert!(!host.drivers.contains_key("1-2.3:1.0"));
    assert!(host.drivers.contains_key("1-3:1.0"));
    host.sockets.insert("/run/vm.sock".into(), "one".into());
    host.script(&["devices", "devices", "ok 3"]);
    host.reconcile().unwrap();
    assert!(!host.manager.deferred());
    assert!(!host.drivers.contains_key("1-2.3:1.0"));
}

#[test]
fn without_usb_rules_the_gate_is_never_written() {
    let mut host = gated_host("[]");
    host.autoprobe = Some("0".into());
    host.gate().unwrap();
    host.reopen().unwrap();
    assert!(host.manager.close_usb_gate(true).is_none());
    assert!(host.writes.is_empty());
    let disabled = USB_RULES.replace("\"tag\"", "\"enable\": false, \"tag\"");
    let mut host = gated_host(&disabled);
    host.autoprobe = Some("0".into());
    host.gate().unwrap();
    host.reopen().unwrap();
    assert!(host.writes.is_empty());
}

#[test]
fn opening_hands_devices_back_but_not_those_of_a_machine() {
    let mut host = gated_host(TARGET_RULES);
    host.sockets.insert("/run/vm.sock".into(), "one".into());
    host.script(&["devices", "devices", "ok 3"]);
    host.reconcile().unwrap();
    host.drivers.clear();
    host.writes.clear();
    host.reopen().unwrap();
    assert_eq!(
        host.writes,
        [
            ("bus/drivers_autoprobe".to_owned(), "1".to_owned()),
            ("bus/drivers_probe".to_owned(), "1-3".to_owned()),
            ("bus/drivers_probe".to_owned(), "1-3:1.0".to_owned()),
        ]
    );
    host.writes.clear();
    host.reopen().unwrap();
    assert!(host.writes.is_empty());
}

#[test]
fn a_late_device_is_configured_before_it_is_attached() {
    let mut host = gated_host(TARGET_RULES);
    host.script(&["devices", "devices", "ok 3"]);
    let devices = host.usb_devices();
    let (device, rule) = &devices[0];
    host.attach_usb_device(device, rule, None).unwrap();
    assert_eq!(host.writes, [("bus/drivers_probe".to_owned(), "1-2.3".to_owned())]);
}

#[test]
fn drivers_are_taken_off_before_a_claim() {
    let mut host = Host::with_fixtures(config(TARGET_RULES, "[]"));
    host.drivers.insert("1-2.3:1.0".into(), "usbhid".into());
    host.script(&["devices", "devices", "ok 3"]);
    let devices = host.usb_devices();
    let (device, rule) = &devices[0];
    host.attach_usb_device(device, rule, None).unwrap();
    assert_eq!(
        host.writes,
        [("devices/1-2.3:1.0/driver/unbind".to_owned(), "1-2.3:1.0".to_owned())]
    );
}

#[test]
fn a_hub_is_reported_once_and_skipped() {
    let mut host = Host::with_fixtures(config(TARGET_RULES, "[]"));
    host.drivers.insert("1-2.3:1.0".into(), "hub".into());
    host.reconcile().unwrap();
    host.reconcile().unwrap();
    assert_eq!(host.warnings, 1);
    assert!(host.calls.is_empty());
    assert!(host.writes.is_empty());
    assert!(!host.manager.deferred());
}

#[test]
fn acpi_tables_and_inputs_follow_the_devices() {
    let config = Config::new(
        Vec::new(),
        Vec::new(),
        rules(
            r#"[
                {"targetVm": "gui-vm", "allow": [{"name": "AT Translated.*"}],
                 "deny": [{"pathTag": "platform-i8042-serio-1"}]},
                {"targetVm": "gui-vm", "disable": true, "allow": [{"name": ".*"}]},
                {"targetVm": "gui-vm", "allow": [{"property": "ID_INPUT_SWITCH", "value": "1"}]}
            ]"#,
        ),
        rules(
            r#"[
                {"targetVm": "gui-vm", "allow": [
                    {"acpiTable": "/sys/firmware/acpi/tables/NHLT", "setUser": "microvm"},
                    {"acpiTable": "/absent"},
                    {"acpiTable": "/off", "enable": false}
                ]},
                {"targetVm": "audio-vm", "allow": [{"acpiTable": "/other"}]}
            ]"#,
        ),
        vec![vm("gui-vm")],
        General::default(),
    );
    let mut host = Host::new(config);
    let input = |node: &str, name: Option<&str>, properties: &[(&str, &str)]| EvdevDevice {
        node: Some(node.into()),
        name: None,
        parent_name: name.map(|name| name.into()),
        properties: properties.iter().map(|(k, v)| (k.to_string(), v.to_string())).collect(),
    };
    host.inputs = vec![
        input("/dev/input/event0", Some("AT Translated Set 2 keyboard"), &[]),
        input("/dev/input/event1", Some("at translated"), &[("ID_PATH_TAG", "platform-i8042-serio-1")]),
        input("/dev/input/event2", Some("AT Translated Set 2"), &[("ID_BUS", "usb")]),
        input("/dev/input/mouse0", Some("AT Translated Set 2"), &[]),
        input("/dev/input/event3", None, &[("ID_INPUT_SWITCH", "1")]),
        input("/dev/input/event4", None, &[("NAME", "AT Translated X")]),
    ];
    assert_eq!(
        host.vmm_args("gui-vm", false).unwrap(),
        vec![
            "--acpi-table",
            "/sys/firmware/acpi/tables/NHLT",
            "--input",
            "evdev[path=/dev/input/event0]",
            "--input",
            "evdev[path=/dev/input/event3]",
            "--input",
            "evdev[path=/dev/input/event4]",
        ]
    );
    assert_eq!(
        host.vmm_args("gui-vm", true).unwrap_err().message(),
        "No PCI passthrough rules are configured for VM gui-vm"
    );
    assert_eq!(
        host.vmm_args("net-vm", false).unwrap_err().message(),
        "VM net-vm is not found in the configuration"
    );
}

#[test]
fn a_device_on_the_root_bus_is_not_removable() {
    let pci = PCI_RULES.replace("\"tag\"", "\"crosvmUseRootBus\": true, \"tag\"");
    let mut host = Host::with_fixtures(config("[]", &pci));
    assert_eq!(
        host.vmm_args("audio-vm", false).unwrap(),
        vec![
            "--vfio-isolate-hotplug",
            "--vfio",
            "/sys/bus/pci/devices/0000:00:1f.3,iommu=viommu",
        ]
    );
}

#[test]
fn stored_state_is_used_where_storing_is_on() {
    let stored = || {
        let mut stored = PersistentState::default();
        stored.selected_vms.insert("usb-046d:c52b:None", "admin-vm".into());
        stored.disconnected_devices.push("pci-0000:00:1f.3".into());
        stored
    };
    let manager = DeviceManager::new(default_config(), Some(stored())).unwrap();
    assert!(manager.state.disconnected("pci-0000:00:1f.3"));
    assert_eq!(
        manager.state.persistent.selected_vms.get("usb-046d:c52b:None").unwrap(),
        "admin-vm"
    );
    let mut config = default_config();
    config.general.persistency = false;
    let manager = DeviceManager::new(config, Some(stored())).unwrap();
    assert!(manager.state.persistent.selected_vms.keys().is_empty());
    assert!(manager.state.persistent.disconnected_devices.is_empty());
    let manager = DeviceManager::new(default_config(), None).unwrap();
    assert!(manager.state.persistent.disconnected_devices.is_empty());
    assert!(manager.state.persistent.crosvm_usb_ports.keys().is_empty());
}

#[test]
fn the_last_machine_is_chosen_again() {
    let mut host = Host::with_fixtures(default_config());
    host.manager.state.persistent.selected_vms.insert("usb-046d:c52b:None", "admin-vm".into());
    host.script(&["devices", "devices", "ok 3"]);
    host.reconcile().unwrap_or_default();
    assert_eq!(usb_list(&host, None, None)[0].vm, None);
    let mut host = Host::with_fixtures(config(USB_RULES, "[]"));
    host.manager.state.persistent.selected_vms.insert("usb-046d:c52b:None", "admin-vm".into());
    host.script(&["devices", "devices", "ok 3"]);
    host.reconcile().unwrap();
    assert_eq!(usb_list(&host, None, None)[0].vm.as_deref(), Some("admin-vm"));
}

#[test]
fn selectors_name_devices_in_each_way() {
    let host = Host::with_fixtures(default_config());
    let names = |selector: UsbSelector| {
        let selector = Selector::from(selector);
        match host.manager.attach_usb(host.usb_devices(), &selector, None) {
            BatchStep::Attach { device: Device::Usb(device), .. } => Some(device.sys_name),
            _ => None,
        }
    };
    let node = "/dev/bus/usb/001/004".to_owned();
    assert!(names(UsbSelector::DeviceNode { device_node: node }).is_some());
    assert!(names(UsbSelector::BusPort { bus: 1, port: 2 }).is_some());
    assert!(names(UsbSelector::BusPort { bus: 1, port: 4 }).is_none());
    assert!(names(UsbSelector::VidPid { vid: "046D".into(), pid: "C52B".into() }).is_some());
    assert!(names(UsbSelector::VidPid { vid: "046D".into(), pid: "C52C".into() }).is_none());
    assert!(names(UsbSelector::Tag { tag: "input".into() }).is_some());
    assert!(names(UsbSelector::Tag { tag: "Input".into() }).is_none());
}

fn attached_host() -> Host {
    let mut host = Host::with_fixtures(config(TARGET_RULES, "[]"));
    host.sockets.insert("/run/vm.sock".into(), "one".into());
    host.script(&["devices", "devices", "ok 3"]);
    host.reconcile().unwrap();
    host
}

#[test]
fn a_port_with_another_device_is_not_detached() {
    let mut host = attached_host();
    let device = host.scan().remove(0);
    host.script(&["devices 3 1234 5678"]);
    assert_eq!(
        host.detach_usb_device(&device, true).unwrap_err().message(),
        "Crosvm USB port contains a different device; refusing to detach"
    );
    assert_eq!(usb_list(&host, None, None)[0].vm.as_deref(), Some("gui-vm"));
    assert!(host.outputs.is_empty());
}

#[test]
fn a_detach_without_a_known_port_needs_a_single_match() {
    let mut host = attached_host();
    let device = host.scan().remove(0);
    host.sockets.insert("/run/vm.sock".into(), "two".into());
    host.script(&["devices 3 046d c52b 4 046d c52b"]);
    assert_eq!(
        host.detach_usb_device(&device, false).unwrap_err().message(),
        "multiple matching USB devices are attached; refusing an ambiguous detach"
    );
    host.script(&["devices 3 1234 c52b 7 046d c52b", "ok"]);
    host.detach_usb_device(&device, false).unwrap();
    assert_eq!(host.calls.last().unwrap()[1..4], ["usb", "detach", "7"]);
    assert!(usb_list(&host, None, None)[0].vm.is_none());
}

#[test]
fn a_stopped_machine_loses_its_devices_without_a_command() {
    let mut host = attached_host();
    let device = host.scan().remove(0);
    host.sockets.clear();
    let calls = host.calls.len();
    host.detach_usb_device(&device, false).unwrap();
    assert_eq!(host.calls.len(), calls);
    assert!(host.manager.state.persistent.crosvm_usb_ports.keys().is_empty());
    assert!(host.manager.state.usb_vms.keys().is_empty());
}

#[test]
fn an_attachment_leaves_other_devices_alone() {
    let usb = r#"[{"targetVm": "gui-vm", "allow": [{"interfaceClass": 3}]}]"#;
    let mut host = gated_host(usb);
    host.autoprobe = None;
    host.sockets.insert("/run/vm.sock".into(), "one".into());
    let devices = host.usb_devices();
    host.script(&["devices", "devices", "ok 3"]);
    host.attach_usb_device(&devices[0].0, &devices[0].1, None).unwrap();
    host.script(&["devices 3 046d c52b", "devices 3 046d c52b", "ok 4"]);
    host.attach_usb_device(&devices[1].0, &devices[1].1, None).unwrap();
    let ports = &host.manager.state.persistent.crosvm_usb_ports;
    assert_eq!(ports.get("1-2.3").unwrap().port, 3);
    assert_eq!(ports.get("1-3").unwrap().port, 4);
    host.script(&["devices 3 046d c52b 4 1234 c52b", "ok"]);
    host.detach_usb_device(&devices[0].0, true).unwrap();
    let listed = usb_list(&host, None, None);
    assert_eq!(listed[0].vm, None);
    assert_eq!(listed[1].vm.as_deref(), Some("gui-vm"));
    assert!(listed[0].disconnected && !listed[1].disconnected);
}

#[test]
fn a_whole_group_comes_and_goes_together() {
    let pci = PCI_RULES.replace("\"tag\"", "\"pciIommuAddAll\": true, \"tag\"");
    let mut host = Host::with_fixtures(config("[]", &pci));
    host.sockets.insert("/run/vm.sock".into(), "one".into());
    let group = vec!["0000:00:1f.3".to_owned(), "0000:00:1f.0".to_owned()];
    host.groups.insert("0000:00:1f.3".into(), group);
    let first = "/sys/bus/pci/devices/0000:00:1f.0";
    let both = format!("devices {first} /sys/bus/pci/devices/0000:00:1f.3");
    let one = format!("devices {first}");
    host.script(&["devices", "devices", "ok", &one, &one, "ok", &both]);
    host.reconcile().unwrap();
    assert!(host.outputs.is_empty());
    assert_eq!(host.manager.state.pci_vms.keys().len(), 2);
    host.script(&[&both, "ok", "devices", "devices"]);
    let start = host.manager.suspend_pci(host.pci_devices(), Some("audio-vm".into()));
    host.work(start).unwrap();
    assert!(host.outputs.is_empty());
    assert!(host.manager.state.pci_vms.keys().is_empty());
}

#[test]
fn a_lost_pci_device_is_forgotten() {
    let mut host = Host::with_fixtures(config("[]", PCI_RULES));
    host.script(&["devices /sys/bus/pci/devices/0000:00:1f.3"]);
    host.reconcile().unwrap();
    assert_eq!(host.manager.state.pci_vms.keys(), ["0000:00:1f.3"]);
    host.take_notes();
    host.pci.clear();
    host.reconcile().unwrap();
    assert_eq!(
        host.take_notes(),
        [note(Event::PciDisconnected, Some("0000:00:1f.3".into()), None)]
    );
    assert!(host.manager.state.pci_vms.keys().is_empty());
}

#[test]
fn tables_hold_what_they_were_given() {
    let mut table: StringMap<u32> = StringMap::new();
    assert_eq!(table.insert("a", 1), None);
    assert_eq!(table.insert("b", 2), None);
    assert_eq!(table.insert("a", 3), Some(1));
    assert_eq!(table.get("a"), Some(&3));
    assert_eq!(table.keys().len(), 2);
    assert_eq!(table.remove("b"), Some(2));
    assert_eq!(table.remove("b"), None);
    assert!(table.contains_key("a"));
}
