//! The arguments that a machine is started with.

use crate::config::{is_enabled, json_enabled, lemma_vm_named, names_pci, same_text, switched_on};
use crate::config::vm_named;
use crate::config::{case_eq, Config, RuleMatch};
use crate::crosvm::{pci_path, vfio_path};
use crate::device::{first_of, PciDevice};
use crate::error::Error;
use crate::json::{string, Value};
use crate::pattern::{hits, matches_start, regex_match};
use crate::manager::DeviceManager;
use crate::order::{lemma_filter_places, taken_at};
use crate::pci::{quarantine, quarantined, rest_of};
use crate::table::StringMap;
use crate::text::{as_deref, has_part, is_text, lemma_views_push, occurs, opt, opt_ref, same};
use crate::text::{same_letters, views};
use vstd::prelude::*;

verus! {

/// The entries of a list that were not seen before, each once.
pub open spec fn fresh(list: Seq<Seq<char>>, seen: Map<Seq<char>, ()>) -> Seq<Seq<char>>
    decreases list.len(),
{
    if list.len() == 0 {
        Seq::empty()
    } else {
        let before = fresh(list.drop_last(), seen);
        if seen.contains_key(list.last()) || list.drop_last().contains(list.last()) {
            before
        } else {
            before.push(list.last())
        }
    }
}

/// What a machine is told of a device: its path, and whether it may be
/// removed later, which a device on the root bus may not.
pub open spec fn vfio_option(address: Seq<char>, root_bus: bool) -> Seq<char> {
    vfio_path(address) + ",iommu=viommu"@ + if root_bus {
        ""@
    } else {
        ",removable=true"@
    }
}

/// The arguments for some devices.
pub open spec fn vfio_args(addresses: Seq<Seq<char>>, root_bus: bool) -> Seq<Seq<char>>
    decreases addresses.len(),
{
    if addresses.len() == 0 {
        Seq::empty()
    } else {
        vfio_args(addresses.drop_last(), root_bus).push("--vfio"@).push(
            vfio_option(addresses.last(), root_bus),
        )
    }
}

/// Takes the entries of a list that were not seen before, and notes them.
fn take_fresh(seen: &mut StringMap<()>, list: &Vec<String>) -> (out: Vec<String>)
    ensures
        views(out@) == fresh(views(list@), old(seen)@),
        forall|key: Seq<char>| #[trigger]
            final(seen)@.contains_key(key) <==> old(seen)@.contains_key(key) || views(
                list@,
            ).contains(key),
{
    let mut out: Vec<String> = Vec::new();
    let ghost all = views(list@);
    let ghost start = seen@;
    let mut i: usize = 0;
    assert(all.take(0).len() == 0);
    assert(views(out@) =~= fresh(all.take(0), start));
    while i < list.len()
        invariant
            i <= list.len(),
            all == views(list@),
            start == old(seen)@,
            views(out@) == fresh(all.take(i as int), start),
            forall|key: Seq<char>| #[trigger]
                seen@.contains_key(key) <==> start.contains_key(key) || all.take(i as int).contains(
                    key,
                ),
        decreases list.len() - i,
    {
        let ghost head = all.take(i as int);
        let ghost next = all.take(i + 1);
        let ghost known = seen@;
        let item = list[i].clone();
        assert(next.drop_last() =~= head);
        assert(next.last() == item@);
        let before = seen.insert(item.as_str(), ());
        assert(known.contains_key(item@) <==> start.contains_key(item@) || head.contains(item@));
        if before.is_none() {
            let ghost done = out@;
            out.push(item);
            proof {
                lemma_views_push(done, item);
            }
        }
        assert forall|key: Seq<char>|
            #![trigger next.contains(key)]
            next.contains(key) <==> head.contains(key) || key == item@ by {
            if head.contains(key) {
                let k = choose|k: int| 0 <= k < head.len() && head[k] == key;
                assert(next[k] == key);
            }
            if key == item@ {
                assert(next[i as int] == key);
            }
            if next.contains(key) {
                let k = choose|k: int| 0 <= k < next.len() && next[k] == key;
                if k < i {
                    assert(head[k] == key);
                }
            }
        }
        i += 1;
    }
    assert(all.take(all.len() as int) =~= all);
    out
}

fn push_vfio(args: &mut Vec<String>, addresses: &Vec<String>, root_bus: bool)
    ensures
        views(final(args)@) == views(old(args)@) + vfio_args(views(addresses@), root_bus),
{
    let ghost start = views(args@);
    let ghost all = views(addresses@);
    let mut i: usize = 0;
    assert(all.take(0).len() == 0);
    assert(views(args@) =~= start + vfio_args(all.take(0), root_bus));
    while i < addresses.len()
        invariant
            i <= addresses.len(),
            all == views(addresses@),
            views(args@) == start + vfio_args(all.take(i as int), root_bus),
        decreases addresses.len() - i,
    {
        let ghost next = all.take(i + 1);
        assert(next.drop_last() =~= all.take(i as int));
        assert(next.last() == addresses@[i as int]@);
        let ghost done = args@;
        let flag: String = "--vfio".to_owned();
        let mut option = pci_path(addresses[i].as_str());
        option.append(",iommu=viommu");
        option.append(
            if root_bus {
                ""
            } else {
                ",removable=true"
            },
        );
        args.push(flag);
        proof {
            lemma_views_push(done, flag);
        }
        let ghost half = args@;
        args.push(option);
        proof {
            lemma_views_push(half, option);
        }
        assert(views(args@) =~= start + vfio_args(next, root_bus));
        i += 1;
    }
    assert(all.take(all.len() as int) =~= all);
}

/// The arguments of a machine, under way.
#[derive(Debug)]
pub struct VmmArgs {
    pub args: Vec<String>,
    /// The devices that are left.
    pub devices: Vec<(PciDevice, RuleMatch)>,
    /// The devices that were handed to `vfio-pci`.
    pub bound: StringMap<()>,
    /// The devices that the arguments have.
    pub emitted: StringMap<()>,
    pub vm: String,
    /// The ACPI tables that are left.
    pub tables: Vec<AcpiTable>,
}

/// What the arguments need next.
#[derive(Debug)]
pub enum VmmStep {
    /// Read the IOMMU group of this device.
    Group { address: String, next: VmmGroup },
    /// Hand this device to `vfio-pci`.
    Bind { address: String, next: VmmBind },
    /// See whether the file of this ACPI table exists, and give it to its
    /// owner.
    Acpi { table: AcpiTable, next: VmmAcpi },
    /// Look at all input devices.
    Evdev(VmmEvdev),
    Done(Vec<String>),
    Failed(Error),
}

/// An IOMMU group is read.
#[derive(Debug)]
pub struct VmmGroup {
    pub vmm: VmmArgs,
}

/// Devices leave the host.
#[derive(Debug)]
pub struct VmmBind {
    pub vmm: VmmArgs,
    /// The devices that are left.
    pub left: Vec<String>,
}

/// An ACPI table is looked for.
#[derive(Debug)]
pub struct VmmAcpi {
    pub vmm: VmmArgs,
}

/// The input devices are looked at.
#[derive(Debug)]
pub struct VmmEvdev {
    pub vmm: VmmArgs,
}

/// Whether `after` has the arguments for the first device, given its IOMMU
/// group, and `hand_over` are the devices that have to leave the host. No
/// device is handed over or passed twice.
pub open spec fn is_grouped(
    before: VmmArgs,
    group: Seq<Seq<char>>,
    hand_over: Seq<Seq<char>>,
    after: VmmArgs,
) -> bool {
    if before.devices@.len() == 0 {
        after == before && hand_over.len() == 0
    } else {
        let (device, rule) = before.devices@[0];
        let members = quarantined(device.address@, group);
        let passed = if rule.iommu_add_all {
            members
        } else {
            seq![device.address@]
        };
        &&& after.devices@ == before.devices@.skip(1)
        &&& hand_over == fresh(members, before.bound@)
        &&& views(after.args@) == views(before.args@) + vfio_args(
            fresh(passed, before.emitted@),
            rule.crosvm_use_root_bus,
        )
        &&& forall|key: Seq<char>| #[trigger]
            after.bound@.contains_key(key) <==> before.bound@.contains_key(key) || members.contains(
                key,
            )
        &&& forall|key: Seq<char>| #[trigger]
            after.emitted@.contains_key(key) <==> before.emitted@.contains_key(key)
                || passed.contains(key)
        &&& after.vm == before.vm
        &&& after.tables == before.tables
    }
}

/// The devices that go to a machine.
pub open spec fn devices_for(
    devices: Seq<(PciDevice, RuleMatch)>,
    vm: Seq<char>,
) -> Seq<(PciDevice, RuleMatch)> {
    devices.filter(|item: (PciDevice, RuleMatch)| opt(item.1.target_vm) == Some(vm))
}

impl VmmArgs {
    /// Starts with the routed PCI devices. A machine that must have devices
    /// needs a rule and a device that is there.
    fn start(
        config: &Config,
        devices: Vec<(PciDevice, RuleMatch)>,
        vm: &str,
        require_pci: bool,
    ) -> (out: Result<VmmArgs, Error>)
        ensures
            if vm_named(config.vms@, vm@) is None {
                out matches Err(error) && (error matches Error::UnknownVm(name) && name@ == vm@)
            } else if require_pci && !names_pci(config.pci_passthrough@, vm@) {
                out matches Err(error) && (error matches Error::NoPciRules(name) && name@ == vm@)
            } else if require_pci && devices_for(devices@, vm@).len() == 0 {
                out matches Err(error) && (error matches Error::NoPciDevices(name) && name@ == vm@)
            } else {
                &&& out matches Ok(vmm)
                &&& vmm.devices@ == devices_for(devices@, vm@)
                &&& vmm.vm@ == vm@
                &&& are_acpi_tables(acpi_entries(config.acpi_passthrough@, vm@), vmm.tables@)
                &&& vmm.bound@ == Map::<Seq<char>, ()>::empty()
                &&& vmm.emitted@ == Map::<Seq<char>, ()>::empty()
                &&& views(vmm.args@) == if names_pci(config.pci_passthrough@, vm@) {
                    seq!["--vfio-isolate-hotplug"@]
                } else {
                    Seq::empty()
                }
            },
    {
        match config.vm(vm) {
            Ok(_) => {},
            Err(error) => {
                return Err(error);
            },
        }
        let mut found: Vec<(PciDevice, RuleMatch)> = Vec::new();
        let ghost all = devices@;
        proof {
            reveal(Seq::filter);
            assert(all.take(0).len() == 0);
        }
        for item in it: devices
            invariant
                it.seq() == all,
                found@ == devices_for(all.take(it.index()), vm@),
        {
            let ghost next = all.take(it.index() + 1);
            proof {
                reveal(Seq::filter);
                assert(next.drop_last() =~= all.take(it.index()));
                assert(next.last() == item);
            }
            if is_text(as_deref(&item.1.target_vm), vm) {
                found.push(item);
            }
        }
        assert(all.take(all.len() as int) =~= all);
        let has_rules = config.has_pci_rules(vm);
        if require_pci && !has_rules {
            return Err(Error::NoPciRules(vm.to_owned()));
        }
        if require_pci && found.len() == 0 {
            return Err(Error::NoPciDevices(vm.to_owned()));
        }
        let mut args: Vec<String> = Vec::new();
        if has_rules {
            args.push("--vfio-isolate-hotplug".to_owned());
            assert(views(args@) =~= seq!["--vfio-isolate-hotplug"@]);
        } else {
            assert(views(args@) =~= Seq::<Seq<char>>::empty());
        }
        Ok(
            VmmArgs {
                args,
                devices: found,
                bound: StringMap::new(),
                emitted: StringMap::new(),
                vm: vm.to_owned(),
                tables: acpi_tables(&config.acpi_passthrough, vm),
            },
        )
    }

    /// Takes the IOMMU group of the first device: adds the arguments for it,
    /// and says which devices have to be handed to `vfio-pci`.
    fn grouped(&mut self, group: Vec<String>) -> (hand_over: Vec<String>)
        ensures
            is_grouped(*old(self), views(group@), views(hand_over@), *final(self)),
    {
        if self.devices.len() == 0 {
            let none: Vec<String> = Vec::new();
            assert(views(none@) =~= Seq::<Seq<char>>::empty());
            return none;
        }
        let (device, rule) = self.devices.remove(0);
        assert(self.devices@ =~= old(self).devices@.skip(1));
        let members = quarantine(device.address.as_str(), group);
        let hand_over = take_fresh(&mut self.bound, &members);
        let passed = if rule.iommu_add_all {
            members
        } else {
            let mut passed: Vec<String> = Vec::new();
            passed.push(device.address.clone());
            assert(views(passed@) =~= seq![device.address@]);
            passed
        };
        let new = take_fresh(&mut self.emitted, &passed);
        push_vfio(&mut self.args, &new, rule.crosvm_use_root_bus);
        hand_over
    }

    /// Adds an ACPI table.
    fn push_acpi(&mut self, table: &AcpiTable)
        ensures
            views(final(self).args@) == views(old(self).args@).push("--acpi-table"@).push(
                table.table@,
            ),
            *final(self) == (VmmArgs { args: final(self).args, ..*old(self) }),
    {
        let ghost start = self.args@;
        let flag: String = "--acpi-table".to_owned();
        self.args.push(flag);
        let ghost half = self.args@;
        let path = table.table.clone();
        self.args.push(path);
        proof {
            lemma_views_push(start, flag);
            lemma_views_push(half, path);
        }
    }

    /// Adds the arguments for input devices, and ends the list.
    fn finish(self, inputs: Vec<String>) -> (out: Vec<String>)
        ensures
            views(out@) == views(self.args@) + views(inputs@),
    {
        let mut out = self.args;
        let ghost start = views(out@);
        let ghost all = inputs@;
        assert(views(out@) =~= start + views(all.take(0)));
        for input in it: inputs
            invariant
                it.seq() == all,
                views(out@) == start + views(all.take(it.index())),
        {
            let ghost done = out@;
            out.push(input);
            proof {
                lemma_views_push(done, input);
            }
            assert(all.take(it.index() + 1) =~= all.take(it.index()).push(input));
            assert(views(out@) =~= start + views(all.take(it.index() + 1)));
        }
        assert(all.take(all.len() as int) =~= all);
        out
    }
}

/// Whether `step` deals with the first of the ACPI tables that are left, or
/// with the input devices where none is.
pub open spec fn is_acpi_step(vmm: VmmArgs, step: VmmStep) -> bool {
    if vmm.tables@.len() == 0 {
        step == VmmStep::Evdev((VmmEvdev { vmm }))
    } else {
        step == (VmmStep::Acpi { table: vmm.tables@[0], next: (VmmAcpi { vmm }) })
    }
}

/// Whether `step` deals with the first of the devices that are left, or with
/// the ACPI tables where none is.
pub open spec fn is_pci_step(vmm: VmmArgs, step: VmmStep) -> bool {
    if vmm.devices@.len() == 0 {
        is_acpi_step(vmm, step)
    } else {
        step == (VmmStep::Group {
            address: vmm.devices@[0].0.address,
            next: (VmmGroup { vmm }),
        })
    }
}

/// Whether `step` hands the first of the devices that are left over, or goes
/// on where none is.
pub open spec fn is_bind_step(vmm: VmmArgs, left: Seq<Seq<char>>, step: VmmStep) -> bool {
    if left.len() == 0 {
        is_pci_step(vmm, step)
    } else {
        &&& step matches VmmStep::Bind { address, next }
        &&& address@ == left[0]
        &&& next.vmm == vmm
        &&& views(next.left@) == left
    }
}

impl VmmArgs {
    fn acpi_step(self) -> (step: VmmStep)
        ensures
            is_acpi_step(self, step),
    {
        if self.tables.len() == 0 {
            VmmStep::Evdev(VmmEvdev { vmm: self })
        } else {
            let table = self.tables[0].clone();
            VmmStep::Acpi { table, next: VmmAcpi { vmm: self } }
        }
    }

    fn pci_step(self) -> (step: VmmStep)
        ensures
            is_pci_step(self, step),
    {
        if self.devices.len() == 0 {
            self.acpi_step()
        } else {
            let address = self.devices[0].0.address.clone();
            VmmStep::Group { address, next: VmmGroup { vmm: self } }
        }
    }
}

impl DeviceManager {
    /// Starts the arguments of a machine with the routed PCI devices. A
    /// machine that must have devices needs a rule and a device that is
    /// there.
    pub fn vmm_args(
        &self,
        devices: Vec<(PciDevice, RuleMatch)>,
        vm: &str,
        require_pci: bool,
    ) -> (step: VmmStep)
        ensures
            if vm_named(self.config.vms@, vm@) is None {
                step matches VmmStep::Failed(error) && (error matches Error::UnknownVm(name)
                    && name@ == vm@)
            } else if require_pci && !names_pci(self.config.pci_passthrough@, vm@) {
                step matches VmmStep::Failed(error) && (error matches Error::NoPciRules(name)
                    && name@ == vm@)
            } else if require_pci && devices_for(devices@, vm@).len() == 0 {
                step matches VmmStep::Failed(error) && (error matches Error::NoPciDevices(name)
                    && name@ == vm@)
            } else {
                exists|vmm: VmmArgs| #[trigger]
                    is_pci_step(vmm, step) && is_vmm_start(self.config, devices@, vm@, vmm)
            },
    {
        match VmmArgs::start(&self.config, devices, vm, require_pci) {
            Ok(vmm) => {
                assert(is_vmm_start(self.config, devices@, vm@, vmm));
                vmm.pci_step()
            },
            Err(error) => VmmStep::Failed(error),
        }
    }
}

/// Whether `vmm` is where the arguments of a machine start.
pub open spec fn is_vmm_start(
    config: Config,
    devices: Seq<(PciDevice, RuleMatch)>,
    vm: Seq<char>,
    vmm: VmmArgs,
) -> bool {
    &&& vmm.devices@ == devices_for(devices, vm)
    &&& vmm.vm@ == vm
    &&& are_acpi_tables(acpi_entries(config.acpi_passthrough@, vm), vmm.tables@)
    &&& vmm.bound@ == Map::<Seq<char>, ()>::empty()
    &&& vmm.emitted@ == Map::<Seq<char>, ()>::empty()
    &&& views(vmm.args@) == if names_pci(config.pci_passthrough@, vm) {
        seq!["--vfio-isolate-hotplug"@]
    } else {
        Seq::empty()
    }
}

impl VmmGroup {
    /// Takes the IOMMU group of the first device.
    pub fn grouped(self, group: Result<Vec<String>, Error>) -> (step: VmmStep)
        ensures
            match group {
                Err(error) => step == VmmStep::Failed(error),
                Ok(group) => exists|vmm: VmmArgs, left: Seq<Seq<char>>| #[trigger]
                    is_grouped(self.vmm, views(group@), left, vmm) && is_bind_step(vmm, left, step),
            },
    {
        match group {
            Ok(group) => {
                let mut vmm = self.vmm;
                let left = vmm.grouped(group);
                VmmBind { vmm, left }.step()
            },
            Err(error) => VmmStep::Failed(error),
        }
    }
}

impl VmmBind {
    fn step(self) -> (step: VmmStep)
        ensures
            is_bind_step(self.vmm, views(self.left@), step),
    {
        assert(views(self.left@).len() == self.left@.len());
        if self.left.len() == 0 {
            self.vmm.pci_step()
        } else {
            assert(views(self.left@)[0] == self.left@[0]@);
            let address = self.left[0].clone();
            VmmStep::Bind { address, next: self }
        }
    }

    /// Goes on once the first of the devices that are left is handed over.
    pub fn bound(self, outcome: Result<(), Error>) -> (step: VmmStep)
        ensures
            match outcome {
                Err(error) => step == VmmStep::Failed(error),
                Ok(_) => is_bind_step(self.vmm, rest_of(views(self.left@)), step),
            },
    {
        match outcome {
            Ok(_) => {
                let mut next = self;
                if next.left.len() > 0 {
                    next.left.remove(0);
                }
                assert(views(next.left@) =~= rest_of(views(self.left@)));
                next.step()
            },
            Err(error) => VmmStep::Failed(error),
        }
    }
}

impl VmmAcpi {
    /// Takes whether the file of the first table exists and has its owner. A
    /// table without a file is left out.
    pub fn checked(self, outcome: Result<bool, Error>) -> (step: VmmStep)
        ensures
            match outcome {
                Err(error) => step == VmmStep::Failed(error),
                Ok(exists_file) => exists|vmm: VmmArgs| #[trigger]
                    is_acpi_step(vmm, step) && vmm.tables@ == rest_of(self.vmm.tables@) && views(
                        vmm.args@,
                    ) == (if exists_file && self.vmm.tables@.len() > 0 {
                        views(self.vmm.args@).push("--acpi-table"@).push(
                            self.vmm.tables@[0].table@,
                        )
                    } else {
                        views(self.vmm.args@)
                    }) && vmm.vm == self.vmm.vm && vmm.devices == self.vmm.devices,
            },
    {
        match outcome {
            Ok(exists_file) => {
                let mut vmm = self.vmm;
                if vmm.tables.len() > 0 {
                    let table = vmm.tables.remove(0);
                    if exists_file {
                        vmm.push_acpi(&table);
                    }
                }
                assert(vmm.tables@ =~= rest_of(self.vmm.tables@));
                vmm.acpi_step()
            },
            Err(error) => VmmStep::Failed(error),
        }
    }
}

impl VmmEvdev {
    /// Takes the input devices, and ends the arguments.
    pub fn found(self, manager: &DeviceManager, devices: Result<Vec<EvdevDevice>, Error>) -> (step:
        VmmStep)
        ensures
            match devices {
                Err(error) => step == VmmStep::Failed(error),
                Ok(devices) => step matches VmmStep::Done(args) && views(args@) == views(
                    self.vmm.args@,
                ) + input_args(manager.config.evdev_passthrough@, self.vmm.vm@, devices@),
            },
    {
        match devices {
            Ok(devices) => {
                let inputs = evdev_args(
                    &manager.config.evdev_passthrough,
                    self.vmm.vm.as_str(),
                    &devices,
                );
                VmmStep::Done(self.vmm.finish(inputs))
            },
            Err(error) => VmmStep::Failed(error),
        }
    }
}

/// No device is handed over or passed twice: what is taken from a list was
/// not seen before, and is taken once.
pub proof fn law_fresh_is_taken_once(list: Seq<Seq<char>>, seen: Map<Seq<char>, ()>)
    ensures
        forall|i: int|
            0 <= i < fresh(list, seen).len() ==> !seen.contains_key(
                #[trigger] fresh(list, seen)[i],
            ) && list.contains(fresh(list, seen)[i]),
        forall|i: int, j: int|
            0 <= i < j < fresh(list, seen).len() ==> fresh(list, seen)[i] != fresh(list, seen)[j],
    decreases list.len(),
{
    if list.len() > 0 {
        let head = list.drop_last();
        law_fresh_is_taken_once(head, seen);
        let before = fresh(head, seen);
        let out = fresh(list, seen);
        assert forall|i: int| 0 <= i < out.len() implies !seen.contains_key(#[trigger] out[i])
            && list.contains(out[i]) by {
            if i < before.len() {
                assert(out[i] == before[i]);
                let k = choose|k: int| 0 <= k < head.len() && head[k] == before[i];
                assert(list[k] == out[i]);
            } else {
                assert(list[list.len() - 1] == out[i]);
            }
        }
        assert forall|i: int, j: int| 0 <= i < j < out.len() implies out[i] != out[j] by {
            if j >= before.len() {
                assert(head.contains(before[i]));
            }
        }
    }
}

/// Every entry of a list is taken or was seen before.
pub proof fn law_fresh_is_complete(list: Seq<Seq<char>>, seen: Map<Seq<char>, ()>, at: int)
    requires
        0 <= at < list.len(),
    ensures
        seen.contains_key(list[at]) || fresh(list, seen).contains(list[at]),
    decreases list.len(),
{
    let head = list.drop_last();
    let before = fresh(head, seen);
    let out = fresh(list, seen);
    if at < head.len() {
        law_fresh_is_complete(head, seen, at);
        if before.contains(head[at]) {
            let k = choose|k: int| 0 <= k < before.len() && before[k] == head[at];
            assert(out[k] == list[at]);
        }
    } else if !seen.contains_key(list[at]) {
        if head.contains(list[at]) {
            let k = choose|k: int| 0 <= k < head.len() && head[k] == list[at];
            law_fresh_is_complete(head, seen, k);
            let m = choose|m: int| 0 <= m < before.len() && before[m] == head[k];
            assert(out[m] == list[at]);
        } else {
            assert(out[before.len() as int] == list[at]);
        }
    }
}

/// An ACPI table for a machine, and whom its file is given to.
#[derive(Debug)]
pub struct AcpiTable {
    pub table: String,
    pub user: Option<String>,
    pub group: Option<String>,
}

impl Clone for AcpiTable {
    fn clone(&self) -> (out: Self)
        ensures
            out == *self,
    {
        AcpiTable {
            table: self.table.clone(),
            user: self.user.clone(),
            group: self.group.clone(),
        }
    }
}

/// Whether a rule is on and names the machine.
pub open spec fn is_for(rule: Value, vm: Seq<char>) -> bool {
    switched_on(rule) && rule.text_at("targetVm"@) == Some(vm)
}

/// The entries of a list that are on and name an ACPI table.
pub open spec fn table_entries(entries: Seq<Value>) -> Seq<Value> {
    entries.filter(|entry: Value| switched_on(entry) && entry.text_at("acpiTable"@) is Some)
}

/// The entries of all rules for a machine that name an ACPI table.
pub open spec fn acpi_entries(rules: Seq<Value>, vm: Seq<char>) -> Seq<Value>
    decreases rules.len(),
{
    if rules.len() == 0 {
        Seq::empty()
    } else {
        acpi_entries(rules.drop_last(), vm) + if is_for(rules.last(), vm) {
            table_entries(rules.last().items_at("allow"@))
        } else {
            Seq::empty()
        }
    }
}

/// Whether `table` is what `entry` names.
pub open spec fn is_acpi_table(entry: Value, table: AcpiTable) -> bool {
    &&& Some(table.table@) == entry.text_at("acpiTable"@)
    &&& opt(table.user) == entry.text_at("setUser"@)
    &&& opt(table.group) == entry.text_at("setGroup"@)
}

pub open spec fn are_acpi_tables(entries: Seq<Value>, tables: Seq<AcpiTable>) -> bool {
    &&& tables.len() == entries.len()
    &&& forall|i: int| 0 <= i < tables.len() ==> is_acpi_table(entries[i], #[trigger] tables[i])
}

fn push_tables(rule: &Value, tables: &mut Vec<AcpiTable>, Ghost(before): Ghost<Seq<Value>>)
    requires
        are_acpi_tables(before, old(tables)@),
    ensures
        are_acpi_tables(before + table_entries(rule.items_at("allow"@)), final(tables)@),
{
    match rule.get_array("allow") {
        Some(entries) => {
            let mut i: usize = 0;
            proof {
                reveal(Seq::filter);
                assert(entries@.take(0).len() == 0);
                assert(before + table_entries(entries@.take(0)) =~= before);
            }
            while i < entries.len()
                invariant
                    i <= entries.len(),
                    are_acpi_tables(before + table_entries(entries@.take(i as int)), tables@),
                decreases entries.len() - i,
            {
                let entry = &entries[i];
                let ghost head = table_entries(entries@.take(i as int));
                let ghost next = entries@.take(i + 1);
                proof {
                    reveal(Seq::filter);
                    assert(next.drop_last() =~= entries@.take(i as int));
                    assert(next.last() == *entry);
                }
                let mut named: Option<String> = None;
                if json_enabled(entry) {
                    named = string(entry, "acpiTable");
                }
                match named {
                    Some(table) => {
                        assert(table_entries(next) == head.push(*entry));
                        assert(before + head.push(*entry) =~= (before + head).push(*entry));
                        tables.push(
                            AcpiTable {
                                table,
                                user: string(entry, "setUser"),
                                group: string(entry, "setGroup"),
                            },
                        );
                    },
                    None => {
                        assert(table_entries(next) == head);
                    },
                }
                i += 1;
            }
            assert(entries@.take(entries@.len() as int) =~= entries@);
        },
        None => {
            proof {
                reveal(Seq::filter);
                assert(before + table_entries(rule.items_at("allow"@)) =~= before);
            }
        },
    }
}

/// The ACPI tables for a machine. A table counts only where its file exists.
pub fn acpi_tables(rules: &Vec<Value>, vm: &str) -> (out: Vec<AcpiTable>)
    ensures
        are_acpi_tables(acpi_entries(rules@, vm@), out@),
{
    let mut out: Vec<AcpiTable> = Vec::new();
    let mut i: usize = 0;
    assert(rules@.take(0).len() == 0);
    while i < rules.len()
        invariant
            i <= rules.len(),
            are_acpi_tables(acpi_entries(rules@.take(i as int), vm@), out@),
        decreases rules.len() - i,
    {
        let rule = &rules[i];
        let ghost head = acpi_entries(rules@.take(i as int), vm@);
        let ghost next = rules@.take(i + 1);
        assert(next.drop_last() =~= rules@.take(i as int));
        assert(next.last() == *rule);
        if json_enabled(rule) && is_text(rule.get_str("targetVm"), vm) {
            push_tables(rule, &mut out, Ghost(head));
        } else {
            assert(head + Seq::<Value>::empty() =~= head);
        }
        i += 1;
    }
    assert(rules@.take(rules@.len() as int) =~= rules@);
    out
}

/// An input device as the device manager of the system describes it.
#[derive(Debug)]
pub struct EvdevDevice {
    pub node: Option<String>,
    /// The name that the device itself has.
    pub name: Option<String>,
    /// The name that its parent has.
    pub parent_name: Option<String>,
    pub properties: Vec<(String, String)>,
}

/// The value of a property.
pub open spec fn property(properties: Seq<(String, String)>, name: Seq<char>) -> Option<Seq<char>>
    decreases properties.len(),
{
    if properties.len() == 0 {
        None
    } else if properties[0].0@ == name {
        Some(properties[0].1@)
    } else {
        property(properties.skip(1), name)
    }
}

/// The name of an input device: its own, else that of its parent, else its
/// property.
pub open spec fn evdev_name(device: EvdevDevice) -> Option<Seq<char>> {
    first_of(
        opt(device.name),
        first_of(opt(device.parent_name), property(device.properties@, "NAME"@)),
    )
}

/// Whether a selector asks for a property that the device has.
pub open spec fn property_agrees(selector: Value, device: EvdevDevice) -> bool {
    &&& selector.text_at("property"@) is Some
    &&& same_text(
        property(device.properties@, selector.text_at("property"@)->0),
        selector.text_at("value"@),
    )
}

/// Whether a selector picks an input device, given whether its patterns
/// match.
pub open spec fn picks_evdev(
    selector: Value,
    device: EvdevDevice,
    name_hit: bool,
    tag_hit: bool,
) -> bool {
    switched_on(selector) && (name_hit || tag_hit || property_agrees(selector, device))
}

/// Whether a selector picks an input device.
pub open spec fn selects_evdev(selector: Value, device: EvdevDevice) -> bool {
    picks_evdev(
        selector,
        device,
        hits(selector.text_at("name"@), evdev_name(device)),
        hits(selector.text_at("pathTag"@), property(device.properties@, "ID_PATH_TAG"@)),
    )
}

pub open spec fn any_selects_evdev(selectors: Seq<Value>, device: EvdevDevice) -> bool {
    exists|i: int| 0 <= i < selectors.len() && selects_evdev(#[trigger] selectors[i], device)
}

/// Whether a rule gives an input device to a machine.
pub open spec fn gives_evdev(rule: Value, vm: Seq<char>, device: EvdevDevice) -> bool {
    &&& is_for(rule, vm)
    &&& any_selects_evdev(rule.items_at("allow"@), device)
    &&& !any_selects_evdev(rule.items_at("deny"@), device)
}

/// Whether a machine gets an input device: it is an event device, not on USB,
/// and a rule gives it.
pub open spec fn gets_evdev(rules: Seq<Value>, vm: Seq<char>, device: EvdevDevice) -> bool {
    &&& device.node is Some
    &&& occurs(device.node->0@, "/event"@)
    &&& property(device.properties@, "ID_BUS"@) != Some("usb"@)
    &&& exists|i: int| 0 <= i < rules.len() && gives_evdev(#[trigger] rules[i], vm, device)
}

/// The arguments for the input devices of a machine.
pub open spec fn input_args(
    rules: Seq<Value>,
    vm: Seq<char>,
    devices: Seq<EvdevDevice>,
) -> Seq<Seq<char>>
    decreases devices.len(),
{
    if devices.len() == 0 {
        Seq::empty()
    } else {
        let before = input_args(rules, vm, devices.drop_last());
        if gets_evdev(rules, vm, devices.last()) {
            before.push("--input"@).push("evdev[path="@ + devices.last().node->0@ + "]"@)
        } else {
            before
        }
    }
}

fn find_property<'a>(properties: &'a Vec<(String, String)>, name: &str) -> (out: Option<&'a str>)
    ensures
        opt_ref(out) == property(properties@, name@),
{
    let mut i: usize = 0;
    assert(properties@.skip(0) =~= properties@);
    while i < properties.len()
        invariant
            i <= properties.len(),
            property(properties@, name@) == property(properties@.skip(i as int), name@),
        decreases properties.len() - i,
    {
        let ghost rest = properties@.skip(i as int);
        assert(rest[0] == properties@[i as int]);
        assert(rest.skip(1) =~= properties@.skip(i + 1));
        if same(properties[i].0.as_str(), name) {
            return Some(properties[i].1.as_str());
        }
        i += 1;
    }
    None
}

/// Whether a selector picks an input device, given whether its patterns
/// match.
pub fn evdev_selector_picks(
    selector: &Value,
    device: &EvdevDevice,
    name_hit: bool,
    tag_hit: bool,
) -> (r: bool)
    ensures
        r == picks_evdev(*selector, *device, name_hit, tag_hit),
{
    if !json_enabled(selector) {
        return false;
    }
    if name_hit || tag_hit {
        return true;
    }
    match selector.get_str("property") {
        Some(name) => case_eq(find_property(&device.properties, name), selector.get_str("value")),
        None => false,
    }
}

/// Whether a selector picks an input device.
pub fn evdev_selector_matches(selector: &Value, device: &EvdevDevice) -> (r: bool)
    ensures
        r == selects_evdev(*selector, *device),
{
    let name = match &device.name {
        Some(name) => Some(name.as_str()),
        None => match &device.parent_name {
            Some(name) => Some(name.as_str()),
            None => find_property(&device.properties, "NAME"),
        },
    };
    let name_hit = regex_match(selector.get_str("name"), name);
    let tag_hit = regex_match(
        selector.get_str("pathTag"),
        find_property(&device.properties, "ID_PATH_TAG"),
    );
    evdev_selector_picks(selector, device, name_hit, tag_hit)
}

fn any_evdev_selector(rule: &Value, key: &str, device: &EvdevDevice) -> (r: bool)
    ensures
        r == any_selects_evdev(rule.items_at(key@), *device),
{
    match rule.get_array(key) {
        Some(selectors) => {
            let mut i: usize = 0;
            while i < selectors.len()
                invariant
                    i <= selectors.len(),
                    rule.items_at(key@) == selectors@,
                    forall|k: int| 0 <= k < i ==> !selects_evdev(#[trigger] selectors@[k], *device),
                decreases selectors.len() - i,
            {
                if evdev_selector_matches(&selectors[i], device) {
                    return true;
                }
                i += 1;
            }
            false
        },
        None => false,
    }
}

fn is_given(rules: &Vec<Value>, vm: &str, device: &EvdevDevice) -> (r: bool)
    ensures
        r == exists|i: int| 0 <= i < rules@.len() && gives_evdev(#[trigger] rules@[i], vm@, *device),
{
    let mut i: usize = 0;
    while i < rules.len()
        invariant
            i <= rules.len(),
            forall|k: int| 0 <= k < i ==> !gives_evdev(#[trigger] rules@[k], vm@, *device),
        decreases rules.len() - i,
    {
        let rule = &rules[i];
        if json_enabled(rule) && is_text(rule.get_str("targetVm"), vm) && any_evdev_selector(
            rule,
            "allow",
            device,
        ) && !any_evdev_selector(rule, "deny", device) {
            return true;
        }
        i += 1;
    }
    false
}

/// The arguments for the input devices of a machine.
pub fn evdev_args(rules: &Vec<Value>, vm: &str, devices: &Vec<EvdevDevice>) -> (out: Vec<String>)
    ensures
        views(out@) == input_args(rules@, vm@, devices@),
{
    let mut out: Vec<String> = Vec::new();
    let mut i: usize = 0;
    assert(devices@.take(0).len() == 0);
    assert(views(out@) =~= input_args(rules@, vm@, devices@.take(0)));
    while i < devices.len()
        invariant
            i <= devices.len(),
            views(out@) == input_args(rules@, vm@, devices@.take(i as int)),
        decreases devices.len() - i,
    {
        let device = &devices[i];
        let ghost next = devices@.take(i + 1);
        assert(next.drop_last() =~= devices@.take(i as int));
        assert(next.last() == *device);
        if let Some(node) = &device.node {
            if has_part(node.as_str(), "/event") && !is_text(
                find_property(&device.properties, "ID_BUS"),
                "usb",
            ) && is_given(rules, vm, device) {
                assert(gets_evdev(rules@, vm@, *device));
                let ghost done = out@;
                let flag: String = "--input".to_owned();
                out.push(flag);
                let ghost half = out@;
                let mut option: String = "evdev[path=".to_owned();
                option.append(node.as_str());
                option.append("]");
                out.push(option);
                proof {
                    lemma_views_push(done, flag);
                    lemma_views_push(half, option);
                }
            }
        }
        i += 1;
    }
    assert(devices@.take(devices@.len() as int) =~= devices@);
    out
}

/// No machine is started with a device of another one: a machine starts with
/// exactly the routed devices whose rule has it as its target, in order.
pub proof fn law_machine_starts_with_its_own(
    config: Config,
    devices: Seq<(PciDevice, RuleMatch)>,
    vm: Seq<char>,
    vmm: VmmArgs,
)
    requires
        is_vmm_start(config, devices, vm, vmm),
    ensures
        vmm.vm@ == vm,
        forall|i: int|
            #![trigger vmm.devices@[i]]
            0 <= i < vmm.devices@.len() ==> {
                &&& vmm.devices@[i].1.target_vm is Some
                &&& vmm.devices@[i].1.target_vm->0@ == vm
            },
        forall|i: int|
            #![trigger devices[i]]
            0 <= i < devices.len() && devices[i].1.target_vm is Some && devices[i].1.target_vm->0@
                == vm ==> vmm.devices@.contains(devices[i]),
        exists|places: Seq<int>| #[trigger]
            taken_at(devices, places, vmm.devices@) && forall|k: int|
                #![trigger places.contains(k)]
                0 <= k < devices.len() ==> (places.contains(k) <==> devices[k].1.target_vm is Some
                    && devices[k].1.target_vm->0@ == vm),
{
    let keep = |item: (PciDevice, RuleMatch)| opt(item.1.target_vm) == Some(vm);
    let places = lemma_filter_places(devices, keep);
    assert(taken_at(devices, places, vmm.devices@));
    assert forall|i: int|
        #![trigger vmm.devices@[i]]
        0 <= i < vmm.devices@.len() implies opt(vmm.devices@[i].1.target_vm) == Some(vm) by {
        assert(places.contains(places[i]));
        assert(keep(devices[places[i]]));
    }
    assert forall|i: int|
        #![trigger devices[i]]
        0 <= i < devices.len() && opt(devices[i].1.target_vm) == Some(
            vm,
        ) implies vmm.devices@.contains(devices[i]) by {
        assert(keep(devices[i]));
        assert(places.contains(i));
        let k = choose|k: int| 0 <= k < places.len() && places[k] == i;
        assert(vmm.devices@[k] == devices[i]);
    }
}

/// A request for the arguments of a machine goes on with a device of that
/// machine, and fails where the machine is unknown or must have devices and
/// no device has it as its target.
pub proof fn law_arguments_are_for_the_machine(
    manager: &DeviceManager,
    devices: Vec<(PciDevice, RuleMatch)>,
    vm: &str,
    require_pci: bool,
    step: VmmStep,
)
    requires
        call_ensures(DeviceManager::vmm_args, (manager, devices, vm, require_pci), step),
    ensures
        step matches VmmStep::Group { address, next } ==> exists|i: int|
            #![trigger devices@[i]]
            0 <= i < devices@.len() && devices@[i].0.address == address
                && devices@[i].1.target_vm is Some && devices@[i].1.target_vm->0@ == vm@,
        step matches VmmStep::Group { address, next } ==> forall|i: int|
            #![trigger next.vmm.devices@[i]]
            0 <= i < next.vmm.devices@.len() ==> next.vmm.devices@[i].1.target_vm is Some
                && next.vmm.devices@[i].1.target_vm->0@ == vm@,
        (forall|i: int|
            0 <= i < manager.config.vms@.len() ==> (#[trigger] manager.config.vms@[i]).name@ != vm@)
            ==> (step matches VmmStep::Failed(error) && (error matches Error::UnknownVm(name)
            && name@ == vm@)),
        require_pci && (forall|i: int|
            #![trigger devices@[i]]
            0 <= i < devices@.len() ==> devices@[i].1.target_vm is None
                || devices@[i].1.target_vm->0@ != vm@) ==> step is Failed,
        !require_pci && (exists|i: int|
            0 <= i < manager.config.vms@.len() && (#[trigger] manager.config.vms@[i]).name@ == vm@)
            ==> step !is Failed,
        step !is Done && step !is Bind,
{
    lemma_vm_named(manager.config.vms@, vm@);
    let keep = |item: (PciDevice, RuleMatch)| opt(item.1.target_vm) == Some(vm@);
    let places = lemma_filter_places(devices@, keep);
    assert forall|i: int|
        #![trigger devices_for(devices@, vm@)[i]]
        0 <= i < devices_for(devices@, vm@).len() implies keep(devices@[places[i]])
        && devices_for(devices@, vm@)[i] == devices@[places[i]] by {
        assert(places.contains(places[i]));
    }
    if step !is Failed {
        let vmm = choose|vmm: VmmArgs| #[trigger]
            is_pci_step(vmm, step) && is_vmm_start(manager.config, devices@, vm@, vmm);
        if vmm.devices@.len() > 0 {
            assert(vmm.devices@[0] == devices_for(devices@, vm@)[0]);
        }
    } else if devices_for(devices@, vm@).len() > 0 {
        assert(keep(devices@[places[0]]));
    }
}

/// A machine starts with the switch for isolated hotplug exactly where a rule
/// that is on has it as its target, and with nothing else.
pub proof fn law_isolation_follows_the_rules(
    config: Config,
    devices: Seq<(PciDevice, RuleMatch)>,
    vm: Seq<char>,
    vmm: VmmArgs,
)
    requires
        is_vmm_start(config, devices, vm, vmm),
    ensures
        vmm.args@.len() <= 1,
        vmm.args@.len() == 1 ==> vmm.args@[0]@ == "--vfio-isolate-hotplug"@,
        vmm.args@.len() == 1 <==> exists|i: int|
            #![trigger config.pci_passthrough@[i]]
            0 <= i < config.pci_passthrough@.len() && is_enabled(config.pci_passthrough@[i])
                && config.pci_passthrough@[i].text_at("targetVm"@) == Some(vm),
{
    assert(views(vmm.args@).len() == vmm.args@.len());
    if vmm.args@.len() > 0 {
        assert(views(vmm.args@)[0] == vmm.args@[0]@);
    }
}

/// A machine is told of a device by its path; that the device may be removed
/// again is said exactly where it is not on the root bus.
pub proof fn law_root_bus_is_not_removable(address: Seq<char>)
    ensures
        vfio_option(address, true) == "/sys/bus/pci/devices/"@ + address + ",iommu=viommu"@,
        vfio_option(address, false) == vfio_option(address, true) + ",removable=true"@,
{
    reveal_strlit("");
    assert(vfio_option(address, true) =~= "/sys/bus/pci/devices/"@ + address + ",iommu=viommu"@);
}

/// The arguments for some devices name each of them, in order, each behind
/// its own switch.
pub proof fn law_each_device_has_its_switch(addresses: Seq<Seq<char>>, root_bus: bool, i: int)
    requires
        0 <= i < addresses.len(),
    ensures
        vfio_args(addresses, root_bus).len() == 2 * addresses.len(),
        vfio_args(addresses, root_bus)[2 * i] == "--vfio"@,
        vfio_args(addresses, root_bus)[2 * i + 1] == vfio_option(addresses[i], root_bus),
    decreases addresses.len(),
{
    lemma_vfio_args_len(addresses, root_bus);
    lemma_vfio_args_len(addresses.drop_last(), root_bus);
    if i < addresses.len() - 1 {
        law_each_device_has_its_switch(addresses.drop_last(), root_bus, i);
    }
}

proof fn lemma_vfio_args_len(addresses: Seq<Seq<char>>, root_bus: bool)
    ensures
        vfio_args(addresses, root_bus).len() == 2 * addresses.len(),
    decreases addresses.len(),
{
    if addresses.len() > 0 {
        lemma_vfio_args_len(addresses.drop_last(), root_bus);
    }
}

/// A device whose group need not come along is passed alone: the machine is
/// told of it, where it was not yet, and of no other device of its group.
/// Where the group comes along, the machine is told of all of it.
pub proof fn law_group_is_passed_as_the_rule_says(
    before: VmmArgs,
    group: Seq<Seq<char>>,
    hand_over: Seq<Seq<char>>,
    after: VmmArgs,
)
    requires
        is_grouped(before, group, hand_over, after),
        before.devices@.len() > 0,
    ensures
        ({
            let device = before.devices@[0].0;
            let rule = before.devices@[0].1;
            let option = vfio_option(device.address@, rule.crosvm_use_root_bus);
            &&& !rule.iommu_add_all && !before.emitted@.contains_key(device.address@) ==> views(
                after.args@,
            ) == views(before.args@).push("--vfio"@).push(option)
            &&& !rule.iommu_add_all && before.emitted@.contains_key(device.address@) ==> views(
                after.args@,
            ) == views(before.args@)
            &&& rule.iommu_add_all ==> forall|i: int|
                #![trigger group[i]]
                0 <= i < group.len() && !before.emitted@.contains_key(group[i]) ==> views(
                    after.args@,
                ).contains(vfio_option(group[i], rule.crosvm_use_root_bus))
            &&& !rule.iommu_add_all ==> after.emitted@.contains_key(device.address@)
            &&& forall|i: int|
                #![trigger group[i]]
                0 <= i < group.len() && rule.iommu_add_all ==> after.emitted@.contains_key(group[i])
        }),
        after.devices@.len() == before.devices@.len() - 1,
        forall|i: int|
            #![trigger after.devices@[i]]
            0 <= i < after.devices@.len() ==> after.devices@[i] == before.devices@[i + 1],
        after.vm == before.vm,
        after.tables == before.tables,
{
    let (device, rule) = before.devices@[0];
    let root_bus = rule.crosvm_use_root_bus;
    let alone = seq![device.address@];
    if !rule.iommu_add_all {
        assert(alone.contains(alone[0]));
        assert(alone.drop_last() =~= Seq::<Seq<char>>::empty());
        assert(fresh(alone.drop_last(), before.emitted@).len() == 0);
        let new = fresh(alone, before.emitted@);
        if before.emitted@.contains_key(device.address@) {
            assert(new =~= Seq::<Seq<char>>::empty());
            assert(views(after.args@) =~= views(before.args@));
        } else {
            assert(new =~= alone);
            assert(vfio_args(alone.drop_last(), root_bus) =~= Seq::<Seq<char>>::empty());
            assert(views(after.args@) =~= views(before.args@).push("--vfio"@).push(
                vfio_option(device.address@, root_bus),
            ));
        }
    } else {
        assert forall|i: int|
            #![trigger group[i]]
            0 <= i < group.len() && !before.emitted@.contains_key(group[i]) implies views(
            after.args@,
        ).contains(vfio_option(group[i], root_bus)) by {
            let new = fresh(group, before.emitted@);
            law_fresh_is_complete(group, before.emitted@, i);
            let k = choose|k: int| 0 <= k < new.len() && new[k] == group[i];
            law_each_device_has_its_switch(new, root_bus, k);
            let at = views(before.args@).len() + 2 * k + 1;
            assert(views(after.args@)[at] == vfio_option(group[i], root_bus));
        }
        assert forall|i: int| 0 <= i < group.len() implies after.emitted@.contains_key(
            #[trigger] group[i],
        ) by {
            assert(group.contains(group[i]));
        }
    }
}

/// Every device of a group leaves the host before the machine starts, whatever
/// is passed, and nothing outside of the group does.
pub proof fn law_whole_group_leaves_the_host(
    before: VmmArgs,
    group: Seq<Seq<char>>,
    hand_over: Seq<Seq<char>>,
    after: VmmArgs,
)
    requires
        is_grouped(before, group, hand_over, after),
        before.devices@.len() > 0,
    ensures
        forall|i: int|
            #![trigger group[i]]
            0 <= i < group.len() ==> hand_over.contains(group[i]) || before.bound@.contains_key(
                group[i],
            ),
        group.len() == 0 ==> hand_over.contains(before.devices@[0].0.address@)
            || before.bound@.contains_key(before.devices@[0].0.address@),
        forall|i: int|
            #![trigger hand_over[i]]
            0 <= i < hand_over.len() ==> (group.contains(hand_over[i]) || (group.len() == 0
                && hand_over[i] == before.devices@[0].0.address@)) && !before.bound@.contains_key(
                hand_over[i],
            ) && after.bound@.contains_key(hand_over[i]),
{
    let address = before.devices@[0].0.address@;
    let members = quarantined(address, group);
    law_fresh_is_taken_once(members, before.bound@);
    assert forall|i: int| 0 <= i < group.len() implies hand_over.contains(#[trigger] group[i])
        || before.bound@.contains_key(group[i]) by {
        law_fresh_is_complete(members, before.bound@, i);
    }
    if group.len() == 0 {
        law_fresh_is_complete(members, before.bound@, 0);
    }
}

/// Whether an entry that is on names an ACPI table under `allow` in a rule
/// that is on and has the machine as its target.
pub open spec fn asks_table(
    rules: Seq<Value>,
    vm: Seq<char>,
    i: int,
    j: int,
    entry: Value,
) -> bool {
    &&& 0 <= i < rules.len()
    &&& switched_on(rules[i])
    &&& rules[i].text_at("targetVm"@) == Some(vm)
    &&& 0 <= j < rules[i].items_at("allow"@).len()
    &&& rules[i].items_at("allow"@)[j] == entry
    &&& switched_on(entry)
    &&& entry.text_at("acpiTable"@) is Some
}

/// Whether a table is the one that an entry names, with the owner that it
/// gives the file.
pub open spec fn tells_of(entry: Value, table: AcpiTable) -> bool {
    &&& entry.at("acpiTable"@) matches Some(Value::Text(name)) && name@ == table.table@
    &&& opt(table.user) == entry.text_at("setUser"@)
    &&& opt(table.group) == entry.text_at("setGroup"@)
}

/// Whether some entry of the rules for a machine names a table.
pub open spec fn is_asked_for(rules: Seq<Value>, vm: Seq<char>, table: AcpiTable) -> bool {
    exists|i: int, j: int, entry: Value|
        #![trigger asks_table(rules, vm, i, j, entry)]
        asks_table(rules, vm, i, j, entry) && tells_of(entry, table)
}

/// A machine gets exactly the ACPI tables that the rules for it name.
pub proof fn law_tables_are_those_of_the_rules(rules: &Vec<Value>, vm: &str, out: Vec<AcpiTable>)
    requires
        call_ensures(acpi_tables, (rules, vm), out),
    ensures
        forall|k: int|
            #![trigger out@[k]]
            0 <= k < out@.len() ==> is_asked_for(rules@, vm@, out@[k]),
        forall|i: int, j: int, entry: Value| #[trigger]
            asks_table(rules@, vm@, i, j, entry) ==> exists|k: int|
                0 <= k < out@.len() && Some((#[trigger] out@[k]).table@) == entry.text_at(
                    "acpiTable"@,
                ),
{
    let entries = acpi_entries(rules@, vm@);
    assert forall|k: int|
        #![trigger out@[k]]
        0 <= k < out@.len() implies is_asked_for(rules@, vm@, out@[k]) by {
        assert(is_acpi_table(entries[k], out@[k]));
        let (i, j) = lemma_entry_is_asked(rules@, vm@, k);
        assert(asks_table(rules@, vm@, i, j, entries[k]));
        assert(tells_of(entries[k], out@[k]));
    }
    assert forall|i: int, j: int, entry: Value| #[trigger]
        asks_table(rules@, vm@, i, j, entry) implies exists|k: int|
        0 <= k < out@.len() && Some((#[trigger] out@[k]).table@) == entry.text_at(
            "acpiTable"@,
        ) by {
        let k = lemma_asked_is_entry(rules@, vm@, i, j, entry);
        assert(is_acpi_table(entries[k], out@[k]));
    }
}

proof fn lemma_entry_is_asked(rules: Seq<Value>, vm: Seq<char>, k: int) -> (at: (int, int))
    requires
        0 <= k < acpi_entries(rules, vm).len(),
    ensures
        asks_table(rules, vm, at.0, at.1, acpi_entries(rules, vm)[k]),
    decreases rules.len(),
{
    let short = rules.drop_last();
    let before = acpi_entries(short, vm);
    if k < before.len() {
        lemma_entry_is_asked(short, vm, k)
    } else {
        let allow = rules.last().items_at("allow"@);
        let keep = |entry: Value| switched_on(entry) && entry.text_at("acpiTable"@) is Some;
        let places = lemma_filter_places(allow, keep);
        let at = places[k - before.len()];
        assert(places.contains(at));
        assert(keep(allow[at]));
        assert(table_entries(allow)[k - before.len()] == allow[at]);
        (rules.len() - 1, at)
    }
}

proof fn lemma_asked_is_entry(
    rules: Seq<Value>,
    vm: Seq<char>,
    i: int,
    j: int,
    entry: Value,
) -> (k: int)
    requires
        asks_table(rules, vm, i, j, entry),
    ensures
        0 <= k < acpi_entries(rules, vm).len(),
        acpi_entries(rules, vm)[k] == entry,
    decreases rules.len(),
{
    let short = rules.drop_last();
    let before = acpi_entries(short, vm);
    if i < short.len() {
        assert(asks_table(short, vm, i, j, entry));
        lemma_asked_is_entry(short, vm, i, j, entry)
    } else {
        let allow = rules.last().items_at("allow"@);
        let keep = |entry: Value| switched_on(entry) && entry.text_at("acpiTable"@) is Some;
        let places = lemma_filter_places(allow, keep);
        assert(keep(allow[j]));
        assert(places.contains(j));
        let m = choose|m: int| 0 <= m < places.len() && places[m] == j;
        assert(table_entries(allow)[m] == entry);
        before.len() + m
    }
}

/// A selector picks an input device exactly where it is on and its name
/// pattern matches the name, its tag pattern matches the path tag, or the
/// property that it asks for has the value that it gives, in any letter case.
pub proof fn law_input_selectors(selector: &Value, device: &EvdevDevice, r: bool)
    requires
        call_ensures(evdev_selector_matches, (selector, device), r),
    ensures
        r <==> selects_evdev(*selector, *device),
        !switched_on(*selector) ==> !r,
        selector.at("name"@) is None && selector.at("pathTag"@) is None && selector.at(
            "property"@,
        ) is None ==> !r,
        switched_on(*selector) && selector.text_at("name"@) is Some && device.name is Some
            && matches_start(selector.text_at("name"@)->0, device.name->0@) ==> r,
        switched_on(*selector) && selector.text_at("name"@) is Some && device.name is None
            && device.parent_name is Some && matches_start(
            selector.text_at("name"@)->0,
            device.parent_name->0@,
        ) ==> r,
        r && selector.at("pathTag"@) is None && selector.at("property"@) is None
            && device.name is Some ==> selector.text_at("name"@) is Some && matches_start(
            selector.text_at("name"@)->0,
            device.name->0@,
        ),
        r && selector.at("name"@) is None && selector.at("property"@) is None ==> selector.text_at(
            "pathTag"@,
        ) is Some && property(device.properties@, "ID_PATH_TAG"@) is Some && matches_start(
            selector.text_at("pathTag"@)->0,
            property(device.properties@, "ID_PATH_TAG"@)->0,
        ),
        selector.at("name"@) is None && selector.at("pathTag"@) is None && switched_on(*selector)
            ==> (r <==> {
            &&& selector.text_at("property"@) is Some
            &&& selector.text_at("value"@) is Some
            &&& property(device.properties@, selector.text_at("property"@)->0) is Some
            &&& same_letters(
                property(device.properties@, selector.text_at("property"@)->0)->0,
                selector.text_at("value"@)->0,
            )
        }),
{
}

/// A property is the first one of its name.
pub proof fn law_first_property_counts(
    properties: Seq<(String, String)>,
    name: Seq<char>,
    at: int,
)
    requires
        0 <= at <= properties.len(),
        forall|k: int| 0 <= k < at ==> (#[trigger] properties[k]).0@ != name,
        at < properties.len() ==> properties[at].0@ == name,
    ensures
        property(properties, name) == if at < properties.len() {
            Some(properties[at].1@)
        } else {
            None
        },
    decreases properties.len(),
{
    if at > 0 {
        let rest = properties.skip(1);
        assert(properties[0].0@ != name);
        assert forall|k: int| 0 <= k < at - 1 implies (#[trigger] rest[k]).0@ != name by {
            assert(rest[k] == properties[k + 1]);
        }
        law_first_property_counts(rest, name, at - 1);
    }
}

/// Whether a list of arguments has, as its pair at a place, the switch for an
/// input device and the device at a node.
pub open spec fn passes_input(args: Seq<Seq<char>>, k: int, node: Seq<char>) -> bool {
    &&& 0 <= k
    &&& 2 * k + 1 < args.len()
    &&& args[2 * k] == "--input"@
    &&& args[2 * k + 1] == "evdev[path="@ + node + "]"@
}

/// Whether the pair at a place of a list of arguments passes one of the
/// devices that go to a machine.
pub open spec fn passes_one_of(
    rules: Seq<Value>,
    vm: Seq<char>,
    devices: Seq<EvdevDevice>,
    args: Seq<Seq<char>>,
    k: int,
) -> bool {
    exists|i: int|
        0 <= i < devices.len() && goes_to(rules, vm, devices[i]) && #[trigger] passes_input(
            args,
            k,
            devices[i].node->0@,
        )
}

/// A machine gets exactly the event devices that are not on USB and that a
/// rule which is on and has the machine as its target allows and does not
/// deny.
pub proof fn law_inputs_are_those_of_the_rules(
    rules: &Vec<Value>,
    vm: &str,
    devices: &Vec<EvdevDevice>,
    out: Vec<String>,
)
    requires
        call_ensures(evdev_args, (rules, vm, devices), out),
    ensures
        out@.len() % 2 == 0,
        forall|i: int|
            #![trigger devices@[i]]
            0 <= i < devices@.len() && goes_to(rules@, vm@, devices@[i]) ==> exists|k: int|
                #[trigger]
                passes_input(views(out@), k, devices@[i].node->0@),
        forall|k: int|
            0 <= k < out@.len() / 2 ==> #[trigger] passes_one_of(
                rules@,
                vm@,
                devices@,
                views(out@),
                k,
            ),
{
    lemma_inputs(rules@, vm@, devices@);
    assert(views(out@).len() == out@.len());
}

/// Whether an input device goes to a machine.
pub open spec fn goes_to(rules: Seq<Value>, vm: Seq<char>, device: EvdevDevice) -> bool {
    &&& device.node is Some
    &&& occurs(device.node->0@, "/event"@)
    &&& property(device.properties@, "ID_BUS"@) is Some ==> property(
        device.properties@,
        "ID_BUS"@,
    )->0 != "usb"@
    &&& exists|i: int|
        #![trigger rules[i]]
        0 <= i < rules.len() && switched_on(rules[i]) && rules[i].text_at("targetVm"@) == Some(vm)
            && (exists|k: int|
            #![trigger rules[i].items_at("allow"@)[k]]
            0 <= k < rules[i].items_at("allow"@).len() && selects_evdev(
                rules[i].items_at("allow"@)[k],
                device,
            )) && (forall|k: int|
            #![trigger rules[i].items_at("deny"@)[k]]
            0 <= k < rules[i].items_at("deny"@).len() ==> !selects_evdev(
                rules[i].items_at("deny"@)[k],
                device,
            ))
}

proof fn lemma_goes_to(rules: Seq<Value>, vm: Seq<char>, device: EvdevDevice)
    ensures
        goes_to(rules, vm, device) == gets_evdev(rules, vm, device),
{
    if gets_evdev(rules, vm, device) {
        let i = choose|i: int| 0 <= i < rules.len() && gives_evdev(#[trigger] rules[i], vm, device);
        let allow = rules[i].items_at("allow"@);
        let k = choose|k: int| 0 <= k < allow.len() && selects_evdev(#[trigger] allow[k], device);
        assert(selects_evdev(rules[i].items_at("allow"@)[k], device));
        assert forall|k: int|
            #![trigger rules[i].items_at("deny"@)[k]]
            0 <= k < rules[i].items_at("deny"@).len() implies !selects_evdev(
            rules[i].items_at("deny"@)[k],
            device,
        ) by {}
    }
    if goes_to(rules, vm, device) {
        let i = choose|i: int|
            #![trigger rules[i]]
            0 <= i < rules.len() && switched_on(rules[i]) && rules[i].text_at("targetVm"@) == Some(
                vm,
            ) && (exists|k: int|
                #![trigger rules[i].items_at("allow"@)[k]]
                0 <= k < rules[i].items_at("allow"@).len() && selects_evdev(
                    rules[i].items_at("allow"@)[k],
                    device,
                )) && (forall|k: int|
                #![trigger rules[i].items_at("deny"@)[k]]
                0 <= k < rules[i].items_at("deny"@).len() ==> !selects_evdev(
                    rules[i].items_at("deny"@)[k],
                    device,
                ));
        assert(any_selects_evdev(rules[i].items_at("allow"@), device));
        assert(gives_evdev(rules[i], vm, device));
    }
}

proof fn lemma_inputs(rules: Seq<Value>, vm: Seq<char>, devices: Seq<EvdevDevice>)
    ensures
        input_args(rules, vm, devices).len() % 2 == 0,
        forall|i: int|
            #![trigger devices[i]]
            0 <= i < devices.len() && goes_to(rules, vm, devices[i]) ==> exists|k: int| #[trigger]
                passes_input(input_args(rules, vm, devices), k, devices[i].node->0@),
        forall|k: int|
            0 <= k < input_args(rules, vm, devices).len() / 2 ==> #[trigger] passes_one_of(
                rules,
                vm,
                devices,
                input_args(rules, vm, devices),
                k,
            ),
    decreases devices.len(),
{
    if devices.len() > 0 {
        let short = devices.drop_last();
        let last = devices.last();
        lemma_inputs(rules, vm, short);
        lemma_goes_to(rules, vm, last);
        let before = input_args(rules, vm, short);
        let out = input_args(rules, vm, devices);
        let half = (before.len() / 2) as int;
        assert forall|i: int|
            #![trigger devices[i]]
            0 <= i < devices.len() && goes_to(rules, vm, devices[i]) implies exists|k: int|
            #[trigger]
            passes_input(out, k, devices[i].node->0@) by {
            if i < short.len() {
                assert(short[i] == devices[i]);
                let k = choose|k: int| #[trigger] passes_input(before, k, short[i].node->0@);
                assert(passes_input(out, k, devices[i].node->0@));
            } else {
                assert(passes_input(out, half, devices[i].node->0@));
            }
        }
        assert forall|k: int| 0 <= k < out.len() / 2 implies #[trigger] passes_one_of(
            rules,
            vm,
            devices,
            out,
            k,
        ) by {
            if k < half {
                assert(passes_one_of(rules, vm, short, before, k));
                let i = choose|i: int|
                    0 <= i < short.len() && goes_to(rules, vm, short[i])
                        && #[trigger] passes_input(before, k, short[i].node->0@);
                assert(devices[i] == short[i]);
                assert(passes_input(out, k, devices[i].node->0@));
            } else {
                assert(devices[devices.len() - 1] == last);
                assert(passes_input(out, k, devices[devices.len() - 1].node->0@));
            }
        }
    }
}

/// A table whose file is there is passed behind its switch, one whose file is
/// not is left out, and the input devices end the arguments.
pub proof fn law_tables_and_inputs_end_the_arguments(
    table: VmmAcpi,
    there: bool,
    after: VmmStep,
    inputs: VmmEvdev,
    manager: &DeviceManager,
    devices: Vec<EvdevDevice>,
    end: VmmStep,
)
    requires
        table.vmm.tables@.len() == 1,
        call_ensures(VmmAcpi::checked, (table, Ok(there)), after),
        call_ensures(VmmEvdev::found, (inputs, manager, Ok(devices)), end),
    ensures
        after matches VmmStep::Evdev(next) && next.vmm.vm == table.vmm.vm
            && next.vmm.tables@.len() == 0 && if there {
            views(next.vmm.args@) == views(table.vmm.args@) + seq![
                "--acpi-table"@,
                table.vmm.tables@[0].table@,
            ]
        } else {
            views(next.vmm.args@) == views(table.vmm.args@)
        },
        end matches VmmStep::Done(args) && args@.len() >= inputs.vmm.args@.len() && forall|i: int|
            0 <= i < inputs.vmm.args@.len() ==> #[trigger] args@[i]@ == inputs.vmm.args@[i]@,
{
    if there {
        assert(views(table.vmm.args@).push("--acpi-table"@).push(table.vmm.tables@[0].table@)
            =~= views(table.vmm.args@) + seq!["--acpi-table"@, table.vmm.tables@[0].table@]);
    }
    match end {
        VmmStep::Done(args) => {
            assert(views(args@).len() == args@.len());
            assert forall|i: int| 0 <= i < inputs.vmm.args@.len() implies #[trigger] args@[i]@
                == inputs.vmm.args@[i]@ by {
                assert(views(args@)[i] == views(inputs.vmm.args@)[i]);
            }
        },
        _ => {},
    }
}

/// The tables of a machine are dealt with one after the other, and what else is
/// known of the machine stays.
pub proof fn law_tables_come_in_turn(table: VmmAcpi, there: bool, after: VmmStep)
    requires
        table.vmm.tables@.len() > 1,
        call_ensures(VmmAcpi::checked, (table, Ok(there)), after),
    ensures
        after matches VmmStep::Acpi { table: second, next } && second == table.vmm.tables@[1]
            && next.vmm.tables@.len() == table.vmm.tables@.len() - 1 && next.vmm.tables@[0]
            == second && next.vmm.vm == table.vmm.vm && next.vmm.devices == table.vmm.devices && (
        forall|i: int|
            0 <= i < table.vmm.args@.len() ==> (#[trigger] next.vmm.args@[i])@
                == table.vmm.args@[i]@) && next.vmm.args@.len() == table.vmm.args@.len() + if there {
            2int
        } else {
            0int
        },
{
    match after {
        VmmStep::Acpi { table: second, next } => {
            assert(views(next.vmm.args@).len() == next.vmm.args@.len());
            assert(views(table.vmm.args@).len() == table.vmm.args@.len());
            assert forall|i: int| 0 <= i < table.vmm.args@.len() implies (
            #[trigger] next.vmm.args@[i])@ == table.vmm.args@[i]@ by {
                assert(views(next.vmm.args@)[i] == views(table.vmm.args@)[i]);
            }
        },
        _ => {},
    }
}

/// Before a group of devices is passed to a machine, all of it leaves the host:
/// each of its devices that has not yet is handed over, one after the other.
pub proof fn law_group_is_handed_over(
    task: VmmGroup,
    group: Vec<String>,
    step: VmmStep,
    bind: VmmBind,
    after: VmmStep,
    i: int,
)
    requires
        call_ensures(VmmGroup::grouped, (task, Ok(group)), step),
        call_ensures(VmmBind::bound, (bind, Ok(())), after),
        task.vmm.devices@.len() > 0,
        0 <= i < group@.len(),
    ensures
        step matches VmmStep::Bind { address, next } ==> {
            &&& next.left@.len() > 0 && next.left@[0]@ == address@
            &&& views(next.left@).contains(group@[i]@) || task.vmm.bound@.contains_key(group@[i]@)
            &&& next.vmm.bound@.contains_key(group@[i]@)
            &&& next.vmm.vm == task.vmm.vm
            &&& next.vmm.devices@.len() == task.vmm.devices@.len() - 1
        },
        step !is Bind ==> task.vmm.bound@.contains_key(group@[i]@),
        bind.left@.len() > 1 ==> (after matches VmmStep::Bind { address, next } && address@
            == bind.left@[1]@ && next.vmm == bind.vmm && next.left@.len() == bind.left@.len() - 1),
        bind.left@.len() <= 1 && bind.vmm.devices@.len() > 0 ==> (
        after matches VmmStep::Group { address, next } && address@
            == bind.vmm.devices@[0].0.address@ && next.vmm == bind.vmm),
        bind.left@.len() <= 1 && bind.vmm.devices@.len() == 0 && bind.vmm.tables@.len() > 0 ==> (
        after matches VmmStep::Acpi { table, next } && table == bind.vmm.tables@[0] && next.vmm
            == bind.vmm),
        bind.left@.len() <= 1 && bind.vmm.devices@.len() == 0 && bind.vmm.tables@.len() == 0
            ==> after == VmmStep::Evdev((VmmEvdev { vmm: bind.vmm })),
{
    let members = views(group@);
    assert(members.len() == group@.len());
    assert(members[i] == group@[i]@);
    let (vmm, left) = choose|vmm: VmmArgs, left: Seq<Seq<char>>| #[trigger]
        is_grouped(task.vmm, members, left, vmm) && is_bind_step(vmm, left, step);
    law_whole_group_leaves_the_host(task.vmm, members, left, vmm);
    assert(left.contains(members[i]) || task.vmm.bound@.contains_key(members[i]));
    assert(quarantined(task.vmm.devices@[0].0.address@, members).contains(members[i]));
    match step {
        VmmStep::Bind { address, next } => {
            assert(views(next.left@).len() == next.left@.len());
            assert(left.len() > 0);
            assert(views(next.left@)[0] == next.left@[0]@);
        },
        _ => {
            assert(left.len() == 0);
        },
    }
    assert(views(bind.left@).len() == bind.left@.len());
    if bind.left@.len() > 1 {
        assert(rest_of(views(bind.left@))[0] == bind.left@[1]@);
        match after {
            VmmStep::Bind { address, next } => {
                assert(views(next.left@).len() == next.left@.len());
            },
            _ => {},
        }
    }
}

} // verus!
