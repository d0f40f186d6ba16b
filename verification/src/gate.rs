//! Keeping host drivers off routed USB devices, step by step.

use crate::config::is_enabled;
use crate::device::UsbDevice;
use crate::error::Error;
use crate::manager::{is_held, is_reserved, routed_keys, usb_keys, DeviceManager};
use crate::order::{lemma_filter_places, sorts};
use crate::pci::rest_of;
use crate::table::StringMap;
use crate::text::opt;
use crate::usb_gate::{close, device_names, interfaces, interfaces_of, not_held, open, probe};
use crate::usb_gate::{is_closed, lemma_sorted_filter, reads_closed, release, settle, settled};
use crate::usb_gate::without_interfaces;
use crate::usb_gate::{Place, Settle, SysfsWrite};
use vstd::prelude::*;

verus! {

/// What a pass over the drivers needs next.
#[derive(Debug)]
pub enum GateStep {
    /// Close the USB gate. That is done in every pass, since a second daemon that
    /// failed to start opens it on its way out.
    Close { write: SysfsWrite, next: GateClosing },
    /// List the entries of the device directory.
    ListDevices(GateListing),
    /// Read the driver of this device.
    ReadDeviceDriver { name: String, next: Configuring },
    /// Have this device configured. A failure is reported and does no harm.
    Probe { write: SysfsWrite, next: Configuring },
    /// Look at all USB devices.
    Scan(GateScan),
    /// List the entries of the device directory again.
    ListAgain(SettleListing),
    /// List the entries of the device directory to find the interfaces of
    /// this device.
    ListInterfaces { name: String, next: Settling },
    /// Read the driver of this interface.
    ReadDriver { name: String, next: Settling },
    /// Settle the driver of an interface. A failure is reported and does no
    /// harm.
    Write { write: SysfsWrite, next: Settling },
    Finished,
    Failed(Error),
}

/// The USB gate is closed.
#[derive(Debug)]
pub struct GateClosing {}

/// The devices are listed.
#[derive(Debug)]
pub struct GateListing {}

/// The first round: each device without a driver is probed, which creates the
/// interfaces that the rules look at.
#[derive(Debug)]
pub struct Configuring {
    /// The devices that are left.
    pub devices: Vec<String>,
}

/// The devices are looked at.
#[derive(Debug)]
pub struct GateScan {}

/// The devices are listed again.
#[derive(Debug)]
pub struct SettleListing {
    /// The names of the devices that are kept from the host.
    pub routed: StringMap<()>,
}

/// The second round: routed devices give their host drivers up, the others
/// get theirs.
#[derive(Debug)]
pub struct Settling {
    /// The names of the devices that are kept from the host.
    pub routed: StringMap<()>,
    /// The devices that are left.
    pub devices: Vec<String>,
    /// The interfaces that are left of the device before those.
    pub interfaces: Vec<String>,
    /// Whether that device is kept from the host.
    pub is_routed: bool,
}

impl DeviceManager {
    /// Closes the USB gate at the start, where there is anything to keep closed.
    pub fn close_usb_gate(&self, has_bus: bool) -> (write: Option<SysfsWrite>)
        ensures
            write is Some <==> self.gates(has_bus),
            write is Some ==> write->0.is(Place::Bus, "drivers_autoprobe"@, "0"@),
    {
        if self.gates_usb(has_bus) {
            Some(close())
        } else {
            None
        }
    }

    /// Starts a pass over the drivers. Without USB rules, or where the bus
    /// cannot be gated, there is nothing to do.
    pub fn apply_usb_gate(&self, has_bus: bool) -> (step: GateStep)
        ensures
            if self.gates(has_bus) {
                step matches GateStep::Close { write, next } && write.is(
                    Place::Bus,
                    "drivers_autoprobe"@,
                    "0"@,
                )
            } else {
                step is Finished
            },
    {
        match self.close_usb_gate(has_bus) {
            Some(write) => GateStep::Close { write, next: GateClosing {  } },
            None => GateStep::Finished,
        }
    }

    /// Starts to hand the devices back, from the content of the attribute
    /// that says whether the USB gate is closed. Without USB rules the attribute
    /// is never written.
    pub fn open_usb_gate(&self, has_bus: bool, content: &Option<String>) -> (step: ReopenStep)
        ensures
            if self.gates(has_bus) && reads_closed(opt(*content)) {
                step is Scan
            } else {
                step is Finished
            },
    {
        if self.gates_usb(has_bus) && is_closed(content) {
            ReopenStep::Scan(ReopenScan {  })
        } else {
            ReopenStep::Finished
        }
    }
}

impl GateClosing {
    /// Goes on once the USB gate is closed.
    pub fn closed(self, outcome: Result<(), Error>) -> (step: GateStep)
        ensures
            match outcome {
                Ok(_) => step is ListDevices,
                Err(error) => step == GateStep::Failed(error),
            },
    {
        match outcome {
            Ok(_) => GateStep::ListDevices(GateListing {  }),
            Err(error) => GateStep::Failed(error),
        }
    }
}

/// Whether `step` deals with the first of the devices that are left in the
/// first round, or ends the round where none is.
pub open spec fn is_configure_step(devices: Seq<String>, step: GateStep) -> bool {
    if devices.len() == 0 {
        step is Scan
    } else {
        &&& step matches GateStep::ReadDeviceDriver { name, next }
        &&& name == devices[0]
        &&& next.devices@ == devices
    }
}

impl GateListing {
    /// Takes the entries of the device directory.
    pub fn listed(self, entries: Result<Vec<String>, Error>) -> (step: GateStep)
        ensures
            match entries {
                Ok(entries) => exists|names: Seq<String>| #[trigger]
                    sorts(without_interfaces(entries@), names) && is_configure_step(names, step),
                Err(error) => step == GateStep::Failed(error),
            },
    {
        match entries {
            Ok(entries) => {
                let devices = device_names(entries);
                Configuring { devices }.tried()
            },
            Err(error) => GateStep::Failed(error),
        }
    }
}

impl Configuring {
    /// Goes on with the devices that are left.
    pub fn tried(self) -> (step: GateStep)
        ensures
            is_configure_step(self.devices@, step),
    {
        if self.devices.len() == 0 {
            GateStep::Scan(GateScan {  })
        } else {
            let name = self.devices[0].clone();
            GateStep::ReadDeviceDriver { name, next: self }
        }
    }

    /// Takes the driver of the first device.
    pub fn driver(self, driver: &Option<String>) -> (step: GateStep)
        ensures
            if self.devices@.len() > 0 && driver is None {
                &&& step matches GateStep::Probe { write, next }
                &&& write.probes(self.devices@[0]@)
                &&& next.devices@ == self.devices@.skip(1)
            } else {
                is_configure_step(rest_of(self.devices@), step)
            },
    {
        let mut next = self;
        if next.devices.len() == 0 {
            return next.tried();
        }
        let name = next.devices.remove(0);
        assert(next.devices@ =~= self.devices@.skip(1));
        if driver.is_none() {
            GateStep::Probe { write: probe(name.as_str()), next }
        } else {
            next.tried()
        }
    }
}

impl GateScan {
    /// Takes the devices that are there, and decides which are kept from the
    /// host.
    pub fn scanned(self, manager: &mut DeviceManager, devices: Result<Vec<UsbDevice>, Error>) -> (
    step: GateStep)
        ensures
            match devices {
                Err(error) => step == GateStep::Failed(error) && *final(manager) == *old(manager),
                Ok(devices) => {
                    &&& step matches GateStep::ListAgain(next)
                    &&& forall|name: Seq<char>| #[trigger]
                        next.routed@.contains_key(name) <==> is_reserved(
                            old(manager).config,
                            usb_keys(old(manager).usb_routing@),
                            old(manager).state,
                            devices@,
                            name,
                        )
                    &&& usb_keys(final(manager).usb_routing@) == routed_keys(
                        old(manager).config,
                        usb_keys(old(manager).usb_routing@),
                        devices@,
                    )
                    &&& *final(manager) == (DeviceManager {
                        usb_routing: final(manager).usb_routing,
                        ..*old(manager)
                    })
                },
            },
    {
        match devices {
            Ok(devices) => {
                let routed = manager.usb_routing(&devices);
                GateStep::ListAgain(SettleListing { routed })
            },
            Err(error) => GateStep::Failed(error),
        }
    }
}

/// Whether `step` deals with the first of the interfaces that are left in the
/// second round, else with the first of the devices, or ends the pass where
/// none is left.
pub open spec fn is_settle_step(round: Settling, step: GateStep) -> bool {
    if round.interfaces@.len() > 0 {
        step == (GateStep::ReadDriver { name: round.interfaces@[0], next: round })
    } else if round.devices@.len() > 0 {
        step == (GateStep::ListInterfaces { name: round.devices@[0], next: round })
    } else {
        step is Finished
    }
}

impl SettleListing {
    /// Takes the entries of the device directory.
    pub fn listed(self, entries: Result<Vec<String>, Error>) -> (step: GateStep)
        ensures
            match entries {
                Ok(entries) => exists|round: Settling| #[trigger]
                    is_settle_step(round, step) && round.routed == self.routed && sorts(
                        without_interfaces(entries@),
                        round.devices@,
                    ) && round.interfaces@.len() == 0,
                Err(error) => step == GateStep::Failed(error),
            },
    {
        match entries {
            Ok(entries) => {
                let round = Settling {
                    routed: self.routed,
                    devices: device_names(entries),
                    interfaces: Vec::new(),
                    is_routed: false,
                };
                round.tried()
            },
            Err(error) => GateStep::Failed(error),
        }
    }
}

impl Settling {
    /// Goes on with what is left.
    pub fn tried(self) -> (step: GateStep)
        ensures
            is_settle_step(self, step),
    {
        if self.interfaces.len() > 0 {
            let name = self.interfaces[0].clone();
            GateStep::ReadDriver { name, next: self }
        } else if self.devices.len() > 0 {
            let name = self.devices[0].clone();
            GateStep::ListInterfaces { name, next: self }
        } else {
            GateStep::Finished
        }
    }

    /// Takes the entries of the device directory and finds the interfaces of
    /// the first device in them. Where they cannot be listed the device is
    /// left alone.
    pub fn listed(self, entries: Option<Vec<String>>) -> (step: GateStep)
        ensures
            self.devices@.len() == 0 ==> is_settle_step(self, step),
            self.devices@.len() > 0 ==> exists|round: Settling| #[trigger]
                is_settle_step(round, step) && round.routed == self.routed && round.devices@
                    == self.devices@.skip(1) && round.is_routed == self.routed@.contains_key(
                    self.devices@[0]@,
                ) && match entries {
                    Some(entries) => sorts(
                        interfaces_of(entries@, self.devices@[0]@),
                        round.interfaces@,
                    ),
                    None => round.interfaces@.len() == 0,
                },
    {
        if self.devices.len() == 0 {
            return self.tried();
        }
        let mut round = self;
        let name = round.devices.remove(0);
        assert(round.devices@ =~= self.devices@.skip(1));
        round.is_routed = round.routed.contains_key(name.as_str());
        round.interfaces = match entries {
            Some(entries) => interfaces(entries, name.as_str()),
            None => Vec::new(),
        };
        round.tried()
    }

    /// Takes the driver of the first interface, and settles it: a routed
    /// device gives its host driver up, any other gets one.
    pub fn driver(self, driver: &Option<String>) -> (step: GateStep)
        ensures
            self.interfaces@.len() == 0 ==> is_settle_step(self, step),
            self.interfaces@.len() > 0 ==> {
                let name = self.interfaces@[0]@;
                let verdict = settled(self.is_routed, opt(*driver));
                if verdict == Settle::Keep {
                    exists|round: Settling| #[trigger]
                        is_settle_step(round, step) && is_settle_rest(self, round)
                } else {
                    &&& step matches GateStep::Write { write, next }
                    &&& is_settle_rest(self, next)
                    &&& verdict == Settle::Release ==> write.releases(name)
                    &&& verdict == Settle::Probe ==> write.probes(name)
                }
            },
    {
        if self.interfaces.len() == 0 {
            return self.tried();
        }
        let mut round = self;
        let name = round.interfaces.remove(0);
        assert(round.interfaces@ =~= self.interfaces@.skip(1));
        assert(is_settle_rest(self, round));
        match settle(round.is_routed, driver) {
            Settle::Release => GateStep::Write { write: release(name.as_str()), next: round },
            Settle::Probe => GateStep::Write { write: probe(name.as_str()), next: round },
            Settle::Keep => round.tried(),
        }
    }
}

/// Whether `rest` is what is left when the first interface is done.
pub open spec fn is_settle_rest(round: Settling, rest: Settling) -> bool {
    &&& rest.routed == round.routed
    &&& rest.devices == round.devices
    &&& rest.is_routed == round.is_routed
    &&& rest.interfaces@ == round.interfaces@.skip(1)
}

/// What handing the devices back needs next.
#[derive(Debug)]
pub enum ReopenStep {
    /// Look at all USB devices, to leave those alone that a VM holds.
    Scan(ReopenScan),
    /// Open the USB gate.
    Open { write: SysfsWrite, next: ReopenOpening },
    /// List the entries of the device directory.
    ListDevices(ReopenListing),
    /// Read the driver of this device or interface.
    ReadDriver { name: String, next: Reopening },
    /// List the entries of the device directory to find the interfaces of
    /// this device.
    ListInterfaces { name: String, next: Reopening },
    /// Have a driver looked for. A failure is reported and does no harm.
    Probe { write: SysfsWrite, next: Reopening },
    Finished,
    Failed(Error),
}

/// The devices are looked at.
#[derive(Debug)]
pub struct ReopenScan {}

/// The USB gate is opened.
#[derive(Debug)]
pub struct ReopenOpening {
    /// The names of the devices that a VM holds.
    pub held: StringMap<()>,
}

/// The devices are listed.
#[derive(Debug)]
pub struct ReopenListing {
    /// The names of the devices that a VM holds.
    pub held: StringMap<()>,
}

/// Opening the USB gate covers only what is plugged in later, so every device and
/// interface that the USB gate left without a driver is probed. Those of a device
/// that a VM holds are left out: an interface that a guest has not claimed
/// looks driverless too, and a host driver on it would put host and guest on
/// one device.
#[derive(Debug)]
pub struct Reopening {
    /// The devices that are left.
    pub devices: Vec<String>,
    /// Whether the driver of the first of them was read.
    pub probed: bool,
    /// The interfaces that are left of the device before those.
    pub interfaces: Vec<String>,
}

impl ReopenScan {
    /// Takes the devices that are there; none where they cannot be read.
    pub fn scanned(self, manager: &DeviceManager, devices: Option<Vec<UsbDevice>>) -> (step:
        ReopenStep)
        ensures
            step matches ReopenStep::Open { write, next } && write.is(
                Place::Bus,
                "drivers_autoprobe"@,
                "1"@,
            ) && forall|name: Seq<char>| #[trigger]
                next.held@.contains_key(name) <==> devices is Some && is_held(
                    manager.state,
                    devices->0@,
                    name,
                ),
    {
        let held = match devices {
            Some(devices) => manager.usb_held_by_vms(&devices),
            None => StringMap::new(),
        };
        ReopenStep::Open { write: open(), next: ReopenOpening { held } }
    }
}

impl ReopenOpening {
    /// Goes on once the USB gate is open.
    pub fn opened(self, outcome: Result<(), Error>) -> (step: ReopenStep)
        ensures
            step == match outcome {
                Ok(_) => ReopenStep::ListDevices((ReopenListing { held: self.held })),
                Err(error) => ReopenStep::Failed(error),
            },
    {
        match outcome {
            Ok(_) => ReopenStep::ListDevices(ReopenListing { held: self.held }),
            Err(error) => ReopenStep::Failed(error),
        }
    }
}

/// Whether `step` deals with the first of the interfaces that are left, else
/// with the first of the devices, or ends where none is left.
pub open spec fn is_reopen_step(round: Reopening, step: ReopenStep) -> bool {
    if round.interfaces@.len() > 0 {
        step == (ReopenStep::ReadDriver { name: round.interfaces@[0], next: round })
    } else if round.devices@.len() == 0 {
        step is Finished
    } else if round.probed {
        step == (ReopenStep::ListInterfaces { name: round.devices@[0], next: round })
    } else {
        step == (ReopenStep::ReadDriver { name: round.devices@[0], next: round })
    }
}

/// Whether `round` starts with the devices that no VM holds, in order.
pub open spec fn is_reopen_start(
    entries: Seq<String>,
    held: Map<Seq<char>, ()>,
    round: Reopening,
) -> bool {
    &&& exists|names: Seq<String>| #[trigger]
        sorts(without_interfaces(entries), names) && round.devices@ == not_held(names, held)
    &&& !round.probed
    &&& round.interfaces@.len() == 0
}

impl ReopenListing {
    /// Takes the entries of the device directory, and leaves out the devices
    /// that a VM holds.
    pub fn listed(self, entries: Result<Vec<String>, Error>) -> (step: ReopenStep)
        ensures
            match entries {
                Ok(entries) => exists|round: Reopening| #[trigger]
                    is_reopen_step(round, step) && is_reopen_start(entries@, self.held@, round),
                Err(error) => step == ReopenStep::Failed(error),
            },
    {
        let entries = match entries {
            Ok(entries) => entries,
            Err(error) => {
                return ReopenStep::Failed(error);
            },
        };
        let ghost listing = entries@;
        let names = device_names(entries);
        let ghost all = names@;
        let mut devices: Vec<String> = Vec::new();
        proof {
            reveal(Seq::filter);
            assert(all.take(0).len() == 0);
        }
        for name in it: names
            invariant
                it.seq() == all,
                devices@ == not_held(all.take(it.index()), self.held@),
        {
            let ghost next = all.take(it.index() + 1);
            proof {
                reveal(Seq::filter);
                assert(next.drop_last() =~= all.take(it.index()));
                assert(next.last() == name);
            }
            if !self.held.contains_key(name.as_str()) {
                devices.push(name);
            }
        }
        assert(all.take(all.len() as int) =~= all);
        let round = Reopening { devices, probed: false, interfaces: Vec::new() };
        assert(is_reopen_start(listing, self.held@, round));
        round.tried()
    }
}

impl Reopening {
    /// Goes on with what is left.
    pub fn tried(self) -> (step: ReopenStep)
        ensures
            is_reopen_step(self, step),
    {
        if self.interfaces.len() > 0 {
            let name = self.interfaces[0].clone();
            ReopenStep::ReadDriver { name, next: self }
        } else if self.devices.len() == 0 {
            ReopenStep::Finished
        } else {
            let name = self.devices[0].clone();
            if self.probed {
                ReopenStep::ListInterfaces { name, next: self }
            } else {
                ReopenStep::ReadDriver { name, next: self }
            }
        }
    }

    /// Takes the driver that was asked for: what has none is probed.
    pub fn driver(self, driver: &Option<String>) -> (step: ReopenStep)
        ensures
            ({
                let rest = reopen_rest(self);
                if self.interfaces@.len() == 0 && (self.devices@.len() == 0 || self.probed) {
                    is_reopen_step(self, step)
                } else if driver is None {
                    let name = if self.interfaces@.len() > 0 {
                        self.interfaces@[0]@
                    } else {
                        self.devices@[0]@
                    };
                    &&& step matches ReopenStep::Probe { write, next }
                    &&& write.probes(name)
                    &&& is_reopen_rest(rest, next)
                } else {
                    exists|round: Reopening| #[trigger]
                        is_reopen_step(round, step) && is_reopen_rest(rest, round)
                }
            }),
    {
        let mut next = self;
        let name = if next.interfaces.len() > 0 {
            next.interfaces.remove(0)
        } else if next.devices.len() > 0 && !next.probed {
            next.probed = true;
            next.devices[0].clone()
        } else {
            return next.tried();
        };
        assert(is_reopen_rest(reopen_rest(self), next));
        if driver.is_none() {
            ReopenStep::Probe { write: probe(name.as_str()), next }
        } else {
            next.tried()
        }
    }

    /// Takes the entries of the device directory and finds the interfaces of
    /// the first device in them. Where they cannot be listed the device is
    /// left alone.
    pub fn listed(self, entries: Option<Vec<String>>) -> (step: ReopenStep)
        ensures
            self.devices@.len() == 0 ==> is_reopen_step(self, step),
            self.devices@.len() > 0 ==> exists|round: Reopening| #[trigger]
                is_reopen_step(round, step) && round.devices@ == self.devices@.skip(1)
                    && !round.probed && match entries {
                    Some(entries) => sorts(
                        interfaces_of(entries@, self.devices@[0]@),
                        round.interfaces@,
                    ),
                    None => round.interfaces@.len() == 0,
                },
    {
        if self.devices.len() == 0 {
            return self.tried();
        }
        let mut round = self;
        let name = round.devices.remove(0);
        assert(round.devices@ =~= self.devices@.skip(1));
        round.probed = false;
        round.interfaces = match entries {
            Some(entries) => interfaces(entries, name.as_str()),
            None => Vec::new(),
        };
        round.tried()
    }
}

/// What is left when a driver was read: the devices, whether the first was
/// read, and the interfaces.
pub open spec fn reopen_rest(round: Reopening) -> (Seq<String>, bool, Seq<String>) {
    if round.interfaces@.len() > 0 {
        (round.devices@, round.probed, round.interfaces@.skip(1))
    } else {
        (round.devices@, true, round.interfaces@)
    }
}

pub open spec fn is_reopen_rest(rest: (Seq<String>, bool, Seq<String>), round: Reopening) -> bool {
    round.devices@ == rest.0 && round.probed == rest.1 && round.interfaces@ == rest.2
}

/// Without a bus that can be closed or a USB rule that is on nothing is
/// written: no pass over the drivers starts, and none is handed back. With both
/// a pass starts by closing the bus, and devices are handed back only where it
/// reads as closed.
pub proof fn law_bus_is_left_alone_without_rules(
    manager: &DeviceManager,
    has_bus: bool,
    content: &Option<String>,
    closed: bool,
    first: Option<SysfsWrite>,
    step: GateStep,
    back: ReopenStep,
)
    requires
        call_ensures(is_closed, (content,), closed),
        call_ensures(DeviceManager::close_usb_gate, (manager, has_bus), first),
        call_ensures(DeviceManager::apply_usb_gate, (manager, has_bus), step),
        call_ensures(DeviceManager::open_usb_gate, (manager, has_bus, content), back),
    ensures
        ({
            let kept = has_bus && exists|i: int|
                #![trigger manager.config.usb_passthrough@[i]]
                0 <= i < manager.config.usb_passthrough@.len() && is_enabled(
                    manager.config.usb_passthrough@[i],
                );
            &&& first is Some <==> kept
            &&& first is Some ==> first->0.path@ == "drivers_autoprobe"@ && first->0.value@ == "0"@
            &&& kept ==> (step matches GateStep::Close { write, .. } && write.path@
                == "drivers_autoprobe"@ && write.value@ == "0"@)
            &&& !kept ==> step is Finished
            &&& kept && closed ==> back is Scan
            &&& !(kept && closed) ==> back is Finished
        }),
{
}

/// In the first round exactly the devices without a driver are probed.
pub proof fn law_first_round(round: Configuring, driver: &Option<String>, step: GateStep)
    requires
        call_ensures(Configuring::driver, (round, driver), step),
        round.devices@.len() > 0,
    ensures
        driver is None ==> (step matches GateStep::Probe { write, next } && write.probes(
            round.devices@[0]@,
        ) && next.devices@ == round.devices@.skip(1)),
        driver is Some && round.devices@.len() > 1 ==> (
        step matches GateStep::ReadDeviceDriver { name, next } && name == round.devices@[1]
            && next.devices@ == round.devices@.skip(1)),
        driver is Some && round.devices@.len() == 1 ==> step is Scan,
{
}

/// The names that the second round keeps from the host are those of the
/// routing, and the routing is remembered.
pub proof fn law_second_round_follows_the_routing(
    scan: GateScan,
    manager: &mut DeviceManager,
    devices: Vec<UsbDevice>,
    step: GateStep,
    other: &mut DeviceManager,
    routed: StringMap<()>,
    name: Seq<char>,
)
    requires
        call_ensures(GateScan::scanned, (scan, manager, Ok(devices)), step),
        call_ensures(DeviceManager::usb_routing, (other, &devices), routed),
        *old(other) == *old(manager),
    ensures
        step matches GateStep::ListAgain(next) && (next.routed@.contains_key(name)
            <==> routed@.contains_key(name)),
        usb_keys(final(manager).usb_routing@) == usb_keys(final(other).usb_routing@),
        final(manager).state == old(manager).state,
{
}

/// In the second round the interfaces of each device are settled as that
/// device is: it is routed exactly where its own name is kept from the host,
/// and its interfaces are those of that name.
pub proof fn law_interfaces_follow_their_device(
    round: Settling,
    entries: Vec<String>,
    step: GateStep,
    owner: &str,
    names: Vec<String>,
    without: GateStep,
)
    requires
        round.devices@.len() > 0,
        call_ensures(Settling::listed, (round, Some(entries)), step),
        owner@ == round.devices@[0]@,
        call_ensures(interfaces, (entries, owner), names),
        call_ensures(Settling::listed, (round, None), without),
    ensures
        step matches GateStep::ReadDriver { name, next } ==> {
            &&& names@.to_multiset() == next.interfaces@.to_multiset()
            &&& name == next.interfaces@[0]
            &&& next.is_routed <==> round.routed@.contains_key(round.devices@[0]@)
            &&& next.devices@ == round.devices@.skip(1)
            &&& next.routed == round.routed
        },
        step is ReadDriver <==> names@.len() > 0,
        without !is ReadDriver,
        round.devices@.len() > 1 ==> (without matches GateStep::ListInterfaces { name, next }
            && name == round.devices@[1]),
        round.devices@.len() == 1 ==> without is Finished,
{
    broadcast use vstd::seq_lib::group_to_multiset_ensures;

    let found = choose|found: Settling| #[trigger]
        is_settle_step(found, step) && found.routed == round.routed && found.devices@
            == round.devices@.skip(1) && found.is_routed == round.routed@.contains_key(
            round.devices@[0]@,
        ) && sorts(interfaces_of(entries@, round.devices@[0]@), found.interfaces@);
    assert(found.interfaces@.to_multiset() == names@.to_multiset());
    assert(found.interfaces@.to_multiset().len() == found.interfaces@.len());
    assert(names@.to_multiset().len() == names@.len());
}

/// An interface of a routed device gives its driver up, unless that is a claim
/// or that of a hub, and gets none; an interface of any other device gets one
/// where it has none, and keeps what it has.
pub proof fn law_second_round(round: Settling, driver: &Option<String>, step: GateStep)
    requires
        call_ensures(Settling::driver, (round, driver), step),
        round.interfaces@.len() > 0,
    ensures
        round.is_routed && driver is Some && driver->0@ != "usbfs"@ && driver->0@ != "hub"@ ==> (
        step matches GateStep::Write { write, .. } && write.path@ == round.interfaces@[0]@
            + "/driver/unbind"@ && write.value@ == round.interfaces@[0]@),
        !round.is_routed && driver is None ==> (step matches GateStep::Write { write, .. }
            && write.path@ == "drivers_probe"@ && write.value@ == round.interfaces@[0]@),
        round.is_routed && driver is None ==> step !is Write,
        !round.is_routed && driver is Some ==> step !is Write,
        driver is Some && (driver->0@ == "usbfs"@ || driver->0@ == "hub"@) ==> step !is Write,
        step matches GateStep::Write { next, .. } ==> next.interfaces@ == round.interfaces@.skip(1)
            && next.devices == round.devices && next.is_routed == round.is_routed && next.routed
            == round.routed,
        step !is Write && round.interfaces@.len() > 1 ==> (
        step matches GateStep::ReadDriver { name, next } && name == round.interfaces@[1]
            && next.is_routed == round.is_routed),
{
}

/// Devices are handed back by opening the bus first; those that a machine has
/// are told by the same look that tells which devices machines have.
pub proof fn law_handing_back_opens_the_bus(
    scan: ReopenScan,
    manager: &DeviceManager,
    devices: Vec<UsbDevice>,
    step: ReopenStep,
    held: StringMap<()>,
    name: Seq<char>,
)
    requires
        call_ensures(ReopenScan::scanned, (scan, manager, Some(devices)), step),
        call_ensures(DeviceManager::usb_held_by_vms, (manager, &devices), held),
    ensures
        step matches ReopenStep::Open { write, next } && write.path@ == "drivers_autoprobe"@
            && write.value@ == "1"@ && (next.held@.contains_key(name) <==> held@.contains_key(
            name,
        )),
{
}

/// Only devices that no machine has are handed back, and of those the first in
/// order is looked at first.
pub proof fn law_held_devices_are_not_handed_back(
    listing: ReopenListing,
    entries: Vec<String>,
    step: ReopenStep,
)
    requires
        call_ensures(ReopenListing::listed, (listing, Ok(entries)), step),
    ensures
        step is ReadDriver || step is Finished,
        step matches ReopenStep::ReadDriver { name, next } ==> {
            &&& !listing.held@.contains_key(name@)
            &&& entries@.contains(name)
            &&& !name@.contains(':')
            &&& name == next.devices@[0]
            &&& forall|i: int|
                #![trigger next.devices@[i]]
                0 <= i < next.devices@.len() ==> !listing.held@.contains_key(next.devices@[i]@)
            &&& next.interfaces@.len() == 0
            &&& !next.probed
        },
        step is Finished ==> forall|i: int|
            #![trigger entries@[i]]
            0 <= i < entries@.len() && !entries@[i]@.contains(':') ==> listing.held@.contains_key(
                entries@[i]@,
            ),
{
    let held = listing.held@;
    let round = choose|round: Reopening| #[trigger]
        is_reopen_step(round, step) && is_reopen_start(entries@, held, round);
    let names = choose|names: Seq<String>| #[trigger]
        sorts(without_interfaces(entries@), names) && round.devices@ == not_held(names, held);
    let keep = |name: String| !held.contains_key(name@);
    let places = lemma_filter_places(names, keep);
    let plain = |name: String| !name@.contains(':');
    assert forall|i: int|
        #![trigger round.devices@[i]]
        0 <= i < round.devices@.len() implies keep(round.devices@[i]) && names.contains(
        round.devices@[i],
    ) by {
        assert(places.contains(places[i]));
        assert(round.devices@[i] == names[places[i]]);
    }
    if round.devices@.len() > 0 {
        lemma_sorted_filter(entries@, plain, names, round.devices@[0]);
    } else {
        assert forall|i: int|
            #![trigger entries@[i]]
            0 <= i < entries@.len() && !entries@[i]@.contains(':') implies held.contains_key(
            entries@[i]@,
        ) by {
            lemma_sorted_filter(entries@, plain, names, entries@[i]);
            let k = choose|k: int| 0 <= k < names.len() && names[k] == entries@[i];
            if keep(names[k]) {
                assert(places.contains(k));
            }
        }
    }
}

/// What has a driver is not probed when devices are handed back, and what has
/// none is: each device before its interfaces.
pub proof fn law_handing_back_probes_what_has_no_driver(
    round: Reopening,
    driver: &Option<String>,
    step: ReopenStep,
)
    requires
        call_ensures(Reopening::driver, (round, driver), step),
        round.interfaces@.len() > 0 || (round.devices@.len() > 0 && !round.probed),
    ensures
        step is Probe <==> driver is None,
        step matches ReopenStep::Probe { write, next } ==> write.path@ == "drivers_probe"@
            && write.value@ == (if round.interfaces@.len() > 0 {
            round.interfaces@[0]@
        } else {
            round.devices@[0]@
        }) && next.devices@ == round.devices@,
        round.interfaces@.len() == 0 && driver is Some ==> (
        step matches ReopenStep::ListInterfaces { name, next } && name == round.devices@[0]
            && next.devices@ == round.devices@),
{
}

/// A failure to close or open the bus or to list the devices ends the pass.
pub proof fn law_failed_pass_ends(
    error: Error,
    closing: GateClosing,
    listing: GateListing,
    scan: GateScan,
    manager: &mut DeviceManager,
    again: SettleListing,
    one: GateStep,
    opening: ReopenOpening,
    back: ReopenListing,
    two: ReopenStep,
)
    requires
        call_ensures(GateClosing::closed, (closing, Err(error)), one) || call_ensures(
            GateListing::listed,
            (listing, Err(error)),
            one,
        ) || call_ensures(GateScan::scanned, (scan, manager, Err(error)), one) || call_ensures(
            SettleListing::listed,
            (again, Err(error)),
            one,
        ),
        call_ensures(ReopenOpening::opened, (opening, Err(error)), two) || call_ensures(
            ReopenListing::listed,
            (back, Err(error)),
            two,
        ),
    ensures
        one == GateStep::Failed(error),
        two == ReopenStep::Failed(error),
{
}

/// The second round goes over the devices of the bus with the routing that it
/// was given.
pub proof fn law_second_round_starts_with_the_routing(
    listing: SettleListing,
    entries: Vec<String>,
    step: GateStep,
    failed: GateStep,
    error: Error,
)
    requires
        call_ensures(SettleListing::listed, (listing, Ok(entries)), step),
        call_ensures(SettleListing::listed, (listing, Err(error)), failed),
    ensures
        step is ListInterfaces || step is Finished,
        step matches GateStep::ListInterfaces { name, next } ==> next.routed == listing.routed
            && next.devices@.len() > 0 && next.devices@[0] == name && next.interfaces@.len() == 0,
        failed == GateStep::Failed(error),
{
}

} // verus!
