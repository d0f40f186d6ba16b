//! Which USB devices host drivers may bind to.
//!
//! While the USB gate is closed the kernel binds no driver by itself. A routed
//! device must never be bound: a claim would take the driver off in the middle
//! of a command, which leaves some firmware unusable until power is cut.

use crate::order::{in_order, lemma_filter_places, precedes, sort, sorts};
use crate::text::{before, begins, chars, has_char, is_space, law_trimming, lists, opt, piece, same};
use crate::text::{starts_with, trim, trimmed};
use vstd::prelude::*;

verus! {

/// The attribute of the bus that lets the kernel bind drivers by itself.
pub const AUTOPROBE: &'static str = "drivers_autoprobe";

/// The driver name under which a VM holds a device.
pub const CLAIM: &'static str = "usbfs";

/// The driver of hubs. Taking it off would cut every device behind the hub.
pub const HUB: &'static str = "hub";

/// The directory that a path starts from.
#[derive(Clone, Copy, Debug, PartialEq, Eq, Structural)]
pub enum Place {
    Bus,
    Devices,
}

/// A value to write to a file of sysfs.
#[derive(Debug)]
pub struct SysfsWrite {
    pub place: Place,
    pub path: String,
    pub value: String,
}

impl SysfsWrite {
    /// Whether this writes the value to the file.
    pub open spec fn is(self, place: Place, path: Seq<char>, value: Seq<char>) -> bool {
        self.place == place && self.path@ == path && self.value@ == value
    }

    /// Whether this makes the kernel look for a driver.
    pub open spec fn probes(self, name: Seq<char>) -> bool {
        self.is(Place::Bus, "drivers_probe"@, name)
    }

    /// Whether this takes the bound driver off.
    pub open spec fn releases(self, name: Seq<char>) -> bool {
        self.is(Place::Devices, name + "/driver/unbind"@, name)
    }
}

/// Closes the USB gate.
pub fn close() -> (out: SysfsWrite)
    ensures
        out.is(Place::Bus, "drivers_autoprobe"@, "0"@),
{
    autoprobe("0")
}

/// Opens the USB gate.
pub fn open() -> (out: SysfsWrite)
    ensures
        out.is(Place::Bus, "drivers_autoprobe"@, "1"@),
{
    autoprobe("1")
}

/// Sets the USB gate.
pub fn autoprobe(value: &str) -> (out: SysfsWrite)
    ensures
        out.is(Place::Bus, "drivers_autoprobe"@, value@),
{
    SysfsWrite { place: Place::Bus, path: AUTOPROBE.to_owned(), value: value.to_owned() }
}

/// Makes the kernel look for a driver of a device or an interface.
pub fn probe(name: &str) -> (out: SysfsWrite)
    ensures
        out.probes(name@),
{
    SysfsWrite { place: Place::Bus, path: "drivers_probe".to_owned(), value: name.to_owned() }
}

/// Takes the driver off a device or an interface. The driver ends its
/// outstanding commands first, which a claim does not wait for.
pub fn release(name: &str) -> (out: SysfsWrite)
    ensures
        out.releases(name@),
{
    let mut path: String = name.to_owned();
    path.append("/driver/unbind");
    SysfsWrite { place: Place::Devices, path, value: name.to_owned() }
}

/// Whether the content of the attribute says that the USB gate is closed.
pub open spec fn reads_closed(content: Option<Seq<char>>) -> bool {
    content is Some && trimmed(content->0) == "0"@
}

/// Whether the USB gate is closed. An attribute that cannot be read says no.
pub fn is_closed(content: &Option<String>) -> (r: bool)
    ensures
        r == reads_closed(opt(*content)),
{
    match content {
        Some(text) => {
            let text = trim(text.as_str());
            same(text.as_str(), "0")
        },
        None => false,
    }
}

/// The names that belong to devices: an interface carries a colon.
pub open spec fn without_interfaces(entries: Seq<String>) -> Seq<String> {
    entries.filter(|name: String| !name@.contains(':'))
}

/// The devices among the entries of a directory, sorted.
pub fn device_names(entries: Vec<String>) -> (out: Vec<String>)
    ensures
        sorts(without_interfaces(entries@), out@),
{
    let mut names: Vec<String> = Vec::new();
    let ghost all = entries@;
    proof {
        reveal(Seq::filter);
        assert(all.take(0).len() == 0);
    }
    for name in it: entries
        invariant
            it.seq() == all,
            names@ == without_interfaces(all.take(it.index())),
    {
        let ghost next = all.take(it.index() + 1);
        proof {
            reveal(Seq::filter);
            assert(next.drop_last() =~= all.take(it.index()));
            assert(next.last() == name);
        }
        if !has_char(name.as_str(), ':') {
            names.push(name);
        }
    }
    assert(all.take(all.len() as int) =~= all);
    sort(names)
}

/// Whether every character is a decimal digit.
pub open spec fn is_number(text: Seq<char>) -> bool {
    forall|i: int| 0 <= i < text.len() ==> '0' <= #[trigger] text[i] <= '9'
}

/// Whether a name is that of a root hub: `usb` and the number of its bus.
pub open spec fn is_root_hub(sys_name: Seq<char>) -> bool {
    begins(sys_name, "usb"@) && sys_name.len() > "usb"@.len() && is_number(
        sys_name.skip("usb"@.len() as int),
    )
}

/// The name that the interfaces of a device start with. A root hub is the
/// exception: the interfaces of `usb2` are named after `2-0`.
pub open spec fn interface_owner(sys_name: Seq<char>) -> Seq<char> {
    if is_root_hub(sys_name) {
        sys_name.skip("usb"@.len() as int) + "-0"@
    } else {
        sys_name
    }
}

/// What the names of a device's interfaces start with. The colon keeps the
/// interfaces of `2-10` out of those of `2-1`.
pub open spec fn interface_prefix(sys_name: Seq<char>) -> Seq<char> {
    interface_owner(sys_name) + ":"@
}

/// The interfaces of a device among the entries of a directory.
pub open spec fn interfaces_of(entries: Seq<String>, sys_name: Seq<char>) -> Seq<String> {
    entries.filter(|name: String| begins(name@, interface_prefix(sys_name)))
}

fn bus_number(sys_name: &str) -> (out: Option<String>)
    ensures
        out is Some <==> is_root_hub(sys_name@),
        out is Some ==> out->0@ == sys_name@.skip("usb"@.len() as int),
{
    if !starts_with(sys_name, "usb") {
        return None;
    }
    let t = chars(sys_name);
    let start: usize = chars("usb").len();
    if start == t.len() {
        return None;
    }
    let ghost rest = sys_name@.skip(start as int);
    let mut i: usize = start;
    while i < t.len()
        invariant
            start <= i <= t.len(),
            t@ == sys_name@,
            start == "usb"@.len(),
            rest == sys_name@.skip(start as int),
            forall|k: int| 0 <= k < i - start ==> '0' <= #[trigger] rest[k] <= '9',
        decreases t.len() - i,
    {
        if t[i] < '0' || t[i] > '9' {
            assert(!('0' <= rest[i - start] <= '9'));
            return None;
        }
        i += 1;
    }
    let number = piece(&t, start, t.len());
    assert(number@ =~= rest);
    Some(number)
}

fn prefix_of(sys_name: &str) -> (out: String)
    ensures
        out@ == interface_prefix(sys_name@),
{
    match bus_number(sys_name) {
        Some(number) => {
            let mut out = number;
            out.append("-0");
            out.append(":");
            out
        },
        None => {
            let mut out: String = sys_name.to_owned();
            out.append(":");
            out
        },
    }
}

/// The interfaces of a device among the entries of a directory, sorted.
pub fn interfaces(entries: Vec<String>, sys_name: &str) -> (out: Vec<String>)
    ensures
        sorts(interfaces_of(entries@, sys_name@), out@),
{
    let prefix = prefix_of(sys_name);
    let mut names: Vec<String> = Vec::new();
    let ghost all = entries@;
    proof {
        reveal(Seq::filter);
        assert(all.take(0).len() == 0);
    }
    for name in it: entries
        invariant
            it.seq() == all,
            prefix@ == interface_prefix(sys_name@),
            names@ == interfaces_of(all.take(it.index()), sys_name@),
    {
        let ghost next = all.take(it.index() + 1);
        proof {
            reveal(Seq::filter);
            assert(next.drop_last() =~= all.take(it.index()));
            assert(next.last() == name);
        }
        if starts_with(name.as_str(), prefix.as_str()) {
            names.push(name);
        }
    }
    assert(all.take(all.len() as int) =~= all);
    sort(names)
}

/// Whether a driver may be taken off: it is neither a VM's claim nor that of
/// a hub.
pub open spec fn may_release(driver: Seq<char>) -> bool {
    driver != "usbfs"@ && driver != "hub"@
}

/// Whether a driver may be taken off.
pub fn releasable(driver: &str) -> (r: bool)
    ensures
        r == may_release(driver@),
{
    !same(driver, CLAIM) && !same(driver, HUB)
}

/// What to do about the driver of an interface.
#[derive(Clone, Copy, Debug, PartialEq, Eq, Structural)]
pub enum Settle {
    Release,
    Probe,
    Keep,
}

/// What to do about the driver of an interface: a routed device gives its
/// host driver up, any other gets one.
pub open spec fn settled(is_routed: bool, driver: Option<Seq<char>>) -> Settle {
    match driver {
        Some(driver) => if is_routed && may_release(driver) {
            Settle::Release
        } else {
            Settle::Keep
        },
        None => if is_routed {
            Settle::Keep
        } else {
            Settle::Probe
        },
    }
}

/// What to do about the driver of an interface.
pub fn settle(is_routed: bool, driver: &Option<String>) -> (out: Settle)
    ensures
        out == settled(is_routed, opt(*driver)),
{
    match driver {
        Some(driver) => if is_routed && releasable(driver.as_str()) {
            Settle::Release
        } else {
            Settle::Keep
        },
        None => if is_routed {
            Settle::Keep
        } else {
            Settle::Probe
        },
    }
}

/// An interface of a routed device is never probed, and only a driver that
/// may be taken off is. An interface of any other device never loses its
/// driver.
pub proof fn law_routed_is_never_probed(is_routed: bool, driver: Option<Seq<char>>)
    ensures
        is_routed ==> settled(is_routed, driver) != Settle::Probe,
        !is_routed ==> settled(is_routed, driver) != Settle::Release,
        settled(is_routed, driver) == Settle::Release ==> driver is Some && may_release(driver->0),
{
}

/// A VM's own claim and the driver of a hub are never touched.
pub proof fn law_claim_and_hub_stay(is_routed: bool)
    ensures
        settled(is_routed, Some("usbfs"@)) == Settle::Keep,
        settled(is_routed, Some("hub"@)) == Settle::Keep,
{
}

/// Settling is stable: an interface that was settled stays as it is. A
/// released one has no driver any more; a probed one has whatever driver the
/// kernel found, or none.
pub proof fn law_settled_stays(is_routed: bool, driver: Option<Seq<char>>, found: Seq<char>)
    ensures
        settled(is_routed, driver) == Settle::Release ==> settled(is_routed, None) == Settle::Keep,
        settled(is_routed, driver) == Settle::Probe ==> settled(is_routed, Some(found))
            == Settle::Keep,
{
}

proof fn lemma_before_prefix(name: Seq<char>, owner: Seq<char>)
    requires
        begins(name, owner + ":"@),
        !owner.contains(':'),
    ensures
        before(name, ':') == owner,
    decreases owner.len(),
{
    reveal_strlit(":");
    let prefix = owner + ":"@;
    assert(name.take(prefix.len() as int) == prefix);
    assert(name[0] == prefix[0]);
    if owner.len() == 0 {
        assert(name[0] == ':');
        assert(before(name, ':') =~= owner);
    } else {
        assert(owner[0] != ':') by {
            assert(owner.contains(owner[0]));
        }
        assert(name[0] == owner[0]);
        let rest = owner.skip(1);
        assert forall|i: int| 0 <= i < rest.len() implies rest[i] != ':' by {
            assert(owner.contains(owner[i + 1]));
        }
        assert(!rest.contains(':'));
        assert(begins(name.skip(1), rest + ":"@)) by {
            assert forall|i: int| 0 <= i < rest.len() + 1 implies name.skip(1)[i] == (rest
                + ":"@)[i] by {
                assert(name[i + 1] == prefix[i + 1]);
            }
            assert(name.skip(1).take((rest + ":"@).len() as int) =~= rest + ":"@);
        }
        lemma_before_prefix(name.skip(1), rest);
        assert(before(name, ':') =~= owner);
    }
}

/// No interface belongs to two devices: where the interfaces of two devices
/// are named differently, no name belongs to both.
pub proof fn law_interfaces_do_not_leak(one: Seq<char>, other: Seq<char>, interface: Seq<char>)
    requires
        !one.contains(':'),
        !other.contains(':'),
        interface_owner(one) != interface_owner(other),
    ensures
        !(begins(interface, interface_prefix(one)) && begins(interface, interface_prefix(other))),
{
    lemma_owner_plain(one);
    lemma_owner_plain(other);
    if begins(interface, interface_prefix(one)) && begins(interface, interface_prefix(other)) {
        lemma_before_prefix(interface, interface_owner(one));
        lemma_before_prefix(interface, interface_owner(other));
    }
}

proof fn lemma_owner_plain(name: Seq<char>)
    requires
        !name.contains(':'),
    ensures
        !interface_owner(name).contains(':'),
{
    reveal_strlit("usb");
    reveal_strlit("-0");
    let owner = interface_owner(name);
    if is_root_hub(name) {
        let number = name.skip("usb"@.len() as int);
        assert forall|i: int| 0 <= i < owner.len() implies owner[i] != ':' by {
            if i < number.len() {
                assert(owner[i] == number[i]);
                assert('0' <= number[i] <= '9');
            }
        }
    }
}

/// Devices that are no root hubs name their interfaces differently.
pub proof fn law_owners_differ(one: Seq<char>, other: Seq<char>)
    requires
        !is_root_hub(one),
        !is_root_hub(other),
        one != other,
    ensures
        interface_owner(one) != interface_owner(other),
{
}

/// The devices that no VM holds.
pub open spec fn not_held(names: Seq<String>, held: Map<Seq<char>, ()>) -> Seq<String> {
    names.filter(|name: String| !held.contains_key(name@))
}

/// A device that a VM holds is not handed back.
pub proof fn law_held_is_not_handed_back(
    names: Seq<String>,
    held: Map<Seq<char>, ()>,
    device: Seq<char>,
)
    requires
        held.contains_key(device),
    ensures
        !lists(not_held(names, held), device),
    decreases names.len(),
{
    reveal(Seq::filter);
    if names.len() > 0 {
        let short = names.drop_last();
        law_held_is_not_handed_back(short, held, device);
        let kept = not_held(names, held);
        let before = not_held(short, held);
        if lists(kept, device) {
            let i = choose|i: int| 0 <= i < kept.len() && #[trigger] kept[i]@ == device;
            if i < before.len() {
                assert(before[i]@ == device);
            }
        }
    }
}

/// What is done about a driver: exactly an interface of a routed device with a
/// driver that is neither a claim nor that of a hub gives it up, and exactly an
/// interface without a driver of any other device gets one.
pub proof fn law_drivers_are_settled(is_routed: bool, driver: &Option<String>, out: Settle)
    requires
        call_ensures(settle, (is_routed, driver), out),
    ensures
        out is Release <==> is_routed && driver is Some && driver->0@ != "usbfs"@ && driver->0@
            != "hub"@,
        out is Probe <==> !is_routed && driver is None,
        out == settled(is_routed, opt(*driver)),
{
}

/// What is written to settle drivers: closing and opening set the switch of
/// the bus, a probe names the device to the bus, and a release names the
/// interface to the driver that it has.
pub proof fn law_writes(
    closed: SysfsWrite,
    opened: SysfsWrite,
    name: &str,
    probed: SysfsWrite,
    released: SysfsWrite,
)
    requires
        call_ensures(close, (), closed),
        call_ensures(open, (), opened),
        call_ensures(probe, (name,), probed),
        call_ensures(release, (name,), released),
    ensures
        closed.place is Bus && closed.path@ == "drivers_autoprobe"@ && closed.value@ == "0"@,
        opened.place is Bus && opened.path@ == "drivers_autoprobe"@ && opened.value@ == "1"@,
        probed.place is Bus && probed.path@ == "drivers_probe"@ && probed.value@ == name@,
        released.place is Devices && released.path@ == name@ + "/driver/unbind"@
            && released.value@ == name@,
        probed.probes(name@) && released.releases(name@),
{
}

/// The bus counts as closed exactly where its switch reads zero, with white
/// space around it or not; a switch that cannot be read does not.
pub proof fn law_closed_bus(content: &Option<String>, r: bool)
    requires
        call_ensures(is_closed, (content,), r),
    ensures
        content is None ==> !r,
        content is Some ==> (r <==> trimmed(content->0@) == "0"@),
        content is Some && content->0@ == "0"@ ==> r,
        content is Some && content->0@ == "1"@ ==> !r,
        r <==> reads_closed(opt(*content)),
{
    if content is Some {
        reveal_strlit("0");
        reveal_strlit("1");
        let text = content->0@;
        let at = law_trimming(text);
        if text.len() == 1 {
            if text == "0"@ || text == "1"@ {
                assert(!is_space(text[0]));
                assert(text.subrange(0, 1) =~= text);
                assert(at.0 == 0 && at.1 == 1);
            }
            if text == "1"@ {
                assert(text[0] != "0"@[0]);
            }
        }
    }
}

/// The devices of a directory are exactly the entries without a colon, sorted.
pub proof fn law_devices_of_a_directory(entries: Vec<String>, out: Vec<String>, entry: String)
    requires
        call_ensures(device_names, (entries,), out),
    ensures
        out@.contains(entry) <==> entries@.contains(entry) && !entry@.contains(':'),
        forall|i: int, j: int|
            #![trigger out@[i], out@[j]]
            0 <= i < j < out@.len() ==> precedes(out@[i]@, out@[j]@),
{
    let keep = |name: String| !name@.contains(':');
    lemma_sorted_filter(entries@, keep, out@, entry);
    assert(in_order(out@));
}

/// A sorted selection of a list has exactly what is selected.
pub proof fn lemma_sorted_filter(
    all: Seq<String>,
    keep: spec_fn(String) -> bool,
    out: Seq<String>,
    entry: String,
)
    requires
        sorts(all.filter(keep), out),
    ensures
        out.contains(entry) <==> all.contains(entry) && keep(entry),
{
    broadcast use vstd::seq_lib::group_to_multiset_ensures;

    let found = all.filter(keep);
    assert(out.contains(entry) <==> out.to_multiset().count(entry) > 0);
    assert(found.contains(entry) <==> found.to_multiset().count(entry) > 0);
    let places = lemma_filter_places(all, keep);
    if found.contains(entry) {
        let i = choose|i: int| 0 <= i < found.len() && found[i] == entry;
        assert(places.contains(places[i]));
        assert(all[places[i]] == entry);
    }
    if all.contains(entry) && keep(entry) {
        let k = choose|k: int| 0 <= k < all.len() && all[k] == entry;
        assert(places.contains(k));
        let i = choose|i: int| 0 <= i < places.len() && places[i] == k;
        assert(found[i] == entry);
    }
}

/// The interfaces of a device are exactly the entries that start with its name
/// and a colon, sorted; those of the root hub of a bus start with the number of
/// the bus, a dash, a zero and a colon.
pub proof fn law_interfaces_of_a_device(
    entries: Vec<String>,
    sys_name: &str,
    out: Vec<String>,
    entry: String,
    number: Seq<char>,
)
    requires
        call_ensures(interfaces, (entries, sys_name), out),
    ensures
        !begins(sys_name@, "usb"@) ==> (out@.contains(entry) <==> entries@.contains(entry)
            && begins(entry@, sys_name@ + ":"@)),
        sys_name@ == "usb"@ + number && number.len() > 0 && (forall|i: int|
            0 <= i < number.len() ==> '0' <= #[trigger] number[i] <= '9') ==> (out@.contains(entry)
            <==> entries@.contains(entry) && begins(entry@, number + "-0:"@)),
        forall|i: int, j: int|
            #![trigger out@[i], out@[j]]
            0 <= i < j < out@.len() ==> precedes(out@[i]@, out@[j]@),
{
    let keep = |name: String| begins(name@, interface_prefix(sys_name@));
    lemma_sorted_filter(entries@, keep, out@, entry);
    assert(in_order(out@));
    if sys_name@ == "usb"@ + number && number.len() > 0 && (forall|i: int|
        0 <= i < number.len() ==> '0' <= #[trigger] number[i] <= '9') {
        reveal_strlit("-0");
        reveal_strlit(":");
        reveal_strlit("-0:");
        assert(sys_name@.take("usb"@.len() as int) =~= "usb"@);
        assert(sys_name@.skip("usb"@.len() as int) =~= number);
        assert(interface_prefix(sys_name@) =~= number + "-0:"@);
    }
}

} // verus!
