//! What the manager remembers of devices and machines.

use crate::error::Error;
use crate::order::{in_order, lemma_filter_places, precedes, sort, sorts, taken_at};
use crate::table::StringMap;
use crate::text::{contains, law_beginnings_and_parts, lists, occurs, opt_ref, same};
use vstd::prelude::*;

verus! {

/// Permissions of the state file: its owner alone may read and write it.
pub const STATE_FILE_MODE: u32 = 0o600;

/// The port of a machine that a USB device was attached to.
#[derive(Debug)]
pub struct UsbPortBinding {
    pub vm: String,
    pub port: u8,
    pub socket_generation: String,
    pub vid: Option<String>,
    pub pid: Option<String>,
    pub serial: Option<String>,
}

impl Clone for UsbPortBinding {
    fn clone(&self) -> (out: Self)
        ensures
            out == *self,
    {
        UsbPortBinding {
            vm: self.vm.clone(),
            port: self.port,
            socket_generation: self.socket_generation.clone(),
            vid: self.vid.clone(),
            pid: self.pid.clone(),
            serial: self.serial.clone(),
        }
    }
}

/// What outlives the process.
#[derive(Debug)]
pub struct PersistentState {
    pub selected_vms: StringMap<String>,
    pub disconnected_devices: Vec<String>,
    pub crosvm_usb_ports: StringMap<UsbPortBinding>,
}

impl Default for PersistentState {
    fn default() -> (state: Self)
        ensures
            state.selected_vms@ == Map::<Seq<char>, String>::empty(),
            state.disconnected_devices@.len() == 0,
            state.crosvm_usb_ports@ == Map::<Seq<char>, UsbPortBinding>::empty(),
    {
        PersistentState {
            selected_vms: StringMap::new(),
            disconnected_devices: Vec::new(),
            crosvm_usb_ports: StringMap::new(),
        }
    }
}

/// The memory of the manager. The machines of the attached devices are known
/// as long as the process runs.
#[derive(Debug)]
pub struct State {
    pub persistent: PersistentState,
    pub usb_vms: StringMap<String>,
    pub pci_vms: StringMap<String>,
    /// Whether the persistent part is written to a file.
    pub enabled: bool,
    pub path: String,
}

/// A list without the entries that hold the given text.
pub open spec fn without(list: Seq<String>, text: Seq<char>) -> Seq<String> {
    list.filter(|item: String| item@ != text)
}

proof fn lemma_without_lists(list: Seq<String>, text: Seq<char>, other: Seq<char>)
    ensures
        lists(without(list, text), other) <==> lists(list, other) && other != text,
    decreases list.len(),
{
    reveal(Seq::filter);
    let kept = without(list, text);
    if list.len() > 0 {
        let head = list.drop_last();
        lemma_without_lists(head, text, other);
        let short = without(head, text);
        assert(kept == if list.last()@ != text {
            short.push(list.last())
        } else {
            short
        });
        if lists(head, other) {
            let i = choose|i: int| 0 <= i < head.len() && #[trigger] head[i]@ == other;
            assert(list[i]@ == other);
        }
        if lists(list, other) && !lists(head, other) {
            let i = choose|i: int| 0 <= i < list.len() && #[trigger] list[i]@ == other;
            if i < head.len() {
                assert(head[i]@ == other);
            }
            assert(list.last()@ == other);
            if other != text {
                assert(kept[short.len() as int]@ == other);
            }
        }
        if lists(short, other) {
            let i = choose|i: int| 0 <= i < short.len() && #[trigger] short[i]@ == other;
            assert(kept[i]@ == other);
        }
        if lists(kept, other) {
            let i = choose|i: int| 0 <= i < kept.len() && #[trigger] kept[i]@ == other;
            if i < short.len() {
                assert(short[i]@ == other);
            } else {
                assert(list[list.len() - 1]@ == other);
            }
        }
    }
}

proof fn lemma_sorts_lists(before: Seq<String>, after: Seq<String>, text: Seq<char>)
    requires
        sorts(before, after),
    ensures
        lists(before, text) <==> lists(after, text),
{
    broadcast use vstd::seq_lib::group_to_multiset_ensures;

    if lists(before, text) {
        let i = choose|i: int| 0 <= i < before.len() && #[trigger] before[i]@ == text;
        assert(before.contains(before[i]));
        assert(after.to_multiset().count(before[i]) > 0);
        assert(after.contains(before[i]));
        let k = choose|k: int| 0 <= k < after.len() && after[k] == before[i];
        assert(after[k]@ == text);
    }
    if lists(after, text) {
        let i = choose|i: int| 0 <= i < after.len() && #[trigger] after[i]@ == text;
        assert(after.contains(after[i]));
        assert(before.to_multiset().count(after[i]) > 0);
        assert(before.contains(after[i]));
        let k = choose|k: int| 0 <= k < before.len() && before[k] == after[i];
        assert(before[k]@ == text);
    }
}

/// Takes the entries that hold a text out of a list.
fn remove_text(list: Vec<String>, text: &str) -> (out: Vec<String>)
    ensures
        out@ == without(list@, text@),
{
    let mut out: Vec<String> = Vec::new();
    let ghost all = list@;
    proof {
        reveal(Seq::filter);
        assert(all.take(0).len() == 0);
    }
    for item in it: list
        invariant
            it.seq() == all,
            out@ == without(all.take(it.index()), text@),
    {
        let ghost next = all.take(it.index() + 1);
        proof {
            reveal(Seq::filter);
            assert(next.drop_last() =~= all.take(it.index()));
            assert(next.last() == item);
        }
        if !same(item.as_str(), text) {
            out.push(item);
        }
    }
    assert(all.take(all.len() as int) =~= all);
    out
}

/// The name of the file that the state is written to before it takes the
/// place of the old one.
pub open spec fn temporary_name(file_name: Option<Seq<char>>) -> Seq<char> {
    "."@ + match file_name {
        Some(name) => name,
        None => "state"@,
    } + ".tmp"@
}

/// Whether `after` is a list of marked devices with the mark of one of them
/// as asked for: without a mark the list keeps its order, and with it the id
/// stands in the list once and the list is sorted.
pub open spec fn sets_mark(
    before: Seq<String>,
    id: Seq<char>,
    value: bool,
    after: Seq<String>,
) -> bool {
    if value {
        exists|item: String| item@ == id && #[trigger] sorts(without(before, id).push(item), after)
    } else {
        after == without(before, id)
    }
}

impl State {
    /// The memory at the start: what was stored, where storing is enabled and
    /// something readable was found.
    pub fn load(enabled: bool, path: String, stored: Option<PersistentState>) -> (state: State)
        ensures
            state.enabled == enabled,
            state.path == path,
            state.usb_vms@ == Map::<Seq<char>, String>::empty(),
            state.pci_vms@ == Map::<Seq<char>, String>::empty(),
            match stored {
                Some(stored) if enabled => state.persistent == stored,
                _ => {
                    &&& state.persistent.selected_vms@ == Map::<Seq<char>, String>::empty()
                    &&& state.persistent.disconnected_devices@.len() == 0
                    &&& state.persistent.crosvm_usb_ports@ == Map::<
                        Seq<char>,
                        UsbPortBinding,
                    >::empty()
                },
            },
    {
        let persistent = match stored {
            Some(stored) => if enabled {
                stored
            } else {
                PersistentState::default()
            },
            None => PersistentState::default(),
        };
        State { persistent, usb_vms: StringMap::new(), pci_vms: StringMap::new(), enabled, path }
    }

    /// Whether a device was disconnected on purpose.
    pub open spec fn is_disconnected(self, id: Seq<char>) -> bool {
        lists(self.persistent.disconnected_devices@, id)
    }

    /// Whether a device was disconnected on purpose.
    pub fn disconnected(&self, id: &str) -> (r: bool)
        ensures
            r == self.is_disconnected(id@),
    {
        contains(&self.persistent.disconnected_devices, id)
    }

    /// Notes whether a device is disconnected on purpose. The list is kept
    /// sorted whenever a device is added.
    pub fn set_disconnected(&mut self, id: &str, value: bool)
        ensures
            forall|other: Seq<char>|
                #![trigger final(self).is_disconnected(other)]
                final(self).is_disconnected(other) == if other == id@ {
                    value
                } else {
                    old(self).is_disconnected(other)
                },
            sets_mark(
                old(self).persistent.disconnected_devices@,
                id@,
                value,
                final(self).persistent.disconnected_devices@,
            ),
            final(self).persistent.selected_vms == old(self).persistent.selected_vms,
            final(self).persistent.crosvm_usb_ports == old(self).persistent.crosvm_usb_ports,
            final(self).usb_vms == old(self).usb_vms,
            final(self).pci_vms == old(self).pci_vms,
            final(self).enabled == old(self).enabled,
            final(self).path == old(self).path,
    {
        let ghost before = self.persistent.disconnected_devices@;
        let mut list: Vec<String> = Vec::new();
        std::mem::swap(&mut list, &mut self.persistent.disconnected_devices);
        let mut list = remove_text(list, id);
        let ghost kept = list@;
        if value {
            let item: String = id.to_owned();
            list.push(item);
            let ghost all = list@;
            self.persistent.disconnected_devices = sort(list);
            let ghost after = self.persistent.disconnected_devices@;
            assert(all == without(before, id@).push(item));
            assert forall|other: Seq<char>|
                #![trigger lists(after, other)]
                lists(after, other) == (other == id@ || lists(before, other)) by {
                lemma_sorts_lists(all, after, other);
                lemma_without_lists(before, id@, other);
                if lists(kept, other) {
                    let i = choose|i: int| 0 <= i < kept.len() && #[trigger] kept[i]@ == other;
                    assert(all[i]@ == other);
                }
                if other == id@ {
                    assert(all[kept.len() as int]@ == other);
                }
                if lists(all, other) {
                    let i = choose|i: int| 0 <= i < all.len() && #[trigger] all[i]@ == other;
                    if i < kept.len() {
                        assert(kept[i]@ == other);
                    }
                }
            }
        } else {
            self.persistent.disconnected_devices = list;
            assert forall|other: Seq<char>|
                #![trigger lists(kept, other)]
                lists(kept, other) == (other != id@ && lists(before, other)) by {
                lemma_without_lists(before, id@, other);
            }
        }
    }

    /// Remembers the machine that a device was attached to.
    pub fn select_vm(&mut self, id: &str, vm: &str)
        ensures
            exists|name: String|
                name@ == vm@ && final(self).persistent.selected_vms@ == #[trigger] old(
                    self,
                ).persistent.selected_vms@.insert(id@, name),
            final(self).persistent.disconnected_devices == old(
                self,
            ).persistent.disconnected_devices,
            final(self).persistent.crosvm_usb_ports == old(self).persistent.crosvm_usb_ports,
            final(self).usb_vms == old(self).usb_vms,
            final(self).pci_vms == old(self).pci_vms,
            final(self).enabled == old(self).enabled,
            final(self).path == old(self).path,
    {
        let name: String = vm.to_owned();
        self.persistent.selected_vms.insert(id, name);
    }

    /// What saving takes: nothing where storing is disabled, else a place for
    /// the file and a name for the copy that replaces it.
    pub fn save(&self, has_parent: bool, file_name: Option<&str>) -> (out: Result<
        Option<String>,
        Error,
    >)
        ensures
            match out {
                Ok(None) => !self.enabled,
                Ok(Some(name)) => self.enabled && has_parent && name@ == temporary_name(
                    opt_ref(file_name),
                ),
                Err(error) => self.enabled && !has_parent && error is NoStateParent,
            },
    {
        if !self.enabled {
            return Ok(None);
        }
        if !has_parent {
            return Err(Error::NoStateParent);
        }
        let mut name: String = ".".to_owned();
        name.append(
            match file_name {
                Some(file_name) => file_name,
                None => "state",
            },
        );
        name.append(".tmp");
        Ok(Some(name))
    }
}

/// A mark is set or lifted for one device alone. Whoever asks next is told so,
/// what is known of all other devices stays, and a device that is marked stands
/// in the sorted list once.
pub proof fn law_marks(
    state: &mut State,
    id: &str,
    value: bool,
    other: &str,
    before: bool,
    after: bool,
)
    requires
        call_ensures(State::set_disconnected, (state, id, value), ()),
        call_ensures(State::disconnected, (&*old(state), other), before),
        call_ensures(State::disconnected, (&*final(state), other), after),
    ensures
        other@ == id@ ==> after == value,
        other@ != id@ ==> after == before,
        after <==> exists|i: int|
            0 <= i < final(state).persistent.disconnected_devices@.len() && (
            #[trigger] final(state).persistent.disconnected_devices@[i])@ == other@,
        value ==> forall|i: int, j: int|
            #![trigger final(state).persistent.disconnected_devices@[i], final(state).persistent.disconnected_devices@[j]]
            0 <= i < j < final(state).persistent.disconnected_devices@.len() ==> precedes(
                final(state).persistent.disconnected_devices@[i]@,
                final(state).persistent.disconnected_devices@[j]@,
            ),
        final(state).usb_vms == old(state).usb_vms,
        final(state).pci_vms == old(state).pci_vms,
        final(state).persistent.selected_vms == old(state).persistent.selected_vms,
        final(state).persistent.crosvm_usb_ports == old(state).persistent.crosvm_usb_ports,
{
    assert(final(state).is_disconnected(other@) == if other@ == id@ {
        value
    } else {
        old(state).is_disconnected(other@)
    });
    if value {
        assert(in_order(final(state).persistent.disconnected_devices@));
    }
}

/// The machine that was selected for a device is remembered for it, and those
/// of all other devices stay.
pub proof fn law_selection_is_remembered(
    state: &mut State,
    id: &str,
    vm: &str,
    other: Seq<char>,
)
    requires
        call_ensures(State::select_vm, (state, id, vm), ()),
    ensures
        final(state).persistent.selected_vms@.contains_key(id@),
        final(state).persistent.selected_vms@[id@]@ == vm@,
        other != id@ ==> (final(state).persistent.selected_vms@.contains_key(other) <==> old(
            state,
        ).persistent.selected_vms@.contains_key(other)),
        other != id@ && old(state).persistent.selected_vms@.contains_key(other) ==> final(state).persistent.selected_vms@[other] == old(state).persistent.selected_vms@[other],
        final(state).persistent.disconnected_devices == old(
            state,
        ).persistent.disconnected_devices,
{
}

/// What was stored is known again at the next start exactly where storing is
/// on; no machine has a device at the start.
pub proof fn law_stored_is_known_again(
    enabled: bool,
    path: String,
    stored: Option<PersistentState>,
    state: State,
    key: Seq<char>,
)
    requires
        call_ensures(State::load, (enabled, path, stored), state),
    ensures
        enabled && stored is Some ==> state.persistent == stored->0,
        !enabled || stored is None ==> !state.persistent.selected_vms@.contains_key(key)
            && !state.persistent.crosvm_usb_ports@.contains_key(key)
            && state.persistent.disconnected_devices@.len() == 0,
        !state.usb_vms@.contains_key(key),
        !state.pci_vms@.contains_key(key),
        state.enabled == enabled,
        state.path@ == path@,
{
}

/// Nothing is written where storing is off. Where it is on, the file is
/// written beside the old one under a hidden name of its own first.
pub proof fn law_saving(
    state: &State,
    has_parent: bool,
    name: &str,
    out: Result<Option<String>, Error>,
)
    requires
        call_ensures(State::save, (state, has_parent, Some(name)), out),
    ensures
        !state.enabled ==> out is Ok && (out->Ok_0) is None,
        state.enabled && !has_parent ==> out is Err && out->Err_0 is NoStateParent,
        state.enabled && has_parent ==> out is Ok && (out->Ok_0) is Some && (out->Ok_0)->0@.len()
            == name@.len() + 5 && (out->Ok_0)->0@[0] == '.' && occurs((out->Ok_0)->0@, name@)
            && (out->Ok_0)->0@ != name@,
{
    if state.enabled && has_parent {
        reveal_strlit(".");
        reveal_strlit(".tmp");
        let text = (out->Ok_0)->0@;
        law_beginnings_and_parts(text, name@);
        assert(text == "."@ + name@ + ".tmp"@);
    }
}

/// Lifting a mark leaves the other marks where they are, in their order.
pub proof fn law_lifting_keeps_the_others(state: &mut State, id: &str) -> (places: Seq<int>)
    requires
        call_ensures(State::set_disconnected, (state, id, false), ()),
    ensures
        taken_at(
            old(state).persistent.disconnected_devices@,
            places,
            final(state).persistent.disconnected_devices@,
        ),
        forall|k: int|
            #![trigger places.contains(k)]
            0 <= k < old(state).persistent.disconnected_devices@.len() ==> (places.contains(k)
                <==> old(state).persistent.disconnected_devices@[k]@ != id@),
{
    lemma_filter_places(
        old(state).persistent.disconnected_devices@,
        |item: String| item@ != id@,
    )
}

} // verus!
