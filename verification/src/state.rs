//! Learned slot bindings: which Bluetooth device each hotkey slot switches to,
//! and which slot was active last.
//!
//! Bindings come from two sources: `state.toml` (learned via pairing windows,
//! persisted here) and `config.toml` targets with an explicit `mac` (pre-seeds,
//! which override the state file for their slot and are never written back).
//! The active slot is remembered so a restart comes back on the host the user
//! was on — like a multi-host keyboard waking on its last channel — instead of
//! on the local slot with no host connected.

use std::collections::BTreeMap;
use vstd::prelude::*;

use crate::bt::addr;
use crate::bt::addr::Address;
use crate::config;
use crate::config::{RemoteTarget, TargetView, LOCAL_SLOT};

verus! {

broadcast use {vstd::seq::group_seq_axioms, vstd::std_specs::btree::group_btree_axioms};

#[derive(Debug, Clone, PartialEq, Eq)]
pub struct Binding {
    pub addr: Address,
    pub name: String,
    /// Seeded from config.toml; not persisted to the state file.
    pub from_config: bool,
}

/// The content of a [`Binding`].
pub struct BindingView {
    pub addr: Address,
    pub name: Seq<char>,
    pub from_config: bool,
}

impl View for Binding {
    type V = BindingView;

    open spec fn view(&self) -> BindingView {
        BindingView { addr: self.addr, name: self.name@, from_config: self.from_config }
    }
}

impl Binding {
    /// A copy with the same content.
    pub fn duplicate(&self) -> (r: Binding)
        ensures
            r@ == self@,
    {
        Binding { addr: self.addr, name: self.name.clone(), from_config: self.from_config }
    }
}

/// slot -> bound device
pub type Bindings = BTreeMap<u8, Binding>;

/// The contents of bindings.
pub open spec fn binding_views(m: Map<u8, Binding>) -> Map<u8, BindingView> {
    m.map_values(|b: Binding| b@)
}

/// All bound devices have addresses of 48 bits.
pub open spec fn bindings_wf(m: Map<u8, BindingView>) -> bool {
    forall|slot: u8| #[trigger] m.contains_key(slot) ==> m[slot].addr.wf()
}

#[derive(Debug)]
pub struct StateFile {
    /// Slot that was active when the state was last saved. Absent in files
    /// written before this was tracked (and while the local slot is active,
    /// see `to_state_file`).
    pub active_slot: Option<u8>,
    pub bindings: Vec<StateBinding>,
}

#[derive(Debug)]
pub struct StateBinding {
    pub slot: u8,
    pub mac: String,
    pub name: String,
}

/// The content of a [`StateBinding`].
pub struct EntryView {
    pub slot: u8,
    pub mac: Seq<char>,
    pub name: Seq<char>,
}

impl View for StateBinding {
    type V = EntryView;

    open spec fn view(&self) -> EntryView {
        EntryView { slot: self.slot, mac: self.mac@, name: self.name@ }
    }
}

/// The contents of a list of state entries.
pub open spec fn entry_views(list: Seq<StateBinding>) -> Seq<EntryView> {
    Seq::new(list.len(), |i: int| list[i]@)
}

impl Default for StateFile {
    fn default() -> (r: Self)
        ensures
            r.active_slot is None,
            r.bindings@.len() == 0,
    {
        StateFile { active_slot: None, bindings: Vec::new() }
    }
}

/// The bindings a list of state entries tells of; entries with a bad address
/// are ignored, later ones win.
pub open spec fn learned(entries: Seq<EntryView>) -> Map<u8, BindingView>
    decreases entries.len(),
{
    if entries.len() == 0 {
        Map::empty()
    } else {
        let before = learned(entries.drop_last());
        let e = entries.last();
        match addr::parsed_address(e.mac) {
            Ok(a) => before.insert(
                e.slot,
                BindingView { addr: a, name: e.name, from_config: false },
            ),
            Err(_) => before,
        }
    }
}

/// Bindings overridden by the targets that name an address.
pub open spec fn seeded(m: Map<u8, BindingView>, targets: Seq<TargetView>) -> Map<u8, BindingView>
    decreases targets.len(),
{
    if targets.len() == 0 {
        m
    } else {
        let before = seeded(m, targets.drop_last());
        let t = targets.last();
        match t.addr {
            Some(a) => before.insert(
                t.slot,
                BindingView { addr: a, name: t.name, from_config: true },
            ),
            None => before,
        }
    }
}

/// The state file and the configured targets together.
pub open spec fn merged(entries: Seq<EntryView>, targets: Seq<TargetView>) -> Map<u8, BindingView> {
    seeded(learned(entries), targets)
}

/// The slot to start on: the remembered one, if it still has a host; otherwise
/// the local slot.
pub open spec fn restored(remembered: Option<u8>, bound: Set<u8>) -> u8 {
    match remembered {
        Some(slot) => if slot == LOCAL_SLOT || bound.contains(slot) {
            slot
        } else {
            LOCAL_SLOT
        },
        None => LOCAL_SLOT,
    }
}

/// The active slot as it is saved: the local one is what a missing key
/// restores to anyway.
pub open spec fn saved_slot(active_slot: u8) -> Option<u8> {
    if active_slot == LOCAL_SLOT {
        None
    } else {
        Some(active_slot)
    }
}

/// The entries that slots below `n` are saved as: learned bindings only, in
/// slot order.
pub open spec fn saved_entries(m: Map<u8, BindingView>, n: nat) -> Seq<EntryView>
    decreases n,
{
    if n == 0 {
        Seq::empty()
    } else {
        let before = saved_entries(m, (n - 1) as nat);
        let slot = (n - 1) as u8;
        if m.contains_key(slot) && !m[slot].from_config {
            before.push(EntryView { slot, mac: m[slot].addr.spelling(), name: m[slot].name })
        } else {
            before
        }
    }
}

/// The bindings that a state file and the configured targets make.
pub fn merge(file: &StateFile, targets: &[RemoteTarget]) -> (r: Bindings)
    ensures
        binding_views(r@) == merged(entry_views(file.bindings@), config::target_views(targets@)),
{
    let mut map: Bindings = BTreeMap::new();
    let ghost entries = entry_views(file.bindings@);
    let mut i: usize = 0;
    assert(binding_views(map@) =~= Map::empty());
    while i < file.bindings.len()
        invariant
            i <= file.bindings@.len(),
            entries == entry_views(file.bindings@),
            binding_views(map@) == learned(entries.take(i as int)),
        decreases file.bindings@.len() - i,
    {
        assert(entries.take(i + 1).drop_last() =~= entries.take(i as int));
        let b = &file.bindings[i];
        assert(entries[i as int] == b@);
        let ghost before = map@;
        match Address::from_str(b.mac.as_str()) {
            Ok(addr) => {
                let binding = Binding { addr, name: b.name.clone(), from_config: false };
                map.insert(b.slot, binding);
                assert(binding_views(map@) =~= binding_views(before).insert(b.slot, binding@));
            },
            Err(_) => {},
        }
        i = i + 1;
    }
    assert(entries.take(i as int) =~= entries);
    // Config pre-seeds win over learned state for the same slot.
    let ghost base = binding_views(map@);
    let ghost views = config::target_views(targets@);
    let mut j: usize = 0;
    while j < targets.len()
        invariant
            j <= targets@.len(),
            views == config::target_views(targets@),
            binding_views(map@) == seeded(base, views.take(j as int)),
        decreases targets@.len() - j,
    {
        assert(views.take(j + 1).drop_last() =~= views.take(j as int));
        let t = &targets[j];
        assert(views[j as int] == t@);
        let ghost before = map@;
        if let Some(addr) = t.addr {
            let binding = Binding { addr, name: t.name.clone(), from_config: true };
            map.insert(t.slot, binding);
            assert(binding_views(map@) =~= binding_views(before).insert(t.slot, binding@));
        }
        j = j + 1;
    }
    assert(views.take(j as int) =~= views);
    map
}

/// The remembered slot, if it still has a host; otherwise the local slot.
pub fn restore_slot(remembered: Option<u8>, bindings: &Bindings) -> (r: u8)
    ensures
        r == restored(remembered, bindings@.dom()),
{
    match remembered {
        Some(slot) => {
            if slot == LOCAL_SLOT || bindings.contains_key(&slot) {
                slot
            } else {
                LOCAL_SLOT
            }
        },
        None => LOCAL_SLOT,
    }
}

/// Bindings plus the slot to start on: the last active one if it is still
/// bound, else the local slot.
pub fn load(file: &StateFile, targets: &[RemoteTarget]) -> (r: (Bindings, u8))
    ensures
        binding_views(r.0@) == merged(entry_views(file.bindings@), config::target_views(targets@)),
        r.1 == restored(file.active_slot, r.0@.dom()),
{
    let bindings = merge(file, targets);
    let slot = restore_slot(file.active_slot, &bindings);
    (bindings, slot)
}

/// What is persisted: the learned bindings (config pre-seeds are excluded —
/// config.toml stays the source of truth for those) and the active slot.
pub fn to_state_file(bindings: &Bindings, active_slot: u8) -> (r: StateFile)
    ensures
        r.active_slot == saved_slot(active_slot),
        entry_views(r.bindings@) == saved_entries(binding_views(bindings@), 256),
{
    let mut out: Vec<StateBinding> = Vec::new();
    let ghost m = binding_views(bindings@);
    let mut n: u16 = 0;
    assert(entry_views(out@) =~= Seq::empty());
    while n < 256
        invariant
            n <= 256,
            m == binding_views(bindings@),
            entry_views(out@) == saved_entries(m, n as nat),
        decreases 256 - n,
    {
        let slot: u8 = n as u8;
        let ghost before = out@;
        if let Some(b) = bindings.get(&slot) {
            if !b.from_config {
                let entry = StateBinding { slot, mac: b.addr.to_string(), name: b.name.clone() };
                out.push(entry);
                assert(entry_views(out@) =~= entry_views(before).push(entry@));
            }
        }
        n = n + 1;
    }
    // The local slot is what a missing key restores to anyway.
    let active_slot = if active_slot == LOCAL_SLOT {
        None
    } else {
        Some(active_slot)
    };
    StateFile { active_slot, bindings: out }
}

// ---------------------------------------------------------------------------
// Laws
// ---------------------------------------------------------------------------

/// The learned bindings among `m`, of slots below `n`.
pub open spec fn learned_below(m: Map<u8, BindingView>, n: nat) -> Map<u8, BindingView> {
    m.restrict(Set::new(|slot: u8| slot < n && m.contains_key(slot) && !m[slot].from_config))
}

/// What is saved reads back: the learned bindings, all of them and no others.
pub proof fn law_saved_bindings_read_back(m: Map<u8, BindingView>, n: nat)
    requires
        bindings_wf(m),
        n <= 256,
    ensures
        learned(saved_entries(m, n)) == learned_below(m, n),
    decreases n,
{
    if n == 0 {
        assert(learned_below(m, 0) =~= Map::empty());
    } else {
        law_saved_bindings_read_back(m, (n - 1) as nat);
        let slot = (n - 1) as u8;
        let before = saved_entries(m, (n - 1) as nat);
        if m.contains_key(slot) && !m[slot].from_config {
            let e = EntryView { slot, mac: m[slot].addr.spelling(), name: m[slot].name };
            assert(before.push(e).drop_last() =~= before);
            addr::law_address_round_trip(m[slot].addr);
            assert(learned_below(m, n) =~= learned_below(m, (n - 1) as nat).insert(slot, m[slot]));
        } else {
            assert(learned_below(m, n) =~= learned_below(m, (n - 1) as nat));
        }
    }
}

/// Saving and loading bindings that were all learned gives them back.
pub proof fn law_state_round_trip(m: Map<u8, BindingView>)
    requires
        bindings_wf(m),
        forall|slot: u8| #[trigger] m.contains_key(slot) ==> !m[slot].from_config,
    ensures
        merged(saved_entries(m, 256), Seq::empty()) == m,
{
    law_saved_bindings_read_back(m, 256);
    assert(learned_below(m, 256) =~= m);
}

/// Config pre-seeds are never written back.
pub proof fn law_seeds_are_not_saved(m: Map<u8, BindingView>, n: nat, i: int)
    requires
        n <= 256,
        0 <= i < saved_entries(m, n).len(),
    ensures
        ({
            let slot = saved_entries(m, n)[i].slot;
            m.contains_key(slot) && !m[slot].from_config
        }),
    decreases n,
{
    if n > 0 {
        let before = saved_entries(m, (n - 1) as nat);
        if i < before.len() {
            law_seeds_are_not_saved(m, (n - 1) as nat, i);
        }
    }
}

/// A target that names an address binds its slot, whatever the state file
/// says; slots of other targets are left as they were.
pub proof fn law_seeds_win(m: Map<u8, BindingView>, targets: Seq<TargetView>, i: int)
    requires
        0 <= i < targets.len(),
        targets[i].addr is Some,
        forall|j: int, k: int|
            0 <= j < k < targets.len() ==> (#[trigger] targets[j]).slot != (
            #[trigger] targets[k]).slot,
    ensures
        seeded(m, targets).contains_key(targets[i].slot),
        seeded(m, targets)[targets[i].slot] == (BindingView {
            addr: targets[i].addr->0,
            name: targets[i].name,
            from_config: true,
        }),
    decreases targets.len(),
{
    if i < targets.len() - 1 {
        assert forall|j: int, k: int| 0 <= j < k < targets.len() - 1 implies (
        #[trigger] targets.drop_last()[j]).slot != (#[trigger] targets.drop_last()[k]).slot by {
            assert(targets[j].slot != targets[k].slot);
        }
        law_seeds_win(m, targets.drop_last(), i);
        assert(targets[i].slot != targets[targets.len() - 1].slot);
    }
}

/// A slot that no target with an address names keeps its learned binding.
pub proof fn law_other_slots_keep_learned(
    m: Map<u8, BindingView>,
    targets: Seq<TargetView>,
    slot: u8,
)
    requires
        forall|j: int|
            0 <= j < targets.len() && (#[trigger] targets[j]).addr is Some ==> targets[j].slot
                != slot,
    ensures
        seeded(m, targets).contains_key(slot) == m.contains_key(slot),
        m.contains_key(slot) ==> seeded(m, targets)[slot] == m[slot],
    decreases targets.len(),
{
    if targets.len() > 0 {
        assert forall|j: int|
            0 <= j < targets.len() - 1 && (
            #[trigger] targets.drop_last()[j]).addr is Some implies targets.drop_last()[j].slot
            != slot by {
            assert(targets[j] == targets.drop_last()[j]);
        }
        law_other_slots_keep_learned(m, targets.drop_last(), slot);
        assert(targets[targets.len() - 1] == targets.last());
    }
}

/// The hub starts on the local slot or on one that is bound; a remembered slot
/// that is still bound is kept.
pub proof fn law_restored_slot_is_usable(remembered: Option<u8>, bound: Set<u8>)
    ensures
        restored(remembered, bound) == LOCAL_SLOT || bound.contains(restored(remembered, bound)),
        remembered matches Some(slot) && bound.contains(slot) ==> restored(remembered, bound)
            == remembered->0,
{
}

/// Whether a target names an address for `slot`.
pub open spec fn seeds(targets: Seq<TargetView>, slot: u8) -> bool {
    exists|i: int|
        0 <= i < targets.len() && (#[trigger] targets[i]).slot == slot && targets[i].addr is Some
}

proof fn lemma_seeded_keys(m: Map<u8, BindingView>, targets: Seq<TargetView>, slot: u8)
    ensures
        m.contains_key(slot) || seeds(targets, slot) ==> seeded(m, targets).contains_key(slot),
    decreases targets.len(),
{
    if targets.len() > 0 {
        let before = targets.drop_last();
        lemma_seeded_keys(m, before, slot);
        if seeds(targets, slot) && !seeds(before, slot) {
            let i = choose|i: int|
                0 <= i < targets.len() && (#[trigger] targets[i]).slot == slot
                    && targets[i].addr is Some;
            if i < before.len() {
                assert(before[i].slot == slot);
            }
        }
    }
}

/// A restart comes back on the slot that was active: the one saved with the
/// bindings is restored with them, as long as the targets that pre-seeded a
/// binding are still configured.
pub proof fn law_restart_comes_back(
    m: Map<u8, BindingView>,
    targets: Seq<TargetView>,
    active_slot: u8,
)
    requires
        bindings_wf(m),
        active_slot == LOCAL_SLOT || m.contains_key(active_slot),
        forall|slot: u8| #[trigger]
            m.contains_key(slot) && m[slot].from_config ==> seeds(targets, slot),
    ensures
        restored(saved_slot(active_slot), merged(saved_entries(m, 256), targets).dom())
            == active_slot,
{
    law_saved_bindings_read_back(m, 256);
    lemma_seeded_keys(learned_below(m, 256), targets, active_slot);
}

/// What a list of saved entries teaches of a slot: the last entry of that slot
/// with a good address, under its name; nothing where there is none.
pub proof fn law_last_good_entry_counts(entries: Seq<EntryView>, i: int)
    requires
        0 <= i < entries.len(),
        addr::parsed_address(entries[i].mac) is Ok,
        forall|j: int|
            i < j < entries.len() && (#[trigger] entries[j]).slot == entries[i].slot
                ==> addr::parsed_address(entries[j].mac) is Err,
    ensures
        learned(entries).contains_key(entries[i].slot),
        learned(entries)[entries[i].slot].addr == addr::parsed_address(entries[i].mac)->Ok_0,
        learned(entries)[entries[i].slot].name == entries[i].name,
        !learned(entries)[entries[i].slot].from_config,
    decreases entries.len(),
{
    let init = entries.drop_last();
    if i < entries.len() - 1 {
        assert forall|j: int|
            i < j < init.len() && (#[trigger] init[j]).slot
                == init[i].slot implies addr::parsed_address(init[j].mac) is Err by {
            assert(entries[j] == init[j]);
        }
        law_last_good_entry_counts(init, i);
        assert(entries[entries.len() - 1] == entries.last());
    }
}

/// A slot without a good entry learns nothing.
pub proof fn law_bad_entries_teach_nothing(entries: Seq<EntryView>, slot: u8)
    requires
        forall|j: int|
            0 <= j < entries.len() && (#[trigger] entries[j]).slot == slot ==> addr::parsed_address(
                entries[j].mac,
            ) is Err,
    ensures
        !learned(entries).contains_key(slot),
    decreases entries.len(),
{
    if entries.len() > 0 {
        let init = entries.drop_last();
        assert forall|j: int|
            0 <= j < init.len() && (#[trigger] init[j]).slot == slot implies addr::parsed_address(
            init[j].mac,
        ) is Err by {
            assert(entries[j] == init[j]);
        }
        law_bad_entries_teach_nothing(init, slot);
        assert(entries[entries.len() - 1] == entries.last());
    }
}

/// The hub starts on the remembered slot if that is slot 1 or bound, and on
/// slot 1 otherwise; slot 1 is saved as nothing, any other as itself.
pub proof fn law_start_slot(remembered: Option<u8>, bound: Set<u8>, active: u8)
    ensures
        remembered is None ==> restored(remembered, bound) == 1,
        remembered is Some && ((remembered->0) == 1 || bound.contains(remembered->0)) ==> restored(
            remembered,
            bound,
        ) == remembered->0,
        remembered is Some && !bound.contains(remembered->0) ==> restored(remembered, bound) == 1,
        active == 1 ==> saved_slot(active) is None,
        active != 1 ==> saved_slot(active) == Some(active),
{
}

/// What is saved: every learned binding under its slot, with its address and
/// name, in the order of the slots.
pub proof fn law_saved_entries(m: Map<u8, BindingView>, n: nat)
    requires
        n <= 256,
    ensures
        forall|slot: u8|
            slot < n && #[trigger] m.contains_key(slot) && !m[slot].from_config ==> saved_entries(
                m,
                n,
            ).contains(
                EntryView { slot, mac: m[slot].addr.spelling(), name: m[slot].name },
            ),
        forall|i: int|
            0 <= i < saved_entries(m, n).len() ==> (#[trigger] saved_entries(m, n)[i]).slot < n,
        forall|i: int, j: int|
            0 <= i < j < saved_entries(m, n).len() ==> (#[trigger] saved_entries(m, n)[i]).slot < (
            #[trigger] saved_entries(m, n)[j]).slot,
    decreases n,
{
    if n > 0 {
        law_saved_entries(m, (n - 1) as nat);
        let before = saved_entries(m, (n - 1) as nat);
        let all = saved_entries(m, n);
        assert forall|i: int| 0 <= i < before.len() implies all[i] == before[i] by {}
        assert forall|slot: u8|
            slot < n && #[trigger] m.contains_key(slot) && !m[slot].from_config implies all.contains(
            EntryView { slot, mac: m[slot].addr.spelling(), name: m[slot].name },
        ) by {
            let e = EntryView { slot, mac: m[slot].addr.spelling(), name: m[slot].name };
            if slot < n - 1 {
                assert(before.contains(e));
                let i = choose|i: int| 0 <= i < before.len() && before[i] == e;
                assert(all[i] == e);
            } else {
                assert(all[all.len() - 1] == e);
            }
        }
        assert forall|i: int, j: int| 0 <= i < j < all.len() implies (#[trigger] all[i]).slot < (
        #[trigger] all[j]).slot by {
            assert(all[i] == before[i]);
            if j < before.len() {
                assert(all[j] == before[j]);
            }
        }
    }
}

} // verus!
