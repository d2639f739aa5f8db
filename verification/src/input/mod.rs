//! Input devices: which ones the hub manages, and where a re-injected event
//! goes. Opening, grabbing and reading them is the caller's.

use vstd::prelude::*;

use crate::input::codes::{BusType, EventType, KeyCode, RelativeAxisCode};
use crate::text;

pub mod codes;
pub mod hotkey;
pub mod keys;

verus! {

broadcast use {vstd::seq::group_seq_axioms, vstd::string::group_string_axioms};

/// Name prefix for our own uinput devices; discovery must skip these or we
/// would read back the events we inject (feedback loop).
pub const VIRTUAL_PREFIX: &'static str = "km-hub virtual";

/// Last key code the virtual keyboard announces (KEY_ESC .. KEY_MICMUTE).
pub const LAST_SINK_KEY: u16 = 248;

/// One event of an input device: its type, its code, its value.
#[derive(Debug, Clone, Copy, PartialEq, Eq, Structural)]
pub struct InputEvent {
    pub kind: u16,
    pub code: u16,
    pub value: i32,
}

/// What an input device says of itself.
#[derive(Debug, Clone)]
pub struct DeviceCaps {
    pub name: Option<String>,
    /// The bus it sits on.
    pub bus: u16,
    /// The keys it has, if it has any.
    pub keys: Option<Vec<u16>>,
    /// The relative axes it has, if it has any.
    pub axes: Option<Vec<u16>>,
}

/// A device that is present, with its path.
#[derive(Debug, Clone)]
pub struct Candidate {
    pub path: String,
    pub caps: DeviceCaps,
}

/// No input device to manage.
#[derive(Debug, Clone, Copy, PartialEq, Eq, Structural)]
pub struct NoDevices;

impl DeviceCaps {
    pub open spec fn has_key(self, key: u16) -> bool {
        self.keys matches Some(list) && list@.contains(key)
    }

    pub open spec fn has_axis(self, axis: u16) -> bool {
        self.axes matches Some(list) && list@.contains(axis)
    }

    /// Something you can type on.
    pub open spec fn keyboard(self) -> bool {
        self.has_key(KeyCode::KEY_A)
    }

    /// Something that points and clicks.
    pub open spec fn mouse(self) -> bool {
        self.has_axis(RelativeAxisCode::REL_X) && self.has_key(KeyCode::BTN_LEFT)
    }

    /// The media keys of an attached peripheral.
    pub open spec fn consumer(self) -> bool {
        &&& self.bus == BusType::BUS_USB || self.bus == BusType::BUS_BLUETOOTH
        &&& self.has_key(KeyCode::KEY_VOLUMEUP) || self.has_key(KeyCode::KEY_MUTE) || self.has_key(
            KeyCode::KEY_PLAYPAUSE,
        )
    }

    /// One of our own uinput devices.
    pub open spec fn is_virtual(self) -> bool {
        self.name matches Some(name) && text::starts_with(name@, VIRTUAL_PREFIX@)
    }

    /// A device that auto-detection takes.
    pub open spec fn managed(self) -> bool {
        !self.is_virtual() && (self.keyboard() || self.mouse() || self.consumer())
    }
}

/// Whether a list holds a code.
fn holds(list: &Vec<u16>, code: u16) -> (r: bool)
    ensures
        r == list@.contains(code),
{
    let mut i: usize = 0;
    while i < list.len()
        invariant
            i <= list@.len(),
            forall|j: int| 0 <= j < i ==> list@[j] != code,
        decreases list@.len() - i,
    {
        if list[i] == code {
            return true;
        }
        i = i + 1;
    }
    false
}

fn supports_key(dev: &DeviceCaps, key: u16) -> (r: bool)
    ensures
        r == dev.has_key(key),
{
    match &dev.keys {
        Some(list) => holds(list, key),
        None => false,
    }
}

fn supports_axis(dev: &DeviceCaps, axis: u16) -> (r: bool)
    ensures
        r == dev.has_axis(axis),
{
    match &dev.axes {
        Some(list) => holds(list, axis),
        None => false,
    }
}

pub fn is_keyboard(dev: &DeviceCaps) -> (r: bool)
    ensures
        r == dev.keyboard(),
{
    supports_key(dev, KeyCode::KEY_A)
}

/// Media collections. A keyboard's volume roller and transport keys usually sit
/// on a node of their own that has no KEY_A and no pointer — the Apex 3's is
/// KEY_ESC, KEY_ENTER and the media keys — so neither of the other predicates
/// claims it and the keys would never be grabbed at all.
///
/// Restricted to attached peripherals: HDMI CEC receivers advertise the very
/// same media keys, and grabbing those takes the monitor's remote away from the
/// host and turns anything the display emits — plugging in, or the input switch
/// the slot hooks drive — into keystrokes for whichever target is active.
pub fn is_consumer(dev: &DeviceCaps) -> (r: bool)
    ensures
        r == dev.consumer(),
{
    if dev.bus != BusType::BUS_USB && dev.bus != BusType::BUS_BLUETOOTH {
        return false;
    }
    supports_key(dev, KeyCode::KEY_VOLUMEUP) || supports_key(dev, KeyCode::KEY_MUTE)
        || supports_key(dev, KeyCode::KEY_PLAYPAUSE)
}

pub fn is_mouse(dev: &DeviceCaps) -> (r: bool)
    ensures
        r == dev.mouse(),
{
    supports_axis(dev, RelativeAxisCode::REL_X) && supports_key(dev, KeyCode::BTN_LEFT)
}

/// Whether a device is one of our own.
pub fn is_own(dev: &DeviceCaps) -> (r: bool)
    ensures
        r == dev.is_virtual(),
{
    match &dev.name {
        Some(name) => text::str_starts_with(name.as_str(), VIRTUAL_PREFIX),
        None => {
            false
        },
    }
}

/// Whether auto-detection takes a device.
pub fn manages(dev: &DeviceCaps) -> (r: bool)
    ensures
        r == dev.managed(),
{
    !is_own(dev) && (is_keyboard(dev) || is_mouse(dev) || is_consumer(dev))
}

/// The paths of the devices that auto-detection takes, in order.
pub open spec fn detected(present: Seq<Candidate>) -> Seq<Seq<char>>
    decreases present.len(),
{
    if present.len() == 0 {
        Seq::empty()
    } else {
        let before = detected(present.drop_last());
        if present.last().caps.managed() {
            before.push(present.last().path@)
        } else {
            before
        }
    }
}

/// The paths to manage: the configured ones, or whatever is detected.
pub open spec fn to_manage(explicit: Option<Vec<String>>, present: Seq<Candidate>) -> Seq<
    Seq<char>,
> {
    match explicit {
        Some(paths) => text::texts(paths@),
        None => detected(present),
    }
}

/// Discover the devices to manage: explicit paths from the config, or
/// auto-detection of everything that looks like a keyboard, mouse or media
/// collection.
pub fn discover(explicit: &Option<Vec<String>>, present: &[Candidate]) -> (r: Result<
    Vec<String>,
    NoDevices,
>)
    ensures
        r matches Ok(paths) ==> text::texts(paths@) == to_manage(*explicit, present@)
            && paths@.len() > 0,
        r is Err ==> to_manage(*explicit, present@).len() == 0,
{
    let mut found: Vec<String> = Vec::new();
    match explicit {
        Some(paths) => {
            found = text::copy_texts(paths);
        },
        None => {
            let mut i: usize = 0;
            assert(text::texts(found@) =~= Seq::empty());
            while i < present.len()
                invariant
                    i <= present@.len(),
                    text::texts(found@) == detected(present@.take(i as int)),
                decreases present@.len() - i,
            {
                assert(present@.take(i + 1).drop_last() =~= present@.take(i as int));
                if manages(&present[i].caps) {
                    let ghost before = found@;
                    let path = present[i].path.clone();
                    found.push(path);
                    assert(text::texts(found@) =~= text::texts(before).push(path@));
                }
                i = i + 1;
            }
            assert(present@.take(i as int) =~= present@);
        },
    }
    assert(text::texts(found@).len() == found@.len());
    if found.len() == 0 {
        Err(NoDevices)
    } else {
        Ok(found)
    }
}

/// The hub never reads back what it injects itself.
pub proof fn law_own_devices_are_skipped(present: Seq<Candidate>, path: Seq<char>)
    requires
        forall|i: int|
            0 <= i < present.len() && (#[trigger] present[i]).path@ == path
                ==> present[i].caps.is_virtual(),
    ensures
        !detected(present).contains(path),
    decreases present.len(),
{
    if present.len() > 0 {
        let init = present.drop_last();
        assert forall|i: int| 0 <= i < init.len() && (#[trigger] init[i]).path@ == path implies init[i].caps.is_virtual() by {
            assert(present[i] == init[i]);
        }
        law_own_devices_are_skipped(init, path);
        let before = detected(init);
        assert(present[present.len() - 1] == present.last());
        if present.last().caps.managed() {
            let all = before.push(present.last().path@);
            assert forall|i: int| 0 <= i < all.len() implies all[i] != path by {
                if i < before.len() {
                    assert(before[i] == all[i]);
                    assert(before.contains(before[i]));
                }
            }
        }
    }
}

/// The paths of the keyboards present, ours or the physical ones.
pub open spec fn keyboards(present: Seq<Candidate>, own: bool) -> Seq<Seq<char>>
    decreases present.len(),
{
    if present.len() == 0 {
        Seq::empty()
    } else {
        let before = keyboards(present.drop_last(), own);
        let c = present.last();
        if c.caps.keyboard() && c.caps.is_virtual() == own {
            before.push(c.path@)
        } else {
            before
        }
    }
}

/// The keyboards present, ours or the physical ones.
fn list_keyboards(present: &[Candidate], own: bool) -> (r: Vec<String>)
    ensures
        text::texts(r@) == keyboards(present@, own),
        r@.len() == keyboards(present@, own).len(),
{
    let mut found: Vec<String> = Vec::new();
    let mut i: usize = 0;
    assert(text::texts(found@) =~= Seq::empty());
    while i < present.len()
        invariant
            i <= present@.len(),
            text::texts(found@) == keyboards(present@.take(i as int), own),
        decreases present@.len() - i,
    {
        assert(present@.take(i + 1).drop_last() =~= present@.take(i as int));
        if is_keyboard(&present[i].caps) && is_own(&present[i].caps) == own {
            let ghost before = found@;
            let path = present[i].path.clone();
            found.push(path);
            assert(text::texts(found@) =~= text::texts(before).push(path@));
        }
        i = i + 1;
    }
    assert(present@.take(i as int) =~= present@);
    assert(text::texts(found@).len() == found@.len());
    found
}

/// The keyboards to read and whether they are km-hub's virtual one (i.e. the
/// daemon is running and holds the physical ones).
pub fn open_keyboards(present: &[Candidate]) -> (r: Result<(Vec<String>, bool), NoDevices>)
    ensures
        ({
            let own = keyboards(present@, true);
            let physical = keyboards(present@, false);
            match r {
                Ok((paths, true)) => own.len() > 0 && text::texts(paths@) == own,
                Ok((paths, false)) => own.len() == 0 && physical.len() > 0 && text::texts(paths@)
                    == physical,
                Err(_) => own.len() == 0 && physical.len() == 0,
            }
        }),
{
    let own = list_keyboards(present, true);
    if own.len() > 0 {
        return Ok((own, true));
    }
    let physical = list_keyboards(present, false);
    if physical.len() == 0 {
        return Err(NoDevices);
    }
    Ok((physical, false))
}

// ---------------------------------------------------------------------------
// The local sink
// ---------------------------------------------------------------------------

/// Which virtual device re-injects an event.
#[derive(Debug, Clone, Copy, PartialEq, Eq, Structural)]
pub enum LocalRoute {
    Keyboard,
    Mouse,
    /// Nothing does: the virtual devices append their own SYN_REPORT, and
    /// other events have no place on them.
    Skip,
}

/// A mouse button.
pub open spec fn is_button(code: u16) -> bool {
    KeyCode::BTN_LEFT <= code <= KeyCode::BTN_TASK
}

/// Where an event is re-injected.
pub open spec fn local_route(event: InputEvent) -> LocalRoute {
    if event.kind == EventType::KEY {
        if is_button(event.code) {
            LocalRoute::Mouse
        } else {
            LocalRoute::Keyboard
        }
    } else if event.kind == EventType::RELATIVE {
        LocalRoute::Mouse
    } else {
        LocalRoute::Skip
    }
}

/// Where an event is re-injected into the local session. SYN events are
/// skipped.
pub fn route(event: &InputEvent) -> (r: LocalRoute)
    ensures
        r == local_route(*event),
{
    if event.kind == EventType::KEY {
        if KeyCode::BTN_LEFT <= event.code && event.code <= KeyCode::BTN_TASK {
            LocalRoute::Mouse
        } else {
            LocalRoute::Keyboard
        }
    } else if event.kind == EventType::RELATIVE {
        LocalRoute::Mouse
    } else {
        LocalRoute::Skip
    }
}

/// The codes from `first` to `last`.
fn code_range(first: u16, last: u16) -> (r: Vec<u16>)
    requires
        first <= last < u16::MAX,
    ensures
        r@ == Seq::new((last - first + 1) as nat, |i: int| (first + i) as u16),
{
    let mut out: Vec<u16> = Vec::new();
    let mut code: u16 = first;
    while code <= last
        invariant
            first <= code <= last + 1,
            last < u16::MAX,
            out@ == Seq::new((code - first) as nat, |i: int| (first + i) as u16),
        decreases last + 1 - code,
    {
        let ghost before = out@;
        out.push(code);
        assert(out@ =~= Seq::new((code + 1 - first) as nat, |i: int| (first + i) as u16));
        code = code + 1;
    }
    out
}

/// The keys the virtual keyboard announces: all standard ones.
pub fn sink_keys() -> (r: Vec<u16>)
    ensures
        r@ == Seq::new(LAST_SINK_KEY as nat, |i: int| (1 + i) as u16),
{
    code_range(1, LAST_SINK_KEY)
}

/// The buttons the virtual mouse announces.
pub fn sink_buttons() -> (r: Vec<u16>)
    ensures
        r@ == Seq::new(
            (KeyCode::BTN_TASK - KeyCode::BTN_LEFT + 1) as nat,
            |i: int| (KeyCode::BTN_LEFT + i) as u16,
        ),
{
    code_range(KeyCode::BTN_LEFT, KeyCode::BTN_TASK)
}

/// The axes the virtual mouse announces.
pub fn sink_axes() -> (r: Vec<u16>)
    ensures
        r@ == seq![
            RelativeAxisCode::REL_X,
            RelativeAxisCode::REL_Y,
            RelativeAxisCode::REL_WHEEL,
            RelativeAxisCode::REL_HWHEEL,
        ],
{
    let mut out: Vec<u16> = Vec::new();
    out.push(RelativeAxisCode::REL_X);
    out.push(RelativeAxisCode::REL_Y);
    out.push(RelativeAxisCode::REL_WHEEL);
    out.push(RelativeAxisCode::REL_HWHEEL);
    assert(out@ =~= seq![
        RelativeAxisCode::REL_X,
        RelativeAxisCode::REL_Y,
        RelativeAxisCode::REL_WHEEL,
        RelativeAxisCode::REL_HWHEEL,
    ]);
    out
}

/// The event that lets a key go.
pub open spec fn release_of(key: u16) -> InputEvent {
    InputEvent { kind: EventType::KEY, code: key, value: 0 }
}

/// The release events for a list of keys, in order (used when switching away
/// from the local target so nothing stays stuck).
pub fn release_events(keys: &[u16]) -> (r: Vec<InputEvent>)
    ensures
        r@ == Seq::new(keys@.len(), |i: int| release_of(keys@[i])),
{
    let mut out: Vec<InputEvent> = Vec::new();
    let mut i: usize = 0;
    while i < keys.len()
        invariant
            i <= keys@.len(),
            out@.len() == i,
            forall|j: int| 0 <= j < i ==> #[trigger] out@[j] == release_of(keys@[j]),
        decreases keys@.len() - i,
    {
        out.push(InputEvent { kind: EventType::KEY, code: keys[i], value: 0 });
        i = i + 1;
    }
    assert(out@ =~= Seq::new(keys@.len(), |i: int| release_of(keys@[i])));
    out
}

/// A release is re-injected wherever its press was.
pub proof fn law_release_goes_where_the_press_went(key: u16, value: i32)
    ensures
        local_route(release_of(key)) == local_route(
            InputEvent { kind: EventType::KEY, code: key, value },
        ),
        local_route(release_of(key)) != LocalRoute::Skip,
{
}

/// What makes a device a keyboard, a mouse or a media collection, by the codes
/// it announces and the bus it sits on; and which devices are the hub's own.
pub proof fn law_device_kinds(caps: DeviceCaps)
    ensures
        caps.keyboard() <==> caps.has_key(30),
        caps.mouse() <==> caps.has_axis(0) && caps.has_key(0x110),
        caps.consumer() <==> (caps.bus == 3 || caps.bus == 5) && (caps.has_key(115) || caps.has_key(
            113,
        ) || caps.has_key(164)),
        caps.is_virtual() <==> caps.name is Some && text::starts_with(
            (caps.name->0)@,
            "km-hub virtual"@,
        ),
        caps.managed() <==> !caps.is_virtual() && (caps.keyboard() || caps.mouse()
            || caps.consumer()),
{
}

/// A device that detection takes is present at a path.
pub open spec fn managed_at(present: Seq<Candidate>, path: Seq<char>) -> bool {
    exists|i: int|
        0 <= i < present.len() && (#[trigger] present[i]).caps.managed() && present[i].path@ == path
}

/// Detection takes every device it manages and no other.
pub proof fn law_detection_is_complete(present: Seq<Candidate>)
    ensures
        forall|i: int|
            0 <= i < present.len() && (#[trigger] present[i]).caps.managed() ==> detected(
                present,
            ).contains(present[i].path@),
        forall|j: int|
            0 <= j < detected(present).len() ==> managed_at(present, #[trigger] detected(present)[j]),
        detected(present).len() <= present.len(),
    decreases present.len(),
{
    if present.len() > 0 {
        let init = present.drop_last();
        law_detection_is_complete(init);
        let a = detected(init);
        let b = detected(present);
        assert forall|i: int| 0 <= i < present.len() && (
        #[trigger] present[i]).caps.managed() implies b.contains(present[i].path@) by {
            if i < init.len() {
                assert(init[i] == present[i]);
                let j = choose|j: int| 0 <= j < a.len() && a[j] == init[i].path@;
                assert(b[j] == a[j]);
            } else {
                assert(b[b.len() - 1] == present[i].path@);
            }
        }
        assert forall|j: int| 0 <= j < b.len() implies managed_at(present, #[trigger] b[j]) by {
            if j < a.len() {
                assert(a[j] == b[j]);
                assert(managed_at(init, a[j]));
                let i = choose|i: int|
                    0 <= i < init.len() && (#[trigger] init[i]).caps.managed() && init[i].path@
                        == a[j];
                assert(present[i] == init[i]);
            } else {
                assert(present[present.len() - 1].path@ == b[j]);
            }
        }
    }
}

/// Devices that are all managed are taken in the order they were found.
pub proof fn law_detection_keeps_order(present: Seq<Candidate>)
    requires
        forall|i: int| 0 <= i < present.len() ==> (#[trigger] present[i]).caps.managed(),
    ensures
        detected(present).len() == present.len(),
        forall|i: int|
            0 <= i < present.len() ==> #[trigger] detected(present)[i] == present[i].path@,
    decreases present.len(),
{
    if present.len() > 0 {
        let init = present.drop_last();
        assert forall|i: int| 0 <= i < init.len() implies (#[trigger] init[i]).caps.managed() by {
            assert(init[i] == present[i]);
        }
        assert(present[present.len() - 1] == present.last());
        law_detection_keeps_order(init);
        assert forall|i: int| 0 <= i < present.len() implies #[trigger] detected(present)[i]
            == present[i].path@ by {
            if i < init.len() {
                assert(detected(present)[i] == detected(init)[i]);
                assert(init[i] == present[i]);
            }
        }
    }
}

/// Configured paths are managed as they stand, whatever is present.
pub proof fn law_configured_paths_win(explicit: Option<Vec<String>>, present: Seq<Candidate>)
    ensures
        explicit is Some ==> to_manage(explicit, present) == text::texts((explicit->0)@),
        explicit is None ==> to_manage(explicit, present) == detected(present),
{
}

/// The keyboards listed are those present that are the hub's own, or those
/// that are not.
pub proof fn law_keyboards_listed(present: Seq<Candidate>, own: bool)
    ensures
        forall|i: int|
            0 <= i < present.len() && (#[trigger] present[i]).caps.has_key(30)
                && present[i].caps.is_virtual() == own ==> keyboards(present, own).contains(
                present[i].path@,
            ),
        forall|j: int|
            0 <= j < keyboards(present, own).len() ==> exists|i: int|
                0 <= i < present.len() && (#[trigger] present[i]).caps.has_key(30)
                    && present[i].caps.is_virtual() == own && present[i].path@
                    == #[trigger] keyboards(present, own)[j],
        keyboards(present, own).len() <= present.len(),
    decreases present.len(),
{
    if present.len() > 0 {
        let init = present.drop_last();
        law_keyboards_listed(init, own);
        let a = keyboards(init, own);
        let b = keyboards(present, own);
        assert forall|i: int| 0 <= i < present.len() && (#[trigger] present[i]).caps.has_key(30)
            && present[i].caps.is_virtual() == own implies b.contains(present[i].path@) by {
            if i < init.len() {
                assert(init[i] == present[i]);
                let j = choose|j: int| 0 <= j < a.len() && a[j] == init[i].path@;
                assert(b[j] == a[j]);
            } else {
                assert(b[b.len() - 1] == present[i].path@);
            }
        }
        assert forall|j: int| 0 <= j < b.len() implies exists|i: int|
            0 <= i < present.len() && (#[trigger] present[i]).caps.has_key(30)
                && present[i].caps.is_virtual() == own && present[i].path@ == #[trigger] b[j] by {
            if j < a.len() {
                assert(a[j] == b[j]);
                let i = choose|i: int|
                    0 <= i < init.len() && (#[trigger] init[i]).caps.has_key(30)
                        && init[i].caps.is_virtual() == own && init[i].path@ == a[j];
                assert(present[i] == init[i]);
            } else {
                assert(present[present.len() - 1].path@ == b[j]);
            }
        }
    }
}

/// Buttons and motion go to the virtual mouse, keys to the virtual keyboard,
/// and nothing else is re-injected.
pub proof fn law_local_routes(event: InputEvent)
    ensures
        event.kind == 1 && 0x110 <= event.code <= 0x117 ==> local_route(event) == LocalRoute::Mouse,
        event.kind == 1 && !(0x110 <= event.code <= 0x117) ==> local_route(event)
            == LocalRoute::Keyboard,
        event.kind == 2 ==> local_route(event) == LocalRoute::Mouse,
        event.kind != 1 && event.kind != 2 ==> local_route(event) == LocalRoute::Skip,
        release_of(event.code) == (InputEvent { kind: 1, code: event.code, value: 0 }),
{
}

/// What the virtual devices announce: keys 1 to 248, buttons 0x110 to 0x117,
/// both axes and both wheels.
pub proof fn law_sink_codes()
    ensures
        LAST_SINK_KEY == 248,
        KeyCode::BTN_LEFT == 0x110,
        KeyCode::BTN_TASK == 0x117,
        RelativeAxisCode::REL_X == 0,
        RelativeAxisCode::REL_Y == 1,
        RelativeAxisCode::REL_HWHEEL == 6,
        RelativeAxisCode::REL_WHEEL == 8,
        EventType::KEY == 1,
        EventType::RELATIVE == 2,
{
}

/// A device has a key or an axis where it lists one, and none where it lists
/// nothing.
pub proof fn law_listed_codes(caps: DeviceCaps, code: u16)
    ensures
        caps.keys is None ==> !caps.has_key(code),
        caps.keys is Some ==> (caps.has_key(code) <==> (caps.keys->0)@.contains(code)),
        caps.axes is None ==> !caps.has_axis(code),
        caps.axes is Some ==> (caps.has_axis(code) <==> (caps.axes->0)@.contains(code)),
        caps.name is None ==> !caps.is_virtual(),
{
}

} // verus!
