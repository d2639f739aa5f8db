//! The Bluetooth side: addresses, transports, slot bindings and pairing.

use vstd::prelude::*;

use crate::bt::addr::Address;
use crate::text;

pub mod addr;
pub mod agent;
pub mod dial;
pub mod gatt;
pub mod manager;
pub mod replay;
pub mod sdp;
pub mod transport;

verus! {

broadcast use vstd::seq::group_seq_axioms;

/// Class of device for a keyboard/mouse combo peripheral (major = Peripheral,
/// minor = keyboard+pointing). Only the major/minor bits (2..12) are compared:
/// bluetoothd ORs service-class bits (bits 13..23) in on its own.
pub const EXPECTED_CLASS: u32 = 0x0005C0;

pub const DEVICE_CLASS_MASK: u32 = 0x001FFC;

pub const HID_PROFILE_UUID: &'static str = "00001124-0000-1000-8000-00805f9b34fb";

#[derive(Debug, Clone, Copy, PartialEq, Eq, Structural)]
pub enum TransportKind {
    Log,
    L2cap,
    /// HID over GATT: LE peripheral, hosts connect to us. No classic HID
    /// listeners and no SDP record in this mode.
    Le,
}

/// Commands from the router.
#[derive(Debug, Clone, Copy, PartialEq, Eq, Structural)]
pub enum BtCmd {
    /// An unbound slot's combo was pressed: make the adapter discoverable and
    /// bind the next device that pairs to this slot.
    OpenPairingWindow { slot: u8 },
    /// The slot's combo was held down: forget whatever is bound there, drop the
    /// pairing, and open a window so the slot can be claimed again.
    RepairSlot { slot: u8 },
}

/// Whether an adapter's class of device is that of a keyboard/mouse combo.
/// Class of device is a BR/EDR notion; on LE the advertisement's appearance
/// plays that role.
pub fn is_combo_class(class: u32) -> (r: bool)
    ensures
        r == ((class / 4) % 2048 == EXPECTED_CLASS / 4),
{
    assert((class & 0x001FFCu32 == 0x0005C0u32) <==> ((class / 4) % 2048 == 0x170u32))
        by (bit_vector);
    class & DEVICE_CLASS_MASK == EXPECTED_CLASS
}

/// A text with every colon replaced by an underscore.
pub open spec fn underscored(s: Seq<char>) -> Seq<char> {
    s.map_values(
        |c: char|
            if c == ':' {
                '_'
            } else {
                c
            },
    )
}

/// The D-Bus object of a device on an adapter.
pub fn device_path(adapter: &str, addr: Address) -> (r: String)
    ensures
        r@ == "/org/bluez/"@ + adapter@ + "/dev_"@ + underscored(addr.spelling()),
{
    let mut path = "/org/bluez/".to_owned();
    path.append(adapter);
    path.append("/dev_");
    let ghost head = path@;
    let spelling = addr.to_string();
    let chars = text::chars_of(spelling.as_str());
    let mut i: usize = 0;
    while i < chars.len()
        invariant
            i <= chars@.len(),
            path@ == head + underscored(chars@.take(i as int)),
        decreases chars@.len() - i,
    {
        let c: char = chars[i];
        path.push(
            if c == ':' {
                '_'
            } else {
                c
            },
        );
        assert(path@ =~= head + underscored(chars@.take(i + 1)));
        i = i + 1;
    }
    assert(chars@.take(i as int) =~= chars@);
    path
}

/// The class of a keyboard and mouse combo, and which of its bits count.
pub proof fn law_combo_class()
    ensures
        EXPECTED_CLASS == 0x0005C0,
        DEVICE_CLASS_MASK == 0x001FFC,
        HID_PROFILE_UUID@ == "00001124-0000-1000-8000-00805f9b34fb"@,
{
}

/// Colons become underscores and nothing else changes.
pub proof fn law_underscores(s: Seq<char>, i: int)
    requires
        0 <= i < s.len(),
    ensures
        underscored(s).len() == s.len(),
        s[i] == ':' ==> underscored(s)[i] == '_',
        s[i] != ':' ==> underscored(s)[i] == s[i],
{
}

} // verus!
