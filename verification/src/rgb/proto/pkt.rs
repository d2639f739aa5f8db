//! Packet IDs of the OpenRGB SDK protocol.

use vstd::prelude::*;

verus! {

pub const CONTROLLER_COUNT: u32 = 0;

pub const CONTROLLER_DATA: u32 = 1;

pub const PROTOCOL_VERSION: u32 = 40;

pub const SET_CLIENT_NAME: u32 = 50;

pub const DEVICE_LIST_UPDATED: u32 = 100;

pub const RESCAN_DEVICES: u32 = 140;

pub const UPDATE_LEDS: u32 = 1050;

pub const UPDATE_MODE: u32 = 1101;

} // verus!
