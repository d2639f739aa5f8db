//! km-hub: the verified core of a keyboard/mouse hub that switches wired input
//! between computers over Bluetooth.

pub mod bt;
pub mod cli;
pub mod config;
pub mod hid;
pub mod hooks;
pub mod input;
pub mod macro_cli;
pub mod rgb;
pub mod router;
pub mod state;
pub mod text;
pub mod time;
pub mod wire;
