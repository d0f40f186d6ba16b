//! Assigns the USB and PCI devices of a host to its virtual machines.
//!
//! The library decides; it touches nothing outside itself. What has to be read
//! or done on the host is handed out as a step, and what came of it is handed
//! back.

pub mod api;
pub mod batch;
pub mod cli;
pub mod client;
pub mod config;
pub mod crosvm;
pub mod daemon;
pub mod device;
pub mod error;
pub mod gate;
pub mod json;
pub mod manager;
pub mod number;
pub mod observe;
pub mod order;
pub mod pattern;
pub mod pci;
pub mod protocol;
pub mod state;
pub mod table;
pub mod text;
pub mod unix_ids;
pub mod usb_attach;
pub mod usb_detach;
pub mod usb_gate;
pub mod vmm;

pub use config::Config;
pub use manager::{DeviceManager, Selector};
pub use protocol::{Action, PciSelector, Response, UsbSelector};
