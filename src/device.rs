//! The inventory model: devices, their addresses and status, and buses.

use vstd::prelude::*;
use std::collections::HashMap;
use crate::paths::{append_decimal, decimal_string};

verus! {

/// What the discovery methods found out about one device.
#[derive(Debug, Default, Clone)]
pub struct DeviceStatus {
    pub in_udev: bool,
    pub in_sysfs: bool,
    pub hw_responding: bool,
    /// Name of the driver that owns the device, if any.
    pub driver_bound: Option<String>,
}

/// Where a device sits on its bus.
#[derive(Debug, Clone)]
pub enum DeviceAddress {
    I2c { bus: u32, address: u16 },
    Usb { port: String },
    Pci { slot: String },
}

impl DeviceAddress {
    /// The client address of an I²C device; `None` for other buses.
    pub fn as_i2c_address(&self) -> (r: Option<u16>)
        ensures
            r == match self {
                DeviceAddress::I2c { address, .. } => Some(*address),
                _ => None::<u16>,
            },
    {
        match self {
            DeviceAddress::I2c { address, .. } => Some(*address),
            _ => None,
        }
    }
}

/// One device of the inventory.
#[derive(Debug, Clone)]
pub struct TuxDevice {
    pub name: String,
    pub address: DeviceAddress,
    pub status: DeviceStatus,
    /// Extra optional information.
    pub attributes: HashMap<String, String>,
}

impl TuxDevice {
    /// A client that udev lists at `address` on bus `bus`, named `name` and
    /// owned by the driver `driver`; whether it answers is not known yet.
    pub fn from_i2c_client(name: String, bus: u32, address: u16, driver: String) -> (r: Self)
        ensures
            r.name == name,
            r.address == (DeviceAddress::I2c { bus, address }),
            r.status.in_udev,
            r.status.in_sysfs,
            !r.status.hw_responding,
            r.status.driver_bound == Some(driver),
            r.attributes@ == Map::<String, String>::empty(),
    {
        TuxDevice {
            name,
            address: DeviceAddress::I2c { bus, address },
            status: DeviceStatus {
                in_udev: true,
                in_sysfs: true,
                hw_responding: false,
                driver_bound: Some(driver),
            },
            attributes: HashMap::new(),
        }
    }
}

/// Kind of bus a controller drives.
#[derive(Debug, Clone, Copy, PartialEq, Eq, Structural)]
pub enum Subsystem {
    I2c,
    Usb,
    Pci,
    Gpio,
}

/// Health of a bus controller.
#[derive(Debug, Clone, Copy, PartialEq, Eq, Structural)]
pub enum BusStatus {
    Active,
    Inactive,
    Missing,
}

/// A bus controller with the devices found on it.
pub struct TuxBus {
    /// Node name, such as `i2c-7`.
    pub name: String,
    pub subsystem: Subsystem,
    /// Bus number as text, such as `7`.
    pub id: String,
    pub devices: Vec<TuxDevice>,
    pub status: BusStatus,
    pub metadata: HashMap<String, String>,
}

impl TuxBus {
    /// The active I²C bus `bus_id` (named `i2c-<bus_id>`) holding `devices`.
    pub fn active_i2c(bus_id: u32, devices: Vec<TuxDevice>) -> (r: Self)
        ensures
            r.name@ == "i2c-"@ + decimal_string(bus_id as nat),
            r.id@ == decimal_string(bus_id as nat),
            r.subsystem == Subsystem::I2c,
            r.devices@ == devices@,
            r.status == BusStatus::Active,
            r.metadata@ == Map::<String, String>::empty(),
    {
        let mut name = String::from_str("i2c-");
        append_decimal(&mut name, bus_id);
        let mut id = String::new();
        append_decimal(&mut id, bus_id);
        TuxBus {
            name,
            subsystem: Subsystem::I2c,
            id,
            devices,
            status: BusStatus::Active,
            metadata: HashMap::new(),
        }
    }
}

} // verus!
