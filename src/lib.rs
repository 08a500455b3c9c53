//! I²C bus discovery and validation.
//!
//! The library holds the decisions of an I²C inventory tool: how probe
//! outcomes become address lists, how a scan is reconciled against an
//! expected address set, how bus nodes are recognised and ordered, and how
//! sysfs paths are spelled. Everything that touches the host (opening device
//! nodes, reading directories) is done by the caller, which hands the results
//! in as plain values.

use vstd::prelude::*;

pub mod bus;
pub mod device;
pub mod device_info;
pub mod audit;
pub mod i2c;
pub mod os_release;
pub mod paths;
pub mod reconcile;
