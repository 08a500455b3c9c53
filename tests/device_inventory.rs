use std::collections::HashMap;

use tux_validation::audit::{audit_bus_devices, i2c_client_address};
use tux_validation::device::{BusStatus, DeviceAddress, DeviceStatus, Subsystem, TuxBus, TuxDevice};
use tux_validation::device_info::device_name_from_attributes;

fn registered(bus: u32, address: u16, name: &str) -> TuxDevice {
    TuxDevice {
        name: name.to_string(),
        address: DeviceAddress::I2c { bus, address },
        status: DeviceStatus {
            in_udev: true,
            in_sysfs: true,
            hw_responding: false,
            driver_bound: Some("drv".to_string()),
        },
        attributes: HashMap::new(),
    }
}

#[test]
fn device_name_prefers_trimmed_name_attribute() {
    let name = device_name_from_attributes(Some("  rk808\n"), Some("OF_COMPATIBLE_0=x,y\n"));
    assert_eq!(name, "rk808");
}

#[test]
fn device_name_falls_back_to_compatible_string() {
    let uevent = "DRIVER=rk808\nOF_NAME=pmic\r\nOF_COMPATIBLE_0=rockchip,rk808\nOF_COMPATIBLE_1=other,chip\n";
    assert_eq!(device_name_from_attributes(None, Some(uevent)), "rk808");
    assert_eq!(
        device_name_from_attributes(None, Some("OF_COMPATIBLE_0=a=b")),
        "a=b"
    );
    assert_eq!(
        device_name_from_attributes(None, Some("OF_COMPATIBLE_0=plain\r\n")),
        "plain"
    );
    assert_eq!(
        device_name_from_attributes(None, Some("OF_COMPATIBLE_0=a,b=c,d")),
        "d"
    );
}

#[test]
fn device_name_unidentified_without_attributes() {
    assert_eq!(device_name_from_attributes(None, None), "Unidentified");
    assert_eq!(
        device_name_from_attributes(None, Some("DRIVER=x\n OF_COMPATIBLE_0=a,b\n")),
        "Unidentified"
    );
}

#[test]
fn audit_marks_bound_devices_and_adds_unlisted_ones() {
    let devices = vec![registered(7, 0x1b, "codec"), registered(7, 0x50, "eeprom")];
    let out = audit_bus_devices(7, devices, &[0x50, 0x62, 0x62], &[0x1b]);
    assert_eq!(out.len(), 3);
    assert!(out[0].status.hw_responding);
    assert!(!out[1].status.hw_responding);
    assert_eq!(out[1].name, "eeprom");
    assert_eq!(out[2].name, "Unknown");
    assert_eq!(out[2].address.as_i2c_address(), Some(0x62));
    assert!(out[2].status.hw_responding);
    assert!(!out[2].status.in_udev);
    assert!(out[2].status.driver_bound.is_none());
}

#[test]
fn client_sysnames_decode_to_bus_and_address() {
    assert_eq!(i2c_client_address("i2c-7", "7-001b"), Some((7, 0x1b)));
    assert_eq!(i2c_client_address("i2c-0", "0-00AF"), Some((0, 0xaf)));
    assert_eq!(i2c_client_address("spi-0", "0-001b"), None);
    assert_eq!(i2c_client_address("i2c-7", "i2c-7"), None);
    assert_eq!(i2c_client_address("i2c-7", "300-001b"), Some((300, 0x1b)));
    assert_eq!(i2c_client_address("i2c-7", "4294967296-001b"), None);
    assert_eq!(i2c_client_address("i2c-7", "7-10000"), None);
    assert_eq!(i2c_client_address("i2c-7", "7"), None);
}

#[test]
fn constructors_fill_inventory_fields() {
    let d = TuxDevice::from_i2c_client("pmic".to_string(), 3, 0x1b, "rk808".to_string());
    assert_eq!(d.name, "pmic");
    assert_eq!(d.address.as_i2c_address(), Some(0x1b));
    assert!(d.status.in_udev && d.status.in_sysfs && !d.status.hw_responding);
    assert_eq!(d.status.driver_bound.as_deref(), Some("rk808"));
    let bus = TuxBus::active_i2c(12, vec![d]);
    assert_eq!(bus.name, "i2c-12");
    assert_eq!(bus.id, "12");
    assert_eq!(bus.subsystem, Subsystem::I2c);
    assert_eq!(bus.status, BusStatus::Active);
    assert_eq!(bus.devices.len(), 1);
    assert!(bus.metadata.is_empty());
}
