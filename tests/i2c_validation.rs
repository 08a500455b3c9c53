use tux_validation::bus::{bus_ids_from_node_names, parse_bus_node_name};
use tux_validation::device::DeviceAddress;
use tux_validation::i2c::{
    classify_hw_probe, kernel_detected_from_presence, scan_bus, validate_bus, FakeI2cScanner,
    I2cScanner, ProbeOutcome, ScanError,
};
use tux_validation::paths::{bus_device_path, sysfs_address_suffix, sysfs_device_dir};
use tux_validation::reconcile::reconcile;

const EBUSY: i32 = 16;

fn host_with_sysfs(bus: u32, addrs: &[u16]) -> FakeI2cScanner {
    let mut s = FakeI2cScanner::new(bus);
    for &a in addrs {
        s = s.with_sysfs_entry(a);
    }
    s
}

#[test]
fn sysfs_only_validation_finds_expected_devices() {
    let scanner = host_with_sysfs(0, &[0x1b, 0x50]);
    let r = validate_bus(&scanner, &[0x1b, 0x50], false).unwrap();
    assert_eq!(r.present, vec![0x1b, 0x50]);
    assert!(r.missing.is_empty());
    assert!(r.unexpected.is_empty());
    assert!(r.probed.is_empty());
}

#[test]
fn hw_probe_marks_bound_and_acknowledged_as_probed() {
    let scanner = host_with_sysfs(0, &[0x1b, 0x50])
        .with_probe(0x50, ProbeOutcome::Acknowledged)
        .with_probe(0x1b, ProbeOutcome::AddressErrno(EBUSY));
    let r = validate_bus(&scanner, &[0x1b, 0x50], true).unwrap();
    assert_eq!(r.present, vec![0x1b, 0x50]);
    assert!(r.missing.is_empty());
    assert!(r.unexpected.is_empty());
    assert_eq!(r.probed, vec![0x1b, 0x50]);
}

#[test]
fn absent_expected_device_is_missing() {
    let scanner = host_with_sysfs(0, &[0x1b, 0x50]);
    let r = validate_bus(&scanner, &[0x1b, 0x50, 0x68], false).unwrap();
    assert_eq!(r.missing, vec![0x68]);
    assert_eq!(r.present, vec![0x1b, 0x50]);
    assert!(r.unexpected.is_empty());
}

#[test]
fn unexpected_hw_answer_is_reported_and_probed() {
    let scanner = host_with_sysfs(0, &[0x50])
        .with_probe(0x50, ProbeOutcome::Acknowledged)
        .with_probe(0x77, ProbeOutcome::Acknowledged);
    let r = validate_bus(&scanner, &[0x50], true).unwrap();
    assert_eq!(r.present, vec![0x50]);
    assert_eq!(r.unexpected, vec![0x77]);
    assert!(r.missing.is_empty());
    assert_eq!(r.probed, vec![0x50, 0x77]);
}

#[test]
fn missing_bus_node_fails_validation() {
    let scanner = FakeI2cScanner::new(3).with_probe(0x08, ProbeOutcome::BusMissing);
    let r = validate_bus(&scanner, &[0x50], true);
    assert!(matches!(r, Err(ScanError::BusNotFound(3))));
}

#[test]
fn denied_bus_node_fails_with_permission_error() {
    let scanner = FakeI2cScanner::new(2).with_probe(0x10, ProbeOutcome::AccessDenied);
    let r = validate_bus(&scanner, &[0x50], true);
    assert!(matches!(r, Err(ScanError::PermissionDenied(2))));
}

#[test]
fn expected_address_out_of_range_is_rejected() {
    let scanner = host_with_sysfs(0, &[0x50]);
    assert!(matches!(
        validate_bus(&scanner, &[0x50, 0x07], false),
        Err(ScanError::AddressOutOfRange(0x07))
    ));
    assert!(matches!(
        validate_bus(&scanner, &[0x78, 0x07], false),
        Err(ScanError::AddressOutOfRange(0x78))
    ));
    assert!(validate_bus(&scanner, &[0x08, 0x77], false).is_ok());
}

#[test]
fn empty_bus_gives_three_empty_lists() {
    let scanner = FakeI2cScanner::new(1);
    let report = scan_bus(&scanner, bus_device_path(1), true).ok().unwrap();
    assert_eq!(report.bus_path, "/dev/i2c-1");
    assert!(report.kernel_detected.is_empty());
    assert!(report.hardware_unbound.is_empty());
    assert!(report.hardware_bound.is_empty());
}

#[test]
fn scan_without_hw_probe_has_empty_hardware_lists() {
    let scanner = host_with_sysfs(4, &[0x68, 0x1b]).with_probe(0x20, ProbeOutcome::Acknowledged);
    let report = scan_bus(&scanner, bus_device_path(4), false).ok().unwrap();
    assert_eq!(report.kernel_detected, vec![0x1b, 0x68]);
    assert!(report.hardware_unbound.is_empty());
    assert!(report.hardware_bound.is_empty());
}

#[test]
fn hardware_lists_are_disjoint_and_sorted() {
    let mut outcomes = vec![ProbeOutcome::NoResponse; 112];
    outcomes[0x50 - 8] = ProbeOutcome::Acknowledged;
    outcomes[0x1b - 8] = ProbeOutcome::AddressErrno(EBUSY);
    outcomes[0x08 - 8] = ProbeOutcome::Acknowledged;
    outcomes[0x20 - 8] = ProbeOutcome::AddressErrno(6);
    outcomes[0x21 - 8] = ProbeOutcome::OpenFailed;
    outcomes[0x77 - 8] = ProbeOutcome::AddressErrno(EBUSY);
    let (unbound, bound) = classify_hw_probe(0, &outcomes).unwrap();
    assert_eq!(unbound, vec![0x08, 0x50]);
    assert_eq!(bound, vec![0x1b, 0x77]);
    assert!(unbound.iter().all(|a| !bound.contains(a)));
}

#[test]
fn first_fatal_outcome_decides_the_error() {
    let mut outcomes = vec![ProbeOutcome::NoResponse; 112];
    outcomes[5] = ProbeOutcome::AccessDenied;
    outcomes[9] = ProbeOutcome::BusMissing;
    assert_eq!(classify_hw_probe(7, &outcomes), Err(ScanError::PermissionDenied(7)));
    assert!(ProbeOutcome::BusMissing.is_fatal());
    assert!(!ProbeOutcome::AddressErrno(EBUSY).is_fatal());
}

#[test]
fn presence_flags_map_to_addresses() {
    let mut present = vec![false; 112];
    present[0] = true;
    present[111] = true;
    present[0x1b - 8] = true;
    assert_eq!(kernel_detected_from_presence(&present), vec![0x08, 0x1b, 0x77]);
    assert!(kernel_detected_from_presence(&[]).is_empty());
}

#[test]
fn expecting_everything_observed_leaves_nothing_over() {
    let unbound = [0x10u16, 0x50];
    let bound = [0x1bu16];
    let kernel = [0x1bu16, 0x68];
    let expected = [0x68u16, 0x10, 0x1b, 0x50, 0x1b];
    let r = reconcile(&expected, &unbound, &bound, &kernel);
    assert!(r.missing.is_empty());
    assert!(r.unexpected.is_empty());
    assert_eq!(r.present, vec![0x68, 0x10, 0x1b, 0x50, 0x1b]);
}

#[test]
fn expecting_nothing_makes_everything_unexpected_once() {
    let unbound = [0x10u16, 0x50];
    let bound = [0x1bu16];
    let kernel = [0x1bu16, 0x50, 0x68];
    let r = reconcile(&[], &unbound, &bound, &kernel);
    assert!(r.present.is_empty());
    assert!(r.missing.is_empty());
    assert_eq!(r.unexpected, vec![0x10, 0x50, 0x1b, 0x68]);
    assert_eq!(r.probed, vec![0x10, 0x50, 0x1b]);
}

#[test]
fn classification_laws_hold_on_a_mixed_scan() {
    let unbound = [0x10u16, 0x50];
    let bound = [0x1bu16, 0x30];
    let kernel = [0x1bu16, 0x40, 0x50, 0x68];
    let expected = [0x50u16, 0x40, 0x22, 0x30, 0x22];
    let r = reconcile(&expected, &unbound, &bound, &kernel);
    assert_eq!(r.present, vec![0x50, 0x40, 0x30]);
    assert_eq!(r.missing, vec![0x22, 0x22]);
    assert_eq!(r.unexpected, vec![0x10, 0x1b, 0x68]);
    assert_eq!(r.probed, vec![0x50, 0x30, 0x10, 0x1b]);
    for a in &r.present {
        assert!(!r.missing.contains(a));
    }
    for a in &r.unexpected {
        assert!(!expected.contains(a));
    }
    for a in &r.probed {
        assert!(r.present.contains(a) != r.unexpected.contains(a));
    }
}

#[test]
fn bus_node_names_sort_numerically() {
    let names: Vec<String> = ["i2c-10", "tty0", "i2c-9", "i2c-x", "i2c-", "i2c-2", "i2c-02"]
        .iter()
        .map(|s| s.to_string())
        .collect();
    assert_eq!(bus_ids_from_node_names(&names), vec![2, 9, 10]);
}

#[test]
fn no_bus_nodes_gives_empty_list() {
    let names: Vec<String> = vec!["null".to_string(), "tty1".to_string()];
    assert!(bus_ids_from_node_names(&names).is_empty());
    assert!(bus_ids_from_node_names(&[]).is_empty());
}

#[test]
fn bus_node_name_parsing() {
    assert_eq!(parse_bus_node_name("i2c-0"), Some(0));
    assert_eq!(parse_bus_node_name("i2c-4294967295"), Some(4294967295));
    assert_eq!(parse_bus_node_name("i2c-4294967296"), None);
    assert_eq!(parse_bus_node_name("i2c-1a"), None);
    assert_eq!(parse_bus_node_name("spi-1"), None);
}

#[test]
fn sysfs_address_is_four_lowercase_hex_digits() {
    assert_eq!(sysfs_address_suffix(0x1b), "001b");
    assert_eq!(sysfs_address_suffix(0x77), "0077");
    assert_eq!(sysfs_address_suffix(0xabcd), "abcd");
    assert_eq!(sysfs_device_dir(12, 0x50), "/sys/bus/i2c/devices/12-0050");
    assert_eq!(bus_device_path(0), "/dev/i2c-0");
    assert_eq!(bus_device_path(305), "/dev/i2c-305");
}

#[test]
fn fake_scanner_lists_registered_addresses() {
    let scanner = host_with_sysfs(0, &[0x50, 0x1b, 0x07, 0x78]);
    assert_eq!(scanner.scan_sysfs().unwrap(), vec![0x1b, 0x50]);
}

#[test]
fn i2c_address_of_device() {
    let a = DeviceAddress::I2c { bus: 7, address: 0x0a };
    assert_eq!(a.as_i2c_address(), Some(0x0a));
    let u = DeviceAddress::Usb { port: "1-1.2".to_string() };
    assert_eq!(u.as_i2c_address(), None);
}

#[test]
fn sysfs_client_dirs_cover_the_range() {
    let dirs = tux_validation::i2c::sysfs_client_dirs(0);
    assert_eq!(dirs.len(), 112);
    assert_eq!(dirs[0], "/sys/bus/i2c/devices/0-0008");
    assert_eq!(dirs[0x1b - 8], "/sys/bus/i2c/devices/0-001b");
    assert_eq!(dirs[111], "/sys/bus/i2c/devices/0-0077");
}
