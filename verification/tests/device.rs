use kata_device_provisioner::device::{
    devices, discover, in_scope, row_for, DeviceState, PciDevice, Provisioning,
};
use kata_device_provisioner::mode::{CcMode, PpcieMode};
use kata_device_provisioner::nvidia::Chip;

fn chip(device: u16) -> Option<Chip> {
    match device {
        0x2330 | 0x2342 => Some(Chip { name: "GH100", hopper: true }),
        0x2901 | 0x2941 => Some(Chip { name: "GB100", hopper: false }),
        _ => None,
    }
}

/// Classes of display, network and other-bridge devices can be passed through.
fn pci(address: &str, vendor: u16, device: u16, class: u32, driver: Option<&str>) -> PciDevice {
    PciDevice {
        address: address.to_string(),
        vendor,
        device,
        device_name: "a device".to_string(),
        class,
        driver: driver.unwrap_or("").to_string(),
        iommu_group: -1,
        numa_node: 0,
        passthrough_capable: matches!(class >> 16, 0x02 | 0x03) || class >> 8 == 0x0680,
        chip: chip(device),
        c2c: matches!(device, 0x2342 | 0x2941),
    }
}

fn one(vendor: u16, device: u16, class: u32) -> DeviceState {
    discover(&vec![pci("0000:65:00.0", vendor, device, class, None)]).remove(0)
}

#[test]
fn table_decides_what_is_in_scope() {
    let cc = Some(Provisioning::NvidiaInBandCc);
    let ppcie = Some(Provisioning::NvidiaInBandPpcie);
    for (vendor, device, class, provisioning, name) in [
        (0x10de, 0x2330, 0x030200, cc, Some("GH100")),
        (0x10de, 0x2901, 0x030200, cc, Some("GB100")),
        (0x10de, 0x20b0, 0x030200, cc, None),
        (0x10de, 0x22a3, 0x068000, ppcie, None),
        (0x10de, 0x25b2, 0x030000, None, None),
        (0x1002, 0x74a1, 0x030200, None, None),
        (0x8086, 0x1521, 0x020000, None, None),
    ] {
        let state = one(vendor, device, class);
        assert_eq!(state.provisioning(), provisioning);
        assert_eq!(state.cc_chip, name);
        assert!(state.cc_mode.is_none(), "discover must not touch BAR0");
    }
}

#[test]
fn publishes_cc_labels_for_a_probed_gpu() {
    for (mode, mode_state, ready_state) in [
        (CcMode::On, "on", "true"),
        (CcMode::DevTools, "devtools", "true"),
        (CcMode::Off, "off", "false"),
    ] {
        let mut state = one(0x10de, 0x2330, 0x030200);
        state.cc_mode = Some(mode);
        assert_eq!(
            state.cc_label_values(),
            [
                ("nvidia.com/cc.mode.state", mode_state.to_string()),
                ("nvidia.com/cc.ready.state", ready_state.to_string()),
            ]
        );
    }
}

#[test]
fn a_ppcie_gpu_is_labelled_ppcie_and_ready() {
    let mut state = one(0x10de, 0x2330, 0x030200);
    state.cc_mode = Some(CcMode::Off);
    state.ppcie_mode = Some(PpcieMode::On);
    assert_eq!(
        state.cc_label_values(),
        [
            ("nvidia.com/cc.mode.state", "ppcie".to_string()),
            ("nvidia.com/cc.ready.state", "true".to_string()),
        ]
    );
}

#[test]
fn a_gpu_with_ppcie_off_is_labelled_by_its_cc_mode() {
    let mut state = one(0x10de, 0x2330, 0x030200);
    state.cc_mode = Some(CcMode::On);
    state.ppcie_mode = Some(PpcieMode::Off);
    assert_eq!(state.cc_label_values()[0].1, "on");
}

#[test]
fn publishes_no_cc_labels_without_a_known_mode() {
    assert!(one(0x10de, 0x2330, 0x030200).cc_label_values().is_empty());
    assert!(one(0x10de, 0x22a3, 0x068000).cc_label_values().is_empty());
}

#[test]
fn a_switch_has_no_cc_labels_even_under_ppcie() {
    let mut state = one(0x10de, 0x22a3, 0x068000);
    state.ppcie_mode = Some(PpcieMode::On);
    assert!(state.cc_label_values().is_empty());
}

#[test]
fn devices_that_cannot_be_passed_through_are_not_reported() {
    for (vendor, device, class) in [
        (0x10de, 0x22a4, 0x060400),
        (0x10de, 0x1af1, 0x060000),
        (0x10de, 0x22ba, 0x040300),
    ] {
        assert!(discover(&vec![pci("0000:64:00.0", vendor, device, class, None)]).is_empty());
    }
}

#[test]
fn reports_current_driver() {
    for driver in [Some("vfio-pci"), Some("nvidia"), None] {
        let states = discover(&vec![pci("0000:65:00.0", 0x10de, 0x2330, 0x030200, driver)]);
        assert_eq!(states[0].driver.as_deref(), driver);
    }
}

/// As the enumeration has it: sorted by address.
fn hopper_node() -> Vec<PciDevice> {
    vec![
        pci("0000:01:00.0", 0x8086, 0x1521, 0x020000, Some("igb")),
        pci("0000:06:00.0", 0x10de, 0x22a3, 0x068000, None),
        pci("0000:0a:00.0", 0x10de, 0x2330, 0x030200, Some("vfio-pci")),
        pci("0000:64:00.0", 0x10de, 0x22a4, 0x060400, Some("pcieport")),
        pci("0000:65:00.0", 0x10de, 0x2330, 0x030200, Some("vfio-pci")),
    ]
}

#[test]
fn discovers_in_pci_address_order() {
    let states = in_scope(&discover(&hopper_node()));
    let addresses: Vec<_> = states.iter().map(|state| state.address.as_str()).collect();
    assert_eq!(addresses, ["0000:06:00.0", "0000:0a:00.0", "0000:65:00.0"]);
}

#[test]
fn out_of_scope_devices_are_reported_but_untagged() {
    let states = discover(&hopper_node());
    let nic = states
        .iter()
        .find(|state| state.address == "0000:01:00.0")
        .expect("a passthrough-capable NIC is still reported");
    assert!(!nic.in_scope());
}

#[test]
fn empty_node_discovers_nothing() {
    assert!(discover(&Vec::new()).is_empty());
}

#[test]
fn a_row_goes_by_the_upper_two_bytes_of_the_class() {
    assert!(row_for(0x10de, 0x030200).is_some());
    assert!(row_for(0x10de, 0x0302ff).is_some());
    // What is above the class code does not count.
    assert!(row_for(0x10de, 0xff030200).is_some());
    assert!(row_for(0x10de, 0x030300).is_none());
    assert!(row_for(0x10df, 0x030200).is_none());
    assert_eq!(row_for(0x10de, 0x068000).unwrap().provisioning, Provisioning::NvidiaInBandPpcie);
}

#[test]
fn no_two_rows_have_the_same_identity() {
    let table = devices();
    assert_eq!(table.len(), 2);
    for (i, a) in table.iter().enumerate() {
        for (j, b) in table.iter().enumerate() {
            assert_eq!((a.vendor, a.class_prefix) == (b.vendor, b.class_prefix), i == j);
        }
    }
}

#[test]
fn capabilities_go_by_kind_and_chip() {
    let hopper = one(0x10de, 0x2330, 0x030200);
    assert!(hopper.cc_capable() && hopper.carries_ppcie());
    let blackwell = one(0x10de, 0x2901, 0x030200);
    assert!(blackwell.cc_capable() && !blackwell.carries_ppcie());
    let ampere = one(0x10de, 0x20b0, 0x030200);
    assert!(!ampere.cc_capable() && !ampere.carries_ppcie());
    let switch = one(0x10de, 0x22a3, 0x068000);
    assert!(!switch.cc_capable() && switch.carries_ppcie());
    let nic = one(0x8086, 0x1521, 0x020000);
    assert!(!nic.cc_capable() && !nic.carries_ppcie());
}
