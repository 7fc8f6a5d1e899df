use kata_device_provisioner::device::{discover, DeviceState, PciDevice};
use kata_device_provisioner::host::{DriverEntry, HostFacts};
use kata_device_provisioner::keyed::Keyed;
use kata_device_provisioner::mode::{CcMode, PpcieMode};
use kata_device_provisioner::nvidia::Chip;
use kata_device_provisioner::status::{failure_report, listed, probe_due, report, summary};

fn node() -> Vec<DeviceState> {
    let hopper = Some(Chip { name: "GH100", hopper: true });
    discover(&vec![
        PciDevice {
            address: "0000:0a:00.0".to_string(),
            vendor: 0x10de,
            device: 0x2330,
            device_name: "GH100 [H100 SXM5 80GB]".to_string(),
            class: 0x030200,
            driver: String::new(),
            iommu_group: 14,
            numa_node: 0,
            passthrough_capable: true,
            chip: hopper,
            c2c: false,
        },
        PciDevice {
            address: "0000:06:00.0".to_string(),
            vendor: 0x10de,
            device: 0x22a3,
            device_name: "GH100 [NVSwitch]".to_string(),
            class: 0x068000,
            driver: "vfio-pci".to_string(),
            iommu_group: 9,
            numa_node: 1,
            passthrough_capable: true,
            chip: None,
            c2c: false,
        },
        PciDevice {
            address: "0000:01:00.0".to_string(),
            vendor: 0x0086,
            device: 0x0521,
            device_name: "I350 Gigabit Network Connection".to_string(),
            class: 0x020000,
            driver: "igb".to_string(),
            iommu_group: -1,
            numa_node: -1,
            passthrough_capable: true,
            chip: None,
            c2c: false,
        },
    ])
}

#[test]
fn a_line_per_device() {
    assert_eq!(
        report(&node(), false),
        [
            "0000:0a:00.0  0x10de:2330  class=0x030200  nvidia-in-band-cc  chip=GH100  \
             driver=<unbound>  iommu_group=14  numa=0  cc=capable  ppcie=capable  GH100 [H100 \
             SXM5 80GB]",
            "0000:06:00.0  0x10de:22a3  class=0x068000  nvidia-in-band-ppcie  chip=-  \
             driver=vfio-pci  iommu_group=9  numa=1  cc=n/a  ppcie=capable  GH100 [NVSwitch]",
            "0000:01:00.0  0x0086:0521  class=0x020000  out-of-scope  chip=-  driver=igb  \
             iommu_group=-1  numa=-1  cc=n/a  ppcie=n/a  I350 Gigabit Network Connection",
        ]
    );
}

#[test]
fn a_probed_device_shows_its_modes_and_its_labels() {
    let mut states = node();
    states[0].cc_mode = Some(CcMode::DevTools);
    states[0].ppcie_mode = Some(PpcieMode::Off);
    let lines = report(&states, true);
    assert!(lines[0].contains("  cc=devtools  ppcie=off  "), "{}", lines[0]);
    assert_eq!(lines[1], "    would label nvidia.com/cc.mode.state=devtools");
    assert_eq!(lines[2], "    would label nvidia.com/cc.ready.state=true");
    assert!(lines[3].contains("  cc=n/a  ppcie=unreadable  "), "{}", lines[3]);
    assert_eq!(lines.len(), 5);
}

#[test]
fn a_mode_that_could_not_be_read_is_unreadable() {
    let states = node();
    assert!(summary(&states[0], true).contains("  cc=unreadable  ppcie=unreadable  "));
    assert!(summary(&states[2], true).contains("  cc=n/a  ppcie=n/a  "));
}

#[test]
fn devices_out_of_scope_are_listed_only_on_request() {
    assert_eq!(listed(&node(), false).len(), 2);
    assert_eq!(listed(&node(), true).len(), 3);
    assert_eq!(listed(&node(), true)[2].address, "0000:01:00.0");
}

#[test]
fn a_node_with_nothing_to_show_says_so() {
    assert_eq!(
        report(&Vec::new(), true),
        ["no devices to provision (try --all to see what the node has)"]
    );
}

#[test]
fn failures_are_told_by_address() {
    let mut failures = Keyed::new();
    failures.insert("0000:0a:00.0".to_string(), "timed out".to_string());
    failures.insert("0000:06:00.0".to_string(), "no BAR0".to_string());
    assert_eq!(
        failure_report(&failures),
        [
            "0000:0a:00.0: CC mode unreadable: timed out",
            "0000:06:00.0: CC mode unreadable: no BAR0",
        ]
    );
    assert!(failure_report(&Keyed::new()).is_empty());
}

#[test]
fn modes_are_read_only_on_request_and_past_the_host_check() {
    let facts = |held: bool| HostFacts {
        groups_dir: "/sys/kernel/iommu_groups".to_string(),
        iommu_groups: Vec::new(),
        nvidia: Vec::new(),
        nouveau: if held {
            vec![DriverEntry { name: "0000:0a:00.0".to_string(), is_device: true }]
        } else {
            Vec::new()
        },
    };
    assert!(probe_due(&node(), true, &facts(false)).unwrap());
    assert!(!probe_due(&node(), false, &facts(false)).unwrap());
    assert!(!probe_due(&node(), false, &facts(true)).unwrap());
    assert!(!probe_due(&Vec::new(), true, &facts(true)).unwrap());
    assert!(probe_due(&node(), true, &facts(true))
        .unwrap_err()
        .message
        .starts_with("the nouveau driver holds 0000:0a:00.0"));
}
