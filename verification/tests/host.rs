use kata_device_provisioner::host::{
    check, check_probeable, devices_held_by, DriverEntry, HostFacts,
};

fn link(name: &str) -> DriverEntry {
    DriverEntry { name: name.to_string(), is_device: true }
}

fn module() -> DriverEntry {
    DriverEntry { name: "module".to_string(), is_device: false }
}

fn healthy_node() -> HostFacts {
    HostFacts {
        groups_dir: "/sys/kernel/iommu_groups".to_string(),
        iommu_groups: vec!["14".to_string()],
        nvidia: Vec::new(),
        nouveau: Vec::new(),
    }
}

#[test]
fn accepts_a_healthy_node() {
    check(&healthy_node()).unwrap();
}

#[test]
fn rejects_a_node_with_the_iommu_off() {
    let mut node = healthy_node();
    node.iommu_groups = Vec::new();
    let err = check(&node).unwrap_err().message;
    assert!(err.contains("IOMMU is off"), "{err}");
    assert_eq!(
        err,
        "no IOMMU groups under /sys/kernel/iommu_groups: the IOMMU is off. Enable it on the \
         kernel command line (intel_iommu=on / amd_iommu=on) and reboot"
    );
}

#[test]
fn accepts_a_node_with_no_vfio_driver_registered_at_all() {
    check(&healthy_node()).unwrap();
}

#[test]
fn rejects_a_node_whose_host_gpu_driver_holds_a_device() {
    for driver in ["nvidia", "nouveau"] {
        let mut node = healthy_node();
        let entries = vec![link("0000:0a:00.0"), module()];
        if driver == "nvidia" {
            node.nvidia = entries;
        } else {
            node.nouveau = entries;
        }
        let err = check(&node).unwrap_err().message;
        assert!(err.contains(driver), "{err}");
        assert!(err.contains("0000:0a:00.0"), "{err}");
    }
}

#[test]
fn a_driver_in_the_way_is_told_with_all_it_holds() {
    let mut node = healthy_node();
    node.nvidia = vec![link("0000:65:00.0"), module(), link("0000:0a:00.0")];
    node.nouveau = vec![link("0000:01:00.0")];
    let expected = "the nvidia driver holds 0000:0a:00.0, 0000:65:00.0: a passthrough node must \
                    not run a host GPU driver. Blacklist nvidia in /etc/modprobe.d, rebuild the \
                    initramfs, and reboot";
    assert_eq!(check(&node).unwrap_err().message, expected);
    assert_eq!(check_probeable(&node).unwrap_err().message, expected);
}

#[test]
fn tolerates_a_loaded_host_driver_that_holds_nothing() {
    let mut node = healthy_node();
    node.nvidia = vec![module()];
    check(&node).unwrap();
    let mut node = healthy_node();
    node.nouveau = vec![module()];
    check(&node).unwrap();
}

#[test]
fn does_not_take_a_drivers_module_link_for_a_device() {
    let mut node = healthy_node();
    node.nouveau = vec![module()];
    assert!(devices_held_by(&node.nouveau).is_empty());
    check(&node).unwrap();
}

#[test]
fn probing_does_not_need_an_iommu() {
    let mut node = healthy_node();
    node.iommu_groups = Vec::new();
    check_probeable(&node).unwrap();
    assert!(check(&node).is_err());
}
