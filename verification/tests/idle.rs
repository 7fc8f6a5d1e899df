use kata_device_provisioner::device::{discover, DeviceState, PciDevice};
use kata_device_provisioner::idle::{
    comm, holders, vfio_nodes, Holder, NodePath, Process, DEV_VFIO, PROC,
};
use kata_device_provisioner::provision::verify_idle;

fn path(text: &str) -> NodePath {
    NodePath { parts: text.split('/').map(str::to_string).collect() }
}

fn state(iommu_group: i64) -> DeviceState {
    let device = PciDevice {
        address: "0000:65:00.0".to_string(),
        vendor: 0x10de,
        device: 0x2330,
        device_name: "GH100 [H100 SXM5 80GB]".to_string(),
        class: 0x030200,
        driver: "vfio-pci".to_string(),
        iommu_group,
        numa_node: 0,
        passthrough_capable: true,
        chip: None,
        c2c: false,
    };
    discover(&vec![device]).remove(0)
}

fn process(name: &str, comm: &str, nodes: &[&str]) -> Process {
    Process {
        name: name.to_string(),
        comm: Some(format!("{comm}\n")),
        targets: nodes.iter().map(|node| path(&format!("dev/vfio/{node}"))).collect(),
    }
}

fn found(processes: Vec<Process>) -> Vec<Holder> {
    holders(&path("dev/vfio"), &state(14), &vec!["vfio0".to_string()], &processes)
}

#[test]
fn an_untouched_device_has_no_holders() {
    assert!(found(Vec::new()).is_empty());
}

#[test]
fn finds_a_vm_holding_the_device() {
    for node in ["14", "devices/vfio0"] {
        let holders = found(vec![process("4242", "qemu-system-x86", &[node])]);
        assert_eq!(holders.len(), 1, "{holders:?}");
        assert_eq!(holders[0].pid, 4242);
        assert_eq!(holders[0].comm, "qemu-system-x86");
    }
}

#[test]
fn ignores_fds_on_other_devices() {
    assert!(found(vec![
        process("4242", "qemu-system-x86", &["devices/vfio9"]),
        process("4243", "cloud-hypervisor", &["77"]),
    ])
    .is_empty());
}

#[test]
fn reports_every_holder() {
    let holders = found(vec![
        process("4242", "qemu-system-x86", &["devices/vfio0"]),
        process("17", "cloud-hypervisor", &["14"]),
    ]);
    let pids: Vec<_> = holders.iter().map(|holder| holder.pid).collect();
    assert_eq!(pids, [17, 4242]);
}

#[test]
fn survives_a_process_that_exits_mid_scan() {
    assert!(found(vec![process("4242", "qemu-system-x86", &[])]).is_empty());
}

#[test]
fn ignores_non_numeric_proc_entries() {
    assert!(found(vec![process("self", "cat", &["14"])]).is_empty());
    assert!(found(vec![process("", "cat", &["14"])]).is_empty());
    assert!(found(vec![process("-1", "cat", &["14"])]).is_empty());
    assert!(found(vec![process("4294967296", "cat", &["14"])]).is_empty());
    assert_eq!(found(vec![process("4294967295", "cat", &["14"])])[0].pid, u32::MAX);
}

#[test]
fn a_holder_is_told_once_per_node() {
    let holders =
        found(vec![process("9", "qemu", &["devices/vfio0", "14", "devices/vfio0", "14"])]);
    let nodes: Vec<_> = holders.iter().map(|holder| holder.node.clone()).collect();
    assert_eq!(nodes, [path("dev/vfio/14"), path("dev/vfio/devices/vfio0")]);
}

#[test]
fn a_device_without_a_group_is_held_through_its_cdevs_alone() {
    let cdevs = vec!["vfio0".to_string(), "vfio1".to_string()];
    assert_eq!(
        vfio_nodes(&path("dev/vfio"), &state(-1), &cdevs),
        [path("dev/vfio/devices/vfio0"), path("dev/vfio/devices/vfio1")]
    );
    assert_eq!(vfio_nodes(&path("dev/vfio"), &state(0), &Vec::new()), [path("dev/vfio/0")]);
}

#[test]
fn an_unreadable_comm_is_a_question_mark() {
    assert_eq!(comm(&None), "?");
    assert_eq!(comm(&Some(" \tqemu kvm\n".to_string())), "qemu kvm");
}

#[test]
fn a_held_device_is_refused_by_its_first_holder() {
    let holders = found(vec![
        process("4242", "qemu-system-x86", &["devices/vfio0"]),
        process("17", "cloud-hypervisor", &["14"]),
    ]);
    assert_eq!(
        verify_idle(&state(14), &holders).unwrap_err().message,
        "0000:65:00.0: in use by pid 17 (cloud-hypervisor): refusing to reset a device a VM may \
         be running on"
    );
    verify_idle(&state(14), &Vec::new()).unwrap();
}

#[test]
fn the_usual_places() {
    assert_eq!(PROC, "/proc");
    assert_eq!(DEV_VFIO, "/dev/vfio");
}
