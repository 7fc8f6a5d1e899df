use kata_device_provisioner::board::Work;
use kata_device_provisioner::device::PciDevice;
use kata_device_provisioner::host::{DriverEntry, HostFacts};
use kata_device_provisioner::idle::{NodePath, Process};
use kata_device_provisioner::mode::{CcMode, Mode, PpcieMode};
use kata_device_provisioner::modules::{
    unpersist, FileAction, MODPROBE, MODULES_LOAD, UDEV_RULES,
};
use kata_device_provisioner::nvidia::{Chip, HandleKind, Reading, Write};
use kata_device_provisioner::refusal::Stop;
use kata_device_provisioner::run::{Action, Bound, Event, Run};
use std::collections::BTreeMap;

/// A node that answers as a real one would.
struct Node {
    devices: Vec<PciDevice>,
    knobs: BTreeMap<String, (CcMode, PpcieMode)>,
    drivers: BTreeMap<String, String>,
    files: BTreeMap<String, String>,
    processes: Vec<(u32, i64)>,
    nvidia: Vec<String>,
    iommu: bool,
    alias: BTreeMap<u16, String>,
    /// The action that fails, where one does.
    fails: Option<Action>,
    /// A device that answers but does not take what is written to it.
    stuck: Option<String>,
}

const H100: (u16, u32) = (0x2330, 0x030200);
const A100: (u16, u32) = (0x20b0, 0x030200);
const NVSWITCH: (u16, u32) = (0x22a3, 0x068000);
const GH200: (u16, u32) = (0x2342, 0x030200);
const NIC: (u16, u32) = (0x1521, 0x020000);

fn node(devices: &[(u16, u32)]) -> Node {
    let pci = |(slot, (device, class)): (usize, &(u16, u32))| PciDevice {
        address: format!("0000:{slot:02x}:00.0"),
        vendor: if *device == NIC.0 { 0x8086 } else { 0x10de },
        device: *device,
        device_name: format!("part {device:04x}"),
        class: *class,
        driver: String::new(),
        iommu_group: slot as i64,
        numa_node: 0,
        passthrough_capable: true,
        chip: match *device {
            0x2330 | 0x2342 => Some(Chip { name: "GH100", hopper: true }),
            _ => None,
        },
        c2c: *device == GH200.0,
    };
    let devices: Vec<_> = devices.iter().enumerate().map(pci).collect();
    let knobs = devices
        .iter()
        .map(|device| (device.address.clone(), (CcMode::Off, PpcieMode::Off)))
        .collect();
    Node {
        devices,
        knobs,
        drivers: BTreeMap::new(),
        files: BTreeMap::new(),
        processes: Vec::new(),
        nvidia: Vec::new(),
        iommu: true,
        alias: BTreeMap::new(),
        fails: None,
        stuck: None,
    }
}

fn path(text: &str) -> NodePath {
    NodePath { parts: text.split('/').map(str::to_string).collect() }
}

impl Node {
    fn reading(&self, address: &str, kind: HandleKind) -> Reading {
        let (cc, ppcie) = self.knobs[address];
        match kind {
            HandleKind::Gpu => Reading::Gpu(cc, Some(ppcie)),
            HandleKind::Switch => Reading::Switch(ppcie),
        }
    }

    fn write(&mut self, address: &str, write: Write) {
        if self.stuck.as_deref() == Some(address) {
            return;
        }
        let (cc, ppcie) = self.knobs[address];
        let after = match write {
            Write::Cc(CcMode::Off) => (CcMode::Off, ppcie),
            Write::Cc(raised) => (raised, PpcieMode::Off),
            Write::Ppcie(PpcieMode::On) => (CcMode::Off, PpcieMode::On),
            Write::Ppcie(PpcieMode::Off) => (cc, PpcieMode::Off),
        };
        self.knobs.insert(address.to_string(), after);
    }

    fn work(&mut self, run: &Run, work: Work) -> Event {
        let device = match work {
            Work::Open { device }
            | Work::Read { device }
            | Work::Write { device, .. }
            | Work::Reset { device }
            | Work::Verify { device } => device,
            Work::Settled | Work::Stopped => unreachable!(),
        };
        let target = run.board().target(device).unwrap();
        match work {
            Work::Read { .. } | Work::Verify { .. } => {
                Event::Read(self.reading(&target.address, target.kind))
            }
            Work::Write { write, .. } => {
                self.write(&target.address, write);
                Event::Done
            }
            _ => Event::Done,
        }
    }

    fn answer(&mut self, run: &Run, action: Action) -> Event {
        if self.fails == Some(action) {
            return Event::Failed;
        }
        match action {
            Action::ReadHost => Event::Host(HostFacts {
                groups_dir: "/sys/kernel/iommu_groups".to_string(),
                iommu_groups: if self.iommu { vec!["1".to_string()] } else { Vec::new() },
                nvidia: self
                    .nvidia
                    .iter()
                    .map(|name| DriverEntry { name: name.clone(), is_device: true })
                    .collect(),
                nouveau: Vec::new(),
            }),
            Action::Enumerate => Event::Devices(std::mem::take(&mut self.devices)),
            Action::Scan { .. } => {
                let process = |(pid, group): &(u32, i64)| Process {
                    name: pid.to_string(),
                    comm: Some("qemu\n".to_string()),
                    targets: vec![path(&format!("dev/vfio/{group}"))],
                };
                Event::Scan(Vec::new(), self.processes.iter().map(process).collect())
            }
            Action::ReadRelease => Event::KernelRelease("6.8.0\n".to_string()),
            Action::FindModule { device } => {
                assert_eq!(*run.alias(), ["lib/modules", "6.8.0", "modules.alias"]);
                let id = run.passthrough()[device].device_id;
                let module = self.alias.get(&id).cloned();
                Event::Module(module.unwrap_or_else(|| "vfio_pci".to_string()))
            }
            Action::FindDriver { .. } => Event::Driver(run.module().unwrap().replace('_', "-")),
            Action::Board(work) => self.work(run, work),
            Action::File { index } => {
                match run.file(index).unwrap() {
                    FileAction::Write { path, contents } => {
                        self.files.insert(path.to_string(), contents.clone());
                    }
                    FileAction::Remove { path } => {
                        self.files.remove(*path);
                    }
                }
                Event::Done
            }
            Action::Bind { device } => {
                let address = run.passthrough()[device].address.clone();
                let driver = run.driver(&address).unwrap().driver.clone();
                if self.drivers.get(&address) == Some(&driver) {
                    return Event::Bound(Bound::Already);
                }
                self.drivers.insert(address, driver);
                Event::Bound(Bound::Now)
            }
            Action::AskDriver { device } => {
                Event::Current(self.drivers.get(&run.states()[device].address).cloned())
            }
            Action::Unbind { device } => {
                let address = &run.states()[device].address;
                assert_eq!(self.drivers.remove(address).unwrap(), run.held());
                Event::Done
            }
            Action::Reread { device } => {
                let state = &run.passthrough()[device];
                let kind =
                    if state.cc_capable() { HandleKind::Gpu } else { HandleKind::Switch };
                Event::Read(self.reading(&state.address, kind))
            }
            _ => Event::Done,
        }
    }

    /// The actions of a run over this node, and the run at its end.
    fn apply(&mut self, mode: Mode) -> (Vec<Action>, Run) {
        let devices: Vec<PciDevice> = std::mem::take(&mut self.devices);
        let keep = devices.iter().map(copy).collect();
        self.devices = devices;
        let mut run = Run::new(
            mode,
            "/sys/bus/pci/devices".to_string(),
            "/proc/sys/kernel/osrelease".to_string(),
            path("dev/vfio"),
        );
        let mut actions = Vec::new();
        loop {
            let action = run.action();
            if matches!(action, Action::Finished | Action::Stopped) {
                break;
            }
            actions.push(action);
            let event = self.answer(&run, action);
            run.step(event);
        }
        self.devices = keep;
        (actions, run)
    }
}

fn copy(device: &PciDevice) -> PciDevice {
    PciDevice {
        address: device.address.clone(),
        device_name: device.device_name.clone(),
        driver: device.driver.clone(),
        ..*device
    }
}

fn touches(action: &Action) -> bool {
    matches!(
        action,
        Action::Board(Work::Write { .. } | Work::Reset { .. })
            | Action::File { .. }
            | Action::Bind { .. }
            | Action::Unbind { .. }
    )
}

fn refusal(run: &Run) -> String {
    match run.stop() {
        Some(Stop::Refused { message }) => message.clone(),
        other => panic!("{other:?}"),
    }
}

#[test]
fn a_hopper_board_goes_into_ppcie() {
    let mut node = node(&[H100, NVSWITCH, NIC]);
    let (actions, run) = node.apply(Mode::Ppcie);
    assert_eq!(run.action(), Action::Finished);
    assert_eq!(
        actions,
        [
            Action::ReadHost,
            Action::Enumerate,
            Action::Scan { device: 0 },
            Action::Scan { device: 1 },
            Action::ReadRelease,
            Action::FindModule { device: 0 },
            Action::LoadModule { device: 0 },
            Action::FindDriver { device: 0 },
            Action::FindModule { device: 1 },
            Action::LoadModule { device: 1 },
            Action::FindDriver { device: 1 },
            Action::Board(Work::Open { device: 0 }),
            Action::Board(Work::Open { device: 1 }),
            Action::Board(Work::Read { device: 0 }),
            Action::Board(Work::Read { device: 1 }),
            Action::Board(Work::Write { device: 0, write: Write::Ppcie(PpcieMode::On) }),
            Action::Board(Work::Write { device: 1, write: Write::Ppcie(PpcieMode::On) }),
            Action::Board(Work::Reset { device: 0 }),
            Action::Board(Work::Reset { device: 1 }),
            Action::Board(Work::Verify { device: 0 }),
            Action::Board(Work::Verify { device: 1 }),
            Action::File { index: 0 },
            Action::File { index: 1 },
            Action::File { index: 2 },
            Action::Bind { device: 0 },
            Action::Bind { device: 1 },
            Action::CheckBound { device: 0 },
            Action::Reopen { device: 0 },
            Action::Reread { device: 0 },
            Action::CheckBound { device: 1 },
            Action::Reopen { device: 1 },
            Action::Reread { device: 1 },
        ]
    );
    assert_eq!(
        *run.said(),
        [
            "0000:00:00.0: set to cc off, ppcie on and reset",
            "0000:01:00.0: set to ppcie on and reset",
            "boot config written for 2 devices",
            "0000:00:00.0: bound to vfio-pci",
            "0000:01:00.0: bound to vfio-pci",
            "node provisioned: mode=ppcie, 2 devices",
        ]
    );
    assert_eq!(node.files[MODULES_LOAD], "vfio\nvfio_iommu_type1\nvfio_pci\n");
    assert_eq!(node.files[MODPROBE], "options vfio-pci ids=10de:22a3,10de:2330\n");
    assert!(!node.drivers.contains_key("0000:02:00.0"), "the NIC is never touched");
}

#[test]
fn a_second_run_changes_nothing() {
    let mut node = node(&[H100, A100, NVSWITCH]);
    let (_, first) = node.apply(Mode::Off);
    assert_eq!(first.action(), Action::Finished);
    let (files, drivers) = (node.files.clone(), node.drivers.clone());
    let (actions, run) = node.apply(Mode::Off);
    assert_eq!(run.action(), Action::Finished);
    assert!(!actions
        .iter()
        .any(|action| matches!(action, Action::Board(Work::Write { .. } | Work::Reset { .. }))));
    assert!(!actions.iter().any(|action| matches!(action, Action::Unbind { .. })));
    // Three devices in scope, two passed through, two with modes.
    assert!(actions.len() <= 2 * 3 + 7 * 2 + 3 * 2 + 6);
    assert_eq!((node.files, node.drivers), (files, drivers));
    assert_eq!(
        *run.said(),
        [
            "0000:01:00.0: no CC support, bind only",
            "0000:00:00.0: already cc off, ppcie off",
            "0000:02:00.0: already ppcie off",
            "boot config written for 2 devices",
            "0000:00:00.0: already bound to vfio-pci",
            "0000:01:00.0: already bound to vfio-pci",
            "node provisioned: mode=off, 2 devices",
        ]
    );
}

#[test]
fn leaving_ppcie_hands_the_switches_back() {
    let mut node = node(&[H100, NVSWITCH]);
    node.apply(Mode::Ppcie);
    let (_, run) = node.apply(Mode::On);
    assert_eq!(run.action(), Action::Finished);
    assert!(run.said().contains(&"0000:01:00.0: released from vfio-pci".to_string()));
    assert!(!node.drivers.contains_key("0000:01:00.0"));
    assert_eq!(node.files[MODPROBE], "options vfio-pci ids=10de:2330\n");
    assert_eq!(node.knobs["0000:00:00.0"], (CcMode::On, PpcieMode::Off));
    assert_eq!(node.knobs["0000:01:00.0"].1, PpcieMode::Off);
}

#[test]
fn each_switch_is_asked_about_once_and_handed_back_where_vfio_has_it() {
    let mut node = node(&[NVSWITCH, H100, NVSWITCH, NIC, NVSWITCH]);
    for (slot, driver) in [(0, "vfio-pci"), (2, "nvidia-nvswitch"), (4, "vfio-pci")] {
        node.drivers.insert(format!("0000:{slot:02x}:00.0"), driver.to_string());
    }
    let (actions, run) = node.apply(Mode::On);
    assert_eq!(run.action(), Action::Finished);
    let asked: Vec<Action> = actions
        .into_iter()
        .filter(|action| matches!(action, Action::AskDriver { .. } | Action::Unbind { .. }))
        .collect();
    assert_eq!(
        asked,
        [
            Action::AskDriver { device: 0 },
            Action::Unbind { device: 0 },
            Action::AskDriver { device: 2 },
            Action::AskDriver { device: 3 },
            Action::Unbind { device: 3 },
        ]
    );
    assert_eq!(node.drivers.get("0000:00:00.0"), None);
    assert_eq!(node.drivers["0000:02:00.0"], "nvidia-nvswitch");
    assert_eq!(node.drivers.get("0000:04:00.0"), None);
}

#[test]
fn a_failed_release_stops_the_run() {
    let mut node = node(&[NVSWITCH, H100, NVSWITCH]);
    node.drivers.insert("0000:00:00.0".to_string(), "vfio-pci".to_string());
    node.fails = Some(Action::Unbind { device: 0 });
    let (actions, run) = node.apply(Mode::On);
    assert_eq!(run.action(), Action::Stopped);
    assert_eq!(actions.last(), Some(&Action::Unbind { device: 0 }));
}

#[test]
fn a_run_ends_within_its_actions() {
    // Both knobs are up, so turning everything off takes two writes.
    let mut node = node(&[H100]);
    node.knobs.insert("0000:00:00.0".to_string(), (CcMode::On, PpcieMode::On));
    let (actions, run) = node.apply(Mode::Off);
    assert_eq!(run.action(), Action::Finished);
    assert_eq!(actions.len(), 20);
    assert!(actions.len() < 3 + 7 + 6 + 7);
}

#[test]
fn a_run_ends_whatever_it_is_told() {
    let told: [fn() -> Event; 6] = [
        || Event::Done,
        || Event::Failed,
        || Event::Bound(Bound::Now),
        || Event::Current(None),
        || Event::Module("vfio_pci".to_string()),
        || Event::Read(Reading::Switch(PpcieMode::On)),
    ];
    for spoiled in 0..40 {
        for event in told {
            let mut node = node(&[H100, A100, NVSWITCH]);
            let mut run = Run::new(
                Mode::On,
                "/sys/bus/pci/devices".to_string(),
                "/proc/sys/kernel/osrelease".to_string(),
                path("dev/vfio"),
            );
            // Three devices in scope, two passed through, two with modes.
            for step in 0..3 * 3 + 7 * 2 + 6 * 2 + 7 {
                let action = run.action();
                if matches!(action, Action::Finished | Action::Stopped) {
                    break;
                }
                let answer = node.answer(&run, action);
                run.step(if step >= spoiled { event() } else { answer });
            }
            assert!(matches!(run.action(), Action::Finished | Action::Stopped));
        }
    }
}

#[test]
fn a_switch_on_its_host_driver_stays_there() {
    let mut node = node(&[H100, NVSWITCH]);
    node.drivers.insert("0000:01:00.0".to_string(), "nvidia-nvswitch".to_string());
    let (actions, run) = node.apply(Mode::On);
    assert_eq!(run.action(), Action::Finished);
    assert!(!actions.iter().any(|action| matches!(action, Action::Unbind { .. })));
    assert_eq!(node.drivers["0000:01:00.0"], "nvidia-nvswitch");
}

#[test]
fn a_node_of_switches_alone_is_only_handed_back() {
    let mut node = node(&[NVSWITCH]);
    node.drivers.insert("0000:00:00.0".to_string(), "vfio-pci".to_string());
    let (_, run) = node.apply(Mode::Off);
    assert_eq!(run.action(), Action::Finished);
    assert_eq!(
        *run.said(),
        [
            "0000:00:00.0: already ppcie off",
            "boot config written for 0 devices",
            "0000:00:00.0: released from vfio-pci",
            "node provisioned: mode=off, 0 devices",
        ]
    );
    assert_eq!(node.files[MODULES_LOAD], "vfio\nvfio_iommu_type1\n");
    assert_eq!(node.files[MODPROBE], "");
}

#[test]
fn a_grace_gpu_is_carried_by_a_rule() {
    let mut node = node(&[GH200, GH200]);
    node.alias.insert(GH200.0, "nvgrace_gpu_vfio_pci".to_string());
    let (_, run) = node.apply(Mode::Off);
    assert_eq!(run.action(), Action::Finished);
    assert!(run.said().contains(
        &"2 through a udev rule, which is what carries driver_override: 0000:00:00.0, \
          0000:01:00.0"
            .to_string()
    ));
    assert_eq!(node.files[MODPROBE], "");
    assert_eq!(node.files[UDEV_RULES].lines().count(), 1);
}

#[test]
fn a_refused_node_is_left_as_it_was() {
    let mut cases = Vec::new();
    let mut off = node(&[H100]);
    off.iommu = false;
    cases.push((off, Mode::On, "IOMMU is off"));
    let mut driven = node(&[H100]);
    driven.nvidia.push("0000:00:00.0".to_string());
    cases.push((driven, Mode::On, "the nvidia driver holds 0000:00:00.0"));
    cases.push((
        node(&[NIC]),
        Mode::On,
        "no devices in scope: this node was selected for provisioning but has none",
    ));
    cases.push((node(&[H100, A100]), Mode::On, "in-band CC support"));
    cases.push((node(&[GH200]), Mode::Ppcie, "from the CPU as well as the GPU"));
    let mut busy = node(&[H100, H100]);
    busy.processes.push((4242, 1));
    cases.push((busy, Mode::On, "0000:01:00.0: in use by pid 4242 (qemu)"));
    cases.push((node(&[H100, GH200]), Mode::Off, "coherently attached over NVLink-C2C"));
    for (mut node, mode, expected) in cases {
        let (actions, run) = node.apply(mode);
        assert_eq!(run.action(), Action::Stopped);
        assert!(refusal(&run).contains(expected), "{}", refusal(&run));
        assert!(!actions.iter().any(touches));
        assert!(node.files.is_empty() && node.drivers.is_empty());
    }
}

#[test]
fn every_device_is_scanned_before_any_module_is_loaded() {
    let mut node = node(&[H100, H100, NVSWITCH]);
    let (actions, _) = node.apply(Mode::On);
    let last_scan =
        actions.iter().rposition(|action| matches!(action, Action::Scan { .. })).unwrap();
    let first_load =
        actions.iter().position(|action| matches!(action, Action::LoadModule { .. })).unwrap();
    assert_eq!(
        actions.iter().filter(|action| matches!(action, Action::Scan { .. })).count(),
        3
    );
    assert!(last_scan < first_load);
}

#[test]
fn a_failure_stops_the_run_where_it_happens() {
    let none = None;
    for (action, expected) in [
        (Action::ReadHost, none),
        (Action::Enumerate, Some("enumerate PCI devices under /sys/bus/pci/devices")),
        (Action::Scan { device: 0 }, none),
        (Action::ReadRelease, Some("read the kernel release from /proc/sys/kernel/osrelease")),
        (Action::FindModule { device: 0 }, Some("0000:00:00.0: find its vfio module")),
        (Action::LoadModule { device: 0 }, Some("0000:00:00.0: load vfio_pci")),
        (
            Action::FindDriver { device: 0 },
            Some("0000:00:00.0: find the driver vfio_pci registers"),
        ),
        (
            Action::Board(Work::Reset { device: 0 }),
            Some("0000:00:00.0: reset to activate on"),
        ),
        (Action::File { index: 1 }, none),
        (Action::Bind { device: 0 }, none),
        (Action::AskDriver { device: 1 }, none),
        (Action::Unbind { device: 1 }, Some("0000:01:00.0: release from vfio-pci")),
        (Action::CheckBound { device: 0 }, none),
        (Action::Reopen { device: 0 }, Some("0000:00:00.0: open to verify")),
        (Action::Reread { device: 0 }, Some("0000:00:00.0: verify mode")),
    ] {
        let mut node = node(&[H100, NVSWITCH]);
        node.drivers.insert("0000:01:00.0".to_string(), "vfio-pci".to_string());
        node.fails = Some(action);
        let (actions, mut run) = node.apply(Mode::On);
        assert_eq!(*actions.last().unwrap(), action);
        match run.stop() {
            Some(Stop::Failed { context }) => assert_eq!(context.as_deref(), expected),
            other => panic!("{other:?}"),
        }
        run.step(Event::Done);
        assert_eq!(run.action(), Action::Stopped);
    }
}

#[test]
fn a_device_that_does_not_take_its_mode_is_found_out() {
    let mut node = node(&[H100]);
    node.stuck = Some("0000:00:00.0".to_string());
    let (actions, run) = node.apply(Mode::On);
    assert_eq!(refusal(&run), "0000:00:00.0: CC mode is off, expected on for on");
    assert!(!actions.iter().any(|action| matches!(action, Action::File { .. })));
}

#[test]
fn uninstall_removes_only_boot_configuration() {
    let mut node = node(&[H100]);
    node.apply(Mode::On);
    for action in unpersist() {
        match action {
            FileAction::Remove { path } => {
                node.files.remove(path);
            }
            FileAction::Write { .. } => unreachable!(),
        }
    }
    assert!(node.files.is_empty());
    assert_eq!(node.drivers["0000:00:00.0"], "vfio-pci");
    assert_eq!(node.knobs["0000:00:00.0"].0, CcMode::On);
}
