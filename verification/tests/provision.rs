use kata_device_provisioner::device::{discover, in_scope, DeviceState, PciDevice};
use kata_device_provisioner::keyed::Keyed;
use kata_device_provisioner::mode::Mode;
use kata_device_provisioner::nvidia::Chip;
use kata_device_provisioner::provision::{
    claims, is_kept, is_vfio_driver, passthrough_set, target_of, verify_capable,
    verify_variant_available, VfioDriver, UNINSTALLED,
};

const H100: (u16, u32) = (0x2330, 0x030200);
const B200: (u16, u32) = (0x2901, 0x030200);
const A100: (u16, u32) = (0x20b0, 0x030200);
const NVSWITCH: (u16, u32) = (0x22a3, 0x068000);
const GH200: (u16, u32) = (0x2342, 0x030200);
const GB200: (u16, u32) = (0x2941, 0x030200);

const MODES: [Mode; 4] = [Mode::Off, Mode::On, Mode::DevTools, Mode::Ppcie];

fn node(devices: &[(u16, u32)]) -> Vec<DeviceState> {
    let pci = |(slot, (device, class)): (usize, &(u16, u32))| PciDevice {
        address: format!("0000:{slot:02x}:00.0"),
        vendor: 0x10de,
        device: *device,
        device_name: format!("part {device:04x}"),
        class: *class,
        driver: String::new(),
        iommu_group: 1,
        numa_node: 0,
        passthrough_capable: true,
        chip: match *device {
            0x2330 | 0x2342 => Some(Chip { name: "GH100", hopper: true }),
            0x2901 | 0x2941 => Some(Chip { name: "GB100", hopper: false }),
            _ => None,
        },
        c2c: matches!(*device, 0x2342 | 0x2941),
    };
    in_scope(&discover(&devices.iter().enumerate().map(pci).collect()))
}

#[test]
fn passes_the_switches_through_only_under_ppcie() {
    let board: Vec<_> = [H100; 8].into_iter().chain([NVSWITCH; 4]).collect();
    let states = node(&board);
    for (mode, expected) in
        [(Mode::Off, 8), (Mode::On, 8), (Mode::DevTools, 8), (Mode::Ppcie, 12)]
    {
        assert_eq!(states.len(), 12);
        assert_eq!(passthrough_set(&states, mode).len(), expected);
    }
}

/// A switch on the host driver is a node never provisioned for PPCIE, so
/// taking it would be stealing hardware this tool never claimed.
#[test]
fn releases_what_vfio_holds_for_a_mode_that_does_not_pass_it_through() {
    let states = node(&[NVSWITCH]);
    for (mode, bound, released) in [
        (Mode::Off, Some("vfio-pci"), true),
        (Mode::Ppcie, Some("vfio-pci"), false),
        (Mode::Off, Some("nvidia-nvswitch"), false),
        (Mode::Off, None, false),
    ] {
        let kept = is_kept(&passthrough_set(&states, mode), &states[0]);
        let held = bound.is_some_and(is_vfio_driver);
        assert_eq!(!kept && held, released);
    }
}

#[test]
fn a_variant_driver_is_a_vfio_driver() {
    assert!(is_vfio_driver("nvgrace_gpu_vfio_pci"));
    assert!(is_vfio_driver("mlx5-vfio-pci"));
    assert!(!is_vfio_driver("nvidia"));
    assert!(!is_vfio_driver("vfi-o"));
}

#[test]
fn a_target_names_every_knob_the_device_has() {
    for (device, mode, expected) in [
        (H100, Mode::Ppcie, "cc off, ppcie on"),
        (H100, Mode::Off, "cc off, ppcie off"),
        (H100, Mode::On, "cc on, ppcie off"),
        (NVSWITCH, Mode::Ppcie, "ppcie on"),
        (B200, Mode::On, "cc on"),
    ] {
        let states = node(&[device]);
        assert_eq!(target_of(&states, &states[0].address, mode), expected);
    }
}

#[test]
fn the_target_of_an_unknown_device_is_the_cc_mode() {
    assert_eq!(target_of(&node(&[NVSWITCH]), "0000:ff:00.0", Mode::DevTools), "cc devtools");
}

#[test]
fn refuses_a_grace_gpu_the_kernel_has_no_driver_for() {
    for (device, module, expected) in [
        (GH200, "nvgrace_gpu_vfio_pci", true),
        (GB200, "nvgrace-gpu-vfio-pci", true),
        (H100, "vfio-pci", true),
        (NVSWITCH, "vfio_pci", true),
        (GH200, "vfio-pci", false),
        (GB200, "vfio_pci", false),
    ] {
        let states = node(&[device]);
        assert_eq!(verify_variant_available(&states[0], module).is_ok(), expected);
    }
}

#[test]
fn a_missing_variant_is_told_with_what_the_kernel_offers() {
    assert_eq!(
        verify_variant_available(&node(&[GH200])[0], "vfio-pci").unwrap_err().message,
        "0000:00:00.0 (part 2342) is coherently attached over NVLink-C2C and needs a vfio driver \
         that can map its memory, but this kernel's module alias table offers only vfio-pci, \
         which cannot. The node needs a kernel whose nvgrace-gpu vfio driver claims this device"
    );
}

#[test]
fn accepts_a_node_whose_gpus_can_all_do_cc() {
    let cases: [&[(u16, u32)]; 4] =
        [&[H100, H100, NVSWITCH], &[B200, B200, NVSWITCH], &[H100], &[H100, B200]];
    for devices in cases {
        verify_capable(&node(devices), Mode::On).unwrap();
    }
}

#[test]
fn refuses_a_mixed_node_before_touching_the_gpus_that_could() {
    for mode in [Mode::On, Mode::DevTools, Mode::Ppcie] {
        let err = verify_capable(&node(&[H100, A100]), mode).unwrap_err().message;
        assert!(err.contains("0000:01:00.0"), "{err}");
        assert!(!err.contains("0000:00:00.0"), "the H100 is not the problem: {err}");
    }
}

#[test]
fn an_incapable_node_is_told_with_the_gpus_that_lack() {
    assert_eq!(
        verify_capable(&node(&[A100, H100, NVSWITCH, A100]), Mode::On).unwrap_err().message,
        "mode on needs in-band CC support, which 2 of this node's 4 devices lack: 0000:00:00.0 \
         (part 20b0), 0000:03:00.0 (part 20b0). Provision this node with --mode off, or leave it \
         out of the run's node selection"
    );
}

#[test]
fn mode_off_provisions_a_mixed_node() {
    verify_capable(&node(&[H100, A100]), Mode::Off).unwrap();
}

#[test]
fn an_nvswitch_is_not_a_gpu_that_failed_to_support_cc() {
    verify_capable(&node(&[NVSWITCH]), Mode::On).unwrap();
}

#[test]
fn accepts_a_hopper_board_for_ppcie() {
    verify_capable(&node(&[H100, H100, NVSWITCH]), Mode::Ppcie).unwrap();
    verify_capable(&node(&[H100]), Mode::Ppcie).unwrap();
}

#[test]
fn refuses_a_blackwell_board_for_ppcie() {
    let cases: [&[(u16, u32)]; 2] = [&[B200, B200, NVSWITCH], &[H100, B200]];
    for devices in cases {
        let err = verify_capable(&node(devices), Mode::Ppcie).unwrap_err().message;
        assert!(err.contains("Hopper-only"), "{err}");
    }
}

#[test]
fn a_blackwell_board_still_does_per_gpu_cc() {
    verify_capable(&node(&[B200, B200, NVSWITCH]), Mode::On).unwrap();
}

#[test]
fn refuses_to_raise_cc_where_the_cpu_cannot_back_it() {
    for (device, mode, expected) in [
        (GH200, Mode::On, false),
        (GB200, Mode::On, false),
        (GB200, Mode::DevTools, false),
        (GB200, Mode::Off, true),
        (H100, Mode::On, true),
    ] {
        assert_eq!(verify_capable(&node(&[device]), mode).is_ok(), expected);
    }
}

/// A GH200 is of the Hopper family, but its CPU has no part in PPCIE either.
#[test]
fn a_grace_node_is_refused_every_mode_but_off() {
    for mode in MODES {
        assert_eq!(verify_capable(&node(&[GH200]), mode).is_ok(), mode == Mode::Off);
    }
    assert_eq!(
        verify_capable(&node(&[H100, GH200]), Mode::Ppcie).unwrap_err().message,
        "mode ppcie needs confidential computing from the CPU as well as the GPU, and the Grace \
         CPU 1 of this node's devices are attached to has none: 0000:01:00.0 (part 2342). \
         Provision this node with --mode off, or leave it out of the run's node selection"
    );
}

#[test]
fn a_claim_takes_the_module_and_the_driver_of_its_device() {
    let states = node(&[GH200, H100]);
    let mut drivers = Keyed::new();
    let found = |module: &str, driver: &str| VfioDriver {
        module: module.to_string(),
        driver: driver.to_string(),
    };
    drivers.insert("0000:00:00.0".to_string(), found("vfio_pci", "vfio-pci"));
    drivers.insert("0000:01:00.0".to_string(), found("vfio_pci", "vfio-pci"));
    drivers.insert("0000:00:00.0".to_string(), found("nvgrace_gpu_vfio_pci", "nvgrace"));
    let claims = claims(&states, &drivers);
    assert_eq!(claims.len(), 2);
    assert_eq!(claims[0].address, "0000:00:00.0");
    assert_eq!((claims[0].vendor, claims[0].device), (0x10de, 0x2342));
    assert_eq!(claims[0].module, "nvgrace_gpu_vfio_pci");
    assert_eq!(claims[0].driver, "nvgrace");
    assert_eq!(claims[1].module, "vfio_pci");
    assert_eq!(claims[1].driver, "vfio-pci");
}

#[test]
fn uninstalling_says_what_it_left_alone() {
    assert_eq!(
        UNINSTALLED,
        "boot configuration removed; live bindings and CC mode left unchanged"
    );
}
