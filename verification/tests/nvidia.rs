use kata_device_provisioner::device::{discover, DeviceState, PciDevice};
use kata_device_provisioner::mode::{CcMode, Mode, PpcieMode};
use kata_device_provisioner::nvidia::{
    accepts, cc_chip, handle_for, probe_modes, supports_ppcie, verify, verify_mode, writes_for,
    Chip, HandleKind, Modes, Probe, Reading, Write,
};

const BLACKWELL: Option<PpcieMode> = None;

const MODES: [Mode; 4] = [Mode::Off, Mode::On, Mode::DevTools, Mode::Ppcie];

const HOPPER: Chip = Chip { name: "GH100", hopper: true };

fn state(device: u16, class: u32, chip: Option<Chip>) -> DeviceState {
    let device = PciDevice {
        address: "0000:65:00.0".to_string(),
        vendor: 0x10de,
        device,
        device_name: "a device".to_string(),
        class,
        driver: String::new(),
        iommu_group: -1,
        numa_node: -1,
        passthrough_capable: true,
        chip,
        c2c: false,
    };
    discover(&vec![device]).remove(0)
}

#[test]
fn a_gpu_without_ppcie_only_ever_gets_cc_writes() {
    let cases: [(CcMode, Mode, &[Write]); 6] = [
        (CcMode::Off, Mode::Off, &[]),
        (CcMode::On, Mode::On, &[]),
        (CcMode::Off, Mode::On, &[Write::Cc(CcMode::On)]),
        (CcMode::On, Mode::Off, &[Write::Cc(CcMode::Off)]),
        (CcMode::On, Mode::DevTools, &[Write::Cc(CcMode::DevTools)]),
        // Refused before this point; CC off is what PPCIE means without PPCIE.
        (CcMode::On, Mode::Ppcie, &[Write::Cc(CcMode::Off)]),
    ];
    for (cc, mode, expected) in cases {
        assert_eq!(writes_for(Some(cc), BLACKWELL, mode), expected);
    }
}

#[test]
fn enabling_ppcie_is_a_single_write() {
    for (cc, ppcie) in [
        (CcMode::Off, PpcieMode::Off),
        (CcMode::On, PpcieMode::Off),
        (CcMode::DevTools, PpcieMode::Off),
    ] {
        assert_eq!(
            writes_for(Some(cc), Some(ppcie), Mode::Ppcie),
            [Write::Ppcie(PpcieMode::On)]
        );
    }
}

#[test]
fn enabling_cc_out_of_ppcie_is_a_single_write() {
    for (mode, target) in [(Mode::On, CcMode::On), (Mode::DevTools, CcMode::DevTools)] {
        assert_eq!(
            writes_for(Some(CcMode::Off), Some(PpcieMode::On), mode),
            [Write::Cc(target)]
        );
    }
}

#[test]
fn turning_everything_off_clears_ppcie_first() {
    assert_eq!(
        writes_for(Some(CcMode::On), Some(PpcieMode::On), Mode::Off),
        [Write::Ppcie(PpcieMode::Off), Write::Cc(CcMode::Off)]
    );
    assert_eq!(
        writes_for(Some(CcMode::Off), Some(PpcieMode::On), Mode::Off),
        [Write::Ppcie(PpcieMode::Off)]
    );
}

#[test]
fn a_device_already_in_the_mode_is_left_alone() {
    for (cc, ppcie, mode) in [
        (CcMode::Off, PpcieMode::On, Mode::Ppcie),
        (CcMode::On, PpcieMode::Off, Mode::On),
        (CcMode::Off, PpcieMode::Off, Mode::Off),
    ] {
        assert!(writes_for(Some(cc), Some(ppcie), mode).is_empty());
    }
}

#[test]
fn a_switch_leaving_ppcie_gets_one_ppcie_write() {
    for mode in [Mode::Off, Mode::On, Mode::DevTools] {
        assert_eq!(
            writes_for(None, Some(PpcieMode::On), mode),
            [Write::Ppcie(PpcieMode::Off)]
        );
    }
}

#[test]
fn a_switch_already_in_the_boards_mode_is_left_alone() {
    assert!(writes_for(None, Some(PpcieMode::On), Mode::Ppcie).is_empty());
    assert!(writes_for(None, Some(PpcieMode::Off), Mode::Off).is_empty());
}

/// What the firmware does with a write: raising a knob clears the other.
fn written(modes: Modes, write: Write) -> Modes {
    let mut after = modes;
    match write {
        Write::Cc(cc) => {
            after.cc = Some(cc);
            if cc != CcMode::Off && modes.ppcie.is_some() {
                after.ppcie = Some(PpcieMode::Off);
            }
        }
        Write::Ppcie(ppcie) => {
            after.ppcie = Some(ppcie);
            if ppcie == PpcieMode::On && modes.cc.is_some() {
                after.cc = Some(CcMode::Off);
            }
        }
    }
    after
}

#[test]
fn the_writes_reach_the_mode_from_everywhere() {
    let ccs = [None, Some(CcMode::Off), Some(CcMode::On), Some(CcMode::DevTools)];
    let ppcies = [None, Some(PpcieMode::Off), Some(PpcieMode::On)];
    for mode in MODES {
        for cc in ccs {
            for ppcie in ppcies {
                let writes = writes_for(cc, ppcie, mode);
                let mut modes = Modes { cc, ppcie };
                for write in &writes {
                    modes = written(modes, *write);
                }
                verify("a", modes, mode).unwrap();
                assert!(writes_for(modes.cc, modes.ppcie, mode).is_empty());
                let both = ppcie == Some(PpcieMode::On) && cc.is_some_and(|cc| cc != CcMode::Off);
                assert_eq!(writes.len() == 2, mode == Mode::Off && both);
            }
        }
    }
}

#[test]
fn no_shorter_plan_reaches_the_mode() {
    let every = [
        Write::Cc(CcMode::Off),
        Write::Cc(CcMode::On),
        Write::Cc(CcMode::DevTools),
        Write::Ppcie(PpcieMode::Off),
        Write::Ppcie(PpcieMode::On),
    ];
    let ccs = [None, Some(CcMode::Off), Some(CcMode::On), Some(CcMode::DevTools)];
    let ppcies = [None, Some(PpcieMode::Off), Some(PpcieMode::On)];
    for mode in MODES {
        for cc in ccs {
            for ppcie in ppcies {
                let modes = Modes { cc, ppcie };
                let writes = writes_for(cc, ppcie, mode);
                if !writes.is_empty() {
                    assert!(verify("a", modes, mode).is_err());
                }
                if writes.len() == 2 {
                    for write in every {
                        assert!(verify("a", written(modes, write), mode).is_err());
                    }
                }
            }
        }
    }
}

#[test]
fn a_knob_in_the_wrong_place_is_told() {
    let both = |cc, ppcie| Modes { cc: Some(cc), ppcie: Some(ppcie) };
    assert_eq!(
        verify("0000:65:00.0", both(CcMode::Off, PpcieMode::Off), Mode::DevTools)
            .unwrap_err()
            .message,
        "0000:65:00.0: CC mode is off, expected devtools for devtools"
    );
    assert_eq!(
        verify("0000:65:00.0", both(CcMode::Off, PpcieMode::Off), Mode::Ppcie)
            .unwrap_err()
            .message,
        "0000:65:00.0: PPCIE mode is off, expected on for ppcie"
    );
    verify("0000:65:00.0", Modes { cc: None, ppcie: None }, Mode::On).unwrap();
}

#[test]
fn a_device_without_modes_needs_no_verifying() {
    let wrong = Modes { cc: Some(CcMode::Off), ppcie: None };
    verify_mode(&state(0x20b0, 0x030200, None), wrong, Mode::On).unwrap();
    assert!(verify_mode(&state(0x2330, 0x030200, Some(HOPPER)), wrong, Mode::On).is_err());
}

#[test]
fn devices_are_opened_by_what_they_are() {
    assert_eq!(handle_for(&state(0x2330, 0x030200, Some(HOPPER))), Some(HandleKind::Gpu));
    assert_eq!(handle_for(&state(0x20b0, 0x030200, None)), None);
    assert_eq!(handle_for(&state(0x22a3, 0x068000, None)), Some(HandleKind::Switch));
    assert_eq!(handle_for(&state(0x25b2, 0x030000, Some(HOPPER))), None);
}

#[test]
fn a_switch_takes_no_cc_mode() {
    assert_eq!(
        accepts(HandleKind::Switch, Write::Cc(CcMode::On)).unwrap_err().message,
        "an NVSwitch has no CC mode to set to on"
    );
    accepts(HandleKind::Switch, Write::Ppcie(PpcieMode::On)).unwrap();
    accepts(HandleKind::Gpu, Write::Cc(CcMode::On)).unwrap();
    accepts(HandleKind::Gpu, Write::Ppcie(PpcieMode::On)).unwrap();
}

#[test]
fn a_reading_holds_the_knobs_of_its_kind() {
    let gpu = Reading::Gpu(CcMode::On, None);
    assert_eq!(gpu.current(), Modes { cc: Some(CcMode::On), ppcie: None });
    assert!(gpu.comes_from(HandleKind::Gpu) && !gpu.comes_from(HandleKind::Switch));
    let switch = Reading::Switch(PpcieMode::On);
    assert_eq!(switch.current(), Modes { cc: None, ppcie: Some(PpcieMode::On) });
    assert!(switch.comes_from(HandleKind::Switch) && !switch.comes_from(HandleKind::Gpu));
}

#[test]
fn probing_fills_in_what_was_read_and_tells_what_was_not() {
    let mut states = vec![
        state(0x2330, 0x030200, Some(HOPPER)),
        state(0x2330, 0x030200, Some(HOPPER)),
        state(0x20b0, 0x030200, None),
    ];
    states[1].address = "0000:66:00.0".to_string();
    states[2].cc_mode = Some(CcMode::On);
    let probes = vec![
        Probe::Read(Reading::Gpu(CcMode::On, Some(PpcieMode::Off))),
        Probe::Failed { error: "no answer".to_string() },
        Probe::Unopened,
    ];
    let failures = probe_modes(&mut states, &probes);
    assert_eq!(states[0].cc_mode, Some(CcMode::On));
    assert_eq!(states[0].ppcie_mode, Some(PpcieMode::Off));
    assert_eq!(states[1].cc_mode, None);
    assert_eq!(states[2].cc_mode, None);
    assert_eq!(failures.len(), 1);
    assert_eq!(failures.get("0000:66:00.0").unwrap(), "no answer");
    assert!(failures.get("0000:65:00.0").is_none());
}

#[test]
fn a_reading_of_another_kind_of_device_is_a_failed_probe() {
    let gpu = || state(0x2330, 0x030200, Some(HOPPER));
    let switch = || state(0x22a3, 0x068000, None);
    for (mut states, probe, error) in [
        (
            vec![gpu()],
            Probe::Read(Reading::Switch(PpcieMode::On)),
            "the reading is that of another kind of device",
        ),
        (
            vec![switch()],
            Probe::Read(Reading::Gpu(CcMode::On, None)),
            "the reading is that of another kind of device",
        ),
        (vec![gpu()], Probe::Unopened, "the device was not opened"),
    ] {
        let failures = probe_modes(&mut states, &vec![probe]);
        assert_eq!(failures.get("0000:65:00.0").unwrap(), error);
        assert_eq!((states[0].cc_mode, states[0].ppcie_mode), (None, None));
    }
    let mut states = vec![switch()];
    let failures =
        probe_modes(&mut states, &vec![Probe::Read(Reading::Switch(PpcieMode::On))]);
    assert_eq!(failures.len(), 0);
    assert_eq!((states[0].cc_mode, states[0].ppcie_mode), (None, Some(PpcieMode::On)));
}

#[test]
fn a_chip_has_a_name_and_a_generation() {
    assert_eq!(cc_chip(Some(HOPPER)), Some("GH100"));
    assert_eq!(cc_chip(None), None);
    assert!(supports_ppcie(Some(HOPPER)));
    assert!(!supports_ppcie(Some(Chip { name: "GB100", hopper: false })));
    assert!(!supports_ppcie(None));
}
