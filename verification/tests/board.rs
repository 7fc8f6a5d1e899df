use kata_device_provisioner::board::{ModeRun, Report, Work};
use kata_device_provisioner::device::{discover, DeviceState, PciDevice};
use kata_device_provisioner::mode::{CcMode, Mode, PpcieMode};
use kata_device_provisioner::nvidia::{apply, Chip, HandleKind, Reading, Transition, Write};
use kata_device_provisioner::refusal::Stop;

/// An H100, an A100 and an NVSwitch.
fn board() -> Vec<DeviceState> {
    let device = |slot: u16, device: u16, class: u32, chip: Option<Chip>| PciDevice {
        address: format!("0000:{slot:02x}:00.0"),
        vendor: 0x10de,
        device,
        device_name: "a device".to_string(),
        class,
        driver: String::new(),
        iommu_group: 1,
        numa_node: 0,
        passthrough_capable: true,
        chip,
        c2c: false,
    };
    discover(&vec![
        device(0, 0x2330, 0x030200, Some(Chip { name: "GH100", hopper: true })),
        device(1, 0x20b0, 0x030200, None),
        device(2, 0x22a3, 0x068000, None),
    ])
}

fn gpu(cc: CcMode, ppcie: PpcieMode) -> Report {
    Report::Read(Reading::Gpu(cc, Some(ppcie)))
}

fn switch(ppcie: PpcieMode) -> Report {
    Report::Read(Reading::Switch(ppcie))
}

/// The work that was done, and how the run stands after it.
fn run(mode: Mode, reports: &[Report]) -> (Vec<Work>, ModeRun) {
    let mut run = apply(&board(), mode);
    let mut works = Vec::new();
    for report in reports {
        works.push(run.work());
        run.step(*report);
    }
    (works, run)
}

#[test]
fn a_board_is_opened_and_read_before_it_is_written_and_written_before_it_is_reset() {
    let (works, run) = run(
        Mode::Ppcie,
        &[
            Report::Done,
            Report::Done,
            gpu(CcMode::On, PpcieMode::Off),
            switch(PpcieMode::Off),
            Report::Done,
            Report::Done,
            Report::Done,
            Report::Done,
            gpu(CcMode::Off, PpcieMode::On),
            switch(PpcieMode::On),
        ],
    );
    assert_eq!(
        works,
        [
            Work::Open { device: 0 },
            Work::Open { device: 1 },
            Work::Read { device: 0 },
            Work::Read { device: 1 },
            Work::Write { device: 0, write: Write::Ppcie(PpcieMode::On) },
            Work::Write { device: 1, write: Write::Ppcie(PpcieMode::On) },
            Work::Reset { device: 0 },
            Work::Reset { device: 1 },
            Work::Verify { device: 0 },
            Work::Verify { device: 1 },
        ]
    );
    assert_eq!(run.work(), Work::Settled);
    assert!(run.stop().is_none());
    assert_eq!(
        run.outcomes(),
        [
            ("0000:00:00.0".to_string(), Transition::Applied),
            ("0000:02:00.0".to_string(), Transition::Applied),
        ]
    );
    assert!(run.target(2).is_none());
    assert_eq!(run.target(1).unwrap().address, "0000:02:00.0");
    assert_eq!(run.target(1).unwrap().kind, HandleKind::Switch);
}

#[test]
fn a_board_in_the_mode_is_only_read() {
    let (works, run) = run(
        Mode::Off,
        &[
            Report::Done,
            Report::Done,
            gpu(CcMode::Off, PpcieMode::Off),
            switch(PpcieMode::Off),
            gpu(CcMode::Off, PpcieMode::Off),
            switch(PpcieMode::Off),
        ],
    );
    assert!(!works.iter().any(|work| matches!(work, Work::Write { .. } | Work::Reset { .. })));
    assert_eq!(run.work(), Work::Settled);
    assert_eq!(run.outcomes()[0].1, Transition::AlreadySet);
}

#[test]
fn only_the_devices_that_change_are_written_and_reset() {
    let (works, run) = run(
        Mode::Off,
        &[
            Report::Done,
            Report::Done,
            gpu(CcMode::On, PpcieMode::On),
            switch(PpcieMode::Off),
            Report::Done,
            Report::Done,
            Report::Done,
        ],
    );
    assert_eq!(
        works[4..],
        [
            Work::Write { device: 0, write: Write::Ppcie(PpcieMode::Off) },
            Work::Write { device: 0, write: Write::Cc(CcMode::Off) },
            Work::Reset { device: 0 },
        ]
    );
    assert_eq!(run.work(), Work::Verify { device: 0 });
}

fn context(run: &ModeRun) -> String {
    match run.stop() {
        Some(Stop::Failed { context: Some(context) }) => context,
        other => panic!("{other:?}"),
    }
}

#[test]
fn a_failure_ends_the_run_and_says_what_was_being_done() {
    let opened = [Report::Done, Report::Done];
    let read = [gpu(CcMode::Off, PpcieMode::Off), switch(PpcieMode::Off)];
    let cases: [(&[Report], &str); 5] = [
        (&[Report::Failed], "0000:00:00.0: open for mode change"),
        (&[opened[0], opened[1], read[0], Report::Failed], "0000:02:00.0: read current mode"),
        (&[opened[0], opened[1], read[0], read[1], Report::Failed], "0000:00:00.0: set on"),
        (
            &[opened[0], opened[1], read[0], read[1], Report::Done, Report::Failed],
            "0000:00:00.0: reset to activate on",
        ),
        (
            &[opened[0], opened[1], read[0], read[1], Report::Done, Report::Done, Report::Failed],
            "0000:00:00.0: verify mode",
        ),
    ];
    for (reports, expected) in cases {
        let (_, mut run) = run(Mode::On, reports);
        assert_eq!(run.work(), Work::Stopped);
        assert_eq!(context(&run), expected);
        run.step(Report::Done);
        assert_eq!(run.work(), Work::Stopped);
    }
}

#[test]
fn a_reading_of_another_kind_is_a_failure() {
    let (_, run) = run(Mode::On, &[Report::Done, Report::Done, switch(PpcieMode::Off)]);
    assert_eq!(context(&run), "0000:00:00.0: read current mode");
}

#[test]
fn a_board_that_does_not_take_the_mode_is_refused() {
    let (_, run) = run(
        Mode::On,
        &[
            Report::Done,
            Report::Done,
            gpu(CcMode::Off, PpcieMode::Off),
            switch(PpcieMode::Off),
            Report::Done,
            Report::Done,
            gpu(CcMode::Off, PpcieMode::Off),
        ],
    );
    match run.stop() {
        Some(Stop::Refused { message }) => {
            assert_eq!(message, "0000:00:00.0: CC mode is off, expected on for on")
        }
        other => panic!("{other:?}"),
    }
}

#[test]
fn a_board_without_modes_settles_at_once() {
    assert_eq!(apply(&Vec::new(), Mode::On).work(), Work::Settled);
}

#[test]
fn a_board_run_ends_within_six_reports_for_each_device() {
    let mut run = apply(&board(), Mode::Off);
    let mut written = false;
    let mut reports = 0;
    while !matches!(run.work(), Work::Settled | Work::Stopped) {
        let knob = if written { PpcieMode::Off } else { PpcieMode::On };
        let cc = if written { CcMode::Off } else { CcMode::On };
        let report = match run.work() {
            Work::Read { device: 0 } | Work::Verify { device: 0 } => gpu(cc, knob),
            Work::Read { .. } | Work::Verify { .. } => switch(knob),
            work => {
                written = written || matches!(work, Work::Write { .. });
                Report::Done
            }
        };
        run.step(report);
        reports += 1;
    }
    assert_eq!(run.work(), Work::Settled);
    // Two writes for the GPU, one for the switch.
    assert_eq!(reports, 11);
}
