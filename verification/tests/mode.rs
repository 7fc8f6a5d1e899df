use kata_device_provisioner::mode::{CcMode, Mode, PpcieMode};

const MODES: [(&str, Mode); 4] = [
    ("off", Mode::Off),
    ("on", Mode::On),
    ("devtools", Mode::DevTools),
    ("ppcie", Mode::Ppcie),
];

#[test]
fn parses_and_renders_every_mode() {
    for (text, mode) in MODES {
        assert_eq!(text.parse::<Mode>().unwrap(), mode);
        assert_eq!(Mode::from_str(text).unwrap(), mode);
        assert_eq!(mode.name(), text);
    }
}

#[test]
fn rejects_anything_else() {
    for text in ["", "enabled", "On"] {
        assert!(text.parse::<Mode>().is_err());
    }
}

#[test]
fn a_rejected_mode_is_quoted() {
    assert_eq!(
        Mode::from_str("On").unwrap_err().message,
        "unknown mode \"On\": expected off, on, devtools or ppcie"
    );
    assert_eq!(
        Mode::from_str("a\"b").unwrap_err().message,
        "unknown mode \"a\\\"b\": expected off, on, devtools or ppcie"
    );
}

#[test]
fn maps_to_hardware_targets() {
    for (mode, cc, ppcie, ready) in [
        (Mode::Off, CcMode::Off, PpcieMode::Off, false),
        (Mode::On, CcMode::On, PpcieMode::Off, true),
        (Mode::DevTools, CcMode::DevTools, PpcieMode::Off, true),
        (Mode::Ppcie, CcMode::Off, PpcieMode::On, true),
    ] {
        assert_eq!(mode.cc_target(), cc);
        assert_eq!(mode.ppcie_target(), ppcie);
        assert_eq!(mode.cc_ready(), ready);
    }
}

#[test]
fn names_tell_modes_apart() {
    for (_, a) in MODES {
        for (_, b) in MODES {
            assert_eq!(a.name() == b.name(), a == b);
        }
    }
}

#[test]
fn no_mode_raises_both_knobs() {
    for (_, mode) in MODES {
        let cc = mode.cc_target() != CcMode::Off;
        let ppcie = mode.ppcie_target() == PpcieMode::On;
        assert!(!(cc && ppcie));
        assert_eq!(cc || ppcie, mode.cc_ready());
    }
}

#[test]
fn knobs_are_named_as_modes_are() {
    assert_eq!(CcMode::Off.name(), "off");
    assert_eq!(CcMode::On.name(), "on");
    assert_eq!(CcMode::DevTools.name(), "devtools");
    assert_eq!(PpcieMode::Off.name(), "off");
    assert_eq!(PpcieMode::On.name(), "on");
}
