//! NVIDIA in-band CC and PPCIE modes. No NVIDIA kernel driver is involved, so
//! an idle vfio-bound device changes mode without being unbound.
use vstd::prelude::*;

use crate::board::ModeRun;
use crate::keyed::Keyed;
use crate::device::{DeviceState, Provisioning};
use crate::mode::{CcMode, Mode, PpcieMode};
use crate::refusal::Refusal;

verus! {

/// A chip with confidential computing: its name, and whether it is of the
/// Hopper generation.
#[derive(Clone, Copy, Debug)]
pub struct Chip {
    pub name: &'static str,
    pub hopper: bool,
}

/// The chip's name, `None` for NVIDIA GPUs predating Hopper.
pub fn cc_chip(chip: Option<Chip>) -> (r: Option<&'static str>)
    ensures
        r == (match chip {
            Some(chip) => Some(chip.name),
            None => None,
        }),
{
    match chip {
        Some(chip) => Some(chip.name),
        None => None,
    }
}

/// PPCIE is Hopper's alone.
pub fn supports_ppcie(chip: Option<Chip>) -> (r: bool)
    ensures
        r == (chip matches Some(chip) && chip.hopper),
{
    match chip {
        Some(chip) => chip.hopper,
        None => false,
    }
}

/// The modes a device reports. `None` means no such mode: an NVSwitch has no
/// CC, a Blackwell GPU no PPCIE.
#[derive(Clone, Copy, Debug, PartialEq, Eq, Structural)]
pub struct Modes {
    pub cc: Option<CcMode>,
    pub ppcie: Option<PpcieMode>,
}

impl Modes {
    /// Every knob the device has is where `mode` wants it.
    pub open spec fn are(self, mode: Mode) -> bool {
        &&& self.cc matches Some(cc) ==> cc == mode.cc()
        &&& self.ppcie matches Some(ppcie) ==> ppcie == mode.ppcie()
    }
}

/// One knob write. CC and PPCIE clear each other, so which run and in which
/// order is not a free choice: see [`writes_for`].
#[derive(Clone, Copy, Debug, PartialEq, Eq, Structural)]
pub enum Write {
    Cc(CcMode),
    Ppcie(PpcieMode),
}

/// `write`, where it is called for.
pub open spec fn if_needed(needed: bool, write: Write) -> Seq<Write> {
    if needed {
        seq![write]
    } else {
        Seq::empty()
    }
}

/// The writes that move a device from `modes` to `mode`.
///
/// A device with one knob gets it written, and a device with both gets the
/// knob that `mode` raises written, which clears the other. Only turning
/// everything off clears each knob that is raised by a write of its own.
pub open spec fn planned(modes: Modes, mode: Mode) -> Seq<Write> {
    if modes.are(mode) {
        Seq::empty()
    } else {
        match (modes.cc, modes.ppcie) {
            (Some(cc), Some(ppcie)) => match mode {
                Mode::Ppcie => seq![Write::Ppcie(PpcieMode::On)],
                Mode::On | Mode::DevTools => seq![Write::Cc(mode.cc())],
                Mode::Off => if_needed(ppcie == PpcieMode::On, Write::Ppcie(PpcieMode::Off))
                    + if_needed(cc != CcMode::Off, Write::Cc(CcMode::Off)),
            },
            (Some(_), None) => seq![Write::Cc(mode.cc())],
            (None, _) => seq![Write::Ppcie(mode.ppcie())],
        }
    }
}

/// The writes that move a device from what it is running to `mode`. `None`
/// means no such mode: an NVSwitch has no CC, a Blackwell GPU no PPCIE.
///
/// Enabling either clears the other in firmware, so doing both would undo
/// half of the first. Only turning everything off takes two writes, that
/// being the one transition which leaves the other knob alone.
pub fn writes_for(cc: Option<CcMode>, ppcie: Option<PpcieMode>, mode: Mode) -> (r: Vec<Write>)
    ensures
        r@ == planned(Modes { cc, ppcie }, mode),
{
    let mut writes: Vec<Write> = Vec::new();
    let target_cc = mode.cc_target();
    let target_ppcie = mode.ppcie_target();
    match (cc, ppcie) {
        (Some(cc), Some(ppcie)) => {
            match target_ppcie {
                PpcieMode::On => {
                    if !(ppcie == PpcieMode::On && cc == CcMode::Off) {
                        writes.push(Write::Ppcie(PpcieMode::On));
                    }
                },
                PpcieMode::Off => {
                    if target_cc != CcMode::Off {
                        if !(cc == target_cc && ppcie == PpcieMode::Off) {
                            writes.push(Write::Cc(target_cc));
                        }
                    } else {
                        if ppcie == PpcieMode::On {
                            writes.push(Write::Ppcie(PpcieMode::Off));
                        }
                        if cc != CcMode::Off {
                            writes.push(Write::Cc(CcMode::Off));
                        }
                    }
                },
            }
        },
        _ => {
            if let Some(cc) = cc {
                if cc != target_cc {
                    writes.push(Write::Cc(target_cc));
                }
            }
            if let Some(ppcie) = ppcie {
                if ppcie != target_ppcie {
                    writes.push(Write::Ppcie(target_ppcie));
                }
            }
        },
    }
    assert(writes@ =~= planned(Modes { cc, ppcie }, mode));
    writes
}

/// What one write does to the knobs of a device: the knob takes the mode
/// written, and raising it clears the other one. A knob that the device does
/// not have stays absent.
pub open spec fn after_write(modes: Modes, write: Write) -> Modes {
    match write {
        Write::Cc(cc) => Modes {
            cc: if modes.cc is Some { Some(cc) } else { None },
            ppcie: if modes.ppcie is Some && cc != CcMode::Off {
                Some(PpcieMode::Off)
            } else {
                modes.ppcie
            },
        },
        Write::Ppcie(ppcie) => Modes {
            cc: if modes.cc is Some && ppcie == PpcieMode::On {
                Some(CcMode::Off)
            } else {
                modes.cc
            },
            ppcie: if modes.ppcie is Some { Some(ppcie) } else { None },
        },
    }
}

pub open spec fn after_writes(modes: Modes, writes: Seq<Write>) -> Modes
    decreases writes.len(),
{
    if writes.len() == 0 {
        modes
    } else {
        after_write(after_writes(modes, writes.drop_last()), writes.last())
    }
}

/// The planned writes put every knob where the mode wants it.
pub proof fn law_writes_reach_the_mode(modes: Modes, mode: Mode)
    ensures
        after_writes(modes, planned(modes, mode)).are(mode),
{
    let writes = planned(modes, mode);
    reveal_with_fuel(after_writes, 3);
    if writes.len() == 1 {
        assert(writes.drop_last() =~= Seq::<Write>::empty());
    } else if writes.len() == 2 {
        assert(writes.drop_last() =~= seq![writes[0]]);
        assert(writes.drop_last().drop_last() =~= Seq::<Write>::empty());
    }
}

/// A device is written to exactly when it is not in the mode already.
pub proof fn law_a_device_in_the_mode_is_left_alone(modes: Modes, mode: Mode)
    ensures
        planned(modes, mode).len() == 0 <==> modes.are(mode),
{
}

/// Planning again for what the writes lead to finds nothing left to write.
pub proof fn law_the_second_run_writes_nothing(modes: Modes, mode: Mode)
    ensures
        planned(after_writes(modes, planned(modes, mode)), mode).len() == 0,
{
    law_writes_reach_the_mode(modes, mode);
}

/// One write does it, but for turning both knobs off: that takes two, and
/// PPCIE is cleared first.
pub proof fn law_only_turning_everything_off_takes_two_writes(modes: Modes, mode: Mode)
    ensures
        planned(modes, mode).len() <= 2,
        planned(modes, mode).len() == 2 <==> {
            &&& mode == Mode::Off
            &&& modes.ppcie == Some(PpcieMode::On)
            &&& modes.cc is Some && modes.cc != Some(CcMode::Off)
        },
        planned(modes, mode).len() == 2 ==> planned(modes, mode) == seq![
            Write::Ppcie(PpcieMode::Off),
            Write::Cc(CcMode::Off),
        ],
{
    if planned(modes, mode).len() == 2 {
        assert(planned(modes, mode) =~= seq![
            Write::Ppcie(PpcieMode::Off),
            Write::Cc(CcMode::Off),
        ]);
    }
}

/// No fewer writes than the planned ones reach the mode.
pub proof fn law_no_shorter_plan_reaches_the_mode(modes: Modes, mode: Mode, writes: Seq<Write>)
    requires
        after_writes(modes, writes).are(mode),
    ensures
        writes.len() >= planned(modes, mode).len(),
{
    reveal_with_fuel(after_writes, 3);
    law_only_turning_everything_off_takes_two_writes(modes, mode);
    if writes.len() == 1 {
        assert(writes.drop_last() =~= Seq::<Write>::empty());
    }
}

/// A device is only ever written to through a knob that it has.
pub proof fn law_writes_fit_the_device(modes: Modes, mode: Mode, i: int)
    requires
        0 <= i < planned(modes, mode).len(),
    ensures
        planned(modes, mode)[i] is Cc ==> modes.cc is Some,
        planned(modes, mode)[i] is Ppcie ==> modes.ppcie is Some,
{
}

/// How a device is opened for its modes.
#[derive(Clone, Copy, Debug, PartialEq, Eq, Structural)]
pub enum HandleKind {
    Gpu,
    Switch,
}

/// A GPU with CC and an NVSwitch have modes to set; nothing else is opened.
pub open spec fn handle_of(state: DeviceState) -> Option<HandleKind> {
    if state.has_cc() {
        Some(HandleKind::Gpu)
    } else if state.is_switch() {
        Some(HandleKind::Switch)
    } else {
        None
    }
}

pub fn handle_for(state: &DeviceState) -> (r: Option<HandleKind>)
    ensures
        r == handle_of(*state),
{
    match state.provisioning() {
        Some(Provisioning::NvidiaInBandCc) => if state.cc_capable() {
            Some(HandleKind::Gpu)
        } else {
            None
        },
        Some(Provisioning::NvidiaInBandPpcie) => Some(HandleKind::Switch),
        None => None,
    }
}

/// What an open device reports: a GPU its CC mode, and its PPCIE mode where it
/// has one; an NVSwitch its PPCIE mode.
#[derive(Clone, Copy, Debug, PartialEq, Eq, Structural)]
pub enum Reading {
    Gpu(CcMode, Option<PpcieMode>),
    Switch(PpcieMode),
}

impl Reading {
    pub open spec fn modes(self) -> Modes {
        match self {
            Reading::Gpu(cc, ppcie) => Modes { cc: Some(cc), ppcie },
            Reading::Switch(ppcie) => Modes { cc: None, ppcie: Some(ppcie) },
        }
    }

    /// A reading that a device opened as `kind` gives.
    pub open spec fn is_of(self, kind: HandleKind) -> bool {
        (self is Gpu) == (kind == HandleKind::Gpu)
    }

    pub fn current(self) -> (r: Modes)
        ensures
            r == self.modes(),
    {
        match self {
            Reading::Gpu(cc, ppcie) => Modes { cc: Some(cc), ppcie },
            Reading::Switch(ppcie) => Modes { cc: None, ppcie: Some(ppcie) },
        }
    }

    pub fn comes_from(self, kind: HandleKind) -> (r: bool)
        ensures
            r == self.is_of(kind),
    {
        match (self, kind) {
            (Reading::Gpu(_, _), HandleKind::Gpu) => true,
            (Reading::Switch(_), HandleKind::Switch) => true,
            _ => false,
        }
    }
}

/// Whether a device opened as `kind` takes `write`: an NVSwitch has no CC mode.
pub fn accepts(kind: HandleKind, write: Write) -> (r: Result<(), Refusal>)
    ensures
        match r {
            Ok(_) => !(kind is Switch && write is Cc),
            Err(refusal) => kind is Switch && (write matches Write::Cc(mode) && refusal.message@
                == "an NVSwitch has no CC mode to set to "@ + mode.text()),
        },
{
    match (kind, write) {
        (HandleKind::Switch, Write::Cc(mode)) => {
            let mut message = "an NVSwitch has no CC mode to set to ".to_owned();
            message.append(mode.name());
            Err(Refusal { message })
        },
        _ => Ok(()),
    }
}

/// What is wrong with a device that reports `modes` where `mode` is wanted.
pub open spec fn mismatch(address: Seq<char>, modes: Modes, mode: Mode) -> Seq<char> {
    if modes.cc matches Some(cc) && cc != mode.cc() {
        address + ": CC mode is "@ + (modes.cc->0).text() + ", expected "@ + mode.cc().text()
            + " for "@ + mode.text()
    } else {
        address + ": PPCIE mode is "@ + (modes.ppcie->0).text() + ", expected "@
            + mode.ppcie().text() + " for "@ + mode.text()
    }
}

/// Hold what the hardware reports against the mode, rather than trusting that
/// the writes took.
pub fn verify(address: &str, modes: Modes, mode: Mode) -> (r: Result<(), Refusal>)
    ensures
        match r {
            Ok(_) => modes.are(mode),
            Err(refusal) => !modes.are(mode) && refusal.message@ == mismatch(address@, modes, mode),
        },
{
    if let Some(cc) = modes.cc {
        if cc != mode.cc_target() {
            let mut message = address.to_owned();
            message.append(": CC mode is ");
            message.append(cc.name());
            message.append(", expected ");
            message.append(mode.cc_target().name());
            message.append(" for ");
            message.append(mode.name());
            return Err(Refusal { message });
        }
    }
    if let Some(ppcie) = modes.ppcie {
        if ppcie != mode.ppcie_target() {
            let mut message = address.to_owned();
            message.append(": PPCIE mode is ");
            message.append(ppcie.name());
            message.append(", expected ");
            message.append(mode.ppcie_target().name());
            message.append(" for ");
            message.append(mode.name());
            return Err(Refusal { message });
        }
    }
    Ok(())
}

/// The same for a device that was opened once more for it. One that has no
/// modes is not opened, and is in order.
pub fn verify_mode(state: &DeviceState, modes: Modes, mode: Mode) -> (r: Result<(), Refusal>)
    ensures
        match r {
            Ok(_) => handle_of(*state) is None || modes.are(mode),
            Err(refusal) => handle_of(*state) is Some && !modes.are(mode) && refusal.message@
                == mismatch(state.address@, modes, mode),
        },
{
    match handle_for(state) {
        Some(_) => verify(state.address.as_str(), modes, mode),
        None => Ok(()),
    }
}

/// What came of reading a device's modes.
pub enum Probe {
    /// The device has no modes and was not opened.
    Unopened,
    Read(Reading),
    Failed { error: String },
}

/// What a probe tells of a device's modes, or why it tells nothing. A device
/// that is not opened has none. A reading that such a device cannot give is a
/// failed one.
pub open spec fn probe_result(state: DeviceState, probe: Probe) -> Result<Modes, Seq<char>> {
    match handle_of(state) {
        None => Ok(Modes { cc: None, ppcie: None }),
        Some(kind) => match probe {
            Probe::Read(reading) => if reading.is_of(kind) {
                Ok(reading.modes())
            } else {
                Err("the reading is that of another kind of device"@)
            },
            Probe::Unopened => Err("the device was not opened"@),
            Probe::Failed { error } => Err(error@),
        },
    }
}

/// The state with the modes that were read; where reading failed, what was
/// known stays.
pub open spec fn probed(state: DeviceState, probe: Probe) -> DeviceState {
    match probe_result(state, probe) {
        Ok(modes) => DeviceState { cc_mode: modes.cc, ppcie_mode: modes.ppcie, ..state },
        Err(_) => state,
    }
}

/// The errors of the probes that failed, by address.
pub open spec fn probe_failures(states: Seq<DeviceState>, probes: Seq<Probe>) -> Map<
    Seq<char>,
    Seq<char>,
>
    decreases states.len(),
{
    if states.len() == 0 {
        Map::empty()
    } else {
        let earlier = probe_failures(states.drop_last(), probes.drop_last());
        match probe_result(states.last(), probes.last()) {
            Ok(_) => earlier,
            Err(error) => earlier.insert(states.last().address@, error),
        }
    }
}

/// Errors as text, by address.
pub open spec fn error_texts(failures: Map<Seq<char>, String>) -> Map<Seq<char>, Seq<char>> {
    failures.map_values(|error: String| error@)
}

fn read_probe(state: &DeviceState, probe: &Probe) -> (r: Result<Modes, String>)
    ensures
        match (r, probe_result(*state, *probe)) {
            (Ok(modes), Ok(read)) => modes == read,
            (Err(error), Err(text)) => error@ == text,
            _ => false,
        },
{
    let kind = match handle_for(state) {
        Some(kind) => kind,
        None => {
            return Ok(Modes { cc: None, ppcie: None });
        },
    };
    match probe {
        Probe::Read(reading) => {
            if reading.comes_from(kind) {
                Ok(reading.current())
            } else {
                Err("the reading is that of another kind of device".to_owned())
            }
        },
        Probe::Unopened => Err("the device was not opened".to_owned()),
        Probe::Failed { error } => Err(error.clone()),
    }
}

/// Put the modes that were read into the states, and tell which could not be
/// read. `probes` holds one entry per state; that of a device which is not
/// opened says nothing.
pub fn probe_modes(states: &mut Vec<DeviceState>, probes: &Vec<Probe>) -> (failures: Keyed<
    String,
>)
    requires
        probes@.len() == old(states)@.len(),
    ensures
        final(states)@ == Seq::new(
            old(states)@.len(),
            |i: int| probed(old(states)@[i], probes@[i]),
        ),
        error_texts(failures@) == probe_failures(old(states)@, probes@),
{
    let ghost before = states@;
    let mut failures: Keyed<String> = Keyed::new();
    assert(error_texts(failures@) =~= Map::<Seq<char>, Seq<char>>::empty());
    for i in 0..probes.len()
        invariant
            states@.len() == before.len(),
            probes@.len() == before.len(),
            forall|j: int| 0 <= j < i ==> states@[j] == probed(before[j], probes@[j]),
            forall|j: int| i <= j < before.len() ==> states@[j] == before[j],
            error_texts(failures@) == probe_failures(
                before.take(i as int),
                probes@.take(i as int),
            ),
    {
        assert(before.take(i + 1).drop_last() == before.take(i as int));
        assert(probes@.take(i + 1).drop_last() == probes@.take(i as int));
        let mut state = states[i].clone();
        match read_probe(&state, &probes[i]) {
            Ok(modes) => {
                state.cc_mode = modes.cc;
                state.ppcie_mode = modes.ppcie;
            },
            Err(error) => {
                let ghost so_far = failures@;
                failures.insert(state.address.clone(), error);
                assert(error_texts(failures@) =~= error_texts(so_far).insert(
                    state.address@,
                    error@,
                ));
            },
        }
        states.set(i, state);
    }
    assert(before.take(before.len() as int) == before);
    assert(probes@.take(probes@.len() as int) == probes@);
    assert(states@ =~= Seq::new(before.len(), |i: int| probed(before[i], probes@[i])));
    failures
}

/// A device whose modes were read has a CC mode exactly where it is a GPU with
/// CC, and an NVSwitch has a PPCIE mode.
pub proof fn law_a_probe_fits_the_device(state: DeviceState, probe: Probe)
    requires
        probe_result(state, probe) is Ok,
    ensures
        probed(state, probe).cc_mode is Some <==> handle_of(state) == Some(HandleKind::Gpu),
        handle_of(state) == Some(HandleKind::Switch) ==> probed(state, probe).ppcie_mode is Some,
        handle_of(state) is None ==> probed(state, probe).ppcie_mode is None,
{
}

/// A device is told among the failures exactly where its probe failed, and
/// then what was known of it stays; `probes` are of devices at addresses of
/// their own.
pub proof fn law_a_failed_probe_is_told(
    states: Seq<DeviceState>,
    probes: Seq<Probe>,
    i: int,
)
    requires
        probes.len() == states.len(),
        0 <= i < states.len(),
        forall|j: int, k: int|
            0 <= j < k < states.len() ==> (#[trigger] states[j]).address@ != (
            #[trigger] states[k]).address@,
    ensures
        match probe_result(states[i], probes[i]) {
            Ok(_) => !probe_failures(states, probes).contains_key(states[i].address@),
            Err(error) => {
                &&& probe_failures(states, probes).contains_pair(states[i].address@, error)
                &&& probed(states[i], probes[i]) == states[i]
            },
        },
    decreases states.len(),
{
    let front = states.drop_last();
    if i < front.len() {
        assert forall|j: int, k: int| 0 <= j < k < front.len() implies (
        #[trigger] front[j]).address@ != (#[trigger] front[k]).address@ by {
            assert(states[j].address@ != states[k].address@);
        }
        law_a_failed_probe_is_told(front, probes.drop_last(), i);
        assert(states[i].address@ != states[states.len() - 1].address@);
    } else {
        lemma_told_of_a_state(front, probes.drop_last(), states[i].address@);
        if probe_failures(front, probes.drop_last()).contains_key(states[i].address@) {
            let j = choose|j: int|
                0 <= j < front.len() && (#[trigger] front[j]).address@ == states[i].address@;
            assert(states[j].address@ != states[i].address@);
        }
    }
}

proof fn lemma_told_of_a_state(states: Seq<DeviceState>, probes: Seq<Probe>, address: Seq<char>)
    requires
        probes.len() == states.len(),
    ensures
        probe_failures(states, probes).contains_key(address) ==> exists|j: int|
            0 <= j < states.len() && (#[trigger] states[j]).address@ == address,
    decreases states.len(),
{
    if states.len() > 0 {
        let front = states.drop_last();
        lemma_told_of_a_state(front, probes.drop_last(), address);
        if probe_failures(states, probes).contains_key(address) {
            if address == states.last().address@ {
                assert(states[states.len() - 1].address@ == address);
            } else {
                let j = choose|j: int|
                    0 <= j < front.len() && (#[trigger] front[j]).address@ == address;
                assert(states[j].address@ == address);
            }
        }
    }
}

#[derive(Clone, Copy, Debug, PartialEq, Eq, Structural)]
pub enum Transition {
    /// Not reset: doing so to a device that needs nothing is a free outage.
    AlreadySet,
    Applied,
}

/// PPCIE is a property of a whole baseboard: no device reports it active until
/// all of them carry it. So the knobs go to every device first and the resets
/// come after, which also means nothing is reset for a mode the rest of the
/// board is not getting.
///
/// What has to be done is handed out one piece of work at a time, as
/// [`ModeRun`] says.
pub fn apply(states: &Vec<DeviceState>, mode: Mode) -> (r: ModeRun)
    ensures
        r.wf(),
        r@ == crate::board::begun(states@, mode),
{
    ModeRun::new(states, mode)
}

/// A device is in a mode where each knob it has is where the mode wants it: CC
/// on or devtools by the mode's name and else off, PPCIE on under PPCIE alone.
pub proof fn law_each_knob_has_its_place(modes: Modes, mode: Mode)
    ensures
        modes.are(mode) <==> {
            &&& modes.cc matches Some(cc) ==> match mode {
                Mode::On => cc == CcMode::On,
                Mode::DevTools => cc == CcMode::DevTools,
                Mode::Off => cc == CcMode::Off,
                Mode::Ppcie => cc == CcMode::Off,
            }
            &&& modes.ppcie matches Some(ppcie) ==> (ppcie == PpcieMode::On <==> mode
                == Mode::Ppcie)
        },
{
}

/// A write moves its own knob. Raising one knob clears the other, lowering it
/// leaves the other alone, and no write gives a device a knob that it lacks.
pub proof fn law_raising_a_knob_clears_the_other(modes: Modes, write: Write)
    ensures
        after_write(modes, write).cc is Some <==> modes.cc is Some,
        after_write(modes, write).ppcie is Some <==> modes.ppcie is Some,
        write matches Write::Cc(cc) ==> {
            &&& modes.cc is Some ==> after_write(modes, write).cc == Some(cc)
            &&& cc != CcMode::Off && modes.ppcie is Some ==> after_write(modes, write).ppcie
                == Some(PpcieMode::Off)
            &&& cc == CcMode::Off ==> after_write(modes, write).ppcie == modes.ppcie
        },
        write matches Write::Ppcie(ppcie) ==> {
            &&& modes.ppcie is Some ==> after_write(modes, write).ppcie == Some(ppcie)
            &&& ppcie == PpcieMode::On && modes.cc is Some ==> after_write(modes, write).cc
                == Some(CcMode::Off)
            &&& ppcie == PpcieMode::Off ==> after_write(modes, write).cc == modes.cc
        },
        after_writes(modes, Seq::empty()) == modes,
        after_writes(modes, seq![write]) == after_write(modes, write),
{
    reveal_with_fuel(after_writes, 2);
    assert(seq![write].drop_last() =~= Seq::<Write>::empty());
}

/// The plan for every device and mode. A device in the mode is left alone. PPCIE
/// is one write where there is such a knob; on and devtools are one write where
/// there is a CC knob; off lowers each knob that is up, PPCIE first.
pub proof fn law_the_plan_for_every_device(modes: Modes, mode: Mode)
    ensures
        modes.cc is Some && modes.ppcie is Some && mode == Mode::Ppcie ==> planned(modes, mode) == (
        if modes.cc == Some(CcMode::Off) && modes.ppcie == Some(PpcieMode::On) {
            Seq::empty()
        } else {
            seq![Write::Ppcie(PpcieMode::On)]
        }),
        modes.cc is Some && mode == Mode::On ==> planned(modes, mode) == (if modes.cc == Some(
            CcMode::On,
        ) && modes.ppcie != Some(PpcieMode::On) {
            Seq::empty()
        } else {
            seq![Write::Cc(CcMode::On)]
        }),
        modes.cc is Some && mode == Mode::DevTools ==> planned(modes, mode) == (if modes.cc == Some(
            CcMode::DevTools,
        ) && modes.ppcie != Some(PpcieMode::On) {
            Seq::empty()
        } else {
            seq![Write::Cc(CcMode::DevTools)]
        }),
        mode == Mode::Off ==> planned(modes, mode) == (if modes.ppcie == Some(PpcieMode::On) {
            seq![Write::Ppcie(PpcieMode::Off)]
        } else {
            Seq::empty()
        }) + (if modes.cc == Some(CcMode::On) || modes.cc == Some(CcMode::DevTools) {
            seq![Write::Cc(CcMode::Off)]
        } else {
            Seq::empty()
        }),
        modes.cc is Some && modes.ppcie is None && mode == Mode::Ppcie ==> planned(modes, mode) == (
        if modes.cc == Some(CcMode::Off) {
            Seq::empty()
        } else {
            seq![Write::Cc(CcMode::Off)]
        }),
        modes.cc is None && mode == Mode::Ppcie ==> planned(modes, mode) == (if modes.ppcie == Some(
            PpcieMode::Off,
        ) {
            seq![Write::Ppcie(PpcieMode::On)]
        } else {
            Seq::empty()
        }),
        modes.cc is None && (mode == Mode::On || mode == Mode::DevTools) ==> planned(modes, mode)
            == (if modes.ppcie == Some(PpcieMode::On) {
            seq![Write::Ppcie(PpcieMode::Off)]
        } else {
            Seq::empty()
        }),
{
    let plan = planned(modes, mode);
    if mode == Mode::Off {
        assert(plan =~= (if modes.ppcie == Some(PpcieMode::On) {
            seq![Write::Ppcie(PpcieMode::Off)]
        } else {
            Seq::empty()
        }) + (if modes.cc == Some(CcMode::On) || modes.cc == Some(CcMode::DevTools) {
            seq![Write::Cc(CcMode::Off)]
        } else {
            Seq::empty()
        }));
    }
}

/// A GPU is opened where it has a CC chip, an NVSwitch always, and nothing else
/// ever.
pub proof fn law_what_is_opened_for_its_modes(state: DeviceState)
    ensures
        handle_of(state) == Some(HandleKind::Gpu) <==> (state.row matches Some(row)
            && row.provisioning == Provisioning::NvidiaInBandCc && state.cc_chip is Some),
        handle_of(state) == Some(HandleKind::Switch) <==> (state.row matches Some(row)
            && row.provisioning == Provisioning::NvidiaInBandPpcie),
{
}

/// A reading gives the knobs as they were read: a GPU has a CC knob and may have
/// one for PPCIE, a switch has that of PPCIE alone. It is one of its own kind of
/// device.
pub proof fn law_a_reading_gives_what_was_read(
    cc: CcMode,
    ppcie: Option<PpcieMode>,
    knob: PpcieMode,
)
    ensures
        Reading::Gpu(cc, ppcie).modes().cc == Some(cc),
        Reading::Gpu(cc, ppcie).modes().ppcie == ppcie,
        Reading::Switch(knob).modes().cc is None,
        Reading::Switch(knob).modes().ppcie == Some(knob),
        Reading::Gpu(cc, ppcie).is_of(HandleKind::Gpu),
        !Reading::Gpu(cc, ppcie).is_of(HandleKind::Switch),
        Reading::Switch(knob).is_of(HandleKind::Switch),
        !Reading::Switch(knob).is_of(HandleKind::Gpu),
{
}

/// What is said of a device in the wrong mode: the first knob that is not where
/// it should be, where it is, and where it should be.
pub proof fn law_a_mismatch_is_told_by_knob(address: Seq<char>, modes: Modes, mode: Mode)
    requires
        !modes.are(mode),
    ensures
        modes.cc is Some && modes.cc->0 != mode.cc() ==> mismatch(address, modes, mode) == address
            + ": CC mode is "@ + modes.cc->0.text() + ", expected "@ + mode.cc().text() + " for "@
            + mode.text(),
        modes.cc is None || modes.cc == Some(mode.cc()) ==> modes.ppcie is Some && mismatch(
            address,
            modes,
            mode,
        ) == address + ": PPCIE mode is "@ + modes.ppcie->0.text() + ", expected "@
            + mode.ppcie().text() + " for "@ + mode.text(),
{
}

/// A probe of a device that has modes fills them in where it read them from such
/// a device, and fails in any other case. A device that has none has none, and
/// cannot fail. Nothing else of the state changes.
pub proof fn law_a_probe_fills_in_what_it_read(state: DeviceState, probe: Probe)
    ensures
        handle_of(state) is None ==> probe_result(state, probe) is Ok && probed(
            state,
            probe,
        ).cc_mode is None && probed(state, probe).ppcie_mode is None,
        handle_of(state) is Some ==> (probe_result(state, probe) is Ok <==> (
        probe matches Probe::Read(reading) && ((reading is Gpu) <==> handle_of(state) == Some(
            HandleKind::Gpu,
        )))),
        handle_of(state) is Some && probe_result(state, probe) is Ok ==> {
            &&& probe matches Probe::Read(Reading::Gpu(cc, ppcie)) ==> probed(
                state,
                probe,
            ).cc_mode == Some(cc) && probed(state, probe).ppcie_mode == ppcie
            &&& probe matches Probe::Read(Reading::Switch(ppcie)) ==> probed(
                state,
                probe,
            ).cc_mode is None && probed(state, probe).ppcie_mode == Some(ppcie)
        },
        handle_of(state) is Some && (probe matches Probe::Failed { error }) ==> probe_result(
            state,
            probe,
        ) == Err::<Modes, Seq<char>>(probe->error@),
        probe_result(state, probe) is Err ==> probed(state, probe) == state,
        probed(state, probe) == (DeviceState {
            cc_mode: probed(state, probe).cc_mode,
            ppcie_mode: probed(state, probe).ppcie_mode,
            ..state
        }),
{
}

} // verus!
