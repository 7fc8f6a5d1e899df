//! Putting all devices of a board into one mode, one piece of work at a time.
//!
//! Every device is opened and read before any is written to, every write is
//! made before any device is reset, and every device is read once more at the
//! end. Whoever runs this performs the work that [`ModeRun::work`] names and
//! reports back through [`ModeRun::step`].
use vstd::prelude::*;

use crate::device::DeviceState;
use crate::mode::Mode;
use crate::nvidia::{handle_for, verify, writes_for, HandleKind, Modes, Reading, Transition, Write};
use crate::refusal::{fail_at, Stop};

verus! {

/// A device whose mode is set, and how it is opened.
#[derive(Debug)]
pub struct Target {
    pub address: String,
    pub kind: HandleKind,
}

/// The devices of a board that have modes to set, in their order.
pub open spec fn targets(states: Seq<DeviceState>) -> Seq<(Seq<char>, HandleKind)>
    decreases states.len(),
{
    if states.len() == 0 {
        Seq::empty()
    } else {
        let earlier = targets(states.drop_last());
        match crate::nvidia::handle_of(states.last()) {
            Some(kind) => earlier.push((states.last().address@, kind)),
            None => earlier,
        }
    }
}

pub open spec fn target_texts(v: Seq<Target>) -> Seq<(Seq<char>, HandleKind)> {
    v.map_values(|target: Target| (target.address@, target.kind))
}

/// The stretches of a run, in the order in which they come.
#[derive(Clone, Copy, Debug, PartialEq, Eq, Structural)]
pub enum Phase {
    Open,
    Read,
    Write,
    Reset,
    Verify,
    Settled,
}

impl Phase {
    pub open spec fn rank(self) -> int {
        match self {
            Phase::Open => 0,
            Phase::Read => 1,
            Phase::Write => 2,
            Phase::Reset => 3,
            Phase::Verify => 4,
            Phase::Settled => 5,
        }
    }
}

/// The next thing to do. Devices are counted through the run's targets.
#[derive(Clone, Copy, Debug, PartialEq, Eq, Structural)]
pub enum Work {
    Open { device: usize },
    Read { device: usize },
    Write { device: usize, write: Write },
    Reset { device: usize },
    /// Read once more.
    Verify { device: usize },
    /// Every device is in the mode: there is nothing left to do.
    Settled,
    /// The run ended early: nothing more is to be done.
    Stopped,
}

/// What came of the work.
#[derive(Clone, Copy, Debug, PartialEq, Eq, Structural)]
pub enum Report {
    Done,
    Read(Reading),
    Failed,
}

/// Where a run stands.
#[verifier::ext_equal]
pub struct Progress {
    pub mode: Mode,
    pub devices: Seq<(Seq<char>, HandleKind)>,
    /// What the devices read before anything was written.
    pub readings: Seq<Modes>,
    pub phase: Phase,
    /// How much of the phase is done.
    pub at: nat,
    pub stop: Option<crate::refusal::StopText>,
}

/// `writes` as the writes of the device at `device`.
pub open spec fn to_device(writes: Seq<Write>, device: int) -> Seq<(int, Write)> {
    writes.map_values(|write: Write| (device, write))
}

/// The writes that bring every device from its reading to `mode`, device by
/// device.
pub open spec fn all_writes(readings: Seq<Modes>, mode: Mode) -> Seq<(int, Write)>
    decreases readings.len(),
{
    if readings.len() == 0 {
        Seq::empty()
    } else {
        all_writes(readings.drop_last(), mode) + to_device(
            crate::nvidia::planned(readings.last(), mode),
            readings.len() - 1,
        )
    }
}

/// The devices that are not in `mode` by their readings, in order: those that
/// are written to.
pub open spec fn changing(readings: Seq<Modes>, mode: Mode) -> Seq<int>
    decreases readings.len(),
{
    if readings.len() == 0 {
        Seq::empty()
    } else if readings.last().are(mode) {
        changing(readings.drop_last(), mode)
    } else {
        changing(readings.drop_last(), mode).push(readings.len() - 1)
    }
}

impl Progress {
    /// How many pieces of work a phase has.
    pub open spec fn size(self) -> nat {
        match self.phase {
            Phase::Open | Phase::Read | Phase::Verify => self.devices.len(),
            Phase::Write => all_writes(self.readings, self.mode).len(),
            Phase::Reset => changing(self.readings, self.mode).len(),
            Phase::Settled => 0,
        }
    }

    pub open spec fn in_phase(self, phase: Phase) -> Progress {
        Progress { phase, at: 0, ..self }
    }

    /// On to the next phase that has something to do, where this one is done.
    pub open spec fn onward(self) -> Progress
        decreases 5 - self.phase.rank(),
    {
        if self.at < self.size() {
            self
        } else {
            match self.phase {
                Phase::Open => self.in_phase(Phase::Read).onward(),
                Phase::Read => self.in_phase(Phase::Write).onward(),
                Phase::Write => self.in_phase(Phase::Reset).onward(),
                Phase::Reset => self.in_phase(Phase::Verify).onward(),
                Phase::Verify => self.in_phase(Phase::Settled),
                Phase::Settled => self,
            }
        }
    }

    /// One piece of work more is done.
    pub open spec fn advanced(self) -> Progress {
        Progress { at: self.at + 1, ..self }.onward()
    }

    pub open spec fn stopped(self, stop: crate::refusal::StopText) -> Progress {
        Progress { stop: Some(stop), ..self }
    }

    pub open spec fn over(self) -> bool {
        self.stop is Some || self.phase == Phase::Settled
    }

    /// The device that the work at hand is about.
    pub open spec fn device(self) -> int {
        match self.phase {
            Phase::Write => all_writes(self.readings, self.mode)[self.at as int].0,
            Phase::Reset => changing(self.readings, self.mode)[self.at as int],
            _ => self.at as int,
        }
    }

    /// The work at hand, were the run not over.
    pub open spec fn at_hand(self) -> Work {
        let device = self.device() as usize;
        match self.phase {
            Phase::Open => Work::Open { device },
            Phase::Read => Work::Read { device },
            Phase::Write => Work::Write {
                device,
                write: all_writes(self.readings, self.mode)[self.at as int].1,
            },
            Phase::Reset => Work::Reset { device },
            Phase::Verify => Work::Verify { device },
            Phase::Settled => Work::Settled,
        }
    }

    pub open spec fn work(self) -> Work {
        if self.stop is Some {
            Work::Stopped
        } else {
            self.at_hand()
        }
    }

    /// What is said to have been going on when the work at hand fails.
    pub open spec fn doing(self) -> Seq<char> {
        match self.phase {
            Phase::Open => ": open for mode change"@,
            Phase::Read => ": read current mode"@,
            Phase::Write => ": set "@ + self.mode.text(),
            Phase::Reset => ": reset to activate "@ + self.mode.text(),
            Phase::Verify | Phase::Settled => ": verify mode"@,
        }
    }

    /// The work at hand failed. A report that does not answer the work counts
    /// as a failure.
    pub open spec fn failed(self) -> Progress {
        self.stopped(crate::refusal::failed_at(self.devices[self.device()].0, self.doing()))
    }

    /// Where the run stands after the report on the work at hand.
    pub open spec fn after(self, report: Report) -> Progress {
        if self.over() {
            self
        } else {
            match (self.phase, report) {
                (Phase::Open | Phase::Write | Phase::Reset, Report::Done) => self.advanced(),
                (Phase::Read, Report::Read(reading)) => if reading.is_of(
                    self.devices[self.device()].1,
                ) {
                    Progress { readings: self.readings.push(reading.modes()), ..self }.advanced()
                } else {
                    self.failed()
                },
                (Phase::Verify, Report::Read(reading)) => if !reading.is_of(
                    self.devices[self.device()].1,
                ) {
                    self.failed()
                } else if reading.modes().are(self.mode) {
                    self.advanced()
                } else {
                    self.stopped(
                        crate::refusal::StopText::Refused {
                            message: crate::nvidia::mismatch(
                                self.devices[self.device()].0,
                                reading.modes(),
                                self.mode,
                            ),
                        },
                    )
                },
                _ => self.failed(),
            }
        }
    }

    /// Where the run stands after all of `reports`.
    pub open spec fn after_all(self, reports: Seq<Report>) -> Progress
        decreases reports.len(),
    {
        if reports.len() == 0 {
            self
        } else {
            self.after_all(reports.drop_last()).after(reports.last())
        }
    }

    /// What the readings make of each device.
    pub open spec fn outcomes(self) -> Seq<(Seq<char>, Transition)> {
        Seq::new(
            self.readings.len(),
            |i: int|
                (
                    self.devices[i].0,
                    if self.readings[i].are(self.mode) {
                        Transition::AlreadySet
                    } else {
                        Transition::Applied
                    },
                ),
        )
    }
}

/// A run that is about to begin.
pub open spec fn begun(states: Seq<DeviceState>, mode: Mode) -> Progress {
    Progress {
        mode,
        devices: targets(states),
        readings: Seq::empty(),
        phase: Phase::Open,
        at: 0,
        stop: None,
    }.onward()
}

impl Progress {
    /// What holds of a run however far it came: a reading for each device that
    /// was read, and work at hand unless it is over.
    pub open spec fn sound(self) -> bool {
        &&& self.readings.len() == (match self.phase {
            Phase::Open => 0,
            Phase::Read => self.at,
            _ => self.devices.len(),
        })
        &&& self.phase == Phase::Settled || self.at < self.size()
        &&& forall|i: int|
            0 <= i < self.readings.len() ==> ((#[trigger] self.readings[i]).cc is Some) == (
            self.devices[i].1 == HandleKind::Gpu)
    }
}

/// Every write is one of a device that was read, and one that the device's
/// reading calls for.
proof fn lemma_all_writes(readings: Seq<Modes>, mode: Mode)
    ensures
        forall|i: int|
            0 <= i < all_writes(readings, mode).len() ==> {
                let (device, write) = #[trigger] all_writes(readings, mode)[i];
                &&& 0 <= device < readings.len()
                &&& crate::nvidia::planned(readings[device], mode).contains(write)
            },
    decreases readings.len(),
{
    if readings.len() > 0 {
        let front = readings.drop_last();
        lemma_all_writes(front, mode);
        let mine = crate::nvidia::planned(readings.last(), mode);
        let all = all_writes(readings, mode);
        assert forall|i: int| 0 <= i < all.len() implies {
            let (device, write) = #[trigger] all[i];
            &&& 0 <= device < readings.len()
            &&& crate::nvidia::planned(readings[device], mode).contains(write)
        } by {
            let earlier = all_writes(front, mode);
            if i < earlier.len() {
                assert(all[i] == earlier[i]);
                assert(front[earlier[i].0] == readings[earlier[i].0]);
            } else {
                assert(all[i] == (readings.len() - 1, mine[i - earlier.len()]));
            }
        }
    }
}

proof fn lemma_changing(readings: Seq<Modes>, mode: Mode)
    ensures
        forall|i: int|
            0 <= i < changing(readings, mode).len() ==> {
                let device = #[trigger] changing(readings, mode)[i];
                0 <= device < readings.len() && !readings[device].are(mode)
            },
        forall|device: int|
            0 <= device < readings.len() && !readings[device].are(mode)
                ==> #[trigger] changing(readings, mode).contains(device),
        forall|i: int, j: int|
            0 <= i < j < changing(readings, mode).len() ==> #[trigger] changing(readings, mode)[i]
                < #[trigger] changing(readings, mode)[j],
    decreases readings.len(),
{
    if readings.len() > 0 {
        let front = readings.drop_last();
        lemma_changing(front, mode);
        let earlier = changing(front, mode);
        let all = changing(readings, mode);
        assert forall|i: int| 0 <= i < all.len() implies {
            let device = #[trigger] all[i];
            0 <= device < readings.len() && !readings[device].are(mode)
        } by {
            if i < earlier.len() {
                assert(all[i] == earlier[i]);
                assert(front[earlier[i]] == readings[earlier[i]]);
            }
        }
        assert forall|device: int|
            0 <= device < readings.len() && !readings[device].are(
                mode,
            ) implies #[trigger] all.contains(device) by {
            if device < front.len() {
                assert(front[device] == readings[device]);
                assert(earlier.contains(device));
                let k = choose|k: int| 0 <= k < earlier.len() && earlier[k] == device;
                assert(all[k] == device);
            } else {
                assert(all[all.len() - 1] == device);
            }
        }
        assert forall|i: int, j: int| 0 <= i < j < all.len() implies #[trigger] all[i]
            < #[trigger] all[j] by {
            assert(all[i] == earlier[i]);
            if j < earlier.len() {
                assert(all[j] == earlier[j]);
            }
        }
    }
}

proof fn lemma_onward(p: Progress)
    requires
        p.readings.len() == (match p.phase {
            Phase::Open => 0,
            Phase::Read => p.at,
            _ => p.devices.len(),
        }),
        p.at <= p.size(),
        forall|i: int|
            0 <= i < p.readings.len() ==> ((#[trigger] p.readings[i]).cc is Some) == (
            p.devices[i].1 == HandleKind::Gpu),
    ensures
        p.onward().sound(),
        p.onward().mode == p.mode,
        p.onward().devices == p.devices,
        p.onward().readings == p.readings,
        p.onward().stop == p.stop,
        p.onward().phase.rank() >= p.phase.rank(),
    decreases 5 - p.phase.rank(),
{
    if p.at >= p.size() {
        match p.phase {
            Phase::Open => lemma_onward(p.in_phase(Phase::Read)),
            Phase::Read => lemma_onward(p.in_phase(Phase::Write)),
            Phase::Write => lemma_onward(p.in_phase(Phase::Reset)),
            Phase::Reset => lemma_onward(p.in_phase(Phase::Verify)),
            _ => {},
        }
    }
}

/// A report keeps a run sound, and never takes it back to an earlier phase.
pub proof fn lemma_after(p: Progress, report: Report)
    requires
        p.sound(),
    ensures
        p.after(report).sound(),
        p.after(report).mode == p.mode,
        p.after(report).devices == p.devices,
        p.after(report).phase.rank() >= p.phase.rank(),
        p.phase.rank() >= 2 ==> p.after(report).readings == p.readings,
{
    if !p.over() {
        lemma_all_writes(p.readings, p.mode);
        lemma_changing(p.readings, p.mode);
        match (p.phase, report) {
            (Phase::Open | Phase::Write | Phase::Reset, Report::Done) => {
                lemma_onward(Progress { at: p.at + 1, ..p });
            },
            (Phase::Read, Report::Read(reading)) => {
                if reading.is_of(p.devices[p.device()].1) {
                    lemma_onward(
                        Progress { readings: p.readings.push(reading.modes()), at: p.at + 1, ..p },
                    );
                }
            },
            (Phase::Verify, Report::Read(_)) => {
                lemma_onward(Progress { at: p.at + 1, ..p });
            },
            _ => {},
        }
    }
}

pub open spec fn write_pairs(v: Seq<(usize, Write)>) -> Seq<(int, Write)> {
    v.map_values(|pair: (usize, Write)| (pair.0 as int, pair.1))
}

pub open spec fn indices(v: Seq<usize>) -> Seq<int> {
    v.map_values(|i: usize| i as int)
}

/// A run over the devices of a board.
pub struct ModeRun {
    mode: Mode,
    devices: Vec<Target>,
    readings: Vec<Modes>,
    /// The writes that the readings so far call for.
    writes: Vec<(usize, Write)>,
    /// The devices that those writes go to.
    resets: Vec<usize>,
    phase: Phase,
    at: usize,
    stop: Option<Stop>,
}

impl View for ModeRun {
    type V = Progress;

    closed spec fn view(&self) -> Progress {
        Progress {
            mode: self.mode,
            devices: target_texts(self.devices@),
            readings: self.readings@,
            phase: self.phase,
            at: self.at as nat,
            stop: match self.stop {
                Some(stop) => Some(stop@),
                None => None,
            },
        }
    }
}

impl ModeRun {
    pub closed spec fn wf(&self) -> bool {
        &&& self@.sound()
        &&& self.caches_hold()
    }

    closed spec fn caches_hold(&self) -> bool {
        &&& write_pairs(self.writes@) == all_writes(self.readings@, self.mode)
        &&& indices(self.resets@) == changing(self.readings@, self.mode)
    }

    /// A run is sound, however far it came.
    pub proof fn lemma_sound(&self)
        requires
            self.wf(),
        ensures
            self@.sound(),
    {
    }

    fn size(&self) -> (r: usize)
        requires
            self.caches_hold(),
        ensures
            r == self@.size(),
    {
        assert(write_pairs(self.writes@).len() == self.writes@.len());
        assert(indices(self.resets@).len() == self.resets@.len());
        match self.phase {
            Phase::Open | Phase::Read | Phase::Verify => self.devices.len(),
            Phase::Write => self.writes.len(),
            Phase::Reset => self.resets.len(),
            Phase::Settled => 0,
        }
    }

    fn advance(&mut self)
        requires
            old(self).caches_hold(),
            old(self)@.at < old(self)@.size(),
        ensures
            final(self).caches_hold(),
            final(self)@ == old(self)@.advanced(),
    {
        let size: usize = self.size();
        assert(self.at < size);
        self.at = self.at + 1;
        self.settle();
    }

    /// On to the next phase that has something to do.
    fn settle(&mut self)
        requires
            old(self).caches_hold(),
        ensures
            final(self).caches_hold(),
            final(self)@ == old(self)@.onward(),
        decreases 5 - old(self)@.phase.rank(),
    {
        if self.at < self.size() {
            return;
        }
        let next = match self.phase {
            Phase::Open => Phase::Read,
            Phase::Read => Phase::Write,
            Phase::Write => Phase::Reset,
            Phase::Reset => Phase::Verify,
            Phase::Verify => Phase::Settled,
            Phase::Settled => {
                return;
            },
        };
        self.phase = next;
        self.at = 0;
        self.settle();
    }

    /// Begin a run over the devices that have modes to set.
    pub fn new(states: &Vec<DeviceState>, mode: Mode) -> (r: ModeRun)
        ensures
            r.wf(),
            r@ == begun(states@, mode),
    {
        let mut devices: Vec<Target> = Vec::new();
        for i in 0..states.len()
            invariant
                target_texts(devices@) == targets(states@.take(i as int)),
        {
            assert(states@.take(i + 1).drop_last() == states@.take(i as int));
            if let Some(kind) = handle_for(&states[i]) {
                devices.push(Target { address: states[i].address.clone(), kind });
            }
            assert(target_texts(devices@) =~= targets(states@.take(i + 1)));
        }
        assert(states@.take(states@.len() as int) == states@);
        let mut run = ModeRun {
            mode,
            devices,
            readings: Vec::new(),
            writes: Vec::new(),
            resets: Vec::new(),
            phase: Phase::Open,
            at: 0,
            stop: None,
        };
        assert(write_pairs(run.writes@) =~= all_writes(run.readings@, mode));
        assert(indices(run.resets@) =~= changing(run.readings@, mode));
        proof {
            lemma_onward(run@);
        }
        run.settle();
        run
    }

    /// The device at `i`.
    pub fn target(&self, i: usize) -> (r: Option<&Target>)
        ensures
            match r {
                Some(target) => i < self@.devices.len() && (target.address@, target.kind)
                    == self@.devices[i as int],
                None => i >= self@.devices.len(),
            },
    {
        if i < self.devices.len() {
            Some(&self.devices[i])
        } else {
            None
        }
    }

    /// The next thing to do.
    pub fn work(&self) -> (r: Work)
        requires
            self.wf(),
        ensures
            r == self@.work(),
    {
        if self.stop.is_some() {
            return Work::Stopped;
        }
        assert(write_pairs(self.writes@).len() == self.writes@.len());
        assert(indices(self.resets@).len() == self.resets@.len());
        match self.phase {
            Phase::Open => Work::Open { device: self.at },
            Phase::Read => Work::Read { device: self.at },
            Phase::Write => {
                let (device, write) = self.writes[self.at];
                assert(write_pairs(self.writes@)[self.at as int] == (device as int, write));
                Work::Write { device, write }
            },
            Phase::Reset => {
                assert(indices(self.resets@)[self.at as int] == self.resets@[self.at as int] as int);
                Work::Reset { device: self.resets[self.at] }
            },
            Phase::Verify => Work::Verify { device: self.at },
            Phase::Settled => Work::Settled,
        }
    }

    fn fail(&mut self)
        requires
            old(self).wf(),
            !old(self)@.over(),
        ensures
            final(self).wf(),
            final(self)@ == old(self)@.failed(),
    {
        proof {
            lemma_all_writes(self.readings@, self.mode);
            lemma_changing(self.readings@, self.mode);
        }
        assert(write_pairs(self.writes@).len() == self.writes@.len());
        assert(indices(self.resets@).len() == self.resets@.len());
        let device: usize = match self.phase {
            Phase::Write => {
                assert(write_pairs(self.writes@)[self.at as int].0 == self.writes@[self.at as int].0);
                self.writes[self.at].0
            },
            Phase::Reset => {
                assert(indices(self.resets@)[self.at as int] == self.resets@[self.at as int] as int);
                self.resets[self.at]
            },
            _ => self.at,
        };
        assert(device == self@.device());
        let mut doing = match self.phase {
            Phase::Open => ": open for mode change".to_owned(),
            Phase::Read => ": read current mode".to_owned(),
            Phase::Write => ": set ".to_owned(),
            Phase::Reset => ": reset to activate ".to_owned(),
            Phase::Verify | Phase::Settled => ": verify mode".to_owned(),
        };
        match self.phase {
            Phase::Write | Phase::Reset => {
                doing.append(self.mode.name());
            },
            _ => {},
        }
        assert(doing@ =~= self@.doing());
        let stop = fail_at(self.devices[device].address.as_str(), doing.as_str());
        self.stop = Some(stop);
    }

    /// Take the report on the work at hand.
    pub fn step(&mut self, report: Report)
        requires
            old(self).wf(),
        ensures
            final(self).wf(),
            final(self)@ == old(self)@.after(report),
    {
        if self.stop.is_some() {
            return;
        }
        proof {
            lemma_after(self@, report);
        }
        assert(write_pairs(self.writes@).len() == self.writes@.len());
        assert(indices(self.resets@).len() == self.resets@.len());
        match (self.phase, report) {
            (Phase::Settled, _) => {},
            (Phase::Open, Report::Done) | (Phase::Write, Report::Done) | (
                Phase::Reset,
                Report::Done,
            ) => {
                self.advance();
            },
            (Phase::Read, Report::Read(reading)) => {
                if reading.comes_from(self.devices[self.at].kind) {
                    self.note(reading.current());
                    self.advance();
                } else {
                    self.fail();
                }
            },
            (Phase::Verify, Report::Read(reading)) => {
                if !reading.comes_from(self.devices[self.at].kind) {
                    self.fail();
                } else {
                    match verify(
                        self.devices[self.at].address.as_str(),
                        reading.current(),
                        self.mode,
                    ) {
                        Ok(_) => {
                            self.advance();
                        },
                        Err(refusal) => {
                            self.stop = Some(Stop::Refused { message: refusal.message });
                        },
                    }
                }
            },
            _ => {
                self.fail();
            },
        }
    }

    /// Note what the next device read, and what it calls for.
    fn note(&mut self, modes: Modes)
        requires
            old(self).caches_hold(),
            old(self)@.readings.len() < old(self)@.devices.len(),
        ensures
            final(self).caches_hold(),
            final(self)@ == (Progress { readings: old(self)@.readings.push(modes), ..old(self)@ }),
    {
        let device: usize = self.readings.len();
        let ghost before = self.readings@;
        let ghost all = before.push(modes);
        assert(all.drop_last() == before);
        let writes = writes_for(modes.cc, modes.ppcie, self.mode);
        let ghost earlier = self.writes@;
        for i in 0..writes.len()
            invariant
                self.mode == old(self).mode,
                self.devices == old(self).devices,
                self.readings == old(self).readings,
                self.resets == old(self).resets,
                self.phase == old(self).phase,
                self.at == old(self).at,
                self.stop == old(self).stop,
                write_pairs(self.writes@) == write_pairs(earlier) + to_device(
                    writes@.take(i as int),
                    device as int,
                ),
        {
            let ghost so_far = self.writes@;
            self.writes.push((device, writes[i]));
            assert(write_pairs(self.writes@) =~= write_pairs(so_far).push(
                (device as int, writes@[i as int]),
            ));
            assert(to_device(writes@.take(i + 1), device as int) =~= to_device(
                writes@.take(i as int),
                device as int,
            ).push((device as int, writes@[i as int])));
            assert(write_pairs(self.writes@) =~= write_pairs(earlier) + to_device(
                writes@.take(i + 1),
                device as int,
            ));
        }
        assert(writes@.take(writes@.len() as int) == writes@);
        proof {
            crate::nvidia::law_a_device_in_the_mode_is_left_alone(modes, self.mode);
        }
        let ghost resets_before = self.resets@;
        if writes.len() > 0 {
            self.resets.push(device);
            assert(indices(self.resets@) =~= indices(resets_before).push(device as int));
        }
        self.readings.push(modes);
    }

    /// What became of each device: whether it was in the mode already.
    pub fn outcomes(&self) -> (r: Vec<(String, Transition)>)
        requires
            self.wf(),
        ensures
            outcome_texts(r@) == self@.outcomes(),
    {
        let mut out: Vec<(String, Transition)> = Vec::new();
        for i in 0..self.readings.len()
            invariant
                self.wf(),
                outcome_texts(out@) == self@.outcomes().take(i as int),
        {
            let modes = self.readings[i];
            let transition = if writes_for(modes.cc, modes.ppcie, self.mode).len() == 0 {
                Transition::AlreadySet
            } else {
                Transition::Applied
            };
            proof {
                crate::nvidia::law_a_device_in_the_mode_is_left_alone(modes, self.mode);
            }
            let ghost so_far = out@;
            out.push((self.devices[i].address.clone(), transition));
            assert(outcome_texts(out@) =~= outcome_texts(so_far).push(self@.outcomes()[i as int]));
            assert(outcome_texts(out@) =~= self@.outcomes().take(i + 1));
        }
        assert(self@.outcomes().take(self.readings@.len() as int) =~= self@.outcomes());
        out
    }

    /// Why the run ended early, where it did.
    pub fn stop(&self) -> (r: Option<Stop>)
        ensures
            match (r, self@.stop) {
                (Some(stop), Some(text)) => stop@ == text,
                (None, None) => true,
                _ => false,
            },
    {
        match &self.stop {
            Some(stop) => Some(stop.clone()),
            None => None,
        }
    }
}

pub open spec fn outcome_texts(v: Seq<(String, Transition)>) -> Seq<(Seq<char>, Transition)> {
    v.map_values(|pair: (String, Transition)| (pair.0@, pair.1))
}

/// The work that `reports` were about, in order, in a run from `start`. Once a
/// run is over no more work is done.
pub open spec fn worked(start: Progress, reports: Seq<Report>) -> Seq<Work>
    decreases reports.len(),
{
    if reports.len() == 0 {
        Seq::empty()
    } else {
        let before = start.after_all(reports.drop_last());
        let earlier = worked(start, reports.drop_last());
        if before.over() {
            earlier
        } else {
            earlier.push(before.work())
        }
    }
}

pub open spec fn opens(n: nat) -> Seq<Work> {
    Seq::new(n, |i: int| Work::Open { device: i as usize })
}

pub open spec fn reads(n: nat) -> Seq<Work> {
    Seq::new(n, |i: int| Work::Read { device: i as usize })
}

pub open spec fn verifies(n: nat) -> Seq<Work> {
    Seq::new(n, |i: int| Work::Verify { device: i as usize })
}

pub open spec fn writing(writes: Seq<(int, Write)>) -> Seq<Work> {
    writes.map_values(
        |pair: (int, Write)| Work::Write { device: pair.0 as usize, write: pair.1 },
    )
}

pub open spec fn resetting(devices: Seq<int>) -> Seq<Work> {
    devices.map_values(|device: int| Work::Reset { device: device as usize })
}

impl Progress {
    /// The work that lies behind a run: each phase that is over in full, and
    /// of the current one what is done.
    pub open spec fn done(self) -> Seq<Work> {
        let n = self.devices.len();
        let writes = writing(all_writes(self.readings, self.mode));
        let resets = resetting(changing(self.readings, self.mode));
        match self.phase {
            Phase::Open => opens(self.at),
            Phase::Read => opens(n) + reads(self.at),
            Phase::Write => opens(n) + reads(n) + writes.take(self.at as int),
            Phase::Reset => opens(n) + reads(n) + writes + resets.take(self.at as int),
            Phase::Verify => opens(n) + reads(n) + writes + resets + verifies(self.at),
            Phase::Settled => opens(n) + reads(n) + writes + resets + verifies(n),
        }
    }

    /// The work that a run stopped at.
    pub open spec fn broken_off(self) -> Seq<Work> {
        if self.stop is Some {
            seq![self.at_hand()]
        } else {
            Seq::empty()
        }
    }
}

proof fn lemma_onward_keeps_done(p: Progress)
    requires
        p.at <= p.size(),
    ensures
        p.onward().done() == p.done(),
    decreases 5 - p.phase.rank(),
{
    if p.at >= p.size() {
        let writes = writing(all_writes(p.readings, p.mode));
        let resets = resetting(changing(p.readings, p.mode));
        match p.phase {
            Phase::Open => {
                assert(p.in_phase(Phase::Read).done() =~= p.done());
                lemma_onward_keeps_done(p.in_phase(Phase::Read));
            },
            Phase::Read => {
                assert(p.in_phase(Phase::Write).done() =~= p.done());
                lemma_onward_keeps_done(p.in_phase(Phase::Write));
            },
            Phase::Write => {
                assert(writes.take(p.at as int) =~= writes);
                assert(p.in_phase(Phase::Reset).done() =~= p.done());
                lemma_onward_keeps_done(p.in_phase(Phase::Reset));
            },
            Phase::Reset => {
                assert(resets.take(p.at as int) =~= resets);
                assert(p.in_phase(Phase::Verify).done() =~= p.done());
                lemma_onward_keeps_done(p.in_phase(Phase::Verify));
            },
            Phase::Verify => {
                assert(p.in_phase(Phase::Settled).done() =~= p.done());
            },
            Phase::Settled => {},
        }
    }
}

proof fn lemma_onward_keeps_stop(p: Progress)
    ensures
        p.onward().stop == p.stop,
    decreases 5 - p.phase.rank(),
{
    match p.phase {
        Phase::Open => lemma_onward_keeps_stop(p.in_phase(Phase::Read)),
        Phase::Read => lemma_onward_keeps_stop(p.in_phase(Phase::Write)),
        Phase::Write => lemma_onward_keeps_stop(p.in_phase(Phase::Reset)),
        Phase::Reset => lemma_onward_keeps_stop(p.in_phase(Phase::Verify)),
        _ => {},
    }
}

/// A step either finishes the work at hand or stops at it.
pub proof fn lemma_step_does_its_work(p: Progress, report: Report)
    requires
        p.sound(),
        !p.over(),
    ensures
        p.after(report).stop is None ==> p.after(report).done() == p.done().push(p.at_hand()),
        p.after(report).stop is Some ==> {
            &&& p.after(report).done() == p.done()
            &&& p.after(report).at_hand() == p.at_hand()
        },
{
    let q = p.after(report);
    let next = match (p.phase, report) {
        (Phase::Read, Report::Read(reading)) => Progress {
            readings: p.readings.push(reading.modes()),
            at: p.at + 1,
            ..p
        },
        _ => Progress { at: p.at + 1, ..p },
    };
    lemma_onward_keeps_stop(next);
    if q.stop is None {
        assert(q == next.onward());
        let writes = writing(all_writes(p.readings, p.mode));
        let resets = resetting(changing(p.readings, p.mode));
        match p.phase {
            Phase::Open => {
                assert(next.done() =~= p.done().push(p.at_hand()));
            },
            Phase::Read => {
                assert(next.done() =~= p.done().push(p.at_hand()));
            },
            Phase::Write => {
                assert(writes.take(p.at as int + 1) =~= writes.take(p.at as int).push(p.at_hand()));
                assert(next.done() =~= p.done().push(p.at_hand()));
            },
            Phase::Reset => {
                assert(resets.take(p.at as int + 1) =~= resets.take(p.at as int).push(p.at_hand()));
                assert(next.done() =~= p.done().push(p.at_hand()));
            },
            Phase::Verify => {
                assert(next.done() =~= p.done().push(p.at_hand()));
            },
            Phase::Settled => {},
        }
        lemma_onward_keeps_done(next);
    }
}

pub proof fn lemma_begun(states: Seq<DeviceState>, mode: Mode)
    ensures
        begun(states, mode).sound(),
        begun(states, mode).mode == mode,
        begun(states, mode).devices == targets(states),
        begun(states, mode).done() == Seq::<Work>::empty(),
        begun(states, mode).stop is None,
{
    let p = Progress {
        mode,
        devices: targets(states),
        readings: Seq::empty(),
        phase: Phase::Open,
        at: 0,
        stop: None,
    };
    lemma_onward(p);
    lemma_onward_keeps_done(p);
    assert(p.done() =~= Seq::<Work>::empty());
}

/// A verification that a run went on after read the mode.
spec fn verified(works: Seq<Work>, reports: Seq<Report>, mode: Mode, k: int) -> bool {
    works[k] is Verify ==> (reports[k] matches Report::Read(reading) && reading.modes().are(mode))
}

proof fn lemma_history(states: Seq<DeviceState>, mode: Mode, reports: Seq<Report>)
    ensures
        ({
            let start = begun(states, mode);
            let end = start.after_all(reports);
            let works = worked(start, reports);
            &&& end.sound()
            &&& end.mode == mode
            &&& end.devices == targets(states)
            &&& works == end.done() + end.broken_off()
            &&& works.len() <= reports.len()
            &&& !end.over() ==> works.len() == reports.len()
            &&& forall|k: int|
                0 <= k < end.done().len() ==> #[trigger] verified(works, reports, mode, k)
        }),
    decreases reports.len(),
{
    let start = begun(states, mode);
    lemma_begun(states, mode);
    if reports.len() == 0 {
        assert(worked(start, reports) =~= start.done() + start.broken_off());
    } else {
        let front = reports.drop_last();
        lemma_history(states, mode, front);
        let before = start.after_all(front);
        let earlier = worked(start, front);
        let end = start.after_all(reports);
        let works = worked(start, reports);
        lemma_after(before, reports.last());
        if before.over() {
            assert(works == earlier);
        } else {
            lemma_step_does_its_work(before, reports.last());
            assert(earlier =~= before.done());
            assert(works =~= end.done() + end.broken_off());
        }
        assert forall|k: int| 0 <= k < end.done().len() implies #[trigger] verified(
            works,
            reports,
            mode,
            k,
        ) by {
            if k < before.done().len() {
                assert(verified(earlier, front, mode, k));
                assert(works[k] == earlier[k]);
                assert(reports[k] == front[k]);
            } else {
                assert(works[k] == before.at_hand());
                assert(k == reports.len() - 1);
            }
        }
    }
}

/// A run stays with the devices it began with.
pub proof fn lemma_run_devices(states: Seq<DeviceState>, mode: Mode, reports: Seq<Report>)
    ensures
        begun(states, mode).after_all(reports).devices == targets(states),
{
    lemma_history(states, mode, reports);
}

/// A run does its work phase by phase: it opens every device, reads every
/// device, makes the writes that the readings call for, resets the devices
/// that were written to, and reads every device once more. Wherever it stands,
/// what it has done is the beginning of that, and the work it broke off at
/// where it stopped.
pub proof fn law_a_run_goes_phase_by_phase(
    states: Seq<DeviceState>,
    mode: Mode,
    reports: Seq<Report>,
)
    ensures
        ({
            let end = begun(states, mode).after_all(reports);
            worked(begun(states, mode), reports) == end.done() + end.broken_off()
        }),
{
    lemma_history(states, mode, reports);
}

/// Before anything is written or reset, every device with modes to set has
/// been opened and read.
pub proof fn law_all_are_read_before_any_is_touched(
    states: Seq<DeviceState>,
    mode: Mode,
    reports: Seq<Report>,
    k: int,
    device: usize,
)
    requires
        0 <= k < worked(begun(states, mode), reports).len(),
        worked(begun(states, mode), reports)[k] is Write || worked(
            begun(states, mode),
            reports,
        )[k] is Reset,
        device < targets(states).len(),
    ensures
        exists|i: int, j: int|
            {
                &&& 0 <= i < j < k
                &&& #[trigger] worked(begun(states, mode), reports)[i] == (Work::Open { device })
                &&& #[trigger] worked(begun(states, mode), reports)[j] == (Work::Read { device })
            },
{
    lemma_history(states, mode, reports);
    let works = worked(begun(states, mode), reports);
    let end = begun(states, mode).after_all(reports);
    let n = end.devices.len();
    assert(end.phase.rank() >= 2);
    assert(k >= 2 * n) by {
        if k < n {
            assert(works[k] == opens(n)[k]);
        } else if k < 2 * n {
            assert(works[k] == reads(n)[k - n]);
        }
    }
    assert(works[device as int] == opens(n)[device as int]);
    assert(works[n + device] == reads(n)[device as int]);
}

/// No device is reset before every write of the whole board was made.
pub proof fn law_no_reset_before_the_last_write(
    states: Seq<DeviceState>,
    mode: Mode,
    reports: Seq<Report>,
    k: int,
    w: int,
)
    requires
        0 <= k < worked(begun(states, mode), reports).len(),
        worked(begun(states, mode), reports)[k] is Reset,
        0 <= w < all_writes(begun(states, mode).after_all(reports).readings, mode).len(),
    ensures
        exists|j: int|
            {
                &&& 0 <= j < k
                &&& #[trigger] worked(begun(states, mode), reports)[j] == writing(
                    all_writes(begun(states, mode).after_all(reports).readings, mode),
                )[w]
            },
{
    lemma_history(states, mode, reports);
    let works = worked(begun(states, mode), reports);
    let end = begun(states, mode).after_all(reports);
    let n = end.devices.len();
    let writes = writing(all_writes(end.readings, mode));
    assert(end.phase.rank() >= 3) by {
        if end.phase == Phase::Write {
            let done = end.done();
            if k < done.len() {
                if k < n {
                    assert(works[k] == opens(n)[k]);
                } else if k < 2 * n {
                    assert(works[k] == reads(n)[k - n]);
                } else {
                    assert(works[k] == writes[k - 2 * n]);
                }
            }
        }
    }
    assert(k >= 2 * n + writes.len()) by {
        if k < n {
            assert(works[k] == opens(n)[k]);
        } else if k < 2 * n {
            assert(works[k] == reads(n)[k - n]);
        } else if k < 2 * n + writes.len() {
            assert(works[k] == writes[k - 2 * n]);
        }
    }
    assert(works[2 * n + w] == writes[w]);
}

/// Only a device that was not in the mode is written to or reset, and what is
/// written to it is what its reading calls for.
pub proof fn law_only_what_changes_is_touched(
    states: Seq<DeviceState>,
    mode: Mode,
    reports: Seq<Report>,
    k: int,
)
    requires
        0 <= k < worked(begun(states, mode), reports).len(),
        targets(states).len() <= usize::MAX,
    ensures
        match worked(begun(states, mode), reports)[k] {
            Work::Write { device, write } => {
                let readings = begun(states, mode).after_all(reports).readings;
                &&& device < readings.len()
                &&& !readings[device as int].are(mode)
                &&& crate::nvidia::planned(readings[device as int], mode).contains(write)
            },
            Work::Reset { device } => {
                let readings = begun(states, mode).after_all(reports).readings;
                &&& device < readings.len()
                &&& !readings[device as int].are(mode)
            },
            _ => true,
        },
{
    lemma_history(states, mode, reports);
    let works = worked(begun(states, mode), reports);
    let end = begun(states, mode).after_all(reports);
    let n = end.devices.len();
    let all = all_writes(end.readings, mode);
    let turned = changing(end.readings, mode);
    lemma_all_writes(end.readings, mode);
    lemma_changing(end.readings, mode);
    match works[k] {
        Work::Write { device, write } => {
            let i = k - 2 * n;
            assert(k >= 2 * n) by {
                if k < n {
                    assert(works[k] == opens(n)[k]);
                } else if k < 2 * n {
                    assert(works[k] == reads(n)[k - n]);
                }
            }
            assert(i < all.len()) by {
                if i >= all.len() {
                    if i < all.len() + turned.len() {
                        assert(works[k] == resetting(turned)[i - all.len()]);
                    } else if i < all.len() + turned.len() + n {
                        assert(works[k] == verifies(n)[i - all.len() - turned.len()]);
                    }
                }
            }
            assert(works[k] == writing(all)[i]);
            crate::nvidia::law_a_device_in_the_mode_is_left_alone(end.readings[all[i].0], mode);
        },
        Work::Reset { device } => {
            let i = k - 2 * n - all.len();
            assert(i >= 0) by {
                if k < n {
                    assert(works[k] == opens(n)[k]);
                } else if k < 2 * n {
                    assert(works[k] == reads(n)[k - n]);
                } else if i < 0 {
                    assert(works[k] == writing(all)[k - 2 * n]);
                }
            }
            assert(i < turned.len()) by {
                if turned.len() <= i < turned.len() + n {
                    assert(works[k] == verifies(n)[i - turned.len()]);
                }
            }
            assert(works[k] == resetting(turned)[i]);
        },
        _ => {},
    }
}

/// On a board that is in the mode already, nothing is written and nothing is
/// reset.
pub proof fn law_a_board_in_the_mode_is_left_alone(
    states: Seq<DeviceState>,
    mode: Mode,
    reports: Seq<Report>,
    k: int,
)
    requires
        0 <= k < worked(begun(states, mode), reports).len(),
        targets(states).len() <= usize::MAX,
        forall|i: int|
            0 <= i < begun(states, mode).after_all(reports).readings.len() ==> (
            #[trigger] begun(states, mode).after_all(reports).readings[i]).are(mode),
    ensures
        !(worked(begun(states, mode), reports)[k] is Write),
        !(worked(begun(states, mode), reports)[k] is Reset),
{
    law_only_what_changes_is_touched(states, mode, reports, k);
}

/// A run settles only where every device, read once more after the resets, is
/// in the mode.
pub proof fn law_a_settled_board_is_in_the_mode(
    states: Seq<DeviceState>,
    mode: Mode,
    reports: Seq<Report>,
    device: usize,
)
    requires
        begun(states, mode).after_all(reports).work() == Work::Settled,
        device < targets(states).len(),
    ensures
        exists|k: int|
            {
                &&& 0 <= k < worked(begun(states, mode), reports).len()
                &&& #[trigger] worked(begun(states, mode), reports)[k] == (Work::Verify { device })
                &&& reports[k] matches Report::Read(reading)
                &&& reading.modes().are(mode)
            },
{
    lemma_history(states, mode, reports);
    let works = worked(begun(states, mode), reports);
    let end = begun(states, mode).after_all(reports);
    let n = end.devices.len();
    let k = end.done().len() - n + device;
    assert(works[k] == verifies(n)[device as int]);
    assert(verified(works, reports, mode, k));
}

/// An NVSwitch is never sent a CC mode, which it does not have.
pub proof fn law_a_switch_is_sent_no_cc_mode(
    states: Seq<DeviceState>,
    mode: Mode,
    reports: Seq<Report>,
    k: int,
)
    requires
        0 <= k < worked(begun(states, mode), reports).len(),
        targets(states).len() <= usize::MAX,
    ensures
        worked(begun(states, mode), reports)[k] matches Work::Write { device, write }
            ==> targets(states)[device as int].1 == HandleKind::Switch ==> !(write is Cc),
{
    lemma_history(states, mode, reports);
    law_only_what_changes_is_touched(states, mode, reports, k);
    if let Work::Write { device, write } = worked(begun(states, mode), reports)[k] {
        let readings = begun(states, mode).after_all(reports).readings;
        let plan = crate::nvidia::planned(readings[device as int], mode);
        let i = choose|i: int| 0 <= i < plan.len() && plan[i] == write;
        crate::nvidia::law_writes_fit_the_device(readings[device as int], mode, i);
    }
}

/// The writes that a board is planned for a device are those that the device's
/// own reading calls for, in their order.
pub proof fn law_a_device_gets_its_own_plan(readings: Seq<Modes>, mode: Mode, device: int)
    requires
        0 <= device < readings.len(),
    ensures
        all_writes(readings, mode).filter(|pair: (int, Write)| pair.0 == device) == to_device(
            crate::nvidia::planned(readings[device], mode),
            device,
        ),
    decreases readings.len(),
{
    let mine = |pair: (int, Write)| pair.0 == device;
    let front = readings.drop_last();
    let plan = to_device(crate::nvidia::planned(readings.last(), mode), readings.len() - 1);
    let earlier = all_writes(front, mode);
    lemma_all_writes(front, mode);
    Seq::filter_distributes_over_add(earlier, plan, mine);
    if device == readings.len() - 1 {
        crate::filter::lemma_filter_none(earlier, mine);
        crate::filter::lemma_filter_all(plan, mine);
        assert(earlier.filter(mine) + plan.filter(mine) =~= plan);
    } else {
        law_a_device_gets_its_own_plan(front, mode, device);
        crate::filter::lemma_filter_none(plan, mine);
        assert(front[device] == readings[device]);
        assert(earlier.filter(mine) + plan.filter(mine) =~= earlier.filter(mine));
    }
}

/// A second run over the same board finds nothing to write: the writes of the
/// first have brought every device into the mode.
pub proof fn law_the_second_run_over_a_board_writes_nothing(readings: Seq<Modes>, mode: Mode)
    ensures
        all_writes(
            readings.map_values(
                |modes: Modes|
                    crate::nvidia::after_writes(modes, crate::nvidia::planned(modes, mode)),
            ),
            mode,
        ).len() == 0,
    decreases readings.len(),
{
    let reached = |modes: Modes|
        crate::nvidia::after_writes(modes, crate::nvidia::planned(modes, mode));
    if readings.len() > 0 {
        law_the_second_run_over_a_board_writes_nothing(readings.drop_last(), mode);
        crate::nvidia::law_the_second_run_writes_nothing(readings.last(), mode);
        assert(readings.map_values(reached).drop_last() =~= readings.drop_last().map_values(
            reached,
        ));
    }
}

/// Every device that was read is in the mode.
pub open spec fn all_in_mode(readings: Seq<Modes>, mode: Mode) -> bool {
    forall|i: int| 0 <= i < readings.len() ==> (#[trigger] readings[i]).are(mode)
}

proof fn lemma_nothing_changes(readings: Seq<Modes>, mode: Mode)
    requires
        all_in_mode(readings, mode),
    ensures
        all_writes(readings, mode).len() == 0,
        changing(readings, mode).len() == 0,
    decreases readings.len(),
{
    if readings.len() > 0 {
        let front = readings.drop_last();
        assert forall|i: int| 0 <= i < front.len() implies (#[trigger] front[i]).are(mode) by {
            assert(readings[i].are(mode));
        }
        lemma_nothing_changes(front, mode);
        assert(readings[readings.len() - 1].are(mode));
        crate::nvidia::law_a_device_in_the_mode_is_left_alone(readings.last(), mode);
    }
}

impl Progress {
    /// The run has found every device in the mode so far, and has nothing to
    /// write or reset.
    pub open spec fn is_quiet(self) -> bool {
        &&& self.stop is None
        &&& all_in_mode(self.readings, self.mode)
        &&& self.phase != Phase::Write && self.phase != Phase::Reset
    }

    /// How much work is left where nothing is written or reset.
    pub open spec fn left(self) -> int {
        let n = self.devices.len() as int;
        match self.phase {
            Phase::Open => 3 * n - self.at,
            Phase::Read => 2 * n - self.at,
            Phase::Verify => n - self.at,
            _ => 0,
        }
    }

    /// What a board that is in the mode answers to the work at hand.
    pub open spec fn undisturbed(self, report: Report) -> bool {
        match self.phase {
            Phase::Open | Phase::Write | Phase::Reset => report == Report::Done,
            Phase::Read | Phase::Verify => report matches Report::Read(reading)
                && reading.is_of(self.devices[self.device()].1) && reading.modes().are(self.mode),
            Phase::Settled => true,
        }
    }
}

proof fn lemma_quiet_onward(p: Progress)
    requires
        p.is_quiet(),
        p.at <= p.size(),
        p.phase == Phase::Settled ==> p.at == 0,
    ensures
        p.onward().is_quiet(),
        p.onward().left() <= p.left(),
        p.phase != Phase::Settled ==> p.onward().left() >= 0,
{
    lemma_nothing_changes(p.readings, p.mode);
    reveal_with_fuel(Progress::onward, 6);
}

/// A run over a board that is in the mode begins with nothing to write.
pub proof fn lemma_quiet_begin(states: Seq<DeviceState>, mode: Mode)
    ensures
        begun(states, mode).is_quiet(),
        begun(states, mode).left() <= 3 * targets(states).len(),
{
    lemma_quiet_onward(
        Progress {
            mode,
            devices: targets(states),
            readings: Seq::empty(),
            phase: Phase::Open,
            at: 0,
            stop: None,
        },
    );
}

/// A run over a board that is in the mode goes on with nothing to write, and
/// comes nearer to its end with every answer.
pub proof fn lemma_quiet_step(p: Progress, report: Report)
    requires
        p.sound(),
        p.is_quiet(),
        !p.over(),
        p.undisturbed(report),
    ensures
        p.after(report).is_quiet(),
        p.after(report).left() < p.left(),
{
    let next = match (p.phase, report) {
        (Phase::Read, Report::Read(reading)) => Progress {
            readings: p.readings.push(reading.modes()),
            at: p.at + 1,
            ..p
        },
        _ => Progress { at: p.at + 1, ..p },
    };
    assert(all_in_mode(next.readings, next.mode)) by {
        assert forall|i: int| 0 <= i < next.readings.len() implies (
        #[trigger] next.readings[i]).are(next.mode) by {
            if i < p.readings.len() {
                assert(p.readings[i].are(p.mode));
            }
        }
    }
    assert(p.after(report) == next.onward());
    lemma_quiet_onward(next);
}

proof fn lemma_few_writes(readings: Seq<Modes>, mode: Mode)
    ensures
        all_writes(readings, mode).len() <= 2 * readings.len(),
        changing(readings, mode).len() <= readings.len(),
    decreases readings.len(),
{
    if readings.len() > 0 {
        lemma_few_writes(readings.drop_last(), mode);
        crate::nvidia::law_only_turning_everything_off_takes_two_writes(readings.last(), mode);
    }
}

/// However a run over a board goes, it has done no more than this: each device
/// opened, read, written to twice, reset and read again.
pub proof fn lemma_little_is_done(p: Progress)
    requires
        p.sound(),
    ensures
        p.done().len() <= 6 * p.devices.len(),
        p.phase != Phase::Settled ==> p.done().len() < 6 * p.devices.len(),
{
    lemma_few_writes(p.readings, p.mode);
}

/// A run over a board ends, whatever is reported: after six reports for each of
/// its devices at the latest.
pub proof fn law_a_board_run_ends(states: Seq<DeviceState>, mode: Mode, reports: Seq<Report>)
    requires
        reports.len() >= 6 * targets(states).len(),
    ensures
        begun(states, mode).after_all(reports).over(),
{
    lemma_history(states, mode, reports);
    let end = begun(states, mode).after_all(reports);
    lemma_little_is_done(end);
}

/// The board is its GPUs with a CC chip and its NVSwitches, in their order, each
/// opened as what it is. Nothing else on it has modes to set.
pub proof fn law_a_board_is_its_gpus_and_switches(
    a: Seq<DeviceState>,
    b: Seq<DeviceState>,
    state: DeviceState,
)
    ensures
        targets(a + b) == targets(a) + targets(b),
        targets(seq![state]) == (match state.row {
            Some(row) => match row.provisioning {
                crate::device::Provisioning::NvidiaInBandCc => if state.cc_chip is Some {
                    seq![(state.address@, HandleKind::Gpu)]
                } else {
                    Seq::empty()
                },
                crate::device::Provisioning::NvidiaInBandPpcie => seq![
                    (state.address@, HandleKind::Switch),
                ],
            },
            None => Seq::empty(),
        }),
    decreases b.len(),
{
    reveal_with_fuel(targets, 2);
    crate::nvidia::law_what_is_opened_for_its_modes(state);
    let one = seq![state];
    assert(one.drop_last() =~= Seq::<DeviceState>::empty());
    if crate::nvidia::handle_of(state) is Some {
        assert(targets(one) =~= seq![(state.address@, crate::nvidia::handle_of(state)->0)]);
    }
    if b.len() == 0 {
        assert(a + b =~= a);
        assert(targets(a + b) =~= targets(a) + targets(b));
    } else {
        assert((a + b).drop_last() =~= a + b.drop_last());
        law_a_board_is_its_gpus_and_switches(a, b.drop_last(), state);
        assert(targets(a + b) =~= targets(a) + targets(b));
    }
}

/// The devices that are reset are exactly those that were not in the mode, in
/// order, and the writes are theirs, device by device, as each one's reading
/// calls for.
pub proof fn law_what_was_not_in_the_mode_changes(readings: Seq<Modes>, modes: Modes, mode: Mode)
    ensures
        forall|device: int| #[trigger]
            changing(readings, mode).contains(device) <==> 0 <= device < readings.len()
                && !readings[device].are(mode),
        forall|i: int, j: int|
            0 <= i < j < changing(readings, mode).len() ==> #[trigger] changing(readings, mode)[i]
                < #[trigger] changing(readings, mode)[j],
        all_writes(Seq::empty(), mode).len() == 0,
        all_writes(readings.push(modes), mode) == all_writes(readings, mode)
            + crate::nvidia::planned(modes, mode).map_values(
            |write: Write| (readings.len() as int, write),
        ),
{
    lemma_changing(readings, mode);
    assert(readings.push(modes).drop_last() =~= readings);
    assert forall|device: int| #[trigger] changing(readings, mode).contains(device) implies 0
        <= device < readings.len() && !readings[device].are(mode) by {
        let k = choose|k: int|
            0 <= k < changing(readings, mode).len() && changing(readings, mode)[k] == device;
        assert(changing(readings, mode)[k] == device);
    }
    assert(all_writes(readings.push(modes), mode) =~= all_writes(readings, mode)
        + crate::nvidia::planned(modes, mode).map_values(
        |write: Write| (readings.len() as int, write),
    ));
}

/// The report is the success of the work, and a first reading is noted.
spec fn answered(work: Work, report: Report, p: Progress) -> bool {
    match work {
        Work::Open { .. } | Work::Write { .. } | Work::Reset { .. } => report == Report::Done,
        Work::Read { device } => {
            &&& report matches Report::Read(reading)
            &&& device < p.readings.len()
            &&& reading.is_of(p.devices[device as int].1)
            &&& p.readings[device as int] == reading.modes()
        },
        Work::Verify { device } => {
            &&& report matches Report::Read(reading)
            &&& reading.is_of(p.devices[device as int].1)
            &&& reading.modes().are(p.mode)
        },
        _ => false,
    }
}

proof fn lemma_readings_grow(p: Progress, report: Report)
    requires
        p.sound(),
        !p.over(),
        p.devices.len() <= usize::MAX,
    ensures
        p.after(report).readings.len() >= p.readings.len(),
        forall|i: int|
            0 <= i < p.readings.len() ==> #[trigger] p.after(report).readings[i] == p.readings[i],
        p.after(report).stop is None ==> answered(p.at_hand(), report, p.after(report)),
{
    lemma_after(p, report);
    let next = match (p.phase, report) {
        (Phase::Read, Report::Read(reading)) => Progress {
            readings: p.readings.push(reading.modes()),
            at: p.at + 1,
            ..p
        },
        _ => Progress { at: p.at + 1, ..p },
    };
    lemma_onward_keeps_stop(next);
    if p.after(report).stop is None {
        assert(p.after(report) == next.onward());
        lemma_onward(next);
    }
}

proof fn lemma_answers(states: Seq<DeviceState>, mode: Mode, reports: Seq<Report>)
    requires
        targets(states).len() <= usize::MAX,
    ensures
        ({
            let end = begun(states, mode).after_all(reports);
            let works = worked(begun(states, mode), reports);
            forall|k: int|
                0 <= k < end.done().len() ==> #[trigger] answered(works[k], reports[k], end)
        }),
    decreases reports.len(),
{
    let start = begun(states, mode);
    lemma_begun(states, mode);
    if reports.len() > 0 {
        let front = reports.drop_last();
        lemma_answers(states, mode, front);
        lemma_history(states, mode, front);
        let before = start.after_all(front);
        let earlier = worked(start, front);
        let end = start.after_all(reports);
        let works = worked(start, reports);
        if !before.over() {
            lemma_readings_grow(before, reports.last());
            lemma_step_does_its_work(before, reports.last());
            lemma_after(before, reports.last());
        }
        assert forall|k: int| 0 <= k < end.done().len() implies #[trigger] answered(
            works[k],
            reports[k],
            end,
        ) by {
            if k < before.done().len() {
                assert(answered(earlier[k], front[k], before));
                assert(works[k] == earlier[k]);
                assert(reports[k] == front[k]);
            } else {
                assert(works[k] == before.at_hand());
                assert(k == reports.len() - 1);
            }
        }
    }
}

/// A board that has settled was opened, read, written to where its readings
/// called for it, reset where it was written to, and read once more, in that
/// order, each device in its turn, and all of it with success.
pub proof fn law_a_settled_board_did_it_all(
    states: Seq<DeviceState>,
    mode: Mode,
    reports: Seq<Report>,
    k: int,
)
    requires
        targets(states).len() <= usize::MAX,
        begun(states, mode).after_all(reports).work() == Work::Settled,
        0 <= k < worked(begun(states, mode), reports).len(),
    ensures
        ({
            let works = worked(begun(states, mode), reports);
            let readings = begun(states, mode).after_all(reports).readings;
            let n = targets(states).len();
            &&& readings.len() == n
            &&& works == Seq::new(n, |i: int| Work::Open { device: i as usize }) + Seq::new(
                n,
                |i: int| Work::Read { device: i as usize },
            ) + all_writes(readings, mode).map_values(
                |pair: (int, Write)| Work::Write { device: pair.0 as usize, write: pair.1 },
            ) + changing(readings, mode).map_values(
                |device: int| Work::Reset { device: device as usize },
            ) + Seq::new(n, |i: int| Work::Verify { device: i as usize })
            &&& match works[k] {
                Work::Open { .. } | Work::Write { .. } | Work::Reset { .. } => reports[k]
                    == Report::Done,
                Work::Read { device } => {
                    &&& reports[k] matches Report::Read(reading)
                    &&& device < n
                    &&& (reading is Gpu) <==> targets(states)[device as int].1 == HandleKind::Gpu
                    &&& readings[device as int] == reading.modes()
                },
                Work::Verify { device } => {
                    &&& reports[k] matches Report::Read(reading)
                    &&& (reading is Gpu) <==> targets(states)[device as int].1 == HandleKind::Gpu
                    &&& reading.modes().are(mode)
                },
                _ => false,
            }
        }),
{
    lemma_history(states, mode, reports);
    lemma_answers(states, mode, reports);
    let end = begun(states, mode).after_all(reports);
    let works = worked(begun(states, mode), reports);
    let n = targets(states).len();
    assert(works =~= end.done());
    assert(answered(works[k], reports[k], end));
    assert(end.done() =~= Seq::new(n, |i: int| Work::Open { device: i as usize }) + Seq::new(
        n,
        |i: int| Work::Read { device: i as usize },
    ) + all_writes(end.readings, mode).map_values(
        |pair: (int, Write)| Work::Write { device: pair.0 as usize, write: pair.1 },
    ) + changing(end.readings, mode).map_values(
        |device: int| Work::Reset { device: device as usize },
    ) + Seq::new(n, |i: int| Work::Verify { device: i as usize }));
}

/// A run over a board stops where something fails, and says at which device and
/// what was being done: any report but the success of the work is a failure of
/// it. A device that does not read the mode at the end is told what it reads.
pub proof fn law_a_board_stops_at_a_failure(p: Progress, report: Report)
    requires
        p.sound(),
        !p.over(),
    ensures
        p.phase == Phase::Open && report != Report::Done ==> p.after(report) == (Progress {
            stop: Some(
                crate::refusal::StopText::Failed {
                    context: Some(p.devices[p.at as int].0 + ": open for mode change"@),
                },
            ),
            ..p
        }),
        p.phase == Phase::Read && !(report is Read) ==> p.after(report) == (Progress {
            stop: Some(
                crate::refusal::StopText::Failed {
                    context: Some(p.devices[p.at as int].0 + ": read current mode"@),
                },
            ),
            ..p
        }),
        p.phase == Phase::Write && report != Report::Done ==> p.after(report) == (Progress {
            stop: Some(
                crate::refusal::StopText::Failed {
                    context: Some(
                        p.devices[all_writes(p.readings, p.mode)[p.at as int].0].0 + (": set "@
                            + p.mode.text()),
                    ),
                },
            ),
            ..p
        }),
        p.phase == Phase::Reset && report != Report::Done ==> p.after(report) == (Progress {
            stop: Some(
                crate::refusal::StopText::Failed {
                    context: Some(
                        p.devices[changing(p.readings, p.mode)[p.at as int]].0 + (
                        ": reset to activate "@ + p.mode.text()),
                    ),
                },
            ),
            ..p
        }),
        p.phase == Phase::Verify && !(report is Read) ==> p.after(report) == (Progress {
            stop: Some(
                crate::refusal::StopText::Failed {
                    context: Some(p.devices[p.at as int].0 + ": verify mode"@),
                },
            ),
            ..p
        }),
        p.phase == Phase::Verify && (report matches Report::Read(reading) && ((reading is Gpu)
            <==> p.devices[p.at as int].1 == HandleKind::Gpu) && !reading.modes().are(p.mode))
            ==> p.after(report) == (Progress {
            stop: Some(
                crate::refusal::StopText::Refused {
                    message: crate::nvidia::mismatch(
                        p.devices[p.at as int].0,
                        report->Read_0.modes(),
                        p.mode,
                    ),
                },
            ),
            ..p
        }),
        (p.phase == Phase::Read || p.phase == Phase::Verify) && (report matches Report::Read(
            reading,
        ) && !((reading is Gpu) <==> p.devices[p.at as int].1 == HandleKind::Gpu))
            ==> p.after(report).stop is Some,
{
}

/// What became of a device: it was in the mode by its first reading, or it was
/// set and reset.
pub proof fn law_an_outcome_goes_by_the_first_reading(p: Progress, i: int)
    requires
        0 <= i < p.readings.len(),
    ensures
        p.outcomes().len() == p.readings.len(),
        p.outcomes()[i].0 == p.devices[i].0,
        p.outcomes()[i].1 == Transition::AlreadySet <==> p.readings[i].are(p.mode),
{
}

/// Targets and outcomes as text are what they hold, one for one.
pub proof fn law_target_texts_are_the_targets(
    v: Seq<Target>,
    outcomes: Seq<(String, Transition)>,
)
    ensures
        target_texts(v).len() == v.len(),
        forall|i: int|
            0 <= i < v.len() ==> #[trigger] target_texts(v)[i] == (v[i].address@, v[i].kind),
        outcome_texts(outcomes).len() == outcomes.len(),
        forall|i: int|
            0 <= i < outcomes.len() ==> #[trigger] outcome_texts(outcomes)[i] == (
                outcomes[i].0@,
                outcomes[i].1,
            ),
{
}

/// A run over a board goes on with every success: what was done is done, a first
/// reading of such a device is noted, and a last one in the mode is enough.
pub proof fn law_a_board_goes_on_with_success(p: Progress, report: Report)
    requires
        p.sound(),
        !p.over(),
        match p.phase {
            Phase::Open | Phase::Write | Phase::Reset => report == Report::Done,
            Phase::Read => report matches Report::Read(reading) && ((reading is Gpu)
                <==> p.devices[p.at as int].1 == HandleKind::Gpu),
            Phase::Verify => report matches Report::Read(reading) && ((reading is Gpu)
                <==> p.devices[p.at as int].1 == HandleKind::Gpu) && reading.modes().are(p.mode),
            Phase::Settled => false,
        },
    ensures
        p.after(report).stop is None,
        p.after(report).mode == p.mode,
        p.after(report).devices == p.devices,
        p.phase == Phase::Read ==> p.after(report).readings == p.readings.push(
            report->Read_0.modes(),
        ),
        p.phase != Phase::Read ==> p.after(report).readings == p.readings,
        p.phase == Phase::Verify && p.at + 1 < p.devices.len() ==> p.after(report).work()
            == (Work::Verify { device: (p.at + 1) as usize }),
        p.phase == Phase::Verify && p.at + 1 == p.devices.len() ==> p.after(report).work()
            == Work::Settled,
        p.phase == Phase::Open && p.at + 1 < p.devices.len() ==> p.after(report).work()
            == (Work::Open { device: (p.at + 1) as usize }),
        p.phase == Phase::Open && p.at + 1 == p.devices.len() ==> p.after(report).work()
            == (Work::Read { device: 0 }),
        p.phase == Phase::Read && p.at + 1 < p.devices.len() ==> p.after(report).work()
            == (Work::Read { device: (p.at + 1) as usize }),
{
    let next = match (p.phase, report) {
        (Phase::Read, Report::Read(reading)) => Progress {
            readings: p.readings.push(reading.modes()),
            at: p.at + 1,
            ..p
        },
        _ => Progress { at: p.at + 1, ..p },
    };
    lemma_after(p, report);
    lemma_onward_keeps_stop(next);
    assert(p.after(report) == next.onward());
    lemma_onward(next);
    reveal_with_fuel(Progress::onward, 3);
}

} // verus!
