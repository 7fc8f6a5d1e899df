//! Putting a node into a mode, one action at a time.
//!
//! The whole run is decided here: what is done next, what the answer to it
//! means, what is said, and where the run ends. Whoever runs it performs the
//! action that [`Run::action`] names and hands the outcome to [`Run::step`].
use vstd::prelude::*;

use crate::board::{ModeRun, Report, Work};
use crate::keyed::Keyed;
use crate::device::{discover, in_scope, DeviceState, PciDevice, Provisioning};
use crate::host::{check, HostFacts};
use crate::idle::{holders, NodePath, Process};
use crate::mode::Mode;
use crate::modules::{modules_alias, persist, BootPlan, FileAction};
use crate::numeral::decimal;
use crate::nvidia::{handle_for, verify_mode, Reading, Transition};
use crate::provision::{
    claims, is_kept, is_vfio_driver, passthrough_set, target_of, verify_capable, verify_idle,
    verify_variant_available, VfioDriver,
};
use crate::refusal::{fail_at, Stop};
use crate::text::join;

verus! {

/// The steps of a run, in the order in which they come. Devices are counted
/// through the devices in scope in `Idle`, `Ask` and `Release`, and through
/// those that are passed through in the others.
#[derive(Clone, Copy, Debug, PartialEq, Eq, Structural)]
pub enum Stage {
    Host,
    Enumerate,
    Idle(usize),
    Kernel,
    Find(usize),
    Load(usize),
    Driver(usize),
    Board,
    Files(usize),
    Bind(usize),
    Ask(usize),
    Release(usize),
    Bound(usize),
    Reopen(usize),
    Recheck(usize),
    Finished,
}

/// The next thing to do.
#[derive(Clone, Copy, Debug, PartialEq, Eq, Structural)]
pub enum Action {
    /// Look at the node's IOMMU groups and GPU drivers.
    ReadHost,
    /// Enumerate the PCI devices.
    Enumerate,
    /// Find who could hold the device, and what the node's processes hold.
    Scan { device: usize },
    /// Read the release of the running kernel.
    ReadRelease,
    /// Look up the device's module in the kernel's alias table.
    FindModule { device: usize },
    /// Load the module that was found.
    LoadModule { device: usize },
    /// Find the driver that the module registers.
    FindDriver { device: usize },
    /// Work on the modes of the board.
    Board(Work),
    /// Write or remove a file of the boot configuration.
    File { index: usize },
    /// Bind the device to its driver.
    Bind { device: usize },
    /// Ask which driver the device is bound to.
    AskDriver { device: usize },
    /// Unbind the device from the driver it is bound to.
    Unbind { device: usize },
    /// See that the device is bound to its driver.
    CheckBound { device: usize },
    /// Open the device once more.
    Reopen { device: usize },
    /// Read the modes of the device once more.
    Reread { device: usize },
    /// The node is provisioned.
    Finished,
    /// The run ended early: nothing more is to be done.
    Stopped,
}

/// How a device came to be bound.
#[derive(Clone, Copy, Debug, PartialEq, Eq, Structural)]
pub enum Bound {
    Already,
    Now,
}

/// What came of an action. One that does not answer the action counts as its
/// failure.
pub enum Event {
    Done,
    Failed,
    Host(HostFacts),
    Devices(Vec<PciDevice>),
    Scan(Vec<String>, Vec<Process>),
    KernelRelease(String),
    Module(String),
    Driver(String),
    Bound(Bound),
    Current(Option<String>),
    Read(Reading),
}

/// Where a run stands.
#[verifier::ext_equal]
pub struct RunState {
    pub mode: Mode,
    /// The directory that devices are enumerated from.
    pub devices_dir: Seq<char>,
    /// The file that the kernel release is read from.
    pub osrelease: Seq<char>,
    pub dev_vfio: Seq<Seq<char>>,
    pub stage: Stage,
    /// The devices in scope.
    pub states: Seq<DeviceState>,
    /// The path of the alias table, part by part.
    pub alias: Seq<Seq<char>>,
    /// The module of the device that is being resolved.
    pub module: Option<String>,
    pub drivers: Map<Seq<char>, VfioDriver>,
    pub board: crate::board::Progress,
    /// The driver that the device being released is bound to.
    pub held: Seq<char>,
    /// What has been said so far, line by line.
    pub said: Seq<Seq<char>>,
    pub stop: Option<crate::refusal::StopText>,
}

/// What is said of the GPUs that have no mode to set.
pub open spec fn bind_only(states: Seq<DeviceState>) -> Seq<Seq<char>>
    decreases states.len(),
{
    if states.len() == 0 {
        Seq::empty()
    } else {
        let earlier = bind_only(states.drop_last());
        if states.last().is_gpu() && !states.last().has_cc() {
            earlier.push(states.last().address@ + ": no CC support, bind only"@)
        } else {
            earlier
        }
    }
}

pub open spec fn outcome_line(
    states: Seq<DeviceState>,
    mode: Mode,
    outcome: (Seq<char>, Transition),
) -> Seq<char> {
    let target = crate::provision::target_text(states, outcome.0, mode);
    match outcome.1 {
        Transition::AlreadySet => outcome.0 + ": already "@ + target,
        Transition::Applied => outcome.0 + ": set to "@ + target + " and reset"@,
    }
}

/// What is said of the devices whose mode was set.
pub open spec fn outcome_lines(
    states: Seq<DeviceState>,
    mode: Mode,
    outcomes: Seq<(Seq<char>, Transition)>,
) -> Seq<Seq<char>> {
    outcomes.map_values(
        |outcome: (Seq<char>, Transition)| outcome_line(states, mode, outcome),
    )
}

/// What is said of the boot configuration.
pub open spec fn persist_lines(count: nat, carried: Seq<Seq<char>>) -> Seq<Seq<char>> {
    let written = "boot config written for "@ + crate::numeral::decimal_text(count as int)
        + " devices"@;
    if carried.len() == 0 {
        seq![written]
    } else {
        seq![
            written,
            crate::numeral::decimal_text(carried.len() as int)
                + " through a udev rule, which is what carries driver_override: "@
                + crate::text::joined(carried, ", "@),
        ]
    }
}

pub open spec fn bound_line(address: Seq<char>, bound: Bound, driver: Seq<char>) -> Seq<char> {
    match bound {
        Bound::Already => address + ": already bound to "@ + driver,
        Bound::Now => address + ": bound to "@ + driver,
    }
}

pub open spec fn finished_line(mode: Mode, count: nat) -> Seq<char> {
    "node provisioned: mode="@ + mode.text() + ", "@ + crate::numeral::decimal_text(count as int)
        + " devices"@
}

impl RunState {
    /// The devices that are passed through.
    pub open spec fn passed(self) -> Seq<DeviceState> {
        crate::provision::passed_through(self.states, self.mode)
    }

    pub open spec fn claims(self) -> Seq<crate::modules::Claim> {
        crate::provision::claims_of(self.passed(), self.drivers)
    }

    pub open spec fn at(self, stage: Stage) -> RunState {
        RunState { stage, ..self }
    }

    pub open spec fn saying(self, lines: Seq<Seq<char>>) -> RunState {
        RunState { said: self.said + lines, ..self }
    }

    pub open spec fn stopped(self, stop: crate::refusal::StopText) -> RunState {
        RunState { stop: Some(stop), ..self }
    }

    pub open spec fn refused(self, message: Seq<char>) -> RunState {
        self.stopped(crate::refusal::StopText::Refused { message })
    }

    pub open spec fn failed(self, context: Option<Seq<char>>) -> RunState {
        self.stopped(crate::refusal::StopText::Failed { context })
    }

    pub open spec fn over(self) -> bool {
        self.stop is Some || self.stage == Stage::Finished
    }

    pub open spec fn to_idle(self, i: int) -> RunState {
        if i < self.states.len() {
            self.at(Stage::Idle(i as usize))
        } else {
            self.at(Stage::Kernel)
        }
    }

    pub open spec fn to_find(self, i: int) -> RunState {
        if i < self.passed().len() {
            self.at(Stage::Find(i as usize))
        } else {
            RunState {
                board: crate::board::begun(self.states, self.mode),
                ..self.saying(bind_only(self.states))
            }.past_board()
        }
    }

    /// On with the board, or past it where it has settled.
    pub open spec fn past_board(self) -> RunState {
        match self.board.work() {
            Work::Settled => self.saying(
                outcome_lines(self.states, self.mode, self.board.outcomes()),
            ).at(Stage::Files(0)),
            Work::Stopped => self.at(Stage::Board).stopped(self.board.stop->0),
            _ => self.at(Stage::Board),
        }
    }

    pub open spec fn to_files(self, i: int) -> RunState {
        if i < crate::modules::boot_files(self.claims()).len() {
            self.at(Stage::Files(i as usize))
        } else {
            self.saying(
                persist_lines(self.passed().len(), crate::modules::overridden(self.claims())),
            ).to_bind(0)
        }
    }

    pub open spec fn to_bind(self, i: int) -> RunState {
        if i < self.passed().len() {
            self.at(Stage::Bind(i as usize))
        } else {
            self.to_ask(0)
        }
    }

    /// On to the next device that is not passed through. The boot config is
    /// rewritten from the new set, so a device dropped out of it is handed
    /// back now rather than at the next reboot.
    pub open spec fn to_ask(self, i: int) -> RunState
        decreases self.states.len() - i,
    {
        if i >= self.states.len() {
            self.to_bound(0)
        } else if crate::provision::has_address(self.passed(), self.states[i].address@) {
            self.to_ask(i + 1)
        } else {
            self.at(Stage::Ask(i as usize))
        }
    }

    pub open spec fn to_bound(self, i: int) -> RunState {
        if i < self.passed().len() {
            self.at(Stage::Bound(i as usize))
        } else {
            self.saying(seq![finished_line(self.mode, self.passed().len())]).at(Stage::Finished)
        }
    }

    /// What the report on the work of the board is, by the event.
    pub open spec fn report(event: Event) -> Report {
        match event {
            Event::Done => Report::Done,
            Event::Read(reading) => Report::Read(reading),
            _ => Report::Failed,
        }
    }

    pub open spec fn after_devices(self, devices: Seq<PciDevice>) -> RunState {
        let states = crate::device::scoped(crate::device::discovered(devices));
        if states.len() == 0 {
            self.refused(
                "no devices in scope: this node was selected for provisioning but has none"@,
            )
        } else {
            // Across every device before any is touched: refuse whole, not half.
            match crate::provision::incapacity(states, self.mode) {
                Some(message) => self.refused(message),
                None => RunState { states, ..self }.to_idle(0),
            }
        }
    }

    pub open spec fn after_scan(
        self,
        i: int,
        cdevs: Seq<Seq<char>>,
        processes: Seq<Process>,
    ) -> RunState {
        let found = crate::idle::holders_of(
            processes,
            crate::idle::nodes_of(self.dev_vfio, self.states[i].iommu_group, cdevs),
        );
        if found.len() > 0 {
            self.refused(crate::provision::in_use(self.states[i].address@, found[0]))
        } else {
            self.to_idle(i + 1)
        }
    }

    pub open spec fn after_module(self, i: int, module: String) -> RunState {
        let state = self.passed()[i];
        if state.c2c && !crate::modules::is_variant(module@) {
            self.refused(crate::provision::needs_variant(state, module@))
        } else {
            RunState { module: Some(module), ..self }.at(Stage::Load(i as usize))
        }
    }

    pub open spec fn after_driver(self, i: int, driver: String) -> RunState {
        RunState {
            drivers: self.drivers.insert(
                self.passed()[i].address@,
                VfioDriver { module: self.module->0, driver },
            ),
            ..self
        }.to_find(i + 1)
    }

    pub open spec fn after_recheck(self, i: int, reading: Reading) -> RunState {
        let state = self.passed()[i];
        if !reading.is_of(crate::nvidia::handle_of(state)->0) {
            self.failed(Some(state.address@ + ": verify mode"@))
        } else if reading.modes().are(self.mode) {
            self.to_bound(i + 1)
        } else {
            self.refused(crate::nvidia::mismatch(state.address@, reading.modes(), self.mode))
        }
    }

    /// What is said to have been going on when the action at hand fails.
    pub open spec fn doing(self) -> Option<Seq<char>> {
        match self.stage {
            Stage::Enumerate => Some("enumerate PCI devices under "@ + self.devices_dir),
            Stage::Kernel => Some("read the kernel release from "@ + self.osrelease),
            Stage::Find(i) => Some(
                self.passed()[i as int].address@ + ": find its vfio module"@,
            ),
            Stage::Load(i) => Some(
                self.passed()[i as int].address@ + (": load "@ + self.module->0@),
            ),
            Stage::Driver(i) => Some(
                self.passed()[i as int].address@ + (": find the driver "@ + self.module->0@
                    + " registers"@),
            ),
            Stage::Release(i) => Some(
                self.states[i as int].address@ + (": release from "@ + self.held),
            ),
            Stage::Reopen(i) => Some(self.passed()[i as int].address@ + ": open to verify"@),
            Stage::Recheck(i) => Some(self.passed()[i as int].address@ + ": verify mode"@),
            _ => None,
        }
    }

    /// Where the run stands after the event.
    pub open spec fn after(self, event: Event) -> RunState {
        if self.over() {
            self
        } else {
            match (self.stage, event) {
                (Stage::Host, Event::Host(facts)) => match crate::host::host_conflict(facts) {
                    Some(message) => self.refused(message),
                    None => self.at(Stage::Enumerate),
                },
                (Stage::Enumerate, Event::Devices(devices)) => self.after_devices(devices@),
                (Stage::Idle(i), Event::Scan(cdevs, processes)) => self.after_scan(
                    i as int,
                    crate::text::texts(cdevs@),
                    processes@,
                ),
                (Stage::Kernel, Event::KernelRelease(text)) => RunState {
                    alias: seq![
                        "lib/modules"@,
                        crate::text::trimmed(text@),
                        "modules.alias"@,
                    ],
                    ..self
                }.to_find(0),
                (Stage::Find(i), Event::Module(module)) => self.after_module(i as int, module),
                (Stage::Load(i), Event::Done) => self.at(Stage::Driver(i)),
                (Stage::Driver(i), Event::Driver(driver)) => self.after_driver(i as int, driver),
                (Stage::Board, event) => RunState {
                    board: self.board.after(RunState::report(event)),
                    ..self
                }.past_board(),
                (Stage::Files(i), Event::Done) => self.to_files(i + 1),
                (Stage::Bind(i), Event::Bound(bound)) => self.saying(
                    seq![
                        bound_line(
                            self.passed()[i as int].address@,
                            bound,
                            self.drivers[self.passed()[i as int].address@].driver@,
                        ),
                    ],
                ).to_bind(i + 1),
                (Stage::Ask(i), Event::Current(current)) => match current {
                    Some(driver) => if crate::provision::is_vfio(driver@) {
                        RunState { held: driver@, ..self }.at(Stage::Release(i))
                    } else {
                        self.to_ask(i + 1)
                    },
                    None => self.to_ask(i + 1),
                },
                (Stage::Release(i), Event::Done) => self.saying(
                    seq![self.states[i as int].address@ + ": released from "@ + self.held],
                ).to_ask(i + 1),
                (Stage::Bound(i), Event::Done) => if crate::nvidia::handle_of(
                    self.passed()[i as int],
                ) is Some {
                    self.at(Stage::Reopen(i))
                } else {
                    self.to_bound(i + 1)
                },
                (Stage::Reopen(i), Event::Done) => self.at(Stage::Recheck(i)),
                (Stage::Recheck(i), Event::Read(reading)) => self.after_recheck(i as int, reading),
                _ => self.failed(self.doing()),
            }
        }
    }

    /// The action at hand, were the run not over.
    pub open spec fn at_hand(self) -> Action {
        match self.stage {
            Stage::Host => Action::ReadHost,
            Stage::Enumerate => Action::Enumerate,
            Stage::Idle(device) => Action::Scan { device },
            Stage::Kernel => Action::ReadRelease,
            Stage::Find(device) => Action::FindModule { device },
            Stage::Load(device) => Action::LoadModule { device },
            Stage::Driver(device) => Action::FindDriver { device },
            Stage::Board => Action::Board(self.board.work()),
            Stage::Files(index) => Action::File { index },
            Stage::Bind(device) => Action::Bind { device },
            Stage::Ask(device) => Action::AskDriver { device },
            Stage::Release(device) => Action::Unbind { device },
            Stage::Bound(device) => Action::CheckBound { device },
            Stage::Reopen(device) => Action::Reopen { device },
            Stage::Recheck(device) => Action::Reread { device },
            Stage::Finished => Action::Finished,
        }
    }

    pub open spec fn action(self) -> Action {
        if self.stop is Some {
            Action::Stopped
        } else {
            self.at_hand()
        }
    }
}

/// A run that is about to begin.
pub open spec fn started(
    mode: Mode,
    devices_dir: Seq<char>,
    osrelease: Seq<char>,
    dev_vfio: Seq<Seq<char>>,
) -> RunState {
    RunState {
        mode,
        devices_dir,
        osrelease,
        dev_vfio,
        stage: Stage::Host,
        states: Seq::empty(),
        alias: Seq::empty(),
        module: None,
        drivers: Map::empty(),
        board: crate::board::begun(Seq::empty(), mode),
        held: Seq::empty(),
        said: Seq::empty(),
        stop: None,
    }
}

impl RunState {
    /// A driver is known for the first `i` devices that are passed through.
    pub open spec fn resolved(self, i: int) -> bool {
        forall|j: int|
            0 <= j < i ==> self.drivers.contains_key((#[trigger] self.passed()[j]).address@)
    }

    /// What holds of a run however far it came: there is a device behind every
    /// number, and past the resolving of drivers there is a driver for every
    /// device that is passed through.
    pub open spec fn sound(self) -> bool {
        let all = self.passed().len() as int;
        &&& self.states.len() <= usize::MAX
        &&& self.board.sound()
        &&& match self.stage {
            Stage::Host | Stage::Enumerate | Stage::Kernel => true,
            Stage::Idle(i) => i < self.states.len(),
            Stage::Find(i) => i < all && self.resolved(i as int),
            Stage::Load(i) | Stage::Driver(i) => i < all && self.resolved(i as int)
                && self.module is Some,
            Stage::Board => self.resolved(all) && (self.stop is None ==> !self.board.over()),
            Stage::Files(i) => i < 3 && self.resolved(all),
            Stage::Bind(i) | Stage::Bound(i) => i < all && self.resolved(all),
            Stage::Ask(i) | Stage::Release(i) => i < self.states.len() && self.resolved(all)
                && !crate::provision::has_address(self.passed(), self.states[i as int].address@),
            Stage::Reopen(i) | Stage::Recheck(i) => i < all && self.resolved(all)
                && crate::nvidia::handle_of(self.passed()[i as int]) is Some,
            Stage::Finished => self.resolved(all),
        }
    }
}

proof fn lemma_passed_fit(s: RunState)
    ensures
        s.passed().len() <= s.states.len(),
{
    s.states.lemma_filter_len(crate::provision::passes(s.mode));
}

proof fn lemma_board_sound(s: RunState)
    requires
        s.states.len() <= usize::MAX,
        s.board.sound(),
        s.resolved(s.passed().len() as int),
        s.stop is None,
    ensures
        s.past_board().sound(),
{
}

proof fn lemma_early_sound(s: RunState, event: Event)
    requires
        s.sound(),
        !s.over(),
        s.stage is Host || s.stage is Enumerate || s.stage is Idle || s.stage is Kernel,
    ensures
        s.after(event).sound(),
{
    lemma_passed_fit(s);
    match (s.stage, event) {
        (Stage::Enumerate, Event::Devices(devices)) => {
            let found = crate::device::discovered(devices@);
            devices@.lemma_filter_len(crate::device::can_pass_through());
            found.lemma_filter_len(crate::device::has_row());
            assert(devices.len() == devices@.len());
        },
        (Stage::Kernel, Event::KernelRelease(_)) => {
            crate::board::lemma_begun(s.states, s.mode);
            assert(s.after(event).passed() == s.passed());
        },
        _ => {},
    }
}

proof fn lemma_middle_sound(s: RunState, event: Event)
    requires
        s.sound(),
        !s.over(),
        s.stage is Find || s.stage is Load || s.stage is Driver || s.stage is Board,
    ensures
        s.after(event).sound(),
{
    lemma_passed_fit(s);
    match (s.stage, event) {
        (Stage::Driver(i), Event::Driver(driver)) => {
            crate::board::lemma_begun(s.states, s.mode);
            let t = RunState {
                drivers: s.drivers.insert(
                    s.passed()[i as int].address@,
                    VfioDriver { module: s.module->0, driver },
                ),
                ..s
            };
            assert(t.passed() == s.passed());
            assert(t.resolved(i + 1)) by {
                assert forall|j: int| 0 <= j < i + 1 implies t.drivers.contains_key(
                    (#[trigger] t.passed()[j]).address@,
                ) by {
                    if j < i {
                        assert(s.drivers.contains_key(s.passed()[j].address@));
                    }
                }
            }
            assert(s.after(event) == t.to_find(i + 1));
        },
        (Stage::Board, event) => {
            crate::board::lemma_after(s.board, RunState::report(event));
            let t = RunState { board: s.board.after(RunState::report(event)), ..s };
            assert(t.resolved(t.passed().len() as int));
            lemma_board_sound(t);
        },
        _ => {},
    }
}

impl RunState {
    /// The boot configuration, the binding, the releasing or the verifying is
    /// at hand.
    pub open spec fn is_late(self) -> bool {
        match self.stage {
            Stage::Files(_) | Stage::Bind(_) | Stage::Ask(_) | Stage::Release(_) | Stage::Bound(_)
            | Stage::Reopen(_) | Stage::Recheck(_) => true,
            _ => false,
        }
    }

    /// The device at `i` stays with those that are passed through.
    pub open spec fn keeps(self, i: int) -> bool {
        crate::provision::has_address(self.passed(), self.states[i].address@)
    }

    /// `stage` verifies the device at `i`, or ends the run where there is none.
    pub open spec fn verifies_from(self, i: int, stage: Stage) -> bool {
        if i < self.passed().len() {
            stage == Stage::Bound(i as usize)
        } else {
            stage == Stage::Finished
        }
    }

    /// `stage` asks about the first device from `i` on that is not passed
    /// through, or begins to verify where there is none.
    pub open spec fn asks_from(self, i: int, stage: Stage) -> bool {
        ||| (stage matches Stage::Ask(j) && i <= j < self.states.len() && !self.keeps(j as int) && (
            forall|k: int| i <= k < j ==> #[trigger] self.keeps(k)))
        ||| ((forall|k: int| i <= k < self.states.len() ==> #[trigger] self.keeps(k))
            && self.verifies_from(0, stage))
    }

    /// `stage` binds the device at `i`, or is past the binding.
    pub open spec fn binds_from(self, i: int, stage: Stage) -> bool {
        if i < self.passed().len() {
            stage == Stage::Bind(i as usize)
        } else {
            self.asks_from(0, stage)
        }
    }

    /// A late event lets the run go on.
    pub open spec fn lets_go_on(self, event: Event) -> bool {
        match self.stage {
            Stage::Bind(_) => event is Bound,
            Stage::Ask(_) => event is Current,
            Stage::Recheck(i) => event matches Event::Read(reading) && reading.is_of(
                crate::nvidia::handle_of(self.passed()[i as int])->0,
            ) && reading.modes().are(self.mode),
            _ => event == Event::Done,
        }
    }

    /// A late event that lets the run go on leads to `stage`.
    pub open spec fn leads_to(self, event: Event, stage: Stage) -> bool {
        match self.stage {
            Stage::Files(i) => if i < 2 {
                stage == Stage::Files((i + 1) as usize)
            } else {
                self.binds_from(0, stage)
            },
            Stage::Bind(i) => self.binds_from(i + 1, stage),
            Stage::Ask(i) => if event matches Event::Current(Some(driver))
                && crate::provision::is_vfio(driver@) {
                stage == Stage::Release(i)
            } else {
                self.asks_from(i + 1, stage)
            },
            Stage::Release(i) => self.asks_from(i + 1, stage),
            Stage::Bound(i) => if crate::nvidia::handle_of(self.passed()[i as int]) is Some {
                stage == Stage::Reopen(i)
            } else {
                self.verifies_from(i + 1, stage)
            },
            Stage::Reopen(i) => stage == Stage::Recheck(i),
            Stage::Recheck(i) => self.verifies_from(i + 1, stage),
            _ => false,
        }
    }
}

/// Looking for the next device to ask about, whatever was said before.
proof fn lemma_to_ask(s: RunState, lines: Seq<Seq<char>>, i: int)
    requires
        0 <= i,
        s.states.len() <= usize::MAX,
    ensures
        ({
            let t = s.saying(lines).to_ask(i);
            &&& t == (RunState { stage: t.stage, said: t.said, ..s })
            &&& s.asks_from(i, t.stage)
        }),
    decreases s.states.len() - i,
{
    if i < s.states.len() && s.keeps(i) {
        lemma_to_ask(s, lines, i + 1);
        let stage = s.saying(lines).to_ask(i).stage;
        if stage matches Stage::Ask(j) && i + 1 <= j < s.states.len() && !s.keeps(j as int) {
            let j = stage->Ask_0;
            assert forall|k: int| i <= k < j implies #[trigger] s.keeps(k) by {}
        }
    }
}

/// A late event moves a run on as [`RunState::leads_to`] says, or stops it where
/// it stands. The mode, the devices, the drivers and the board stay.
pub proof fn lemma_late_event(s: RunState, event: Event)
    requires
        s.sound(),
        !s.over(),
        s.is_late(),
    ensures
        s.after(event) == (RunState {
            stage: s.after(event).stage,
            held: s.after(event).held,
            said: s.after(event).said,
            stop: s.after(event).stop,
            ..s
        }),
        s.lets_go_on(event) <==> s.after(event).stop is None,
        s.lets_go_on(event) ==> s.leads_to(event, s.after(event).stage),
        !s.lets_go_on(event) ==> s.after(event).stage == s.stage,
        s.after(event).stage is Release ==> if s.stage is Release {
            s.after(event).held == s.held
        } else {
            crate::provision::is_vfio(s.after(event).held)
        },
        s.after(event).sound(),
{
    lemma_passed_fit(s);
    let t = s.after(event);
    match (s.stage, event) {
        (Stage::Files(i), Event::Done) => {
            lemma_to_ask(
                s,
                persist_lines(s.passed().len(), crate::modules::overridden(s.claims())),
                0,
            );
        },
        (Stage::Bind(i), Event::Bound(bound)) => {
            lemma_to_ask(
                s,
                seq![
                    bound_line(
                        s.passed()[i as int].address@,
                        bound,
                        s.drivers[s.passed()[i as int].address@].driver@,
                    ),
                ],
                0,
            );
        },
        (Stage::Ask(i), Event::Current(_)) => {
            lemma_to_ask(s, Seq::empty(), i + 1);
            assert(s.saying(Seq::empty()) =~= s);
        },
        (Stage::Release(i), Event::Done) => {
            lemma_to_ask(
                s,
                seq![s.states[i as int].address@ + ": released from "@ + s.held],
                i + 1,
            );
        },
        _ => {},
    }
    assert(t.passed() == s.passed());
    assert(forall|k: int| t.keeps(k) == s.keeps(k));
    assert(t.resolved(t.passed().len() as int));
}

/// An event keeps a run sound.
pub proof fn lemma_after_sound(s: RunState, event: Event)
    requires
        s.sound(),
    ensures
        s.after(event).sound(),
{
    if !s.over() {
        match s.stage {
            Stage::Host | Stage::Enumerate | Stage::Idle(_) | Stage::Kernel => {
                lemma_early_sound(s, event);
            },
            Stage::Find(_) | Stage::Load(_) | Stage::Driver(_) | Stage::Board => {
                lemma_middle_sound(s, event);
            },
            _ => {
                lemma_late_event(s, event);
            },
        }
    }
}

/// A run over a node.
pub struct Run {
    mode: Mode,
    devices_dir: String,
    osrelease: String,
    dev_vfio: NodePath,
    stage: Stage,
    states: Vec<DeviceState>,
    /// The devices that are passed through.
    passthrough: Vec<DeviceState>,
    alias: Vec<String>,
    module: Option<String>,
    drivers: Keyed<VfioDriver>,
    board: ModeRun,
    /// The boot configuration, once it is due.
    plan: BootPlan,
    held: String,
    said: Vec<String>,
    stop: Option<Stop>,
}

impl View for Run {
    type V = RunState;

    closed spec fn view(&self) -> RunState {
        RunState {
            mode: self.mode,
            devices_dir: self.devices_dir@,
            osrelease: self.osrelease@,
            dev_vfio: self.dev_vfio@,
            stage: self.stage,
            states: self.states@,
            alias: crate::text::texts(self.alias@),
            module: self.module,
            drivers: self.drivers@,
            board: self.board@,
            held: self.held@,
            said: crate::text::texts(self.said@),
            stop: match self.stop {
                Some(stop) => Some(stop@),
                None => None,
            },
        }
    }
}

fn list_bind_only(states: &Vec<DeviceState>) -> (r: Vec<String>)
    ensures
        crate::text::texts(r@) == bind_only(states@),
{
    let mut out: Vec<String> = Vec::new();
    assert(crate::text::texts(out@) =~= bind_only(states@.take(0)));
    for i in 0..states.len()
        invariant
            crate::text::texts(out@) == bind_only(states@.take(i as int)),
    {
        assert(states@.take(i + 1).drop_last() =~= states@.take(i as int));
        let state = &states[i];
        let gpu = match state.provisioning() {
            Some(Provisioning::NvidiaInBandCc) => true,
            Some(Provisioning::NvidiaInBandPpcie) | None => false,
        };
        if gpu && !state.cc_capable() {
            let mut line = state.address.clone();
            line.append(": no CC support, bind only");
            let ghost so_far = out@;
            out.push(line);
            assert(crate::text::texts(out@) =~= crate::text::texts(so_far).push(line@));
        }
    }
    assert(states@.take(states@.len() as int) =~= states@);
    out
}

fn list_outcomes(
    states: &Vec<DeviceState>,
    mode: Mode,
    outcomes: &Vec<(String, Transition)>,
) -> (r: Vec<String>)
    ensures
        crate::text::texts(r@) == outcome_lines(
            states@,
            mode,
            crate::board::outcome_texts(outcomes@),
        ),
{
    let ghost all = outcome_lines(states@, mode, crate::board::outcome_texts(outcomes@));
    let mut out: Vec<String> = Vec::new();
    for i in 0..outcomes.len()
        invariant
            all == outcome_lines(states@, mode, crate::board::outcome_texts(outcomes@)),
            crate::text::texts(out@) == all.take(i as int),
    {
        let (address, transition) = &outcomes[i];
        let target = target_of(states, address.as_str(), mode);
        let mut line = address.clone();
        match transition {
            Transition::AlreadySet => {
                line.append(": already ");
                line.append(target.as_str());
            },
            Transition::Applied => {
                line.append(": set to ");
                line.append(target.as_str());
                line.append(" and reset");
            },
        }
        assert(crate::board::outcome_texts(outcomes@)[i as int] == (address@, *transition));
        assert(line@ =~= all[i as int]);
        let ghost so_far = out@;
        out.push(line);
        assert(crate::text::texts(out@) =~= crate::text::texts(so_far).push(line@));
        assert(all.take(i + 1) =~= all.take(i as int).push(all[i as int]));
    }
    assert(all.take(outcomes@.len() as int) =~= all);
    out
}

fn list_persisted(count: usize, carried: &Vec<String>) -> (r: Vec<String>)
    ensures
        crate::text::texts(r@) == persist_lines(count as nat, crate::text::texts(carried@)),
{
    let mut out: Vec<String> = Vec::new();
    let mut written = "boot config written for ".to_owned();
    written.append(decimal(count as u64).as_str());
    written.append(" devices");
    out.push(written);
    if carried.len() > 0 {
        let mut line = decimal(carried.len() as u64);
        line.append(" through a udev rule, which is what carries driver_override: ");
        line.append(join(carried, ", ").as_str());
        out.push(line);
    }
    assert(crate::text::texts(carried@).len() == carried@.len());
    assert(crate::text::texts(out@) =~= persist_lines(
        count as nat,
        crate::text::texts(carried@),
    ));
    out
}

impl Run {
    pub closed spec fn wf(&self) -> bool {
        &&& self@.sound()
        &&& self.cached()
    }

    closed spec fn cached(&self) -> bool {
        &&& self.passthrough@ == self@.passed()
        &&& self.board.wf()
        &&& self.stage is Files ==> self.planned()
    }

    /// The plan is that of the claims.
    closed spec fn planned(&self) -> bool {
        &&& crate::modules::file_texts(self.plan.files@) == crate::modules::boot_files(
            self@.claims(),
        )
        &&& crate::text::texts(self.plan.overridden@) == crate::modules::overridden(self@.claims())
    }

    /// A run is sound, however far it came.
    pub proof fn lemma_sound(&self)
        requires
            self.wf(),
        ensures
            self@.sound(),
    {
    }

    /// Begin a run. `devices_dir` is where devices are enumerated from,
    /// `osrelease` where the kernel release is read from, and `dev_vfio` the
    /// directory of the VFIO nodes.
    pub fn new(mode: Mode, devices_dir: String, osrelease: String, dev_vfio: NodePath) -> (r: Run)
        ensures
            r.wf(),
            r@ == started(mode, devices_dir@, osrelease@, dev_vfio@),
    {
        let states: Vec<DeviceState> = Vec::new();
        let board = ModeRun::new(&states, mode);
        let run = Run {
            mode,
            devices_dir,
            osrelease,
            dev_vfio,
            stage: Stage::Host,
            states,
            passthrough: Vec::new(),
            alias: Vec::new(),
            module: None,
            drivers: Keyed::new(),
            board,
            plan: BootPlan { files: Vec::new(), overridden: Vec::new() },
            held: String::new(),
            said: Vec::new(),
            stop: None,
        };
        proof {
            run.board.lemma_sound();
            assert(run.states@ =~= Seq::<DeviceState>::empty());
            assert(run@.passed() =~= Seq::<DeviceState>::empty()) by {
                reveal(Seq::filter);
            }
            assert(run.held@ =~= Seq::<char>::empty());
            assert(run@ =~= started(mode, devices_dir@, osrelease@, dev_vfio@));
        }
        run
    }

    fn say(&mut self, line: String)
        ensures
            final(self)@ == old(self)@.saying(seq![line@]),
            final(self).passthrough == old(self).passthrough,
            final(self).board == old(self).board,
            final(self).plan == old(self).plan,
    {
        let ghost before = self.said@;
        self.said.push(line);
        assert(crate::text::texts(self.said@) =~= crate::text::texts(before) + seq![line@]);
    }

    fn say_all(&mut self, lines: Vec<String>)
        ensures
            final(self)@ == old(self)@.saying(crate::text::texts(lines@)),
            final(self).passthrough == old(self).passthrough,
            final(self).board == old(self).board,
            final(self).plan == old(self).plan,
    {
        let mut lines = lines;
        let ghost before = self.said@;
        let ghost more = lines@;
        self.said.append(&mut lines);
        assert(crate::text::texts(self.said@) =~= crate::text::texts(before) + crate::text::texts(
            more,
        ));
    }

    fn refuse(&mut self, message: String)
        requires
            old(self).cached(),
        ensures
            final(self).cached(),
            final(self)@ == old(self)@.refused(message@),
    {
        self.stop = Some(Stop::Refused { message });
    }

    fn to_idle(&mut self, i: usize)
        requires
            old(self).cached(),
        ensures
            final(self).cached(),
            final(self)@ == old(self)@.to_idle(i as int),
    {
        if i < self.states.len() {
            self.stage = Stage::Idle(i);
        } else {
            self.stage = Stage::Kernel;
        }
    }

    fn to_find(&mut self, i: usize)
        requires
            old(self).cached(),
            i >= old(self)@.passed().len() ==> old(self)@.resolved(
                old(self)@.passed().len() as int,
            ),
            old(self)@.stop is None,
        ensures
            final(self).cached(),
            final(self)@ == old(self)@.to_find(i as int),
    {
        if i < self.passthrough.len() {
            self.stage = Stage::Find(i);
        } else {
            let lines = list_bind_only(&self.states);
            self.say_all(lines);
            self.board = crate::nvidia::apply(&self.states, self.mode);
            self.past_board();
        }
    }

    fn past_board(&mut self)
        requires
            old(self).passthrough@ == old(self)@.passed(),
            old(self).board.wf(),
            old(self)@.resolved(old(self)@.passed().len() as int),
        ensures
            final(self).cached(),
            final(self)@ == old(self)@.past_board(),
    {
        match self.board.work() {
            Work::Settled => {
                let outcomes = self.board.outcomes();
                let lines = list_outcomes(&self.states, self.mode, &outcomes);
                self.say_all(lines);
                assert forall|j: int| 0 <= j < self@.passed().len() implies self@.drivers.contains_key(
                    (#[trigger] self@.passed()[j]).address@,
                ) by {
                    assert(old(self)@.drivers.contains_key(old(self)@.passed()[j].address@));
                }
                self.plan = persist(&claims(&self.passthrough, &self.drivers));
                self.stage = Stage::Files(0);
            },
            Work::Stopped => {
                self.stage = Stage::Board;
                self.stop = self.board.stop();
            },
            _ => {
                self.stage = Stage::Board;
            },
        }
    }

    fn to_files(&mut self, i: usize)
        requires
            old(self).cached(),
            old(self).planned(),
        ensures
            final(self).cached(),
            final(self)@ == old(self)@.to_files(i as int),
    {
        assert(self.plan.files@.len() == crate::modules::file_texts(self.plan.files@).len());
        if i < self.plan.files.len() {
            self.stage = Stage::Files(i);
        } else {
            let lines = list_persisted(self.passthrough.len(), &self.plan.overridden);
            self.say_all(lines);
            self.to_bind(0);
        }
    }

    fn to_bind(&mut self, i: usize)
        requires
            old(self).passthrough@ == old(self)@.passed(),
            old(self).board.wf(),
        ensures
            final(self).cached(),
            final(self)@ == old(self)@.to_bind(i as int),
    {
        if i < self.passthrough.len() {
            self.stage = Stage::Bind(i);
        } else {
            self.to_ask(0);
        }
    }

    fn to_ask(&mut self, i: usize)
        requires
            old(self).passthrough@ == old(self)@.passed(),
            old(self).board.wf(),
            i <= old(self)@.states.len(),
        ensures
            final(self).cached(),
            final(self)@ == old(self)@.to_ask(i as int),
    {
        let mut next: usize = i;
        while next < self.states.len() && is_kept(&self.passthrough, &self.states[next])
            invariant
                *self == *old(self),
                self.passthrough@ == self@.passed(),
                i <= next <= self@.states.len(),
                self@.to_ask(i as int) == self@.to_ask(next as int),
            decreases self@.states.len() - next,
        {
            next = next + 1;
        }
        if next < self.states.len() {
            self.stage = Stage::Ask(next);
        } else {
            self.to_bound(0);
        }
    }

    fn to_bound(&mut self, i: usize)
        requires
            old(self).passthrough@ == old(self)@.passed(),
            old(self).board.wf(),
        ensures
            final(self).cached(),
            final(self)@ == old(self)@.to_bound(i as int),
    {
        if i < self.passthrough.len() {
            self.stage = Stage::Bound(i);
        } else {
            let mut line = "node provisioned: mode=".to_owned();
            line.append(self.mode.name());
            line.append(", ");
            line.append(decimal(self.passthrough.len() as u64).as_str());
            line.append(" devices");
            self.say(line);
            self.stage = Stage::Finished;
        }
    }

    /// The action at hand failed.
    fn fail(&mut self)
        requires
            old(self).wf(),
            !old(self)@.over(),
        ensures
            final(self).cached(),
            final(self)@ == old(self)@.failed(old(self)@.doing()),
    {
        let module = match &self.module {
            Some(module) => module.clone(),
            None => String::new(),
        };
        let stop = match self.stage {
            Stage::Enumerate => {
                fail_at("enumerate PCI devices under ", self.devices_dir.as_str())
            },
            Stage::Kernel => fail_at("read the kernel release from ", self.osrelease.as_str()),
            Stage::Find(i) => {
                fail_at(self.passthrough[i].address.as_str(), ": find its vfio module")
            },
            Stage::Load(i) => {
                let mut doing = ": load ".to_owned();
                doing.append(module.as_str());
                fail_at(self.passthrough[i].address.as_str(), doing.as_str())
            },
            Stage::Driver(i) => {
                let mut doing = ": find the driver ".to_owned();
                doing.append(module.as_str());
                doing.append(" registers");
                fail_at(self.passthrough[i].address.as_str(), doing.as_str())
            },
            Stage::Release(i) => {
                let mut doing = ": release from ".to_owned();
                doing.append(self.held.as_str());
                fail_at(self.states[i].address.as_str(), doing.as_str())
            },
            Stage::Reopen(i) => fail_at(self.passthrough[i].address.as_str(), ": open to verify"),
            Stage::Recheck(i) => fail_at(self.passthrough[i].address.as_str(), ": verify mode"),
            _ => Stop::Failed { context: None },
        };
        self.stop = Some(stop);
    }

    fn take_devices(&mut self, devices: &Vec<PciDevice>)
        requires
            old(self).wf(),
            old(self)@.stage == Stage::Enumerate,
        ensures
            final(self).cached(),
            final(self)@ == old(self)@.after_devices(devices@),
    {
        let states = in_scope(&discover(devices));
        if states.len() == 0 {
            self.refuse(
                "no devices in scope: this node was selected for provisioning but has none".to_owned(),
            );
            return;
        }
        match verify_capable(&states, self.mode) {
            Ok(_) => {
                self.passthrough = passthrough_set(&states, self.mode);
                self.states = states;
                self.to_idle(0);
            },
            Err(refusal) => {
                self.refuse(refusal.message);
            },
        }
    }

    fn take_scan(&mut self, i: usize, cdevs: &Vec<String>, processes: &Vec<Process>)
        requires
            old(self).wf(),
            old(self)@.stage == Stage::Idle(i),
        ensures
            final(self).cached(),
            final(self)@ == old(self)@.after_scan(
                i as int,
                crate::text::texts(cdevs@),
                processes@,
            ),
    {
        let found = holders(&self.dev_vfio, &self.states[i], cdevs, processes);
        assert(crate::idle::holder_texts(found@).len() == found@.len());
        match verify_idle(&self.states[i], &found) {
            Ok(_) => {
                let count: usize = self.states.len();
                assert(i < count);
                self.to_idle(i + 1);
            },
            Err(refusal) => {
                self.refuse(refusal.message);
            },
        }
    }

    fn take_module(&mut self, i: usize, module: String)
        requires
            old(self).wf(),
            old(self)@.stage == Stage::Find(i),
        ensures
            final(self).cached(),
            final(self)@ == old(self)@.after_module(i as int, module),
    {
        match verify_variant_available(&self.passthrough[i], module.as_str()) {
            Ok(_) => {
                self.module = Some(module);
                self.stage = Stage::Load(i);
            },
            Err(refusal) => {
                self.refuse(refusal.message);
            },
        }
    }

    fn take_driver(&mut self, i: usize, driver: String)
        requires
            old(self).wf(),
            old(self)@.stage == Stage::Driver(i),
            old(self)@.stop is None,
        ensures
            final(self).cached(),
            final(self)@ == old(self)@.after_driver(i as int, driver),
    {
        let module = match &self.module {
            Some(module) => module.clone(),
            None => String::new(),
        };
        let address = self.passthrough[i].address.clone();
        let count: usize = self.passthrough.len();
        assert(i < count);
        self.drivers.insert(address, VfioDriver { module, driver });
        assert(self@.passed() == old(self)@.passed());
        assert(self@.resolved(i + 1)) by {
            assert forall|j: int| 0 <= j < i + 1 implies self@.drivers.contains_key(
                (#[trigger] self@.passed()[j]).address@,
            ) by {
                if j < i {
                    assert(old(self)@.drivers.contains_key(old(self)@.passed()[j].address@));
                }
            }
        }
        self.to_find(i + 1);
    }

    fn take_bound(&mut self, i: usize, bound: Bound)
        requires
            old(self).wf(),
            old(self)@.stage == Stage::Bind(i),
        ensures
            final(self).cached(),
            final(self)@ == old(self)@.saying(
                seq![
                    bound_line(
                        old(self)@.passed()[i as int].address@,
                        bound,
                        old(self)@.drivers[old(self)@.passed()[i as int].address@].driver@,
                    ),
                ],
            ).to_bind(i + 1),
    {
        let count: usize = self.passthrough.len();
        let mut line = self.passthrough[i].address.clone();
        match bound {
            Bound::Already => line.append(": already bound to "),
            Bound::Now => line.append(": bound to "),
        }
        assert(self@.drivers.contains_key(self@.passed()[i as int].address@));
        if let Some(found) = self.drivers.get(self.passthrough[i].address.as_str()) {
            line.append(found.driver.as_str());
        }
        self.say(line);
        self.to_bind(i + 1);
    }

    fn take_current(&mut self, i: usize, current: Option<String>)
        requires
            old(self).wf(),
            old(self)@.stage == Stage::Ask(i),
        ensures
            final(self).cached(),
            final(self)@ == (match current {
                Some(driver) => if crate::provision::is_vfio(driver@) {
                    RunState { held: driver@, ..old(self)@ }.at(Stage::Release(i))
                } else {
                    old(self)@.to_ask(i + 1)
                },
                None => old(self)@.to_ask(i + 1),
            }),
    {
        let count: usize = self.states.len();
        assert(i < count);
        match current {
            Some(driver) => {
                if is_vfio_driver(driver.as_str()) {
                    self.held = driver;
                    self.stage = Stage::Release(i);
                } else {
                    self.to_ask(i + 1);
                }
            },
            None => {
                self.to_ask(i + 1);
            },
        }
    }

    fn take_released(&mut self, i: usize)
        requires
            old(self).wf(),
            old(self)@.stage == Stage::Release(i),
        ensures
            final(self).cached(),
            final(self)@ == old(self)@.saying(
                seq![
                    old(self)@.states[i as int].address@ + ": released from "@ + old(self)@.held,
                ],
            ).to_ask(i + 1),
    {
        let count: usize = self.states.len();
        assert(i < count);
        let mut line = self.states[i].address.clone();
        line.append(": released from ");
        line.append(self.held.as_str());
        self.say(line);
        self.to_ask(i + 1);
    }

    fn take_reading(&mut self, i: usize, reading: Reading)
        requires
            old(self).wf(),
            old(self)@.stage == Stage::Recheck(i),
            old(self)@.stop is None,
        ensures
            final(self).cached(),
            final(self)@ == old(self)@.after_recheck(i as int, reading),
    {
        let count: usize = self.passthrough.len();
        assert(i < count);
        let fits = match handle_for(&self.passthrough[i]) {
            Some(kind) => reading.comes_from(kind),
            None => false,
        };
        if !fits {
            self.fail();
            return;
        }
        match verify_mode(&self.passthrough[i], reading.current(), self.mode) {
            Ok(_) => {
                self.to_bound(i + 1);
            },
            Err(refusal) => {
                self.refuse(refusal.message);
            },
        }
    }

    /// Take what came of the action at hand.
    pub fn step(&mut self, event: Event)
        requires
            old(self).wf(),
        ensures
            final(self).wf(),
            final(self)@ == old(self)@.after(event),
    {
        if self.stop.is_some() {
            return;
        }
        proof {
            lemma_after_sound(self@, event);
        }
        match (self.stage, event) {
            (Stage::Finished, _) => {},
            (Stage::Host, Event::Host(facts)) => match check(&facts) {
                Ok(_) => {
                    self.stage = Stage::Enumerate;
                },
                Err(refusal) => {
                    self.refuse(refusal.message);
                },
            },
            (Stage::Enumerate, Event::Devices(devices)) => {
                self.take_devices(&devices);
            },
            (Stage::Idle(i), Event::Scan(cdevs, processes)) => {
                self.take_scan(i, &cdevs, &processes);
            },
            (Stage::Kernel, Event::KernelRelease(text)) => {
                self.alias = modules_alias(text.as_str());
                assert(self@.passed() == old(self)@.passed());
                self.to_find(0);
            },
            (Stage::Find(i), Event::Module(module)) => {
                self.take_module(i, module);
            },
            (Stage::Load(i), Event::Done) => {
                self.stage = Stage::Driver(i);
            },
            (Stage::Driver(i), Event::Driver(driver)) => {
                self.take_driver(i, driver);
            },
            (Stage::Board, event) => {
                let report = match event {
                    Event::Done => Report::Done,
                    Event::Read(reading) => Report::Read(reading),
                    _ => Report::Failed,
                };
                self.board.step(report);
                assert(self@.passed() == old(self)@.passed());
                assert(self@.resolved(self@.passed().len() as int));
                self.past_board();
            },
            (Stage::Files(i), Event::Done) => {
                self.to_files(i + 1);
            },
            (Stage::Bind(i), Event::Bound(bound)) => {
                self.take_bound(i, bound);
            },
            (Stage::Ask(i), Event::Current(current)) => {
                self.take_current(i, current);
            },
            (Stage::Release(i), Event::Done) => {
                self.take_released(i);
            },
            (Stage::Bound(i), Event::Done) => {
                let count: usize = self.passthrough.len();
                assert(i < count);
                if handle_for(&self.passthrough[i]).is_some() {
                    self.stage = Stage::Reopen(i);
                } else {
                    self.to_bound(i + 1);
                }
            },
            (Stage::Reopen(i), Event::Done) => {
                self.stage = Stage::Recheck(i);
            },
            (Stage::Recheck(i), Event::Read(reading)) => {
                self.take_reading(i, reading);
            },
            _ => {
                self.fail();
            },
        }
    }

    /// The next thing to do.
    pub fn action(&self) -> (r: Action)
        requires
            self.wf(),
        ensures
            r == self@.action(),
    {
        if self.stop.is_some() {
            return Action::Stopped;
        }
        match self.stage {
            Stage::Host => Action::ReadHost,
            Stage::Enumerate => Action::Enumerate,
            Stage::Idle(device) => Action::Scan { device },
            Stage::Kernel => Action::ReadRelease,
            Stage::Find(device) => Action::FindModule { device },
            Stage::Load(device) => Action::LoadModule { device },
            Stage::Driver(device) => Action::FindDriver { device },
            Stage::Board => Action::Board(self.board.work()),
            Stage::Files(index) => Action::File { index },
            Stage::Bind(device) => Action::Bind { device },
            Stage::Ask(device) => Action::AskDriver { device },
            Stage::Release(device) => Action::Unbind { device },
            Stage::Bound(device) => Action::CheckBound { device },
            Stage::Reopen(device) => Action::Reopen { device },
            Stage::Recheck(device) => Action::Reread { device },
            Stage::Finished => Action::Finished,
        }
    }

    /// The devices in scope.
    pub fn states(&self) -> (r: &Vec<DeviceState>)
        ensures
            r@ == self@.states,
    {
        &self.states
    }

    /// The devices that are passed through.
    pub fn passthrough(&self) -> (r: &Vec<DeviceState>)
        requires
            self.wf(),
        ensures
            r@ == self@.passed(),
    {
        &self.passthrough
    }

    /// The path of the alias table below the host's root, part by part.
    pub fn alias(&self) -> (r: &Vec<String>)
        ensures
            crate::text::texts(r@) == self@.alias,
    {
        &self.alias
    }

    /// The module that was found last.
    pub fn module(&self) -> (r: Option<&String>)
        ensures
            match r {
                Some(module) => self@.module == Some(*module),
                None => self@.module is None,
            },
    {
        match &self.module {
            Some(module) => Some(module),
            None => None,
        }
    }

    /// The driver that was found for the device at `address`.
    pub fn driver(&self, address: &str) -> (r: Option<&VfioDriver>)
        ensures
            r is Some == self@.drivers.contains_key(address@),
            r matches Some(driver) ==> *driver == self@.drivers[address@],
    {
        self.drivers.get(address)
    }

    /// The board, and the devices on it that have modes.
    pub fn board(&self) -> (r: &ModeRun)
        requires
            self.wf(),
        ensures
            r@ == self@.board,
            r.wf(),
    {
        &self.board
    }

    /// What is to be done to the file of the boot configuration at `index`,
    /// while the boot configuration is being seen to.
    pub fn file(&self, index: usize) -> (r: Option<&FileAction>)
        requires
            self.wf(),
        ensures
            match r {
                Some(action) => {
                    &&& self@.stage is Files
                    &&& index < crate::modules::boot_files(self@.claims()).len()
                    &&& action@ == crate::modules::boot_files(self@.claims())[index as int]
                },
                None => !(self@.stage is Files) || index >= crate::modules::boot_files(
                    self@.claims(),
                ).len(),
            },
    {
        match self.stage {
            Stage::Files(_) => {},
            _ => {
                return None;
            },
        }
        assert(self.plan.files@.len() == crate::modules::file_texts(self.plan.files@).len());
        if index < self.plan.files.len() {
            assert(self.plan.files@[index as int]@ == crate::modules::file_texts(
                self.plan.files@,
            )[index as int]);
            Some(&self.plan.files[index])
        } else {
            None
        }
    }

    /// The driver that the device being released is bound to.
    pub fn held(&self) -> (r: &str)
        ensures
            r@ == self@.held,
    {
        self.held.as_str()
    }

    /// What has been said so far, line by line.
    pub fn said(&self) -> (r: &Vec<String>)
        ensures
            crate::text::texts(r@) == self@.said,
    {
        &self.said
    }

    /// Why the run ended early, where it did.
    pub fn stop(&self) -> (r: Option<&Stop>)
        ensures
            match (r, self@.stop) {
                (Some(stop), Some(text)) => stop@ == text,
                (None, None) => true,
                _ => false,
            },
    {
        match &self.stop {
            Some(stop) => Some(stop),
            None => None,
        }
    }
}

/// How a run begins: nothing found, nothing done, nothing said.
pub proof fn law_a_run_begins_with_nothing(
    mode: Mode,
    devices_dir: Seq<char>,
    osrelease: Seq<char>,
    dev_vfio: Seq<Seq<char>>,
)
    ensures
        ({
            let start = started(mode, devices_dir, osrelease, dev_vfio);
            &&& start.mode == mode
            &&& start.devices_dir == devices_dir
            &&& start.osrelease == osrelease
            &&& start.dev_vfio == dev_vfio
            &&& start.action() == Action::ReadHost
            &&& start.states.len() == 0
            &&& start.drivers == Map::<Seq<char>, VfioDriver>::empty()
            &&& start.said.len() == 0
            &&& start.stop is None
        }),
{
}

/// What is done at each stage. A run that was stopped does nothing more.
pub proof fn law_each_stage_has_its_action(s: RunState)
    ensures
        s.stop is Some ==> s.action() == Action::Stopped,
        s.stop is None ==> s.action() == (match s.stage {
            Stage::Host => Action::ReadHost,
            Stage::Enumerate => Action::Enumerate,
            Stage::Idle(i) => Action::Scan { device: i },
            Stage::Kernel => Action::ReadRelease,
            Stage::Find(i) => Action::FindModule { device: i },
            Stage::Load(i) => Action::LoadModule { device: i },
            Stage::Driver(i) => Action::FindDriver { device: i },
            Stage::Board => Action::Board(s.board.work()),
            Stage::Files(i) => Action::File { index: i },
            Stage::Bind(i) => Action::Bind { device: i },
            Stage::Ask(i) => Action::AskDriver { device: i },
            Stage::Release(i) => Action::Unbind { device: i },
            Stage::Bound(i) => Action::CheckBound { device: i },
            Stage::Reopen(i) => Action::Reopen { device: i },
            Stage::Recheck(i) => Action::Reread { device: i },
            Stage::Finished => Action::Finished,
        }),
{
}

/// A node goes on past the host check exactly where nothing is wrong with it.
pub proof fn law_the_host_check_decides(s: RunState, facts: HostFacts)
    requires
        s.stop is None,
        s.stage == Stage::Host,
    ensures
        crate::host::host_conflict(facts) is None ==> s.after(Event::Host(facts)) == (RunState {
            stage: Stage::Enumerate,
            ..s
        }),
        crate::host::host_conflict(facts) matches Some(message) ==> s.after(Event::Host(facts))
            == (RunState { stop: Some(crate::refusal::StopText::Refused { message }), ..s }),
        s.after(Event::Host(facts)).stop is None <==> {
            &&& facts.iommu_groups@.len() > 0
            &&& forall|i: int|
                0 <= i < facts.nvidia@.len() ==> !(#[trigger] facts.nvidia@[i]).is_device
            &&& forall|i: int|
                0 <= i < facts.nouveau@.len() ==> !(#[trigger] facts.nouveau@[i]).is_device
        },
{
    crate::host::law_a_host_is_fit_exactly_without_conflict(facts);
}

/// A run takes every device that can be passed through and is an NVIDIA GPU or
/// NVSwitch, whatever driver has it, and no other. It is refused without one,
/// and where a GPU cannot do the mode.
pub proof fn law_a_run_takes_every_device_in_scope(s: RunState, devices: Vec<PciDevice>)
    requires
        s.stop is None,
        s.stage == Stage::Enumerate,
        devices@.len() <= usize::MAX,
    ensures
        ({
            let after = s.after(Event::Devices(devices));
            let found = crate::device::scoped(crate::device::discovered(devices@));
            &&& after.stop is None <==> found.len() > 0 && crate::provision::incapacity(
                found,
                s.mode,
            ) is None
            &&& after.stop is None ==> {
                &&& after == (RunState { states: found, stage: Stage::Idle(0), ..s })
                &&& forall|i: int|
                    0 <= i < devices@.len() && (#[trigger] devices@[i]).passthrough_capable
                        && devices@[i].vendor == 0x10de && ((devices@[i].class / 256) % 65536
                        == 0x0302 || (devices@[i].class / 256) % 65536 == 0x0680)
                        ==> after.states.contains(crate::device::state_of(devices@[i]))
            }
            &&& found.len() == 0 ==> after == (RunState {
                stop: Some(
                    crate::refusal::StopText::Refused {
                        message:
                            "no devices in scope: this node was selected for provisioning but has none"@,
                    },
                ),
                ..s
            })
            &&& found.len() > 0 && after.stop is Some ==> after == (RunState {
                stop: Some(
                    crate::refusal::StopText::Refused {
                        message: crate::provision::incapacity(found, s.mode)->0,
                    },
                ),
                ..s
            })
        }),
{
    assert forall|i: int|
        0 <= i < devices@.len() && (#[trigger] devices@[i]).passthrough_capable
            && devices@[i].vendor == 0x10de && ((devices@[i].class / 256) % 65536 == 0x0302 || (
        devices@[i].class / 256) % 65536 == 0x0680) implies crate::device::scoped(
        crate::device::discovered(devices@),
    ).contains(crate::device::state_of(devices@[i])) by {
        crate::device::law_every_gpu_and_switch_is_in_scope(devices@, i);
    }
}

/// A run is refused where the scan of a device finds a process that has the node
/// of its IOMMU group or of one of its character devices open.
pub proof fn law_a_device_in_use_stops_the_run(
    s: RunState,
    i: usize,
    cdevs: Vec<String>,
    processes: Vec<Process>,
    p: int,
    link: int,
    pid: u32,
    c: int,
)
    requires
        s.stop is None,
        s.stage == Stage::Idle(i),
        0 <= p < processes@.len(),
        processes@[p].name@ == crate::numeral::decimal_text(pid as int),
        0 <= link < processes@[p].targets@.len(),
        (s.states[i as int].iommu_group >= 0 && processes@[p].targets@[link]@ == s.dev_vfio.push(
            crate::numeral::decimal_text(s.states[i as int].iommu_group as int),
        )) || (0 <= c < cdevs@.len() && processes@[p].targets@[link]@ == s.dev_vfio.push(
            "devices"@,
        ).push(cdevs@[c]@)),
    ensures
        s.after(Event::Scan(cdevs, processes)).stop matches Some(
            crate::refusal::StopText::Refused { .. },
        ),
{
    let names = crate::text::texts(cdevs@);
    if 0 <= c < cdevs@.len() {
        assert(names[c] == cdevs@[c]@);
    }
    crate::idle::law_a_vm_on_the_device_is_found(
        processes@,
        p,
        link,
        pid,
        s.dev_vfio,
        s.states[i as int].iommu_group,
        names,
        c,
    );
}

/// A scan lets the run go on exactly where nobody holds the device, and refuses
/// it otherwise, naming the first who does. The next device is scanned, or the
/// kernel's release read after the last.
pub proof fn law_the_scan_decides(
    s: RunState,
    i: usize,
    cdevs: Vec<String>,
    processes: Vec<Process>,
)
    requires
        s.stop is None,
        s.stage == Stage::Idle(i),
        i < s.states.len() <= usize::MAX,
    ensures
        ({
            let after = s.after(Event::Scan(cdevs, processes));
            let found = crate::idle::holders_of(
                processes@,
                crate::idle::nodes_of(
                    s.dev_vfio,
                    s.states[i as int].iommu_group,
                    crate::text::texts(cdevs@),
                ),
            );
            &&& found.len() == 0 && i + 1 < s.states.len() ==> after == (RunState {
                stage: Stage::Idle((i + 1) as usize),
                ..s
            })
            &&& found.len() == 0 && i + 1 >= s.states.len() ==> after == (RunState {
                stage: Stage::Kernel,
                ..s
            })
            &&& found.len() > 0 ==> after == (RunState {
                stop: Some(
                    crate::refusal::StopText::Refused {
                        message: crate::provision::in_use(
                            s.states[i as int].address@,
                            found[0],
                        ),
                    },
                ),
                ..s
            })
        }),
{
}

/// The alias table is that of the release that was read.
pub proof fn law_the_alias_table_is_the_running_kernels(s: RunState, text: String)
    requires
        s.stop is None,
        s.stage == Stage::Kernel,
    ensures
        s.after(Event::KernelRelease(text)).alias == seq![
            "lib/modules"@,
            crate::text::trimmed(text@),
            "modules.alias"@,
        ],
        s.after(Event::KernelRelease(text)).states == s.states,
        s.passed().len() > 0 ==> s.after(Event::KernelRelease(text)).stage == Stage::Find(0)
            && s.after(Event::KernelRelease(text)).stop is None,
{
}

/// The module that was found is the one that is loaded, unless the device is
/// coherently attached and the module is the plain one, in either spelling: that
/// refuses the node.
pub proof fn law_the_module_found_is_loaded(s: RunState, i: usize, module: String)
    requires
        s.stop is None,
        s.stage == Stage::Find(i),
        i < s.passed().len(),
    ensures
        ({
            let after = s.after(Event::Module(module));
            let plain = module@ == "vfio_pci"@ || module@ == "vfio-pci"@;
            &&& !(s.passed()[i as int].c2c && plain) ==> after == (RunState {
                module: Some(module),
                stage: Stage::Load(i),
                ..s
            })
            &&& s.passed()[i as int].c2c && plain ==> after == (RunState {
                stop: Some(
                    crate::refusal::StopText::Refused {
                        message: crate::provision::needs_variant(s.passed()[i as int], module@),
                    },
                ),
                ..s
            })
        }),
{
    crate::modules::law_plain_has_two_spellings(module@);
}

/// The module and the driver that were found are kept for the device's address,
/// and what was kept for any other stays. The next device follows.
pub proof fn law_a_found_driver_is_kept(s: RunState, i: usize, driver: String)
    requires
        s.stop is None,
        s.stage == Stage::Driver(i),
        i < s.passed().len(),
        s.module is Some,
    ensures
        ({
            let after = s.after(Event::Driver(driver));
            let address = s.passed()[i as int].address@;
            &&& after.drivers.contains_key(address)
            &&& after.drivers[address].module == s.module->0
            &&& after.drivers[address].driver == driver
            &&& forall|other: Seq<char>|
                other != address ==> {
                    &&& #[trigger] after.drivers.contains_key(other) == s.drivers.contains_key(other)
                    &&& after.drivers[other] == s.drivers[other]
                }
            &&& after.states == s.states
            &&& i + 1 < s.passed().len() ==> after.stage == Stage::Find((i + 1) as usize)
                && after.stop is None && after.said == s.said
        }),
{
    let address = s.passed()[i as int].address@;
    let kept = RunState {
        drivers: s.drivers.insert(address, VfioDriver { module: s.module->0, driver }),
        ..s
    };
    assert(s.after(Event::Driver(driver)).drivers == kept.drivers);
}

/// Whatever does not answer the action at hand is its failure: the run stops
/// where it stands, and says what was going on.
pub proof fn law_what_is_no_answer_is_a_failure(s: RunState, event: Event)
    requires
        !s.over(),
        s.stage != Stage::Board,
        !(match s.stage {
            Stage::Host => event is Host,
            Stage::Enumerate => event is Devices,
            Stage::Idle(_) => event is Scan,
            Stage::Kernel => event is KernelRelease,
            Stage::Find(_) => event is Module,
            Stage::Driver(_) => event is Driver,
            Stage::Bind(_) => event is Bound,
            Stage::Ask(_) => event is Current,
            Stage::Recheck(_) => event is Read,
            _ => event == Event::Done,
        }),
    ensures
        s.after(event) == (RunState {
            stop: Some(
                crate::refusal::StopText::Failed {
                    context: match s.stage {
                        Stage::Enumerate => Some("enumerate PCI devices under "@ + s.devices_dir),
                        Stage::Kernel => Some("read the kernel release from "@ + s.osrelease),
                        Stage::Find(i) => Some(
                            s.passed()[i as int].address@ + ": find its vfio module"@,
                        ),
                        Stage::Load(i) => Some(
                            s.passed()[i as int].address@ + (": load "@ + s.module->0@),
                        ),
                        Stage::Driver(i) => Some(
                            s.passed()[i as int].address@ + (": find the driver "@ + s.module->0@
                                + " registers"@),
                        ),
                        Stage::Release(i) => Some(
                            s.states[i as int].address@ + (": release from "@ + s.held),
                        ),
                        Stage::Reopen(i) => Some(
                            s.passed()[i as int].address@ + ": open to verify"@,
                        ),
                        Stage::Recheck(i) => Some(s.passed()[i as int].address@ + ": verify mode"@),
                        _ => None,
                    },
                },
            ),
            ..s
        }),
{
}

/// The board hears of an event as what it is: done, a reading, and a failure for
/// anything else.
pub proof fn law_the_board_hears_what_happened(s: RunState, event: Event, reading: Reading)
    requires
        s.stop is None,
        s.stage == Stage::Board,
    ensures
        RunState::report(Event::Done) == Report::Done,
        RunState::report(Event::Read(reading)) == Report::Read(reading),
        event != Event::Done && !(event is Read) ==> RunState::report(event) == Report::Failed,
        s.after(event).board == s.board.after(RunState::report(event)),
        s.after(event).stop == (if s.board.after(RunState::report(event)).stop is Some {
            s.board.after(RunState::report(event)).stop
        } else {
            None
        }),
        s.board.after(RunState::report(event)).work() == Work::Settled ==> s.after(event).stage
            == Stage::Files(0),
{
}

/// What the reading at the end makes of a device: it lets the run go on exactly
/// where it is one of such a device and in the mode.
pub proof fn law_the_last_reading_decides(s: RunState, i: usize, reading: Reading)
    requires
        s.sound(),
        s.stop is None,
        s.stage == Stage::Recheck(i),
    ensures
        ({
            let after = s.after(Event::Read(reading));
            let kind = crate::nvidia::handle_of(s.passed()[i as int])->0;
            let fits = (reading is Gpu) == (kind == crate::nvidia::HandleKind::Gpu);
            &&& after.stop is None <==> fits && reading.modes().are(s.mode)
            &&& !fits ==> after.stop == Some(
                crate::refusal::StopText::Failed {
                    context: Some(s.passed()[i as int].address@ + ": verify mode"@),
                },
            )
            &&& fits && !reading.modes().are(s.mode) ==> after.stop == Some(
                crate::refusal::StopText::Refused {
                    message: crate::nvidia::mismatch(
                        s.passed()[i as int].address@,
                        reading.modes(),
                        s.mode,
                    ),
                },
            )
            &&& after.stop is None && i + 1 < s.passed().len() ==> after.stage == Stage::Bound(
                (i + 1) as usize,
            )
            &&& after.stop is None && i + 1 >= s.passed().len() ==> after.stage == Stage::Finished
        }),
{
}

/// A device that was seen to be bound is opened once more where it has modes, and
/// is done with where it has none.
pub proof fn law_a_bound_device_is_opened_for_its_modes(s: RunState, i: usize)
    requires
        s.sound(),
        s.stop is None,
        s.stage == Stage::Bound(i),
    ensures
        ({
            let after = s.after(Event::Done);
            let state = s.passed()[i as int];
            let has_modes = state.row matches Some(row) && (row.provisioning
                == Provisioning::NvidiaInBandPpcie || state.cc_chip is Some);
            &&& after.stop is None
            &&& has_modes ==> after.stage == Stage::Reopen(i)
            &&& !has_modes && i + 1 < s.passed().len() ==> after.stage == Stage::Bound(
                (i + 1) as usize,
            )
            &&& !has_modes && i + 1 >= s.passed().len() ==> after.stage == Stage::Finished
        }),
{
    crate::nvidia::law_what_is_opened_for_its_modes(s.passed()[i as int]);
}

/// What was said is never taken back.
proof fn lemma_says_more(s: RunState, i: int)
    requires
        0 <= i,
    ensures
        s.to_ask(i).said.len() >= s.said.len(),
        s.to_ask(i).said.take(s.said.len() as int) == s.said,
        s.to_ask(i).stage == Stage::Finished ==> s.to_ask(i).said == s.said.push(
            finished_line(s.mode, s.passed().len()),
        ),
        s.to_ask(i).stage != Stage::Finished ==> s.to_ask(i).said == s.said,
    decreases s.states.len() - i,
{
    if i < s.states.len() && crate::provision::has_address(s.passed(), s.states[i].address@) {
        lemma_says_more(s, i + 1);
    }
    assert(s.said + seq![finished_line(s.mode, s.passed().len())] =~= s.said.push(
        finished_line(s.mode, s.passed().len()),
    ));
    assert(s.said.take(s.said.len() as int) =~= s.said);
    assert(s.said.push(finished_line(s.mode, s.passed().len())).take(s.said.len() as int)
        =~= s.said);
}

/// What is said of the binding: the device, that it was bound or had been, and
/// the driver that was found for it.
pub proof fn law_a_binding_is_told(s: RunState, i: usize, bound: Bound)
    requires
        s.sound(),
        s.stop is None,
        s.stage == Stage::Bind(i),
    ensures
        ({
            let after = s.after(Event::Bound(bound));
            let address = s.passed()[i as int].address@;
            let n = s.said.len() as int;
            &&& after.stop is None
            &&& after.said.len() > n
            &&& after.said.take(n) == s.said
            &&& bound == Bound::Now ==> after.said[n] == address + ": bound to "@
                + s.drivers[address].driver@
            &&& bound == Bound::Already ==> after.said[n] == address + ": already bound to "@
                + s.drivers[address].driver@
            &&& i + 1 < s.passed().len() ==> after.stage == Stage::Bind((i + 1) as usize)
        }),
{
    let address = s.passed()[i as int].address@;
    let line = bound_line(address, bound, s.drivers[address].driver@);
    let told = s.saying(seq![line]);
    lemma_says_more(told, 0);
    lemma_late_event(s, Event::Bound(bound));
    let after = s.after(Event::Bound(bound));
    let n = s.said.len() as int;
    assert(told.passed() == s.passed());
    assert(told.said =~= s.said.push(line));
    if i + 1 < s.passed().len() {
        assert(after.said =~= told.said);
    } else {
        assert(after.said.take(n + 1) =~= told.said);
        assert(after.said[n] == after.said.take(n + 1)[n]);
    }
    assert(after.said.take(n) =~= s.said) by {
        assert(after.said.take(n + 1) =~= told.said);
        assert(after.said.take(n) =~= after.said.take(n + 1).take(n));
    }
}

/// What is said of a release: the device and the driver it was taken from.
pub proof fn law_a_release_is_told(s: RunState, i: usize)
    requires
        s.sound(),
        s.stop is None,
        s.stage == Stage::Release(i),
    ensures
        ({
            let after = s.after(Event::Done);
            let n = s.said.len() as int;
            &&& after.said.len() > n
            &&& after.said.take(n) == s.said
            &&& after.said[n] == s.states[i as int].address@ + ": released from "@ + s.held
        }),
{
    let line = s.states[i as int].address@ + ": released from "@ + s.held;
    let told = s.saying(seq![line]);
    lemma_says_more(told, i + 1);
    let after = s.after(Event::Done);
    let n = s.said.len() as int;
    assert(told.said =~= s.said.push(line));
    assert(after.said.take(n + 1) =~= told.said);
    assert(after.said[n] == after.said.take(n + 1)[n]);
    assert(after.said.take(n) =~= after.said.take(n + 1).take(n));
}

/// A vfio driver that has a device is kept in mind for its release, and any
/// other, or none, lets the run pass the device by.
pub proof fn law_the_driver_at_hand_decides(s: RunState, i: usize, current: Option<String>)
    requires
        s.sound(),
        s.stop is None,
        s.stage == Stage::Ask(i),
    ensures
        ({
            let after = s.after(Event::Current(current));
            let vfio = current is Some && exists|k: int|
                {
                    &&& 0 <= k
                    &&& k + 4 <= current->0@.len()
                    &&& #[trigger] current->0@[k] == 'v'
                    &&& current->0@[k + 1] == 'f'
                    &&& current->0@[k + 2] == 'i'
                    &&& current->0@[k + 3] == 'o'
                };
            &&& after.stop is None
            &&& vfio ==> after.stage == Stage::Release(i) && after.held == current->0@
            &&& !vfio ==> !(after.stage is Release)
        }),
{
    lemma_late_event(s, Event::Current(current));
    if current is Some {
        crate::provision::law_a_vfio_driver_has_vfio_in_its_name(current->0@);
    }
}

/// A run that finishes says last that the node is provisioned, with the mode and
/// the number of devices that are passed through.
pub proof fn law_the_last_word_of_a_run(s: RunState, event: Event)
    requires
        s.sound(),
        !s.over(),
        s.after(event).stage == Stage::Finished,
        s.after(event).stop is None,
    ensures
        s.after(event).said.len() > s.said.len(),
        s.after(event).said.last() == "node provisioned: mode="@ + s.mode.text() + ", "@
            + crate::numeral::decimal_text(s.passed().len() as int) + " devices"@,
{
    let line = finished_line(s.mode, s.passed().len());
    crate::board::lemma_begun(s.states, s.mode);
    match (s.stage, event) {
        (Stage::Files(i), Event::Done) => {
            let told = s.saying(
                persist_lines(s.passed().len(), crate::modules::overridden(s.claims())),
            );
            lemma_says_more(told, 0);
        },
        (Stage::Bind(i), Event::Bound(bound)) => {
            let told = s.saying(
                seq![
                    bound_line(
                        s.passed()[i as int].address@,
                        bound,
                        s.drivers[s.passed()[i as int].address@].driver@,
                    ),
                ],
            );
            lemma_says_more(told, 0);
        },
        (Stage::Ask(i), Event::Current(_)) => {
            lemma_says_more(s, i + 1);
        },
        (Stage::Release(i), Event::Done) => {
            let told = s.saying(
                seq![s.states[i as int].address@ + ": released from "@ + s.held],
            );
            lemma_says_more(told, i + 1);
        },
        _ => {},
    }
}

/// What is said before the board is worked on: of each GPU without a CC chip, in
/// order, that it is only bound.
pub proof fn law_gpus_without_a_mode_are_told(
    a: Seq<DeviceState>,
    b: Seq<DeviceState>,
    state: DeviceState,
)
    ensures
        bind_only(a + b) == bind_only(a) + bind_only(b),
        bind_only(seq![state]) == (if state.row matches Some(row) && row.provisioning
            == Provisioning::NvidiaInBandCc && state.cc_chip is None {
            seq![state.address@ + ": no CC support, bind only"@]
        } else {
            Seq::empty()
        }),
    decreases b.len(),
{
    reveal_with_fuel(bind_only, 2);
    let one = seq![state];
    assert(one.drop_last() =~= Seq::<DeviceState>::empty());
    assert(bind_only(one) =~= (if state.row matches Some(row) && row.provisioning
        == Provisioning::NvidiaInBandCc && state.cc_chip is None {
        seq![state.address@ + ": no CC support, bind only"@]
    } else {
        Seq::empty()
    }));
    if b.len() == 0 {
        assert(a + b =~= a);
        assert(bind_only(a + b) =~= bind_only(a) + bind_only(b));
    } else {
        assert((a + b).drop_last() =~= a + b.drop_last());
        law_gpus_without_a_mode_are_told(a, b.drop_last(), state);
        assert(bind_only(a + b) =~= bind_only(a) + bind_only(b));
    }
}

/// What is said of the board and of the boot configuration.
pub proof fn law_what_is_said_of_the_outcome(
    states: Seq<DeviceState>,
    mode: Mode,
    outcomes: Seq<(Seq<char>, Transition)>,
    i: int,
    count: nat,
    carried: Seq<Seq<char>>,
)
    requires
        0 <= i < outcomes.len(),
    ensures
        outcome_lines(states, mode, outcomes).len() == outcomes.len(),
        outcomes[i].1 == Transition::AlreadySet ==> outcome_lines(states, mode, outcomes)[i]
            == outcomes[i].0 + ": already "@ + crate::provision::target_text(
            states,
            outcomes[i].0,
            mode,
        ),
        outcomes[i].1 == Transition::Applied ==> outcome_lines(states, mode, outcomes)[i]
            == outcomes[i].0 + ": set to "@ + crate::provision::target_text(
            states,
            outcomes[i].0,
            mode,
        ) + " and reset"@,
        persist_lines(count, carried)[0] == "boot config written for "@
            + crate::numeral::decimal_text(count as int) + " devices"@,
        carried.len() == 0 ==> persist_lines(count, carried).len() == 1,
        carried.len() > 0 ==> persist_lines(count, carried).len() == 2 && persist_lines(
            count,
            carried,
        )[1] == crate::numeral::decimal_text(carried.len() as int)
            + " through a udev rule, which is what carries driver_override: "@
            + crate::text::joined(carried, ", "@),
{
}

/// What a run passes through is every device it took but, under any mode other
/// than PPCIE, the NVSwitches. What it claims for the boot is each of those, with
/// the module and driver that were found for it.
pub proof fn law_what_a_run_passes_through_and_claims(s: RunState, state: DeviceState, i: int)
    ensures
        s.passed().contains(state) <==> s.states.contains(state) && (s.mode == Mode::Ppcie || !(
        state.row matches Some(row) && row.provisioning == Provisioning::NvidiaInBandPpcie)),
        s.mode == Mode::Ppcie ==> s.passed() == s.states,
        s.claims().len() == s.passed().len(),
        0 <= i < s.passed().len() ==> {
            &&& s.claims()[i].address == s.passed()[i].address
            &&& s.claims()[i].vendor == s.passed()[i].vendor
            &&& s.claims()[i].device == s.passed()[i].device_id
            &&& s.claims()[i].module == s.drivers[s.passed()[i].address@].module
            &&& s.claims()[i].driver == s.drivers[s.passed()[i].address@].driver
        },
        s.over() <==> s.stop is Some || s.stage == Stage::Finished,
{
    crate::provision::law_only_a_switch_is_ever_kept_back(
        s.states,
        Seq::empty(),
        state,
        s.mode,
    );
    crate::provision::law_switches_pass_only_under_ppcie(s.states, s.mode);
    if 0 <= i < s.passed().len() {
        crate::provision::law_a_claim_is_its_devices(s.passed(), s.drivers, i);
    }
}

proof fn lemma_enumerated_state(devices: Seq<PciDevice>, i: int)
    requires
        0 <= i < devices.len(),
        devices[i].passthrough_capable,
        devices[i].vendor == 0x10de,
        (devices[i].class / 256) % 65536 == 0x0302,
    ensures
        ({
            let found = crate::device::scoped(crate::device::discovered(devices));
            exists|k: int|
                {
                    &&& 0 <= k < found.len()
                    &&& (#[trigger] found[k]).row is Some
                    &&& found[k].row->0.provisioning == Provisioning::NvidiaInBandCc
                    &&& found[k].cc_chip is Some <==> devices[i].chip is Some
                    &&& found[k].chip == devices[i].chip
                    &&& found[k].c2c == devices[i].c2c
                }
        }),
{
    let found = crate::device::scoped(crate::device::discovered(devices));
    crate::device::law_every_gpu_and_switch_is_in_scope(devices, i);
    crate::device::law_a_state_tells_what_was_enumerated(devices[i]);
    crate::device::law_vendor_and_class_make_the_row(devices[i].vendor, devices[i].class);
    let k = choose|k: int|
        0 <= k < found.len() && found[k] == crate::device::state_of(devices[i]);
    assert(found[k].row is Some);
}

/// A node with devices in scope is taken into a mode exactly where each of its
/// GPUs can do the mode, by what was enumerated: off takes nothing, on and
/// devtools take a chip with CC and PPCIE takes a Hopper, and none of the three
/// goes with a GPU that is coherently attached.
pub proof fn law_a_node_is_taken_exactly_where_its_gpus_can_do_the_mode(
    s: RunState,
    devices: Vec<PciDevice>,
)
    requires
        s.stop is None,
        s.stage == Stage::Enumerate,
        crate::device::scoped(crate::device::discovered(devices@)).len() > 0,
    ensures
        s.after(Event::Devices(devices)).stop is None <==> s.mode == Mode::Off || forall|i: int|
            0 <= i < devices@.len() && (#[trigger] devices@[i]).passthrough_capable
                && devices@[i].vendor == 0x10de && (devices@[i].class / 256) % 65536 == 0x0302 ==> {
                &&& !devices@[i].c2c
                &&& devices@[i].chip is Some
                &&& s.mode == Mode::Ppcie ==> devices@[i].chip->0.hopper
            },
{
    let found = crate::device::scoped(crate::device::discovered(devices@));
    crate::provision::law_a_mode_is_refused_exactly_where_a_gpu_cannot_do_it(found, s.mode);
    assert(s.after(Event::Devices(devices)).stop is None <==> crate::provision::incapacity(
        found,
        s.mode,
    ) is None);
    if s.mode != Mode::Off {
        if crate::provision::incapacity(found, s.mode) is None {
            assert forall|i: int|
                0 <= i < devices@.len() && (#[trigger] devices@[i]).passthrough_capable
                    && devices@[i].vendor == 0x10de && (devices@[i].class / 256) % 65536
                    == 0x0302 implies {
                &&& !devices@[i].c2c
                &&& devices@[i].chip is Some
                &&& s.mode == Mode::Ppcie ==> devices@[i].chip->0.hopper
            } by {
                lemma_enumerated_state(devices@, i);
            }
        } else {
            let k = choose|k: int|
                0 <= k < found.len() && (#[trigger] found[k]).row is Some
                    && found[k].row->0.provisioning == Provisioning::NvidiaInBandCc && !(
                !found[k].c2c && (if s.mode == Mode::Ppcie {
                    found[k].chip matches Some(chip) && chip.hopper
                } else {
                    found[k].cc_chip is Some
                }));
            assert(found.contains(found[k]));
            crate::device::law_only_gpus_and_switches_are_in_scope(devices@, found[k]);
            let i = choose|i: int|
                {
                    &&& 0 <= i < devices@.len()
                    &&& found[k] == crate::device::state_of(#[trigger] devices@[i])
                    &&& devices@[i].passthrough_capable
                    &&& devices@[i].vendor == 0x10de
                    &&& (devices@[i].class / 256) % 65536 == 0x0302 || (devices@[i].class / 256)
                        % 65536 == 0x0680
                };
            crate::device::law_a_state_tells_what_was_enumerated(devices@[i]);
            crate::device::law_vendor_and_class_make_the_row(devices@[i].vendor, devices@[i].class);
            assert(devices@[i].passthrough_capable);
        }
    }
}

/// The steps that only lead on: a loaded module is asked for its driver, a device
/// that was opened once more is read, and the files follow one another until the
/// third, after which it is said how many devices they are for and the binding
/// begins.
pub proof fn law_one_step_leads_to_the_next(s: RunState, i: usize)
    requires
        s.sound(),
        s.stop is None,
    ensures
        s.stage == Stage::Load(i) ==> s.after(Event::Done) == (RunState {
            stage: Stage::Driver(i),
            ..s
        }),
        s.stage == Stage::Reopen(i) ==> s.after(Event::Done) == (RunState {
            stage: Stage::Recheck(i),
            ..s
        }),
        s.stage == Stage::Files(i) && i < 2 ==> s.after(Event::Done) == (RunState {
            stage: Stage::Files((i + 1) as usize),
            ..s
        }),
        s.stage == Stage::Files(i) && i >= 2 && s.passed().len() > 0 ==> s.after(Event::Done) == (
        RunState {
            stage: Stage::Bind(0),
            said: s.said + persist_lines(
                s.passed().len(),
                crate::modules::overridden(s.claims()),
            ),
            ..s
        }),
{
}

/// After the last binding, and after a device that is not passed through was
/// dealt with, the next such device is asked about; after the last of them the
/// verifying begins, or the run is over where nothing is passed through.
pub proof fn law_the_next_device_that_is_not_passed_through_is_asked_about(
    s: RunState,
    event: Event,
    from: int,
)
    requires
        s.sound(),
        s.stop is None,
        match s.stage {
            Stage::Bind(i) => event is Bound && i + 1 == s.passed().len() && from == 0,
            Stage::Ask(i) => event == Event::Current(None) && from == i + 1,
            Stage::Release(i) => event == Event::Done && from == i + 1,
            _ => false,
        },
    ensures
        ({
            let after = s.after(event);
            &&& after.stop is None
            &&& after.stage matches Stage::Ask(j) ==> {
                &&& from <= j < s.states.len()
                &&& forall|p: int|
                    0 <= p < s.passed().len() ==> (#[trigger] s.passed()[p]).address@
                        != s.states[j as int].address@
                &&& forall|k: int|
                    from <= k < j ==> exists|p: int|
                        0 <= p < s.passed().len() && (#[trigger] s.passed()[p]).address@
                            == (#[trigger] s.states[k]).address@
            }
            &&& !(after.stage is Ask) ==> {
                &&& after.stage == (if s.passed().len() > 0 {
                    Stage::Bound(0)
                } else {
                    Stage::Finished
                })
                &&& forall|k: int|
                    from <= k < s.states.len() ==> exists|p: int|
                        0 <= p < s.passed().len() && (#[trigger] s.passed()[p]).address@
                            == (#[trigger] s.states[k]).address@
            }
        }),
{
    lemma_late_event(s, event);
    let after = s.after(event);
    assert(s.asks_from(from, after.stage));
    assert forall|k: int|
        from <= k < s.states.len() && s.keeps(k) implies exists|p: int|
        0 <= p < s.passed().len() && (#[trigger] s.passed()[p]).address@ == (
        #[trigger] s.states[k]).address@ by {
        let p = choose|p: int|
            0 <= p < s.passed().len() && (#[trigger] s.passed()[p]).address@ == s.states[k].address@;
        assert(s.passed()[p].address@ == s.states[k].address@);
    }
    if let Stage::Ask(j) = after.stage {
        assert(!s.keeps(j as int));
        assert forall|k: int| from <= k < j implies exists|p: int|
            0 <= p < s.passed().len() && (#[trigger] s.passed()[p]).address@ == (
            #[trigger] s.states[k]).address@ by {
            assert(s.keeps(k));
        }
    } else {
        assert forall|k: int| from <= k < s.states.len() implies exists|p: int|
            0 <= p < s.passed().len() && (#[trigger] s.passed()[p]).address@ == (
            #[trigger] s.states[k]).address@ by {
            assert(s.keeps(k));
        }
    }
}

/// Once every driver is known the board of all devices that the run took is worked
/// on, after it is said which GPUs are only bound. Once it has settled it is said
/// what became of each device, and the boot configuration follows.
pub proof fn law_the_board_follows_the_drivers(s: RunState, i: usize, driver: String)
    requires
        s.stop is None,
        s.stage == Stage::Driver(i),
        s.module is Some,
        i + 1 == s.passed().len(),
    ensures
        ({
            let after = s.after(Event::Driver(driver));
            let board = crate::board::begun(s.states, s.mode);
            &&& after.board == board
            &&& after.stop is None
            &&& board.work() != Work::Settled ==> after.stage == Stage::Board && after.said
                == s.said + bind_only(s.states)
            &&& board.work() == Work::Settled ==> after.stage == Stage::Files(0) && after.said
                == s.said + bind_only(s.states) + outcome_lines(
                s.states,
                s.mode,
                board.outcomes(),
            )
        }),
{
    crate::board::lemma_begun(s.states, s.mode);
    let address = s.passed()[i as int].address@;
    let kept = RunState {
        drivers: s.drivers.insert(address, VfioDriver { module: s.module->0, driver }),
        ..s
    };
    assert(kept.passed() == s.passed());
    assert(s.after(Event::Driver(driver)) == kept.to_find(i + 1));
}

/// A board that has settled is told device by device, and one that has not is
/// worked on further with nothing said.
pub proof fn law_the_board_is_told_once_it_has_settled(s: RunState, event: Event)
    requires
        s.stop is None,
        s.stage == Stage::Board,
    ensures
        ({
            let board = s.board.after(RunState::report(event));
            let after = s.after(event);
            &&& board.work() == Work::Settled ==> after.said == s.said + outcome_lines(
                s.states,
                s.mode,
                board.outcomes(),
            ) && after.stage == Stage::Files(0)
            &&& board.work() != Work::Settled ==> after.said == s.said && after.stage
                == Stage::Board
            &&& after.states == s.states
            &&& after.drivers == s.drivers
        }),
{
}

/// A node of which nothing is passed through is worked on like any other: after
/// the kernel's release comes the board, and after the boot configuration the
/// devices that are asked about.
pub proof fn law_a_node_that_passes_nothing_through_goes_on(s: RunState, text: String)
    requires
        s.sound(),
        s.stop is None,
        s.passed().len() == 0,
    ensures
        s.stage == Stage::Kernel ==> {
            let after = s.after(Event::KernelRelease(text));
            &&& after.stop is None
            &&& after.board == crate::board::begun(s.states, s.mode)
            &&& after.stage == (if after.board.work() == Work::Settled {
                Stage::Files(0)
            } else {
                Stage::Board
            })
        },
        s.stage == Stage::Files(2) ==> {
            let after = s.after(Event::Done);
            &&& after.stop is None
            &&& s.states.len() > 0 ==> after.stage == Stage::Ask(0)
            &&& s.states.len() == 0 ==> after.stage == Stage::Finished
        },
{
    crate::board::lemma_begun(s.states, s.mode);
    if s.stage == Stage::Files(2) {
        lemma_late_event(s, Event::Done);
        let after = s.after(Event::Done);
        assert(s.asks_from(0, after.stage));
        if s.states.len() > 0 {
            assert(!s.keeps(0));
            if let Stage::Ask(j) = after.stage {
                if j > 0 {
                    assert(s.keeps(0));
                }
            }
        }
    }
}

} // verus!
