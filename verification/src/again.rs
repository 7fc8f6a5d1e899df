//! Applying a mode to a node that a run has brought into it: the second run
//! changes nothing.
use vstd::prelude::*;

use crate::board::targets;
use crate::device::DeviceState;
use crate::history::{acted, after_all, found_idle, is_new, next, rank};
use crate::modules::{boot_files, performed};
use crate::run::{Action, Bound, Event, RunState, Stage};

verus! {

/// The two are one device, as far as a run goes by it. The driver that it is
/// bound to may differ: binding it is what a run does.
pub open spec fn same_device(a: DeviceState, b: DeviceState) -> bool {
    &&& a.address@ == b.address@
    &&& a.vendor == b.vendor
    &&& a.device_id == b.device_id
    &&& a.kind() == b.kind()
    &&& a.has_cc() == b.has_cc()
    &&& a.has_ppcie() == b.has_ppcie()
    &&& a.c2c == b.c2c
}

pub open spec fn same_devices(a: Seq<DeviceState>, b: Seq<DeviceState>) -> bool {
    &&& a.len() == b.len()
    &&& forall|i: int| 0 <= i < a.len() ==> same_device(#[trigger] a[i], b[i])
}

/// An address is that of one device.
pub open spec fn distinct_addresses(states: Seq<DeviceState>) -> bool {
    forall|i: int, j: int|
        0 <= i < j < states.len() ==> (#[trigger] states[i]).address@ != (
        #[trigger] states[j]).address@
}

/// The module can drive the device.
spec fn drives(module: Seq<char>, state: DeviceState) -> bool {
    !(state.c2c && !crate::modules::is_variant(module))
}

/// How many devices have a driver.
spec fn resolved_count(s: RunState) -> int {
    match s.stage {
        Stage::Find(i) | Stage::Load(i) | Stage::Driver(i) => i as int,
        _ => if rank(s.stage) >= 5 {
            s.passed().len() as int
        } else {
            0
        },
    }
}

/// The modules that were found can drive their devices, and the devices can
/// do what the mode asks of them.
#[verifier::opaque]
spec fn is_fit(s: RunState) -> bool {
    &&& rank(s.stage) >= 2 ==> s.states.len() > 0 && crate::provision::incapacity(
        s.states,
        s.mode,
    ) is None
    &&& match s.stage {
        Stage::Load(i) | Stage::Driver(i) => drives(s.module->0@, s.passed()[i as int]),
        _ => true,
    }
    &&& distinct_addresses(s.passed()) ==> forall|j: int|
        0 <= j < resolved_count(s) ==> drives(
            s.drivers[(#[trigger] s.passed()[j]).address@].module@,
            s.passed()[j],
        )
}

proof fn lemma_fit_early(s: RunState, event: Event)
    requires
        s.sound(),
        !s.over(),
        rank(s.stage) <= 3,
        is_fit(s),
    ensures
        is_fit(s.after(event)),
{
    reveal(is_fit);
    s.states.lemma_filter_len(crate::provision::passes(s.mode));
    crate::board::lemma_begun(s.states, s.mode);
}

proof fn lemma_fit_resolving(s: RunState, event: Event)
    requires
        s.sound(),
        !s.over(),
        rank(s.stage) == 4,
        is_fit(s),
    ensures
        is_fit(s.after(event)),
{
    reveal(is_fit);
    s.states.lemma_filter_len(crate::provision::passes(s.mode));
    crate::board::lemma_begun(s.states, s.mode);
    let t = s.after(event);
    assert(t.passed() == s.passed());
    if let (Stage::Driver(i), Event::Driver(driver)) = (s.stage, event) {
        if distinct_addresses(t.passed()) {
            assert forall|j: int| 0 <= j < resolved_count(t) implies drives(
                t.drivers[(#[trigger] t.passed()[j]).address@].module@,
                t.passed()[j],
            ) by {
                assert(resolved_count(t) == i + 1);
                if j < i {
                    assert(s.passed()[j].address@ != s.passed()[i as int].address@);
                }
            }
        }
    }
}

proof fn lemma_fit_late(s: RunState, event: Event)
    requires
        s.sound(),
        !s.over(),
        rank(s.stage) >= 5,
        is_fit(s),
    ensures
        is_fit(s.after(event)),
{
    reveal(is_fit);
    s.states.lemma_filter_len(crate::provision::passes(s.mode));
    let t = s.after(event);
    if s.is_late() {
        crate::run::lemma_late_event(s, event);
    }
    assert(t.passed() == s.passed() && t.drivers == s.drivers);
    assert(rank(t.stage) >= 5);
}

proof fn lemma_fit(start: RunState, events: Seq<Event>)
    requires
        is_new(start),
    ensures
        is_fit(after_all(start, events)),
    decreases events.len(),
{
    if events.len() == 0 {
        reveal(is_fit);
    } else {
        let before = after_all(start, events.drop_last());
        lemma_fit(start, events.drop_last());
        crate::history::lemma_run_is_sound(start, events.drop_last());
        lemma_fit_step(before, events.last());
    }
}

proof fn lemma_fit_step(s: RunState, event: Event)
    requires
        s.sound(),
        is_fit(s),
    ensures
        is_fit(next(s, event)),
{
    reveal(next);
    if !s.over() {
        if rank(s.stage) <= 3 {
            lemma_fit_early(s, event);
        } else if rank(s.stage) == 4 {
            lemma_fit_resolving(s, event);
        } else {
            lemma_fit_late(s, event);
        }
    }
}

/// The driver that is kept for `address` is the same in both.
pub open spec fn same_driver(a: RunState, b: RunState, address: Seq<char>) -> bool {
    &&& a.drivers[address].module@ == b.drivers[address].module@
    &&& a.drivers[address].driver@ == b.drivers[address].driver@
}

/// What a node answers to the action at hand of the run `s`, if nothing has
/// changed it since the run `first` finished on it:
/// - the host is as fit as it was, the devices are the same, and nobody took one,
/// - the kernel names the same module and driver for a device, and loads it,
/// - every device that has modes is still read in the mode,
/// - a device is still bound to the driver that it was bound to,
/// - and a device that is not passed through has no vfio driver.
pub open spec fn undisturbed(first: RunState, s: RunState, event: Event) -> bool {
    match s.stage {
        Stage::Host => event matches Event::Host(facts) && crate::host::host_conflict(
            facts,
        ) is None,
        Stage::Enumerate => event matches Event::Devices(devices) && same_devices(
            crate::device::scoped(crate::device::discovered(devices@)),
            first.states,
        ),
        Stage::Idle(i) => found_idle(s, event, i as int),
        Stage::Kernel => event is KernelRelease,
        Stage::Find(i) => event matches Event::Module(module) && module@
            == first.drivers[s.passed()[i as int].address@].module@,
        Stage::Load(i) => s.module->0@ == first.drivers[s.passed()[i as int].address@].module@
            ==> event == Event::Done,
        Stage::Driver(i) => event matches Event::Driver(driver) && driver@
            == first.drivers[s.passed()[i as int].address@].driver@,
        Stage::Board => s.board.undisturbed(RunState::report(event)),
        Stage::Files(_) | Stage::Reopen(_) => event == Event::Done,
        Stage::Bind(i) => {
            let address = s.passed()[i as int].address@;
            event matches Event::Bound(bound) && (same_driver(s, first, address) ==> bound
                == Bound::Already)
        },
        Stage::Ask(_) => event matches Event::Current(current) && (current matches Some(driver)
            ==> !crate::provision::is_vfio(driver@)),
        Stage::Bound(i) => same_driver(s, first, s.passed()[i as int].address@) ==> event
            == Event::Done,
        Stage::Recheck(i) => event matches Event::Read(reading) && reading.is_of(
            crate::nvidia::handle_of(s.passed()[i as int])->0,
        ) && reading.modes().are(s.mode),
        Stage::Release(_) | Stage::Finished => true,
    }
}

/// The node has answered so all along.
pub open spec fn left_alone(first: RunState, start: RunState, events: Seq<Event>) -> bool
    decreases events.len(),
{
    events.len() == 0 || {
        let before = after_all(start, events.drop_last());
        &&& left_alone(first, start, events.drop_last())
        &&& before.over() || undisturbed(first, before, events.last())
    }
}

/// At most so many actions does a run over such a node take.
pub open spec fn actions_needed(first: RunState) -> nat {
    2 * first.states.len() + 7 * first.passed().len() + 3 * targets(first.states).len() + 6
}

/// The run `first` left its node provisioned.
spec fn provisioned(first: RunState) -> bool {
    &&& first.sound()
    &&& first.stage == Stage::Finished
    &&& distinct_addresses(first.states)
    &&& is_fit(first)
}

/// Every driver that is known is the one that was known before.
spec fn agrees(first: RunState, s: RunState) -> bool {
    forall|address: Seq<char>| #[trigger]
        s.drivers.contains_key(address) ==> same_driver(s, first, address)
}

/// The run `s` over the node that `first` left has nothing to change.
spec fn is_idle_rerun(first: RunState, s: RunState) -> bool {
    &&& s.sound()
    &&& s.mode == first.mode
    &&& s.stop is None
    &&& rank(s.stage) >= 2 ==> same_devices(s.states, first.states)
    &&& agrees(first, s)
    &&& match s.stage {
        Stage::Load(i) | Stage::Driver(i) => s.module->0@
            == first.drivers[s.passed()[i as int].address@].module@,
        _ => true,
    }
    &&& rank(s.stage) >= 5 ==> {
        &&& s.board.is_quiet()
        &&& s.board.mode == s.mode
        &&& s.board.devices == targets(s.states)
    }
    &&& !(s.stage is Release)
}

/// How many actions are left at most.
spec fn actions_left(first: RunState, s: RunState) -> int {
    let n = first.states.len() as int;
    let p = first.passed().len() as int;
    let t = targets(first.states).len() as int;
    match s.stage {
        Stage::Host => 2 * n + 7 * p + 3 * t + 6,
        Stage::Enumerate => 2 * n + 7 * p + 3 * t + 5,
        Stage::Idle(i) => 2 * n - i + 7 * p + 3 * t + 4,
        Stage::Kernel => n + 7 * p + 3 * t + 4,
        Stage::Find(i) => n + 7 * p - 3 * i + 3 * t + 3,
        Stage::Load(i) => n + 7 * p - 3 * i + 3 * t + 2,
        Stage::Driver(i) => n + 7 * p - 3 * i + 3 * t + 1,
        Stage::Board => n + 4 * p + 3 + s.board.left(),
        Stage::Files(i) => n + 4 * p + 3 - i,
        Stage::Bind(i) => n + 4 * p - i,
        Stage::Ask(i) | Stage::Release(i) => n + 3 * p - i,
        Stage::Bound(i) => 3 * p - 3 * i,
        Stage::Reopen(i) => 3 * p - 3 * i - 1,
        Stage::Recheck(i) => 3 * p - 3 * i - 2,
        Stage::Finished => 0,
    }
}

proof fn lemma_same_handles(a: DeviceState, b: DeviceState)
    requires
        same_device(a, b),
    ensures
        crate::nvidia::handle_of(a) == crate::nvidia::handle_of(b),
{
}

proof fn lemma_drop_same(a: Seq<DeviceState>, b: Seq<DeviceState>)
    requires
        same_devices(a, b),
        a.len() > 0,
    ensures
        same_devices(a.drop_last(), b.drop_last()),
        same_device(a.last(), b.last()),
{
    assert(same_device(a[a.len() - 1], b[b.len() - 1]));
    assert forall|i: int| 0 <= i < a.drop_last().len() implies same_device(
        #[trigger] a.drop_last()[i],
        b.drop_last()[i],
    ) by {
        assert(same_device(a[i], b[i]));
    }
}

/// The same devices are opened.
proof fn lemma_same_targets(a: Seq<DeviceState>, b: Seq<DeviceState>)
    requires
        same_devices(a, b),
    ensures
        targets(a) == targets(b),
    decreases a.len(),
{
    if a.len() > 0 {
        lemma_drop_same(a, b);
        lemma_same_targets(a.drop_last(), b.drop_last());
        lemma_same_handles(a.last(), b.last());
    }
}

/// The same devices are passed through.
proof fn lemma_same_passed(a: Seq<DeviceState>, b: Seq<DeviceState>, mode: crate::mode::Mode)
    requires
        same_devices(a, b),
    ensures
        same_devices(
            crate::provision::passed_through(a, mode),
            crate::provision::passed_through(b, mode),
        ),
    decreases a.len(),
{
    let passes = crate::provision::passes(mode);
    if a.len() == 0 {
        reveal(Seq::filter);
    } else {
        lemma_drop_same(a, b);
        lemma_same_passed(a.drop_last(), b.drop_last(), mode);
        assert(a =~= a.drop_last().push(a.last()));
        assert(b =~= b.drop_last().push(b.last()));
        a.drop_last().lemma_filter_push(a.last(), passes);
        b.drop_last().lemma_filter_push(b.last(), passes);
        let front = crate::provision::passed_through(a.drop_last(), mode);
        let other = crate::provision::passed_through(b.drop_last(), mode);
        if passes(a.last()) {
            assert forall|i: int| 0 <= i < front.push(a.last()).len() implies same_device(
                #[trigger] front.push(a.last())[i],
                other.push(b.last())[i],
            ) by {
                if i < front.len() {
                    assert(same_device(front[i], other[i]));
                }
            }
        }
    }
}

/// The same devices can do the same.
proof fn lemma_same_capacity(a: Seq<DeviceState>, b: Seq<DeviceState>, mode: crate::mode::Mode)
    requires
        same_devices(a, b),
        crate::provision::incapacity(b, mode) is None,
    ensures
        crate::provision::incapacity(a, mode) is None,
{
    crate::provision::law_one_gpu_rules_the_node_out(a, mode);
    crate::provision::law_one_gpu_rules_the_node_out(b, mode);
    assert forall|i: int|
        mode != crate::mode::Mode::Off && 0 <= i < a.len() && (
        #[trigger] a[i]).is_gpu() implies crate::provision::can_do(a[i], mode) && !a[i].c2c by {
        assert(same_device(a[i], b[i]));
        assert(b[i].is_gpu());
    }
}

proof fn lemma_distinct_passed(states: Seq<DeviceState>, mode: crate::mode::Mode)
    requires
        distinct_addresses(states),
    ensures
        distinct_addresses(crate::provision::passed_through(states, mode)),
    decreases states.len(),
{
    let passes = crate::provision::passes(mode);
    if states.len() == 0 {
        reveal(Seq::filter);
    } else {
        let front = states.drop_last();
        assert forall|i: int, j: int| 0 <= i < j < front.len() implies (
        #[trigger] front[i]).address@ != (#[trigger] front[j]).address@ by {
            assert(states[i].address@ != states[j].address@);
        }
        lemma_distinct_passed(front, mode);
        assert(states =~= front.push(states.last()));
        front.lemma_filter_push(states.last(), passes);
        let kept = crate::provision::passed_through(front, mode);
        if passes(states.last()) {
            let all = kept.push(states.last());
            assert forall|i: int, j: int| 0 <= i < j < all.len() implies (
            #[trigger] all[i]).address@ != (#[trigger] all[j]).address@ by {
                if j < kept.len() {
                    assert(kept[i].address@ != kept[j].address@);
                } else {
                    front.lemma_filter_contains_rev(passes, kept[i]);
                    let k = choose|k: int| 0 <= k < front.len() && front[k] == kept[i];
                    assert(states[k].address@ != states[states.len() - 1].address@);
                }
            }
        }
    }
}

proof fn lemma_rerun_early(first: RunState, s: RunState, event: Event)
    requires
        provisioned(first),
        is_idle_rerun(first, s),
        rank(s.stage) <= 3,
        undisturbed(first, s, event),
    ensures
        is_idle_rerun(first, s.after(event)),
        actions_left(first, s.after(event)) < actions_left(first, s),
{
    let t = s.after(event);
    crate::run::lemma_after_sound(s, event);
    if rank(s.stage) >= 2 {
        lemma_same_passed(s.states, first.states, s.mode);
        lemma_same_targets(s.states, first.states);
    }
    crate::board::lemma_begun(s.states, s.mode);
    crate::board::lemma_quiet_begin(s.states, s.mode);
    match (s.stage, event) {
        (Stage::Enumerate, Event::Devices(devices)) => {
            reveal(is_fit);
            let states = crate::device::scoped(crate::device::discovered(devices@));
            lemma_same_capacity(states, first.states, s.mode);
        },
        _ => {},
    }
}

proof fn lemma_rerun_resolving(first: RunState, s: RunState, event: Event)
    requires
        provisioned(first),
        is_idle_rerun(first, s),
        rank(s.stage) == 4,
        undisturbed(first, s, event),
    ensures
        is_idle_rerun(first, s.after(event)),
        actions_left(first, s.after(event)) < actions_left(first, s),
{
    let t = s.after(event);
    crate::run::lemma_after_sound(s, event);
    lemma_same_passed(s.states, first.states, s.mode);
    lemma_same_targets(s.states, first.states);
    crate::board::lemma_begun(s.states, s.mode);
    crate::board::lemma_quiet_begin(s.states, s.mode);
    match (s.stage, event) {
        (Stage::Find(i), Event::Module(module)) => {
            reveal(is_fit);
            lemma_distinct_passed(first.states, first.mode);
            assert(same_device(s.passed()[i as int], first.passed()[i as int]));
            assert(drives(
                first.drivers[first.passed()[i as int].address@].module@,
                first.passed()[i as int],
            ));
        },
        (Stage::Driver(i), Event::Driver(driver)) => {
            let address = s.passed()[i as int].address@;
            assert(t.drivers == s.drivers.insert(
                address,
                crate::provision::VfioDriver { module: s.module->0, driver },
            ));
            assert forall|a: Seq<char>| #[trigger]
                t.drivers.contains_key(a) implies same_driver(t, first, a) by {
                if a != address {
                    assert(s.drivers.contains_key(a));
                }
            }
        },
        _ => {},
    }
}

proof fn lemma_rerun_board(first: RunState, s: RunState, event: Event)
    requires
        provisioned(first),
        is_idle_rerun(first, s),
        s.stage == Stage::Board,
        undisturbed(first, s, event),
    ensures
        is_idle_rerun(first, s.after(event)),
        actions_left(first, s.after(event)) < actions_left(first, s),
{
    crate::run::lemma_after_sound(s, event);
    crate::board::lemma_quiet_step(s.board, RunState::report(event));
    crate::board::lemma_after(s.board, RunState::report(event));
    let t = s.after(event);
    assert(t.drivers == s.drivers);
    assert forall|a: Seq<char>| #[trigger]
        t.drivers.contains_key(a) implies same_driver(t, first, a) by {
        assert(s.drivers.contains_key(a));
    }
}

/// The driver of a device that is passed through is known, and the same.
proof fn lemma_known_driver(first: RunState, s: RunState, i: int)
    requires
        is_idle_rerun(first, s),
        rank(s.stage) >= 5,
        0 <= i < s.passed().len(),
    ensures
        s.drivers.contains_key(s.passed()[i].address@),
        same_driver(s, first, s.passed()[i].address@),
{
    assert(s.resolved(s.passed().len() as int));
    assert(s.drivers.contains_key(s.passed()[i].address@));
}

proof fn lemma_rerun_late(first: RunState, s: RunState, event: Event)
    requires
        provisioned(first),
        is_idle_rerun(first, s),
        rank(s.stage) >= 6,
        !s.over(),
        undisturbed(first, s, event),
    ensures
        is_idle_rerun(first, s.after(event)),
        actions_left(first, s.after(event)) < actions_left(first, s),
{
    let t = s.after(event);
    lemma_same_passed(s.states, first.states, s.mode);
    match s.stage {
        Stage::Bind(i) | Stage::Bound(i) => {
            lemma_known_driver(first, s, i as int);
        },
        _ => {},
    }
    crate::run::lemma_late_event(s, event);
    assert(t.drivers == s.drivers && t.board == s.board && t.states == s.states);
    assert forall|a: Seq<char>| #[trigger]
        t.drivers.contains_key(a) implies same_driver(t, first, a) by {
        assert(s.drivers.contains_key(a));
    }
}

proof fn lemma_rerun_step(first: RunState, s: RunState, event: Event)
    requires
        provisioned(first),
        is_idle_rerun(first, s),
        !s.over(),
        undisturbed(first, s, event),
    ensures
        is_idle_rerun(first, next(s, event)),
        actions_left(first, next(s, event)) < actions_left(first, s),
{
    reveal(next);
    if rank(s.stage) <= 3 {
        lemma_rerun_early(first, s, event);
    } else if rank(s.stage) == 4 {
        lemma_rerun_resolving(first, s, event);
    } else if s.stage == Stage::Board {
        lemma_rerun_board(first, s, event);
    } else {
        lemma_rerun_late(first, s, event);
    }
}

/// The action, answered so, changes nothing: it writes no knob, resets and
/// unbinds no device, and where it binds one the device was bound already.
pub open spec fn changes_nothing(action: Action, event: Event) -> bool {
    match action {
        Action::Board(work) => !(work is Write) && !(work is Reset),
        Action::Unbind { .. } => false,
        Action::Bind { .. } => event == Event::Bound(Bound::Already),
        _ => true,
    }
}

proof fn lemma_rerun_acts(first: RunState, s: RunState, event: Event)
    requires
        is_idle_rerun(first, s),
        !s.over(),
        undisturbed(first, s, event),
    ensures
        changes_nothing(s.action(), event),
{
    if let Stage::Bind(i) = s.stage {
        lemma_known_driver(first, s, i as int);
    }
}

proof fn lemma_rerun(first: RunState, start: RunState, events: Seq<Event>)
    requires
        provisioned(first),
        is_new(start),
        start.mode == first.mode,
        left_alone(first, start, events),
    ensures
        is_idle_rerun(first, after_all(start, events)),
        acted(start, events).len() + actions_left(first, after_all(start, events))
            <= actions_needed(first),
        acted(start, events).len() <= events.len(),
        !after_all(start, events).over() ==> acted(start, events).len() == events.len(),
        forall|k: int|
            0 <= k < acted(start, events).len() ==> changes_nothing(
                #[trigger] acted(start, events)[k],
                events[k],
            ),
    decreases events.len(),
{
    if events.len() == 0 {
        crate::history::lemma_run_is_sound(start, events);
    } else {
        let front = events.drop_last();
        let before = after_all(start, front);
        let earlier = acted(start, front);
        lemma_rerun(first, start, front);
        if before.over() {
            crate::history::law_a_run_that_is_over_stays_as_it_is(
                before,
                seq![events.last()],
            );
            reveal_with_fuel(after_all, 2);
            assert(seq![events.last()].drop_last() =~= Seq::<Event>::empty());
            assert forall|k: int| 0 <= k < acted(start, events).len() implies changes_nothing(
                #[trigger] acted(start, events)[k],
                events[k],
            ) by {
                assert(changes_nothing(earlier[k], front[k]));
            }
        } else {
            lemma_rerun_step(first, before, events.last());
            lemma_rerun_acts(first, before, events.last());
            assert forall|k: int| 0 <= k < acted(start, events).len() implies changes_nothing(
                #[trigger] acted(start, events)[k],
                events[k],
            ) by {
                if k < earlier.len() {
                    assert(changes_nothing(earlier[k], front[k]));
                }
            }
        }
    }
}

/// The second run claims what the first one claimed.
proof fn lemma_same_boot_files(first: RunState, s: RunState)
    requires
        provisioned(first),
        is_idle_rerun(first, s),
        rank(s.stage) >= 5,
    ensures
        boot_files(s.claims()) == boot_files(first.claims()),
{
    lemma_same_passed(s.states, first.states, s.mode);
    let a = s.claims();
    let b = first.claims();
    assert forall|i: int| 0 <= i < a.len() implies crate::modules::same_claim(
        #[trigger] a[i],
        b[i],
    ) by {
        lemma_known_driver(first, s, i);
        assert(same_device(s.passed()[i], first.passed()[i]));
    }
    crate::modules::law_the_claims_decide_the_boot_configuration(a, b);
}

/// Applying a mode a second time, to a node that a finished run left in it and
/// that nothing has changed since, does not fail, writes no knob, resets no
/// device, finds every device bound already, releases none, and leaves the boot
/// configuration as it is. It finishes too, after `actions_needed` actions at
/// the latest.
pub proof fn law_applying_twice_is_applying_once(
    start: RunState,
    events: Seq<Event>,
    again: RunState,
    answers: Seq<Event>,
    files: Map<Seq<char>, Seq<char>>,
)
    requires
        is_new(start),
        is_new(again),
        again.mode == start.mode,
        after_all(start, events).action() == Action::Finished,
        distinct_addresses(after_all(start, events).states),
        left_alone(after_all(start, events), again, answers),
    ensures
        ({
            let first = after_all(start, events);
            let second = after_all(again, answers);
            &&& second.stop is None
            &&& answers.len() >= actions_needed(first) ==> second.action() == Action::Finished
            &&& forall|k: int|
                0 <= k < acted(again, answers).len() ==> changes_nothing(
                    #[trigger] acted(again, answers)[k],
                    answers[k],
                )
            &&& rank(second.stage) >= 5 ==> {
                &&& boot_files(second.claims()) == boot_files(first.claims())
                &&& performed(
                    performed(files, boot_files(first.claims())),
                    boot_files(second.claims()),
                ) == performed(files, boot_files(first.claims()))
            }
        }),
{
    let first = after_all(start, events);
    let second = after_all(again, answers);
    crate::history::lemma_run_is_sound(start, events);
    lemma_fit(start, events);
    lemma_rerun(first, again, answers);
    if rank(second.stage) >= 5 {
        lemma_same_boot_files(first, second);
        crate::modules::law_persisting_twice_is_persisting_once(files, first.claims());
    }
    if !second.over() {
        lemma_more_to_do(first, second);
    }
}

/// A run that is not over has something left to do.
proof fn lemma_more_to_do(first: RunState, s: RunState)
    requires
        is_idle_rerun(first, s),
        !s.over(),
    ensures
        actions_left(first, s) > 0,
{
    if rank(s.stage) >= 2 {
        lemma_same_passed(s.states, first.states, s.mode);
    }
}

} // verus!
