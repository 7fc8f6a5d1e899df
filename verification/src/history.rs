//! What holds of a run over a node from its beginning on, whatever the node
//! answers.
use vstd::prelude::*;

use crate::board::{begun, Report, Work};
use crate::device::DeviceState;
use crate::mode::Mode;
use crate::run::{Action, Event, RunState, Stage};

verus! {

/// How far along the pipeline a stage is.
pub open spec fn rank(stage: Stage) -> int {
    match stage {
        Stage::Host => 0,
        Stage::Enumerate => 1,
        Stage::Idle(_) => 2,
        Stage::Kernel => 3,
        Stage::Find(_) | Stage::Load(_) | Stage::Driver(_) => 4,
        Stage::Board => 5,
        Stage::Files(_) => 6,
        Stage::Bind(_) => 7,
        Stage::Ask(_) | Stage::Release(_) => 8,
        Stage::Bound(_) | Stage::Reopen(_) | Stage::Recheck(_) => 9,
        Stage::Finished => 10,
    }
}

/// How far along the pipeline an action is.
pub open spec fn action_rank(action: Action) -> int {
    match action {
        Action::ReadHost => 0,
        Action::Enumerate => 1,
        Action::Scan { .. } => 2,
        Action::ReadRelease => 3,
        Action::FindModule { .. } | Action::LoadModule { .. } | Action::FindDriver { .. } => 4,
        Action::Board(_) => 5,
        Action::File { .. } => 6,
        Action::Bind { .. } => 7,
        Action::AskDriver { .. } | Action::Unbind { .. } => 8,
        Action::CheckBound { .. } | Action::Reopen { .. } | Action::Reread { .. } => 9,
        Action::Finished | Action::Stopped => 10,
    }
}

/// The action changes a device or the node's boot configuration.
pub open spec fn touches(action: Action) -> bool {
    match action {
        Action::Board(work) => work is Write || work is Reset,
        Action::File { .. } | Action::Bind { .. } | Action::Unbind { .. } => true,
        _ => false,
    }
}

/// Where a run stands after one more event, as [`RunState::after`] says.
#[verifier::opaque]
pub open spec fn next(s: RunState, event: Event) -> RunState {
    s.after(event)
}

/// The run from `start` after all of `events`.
pub open spec fn after_all(start: RunState, events: Seq<Event>) -> RunState
    decreases events.len(),
{
    if events.len() == 0 {
        start
    } else {
        next(after_all(start, events.drop_last()), events.last())
    }
}

/// The actions that `events` answered, in order. Once a run is over there are
/// no more.
pub open spec fn acted(start: RunState, events: Seq<Event>) -> Seq<Action>
    decreases events.len(),
{
    if events.len() == 0 {
        Seq::empty()
    } else {
        let before = after_all(start, events.drop_last());
        let earlier = acted(start, events.drop_last());
        if before.over() {
            earlier
        } else {
            earlier.push(before.action())
        }
    }
}

/// A run that is about to begin.
pub open spec fn is_new(start: RunState) -> bool {
    start == crate::run::started(
        start.mode,
        start.devices_dir,
        start.osrelease,
        start.dev_vfio,
    )
}

/// How many devices have been found idle.
pub open spec fn idle_count(s: RunState) -> int {
    match s.stage {
        Stage::Host | Stage::Enumerate => 0,
        Stage::Idle(i) => i as int,
        _ => s.states.len() as int,
    }
}

/// How many files of the boot configuration have been seen to.
pub open spec fn files_count(s: RunState) -> int {
    match s.stage {
        Stage::Files(i) => i as int,
        _ => if rank(s.stage) > 6 {
            3
        } else {
            0
        },
    }
}

/// How many devices have been verified at the end.
spec fn verified_count(s: RunState) -> int {
    match s.stage {
        Stage::Bound(i) | Stage::Reopen(i) | Stage::Recheck(i) => i as int,
        Stage::Finished => s.passed().len() as int,
        _ => 0,
    }
}

/// The scan of the device at `i` found nobody who holds it.
pub open spec fn found_idle(s: RunState, event: Event, i: int) -> bool {
    event matches Event::Scan(cdevs, processes) && crate::idle::holders_of(
        processes@,
        crate::idle::nodes_of(
            s.dev_vfio,
            s.states[i].iommu_group,
            crate::text::texts(cdevs@),
        ),
    ).len() == 0
}

/// The event is a reading in the mode.
pub open spec fn reads_mode(event: Event, mode: Mode) -> bool {
    event matches Event::Read(reading) && reading.modes().are(mode)
}

spec fn all_have_rows(states: Seq<DeviceState>) -> bool {
    forall|i: int| 0 <= i < states.len() ==> (#[trigger] states[i]).row is Some
}

/// What one event does to a run, as far as its history is concerned.
spec fn steps_to(s: RunState, event: Event, t: RunState) -> bool {
    &&& t.mode == s.mode
    &&& t.dev_vfio == s.dev_vfio
    &&& rank(t.stage) >= rank(s.stage)
    &&& rank(s.stage) >= 2 ==> t.states == s.states
    &&& all_have_rows(s.states) ==> all_have_rows(t.states)
    &&& idle_count(t) == idle_count(s) || (s.stage matches Stage::Idle(i) && idle_count(t) == i + 1
        && found_idle(s, event, i as int))
    &&& verified_count(t) == verified_count(s) || {
        ||| (s.stage matches Stage::Bound(i) && verified_count(t) == i + 1 && event == Event::Done
            && crate::nvidia::handle_of(s.passed()[i as int]) is None)
        ||| (s.stage matches Stage::Recheck(i) && verified_count(t) == i + 1 && reads_mode(
            event,
            s.mode,
        ))
    }
    &&& files_count(t) == files_count(s) || (s.stage matches Stage::Files(i) && files_count(t) == i
        + 1 && event == Event::Done)
    &&& t.stage matches Stage::Reopen(i) ==> (s.stage == Stage::Reopen(i) || (s.stage
        == Stage::Bound(i) && event == Event::Done))
    &&& t.stage matches Stage::Recheck(i) ==> (s.stage == Stage::Recheck(i) || s.stage
        == Stage::Reopen(i))
    &&& (t.stage is Release && (s.stage is Release ==> crate::provision::is_vfio(s.held)))
        ==> crate::provision::is_vfio(t.held)
    &&& rank(s.stage) < 5 && rank(t.stage) >= 5 ==> {
        t.board == begun(t.states, t.mode) && t.states == s.states
    }
    &&& s.stage == Stage::Board ==> t.board == s.board.after(RunState::report(event))
    &&& rank(s.stage) > 5 ==> t.board == s.board
    &&& rank(s.stage) <= 5 && rank(t.stage) > 5 ==> t.board.work() == Work::Settled
}

proof fn lemma_early_steps(s: RunState, event: Event)
    requires
        s.sound(),
        !s.over(),
        rank(s.stage) <= 3,
    ensures
        steps_to(s, event, s.after(event)),
{
    let t = s.after(event);
    s.states.lemma_filter_len(crate::provision::passes(s.mode));
    crate::board::lemma_begun(s.states, s.mode);
    match (s.stage, event) {
        (Stage::Enumerate, Event::Devices(devices)) => {
            let found = crate::device::discovered(devices@);
            let states = crate::device::scoped(found);
            assert(all_have_rows(states)) by {
                assert forall|i: int| 0 <= i < states.len() implies (
                #[trigger] states[i]).row is Some by {
                    found.lemma_filter_pred(crate::device::has_row(), i);
                }
            }
        },
        _ => {},
    }
}

proof fn lemma_middle_steps(s: RunState, event: Event)
    requires
        s.sound(),
        !s.over(),
        4 <= rank(s.stage) <= 5,
    ensures
        steps_to(s, event, s.after(event)),
{
    s.states.lemma_filter_len(crate::provision::passes(s.mode));
    crate::board::lemma_begun(s.states, s.mode);
}

proof fn lemma_late_steps(s: RunState, event: Event)
    requires
        s.sound(),
        !s.over(),
        s.is_late(),
    ensures
        steps_to(s, event, s.after(event)),
{
    s.states.lemma_filter_len(crate::provision::passes(s.mode));
    crate::run::lemma_late_event(s, event);
}

proof fn lemma_steps(s: RunState, event: Event)
    requires
        s.sound(),
        !s.over(),
    ensures
        steps_to(s, event, s.after(event)),
{
    if rank(s.stage) <= 3 {
        lemma_early_steps(s, event);
    } else if rank(s.stage) <= 5 {
        lemma_middle_steps(s, event);
    } else {
        lemma_late_steps(s, event);
    }
}

/// The reports that the board got, in order.
pub open spec fn board_reports(start: RunState, events: Seq<Event>) -> Seq<Report>
    decreases events.len(),
{
    if events.len() == 0 {
        Seq::empty()
    } else {
        let before = after_all(start, events.drop_last());
        let earlier = board_reports(start, events.drop_last());
        if !before.over() && before.stage == Stage::Board {
            earlier.push(RunState::report(events.last()))
        } else {
            earlier
        }
    }
}

/// The work on the board among `actions`, in order.
pub open spec fn board_works(actions: Seq<Action>) -> Seq<Work>
    decreases actions.len(),
{
    if actions.len() == 0 {
        Seq::empty()
    } else {
        let earlier = board_works(actions.drop_last());
        match actions.last() {
            Action::Board(work) => earlier.push(work),
            _ => earlier,
        }
    }
}

/// The device at `i` was scanned by the action at `k` and found idle.
pub open spec fn scanned(
    s: RunState,
    actions: Seq<Action>,
    events: Seq<Event>,
    i: int,
    k: int,
) -> bool {
    &&& 0 <= k < actions.len()
    &&& actions[k] == Action::Scan { device: i as usize }
    &&& found_idle(s, events[k], i)
}

/// The device at `i` was found idle.
pub open spec fn was_idle(s: RunState, actions: Seq<Action>, events: Seq<Event>, i: int) -> bool {
    exists|k: int| scanned(s, actions, events, i, k)
}

/// The action at `k` saw that the device at `i` is bound to its driver.
pub open spec fn checked(actions: Seq<Action>, events: Seq<Event>, i: int, k: int) -> bool {
    &&& 0 <= k < actions.len()
    &&& actions[k] == Action::CheckBound { device: i as usize }
    &&& events[k] == Event::Done
}

/// The action at `k` read the device at `i` once more, and it was in the mode.
pub open spec fn reread(
    mode: Mode,
    actions: Seq<Action>,
    events: Seq<Event>,
    i: int,
    k: int,
) -> bool {
    &&& 0 <= k < actions.len()
    &&& actions[k] == Action::Reread { device: i as usize }
    &&& reads_mode(events[k], mode)
}

/// The file at `i` of the boot configuration was seen to before the action at
/// `k`.
pub open spec fn filed(actions: Seq<Action>, events: Seq<Event>, i: int, k: int) -> bool {
    exists|j: int|
        {
            &&& 0 <= j < k
            &&& #[trigger] actions[j] == Action::File { index: i as usize }
            &&& events[j] == Event::Done
        }
}

/// The device at `i` was verified at the end.
spec fn is_verified(s: RunState, actions: Seq<Action>, events: Seq<Event>, i: int) -> bool {
    &&& exists|k: int| checked(actions, events, i, k)
    &&& crate::nvidia::handle_of(s.passed()[i]) is Some ==> exists|k: int|
        reread(s.mode, actions, events, i, k)
}

/// The account of a run that the laws are drawn from.
#[verifier::opaque]
spec fn account(
    end: RunState,
    actions: Seq<Action>,
    reports: Seq<Report>,
    events: Seq<Event>,
) -> bool {
    &&& end.sound()
    &&& all_have_rows(end.states)
    &&& actions.len() <= events.len()
    &&& !end.over() ==> actions.len() == events.len()
    &&& forall|k: int|
        0 <= k < actions.len() ==> action_rank(#[trigger] actions[k]) <= rank(end.stage)
    &&& forall|j: int, k: int|
        0 <= j < k < actions.len() ==> action_rank(#[trigger] actions[j]) <= action_rank(
            #[trigger] actions[k],
        )
    &&& forall|i: int|
        0 <= i < idle_count(end) ==> #[trigger] was_idle(end, actions, events, i)
    &&& forall|i: int| 0 <= i < verified_count(end) ==> #[trigger] is_verified(end, actions, events, i)
    &&& forall|i: int|
        0 <= i < files_count(end) ==> #[trigger] filed(actions, events, i, actions.len() as int)
    &&& end.stage matches Stage::Reopen(i) ==> exists|k: int|
        checked(actions, events, i as int, k)
    &&& end.stage matches Stage::Recheck(i) ==> exists|k: int|
        checked(actions, events, i as int, k)
    &&& end.stage is Release ==> crate::provision::is_vfio(end.held)
    &&& rank(end.stage) < 5 ==> reports.len() == 0 && board_works(actions).len() == 0
    &&& rank(end.stage) >= 5 ==> {
        &&& end.board == begun(end.states, end.mode).after_all(reports)
        &&& board_works(actions) == crate::board::worked(begun(end.states, end.mode), reports)
    }
    &&& rank(end.stage) > 5 ==> end.board.work() == Work::Settled
}

proof fn lemma_account_step(
    s: RunState,
    actions: Seq<Action>,
    reports: Seq<Report>,
    events: Seq<Event>,
    event: Event,
)
    requires
        account(s, actions, reports, events),
        !s.over(),
    ensures
        account(
            next(s, event),
            actions.push(s.action()),
            if s.stage == Stage::Board {
                reports.push(RunState::report(event))
            } else {
                reports
            },
            events.push(event),
        ),
        next(s, event).mode == s.mode,
        next(s, event).dev_vfio == s.dev_vfio,
{
    reveal(account);
    reveal(next);
    let t = s.after(event);
    let actions2 = actions.push(s.action());
    let events2 = events.push(event);
    let reports2 = if s.stage == Stage::Board {
        reports.push(RunState::report(event))
    } else {
        reports
    };
    let last = actions.len() as int;
    lemma_steps(s, event);
    crate::run::lemma_after_sound(s, event);
    assert(action_rank(s.action()) == rank(s.stage));
    assert(events2[last] == event);
    assert forall|i: int| 0 <= i < idle_count(t) implies #[trigger] was_idle(
        t,
        actions2,
        events2,
        i,
    ) by {
        if i < idle_count(s) {
            assert(was_idle(s, actions, events, i));
            let k = choose|k: int| scanned(s, actions, events, i, k);
            assert(rank(s.stage) >= 2);
            assert(scanned(t, actions2, events2, i, k));
        } else {
            assert(scanned(t, actions2, events2, i, last));
        }
    }
    assert forall|i: int, k: int| #[trigger] checked(actions, events, i, k) implies checked(
        actions2,
        events2,
        i,
        k,
    ) by {}
    assert forall|i: int, k: int| #[trigger]
        reread(s.mode, actions, events, i, k) implies reread(t.mode, actions2, events2, i, k) by {}
    assert forall|i: int| 0 <= i < verified_count(t) implies #[trigger] is_verified(
        t,
        actions2,
        events2,
        i,
    ) by {
        assert(rank(s.stage) >= 2);
        assert(t.passed() == s.passed());
        if i < verified_count(s) {
            assert(is_verified(s, actions, events, i));
            let k = choose|k: int| checked(actions, events, i, k);
            assert(checked(actions2, events2, i, k));
            if crate::nvidia::handle_of(s.passed()[i]) is Some {
                let m = choose|m: int| reread(s.mode, actions, events, i, m);
                assert(reread(t.mode, actions2, events2, i, m));
            }
        } else if s.stage is Bound {
            assert(checked(actions2, events2, i, last));
        } else {
            let k = choose|k: int| checked(actions, events, i, k);
            assert(checked(actions2, events2, i, k));
            assert(reread(t.mode, actions2, events2, i, last));
        }
    }
    assert forall|i: int| 0 <= i < files_count(t) implies #[trigger] filed(
        actions2,
        events2,
        i,
        last + 1,
    ) by {
        if i < files_count(s) {
            assert(filed(actions, events, i, last));
            let j = choose|j: int|
                {
                    &&& 0 <= j < last
                    &&& #[trigger] actions[j] == Action::File { index: i as usize }
                    &&& events[j] == Event::Done
                };
            assert(actions2[j] == Action::File { index: i as usize });
        } else {
            assert(actions2[last] == Action::File { index: i as usize });
        }
    }
    match t.stage {
        Stage::Reopen(i) | Stage::Recheck(i) => {
            if s.stage is Bound {
                assert(checked(actions2, events2, i as int, last));
            } else {
                let k = choose|k: int| checked(actions, events, i as int, k);
                assert(checked(actions2, events2, i as int, k));
            }
        },
        _ => {},
    }
    assert(actions2.drop_last() =~= actions);
    if s.stage == Stage::Board {
        assert(reports2.drop_last() =~= reports);
    } else if rank(s.stage) < 5 && rank(t.stage) >= 5 {
        assert(board_works(actions2) =~= crate::board::worked(begun(t.states, t.mode), reports2));
    }
}

proof fn lemma_account(start: RunState, events: Seq<Event>)
    requires
        is_new(start),
    ensures
        account(
            after_all(start, events),
            acted(start, events),
            board_reports(start, events),
            events,
        ),
        after_all(start, events).mode == start.mode,
        after_all(start, events).dev_vfio == start.dev_vfio,
    decreases events.len(),
{
    if events.len() == 0 {
        lemma_account_begins(start, events);
    } else {
        let front = events.drop_last();
        lemma_account(start, front);
        let before = after_all(start, front);
        assert(events =~= front.push(events.last()));
        if before.over() {
            lemma_account_idles(
                before,
                acted(start, front),
                board_reports(start, front),
                front,
                events.last(),
            );
        } else {
            lemma_account_step(
                before,
                acted(start, front),
                board_reports(start, front),
                front,
                events.last(),
            );
        }
    }
}

proof fn lemma_account_begins(start: RunState, events: Seq<Event>)
    requires
        is_new(start),
        events.len() == 0,
    ensures
        account(start, Seq::empty(), Seq::empty(), events),
{
    reveal(account);
    crate::board::lemma_begun(Seq::empty(), start.mode);
}

proof fn lemma_account_idles(
    s: RunState,
    actions: Seq<Action>,
    reports: Seq<Report>,
    events: Seq<Event>,
    event: Event,
)
    requires
        account(s, actions, reports, events),
        s.over(),
    ensures
        account(s, actions, reports, events.push(event)),
        next(s, event) == s,
{
    reveal(account);
    reveal(next);
    let events2 = events.push(event);
    assert forall|i: int| 0 <= i < idle_count(s) implies #[trigger] was_idle(
        s,
        actions,
        events2,
        i,
    ) by {
        assert(was_idle(s, actions, events, i));
        let k = choose|k: int| scanned(s, actions, events, i, k);
        assert(scanned(s, actions, events2, i, k));
    }
    assert forall|i: int, k: int| #[trigger] checked(actions, events, i, k) implies checked(
        actions,
        events2,
        i,
        k,
    ) by {}
    assert forall|i: int| 0 <= i < verified_count(s) implies #[trigger] is_verified(
        s,
        actions,
        events2,
        i,
    ) by {
        assert(is_verified(s, actions, events, i));
        let k = choose|k: int| checked(actions, events, i, k);
        assert(checked(actions, events2, i, k));
        if crate::nvidia::handle_of(s.passed()[i]) is Some {
            let m = choose|m: int| reread(s.mode, actions, events, i, m);
            assert(reread(s.mode, actions, events2, i, m));
        }
    }
    assert forall|i: int| 0 <= i < files_count(s) implies #[trigger] filed(
        actions,
        events2,
        i,
        actions.len() as int,
    ) by {
        assert(filed(actions, events, i, actions.len() as int));
        let j = choose|j: int|
            {
                &&& 0 <= j < actions.len()
                &&& #[trigger] actions[j] == Action::File { index: i as usize }
                &&& events[j] == Event::Done
            };
        assert(events2[j] == Event::Done);
    }
    match s.stage {
        Stage::Reopen(i) | Stage::Recheck(i) => {
            let k = choose|k: int| checked(actions, events, i as int, k);
            assert(checked(actions, events2, i as int, k));
        },
        _ => {},
    }
}

/// A run is sound from its beginning on, and its mode stays.
pub proof fn lemma_run_is_sound(start: RunState, events: Seq<Event>)
    requires
        is_new(start),
    ensures
        after_all(start, events).sound(),
        after_all(start, events).mode == start.mode,
{
    lemma_account(start, events);
    reveal(account);
}

/// The board of a run is that of its devices.
pub proof fn lemma_board_devices(start: RunState, events: Seq<Event>)
    requires
        is_new(start),
        rank(after_all(start, events).stage) >= 5,
    ensures
        after_all(start, events).board.devices == crate::board::targets(
            after_all(start, events).states,
        ),
{
    lemma_account(start, events);
    reveal(account);
    let end = after_all(start, events);
    crate::board::lemma_run_devices(end.states, end.mode, board_reports(start, events));
}

/// A run that is over takes no event.
pub proof fn lemma_over_stays(s: RunState, event: Event)
    requires
        s.over(),
    ensures
        next(s, event) == s,
{
    reveal(next);
}

/// Until a run is over, every event answers an action.
pub proof fn lemma_every_event_answers(start: RunState, events: Seq<Event>)
    requires
        is_new(start),
    ensures
        acted(start, events).len() <= events.len(),
        !after_all(start, events).over() ==> acted(start, events).len() == events.len(),
{
    lemma_account(start, events);
    reveal(account);
}

/// A run goes down the pipeline and never back: the host is looked at before
/// the devices, every device is scanned before drivers are looked for, drivers
/// are found before the board is worked on, and then come the boot
/// configuration, the binding, the releasing and the verifying.
pub proof fn law_a_run_never_goes_back(start: RunState, events: Seq<Event>, j: int, k: int)
    requires
        is_new(start),
        0 <= j < k < acted(start, events).len(),
    ensures
        action_rank(acted(start, events)[j]) <= action_rank(acted(start, events)[k]),
{
    lemma_account(start, events);
    reveal(account);
}

/// A node is refused whole: a run that ends in the checks, or before a driver
/// is known for every device, has changed no device and no file.
pub proof fn law_a_refused_node_is_untouched(start: RunState, events: Seq<Event>, k: int)
    requires
        is_new(start),
        rank(after_all(start, events).stage) <= 4,
        0 <= k < acted(start, events).len(),
    ensures
        !touches(acted(start, events)[k]),
{
    lemma_account(start, events);
    reveal(account);
}

/// Before anything is touched, or even a module loaded, every device in scope
/// has been scanned and nobody was found to hold it.
pub proof fn law_every_device_is_idle_before_any_is_touched(
    start: RunState,
    events: Seq<Event>,
    k: int,
    i: int,
)
    requires
        is_new(start),
        0 <= k < acted(start, events).len(),
        touches(acted(start, events)[k]) || acted(start, events)[k] is LoadModule,
        0 <= i < after_all(start, events).states.len(),
    ensures
        exists|j: int|
            0 <= j < k && scanned(
                after_all(start, events),
                acted(start, events),
                events,
                i,
                j,
            ),
{
    lemma_account(start, events);
    reveal(account);
    let end = after_all(start, events);
    let actions = acted(start, events);
    assert(action_rank(actions[k]) >= 4);
    assert(was_idle(end, actions, events, i));
    let j = choose|j: int| scanned(end, actions, events, i, j);
    if j >= k {
        assert(action_rank(actions[k]) <= action_rank(actions[j]));
    }
}

/// A device that has no row in the device table is never dealt with.
pub proof fn law_a_device_without_a_row_is_never_touched(
    start: RunState,
    events: Seq<Event>,
    i: int,
)
    requires
        is_new(start),
        0 <= i < after_all(start, events).states.len(),
    ensures
        after_all(start, events).states[i].row is Some,
{
    lemma_account(start, events);
    reveal(account);
}

/// Before anything is touched, a driver is known for every device that is
/// passed through.
pub proof fn law_drivers_are_known_before_anything_is_touched(
    start: RunState,
    events: Seq<Event>,
    k: int,
)
    requires
        is_new(start),
        0 <= k < acted(start, events).len(),
        touches(acted(start, events)[k]),
    ensures
        crate::provision::all_resolved(
            after_all(start, events).passed(),
            after_all(start, events).drivers,
        ),
{
    lemma_account(start, events);
    reveal(account);
    let end = after_all(start, events);
    assert(rank(end.stage) >= 5);
    assert(end.resolved(end.passed().len() as int));
}

/// The work on the board is that of one run over its devices, piece by piece:
/// whatever holds of such a run holds of it here.
pub proof fn law_the_board_is_one_run(start: RunState, events: Seq<Event>)
    requires
        is_new(start),
        rank(after_all(start, events).stage) >= 5,
    ensures
        after_all(start, events).board == begun(
            after_all(start, events).states,
            start.mode,
        ).after_all(board_reports(start, events)),
        board_works(acted(start, events)) == crate::board::worked(
            begun(after_all(start, events).states, start.mode),
            board_reports(start, events),
        ),
{
    lemma_account(start, events);
    reveal(account);
}

proof fn lemma_board_works(actions: Seq<Action>, k: int)
    requires
        0 <= k < actions.len(),
    ensures
        actions[k] matches Action::Board(work) ==> board_works(actions).contains(work),
    decreases actions.len(),
{
    let front = actions.drop_last();
    let earlier = board_works(front);
    if let Action::Board(work) = actions[k] {
        if k < front.len() {
            lemma_board_works(front, k);
            let m = choose|m: int| 0 <= m < earlier.len() && earlier[m] == work;
            assert(board_works(actions)[m] == work);
        } else {
            assert(board_works(actions)[earlier.len() as int] == work);
        }
    }
}

proof fn lemma_targets_fit(states: Seq<DeviceState>)
    ensures
        crate::board::targets(states).len() <= states.len(),
    decreases states.len(),
{
    if states.len() > 0 {
        lemma_targets_fit(states.drop_last());
    }
}

/// A node whose devices are in the mode already comes out of a run with no
/// knob written and no device reset.
pub proof fn law_a_node_in_the_mode_is_not_reset(start: RunState, events: Seq<Event>, k: int)
    requires
        is_new(start),
        0 <= k < acted(start, events).len(),
        forall|i: int|
            0 <= i < after_all(start, events).board.readings.len() ==> (
            #[trigger] after_all(start, events).board.readings[i]).are(start.mode),
    ensures
        acted(start, events)[k] matches Action::Board(work) ==> !(work is Write) && !(
        work is Reset),
{
    lemma_account(start, events);
    reveal(account);
    let end = after_all(start, events);
    let actions = acted(start, events);
    let reports = board_reports(start, events);
    if let Action::Board(work) = actions[k] {
        assert(rank(end.stage) >= 5);
        lemma_board_works(actions, k);
        lemma_targets_fit(end.states);
        let works = crate::board::worked(begun(end.states, end.mode), reports);
        let m = choose|m: int| 0 <= m < works.len() && works[m] == work;
        crate::board::law_a_board_in_the_mode_is_left_alone(end.states, end.mode, reports, m);
    }
}

/// Nothing is written to the boot configuration, bound or released before the
/// board has settled: every device that has modes was read in the mode.
pub proof fn law_the_board_settles_before_anything_is_bound(
    start: RunState,
    events: Seq<Event>,
    k: int,
    device: usize,
)
    requires
        is_new(start),
        0 <= k < acted(start, events).len(),
        touches(acted(start, events)[k]),
        !(acted(start, events)[k] is Board),
        device < crate::board::targets(after_all(start, events).states).len(),
    ensures
        ({
            let board = begun(after_all(start, events).states, start.mode);
            let reports = board_reports(start, events);
            exists|j: int|
                {
                    &&& 0 <= j < crate::board::worked(board, reports).len()
                    &&& #[trigger] crate::board::worked(board, reports)[j] == (Work::Verify {
                        device,
                    })
                    &&& reports[j] matches Report::Read(reading)
                    &&& reading.modes().are(start.mode)
                }
        }),
{
    lemma_account(start, events);
    reveal(account);
    let end = after_all(start, events);
    assert(rank(end.stage) >= 6);
    crate::board::law_a_settled_board_is_in_the_mode(
        end.states,
        start.mode,
        board_reports(start, events),
        device,
    );
}

/// The whole boot configuration is in place before the first device is bound,
/// so a crash in between leaves a node that comes back bound.
pub proof fn law_the_boot_configuration_comes_before_the_binding(
    start: RunState,
    events: Seq<Event>,
    k: int,
    i: int,
)
    requires
        is_new(start),
        0 <= k < acted(start, events).len(),
        acted(start, events)[k] is Bind,
        0 <= i < crate::modules::boot_files(after_all(start, events).claims()).len(),
    ensures
        filed(acted(start, events), events, i, k),
{
    lemma_account(start, events);
    reveal(account);
    let end = after_all(start, events);
    let actions = acted(start, events);
    assert(action_rank(actions[k]) == 7);
    assert(filed(actions, events, i, actions.len() as int));
    let j = choose|j: int|
        {
            &&& 0 <= j < actions.len()
            &&& #[trigger] actions[j] == Action::File { index: i as usize }
            &&& events[j] == Event::Done
        };
    if j >= k {
        assert(action_rank(actions[k]) <= action_rank(actions[j]));
    }
}

/// A device is released only where it is not passed through and a vfio driver
/// holds it: anything else was never ours to take.
pub proof fn law_only_what_vfio_holds_is_released(
    start: RunState,
    events: Seq<Event>,
    device: usize,
)
    requires
        is_new(start),
        after_all(start, events).action() == (Action::Unbind { device }),
    ensures
        device < after_all(start, events).states.len(),
        crate::provision::is_vfio(after_all(start, events).held),
        !crate::provision::has_address(
            after_all(start, events).passed(),
            after_all(start, events).states[device as int].address@,
        ),
{
    lemma_account(start, events);
    reveal(account);
}

/// Under PPCIE the whole board is passed through, and nothing is released.
pub proof fn law_ppcie_releases_nothing(start: RunState, events: Seq<Event>)
    requires
        is_new(start),
        start.mode == Mode::Ppcie,
    ensures
        !(after_all(start, events).action() is AskDriver),
        !(after_all(start, events).action() is Unbind),
{
    lemma_account(start, events);
    reveal(account);
    let end = after_all(start, events);
    crate::provision::law_switches_pass_only_under_ppcie(end.states, end.mode);
    match end.stage {
        Stage::Ask(i) | Stage::Release(i) => {
            assert(end.passed()[i as int].address@ == end.states[i as int].address@);
        },
        _ => {},
    }
}

/// A run finishes only where every device that is passed through was seen to
/// be bound to its driver, and every one that has modes was read once more and
/// is in the mode.
pub proof fn law_a_finished_node_is_verified(start: RunState, events: Seq<Event>, i: int)
    requires
        is_new(start),
        after_all(start, events).action() == Action::Finished,
        0 <= i < after_all(start, events).passed().len(),
    ensures
        exists|k: int| checked(acted(start, events), events, i, k),
        crate::nvidia::handle_of(after_all(start, events).passed()[i]) is Some ==> exists|k: int|
            reread(start.mode, acted(start, events), events, i, k),
{
    lemma_account(start, events);
    reveal(account);
    assert(is_verified(after_all(start, events), acted(start, events), events, i));
}

/// Once a run is over, nothing that is still reported changes it.
pub proof fn law_a_run_that_is_over_stays_as_it_is(s: RunState, events: Seq<Event>)
    requires
        s.over(),
    ensures
        after_all(s, events) == s,
        acted(s, events).len() == 0,
    decreases events.len(),
{
    reveal(next);
    if events.len() > 0 {
        law_a_run_that_is_over_stays_as_it_is(s, events.drop_last());
    }
}

} // verus!
