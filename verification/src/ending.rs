//! A run over a node ends, whatever the node answers.
use vstd::prelude::*;

use crate::board::targets;
use crate::history::{acted, after_all, is_new, next, rank};
use crate::run::{Event, RunState, Stage};

verus! {

/// More actions than this no run takes over the devices that it found: a few
/// for the node, and for each device those of scanning, resolving, binding,
/// releasing and verifying it, and of the work on the board.
pub open spec fn most_actions(s: RunState) -> nat {
    3 * s.states.len() + 7 * s.passed().len() + 6 * targets(s.states).len() + 7
}

/// No more actions than this lie behind a run that stands where `s` does.
spec fn spent(s: RunState) -> int {
    let n = s.states.len() as int;
    let p = s.passed().len() as int;
    let t = targets(s.states).len() as int;
    match s.stage {
        Stage::Host => 0,
        Stage::Enumerate => 1,
        Stage::Idle(i) => 2 + i,
        Stage::Kernel => 2 + n,
        Stage::Find(i) => 3 + n + 3 * i,
        Stage::Load(i) => 4 + n + 3 * i,
        Stage::Driver(i) => 5 + n + 3 * i,
        Stage::Board => 3 + n + 3 * p + s.board.done().len(),
        Stage::Files(i) => 3 + n + 3 * p + 6 * t + i,
        Stage::Bind(i) => 6 + n + 3 * p + 6 * t + i,
        Stage::Ask(i) => 6 + n + 4 * p + 6 * t + 2 * i,
        Stage::Release(i) => 7 + n + 4 * p + 6 * t + 2 * i,
        Stage::Bound(i) => 6 + 3 * n + 4 * p + 6 * t + 3 * i,
        Stage::Reopen(i) => 7 + 3 * n + 4 * p + 6 * t + 3 * i,
        Stage::Recheck(i) => 8 + 3 * n + 4 * p + 6 * t + 3 * i,
        Stage::Finished => 6 + 3 * n + 7 * p + 6 * t,
    }
}

/// The board of the run is that of its devices.
spec fn has_its_board(s: RunState) -> bool {
    rank(s.stage) >= 5 ==> s.board.devices == targets(s.states)
}

proof fn lemma_spends_early(s: RunState, event: Event)
    requires
        s.sound(),
        !s.over(),
        rank(s.stage) <= 4,
        has_its_board(s.after(event)),
        s.after(event).stop is None,
    ensures
        spent(s.after(event)) > spent(s),
{
    s.states.lemma_filter_len(crate::provision::passes(s.mode));
    crate::board::lemma_begun(s.states, s.mode);
}

proof fn lemma_spends_on_board(s: RunState, event: Event)
    requires
        s.sound(),
        !s.over(),
        s.stage == Stage::Board,
        has_its_board(s),
        s.after(event).stop is None,
    ensures
        spent(s.after(event)) > spent(s),
{
    let report = RunState::report(event);
    let board = s.board.after(report);
    crate::board::lemma_step_does_its_work(s.board, report);
    crate::board::lemma_after(s.board, report);
    crate::board::lemma_little_is_done(board);
    assert(s.after(event).board == board);
    assert(s.after(event).passed() == s.passed());
}

proof fn lemma_spends_late(s: RunState, event: Event)
    requires
        s.sound(),
        !s.over(),
        s.is_late(),
        s.after(event).stop is None,
    ensures
        spent(s.after(event)) > spent(s),
{
    s.states.lemma_filter_len(crate::provision::passes(s.mode));
    crate::run::lemma_late_event(s, event);
}

/// An event that does not stop a run is one more action behind it.
proof fn lemma_spends(s: RunState, event: Event)
    requires
        s.sound(),
        !s.over(),
        has_its_board(s),
        has_its_board(next(s, event)),
        next(s, event).stop is None,
    ensures
        spent(next(s, event)) > spent(s),
{
    reveal(next);
    if rank(s.stage) <= 4 {
        lemma_spends_early(s, event);
    } else if s.stage == Stage::Board {
        lemma_spends_on_board(s, event);
    } else {
        lemma_spends_late(s, event);
    }
}

proof fn lemma_board_of(start: RunState, events: Seq<Event>)
    requires
        is_new(start),
    ensures
        has_its_board(after_all(start, events)),
{
    if rank(after_all(start, events).stage) >= 5 {
        crate::history::lemma_board_devices(start, events);
    }
}

proof fn lemma_spent(start: RunState, events: Seq<Event>)
    requires
        is_new(start),
        after_all(start, events).stop is None,
    ensures
        acted(start, events).len() <= spent(after_all(start, events)),
    decreases events.len(),
{
    if events.len() > 0 {
        let front = events.drop_last();
        let before = after_all(start, front);
        crate::history::lemma_run_is_sound(start, front);
        lemma_board_of(start, front);
        lemma_board_of(start, events);
        if before.over() {
            crate::history::lemma_over_stays(before, events.last());
        } else {
            lemma_spends(before, events.last());
        }
        lemma_spent(start, front);
    }
}

/// A run that is not over has an action left of those that it may take.
proof fn lemma_not_all_spent(s: RunState)
    requires
        s.sound(),
        !s.over(),
        has_its_board(s),
    ensures
        spent(s) < most_actions(s),
{
    s.states.lemma_filter_len(crate::provision::passes(s.mode));
    if s.stage == Stage::Board {
        crate::board::lemma_little_is_done(s.board);
    }
}

/// A run ends, whatever the node answers: after so many answers as there are
/// actions to take over the devices that it found, it is over.
pub proof fn law_a_run_ends(start: RunState, events: Seq<Event>)
    requires
        is_new(start),
        events.len() >= most_actions(after_all(start, events)),
    ensures
        after_all(start, events).over(),
{
    let end = after_all(start, events);
    if !end.over() {
        crate::history::lemma_run_is_sound(start, events);
        crate::history::lemma_every_event_answers(start, events);
        lemma_board_of(start, events);
        lemma_spent(start, events);
        lemma_not_all_spent(end);
    }
}

/// A run that nothing stops is finished once it has had all its answers.
pub proof fn law_a_run_that_nothing_stops_finishes(start: RunState, events: Seq<Event>)
    requires
        is_new(start),
        events.len() >= most_actions(after_all(start, events)),
        after_all(start, events).stop is None,
    ensures
        after_all(start, events).action() == crate::run::Action::Finished,
{
    law_a_run_ends(start, events);
}

} // verus!
