//! What a run that finishes has done to the node: every device scanned, every
//! file of the boot configuration seen to, every device bound that is passed
//! through.
use vstd::prelude::*;

use crate::history::{acted, after_all, files_count, idle_count, is_new, next, rank};
use crate::run::{Action, Event, RunState, Stage};

verus! {

/// What an action of a kind is about, or that the action is of another.
pub open spec fn scans() -> spec_fn(Action) -> Option<usize> {
    |action: Action|
        match action {
            Action::Scan { device } => Some(device),
            _ => None,
        }
}

/// As [`scans`], for the files of the boot configuration.
pub open spec fn files() -> spec_fn(Action) -> Option<usize> {
    |action: Action|
        match action {
            Action::File { index } => Some(index),
            _ => None,
        }
}

/// As [`scans`], for the binding.
pub open spec fn binds() -> spec_fn(Action) -> Option<usize> {
    |action: Action|
        match action {
            Action::Bind { device } => Some(device),
            _ => None,
        }
}

/// What the actions of a kind were about, in order.
pub open spec fn subjects(actions: Seq<Action>, kind: spec_fn(Action) -> Option<usize>) -> Seq<
    usize,
>
    decreases actions.len(),
{
    if actions.len() == 0 {
        Seq::empty()
    } else {
        let earlier = subjects(actions.drop_last(), kind);
        match kind(actions.last()) {
            Some(subject) => earlier.push(subject),
            None => earlier,
        }
    }
}

/// The first `n` places, in order.
pub open spec fn places(n: int) -> Seq<usize> {
    Seq::new(n as nat, |i: int| i as usize)
}

/// The event is the success of the action.
pub open spec fn succeeds(action: Action, event: Event) -> bool {
    match action {
        Action::Scan { .. } => event is Scan,
        Action::File { .. } => event == Event::Done,
        Action::Bind { .. } => event is Bound,
        _ => true,
    }
}

/// How many devices have been bound.
spec fn bound_count(s: RunState) -> int {
    match s.stage {
        Stage::Bind(i) => i as int,
        _ => if rank(s.stage) > 7 {
            s.passed().len() as int
        } else {
            0
        },
    }
}

/// An action of a kind of which `before` were taken is about the next place, and
/// `after` counts it; one of another kind is not counted.
spec fn counts(action: Option<usize>, before: int, after: int) -> bool {
    match action {
        Some(subject) => subject == before && after == before + 1,
        None => after == before,
    }
}

/// An event that does not stop the run takes it past one action.
proof fn lemma_outcome_step(s: RunState, event: Event)
    requires
        s.sound(),
        !s.over(),
        next(s, event).stop is None,
    ensures
        counts(scans()(s.action()), idle_count(s), idle_count(next(s, event))),
        counts(files()(s.action()), files_count(s), files_count(next(s, event))),
        counts(binds()(s.action()), bound_count(s), bound_count(next(s, event))),
        succeeds(s.action(), event),
{
    reveal(next);
    if s.is_late() {
        crate::run::lemma_late_event(s, event);
        assert(s.after(event).passed() == s.passed());
    }
}

proof fn lemma_places(n: int)
    requires
        0 <= n <= usize::MAX,
    ensures
        places(n).push(n as usize) == places(n + 1),
{
    assert(places(n).push(n as usize) =~= places(n + 1));
}

/// What lies behind a run that nothing has stopped.
spec fn is_done_so_far(s: RunState, actions: Seq<Action>, events: Seq<Event>) -> bool {
    &&& subjects(actions, scans()) == places(idle_count(s))
    &&& subjects(actions, files()) == places(files_count(s))
    &&& subjects(actions, binds()) == places(bound_count(s))
    &&& forall|k: int|
        0 <= k < actions.len() ==> #[trigger] succeeds(actions[k], events[k])
}

proof fn lemma_outcome(start: RunState, events: Seq<Event>)
    requires
        is_new(start),
        after_all(start, events).stop is None,
    ensures
        is_done_so_far(after_all(start, events), acted(start, events), events),
    decreases events.len(),
{
    let actions = acted(start, events);
    if events.len() == 0 {
        assert(places(0) =~= Seq::empty());
    } else {
        let front = events.drop_last();
        let before = after_all(start, front);
        let earlier = acted(start, front);
        crate::history::lemma_run_is_sound(start, front);
        crate::history::lemma_every_event_answers(start, front);
        if before.over() {
            crate::history::lemma_over_stays(before, events.last());
        }
        lemma_outcome(start, front);
        assert forall|k: int| 0 <= k < earlier.len() implies #[trigger] succeeds(
            actions[k],
            events[k],
        ) by {
            assert(succeeds(earlier[k], front[k]));
        }
        if !before.over() {
            lemma_outcome_step(before, events.last());
            assert(actions.drop_last() =~= earlier);
            let action = before.action();
            if scans()(action) is Some {
                lemma_places(idle_count(before));
            }
            if files()(action) is Some {
                lemma_places(files_count(before));
            }
            if binds()(action) is Some {
                lemma_places(bound_count(before));
            }
        }
    }
}

/// A run that finishes has scanned every device, seen to all three files of the
/// boot configuration, and bound every device that is passed through, each once,
/// in order, and with success.
pub proof fn law_a_finished_run_has_done_it_all(start: RunState, events: Seq<Event>)
    requires
        is_new(start),
        after_all(start, events).action() == Action::Finished,
    ensures
        subjects(acted(start, events), scans()) == places(
            after_all(start, events).states.len() as int,
        ),
        subjects(acted(start, events), files()) == places(3),
        subjects(acted(start, events), binds()) == places(
            after_all(start, events).passed().len() as int,
        ),
        forall|k: int|
            0 <= k < acted(start, events).len() ==> #[trigger] succeeds(
                acted(start, events)[k],
                events[k],
            ),
{
    lemma_outcome(start, events);
}

} // verus!
