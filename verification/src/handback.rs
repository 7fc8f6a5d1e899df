//! What a run that finishes has done with the devices that are not passed
//! through: each was asked for its driver, and handed back where that was vfio.
use vstd::prelude::*;

use crate::history::{acted, after_all, is_new, next, rank};
use crate::outcome::subjects;
use crate::run::{Action, Event, RunState, Stage};

verus! {

/// The devices before `upto` that are not passed through, in order.
pub open spec fn dropped(s: RunState, upto: int) -> Seq<usize>
    decreases upto,
{
    if upto <= 0 {
        Seq::empty()
    } else if s.keeps(upto - 1) {
        dropped(s, upto - 1)
    } else {
        dropped(s, upto - 1).push((upto - 1) as usize)
    }
}

/// The devices that `actions` ask about, in order.
pub open spec fn asked(actions: Seq<Action>) -> Seq<usize> {
    subjects(
        actions,
        |action: Action|
            match action {
                Action::AskDriver { device } => Some(device),
                _ => None,
            },
    )
}

/// The action at `k` asked about `device`, and the answer was a vfio driver.
pub open spec fn has_vfio(
    actions: Seq<Action>,
    events: Seq<Event>,
    device: usize,
    k: int,
) -> bool {
    &&& 0 <= k < actions.len()
    &&& actions[k] == Action::AskDriver { device }
    &&& events[k] matches Event::Current(Some(driver)) && crate::provision::is_vfio(driver@)
}

/// The action at `k` unbound `device`, and was done.
pub open spec fn unbound(
    actions: Seq<Action>,
    events: Seq<Event>,
    device: usize,
    k: int,
) -> bool {
    &&& 0 <= k < actions.len()
    &&& actions[k] == Action::Unbind { device }
    &&& events[k] == Event::Done
}

/// How many devices the asking has come past.
spec fn asked_count(s: RunState) -> int {
    match s.stage {
        Stage::Ask(i) => i as int,
        Stage::Release(i) => i + 1,
        _ => if rank(s.stage) > 8 {
            s.states.len() as int
        } else {
            0
        },
    }
}

/// Where the handing back stands in a run that nothing has stopped.
spec fn is_handing(s: RunState, actions: Seq<Action>, events: Seq<Event>) -> bool {
    &&& asked(actions) == dropped(s, asked_count(s))
    &&& forall|device: usize, k: int| #[trigger]
        has_vfio(actions, events, device, k) ==> {
            ||| unbound(actions, events, device, k + 1)
            ||| k + 1 == actions.len() && s.stage == Stage::Release(device)
        }
    &&& forall|device: usize, k: int| #[trigger]
        unbound(actions, events, device, k) ==> has_vfio(actions, events, device, k - 1)
    &&& s.stage matches Stage::Release(i) ==> has_vfio(actions, events, i, actions.len() - 1)
}

/// What is dropped depends only on what is kept.
proof fn lemma_dropped_alike(s: RunState, t: RunState, upto: int)
    requires
        t.states == s.states,
        t.mode == s.mode,
    ensures
        dropped(t, upto) == dropped(s, upto),
    decreases upto,
{
    if upto > 0 {
        lemma_dropped_alike(s, t, upto - 1);
        assert(t.keeps(upto - 1) == s.keeps(upto - 1));
    }
}

/// Each device that is not kept is dropped, and once.
proof fn lemma_dropped(s: RunState, upto: int)
    requires
        0 <= upto <= usize::MAX,
    ensures
        forall|device: usize| #[trigger]
            dropped(s, upto).contains(device) <==> device < upto && !s.keeps(device as int),
        dropped(s, upto).no_duplicates(),
    decreases upto,
{
    if upto > 0 {
        lemma_dropped(s, upto - 1);
        let front = dropped(s, upto - 1);
        if !s.keeps(upto - 1) {
            let last = (upto - 1) as usize;
            assert(!front.contains(last));
            assert forall|device: usize| #[trigger]
                front.push(last).contains(device) == (front.contains(device) || device
                    == last) by {
                if front.contains(device) {
                    assert(front.push(last)[front.index_of(device)] == device);
                }
                assert(front.push(last)[front.len() as int] == last);
            }
        }
    }
}

/// Devices that are kept drop nothing.
proof fn lemma_kept_drop_nothing(s: RunState, i: int, j: int)
    requires
        0 <= i <= j,
        forall|k: int| i <= k < j ==> #[trigger] s.keeps(k),
    ensures
        dropped(s, j) == dropped(s, i),
    decreases j,
{
    if i < j {
        assert(s.keeps(j - 1));
        lemma_kept_drop_nothing(s, i, j - 1);
    }
}

/// Where the asking goes on from `i`, it skips only what is kept.
proof fn lemma_asks_from(s: RunState, t: RunState, i: int)
    requires
        0 <= i <= s.states.len(),
        t.states == s.states,
        t.mode == s.mode,
        s.asks_from(i, t.stage),
    ensures
        dropped(t, asked_count(t)) == dropped(s, i),
        !(t.stage is Release),
{
    lemma_dropped_alike(s, t, asked_count(t));
    lemma_kept_drop_nothing(s, i, asked_count(t));
}

/// An early event asks about nothing and gets no further than the boot
/// configuration.
proof fn lemma_early_asks_nothing(s: RunState, event: Event)
    requires
        s.sound(),
        !s.over(),
        rank(s.stage) <= 5,
        s.after(event).stop is None,
    ensures
        rank(s.after(event).stage) <= 6,
        !(s.action() is AskDriver),
        !(s.action() is Unbind),
{
}

/// An event that does not stop the run leaves as many behind as were asked.
proof fn lemma_asked_step(s: RunState, event: Event)
    requires
        s.sound(),
        !s.over(),
        next(s, event).stop is None,
    ensures
        s.action() matches Action::AskDriver { device } ==> s.stage == Stage::Ask(device)
            && dropped(next(s, event), asked_count(next(s, event))) == dropped(
            s,
            asked_count(s),
        ).push(device),
        !(s.action() is AskDriver) ==> dropped(next(s, event), asked_count(next(s, event)))
            == dropped(s, asked_count(s)),
        s.action() matches Action::Unbind { device } ==> s.stage == Stage::Release(device)
            && event == Event::Done,
        next(s, event).stage matches Stage::Release(i) ==> s.stage == Stage::Ask(i) && (
        event matches Event::Current(Some(driver)) && crate::provision::is_vfio(driver@)),
        s.stage is Ask ==> (event matches Event::Current(Some(driver))
            && crate::provision::is_vfio(driver@) ==> next(s, event).stage is Release),
{
    reveal(next);
    let t = s.after(event);
    if rank(s.stage) <= 5 {
        lemma_early_asks_nothing(s, event);
    } else {
        crate::run::lemma_late_event(s, event);
        lemma_dropped_alike(s, t, asked_count(t));
        match s.stage {
            Stage::Files(i) => {
                if i >= 2 && s.passed().len() == 0 {
                    lemma_asks_from(s, t, 0);
                }
            },
            Stage::Bind(i) => {
                if i + 1 >= s.passed().len() {
                    lemma_asks_from(s, t, 0);
                }
            },
            Stage::Ask(i) => {
                assert(!s.keeps(i as int));
                assert(dropped(s, i + 1) == dropped(s, i as int).push(i));
                if !(t.stage is Release) {
                    lemma_asks_from(s, t, i + 1);
                }
            },
            Stage::Release(i) => {
                lemma_asks_from(s, t, i + 1);
            },
            _ => {},
        }
    }
}

proof fn lemma_handing(start: RunState, events: Seq<Event>)
    requires
        is_new(start),
        after_all(start, events).stop is None,
    ensures
        is_handing(after_all(start, events), acted(start, events), events),
    decreases events.len(),
{
    let end = after_all(start, events);
    let actions = acted(start, events);
    if events.len() > 0 {
        let front = events.drop_last();
        let before = after_all(start, front);
        let earlier = acted(start, front);
        crate::history::lemma_run_is_sound(start, front);
        crate::history::lemma_every_event_answers(start, front);
        if before.over() {
            crate::history::lemma_over_stays(before, events.last());
        }
        lemma_handing(start, front);
        assert(forall|device: usize, k: int|
            k < earlier.len() ==> has_vfio(actions, events, device, k) == has_vfio(
                earlier,
                front,
                device,
                k,
            ) && unbound(actions, events, device, k) == unbound(earlier, front, device, k));
        if !before.over() {
            lemma_asked_step(before, events.last());
            assert(actions.drop_last() =~= earlier);
            assert(asked(actions) == dropped(end, asked_count(end)));
        }
    }
}

/// A run that finishes has asked about every device that is not passed through,
/// about each once and in order, and about no other. Right after an answer that
/// was a vfio driver the device was unbound, with success. Nothing else was.
pub proof fn law_a_finished_run_has_handed_back(start: RunState, events: Seq<Event>)
    requires
        is_new(start),
        after_all(start, events).action() == Action::Finished,
    ensures
        asked(acted(start, events)) == dropped(
            after_all(start, events),
            after_all(start, events).states.len() as int,
        ),
        asked(acted(start, events)).no_duplicates(),
        forall|device: usize| #[trigger]
            asked(acted(start, events)).contains(device) <==> {
                let end = after_all(start, events);
                &&& device < end.states.len()
                &&& forall|p: int|
                    0 <= p < end.passed().len() ==> (#[trigger] end.passed()[p]).address@
                        != end.states[device as int].address@
            },
        forall|device: usize, k: int| #[trigger]
            has_vfio(acted(start, events), events, device, k) ==> unbound(
                acted(start, events),
                events,
                device,
                k + 1,
            ),
        forall|device: usize, k: int| #[trigger]
            unbound(acted(start, events), events, device, k) ==> has_vfio(
                acted(start, events),
                events,
                device,
                k - 1,
            ),
{
    lemma_handing(start, events);
    crate::history::lemma_run_is_sound(start, events);
    let end = after_all(start, events);
    lemma_dropped(end, end.states.len() as int);
    assert forall|device: usize| device < end.states.len() implies #[trigger] end.keeps(
        device as int,
    ) == !(forall|p: int|
        0 <= p < end.passed().len() ==> (#[trigger] end.passed()[p]).address@
            != end.states[device as int].address@) by {}
}

} // verus!
