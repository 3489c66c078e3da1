//! A bounded queue of timed events, and the rendering of a buffer in pieces
//! around the events that are due in it.
use crate::event::scratch::{
    channels_reach, frames_between, input_slices, input_storage_locked, output_slices,
    output_storage_locked, release_input, release_output, samples_of, samples_of_mut,
};
pub use crate::event::scratch::{mid, mid_mut};
use crate::event::EventHandler;
use crate::event::Timed;
use crate::ContextualAudioRenderer;
use crate::Sample;
use std::collections::VecDeque;
use vecstorage::VecStorage;
use vstd::prelude::*;

verus! {

/// What to do when a new event falls on the same frame as an event that is
/// already queued.
pub enum EventCollisionHandling {
    InsertNewBeforeOld,
    InsertNewAfterOld,
    IgnoreNew,
    RemoveOld,
}

/// Decides what happens when two events share a frame.
///
/// The decision is a function of the decider and the two events, nothing else:
/// `decision` is that function, and `decide_on_collision` computes it. An
/// implementation gives both, and they must agree.
pub trait HandleEventCollision<T> {
    /// The decision for `new_event` meeting the queued `old_event`.
    spec fn decision(&self, old_event: &T, new_event: &T) -> EventCollisionHandling;

    fn decide_on_collision(&self, old_event: &T, new_event: &T) -> (handling:
        EventCollisionHandling)
        ensures
            handling == self.decision(old_event, new_event),
    ;
}

/// Puts a new event before the events that are queued on its frame.
pub struct AlwaysInsertNewBeforeOld;

impl<T> HandleEventCollision<T> for AlwaysInsertNewBeforeOld {
    open spec fn decision(&self, old_event: &T, new_event: &T) -> EventCollisionHandling {
        EventCollisionHandling::InsertNewBeforeOld
    }

    #[inline(always)]
    fn decide_on_collision(&self, _old_event: &T, _new_event: &T) -> EventCollisionHandling {
        EventCollisionHandling::InsertNewBeforeOld
    }
}

/// Puts a new event after the events that are queued on its frame.
pub struct AlwaysInsertNewAfterOld;

impl<T> HandleEventCollision<T> for AlwaysInsertNewAfterOld {
    open spec fn decision(&self, old_event: &T, new_event: &T) -> EventCollisionHandling {
        EventCollisionHandling::InsertNewAfterOld
    }

    #[inline(always)]
    fn decide_on_collision(&self, _old_event: &T, _new_event: &T) -> EventCollisionHandling {
        EventCollisionHandling::InsertNewAfterOld
    }
}

/// Turns a new event away where an event is queued on its frame.
pub struct AlwaysIgnoreNew;

impl<T> HandleEventCollision<T> for AlwaysIgnoreNew {
    open spec fn decision(&self, old_event: &T, new_event: &T) -> EventCollisionHandling {
        EventCollisionHandling::IgnoreNew
    }

    #[inline(always)]
    fn decide_on_collision(&self, _old_event: &T, _new_event: &T) -> EventCollisionHandling {
        EventCollisionHandling::IgnoreNew
    }
}

/// Puts a new event in the place of the first event that is queued on its
/// frame.
pub struct AlwaysRemoveOld;

impl<T> HandleEventCollision<T> for AlwaysRemoveOld {
    open spec fn decision(&self, old_event: &T, new_event: &T) -> EventCollisionHandling {
        EventCollisionHandling::RemoveOld
    }

    #[inline(always)]
    fn decide_on_collision(&self, _old_event: &T, _new_event: &T) -> EventCollisionHandling {
        EventCollisionHandling::RemoveOld
    }
}

/// Whether the events stand in non-decreasing order of time.
pub open spec fn in_time_order<T>(events: Seq<Timed<T>>) -> bool {
    forall|i: int, j: int|
        0 <= i <= j < events.len() ==> events[i].time_in_frames <= events[j].time_in_frames
}

/// Whether the search for the place of `new_event` moves on past `queued`:
/// it does past an earlier event, and past one on the same frame when the
/// decider puts the new event after it.
pub open spec fn moves_past<T, H: HandleEventCollision<T>>(
    queued: Timed<T>,
    new_event: Timed<T>,
    decider: H,
) -> bool {
    ||| queued.time_in_frames < new_event.time_in_frames
    ||| (queued.time_in_frames == new_event.time_in_frames && decider.decision(
        &queued.event,
        &new_event.event,
    ) == EventCollisionHandling::InsertNewAfterOld)
}

/// Where the search for the place of `new_event` comes to rest when it starts
/// at `from`: the first index at or after `from` that it does not move past,
/// or the length of `events`.
pub open spec fn resting_index<T, H: HandleEventCollision<T>>(
    events: Seq<Timed<T>>,
    new_event: Timed<T>,
    decider: H,
    from: int,
) -> int
    decreases events.len() - from,
{
    if 0 <= from < events.len() && moves_past(events[from], new_event, decider) {
        resting_index(events, new_event, decider, from + 1)
    } else {
        from
    }
}

/// Queueing `new_event` where there is room: the events afterwards, and the
/// event that is handed back, if any.
pub open spec fn placed<T, H: HandleEventCollision<T>>(
    events: Seq<Timed<T>>,
    new_event: Timed<T>,
    decider: H,
) -> (Seq<Timed<T>>, Option<Timed<T>>) {
    let at = resting_index(events, new_event, decider, 0);
    if at < events.len() && events[at].time_in_frames == new_event.time_in_frames {
        match decider.decision(&events[at].event, &new_event.event) {
            EventCollisionHandling::IgnoreNew => (events, Some(new_event)),
            EventCollisionHandling::RemoveOld => (events.update(at, new_event), Some(events[at])),
            _ => (events.insert(at, new_event), None),
        }
    } else {
        (events.insert(at, new_event), None)
    }
}

/// Whether placing `new_event` puts it in the place of a queued event: the
/// search rests on an event of the same frame, and the decider removes it.
pub open spec fn replaces<T, H: HandleEventCollision<T>>(
    events: Seq<Timed<T>>,
    new_event: Timed<T>,
    decider: H,
) -> bool {
    let at = resting_index(events, new_event, decider, 0);
    &&& at < events.len()
    &&& events[at].time_in_frames == new_event.time_in_frames
    &&& decider.decision(&events[at].event, &new_event.event) == EventCollisionHandling::RemoveOld
}

/// Queueing `new_event` in a queue of the given capacity: the events
/// afterwards, and the event that is handed back, if any.
///
/// A full queue gives up its earliest event to a later one and turns away
/// any other. The event that it gave up is what is handed back, unless the
/// new event takes the place of a queued event, which is handed back then.
pub open spec fn queued<T, H: HandleEventCollision<T>>(
    events: Seq<Timed<T>>,
    capacity: int,
    new_event: Timed<T>,
    decider: H,
) -> (Seq<Timed<T>>, Option<Timed<T>>) {
    if events.len() < capacity {
        placed(events, new_event, decider)
    } else if new_event.time_in_frames > events[0].time_in_frames {
        let (kept, displaced) = placed(events.drop_first(), new_event, decider);
        (
            kept,
            if replaces(events.drop_first(), new_event, decider) {
                displaced
            } else {
                Some(events[0])
            },
        )
    } else {
        (events, Some(new_event))
    }
}

/// The events after queueing each of `new_events` in turn, the first of them
/// first.
pub open spec fn queued_in_turn<T, H: HandleEventCollision<T>>(
    events: Seq<Timed<T>>,
    capacity: int,
    new_events: Seq<Timed<T>>,
    decider: H,
) -> Seq<Timed<T>>
    decreases new_events.len(),
{
    if new_events.len() == 0 {
        events
    } else {
        queued(
            queued_in_turn(events, capacity, new_events.drop_last(), decider),
            capacity,
            new_events.last(),
            decider,
        ).0
    }
}

/// The number of events at the head of `events` that are due before `bound`.
/// Where the events are in time order, these are all the events before `bound`.
pub open spec fn due_before<T>(events: Seq<Timed<T>>, bound: int) -> nat
    decreases events.len(),
{
    if events.len() > 0 && events[0].time_in_frames < bound {
        1 + due_before(events.drop_first(), bound)
    } else {
        0
    }
}

/// The events with every time moved back by `new_zero_time`.
pub open spec fn shifted<T>(events: Seq<Timed<T>>, new_zero_time: u32) -> Seq<Timed<T>> {
    Seq::new(
        events.len(),
        |i: int|
            Timed {
                time_in_frames: (events[i].time_in_frames - new_zero_time) as u32,
                event: events[i].event,
            },
    )
}

/// The number of frames of the buffer: that of the first input channel, or of
/// the first output channel where there is no input channel.
pub open spec fn buffer_length_of(inputs: &[&[Sample]], outputs: &[&mut [Sample]]) -> int {
    if inputs@.len() > 0 {
        inputs@[0]@.len() as int
    } else {
        outputs@[0]@.len() as int
    }
}

/// One step of rendering a buffer around the events that are due in it:
/// first the frames of `render` are rendered, where there are any, then
/// `event` is handed over. A step without an event is the last one.
pub struct SplitStep<T> {
    /// The frames to render: from the first frame of the pair up to, and
    /// without, the second.
    pub render: Option<(usize, usize)>,
    /// The event that is due on the frame at which `render` ends.
    pub event: Option<Timed<T>>,
}

/// The frames from `start` up to `end`, where there are any.
pub open spec fn frames(start: int, end: int) -> Option<(usize, usize)> {
    if start < end {
        Some((start as usize, end as usize))
    } else {
        None
    }
}

/// The step that comes next when everything before the frame `position` has
/// been rendered: up to the earliest event, if it is due before
/// `buffer_length`, and up to `buffer_length` otherwise.
pub open spec fn next_step_of<T>(events: Seq<Timed<T>>, position: int, buffer_length: int)
    -> SplitStep<T> {
    if events.len() > 0 && events[0].time_in_frames < buffer_length {
        SplitStep {
            render: frames(position, events[0].time_in_frames as int),
            event: Some(events[0]),
        }
    } else {
        SplitStep { render: frames(position, buffer_length), event: None }
    }
}

/// All the steps, in order, that render the frames from `position` up to
/// `buffer_length` around the events that are due before `buffer_length`.
pub open spec fn steps<T>(events: Seq<Timed<T>>, position: int, buffer_length: int) -> Seq<
    SplitStep<T>,
>
    decreases events.len(),
{
    let step = next_step_of(events, position, buffer_length);
    if events.len() > 0 && events[0].time_in_frames < buffer_length {
        seq![step] + steps(events.drop_first(), events[0].time_in_frames as int, buffer_length)
    } else {
        seq![step]
    }
}

/// The events that the steps hand over, in order.
pub open spec fn handed_over<T>(steps: Seq<SplitStep<T>>) -> Seq<Timed<T>>
    decreases steps.len(),
{
    if steps.len() == 0 {
        Seq::empty()
    } else {
        let rest = handed_over(steps.drop_first());
        match steps[0].event {
            Some(event) => seq![event] + rest,
            None => rest,
        }
    }
}

/// The ranges of frames that the steps render, in order.
pub open spec fn rendered<T>(steps: Seq<SplitStep<T>>) -> Seq<(usize, usize)>
    decreases steps.len(),
{
    if steps.len() == 0 {
        Seq::empty()
    } else {
        let rest = rendered(steps.drop_first());
        match steps[0].render {
            Some(range) => seq![range] + rest,
            None => rest,
        }
    }
}

/// Whether the ranges, one after the other, cover the frames from `start` up
/// to `end`: none is empty, the first begins at `start`, each of the others
/// begins where the one before it ends, and the last ends at `end`.
pub open spec fn tiles(ranges: Seq<(usize, usize)>, start: int, end: int) -> bool
    decreases ranges.len(),
{
    if ranges.len() == 0 {
        start == end
    } else {
        &&& ranges[0].0 == start
        &&& start < ranges[0].1 <= end
        &&& tiles(ranges.drop_first(), ranges[0].1 as int, end)
    }
}

/// The search rests inside the sequence, has moved past everything before its
/// resting place, and does not move past what it rests on.
pub proof fn lemma_resting_index<T, H: HandleEventCollision<T>>(
    events: Seq<Timed<T>>,
    new_event: Timed<T>,
    decider: H,
    from: int,
)
    requires
        0 <= from <= events.len(),
    ensures
        from <= resting_index(events, new_event, decider, from) <= events.len(),
        forall|k: int|
            from <= k < resting_index(events, new_event, decider, from) ==> moves_past(
                #[trigger] events[k],
                new_event,
                decider,
            ),
        resting_index(events, new_event, decider, from) < events.len() ==> !moves_past(
            events[resting_index(events, new_event, decider, from)],
            new_event,
            decider,
        ),
    decreases events.len() - from,
{
    if from < events.len() && moves_past(events[from], new_event, decider) {
        lemma_resting_index(events, new_event, decider, from + 1);
    }
}

/// What is left of events in time order when the earliest is taken away is
/// in time order.
pub proof fn lemma_rest_in_time_order<T>(events: Seq<Timed<T>>)
    requires
        in_time_order(events),
        events.len() > 0,
    ensures
        in_time_order(events.drop_first()),
{
    let rest = events.drop_first();
    assert forall|i: int, j: int| 0 <= i <= j < rest.len() implies rest[i].time_in_frames
        <= rest[j].time_in_frames by {
        assert(rest[i] == events[i + 1]);
        assert(rest[j] == events[j + 1]);
    }
}

/// Placing an event keeps the time order and adds at most one event.
pub proof fn lemma_placed_keeps_order<T, H: HandleEventCollision<T>>(
    events: Seq<Timed<T>>,
    new_event: Timed<T>,
    decider: H,
)
    requires
        in_time_order(events),
    ensures
        in_time_order(placed(events, new_event, decider).0),
        placed(events, new_event, decider).0.len() <= events.len() + 1,
{
    let at = resting_index(events, new_event, decider, 0);
    lemma_resting_index(events, new_event, decider, 0);
    let inserted = events.insert(at, new_event);
    assert forall|i: int, j: int| 0 <= i <= j < inserted.len() implies inserted[i].time_in_frames
        <= inserted[j].time_in_frames by {
        if i < at {
            assert(moves_past(events[i], new_event, decider));
        }
        if j > at {
            assert(events[at].time_in_frames <= events[j - 1].time_in_frames);
        }
    }
    if at < events.len() && events[at].time_in_frames == new_event.time_in_frames {
        let replaced = events.update(at, new_event);
        assert forall|i: int, j: int| 0 <= i <= j < replaced.len() implies replaced[i].time_in_frames
            <= replaced[j].time_in_frames by {
            assert(events[i].time_in_frames <= events[j].time_in_frames);
        }
    }
}

/// `due_before` stops at the first event that is not before `bound`; in a
/// sequence that is in time order no later event is before `bound` either.
pub proof fn lemma_due_before<T>(events: Seq<Timed<T>>, bound: int)
    ensures
        due_before(events, bound) <= events.len(),
        forall|i: int|
            0 <= i < due_before(events, bound) ==> (#[trigger] events[i]).time_in_frames < bound,
        due_before(events, bound) < events.len() ==> events[due_before(
            events,
            bound,
        ) as int].time_in_frames >= bound,
        in_time_order(events) ==> forall|i: int|
            due_before(events, bound) <= i < events.len() ==> (#[trigger] events[i]).time_in_frames
                >= bound,
    decreases events.len(),
{
    if events.len() > 0 && events[0].time_in_frames < bound {
        let rest = events.drop_first();
        lemma_due_before(rest, bound);
        assert forall|i: int| 0 <= i < due_before(events, bound) implies (#[trigger] events[i]).time_in_frames
            < bound by {
            if i > 0 {
                assert(events[i] == rest[i - 1]);
            }
        }
        if in_time_order(events) {
            lemma_rest_in_time_order(events);
            assert forall|i: int| due_before(events, bound) <= i < events.len() implies (
            #[trigger] events[i]).time_in_frames >= bound by {
                assert(events[i] == rest[i - 1]);
            }
        }
    } else if in_time_order(events) {
        assert forall|i: int| 0 <= i < events.len() implies (#[trigger] events[i]).time_in_frames
            >= bound by {
            assert(events[0].time_in_frames <= events[i].time_in_frames);
        }
    }
}

/// Only one index splits a sequence into events before `bound`, followed by
/// an event that is not: it is `due_before`.
pub proof fn lemma_due_before_is<T>(events: Seq<Timed<T>>, bound: int, count: int)
    requires
        0 <= count <= events.len(),
        forall|i: int| 0 <= i < count ==> (#[trigger] events[i]).time_in_frames < bound,
        count < events.len() ==> events[count].time_in_frames >= bound,
    ensures
        due_before(events, bound) == count,
{
    lemma_due_before(events, bound);
    let found = due_before(events, bound) as int;
    if found < count {
        assert(events[found].time_in_frames < bound);
    } else if found > count {
        assert(events[count].time_in_frames < bound);
    }
}

/// Keeping the events that are not before `threshold` takes away, from a
/// sequence in time order, exactly the `due_before` events at its head.
pub proof fn lemma_kept_from<T>(events: Seq<Timed<T>>, threshold: u32)
    requires
        in_time_order(events),
    ensures
        events.filter(|e: Timed<T>| e.time_in_frames >= threshold) == events.skip(
            due_before(events, threshold as int) as int,
        ),
    decreases events.len(),
{
    let keep = |e: Timed<T>| e.time_in_frames >= threshold;
    let count = due_before(events, threshold as int) as int;
    lemma_due_before(events, threshold as int);
    reveal(Seq::filter);
    if events.len() > 0 {
        let front = events.drop_last();
        lemma_kept_from(front, threshold);
        if keep(events.last()) {
            assert forall|i: int| 0 <= i < count implies (#[trigger] front[i]).time_in_frames
                < threshold by {
                assert(front[i] == events[i]);
            }
            lemma_due_before_is(front, threshold as int, count);
            assert(front.skip(count).push(events.last()) =~= events.skip(count));
        } else {
            assert forall|i: int| 0 <= i < front.len() implies (#[trigger] front[i]).time_in_frames
                < threshold by {
                assert(front[i].time_in_frames <= events.last().time_in_frames);
            }
            lemma_due_before_is(front, threshold as int, front.len() as int);
            assert(front.skip(front.len() as int) =~= events.skip(count));
        }
    }
}

/// Moving every time back by the same amount keeps the time order, provided
/// that no time is before that amount.
pub proof fn lemma_shifted_keeps_order<T>(events: Seq<Timed<T>>, new_zero_time: u32)
    requires
        in_time_order(events),
        forall|i: int| 0 <= i < events.len() ==> (#[trigger] events[i]).time_in_frames >= new_zero_time,
    ensures
        in_time_order(shifted(events, new_zero_time)),
        shifted(events, new_zero_time).len() == events.len(),
{
    let moved = shifted(events, new_zero_time);
    assert forall|i: int, j: int| 0 <= i <= j < moved.len() implies moved[i].time_in_frames
        <= moved[j].time_in_frames by {
        assert(events[i].time_in_frames <= events[j].time_in_frames);
    }
}

/// Queueing an event leaves the events in time order and no more of them
/// than the capacity allows.
pub proof fn lemma_queued_keeps_order_and_bound<T, H: HandleEventCollision<T>>(
    events: Seq<Timed<T>>,
    capacity: int,
    new_event: Timed<T>,
    decider: H,
)
    requires
        in_time_order(events),
        0 < capacity,
        events.len() <= capacity,
    ensures
        in_time_order(queued(events, capacity, new_event, decider).0),
        queued(events, capacity, new_event, decider).0.len() <= capacity,
{
    if events.len() < capacity {
        lemma_placed_keeps_order(events, new_event, decider);
    } else if new_event.time_in_frames > events[0].time_in_frames {
        lemma_rest_in_time_order(events);
        lemma_placed_keeps_order(events.drop_first(), new_event, decider);
    }
}

/// However many events are queued one after the other, the queue is in time
/// order after each of them and holds no more events than its capacity
/// allows.
pub proof fn lemma_queue_stays_in_order_and_bound<T, H: HandleEventCollision<T>>(
    events: Seq<Timed<T>>,
    capacity: int,
    new_events: Seq<Timed<T>>,
    decider: H,
)
    requires
        in_time_order(events),
        0 < capacity,
        events.len() <= capacity,
    ensures
        in_time_order(queued_in_turn(events, capacity, new_events, decider)),
        queued_in_turn(events, capacity, new_events, decider).len() <= capacity,
    decreases new_events.len(),
{
    if new_events.len() > 0 {
        lemma_queue_stays_in_order_and_bound(events, capacity, new_events.drop_last(), decider);
        lemma_queued_keeps_order_and_bound(
            queued_in_turn(events, capacity, new_events.drop_last(), decider),
            capacity,
            new_events.last(),
            decider,
        );
    }
}

/// A full queue turns away an event that is not later than its earliest
/// event, and stays as it is. To a later event it gives up its earliest
/// event and no other: the new event is placed among the remaining ones, and
/// the earliest event is what is handed back, unless the new event takes the
/// place of a queued event.
pub proof fn lemma_full_queue_gives_way_to_later<T, H: HandleEventCollision<T>>(
    events: Seq<Timed<T>>,
    capacity: int,
    new_event: Timed<T>,
    decider: H,
)
    requires
        0 < capacity <= events.len(),
    ensures
        new_event.time_in_frames <= events[0].time_in_frames ==> queued(
            events,
            capacity,
            new_event,
            decider,
        ) == (events, Some(new_event)),
        new_event.time_in_frames > events[0].time_in_frames ==> queued(
            events,
            capacity,
            new_event,
            decider,
        ).0 == placed(events.drop_first(), new_event, decider).0,
        new_event.time_in_frames > events[0].time_in_frames && !replaces(
            events.drop_first(),
            new_event,
            decider,
        ) ==> queued(events, capacity, new_event, decider).1 == Some(events[0]),
        new_event.time_in_frames > events[0].time_in_frames && placed(
            events.drop_first(),
            new_event,
            decider,
        ).1 is None ==> queued(events, capacity, new_event, decider) == (
            events.drop_first().insert(
                resting_index(events.drop_first(), new_event, decider, 0),
                new_event,
            ),
            Some(events[0]),
        ),
{
}

/// Where two deciders decide alike on every queued event that `new_event` can
/// meet, the search for the place of `new_event` rests at the same index.
pub proof fn lemma_same_decisions_same_rest<
    T,
    H1: HandleEventCollision<T>,
    H2: HandleEventCollision<T>,
>(events: Seq<Timed<T>>, new_event: Timed<T>, first: H1, second: H2, from: int)
    requires
        0 <= from,
        forall|old_event: T|
            #[trigger] first.decision(&old_event, &new_event.event) == second.decision(
                &old_event,
                &new_event.event,
            ),
    ensures
        resting_index(events, new_event, first, from) == resting_index(
            events,
            new_event,
            second,
            from,
        ),
    decreases events.len() - from,
{
    if from < events.len() && moves_past(events[from], new_event, first) {
        lemma_same_decisions_same_rest(events, new_event, first, second, from + 1);
    }
}

/// Queueing is a function of the queued events, the capacity, the new event
/// and the decisions of the decider: the same of each gives the same events
/// in the same order, and hands back the same.
pub proof fn lemma_same_decisions_same_queue<
    T,
    H1: HandleEventCollision<T>,
    H2: HandleEventCollision<T>,
>(events: Seq<Timed<T>>, capacity: int, new_event: Timed<T>, first: H1, second: H2)
    requires
        forall|old_event: T|
            #[trigger] first.decision(&old_event, &new_event.event) == second.decision(
                &old_event,
                &new_event.event,
            ),
    ensures
        queued(events, capacity, new_event, first) == queued(events, capacity, new_event, second),
{
    lemma_same_decisions_same_rest(events, new_event, first, second, 0);
    lemma_same_decisions_same_rest(events.drop_first(), new_event, first, second, 0);
}

/// The steps begin with the step that comes next. Where that step hands over
/// an event, the steps that follow are those for the events that are left,
/// from the frame of that event on; where it does not, it is the only step.
pub proof fn lemma_steps_begin<T>(events: Seq<Timed<T>>, position: int, buffer_length: int)
    ensures
        steps(events, position, buffer_length).len() >= 1,
        steps(events, position, buffer_length)[0] == next_step_of(
            events,
            position,
            buffer_length,
        ),
        next_step_of(events, position, buffer_length).event is Some ==> steps(
            events,
            position,
            buffer_length,
        ).skip(1) == steps(events.drop_first(), events[0].time_in_frames as int, buffer_length),
        next_step_of(events, position, buffer_length).event is None ==> steps(
            events,
            position,
            buffer_length,
        ).len() == 1,
{
    if events.len() > 0 && events[0].time_in_frames < buffer_length {
        assert(steps(events, position, buffer_length).skip(1) =~= steps(
            events.drop_first(),
            events[0].time_in_frames as int,
            buffer_length,
        ));
    }
}

/// The steps hand over the events that are due before the end of the buffer,
/// each of them once and in the order in which they are queued, and no
/// others. Where the events are in time order, so are those that are handed
/// over, and every event that is not handed over falls on the end of the
/// buffer or later.
pub proof fn lemma_steps_hand_over_due_events<T>(
    events: Seq<Timed<T>>,
    position: int,
    buffer_length: int,
)
    ensures
        handed_over(steps(events, position, buffer_length)) == events.take(
            due_before(events, buffer_length) as int,
        ),
        due_before(events, buffer_length) <= events.len(),
        forall|i: int|
            0 <= i < due_before(events, buffer_length) ==> (#[trigger] events[i]).time_in_frames
                < buffer_length,
        in_time_order(events) ==> in_time_order(
            handed_over(steps(events, position, buffer_length)),
        ),
        in_time_order(events) ==> forall|i: int|
            due_before(events, buffer_length) <= i < events.len() ==> (#[trigger] events[i]).time_in_frames
                >= buffer_length,
    decreases events.len(),
{
    lemma_due_before(events, buffer_length);
    let all = steps(events, position, buffer_length);
    if events.len() > 0 && events[0].time_in_frames < buffer_length {
        let rest = events.drop_first();
        let time = events[0].time_in_frames as int;
        lemma_steps_hand_over_due_events(rest, time, buffer_length);
        lemma_due_before(rest, buffer_length);
        assert(all.drop_first() =~= steps(rest, time, buffer_length));
        assert(seq![events[0]] + rest.take(due_before(rest, buffer_length) as int) =~= events.take(
            due_before(events, buffer_length) as int,
        ));
    } else {
        assert(handed_over(all.drop_first()) =~= Seq::<Timed<T>>::empty());
        assert(handed_over(all) =~= events.take(0));
    }
}

/// The ranges that the steps render cover the frames from `position` up to
/// the end of the buffer: no frame is left out, none is rendered twice, and
/// no range is empty.
pub proof fn lemma_steps_tile_buffer<T>(events: Seq<Timed<T>>, position: int, buffer_length: int)
    requires
        in_time_order(events),
        0 <= position <= buffer_length <= usize::MAX,
        events.len() > 0 ==> position <= events[0].time_in_frames,
    ensures
        tiles(rendered(steps(events, position, buffer_length)), position, buffer_length),
    decreases events.len(),
{
    let all = steps(events, position, buffer_length);
    let ranges = rendered(all);
    if events.len() > 0 && events[0].time_in_frames < buffer_length {
        let rest = events.drop_first();
        let time = events[0].time_in_frames as int;
        lemma_rest_in_time_order(events);
        if rest.len() > 0 {
            assert(rest[0] == events[1]);
        }
        lemma_steps_tile_buffer(rest, time, buffer_length);
        assert(all.drop_first() =~= steps(rest, time, buffer_length));
        if position < time {
            assert(ranges.drop_first() =~= rendered(all.drop_first()));
        }
    } else {
        assert(rendered(all.drop_first()) =~= Seq::<(usize, usize)>::empty());
        if position < buffer_length {
            assert(tiles(ranges.drop_first(), buffer_length, buffer_length));
        }
    }
}

/// A bounded queue of timed events, kept in non-decreasing order of time.
pub struct EventQueue<T> {
    queue: VecDeque<Timed<T>>,
    capacity: usize,
}

impl<T> View for EventQueue<T> {
    type V = Seq<Timed<T>>;

    /// The queued events, the earliest first.
    closed spec fn view(&self) -> Seq<Timed<T>> {
        self.queue@
    }
}

impl<T> EventQueue<T> {
    #[verifier::type_invariant]
    spec fn well_formed(self) -> bool {
        &&& in_time_order(self.queue@)
        &&& 0 < self.capacity
        &&& self.queue@.len() <= self.capacity
    }

    /// The number of events that the queue holds at most.
    pub closed spec fn limit(&self) -> nat {
        self.capacity as nat
    }

    /// A queue for at most `capacity` events, which must be more than none.
    pub fn new(capacity: usize) -> (queue: Self)
        requires
            capacity > 0,
        ensures
            queue@ == Seq::<Timed<T>>::empty(),
            queue.limit() == capacity,
    {
        Self { queue: VecDeque::with_capacity(capacity), capacity }
    }

    /// The number of events that the queue holds at most.
    pub fn capacity(&self) -> (capacity: usize)
        ensures
            capacity == self.limit(),
            capacity > 0,
            self@.len() <= capacity,
            in_time_order(self@),
    {
        proof {
            use_type_invariant(self);
        }
        self.capacity
    }

    /// A full queue that holds `events`, which must be in time order and at
    /// least one: its capacity is their number.
    pub fn from_vec(events: Vec<Timed<T>>) -> (queue: Self)
        requires
            events@.len() > 0,
            in_time_order(events@),
        ensures
            queue@ == events@,
            queue.limit() == events@.len(),
    {
        let ghost given = events@;
        let mut events = events;
        let capacity = events.len();
        let mut queue: VecDeque<Timed<T>> = VecDeque::with_capacity(capacity);
        let mut remaining = capacity;
        while remaining > 0
            invariant
                remaining == events@.len(),
                events@ + queue@ == given,
            decreases remaining,
        {
            let last = events.pop().unwrap();
            queue.push_front(last);
            remaining -= 1;
        }
        Self { queue, capacity }
    }

    /// Makes room for at least `additional` more events: a capacity that is
    /// less than the number of queued events and `additional` together is
    /// raised to that.
    pub fn reserve(&mut self, additional: usize)
        requires
            old(self)@.len() + additional <= usize::MAX,
        ensures
            final(self)@ == old(self)@,
            final(self).limit() == if old(self).limit() >= old(self)@.len() + additional {
                old(self).limit() as int
            } else {
                old(self)@.len() + additional
            },
    {
        let mut queue = self.take_events();
        queue.reserve(additional);
        let wanted = queue.len() + additional;
        if wanted > self.capacity {
            self.capacity = wanted;
        }
        self.put_events(queue);
    }

    /// The number of queued events.
    pub fn len(&self) -> (len: usize)
        ensures
            len == self@.len(),
            len <= self.limit(),
    {
        proof {
            use_type_invariant(self);
        }
        self.queue.len()
    }

    /// Takes the events out of the queue, which is left empty.
    fn take_events(&mut self) -> (events: VecDeque<Timed<T>>)
        ensures
            events@ == old(self)@,
            final(self)@ == Seq::<Timed<T>>::empty(),
            final(self).limit() == old(self).limit(),
            in_time_order(events@),
            events@.len() <= old(self).limit(),
            0 < old(self).limit() <= usize::MAX,
    {
        proof {
            use_type_invariant(&*self);
        }
        let mut events = VecDeque::new();
        std::mem::swap(&mut self.queue, &mut events);
        events
    }

    /// Puts back events that were taken out.
    fn put_events(&mut self, events: VecDeque<Timed<T>>)
        requires
            in_time_order(events@),
            events@.len() <= old(self).limit(),
        ensures
            final(self)@ == events@,
            final(self).limit() == old(self).limit(),
    {
        proof {
            use_type_invariant(&*self);
        }
        let mut events = events;
        std::mem::swap(&mut self.queue, &mut events);
    }

    /// Queue a new event.
    ///
    /// When the queue is full, its earliest event is removed to make room,
    /// provided that the new event comes later; otherwise the new event is
    /// turned away. Where the new event falls on the frame of a queued event,
    /// `collision_decider` decides. What is returned is the event whose place
    /// the new event took; else the event that was removed to make room; else
    /// the new event, where it was turned away.
    #[verifier::loop_isolation(false)]
    pub fn queue_event<H>(&mut self, new_event: Timed<T>, collision_decider: H) -> (displaced:
        Option<Timed<T>>) where H: HandleEventCollision<T>
        ensures
            final(self).limit() == old(self).limit(),
            (final(self)@, displaced) == queued(
                old(self)@,
                old(self).limit() as int,
                new_event,
                collision_decider,
            ),
            in_time_order(final(self)@),
            final(self)@.len() <= final(self).limit(),
    {
        let capacity = self.capacity;
        let mut queue = self.take_events();
        let result;
        if queue.len() >= capacity {
            if new_event.time_in_frames > queue[0].time_in_frames {
                result = queue.pop_front();
            } else {
                self.put_events(queue);
                return Some(new_event);
            }
        } else {
            result = None;
        }
        let ghost events = queue@;
        proof {
            lemma_placed_keeps_order(events, new_event, collision_decider);
            lemma_resting_index(events, new_event, collision_decider, 0);
        }
        let mut insert_index: usize = 0;
        while insert_index < queue.len()
            invariant
                queue@ == events,
                self.limit() == capacity,
                0 <= insert_index <= events.len(),
                resting_index(events, new_event, collision_decider, insert_index as int)
                    == resting_index(events, new_event, collision_decider, 0),
            decreases events.len() - insert_index,
        {
            let read_time = queue[insert_index].time_in_frames;
            if read_time < new_event.time_in_frames {
                insert_index += 1;
            } else if read_time == new_event.time_in_frames {
                match collision_decider.decide_on_collision(
                    &queue[insert_index].event,
                    &new_event.event,
                ) {
                    EventCollisionHandling::IgnoreNew => {
                        self.put_events(queue);
                        return match result {
                            Some(evicted) => Some(evicted),
                            None => Some(new_event),
                        };
                    },
                    EventCollisionHandling::InsertNewBeforeOld => {
                        break ;
                    },
                    EventCollisionHandling::InsertNewAfterOld => {
                        insert_index += 1;
                    },
                    EventCollisionHandling::RemoveOld => {
                        let old_event = queue.remove(insert_index);
                        queue.insert(insert_index, new_event);
                        self.put_events(queue);
                        return old_event;
                    },
                }
            } else {
                break ;
            }
        }
        queue.insert(insert_index, new_event);
        self.put_events(queue);
        result
    }

    /// Takes the next step of rendering a buffer of `buffer_length` frames, of
    /// which those before `last_event_time` have been rendered: the earliest
    /// event leaves the queue if it is due before `buffer_length`.
    ///
    /// `last_event_time` must be neither after the end of the buffer nor
    /// after the earliest event.
    pub fn next_step(&mut self, last_event_time: u32, buffer_length: usize) -> (step: SplitStep<T>)
        requires
            last_event_time <= buffer_length,
            old(self)@.len() > 0 ==> last_event_time <= old(self)@[0].time_in_frames,
        ensures
            step == next_step_of(old(self)@, last_event_time as int, buffer_length as int),
            final(self)@ == if step.event is Some {
                old(self)@.drop_first()
            } else {
                old(self)@
            },
            final(self).limit() == old(self).limit(),
    {
        let mut queue = self.take_events();
        let due = queue.len() > 0 && (queue[0].time_in_frames as usize) < buffer_length;
        if due {
            let event = queue.pop_front().unwrap();
            proof {
                lemma_rest_in_time_order(old(self)@);
            }
            self.put_events(queue);
            let render = if last_event_time < event.time_in_frames {
                Some((last_event_time as usize, event.time_in_frames as usize))
            } else {
                None
            };
            SplitStep { render, event: Some(event) }
        } else {
            self.put_events(queue);
            let render = if (last_event_time as usize) < buffer_length {
                Some((last_event_time as usize, buffer_length))
            } else {
                None
            };
            SplitStep { render, event: None }
        }
    }

    /// Renders the frames from `start` up to `stop`: `renderer` is called
    /// once, with views on these frames of every channel and with `context`.
    /// What it writes through the views is written to these frames of
    /// `outputs`; the other frames stay as they are.
    fn render<'storage, 's, 'chunk, R, C>(
        start: usize,
        stop: usize,
        input_storage: &'storage mut VecStorage<&'static [Sample]>,
        output_storage: &'storage mut VecStorage<&'static mut [Sample]>,
        inputs: &[&[Sample]],
        outputs: &mut [&mut [Sample]],
        renderer: &mut R,
        context: &mut C,
    ) where R: ContextualAudioRenderer<Sample, C>
        requires
            !input_storage_locked(old(input_storage)),
            !output_storage_locked(old(output_storage)),
            start <= stop,
            channels_reach(samples_of(inputs), stop as int),
            channels_reach(samples_of_mut(old(outputs)), stop as int),
        ensures
            !input_storage_locked(final(input_storage)),
            !output_storage_locked(final(output_storage)),
            final(outputs)@.len() == old(outputs)@.len(),
            forall|i: int|
                0 <= i < old(outputs)@.len() ==> final(outputs)@[i]@.len() == old(outputs)@[i]@.len(),
            exists|
                given_renderer: &mut R,
                given_inputs: &[&[Sample]],
                given_outputs: &mut [&mut [Sample]],
                given_context: &mut C,
            |
                {
                    &&& #[trigger] call_ensures(
                        R::render_buffer,
                        (given_renderer, given_inputs, given_outputs, given_context),
                        (),
                    )
                    &&& mut_ref_current(given_renderer) == *old(renderer)
                    &&& mut_ref_future(given_renderer) == *final(renderer)
                    &&& mut_ref_current(given_context) == *old(context)
                    &&& mut_ref_future(given_context) == *final(context)
                    &&& samples_of(given_inputs) == frames_between(
                        samples_of(inputs),
                        start as int,
                        stop as int,
                    )
                    &&& given_outputs@.len() == old(outputs)@.len()
                    &&& forall|i: int|
                        0 <= i < old(outputs)@.len() ==> given_outputs@[i]@ == old(outputs)@[i]@.subrange(start as int, stop as int)
                    &&& forall|i: int|
                        0 <= i < old(outputs)@.len() ==> final(outputs)@[i]@ == old(outputs)@[i]@.subrange(0, start as int) + final(given_outputs@[i])@ + old(outputs)@[i]@.subrange(stop as int, old(outputs)@[i]@.len() as int)
                },
    {
        let input_guard = mid(input_storage, inputs, start, stop);
        let mut output_guard = mid_mut(output_storage, outputs, start, stop);
        renderer.render_buffer(
            input_slices(&input_guard),
            output_slices(&mut output_guard),
            context,
        );
        release_input(input_guard);
        release_output(output_guard);
    }

    /// Renders one buffer in pieces, so that every event that is due in it
    /// reaches `renderer` exactly on its frame.
    ///
    /// The events that are due before the end of the buffer leave the queue
    /// and are handed to `renderer`, the earliest first. Before an event is
    /// handed over, the frames up to its own that have not been rendered yet
    /// are rendered; after the last one, the frames that are left.
    ///
    /// In the contract, `renderers`, `contexts` and `buffers` are what the
    /// renderer, the context and the output samples are as the steps of
    /// [`steps`] are taken one after the other: step `k` begins with
    /// `renderers[2 * k]`, `contexts[k]` and `buffers[k]`, its call of
    /// `render_buffer`, if it has one, leads to `renderers[2 * k + 1]`,
    /// `contexts[k + 1]` and `buffers[k + 1]`, and its call of `handle_event`,
    /// if it has one, leads to `renderers[2 * k + 2]`.
    ///
    /// All channels must have the same number of frames, and there must be
    /// at least one channel.
    pub fn split<'storage, 's, 'chunk, R, C>(
        &mut self,
        input_storage: &'storage mut VecStorage<&'static [Sample]>,
        output_storage: &'storage mut VecStorage<&'static mut [Sample]>,
        inputs: &[&[Sample]],
        outputs: &'s mut [&'s mut [Sample]],
        renderer: &mut R,
        context: &mut C,
    ) where R: ContextualAudioRenderer<Sample, C> + EventHandler<T>, T: std::fmt::Debug
        requires
            !input_storage_locked(old(input_storage)),
            !output_storage_locked(old(output_storage)),
            inputs@.len() > 0 || old(outputs)@.len() > 0,
            forall|i: int, j: int|
                0 <= i < inputs@.len() && 0 <= j < inputs@.len() ==> inputs@[i]@.len()
                    == inputs@[j]@.len(),
            forall|i: int, j: int|
                0 <= i < old(outputs)@.len() && 0 <= j < old(outputs)@.len() ==> old(outputs)@[i]@.len() == old(outputs)@[j]@.len(),
            forall|i: int, j: int|
                0 <= i < inputs@.len() && 0 <= j < old(outputs)@.len() ==> inputs@[i]@.len()
                    == old(outputs)@[j]@.len(),
        ensures
            final(self)@ == old(self)@.skip(
                due_before(old(self)@, buffer_length_of(inputs, old(outputs))) as int,
            ),
            final(self).limit() == old(self).limit(),
            !input_storage_locked(final(input_storage)),
            !output_storage_locked(final(output_storage)),
            final(outputs)@.len() == old(outputs)@.len(),
            forall|i: int|
                0 <= i < old(outputs)@.len() ==> final(outputs)@[i]@.len() == old(outputs)@[i]@.len(),
            ({
                let plan = steps(old(self)@, 0, buffer_length_of(inputs, old(outputs)));
                exists|renderers: Seq<R>, contexts: Seq<C>, buffers: Seq<Seq<Seq<Sample>>>|
                    #![trigger renderers.len(), contexts.len(), buffers.len()]
                    {
                        &&& renderers.len() == 2 * plan.len() + 1
                        &&& contexts.len() == plan.len() + 1
                        &&& buffers.len() == plan.len() + 1
                        &&& renderers[0] == *old(renderer)
                        &&& renderers[2 * plan.len() as int] == *final(renderer)
                        &&& contexts[0] == *old(context)
                        &&& contexts[plan.len() as int] == *final(context)
                        &&& buffers[0] == samples_of_mut(old(outputs))
                        &&& buffers[plan.len() as int] == samples_of_mut(final(outputs))
                        &&& forall|k: int|
                            0 <= k < plan.len() ==> {
                                &&& (#[trigger] plan[k]).render matches Some(range) ==> exists|
                                    given_renderer: &mut R,
                                    given_inputs: &[&[Sample]],
                                    given_outputs: &mut [&mut [Sample]],
                                    given_context: &mut C,
                                |
                                    {
                                        &&& #[trigger] call_ensures(
                                            R::render_buffer,
                                            (given_renderer, given_inputs, given_outputs, given_context),
                                            (),
                                        )
                                        &&& mut_ref_current(given_renderer) == renderers[2 * k]
                                        &&& mut_ref_future(given_renderer) == renderers[2 * k + 1]
                                        &&& mut_ref_current(given_context) == contexts[k]
                                        &&& mut_ref_future(given_context) == contexts[k + 1]
                                        &&& samples_of(given_inputs) == frames_between(
                                            samples_of(inputs),
                                            range.0 as int,
                                            range.1 as int,
                                        )
                                        &&& given_outputs@.len() == buffers[k].len()
                                        &&& buffers[k + 1].len() == buffers[k].len()
                                        &&& forall|i: int|
                                            0 <= i < buffers[k].len() ==> given_outputs@[i]@ == buffers[k][i].subrange(
                                                range.0 as int,
                                                range.1 as int,
                                            )
                                        &&& forall|i: int|
                                            0 <= i < buffers[k].len() ==> buffers[k + 1][i] == buffers[k][i].subrange(
                                                0,
                                                range.0 as int,
                                            ) + final(given_outputs@[i])@ + buffers[k][i].subrange(
                                                range.1 as int,
                                                buffers[k][i].len() as int,
                                            )
                                    }
                                &&& plan[k].render is None ==> renderers[2 * k + 1] == renderers[2 * k] && contexts[k + 1]
                                    == contexts[k] && buffers[k + 1] == buffers[k]
                                &&& plan[k].event matches Some(timed) ==> exists|given_handler: &mut R|
                                    {
                                        &&& #[trigger] call_ensures(R::handle_event, (given_handler, timed.event), ())
                                        &&& mut_ref_current(given_handler) == renderers[2 * k + 1]
                                        &&& mut_ref_future(given_handler) == renderers[2 * k + 2]
                                    }
                                &&& plan[k].event is None ==> renderers[2 * k + 2] == renderers[2 * k + 1]
                            }
                    }
            }),
    {
        let buffer_length = if inputs.len() > 0 {
            inputs[0].len()
        } else {
            outputs[0].len()
        };
        let ghost events = self@;
        let ghost plan = steps(events, 0, buffer_length as int);
        let ghost mut done: int = 0;
        let ghost mut renderers: Seq<R> = seq![*renderer];
        let ghost mut contexts: Seq<C> = seq![*context];
        let ghost mut buffers: Seq<Seq<Seq<Sample>>> = seq![samples_of_mut(outputs)];
        let mut last_event_time: u32 = 0;
        proof {
            use_type_invariant(&*self);
            lemma_due_before(events, buffer_length as int);
            lemma_steps_begin(events, 0, buffer_length as int);
            assert(plan.skip(0) =~= plan);
        }
        loop
            invariant_except_break
                0 <= done < plan.len(),
                plan.skip(done) == steps(self@, last_event_time as int, buffer_length as int),
            invariant
                !input_storage_locked(input_storage),
                !output_storage_locked(output_storage),
                buffer_length == buffer_length_of(inputs, old(outputs)),
                channels_reach(samples_of(inputs), buffer_length as int),
                outputs@.len() == old(outputs)@.len(),
                forall|i: int|
                    0 <= i < old(outputs)@.len() ==> outputs@[i]@.len() == old(outputs)@[i]@.len(),
                forall|i: int| 0 <= i < outputs@.len() ==> outputs@[i]@.len() == buffer_length,
                in_time_order(events),
                events == old(self)@,
                plan == steps(events, 0, buffer_length as int),
                self.limit() == old(self).limit(),
                last_event_time <= buffer_length,
                self@.len() > 0 ==> last_event_time <= self@[0].time_in_frames,
                due_before(events, buffer_length as int) == events.len() - self@.len()
                    + due_before(self@, buffer_length as int),
                self@.len() <= events.len(),
                self@ == events.skip(events.len() - self@.len()),
                0 <= done <= plan.len(),
                renderers.len() == 2 * done + 1,
                contexts.len() == done + 1,
                buffers.len() == done + 1,
                renderers[0] == *old(renderer),
                renderers[2 * done] == *renderer,
                contexts[0] == *old(context),
                contexts[done] == *context,
                buffers[0] == samples_of_mut(old(outputs)),
                buffers[done] == samples_of_mut(outputs),
                forall|k: int|
                    0 <= k < done ==> {
                        &&& (#[trigger] plan[k]).render matches Some(range) ==> exists|
                            given_renderer: &mut R,
                            given_inputs: &[&[Sample]],
                            given_outputs: &mut [&mut [Sample]],
                            given_context: &mut C,
                        |
                            {
                                &&& #[trigger] call_ensures(
                                    R::render_buffer,
                                    (given_renderer, given_inputs, given_outputs, given_context),
                                    (),
                                )
                                &&& mut_ref_current(given_renderer) == renderers[2 * k]
                                &&& mut_ref_future(given_renderer) == renderers[2 * k + 1]
                                &&& mut_ref_current(given_context) == contexts[k]
                                &&& mut_ref_future(given_context) == contexts[k + 1]
                                &&& samples_of(given_inputs) == frames_between(
                                    samples_of(inputs),
                                    range.0 as int,
                                    range.1 as int,
                                )
                                &&& given_outputs@.len() == buffers[k].len()
                                &&& buffers[k + 1].len() == buffers[k].len()
                                &&& forall|i: int|
                                    0 <= i < buffers[k].len() ==> given_outputs@[i]@ == buffers[k][i].subrange(
                                        range.0 as int,
                                        range.1 as int,
                                    )
                                &&& forall|i: int|
                                    0 <= i < buffers[k].len() ==> buffers[k + 1][i] == buffers[k][i].subrange(
                                        0,
                                        range.0 as int,
                                    ) + final(given_outputs@[i])@ + buffers[k][i].subrange(
                                        range.1 as int,
                                        buffers[k][i].len() as int,
                                    )
                            }
                        &&& plan[k].render is None ==> renderers[2 * k + 1] == renderers[2 * k] && contexts[k + 1]
                            == contexts[k] && buffers[k + 1] == buffers[k]
                        &&& plan[k].event matches Some(timed) ==> exists|given_handler: &mut R|
                            {
                                &&& #[trigger] call_ensures(R::handle_event, (given_handler, timed.event), ())
                                &&& mut_ref_current(given_handler) == renderers[2 * k + 1]
                                &&& mut_ref_future(given_handler) == renderers[2 * k + 2]
                            }
                        &&& plan[k].event is None ==> renderers[2 * k + 2] == renderers[2 * k + 1]
                    },
            ensures
                self@ == events.skip(due_before(events, buffer_length as int) as int),
                done == plan.len(),
            decreases self@.len(),
        {
            let ghost queued = self@;
            let step = self.next_step(last_event_time, buffer_length);
            proof {
                lemma_steps_begin(queued, last_event_time as int, buffer_length as int);
                assert(plan[done] == plan.skip(done)[0]);
                assert(plan.skip(done).skip(1) =~= plan.skip(done + 1));
            }
            if let Some((start, stop)) = step.render {
                Self::render(
                    start,
                    stop,
                    input_storage,
                    output_storage,
                    inputs,
                    outputs,
                    renderer,
                    context,
                );
            }
            proof {
                renderers = renderers.push(*renderer);
                contexts = contexts.push(*context);
                buffers = buffers.push(samples_of_mut(outputs));
            }
            match step.event {
                Some(Timed { time_in_frames, event }) => {
                    renderer.handle_event(event);
                    last_event_time = time_in_frames;
                    proof {
                        renderers = renderers.push(*renderer);
                        done = done + 1;
                    }
                },
                None => {
                    proof {
                        renderers = renderers.push(*renderer);
                        done = done + 1;
                    }
                    break ;
                },
            }
        }
    }

    /// Puts `event` in the place of the event that is queued at `index`, on
    /// the same frame, and returns the event that was there.
    pub fn replace_event(&mut self, index: usize, event: T) -> (replaced: T)
        requires
            index < old(self)@.len(),
        ensures
            replaced == old(self)@[index as int].event,
            final(self)@ == old(self)@.update(
                index as int,
                Timed { time_in_frames: old(self)@[index as int].time_in_frames, event },
            ),
            final(self).limit() == old(self).limit(),
    {
        let mut queue = self.take_events();
        let ghost events = queue@;
        let Timed { time_in_frames, event: replaced } = queue.remove(index).unwrap();
        queue.insert(index, Timed { time_in_frames, event });
        assert(in_time_order(queue@));
        self.put_events(queue);
        replaced
    }

    /// Remove all events before, but not on, this threshold.
    ///
    /// # Note about usage in real-time context
    /// If `T` implements drop, the elements that are removed are dropped.
    /// This may cause memory de-allocation, which you want to avoid in
    /// the real-time part of your library.
    pub fn forget_before(&mut self, threshold: u32) where T: Copy
        ensures
            final(self)@ == old(self)@.filter(|e: Timed<T>| e.time_in_frames >= threshold),
            final(self)@ == old(self)@.skip(due_before(old(self)@, threshold as int) as int),
            final(self).limit() == old(self).limit(),
    {
        let mut queue = self.take_events();
        let ghost events = queue@;
        proof {
            lemma_kept_from(events, threshold);
            lemma_due_before(events, threshold as int);
        }
        let ghost mut removed: int = 0;
        while queue.len() > 0 && queue[0].time_in_frames < threshold
            invariant
                0 <= removed <= events.len(),
                queue@ == events.skip(removed),
                forall|i: int| 0 <= i < removed ==> (#[trigger] events[i]).time_in_frames < threshold,
            decreases queue@.len(),
        {
            let _ = queue.pop_front();
            proof {
                removed = removed + 1;
            }
        }
        proof {
            lemma_due_before_is(events, threshold as int, removed);
            assert(in_time_order(queue@));
        }
        self.put_events(queue);
    }

    /// Remove all events from the queue.
    ///
    /// # Note about usage in real-time context
    /// If `T` implements drop, the elements that are removed are dropped.
    /// This may cause memory de-allocation, which you want to avoid in
    /// the real-time part of your library.
    pub fn clear(&mut self)
        ensures
            final(self)@ == Seq::<Timed<T>>::empty(),
            final(self).limit() == old(self).limit(),
    {
        let mut queue = self.take_events();
        queue.clear();
        self.put_events(queue);
    }

    /// Shift time forward by `new_zero_time` frames: what was frame
    /// `new_zero_time` is frame 0 afterwards.
    ///
    /// No queued event may be earlier than `new_zero_time`.
    pub fn shift_time(&mut self, new_zero_time: u32)
        requires
            forall|i: int|
                0 <= i < old(self)@.len() ==> (#[trigger] old(self)@[i]).time_in_frames
                    >= new_zero_time,
        ensures
            final(self)@ == shifted(old(self)@, new_zero_time),
            final(self).limit() == old(self).limit(),
    {
        let mut queue = self.take_events();
        let ghost events = queue@;
        let count = queue.len();
        let mut done: usize = 0;
        while done < count
            invariant
                count == events.len(),
                0 <= done <= count,
                queue@ == events.skip(done as int) + shifted(events, new_zero_time).take(
                    done as int,
                ),
                forall|i: int|
                    0 <= i < events.len() ==> (#[trigger] events[i]).time_in_frames
                        >= new_zero_time,
            decreases count - done,
        {
            let Timed { time_in_frames, event } = queue.pop_front().unwrap();
            queue.push_back(Timed { time_in_frames: time_in_frames - new_zero_time, event });
            done += 1;
        }
        proof {
            lemma_shifted_keeps_order(events, new_zero_time);
        }
        self.put_events(queue);
    }

    /// The last queued event that is before `time`, if there is one.
    pub fn get_last_before(&self, time: u32) -> (found: Option<&Timed<T>>)
        ensures
            found == if due_before(self@, time as int) == 0 {
                None
            } else {
                Some(&self@[due_before(self@, time as int) - 1])
            },
            found matches Some(event) ==> event.time_in_frames < time,
    {
        proof {
            use_type_invariant(self);
            lemma_due_before(self.queue@, time as int);
        }
        let mut index = self.queue.len();
        while index > 0
            invariant
                in_time_order(self.queue@),
                0 <= index <= self.queue@.len(),
                forall|i: int|
                    index <= i < self.queue@.len() ==> (#[trigger] self.queue@[i]).time_in_frames
                        >= time,
            decreases index,
        {
            if self.queue[index - 1].time_in_frames < time {
                proof {
                    lemma_due_before_is(self.queue@, time as int, index as int);
                }
                return Some(&self.queue[index - 1]);
            }
            index -= 1;
        }
        proof {
            lemma_due_before_is(self.queue@, time as int, 0);
        }
        None
    }

    /// The earliest queued event, if there is one.
    pub fn first(&self) -> (first: Option<&Timed<T>>)
        ensures
            first == if self@.len() == 0 {
                None
            } else {
                Some(&self@[0])
            },
    {
        if self.queue.len() > 0 {
            Some(&self.queue[0])
        } else {
            None
        }
    }
}

impl<T> std::ops::Deref for EventQueue<T> {
    type Target = VecDeque<Timed<T>>;

    /// The queued events, for reading.
    fn deref(&self) -> (events: &VecDeque<Timed<T>>)
        ensures
            events@ == self@,
    {
        &self.queue
    }
}

impl<T> vstd::std_specs::core::IndexSpecImpl<usize> for EventQueue<T> {
    open spec fn index_req(&self, index: &usize) -> bool {
        *index < self@.len()
    }
}

impl<T> std::ops::Index<usize> for EventQueue<T> {
    type Output = Timed<T>;

    /// The queued event at `index`, counted from the earliest.
    fn index(&self, index: usize) -> (event: &Timed<T>)
        ensures
            *event == self@[index as int],
    {
        &self.queue[index]
    }
}

} // verus!
