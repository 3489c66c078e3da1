use rsynth::event::event_queue::{
    AlwaysIgnoreNew, AlwaysInsertNewAfterOld, AlwaysInsertNewBeforeOld, AlwaysRemoveOld,
    EventCollisionHandling, EventQueue, HandleEventCollision,
};
use rsynth::event::Timed;

fn full_queue() -> EventQueue<i32> {
    EventQueue::from_vec(vec![Timed::new(4, 16), Timed::new(6, 36), Timed::new(7, 49)])
}

fn in_time_order(queue: &EventQueue<i32>) -> bool {
    (1..queue.len()).all(|i| queue[i - 1].time_in_frames <= queue[i].time_in_frames)
}

#[test]
fn new_queue_is_empty_and_has_its_capacity() {
    let queue: EventQueue<i32> = EventQueue::new(5);
    assert_eq!(queue.len(), 0);
    assert_eq!(queue.capacity(), 5);
    assert_eq!(queue.first(), None);
    assert_eq!(queue.get_last_before(100), None);
}

#[test]
fn queue_from_events_is_full() {
    let queue = full_queue();
    assert_eq!(queue.len(), 3);
    assert_eq!(queue.capacity(), 3);
}

#[test]
fn reserve_raises_a_capacity_that_is_too_small() {
    let mut queue = full_queue();
    queue.reserve(0);
    assert_eq!(queue.capacity(), 3);
    queue.reserve(2);
    assert_eq!(queue.capacity(), 5);
    queue.reserve(1);
    assert_eq!(queue.capacity(), 5);
    assert_eq!(
        *queue,
        vec![Timed::new(4, 16), Timed::new(6, 36), Timed::new(7, 49)]
    );
}

#[test]
fn full_queue_turns_away_an_event_that_comes_first() {
    let mut queue = full_queue();
    let result = queue.queue_event(Timed::new(3, 9), AlwaysIgnoreNew);
    assert_eq!(result, Some(Timed::new(3, 9)));
    assert_eq!(
        *queue,
        vec![Timed::new(4, 16), Timed::new(6, 36), Timed::new(7, 49)]
    );
}

#[test]
fn full_queue_turns_away_an_event_on_the_frame_of_its_earliest() {
    let mut queue = full_queue();
    let result = queue.queue_event(Timed::new(4, 9), AlwaysInsertNewAfterOld);
    assert_eq!(result, Some(Timed::new(4, 9)));
    assert_eq!(
        *queue,
        vec![Timed::new(4, 16), Timed::new(6, 36), Timed::new(7, 49)]
    );
}

#[test]
fn full_queue_gives_up_its_earliest_event_to_a_later_one() {
    let mut queue = full_queue();
    let result = queue.queue_event(Timed::new(5, 25), AlwaysInsertNewAfterOld);
    assert_eq!(result, Some(Timed::new(4, 16)));
    assert_eq!(
        *queue,
        vec![Timed::new(5, 25), Timed::new(6, 36), Timed::new(7, 49)]
    );
    assert_eq!(queue.capacity(), 3);
}

#[test]
fn full_queue_that_gave_way_hands_back_its_earliest_event() {
    let mut queue = full_queue();
    let result = queue.queue_event(Timed::new(6, 25), AlwaysIgnoreNew);
    assert_eq!(result, Some(Timed::new(4, 16)));
    assert_eq!(*queue, vec![Timed::new(6, 36), Timed::new(7, 49)]);
}

#[test]
fn full_queue_that_gave_way_can_still_replace_an_event() {
    let mut queue = full_queue();
    let result = queue.queue_event(Timed::new(7, 25), AlwaysRemoveOld);
    assert_eq!(result, Some(Timed::new(7, 49)));
    assert_eq!(*queue, vec![Timed::new(6, 36), Timed::new(7, 25)]);
}

#[test]
fn event_later_than_all_goes_to_the_end() {
    let mut queue = full_queue();
    queue.reserve(1);
    assert_eq!(queue.queue_event(Timed::new(9, 81), AlwaysIgnoreNew), None);
    assert_eq!(queue[3], Timed::new(9, 81));
}

#[test]
fn event_earlier_than_all_goes_to_the_front() {
    let mut queue = full_queue();
    queue.reserve(1);
    assert_eq!(queue.queue_event(Timed::new(1, 1), AlwaysRemoveOld), None);
    assert_eq!(queue.first(), Some(&Timed::new(1, 1)));
}

#[test]
fn insert_before_stops_at_the_first_event_on_the_frame() {
    let mut queue = EventQueue::from_vec(vec![
        Timed::new(6, 16),
        Timed::new(6, 36),
        Timed::new(7, 49),
    ]);
    queue.reserve(1);
    assert_eq!(
        queue.queue_event(Timed::new(6, 25), AlwaysInsertNewBeforeOld),
        None
    );
    assert_eq!(
        *queue,
        vec![
            Timed::new(6, 25),
            Timed::new(6, 16),
            Timed::new(6, 36),
            Timed::new(7, 49),
        ]
    );
}

#[test]
fn remove_old_replaces_the_first_event_on_the_frame() {
    let mut queue = EventQueue::from_vec(vec![
        Timed::new(6, 16),
        Timed::new(6, 36),
        Timed::new(7, 49),
    ]);
    queue.reserve(1);
    assert_eq!(
        queue.queue_event(Timed::new(6, 25), AlwaysRemoveOld),
        Some(Timed::new(6, 16))
    );
    assert_eq!(
        *queue,
        vec![Timed::new(6, 25), Timed::new(6, 36), Timed::new(7, 49)]
    );
}

/// Lets a new event pass the queued events that are smaller than itself.
struct AfterSmaller;

impl HandleEventCollision<i32> for AfterSmaller {
    fn decision(&self, old_event: &i32, new_event: &i32) -> EventCollisionHandling {
        self.decide_on_collision(old_event, new_event)
    }

    fn decide_on_collision(&self, old_event: &i32, new_event: &i32) -> EventCollisionHandling {
        if old_event < new_event {
            EventCollisionHandling::InsertNewAfterOld
        } else if old_event == new_event {
            EventCollisionHandling::IgnoreNew
        } else {
            EventCollisionHandling::InsertNewBeforeOld
        }
    }
}

#[test]
fn decider_is_asked_along_the_events_on_the_frame() {
    let mut queue = EventQueue::from_vec(vec![
        Timed::new(2, 10),
        Timed::new(2, 20),
        Timed::new(2, 30),
        Timed::new(3, 0),
    ]);
    queue.reserve(2);
    assert_eq!(queue.queue_event(Timed::new(2, 25), AfterSmaller), None);
    assert_eq!(
        queue.queue_event(Timed::new(2, 30), AfterSmaller),
        Some(Timed::new(2, 30))
    );
    assert_eq!(
        *queue,
        vec![
            Timed::new(2, 10),
            Timed::new(2, 20),
            Timed::new(2, 25),
            Timed::new(2, 30),
            Timed::new(3, 0),
        ]
    );
}

#[test]
fn queue_stays_in_time_order_and_within_its_capacity() {
    let times = [5u32, 1, 9, 5, 3, 3, 8, 0, 9, 2, 7, 5, 5, 1];
    let mut queue: EventQueue<i32> = EventQueue::new(6);
    for (count, time) in times.iter().enumerate() {
        let event = Timed::new(*time, count as i32);
        match count % 4 {
            0 => queue.queue_event(event, AlwaysInsertNewAfterOld),
            1 => queue.queue_event(event, AlwaysInsertNewBeforeOld),
            2 => queue.queue_event(event, AlwaysRemoveOld),
            _ => queue.queue_event(event, AlwaysIgnoreNew),
        };
        assert!(in_time_order(&queue));
        assert!(queue.len() <= queue.capacity());
        assert_eq!(queue.capacity(), 6);
    }
}

#[test]
fn same_queue_and_same_decider_give_the_same_order() {
    let mut first = EventQueue::from_vec(vec![
        Timed::new(2, 10),
        Timed::new(2, 20),
        Timed::new(4, 30),
    ]);
    let mut second = EventQueue::from_vec(vec![
        Timed::new(2, 10),
        Timed::new(2, 20),
        Timed::new(4, 30),
    ]);
    first.reserve(1);
    second.reserve(1);
    let from_first = first.queue_event(Timed::new(2, 15), AfterSmaller);
    let from_second = second.queue_event(Timed::new(2, 15), AfterSmaller);
    assert_eq!(from_first, from_second);
    assert_eq!(*first, *second);
    assert_eq!(first[1], Timed::new(2, 15));
}

#[test]
fn forget_before_keeps_the_events_on_the_threshold() {
    let mut queue = EventQueue::from_vec(vec![
        Timed::new(4, 16),
        Timed::new(7, 36),
        Timed::new(7, 49),
        Timed::new(8, 64),
    ]);
    queue.forget_before(0);
    assert_eq!(queue.len(), 4);
    queue.forget_before(7);
    assert_eq!(
        *queue,
        vec![Timed::new(7, 36), Timed::new(7, 49), Timed::new(8, 64)]
    );
    assert_eq!(queue.capacity(), 4);
}

#[test]
fn shift_time_moves_every_event_back() {
    let mut queue = full_queue();
    queue.shift_time(4);
    assert_eq!(
        *queue,
        vec![Timed::new(0, 16), Timed::new(2, 36), Timed::new(3, 49)]
    );
    queue.shift_time(0);
    assert_eq!(
        *queue,
        vec![Timed::new(0, 16), Timed::new(2, 36), Timed::new(3, 49)]
    );
}

#[test]
fn get_last_before_finds_the_latest_earlier_event() {
    let queue = EventQueue::from_vec(vec![
        Timed::new(4, 16),
        Timed::new(6, 36),
        Timed::new(6, 37),
        Timed::new(7, 49),
    ]);
    assert_eq!(queue.get_last_before(4), None);
    assert_eq!(queue.get_last_before(5), Some(&Timed::new(4, 16)));
    assert_eq!(queue.get_last_before(7), Some(&Timed::new(6, 37)));
    assert_eq!(queue.get_last_before(8), Some(&Timed::new(7, 49)));
}

#[test]
fn clear_removes_everything_and_keeps_the_capacity() {
    let mut queue = full_queue();
    queue.clear();
    assert_eq!(queue.len(), 0);
    assert_eq!(queue.capacity(), 3);
    assert_eq!(queue.queue_event(Timed::new(1, 1), AlwaysIgnoreNew), None);
    assert_eq!(*queue, vec![Timed::new(1, 1)]);
}

#[test]
fn replace_event_keeps_the_frame() {
    let mut queue = full_queue();
    assert_eq!(queue.replace_event(1, 25), 36);
    assert_eq!(
        *queue,
        vec![Timed::new(4, 16), Timed::new(6, 25), Timed::new(7, 49)]
    );
}
