use rsynth::event::event_queue::{mid, mid_mut, EventQueue, SplitStep};
use rsynth::event::scratch::{input_storage, output_storage, release_input, release_output};
use rsynth::event::{EventHandler, Timed};
use rsynth::ContextualAudioRenderer;

/// What a renderer was asked to do.
#[derive(Debug, PartialEq)]
enum Call {
    Render(Vec<Vec<i32>>, usize),
    Handle(char),
}

/// Writes down every call, and writes the number of its render calls so far
/// into every output frame that it is given.
struct Recorder {
    calls: Vec<Call>,
    renders: i32,
}

impl ContextualAudioRenderer<i32, i32> for Recorder {
    fn render_buffer(&mut self, inputs: &[&[i32]], outputs: &mut [&mut [i32]], context: &mut i32) {
        self.renders += 1;
        *context += 1;
        let frames = if outputs.is_empty() { 0 } else { outputs[0].len() };
        for channel in outputs.iter_mut() {
            assert_eq!(channel.len(), frames);
            for sample in channel.iter_mut() {
                *sample = self.renders;
            }
        }
        let given = inputs.iter().map(|channel| channel.to_vec()).collect();
        self.calls.push(Call::Render(given, frames));
    }
}

impl EventHandler<char> for Recorder {
    fn handle_event(&mut self, event: char) {
        self.calls.push(Call::Handle(event));
    }
}

fn run(events: Vec<Timed<char>>, input: Vec<Vec<i32>>, output: &mut Vec<Vec<i32>>) -> (Vec<Call>, Vec<Timed<char>>, i32) {
    let mut queue = if events.is_empty() {
        EventQueue::new(1)
    } else {
        EventQueue::from_vec(events)
    };
    let mut input_storage = input_storage(input.len());
    let mut output_storage = output_storage(output.len());
    let mut recorder = Recorder {
        calls: Vec::new(),
        renders: 0,
    };
    let mut context = 0;
    {
        let inputs: Vec<&[i32]> = input.iter().map(|channel| channel.as_slice()).collect();
        let mut outputs: Vec<&mut [i32]> = output
            .iter_mut()
            .map(|channel| channel.as_mut_slice())
            .collect();
        queue.split(
            &mut input_storage,
            &mut output_storage,
            &inputs,
            &mut outputs,
            &mut recorder,
            &mut context,
        );
    }
    let left = queue.iter().map(|event| event.clone()).collect();
    (recorder.calls, left, context)
}

#[test]
fn split_hands_over_events_between_the_pieces_that_it_renders() {
    let events = vec![
        Timed::new(0, 'a'),
        Timed::new(0, 'b'),
        Timed::new(2, 'c'),
        Timed::new(2, 'd'),
        Timed::new(4, 'e'),
    ];
    let mut output = vec![vec![0; 4]];
    let (calls, left, context) = run(events, vec![vec![11, 12, 13, 14]], &mut output);
    assert_eq!(
        calls,
        vec![
            Call::Handle('a'),
            Call::Handle('b'),
            Call::Render(vec![vec![11, 12]], 2),
            Call::Handle('c'),
            Call::Handle('d'),
            Call::Render(vec![vec![13, 14]], 2),
        ]
    );
    assert_eq!(left, vec![Timed::new(4, 'e')]);
    assert_eq!(output, vec![vec![1, 1, 2, 2]]);
    assert_eq!(context, 2);
}

#[test]
fn split_renders_every_frame_once() {
    let events = vec![
        Timed::new(1, 'a'),
        Timed::new(3, 'b'),
        Timed::new(4, 'c'),
        Timed::new(9, 'd'),
    ];
    let mut output = vec![vec![0; 6], vec![0; 6]];
    let input = vec![vec![1, 2, 3, 4, 5, 6]];
    let (calls, left, _) = run(events, input, &mut output);
    assert_eq!(
        calls,
        vec![
            Call::Render(vec![vec![1]], 1),
            Call::Handle('a'),
            Call::Render(vec![vec![2, 3]], 2),
            Call::Handle('b'),
            Call::Render(vec![vec![4]], 1),
            Call::Handle('c'),
            Call::Render(vec![vec![5, 6]], 2),
        ]
    );
    assert_eq!(left, vec![Timed::new(9, 'd')]);
    assert_eq!(output, vec![vec![1, 2, 2, 3, 4, 4], vec![1, 2, 2, 3, 4, 4]]);
}

#[test]
fn split_leaves_an_event_on_the_end_of_the_buffer() {
    let events = vec![Timed::new(3, 'a'), Timed::new(4, 'b')];
    let mut output = vec![vec![0; 3]];
    let (calls, left, _) = run(events, vec![vec![7, 8, 9]], &mut output);
    assert_eq!(calls, vec![Call::Render(vec![vec![7, 8, 9]], 3)]);
    assert_eq!(left, vec![Timed::new(3, 'a'), Timed::new(4, 'b')]);
    assert_eq!(output, vec![vec![1, 1, 1]]);
}

#[test]
fn split_of_an_empty_queue_renders_the_buffer_in_one_piece() {
    let mut output = vec![vec![0; 4], vec![0; 4]];
    let (calls, left, context) = run(vec![], vec![], &mut output);
    assert_eq!(calls, vec![Call::Render(vec![], 4)]);
    assert_eq!(left, vec![]);
    assert_eq!(output, vec![vec![1; 4], vec![1; 4]]);
    assert_eq!(context, 1);
}

#[test]
fn split_takes_its_length_from_the_input_where_there_is_one() {
    let events = vec![Timed::new(1, 'a')];
    let mut output = vec![];
    let (calls, left, _) = run(events, vec![vec![5, 6]], &mut output);
    assert_eq!(
        calls,
        vec![
            Call::Render(vec![vec![5]], 0),
            Call::Handle('a'),
            Call::Render(vec![vec![6]], 0),
        ]
    );
    assert_eq!(left, vec![]);
}

#[test]
fn split_of_a_buffer_without_frames_renders_nothing() {
    let events = vec![Timed::new(0, 'a')];
    let mut output = vec![vec![]];
    let (calls, left, _) = run(events, vec![vec![]], &mut output);
    assert_eq!(calls, vec![]);
    assert_eq!(left, vec![Timed::new(0, 'a')]);
}

#[test]
fn next_step_says_what_to_render_and_what_to_hand_over() {
    let mut queue = EventQueue::from_vec(vec![
        Timed::new(0, 'a'),
        Timed::new(2, 'b'),
        Timed::new(4, 'c'),
    ]);
    let step: SplitStep<char> = queue.next_step(0, 4);
    assert_eq!(step.render, None);
    assert_eq!(step.event, Some(Timed::new(0, 'a')));
    let step = queue.next_step(0, 4);
    assert_eq!(step.render, Some((0, 2)));
    assert_eq!(step.event, Some(Timed::new(2, 'b')));
    let step = queue.next_step(2, 4);
    assert_eq!(step.render, Some((2, 4)));
    assert_eq!(step.event, None);
    assert_eq!(*queue, vec![Timed::new(4, 'c')]);
    let step = queue.next_step(4, 4);
    assert_eq!(step.render, None);
    assert_eq!(step.event, None);
}

#[test]
fn mid_shows_the_frames_that_were_asked_for() {
    let mut storage = input_storage(2);
    let channel1 = [11, 12, 13, 14];
    let channel2 = [21, 22, 23, 24];
    let chunk: &[&[i32]] = &[&channel1, &channel2];
    {
        let guard = mid(&mut storage, chunk, 1, 4);
        assert_eq!(guard.len(), 2);
        assert_eq!(guard[0], &[12, 13, 14]);
        assert_eq!(guard[1], &[22, 23, 24]);
    }
    {
        let none: &[&[i32]] = &[];
        let guard = mid(&mut storage, none, 0, 0);
        assert_eq!(guard.len(), 0);
    }
    {
        let guard = mid(&mut storage, chunk, 4, 4);
        assert_eq!(guard.len(), 2);
        assert!(guard[0].is_empty());
    }
}

#[test]
fn mid_mut_writes_to_the_frames_that_were_asked_for() {
    let mut storage = output_storage(2);
    let mut channel1 = [11, 12, 13, 14];
    let mut channel2 = [21, 22, 23, 24];
    {
        let chunk: &mut [&mut [i32]] = &mut [&mut channel1, &mut channel2];
        {
            let mut guard = mid_mut(&mut storage, chunk, 1, 3);
            assert_eq!(guard.len(), 2);
            assert_eq!(guard[0], &mut [12, 13]);
            guard[0][0] = -1;
            guard[1][1] = -2;
        }
        {
            let mut guard = mid_mut(&mut storage, chunk, 3, 4);
            assert_eq!(guard[1], &mut [24]);
            guard[0][0] = -3;
        }
    }
    assert_eq!(channel1, [11, -1, 13, -3]);
    assert_eq!(channel2, [21, 22, -2, 24]);
}

#[test]
fn storage_of_a_released_guard_can_be_used_again() {
    let mut inputs = input_storage(1);
    let mut outputs = output_storage(1);
    let channel = [1, 2, 3];
    let mut written = [0, 0, 0];
    let chunk: &[&[i32]] = &[&channel];
    for start in 0..3 {
        let guard = mid(&mut inputs, chunk, start, 3);
        assert_eq!(guard[0], &channel[start..]);
        release_input(guard);
    }
    {
        let chunk: &mut [&mut [i32]] = &mut [&mut written];
        for start in 0..3 {
            let mut guard = mid_mut(&mut outputs, chunk, start, start + 1);
            guard[0][0] = 7 + start as i32;
            release_output(guard);
        }
    }
    assert_eq!(written, [7, 8, 9]);
}
