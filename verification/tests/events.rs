use rsynth::event::{DeltaEvent, Indexed, RawMidiEvent, SysExEvent, Timed};
use rsynth::text::{numbered_name, push_decimal, push_upper_hex};
use rsynth::{AudioHandlerMeta, CommonAudioPortMeta, CommonMidiPortMeta, MidiHandlerMeta};

#[test]
fn raw_midi_event_takes_one_to_three_bytes() {
    assert!(RawMidiEvent::try_new(&[]).is_none());
    assert!(RawMidiEvent::try_new(&[0x90]).is_some());
    assert!(RawMidiEvent::try_new(&[0x90, 0x40]).is_some());
    assert!(RawMidiEvent::try_new(&[0x90, 0x40, 0x7f]).is_some());
    assert!(RawMidiEvent::try_new(&[0x90, 0x40, 0x7f, 0x01]).is_none());
}

#[test]
fn raw_midi_event_pads_with_zeroes() {
    assert_eq!(RawMidiEvent::new(&[0xc0]).data(), &[0xc0, 0, 0]);
    assert_eq!(RawMidiEvent::new(&[0xc0, 0x05]).data(), &[0xc0, 0x05, 0]);
    assert_eq!(
        RawMidiEvent::new(&[0x90, 0x40, 0x7f]).data(),
        &[0x90, 0x40, 0x7f]
    );
}

#[test]
fn raw_midi_events_of_different_length_differ() {
    let short = RawMidiEvent::new(&[0x90]);
    let long = RawMidiEvent::new(&[0x90, 0]);
    assert!(short != long);
    assert!(short == RawMidiEvent::try_new(&[0x90]).unwrap());
}

#[test]
fn raw_midi_event_reads_in_capital_hex() {
    assert_eq!(
        RawMidiEvent::new(&[0x90, 0x40, 0x7f]).debug_string(),
        "RawMidiEvent(90 40 7F)"
    );
    assert_eq!(
        RawMidiEvent::new(&[0xc0, 0x05]).debug_string(),
        "RawMidiEvent(C0 5)"
    );
    assert_eq!(RawMidiEvent::new(&[0]).debug_string(), "RawMidiEvent(0)");
}

#[test]
fn raw_midi_event_reads_as_the_formatter_writes_it() {
    let bytes = [0xfe_u8, 0x0a, 0x10];
    let expected = format!("RawMidiEvent({:X} {:X} {:X})", bytes[0], bytes[1], bytes[2]);
    assert_eq!(RawMidiEvent::new(&bytes).debug_string(), expected);
}

#[test]
fn raw_midi_event_is_its_own_reference() {
    let mut event = RawMidiEvent::new(&[0x80, 0x40]);
    let copy = event;
    assert!(*event.as_ref() == copy);
    assert!(*event.as_mut() == copy);
}

#[test]
fn sys_ex_event_hands_back_its_data() {
    let data = [0xf0_u8, 0x7e, 0x00, 0xf7];
    let event = SysExEvent::new(&data);
    assert_eq!(event.data(), &data);
    assert!(event == SysExEvent::new(&[0xf0, 0x7e, 0x00, 0xf7]));
}

#[test]
fn sys_ex_event_reads_with_its_length() {
    let data = [0xf0_u8, 0x07, 0xf7];
    assert_eq!(
        SysExEvent::new(&data).debug_string(),
        "SysExEvent{data (length: 3): &[F0 7 F7 ]}"
    );
    assert_eq!(
        SysExEvent::new(&[]).debug_string(),
        "SysExEvent{data (length: 0): &[]}"
    );
    let long = [0x11_u8; 12];
    assert_eq!(
        SysExEvent::new(&long).debug_string(),
        "SysExEvent{data (length: 12): &[11 11 11 11 11 11 11 11 11 11 11 11 ]}"
    );
}

#[test]
fn timed_and_indexed_keep_what_they_are_given() {
    let mut timed = Timed::new(6, 36);
    assert_eq!(timed.time_in_frames, 6);
    assert_eq!(timed.event, 36);
    assert_eq!(timed.clone(), timed);
    assert_eq!(*timed.as_ref(), 36);
    *timed.as_mut() = 37;
    assert_eq!(timed, Timed::new(6, 37));

    let mut indexed = Indexed::new(2, String::from("note"));
    assert_eq!(indexed.index, 2);
    assert_eq!(indexed.clone(), indexed);
    assert_eq!(indexed.as_ref(), "note");
    indexed.as_mut().push('s');
    assert_eq!(indexed, Indexed::new(2, String::from("notes")));
}

#[test]
fn delta_event_is_plain_data() {
    let event = DeltaEvent {
        microseconds_since_previous_event: 500,
        event: 7u8,
    };
    let copy = event;
    assert_eq!(event, copy);
    assert_eq!(copy.microseconds_since_previous_event, 500);
}

#[test]
fn numbers_are_written_without_leading_zeroes() {
    let mut text = String::from("n=");
    push_decimal(&mut text, 0);
    text.push(',');
    push_decimal(&mut text, 9);
    text.push(',');
    push_decimal(&mut text, 10);
    text.push(',');
    push_decimal(&mut text, 4096);
    assert_eq!(text, "n=0,9,10,4096");

    let mut hex = String::new();
    push_upper_hex(&mut hex, 0);
    hex.push(',');
    push_upper_hex(&mut hex, 0x0f);
    hex.push(',');
    push_upper_hex(&mut hex, 0x10);
    hex.push(',');
    push_upper_hex(&mut hex, 0xff);
    assert_eq!(hex, "0,F,10,FF");
}

#[test]
fn largest_number_is_written_in_full() {
    let mut text = String::new();
    push_decimal(&mut text, usize::MAX);
    assert_eq!(text, format!("{}", usize::MAX));
}

struct TwoInOneOut;

impl AudioHandlerMeta for TwoInOneOut {
    fn max_number_of_audio_inputs(&self) -> usize {
        2
    }

    fn max_number_of_audio_outputs(&self) -> usize {
        1
    }
}

impl MidiHandlerMeta for TwoInOneOut {
    fn max_number_of_midi_inputs(&self) -> usize {
        1
    }

    fn max_number_of_midi_outputs(&self) -> usize {
        0
    }
}

impl CommonAudioPortMeta for TwoInOneOut {
    fn audio_outputs_named_by_index(&self) -> bool {
        false
    }

    fn audio_output_name(&self, _index: usize) -> String {
        String::from("main out")
    }
}

impl CommonMidiPortMeta for TwoInOneOut {}

#[test]
fn ports_are_named_by_their_index_unless_told_otherwise() {
    let meta = TwoInOneOut;
    assert_eq!(meta.audio_input_name(0), "audio in 0");
    assert_eq!(meta.audio_input_name(1), "audio in 1");
    assert_eq!(meta.audio_output_name(0), "main out");
    assert_eq!(meta.midi_input_name(0), "midi in 0");
    assert_eq!(meta.midi_output_name(13), "midi out 13");
    assert_eq!(numbered_name("audio out", 205), "audio out 205");
}
