//! Event handling
//!
//! This module defines the `EventHandler` trait and some event types: `RawMidiEvent`,
//! `SysExEvent`, `Timed`, `Indexed` and `DeltaEvent`.
//!
//! If possible, implement the `Copy` trait for custom events, so that an event
//! can be dispatched to different voices in a polyphonic context.
use crate::text::{decimal, push_decimal, push_upper_hex, upper_hex};
use vstd::prelude::*;

pub mod event_queue;
pub mod scratch;

verus! {

/// The trait that plugins should implement in order to handle the given type of events.
///
/// The type parameter `E` corresponds to the type of the event.
pub trait EventHandler<E> {
    fn handle_event(&mut self, event: E);
}

/// Like [`EventHandler`], with an extra `context` that the caller lends for the
/// duration of the call.
pub trait ContextualEventHandler<E, Context> {
    fn handle_event(&mut self, event: E, context: &mut Context);
}

/// A System Exclusive ("SysEx") event: a view over bytes that somebody else owns.
#[derive(Clone, Copy, PartialEq, Eq)]
pub struct SysExEvent<'a> {
    data: &'a [u8],
}

impl<'a> View for SysExEvent<'a> {
    type V = Seq<u8>;

    /// The bytes of the message.
    closed spec fn view(&self) -> Seq<u8> {
        self.data@
    }
}

/// Every byte in the hexadecimal system, each followed by a space.
pub open spec fn hex_each(bytes: Seq<u8>) -> Seq<char>
    decreases bytes.len(),
{
    if bytes.len() == 0 {
        Seq::empty()
    } else {
        hex_each(bytes.drop_last()) + upper_hex(bytes.last()) + seq![' ']
    }
}

/// The bytes in the hexadecimal system, with a space between one and the next.
pub open spec fn hex_spaced(bytes: Seq<u8>) -> Seq<char>
    decreases bytes.len(),
{
    if bytes.len() == 0 {
        Seq::empty()
    } else if bytes.len() == 1 {
        upper_hex(bytes[0])
    } else {
        hex_spaced(bytes.drop_last()) + seq![' '] + upper_hex(bytes.last())
    }
}

/// How a system exclusive event with these bytes reads: the number of bytes,
/// then the bytes in the hexadecimal system.
pub open spec fn sys_ex_text(bytes: Seq<u8>) -> Seq<char> {
    "SysExEvent{data (length: "@ + decimal(bytes.len()) + "): &["@ + hex_each(bytes) + "]}"@
}

/// How a raw midi event with these bytes reads: the bytes in the hexadecimal
/// system.
pub open spec fn raw_midi_text(bytes: Seq<u8>) -> Seq<char> {
    "RawMidiEvent("@ + hex_spaced(bytes) + ")"@
}

impl<'a> SysExEvent<'a> {
    /// Create a new `SysExEvent` with the given `data`.
    pub fn new(data: &'a [u8]) -> (event: Self)
        ensures
            event@ == data@,
    {
        Self { data }
    }

    /// Get the data from the `SysExEvent`.
    pub fn data(&self) -> (data: &'a [u8])
        ensures
            data@ == self@,
    {
        self.data
    }

    /// The event in readable form, for logs and failed assertions.
    pub fn debug_string(&self) -> (text: String)
        ensures
            text@ == sys_ex_text(self@),
    {
        let mut text = String::new();
        text.push_str("SysExEvent{data (length: ");
        push_decimal(&mut text, self.data.len());
        text.push_str("): &[");
        let ghost head = text@;
        let mut index: usize = 0;
        while index < self.data.len()
            invariant
                0 <= index <= self.data@.len(),
                text@ == head + hex_each(self.data@.take(index as int)),
            decreases self.data@.len() - index,
        {
            push_upper_hex(&mut text, self.data[index]);
            text.push(' ');
            proof {
                let longer = self.data@.take(index + 1);
                assert(longer.drop_last() =~= self.data@.take(index as int));
            }
            index += 1;
        }
        assert(self.data@.take(index as int) =~= self.data@);
        text.push_str("]}");
        text
    }
}

/// A raw midi event: one, two or three bytes, held without heap storage.
#[derive(Clone, Copy, PartialEq, Eq)]
pub struct RawMidiEvent {
    data: [u8; 3],
    length: usize,
}

/// `bytes` followed by as many zeroes as it takes to fill three places.
pub open spec fn zero_padded(bytes: Seq<u8>) -> Seq<u8>
    recommends
        bytes.len() <= 3,
{
    Seq::new(3, |i: int| if i < bytes.len() { bytes[i] } else { 0u8 })
}

impl View for RawMidiEvent {
    type V = Seq<u8>;

    /// The bytes of the message, without the padding.
    closed spec fn view(&self) -> Seq<u8> {
        self.data@.take(self.length as int)
    }
}

impl RawMidiEvent {
    #[verifier::type_invariant]
    spec fn well_formed(self) -> bool {
        &&& 1 <= self.length <= 3
        &&& self.data@ == zero_padded(self.data@.take(self.length as int))
    }

    /// The three stored bytes: the message, then zeroes.
    pub closed spec fn padded(&self) -> Seq<u8> {
        self.data@
    }

    /// Create a new `RawMidiEvent` with the given raw data, which
    /// must be one, two or three bytes long.
    #[inline]
    pub fn new(data: &[u8]) -> (event: Self)
        requires
            1 <= data@.len() <= 3,
        ensures
            event@ == data@,
            event.padded() == zero_padded(data@),
    {
        Self::try_new(data).unwrap()
    }

    /// Try to create a new `RawMidiEvent` with the given raw data.
    /// Return `None` when `data` does not have length 1, 2 or 3.
    pub fn try_new(data: &[u8]) -> (result: Option<Self>)
        ensures
            result is Some <==> 1 <= data@.len() <= 3,
            result matches Some(event) ==> event@ == data@ && event.padded() == zero_padded(
                data@,
            ),
    {
        let length = data.len();
        if length == 1 {
            let bytes = [data[0], 0, 0];
            assert(bytes@.take(1) =~= data@);
            assert(bytes@ =~= zero_padded(data@));
            Some(Self { data: bytes, length })
        } else if length == 2 {
            let bytes = [data[0], data[1], 0];
            assert(bytes@.take(2) =~= data@);
            assert(bytes@ =~= zero_padded(data@));
            Some(Self { data: bytes, length })
        } else if length == 3 {
            let bytes = [data[0], data[1], data[2]];
            assert(bytes@.take(3) =~= data@);
            assert(bytes@ =~= zero_padded(data@));
            Some(Self { data: bytes, length })
        } else {
            None
        }
    }

    /// The event in readable form, for logs and failed assertions.
    pub fn debug_string(&self) -> (text: String)
        ensures
            text@ == raw_midi_text(self@),
    {
        proof {
            use_type_invariant(self);
        }
        let mut text = String::new();
        text.push_str("RawMidiEvent(");
        let ghost head = text@;
        push_upper_hex(&mut text, self.data[0]);
        let mut index: usize = 1;
        while index < self.length
            invariant
                1 <= index <= self.length <= 3,
                text@ == head + hex_spaced(self.data@.take(index as int)),
            decreases self.length - index,
        {
            text.push(' ');
            push_upper_hex(&mut text, self.data[index]);
            proof {
                let longer = self.data@.take(index + 1);
                assert(longer.drop_last() =~= self.data@.take(index as int));
            }
            index += 1;
        }
        text.push_str(")");
        text
    }

    /// Get the raw data from a `RawMidiEvent`: always three bytes, of which
    /// those after the message are zero.
    pub fn data(&self) -> (data: &[u8; 3])
        ensures
            data@ == self.padded(),
            data@ == zero_padded(self@),
            1 <= self@.len() <= 3,
    {
        proof {
            use_type_invariant(self);
        }
        &self.data
    }
}

impl AsRef<Self> for RawMidiEvent {
    fn as_ref(&self) -> (event: &RawMidiEvent)
        ensures
            *event == *self,
    {
        self
    }
}

impl AsMut<Self> for RawMidiEvent {
    fn as_mut(&mut self) -> (event: &mut RawMidiEvent)
        ensures
            *event == *old(self),
            *final(self) == *final(event),
    {
        self
    }
}

/// `Timed<E>` adds timing to an event.
#[derive(PartialEq, Eq, Debug)]
pub struct Timed<E> {
    /// The offset (in frames) of the event relative to the start of
    /// the audio buffer.
    ///
    /// E.g. when `time_in_frames` is 6, this means that
    /// the event happens on the sixth frame of the buffer that is being rendered.
    pub time_in_frames: u32,
    /// The underlying event.
    pub event: E,
}

impl<E> Timed<E> {
    pub fn new(time_in_frames: u32, event: E) -> (timed: Self)
        ensures
            timed == (Timed { time_in_frames, event }),
    {
        Self { time_in_frames, event }
    }
}

impl<E> Clone for Timed<E> where E: Clone {
    fn clone(&self) -> (copy: Self)
        ensures
            copy.time_in_frames == self.time_in_frames,
            cloned::<E>(self.event, copy.event),
    {
        Timed { time_in_frames: self.time_in_frames, event: self.event.clone() }
    }
}

impl<E> Copy for Timed<E> where E: Copy {

}

impl<E> AsRef<E> for Timed<E> {
    fn as_ref(&self) -> (event: &E)
        ensures
            *event == self.event,
    {
        &self.event
    }
}

impl<E> AsMut<E> for Timed<E> {
    fn as_mut(&mut self) -> (event: &mut E)
        ensures
            *event == old(self).event,
            final(self).event == *final(event),
            final(self).time_in_frames == old(self).time_in_frames,
    {
        &mut self.event
    }
}

/// `Indexed<E>` adds an index to an event.
#[derive(PartialEq, Eq, Debug)]
pub struct Indexed<E> {
    /// The index of the event
    pub index: usize,
    /// The underlying event.
    pub event: E,
}

impl<E> Indexed<E> {
    pub fn new(index: usize, event: E) -> (indexed: Self)
        ensures
            indexed == (Indexed { index, event }),
    {
        Self { index, event }
    }
}

impl<E> Clone for Indexed<E> where E: Clone {
    fn clone(&self) -> (copy: Self)
        ensures
            copy.index == self.index,
            cloned::<E>(self.event, copy.event),
    {
        Self { index: self.index, event: self.event.clone() }
    }
}

impl<E> Copy for Indexed<E> where E: Copy {

}

impl<E> AsRef<E> for Indexed<E> {
    fn as_ref(&self) -> (event: &E)
        ensures
            *event == self.event,
    {
        &self.event
    }
}

impl<E> AsMut<E> for Indexed<E> {
    fn as_mut(&mut self) -> (event: &mut E)
        ensures
            *event == old(self).event,
            final(self).event == *final(event),
            final(self).index == old(self).index,
    {
        &mut self.event
    }
}

/// An event together with the time that has passed since the event before it.
#[derive(Copy, Debug, PartialEq, Eq)]
pub struct DeltaEvent<E> {
    pub microseconds_since_previous_event: u64,
    pub event: E,
}

impl<E> Clone for DeltaEvent<E> where E: Clone {
    fn clone(&self) -> (copy: Self)
        ensures
            copy.microseconds_since_previous_event == self.microseconds_since_previous_event,
            cloned::<E>(self.event, copy.event),
    {
        DeltaEvent {
            microseconds_since_previous_event: self.microseconds_since_previous_event,
            event: self.event.clone(),
        }
    }
}

} // verus!
