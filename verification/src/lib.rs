//! Sample-accurate event scheduling for audio rendering.
//!
//! Events that carry the frame on which they fall are kept in an
//! [`event::event_queue::EventQueue`]. Its `split` method renders a buffer in
//! pieces, so that each event reaches the renderer exactly on its frame.
use crate::text::{numbered, numbered_name};
use vstd::prelude::*;

pub mod event;
pub mod text;

verus! {

/// One sample of audio.
pub type Sample = i32;

/// Define the maximum number of audio inputs and the maximum number of audio outputs.
///
/// Callers that ask for this trait see to it that `render_buffer` is called
/// with no more inputs than `max_number_of_audio_inputs()` and no more
/// outputs than `max_number_of_audio_outputs()`.
pub trait AudioHandlerMeta {
    /// The maximum number of audio inputs supported.
    /// This method should return the same value every time it is called.
    fn max_number_of_audio_inputs(&self) -> usize;

    /// The maximum number of audio outputs supported.
    /// This method should return the same value every time it is called.
    fn max_number_of_audio_outputs(&self) -> usize;
}

/// Define the maximum number of midi inputs and the maximum number of midi outputs.
pub trait MidiHandlerMeta {
    /// The maximum number of midi inputs supported.
    /// This method should return the same value for subsequent calls.
    fn max_number_of_midi_inputs(&self) -> usize;

    /// The maximum number of midi outputs supported.
    /// This method should return the same value for subsequent calls.
    fn max_number_of_midi_outputs(&self) -> usize;
}

/// Provides common meta-data of the plugin or application to the host.
pub trait CommonPluginMeta {
    /// The name of the plugin or application.
    fn name(&self) -> &str;
}

/// Provides some meta-data of the audio-ports used by the plugin or application to the host.
pub trait CommonAudioPortMeta: AudioHandlerMeta {
    /// Whether the audio inputs are called what this trait calls them:
    /// `audio in`, a space and the index. An implementation that gives them
    /// names of its own says `false` here.
    open spec fn audio_inputs_named_by_index(&self) -> bool {
        true
    }

    /// The name of the audio input with the given index, which callers keep
    /// below `max_number_of_audio_inputs()`. Unless an implementation says
    /// otherwise, it is `audio in` followed by the index.
    fn audio_input_name(&self, index: usize) -> (name: String)
        ensures
            self.audio_inputs_named_by_index() ==> name@ == numbered(
                "audio in"@,
                index as nat,
            ),
    {
        numbered_name("audio in", index)
    }

    /// Whether the audio outputs are called what this trait calls them:
    /// `audio out`, a space and the index. An implementation that gives them
    /// names of its own says `false` here.
    open spec fn audio_outputs_named_by_index(&self) -> bool {
        true
    }

    /// The name of the audio output with the given index, which callers keep
    /// below `max_number_of_audio_outputs()`. Unless an implementation says
    /// otherwise, it is `audio out` followed by the index.
    fn audio_output_name(&self, index: usize) -> (name: String)
        ensures
            self.audio_outputs_named_by_index() ==> name@ == numbered(
                "audio out"@,
                index as nat,
            ),
    {
        numbered_name("audio out", index)
    }
}

/// Provides some meta-data of the midi-ports used by the plugin or application to the host.
pub trait CommonMidiPortMeta: MidiHandlerMeta {
    /// Whether the midi inputs are called what this trait calls them:
    /// `midi in`, a space and the index. An implementation that gives them
    /// names of its own says `false` here.
    open spec fn midi_inputs_named_by_index(&self) -> bool {
        true
    }

    /// The name of the midi input with the given index, which callers keep
    /// below `max_number_of_midi_inputs()`. Unless an implementation says
    /// otherwise, it is `midi in` followed by the index.
    fn midi_input_name(&self, index: usize) -> (name: String)
        ensures
            self.midi_inputs_named_by_index() ==> name@ == numbered(
                "midi in"@,
                index as nat,
            ),
    {
        numbered_name("midi in", index)
    }

    /// Whether the midi outputs are called what this trait calls them:
    /// `midi out`, a space and the index. An implementation that gives them
    /// names of its own says `false` here.
    open spec fn midi_outputs_named_by_index(&self) -> bool {
        true
    }

    /// The name of the midi output with the given index, which callers keep
    /// below `max_number_of_midi_outputs()`. Unless an implementation says
    /// otherwise, it is `midi out` followed by the index.
    fn midi_output_name(&self, index: usize) -> (name: String)
        ensures
            self.midi_outputs_named_by_index() ==> name@ == numbered(
                "midi out"@,
                index as nat,
            ),
    {
        numbered_name("midi out", index)
    }
}

/// Defines how audio is rendered.
///
/// The type parameter `S` refers to the data type of a sample.
pub trait AudioRenderer<S> {
    /// This method is called repeatedly for subsequent audio buffers.
    ///
    /// Callers see to it that all elements of `inputs` and all elements of
    /// `outputs` have the same length. This shared length can however be
    /// different for subsequent calls to `render_buffer`.
    fn render_buffer(&mut self, inputs: &[&[S]], outputs: &mut [&mut [S]]);
}

/// Defines how audio is rendered, similar to the [`AudioRenderer`] trait.
/// The extra parameter `context` can be used by the caller to lend extra
/// information for the duration of the call.
pub trait ContextualAudioRenderer<S, Context> {
    /// This method is called repeatedly for subsequent buffers.
    ///
    /// It is similar to `render_buffer` of the [`AudioRenderer`] trait.
    fn render_buffer(&mut self, inputs: &[&[S]], outputs: &mut [&mut [S]], context: &mut Context);
}

} // verus!
