//! The decisions of the thread that reads sounds from WAV files and feeds their sample buffers
//! to the audio thread.
//!
//! The parent reader thread tracks every playing WAV sound. A sound is either being processed by
//! one of the child threads (which open, seek and fill buffers) or waiting at the parent for its
//! next buffer request. `Reader::handle` takes one message and decides what happens to the
//! sound and which work must be handed out; the caller performs that work (sending to children,
//! queueing messages).

use crate::fx::{fx_get, fx_insert, fx_len, fx_new, fx_remove};
use fxhash::FxHashMap;
use vstd::prelude::*;

verus! {

broadcast use vstd::std_specs::hash::group_hash_axioms;

/// The number of sample buffers that the reader prepares ahead of time for a single sound.
pub const NUM_BUFFERS: usize = 4;

/// The state of a sound as tracked by the parent reader thread.
pub enum SoundState<S> {
    /// The sound is currently being processed by a child thread.
    Processing,
    /// The sound is stored at the parent, waiting for its next buffer request.
    Waiting(S),
}

/// Messages received by the parent reader thread.
///
/// `P` is a play request, `S` the state of a sound returned by a child, `B` a sample buffer.
pub enum Message<P, S, B> {
    /// Start reading the WAV of a new sound.
    Play(u64, P),
    /// A child thread has finished processing a `Play` request.
    PlayComplete(u64, S),
    /// A buffer has been consumed and may be refilled with the sound's next samples.
    NextBuffer(u64, B),
    /// A child thread has finished filling a buffer.
    NextBufferComplete(u64, S),
    /// The sound has ended.
    End(u64),
    /// The application is closing.
    Exit,
}

/// The work that follows from a message.
pub enum Action<P, S, B> {
    /// Hand the play request to a child thread.
    StartPlay(u64, P),
    /// Queue this many empty `NextBuffer` requests for the sound.
    QueueBuffers(u64, usize),
    /// Queue the `NextBuffer` request again, as the sound is being processed.
    Requeue(u64, B),
    /// Hand the sound and the buffer to a child thread to be filled.
    FillBuffer(u64, S, B),
    /// Nothing is to be done; whatever the message carried is dropped.
    Idle,
    /// Stop handling messages.
    Exit,
}

/// The state of the parent reader thread: every active WAV sound by its id.
pub struct Reader<S> {
    sounds: FxHashMap<u64, SoundState<S>>,
}

/// The state of the reader and the action that follow from a message.
pub open spec fn spec_handle<P, S, B>(
    sounds: Map<u64, SoundState<S>>,
    msg: Message<P, S, B>,
) -> (Map<u64, SoundState<S>>, Action<P, S, B>) {
    match msg {
        Message::Play(id, play) => (sounds.insert(id, SoundState::Processing), Action::StartPlay(id, play)),
        Message::PlayComplete(id, sound) => if sounds.contains_key(id) {
            (sounds.insert(id, SoundState::Waiting(sound)), Action::QueueBuffers(id, NUM_BUFFERS))
        } else {
            (sounds, Action::Idle)
        },
        Message::NextBuffer(id, buffer) => if !sounds.contains_key(id) {
            (sounds, Action::Idle)
        } else {
            match sounds[id] {
                SoundState::Processing => (sounds, Action::Requeue(id, buffer)),
                SoundState::Waiting(sound) => (
                    sounds.insert(id, SoundState::Processing),
                    Action::FillBuffer(id, sound, buffer),
                ),
            }
        },
        Message::NextBufferComplete(id, sound) => if sounds.contains_key(id) {
            (sounds.insert(id, SoundState::Waiting(sound)), Action::Idle)
        } else {
            (sounds, Action::Idle)
        },
        Message::End(id) => (sounds.remove(id), Action::Idle),
        Message::Exit => (sounds, Action::Exit),
    }
}

/// The sound that a message concerns, if any.
pub open spec fn message_sound<P, S, B>(msg: Message<P, S, B>) -> Option<u64> {
    match msg {
        Message::Play(id, _) => Some(id),
        Message::PlayComplete(id, _) => Some(id),
        Message::NextBuffer(id, _) => Some(id),
        Message::NextBufferComplete(id, _) => Some(id),
        Message::End(id) => Some(id),
        Message::Exit => None,
    }
}

/// Once a sound is no longer tracked (it ended or was never played), every message about it
/// other than a new `Play` is discarded and leaves the reader unchanged.
pub proof fn lemma_untracked_sound_ignored<P, S, B>(sounds: Map<u64, SoundState<S>>, msg: Message<P, S, B>)
    requires
        message_sound(msg) matches Some(id) && !sounds.contains_key(id),
        !(msg is Play),
    ensures
        spec_handle(sounds, msg).0 =~= sounds,
        spec_handle(sounds, msg).1 is Idle,
{
}

/// A sound is handed to a child thread only when it was waiting at the parent, and it is then
/// marked as processing, so that no two children ever hold the same sound.
pub proof fn lemma_fill_takes_waiting_sound<P, S, B>(sounds: Map<u64, SoundState<S>>, msg: Message<P, S, B>)
    requires
        spec_handle(sounds, msg).1 is FillBuffer,
    ensures
        ({
            let (next, action) = spec_handle(sounds, msg);
            action matches Action::FillBuffer(id, sound, _)
                && sounds.contains_key(id)
                && sounds[id] == SoundState::<S>::Waiting(sound)
                && next.contains_key(id)
                && next[id] is Processing
        }),
{
}

/// A buffer request for a tracked sound is never lost: it is either queued again or handed to a
/// child together with the sound.
pub proof fn lemma_buffer_request_kept<P, S, B>(sounds: Map<u64, SoundState<S>>, id: u64, buffer: B)
    requires
        sounds.contains_key(id),
    ensures
        ({
            let action = spec_handle(sounds, Message::<P, S, B>::NextBuffer(id, buffer)).1;
            ||| action == Action::<P, S, B>::Requeue(id, buffer)
            ||| (action matches Action::FillBuffer(i, _, b) && i == id && b == buffer)
        }),
{
}

/// Handling a message about one sound never changes the state of any other sound.
pub proof fn lemma_other_sounds_unchanged<P, S, B>(
    sounds: Map<u64, SoundState<S>>,
    msg: Message<P, S, B>,
    other: u64,
)
    requires
        message_sound(msg) != Some(other),
    ensures
        spec_handle(sounds, msg).0.contains_key(other) == sounds.contains_key(other),
        sounds.contains_key(other) ==> spec_handle(sounds, msg).0[other] == sounds[other],
{
}

/// After a `Play` the sound is tracked as processing; after its `End` it is not tracked at all.
pub proof fn lemma_play_then_end<P, S, B>(sounds: Map<u64, SoundState<S>>, id: u64, play: P)
    ensures
        spec_handle(sounds, Message::<P, S, B>::Play(id, play)).0[id] is Processing,
        !spec_handle(
            spec_handle(sounds, Message::<P, S, B>::Play(id, play)).0,
            Message::<P, S, B>::End(id),
        ).0.contains_key(id),
{
}

impl<S> Reader<S> {
    /// The map of sounds is finite.
    #[verifier::type_invariant]
    spec fn inv(self) -> bool {
        self.sounds@.dom().finite()
    }

    /// The sounds tracked by the reader.
    pub closed spec fn view(&self) -> Map<u64, SoundState<S>> {
        self.sounds@
    }

    /// A reader that tracks no sounds.
    pub fn new() -> (r: Self)
        ensures
            r@ == Map::<u64, SoundState<S>>::empty(),
    {
        let r = Reader { sounds: fx_new() };
        proof {
            assert(r@ =~= Map::<u64, SoundState<S>>::empty());
        }
        r
    }

    /// The number of sounds tracked by the reader.
    pub fn len(&self) -> (r: usize)
        ensures
            r == self@.len(),
    {
        proof { use_type_invariant(self); }
        fx_len(&self.sounds)
    }

    /// Whether the sound with the given id is tracked by the reader.
    pub fn contains(&self, id: u64) -> (r: bool)
        ensures
            r == self@.contains_key(id),
    {
        fx_get(&self.sounds, &id).is_some()
    }

    /// Insert a sound's state, in place of any it had.
    fn set_state(&mut self, id: u64, state: SoundState<S>)
        ensures
            final(self)@ == old(self)@.insert(id, state),
    {
        proof { use_type_invariant(&*self); }
        let mut sounds = fx_new();
        std::mem::swap(&mut sounds, &mut self.sounds);
        fx_insert(&mut sounds, id, state);
        self.sounds = sounds;
    }

    /// Remove a sound's state, returning it if the sound was tracked.
    fn take_state(&mut self, id: u64) -> (r: Option<SoundState<S>>)
        ensures
            final(self)@ == old(self)@.remove(id),
            r == (if old(self)@.contains_key(id) { Some(old(self)@[id]) } else { None }),
    {
        proof { use_type_invariant(&*self); }
        let mut sounds = fx_new();
        std::mem::swap(&mut sounds, &mut self.sounds);
        let r = fx_remove(&mut sounds, &id);
        self.sounds = sounds;
        r
    }

    /// Handle one message received by the reader thread.
    ///
    /// - `Play`: the sound is tracked as processing and its request goes to a child.
    /// - `PlayComplete`: a tracked sound waits at the parent and its first buffers are queued;
    ///   for an untracked (ended) sound nothing happens.
    /// - `NextBuffer`: a waiting sound goes to a child with the buffer and is marked processing;
    ///   the request for a sound being processed is queued again; for an untracked sound the
    ///   buffer is dropped.
    /// - `NextBufferComplete`: a tracked sound waits at the parent again.
    /// - `End`: the sound is no longer tracked.
    /// - `Exit`: the thread stops.
    pub fn handle<P, B>(&mut self, msg: Message<P, S, B>) -> (r: Action<P, S, B>)
        ensures
            (final(self)@, r) == spec_handle(old(self)@, msg),
            match msg {
                Message::Play(id, play) => {
                    &&& final(self)@ == old(self)@.insert(id, SoundState::Processing)
                    &&& r == Action::<P, S, B>::StartPlay(id, play)
                },
                Message::PlayComplete(id, sound) => if old(self)@.contains_key(id) {
                    &&& final(self)@ == old(self)@.insert(id, SoundState::Waiting(sound))
                    &&& r == Action::<P, S, B>::QueueBuffers(id, NUM_BUFFERS)
                } else {
                    final(self)@ == old(self)@ && r is Idle
                },
                Message::NextBuffer(id, buffer) => if !old(self)@.contains_key(id) {
                    final(self)@ == old(self)@ && r is Idle
                } else if old(self)@[id] is Processing {
                    final(self)@ == old(self)@ && r == Action::<P, S, B>::Requeue(id, buffer)
                } else {
                    &&& old(self)@[id] matches SoundState::Waiting(sound)
                        && r == Action::<P, S, B>::FillBuffer(id, sound, buffer)
                    &&& final(self)@ == old(self)@.insert(id, SoundState::Processing)
                },
                Message::NextBufferComplete(id, sound) => {
                    &&& r is Idle
                    &&& final(self)@ == if old(self)@.contains_key(id) {
                        old(self)@.insert(id, SoundState::Waiting(sound))
                    } else {
                        old(self)@
                    }
                },
                Message::End(id) => final(self)@ == old(self)@.remove(id) && r is Idle,
                Message::Exit => final(self)@ == old(self)@ && r is Exit,
            },
    {
        match msg {
            Message::Play(id, play) => {
                self.set_state(id, SoundState::Processing);
                Action::StartPlay(id, play)
            },
            Message::PlayComplete(id, sound) => {
                if self.contains(id) {
                    self.set_state(id, SoundState::Waiting(sound));
                    Action::QueueBuffers(id, NUM_BUFFERS)
                } else {
                    Action::Idle
                }
            },
            Message::NextBuffer(id, buffer) => {
                match self.take_state(id) {
                    None => Action::Idle,
                    Some(SoundState::Processing) => {
                        self.set_state(id, SoundState::Processing);
                        proof {
                            assert(old(self)@.remove(id).insert(id, SoundState::Processing)
                                =~= old(self)@);
                        }
                        Action::Requeue(id, buffer)
                    },
                    Some(SoundState::Waiting(sound)) => {
                        self.set_state(id, SoundState::Processing);
                        proof {
                            assert(old(self)@.remove(id).insert(id, SoundState::Processing)
                                =~= old(self)@.insert(id, SoundState::Processing));
                        }
                        Action::FillBuffer(id, sound, buffer)
                    },
                }
            },
            Message::NextBufferComplete(id, sound) => {
                if self.contains(id) {
                    self.set_state(id, SoundState::Waiting(sound));
                }
                Action::Idle
            },
            Message::End(id) => {
                self.take_state(id);
                Action::Idle
            },
            Message::Exit => Action::Exit,
        }
    }
}

/// Information about a buffer within the context of a WAV file.
#[derive(Debug)]
pub struct BufferInfo {
    /// The range of samples covered by this buffer.
    pub samples_range: std::ops::Range<usize>,
}

/// A buffer of samples read from a WAV, sent by the reader thread to the audio thread.
pub struct Buffer<T> {
    /// The samples held by the buffer.
    pub samples: Vec<T>,
    /// Where the samples lie within the WAV.
    pub info: BufferInfo,
}

/// Whether the buffer describes its samples truthfully within a WAV of the given length:
/// its range lies within the WAV and spans exactly its samples.
pub open spec fn buffer_fits<T>(buffer: Buffer<T>, wav_len_samples: nat) -> bool {
    &&& buffer.info.samples_range.start <= buffer.info.samples_range.end
    &&& buffer.info.samples_range.end <= wav_len_samples
    &&& buffer.samples@.len() == buffer.info.samples_range.end - buffer.info.samples_range.start
}

/// The audio thread's end of a playing WAV: the buffer being read and the position in it.
///
/// Buffers arrive from the reader thread; receiving them is left to the caller, which hands each
/// one to `receive` and takes spent buffers back with `take_spent_buffer`.
pub struct SamplesStream<T> {
    buffer: Option<Buffer<T>>,
    buffer_index: usize,
    channels: usize,
    wav_len_samples: usize,
    wav_looped: bool,
}

impl<T: Copy> SamplesStream<T> {
    /// The stream is consistent: the buffer being read fits the WAV and the position lies within
    /// it, and there is at least one channel.
    pub closed spec fn wf(&self) -> bool {
        &&& self.channels > 0
        &&& match self.buffer {
            Some(b) => buffer_fits(b, self.wav_len_samples as nat) && self.buffer_index <= b.samples@.len(),
            None => self.buffer_index == 0,
        }
    }

    /// The samples of the buffer being read that have not been taken yet.
    pub closed spec fn unread(&self) -> Seq<T> {
        match self.buffer {
            Some(b) => b.samples@.skip(self.buffer_index as int),
            None => Seq::empty(),
        }
    }

    /// The buffer being read, if any.
    pub closed spec fn current_buffer(&self) -> Option<Buffer<T>> {
        self.buffer
    }

    /// Whether a buffer is being read.
    pub closed spec fn holds_buffer(&self) -> bool {
        self.buffer is Some
    }

    /// The number of samples of the WAV after the position reached, when a buffer is held.
    pub closed spec fn remaining_samples(&self) -> int {
        match self.buffer {
            Some(b) => self.wav_len_samples - (b.info.samples_range.start + self.buffer_index),
            None => self.wav_len_samples as int,
        }
    }

    pub closed spec fn spec_channels(&self) -> usize {
        self.channels
    }

    pub closed spec fn looped(&self) -> bool {
        self.wav_looped
    }

    /// A stream for a WAV of the given number of channels and samples, before any buffer has
    /// arrived.
    pub fn new(channels: usize, wav_len_samples: usize, wav_looped: bool) -> (r: Self)
        requires
            channels > 0,
        ensures
            r.wf(),
            !r.holds_buffer(),
            r.unread() == Seq::<T>::empty(),
            r.spec_channels() == channels,
            r.remaining_samples() == wav_len_samples,
            r.looped() == wav_looped,
    {
        SamplesStream { buffer: None, buffer_index: 0, channels, wav_len_samples, wav_looped }
    }

    /// The number of channels in the source audio.
    pub fn channels(&self) -> (r: usize)
        ensures
            r == self.spec_channels(),
    {
        self.channels
    }

    /// The number of samples in the WAV.
    pub fn wav_len_samples(&self) -> (r: usize)
        ensures
            r == self.remaining_samples_total(),
    {
        self.wav_len_samples
    }

    /// Whether a buffer is being read.
    pub fn has_buffer(&self) -> (r: bool)
        ensures
            r == self.holds_buffer(),
    {
        self.buffer.is_some()
    }

    /// The number of frames remaining in the stream: `None` for a looped WAV, which never ends;
    /// otherwise the samples after the position reached, divided into frames of one sample per
    /// channel (the whole WAV while no buffer has arrived).
    pub fn remaining_frames(&self) -> (r: Option<usize>)
        requires
            self.wf(),
        ensures
            self.looped() ==> r is None,
            !self.looped() ==> r == Some((self.remaining_samples() / self.spec_channels() as int) as usize),
    {
        if self.wav_looped {
            return None;
        }
        match &self.buffer {
            Some(b) => {
                let remaining = self.wav_len_samples - (b.info.samples_range.start + self.buffer_index);
                Some(remaining / self.channels)
            },
            None => Some(self.wav_len_samples / self.channels),
        }
    }

    /// Take the next sample of the buffer being read, if it has one left.
    pub fn take_sample(&mut self) -> (r: Option<T>)
        requires
            old(self).wf(),
        ensures
            final(self).wf(),
            final(self).holds_buffer() == old(self).holds_buffer(),
            final(self).spec_channels() == old(self).spec_channels(),
            final(self).looped() == old(self).looped(),
            old(self).unread().len() == 0 ==> r is None && *final(self) == *old(self),
            old(self).unread().len() > 0 ==> {
                &&& r == Some(old(self).unread()[0])
                &&& final(self).unread() == old(self).unread().skip(1)
                &&& final(self).remaining_samples() == old(self).remaining_samples() - 1
            },
    {
        match &self.buffer {
            Some(b) => {
                if self.buffer_index < b.samples.len() {
                    let sample = b.samples[self.buffer_index];
                    self.buffer_index = self.buffer_index + 1;
                    proof {
                        let b = old(self).buffer.unwrap();
                        assert(b.samples@.skip(old(self).buffer_index as int).skip(1)
                            =~= b.samples@.skip(self.buffer_index as int));
                    }
                    Some(sample)
                } else {
                    None
                }
            },
            None => None,
        }
    }

    /// Release the buffer being read once all of its samples have been taken, so that it can be
    /// handed back to the reader thread to be refilled.
    pub fn take_spent_buffer(&mut self) -> (r: Option<Buffer<T>>)
        requires
            old(self).wf(),
        ensures
            final(self).wf(),
            final(self).spec_channels() == old(self).spec_channels(),
            final(self).looped() == old(self).looped(),
            old(self).holds_buffer() && old(self).unread().len() == 0 ==> {
                &&& r == old(self).current_buffer()
                &&& !final(self).holds_buffer()
            },
            !(old(self).holds_buffer() && old(self).unread().len() == 0) ==> r is None && *final(self) == *old(self),
    {
        let spent = match &self.buffer {
            Some(b) => self.buffer_index >= b.samples.len(),
            None => false,
        };
        if spent {
            self.buffer_index = 0;
            self.buffer.take()
        } else {
            None
        }
    }

    /// Start reading the next buffer from the reader thread, from its first sample.
    pub fn receive(&mut self, buffer: Buffer<T>)
        requires
            old(self).wf(),
            buffer_fits(buffer, old(self).remaining_samples_total()),
        ensures
            final(self).wf(),
            final(self).holds_buffer(),
            final(self).unread() == buffer.samples@,
            final(self).remaining_samples() == old(self).remaining_samples_total() - buffer.info.samples_range.start,
            final(self).spec_channels() == old(self).spec_channels(),
            final(self).looped() == old(self).looped(),
    {
        self.buffer = Some(buffer);
        self.buffer_index = 0;
        proof {
            assert(buffer.samples@.skip(0) =~= buffer.samples@);
        }
    }

    /// The number of samples in the WAV.
    pub closed spec fn remaining_samples_total(&self) -> nat {
        self.wav_len_samples as nat
    }
}

/// The encoding of the samples of a WAV file.
#[derive(Copy, Clone, Debug, PartialEq, Eq)]
pub enum SampleFormat {
    Float,
    Int,
}

/// The sample types that the reader can decode.
#[derive(Copy, Clone, Debug, PartialEq, Eq)]
pub enum SampleType {
    F32,
    I8,
    I16,
    I32,
}

/// The sample type of a WAV with the given format and bits per sample: 32-bit floats, or 8, 16
/// or 32-bit integers. Any other combination is not supported.
pub fn sample_type(format: SampleFormat, bits_per_sample: u16) -> (r: Option<SampleType>)
    ensures
        r == (match (format, bits_per_sample) {
            (SampleFormat::Float, 32) => Some(SampleType::F32),
            (SampleFormat::Int, 8) => Some(SampleType::I8),
            (SampleFormat::Int, 16) => Some(SampleType::I16),
            (SampleFormat::Int, 32) => Some(SampleType::I32),
            _ => None,
        }),
{
    match (format, bits_per_sample) {
        (SampleFormat::Float, 32) => Some(SampleType::F32),
        (SampleFormat::Int, 8) => Some(SampleType::I8),
        (SampleFormat::Int, 16) => Some(SampleType::I16),
        (SampleFormat::Int, 32) => Some(SampleType::I32),
        _ => None,
    }
}

/// The frame of a WAV of `duration_frames` frames at which a sound starting at `start_frame`
/// begins: a start beyond the end of the file wraps around to its beginning.
pub fn wrapped_start_frame(start_frame: u64, duration_frames: u64) -> (r: u64)
    requires
        duration_frames > 0,
    ensures
        r == start_frame % duration_frames,
        r < duration_frames,
{
    start_frame % duration_frames
}

} // verus!
