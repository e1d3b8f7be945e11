//! Sounds: their unique ids and the state shared between a playing sound and its handles.

use crate::input;
use crate::source;
use vstd::prelude::*;

verus! {

/// A unique identifier for a sound.
#[derive(Copy, Clone, Debug, PartialEq, Eq, Hash)]
pub struct Id(pub u64);

impl Id {
    /// The first sound id.
    pub fn initial() -> (r: Id)
        ensures
            r == Id(0),
    {
        Id(0)
    }
}

/// A generator of unique sound `Id`s, shared between the threads that create sounds (who hold
/// it behind a lock).
#[derive(Debug)]
pub struct IdGenerator {
    next: Id,
}

impl IdGenerator {
    /// The id that the generator hands out next.
    pub closed spec fn view(&self) -> u64 {
        self.next.0
    }

    /// A generator that begins with the first sound id.
    pub fn new() -> (r: Self)
        ensures
            r@ == 0,
    {
        IdGenerator { next: Id::initial() }
    }

    /// Hand out the next id; the one after it follows, wrapping around at `u64::MAX`.
    pub fn generate_next(&mut self) -> (r: Id)
        ensures
            r.0 == old(self)@,
            final(self)@ == generator_step(old(self)@),
    {
        let id = self.next;
        self.next = Id(id.0.wrapping_add(1));
        id
    }
}

/// A handle to the source-specific state of a sound.
#[derive(Copy, Clone, Debug, PartialEq, Eq)]
pub enum SourceHandle {
    Wav,
    /// A realtime sound, and whether its input is currently being captured.
    Realtime { is_capturing: bool },
}

/// State shared between a sound and its handles.
#[derive(Copy, Clone, Debug, PartialEq, Eq)]
pub struct Shared {
    is_playing: bool,
    source_id: source::Id,
    id: Id,
    source: SourceHandle,
}

impl Shared {
    /// Whether the sound is playing, and its source, id and source-specific state.
    pub closed spec fn view(&self) -> (bool, source::Id, Id, SourceHandle) {
        (self.is_playing, self.source_id, self.id, self.source)
    }

    /// The shared state of a sound that has just started playing.
    pub fn new(source_id: source::Id, id: Id, source: SourceHandle) -> (r: Self)
        ensures
            r@ == (true, source_id, id, source),
    {
        Shared { is_playing: true, source_id, id, source }
    }

    /// Whether or not the sound is currently playing.
    pub fn is_playing(&self) -> (r: bool)
        ensures
            r == self@.0,
    {
        self.is_playing
    }

    /// The ID of the source used to generate this sound.
    pub fn source_id(&self) -> (r: source::Id)
        ensures
            r == self@.1,
    {
        self.source_id
    }

    /// The ID of the sound.
    pub fn id(&self) -> (r: Id)
        ensures
            r == self@.2,
    {
        self.id
    }

    /// The source-specific state of the sound.
    pub fn source(&self) -> (r: SourceHandle)
        ensures
            r == self@.3,
    {
        self.source
    }

    /// Pauses the playback; a realtime sound stops capturing its input.
    ///
    /// Returns `false` if it was already paused.
    pub fn pause(&mut self) -> (r: bool)
        ensures
            r == old(self)@.0,
            final(self)@ == (false, old(self)@.1, old(self)@.2, match old(self)@.3 {
                SourceHandle::Wav => SourceHandle::Wav,
                SourceHandle::Realtime { .. } => SourceHandle::Realtime { is_capturing: false },
            }),
    {
        let result = self.is_playing;
        if let SourceHandle::Realtime { .. } = self.source {
            self.source = SourceHandle::Realtime { is_capturing: false };
        }
        self.is_playing = false;
        result
    }

    /// Plays the sound; a realtime sound resumes capturing its input.
    ///
    /// Returns `false` if it was already playing.
    pub fn play(&mut self) -> (r: bool)
        ensures
            r == !old(self)@.0,
            final(self)@ == (true, old(self)@.1, old(self)@.2, match old(self)@.3 {
                SourceHandle::Wav => SourceHandle::Wav,
                SourceHandle::Realtime { .. } => SourceHandle::Realtime { is_capturing: true },
            }),
    {
        let result = !self.is_playing;
        if let SourceHandle::Realtime { .. } = self.source {
            self.source = SourceHandle::Realtime { is_capturing: true };
        }
        self.is_playing = true;
        result
    }
}

/// Whether a sound is playing after the given `play` (`true`) and `pause` (`false`) calls, in
/// order, from the given start: the last call decides, and with none the start stands.
pub open spec fn playing_after(start: bool, calls: Seq<bool>) -> bool {
    if calls.len() == 0 { start } else { calls.last() }
}

/// A sound is playing after any sequence of `play` and `pause` calls exactly when the sequence
/// is empty and it was playing (as a new sound is), or the last call was `play`: with
/// `states[i]` the shared state before call `i` and `calls[i]` whether that call was `play`,
/// each call sets the flag as `play` and `pause` ensure.
pub proof fn lemma_last_call_decides(states: Seq<Shared>, calls: Seq<bool>)
    requires
        states.len() == calls.len() + 1,
        forall|i: int| 0 <= i < calls.len() ==> (#[trigger] states[i + 1])@.0 == calls[i],
    ensures
        states.last()@.0 == playing_after(states[0]@.0, calls),
{
    if calls.len() > 0 {
        let n = calls.len() - 1;
        assert(states[n + 1]@.0 == calls[n]);
    }
}

/// How a realtime sound is set up before it starts.
#[derive(Copy, Clone, Debug, PartialEq, Eq)]
pub struct RealtimeSetup {
    /// How long the input stream captures for the sound.
    pub duration: input::Duration,
    /// The samples of silence queued ahead of the captured samples, covering the latency between
    /// the input and output streams.
    pub delay_samples: usize,
    /// The number of samples the sound plays, if it is not continuous.
    pub remaining_samples: Option<usize>,
}

/// Set up a realtime sound of `n_channels` channels: a continuous preview captures without end,
/// any other sound for `duration_frames` frames; `delay_frames` frames of silence go ahead of it.
pub fn realtime_setup(continuous_preview: bool, duration_frames: usize, n_channels: usize, delay_frames: usize) -> (r: RealtimeSetup)
    requires
        delay_frames * n_channels <= usize::MAX,
        !continuous_preview ==> duration_frames * n_channels <= usize::MAX,
    ensures
        r.duration == (if continuous_preview { input::Duration::Infinite } else { input::Duration::Frames(duration_frames) }),
        r.delay_samples == delay_frames * n_channels,
        r.remaining_samples == (if continuous_preview { None } else { Some((duration_frames * n_channels) as usize) }),
{
    let duration = if continuous_preview {
        input::Duration::Infinite
    } else {
        input::Duration::Frames(duration_frames)
    };
    let delay_samples = delay_frames * n_channels;
    let remaining_samples = match duration {
        input::Duration::Infinite => None,
        input::Duration::Frames(frames) => Some(frames * n_channels),
    };
    RealtimeSetup { duration, delay_samples, remaining_samples }
}

/// The id that a generator hands out after `next`.
pub open spec fn generator_step(next: u64) -> u64 {
    if next == u64::MAX { 0 } else { (next + 1) as u64 }
}

/// The id that a generator hands out next after `n` calls of `generate_next`, starting at `start`.
pub open spec fn generator_after(start: u64, n: nat) -> u64
    decreases n,
{
    if n == 0 { start } else { generator_step(generator_after(start, (n - 1) as nat)) }
}

/// The ids handed out by a generator count up from where it started, wrapping around after
/// `u64::MAX`; so the ids of fewer than 2^64 successive calls are all different.
pub proof fn lemma_generated_ids_distinct(start: u64, i: nat, j: nat)
    requires
        i < j < 0x1_0000_0000_0000_0000,
    ensures
        generator_after(start, i) == (start + i) % 0x1_0000_0000_0000_0000,
        generator_after(start, j) == (start + j) % 0x1_0000_0000_0000_0000,
        generator_after(start, i) != generator_after(start, j),
{
    lemma_generator_after(start, i);
    lemma_generator_after(start, j);
    let m: int = 0x1_0000_0000_0000_0000;
    assert((start + i) % m != (start + j) % m) by (nonlinear_arith)
        requires
            0 <= i < j < m,
            0 <= start < m,
            m == 0x1_0000_0000_0000_0000,
    {
        assert(start + j - (start + i) == j - i);
        assert(0 < j - i < m);
    }
}

/// After `n` calls the next id is `start + n`, wrapped around at 2^64.
proof fn lemma_generator_after(start: u64, n: nat)
    ensures
        generator_after(start, n) == (start + n) % 0x1_0000_0000_0000_0000,
    decreases n,
{
    if n > 0 {
        lemma_generator_after(start, (n - 1) as nat);
        let m: int = 0x1_0000_0000_0000_0000;
        let prev: int = generator_after(start, (n - 1) as nat) as int;
        assert(prev == (start + n - 1) % m);
        assert(generator_step(prev as u64) == (prev + 1) % m);
        assert((prev + 1) % m == (start + n) % m) by (nonlinear_arith)
            requires
                prev == (start + n - 1) % m,
                m > 0,
        {
            vstd::arithmetic::div_mod::lemma_add_mod_noop(start + n - 1, 1, m);
        }
    }
}

} // verus!
