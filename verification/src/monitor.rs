//! The audio monitor of the control interface: the levels and positions that the audio output
//! reports for the master, for every active sound and for every speaker.
//!
//! Levels, positions and progress are the bit patterns of the `f32` and `f64` values reported.

use crate::fx::{fx_clear, fx_get, fx_insert, fx_keys, fx_new, fx_remove};
use crate::{sound, source, speaker};
use fxhash::FxHashMap;
use vstd::prelude::*;

verus! {

broadcast use vstd::std_specs::hash::group_hash_axioms;

/// The detected levels of a single channel: the bits of its RMS and of its peak.
#[derive(Copy, Clone, Debug, PartialEq, Eq)]
pub struct ChannelLevels {
    pub rms: u32,
    pub peak: u32,
}

/// The levels before any were detected.
pub open spec fn silent_levels() -> ChannelLevels {
    ChannelLevels { rms: 0, peak: 0 }
}

/// The position of a sound: the bits of its coordinates in metres and of its rotation in
/// radians.
#[derive(Copy, Clone, Debug, PartialEq, Eq)]
pub struct Position {
    pub x: u64,
    pub y: u64,
    pub radians: u32,
}

/// The ways in which a source is previewed from the source editor.
#[derive(Copy, Clone, Debug, PartialEq, Eq)]
pub enum SourcePreviewMode {
    OneShot,
    Continuous,
}

/// A message related to an active sound.
#[derive(Clone, Debug)]
pub enum ActiveSoundMessage {
    Start {
        normalised_progress: Option<u64>,
        source_id: source::Id,
        position: Position,
        channels: usize,
    },
    Update {
        normalised_progress: Option<u64>,
        source_id: source::Id,
        position: Position,
        channels: usize,
    },
    UpdateChannel {
        index: usize,
        rms: u32,
        peak: u32,
    },
    End,
}

/// A message related to a speaker.
#[derive(Copy, Clone, Debug, PartialEq, Eq)]
pub enum SpeakerMessage {
    Add,
    Update { rms: u32, peak: u32 },
    Remove,
}

/// A message sent from the audio thread with some audio levels.
#[derive(Clone, Debug)]
pub enum AudioMonitorMessage {
    Master { peak: u32 },
    ActiveSound(sound::Id, ActiveSoundMessage),
    Speaker(speaker::Id, SpeakerMessage),
}

/// The state of an active sound.
#[derive(Debug)]
pub struct ActiveSound {
    pub source_id: source::Id,
    pub position: Position,
    pub channels: Vec<ChannelLevels>,
    /// The normalised progress through the playback of the sound.
    pub normalised_progress: Option<u64>,
}

/// What the monitor shows of an active sound.
pub struct ActiveSoundView {
    pub source_id: source::Id,
    pub position: Position,
    pub channels: Seq<ChannelLevels>,
    pub normalised_progress: Option<u64>,
}

impl ActiveSound {
    pub open spec fn view(&self) -> ActiveSoundView {
        ActiveSoundView {
            source_id: self.source_id,
            position: self.position,
            channels: self.channels@,
            normalised_progress: self.normalised_progress,
        }
    }

    /// A sound that has just started: every channel silent.
    pub fn new(source_id: source::Id, position: Position, channels: usize, normalised_progress: Option<u64>) -> (r: Self)
        ensures
            r@ == started(source_id, position, channels as nat, normalised_progress),
    {
        let mut levels: Vec<ChannelLevels> = Vec::new();
        while levels.len() < channels
            invariant
                levels@.len() <= channels,
                forall|k: int| 0 <= k < levels@.len() ==> levels@[k] == silent_levels(),
            decreases channels - levels@.len(),
        {
            levels.push(ChannelLevels { rms: 0, peak: 0 });
        }
        let r = ActiveSound { source_id, position, channels: levels, normalised_progress };
        proof {
            assert(r.channels@ =~= Seq::new(channels as nat, |k: int| silent_levels()));
        }
        r
    }
}

/// A sound that has just started: every channel silent.
pub open spec fn started(source_id: source::Id, position: Position, channels: nat, normalised_progress: Option<u64>) -> ActiveSoundView {
    ActiveSoundView {
        source_id,
        position,
        channels: Seq::new(channels, |k: int| silent_levels()),
        normalised_progress,
    }
}

/// The views of the active sounds by id.
pub open spec fn sound_views(m: Map<u64, ActiveSound>) -> Map<u64, ActiveSoundView> {
    m.map_values(|s: ActiveSound| s@)
}

/// A channel update is for a channel that the sound has, wherever the sound is known.
pub open spec fn channel_in_range(sounds: Map<u64, ActiveSoundView>, msg: AudioMonitorMessage) -> bool {
    match msg {
        AudioMonitorMessage::ActiveSound(id, ActiveSoundMessage::UpdateChannel { index, .. }) =>
            sounds.contains_key(id.0) ==> index < sounds[id.0].channels.len(),
        _ => true,
    }
}

/// The levels and positions shown by the monitor.
pub struct AudioMonitor {
    master_peak: u32,
    active_sounds: FxHashMap<u64, ActiveSound>,
    speakers: FxHashMap<u64, ChannelLevels>,
}

impl AudioMonitor {
    /// Both maps are finite.
    #[verifier::type_invariant]
    spec fn inv(self) -> bool {
        self.active_sounds@.dom().finite() && self.speakers@.dom().finite()
    }

    /// The bits of the last master peak received.
    pub closed spec fn master_peak(&self) -> u32 {
        self.master_peak
    }

    /// The active sounds by id.
    pub closed spec fn sounds(&self) -> Map<u64, ActiveSoundView> {
        sound_views(self.active_sounds@)
    }

    /// The levels of the speakers by id.
    pub closed spec fn speakers(&self) -> Map<u64, ChannelLevels> {
        self.speakers@
    }

    /// Nothing shown yet.
    pub fn new() -> (r: Self)
        ensures
            r.master_peak() == 0,
            r.sounds() == Map::<u64, ActiveSoundView>::empty(),
            r.speakers() == Map::<u64, ChannelLevels>::empty(),
    {
        let r = AudioMonitor { master_peak: 0, active_sounds: fx_new(), speakers: fx_new() };
        proof {
            assert(r.sounds() =~= Map::<u64, ActiveSoundView>::empty());
            assert(r.speakers() =~= Map::<u64, ChannelLevels>::empty());
        }
        r
    }

    /// The bits of the last master peak received.
    pub fn get_master_peak(&self) -> (r: u32)
        ensures
            r == self.master_peak(),
    {
        self.master_peak
    }

    /// The active sound with the given id, if any.
    pub fn active_sound(&self, id: sound::Id) -> (r: Option<&ActiveSound>)
        ensures
            match r {
                Some(s) => self.sounds().contains_key(id.0) && s@ == self.sounds()[id.0],
                None => !self.sounds().contains_key(id.0),
            },
    {
        fx_get(&self.active_sounds, &id.0)
    }

    /// The levels of the speaker with the given id, if any.
    pub fn speaker(&self, id: speaker::Id) -> (r: Option<ChannelLevels>)
        ensures
            r == (if self.speakers().contains_key(id.0) { Some(self.speakers()[id.0]) } else { None }),
    {
        match fx_get(&self.speakers, &id.0) {
            Some(l) => Some(*l),
            None => None,
        }
    }

    /// Take the sound with the given id out of the map.
    fn take_sound(&mut self, id: u64) -> (r: Option<ActiveSound>)
        ensures
            final(self).active_sounds@ == old(self).active_sounds@.remove(id),
            final(self).speakers@ == old(self).speakers@,
            final(self).master_peak == old(self).master_peak,
            r == (if old(self).active_sounds@.contains_key(id) { Some(old(self).active_sounds@[id]) } else { None }),
    {
        proof { use_type_invariant(&*self); }
        let mut sounds = fx_new();
        std::mem::swap(&mut sounds, &mut self.active_sounds);
        let r = fx_remove(&mut sounds, &id);
        self.active_sounds = sounds;
        r
    }

    /// Put the sound with the given id into the map.
    fn put_sound(&mut self, id: u64, sound: ActiveSound)
        ensures
            final(self).active_sounds@ == old(self).active_sounds@.insert(id, sound),
            final(self).speakers@ == old(self).speakers@,
            final(self).master_peak == old(self).master_peak,
    {
        proof { use_type_invariant(&*self); }
        let mut sounds = fx_new();
        std::mem::swap(&mut sounds, &mut self.active_sounds);
        fx_insert(&mut sounds, id, sound);
        self.active_sounds = sounds;
    }

    /// Set or remove the levels of a speaker.
    fn set_speaker(&mut self, id: u64, levels: Option<ChannelLevels>)
        ensures
            final(self).speakers@ == match levels {
                Some(l) => old(self).speakers@.insert(id, l),
                None => old(self).speakers@.remove(id),
            },
            final(self).active_sounds@ == old(self).active_sounds@,
            final(self).master_peak == old(self).master_peak,
    {
        proof { use_type_invariant(&*self); }
        let mut speakers = fx_new();
        std::mem::swap(&mut speakers, &mut self.speakers);
        match levels {
            Some(l) => {
                fx_insert(&mut speakers, id, l);
            },
            None => {
                fx_remove(&mut speakers, &id);
            },
        }
        self.speakers = speakers;
    }

    /// Take in one message from the audio thread.
    ///
    /// - `Master`: the master peak is replaced.
    /// - `Start`: the sound is shown with every channel silent, in place of any it had.
    /// - `Update`: the position and progress of a known sound are replaced; an unknown sound is
    ///   shown as started.
    /// - `UpdateChannel`: the levels of that channel of a known sound are replaced; for an
    ///   unknown sound nothing changes.
    /// - `End`: the sound is no longer shown, and the one-shot preview that played it, if any,
    ///   is over.
    /// - Speaker `Add`, `Update` and `Remove`: the speaker is shown silent, shown with the
    ///   given levels, or no longer shown.
    pub fn handle(&mut self, msg: AudioMonitorMessage, preview: &mut Option<(SourcePreviewMode, sound::Id)>)
        requires
            channel_in_range(old(self).sounds(), msg),
        ensures
            match msg {
                AudioMonitorMessage::Master { peak } => {
                    &&& final(self).master_peak() == peak
                    &&& final(self).sounds() == old(self).sounds()
                    &&& final(self).speakers() == old(self).speakers()
                    &&& *final(preview) == *old(preview)
                },
                AudioMonitorMessage::ActiveSound(id, sound_msg) => {
                    &&& final(self).master_peak() == old(self).master_peak()
                    &&& final(self).speakers() == old(self).speakers()
                    &&& match sound_msg {
                        ActiveSoundMessage::Start { normalised_progress, source_id, position, channels } => {
                            &&& final(self).sounds() == old(self).sounds().insert(
                                id.0,
                                started(source_id, position, channels as nat, normalised_progress),
                            )
                            &&& *final(preview) == *old(preview)
                        },
                        ActiveSoundMessage::Update { normalised_progress, source_id, position, channels } => {
                            &&& final(self).sounds() == old(self).sounds().insert(
                                id.0,
                                if old(self).sounds().contains_key(id.0) {
                                    ActiveSoundView { position, normalised_progress, ..old(self).sounds()[id.0] }
                                } else {
                                    started(source_id, position, channels as nat, normalised_progress)
                                },
                            )
                            &&& *final(preview) == *old(preview)
                        },
                        ActiveSoundMessage::UpdateChannel { index, rms, peak } => {
                            &&& final(self).sounds() == if old(self).sounds().contains_key(id.0) {
                                old(self).sounds().insert(
                                    id.0,
                                    ActiveSoundView {
                                        channels: old(self).sounds()[id.0].channels.update(
                                            index as int,
                                            ChannelLevels { rms, peak },
                                        ),
                                        ..old(self).sounds()[id.0]
                                    },
                                )
                            } else {
                                old(self).sounds()
                            }
                            &&& *final(preview) == *old(preview)
                        },
                        ActiveSoundMessage::End => {
                            &&& final(self).sounds() == old(self).sounds().remove(id.0)
                            &&& *final(preview) == if *old(preview) == Some((SourcePreviewMode::OneShot, id)) {
                                None
                            } else {
                                *old(preview)
                            }
                        },
                    }
                },
                AudioMonitorMessage::Speaker(id, speaker_msg) => {
                    &&& final(self).master_peak() == old(self).master_peak()
                    &&& final(self).sounds() == old(self).sounds()
                    &&& *final(preview) == *old(preview)
                    &&& final(self).speakers() == match speaker_msg {
                        SpeakerMessage::Add => old(self).speakers().insert(id.0, silent_levels()),
                        SpeakerMessage::Update { rms, peak } => old(self).speakers().insert(id.0, ChannelLevels { rms, peak }),
                        SpeakerMessage::Remove => old(self).speakers().remove(id.0),
                    }
                },
            },
    {
        proof { use_type_invariant(&*self); }
        match msg {
            AudioMonitorMessage::Master { peak } => {
                self.master_peak = peak;
            },
            AudioMonitorMessage::ActiveSound(id, sound_msg) => {
                match sound_msg {
                    ActiveSoundMessage::Start { normalised_progress, source_id, position, channels } => {
                        let s = ActiveSound::new(source_id, position, channels, normalised_progress);
                        self.put_sound(id.0, s);
                        proof {
                            assert(self.sounds() =~= old(self).sounds().insert(
                                id.0,
                                started(source_id, position, channels as nat, normalised_progress),
                            ));
                        }
                    },
                    ActiveSoundMessage::Update { normalised_progress, source_id, position, channels } => {
                        let s = match self.take_sound(id.0) {
                            Some(mut s) => {
                                s.position = position;
                                s.normalised_progress = normalised_progress;
                                s
                            },
                            None => ActiveSound::new(source_id, position, channels, normalised_progress),
                        };
                        self.put_sound(id.0, s);
                        proof {
                            assert(self.sounds() =~= old(self).sounds().insert(
                                id.0,
                                if old(self).sounds().contains_key(id.0) {
                                    ActiveSoundView { position, normalised_progress, ..old(self).sounds()[id.0] }
                                } else {
                                    started(source_id, position, channels as nat, normalised_progress)
                                },
                            ));
                        }
                    },
                    ActiveSoundMessage::UpdateChannel { index, rms, peak } => {
                        match self.take_sound(id.0) {
                            Some(mut s) => {
                                proof {
                                    assert(old(self).sounds()[id.0] == old(self).active_sounds@[id.0]@);
                                }
                                s.channels.set(index, ChannelLevels { rms, peak });
                                self.put_sound(id.0, s);
                                proof {
                                    assert(self.sounds() =~= old(self).sounds().insert(
                                        id.0,
                                        ActiveSoundView {
                                            channels: old(self).sounds()[id.0].channels.update(
                                                index as int,
                                                ChannelLevels { rms, peak },
                                            ),
                                            ..old(self).sounds()[id.0]
                                        },
                                    ));
                                }
                            },
                            None => {
                                proof {
                                    assert(self.sounds() =~= old(self).sounds());
                                }
                            },
                        }
                    },
                    ActiveSoundMessage::End => {
                        self.take_sound(id.0);
                        proof {
                            assert(self.sounds() =~= old(self).sounds().remove(id.0));
                        }
                        let ends_preview = match preview {
                            Some((SourcePreviewMode::OneShot, s_id)) => s_id.0 == id.0,
                            _ => false,
                        };
                        if ends_preview {
                            *preview = None;
                        }
                    },
                }
            },
            AudioMonitorMessage::Speaker(id, speaker_msg) => {
                match speaker_msg {
                    SpeakerMessage::Add => self.set_speaker(id.0, Some(ChannelLevels { rms: 0, peak: 0 })),
                    SpeakerMessage::Update { rms, peak } => self.set_speaker(id.0, Some(ChannelLevels { rms, peak })),
                    SpeakerMessage::Remove => self.set_speaker(id.0, None),
                }
            },
        }
    }

    /// Whether the list holds the source.
    fn has_source(sources: &[source::Id], id: source::Id) -> (r: bool)
        ensures
            r == sources@.contains(id),
    {
        let mut i: usize = 0;
        while i < sources.len()
            invariant
                i <= sources@.len(),
                forall|j: int| 0 <= j < i ==> sources@[j] != id,
            decreases sources@.len() - i,
        {
            if sources[i].0 == id.0 {
                proof {
                    assert(sources@[i as int] == id);
                }
                return true;
            }
            i = i + 1;
        }
        false
    }

    /// Whether the list holds the speaker.
    fn has_speaker(speakers: &[speaker::Id], id: speaker::Id) -> (r: bool)
        ensures
            r == speakers@.contains(id),
    {
        let mut i: usize = 0;
        while i < speakers.len()
            invariant
                i <= speakers@.len(),
                forall|j: int| 0 <= j < i ==> speakers@[j] != id,
            decreases speakers@.len() - i,
        {
            if speakers[i].0 == id.0 {
                proof {
                    assert(speakers@[i as int] == id);
                }
                return true;
            }
            i = i + 1;
        }
        false
    }

    /// Clear the sounds whose source and the speakers that are not in the project: only the
    /// sounds of the given sources and the given speakers stay shown.
    pub fn clear_invalid(&mut self, sources: &[source::Id], speakers: &[speaker::Id])
        ensures
            final(self).master_peak() == old(self).master_peak(),
            forall|k: u64| #[trigger] final(self).sounds().contains_key(k) <==> old(self).sounds().contains_key(k)
                && sources@.contains(old(self).sounds()[k].source_id),
            forall|k: u64| #[trigger] final(self).sounds().contains_key(k) ==> final(self).sounds()[k] == old(self).sounds()[k],
            forall|k: u64| #[trigger] final(self).speakers().contains_key(k) <==> old(self).speakers().contains_key(k)
                && speakers@.contains(speaker::Id(k)),
            forall|k: u64| #[trigger] final(self).speakers().contains_key(k) ==> final(self).speakers()[k] == old(self).speakers()[k],
    {
        proof { use_type_invariant(&*self); }
        let ids = fx_keys(&self.active_sounds);
        let mut i: usize = 0;
        while i < ids.len()
            invariant
                i <= ids@.len(),
                ids@.to_set() == old(self).active_sounds@.dom(),
                ids@.no_duplicates(),
                self.speakers@ == old(self).speakers@,
                self.master_peak == old(self).master_peak,
                forall|k: u64| #[trigger] self.active_sounds@.contains_key(k) <==> old(self).active_sounds@.contains_key(k)
                    && (sources@.contains(old(self).active_sounds@[k].source_id)
                        || !(exists|j: int| 0 <= j < i && ids@[j] == k)),
                forall|k: u64| #[trigger] self.active_sounds@.contains_key(k) ==> self.active_sounds@[k] == old(self).active_sounds@[k],
            decreases ids@.len() - i,
        {
            let key = ids[i];
            proof {
                assert(ids@.to_set().contains(key));
                assert(!(exists|j: int| 0 <= j < i && ids@[j] == key)) by {
                    if exists|j: int| 0 <= j < i && ids@[j] == key {
                        let j = choose|j: int| 0 <= j < i && ids@[j] == key;
                        assert(ids@[j] == ids@[i as int]);
                    }
                }
            }
            let source_id = match fx_get(&self.active_sounds, &key) {
                Some(s) => s.source_id,
                None => source::Id(0),
            };
            let keep = Self::has_source(sources, source_id);
            if !keep {
                self.take_sound(key);
            }
            proof {
                assert forall|k: u64| #[trigger] self.active_sounds@.contains_key(k) <==> old(self).active_sounds@.contains_key(k)
                    && (sources@.contains(old(self).active_sounds@[k].source_id)
                        || !(exists|j: int| 0 <= j < i + 1 && ids@[j] == k)) by {
                    if k != key {
                        assert((exists|j: int| 0 <= j < i + 1 && ids@[j] == k) == (exists|j: int| 0 <= j < i && ids@[j] == k)) by {
                            if exists|j: int| 0 <= j < i + 1 && ids@[j] == k {
                                let j = choose|j: int| 0 <= j < i + 1 && ids@[j] == k;
                                assert(j < i);
                            }
                        }
                    } else {
                        assert(ids@[i as int] == k);
                    }
                }
            }
            i = i + 1;
        }
        proof {
            assert forall|k: u64| #[trigger] self.sounds().contains_key(k) <==> old(self).sounds().contains_key(k)
                && sources@.contains(old(self).sounds()[k].source_id) by {
                if old(self).active_sounds@.contains_key(k) {
                    assert(ids@.to_set().contains(k));
                    let j = choose|j: int| 0 <= j < ids@.len() && ids@[j] == k;
                    assert(exists|j2: int| 0 <= j2 < ids@.len() && ids@[j2] == k);
                }
            }
        }
        let ids = fx_keys(&self.speakers);
        let ghost mid = self.active_sounds@;
        let mut i: usize = 0;
        while i < ids.len()
            invariant
                i <= ids@.len(),
                ids@.to_set() == old(self).speakers@.dom(),
                ids@.no_duplicates(),
                self.active_sounds@ == mid,
                self.master_peak == old(self).master_peak,
                forall|k: u64| #[trigger] self.speakers@.contains_key(k) <==> old(self).speakers@.contains_key(k)
                    && (speakers@.contains(speaker::Id(k)) || !(exists|j: int| 0 <= j < i && ids@[j] == k)),
                forall|k: u64| #[trigger] self.speakers@.contains_key(k) ==> self.speakers@[k] == old(self).speakers@[k],
            decreases ids@.len() - i,
        {
            let key = ids[i];
            let keep = Self::has_speaker(speakers, speaker::Id(key));
            if !keep {
                self.set_speaker(key, None);
            }
            proof {
                assert forall|k: u64| #[trigger] self.speakers@.contains_key(k) <==> old(self).speakers@.contains_key(k)
                    && (speakers@.contains(speaker::Id(k)) || !(exists|j: int| 0 <= j < i + 1 && ids@[j] == k)) by {
                    if k != key {
                        assert((exists|j: int| 0 <= j < i + 1 && ids@[j] == k) == (exists|j: int| 0 <= j < i && ids@[j] == k)) by {
                            if exists|j: int| 0 <= j < i + 1 && ids@[j] == k {
                                let j = choose|j: int| 0 <= j < i + 1 && ids@[j] == k;
                                assert(j < i);
                            }
                        }
                    } else {
                        assert(ids@[i as int] == k);
                    }
                }
            }
            i = i + 1;
        }
        proof {
            assert forall|k: u64| #[trigger] self.speakers().contains_key(k) <==> old(self).speakers().contains_key(k)
                && speakers@.contains(speaker::Id(k)) by {
                if old(self).speakers@.contains_key(k) {
                    assert(ids@.to_set().contains(k));
                    let j = choose|j: int| 0 <= j < ids@.len() && ids@[j] == k;
                    assert(exists|j2: int| 0 <= j2 < ids@.len() && ids@[j2] == k);
                }
            }
        }
    }

    /// Clear all state and reset the last received master peak.
    pub fn clear(&mut self)
        ensures
            final(self).master_peak() == 0,
            final(self).sounds() == Map::<u64, ActiveSoundView>::empty(),
            final(self).speakers() == Map::<u64, ChannelLevels>::empty(),
    {
        proof { use_type_invariant(&*self); }
        let mut sounds = fx_new();
        std::mem::swap(&mut sounds, &mut self.active_sounds);
        fx_clear(&mut sounds);
        self.active_sounds = sounds;
        let mut speakers = fx_new();
        std::mem::swap(&mut speakers, &mut self.speakers);
        fx_clear(&mut speakers);
        self.speakers = speakers;
        self.master_peak = 0;
        proof {
            assert(self.sounds() =~= Map::<u64, ActiveSoundView>::empty());
            assert(self.speakers() =~= Map::<u64, ChannelLevels>::empty());
        }
    }
}

} // verus!
