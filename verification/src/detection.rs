//! The bookkeeping of the audio detection thread: which sounds it analyses, with how many channels
//! each, and how many sample buffers circulate between it and the audio output thread.
//!
//! Every sound needs `BUFFERS_PER_SOUND` buffers in circulation, so the number of active buffers
//! never falls below `BUFFERS_PER_SOUND` times the number of sounds. The installations under
//! analysis are kept with the number of computers of each: the analysis of a speaker goes to
//! those of its installations that have computers, and only those are analysed. The analysis
//! itself (envelope detection and FFT on the samples) is not part of this bookkeeping.

use crate::fx::{fx_clear, fx_get, fx_insert, fx_keys, fx_len, fx_new, fx_remove};
use crate::installation;
use fxhash::FxHashMap;
use vstd::prelude::*;

verus! {

broadcast use vstd::std_specs::hash::group_hash_axioms;

/// The number of sample buffers in circulation for each sound.
pub const BUFFERS_PER_SOUND: usize = 3;

/// The number of sounds for which buffers are prepared before the detection loop begins.
pub const EST_NUM_SOUNDS: usize = 128;

/// The number of buffers prepared before the detection loop begins.
pub const SOUND_BUFFERS_TO_PREPARE: usize = EST_NUM_SOUNDS * BUFFERS_PER_SOUND;

/// What is done with a buffer of samples of a sound sent to the detection thread.
#[derive(Copy, Clone, Debug, PartialEq, Eq)]
pub enum BufferUse {
    /// The sound is unknown: the buffer goes straight back for re-use.
    Recycle,
    /// The sound's channel count changed: its channel detectors start afresh with this many
    /// channels before the samples are analysed.
    ResetChannels(usize),
    /// The samples are analysed by the sound's channel detectors.
    Analyse,
}

/// The sounds under analysis, with their channel counts, and the number of active buffers.
pub struct SoundBuffers {
    sounds: FxHashMap<u64, usize>,
    num_active_sound_buffers: usize,
}

impl SoundBuffers {
    /// The sounds under analysis by id, with the number of channels of each.
    pub closed spec fn view(&self) -> Map<u64, usize> {
        self.sounds@
    }

    /// The number of buffers in circulation.
    pub closed spec fn active(&self) -> nat {
        self.num_active_sound_buffers as nat
    }

    /// There are always at least `BUFFERS_PER_SOUND` buffers per sound.
    pub closed spec fn wf(&self) -> bool {
        &&& self.sounds@.dom().finite()
        &&& self.num_active_sound_buffers >= BUFFERS_PER_SOUND * self.sounds@.len()
    }

    /// No sounds, with `SOUND_BUFFERS_TO_PREPARE` buffers prepared.
    pub fn new() -> (r: Self)
        ensures
            r.wf(),
            r@ == Map::<u64, usize>::empty(),
            r.active() == SOUND_BUFFERS_TO_PREPARE,
    {
        let r = SoundBuffers { sounds: fx_new(), num_active_sound_buffers: SOUND_BUFFERS_TO_PREPARE };
        proof {
            assert(r.sounds@.dom() =~= Set::<u64>::empty());
        }
        r
    }

    /// Start analysing a sound of `channels` channels. Returns the number of buffers to add to
    /// the circulation so that every sound has its share.
    pub fn add_sound(&mut self, id: u64, channels: usize) -> (added: usize)
        requires
            old(self).wf(),
            BUFFERS_PER_SOUND * (old(self)@.len() + 1) <= usize::MAX,
        ensures
            final(self).wf(),
            final(self).active() >= BUFFERS_PER_SOUND * final(self)@.len(),
            final(self)@ == old(self)@.insert(id, channels),
            final(self).active() == old(self).active() + added,
            added == (if old(self).active() < BUFFERS_PER_SOUND * final(self)@.len() {
                BUFFERS_PER_SOUND * final(self)@.len() - old(self).active()
            } else {
                0
            }),
    {
        fx_insert(&mut self.sounds, id, channels);
        proof {
            assert(self.sounds@.dom() =~= old(self).sounds@.dom().insert(id));
            if old(self).sounds@.dom().contains(id) {
                assert(self.sounds@.len() == old(self).sounds@.len());
            } else {
                assert(self.sounds@.len() == old(self).sounds@.len() + 1);
            }
        }
        let min_num_sound_buffers = BUFFERS_PER_SOUND * fx_len(&self.sounds);
        if self.num_active_sound_buffers < min_num_sound_buffers {
            let added = min_num_sound_buffers - self.num_active_sound_buffers;
            self.num_active_sound_buffers = min_num_sound_buffers;
            added
        } else {
            0
        }
    }

    /// Stop analysing a sound.
    pub fn remove_sound(&mut self, id: u64)
        requires
            old(self).wf(),
        ensures
            final(self).wf(),
            final(self).active() >= BUFFERS_PER_SOUND * final(self)@.len(),
            final(self)@ == old(self)@.remove(id),
            final(self).active() == old(self).active(),
    {
        fx_remove(&mut self.sounds, &id);
        proof {
            assert(self.sounds@.dom() =~= old(self).sounds@.dom().remove(id));
        }
    }

    /// Decide what happens to a buffer of `buffer_channels` channels for the given sound.
    pub fn use_buffer(&mut self, id: u64, buffer_channels: usize) -> (r: BufferUse)
        requires
            old(self).wf(),
        ensures
            final(self).wf(),
            final(self).active() >= BUFFERS_PER_SOUND * final(self)@.len(),
            final(self).active() == old(self).active(),
            !old(self)@.contains_key(id) ==> r == BufferUse::Recycle && final(self)@ == old(self)@,
            old(self)@.contains_key(id) && old(self)@[id] != buffer_channels ==> {
                &&& r == BufferUse::ResetChannels(buffer_channels)
                &&& final(self)@ == old(self)@.insert(id, buffer_channels)
            },
            old(self)@.contains_key(id) && old(self)@[id] == buffer_channels ==> {
                &&& r == BufferUse::Analyse
                &&& final(self)@ == old(self)@
            },
    {
        match fx_get(&self.sounds, &id) {
            None => BufferUse::Recycle,
            Some(channels) => {
                if *channels != buffer_channels {
                    fx_insert(&mut self.sounds, id, buffer_channels);
                    proof {
                        assert(self.sounds@.dom() =~= old(self).sounds@.dom());
                    }
                    BufferUse::ResetChannels(buffer_channels)
                } else {
                    BufferUse::Analyse
                }
            },
        }
    }

    /// The number of sounds under analysis.
    pub fn num_sounds(&self) -> (r: usize)
        requires
            self.wf(),
        ensures
            r == self@.len(),
    {
        fx_len(&self.sounds)
    }

    /// The number of buffers in circulation.
    pub fn num_active_sound_buffers(&self) -> (r: usize)
        ensures
            r == self.active(),
    {
        self.num_active_sound_buffers
    }
}


/// The speaker's channel lies within a buffer of `channels` channels.
pub open spec fn in_buffer(speaker: (u64, usize), channels: usize) -> bool {
    speaker.1 < channels
}

/// Of the speakers given with their channels, in their order, those whose levels are detected
/// from an output buffer of `channels` channels: those whose channel lies within the buffer.
pub fn speakers_in_buffer(speakers: &[(u64, usize)], channels: usize) -> (r: Vec<(u64, usize)>)
    ensures
        r@ == speakers@.filter(|s: (u64, usize)| in_buffer(s, channels)),
{
    let ghost pred = |s: (u64, usize)| in_buffer(s, channels);
    let mut r: Vec<(u64, usize)> = Vec::new();
    let mut i: usize = 0;
    proof {
        reveal(Seq::filter);
        assert(speakers@.subrange(0, 0) =~= Seq::<(u64, usize)>::empty());
        assert(Seq::<(u64, usize)>::empty().filter(pred) =~= Seq::<(u64, usize)>::empty());
    }
    while i < speakers.len()
        invariant
            i <= speakers@.len(),
            pred == (|s: (u64, usize)| in_buffer(s, channels)),
            r@ == speakers@.subrange(0, i as int).filter(pred),
        decreases speakers@.len() - i,
    {
        let s = speakers[i];
        proof {
            assert(speakers@.subrange(0, i as int + 1) =~= speakers@.subrange(0, i as int).push(s));
            speakers@.subrange(0, i as int).lemma_filter_push(s, pred);
        }
        if s.1 < channels {
            r.push(s);
        }
        i = i + 1;
    }
    proof {
        assert(speakers@.subrange(0, speakers@.len() as int) =~= speakers@);
    }
    r
}

/// The installation is known and has a computer to which its analysis is sent.
pub open spec fn has_computers(computers: Map<usize, usize>, id: installation::Id) -> bool {
    computers.contains_key(id.0) && computers[id.0] > 0
}

/// The installations under analysis by id, with the number of computers assigned to each.
pub struct InstallationComputers {
    computers: FxHashMap<usize, usize>,
}

impl InstallationComputers {
    /// The map is finite.
    #[verifier::type_invariant]
    spec fn inv(self) -> bool {
        self.computers@.dom().finite()
    }

    /// The number of computers by installation id.
    pub closed spec fn view(&self) -> Map<usize, usize> {
        self.computers@
    }

    /// No installations.
    pub fn new() -> (r: Self)
        ensures
            r@ == Map::<usize, usize>::empty(),
    {
        let r = InstallationComputers { computers: fx_new() };
        proof {
            assert(r.computers@ =~= Map::<usize, usize>::empty());
        }
        r
    }

    /// Start analysing the installation, or update its number of computers if it is already
    /// under analysis. Returns `true` if the installation did not yet exist.
    pub fn add_installation(&mut self, id: installation::Id, computers: usize) -> (added: bool)
        ensures
            final(self)@ == old(self)@.insert(id.0, computers),
            added == !old(self)@.contains_key(id.0),
    {
        proof { use_type_invariant(&*self); }
        let mut map = fx_new();
        std::mem::swap(&mut map, &mut self.computers);
        let replaced = fx_insert(&mut map, id.0, computers);
        self.computers = map;
        replaced.is_none()
    }

    /// Stop analysing the installation. Returns `true` if it was under analysis.
    pub fn remove_installation(&mut self, id: installation::Id) -> (removed: bool)
        ensures
            final(self)@ == old(self)@.remove(id.0),
            removed == old(self)@.contains_key(id.0),
    {
        proof { use_type_invariant(&*self); }
        let mut map = fx_new();
        std::mem::swap(&mut map, &mut self.computers);
        let taken = fx_remove(&mut map, &id.0);
        self.computers = map;
        taken.is_some()
    }

    /// Forget every installation, as the project changes.
    pub fn clear(&mut self)
        ensures
            final(self)@ == Map::<usize, usize>::empty(),
    {
        let mut map = fx_new();
        std::mem::swap(&mut map, &mut self.computers);
        fx_clear(&mut map);
        self.computers = map;
        proof {
            assert(self.computers@ =~= Map::<usize, usize>::empty());
        }
    }

    /// The number of computers of the installation, if it is under analysis.
    pub fn computers(&self, id: installation::Id) -> (r: Option<usize>)
        ensures
            r == (if self@.contains_key(id.0) { Some(self@[id.0]) } else { None }),
    {
        match fx_get(&self.computers, &id.0) {
            Some(n) => Some(*n),
            None => None,
        }
    }

    /// Of the installations assigned to a speaker, in their order, those onto which the speaker's
    /// analysis and samples are summed: those under analysis that have computers.
    pub fn speaker_targets(&self, speaker_installations: &[installation::Id]) -> (r: Vec<installation::Id>)
        ensures
            r@ == speaker_installations@.filter(|id: installation::Id| has_computers(self@, id)),
    {
        let ghost pred = |id: installation::Id| has_computers(self@, id);
        let mut r: Vec<installation::Id> = Vec::new();
        let mut i: usize = 0;
        proof {
            reveal(Seq::filter);
            assert(speaker_installations@.subrange(0, 0) =~= Seq::<installation::Id>::empty());
            assert(Seq::<installation::Id>::empty().filter(pred) =~= Seq::<installation::Id>::empty());
        }
        while i < speaker_installations.len()
            invariant
                i <= speaker_installations@.len(),
                pred == (|id: installation::Id| has_computers(self@, id)),
                r@ == speaker_installations@.subrange(0, i as int).filter(pred),
            decreases speaker_installations@.len() - i,
        {
            let id = speaker_installations[i];
            let keep = match fx_get(&self.computers, &id.0) {
                Some(n) => *n > 0,
                None => false,
            };
            proof {
                assert(keep == pred(id));
                let t = speaker_installations@.subrange(0, i as int + 1);
                assert(t =~= speaker_installations@.subrange(0, i as int).push(id));
                speaker_installations@.subrange(0, i as int).lemma_filter_push(id, pred);
            }
            if keep {
                r.push(id);
            }
            i = i + 1;
        }
        proof {
            assert(speaker_installations@.subrange(0, speaker_installations@.len() as int) =~= speaker_installations@);
        }
        r
    }

    /// The installations whose collected samples are analysed and sent on: with no speakers,
    /// none; otherwise each under analysis that has computers, once (in no stated order).
    pub fn analysed(&self, has_speakers: bool) -> (r: Vec<installation::Id>)
        ensures
            r@.no_duplicates(),
            forall|id: installation::Id| r@.contains(id) <==> has_speakers && #[trigger] has_computers(self@, id),
    {
        proof { use_type_invariant(self); }
        let mut r: Vec<installation::Id> = Vec::new();
        if !has_speakers {
            return r;
        }
        let ids = fx_keys(&self.computers);
        let mut i: usize = 0;
        while i < ids.len()
            invariant
                i <= ids@.len(),
                has_speakers,
                ids@.to_set() == self.computers@.dom(),
                ids@.no_duplicates(),
                r@.no_duplicates(),
                forall|id: installation::Id| r@.contains(id) <==> (exists|j: int| 0 <= j < i && #[trigger] ids@[j] == id.0)
                    && has_computers(self.computers@, id),
            decreases ids@.len() - i,
        {
            let key = ids[i];
            proof {
                assert(ids@.to_set().contains(key));
            }
            let n = *fx_get(&self.computers, &key).unwrap();
            let keep = n > 0;
            let ghost old_r = r@;
            if keep {
                proof {
                    assert(!r@.contains(installation::Id(key))) by {
                        if r@.contains(installation::Id(key)) {
                            let j = choose|j: int| 0 <= j < i && #[trigger] ids@[j] == key;
                            assert(ids@[j] == ids@[i as int]);
                        }
                    }
                }
                r.push(installation::Id(key));
            }
            proof {
                broadcast use vstd::seq_lib::group_seq_properties;
                assert forall|id: installation::Id| r@.contains(id) <==> (exists|j: int| 0 <= j < i + 1 && #[trigger] ids@[j] == id.0)
                    && has_computers(self.computers@, id) by {
                    assert(r@.contains(id) <==> old_r.contains(id) || (keep && id == installation::Id(key)));
                    assert((exists|j: int| 0 <= j < i + 1 && #[trigger] ids@[j] == id.0)
                        <==> (exists|j: int| 0 <= j < i && #[trigger] ids@[j] == id.0) || ids@[i as int] == id.0) by {
                        if exists|j: int| 0 <= j < i + 1 && #[trigger] ids@[j] == id.0 {
                            let j = choose|j: int| 0 <= j < i + 1 && #[trigger] ids@[j] == id.0;
                            if j < i {
                                assert(exists|j2: int| 0 <= j2 < i && #[trigger] ids@[j2] == id.0);
                            }
                        }
                        if exists|j: int| 0 <= j < i && #[trigger] ids@[j] == id.0 {
                            let j = choose|j: int| 0 <= j < i && #[trigger] ids@[j] == id.0;
                            assert(0 <= j < i + 1 && ids@[j] == id.0);
                        }
                        if ids@[i as int] == id.0 {
                            assert(0 <= i < i + 1 && ids@[i as int] == id.0);
                        }
                    }
                }
            }
            i = i + 1;
        }
        proof {
            assert forall|id: installation::Id| #[trigger] has_computers(self@, id) implies r@.contains(id) by {
                assert(ids@.to_set().contains(id.0));
                let j = choose|j: int| 0 <= j < ids@.len() && ids@[j] == id.0;
                assert(exists|j2: int| 0 <= j2 < ids@.len() && #[trigger] ids@[j2] == id.0);
            }
        }
        r
    }
}

} // verus!
