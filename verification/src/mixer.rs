//! The bookkeeping of the audio output thread: the speakers it renders to, the sounds it plays,
//! and which installations each of them serves.
//!
//! The rendering itself (positions, gains and mixing of samples) is not part of this bookkeeping:
//! it reads the channels and installations kept here.

use crate::installation;
use crate::source;
use crate::speaker::Installations;
use crate::detection::InstallationComputers;
use crate::fx::{fx_clear, fx_get, fx_insert, fx_keys, fx_len, fx_new, fx_remove};
use fxhash::FxHashMap;
use vstd::prelude::*;

verus! {

broadcast use vstd::std_specs::hash::group_hash_axioms;

/// What the output thread keeps of a speaker.
#[derive(Clone, Debug)]
pub struct SpeakerEntry {
    /// The channel on which the output is rendered.
    pub channel: usize,
    /// The installations assigned to this speaker, as a set.
    pub installations: Vec<installation::Id>,
}

/// What the output thread keeps of a sound.
#[derive(Clone, Debug)]
pub struct SoundEntry {
    /// The source from which the sound was spawned.
    pub source_id: source::Id,
    /// The number of channels of the sound.
    pub channels: usize,
    /// The installations in which the sound may be played.
    pub installations: Installations,
}

/// The installations of a list, as a set.
pub open spec fn installation_set(v: Seq<installation::Id>) -> Set<installation::Id> {
    v.to_set()
}

/// Whether an installation is another one than `inst`.
pub open spec fn other_than(inst: installation::Id) -> spec_fn(installation::Id) -> bool {
    |x: installation::Id| x != inst
}

/// The list without the given installation.
pub open spec fn without(v: Seq<installation::Id>, inst: installation::Id) -> Seq<installation::Id> {
    v.filter(other_than(inst))
}

/// Removing an installation from a list removes it from the list's set.
pub proof fn lemma_without_set(v: Seq<installation::Id>, inst: installation::Id)
    ensures
        installation_set(without(v, inst)) == installation_set(v).remove(inst),
{
    let pred = other_than(inst);
    assert forall|x: installation::Id| #[trigger] installation_set(without(v, inst)).contains(x) <==> installation_set(v).remove(inst).contains(x) by {
        if installation_set(without(v, inst)).contains(x) {
            let i = choose|i: int| 0 <= i < v.filter(pred).len() && v.filter(pred)[i] == x;
            v.lemma_filter_pred(pred, i);
            v.lemma_filter_contains_rev(pred, x);
        }
        if installation_set(v).remove(inst).contains(x) {
            let i = choose|i: int| 0 <= i < v.len() && v[i] == x;
            v.lemma_filter_contains(pred, i);
        }
    }
    assert(installation_set(without(v, inst)) =~= installation_set(v).remove(inst));
}

/// The list without the given installation.
fn remove_from(v: &Vec<installation::Id>, inst: installation::Id) -> (r: Vec<installation::Id>)
    ensures
        r@ == without(v@, inst),
{
    let ghost pred = other_than(inst);
    let mut r: Vec<installation::Id> = Vec::new();
    let mut i: usize = 0;
    proof {
        reveal(Seq::filter);
        assert(v@.subrange(0, 0) =~= Seq::<installation::Id>::empty());
        assert(Seq::<installation::Id>::empty().filter(pred) =~= Seq::<installation::Id>::empty());
    }
    while i < v.len()
        invariant
            i <= v@.len(),
            pred == other_than(inst),
            r@ == v@.subrange(0, i as int).filter(pred),
        decreases v@.len() - i,
    {
        let x = v[i];
        proof {
            let t = v@.subrange(0, i as int + 1);
            assert(t =~= v@.subrange(0, i as int).push(x));
            v@.subrange(0, i as int).lemma_filter_push(x, pred);
        }
        if x.0 != inst.0 {
            r.push(x);
        }
        i = i + 1;
    }
    proof {
        assert(v@.subrange(0, v@.len() as int) =~= v@);
    }
    r
}

/// Whether the list holds the installation.
fn holds(v: &Vec<installation::Id>, inst: installation::Id) -> (r: bool)
    ensures
        r == installation_set(v@).contains(inst),
{
    let mut i: usize = 0;
    while i < v.len()
        invariant
            i <= v@.len(),
            forall|k: int| 0 <= k < i ==> #[trigger] v@[k] != inst,
        decreases v@.len() - i,
    {
        if v[i].0 == inst.0 {
            proof {
                assert(v@[i as int] == inst);
            }
            return true;
        }
        i = i + 1;
    }
    false
}

/// How a sound takes part in the rendering of one output buffer.
#[derive(Copy, Clone, Debug, PartialEq, Eq)]
pub enum RenderMode {
    /// The sound is paused: nothing is requested of its signal.
    Skip,
    /// This many samples are pulled from the sound's signal, to keep it moving, and not
    /// rendered: there are no speakers, the sound is muted or other sources are soloed.
    PullOnly(usize),
    /// This many samples are pulled from the sound's signal, scaled by its volume and mixed
    /// onto the speakers.
    Render(usize),
}

/// A playing sound is not heard: there are no speakers, it is muted, or some sources are
/// soloed and its source is not one of them.
pub open spec fn silenced(speakers: Map<u64, SpeakerEntry>, soloed: Seq<source::Id>, source_id: source::Id, muted: bool) -> bool {
    speakers.len() == 0 || muted || (soloed.len() > 0 && !soloed.contains(source_id))
}

/// How the sound takes part in the rendering of a buffer of `frames` frames: the samples
/// requested are the frames times the sound's channels.
pub open spec fn spec_render_mode(
    speakers: Map<u64, SpeakerEntry>,
    soloed: Seq<source::Id>,
    sound: SoundEntry,
    playing: bool,
    muted: bool,
    frames: nat,
) -> RenderMode {
    let samples = (frames * sound.channels) as usize;
    if !playing {
        RenderMode::Skip
    } else if silenced(speakers, soloed, sound.source_id, muted) {
        RenderMode::PullOnly(samples)
    } else {
        RenderMode::Render(samples)
    }
}

/// A paused sound is skipped whatever else holds; a playing sound is pulled for its frames
/// times its channels, and rendered exactly when there are speakers, it is not muted and it is
/// not kept silent by the soloing of other sources.
pub proof fn lemma_render_mode_decides(
    speakers: Map<u64, SpeakerEntry>,
    soloed: Seq<source::Id>,
    sound: SoundEntry,
    playing: bool,
    muted: bool,
    frames: nat,
)
    ensures
        !playing ==> spec_render_mode(speakers, soloed, sound, playing, muted, frames) == RenderMode::Skip,
        playing ==> (spec_render_mode(speakers, soloed, sound, playing, muted, frames)
            == RenderMode::PullOnly((frames * sound.channels) as usize)
            || spec_render_mode(speakers, soloed, sound, playing, muted, frames)
            == RenderMode::Render((frames * sound.channels) as usize)),
        playing ==> (spec_render_mode(speakers, soloed, sound, playing, muted, frames) is Render
            <==> (speakers.len() > 0 && !muted && (soloed.len() == 0 || soloed.contains(sound.source_id)))),
{
}

/// Whether a sound is exhausted after its signal yielded `yielded` samples for a buffer: it
/// yielded fewer than were requested.
pub fn is_exhausted(mode: RenderMode, yielded: usize) -> (r: bool)
    ensures
        r == match mode {
            RenderMode::Skip => false,
            RenderMode::PullOnly(n) => yielded < n,
            RenderMode::Render(n) => yielded < n,
        },
{
    match mode {
        RenderMode::Skip => false,
        RenderMode::PullOnly(n) => yielded < n,
        RenderMode::Render(n) => yielded < n,
    }
}

/// The frame count after a buffer of `frames` frames was rendered: it wraps around, as the
/// shared atomic counter does.
pub fn advance_frame_count(count: usize, frames: usize) -> (r: usize)
    ensures
        r == (count + frames) % (usize::MAX as int + 1),
{
    let r = count.wrapping_add(frames);
    proof {
        if count + frames <= usize::MAX {
            assert((count + frames) % (usize::MAX as int + 1) == count + frames) by (nonlinear_arith)
                requires count + frames <= usize::MAX, count + frames >= 0;
        } else {
            assert((count + frames) % (usize::MAX as int + 1) == count + frames - (usize::MAX as int + 1)) by (nonlinear_arith)
                requires count + frames > usize::MAX, count + frames <= 2 * usize::MAX as int;
        }
    }
    r
}

/// Whether the list holds the source.
fn contains_source(soloed: &[source::Id], source_id: source::Id) -> (r: bool)
    ensures
        r == soloed@.contains(source_id),
{
    let mut i: usize = 0;
    while i < soloed.len()
        invariant
            i <= soloed@.len(),
            forall|j: int| 0 <= j < i ==> soloed@[j] != source_id,
        decreases soloed@.len() - i,
    {
        if soloed[i].0 == source_id.0 {
            proof {
                assert(soloed@[i as int] == source_id);
            }
            return true;
        }
        i = i + 1;
    }
    false
}

/// The speakers and sounds of the audio output thread.
pub struct Mixer {
    speakers: FxHashMap<u64, SpeakerEntry>,
    sounds: FxHashMap<u64, SoundEntry>,
    /// The installations of the project, with the number of computers of each, as handed on
    /// to the detection thread.
    installations: InstallationComputers,
}

impl Mixer {
    /// Both maps are finite.
    #[verifier::type_invariant]
    spec fn inv(self) -> bool {
        self.speakers@.dom().finite() && self.sounds@.dom().finite()
    }

    /// Insert into the map of speakers.
    fn put_speaker(&mut self, id: u64, speaker: SpeakerEntry) -> (r: Option<SpeakerEntry>)
        ensures
            final(self).speakers() == old(self).speakers().insert(id, speaker),
            final(self).sounds() == old(self).sounds(),
            r == (if old(self).speakers().contains_key(id) { Some(old(self).speakers()[id]) } else { None }),
            final(self).installations == old(self).installations,
    {
        proof { use_type_invariant(&*self); }
        let mut speakers = fx_new();
        std::mem::swap(&mut speakers, &mut self.speakers);
        let r = fx_insert(&mut speakers, id, speaker);
        self.speakers = speakers;
        r
    }

    /// Remove from the map of speakers.
    fn take_speaker(&mut self, id: u64) -> (r: Option<SpeakerEntry>)
        ensures
            final(self).speakers() == old(self).speakers().remove(id),
            final(self).sounds() == old(self).sounds(),
            r == (if old(self).speakers().contains_key(id) { Some(old(self).speakers()[id]) } else { None }),
            final(self).installations == old(self).installations,
    {
        proof { use_type_invariant(&*self); }
        let mut speakers = fx_new();
        std::mem::swap(&mut speakers, &mut self.speakers);
        let r = fx_remove(&mut speakers, &id);
        self.speakers = speakers;
        r
    }

    /// Insert into the map of sounds.
    fn put_sound(&mut self, id: u64, sound: SoundEntry) -> (r: Option<SoundEntry>)
        ensures
            final(self).sounds() == old(self).sounds().insert(id, sound),
            final(self).speakers() == old(self).speakers(),
            r == (if old(self).sounds().contains_key(id) { Some(old(self).sounds()[id]) } else { None }),
            final(self).installations == old(self).installations,
    {
        proof { use_type_invariant(&*self); }
        let mut sounds = fx_new();
        std::mem::swap(&mut sounds, &mut self.sounds);
        let r = fx_insert(&mut sounds, id, sound);
        self.sounds = sounds;
        r
    }

    /// Remove from the map of sounds.
    fn take_sound(&mut self, id: u64) -> (r: Option<SoundEntry>)
        ensures
            final(self).sounds() == old(self).sounds().remove(id),
            final(self).speakers() == old(self).speakers(),
            r == (if old(self).sounds().contains_key(id) { Some(old(self).sounds()[id]) } else { None }),
            final(self).installations == old(self).installations,
    {
        proof { use_type_invariant(&*self); }
        let mut sounds = fx_new();
        std::mem::swap(&mut sounds, &mut self.sounds);
        let r = fx_remove(&mut sounds, &id);
        self.sounds = sounds;
        r
    }

    /// The speakers by id.
    pub closed spec fn speakers(&self) -> Map<u64, SpeakerEntry> {
        self.speakers@
    }

    /// The sounds by id.
    pub closed spec fn sounds(&self) -> Map<u64, SoundEntry> {
        self.sounds@
    }

    /// The installations of the project by id, with the number of computers of each.
    pub closed spec fn installations(&self) -> Map<usize, usize> {
        self.installations@
    }

    /// Insert an installation with the given number of computers, for the detection thread.
    ///
    /// Returns `true` if the installation did not yet exist or `false` otherwise.
    pub fn insert_installation(&mut self, id: installation::Id, computers: usize) -> (added: bool)
        ensures
            final(self).installations() == old(self).installations().insert(id.0, computers),
            added == !old(self).installations().contains_key(id.0),
            final(self).speakers() == old(self).speakers(),
            final(self).sounds() == old(self).sounds(),
    {
        proof { use_type_invariant(&*self); }
        let mut installations = InstallationComputers::new();
        std::mem::swap(&mut installations, &mut self.installations);
        let added = installations.add_installation(id, computers);
        self.installations = installations;
        added
    }

    /// The installations of the project and their computers, as the detection thread keeps
    /// them.
    pub fn installation_computers(&self) -> (r: &InstallationComputers)
        ensures
            r@ == self.installations(),
    {
        &self.installations
    }

    /// No speakers and no sounds.
    pub fn new() -> (r: Self)
        ensures
            r.installations() == Map::<usize, usize>::empty(),
            r.speakers() == Map::<u64, SpeakerEntry>::empty(),
            r.sounds() == Map::<u64, SoundEntry>::empty(),
    {
        let r = Mixer { speakers: fx_new(), sounds: fx_new(), installations: InstallationComputers::new() };
        proof {
            assert(r.speakers@ =~= Map::<u64, SpeakerEntry>::empty());
            assert(r.sounds@ =~= Map::<u64, SoundEntry>::empty());
        }
        r
    }

    /// Insert the speaker, returning the one it replaces, if any.
    pub fn insert_speaker(&mut self, id: u64, speaker: SpeakerEntry) -> (r: Option<SpeakerEntry>)
        ensures
            final(self).installations() == old(self).installations(),
            final(self).speakers() == old(self).speakers().insert(id, speaker),
            final(self).sounds() == old(self).sounds(),
            r == (if old(self).speakers().contains_key(id) { Some(old(self).speakers()[id]) } else { None }),
    {
        self.put_speaker(id, speaker)
    }

    /// Remove the speaker, returning it if it was present.
    pub fn remove_speaker(&mut self, id: u64) -> (r: Option<SpeakerEntry>)
        ensures
            final(self).installations() == old(self).installations(),
            final(self).speakers() == old(self).speakers().remove(id),
            final(self).sounds() == old(self).sounds(),
            r == (if old(self).speakers().contains_key(id) { Some(old(self).speakers()[id]) } else { None }),
    {
        self.take_speaker(id)
    }

    /// The speaker with the given id, if present.
    pub fn speaker(&self, id: u64) -> (r: Option<&SpeakerEntry>)
        ensures
            r == (if self.speakers().contains_key(id) { Some(&self.speakers()[id]) } else { None }),
    {
        fx_get(&self.speakers, &id)
    }

    /// Assign the installation to the speaker with the given id.
    ///
    /// Returns `true` if the speaker exists and did not yet serve the installation.
    pub fn insert_speaker_installation(&mut self, id: u64, inst: installation::Id) -> (r: bool)
        ensures
            final(self).installations() == old(self).installations(),
            final(self).sounds() == old(self).sounds(),
            final(self).speakers().dom() == old(self).speakers().dom(),
            r == (old(self).speakers().contains_key(id)
                && !installation_set(old(self).speakers()[id].installations@).contains(inst)),
            forall|k: u64| #[trigger] final(self).speakers().contains_key(k) && k != id
                ==> final(self).speakers()[k] == old(self).speakers()[k],
            old(self).speakers().contains_key(id) ==> {
                &&& final(self).speakers()[id].channel == old(self).speakers()[id].channel
                &&& installation_set(final(self).speakers()[id].installations@)
                    == installation_set(old(self).speakers()[id].installations@).insert(inst)
            },
    {
        match self.take_speaker(id) {
            None => false,
            Some(mut entry) => {
                let present = holds(&entry.installations, inst);
                if !present {
                    let ghost before = entry.installations@;
                    entry.installations.push(inst);
                    proof {
                        Seq::<installation::Id>::lemma_to_set_insert_commutes(before, inst);
                        assert(entry.installations@ =~= before + seq![inst]);
                    }
                } else {
                    proof {
                        assert(installation_set(entry.installations@).insert(inst) =~= installation_set(entry.installations@));
                    }
                }
                self.put_speaker(id, entry);
                proof {
                    assert(self.speakers@.dom() =~= old(self).speakers@.dom());
                }
                !present
            },
        }
    }

    /// Withdraw the installation from the speaker with the given id.
    ///
    /// Returns `true` if the speaker exists and served the installation.
    pub fn remove_speaker_installation(&mut self, id: u64, inst: installation::Id) -> (r: bool)
        ensures
            final(self).installations() == old(self).installations(),
            final(self).sounds() == old(self).sounds(),
            final(self).speakers().dom() == old(self).speakers().dom(),
            r == (old(self).speakers().contains_key(id)
                && installation_set(old(self).speakers()[id].installations@).contains(inst)),
            forall|k: u64| #[trigger] final(self).speakers().contains_key(k) && k != id
                ==> final(self).speakers()[k] == old(self).speakers()[k],
            old(self).speakers().contains_key(id) ==> {
                &&& final(self).speakers()[id].channel == old(self).speakers()[id].channel
                &&& installation_set(final(self).speakers()[id].installations@)
                    == installation_set(old(self).speakers()[id].installations@).remove(inst)
            },
    {
        match self.take_speaker(id) {
            None => false,
            Some(entry) => {
                let present = holds(&entry.installations, inst);
                let installations = remove_from(&entry.installations, inst);
                proof {
                    lemma_without_set(entry.installations@, inst);
                }
                self.put_speaker(id, SpeakerEntry { channel: entry.channel, installations });
                proof {
                    assert(self.speakers@.dom() =~= old(self).speakers@.dom());
                }
                present
            },
        }
    }

    /// Remove the installation: from the installations handed on to the detection thread, and
    /// from every speaker and every sound that was assigned it.
    ///
    /// Returns `true` if the installation existed, `false` if there was none.
    pub fn remove_installation(&mut self, inst: installation::Id) -> (found: bool)
        ensures
            found == old(self).installations().contains_key(inst.0),
            final(self).installations() == old(self).installations().remove(inst.0),
            final(self).speakers().dom() == old(self).speakers().dom(),
            final(self).sounds().dom() == old(self).sounds().dom(),
            forall|k: u64| #[trigger] old(self).speakers().contains_key(k) ==> {
                &&& final(self).speakers()[k].channel == old(self).speakers()[k].channel
                &&& final(self).speakers()[k].installations@ == without(old(self).speakers()[k].installations@, inst)
            },
            forall|k: u64| #[trigger] old(self).sounds().contains_key(k) ==> {
                let before = old(self).sounds()[k];
                let after = final(self).sounds()[k];
                &&& after.source_id == before.source_id
                &&& after.channels == before.channels
                &&& match before.installations {
                    Installations::All => after.installations == Installations::All,
                    Installations::Selected(v) => after.installations matches Installations::Selected(w)
                        && w@ == without(v@, inst),
                }
            },
    {
        let speaker_ids = fx_keys(&self.speakers);
        let ghost old_speakers = self.speakers@;
        let mut i: usize = 0;
        while i < speaker_ids.len()
            invariant
                i <= speaker_ids@.len(),
                speaker_ids@.to_set() == old_speakers.dom(),
                speaker_ids@.no_duplicates(),
                self.speakers@.dom() == old_speakers.dom(),
                self.sounds@ == old(self).sounds@,
                self.installations == old(self).installations,
                old_speakers == old(self).speakers@,
                forall|k: u64| #[trigger] old_speakers.contains_key(k) ==> {
                    let done = exists|j: int| 0 <= j < i && speaker_ids@[j] == k;
                    &&& self.speakers@[k].channel == old_speakers[k].channel
                    &&& done ==> self.speakers@[k].installations@ == without(old_speakers[k].installations@, inst)
                    &&& !done ==> self.speakers@[k] == old_speakers[k]
                },
            decreases speaker_ids@.len() - i,
        {
            let id = speaker_ids[i];
            proof {
                assert(speaker_ids@.to_set().contains(id));
            }
            let entry = self.take_speaker(id).unwrap();
            proof {
                assert(entry == old_speakers[speaker_ids@[i as int]]);
            }
            let installations = remove_from(&entry.installations, inst);
            self.put_speaker(id, SpeakerEntry { channel: entry.channel, installations });
            proof {
                assert(self.speakers@.dom() =~= old_speakers.dom());
                assert forall|k: u64| #[trigger] old_speakers.contains_key(k) implies {
                    let done = exists|j: int| 0 <= j < i + 1 && speaker_ids@[j] == k;
                    &&& self.speakers@[k].channel == old_speakers[k].channel
                    &&& done ==> self.speakers@[k].installations@ == without(old_speakers[k].installations@, inst)
                    &&& !done ==> self.speakers@[k] == old_speakers[k]
                } by {
                    if k == id {
                        assert(speaker_ids@[i as int] == k);
                        assert(!(exists|j: int| 0 <= j < i && speaker_ids@[j] == k));
                    } else {
                        if exists|j: int| 0 <= j < i + 1 && speaker_ids@[j] == k {
                            let j = choose|j: int| 0 <= j < i + 1 && speaker_ids@[j] == k;
                            assert(j != i);
                        }
                    }
                }
            }
            i = i + 1;
        }
        proof {
            assert forall|k: u64| #[trigger] old_speakers.contains_key(k) implies exists|j: int| 0 <= j < speaker_ids@.len() && speaker_ids@[j] == k by {
                assert(speaker_ids@.to_set().contains(k));
            }
        }
        let sound_ids = fx_keys(&self.sounds);
        let ghost old_sounds = self.sounds@;
        let ghost new_speakers = self.speakers@;
        let mut i: usize = 0;
        while i < sound_ids.len()
            invariant
                i <= sound_ids@.len(),
                sound_ids@.to_set() == old_sounds.dom(),
                sound_ids@.no_duplicates(),
                self.sounds@.dom() == old_sounds.dom(),
                self.speakers@ == new_speakers,
                self.installations == old(self).installations,
                old_sounds == old(self).sounds@,
                forall|k: u64| #[trigger] old_sounds.contains_key(k) ==> {
                    let done = exists|j: int| 0 <= j < i && sound_ids@[j] == k;
                    let before = old_sounds[k];
                    let after = self.sounds@[k];
                    &&& done ==> {
                        &&& after.source_id == before.source_id
                        &&& after.channels == before.channels
                        &&& match before.installations {
                            Installations::All => after.installations == Installations::All,
                            Installations::Selected(v) => after.installations matches Installations::Selected(w)
                                && w@ == without(v@, inst),
                        }
                    }
                    &&& !done ==> after == before
                },
            decreases sound_ids@.len() - i,
        {
            let id = sound_ids[i];
            proof {
                assert(sound_ids@.to_set().contains(id));
            }
            let entry = self.take_sound(id).unwrap();
            proof {
                assert(entry == old_sounds[sound_ids@[i as int]]);
            }
            let installations = match &entry.installations {
                Installations::All => Installations::All,
                Installations::Selected(v) => Installations::Selected(remove_from(v, inst)),
            };
            self.put_sound(id, SoundEntry { source_id: entry.source_id, channels: entry.channels, installations });
            proof {
                assert(self.sounds@.dom() =~= old_sounds.dom());
                assert forall|k: u64| #[trigger] old_sounds.contains_key(k) implies {
                    let done = exists|j: int| 0 <= j < i + 1 && sound_ids@[j] == k;
                    let before = old_sounds[k];
                    let after = self.sounds@[k];
                    &&& done ==> {
                        &&& after.source_id == before.source_id
                        &&& after.channels == before.channels
                        &&& match before.installations {
                            Installations::All => after.installations == Installations::All,
                            Installations::Selected(v) => after.installations matches Installations::Selected(w)
                                && w@ == without(v@, inst),
                        }
                    }
                    &&& !done ==> after == before
                } by {
                    if k == id {
                        assert(sound_ids@[i as int] == k);
                        assert(!(exists|j: int| 0 <= j < i && sound_ids@[j] == k));
                    } else {
                        if exists|j: int| 0 <= j < i + 1 && sound_ids@[j] == k {
                            let j = choose|j: int| 0 <= j < i + 1 && sound_ids@[j] == k;
                            assert(j != i);
                        }
                    }
                }
            }
            i = i + 1;
        }
        proof {
            assert forall|k: u64| #[trigger] old_sounds.contains_key(k) implies exists|j: int| 0 <= j < sound_ids@.len() && sound_ids@[j] == k by {
                assert(sound_ids@.to_set().contains(k));
            }
        }
        let mut installations = InstallationComputers::new();
        std::mem::swap(&mut installations, &mut self.installations);
        let found = installations.remove_installation(inst);
        self.installations = installations;
        found
    }

    /// Insert the sound, returning the one it replaces, if any.
    pub fn insert_sound(&mut self, id: u64, sound: SoundEntry) -> (r: Option<SoundEntry>)
        ensures
            final(self).installations() == old(self).installations(),
            final(self).sounds() == old(self).sounds().insert(id, sound),
            final(self).speakers() == old(self).speakers(),
            r == (if old(self).sounds().contains_key(id) { Some(old(self).sounds()[id]) } else { None }),
    {
        self.put_sound(id, sound)
    }

    /// Remove the sound, returning it if it was present.
    pub fn remove_sound(&mut self, id: u64) -> (r: Option<SoundEntry>)
        ensures
            final(self).installations() == old(self).installations(),
            final(self).sounds() == old(self).sounds().remove(id),
            final(self).speakers() == old(self).speakers(),
            r == (if old(self).sounds().contains_key(id) { Some(old(self).sounds()[id]) } else { None }),
    {
        self.take_sound(id)
    }

    /// The sound with the given id, if present.
    pub fn sound(&self, id: u64) -> (r: Option<&SoundEntry>)
        ensures
            r == (if self.sounds().contains_key(id) { Some(&self.sounds()[id]) } else { None }),
    {
        fx_get(&self.sounds, &id)
    }

    /// The ids of all sounds spawned from the given source.
    pub fn sounds_with_source(&self, source_id: source::Id) -> (r: Vec<u64>)
        ensures
            r@.no_duplicates(),
            forall|k: u64| r@.contains(k) <==> #[trigger] self.sounds().contains_key(k)
                && self.sounds()[k].source_id == source_id,
    {
        let ids = fx_keys(&self.sounds);
        let mut r: Vec<u64> = Vec::new();
        let mut i: usize = 0;
        while i < ids.len()
            invariant
                i <= ids@.len(),
                ids@.to_set() == self.sounds@.dom(),
                ids@.no_duplicates(),
                r@.no_duplicates(),
                forall|k: u64| r@.contains(k) <==> (exists|j: int| 0 <= j < i && #[trigger] ids@[j] == k)
                    && self.sounds@.contains_key(k) && self.sounds@[k].source_id == source_id,
            decreases ids@.len() - i,
        {
            let id = ids[i];
            proof {
                assert(ids@.to_set().contains(id));
            }
            let entry = fx_get(&self.sounds, &id).unwrap();
            let matched = entry.source_id.0 == source_id.0;
            let ghost old_r = r@;
            if matched {
                proof {
                    assert(!r@.contains(id)) by {
                        if r@.contains(id) {
                            let j = choose|j: int| 0 <= j < i && #[trigger] ids@[j] == id;
                            assert(ids@[j] == ids@[i as int]);
                        }
                    }
                }
                r.push(id);
            }
            proof {
                broadcast use vstd::seq_lib::group_seq_properties;
                assert forall|k: u64| r@.contains(k) <==> (exists|j: int| 0 <= j < i + 1 && #[trigger] ids@[j] == k)
                    && self.sounds@.contains_key(k) && self.sounds@[k].source_id == source_id by {
                    assert(r@.contains(k) <==> old_r.contains(k) || (matched && k == id));
                    assert((exists|j: int| 0 <= j < i + 1 && #[trigger] ids@[j] == k)
                        <==> (exists|j: int| 0 <= j < i && #[trigger] ids@[j] == k) || ids@[i as int] == k) by {
                        if exists|j: int| 0 <= j < i + 1 && #[trigger] ids@[j] == k {
                            let j = choose|j: int| 0 <= j < i + 1 && #[trigger] ids@[j] == k;
                            if j < i {
                                assert(exists|j2: int| 0 <= j2 < i && #[trigger] ids@[j2] == k);
                            }
                        }
                        if exists|j: int| 0 <= j < i && #[trigger] ids@[j] == k {
                            let j = choose|j: int| 0 <= j < i && #[trigger] ids@[j] == k;
                            assert(0 <= j < i + 1 && ids@[j] == k);
                        }
                        if ids@[i as int] == k {
                            assert(0 <= i < i + 1 && ids@[i as int] == k);
                        }
                    }
                }
            }
            i = i + 1;
        }
        proof {
            assert forall|k: u64| #[trigger] self.sounds@.contains_key(k) implies exists|j: int| 0 <= j < ids@.len() && ids@[j] == k by {
                assert(ids@.to_set().contains(k));
            }
        }
        r
    }

    /// Remove every sound spawned from the given source, returning their ids.
    pub fn remove_sounds_with_source(&mut self, source_id: source::Id) -> (r: Vec<u64>)
        ensures
            final(self).installations() == old(self).installations(),
            r@.no_duplicates(),
            forall|k: u64| r@.contains(k) <==> #[trigger] old(self).sounds().contains_key(k)
                && old(self).sounds()[k].source_id == source_id,
            final(self).sounds() == old(self).sounds().remove_keys(r@.to_set()),
            final(self).speakers() == old(self).speakers(),
    {
        let ids = self.sounds_with_source(source_id);
        let mut i: usize = 0;
        while i < ids.len()
            invariant
                i <= ids@.len(),
                self.installations == old(self).installations,
                self.speakers@ == old(self).speakers@,
                self.sounds@ == old(self).sounds@.remove_keys(ids@.take(i as int).to_set()),
            decreases ids@.len() - i,
        {
            let id = ids[i];
            self.take_sound(id);
            proof {
                assert(ids@.take(i as int + 1) =~= ids@.take(i as int) + seq![id]);
                Seq::<u64>::lemma_to_set_insert_commutes(ids@.take(i as int), id);
                assert(self.sounds@ =~= old(self).sounds@.remove_keys(ids@.take(i as int + 1).to_set()));
            }
            i = i + 1;
        }
        proof {
            assert(ids@.take(ids@.len() as int) =~= ids@);
        }
        ids
    }

    /// How the sound with the given id takes part in the rendering of a buffer of `frames`
    /// frames, given whether it is playing and whether it is muted, and the soloed sources.
    pub fn render_mode(&self, soloed: &[source::Id], id: u64, playing: bool, muted: bool, frames: usize) -> (r: RenderMode)
        requires
            self.sounds().contains_key(id),
            frames * self.sounds()[id].channels <= usize::MAX,
        ensures
            r == spec_render_mode(self.speakers(), soloed@, self.sounds()[id], playing, muted, frames as nat),
            // A paused sound is never pulled, whatever its mute, solo and speaker state.
            !playing ==> r == RenderMode::Skip,
            // A playing sound is pulled for the frames times its channels; it is rendered exactly
            // when there are speakers, it is not muted, and no sources or its own are soloed.
            playing ==> (r == RenderMode::PullOnly((frames * self.sounds()[id].channels) as usize)
                || r == RenderMode::Render((frames * self.sounds()[id].channels) as usize)),
            playing ==> (r is Render <==> (self.speakers().len() > 0 && !muted
                && (soloed@.len() == 0 || soloed@.contains(self.sounds()[id].source_id)))),
    {
        proof { use_type_invariant(self); }
        let sound = match fx_get(&self.sounds, &id) {
            Some(sound) => sound,
            None => return RenderMode::Skip,
        };
        let samples = frames * sound.channels;
        if !playing {
            RenderMode::Skip
        } else if fx_len(&self.speakers) == 0 || muted
            || (soloed.len() > 0 && !contains_source(soloed, sound.source_id)) {
            RenderMode::PullOnly(samples)
        } else {
            RenderMode::Render(samples)
        }
    }

    /// The speakers rendered to a buffer of `buffer_channels` channels, each with its channel:
    /// those whose channel lies within the buffer, each once (in no stated order).
    pub fn channels_to_speakers(&self, buffer_channels: usize) -> (r: Vec<(usize, u64)>)
        ensures
            r@.no_duplicates(),
            forall|c: usize, k: u64| #[trigger] r@.contains((c, k)) <==> self.speakers().contains_key(k)
                && self.speakers()[k].channel == c && c < buffer_channels,
    {
        proof { use_type_invariant(self); }
        let ids = fx_keys(&self.speakers);
        let mut r: Vec<(usize, u64)> = Vec::new();
        let mut i: usize = 0;
        while i < ids.len()
            invariant
                i <= ids@.len(),
                ids@.to_set() == self.speakers@.dom(),
                ids@.no_duplicates(),
                r@.no_duplicates(),
                forall|c: usize, k: u64| #[trigger] r@.contains((c, k)) <==> (exists|j: int| 0 <= j < i && ids@[j] == k)
                    && self.speakers@.contains_key(k) && self.speakers@[k].channel == c && c < buffer_channels,
            decreases ids@.len() - i,
        {
            let id = ids[i];
            proof {
                assert(ids@.to_set().contains(id));
            }
            let channel = fx_get(&self.speakers, &id).unwrap().channel;
            let keep = channel < buffer_channels;
            let ghost old_r = r@;
            if keep {
                proof {
                    assert(!r@.contains((channel, id))) by {
                        if r@.contains((channel, id)) {
                            let j = choose|j: int| 0 <= j < i && ids@[j] == id;
                            assert(ids@[j] == ids@[i as int]);
                        }
                    }
                }
                r.push((channel, id));
            }
            proof {
                broadcast use vstd::seq_lib::group_seq_properties;
                assert forall|c: usize, k: u64| #[trigger] r@.contains((c, k)) <==> (exists|j: int| 0 <= j < i + 1 && ids@[j] == k)
                    && self.speakers@.contains_key(k) && self.speakers@[k].channel == c && c < buffer_channels by {
                    assert(r@.contains((c, k)) <==> old_r.contains((c, k)) || (keep && c == channel && k == id));
                    if k != id {
                        assert((exists|j: int| 0 <= j < i + 1 && ids@[j] == k) == (exists|j: int| 0 <= j < i && ids@[j] == k)) by {
                            if exists|j: int| 0 <= j < i + 1 && ids@[j] == k {
                                let j = choose|j: int| 0 <= j < i + 1 && ids@[j] == k;
                                assert(j < i);
                            }
                        }
                    } else {
                        assert(ids@[i as int] == k);
                        assert(!(exists|j: int| 0 <= j < i && ids@[j] == k)) by {
                            if exists|j: int| 0 <= j < i && ids@[j] == k {
                                let j = choose|j: int| 0 <= j < i && ids@[j] == k;
                                assert(ids@[j] == ids@[i as int]);
                            }
                        }
                    }
                }
            }
            i = i + 1;
        }
        proof {
            assert forall|c: usize, k: u64| #[trigger] r@.contains((c, k)) <==> self.speakers().contains_key(k)
                && self.speakers()[k].channel == c && c < buffer_channels by {
                if self.speakers@.contains_key(k) {
                    assert(ids@.to_set().contains(k));
                    let j = choose|j: int| 0 <= j < ids@.len() && ids@[j] == k;
                    assert(exists|j2: int| 0 <= j2 < ids@.len() && ids@[j2] == k);
                }
            }
        }
        r
    }

    /// Remove the sounds exhausted while rendering a buffer, returning them in order so that
    /// the threads can be told of their end.
    pub fn remove_exhausted(&mut self, exhausted: &[u64]) -> (ended: Vec<SoundEntry>)
        requires
            exhausted@.no_duplicates(),
            forall|j: int| 0 <= j < exhausted@.len() ==> old(self).sounds().contains_key(#[trigger] exhausted@[j]),
        ensures
            final(self).sounds() == old(self).sounds().remove_keys(exhausted@.to_set()),
            final(self).speakers() == old(self).speakers(),
            final(self).installations() == old(self).installations(),
            ended@.len() == exhausted@.len(),
            forall|j: int| 0 <= j < exhausted@.len() ==> #[trigger] ended@[j] == old(self).sounds()[exhausted@[j]],
    {
        let mut ended: Vec<SoundEntry> = Vec::new();
        let mut i: usize = 0;
        while i < exhausted.len()
            invariant
                i <= exhausted@.len(),
                exhausted@.no_duplicates(),
                forall|j: int| 0 <= j < exhausted@.len() ==> old(self).sounds().contains_key(#[trigger] exhausted@[j]),
                self.speakers@ == old(self).speakers@,
                self.installations == old(self).installations,
                self.sounds@ == old(self).sounds@.remove_keys(exhausted@.take(i as int).to_set()),
                ended@.len() == i,
                forall|j: int| 0 <= j < i ==> #[trigger] ended@[j] == old(self).sounds@[exhausted@[j]],
            decreases exhausted@.len() - i,
        {
            let id = exhausted[i];
            proof {
                assert(!exhausted@.take(i as int).contains(id)) by {
                    if exhausted@.take(i as int).contains(id) {
                        let j = choose|j: int| 0 <= j < i && exhausted@.take(i as int)[j] == id;
                        assert(exhausted@[j] == exhausted@[i as int]);
                    }
                }
                assert(old(self).sounds@.contains_key(exhausted@[i as int]));
                assert(!exhausted@.take(i as int).to_set().contains(id));
            }
            if let Some(entry) = self.take_sound(id) {
                ended.push(entry);
            }
            proof {
                assert(exhausted@.take(i as int + 1) =~= exhausted@.take(i as int) + seq![id]);
                Seq::<u64>::lemma_to_set_insert_commutes(exhausted@.take(i as int), id);
                assert(self.sounds@ =~= old(self).sounds@.remove_keys(exhausted@.take(i as int + 1).to_set()));
            }
            i = i + 1;
        }
        proof {
            assert(exhausted@.take(exhausted@.len() as int) =~= exhausted@);
        }
        ended
    }

    /// Forget every speaker, sound and installation, as the project changes. Returns the ids of the sounds
    /// that were playing.
    pub fn clear(&mut self) -> (r: Vec<u64>)
        ensures
            final(self).installations() == Map::<usize, usize>::empty(),
            r@.to_set() == old(self).sounds().dom(),
            r@.no_duplicates(),
            final(self).speakers() == Map::<u64, SpeakerEntry>::empty(),
            final(self).sounds() == Map::<u64, SoundEntry>::empty(),
    {
        let ids = fx_keys(&self.sounds);
        let mut speakers = fx_new();
        std::mem::swap(&mut speakers, &mut self.speakers);
        fx_clear(&mut speakers);
        self.speakers = speakers;
        let mut sounds = fx_new();
        std::mem::swap(&mut sounds, &mut self.sounds);
        fx_clear(&mut sounds);
        self.sounds = sounds;
        self.installations = InstallationComputers::new();
        proof {
            assert(self.speakers@ =~= Map::<u64, SpeakerEntry>::empty());
            assert(self.sounds@ =~= Map::<u64, SoundEntry>::empty());
        }
        ids
    }
}

} // verus!
