//! Speakers: their ids, their ordering for display, and their weight in DBAP panning.

use crate::installation;
use vstd::prelude::*;

verus! {

/// A unique identifier for a speaker.
#[derive(Copy, Clone, Debug, PartialEq, Eq, Hash)]
pub struct Id(pub u64);

/// The ids are in ascending order.
pub open spec fn ascending(ids: Seq<Id>) -> bool {
    forall|i: int, j: int| 0 <= i < j < ids.len() ==> (#[trigger] ids[i]).0 <= (#[trigger] ids[j]).0
}

/// Convert the given speaker ids into a list sorted by id, as shown in the speaker editor.
pub fn sorted_speakers_vec(speakers: &[Id]) -> (r: Vec<Id>)
    ensures
        ascending(r@),
        r@.to_multiset() == speakers@.to_multiset(),
        speakers@.no_duplicates() ==> r@.no_duplicates(),
{
    broadcast use vstd::seq_lib::group_to_multiset_ensures;

    let mut out: Vec<Id> = Vec::new();
    let mut i: usize = 0;
    proof {
        assert(speakers@.subrange(0, 0) =~= Seq::<Id>::empty());
    }
    while i < speakers.len()
        invariant
            i <= speakers@.len(),
            ascending(out@),
            out@.to_multiset() == speakers@.subrange(0, i as int).to_multiset(),
        decreases speakers.len() - i,
    {
        let x = speakers[i];
        // The position after every id no greater than `x`.
        let mut pos: usize = 0;
        while pos < out.len() && out[pos].0 <= x.0
            invariant
                pos <= out@.len(),
                ascending(out@),
                forall|k: int| 0 <= k < pos ==> (#[trigger] out@[k]).0 <= x.0,
            decreases out.len() - pos,
        {
            pos = pos + 1;
        }
        let ghost before = out@;
        out.insert(pos, x);
        proof {
            assert(out@ == before.insert(pos as int, x));
            assert forall|a: int, b: int| 0 <= a < b < out@.len() implies (#[trigger] out@[a]).0 <= (#[trigger] out@[b]).0 by {
                if a < pos && b < pos {
                    assert(out@[a] == before[a] && out@[b] == before[b]);
                } else if a < pos && b == pos {
                    assert(out@[a] == before[a]);
                } else if a < pos && b > pos {
                    assert(out@[a] == before[a] && out@[b] == before[b - 1]);
                    if pos < before.len() {
                        assert(before[a].0 <= before[pos as int].0);
                    }
                } else if a == pos {
                    assert(out@[b] == before[b - 1]);
                    assert(pos < before.len());
                    assert(before[pos as int].0 > x.0);
                    if b - 1 > pos {
                        assert(before[pos as int].0 <= before[b - 1].0);
                    }
                } else {
                    assert(out@[a] == before[a - 1] && out@[b] == before[b - 1]);
                }
            }
            let t = speakers@.subrange(0, i as int + 1);
            assert(t =~= speakers@.subrange(0, i as int).push(x));
            vstd::seq_lib::to_multiset_insert(before, pos as int, x);
            vstd::seq_lib::to_multiset_build(speakers@.subrange(0, i as int), x);
        }
        i = i + 1;
    }
    proof {
        assert(speakers@.subrange(0, speakers@.len() as int) =~= speakers@);
        if speakers@.no_duplicates() {
            speakers@.lemma_multiset_has_no_duplicates();
            out@.lemma_multiset_has_no_duplicates_conv();
        }
    }
    out
}

/// The installations in which a sound may be played.
#[derive(Clone, Debug, PartialEq)]
pub enum Installations {
    /// Every installation.
    All,
    /// Only the installations in the set.
    Selected(Vec<installation::Id>),
}

/// The role of a source, as far as the installations of its sounds are concerned: a soundscape
/// source plays in its own installations.
#[derive(Clone, Debug, PartialEq)]
pub enum SourceRole {
    Soundscape(Vec<installation::Id>),
    Interactive,
    Scribbles,
}

impl Installations {
    /// The installations in which the sounds of a source with the given role may be played: the
    /// installations of a soundscape source, and every installation otherwise.
    pub fn from_role(role: Option<SourceRole>) -> (r: Self)
        ensures
            r == (match role {
                Some(SourceRole::Soundscape(set)) => Installations::Selected(set),
                _ => Installations::All,
            }),
    {
        match role {
            None => Installations::All,
            Some(SourceRole::Soundscape(set)) => Installations::Selected(set),
            Some(_) => Installations::All,
        }
    }
}

/// Whether the speaker serves an installation in which the sound may be played.
pub open spec fn speaker_serves_sound(sound: Installations, speaker: Seq<installation::Id>) -> bool {
    match sound {
        Installations::All => true,
        Installations::Selected(set) => shares_installation(set@, speaker),
    }
}

/// Some installation of `a` is also one of `b`.
pub open spec fn shares_installation(a: Seq<installation::Id>, b: Seq<installation::Id>) -> bool {
    exists|i: int| 0 <= i < a.len() && b.contains(#[trigger] a[i])
}

/// A speaker serves a sound of every installation; a sound of a set of installations it serves
/// exactly when some installation of the set, at any position, is one of the speaker's.
pub proof fn lemma_serves_when_sharing(sound: Installations, speaker: Seq<installation::Id>)
    ensures
        sound is All ==> speaker_serves_sound(sound, speaker),
        forall|set: Vec<installation::Id>| sound == Installations::Selected(set) ==>
            (speaker_serves_sound(sound, speaker) <==> exists|i: int, j: int| 0 <= i < set@.len() && 0 <= j < speaker.len()
                && #[trigger] set@[i] == #[trigger] speaker[j]),
{
    assert forall|set: Vec<installation::Id>| sound == Installations::Selected(set) implies
        (speaker_serves_sound(sound, speaker) <==> exists|i: int, j: int| 0 <= i < set@.len() && 0 <= j < speaker.len()
            && #[trigger] set@[i] == #[trigger] speaker[j]) by {
        if speaker_serves_sound(sound, speaker) {
            let i = choose|i: int| 0 <= i < set@.len() && speaker.contains(#[trigger] set@[i]);
            let j = choose|j: int| 0 <= j < speaker.len() && speaker[j] == set@[i];
            assert(set@[i] == speaker[j]);
        }
        if exists|i: int, j: int| 0 <= i < set@.len() && 0 <= j < speaker.len() && #[trigger] set@[i] == #[trigger] speaker[j] {
            let (i, j) = choose|i: int, j: int| 0 <= i < set@.len() && 0 <= j < speaker.len() && #[trigger] set@[i] == #[trigger] speaker[j];
            assert(speaker.contains(set@[i]));
        }
    }
}

/// Calculate a speaker's DBAP weight taking into consideration its assigned installations.
///
/// The weight is `1` if the sound may be played in every installation or in one of the
/// speaker's installations, and `0` otherwise.
pub fn dbap_weight(sound_installations: &Installations, speaker_installations: &[installation::Id]) -> (r: u32)
    ensures
        r == (if speaker_serves_sound(*sound_installations, speaker_installations@) { 1u32 } else { 0u32 }),
        r == 0 || r == 1,
        // Full weight for a sound of every installation, and otherwise exactly when an
        // installation of the sound's set, at any position, is one of the speaker's.
        *sound_installations is All ==> r == 1,
        forall|set: Vec<installation::Id>| *sound_installations == Installations::Selected(set) ==>
            (r == 1 <==> exists|i: int, j: int| 0 <= i < set@.len() && 0 <= j < speaker_installations@.len()
                && #[trigger] set@[i] == #[trigger] speaker_installations@[j]),
{
    proof { lemma_serves_when_sharing(*sound_installations, speaker_installations@); }
    match sound_installations {
        Installations::All => 1,
        Installations::Selected(set) => {
            let mut i: usize = 0;
            while i < set.len()
                invariant
                    *sound_installations == Installations::Selected(*set),
                    i <= set@.len(),
                    forall|a: int, b: int| 0 <= a < i && 0 <= b < speaker_installations@.len()
                        ==> #[trigger] set@[a] != #[trigger] speaker_installations@[b],
                decreases set.len() - i,
            {
                let mut j: usize = 0;
                while j < speaker_installations.len()
                    invariant
                        *sound_installations == Installations::Selected(*set),
                        i < set@.len(),
                        j <= speaker_installations@.len(),
                        forall|b: int| 0 <= b < j ==> set@[i as int] != #[trigger] speaker_installations@[b],
                    decreases speaker_installations.len() - j,
                {
                    if set[i].0 == speaker_installations[j].0 {
                        proof {
                            assert(set@[i as int] == speaker_installations@[j as int]);
                            assert(speaker_installations@.contains(set@[i as int]));
                            assert(shares_installation(set@, speaker_installations@));
                            assert(speaker_serves_sound(*sound_installations, speaker_installations@));
                        }
                        return 1;
                    }
                    j = j + 1;
                }
                i = i + 1;
            }
            0
        },
    }
}

/// Runtime state related to the speaker editor GUI panel.
#[derive(Copy, Clone, Debug, PartialEq, Eq)]
pub struct SpeakerEditor {
    /// The index of the selected speaker within the project.
    pub selected: Option<usize>,
}

impl Default for SpeakerEditor {
    /// No speaker selected.
    fn default() -> (r: Self)
        ensures
            r.selected is None,
    {
        SpeakerEditor { selected: None }
    }
}

} // verus!
