//! What the server does with a control message: the master volume and the volume of a source
//! change in place, and the soundscape is told to play or pause.
//!
//! Volumes are the bit patterns of their `f32` values, as received.

use crate::osc::{Control, ControlView};
use crate::source;
use crate::text::str_eq;
use vstd::prelude::*;

verus! {

/// What the threads around the project are told after a control message was applied.
#[derive(Clone, Debug, PartialEq, Eq)]
pub enum ControlAction {
    /// The audio output takes this master volume.
    SetMasterVolume(u32),
    /// The soundscape and the sounds of the audio output spawned from this source take this
    /// volume.
    SetSourceVolume(source::Id, u32),
    /// The soundscape resumes.
    PlaySoundscape,
    /// The soundscape pauses.
    PauseSoundscape,
    /// No source has the name that the message gives: nothing changes.
    Ignore,
}

/// The sources of a project by id, with their names and volumes.
pub type SourceVolumes = Vec<(source::Id, String, u32)>;

/// `k` is the first position of a source with the given name.
pub open spec fn first_named(sources: Seq<(source::Id, String, u32)>, name: Seq<char>, k: int) -> bool {
    &&& 0 <= k < sources.len()
    &&& sources[k].1@ == name
    &&& forall|j: int| 0 <= j < k ==> (#[trigger] sources[j]).1@ != name
}

/// Some source has the given name.
pub open spec fn has_named(sources: Seq<(source::Id, String, u32)>, name: Seq<char>) -> bool {
    exists|k: int| 0 <= k < sources.len() && (#[trigger] sources[k]).1@ == name
}

/// Apply a control message to the sources' volumes and to the master volume, and say what the
/// other threads are to be told.
///
/// - A master volume replaces `master`.
/// - A source volume goes to the first source with the message's name; with no such source,
///   nothing changes.
/// - Play and pause change nothing here: they are for the soundscape.
pub fn apply_control(sources: &mut SourceVolumes, master: &mut u32, control: &Control) -> (a: ControlAction)
    ensures
        match control@ {
            ControlView::MasterVolume(v) => {
                &&& *final(master) == v
                &&& final(sources)@ == old(sources)@
                &&& a == ControlAction::SetMasterVolume(v)
            },
            ControlView::SourceVolume { name, volume } => {
                &&& *final(master) == *old(master)
                &&& has_named(old(sources)@, name) ==> exists|k: int| {
                    &&& #[trigger] first_named(old(sources)@, name, k)
                    &&& final(sources)@ == old(sources)@.update(k, (old(sources)@[k].0, old(sources)@[k].1, volume))
                    &&& a == ControlAction::SetSourceVolume(old(sources)@[k].0, volume)
                }
                &&& !has_named(old(sources)@, name) ==> {
                    &&& final(sources)@ == old(sources)@
                    &&& a == ControlAction::Ignore
                }
            },
            ControlView::PlaySoundscape => {
                &&& *final(master) == *old(master)
                &&& final(sources)@ == old(sources)@
                &&& a == ControlAction::PlaySoundscape
            },
            ControlView::PauseSoundscape => {
                &&& *final(master) == *old(master)
                &&& final(sources)@ == old(sources)@
                &&& a == ControlAction::PauseSoundscape
            },
        },
{
    match control {
        Control::MasterVolume(mv) => {
            *master = mv.0;
            ControlAction::SetMasterVolume(mv.0)
        },
        Control::PlaySoundscape => ControlAction::PlaySoundscape,
        Control::PauseSoundscape => ControlAction::PauseSoundscape,
        Control::SourceVolume(sv) => {
            let mut k: usize = 0;
            while k < sources.len()
                invariant
                    k <= sources@.len(),
                    sources@ == old(sources)@,
                    *master == *old(master),
                    control@ == (ControlView::SourceVolume { name: sv.name@, volume: sv.volume }),
                    forall|j: int| 0 <= j < k ==> (#[trigger] sources@[j]).1@ != sv.name@,
                decreases sources@.len() - k,
            {
                if str_eq(sources[k].1.as_str(), sv.name.as_str()) {
                    let mut entry = sources.remove(k);
                    let id = entry.0;
                    entry.2 = sv.volume;
                    sources.insert(k, entry);
                    proof {
                        assert(first_named(old(sources)@, sv.name@, k as int));
                        assert(sources@ =~= old(sources)@.update(
                            k as int,
                            (old(sources)@[k as int].0, old(sources)@[k as int].1, sv.volume),
                        ));
                        assert(has_named(old(sources)@, sv.name@));
                    }
                    return ControlAction::SetSourceVolume(id, sv.volume);
                }
                k = k + 1;
            }
            proof {
                if has_named(old(sources)@, sv.name@) {
                    let m = choose|m: int| 0 <= m < old(sources)@.len() && (#[trigger] old(sources)@[m]).1@ == sv.name@;
                    assert(sources@[m].1@ != sv.name@);
                }
            }
            ControlAction::Ignore
        },
    }
}

} // verus!
