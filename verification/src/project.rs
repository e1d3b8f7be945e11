//! Bookkeeping of a project: its files, the ids of its parts and its default installations.
//!
//! A project describes a particular configuration of the audio server: master parameters,
//! installations, soundscape groups, speakers and sources.

pub mod config;

pub use crate::path::update_path_from_relative;

use crate::installation::{self, computer, Installation, Soundscape};
use crate::utils::Range;
use crate::{source, speaker};
use crate::text::{decimal, push_decimal, str_eq};
use crate::path::{join, last_dot, push_text};
use vstd::prelude::*;
use vstd::string::*;

verus! {

/// The default name for a project.
pub fn default_project_name() -> (r: String)
    ensures
        r@ == "My Project"@,
{
    proof { reveal_strlit("My Project"); }
    String::from_str("My Project")
}

/// The path of the "projects" directory within the assets directory.
pub fn projects_directory(assets: &str) -> (r: String)
    ensures
        r@ == push_text(assets@, "projects"@),
{
    join(assets, "projects")
}

/// The directory path for a project with the given name: its slug within the projects
/// directory.
pub fn project_directory_path(assets: &str, name: &str) -> (r: String)
    ensures
        r@ == push_text(push_text(assets@, "projects"@), installation::slugify_result(name@)),
{
    let projects = projects_directory(assets);
    let slug = installation::slugify(name);
    join(projects.as_str(), slug.as_str())
}

/// The file path for the "config.json" file holding all human-friendly config for a project.
pub fn project_config_path(project_directory: &str) -> (r: String)
    ensures
        r@ == push_text(project_directory@, "config"@) + ".json"@,
{
    let mut p = join(project_directory, "config");
    p.append(".json");
    p
}

/// The file path for the "state.json" file holding all state for a project.
pub fn project_state_path(project_directory: &str) -> (r: String)
    ensures
        r@ == push_text(project_directory@, "state"@) + ".json"@,
{
    let mut p = join(project_directory, "state");
    p.append(".json");
    p
}

/// The slug of the project selected by default.
pub fn project_slug() -> (r: String)
    ensures
        r@ == installation::slugify_result("My Project"@),
{
    let name = default_project_name();
    installation::slugify(name.as_str())
}

/// A message that brings one thread in line with the project, as the project is loaded.
#[derive(Copy, Clone, Debug, PartialEq, Eq)]
pub enum SyncMessage {
    /// The soundscape forgets the state of the previous project.
    ClearSoundscape,
    /// The audio input forgets the state of the previous project.
    ClearAudioInput,
    /// The audio output forgets the state of the previous project.
    ClearAudioOutput,
    /// The OSC output forgets the state of the previous project.
    ClearOscOutput,
    /// The audio output takes the master volume, DBAP rolloff and proximity limit.
    MasterToAudioOutput,
    /// The soundscape takes the realtime source latency.
    LatencyToSoundscape,
    /// The soundscape takes the installation's soundscape constraints.
    InstallationToSoundscape(installation::Id),
    /// The OSC output adds the computer of the installation as a target, at its address.
    OscAddTarget(installation::Id, computer::Id),
    /// The audio output takes the installation with its number of computers.
    InstallationToAudioOutput(installation::Id, usize),
    /// The soundscape takes the soundscape group.
    GroupToSoundscape(u64),
    /// The audio output takes the speaker.
    SpeakerToAudioOutput(speaker::Id),
    /// The soundscape takes the speaker.
    SpeakerToSoundscape(speaker::Id),
    /// The audio input takes the realtime source.
    RealtimeSourceToAudioInput(source::Id),
    /// The soundscape takes the source.
    SourceToSoundscape(source::Id),
}

/// What the threads are told of a source: whether it is a realtime source (for the audio input)
/// and whether the soundscape plays it.
#[derive(Copy, Clone, Debug, PartialEq, Eq)]
pub struct SourceSync {
    pub id: source::Id,
    pub realtime: bool,
    pub soundscape: bool,
}

/// The messages for one installation: its soundscape constraints, an OSC target for each of
/// its computers in order, and its number of computers for the audio output.
pub open spec fn installation_sync(id: installation::Id, inst: Installation) -> Seq<SyncMessage> {
    seq![SyncMessage::InstallationToSoundscape(id)]
        + inst.computers@.map_values(|c: (computer::Id, computer::Address)| SyncMessage::OscAddTarget(id, c.0))
        + seq![SyncMessage::InstallationToAudioOutput(id, inst.computers@.len() as usize)]
}

/// The messages for the installations, one installation after another.
pub open spec fn installations_sync(s: Seq<(installation::Id, Installation)>) -> Seq<SyncMessage>
    decreases s.len(),
{
    if s.len() == 0 {
        Seq::empty()
    } else {
        installations_sync(s.drop_last()) + installation_sync(s.last().0, s.last().1)
    }
}

/// The messages for the speakers: for each, the audio output then the soundscape.
pub open spec fn speakers_sync(s: Seq<speaker::Id>) -> Seq<SyncMessage>
    decreases s.len(),
{
    if s.len() == 0 {
        Seq::empty()
    } else {
        speakers_sync(s.drop_last()) + seq![
            SyncMessage::SpeakerToAudioOutput(s.last()),
            SyncMessage::SpeakerToSoundscape(s.last()),
        ]
    }
}

/// The messages for one source: the audio input if it is realtime, then the soundscape if it
/// plays it.
pub open spec fn source_sync(src: SourceSync) -> Seq<SyncMessage> {
    (if src.realtime { seq![SyncMessage::RealtimeSourceToAudioInput(src.id)] } else { Seq::empty() })
        + (if src.soundscape { seq![SyncMessage::SourceToSoundscape(src.id)] } else { Seq::empty() })
}

/// The messages for the sources, one source after another.
pub open spec fn sources_sync(s: Seq<SourceSync>) -> Seq<SyncMessage>
    decreases s.len(),
{
    if s.len() == 0 {
        Seq::empty()
    } else {
        sources_sync(s.drop_last()) + source_sync(s.last())
    }
}

/// Whatever a sequence holds, a longer sequence that ends with it holds too.
proof fn lemma_contains_in_suffix<T>(a: Seq<T>, b: Seq<T>, x: T)
    requires
        b.contains(x),
    ensures
        (a + b).contains(x),
{
    let j = choose|j: int| 0 <= j < b.len() && b[j] == x;
    assert((a + b)[a.len() + j] == x);
}

/// Whatever a sequence holds, a longer sequence that starts with it holds too.
proof fn lemma_contains_in_prefix<T>(a: Seq<T>, b: Seq<T>, x: T)
    requires
        a.contains(x),
    ensures
        (a + b).contains(x),
{
    let j = choose|j: int| 0 <= j < a.len() && a[j] == x;
    assert((a + b)[j] == x);
}

/// Every realtime source reaches the audio input, whether or not the soundscape plays it, and
/// every source that the soundscape plays reaches the soundscape; no other source reaches
/// either.
pub proof fn lemma_sources_reach_their_threads(s: Seq<SourceSync>)
    ensures
        forall|k: int| 0 <= k < s.len() && (#[trigger] s[k]).realtime
            ==> sources_sync(s).contains(SyncMessage::RealtimeSourceToAudioInput(s[k].id)),
        forall|k: int| 0 <= k < s.len() && (#[trigger] s[k]).soundscape
            ==> sources_sync(s).contains(SyncMessage::SourceToSoundscape(s[k].id)),
        forall|id: source::Id| #[trigger] sources_sync(s).contains(SyncMessage::RealtimeSourceToAudioInput(id))
            ==> exists|k: int| 0 <= k < s.len() && s[k].id == id && s[k].realtime,
        forall|id: source::Id| #[trigger] sources_sync(s).contains(SyncMessage::SourceToSoundscape(id))
            ==> exists|k: int| 0 <= k < s.len() && s[k].id == id && s[k].soundscape,
    decreases s.len(),
{
    if s.len() > 0 {
        let p = s.drop_last();
        let last = s.last();
        lemma_sources_reach_their_threads(p);
        let t = source_sync(last);
        assert(sources_sync(s) == sources_sync(p) + t);
        assert forall|k: int| 0 <= k < s.len() && (#[trigger] s[k]).realtime
            implies sources_sync(s).contains(SyncMessage::RealtimeSourceToAudioInput(s[k].id)) by {
            if k < s.len() - 1 {
                assert(p[k] == s[k]);
                lemma_contains_in_prefix(sources_sync(p), t, SyncMessage::RealtimeSourceToAudioInput(s[k].id));
            } else {
                assert(t[0] == SyncMessage::RealtimeSourceToAudioInput(last.id));
                lemma_contains_in_suffix(sources_sync(p), t, SyncMessage::RealtimeSourceToAudioInput(s[k].id));
            }
        }
        assert forall|k: int| 0 <= k < s.len() && (#[trigger] s[k]).soundscape
            implies sources_sync(s).contains(SyncMessage::SourceToSoundscape(s[k].id)) by {
            if k < s.len() - 1 {
                assert(p[k] == s[k]);
                lemma_contains_in_prefix(sources_sync(p), t, SyncMessage::SourceToSoundscape(s[k].id));
            } else {
                assert(t[t.len() - 1] == SyncMessage::SourceToSoundscape(last.id));
                lemma_contains_in_suffix(sources_sync(p), t, SyncMessage::SourceToSoundscape(s[k].id));
            }
        }
        assert forall|id: source::Id| #[trigger] sources_sync(s).contains(SyncMessage::RealtimeSourceToAudioInput(id))
            implies exists|k: int| 0 <= k < s.len() && s[k].id == id && s[k].realtime by {
            let x = SyncMessage::RealtimeSourceToAudioInput(id);
            let j = choose|j: int| 0 <= j < sources_sync(s).len() && sources_sync(s)[j] == x;
            if j < sources_sync(p).len() {
                assert(sources_sync(p)[j] == x);
                assert(sources_sync(p).contains(x));
                let k = choose|k: int| 0 <= k < p.len() && p[k].id == id && p[k].realtime;
                assert(s[k] == p[k]);
            } else {
                assert(t[j - sources_sync(p).len()] == x);
                assert(last.realtime && last.id == id);
                assert(s[s.len() - 1] == last);
            }
        }
        assert forall|id: source::Id| #[trigger] sources_sync(s).contains(SyncMessage::SourceToSoundscape(id))
            implies exists|k: int| 0 <= k < s.len() && s[k].id == id && s[k].soundscape by {
            let x = SyncMessage::SourceToSoundscape(id);
            let j = choose|j: int| 0 <= j < sources_sync(s).len() && sources_sync(s)[j] == x;
            if j < sources_sync(p).len() {
                assert(sources_sync(p)[j] == x);
                assert(sources_sync(p).contains(x));
                let k = choose|k: int| 0 <= k < p.len() && p[k].id == id && p[k].soundscape;
                assert(s[k] == p[k]);
            } else {
                assert(t[j - sources_sync(p).len()] == x);
                assert(last.soundscape && last.id == id);
                assert(s[s.len() - 1] == last);
            }
        }
    }
}

/// Every speaker reaches both the audio output and the soundscape.
pub proof fn lemma_speakers_reach_their_threads(s: Seq<speaker::Id>)
    ensures
        forall|k: int| 0 <= k < s.len() ==> speakers_sync(s).contains(SyncMessage::SpeakerToAudioOutput(#[trigger] s[k])),
        forall|k: int| 0 <= k < s.len() ==> speakers_sync(s).contains(SyncMessage::SpeakerToSoundscape(#[trigger] s[k])),
    decreases s.len(),
{
    if s.len() > 0 {
        let p = s.drop_last();
        lemma_speakers_reach_their_threads(p);
        let t = seq![SyncMessage::SpeakerToAudioOutput(s.last()), SyncMessage::SpeakerToSoundscape(s.last())];
        assert(speakers_sync(s) == speakers_sync(p) + t);
        assert forall|k: int| 0 <= k < s.len() implies speakers_sync(s).contains(SyncMessage::SpeakerToAudioOutput(#[trigger] s[k]))
            && speakers_sync(s).contains(SyncMessage::SpeakerToSoundscape(s[k])) by {
            if k < s.len() - 1 {
                assert(p[k] == s[k]);
                lemma_contains_in_prefix(speakers_sync(p), t, SyncMessage::SpeakerToAudioOutput(s[k]));
                lemma_contains_in_prefix(speakers_sync(p), t, SyncMessage::SpeakerToSoundscape(s[k]));
            } else {
                assert(t[0] == SyncMessage::SpeakerToAudioOutput(s[k]));
                assert(t[1] == SyncMessage::SpeakerToSoundscape(s[k]));
                lemma_contains_in_suffix(speakers_sync(p), t, SyncMessage::SpeakerToAudioOutput(s[k]));
                lemma_contains_in_suffix(speakers_sync(p), t, SyncMessage::SpeakerToSoundscape(s[k]));
            }
        }
    }
}

/// Every installation reaches the soundscape and, with its number of computers, the audio
/// output, and every computer of it becomes an OSC target.
pub proof fn lemma_installations_reach_their_threads(s: Seq<(installation::Id, Installation)>)
    ensures
        forall|k: int| 0 <= k < s.len() ==>
            installations_sync(s).contains(SyncMessage::InstallationToSoundscape((#[trigger] s[k]).0)),
        forall|k: int| 0 <= k < s.len() ==>
            installations_sync(s).contains(SyncMessage::InstallationToAudioOutput((#[trigger] s[k]).0, s[k].1.computers@.len() as usize)),
        forall|k: int, c: int| 0 <= k < s.len() && 0 <= c < (#[trigger] s[k]).1.computers@.len() ==>
            installations_sync(s).contains(SyncMessage::OscAddTarget(s[k].0, (#[trigger] s[k].1.computers@[c]).0)),
    decreases s.len(),
{
    if s.len() > 0 {
        let p = s.drop_last();
        let last = s.last();
        lemma_installations_reach_their_threads(p);
        let t = installation_sync(last.0, last.1);
        let cs = last.1.computers@.map_values(|c: (computer::Id, computer::Address)| SyncMessage::OscAddTarget(last.0, c.0));
        assert(installations_sync(s) == installations_sync(p) + t);
        assert(t[0] == SyncMessage::InstallationToSoundscape(last.0));
        assert(t[t.len() - 1] == SyncMessage::InstallationToAudioOutput(last.0, last.1.computers@.len() as usize));
        assert forall|k: int| 0 <= k < s.len() implies
            installations_sync(s).contains(SyncMessage::InstallationToSoundscape((#[trigger] s[k]).0))
            && installations_sync(s).contains(SyncMessage::InstallationToAudioOutput(s[k].0, s[k].1.computers@.len() as usize)) by {
            if k < s.len() - 1 {
                assert(p[k] == s[k]);
                lemma_contains_in_prefix(installations_sync(p), t, SyncMessage::InstallationToSoundscape(s[k].0));
                lemma_contains_in_prefix(installations_sync(p), t,
                    SyncMessage::InstallationToAudioOutput(s[k].0, s[k].1.computers@.len() as usize));
            } else {
                lemma_contains_in_suffix(installations_sync(p), t, SyncMessage::InstallationToSoundscape(s[k].0));
                lemma_contains_in_suffix(installations_sync(p), t,
                    SyncMessage::InstallationToAudioOutput(s[k].0, s[k].1.computers@.len() as usize));
            }
        }
        assert forall|k: int, c: int| 0 <= k < s.len() && 0 <= c < (#[trigger] s[k]).1.computers@.len() implies
            installations_sync(s).contains(SyncMessage::OscAddTarget(s[k].0, (#[trigger] s[k].1.computers@[c]).0)) by {
            let x = SyncMessage::OscAddTarget(s[k].0, s[k].1.computers@[c].0);
            if k < s.len() - 1 {
                assert(p[k] == s[k]);
                assert(installations_sync(p).contains(SyncMessage::OscAddTarget(p[k].0, p[k].1.computers@[c].0)));
                lemma_contains_in_prefix(installations_sync(p), t, x);
            } else {
                assert(t[1 + c] == cs[c]);
                assert(t[1 + c] == x);
                lemma_contains_in_suffix(installations_sync(p), t, x);
            }
        }
    }
}

/// Every message of a project's synchronisation, in order.
pub open spec fn spec_sync_messages(
    installations: Seq<(installation::Id, Installation)>,
    groups: Seq<u64>,
    speakers: Seq<speaker::Id>,
    sources: Seq<SourceSync>,
) -> Seq<SyncMessage> {
    seq![
        SyncMessage::ClearSoundscape,
        SyncMessage::ClearAudioInput,
        SyncMessage::ClearAudioOutput,
        SyncMessage::ClearOscOutput,
        SyncMessage::MasterToAudioOutput,
        SyncMessage::LatencyToSoundscape,
    ]
        + installations_sync(installations)
        + groups.map_values(|g: u64| SyncMessage::GroupToSoundscape(g))
        + speakers_sync(speakers)
        + sources_sync(sources)
}

/// The messages that reset every thread and bring it in line with the project, in the order in
/// which they are sent: the clears of the soundscape, audio input, audio output and OSC
/// output; the master settings; per installation its soundscape constraints, an OSC target per
/// computer and its number of computers for the audio output; the soundscape groups; per
/// speaker the audio output and the soundscape; per source the audio input (if realtime) and the
/// soundscape (if it plays it).
pub fn sync_messages(
    installations: &[(installation::Id, Installation)],
    groups: &[u64],
    speakers: &[speaker::Id],
    sources: &[SourceSync],
) -> (r: Vec<SyncMessage>)
    ensures
        r@ == spec_sync_messages(installations@, groups@, speakers@, sources@),
        // Every realtime source reaches the audio input and every source the soundscape plays
        // reaches the soundscape; every speaker reaches both the audio output and the
        // soundscape; every installation reaches the soundscape and the audio output with its
        // number of computers, and each of its computers becomes an OSC target.
        forall|k: int| 0 <= k < sources@.len() && (#[trigger] sources@[k]).realtime
            ==> r@.contains(SyncMessage::RealtimeSourceToAudioInput(sources@[k].id)),
        forall|k: int| 0 <= k < sources@.len() && (#[trigger] sources@[k]).soundscape
            ==> r@.contains(SyncMessage::SourceToSoundscape(sources@[k].id)),
        forall|k: int| 0 <= k < speakers@.len() ==> r@.contains(SyncMessage::SpeakerToAudioOutput(#[trigger] speakers@[k])),
        forall|k: int| 0 <= k < speakers@.len() ==> r@.contains(SyncMessage::SpeakerToSoundscape(#[trigger] speakers@[k])),
        forall|k: int| 0 <= k < installations@.len() ==>
            r@.contains(SyncMessage::InstallationToSoundscape((#[trigger] installations@[k]).0)),
        forall|k: int| 0 <= k < installations@.len() ==> r@.contains(SyncMessage::InstallationToAudioOutput(
            (#[trigger] installations@[k]).0, installations@[k].1.computers@.len() as usize)),
        forall|k: int, c: int| 0 <= k < installations@.len() && 0 <= c < (#[trigger] installations@[k]).1.computers@.len() ==>
            r@.contains(SyncMessage::OscAddTarget(installations@[k].0, (#[trigger] installations@[k].1.computers@[c]).0)),
        r@.take(6) == seq![
            SyncMessage::ClearSoundscape,
            SyncMessage::ClearAudioInput,
            SyncMessage::ClearAudioOutput,
            SyncMessage::ClearOscOutput,
            SyncMessage::MasterToAudioOutput,
            SyncMessage::LatencyToSoundscape,
        ],
{
    let mut r: Vec<SyncMessage> = Vec::new();
    r.push(SyncMessage::ClearSoundscape);
    r.push(SyncMessage::ClearAudioInput);
    r.push(SyncMessage::ClearAudioOutput);
    r.push(SyncMessage::ClearOscOutput);
    r.push(SyncMessage::MasterToAudioOutput);
    r.push(SyncMessage::LatencyToSoundscape);
    let ghost head = r@;
    let mut i: usize = 0;
    proof {
        assert(installations@.take(0) =~= Seq::<(installation::Id, Installation)>::empty());
        assert(r@ =~= head + installations_sync(installations@.take(0)));
    }
    while i < installations.len()
        invariant
            i <= installations@.len(),
            r@ == head + installations_sync(installations@.take(i as int)),
        decreases installations@.len() - i,
    {
        let id = installations[i].0;
        let computers = &installations[i].1.computers;
        let ghost before = r@;
        r.push(SyncMessage::InstallationToSoundscape(id));
        let mut j: usize = 0;
        while j < computers.len()
            invariant
                j <= computers@.len(),
                r@ == before + seq![SyncMessage::InstallationToSoundscape(id)]
                    + computers@.take(j as int).map_values(|c: (computer::Id, computer::Address)| SyncMessage::OscAddTarget(id, c.0)),
            decreases computers@.len() - j,
        {
            r.push(SyncMessage::OscAddTarget(id, computers[j].0));
            proof {
                assert(computers@.take(j as int + 1).map_values(|c: (computer::Id, computer::Address)| SyncMessage::OscAddTarget(id, c.0))
                    =~= computers@.take(j as int).map_values(|c: (computer::Id, computer::Address)| SyncMessage::OscAddTarget(id, c.0))
                        .push(SyncMessage::OscAddTarget(id, computers@[j as int].0)));
            }
            j = j + 1;
        }
        r.push(SyncMessage::InstallationToAudioOutput(id, computers.len()));
        proof {
            assert(computers@.take(computers@.len() as int) =~= computers@);
            let t = installations@.take(i as int + 1);
            assert(t.drop_last() =~= installations@.take(i as int));
            assert(t.last() == installations@[i as int]);
            assert(r@ =~= head + installations_sync(t));
        }
        i = i + 1;
    }
    proof {
        assert(installations@.take(installations@.len() as int) =~= installations@);
    }
    let ghost after_installations = r@;
    let mut i: usize = 0;
    while i < groups.len()
        invariant
            i <= groups@.len(),
            r@ == after_installations + groups@.take(i as int).map_values(|g: u64| SyncMessage::GroupToSoundscape(g)),
        decreases groups@.len() - i,
    {
        r.push(SyncMessage::GroupToSoundscape(groups[i]));
        proof {
            assert(groups@.take(i as int + 1).map_values(|g: u64| SyncMessage::GroupToSoundscape(g))
                =~= groups@.take(i as int).map_values(|g: u64| SyncMessage::GroupToSoundscape(g))
                    .push(SyncMessage::GroupToSoundscape(groups@[i as int])));
        }
        i = i + 1;
    }
    proof {
        assert(groups@.take(groups@.len() as int) =~= groups@);
    }
    let ghost after_groups = r@;
    let mut i: usize = 0;
    proof {
        assert(speakers@.take(0) =~= Seq::<speaker::Id>::empty());
        assert(r@ =~= after_groups + speakers_sync(speakers@.take(0)));
    }
    while i < speakers.len()
        invariant
            i <= speakers@.len(),
            r@ == after_groups + speakers_sync(speakers@.take(i as int)),
        decreases speakers@.len() - i,
    {
        r.push(SyncMessage::SpeakerToAudioOutput(speakers[i]));
        r.push(SyncMessage::SpeakerToSoundscape(speakers[i]));
        proof {
            let t = speakers@.take(i as int + 1);
            assert(t.drop_last() =~= speakers@.take(i as int));
            assert(r@ =~= after_groups + speakers_sync(t));
        }
        i = i + 1;
    }
    proof {
        assert(speakers@.take(speakers@.len() as int) =~= speakers@);
    }
    let ghost after_speakers = r@;
    let mut i: usize = 0;
    proof {
        assert(sources@.take(0) =~= Seq::<SourceSync>::empty());
        assert(r@ =~= after_speakers + sources_sync(sources@.take(0)));
    }
    while i < sources.len()
        invariant
            i <= sources@.len(),
            r@ == after_speakers + sources_sync(sources@.take(i as int)),
        decreases sources@.len() - i,
    {
        let src = sources[i];
        if src.realtime {
            r.push(SyncMessage::RealtimeSourceToAudioInput(src.id));
        }
        if src.soundscape {
            r.push(SyncMessage::SourceToSoundscape(src.id));
        }
        proof {
            let t = sources@.take(i as int + 1);
            assert(t.drop_last() =~= sources@.take(i as int));
            assert(r@ =~= after_speakers + sources_sync(t));
        }
        i = i + 1;
    }
    proof {
        assert(sources@.take(sources@.len() as int) =~= sources@);
        assert(r@ =~= spec_sync_messages(installations@, groups@, speakers@, sources@));
        let head6 = seq![
            SyncMessage::ClearSoundscape,
            SyncMessage::ClearAudioInput,
            SyncMessage::ClearAudioOutput,
            SyncMessage::ClearOscOutput,
            SyncMessage::MasterToAudioOutput,
            SyncMessage::LatencyToSoundscape,
        ];
        let a = installations_sync(installations@);
        let g = groups@.map_values(|g: u64| SyncMessage::GroupToSoundscape(g));
        let sp = speakers_sync(speakers@);
        let so = sources_sync(sources@);
        assert(r@ == head6 + a + g + sp + so);
        assert(r@.take(6) =~= head6);
        lemma_sources_reach_their_threads(sources@);
        lemma_speakers_reach_their_threads(speakers@);
        lemma_installations_reach_their_threads(installations@);
        assert forall|x: SyncMessage| #[trigger] so.contains(x) implies r@.contains(x) by {
            lemma_contains_in_suffix(head6 + a + g + sp, so, x);
        }
        assert forall|x: SyncMessage| #[trigger] sp.contains(x) implies r@.contains(x) by {
            lemma_contains_in_suffix(head6 + a + g, sp, x);
            lemma_contains_in_prefix(head6 + a + g + sp, so, x);
        }
        assert forall|x: SyncMessage| #[trigger] a.contains(x) implies r@.contains(x) by {
            lemma_contains_in_suffix(head6, a, x);
            lemma_contains_in_prefix(head6 + a, g, x);
            lemma_contains_in_prefix(head6 + a + g, sp, x);
            lemma_contains_in_prefix(head6 + a + g + sp, so, x);
        }
    }
    r
}

/// The default name of a new project with the given number: "My Project 1", "My Project 2", ...
pub open spec fn numbered_project_name(i: nat) -> Seq<char> {
    "My Project"@ + " "@ + decimal(i)
}

/// The slug of the numbered default name is among the slugs of the existing projects.
pub open spec fn numbered_name_taken(existing_slugs: Seq<String>, i: nat) -> bool {
    exists|k: int| 0 <= k < existing_slugs.len()
        && (#[trigger] existing_slugs[k])@ == installation::slugify_result(numbered_project_name(i))
}

/// The default name of a new project: "My Project i", for the least `i` from 1 on whose slug
/// names no existing project directory.
///
/// The numbers looked at are 1 to one more than the number of existing slugs; as distinct
/// numbers give distinct slugs ("my-project-1", "my-project-2", ...), one of them is free.
/// `None` if none of them is.
pub fn first_free_project_name(existing_slugs: &Vec<String>) -> (r: Option<String>)
    requires
        existing_slugs@.len() + 1 < u64::MAX,
    ensures
        match r {
            Some(name) => exists|i: nat| {
                &&& 1 <= i <= existing_slugs@.len() + 1
                &&& name@ == #[trigger] numbered_project_name(i)
                &&& !numbered_name_taken(existing_slugs@, i)
                &&& forall|j: nat| 1 <= j < i ==> #[trigger] numbered_name_taken(existing_slugs@, j)
            },
            None => forall|i: nat| 1 <= i <= existing_slugs@.len() + 1
                ==> #[trigger] numbered_name_taken(existing_slugs@, i),
        },
{
    let n = existing_slugs.len() as u64;
    let mut i: u64 = 1;
    while i <= n + 1
        invariant
            1 <= i <= n + 2,
            n == existing_slugs@.len(),
            n + 1 < u64::MAX,
            forall|j: nat| 1 <= j < i ==> #[trigger] numbered_name_taken(existing_slugs@, j),
        decreases n + 2 - i,
    {
        let mut name = default_project_name();
        name.append(" ");
        push_decimal(&mut name, i);
        let slug = installation::slugify(name.as_str());
        let mut taken = false;
        let mut k: usize = 0;
        while k < existing_slugs.len()
            invariant
                k <= existing_slugs@.len(),
                slug@ == installation::slugify_result(numbered_project_name(i as nat)),
                taken == (exists|m: int| 0 <= m < k && (#[trigger] existing_slugs@[m])@ == slug@),
            decreases existing_slugs@.len() - k,
        {
            if str_eq(existing_slugs[k].as_str(), slug.as_str()) {
                taken = true;
            }
            proof {
                if taken && existing_slugs@[k as int]@ != slug@ {
                    let m = choose|m: int| 0 <= m < k && (#[trigger] existing_slugs@[m])@ == slug@;
                    assert(0 <= m < k + 1 && existing_slugs@[m]@ == slug@);
                }
                if existing_slugs@[k as int]@ == slug@ {
                    assert(0 <= k < k + 1 && existing_slugs@[k as int]@ == slug@);
                }
            }
            k = k + 1;
        }
        if !taken {
            proof {
                assert(name@ == numbered_project_name(i as nat));
                assert(!numbered_name_taken(existing_slugs@, i as nat));
            }
            return Some(name);
        }
        proof {
            assert(numbered_name_taken(existing_slugs@, i as nat));
        }
        i = i + 1;
    }
    None
}

/// Whether CPU saving mode is enabled by default.
pub fn cpu_saving_mode() -> (r: bool)
    ensures
        !r,
{
    false
}

/// The greatest of the given ids, or `0` if there are none.
pub open spec fn max_id(ids: Seq<int>) -> int
    decreases ids.len(),
{
    if ids.len() == 0 {
        0
    } else {
        let m = max_id(ids.drop_last());
        if ids.last() > m { ids.last() } else { m }
    }
}

proof fn lemma_max_id_bounds(ids: Seq<int>, bound: int)
    requires
        bound >= 0,
        forall|i: int| 0 <= i < ids.len() ==> 0 <= #[trigger] ids[i] <= bound,
    ensures
        0 <= max_id(ids) <= bound,
        forall|i: int| 0 <= i < ids.len() ==> ids[i] <= max_id(ids),
    decreases ids.len(),
{
    if ids.len() > 0 {
        lemma_max_id_bounds(ids.drop_last(), bound);
        assert forall|i: int| 0 <= i < ids.len() implies ids[i] <= max_id(ids) by {
            if i < ids.len() - 1 {
                assert(ids[i] == ids.drop_last()[i]);
            }
        }
    }
}

/// One more than the greatest of the given ids.
fn next_after(ids: &[u64]) -> (r: u64)
    requires
        forall|i: int| 0 <= i < ids@.len() ==> #[trigger] ids@[i] < u64::MAX,
    ensures
        r == max_id(ids@.map_values(|x: u64| x as int)) + 1,
{
    let ghost v = ids@.map_values(|x: u64| x as int);
    let mut m: u64 = 0;
    let mut i: usize = 0;
    proof {
        assert(v.subrange(0, 0) =~= Seq::<int>::empty());
    }
    while i < ids.len()
        invariant
            i <= ids@.len(),
            v == ids@.map_values(|x: u64| x as int),
            forall|j: int| 0 <= j < ids@.len() ==> #[trigger] ids@[j] < u64::MAX,
            m == max_id(v.subrange(0, i as int)),
            m < u64::MAX,
        decreases ids.len() - i,
    {
        proof {
            assert(v.subrange(0, i as int + 1).drop_last() =~= v.subrange(0, i as int));
        }
        if ids[i] > m {
            m = ids[i];
        }
        i = i + 1;
    }
    proof {
        assert(v.subrange(0, ids@.len() as int) =~= v);
    }
    m + 1
}

/// One more than the greatest of the given ids.
fn next_after_usize(ids: &[usize]) -> (r: usize)
    requires
        forall|i: int| 0 <= i < ids@.len() ==> #[trigger] ids@[i] < usize::MAX,
    ensures
        r == max_id(ids@.map_values(|x: usize| x as int)) + 1,
{
    let ghost v = ids@.map_values(|x: usize| x as int);
    let mut m: usize = 0;
    let mut i: usize = 0;
    proof {
        assert(v.subrange(0, 0) =~= Seq::<int>::empty());
    }
    while i < ids.len()
        invariant
            i <= ids@.len(),
            v == ids@.map_values(|x: usize| x as int),
            forall|j: int| 0 <= j < ids@.len() ==> #[trigger] ids@[j] < usize::MAX,
            m == max_id(v.subrange(0, i as int)),
            m < usize::MAX,
        decreases ids.len() - i,
    {
        proof {
            assert(v.subrange(0, i as int + 1).drop_last() =~= v.subrange(0, i as int));
        }
        if ids[i] > m {
            m = ids[i];
        }
        i = i + 1;
    }
    proof {
        assert(v.subrange(0, ids@.len() as int) =~= v);
    }
    m + 1
}

/// The raw values of installation ids.
pub open spec fn installation_id_values(ids: Seq<installation::Id>) -> Seq<int> {
    ids.map_values(|id: installation::Id| id.0 as int)
}

/// Search for and return the next available installation ID: one more than the greatest in use.
pub fn next_installation_id(ids: &[installation::Id]) -> (r: installation::Id)
    requires
        forall|i: int| 0 <= i < ids@.len() ==> (#[trigger] ids@[i]).0 < usize::MAX,
    ensures
        r.0 == max_id(installation_id_values(ids@)) + 1,
        forall|i: int| 0 <= i < ids@.len() ==> (#[trigger] ids@[i]).0 < r.0,
{
    let mut raw: Vec<usize> = Vec::new();
    let mut i: usize = 0;
    while i < ids.len()
        invariant
            i <= ids@.len(),
            raw@.len() == i,
            forall|j: int| 0 <= j < i ==> #[trigger] raw@[j] == ids@[j].0,
        decreases ids.len() - i,
    {
        raw.push(ids[i].0);
        i = i + 1;
    }
    proof {
        assert(raw@.map_values(|x: usize| x as int) =~= installation_id_values(ids@));
        lemma_max_id_bounds(installation_id_values(ids@), usize::MAX as int);
    }
    let r = installation::Id(next_after_usize(raw.as_slice()));
    proof {
        assert forall|i: int| 0 <= i < ids@.len() implies (#[trigger] ids@[i]).0 < r.0 by {
            assert(installation_id_values(ids@)[i] == ids@[i].0 as int);
        }
    }
    r
}

/// The raw values of speaker ids.
pub open spec fn speaker_id_values(ids: Seq<speaker::Id>) -> Seq<int> {
    ids.map_values(|id: speaker::Id| id.0 as int)
}

/// The raw values of source ids.
pub open spec fn source_id_values(ids: Seq<source::Id>) -> Seq<int> {
    ids.map_values(|id: source::Id| id.0 as int)
}

/// Given the speaker ids in use, produce the next available unique `Id`: one more than the
/// greatest.
pub fn next_speaker_id(ids: &[speaker::Id]) -> (r: speaker::Id)
    requires
        forall|i: int| 0 <= i < ids@.len() ==> (#[trigger] ids@[i]).0 < u64::MAX,
    ensures
        r.0 == max_id(speaker_id_values(ids@)) + 1,
        forall|i: int| 0 <= i < ids@.len() ==> (#[trigger] ids@[i]).0 < r.0,
{
    let mut raw: Vec<u64> = Vec::new();
    let mut i: usize = 0;
    while i < ids.len()
        invariant
            i <= ids@.len(),
            raw@.len() == i,
            forall|j: int| 0 <= j < i ==> #[trigger] raw@[j] == ids@[j].0,
        decreases ids.len() - i,
    {
        raw.push(ids[i].0);
        i = i + 1;
    }
    proof {
        assert(raw@.map_values(|x: u64| x as int) =~= speaker_id_values(ids@));
        lemma_max_id_bounds(speaker_id_values(ids@), u64::MAX as int);
    }
    let r = speaker::Id(next_after(raw.as_slice()));
    proof {
        assert forall|i: int| 0 <= i < ids@.len() implies (#[trigger] ids@[i]).0 < r.0 by {
            assert(speaker_id_values(ids@)[i] == ids@[i].0 as int);
        }
    }
    r
}

/// Given the source ids in use, find the next available source ID: one more than the greatest.
pub fn next_source_id(ids: &[source::Id]) -> (r: source::Id)
    requires
        forall|i: int| 0 <= i < ids@.len() ==> (#[trigger] ids@[i]).0 < u64::MAX,
    ensures
        r.0 == max_id(source_id_values(ids@)) + 1,
        forall|i: int| 0 <= i < ids@.len() ==> (#[trigger] ids@[i]).0 < r.0,
{
    let mut raw: Vec<u64> = Vec::new();
    let mut i: usize = 0;
    while i < ids.len()
        invariant
            i <= ids@.len(),
            raw@.len() == i,
            forall|j: int| 0 <= j < i ==> #[trigger] raw@[j] == ids@[j].0,
        decreases ids.len() - i,
    {
        raw.push(ids[i].0);
        i = i + 1;
    }
    proof {
        assert(raw@.map_values(|x: u64| x as int) =~= source_id_values(ids@));
        lemma_max_id_bounds(source_id_values(ids@), u64::MAX as int);
    }
    let r = source::Id(next_after(raw.as_slice()));
    proof {
        assert forall|i: int| 0 <= i < ids@.len() implies (#[trigger] ids@[i]).0 < r.0 by {
            assert(source_id_values(ids@)[i] == ids@[i].0 as int);
        }
    }
    r
}

/// If every channel below `m` is in use, there are at least `m` speakers.
proof fn lemma_channels_below_fit(channels: Seq<usize>, m: int)
    requires
        m >= 0,
        m <= usize::MAX + 1,
        forall|c: usize| c < m ==> #[trigger] channels.contains(c),
    ensures
        m <= channels.len(),
{
    let ints = channels.map_values(|c: usize| c as int);
    vstd::set_lib::lemma_int_range(0, m);
    assert forall|c: int| vstd::set_lib::set_int_range(0, m).contains(c) implies ints.to_set().contains(c) by {
        assert(channels.contains(c as usize));
        let k = choose|k: int| 0 <= k < channels.len() && channels[k] == c as usize;
        assert(ints[k] == c);
        assert(ints.contains(c));
    }
    ints.lemma_cardinality_of_set();
    vstd::set_lib::lemma_len_subset(vstd::set_lib::set_int_range(0, m), ints.to_set());
}

/// Given the channels of the speakers, produce the next available speaker channel: the lowest
/// channel that no speaker uses.
pub fn next_available_speaker_channel(channels: &[usize]) -> (r: usize)
    ensures
        !channels@.contains(r),
        forall|c: usize| c < r ==> channels@.contains(c),
{
    let mut channel: usize = 0;
    loop
        invariant
            forall|c: usize| c < channel ==> channels@.contains(c),
        decreases channels@.len() - channel,
    {
        proof {
            lemma_channels_below_fit(channels@, channel as int);
        }
        let mut found = false;
        let mut i: usize = 0;
        while i < channels.len()
            invariant
                i <= channels@.len(),
                !found ==> forall|k: int| 0 <= k < i ==> channels@[k] != channel,
                found ==> channels@.contains(channel),
            decreases channels.len() - i,
        {
            if channels[i] == channel {
                found = true;
            }
            i = i + 1;
        }
        if !found {
            return channel;
        }
        proof {
            lemma_channels_below_fit(channels@, channel as int + 1);
        }
        channel = channel + 1;
    }
}

/// Remove all sources from the "soloed" list that no longer exist.
///
/// This is necessary for startup where the soloed list may name sources that are no longer
/// valid.
pub fn remove_invalid_soloed(soloed: &mut Vec<source::Id>, sources: &[source::Id])
    ensures
        final(soloed)@ == old(soloed)@.filter(|id: source::Id| sources@.contains(id)),
        old(soloed)@.no_duplicates() ==> final(soloed)@.no_duplicates(),
{
    let ghost pred = |id: source::Id| sources@.contains(id);
    let mut kept: Vec<source::Id> = Vec::new();
    let mut i: usize = 0;
    proof {
        assert(old(soloed)@.subrange(0, 0) =~= Seq::<source::Id>::empty());
        reveal(Seq::filter);
        assert(Seq::<source::Id>::empty().filter(pred) =~= Seq::<source::Id>::empty());
    }
    while i < soloed.len()
        invariant
            soloed@ == old(soloed)@,
            i <= soloed@.len(),
            pred == (|id: source::Id| sources@.contains(id)),
            kept@ == soloed@.subrange(0, i as int).filter(pred),
            forall|x: source::Id| #[trigger] kept@.contains(x) ==> soloed@.subrange(0, i as int).contains(x),
            soloed@.no_duplicates() ==> kept@.no_duplicates(),
        decreases soloed.len() - i,
    {
        let id = soloed[i];
        let mut present = false;
        let mut j: usize = 0;
        while j < sources.len()
            invariant
                j <= sources@.len(),
                present <==> exists|k: int| 0 <= k < j && #[trigger] sources@[k] == id,
            decreases sources.len() - j,
        {
            if sources[j].0 == id.0 {
                present = true;
                proof {
                    assert(sources@[j as int] == id);
                }
            }
            j = j + 1;
        }
        proof {
            if present {
                let k = choose|k: int| 0 <= k < sources@.len() && #[trigger] sources@[k] == id;
                assert(sources@.contains(id));
            } else {
                assert(!sources@.contains(id));
            }
            assert(present == pred(id));
            let t = soloed@.subrange(0, i as int + 1);
            assert(t.drop_last() =~= soloed@.subrange(0, i as int));
            assert(t.last() == id);
            assert(t =~= soloed@.subrange(0, i as int).push(id));
            soloed@.subrange(0, i as int).lemma_filter_push(id, pred);
        }
        let ghost old_kept = kept@;
        if present {
            proof {
                if soloed@.no_duplicates() && kept@.contains(id) {
                    let j = choose|j: int| 0 <= j < i && #[trigger] soloed@.subrange(0, i as int)[j] == id;
                    assert(soloed@[j] == soloed@[i as int]);
                }
            }
            kept.push(id);
        }
        proof {
            assert forall|x: source::Id| #[trigger] kept@.contains(x) implies soloed@.subrange(0, i as int + 1).contains(x) by {
                if old_kept.contains(x) {
                    let j = choose|j: int| 0 <= j < i && #[trigger] soloed@.subrange(0, i as int)[j] == x;
                    assert(soloed@.subrange(0, i as int + 1)[j] == x);
                } else {
                    assert(kept@[kept@.len() - 1] == x) by {
                        let j = choose|j: int| 0 <= j < kept@.len() && kept@[j] == x;
                        if j < old_kept.len() {
                            assert(old_kept[j] == x);
                        }
                    }
                    assert(soloed@.subrange(0, i as int + 1)[i as int] == x);
                }
            }
        }
        i = i + 1;
    }
    proof {
        assert(soloed@.subrange(0, soloed@.len() as int) =~= soloed@);
    }
    *soloed = kept;
}

/// The socket address that the computers of the default installations are given.
pub open spec fn default_computer_socket() -> computer::SocketAddrV4 {
    computer::SocketAddrV4 { ip: [127u8, 0u8, 0u8, 1u8], port: 9002u16 }
}

/// What the default installation at index `i` is: named after the beyond perception
/// installation, with its default number of computers, each at the local socket and addressed
/// by the slug of the installation's name.
pub open spec fn is_default_installation(i: int, id: installation::Id, inst: Installation) -> bool {
    let name = installation::beyond_perception_name(i);
    &&& id == installation::Id(i as usize)
    &&& inst.name@ == name
    &&& inst.soundscape == (Soundscape { simultaneous_sounds: Range::<usize> { min: 1, max: 8 } })
    &&& inst.computers@.len() == installation::spec_default_num_computers(name).unwrap_or(0)
    &&& forall|j: int| #![trigger inst.computers@[j]] 0 <= j < inst.computers@.len() ==> {
        &&& inst.computers@[j].0 == computer::Id(j as usize)
        &&& inst.computers@[j].1.socket == default_computer_socket()
        &&& inst.computers@[j].1.osc_addr@ == "/"@ + installation::slugify_result(name)
    }
}

/// Create the default installations for a project: one for each beyond perception
/// installation, in order.
pub fn default_beyond_perception_installations() -> (r: Vec<(installation::Id, Installation)>)
    ensures
        r@.len() == 9,
        forall|i: int| 0 <= i < 9 ==> #[trigger] is_default_installation(i, r@[i].0, r@[i].1),
        distinct_ids(r@),
{
    let mut r: Vec<(installation::Id, Installation)> = Vec::new();
    let mut i: usize = 0;
    while i < installation::NUM_BEYOND_PERCEPTION_INSTALLATIONS
        invariant
            i <= 9,
            r@.len() == i,
            forall|k: int| 0 <= k < i ==> #[trigger] is_default_installation(k, r@[k].0, r@[k].1),
        decreases 9 - i,
    {
        let name = installation::beyond_perception_names(i).unwrap();
        let n_computers = match installation::beyond_perception_default_num_computers(name) {
            Some(n) => n,
            None => 0,
        };
        let osc_addr = installation::osc_addr_string(name);
        let mut computers: Vec<(computer::Id, computer::Address)> = Vec::new();
        let mut j: usize = 0;
        while j < n_computers
            invariant
                j <= n_computers,
                computers@.len() == j,
                osc_addr@ == "/"@ + installation::slugify_result(name@),
                forall|k: int| #![trigger computers@[k]] 0 <= k < j ==> {
                    &&& computers@[k].0 == computer::Id(k as usize)
                    &&& computers@[k].1.socket == default_computer_socket()
                    &&& computers@[k].1.osc_addr@ == "/"@ + installation::slugify_result(name@)
                },
            decreases n_computers - j,
        {
            let socket = computer::SocketAddrV4 { ip: [127u8, 0u8, 0u8, 1u8], port: 9002u16 };
            let addr = computer::Address { socket, osc_addr: osc_addr.clone() };
            computers.push((computer::Id(j), addr));
            j = j + 1;
        }
        let installation = Installation {
            name: String::from_str(name),
            computers,
            soundscape: Soundscape::default(),
        };
        r.push((installation::Id(i), installation));
        proof {
            assert(is_default_installation(i as int, r@[i as int].0, r@[i as int].1));
        }
        i = i + 1;
    }
    proof {
        assert forall|a: int, b: int| 0 <= a < b < r@.len() implies (#[trigger] r@[a]).0 != (#[trigger] r@[b]).0 by {
            assert(is_default_installation(a, r@[a].0, r@[a].1));
            assert(is_default_installation(b, r@[b].0, r@[b].1));
        }
    }
    r
}

/// Whether every installation carries the name given to unnamed installations.
pub open spec fn all_unnamed(installations: Seq<(installation::Id, Installation)>) -> bool {
    forall|k: int| 0 <= k < installations.len() ==> #[trigger] installations[k].1.name@ == installation::unnamed()
}

/// No two entries share an id: the entries are those of a map.
pub open spec fn distinct_ids<T>(entries: Seq<(installation::Id, T)>) -> bool {
    forall|a: int, b: int| 0 <= a < b < entries.len() ==> (#[trigger] entries[a]).0 != (#[trigger] entries[b]).0
}

/// Some entry's id is that of a beyond perception installation, so automatic naming names it.
pub open spec fn some_auto_named(installations: Seq<(installation::Id, Installation)>) -> bool {
    exists|k: int| 0 <= k < installations.len() && (#[trigger] installations[k]).0.0 < 9
}

/// The name that automatic naming gives the installation with the given id, if any.
pub open spec fn auto_name(id: installation::Id) -> Option<Seq<char>> {
    if id.0 < 9 {
        Some(installation::beyond_perception_name(id.0 as int))
    } else {
        None
    }
}

/// If all of the installations are unnamed, name them automatically: each one whose id is
/// that of a beyond perception installation takes that installation's name.
///
/// Returns `true` if installations were renamed, `false` if not.
pub fn auto_name_installations_if_all_unnamed(installations: &mut Vec<(installation::Id, Installation)>) -> (renamed: bool)
    requires
        distinct_ids(old(installations)@),
    ensures
        renamed == (all_unnamed(old(installations)@) && some_auto_named(old(installations)@)),
        distinct_ids(final(installations)@),
        final(installations)@.len() == old(installations)@.len(),
        forall|k: int| 0 <= k < old(installations)@.len() ==> {
            let before = #[trigger] old(installations)@[k];
            let after = final(installations)@[k];
            &&& after.0 == before.0
            &&& after.1.computers == before.1.computers
            &&& after.1.soundscape == before.1.soundscape
            &&& after.1.name@ == (if all_unnamed(old(installations)@) && auto_name(before.0).is_some() {
                auto_name(before.0).unwrap()
            } else {
                before.1.name@
            })
        },
{
    let unnamed = installation::name();
    let mut k: usize = 0;
    while k < installations.len()
        invariant
            k <= installations@.len(),
            unnamed@ == installation::unnamed(),
            installations@ == old(installations)@,
            distinct_ids(old(installations)@),
            forall|m: int| 0 <= m < k ==> #[trigger] installations@[m].1.name@ == installation::unnamed(),
        decreases installations@.len() - k,
    {
        if !str_eq(installations[k].1.name.as_str(), unnamed) {
            proof {
                assert(!all_unnamed(installations@));
            }
            return false;
        }
        k = k + 1;
    }
    let ghost before = installations@;
    let mut renamed = false;
    let mut k: usize = 0;
    while k < installations.len()
        invariant
            k <= installations@.len(),
            installations@.len() == before.len(),
            distinct_ids(before),
            renamed == (exists|m: int| 0 <= m < k && (#[trigger] before[m]).0.0 < 9),
            forall|m: int| k <= m < before.len() ==> #[trigger] installations@[m] == before[m],
            forall|m: int| 0 <= m < k ==> {
                let b = #[trigger] before[m];
                let a = installations@[m];
                &&& a.0 == b.0
                &&& a.1.computers == b.1.computers
                &&& a.1.soundscape == b.1.soundscape
                &&& a.1.name@ == (if auto_name(b.0).is_some() { auto_name(b.0).unwrap() } else { b.1.name@ })
            },
        decreases installations@.len() - k,
    {
        let id = installations[k].0;
        if let Some(name) = installation::beyond_perception_names(id.0) {
            let mut entry = installations.remove(k);
            entry.1.name = String::from_str(name);
            installations.insert(k, entry);
            renamed = true;
        }
        proof {
            assert(before[k as int].0 == id);
            assert forall|m: int| 0 <= m < k + 1 && (#[trigger] before[m]).0.0 < 9 implies renamed by {
                if m < k {
                    assert(exists|m2: int| 0 <= m2 < k && (#[trigger] before[m2]).0.0 < 9);
                }
            }
            if renamed {
                if id.0 < 9 {
                    assert(0 <= k < k + 1 && before[k as int].0.0 < 9);
                } else {
                    let m = choose|m: int| 0 <= m < k && (#[trigger] before[m]).0.0 < 9;
                    assert(0 <= m < k + 1 && before[m].0.0 < 9);
                }
            }
        }
        k = k + 1;
    }
    proof {
        assert forall|a: int, b: int| 0 <= a < b < installations@.len() implies (#[trigger] installations@[a]).0 != (#[trigger] installations@[b]).0 by {
            assert(installations@[a].0 == before[a].0);
            assert(installations@[b].0 == before[b].0);
        }
    }
    renamed
}

/// Whether the file name marks a hidden file: it starts with '.'.
pub open spec fn is_hidden_name(name: Seq<char>) -> bool {
    name.len() > 0 && name[0] == '.'
}

/// The extension of a file name: the text after its last '.', where a leading '.' does not start
/// an extension.
pub open spec fn name_extension(name: Seq<char>) -> Option<Seq<char>> {
    match last_dot(name) {
        Some(i) => if i > 0 { Some(name.subrange(i + 1, name.len() as int)) } else { None },
        None => None,
    }
}

/// Whether `text` reads as `lower` when ASCII capitals are taken as small letters, where `lower`
/// holds small ASCII letters only.
pub open spec fn eq_ignore_ascii_case(text: Seq<char>, lower: Seq<char>) -> bool {
    &&& text.len() == lower.len()
    &&& forall|i: int| 0 <= i < text.len() ==>
        #[trigger] text[i] == lower[i] || (text[i] as u32) + 32 == (lower[i] as u32)
}

/// Whether the file name is that of a WAV file that is not hidden: its extension is "wav" or
/// "wave", in any case.
pub open spec fn is_wav_name(name: Seq<char>) -> bool {
    &&& !is_hidden_name(name)
    &&& match name_extension(name) {
        Some(ext) => eq_ignore_ascii_case(ext, "wav"@) || eq_ignore_ascii_case(ext, "wave"@),
        None => false,
    }
}

/// Whether `text` matches `lower` (small ASCII letters) regardless of ASCII case.
fn matches_ignore_ascii_case(text: &str, lower: &str) -> (r: bool)
    ensures
        r == eq_ignore_ascii_case(text@, lower@),
{
    let n = text.unicode_len();
    if n != lower.unicode_len() {
        return false;
    }
    let mut i: usize = 0;
    while i < n
        invariant
            i <= n,
            n == text@.len(),
            n == lower@.len(),
            forall|k: int| 0 <= k < i ==> #[trigger] text@[k] == lower@[k] || (text@[k] as u32) + 32 == (lower@[k] as u32),
        decreases n - i,
    {
        let c = text.get_char(i);
        let l = lower.get_char(i);
        if !(c == l || (c as u32) + 32 == (l as u32)) {
            return false;
        }
        i = i + 1;
    }
    true
}

/// Whether the file name is that of a WAV file that is not hidden.
pub fn is_wav_file_name(name: &str) -> (r: bool)
    ensures
        r == is_wav_name(name@),
{
    proof {
        reveal_strlit("wav");
        reveal_strlit("wave");
    }
    let n = name.unicode_len();
    if n > 0 && name.get_char(0) == '.' {
        return false;
    }
    let mut i: usize = n;
    proof {
        assert(name@.subrange(0, n as int) =~= name@);
    }
    while i > 0
        invariant
            i <= n,
            n == name@.len(),
            !is_hidden_name(name@),
            last_dot(name@) == last_dot(name@.subrange(0, i as int)),
        decreases i,
    {
        proof {
            let t = name@.subrange(0, i as int);
            assert(t.drop_last() =~= name@.subrange(0, i as int - 1));
        }
        if name.get_char(i - 1) == '.' {
            if i - 1 == 0 {
                return false;
            }
            let ext = name.substring_char(i, n);
            proof {
                assert(last_dot(name@.subrange(0, i as int)) == Some(i as int - 1));
                assert(name_extension(name@) == Some(ext@));
                assert(!is_hidden_name(name@));
            }
            return matches_ignore_ascii_case(ext, "wav") || matches_ignore_ascii_case(ext, "wave");
        }
        i = i - 1;
    }
    false
}

/// Whether a file found in the audio directory is a WAV that the sources do not hold yet: its
/// name is that of a WAV file that is not hidden, and no source has its path.
pub fn is_missing_wav(existing_paths: &Vec<String>, file_name: &str, path: &str) -> (r: bool)
    ensures
        r == (is_wav_name(file_name@) && forall|k: int| 0 <= k < existing_paths@.len() ==> #[trigger] existing_paths@[k]@ != path@),
{
    if !is_wav_file_name(file_name) {
        return false;
    }
    let mut k: usize = 0;
    while k < existing_paths.len()
        invariant
            k <= existing_paths@.len(),
            forall|m: int| 0 <= m < k ==> #[trigger] existing_paths@[m]@ != path@,
        decreases existing_paths@.len() - k,
    {
        if str_eq(existing_paths[k].as_str(), path) {
            return false;
        }
        k = k + 1;
    }
    true
}

} // verus!
