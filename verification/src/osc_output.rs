//! The decisions of the thread that sends audio analysis to the installations over OSC.
//!
//! Every installation computer that should receive the analysis is an OSC target: a sender and an
//! OSC address. Targets are added, removed and re-addressed by messages from the GUI. About sixty
//! times a second the latest analysis of each installation is sent to each of its targets, unless
//! a target was last sent exactly the same message.
//!
//! Scalars are the bit patterns of the `f32` values of the analysis.

use crate::installation::{self, computer};
use crate::osc::{args_view, is_nan_bits, is_zero_bits, OscArg, OscMessage};
use crate::text::str_eq;
use crate::fx::{fx_clear, fx_get, fx_insert, fx_new, fx_remove};
use fxhash::FxHashMap;
use vstd::prelude::*;

verus! {

broadcast use vstd::std_specs::hash::group_hash_axioms;

/// Data related to a single audio channel.
#[derive(Copy, Clone, Debug)]
pub struct Speaker {
    pub peak: u32,
    pub rms: u32,
}

/// Basic FFT audio analysis results.
#[derive(Copy, Clone, Debug)]
pub struct FftData {
    /// Low, mid and high bands.
    pub lmh: [u32; 3],
    /// More detailed 8-bin data.
    pub bins: [u32; 8],
}

/// Data related to a single frame of audio.
#[derive(Clone, Debug)]
pub struct AudioFrameData {
    pub avg_peak: u32,
    pub avg_rms: u32,
    pub avg_fft: FftData,
    pub speakers: Vec<Speaker>,
}

/// The float arguments carrying the given scalars.
pub open spec fn float_args(values: Seq<u32>) -> Seq<OscArg> {
    values.map_values(|f: u32| OscArg::Float(f))
}

/// The index of a speaker as an OSC integer.
pub open spec fn speaker_index(k: int) -> i32 {
    k as i32
}

/// The index, peak and RMS of each speaker, in order.
pub open spec fn speaker_args(speakers: Seq<Speaker>) -> Seq<OscArg>
    decreases speakers.len(),
{
    if speakers.len() == 0 {
        Seq::empty()
    } else {
        let last = speakers.last();
        speaker_args(speakers.drop_last())
            + seq![OscArg::Int(speaker_index(speakers.len() - 1)), OscArg::Float(last.peak), OscArg::Float(last.rms)]
    }
}

/// The arguments of the message that carries a frame of analysis: the peak and RMS averaged over
/// the channels, the low, mid and high bands, the eight bins, then the index, peak and RMS of each
/// speaker.
pub open spec fn spec_frame_args(data: AudioFrameData) -> Seq<OscArg> {
    seq![OscArg::Float(data.avg_peak), OscArg::Float(data.avg_rms)]
        + float_args(data.avg_fft.lmh@)
        + float_args(data.avg_fft.bins@)
        + speaker_args(data.speakers@)
}

/// The three arguments of the speaker at position `k`: its index, its peak and its RMS.
proof fn lemma_speaker_args_at(speakers: Seq<Speaker>, k: int)
    requires
        0 <= k < speakers.len(),
    ensures
        speaker_args(speakers).len() == 3 * speakers.len(),
        speaker_args(speakers)[3 * k] == OscArg::Int(speaker_index(k)),
        speaker_args(speakers)[3 * k + 1] == OscArg::Float(speakers[k].peak),
        speaker_args(speakers)[3 * k + 2] == OscArg::Float(speakers[k].rms),
    decreases speakers.len(),
{
    let p = speakers.drop_last();
    let t = seq![OscArg::Int(speaker_index(speakers.len() - 1)), OscArg::Float(speakers.last().peak), OscArg::Float(speakers.last().rms)];
    assert(speaker_args(speakers) == speaker_args(p) + t);
    lemma_speaker_args_len(p);
    if k < p.len() {
        lemma_speaker_args_at(p, k);
        assert(p[k] == speakers[k]);
    }
}

/// Each speaker takes three arguments.
proof fn lemma_speaker_args_len(speakers: Seq<Speaker>)
    ensures
        speaker_args(speakers).len() == 3 * speakers.len(),
    decreases speakers.len(),
{
    if speakers.len() > 0 {
        lemma_speaker_args_len(speakers.drop_last());
    }
}

/// A frame of analysis is sent as thirteen floats (the average peak and RMS, the low, mid and
/// high bands, the eight bins) followed by three arguments per speaker: its index, peak and RMS.
pub proof fn lemma_frame_args_layout(data: AudioFrameData)
    ensures
        spec_frame_args(data).len() == 13 + 3 * data.speakers@.len(),
        spec_frame_args(data)[0] == OscArg::Float(data.avg_peak),
        spec_frame_args(data)[1] == OscArg::Float(data.avg_rms),
        forall|j: int| 0 <= j < 3 ==> spec_frame_args(data)[2 + j] == OscArg::Float(#[trigger] data.avg_fft.lmh@[j]),
        forall|j: int| 0 <= j < 8 ==> spec_frame_args(data)[5 + j] == OscArg::Float(#[trigger] data.avg_fft.bins@[j]),
        forall|k: int| 0 <= k < data.speakers@.len() ==>
            #[trigger] spec_frame_args(data)[13 + 3 * k] == OscArg::Int(speaker_index(k)),
        forall|k: int| 0 <= k < data.speakers@.len() ==>
            spec_frame_args(data)[14 + 3 * k] == OscArg::Float((#[trigger] data.speakers@[k]).peak),
        forall|k: int| 0 <= k < data.speakers@.len() ==>
            spec_frame_args(data)[15 + 3 * k] == OscArg::Float((#[trigger] data.speakers@[k]).rms),
{
    lemma_speaker_args_len(data.speakers@);
    let head = seq![OscArg::Float(data.avg_peak), OscArg::Float(data.avg_rms)]
        + float_args(data.avg_fft.lmh@)
        + float_args(data.avg_fft.bins@);
    assert(head.len() == 13);
    assert(spec_frame_args(data) == head + speaker_args(data.speakers@));
    assert forall|k: int| 0 <= k < data.speakers@.len() implies
        #[trigger] spec_frame_args(data)[13 + 3 * k] == OscArg::Int(speaker_index(k))
        && spec_frame_args(data)[14 + 3 * k] == OscArg::Float(data.speakers@[k].peak)
        && spec_frame_args(data)[15 + 3 * k] == OscArg::Float(data.speakers@[k].rms) by {
        lemma_speaker_args_at(data.speakers@, k);
        assert(spec_frame_args(data)[13 + 3 * k] == speaker_args(data.speakers@)[3 * k]);
        assert(spec_frame_args(data)[14 + 3 * k] == speaker_args(data.speakers@)[3 * k + 1]);
        assert(spec_frame_args(data)[15 + 3 * k] == speaker_args(data.speakers@)[3 * k + 2]);
    }
    assert forall|k: int| 0 <= k < data.speakers@.len() implies
        spec_frame_args(data)[14 + 3 * k] == OscArg::Float((#[trigger] data.speakers@[k]).peak)
        && spec_frame_args(data)[15 + 3 * k] == OscArg::Float(data.speakers@[k].rms) by {
        assert(spec_frame_args(data)[13 + 3 * k] == OscArg::Int(speaker_index(k)));
    }
}

/// The arguments of the message that carries a frame of analysis.
pub fn frame_args(data: &AudioFrameData) -> (r: Vec<OscArg>)
    ensures
        r@ == spec_frame_args(*data),
{
    let mut args: Vec<OscArg> = Vec::new();
    args.push(OscArg::Float(data.avg_peak));
    args.push(OscArg::Float(data.avg_rms));
    let mut i: usize = 0;
    while i < 3
        invariant
            i <= 3,
            args@ == seq![OscArg::Float(data.avg_peak), OscArg::Float(data.avg_rms)]
                + float_args(data.avg_fft.lmh@.take(i as int)),
        decreases 3 - i,
    {
        proof {
            assert(float_args(data.avg_fft.lmh@.take(i as int + 1))
                =~= float_args(data.avg_fft.lmh@.take(i as int)).push(OscArg::Float(data.avg_fft.lmh@[i as int])));
        }
        args.push(OscArg::Float(data.avg_fft.lmh[i]));
        i = i + 1;
    }
    proof {
        assert(data.avg_fft.lmh@.take(3) =~= data.avg_fft.lmh@);
    }
    let ghost head = args@;
    let mut i: usize = 0;
    while i < 8
        invariant
            i <= 8,
            args@ == head + float_args(data.avg_fft.bins@.take(i as int)),
        decreases 8 - i,
    {
        proof {
            assert(float_args(data.avg_fft.bins@.take(i as int + 1))
                =~= float_args(data.avg_fft.bins@.take(i as int)).push(OscArg::Float(data.avg_fft.bins@[i as int])));
        }
        args.push(OscArg::Float(data.avg_fft.bins[i]));
        i = i + 1;
    }
    proof {
        assert(data.avg_fft.bins@.take(8) =~= data.avg_fft.bins@);
    }
    let ghost head = args@;
    let mut i: usize = 0;
    proof {
        assert(data.speakers@.take(0) =~= Seq::<Speaker>::empty());
        assert(head + speaker_args(data.speakers@.take(0)) =~= head);
    }
    while i < data.speakers.len()
        invariant
            i <= data.speakers@.len(),
            args@ == head + speaker_args(data.speakers@.take(i as int)),
        decreases data.speakers@.len() - i,
    {
        let s = data.speakers[i];
        proof {
            let t = data.speakers@.take(i as int + 1);
            assert(t.drop_last() =~= data.speakers@.take(i as int));
            assert(t.last() == s);
        }
        args.push(OscArg::Int(i as i32));
        args.push(OscArg::Float(s.peak));
        args.push(OscArg::Float(s.rms));
        proof {
            assert(args@ =~= head + speaker_args(data.speakers@.take(i as int + 1)));
        }
        i = i + 1;
    }
    proof {
        assert(data.speakers@.take(data.speakers@.len() as int) =~= data.speakers@);
    }
    args
}

/// An OSC target: where the analysis of an installation is sent for one of its computers.
///
/// `S` identifies the OSC sender, which the caller holds.
#[derive(Clone, Debug)]
pub struct Target<S> {
    pub osc_tx: S,
    pub osc_addr: String,
}

/// Specifies where the target OSC sender should come from.
#[derive(Clone, Debug)]
pub enum TargetSource<S> {
    /// A brand new OSC sender.
    New(S),
    /// Use the sender currently used by the given installation computer.
    Existing(installation::Id, computer::Id),
}

/// Add or remove an OSC target for a given installation.
#[derive(Clone, Debug)]
pub enum OscTarget<S> {
    Add(installation::Id, computer::Id, TargetSource<S>, String),
    Remove(installation::Id, computer::Id),
    RemoveInstallation(installation::Id),
    UpdateAddr(installation::Id, computer::Id, String),
}

/// The targets of one installation, or none.
pub open spec fn targets_of<S>(m: Map<usize, Map<usize, Target<S>>>, i: usize) -> Map<usize, Target<S>> {
    if m.contains_key(i) { m[i] } else { Map::empty() }
}

/// The targets after a change.
pub open spec fn spec_apply<S>(m: Map<usize, Map<usize, Target<S>>>, change: OscTarget<S>) -> Map<usize, Map<usize, Target<S>>> {
    match change {
        OscTarget::Add(i, c, source, addr) => {
            let tx = match source {
                TargetSource::New(tx) => Some(tx),
                TargetSource::Existing(i2, c2) => if targets_of(m, i2.0).contains_key(c2.0) {
                    Some(targets_of(m, i2.0)[c2.0].osc_tx)
                } else {
                    None
                },
            };
            match tx {
                Some(tx) => m.insert(i.0, targets_of(m, i.0).insert(c.0, Target { osc_tx: tx, osc_addr: addr })),
                None => m,
            }
        },
        OscTarget::Remove(i, c) => if m.contains_key(i.0) {
            m.insert(i.0, m[i.0].remove(c.0))
        } else {
            m
        },
        OscTarget::RemoveInstallation(i) => m.remove(i.0),
        OscTarget::UpdateAddr(i, c, addr) => if targets_of(m, i.0).contains_key(c.0) {
            m.insert(i.0, m[i.0].insert(c.0, Target { osc_tx: m[i.0][c.0].osc_tx, osc_addr: addr }))
        } else {
            m
        },
    }
}

/// What each change does to the targets. An `Add` with a new sender makes that sender and the
/// address the computer's target, whether or not it had one; an `Add` naming another computer's
/// sender uses that computer's sender if it has a target, and changes nothing otherwise; a
/// `Remove` leaves the computer without a target; a `RemoveInstallation` leaves the installation
/// without targets; an `UpdateAddr` keeps a target's sender and replaces its address. No change
/// touches the targets of another installation, nor of another computer.
pub proof fn lemma_apply_effects<S>(m: Map<usize, Map<usize, Target<S>>>, change: OscTarget<S>)
    ensures
        ({
            let r = spec_apply(m, change);
            &&& match change {
                OscTarget::Add(i, c, TargetSource::New(tx), addr) => {
                    &&& r.contains_key(i.0) && r[i.0].contains_key(c.0)
                    &&& r[i.0][c.0] == (Target { osc_tx: tx, osc_addr: addr })
                },
                OscTarget::Add(i, c, TargetSource::Existing(i2, c2), addr) => {
                    &&& (m.contains_key(i2.0) && m[i2.0].contains_key(c2.0)) ==> {
                        &&& r.contains_key(i.0) && r[i.0].contains_key(c.0)
                        &&& r[i.0][c.0] == (Target { osc_tx: m[i2.0][c2.0].osc_tx, osc_addr: addr })
                    }
                    &&& !(m.contains_key(i2.0) && m[i2.0].contains_key(c2.0)) ==> r == m
                },
                OscTarget::Remove(i, c) => !(r.contains_key(i.0) && r[i.0].contains_key(c.0)),
                OscTarget::RemoveInstallation(i) => !r.contains_key(i.0),
                OscTarget::UpdateAddr(i, c, addr) => {
                    &&& (m.contains_key(i.0) && m[i.0].contains_key(c.0)) ==> {
                        &&& r.contains_key(i.0) && r[i.0].contains_key(c.0)
                        &&& r[i.0][c.0] == (Target { osc_tx: m[i.0][c.0].osc_tx, osc_addr: addr })
                    }
                    &&& !(m.contains_key(i.0) && m[i.0].contains_key(c.0)) ==> r == m
                },
            }
            &&& forall|j: usize| j != change_installation(change) ==>
                (r.contains_key(j) == m.contains_key(j) && (m.contains_key(j) ==> r[j] == m[j]))
            &&& forall|d: usize| d != change_computer(change) && m.contains_key(change_installation(change))
                && #[trigger] m[change_installation(change)].contains_key(d) && !(change is RemoveInstallation) ==>
                r.contains_key(change_installation(change))
                && r[change_installation(change)].contains_key(d)
                && r[change_installation(change)][d] == m[change_installation(change)][d]
        }),
{
    match change {
        OscTarget::Add(i, c, source, addr) => {
            if m.contains_key(i.0) {
                assert(targets_of(m, i.0) == m[i.0]);
            }
        },
        _ => {},
    }
}

/// The installation that a change concerns.
pub open spec fn change_installation<S>(change: OscTarget<S>) -> usize {
    match change {
        OscTarget::Add(i, _, _, _) => i.0,
        OscTarget::Remove(i, _) => i.0,
        OscTarget::RemoveInstallation(i) => i.0,
        OscTarget::UpdateAddr(i, _, _) => i.0,
    }
}

/// The computer that a change concerns (none for the removal of a whole installation, which
/// concerns all of its computers).
pub open spec fn change_computer<S>(change: OscTarget<S>) -> usize {
    match change {
        OscTarget::Add(_, c, _, _) => c.0,
        OscTarget::Remove(_, c) => c.0,
        OscTarget::RemoveInstallation(_) => 0,
        OscTarget::UpdateAddr(_, c, _) => c.0,
    }
}

/// A message and its contents as sequences.
pub open spec fn message_view(msg: OscMessage) -> (Seq<char>, Option<Seq<OscArg>>) {
    (msg.addr@, args_view(msg.args))
}

/// `f32` equality on bit patterns: a NaN equals nothing, the two zeros are equal, and otherwise
/// equal values have equal bits.
pub open spec fn float_bits_eq(a: u32, b: u32) -> bool {
    !is_nan_bits(a) && !is_nan_bits(b) && (a == b || (is_zero_bits(a) && is_zero_bits(b)))
}

/// Whether two arguments are equal: integers by value, floats as `f32` values. An `Other`
/// argument carries no value here, so it is never taken to equal another.
pub open spec fn arg_eq(a: OscArg, b: OscArg) -> bool {
    match (a, b) {
        (OscArg::Int(x), OscArg::Int(y)) => x == y,
        (OscArg::Float(x), OscArg::Float(y)) => float_bits_eq(x, y),
        _ => false,
    }
}

/// Whether a message equals one with the given address and arguments: the same address, and
/// equal arguments in the same order.
pub open spec fn message_eq_parts(a: OscMessage, addr: Seq<char>, args: Option<Seq<OscArg>>) -> bool {
    &&& a.addr@ == addr
    &&& match (args_view(a.args), args) {
        (None, None) => true,
        (Some(x), Some(y)) => x.len() == y.len() && forall|i: int| 0 <= i < x.len() ==> #[trigger] arg_eq(x[i], y[i]),
        _ => false,
    }
}

/// Whether two messages are equal.
pub open spec fn message_eq(a: OscMessage, b: OscMessage) -> bool {
    message_eq_parts(a, b.addr@, args_view(b.args))
}

/// Arguments compare as the original's `OscType` values do: integers by value, floats as `f32`
/// (a NaN equals nothing, not even itself; `+0.0` equals `-0.0`; any other float equals itself
/// and only values with its bits), and an integer never equals a float. The comparison is
/// symmetric.
pub proof fn lemma_arg_eq_laws(a: OscArg, b: OscArg)
    ensures
        arg_eq(a, b) == arg_eq(b, a),
        forall|x: i32, y: i32| a == OscArg::Int(x) && b == OscArg::Int(y) ==> (arg_eq(a, b) <==> x == y),
        forall|x: u32, y: i32| a == OscArg::Float(x) && b == OscArg::Int(y) ==> !arg_eq(a, b),
        forall|x: u32| a == OscArg::Float(x) && is_nan_bits(x) ==> !arg_eq(a, b),
        forall|x: u32| a == OscArg::Float(x) && !is_nan_bits(x) ==> arg_eq(a, a),
        forall|x: u32, y: u32| a == OscArg::Float(x) && b == OscArg::Float(y) && !is_nan_bits(x) && !is_nan_bits(y)
            && !is_zero_bits(x) ==> (arg_eq(a, b) <==> x == y),
        arg_eq(OscArg::Float(0x8000_0000u32), OscArg::Float(0u32)),
{
    assert(is_zero_bits(0x8000_0000u32) && is_zero_bits(0u32)) by (bit_vector);
    assert(!is_nan_bits(0x8000_0000u32) && !is_nan_bits(0u32)) by (bit_vector);
}

/// Message equality is symmetric: equal messages have the same address and pairwise equal
/// arguments either way round.
pub proof fn lemma_message_eq_symmetric(a: OscMessage, b: OscMessage)
    ensures
        message_eq(a, b) == message_eq(b, a),
        message_eq(a, b) ==> a.addr@ == b.addr@,
{
    if let (Some(x), Some(y)) = (args_view(a.args), args_view(b.args)) {
        if x.len() == y.len() {
            if forall|i: int| 0 <= i < x.len() ==> #[trigger] arg_eq(x[i], y[i]) {
                assert forall|i: int| 0 <= i < y.len() implies #[trigger] arg_eq(y[i], x[i]) by {
                    lemma_arg_eq_laws(x[i], y[i]);
                }
            }
            if forall|i: int| 0 <= i < y.len() ==> #[trigger] arg_eq(y[i], x[i]) {
                assert forall|i: int| 0 <= i < x.len() implies #[trigger] arg_eq(x[i], y[i]) by {
                    lemma_arg_eq_laws(y[i], x[i]);
                }
            }
        }
    }
}

/// Whether two arguments are equal.
fn same_arg(a: OscArg, b: OscArg) -> (r: bool)
    ensures
        r == arg_eq(a, b),
{
    match (a, b) {
        (OscArg::Int(x), OscArg::Int(y)) => x == y,
        (OscArg::Float(x), OscArg::Float(y)) => {
            let x_nan = (x & 0x7f80_0000u32) == 0x7f80_0000u32 && (x & 0x007f_ffffu32) != 0;
            let y_nan = (y & 0x7f80_0000u32) == 0x7f80_0000u32 && (y & 0x007f_ffffu32) != 0;
            let zeros = (x & 0x7fff_ffffu32) == 0 && (y & 0x7fff_ffffu32) == 0;
            !x_nan && !y_nan && (x == y || zeros)
        },
        _ => false,
    }
}

/// Whether two messages are equal: the same address and equal arguments.
pub fn same_message(a: &OscMessage, b: &OscMessage) -> (r: bool)
    ensures
        r == message_eq(*a, *b),
{
    if !str_eq(a.addr.as_str(), b.addr.as_str()) {
        return false;
    }
    match (&a.args, &b.args) {
        (None, None) => true,
        (Some(x), Some(y)) => {
            if x.len() != y.len() {
                return false;
            }
            let mut k: usize = 0;
            while k < x.len()
                invariant
                    k <= x@.len(),
                    x@.len() == y@.len(),
                    args_view(a.args) == Some(x@),
                    args_view(b.args) == Some(y@),
                    a.addr@ == b.addr@,
                    forall|j: int| 0 <= j < k ==> #[trigger] arg_eq(x@[j], y@[j]),
                decreases x@.len() - k,
            {
                if !same_arg(x[k], y[k]) {
                    return false;
                }
                k = k + 1;
            }
            true
        },
        _ => false,
    }
}

/// The OSC targets of every installation and the message last sent to each target.
pub struct Output<S> {
    targets: FxHashMap<usize, FxHashMap<usize, Target<S>>>,
    last_sent: FxHashMap<usize, FxHashMap<usize, OscMessage>>,
}

/// The message last sent to a computer of an installation, if any.
pub open spec fn last_sent_to(m: Map<usize, Map<usize, OscMessage>>, i: usize, c: usize) -> Option<OscMessage> {
    if m.contains_key(i) && m[i].contains_key(c) { Some(m[i][c]) } else { None }
}

/// The message that carries `args` to a target: its address and the arguments.
pub open spec fn target_message<S>(target: Target<S>, args: Seq<OscArg>) -> (Seq<char>, Option<Seq<OscArg>>) {
    (target.osc_addr@, Some(args))
}

impl<S> Output<S> {
    /// Every map is finite.
    #[verifier::type_invariant]
    spec fn inv(self) -> bool {
        &&& self.targets@.dom().finite()
        &&& self.last_sent@.dom().finite()
        &&& forall|i: usize| #[trigger] self.targets@.contains_key(i) ==> self.targets@[i]@.dom().finite()
        &&& forall|i: usize| #[trigger] self.last_sent@.contains_key(i) ==> self.last_sent@[i]@.dom().finite()
    }
}

impl<S: Copy> Output<S> {
    /// The targets of every installation, by installation and computer.
    pub closed spec fn view(&self) -> Map<usize, Map<usize, Target<S>>> {
        Map::new(|i: usize| self.targets@.contains_key(i), |i: usize| self.targets@[i]@)
    }

    /// The message last sent to each computer of each installation.
    pub closed spec fn sent(&self) -> Map<usize, Map<usize, OscMessage>> {
        Map::new(|i: usize| self.last_sent@.contains_key(i), |i: usize| self.last_sent@[i]@)
    }

    /// No targets, nothing sent.
    pub fn new() -> (r: Self)
        ensures
            r@ == Map::<usize, Map<usize, Target<S>>>::empty(),
            r.sent() == Map::<usize, Map<usize, OscMessage>>::empty(),
    {
        let r = Output { targets: fx_new(), last_sent: fx_new() };
        proof {
            assert(r@ =~= Map::<usize, Map<usize, Target<S>>>::empty());
            assert(r.sent() =~= Map::<usize, Map<usize, OscMessage>>::empty());
        }
        r
    }

    /// Forget every target and everything sent, as the project changes.
    pub fn clear(&mut self)
        ensures
            final(self)@ == Map::<usize, Map<usize, Target<S>>>::empty(),
            final(self).sent() == Map::<usize, Map<usize, OscMessage>>::empty(),
    {
        proof { use_type_invariant(&*self); }
        let mut targets = fx_new();
        std::mem::swap(&mut targets, &mut self.targets);
        fx_clear(&mut targets);
        self.targets = targets;
        let mut last_sent = fx_new();
        std::mem::swap(&mut last_sent, &mut self.last_sent);
        fx_clear(&mut last_sent);
        self.last_sent = last_sent;
        proof {
            assert(self@ =~= Map::<usize, Map<usize, Target<S>>>::empty());
            assert(self.sent() =~= Map::<usize, Map<usize, OscMessage>>::empty());
        }
    }

    /// The sender of the target of a computer of an installation, if there is one.
    fn sender_of(&self, i: usize, c: usize) -> (r: Option<S>)
        ensures
            r == (if targets_of(self@, i).contains_key(c) { Some(targets_of(self@, i)[c].osc_tx) } else { None }),
    {
        match fx_get(&self.targets, &i) {
            Some(inner) => match fx_get(inner, &c) {
                Some(t) => Some(t.osc_tx),
                None => None,
            },
            None => None,
        }
    }

    /// The targets of one installation, taken out of the map.
    fn take_installation(&mut self, i: usize) -> (r: FxHashMap<usize, Target<S>>)
        ensures
            r@ == targets_of(old(self)@, i),
            r@.dom().finite(),
            final(self)@ == old(self)@.remove(i),
            final(self).sent() == old(self).sent(),
    {
        proof { use_type_invariant(&*self); }
        let mut targets = fx_new();
        std::mem::swap(&mut targets, &mut self.targets);
        let r = match fx_remove(&mut targets, &i) {
            Some(inner) => inner,
            None => {
                let inner = fx_new();
                proof {
                    assert(inner@ =~= Map::<usize, Target<S>>::empty());
                }
                inner
            },
        };
        self.targets = targets;
        proof {
            assert(self@ =~= old(self)@.remove(i));
            assert(r@ =~= targets_of(old(self)@, i));
        }
        r
    }

    /// Put the targets of one installation back into the map.
    fn put_installation(&mut self, i: usize, inner: FxHashMap<usize, Target<S>>)
        requires
            inner@.dom().finite(),
        ensures
            final(self)@ == old(self)@.insert(i, inner@),
            final(self).sent() == old(self).sent(),
    {
        proof { use_type_invariant(&*self); }
        let mut targets = fx_new();
        std::mem::swap(&mut targets, &mut self.targets);
        fx_insert(&mut targets, i, inner);
        self.targets = targets;
        proof {
            assert(self@ =~= old(self)@.insert(i, inner@));
        }
    }

    /// Add, remove or re-address an OSC target.
    ///
    /// A target that should share the sender of a computer that has no target is not added.
    pub fn apply(&mut self, change: OscTarget<S>)
        ensures
            final(self)@ == spec_apply(old(self)@, change),
            final(self).sent() == old(self).sent(),
            // A new sender becomes the computer's sender, with the new address, whether or not
            // the computer had a target.
            forall|i: installation::Id, c: computer::Id, tx: S, addr: String|
                change == OscTarget::Add(i, c, TargetSource::New(tx), addr) ==> {
                    &&& final(self)@.contains_key(i.0) && final(self)@[i.0].contains_key(c.0)
                    &&& final(self)@[i.0][c.0] == (Target { osc_tx: tx, osc_addr: addr })
                },
            // The targets of other installations are untouched.
            forall|j: usize| j != change_installation(change) ==>
                (final(self)@.contains_key(j) == old(self)@.contains_key(j)
                    && (old(self)@.contains_key(j) ==> final(self)@[j] == old(self)@[j])),
    {
        let ghost ch = change;
        proof { lemma_apply_effects(old(self)@, ch); }
        match change {
            OscTarget::Add(i, c, source, addr) => {
                let tx = match source {
                    TargetSource::New(tx) => Some(tx),
                    TargetSource::Existing(i2, c2) => self.sender_of(i2.0, c2.0),
                };
                match tx {
                    Some(tx) => {
                        let mut inner = self.take_installation(i.0);
                        fx_insert(&mut inner, c.0, Target { osc_tx: tx, osc_addr: addr });
                        self.put_installation(i.0, inner);
                        proof {
                            assert(old(self)@.remove(i.0).insert(i.0, targets_of(old(self)@, i.0).insert(c.0, Target { osc_tx: tx, osc_addr: addr }))
                                =~= old(self)@.insert(i.0, targets_of(old(self)@, i.0).insert(c.0, Target { osc_tx: tx, osc_addr: addr })));
                        }
                    },
                    None => {},
                }
            },
            OscTarget::Remove(i, c) => {
                if fx_get(&self.targets, &i.0).is_some() {
                    let mut inner = self.take_installation(i.0);
                    fx_remove(&mut inner, &c.0);
                    self.put_installation(i.0, inner);
                    proof {
                        assert(old(self)@.remove(i.0).insert(i.0, old(self)@[i.0].remove(c.0))
                            =~= old(self)@.insert(i.0, old(self)@[i.0].remove(c.0)));
                    }
                }
            },
            OscTarget::RemoveInstallation(i) => {
                self.take_installation(i.0);
            },
            OscTarget::UpdateAddr(i, c, addr) => {
                if self.sender_of(i.0, c.0).is_some() {
                    let mut inner = self.take_installation(i.0);
                    let old_target = fx_remove(&mut inner, &c.0).unwrap();
                    fx_insert(&mut inner, c.0, Target { osc_tx: old_target.osc_tx, osc_addr: addr });
                    self.put_installation(i.0, inner);
                    proof {
                        let t = Target { osc_tx: old(self)@[i.0][c.0].osc_tx, osc_addr: addr };
                        assert(targets_of(old(self)@, i.0).remove(c.0).insert(c.0, t)
                            =~= old(self)@[i.0].insert(c.0, t));
                        assert(old(self)@.remove(i.0).insert(i.0, old(self)@[i.0].insert(c.0, t))
                            =~= old(self)@.insert(i.0, old(self)@[i.0].insert(c.0, t)));
                    }
                }
            },
        }
    }

    /// The targets of an installation, by computer, if it has any entry.
    pub fn targets_of(&self, installation: installation::Id) -> (r: Option<&FxHashMap<usize, Target<S>>>)
        ensures
            match r {
                Some(inner) => self@.contains_key(installation.0) && inner@ == self@[installation.0],
                None => !self@.contains_key(installation.0),
            },
    {
        fx_get(&self.targets, &installation.0)
    }

    /// The message to send to the target of a computer of an installation, carrying `args`:
    /// `None` if there is no such target, or if exactly this message was the last one sent to it.
    pub fn message_for(&self, installation: installation::Id, computer: computer::Id, args: &Vec<OscArg>) -> (r: Option<OscMessage>)
        ensures
            match r {
                Some(msg) => {
                    &&& targets_of(self@, installation.0).contains_key(computer.0)
                    &&& message_view(msg) == target_message(targets_of(self@, installation.0)[computer.0], args@)
                    &&& !(last_sent_to(self.sent(), installation.0, computer.0) matches Some(last)
                        && message_eq(last, msg))
                },
                None => !targets_of(self@, installation.0).contains_key(computer.0)
                    || (last_sent_to(self.sent(), installation.0, computer.0) matches Some(last)
                        && message_eq_parts(last, targets_of(self@, installation.0)[computer.0].osc_addr@, Some(args@))),
            },
    {
        let target = match fx_get(&self.targets, &installation.0) {
            Some(inner) => match fx_get(inner, &computer.0) {
                Some(t) => t,
                None => return None,
            },
            None => return None,
        };
        let msg = OscMessage { addr: target.osc_addr.clone(), args: Some(copy_args(args)) };
        let last = match fx_get(&self.last_sent, &installation.0) {
            Some(inner) => fx_get(inner, &computer.0),
            None => None,
        };
        match last {
            Some(last) => {
                if same_message(last, &msg) {
                    None
                } else {
                    Some(msg)
                }
            },
            None => Some(msg),
        }
    }

    /// Remember the message that was sent to the target of a computer of an installation.
    pub fn record_sent(&mut self, installation: installation::Id, computer: computer::Id, msg: OscMessage)
        ensures
            final(self)@ == old(self)@,
            final(self).sent() == old(self).sent().insert(
                installation.0,
                (if old(self).sent().contains_key(installation.0) {
                    old(self).sent()[installation.0]
                } else {
                    Map::empty()
                }).insert(computer.0, msg),
            ),
    {
        proof { use_type_invariant(&*self); }
        let mut last_sent = fx_new();
        std::mem::swap(&mut last_sent, &mut self.last_sent);
        let mut inner = match fx_remove(&mut last_sent, &installation.0) {
            Some(inner) => inner,
            None => {
                let inner = fx_new();
                proof {
                    assert(inner@ =~= Map::<usize, OscMessage>::empty());
                }
                inner
            },
        };
        fx_insert(&mut inner, computer.0, msg);
        fx_insert(&mut last_sent, installation.0, inner);
        self.last_sent = last_sent;
        proof {
            assert(self.sent() =~= old(self).sent().insert(
                installation.0,
                (if old(self).sent().contains_key(installation.0) {
                    old(self).sent()[installation.0]
                } else {
                    Map::empty()
                }).insert(computer.0, msg),
            ));
        }
    }
}

/// A copy of the arguments.
fn copy_args(args: &Vec<OscArg>) -> (r: Vec<OscArg>)
    ensures
        r@ == args@,
{
    let mut r: Vec<OscArg> = Vec::new();
    let mut k: usize = 0;
    while k < args.len()
        invariant
            k <= args@.len(),
            r@ == args@.take(k as int),
        decreases args@.len() - k,
    {
        r.push(args[k]);
        k = k + 1;
        proof {
            assert(r@ =~= args@.take(k as int));
        }
    }
    proof {
        assert(args@.take(args@.len() as int) =~= args@);
    }
    r
}

/// Once a message is recorded as sent to the target of a computer of an installation, it is the
/// last message sent to that target, and what was last sent to every other target is unchanged;
/// so `message_for` offers that target an equal message no more (a message with a NaN or an
/// `Other` argument equals no message, and is offered again).
pub proof fn lemma_recorded_message_not_resent(
    sent: Map<usize, Map<usize, OscMessage>>,
    i: usize,
    c: usize,
    msg: OscMessage,
    other_i: usize,
    other_c: usize,
)
    requires
        other_i != i || other_c != c,
    ensures
        ({
            let after = sent.insert(i, (if sent.contains_key(i) { sent[i] } else { Map::empty() }).insert(c, msg));
            &&& last_sent_to(after, i, c) == Some(msg)
            &&& last_sent_to(after, other_i, other_c) == last_sent_to(sent, other_i, other_c)
        }),
{
}

} // verus!
