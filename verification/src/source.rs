//! Audio sources and the envelope applied to the signals of their sounds.
//!
//! Audio sources come in two kinds: pre-rendered n-channel WAV files, and realtime input from
//! some other currently running program. A sound plays a source's signal through an attack
//! envelope, a release envelope and an optional maximum duration; all three are counted in
//! frames (`Samples`, as in `time_calc`).

pub mod realtime;

use crate::utils::Range;
use vstd::prelude::*;

verus! {

/// A unique identifier for a source.
#[derive(Copy, Clone, Debug, PartialEq, Eq, Hash)]
pub struct Id(pub u64);

impl Id {
    /// The first source id.
    pub fn initial() -> (r: Id)
        ensures
            r == Id(0),
    {
        Id(0)
    }
}

/// The playback mode of a WAV source.
#[derive(Copy, Clone, Debug, PartialEq, Eq)]
pub enum Playback {
    /// When the WAV is introduced, play it out from the beginning of the file.
    Retrigger,
    /// When the WAV is introduced, start playing from its position within the global continuous
    /// timeline, as though it were always playing and only muted while absent.
    Continuous,
}

/// The number of variants within the `Playback` enum.
pub const NUM_PLAYBACK_OPTIONS: usize = 2;

/// WAV sources play from the beginning by default.
pub fn default_playback() -> (r: Playback)
    ensures
        r == Playback::Retrigger,
{
    Playback::Retrigger
}

/// WAV sources do not loop by default.
pub fn default_should_loop() -> (r: bool)
    ensures
        !r,
{
    false
}

/// The playback mode listed at the given index of the source editor.
pub open spec fn playback_at(i: int) -> Option<Playback> {
    if i == 0 { Some(Playback::Retrigger) } else if i == 1 { Some(Playback::Continuous) } else { None }
}

/// The index at which the source editor lists the playback mode.
pub open spec fn playback_index(p: Playback) -> int {
    match p {
        Playback::Retrigger => 0,
        Playback::Continuous => 1,
    }
}

/// Listing the playback modes by index and reading them back are inverse to each other.
pub proof fn lemma_playback_index_roundtrip(p: Playback, i: int)
    ensures
        playback_at(playback_index(p)) == Some(p),
        0 <= playback_index(p) < NUM_PLAYBACK_OPTIONS,
        playback_at(i) matches Some(q) ==> playback_index(q) == i,
        (playback_at(i) is Some) <==> (0 <= i < NUM_PLAYBACK_OPTIONS),
{
}

/// The playback mode listed at the given index of the source editor.
pub fn playback_from_index(i: usize) -> (r: Option<Playback>)
    ensures
        r == playback_at(i as int),
{
    match i {
        0 => Some(Playback::Retrigger),
        1 => Some(Playback::Continuous),
        _ => None,
    }
}

/// The index at which the source editor lists the playback mode.
pub fn index_from_playback(playback: &Playback) -> (r: usize)
    ensures
        r == playback_index(*playback),
{
    match *playback {
        Playback::Retrigger => 0,
        Playback::Continuous => 1,
    }
}

/// By default a soundscape source plays at most one sound at a time.
pub fn simultaneous_sounds() -> (r: Range<usize>)
    ensures
        r == (Range::<usize> { min: 0, max: 1 }),
{
    Range { min: 0, max: 1 }
}

/// A gain applied to the samples of a frame: either full, or the ratio of two frame counts.
#[derive(Copy, Clone, Debug, PartialEq, Eq)]
pub enum Gain {
    Full,
    Ratio { numerator: i64, denominator: i64 },
}

/// The gain lies in `0..=1`: full, or a ratio of a count to a positive count no smaller.
pub open spec fn gain_in_unit(g: Gain) -> bool {
    match g {
        Gain::Full => true,
        Gain::Ratio { numerator, denominator } => 0 <= numerator <= denominator && denominator > 0,
    }
}

/// Both gains of a frame lie in `0..=1`, and so does their product.
pub open spec fn frame_gain_in_unit(g: FrameGain) -> bool {
    gain_in_unit(g.attack) && gain_in_unit(g.release)
}

/// The gain of a frame: the product of its attack gain and its release gain.
#[derive(Copy, Clone, Debug, PartialEq, Eq)]
pub struct FrameGain {
    pub attack: Gain,
    pub release: Gain,
}

/// Counts the frames of a signal until `current_frame` reaches `duration_frames`.
#[derive(Copy, Clone, Debug, PartialEq, Eq)]
pub struct Duration {
    duration_frames: i64,
    current_frame: i64,
}

/// The attack envelope: the gain rises from `0` to full over `duration_frames` frames.
#[derive(Copy, Clone, Debug, PartialEq, Eq)]
pub struct Attack {
    duration_frames: i64,
    current_frame: i64,
}

/// The release envelope: the gain falls towards `0` as `frame_countdown` runs down.
#[derive(Copy, Clone, Debug, PartialEq, Eq)]
pub struct Release {
    duration_frames: i64,
    frame_countdown: i64,
}

impl Duration {
    /// The duration and the number of frames already counted.
    pub closed spec fn view(&self) -> (int, int) {
        (self.duration_frames as int, self.current_frame as int)
    }

    /// The frame counter never goes below `0`, nor past a non-negative duration.
    pub closed spec fn wf(&self) -> bool {
        0 <= self.current_frame && (self.current_frame <= self.duration_frames || self.current_frame == 0)
    }

    /// Construct a `Duration` from its frames.
    pub fn from_frames(duration_frames: i64) -> (r: Self)
        ensures
            r@ == (duration_frames as int, 0int),
            r.wf(),
    {
        Duration { duration_frames, current_frame: 0 }
    }

    /// The number of remaining frames in the duration.
    pub fn remaining_frames(&self) -> (r: i64)
        requires
            self.wf(),
        ensures
            r == self@.0 - self@.1,
    {
        self.duration_frames - self.current_frame
    }

    /// Count one more frame: `Some` until the duration is reached, then `None`.
    pub fn next(&mut self) -> (r: Option<()>)
        requires
            old(self).wf(),
        ensures
            final(self).wf(),
            (final(self)@, r is Some) == duration_step(old(self)@),
    {
        if self.current_frame < self.duration_frames {
            self.current_frame = self.current_frame + 1;
            Some(())
        } else {
            None
        }
    }
}

/// The gain of the attack at its state, and the state after it.
pub open spec fn attack_step(a: (int, int)) -> ((int, int), Gain) {
    if a.1 < a.0 {
        ((a.0, a.1 + 1), Gain::Ratio { numerator: a.1 as i64, denominator: a.0 as i64 })
    } else {
        (a, Gain::Full)
    }
}

/// The gain of the release at its state, and the state after it.
pub open spec fn release_step(r: (int, int)) -> ((int, int), Gain) {
    if r.1 > 0 {
        ((r.0, r.1 - 1), Gain::Ratio { numerator: r.1 as i64, denominator: r.0 as i64 })
    } else {
        (r, Gain::Full)
    }
}

impl Attack {
    /// The duration and the current frame.
    pub closed spec fn view(&self) -> (int, int) {
        (self.duration_frames as int, self.current_frame as int)
    }

    pub closed spec fn wf(&self) -> bool {
        0 <= self.current_frame && (self.current_frame <= self.duration_frames || self.current_frame == 0)
    }

    /// Construct an `Attack` from its duration in frames.
    pub fn from_duration_frames(duration_frames: i64) -> (r: Self)
        ensures
            r@ == (duration_frames as int, 0int),
            r.wf(),
    {
        Attack { duration_frames, current_frame: 0 }
    }

    /// The gain for the next frame: `current / duration` while the attack lasts, then full.
    pub fn next_gain(&mut self) -> (r: Gain)
        requires
            old(self).wf(),
        ensures
            final(self).wf(),
            (final(self)@, r) == attack_step(old(self)@),
    {
        if self.current_frame < self.duration_frames {
            let current = self.current_frame;
            let duration = self.duration_frames;
            self.current_frame = self.current_frame + 1;
            Gain::Ratio { numerator: current, denominator: duration }
        } else {
            Gain::Full
        }
    }
}

impl Release {
    /// The duration and the frames left in the countdown.
    pub closed spec fn view(&self) -> (int, int) {
        (self.duration_frames as int, self.frame_countdown as int)
    }

    /// Construct a `Release` from its duration in frames.
    pub fn from_duration_frames(duration_frames: i64) -> (r: Self)
        ensures
            r@ == (duration_frames as int, duration_frames as int),
    {
        Release { duration_frames, frame_countdown: duration_frames }
    }

    /// The gain for the next frame: `countdown / duration` while the countdown lasts, then full.
    pub fn next_gain(&mut self) -> (r: Gain)
        ensures
            (final(self)@, r) == release_step(old(self)@),
    {
        if self.frame_countdown > 0 {
            let current = self.frame_countdown;
            let duration = self.duration_frames;
            self.frame_countdown = self.frame_countdown - 1;
            Gain::Ratio { numerator: current, denominator: duration }
        } else {
            Gain::Full
        }
    }
}

/// The state of an attack after `n` frames.
pub open spec fn attack_after(a: (int, int), n: nat) -> (int, int)
    decreases n,
{
    if n == 0 { a } else { attack_step(attack_after(a, (n - 1) as nat)).0 }
}

/// The state of a release after `n` frames.
pub open spec fn release_after(r: (int, int), n: nat) -> (int, int)
    decreases n,
{
    if n == 0 { r } else { release_step(release_after(r, (n - 1) as nat)).0 }
}

/// An attack of `d` frames ramps up: the gain of its `n`-th frame (from `0`) is `n / d` for each
/// of the first `d` frames, always below full, and full from then on.
pub proof fn lemma_attack_ramp(d: int, n: nat)
    requires
        0 <= d <= i64::MAX,
    ensures
        attack_after((d, 0), n) == (d, if n < d { n as int } else { d }),
        attack_step(attack_after((d, 0), n)).1 == (if n < d {
            Gain::Ratio { numerator: n as i64, denominator: d as i64 }
        } else {
            Gain::Full
        }),
    decreases n,
{
    if n > 0 {
        lemma_attack_ramp(d, (n - 1) as nat);
    }
}

/// A release of `d` frames ramps down: the gain of its `n`-th frame (from `0`) is
/// `(d - n) / d` for each of the first `d` frames, and full once the countdown is over.
pub proof fn lemma_release_ramp(d: int, n: nat)
    requires
        0 <= d <= i64::MAX,
    ensures
        release_after((d, d), n) == (d, if n < d { d - n } else { 0 }),
        release_step(release_after((d, d), n)).1 == (if n < d {
            Gain::Ratio { numerator: (d - n) as i64, denominator: d as i64 }
        } else {
            Gain::Full
        }),
    decreases n,
{
    if n > 0 {
        lemma_release_ramp(d, (n - 1) as nat);
    }
}

/// The state of a duration counter after one frame, and whether the frame was counted.
pub open spec fn duration_step(c: (int, int)) -> ((int, int), bool) {
    if c.1 < c.0 { ((c.0, c.1 + 1), true) } else { (c, false) }
}

/// The state of a duration counter after `n` frames.
pub open spec fn duration_after(c: (int, int), n: nat) -> (int, int)
    decreases n,
{
    if n == 0 { c } else { duration_step(duration_after(c, (n - 1) as nat)).0 }
}

/// A duration of `d` frames counts exactly `d` frames: the first `d` calls of `next` give
/// `Some`, every later one `None`.
pub proof fn lemma_duration_counts(d: int, n: nat)
    requires
        0 <= d,
    ensures
        duration_after((d, 0), n) == (d, if n < d { n as int } else { d }),
        duration_step(duration_after((d, 0), n)).1 == (n < d),
    decreases n,
{
    if n > 0 {
        lemma_duration_counts(d, (n - 1) as nat);
    }
}

/// The number of frames before the release should begin, given the remaining frames of the

/// The release is placed to end with the signal: with `remaining` frames left and a release of
/// `release` frames, it begins after `remaining - release` frames, or at once if fewer remain.
pub proof fn lemma_release_placement(remaining: int, release: int)
    ensures
        spec_frames_until_release_begins(remaining, release) >= 0,
        remaining >= release ==> spec_frames_until_release_begins(remaining, release) + release == remaining,
        remaining < release ==> spec_frames_until_release_begins(remaining, release) == 0,
{
}

/// signal.
pub open spec fn spec_frames_until_release_begins(remaining: int, release_duration: int) -> int {
    if remaining < release_duration { 0 } else { remaining - release_duration }
}

pub fn frames_until_release_begins(signal_remaining_frames: i64, release: &Release) -> (r: i64)
    requires
        i64::MIN <= signal_remaining_frames - release@.0 <= i64::MAX,
    ensures
        r == spec_frames_until_release_begins(signal_remaining_frames as int, release@.0),
        // The release is placed to end with the signal: it begins once the remaining frames are
        // down to its duration, at once if they already are.
        r >= 0,
        signal_remaining_frames >= release@.0 ==> r + release@.0 == signal_remaining_frames,
        signal_remaining_frames < release@.0 ==> r == 0,
{
    if signal_remaining_frames < release.duration_frames {
        0
    } else {
        signal_remaining_frames - release.duration_frames
    }
}


/// Of two known frame counts the smaller is taken; of one known count, that one; of none,
/// none. So the frames remaining are never more than either known count, and equal one of them.
pub proof fn lemma_min_remaining_is_least(a: Option<int>, b: Option<int>)
    ensures
        min_remaining(a, b) is None <==> (a is None && b is None),
        forall|f: int, x: int| min_remaining(a, b) == Some(f) && a == Some(x) ==> f <= x,
        forall|f: int, y: int| min_remaining(a, b) == Some(f) && b == Some(y) ==> f <= y,
        forall|f: int| min_remaining(a, b) == Some(f) ==> a == Some(f) || b == Some(f),
{
}

/// The smaller of the known remaining frame counts, if any is known.
pub open spec fn min_remaining(a: Option<int>, b: Option<int>) -> Option<int> {
    match (a, b) {
        (Some(x), Some(y)) => Some(if x < y { x } else { y }),
        (Some(x), None) => Some(x),
        (None, Some(y)) => Some(y),
        (None, None) => None,
    }
}

pub open spec fn opt_int(o: Option<i64>) -> Option<int> {
    match o {
        Some(x) => Some(x as int),
        None => None,
    }
}

/// A signal of a source kind `K` yielding interleaved samples, shaped by an attack, a release and
/// an optional duration.
pub struct Signal<K> {
    pub kind: K,
    attack: Attack,
    release: Release,
    // The duration of the signal if one was specified. If `None`, the signal plays out until
    // the kind's samples end.
    duration: Option<Duration>,
}

/// The envelope state of a signal: its attack, release and duration.
pub struct EnvelopeView {
    pub attack: (int, int),
    pub release: (int, int),
    pub duration: Option<(int, int)>,
}

impl<K> Signal<K> {
    /// The kind of the signal.
    pub closed spec fn signal_kind(&self) -> K {
        self.kind
    }

    pub closed spec fn envelope(&self) -> EnvelopeView {
        EnvelopeView {
            attack: self.attack@,
            release: self.release@,
            duration: match self.duration {
                Some(d) => Some(d@),
                None => None,
            },
        }
    }

    /// The attack is within its ramp, the release countdown never exceeds the release's
    /// duration, and the duration counts within its frames.
    pub closed spec fn wf(&self) -> bool {
        &&& self.attack.wf()
        &&& self.release.frame_countdown <= self.release.duration_frames
        &&& self.duration matches Some(d) ==> d.wf()
    }

    /// Construct a new `Signal` from the given source kind, attack and release frames.
    pub fn new(kind: K, attack_frames: i64, release_frames: i64) -> (r: Self)
        ensures
            r.signal_kind() == kind,
            r.wf(),
            r.envelope() == (EnvelopeView {
                attack: (attack_frames as int, 0int),
                release: (release_frames as int, release_frames as int),
                duration: None,
            }),
    {
        Signal {
            kind,
            attack: Attack::from_duration_frames(attack_frames),
            release: Release::from_duration_frames(release_frames),
            duration: None,
        }
    }

    /// Specify the duration of the signal in frames.
    pub fn with_duration_frames(self, frames: i64) -> (r: Self)
        requires
            self.wf(),
        ensures
            r.signal_kind() == self.signal_kind(),
            r.wf(),
            r.envelope() == (EnvelopeView { duration: Some((frames as int, 0int)), ..self.envelope() }),
    {
        let Signal { kind, attack, release, .. } = self;
        Signal { kind, attack, release, duration: Some(Duration::from_frames(frames)) }
    }

    /// The smaller of the frames remaining in the duration and `kind_remaining_frames`, the frames
    /// remaining in the kind's samples; `None` if neither is known, as the signal has no end.
    pub fn remaining_frames(&self, kind_remaining_frames: Option<i64>) -> (r: Option<i64>)
        requires
            self.wf(),
        ensures
            opt_int(r) == min_remaining(
                match self.envelope().duration {
                    Some(d) => Some(d.0 - d.1),
                    None => None,
                },
                opt_int(kind_remaining_frames),
            ),
            // Known exactly when one of the two is known; never more than either known count,
            // and equal to one of them.
            r is None <==> (self.envelope().duration is None && kind_remaining_frames is None),
            forall|f: i64, k: i64| r == Some(f) && kind_remaining_frames == Some(k) ==> f <= k,
            forall|f: i64, d: (int, int)| r == Some(f) && self.envelope().duration == Some(d) ==> f <= d.0 - d.1,
            forall|f: i64| r == Some(f) ==> kind_remaining_frames == Some(f)
                || (self.envelope().duration matches Some(d) && f == d.0 - d.1),
    {
        let remaining = match &self.duration {
            Some(d) => Some(d.remaining_frames()),
            None => None,
        };
        match (remaining, kind_remaining_frames) {
            (Some(a), Some(b)) => Some(if a < b { a } else { b }),
            (Some(a), None) => Some(a),
            (None, Some(b)) => Some(b),
            (None, None) => None,
        }
    }
}

/// The state of the envelope after one more frame, the frames left before the release, and
/// the frame's gain; `None` once the duration has been reached.
pub open spec fn spec_advance_frame(env: EnvelopeView, fur: int) -> Option<(EnvelopeView, int, FrameGain)> {
    if env.duration matches Some(d) && !(d.1 < d.0) {
        None
    } else {
        let duration = match env.duration {
            Some(d) => Some((d.0, d.1 + 1)),
            None => None,
        };
        let (attack, attack_gain) = attack_step(env.attack);
        let (release, release_gain, fur2) = if fur == 0 {
            let (r, g) = release_step(env.release);
            (r, g, 0)
        } else {
            (env.release, Gain::Full, fur - 1)
        };
        Some((
            EnvelopeView { attack, release, duration },
            fur2,
            FrameGain { attack: attack_gain, release: release_gain },
        ))
    }
}

/// The frames left in a signal's duration, or `0` if it has none.
pub open spec fn duration_left(env: EnvelopeView) -> nat {
    match env.duration {
        Some(d) => if d.1 < d.0 { (d.0 - d.1) as nat } else { 0 },
        None => 0,
    }
}

/// The state after advancing frame by frame until the duration is reached.
pub open spec fn spec_drain(env: EnvelopeView, fur: int) -> (EnvelopeView, int)
    decreases duration_left(env),
{
    if env.duration is None {
        (env, fur)
    } else {
        match spec_advance_frame(env, fur) {
            None => (env, fur),
            Some((e2, f2, _)) => spec_drain(e2, f2),
        }
    }
}

/// The samples a signal with a duration can still yield through a `SignalSamples` in the given
/// state: those left in the current frame, and a frame of every channel for each frame left in
/// the duration.
pub open spec fn sample_budget(samples: (int, int, int, FrameGain), env: EnvelopeView) -> int {
    samples.2 + samples.0 * duration_left(env)
}

/// Advancing a frame of `channels` channels, with none left in the current one, spends one
/// sample of the budget and starts a frame with the rest of its channels.
proof fn lemma_advance_spends_one(env: EnvelopeView, fur: int, channels: int)
    requires
        env.duration is Some,
        channels > 0,
        spec_advance_frame(env, fur) is Some,
    ensures
        (channels - 1) + channels * duration_left(spec_advance_frame(env, fur).unwrap().0) + 1
            == channels * duration_left(env),
{
    let e2 = spec_advance_frame(env, fur).unwrap().0;
    let dl = duration_left(env);
    assert(duration_left(e2) == dl - 1);
    assert(channels * (dl - 1) == channels * dl - channels) by (nonlinear_arith);
}

/// The number of calls that yielded a sample.
pub open spec fn yielded_count(yielded: Seq<bool>) -> nat
    decreases yielded.len(),
{
    if yielded.len() == 0 {
        0
    } else {
        yielded_count(yielded.drop_last()) + if yielded.last() { 1nat } else { 0nat }
    }
}

/// Over all later calls, a signal with a duration yields no more samples than its budget: with
/// `budgets[i]` the budget before call `i` and `yielded[i]` whether that call yielded a sample,
/// each call that yields lowers the budget by one and no call raises it (as `next_gain` and
/// `samples` ensure). A signal of `c` channels with a duration of `d` frames starts with a budget
/// of `c * d`, so at most `c * d` samples come out of it.
pub proof fn lemma_yield_bound(budgets: Seq<int>, yielded: Seq<bool>)
    requires
        budgets.len() == yielded.len() + 1,
        forall|i: int| 0 <= i < budgets.len() ==> #[trigger] budgets[i] >= 0,
        forall|i: int| 0 <= i < yielded.len() ==> (#[trigger] yielded[i] ==> budgets[i + 1] + 1 == budgets[i]),
        forall|i: int| 0 <= i < yielded.len() ==> (!#[trigger] yielded[i] ==> budgets[i + 1] <= budgets[i]),
    ensures
        yielded_count(yielded) + budgets.last() <= budgets[0],
        yielded_count(yielded) <= budgets[0],
    decreases yielded.len(),
{
    if yielded.len() > 0 {
        let n = yielded.len() - 1;
        let b = budgets.drop_last();
        let y = yielded.drop_last();
        assert forall|i: int| 0 <= i < y.len() implies (#[trigger] y[i] ==> b[i + 1] + 1 == b[i]) by {
            assert(yielded[i] ==> budgets[i + 1] + 1 == budgets[i]);
        }
        assert forall|i: int| 0 <= i < y.len() implies (!#[trigger] y[i] ==> b[i + 1] <= b[i]) by {
            assert(!yielded[i] ==> budgets[i + 1] <= budgets[i]);
        }
        assert forall|i: int| 0 <= i < b.len() implies #[trigger] b[i] >= 0 by {
            assert(budgets[i] >= 0);
        }
        lemma_yield_bound(b, y);
        assert(yielded[n] ==> budgets[n + 1] + 1 == budgets[n]);
        assert(!yielded[n] ==> budgets[n + 1] <= budgets[n]);
        assert(budgets[n + 1] >= 0);
    }
}

/// The samples produced by a source signal with attack and release applied: yields the gain of
/// each interleaved sample, one frame of `channels` samples at a time.
pub struct SignalSamples {
    channels: usize,
    /// The number of frames until the release should kick in based on the duration of the sound.
    frames_until_release_begins: i64,
    /// The samples left in the current frame.
    left_in_frame: usize,
    /// The gain of the current frame.
    gain: FrameGain,
}

impl SignalSamples {
    /// The channels, the frames before the release begins, the samples left in the current frame
    /// and its gain.
    pub closed spec fn view(&self) -> (int, int, int, FrameGain) {
        (self.channels as int, self.frames_until_release_begins as int, self.left_in_frame as int, self.gain)
    }

    /// The frames before the release are never negative, and the gain of the current frame
    /// lies in `0..=1`.
    pub closed spec fn wf(&self) -> bool {
        &&& self.frames_until_release_begins >= 0
        &&& frame_gain_in_unit(self.gain)
    }

    /// The gain of the next sample, advancing the signal's envelope at the start of each frame.
    ///
    /// Returns `None` once the signal's duration has been reached. A signal without channels
    /// yields no samples: its envelope runs to the end of its duration.
    pub fn next_gain<K>(&mut self, signal: &mut Signal<K>) -> (r: Option<FrameGain>)
        requires
            old(signal).wf(),
            old(self).wf(),
            old(self)@.0 > 0 || old(signal).envelope().duration is Some,
        ensures
            final(signal).wf(),
            final(self).wf(),
            final(signal).signal_kind() == old(signal).signal_kind(),
            final(self)@.0 == old(self)@.0,
            r matches Some(g) ==> frame_gain_in_unit(g),
            old(signal).envelope().duration is Some ==> final(signal).envelope().duration is Some,
            old(signal).envelope().duration is Some && r is Some ==>
                sample_budget(final(self)@, final(signal).envelope()) + 1 == sample_budget(old(self)@, old(signal).envelope()),
            old(signal).envelope().duration is Some && r is None ==>
                sample_budget(final(self)@, final(signal).envelope()) <= sample_budget(old(self)@, old(signal).envelope()),
            ({
                let (channels, fur, left, gain) = old(self)@;
                let env = old(signal).envelope();
                if left > 0 {
                    &&& r == Some(gain)
                    &&& final(self)@ == (channels, fur, left - 1, gain)
                    &&& final(signal).envelope() == env
                } else if channels > 0 {
                    match spec_advance_frame(env, fur) {
                        None => r is None && final(self)@ == old(self)@ && final(signal).envelope() == env,
                        Some((e2, f2, g)) => {
                            &&& r == Some(g)
                            &&& final(self)@ == (channels, f2, channels - 1, g)
                            &&& final(signal).envelope() == e2
                        },
                    }
                } else {
                    &&& r is None
                    &&& (final(signal).envelope(), final(self)@.1) == spec_drain(env, fur)
                }
            }),
    {
        if self.left_in_frame > 0 {
            self.left_in_frame = self.left_in_frame - 1;
            return Some(self.gain);
        }
        loop
            invariant
                signal.wf(),
                self.wf(),
                signal.signal_kind() == old(signal).signal_kind(),
                self.channels == old(self).channels,
                self.left_in_frame == 0,
                old(self).left_in_frame == 0,
                old(self)@.0 > 0 || old(signal).envelope().duration is Some,
                self.channels > 0 ==> (self.frames_until_release_begins == old(self).frames_until_release_begins
                    && self.gain == old(self).gain && signal.envelope() == old(signal).envelope()),
                self.channels == 0 ==> spec_drain(signal.envelope(), self.frames_until_release_begins as int)
                    == spec_drain(old(signal).envelope(), old(self)@.1),
                self.channels == 0 ==> signal.envelope().duration is Some,
            decreases duration_left(signal.envelope()),
        {
            let ghost env0 = signal.envelope();
            let ghost fur0 = self.frames_until_release_begins as int;
            let ended = match &mut signal.duration {
                Some(d) => d.next().is_none(),
                None => false,
            };
            if ended {
                return None;
            }
            let attack_gain = signal.attack.next_gain();
            let release_gain = if self.frames_until_release_begins == 0 {
                signal.release.next_gain()
            } else {
                self.frames_until_release_begins = self.frames_until_release_begins - 1;
                Gain::Full
            };
            self.gain = FrameGain { attack: attack_gain, release: release_gain };
            proof {
                assert(spec_advance_frame(env0, fur0) == Some((
                    signal.envelope(),
                    self.frames_until_release_begins as int,
                    self.gain,
                )));
                if env0.duration is Some && self.channels > 0 {
                    lemma_advance_spends_one(env0, fur0, self.channels as int);
                }
            }
            if self.channels > 0 {
                self.left_in_frame = self.channels - 1;
                return Some(self.gain);
            }
        }
    }
}

impl<K> Signal<K> {
    /// Begin yielding the signal's samples: the gains of its frames, with the release placed at
    /// the end of the signal where the end is known.
    ///
    /// `kind_remaining_frames` is the number of frames remaining in the kind's samples, if
    /// known, and `channels` the number of channels of each frame.
    pub fn samples(&mut self, kind_remaining_frames: Option<i64>, channels: usize) -> (r: SignalSamples)
        requires
            old(self).wf(),
            ({
                let env = old(self).envelope();
                let remaining = min_remaining(
                    match env.duration {
                        Some(d) => Some(d.0 - d.1),
                        None => None,
                    },
                    opt_int(kind_remaining_frames),
                );
                remaining matches Some(f) ==> i64::MIN <= f - env.release.0 <= i64::MAX
            }),
        ensures
            final(self).wf(),
            r.wf(),
            final(self).signal_kind() == old(self).signal_kind(),
            final(self).envelope().duration == old(self).envelope().duration,
            sample_budget(r@, final(self).envelope()) == channels * duration_left(old(self).envelope()),
            ({
                let env = old(self).envelope();
                let remaining = min_remaining(
                    match env.duration {
                        Some(d) => Some(d.0 - d.1),
                        None => None,
                    },
                    opt_int(kind_remaining_frames),
                );
                match remaining {
                    Some(f) => {
                        let fur = spec_frames_until_release_begins(f, env.release.0);
                        &&& r@ == (channels as int, fur, 0int, FrameGain { attack: Gain::Full, release: Gain::Full })
                        &&& final(self).envelope() == if fur == 0 {
                            EnvelopeView {
                                release: (env.release.0, if env.release.1 < f { env.release.1 } else { f }),
                                ..env
                            }
                        } else {
                            env
                        }
                    },
                    None => {
                        &&& r@ == (channels as int, i64::MAX as int, 0int, FrameGain { attack: Gain::Full, release: Gain::Full })
                        &&& final(self).envelope() == env
                    },
                }
            }),
    {
        let remaining = self.remaining_frames(kind_remaining_frames);
        let frames_until_release = match remaining {
            Some(frames) => {
                let fur = frames_until_release_begins(frames, &self.release);
                // If the release has already started, make sure its countdown is up to date.
                if fur == 0 {
                    if frames < self.release.frame_countdown {
                        self.release.frame_countdown = frames;
                    }
                }
                fur
            },
            None => i64::MAX,
        };
        SignalSamples {
            channels,
            frames_until_release_begins: frames_until_release,
            left_in_frame: 0,
            gain: FrameGain { attack: Gain::Full, release: Gain::Full },
        }
    }
}

/// The kind of a signal: samples `W` streamed from a WAV file, or samples received from the
/// realtime input through `Q`.
pub enum SignalKind<W, Q> {
    Wav {
        samples: W,
        /// The number of channels in the WAV.
        channels: usize,
        playback: Playback,
    },
    Realtime {
        samples: realtime::Signal<Q>,
    },
}

impl<W, Q> SignalKind<W, Q> {
    /// The number of channels in the signal.
    pub fn channels(&self) -> (r: usize)
        ensures
            r == match self {
                SignalKind::Wav { channels, .. } => *channels,
                SignalKind::Realtime { samples } => samples.channels,
            },
    {
        match self {
            SignalKind::Wav { channels, .. } => *channels,
            SignalKind::Realtime { samples } => samples.channels(),
        }
    }
}

} // verus!
