//! Converting the audio backend's requests for output frames into requests for buffers of a fixed
//! size, filled by the sound engine on another thread.
//!
//! The backend asks for output slices of any length. The `Requester` answers from the frames left
//! over from the last engine buffer first, then asks the engine for whole buffers until the output
//! is full, keeping whatever the last buffer held beyond the output for the next request.
//!
//! Talking to the engine is left to the caller: `begin_fill` hands out the zeroed buffer to send
//! to the engine, and `receive_frames` takes the engine's answer and hands out the next buffer to
//! send, if the output is not full yet.

use vstd::prelude::*;

verus! {

/// Indicates whether the audio thread should stop or continue.
#[derive(Copy, Clone, Debug, PartialEq, Eq)]
pub enum ControlFlow {
    Continue,
    Complete,
}

/// The progress of filling one output slice while buffers are requested from the engine.
#[derive(Copy, Clone, Debug)]
struct Progress {
    /// The number of output frames written so far.
    written: usize,
    /// The number of frames to write from the next engine buffer.
    to_fill: usize,
    /// The length of the output being filled.
    target: usize,
}

/// Converts backend audio requests into requests for buffers of `num_frames` frames.
pub struct Requester<F> {
    frames: Vec<F>,
    num_frames: usize,
    /// `Some` if part of `frames` has not yet been written to output.
    pending_range: Option<std::ops::Range<usize>>,
    progress: Option<Progress>,
    /// Every frame received from the engine, in order.
    received: Ghost<Seq<F>>,
    /// Every frame written to an output from the engine's buffers, in order.
    delivered: Ghost<Seq<F>>,
}

/// A buffer of `len` frames, all at equilibrium.
pub open spec fn silence<F>(len: nat, equilibrium: F) -> Seq<F> {
    Seq::new(len, |i: int| equilibrium)
}

/// `output` with `len` frames of `src`, from `src_start` on, written at `dst_start`.
pub open spec fn written_at<F>(output: Seq<F>, dst_start: int, src: Seq<F>, src_start: int, len: int) -> Seq<F> {
    output.take(dst_start) + src.subrange(src_start, src_start + len) + output.skip(dst_start + len)
}

/// Copy `len` frames of `src`, from `src_start` on, into `output` at `dst_start`.
fn write_frames<F: Copy>(output: &mut [F], dst_start: usize, src: &Vec<F>, src_start: usize, len: usize)
    requires
        dst_start + len <= old(output)@.len(),
        src_start + len <= src@.len(),
    ensures
        final(output)@ == written_at(old(output)@, dst_start as int, src@, src_start as int, len as int),
{
    let out_len = output.len();
    let src_len = src.len();
    let mut i: usize = 0;
    while i < len
        invariant
            i <= len,
            output@.len() == out_len,
            old(output)@.len() == out_len,
            src@.len() == src_len,
            dst_start + len <= out_len,
            src_start + len <= src_len,
            output@ == written_at(old(output)@, dst_start as int, src@, src_start as int, i as int),
        decreases len - i,
    {
        output[dst_start + i] = src[src_start + i];
        i = i + 1;
        proof {
            assert(output@ =~= written_at(old(output)@, dst_start as int, src@, src_start as int, i as int));
        }
    }
}

/// Set every frame of `output` to `equilibrium`.
fn fill_equilibrium<F: Copy>(output: &mut [F], equilibrium: F)
    ensures
        final(output)@ == silence(old(output)@.len(), equilibrium),
{
    let mut i: usize = 0;
    while i < output.len()
        invariant
            i <= output@.len(),
            output@.len() == old(output)@.len(),
            forall|k: int| 0 <= k < i ==> output@[k] == equilibrium,
        decreases output@.len() - i,
    {
        output[i] = equilibrium;
        i = i + 1;
    }
    proof {
        assert(output@ =~= silence(old(output)@.len(), equilibrium));
    }
}

/// Turn `buffer` into `len` frames at equilibrium, keeping its allocation.
fn reset_buffer<F: Copy>(buffer: &mut Vec<F>, len: usize, equilibrium: F)
    ensures
        final(buffer)@ == silence(len as nat, equilibrium),
{
    buffer.clear();
    while buffer.len() < len
        invariant
            buffer@.len() <= len,
            forall|k: int| 0 <= k < buffer@.len() ==> buffer@[k] == equilibrium,
        decreases len - buffer@.len(),
    {
        buffer.push(equilibrium);
    }
    proof {
        assert(buffer@ =~= silence(len as nat, equilibrium));
    }
}

impl<F: Copy> Requester<F> {
    /// The requester is consistent: buffers are never empty, a pending range is a non-empty part
    /// of the frames held, and while a fill is in progress nothing is pending and the next buffer
    /// will write at least one frame without passing the end of the output.
    pub closed spec fn wf(&self) -> bool {
        &&& self.num_frames > 0
        &&& match self.pending_range {
            Some(r) => r.start < r.end && r.end <= self.frames@.len(),
            None => true,
        }
        &&& match self.progress {
            Some(p) => {
                &&& self.pending_range is None
                &&& 0 < p.to_fill
                &&& p.written + p.to_fill <= p.target
            },
            None => true,
        }
    }

    /// The frames received from the engine that have not been written to an output yet.
    pub closed spec fn pending(&self) -> Seq<F> {
        match self.pending_range {
            Some(r) => self.frames@.subrange(r.start as int, r.end as int),
            None => Seq::empty(),
        }
    }

    /// Every frame received from the engine so far, in the order received.
    pub closed spec fn received(&self) -> Seq<F> {
        self.received@
    }

    /// Every frame of the engine's buffers written to an output so far, in the order written.
    pub closed spec fn delivered(&self) -> Seq<F> {
        self.delivered@
    }

    /// The frames written to outputs are the frames received, in order, but for those still
    /// pending: none was dropped, repeated or reordered.
    pub open spec fn in_order(&self) -> bool {
        self.delivered() + self.pending() == self.received()
    }

    /// The number of frames in each buffer requested from the engine.
    pub closed spec fn spec_num_frames(&self) -> usize {
        self.num_frames
    }

    /// Whether an output is being filled and a buffer is expected from the engine.
    pub closed spec fn filling(&self) -> bool {
        self.progress is Some
    }

    /// The number of output frames written so far in the fill in progress.
    pub closed spec fn written(&self) -> usize {
        self.progress.unwrap().written
    }

    /// The number of frames that the next engine buffer will write to the output.
    pub closed spec fn to_fill(&self) -> usize {
        self.progress.unwrap().to_fill
    }

    /// The length of the output being filled.
    pub closed spec fn target(&self) -> usize {
        self.progress.unwrap().target
    }

    /// Construct a new `Requester` asking for buffers of `num_frames` frames.
    ///
    /// `num_frames` must be greater than `0`: no progress can be made filling buffers of `0`
    /// frames.
    pub fn new(num_frames: usize, equilibrium: F) -> (r: Self)
        requires
            num_frames > 0,
        ensures
            r.wf(),
            r.spec_num_frames() == num_frames,
            r.pending() == Seq::<F>::empty(),
            !r.filling(),
            r.received() == Seq::<F>::empty(),
            r.delivered() == Seq::<F>::empty(),
            r.in_order(),
    {
        let mut frames: Vec<F> = Vec::new();
        reset_buffer(&mut frames, num_frames, equilibrium);
        let r = Requester {
            frames,
            num_frames,
            pending_range: None,
            progress: None,
            received: Ghost(Seq::empty()),
            delivered: Ghost(Seq::empty()),
        };
        proof {
            assert(r.delivered() + r.pending() =~= r.received());
        }
        r
    }

    /// The number of frames in each buffer requested from the engine.
    pub fn num_frames(&self) -> (r: usize)
        ensures
            r == self.spec_num_frames(),
    {
        self.num_frames
    }

    /// The fill in progress, if any: the length of the output being filled and the number of
    /// frames that the next engine buffer must hold at least.
    pub fn fill_in_progress(&self) -> (r: Option<(usize, usize)>)
        ensures
            match r {
                Some((target, to_fill)) => self.filling() && target == self.target() && to_fill == self.to_fill(),
                None => !self.filling(),
            },
    {
        match self.progress {
            Some(p) => Some((p.target, p.to_fill)),
            None => None,
        }
    }

    /// Start filling `output`: zero it, write the pending frames first, and if they do not fill
    /// it, hand out the zeroed buffer to send to the engine.
    ///
    /// Returns `None` when `output` is already complete.
    pub fn begin_fill(&mut self, output: &mut [F], equilibrium: F) -> (r: Option<Vec<F>>)
        requires
            old(self).wf(),
            !old(self).filling(),
        ensures
            final(self).wf(),
            final(self).spec_num_frames() == old(self).spec_num_frames(),
            final(output)@.len() == old(output)@.len(),
            final(self).received() == old(self).received(),
            old(self).in_order() ==> final(self).in_order(),
            old(output)@.len() == 0 ==> r is None && *final(self) == *old(self) && final(output)@ == old(output)@,
            old(output)@.len() > 0 && old(self).pending().len() >= old(output)@.len() ==> {
                &&& r is None
                &&& !final(self).filling()
                &&& final(output)@ == old(self).pending().take(old(output)@.len() as int)
                &&& final(self).pending() == old(self).pending().skip(old(output)@.len() as int)
                &&& final(output)@ + final(self).pending() == old(self).pending()
                &&& final(self).delivered() == old(self).delivered() + final(output)@
            },
            old(output)@.len() > 0 && old(self).pending().len() < old(output)@.len() ==> {
                let p = old(self).pending();
                let n = old(output)@.len();
                &&& r matches Some(buffer) && buffer@ == silence(old(self).spec_num_frames() as nat, equilibrium)
                &&& final(self).filling()
                &&& final(self).pending() == Seq::<F>::empty()
                &&& final(output)@ == p + silence((n - p.len()) as nat, equilibrium)
                &&& final(self).written() == p.len()
                &&& final(self).delivered() == old(self).delivered() + p
                &&& final(self).target() == n
                &&& final(self).to_fill() == (if old(self).spec_num_frames() < n - p.len() {
                    old(self).spec_num_frames() as int
                } else {
                    n - p.len()
                })
            },
    {
        if output.len() == 0 {
            return None;
        }
        fill_equilibrium(output, equilibrium);
        let ghost zeroed = output@;
        let ghost p = self.pending();
        let n = output.len();
        let mut start: usize = 0;
        match self.pending_range.take() {
            Some(range) => {
                let len = range.end - range.start;
                if len < n {
                    write_frames(output, 0, &self.frames, range.start, len);
                    start = len;
                    proof {
                        assert(output@ =~= p + silence((n - p.len()) as nat, equilibrium));
                    }
                } else if len == n {
                    write_frames(output, 0, &self.frames, range.start, n);
                    self.delivered = Ghost(self.delivered@ + output@);
                    proof {
                        assert(output@ =~= p.take(n as int));
                        assert(p.skip(n as int) =~= Seq::<F>::empty());
                        assert(output@ + self.pending() =~= p);
                        assert(self.delivered() + self.pending() =~= old(self).delivered() + p);
                    }
                    return None;
                } else {
                    let end = range.start + n;
                    write_frames(output, 0, &self.frames, range.start, n);
                    self.pending_range = Some(end..range.end);
                    self.delivered = Ghost(self.delivered@ + output@);
                    proof {
                        assert(output@ =~= p.take(n as int));
                        assert(self.pending() =~= p.skip(n as int));
                        assert(output@ + self.pending() =~= p);
                        assert(self.delivered() + self.pending() =~= old(self).delivered() + p);
                    }
                    return None;
                }
            },
            None => {
                proof {
                    assert(output@ =~= p + silence((n - p.len()) as nat, equilibrium));
                }
            },
        }
        self.delivered = Ghost(self.delivered@ + p);
        proof {
            assert(self.delivered() + self.pending() =~= old(self).delivered() + old(self).pending());
        }
        let mut buffer: Vec<F> = Vec::new();
        std::mem::swap(&mut buffer, &mut self.frames);
        reset_buffer(&mut buffer, self.num_frames, equilibrium);
        let remaining = n - start;
        let to_fill = if self.num_frames < remaining { self.num_frames } else { remaining };
        self.progress = Some(Progress { written: start, to_fill, target: n });
        Some(buffer)
    }

    /// Take the buffer written by the engine: write its first frames to `output`, and either
    /// finish (keeping the frames beyond the output as pending) or hand out the zeroed buffer to
    /// send to the engine next.
    ///
    /// Returns `None` when `output` is complete.
    pub fn receive_frames(&mut self, output: &mut [F], written_frames: Vec<F>, equilibrium: F) -> (r: Option<Vec<F>>)
        requires
            old(self).wf(),
            old(self).filling(),
            old(output)@.len() == old(self).target(),
            written_frames@.len() >= old(self).to_fill(),
        ensures
            final(self).wf(),
            final(self).spec_num_frames() == old(self).spec_num_frames(),
            final(output)@ == written_at(
                old(output)@,
                old(self).written() as int,
                written_frames@,
                0,
                old(self).to_fill() as int,
            ),
            final(self).received() == old(self).received() + written_frames@,
            final(self).delivered() == old(self).delivered() + written_frames@.take(old(self).to_fill() as int),
            old(self).in_order() && (written_frames@.len() == old(self).to_fill()
                || old(self).written() + old(self).to_fill() == old(self).target()) ==> final(self).in_order(),
            old(self).written() + old(self).to_fill() == old(self).target() ==> {
                &&& r is None
                &&& !final(self).filling()
                &&& final(self).pending() == written_frames@.skip(old(self).to_fill() as int)
                &&& final(output)@.skip(old(self).written() as int) + final(self).pending() == written_frames@
            },
            old(self).written() + old(self).to_fill() < old(self).target() ==> {
                let end = old(self).written() + old(self).to_fill();
                &&& r matches Some(buffer) && buffer@ == silence(written_frames@.len(), equilibrium)
                &&& final(self).filling()
                &&& final(self).pending() == Seq::<F>::empty()
                &&& final(self).written() == end
                &&& final(self).target() == old(self).target()
                &&& final(self).to_fill() == (if written_frames@.len() < old(self).target() - end {
                    written_frames@.len() as int
                } else {
                    old(self).target() - end
                })
            },
    {
        let progress = self.progress.unwrap();
        let start = progress.written;
        let to_fill = progress.to_fill;
        write_frames(output, start, &written_frames, 0, to_fill);
        self.received = Ghost(self.received@ + written_frames@);
        self.delivered = Ghost(self.delivered@ + written_frames@.take(to_fill as int));
        self.frames = written_frames;
        let end = start + to_fill;
        if end == progress.target {
            self.progress = None;
            if to_fill < self.frames.len() {
                self.pending_range = Some(to_fill..self.frames.len());
            } else {
                proof {
                    assert(self.frames@.skip(to_fill as int) =~= Seq::<F>::empty());
                }
            }
            proof {
                assert(self.pending() =~= self.frames@.skip(to_fill as int));
                assert(output@.skip(start as int) + self.pending() =~= self.frames@);
                if old(self).in_order() {
                    assert(old(self).pending() =~= Seq::<F>::empty());
                    assert(self.frames@.take(to_fill as int) + self.frames@.skip(to_fill as int) =~= self.frames@);
                    assert(self.delivered() + self.pending() =~= self.received());
                }
            }
            return None;
        }
        let mut buffer: Vec<F> = Vec::new();
        std::mem::swap(&mut buffer, &mut self.frames);
        let len = buffer.len();
        reset_buffer(&mut buffer, len, equilibrium);
        let remaining = progress.target - end;
        let next = if len < remaining { len } else { remaining };
        self.progress = Some(Progress { written: end, to_fill: next, target: progress.target });
        proof {
            if old(self).in_order() && len == to_fill {
                assert(old(self).pending() =~= Seq::<F>::empty());
                assert(self.pending() =~= Seq::<F>::empty());
                assert(old(self).delivered() == old(self).received());
                assert(written_frames@.take(to_fill as int) =~= written_frames@);
                assert(self.delivered() + self.pending() =~= self.received());
            }
        }
        Some(buffer)
    }

    /// Abandon the fill in progress, as the engine can no longer be reached.
    pub fn abandon(&mut self) -> (r: ControlFlow)
        requires
            old(self).wf(),
        ensures
            final(self).wf(),
            !final(self).filling(),
            final(self).pending() == old(self).pending(),
            final(self).spec_num_frames() == old(self).spec_num_frames(),
            final(self).received() == old(self).received(),
            final(self).delivered() == old(self).delivered(),
            r == ControlFlow::Complete,
    {
        self.progress = None;
        ControlFlow::Complete
    }
}


/// Frames reach the outputs in the order in which the engine's buffers brought them, none
/// dropped or repeated: while the engine answers each request with a buffer of the length handed
/// to it, what was written to the outputs over all fills so far is the start of what was
/// received, and the frames still pending are the rest, to be written first by the next fill.
pub proof fn lemma_frames_in_order<F: Copy>(r: Requester<F>)
    requires
        r.in_order(),
    ensures
        r.delivered() == r.received().take(r.delivered().len() as int),
        r.pending() == r.received().skip(r.delivered().len() as int),
{
    assert(r.received().take(r.delivered().len() as int) =~= r.delivered());
    assert(r.received().skip(r.delivered().len() as int) =~= r.pending());
}

} // verus!
