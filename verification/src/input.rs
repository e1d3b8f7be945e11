//! The bookkeeping of the input stream's capture: how much of each input buffer a realtime sound
//! takes, and from which channels.

use vstd::prelude::*;

verus! {

/// The duration of an active realtime sound's capture.
#[derive(Copy, Clone, Debug, PartialEq, Eq)]
pub enum Duration {
    Infinite,
    Frames(usize),
}

impl Duration {
    /// The number of frames to take from an input buffer of `buffer_frames` frames.
    pub fn frames_to_take(&self, buffer_frames: usize) -> (r: usize)
        ensures
            r == match *self {
                Duration::Frames(f) => if f < buffer_frames { f } else { buffer_frames },
                Duration::Infinite => buffer_frames,
            },
    {
        match *self {
            Duration::Frames(frames) => if frames < buffer_frames { frames } else { buffer_frames },
            Duration::Infinite => buffer_frames,
        }
    }

    /// The duration left after an input buffer of `buffer_frames` frames has been captured, or
    /// `None` if the sound has no frames left to capture and should be removed.
    pub fn after_buffer(&self, buffer_frames: usize) -> (r: Option<Duration>)
        ensures
            r == match *self {
                Duration::Frames(f) => if f > buffer_frames {
                    Some(Duration::Frames((f - buffer_frames) as usize))
                } else {
                    None::<Duration>
                },
                Duration::Infinite => Some(Duration::Infinite),
            },
    {
        match *self {
            Duration::Frames(frames) => if frames > buffer_frames {
                Some(Duration::Frames(frames - buffer_frames))
            } else {
                None
            },
            Duration::Infinite => Some(Duration::Infinite),
        }
    }
}

/// The range of the input buffer's channels that a realtime source reads: the source's channel
/// range `start..end`, with both ends limited to the buffer's channels.
pub fn capture_channel_range(start: usize, end: usize, buffer_channels: usize) -> (r: (usize, usize))
    ensures
        r.0 == if start < buffer_channels { start } else { buffer_channels },
        r.1 == if end < buffer_channels { end } else { buffer_channels },
        start <= end ==> r.0 <= r.1,
        r.1 <= buffer_channels,
{
    let s = if start < buffer_channels { start } else { buffer_channels };
    let e = if end < buffer_channels { end } else { buffer_channels };
    (s, e)
}

} // verus!
