//! The realtime audio input source kind: samples captured from the input stream and forwarded
//! to the sound that plays them.

use vstd::prelude::*;

verus! {

/// The signal end of a realtime source: the receiving end of the captured samples `Q`, the
/// number of channels, and the number of samples left to play if the sound has a duration.
pub struct Signal<Q> {
    pub sample_rx: Q,
    pub channels: usize,
    pub remaining_samples: Option<usize>,
}

impl<Q> Signal<Q> {
    /// The number of channels in the source.
    pub fn channels(&self) -> (r: usize)
        ensures
            r == self.channels,
    {
        self.channels
    }

    /// The number of whole frames remaining in the signal; `None` if the signal is continuous.
    pub fn remaining_frames(&self) -> (r: Option<i64>)
        requires
            self.remaining_samples is Some ==> self.channels > 0,
        ensures
            match self.remaining_samples {
                Some(s) => r == Some((s / self.channels) as i64),
                None => r is None,
            },
    {
        match self.remaining_samples {
            Some(s) => Some((s / self.channels) as i64),
            None => None,
        }
    }

    /// Count a sample that was received and played.
    pub fn sample_taken(&mut self)
        ensures
            final(self).sample_rx == old(self).sample_rx,
            final(self).channels == old(self).channels,
            final(self).remaining_samples == match old(self).remaining_samples {
                Some(n) => Some(if n > 0 { (n - 1) as usize } else { 0usize }),
                None => None,
            },
    {
        self.remaining_samples = match self.remaining_samples {
            Some(n) => Some(n.saturating_sub(1)),
            None => None,
        };
    }
}

} // verus!
