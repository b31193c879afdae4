//! What a stream's video tags tell about how far ahead of presentation its
//! frames have to be decoded.

use vstd::prelude::*;

verus! {

/// The timing that an FLV stream's video tags have shown so far, in
/// milliseconds.
#[derive(Debug, Clone, Copy, PartialEq, Eq, Structural)]
pub struct VideoTiming {
    /// The largest composition time offset seen so far: how much earlier
    /// than its presentation time the stream expects a frame to be decoded.
    /// It stays at zero for every codec without bidirectional prediction.
    pub max_composition_offset: i64,
    /// The gap between the last two video tags.
    pub video_frame_interval: i64,
    /// The decode timestamp of the last video tag handed to the decoder.
    pub last_video_dts: i64,
}

impl VideoTiming {
    /// The timing of a stream whose video has not started yet.
    pub fn new() -> (r: Self)
        ensures
            r.max_composition_offset == 0,
            r.video_frame_interval == 0,
            r.last_video_dts == 0,
    {
        VideoTiming { max_composition_offset: 0, video_frame_interval: 0, last_video_dts: 0 }
    }

    /// Notes a video tag decoded at `dts` and shown `composition_offset`
    /// later: the largest offset grows to cover it, and a tag later than the
    /// last one sets the frame interval to the gap between them.
    pub fn note_video_timing(&mut self, dts: i64, composition_offset: i64)
        requires
            i64::MIN <= dts - old(self).last_video_dts <= i64::MAX,
        ensures
            final(self).max_composition_offset == if composition_offset > old(self).max_composition_offset {
                composition_offset
            } else {
                old(self).max_composition_offset
            },
            final(self).video_frame_interval == if dts - old(self).last_video_dts > 0 {
                dts - old(self).last_video_dts
            } else {
                old(self).video_frame_interval as int
            },
            final(self).last_video_dts == dts,
    {
        if composition_offset > self.max_composition_offset {
            self.max_composition_offset = composition_offset;
        }
        let delta = dts - self.last_video_dts;
        if delta > 0 {
            self.video_frame_interval = delta;
        }
        self.last_video_dts = dts;
    }
}

} // verus!
