use ruffle::stream_timing::VideoTiming;

#[test]
fn video_timing_follows_the_tags() {
    let mut t = VideoTiming::new();
    t.note_video_timing(0, 0);
    assert_eq!(t, VideoTiming { max_composition_offset: 0, video_frame_interval: 0, last_video_dts: 0 });
    t.note_video_timing(40, 80);
    assert_eq!(t, VideoTiming { max_composition_offset: 80, video_frame_interval: 40, last_video_dts: 40 });
    t.note_video_timing(80, 40);
    assert_eq!(t, VideoTiming { max_composition_offset: 80, video_frame_interval: 40, last_video_dts: 80 });
    // A tag that goes back in time keeps the interval.
    t.note_video_timing(60, -20);
    assert_eq!(t, VideoTiming { max_composition_offset: 80, video_frame_interval: 40, last_video_dts: 60 });
    t.note_video_timing(93, 120);
    assert_eq!(t, VideoTiming { max_composition_offset: 120, video_frame_interval: 33, last_video_dts: 93 });
}
