use summit_hip_numbers::clock::{
    FrameRate, PlaybackClock, DEFAULT_FRAME_INTERVAL_NANOS, NANOS_PER_SECOND,
};

fn rate(numerator: i32, denominator: i32) -> FrameRate {
    FrameRate { numerator, denominator }
}

#[test]
fn interval_of_thirty_frames_per_second() {
    assert_eq!(rate(30, 1).frame_interval_nanos(), 33_333_333);
}

#[test]
fn interval_of_ntsc_rate() {
    assert_eq!(rate(30000, 1001).frame_interval_nanos(), 33_366_666);
}

#[test]
fn interval_of_one_frame_per_second() {
    assert_eq!(rate(1, 1).frame_interval_nanos(), NANOS_PER_SECOND);
}

#[test]
fn interval_of_largest_denominator_fits() {
    assert_eq!(
        rate(1, i32::MAX).frame_interval_nanos(),
        2_147_483_647_000_000_000
    );
}

#[test]
fn zero_numerator_falls_back() {
    assert!(!rate(0, 1).usable());
    assert_eq!(rate(0, 1).frame_interval_nanos(), DEFAULT_FRAME_INTERVAL_NANOS);
    assert_eq!(DEFAULT_FRAME_INTERVAL_NANOS, 33_000_000);
}

#[test]
fn zero_denominator_falls_back() {
    assert_eq!(rate(25, 0).frame_interval_nanos(), 33_000_000);
}

#[test]
fn negative_parts_fall_back() {
    assert_eq!(rate(-30, 1).frame_interval_nanos(), 33_000_000);
    assert_eq!(rate(30, -1).frame_interval_nanos(), 33_000_000);
    assert_eq!(rate(-30, -1).frame_interval_nanos(), 33_000_000);
}

#[test]
fn clock_starts_before_first_frame() {
    let clock = PlaybackClock::new(rate(25, 1));
    assert_eq!(clock.interval_nanos, 40_000_000);
    assert_eq!(clock.frames_published, 0);
}

#[test]
fn early_frame_waits_for_its_deadline() {
    let mut clock = PlaybackClock::new(rate(25, 1));
    // first frame is due at 40 ms; it was published after 10 ms
    assert_eq!(clock.frame_published(10_000_000), 30_000_000);
    assert_eq!(clock.frames_published, 1);
    // second frame is due at 80 ms; it was published after 45 ms
    assert_eq!(clock.frame_published(45_000_000), 35_000_000);
    assert_eq!(clock.frames_published, 2);
}

#[test]
fn late_frame_does_not_wait() {
    let mut clock = PlaybackClock::new(rate(25, 1));
    assert_eq!(clock.frame_published(40_000_000), 0);
    assert_eq!(clock.frame_published(500_000_000), 0);
    // the third frame is due at 120 ms whatever happened before
    assert_eq!(clock.frame_published(100_000_000), 20_000_000);
}

#[test]
fn deadlines_are_one_interval_apart() {
    let mut clock = PlaybackClock::new(rate(30, 1));
    let mut previous: u64 = 0;
    for frame in 1..=90u64 {
        // published without any delay: the wait is the whole deadline
        let deadline = clock.frame_published(0);
        assert_eq!(deadline, frame * 33_333_333);
        assert_eq!(deadline - previous, 33_333_333);
        previous = deadline;
    }
}

#[test]
fn frame_count_stops_at_its_limit() {
    let mut clock = PlaybackClock {
        interval_nanos: 1,
        frames_published: u64::MAX,
    };
    assert_eq!(clock.frame_published(0), u64::MAX);
    assert_eq!(clock.frames_published, u64::MAX);
}

#[test]
fn wait_is_capped_at_what_fits() {
    let mut clock = PlaybackClock {
        interval_nanos: u64::MAX,
        frames_published: 1,
    };
    assert_eq!(clock.frame_published(5), u64::MAX);
}
