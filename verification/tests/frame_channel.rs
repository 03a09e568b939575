use summit_hip_numbers::frame_channel::{DecodedFrame, FrameSlot};

fn solid(width: usize, height: usize, value: u8) -> DecodedFrame {
    let plane = vec![value; width * height * 4];
    DecodedFrame::from_plane(width, height, width * 4, &plane).unwrap()
}

#[test]
fn tight_plane_is_taken_as_it_is() {
    let plane: Vec<u8> = (0..16).collect();
    let frame = DecodedFrame::from_plane(2, 2, 8, &plane).unwrap();
    assert_eq!(frame.width(), 2);
    assert_eq!(frame.height(), 2);
    assert_eq!(frame.pixels(), &plane);
}

#[test]
fn padding_between_rows_is_dropped() {
    // one pixel wide, three rows, rows six bytes apart
    let plane: Vec<u8> = vec![
        1, 2, 3, 4, 0xee, 0xee, //
        5, 6, 7, 8, 0xee, 0xee, //
        9, 10, 11, 12, 0xee, 0xee,
    ];
    let frame = DecodedFrame::from_plane(1, 3, 6, &plane).unwrap();
    assert_eq!(frame.pixels(), &vec![1, 2, 3, 4, 5, 6, 7, 8, 9, 10, 11, 12]);
    assert_eq!(frame.pixels().len(), frame.width() * frame.height() * 4);
}

#[test]
fn last_row_needs_no_padding() {
    let plane: Vec<u8> = vec![1, 2, 3, 4, 0xee, 0xee, 5, 6, 7, 8];
    let frame = DecodedFrame::from_plane(1, 2, 6, &plane).unwrap();
    assert_eq!(frame.pixels(), &vec![1, 2, 3, 4, 5, 6, 7, 8]);
}

#[test]
fn short_plane_is_refused() {
    let plane: Vec<u8> = vec![0; 15];
    assert!(DecodedFrame::from_plane(2, 2, 8, &plane).is_none());
}

#[test]
fn stride_shorter_than_a_row_is_refused() {
    let plane: Vec<u8> = vec![0; 64];
    assert!(DecodedFrame::from_plane(2, 2, 7, &plane).is_none());
}

#[test]
fn sizes_beyond_counting_are_refused() {
    let plane: Vec<u8> = vec![0; 64];
    assert!(DecodedFrame::from_plane(usize::MAX, 1, usize::MAX, &plane).is_none());
    assert!(DecodedFrame::from_plane(1, usize::MAX, usize::MAX, &plane).is_none());
    assert!(DecodedFrame::from_plane(1, usize::MAX, 4, &plane).is_none());
}

#[test]
fn frame_without_rows_is_empty() {
    let frame = DecodedFrame::from_plane(4, 0, 16, &[]).unwrap();
    assert_eq!(frame.height(), 0);
    assert!(frame.pixels().is_empty());
    let frame = DecodedFrame::from_plane(0, 3, 0, &[]).unwrap();
    assert_eq!(frame.width(), 0);
    assert!(frame.pixels().is_empty());
}

#[test]
fn new_slot_is_empty_and_open() {
    let mut slot = FrameSlot::new();
    assert!(slot.is_open());
    assert!(slot.take().is_none());
}

#[test]
fn published_frame_is_fetched_once() {
    let mut slot = FrameSlot::new();
    assert!(slot.publish(solid(2, 2, 7)));
    let frame = slot.take().unwrap();
    assert_eq!(frame.pixels(), &vec![7u8; 16]);
    assert!(slot.take().is_none());
}

#[test]
fn later_frame_replaces_unseen_frame() {
    let mut slot = FrameSlot::new();
    assert!(slot.publish(solid(1, 1, 1)));
    assert!(slot.publish(solid(1, 1, 2)));
    assert!(slot.publish(solid(1, 1, 3)));
    assert_eq!(slot.take().unwrap().pixels(), &vec![3u8; 4]);
    assert!(slot.take().is_none());
}

#[test]
fn slot_works_again_after_a_fetch() {
    let mut slot = FrameSlot::new();
    assert!(slot.publish(solid(1, 1, 1)));
    assert!(slot.take().is_some());
    assert!(slot.publish(solid(1, 1, 2)));
    assert_eq!(slot.take().unwrap().pixels(), &vec![2u8; 4]);
}

#[test]
fn closed_slot_refuses_frames() {
    let mut slot = FrameSlot::new();
    assert!(slot.publish(solid(1, 1, 1)));
    slot.close();
    assert!(!slot.is_open());
    assert!(slot.take().is_none());
    assert!(!slot.publish(solid(1, 1, 2)));
    assert!(slot.take().is_none());
}
