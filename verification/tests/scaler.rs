use itk::scaler::{BYTES_PER_PIXEL, DEFAULT_HEIGHT, DEFAULT_WIDTH, NO_PIXEL_FORMAT};
use itk::{FrameScaler, InputGeometry, VideoError};

#[test]
fn test_scaler_dimensions() {
    let scaler = FrameScaler::new().unwrap();
    assert_eq!(scaler.width(), DEFAULT_WIDTH);
    assert_eq!(scaler.height(), DEFAULT_HEIGHT);
    assert_eq!(scaler.buffer_size(), 1280 * 720 * 4);
}

#[test]
fn test_custom_dimensions() {
    let scaler = FrameScaler::with_size(640, 480).unwrap();
    assert_eq!(scaler.width(), 640);
    assert_eq!(scaler.height(), 480);
    assert_eq!(scaler.buffer_size(), 640 * 480 * 4);
}

#[test]
fn test_overflow_dimensions() {
    let result = FrameScaler::with_size(u32::MAX, u32::MAX);
    assert!(result.is_err());
}

#[test]
fn scaler_overflow_names_the_size() {
    match FrameScaler::with_size(u32::MAX, u32::MAX) {
        Err(e) => assert_eq!(
            e,
            VideoError::FrameSizeOverflow { width: u32::MAX, height: u32::MAX }
        ),
        Ok(_) => panic!("expected an overflow"),
    }
}

#[test]
fn scaler_buffer_starts_zeroed() {
    let scaler = FrameScaler::with_size(3, 2).unwrap();
    assert_eq!(scaler.output().len(), 3 * 2 * BYTES_PER_PIXEL);
    assert!(scaler.output().iter().all(|b| *b == 0));
}

#[test]
fn scaler_default_is_720p() {
    let scaler = FrameScaler::default();
    assert_eq!((scaler.width(), scaler.height()), (1280, 720));
}

#[test]
fn scaler_context_is_rebuilt_on_change() {
    let mut scaler = FrameScaler::with_size(4, 4).unwrap();
    let input = InputGeometry { width: 1920, height: 1080, format: 0 };
    // No context yet.
    assert!(scaler.needs_new_context(false, input));
    // A context exists but was made for the initial (empty) geometry.
    assert!(scaler.needs_new_context(
        true,
        InputGeometry { width: 0, height: 0, format: 3 }
    ));
    assert!(!scaler.needs_new_context(
        true,
        InputGeometry { width: 0, height: 0, format: NO_PIXEL_FORMAT }
    ));
    scaler.remember_input(input);
    assert!(!scaler.needs_new_context(true, input));
    assert!(scaler.needs_new_context(true, InputGeometry { width: 1280, ..input }));
    assert!(scaler.needs_new_context(true, InputGeometry { height: 720, ..input }));
    assert!(scaler.needs_new_context(true, InputGeometry { format: 2, ..input }));
}

#[test]
fn scaler_copies_packed_plane() {
    let mut scaler = FrameScaler::with_size(2, 2).unwrap();
    let data: Vec<u8> = (0..16).collect();
    scaler.copy_plane(&data, 8);
    assert_eq!(scaler.output().as_slice(), data.as_slice());
}

#[test]
fn scaler_copies_padded_plane() {
    let mut scaler = FrameScaler::with_size(1, 3).unwrap();
    // Rows of 4 bytes, 6 bytes apart; the last row needs no padding.
    let data: Vec<u8> = vec![1, 2, 3, 4, 99, 99, 5, 6, 7, 8, 99, 99, 9, 10, 11, 12];
    scaler.copy_plane(&data, 6);
    assert_eq!(scaler.output().as_slice(), &[1, 2, 3, 4, 5, 6, 7, 8, 9, 10, 11, 12]);
}
