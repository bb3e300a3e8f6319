use trixie::shared_frame_shm::{
    frame_bytes, serial_writing, serial_written, shm_name, HEADER_SIZE, MAX_PIXELS, SHM_SIZE,
};

#[test]
fn segment_name_and_size() {
    assert_eq!(shm_name("firefox"), "/trixie-embed-firefox");
    assert_eq!(shm_name(""), "/trixie-embed-");
    assert_eq!(MAX_PIXELS, 3840 * 2160 * 4);
    assert_eq!(SHM_SIZE, HEADER_SIZE + MAX_PIXELS);
}

#[test]
fn frame_bytes_is_the_smallest_bound() {
    assert_eq!(frame_bytes(1920, 1080, usize::MAX), 1920 * 1080 * 4);
    assert_eq!(frame_bytes(1920, 1080, 100), 100);
    assert_eq!(frame_bytes(4000, 4000, usize::MAX), MAX_PIXELS);
    assert_eq!(frame_bytes(u32::MAX, u32::MAX, usize::MAX), MAX_PIXELS);
    assert_eq!(frame_bytes(0, 7, 10), 0);
}

#[test]
fn serial_is_odd_while_writing_and_even_after() {
    assert_eq!(serial_writing(0), 1);
    assert_eq!(serial_written(0), 2);
    assert_eq!(serial_writing(4), 5);
    assert_eq!(serial_written(4), 6);
}
