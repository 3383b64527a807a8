use campi::capture::{check_configuration, fourcc, frame_payload, mjpeg, CaptureError, ConfigStatus};

#[test]
fn fourcc_puts_the_first_character_in_the_lowest_byte() {
    assert_eq!(fourcc(1, 2, 3, 4), 0x0403_0201);
    assert_eq!(fourcc(0, 0, 0, 0), 0);
    assert_eq!(fourcc(255, 255, 255, 255), u32::MAX);
    assert_eq!(fourcc(b'Y', b'U', b'Y', b'V'), u32::from_le_bytes(*b"YUYV"));
}

#[test]
fn mjpeg_spells_mjpg() {
    assert_eq!(mjpeg(), u32::from_le_bytes([b'M', b'J', b'P', b'G']));
    assert_eq!(mjpeg(), 0x4750_4a4d);
    assert_eq!(mjpeg(), 1_196_444_237);
}

#[test]
fn valid_and_adjusted_configurations_pass_with_the_format_kept() {
    assert_eq!(check_configuration(ConfigStatus::Valid, mjpeg(), 0), Ok(()));
    assert_eq!(check_configuration(ConfigStatus::Adjusted, mjpeg(), 0), Ok(()));
}

#[test]
fn invalid_configuration_is_refused() {
    assert_eq!(
        check_configuration(ConfigStatus::Invalid, mjpeg(), 0),
        Err(CaptureError::InvalidConfiguration)
    );
    assert_eq!(
        check_configuration(ConfigStatus::Invalid, 0, 7),
        Err(CaptureError::InvalidConfiguration)
    );
}

#[test]
fn replaced_pixel_format_is_refused() {
    let yuyv = fourcc(b'Y', b'U', b'Y', b'V');
    assert_eq!(
        check_configuration(ConfigStatus::Adjusted, yuyv, 0),
        Err(CaptureError::FormatNotSupported)
    );
    assert_eq!(
        check_configuration(ConfigStatus::Valid, yuyv, 0),
        Err(CaptureError::FormatNotSupported)
    );
    assert_eq!(
        check_configuration(ConfigStatus::Valid, mjpeg(), 1),
        Err(CaptureError::FormatNotSupported)
    );
}

#[test]
fn frame_payload_is_the_used_front_of_the_buffer() {
    let plane = [0xffu8, 0xd8, 0x01, 0x02, 0xff, 0xd9, 0, 0];
    assert_eq!(frame_payload(&plane, 6), Ok(&plane[..6]));
    assert_eq!(frame_payload(&plane, 0), Ok(&plane[..0]));
    assert_eq!(frame_payload(&plane, 8), Ok(&plane[..]));
}

#[test]
fn frame_payload_beyond_the_buffer_is_refused() {
    let plane = [1u8, 2, 3];
    assert_eq!(frame_payload(&plane, 4), Err(CaptureError::FrameOutOfBounds));
    assert_eq!(frame_payload(&plane, u32::MAX), Err(CaptureError::FrameOutOfBounds));
    assert_eq!(frame_payload(&[], 1), Err(CaptureError::FrameOutOfBounds));
    assert_eq!(frame_payload(&[], 0), Ok(&[][..]));
}
