use vstd::prelude::*;
use vstd::slice::slice_subrange;

verus! {

/// What the camera says of a configuration that it was asked to validate.
#[derive(Debug, Clone, Copy, PartialEq, Eq, Structural)]
pub enum ConfigStatus {
    /// The configuration is valid as it stands.
    Valid,
    /// The configuration is valid after the camera changed some of it.
    Adjusted,
    /// The configuration cannot be used.
    Invalid,
}

/// Why a capture is given up.
#[derive(Debug, Clone, Copy, PartialEq, Eq, Structural)]
pub enum CaptureError {
    /// The camera rejected the configuration.
    InvalidConfiguration,
    /// The camera replaced the requested pixel format by another.
    FormatNotSupported,
    /// The camera reports more bytes than the frame buffer holds.
    FrameOutOfBounds,
}

/// The code that four characters spell, the first in the lowest byte.
pub open spec fn fourcc_code(a: u8, b: u8, c: u8, d: u8) -> int {
    a + 0x100 * b + 0x1_0000 * c + 0x100_0000 * d
}

/// The code of the motion JPEG pixel format, spelled `MJPG`.
pub open spec fn mjpeg_code() -> int {
    fourcc_code('M' as u8, 'J' as u8, 'P' as u8, 'G' as u8)
}

/// Whether the camera can go on with a configuration that it reported as
/// `status`, and in which it left the pixel format `format` with `modifier`.
pub open spec fn configuration_verdict(status: ConfigStatus, format: u32, modifier: u64) -> Result<
    (),
    CaptureError,
> {
    if status == ConfigStatus::Invalid {
        Err(CaptureError::InvalidConfiguration)
    } else if format != mjpeg_code() || modifier != 0 {
        Err(CaptureError::FormatNotSupported)
    } else {
        Ok(())
    }
}

/// Computes the code that four characters spell.
pub fn fourcc(a: u8, b: u8, c: u8, d: u8) -> (code: u32)
    ensures
        code == fourcc_code(a, b, c, d),
{
    let low: u32 = a as u32 + 0x100 * (b as u32);
    let high: u32 = c as u32 + 0x100 * (d as u32);
    low + 0x1_0000 * high
}

/// The code of the motion JPEG pixel format.
pub fn mjpeg() -> (code: u32)
    ensures
        code == mjpeg_code(),
        code == 0x4750_4a4d,
{
    fourcc('M' as u8, 'J' as u8, 'P' as u8, 'G' as u8)
}

/// Decides whether a validated configuration can be used for a capture.
///
/// An adjusted configuration is as good as a valid one, as long as the
/// camera kept the motion JPEG format that it was asked for.
pub fn check_configuration(status: ConfigStatus, format: u32, modifier: u64) -> (verdict: Result<
    (),
    CaptureError,
>)
    ensures
        verdict == configuration_verdict(status, format, modifier),
{
    match status {
        ConfigStatus::Invalid => Err(CaptureError::InvalidConfiguration),
        _ => {
            if format != mjpeg() || modifier != 0 {
                Err(CaptureError::FormatNotSupported)
            } else {
                Ok(())
            }
        },
    }
}

/// The encoded picture within a frame buffer: its first `bytes_used` bytes.
pub fn frame_payload<'a>(plane: &'a [u8], bytes_used: u32) -> (payload: Result<
    &'a [u8],
    CaptureError,
>)
    ensures
        bytes_used <= plane@.len() <==> payload is Ok,
        payload matches Ok(bytes) ==> bytes@ == plane@.take(bytes_used as int),
        payload matches Err(e) ==> e == CaptureError::FrameOutOfBounds,
{
    let used = bytes_used as usize;
    if used <= plane.len() {
        Ok(slice_subrange(plane, 0, used))
    } else {
        Err(CaptureError::FrameOutOfBounds)
    }
}

} // verus!
