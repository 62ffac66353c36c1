//! ROS 2 messages without floating-point fields.
//!
//! Field order and types match the `.msg` definitions: CDR is positional.
use vstd::prelude::*;

verus! {

/// builtin_interfaces/Time
#[derive(Debug, Clone, Copy, Default, PartialEq, Eq)]
pub struct Time {
    pub sec: i32,
    pub nanosec: u32,
}

/// std_msgs/Header
#[derive(Debug, Clone, Default)]
pub struct Header {
    pub stamp: Time,
    pub frame_id: String,
}

/// sensor_msgs/CompressedImage
#[derive(Debug, Clone, Default)]
pub struct CompressedImage {
    pub header: Header,
    pub format: String,
    pub data: Vec<u8>,
}

/// std_msgs/Bool
#[derive(Debug, Clone, Copy, Default, PartialEq, Eq)]
pub struct Bool {
    pub data: bool,
}

/// The low 32 bits of a count of seconds, as a signed number.
pub open spec fn wrapped_sec(secs: u64) -> int {
    let low = secs as int % 0x1_0000_0000;
    if low < 0x8000_0000 {
        low
    } else {
        low - 0x1_0000_0000
    }
}

/// ROS time from the wall clock: whole seconds since 1970 and the nanoseconds after them, or
/// `None` for a clock that stands before 1970, which counts as 1970. The seconds wrap in 2038,
/// as the message's field does.
pub fn now(since_epoch: Option<(u64, u32)>) -> (t: Time)
    ensures
        since_epoch matches Some((secs, nanos)) ==> {
            &&& t.sec == wrapped_sec(secs)
            &&& t.nanosec == nanos
        },
        since_epoch is None ==> t.sec == 0 && t.nanosec == 0,
{
    match since_epoch {
        Some((secs, nanos)) => {
            assert((secs % 0x1_0000_0000 < 0x8000_0000 ==> secs as i32 == secs % 0x1_0000_0000) && (
            secs % 0x1_0000_0000 >= 0x8000_0000 ==> secs as i32 == secs % 0x1_0000_0000
                - 0x1_0000_0000)) by (bit_vector);
            Time { sec: #[verifier::truncate] (secs as i32), nanosec: nanos }
        },
        None => Time { sec: 0, nanosec: 0 },
    }
}

/// A JPEG as a message.
pub fn jpeg_image(stamp: Time, frame_id: &str, jpeg: Vec<u8>) -> (img: CompressedImage)
    ensures
        img.header.stamp == stamp,
        img.header.frame_id@ == frame_id@,
        img.format@ == "jpeg"@,
        img.data@ == jpeg@,
{
    CompressedImage {
        header: Header { stamp, frame_id: frame_id.to_owned() },
        format: "jpeg".to_owned(),
        data: jpeg,
    }
}

/// The seconds of a message are congruent to the count modulo 2^32 and fit a signed 32-bit field;
/// up to 2038 they are the count itself.
pub proof fn law_seconds_wrap_in_2038(secs: u64)
    ensures
        -0x8000_0000 <= wrapped_sec(secs) < 0x8000_0000,
        (secs - wrapped_sec(secs)) % 0x1_0000_0000 == 0,
        secs < 0x8000_0000 ==> wrapped_sec(secs) == secs,
{
}

/// The time is the seconds modulo 2^32 and the nanoseconds of the clock, and zero before 1970; a
/// JPEG goes out as it is, in the format `jpeg`.
pub proof fn law_messages_carry_time_and_image(
    secs: u64,
    nanos: u32,
    t: Time,
    zero: Time,
    stamp: Time,
    frame_id: &str,
    jpeg: Vec<u8>,
    img: CompressedImage,
)
    requires
        call_ensures(now, (Some((secs, nanos)),), t),
        call_ensures(now, (None,), zero),
        call_ensures(jpeg_image, (stamp, frame_id, jpeg), img),
    ensures
        (secs - t.sec) % 0x1_0000_0000 == 0,
        t.nanosec == nanos,
        zero.sec == 0 && zero.nanosec == 0,
        img.header.stamp == stamp,
        img.header.frame_id@ == frame_id@,
        img.format@ == seq!['j', 'p', 'e', 'g'],
        img.data@ == jpeg@,
{
    law_seconds_wrap_in_2038(secs);
    reveal_strlit("jpeg");
    assert("jpeg"@ =~= seq!['j', 'p', 'e', 'g']);
}

} // verus!
