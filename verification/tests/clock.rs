//! Clock sync.
use ros2dreame::timesync::{
    initial_step, median, ntp_request, offset_ns, parse_reply, slews, timeval, NtpReply,
    StartupSync,
};

fn reply(sec2: u32, frac2: u32, sec3: u32, frac3: u32) -> [u8; 48] {
    let mut p = [0u8; 48];
    p[32..36].copy_from_slice(&sec2.to_be_bytes());
    p[36..40].copy_from_slice(&frac2.to_be_bytes());
    p[40..44].copy_from_slice(&sec3.to_be_bytes());
    p[44..48].copy_from_slice(&frac3.to_be_bytes());
    p
}

const EPOCH: u32 = 2_208_988_800;

#[test]
fn request_bytes() {
    let r = ntp_request();
    assert_eq!(r[0], 0x1b);
    assert!(r[1..].iter().all(|&b| b == 0));
}

#[test]
fn reply_timestamps() {
    let p = reply(EPOCH + 100, 0x8000_0000, EPOCH + 101, 0x4000_0000);
    assert_eq!(
        parse_reply(&p),
        Some(NtpReply { received_ns: 100_500_000_000, sent_ns: 101_250_000_000 })
    );
    let p = reply(u32::MAX, u32::MAX, EPOCH, 1);
    assert_eq!(
        parse_reply(&p),
        Some(NtpReply { received_ns: 2_085_978_495_999_999_999, sent_ns: 0 })
    );
}

#[test]
fn unusable_replies() {
    let p = reply(EPOCH + 1, 0, EPOCH + 1, 0);
    assert!(parse_reply(&p).is_some());
    assert!(parse_reply(&p[..47]).is_none());
    assert!(parse_reply(&reply(0, 0, EPOCH + 1, 0)).is_none());
    assert!(parse_reply(&reply(EPOCH + 1, 0, EPOCH, 0)).is_none());
    assert!(parse_reply(&reply(EPOCH - 1, u32::MAX, EPOCH + 1, 0)).is_none());
}

#[test]
fn offset_is_free_of_the_way() {
    // the server is 5 s ahead, the way takes 30 ms each, the server 2 ms
    let t1 = 1_000_000_000_000u64;
    let r = NtpReply { received_ns: 1_005_030_000_000, sent_ns: 1_005_032_000_000 };
    assert_eq!(offset_ns(t1, &r, 1_000_062_000_000), 5_000_000_000);
    // 20 ms more on the way back shift it by 10 ms
    assert_eq!(offset_ns(t1, &r, 1_000_082_000_000), 4_990_000_000);
    let r = NtpReply { received_ns: 0, sent_ns: 0 };
    assert_eq!(offset_ns(3, &r, 4), -3);
}

#[test]
fn median_offset() {
    assert_eq!(median(&[]), None);
    assert_eq!(median(&[7]), Some(7));
    assert_eq!(median(&[9, -4]), Some(9));
    assert_eq!(median(&[5, 1, 3]), Some(3));
    assert_eq!(median(&[4, 1, 3, 2]), Some(3));
    assert_eq!(median(&[2, 2, 1, 9, 2]), Some(2));
}

#[test]
fn startup_decision() {
    let ms = 1_000_000i128;
    assert_eq!(initial_step(None), StartupSync::NoReply);
    assert_eq!(initial_step(Some(20 * ms)), StartupSync::Keep);
    assert_eq!(initial_step(Some(-20 * ms)), StartupSync::Keep);
    assert_eq!(initial_step(Some(20 * ms + 1)), StartupSync::Step);
    assert_eq!(initial_step(Some(-3_600_000 * ms)), StartupSync::Step);
    assert_eq!(initial_step(Some(-3_600_000 * ms - 1)), StartupSync::Ignore);
    assert_eq!(initial_step(Some(i128::MAX)), StartupSync::Ignore);
}

#[test]
fn slew_decision() {
    assert!(slews(0) && slews(3_600_000_000_000) && slews(-3_600_000_000_000));
    assert!(!slews(3_600_000_000_001) && !slews(-3_600_000_000_001));
}

#[test]
fn timeval_rounds_toward_zero() {
    assert_eq!(timeval(1_500_000_999), (1, 500_000));
    assert_eq!(timeval(-1_500_000_999), (-1, -500_000));
    assert_eq!(timeval(-999), (0, 0));
    assert_eq!(timeval(-1_000), (0, -1));
}
