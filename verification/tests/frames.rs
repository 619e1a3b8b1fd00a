use ingress_engine::codec::DecodeError;
use ingress_engine::config::Config;
use ingress_engine::connection::{CloseKind, Connection};

fn fresh() -> Connection {
    Connection::new(&Config::default())
}

fn must_frame(c: &mut Connection) -> bytes::Bytes {
    match c.parse_frame() {
        Ok(Some(f)) => f,
        Ok(None) => panic!("expected a frame, got incomplete"),
        Err(e) => panic!("expected a frame, got {:?}", e),
    }
}

#[test]
fn empty_buffer_is_incomplete() {
    let mut c = fresh();
    assert!(matches!(c.parse_frame(), Ok(None)));
    assert_eq!(c.len(), 0);
}

#[test]
fn single_byte_is_incomplete() {
    let mut c = fresh();
    c.feed(&[0x10]);
    assert!(matches!(c.parse_frame(), Ok(None)));
    assert_eq!(c.buffered(), vec![0x10]);
}

#[test]
fn four_continuation_bytes_are_malformed() {
    let mut c = fresh();
    c.feed(&[0x10, 0x80, 0x80, 0x80, 0x80]);
    assert_eq!(c.parse_frame(), Err(DecodeError::Malformed));
}

#[test]
fn four_continuation_bytes_are_malformed_despite_more_data() {
    let mut c = fresh();
    c.feed(&[0x10, 0xFF, 0x81, 0xC3, 0x80]);
    c.feed(&[0x01, 0x02, 0x03, 0x04, 0x05, 0x06]);
    assert_eq!(c.parse_frame(), Err(DecodeError::Malformed));
}

#[test]
fn scenario_seven_byte_frame_consumed_whole() {
    let mut c = fresh();
    c.feed(&[0x10, 0x05, 0x01, 0x02, 0x03, 0x04, 0x05]);
    let f = must_frame(&mut c);
    assert_eq!(&f[..], &[0x10, 0x05, 0x01, 0x02, 0x03, 0x04, 0x05]);
    assert_eq!(c.len(), 0);
    assert!(c.buffered().is_empty());
}

#[test]
fn scenario_declared_length_128_waits_for_payload() {
    let mut c = fresh();
    c.feed(&[0x30, 0x80, 0x01]);
    assert!(matches!(c.parse_frame(), Ok(None)));
    assert_eq!(c.buffered(), vec![0x30, 0x80, 0x01]);

    let payload = [0xABu8; 128];
    c.feed(&payload);
    let f = must_frame(&mut c);
    assert_eq!(f.len(), 131);
    assert_eq!(f[0], 0x30);
    assert_eq!(f[1], 0x80);
    assert_eq!(f[2], 0x01);
    assert!(f[3..].iter().all(|b| *b == 0xAB));
    assert_eq!(c.len(), 0);
}

#[test]
fn trailing_bytes_stay_in_order() {
    let mut c = fresh();
    c.feed(&[0x10, 0x02, 0xAA, 0xBB, 0x99, 0x88]);
    let f = must_frame(&mut c);
    assert_eq!(&f[..], &[0x10, 0x02, 0xAA, 0xBB]);
    assert_eq!(c.buffered(), vec![0x99, 0x88]);
    assert!(matches!(c.parse_frame(), Ok(None)));
    assert_eq!(c.buffered(), vec![0x99, 0x88]);
}

#[test]
fn two_queued_frames_come_out_one_by_one() {
    let mut c = fresh();
    c.feed(&[0x10, 0x01, 0xAA, 0x20, 0x00]);
    let first = must_frame(&mut c);
    assert_eq!(&first[..], &[0x10, 0x01, 0xAA]);
    let second = must_frame(&mut c);
    assert_eq!(&second[..], &[0x20, 0x00]);
    assert_eq!(c.len(), 0);
}

#[test]
fn zero_read_on_empty_buffer_is_clean_closure() {
    let c = fresh();
    assert_eq!(c.on_zero_read(), CloseKind::Clean);
}

#[test]
fn zero_read_with_pending_bytes_is_reset() {
    let mut c = fresh();
    c.feed(&[0x30, 0x80]);
    assert_eq!(c.on_zero_read(), CloseKind::Reset);
}

#[test]
fn ensure_spare_keeps_contents() {
    let mut c = fresh();
    c.feed(&[0x10, 0x02, 0x01]);
    c.ensure_spare();
    assert_eq!(c.buffered(), vec![0x10, 0x02, 0x01]);
    assert!(matches!(c.parse_frame(), Ok(None)));
}
