//! Payloads and the guards through which they are written.
use bytes::{Bytes, BytesMut};
use lightweight_shred::Payload;

#[test]
fn payloads_from_bytes() {
    let payload = Payload::from(vec![1u8, 2, 3]);
    assert_eq!(payload.as_slice(), [1, 2, 3]);
    assert_eq!(payload.as_ref(), [1, 2, 3]);
    assert_eq!(payload[1], 2);
    assert_eq!(Payload::from(Bytes::from_static(&[1, 2, 3])), payload);
    assert_eq!(Payload::from(BytesMut::from(&[1u8, 2, 3][..])), payload);
    assert_ne!(Payload::from(vec![1u8, 2, 4]), payload);
    assert_eq!(payload.clone(), payload);
    assert_eq!(&payload.into_bytes_mut()[..], [1, 2, 3]);
}

#[test]
fn truncation() {
    let mut payload = Payload::from(vec![1u8, 2, 3]);
    payload.truncate(5);
    assert_eq!(payload.as_slice(), [1, 2, 3]);
    payload.truncate(2);
    assert_eq!(payload.as_slice(), [1, 2]);
    payload.truncate(0);
    assert_eq!(payload.as_slice().len(), 0);
}

#[test]
fn writing_through_a_guard() {
    let mut payload = Payload::from(vec![1u8, 2, 3, 4, 5]);
    let shared = payload.clone();
    let mut guard = payload.get_mut(1..3).unwrap();
    assert_eq!(guard.as_ref(), [2, 3]);
    guard.copy_from_slice(&[8, 9]);
    assert_eq!(guard.as_ref(), [8, 9]);
    assert_eq!(payload.as_slice(), [1, 8, 9, 4, 5]);
    assert_eq!(shared.as_slice(), [1, 2, 3, 4, 5]);
    let mut guard = payload.as_mut();
    guard.as_mut()[4] = 7;
    assert_eq!(payload.as_slice(), [1, 8, 9, 4, 7]);
}

#[test]
fn guards_that_go_out_of_scope() {
    let mut payload = Payload::from(vec![1u8, 2, 3]);
    let _ = payload.as_mut();
    assert_eq!(payload.as_slice(), [1, 2, 3]);
    if let Some(mut guard) = payload.get_mut(1..2) {
        guard.as_mut()[0] = 9;
    }
    assert_eq!(payload, Payload::from(vec![1u8, 9, 3]));
    // What was written is in the payload whatever is done with it next.
    let written = payload.clone();
    payload.truncate(2);
    assert_eq!(payload.as_slice(), [1, 9]);
    payload.as_mut().copy_from_slice(&[5, 6]);
    assert_eq!(written.as_slice(), [1, 9, 3]);
    assert_eq!(payload.bytes.as_slice(), [5, 6]);
    payload.share();
    assert_eq!(payload.clone().as_slice(), [5, 6]);
    assert_eq!(payload.clone().bytes.into_shared(), Bytes::from_static(&[5, 6]));
    payload.as_mut().as_mut()[1] = 7;
    assert_eq!(&payload.clone().into_bytes_mut()[..], [5, 7]);
    assert_eq!(&payload.into_bytes_mut()[..], [5, 7]);
}

#[test]
fn guards_beyond_the_end() {
    let mut payload = Payload::from(vec![1u8, 2, 3]);
    assert!(payload.get_mut(0..4).is_none());
    assert_eq!(payload.as_slice(), [1, 2, 3]);
    let guard = payload.get_mut(3..3).unwrap();
    assert_eq!(guard.as_ref().len(), 0);
    assert_eq!(payload.as_slice(), [1, 2, 3]);
}
