use helloween::error::Error;
use helloween::pbft::{Commit, PrePrepare, Prepare, Reply, Request};
use helloween::wire::{decode, encode, put_be, put_blob, read_be, same_bytes, take_u32, take_u8};

#[test]
fn request_has_its_documented_form() {
    let request = Request { client_id: 1, request_num: 0x01020304, op: vec![7, 8] };
    let bytes = encode(&request).unwrap();
    assert_eq!(bytes, vec![1, 0, 0, 0, 4, 3, 2, 1, 2, 0, 0, 0, 7, 8]);
    assert_eq!(decode::<Request>(&bytes).unwrap(), request);
}

#[test]
fn reply_round_trips() {
    let reply = Reply { request_num: 9, result: vec![1], replica_id: 3, view_num: 256 };
    let bytes = encode(&reply).unwrap();
    assert_eq!(bytes, vec![9, 0, 0, 0, 1, 0, 0, 0, 1, 3, 0, 1, 0, 0]);
    assert_eq!(decode::<Reply>(&bytes).unwrap(), reply);
}

#[test]
fn order_messages_round_trip() {
    let digest = [5u8; 32];
    let pre_prepare = PrePrepare { view_num: 1, op_num: 2, digest };
    let bytes = encode(&pre_prepare).unwrap();
    assert_eq!(bytes.len(), 40);
    assert_eq!(decode::<PrePrepare>(&bytes).unwrap(), pre_prepare);
    let prepare = Prepare { view_num: 1, op_num: 2, digest, replica_id: 3 };
    let bytes = encode(&prepare).unwrap();
    assert_eq!(bytes.len(), 41);
    assert_eq!(bytes[40], 3);
    assert_eq!(decode::<Prepare>(&bytes).unwrap(), prepare);
    let commit = Commit { view_num: 4, op_num: 5, digest, replica_id: 6 };
    assert_eq!(decode::<Commit>(&encode(&commit).unwrap()).unwrap(), commit);
}

#[test]
fn trailing_and_missing_bytes_are_refused() {
    let request = Request { client_id: 1, request_num: 2, op: vec![3] };
    let mut bytes = encode(&request).unwrap();
    bytes.push(0);
    assert_eq!(decode::<Request>(&bytes), Err(Error::Decoding));
    bytes.pop();
    bytes.pop();
    assert_eq!(decode::<Request>(&bytes), Err(Error::Decoding));
    assert_eq!(decode::<Request>(&[]), Err(Error::Decoding));
}

#[test]
fn sequences_carry_their_length() {
    let requests = vec![
        Request { client_id: 1, request_num: 1, op: vec![] },
        Request { client_id: 2, request_num: 1, op: vec![9] },
    ];
    let bytes = encode(&requests).unwrap();
    assert_eq!(&bytes[..4], &[2, 0, 0, 0]);
    assert_eq!(decode::<Vec<Request>>(&bytes).unwrap(), requests);
    assert_eq!(encode(&Vec::<Request>::new()).unwrap(), vec![0, 0, 0, 0]);
    assert!(decode::<Vec<Request>>(&[2, 0, 0, 0]).is_err());
}

#[test]
fn parts_come_off_the_front() {
    assert_eq!(take_u8(&[]), None);
    assert_eq!(take_u8(&[7, 8]), Some((7, &[8u8][..])));
    assert_eq!(take_u32(&[1, 2, 3]), None);
    assert_eq!(take_u32(&[0, 1, 0, 0, 9]), Some((256, &[9u8][..])));
}

#[test]
fn blobs_are_appended() {
    let mut out = vec![1u8];
    put_blob(&mut out, &vec![2, 3]).unwrap();
    assert_eq!(out, vec![1, 2, 0, 0, 0, 2, 3]);
    assert!(same_bytes(&out, &[1, 2, 0, 0, 0, 2, 3]));
    assert!(!same_bytes(&out, &[1]));
    assert!(!same_bytes(&[1, 2], &[1, 3]));
}

#[test]
fn big_endian_numbers() {
    let mut out = Vec::new();
    put_be(&mut out, 0x0102030405060708, 8);
    assert_eq!(out, vec![1, 2, 3, 4, 5, 6, 7, 8]);
    assert_eq!(read_be(&out), 0x0102030405060708);
    let mut short = Vec::new();
    put_be(&mut short, 258, 4);
    assert_eq!(short, vec![0, 0, 1, 2]);
    assert_eq!(read_be(&[]), 0);
    assert_eq!(read_be(&[255; 8]), u64::MAX as u128);
    assert_eq!(read_be(&[255; 16]), u128::MAX);
}
