use helloween::crypto::{digest, digest_bytes, Packet, Signature, Signer, Verifier};
use helloween::error::Error;
use helloween::pbft::{Prepare, Request};

fn unhex(text: &str) -> Vec<u8> {
    (0..text.len() / 2).map(|i| u8::from_str_radix(&text[2 * i..2 * i + 2], 16).unwrap()).collect()
}

fn signer(last: u8) -> Signer {
    let mut secret = [0u8; 32];
    secret[31] = last;
    Signer::from_slice(&secret).unwrap()
}

fn prepare() -> Prepare {
    Prepare { view_num: 1, op_num: 2, digest: [3; 32], replica_id: 4 }
}

#[test]
fn digest_is_sha256() {
    let expected = unhex("ba7816bf8f01cfea414140de5dae2223b00361a396177a9cb410ff61f20015ad");
    assert_eq!(digest_bytes(b"abc").to_vec(), expected);
}

#[test]
fn digest_covers_the_encoding() {
    let request = Request { client_id: 0, request_num: 0, op: vec![] };
    assert_eq!(digest(&request).unwrap(), digest_bytes(&[0; 12]));
}

#[test]
fn secret_keys_are_in_range() {
    assert_eq!(Signer::from_slice(&[0; 32]), Err(Error::SecretKey));
    assert_eq!(Signer::from_slice(&[255; 32]), Err(Error::SecretKey));
    assert_eq!(Signer::from_slice(&[1; 31]), Err(Error::SecretKey));
    let order = unhex("fffffffffffffffffffffffffffffffebaaedce6af48a03bbfd25e8cd0364141");
    assert_eq!(Signer::from_slice(&order), Err(Error::SecretKey));
    assert!(Signer::from_slice(&[1; 32]).is_ok());
}

#[test]
fn public_key_of_one_is_the_generator() {
    let key = Verifier::from_signer(&signer(1));
    let expected = unhex("0279be667ef9dcbbac55a06295ce870b07029bfcdb2dce28d959f2815b16f81798");
    assert_eq!(key.serialize().to_vec(), expected);
    assert_eq!(Verifier::from_slice(&expected), Ok(key));
}

#[test]
fn uncompressed_public_key_is_the_same_key() {
    let long = unhex(
        "0479be667ef9dcbbac55a06295ce870b07029bfcdb2dce28d959f2815b16f81798483ada7726a3c4655da4fbfc0e1108a8fd17b448a68554199c47d08ffb10d4b8",
    );
    assert_eq!(Verifier::from_slice(&long), Ok(Verifier::from_signer(&signer(1))));
    assert_eq!(Verifier::from_slice(&[0; 33]), Err(Error::PublicKey));
    assert_eq!(Verifier::from_slice(&[]), Err(Error::PublicKey));
}

#[test]
fn signed_message_is_verified_once() {
    let signed = signer(1).serialize_sign(prepare()).unwrap();
    assert!(signed.verified);
    let mut received = signed.packet().deserialize::<Prepare>().unwrap();
    assert!(!received.verified);
    assert_eq!(received.inner, prepare());
    Verifier::from_signer(&signer(1)).verify(&mut received).unwrap();
    assert!(received.verified);
    // the outcome is remembered, whatever the key
    assert_eq!(Verifier::from_signer(&signer(2)).verify(&mut received), Ok(()));
}

#[test]
fn wrong_key_is_refused() {
    let signed = signer(1).serialize_sign(prepare()).unwrap();
    let mut received = signed.packet().deserialize::<Prepare>().unwrap();
    assert_eq!(
        Verifier::from_signer(&signer(2)).verify(&mut received),
        Err(Error::Signature)
    );
    assert!(!received.verified);
}

#[test]
fn changed_bytes_are_refused() {
    let signed = signer(1).serialize_sign(prepare()).unwrap();
    let mut packet = signed.packet();
    packet.inner[0] ^= 1;
    let mut received = packet.deserialize::<Prepare>().unwrap();
    assert_eq!(
        Verifier::from_signer(&signer(1)).verify(&mut received),
        Err(Error::Signature)
    );
}

#[test]
fn signature_is_deterministic() {
    let a = signer(1).serialize_sign(prepare()).unwrap();
    let b = signer(1).serialize_sign(prepare()).unwrap();
    assert_eq!(a.signature, b.signature);
    let c = signer(2).serialize_sign(prepare()).unwrap();
    assert_ne!(a.signature, c.signature);
}

#[test]
fn packet_takes_all_bytes() {
    let packet = Packet { signature: Signature([1; 64]), inner: vec![2, 3] };
    let mut bytes = Vec::new();
    packet.serialize(&mut bytes);
    assert_eq!(bytes.len(), 66);
    assert_eq!(Packet::deserialize_reader(&bytes).unwrap(), packet);
    assert_eq!(Packet::deserialize_reader(&bytes[..63]), Err(Error::Decoding));
    assert_eq!(
        Packet::deserialize_reader(&bytes[..64]).unwrap().inner,
        Vec::<u8>::new()
    );
}

#[test]
fn packet_with_other_contents_is_refused() {
    let packet = Packet { signature: Signature([0; 64]), inner: vec![1, 2] };
    assert!(matches!(packet.deserialize::<Prepare>(), Err(Error::Decoding)));
}

#[test]
fn known_keys_are_padded_names() {
    let mut secret = [0u8; 32];
    secret[..11].copy_from_slice(b"hardcoded-7");
    assert_eq!(Signer::from_slice(&secret), Ok(Signer::new_hardcoded(7)));
    assert_eq!(Verifier::new_hardcoded(7), Verifier::from_signer(&Signer::new_hardcoded(7)));
    assert_ne!(Verifier::new_hardcoded(7), Verifier::new_hardcoded(8));
}
