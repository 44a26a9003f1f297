use prover::artifact::Proof;
use prover::error::ProverError;
use prover::hex::push_hex;

fn sample() -> Proof {
    Proof { proof: vec![0, 1, 0xab, 255], vk: vec![7] }
}

#[test]
fn text_form_is_exact() {
    let bytes = sample().to_json();
    assert_eq!(bytes, br#"{"proof":"0001abff","vk":"07"}"#.to_vec());
}

#[test]
fn round_trip_keeps_fields() {
    let a = sample();
    let b = Proof::from_json(&a.to_json()).unwrap();
    assert_eq!(b.proof, a.proof);
    assert_eq!(b.vk, a.vk);
}

#[test]
fn round_trip_of_empty_fields() {
    let a = Proof { proof: vec![], vk: vec![] };
    let bytes = a.to_json();
    assert_eq!(bytes, br#"{"proof":"","vk":""}"#.to_vec());
    let b = Proof::from_json(&bytes).unwrap();
    assert!(b.proof.is_empty() && b.vk.is_empty());
}

#[test]
fn round_trip_of_every_byte() {
    let all: Vec<u8> = (0..=255u8).collect();
    let a = Proof { proof: all.clone(), vk: all.iter().rev().cloned().collect() };
    let b = Proof::from_json(&a.to_json()).unwrap();
    assert_eq!(b.proof, a.proof);
    assert_eq!(b.vk, a.vk);
}

#[test]
fn garbage_is_rejected() {
    let r = Proof::from_json(b"not a proof at all");
    assert!(matches!(r, Err(ProverError::Deserialization)));
}

#[test]
fn truncated_text_is_rejected() {
    let bytes = sample().to_json();
    for cut in 0..bytes.len() {
        let r = Proof::from_json(&bytes[..cut]);
        assert!(matches!(r, Err(ProverError::Deserialization)), "cut at {}", cut);
    }
}

#[test]
fn trailing_bytes_are_rejected() {
    let mut bytes = sample().to_json();
    bytes.push(b' ');
    assert!(matches!(Proof::from_json(&bytes), Err(ProverError::Deserialization)));
}

#[test]
fn uppercase_or_odd_hex_is_rejected() {
    assert!(Proof::from_json(br#"{"proof":"AB","vk":"07"}"#).is_err());
    assert!(Proof::from_json(br#"{"proof":"abc","vk":"07"}"#).is_err());
    assert!(Proof::from_json(br#"{"proof":"ab","vk":"0g"}"#).is_err());
}

#[test]
fn from_snark_assembles() {
    let p = Proof::from_snark(vec![1, 2], vec![3]).unwrap();
    assert_eq!(p.proof, vec![1, 2]);
    assert_eq!(p.vk, vec![3]);
}

#[test]
fn from_snark_rejects_empty_parts() {
    assert!(matches!(Proof::from_snark(vec![], vec![3]), Err(ProverError::Assembly)));
    assert!(matches!(Proof::from_snark(vec![1], vec![]), Err(ProverError::Assembly)));
}

#[test]
fn hex_appends_digits() {
    let mut out = b"x".to_vec();
    push_hex(&mut out, &[0x0f, 0xa0]);
    assert_eq!(out, b"x0fa0".to_vec());
}
