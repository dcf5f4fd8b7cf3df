use chain_store::commitment::{Commitment, CommitmentKey, Open, Validity};
use chain_store::gang::{GroupElement, Scalar, GROUP_ORDER};

fn key(h: u64) -> CommitmentKey {
    CommitmentKey { h: GroupElement::new(h) }
}

#[test]
fn verify_accepts_the_matching_open() {
    let ck = key(12345);
    let o = Open::new(Scalar::new(42), Scalar::new(99));
    let c = Commitment::new_open(&ck, &o);
    assert_eq!(c.verify(&ck, &o), Validity::Valid);
}

#[test]
fn verify_rejects_a_wrong_open() {
    let ck = key(12345);
    let o = Open::new(Scalar::new(42), Scalar::new(99));
    let c = Commitment::new_open(&ck, &o);
    let wrong_message = Open::new(Scalar::new(43), Scalar::new(99));
    let wrong_blinding = Open::new(Scalar::new(42), Scalar::new(98));
    assert_eq!(c.verify(&ck, &wrong_message), Validity::Invalid);
    assert_eq!(c.verify(&ck, &wrong_blinding), Validity::Invalid);
}

#[test]
fn commitment_value_is_message_plus_key_times_blinding() {
    let ck = key(7);
    let c = Commitment::new(&ck, &Scalar::new(100), &Scalar::new(3));
    // 100 + 7 * 3 = 121, far below the order
    assert_eq!(c.to_bytes(), 121u64.to_le_bytes().to_vec());
}

#[test]
fn bytes_round_trip() {
    let ck = key(987654321);
    let c = Commitment::new(&ck, &Scalar::new(31337), &Scalar::new(271828));
    let bytes = c.to_bytes();
    assert_eq!(bytes.len(), 8);
    let back = Commitment::from_bytes(&bytes).unwrap();
    assert!(back == c);
}

#[test]
fn from_bytes_rejects_bad_input() {
    assert!(Commitment::from_bytes(&[1, 2, 3]).is_none());
    assert!(Commitment::from_bytes(&[0; 9]).is_none());
    // u64::MAX is far above the group order
    assert!(Commitment::from_bytes(&u64::MAX.to_le_bytes()).is_none());
    // the order itself is out of range, the value below it is in range
    assert!(Commitment::from_bytes(&GROUP_ORDER.to_le_bytes()).is_none());
    assert!(Commitment::from_bytes(&(GROUP_ORDER - 1).to_le_bytes()).is_some());
}

#[test]
fn commitments_add_homomorphically() {
    let ck = key(555);
    let a = Commitment::new(&ck, &Scalar::new(10), &Scalar::new(20));
    let b = Commitment::new(&ck, &Scalar::new(30), &Scalar::new(40));
    let sum = a.add(&b);
    let direct = Commitment::new(&ck, &Scalar::new(40), &Scalar::new(60));
    assert!(sum == direct);
}

#[test]
fn scaling_a_commitment_scales_the_opening() {
    let ck = key(555);
    let a = Commitment::new(&ck, &Scalar::new(10), &Scalar::new(20));
    let scaled = a.mul(&Scalar::new(5));
    let direct = Commitment::new(&ck, &Scalar::new(50), &Scalar::new(100));
    assert!(scaled == direct);
}
