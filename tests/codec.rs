use ark_ff::{BigInteger, PrimeField};
use grapevine::circom::GrapevineFCircuit;
use grapevine::errors::GrapevineError;
use grapevine::field::{
    deserialize_phrase, deserialize_username, random_f_bigint, serialize_phrase,
    serialize_username, FieldElement,
};
use grapevine::wrapper::{CircomWrapper, Integer};

fn modulus_bytes() -> Vec<u8> {
    ark_pallas::Fr::MODULUS.to_bytes_be()
}

#[test]
fn phrase_chunks_are_31_bytes_after_a_zero_byte() {
    let chunks = serialize_phrase(&String::from("This is a secret")).unwrap();
    assert_eq!(chunks.len(), 6);
    let mut first = vec![0u8];
    first.extend_from_slice(b"This is a secret");
    first.resize(32, 0);
    assert_eq!(chunks[0].to_bytes_be(), first);
    for c in &chunks[1..] {
        assert_eq!(c.to_bytes_be(), vec![0u8; 32]);
    }
}

#[test]
fn phrase_spanning_two_chunks() {
    let phrase: String = "a".repeat(31) + "bc";
    let chunks = serialize_phrase(&phrase).unwrap();
    let mut first = vec![0u8];
    first.extend_from_slice(&[b'a'; 31]);
    assert_eq!(chunks[0].to_bytes_be(), first);
    let mut second = vec![0u8, b'b', b'c'];
    second.resize(32, 0);
    assert_eq!(chunks[1].to_bytes_be(), second);
    assert_eq!(chunks[2].to_bytes_be(), vec![0u8; 32]);
}

#[test]
fn phrase_length_limit() {
    assert!(serialize_phrase(&"x".repeat(180)).is_ok());
    assert_eq!(serialize_phrase(&"x".repeat(181)).unwrap_err(), GrapevineError::LengthExceeded);
    // the limit counts bytes, not characters
    assert_eq!(serialize_phrase(&"é".repeat(91)).unwrap_err(), GrapevineError::LengthExceeded);
}

#[test]
fn phrase_round_trip() {
    for phrase in ["", "This is a secret", &"z".repeat(180), &"ab".repeat(40), "héllo wörld"] {
        let chunks = serialize_phrase(&phrase.to_string()).unwrap();
        assert_eq!(deserialize_phrase(&chunks), phrase.as_bytes().to_vec());
    }
}

#[test]
fn empty_phrase_is_all_zero() {
    let chunks = serialize_phrase(&String::new()).unwrap();
    for c in &chunks {
        assert!(c.equals(&FieldElement::zero()));
    }
}

#[test]
fn username_encoding_and_round_trip() {
    let f = serialize_username(&String::from("alice")).unwrap();
    let mut expected = vec![0u8; 27];
    expected.extend_from_slice(b"alice");
    assert_eq!(f.to_bytes_be(), expected);
    // the element's value is the name read as a big-endian integer
    let one = serialize_username(&String::from("A")).unwrap();
    assert!(one.equals(&FieldElement::from_bytes_be(&vec![b'A']).unwrap()));
    for name in ["alice", "bob", "", &"q".repeat(30)] {
        let f = serialize_username(&name.to_string()).unwrap();
        assert_eq!(deserialize_username(&f), name.as_bytes().to_vec());
    }
}

#[test]
fn username_length_limit() {
    assert!(serialize_username(&"u".repeat(30)).is_ok());
    assert_eq!(serialize_username(&"u".repeat(31)).unwrap_err(), GrapevineError::LengthExceeded);
}

#[test]
fn modulus_boundary() {
    let m = modulus_bytes();
    assert!(FieldElement::from_bytes_be(&m).is_none());
    let mut below = m.clone();
    *below.last_mut().unwrap() -= 1;
    let f = FieldElement::from_bytes_be(&below).unwrap();
    assert_eq!(f.to_bytes_be(), below);
    assert!(FieldElement::from_bytes_be(&vec![0xff; 32]).is_none());
}

#[test]
fn short_and_long_byte_strings_are_normalised() {
    let f = FieldElement::from_bytes_be(&vec![3]).unwrap();
    let mut expected = vec![0u8; 31];
    expected.push(3);
    assert_eq!(f.to_bytes_be(), expected);
    let mut long = vec![0u8; 40];
    long[39] = 7;
    let g = FieldElement::from_bytes_be(&long).unwrap();
    assert_eq!(g.to_bytes_be()[31], 7);
    assert_eq!(g.to_bytes_be().len(), 32);
}

#[test]
fn random_elements_differ_and_lie_in_the_field() {
    let a = random_f_bigint();
    let b = random_f_bigint();
    assert!(!a.equals(&b));
    assert_eq!(a.to_bytes_be().len(), 32);
    assert!(FieldElement::from_bytes_be(&a.to_bytes_be()).is_some());
    // agrees with the field's own reduction
    let fr = ark_pallas::Fr::from_be_bytes_mod_order(&a.to_bytes_be());
    assert_eq!(fr.into_bigint().to_bytes_be(), a.to_bytes_be());
}

#[test]
fn integer_conversions() {
    let f = FieldElement::from_bytes_be(&vec![1, 2, 3]).unwrap();
    let i = CircomWrapper::ark_primefield_to_num_bigint(&f);
    assert!(!i.negative);
    let back = CircomWrapper::num_bigint_to_ark_bigint(&i).unwrap();
    assert!(back.equals(&f));

    let neg = Integer { negative: true, magnitude: vec![5] };
    assert_eq!(CircomWrapper::num_bigint_to_ark_bigint(&neg).unwrap_err(), GrapevineError::NegativeValue);
    let neg_zero = Integer { negative: true, magnitude: vec![0, 0] };
    assert!(CircomWrapper::num_bigint_to_ark_bigint(&neg_zero).unwrap().equals(&FieldElement::zero()));
    let big = Integer { negative: false, magnitude: modulus_bytes() };
    assert_eq!(CircomWrapper::num_bigint_to_ark_bigint(&big).unwrap_err(), GrapevineError::NotInField);
    let huge = Integer { negative: false, magnitude: vec![1; 33] };
    assert_eq!(CircomWrapper::num_bigint_to_ark_bigint(&huge).unwrap_err(), GrapevineError::NotInField);
}

#[test]
fn extract_witness_fails_on_first_bad_value() {
    let ok = vec![Integer { negative: false, magnitude: vec![9] }];
    assert_eq!(CircomWrapper::extract_witness(&ok).unwrap().len(), 1);
    let bad = vec![
        Integer { negative: false, magnitude: vec![9] },
        Integer { negative: true, magnitude: vec![1] },
    ];
    assert_eq!(CircomWrapper::extract_witness(&bad).unwrap_err(), GrapevineError::NegativeValue);
}

#[test]
fn error_messages_are_not_empty() {
    assert_eq!(GrapevineError::PrivateInputNotSet.message(), "No private input provided to F circuit!");
    assert_eq!(GrapevineError::Unsatisfiable.message(), "Constraint system is unsatisfiable");
    assert_eq!(GrapevineError::LengthExceeded.message(), "Phrase must be <= 180 bytes and usernames <= 30 bytes");
    let _ = GrapevineFCircuit::new(String::from("a.r1cs"), String::from("a.wasm"));
}
