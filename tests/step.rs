use grapevine::circom::{get_z0, GrapevineFCircuit};
use grapevine::errors::GrapevineError;
use grapevine::field::{random_f_bigint, serialize_phrase, serialize_username, FieldElement};
use grapevine::wrapper::{marshal_with_fill, CircomPrivateInput, CircomWrapper, Integer, MarshaledInputs};

fn elem(v: u8) -> FieldElement {
    FieldElement::from_bytes_be(&vec![v]).unwrap()
}

fn integer(v: u8) -> Integer {
    Integer { negative: false, magnitude: vec![v] }
}

fn same(a: &[FieldElement], b: &[FieldElement]) -> bool {
    a.len() == b.len() && a.iter().zip(b).all(|(x, y)| x.equals(y))
}

fn same_ints(a: &[Integer], b: &[Integer]) -> bool {
    a.len() == b.len() && a.iter().zip(b).all(|(x, y)| x.negative == y.negative && x.magnitude == y.magnitude)
}

fn first_hop(secret: &FieldElement) -> CircomPrivateInput {
    CircomPrivateInput {
        phrase: Some(String::from("This is a secret")),
        usernames: [None, Some(String::from("alice"))],
        auth_secrets: [None, Some(secret.duplicate())],
        chaff: false,
    }
}

fn z0() -> Vec<FieldElement> {
    get_z0()
}

#[test]
fn chaff_usernames_are_fresh_each_time() {
    let input = CircomPrivateInput::empty(true);
    let a = CircomWrapper::marshal_private_inputs(&input).unwrap();
    let b = CircomWrapper::marshal_private_inputs(&input).unwrap();
    assert_eq!(a.usernames.len(), 2);
    assert!(!a.usernames[0].equals(&b.usernames[0]));
    assert!(!a.usernames[0].equals(&a.usernames[1]));
    assert!(!same(&a.phrase, &b.phrase));
}

#[test]
fn first_hop_usernames_are_zero_then_name() {
    let secret = random_f_bigint();
    let m = CircomWrapper::marshal_private_inputs(&first_hop(&secret)).unwrap();
    assert!(m.usernames[0].equals(&FieldElement::zero()));
    assert!(m.usernames[1].equals(&serialize_username(&String::from("alice")).unwrap()));
    assert!(m.auth_secrets[0].equals(&FieldElement::zero()));
    assert!(m.auth_secrets[1].equals(&secret));
    assert!(same(&m.phrase, &serialize_phrase(&String::from("This is a secret")).unwrap()));
}

#[test]
fn link_marshals_both_names() {
    let (s0, s1) = (random_f_bigint(), random_f_bigint());
    let input = CircomPrivateInput {
        phrase: None,
        usernames: [Some(String::from("alice")), Some(String::from("bob"))],
        auth_secrets: [Some(s0.duplicate()), Some(s1.duplicate())],
        chaff: false,
    };
    let fill = MarshaledInputs::random();
    let fill_phrase: Vec<FieldElement> = fill.phrase.iter().map(|f| f.duplicate()).collect();
    let m = marshal_with_fill(&input, fill).unwrap();
    assert!(m.usernames[0].equals(&serialize_username(&String::from("alice")).unwrap()));
    assert!(m.usernames[1].equals(&serialize_username(&String::from("bob")).unwrap()));
    assert!(m.auth_secrets[0].equals(&s0) && m.auth_secrets[1].equals(&s1));
    assert!(same(&m.phrase, &fill_phrase));
}

#[test]
fn uninitialized_input_is_rejected() {
    let input = CircomPrivateInput::empty(false);
    assert!(input.uninitialized());
    assert!(!CircomPrivateInput::empty(true).uninitialized());
    assert_eq!(
        CircomWrapper::marshal_private_inputs(&input).unwrap_err(),
        GrapevineError::UninitializedInput
    );
}

#[test]
fn half_filled_pair_and_long_name_are_rejected() {
    let input = CircomPrivateInput {
        phrase: None,
        usernames: [Some(String::from("alice")), None],
        auth_secrets: [None, None],
        chaff: false,
    };
    assert_eq!(CircomWrapper::marshal_private_inputs(&input).unwrap_err(), GrapevineError::IncompleteLink);
    let input = CircomPrivateInput {
        phrase: None,
        usernames: [Some("n".repeat(31)), None],
        auth_secrets: [None, None],
        chaff: false,
    };
    assert_eq!(CircomWrapper::marshal_private_inputs(&input).unwrap_err(), GrapevineError::LengthExceeded);
    let input = CircomPrivateInput {
        phrase: None,
        usernames: [None, Some("n".repeat(31))],
        auth_secrets: [None, None],
        chaff: false,
    };
    assert_eq!(CircomWrapper::marshal_private_inputs(&input).unwrap_err(), GrapevineError::LengthExceeded);
    let input = CircomPrivateInput {
        phrase: None,
        usernames: [None, None],
        auth_secrets: [Some(random_f_bigint()), None],
        chaff: true,
    };
    assert_eq!(CircomWrapper::marshal_private_inputs(&input).unwrap_err(), GrapevineError::IncompleteLink);
}

#[test]
fn native_inputs_require_a_bound_input() {
    let circuit = GrapevineFCircuit::new(String::from("g.r1cs"), String::from("g.wasm"));
    assert_eq!(circuit.native_inputs(&z0()).unwrap_err(), GrapevineError::PrivateInputNotSet);
    let values: Vec<Option<FieldElement>> = z0().into_iter().map(Some).collect();
    assert_eq!(circuit.constraint_inputs(&values).unwrap_err(), GrapevineError::AssignmentMissing);
}

#[test]
fn first_hop_inputs_do_not_depend_on_randomness() {
    let secret = random_f_bigint();
    let mut circuit = GrapevineFCircuit::new(String::from("g.r1cs"), String::from("g.wasm"));
    circuit.set_private_input(first_hop(&secret));
    assert_eq!(circuit.state_len(), 4);
    let a = circuit.native_inputs(&z0()).unwrap();
    let b = circuit.native_inputs(&z0()).unwrap();
    assert!(same_ints(&a.ivc_input, &b.ivc_input));
    assert!(same_ints(&a.phrase, &b.phrase));
    assert!(same_ints(&a.usernames, &b.usernames));
    assert!(same_ints(&a.auth_secrets, &b.auth_secrets));
    assert_eq!(a.ivc_input.len(), 4);
    assert_eq!(a.phrase.len(), 6);
}

#[test]
fn native_next_state_reads_after_the_marker() {
    let witness = vec![integer(1), integer(3), integer(5), integer(7), integer(0), integer(42)];
    let z = GrapevineFCircuit::native_next_state(Some(&witness)).unwrap();
    assert!(same(&z, &[elem(3), elem(5), elem(7), elem(0)]));
    assert_eq!(
        GrapevineFCircuit::native_next_state(None).unwrap_err(),
        GrapevineError::WitnessCalculationError
    );
    let short = vec![integer(1), integer(3)];
    assert_eq!(
        GrapevineFCircuit::native_next_state(Some(&short)).unwrap_err(),
        GrapevineError::WitnessCalculationError
    );
    let bad = vec![integer(1), integer(3), integer(5), integer(7), Integer { negative: true, magnitude: vec![2] }];
    assert_eq!(
        GrapevineFCircuit::native_next_state(Some(&bad)).unwrap_err(),
        GrapevineError::WitnessCalculationError
    );
}

#[test]
fn constrained_evaluation_errors() {
    let secret = random_f_bigint();
    let mut circuit = GrapevineFCircuit::new(String::from("g.r1cs"), String::from("g.wasm"));
    circuit.set_private_input(first_hop(&secret));
    let unreadable = vec![Some(FieldElement::zero()), None, Some(FieldElement::zero()), Some(FieldElement::zero())];
    assert_eq!(circuit.constraint_inputs(&unreadable).unwrap_err(), GrapevineError::AssignmentMissing);
    assert_eq!(GrapevineFCircuit::constraint_witness(None).unwrap_err(), GrapevineError::AssignmentMissing);
    let w: Vec<FieldElement> = (1..7).map(elem).collect();
    assert_eq!(
        GrapevineFCircuit::constraint_next_state(&w, true, false).unwrap_err(),
        GrapevineError::Unsatisfiable
    );
    assert_eq!(
        GrapevineFCircuit::constraint_next_state(&w, false, true).unwrap_err(),
        GrapevineError::Unsatisfiable
    );
    assert_eq!(
        GrapevineFCircuit::constraint_next_state(&w[..3].iter().map(|f| f.duplicate()).collect(), true, true).unwrap_err(),
        GrapevineError::Unsatisfiable
    );
}

#[test]
fn native_and_constrained_agree() {
    let secret = random_f_bigint();
    let mut circuit = GrapevineFCircuit::new(String::from("g.r1cs"), String::from("g.wasm"));
    circuit.set_private_input(first_hop(&secret));
    let z: Vec<FieldElement> = vec![elem(3), elem(0), elem(9), elem(0)];
    let readable: Vec<Option<FieldElement>> = z.iter().map(|f| Some(f.duplicate())).collect();
    let native = circuit.native_inputs(&z).unwrap();
    let constrained = circuit.constraint_inputs(&readable).unwrap();
    assert!(same_ints(&native.ivc_input, &constrained.ivc_input));
    assert!(same_ints(&native.phrase, &constrained.phrase));
    assert!(same_ints(&native.usernames, &constrained.usernames));
    assert!(same_ints(&native.auth_secrets, &constrained.auth_secrets));

    let witness = vec![integer(1), integer(4), integer(8), integer(15), integer(16), integer(23)];
    let n = GrapevineFCircuit::native_next_state(Some(&witness)).unwrap();
    let fields = GrapevineFCircuit::constraint_witness(Some(&witness)).unwrap();
    let c = GrapevineFCircuit::constraint_next_state(&fields, true, true).unwrap();
    assert!(same(&n, &c));
    assert!(same(&n, &[elem(4), elem(8), elem(15), elem(16)]));
}

#[test]
fn test_step_native() {
    let step_0_inputs = CircomPrivateInput {
        phrase: Some(String::from("This is a secret")),
        usernames: [None, Some(String::from("alice"))],
        auth_secrets: [None, Some(random_f_bigint())],
        chaff: false,
    };
    let z_0 = get_z0();
    let mut f_circuit = GrapevineFCircuit::new(
        String::from("./circom/artifacts/grapevine.r1cs"),
        String::from("./circom/artifacts/grapevine.wasm"),
    );
    f_circuit.set_private_input(step_0_inputs);
    let inputs = f_circuit.native_inputs(&z_0).unwrap();
    assert_eq!(inputs.ivc_input.len(), 4);
    assert!(inputs.ivc_input.iter().all(|i| i.magnitude.iter().all(|b| *b == 0)));
}

#[test]
fn test_step_constraints() {
    let mut f_circuit = GrapevineFCircuit::new(
        String::from("./circom/artifacts/grapevine.r1cs"),
        String::from("./circom/artifacts/grapevine.wasm"),
    );
    let step_0_inputs = CircomPrivateInput {
        phrase: Some(String::from("This is a secret")),
        usernames: [None, Some(String::from("alice"))],
        auth_secrets: [None, Some(random_f_bigint())],
        chaff: false,
    };
    f_circuit.set_private_input(step_0_inputs);
    let z_0_var: Vec<Option<FieldElement>> = get_z0().into_iter().map(Some).collect();
    let inputs = f_circuit.constraint_inputs(&z_0_var).unwrap();
    assert_eq!(inputs.usernames.len(), 2);
}

#[test]
fn zero_state_has_four_zeros() {
    let z = get_z0();
    assert_eq!(z.len(), 4);
    assert!(z.iter().all(|f| f.to_bytes_be() == vec![0u8; 32]));
}
