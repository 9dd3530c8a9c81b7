use vstd::prelude::*;

use crate::errors::GrapevineError;
use crate::field::{
    all_wf, be_value, chunk_bytes, lemma_be_zero, modulus, phrase_chunks, random_f_bigint,
    serialize_phrase, serialize_username, text_bytes, username_chunk, FieldElement,
    MAX_SECRET_LENGTH, MAX_USERNAME_LENGTH,
};

verus! {

/// An arbitrary-precision integer: a sign and a big-endian magnitude.
#[derive(Debug)]
pub struct Integer {
    pub negative: bool,
    pub magnitude: Vec<u8>,
}

impl Integer {
    /// The integer's value.
    pub open spec fn value(&self) -> int {
        if self.negative {
            -(be_value(self.magnitude@) as int)
        } else {
            be_value(self.magnitude@) as int
        }
    }
}

/// The values of a sequence of integers.
pub open spec fn int_values(s: Seq<Integer>) -> Seq<int> {
    Seq::new(s.len(), |i: int| s[i].value())
}

/// Every integer of the sequence names an element of the field.
pub open spec fn witness_in_field(w: Seq<Integer>) -> bool {
    forall|j: int| 0 <= j < w.len() ==> 0 <= #[trigger] w[j].value() < modulus()
}

/// The private data of one step: a phrase, two username slots, two secret
/// slots, and whether the step is deliberately chaff.
#[derive(Debug)]
pub struct CircomPrivateInput {
    pub phrase: Option<String>,
    pub usernames: [Option<String>; 2],
    pub auth_secrets: [Option<FieldElement>; 2],
    pub chaff: bool,
}

impl CircomPrivateInput {
    /// No data at all, and chaff is false: the caller forgot to fill the input.
    pub open spec fn spec_uninitialized(&self) -> bool {
        &&& self.phrase is None
        &&& self.usernames@[0] is None
        &&& self.usernames@[1] is None
        &&& self.auth_secrets@[0] is None
        &&& self.auth_secrets@[1] is None
        &&& !self.chaff
    }

    /// Each secret that is present is a well-formed field element.
    pub open spec fn secrets_wf(&self) -> bool {
        &&& (self.auth_secrets@[0] matches Some(s) ==> s.wf())
        &&& (self.auth_secrets@[1] matches Some(s) ==> s.wf())
    }

    /// An input without data; with `chaff` set it stands for a chaff step.
    pub fn empty(chaff: bool) -> (r: CircomPrivateInput)
        ensures
            r.phrase is None,
            r.usernames@[0] is None,
            r.usernames@[1] is None,
            r.auth_secrets@[0] is None,
            r.auth_secrets@[1] is None,
            r.chaff == chaff,
    {
        CircomPrivateInput {
            phrase: None,
            usernames: [None, None],
            auth_secrets: [None, None],
            chaff,
        }
    }

    /// Whether the input is uninitialized: no data at all and not chaff.
    pub fn uninitialized(&self) -> (r: bool)
        ensures
            r == self.spec_uninitialized(),
    {
        let not_chaff = self.phrase.is_none() && self.usernames[0].is_none()
            && self.usernames[1].is_none() && self.auth_secrets[0].is_none()
            && self.auth_secrets[1].is_none();
        not_chaff && !self.chaff
    }
}

/// The three named vectors that a step hands to the circuit, as byte strings.
pub ghost struct MarshaledView {
    pub phrase: Seq<Seq<u8>>,
    pub usernames: Seq<Seq<u8>>,
    pub auth_secrets: Seq<Seq<u8>>,
}

/// A byte string that is the representation of a field element.
pub open spec fn element_bytes(c: Seq<u8>) -> bool {
    c.len() == 32 && be_value(c) < modulus()
}

impl MarshaledView {
    /// Six phrase elements, two usernames and two secrets, each an element of the field.
    pub open spec fn wf(&self) -> bool {
        &&& self.phrase.len() == 6
        &&& self.usernames.len() == 2
        &&& self.auth_secrets.len() == 2
        &&& forall|i: int| 0 <= i < 6 ==> element_bytes(#[trigger] self.phrase[i])
        &&& forall|i: int| 0 <= i < 2 ==> element_bytes(#[trigger] self.usernames[i])
        &&& forall|i: int| 0 <= i < 2 ==> element_bytes(#[trigger] self.auth_secrets[i])
    }
}

/// The circuit's private inputs: `phrase` (6 elements), `usernames` (2) and
/// `auth_secrets` (2). A value of this type drawn at random also serves as
/// the filler for slots that carry no real data.
#[derive(Debug)]
pub struct MarshaledInputs {
    pub phrase: Vec<FieldElement>,
    pub usernames: Vec<FieldElement>,
    pub auth_secrets: Vec<FieldElement>,
}

impl View for MarshaledInputs {
    type V = MarshaledView;

    open spec fn view(&self) -> MarshaledView {
        MarshaledView {
            phrase: chunk_bytes(self.phrase@),
            usernames: chunk_bytes(self.usernames@),
            auth_secrets: chunk_bytes(self.auth_secrets@),
        }
    }
}

impl MarshaledInputs {
    /// The right lengths, and every element well formed.
    pub open spec fn wf(&self) -> bool {
        &&& self.phrase@.len() == 6
        &&& self.usernames@.len() == 2
        &&& self.auth_secrets@.len() == 2
        &&& all_wf(self.phrase@)
        &&& all_wf(self.usernames@)
        &&& all_wf(self.auth_secrets@)
    }

    /// Ten independent random elements, in the shape of marshaled inputs.
    pub fn random() -> (r: MarshaledInputs)
        ensures
            r.wf(),
    {
        let phrase = random_elements(6);
        let usernames = random_elements(2);
        let auth_secrets = random_elements(2);
        MarshaledInputs { phrase, usernames, auth_secrets }
    }
}

/// Well-formed marshaled inputs have a well-formed view.
pub proof fn lemma_view_wf(m: &MarshaledInputs)
    requires
        m.wf(),
    ensures
        m@.wf(),
{
    assert forall|i: int| 0 <= i < 6 implies element_bytes(#[trigger] m@.phrase[i]) by {
        assert(m.phrase@[i].wf());
    }
    assert forall|i: int| 0 <= i < 2 implies element_bytes(#[trigger] m@.usernames[i]) by {
        assert(m.usernames@[i].wf());
    }
    assert forall|i: int| 0 <= i < 2 implies element_bytes(#[trigger] m@.auth_secrets[i]) by {
        assert(m.auth_secrets@[i].wf());
    }
}

/// `n` independent random field elements.
fn random_elements(n: usize) -> (r: Vec<FieldElement>)
    ensures
        r@.len() == n,
        all_wf(r@),
{
    let mut r: Vec<FieldElement> = Vec::new();
    let mut i: usize = 0;
    while i < n
        invariant
            i <= n,
            r@.len() == i,
            all_wf(r@),
        decreases n - i,
    {
        r.push(random_f_bigint());
        i += 1;
    }
    r
}

/// The zero element's representation.
pub open spec fn zero_chunk() -> Seq<u8> {
    Seq::new(32, |k: int| 0u8)
}

/// A username slot that holds more than 30 bytes.
pub open spec fn name_too_long(u: Option<String>) -> bool {
    u matches Some(s) && text_bytes(&s).len() > MAX_USERNAME_LENGTH
}

/// The username pair: `LengthExceeded` when a present name is too long;
/// else both encoded for a link, zero then the name for a first hop, the
/// filler when both are absent.
pub open spec fn spec_usernames(us: Seq<Option<String>>, fill: Seq<Seq<u8>>) -> Result<
    Seq<Seq<u8>>,
    GrapevineError,
> {
    if name_too_long(us[0]) || name_too_long(us[1]) {
        Err(GrapevineError::LengthExceeded)
    } else {
        match (us[0], us[1]) {
            (Some(a), Some(b)) => Ok(
                seq![username_chunk(text_bytes(&a)), username_chunk(text_bytes(&b))],
            ),
            (Some(_), None) => Err(GrapevineError::IncompleteLink),
            (None, Some(b)) => Ok(seq![zero_chunk(), username_chunk(text_bytes(&b))]),
            (None, None) => Ok(fill),
        }
    }
}

/// The secret pair, under the same policy as the usernames.
pub open spec fn spec_secrets(ss: Seq<Option<FieldElement>>, fill: Seq<Seq<u8>>) -> Result<
    Seq<Seq<u8>>,
    GrapevineError,
> {
    match (ss[0], ss[1]) {
        (Some(a), Some(b)) => Ok(seq![a.bytes@, b.bytes@]),
        (Some(_), None) => Err(GrapevineError::IncompleteLink),
        (None, Some(b)) => Ok(seq![zero_chunk(), b.bytes@]),
        (None, None) => Ok(fill),
    }
}

/// The marshaled inputs of a private input, with `fill` in the slots that
/// carry no real data.
pub open spec fn spec_marshal(input: CircomPrivateInput, fill: MarshaledView) -> Result<
    MarshaledView,
    GrapevineError,
> {
    if input.spec_uninitialized() {
        Err(GrapevineError::UninitializedInput)
    } else if input.phrase matches Some(p) && text_bytes(&p).len() > MAX_SECRET_LENGTH {
        Err(GrapevineError::LengthExceeded)
    } else {
        match spec_usernames(input.usernames@, fill.usernames) {
            Err(e) => Err(e),
            Ok(us) => match spec_secrets(input.auth_secrets@, fill.auth_secrets) {
                Err(e) => Err(e),
                Ok(ss) => Ok(
                    MarshaledView {
                        phrase: match input.phrase {
                            Some(p) => phrase_chunks(text_bytes(&p)),
                            None => fill.phrase,
                        },
                        usernames: us,
                        auth_secrets: ss,
                    },
                ),
            },
        }
    }
}

/// The view of a marshaling result.
pub open spec fn marshal_result_view(r: Result<MarshaledInputs, GrapevineError>) -> Result<
    MarshaledView,
    GrapevineError,
> {
    match r {
        Ok(m) => Ok(m@),
        Err(e) => Err(e),
    }
}

/// The zero element, then the given element: the pair of a first hop.
fn first_hop_pair(second: FieldElement) -> (r: Vec<FieldElement>)
    requires
        second.wf(),
    ensures
        r@.len() == 2,
        all_wf(r@),
        chunk_bytes(r@) == seq![zero_chunk(), second.bytes@],
{
    let zero = FieldElement::zero();
    proof {
        lemma_be_zero(zero.bytes@);
        assert(zero.bytes@ =~= zero_chunk());
    }
    let mut r: Vec<FieldElement> = Vec::new();
    r.push(zero);
    r.push(second);
    assert(chunk_bytes(r@) =~= seq![zero_chunk(), second.bytes@]);
    r
}

/// Two elements in order.
fn pair_of(first: FieldElement, second: FieldElement) -> (r: Vec<FieldElement>)
    requires
        first.wf(),
        second.wf(),
    ensures
        r@.len() == 2,
        all_wf(r@),
        chunk_bytes(r@) == seq![first.bytes@, second.bytes@],
{
    let mut r: Vec<FieldElement> = Vec::new();
    r.push(first);
    r.push(second);
    assert(chunk_bytes(r@) =~= seq![first.bytes@, second.bytes@]);
    r
}

/// Marshals the username slots, taking `fill` where both are absent.
fn marshal_usernames(us: &[Option<String>; 2], fill: Vec<FieldElement>) -> (r: Result<
    Vec<FieldElement>,
    GrapevineError,
>)
    requires
        fill@.len() == 2,
        all_wf(fill@),
    ensures
        r matches Ok(v) ==> v@.len() == 2 && all_wf(v@),
        match r {
            Ok(v) => spec_usernames(us@, chunk_bytes(fill@)) == Ok::<Seq<Seq<u8>>, GrapevineError>(chunk_bytes(v@)),
            Err(e) => spec_usernames(us@, chunk_bytes(fill@)) == Err::<Seq<Seq<u8>>, GrapevineError>(e),
        },
{
    match &us[0] {
        Some(a) => match serialize_username(a) {
            Err(e) => Err(e),
            Ok(ea) => match &us[1] {
                Some(b) => match serialize_username(b) {
                    Err(e) => Err(e),
                    Ok(eb) => Ok(pair_of(ea, eb)),
                },
                None => Err(GrapevineError::IncompleteLink),
            },
        },
        None => match &us[1] {
            Some(b) => match serialize_username(b) {
                Err(e) => Err(e),
                Ok(eb) => Ok(first_hop_pair(eb)),
            },
            None => Ok(fill),
        },
    }
}

/// Marshals the secret slots, taking `fill` where both are absent.
fn marshal_secrets(ss: &[Option<FieldElement>; 2], fill: Vec<FieldElement>) -> (r: Result<
    Vec<FieldElement>,
    GrapevineError,
>)
    requires
        fill@.len() == 2,
        all_wf(fill@),
        ss@[0] matches Some(s) ==> s.wf(),
        ss@[1] matches Some(s) ==> s.wf(),
    ensures
        r matches Ok(v) ==> v@.len() == 2 && all_wf(v@),
        match r {
            Ok(v) => spec_secrets(ss@, chunk_bytes(fill@)) == Ok::<Seq<Seq<u8>>, GrapevineError>(chunk_bytes(v@)),
            Err(e) => spec_secrets(ss@, chunk_bytes(fill@)) == Err::<Seq<Seq<u8>>, GrapevineError>(e),
        },
{
    match &ss[0] {
        Some(a) => match &ss[1] {
            Some(b) => Ok(pair_of(a.duplicate(), b.duplicate())),
            None => Err(GrapevineError::IncompleteLink),
        },
        None => match &ss[1] {
            Some(b) => Ok(first_hop_pair(b.duplicate())),
            None => Ok(fill),
        },
    }
}

/// Marshals a private input, with the elements of `fill` in every slot that
/// carries no real data: the phrase encoded or filled; each pair encoded for a
/// link, zero then the value for a first hop, filled when both are absent.
pub fn marshal_with_fill(inputs: &CircomPrivateInput, fill: MarshaledInputs) -> (r: Result<
    MarshaledInputs,
    GrapevineError,
>)
    requires
        inputs.secrets_wf(),
        fill.wf(),
    ensures
        marshal_result_view(r) == spec_marshal(*inputs, fill@),
        r matches Ok(m) ==> m.wf(),
{
    if inputs.uninitialized() {
        return Err(GrapevineError::UninitializedInput);
    }
    let MarshaledInputs { phrase: fill_phrase, usernames: fill_usernames, auth_secrets: fill_secrets } =
        fill;
    let phrase = match &inputs.phrase {
        Some(p) => match serialize_phrase(p) {
            Ok(cs) => cs,
            Err(e) => {
                return Err(e);
            },
        },
        None => fill_phrase,
    };
    let usernames = match marshal_usernames(&inputs.usernames, fill_usernames) {
        Ok(v) => v,
        Err(e) => {
            return Err(e);
        },
    };
    let auth_secrets = match marshal_secrets(&inputs.auth_secrets, fill_secrets) {
        Ok(v) => v,
        Err(e) => {
            return Err(e);
        },
    };
    Ok(MarshaledInputs { phrase, usernames, auth_secrets })
}

/// The circuit's executor: where its compiled description and its witness
/// generator are found.
#[derive(Debug)]
pub struct CircomWrapper {
    pub r1cs_path: String,
    pub wc_path: String,
}

impl CircomWrapper {
    /// A wrapper for the circuit at these two paths.
    pub fn new(r1cs_path: String, wc_path: String) -> (r: CircomWrapper)
        ensures
            r.r1cs_path@ == r1cs_path@,
            r.wc_path@ == wc_path@,
    {
        CircomWrapper { r1cs_path, wc_path }
    }

    /// Marshals a private input, with fresh random elements in every slot
    /// that carries no real data.
    pub fn marshal_private_inputs(inputs: &CircomPrivateInput) -> (r: Result<
        MarshaledInputs,
        GrapevineError,
    >)
        requires
            inputs.secrets_wf(),
        ensures
            exists|fill: MarshaledView|
                fill.wf() && marshal_result_view(r) == #[trigger] spec_marshal(*inputs, fill),
            r matches Ok(m) ==> m.wf(),
    {
        let fill = MarshaledInputs::random();
        proof {
            lemma_view_wf(&fill);
        }
        let ghost fv = fill@;
        let r = marshal_with_fill(inputs, fill);
        assert(fv.wf() && marshal_result_view(r) == spec_marshal(*inputs, fv));
        r
    }

    /// The integer that a field element denotes.
    pub fn ark_primefield_to_num_bigint(value: &FieldElement) -> (r: Integer)
        ensures
            !r.negative,
            r.magnitude@ == value.bytes@,
            r.value() == value.value() as int,
    {
        Integer { negative: false, magnitude: value.bytes.clone() }
    }

    /// The field element that an integer denotes: `NegativeValue` below zero,
    /// `NotInField` at or above the modulus.
    pub fn num_bigint_to_ark_bigint(value: &Integer) -> (r: Result<FieldElement, GrapevineError>)
        ensures
            r is Err <==> value.value() < 0 || value.value() >= modulus(),
            r matches Ok(f) ==> f.wf() && f.value() as int == value.value(),
            r == Err::<FieldElement, GrapevineError>(GrapevineError::NegativeValue) <==> value.value() < 0,
            r == Err::<FieldElement, GrapevineError>(GrapevineError::NotInField) <==> value.value() >= modulus(),
    {
        if value.negative {
            let mut k: usize = 0;
            while k < value.magnitude.len()
                invariant
                    value.negative,
                    k <= value.magnitude@.len(),
                    forall|m: int| 0 <= m < k ==> value.magnitude@[m] == 0,
                decreases value.magnitude@.len() - k,
            {
                if value.magnitude[k] != 0 {
                    proof {
                        lemma_be_zero(value.magnitude@);
                        assert(value.magnitude@[k as int] != 0);
                        assert(be_value(value.magnitude@) != 0);
                        assert(value.negative);
                        assert(be_value(value.magnitude@) > 0);
                        assert(value.value() == -(be_value(value.magnitude@) as int));
                    }
                    return Err(GrapevineError::NegativeValue);
                }
                k += 1;
            }
            proof {
                lemma_be_zero(value.magnitude@);
            }
        }
        match FieldElement::from_bytes_be(&value.magnitude) {
            Some(f) => Ok(f),
            None => Err(GrapevineError::NotInField),
        }
    }

    /// The witness that the executor computed, as field elements; fails on
    /// the first value that is negative or not below the modulus.
    pub fn extract_witness(witness: &Vec<Integer>) -> (r: Result<Vec<FieldElement>, GrapevineError>)
        ensures
            r is Ok <==> witness_in_field(witness@),
            r matches Ok(v) ==> all_wf(v@) && v@.len() == witness@.len() && forall|j: int|
                0 <= j < v@.len() ==> (#[trigger] v@[j]).value() as int == witness@[j].value(),
            r matches Err(e) ==> e == GrapevineError::NegativeValue || e == GrapevineError::NotInField,
    {
        let mut out: Vec<FieldElement> = Vec::new();
        let mut j: usize = 0;
        while j < witness.len()
            invariant
                j <= witness@.len(),
                out@.len() == j,
                all_wf(out@),
                forall|m: int| 0 <= m < j ==> (#[trigger] out@[m]).value() as int == witness@[m].value(),
                forall|m: int| 0 <= m < j ==> 0 <= #[trigger] witness@[m].value() < modulus(),
            decreases witness@.len() - j,
        {
            match Self::num_bigint_to_ark_bigint(&witness[j]) {
                Ok(f) => out.push(f),
                Err(e) => {
                    return Err(e);
                },
            }
            j += 1;
        }
        Ok(out)
    }
}

/// An uninitialized private input is always rejected with
/// `UninitializedInput`, whatever the filler.
pub proof fn lemma_uninitialized_rejected(input: CircomPrivateInput, fill: MarshaledView)
    requires
        input.spec_uninitialized(),
    ensures
        spec_marshal(input, fill) == Err::<MarshaledView, GrapevineError>(
            GrapevineError::UninitializedInput,
        ),
{
}

/// A chaff input with both username slots absent marshals without failure
/// (given a phrase within its limit and no half-filled secret pair), and its
/// usernames are exactly the filler's elements: no fixed value stands in for
/// an absent name.
pub proof fn lemma_chaff_usernames_are_filler(input: CircomPrivateInput, fill: MarshaledView)
    requires
        input.chaff,
        input.usernames@[0] is None,
        input.usernames@[1] is None,
        input.phrase matches Some(p) ==> text_bytes(&p).len() <= MAX_SECRET_LENGTH,
        !(input.auth_secrets@[0] is Some && input.auth_secrets@[1] is None),
    ensures
        spec_marshal(input, fill) is Ok,
        spec_marshal(input, fill)->Ok_0.usernames == fill.usernames,
{
}

/// With only the second username slot filled (and a phrase within its limit
/// and no half-filled secret pair), the usernames marshal to zero followed by
/// the encoded name, whatever the filler.
pub proof fn lemma_first_hop_usernames(input: CircomPrivateInput, fill: MarshaledView)
    requires
        input.usernames@[0] is None,
        input.usernames@[1] matches Some(u) && text_bytes(&u).len() <= MAX_USERNAME_LENGTH,
        input.phrase matches Some(p) ==> text_bytes(&p).len() <= MAX_SECRET_LENGTH,
        !(input.auth_secrets@[0] is Some && input.auth_secrets@[1] is None),
    ensures
        spec_marshal(input, fill) is Ok,
        spec_marshal(input, fill)->Ok_0.usernames == seq![
            zero_chunk(),
            username_chunk(text_bytes(&input.usernames@[1]->0)),
        ],
{
}

} // verus!
