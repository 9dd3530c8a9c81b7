use vstd::prelude::*;

use crate::errors::GrapevineError;
use crate::field::{all_wf, be_value, modulus, values, FieldElement};
use crate::wrapper::{
    int_values, spec_marshal, witness_in_field, CircomPrivateInput, CircomWrapper, Integer,
    MarshaledInputs, MarshaledView,
};

verus! {

/// Width of the accumulator state.
pub const STATE_LEN: usize = 4;

/// Position in the witness of the first element of the next state.
pub const OUTPUT_OFFSET: usize = 1;

/// The four named vectors that the circuit executor receives.
#[derive(Debug)]
pub struct CircuitInputs {
    pub ivc_input: Vec<Integer>,
    pub phrase: Vec<Integer>,
    pub usernames: Vec<Integer>,
    pub auth_secrets: Vec<Integer>,
}

/// The values of the circuit's inputs.
pub ghost struct InputsView {
    pub ivc_input: Seq<int>,
    pub phrase: Seq<int>,
    pub usernames: Seq<int>,
    pub auth_secrets: Seq<int>,
}

impl View for CircuitInputs {
    type V = InputsView;

    open spec fn view(&self) -> InputsView {
        InputsView {
            ivc_input: int_values(self.ivc_input@),
            phrase: int_values(self.phrase@),
            usernames: int_values(self.usernames@),
            auth_secrets: int_values(self.auth_secrets@),
        }
    }
}

/// The integers that a sequence of element representations denotes.
pub open spec fn chunk_values(cs: Seq<Seq<u8>>) -> Seq<int> {
    Seq::new(cs.len(), |i: int| be_value(cs[i]) as int)
}

/// The values of a state, as integers.
pub open spec fn state_ints(z: Seq<FieldElement>) -> Seq<int> {
    Seq::new(z.len(), |i: int| z[i].value() as int)
}

/// The executor's inputs for state `z` and marshaled inputs `m`.
pub open spec fn inputs_of(z: Seq<FieldElement>, m: MarshaledView) -> InputsView {
    InputsView {
        ivc_input: state_ints(z),
        phrase: chunk_values(m.phrase),
        usernames: chunk_values(m.usernames),
        auth_secrets: chunk_values(m.auth_secrets),
    }
}

/// The view of a result that carries circuit inputs.
pub open spec fn inputs_result_view(r: Result<CircuitInputs, GrapevineError>) -> Result<
    InputsView,
    GrapevineError,
> {
    match r {
        Ok(c) => Ok(c@),
        Err(e) => Err(e),
    }
}

/// The view of a result that carries a state.
pub open spec fn state_result_view(r: Result<Vec<FieldElement>, GrapevineError>) -> Result<
    Seq<nat>,
    GrapevineError,
> {
    match r {
        Ok(v) => Ok(values(v@)),
        Err(e) => Err(e),
    }
}

/// The next state that a witness holds: the four values after the output
/// marker.
pub open spec fn witness_state(w: Seq<int>) -> Seq<nat> {
    Seq::new(4, |j: int| w[j + 1] as nat)
}

/// A state whose values are known, one per variable.
pub open spec fn all_assigned(z: Seq<Option<FieldElement>>) -> bool {
    forall|i: int| 0 <= i < z.len() ==> (#[trigger] z[i]) is Some
}

/// The values assigned to the variables of a state.
pub open spec fn assigned(z: Seq<Option<FieldElement>>) -> Seq<FieldElement> {
    Seq::new(z.len(), |i: int| z[i]->0)
}

/// The step circuit: the executor of the compiled circuit and the private
/// input bound for the next step.
#[derive(Debug)]
pub struct GrapevineFCircuit {
    pub circom_wrapper: CircomWrapper,
    pub private_input: CircomPrivateInput,
}

impl GrapevineFCircuit {
    /// Native evaluation, before the executor runs: the executor's inputs.
    pub open spec fn spec_native_inputs(&self, z: Seq<FieldElement>, fill: MarshaledView) -> Result<
        InputsView,
        GrapevineError,
    > {
        if self.private_input.spec_uninitialized() {
            Err(GrapevineError::PrivateInputNotSet)
        } else {
            match spec_marshal(self.private_input, fill) {
                Err(e) => Err(e),
                Ok(m) => Ok(inputs_of(z, m)),
            }
        }
    }

    /// Constrained evaluation, before the executor runs: the executor's inputs.
    pub open spec fn spec_constraint_inputs(
        &self,
        z: Seq<Option<FieldElement>>,
        fill: MarshaledView,
    ) -> Result<InputsView, GrapevineError> {
        if !all_assigned(z) {
            Err(GrapevineError::AssignmentMissing)
        } else if self.private_input.spec_uninitialized() {
            Err(GrapevineError::AssignmentMissing)
        } else {
            match spec_marshal(self.private_input, fill) {
                Err(e) => Err(e),
                Ok(m) => Ok(inputs_of(assigned(z), m)),
            }
        }
    }

    /// A circuit for the executor at these paths, with an uninitialized private input.
    pub fn new(r1cs_path: String, wasm_path: String) -> (r: GrapevineFCircuit)
        ensures
            r.circom_wrapper.r1cs_path@ == r1cs_path@,
            r.circom_wrapper.wc_path@ == wasm_path@,
            r.private_input.spec_uninitialized(),
    {
        let circom_wrapper = CircomWrapper::new(r1cs_path, wasm_path);
        GrapevineFCircuit { circom_wrapper, private_input: CircomPrivateInput::empty(false) }
    }

    /// Binds the private input of the next step, replacing the previous one.
    pub fn set_private_input(&mut self, input: CircomPrivateInput)
        ensures
            final(self).private_input == input,
            final(self).circom_wrapper == old(self).circom_wrapper,
    {
        self.private_input = input;
    }

    /// Width of the accumulator state.
    pub fn state_len(&self) -> (r: usize)
        ensures
            r == STATE_LEN,
    {
        STATE_LEN
    }

    /// The state and the marshaled inputs, as the executor's integers.
    fn circuit_inputs(z_i: &Vec<FieldElement>, m: &MarshaledInputs) -> (r: CircuitInputs)
        requires
            m.wf(),
        ensures
            r@ == inputs_of(z_i@, m@),
    {
        CircuitInputs {
            ivc_input: integers_of(z_i),
            phrase: integers_of(&m.phrase),
            usernames: integers_of(&m.usernames),
            auth_secrets: integers_of(&m.auth_secrets),
        }
    }

    /// Native evaluation, before the executor runs, with `fill` in the slots
    /// that carry no real data: `PrivateInputNotSet` when the bound input is
    /// uninitialized, a marshaling error, or the executor's inputs.
    pub fn native_inputs_with_fill(&self, z_i: &Vec<FieldElement>, fill: MarshaledInputs) -> (r: Result<
        CircuitInputs,
        GrapevineError,
    >)
        requires
            self.private_input.secrets_wf(),
            fill.wf(),
        ensures
            inputs_result_view(r) == self.spec_native_inputs(z_i@, fill@),
    {
        if self.private_input.uninitialized() {
            return Err(GrapevineError::PrivateInputNotSet);
        }
        match crate::wrapper::marshal_with_fill(&self.private_input, fill) {
            Err(e) => Err(e),
            Ok(m) => Ok(Self::circuit_inputs(z_i, &m)),
        }
    }

    /// Native evaluation, before the executor runs, with fresh random
    /// elements in the slots that carry no real data.
    pub fn native_inputs(&self, z_i: &Vec<FieldElement>) -> (r: Result<CircuitInputs, GrapevineError>)
        requires
            self.private_input.secrets_wf(),
        ensures
            exists|fill: MarshaledView|
                fill.wf() && inputs_result_view(r) == #[trigger] self.spec_native_inputs(z_i@, fill),
    {
        let fill = MarshaledInputs::random();
        proof {
            crate::wrapper::lemma_view_wf(&fill);
        }
        let ghost fv = fill@;
        let r = self.native_inputs_with_fill(z_i, fill);
        assert(fv.wf() && inputs_result_view(r) == self.spec_native_inputs(z_i@, fv));
        r
    }

    /// Native evaluation, after the executor runs: the next state is the four
    /// values after the output marker. `WitnessCalculationError` when the
    /// executor failed (`None`), a value is not a field element, or the witness
    /// is too short.
    pub fn native_next_state(witness: Option<&Vec<Integer>>) -> (r: Result<
        Vec<FieldElement>,
        GrapevineError,
    >)
        ensures
            state_result_view(r) == spec_native_next(witness_view(witness)),
            r matches Ok(v) ==> all_wf(v@),
    {
        match witness {
            None => Err(GrapevineError::WitnessCalculationError),
            Some(w) => match CircomWrapper::extract_witness(w) {
                Err(_) => Err(GrapevineError::WitnessCalculationError),
                Ok(fs) => {
                    if fs.len() < OUTPUT_OFFSET + STATE_LEN {
                        Err(GrapevineError::WitnessCalculationError)
                    } else {
                        let r = state_slice(&fs);
                        assert(values(r@) =~= witness_state(int_values(w@)));
                        Ok(r)
                    }
                },
            },
        }
    }

    /// Constrained evaluation, before the executor runs, with `fill` in the
    /// slots that carry no real data: `AssignmentMissing` when a state value
    /// cannot be read or the bound input is uninitialized, a marshaling error,
    /// or the executor's inputs.
    pub fn constraint_inputs_with_fill(&self, z_i: &Vec<Option<FieldElement>>, fill: MarshaledInputs) -> (r: Result<
        CircuitInputs,
        GrapevineError,
    >)
        requires
            self.private_input.secrets_wf(),
            fill.wf(),
        ensures
            inputs_result_view(r) == self.spec_constraint_inputs(z_i@, fill@),
    {
        let mut z: Vec<FieldElement> = Vec::new();
        let mut i: usize = 0;
        while i < z_i.len()
            invariant
                i <= z_i@.len(),
                z@.len() == i,
                forall|m: int| 0 <= m < i ==> (#[trigger] z_i@[m]) is Some && z@[m].bytes@ == z_i@[m]->0.bytes@,
            decreases z_i@.len() - i,
        {
            match &z_i[i] {
                Some(v) => z.push(v.duplicate()),
                None => {
                    return Err(GrapevineError::AssignmentMissing);
                },
            }
            i += 1;
        }
        assert(state_ints(z@) =~= state_ints(assigned(z_i@)));
        if self.private_input.uninitialized() {
            return Err(GrapevineError::AssignmentMissing);
        }
        match crate::wrapper::marshal_with_fill(&self.private_input, fill) {
            Err(e) => Err(e),
            Ok(m) => Ok(Self::circuit_inputs(&z, &m)),
        }
    }

    /// Constrained evaluation, before the executor runs, with fresh random
    /// elements in the slots that carry no real data.
    pub fn constraint_inputs(&self, z_i: &Vec<Option<FieldElement>>) -> (r: Result<
        CircuitInputs,
        GrapevineError,
    >)
        requires
            self.private_input.secrets_wf(),
        ensures
            exists|fill: MarshaledView|
                fill.wf() && inputs_result_view(r) == #[trigger] self.spec_constraint_inputs(z_i@, fill),
    {
        let fill = MarshaledInputs::random();
        proof {
            crate::wrapper::lemma_view_wf(&fill);
        }
        let ghost fv = fill@;
        let r = self.constraint_inputs_with_fill(z_i, fill);
        assert(fv.wf() && inputs_result_view(r) == self.spec_constraint_inputs(z_i@, fv));
        r
    }

    /// Constrained evaluation, once the executor has run: its witness as
    /// field elements. `AssignmentMissing` when the executor failed (`None`)
    /// or a value is not a field element.
    pub fn constraint_witness(witness: Option<&Vec<Integer>>) -> (r: Result<
        Vec<FieldElement>,
        GrapevineError,
    >)
        ensures
            state_result_view(r) == spec_constraint_witness(witness_view(witness)),
            r matches Ok(v) ==> all_wf(v@),
    {
        match witness {
            None => Err(GrapevineError::AssignmentMissing),
            Some(w) => match CircomWrapper::extract_witness(w) {
                Err(_) => Err(GrapevineError::AssignmentMissing),
                Ok(fs) => {
                    assert(values(fs@) =~= Seq::new(w@.len(), |j: int| int_values(w@)[j] as nat));
                    Ok(fs)
                },
            },
        }
    }

    /// Constrained evaluation, once the executor's constraints have been
    /// asserted: `Unsatisfiable` when they could not be generated, are not
    /// satisfied, or the witness is too short; else the next state.
    pub fn constraint_next_state(witness: &Vec<FieldElement>, generated: bool, satisfied: bool) -> (r: Result<
        Vec<FieldElement>,
        GrapevineError,
    >)
        requires
            all_wf(witness@),
        ensures
            state_result_view(r) == spec_constraint_next(values(witness@), generated, satisfied),
            r matches Ok(v) ==> all_wf(v@),
    {
        if !generated || !satisfied {
            return Err(GrapevineError::Unsatisfiable);
        }
        if witness.len() < OUTPUT_OFFSET + STATE_LEN {
            return Err(GrapevineError::Unsatisfiable);
        }
        let r = state_slice(witness);
        assert(values(r@) =~= values(witness@).subrange(1, 5));
        Ok(r)
    }
}

/// The executor's witness, if it produced one.
pub open spec fn witness_view(w: Option<&Vec<Integer>>) -> Option<Seq<Integer>> {
    match w {
        Some(v) => Some(v@),
        None => None,
    }
}

/// Native evaluation after the executor: the next state, or
/// `WitnessCalculationError`.
pub open spec fn spec_native_next(w: Option<Seq<Integer>>) -> Result<Seq<nat>, GrapevineError> {
    match w {
        None => Err(GrapevineError::WitnessCalculationError),
        Some(w) => if !witness_in_field(w) || w.len() < 5 {
            Err(GrapevineError::WitnessCalculationError)
        } else {
            Ok(witness_state(int_values(w)))
        },
    }
}

/// Constrained evaluation after the executor: the witness's values, or
/// `AssignmentMissing`.
pub open spec fn spec_constraint_witness(w: Option<Seq<Integer>>) -> Result<Seq<nat>, GrapevineError> {
    match w {
        None => Err(GrapevineError::AssignmentMissing),
        Some(w) => if !witness_in_field(w) {
            Err(GrapevineError::AssignmentMissing)
        } else {
            Ok(Seq::new(w.len(), |j: int| int_values(w)[j] as nat))
        },
    }
}

/// Constrained evaluation once the constraints are asserted: the next state,
/// or `Unsatisfiable`.
pub open spec fn spec_constraint_next(w: Seq<nat>, generated: bool, satisfied: bool) -> Result<
    Seq<nat>,
    GrapevineError,
> {
    if !generated || !satisfied || w.len() < 5 {
        Err(GrapevineError::Unsatisfiable)
    } else {
        Ok(w.subrange(1, 5))
    }
}

/// The starting state: four zeros.
pub fn get_z0() -> (r: Vec<FieldElement>)
    ensures
        r@.len() == STATE_LEN,
        all_wf(r@),
        values(r@) == Seq::new(4, |i: int| 0nat),
{
    let mut r: Vec<FieldElement> = Vec::new();
    let mut i: usize = 0;
    while i < STATE_LEN
        invariant
            i <= 4,
            r@.len() == i,
            all_wf(r@),
            forall|m: int| 0 <= m < i ==> (#[trigger] r@[m]).value() == 0,
        decreases 4 - i,
    {
        r.push(FieldElement::zero());
        i += 1;
    }
    assert(values(r@) =~= Seq::new(4, |i: int| 0nat));
    r
}

/// Each element as the integer it denotes.
fn integers_of(v: &Vec<FieldElement>) -> (r: Vec<Integer>)
    ensures
        int_values(r@) == state_ints(v@),
        int_values(r@) == chunk_values(crate::field::chunk_bytes(v@)),
{
    let mut r: Vec<Integer> = Vec::new();
    let mut i: usize = 0;
    while i < v.len()
        invariant
            i <= v@.len(),
            r@.len() == i,
            forall|m: int| 0 <= m < i ==> (#[trigger] r@[m]).value() == v@[m].value() as int,
        decreases v@.len() - i,
    {
        r.push(CircomWrapper::ark_primefield_to_num_bigint(&v[i]));
        i += 1;
    }
    assert(int_values(r@) =~= state_ints(v@));
    assert(int_values(r@) =~= chunk_values(crate::field::chunk_bytes(v@)));
    r
}

/// The four elements after the output marker.
fn state_slice(w: &Vec<FieldElement>) -> (r: Vec<FieldElement>)
    requires
        w@.len() >= 5,
        all_wf(w@),
    ensures
        r@.len() == 4,
        all_wf(r@),
        forall|j: int| 0 <= j < 4 ==> (#[trigger] r@[j]).bytes@ == w@[j + 1].bytes@,
        values(r@) == values(w@).subrange(1, 5),
{
    let mut r: Vec<FieldElement> = Vec::new();
    let mut j: usize = 0;
    while j < STATE_LEN
        invariant
            j <= 4,
            w@.len() >= 5,
            all_wf(w@),
            r@.len() == j,
            forall|m: int| 0 <= m < j ==> (#[trigger] r@[m]).bytes@ == w@[m + 1].bytes@,
        decreases 4 - j,
    {
        r.push(w[OUTPUT_OFFSET + j].duplicate());
        j += 1;
    }
    assert forall|m: int| 0 <= m < r@.len() implies (#[trigger] r@[m]).wf() by {
        assert(w@[m + 1].wf());
    }
    assert(values(r@) =~= values(w@).subrange(1, 5));
    r
}

/// Constrained evaluation after the executor, whole: the witness read as
/// field elements, then the next state once the constraints are asserted.
pub open spec fn spec_constrained_next(w: Option<Seq<Integer>>, generated: bool, satisfied: bool) -> Result<
    Seq<nat>,
    GrapevineError,
> {
    match spec_constraint_witness(w) {
        Err(e) => Err(e),
        Ok(vals) => spec_constraint_next(vals, generated, satisfied),
    }
}

/// A state whose every value is readable.
pub open spec fn readable(z: Seq<FieldElement>) -> Seq<Option<FieldElement>> {
    Seq::new(z.len(), |i: int| Some(z[i]))
}

/// Native and constrained evaluation agree. Given the same state, every value
/// of it readable, the same bound input and the same filler, they hand the
/// executor the same inputs, or both fail. Given the same witness, with its
/// constraints generated and satisfied, they produce the same next state, or
/// both fail.
pub proof fn lemma_native_matches_constrained(
    c: GrapevineFCircuit,
    z: Seq<FieldElement>,
    fill: MarshaledView,
    w: Seq<Integer>,
)
    ensures
        c.spec_native_inputs(z, fill) is Ok <==> c.spec_constraint_inputs(readable(z), fill) is Ok,
        c.spec_native_inputs(z, fill) is Ok ==> c.spec_native_inputs(z, fill)
            == c.spec_constraint_inputs(readable(z), fill),
        spec_native_next(Some(w)) is Ok <==> spec_constrained_next(Some(w), true, true) is Ok,
        spec_native_next(Some(w)) is Ok ==> spec_native_next(Some(w)) == spec_constrained_next(
            Some(w),
            true,
            true,
        ),
{
    assert(assigned(readable(z)) =~= z);
    assert(all_assigned(readable(z)));
    if spec_native_next(Some(w)) is Ok {
        let vals = Seq::new(w.len(), |j: int| int_values(w)[j] as nat);
        assert(witness_state(int_values(w)) =~= vals.subrange(1, 5));
    }
}

/// For a first hop (a phrase, the second username and the second secret, and
/// nothing in the first slots) no slot takes filler: native evaluation hands
/// the executor the same inputs whatever randomness was drawn, so the next
/// state depends on the state and the private input alone.
pub proof fn lemma_first_hop_ignores_filler(
    c: GrapevineFCircuit,
    z: Seq<FieldElement>,
    fill1: MarshaledView,
    fill2: MarshaledView,
)
    requires
        c.private_input.phrase is Some,
        c.private_input.usernames@[0] is None,
        c.private_input.usernames@[1] is Some,
        c.private_input.auth_secrets@[0] is None,
        c.private_input.auth_secrets@[1] is Some,
    ensures
        c.spec_native_inputs(z, fill1) == c.spec_native_inputs(z, fill2),
{
}

/// A step depends on the state, the bound private input and the drawn filler
/// alone: two circuits with the same private input hand the executor the same
/// inputs, natively and under constraints. No evaluator takes the step index,
/// so it plays no part either.
pub proof fn lemma_step_depends_on_state_and_input(
    c1: GrapevineFCircuit,
    c2: GrapevineFCircuit,
    z: Seq<FieldElement>,
    zv: Seq<Option<FieldElement>>,
    fill: MarshaledView,
)
    requires
        c1.private_input == c2.private_input,
    ensures
        c1.spec_native_inputs(z, fill) == c2.spec_native_inputs(z, fill),
        c1.spec_constraint_inputs(zv, fill) == c2.spec_constraint_inputs(zv, fill),
{
}

} // verus!
