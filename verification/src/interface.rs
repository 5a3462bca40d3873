//! The interpreter: carries the operations of a circuit out on a register
//! store, one after the other.

use vstd::prelude::*;
use crate::operation::{Operation, BackendError};
use crate::registers::{Registers, RegistersView, step};
use crate::synthesis::{Sample, Synthesized, admissible, well_shaped, synthesize, all_unit, shots_of};
use crate::composite::{projector, density, lemma_basis_index_bound};
use vstd::arithmetic::power2::pow2;

verus! {

impl Operation {
    /// The backend refuses the operation, and `error` is the error that it
    /// returns for it.
    pub open spec fn refused_with(self, error: BackendError) -> bool {
        match self {
            Operation::Other { hqslang, .. } => !self.is_supported() && error.rejects(hqslang@),
            _ => false,
        }
    }
}

/// `after` is a store that the operation can leave behind when it is carried
/// out on `before`: the outcome of [`step`] for something that the operation
/// can give.
pub open spec fn steps_to(
    before: RegistersView,
    operation: Operation,
    number_qubits: usize,
    sample: Sample,
    after: RegistersView,
) -> bool {
    exists|synthesized: Synthesized| #[trigger]
        well_shaped(operation, number_qubits, sample, synthesized) && after == step(
            before,
            operation,
            synthesized,
        )
}

/// Every operation of the circuit has a sample with which it can be carried
/// out.
pub open spec fn all_admissible(
    circuit: Seq<Operation>,
    number_qubits: usize,
    samples: Seq<Sample>,
) -> bool {
    &&& samples.len() == circuit.len()
    &&& forall|i: int|
        0 <= i < circuit.len() ==> admissible(#[trigger] circuit[i], number_qubits, samples[i])
}

/// The backend refuses none of the operations.
pub open spec fn all_supported(circuit: Seq<Operation>) -> bool {
    forall|i: int| 0 <= i < circuit.len() ==> (#[trigger] circuit[i]).is_supported()
}

/// The operation at place `k` is the first that the backend refuses.
pub open spec fn first_unsupported(circuit: Seq<Operation>, k: int) -> bool {
    &&& 0 <= k < circuit.len()
    &&& !circuit[k].is_supported()
    &&& forall|j: int| 0 <= j < k ==> (#[trigger] circuit[j]).is_supported()
}

/// `synthesized` holds, for each operation of the circuit, something that
/// the operation can give.
pub open spec fn all_well_shaped(
    circuit: Seq<Operation>,
    number_qubits: usize,
    samples: Seq<Sample>,
    synthesized: Seq<Synthesized>,
) -> bool {
    &&& synthesized.len() == circuit.len()
    &&& forall|i: int|
        0 <= i < circuit.len() ==> well_shaped(
            #[trigger] circuit[i],
            number_qubits,
            samples[i],
            synthesized[i],
        )
}

/// The store after the operations of the circuit were carried out in their
/// order, `synthesized` holding what was made up for each.
pub open spec fn run(
    store: RegistersView,
    circuit: Seq<Operation>,
    synthesized: Seq<Synthesized>,
) -> RegistersView
    decreases circuit.len(),
{
    if circuit.len() == 0 {
        store
    } else {
        step(
            run(store, circuit.drop_last(), synthesized.drop_last()),
            circuit.last(),
            synthesized.last(),
        )
    }
}

/// `after` is a store that the circuit can leave behind when it is carried
/// out on `before`.
pub open spec fn runs_to(
    before: RegistersView,
    circuit: Seq<Operation>,
    number_qubits: usize,
    samples: Seq<Sample>,
    after: RegistersView,
) -> bool {
    exists|synthesized: Seq<Synthesized>| #[trigger]
        all_well_shaped(circuit, number_qubits, samples, synthesized) && after == run(
            before,
            circuit,
            synthesized,
        )
}

/// Carries one operation out on the registers.
///
/// Returns the registers after the operation. An operation that the backend
/// does not support gives an error with its symbolic name, and nothing else.
pub fn call_operation(
    operation: &Operation,
    registers: Registers,
    number_qubits: usize,
    sample: &Sample,
) -> (r: Result<Registers, BackendError>)
    requires
        admissible(*operation, number_qubits, *sample),
    ensures
        match r {
            Ok(store) => operation.is_supported() && steps_to(
                registers@,
                *operation,
                number_qubits,
                *sample,
                store@,
            ),
            Err(error) => operation.refused_with(error),
        },
{
    match operation {
        Operation::Other { hqslang, .. } => {
            if operation.supported() {
                assert(well_shaped(*operation, number_qubits, *sample, Synthesized::Nothing));
                Ok(registers)
            } else {
                Err(Operation::not_supported(hqslang))
            }
        },
        _ => {
            let synthesized = synthesize(operation, number_qubits, sample);
            Ok(registers.record(operation, synthesized))
        },
    }
}

/// Carries the operations of the circuit out on the registers, in their
/// order.
///
/// Returns the registers after the last operation. The first operation that
/// the backend does not support ends the pass with its error.
pub fn call_circuit(
    circuit: &Vec<Operation>,
    registers: Registers,
    number_qubits: usize,
    samples: &Vec<Sample>,
) -> (r: Result<Registers, BackendError>)
    requires
        all_admissible(circuit@, number_qubits, samples@),
    ensures
        match r {
            Ok(store) => all_supported(circuit@) && runs_to(
                registers@,
                circuit@,
                number_qubits,
                samples@,
                store@,
            ),
            Err(error) => exists|k: int| #[trigger]
                first_unsupported(circuit@, k) && circuit@[k].refused_with(error),
        },
{
    let ghost initial = registers@;
    let ghost mut synthesized: Seq<Synthesized> = Seq::empty();
    let mut registers = registers;
    let mut i: usize = 0;
    while i < circuit.len()
        invariant
            i <= circuit@.len(),
            all_admissible(circuit@, number_qubits, samples@),
            forall|j: int| 0 <= j < i ==> (#[trigger] circuit@[j]).is_supported(),
            all_well_shaped(circuit@.take(i as int), number_qubits, samples@, synthesized),
            registers@ == run(initial, circuit@.take(i as int), synthesized),
        decreases circuit@.len() - i,
    {
        let ghost before = registers@;
        match call_operation(&circuit[i], registers, number_qubits, &samples[i]) {
            Ok(store) => {
                proof {
                    let made = choose|made: Synthesized| #[trigger]
                        well_shaped(circuit@[i as int], number_qubits, samples@[i as int], made)
                            && store@ == step(before, circuit@[i as int], made);
                    let longer = synthesized.push(made);
                    assert(circuit@.take(i + 1).drop_last() =~= circuit@.take(i as int));
                    assert(longer.drop_last() =~= synthesized);
                    assert forall|j: int| 0 <= j < i + 1 implies well_shaped(
                        #[trigger] circuit@.take(i + 1)[j],
                        number_qubits,
                        samples@[j],
                        longer[j],
                    ) by {
                        if j < i {
                            assert(circuit@.take(i as int)[j] == circuit@[j]);
                        }
                    }
                    synthesized = longer;
                }
                registers = store;
            },
            Err(error) => {
                assert(first_unsupported(circuit@, i as int));
                return Err(error);
            },
        }
        i += 1;
    }
    proof {
        assert(circuit@.take(circuit@.len() as int) =~= circuit@);
    }
    Ok(registers)
}

impl Operation {
    /// The operation is a declaration, or one that the backend passes over:
    /// a gate, an allowed pragma, a definition.
    pub open spec fn is_quiet(self) -> bool {
        match self {
            Operation::DefinitionBit { .. } => true,
            Operation::DefinitionFloat { .. } => true,
            Operation::DefinitionComplex { .. } => true,
            Operation::Other { .. } => self.is_supported(),
            _ => false,
        }
    }
}

/// Every operation of the circuit is a declaration or is passed over.
pub open spec fn all_quiet(circuit: Seq<Operation>) -> bool {
    forall|i: int| 0 <= i < circuit.len() ==> (#[trigger] circuit[i]).is_quiet()
}

impl RegistersView {
    /// Every register is empty, and so is every output register.
    pub open spec fn all_empty(self) -> bool {
        &&& self.outputs_empty()
        &&& forall|name: Seq<char>|
            self.bit.contains_key(name) ==> (#[trigger] self.bit[name]).len() == 0
        &&& forall|name: Seq<char>|
            self.real.contains_key(name) ==> (#[trigger] self.real[name]).len() == 0
        &&& forall|name: Seq<char>|
            self.complex.contains_key(name) ==> (#[trigger] self.complex[name]).len() == 0
    }
}

/// A circuit of declarations, gates and allowed pragmas writes nothing:
/// where the output registers were empty before, they are empty after it,
/// and so for the other registers.
pub proof fn lemma_quiet_circuit_writes_nothing(
    before: RegistersView,
    circuit: Seq<Operation>,
    number_qubits: usize,
    samples: Seq<Sample>,
    after: RegistersView,
)
    requires
        all_quiet(circuit),
        runs_to(before, circuit, number_qubits, samples, after),
    ensures
        all_supported(circuit),
        before.outputs_empty() ==> after.outputs_empty(),
        before.all_empty() ==> after.all_empty(),
{
    let synthesized = choose|synthesized: Seq<Synthesized>| #[trigger]
        all_well_shaped(circuit, number_qubits, samples, synthesized) && after == run(
            before,
            circuit,
            synthesized,
        );
    lemma_quiet_run(before, circuit, synthesized);
}

/// The induction behind [`lemma_quiet_circuit_writes_nothing`].
proof fn lemma_quiet_run(
    before: RegistersView,
    circuit: Seq<Operation>,
    synthesized: Seq<Synthesized>,
)
    requires
        all_quiet(circuit),
    ensures
        all_supported(circuit),
        before.outputs_empty() ==> run(before, circuit, synthesized).outputs_empty(),
        before.all_empty() ==> run(before, circuit, synthesized).all_empty(),
    decreases circuit.len(),
{
    assert forall|i: int| 0 <= i < circuit.len() implies (#[trigger] circuit[i]).is_supported() by {
        assert(circuit[i].is_quiet());
    }
    if circuit.len() > 0 {
        let shorter = circuit.drop_last();
        assert forall|i: int| 0 <= i < shorter.len() implies (#[trigger] shorter[i]).is_quiet() by {
            assert(shorter[i] == circuit[i]);
        }
        lemma_quiet_run(before, shorter, synthesized.drop_last());
        assert(circuit.last() == circuit[circuit.len() - 1]);
        assert(circuit.last().is_quiet());
    }
}

/// After a single measurement the register of booleans under its readout
/// name holds exactly one entry.
pub proof fn lemma_measurement_gives_one_bit(
    before: RegistersView,
    operation: Operation,
    number_qubits: usize,
    sample: Sample,
    after: RegistersView,
)
    requires
        operation is MeasureQubit,
        steps_to(before, operation, number_qubits, sample, after),
    ensures
        after.bit.contains_key(operation->MeasureQubit_readout@),
        after.bit[operation->MeasureQubit_readout@].len() == 1,
{
}

/// After a repeated measurement the output register of booleans under its
/// readout name holds one entry for each repetition, and each entry holds
/// one boolean for each qubit.
pub proof fn lemma_repeated_measurement_shape(
    before: RegistersView,
    operation: Operation,
    number_qubits: usize,
    sample: Sample,
    after: RegistersView,
)
    requires
        operation is PragmaRepeatedMeasurement,
        steps_to(before, operation, number_qubits, sample, after),
    ensures
        after.bit_output.contains_key(operation->PragmaRepeatedMeasurement_readout@),
        after.bit_output[operation->PragmaRepeatedMeasurement_readout@].len()
            == operation->number_measurements,
        shots_of(
            after.bit_output[operation->PragmaRepeatedMeasurement_readout@],
            number_qubits,
        ),
{
}

/// After a readout of the occupation probabilities the register of real
/// numbers under its readout name holds one number for each qubit, each at
/// least zero and below one.
pub proof fn lemma_occupation_probability_shape(
    before: RegistersView,
    operation: Operation,
    number_qubits: usize,
    sample: Sample,
    after: RegistersView,
)
    requires
        operation is PragmaGetOccupationProbability,
        admissible(operation, number_qubits, sample),
        steps_to(before, operation, number_qubits, sample, after),
    ensures
        after.real.contains_key(operation->PragmaGetOccupationProbability_readout@),
        after.real[operation->PragmaGetOccupationProbability_readout@].len() == number_qubits,
        all_unit(after.real[operation->PragmaGetOccupationProbability_readout@]),
{
    let made = choose|made: Synthesized| #[trigger]
        well_shaped(operation, number_qubits, sample, made) && after == step(
            before,
            operation,
            made,
        );
    assert(made->Reals_0.deep_view() =~= made->Reals_0@);
}

/// After a readout of a Pauli product the register of real numbers under
/// its readout name holds one number, at least zero and below one.
pub proof fn lemma_pauli_product_shape(
    before: RegistersView,
    operation: Operation,
    number_qubits: usize,
    sample: Sample,
    after: RegistersView,
)
    requires
        operation is PragmaGetPauliProduct,
        admissible(operation, number_qubits, sample),
        steps_to(before, operation, number_qubits, sample, after),
    ensures
        after.real.contains_key(operation->PragmaGetPauliProduct_readout@),
        after.real[operation->PragmaGetPauliProduct_readout@].len() == 1,
        all_unit(after.real[operation->PragmaGetPauliProduct_readout@]),
{
    let made = choose|made: Synthesized| #[trigger]
        well_shaped(operation, number_qubits, sample, made) && after == step(
            before,
            operation,
            made,
        );
    assert(made->Reals_0.deep_view() =~= made->Reals_0@);
}

/// After a readout of the state vector the register of complex numbers
/// under its readout name holds `2^number_qubits` numbers.
pub proof fn lemma_state_vector_shape(
    before: RegistersView,
    operation: Operation,
    number_qubits: usize,
    sample: Sample,
    after: RegistersView,
)
    requires
        operation is PragmaGetStateVector,
        admissible(operation, number_qubits, sample),
        steps_to(before, operation, number_qubits, sample, after),
    ensures
        after.complex.contains_key(operation->PragmaGetStateVector_readout@),
        after.complex[operation->PragmaGetStateVector_readout@].len() == pow2(
            number_qubits as nat,
        ),
{
    let made = choose|made: Synthesized| #[trigger]
        well_shaped(operation, number_qubits, sample, made) && after == step(
            before,
            operation,
            made,
        );
    assert(made->Amplitudes_0.deep_view() =~= made->Amplitudes_0@);
}

/// After a readout of the density matrix for at least one qubit the output
/// register of complex numbers under its readout name holds a matrix of
/// `2^number_qubits` rows and columns with a single one, on the diagonal,
/// and zeros elsewhere (see [`crate::composite::lemma_projector`]).
pub proof fn lemma_density_matrix_shape(
    before: RegistersView,
    operation: Operation,
    number_qubits: usize,
    sample: Sample,
    after: RegistersView,
)
    requires
        operation is PragmaGetDensityMatrix,
        number_qubits >= 1,
        steps_to(before, operation, number_qubits, sample, after),
    ensures
        after.complex_output.contains_key(operation->PragmaGetDensityMatrix_readout@),
        exists|index: nat|
            index < pow2(number_qubits as nat)
                && after.complex_output[operation->PragmaGetDensityMatrix_readout@]
                == #[trigger] projector(pow2(number_qubits as nat), index),
{
    let made = choose|made: Synthesized| #[trigger]
        well_shaped(operation, number_qubits, sample, made) && after == step(
            before,
            operation,
            made,
        );
    let choices = choose|choices: Seq<usize>|
        choices.len() == number_qubits && made->Matrix_0.deep_view() == #[trigger] density(
            choices,
        );
    lemma_basis_index_bound(choices);
    let index = crate::composite::basis_index(choices);
    assert(after.complex_output[operation->PragmaGetDensityMatrix_readout@] == projector(
        pow2(number_qubits as nat),
        index,
    ));
}

} // verus!
