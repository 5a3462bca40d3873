//! The values that stand in for the results of measurements and readouts.
//!
//! Booleans and basis states are drawn here. Real numbers are not: a readout
//! of real or complex numbers takes them from a [`Sample`] that the caller
//! has drawn, in the number that [`demand`] states.

use vstd::prelude::*;
use vstd::arithmetic::power2::{pow2, lemma2_to64, lemma_pow2_unfold, lemma_pow2_strictly_increases};
use crate::values::{Real, Complex, copy_vec};
use crate::operation::Operation;
use crate::random::{random_bool, random_below};
use crate::composite::{density, density_matrix};

verus! {

/// What an operation needs from the caller before it can be carried out.
#[derive(Debug, Clone, Copy, PartialEq, Eq)]
pub enum Demand {
    /// Nothing.
    Nothing,
    /// So many real numbers, each in the unit interval.
    Reals(usize),
    /// So many complex numbers.
    Amplitudes(usize),
}

/// The numbers that the caller hands to one operation.
#[derive(Debug, Clone, PartialEq, Eq)]
pub enum Sample {
    /// No numbers.
    Absent,
    /// Real numbers.
    Reals(Vec<Real>),
    /// Complex numbers.
    Amplitudes(Vec<Complex>),
}

/// What was made up for one operation, by the register that takes it.
#[derive(Debug, Clone, PartialEq, Eq)]
pub enum Synthesized {
    /// Nothing: the operation is a declaration, or is passed over.
    Nothing,
    /// The content of a register of booleans.
    Bits(Vec<bool>),
    /// The content of an output register of booleans: one entry for each
    /// repetition.
    Shots(Vec<Vec<bool>>),
    /// The content of a register of real numbers.
    Reals(Vec<Real>),
    /// The content of a register of complex numbers.
    Amplitudes(Vec<Complex>),
    /// The content of an output register of complex numbers: the rows of a
    /// matrix.
    Matrix(Vec<Vec<Complex>>),
}

/// Every number in `reals` lies in the unit interval.
pub open spec fn all_unit(reals: Seq<Real>) -> bool {
    forall|i: int| 0 <= i < reals.len() ==> (#[trigger] reals[i]).is_unit()
}

impl Sample {
    /// The sample holds what `demand` asks for.
    pub open spec fn meets_spec(self, demand: Demand) -> bool {
        match demand {
            Demand::Nothing => true,
            Demand::Reals(count) => match self {
                Sample::Reals(reals) => reals@.len() == count && all_unit(reals@),
                _ => false,
            },
            Demand::Amplitudes(count) => match self {
                Sample::Amplitudes(amplitudes) => amplitudes@.len() == count,
                _ => false,
            },
        }
    }

    /// Tells whether the sample holds what `demand` asks for.
    #[verifier::loop_isolation(false)]
    pub fn meets(&self, demand: &Demand) -> (r: bool)
        ensures
            r == self.meets_spec(*demand),
    {
        match demand {
            Demand::Nothing => true,
            Demand::Reals(count) => match self {
                Sample::Reals(reals) => {
                    if reals.len() != *count {
                        return false;
                    }
                    let mut i: usize = 0;
                    while i < reals.len()
                        invariant
                            i <= reals@.len(),
                            forall|j: int| 0 <= j < i ==> (#[trigger] reals@[j]).is_unit(),
                        decreases reals@.len() - i,
                    {
                        if !reals[i].in_unit_interval() {
                            assert(!reals@[i as int].is_unit());
                            return false;
                        }
                        i += 1;
                    }
                    true
                },
                _ => false,
            },
            Demand::Amplitudes(count) => match self {
                Sample::Amplitudes(amplitudes) => amplitudes.len() == *count,
                _ => false,
            },
        }
    }
}

/// The number of basis states of `number_qubits` qubits, `2^number_qubits`,
/// if a `usize` holds it.
pub fn dimension(number_qubits: usize) -> (r: Option<usize>)
    ensures
        match r {
            Some(d) => d == pow2(number_qubits as nat),
            None => pow2(number_qubits as nat) > usize::MAX,
        },
{
    let mut d: usize = 1;
    let mut i: usize = 0;
    proof {
        lemma2_to64();
    }
    while i < number_qubits
        invariant
            i <= number_qubits,
            d == pow2(i as nat),
        decreases number_qubits - i,
    {
        proof {
            lemma_pow2_unfold((i + 1) as nat);
            if i + 1 < number_qubits {
                lemma_pow2_strictly_increases((i + 1) as nat, number_qubits as nat);
            }
        }
        match d.checked_mul(2) {
            Some(doubled) => {
                d = doubled;
            },
            None => {
                return None;
            },
        }
        i += 1;
    }
    Some(d)
}

/// What the operation needs from the caller for `number_qubits` qubits, or
/// `None` where it cannot be carried out for so many: the state vector and
/// the density matrix have `2^number_qubits` rows, which a `usize` has to
/// hold.
pub open spec fn demanded(operation: Operation, number_qubits: usize) -> Option<Demand> {
    match operation {
        Operation::PragmaGetPauliProduct { .. } => Some(Demand::Reals(1)),
        Operation::PragmaGetOccupationProbability { .. } => Some(Demand::Reals(number_qubits)),
        Operation::PragmaGetStateVector { .. } => if pow2(number_qubits as nat) <= usize::MAX {
            Some(Demand::Amplitudes(pow2(number_qubits as nat) as usize))
        } else {
            None
        },
        Operation::PragmaGetDensityMatrix { .. } => if pow2(number_qubits as nat) <= usize::MAX {
            Some(Demand::Nothing)
        } else {
            None
        },
        _ => Some(Demand::Nothing),
    }
}

/// States what the caller has to hand to the operation.
pub fn demand(operation: &Operation, number_qubits: usize) -> (r: Option<Demand>)
    ensures
        r == demanded(*operation, number_qubits),
{
    match operation {
        Operation::PragmaGetPauliProduct { .. } => Some(Demand::Reals(1)),
        Operation::PragmaGetOccupationProbability { .. } => Some(Demand::Reals(number_qubits)),
        Operation::PragmaGetStateVector { .. } => match dimension(number_qubits) {
            Some(shape) => Some(Demand::Amplitudes(shape)),
            None => None,
        },
        Operation::PragmaGetDensityMatrix { .. } => match dimension(number_qubits) {
            Some(_) => Some(Demand::Nothing),
            None => None,
        },
        _ => Some(Demand::Nothing),
    }
}

/// The operation can be carried out for `number_qubits` qubits with this
/// sample.
pub open spec fn admissible(operation: Operation, number_qubits: usize, sample: Sample) -> bool {
    match demanded(operation, number_qubits) {
        Some(demand) => sample.meets_spec(demand),
        None => false,
    }
}

/// Every entry of `shots` has `number_qubits` booleans.
pub open spec fn shots_of(shots: Seq<Seq<bool>>, number_qubits: usize) -> bool {
    forall|i: int| 0 <= i < shots.len() ==> (#[trigger] shots[i]).len() == number_qubits
}

/// `synthesized` is a possible result of the operation for `number_qubits`
/// qubits and this sample: it has the kind and the dimensions that the
/// operation calls for, and the numbers of the sample where it takes any.
pub open spec fn well_shaped(
    operation: Operation,
    number_qubits: usize,
    sample: Sample,
    synthesized: Synthesized,
) -> bool {
    match operation {
        Operation::MeasureQubit { .. } => match synthesized {
            Synthesized::Bits(bits) => bits@.len() == 1,
            _ => false,
        },
        Operation::PragmaRepeatedMeasurement { number_measurements, .. } => match synthesized {
            Synthesized::Shots(shots) => shots@.len() == number_measurements && shots_of(
                shots.deep_view(),
                number_qubits,
            ),
            _ => false,
        },
        Operation::PragmaGetPauliProduct { .. }
        | Operation::PragmaGetOccupationProbability { .. } => match (synthesized, sample) {
            (Synthesized::Reals(reals), Sample::Reals(given)) => reals@ == given@,
            _ => false,
        },
        Operation::PragmaGetStateVector { .. } => match (synthesized, sample) {
            (Synthesized::Amplitudes(amplitudes), Sample::Amplitudes(given)) => amplitudes@
                == given@,
            _ => false,
        },
        Operation::PragmaGetDensityMatrix { .. } => match synthesized {
            Synthesized::Matrix(matrix) => exists|choices: Seq<usize>|
                choices.len() == number_qubits && matrix.deep_view() == #[trigger] density(choices),
            _ => false,
        },
        _ => synthesized is Nothing,
    }
}

/// One repetition of a measurement of all qubits: a boolean for each.
pub fn random_shot(number_qubits: usize) -> (shot: Vec<bool>)
    ensures
        shot@.len() == number_qubits,
{
    let mut shot: Vec<bool> = Vec::new();
    let mut i: usize = 0;
    while i < number_qubits
        invariant
            i <= number_qubits,
            shot@.len() == i,
        decreases number_qubits - i,
    {
        shot.push(random_bool());
        i += 1;
    }
    shot
}

/// A basis state for each qubit: zero or one.
pub fn random_choices(number_qubits: usize) -> (choices: Vec<usize>)
    ensures
        choices@.len() == number_qubits,
        forall|i: int| 0 <= i < number_qubits ==> #[trigger] choices@[i] < 2,
{
    let mut choices: Vec<usize> = Vec::new();
    let mut i: usize = 0;
    while i < number_qubits
        invariant
            i <= number_qubits,
            choices@.len() == i,
            forall|j: int| 0 <= j < i ==> #[trigger] choices@[j] < 2,
        decreases number_qubits - i,
    {
        choices.push(random_below(2));
        i += 1;
    }
    choices
}

/// Makes up the result of one operation.
///
/// - A single measurement gives one boolean.
/// - A repeated measurement gives a vector of `number_qubits` booleans for
///   each repetition.
/// - A Pauli product and the occupation probabilities give the real numbers
///   of the sample.
/// - A state vector gives the complex numbers of the sample.
/// - A density matrix gives that of a basis state chosen for each qubit.
/// - Any other operation gives nothing.
pub fn synthesize(operation: &Operation, number_qubits: usize, sample: &Sample) -> (r: Synthesized)
    requires
        admissible(*operation, number_qubits, *sample),
    ensures
        well_shaped(*operation, number_qubits, *sample, r),
{
    match operation {
        Operation::MeasureQubit { .. } => {
            let res: bool = random_bool();
            Synthesized::Bits(vec![res])
        },
        Operation::PragmaRepeatedMeasurement { number_measurements, .. } => {
            let mut all_res: Vec<Vec<bool>> = Vec::new();
            let mut i: usize = 0;
            while i < *number_measurements
                invariant
                    i <= *number_measurements,
                    all_res@.len() == i,
                    forall|j: int| 0 <= j < i ==> (#[trigger] all_res@[j])@.len() == number_qubits,
                decreases *number_measurements - i,
            {
                all_res.push(random_shot(number_qubits));
                i += 1;
            }
            assert(shots_of(all_res.deep_view(), number_qubits)) by {
                assert forall|j: int| 0 <= j < all_res.deep_view().len() implies (
                #[trigger] all_res.deep_view()[j]).len() == number_qubits by {
                    assert(all_res@[j]@.len() == number_qubits);
                }
            }
            Synthesized::Shots(all_res)
        },
        Operation::PragmaGetPauliProduct { .. }
        | Operation::PragmaGetOccupationProbability { .. } => match sample {
            Sample::Reals(given) => Synthesized::Reals(copy_vec(given)),
            _ => Synthesized::Nothing,
        },
        Operation::PragmaGetStateVector { .. } => match sample {
            Sample::Amplitudes(given) => Synthesized::Amplitudes(copy_vec(given)),
            _ => Synthesized::Nothing,
        },
        Operation::PragmaGetDensityMatrix { .. } => {
            let res_qubits = random_choices(number_qubits);
            let density_matrix = density_matrix(&res_qubits);
            assert(res_qubits@.len() == number_qubits && density_matrix.deep_view() == density(
                res_qubits@,
            ));
            Synthesized::Matrix(density_matrix)
        },
        _ => Synthesized::Nothing,
    }
}

} // verus!
