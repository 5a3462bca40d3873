//! The backend: runs a circuit once and gathers what its registers hold into
//! the output registers.

use vstd::prelude::*;
use crate::values::{Real, Complex, copy_vec, copy_rows};
use crate::register_map::RegisterMap;
use crate::operation::{Operation, BackendError};
use crate::registers::{Registers, RegistersView};
use crate::synthesis::Sample;
use crate::interface::{
    call_circuit, all_admissible, all_supported, first_unsupported, runs_to, all_quiet,
    lemma_quiet_circuit_writes_nothing,
};

verus! {

/// The output registers after the registers of one run were gathered into
/// them: where a register of the same name exists and is not empty, it is
/// appended to the output register as one more entry.
pub open spec fn merged<E>(
    outputs: Map<Seq<char>, Seq<Seq<E>>>,
    registers: Map<Seq<char>, Seq<E>>,
) -> Map<Seq<char>, Seq<Seq<E>>> {
    Map::new(
        |name: Seq<char>| outputs.contains_key(name),
        |name: Seq<char>|
            if registers.contains_key(name) && registers[name].len() > 0 {
                outputs[name].push(registers[name])
            } else {
                outputs[name]
            },
    )
}

impl Operation {
    /// The operation declares a register of real numbers `name` that is
    /// marked as output.
    pub open spec fn is_real_output(self, name: Seq<char>) -> bool {
        match self {
            Operation::DefinitionFloat { name: declared, is_output } => is_output && declared@
                == name,
            _ => false,
        }
    }
}

/// The circuit declares a register of real numbers `name` that is marked as
/// output.
pub open spec fn declares_real_output(circuit: Seq<Operation>, name: Seq<char>) -> bool {
    exists|i: int| 0 <= i < circuit.len() && (#[trigger] circuit[i]).is_real_output(name)
}

/// The output registers of real numbers before anything is gathered into
/// them: an empty one for each register of real numbers that the circuit
/// declares and marks as output.
pub open spec fn real_outputs(circuit: Seq<Operation>) -> Map<Seq<char>, Seq<Seq<Real>>> {
    Map::new(
        |name: Seq<char>| declares_real_output(circuit, name),
        |name: Seq<char>| Seq::<Seq<Real>>::empty(),
    )
}

/// The output registers that a run of the circuit returns when it leaves
/// `store` behind: those of booleans, of real numbers and of complex
/// numbers, each with the registers of its kind gathered into it.
pub open spec fn gathered(circuit: Seq<Operation>, store: RegistersView) -> (
    Map<Seq<char>, Seq<Seq<bool>>>,
    Map<Seq<char>, Seq<Seq<Real>>>,
    Map<Seq<char>, Seq<Seq<Complex>>>,
) {
    (
        merged(store.bit_output, store.bit),
        merged(real_outputs(circuit), store.real),
        merged(store.complex_output, store.complex),
    )
}

/// Every output register in `outputs` is empty.
pub open spec fn collections_empty<E>(outputs: Map<Seq<char>, Seq<Seq<E>>>) -> bool {
    forall|name: Seq<char>| outputs.contains_key(name) ==> (#[trigger] outputs[name]).len() == 0
}

/// A run of a circuit of declarations, gates and allowed pragmas returns
/// empty output registers only.
pub proof fn lemma_quiet_circuit_gathers_nothing(
    circuit: Seq<Operation>,
    number_qubits: usize,
    samples: Seq<Sample>,
    store: RegistersView,
)
    requires
        all_quiet(circuit),
        runs_to(RegistersView::empty(), circuit, number_qubits, samples, store),
    ensures
        collections_empty(gathered(circuit, store).0),
        collections_empty(gathered(circuit, store).1),
        collections_empty(gathered(circuit, store).2),
{
    lemma_quiet_circuit_writes_nothing(
        RegistersView::empty(),
        circuit,
        number_qubits,
        samples,
        store,
    );
    assert(RegistersView::empty().all_empty());
    assert(store.all_empty());
}

/// Gathers the registers of one run into the output registers.
pub fn merge_outputs<T: Copy + DeepView>(
    outputs: &RegisterMap<Vec<Vec<T>>>,
    registers: &RegisterMap<Vec<T>>,
) -> (r: RegisterMap<Vec<Vec<T>>>)
    ensures
        r@ == merged(outputs@, registers@),
{
    let mut result: RegisterMap<Vec<Vec<T>>> = RegisterMap::new();
    let count = outputs.len();
    let mut i: usize = 0;
    proof {
        use_type_invariant(outputs);
        outputs.lemma_names();
    }
    while i < count
        invariant
            i <= count,
            count == outputs.names().len(),
            outputs.names().no_duplicates(),
            forall|name: Seq<char>| outputs@.contains_key(name) <==> outputs.names().contains(name),
            forall|name: Seq<char>|
                result@.contains_key(name) <==> exists|j: int|
                    0 <= j < i && #[trigger] outputs.names()[j] == name,
            forall|name: Seq<char>|
                result@.contains_key(name) ==> #[trigger] result@[name] == merged(
                    outputs@,
                    registers@,
                )[name],
        decreases count - i,
    {
        match outputs.entry(i) {
            Some((name, collection)) => {
                let mut value = copy_rows(collection);
                assert(value.deep_view() =~= collection.deep_view()) by {
                    assert forall|j: int| 0 <= j < value@.len() implies value.deep_view()[j]
                        == collection.deep_view()[j] by {
                        assert(value@[j].deep_view() =~= collection@[j].deep_view());
                    }
                }
                match registers.get(name.as_str()) {
                    Some(register) => {
                        if register.len() > 0 {
                            let ghost before = value.deep_view();
                            let run = copy_vec(register);
                            assert(run.deep_view() =~= register.deep_view());
                            value.push(run);
                            assert(value.deep_view() =~= before.push(register.deep_view()));
                        }
                    },
                    None => {},
                }
                let ghost earlier = result@;
                result.insert(name.clone(), value);
                proof {
                    assert(outputs.names()[i as int] == name@);
                    assert forall|other: Seq<char>|
                        result@.contains_key(other) <==> exists|j: int|
                            0 <= j < i + 1 && #[trigger] outputs.names()[j] == other by {
                        if earlier.contains_key(other) {
                            let j = choose|j: int|
                                0 <= j < i && #[trigger] outputs.names()[j] == other;
                            assert(0 <= j < i + 1 && outputs.names()[j] == other);
                        }
                    }
                }
            },
            None => {},
        }
        i += 1;
    }
    proof {
        assert forall|name: Seq<char>| result@.contains_key(name) <==> outputs@.contains_key(
            name,
        ) by {
            if outputs@.contains_key(name) {
                assert(outputs.names().contains(name));
                let j = outputs.names().index_of(name);
                assert(0 <= j < count && outputs.names()[j] == name);
            }
            if result@.contains_key(name) {
                let j = choose|j: int| 0 <= j < i && #[trigger] outputs.names()[j] == name;
                assert(outputs.names().contains(name));
            }
        }
        assert(result@ =~= merged(outputs@, registers@));
    }
    result
}

/// The output registers of real numbers that the circuit declares, all of
/// them empty.
pub fn declared_real_outputs(circuit: &Vec<Operation>) -> (r: RegisterMap<Vec<Vec<Real>>>)
    ensures
        r@ == real_outputs(circuit@),
{
    let mut result: RegisterMap<Vec<Vec<Real>>> = RegisterMap::new();
    let mut i: usize = 0;
    while i < circuit.len()
        invariant
            i <= circuit@.len(),
            result@ =~= real_outputs(circuit@.take(i as int)),
        decreases circuit@.len() - i,
    {
        let ghost earlier = circuit@.take(i as int);
        let ghost later = circuit@.take(i + 1);
        match &circuit[i] {
            Operation::DefinitionFloat { name, is_output } => {
                if *is_output {
                    let collection: Vec<Vec<Real>> = Vec::new();
                    assert(collection.deep_view() =~= Seq::<Seq<Real>>::empty());
                    result.insert(name.clone(), collection);
                }
            },
            _ => {},
        }
        proof {
            assert forall|name: Seq<char>| result@.contains_key(name) <==> declares_real_output(
                later,
                name,
            ) by {
                if declares_real_output(later, name) {
                    let j = choose|j: int|
                        0 <= j < later.len() && (#[trigger] later[j]).is_real_output(name);
                    if j < i {
                        assert(earlier[j] == later[j]);
                        assert(declares_real_output(earlier, name));
                    }
                }
                if declares_real_output(earlier, name) {
                    let j = choose|j: int|
                        0 <= j < earlier.len() && (#[trigger] earlier[j]).is_real_output(name);
                    assert(later[j] == earlier[j]);
                    assert(declares_real_output(later, name));
                }
                if result@.contains_key(name) && !declares_real_output(earlier, name) {
                    assert(later[i as int] == circuit@[i as int]);
                    assert(declares_real_output(later, name));
                }
            }
            assert(result@ =~= real_outputs(later));
        }
        i += 1;
    }
    proof {
        assert(circuit@.take(circuit@.len() as int) =~= circuit@);
    }
    result
}

/// A backend that answers for a given number of qubits.
#[derive(Debug, Clone, PartialEq)]
pub struct Backend {
    number_qubits: usize,
}

impl Backend {
    /// The number of qubits of the backend.
    pub closed spec fn spec_number_qubits(&self) -> usize {
        self.number_qubits
    }

    /// A backend for `number_qubits` qubits.
    pub fn new(number_qubits: usize) -> (r: Self)
        ensures
            r.spec_number_qubits() == number_qubits,
    {
        Self { number_qubits }
    }

    /// The number of qubits of the backend.
    #[verifier::when_used_as_spec(spec_number_qubits)]
    pub fn number_qubits(&self) -> (r: usize)
        ensures
            r == self.spec_number_qubits(),
    {
        self.number_qubits
    }

    /// Runs the circuit once, from an empty register store, and returns the
    /// output registers of booleans, of real numbers and of complex numbers.
    ///
    /// A register that is not empty at the end of the run is appended, as
    /// one entry, to the output register of the same name. What a repeated
    /// measurement or a density matrix has written into an output register
    /// stays as it is. The first operation that the backend does not support
    /// ends the run with its error.
    pub fn run_circuit_iterator(&self, circuit: &Vec<Operation>, samples: &Vec<Sample>) -> (r:
        Result<
            (
                RegisterMap<Vec<Vec<bool>>>,
                RegisterMap<Vec<Vec<Real>>>,
                RegisterMap<Vec<Vec<Complex>>>,
            ),
            BackendError,
        >)
        requires
            all_admissible(circuit@, self.spec_number_qubits(), samples@),
        ensures
            match r {
                Ok(outputs) => all_supported(circuit@) && exists|store: RegistersView| #[trigger]
                    runs_to(
                        RegistersView::empty(),
                        circuit@,
                        self.spec_number_qubits(),
                        samples@,
                        store,
                    ) && (outputs.0@, outputs.1@, outputs.2@) == gathered(circuit@, store),
                Err(error) => exists|k: int| #[trigger]
                    first_unsupported(circuit@, k) && circuit@[k].refused_with(error),
            },
    {
        match call_circuit(circuit, Registers::new(), self.number_qubits, samples) {
            Ok(store) => {
                let bit_registers = merge_outputs(&store.bit_output, &store.bit);
                let declared = declared_real_outputs(circuit);
                let float_registers = merge_outputs(&declared, &store.real);
                let complex_registers = merge_outputs(&store.complex_output, &store.complex);
                proof {
                    assert(runs_to(
                        RegistersView::empty(),
                        circuit@,
                        self.spec_number_qubits(),
                        samples@,
                        store@,
                    ));
                }
                Ok((bit_registers, float_registers, complex_registers))
            },
            Err(error) => Err(error),
        }
    }
}

} // verus!
