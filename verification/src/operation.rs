//! The operations of a circuit, as far as this backend reads them.

use vstd::prelude::*;

verus! {

/// One operation of a circuit.
///
/// The declarations, the measurement and the readouts that the backend acts
/// on have a variant each, with the fields it reads. Every other operation is
/// `Other`, with its symbolic name and its tags.
#[derive(Debug, Clone, PartialEq, Eq)]
pub enum Operation {
    /// Declares a register of booleans.
    DefinitionBit { name: String, is_output: bool },
    /// Declares a register of real numbers.
    DefinitionFloat { name: String, is_output: bool },
    /// Declares a register of complex numbers.
    DefinitionComplex { name: String, is_output: bool },
    /// Measures one qubit once.
    MeasureQubit { readout: String },
    /// Measures all qubits `number_measurements` times.
    PragmaRepeatedMeasurement { readout: String, number_measurements: usize },
    /// Reads out the expectation value of a product of Pauli operators.
    PragmaGetPauliProduct { readout: String },
    /// Reads out the probability of each qubit to be occupied.
    PragmaGetOccupationProbability { readout: String },
    /// Reads out the state vector.
    PragmaGetStateVector { readout: String },
    /// Reads out the density matrix.
    PragmaGetDensityMatrix { readout: String },
    /// Any other operation.
    Other { hqslang: String, tags: Vec<String> },
}

/// The reason for which the backend gives up.
#[derive(Debug, Clone, PartialEq, Eq)]
pub enum BackendError {
    /// The backend does not know the operation with this symbolic name.
    OperationNotInBackend { backend: String, hqslang: String },
}

impl BackendError {
    /// The error that the backend `"Mock"` returns for the operation with
    /// the symbolic name `hqslang`.
    pub open spec fn rejects(self, hqslang: Seq<char>) -> bool {
        match self {
            BackendError::OperationNotInBackend { backend, hqslang: name } => backend@ == "Mock"@
                && name@ == hqslang,
        }
    }
}

/// The symbolic names of the pragmas that the backend passes over.
pub open spec fn allowed_names() -> Seq<Seq<char>> {
    seq![
        "PragmaSetNumberOfMeasurements"@,
        "PragmaSetStateVector"@,
        "PragmaSetDensityMatrix"@,
        "PragmaNoise"@,
        "PragmaDamping"@,
        "PragmaDepolarise"@,
        "PragmaDephasing"@,
        "PragmaRandomNoise"@,
        "PragmaRepeatGate"@,
        "PragmaBoostNoise"@,
        "PragmaOverrotation"@,
        "PragmaStop"@,
        "PragmaSleep"@,
        "PragmaGlobalPhase"@,
    ]
}

/// The symbolic names of the pragmas that the backend passes over.
pub fn allowed_operations() -> (names: Vec<&'static str>)
    ensures
        names.deep_view() == allowed_names(),
{
    let names = vec![
        "PragmaSetNumberOfMeasurements",
        "PragmaSetStateVector",
        "PragmaSetDensityMatrix",
        "PragmaNoise",
        "PragmaDamping",
        "PragmaDepolarise",
        "PragmaDephasing",
        "PragmaRandomNoise",
        "PragmaRepeatGate",
        "PragmaBoostNoise",
        "PragmaOverrotation",
        "PragmaStop",
        "PragmaSleep",
        "PragmaGlobalPhase",
    ];
    assert(names.deep_view() =~= allowed_names());
    names
}

/// Tells whether `name` is among `names`.
pub fn contains_name(names: &Vec<String>, name: &str) -> (r: bool)
    ensures
        r == names.deep_view().contains(name@),
{
    let key = name.to_owned();
    let mut i: usize = 0;
    while i < names.len()
        invariant
            i <= names@.len(),
            key@ == name@,
            forall|j: int| 0 <= j < i ==> (#[trigger] names@[j])@ != name@,
        decreases names@.len() - i,
    {
        if names[i] == key {
            assert(names.deep_view()[i as int] == name@);
            return true;
        }
        i += 1;
    }
    assert forall|j: int| 0 <= j < names.deep_view().len() implies names.deep_view()[j]
        != name@ by {
        assert(names@[j]@ != name@);
    }
    false
}

impl Operation {
    /// The backend carries the operation out or passes over it: it is one of
    /// the named variants, or its name is allowed, or it is tagged as a gate
    /// or as a definition.
    pub open spec fn is_supported(self) -> bool {
        match self {
            Operation::Other { hqslang, tags } => allowed_names().contains(hqslang@)
                || tags.deep_view().contains("GateOperation"@) || tags.deep_view().contains(
                "Definition"@,
            ),
            _ => true,
        }
    }

    /// Tells whether the backend carries the operation out or passes over
    /// it.
    pub fn supported(&self) -> (r: bool)
        ensures
            r == self.is_supported(),
    {
        match self {
            Operation::Other { hqslang, tags } => {
                let allowed = allowed_operations();
                let mut named = false;
                let mut i: usize = 0;
                while i < allowed.len()
                    invariant
                        i <= allowed@.len(),
                        allowed.deep_view() == allowed_names(),
                        named == exists|j: int| 0 <= j < i && allowed_names()[j] == hqslang@,
                    decreases allowed@.len() - i,
                {
                    let candidate = allowed[i].to_owned();
                    assert(candidate@ == allowed.deep_view()[i as int]);
                    if candidate == *hqslang {
                        named = true;
                    }
                    i += 1;
                }
                named || contains_name(tags, "GateOperation") || contains_name(tags, "Definition")
            },
            _ => true,
        }
    }

    /// The error with which the backend refuses the operation.
    pub fn not_supported(hqslang: &String) -> (e: BackendError)
        ensures
            e.rejects(hqslang@),
    {
        BackendError::OperationNotInBackend { backend: "Mock".to_owned(), hqslang: hqslang.clone() }
    }
}

} // verus!
