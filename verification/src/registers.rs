//! The register store: the registers that a circuit declares and fills.

use vstd::prelude::*;
use crate::values::{Real, Complex};
use crate::register_map::RegisterMap;
use crate::operation::Operation;
use crate::synthesis::Synthesized;

verus! {

/// The registers of one pass over a circuit, by kind and name.
///
/// A register holds the values of one run. An output register holds a
/// collection of such values, one entry for each run or repetition.
pub struct Registers {
    /// Registers of booleans.
    pub bit: RegisterMap<Vec<bool>>,
    /// Registers of real numbers.
    pub real: RegisterMap<Vec<Real>>,
    /// Registers of complex numbers.
    pub complex: RegisterMap<Vec<Complex>>,
    /// Output registers of booleans.
    pub bit_output: RegisterMap<Vec<Vec<bool>>>,
    /// Output registers of complex numbers.
    pub complex_output: RegisterMap<Vec<Vec<Complex>>>,
}

/// What a register store holds.
pub struct RegistersView {
    pub bit: Map<Seq<char>, Seq<bool>>,
    pub real: Map<Seq<char>, Seq<Real>>,
    pub complex: Map<Seq<char>, Seq<Complex>>,
    pub bit_output: Map<Seq<char>, Seq<Seq<bool>>>,
    pub complex_output: Map<Seq<char>, Seq<Seq<Complex>>>,
}

impl View for Registers {
    type V = RegistersView;

    open spec fn view(&self) -> RegistersView {
        RegistersView {
            bit: self.bit@,
            real: self.real@,
            complex: self.complex@,
            bit_output: self.bit_output@,
            complex_output: self.complex_output@,
        }
    }
}

impl RegistersView {
    /// The store without any register.
    pub open spec fn empty() -> RegistersView {
        RegistersView {
            bit: Map::empty(),
            real: Map::empty(),
            complex: Map::empty(),
            bit_output: Map::empty(),
            complex_output: Map::empty(),
        }
    }

    /// The store after `synthesized` was written under the name `readout`,
    /// in place of what the register of its kind held under that name.
    pub open spec fn filed(self, readout: Seq<char>, synthesized: Synthesized) -> RegistersView {
        match synthesized {
            Synthesized::Nothing => self,
            Synthesized::Bits(bits) => RegistersView {
                bit: self.bit.insert(readout, bits.deep_view()),
                ..self
            },
            Synthesized::Shots(shots) => RegistersView {
                bit_output: self.bit_output.insert(readout, shots.deep_view()),
                ..self
            },
            Synthesized::Reals(reals) => RegistersView {
                real: self.real.insert(readout, reals.deep_view()),
                ..self
            },
            Synthesized::Amplitudes(amplitudes) => RegistersView {
                complex: self.complex.insert(readout, amplitudes.deep_view()),
                ..self
            },
            Synthesized::Matrix(matrix) => RegistersView {
                complex_output: self.complex_output.insert(readout, matrix.deep_view()),
                ..self
            },
        }
    }

    /// Every output register is empty.
    pub open spec fn outputs_empty(self) -> bool {
        &&& forall|name: Seq<char>|
            self.bit_output.contains_key(name) ==> (#[trigger] self.bit_output[name]).len() == 0
        &&& forall|name: Seq<char>|
            self.complex_output.contains_key(name) ==> (#[trigger] self.complex_output[name]).len()
                == 0
    }
}

/// The store after one operation, `synthesized` being what was made up for
/// it.
///
/// - A declaration puts an empty register under its name, and an empty
///   output register too where it is marked as output. The store has no
///   output registers of real numbers.
/// - A measurement or readout writes what was made up for it under its
///   readout name.
/// - Any other operation leaves the store as it is.
pub open spec fn step(
    store: RegistersView,
    operation: Operation,
    synthesized: Synthesized,
) -> RegistersView {
    match operation {
        Operation::DefinitionBit { name, is_output } => RegistersView {
            bit: store.bit.insert(name@, Seq::empty()),
            bit_output: if is_output {
                store.bit_output.insert(name@, Seq::empty())
            } else {
                store.bit_output
            },
            ..store
        },
        Operation::DefinitionFloat { name, .. } => RegistersView {
            real: store.real.insert(name@, Seq::empty()),
            ..store
        },
        Operation::DefinitionComplex { name, is_output } => RegistersView {
            complex: store.complex.insert(name@, Seq::empty()),
            complex_output: if is_output {
                store.complex_output.insert(name@, Seq::empty())
            } else {
                store.complex_output
            },
            ..store
        },
        Operation::MeasureQubit { readout } => store.filed(readout@, synthesized),
        Operation::PragmaRepeatedMeasurement { readout, .. } => store.filed(readout@, synthesized),
        Operation::PragmaGetPauliProduct { readout } => store.filed(readout@, synthesized),
        Operation::PragmaGetOccupationProbability { readout } => store.filed(
            readout@,
            synthesized,
        ),
        Operation::PragmaGetStateVector { readout } => store.filed(readout@, synthesized),
        Operation::PragmaGetDensityMatrix { readout } => store.filed(readout@, synthesized),
        Operation::Other { .. } => store,
    }
}

impl Registers {
    /// A store without any register.
    pub fn new() -> (r: Registers)
        ensures
            r@ == RegistersView::empty(),
    {
        Registers {
            bit: RegisterMap::new(),
            real: RegisterMap::new(),
            complex: RegisterMap::new(),
            bit_output: RegisterMap::new(),
            complex_output: RegisterMap::new(),
        }
    }

    /// Writes `synthesized` under the name `readout`.
    pub fn file(self, readout: &String, synthesized: Synthesized) -> (r: Registers)
        ensures
            r@ == self@.filed(readout@, synthesized),
    {
        let mut store = self;
        match synthesized {
            Synthesized::Nothing => {},
            Synthesized::Bits(bits) => {
                store.bit.insert(readout.clone(), bits);
            },
            Synthesized::Shots(shots) => {
                store.bit_output.insert(readout.clone(), shots);
            },
            Synthesized::Reals(reals) => {
                store.real.insert(readout.clone(), reals);
            },
            Synthesized::Amplitudes(amplitudes) => {
                store.complex.insert(readout.clone(), amplitudes);
            },
            Synthesized::Matrix(matrix) => {
                store.complex_output.insert(readout.clone(), matrix);
            },
        }
        store
    }

    /// Carries one operation out on the store, `synthesized` being what was
    /// made up for it.
    pub fn record(self, operation: &Operation, synthesized: Synthesized) -> (r: Registers)
        ensures
            r@ == step(self@, *operation, synthesized),
    {
        let mut store = self;
        match operation {
            Operation::DefinitionBit { name, is_output } => {
                let register: Vec<bool> = Vec::new();
                assert(register.deep_view() =~= Seq::<bool>::empty());
                store.bit.insert(name.clone(), register);
                if *is_output {
                    let collection: Vec<Vec<bool>> = Vec::new();
                    assert(collection.deep_view() =~= Seq::<Seq<bool>>::empty());
                    store.bit_output.insert(name.clone(), collection);
                }
                store
            },
            Operation::DefinitionFloat { name, .. } => {
                let register: Vec<Real> = Vec::new();
                assert(register.deep_view() =~= Seq::<Real>::empty());
                store.real.insert(name.clone(), register);
                store
            },
            Operation::DefinitionComplex { name, is_output } => {
                let register: Vec<Complex> = Vec::new();
                assert(register.deep_view() =~= Seq::<Complex>::empty());
                store.complex.insert(name.clone(), register);
                if *is_output {
                    let collection: Vec<Vec<Complex>> = Vec::new();
                    assert(collection.deep_view() =~= Seq::<Seq<Complex>>::empty());
                    store.complex_output.insert(name.clone(), collection);
                }
                store
            },
            Operation::MeasureQubit { readout } => store.file(readout, synthesized),
            Operation::PragmaRepeatedMeasurement { readout, .. } => store.file(
                readout,
                synthesized,
            ),
            Operation::PragmaGetPauliProduct { readout } => store.file(readout, synthesized),
            Operation::PragmaGetOccupationProbability { readout } => store.file(
                readout,
                synthesized,
            ),
            Operation::PragmaGetStateVector { readout } => store.file(readout, synthesized),
            Operation::PragmaGetDensityMatrix { readout } => store.file(readout, synthesized),
            Operation::Other { .. } => store,
        }
    }
}

} // verus!
