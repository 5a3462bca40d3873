//! The backend behind the measurements of `roqoqo`.

use num_complex::Complex64;
use rand::Rng;
use roqoqo::backends::{EvaluatingBackend, RegisterResult};
use roqoqo::operations::{
    Define, GateOperation, Operate, Operation, PauliX, PauliY, PauliZ, RotateX, RotateZ,
    SingleQubitGateOperation,
};
use roqoqo::RoqoqoBackendError;
use roqoqo_mock::{demand, Backend, Complex, Demand, Real, RegisterMap, Sample};
use roqoqo_test::prepare_monte_carlo_gate_test;
use std::collections::HashMap;

/// The operation as the library reads it.
fn library_operation(operation: &Operation) -> roqoqo_mock::Operation {
    match operation {
        Operation::DefinitionBit(op) => roqoqo_mock::Operation::DefinitionBit {
            name: op.name().clone(),
            is_output: *op.is_output(),
        },
        Operation::DefinitionFloat(op) => roqoqo_mock::Operation::DefinitionFloat {
            name: op.name().clone(),
            is_output: *op.is_output(),
        },
        Operation::DefinitionComplex(op) => roqoqo_mock::Operation::DefinitionComplex {
            name: op.name().clone(),
            is_output: *op.is_output(),
        },
        Operation::MeasureQubit(op) => roqoqo_mock::Operation::MeasureQubit {
            readout: op.readout().clone(),
        },
        Operation::PragmaRepeatedMeasurement(op) => {
            roqoqo_mock::Operation::PragmaRepeatedMeasurement {
                readout: op.readout().clone(),
                number_measurements: *op.number_measurements(),
            }
        }
        Operation::PragmaGetPauliProduct(op) => roqoqo_mock::Operation::PragmaGetPauliProduct {
            readout: op.readout().clone(),
        },
        Operation::PragmaGetOccupationProbability(op) => {
            roqoqo_mock::Operation::PragmaGetOccupationProbability {
                readout: op.readout().clone(),
            }
        }
        Operation::PragmaGetStateVector(op) => roqoqo_mock::Operation::PragmaGetStateVector {
            readout: op.readout().clone(),
        },
        Operation::PragmaGetDensityMatrix(op) => roqoqo_mock::Operation::PragmaGetDensityMatrix {
            readout: op.readout().clone(),
        },
        other => roqoqo_mock::Operation::Other {
            hqslang: other.hqslang().to_string(),
            tags: other.tags().iter().map(|tag| tag.to_string()).collect(),
        },
    }
}

fn as_bits(value: f64) -> Real {
    Real {
        bits: value.to_bits(),
    }
}

fn as_number(value: &Real) -> f64 {
    f64::from_bits(value.bits)
}

/// Draws what the operation asks for.
fn draw_for(operation: &roqoqo_mock::Operation, number_qubits: usize) -> Sample {
    let mut rng = rand::thread_rng();
    let demand = demand(operation, number_qubits).unwrap();
    let sample = match demand {
        Demand::Nothing => Sample::Absent,
        Demand::Reals(count) => Sample::Reals((0..count).map(|_| as_bits(rng.gen())).collect()),
        Demand::Amplitudes(shape) => {
            let drawn: Vec<Complex64> = (0..shape)
                .map(|_| Complex64::new(rng.gen(), rng.gen()))
                .collect();
            let normalise: f64 = drawn.iter().map(|entry| entry.norm_sqr()).sum();
            Sample::Amplitudes(
                drawn
                    .iter()
                    .map(|entry| *entry / normalise)
                    .map(|entry| Complex {
                        re: as_bits(entry.re),
                        im: as_bits(entry.im),
                    })
                    .collect(),
            )
        }
    };
    assert!(sample.meets(&demand));
    sample
}

fn bit_entries(map: &RegisterMap<Vec<Vec<bool>>>) -> HashMap<String, Vec<Vec<bool>>> {
    let mut result = HashMap::new();
    let mut index = 0;
    while let Some((name, value)) = map.entry(index) {
        result.insert(name.clone(), value.clone());
        index += 1;
    }
    result
}

fn float_entries(map: &RegisterMap<Vec<Vec<Real>>>) -> HashMap<String, Vec<Vec<f64>>> {
    let mut result = HashMap::new();
    let mut index = 0;
    while let Some((name, value)) = map.entry(index) {
        let rows = value
            .iter()
            .map(|row| row.iter().map(as_number).collect())
            .collect();
        result.insert(name.clone(), rows);
        index += 1;
    }
    result
}

fn complex_entries(map: &RegisterMap<Vec<Vec<Complex>>>) -> HashMap<String, Vec<Vec<Complex64>>> {
    let mut result = HashMap::new();
    let mut index = 0;
    while let Some((name, value)) = map.entry(index) {
        let rows = value
            .iter()
            .map(|row| {
                row.iter()
                    .map(|entry| Complex64::new(as_number(&entry.re), as_number(&entry.im)))
                    .collect()
            })
            .collect();
        result.insert(name.clone(), rows);
        index += 1;
    }
    result
}

/// The library's backend with the trait of `roqoqo` on it.
struct Mocked(Backend);

impl EvaluatingBackend for Mocked {
    fn run_circuit_iterator<'a>(
        &self,
        circuit: impl Iterator<Item = &'a Operation>,
    ) -> RegisterResult {
        let operations: Vec<&Operation> = circuit.collect();
        let plain: Vec<roqoqo_mock::Operation> = operations
            .iter()
            .map(|operation| library_operation(operation))
            .collect();
        let samples: Vec<Sample> = plain
            .iter()
            .map(|operation| draw_for(operation, self.0.number_qubits()))
            .collect();
        match self.0.run_circuit_iterator(&plain, &samples) {
            Ok((bit, float, complex)) => Ok((
                bit_entries(&bit),
                float_entries(&float),
                complex_entries(&complex),
            )),
            Err(_) => {
                let refused = operations
                    .iter()
                    .zip(plain.iter())
                    .find(|(_, operation)| !operation.supported())
                    .unwrap()
                    .0;
                Err(RoqoqoBackendError::OperationNotInBackend {
                    backend: "Mock",
                    hqslang: refused.hqslang(),
                })
            }
        }
    }
}

/// Simply test measurement process, not that gate is translated correctly
#[test]
fn test_measurement() {
    let gate: GateOperation = PauliZ::new(0).into();
    let preparation_gates: Vec<SingleQubitGateOperation> = vec![PauliX::new(0).into()];
    let basis_rotation_gates: Vec<SingleQubitGateOperation> = vec![PauliY::new(0).into()];
    let (measurement, exp_vals) =
        prepare_monte_carlo_gate_test(gate, preparation_gates, basis_rotation_gates, None, 1, 200);
    let backend = Mocked(Backend::new(1));
    let measured_exp_vals = backend.run_measurement(&measurement).unwrap().unwrap();
    for (key, val) in exp_vals.iter() {
        assert!((val - measured_exp_vals.get(key).unwrap()).abs() <= 2.0);
    }
}

/// Test full gate with stochastic application of gates
#[test]
fn test_full_simple_gate() {
    let gate: GateOperation = PauliX::new(0).into();
    let preparation_gates: Vec<SingleQubitGateOperation> = vec![
        PauliX::new(0).into(),
        PauliY::new(0).into(),
        PauliZ::new(0).into(),
    ];
    let basis_rotation_gates: Vec<SingleQubitGateOperation> = vec![
        PauliX::new(0).into(),
        RotateX::new(0, std::f64::consts::FRAC_PI_2.into()).into(),
        RotateZ::new(0, std::f64::consts::FRAC_PI_2.into()).into(),
    ];
    let (measurement, exp_vals) =
        prepare_monte_carlo_gate_test(gate, preparation_gates, basis_rotation_gates, None, 5, 200);

    let backend = Mocked(Backend::new(1));
    let measured_exp_vals = backend.run_measurement(&measurement).unwrap().unwrap();
    for (key, val) in exp_vals.iter() {
        assert!((val - measured_exp_vals.get(key).unwrap()).abs() <= 2.0);
    }
}

/// An operation that the backend refuses comes back as the error of
/// `roqoqo`, with its name.
#[test]
fn refused_operation_reaches_the_trait() {
    let mut circuit = roqoqo::Circuit::new();
    circuit += PauliX::new(0);
    circuit += roqoqo::operations::PragmaActiveReset::new(0);
    let backend = Mocked(Backend::new(1));
    assert_eq!(
        backend.run_circuit(&circuit),
        Err(RoqoqoBackendError::OperationNotInBackend {
            backend: "Mock",
            hqslang: "PragmaActiveReset",
        })
    );
}
