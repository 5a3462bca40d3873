//! Register maps and the register store.

use roqoqo_mock::operation::{allowed_operations, contains_name};
use roqoqo_mock::{Complex, Operation, Real, RegisterMap, Registers, Synthesized};

#[test]
fn new_map_is_empty() {
    let map: RegisterMap<Vec<bool>> = RegisterMap::new();
    assert!(map.is_empty());
    assert_eq!(map.len(), 0);
    assert!(!map.contains_key("ro"));
    assert!(map.get("ro").is_none());
    assert!(map.entry(0).is_none());
}

#[test]
fn insert_and_get() {
    let mut map: RegisterMap<Vec<bool>> = RegisterMap::new();
    map.insert("a".to_string(), vec![true]);
    map.insert("b".to_string(), vec![false, false]);
    assert!(!map.is_empty());
    assert_eq!(map.len(), 2);
    assert!(map.contains_key("a"));
    assert!(map.contains_key("b"));
    assert!(!map.contains_key("c"));
    assert!(!map.contains_key(""));
    assert_eq!(map.get("a"), Some(&vec![true]));
    assert_eq!(map.get("b"), Some(&vec![false, false]));
    assert_eq!(map.get("ab"), None);
}

#[test]
fn insert_replaces_and_keeps_the_place() {
    let mut map: RegisterMap<Vec<u8>> = RegisterMap::new();
    map.insert("a".to_string(), vec![1]);
    map.insert("b".to_string(), vec![2]);
    map.insert("c".to_string(), vec![3]);
    map.insert("b".to_string(), vec![4, 5]);
    assert_eq!(map.len(), 3);
    assert_eq!(map.get("b"), Some(&vec![4, 5]));
    assert_eq!(map.entry(0), Some((&"a".to_string(), &vec![1])));
    assert_eq!(map.entry(1), Some((&"b".to_string(), &vec![4, 5])));
    assert_eq!(map.entry(2), Some((&"c".to_string(), &vec![3])));
    assert_eq!(map.entry(3), None);
}

#[test]
fn names_are_told_apart_exactly() {
    let mut map: RegisterMap<Vec<u8>> = RegisterMap::new();
    map.insert("ro".to_string(), vec![1]);
    map.insert("Ro".to_string(), vec![2]);
    map.insert("ro ".to_string(), vec![3]);
    map.insert("".to_string(), vec![4]);
    assert_eq!(map.len(), 4);
    assert_eq!(map.get("ro"), Some(&vec![1]));
    assert_eq!(map.get("Ro"), Some(&vec![2]));
    assert_eq!(map.get("ro "), Some(&vec![3]));
    assert_eq!(map.get(""), Some(&vec![4]));
}

#[test]
fn new_store_is_empty() {
    let store = Registers::new();
    assert!(store.bit.is_empty());
    assert!(store.real.is_empty());
    assert!(store.complex.is_empty());
    assert!(store.bit_output.is_empty());
    assert!(store.complex_output.is_empty());
}

#[test]
fn file_writes_into_the_register_of_its_kind() {
    let name = "ro".to_string();
    let half = Real {
        bits: 0.5_f64.to_bits(),
    };
    let store = Registers::new();
    let store = store.file(&name, Synthesized::Bits(vec![true]));
    let store = store.file(&name, Synthesized::Shots(vec![vec![true], vec![false]]));
    let store = store.file(&name, Synthesized::Reals(vec![half]));
    let store = store.file(&name, Synthesized::Amplitudes(vec![Complex::one()]));
    let store = store.file(&name, Synthesized::Matrix(vec![vec![Complex::zero()]]));
    let store = store.file(&"none".to_string(), Synthesized::Nothing);
    assert_eq!(store.bit.get("ro"), Some(&vec![true]));
    assert_eq!(store.bit_output.get("ro"), Some(&vec![vec![true], vec![false]]));
    assert_eq!(store.real.get("ro"), Some(&vec![half]));
    assert_eq!(store.complex.get("ro"), Some(&vec![Complex::one()]));
    assert_eq!(
        store.complex_output.get("ro"),
        Some(&vec![vec![Complex::zero()]])
    );
    assert_eq!(store.bit.len(), 1);
    assert_eq!(store.bit_output.len(), 1);
    assert_eq!(store.real.len(), 1);
    assert_eq!(store.complex.len(), 1);
    assert_eq!(store.complex_output.len(), 1);
}

#[test]
fn record_follows_the_operation() {
    let store = Registers::new();
    let measure = Operation::MeasureQubit {
        readout: "m".to_string(),
    };
    let store = store.record(&measure, Synthesized::Bits(vec![false]));
    assert_eq!(store.bit.get("m"), Some(&vec![false]));

    let repeated = Operation::PragmaRepeatedMeasurement {
        readout: "m".to_string(),
        number_measurements: 2,
    };
    let shots = vec![vec![true, false], vec![false, false]];
    let store = store.record(&repeated, Synthesized::Shots(shots.clone()));
    assert_eq!(store.bit_output.get("m"), Some(&shots));
    assert_eq!(store.bit.get("m"), Some(&vec![false]));

    let declare = Operation::DefinitionBit {
        name: "m".to_string(),
        is_output: false,
    };
    let store = store.record(&declare, Synthesized::Nothing);
    assert_eq!(store.bit.get("m"), Some(&vec![]));
    assert_eq!(store.bit_output.get("m"), Some(&shots));

    let declare = Operation::DefinitionBit {
        name: "m".to_string(),
        is_output: true,
    };
    let store = store.record(&declare, Synthesized::Nothing);
    assert_eq!(store.bit_output.get("m"), Some(&vec![]));

    let gate = Operation::Other {
        hqslang: "Hadamard".to_string(),
        tags: vec!["GateOperation".to_string()],
    };
    let store = store.record(&gate, Synthesized::Nothing);
    assert_eq!(store.bit.len(), 1);
    assert_eq!(store.bit_output.len(), 1);
    assert!(store.real.is_empty());
    assert!(store.complex.is_empty());
    assert!(store.complex_output.is_empty());
}

#[test]
fn allowed_operations_are_fourteen_pragmas() {
    let names = allowed_operations();
    assert_eq!(names.len(), 14);
    assert_eq!(names[0], "PragmaSetNumberOfMeasurements");
    assert_eq!(names[13], "PragmaGlobalPhase");
    assert!(names.contains(&"PragmaStop"));
    assert!(names.iter().all(|name| name.starts_with("Pragma")));
}

#[test]
fn contains_name_compares_whole_names() {
    let tags = vec!["Operation".to_string(), "GateOperation".to_string()];
    assert!(contains_name(&tags, "GateOperation"));
    assert!(contains_name(&tags, "Operation"));
    assert!(!contains_name(&tags, "Gate"));
    assert!(!contains_name(&tags, "Definition"));
    assert!(!contains_name(&vec![], "Definition"));
}

#[test]
fn error_for_an_operation_names_it() {
    let error = Operation::not_supported(&"PragmaLoop".to_string());
    assert_eq!(
        error,
        roqoqo_mock::BackendError::OperationNotInBackend {
            backend: "Mock".to_string(),
            hqslang: "PragmaLoop".to_string(),
        }
    );
}
