use rtorch::serialization::ModelState;
use rtorch::Tensor;

fn bits(v: Vec<f32>) -> Vec<u32> {
    v.into_iter().map(|x| x.to_bits()).collect()
}

fn floats(v: Vec<u32>) -> Vec<f32> {
    v.into_iter().map(f32::from_bits).collect()
}

#[test]
fn test_model_state_creation() {
    let mut state = ModelState::new();
    assert_eq!(state.num_parameters(), 0);

    let tensor = Tensor::from_array_1d(bits(vec![1.0, 2.0, 3.0]));
    state.add_parameter("weight".to_string(), tensor);

    assert_eq!(state.num_parameters(), 1);
    assert!(state.get_parameter("weight").is_some());
    assert!(state.get_parameter("bias").is_none());
}

#[test]
fn test_model_state_metadata() {
    let mut state = ModelState::new();

    state.add_metadata("model_type".to_string(), "linear".to_string());
    state.add_metadata("version".to_string(), "1.0".to_string());

    assert_eq!(state.get_metadata("model_type"), Some(&"linear".to_string()));
    assert_eq!(state.get_metadata("version"), Some(&"1.0".to_string()));
    assert_eq!(state.get_metadata("nonexistent"), None);
}

#[test]
fn test_model_state_parameter_operations() {
    let mut state = ModelState::new();

    let weight = Tensor::from_array_2d(vec![bits(vec![1.0, 2.0]), bits(vec![3.0, 4.0])]);
    let bias = Tensor::from_array_1d(bits(vec![0.1, 0.2]));

    state.add_parameter("weight".to_string(), weight);
    state.add_parameter("bias".to_string(), bias);

    let names = state.parameter_names();
    assert_eq!(names.len(), 2);
    assert!(names.contains(&&"weight".to_string()));
    assert!(names.contains(&&"bias".to_string()));

    let removed = state.remove_parameter("weight");
    assert!(removed.is_some());
    assert_eq!(state.num_parameters(), 1);
}

#[test]
fn test_serialize_parse_roundtrip() {
    let mut original_state = ModelState::new();
    original_state.add_metadata("model_type".to_string(), "test".to_string());

    let weight = Tensor::from_array_2d(vec![
        bits(vec![1.0, 2.0, 3.0]),
        bits(vec![4.0, 5.0, 6.0]),
    ]);
    let bias = Tensor::from_array_1d(bits(vec![0.1, 0.2]));

    original_state.add_parameter("weight".to_string(), weight);
    original_state.add_parameter("bias".to_string(), bias);

    let serialized = original_state.serialize();
    assert!(serialized.is_ok());

    let loaded_state = ModelState::parse(serialized.unwrap().as_slice());
    assert!(loaded_state.is_ok());

    let loaded_state = loaded_state.unwrap();
    assert_eq!(loaded_state.num_parameters(), 2);
    assert_eq!(loaded_state.get_metadata("model_type"), Some(&"test".to_string()));

    let loaded_weight = loaded_state.get_parameter("weight").unwrap();
    assert_eq!(loaded_weight.shape(), vec![2, 3]);
    assert_eq!(floats(loaded_weight.to_list::<u32>()), vec![1.0, 2.0, 3.0, 4.0, 5.0, 6.0]);

    let loaded_bias = loaded_state.get_parameter("bias").unwrap();
    assert_eq!(loaded_bias.shape(), vec![2]);
    assert_eq!(floats(loaded_bias.to_list::<u32>()), vec![0.1, 0.2]);
}

#[test]
fn test_parse_invalid_magic() {
    let result = ModelState::parse(b"INVALID_HEADER");
    match result {
        Ok(_) => panic!("parsing an invalid header must fail"),
        Err(msg) => assert!(msg.contains("Invalid file format")),
    }
}

#[test]
fn test_parse_short_header() {
    let result = ModelState::parse(&[82, 84, 79]);
    assert!(result.is_err());
}

#[test]
fn test_parse_truncated_body() {
    let mut state = ModelState::new();
    state.add_metadata("k".to_string(), "v".to_string());
    let mut bytes = state.serialize().unwrap();
    bytes.truncate(bytes.len() - 1);
    assert!(ModelState::parse(bytes.as_slice()).is_err());
}

#[test]
fn test_parse_invalid_utf8_key() {
    let mut state = ModelState::new();
    state.add_metadata("k".to_string(), "v".to_string());
    let mut bytes = state.serialize().unwrap();
    // Corrupt the key byte (at offset 8 + 4 metadata count + 4 key length).
    bytes[16] = 0xFF;
    assert!(ModelState::parse(bytes.as_slice()).is_err());
}

#[test]
fn test_serialize_parse_empty() {
    let original_state = ModelState::new();
    let serialized = original_state.serialize();
    assert!(serialized.is_ok());

    let loaded_state = ModelState::parse(serialized.unwrap().as_slice());
    assert!(loaded_state.is_ok());
    assert_eq!(loaded_state.unwrap().num_parameters(), 0);
}

#[test]
fn test_serialize_undefined_parameter_fails() {
    let mut state = ModelState::new();
    state.add_parameter("broken".to_string(), Tensor::new());
    assert!(state.serialize().is_err());
}

#[test]
fn test_serialized_header_is_magic() {
    let state = ModelState::new();
    let bytes = state.serialize().unwrap();
    assert_eq!(&bytes[0..8], b"RTORCH01");
}

#[test]
fn test_roundtrip_non_ascii_metadata() {
    let mut state = ModelState::new();
    state.add_metadata("arch\u{e9}type".to_string(), "r\u{e9}seau".to_string());
    let bytes = state.serialize().unwrap();
    let loaded = ModelState::parse(bytes.as_slice()).unwrap();
    assert_eq!(
        loaded.get_metadata("arch\u{e9}type"),
        Some(&"r\u{e9}seau".to_string())
    );
}
