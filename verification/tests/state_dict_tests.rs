use aqlm::state_dict::{
    get_f32_data, get_i8_data, get_matrix, get_u8_data, get_url_by_name, loading_schedule,
    read_owned_tensor, should_retry_fetch, Dtype, LoadStep,
};
use aqlm::error::EngineError;
use safetensors::tensor::TensorView;

fn f32_file(name: &str, shape: Vec<usize>, values: &[f32]) -> Vec<u8> {
    let bytes: Vec<u8> = values.iter().flat_map(|v| v.to_le_bytes()).collect();
    let view = TensorView::new(safetensors::Dtype::F32, shape, &bytes).unwrap();
    safetensors::serialize(vec![(name.to_string(), view)], None).unwrap()
}

#[test]
fn test_read_owned_tensor_f32() {
    let values = [1.5f32, -2.25, 0.0, 42.0, 3.25, -0.5];
    let file = f32_file("w", vec![2, 3], &values);
    let tensor = read_owned_tensor(&file).unwrap();
    assert_eq!(tensor.dtype, Dtype::F32);
    assert_eq!(tensor.shape, vec![2, 3]);
    assert_eq!(tensor.data.len(), 24);

    let (cells, shape) = get_f32_data(tensor);
    assert_eq!(shape, vec![2, 3]);
    let expected: Vec<u32> = values.iter().map(|v| v.to_bits()).collect();
    assert_eq!(cells, expected);
}

#[test]
fn test_read_owned_tensor_u8_and_i8() {
    let data: Vec<u8> = vec![0, 1, 255, 128];
    let view = TensorView::new(safetensors::Dtype::U8, vec![4], &data).unwrap();
    let file = safetensors::serialize(vec![("codes".to_string(), view)], None).unwrap();
    let tensor = read_owned_tensor(&file).unwrap();
    assert_eq!(tensor.dtype, Dtype::U8);
    let (bytes, shape) = get_u8_data(tensor);
    assert_eq!(bytes, data);
    assert_eq!(shape, vec![4]);

    let view = TensorView::new(safetensors::Dtype::I8, vec![4], &data).unwrap();
    let file = safetensors::serialize(vec![("w".to_string(), view)], None).unwrap();
    let tensor = read_owned_tensor(&file).unwrap();
    assert_eq!(tensor.dtype, Dtype::I8);
    let (cells, _) = get_i8_data(tensor);
    assert_eq!(cells, vec![0, 1, -1, -128]);
}

#[test]
fn test_read_owned_tensor_rejects_unsupported() {
    // A dtype the engine does not consume.
    let data: Vec<u8> = vec![0; 8];
    let view = TensorView::new(safetensors::Dtype::I32, vec![2], &data).unwrap();
    let file = safetensors::serialize(vec![("w".to_string(), view)], None).unwrap();
    assert_eq!(read_owned_tensor(&file).unwrap_err(), EngineError::ParseFailed);

    // Garbage bytes are a parse failure, not a panic.
    assert_eq!(read_owned_tensor(&[1, 2, 3]).unwrap_err(), EngineError::ParseFailed);
}

#[test]
fn test_read_owned_tensor_rejects_two_tensors() {
    let data: Vec<u8> = vec![0; 4];
    let v1 = TensorView::new(safetensors::Dtype::U8, vec![4], &data).unwrap();
    let v2 = TensorView::new(safetensors::Dtype::U8, vec![4], &data).unwrap();
    let file = safetensors::serialize(
        vec![("a".to_string(), v1), ("b".to_string(), v2)], None).unwrap();
    assert_eq!(read_owned_tensor(&file).unwrap_err(), EngineError::ParseFailed);
}

#[test]
fn test_get_matrix() {
    let values = [1.0f32, 2.0, 3.0, 4.0];
    let file = f32_file("w", vec![2, 2], &values);
    let tensor = read_owned_tensor(&file).unwrap();
    let m = get_matrix(tensor);
    assert_eq!(m.shape(), (2, 2));
    let expected: Vec<u32> = values.iter().map(|v| v.to_bits()).collect();
    assert_eq!(m.data(), &expected);
}

#[test]
fn test_get_url_by_name() {
    let url = get_url_by_name("model.norm.weight.safetensors");
    assert_eq!(
        url,
        "https://huggingface.co/galqiwi/llama-3.1-aqlm-pv-2x8-f32-int8-emb/resolve/main/\
         model.norm.weight.safetensors?download=true",
    );
}

#[test]
fn test_loading_schedule_interleaves() {
    let steps = loading_schedule(4);
    assert_eq!(
        steps,
        vec![
            LoadStep::Block(0),
            LoadStep::Block(1),
            LoadStep::Embedding,
            LoadStep::Norm,
            LoadStep::Head,
            LoadStep::Block(2),
            LoadStep::Block(3),
        ],
    );
}

#[test]
fn test_should_retry_fetch() {
    // The first fetch plus two retries: three attempts in all.
    assert!(should_retry_fetch(1));
    assert!(should_retry_fetch(2));
    assert!(!should_retry_fetch(3));
    assert!(!should_retry_fetch(4));
}
