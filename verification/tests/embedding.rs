use pr_dedupe::embedding::Bert;
use pr_dedupe::embedding::EmbedError;
use pr_dedupe::embedding::EmbeddingResponse;
use pr_dedupe::embedding::generate_embeddings;

fn tiny_bert() -> Bert {
    let device = candle_core::Device::Cpu;
    let config_json = "{\
        \"vocab_size\":10,\
        \"hidden_size\":8,\
        \"num_hidden_layers\":1,\
        \"num_attention_heads\":2,\
        \"intermediate_size\":16,\
        \"hidden_act\":\"gelu\",\
        \"hidden_dropout_prob\":0.0,\
        \"max_position_embeddings\":64,\
        \"type_vocab_size\":2,\
        \"initializer_range\":0.02,\
        \"layer_norm_eps\":1e-12,\
        \"pad_token_id\":0,\
        \"position_embedding_type\":\"absolute\",\
        \"use_cache\":true,\
        \"classifier_dropout\":null,\
        \"model_type\":\"bert\"}";
    let config: candle_transformers::models::bert::Config =
        serde_json::from_str(config_json).unwrap();
    let vb = candle_nn::VarBuilder::zeros(candle_core::DType::F32, &device);
    let model = candle_transformers::models::bert::BertModel::load(vb, &config).unwrap();
    let tokenizer_json = "{\
        \"version\":\"1.0\",\
        \"truncation\":null,\
        \"padding\":null,\
        \"added_tokens\":[],\
        \"normalizer\":null,\
        \"pre_tokenizer\":{\"type\":\"Whitespace\"},\
        \"post_processor\":null,\
        \"decoder\":null,\
        \"model\":{\"type\":\"WordLevel\",\
            \"vocab\":{\"[UNK]\":0,\"hello\":1,\"world\":2,\"goodbye\":3},\
            \"unk_token\":\"[UNK]\"}}";
    let tokenizer: tokenizers::Tokenizer = tokenizer_json.parse().unwrap();
    Bert::from_parts(model, tokenizer)
}

#[test]
fn embedding_before_loading_fails_as_uninitialized() {
    let mut bert = Bert::new();
    let prompts = vec!["hello world".to_string()];
    match bert.generate_embeddings(&prompts) {
        Err(EmbedError::Uninitialized) => {}
        _ => panic!("an unloaded encoder must refuse to embed"),
    }
}

#[test]
fn default_response_is_empty_and_has_no_embedding() {
    let response = EmbeddingResponse::default();
    assert!(matches!(response, EmbeddingResponse::Empty));
    assert!(response.to_vec().is_err());
    assert!(response.to_vec2().is_err());
    assert!(response.to_tensor().is_none());
}

#[test]
fn pooling_averages_over_tokens_then_over_chunks() {
    let device = candle_core::Device::Cpu;
    let rows = [
        [[1f32, 2., 3., 4.], [5., 6., 7., 8.]],
        [[1., 1., 1., 1.], [3., 3., 3., 3.]],
    ];
    let t = candle_core::Tensor::new(&rows, &device).unwrap();
    let response = EmbeddingResponse::Bert(t);

    let per_chunk = response.to_vec2().unwrap();
    assert_eq!(per_chunk.dims(), &[2, 4]);
    let v = per_chunk.to_vec2::<f32>().unwrap();
    assert_eq!(v[0], vec![3.0, 4.0, 5.0, 6.0]);
    assert_eq!(v[1], vec![2.0, 2.0, 2.0, 2.0]);

    let aggregated = response.to_vec().unwrap();
    assert_eq!(aggregated.dims(), &[4]);
    assert_eq!(aggregated.to_vec1::<f32>().unwrap(), vec![2.5, 3.0, 3.5, 4.0]);
}

#[test]
fn to_tensor_hands_back_the_stacked_tensor() {
    let device = candle_core::Device::Cpu;
    let t = candle_core::Tensor::zeros((2, 3, 4), candle_core::DType::F32, &device).unwrap();
    let response = EmbeddingResponse::Bert(t);
    let raw = response.to_tensor().unwrap();
    assert_eq!(raw.dims(), &[2, 3, 4]);
}

#[test]
fn batch_embeddings_carry_one_row_per_chunk() {
    let mut bert = tiny_bert();
    let prompts = vec!["hello world".to_string(), "goodbye world".to_string()];
    let response = bert.generate_embeddings(&prompts).unwrap();
    let per_chunk = response.to_vec2().unwrap();
    assert_eq!(per_chunk.dims(), &[2, 8]);
    let single = response.to_vec().unwrap();
    assert_eq!(single.dims(), &[8]);
}

#[test]
fn embedding_a_blob_yields_one_hidden_width_vector() {
    let mut bert = tiny_bert();
    let vector = generate_embeddings(&mut bert, "hello world", 384).unwrap();
    assert_eq!(vector.dims(), &[8]);
}

#[test]
fn embedding_twice_yields_the_same_vector() {
    let mut bert = tiny_bert();
    let first = generate_embeddings(&mut bert, "hello world goodbye", 384).unwrap();
    let second = generate_embeddings(&mut bert, "hello world goodbye", 384).unwrap();
    assert_eq!(
        first.to_vec1::<f32>().unwrap(),
        second.to_vec1::<f32>().unwrap()
    );
}

#[test]
fn an_out_of_vocabulary_id_is_an_inference_error() {
    let device = candle_core::Device::Cpu;
    let config_json = "{\
        \"vocab_size\":10,\
        \"hidden_size\":8,\
        \"num_hidden_layers\":1,\
        \"num_attention_heads\":2,\
        \"intermediate_size\":16,\
        \"hidden_act\":\"gelu\",\
        \"hidden_dropout_prob\":0.0,\
        \"max_position_embeddings\":64,\
        \"type_vocab_size\":2,\
        \"initializer_range\":0.02,\
        \"layer_norm_eps\":1e-12,\
        \"pad_token_id\":0,\
        \"position_embedding_type\":\"absolute\",\
        \"use_cache\":true,\
        \"classifier_dropout\":null,\
        \"model_type\":\"bert\"}";
    let config: candle_transformers::models::bert::Config =
        serde_json::from_str(config_json).unwrap();
    let vb = candle_nn::VarBuilder::zeros(candle_core::DType::F32, &device);
    let model = candle_transformers::models::bert::BertModel::load(vb, &config).unwrap();
    // one word maps far outside the model's vocabulary
    let tokenizer_json = "{\
        \"version\":\"1.0\",\
        \"truncation\":null,\
        \"padding\":null,\
        \"added_tokens\":[],\
        \"normalizer\":null,\
        \"pre_tokenizer\":{\"type\":\"Whitespace\"},\
        \"post_processor\":null,\
        \"decoder\":null,\
        \"model\":{\"type\":\"WordLevel\",\
            \"vocab\":{\"[UNK]\":0,\"overflow\":99},\
            \"unk_token\":\"[UNK]\"}}";
    let tokenizer: tokenizers::Tokenizer = tokenizer_json.parse().unwrap();
    let mut bert = Bert::from_parts(model, tokenizer);
    let prompts = vec!["overflow".to_string()];
    match bert.generate_embeddings(&prompts) {
        Err(EmbedError::Inference { .. }) => {}
        other => panic!("expected an inference error, got {:?}", other.map(|_| ())),
    }
}
