use vecgraph::embed::{
    base_vector_mode, check_arithmetic_dimensions, check_batch_len, last_attended_index, pooling_rows, row_span,
    BaseVectorMode,
};
use vecgraph::{
    EnrichmentResult, InputTensorNames, MatryoshkaMode, Model2VecEmbedderSettings, PoolingStrategy, PrefixMode,
    VecGraphError,
};

#[test]
fn arithmetic_dimensions_all_match() {
    assert!(check_arithmetic_dimensions(3, 3, &[3, 3], &[3]).is_ok());
    assert!(check_arithmetic_dimensions(0, 0, &[], &[]).is_ok());
}

#[test]
fn arithmetic_reports_the_first_mismatch() {
    match check_arithmetic_dimensions(3, 2, &[4], &[5]) {
        Err(VecGraphError::DimensionMismatch { expected: 3, got: 2 }) => {}
        other => panic!("{:?}", other),
    }
    match check_arithmetic_dimensions(3, 3, &[3, 4, 6], &[5]) {
        Err(VecGraphError::DimensionMismatch { expected: 3, got: 4 }) => {}
        other => panic!("{:?}", other),
    }
    match check_arithmetic_dimensions(3, 3, &[3], &[3, 1]) {
        Err(VecGraphError::DimensionMismatch { expected: 3, got: 1 }) => {}
        other => panic!("{:?}", other),
    }
}

#[test]
fn base_vector_modes() {
    assert!(matches!(base_vector_mode(0, false), Err(VecGraphError::EmptyQuery)));
    assert_eq!(base_vector_mode(0, true).unwrap(), BaseVectorMode::TextOnly);
    assert_eq!(base_vector_mode(2, false).unwrap(), BaseVectorMode::NamedOnly);
    assert_eq!(base_vector_mode(1, true).unwrap(), BaseVectorMode::Blend);
}

#[test]
fn batch_length_check() {
    assert!(check_batch_len(3, 3).is_ok());
    match check_batch_len(2, 3) {
        Err(VecGraphError::EmbedderError(msg)) => assert_eq!(msg, "Batch size mismatch: got 2, expected 3"),
        other => panic!("{:?}", other),
    }
}

#[test]
fn model2vec_default_settings() {
    let s = Model2VecEmbedderSettings::default();
    assert_eq!(s.model_path, "");
    assert!(s.normalize);
    assert_eq!(s.max_length, None);
    assert_eq!(s.batch_size, 1024);
}

#[test]
fn input_tensor_names_default() {
    let n = InputTensorNames::default().clone();
    assert_eq!(n.input_ids, "input_ids");
    assert_eq!(n.attention_mask, "attention_mask");
    assert_eq!(n.token_type_ids, None);
}

#[test]
fn prefixes() {
    assert_eq!(PrefixMode::NoPrefix.document_text("t"), "t");
    assert_eq!(PrefixMode::NoPrefix.query_text("t"), "t");
    let s = PrefixMode::Symmetric("p: ".to_string());
    assert_eq!(s.document_text("t"), "p: t");
    assert_eq!(s.query_text("t"), "p: t");
    let a = PrefixMode::Asymmetric { document: "passage: ".to_string(), query: "query: ".to_string() };
    assert_eq!(a.document_text("t"), "passage: t");
    assert_eq!(a.query_text("t"), "query: t");
}

#[test]
fn matryoshka_dimensions() {
    assert_eq!(MatryoshkaMode::Off.output_dim(768), 768);
    assert_eq!(MatryoshkaMode::Truncate { dim: 256 }.output_dim(768), 256);
    assert_eq!(MatryoshkaMode::LayerNormThenTruncate { dim: 128 }.output_dim(768), 128);
}

#[test]
fn last_attended_token() {
    assert_eq!(last_attended_index(&[1, 1, 1, 0, 0], 5), 2);
    assert_eq!(last_attended_index(&[1, 1, 1], 3), 2);
    assert_eq!(last_attended_index(&[0, 0], 2), 1);
    assert_eq!(last_attended_index(&[], 4), 3);
}

#[test]
fn enrichment_result() {
    let r = EnrichmentResult::new("bio".to_string(), "text".to_string());
    assert_eq!(r.edge_kind, "bio");
    assert_eq!(r.text, "text");
}

#[test]
fn pooling_reads_rows() {
    assert_eq!(pooling_rows(PoolingStrategy::CLS, &[1, 1, 0], 3), vec![0]);
    assert_eq!(pooling_rows(PoolingStrategy::Mean, &[1, 0, 1, 0], 4), vec![0, 2]);
    assert_eq!(pooling_rows(PoolingStrategy::Last, &[1, 1, 0], 3), vec![1]);
    assert!(pooling_rows(PoolingStrategy::Mean, &[], 0).is_empty());
}

#[test]
fn row_spans() {
    assert_eq!(row_span(0, 4, 12), Some((0, 4)));
    assert_eq!(row_span(2, 4, 12), Some((8, 12)));
    assert_eq!(row_span(3, 4, 12), None);
    assert_eq!(row_span(usize::MAX, 2, 12), None);
    assert_eq!(row_span(5, 0, 0), Some((0, 0)));
}
