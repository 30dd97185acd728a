use axiomhive::canonical::{place_bytes, place_id, Placement};
use axiomhive::digest::digest_eq;
use axiomhive::phi_layer::quantized_llm::{
    context_start, ends_generation, SparseActivationEngine, MAX_NEW_TOKENS,
};
use axiomhive::phi_layer::sparse_activation::{
    geodesic_path_optimization, optimize_mask_for_efficiency,
};
use axiomhive::text::{contains_any_literal, contains_any_owned, join3};

#[test]
fn new_engine_has_an_empty_mask() {
    let engine = SparseActivationEngine::new();
    assert_eq!(engine.mask_width(), 0);
    assert_eq!(engine.active_count(), 0);
    assert_eq!(engine.get_active_neurons(), Vec::<usize>::new());
}

#[test]
fn active_neurons_are_the_set_positions_in_order() {
    let mut engine = SparseActivationEngine::new();
    engine.apply_mask(&[false, true, true, false, true]);
    assert_eq!(engine.get_active_neurons(), vec![1, 2, 4]);
    assert_eq!(engine.active_count(), 3);
    assert_eq!(engine.mask_width(), 5);
    engine.apply_mask(&[true]);
    assert_eq!(engine.get_active_neurons(), vec![0]);
    engine.apply_mask(&[false, false]);
    assert_eq!(engine.get_active_neurons(), Vec::<usize>::new());
    assert_eq!(engine.mask_width(), 2);
}

#[test]
fn optimized_mask_keeps_the_first_positions() {
    let mut mask = vec![false, true, false, true, true];
    optimize_mask_for_efficiency(&mut mask, 2);
    assert_eq!(mask, vec![true, true, false, false, false]);
    optimize_mask_for_efficiency(&mut mask, 0);
    assert_eq!(mask, vec![false; 5]);
    optimize_mask_for_efficiency(&mut mask, 9);
    assert_eq!(mask, vec![true; 5]);
    let mut empty: Vec<bool> = Vec::new();
    optimize_mask_for_efficiency(&mut empty, 3);
    assert!(empty.is_empty());
}

#[test]
fn geodesic_optimization_leaves_the_mask() {
    let mut mask = vec![true, false, true];
    geodesic_path_optimization(&mut mask);
    assert_eq!(mask, vec![true, false, true]);
}

#[test]
fn byte_strings_are_placed_lexicographically() {
    assert_eq!(place_bytes(b"", b""), Placement::Same);
    assert_eq!(place_bytes(b"", b"a"), Placement::Before);
    assert_eq!(place_bytes(b"a", b""), Placement::After);
    assert_eq!(place_bytes(b"abc", b"abd"), Placement::Before);
    assert_eq!(place_bytes(b"abd", b"abc"), Placement::After);
    assert_eq!(place_bytes(b"ab", b"abc"), Placement::Before);
    assert_eq!(place_bytes(b"b", b"abc"), Placement::After);
    assert_eq!(place_bytes(&[0xff], &[0x00, 0x01]), Placement::After);
    assert_eq!(place_id("rule", "rule"), Placement::Same);
    assert_eq!(place_id("Z", "a"), Placement::Before);
    assert_eq!(place_id("é", "z"), Placement::After);
}

#[test]
fn digests_are_compared_byte_by_byte() {
    let mut left = [7u8; 32];
    let right = [7u8; 32];
    assert!(digest_eq(&left, &right));
    left[31] = 8;
    assert!(!digest_eq(&left, &right));
    left[31] = 7;
    left[0] = 0;
    assert!(!digest_eq(&left, &right));
}

#[test]
fn phrase_lists_are_searched() {
    assert!(contains_any_literal("take it or leave it", &["stay", "leave"]));
    assert!(!contains_any_literal("take it or leave it", &["stay", "Leave"]));
    assert!(!contains_any_literal("anything", &[]));
    assert!(contains_any_literal("anything", &[""]));
    let owned = vec!["stay".to_string(), "or".to_string()];
    assert!(contains_any_owned("take it or leave it", &owned));
    assert!(!contains_any_owned("", &owned));
}

#[test]
fn three_pieces_are_joined_in_order() {
    assert_eq!(join3("a", " ", "b"), "a b");
    assert_eq!(join3("", "", ""), "");
    assert_eq!(join3("é", "\n\n", ""), "é\n\n");
}

#[test]
fn model_input_is_the_whole_prompt_first_and_one_token_after() {
    assert_eq!(context_start(0, 12), 0);
    assert_eq!(context_start(1, 13), 12);
    assert_eq!(context_start(99, 111), 110);
    assert_eq!(context_start(0, 0), 0);
    assert_eq!(context_start(5, 0), 0);
    assert_eq!(MAX_NEW_TOKENS, 100);
    assert!(ends_generation("the end</s>"));
    assert!(ends_generation("<|endoftext|>"));
    assert!(!ends_generation("<|endoftext"));
    assert!(!ends_generation(""));
}
