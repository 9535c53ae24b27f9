use audio8_runtime::manifest::RuntimeManifest;
use audio8_runtime::sampling::{
    allowed_ids, allowed_logits, argmax, is_compact_layout, keep_mask, pick, rank_order,
    sample_semantic, top_k_indices,
};
use audio8_runtime::timing::{median, steady_state};

fn bits(v: &[f32]) -> Vec<u32> {
    v.iter().map(|x| x.to_bits()).collect()
}

fn bits64(v: &[f64]) -> Vec<u64> {
    v.iter().map(|x| x.to_bits()).collect()
}

#[test]
fn the_greatest_logit_ranks_first() {
    assert_eq!(rank_order(&bits(&[1.0, -2.0, 3.5, 0.0])), vec![2, 0, 3, 1]);
    assert_eq!(rank_order(&bits(&[])), Vec::<usize>::new());
    assert_eq!(rank_order(&bits(&[f32::NAN])), vec![0]);
}

#[test]
fn equal_logits_keep_their_order() {
    assert_eq!(rank_order(&bits(&[1.0, 2.0, 1.0, 2.0, 1.0])), vec![1, 3, 0, 2, 4]);
    assert_eq!(rank_order(&bits(&[-0.0, 0.0, -0.0])), vec![0, 1, 2]);
    assert_eq!(
        rank_order(&bits(&[f32::NEG_INFINITY, f32::INFINITY, -1e-40, 1e-40])),
        vec![1, 3, 2, 0]
    );
}

#[test]
fn ranking_agrees_with_a_stable_sort() {
    let mut seed = 12345u32;
    let mut v: Vec<f32> = Vec::new();
    for _ in 0..500 {
        seed = seed.wrapping_mul(1664525).wrapping_add(1013904223);
        v.push(((seed >> 16) % 97) as f32 - 48.0);
    }
    let mut expected: Vec<usize> = (0..v.len()).collect();
    expected.sort_by(|&a, &b| v[b].partial_cmp(&v[a]).unwrap());
    assert_eq!(rank_order(&bits(&v)), expected);
    assert_eq!(top_k_indices(&bits(&v), 7), expected[..7].to_vec());
    assert_eq!(top_k_indices(&bits(&v), 1000), expected);
}

#[test]
fn the_last_of_the_greatest_logits() {
    let v = [1.0f32, 7.0, -3.0, 7.0, 2.0];
    assert_eq!(argmax(&bits(&v)), 3);
    let expected = v.iter().enumerate().max_by(|a, b| a.1.partial_cmp(b.1).unwrap()).unwrap().0;
    assert_eq!(expected, 3);
    assert_eq!(argmax(&bits(&[f32::NAN])), 0);
}

#[test]
fn top_k_and_probabilities_decide_what_stays() {
    let order = vec![2usize, 0, 3, 1];
    let none_over = vec![false; 4];
    assert_eq!(keep_mask(&order, &none_over, 2), vec![true, false, true, false]);
    assert_eq!(keep_mask(&order, &none_over, 10), vec![true; 4]);
    let over = vec![true, true, true, true];
    assert_eq!(keep_mask(&order, &over, 10), vec![false, false, true, false]);
    assert_eq!(keep_mask(&order, &none_over, 0), vec![false, false, true, false]);
    assert_eq!(
        keep_mask(&order, &vec![false, false, false, true], 10),
        vec![true, false, true, true]
    );
}

#[test]
fn the_first_greatest_score_wins() {
    assert_eq!(pick(&bits64(&[0.5, 2.0, 2.0, 1.0])), 1);
    assert_eq!(pick(&bits64(&[f64::NAN, -1.0, f64::NAN])), 1);
    assert_eq!(pick(&bits64(&[f64::NEG_INFINITY, f64::NAN])), 0);
    assert_eq!(pick(&bits64(&[f64::NAN, f64::INFINITY])), 1);
    assert_eq!(pick(&bits64(&[-0.0, 0.0])), 0);
}

#[test]
fn allowed_tokens() {
    assert_eq!(allowed_ids(5, 8, 2), vec![5, 6, 7, 8, 2]);
    assert_eq!(allowed_ids(5, 4, 2), vec![2]);
    assert_eq!(allowed_ids(i64::MAX, i64::MAX, 0), vec![i64::MAX, 0]);
    let ids = allowed_ids(2, 3, 0);
    assert_eq!(allowed_logits(&[10, 11, 12, 13], &ids, false), vec![12, 13, 10]);
    assert_eq!(allowed_logits(&[10, 11, 12], &ids, true), vec![10, 11, 12]);
}

fn manifest(layout: Option<&str>) -> RuntimeManifest {
    RuntimeManifest {
        max_seq_len: 2048,
        num_layers: 24,
        num_fast_layers: 4,
        num_codebooks: 10,
        n_local_heads: 2,
        fast_n_local_heads: 2,
        head_dim: 64,
        fast_head_dim: 64,
        semantic_begin_id: 151678,
        semantic_end_id: 155773,
        im_end_id: 151645,
        codebook_size: 4096,
        codec_hop_length: 2048,
        slow_logits_layout: layout.map(|s| s.to_string()),
    }
}

#[test]
fn layouts() {
    assert!(is_compact_layout(&manifest(Some("semantic_then_eos"))));
    assert!(!is_compact_layout(&manifest(Some("full"))));
    assert!(!is_compact_layout(&manifest(None)));
}

#[test]
fn semantic_tokens_of_the_real_model() {
    let m = manifest(None);
    assert_eq!(sample_semantic(&m, 0, 1, &vec![]), 151678);
    assert_eq!(sample_semantic(&m, 4095, 1, &vec![]), 155773);
    assert_eq!(sample_semantic(&m, 4096, 1, &vec![]), 151645);
    assert_eq!(sample_semantic(&m, 0, 1, &vec![151678]), 151679);
}

#[test]
fn medians_and_steady_states() {
    assert_eq!(median(&[5, 1, 9]), 5);
    assert_eq!(median(&[4, 1, 3, 2]), 3);
    assert_eq!(median(&[7]), 7);
    let times: Vec<u128> = (0..14).collect();
    assert_eq!(steady_state(&times), (10 + 11 + 12 + 13, 4));
    assert_eq!(steady_state(&times[..10]), (0, 0));
}
