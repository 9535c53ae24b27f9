use audio8_runtime::codec::{
    causal_conv1d_plain, causal_conv_transpose1d_plain, causal_sliding_window_mask,
    codec_attention, dilation_list, rate_list, CodecDecoder,
};
use audio8_runtime::model::causal_mask;
use audio8_runtime::weights::{
    fast_checks, fast_weight_plan, label, layer_fault, layer_key, load_and_report, name_index,
    repack_one, should_quantize, slow_checks, slow_weight_plan, storage, FileFault, Form, Named,
    Storage,
};

fn named(name: &str, dims: &[usize]) -> Named {
    Named { name: name.to_string(), dims: dims.to_vec() }
}

#[test]
fn names_that_are_quantized() {
    for name in ["layers.0.attention.wqkv.weight", "lm_head.weight", "embeddings.weight", "weight"] {
        assert!(should_quantize(name), "{}", name);
    }
    for name in ["norm.weight", "fast_norm.weight", "layers.3.ffn_norm.weight", "a_norm.weight",
        "layers.0.attention.wqkv.bias", "weights", "a.weight.b", "", "."] {
        assert!(!should_quantize(name), "{}", name);
    }
    assert!(should_quantize("x.norm.weight"));
}

#[test]
fn rows_must_be_whole_blocks() {
    assert_eq!(storage("a.weight", &vec![5, 64]), Storage::Quantized);
    assert_eq!(storage("a.weight", &vec![5, 65]), Storage::PlainFallback);
    assert_eq!(storage("a.weight", &vec![64]), Storage::Plain);
    assert_eq!(storage("a.weight", &vec![1, 2, 32]), Storage::Plain);
    assert_eq!(storage("a.bias", &vec![32, 32]), Storage::Plain);
    assert_eq!(label(Storage::Quantized), "Q4_0");
    assert_eq!(label(Storage::PlainFallback), "F32(fallback)");
    assert_eq!(label(Storage::Plain), "F32");
}

#[test]
fn repacking_counts() {
    let arrays = vec![
        named("b.weight", &[4, 32]),
        named("a.weight", &[4, 33]),
        named("c_norm.weight", &[4]),
        named("d.weight", &[2, 64]),
    ];
    let plan = repack_one(&arrays);
    assert_eq!(
        plan.stored,
        vec![Storage::Quantized, Storage::PlainFallback, Storage::Plain, Storage::Quantized]
    );
    assert_eq!((plan.n_quantized, plan.n_plain), (2, 2));
    assert_eq!(name_index(&arrays), vec![1, 0, 2, 3]);
}

#[test]
fn names_are_indexed_like_a_sorted_map() {
    let names = ["b", "a", "ab", "", "b", "é", "Z", "a"];
    let arrays: Vec<Named> = names.iter().map(|n| named(n, &[1])).collect();
    let mut map = std::collections::BTreeMap::new();
    for (i, n) in names.iter().enumerate() {
        map.insert(n.to_string(), i);
    }
    let expected: Vec<usize> = map.values().copied().collect();
    assert_eq!(name_index(&arrays), expected);
    assert!(name_index(&vec![]).is_empty());
}

#[test]
fn weights_of_the_slow_model() {
    let plan = slow_weight_plan();
    assert_eq!(plan.len(), 196);
    assert_eq!(plan[0].name, "embeddings.weight");
    assert_eq!(plan[0].dims, vec![155776, 896]);
    assert_eq!(plan[0].form, Form::Dense);
    assert_eq!(plan[1].dims, vec![40960, 896]);
    assert_eq!(plan[2].name, "layers.0.attention.wqkv.weight");
    assert_eq!(plan[2].dims, vec![1152, 896]);
    assert_eq!(plan[2].form, Form::Matrix);
    assert_eq!(plan[3].name, "layers.0.attention.wqkv.bias");
    assert_eq!(plan[3].dims, vec![1152]);
    assert_eq!(plan[193].name, "layers.23.ffn_norm.weight");
    assert_eq!(plan[194].name, "norm.weight");
    assert_eq!(plan[195].dims, vec![4097, 896]);
    for w in &plan {
        let expected = if w.dims.len() == 2 { Storage::Quantized } else { Storage::Plain };
        assert_eq!(storage(&w.name, &w.dims), expected, "{}", w.name);
    }
    let mut names: Vec<String> = plan.into_iter().map(|w| w.name).collect();
    names.sort();
    names.dedup();
    assert_eq!(names.len(), 196);
}

#[test]
fn weights_of_the_fast_model() {
    let plan = fast_weight_plan();
    let names: Vec<&str> = plan.iter().map(|w| w.name.as_str()).collect();
    assert_eq!(names.len(), 31);
    assert_eq!(
        names[..9].to_vec(),
        vec![
            "fast_embeddings.weight",
            "fast_layers.0.attention.wqkv.weight",
            "fast_layers.0.attention.wo.weight",
            "fast_layers.0.feed_forward.w1.weight",
            "fast_layers.0.feed_forward.w2.weight",
            "fast_layers.0.feed_forward.w3.weight",
            "fast_layers.0.attention_norm.weight",
            "fast_layers.0.ffn_norm.weight",
            "fast_layers.1.attention.wqkv.weight",
        ]
    );
    assert_eq!(names[29..].to_vec(), vec!["fast_norm.weight", "fast_output.weight"]);
    assert_eq!(plan[4].dims, vec![896, 4864]);
}

#[test]
fn checked_weights_are_weights() {
    let slow = slow_weight_plan();
    assert_eq!(slow_checks().len(), 13);
    for c in slow_checks() {
        assert!(slow.iter().any(|w| w.name == c.name && w.dims == c.dims), "{}", c.name);
    }
    let fast = fast_weight_plan();
    assert_eq!(fast_checks().len(), 6);
    for c in fast_checks() {
        assert!(fast.iter().any(|w| w.name == c.name && w.dims == c.dims), "{}", c.name);
    }
}

#[test]
fn files_are_checked_in_order() {
    let list = vec![named("a", &[1, 2]), named("b", &[3])];
    assert_eq!(load_and_report(&list, &vec![Some(vec![1, 2]), Some(vec![3])]), None);
    assert_eq!(
        load_and_report(&list, &vec![Some(vec![1, 2]), None]),
        Some(FileFault::Missing(1))
    );
    assert_eq!(
        load_and_report(&list, &vec![Some(vec![2, 1]), None]),
        Some(FileFault::OtherSides(0))
    );
}

#[test]
fn files_have_all_layers_and_no_more() {
    assert_eq!(layer_key("fast_layers.", 3), "fast_layers.3.attention.wqkv.weight");
    assert_eq!(layer_fault(&vec![true, true, false]), None);
    assert_eq!(layer_fault(&vec![true, false, false]), Some(1));
    assert_eq!(layer_fault(&vec![true, true, true]), Some(2));
    assert_eq!(layer_fault(&vec![false, true, true]), Some(0));
}

#[test]
fn weights_of_the_codec() {
    let codec = CodecDecoder::new();
    let w = &codec.weights;
    assert_eq!(w.len(), 30 + 73 + 22 + 89);
    assert_eq!(w[0].name, "quantizer.semantic_quantizer.quantizers.0.codebook.weight");
    assert_eq!(w[0].dims, vec![4096, 8]);
    assert_eq!(w[1].dims, vec![1024, 8, 1]);
    assert_eq!(w[3].name, "quantizer.quantizer.quantizers.0.codebook.weight");
    assert_eq!(w[3].dims, vec![1024, 8]);
    assert_eq!(w[30].name, "quantizer.post_module.layers.0.attention_norm.weight");
    assert_eq!(w[31].dims, vec![1024, 2048]);
    assert_eq!(w[35].dims, vec![1024, 1216]);
    assert_eq!(w[102].name, "quantizer.post_module.norm.weight");
    assert_eq!(w[103].name, "quantizer.upsample.0.0.conv.weight");
    assert_eq!(w[105].name, "quantizer.upsample.0.1.dwconv.conv.weight");
    assert_eq!(w[105].dims, vec![1024, 1, 7]);
    assert_eq!(w[113].name, "quantizer.upsample.0.1.gamma");
    assert_eq!(w[125].name, "decoder.model.0.conv.weight");
    assert_eq!(w[125].dims, vec![1536, 1024, 7]);
    assert_eq!(w[127].name, "decoder.model.1.block.0.alpha");
    assert_eq!(w[128].name, "decoder.model.1.block.1.conv.weight");
    assert_eq!(w[128].dims, vec![1536, 768, 16]);
    assert_eq!(w[211].name, "decoder.model.5.alpha");
    assert_eq!(w[211].dims, vec![1, 96, 1]);
    assert_eq!(w[212].name, "decoder.model.6.conv.weight");
    assert_eq!(w[212].dims, vec![1, 96, 7]);
    assert_eq!(w[213].name, "decoder.model.6.conv.bias");
    let mut names: Vec<&str> = w.iter().map(|a| a.name.as_str()).collect();
    names.sort();
    names.dedup();
    assert_eq!(names.len(), w.len());
}

#[test]
fn lengths_through_the_codec() {
    let conv = causal_conv1d_plain(7, 9, 1);
    assert_eq!(conv.left_pad, 54);
    assert_eq!(conv.forward(100), 100);
    assert_eq!(causal_conv1d_plain(1, 1, 1).left_pad, 0);
    let up = causal_conv_transpose1d_plain(16, 8);
    assert_eq!(up.trim, 8);
    assert_eq!(up.forward(5), 40);
    let codec = CodecDecoder::new();
    assert_eq!(codec.forward(1, 65), (1, 1, 65 * 2048));
    let (stages, sides) = codec.forward_debug(2, 3);
    assert_eq!(sides, codec.forward(2, 3));
    let names: Vec<&str> = stages.iter().map(|s| s.name.as_str()).collect();
    assert_eq!(
        names,
        vec![
            "rvq_sum", "post_module", "upsample0_conv_tr", "upsample0_dwconv", "upsample0_norm",
            "upsample0_pwconv1", "upsample0_pwconv2", "upsample0", "upsample1", "decoder_conv1",
        ]
    );
    assert_eq!(stages[0].dims, vec![2, 1024, 3]);
    assert_eq!(stages[5].dims, vec![2, 6, 4096]);
    assert_eq!(stages[9].dims, vec![2, 1536, 12]);
    assert_eq!(rate_list().iter().product::<usize>() * 4, 2048);
    assert_eq!(dilation_list(), vec![1, 3, 9]);
}

#[test]
fn sliding_windows() {
    assert_eq!(
        causal_sliding_window_mask(4, 2),
        vec![
            true, false, false, false, true, true, false, false, false, true, true, false, false,
            false, true, true,
        ]
    );
    assert_eq!(causal_sliding_window_mask(3, 128), causal_mask(3));
    // What is behind never changes what a position sees.
    let (few, many) = (causal_sliding_window_mask(5, 3), causal_sliding_window_mask(9, 3));
    for i in 0..5 {
        assert_eq!(few[5 * i..5 * i + 5], many[9 * i..9 * i + 5]);
        assert!(many[9 * i + 5..9 * i + 9].iter().all(|seen| !seen));
    }
    let codec = CodecDecoder::new();
    for frames in 1..5 {
        assert_eq!(codec.forward(1, frames + 1).2 - codec.forward(1, frames).2, 2048);
    }
    let call = codec_attention().forward(4, 9);
    assert_eq!(call.split.v, (1536, 512));
    assert_eq!(call.repeats, 2);
}
