use pixl::lora::{map_module, plan_lora_merge};

#[test]
fn maps_known_modules() {
    assert_eq!(
        map_module("lora_unet_input_blocks_4_1_transformer_blocks_0_attn1_to_q").unwrap(),
        "down_blocks.1.attentions.0.transformer_blocks.0.attn1.to_q.weight"
    );
    assert_eq!(
        map_module("lora_unet_input_blocks_4_1_proj_in").unwrap(),
        "down_blocks.1.attentions.0.proj_in.weight"
    );
    assert_eq!(
        map_module("lora_unet_output_blocks_5_1_transformer_blocks_0_attn2_to_out_0").unwrap(),
        "up_blocks.1.attentions.2.transformer_blocks.0.attn2.to_out.0.weight"
    );
    assert_eq!(
        map_module("lora_unet_middle_block_1_transformer_blocks_0_ff_net_0_proj").unwrap(),
        "mid_block.attentions.0.transformer_blocks.0.ff.net.0.proj.weight"
    );
    assert!(map_module("lora_te1_text_model_encoder_layers_0_self_attn_k_proj").is_none());
    assert!(map_module("lora_unet_input_blocks_4_0_in_layers_2").is_none());
}

#[test]
fn maps_every_envelope() {
    let cases = [
        ("input_blocks_5", "down_blocks.1.attentions.1"),
        ("input_blocks_7", "down_blocks.2.attentions.0"),
        ("input_blocks_8", "down_blocks.2.attentions.1"),
        ("output_blocks_0", "up_blocks.0.attentions.0"),
        ("output_blocks_1", "up_blocks.0.attentions.1"),
        ("output_blocks_2", "up_blocks.0.attentions.2"),
        ("output_blocks_3", "up_blocks.1.attentions.0"),
        ("output_blocks_4", "up_blocks.1.attentions.1"),
    ];
    for (sgm, diffusers) in cases {
        assert_eq!(
            map_module(&format!("lora_unet_{sgm}_1_proj_out")).unwrap(),
            format!("{diffusers}.proj_out.weight")
        );
    }
}

#[test]
fn maps_every_leaf() {
    let leaves = [
        ("attn1_to_k", "attn1.to_k"),
        ("attn1_to_v", "attn1.to_v"),
        ("attn1_to_out_0", "attn1.to_out.0"),
        ("attn2_to_q", "attn2.to_q"),
        ("attn2_to_k", "attn2.to_k"),
        ("attn2_to_v", "attn2.to_v"),
        ("ff_net_2", "ff.net.2"),
        ("norm1", "norm1"),
        ("norm2", "norm2"),
        ("norm3", "norm3"),
    ];
    for (sgm, diffusers) in leaves {
        assert_eq!(
            map_module(&format!("lora_unet_input_blocks_7_1_transformer_blocks_9_{sgm}")).unwrap(),
            format!("down_blocks.2.attentions.0.transformer_blocks.9.{diffusers}.weight")
        );
    }
}

#[test]
fn rejects_unknown_blocks_and_leaves() {
    // input block 6 is a downsampler, not an attention block
    assert!(map_module("lora_unet_input_blocks_6_1_proj_in").is_none());
    assert!(map_module("lora_unet_output_blocks_6_1_proj_in").is_none());
    assert!(map_module("lora_unet_middle_block_0_proj_in").is_none());
    assert!(map_module("lora_unet_input_blocks_4_1_transformer_blocks_x_attn1_to_q").is_none());
    assert!(map_module("lora_unet_input_blocks_4_1_transformer_blocks_0_attn3_to_q").is_none());
    assert!(map_module("lora_unet_input_blocks_x_1_proj_in").is_none());
    assert!(map_module("lora_unet_input_blocks_4_1").is_none());
    assert!(map_module("").is_none());
}

#[test]
fn block_numbers_parse_like_integers() {
    // `+4` and `04` parse as 4; the inner index text is kept as written
    assert_eq!(
        map_module("lora_unet_input_blocks_+4_1_proj_in").unwrap(),
        "down_blocks.1.attentions.0.proj_in.weight"
    );
    assert_eq!(
        map_module("lora_unet_input_blocks_04_1_transformer_blocks_01_norm1").unwrap(),
        "down_blocks.1.attentions.0.transformer_blocks.01.norm1.weight"
    );
}

#[test]
fn plans_a_lora_merge() {
    let lora: Vec<String> = [
        "lora_unet_input_blocks_4_1_proj_in.lora_down.weight",
        "lora_unet_input_blocks_4_1_proj_in.lora_up.weight",
        "lora_unet_input_blocks_4_1_proj_in.alpha",
        "lora_te1_x.lora_down.weight",
        "lora_te1_x.lora_up.weight",
        "lora_unet_input_blocks_5_1_proj_in.lora_down.weight",
        "lora_unet_output_blocks_0_1_proj_out.lora_down.weight",
        "lora_unet_output_blocks_0_1_proj_out.lora_up.weight",
    ]
    .iter()
    .map(|s| s.to_string())
    .collect();
    let base: Vec<String> = ["down_blocks.1.attentions.0.proj_in.weight", "conv_in.weight"]
        .iter()
        .map(|s| s.to_string())
        .collect();
    let plan = plan_lora_merge(&lora, &base);
    assert_eq!(plan.apply.len(), 1);
    assert_eq!(plan.apply[0].module, "lora_unet_input_blocks_4_1_proj_in");
    assert_eq!(plan.apply[0].key, "down_blocks.1.attentions.0.proj_in.weight");
    // te1 (unmappable), input 5 (no up factor), output 0 (not in the UNet)
    assert_eq!(plan.skipped, 3);
}
