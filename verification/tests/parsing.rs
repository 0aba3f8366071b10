use pixl::cli::{clear_guard, confirms, parse_size, ClearGuard};
use pixl::clock::utc_stamp;
use pixl::naming::{short_name, short_slug, slugify};

#[test]
fn parse_size_accepts_pairs_and_squares() {
    assert_eq!(parse_size("512x512"), Ok((512, 512)));
    assert_eq!(parse_size("  64X128 "), Ok((64, 128)));
    assert_eq!(parse_size("1024"), Ok((1024, 1024)));
    assert_eq!(parse_size("+16"), Ok((16, 16)));
    assert_eq!(parse_size(" 8 x 16 "), Ok((8, 16)));
}

#[test]
fn parse_size_reports_each_error() {
    assert_eq!(parse_size("abc"), Err("bad size \"abc\"".to_string()));
    assert_eq!(parse_size("12xq"), Err("bad height in \"12xq\"".to_string()));
    assert_eq!(parse_size("qx12"), Err("bad width in \"qx12\"".to_string()));
    assert_eq!(
        parse_size("100"),
        Err("size must be positive and divisible by 8, got 100x100".to_string())
    );
    assert_eq!(
        parse_size("0x8"),
        Err("size must be positive and divisible by 8, got 0x8".to_string())
    );
    assert_eq!(parse_size("-8"), Err("bad size \"-8\"".to_string()));
    assert_eq!(parse_size("99999999999"), Err("bad size \"99999999999\"".to_string()));
}

#[test]
fn utc_stamp_formats_civil_time() {
    assert_eq!(utc_stamp(0), "19700101-000000");
    assert_eq!(utc_stamp(1_700_000_000), "20231114-221320");
    assert_eq!(utc_stamp(951_782_400), "20000229-000000");
    assert_eq!(utc_stamp(86_399), "19700101-235959");
    assert_eq!(utc_stamp(4_102_444_800), "21000101-000000");
}

#[test]
fn slugify_maps_trims_and_caps() {
    assert_eq!(slugify("A cozy Tavern!"), "a_cozy_tavern");
    assert_eq!(slugify("!!!"), "img");
    assert_eq!(slugify(&"a".repeat(50)), "a".repeat(40));
    assert_eq!(slugify("stardew valley style house"), "stardew_valley_style_house");
    // idempotent
    let once = slugify("  Héllo, wörld  ");
    assert_eq!(slugify(&once), once);
}

#[test]
fn short_slug_collapses_runs() {
    assert_eq!(short_slug("A cozy Tavern!"), "a-cozy-tavern");
    assert_eq!(short_slug("   "), "img");
    assert_eq!(short_slug("stardew  valley -- style house"), "stardew-valley-style-house");
    let long = "word ".repeat(20);
    let s = short_slug(&long);
    assert!(s.len() <= 40);
    assert!(!s.ends_with('-'));
    assert_eq!(s, "word-word-word-word-word-word-word-word");
}

#[test]
fn short_name_takes_last_segment() {
    assert_eq!(short_name("unet/diffusion_pytorch_model.fp16.safetensors"), "diffusion_pytorch_model.fp16.safetensors");
    assert_eq!(short_name("nerijs/pixel-art-xl"), "pixel-art-xl");
    assert_eq!(short_name("plain"), "plain");
    assert_eq!(short_name("trailing/"), "");
}

#[test]
fn formatted_sizes_parse_back() {
    for (w, h) in [(8u32, 8u32), (512, 768), (1024, 64), (4294967288, 8)] {
        assert_eq!(parse_size(&format!("{w}x{h}")), Ok((w, h)));
        assert_eq!(parse_size(&w.to_string()), Ok((w, w)));
    }
    // Unicode white space around the size is trimmed too
    assert_eq!(parse_size("\u{3000}64x64\u{a0}"), Ok((64, 64)));
}

#[test]
fn clear_guard_checks_in_order() {
    let (m, p) = (Some("merged"), Some("pixl"));
    assert_eq!(clear_guard(true, None, None, true, false, false), ClearGuard::Empty);
    assert_eq!(clear_guard(false, m, Some("other"), false, true, true), ClearGuard::UnexpectedPath);
    assert_eq!(clear_guard(false, m, p, true, true, true), ClearGuard::Symlink);
    assert_eq!(clear_guard(false, m, p, false, true, false), ClearGuard::Clear);
    assert_eq!(clear_guard(false, m, p, false, false, false), ClearGuard::NotTerminal);
    assert_eq!(clear_guard(false, m, p, false, false, true), ClearGuard::Ask);
    assert!(confirms(" Y\n"));
    assert!(confirms("y"));
    assert!(!confirms("yes"));
    assert!(!confirms(""));
}
