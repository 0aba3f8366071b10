use pixl::cache::{
    cache_root, default_out_dir, default_saved_dir, hf_cache_dir, hf_repo_dir_name,
    merged_cache_dir, pretty_repo_name, EnvDirs,
};
use pixl::output::{image_path, is_image_path, open_link, preview_scale, resolve_out};

fn env(home: Option<&str>, xdg: Option<&str>, hf: Option<&str>) -> EnvDirs {
    EnvDirs {
        home: home.map(|s| s.to_string()),
        xdg_cache_home: xdg.map(|s| s.to_string()),
        hf_home: hf.map(|s| s.to_string()),
        temp_dir: "/tmp".to_string(),
    }
}

#[test]
fn cache_dirs_follow_environment() {
    let e = env(Some("/home/u"), None, None);
    assert_eq!(merged_cache_dir(&e), "/home/u/.cache/pixl/merged");
    assert_eq!(hf_cache_dir(&e), "/home/u/.cache/huggingface/hub");
    let e = env(Some("/home/u"), Some("/xdg"), None);
    assert_eq!(merged_cache_dir(&e), "/xdg/pixl/merged");
    // the hub client ignores XDG_CACHE_HOME
    assert_eq!(hf_cache_dir(&e), "/home/u/.cache/huggingface/hub");
    let e = env(Some("/home/u"), None, Some("/hf"));
    assert_eq!(hf_cache_dir(&e), "/hf/hub");
    let e = env(None, None, None);
    assert_eq!(cache_root(&e, true), "/tmp/.cache");
    assert_eq!(default_saved_dir(&e), "/tmp/.pixl/saved");
}

#[test]
fn run_dirs_use_stamp_and_slug() {
    let e = env(Some("/home/u"), None, None);
    assert_eq!(default_saved_dir(&e), "/home/u/.pixl/saved");
    assert_eq!(
        default_out_dir(&e, "20240101-000000", "a cozy tavern"),
        "/home/u/.pixl/20240101-000000-a-cozy-tavern"
    );
}

#[test]
fn repo_dir_names_round_trip() {
    assert_eq!(hf_repo_dir_name("stabilityai/sdxl-turbo"), "models--stabilityai--sdxl-turbo");
    assert_eq!(pretty_repo_name("models--stabilityai--sdxl-turbo"), "stabilityai/sdxl-turbo");
    assert_eq!(
        pretty_repo_name(&hf_repo_dir_name("madebyollin/sdxl-vae-fp16-fix")),
        "madebyollin/sdxl-vae-fp16-fix"
    );
    assert_eq!(pretty_repo_name("datasets--x"), "datasets--x");
}

#[test]
fn pixelize_outputs_land_where_asked() {
    assert_eq!(resolve_out("/a/b/photo.jpg", &None, false), "/a/b/photo.pixl.png");
    assert_eq!(resolve_out("/a/b/photo.jpg", &Some("/o".to_string()), true), "/o/photo.png");
    assert_eq!(resolve_out("/a/b/photo.jpg", &Some("/o/x.png".to_string()), false), "/o/x.png");
}

#[test]
fn generated_images_are_numbered() {
    assert_eq!(image_path("/run", "house", 7), "/run/house_007.png");
    assert_eq!(image_path("/run", "house", 1234), "/run/house_1234.png");
    assert_eq!(image_path("/run", "h", 0), "/run/h_000.png");
}

#[test]
fn gallery_browses_images_only() {
    assert!(is_image_path("/d/a.PNG"));
    assert!(is_image_path("/d/a.jpeg"));
    assert!(is_image_path("/d/a.Jpg"));
    assert!(!is_image_path("/d/a.gif"));
    assert!(!is_image_path("/d/a"));
}

#[test]
fn preview_scale_targets_512() {
    assert_eq!(preview_scale(16), 32);
    assert_eq!(preview_scale(0), 512);
    assert_eq!(preview_scale(1000), 1);
    assert_eq!(preview_scale(100), 5);
}

#[test]
fn open_link_is_osc8() {
    assert_eq!(
        open_link("/a b"),
        "open: \u{1b}]8;;file:///a%20b\u{1b}\\/a b\u{1b}]8;;\u{1b}\\"
    );
}

#[test]
fn relative_or_empty_cache_vars_are_skipped() {
    let e = env(Some("/home/u"), Some("rel"), None);
    assert_eq!(merged_cache_dir(&e), "/home/u/.cache/pixl/merged");
    let e = env(Some("/home/u"), Some(""), None);
    assert_eq!(merged_cache_dir(&e), "/home/u/.cache/pixl/merged");
    let e = env(Some("home"), Some(""), None);
    assert_eq!(merged_cache_dir(&e), "/tmp/.cache/pixl/merged");
    assert_eq!(cache_root(&env(Some(""), None, None), true), "/tmp/.cache");
}
