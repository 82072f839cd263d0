use replay_rs::config::Env;
use replay_rs::paths::Platform;
use replay_rs::thumbs::{ensure_thumb, thumb_description, thumb_path, ThumbStep};

fn env() -> Env {
    Env {
        platform: Platform::Linux,
        home: Some("/home/user".to_string()),
        config_home: None,
        cache_home: None,
        runtime_dir: None,
        temp_dir: "/tmp".to_string(),
    }
}

#[test]
fn thumb_path_follows_clip_name() {
    let p = thumb_path(&env(), "/x/replay_2026-01-01_00-00-00.mp4");
    assert!(p.ends_with("replay_2026-01-01_00-00-00.jpg"), "{p:?}");
    assert_eq!(p, "/home/user/.cache/replay-rs/thumbs/replay_2026-01-01_00-00-00.jpg");
}

#[test]
fn path_without_a_name_has_an_empty_stem() {
    assert_eq!(thumb_path(&env(), "/"), "/home/user/.cache/replay-rs/thumbs/.jpg");
}

#[test]
fn preview_is_made_once() {
    assert!(matches!(ensure_thumb("a".to_string(), true), ThumbStep::Ready(p) if p == "a"));
    assert!(matches!(ensure_thumb("a".to_string(), false), ThumbStep::Make(p) if p == "a"));
}

#[test]
fn preview_pipeline_is_described_exactly() {
    assert_eq!(
        thumb_description(),
        "filesrc name=input ! decodebin ! videoconvert ! videoscale \
         ! video/x-raw,width=320,pixel-aspect-ratio=1/1 ! jpegenc \
         ! appsink name=out max-buffers=1 drop=false sync=false"
    );
}
