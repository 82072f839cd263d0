use replay_rs::config::Env;
use replay_rs::paths::Platform;
use replay_rs::portal::{load_token, token_path, PortalAttempt, PortalStep, ScreenCastSession};

fn session(token: Option<&str>) -> ScreenCastSession {
    ScreenCastSession { fd: 12, node_id: 77, restore_token: token.map(str::to_string) }
}

#[test]
fn session_is_described_as_a_source() {
    let session = session(None);
    assert_eq!(
        session.source_desc(),
        "pipewiresrc fd=12 path=77 do-timestamp=true keepalive-time=1000"
    );
    assert_eq!(session.node_id(), 77);
}

#[test]
fn token_is_trimmed_and_not_empty() {
    assert_eq!(load_token(None), None);
    assert_eq!(load_token(Some(" \n".to_string())), None);
    assert_eq!(load_token(Some("abc\n".to_string())).as_deref(), Some("abc"));
    assert_eq!(load_token(Some("abc".to_string())).as_deref(), Some("abc"));
}

#[test]
fn token_lies_beside_the_settings() {
    let env = Env {
        platform: Platform::Linux,
        home: Some("/home/user".to_string()),
        config_home: None,
        cache_home: None,
        runtime_dir: None,
        temp_dir: "/tmp".to_string(),
    };
    assert_eq!(token_path(&env), "/home/user/.config/replay-rs/restore-token");
}

#[test]
fn stale_token_is_forgotten_once() {
    let first = PortalAttempt { token: Some("old".to_string()) };
    let again = match first.answered(Err("протух".to_string())) {
        PortalStep::Retry(again) => again,
        other => panic!("{other:?}"),
    };
    assert_eq!(again.token, None);
    match again.answered(Err("отменено".to_string())) {
        PortalStep::Failed(error) => assert_eq!(error, "отменено"),
        other => panic!("{other:?}"),
    }
}

#[test]
fn open_session_brings_its_token() {
    let attempt = PortalAttempt { token: Some("old".to_string()) };
    match attempt.answered(Ok(session(Some("new")))) {
        PortalStep::Opened(session) => assert_eq!(session.restore_token.as_deref(), Some("new")),
        other => panic!("{other:?}"),
    }
}
