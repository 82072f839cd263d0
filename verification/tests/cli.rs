use replay_rs::audio::{AudioCodec, CodecChoice, CodecPreference};
use replay_rs::cli::{already_running, default_mode, parse_mode, sound_choice, start, woken_by, Request, Signal, Start, Todo};
use replay_rs::config::{Config, Env};
use replay_rs::paths::Platform;
use replay_rs::service::Mode;
use replay_rs::shortcuts_windows::{CONFIGURE, QUIT, SAVE};

#[test]
fn first_request_counts() {
    assert_eq!(Request::of(true, true, true), Some(Request::Save));
    assert_eq!(Request::of(false, true, true), Some(Request::ConfigureShortcut));
    assert_eq!(Request::of(false, false, true), Some(Request::Quit));
    assert_eq!(Request::of(false, false, false), None);
}

#[test]
fn requests_are_answered() {
    assert_eq!(
        Request::Save.answer(7, true),
        Ok("сохранение отправлено процессу 7".to_string())
    );
    assert_eq!(
        Request::ConfigureShortcut.answer(7, true),
        Ok("открытие редактора комбинаций отправлено процессу 7".to_string())
    );
    assert_eq!(
        Request::Quit.answer(7, false),
        Err("рекордер не запущен (процесс 7 не отвечает)".to_string())
    );
    assert_eq!(Request::Quit.label(), "остановка");
    assert_eq!(Request::Save.message(), SAVE);
    assert_eq!(Request::ConfigureShortcut.message(), CONFIGURE);
    assert_eq!(Request::Quit.message(), QUIT);
}

#[test]
fn modes_are_known_by_name() {
    assert_eq!(parse_mode("portal", Platform::Linux), Ok(Mode::Portal));
    assert_eq!(parse_mode("test", Platform::Windows), Ok(Mode::Test));
    assert_eq!(parse_mode("desktop", Platform::Windows), Ok(Mode::Desktop));
    assert_eq!(
        parse_mode("desktop", Platform::Linux),
        Err("неизвестный режим: desktop".to_string())
    );
    assert_eq!(
        parse_mode("x11", Platform::Windows),
        Err("неизвестный режим: x11".to_string())
    );
    for platform in [Platform::Linux, Platform::Windows] {
        assert!(parse_mode(default_mode(platform), platform).is_ok());
    }
}

#[test]
fn second_recorder_explains_itself() {
    assert_eq!(
        already_running(Some(31)),
        "replay-rs уже запущен (процесс 31).\n\
         Окно разворачивается из панели задач, сохранение — replay-rs --save,\n\
         остановка — replay-rs --quit."
    );
    assert!(already_running(None).starts_with("replay-rs уже запущен (процесс ).\n"));
}

#[test]
fn codec_is_chosen_for_sound_only() {
    let mut cfg = Config::default_for(&Env {
        platform: Platform::Linux,
        home: None,
        config_home: None,
        cache_home: None,
        runtime_dir: None,
        temp_dir: String::new(),
    });
    cfg.audio.codec = CodecPreference::Aac;
    assert_eq!(sound_choice(&cfg, false, true), Some(CodecChoice::FellBack(AudioCodec::Opus)));
    assert_eq!(sound_choice(&cfg, true, true), Some(CodecChoice::Exact(AudioCodec::Aac)));
    cfg.audio.codec = CodecPreference::Opus;
    assert_eq!(sound_choice(&cfg, true, false), Some(CodecChoice::FellBack(AudioCodec::Aac)));
    assert_eq!(sound_choice(&cfg, false, false), Some(CodecChoice::Unavailable));
    cfg.audio.system = false;
    assert_eq!(sound_choice(&cfg, true, true), None);
}

#[test]
fn request_comes_before_the_mode() {
    assert!(matches!(
        start(Some(Request::Quit), "nonsense", Platform::Linux),
        Start::Send(Request::Quit)
    ));
    assert!(matches!(start(None, "test", Platform::Linux), Start::Run(Mode::Test)));
    assert!(matches!(
        start(None, "nonsense", Platform::Linux),
        Start::Refuse(e) if e == "неизвестный режим: nonsense"
    ));
}

#[test]
fn request_is_understood() {
    assert_eq!(woken_by(Request::Save.signal()), Todo::Save);
    assert_eq!(woken_by(Request::ConfigureShortcut.signal()), Todo::OpenEditor);
    assert_eq!(woken_by(Request::Quit.signal()), Todo::Stop);
    assert_eq!(woken_by(Signal::Interrupt), Todo::Stop);
}
