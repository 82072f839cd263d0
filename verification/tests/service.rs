use replay_rs::audio::AudioCodec;
use replay_rs::config::{Config, Env};
use replay_rs::paths::Platform;
use replay_rs::pipeline::{build_description, test_source};
use replay_rs::portal::ScreenCastSession;
use replay_rs::recorder::Recorder;
use replay_rs::ringbuf::Frame;
use replay_rs::service::{
    BusEvent, CaptureState, CaptureStep, CaptureThread, Command, Mode, Polled, RunWatch,
};

fn config() -> Config {
    Config::default_for(&Env {
        platform: Platform::Linux,
        home: Some("/home/user".to_string()),
        config_home: None,
        cache_home: None,
        runtime_dir: None,
        temp_dir: "/tmp".to_string(),
    })
}

fn description(step: CaptureStep) -> String {
    match step {
        CaptureStep::Run(plan) => plan.description,
        other => panic!("{other:?}"),
    }
}

fn session() -> ScreenCastSession {
    ScreenCastSession { fd: 3, node_id: 4, restore_token: None }
}

#[test]
fn test_mode_needs_no_portal() {
    let mut rec = Recorder::new(config(), None);
    rec.ring.add(Frame::new(vec![1], 0, true));
    let (thread, step) = CaptureThread::start(Mode::Test, Platform::Linux, &mut rec);
    assert_eq!(thread.state, CaptureState::Running);
    assert_eq!(
        description(step),
        build_description(&config(), &test_source(&config()), None)
    );
    assert_eq!(rec.stats().frames, 0);
}

#[test]
fn portal_is_opened_once() {
    let mut rec = Recorder::new(config(), Some(AudioCodec::Opus));
    let (mut thread, step) = CaptureThread::start(Mode::Portal, Platform::Linux, &mut rec);
    assert!(matches!(step, CaptureStep::OpenPortal));
    assert_eq!(thread.state, CaptureState::WaitingForPortal);
    let run = description(thread.portal_opened(Ok(session()), &mut rec));
    assert!(run.starts_with("pipewiresrc fd=3 path=4 do-timestamp=true keepalive-time=1000 ! "));
    assert!(run.contains("opusenc"));
    assert_eq!(thread.state, CaptureState::Running);
    rec.ring.add(Frame::new(vec![1], 500, true));
    let again = description(thread.run_ended(Ok(Some(Command::Restart)), &mut rec));
    assert_eq!(again, run);
    assert_eq!(thread.state, CaptureState::Running);
    assert_eq!(rec.stats().frames, 0);
    assert!(matches!(thread.run_ended(Ok(Some(Command::Stop)), &mut rec), CaptureStep::Exit));
    assert_eq!(thread.state, CaptureState::Stopped);
}

#[test]
fn refused_portal_is_a_failure() {
    let mut rec = Recorder::new(config(), None);
    let (mut thread, _) = CaptureThread::start(Mode::Portal, Platform::Linux, &mut rec);
    assert!(matches!(
        thread.portal_opened(Err("отменено".to_string()), &mut rec),
        CaptureStep::Exit
    ));
    assert_eq!(thread.state, CaptureState::Failed("отменено".to_string()));
}

#[test]
fn broken_pipeline_is_a_failure_and_keeps_the_buffer() {
    let mut rec = Recorder::new(config(), None);
    let (mut thread, _) = CaptureThread::start(Mode::Test, Platform::Linux, &mut rec);
    rec.ring.add(Frame::new(vec![1], 0, true));
    assert!(matches!(
        thread.run_ended(Err("нет кодировщика".to_string()), &mut rec),
        CaptureStep::Exit
    ));
    assert_eq!(thread.state, CaptureState::Failed("нет кодировщика".to_string()));
    assert_eq!(rec.stats().frames, 1);
}

#[test]
fn desktop_of_windows_follows_the_monitor() {
    let mut rec = Recorder::new(Config { monitor: 1, ..config() }, None);
    let (mut thread, step) = CaptureThread::start(Mode::Desktop, Platform::Windows, &mut rec);
    assert!(description(step).contains("monitor-index=1 "));
    let other = Config { monitor: 2, ..rec.config() };
    assert!(rec.update_config(other));
    let step = thread.run_ended(Ok(Some(Command::Restart)), &mut rec);
    assert!(description(step).contains("monitor-index=2 "));
    assert!(matches!(thread.run_ended(Ok(None), &mut rec), CaptureStep::Exit));
    assert_eq!(thread.state, CaptureState::Stopped);
}

#[test]
fn commands_end_a_pipeline() {
    let mut watch = RunWatch::new();
    assert!(!watch.polled(Polled::Nothing));
    assert!(watch.polled(Polled::Received(Command::Restart)));
    assert_eq!(watch.ended(), Ok(Some(Command::Restart)));
    let mut left = RunWatch::new();
    assert!(left.polled(Polled::Disconnected));
    assert_eq!(left.ended(), Ok(Some(Command::Stop)));
    assert_eq!(RunWatch::new().ended(), Ok(None));
}

#[test]
fn failure_counts_before_a_command() {
    let mut watch = RunWatch::new();
    watch.polled(Polled::Received(Command::Stop));
    assert!(!watch.bus(BusEvent::Other));
    assert!(watch.bus(BusEvent::Error { error: "сбой".to_string(), debug: "None".to_string() }));
    assert_eq!(watch.ended(), Err("сбой (None)".to_string()));
    let mut ended = RunWatch::new();
    assert!(ended.bus(BusEvent::EndOfStream));
    assert_eq!(ended.ended(), Err("поток неожиданно закончился".to_string()));
}
