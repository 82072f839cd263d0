use replay_rs::audio::{AudioCodec, CodecPreference};
use replay_rs::calendar::LocalTime;
use replay_rs::config::{Config, Env};
use replay_rs::gui::{
    buffer_line, capture_label, clip_line, close_action, count_label, groups_line, list_clips,
    memory_line, save_command, save_label, shortcut_panel, shown_name, slider_range, sound_line,
    sound_panel, App, Applied, CloseAction, DeleteAnswer, Found, Slider, SoundPanel, Tone,
    RESCAN_EVERY_NS, TOAST_LIFETIME_NS,
};
use replay_rs::paths::Platform;
use replay_rs::recorder::SaveOutcome;
use replay_rs::service::CaptureState;
use replay_rs::shortcuts::ShortcutState;

fn config() -> Config {
    Config::default_for(&Env {
        platform: Platform::Linux,
        home: Some("/home/user".to_string()),
        config_home: None,
        cache_home: None,
        runtime_dir: None,
        temp_dir: "/tmp".to_string(),
    })
}

fn found(name: &str, size: u64, modified: i128) -> Found {
    Found {
        name: name.to_string(),
        path: format!("/clips/{name}"),
        size: Some(size),
        modified: Some(modified),
        thumb: None,
    }
}

fn names(app: &App) -> Vec<String> {
    app.clips.iter().map(|c| shown_name(Platform::Linux, &c.path)).collect()
}

fn toast(app: &App) -> (&str, bool) {
    let toast = app.toast.as_ref().unwrap();
    (&toast.text, toast.is_error)
}

#[test]
fn list_holds_videos_newest_first() {
    let mut unreadable = found("lost.mp4", 1, 1);
    unreadable.size = None;
    let mut timeless = found("timeless.mp4", 1, 1);
    timeless.modified = None;
    let clips = list_clips(vec![
        found("a.mp4", 1, 10),
        found("notes.txt", 1, 99),
        found("b.mp4", 2, 30),
        unreadable,
        found("c.mp4", 3, 10),
        timeless,
        found("d.mp4", 4, 20),
        found(".mp4", 5, 50),
    ]);
    let paths: Vec<&str> = clips.iter().map(|c| c.path.as_str()).collect();
    assert_eq!(paths, ["/clips/b.mp4", "/clips/d.mp4", "/clips/a.mp4", "/clips/c.mp4"]);
    assert_eq!(clips[0].size, 2);
    assert_eq!(clips[0].modified, 30);
}

#[test]
fn preview_is_tried_once_for_a_clip() {
    let mut app = App::new(config(), Platform::Linux, 0);
    let mut with_preview = found("b.mp4", 1, 2);
    with_preview.thumb = Some("/cache/b.jpg".to_string());
    assert_eq!(
        app.refresh_clips(vec![found("a.mp4", 1, 1), with_preview, found("c.mp4", 1, 3)], 5),
        ["/clips/c.mp4", "/clips/a.mp4"]
    );
    assert_eq!(app.last_scan, 5);
    let again = app.refresh_clips(
        vec![found("a.mp4", 1, 1), found("c.mp4", 1, 3), found("d.mp4", 1, 4)],
        6,
    );
    assert_eq!(again, ["/clips/d.mp4"]);
    assert_eq!(names(&app), ["d.mp4", "c.mp4", "a.mp4"]);
}

#[test]
fn directory_is_looked_at_when_stale() {
    let mut app = App::new(config(), Platform::Linux, 100);
    assert!(!app.is_stale(100 + RESCAN_EVERY_NS - 1));
    assert!(app.is_stale(100 + RESCAN_EVERY_NS));
    assert!(!app.is_stale(0));
    let files = || vec![found("a.mp4", 1, 1), found("b.mp4", 2, 2), found("x.txt", 3, 3)];
    app.refresh_clips(files(), 200);
    assert!(!app.rescan(&files(), 300));
    assert_eq!(app.last_scan, 300);
    assert!(app.rescan(&vec![found("a.mp4", 1, 1)], 400));
    assert!(app.rescan(&vec![found("a.mp4", 1, 1), found("b.mp4", 5, 2)], 400));
    assert!(app.rescan(&vec![found("a.mp4", 1, 1), found("c.mp4", 2, 2)], 400));
    assert_eq!(app.last_scan, 300);
    let mut timeless = files();
    timeless[1].modified = None;
    assert!(!app.rescan(&timeless, 500));
}

#[test]
fn save_is_started_once() {
    let mut app = App::new(config(), Platform::Linux, 0);
    assert!(app.trigger_save());
    assert!(!app.trigger_save());
    assert!(app.saved(Ok(SaveOutcome::Saved("/clips/a.mp4".to_string())), 7));
    assert_eq!(toast(&app), ("сохранено: a.mp4", false));
    assert_eq!(app.toast.as_ref().unwrap().at, 7);
    assert!(app.trigger_save());
    assert!(!app.saved(Ok(SaveOutcome::BufferEmpty), 8));
    assert_eq!(toast(&app), ("буфер пуст — запись ещё не идёт", true));
    assert!(!app.saved(Ok(SaveOutcome::AlreadySaving), 8));
    assert_eq!(toast(&app), ("предыдущее сохранение ещё идёт", true));
    assert!(!app.saved(Err("диск полон".to_string()), 8));
    assert_eq!(toast(&app), ("не сохранилось: диск полон", true));
    assert!(!app.saving);
}

#[test]
fn message_expires() {
    let mut app = App::new(config(), Platform::Linux, 0);
    app.expire_toast(5);
    assert!(app.toast.is_none());
    app.show("готово".to_string(), false, 10);
    app.expire_toast(10 + TOAST_LIFETIME_NS - 1);
    assert!(app.toast.is_some());
    app.expire_toast(10 + TOAST_LIFETIME_NS);
    assert!(app.toast.is_none());
}

#[test]
fn preview_goes_to_its_clip() {
    let mut app = App::new(config(), Platform::Linux, 0);
    app.refresh_clips(vec![found("a.mp4", 1, 1), found("b.mp4", 1, 2)], 0);
    app.preview_made("/clips/a.mp4", "/cache/a.jpg".to_string());
    assert_eq!(app.clips[0].thumb, None);
    assert_eq!(app.clips[1].thumb.as_deref(), Some("/cache/a.jpg"));
    app.preview_made("/clips/gone.mp4", "/cache/gone.jpg".to_string());
    assert_eq!(app.clips[0].thumb, None);
}

#[test]
fn settings_are_applied_with_a_message() {
    let mut app = App::new(config(), Platform::Linux, 0);
    assert_eq!(app.applied(true, Ok(()), 1), Applied::Restart);
    assert_eq!(toast(&app), ("настройки применены, конвейер пересобирается", false));
    assert_eq!(app.applied(false, Ok(()), 1), Applied::Live);
    assert_eq!(toast(&app), ("настройки применены", false));
    assert_eq!(app.applied(true, Err("нет прав".to_string()), 1), Applied::NotStored);
    assert_eq!(toast(&app), ("настройки не сохранились: нет прав", true));
}

#[test]
fn edits_can_be_dropped() {
    let mut app = App::new(config(), Platform::Linux, 0);
    assert!(!app.is_dirty(&config()));
    app.draft.fps = 30;
    assert!(app.is_dirty(&config()));
    app.discard(config());
    assert!(!app.is_dirty(&config()));
}

#[test]
fn only_a_confirmed_deletion_takes_place() {
    let mut app = App::new(config(), Platform::Linux, 0);
    assert_eq!(app.answer_delete(DeleteAnswer::Delete), None);
    app.request_delete("/clips/a.mp4".to_string());
    assert_eq!(app.answer_delete(DeleteAnswer::NotYet), None);
    assert!(app.pending_delete.is_some());
    assert_eq!(app.answer_delete(DeleteAnswer::Cancel), None);
    assert!(app.pending_delete.is_none());
    app.request_delete("/clips/a.mp4".to_string());
    assert_eq!(app.answer_delete(DeleteAnswer::Close), None);
    assert!(app.pending_delete.is_none());
    app.request_delete("/clips/a.mp4".to_string());
    assert_eq!(app.answer_delete(DeleteAnswer::Delete).as_deref(), Some("/clips/a.mp4"));
    assert!(app.pending_delete.is_none());
}

#[test]
fn deleted_clip_is_forgotten() {
    let mut app = App::new(config(), Platform::Linux, 0);
    app.refresh_clips(vec![found("a.mp4", 1, 1), found("b.mp4", 1, 2)], 0);
    assert!(!app.deleted("/clips/a.mp4", Err("занят".to_string()), 1));
    assert_eq!(toast(&app), ("не удалось удалить: занят", true));
    assert_eq!(app.thumb_known.len(), 2);
    assert!(app.deleted("/clips/a.mp4", Ok(()), 2));
    assert_eq!(toast(&app), ("удалён: a.mp4", false));
    assert_eq!(app.thumb_known, ["/clips/b.mp4"]);
    assert_eq!(app.refresh_clips(vec![found("a.mp4", 9, 9)], 3), ["/clips/a.mp4"]);
}

#[test]
fn states_are_labelled() {
    let label = capture_label(&CaptureState::Running);
    assert_eq!((label.text, label.tone), ("● Запись идёт", Tone::Good));
    let label = capture_label(&CaptureState::WaitingForPortal);
    assert_eq!((label.text, label.tone), ("● Выберите экран", Tone::Warning));
    let label = capture_label(&CaptureState::Stopped);
    assert_eq!((label.text, label.tone), ("● Остановлено", Tone::Muted));
    let label = capture_label(&CaptureState::Failed(String::new()));
    assert_eq!((label.text, label.tone), ("● Ошибка записи", Tone::Danger));
    assert_eq!(save_label(true, "30"), "Сохранение…");
    assert_eq!(save_label(false, "30"), "Сохранить 30 с");
    assert_eq!(count_label(12), "12 клипов");
}

#[test]
fn shortcut_section_shows_what_is_wrong() {
    let mut state = ShortcutState::default();
    let panel = shortcut_panel(&state);
    assert_eq!((panel.tone, panel.editable, panel.hint), (Tone::Warning, true, false));
    state.registered = true;
    assert!(shortcut_panel(&state).hint);
    state.trigger = Some("F2".to_string());
    let panel = shortcut_panel(&state);
    assert_eq!((panel.tone, panel.editable, panel.hint), (Tone::Good, true, false));
    state.error = Some("нет".to_string());
    let panel = shortcut_panel(&state);
    assert_eq!((panel.tone, panel.editable), (Tone::Danger, false));
}

#[test]
fn missing_aac_is_told() {
    let missing = |wanted, used| match sound_panel(wanted, Some(used)) {
        SoundPanel::Present { aac_missing, .. } => aac_missing,
        SoundPanel::Missing => panic!("there is an encoder"),
    };
    assert!(missing(CodecPreference::Aac, AudioCodec::Opus));
    assert!(!missing(CodecPreference::Aac, AudioCodec::Aac));
    assert!(!missing(CodecPreference::Auto, AudioCodec::Opus));
    assert!(matches!(sound_panel(CodecPreference::Aac, None), SoundPanel::Missing));
    assert!(matches!(
        sound_panel(CodecPreference::Auto, Some(AudioCodec::Opus)),
        SoundPanel::Present { line, .. } if line == "сейчас пишется: Opus"
    ));
}

#[test]
fn status_lines_are_exact() {
    assert_eq!(buffer_line("12.5", "30"), "Буфер  12.5 / 30 с");
    assert_eq!(memory_line("1.5", 300), "1.5 / 300 МиБ");
    assert_eq!(groups_line(31), "31 групп кадров в видеобуфере");
    assert_eq!(sound_line("32"), "Звук  32 с");
}

#[test]
fn texts_of_a_clip() {
    let at = LocalTime { year: 2026, month: 9, day: 21, hour: 0, minute: 14, second: 37 };
    assert_eq!(
        clip_line(&at, "12.3").as_deref(),
        Some("21.09.2026  00:14 · 12.3 МБ · MP4")
    );
    assert_eq!(clip_line(&LocalTime { month: 0, ..at }, "1.0"), None);
    assert_eq!(shown_name(Platform::Linux, "/"), "");
    assert_eq!(save_command(Some("/usr/bin/replay-rs")), "/usr/bin/replay-rs --save");
    assert_eq!(save_command(None), "replay-rs --save");
}

#[test]
fn close_button_differs_by_platform() {
    assert_eq!(close_action(Platform::Linux), CloseAction::Minimize);
    assert_eq!(close_action(Platform::Windows), CloseAction::Close);
}

#[test]
fn sliders_have_their_ranges() {
    assert_eq!(slider_range(Slider::Length), (5, 300));
    assert_eq!(slider_range(Slider::Memory), (50, 4096));
    assert_eq!(slider_range(Slider::Bitrate), (1000, 100_000));
    assert_eq!(slider_range(Slider::FrameRate), (24, 144));
    assert_eq!(slider_range(Slider::KeyframeInterval), (500, 5000));
    assert_eq!(slider_range(Slider::Volume), (0, 200));
    assert_eq!(slider_range(Slider::SoundBitrate), (64, 320));
}

#[test]
fn paths_are_compared_by_their_components() {
    let mut app = App::new(config(), Platform::Linux, 0);
    app.draft.output = "/home/user//Videos/./replays/".to_string();
    assert!(!app.is_dirty(&config()));
    app.draft.output = "/home/user/Videos/../replays".to_string();
    assert!(app.is_dirty(&config()));

    assert_eq!(app.refresh_clips(vec![found("a.mp4", 1, 1)], 1), ["/clips/a.mp4"]);
    let again = |path: &str| Found { path: path.to_string(), ..found("a.mp4", 1, 1) };
    assert!(!app.rescan(&vec![again("/clips//a.mp4")], 2));
    assert!(app.rescan(&vec![again("/other/a.mp4")], 3));
    assert!(app.refresh_clips(vec![again("/clips/./a.mp4")], 4).is_empty());
    app.preview_made("/clips/a.mp4", "/cache/a.jpg".to_string());
    assert_eq!(app.clips[0].thumb.as_deref(), Some("/cache/a.jpg"));
    assert!(app.deleted("/clips///a.mp4", Ok(()), 5));
    assert!(app.thumb_known.is_empty());

    let mut app = App::new(config(), Platform::Windows, 0);
    app.draft.output = r"C:\Clips".to_string();
    let mut other = config();
    other.output = "c:/Clips/".to_string();
    assert!(!app.is_dirty(&other));
    other.output = "c:/clips/".to_string();
    assert!(app.is_dirty(&other));
}
