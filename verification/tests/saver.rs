use replay_rs::paths::Platform;
use replay_rs::ringbuf::{Frame, NS};
use replay_rs::saver::{
    after_push, after_wait, clip_candidate, clip_fits, clip_path, mux_description, plan_clip, sound_schedule,
    video_schedule, AudioTrack, ClipEnd, ClipSearch, MuxEvent, Pushed, Timing,
};

fn frame(pts: i64, keyframe: bool) -> Frame {
    Frame::new(vec![0u8; 4], pts, keyframe)
}

#[test]
fn clip_path_avoids_collisions() {
    let dir = "/tmp/replay-test";
    let mut taken: Vec<String> = Vec::new();
    let first = clip_path(Platform::Linux, dir, &taken, "2026-01-01_00-00-00");
    assert!(first.ends_with("replay_2026-01-01_00-00-00.mp4"));
    taken.push("replay_2026-01-01_00-00-00.mp4".to_string());
    let second = clip_path(Platform::Linux, dir, &taken, "2026-01-01_00-00-00");
    assert!(second.ends_with("replay_2026-01-01_00-00-00_1.mp4"), "{second:?}");
}

#[test]
fn clip_path_takes_the_first_free_number() {
    let taken: Vec<String> = ["replay_x_1.mp4", "replay_x.mp4", "other.mp4", "replay_x_3.mp4"]
        .iter()
        .map(|s| s.to_string())
        .collect();
    assert_eq!(
        clip_path(Platform::Windows, r"D:\clips", &taken, "x"),
        r"D:\clips\replay_x_2.mp4"
    );
    let free: Vec<String> = vec!["replay_x_1.mp4".to_string()];
    assert_eq!(clip_path(Platform::Linux, "/c", &free, "x"), "/c/replay_x.mp4");
}

#[test]
fn empty_frames_rejected() {
    let e = plan_clip(&Vec::new(), 60, &None).err().unwrap();
    assert!(e.to_string().contains("буфер пуст"), "{e}");
    assert_eq!(e, "буфер пуст — нечего сохранять");
}

#[test]
fn video_times_start_at_zero_and_have_no_gaps() {
    let frames = vec![frame(1_000, true), frame(1_400, false), frame(2_000, false)];
    assert!(clip_fits(&frames, 50, &None));
    let schedule = video_schedule(&frames, 50);
    assert_eq!(
        schedule,
        vec![
            Timing { pts: 0, duration: Some(400), delta: false },
            Timing { pts: 400, duration: Some(600), delta: true },
            Timing { pts: 1_000, duration: Some(20_000_000), delta: true },
        ]
    );
    assert_eq!(video_schedule(&frames, 0)[2].duration, Some(NS as u64));
}

#[test]
fn frames_out_of_order_get_no_negative_duration() {
    let frames = vec![frame(10, true), frame(4, false)];
    let schedule = video_schedule(&frames, 1);
    assert_eq!(schedule[0].duration, Some(0));
    assert_eq!(schedule[1].pts, (4i64 - 10) as u64);
}

#[test]
fn sound_before_the_clip_is_moved_to_its_start() {
    let frames = vec![frame(900, true), frame(1_050, true), frame(1_300, true)];
    assert_eq!(
        sound_schedule(&frames, 1_000),
        vec![
            Timing { pts: 0, duration: Some(150), delta: false },
            Timing { pts: 50, duration: Some(250), delta: false },
            Timing { pts: 300, duration: None, delta: false },
        ]
    );
}

#[test]
fn plan_has_a_sound_track_only_with_sound() {
    let video = vec![frame(0, true), frame(10, false)];
    let sound = vec![frame(5, true)];
    let nothing: Vec<Frame> = Vec::new();
    let plan = plan_clip(&video, 60, &Some(AudioTrack { frames: &sound, caps: "c" })).ok().unwrap();
    assert_eq!(plan.description, mux_description(60, true));
    assert_eq!(plan.sound.unwrap()[0].pts, 5);
    assert_eq!(plan.video.len(), 2);
    let mute = plan_clip(&video, 60, &Some(AudioTrack { frames: &nothing, caps: "c" })).ok().unwrap();
    assert_eq!(mute.description, mux_description(60, false));
    assert!(mute.sound.is_none());
    assert!(plan_clip(&video, 60, &None).ok().unwrap().sound.is_none());
}

#[test]
fn muxer_is_described_exactly() {
    assert_eq!(
        mux_description(30, false),
        "appsrc name=src is-live=false format=time block=true \
         caps=video/x-h264,stream-format=byte-stream,alignment=au,framerate=30/1 ! \
         h264parse ! mp4mux name=mux faststart=true ! filesink name=output"
    );
    assert!(mux_description(30, true).ends_with(
        "filesink name=output appsrc name=asrc is-live=false format=time block=true ! mux."
    ));
}

#[test]
fn times_that_cannot_be_counted_are_noticed() {
    let far = vec![frame(i64::MIN, true), frame(i64::MAX, false)];
    assert!(!clip_fits(&far, 60, &None));
    let late = vec![frame(i64::MAX, true)];
    assert!(!clip_fits(&late, 60, &None));
    let video = vec![frame(i64::MAX - 2 * NS, true)];
    let sound = vec![frame(-10, true), frame(i64::MIN, true)];
    assert!(clip_fits(&video, 60, &None));
    assert!(!clip_fits(&video, 60, &Some(AudioTrack { frames: &sound, caps: "" })));
}

#[test]
fn error_of_the_video_counts_first() {
    let error = |text: &str| Err::<(), String>(text.to_string());
    assert!(matches!(after_push(error("v"), error("s")), Pushed::Discard(e) if e == "v"));
    assert!(matches!(after_push(Ok(()), error("s")), Pushed::Discard(e) if e == "s"));
    assert!(matches!(after_push(Ok(()), Ok(())), Pushed::WaitForEnd));
}

#[test]
fn clip_is_complete_after_the_end_of_the_stream() {
    assert!(matches!(after_wait(MuxEvent::EndOfStream), ClipEnd::Complete));
    assert!(matches!(
        after_wait(MuxEvent::Timeout),
        ClipEnd::Discard(e) if e == "мьюксинг не завершился за 30 с"
    ));
    let error = MuxEvent::Error { error: "плохо".to_string(), debug: "None".to_string() };
    assert!(matches!(
        after_wait(error),
        ClipEnd::Discard(e) if e == "ошибка мьюксинга: плохо (None)"
    ));
}

#[test]
fn case_of_a_name_does_not_matter_on_windows() {
    let taken = vec!["REPLAY_x.MP4".to_string(), "Replay_X_1.mp4".to_string()];
    assert_eq!(clip_path(Platform::Windows, r"D:\c", &taken, "x"), r"D:\c\replay_x_2.mp4");
    assert_eq!(clip_path(Platform::Linux, "/c", &taken, "x"), "/c/replay_x.mp4");
}

#[test]
fn candidates_are_numbered() {
    assert_eq!(clip_candidate("x", 0), "replay_x.mp4");
    assert_eq!(clip_candidate("x", 12), "replay_x_12.mp4");
}

#[test]
fn search_ends_with_the_first_free_path() {
    let on_disk = ["/c/replay_x.mp4", "/c/replay_x_1.mp4", "/c/replay_x_3.mp4"];
    let mut search = ClipSearch::new(Platform::Linux, "/c", "x");
    let mut asked: Vec<String> = Vec::new();
    let path = loop {
        assert!(search.has_more());
        asked.push(search.path());
        if let Some(path) = search.answer(on_disk.contains(&search.path().as_str())) {
            break path;
        }
    };
    assert_eq!(path, "/c/replay_x_2.mp4");
    assert_eq!(asked, ["/c/replay_x.mp4", "/c/replay_x_1.mp4", "/c/replay_x_2.mp4"]);
}
