use replay_rs::config::Env;
use replay_rs::instance::{acquire, pidfile, running_pid};
use replay_rs::paths::Platform;

fn env(platform: Platform) -> Env {
    Env {
        platform,
        home: None,
        config_home: Some(r"C:\Roaming".to_string()),
        cache_home: None,
        runtime_dir: Some("/run/user/1000".to_string()),
        temp_dir: "/tmp".to_string(),
    }
}

#[test]
fn pid_file_of_both_platforms() {
    let mut linux = env(Platform::Linux);
    assert_eq!(pidfile(&linux), "/run/user/1000/replay-rs.pid");
    linux.runtime_dir = None;
    assert_eq!(pidfile(&linux), "/tmp/replay-rs.pid");
    assert_eq!(pidfile(&env(Platform::Windows)), r"C:\Roaming\replay-rs\replay-rs.pid");
}

#[test]
fn lock_decides_who_runs() {
    assert_eq!(acquire(false, 42), None);
    assert_eq!(acquire(true, 42).as_deref(), Some("42"));
}

#[test]
fn written_number_is_read_back() {
    let places = env(Platform::Linux);
    for pid in [1u32, 42, 2_147_483_647] {
        let text = acquire(true, pid).unwrap();
        assert_eq!(running_pid(Some(&text), &places), Ok(pid as i32));
        assert_eq!(running_pid(Some(&format!(" {text}\n")), &places), Ok(pid as i32));
    }
}

#[test]
fn missing_and_damaged_files_are_told_apart() {
    let places = env(Platform::Linux);
    assert_eq!(
        running_pid(None, &places),
        Err("рекордер не запущен (нет /run/user/1000/replay-rs.pid)".to_string())
    );
    for text in ["", "abc", "2147483648"] {
        assert_eq!(
            running_pid(Some(text), &places),
            Err("повреждённый pid-файл".to_string())
        );
    }
}
