use replay_rs::paths::Platform;
use replay_rs::platform::{check_location, file_uri, shell_opened, windows_file_uri, windows_source};

#[test]
fn windows_drive_and_network_uris() {
    assert_eq!(
        windows_file_uri(r"C:\Users\User Name\preview.jpg"),
        "file:///C:/Users/User Name/preview.jpg"
    );
    assert_eq!(
        windows_file_uri(r"\\server\share\preview.jpg"),
        "file://server/share/preview.jpg"
    );
}

#[test]
fn uris_of_both_platforms() {
    assert_eq!(file_uri(Platform::Linux, "/a b/c.jpg"), "file:///a b/c.jpg");
    assert_eq!(file_uri(Platform::Windows, r"D:\c.jpg"), "file:///D:/c.jpg");
}

#[test]
fn locations_are_taken_as_they_are() {
    assert!(check_location(r"C:\Users\Имя пользователя\Videos\clip ! 1.mp4").is_ok());
    assert!(check_location("/tmp/a \"quoted\" clip.mp4").is_ok());
    assert_eq!(check_location("bad\0path"), Err("путь содержит NUL".to_string()));
}

#[test]
fn monitor_of_windows() {
    assert_eq!(
        windows_source(-1),
        "d3d11screencapturesrc capture-api=dxgi monitor-index=-1 show-cursor=true ! video/x-raw,format=BGRA"
    );
    assert!(windows_source(2).contains("monitor-index=2 "));
}

#[test]
fn shell_reports_success_above_its_error_codes() {
    assert_eq!(shell_opened(33), Ok(()));
    assert_eq!(
        shell_opened(32),
        Err("не удалось открыть файл (ShellExecuteW: 32)".to_string())
    );
}
