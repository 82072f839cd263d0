use replay_rs::paths::{file_name, is_of_kind, is_same_path, join, stem, Platform};

#[test]
fn joining_adds_one_separator() {
    assert_eq!(join(Platform::Linux, "/a", "b"), "/a/b");
    assert_eq!(join(Platform::Linux, "/a/", "b"), "/a/b");
    assert_eq!(join(Platform::Linux, "", "b"), "b");
    assert_eq!(join(Platform::Windows, r"C:\a", "b"), r"C:\a\b");
    assert_eq!(join(Platform::Windows, "C:/a/", "b"), "C:/a/b");
    assert_eq!(join(Platform::Windows, "C:", "b"), "C:b");
    assert_eq!(join(Platform::Linux, "C:", "b"), "C:/b");
}

#[test]
fn names_of_linux() {
    let name = |path: &str| file_name(Platform::Linux, path);
    assert_eq!(name("/x/clip.mp4").as_deref(), Some("clip.mp4"));
    assert_eq!(name("clip.mp4").as_deref(), Some("clip.mp4"));
    assert_eq!(name("/x/dir//").as_deref(), Some("dir"));
    assert_eq!(name("/x/dir/./.").as_deref(), Some("dir"));
    assert_eq!(name(r"/x/a\b").as_deref(), Some(r"a\b"));
    assert_eq!(name("/x/..").as_deref(), None);
    assert_eq!(name("/").as_deref(), None);
    assert_eq!(name("").as_deref(), None);
    assert_eq!(name("./.").as_deref(), None);
    assert_eq!(name("/x/...").as_deref(), Some("..."));
}

#[test]
fn names_of_windows() {
    let name = |path: &str| file_name(Platform::Windows, path);
    assert_eq!(name(r"C:\Users\a\clip.mp4").as_deref(), Some("clip.mp4"));
    assert_eq!(name("C:/x/clip.mp4").as_deref(), Some("clip.mp4"));
    assert_eq!(name("C:clip.mp4").as_deref(), Some("clip.mp4"));
    assert_eq!(name("C:").as_deref(), None);
    assert_eq!(name(r"\\server\share").as_deref(), None);
    assert_eq!(name(r"\\server").as_deref(), Some("server"));
    assert_eq!(name(r"\\server\").as_deref(), Some("server"));
    assert_eq!(name(r"\\\share").as_deref(), Some("share"));
    assert_eq!(name("//server/share/clip.mp4").as_deref(), Some("clip.mp4"));
    assert_eq!(name(r"\\server\share\clip.mp4").as_deref(), Some("clip.mp4"));
}

#[test]
fn names_agree_with_the_standard_library() {
    for path in ["/x/clip.mp4", "a", "/x/y/", "/x/./", "/x/..", "..", ".", "/", "", "/a/b/.hidden"] {
        let expected = std::path::Path::new(path)
            .file_name()
            .map(|n| n.to_string_lossy().to_string());
        assert_eq!(file_name(Platform::Linux, path), expected, "{path}");
    }
}

#[test]
fn stems_and_extensions() {
    for name in ["clip.mp4", "clip", ".mp4", "a.b.mp4", "..mp4", "clip.", "клип.mp4"] {
        let path = std::path::Path::new(name);
        assert_eq!(
            stem(name),
            path.file_stem().unwrap().to_string_lossy(),
            "{name}"
        );
        assert_eq!(
            is_of_kind(name, "mp4"),
            path.extension().is_some_and(|x| x == "mp4"),
            "{name}"
        );
    }
    assert_eq!(stem("a.b.mp4"), "a.b");
    assert!(is_of_kind("clip.mp4", "mp4"));
    assert!(!is_of_kind(".mp4", "mp4"));
    assert!(!is_of_kind("clip.MP4", "mp4"));
}

#[test]
fn joined_name_is_found() {
    let path = join(Platform::Linux, "/home/u/Videos", "replay_1.mp4");
    assert_eq!(file_name(Platform::Linux, &path).as_deref(), Some("replay_1.mp4"));
}

#[test]
fn verbatim_and_device_names_of_windows() {
    let name = |path: &str| file_name(Platform::Windows, path);
    assert_eq!(name(r"\\?\C:\clips\a.mp4").as_deref(), Some("a.mp4"));
    assert_eq!(name(r"\\?\C:").as_deref(), None);
    assert_eq!(name(r"\\?\C:\a/b.mp4").as_deref(), Some("a/b.mp4"));
    assert_eq!(name(r"\\?\C:\clips\.").as_deref(), None);
    assert_eq!(name(r"\\?\UNC\server\share").as_deref(), None);
    assert_eq!(name(r"\\?\UNC\server").as_deref(), None);
    assert_eq!(name(r"\\?\UNC\server\share\a.mp4").as_deref(), Some("a.mp4"));
    assert_eq!(name(r"\\?\pictures").as_deref(), None);
    assert_eq!(name(r"\\?\pictures\a.mp4").as_deref(), Some("a.mp4"));
    assert_eq!(name(r"\\.\COM42").as_deref(), None);
    assert_eq!(name("//?/a/b.mp4").as_deref(), Some("b.mp4"));
}

#[test]
fn joined_name_is_found_on_windows() {
    for dir in ["C:", r"C:\", r"C:\clips", "D:/x/"] {
        let path = join(Platform::Windows, dir, "replay_1.mp4");
        assert_eq!(file_name(Platform::Windows, &path).as_deref(), Some("replay_1.mp4"), "{path}");
    }
}

/// Linux paths of all shapes.
const SHAPES: [&str; 22] = [
    "", "/", "//", ".", "./", "..", "a", "a/", "/a", "/a/", "//a", "/a//b", "/a/b", "/a/./b",
    "/a/b/.", "./a", "a/.", "a/..", "/a/../b", "../a", "/a/.b", "/a/b/",
];

#[test]
fn same_paths_agree_with_the_standard_library() {
    for a in SHAPES {
        for b in SHAPES {
            let expected = std::path::Path::new(a) == std::path::Path::new(b);
            assert_eq!(is_same_path(Platform::Linux, a, b), expected, "{a} {b}");
        }
    }
}

#[test]
fn joining_agrees_with_the_standard_library() {
    for a in SHAPES {
        for b in SHAPES {
            let expected = std::path::Path::new(a).join(b);
            assert_eq!(join(Platform::Linux, a, b), expected.to_str().unwrap(), "{a} {b}");
        }
    }
}

#[test]
fn same_paths_of_windows() {
    let same = |a: &str, b: &str| is_same_path(Platform::Windows, a, b);
    assert!(same(r"C:\clips", "c:/clips/"));
    assert!(same(r"\\server\share", "//server/share/"));
    assert!(same(r"\\.\COM1", r"\\.\COM1\"));
    assert!(same(r"\\?\C:\a\\b", r"\\?\c:\a\b\"));
    assert!(!same(r"C:\clips", r"C:\Clips"));
    assert!(!same("C:clips", r"C:\clips"));
    assert!(!same(r"\\?\C:\a", r"C:\a"));
    assert!(!same(r"\\?\C:\a/b", r"\\?\C:\a\b"));
    assert!(!same(r"\\?\C:", r"\\?\C:\"));
    assert!(!same(r"\\?\C:\a\.", r"\\?\C:\a"));
    assert!(!same(r"\\server\share", r"\\server\other"));
}

#[test]
fn joining_below_a_verbatim_directory() {
    let join = |dir: &str, leaf: &str| join(Platform::Windows, dir, leaf);
    assert_eq!(join(r"\\?\C:\X", "replay-rs/cache"), r"\\?\C:\X\replay-rs\cache");
    assert_eq!(join(r"\\?\C:\X\", "a"), r"\\?\C:\X\a");
    assert_eq!(join(r"\\?\C:", "a"), r"\\?\C:\a");
    assert_eq!(join(r"\\?\C:\", "a"), r"\\?\C:\a");
    assert_eq!(join(r"\\?\C:\X", "../a/./b"), r"\\?\C:\a\b");
    assert_eq!(join(r"\\?\C:\X\y", r"\a"), r"\\?\C:\a");
    assert_eq!(join(r"\\?\C:\X", r"D:\a"), r"D:\a");
    assert_eq!(join(r"\\?\UNC\server\share", "a"), r"\\?\UNC\server\share\a");
    assert_eq!(file_name(Platform::Windows, &join(r"\\?\C:\X", "a.mp4")).as_deref(), Some("a.mp4"));
}

#[test]
fn joining_a_path_with_a_root() {
    assert_eq!(join(Platform::Windows, r"C:\a\b", r"\c"), r"C:\c");
    assert_eq!(join(Platform::Windows, r"C:\a\b", "/c"), "C:/c");
    assert_eq!(join(Platform::Windows, r"C:\a", "D:c"), "D:c");
    assert_eq!(join(Platform::Windows, r"C:\a", r"\\server\share\c"), r"\\server\share\c");
    assert_eq!(join(Platform::Linux, "/a", "/b"), "/b");
}
