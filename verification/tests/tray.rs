use replay_rs::tray::{menu, tool_tip, TrayAction, TrayItem};

#[test]
fn menu_saves_shows_and_quits() {
    let items = menu("30");
    let entries: Vec<Option<(String, String, TrayAction)>> = items
        .into_iter()
        .map(|item| match item {
            TrayItem::Entry { label, icon, action } => Some((label, icon.to_string(), action)),
            TrayItem::Separator => None,
        })
        .collect();
    let entry = |label: &str, icon: &str, action| Some((label.to_string(), icon.to_string(), action));
    assert_eq!(
        entries,
        vec![
            entry("Сохранить последние 30 с", "media-record", TrayAction::Save),
            None,
            entry("Папка с клипами", "folder-videos", TrayAction::OpenFolder),
            None,
            entry("Выход", "application-exit", TrayAction::Quit),
        ]
    );
}

#[test]
fn tool_tip_shows_the_buffer() {
    assert_eq!(tool_tip("12", "30", "4"), "буфер 12 / 30 с · 4 МБ");
}
