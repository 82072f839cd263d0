//! The icon in the tray of the desktop.

use vstd::prelude::*;

verus! {

/// What an item of the menu does.
#[derive(Debug, Clone, Copy, PartialEq, Eq, Structural)]
pub enum TrayAction {
    /// Save a clip, without keeping the icon waiting.
    Save,
    OpenFolder,
    Quit,
}

#[derive(Debug)]
pub enum TrayItem {
    Entry { label: String, icon: &'static str, action: TrayAction },
    Separator,
}

pub open spec fn is_entry(
    item: TrayItem,
    label: Seq<char>,
    icon: Seq<char>,
    action: TrayAction,
) -> bool {
    item matches TrayItem::Entry { label: l, icon: i, action: a } && l@ == label && i@ == icon && a
        == action
}

/// The menu of the icon. `seconds` is the length of a clip, as it is shown.
pub fn menu(seconds: &str) -> (items: Vec<TrayItem>)
    ensures
        items@.len() == 5,
        is_entry(
            items@[0],
            "Сохранить последние "@ + seconds@ + " с"@,
            "media-record"@,
            TrayAction::Save,
        ),
        items@[1] is Separator,
        is_entry(items@[2], "Папка с клипами"@, "folder-videos"@, TrayAction::OpenFolder),
        items@[3] is Separator,
        is_entry(items@[4], "Выход"@, "application-exit"@, TrayAction::Quit),
{
    let mut save = "Сохранить последние ".to_owned();
    save.append(seconds);
    save.append(" с");
    let mut items: Vec<TrayItem> = Vec::new();
    items.push(TrayItem::Entry { label: save, icon: "media-record", action: TrayAction::Save });
    items.push(TrayItem::Separator);
    items.push(
        TrayItem::Entry {
            label: "Папка с клипами".to_owned(),
            icon: "folder-videos",
            action: TrayAction::OpenFolder,
        },
    );
    items.push(TrayItem::Separator);
    items.push(
        TrayItem::Entry {
            label: "Выход".to_owned(),
            icon: "application-exit",
            action: TrayAction::Quit,
        },
    );
    items
}

/// The description under the icon. The arguments are numbers, as they are
/// shown: seconds in the buffer, its length, megabytes in the buffer.
pub fn tool_tip(seconds: &str, length: &str, megabytes: &str) -> (text: String)
    ensures
        text@ == "буфер "@ + seconds@ + " / "@ + length@ + " с · "@ + megabytes@ + " МБ"@,
{
    let mut text = "буфер ".to_owned();
    text.append(seconds);
    text.append(" / ");
    text.append(length);
    text.append(" с · ");
    text.append(megabytes);
    text.append(" МБ");
    text
}

/// An item of the menu has one label, one icon and one action.
pub proof fn law_item_is_told_by_its_parts(
    item: TrayItem,
    label: Seq<char>,
    icon: Seq<char>,
    action: TrayAction,
    other_label: Seq<char>,
    other_icon: Seq<char>,
    other_action: TrayAction,
)
    requires
        is_entry(item, label, icon, action),
        is_entry(item, other_label, other_icon, other_action),
    ensures
        label == other_label,
        icon == other_icon,
        action == other_action,
        item !is Separator,
{
}

} // verus!
