//! The shortcut, the tray icon and the channel of commands on Windows: a
//! window of messages that nobody sees.

use crate::config::{config_dir, config_place, text_of, Env};
use crate::text::chars_of;
use vstd::prelude::*;

verus! {

/// The first message number that is left to applications.
pub const WM_APP: u32 = 0x8000;

pub const WM_CLOSE: u32 = 0x0010;

pub const WM_LBUTTONUP: u32 = 0x0202;

pub const WM_RBUTTONUP: u32 = 0x0205;

pub const WM_HOTKEY: u32 = 0x0312;

/// Save a clip.
pub const SAVE: u32 = WM_APP + 1;

/// End the application.
pub const QUIT: u32 = WM_APP + 2;

/// Tell about the shortcut.
pub const CONFIGURE: u32 = WM_APP + 3;

/// Show the directory of the clips.
pub const OPEN_FOLDER: u32 = WM_APP + 4;

/// Something happened to the tray icon.
pub const TRAY: u32 = WM_APP + 5;

/// What the window shows.
#[derive(Debug)]
pub struct ShortcutState {
    pub trigger: Option<String>,
    pub error: Option<String>,
    pub registered: bool,
}

impl Default for ShortcutState {
    fn default() -> (state: Self)
        ensures
            state.trigger is None,
            state.error is None,
            !state.registered,
    {
        ShortcutState { trigger: None, error: None, registered: false }
    }
}

impl Clone for ShortcutState {
    fn clone(&self) -> (copy: Self)
        ensures
            copy == *self,
    {
        ShortcutState {
            trigger: match &self.trigger {
                Some(t) => Some(t.clone()),
                None => None,
            },
            error: match &self.error {
                Some(e) => Some(e.clone()),
                None => None,
            },
            registered: self.registered,
        }
    }
}

impl ShortcutState {
    /// The text for the window: an error counts before a key.
    pub fn summary(&self) -> (text: String)
        ensures
            text@ == match (self.error, self.trigger) {
                (Some(error), _) => error@,
                (None, Some(trigger)) => trigger@,
                (None, None) => "регистрируется…"@,
            },
    {
        match &self.error {
            Some(error) => error.clone(),
            None => match &self.trigger {
                Some(trigger) => trigger.clone(),
                None => "регистрируется…".to_owned(),
            },
        }
    }

    /// The system has registered the key, or another program has it.
    pub fn hotkey_registered(&mut self, registered: bool)
        ensures
            final(self).registered == registered,
            registered ==> text_of(final(self).trigger) == Some("Ctrl+Alt+S"@) && final(self).error
                == old(self).error,
            !registered ==> final(self).trigger == old(self).trigger && text_of(final(self).error)
                == Some("Ctrl+Alt+S занят или недоступен; используйте кнопку сохранения"@),
    {
        self.registered = registered;
        if registered {
            self.trigger = Some("Ctrl+Alt+S".to_owned());
        } else {
            self.error =
            Some("Ctrl+Alt+S занят или недоступен; используйте кнопку сохранения".to_owned());
        }
    }

    /// The window of messages could not be set up.
    pub fn failed(&mut self, error: &str)
        ensures
            text_of(final(self).error) == Some("Windows: "@ + error@),
            final(self).trigger == old(self).trigger,
            final(self).registered == old(self).registered,
    {
        let mut text = "Windows: ".to_owned();
        text.append(error);
        self.error = Some(text);
    }
}

/// The integration with the desktop, as the rest of the program sees it.
#[derive(Debug)]
pub struct Shortcuts {
    pub state: ShortcutState,
    /// The end of the application was asked for.
    pub quit: bool,
    /// The handle of the window of messages, 0 where there is none.
    pub window: usize,
}

/// What a message of the queue asks for.
#[derive(Debug, Clone, Copy, PartialEq, Eq, Structural)]
pub enum LoopAction {
    /// Save a clip, without keeping the queue waiting.
    Save,
    /// The wish to end was noted.
    NoteQuit,
    ShowHelp,
    OpenFolder,
    /// The task bar was started anew and has lost the icon.
    RestoreIcon,
    /// Hand the message to the window.
    Dispatch,
}

pub open spec fn action_of(message: u32, taskbar_created: u32) -> LoopAction {
    if message == SAVE || message == WM_HOTKEY {
        LoopAction::Save
    } else if message == QUIT {
        LoopAction::NoteQuit
    } else if message == CONFIGURE {
        LoopAction::ShowHelp
    } else if message == OPEN_FOLDER {
        LoopAction::OpenFolder
    } else if message == taskbar_created && taskbar_created != 0 {
        LoopAction::RestoreIcon
    } else {
        LoopAction::Dispatch
    }
}

impl Shortcuts {
    pub fn new() -> (shortcuts: Self)
        ensures
            shortcuts.state.trigger is None,
            shortcuts.state.error is None,
            !shortcuts.state.registered,
            !shortcuts.quit,
            shortcuts.window == 0,
    {
        Shortcuts { state: ShortcutState::default(), quit: false, window: 0 }
    }

    pub fn state(&self) -> (state: ShortcutState)
        ensures
            state == self.state,
    {
        self.state.clone()
    }

    pub fn should_quit(&self) -> (quit: bool)
        ensures
            quit == self.quit,
    {
        self.quit
    }

    pub fn available(&self) -> (available: bool)
        ensures
            available <==> self.window != 0,
    {
        self.window != 0
    }

    /// The message to post where the editor of the shortcut is asked for.
    pub fn open_settings(&self) -> (message: Option<u32>)
        ensures
            message == if self.window != 0 {
                Some(CONFIGURE)
            } else {
                None
            },
    {
        if self.window != 0 {
            Some(CONFIGURE)
        } else {
            None
        }
    }

    /// The message to post where the integration is to end.
    pub fn close(&self) -> (message: Option<u32>)
        ensures
            message == if self.window != 0 {
                Some(WM_CLOSE)
            } else {
                None
            },
    {
        if self.window != 0 {
            Some(WM_CLOSE)
        } else {
            None
        }
    }

    /// Takes a message off the queue. `taskbar_created` is the number by which
    /// the task bar announces itself, 0 where there is none.
    pub fn received(&mut self, message: u32, taskbar_created: u32) -> (action: LoopAction)
        ensures
            action == action_of(message, taskbar_created),
            final(self).quit == (old(self).quit || action == LoopAction::NoteQuit),
            final(self).state == old(self).state,
            final(self).window == old(self).window,
    {
        if message == SAVE || message == WM_HOTKEY {
            LoopAction::Save
        } else if message == QUIT {
            self.quit = true;
            LoopAction::NoteQuit
        } else if message == CONFIGURE {
            LoopAction::ShowHelp
        } else if message == OPEN_FOLDER {
            LoopAction::OpenFolder
        } else if message == taskbar_created && taskbar_created != 0 {
            LoopAction::RestoreIcon
        } else {
            LoopAction::Dispatch
        }
    }
}

/// What the window does with a message that reaches it.
#[derive(Debug, Clone, Copy, PartialEq, Eq, Structural)]
pub enum WindowAction {
    ShowMenu,
    EndLoop,
    /// What windows do with it by default.
    Default,
}

/// The window shows the menu when a button was released over the icon, and
/// ends the queue when it is closed.
pub fn window_action(message: u32, detail: u32) -> (action: WindowAction)
    ensures
        action == if message == TRAY && (detail == WM_RBUTTONUP || detail == WM_LBUTTONUP) {
            WindowAction::ShowMenu
        } else if message == WM_CLOSE {
            WindowAction::EndLoop
        } else {
            WindowAction::Default
        },
{
    if message == TRAY && (detail == WM_RBUTTONUP || detail == WM_LBUTTONUP) {
        WindowAction::ShowMenu
    } else if message == WM_CLOSE {
        WindowAction::EndLoop
    } else {
        WindowAction::Default
    }
}

/// An item of the menu of the icon.
#[derive(Debug, Clone, Copy)]
pub enum MenuItem {
    Command(u32, &'static str),
    Separator,
}

/// The menu of the icon. The number of an item is the message that it posts.
pub fn menu() -> (items: Vec<MenuItem>)
    ensures
        items@.len() == 4,
        items@[0] matches MenuItem::Command(id, label) && id == SAVE && label@
            == "Сохранить реплей"@,
        items@[1] matches MenuItem::Command(id, label) && id == OPEN_FOLDER && label@
            == "Папка с клипами"@,
        items@[2] is Separator,
        items@[3] matches MenuItem::Command(id, label) && id == QUIT && label@ == "Выход"@,
{
    let mut items: Vec<MenuItem> = Vec::new();
    items.push(MenuItem::Command(SAVE, "Сохранить реплей"));
    items.push(MenuItem::Command(OPEN_FOLDER, "Папка с клипами"));
    items.push(MenuItem::Separator);
    items.push(MenuItem::Command(QUIT, "Выход"));
    items
}

/// Whether a command found the window of a running recorder.
pub fn command_target(found: bool) -> (result: Result<(), String>)
    ensures
        result is Ok <==> found,
        result matches Err(e) ==> e@ == "replay-rs не запущен в этой сессии"@,
{
    if found {
        Ok(())
    } else {
        Err("replay-rs не запущен в этой сессии".to_owned())
    }
}

// ------------------------------------------------------------- wide strings

/// A character in UTF-16.
pub open spec fn utf16(c: char) -> Seq<u16> {
    let code = c as u32;
    if code < 0x10000 {
        seq![code as u16]
    } else {
        seq![
            (0xd800 + (code - 0x10000) / 0x400) as u16,
            (0xdc00 + (code - 0x10000) % 0x400) as u16,
        ]
    }
}

/// A text in UTF-16.
pub open spec fn utf16_text(text: Seq<char>) -> Seq<u16>
    decreases text.len(),
{
    if text.len() == 0 {
        Seq::empty()
    } else {
        utf16_text(text.drop_last()) + utf16(text.last())
    }
}

/// A text as Windows takes it: in UTF-16, with a zero at the end.
pub fn wide(text: &str) -> (units: Vec<u16>)
    ensures
        units@ == utf16_text(text@).push(0),
{
    let chars = chars_of(text);
    let mut units: Vec<u16> = Vec::new();
    let mut i: usize = 0;
    while i < chars.len()
        invariant
            chars@ == text@,
            i <= chars@.len(),
            units@ == utf16_text(text@.take(i as int)),
        decreases chars@.len() - i,
    {
        let c = chars[i];
        proof {
            vstd::utf8::char_is_scalar(c);
        }
        let code = c as u32;
        let ghost before = units@;
        if code < 0x10000 {
            units.push(code as u16);
        } else {
            let rest = code - 0x10000;
            units.push((0xd800 + rest / 0x400) as u16);
            units.push((0xdc00 + rest % 0x400) as u16);
        }
        proof {
            assert(text@.take(i + 1).drop_last() =~= text@.take(i as int));
            assert(text@.take(i + 1).last() == c);
            assert(units@ =~= before + utf16(c));
        }
        i = i + 1;
    }
    assert(text@.take(i as int) =~= text@);
    units.push(0);
    units
}

/// The title by which commands find the window. It tells users apart; sessions
/// are kept apart by the system.
pub fn window_name(env: &Env) -> (units: Vec<u16>)
    ensures
        units@ == utf16_text("replay-rs commands: "@ + config_place(env@)).push(0),
{
    let mut name = "replay-rs commands: ".to_owned();
    name.append(config_dir(env).as_str());
    wide(name.as_str())
}

// ----------------------------------------------------------------- the laws

/// A text without zeros is a wide string of its own length: its only zero is
/// the one at its end.
pub proof fn law_wide_string_ends_once(text: Seq<char>)
    requires
        !text.contains('\0'),
    ensures
        forall|i: int| 0 <= i < utf16_text(text).len() ==> #[trigger] utf16_text(text)[i] != 0,
    decreases text.len(),
{
    if text.len() > 0 {
        let head = text.drop_last();
        let c = text.last();
        assert(text.contains(c));
        assert(!head.contains('\0')) by {
            if head.contains('\0') {
                let k = choose|k: int| 0 <= k < head.len() && head[k] == '\0';
                assert(text[k] == '\0');
            }
        }
        law_wide_string_ends_once(head);
        vstd::utf8::char_is_scalar(c);
        vstd::utf8::char_u32_cast(c, c as u32);
        vstd::utf8::char_u32_cast('\0', 0);
        assert forall|i: int| 0 <= i < utf16_text(text).len() implies #[trigger] utf16_text(text)[i]
            != 0 by {
            let n = utf16_text(head).len();
            if i < n {
                assert(utf16_text(text)[i] == utf16_text(head)[i]);
            } else {
                assert(utf16_text(text)[i] == utf16(c)[i - n]);
            }
        }
    }
}

/// The numbers of the commands, of the icon and of the system do not collide.
pub proof fn law_messages_are_distinct()
    ensures
        SAVE != QUIT && SAVE != CONFIGURE && SAVE != OPEN_FOLDER && SAVE != TRAY,
        QUIT != CONFIGURE && QUIT != OPEN_FOLDER && QUIT != TRAY,
        CONFIGURE != OPEN_FOLDER && CONFIGURE != TRAY && OPEN_FOLDER != TRAY,
        WM_HOTKEY < WM_APP && WM_CLOSE < WM_APP,
{
}

/// What the messages of the queue lead to. The hotkey saves as the command
/// does, each command has its own action, and every other message of the
/// system is left to the window.
pub proof fn law_messages_have_their_actions(message: u32, taskbar_created: u32)
    ensures
        action_of(message, taskbar_created) is Save <==> message == 0x8001 || message == 0x0312,
        action_of(message, taskbar_created) is NoteQuit <==> message == 0x8002,
        action_of(message, taskbar_created) is ShowHelp <==> message == 0x8003,
        action_of(message, taskbar_created) is OpenFolder <==> message == 0x8004,
        action_of(message, taskbar_created) is RestoreIcon ==> message == taskbar_created
            && taskbar_created != 0,
        message == taskbar_created && taskbar_created > 0x8005 ==> action_of(
            message,
            taskbar_created,
        ) is RestoreIcon,
        message == 0x8005 && taskbar_created != message ==> action_of(message, taskbar_created)
            is Dispatch,
        message == 0x0010 && taskbar_created != message ==> action_of(message, taskbar_created)
            is Dispatch,
{
}

/// The character that units of UTF-16 stand for.
pub open spec fn read_utf16(units: Seq<u16>) -> int {
    if units.len() == 1 {
        units[0] as int
    } else {
        0x10000 + (units[0] - 0xd800) * 0x400 + (units[1] - 0xdc00)
    }
}

/// A character in UTF-16 reads back as that character: one unit, or a pair of
/// which the first says that it leads and the second that it follows.
pub proof fn law_utf16_reads_back(c: char)
    ensures
        read_utf16(utf16(c)) == c as int,
        utf16(c).len() == 1 || utf16(c).len() == 2,
        utf16(c).len() == 1 ==> !(0xd800 <= utf16(c)[0] < 0xe000),
        utf16(c).len() == 2 ==> 0xd800 <= utf16(c)[0] < 0xdc00 && 0xdc00 <= utf16(c)[1] < 0xe000,
{
    vstd::utf8::char_is_scalar(c);
    vstd::utf8::char_u32_cast(c, c as u32);
}

/// A text in UTF-16 is its characters in a row, in their order.
pub proof fn law_utf16_text_is_written_in_order(a: Seq<char>, c: char, b: Seq<char>)
    ensures
        utf16_text(Seq::<char>::empty()).len() == 0,
        utf16_text(a.push(c) + b) == utf16_text(a) + utf16(c) + utf16_text(b),
    decreases b.len(),
{
    if b.len() == 0 {
        assert(a.push(c) + b =~= a.push(c));
        assert(a.push(c).drop_last() =~= a);
        assert(utf16_text(a) + utf16(c) + utf16_text(b) =~= utf16_text(a) + utf16(c));
    } else {
        let whole = a.push(c) + b;
        assert(whole.drop_last() =~= a.push(c) + b.drop_last());
        law_utf16_text_is_written_in_order(a, c, b.drop_last());
        assert(utf16_text(a) + utf16(c) + utf16_text(b) =~= (utf16_text(a) + utf16(c) + utf16_text(
            b.drop_last(),
        )) + utf16(b.last()));
    }
}

} // verus!
