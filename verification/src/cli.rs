//! The command line: what it asks for, and what it is answered.

use crate::audio::{choose_codec, chosen, CodecChoice};
use crate::config::Config;
use crate::paths::Platform;
use crate::service::Mode;
use crate::shortcuts_windows::{action_of, LoopAction, CONFIGURE, QUIT, SAVE};
use crate::text::{push_signed_decimal, same, signed_decimal};
use vstd::prelude::*;

verus! {

/// Something that a running recorder is asked for.
#[derive(Debug, Clone, Copy, PartialEq, Eq, Structural)]
pub enum Request {
    Save,
    /// To open the editor of the shortcut. Without a window there is no other
    /// way to it.
    ConfigureShortcut,
    Quit,
}

/// A signal that the recorder listens to.
#[derive(Debug, Clone, Copy, PartialEq, Eq, Structural)]
pub enum Signal {
    User1,
    User2,
    Interrupt,
    Terminate,
}

/// What a signal leads to.
#[derive(Debug, Clone, Copy, PartialEq, Eq, Structural)]
pub enum Todo {
    /// Save a clip, without keeping the next signal waiting.
    Save,
    OpenEditor,
    /// Stop the pipeline first: an encoder fails if it is killed in the middle
    /// of a frame.
    Stop,
}

pub open spec fn todo_of(signal: Signal) -> Todo {
    match signal {
        Signal::User1 => Todo::Save,
        Signal::User2 => Todo::OpenEditor,
        Signal::Interrupt | Signal::Terminate => Todo::Stop,
    }
}

pub fn woken_by(signal: Signal) -> (todo: Todo)
    ensures
        todo == todo_of(signal),
{
    match signal {
        Signal::User1 => Todo::Save,
        Signal::User2 => Todo::OpenEditor,
        Signal::Interrupt => Todo::Stop,
        Signal::Terminate => Todo::Stop,
    }
}

impl Request {
    /// The request of a command line; the first of several counts.
    pub fn of(save: bool, configure_shortcut: bool, quit: bool) -> (request: Option<Request>)
        ensures
            request == if save {
                Some(Request::Save)
            } else if configure_shortcut {
                Some(Request::ConfigureShortcut)
            } else if quit {
                Some(Request::Quit)
            } else {
                None
            },
    {
        if save {
            Some(Request::Save)
        } else if configure_shortcut {
            Some(Request::ConfigureShortcut)
        } else if quit {
            Some(Request::Quit)
        } else {
            None
        }
    }

    pub open spec fn spec_label(self) -> Seq<char> {
        match self {
            Request::Save => "сохранение"@,
            Request::ConfigureShortcut => "открытие редактора комбинаций"@,
            Request::Quit => "остановка"@,
        }
    }

    pub fn label(self) -> (label: &'static str)
        ensures
            label@ == self.spec_label(),
    {
        match self {
            Request::Save => "сохранение",
            Request::ConfigureShortcut => "открытие редактора комбинаций",
            Request::Quit => "остановка",
        }
    }

    pub open spec fn spec_message(self) -> u32 {
        match self {
            Request::Save => SAVE,
            Request::ConfigureShortcut => CONFIGURE,
            Request::Quit => QUIT,
        }
    }

    /// The message that carries the request on Windows.
    pub fn message(self) -> (message: u32)
        ensures
            message == self.spec_message(),
    {
        match self {
            Request::Save => SAVE,
            Request::ConfigureShortcut => CONFIGURE,
            Request::Quit => QUIT,
        }
    }

    pub open spec fn spec_signal(self) -> Signal {
        match self {
            Request::Save => Signal::User1,
            Request::ConfigureShortcut => Signal::User2,
            Request::Quit => Signal::Terminate,
        }
    }

    /// The signal that carries the request elsewhere.
    pub fn signal(self) -> (signal: Signal)
        ensures
            signal == self.spec_signal(),
    {
        match self {
            Request::Save => Signal::User1,
            Request::ConfigureShortcut => Signal::User2,
            Request::Quit => Signal::Terminate,
        }
    }

    /// What the user is told after the process was signalled.
    pub fn answer(self, pid: i32, reached: bool) -> (answer: Result<String, String>)
        ensures
            answer is Ok <==> reached,
            answer matches Ok(text) ==> text@ == self.spec_label() + " отправлено процессу "@
                + signed_decimal(pid as int),
            answer matches Err(text) ==> text@ == "рекордер не запущен (процесс "@
                + signed_decimal(pid as int) + " не отвечает)"@,
    {
        if reached {
            let mut text = self.label().to_owned();
            text.append(" отправлено процессу ");
            push_signed_decimal(&mut text, pid as i64);
            Ok(text)
        } else {
            let mut text = "рекордер не запущен (процесс ".to_owned();
            push_signed_decimal(&mut text, pid as i64);
            text.append(" не отвечает)");
            Err(text)
        }
    }
}

/// The name of the mode that captures the screen.
pub fn default_mode(platform: Platform) -> (name: &'static str)
    ensures
        name@ == if platform == Platform::Windows {
            "desktop"@
        } else {
            "portal"@
        },
{
    match platform {
        Platform::Windows => "desktop",
        Platform::Linux => "portal",
    }
}

/// The mode of a given name; the screen of Windows is a mode of Windows only.
pub open spec fn mode_of(name: Seq<char>, platform: Platform) -> Option<Mode> {
    if name == "portal"@ {
        Some(Mode::Portal)
    } else if name == "test"@ {
        Some(Mode::Test)
    } else if name == "desktop"@ && platform == Platform::Windows {
        Some(Mode::Desktop)
    } else {
        None
    }
}

pub fn parse_mode(name: &str, platform: Platform) -> (mode: Result<Mode, String>)
    ensures
        match mode_of(name@, platform) {
            Some(m) => mode == Ok::<Mode, String>(m),
            None => mode is Err && mode->Err_0@ == "неизвестный режим: "@ + name@,
        },
{
    if same(name, "portal") {
        return Ok(Mode::Portal);
    }
    if same(name, "test") {
        return Ok(Mode::Test);
    }
    if same(name, "desktop") && platform == Platform::Windows {
        return Ok(Mode::Desktop);
    }
    let mut error = "неизвестный режим: ".to_owned();
    error.append(name);
    Err(error)
}

/// What a command line leads to.
#[derive(Debug)]
pub enum Start {
    /// A running recorder is to be asked; this process does nothing else.
    Send(Request),
    /// A recorder is to be started.
    Run(Mode),
    Refuse(String),
}

/// A request comes before everything else, whatever the rest of the command
/// line says.
pub fn start(request: Option<Request>, mode: &str, platform: Platform) -> (start: Start)
    ensures
        match request {
            Some(r) => start == Start::Send(r),
            None => match mode_of(mode@, platform) {
                Some(m) => start == Start::Run(m),
                None => start matches Start::Refuse(e) && e@ == "неизвестный режим: "@ + mode@,
            },
        },
{
    match request {
        Some(request) => Start::Send(request),
        None => match parse_mode(mode, platform) {
            Ok(mode) => Start::Run(mode),
            Err(error) => Start::Refuse(error),
        },
    }
}

/// What a second recorder says before it ends. The number of the first one is
/// left out where it cannot be read.
pub fn already_running(pid: Option<i32>) -> (text: String)
    ensures
        text@ == "replay-rs уже запущен (процесс "@ + match pid {
            Some(n) => signed_decimal(n as int),
            None => Seq::empty(),
        }
            + ").\nОкно разворачивается из панели задач, сохранение — replay-rs --save,\nостановка — replay-rs --quit."@,
{
    let mut text = "replay-rs уже запущен (процесс ".to_owned();
    match pid {
        Some(pid) => push_signed_decimal(&mut text, pid as i64),
        None => {
            assert(text@ + Seq::<char>::empty() =~= text@);
        },
    }
    text.append(
        ").\nОкно разворачивается из панели задач, сохранение — replay-rs --save,\nостановка — replay-rs --quit.",
    );
    text
}

/// The codec to record with, chosen where the sound is switched on: `aac` and
/// `opus` say which encoders are there.
pub fn sound_choice(cfg: &Config, aac: bool, opus: bool) -> (choice: Option<CodecChoice>)
    ensures
        choice == if cfg@.sound_enabled() {
            Some(chosen(cfg.audio.codec, aac, opus))
        } else {
            None
        },
{
    if cfg.audio.any_enabled() {
        Some(choose_codec(cfg.audio.codec, aac, opus))
    } else {
        None
    }
}

/// What a request sends is what the recorder takes it for, on either platform.
pub proof fn law_request_is_understood(request: Request, taskbar_created: u32)
    ensures
        match request {
            Request::Save => {
                &&& todo_of(request.spec_signal()) == Todo::Save
                &&& action_of(request.spec_message(), taskbar_created) == LoopAction::Save
            },
            Request::ConfigureShortcut => {
                &&& todo_of(request.spec_signal()) == Todo::OpenEditor
                &&& action_of(request.spec_message(), taskbar_created) == LoopAction::ShowHelp
            },
            Request::Quit => {
                &&& todo_of(request.spec_signal()) == Todo::Stop
                &&& action_of(request.spec_message(), taskbar_created) == LoopAction::NoteQuit
            },
        },
{
}

/// A signal that ends programs ends the recorder, and no other signal does.
pub proof fn law_only_these_signals_stop(signal: Signal)
    ensures
        todo_of(signal) == Todo::Stop <==> signal == Signal::Interrupt || signal
            == Signal::Terminate,
        todo_of(signal) == Todo::Save <==> signal == Signal::User1,
        todo_of(signal) == Todo::OpenEditor <==> signal == Signal::User2,
{
}

/// Requests are sent as different signals and as different messages, and no
/// request is taken for an interrupt of the keyboard.
pub proof fn law_requests_are_told_apart(a: Request, b: Request)
    ensures
        a.spec_signal() == b.spec_signal() <==> a == b,
        a.spec_message() == b.spec_message() <==> a == b,
        a.spec_label() == b.spec_label() <==> a == b,
        a.spec_signal() != Signal::Interrupt,
{
    reveal_strlit("сохранение");
    reveal_strlit("открытие редактора комбинаций");
    reveal_strlit("остановка");
    assert("сохранение"@[0] == 'с');
    assert("открытие редактора комбинаций"@.len() > "остановка"@.len());
    assert("остановка"@[0] == 'о');
    assert("открытие редактора комбинаций"@[0] == 'о');
}

/// What the user is told that was sent.
pub proof fn law_requests_are_named(request: Request)
    ensures
        request.spec_label() == match request {
            Request::Save => "сохранение"@,
            Request::ConfigureShortcut => "открытие редактора комбинаций"@,
            Request::Quit => "остановка"@,
        },
{
}

/// A mode is known by its name. The portal and the test picture are there on
/// both platforms, the desktop on Windows alone, and no other name is a mode.
pub proof fn law_modes_have_their_names(name: Seq<char>, platform: Platform)
    ensures
        mode_of(name, platform) == Some(Mode::Portal) <==> name == "portal"@,
        mode_of(name, platform) == Some(Mode::Test) <==> name == "test"@,
        mode_of(name, platform) == Some(Mode::Desktop) <==> name == "desktop"@ && platform
            == Platform::Windows,
        mode_of(name, platform) is None <==> name != "portal"@ && name != "test"@ && (name
            != "desktop"@ || platform != Platform::Windows),
{
    reveal_strlit("portal");
    reveal_strlit("test");
    reveal_strlit("desktop");
    assert("portal"@.len() == 6 && "test"@.len() == 4 && "desktop"@.len() == 7);
}

} // verus!
