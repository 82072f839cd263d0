//! The capture thread: what it does next, and what it shows meanwhile.
//!
//! Saving does not come through here: the thread is only told to rebuild its
//! pipeline or to stop.

use crate::config::Settings;
use crate::paths::Platform;
use crate::pipeline::{plan_pipeline, spec_audio_branch, spec_build_description};
use crate::pipeline::{spec_test_source, test_source, PipelinePlan};
use crate::platform::{spec_windows_source, windows_source};
use crate::portal::{spec_source_desc, ScreenCastSession};
use crate::recorder::{law_reset_empties_both_buffers, Recorder};
use crate::text::{decimal, signed_decimal};
use vstd::prelude::*;

verus! {

#[derive(Debug, Clone, Copy, PartialEq, Eq, Structural)]
pub enum Mode {
    /// A test picture, without a screen or a portal.
    Test,
    /// The screen, through the desktop portal.
    Portal,
    /// The screen of Windows.
    Desktop,
}

#[derive(Debug, Clone, Copy, PartialEq, Eq, Structural)]
pub enum Command {
    /// Rebuild the pipeline for new settings.
    Restart,
    Stop,
}

/// What the window shows of the capture.
#[derive(Debug, PartialEq, Eq)]
pub enum CaptureState {
    /// The dialog of the portal is open.
    WaitingForPortal,
    /// A pipeline runs, or is being built.
    Running,
    Failed(String),
    Stopped,
}

impl Clone for CaptureState {
    fn clone(&self) -> (copy: Self)
        ensures
            copy == *self,
    {
        match self {
            CaptureState::WaitingForPortal => CaptureState::WaitingForPortal,
            CaptureState::Running => CaptureState::Running,
            CaptureState::Failed(error) => CaptureState::Failed(error.clone()),
            CaptureState::Stopped => CaptureState::Stopped,
        }
    }
}

// ------------------------------------------------------------- one pipeline

/// What the queue of commands holds.
#[derive(Debug, Clone, Copy, PartialEq, Eq, Structural)]
pub enum Polled {
    Nothing,
    Received(Command),
    /// Nobody is left who could send one.
    Disconnected,
}

/// What the bus of the pipeline says.
#[derive(Debug)]
pub enum BusEvent {
    /// An error, and what its author added for debugging.
    Error { error: String, debug: String },
    EndOfStream,
    Other,
}

/// Why a pipeline that runs is to end.
#[derive(Debug)]
pub struct RunWatch {
    pub pending: Option<Command>,
    pub failure: Option<String>,
}

impl RunWatch {
    pub fn new() -> (watch: Self)
        ensures
            watch.pending is None,
            watch.failure is None,
    {
        RunWatch { pending: None, failure: None }
    }

    /// A look into the queue of commands. Says whether the pipeline is to end.
    pub fn polled(&mut self, polled: Polled) -> (quit: bool)
        ensures
            final(self).failure == old(self).failure,
            quit <==> polled != Polled::Nothing,
            final(self).pending == match polled {
                Polled::Nothing => old(self).pending,
                Polled::Received(command) => Some(command),
                Polled::Disconnected => Some(Command::Stop),
            },
    {
        match polled {
            Polled::Nothing => false,
            Polled::Received(command) => {
                self.pending = Some(command);
                true
            },
            Polled::Disconnected => {
                self.pending = Some(Command::Stop);
                true
            },
        }
    }

    /// A message of the bus. Says whether the pipeline is to end.
    pub fn bus(&mut self, event: BusEvent) -> (quit: bool)
        ensures
            final(self).pending == old(self).pending,
            quit <==> event !is Other,
            match event {
                BusEvent::Error { error, debug } => final(self).failure matches Some(f) && f@
                    == error@ + " ("@ + debug@ + ")"@,
                BusEvent::EndOfStream => final(self).failure matches Some(f) && f@
                    == "поток неожиданно закончился"@,
                BusEvent::Other => final(self).failure == old(self).failure,
            },
    {
        match event {
            BusEvent::Error { error, debug } => {
                let mut text = error;
                text.append(" (");
                text.append(debug.as_str());
                text.append(")");
                self.failure = Some(text);
                true
            },
            BusEvent::EndOfStream => {
                self.failure = Some("поток неожиданно закончился".to_owned());
                true
            },
            BusEvent::Other => false,
        }
    }

    /// What the pipeline ended with: a failure counts before a command.
    pub fn ended(self) -> (end: Result<Option<Command>, String>)
        ensures
            end == match self.failure {
                Some(error) => Err::<Option<Command>, String>(error),
                None => Ok(self.pending),
            },
    {
        match self.failure {
            Some(error) => Err(error),
            None => Ok(self.pending),
        }
    }
}

// --------------------------------------------------------------- the thread

/// What the capture thread is to do.
#[derive(Debug)]
pub enum CaptureStep {
    /// Open a session of the portal and hand it to `portal_opened`. It is open
    /// for good: a rebuilt pipeline does not need another dialog.
    OpenPortal,
    /// Build and run a pipeline, and hand its end to `run_ended`.
    Run(PipelinePlan),
    Exit,
}

/// The capture thread.
#[derive(Debug)]
pub struct CaptureThread {
    pub mode: Mode,
    pub platform: Platform,
    pub session: Option<ScreenCastSession>,
    pub state: CaptureState,
}

/// Where the frames come from: an open session, else the picture of the mode.
pub open spec fn source_of(mode: Mode, session: Option<ScreenCastSession>, cfg: Settings) -> Seq<
    char,
> {
    match session {
        Some(session) => spec_source_desc(session.fd as int, session.node_id as nat),
        None => if mode == Mode::Desktop {
            spec_windows_source(cfg.monitor as int)
        } else {
            spec_test_source(cfg)
        },
    }
}

impl CaptureThread {
    pub open spec fn same_place(self, other: CaptureThread) -> bool {
        self.mode == other.mode && self.platform == other.platform
    }

    /// A pipeline is to run, on emptied buffers: the running time of every
    /// pipeline starts anew, and times of two pipelines do not go together.
    pub open spec fn runs(self, step: CaptureStep, before: Recorder, after: Recorder) -> bool {
        &&& step matches CaptureStep::Run(plan)
        &&& plan.is_for(
            before.settings(),
            source_of(self.mode, self.session, before.settings()),
            before.codec,
            self.platform,
        )
        &&& after.is_reset_of(before)
    }

    /// Starts the thread. Only the portal has to be asked first.
    pub fn start(mode: Mode, platform: Platform, rec: &mut Recorder) -> (started: (
        CaptureThread,
        CaptureStep,
    ))
        requires
            old(rec).wf(),
        ensures
            started.0.mode == mode,
            started.0.platform == platform,
            started.0.session is None,
            started.0.state == if mode == Mode::Portal {
                CaptureState::WaitingForPortal
            } else {
                CaptureState::Running
            },
            if mode == Mode::Portal {
                started.1 is OpenPortal && *final(rec) == *old(rec)
            } else {
                started.0.runs(started.1, *old(rec), *final(rec))
            },
    {
        let thread = CaptureThread {
            mode,
            platform,
            session: None,
            state: match mode {
                Mode::Portal => CaptureState::WaitingForPortal,
                _ => CaptureState::Running,
            },
        };
        let step = match mode {
            Mode::Portal => CaptureStep::OpenPortal,
            _ => thread.next_run(rec),
        };
        (thread, step)
    }

    /// The portal has opened a session, or has not.
    pub fn portal_opened(
        &mut self,
        opened: Result<ScreenCastSession, String>,
        rec: &mut Recorder,
    ) -> (step: CaptureStep)
        requires
            old(rec).wf(),
        ensures
            final(self).same_place(*old(self)),
            match opened {
                Ok(session) => {
                    &&& final(self).session == Some(session)
                    &&& final(self).state == CaptureState::Running
                    &&& final(self).runs(step, *old(rec), *final(rec))
                },
                Err(error) => {
                    &&& final(self).session == old(self).session
                    &&& final(self).state == CaptureState::Failed(error)
                    &&& step is Exit
                    &&& *final(rec) == *old(rec)
                },
            },
    {
        match opened {
            Ok(session) => {
                self.session = Some(session);
                self.state = CaptureState::Running;
                self.next_run(rec)
            },
            Err(error) => {
                self.state = CaptureState::Failed(error);
                CaptureStep::Exit
            },
        }
    }

    /// The pipeline has ended, by a command or by an error.
    pub fn run_ended(&mut self, end: Result<Option<Command>, String>, rec: &mut Recorder) -> (step:
        CaptureStep)
        requires
            old(rec).wf(),
        ensures
            final(self).same_place(*old(self)),
            final(self).session == old(self).session,
            match end {
                Ok(Some(Command::Restart)) => {
                    &&& final(self).state == CaptureState::Running
                    &&& final(self).runs(step, *old(rec), *final(rec))
                },
                Ok(_) => {
                    &&& final(self).state == CaptureState::Stopped
                    &&& step is Exit
                    &&& *final(rec) == *old(rec)
                },
                Err(error) => {
                    &&& final(self).state == CaptureState::Failed(error)
                    &&& step is Exit
                    &&& *final(rec) == *old(rec)
                },
            },
    {
        match end {
            Ok(Some(Command::Restart)) => {
                self.state = CaptureState::Running;
                self.next_run(rec)
            },
            Ok(_) => {
                self.state = CaptureState::Stopped;
                CaptureStep::Exit
            },
            Err(error) => {
                self.state = CaptureState::Failed(error);
                CaptureStep::Exit
            },
        }
    }

    fn next_run(&self, rec: &mut Recorder) -> (step: CaptureStep)
        requires
            old(rec).wf(),
        ensures
            self.runs(step, *old(rec), *final(rec)),
    {
        rec.reset_buffers();
        let cfg = rec.config();
        let source = match &self.session {
            Some(session) => session.source_desc(),
            None => match self.mode {
                Mode::Desktop => windows_source(cfg.monitor),
                _ => test_source(&cfg),
            },
        };
        CaptureStep::Run(plan_pipeline(&cfg, source.as_str(), rec.codec, self.platform))
    }
}

// ----------------------------------------------------------------- the laws

/// A pipeline that runs is built from the settings as they are, and from the
/// right source: an open session of the portal counts before everything, the
/// screen of Windows is captured in its mode alone, and the test picture
/// otherwise.
pub proof fn law_source_is_the_one_of_the_mode(
    mode: Mode,
    session: Option<ScreenCastSession>,
    cfg: Settings,
)
    ensures
        session matches Some(s) ==> source_of(mode, session, cfg) == "pipewiresrc fd="@
            + signed_decimal(s.fd as int) + " path="@ + decimal(s.node_id as nat)
            + " do-timestamp=true keepalive-time=1000"@,
        session is None && mode == Mode::Desktop ==> source_of(mode, session, cfg)
            == "d3d11screencapturesrc capture-api=dxgi monitor-index="@ + signed_decimal(
            cfg.monitor as int,
        ) + " show-cursor=true ! video/x-raw,format=BGRA"@,
        session is None && mode != Mode::Desktop ==> source_of(mode, session, cfg)
            == spec_test_source(cfg),
{
}

/// A step that runs a pipeline runs it for the settings and the codec of the
/// recorder, with sound where both allow it, and on buffers that were emptied.
pub proof fn law_run_starts_afresh(
    thread: CaptureThread,
    step: CaptureStep,
    before: Recorder,
    after: Recorder,
)
    requires
        before.wf(),
        thread.runs(step, before, after),
    ensures
        step is Run,
        ({
            let plan = step->Run_0;
            let picture = spec_build_description(
                before.cfg@,
                source_of(thread.mode, thread.session, before.cfg@),
                None,
            );
            &&& plan.attach_sound <==> before.codec is Some && (before.cfg.audio.system
                || before.cfg.audio.mic)
            &&& !plan.attach_sound ==> plan.description@ == picture
            &&& plan.attach_sound ==> plan.description@ == picture + " "@ + spec_audio_branch(
                before.cfg@,
                before.codec->0,
                thread.platform,
            )
        }),
        after.ring@.frames().len() == 0,
        after.audio is Some && before.audio is Some ==> after.audio->0.buffer@.frames.len() == 0,
        after.cfg@ == before.cfg@,
{
    law_reset_empties_both_buffers(before, after);
}

/// A session that is open stays the source, whatever the settings: a rebuilt
/// pipeline needs no other dialog.
pub proof fn law_session_outlives_settings(
    a: Mode,
    b: Mode,
    session: ScreenCastSession,
    x: Settings,
    y: Settings,
)
    ensures
        source_of(a, Some(session), x) == source_of(b, Some(session), y),
{
}

/// A thread that stays in its place, with its session and its state, is the
/// same thread.
pub proof fn law_thread_is_told_by_its_parts(a: CaptureThread, b: CaptureThread)
    requires
        a.same_place(b),
        a.session == b.session,
        a.state == b.state,
    ensures
        a == b,
{
}

} // verus!
