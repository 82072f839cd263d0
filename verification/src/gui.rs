//! The window: the list of clips, the settings that are being edited, and what
//! the user is told. Drawing is left to the toolkit.
//!
//! Moments are nanoseconds of a clock that does not go back.

use crate::audio::{AudioCodec, CodecPreference};
use crate::calendar::LocalTime;
use crate::config::Config;
use crate::paths::{file_name, has_extension, is_of_kind, is_same_path, route, same_path};
use crate::paths::{spec_file_name, Platform, Route};
use crate::recorder::SaveOutcome;
use crate::ringbuf::NS;
use crate::service::CaptureState;
use crate::shortcuts::ShortcutState;
use crate::text::{decimal, push_decimal};
use vstd::prelude::*;

verus! {

/// How often the status is drawn anew.
pub const TICK_NS: u64 = 500_000_000;

/// How long a message stays.
pub const TOAST_LIFETIME_NS: u64 = 6_000_000_000;

/// How often the directory is read anew: a clip may be saved or deleted past
/// the window.
pub const RESCAN_EVERY_NS: u64 = 2_000_000_000;

// -------------------------------------------------------------------- clips

#[derive(Debug)]
pub struct Clip {
    pub path: String,
    pub size: u64,
    /// When the file was changed, in nanoseconds from a fixed moment on.
    pub modified: i128,
    /// The preview, where there is one.
    pub thumb: Option<String>,
}

/// A file of the directory of clips, as far as it could be read.
#[derive(Debug)]
pub struct Found {
    pub name: String,
    pub path: String,
    pub size: Option<u64>,
    pub modified: Option<i128>,
    /// The preview, where the cache holds one.
    pub thumb: Option<String>,
}

impl Found {
    pub open spec fn is_video(self) -> bool {
        has_extension(self.name@, "mp4"@) && self.size is Some
    }

    pub open spec fn is_clip(self) -> bool {
        self.is_video() && self.modified is Some
    }

    pub open spec fn clip(self) -> Clip {
        Clip {
            path: self.path,
            size: self.size->0,
            modified: self.modified->0,
            thumb: self.thumb,
        }
    }

    fn video(&self) -> (yes: bool)
        ensures
            yes == self.is_video(),
    {
        is_of_kind(self.name.as_str(), "mp4") && self.size.is_some()
    }
}

/// The clips among the files of a directory.
pub open spec fn clips_in(found: Seq<Found>) -> Seq<Clip>
    decreases found.len(),
{
    if found.len() == 0 {
        Seq::empty()
    } else if found.first().is_clip() {
        seq![found.first().clip()] + clips_in(found.drop_first())
    } else {
        clips_in(found.drop_first())
    }
}

/// How many clips at the front of a list are newer than a moment.
pub open spec fn newer_ahead(clips: Seq<Clip>, modified: i128) -> nat
    decreases clips.len(),
{
    if clips.len() == 0 || clips.first().modified <= modified {
        0
    } else {
        1 + newer_ahead(clips.drop_first(), modified)
    }
}

/// A list with a clip put behind those that are newer.
pub open spec fn placed(clips: Seq<Clip>, clip: Clip) -> Seq<Clip> {
    clips.insert(newer_ahead(clips, clip.modified) as int, clip)
}

/// The newest clip first; clips of one moment keep their order.
pub open spec fn newest_first(clips: Seq<Clip>) -> Seq<Clip>
    decreases clips.len(),
{
    if clips.len() == 0 {
        clips
    } else {
        placed(newest_first(clips.drop_first()), clips.first())
    }
}

/// The clips of a directory as the window lists them.
pub open spec fn listed(found: Seq<Found>) -> Seq<Clip> {
    newest_first(clips_in(found))
}

pub open spec fn texts(texts: Seq<String>) -> Seq<Seq<char>> {
    texts.map_values(|t: String| t@)
}

/// Where paths lead.
pub open spec fn routes(platform: Platform, paths: Seq<Seq<char>>) -> Seq<Route> {
    paths.map_values(|p: Seq<char>| route(platform, p))
}

/// The clips whose previews are to be made: those without one, except those
/// that were tried before.
pub open spec fn previews_wanted(platform: Platform, clips: Seq<Clip>, known: Seq<Route>) -> Seq<
    Seq<char>,
>
    decreases clips.len(),
{
    if clips.len() == 0 {
        Seq::empty()
    } else {
        let clip = clips.first();
        let place = route(platform, clip.path@);
        if clip.thumb is None && !known.contains(place) {
            seq![clip.path@] + previews_wanted(platform, clips.drop_first(), known.push(place))
        } else {
            previews_wanted(platform, clips.drop_first(), known)
        }
    }
}

pub open spec fn count_videos(found: Seq<Found>) -> nat
    decreases found.len(),
{
    if found.len() == 0 {
        0
    } else {
        count_videos(found.drop_last()) + if found.last().is_video() {
            1nat
        } else {
            0nat
        }
    }
}

pub open spec fn shows(platform: Platform, clips: Seq<Clip>, path: Seq<char>, size: u64) -> bool {
    exists|i: int|
        0 <= i < clips.len() && same_path(platform, (#[trigger] clips[i]).path@, path)
            && clips[i].size == size
}

/// The list shows every video of the directory, and as many as there are.
pub open spec fn up_to_date(platform: Platform, clips: Seq<Clip>, found: Seq<Found>) -> bool {
    &&& count_videos(found) == clips.len()
    &&& forall|i: int|
        0 <= i < found.len() && (#[trigger] found[i]).is_video() ==> shows(
            platform,
            clips,
            found[i].path@,
            found[i].size->0,
        )
}

pub open spec fn elapsed(now: u64, since: u64) -> int {
    if now < since {
        0
    } else {
        now - since
    }
}

fn place(clips: &mut Vec<Clip>, clip: Clip)
    ensures
        final(clips)@ == placed(old(clips)@, clip),
{
    let ghost all = clips@;
    let mut at: usize = 0;
    assert(all.skip(0) =~= all);
    while at < clips.len() && clips[at].modified > clip.modified
        invariant
            clips@ == all,
            at <= all.len(),
            newer_ahead(all, clip.modified) == at + newer_ahead(all.skip(at as int), clip.modified),
        decreases all.len() - at,
    {
        assert(all.skip(at as int).drop_first() =~= all.skip(at + 1));
        at = at + 1;
    }
    clips.insert(at, clip);
}

/// The clips of a directory as the window lists them.
pub fn list_clips(found: Vec<Found>) -> (clips: Vec<Clip>)
    ensures
        clips@ == listed(found@),
{
    let ghost all = found@;
    let mut found = found;
    let mut clips: Vec<Clip> = Vec::new();
    assert(all.take(all.len() as int) =~= all);
    assert(clips_in(all.skip(all.len() as int)) =~= Seq::empty());
    while found.len() > 0
        invariant
            found@.len() <= all.len(),
            found@ == all.take(found@.len() as int),
            clips@ == listed(all.skip(found@.len() as int)),
        decreases found@.len(),
    {
        let ghost n = found@.len() as int;
        if let Some(file) = found.pop() {
            proof {
                assert(file == all[n - 1]);
                assert(all.skip(n - 1).first() == file);
                assert(all.skip(n - 1).drop_first() =~= all.skip(n));
                assert(found@ =~= all.take(n - 1));
            }
            let ghost rest = clips_in(all.skip(n));
            if file.video() {
                match (file.size, file.modified) {
                    (Some(size), Some(modified)) => {
                        let clip = Clip { path: file.path, size, modified, thumb: file.thumb };
                        proof {
                            assert(clip == all[n - 1].clip());
                            assert((seq![clip] + rest).drop_first() =~= rest);
                        }
                        place(&mut clips, clip);
                    },
                    _ => {},
                }
            }
        }
    }
    assert(all.skip(0) =~= all);
    clips
}

fn known_path(platform: Platform, known: &Vec<String>, path: &str) -> (at: Option<usize>)
    ensures
        match at {
            Some(i) => i < known@.len() && same_path(platform, known@[i as int]@, path@),
            None => !routes(platform, texts(known@)).contains(route(platform, path@)),
        },
{
    let mut i: usize = 0;
    while i < known.len()
        invariant
            i <= known@.len(),
            forall|j: int| 0 <= j < i ==> !same_path(platform, (#[trigger] known@[j])@, path@),
        decreases known@.len() - i,
    {
        if is_same_path(platform, known[i].as_str(), path) {
            return Some(i);
        }
        i = i + 1;
    }
    let ghost all = routes(platform, texts(known@));
    assert forall|j: int| 0 <= j < all.len() implies all[j] != route(platform, path@) by {
        assert(!same_path(platform, known@[j]@, path@));
    }
    None
}

fn shown(platform: Platform, clips: &Vec<Clip>, path: &str, size: u64) -> (yes: bool)
    ensures
        yes == shows(platform, clips@, path@, size),
{
    let mut i: usize = 0;
    while i < clips.len()
        invariant
            i <= clips@.len(),
            forall|j: int|
                0 <= j < i ==> !(same_path(platform, (#[trigger] clips@[j]).path@, path@)
                    && clips@[j].size == size),
        decreases clips@.len() - i,
    {
        if clips[i].size == size && is_same_path(platform, clips[i].path.as_str(), path) {
            assert(same_path(platform, clips@[i as int].path@, path@));
            return true;
        }
        i = i + 1;
    }
    false
}

// ------------------------------------------------------------------- window

/// A message to the user.
#[derive(Debug)]
pub struct Toast {
    pub text: String,
    pub is_error: bool,
    pub at: u64,
}

/// What the window remembers between two frames.
#[derive(Debug)]
pub struct App {
    pub platform: Platform,
    /// The settings that are being edited; a button applies them.
    pub draft: Config,
    pub clips: Vec<Clip>,
    pub toast: Option<Toast>,
    /// The clip that waits for its deletion to be confirmed.
    pub pending_delete: Option<String>,
    pub saving: bool,
    /// Clips whose previews are being made, or could not be made.
    pub thumb_known: Vec<String>,
    pub last_scan: u64,
}

/// What follows from applied settings.
#[derive(Debug, Clone, Copy, PartialEq, Eq, Structural)]
pub enum Applied {
    /// Nothing: they could not be stored.
    NotStored,
    /// The pipeline is to be rebuilt, and the list to be refreshed.
    Restart,
    /// The list is to be refreshed.
    Live,
}

/// The answer to the question whether a clip is to be deleted.
#[derive(Debug, Clone, Copy, PartialEq, Eq, Structural)]
pub enum DeleteAnswer {
    NotYet,
    Delete,
    Cancel,
    /// The question was closed.
    Close,
}

pub open spec fn is_toast(toast: Option<Toast>, text: Seq<char>, is_error: bool, at: u64) -> bool {
    toast matches Some(t) && t.text@ == text && t.is_error == is_error && t.at == at
}

/// The name of a clip as the window shows it.
pub open spec fn name_shown(platform: Platform, path: Seq<char>) -> Seq<char> {
    match spec_file_name(platform, path) {
        Some(name) => name,
        None => Seq::empty(),
    }
}

pub fn shown_name(platform: Platform, path: &str) -> (name: String)
    ensures
        name@ == name_shown(platform, path@),
{
    match file_name(platform, path) {
        Some(name) => name,
        None => String::new(),
    }
}

/// What the user is told about a save, and whether it is bad news.
pub open spec fn save_news(result: Result<SaveOutcome, String>, platform: Platform) -> (
    Seq<char>,
    bool,
) {
    match result {
        Ok(SaveOutcome::Saved(path)) => ("сохранено: "@ + name_shown(platform, path@), false),
        Ok(SaveOutcome::BufferEmpty) => ("буфер пуст — запись ещё не идёт"@, true),
        Ok(SaveOutcome::AlreadySaving) => ("предыдущее сохранение ещё идёт"@, true),
        Err(error) => ("не сохранилось: "@ + error@, true),
    }
}

impl App {
    /// Where the clips lie whose previews were tried.
    pub open spec fn tried(self) -> Seq<Route> {
        routes(self.platform, texts(self.thumb_known@))
    }

    /// No clip is noted twice.
    pub open spec fn wf(self) -> bool {
        self.tried().no_duplicates()
    }

    /// Nothing changed but the message.
    pub open spec fn same_but_toast(self, other: App) -> bool {
        &&& self.platform == other.platform
        &&& self.draft == other.draft
        &&& self.clips == other.clips
        &&& self.pending_delete == other.pending_delete
        &&& self.saving == other.saving
        &&& self.thumb_known == other.thumb_known
        &&& self.last_scan == other.last_scan
    }

    pub fn new(draft: Config, platform: Platform, now: u64) -> (app: Self)
        ensures
            app.wf(),
            app.platform == platform,
            app.draft == draft,
            app.clips@.len() == 0,
            app.toast is None,
            app.pending_delete is None,
            !app.saving,
            app.thumb_known@.len() == 0,
            app.last_scan == now,
    {
        App {
            platform,
            draft,
            clips: Vec::new(),
            toast: None,
            pending_delete: None,
            saving: false,
            thumb_known: Vec::new(),
            last_scan: now,
        }
    }

    /// Takes the files of the directory in. Returns the clips whose previews
    /// are to be made: one attempt for a clip, else every look at the directory
    /// would start another one for a clip that has no preview to be made.
    pub fn refresh_clips(&mut self, found: Vec<Found>, now: u64) -> (previews: Vec<String>)
        requires
            old(self).wf(),
        ensures
            final(self).wf(),
            final(self).clips@ == listed(found@),
            final(self).last_scan == now,
            texts(previews@) == previews_wanted(
                old(self).platform,
                listed(found@),
                old(self).tried(),
            ),
            texts(final(self).thumb_known@) == texts(old(self).thumb_known@) + texts(previews@),
            final(self).platform == old(self).platform,
            final(self).draft == old(self).draft,
            final(self).toast == old(self).toast,
            final(self).pending_delete == old(self).pending_delete,
            final(self).saving == old(self).saving,
    {
        let clips = list_clips(found);
        let platform = self.platform;
        let ghost all = clips@;
        let ghost before = texts(self.thumb_known@);
        let ghost wanted = previews_wanted(platform, all, self.tried());
        let mut previews: Vec<String> = Vec::new();
        let mut i: usize = 0;
        proof {
            assert(all.skip(0) =~= all);
            assert(texts(previews@) =~= Seq::empty());
            assert(before + texts(previews@) =~= before);
            assert(texts(previews@) + wanted =~= wanted);
        }
        while i < clips.len()
            invariant
                clips@ == all,
                i <= all.len(),
                self.wf(),
                self.platform == platform,
                texts(self.thumb_known@) == before + texts(previews@),
                wanted == texts(previews@) + previews_wanted(
                    platform,
                    all.skip(i as int),
                    self.tried(),
                ),
                platform == old(self).platform,
                self.draft == old(self).draft,
                self.toast == old(self).toast,
                self.pending_delete == old(self).pending_delete,
                self.saving == old(self).saving,
            decreases all.len() - i,
        {
            let clip = &clips[i];
            let ghost place = route(platform, clip.path@);
            let ghost noted = texts(self.thumb_known@);
            let ghost known = self.tried();
            let ghost made = texts(previews@);
            proof {
                assert(all.skip(i as int).first() == *clip);
                assert(all.skip(i as int).drop_first() =~= all.skip(i + 1));
            }
            let tried = known_path(platform, &self.thumb_known, clip.path.as_str());
            proof {
                if let Some(k) = tried {
                    assert(known[k as int] == place);
                    assert(known.contains(place));
                }
            }
            if clip.thumb.is_none() && tried.is_none() {
                self.thumb_known.push(clip.path.clone());
                previews.push(clip.path.clone());
                proof {
                    let rest = previews_wanted(platform, all.skip(i + 1), known.push(place));
                    assert(texts(self.thumb_known@) =~= noted.push(clip.path@));
                    assert(self.tried() =~= known.push(place));
                    assert(texts(previews@) =~= made.push(clip.path@));
                    assert(made + (seq![clip.path@] + rest) =~= made.push(clip.path@) + rest);
                    assert(before + texts(previews@) =~= noted.push(clip.path@));
                    assert forall|a: int, b: int|
                        0 <= a < known.len() + 1 && 0 <= b < known.len() + 1 && a
                            != b implies known.push(place)[a] != known.push(place)[b] by {
                        if a == known.len() {
                            assert(known.contains(known[b]));
                        } else if b == known.len() {
                            assert(known.contains(known[a]));
                        }
                    }
                }
            }
            i = i + 1;
        }
        proof {
            assert(all.skip(i as int) =~= Seq::empty());
            assert(texts(previews@) + Seq::empty() =~= texts(previews@));
        }
        self.clips = clips;
        self.last_scan = now;
        previews
    }

    /// Whether the directory is to be looked at again.
    pub fn is_stale(&self, now: u64) -> (stale: bool)
        ensures
            stale <==> elapsed(now, self.last_scan) >= RESCAN_EVERY_NS,
    {
        now >= self.last_scan && now - self.last_scan >= RESCAN_EVERY_NS
    }

    /// Compares the directory with the list. Says whether the list is to be
    /// refreshed.
    pub fn rescan(&mut self, found: &Vec<Found>, now: u64) -> (refresh: bool)
        requires
            old(self).wf(),
        ensures
            final(self).wf(),
            refresh <==> !up_to_date(old(self).platform, old(self).clips@, found@),
            final(self).last_scan == if refresh {
                old(self).last_scan
            } else {
                now
            },
            final(self).platform == old(self).platform,
            final(self).draft == old(self).draft,
            final(self).clips == old(self).clips,
            final(self).toast == old(self).toast,
            final(self).pending_delete == old(self).pending_delete,
            final(self).saving == old(self).saving,
            final(self).thumb_known == old(self).thumb_known,
    {
        let mut videos: usize = 0;
        let mut all_shown = true;
        let mut i: usize = 0;
        while i < found.len()
            invariant
                i <= found@.len(),
                videos <= i,
                videos == count_videos(found@.take(i as int)),
                all_shown <==> forall|j: int|
                    0 <= j < i && (#[trigger] found@[j]).is_video() ==> shows(
                        self.platform,
                        self.clips@,
                        found@[j].path@,
                        found@[j].size->0,
                    ),
            decreases found@.len() - i,
        {
            let file = &found[i];
            assert(found@.take(i + 1).drop_last() =~= found@.take(i as int));
            assert(found@.take(i + 1).last() == found@[i as int]);
            if file.video() {
                videos = videos + 1;
                if let Some(size) = file.size {
                    if !shown(self.platform, &self.clips, file.path.as_str(), size) {
                        assert(found@[i as int].is_video());
                        all_shown = false;
                    }
                }
            }
            i = i + 1;
        }
        assert(found@.take(i as int) =~= found@);
        if videos != self.clips.len() || !all_shown {
            return true;
        }
        self.last_scan = now;
        false
    }

    pub fn show(&mut self, text: String, is_error: bool, now: u64)
        ensures
            final(self).same_but_toast(*old(self)),
            is_toast(final(self).toast, text@, is_error, now),
    {
        self.toast = Some(Toast { text, is_error, at: now });
    }

    /// Drops a message that has been shown long enough.
    pub fn expire_toast(&mut self, now: u64)
        ensures
            final(self).same_but_toast(*old(self)),
            final(self).toast == match old(self).toast {
                Some(t) if elapsed(now, t.at) < TOAST_LIFETIME_NS => Some(t),
                _ => None,
            },
    {
        let over = match &self.toast {
            Some(t) => now >= t.at && now - t.at >= TOAST_LIFETIME_NS,
            None => false,
        };
        if over {
            self.toast = None;
        }
    }

    /// The save button. Says whether a save is to be started.
    pub fn trigger_save(&mut self) -> (start: bool)
        ensures
            start == !old(self).saving,
            final(self).saving,
            final(self).platform == old(self).platform,
            final(self).draft == old(self).draft,
            final(self).clips == old(self).clips,
            final(self).toast == old(self).toast,
            final(self).pending_delete == old(self).pending_delete,
            final(self).thumb_known == old(self).thumb_known,
            final(self).last_scan == old(self).last_scan,
    {
        if self.saving {
            return false;
        }
        self.saving = true;
        true
    }

    /// A save has ended. Says whether the list is to be refreshed.
    pub fn saved(&mut self, result: Result<SaveOutcome, String>, now: u64) -> (refresh: bool)
        ensures
            refresh <==> (result matches Ok(SaveOutcome::Saved(_))),
            !final(self).saving,
            is_toast(
                final(self).toast,
                save_news(result, old(self).platform).0,
                save_news(result, old(self).platform).1,
                now,
            ),
            final(self).platform == old(self).platform,
            final(self).draft == old(self).draft,
            final(self).clips == old(self).clips,
            final(self).pending_delete == old(self).pending_delete,
            final(self).thumb_known == old(self).thumb_known,
            final(self).last_scan == old(self).last_scan,
    {
        self.saving = false;
        match result {
            Ok(SaveOutcome::Saved(path)) => {
                let mut text = "сохранено: ".to_owned();
                text.append(shown_name(self.platform, path.as_str()).as_str());
                self.show(text, false, now);
                true
            },
            Ok(SaveOutcome::BufferEmpty) => {
                self.show("буфер пуст — запись ещё не идёт".to_owned(), true, now);
                false
            },
            Ok(SaveOutcome::AlreadySaving) => {
                self.show("предыдущее сохранение ещё идёт".to_owned(), true, now);
                false
            },
            Err(error) => {
                let mut text = "не сохранилось: ".to_owned();
                text.append(error.as_str());
                self.show(text, true, now);
                false
            },
        }
    }

    /// A preview was made: the first clip of that path gets it.
    pub fn preview_made(&mut self, path: &str, thumb: String)
        ensures
            final(self).clips@.len() == old(self).clips@.len(),
            forall|i: int|
                0 <= i < old(self).clips@.len() ==> (#[trigger] final(self).clips@[i]) == (
                if same_path(old(self).platform, old(self).clips@[i].path@, path@) && forall|j: int|
                    0 <= j < i ==> !same_path(
                        old(self).platform,
                        (#[trigger] old(self).clips@[j]).path@,
                        path@,
                    ) {
                    Clip { thumb: Some(thumb), ..old(self).clips@[i] }
                } else {
                    old(self).clips@[i]
                }),
            final(self).platform == old(self).platform,
            final(self).draft == old(self).draft,
            final(self).toast == old(self).toast,
            final(self).pending_delete == old(self).pending_delete,
            final(self).saving == old(self).saving,
            final(self).thumb_known == old(self).thumb_known,
            final(self).last_scan == old(self).last_scan,
    {
        let ghost all = self.clips@;
        let mut i: usize = 0;
        while i < self.clips.len()
            invariant
                self.clips@ == all,
                i <= all.len(),
                forall|j: int|
                    0 <= j < i ==> !same_path(self.platform, (#[trigger] all[j]).path@, path@),
                *self == *old(self),
                all == old(self).clips@,
            decreases all.len() - i,
        {
            if is_same_path(self.platform, self.clips[i].path.as_str(), path) {
                self.clips[i].thumb = Some(thumb);
                return;
            }
            i = i + 1;
        }
    }

    /// Settings were applied and stored, or could not be stored.
    pub fn applied(&mut self, needs_restart: bool, stored: Result<(), String>, now: u64) -> (next:
        Applied)
        ensures
            final(self).same_but_toast(*old(self)),
            next == match stored {
                Err(_) => Applied::NotStored,
                Ok(_) => if needs_restart {
                    Applied::Restart
                } else {
                    Applied::Live
                },
            },
            match stored {
                Err(error) => is_toast(
                    final(self).toast,
                    "настройки не сохранились: "@ + error@,
                    true,
                    now,
                ),
                Ok(_) => is_toast(
                    final(self).toast,
                    if needs_restart {
                        "настройки применены, конвейер пересобирается"@
                    } else {
                        "настройки применены"@
                    },
                    false,
                    now,
                ),
            },
    {
        match stored {
            Err(error) => {
                let mut text = "настройки не сохранились: ".to_owned();
                text.append(error.as_str());
                self.show(text, true, now);
                Applied::NotStored
            },
            Ok(_) => {
                if needs_restart {
                    self.show("настройки применены, конвейер пересобирается".to_owned(), false, now);
                    Applied::Restart
                } else {
                    self.show("настройки применены".to_owned(), false, now);
                    Applied::Live
                }
            },
        }
    }

    /// Drops the edits.
    pub fn discard(&mut self, config: Config)
        ensures
            final(self).platform == old(self).platform,
            final(self).draft == config,
            final(self).clips == old(self).clips,
            final(self).toast == old(self).toast,
            final(self).pending_delete == old(self).pending_delete,
            final(self).saving == old(self).saving,
            final(self).thumb_known == old(self).thumb_known,
            final(self).last_scan == old(self).last_scan,
    {
        self.draft = config;
    }

    /// Whether there are edits that were not applied.
    pub fn is_dirty(&self, config: &Config) -> (dirty: bool)
        ensures
            dirty <==> !self.draft@.agrees(config@, self.platform),
    {
        !self.draft.same_as(config, self.platform)
    }

    /// The button that deletes a clip: the user is asked first.
    pub fn request_delete(&mut self, path: String)
        ensures
            final(self).pending_delete == Some(path),
            final(self).platform == old(self).platform,
            final(self).draft == old(self).draft,
            final(self).clips == old(self).clips,
            final(self).toast == old(self).toast,
            final(self).saving == old(self).saving,
            final(self).thumb_known == old(self).thumb_known,
            final(self).last_scan == old(self).last_scan,
    {
        self.pending_delete = Some(path);
    }

    /// The user has answered. Returns the file to be deleted: only a confirmed
    /// deletion takes place.
    pub fn answer_delete(&mut self, answer: DeleteAnswer) -> (path: Option<String>)
        ensures
            path == if answer == DeleteAnswer::Delete {
                old(self).pending_delete
            } else {
                None
            },
            final(self).pending_delete == if answer == DeleteAnswer::NotYet {
                old(self).pending_delete
            } else {
                None
            },
            final(self).platform == old(self).platform,
            final(self).draft == old(self).draft,
            final(self).clips == old(self).clips,
            final(self).toast == old(self).toast,
            final(self).saving == old(self).saving,
            final(self).thumb_known == old(self).thumb_known,
            final(self).last_scan == old(self).last_scan,
    {
        match answer {
            DeleteAnswer::NotYet => None,
            DeleteAnswer::Delete => self.pending_delete.take(),
            DeleteAnswer::Cancel | DeleteAnswer::Close => {
                self.pending_delete = None;
                None
            },
        }
    }

    /// A clip was deleted, or could not be. Says whether its preview is to be
    /// removed and the list to be refreshed. A clip of that name that comes
    /// later gets a preview of its own.
    pub fn deleted(&mut self, path: &str, result: Result<(), String>, now: u64) -> (refresh: bool)
        requires
            old(self).wf(),
        ensures
            final(self).wf(),
            refresh <==> result is Ok,
            match result {
                Ok(_) => {
                    &&& is_toast(
                        final(self).toast,
                        "удалён: "@ + name_shown(old(self).platform, path@),
                        false,
                        now,
                    )
                    &&& forall|place: Route|
                        final(self).tried().contains(place) <==> #[trigger] old(
                            self,
                        ).tried().contains(place) && place != route(old(self).platform, path@)
                },
                Err(error) => {
                    &&& is_toast(final(self).toast, "не удалось удалить: "@ + error@, true, now)
                    &&& final(self).thumb_known == old(self).thumb_known
                },
            },
            final(self).platform == old(self).platform,
            final(self).draft == old(self).draft,
            final(self).clips == old(self).clips,
            final(self).pending_delete == old(self).pending_delete,
            final(self).saving == old(self).saving,
            final(self).last_scan == old(self).last_scan,
    {
        match result {
            Ok(_) => {
                let ghost before = self.tried();
                if let Some(at) = known_path(self.platform, &self.thumb_known, path) {
                    self.thumb_known.remove(at);
                    proof {
                        let after = self.tried();
                        let gone = route(self.platform, path@);
                        assert(before[at as int] == gone);
                        assert(after =~= before.remove(at as int));
                        lemma_removed(before, at as int);
                    }
                }
                let mut text = "удалён: ".to_owned();
                text.append(shown_name(self.platform, path).as_str());
                self.show(text, false, now);
                true
            },
            Err(error) => {
                let mut text = "не удалось удалить: ".to_owned();
                text.append(error.as_str());
                self.show(text, true, now);
                false
            },
        }
    }
}

proof fn lemma_removed(all: Seq<Route>, at: int)
    requires
        all.no_duplicates(),
        0 <= at < all.len(),
    ensures
        all.remove(at).no_duplicates(),
        forall|place: Route|
            all.remove(at).contains(place) <==> #[trigger] all.contains(place) && place != all[at],
{
    let after = all.remove(at);
    assert forall|place: Route|
        after.contains(place) <==> #[trigger] all.contains(place) && place != all[at] by {
        if after.contains(place) {
            let k = choose|k: int| 0 <= k < after.len() && after[k] == place;
            let j = if k < at {
                k
            } else {
                k + 1
            };
            assert(all[j] == place);
        }
        if all.contains(place) && place != all[at] {
            let k = choose|k: int| 0 <= k < all.len() && all[k] == place;
            let j = if k < at {
                k
            } else {
                k - 1
            };
            assert(after[j] == place);
        }
    }
}

// ------------------------------------------------------------ what is shown

/// How a text is coloured.
#[derive(Debug, Clone, Copy, PartialEq, Eq, Structural)]
pub enum Tone {
    Good,
    Warning,
    Muted,
    Danger,
}

#[derive(Debug, Clone, Copy)]
pub struct Label {
    pub text: &'static str,
    pub tone: Tone,
}

pub fn capture_label(state: &CaptureState) -> (label: Label)
    ensures
        match state {
            CaptureState::Running => label.text@ == "● Запись идёт"@ && label.tone == Tone::Good,
            CaptureState::WaitingForPortal => label.text@ == "● Выберите экран"@ && label.tone
                == Tone::Warning,
            CaptureState::Stopped => label.text@ == "● Остановлено"@ && label.tone == Tone::Muted,
            CaptureState::Failed(_) => label.text@ == "● Ошибка записи"@ && label.tone
                == Tone::Danger,
        },
{
    match state {
        CaptureState::Running => Label { text: "● Запись идёт", tone: Tone::Good },
        CaptureState::WaitingForPortal => Label { text: "● Выберите экран", tone: Tone::Warning },
        CaptureState::Stopped => Label { text: "● Остановлено", tone: Tone::Muted },
        CaptureState::Failed(_) => Label { text: "● Ошибка записи", tone: Tone::Danger },
    }
}

/// The label of the save button. `seconds` is the length of a clip, as it is
/// shown.
pub fn save_label(saving: bool, seconds: &str) -> (label: String)
    ensures
        label@ == if saving {
            "Сохранение…"@
        } else {
            "Сохранить "@ + seconds@ + " с"@
        },
{
    if saving {
        return "Сохранение…".to_owned();
    }
    let mut label = "Сохранить ".to_owned();
    label.append(seconds);
    label.append(" с");
    label
}

/// The text in the bar of the buffer. The arguments are seconds, as they are
/// shown: those in the buffer and those it is to hold.
pub fn buffer_line(filled: &str, length: &str) -> (line: String)
    ensures
        line@ == "Буфер  "@ + filled@ + " / "@ + length@ + " с"@,
{
    let mut line = "Буфер  ".to_owned();
    line.append(filled);
    line.append(" / ");
    line.append(length);
    line.append(" с");
    line
}

/// The memory of the buffer. `used` is a number of MiB, as it is shown.
pub fn memory_line(used: &str, max_mb: usize) -> (line: String)
    ensures
        line@ == used@ + " / "@ + decimal(max_mb as nat) + " МиБ"@,
{
    let mut line = used.to_owned();
    line.append(" / ");
    push_decimal(&mut line, max_mb as u64);
    line.append(" МиБ");
    line
}

pub fn groups_line(gops: usize) -> (line: String)
    ensures
        line@ == decimal(gops as nat) + " групп кадров в видеобуфере"@,
{
    let mut line = String::new();
    push_decimal(&mut line, gops as u64);
    assert(line@ =~= decimal(gops as nat));
    line.append(" групп кадров в видеобуфере");
    line
}

/// The sound in its buffer. `seconds` is its length, as it is shown.
pub fn sound_line(seconds: &str) -> (line: String)
    ensures
        line@ == "Звук  "@ + seconds@ + " с"@,
{
    let mut line = "Звук  ".to_owned();
    line.append(seconds);
    line.append(" с");
    line
}

/// What the section of the sound looks like.
#[derive(Debug)]
pub enum SoundPanel {
    /// There is no encoder: nothing can be set.
    Missing,
    Present {
        /// What is being recorded with.
        line: String,
        /// AAC was asked for and is not installed.
        aac_missing: bool,
    },
}

pub fn sound_panel(wanted: CodecPreference, used: Option<AudioCodec>) -> (panel: SoundPanel)
    ensures
        match used {
            None => panel is Missing,
            Some(codec) => panel matches SoundPanel::Present { line, aac_missing } && line@
                == "сейчас пишется: "@ + codec.spec_name() && aac_missing == (wanted
                == CodecPreference::Aac && codec != AudioCodec::Aac),
        },
{
    match used {
        None => SoundPanel::Missing,
        Some(codec) => {
            let mut line = "сейчас пишется: ".to_owned();
            line.append(codec.as_str());
            SoundPanel::Present { line, aac_missing: aac_missing(wanted, codec) }
        },
    }
}

/// Whether AAC was asked for and another codec is in use.
fn aac_missing(wanted: CodecPreference, used: AudioCodec) -> (missing: bool)
    ensures
        missing <==> wanted == CodecPreference::Aac && used != AudioCodec::Aac,
{
    wanted == CodecPreference::Aac && used != AudioCodec::Aac
}

/// What the section of the shortcut looks like.
#[derive(Debug, Clone, Copy, PartialEq, Eq, Structural)]
pub struct ShortcutPanel {
    pub tone: Tone,
    /// The editor of bindings can be opened.
    pub editable: bool,
    /// The user is told who assigns the key.
    pub hint: bool,
}

pub fn shortcut_panel(state: &ShortcutState) -> (panel: ShortcutPanel)
    ensures
        panel.tone == if state.error is Some {
            Tone::Danger
        } else if state.trigger is Some {
            Tone::Good
        } else {
            Tone::Warning
        },
        panel.editable <==> state.error is None,
        panel.hint <==> state.trigger is None && state.registered,
{
    let tone = if state.error.is_some() {
        Tone::Danger
    } else if state.trigger.is_some() {
        Tone::Good
    } else {
        Tone::Warning
    };
    ShortcutPanel {
        tone,
        editable: state.error.is_none(),
        hint: state.trigger.is_none() && state.registered,
    }
}

/// The command that saves a clip, with the program as it was started.
pub fn save_command(program: Option<&str>) -> (command: String)
    ensures
        command@ == match program {
            Some(path) => path@ + " --save"@,
            None => "replay-rs"@ + " --save"@,
        },
{
    let mut command = match program {
        Some(path) => path.to_owned(),
        None => "replay-rs".to_owned(),
    };
    command.append(" --save");
    command
}

/// The line under the name of a clip. `megabytes` is its size, as it is shown.
pub fn clip_line(at: &LocalTime, megabytes: &str) -> (line: Option<String>)
    ensures
        line is Some <==> at.exists_in_calendar(),
        line matches Some(l) ==> l@ == at.listing_text() + " · "@ + megabytes@ + " МБ · MP4"@,
{
    match at.listing() {
        Some(mut line) => {
            line.append(" · ");
            line.append(megabytes);
            line.append(" МБ · MP4");
            Some(line)
        },
        None => None,
    }
}

pub fn count_label(clips: usize) -> (label: String)
    ensures
        label@ == decimal(clips as nat) + " клипов"@,
{
    let mut label = String::new();
    push_decimal(&mut label, clips as u64);
    assert(label@ =~= decimal(clips as nat));
    label.append(" клипов");
    label
}

/// What the close button of the window does.
#[derive(Debug, Clone, Copy, PartialEq, Eq, Structural)]
pub enum CloseAction {
    /// The window is minimised and recording goes on: a window that is closed
    /// does not come back there.
    Minimize,
    /// The window is closed, and the application ends.
    Close,
}

pub fn close_action(platform: Platform) -> (action: CloseAction)
    ensures
        action == if platform == Platform::Windows {
            CloseAction::Close
        } else {
            CloseAction::Minimize
        },
{
    match platform {
        Platform::Windows => CloseAction::Close,
        Platform::Linux => CloseAction::Minimize,
    }
}

/// A setting that the window edits with a slider.
#[derive(Debug, Clone, Copy, PartialEq, Eq, Structural)]
pub enum Slider {
    /// Length of the buffer and of a clip, seconds.
    Length,
    /// Limit of the buffer, MiB.
    Memory,
    /// kbit/s of the video.
    Bitrate,
    FrameRate,
    /// Time between keyframes, milliseconds.
    KeyframeInterval,
    /// The gain, percent.
    Volume,
    /// kbit/s of the sound.
    SoundBitrate,
}

/// The smallest and the largest value of a slider.
pub fn slider_range(slider: Slider) -> (range: (u32, u32))
    ensures
        range == match slider {
            Slider::Length => (5u32, 300u32),
            Slider::Memory => (50u32, 4096u32),
            Slider::Bitrate => (1000u32, 100_000u32),
            Slider::FrameRate => (24u32, 144u32),
            Slider::KeyframeInterval => (500u32, 5000u32),
            Slider::Volume => (0u32, 200u32),
            Slider::SoundBitrate => (64u32, 320u32),
        },
        range.0 <= range.1,
{
    match slider {
        Slider::Length => (5, 300),
        Slider::Memory => (50, 4096),
        Slider::Bitrate => (1000, 100_000),
        Slider::FrameRate => (24, 144),
        Slider::KeyframeInterval => (500, 5000),
        Slider::Volume => (0, 200),
        Slider::SoundBitrate => (64, 320),
    }
}

// ----------------------------------------------------------------- the laws

proof fn lemma_newer_ahead(clips: Seq<Clip>, modified: i128)
    ensures
        newer_ahead(clips, modified) <= clips.len(),
        forall|i: int|
            0 <= i < newer_ahead(clips, modified) ==> (#[trigger] clips[i]).modified > modified,
        newer_ahead(clips, modified) < clips.len() ==> clips[newer_ahead(
            clips,
            modified,
        ) as int].modified <= modified,
    decreases clips.len(),
{
    if clips.len() > 0 && clips.first().modified > modified {
        let rest = clips.drop_first();
        lemma_newer_ahead(rest, modified);
        assert forall|i: int| 0 <= i < newer_ahead(clips, modified) implies (
        #[trigger] clips[i]).modified > modified by {
            if i > 0 {
                assert(clips[i] == rest[i - 1]);
            }
        }
    }
}

/// The list is ordered: the newest clip comes first.
pub proof fn law_newest_clip_comes_first(clips: Seq<Clip>)
    ensures
        forall|i: int, j: int|
            0 <= i <= j < newest_first(clips).len() ==> newest_first(clips)[i].modified
                >= newest_first(clips)[j].modified,
    decreases clips.len(),
{
    if clips.len() > 0 {
        let rest = newest_first(clips.drop_first());
        let clip = clips.first();
        let k = newer_ahead(rest, clip.modified) as int;
        law_newest_clip_comes_first(clips.drop_first());
        lemma_newer_ahead(rest, clip.modified);
        let all = newest_first(clips);
        assert forall|i: int, j: int| 0 <= i <= j < all.len() implies all[i].modified
            >= all[j].modified by {
            let a = if i < k {
                i
            } else {
                i - 1
            };
            let b = if j < k {
                j
            } else {
                j - 1
            };
            if i != k {
                assert(all[i] == rest[a]);
            }
            if j != k {
                assert(all[j] == rest[b]);
            }
            if i == k && j > k {
                assert(rest[k].modified >= rest[b].modified);
            }
        }
    }
}

/// Ordering the list neither loses nor repeats a clip.
pub proof fn law_list_holds_every_clip(clips: Seq<Clip>)
    ensures
        newest_first(clips).len() == clips.len(),
        newest_first(clips).to_multiset() == clips.to_multiset(),
    decreases clips.len(),
{
    broadcast use vstd::seq_lib::group_to_multiset_ensures;

    if clips.len() > 0 {
        let rest = newest_first(clips.drop_first());
        let clip = clips.first();
        law_list_holds_every_clip(clips.drop_first());
        lemma_newer_ahead(rest, clip.modified);
        assert(rest.insert(newer_ahead(rest, clip.modified) as int, clip).to_multiset()
            =~= rest.to_multiset().insert(clip));
        assert(clips =~= clips.drop_first().insert(0, clip));
    }
}

/// Clips of one moment stay in the order in which they were found.
pub proof fn law_list_is_stable(clips: Seq<Clip>, moment: i128)
    ensures
        newest_first(clips).filter(|c: Clip| c.modified == moment) == clips.filter(
            |c: Clip| c.modified == moment,
        ),
    decreases clips.len(),
{
    let same_moment = |c: Clip| c.modified == moment;
    if clips.len() > 0 {
        let clip = clips.first();
        let rest = newest_first(clips.drop_first());
        let k = newer_ahead(rest, clip.modified) as int;
        law_list_is_stable(clips.drop_first(), moment);
        lemma_newer_ahead(rest, clip.modified);
        let one = seq![clip];
        assert(clips =~= one + clips.drop_first());
        Seq::filter_distributes_over_add(one, clips.drop_first(), same_moment);
        assert(newest_first(clips) =~= rest.take(k) + (one + rest.skip(k)));
        assert(rest =~= rest.take(k) + rest.skip(k));
        Seq::filter_distributes_over_add(rest.take(k), one + rest.skip(k), same_moment);
        Seq::filter_distributes_over_add(one, rest.skip(k), same_moment);
        Seq::filter_distributes_over_add(rest.take(k), rest.skip(k), same_moment);
        let front = rest.take(k).filter(same_moment);
        if clip.modified == moment {
            lemma_filter_none(rest.take(k), same_moment);
            assert(front =~= Seq::empty());
        } else {
            lemma_filter_none(one, same_moment);
            assert(one.filter(same_moment) =~= Seq::empty());
        }
        assert(newest_first(clips).filter(same_moment) =~= clips.filter(same_moment));
    }
}

proof fn lemma_filter_none(clips: Seq<Clip>, wanted: spec_fn(Clip) -> bool)
    requires
        forall|i: int| 0 <= i < clips.len() ==> !wanted(#[trigger] clips[i]),
    ensures
        clips.filter(wanted) == Seq::<Clip>::empty(),
    decreases clips.len(),
{
    reveal(Seq::filter);
    if clips.len() > 0 {
        lemma_filter_none(clips.drop_last(), wanted);
    }
}

proof fn lemma_known_previews_are_not_wanted(
    platform: Platform,
    clips: Seq<Clip>,
    known: Seq<Route>,
)
    requires
        forall|i: int|
            0 <= i < clips.len() && (#[trigger] clips[i]).thumb is None ==> known.contains(
                route(platform, clips[i].path@),
            ),
    ensures
        previews_wanted(platform, clips, known) == Seq::<Seq<char>>::empty(),
    decreases clips.len(),
{
    if clips.len() > 0 {
        let rest = clips.drop_first();
        assert(clips[0] == clips.first());
        assert forall|i: int| 0 <= i < rest.len() && (
        #[trigger] rest[i]).thumb is None implies known.contains(
            route(platform, rest[i].path@),
        ) by {
            assert(rest[i] == clips[i + 1]);
        }
        lemma_known_previews_are_not_wanted(platform, rest, known);
    }
}

proof fn lemma_wanted_previews_get_known(platform: Platform, clips: Seq<Clip>, known: Seq<Route>)
    ensures
        ({
            let after = known + routes(platform, previews_wanted(platform, clips, known));
            forall|i: int|
                0 <= i < clips.len() && (#[trigger] clips[i]).thumb is None ==> after.contains(
                    route(platform, clips[i].path@),
                )
        }),
    decreases clips.len(),
{
    if clips.len() > 0 {
        let rest = clips.drop_first();
        let place = route(platform, clips.first().path@);
        let after = known + routes(platform, previews_wanted(platform, clips, known));
        let wanted = clips.first().thumb is None && !known.contains(place);
        let noted = if wanted {
            known.push(place)
        } else {
            known
        };
        lemma_wanted_previews_get_known(platform, rest, noted);
        assert(after =~= noted + routes(platform, previews_wanted(platform, rest, noted)));
        assert forall|i: int| 0 <= i < clips.len() && (
        #[trigger] clips[i]).thumb is None implies after.contains(
            route(platform, clips[i].path@),
        ) by {
            if i > 0 {
                assert(rest[i - 1] == clips[i]);
            } else if wanted {
                assert(after[known.len() as int] == place);
            } else {
                let k = choose|k: int| 0 <= k < known.len() && known[k] == place;
                assert(after[k] == place);
            }
        }
    }
}

/// A preview is tried once: as long as the clips stay, no further look at the
/// directory asks for another one.
pub proof fn law_preview_is_tried_once(platform: Platform, clips: Seq<Clip>, known: Seq<Route>)
    ensures
        ({
            let tried = known + routes(platform, previews_wanted(platform, clips, known));
            previews_wanted(platform, clips, tried).len() == 0
        }),
{
    let tried = known + routes(platform, previews_wanted(platform, clips, known));
    lemma_wanted_previews_get_known(platform, clips, known);
    lemma_known_previews_are_not_wanted(platform, clips, tried);
}

proof fn lemma_clips_of_videos(found: Seq<Found>)
    requires
        forall|i: int|
            0 <= i < found.len() && (#[trigger] found[i]).is_video() ==> found[i].modified is Some,
    ensures
        clips_in(found).len() == count_videos(found),
        forall|i: int|
            0 <= i < found.len() && (#[trigger] found[i]).is_video() ==> clips_in(found).contains(
                found[i].clip(),
            ),
    decreases found.len(),
{
    if found.len() > 0 {
        let head = found.drop_last();
        let last = found.last();
        assert forall|i: int| 0 <= i < head.len() && (
        #[trigger] head[i]).is_video() implies head[i].modified is Some by {
            assert(head[i] == found[i]);
        }
        lemma_clips_of_videos(head);
        assert(found[found.len() - 1] == last);
        lemma_clips_of_one_more(head, last);
        assert(head.push(last) =~= found);
        let clips = clips_in(found);
        assert forall|i: int| 0 <= i < found.len() && (
        #[trigger] found[i]).is_video() implies clips.contains(found[i].clip()) by {
            if i < head.len() {
                assert(head[i] == found[i]);
                let k = choose|k: int|
                    0 <= k < clips_in(head).len() && clips_in(head)[k] == found[i].clip();
                assert(clips[k] == found[i].clip());
            } else {
                assert(clips[clips.len() - 1] == found[i].clip());
            }
        }
    }
}

proof fn lemma_clips_of_one_more(found: Seq<Found>, last: Found)
    ensures
        clips_in(found.push(last)) == if last.is_clip() {
            clips_in(found).push(last.clip())
        } else {
            clips_in(found)
        },
    decreases found.len(),
{
    let all = found.push(last);
    if found.len() == 0 {
        reveal_with_fuel(clips_in, 2);
        assert(all.drop_first() =~= Seq::empty());
        assert(clips_in(all) =~= if last.is_clip() {
            clips_in(found).push(last.clip())
        } else {
            clips_in(found)
        });
    } else {
        lemma_clips_of_one_more(found.drop_first(), last);
        assert(all.drop_first() =~= found.drop_first().push(last));
        assert(clips_in(all) =~= if last.is_clip() {
            clips_in(found).push(last.clip())
        } else {
            clips_in(found)
        });
    }
}

/// After a refresh the list agrees with the directory, so it is not refreshed
/// again until the directory changes. A video whose time cannot be read is the
/// exception: it is seen, and never listed.
pub proof fn law_refresh_brings_list_up_to_date(platform: Platform, found: Seq<Found>)
    requires
        forall|i: int|
            0 <= i < found.len() && (#[trigger] found[i]).is_video() ==> found[i].modified is Some,
    ensures
        up_to_date(platform, listed(found), found),
{
    broadcast use vstd::seq_lib::group_to_multiset_ensures;

    lemma_clips_of_videos(found);
    let clips = clips_in(found);
    law_list_holds_every_clip(clips);
    assert forall|i: int| 0 <= i < found.len() && (#[trigger] found[i]).is_video() implies shows(
        platform,
        listed(found),
        found[i].path@,
        found[i].size->0,
    ) by {
        let clip = found[i].clip();
        assert(clips.contains(clip));
        assert(clips.to_multiset().count(clip) > 0);
        assert(listed(found).contains(clip));
        let k = choose|k: int| 0 <= k < listed(found).len() && listed(found)[k] == clip;
        assert(listed(found)[k].path@ == found[i].path@);
    }
}

// ------------------------------------------------------- what the window shows

/// A file is listed where it is named as a video and could be read.
pub open spec fn is_listed(file: Found) -> bool {
    has_extension(file.name@, "mp4"@) && file.size is Some && file.modified is Some
}

/// The list holds the videos of the directory that could be read, each with its
/// own path, size, time and preview, and nothing else.
pub proof fn law_list_shows_the_videos(found: Seq<Found>)
    ensures
        clips_in(found) == found.filter(|file: Found| is_listed(file)).map_values(
            |file: Found|
                Clip {
                    path: file.path,
                    size: file.size->0,
                    modified: file.modified->0,
                    thumb: file.thumb,
                },
        ),
        listed(found).to_multiset() == clips_in(found).to_multiset(),
    decreases found.len(),
{
    let wanted = |file: Found| is_listed(file);
    let shown = |file: Found|
        Clip {
            path: file.path,
            size: file.size->0,
            modified: file.modified->0,
            thumb: file.thumb,
        };
    law_list_holds_every_clip(clips_in(found));
    if found.len() == 0 {
        assert(clips_in(found) =~= found.filter(wanted).map_values(shown));
    } else {
        let one = seq![found.first()];
        let rest = found.drop_first();
        law_list_shows_the_videos(rest);
        assert(found =~= one + rest);
        Seq::filter_distributes_over_add(one, rest, wanted);
        assert(one.drop_last() =~= Seq::empty());
        reveal_with_fuel(Seq::filter, 2);
        assert(one.filter(wanted) =~= if is_listed(found.first()) {
            one
        } else {
            Seq::empty()
        });
        assert(clips_in(found) =~= found.filter(wanted).map_values(shown));
    }
}

/// A preview is made for a clip that has none, lies where none was tried, and
/// each place is tried once.
pub proof fn law_previews_are_for_clips_without(
    platform: Platform,
    clips: Seq<Clip>,
    known: Seq<Route>,
    i: int,
)
    requires
        0 <= i < previews_wanted(platform, clips, known).len(),
    ensures
        ({
            let wanted = previews_wanted(platform, clips, known);
            &&& !known.contains(route(platform, wanted[i]))
            &&& exists|k: int|
                0 <= k < clips.len() && (#[trigger] clips[k]).path@ == wanted[i] && clips[k].thumb
                    is None
            &&& forall|j: int|
                0 <= j < i ==> route(platform, #[trigger] wanted[j]) != route(platform, wanted[i])
        }),
    decreases clips.len(),
{
    let wanted = previews_wanted(platform, clips, known);
    let clip = clips.first();
    let rest = clips.drop_first();
    let place = route(platform, clip.path@);
    if clip.thumb is None && !known.contains(place) {
        let noted = known.push(place);
        if i == 0 {
            assert(clips[0].path@ == wanted[0]);
        } else {
            let more = previews_wanted(platform, rest, noted);
            law_previews_are_for_clips_without(platform, rest, noted, i - 1);
            assert(wanted[i] == more[i - 1]);
            let k = choose|k: int|
                0 <= k < rest.len() && (#[trigger] rest[k]).path@ == more[i - 1] && rest[k].thumb
                    is None;
            assert(clips[k + 1] == rest[k]);
            assert(noted[known.len() as int] == place);
            assert(!known.contains(route(platform, wanted[i]))) by {
                if known.contains(route(platform, wanted[i])) {
                    let m = choose|m: int|
                        0 <= m < known.len() && known[m] == route(platform, wanted[i]);
                    assert(noted[m] == route(platform, wanted[i]));
                }
            }
            assert forall|j: int| 0 <= j < i implies route(platform, #[trigger] wanted[j]) != route(
                platform,
                wanted[i],
            ) by {
                if j > 0 {
                    assert(wanted[j] == more[j - 1]);
                }
            }
        }
    } else {
        law_previews_are_for_clips_without(platform, rest, known, i);
        let k = choose|k: int|
            0 <= k < rest.len() && (#[trigger] rest[k]).path@ == wanted[i] && rest[k].thumb is None;
        assert(clips[k + 1] == rest[k]);
    }
}

/// Every clip without a preview has been tried once the wanted ones are made.
pub proof fn law_no_preview_is_forgotten(
    platform: Platform,
    clips: Seq<Clip>,
    known: Seq<Route>,
    i: int,
)
    requires
        0 <= i < clips.len(),
        clips[i].thumb is None,
    ensures
        (known + routes(platform, previews_wanted(platform, clips, known))).contains(
            route(platform, clips[i].path@),
        ),
{
    lemma_wanted_previews_get_known(platform, clips, known);
}

/// A look at the directory finds the list out of date exactly where a video is
/// missing from it, has another size, or the numbers differ.
pub proof fn law_changes_of_the_directory_show(
    platform: Platform,
    clips: Seq<Clip>,
    found: Seq<Found>,
)
    ensures
        up_to_date(platform, clips, found) <==> {
            &&& found.filter(
                |file: Found| has_extension(file.name@, "mp4"@) && file.size is Some,
            ).len() == clips.len()
            &&& forall|i: int|
                0 <= i < found.len() && has_extension((#[trigger] found[i]).name@, "mp4"@)
                    && found[i].size is Some ==> exists|k: int|
                    0 <= k < clips.len() && same_path(
                        platform,
                        (#[trigger] clips[k]).path@,
                        found[i].path@,
                    ) && Some(clips[k].size) == found[i].size
        },
{
    lemma_videos_are_counted(found);
    if up_to_date(platform, clips, found) {
        assert forall|i: int|
            0 <= i < found.len() && has_extension((#[trigger] found[i]).name@, "mp4"@)
                && found[i].size is Some implies exists|k: int|
            0 <= k < clips.len() && same_path(platform, (#[trigger] clips[k]).path@, found[i].path@)
                && Some(clips[k].size) == found[i].size by {
            assert(found[i].is_video());
            assert(shows(platform, clips, found[i].path@, found[i].size->0));
        }
    }
    if forall|i: int|
        0 <= i < found.len() && has_extension((#[trigger] found[i]).name@, "mp4"@) && found[i].size
            is Some ==> exists|k: int|
            0 <= k < clips.len() && same_path(platform, (#[trigger] clips[k]).path@, found[i].path@)
                && Some(clips[k].size) == found[i].size {
        assert forall|i: int| 0 <= i < found.len() && (
        #[trigger] found[i]).is_video() implies shows(
            platform,
            clips,
            found[i].path@,
            found[i].size->0,
        ) by {
            assert(has_extension(found[i].name@, "mp4"@) && found[i].size is Some);
        }
    }
}

proof fn lemma_videos_are_counted(found: Seq<Found>)
    ensures
        count_videos(found) == found.filter(
            |file: Found| has_extension(file.name@, "mp4"@) && file.size is Some,
        ).len(),
    decreases found.len(),
{
    reveal(Seq::filter);
    if found.len() > 0 {
        lemma_videos_are_counted(found.drop_last());
    }
}

/// Time does not run back: what was noted later than now was noted just now. A
/// message stays six seconds, and the directory is read every two.
pub proof fn law_time_since(now: u64, since: u64)
    ensures
        now >= since ==> elapsed(now, since) + since == now,
        now < since ==> elapsed(now, since) == 0,
        TOAST_LIFETIME_NS == 6 * NS,
        RESCAN_EVERY_NS == 2 * NS,
        2 * TICK_NS == NS,
{
}

/// Only a clip that was saved is good news, and it is told by its name. What
/// went wrong is told in the words of the error.
pub proof fn law_news_of_a_save(path: String, error: String, platform: Platform)
    ensures
        save_news(Ok(SaveOutcome::Saved(path)), platform) == (
            "сохранено: "@ + name_shown(platform, path@),
            false,
        ),
        save_news(Err(error), platform) == ("не сохранилось: "@ + error@, true),
        save_news(Ok(SaveOutcome::BufferEmpty), platform).1,
        save_news(Ok(SaveOutcome::AlreadySaving), platform).1,
        save_news(Ok(SaveOutcome::BufferEmpty), platform).0 == "буфер пуст — запись ещё не идёт"@,
        save_news(Ok(SaveOutcome::AlreadySaving), platform).0 == "предыдущее сохранение ещё идёт"@,
        spec_file_name(platform, path@) matches Some(name) ==> name_shown(platform, path@) == name,
        spec_file_name(platform, path@) is None ==> name_shown(platform, path@).len() == 0,
{
}

/// A message shows its text as what it is, from the moment on at which it came.
pub proof fn law_message_shows_its_text(toast: Toast)
    ensures
        is_toast(Some(toast), toast.text@, toast.is_error, toast.at),
        forall|text: Seq<char>, bad: bool, at: u64|
            #[trigger] is_toast(Some(toast), text, bad, at) ==> text == toast.text@ && bad
                == toast.is_error && at == toast.at,
        forall|text: Seq<char>, bad: bool, at: u64| !#[trigger] is_toast(None, text, bad, at),
{
}

/// What has been tried is kept as places: paths that are one place count once.
pub proof fn law_tried_places(app: App, i: int)
    requires
        0 <= i < app.thumb_known@.len(),
    ensures
        app.tried().len() == app.thumb_known@.len(),
        app.tried()[i] == route(app.platform, app.thumb_known@[i]@),
{
}

/// Where nothing changed but the message, and that neither, nothing changed.
pub proof fn law_message_is_all_that_changes(a: App, b: App)
    requires
        a.same_but_toast(b),
        a.toast == b.toast,
    ensures
        a == b,
{
}

} // verus!
