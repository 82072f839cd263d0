//! The global shortcut, as the desktop portal manages it.
//!
//! The application declares an action and proposes a key; the user assigns it.
//! So there is a binding to be shown and an editor to be opened, and no key to
//! be recorded here.

use crate::config::text_of;
use crate::text::same;
use vstd::prelude::*;

verus! {

/// The name of the action: the desktop stores its binding under it.
pub const SHORTCUT_ID: &'static str = "save-replay";

/// The key that is proposed to the desktop.
pub const PREFERRED_TRIGGER: &'static str = "CTRL+ALT+S";

/// What the window shows.
#[derive(Debug)]
pub struct ShortcutState {
    /// The binding in the words of the desktop; missing while the action has
    /// no key.
    pub trigger: Option<String>,
    /// Why there is no portal.
    pub error: Option<String>,
    /// The portal has answered, and the action is registered.
    pub registered: bool,
}

/// A binding that the portal reports.
#[derive(Debug)]
pub struct Binding {
    pub id: String,
    pub trigger: String,
}

pub open spec fn spec_summary(
    error: Option<Seq<char>>,
    trigger: Option<Seq<char>>,
    registered: bool,
) -> Seq<char> {
    match error {
        Some(error) => "портал недоступен: "@ + error,
        None => match trigger {
            Some(trigger) => trigger,
            None => if registered {
                "не назначена"@
            } else {
                "регистрируется…"@
            },
        },
    }
}

/// The key of the action among reported bindings: the first binding of the
/// action counts, and an empty one is no key.
pub open spec fn trigger_in(bindings: Seq<Binding>) -> Option<Seq<char>>
    decreases bindings.len(),
{
    if bindings.len() == 0 {
        None
    } else if bindings.first().id@ == SHORTCUT_ID@ {
        if bindings.first().trigger@.len() > 0 {
            Some(bindings.first().trigger@)
        } else {
            None
        }
    } else {
        trigger_in(bindings.drop_first())
    }
}

/// The key of the action among reported bindings.
pub fn find_trigger(bindings: &Vec<Binding>) -> (trigger: Option<String>)
    ensures
        text_of(trigger) == trigger_in(bindings@),
{
    let mut i: usize = 0;
    assert(bindings@.skip(0) =~= bindings@);
    while i < bindings.len()
        invariant
            i <= bindings@.len(),
            trigger_in(bindings@) == trigger_in(bindings@.skip(i as int)),
        decreases bindings@.len() - i,
    {
        assert(bindings@.skip(i as int).drop_first() =~= bindings@.skip(i + 1));
        if same(bindings[i].id.as_str(), SHORTCUT_ID) {
            if bindings[i].trigger.as_str().unicode_len() > 0 {
                return Some(bindings[i].trigger.clone());
            }
            return None;
        }
        i = i + 1;
    }
    None
}

/// What wakes the listener.
#[derive(Debug)]
pub enum Event {
    Activated,
    Changed(Vec<Binding>),
    /// The portal has closed the session.
    Closed,
    /// The queue of the window was looked into.
    Tick(Asked),
}

/// What the window asks for.
#[derive(Debug, Clone, Copy, PartialEq, Eq, Structural)]
pub enum Asked {
    Nothing,
    /// To open the editor of bindings.
    Configure,
    /// Nothing any more: the window is gone.
    Disconnected,
}

/// What the listener is to do.
#[derive(Debug)]
pub enum Action {
    Wait,
    /// Save a clip, without keeping the next event waiting.
    Save,
    OpenEditor,
    Finish,
    Fail(String),
}

impl Default for ShortcutState {
    fn default() -> (state: Self)
        ensures
            state.trigger is None,
            state.error is None,
            !state.registered,
    {
        ShortcutState { trigger: None, error: None, registered: false }
    }
}

impl Clone for ShortcutState {
    fn clone(&self) -> (copy: Self)
        ensures
            copy == *self,
    {
        ShortcutState {
            trigger: match &self.trigger {
                Some(t) => Some(t.clone()),
                None => None,
            },
            error: match &self.error {
                Some(e) => Some(e.clone()),
                None => None,
            },
            registered: self.registered,
        }
    }
}

impl ShortcutState {
    /// The text for the window.
    pub fn summary(&self) -> (text: String)
        ensures
            text@ == spec_summary(text_of(self.error), text_of(self.trigger), self.registered),
    {
        match &self.error {
            Some(error) => {
                let mut text = "портал недоступен: ".to_owned();
                text.append(error.as_str());
                text
            },
            None => match &self.trigger {
                Some(trigger) => trigger.clone(),
                None => {
                    if self.registered {
                        "не назначена".to_owned()
                    } else {
                        "регистрируется…".to_owned()
                    }
                },
            },
        }
    }

    /// The portal has registered the action and reports its bindings.
    pub fn bound(&mut self, bindings: &Vec<Binding>)
        ensures
            final(self).registered,
            text_of(final(self).trigger) == trigger_in(bindings@),
            final(self).error == old(self).error,
    {
        self.registered = true;
        self.trigger = find_trigger(bindings);
    }

    /// There is no portal, or no longer.
    pub fn failed(&mut self, error: String)
        ensures
            final(self).error == Some(error),
            final(self).trigger == old(self).trigger,
            final(self).registered == old(self).registered,
    {
        self.error = Some(error);
    }

    /// Takes an event in and says what follows from it.
    pub fn handle(&mut self, event: Event) -> (action: Action)
        ensures
            final(self).error == old(self).error,
            final(self).registered == old(self).registered,
            text_of(final(self).trigger) == match event {
                Event::Changed(bindings) => trigger_in(bindings@),
                _ => text_of(old(self).trigger),
            },
            match event {
                Event::Activated => action is Save,
                Event::Changed(_) => action is Wait,
                Event::Closed => action matches Action::Fail(e) && e@
                    == "сеанс хоткеев закрыт порталом"@,
                Event::Tick(Asked::Nothing) => action is Wait,
                Event::Tick(Asked::Configure) => action is OpenEditor,
                Event::Tick(Asked::Disconnected) => action is Finish,
            },
    {
        match event {
            Event::Activated => Action::Save,
            Event::Changed(bindings) => {
                self.trigger = find_trigger(&bindings);
                Action::Wait
            },
            Event::Closed => Action::Fail("сеанс хоткеев закрыт порталом".to_owned()),
            Event::Tick(asked) => match asked {
                Asked::Nothing => Action::Wait,
                Asked::Configure => Action::OpenEditor,
                Asked::Disconnected => Action::Finish,
            },
        }
    }
}

// ----------------------------------------------------------------- the laws

/// A missing key, a registration that goes on and a missing portal are told
/// apart, whatever the portal complains of.
pub proof fn law_unbound_is_not_unavailable(
    error: Seq<char>,
    trigger: Option<Seq<char>>,
    registered: bool,
)
    ensures
        spec_summary(None, None, true) != spec_summary(None, None, false),
        spec_summary(Some(error), trigger, registered) != spec_summary(None, None, true),
        spec_summary(Some(error), trigger, registered) != spec_summary(None, None, false),
{
    reveal_strlit("не назначена");
    reveal_strlit("регистрируется…");
    reveal_strlit("портал недоступен: ");
    assert("не назначена"@[0] == 'н');
    assert("регистрируется…"@[0] == 'р');
    assert(("портал недоступен: "@ + error)[0] == 'п');
}

/// An empty binding counts as no binding.
pub proof fn law_empty_trigger_is_unbound(bindings: Seq<Binding>)
    ensures
        trigger_in(bindings) matches Some(t) ==> t.len() > 0,
    decreases bindings.len(),
{
    if bindings.len() > 0 {
        law_empty_trigger_is_unbound(bindings.drop_first());
    }
}

/// The key is that of the first binding of the action, whatever other actions
/// stand there; it is missing where the binding is empty, or where there is
/// none.
pub proof fn law_first_binding_of_the_action_counts(bindings: Seq<Binding>, k: int)
    ensures
        0 <= k < bindings.len() && bindings[k].id@ == "save-replay"@ && (forall|i: int|
            0 <= i < k ==> (#[trigger] bindings[i]).id@ != "save-replay"@) ==> trigger_in(bindings)
            == (if bindings[k].trigger@.len() > 0 {
            Some(bindings[k].trigger@)
        } else {
            None
        }),
        (forall|i: int|
            0 <= i < bindings.len() ==> (#[trigger] bindings[i]).id@ != "save-replay"@)
            ==> trigger_in(bindings) is None,
    decreases bindings.len(),
{
    if bindings.len() > 0 {
        let rest = bindings.drop_first();
        law_first_binding_of_the_action_counts(rest, k - 1);
        if 0 < k < bindings.len() {
            assert(rest[k - 1] == bindings[k]);
        }
        if k < bindings.len() && (forall|i: int|
            0 <= i < k ==> (#[trigger] bindings[i]).id@ != "save-replay"@) {
            assert forall|i: int| 0 <= i < k - 1 implies (#[trigger] rest[i]).id@
                != "save-replay"@ by {
                assert(rest[i] == bindings[i + 1]);
            }
        }
        if forall|i: int| 0 <= i < bindings.len() ==> (#[trigger] bindings[i]).id@
            != "save-replay"@ {
            assert forall|i: int| 0 <= i < rest.len() implies (#[trigger] rest[i]).id@
                != "save-replay"@ by {
                assert(rest[i] == bindings[i + 1]);
            }
        }
        if k > 0 {
            assert(bindings[0] == bindings.first());
        }
    }
}

/// What the window shows: trouble with the portal first, in the words of the
/// portal, else the key, else why there is none.
pub proof fn law_summary_shows_trouble_first(
    error: Seq<char>,
    trigger: Seq<char>,
    any: Option<Seq<char>>,
    registered: bool,
)
    ensures
        spec_summary(Some(error), any, registered) == "портал недоступен: "@ + error,
        spec_summary(None, Some(trigger), registered) == trigger,
        spec_summary(None, None, true) == "не назначена"@,
        spec_summary(None, None, false) == "регистрируется…"@,
{
}

} // verus!
