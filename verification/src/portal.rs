//! The screen as the desktop portal hands it out, and the token that spares
//! the user the dialog next time.

use crate::config::{config_dir, config_place, text_of, Env};
use crate::paths::{join, joined};
use crate::text::{decimal, is_space, push_decimal, push_signed_decimal, signed_decimal};
use crate::pipeline::mentions;
use crate::text::{law_trim_takes_white_space_only, trim, trimmed};
use vstd::prelude::*;

verus! {

/// A capture session that is open.
#[derive(Debug)]
pub struct ScreenCastSession {
    /// The descriptor of the stream.
    pub fd: i32,
    pub node_id: u32,
    /// The token for the next time: the portal gives out a new one with every
    /// session.
    pub restore_token: Option<String>,
}

pub open spec fn spec_source_desc(fd: int, node_id: nat) -> Seq<char> {
    "pipewiresrc fd="@ + signed_decimal(fd) + " path="@ + decimal(node_id)
        + " do-timestamp=true keepalive-time=1000"@
}

impl ScreenCastSession {
    /// The source for a pipeline description.
    pub fn source_desc(&self) -> (desc: String)
        ensures
            desc@ == spec_source_desc(self.fd as int, self.node_id as nat),
    {
        let mut desc = "pipewiresrc fd=".to_owned();
        push_signed_decimal(&mut desc, self.fd as i64);
        desc.append(" path=");
        push_decimal(&mut desc, self.node_id as u64);
        desc.append(" do-timestamp=true keepalive-time=1000");
        desc
    }

    pub fn node_id(&self) -> (id: u32)
        ensures
            id == self.node_id,
    {
        self.node_id
    }
}

/// The file of the token.
pub fn token_path(env: &Env) -> (path: String)
    ensures
        path@ == joined(env.platform, config_place(env@), "restore-token"@),
{
    join(env.platform, config_dir(env).as_str(), "restore-token")
}

pub open spec fn token_in(stored: Option<Seq<char>>) -> Option<Seq<char>> {
    match stored {
        Some(text) if trimmed(text).len() > 0 => Some(trimmed(text)),
        _ => None,
    }
}

/// The token in what the file holds, if it could be read.
pub fn load_token(stored: Option<String>) -> (token: Option<String>)
    ensures
        text_of(token) == token_in(text_of(stored)),
{
    match stored {
        Some(text) => {
            let token = trim(text.as_str());
            if token.as_str().unicode_len() == 0 {
                None
            } else {
                Some(token)
            }
        },
        None => None,
    }
}

// --------------------------------------------------------- opening a session

/// An attempt to open a session: the portal is asked to start it with the
/// token, where there is one.
#[derive(Debug)]
pub struct PortalAttempt {
    pub token: Option<String>,
}

/// What follows from the answer of the portal.
#[derive(Debug)]
pub enum PortalStep {
    /// The session is open. The token that came with it is to be saved.
    Opened(ScreenCastSession),
    /// The token is stale: it is to be forgotten, and the portal to be asked
    /// once more, this time with its dialog.
    Retry(PortalAttempt),
    Failed(String),
}

impl PortalAttempt {
    /// What follows from an answer: a failure with a token is put down to the
    /// token.
    pub open spec fn followed_by(self, answer: Result<ScreenCastSession, String>) -> PortalStep {
        match answer {
            Ok(session) => PortalStep::Opened(session),
            Err(error) => if self.token is Some {
                PortalStep::Retry(PortalAttempt { token: None })
            } else {
                PortalStep::Failed(error)
            },
        }
    }

    pub fn answered(self, answer: Result<ScreenCastSession, String>) -> (step: PortalStep)
        ensures
            step == self.followed_by(answer),
    {
        match answer {
            Ok(session) => PortalStep::Opened(session),
            Err(error) => {
                if self.token.is_some() {
                    PortalStep::Retry(PortalAttempt { token: None })
                } else {
                    PortalStep::Failed(error)
                }
            },
        }
    }
}

// ----------------------------------------------------------------- the laws

/// The portal is asked once more at most: the second time it is asked without
/// a token, and then its answer is final.
pub proof fn law_portal_is_asked_at_most_twice(
    attempt: PortalAttempt,
    first: Result<ScreenCastSession, String>,
    second: Result<ScreenCastSession, String>,
)
    ensures
        attempt.followed_by(first) matches PortalStep::Retry(again) ==> {
            &&& again.token is None
            &&& again.followed_by(second) !is Retry
        },
{
}

/// A token that was saved is the token that is loaded, unless it has white
/// space at its ends or is empty.
pub proof fn law_saved_token_is_loaded(token: Seq<char>)
    requires
        token.len() > 0,
        !is_space(token.first()),
        !is_space(token.last()),
    ensures
        token_in(Some(token)) == Some(token),
{
}

/// The stream is opened by its descriptor and its node: the numbers that stand
/// there are those of the session, and each ends where it ends.
pub proof fn law_source_names_the_stream(fd: int, node_id: nat)
    ensures
        ({
            let desc = spec_source_desc(fd, node_id);
            &&& mentions(desc, "pipewiresrc fd="@ + signed_decimal(fd) + " "@)
            &&& mentions(desc, " path="@ + decimal(node_id) + " "@)
            &&& mentions(desc, " do-timestamp=true "@)
        }),
{
    reveal_strlit(" ");
    reveal_strlit(" path=");
    reveal_strlit("path=");
    reveal_strlit(" do-timestamp=true ");
    reveal_strlit("keepalive-time=1000");
    reveal_strlit("do-timestamp=true keepalive-time=1000");
    reveal_strlit(" do-timestamp=true keepalive-time=1000");
    let desc = spec_source_desc(fd, node_id);
    let (f, n) = (signed_decimal(fd), decimal(node_id));
    let none = Seq::<char>::empty();
    let rest = "path="@ + n + " do-timestamp=true keepalive-time=1000"@;
    assert(desc =~= none + ("pipewiresrc fd="@ + f + " "@) + rest);
    let front = "pipewiresrc fd="@ + f;
    assert(desc =~= front + (" path="@ + n + " "@) + "do-timestamp=true keepalive-time=1000"@);
    assert(desc =~= (front + " path="@ + n) + " do-timestamp=true "@ + "keepalive-time=1000"@);
}

/// A token is what the file holds without the white space around it. A file
/// that could not be read, or that holds white space alone, has none.
pub proof fn law_token_is_what_the_file_holds(text: Seq<char>)
    ensures
        token_in(None) is None,
        token_in(Some(text)) is None <==> forall|i: int|
            0 <= i < text.len() ==> is_space(#[trigger] text[i]),
        token_in(Some(text)) matches Some(token) ==> {
            &&& token.len() > 0
            &&& !is_space(token[0])
            &&& !is_space(token.last())
            &&& exists|from: int|
                0 <= from && from + token.len() <= text.len() && #[trigger] text.subrange(
                    from,
                    from + token.len(),
                ) == token
        },
{
    let from = law_trim_takes_white_space_only(text);
    let kept = trimmed(text);
    if kept.len() > 0 {
        assert(kept[0] == text[from]);
        assert(text.subrange(from, from + kept.len()) == kept);
    }
}

/// An attempt that worked is over. One that failed with a token is made again
/// without one, and one that failed without a token has failed for the reason
/// that the portal gave.
pub proof fn law_attempt_without_token_is_final(
    attempt: PortalAttempt,
    session: ScreenCastSession,
    error: String,
)
    ensures
        attempt.followed_by(Ok(session)) == PortalStep::Opened(session),
        attempt.token is Some ==> attempt.followed_by(Err(error)) == PortalStep::Retry(
            PortalAttempt { token: None },
        ),
        attempt.token is None ==> attempt.followed_by(Err(error)) == PortalStep::Failed(error),
{
}

} // verus!
