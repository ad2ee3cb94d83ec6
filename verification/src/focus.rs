//! How a request to focus a terminal ends, and the messages for when it fails.

use vstd::prelude::*;

use crate::error::{AppError, AppResult, FocusResult};

verus! {

/// How a request to focus a terminal ended.
#[derive(Debug, PartialEq, Eq)]
pub enum Outcome<T> {
    /// The app is in front; `window_focused` tells whether the very window is known to be.
    Focused { app: T, window_focused: bool },
    /// Nothing was brought to the front, for this reason.
    Failed(T),
}

impl View for Outcome<String> {
    type V = Outcome<Seq<char>>;

    open spec fn view(&self) -> Outcome<Seq<char>> {
        match self {
            Outcome::Focused { app, window_focused } => Outcome::Focused {
                app: app@,
                window_focused: *window_focused,
            },
            Outcome::Failed(message) => Outcome::Failed(message@),
        }
    }
}

impl Outcome<String> {
    /// The outcome as an answer to the caller.
    pub fn into_result(self) -> (result: AppResult<FocusResult>)
        ensures
            match result {
                Ok(focused) => self@ == (Outcome::Focused {
                    app: focused.app@,
                    window_focused: focused.window_focused,
                }),
                Err(error) => self@ == Outcome::<Seq<char>>::Failed(error@),
            },
    {
        match self {
            Outcome::Focused { app, window_focused } => Ok(FocusResult { app, window_focused }),
            Outcome::Failed(message) => Err(AppError::Other(message)),
        }
    }
}

/// No session file names the session. `agent` is the program whose sessions are watched.
pub open spec fn no_session(agent: Seq<char>) -> Seq<char> {
    "no running "@ + agent + " process found (the session may have ended)"@
}

/// The message that the session has no process.
pub fn session_error(agent: &str) -> (message: String)
    ensures
        message@ == no_session(agent@),
{
    "no running ".to_owned().concat(agent).concat(" process found (the session may have ended)")
}

/// No ancestor of the session's process is a terminal.
pub const NO_HOST: &'static str = "could not identify the host terminal";

/// The terminal has no name to address it by.
pub const UNSUPPORTED: &'static str = "unsupported terminal";

/// The app could not be brought to the front.
pub open spec fn not_in_front(app: Seq<char>) -> Seq<char> {
    "could not bring "@ + app + " to the front"@
}

/// The message that the app could not be brought to the front.
pub fn front_error(app: &str) -> (message: String)
    ensures
        message@ == not_in_front(app@),
{
    "could not bring ".to_owned().concat(app).concat(" to the front")
}

/// The message that a command could not be run.
pub fn run_error(command: &str, detail: &str) -> (error: AppError)
    ensures
        error@ == "failed to run "@ + command@ + ": "@ + detail@,
{
    AppError::Other("failed to run ".to_owned().concat(command).concat(": ").concat(detail))
}

/// The message that the request did not run to its end.
pub fn task_error(detail: &str) -> (error: AppError)
    ensures
        error@ == "terminal focus task failed: "@ + detail@,
{
    AppError::Other("terminal focus task failed: ".to_owned().concat(detail))
}

/// The messages name what they are about: the agent, or the app, stands in them as it is,
/// between words that are always the same.
pub proof fn law_messages_name_what_they_are_about(name: Seq<char>, other: Seq<char>)
    ensures
        no_session(name) == "no running "@ + name
            + " process found (the session may have ended)"@,
        not_in_front(name) == "could not bring "@ + name + " to the front"@,
        name != other ==> no_session(name) != no_session(other),
        name != other ==> not_in_front(name) != not_in_front(other),
{
    let start = "no running "@.len() as int;
    if no_session(name) == no_session(other) {
        let message = no_session(name);
        assert(message.len() == no_session(other).len());
        assert(name.len() == other.len());
        assert(message.subrange(start, start + name.len()) =~= name);
        assert(message.subrange(start, start + name.len()) =~= other);
    }
    let begin = "could not bring "@.len() as int;
    if not_in_front(name) == not_in_front(other) {
        let message = not_in_front(name);
        assert(message.len() == not_in_front(other).len());
        assert(name.len() == other.len());
        assert(message.subrange(begin, begin + name.len()) =~= name);
        assert(message.subrange(begin, begin + name.len()) =~= other);
    }
}

/// An outcome is seen as it is: the app by its name, a failure by its message.
pub proof fn law_outcomes_are_seen_as_they_are(app: String, window_focused: bool, message: String)
    ensures
        (Outcome::Focused { app, window_focused })@ == (Outcome::Focused {
            app: app@,
            window_focused,
        }),
        Outcome::Failed(message)@ == Outcome::Failed(message@),
        AppError::Other(message)@ == message@,
{
}

/// The fixed reasons for a failure.
pub proof fn law_fixed_reasons()
    ensures
        NO_HOST@ == "could not identify the host terminal"@,
        UNSUPPORTED@ == "unsupported terminal"@,
{
}

} // verus!
