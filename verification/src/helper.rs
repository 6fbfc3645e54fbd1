//! The conversation with polkit-agent-helper-1.
//!
//! The helper is what runs PAM and what tells polkitd the answer; we never
//! call AuthenticationAgentResponse2 ourselves. Two ways in, and the first
//! can fail in a way that looks like a refusal, so both are needed:
//!
//!   socket  connect /run/polkit/agent-helper.socket, send "username\ncookie\n"
//!   fork    exec the setuid binary with the username, cookie on stdin
//!
//! On a kernel without SO_PEERPIDFD the socket helper closes without ever
//! prompting. "Did we see a prompt" is therefore the signal that matters: it
//! decides whether to fall back to fork, and it decides how the request has
//! to end -- a refusal before any prompt must not be reported as an error,
//! or polkitd re-issues the request and the window reopens forever.
//!
//! The process holds the socket and the pipes and reads the lines; each line
//! is handed to an [`Attempt`], which says what to do with it.
use vstd::prelude::*;

use crate::invocation::trim_end_char;
use crate::secret::Secret;
use crate::text::{chars_of, copy_range, eq_chars, find, find_exec, matches_at, string_of};

verus! {

/// How one attempt ended.
#[derive(Debug, PartialEq, Eq, Structural, Clone, Copy)]
pub enum Outcome {
    Success,
    /// PAM asked and the answer was wrong. Another attempt may help.
    Failed,
    /// The helper gave up before asking anything: a locked account, a broken
    /// PAM stack, or a socket helper the kernel cannot vouch for.
    RefusedWithoutPrompt,
    /// The user closed the prompt.
    Cancelled,
}

/// What the caller shows, and how it asks. `echo` is true when the input is
/// not a password (PAM_PROMPT_ECHO_ON) and may be shown on screen.
pub trait Conversation {
    /// `None` means the user closed the prompt.
    fn ask(&mut self, prompt: &str, echo: bool) -> Option<Secret>;

    fn info(&mut self, text: &str);

    fn error(&mut self, text: &str);

    /// The standing budget line changed (see `Budget::status`).
    fn update_attempts(&mut self, attempts: Option<(String, bool)>);

    /// Has the user given up while the helper was still busy? A caller that
    /// cannot tell answers no, and the attempt runs to its end.
    fn cancelled(&self) -> (r: bool)
        default_ensures
            !r,
    {
        false
    }
}

/// What the caller is told before it tries the other door.
pub const FALLBACK_NOTE: &'static str = "socket helper closed without asking; trying the setuid helper";

/// A protocol line's tag and body: split at the first space, which the
/// protocol drops; a line without one is all tag.
pub open spec fn split_tag_of(line: Seq<char>) -> (Seq<char>, Seq<char>) {
    match find(line, seq![' ']) {
        Some(i) => (line.subrange(0, i), line.subrange(i + 1, line.len() as int)),
        None => (line, Seq::empty()),
    }
}

/// Split a protocol line into its tag and its body.
pub fn split_tag(line: &str) -> (r: (String, String))
    ensures
        (r.0@, r.1@) == split_tag_of(line@),
{
    let s = chars_of(line);
    let space: Vec<char> = vec![' '];
    assert(space@ =~= seq![' ']);
    match find_exec(&s, &space) {
        Some(i) => {
            assert(space@.len() == 1);
            assert(matches_at(s@, i as int, space@));
            assert(i + 1 <= s@.len());
            assert(s@.len() == s.len());
            let after: usize = i + 1;
            let tag = string_of(&copy_range(&s, 0, i));
            (tag, string_of(&copy_range(&s, after, s.len())))
        },
        None => (string_of(&s), String::new()),
    }
}

pub open spec fn tag_echo_off() -> Seq<char> {
    "PAM_PROMPT_ECHO_OFF"@
}

pub open spec fn tag_echo_on() -> Seq<char> {
    "PAM_PROMPT_ECHO_ON"@
}

/// What to do with one line from the helper.
pub enum Action {
    /// Put the prompt on screen and send back what is typed.
    Ask { prompt: String, echo: bool },
    /// Show PAM's error.
    Error(String),
    /// Show PAM's information.
    Info(String),
    /// The helper says the password was right.
    Succeeded,
    /// The helper says it is done without success.
    End,
    /// A line this protocol does not use.
    Skip,
}

/// The action that `line`, as read with its newline, calls for.
pub open spec fn action_for(r: Action, line: Seq<char>) -> bool {
    let (tag, body) = split_tag_of(trim_end_char(line, '\n'));
    if tag == tag_echo_off() || tag == tag_echo_on() {
        r matches Action::Ask { prompt, echo } && prompt@ == body && echo == (tag == tag_echo_on())
    } else if tag == "PAM_ERROR_MSG"@ {
        r matches Action::Error(t) && t@ == body
    } else if tag == "PAM_TEXT_INFO"@ {
        r matches Action::Info(t) && t@ == body
    } else if tag == "SUCCESS"@ {
        r is Succeeded
    } else if tag == "FAILURE"@ {
        r is End
    } else {
        r is Skip
    }
}

/// One pass through the helper, from connect to SUCCESS or FAILURE.
pub struct Attempt {
    /// Has the helper asked anything yet?
    pub saw_prompt: bool,
}

impl Attempt {
    pub fn new() -> (a: Self)
        ensures
            !a.saw_prompt,
    {
        Attempt { saw_prompt: false }
    }

    /// Read one line of the helper's protocol.
    pub fn on_line(&mut self, line: &str) -> (r: Action)
        ensures
            action_for(r, line@),
            final(self).saw_prompt == (old(self).saw_prompt || r is Ask),
    {
        let s = chars_of(line);
        let mut end = s.len();
        assert(s@.subrange(0, s@.len() as int) =~= s@);
        while end > 0 && s[end - 1] == '\n'
            invariant
                end <= s@.len(),
                trim_end_char(s@, '\n') == trim_end_char(s@.subrange(0, end as int), '\n'),
            decreases end,
        {
            assert(s@.subrange(0, end as int).drop_last() =~= s@.subrange(0, end - 1));
            end = end - 1;
        }
        assert(s@.subrange(0, s@.len() as int) =~= s@);
        let body = copy_range(&s, 0, end);
        assert(trim_end_char(s@, '\n') == body@);
        let (tag, rest) = split_tag(&string_of(&body));
        let t = chars_of(tag.as_str());
        let off = eq_chars(&t, &chars_of("PAM_PROMPT_ECHO_OFF"));
        let on = eq_chars(&t, &chars_of("PAM_PROMPT_ECHO_ON"));
        if off || on {
            self.saw_prompt = true;
            Action::Ask { prompt: rest, echo: on }
        } else if eq_chars(&t, &chars_of("PAM_ERROR_MSG")) {
            Action::Error(rest)
        } else if eq_chars(&t, &chars_of("PAM_TEXT_INFO")) {
            Action::Info(rest)
        } else if eq_chars(&t, &chars_of("SUCCESS")) {
            Action::Succeeded
        } else if eq_chars(&t, &chars_of("FAILURE")) {
            Action::End
        } else {
            Action::Skip
        }
    }

    /// The helper went quiet without SUCCESS: at end of input, after a read
    /// error, or after FAILURE. A wrong answer is worth another try; a
    /// refusal before any prompt is not a failure at all.
    pub fn finish(&self) -> (r: Outcome)
        ensures
            r == (if self.saw_prompt {
                Outcome::Failed
            } else {
                Outcome::RefusedWithoutPrompt
            }),
    {
        if self.saw_prompt {
            Outcome::Failed
        } else {
            Outcome::RefusedWithoutPrompt
        }
    }
}

/// How an attempt goes on after a prompt: the user closing it cancels, an
/// answer that cannot be written back fails, and otherwise the helper is
/// read again (`None`).
pub fn after_answer(answered: bool, sent: bool) -> (r: Option<Outcome>)
    ensures
        !answered ==> r == Some(Outcome::Cancelled),
        answered && !sent ==> r == Some(Outcome::Failed),
        answered && sent ==> r is None,
{
    if !answered {
        Some(Outcome::Cancelled)
    } else if !sent {
        Some(Outcome::Failed)
    } else {
        None
    }
}

/// After the socket door: its answer stands, except a refusal before any
/// prompt, which is how the socket helper fails on a kernel that cannot pass
/// a pidfd, and is tried again through the setuid helper (`None`).
pub fn after_socket(outcome: Outcome) -> (r: Option<Outcome>)
    ensures
        outcome == Outcome::RefusedWithoutPrompt ==> r is None,
        outcome != Outcome::RefusedWithoutPrompt ==> r == Some(outcome),
{
    match outcome {
        Outcome::RefusedWithoutPrompt => None,
        other => Some(other),
    }
}

/// A door that cannot be opened at all is a refusal before any prompt.
pub fn unreachable_outcome() -> (r: Outcome)
    ensures
        r == Outcome::RefusedWithoutPrompt,
{
    Outcome::RefusedWithoutPrompt
}

} // verus!
