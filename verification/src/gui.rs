//! The authentication window's decisions.
//!
//! One window per authentication request, not per attempt. PAM asks through
//! the helper as many times as it likes -- a wrong password, an extra
//! prompt, a message to show -- and the window stays put while the text on
//! it changes.
//!
//! Fingerprint and password are separate *phases* of that one window:
//! different clocks, different layout, and nothing counted in one is shown
//! in the other. The first Prompt ends the fingerprint phase for good; PAM
//! may try the sensor again on a wrong-password retry, but the window never
//! goes back.
//!
//! The toolkit, the clock and the drawing belong to the process; what a
//! message from the helper does to the window is decided here, in
//! [`Screen::on_message`].
//!
//! Our own labels stay ASCII on purpose. The text we did not write -- the
//! command line, polkit's message, PAM's prompts -- can be in any script, so
//! the font chain grows to meet it; see `font`.
use vstd::prelude::*;

use crate::attempts::WRONG_PASSWORD;
use crate::askpass::DEFAULT_PROMPT;
use crate::secret::Secret;
use crate::text::{chars_of, eq_chars};

verus! {

/// Wayland app-id. The Hyprland rule installed by `--init` matches on
/// exactly this string, so the two must stay in step.
pub const APP_ID: &'static str = "sudo-askpass";

/// The password layout's height, in points.
pub const WINDOW_HEIGHT: u32 = 200;

/// Fingerprint wait has no field. Shorter than the password layout, but tall
/// enough for the glyph and the sensor hint.
pub const FINGERPRINT_HEIGHT: u32 = 168;

/// The window is as wide as the lines it has to show, between these. A
/// truncated command is the one thing this window must not show, because
/// that line is what tells you whether to type at all; past the upper bound
/// the eye stops reading a line and starts scanning it.
pub const MIN_WIDTH: u32 = 400;

pub const MAX_WIDTH: u32 = 800;

/// The panel's inner margin, on every side.
pub const PANEL_MARGIN: u32 = 24;

/// What the window costs around its widest line: the margin on both sides,
/// and a little slack so a line that just fits is not cut by a rounding
/// difference between measuring and drawing.
pub const CHROME_WIDTH: u32 = PANEL_MARGIN * 2 + 8;

/// The lock glyph and the gap between it and the field.
pub const LOCK_WIDTH: u32 = 24;

pub const LOCK_GAP: u32 = 6;

/// The password row keeps the width it has in the narrowest window and is
/// centred in anything wider: the window only widens to fit a long command,
/// and a password box that grew with it would read as though the command
/// belonged in it.
pub const FIELD_ROW_WIDTH: u32 = MIN_WIDTH - PANEL_MARGIN * 2;

/// Below this many seconds the countdown turns to the error colour, the same
/// way the attempts line does when its budget runs low.
pub const HURRY_AT_OR_BELOW: u64 = 5;

/// Our own backstop: give up a little after the caller does, for a cancel
/// that never arrives.
pub const TIMEOUT_SECS: u64 = 30;

/// Nerd Font padlock (nf-fa-lock) -- the same glyph the system polkit dialog
/// uses.
pub const LOCK_GLYPH: &'static str = "\u{f023}";

/// Nerd Font `nf-md-fingerprint` (`U+F0237`). `U+F0597` is `weather-rainy`.
pub const FINGERPRINT_GLYPH: &'static str = "\u{f0237}";

/// Short ASCII hint; pam_fprintd's own sentence is a paragraph.
pub const FINGERPRINT_HINT: &'static str = "Touch the sensor";

/// What the window says while an answer is with the helper.
pub const CHECKING: &'static str = "Checking...";

/// The window's height for the phase it opens in.
pub fn window_height(fingerprint: bool) -> (r: u32)
    ensures
        r == if fingerprint {
            FINGERPRINT_HEIGHT
        } else {
            WINDOW_HEIGHT
        },
{
    if fingerprint {
        FINGERPRINT_HEIGHT
    } else {
        WINDOW_HEIGHT
    }
}

/// Whole seconds in `left_ms` milliseconds, rounded up, so the final second
/// reads `1s` for its whole length instead of sitting on `0s`.
pub open spec fn ceil_secs_of(left_ms: nat) -> nat {
    (left_ms + 999) / 1000
}

pub fn ceil_secs(left_ms: u64) -> (r: u64)
    ensures
        r == ceil_secs_of(left_ms as nat),
{
    left_ms / 1000 + if left_ms % 1000 == 0 {
        0
    } else {
        1
    }
}

/// The number to draw, or `None` for "do not draw one". Zero is where the
/// estimate stops being one: a caller that set no timeout of its own is
/// still waiting when the count runs out, and a red `0s` on a live request
/// would be a lie.
pub fn countdown(left_ms: u64) -> (r: Option<u64>)
    ensures
        left_ms == 0 ==> r is None,
        left_ms > 0 ==> r == Some(ceil_secs_of(left_ms as nat) as u64),
{
    let secs = ceil_secs(left_ms);
    if secs > 0 {
        Some(secs)
    } else {
        None
    }
}

/// The countdown is drawn in the error colour from here down.
pub fn hurry(secs: u64) -> (r: bool)
    ensures
        r == (secs <= HURRY_AT_OR_BELOW),
{
    secs <= HURRY_AT_OR_BELOW
}

/// What the helper thread tells the window.
pub enum ToUi {
    Prompt { text: String, echo: bool },
    Info(String),
    Error(String),
    Attempts(Option<(String, bool)>),
    /// The conversation is over; close.
    Done,
}

/// What the window tells the helper thread.
pub enum FromUi {
    Answer(Secret),
    Cancel,
}

/// What the request is about, shown above the field.
pub struct Subject {
    /// The command behind the request, if it could be established.
    pub command: Option<String>,
    /// polkit's own wording, the last thing tried when nothing better
    /// exists.
    pub message: String,
    /// What the request will do, from `invocation::purpose`: the second line
    /// under the command, and the headline when there is no command. `None`
    /// where polkit's sentence would add nothing (the `run0` path).
    pub purpose: Option<String>,
    /// Whose password is being asked. The helper's prompt never says.
    pub user: Option<String>,
    /// The standing budget line and whether it is low enough to alarm, from
    /// `attempts::Budget::status`.
    pub attempts: Option<(String, bool)>,
    /// Milliseconds the caller will still wait, counted from the moment the
    /// window opens, on the paths where a caller gives up. `None` on the sudo
    /// path: sudo waits for askpass however long it takes.
    pub deadline_ms: Option<u64>,
    /// The polkit PAM stack will try a fingerprint before asking for a
    /// password, and the lid is open. The field stays hidden until `Prompt`.
    pub fingerprint_wait: bool,
}

/// An optional line as plain text.
pub open spec fn text_of(s: Option<String>) -> Option<Seq<char>> {
    match s {
        Some(t) => Some(t@),
        None => None,
    }
}

impl Subject {
    /// The first line: the command if we have one, else what polkit says the
    /// request will do, else its raw wording.
    pub open spec fn headline_of(&self) -> Seq<char> {
        match self.command {
            Some(c) => c@,
            None => match self.purpose {
                Some(p) => p@,
                None => self.message@,
            },
        }
    }

    /// The second line, which exists only when the first one is a command
    /// and polkit's sentence adds something to it.
    pub open spec fn detail_of(&self) -> Option<Seq<char>> {
        if self.command is Some {
            text_of(self.purpose)
        } else {
            None
        }
    }

    pub fn headline(&self) -> (r: String)
        ensures
            r@ == self.headline_of(),
    {
        match &self.command {
            Some(c) => c.clone(),
            None => match &self.purpose {
                Some(p) => p.clone(),
                None => self.message.clone(),
            },
        }
    }

    pub fn detail(&self) -> (r: Option<String>)
        ensures
            text_of(r) == self.detail_of(),
    {
        match &self.command {
            Some(_) => match &self.purpose {
                Some(p) => Some(p.clone()),
                None => None,
            },
            None => None,
        }
    }
}

/// Fingerprint and password do not share counters, clocks, or messages.
#[allow(inconsistent_fields)]
pub enum Phase {
    Fingerprint {
        /// The last thing PAM said went wrong at the sensor, drawn in place
        /// of the hint. Not counted: pam_fprintd sends the same kind of
        /// message for a bad swipe it does not charge a try for.
        notice: Option<String>,
    },
    Password {
        /// An answer is with the helper; the field is inert until it comes
        /// back.
        waiting: bool,
        focus_set: bool,
        notice: Option<(String, bool)>,
        prompt: String,
        echo: bool,
    },
}

/// What the window has to do after a message, beyond its new state.
pub struct Effects {
    /// Text to make sure the font chain can draw.
    pub cover: Option<String>,
    /// Start a fresh backstop: a new question deserves a fresh deadline.
    pub rearm: bool,
    /// Grow from the sensor layout to the password one.
    pub resize: bool,
    /// Wipe what is in the field.
    pub wipe: bool,
    /// The conversation is over; close.
    pub close: bool,
}

/// The window's state between frames.
pub struct Screen {
    pub phase: Phase,
    /// Opened on the sensor; the layout has to grow when the field appears.
    pub came_from_fingerprint: bool,
    /// The standing budget line.
    pub attempts: Option<(String, bool)>,
}

/// A notice as plain values.
pub open spec fn notice_of(n: Option<(String, bool)>) -> Option<(Seq<char>, bool)> {
    match n {
        Some(x) => Some((x.0@, x.1)),
        None => None,
    }
}

impl Screen {
    /// A password window is armed from the moment it opens: a helper that
    /// never gets round to asking must not leave it up forever. The caller
    /// starts the backstop when the phase is `Password`.
    pub fn new(fingerprint_wait: bool, attempts: Option<(String, bool)>) -> (s: Self)
        ensures
            s.came_from_fingerprint == fingerprint_wait,
            s.attempts == attempts,
            fingerprint_wait ==> (s.phase matches Phase::Fingerprint { notice } && notice is None),
            !fingerprint_wait ==> (s.phase matches Phase::Password {
                waiting,
                focus_set,
                notice,
                prompt,
                echo,
            } && !waiting && !focus_set && notice is None && prompt@ == DEFAULT_PROMPT@ && !echo),
    {
        let phase = if fingerprint_wait {
            Phase::Fingerprint { notice: None }
        } else {
            Phase::Password {
                waiting: false,
                focus_set: false,
                notice: None,
                prompt: string_from(DEFAULT_PROMPT),
                echo: false,
            }
        };
        Screen { phase, came_from_fingerprint: fingerprint_wait, attempts }
    }

    /// Take one message from the helper thread.
    pub fn on_message(&mut self, msg: ToUi) -> (fx: Effects)
        ensures
            // The first Prompt ends the fingerprint phase for good.
            old(self).phase is Password ==> final(self).phase is Password,
            final(self).came_from_fingerprint == old(self).came_from_fingerprint,
            fx.close == (msg is Done),
            fx.rearm == (msg is Prompt),
            fx.resize == (msg is Prompt && old(self).phase is Fingerprint
                && old(self).came_from_fingerprint),
            match msg {
                ToUi::Prompt { text, echo } => {
                    &&& text_of(fx.cover) == Some(text@)
                    &&& !fx.wipe
                    &&& final(self).attempts == old(self).attempts
                    &&& final(self).phase matches Phase::Password {
                        waiting,
                        focus_set,
                        notice,
                        prompt,
                        echo: e,
                    } && !waiting && !focus_set && prompt@ == text@ && e == echo && notice_of(
                        notice,
                    ) == match old(self).phase {
                        // The notice stays: a re-prompt follows `Wrong
                        // password` within milliseconds, and clearing it here
                        // would wipe the line before a frame draws it.
                        Phase::Password { notice: n, .. } => notice_of(n),
                        Phase::Fingerprint { .. } => None,
                    }
                },
                ToUi::Info(text) => {
                    &&& text_of(fx.cover) == Some(text@)
                    &&& !fx.wipe
                    &&& final(self).attempts == old(self).attempts
                    &&& if !old(self).came_from_fingerprint && old(self).phase is Password {
                        final(self).phase matches Phase::Password {
                            notice, ..
                        } && notice_of(notice) == Some((text@, false))
                            && same_field(old(self).phase, final(self).phase)
                    } else {
                        final(self).phase == old(self).phase
                    }
                },
                ToUi::Error(text) => {
                    &&& text_of(fx.cover) == Some(text@)
                    &&& fx.wipe == (text@ == WRONG_PASSWORD@)
                    &&& final(self).attempts == old(self).attempts
                    &&& match old(self).phase {
                        Phase::Fingerprint { .. } => final(self).phase matches Phase::Fingerprint {
                            notice,
                        } && text_of(notice) == Some(text@),
                        // Every error is shown; only a rejected password
                        // frees the field. Any other error can arrive while an
                        // answer is still on its way to a helper that is busy
                        // at the sensor.
                        Phase::Password { waiting: w0, focus_set: f0, prompt: p0, echo: e0, .. } => {
                            final(self).phase matches Phase::Password {
                                waiting,
                                focus_set,
                                notice,
                                prompt,
                                echo,
                            } && notice_of(notice) == Some((text@, true)) && prompt == p0 && echo
                                == e0 && if text@ == WRONG_PASSWORD@ {
                                !waiting && !focus_set
                            } else {
                                waiting == w0 && focus_set == f0
                            }
                        },
                    }
                },
                ToUi::Attempts(a) => {
                    &&& fx.cover is None
                    &&& !fx.wipe
                    &&& final(self).attempts == a
                    &&& final(self).phase == old(self).phase
                },
                ToUi::Done => {
                    &&& fx.cover is None
                    &&& !fx.wipe
                    &&& final(self).attempts == old(self).attempts
                    &&& final(self).phase == old(self).phase
                },
            },
    {
        let came = self.came_from_fingerprint;
        match msg {
            ToUi::Prompt { text, echo } => {
                let was_fingerprint = match &self.phase {
                    Phase::Fingerprint { .. } => true,
                    Phase::Password { .. } => false,
                };
                let cover = text.clone();
                let kept = take_notice(&mut self.phase);
                self.phase = Phase::Password {
                    waiting: false,
                    focus_set: false,
                    notice: kept,
                    prompt: text,
                    echo,
                };
                Effects {
                    cover: Some(cover),
                    rearm: true,
                    resize: was_fingerprint && came,
                    wipe: false,
                    close: false,
                }
            },
            ToUi::Info(text) => {
                let cover = text.clone();
                if !came {
                    match &mut self.phase {
                        Phase::Password { notice, .. } => {
                            *notice = Some((text, false));
                        },
                        Phase::Fingerprint { .. } => {},
                    }
                }
                Effects { cover: Some(cover), rearm: false, resize: false, wipe: false, close: false }
            },
            ToUi::Error(text) => {
                let cover = text.clone();
                let wrong = eq_chars(&chars_of(text.as_str()), &chars_of(WRONG_PASSWORD));
                match &mut self.phase {
                    Phase::Fingerprint { notice } => {
                        *notice = Some(text);
                    },
                    Phase::Password { waiting, focus_set, notice, .. } => {
                        *notice = Some((text, true));
                        if wrong {
                            *waiting = false;
                            *focus_set = false;
                        }
                    },
                }
                Effects { cover: Some(cover), rearm: false, resize: false, wipe: wrong, close: false }
            },
            ToUi::Attempts(a) => {
                self.attempts = a;
                Effects { cover: None, rearm: false, resize: false, wipe: false, close: false }
            },
            ToUi::Done => Effects {
                cover: None,
                rearm: false,
                resize: false,
                wipe: false,
                close: true,
            },
        }
    }

    /// An answer went to the helper: the field is inert and the last notice
    /// gives way to `Checking...`.
    pub fn submitted(&mut self)
        ensures
            final(self).came_from_fingerprint == old(self).came_from_fingerprint,
            final(self).attempts == old(self).attempts,
            match old(self).phase {
                Phase::Fingerprint { .. } => final(self).phase == old(self).phase,
                Phase::Password { focus_set: f0, prompt: p0, echo: e0, .. } => {
                    final(self).phase matches Phase::Password {
                        waiting,
                        focus_set,
                        notice,
                        prompt,
                        echo,
                    } && waiting && notice is None && focus_set == f0 && prompt == p0 && echo == e0
                },
            },
    {
        match &mut self.phase {
            Phase::Password { waiting, notice, .. } => {
                *waiting = true;
                *notice = None;
            },
            Phase::Fingerprint { .. } => {},
        }
    }

    /// The line under the field: the last notice, else `Checking...` while
    /// an answer is out, else nothing.
    pub fn transient(&self) -> (r: Option<(String, bool)>)
        ensures
            match self.phase {
                Phase::Password { notice, waiting, .. } => notice_of(r) == match notice {
                    Some(n) => Some((n.0@, n.1)),
                    None => if waiting {
                        Some((CHECKING@, false))
                    } else {
                        None
                    },
                },
                Phase::Fingerprint { .. } => r is None,
            },
    {
        match &self.phase {
            Phase::Password { notice, waiting, .. } => match notice {
                Some((text, error)) => Some((text.clone(), *error)),
                None => {
                    if *waiting {
                        Some((string_from(CHECKING), false))
                    } else {
                        None
                    }
                },
            },
            Phase::Fingerprint { .. } => None,
        }
    }
}

/// The field's own state is what it was: only the notice moved.
pub open spec fn same_field(a: Phase, b: Phase) -> bool {
    match (a, b) {
        (
            Phase::Password { waiting: w0, focus_set: f0, prompt: p0, echo: e0, .. },
            Phase::Password { waiting: w1, focus_set: f1, prompt: p1, echo: e1, .. },
        ) => w0 == w1 && f0 == f1 && p0 == p1 && e0 == e1,
        _ => false,
    }
}

/// The password phase's notice, taken out; the sensor's is dropped.
fn take_notice(phase: &mut Phase) -> (r: Option<(String, bool)>)
    ensures
        notice_of(r) == match *old(phase) {
            Phase::Password { notice, .. } => notice_of(notice),
            Phase::Fingerprint { .. } => None,
        },
{
    match phase {
        Phase::Password { notice, .. } => notice.take(),
        Phase::Fingerprint { .. } => None,
    }
}

fn string_from(s: &str) -> (r: String)
    ensures
        r@ == s@,
{
    s.to_owned()
}

} // verus!
