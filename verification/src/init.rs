//! Install mode's text: what `--init` writes into shared files and how
//! `--uninit` takes it back out.
//!
//! Three things get written, all under $HOME and all inside markers so they
//! can be found and taken back out exactly: the window rules, the user unit
//! that starts the agent, and the shell alias. The snippet directory is
//! shared with other tools, and so is the loader block that sources it;
//! `--uninit` removes our file and leaves the loader alone.
//!
//! Everything is idempotent. Running `--init` twice must not append a second
//! copy of anything, because the usual way people find a problem is by
//! running the installer again. The files, `systemctl` and `hyprctl` are the
//! process's; the text is decided here.
use vstd::prelude::*;

use crate::invocation::{lossy, trim_end_char, trim_end_char_exec, utf8_lossy};
use crate::text::{
    chars_of, concat, contains, contains_exec, copy_range, ends_with, ends_with_exec, find,
    find_exec, lemma_find_first, lemma_matches_found, matches_at, starts_with, starts_with_exec, string_of,
};
use crate::theme::trim_start_char;

verus! {

pub const HYPR_BLOCK_BEGIN: &'static str = "-- sudo-pop:begin";

pub const HYPR_BLOCK_END: &'static str = "-- sudo-pop:end";

pub const HYPR_BLOCK_BODY: &'static str = "require(\"minsoft1115.hypr.sudo-pop\")";

pub const UNIT_NAME: &'static str = "sudo-pop-agent.service";

/// Marker for the loader that sources every snippet in the bash directory.
/// Shared with the other tools in this config, so `--uninit` leaves it
/// alone.
pub const BASH_LOADER_BEGIN: &'static str = "# minsoft1115-bash:begin";

pub const BASH_LOADER_END: &'static str = "# minsoft1115-bash:end";

pub const BASH_LOADER_BODY: &'static str = "for __minsoft1115_rc in \"$HOME/.config/minsoft1115/bash\"/*.sh; do\n  [ -r \"$__minsoft1115_rc\" ] && . \"$__minsoft1115_rc\"\ndone\nunset __minsoft1115_rc";

/// The text with the block appended: on a line of its own after one blank
/// line, the text's last line ended first if it was not.
pub open spec fn with_block(existing: Seq<char>, begin: Seq<char>, end: Seq<char>, body: Seq<char>) -> Seq<
    char,
> {
    block_base(existing).push('\n') + begin.push('\n') + body.push('\n') + end.push('\n')
}

/// The text with its last line ended, if it had one that was not.
pub open spec fn block_base(existing: Seq<char>) -> Seq<char> {
    if existing.len() > 0 && !ends_with(existing, "\n"@) {
        existing.push('\n')
    } else {
        existing
    }
}

/// No line break anywhere in `s`.
pub open spec fn one_line(s: Seq<char>) -> bool {
    forall|j: int| 0 <= j < s.len() ==> s[j] != '\n'
}

/// Append a marker-delimited block unless it is already there: `None` when
/// the text holds `begin` already, else the new text.
pub fn add_block(existing: &str, begin: &str, end: &str, body: &str) -> (r: Option<String>)
    ensures
        contains(existing@, begin@) ==> r is None,
        !contains(existing@, begin@) ==> r is Some && r->0@ == with_block(
            existing@,
            begin@,
            end@,
            body@,
        ),
{
    let e = chars_of(existing);
    let b = chars_of(begin);
    if contains_exec(&e, &b) {
        return None;
    }
    let nl: Vec<char> = vec!['\n'];
    assert(nl@ =~= "\n"@) by {
        reveal_strlit("\n");
    }
    let mut out = copy_range(&e, 0, e.len());
    assert(e@.subrange(0, e@.len() as int) =~= e@);
    if e.len() > 0 && !ends_with_exec(&e, &nl) {
        out.push('\n');
    }
    out.push('\n');
    let mut b2 = b;
    b2.push('\n');
    let mut body2 = chars_of(body);
    body2.push('\n');
    let mut end2 = chars_of(end);
    end2.push('\n');
    let out = concat(&concat(&concat(&out, &b2), &body2), &end2);
    Some(string_of(&out))
}

/// How a block comes out of a text.
pub enum Removal {
    /// There is no `begin` marker: nothing to do.
    Absent,
    /// A `begin` without a matching `end` is left untouched rather than
    /// guessed at: better a stray line than eating the rest of someone's
    /// config.
    Unterminated,
    /// The text without the block, markers included, its two sides joined
    /// by one line break.
    Removed(String),
}

/// The text without the block from the first `begin` to the first `end`
/// after it: what was before, without its trailing line breaks, a line
/// break, and what was after, without its leading ones.
pub open spec fn without_block(s: Seq<char>, begin: Seq<char>, end: Seq<char>) -> Option<
    Option<Seq<char>>,
> {
    match find(s, begin) {
        None => None,
        Some(start) => match find(s.subrange(start, s.len() as int), end) {
            None => Some(None),
            Some(stop) => Some(
                Some(
                    trim_end_char(s.subrange(0, start), '\n').push('\n') + trim_start_char(
                        s.subrange(start + stop + end.len(), s.len() as int),
                        '\n',
                    ),
                ),
            ),
        },
    }
}

fn trim_start_newlines(s: &[char], a: usize) -> (r: Vec<char>)
    requires
        a <= s@.len(),
    ensures
        r@ == trim_start_char(s@.subrange(a as int, s@.len() as int), '\n'),
{
    let mut i = a;
    while i < s.len() && s[i] == '\n'
        invariant
            a <= i <= s@.len(),
            trim_start_char(s@.subrange(a as int, s@.len() as int), '\n') == trim_start_char(
                s@.subrange(i as int, s@.len() as int),
                '\n',
            ),
        decreases s.len() - i,
    {
        assert(s@.subrange(i as int, s@.len() as int).drop_first() =~= s@.subrange(
            i + 1,
            s@.len() as int,
        ));
        i = i + 1;
    }
    copy_range(s, i, s.len())
}

/// Delete a marker-delimited block, markers included.
pub fn remove_block(existing: &str, begin: &str, end: &str) -> (r: Removal)
    ensures
        match without_block(existing@, begin@, end@) {
            None => r is Absent,
            Some(None) => r is Unterminated,
            Some(Some(t)) => r matches Removal::Removed(out) && out@ == t,
        },
{
    let e = chars_of(existing);
    let start = match find_exec(&e, &chars_of(begin)) {
        None => {
            return Removal::Absent;
        },
        Some(i) => i,
    };
    let rest = copy_range(&e, start, e.len());
    let en = chars_of(end);
    let stop = match find_exec(&rest, &en) {
        None => {
            return Removal::Unterminated;
        },
        Some(j) => j,
    };
    assert(matches_at(rest@, stop as int, en@));
    let head = trim_end_char_exec(&copy_range(&e, 0, start), '\n');
    let cut: usize = start + stop + en.len();
    let mut out = head;
    out.push('\n');
    let tail = trim_start_newlines(&e, cut);
    Removal::Removed(string_of(&concat(&out, &tail)))
}

/// The unit that starts the agent with the session.
pub open spec fn unit_text(exe: Seq<char>) -> Seq<char> {
    "[Unit]\nDescription=sudo-pop polkit authentication agent\nDocumentation=https://github.com/minsoft1115/sudo-pop\nPartOf=graphical-session.target\nAfter=graphical-session.target\n\n[Service]\nType=exec\nExecStart="@
        + exe
        + " --agent\nRestart=on-failure\nRestartSec=2\n\n[Install]\nWantedBy=graphical-session.target\n"@
}

/// The user unit, for the binary at `exe`.
pub fn unit_body(exe: &str) -> (r: String)
    ensures
        r@ == unit_text(exe@),
{
    let head = chars_of(
        "[Unit]\nDescription=sudo-pop polkit authentication agent\nDocumentation=https://github.com/minsoft1115/sudo-pop\nPartOf=graphical-session.target\nAfter=graphical-session.target\n\n[Service]\nType=exec\nExecStart=",
    );
    let tail = chars_of(
        " --agent\nRestart=on-failure\nRestartSec=2\n\n[Install]\nWantedBy=graphical-session.target\n",
    );
    string_of(&concat(&concat(&head, &chars_of(exe)), &tail))
}

/// How to move another agent out of the way.
pub open spec fn switch_hint_of(other: Seq<char>) -> Seq<char> {
    if starts_with(other, "omarchy.polkit"@) {
        "omarchy plugin disable omarchy.polkit"@
    } else {
        "systemctl --user disable --now "@ + other + ".service"@
    }
}

pub fn switch_hint(other: &str) -> (r: String)
    ensures
        r@ == switch_hint_of(other@),
{
    let o = chars_of(other);
    if starts_with_exec(&o, &chars_of("omarchy.polkit")) {
        string_of(&chars_of("omarchy plugin disable omarchy.polkit"))
    } else {
        let head = chars_of("systemctl --user disable --now ");
        string_of(&concat(&concat(&head, &o), &chars_of(".service")))
    }
}

/// The shell's plugin list says its polkit agent is enabled: the part of
/// the JSON after `omarchy.polkit`, up to the end of that plugin's object,
/// says `"enabled": true`.
pub open spec fn polkit_plugin_enabled_of(text: Seq<char>) -> bool {
    match find(text, "omarchy.polkit"@) {
        None => false,
        Some(at) => {
            let rest = text.subrange(at, text.len() as int);
            let scope = match find(rest, "}"@) {
                Some(end) => rest.subrange(0, end),
                None => rest,
            };
            contains(scope, "\"enabled\": true"@) || contains(scope, "\"enabled\":true"@)
        },
    }
}

/// Read `omarchy-plugin-list --json`, as it printed it. Omarchy's agent
/// lives inside the shell process rather than one of its own, so it cannot
/// be found by looking at process names.
pub fn polkit_plugin_enabled(stdout: &[u8]) -> (r: bool)
    ensures
        r == polkit_plugin_enabled_of(utf8_lossy(stdout@)),
{
    let text = lossy(stdout);
    match find_exec(&text, &chars_of("omarchy.polkit")) {
        None => false,
        Some(at) => {
            let rest = copy_range(&text, at, text.len());
            let scope = match find_exec(&rest, &chars_of("}")) {
                Some(end) => copy_range(&rest, 0, end),
                None => rest,
            };
            contains_exec(&scope, &chars_of("\"enabled\": true")) || contains_exec(
                &scope,
                &chars_of("\"enabled\":true"),
            )
        },
    }
}

/// Running the installer twice adds nothing the second time: a text with
/// the block appended holds its `begin` marker, and `add_block` leaves such
/// a text alone.
pub proof fn law_add_block_is_idempotent(
    existing: Seq<char>,
    begin: Seq<char>,
    end: Seq<char>,
    body: Seq<char>,
)
    ensures
        contains(with_block(existing, begin, end, body), begin),
{
    let w = with_block(existing, begin, end, body);
    let i: int = block_base(existing).len() as int + 1;
    assert(w.subrange(i, i + begin.len()) =~= begin);
    lemma_matches_found(w, begin, i, 0);
}

/// `--uninit` takes back out what `--init` put in: a block appended to a
/// text that did not hold it, with anything written after it since, comes
/// out again leaving the text before it and the text after it joined by
/// one line break. Markers are single lines, `end` occurs in neither
/// `begin` nor the body, and neither marker is empty -- true of every block
/// the installer writes.
pub proof fn law_remove_block_undoes_add_block(
    existing: Seq<char>,
    begin: Seq<char>,
    end: Seq<char>,
    body: Seq<char>,
    after: Seq<char>,
)
    requires
        !contains(existing, begin),
        begin.len() > 0,
        end.len() > 0,
        one_line(begin),
        one_line(end),
        !contains(begin, end),
        !contains(body, end),
    ensures
        without_block(with_block(existing, begin, end, body) + after, begin, end) == Some(
            Some(trim_end_char(existing, '\n').push('\n') + trim_start_char(after, '\n')),
        ),
{
    let x = existing;
    let base = block_base(x);
    let t = with_block(x, begin, end, body) + after;
    let bl = begin.len() as int;
    let el = end.len() as int;
    let s0: int = base.len() as int + 1;
    let rest_block = begin.push('\n') + body.push('\n') + end.push('\n') + after;
    assert(t =~= base.push('\n') + rest_block);
    // The text up to the block, and the line breaks that end it.
    assert(x.len() <= base.len() <= x.len() + 1);
    assert forall|k: int| 0 <= k < x.len() implies t[k] == x[k] by {
        assert(t[k] == base.push('\n')[k]);
    }
    assert forall|k: int| x.len() <= k <= base.len() implies t[k] == '\n' by {
        assert(t[k] == base.push('\n')[k]);
    }
    assert(t.subrange(s0, s0 + bl) =~= begin);
    // The first `begin` is the block's own.
    assert forall|i: int| 0 <= i < s0 implies !matches_at(t, i, begin) by {
        if matches_at(t, i, begin) {
            assert(t.subrange(i, i + bl) == begin);
            if i + bl <= x.len() {
                assert(x.subrange(i, i + bl) =~= t.subrange(i, i + bl));
                lemma_matches_found(x, begin, i, 0);
            } else if i <= x.len() {
                assert(begin[x.len() - i] == t.subrange(i, i + bl)[x.len() - i]);
            } else {
                assert(begin[0] == t.subrange(i, i + bl)[0]);
            }
        }
    }
    lemma_find_first(t, begin, s0, 0);
    let rest = t.subrange(s0, t.len() as int);
    assert(rest =~= rest_block);
    let k0: int = bl + 1 + body.len() as int + 1;
    assert(rest.subrange(k0, k0 + el) =~= end);
    assert forall|k: int| 0 <= k < bl implies rest[k] == begin[k] by {}
    assert(rest[bl] == '\n');
    assert forall|k: int| 0 <= k < body.len() implies rest[bl + 1 + k] == body[k] by {}
    assert(rest[bl + 1 + body.len()] == '\n');
    // The first `end` after it is the block's own too.
    assert forall|i: int| 0 <= i < k0 implies !matches_at(rest, i, end) by {
        if matches_at(rest, i, end) {
            assert(rest.subrange(i, i + el) == end);
            if i + el <= bl {
                assert(begin.subrange(i, i + el) =~= rest.subrange(i, i + el));
                lemma_matches_found(begin, end, i, 0);
            } else if i <= bl {
                assert(end[bl - i] == rest.subrange(i, i + el)[bl - i]);
            } else if i + el <= bl + 1 + body.len() {
                assert(body.subrange(i - bl - 1, i - bl - 1 + el) =~= rest.subrange(i, i + el));
                lemma_matches_found(body, end, i - bl - 1, 0);
            } else {
                assert(end[bl + 1 + body.len() - i] == rest.subrange(i, i + el)[bl + 1
                    + body.len() - i]);
            }
        }
    }
    lemma_find_first(rest, end, k0, 0);
    // What is left on either side.
    let head = t.subrange(0, s0);
    assert(head =~= base.push('\n'));
    assert(head.drop_last() =~= base);
    assert(trim_end_char(head, '\n') == trim_end_char(base, '\n'));
    if base.len() > x.len() {
        assert(base == x.push('\n'));
        assert(base.drop_last() =~= x);
        assert(trim_end_char(base, '\n') == trim_end_char(x, '\n'));
    } else {
        assert(base == x);
    }
    let tail = t.subrange(s0 + k0 + el, t.len() as int);
    assert(tail =~= seq!['\n'] + after);
    assert(tail.drop_first() =~= after);
}

} // verus!
