//! Which command is asking for the password.
//!
//! polkit's own `message` does not say. For run0 it reads "Authentication is
//! required to start transient unit 'run-p1630183-i1624710.service'." -- a
//! random unit name and nothing about what will run. A password box that says
//! only that gives no way to notice that something unexpected is asking.
//!
//! `details` carries `polkit.subject-pid`, the process that wanted the
//! privilege, and its `/proc/<pid>/cmdline` is right there; on the sudo path
//! it is our parent's. Reading the file is the caller's job; turning its bytes
//! into the line the window shows is this module's.
use vstd::prelude::*;

use crate::paths::{file_name, file_name_exec, split_byte};
use crate::sudo_args::{command_start, command_start_from};
use crate::text::{
    chars_of, copy_range, eq_chars, lines, lines_exec, parse_uint, parse_uint_exec, starts_with,
    starts_with_exec, string_of, trim, trim_exec, words, words_exec,
};

verus! {

broadcast use crate::chars::lemma_deep_view_chars, crate::chars::lemma_deep_view_bytes;

/// Longest command shown before it is cut short.
pub const MAX_DISPLAY_CHARS: usize = 120;

/// Longest purpose line shown before it is cut short. Shorter than the
/// command because it is the second line and a whole sentence, not an
/// invocation.
pub const MAX_PURPOSE_CHARS: usize = 64;

/// What `String::from_utf8_lossy` makes of these bytes: the text they
/// encode, with U+FFFD for each sequence that is not UTF-8.
pub uninterp spec fn utf8_lossy(bytes: Seq<u8>) -> Seq<char>;

/// `String::from_utf8_lossy`: the text the bytes encode, each invalid
/// sequence replaced by U+FFFD, as an owned string.
#[verifier::external_body]
fn decode_lossy(bytes: &[u8]) -> (r: String)
    ensures
        r@ == utf8_lossy(bytes@),
{
    String::from_utf8_lossy(bytes).into_owned()
}

/// The characters `String::from_utf8_lossy` makes of these bytes.
pub(crate) fn lossy(bytes: &[u8]) -> (r: Vec<char>)
    ensures
        r@ == utf8_lossy(bytes@),
{
    let text = decode_lossy(bytes);
    chars_of(text.as_str())
}

/// polkit writes every message as "Authentication is required to <do a
/// thing>." The window has already said it is asking for a password, so the
/// wrapper is dead weight. Stripped only when it matches: we register with a
/// locale and the sentence can come back in another language, and wording we
/// do not recognise is shown whole rather than mangled.
pub open spec fn message_prefix() -> Seq<char> {
    "Authentication is required to "@
}

/// `manage-units` is how `run0` runs everything, and its message names a
/// transient unit generated for that one invocation. The window's first line
/// already reads `run0 pacman -Syu`, so the sentence adds a random name and
/// nothing else.
pub open spec fn uninformative_action() -> Seq<char> {
    "org.freedesktop.systemd1.manage-units"@
}

/// At most `limit` characters: a longer text keeps `limit - 1` of them and
/// ends in `…`.
pub open spec fn cut(text: Seq<char>, limit: nat) -> Seq<char> {
    if text.len() <= limit {
        text
    } else {
        text.subrange(0, limit - 1).push('…')
    }
}

/// `s.trim_end_matches(c)`.
pub open spec fn trim_end_char(s: Seq<char>, c: char) -> Seq<char>
    decreases s.len(),
{
    if s.len() > 0 && s.last() == c {
        trim_end_char(s.drop_last(), c)
    } else {
        s
    }
}

/// `s.strip_prefix(p).unwrap_or(s)`.
pub open spec fn without_prefix(s: Seq<char>, p: Seq<char>) -> Seq<char> {
    if starts_with(s, p) {
        s.subrange(p.len() as int, s.len() as int)
    } else {
        s
    }
}

/// What the request will do, from polkit's wording (see `purpose`).
pub open spec fn purpose_of(message: Seq<char>, action_id: Seq<char>, have_command: bool) -> Option<
    Seq<char>,
> {
    let m = trim(message);
    let text = trim(trim_end_char(trim(without_prefix(m, message_prefix())), '.'));
    if m.len() == 0 {
        None
    } else if have_command && action_id == uninformative_action() {
        None
    } else if text.len() == 0 {
        None
    } else {
        Some(cut(text, MAX_PURPOSE_CHARS as nat))
    }
}

/// Pieces joined with one space between them.
pub open spec fn join_spaced(parts: Seq<Seq<char>>) -> Seq<char>
    decreases parts.len(),
{
    if parts.len() == 0 {
        Seq::<char>::empty()
    } else if parts.len() == 1 {
        parts[0]
    } else {
        join_spaced(parts.drop_last()) + seq![' '] + parts.last()
    }
}

/// The non-empty pieces of a list.
pub open spec fn nonempty(p: Seq<Seq<u8>>) -> Seq<Seq<u8>>
    decreases p.len(),
{
    if p.len() == 0 {
        p
    } else {
        let r = nonempty(p.drop_last());
        if p.last().len() > 0 {
            r.push(p.last())
        } else {
            r
        }
    }
}

/// The arguments in a NUL-separated `/proc/<pid>/cmdline`.
pub open spec fn cmdline_args(raw: Seq<u8>) -> Seq<Seq<u8>> {
    nonempty(split_byte(raw, 0))
}

/// Arguments as they are shown: each decoded, then joined with spaces.
pub open spec fn shown(argv: Seq<Seq<u8>>) -> Seq<char> {
    join_spaced(argv.map_values(|a: Seq<u8>| utf8_lossy(a)))
}

/// A process's command line as one display line, or nothing when it has no
/// arguments.
pub open spec fn described(raw: Seq<u8>) -> Option<Seq<char>> {
    let argv = cmdline_args(raw);
    let command = shown(argv);
    if argv.len() == 0 || command.len() == 0 {
        None
    } else {
        Some(cut(command, MAX_DISPLAY_CHARS as nat))
    }
}

/// `sudo` as bytes.
pub open spec fn sudo_name() -> Seq<u8> {
    seq![115u8, 117u8, 100u8, 111u8]
}

/// The command a `sudo` command line runs, past sudo's own options; nothing
/// when the program is not sudo or there is no command.
pub open spec fn sudo_command(raw: Seq<u8>) -> Option<Seq<char>> {
    let argv = cmdline_args(raw);
    if argv.len() == 0 || file_name(argv[0]) != Some(sudo_name()) {
        None
    } else {
        match command_start_from(argv.drop_first(), 0) {
            None => None,
            Some(s) => {
                let command = shown(argv.subrange(s + 1, argv.len() as int));
                if command.len() == 0 {
                    None
                } else {
                    Some(cut(command, MAX_DISPLAY_CHARS as nat))
                }
            },
        }
    }
}

/// At most `limit` characters of `text`, marking a cut with `…`.
pub fn cut_exec(text: &[char], limit: usize) -> (r: Vec<char>)
    requires
        limit >= 1,
    ensures
        r@ == cut(text@, limit as nat),
{
    if text.len() <= limit {
        copy_range(text, 0, text.len())
    } else {
        let mut kept = copy_range(text, 0, limit - 1);
        kept.push('…');
        kept
    }
}

pub fn trim_end_char_exec(s: &[char], c: char) -> (r: Vec<char>)
    ensures
        r@ == trim_end_char(s@, c),
{
    let mut j = s.len();
    assert(s@.subrange(0, s@.len() as int) =~= s@);
    while j > 0 && s[j - 1] == c
        invariant
            j <= s@.len(),
            trim_end_char(s@, c) == trim_end_char(s@.subrange(0, j as int), c),
        decreases j,
    {
        assert(s@.subrange(0, j as int).drop_last() =~= s@.subrange(0, j - 1));
        j = j - 1;
    }
    copy_range(s, 0, j)
}

/// What the request will do, from polkit's own wording, or `None` when that
/// wording would add nothing.
///
/// The two paths need opposite things. On `run0` the command line is the
/// whole story and polkit's sentence is noise. A request from a desktop app
/// is the other way round: the command line is whatever binary happens to be
/// running -- `quickshell -n -p ...` -- which says who is asking but not what
/// for, and the sentence is the only place "mount the filesystem" appears.
///
/// `have_command` decides which of those we are in: with no command to lead
/// with, the sentence is all there is and is never suppressed.
pub fn purpose(message: &str, action_id: &str, have_command: bool) -> (r: Option<String>)
    ensures
        match r {
            Some(s) => purpose_of(message@, action_id@, have_command) == Some(s@),
            None => purpose_of(message@, action_id@, have_command) is None,
        },
{
    let msg = chars_of(message);
    let m = trim_exec(&msg);
    if m.len() == 0 {
        return None;
    }
    if have_command && eq_chars(
        &chars_of(action_id),
        &chars_of("org.freedesktop.systemd1.manage-units"),
    ) {
        return None;
    }
    let prefix = chars_of("Authentication is required to ");
    let stripped = if starts_with_exec(&m, &prefix) {
        copy_range(&m, prefix.len(), m.len())
    } else {
        copy_range(&m, 0, m.len())
    };
    assert(m@.subrange(0, m@.len() as int) =~= m@);
    let t1 = trim_exec(&stripped);
    let t2 = trim_end_char_exec(&t1, '.');
    let text = trim_exec(&t2);
    if text.len() == 0 {
        return None;
    }
    let shown = cut_exec(&text, MAX_PURPOSE_CHARS);
    Some(string_of(&shown))
}

/// `s` shortened for the command line.
pub fn shorten(command: &[char]) -> (r: Vec<char>)
    ensures
        r@ == cut(command@, MAX_DISPLAY_CHARS as nat),
{
    cut_exec(command, MAX_DISPLAY_CHARS)
}

/// The arguments of a NUL-separated command line.
pub fn cmdline_args_exec(raw: &[u8]) -> (r: Vec<Vec<u8>>)
    ensures
        r.deep_view() == cmdline_args(raw@),
{
    let mut out: Vec<Vec<u8>> = Vec::new();
    let mut cur: Vec<u8> = Vec::new();
    let ghost mut done: Seq<Seq<u8>> = Seq::empty();
    let mut i: usize = 0;
    assert(raw@.subrange(0, 0) =~= Seq::<u8>::empty());
    while i < raw.len()
        invariant
            i <= raw@.len(),
            split_byte(raw@.subrange(0, i as int), 0) == done.push(cur@),
            out.deep_view() == nonempty(done),
        decreases raw.len() - i,
    {
        let x = raw[i];
        assert(raw@.subrange(0, i + 1).drop_last() =~= raw@.subrange(0, i as int));
        if x == 0 {
            let ghost old_done = done;
            let ghost old_cur = cur@;
            let ghost old_out = out.deep_view();
            proof {
                done = done.push(cur@);
            }
            assert(split_byte(raw@.subrange(0, i + 1), 0) =~= done.push(Seq::<u8>::empty()));
            assert(done.drop_last() =~= old_done);
            if cur.len() > 0 {
                out.push(cur);
                assert(out.deep_view() =~= old_out.push(old_cur));
            }
            cur = Vec::new();
        } else {
            let ghost before = cur@;
            cur.push(x);
            assert(split_byte(raw@.subrange(0, i + 1), 0) =~= done.push(before).update(
                done.len() as int,
                before.push(x),
            ));
            assert(done.push(before).update(done.len() as int, before.push(x)) =~= done.push(
                cur@,
            ));
        }
        i = i + 1;
    }
    assert(raw@.subrange(0, raw@.len() as int) =~= raw@);
    let ghost all = done.push(cur@);
    assert(all.drop_last() =~= done);
    if cur.len() > 0 {
        let ghost old_out = out.deep_view();
        let ghost old_cur = cur@;
        out.push(cur);
        assert(out.deep_view() =~= old_out.push(old_cur));
    }
    out
}

/// `argv[from..]`, each decoded, joined with spaces.
fn shown_exec(argv: &Vec<Vec<u8>>, from: usize) -> (r: Vec<char>)
    requires
        from <= argv@.len(),
    ensures
        r@ == shown(argv.deep_view().subrange(from as int, argv@.len() as int)),
{
    let ghost whole = argv.deep_view().subrange(from as int, argv@.len() as int);
    let ghost mapped = whole.map_values(|a: Seq<u8>| utf8_lossy(a));
    let mut out: Vec<char> = Vec::new();
    let mut k: usize = from;
    assert(mapped.subrange(0, 0) =~= Seq::<Seq<char>>::empty());
    while k < argv.len()
        invariant
            from <= k <= argv@.len(),
            whole == argv.deep_view().subrange(from as int, argv@.len() as int),
            mapped == whole.map_values(|a: Seq<u8>| utf8_lossy(a)),
            out@ == join_spaced(mapped.subrange(0, k - from)),
        decreases argv.len() - k,
    {
        let piece = lossy(&argv[k]);
        let ghost before = out@;
        assert(mapped[k - from] == utf8_lossy(argv@[k as int]@));
        assert(mapped.subrange(0, k + 1 - from).drop_last() =~= mapped.subrange(0, k - from));
        if k > from {
            out.push(' ');
        }
        let mut j: usize = 0;
        let ghost base = out@;
        while j < piece.len()
            invariant
                j <= piece@.len(),
                out@ == base + piece@.subrange(0, j as int),
            decreases piece.len() - j,
        {
            out.push(piece[j]);
            j = j + 1;
            assert(out@ =~= base + piece@.subrange(0, j as int));
        }
        assert(piece@.subrange(0, piece@.len() as int) =~= piece@);
        if k == from {
            assert(out@ =~= piece@);
        } else {
            assert(out@ =~= before + seq![' '] + piece@);
        }
        k = k + 1;
    }
    assert(mapped.subrange(0, argv@.len() - from) =~= mapped);
    out
}

/// Render a NUL-separated `/proc/<pid>/cmdline` as one line, or `None` when
/// it holds no arguments.
pub fn describe(raw: &[u8]) -> (r: Option<String>)
    ensures
        match r {
            Some(s) => described(raw@) == Some(s@),
            None => described(raw@) is None,
        },
{
    let argv = cmdline_args_exec(raw);
    if argv.len() == 0 {
        return None;
    }
    let command = shown_exec(&argv, 0);
    assert(argv.deep_view().subrange(0, argv@.len() as int) =~= argv.deep_view());
    if command.len() == 0 {
        return None;
    }
    Some(string_of(&shorten(&command)))
}

/// The command `sudo` is about to run, from sudo's own command line: the
/// askpass path has no polkit details to consult, but sudo forks it and the
/// parent's command line is `sudo -A <command>`.
///
/// Only a parent that really is sudo is described; anything else means we
/// are not in the flow this is meant to describe.
pub fn describe_sudo(raw: &[u8]) -> (r: Option<String>)
    ensures
        match r {
            Some(s) => sudo_command(raw@) == Some(s@),
            None => sudo_command(raw@) is None,
        },
{
    let argv = cmdline_args_exec(raw);
    if argv.len() == 0 {
        return None;
    }
    let is_sudo = match file_name_exec(&argv[0]) {
        None => false,
        Some(n) => n.len() == 4 && n[0] == 115 && n[1] == 117 && n[2] == 100 && n[3] == 111,
    };
    proof {
        assert(argv.deep_view()[0] == argv@[0]@);
        match file_name(argv@[0]@) {
            Some(n) => {
                assert(is_sudo ==> n =~= sudo_name());
            },
            None => {},
        }
    }
    if !is_sudo {
        return None;
    }
    let mut rest: Vec<Vec<u8>> = Vec::new();
    let mut k: usize = 1;
    while k < argv.len()
        invariant
            1 <= k <= argv@.len(),
            rest.deep_view() == argv.deep_view().subrange(1, k as int),
        decreases argv.len() - k,
    {
        let ghost before = rest.deep_view();
        let mut copy: Vec<u8> = Vec::new();
        let mut j: usize = 0;
        while j < argv[k].len()
            invariant
                1 <= k < argv@.len(),
                j <= argv@[k as int]@.len(),
                copy@ == argv@[k as int]@.subrange(0, j as int),
            decreases argv@[k as int]@.len() - j,
        {
            copy.push(argv[k][j]);
            j = j + 1;
            assert(copy@ =~= argv@[k as int]@.subrange(0, j as int));
        }
        assert(argv@[k as int]@.subrange(0, j as int) =~= argv@[k as int]@);
        let ghost piece = copy@;
        rest.push(copy);
        assert(rest.deep_view() =~= before.push(piece));
        assert(argv.deep_view()[k as int] == piece);
        k = k + 1;
        assert(rest.deep_view() =~= argv.deep_view().subrange(1, k as int));
    }
    assert(argv.deep_view().subrange(1, argv@.len() as int) =~= argv.deep_view().drop_first());
    let start = match command_start(&rest) {
        None => {
            return None;
        },
        Some(s) => s + 1,
    };
    let command = shown_exec(&argv, start);
    if command.len() == 0 {
        return None;
    }
    Some(string_of(&shorten(&command)))
}

/// A line that is cut is never wider than its limit, and says it was cut.
pub proof fn law_a_cut_line_fits(text: Seq<char>, limit: nat)
    requires
        limit >= 1,
    ensures
        cut(text, limit).len() <= limit,
        text.len() <= limit ==> cut(text, limit) == text,
        text.len() > limit ==> cut(text, limit).last() == '…' && cut(text, limit).drop_last()
            == text.subrange(0, limit - 1),
{
}

/// The real uid from `/proc/<pid>/status`: the first field of its `Uid:`
/// line.
pub open spec fn status_uid_of(status: Seq<char>) -> Option<nat> {
    first_uid(lines(status))
}

pub open spec fn first_uid(ls: Seq<Seq<char>>) -> Option<nat>
    decreases ls.len(),
{
    if ls.len() == 0 {
        None
    } else if starts_with(ls[0], "Uid:"@) {
        let w = words(ls[0].subrange("Uid:"@.len() as int, ls[0].len() as int));
        if w.len() == 0 {
            None
        } else {
            parse_uint(w[0], u32::MAX as nat)
        }
    } else {
        first_uid(ls.drop_first())
    }
}

/// Whose process this is, from its status file. Only our own processes
/// are described: another user's command line is not ours to show.
pub fn status_uid(status: &str) -> (r: Option<u32>)
    ensures
        match r {
            Some(u) => status_uid_of(status@) == Some(u as nat),
            None => status_uid_of(status@) is None,
        },
{
    let ls = lines_exec(&chars_of(status));
    let ghost all = ls.deep_view();
    let prefix = chars_of("Uid:");
    let mut i: usize = 0;
    assert(all.subrange(0, all.len() as int) =~= all);
    while i < ls.len()
        invariant
            all == ls.deep_view(),
            all == lines(status@),
            prefix@ == "Uid:"@,
            i <= all.len(),
            first_uid(all) == first_uid(all.subrange(i as int, all.len() as int)),
        decreases ls.len() - i,
    {
        assert(all.subrange(i as int, all.len() as int).drop_first() =~= all.subrange(
            i + 1,
            all.len() as int,
        ));
        assert(all.subrange(i as int, all.len() as int)[0] == ls@[i as int]@);
        if starts_with_exec(&ls[i], &prefix) {
            let rest = copy_range(&ls[i], prefix.len(), ls[i].len());
            let w = words_exec(&rest);
            let ghost sub = all.subrange(i as int, all.len() as int);
            assert(rest@ == sub[0].subrange("Uid:"@.len() as int, sub[0].len() as int));
            if w.len() == 0 {
                return None;
            }
            assert(w.deep_view()[0] == w@[0]@);
            return match parse_uint_exec(&w[0], u32::MAX as u64) {
                Some(v) => Some(v as u32),
                None => None,
            };
        }
        i = i + 1;
    }
    assert(all.subrange(i as int, all.len() as int) =~= Seq::<Seq<char>>::empty());
    None
}

} // verus!
