//! What the window asks fontconfig for, and what it makes of the answer.
//!
//! Omarchy does not put the font in the theme; `omarchy-font-set` writes a
//! fontconfig rule that points `monospace` at the chosen family, so asking
//! fontconfig is asking Omarchy, and it keeps working for anyone not running
//! Omarchy at all.
//!
//! That one face is not always enough. The toolkit has no per-glyph fallback
//! of its own: the chain is exactly the list handed to it, and none of the
//! faces Omarchy offers carry Hangul or Han. So a command with a Korean path
//! in it (`vim 계획서.md`) would come out as boxes, and that top line is the
//! whole reason the window says which command is asking.
//!
//! So the chain grows on demand. Text we did not write ourselves -- the
//! command line, polkit's message, PAM's prompts -- is scanned for
//! characters outside ASCII, and only those characters send a query to
//! fontconfig. Plain `sudo pacman -Syu` therefore costs nothing extra; a
//! Korean path costs one `fc-match` and one font load, on the launch that
//! needs it. Running `fc-match`, reading the font files and handing them to
//! the toolkit are the process's.
use vstd::prelude::*;

use crate::invocation::{join_spaced, lossy, utf8_lossy};
use crate::text::{
    chars_of, concat, copy_range, eq_chars, lines, lines_exec, split_char, split_char_exec, string_of, trim,
    trim_exec, lemma_split_char_nonempty,
};

verus! {

broadcast use crate::chars::lemma_deep_view_chars;

/// Primary fonts past this size are skipped: the primary face is parsed on
/// every single launch, and a popup that is already on screen when you look
/// up is this tool's whole value. Fallbacks are not capped -- the faces that
/// would answer a Korean path are large, and that cost is paid only on the
/// launches that need it.
pub const MAX_FONT_BYTES: u64 = 8 * 1024 * 1024;

/// How many distinct characters one fontconfig query carries. A handful is
/// enough to name the script; a long path full of Hangul would otherwise
/// build a query the length of the path for no extra answer.
pub const MAX_QUERY_CHARS: usize = 32;

/// Is the primary face small enough to load on every launch?
pub fn primary_fits(size: u64) -> (r: bool)
    ensures
        r == (size <= MAX_FONT_BYTES),
{
    size <= MAX_FONT_BYTES
}

pub open spec fn is_ascii_char(c: char) -> bool {
    (c as u32) < 128
}

/// The distinct non-ASCII characters of `s`, in the order they first
/// appear, up to `MAX_QUERY_CHARS` of them.
pub open spec fn foreign_of(s: Seq<char>) -> Seq<char>
    decreases s.len(),
{
    if s.len() == 0 {
        Seq::empty()
    } else {
        let a = foreign_of(s.drop_last());
        let c = s.last();
        if a.len() >= MAX_QUERY_CHARS || is_ascii_char(c) || a.contains(c) {
            a
        } else {
            a.push(c)
        }
    }
}

/// A query is short and asks about each character once: at most
/// `MAX_QUERY_CHARS` characters, none twice, and none of them ASCII.
pub proof fn law_a_query_is_short_and_asks_once(s: Seq<char>)
    ensures
        foreign_of(s).len() <= MAX_QUERY_CHARS,
        foreign_of(s).no_duplicates(),
        forall|i: int| 0 <= i < foreign_of(s).len() ==> !is_ascii_char(#[trigger] foreign_of(s)[i]),
    decreases s.len(),
{
    if s.len() > 0 {
        law_a_query_is_short_and_asks_once(s.drop_last());
    }
}

fn holds(v: &Vec<char>, c: char) -> (r: bool)
    ensures
        r == v@.contains(c),
{
    let mut i: usize = 0;
    while i < v.len()
        invariant
            i <= v@.len(),
            forall|k: int| 0 <= k < i ==> v@[k] != c,
        decreases v.len() - i,
    {
        if v[i] == c {
            return true;
        }
        i = i + 1;
    }
    false
}

/// The characters that need a face: anything outside ASCII. Guessing at
/// scripts here would mean keeping a table of what Nerd Fonts happen to
/// cover; fontconfig already knows.
pub fn foreign_chars(text: &str) -> (r: Vec<char>)
    ensures
        r@ == foreign_of(text@),
{
    let s = chars_of(text);
    let mut out: Vec<char> = Vec::new();
    let mut i: usize = 0;
    assert(s@.subrange(0, 0) =~= Seq::<char>::empty());
    while i < s.len()
        invariant
            i <= s@.len(),
            out@ == foreign_of(s@.subrange(0, i as int)),
        decreases s.len() - i,
    {
        proof {
            law_a_query_is_short_and_asks_once(s@.subrange(0, i as int));
        }
        assert(s@.subrange(0, i + 1).drop_last() =~= s@.subrange(0, i as int));
        let c = s[i];
        if out.len() < MAX_QUERY_CHARS && (c as u32) >= 128 && !holds(&out, c) {
            out.push(c);
        }
        i = i + 1;
    }
    assert(s@.subrange(0, s@.len() as int) =~= s@);
    out
}

/// The uppercase hex digit for `d`.
pub open spec fn hex_char(d: nat) -> char {
    if d < 10 {
        ((d + 48) as u8) as char
    } else {
        ((d + 55) as u8) as char
    }
}

/// `n` in uppercase hex.
pub open spec fn hex_digits(n: nat) -> Seq<char>
    decreases n,
{
    if n < 16 {
        seq![hex_char(n)]
    } else {
        hex_digits(n / 16).push(hex_char(n % 16))
    }
}

/// `format!("{:04X}", n)`: uppercase hex, zero-padded to four digits.
pub open spec fn hex4(n: nat) -> Seq<char> {
    let d = hex_digits(n);
    if d.len() >= 4 {
        d
    } else {
        Seq::new((4 - d.len()) as nat, |i: int| '0') + d
    }
}

fn hex_digits_exec(n: u32) -> (r: Vec<char>)
    ensures
        r@ == hex_digits(n as nat),
    decreases n,
{
    let d = (n % 16) as u8;
    let c = if d < 10 {
        (48 + d) as char
    } else {
        (55 + d) as char
    };
    if n < 16 {
        let mut r = Vec::new();
        r.push(c);
        assert(r@ =~= seq![hex_char(n as nat)]);
        r
    } else {
        let mut r = hex_digits_exec(n / 16);
        r.push(c);
        r
    }
}

fn hex4_exec(n: u32) -> (r: Vec<char>)
    ensures
        r@ == hex4(n as nat),
{
    let d = hex_digits_exec(n);
    if d.len() >= 4 {
        d
    } else {
        let mut r: Vec<char> = Vec::new();
        let pad = 4 - d.len();
        while r.len() < pad
            invariant
                pad == 4 - d@.len(),
                r@.len() <= pad,
                forall|i: int| 0 <= i < r@.len() ==> r@[i] == '0',
            decreases pad - r.len(),
        {
            r.push('0');
        }
        assert(r@ =~= Seq::new((4 - d@.len()) as nat, |i: int| '0'));
        concat(&r, &d)
    }
}

/// fontconfig's pattern for "a face that can draw these":
/// `:charset=AC00 D55C`.
pub open spec fn charset_query_of(chars: Seq<char>) -> Seq<char> {
    ":charset="@ + join_spaced(chars.map_values(|c: char| hex4((c as u32) as nat)))
}

pub fn charset_query(chars: &[char]) -> (r: String)
    ensures
        r@ == charset_query_of(chars@),
{
    let ghost parts = chars@.map_values(|c: char| hex4((c as u32) as nat));
    let mut body: Vec<char> = Vec::new();
    let mut i: usize = 0;
    assert(parts.subrange(0, 0) =~= Seq::<Seq<char>>::empty());
    while i < chars.len()
        invariant
            i <= chars@.len(),
            parts == chars@.map_values(|c: char| hex4((c as u32) as nat)),
            body@ == join_spaced(parts.subrange(0, i as int)),
        decreases chars.len() - i,
    {
        let h = hex4_exec(chars[i] as u32);
        assert(parts.subrange(0, i + 1).drop_last() =~= parts.subrange(0, i as int));
        assert(parts[i as int] == h@);
        let ghost before = body@;
        if i > 0 {
            body.push(' ');
        }
        body = concat(&body, &h);
        if i == 0 {
            assert(body@ =~= h@);
        } else {
            assert(body@ =~= before + seq![' '] + h@);
        }
        i = i + 1;
    }
    assert(parts.subrange(0, chars@.len() as int) =~= parts);
    string_of(&concat(&chars_of(":charset="), &body))
}

/// What `fc-match -f '%{family}\n%{file}'` said: the family (the first of
/// its comma-separated aliases, which is the real name) and the file, both
/// trimmed and neither empty.
pub open spec fn fc_answer_of(stdout: Seq<u8>) -> Option<(Seq<char>, Seq<char>)> {
    let ls = lines(utf8_lossy(stdout));
    if ls.len() < 2 {
        None
    } else {
        let family = trim(split_char(ls[0], ',')[0]);
        let path = trim(ls[1]);
        if family.len() == 0 || path.len() == 0 {
            None
        } else {
            Some((family, path))
        }
    }
}

/// Read fontconfig's answer, as `fc-match` printed it.
pub fn fc_answer(stdout: &[u8]) -> (r: Option<(String, String)>)
    ensures
        match r {
            Some(a) => fc_answer_of(stdout@) == Some((a.0@, a.1@)),
            None => fc_answer_of(stdout@) is None,
        },
{
    let text = lossy(stdout);
    let ls = lines_exec(&text);
    if ls.len() < 2 {
        return None;
    }
    let aliases = split_char_exec(&ls[0], ',');
    proof {
        lemma_split_char_nonempty(ls@[0]@, ',');
    }
    let family = trim_exec(&aliases[0]);
    let path = trim_exec(&ls[1]);
    if family.len() == 0 || path.len() == 0 {
        None
    } else {
        Some((string_of(&family), string_of(&path)))
    }
}

/// What a path compares by, as `Path`'s `==` compares: whether it starts at
/// the root, whether it starts with `.` (kept only there), and the names
/// between separators, with doubled and trailing separators and every other
/// `.` dropped. `/a//b`, `/a/./b` and `/a/b/` are all `/a/b`.
pub open spec fn path_key(p: Seq<char>) -> (bool, bool, Seq<Seq<char>>) {
    let rooted = p.len() > 0 && p[0] == '/';
    let leading_dot = !rooted && p.len() > 0 && p[0] == '.' && (p.len() == 1 || p[1] == '/');
    (rooted, leading_dot, path_names(split_char(p, '/')))
}

/// The pieces between separators that name something: not empty, not `.`.
pub open spec fn path_names(pieces: Seq<Seq<char>>) -> Seq<Seq<char>>
    decreases pieces.len(),
{
    if pieces.len() == 0 {
        pieces
    } else {
        let r = path_names(pieces.drop_last());
        let x = pieces.last();
        if x.len() == 0 || x == seq!['.'] {
            r
        } else {
            r.push(x)
        }
    }
}

/// A path's key as stored: the two flags and the names.
type Key = (bool, bool, Vec<Vec<char>>);

pub open spec fn key_view(k: (bool, bool, Vec<Vec<char>>)) -> (bool, bool, Seq<Seq<char>>) {
    (k.0, k.1, k.2.deep_view())
}

fn path_key_exec(p: &[char]) -> (k: Key)
    ensures
        key_view(k) == path_key(p@),
{
    let rooted = p.len() > 0 && p[0] == '/';
    let leading_dot = !rooted && p.len() > 0 && p[0] == '.' && (p.len() == 1 || p[1] == '/');
    let pieces = split_char_exec(p, '/');
    let mut names: Vec<Vec<char>> = Vec::new();
    let mut i: usize = 0;
    assert(pieces.deep_view().subrange(0, 0) =~= Seq::<Seq<char>>::empty());
    while i < pieces.len()
        invariant
            i <= pieces@.len(),
            names.deep_view() == path_names(pieces.deep_view().subrange(0, i as int)),
        decreases pieces.len() - i,
    {
        let ghost before = names.deep_view();
        let ghost all = pieces.deep_view();
        assert(all.subrange(0, i + 1).drop_last() =~= all.subrange(0, i as int));
        assert(all.subrange(0, i + 1).last() == pieces@[i as int]@);
        let x = &pieces[i];
        let dot = x.len() == 1 && x[0] == '.';
        proof {
            if x@.len() == 1 {
                assert(dot == (x@ =~= seq!['.']));
            } else {
                assert(x@ != seq!['.']);
            }
        }
        if x.len() != 0 && !dot {
            let c = copy_range(x, 0, x.len());
            assert(c@ =~= x@);
            names.push(c);
            assert(names.deep_view() =~= before.push(x@)) by {
                assert(names@[names@.len() - 1] == c);
                assert(names.deep_view()[names@.len() - 1] == c@);
            }
        }
        i = i + 1;
    }
    assert(pieces.deep_view().subrange(0, pieces@.len() as int) =~= pieces.deep_view());
    (rooted, leading_dot, names)
}

fn eq_names(a: &Vec<Vec<char>>, b: &Vec<Vec<char>>) -> (r: bool)
    ensures
        r == (a.deep_view() == b.deep_view()),
{
    if a.len() != b.len() {
        assert(a.deep_view().len() != b.deep_view().len());
        return false;
    }
    let mut i: usize = 0;
    while i < a.len()
        invariant
            a@.len() == b@.len(),
            i <= a@.len(),
            forall|k: int| 0 <= k < i ==> a.deep_view()[k] == b.deep_view()[k],
        decreases a.len() - i,
    {
        if !eq_chars(&a[i], &b[i]) {
            assert(a.deep_view()[i as int] != b.deep_view()[i as int]);
            return false;
        }
        i = i + 1;
    }
    assert(a.deep_view() =~= b.deep_view());
    true
}

/// The font files already in the chain, by path. fontconfig answering with
/// one of these is the ordinary case for accented Latin, which the Omarchy
/// face carries already, and it must not cost a second load. Two spellings
/// of one path (`/a//b`, `/a/b`) are one file.
pub struct FaceFiles {
    keys: Vec<Key>,
}

impl View for FaceFiles {
    type V = Set<(bool, bool, Seq<Seq<char>>)>;

    closed spec fn view(&self) -> Set<(bool, bool, Seq<Seq<char>>)> {
        Seq::new(self.keys@.len(), |i: int| key_view(self.keys@[i])).to_set()
    }
}

impl FaceFiles {
    pub fn new() -> (f: Self)
        ensures
            f@ == Set::<(bool, bool, Seq<Seq<char>>)>::empty(),
    {
        let f = FaceFiles { keys: Vec::new() };
        assert(f@ =~= Set::<(bool, bool, Seq<Seq<char>>)>::empty());
        f
    }

    /// Is `path` already loaded, under this spelling or another of it?
    pub fn holds(&self, path: &str) -> (r: bool)
        ensures
            r == self@.contains(path_key(path@)),
    {
        let k = path_key_exec(&chars_of(path));
        let ghost all = Seq::new(self.keys@.len(), |i: int| key_view(self.keys@[i]));
        let mut i: usize = 0;
        while i < self.keys.len()
            invariant
                key_view(k) == path_key(path@),
                i <= self.keys@.len(),
                all == Seq::new(self.keys@.len(), |i: int| key_view(self.keys@[i])),
                forall|j: int| 0 <= j < i ==> all[j] != key_view(k),
            decreases self.keys.len() - i,
        {
            let e = &self.keys[i];
            if e.0 == k.0 && e.1 == k.1 && eq_names(&e.2, &k.2) {
                assert(all[i as int] == key_view(k));
                assert(all.contains(key_view(k)));
                return true;
            }
            i = i + 1;
        }
        assert(!all.contains(key_view(k)));
        false
    }

    /// Record that `path` is in the chain.
    pub fn add(&mut self, path: &str)
        ensures
            final(self)@ == old(self)@.insert(path_key(path@)),
    {
        let ghost before = Seq::new(self.keys@.len(), |i: int| key_view(self.keys@[i]));
        let k = path_key_exec(&chars_of(path));
        self.keys.push(k);
        let ghost after = Seq::new(self.keys@.len(), |i: int| key_view(self.keys@[i]));
        assert(after =~= before.push(path_key(path@)));
        proof {
            before.lemma_push_to_set_commute(path_key(path@));
        }
    }
}

/// A face is loaded at most once: once a path is recorded, it is held under
/// any spelling that names the same file, so the same answer from fontconfig
/// costs no second read.
pub proof fn law_a_face_is_loaded_once(
    files: Set<(bool, bool, Seq<Seq<char>>)>,
    path: Seq<char>,
    again: Seq<char>,
)
    requires
        path_key(again) == path_key(path),
    ensures
        files.insert(path_key(path)).contains(path_key(again)),
{
}

} // verus!
