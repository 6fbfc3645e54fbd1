//! Colors borrowed from the current Omarchy theme.
//!
//! Omarchy keeps a resolved palette at
//! `$XDG_STATE_HOME/omarchy/current/theme/colors.toml`, with semantic names
//! rather than raw ANSI slots. Reading it directly is a few hundred bytes and
//! a line scan -- cheaper than shelling out to `omarchy-theme-color`, and
//! startup time is the one thing this window cannot spend.
//!
//! Because the prompt is a fresh process per request, the palette is re-read
//! every time the window opens. Switching themes therefore takes effect on
//! the next prompt with no reload machinery of any kind.
//!
//! Every step degrades to the toolkit's own defaults: a missing file, an
//! unknown key, or a malformed color leaves that part of the styling alone
//! rather than guessing. Reading the files and building the toolkit's visuals
//! are the process's; what the text says is decided here.
use vstd::prelude::*;

use crate::invocation::{trim_end_char, trim_end_char_exec};
use crate::text::{
    chars_of, copy_range, eq_chars, find, find_exec, lines, lines_exec,
    matches_at, starts_with, starts_with_exec, string_of, trim, trim_exec,
};

verus! {

broadcast use crate::chars::lemma_deep_view_chars;

/// A color as the theme writes it: red, green, blue and (straight, not
/// premultiplied) alpha.
#[derive(Debug, PartialEq, Eq, Structural, Clone, Copy)]
pub struct Rgba {
    pub r: u8,
    pub g: u8,
    pub b: u8,
    pub a: u8,
}

/// `s.trim_start_matches(c)`.
pub open spec fn trim_start_char(s: Seq<char>, c: char) -> Seq<char>
    decreases s.len(),
{
    if s.len() > 0 && s[0] == c {
        trim_start_char(s.drop_first(), c)
    } else {
        s
    }
}

/// `s.trim_matches('"')`: a quoted value without its quotes.
pub open spec fn unquote(s: Seq<char>) -> Seq<char> {
    trim_end_char(trim_start_char(s, '"'), '"')
}

/// A `key = "value"` line: the key and value trimmed, the value unquoted. A
/// comment, a line without `=`, or an empty value is no pair.
pub open spec fn pair_of(line: Seq<char>) -> Option<(Seq<char>, Seq<char>)> {
    let l = trim(line);
    if starts_with(l, "#"@) {
        None
    } else {
        match find(l, "="@) {
            None => None,
            Some(i) => {
                let key = trim(l.subrange(0, i));
                let value = unquote(trim(l.subrange(i + 1, l.len() as int)));
                if value.len() == 0 {
                    None
                } else {
                    Some((key, value))
                }
            },
        }
    }
}

/// The pairs of `ls`, a later line for the same key replacing an earlier
/// one.
pub open spec fn palette_of(ls: Seq<Seq<char>>) -> Map<Seq<char>, Seq<char>>
    decreases ls.len(),
{
    if ls.len() == 0 {
        Map::empty()
    } else {
        let m = palette_of(ls.drop_last());
        match pair_of(ls.last()) {
            Some(p) => m.insert(p.0, p.1),
            None => m,
        }
    }
}

/// The value of a hex digit.
pub open spec fn hex_val(c: char) -> Option<nat> {
    if '0' <= c && c <= '9' {
        Some((c as nat - '0' as nat) as nat)
    } else if 'a' <= c && c <= 'f' {
        Some((c as nat - 'a' as nat + 10) as nat)
    } else if 'A' <= c && c <= 'F' {
        Some((c as nat - 'A' as nat + 10) as nat)
    } else {
        None
    }
}

/// `u8::from_str_radix` on two characters in base 16: two hex digits, or a
/// `+` sign and one.
pub open spec fn byte_of(x: char, y: char) -> Option<u8> {
    match (hex_val(x), hex_val(y)) {
        (Some(h), Some(l)) => Some((h * 16 + l) as u8),
        (None, Some(l)) => if x == '+' {
            Some(l as u8)
        } else {
            None
        },
        _ => None,
    }
}

/// `#rrggbb` or `#rrggbbaa`; six digits are opaque.
pub open spec fn hex_of(value: Seq<char>) -> Option<Rgba> {
    if !starts_with(value, "#"@) {
        None
    } else {
        let h = value.drop_first();
        if h.len() != 6 && h.len() != 8 {
            None
        } else {
            match (byte_of(h[0], h[1]), byte_of(h[2], h[3]), byte_of(h[4], h[5])) {
                (Some(r), Some(g), Some(b)) => if h.len() == 8 {
                    match byte_of(h[6], h[7]) {
                        Some(a) => Some(Rgba { r, g, b, a }),
                        None => None,
                    }
                } else {
                    Some(Rgba { r, g, b, a: 255 })
                },
                _ => None,
            }
        }
    }
}

fn hex_val_exec(c: char) -> (r: Option<u8>)
    ensures
        match r {
            Some(v) => hex_val(c) == Some(v as nat) && v < 16,
            None => hex_val(c) is None,
        },
{
    if '0' <= c && c <= '9' {
        Some((c as u32 - '0' as u32) as u8)
    } else if 'a' <= c && c <= 'f' {
        Some((c as u32 - 'a' as u32 + 10) as u8)
    } else if 'A' <= c && c <= 'F' {
        Some((c as u32 - 'A' as u32 + 10) as u8)
    } else {
        None
    }
}

fn byte_exec(x: char, y: char) -> (r: Option<u8>)
    ensures
        r == byte_of(x, y),
{
    match (hex_val_exec(x), hex_val_exec(y)) {
        (Some(h), Some(l)) => Some(h * 16 + l),
        (None, Some(l)) => if x == '+' {
            Some(l)
        } else {
            None
        },
        _ => None,
    }
}

/// Read a `#rrggbb` or `#rrggbbaa` color.
pub fn parse_hex(value: &str) -> (r: Option<Rgba>)
    ensures
        r == hex_of(value@),
{
    parse_hex_chars(&chars_of(value))
}

fn parse_hex_chars(v: &[char]) -> (r: Option<Rgba>)
    ensures
        r == hex_of(v@),
{
    let hash: Vec<char> = vec!['#'];
    assert(hash@ =~= "#"@) by {
        reveal_strlit("#");
    }
    if !starts_with_exec(v, &hash) {
        return None;
    }
    let n = v.len() - 1;
    if n != 6 && n != 8 {
        return None;
    }
    assert(v@.drop_first().len() == n);
    assert forall|k: int| 0 <= k < n implies v@.drop_first()[k] == v@[k + 1] by {}
    let r = byte_exec(v[1], v[2]);
    let g = byte_exec(v[3], v[4]);
    let b = byte_exec(v[5], v[6]);
    match (r, g, b) {
        (Some(r), Some(g), Some(b)) => {
            if n == 8 {
                match byte_exec(v[7], v[8]) {
                    Some(a) => Some(Rgba { r, g, b, a }),
                    None => None,
                }
            } else {
                Some(Rgba { r, g, b, a: 255 })
            }
        },
        _ => None,
    }
}

fn trim_start_char_exec(s: &[char], c: char) -> (r: Vec<char>)
    ensures
        r@ == trim_start_char(s@, c),
{
    let mut i: usize = 0;
    assert(s@.subrange(0, s@.len() as int) =~= s@);
    while i < s.len() && s[i] == c
        invariant
            i <= s@.len(),
            trim_start_char(s@, c) == trim_start_char(s@.subrange(i as int, s@.len() as int), c),
        decreases s.len() - i,
    {
        assert(s@.subrange(i as int, s@.len() as int).drop_first() =~= s@.subrange(
            i + 1,
            s@.len() as int,
        ));
        i = i + 1;
    }
    copy_range(s, i, s.len())
}

fn pair_exec(line: &[char]) -> (r: Option<(Vec<char>, Vec<char>)>)
    ensures
        match r {
            Some(p) => pair_of(line@) == Some((p.0@, p.1@)),
            None => pair_of(line@) is None,
        },
{
    let l = trim_exec(line);
    let hash: Vec<char> = vec!['#'];
    let eq: Vec<char> = vec!['='];
    assert(hash@ =~= "#"@) by {
        reveal_strlit("#");
    }
    assert(eq@ =~= "="@) by {
        reveal_strlit("=");
    }
    if starts_with_exec(&l, &hash) {
        return None;
    }
    match find_exec(&l, &eq) {
        None => None,
        Some(i) => {
            assert(matches_at(l@, i as int, eq@));
            let after: usize = i + 1;
            let key = trim_exec(&copy_range(&l, 0, i));
            let raw = trim_exec(&copy_range(&l, after, l.len()));
            let value = trim_end_char_exec(&trim_start_char_exec(&raw, '"'), '"');
            if value.len() == 0 {
                None
            } else {
                Some((key, value))
            }
        },
    }
}

/// A list of keyed entries, read as a map; a later entry for a key wins.
pub open spec fn keyed<V>(e: Seq<(Seq<char>, V)>) -> Map<Seq<char>, V>
    decreases e.len(),
{
    if e.len() == 0 {
        Map::empty()
    } else {
        keyed(e.drop_last()).insert(e.last().0, e.last().1)
    }
}

/// No key twice.
pub open spec fn unique_keys<V>(e: Seq<(Seq<char>, V)>) -> bool {
    forall|i: int, j: int| 0 <= i < j < e.len() ==> #[trigger] e[i].0 != #[trigger] e[j].0
}

proof fn lemma_keyed<V>(e: Seq<(Seq<char>, V)>)
    requires
        unique_keys(e),
    ensures
        keyed(e).dom().finite(),
        keyed(e).len() == e.len(),
        forall|k: int| #![trigger e[k]] 0 <= k < e.len() ==> keyed(e).contains_key(e[k].0)
            && keyed(e)[e[k].0] == e[k].1,
        forall|key: Seq<char>| #[trigger]
            keyed(e).contains_key(key) ==> exists|k: int| 0 <= k < e.len() && e[k].0 == key,
    decreases e.len(),
{
    if e.len() > 0 {
        let d = e.drop_last();
        assert(unique_keys(d));
        lemma_keyed(d);
        assert(!keyed(d).contains_key(e.last().0)) by {
            if keyed(d).contains_key(e.last().0) {
                let k = choose|k: int| 0 <= k < d.len() && d[k].0 == e.last().0;
                assert(e[k].0 != e[e.len() - 1].0);
            }
        }
        assert forall|key: Seq<char>| #[trigger]
            keyed(e).contains_key(key) implies exists|k: int| 0 <= k < e.len() && e[k].0
            == key by {
            if key == e.last().0 {
                assert(e[e.len() - 1].0 == key);
            } else {
                let k = choose|k: int| 0 <= k < d.len() && d[k].0 == key;
                assert(e[k].0 == key);
            }
        }
        assert forall|k: int| #![trigger e[k]] 0 <= k < e.len() implies keyed(e).contains_key(
            e[k].0,
        ) && keyed(e)[e[k].0] == e[k].1 by {
            if k < e.len() - 1 {
                assert(d[k] == e[k]);
            }
        }
    }
}

/// Replacing the value of an entry replaces it in the map.
proof fn lemma_keyed_update<V>(e: Seq<(Seq<char>, V)>, i: int, v: V)
    requires
        unique_keys(e),
        0 <= i < e.len(),
    ensures
        unique_keys(e.update(i, (e[i].0, v))),
        keyed(e.update(i, (e[i].0, v))) == keyed(e).insert(e[i].0, v),
{
    let f = e.update(i, (e[i].0, v));
    assert(unique_keys(f)) by {
        assert forall|a: int, b: int| 0 <= a < b < f.len() implies #[trigger] f[a].0
            != #[trigger] f[b].0 by {
            assert(f[a].0 == e[a].0);
            assert(f[b].0 == e[b].0);
        }
    }
    lemma_keyed(e);
    lemma_keyed(f);
    assert forall|k: Seq<char>| #[trigger] keyed(e).insert(e[i].0, v).contains_key(k) implies keyed(
        f,
    ).contains_key(k) by {
        if k != e[i].0 {
            let j = choose|j: int| 0 <= j < e.len() && e[j].0 == k;
            assert(f[j] == e[j]);
        } else {
            assert(f[i].0 == k);
        }
    }
    assert forall|k: Seq<char>| #[trigger] keyed(f).contains_key(k) implies keyed(e).insert(
        e[i].0,
        v,
    ).contains_key(k) && keyed(f)[k] == keyed(e).insert(e[i].0, v)[k] by {
        let j = choose|j: int| 0 <= j < f.len() && f[j].0 == k;
        if j != i {
            assert(f[j] == e[j]);
        }
    }
    assert(keyed(f) =~= keyed(e).insert(e[i].0, v));
}

/// A new key at the end is a new key in the map.
proof fn lemma_keyed_push<V>(e: Seq<(Seq<char>, V)>, key: Seq<char>, v: V)
    requires
        unique_keys(e),
        !keyed(e).contains_key(key),
    ensures
        unique_keys(e.push((key, v))),
        keyed(e.push((key, v))) == keyed(e).insert(key, v),
{
    lemma_keyed(e);
    let f = e.push((key, v));
    assert(f.drop_last() =~= e);
    assert forall|a: int, b: int| 0 <= a < b < f.len() implies #[trigger] f[a].0
        != #[trigger] f[b].0 by {
        assert(f[a] == e[a]) by {
            assert(a < e.len());
        }
        if b < e.len() {
            assert(f[b] == e[b]);
        } else {
            assert(e[a].0 != key) by {
                if e[a].0 == key {
                    assert(keyed(e).contains_key(e[a].0));
                }
            }
        }
    }
}

/// A flat `key = "value"` file, as a map from key to value.
pub struct Palette {
    entries: Vec<(Vec<char>, Vec<char>)>,
}

impl View for Palette {
    type V = Map<Seq<char>, Seq<char>>;

    closed spec fn view(&self) -> Map<Seq<char>, Seq<char>> {
        keyed(self.entries.deep_view())
    }
}

impl Palette {
    pub closed spec fn wf(&self) -> bool {
        unique_keys(self.entries.deep_view())
    }

    pub fn new() -> (p: Self)
        ensures
            p.wf(),
            p@ == Map::<Seq<char>, Seq<char>>::empty(),
    {
        Palette { entries: Vec::new() }
    }

    fn index_of(&self, key: &[char]) -> (r: Option<usize>)
        requires
            self.wf(),
        ensures
            match r {
                Some(i) => i < self.entries@.len() && self.entries.deep_view()[i as int].0
                    == key@,
                None => !self@.contains_key(key@),
            },
    {
        proof {
            lemma_keyed(self.entries.deep_view());
        }
        let mut i: usize = 0;
        while i < self.entries.len()
            invariant
                i <= self.entries@.len(),
                forall|k: int| 0 <= k < i ==> self.entries.deep_view()[k].0 != key@,
            decreases self.entries.len() - i,
        {
            if eq_chars(&self.entries[i].0, key) {
                return Some(i);
            }
            i = i + 1;
        }
        None
    }

    /// The value for `key`, if the file has one.
    pub fn get_chars(&self, key: &[char]) -> (r: Option<Vec<char>>)
        requires
            self.wf(),
        ensures
            match r {
                Some(v) => self@.contains_key(key@) && self@[key@] == v@,
                None => !self@.contains_key(key@),
            },
    {
        proof {
            lemma_keyed(self.entries.deep_view());
        }
        match self.index_of(key) {
            Some(i) => {
                let v = copy_range(&self.entries[i].1, 0, self.entries[i].1.len());
                assert(self.entries[i as int].1@.subrange(0, self.entries[i as int].1@.len() as int)
                    =~= self.entries[i as int].1@);
                Some(v)
            },
            None => None,
        }
    }

    /// The value for `key`, if the file has one.
    pub fn get(&self, key: &str) -> (r: Option<String>)
        requires
            self.wf(),
        ensures
            match r {
                Some(v) => self@.contains_key(key@) && self@[key@] == v@,
                None => !self@.contains_key(key@),
            },
    {
        match self.get_chars(&chars_of(key)) {
            Some(v) => Some(string_of(&v)),
            None => None,
        }
    }

    /// How many distinct keys there are.
    pub fn len(&self) -> (n: usize)
        requires
            self.wf(),
        ensures
            n == self@.len(),
    {
        proof {
            lemma_keyed(self.entries.deep_view());
        }
        self.entries.len()
    }

    /// Set `key` to `value`, replacing what it had.
    pub fn insert(&mut self, key: Vec<char>, value: Vec<char>)
        requires
            old(self).wf(),
        ensures
            final(self).wf(),
            final(self)@ == old(self)@.insert(key@, value@),
    {
        let ghost before = self.entries.deep_view();
        match self.index_of(&key) {
            Some(i) => {
                proof {
                    lemma_keyed_update(before, i as int, value@);
                }
                self.entries.set(i, (key, value));
                assert(self.entries.deep_view() =~= before.update(i as int, (before[i as int].0, value@)));
            },
            None => {
                proof {
                    lemma_keyed_push(before, key@, value@);
                }
                let ghost kv = (key@, value@);
                self.entries.push((key, value));
                assert(self.entries.deep_view() =~= before.push(kv));
            },
        }
    }
}

/// Collect `key = "value"` pairs. Anything else on a line is ignored, and a
/// key that comes back later takes its later value.
pub fn parse(text: &str) -> (p: Palette)
    ensures
        p.wf(),
        p@ == palette_of(lines(text@)),
{
    let ls = lines_exec(&chars_of(text));
    let ghost all = ls.deep_view();
    let mut p = Palette::new();
    let mut k: usize = 0;
    while k < ls.len()
        invariant
            all == ls.deep_view(),
            all == lines(text@),
            k <= all.len(),
            p.wf(),
            p@ == palette_of(all.subrange(0, k as int)),
        decreases ls.len() - k,
    {
        assert(all.subrange(0, k + 1).drop_last() =~= all.subrange(0, k as int));
        match pair_exec(&ls[k]) {
            Some((key, value)) => p.insert(key, value),
            None => {},
        }
        k = k + 1;
    }
    assert(all.subrange(0, all.len() as int) =~= all);
    p
}

/// The first of `names` that has a color.
pub open spec fn pick_of(m: Map<Seq<char>, Seq<char>>, names: Seq<Seq<char>>) -> Option<Rgba>
    decreases names.len(),
{
    if names.len() == 0 {
        None
    } else {
        match color_of(m, names[0]) {
            Some(c) => Some(c),
            None => pick_of(m, names.drop_first()),
        }
    }
}

/// The color under `name`, when there is one that reads.
pub open spec fn color_of(m: Map<Seq<char>, Seq<char>>, name: Seq<char>) -> Option<Rgba> {
    if m.contains_key(name) {
        hex_of(m[name])
    } else {
        None
    }
}

pub fn color(keys: &Palette, name: &str) -> (r: Option<Rgba>)
    requires
        keys.wf(),
    ensures
        r == color_of(keys@, name@),
{
    match keys.get_chars(&chars_of(name)) {
        Some(v) => parse_hex_chars(&v),
        None => None,
    }
}

/// The first key that resolves to a color.
pub fn pick(keys: &Palette, names: &[&str]) -> (r: Option<Rgba>)
    requires
        keys.wf(),
    ensures
        r == pick_of(keys@, names@.map_values(|n: &str| n@)),
{
    let ghost all = names@.map_values(|n: &str| n@);
    let mut i: usize = 0;
    assert(all.subrange(0, all.len() as int) =~= all);
    while i < names.len()
        invariant
            i <= names@.len(),
            all == names@.map_values(|n: &str| n@),
            keys.wf(),
            pick_of(keys@, all) == pick_of(keys@, all.subrange(i as int, all.len() as int)),
        decreases names.len() - i,
    {
        assert(all.subrange(i as int, all.len() as int).drop_first() =~= all.subrange(
            i + 1,
            all.len() as int,
        ));
        match color(keys, names[i]) {
            Some(c) => {
                return Some(c);
            },
            None => {},
        }
        i = i + 1;
    }
    None
}

/// A file of `[section]` headers and `key = "value"` lines, grouped by
/// section.
pub struct Sections {
    entries: Vec<(Vec<char>, Palette)>,
}

/// The sections as plain values.
pub open spec fn section_values(e: Seq<(Vec<char>, Palette)>) -> Seq<(Seq<char>, Map<Seq<char>, Seq<char>>)> {
    e.map_values(|x: (Vec<char>, Palette)| (x.0@, x.1@))
}

impl View for Sections {
    type V = Map<Seq<char>, Map<Seq<char>, Seq<char>>>;

    closed spec fn view(&self) -> Map<Seq<char>, Map<Seq<char>, Seq<char>>> {
        keyed(section_values(self.entries@))
    }
}

/// What a section holds so far: nothing, until its first pair.
pub open spec fn section_or_empty(
    m: Map<Seq<char>, Map<Seq<char>, Seq<char>>>,
    name: Seq<char>,
) -> Map<Seq<char>, Seq<char>> {
    if m.contains_key(name) {
        m[name]
    } else {
        Map::empty()
    }
}

impl Sections {
    pub closed spec fn wf(&self) -> bool {
        &&& unique_keys(section_values(self.entries@))
        &&& forall|i: int| 0 <= i < self.entries@.len() ==> (#[trigger] self.entries@[i]).1.wf()
    }

    pub fn new() -> (s: Self)
        ensures
            s.wf(),
            s@ == Map::<Seq<char>, Map<Seq<char>, Seq<char>>>::empty(),
    {
        let s = Sections { entries: Vec::new() };
        assert(section_values(s.entries@) =~= Seq::empty());
        s
    }

    fn index_of(&self, name: &[char]) -> (r: Option<usize>)
        requires
            self.wf(),
        ensures
            match r {
                Some(i) => i < self.entries@.len() && self.entries@[i as int].0@ == name@,
                None => !self@.contains_key(name@),
            },
    {
        let ghost sv = section_values(self.entries@);
        proof {
            lemma_keyed(sv);
        }
        let mut i: usize = 0;
        while i < self.entries.len()
            invariant
                sv == section_values(self.entries@),
                i <= self.entries@.len(),
                forall|k: int| 0 <= k < i ==> self.entries@[k].0@ != name@,
            decreases self.entries.len() - i,
        {
            if eq_chars(&self.entries[i].0, name) {
                return Some(i);
            }
            i = i + 1;
        }
        proof {
            if self@.contains_key(name@) {
                let k = choose|k: int| 0 <= k < sv.len() && sv[k].0 == name@;
                assert(sv[k].0 == self.entries@[k].0@);
            }
        }
        None
    }

    /// The section called `name`, when it holds anything.
    pub fn section(&self, name: &[char]) -> (r: Option<&Palette>)
        requires
            self.wf(),
        ensures
            match r {
                Some(p) => p.wf() && self@.contains_key(name@) && self@[name@] == p@,
                None => !self@.contains_key(name@),
            },
    {
        proof {
            lemma_keyed(section_values(self.entries@));
        }
        match self.index_of(name) {
            Some(i) => {
                assert(section_values(self.entries@)[i as int] == (
                    self.entries@[i as int].0@,
                    self.entries@[i as int].1@,
                ));
                Some(&self.entries[i].1)
            },
            None => None,
        }
    }

    /// Put `key = value` into `name`, making the section if this is its
    /// first pair.
    pub fn add(&mut self, name: &[char], key: Vec<char>, value: Vec<char>)
        requires
            old(self).wf(),
        ensures
            final(self).wf(),
            final(self)@ == old(self)@.insert(
                name@,
                section_or_empty(old(self)@, name@).insert(key@, value@),
            ),
    {
        let ghost before = section_values(self.entries@);
        proof {
            lemma_keyed(before);
        }
        match self.index_of(name) {
            Some(i) => {
                let mut entry = self.entries.remove(i);
                assert(before[i as int] == (entry.0@, entry.1@));
                assert(entry.1.wf());
                let ghost old_pal = entry.1@;
                entry.1.insert(key, value);
                let ghost new_pal = entry.1@;
                self.entries.insert(i, entry);
                proof {
                    lemma_keyed_update(before, i as int, new_pal);
                }
                assert(section_values(self.entries@) =~= before.update(
                    i as int,
                    (before[i as int].0, new_pal),
                ));
                assert forall|k: int| 0 <= k < self.entries@.len() implies (#[trigger] self.entries@[
                    k
                ]).1.wf() by {
                    if k != i {
                        assert(self.entries@[k] == old(self).entries@[k]);
                    }
                }
            },
            None => {
                let mut pal = Palette::new();
                pal.insert(key, value);
                let ghost pv = pal@;
                let n = copy_range(name, 0, name.len());
                assert(name@.subrange(0, name@.len() as int) =~= name@);
                let ghost nv = n@;
                proof {
                    lemma_keyed_push(before, nv, pv);
                }
                self.entries.push((n, pal));
                assert(section_values(self.entries@) =~= before.push((nv, pv)));
                assert forall|k: int| 0 <= k < self.entries@.len() implies (#[trigger] self.entries@[
                    k
                ]).1.wf() by {
                    if k < old(self).entries@.len() {
                        assert(self.entries@[k] == old(self).entries@[k]);
                    }
                }
            },
        }
    }
}

/// One line's effect on the sections read so far and the current header.
pub open spec fn sections_step(
    st: (Map<Seq<char>, Map<Seq<char>, Seq<char>>>, Seq<char>),
    line: Seq<char>,
) -> (Map<Seq<char>, Map<Seq<char>, Seq<char>>>, Seq<char>) {
    let l = trim(line);
    if l.len() == 0 || starts_with(l, "#"@) {
        st
    } else if l.len() >= 2 && l[0] == '[' && l.last() == ']' {
        (st.0, trim(l.subrange(1, l.len() - 1)))
    } else {
        match pair_of(line) {
            None => st,
            Some(p) => (st.0.insert(st.1, section_or_empty(st.0, st.1).insert(p.0, p.1)), st.1),
        }
    }
}

/// The sections after `ls`, and the header in force; keys before any header
/// are in the section with the empty name.
pub open spec fn sections_fold(ls: Seq<Seq<char>>) -> (
    Map<Seq<char>, Map<Seq<char>, Seq<char>>>,
    Seq<char>,
)
    decreases ls.len(),
{
    if ls.len() == 0 {
        (Map::empty(), Seq::empty())
    } else {
        sections_step(sections_fold(ls.drop_last()), ls.last())
    }
}

/// Group `key = "value"` lines by their `[section]` header. Comments, blank
/// lines and other lines are ignored, and a section appears with its first
/// pair.
pub fn parse_sections(text: &str) -> (r: Sections)
    ensures
        r.wf(),
        r@ == sections_fold(lines(text@)).0,
{
    let ls = lines_exec(&chars_of(text));
    let ghost all = ls.deep_view();
    let mut out = Sections::new();
    let mut section: Vec<char> = Vec::new();
    let hash: Vec<char> = vec!['#'];
    assert(hash@ =~= "#"@) by {
        reveal_strlit("#");
    }
    let mut k: usize = 0;
    while k < ls.len()
        invariant
            all == ls.deep_view(),
            all == lines(text@),
            hash@ == "#"@,
            k <= all.len(),
            out.wf(),
            (out@, section@) == sections_fold(all.subrange(0, k as int)),
        decreases ls.len() - k,
    {
        assert(all.subrange(0, k + 1).drop_last() =~= all.subrange(0, k as int));
        let line = &ls[k];
        let l = trim_exec(line);
        if l.len() == 0 || starts_with_exec(&l, &hash) {
        } else if l.len() >= 2 && l[0] == '[' && l[l.len() - 1] == ']' {
            section = trim_exec(&copy_range(&l, 1, l.len() - 1));
        } else {
            match pair_exec(line) {
                Some((key, value)) => out.add(&section, key, value),
                None => {},
            }
        }
        k = k + 1;
    }
    assert(all.subrange(0, all.len() as int) =~= all);
    out
}

/// A shell.toml color: a `#hex`, or a `section.key` pointer into another
/// part of the file, followed at most `depth` times.
pub open spec fn resolve_of(
    secs: Map<Seq<char>, Map<Seq<char>, Seq<char>>>,
    raw: Seq<char>,
    depth: nat,
) -> Option<Rgba>
    decreases depth,
{
    if starts_with(raw, "#"@) {
        hex_of(raw)
    } else if depth == 0 {
        None
    } else {
        match find(raw, "."@) {
            None => None,
            Some(i) => {
                let section = raw.subrange(0, i);
                let key = raw.subrange(i + 1, raw.len() as int);
                if secs.contains_key(section) && secs[section].contains_key(key) {
                    resolve_of(secs, secs[section][key], (depth - 1) as nat)
                } else {
                    None
                }
            },
        }
    }
}

/// Resolve a color, following `section.key` references. One hop covers the
/// polkit section; `depth` bounds any loop.
pub fn resolve(secs: &Sections, raw: &[char], depth: u8) -> (r: Option<Rgba>)
    requires
        secs.wf(),
    ensures
        r == resolve_of(secs@, raw@, depth as nat),
    decreases depth,
{
    let hash: Vec<char> = vec!['#'];
    assert(hash@ =~= "#"@) by {
        reveal_strlit("#");
    }
    if starts_with_exec(raw, &hash) {
        return parse_hex_chars(raw);
    }
    if depth == 0 {
        return None;
    }
    let dot: Vec<char> = vec!['.'];
    assert(dot@ =~= "."@) by {
        reveal_strlit(".");
    }
    match find_exec(raw, &dot) {
        None => None,
        Some(i) => {
            assert(matches_at(raw@, i as int, dot@));
            assert(i + 1 <= raw@.len());
            assert(raw@.len() == raw.len());
            let after: usize = i + 1;
            let section = copy_range(raw, 0, i);
            let key = copy_range(raw, after, raw.len());
            match secs.section(&section) {
                None => None,
                Some(p) => match p.get_chars(&key) {
                    None => None,
                    Some(next) => resolve(secs, &next, depth - 1),
                },
            }
        },
    }
}

/// The subset of `[polkit]` mapped onto the window. Any field may be absent,
/// in which case the colors.toml value stays.
#[derive(Debug, PartialEq, Eq, Structural, Clone, Copy)]
pub struct Polkit {
    pub background: Option<Rgba>,
    pub text: Option<Rgba>,
    pub text_error: Option<Rgba>,
    pub accent: Option<Rgba>,
}

/// The `[polkit]` color under `key`, resolved.
pub open spec fn polkit_color(secs: Map<Seq<char>, Map<Seq<char>, Seq<char>>>, key: Seq<char>) -> Option<
    Rgba,
> {
    let p = secs["polkit"@];
    if p.contains_key(key) {
        resolve_of(secs, p[key], 3)
    } else {
        None
    }
}

pub open spec fn polkit_of(secs: Map<Seq<char>, Map<Seq<char>, Seq<char>>>) -> Option<Polkit> {
    if !secs.contains_key("polkit"@) {
        None
    } else {
        Some(
            Polkit {
                background: polkit_color(secs, "background"@),
                text: polkit_color(secs, "text"@),
                text_error: polkit_color(secs, "text-error"@),
                // The border is usually the accent; either one gives the
                // field outline.
                accent: match polkit_color(secs, "accent"@) {
                    Some(c) => Some(c),
                    None => polkit_color(secs, "border"@),
                },
            },
        )
    }
}

fn polkit_color_exec(secs: &Sections, p: &Palette, key: &str) -> (r: Option<Rgba>)
    requires
        secs.wf(),
        p.wf(),
        secs@.contains_key("polkit"@),
        secs@["polkit"@] == p@,
    ensures
        r == polkit_color(secs@, key@),
{
    match p.get_chars(&chars_of(key)) {
        Some(raw) => resolve(secs, &raw, 3),
        None => None,
    }
}

/// Map a parsed shell.toml to the polkit colors, or `None` when it has no
/// `[polkit]` section.
pub fn polkit_overlay(secs: &Sections) -> (r: Option<Polkit>)
    requires
        secs.wf(),
    ensures
        r == polkit_of(secs@),
{
    let name = chars_of("polkit");
    match secs.section(&name) {
        None => None,
        Some(p) => {
            let accent = match polkit_color_exec(secs, p, "accent") {
                Some(c) => Some(c),
                None => polkit_color_exec(secs, p, "border"),
            };
            Some(
                Polkit {
                    background: polkit_color_exec(secs, p, "background"),
                    text: polkit_color_exec(secs, p, "text"),
                    text_error: polkit_color_exec(secs, p, "text-error"),
                    accent,
                },
            )
        },
    }
}

/// The subset of the palette the window uses. A slot that is `None` has no
/// color in the theme and keeps the toolkit's own: grey text, white strong
/// text, a light blue accent, a light red warning.
#[derive(Debug, PartialEq, Eq, Structural, Clone, Copy)]
pub struct Colors {
    pub dark: bool,
    pub background: Rgba,
    pub surface: Rgba,
    pub text: Option<Rgba>,
    pub text_strong: Option<Rgba>,
    pub accent: Option<Rgba>,
    pub warning: Option<Rgba>,
}

pub open spec fn or_else(a: Option<Rgba>, b: Option<Rgba>) -> Option<Rgba> {
    match a {
        Some(c) => Some(c),
        None => b,
    }
}

/// colors.toml mapped onto the window, with the shell's polkit palette over
/// it where that exists. A palette without a usable background is not worth
/// half-applying.
pub open spec fn colors_of(m: Map<Seq<char>, Seq<char>>, polkit: Option<Polkit>) -> Option<Colors> {
    match color_of(m, "background"@) {
        None => None,
        Some(bg) => {
            let dark = if m.contains_key("mode"@) {
                m["mode"@] != "light"@
            } else {
                true
            };
            let surface = match pick_of(
                m,
                seq!["lighter_background"@, "selection"@, "dark_background"@],
            ) {
                Some(c) => c,
                None => bg,
            };
            let text = pick_of(m, seq!["foreground"@, "light_foreground"@]);
            let text_strong = pick_of(m, seq!["bright_foreground"@, "foreground"@]);
            let accent = pick_of(m, seq!["accent"@, "blue"@]);
            let warning = pick_of(m, seq!["red"@, "orange"@, "yellow"@]);
            Some(
                match polkit {
                    None => Colors { dark, background: bg, surface, text, text_strong, accent, warning },
                    // The shell's own polkit palette wins where it exists, so
                    // the window matches the system dialog -- most of all the
                    // failure color.
                    Some(p) => Colors {
                        dark,
                        background: match p.background {
                            Some(c) => c,
                            None => bg,
                        },
                        surface,
                        text: or_else(p.text, text),
                        text_strong,
                        accent: or_else(p.accent, accent),
                        warning: or_else(p.text_error, warning),
                    },
                },
            )
        },
    }
}

fn pick2(keys: &Palette, a: &str, b: &str) -> (r: Option<Rgba>)
    requires
        keys.wf(),
    ensures
        r == pick_of(keys@, seq![a@, b@]),
{
    let names = [a, b];
    assert(names@.map_values(|n: &str| n@) =~= seq![a@, b@]);
    pick(keys, &names)
}

fn pick3(keys: &Palette, a: &str, b: &str, c: &str) -> (r: Option<Rgba>)
    requires
        keys.wf(),
    ensures
        r == pick_of(keys@, seq![a@, b@, c@]),
{
    let names = [a, b, c];
    assert(names@.map_values(|n: &str| n@) =~= seq![a@, b@, c@]);
    pick(keys, &names)
}

fn or_else_exec(a: Option<Rgba>, b: Option<Rgba>) -> (r: Option<Rgba>)
    ensures
        r == or_else(a, b),
{
    match a {
        Some(c) => Some(c),
        None => b,
    }
}

/// The colors the window draws with, or `None` if there is nothing usable.
pub fn colors(keys: &Palette, polkit: Option<Polkit>) -> (r: Option<Colors>)
    requires
        keys.wf(),
    ensures
        r == colors_of(keys@, polkit),
{
    let bg = match color(keys, "background") {
        None => {
            return None;
        },
        Some(c) => c,
    };
    let dark = match keys.get("mode") {
        Some(m) => !eq_chars(&chars_of(m.as_str()), &chars_of("light")),
        None => true,
    };
    let surface = match pick3(keys, "lighter_background", "selection", "dark_background") {
        Some(c) => c,
        None => bg,
    };
    let text = pick2(keys, "foreground", "light_foreground");
    let text_strong = pick2(keys, "bright_foreground", "foreground");
    let accent = pick2(keys, "accent", "blue");
    let warning = pick3(keys, "red", "orange", "yellow");
    Some(
        match polkit {
            None => Colors { dark, background: bg, surface, text, text_strong, accent, warning },
            Some(p) => Colors {
                dark,
                background: match p.background {
                    Some(c) => c,
                    None => bg,
                },
                surface,
                text: or_else_exec(p.text, text),
                text_strong,
                accent: or_else_exec(p.accent, accent),
                warning: or_else_exec(p.text_error, warning),
            },
        },
    )
}

/// What a color name gives when the palette holds it in a form that reads.
pub open spec fn readable(m: Map<Seq<char>, Seq<char>>, name: Seq<char>) -> bool {
    m.contains_key(name) && hex_of(m[name]) is Some
}

/// Which palette entry paints which part of the window. Body text is
/// `foreground`, and `light_foreground` only where `foreground` does not
/// read; strong text is `bright_foreground`, then `foreground`; the accent
/// is `accent`, then `blue`. The shell's polkit palette, where it gives a
/// text color, wins over both.
pub proof fn law_which_entry_paints_what(m: Map<Seq<char>, Seq<char>>, polkit: Option<Polkit>)
    requires
        readable(m, "background"@),
    ensures
        colors_of(m, polkit) is Some,
        ({
            let c = colors_of(m, None).unwrap();
            &&& readable(m, "foreground"@) ==> c.text == hex_of(m["foreground"@])
            &&& !readable(m, "foreground"@) && readable(m, "light_foreground"@) ==> c.text == hex_of(
                m["light_foreground"@],
            )
            &&& !readable(m, "foreground"@) && !readable(m, "light_foreground"@) ==> c.text is None
            &&& readable(m, "bright_foreground"@) ==> c.text_strong == hex_of(
                m["bright_foreground"@],
            )
            &&& !readable(m, "bright_foreground"@) ==> c.text_strong == (if readable(
                m,
                "foreground"@,
            ) {
                hex_of(m["foreground"@])
            } else {
                None
            })
            &&& readable(m, "accent"@) ==> c.accent == hex_of(m["accent"@])
            &&& !readable(m, "accent"@) ==> c.accent == (if readable(m, "blue"@) {
                hex_of(m["blue"@])
            } else {
                None
            })
        }),
        polkit is Some && polkit.unwrap().text is Some ==> colors_of(m, polkit).unwrap().text
            == polkit.unwrap().text,
{
    lemma_pick_two(m, "foreground"@, "light_foreground"@);
    lemma_pick_two(m, "bright_foreground"@, "foreground"@);
    lemma_pick_two(m, "accent"@, "blue"@);
}

/// The first of two names that reads.
proof fn lemma_pick_two(m: Map<Seq<char>, Seq<char>>, a: Seq<char>, b: Seq<char>)
    ensures
        pick_of(m, seq![a, b]) == (if readable(m, a) {
            hex_of(m[a])
        } else if readable(m, b) {
            hex_of(m[b])
        } else {
            None
        }),
{
    let t = seq![a, b];
    assert(t.drop_first() =~= seq![b]);
    assert(seq![b].drop_first() =~= Seq::<Seq<char>>::empty());
    reveal_with_fuel(pick_of, 3);
}

} // verus!
