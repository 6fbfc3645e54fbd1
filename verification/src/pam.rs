//! Reading a PAM stack the way PAM reads it.
//!
//! Two questions are asked of `/etc/pam.d`: does the polkit stack try a
//! fingerprint before a password (`fingerprint`), and does it record failures
//! in faillock (`attempts`). Both are "does an `auth` line name this module",
//! and both have to follow `include` and `substack`, because the module may
//! live in `system-auth` rather than in the service's own file. One reader, so
//! the two answers cannot drift apart.
use vstd::prelude::*;

use crate::text::{
    chars_of, contains, contains_exec, ends_with, ends_with_exec, eq_chars, is_ws,
    lemma_one_line, lemma_trim_unblank, lemma_words_then_word, lines, lines_exec, starts_with,
    starts_with_exec, trim, trim_exec, words, words_exec,
};

verus! {

broadcast use crate::chars::lemma_deep_view_chars;

/// The bound on `include` nesting. Real stacks are two or three deep; a loop
/// would otherwise never end.
pub const MAX_INCLUDE_DEPTH: u32 = 8;

/// The service files PAM can see, by service name. When a name is listed
/// twice the first entry is the one PAM would read, so `/etc/pam.d` goes in
/// before the vendor copies in `/usr/lib/pam.d`.
pub struct PamDir {
    files: Vec<(Vec<char>, Vec<char>)>,
}

impl View for PamDir {
    type V = Seq<(Seq<char>, Seq<char>)>;

    closed spec fn view(&self) -> Seq<(Seq<char>, Seq<char>)> {
        self.files.deep_view()
    }
}

/// The text PAM reads for `service`: the first entry with that name.
pub open spec fn lookup(dir: Seq<(Seq<char>, Seq<char>)>, service: Seq<char>) -> Option<Seq<char>>
    decreases dir.len(),
{
    if dir.len() == 0 {
        None
    } else if dir[0].0 == service {
        Some(dir[0].1)
    } else {
        lookup(dir.drop_first(), service)
    }
}

pub open spec fn kw_at_include() -> Seq<char> {
    seq!['@', 'i', 'n', 'c', 'l', 'u', 'd', 'e']
}

pub open spec fn kw_auth() -> Seq<char> {
    seq!['a', 'u', 't', 'h']
}

pub open spec fn kw_dash_auth() -> Seq<char> {
    seq!['-', 'a', 'u', 't', 'h']
}

pub open spec fn kw_include() -> Seq<char> {
    seq!['i', 'n', 'c', 'l', 'u', 'd', 'e']
}

pub open spec fn kw_substack() -> Seq<char> {
    seq!['s', 'u', 'b', 's', 't', 'a', 'c', 'k']
}

/// Where a bracketed control such as `[success=1 default=ignore]` that starts
/// at field `i` ends: the first field from `i` on that ends in `]`, or the
/// last field when none does.
pub open spec fn bracket_end(f: Seq<Seq<char>>, i: int) -> int
    decreases f.len() - i,
{
    if i + 1 >= f.len() || ends_with(f[i], seq![']']) {
        i
    } else {
        bracket_end(f, i + 1)
    }
}

/// Does an `auth` line of `service`'s effective stack, entered `depth`
/// includes deep, name `module`?
pub open spec fn stack_names(
    dir: Seq<(Seq<char>, Seq<char>)>,
    service: Seq<char>,
    module: Seq<char>,
    depth: nat,
) -> bool
    decreases 9 - depth, 2int, 0int,
{
    if depth > MAX_INCLUDE_DEPTH {
        false
    } else {
        match lookup(dir, service) {
            None => false,
            Some(text) => lines_name(dir, lines(text), module, depth),
        }
    }
}

/// Does one of these lines name `module`?
pub open spec fn lines_name(
    dir: Seq<(Seq<char>, Seq<char>)>,
    ls: Seq<Seq<char>>,
    module: Seq<char>,
    depth: nat,
) -> bool
    decreases 9 - depth, 1int, ls.len(),
{
    if depth > MAX_INCLUDE_DEPTH || ls.len() == 0 {
        false
    } else {
        line_names(dir, ls[0], module, depth) || lines_name(dir, ls.drop_first(), module, depth)
    }
}

/// Does this one line name `module`, itself or through what it includes?
///
/// Comments and blank lines say nothing. Debian's `@include other` has no
/// type and applies to every group. Otherwise only the `auth` group counts: a
/// module in an `account` or `session` line does not take part in
/// authenticating. A bracketed control is stepped over as one field even
/// though it contains spaces, and the module need not be the first `auth`
/// line: a clamshell `pam_exec` gate may precede it.
pub open spec fn line_names(
    dir: Seq<(Seq<char>, Seq<char>)>,
    line: Seq<char>,
    module: Seq<char>,
    depth: nat,
) -> bool
    decreases 9 - depth, 0int, 0int,
{
    let t = trim(line);
    let f = words(t);
    if depth > MAX_INCLUDE_DEPTH || t.len() == 0 || starts_with(t, seq!['#']) || f.len() == 0 {
        false
    } else if f[0] == kw_at_include() {
        f.len() >= 2 && stack_names(dir, f[1], module, depth + 1)
    } else if f[0] != kw_auth() && f[0] != kw_dash_auth() {
        false
    } else if f.len() < 2 {
        false
    } else {
        let c = if starts_with(f[1], seq!['[']) {
            bracket_end(f, 1)
        } else {
            1
        };
        if c + 1 >= f.len() {
            false
        } else if f[c] == kw_include() || f[c] == kw_substack() {
            stack_names(dir, f[c + 1], module, depth + 1)
        } else {
            contains(f[c + 1], module)
        }
    }
}

impl PamDir {
    /// No service files at all.
    pub fn new() -> (d: Self)
        ensures
            d@ == Seq::<(Seq<char>, Seq<char>)>::empty(),
    {
        let d = PamDir { files: Vec::new() };
        assert(d@ =~= Seq::<(Seq<char>, Seq<char>)>::empty());
        d
    }

    /// Make `text` visible as `service`, behind any entry already there.
    pub fn add(&mut self, service: &str, text: &str)
        ensures
            final(self)@ == old(self)@.push((service@, text@)),
    {
        let ghost before = self@;
        self.files.push((chars_of(service), chars_of(text)));
        assert(self@ =~= before.push((service@, text@)));
    }

    /// The directories PAM searches, in its order: every file of `etc`
    /// (`/etc/pam.d`) ahead of every file of `vendor` (`/usr/lib/pam.d`),
    /// so a service in both is read from `etc`.
    pub fn layered(etc: PamDir, vendor: PamDir) -> (d: PamDir)
        ensures
            d@ == etc@ + vendor@,
            forall|service: Seq<char>|
                #[trigger] lookup(d@, service) == match lookup(etc@, service) {
                    Some(t) => Some(t),
                    None => lookup(vendor@, service),
                },
    {
        let mut files = etc.files;
        let mut rest = vendor.files;
        let ghost a = files@;
        let ghost b = rest@;
        files.append(&mut rest);
        let d = PamDir { files };
        assert(d@ =~= etc@ + vendor@) by {
            assert forall|i: int| 0 <= i < d@.len() implies d@[i] == (etc@ + vendor@)[i] by {
                if i < a.len() {
                    assert(d.files@[i] == a[i]);
                } else {
                    assert(d.files@[i] == b[i - a.len()]);
                }
            }
        }
        proof {
            assert forall|service: Seq<char>|
                #[trigger] lookup(d@, service) == match lookup(etc@, service) {
                    Some(t) => Some(t),
                    None => lookup(vendor@, service),
                } by {
                law_etc_shadows_vendor(etc@, vendor@, service);
            }
        }
        d
    }

    /// The text PAM reads for `service`, if there is one.
    fn lookup_exec(&self, service: &[char]) -> (r: Option<&Vec<char>>)
        ensures
            match r {
                Some(t) => lookup(self@, service@) == Some(t@),
                None => lookup(self@, service@) is None,
            },
    {
        let mut i: usize = 0;
        assert(self@.subrange(0, self@.len() as int) =~= self@);
        while i < self.files.len()
            invariant
                i <= self@.len(),
                self@ == self.files.deep_view(),
                lookup(self@, service@) == lookup(self@.subrange(i as int, self@.len() as int), service@),
            decreases self.files.len() - i,
        {
            let ghost rest = self@.subrange(i as int, self@.len() as int);
            assert(rest[0] == self@[i as int]);
            if eq_chars(&self.files[i].0, service) {
                return Some(&self.files[i].1);
            }
            assert(rest.drop_first() =~= self@.subrange(i + 1, self@.len() as int));
            i = i + 1;
        }
        None
    }
}

/// The lines of a stack name the module when one of the earlier lines does,
/// or the last one does.
proof fn lemma_lines_name_push(
    dir: Seq<(Seq<char>, Seq<char>)>,
    ls: Seq<Seq<char>>,
    line: Seq<char>,
    module: Seq<char>,
    depth: nat,
)
    ensures
        lines_name(dir, ls.push(line), module, depth) == (lines_name(dir, ls, module, depth)
            || (depth <= MAX_INCLUDE_DEPTH && line_names(dir, line, module, depth))),
    decreases ls.len(),
{
    if ls.len() > 0 {
        assert(ls.push(line)[0] == ls[0]);
        assert(ls.push(line).drop_first() =~= ls.drop_first().push(line));
        lemma_lines_name_push(dir, ls.drop_first(), line, module, depth);
    } else {
        assert(ls.push(line) =~= seq![line]);
        assert(seq![line].drop_first() =~= Seq::<Seq<char>>::empty());
        assert(lines_name(dir, Seq::<Seq<char>>::empty(), module, depth) == false);
        assert(ls =~= Seq::<Seq<char>>::empty());
    }
}

/// Only `auth` (or `-auth`) lines and Debian's `@include` take part in
/// authenticating. A line of any other group -- `account`, `session`,
/// `password`, even `account include system-auth` -- never names the
/// module, and adding one to a stack never changes the answer.
pub proof fn law_only_auth_lines_count(
    dir: Seq<(Seq<char>, Seq<char>)>,
    ls: Seq<Seq<char>>,
    line: Seq<char>,
    module: Seq<char>,
    depth: nat,
)
    requires
        words(trim(line)).len() == 0 || {
            let first = words(trim(line))[0];
            &&& first != seq!['a', 'u', 't', 'h']
            &&& first != seq!['-', 'a', 'u', 't', 'h']
            &&& first != seq!['@', 'i', 'n', 'c', 'l', 'u', 'd', 'e']
        },
    ensures
        !line_names(dir, line, module, depth),
        lines_name(dir, ls.push(line), module, depth) == lines_name(dir, ls, module, depth),
{
    assert(kw_auth() =~= seq!['a', 'u', 't', 'h']);
    assert(kw_dash_auth() =~= seq!['-', 'a', 'u', 't', 'h']);
    assert(kw_at_include() =~= seq!['@', 'i', 'n', 'c', 'l', 'u', 'd', 'e']);
    lemma_lines_name_push(dir, ls, line, module, depth);
}

/// `/etc/pam.d` shadows `/usr/lib/pam.d`: with the two directories layered,
/// a service that has a file in `/etc/pam.d` is read from there, and one that
/// has none there is read from the vendor directory, or not at all.
pub proof fn law_etc_shadows_vendor(
    etc: Seq<(Seq<char>, Seq<char>)>,
    vendor: Seq<(Seq<char>, Seq<char>)>,
    service: Seq<char>,
)
    ensures
        lookup(etc + vendor, service) == match lookup(etc, service) {
            Some(t) => Some(t),
            None => lookup(vendor, service),
        },
    decreases etc.len(),
{
    if etc.len() > 0 {
        assert((etc + vendor)[0] == etc[0]);
        assert((etc + vendor).drop_first() =~= etc.drop_first() + vendor);
        law_etc_shadows_vendor(etc.drop_first(), vendor, service);
    } else {
        assert(etc + vendor =~= vendor);
    }
}

fn kw(which: u8) -> (r: Vec<char>)
    ensures
        which == 0 ==> r@ == kw_at_include(),
        which == 1 ==> r@ == kw_auth(),
        which == 2 ==> r@ == kw_dash_auth(),
        which == 3 ==> r@ == kw_include(),
        which == 4 ==> r@ == kw_substack(),
{
    let r = if which == 0 {
        vec!['@', 'i', 'n', 'c', 'l', 'u', 'd', 'e']
    } else if which == 1 {
        vec!['a', 'u', 't', 'h']
    } else if which == 2 {
        vec!['-', 'a', 'u', 't', 'h']
    } else if which == 3 {
        vec!['i', 'n', 'c', 'l', 'u', 'd', 'e']
    } else {
        vec!['s', 'u', 'b', 's', 't', 'a', 'c', 'k']
    };
    assert(which == 0 ==> r@ =~= kw_at_include());
    assert(which == 1 ==> r@ =~= kw_auth());
    assert(which == 2 ==> r@ =~= kw_dash_auth());
    assert(which == 3 ==> r@ =~= kw_include());
    assert(which == 4 ==> r@ =~= kw_substack());
    r
}

fn bracket_end_exec(f: &Vec<Vec<char>>, i: usize) -> (c: usize)
    requires
        i < f@.len(),
    ensures
        c as int == bracket_end(f.deep_view(), i as int),
        i <= c < f@.len(),
{
    let close = vec![']'];
    assert(close@ =~= seq![']']);
    let mut c = i;
    while c < f.len() - 1 && !ends_with_exec(&f[c], &close)
        invariant
            close@ == seq![']'],
            i <= c < f@.len(),
            bracket_end(f.deep_view(), i as int) == bracket_end(f.deep_view(), c as int),
        decreases f.len() - c,
    {
        assert(f.deep_view()[c as int] == f@[c as int]@);
        c = c + 1;
    }
    c
}

/// The answer for one line, entered `depth` includes deep.
fn line_names_exec(dir: &PamDir, line: &[char], module: &[char], depth: u32) -> (r: bool)
    requires
        depth <= MAX_INCLUDE_DEPTH,
    ensures
        r == line_names(dir@, line@, module@, depth as nat),
    decreases 9 - depth, 0int,
{
    let t = trim_exec(line);
    let hash = vec!['#'];
    assert(hash@ =~= seq!['#']);
    if t.len() == 0 || starts_with_exec(&t, &hash) {
        return false;
    }
    let f = words_exec(&t);
    if f.len() == 0 {
        return false;
    }
    if eq_chars(&f[0], &kw(0)) {
        if f.len() >= 2 {
            return names_with(dir, &f[1], module, depth + 1);
        }
        return false;
    }
    if !eq_chars(&f[0], &kw(1)) && !eq_chars(&f[0], &kw(2)) {
        return false;
    }
    if f.len() < 2 {
        return false;
    }
    let open = vec!['['];
    assert(open@ =~= seq!['[']);
    let c = if starts_with_exec(&f[1], &open) {
        bracket_end_exec(&f, 1)
    } else {
        1
    };
    if c + 1 >= f.len() {
        return false;
    }
    if eq_chars(&f[c], &kw(3)) || eq_chars(&f[c], &kw(4)) {
        names_with(dir, &f[c + 1], module, depth + 1)
    } else {
        contains_exec(&f[c + 1], module)
    }
}

/// The reader behind `auth_stack_names`, entered `depth` includes deep.
fn names_with(dir: &PamDir, service: &[char], module: &[char], depth: u32) -> (r: bool)
    ensures
        r == stack_names(dir@, service@, module@, depth as nat),
    decreases 9 - depth, 1int,
{
    if depth > MAX_INCLUDE_DEPTH {
        return false;
    }
    let text = match dir.lookup_exec(service) {
        None => {
            return false;
        },
        Some(t) => t,
    };
    let ls = lines_exec(text);
    let ghost all = lines(text@);
    let mut i: usize = 0;
    assert(all.subrange(0, all.len() as int) =~= all);
    while i < ls.len()
        invariant
            depth <= MAX_INCLUDE_DEPTH,
            lookup(dir@, service@) == Some(text@),
            all == lines(text@),
            ls.deep_view() == all,
            i <= all.len(),
            lines_name(dir@, all, module@, depth as nat) == lines_name(
                dir@,
                all.subrange(i as int, all.len() as int),
                module@,
                depth as nat,
            ),
        decreases ls.len() - i,
    {
        let ghost rest = all.subrange(i as int, all.len() as int);
        assert(rest[0] == ls.deep_view()[i as int]);
        assert(ls.deep_view()[i as int] == ls@[i as int]@);
        if line_names_exec(dir, &ls[i], module, depth) {
            return true;
        }
        assert(rest.drop_first() =~= all.subrange(i + 1, all.len() as int));
        i = i + 1;
    }
    false
}

/// True when an `auth` line of `service`'s effective PAM stack names
/// `module` (`"pam_fprintd"`, `"pam_faillock"`), following includes.
pub fn auth_stack_names(dir: &PamDir, service: &str, module: &str) -> (r: bool)
    ensures
        r == stack_names(dir@, service@, module@, 0),
{
    let s = chars_of(service);
    let m = chars_of(module);
    names_with(dir, &s, &m, 0)
}

/// The line `auth include <target>`.
pub open spec fn include_line(target: Seq<char>) -> Seq<char> {
    kw_auth() + seq![' '] + kw_include() + seq![' '] + target
}

/// A service whose whole file is `auth include <target>` names exactly what
/// `target` names: the module may live in `system-auth` rather than in the
/// service's own file, and to PAM both are the same stack, followed one
/// include deeper.
pub proof fn law_an_include_is_followed(
    dir: Seq<(Seq<char>, Seq<char>)>,
    service: Seq<char>,
    target: Seq<char>,
    module: Seq<char>,
    depth: nat,
)
    requires
        depth <= MAX_INCLUDE_DEPTH,
        target.len() >= 1,
        forall|i: int| 0 <= i < target.len() ==> !is_ws(#[trigger] target[i]),
        lookup(dir, service) == Some(include_line(target).push('\n')),
    ensures
        stack_names(dir, service, module, depth) == stack_names(dir, target, module, depth + 1),
{
    let line = include_line(target);
    let e = Seq::<char>::empty();
    // The words of the line.
    assert(e + kw_auth() =~= kw_auth());
    lemma_words_then_word(e, kw_auth());
    assert(words(e) =~= Seq::<Seq<char>>::empty());
    let p1 = kw_auth() + seq![' '];
    assert(p1.drop_last() =~= kw_auth());
    lemma_words_then_word(p1, kw_include());
    let p2 = p1 + kw_include() + seq![' '];
    assert(p2.drop_last() =~= p1 + kw_include());
    lemma_words_then_word(p2, target);
    assert(p2 + target =~= line);
    let f = words(line);
    assert(f =~= seq![kw_auth(), kw_include(), target]);
    // The line, as the file's only line, trimmed.
    assert(line[0] == 'a');
    assert(line.last() == target.last());
    assert forall|i: int| 0 <= i < line.len() implies line[i] != '\n' by {
        if i >= p2.len() {
            assert(line[i] == target[i - p2.len()]);
        }
    }
    lemma_one_line(line);
    lemma_trim_unblank(line);
    assert(line.subrange(0, 1)[0] == 'a');
    assert(!starts_with(line, seq!['#']));
    assert(f[1].subrange(0, 1)[0] == 'i');
    assert(!starts_with(f[1], seq!['[']));
    assert(lines_name(dir, seq![line], module, depth) == (line_names(dir, line, module, depth)
        || lines_name(dir, seq![line].drop_first(), module, depth)));
    assert(seq![line].drop_first() =~= Seq::<Seq<char>>::empty());
}

} // verus!
