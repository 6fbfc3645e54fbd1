//! Path names as byte strings, read the way `std::path::Path` reads them on
//! Unix.
use vstd::prelude::*;

verus! {

broadcast use crate::chars::lemma_deep_view_bytes;

/// `s.split(c)` over bytes: the pieces between occurrences of `c`.
pub open spec fn split_byte(s: Seq<u8>, c: u8) -> Seq<Seq<u8>>
    decreases s.len(),
{
    if s.len() == 0 {
        seq![Seq::<u8>::empty()]
    } else {
        let p = split_byte(s.drop_last(), c);
        if s.last() == c {
            p.push(Seq::<u8>::empty())
        } else {
            p.update(p.len() - 1, p.last().push(s.last()))
        }
    }
}

/// The pieces that name something: not empty (a doubled or trailing `/`),
/// and not `.`, which `Path` drops everywhere but at the start, where it
/// never names a file either.
pub open spec fn named_parts(p: Seq<Seq<u8>>) -> Seq<Seq<u8>>
    decreases p.len(),
{
    if p.len() == 0 {
        p
    } else {
        let r = named_parts(p.drop_last());
        let x = p.last();
        if x.len() == 0 || (x.len() == 1 && x[0] == 46) {
            r
        } else {
            r.push(x)
        }
    }
}

/// `Path::file_name`: the last component, unless it is `..` or there is
/// none (`/`, `.`, an empty path).
pub open spec fn file_name(path: Seq<u8>) -> Option<Seq<u8>> {
    let c = named_parts(split_byte(path, 47));
    if c.len() == 0 {
        None
    } else if c.last().len() == 2 && c.last()[0] == 46 && c.last()[1] == 46 {
        None
    } else {
        Some(c.last())
    }
}

/// The final component of `path`, or `path` itself when it has none: how
/// argv[0] is read to choose a mode.
pub open spec fn basename_of(path: Seq<u8>) -> Seq<u8> {
    match file_name(path) {
        Some(n) => n,
        None => path,
    }
}

/// `Path::file_name` over bytes.
pub fn file_name_exec(path: &[u8]) -> (r: Option<Vec<u8>>)
    ensures
        match r {
            Some(n) => file_name(path@) == Some(n@),
            None => file_name(path@) is None,
        },
{
    // Scan once, keeping the last piece that names something.
    let mut last: Option<Vec<u8>> = None;
    let mut cur: Vec<u8> = Vec::new();
    let ghost mut done: Seq<Seq<u8>> = Seq::empty();
    let mut i: usize = 0;
    assert(path@.subrange(0, 0) =~= Seq::<u8>::empty());
    while i < path.len()
        invariant
            i <= path@.len(),
            split_byte(path@.subrange(0, i as int), 47) == done.push(cur@),
            match last {
                Some(l) => named_parts(done).len() > 0 && named_parts(done).last() == l@,
                None => named_parts(done).len() == 0,
            },
        decreases path.len() - i,
    {
        let x = path[i];
        assert(path@.subrange(0, i + 1).drop_last() =~= path@.subrange(0, i as int));
        if x == 47 {
            let ghost old_done = done;
            let ghost old_cur = cur@;
            proof {
                done = done.push(cur@);
            }
            assert(split_byte(path@.subrange(0, i + 1), 47) =~= done.push(Seq::<u8>::empty()));
            assert(done.drop_last() =~= old_done);
            assert(done.last() == old_cur);
            if !(cur.len() == 0 || (cur.len() == 1 && cur[0] == 46)) {
                assert(named_parts(done) == named_parts(old_done).push(old_cur));
                last = Some(cur);
            } else {
                assert(named_parts(done) == named_parts(old_done));
            }
            cur = Vec::new();
        } else {
            let ghost before = cur@;
            cur.push(x);
            assert(split_byte(path@.subrange(0, i + 1), 47) =~= done.push(before).update(
                done.len() as int,
                before.push(x),
            ));
            assert(done.push(before).update(done.len() as int, before.push(x)) =~= done.push(
                cur@,
            ));
        }
        i = i + 1;
    }
    assert(path@.subrange(0, path@.len() as int) =~= path@);
    let ghost all = done.push(cur@);
    assert(all.drop_last() =~= done);
    let name = if !(cur.len() == 0 || (cur.len() == 1 && cur[0] == 46)) {
        assert(named_parts(all) == named_parts(done).push(cur@));
        Some(cur)
    } else {
        assert(named_parts(all) == named_parts(done));
        last
    };
    match name {
        None => None,
        Some(n) => {
            if n.len() == 2 && n[0] == 46 && n[1] == 46 {
                None
            } else {
                Some(n)
            }
        },
    }
}

/// `s.split(c)` over bytes, every piece kept, the empty ones too.
pub fn split_byte_exec(raw: &[u8], c: u8) -> (r: Vec<Vec<u8>>)
    ensures
        r.deep_view() == split_byte(raw@, c),
{
    let mut out: Vec<Vec<u8>> = Vec::new();
    let mut cur: Vec<u8> = Vec::new();
    let mut i: usize = 0;
    assert(raw@.subrange(0, 0) =~= Seq::<u8>::empty());
    while i < raw.len()
        invariant
            i <= raw@.len(),
            split_byte(raw@.subrange(0, i as int), c) == out.deep_view().push(cur@),
        decreases raw.len() - i,
    {
        let x = raw[i];
        assert(raw@.subrange(0, i + 1).drop_last() =~= raw@.subrange(0, i as int));
        let ghost done = out.deep_view();
        let ghost before = cur@;
        if x == c {
            out.push(cur);
            cur = Vec::new();
            assert(out.deep_view() =~= done.push(before));
            assert(split_byte(raw@.subrange(0, i + 1), c) =~= out.deep_view().push(cur@));
        } else {
            cur.push(x);
            assert(split_byte(raw@.subrange(0, i + 1), c) =~= done.push(before).update(
                done.len() as int,
                before.push(x),
            ));
            assert(done.push(before).update(done.len() as int, before.push(x)) =~= done.push(
                cur@,
            ));
        }
        i = i + 1;
    }
    assert(raw@.subrange(0, raw@.len() as int) =~= raw@);
    let ghost done = out.deep_view();
    let ghost last = cur@;
    out.push(cur);
    assert(out.deep_view() =~= done.push(last));
    out
}

/// Basename of `path`, for argv[0] mode detection.
pub fn basename(path: &[u8]) -> (r: Vec<u8>)
    ensures
        r@ == basename_of(path@),
{
    match file_name_exec(path) {
        Some(n) => n,
        None => {
            let mut v: Vec<u8> = Vec::new();
            let mut i: usize = 0;
            while i < path.len()
                invariant
                    i <= path@.len(),
                    v@ == path@.subrange(0, i as int),
                decreases path.len() - i,
            {
                v.push(path[i]);
                i = i + 1;
                assert(v@ =~= path@.subrange(0, i as int));
            }
            assert(path@.subrange(0, path@.len() as int) =~= path@);
            v
        },
    }
}

} // verus!
