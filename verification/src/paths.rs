//! Unix path names as `std::path::Path` reads them: joining, the last
//! component, and its stem and extension.
use vstd::prelude::*;
use crate::text::{chars_of, join_path, lemma_split_concat, lemma_split_no_sep, nonempty_parts, slice_chars, split_chars, split_on, string_of, views};

verus! {

/// The components of `p` that name something: empty and `.` segments dropped.
pub open spec fn named_segments(p: Seq<char>) -> Seq<Seq<char>> {
    drop_dots(nonempty_parts(split_on(p, '/')))
}

pub open spec fn drop_dots(ps: Seq<Seq<char>>) -> Seq<Seq<char>>
    decreases ps.len(),
{
    if ps.len() == 0 {
        ps
    } else if ps.last() == seq!['.'] {
        drop_dots(ps.drop_last())
    } else {
        drop_dots(ps.drop_last()).push(ps.last())
    }
}

/// `Path::file_name`: the last component, unless it is `..`.
pub open spec fn file_name(p: Seq<char>) -> Option<Seq<char>> {
    let c = named_segments(p);
    if c.len() == 0 || c.last() == seq!['.', '.'] {
        None
    } else {
        Some(c.last())
    }
}

/// Index of the last `.` in `s`.
pub open spec fn last_dot(s: Seq<char>) -> Option<int>
    decreases s.len(),
{
    if s.len() == 0 {
        None
    } else if s.last() == '.' {
        Some(s.len() - 1)
    } else {
        last_dot(s.drop_last())
    }
}

/// `Path::extension`: what follows the last `.` of the file name, unless
/// that `.` starts the name.
pub open spec fn extension(p: Seq<char>) -> Option<Seq<char>> {
    match file_name(p) {
        None => None,
        Some(n) => match last_dot(n) {
            Some(i) => if i > 0 {
                Some(n.skip(i + 1))
            } else {
                None
            },
            None => None,
        },
    }
}

/// `Path::file_stem`: the file name without its extension.
pub open spec fn file_stem(p: Seq<char>) -> Option<Seq<char>> {
    match file_name(p) {
        None => None,
        Some(n) => match last_dot(n) {
            Some(i) => if i > 0 {
                Some(n.take(i))
            } else {
                Some(n)
            },
            None => Some(n),
        },
    }
}

/// `Path::join` on strings.
pub fn join(dir: &str, name: &str) -> (r: String)
    ensures
        r@ == join_path(dir@, name@),
{
    let d = chars_of(dir);
    let n = chars_of(name);
    let mut out = d.clone();
    assert(out@ == d@);
    if n.len() > 0 && n[0] == '/' {
        return string_of(&n);
    }
    if d.len() > 0 && d[d.len() - 1] != '/' {
        out.push('/');
    }
    crate::text::extend_chars(&mut out, &n);
    proof {
        if !(d@.len() == 0 || d@.last() == '/') {
            assert(out@ =~= d@ + seq!['/'] + n@);
        }
    }
    string_of(&out)
}

fn drop_dots_exec(ps: &Vec<Vec<char>>) -> (out: Vec<Vec<char>>)
    ensures
        views(out@) == drop_dots(views(ps@)),
{
    let ghost all = views(ps@);
    let mut out: Vec<Vec<char>> = Vec::new();
    let mut i: usize = 0;
    while i < ps.len()
        invariant
            i <= ps.len(),
            all == views(ps@),
            views(out@) == drop_dots(all.take(i as int)),
        decreases ps.len() - i,
    {
        assert(all.take(i + 1).drop_last() =~= all.take(i as int));
        assert(all.take(i + 1).last() == ps@[i as int]@);
        let is_dot = ps[i].len() == 1 && ps[i][0] == '.';
        assert(is_dot == (ps@[i as int]@ == seq!['.'])) by {
            if ps@[i as int]@ == seq!['.'] {
                assert(ps@[i as int]@[0] == '.');
            }
            if is_dot {
                assert(ps@[i as int]@ =~= seq!['.']);
            }
        }
        if !is_dot {
            out.push(ps[i].clone());
            assert(views(out@) =~= drop_dots(all.take(i + 1)));
        }
        i += 1;
    }
    assert(all.take(ps.len() as int) =~= all);
    out
}

fn last_dot_exec(v: &Vec<char>) -> (r: Option<usize>)
    ensures
        r matches Some(i) ==> last_dot(v@) == Some(i as int) && i < v.len(),
        r is None ==> last_dot(v@) is None,
{
    let mut m = v.len();
    assert(v@.take(m as int) =~= v@);
    while m > 0
        invariant
            m <= v.len(),
            last_dot(v@) == last_dot(v@.take(m as int)),
        decreases m,
    {
        assert(v@.take(m as int).last() == v@[m - 1]);
        if v[m - 1] == '.' {
            return Some(m - 1);
        }
        assert(v@.take(m as int).drop_last() =~= v@.take(m - 1));
        m -= 1;
    }
    None
}

/// `Path::file_name` on strings.
pub fn file_name_of(p: &str) -> (r: Option<Vec<char>>)
    ensures
        r matches Some(n) ==> file_name(p@) == Some(n@),
        r is None ==> file_name(p@) is None,
{
    let v = chars_of(p);
    let segs = drop_dots_exec(&crate::text::nonempty_parts_exec(&split_chars(&v, '/')));
    assert(views(segs@) == named_segments(p@));
    let n = segs.len();
    if n == 0 {
        return None;
    }
    assert(views(segs@).last() == segs@[n - 1]@);
    let last = &segs[n - 1];
    let is_dotdot = last.len() == 2 && last[0] == '.' && last[1] == '.';
    assert(is_dotdot == (last@ == seq!['.', '.'])) by {
        if last@ == seq!['.', '.'] {
            assert(last@[0] == '.' && last@[1] == '.');
        }
        if is_dotdot {
            assert(last@ =~= seq!['.', '.']);
        }
    }
    if is_dotdot {
        None
    } else {
        Some(last.clone())
    }
}

/// `Path::extension` on strings.
pub fn extension_of(p: &str) -> (r: Option<Vec<char>>)
    ensures
        r matches Some(e) ==> extension(p@) == Some(e@),
        r is None ==> extension(p@) is None,
{
    match file_name_of(p) {
        None => None,
        Some(n) => match last_dot_exec(&n) {
            Some(i) => if i > 0 {
                Some(slice_chars(&n, i + 1, n.len()))
            } else {
                None
            },
            None => None,
        },
    }
}

/// `Path::file_stem` on strings.
pub fn file_stem_of(p: &str) -> (r: Option<Vec<char>>)
    ensures
        r matches Some(e) ==> file_stem(p@) == Some(e@),
        r is None ==> file_stem(p@) is None,
{
    match file_name_of(p) {
        None => None,
        Some(n) => match last_dot_exec(&n) {
            Some(i) => if i > 0 {
                Some(slice_chars(&n, 0, i))
            } else {
                Some(n)
            },
            None => Some(n),
        },
    }
}


/// A name without `/` (and not `.` or `..`) joined onto a directory is the
/// file name of the result.
pub proof fn lemma_join_file_name(dir: Seq<char>, n: Seq<char>)
    requires
        n.len() > 0,
        forall|i: int| 0 <= i < n.len() ==> n[i] != '/',
        n != seq!['.'],
        n != seq!['.', '.'],
    ensures
        file_name(join_path(dir, n)) == Some(n),
{
    lemma_split_no_sep(n, '/');
    let j = join_path(dir, n);
    assert(n[0] != '/');
    let p: Seq<Seq<char>> = if dir.len() == 0 {
        Seq::empty()
    } else if dir.last() == '/' {
        split_on(dir.drop_last(), '/')
    } else {
        split_on(dir, '/')
    };
    if dir.len() == 0 {
        assert(j =~= n);
        assert(split_on(j, '/') =~= p.push(n));
    } else if dir.last() == '/' {
        assert(j =~= dir.drop_last() + seq!['/'] + n);
        lemma_split_concat(dir.drop_last(), n, '/');
        assert(split_on(j, '/') =~= p.push(n));
    } else {
        assert(j =~= dir + seq!['/'] + n);
        lemma_split_concat(dir, n, '/');
        assert(split_on(j, '/') =~= p.push(n));
    }
    let ps = split_on(j, '/');
    assert(ps.drop_last() =~= p);
    assert(nonempty_parts(ps) == nonempty_parts(p).push(n));
    let q = nonempty_parts(ps);
    assert(q.drop_last() =~= nonempty_parts(p));
    assert(drop_dots(q) == drop_dots(nonempty_parts(p)).push(n));
}

/// The file name `s.ext`, for `s` without `.`, has stem `s` and extension `ext`.
pub proof fn lemma_stem_and_extension(dir: Seq<char>, s: Seq<char>, ext: Seq<char>)
    requires
        s.len() > 0,
        forall|i: int| 0 <= i < s.len() ==> s[i] != '/' && s[i] != '.',
        forall|i: int| 0 <= i < ext.len() ==> ext[i] != '/' && ext[i] != '.',
    ensures
        file_stem(join_path(dir, s + seq!['.'] + ext)) == Some(s),
        extension(join_path(dir, s + seq!['.'] + ext)) == Some(ext),
{
    let n = s + seq!['.'] + ext;
    assert forall|i: int| 0 <= i < n.len() implies n[i] != '/' by {
        if i < s.len() {
            assert(n[i] == s[i]);
        } else if i > s.len() {
            assert(n[i] == ext[i - s.len() - 1]);
        }
    }
    assert(n.len() >= 2);
    assert(n != seq!['.'] && n != seq!['.', '.']) by {
        assert(n[0] == s[0]);
    }
    lemma_join_file_name(dir, n);
    lemma_last_dot_after(s + seq!['.'], ext);
    assert((s + seq!['.']).last() == '.');
    assert(n.take(s.len() as int) =~= s);
    assert(n.skip(s.len() as int + 1) =~= ext);
}

/// The last `.` of `a + b`, `b` holding none and `a` ending in one, is the last
/// character of `a`.
proof fn lemma_last_dot_after(a: Seq<char>, b: Seq<char>)
    requires
        a.len() > 0,
        a.last() == '.',
        forall|i: int| 0 <= i < b.len() ==> b[i] != '.',
    ensures
        last_dot(a + b) == Some(a.len() - 1),
    decreases b.len(),
{
    if b.len() == 0 {
        assert(a + b =~= a);
    } else {
        assert((a + b).drop_last() =~= a + b.drop_last());
        assert((a + b).last() == b.last());
        lemma_last_dot_after(a, b.drop_last());
    }
}

} // verus!
