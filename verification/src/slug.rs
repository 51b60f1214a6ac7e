//! Turning a theme name into a directory or file name.
use vstd::prelude::*;
use crate::text::{ascii_lower, chars_of, nonempty_parts, split_chars, split_on, string_of, views};

verus! {

/// Whether `char::is_alphanumeric` holds of a non-ASCII `c` (Unicode
/// `Alphabetic` or `Numeric`).
pub uninterp spec fn unicode_alnum(c: char) -> bool;

/// Whether `char::is_alphanumeric` holds of `c`: among ASCII characters
/// exactly the letters and digits, elsewhere the Unicode property.
pub open spec fn alnum(c: char) -> bool {
    if (c as u32) < 128 {
        'a' <= c <= 'z' || 'A' <= c <= 'Z' || '0' <= c <= '9'
    } else {
        unicode_alnum(c)
    }
}

/// `char::is_alphanumeric`. Its source tests `'a'..='z' | 'A'..='Z'` and
/// `'0'..='9'` first and consults the Unicode tables only above `'\x7f'`;
/// those tables are not written out: their answer is named `unicode_alnum`.
#[verifier::external_body]
fn is_alphanumeric(c: char) -> (r: bool)
    ensures
        (c as u32) >= 128 ==> r == unicode_alnum(c),
        r == alnum(c),
{
    c.is_alphanumeric()
}

/// Each character of a name as a slug keeps it: alphanumerics in ASCII
/// lowercase, everything else as `'-'`.
pub open spec fn slug_char(c: char) -> char {
    if alnum(c) {
        ascii_lower(c)
    } else {
        '-'
    }
}

pub open spec fn slug_chars(s: Seq<char>) -> Seq<char> {
    s.map_values(|c: char| slug_char(c))
}

/// Pieces joined with a separator.
pub open spec fn join_with(ps: Seq<Seq<char>>, c: char) -> Seq<char>
    decreases ps.len(),
{
    if ps.len() == 0 {
        Seq::empty()
    } else if ps.len() == 1 {
        ps[0]
    } else {
        join_with(ps.drop_last(), c) + seq![c] + ps.last()
    }
}

pub open spec fn default_slug() -> Seq<char> {
    "custom-theme"@
}

/// What `slugify` returns: the slug characters of `name`, split at `'-'`,
/// empty pieces dropped, joined again with `'-'`; `custom-theme` if nothing is left.
pub open spec fn slugify_spec(name: Seq<char>) -> Seq<char> {
    let joined = join_with(nonempty_parts(split_on(slug_chars(name), '-')), '-');
    if joined.len() == 0 {
        default_slug()
    } else {
        joined
    }
}

fn slug_char_exec(c: char) -> (r: char)
    ensures
        r == slug_char(c),
{
    if is_alphanumeric(c) {
        if 'A' <= c && c <= 'Z' {
            ((c as u8) + 32) as char
        } else {
            c
        }
    } else {
        '-'
    }
}

fn slug_chars_exec(v: &Vec<char>) -> (out: Vec<char>)
    ensures
        out@ == slug_chars(v@),
{
    let mut out: Vec<char> = Vec::new();
    let mut i: usize = 0;
    while i < v.len()
        invariant
            i <= v.len(),
            out@ == slug_chars(v@.take(i as int)),
        decreases v.len() - i,
    {
        out.push(slug_char_exec(v[i]));
        assert(slug_chars(v@.take(i + 1)) =~= slug_chars(v@.take(i as int)).push(slug_char(v@[i as int])));
        i += 1;
    }
    assert(v@.take(v.len() as int) =~= v@);
    out
}

/// A directory name for a theme: lowercase alphanumeric words joined by
/// single dashes, or `custom-theme` when the name has no alphanumerics.
pub fn slugify(name: &str) -> (r: String)
    ensures
        r@ == slugify_spec(name@),
{
    let v = chars_of(name);
    let mapped = slug_chars_exec(&v);
    let pieces = split_chars(&mapped, '-');
    let ghost ps = views(pieces@);
    let mut out: Vec<char> = Vec::new();
    let mut started = false;
    let mut i: usize = 0;
    while i < pieces.len()
        invariant
            i <= pieces.len(),
            ps == views(pieces@),
            started == (nonempty_parts(ps.take(i as int)).len() > 0),
            out@ == join_with(nonempty_parts(ps.take(i as int)), '-'),
        decreases pieces.len() - i,
    {
        assert(ps.take(i + 1).drop_last() =~= ps.take(i as int));
        assert(ps.take(i + 1).last() == pieces@[i as int]@);
        if pieces[i].len() > 0 {
            if started {
                out.push('-');
            }
            crate::text::extend_chars(&mut out, &pieces[i]);
            proof {
                let np = nonempty_parts(ps.take(i as int));
                if !started {
                    assert(np.push(pieces@[i as int]@).len() == 1);
                    assert(out@ =~= join_with(np.push(pieces@[i as int]@), '-'));
                } else {
                    assert(np.push(pieces@[i as int]@).drop_last() =~= np);
                    assert(out@ =~= join_with(np.push(pieces@[i as int]@), '-'));
                }
            }
            started = true;
        }
        i += 1;
    }
    assert(ps.take(pieces.len() as int) =~= ps);
    if out.len() == 0 {
        string_of(&chars_of("custom-theme"))
    } else {
        string_of(&out)
    }
}

/// The file name `save_current_theme` gives a snapshot: the slug characters
/// of the trimmed name, one for one.
pub fn slug_file_name(name: &str) -> (r: String)
    ensures
        r@ == slug_chars(name@),
{
    let v = chars_of(name);
    string_of(&slug_chars_exec(&v))
}

// ---------------------------------------------------------------- laws

/// A well-formed slug: non-empty, no `'-'` at either end, no two `'-'` in a
/// row, and every other character already in ASCII lowercase.
pub open spec fn is_slug(s: Seq<char>) -> bool {
    &&& s.len() > 0
    &&& s[0] != '-'
    &&& s.last() != '-'
    &&& forall|i: int| 0 <= i < s.len() - 1 ==> !(#[trigger] s[i] == '-' && s[i + 1] == '-')
    &&& forall|i: int| 0 <= i < s.len() ==> ascii_lower(#[trigger] s[i]) == s[i]
}

pub open spec fn lower_fixed(s: Seq<char>) -> bool {
    forall|i: int| 0 <= i < s.len() ==> ascii_lower(#[trigger] s[i]) == s[i]
}

pub open spec fn no_dash(s: Seq<char>) -> bool {
    forall|i: int| 0 <= i < s.len() ==> #[trigger] s[i] != '-'
}

/// A piece of a slug: non-empty, without `'-'`, lowercase, alphanumeric.
pub open spec fn good_part(p: Seq<char>) -> bool {
    &&& p.len() > 0
    &&& no_dash(p)
    &&& lower_fixed(p)
    &&& forall|i: int| 0 <= i < p.len() ==> alnum(#[trigger] p[i])
}

/// `char::is_alphanumeric` holds of ASCII letters and digits.
pub open spec fn ascii_alnum() -> bool {
    forall|c: char| ('a' <= c <= 'z' || 'A' <= c <= 'Z' || '0' <= c <= '9') ==> #[trigger] alnum(c)
}

proof fn lemma_ascii_alnum()
    ensures
        ascii_alnum(),
{
    assert forall|c: char| ('a' <= c <= 'z' || 'A' <= c <= 'Z' || '0' <= c <= '9') implies #[trigger] alnum(c) by {
        assert((c as u32) < 128);
    }
}

proof fn lemma_slug_chars_shape(s: Seq<char>)
    ensures
        lower_fixed(slug_chars(s)),
        ascii_alnum() ==> forall|i: int|
            0 <= i < s.len() ==> slug_chars(s)[i] == '-' || alnum(#[trigger] slug_chars(s)[i]),
{
    let m = slug_chars(s);
    assert forall|i: int| 0 <= i < m.len() implies ascii_lower(#[trigger] m[i]) == m[i] by {
        let c = s[i];
        assert(m[i] == slug_char(c));
    }
    if ascii_alnum() {
        assert forall|i: int| 0 <= i < s.len() implies m[i] == '-' || alnum(#[trigger] m[i]) by {
            let c = s[i];
            assert(m[i] == slug_char(c));
            if alnum(c) && 'A' <= c <= 'Z' {
                assert('a' <= ascii_lower(c) <= 'z');
            }
        }
    }
}

proof fn lemma_split_parts(s: Seq<char>, alnum_too: bool)
    requires
        lower_fixed(s),
        alnum_too ==> forall|i: int| 0 <= i < s.len() ==> s[i] == '-' || alnum(#[trigger] s[i]),
    ensures
        forall|k: int|
            0 <= k < split_on(s, '-').len() ==> no_dash(#[trigger] split_on(s, '-')[k]) && lower_fixed(
                split_on(s, '-')[k],
            ) && (alnum_too ==> forall|i: int|
                0 <= i < split_on(s, '-')[k].len() ==> alnum(#[trigger] split_on(s, '-')[k][i])),
    decreases s.len(),
{
    crate::text::lemma_split_on_nonempty(s, '-');
    if s.len() > 0 {
        let d = s.drop_last();
        assert forall|i: int| 0 <= i < d.len() implies ascii_lower(#[trigger] d[i]) == d[i] by {
            assert(d[i] == s[i]);
        }
        if alnum_too {
            assert forall|i: int| 0 <= i < d.len() implies d[i] == '-' || alnum(#[trigger] d[i]) by {
                assert(d[i] == s[i]);
            }
        }
        lemma_split_parts(d, alnum_too);
        crate::text::lemma_split_on_nonempty(d, '-');
        let pre = split_on(d, '-');
        let p = split_on(s, '-');
        assert(s.last() == s[s.len() - 1]);
        assert forall|k: int| 0 <= k < p.len() implies no_dash(#[trigger] p[k]) && lower_fixed(p[k]) && (
        alnum_too ==> forall|i: int| 0 <= i < p[k].len() ==> alnum(#[trigger] p[k][i])) by {
            if s.last() != '-' && k == pre.len() - 1 {
                assert(p[k] == pre[k].push(s.last()));
                assert forall|i: int| 0 <= i < p[k].len() implies #[trigger] p[k][i] != '-' by {
                    if i < pre[k].len() {
                        assert(p[k][i] == pre[k][i]);
                    }
                }
                assert forall|i: int| 0 <= i < p[k].len() implies ascii_lower(#[trigger] p[k][i])
                    == p[k][i] by {
                    if i < pre[k].len() {
                        assert(p[k][i] == pre[k][i]);
                    }
                }
                if alnum_too {
                    assert forall|i: int| 0 <= i < p[k].len() implies alnum(#[trigger] p[k][i]) by {
                        if i < pre[k].len() {
                            assert(p[k][i] == pre[k][i]);
                        }
                    }
                }
            } else if k < pre.len() {
                assert(p[k] == pre[k]);
            } else {
                assert(p[k] =~= Seq::<char>::empty());
            }
        }
    }
}

proof fn lemma_nonempty_parts(ps: Seq<Seq<char>>, alnum_too: bool)
    requires
        forall|k: int|
            0 <= k < ps.len() ==> no_dash(#[trigger] ps[k]) && lower_fixed(ps[k]) && (alnum_too
                ==> forall|i: int| 0 <= i < ps[k].len() ==> alnum(#[trigger] ps[k][i])),
    ensures
        forall|k: int|
            0 <= k < nonempty_parts(ps).len() ==> (#[trigger] nonempty_parts(ps)[k]).len() > 0
                && no_dash(nonempty_parts(ps)[k]) && lower_fixed(nonempty_parts(ps)[k]) && (alnum_too
                ==> good_part(nonempty_parts(ps)[k])),
    decreases ps.len(),
{
    if ps.len() > 0 {
        let d = ps.drop_last();
        assert forall|k: int| 0 <= k < d.len() implies no_dash(#[trigger] d[k]) && lower_fixed(d[k]) && (
        alnum_too ==> forall|i: int| 0 <= i < d[k].len() ==> alnum(#[trigger] d[k][i])) by {
            assert(d[k] == ps[k]);
        }
        lemma_nonempty_parts(d, alnum_too);
        assert(ps.last() == ps[ps.len() - 1]);
        let nd = nonempty_parts(d);
        let n = nonempty_parts(ps);
        assert forall|k: int| 0 <= k < n.len() implies (#[trigger] n[k]).len() > 0 && no_dash(n[k])
            && lower_fixed(n[k]) && (alnum_too ==> good_part(n[k])) by {
            if k < nd.len() {
                assert(n[k] == nd[k]);
            } else {
                assert(n[k] == ps.last());
            }
        }
    }
}

proof fn lemma_join_shape(ps: Seq<Seq<char>>)
    requires
        ps.len() > 0,
        forall|k: int|
            0 <= k < ps.len() ==> (#[trigger] ps[k]).len() > 0 && no_dash(ps[k]) && lower_fixed(ps[k]),
    ensures
        is_slug(join_with(ps, '-')),
        join_with(ps, '-')[0] == ps[0][0],
    decreases ps.len(),
{
    let j = join_with(ps, '-');
    if ps.len() == 1 {
        assert(ps[0][0] != '-');
        assert(ps[0].last() == ps[0][ps[0].len() - 1]);
    } else {
        let d = ps.drop_last();
        assert forall|k: int| 0 <= k < d.len() implies (#[trigger] d[k]).len() > 0 && no_dash(d[k])
            && lower_fixed(d[k]) by {
            assert(d[k] == ps[k]);
        }
        lemma_join_shape(d);
        let a = join_with(d, '-');
        let l = ps.last();
        assert(l == ps[ps.len() - 1]);
        assert(j == a + seq!['-'] + l);
        assert(j[0] == a[0]);
        assert(l[0] != '-');
        assert(j.last() == l[l.len() - 1]);
        assert forall|i: int| 0 <= i < j.len() - 1 implies !(#[trigger] j[i] == '-' && j[i + 1] == '-') by {
            if i < a.len() - 1 {
                assert(j[i] == a[i] && j[i + 1] == a[i + 1]);
            } else if i == a.len() - 1 {
                assert(j[i] == a.last());
            } else if i == a.len() {
                assert(j[i + 1] == l[0]);
            } else {
                assert(j[i] == l[i - a.len() - 1]);
            }
        }
        assert forall|i: int| 0 <= i < j.len() implies ascii_lower(#[trigger] j[i]) == j[i] by {
            if i < a.len() {
                assert(j[i] == a[i]);
            } else if i > a.len() {
                assert(j[i] == l[i - a.len() - 1]);
            }
        }
    }
}

/// `slugify` always gives a well-formed slug.
pub proof fn law_slugify_shape(name: Seq<char>)
    ensures
        is_slug(slugify_spec(name)),
{
    let m = slug_chars(name);
    lemma_slug_chars_shape(name);
    lemma_split_parts(m, false);
    let np = nonempty_parts(split_on(m, '-'));
    lemma_nonempty_parts(split_on(m, '-'), false);
    if np.len() > 0 {
        lemma_join_shape(np);
    } else {
        reveal_strlit("custom-theme");
        let s = default_slug();
        assert forall|i: int| 0 <= i < s.len() - 1 implies !(#[trigger] s[i] == '-' && s[i + 1] == '-') by {}
        assert forall|i: int| 0 <= i < s.len() implies ascii_lower(#[trigger] s[i]) == s[i] by {}
    }
}

proof fn lemma_split_join_dash(ps: Seq<Seq<char>>)
    requires
        ps.len() >= 1,
        forall|k: int| 0 <= k < ps.len() ==> no_dash(#[trigger] ps[k]),
    ensures
        split_on(join_with(ps, '-'), '-') == ps,
    decreases ps.len(),
{
    if ps.len() == 1 {
        crate::text::lemma_split_no_sep(ps[0], '-');
        assert(seq![ps[0]] =~= ps);
    } else {
        let d = ps.drop_last();
        assert forall|k: int| 0 <= k < d.len() implies no_dash(#[trigger] d[k]) by {
            assert(d[k] == ps[k]);
        }
        lemma_split_join_dash(d);
        assert(no_dash(ps[ps.len() - 1]));
        crate::text::lemma_split_no_sep(ps.last(), '-');
        crate::text::lemma_split_concat(join_with(d, '-'), ps.last(), '-');
        assert(d + seq![ps.last()] =~= ps);
    }
}

proof fn lemma_nonempty_parts_keep(ps: Seq<Seq<char>>)
    requires
        forall|k: int| 0 <= k < ps.len() ==> (#[trigger] ps[k]).len() > 0,
    ensures
        nonempty_parts(ps) == ps,
    decreases ps.len(),
{
    if ps.len() > 0 {
        let d = ps.drop_last();
        assert forall|k: int| 0 <= k < d.len() implies (#[trigger] d[k]).len() > 0 by {
            assert(d[k] == ps[k]);
        }
        lemma_nonempty_parts_keep(d);
        assert(ps.last() == ps[ps.len() - 1]);
        assert(d.push(ps.last()) =~= ps);
    }
}

proof fn lemma_join_chars(ps: Seq<Seq<char>>)
    requires
        ps.len() > 0,
        forall|k: int| 0 <= k < ps.len() ==> good_part(#[trigger] ps[k]),
    ensures
        forall|i: int|
            0 <= i < join_with(ps, '-').len() ==> #[trigger] join_with(ps, '-')[i] == '-' || alnum(
                join_with(ps, '-')[i],
            ),
    decreases ps.len(),
{
    if ps.len() > 1 {
        let d = ps.drop_last();
        assert forall|k: int| 0 <= k < d.len() implies good_part(#[trigger] d[k]) by {
            assert(d[k] == ps[k]);
        }
        lemma_join_chars(d);
        let a = join_with(d, '-');
        let l = ps.last();
        assert(good_part(ps[ps.len() - 1]));
        let j = join_with(ps, '-');
        assert forall|i: int| 0 <= i < j.len() implies #[trigger] j[i] == '-' || alnum(j[i]) by {
            if i < a.len() {
                assert(j[i] == a[i]);
            } else if i > a.len() {
                assert(j[i] == l[i - a.len() - 1]);
            }
        }
    } else {
        assert(good_part(ps[0]));
    }
}

proof fn lemma_slug_chars_fixed(s: Seq<char>)
    requires
        lower_fixed(s),
        forall|i: int| 0 <= i < s.len() ==> #[trigger] s[i] == '-' || alnum(s[i]),
    ensures
        slug_chars(s) == s,
{
    assert forall|i: int| 0 <= i < s.len() implies slug_chars(s)[i] == s[i] by {
        assert(ascii_lower(s[i]) == s[i]);
    }
    assert(slug_chars(s) =~= s);
}

/// Slugifying a slug changes nothing.
pub proof fn law_slugify_idempotent(name: Seq<char>)
    ensures
        slugify_spec(slugify_spec(name)) == slugify_spec(name),
{
    lemma_ascii_alnum();
    let s = slugify_spec(name);
    let m = slug_chars(name);
    lemma_slug_chars_shape(name);
    lemma_split_parts(m, true);
    let np = nonempty_parts(split_on(m, '-'));
    lemma_nonempty_parts(split_on(m, '-'), true);
    law_slugify_shape(name);
    if np.len() > 0 {
        lemma_join_chars(np);
        lemma_slug_chars_fixed(s);
        assert forall|k: int| 0 <= k < np.len() implies no_dash(#[trigger] np[k]) by {
            assert(good_part(np[k]));
        }
        lemma_split_join_dash(np);
        assert forall|k: int| 0 <= k < np.len() implies (#[trigger] np[k]).len() > 0 by {
            assert(good_part(np[k]));
        }
        lemma_nonempty_parts_keep(np);
    } else {
        reveal_strlit("custom-theme");
        reveal_strlit("custom");
        reveal_strlit("theme");
        let c = "custom"@;
        let t = "theme"@;
        assert(s =~= c + seq!['-'] + t);
        let ps = seq![c, t];
        assert(ps.drop_last() =~= seq![c]);
        assert(join_with(seq![c], '-') == c);
        assert(ps.last() == t);
        assert(join_with(ps, '-') == s);
        assert forall|k: int| 0 <= k < ps.len() implies good_part(#[trigger] ps[k]) by {
            if k == 0 {
                assert(ps[k] == c);
                assert forall|i: int| 0 <= i < c.len() implies alnum(#[trigger] c[i]) by {
                    assert('a' <= c[i] <= 'z');
                }
            } else {
                assert(ps[k] == t);
                assert forall|i: int| 0 <= i < t.len() implies alnum(#[trigger] t[i]) by {
                    assert('a' <= t[i] <= 'z');
                }
            }
        }
        lemma_join_chars(ps);
        lemma_slug_chars_fixed(s);
        lemma_split_join_dash(ps);
        lemma_nonempty_parts_keep(ps);
    }
}


/// A character that is `-` or alphanumeric is neither `/` nor `.`.
proof fn lemma_plain_char(c: char)
    requires
        c == '-' || alnum(c),
    ensures
        c != '/' && c != '.',
{
}

/// The slug characters of a name hold no `/` and no `.`.
pub proof fn lemma_slug_chars_plain(s: Seq<char>)
    ensures
        slug_chars(s).len() == s.len(),
        forall|i: int| 0 <= i < s.len() ==> #[trigger] slug_chars(s)[i] != '/' && slug_chars(s)[i] != '.',
{
    lemma_ascii_alnum();
    lemma_slug_chars_shape(s);
    assert forall|i: int| 0 <= i < s.len() implies #[trigger] slug_chars(s)[i] != '/' && slug_chars(s)[i] != '.' by {
        lemma_plain_char(slug_chars(s)[i]);
    }
}

/// A slug is not empty and holds no `/` and no `.`.
pub proof fn lemma_slugify_plain(name: Seq<char>)
    ensures
        slugify_spec(name).len() > 0,
        forall|i: int|
            0 <= i < slugify_spec(name).len() ==> #[trigger] slugify_spec(name)[i] != '/' && slugify_spec(name)[i]
                != '.',
{
    law_slugify_shape(name);
    lemma_ascii_alnum();
    let s = slugify_spec(name);
    let m = slug_chars(name);
    lemma_slug_chars_shape(name);
    lemma_split_parts(m, true);
    let np = nonempty_parts(split_on(m, '-'));
    lemma_nonempty_parts(split_on(m, '-'), true);
    if np.len() > 0 {
        assert forall|k: int| 0 <= k < np.len() implies good_part(#[trigger] np[k]) by {}
        lemma_join_chars(np);
    } else {
        reveal_strlit("custom-theme");
    }
    assert forall|i: int| 0 <= i < s.len() implies #[trigger] s[i] != '/' && s[i] != '.' by {
        if np.len() > 0 {
            lemma_plain_char(s[i]);
        }
    }
}

} // verus!
