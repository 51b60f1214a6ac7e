//! The list of installed themes: one entry per theme name, the first root
//! that holds a name winning, sorted case-insensitively by name.
use vstd::prelude::*;
use crate::order::{key_before, lemma_stable_order_onto, lemma_text_le_refl, stable_order, stable_sort_order, text_le};
use crate::palette::{opt_view, opt_views, string_views};
use crate::paths::{extension, extension_of, file_name, file_name_of, file_stem, file_stem_of};
use crate::text::{chars_of, eq_chars, string_of, views};
use crate::installed::{accepted_by, dir_accepted, dir_found, file_found, found_dir, found_file, listed, listed_dir, DirFilter};
use crate::probe::dirs_listed;

verus! {

/// An installed theme as the theme browser lists it.
pub struct InstalledTheme {
    /// `kind:name`.
    pub id: String,
    pub name: String,
    pub kind: String,
    pub path: String,
    pub preview: Option<String>,
    /// Representative colors (KDE color schemes, GTK css, decorations) for a mock window.
    pub palette: Option<Vec<String>>,
    /// Sample images (icons, rendered cursors, titlebar buttons).
    pub samples: Option<Vec<String>>,
}

/// A directory or file found under a theme root, with what was read from it.
pub struct Found {
    pub path: String,
    pub preview: Option<String>,
    pub palette: Option<Vec<String>>,
    pub samples: Option<Vec<String>>,
}

/// `str::to_lowercase` (Unicode lowercase mapping) of `s`.
pub uninterp spec fn lowercase(s: Seq<char>) -> Seq<char>;

/// `str::to_lowercase`. Its result is named `lowercase`; the Unicode case
/// tables are not written out.
#[verifier::external_body]
fn to_lowercase(s: &str) -> (r: String)
    ensures
        r@ == lowercase(s@),
{
    s.to_lowercase()
}

pub open spec fn or_empty(o: Option<Seq<char>>) -> Seq<char> {
    match o {
        Some(n) => n,
        None => Seq::empty(),
    }
}

/// How an entry is named: directories by their file name, files by their stem.
pub open spec fn entry_name(f: Found, by_stem: bool) -> Seq<char> {
    if by_stem {
        or_empty(file_stem(f.path@))
    } else {
        or_empty(file_name(f.path@))
    }
}

/// Entry `i` is listed: it passes the extension filter and, when names must
/// be distinct, its name is not empty and no earlier entry that passed the
/// filter had that name.
pub open spec fn admitted(fs: Seq<Found>, i: int, by_stem: bool, ext: Option<Seq<char>>, distinct: bool) -> bool {
    &&& ext matches Some(e) ==> extension(fs[i].path@) == Some(e)
    &&& distinct ==> entry_name(fs[i], by_stem).len() > 0
    &&& distinct ==> forall|j: int|
        0 <= j < i ==> !((ext matches Some(e) ==> extension(fs[j].path@) == Some(e)) && entry_name(
            #[trigger] fs[j],
            by_stem,
        ) == entry_name(fs[i], by_stem))
}

/// Positions of the listed entries, in order.
pub open spec fn admitted_indices(fs: Seq<Found>, by_stem: bool, ext: Option<Seq<char>>, distinct: bool) -> Seq<int>
    decreases fs.len(),
{
    if fs.len() == 0 {
        Seq::empty()
    } else {
        let pre = admitted_indices(fs.drop_last(), by_stem, ext, distinct);
        if admitted(fs, fs.len() - 1, by_stem, ext, distinct) {
            pre.push(fs.len() - 1)
        } else {
            pre
        }
    }
}

/// `t` is the listing of entry `f` named `name` of kind `kind`.
pub open spec fn theme_of(t: InstalledTheme, kind: Seq<char>, name: Seq<char>, f: Found) -> bool {
    &&& t.id@ == kind + seq![':'] + name
    &&& t.name@ == name
    &&& t.kind@ == kind
    &&& t.path@ == f.path@
    &&& opt_view(t.preview) == opt_view(f.preview)
    &&& opt_views(t.palette) == opt_views(f.palette)
    &&& opt_views(t.samples) == opt_views(f.samples)
}

/// `r` lists the admitted entries, each as `theme_of` them, in a stable
/// order by `lowercase` name.
pub open spec fn listing(
    r: Seq<InstalledTheme>,
    kind: Seq<char>,
    fs: Seq<Found>,
    by_stem: bool,
    ext: Option<Seq<char>>,
    distinct: bool,
) -> bool {
    let idx = admitted_indices(fs, by_stem, ext, distinct);
    let keys = idx.map_values(|i: int| lowercase(entry_name(fs[i], by_stem)));
    &&& r.len() == idx.len()
    &&& exists|order: Seq<usize>|
        stable_order(keys, order) && forall|i: int|
            0 <= i < r.len() ==> theme_of(
                #[trigger] r[i],
                kind,
                entry_name(fs[idx[order[i] as int]], by_stem),
                fs[idx[order[i] as int]],
            )
}

pub(crate) fn clone_opt_string(o: &Option<String>) -> (r: Option<String>)
    ensures
        opt_view(r) == opt_view(*o),
{
    match o {
        Some(s) => Some(s.clone()),
        None => None,
    }
}

fn clone_strings(v: &Vec<String>) -> (r: Vec<String>)
    ensures
        string_views(r@) == string_views(v@),
{
    let mut r: Vec<String> = Vec::new();
    let mut i: usize = 0;
    while i < v.len()
        invariant
            i <= v.len(),
            string_views(r@) == string_views(v@).take(i as int),
        decreases v.len() - i,
    {
        let ghost before = string_views(r@);
        r.push(v[i].clone());
        assert(string_views(r@) =~= before.push(v@[i as int]@));
        assert(string_views(v@).take(i + 1) =~= string_views(v@).take(i as int).push(v@[i as int]@));
        i += 1;
    }
    assert(string_views(v@).take(v.len() as int) =~= string_views(v@));
    r
}

fn clone_opt_strings(o: &Option<Vec<String>>) -> (r: Option<Vec<String>>)
    ensures
        opt_views(r) == opt_views(*o),
{
    match o {
        Some(v) => Some(clone_strings(v)),
        None => None,
    }
}

fn clone_theme(t: &InstalledTheme) -> (r: InstalledTheme)
    ensures
        r.id@ == t.id@,
        r.name@ == t.name@,
        r.kind@ == t.kind@,
        r.path@ == t.path@,
        opt_view(r.preview) == opt_view(t.preview),
        opt_views(r.palette) == opt_views(t.palette),
        opt_views(r.samples) == opt_views(t.samples),
{
    InstalledTheme {
        id: t.id.clone(),
        name: t.name.clone(),
        kind: t.kind.clone(),
        path: t.path.clone(),
        preview: clone_opt_string(&t.preview),
        palette: clone_opt_strings(&t.palette),
        samples: clone_opt_strings(&t.samples),
    }
}

fn entry_name_exec(f: &Found, by_stem: bool) -> (r: Vec<char>)
    ensures
        r@ == entry_name(*f, by_stem),
{
    let n = if by_stem {
        file_stem_of(f.path.as_str())
    } else {
        file_name_of(f.path.as_str())
    };
    match n {
        Some(x) => x,
        None => Vec::new(),
    }
}

fn ext_ok(f: &Found, ext: &Option<String>) -> (r: bool)
    ensures
        r == (opt_view(*ext) matches Some(e) ==> extension(f.path@) == Some(e)),
{
    match ext {
        None => true,
        Some(e) => match extension_of(f.path.as_str()) {
            Some(x) => eq_chars(&x, &chars_of(e.as_str())),
            None => false,
        },
    }
}

/// Lists the entries found under a kind's roots (in root order, then
/// listing order): directories named by their file name (`by_stem` false) or
/// files named by their stem and kept only with extension `ext`.
pub fn scan_entries(kind: &str, found: &Vec<Found>, by_stem: bool, ext: &Option<String>, distinct: bool) -> (r: Vec<
    InstalledTheme,
>)
    ensures
        listing(r@, kind@, found@, by_stem, opt_view(*ext), distinct),
{
    let ghost fs = found@;
    let ghost e = opt_view(*ext);
    // names of the entries that pass the extension filter, or empty
    let mut names: Vec<Vec<char>> = Vec::new();
    let mut oks: Vec<bool> = Vec::new();
    let mut idx: Vec<usize> = Vec::new();
    let mut i: usize = 0;
    while i < found.len()
        invariant
            i <= found.len(),
            fs == found@,
            e == opt_view(*ext),
            names.len() == i,
            oks.len() == i,
            forall|j: int| 0 <= j < i ==> (#[trigger] names@[j])@ == entry_name(fs[j], by_stem),
            forall|j: int|
                0 <= j < i ==> #[trigger] oks@[j] == (e matches Some(x) ==> extension(
                    fs[j].path@,
                ) == Some(x)),
            idx@.map_values(|k: usize| k as int) == admitted_indices(fs.take(i as int), by_stem, e, distinct),
            forall|j: int| 0 <= j < idx.len() ==> (#[trigger] idx@[j]) < i,
        decreases found.len() - i,
    {
        let n = entry_name_exec(&found[i], by_stem);
        let ok = ext_ok(&found[i], ext);
        let mut fresh = ok && (!distinct || n.len() > 0);
        let mut j: usize = 0;
        while distinct && j < i && fresh
            invariant
                j <= i,
                i < found.len(),
                names.len() == i,
                oks.len() == i,
                fresh ==> ok && (!distinct || n.len() > 0),
                !distinct ==> fresh == ok,
                !(ok && n.len() > 0) ==> !fresh || !distinct,
                fresh && distinct ==> forall|k: int| 0 <= k < j ==> !(oks@[k] && names@[k]@ == n@),
                (ok && n.len() > 0 && !fresh && distinct) ==> exists|k: int|
                    0 <= k < j && oks@[k] && names@[k]@ == n@,
            decreases i - j,
        {
            if oks[j] && eq_chars(&names[j], &n) {
                fresh = false;
            }
            j += 1;
        }
        proof {
            let t = fs.take(i + 1);
            assert(t.drop_last() =~= fs.take(i as int));
            assert forall|k: int| 0 <= k < i + 1 implies t[k] == fs[k] by {}
            assert(t[i as int] == fs[i as int]);
            if fresh && distinct {
                assert(j == i);
                assert forall|k: int| 0 <= k < i implies !((e matches Some(x) ==> extension(
                    t[k].path@,
                ) == Some(x)) && entry_name(#[trigger] t[k], by_stem) == entry_name(t[i as int], by_stem)) by {
                    assert(t[k] == fs[k]);
                    assert(names@[k]@ == entry_name(fs[k], by_stem));
                    assert(oks@[k] == (e matches Some(x) ==> extension(fs[k].path@) == Some(x)));
                }
                assert(admitted(t, i as int, by_stem, e, distinct));
            } else if fresh {
                assert(admitted(t, i as int, by_stem, e, distinct));
            } else {
                if ok && n.len() > 0 && distinct {
                    let k = choose|k: int| 0 <= k < j && oks@[k] && names@[k]@ == n@;
                    assert(t[k] == fs[k]);
                    assert(names@[k]@ == entry_name(fs[k], by_stem));
                    assert(oks@[k] == (e matches Some(x) ==> extension(fs[k].path@) == Some(x)));
                    assert(!admitted(t, i as int, by_stem, e, distinct));
                } else {
                    assert(!admitted(t, i as int, by_stem, e, distinct));
                }
            }
        }
        if fresh {
            idx.push(i);
        }
        names.push(n);
        oks.push(ok);
        proof {
            assert(idx@.map_values(|k: usize| k as int) =~= admitted_indices(fs.take(i + 1), by_stem, e, distinct));
        }
        i += 1;
    }
    assert(fs.take(found.len() as int) =~= fs);
    // themes in admission order, and their sort keys
    let mut themes: Vec<InstalledTheme> = Vec::new();
    let mut keys: Vec<Vec<char>> = Vec::new();
    let kind_chars = chars_of(kind);
    let mut a: usize = 0;
    let ghost ix = admitted_indices(fs, by_stem, e, distinct);
    while a < idx.len()
        invariant
            a <= idx.len(),
            fs == found@,
            e == opt_view(*ext),
            kind_chars@ == kind@,
            ix == admitted_indices(fs, by_stem, e, distinct),
            idx@.map_values(|k: usize| k as int) == ix,
            forall|j: int| 0 <= j < idx.len() ==> (#[trigger] idx@[j]) < found.len(),
            forall|j: int| 0 <= j < names.len() ==> (#[trigger] names@[j])@ == entry_name(fs[j], by_stem),
            names.len() == found.len(),
            themes.len() == a,
            keys.len() == a,
            forall|j: int|
                0 <= j < a ==> theme_of(
                    #[trigger] themes@[j],
                    kind@,
                    entry_name(fs[ix[j]], by_stem),
                    fs[ix[j]],
                ),
            forall|j: int| 0 <= j < a ==> (#[trigger] keys@[j])@ == lowercase(entry_name(fs[ix[j]], by_stem)),
        decreases idx.len() - a,
    {
        let k = idx[a];
        assert(ix[a as int] == k as int);
        let f = &found[k];
        let name = &names[k];
        let mut id = kind_chars.clone();
        assert(id@ == kind@);
        id.push(':');
        crate::text::extend_chars(&mut id, name);
        let name_s = string_of(name);
        let t = InstalledTheme {
            id: string_of(&id),
            name: string_of(name),
            kind: string_of(&kind_chars),
            path: f.path.clone(),
            preview: clone_opt_string(&f.preview),
            palette: clone_opt_strings(&f.palette),
            samples: clone_opt_strings(&f.samples),
        };
        assert(names@[k as int]@ == entry_name(fs[k as int], by_stem));
        assert(id@ =~= kind@ + seq![':'] + entry_name(fs[ix[a as int]], by_stem));
        assert(theme_of(t, kind@, entry_name(fs[ix[a as int]], by_stem), fs[ix[a as int]]));
        let ghost old_themes = themes@;
        let ghost old_keys = keys@;
        themes.push(t);
        keys.push(chars_of(to_lowercase(name_s.as_str()).as_str()));
        assert forall|j: int| 0 <= j < a + 1 implies theme_of(
            #[trigger] themes@[j],
            kind@,
            entry_name(fs[ix[j]], by_stem),
            fs[ix[j]],
        ) by {
            if j < a {
                assert(themes@[j] == old_themes[j]);
            }
        }
        assert forall|j: int| 0 <= j < a + 1 implies (#[trigger] keys@[j])@ == lowercase(
            entry_name(fs[ix[j]], by_stem),
        ) by {
            if j < a {
                assert(keys@[j] == old_keys[j]);
            }
        }
        a += 1;
    }
    let order = stable_sort_order(&keys);
    let ghost ks = keys@.map_values(|k: Vec<char>| k@);
    let ghost want_keys = ix.map_values(|i: int| lowercase(entry_name(fs[i], by_stem)));
    assert(ks =~= want_keys);
    let mut out: Vec<InstalledTheme> = Vec::new();
    let mut b: usize = 0;
    while b < order.len()
        invariant
            b <= order.len(),
            order.len() == themes.len(),
            stable_order(ks, order@),
            ks.len() == themes.len(),
            out.len() == b,
            forall|j: int|
                0 <= j < themes.len() ==> theme_of(
                    #[trigger] themes@[j],
                    kind@,
                    entry_name(fs[ix[j]], by_stem),
                    fs[ix[j]],
                ),
            forall|j: int|
                0 <= j < b ==> theme_of(
                    #[trigger] out@[j],
                    kind@,
                    entry_name(fs[ix[order@[j] as int]], by_stem),
                    fs[ix[order@[j] as int]],
                ),
        decreases order.len() - b,
    {
        let o = order[b];
        assert(o < ks.len());
        out.push(clone_theme(&themes[o]));
        b += 1;
    }
    assert(listing(out@, kind@, fs, by_stem, e, distinct));
    out
}

// ---------------------------------------------------------------- walking the roots

/// A root's entry is a candidate: with `dirs`, a directory whose name does
/// not start with `.`; else a file with extension `ext`.
pub open spec fn keeps(p: Seq<char>, dirs: bool, ext: Seq<char>) -> bool {
    if dirs {
        listed(p)
    } else {
        extension(p) == Some(ext)
    }
}

/// The candidates among the entries `raw` of one root, in order.
pub open spec fn kept_entries(raw: Seq<Seq<char>>, dirs: bool, ext: Seq<char>) -> Seq<Seq<char>>
    decreases raw.len(),
{
    if raw.len() == 0 {
        Seq::empty()
    } else {
        let pre = kept_entries(raw.drop_last(), dirs, ext);
        if keeps(raw.last(), dirs, ext) {
            pre.push(raw.last())
        } else {
            pre
        }
    }
}

/// The candidates under all roots, root by root; `raws[a]` holds the
/// entries listed for root `a`.
pub open spec fn candidates(raws: Seq<Seq<Seq<char>>>, dirs: bool, ext: Seq<char>) -> Seq<Seq<char>>
    decreases raws.len(),
{
    if raws.len() == 0 {
        Seq::empty()
    } else {
        candidates(raws.drop_last(), dirs, ext) + kept_entries(raws.last(), dirs, ext)
    }
}

/// A candidate's name: a directory's file name, a file's stem.
pub open spec fn cand_name(p: Seq<char>, dirs: bool) -> Seq<char> {
    if dirs {
        or_empty(file_name(p))
    } else {
        or_empty(file_stem(p))
    }
}

/// Candidate `i` is taken: it passed the filter (`oks[i]`), has a name, and
/// no earlier candidate that passed had that name.
pub open spec fn first_of_name(cs: Seq<Seq<char>>, oks: Seq<bool>, dirs: bool, i: int) -> bool {
    &&& oks[i]
    &&& cand_name(cs[i], dirs).len() > 0
    &&& forall|j: int| 0 <= j < i ==> !(oks[j] && cand_name(#[trigger] cs[j], dirs) == cand_name(cs[i], dirs))
}

/// The positions of the taken candidates among the first `n`, in order.
pub open spec fn taken(cs: Seq<Seq<char>>, oks: Seq<bool>, dirs: bool, n: nat) -> Seq<int>
    decreases n,
{
    if n == 0 {
        Seq::empty()
    } else {
        let pre = taken(cs, oks, dirs, (n - 1) as nat);
        if first_of_name(cs, oks, dirs, n - 1) {
            pre.push(n - 1)
        } else {
            pre
        }
    }
}

proof fn lemma_taken_push(cs: Seq<Seq<char>>, oks: Seq<bool>, dirs: bool, c: Seq<char>, ok: bool, n: nat)
    requires
        n <= cs.len(),
        cs.len() == oks.len(),
    ensures
        taken(cs.push(c), oks.push(ok), dirs, n) == taken(cs, oks, dirs, n),
        forall|k: int| 0 <= k < taken(cs, oks, dirs, n).len() ==> 0 <= #[trigger] taken(cs, oks, dirs, n)[k] < n,
    decreases n,
{
    if n > 0 {
        lemma_taken_push(cs, oks, dirs, c, ok, (n - 1) as nat);
        let i = n - 1;
        assert forall|j: int| 0 <= j <= i implies cs.push(c)[j] == cs[j] && oks.push(ok)[j] == oks[j] by {}
        assert(first_of_name(cs.push(c), oks.push(ok), dirs, i) == first_of_name(cs, oks, dirs, i));
    }
}

/// The roots were walked as the probes answered: `raws[a]` is what the
/// lister gave for root `a`, and `oks[i]` what the filter gave for
/// candidate `i` (a directory not starting with `.`).
pub open spec fn dir_walk<S: Fn(&String) -> Vec<String>, P: Fn(&String) -> bool>(
    list_dirs: S,
    present: P,
    filter: DirFilter,
    roots: Seq<Seq<char>>,
    raws: Seq<Seq<Seq<char>>>,
    oks: Seq<bool>,
) -> bool {
    let cs = candidates(raws, true, Seq::empty());
    &&& raws.len() == roots.len()
    &&& forall|a: int| 0 <= a < roots.len() ==> dirs_listed(list_dirs, roots[a], #[trigger] raws[a])
    &&& oks.len() == cs.len()
    &&& forall|i: int| 0 <= i < cs.len() ==> accepted_by(filter, present, cs[i], #[trigger] oks[i])
}

/// `found` holds, for each taken directory in order, what `found_dir` gives
/// for it.
pub open spec fn dirs_found<
    T: Fn(&String) -> Option<String>,
    F: Fn(&String) -> bool,
    D: Fn(&String) -> bool,
    L: Fn(&String) -> Vec<String>,
    S: Fn(&String) -> Vec<String>,
    R: Fn(&String) -> String,
    C: Fn(&String) -> Option<String>,
    X: Fn(&String) -> Option<String>,
>(
    kind: Seq<char>,
    cs: Seq<Seq<char>>,
    oks: Seq<bool>,
    read_text: T,
    is_file: F,
    is_dir: D,
    list_files: L,
    list_dirs: S,
    render: R,
    canonical: C,
    render_cursor: X,
    found: Seq<Found>,
) -> bool {
    let ix = taken(cs, oks, true, cs.len());
    &&& found.len() == ix.len()
    &&& forall|k: int|
        0 <= k < ix.len() ==> dir_found(
            kind,
            cs[ix[k]],
            read_text,
            is_file,
            is_dir,
            list_files,
            list_dirs,
            render,
            canonical,
            render_cursor,
            #[trigger] found[k],
        )
}

fn name_seen(names: &Vec<Vec<char>>, oks: &Vec<bool>, n: &Vec<char>) -> (r: bool)
    requires
        names.len() == oks.len(),
    ensures
        r == exists|j: int| 0 <= j < names.len() && oks@[j] && names@[j]@ == n@,
{
    let mut j: usize = 0;
    while j < names.len()
        invariant
            j <= names.len(),
            names.len() == oks.len(),
            forall|k: int| 0 <= k < j ==> !(oks@[k] && names@[k]@ == n@),
        decreases names.len() - j,
    {
        if oks[j] && eq_chars(&names[j], n) {
            return true;
        }
        j += 1;
    }
    false
}

fn opt_chars(o: Option<Vec<char>>) -> (r: Vec<char>)
    ensures
        r@ == or_empty(match o {
            Some(v) => Some(v@),
            None => None,
        }),
{
    match o {
        Some(v) => v,
        None => Vec::new(),
    }
}

/// The themes of `kind` that are directories under `roots`: each root's
/// directories (as `list_dirs` lists them) whose names do not start with
/// `.`, passing `filter` (asked of each such directory once), the first
/// directory of each name kept, looked at with `found_dir` (only the kept
/// ones), and listed by name.
pub fn scan<
    T: Fn(&String) -> Option<String>,
    F: Fn(&String) -> bool,
    D: Fn(&String) -> bool,
    L: Fn(&String) -> Vec<String>,
    S: Fn(&String) -> Vec<String>,
    R: Fn(&String) -> String,
    C: Fn(&String) -> Option<String>,
    X: Fn(&String) -> Option<String>,
    P: Fn(&String) -> bool,
>(
    kind: &str,
    roots: &Vec<String>,
    filter: &DirFilter,
    read_text: &T,
    is_file: &F,
    is_dir: &D,
    list_files: &L,
    list_dirs: &S,
    render: &R,
    canonical: &C,
    render_cursor: &X,
    present: &P,
) -> (r: Vec<InstalledTheme>)
    requires
        forall|s: &String| call_requires(*read_text, (s,)),
        forall|s: &String| call_requires(*is_file, (s,)),
        forall|s: &String| call_requires(*is_dir, (s,)),
        forall|s: &String| call_requires(*list_files, (s,)),
        forall|s: &String| call_requires(*list_dirs, (s,)),
        forall|s: &String| call_requires(*render, (s,)),
        forall|s: &String| call_requires(*canonical, (s,)),
        forall|s: &String| call_requires(*render_cursor, (s,)),
        forall|s: &String| call_requires(*present, (s,)),
    ensures
        exists|raws: Seq<Seq<Seq<char>>>, oks: Seq<bool>, found: Seq<Found>|
            #![trigger dir_walk(*list_dirs, *present, *filter, string_views(roots@), raws, oks), listing(r@, kind@, found, false, None, true)]
            dir_walk(*list_dirs, *present, *filter, string_views(roots@), raws, oks) && dirs_found(
                kind@,
                candidates(raws, true, Seq::empty()),
                oks,
                *read_text,
                *is_file,
                *is_dir,
                *list_files,
                *list_dirs,
                *render,
                *canonical,
                *render_cursor,
                found,
            ) && listing(r@, kind@, found, false, None, true),
{
    let ghost rs = string_views(roots@);
    let ghost e = Seq::<char>::empty();
    let ghost mut raws: Seq<Seq<Seq<char>>> = Seq::empty();
    let ghost mut cs: Seq<Seq<char>> = Seq::empty();
    let mut names: Vec<Vec<char>> = Vec::new();
    let mut oks: Vec<bool> = Vec::new();
    let mut found: Vec<Found> = Vec::new();
    let mut a: usize = 0;
    while a < roots.len()
        invariant
            a <= roots.len(),
            rs == string_views(roots@),
            raws.len() == a,
            forall|x: int| 0 <= x < a ==> dirs_listed(*list_dirs, rs[x], #[trigger] raws[x]),
            cs == candidates(raws, true, e),
            names.len() == cs.len(),
            oks.len() == cs.len(),
            forall|i: int| 0 <= i < cs.len() ==> (#[trigger] names@[i])@ == cand_name(cs[i], true),
            forall|i: int| 0 <= i < cs.len() ==> accepted_by(*filter, *present, cs[i], #[trigger] oks@[i]),
            dirs_found(kind@, cs, oks@, *read_text, *is_file, *is_dir, *list_files, *list_dirs, *render, *canonical, *render_cursor, found@),
            forall|s: &String| call_requires(*read_text, (s,)),
            forall|s: &String| call_requires(*is_file, (s,)),
            forall|s: &String| call_requires(*is_dir, (s,)),
            forall|s: &String| call_requires(*list_files, (s,)),
            forall|s: &String| call_requires(*list_dirs, (s,)),
            forall|s: &String| call_requires(*render, (s,)),
            forall|s: &String| call_requires(*canonical, (s,)),
            forall|s: &String| call_requires(*render_cursor, (s,)),
            forall|s: &String| call_requires(*present, (s,)),
        decreases roots.len() - a,
    {
        let raw = list_dirs(&roots[a]);
        let ghost rv = string_views(raw@);
        assert(rs[a as int] == roots@[a as int]@);
        assert(dirs_listed(*list_dirs, rs[a as int], rv));
        let ghost start = cs;
        let mut b: usize = 0;
        while b < raw.len()
            invariant
                b <= raw.len(),
                rv == string_views(raw@),
                cs == start + kept_entries(rv.take(b as int), true, e),
                names.len() == cs.len(),
                oks.len() == cs.len(),
                forall|i: int| 0 <= i < cs.len() ==> (#[trigger] names@[i])@ == cand_name(cs[i], true),
                forall|i: int| 0 <= i < cs.len() ==> accepted_by(*filter, *present, cs[i], #[trigger] oks@[i]),
                dirs_found(kind@, cs, oks@, *read_text, *is_file, *is_dir, *list_files, *list_dirs, *render, *canonical, *render_cursor, found@),
                forall|s: &String| call_requires(*read_text, (s,)),
                forall|s: &String| call_requires(*is_file, (s,)),
                forall|s: &String| call_requires(*is_dir, (s,)),
                forall|s: &String| call_requires(*list_files, (s,)),
                forall|s: &String| call_requires(*list_dirs, (s,)),
                forall|s: &String| call_requires(*render, (s,)),
                forall|s: &String| call_requires(*canonical, (s,)),
                forall|s: &String| call_requires(*render_cursor, (s,)),
                forall|s: &String| call_requires(*present, (s,)),
            decreases raw.len() - b,
        {
            let d = &raw[b];
            assert(rv[b as int] == d@);
            assert(rv.take(b + 1).drop_last() =~= rv.take(b as int));
            assert(rv.take(b + 1).last() == d@);
            if listed_dir(d.as_str()) {
                let ok = dir_accepted(filter, d.as_str(), present);
                let n = opt_chars(file_name_of(d.as_str()));
                let seen = name_seen(&names, &oks, &n);
                let ghost old_cs = cs;
                let ghost old_oks = oks@;
                let ghost old_found = found@;
                proof {
                    lemma_taken_push(old_cs, old_oks, true, d@, ok, old_cs.len());
                    cs = cs.push(d@);
                    assert(cs == start + kept_entries(rv.take(b + 1), true, e));
                }
                let fresh = ok && n.len() > 0 && !seen;
                assert(fresh == first_of_name(cs, old_oks.push(ok), true, old_cs.len() as int)) by {
                    assert(cs[old_cs.len() as int] == d@);
                    assert(n@ == cand_name(d@, true));
                    if seen {
                        let j = choose|j: int| 0 <= j < names.len() && oks@[j] && names@[j]@ == n@;
                        assert(cs[j] == old_cs[j]);
                        assert(old_oks.push(ok)[j] == old_oks[j]);
                    } else {
                        assert forall|j: int| 0 <= j < old_cs.len() implies !(old_oks.push(ok)[j] && cand_name(
                            #[trigger] cs[j],
                            true,
                        ) == cand_name(cs[old_cs.len() as int], true)) by {
                            assert(cs[j] == old_cs[j]);
                            assert(old_oks.push(ok)[j] == old_oks[j]);
                            assert(names@[j]@ == cand_name(old_cs[j], true));
                        }
                    }
                }
                if fresh {
                    let f = found_dir(kind, d.as_str(), read_text, is_file, is_dir, list_files, list_dirs, render, canonical, render_cursor);
                    found.push(f);
                }
                names.push(n);
                oks.push(ok);
                proof {
                    let ix = taken(cs, oks@, true, cs.len());
                    assert(oks@ == old_oks.push(ok));
                    assert(ix.len() == found.len());
                    assert forall|k: int| 0 <= k < ix.len() implies dir_found(
                        kind@,
                        cs[ix[k]],
                        *read_text,
                        *is_file,
                        *is_dir,
                        *list_files,
                        *list_dirs,
                        *render,
                        *canonical,
                        *render_cursor,
                        #[trigger] found@[k],
                    ) by {
                        let ox = taken(old_cs, old_oks, true, old_cs.len());
                        if k < ox.len() {
                            assert(ix[k] == ox[k]);
                            assert(ox[k] < old_cs.len());
                            assert(cs[ix[k]] == old_cs[ox[k]]);
                            assert(found@[k] == old_found[k]);
                        } else {
                            assert(ix[k] == old_cs.len());
                        }
                    }
                    assert forall|i: int| 0 <= i < cs.len() implies (#[trigger] names@[i])@ == cand_name(cs[i], true) by {
                        if i < old_cs.len() {
                            assert(cs[i] == old_cs[i]);
                        }
                    }
                    assert forall|i: int| 0 <= i < cs.len() implies accepted_by(*filter, *present, cs[i], #[trigger] oks@[i]) by {
                        if i < old_cs.len() {
                            assert(cs[i] == old_cs[i]);
                        }
                    }
                }
            } else {
                assert(cs == start + kept_entries(rv.take(b + 1), true, e));
            }
            b += 1;
        }
        proof {
            assert(rv.take(raw.len() as int) =~= rv);
            assert(raws.push(rv).drop_last() =~= raws);
            raws = raws.push(rv);
            assert(cs == candidates(raws, true, e));
        }
        a += 1;
    }
    let r = scan_entries(kind, &found, false, &None, true);
    assert(dir_walk(*list_dirs, *present, *filter, rs, raws, oks@));
    r
}

/// The roots' files were listed as `list_files` answered: `raws[a]` is what
/// it gave for root `a`.
pub open spec fn file_walk<L: Fn(&String) -> Vec<String>>(
    list_files: L,
    roots: Seq<Seq<char>>,
    raws: Seq<Seq<Seq<char>>>,
) -> bool {
    &&& raws.len() == roots.len()
    &&& forall|a: int| 0 <= a < roots.len() ==> dirs_listed(list_files, roots[a], #[trigger] raws[a])
}

/// Every candidate file passes (files have no filter besides the extension).
pub open spec fn all_pass(n: nat) -> Seq<bool> {
    Seq::new(n, |i: int| true)
}

/// `found` holds, for each taken file in order, what `found_file` gives for it.
pub open spec fn files_found<T: Fn(&String) -> Option<String>>(
    kind: Seq<char>,
    cs: Seq<Seq<char>>,
    read_text: T,
    found: Seq<Found>,
) -> bool {
    let ix = taken(cs, all_pass(cs.len()), false, cs.len());
    &&& found.len() == ix.len()
    &&& forall|k: int| 0 <= k < ix.len() ==> file_found(kind, cs[ix[k]], read_text, #[trigger] found[k])
}

/// The themes of `kind` that are single files with extension `ext` under
/// `roots` (KDE color schemes): each root's files (as `list_files` lists
/// them) with that extension, the first file of each stem kept, looked at
/// with `found_file`, and listed by stem.
pub fn scan_files<T: Fn(&String) -> Option<String>, L: Fn(&String) -> Vec<String>>(
    kind: &str,
    ext: &str,
    roots: &Vec<String>,
    list_files: &L,
    read_text: &T,
) -> (r: Vec<InstalledTheme>)
    requires
        forall|s: &String| call_requires(*read_text, (s,)),
        forall|s: &String| call_requires(*list_files, (s,)),
    ensures
        exists|raws: Seq<Seq<Seq<char>>>, found: Seq<Found>|
            #![trigger file_walk(*list_files, string_views(roots@), raws), listing(r@, kind@, found, true, Some(ext@), true)]
            file_walk(*list_files, string_views(roots@), raws) && files_found(
                kind@,
                candidates(raws, false, ext@),
                *read_text,
                found,
            ) && listing(r@, kind@, found, true, Some(ext@), true),
{
    let ghost rs = string_views(roots@);
    let ghost mut raws: Seq<Seq<Seq<char>>> = Seq::empty();
    let ghost mut cs: Seq<Seq<char>> = Seq::empty();
    let mut names: Vec<Vec<char>> = Vec::new();
    let mut oks: Vec<bool> = Vec::new();
    let mut found: Vec<Found> = Vec::new();
    let mut a: usize = 0;
    while a < roots.len()
        invariant
            a <= roots.len(),
            rs == string_views(roots@),
            raws.len() == a,
            forall|x: int| 0 <= x < a ==> dirs_listed(*list_files, rs[x], #[trigger] raws[x]),
            cs == candidates(raws, false, ext@),
            names.len() == cs.len(),
            oks@ == all_pass(cs.len()),
            forall|i: int| 0 <= i < cs.len() ==> (#[trigger] names@[i])@ == cand_name(cs[i], false),
            files_found(kind@, cs, *read_text, found@),
            forall|s: &String| call_requires(*read_text, (s,)),
            forall|s: &String| call_requires(*list_files, (s,)),
        decreases roots.len() - a,
    {
        let raw = list_files(&roots[a]);
        let ghost rv = string_views(raw@);
        assert(rs[a as int] == roots@[a as int]@);
        assert(dirs_listed(*list_files, rs[a as int], rv));
        let ghost start = cs;
        let mut b: usize = 0;
        while b < raw.len()
            invariant
                b <= raw.len(),
                rv == string_views(raw@),
                cs == start + kept_entries(rv.take(b as int), false, ext@),
                names.len() == cs.len(),
                oks@ == all_pass(cs.len()),
                forall|i: int| 0 <= i < cs.len() ==> (#[trigger] names@[i])@ == cand_name(cs[i], false),
                files_found(kind@, cs, *read_text, found@),
                forall|s: &String| call_requires(*read_text, (s,)),
                forall|s: &String| call_requires(*list_files, (s,)),
            decreases raw.len() - b,
        {
            let p = &raw[b];
            assert(rv[b as int] == p@);
            assert(rv.take(b + 1).drop_last() =~= rv.take(b as int));
            assert(rv.take(b + 1).last() == p@);
            let has_ext = match extension_of(p.as_str()) {
                Some(x) => eq_chars(&x, &chars_of(ext)),
                None => false,
            };
            if has_ext {
                let n = opt_chars(file_stem_of(p.as_str()));
                let seen = name_seen(&names, &oks, &n);
                let ghost old_cs = cs;
                let ghost old_oks = oks@;
                let ghost old_found = found@;
                proof {
                    lemma_taken_push(old_cs, old_oks, false, p@, true, old_cs.len());
                    cs = cs.push(p@);
                    assert(cs == start + kept_entries(rv.take(b + 1), false, ext@));
                    assert(old_oks.push(true) =~= all_pass(cs.len()));
                }
                let fresh = n.len() > 0 && !seen;
                assert(fresh == first_of_name(cs, all_pass(cs.len()), false, old_cs.len() as int)) by {
                    assert(cs[old_cs.len() as int] == p@);
                    assert(n@ == cand_name(p@, false));
                    if seen {
                        let j = choose|j: int| 0 <= j < names.len() && oks@[j] && names@[j]@ == n@;
                        assert(cs[j] == old_cs[j]);
                    } else {
                        assert forall|j: int| 0 <= j < old_cs.len() implies !(all_pass(cs.len())[j] && cand_name(
                            #[trigger] cs[j],
                            false,
                        ) == cand_name(cs[old_cs.len() as int], false)) by {
                            assert(cs[j] == old_cs[j]);
                            assert(names@[j]@ == cand_name(old_cs[j], false));
                        }
                    }
                }
                if fresh {
                    let f = found_file(kind, p.as_str(), read_text);
                    found.push(f);
                }
                names.push(n);
                oks.push(true);
                proof {
                    assert(oks@ =~= all_pass(cs.len()));
                    assert(old_oks =~= all_pass(old_cs.len()));
                    let ix = taken(cs, oks@, false, cs.len());
                    assert(ix.len() == found.len());
                    assert forall|k: int| 0 <= k < ix.len() implies file_found(
                        kind@,
                        cs[ix[k]],
                        *read_text,
                        #[trigger] found@[k],
                    ) by {
                        let ox = taken(old_cs, old_oks, false, old_cs.len());
                        if k < ox.len() {
                            assert(ix[k] == ox[k]);
                            assert(ox[k] < old_cs.len());
                            assert(cs[ix[k]] == old_cs[ox[k]]);
                            assert(found@[k] == old_found[k]);
                        } else {
                            assert(ix[k] == old_cs.len());
                        }
                    }
                    assert forall|i: int| 0 <= i < cs.len() implies (#[trigger] names@[i])@ == cand_name(cs[i], false) by {
                        if i < old_cs.len() {
                            assert(cs[i] == old_cs[i]);
                        }
                    }
                }
            } else {
                assert(cs == start + kept_entries(rv.take(b + 1), false, ext@));
            }
            b += 1;
        }
        proof {
            assert(rv.take(raw.len() as int) =~= rv);
            assert(raws.push(rv).drop_last() =~= raws);
            raws = raws.push(rv);
            assert(cs == candidates(raws, false, ext@));
        }
        a += 1;
    }
    let e = Some(ext.to_owned());
    let r = scan_entries(kind, &found, true, &e, true);
    assert(file_walk(*list_files, rs, raws));
    r
}

/// `r` lists the `.json` files among `paths`, named by their stem, as kind
/// `custom`, with no preview, palette or samples.
pub open spec fn custom_listing(paths: Seq<Seq<char>>, r: Seq<InstalledTheme>) -> bool {
    exists|found: Seq<Found>|
        found.len() == paths.len() && (forall|i: int|
            0 <= i < paths.len() ==> (#[trigger] found[i]).path@ == paths[i] && found[i].preview is None
                && found[i].palette is None && found[i].samples is None) && listing(
            r,
            "custom"@,
            found,
            true,
            Some("json"@),
            false,
        )
}

/// Saved custom profiles: the `.json` files of the custom directory, named
/// by their stem, listed as kind `custom`.
pub fn custom_themes(paths: &Vec<String>) -> (r: Vec<InstalledTheme>)
    ensures
        custom_listing(string_views(paths@), r@),
{
    let mut found: Vec<Found> = Vec::new();
    let mut i: usize = 0;
    while i < paths.len()
        invariant
            i <= paths.len(),
            found.len() == i,
            forall|j: int|
                0 <= j < i ==> (#[trigger] found@[j]).path@ == paths@[j]@ && found@[j].preview is None
                    && found@[j].palette is None && found@[j].samples is None,
        decreases paths.len() - i,
    {
        found.push(Found { path: paths[i].clone(), preview: None, palette: None, samples: None });
        i += 1;
    }
    let e = Some("json".to_owned());
    let r = scan_entries("custom", &found, true, &e, false);
    assert forall|i: int| 0 <= i < paths.len() implies (#[trigger] found@[i]).path@ == string_views(paths@)[i]
        && found@[i].preview is None && found@[i].palette is None && found@[i].samples is None by {
    }
    r
}

// ---------------------------------------------------------------- laws

proof fn lemma_admitted_prefix(fs: Seq<Found>, i: int, by_stem: bool, ext: Option<Seq<char>>, distinct: bool)
    requires
        0 <= i < fs.len() - 1,
    ensures
        admitted(fs.drop_last(), i, by_stem, ext, distinct) == admitted(fs, i, by_stem, ext, distinct),
{
    let d = fs.drop_last();
    assert forall|j: int| 0 <= j <= i implies d[j] == fs[j] by {}
}

proof fn lemma_admitted_indices(fs: Seq<Found>, by_stem: bool, ext: Option<Seq<char>>, distinct: bool)
    ensures
        ({
            let idx = admitted_indices(fs, by_stem, ext, distinct);
            &&& forall|k: int|
                0 <= k < idx.len() ==> 0 <= #[trigger] idx[k] < fs.len() && admitted(
                    fs,
                    idx[k],
                    by_stem,
                    ext,
                    distinct,
                )
            &&& forall|a: int, b: int| 0 <= a < b < idx.len() ==> #[trigger] idx[a] < #[trigger] idx[b]
        }),
    decreases fs.len(),
{
    if fs.len() > 0 {
        let d = fs.drop_last();
        lemma_admitted_indices(d, by_stem, ext, distinct);
        let pre = admitted_indices(d, by_stem, ext, distinct);
        let idx = admitted_indices(fs, by_stem, ext, distinct);
        assert forall|k: int| 0 <= k < pre.len() implies admitted(fs, #[trigger] pre[k], by_stem, ext, distinct) by {
            lemma_admitted_prefix(fs, pre[k], by_stem, ext, distinct);
        }
        if admitted(fs, fs.len() - 1, by_stem, ext, distinct) {
            assert(idx == pre.push(fs.len() - 1));
            assert forall|k: int| 0 <= k < idx.len() implies 0 <= #[trigger] idx[k] < fs.len() && admitted(
                fs,
                idx[k],
                by_stem,
                ext,
                distinct,
            ) by {
                if k < pre.len() {
                    assert(idx[k] == pre[k]);
                }
            }
            assert forall|a: int, b: int| 0 <= a < b < idx.len() implies #[trigger] idx[a] < #[trigger] idx[b] by {
                assert(idx[a] == pre[a]);
                if b < pre.len() {
                    assert(idx[b] == pre[b]);
                }
            }
        }
    }
}

/// A listing names each theme once (the first root holding a name wins),
/// and lists them in order of their lowercase names.
pub proof fn law_listing_unique_sorted(
    r: Seq<InstalledTheme>,
    kind: Seq<char>,
    fs: Seq<Found>,
    by_stem: bool,
    ext: Option<Seq<char>>,
)
    requires
        listing(r, kind, fs, by_stem, ext, true),
    ensures
        forall|i: int, j: int| 0 <= i < j < r.len() ==> (#[trigger] r[i]).name@ != (#[trigger] r[j]).name@,
        forall|i: int, j: int|
            0 <= i < j < r.len() ==> text_le(lowercase((#[trigger] r[i]).name@), lowercase((#[trigger] r[j]).name@)),
{
    let idx = admitted_indices(fs, by_stem, ext, true);
    let keys = idx.map_values(|i: int| lowercase(entry_name(fs[i], by_stem)));
    let order = choose|order: Seq<usize>|
        stable_order(keys, order) && forall|i: int|
            0 <= i < r.len() ==> theme_of(
                #[trigger] r[i],
                kind,
                entry_name(fs[idx[order[i] as int]], by_stem),
                fs[idx[order[i] as int]],
            );
    lemma_admitted_indices(fs, by_stem, ext, true);
    assert forall|i: int, j: int| 0 <= i < j < r.len() implies (#[trigger] r[i]).name@ != (
    #[trigger] r[j]).name@ && text_le(lowercase(r[i].name@), lowercase(r[j].name@)) by {
        let a = order[i] as int;
        let b = order[j] as int;
        assert(key_before(keys, a, b));
        assert(theme_of(r[i], kind, entry_name(fs[idx[a]], by_stem), fs[idx[a]]));
        assert(theme_of(r[j], kind, entry_name(fs[idx[b]], by_stem), fs[idx[b]]));
        assert(keys[a] == lowercase(r[i].name@));
        assert(keys[b] == lowercase(r[j].name@));
        if keys[a] == keys[b] {
            lemma_text_le_refl(keys[a]);
        }
        assert(a != b);
        let p = idx[a];
        let q = idx[b];
        assert(admitted(fs, p, by_stem, ext, true));
        assert(admitted(fs, q, by_stem, ext, true));
        if a < b {
            assert(p < q);
            assert(!((ext matches Some(e) ==> extension(fs[p].path@) == Some(e)) && entry_name(
                fs[p],
                by_stem,
            ) == entry_name(fs[q], by_stem)));
        } else {
            assert(q < p);
            assert(!((ext matches Some(e) ==> extension(fs[q].path@) == Some(e)) && entry_name(
                fs[q],
                by_stem,
            ) == entry_name(fs[p], by_stem)));
        }
    }
}


proof fn lemma_admitted_listed(fs: Seq<Found>, q: int, by_stem: bool, ext: Option<Seq<char>>, distinct: bool)
    requires
        0 <= q < fs.len(),
        admitted(fs, q, by_stem, ext, distinct),
    ensures
        exists|k: int|
            0 <= k < admitted_indices(fs, by_stem, ext, distinct).len() && admitted_indices(
                fs,
                by_stem,
                ext,
                distinct,
            )[k] == q,
    decreases fs.len(),
{
    let d = fs.drop_last();
    let pre = admitted_indices(d, by_stem, ext, distinct);
    let idx = admitted_indices(fs, by_stem, ext, distinct);
    if q == fs.len() - 1 {
        assert(idx == pre.push(q));
        assert(idx[pre.len() as int] == q);
    } else {
        lemma_admitted_prefix(fs, q, by_stem, ext, distinct);
        lemma_admitted_listed(d, q, by_stem, ext, distinct);
        let k = choose|k: int| 0 <= k < pre.len() && pre[k] == q;
        if admitted(fs, fs.len() - 1, by_stem, ext, distinct) {
            assert(idx == pre.push(fs.len() - 1));
            assert(idx[k] == pre[k]);
        }
    }
}

/// Every admitted entry is in the listing, named as listings name it.
pub proof fn lemma_listing_has(
    r: Seq<InstalledTheme>,
    kind: Seq<char>,
    fs: Seq<Found>,
    by_stem: bool,
    ext: Option<Seq<char>>,
    distinct: bool,
    q: int,
)
    requires
        listing(r, kind, fs, by_stem, ext, distinct),
        0 <= q < fs.len(),
        admitted(fs, q, by_stem, ext, distinct),
    ensures
        exists|i: int| 0 <= i < r.len() && theme_of(#[trigger] r[i], kind, entry_name(fs[q], by_stem), fs[q]),
{
    let idx = admitted_indices(fs, by_stem, ext, distinct);
    let keys = idx.map_values(|i: int| lowercase(entry_name(fs[i], by_stem)));
    lemma_admitted_listed(fs, q, by_stem, ext, distinct);
    let k = choose|k: int| 0 <= k < idx.len() && idx[k] == q;
    let order = choose|order: Seq<usize>|
        stable_order(keys, order) && forall|i: int|
            0 <= i < r.len() ==> theme_of(
                #[trigger] r[i],
                kind,
                entry_name(fs[idx[order[i] as int]], by_stem),
                fs[idx[order[i] as int]],
            );
    lemma_stable_order_onto(keys, order, k);
    let i = choose|i: int| 0 <= i < order.len() && order[i] as int == k;
    assert(theme_of(r[i], kind, entry_name(fs[idx[order[i] as int]], by_stem), fs[idx[order[i] as int]]));
}

} // verus!
