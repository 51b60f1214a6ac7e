//! Finding theme files on disk. The disk itself is reached only through
//! the probes the caller hands in (whether a path exists, is a file or a
//! directory, what a directory lists, what a file holds, what a preview
//! renders to); everything decided from their answers is here.
use vstd::prelude::*;
use crate::order::{stable_order, stable_sort_order};
use crate::palette::{opt_view, string_views};
use crate::paths::{extension, extension_of, join};
use crate::text::{
    ascii_lower_chars, ascii_lower_str, chars_of, eq_chars, has_prefix, join_path, lines,
    lines_chars, matches_at, nonempty_parts, nonempty_parts_exec, owned, slice_chars, split_chars,
    split_on, string_of, trim, trim_chars, views,
};

verus! {

/// The probe `f` answered `out` for the path `p`.
pub open spec fn said<F: Fn(&String) -> bool>(f: F, p: Seq<char>, out: bool) -> bool {
    exists|s: String| s@ == p && call_ensures(f, (&s,), out)
}

/// `r` is the first of `cands` that the probe accepted, every earlier one
/// having been refused; `None` when the probe refused them all.
pub open spec fn first_said<F: Fn(&String) -> bool>(f: F, cands: Seq<Seq<char>>, r: Option<Seq<char>>) -> bool {
    match r {
        Some(p) => exists|k: int|
            0 <= k < cands.len() && p == cands[k] && said(f, cands[k], true) && forall|j: int|
                0 <= j < k ==> said(f, #[trigger] cands[j], false),
        None => forall|j: int| 0 <= j < cands.len() ==> said(f, #[trigger] cands[j], false),
    }
}

/// The first candidate the probe accepts, asking in order.
pub fn first_accepted<F: Fn(&String) -> bool>(cands: &Vec<String>, probe: &F) -> (r: Option<usize>)
    requires
        forall|s: &String| call_requires(*probe, (s,)),
    ensures
        r matches Some(k) ==> k < cands.len() && said(*probe, cands@[k as int]@, true) && forall|j: int|
            0 <= j < k ==> said(*probe, #[trigger] cands@[j]@, false),
        r is None ==> forall|j: int| 0 <= j < cands.len() ==> said(*probe, #[trigger] cands@[j]@, false),
{
    let mut i: usize = 0;
    while i < cands.len()
        invariant
            i <= cands.len(),
            forall|s: &String| call_requires(*probe, (s,)),
            forall|j: int| 0 <= j < i ==> said(*probe, #[trigger] cands@[j]@, false),
        decreases cands.len() - i,
    {
        let b = probe(&cands[i]);
        assert(said(*probe, cands@[i as int]@, b));
        if b {
            return Some(i);
        }
        i += 1;
    }
    None
}

fn first_accepted_path<F: Fn(&String) -> bool>(cands: &Vec<String>, probe: &F) -> (r: Option<String>)
    requires
        forall|s: &String| call_requires(*probe, (s,)),
    ensures
        first_said(*probe, string_views(cands@), opt_view(r)),
{
    let ghost cs = string_views(cands@);
    match first_accepted(cands, probe) {
        Some(k) => {
            assert(cs[k as int] == cands@[k as int]@);
            assert forall|j: int| 0 <= j < k implies said(*probe, #[trigger] cs[j], false) by {
                assert(cs[j] == cands@[j]@);
            }
            Some(cands[k].clone())
        },
        None => {
            assert forall|j: int| 0 <= j < cs.len() implies said(*probe, #[trigger] cs[j], false) by {
                assert(cs[j] == cands@[j]@);
            }
            None
        },
    }
}

/// The paths of `names` inside `dir`.
pub open spec fn joined(dir: Seq<char>, names: Seq<Seq<char>>) -> Seq<Seq<char>> {
    names.map_values(|n: Seq<char>| join_path(dir, n))
}

fn join_all(dir: &str, names: &Vec<String>) -> (r: Vec<String>)
    ensures
        string_views(r@) == joined(dir@, string_views(names@)),
{
    let mut r: Vec<String> = Vec::new();
    let mut i: usize = 0;
    while i < names.len()
        invariant
            i <= names.len(),
            string_views(r@) == joined(dir@, string_views(names@)).take(i as int),
        decreases names.len() - i,
    {
        let ghost before = string_views(r@);
        let p = join(dir, names[i].as_str());
        r.push(p);
        assert(string_views(r@) =~= before.push(join_path(dir@, names@[i as int]@)));
        assert(joined(dir@, string_views(names@)).take(i + 1) =~= joined(dir@, string_views(names@)).take(
            i as int,
        ).push(join_path(dir@, names@[i as int]@)));
        i += 1;
    }
    assert(joined(dir@, string_views(names@)).take(names.len() as int) =~= joined(
        dir@,
        string_views(names@),
    ));
    r
}

/// A list of owned strings.
fn strings(xs: &[&str]) -> (r: Vec<String>)
    ensures
        string_views(r@) == xs@.map_values(|x: &str| x@),
{
    let mut r: Vec<String> = Vec::new();
    let mut i: usize = 0;
    while i < xs.len()
        invariant
            i <= xs.len(),
            string_views(r@) == xs@.map_values(|x: &str| x@).take(i as int),
        decreases xs.len() - i,
    {
        let ghost before = string_views(r@);
        r.push(owned(xs[i]));
        assert(string_views(r@) =~= before.push(xs@[i as int]@));
        assert(xs@.map_values(|x: &str| x@).take(i + 1) =~= xs@.map_values(|x: &str| x@).take(
            i as int,
        ).push(xs@[i as int]@));
        i += 1;
    }
    assert(xs@.map_values(|x: &str| x@).take(xs.len() as int) =~= xs@.map_values(|x: &str| x@));
    r
}

/// Whether `dir` holds an entry called `name`.
pub fn has_entry<F: Fn(&String) -> bool>(dir: &str, name: &str, present: &F) -> (r: bool)
    requires
        forall|s: &String| call_requires(*present, (s,)),
    ensures
        said(*present, join_path(dir@, name@), r),
{
    let p = join(dir, name);
    present(&p)
}

/// The first of `names` that is a file in `dir`.
pub fn named_file<F: Fn(&String) -> bool>(dir: &str, names: &Vec<String>, is_file: &F) -> (r: Option<String>)
    requires
        forall|s: &String| call_requires(*is_file, (s,)),
    ensures
        first_said(*is_file, joined(dir@, string_views(names@)), opt_view(r)),
{
    let cands = join_all(dir, names);
    first_accepted_path(&cands, is_file)
}

// ---------------------------------------------------------------- media

/// Preview formats every renderer shows.
pub open spec fn raster_exts() -> Seq<Seq<char>> {
    seq!["png"@, "jpg"@, "jpeg"@, "webp"@, "svg"@, "svgz"@, "gif"@]
}

/// Preview formats that may need a video element or AVIF support.
pub open spec fn other_media_exts() -> Seq<Seq<char>> {
    seq!["avif"@, "mp4"@, "webm"@]
}

/// 1 for a raster preview, 2 for avif or video, 0 otherwise (by the
/// extension in ASCII lowercase).
pub open spec fn media_rank(p: Seq<char>) -> int {
    match extension(p) {
        Some(e) => if raster_exts().contains(ascii_lower_str(e)) {
            1
        } else if other_media_exts().contains(ascii_lower_str(e)) {
            2
        } else {
            0
        },
        None => 0,
    }
}

/// The first file of rank `rank`.
pub open spec fn first_of_rank(files: Seq<Seq<char>>, rank: int) -> Option<Seq<char>>
    decreases files.len(),
{
    if files.len() == 0 {
        None
    } else if media_rank(files[0]) == rank {
        Some(files[0])
    } else {
        first_of_rank(files.drop_first(), rank)
    }
}

/// The first raster file, else the first avif or video file.
pub open spec fn media_pick(files: Seq<Seq<char>>) -> Option<Seq<char>> {
    match first_of_rank(files, 1) {
        Some(p) => Some(p),
        None => first_of_rank(files, 2),
    }
}

fn in_list(e: &Vec<char>, list: &[&str]) -> (r: bool)
    ensures
        r == list@.map_values(|x: &str| x@).contains(e@),
{
    let ghost l = list@.map_values(|x: &str| x@);
    let mut i: usize = 0;
    while i < list.len()
        invariant
            i <= list.len(),
            l == list@.map_values(|x: &str| x@),
            forall|j: int| 0 <= j < i ==> l[j] != e@,
        decreases list.len() - i,
    {
        if eq_chars(e, &chars_of(list[i])) {
            assert(l[i as int] == e@);
            return true;
        }
        i += 1;
    }
    false
}

fn media_rank_exec(p: &String) -> (r: u8)
    ensures
        r as int == media_rank(p@),
{
    match extension_of(p.as_str()) {
        None => 0,
        Some(e) => {
            let l = ascii_lower_chars(&e);
            let raster = ["png", "jpg", "jpeg", "webp", "svg", "svgz", "gif"];
            let other = ["avif", "mp4", "webm"];
            proof {
                assert(raster@.map_values(|x: &str| x@) =~= raster_exts());
                assert(other@.map_values(|x: &str| x@) =~= other_media_exts());
            }
            if in_list(&l, &raster) {
                1
            } else if in_list(&l, &other) {
                2
            } else {
                0
            }
        },
    }
}

fn first_of_rank_exec(files: &Vec<String>, rank: u8) -> (r: Option<String>)
    ensures
        opt_view(r) == first_of_rank(string_views(files@), rank as int),
{
    let ghost fs = string_views(files@);
    let mut i: usize = 0;
    assert(fs.skip(0) =~= fs);
    while i < files.len()
        invariant
            i <= files.len(),
            fs == string_views(files@),
            first_of_rank(fs, rank as int) == first_of_rank(fs.skip(i as int), rank as int),
        decreases files.len() - i,
    {
        assert(fs.skip(i as int)[0] == files@[i as int]@);
        assert(fs.skip(i as int).drop_first() =~= fs.skip(i + 1));
        if media_rank_exec(&files[i]) == rank {
            return Some(files[i].clone());
        }
        i += 1;
    }
    None
}

/// The preview among a directory's files: the first raster image, else the
/// first avif or video.
pub fn first_media_in(files: &Vec<String>) -> (r: Option<String>)
    ensures
        opt_view(r) == media_pick(string_views(files@)),
{
    match first_of_rank_exec(files, 1) {
        Some(p) => Some(p),
        None => first_of_rank_exec(files, 2),
    }
}

/// The preview among the files that `list_files` gives for `dir`.
pub fn first_media<L: Fn(&String) -> Vec<String>>(dir: &String, list_files: &L) -> (r: Option<String>)
    requires
        forall|s: &String| call_requires(*list_files, (s,)),
    ensures
        media_of(*list_files, dir@, opt_view(r)),
{
    let files = list_files(dir);
    let r = first_media_in(&files);
    assert(call_ensures(*list_files, (dir,), files));
    r
}

/// `r` is `v` rearranged as a stable sort by text order leaves it.
pub open spec fn stably_sorted(v: Seq<Seq<char>>, r: Seq<Seq<char>>) -> bool {
    exists|order: Seq<usize>|
        #![trigger stable_order(v, order)]
        stable_order(v, order) && r == order.map_values(|o: usize| v[o as int])
}

/// Sorted paths (`str` order).
fn sorted(v: Vec<String>) -> (r: Vec<String>)
    ensures
        stably_sorted(string_views(v@), string_views(r@)),
{
    let ghost vs = string_views(v@);
    let mut keys: Vec<Vec<char>> = Vec::new();
    let mut i: usize = 0;
    while i < v.len()
        invariant
            i <= v.len(),
            keys.len() == i,
            vs == string_views(v@),
            forall|k: int| 0 <= k < i ==> (#[trigger] keys@[k])@ == vs[k],
        decreases v.len() - i,
    {
        keys.push(chars_of(v[i].as_str()));
        i += 1;
    }
    assert(keys@.map_values(|k: Vec<char>| k@) =~= vs);
    let order = stable_sort_order(&keys);
    let mut r: Vec<String> = Vec::new();
    let mut j: usize = 0;
    while j < order.len()
        invariant
            j <= order.len(),
            order.len() == v.len(),
            r.len() == j,
            vs == string_views(v@),
            forall|k: int| 0 <= k < order.len() ==> (#[trigger] order@[k]) < v.len(),
            forall|k: int| 0 <= k < j ==> (#[trigger] r@[k])@ == vs[order@[k] as int],
        decreases order.len() - j,
    {
        r.push(v[order[j]].clone());
        j += 1;
    }
    assert(string_views(r@) =~= order@.map_values(|o: usize| vs[o as int]));
    assert(stable_order(vs, order@));
    r
}

/// `f` listed `files` for the directory `d`, and `r` is the preview among them.
pub open spec fn media_of<L: Fn(&String) -> Vec<String>>(f: L, d: Seq<char>, r: Option<Seq<char>>) -> bool {
    exists|s: String, files: Vec<String>|
        #![trigger call_ensures(f, (&s,), files)]
        s@ == d && call_ensures(f, (&s,), files) && r == media_pick(string_views(files@))
}

/// `g` listed the subdirectories `subs` of the directory `d`.
pub open spec fn dirs_listed<D: Fn(&String) -> Vec<String>>(g: D, d: Seq<char>, subs: Seq<Seq<char>>) -> bool {
    exists|s: String, v: Vec<String>|
        #![trigger call_ensures(g, (&s,), v)]
        s@ == d && call_ensures(g, (&s,), v) && subs == string_views(v@)
}

/// What the search below `dir`, `depth` levels down, gives as the probes
/// answered: `dir`'s own media if any; else nothing at depth 0; else the
/// first hit of the same search, one level less deep, over the listed
/// subdirectories sorted by name (nothing when none has a hit).
pub open spec fn deep_search<L: Fn(&String) -> Vec<String>, D: Fn(&String) -> Vec<String>>(
    f: L,
    g: D,
    dir: Seq<char>,
    depth: nat,
    r: Option<Seq<char>>,
) -> bool
    decreases depth,
{
    exists|own: Option<Seq<char>>|
        #![trigger media_of(f, dir, own)]
        media_of(f, dir, own) && if own is Some {
            r == own
        } else if depth == 0 {
            r is None
        } else {
            exists|raw: Seq<Seq<char>>, subs: Seq<Seq<char>>|
                #![trigger dirs_listed(g, dir, raw), stably_sorted(raw, subs)]
                dirs_listed(g, dir, raw) && stably_sorted(raw, subs) && match r {
                    Some(p) => exists|k: int|
                        0 <= k < subs.len() && deep_search(f, g, #[trigger] subs[k], (depth - 1) as nat, Some(p))
                            && forall|j: int|
                            0 <= j < k ==> deep_search(f, g, #[trigger] subs[j], (depth - 1) as nat, None),
                    None => forall|j: int|
                        0 <= j < subs.len() ==> deep_search(f, g, #[trigger] subs[j], (depth - 1) as nat, None),
                }
        }
}

/// A preview anywhere below `dir`, at most `depth` directories down:
/// `dir`'s own media first, then each subdirectory in name order.
pub fn find_media_deep<L: Fn(&String) -> Vec<String>, D: Fn(&String) -> Vec<String>>(
    dir: &String,
    depth: u8,
    list_files: &L,
    list_dirs: &D,
) -> (r: Option<String>)
    requires
        forall|s: &String| call_requires(*list_files, (s,)),
        forall|s: &String| call_requires(*list_dirs, (s,)),
    ensures
        deep_search(*list_files, *list_dirs, dir@, depth as nat, opt_view(r)),
    decreases depth,
{
    let own = first_media(dir, list_files);
    assert(media_of(*list_files, dir@, opt_view(own)));
    if let Some(p) = own {
        return Some(p);
    }
    if depth == 0 {
        return None;
    }
    let raw = list_dirs(dir);
    assert(dirs_listed(*list_dirs, dir@, string_views(raw@)));
    let subs = sorted(raw);
    let ghost rv = string_views(raw@);
    let ghost ss = string_views(subs@);
    let ghost d = (depth - 1) as nat;
    assert(stably_sorted(rv, ss));
    let mut i: usize = 0;
    while i < subs.len()
        invariant
            i <= subs.len(),
            depth > 0,
            d == depth - 1,
            ss == string_views(subs@),
            media_of(*list_files, dir@, None),
            dirs_listed(*list_dirs, dir@, rv),
            stably_sorted(rv, ss),
            forall|j: int| 0 <= j < i ==> #[trigger] deep_search(*list_files, *list_dirs, ss[j], d, None),
            forall|s: &String| call_requires(*list_files, (s,)),
            forall|s: &String| call_requires(*list_dirs, (s,)),
        decreases subs.len() - i,
    {
        let found = find_media_deep(&subs[i], depth - 1, list_files, list_dirs);
        assert(ss[i as int] == subs@[i as int]@);
        if let Some(p) = found {
            assert(deep_search(*list_files, *list_dirs, ss[i as int], d, Some(p@)));
            assert(exists|k: int|
                0 <= k < ss.len() && deep_search(*list_files, *list_dirs, #[trigger] ss[k], d, Some(p@))
                    && forall|j: int| 0 <= j < k ==> deep_search(*list_files, *list_dirs, #[trigger] ss[j], d, None));
            assert(deep_search(*list_files, *list_dirs, dir@, depth as nat, Some(p@)));
            return Some(p);
        }
        i += 1;
    }
    assert(forall|j: int| 0 <= j < ss.len() ==> deep_search(*list_files, *list_dirs, #[trigger] ss[j], d, None));
    assert(deep_search(*list_files, *list_dirs, dir@, depth as nat, None));
    None
}


// ---------------------------------------------------------------- previews

/// Whether `kind` has a preview convention on disk.
pub open spec fn kind_has_preview(kind: Seq<char>) -> bool {
    kind == "global"@ || kind == "sddm"@ || kind == "wallpapers"@ || kind == "plasma"@ || kind
        == "kvantum"@
}

fn is_kind(kind: &Vec<char>, name: &str) -> (r: bool)
    ensures
        r == (kind@ == name@),
{
    eq_chars(kind, &chars_of(name))
}

/// `r` is `first`, or when that is `None`, what `rest` holds of it.
pub open spec fn or_next(first: Option<Seq<char>>, r: Option<Seq<char>>) -> bool {
    first is Some ==> r == first
}

/// The files a directory's preview is looked for by name, per kind.
pub open spec fn global_names() -> Seq<Seq<char>> {
    seq!["preview.png"@, "fullscreenpreview.jpg"@, "screenshot.png"@]
}

pub open spec fn root_preview_names() -> Seq<Seq<char>> {
    seq!["preview.png"@, "preview.jpg"@, "screenshot.png"@]
}

pub open spec fn wallpaper_names() -> Seq<Seq<char>> {
    seq!["screenshot.png"@, "preview.png"@]
}

pub open spec fn dialog_names() -> Seq<Seq<char>> {
    seq!["background.svg"@, "background.svgz"@]
}

/// The preview of the theme directory `dir` of `kind`, as the probes answered.
pub open spec fn preview_spec<F: Fn(&String) -> bool, L: Fn(&String) -> Vec<String>, D: Fn(&String) -> Vec<String>>(
    is_file: F,
    list_files: L,
    list_dirs: D,
    dir: Seq<char>,
    kind: Seq<char>,
    r: Option<Seq<char>>,
) -> bool {
    if kind == "global"@ {
        exists|m: Option<Seq<char>>|
            #[trigger] media_of(list_files, join_path(dir, "contents/previews"@), m) && or_next(m, r) && (m is None
                ==> first_said(is_file, joined(dir, global_names()), r))
    } else if kind == "sddm"@ {
        exists|n: Option<Seq<char>>|
            #[trigger] first_said(is_file, joined(dir, root_preview_names()), n) && or_next(n, r) && (n is None
                ==> exists|m: Option<Seq<char>>|
                #[trigger] media_of(list_files, join_path(dir, "backgrounds"@), m) && or_next(m, r) && (m is None
                    ==> deep_search(list_files, list_dirs, dir, 3, r)))
    } else if kind == "wallpapers"@ {
        exists|n: Option<Seq<char>>|
            #[trigger] first_said(is_file, joined(join_path(dir, "contents"@), wallpaper_names()), n) && or_next(n, r)
                && (n is None ==> exists|m: Option<Seq<char>>|
                #[trigger] media_of(list_files, join_path(dir, "contents/images"@), m) && or_next(m, r) && (m is None
                    ==> media_of(list_files, join_path(dir, "contents/images_dark"@), r)))
    } else if kind == "plasma"@ {
        exists|n: Option<Seq<char>>|
            #[trigger] first_said(is_file, joined(dir, root_preview_names()), n) && or_next(n, r) && (n is None
                ==> exists|m: Option<Seq<char>>|
                #[trigger] first_said(is_file, joined(join_path(dir, "dialogs"@), dialog_names()), m) && or_next(m, r)
                    && (m is None ==> media_of(list_files, join_path(dir, "dialogs"@), r)))
    } else if kind == "kvantum"@ {
        media_of(list_files, dir, r)
    } else {
        r is None
    }
}

/// The preview of a theme directory, by the convention of its kind:
/// - global: first media of `contents/previews`, else preview.png,
///   fullscreenpreview.jpg or screenshot.png;
/// - sddm: preview.png, preview.jpg or screenshot.png, else first media of
///   `backgrounds`, else media up to three directories down;
/// - wallpapers: `contents/screenshot.png` or `contents/preview.png`, else
///   first media of `contents/images`, then of `contents/images_dark`;
/// - plasma: preview.png, preview.jpg or screenshot.png, else
///   `dialogs/background.svg(z)`, else first media of `dialogs`;
/// - kvantum: first media of the directory;
/// - other kinds (icons, decorations, GTK, colors, cursors) show samples or
///   a palette instead: no preview.
pub fn find_preview<F: Fn(&String) -> bool, L: Fn(&String) -> Vec<String>, D: Fn(&String) -> Vec<String>>(
    dir: &str,
    kind: &str,
    is_file: &F,
    list_files: &L,
    list_dirs: &D,
) -> (r: Option<String>)
    requires
        forall|s: &String| call_requires(*is_file, (s,)),
        forall|s: &String| call_requires(*list_files, (s,)),
        forall|s: &String| call_requires(*list_dirs, (s,)),
    ensures
        preview_spec(*is_file, *list_files, *list_dirs, dir@, kind@, opt_view(r)),
        !kind_has_preview(kind@) ==> r is None,
{
    proof {
        reveal_strlit("global");
        reveal_strlit("sddm");
        reveal_strlit("wallpapers");
        reveal_strlit("plasma");
        reveal_strlit("kvantum");
    }
    let k = chars_of(kind);
    let d = owned(dir);
    if is_kind(&k, "global") {
        let m = first_media(&join(dir, "contents/previews"), list_files);
        if m.is_some() {
            return m;
        }
        let names = strings(&["preview.png", "fullscreenpreview.jpg", "screenshot.png"]);
        assert(string_views(names@) =~= global_names());
        let r = named_file(dir, &names, is_file);
        assert(media_of(*list_files, join_path(dir@, "contents/previews"@), opt_view(m)));
        r
    } else if is_kind(&k, "sddm") {
        let names = strings(&["preview.png", "preview.jpg", "screenshot.png"]);
        assert(string_views(names@) =~= root_preview_names());
        let n = named_file(dir, &names, is_file);
        assert(first_said(*is_file, joined(dir@, root_preview_names()), opt_view(n)));
        if n.is_some() {
            return n;
        }
        let m = first_media(&join(dir, "backgrounds"), list_files);
        assert(media_of(*list_files, join_path(dir@, "backgrounds"@), opt_view(m)));
        if m.is_some() {
            return m;
        }
        find_media_deep(&d, 3, list_files, list_dirs)
    } else if is_kind(&k, "wallpapers") {
        let contents = join(dir, "contents");
        let names = strings(&["screenshot.png", "preview.png"]);
        assert(string_views(names@) =~= wallpaper_names());
        let n = named_file(contents.as_str(), &names, is_file);
        assert(first_said(*is_file, joined(join_path(dir@, "contents"@), wallpaper_names()), opt_view(n)));
        if n.is_some() {
            return n;
        }
        let m = first_media(&join(dir, "contents/images"), list_files);
        assert(media_of(*list_files, join_path(dir@, "contents/images"@), opt_view(m)));
        if m.is_some() {
            return m;
        }
        first_media(&join(dir, "contents/images_dark"), list_files)
    } else if is_kind(&k, "plasma") {
        let names = strings(&["preview.png", "preview.jpg", "screenshot.png"]);
        assert(string_views(names@) =~= root_preview_names());
        let n = named_file(dir, &names, is_file);
        assert(first_said(*is_file, joined(dir@, root_preview_names()), opt_view(n)));
        if n.is_some() {
            return n;
        }
        let dialogs = join(dir, "dialogs");
        let dnames = strings(&["background.svg", "background.svgz"]);
        assert(string_views(dnames@) =~= dialog_names());
        let m = named_file(dialogs.as_str(), &dnames, is_file);
        assert(first_said(*is_file, joined(join_path(dir@, "dialogs"@), dialog_names()), opt_view(m)));
        if m.is_some() {
            return m;
        }
        first_media(&dialogs, list_files)
    } else if is_kind(&k, "kvantum") {
        first_media(&d, list_files)
    } else {
        None
    }
}

/// Formats a browser may not render directly: rasterized to a cached PNG.
pub open spec fn render_exts() -> Seq<Seq<char>> {
    seq!["svg"@, "svgz"@, "mp4"@, "webm"@, "avif"@]
}

/// `t` is what a preview path `p` becomes: itself for a raster format, else
/// what `render` gave for it.
pub open spec fn thumb_of<R: Fn(&String) -> String>(render: R, p: Seq<char>, t: Seq<char>) -> bool {
    match extension(p) {
        None => false,
        Some(e) => if render_exts().contains(ascii_lower_str(e)) {
            exists|s: String, x: String| s@ == p && x@ == t && call_ensures(render, (&s,), x)
        } else {
            t == p
        },
    }
}

/// What a preview path becomes: `None` without an extension, itself for a
/// raster format, else what `render` (rasterize to the thumbnail cache,
/// falling back to the original) gives for it.
pub fn thumb_path_for<R: Fn(&String) -> String>(path: &String, render: &R) -> (r: Option<String>)
    requires
        forall|s: &String| call_requires(*render, (s,)),
    ensures
        extension(path@) is None <==> r is None,
        r matches Some(t) ==> thumb_of(*render, path@, t@),
        extension(path@) matches Some(e) ==> if render_exts().contains(ascii_lower_str(e)) {
            r matches Some(x) && call_ensures(*render, (path,), x)
        } else {
            opt_view(r) == Some(path@)
        },
{
    match extension_of(path.as_str()) {
        None => None,
        Some(e) => {
            let l = ascii_lower_chars(&e);
            let exts = ["svg", "svgz", "mp4", "webm", "avif"];
            proof {
                assert(exts@.map_values(|x: &str| x@) =~= render_exts());
            }
            if in_list(&l, &exts) {
                Some(render(path))
            } else {
                Some(path.clone())
            }
        },
    }
}

/// The preview shown after rasterizing `original` to `out`: the rasterized
/// file when the conversion succeeded, else the original file.
pub fn rendered_preview(out: &String, original: &String, converted: bool) -> (r: String)
    ensures
        r@ == if converted {
            out@
        } else {
            original@
        },
{
    if converted {
        out.clone()
    } else {
        original.clone()
    }
}

// ---------------------------------------------------------------- icon themes

pub open spec fn icon_theme_dirs() -> Seq<Seq<char>> {
    seq![
        "scalable"@, "apps"@, "actions"@, "categories"@, "places"@, "devices"@, "mimetypes"@,
        "status"@, "emblems"@, "animations"@, "panel"@, "preferences"@, "symbolic"@, "16x16"@,
        "22x22"@, "24x24"@, "32x32"@, "48x48"@, "64x64"@, "128x128"@, "256x256"@, "512x512"@,
    ]
}

/// A real icon theme has `index.theme` and at least one icon size or
/// category directory (cursor themes have `index.theme` and `cursors/` only).
pub fn is_icon_theme<F: Fn(&String) -> bool>(dir: &str, present: &F) -> (r: bool)
    requires
        forall|s: &String| call_requires(*present, (s,)),
    ensures
        r ==> said(*present, join_path(dir@, "index.theme"@), true) && exists|k: int|
            0 <= k < icon_theme_dirs().len() && said(
                *present,
                join_path(dir@, #[trigger] icon_theme_dirs()[k]),
                true,
            ),
        !r ==> said(*present, join_path(dir@, "index.theme"@), false) || forall|k: int|
            0 <= k < icon_theme_dirs().len() ==> said(
                *present,
                join_path(dir@, #[trigger] icon_theme_dirs()[k]),
                false,
            ),
{
    if !has_entry(dir, "index.theme", present) {
        return false;
    }
    let names = strings(
        &[
            "scalable",
            "apps",
            "actions",
            "categories",
            "places",
            "devices",
            "mimetypes",
            "status",
            "emblems",
            "animations",
            "panel",
            "preferences",
            "symbolic",
            "16x16",
            "22x22",
            "24x24",
            "32x32",
            "48x48",
            "64x64",
            "128x128",
            "256x256",
            "512x512",
        ],
    );
    let cands = join_all(dir, &names);
    let ghost cs = joined(dir@, icon_theme_dirs());
    assert(string_views(names@) =~= icon_theme_dirs());
    assert(icon_theme_dirs().len() == 22);
    assert(string_views(cands@) == cs);
    assert(cands@.len() == string_views(cands@).len());
    assert(cs.len() == 22);
    match first_accepted(&cands, present) {
        Some(k) => {
            assert(string_views(cands@)[k as int] == cands@[k as int]@);
            assert(cs[k as int] == join_path(dir@, icon_theme_dirs()[k as int]));
            true
        },
        None => {
            assert forall|k: int| 0 <= k < icon_theme_dirs().len() implies said(
                *present,
                join_path(dir@, #[trigger] icon_theme_dirs()[k]),
                false,
            ) by {
                assert(string_views(cands@)[k] == cands@[k]@);
                assert(cs[k] == join_path(dir@, icon_theme_dirs()[k]));
            }
            false
        },
    }
}

/// The `Inherits=` line of an `index.theme`, after the `=`.
pub open spec fn inherits_line(ls: Seq<Seq<char>>) -> Option<Seq<char>>
    decreases ls.len(),
{
    if ls.len() == 0 {
        None
    } else if has_prefix(trim(ls[0]), "Inherits="@) {
        Some(trim(ls[0]).skip("Inherits="@.len() as int))
    } else {
        inherits_line(ls.drop_first())
    }
}

/// The parent themes an `index.theme` names (comma-separated, trimmed, empty names dropped).
pub open spec fn inherits_spec(text: Seq<char>) -> Seq<Seq<char>> {
    match inherits_line(lines(text)) {
        Some(rest) => nonempty_parts(split_on(rest, ',').map_values(|s: Seq<char>| trim(s))),
        None => Seq::empty(),
    }
}

/// The parent themes named by the `Inherits=` line of an `index.theme` (its content).
pub fn inherits_of(text: &str) -> (r: Vec<String>)
    ensures
        string_views(r@) == inherits_spec(text@),
{
    let v = chars_of(text);
    let ls = lines_chars(&v);
    let ghost all = views(ls@);
    let key = chars_of("Inherits=");
    let mut i: usize = 0;
    assert(all.skip(0) =~= all);
    while i < ls.len()
        invariant
            i <= ls.len(),
            all == views(ls@),
            all == lines(v@),
            v@ == text@,
            key@ == "Inherits="@,
            inherits_line(all) == inherits_line(all.skip(i as int)),
        decreases ls.len() - i,
    {
        assert(all.skip(i as int)[0] == ls@[i as int]@);
        assert(all.skip(i as int).drop_first() =~= all.skip(i + 1));
        let t = trim_chars(&ls[i]);
        assert(t@.skip(0) =~= t@);
        if matches_at(&t, 0, &key) {
            let rest = slice_chars(&t, key.len(), t.len());
            assert(rest@ =~= t@.skip("Inherits="@.len() as int));
            let parts = split_chars(&rest, ',');
            let mut trimmed: Vec<Vec<char>> = Vec::new();
            let mut j: usize = 0;
            while j < parts.len()
                invariant
                    j <= parts.len(),
                    views(trimmed@) == views(parts@).map_values(|s: Seq<char>| trim(s)).take(j as int),
                decreases parts.len() - j,
            {
                let ghost before = views(trimmed@);
                trimmed.push(trim_chars(&parts[j]));
                assert(views(trimmed@) =~= before.push(trim(parts@[j as int]@)));
                assert(views(parts@).map_values(|s: Seq<char>| trim(s)).take(j + 1) =~= views(
                    parts@,
                ).map_values(|s: Seq<char>| trim(s)).take(j as int).push(trim(parts@[j as int]@)));
                j += 1;
            }
            assert(views(parts@).map_values(|s: Seq<char>| trim(s)).take(parts.len() as int)
                =~= views(parts@).map_values(|s: Seq<char>| trim(s)));
            let kept = nonempty_parts_exec(&trimmed);
            let mut out: Vec<String> = Vec::new();
            let mut k: usize = 0;
            while k < kept.len()
                invariant
                    k <= kept.len(),
                    string_views(out@) == views(kept@).take(k as int),
                decreases kept.len() - k,
            {
                let ghost before = string_views(out@);
                out.push(string_of(&kept[k]));
                assert(string_views(out@) =~= before.push(kept@[k as int]@));
                assert(views(kept@).take(k + 1) =~= views(kept@).take(k as int).push(kept@[k as int]@));
                k += 1;
            }
            assert(views(kept@).take(kept.len() as int) =~= views(kept@));
            return out;
        }
        i += 1;
    }
    let out: Vec<String> = Vec::new();
    assert(string_views(out@) =~= Seq::<Seq<char>>::empty());
    out
}

/// `Path::parent` of `p`.
pub uninterp spec fn parent_of(p: Seq<char>) -> Option<Seq<char>>;

/// `Path::parent`. Its result is named `parent_of`; how `Path` splits
/// components is not written out.
#[verifier::external_body]
fn path_parent(p: &str) -> (r: Option<String>)
    ensures
        opt_view(r) == parent_of(p@),
{
    std::path::Path::new(p).parent().map(|q| q.to_string_lossy().to_string())
}

/// Whether `Path` compares `a` and `b` equal (component by component).
pub uninterp spec fn same_path(a: Seq<char>, b: Seq<char>) -> bool;

/// `Path == Path`. Its result is named `same_path`; the component
/// normalization behind it is not written out.
#[verifier::external_body]
fn paths_equal(a: &str, b: &str) -> (r: bool)
    ensures
        r == same_path(a@, b@),
{
    std::path::Path::new(a) == std::path::Path::new(b)
}

fn contains_path(v: &Vec<String>, p: &String) -> (r: bool)
    ensures
        r == exists|k: int| 0 <= k < v.len() && same_path(#[trigger] v@[k]@, p@),
{
    let mut i: usize = 0;
    while i < v.len()
        invariant
            i <= v.len(),
            forall|k: int| 0 <= k < i ==> !same_path(#[trigger] v@[k]@, p@),
        decreases v.len() - i,
    {
        if paths_equal(v[i].as_str(), p.as_str()) {
            return true;
        }
        i += 1;
    }
    false
}

pub open spec fn system_icon_root() -> Seq<char> {
    "/usr/share/icons"@
}

pub open spec fn fallback_themes() -> Seq<Seq<char>> {
    seq!["hicolor"@, "breeze"@, "breeze-dark"@]
}

/// `f` read `t` for the path `p`.
pub open spec fn read_gave<T: Fn(&String) -> Option<String>>(f: T, p: Seq<char>, t: Option<String>) -> bool {
    exists|s: String| s@ == p && call_ensures(f, (&s,), t)
}

/// The theme names looked up after a theme: its `Inherits=` parents (from
/// its `index.theme`, when read), then hicolor, breeze and breeze-dark.
pub open spec fn chain_names(index: Option<String>) -> Seq<Seq<char>> {
    (match index {
        Some(t) => inherits_spec(t@),
        None => Seq::empty(),
    }) + fallback_themes()
}

/// The directories the chain's themes are looked up in: the theme's parent
/// directory, then `/usr/share/icons` when it is a directory and not the parent.
pub open spec fn chain_roots<D: Fn(&String) -> bool>(is_dir: D, dir: Seq<char>, roots: Seq<Seq<char>>) -> bool {
    let parent = match parent_of(dir) {
        Some(p) => seq![p],
        None => Seq::empty(),
    };
    let shared = parent.len() == 1 && same_path(parent[0], system_icon_root());
    ||| roots == parent && (said(is_dir, system_icon_root(), false) || shared)
    ||| roots == parent.push(system_icon_root()) && said(is_dir, system_icon_root(), true) && !shared
}

/// Some entry of `chain` compares equal to `p` as a `Path`.
pub open spec fn has_same_path(chain: Seq<Seq<char>>, p: Seq<char>) -> bool {
    exists|k: int| 0 <= k < chain.len() && same_path(#[trigger] chain[k], p)
}

/// One step of building the chain: `p` is appended when the probe said it is
/// a directory and no entry so far is the same path.
pub open spec fn add_dir(chain: Seq<Seq<char>>, p: Seq<char>, d: bool) -> Seq<Seq<char>> {
    if d && !has_same_path(chain, p) {
        chain.push(p)
    } else {
        chain
    }
}

/// The chain after trying `root/name` for the first `ds.len()` names in
/// order, `ds` holding the probe's answers.
pub open spec fn fold_names(chain: Seq<Seq<char>>, root: Seq<char>, names: Seq<Seq<char>>, ds: Seq<bool>) -> Seq<
    Seq<char>,
>
    decreases ds.len(),
{
    if ds.len() == 0 {
        chain
    } else {
        add_dir(
            fold_names(chain, root, names, ds.drop_last()),
            join_path(root, names[ds.len() - 1]),
            ds.last(),
        )
    }
}

/// The chain after trying every name under each of the first `dss.len()`
/// roots, root by root; `dss[a][b]` is the probe's answer for `roots[a]/names[b]`.
pub open spec fn fold_roots(
    chain: Seq<Seq<char>>,
    roots: Seq<Seq<char>>,
    names: Seq<Seq<char>>,
    dss: Seq<Seq<bool>>,
) -> Seq<Seq<char>>
    decreases dss.len(),
{
    if dss.len() == 0 {
        chain
    } else {
        fold_names(fold_roots(chain, roots, names, dss.drop_last()), roots[dss.len() - 1], names, dss.last())
    }
}

/// `dss` holds, for every root and every name, what the probe said of
/// `root/name`.
pub open spec fn dir_answers<D: Fn(&String) -> bool>(
    is_dir: D,
    roots: Seq<Seq<char>>,
    names: Seq<Seq<char>>,
    dss: Seq<Seq<bool>>,
) -> bool {
    &&& dss.len() == roots.len()
    &&& forall|a: int| 0 <= a < roots.len() ==> (#[trigger] dss[a]).len() == names.len()
    &&& forall|a: int, b: int|
        0 <= a < roots.len() && 0 <= b < names.len() ==> said(is_dir, join_path(roots[a], names[b]), #[trigger] dss[a][b])
}

/// `r` is the lookup chain of the icon theme `dir` as the probes answered:
/// `dir`, then each `root/name` in root-major order (roots per
/// `chain_roots`, names per `chain_names`) that the probe said is a
/// directory, each path once.
pub open spec fn is_icon_chain<T: Fn(&String) -> Option<String>, D: Fn(&String) -> bool>(
    read_text: T,
    is_dir: D,
    dir: Seq<char>,
    r: Seq<Seq<char>>,
) -> bool {
    exists|index: Option<String>, roots: Seq<Seq<char>>, dss: Seq<Seq<bool>>|
        #![trigger read_gave(read_text, join_path(dir, "index.theme"@), index), chain_roots(is_dir, dir, roots), dir_answers(is_dir, roots, chain_names(index), dss)]
        read_gave(read_text, join_path(dir, "index.theme"@), index) && chain_roots(is_dir, dir, roots)
            && dir_answers(is_dir, roots, chain_names(index), dss)
            && r == fold_roots(seq![dir], roots, chain_names(index), dss)
}

/// The lookup chain of an icon theme, as KIconLoader builds it: the theme
/// itself, then its `Inherits=` parents and hicolor/breeze/breeze-dark,
/// looked up next to the theme and in `/usr/share/icons`, each directory once.
pub fn icon_chain<T: Fn(&String) -> Option<String>, F: Fn(&String) -> bool>(
    dir: &str,
    read_text: &T,
    is_dir: &F,
) -> (r: Vec<String>)
    requires
        forall|s: &String| call_requires(*read_text, (s,)),
        forall|s: &String| call_requires(*is_dir, (s,)),
    ensures
        r.len() >= 1,
        r@[0]@ == dir@,
        forall|k: int| 1 <= k < r.len() ==> said(*is_dir, #[trigger] r@[k]@, true),
        forall|k: int, j: int| 1 <= k < r.len() && 0 <= j < k ==> !same_path(#[trigger] r@[j]@, #[trigger] r@[k]@),
        is_icon_chain(*read_text, *is_dir, dir@, string_views(r@)),
{
    let index = join(dir, "index.theme");
    let text = read_text(&index);
    assert(read_gave(*read_text, join_path(dir@, "index.theme"@), text));
    let inherits = match &text {
        Some(t) => inherits_of(t.as_str()),
        None => Vec::new(),
    };
    let mut chain: Vec<String> = Vec::new();
    chain.push(owned(dir));
    let mut roots: Vec<String> = Vec::new();
    match path_parent(dir) {
        Some(p) => roots.push(p),
        None => {},
    }
    let ghost parent = match parent_of(dir@) {
        Some(p) => seq![p],
        None => Seq::<Seq<char>>::empty(),
    };
    assert(string_views(roots@) =~= parent);
    let system = owned("/usr/share/icons");
    let sys_dir = is_dir(&system);
    assert(said(*is_dir, system_icon_root(), sys_dir));
    if sys_dir {
        let shared = contains_path(&roots, &system);
        assert(shared == (parent.len() == 1 && same_path(parent[0], system_icon_root()))) by {
            if parent.len() == 1 {
                assert(roots@[0]@ == parent[0]);
            }
        }
        if !shared {
            roots.push(system);
        }
    }
    proof {
        if sys_dir && !(parent.len() == 1 && same_path(parent[0], system_icon_root())) {
            assert(string_views(roots@) =~= parent.push(system_icon_root()));
        } else {
            assert(string_views(roots@) =~= parent);
        }
        assert(chain_roots(*is_dir, dir@, string_views(roots@)));
    }
    let mut names = inherits;
    names.push(owned("hicolor"));
    names.push(owned("breeze"));
    names.push(owned("breeze-dark"));
    let ghost rs = string_views(roots@);
    let ghost ns = chain_names(text);
    assert(string_views(names@) =~= ns);
    assert(string_views(chain@) =~= seq![dir@]);
    let ghost mut dss: Seq<Seq<bool>> = Seq::empty();
    let mut a: usize = 0;
    while a < roots.len()
        invariant
            a <= roots.len(),
            rs == string_views(roots@),
            ns == string_views(names@),
            chain.len() >= 1,
            chain@[0]@ == dir@,
            forall|s: &String| call_requires(*is_dir, (s,)),
            forall|k: int| 1 <= k < chain.len() ==> said(*is_dir, #[trigger] chain@[k]@, true),
            forall|k: int, j: int|
                1 <= k < chain.len() && 0 <= j < k ==> !same_path(#[trigger] chain@[j]@, #[trigger] chain@[k]@),
            dss.len() == a,
            forall|x: int| 0 <= x < a ==> (#[trigger] dss[x]).len() == ns.len(),
            forall|x: int, y: int|
                0 <= x < a && 0 <= y < ns.len() ==> said(*is_dir, join_path(rs[x], ns[y]), #[trigger] dss[x][y]),
            string_views(chain@) == fold_roots(seq![dir@], rs, ns, dss),
        decreases roots.len() - a,
    {
        let ghost start = string_views(chain@);
        let ghost mut cur: Seq<bool> = Seq::empty();
        let mut b: usize = 0;
        while b < names.len()
            invariant
                b <= names.len(),
                a < roots.len(),
                rs == string_views(roots@),
                ns == string_views(names@),
                chain.len() >= 1,
                chain@[0]@ == dir@,
                forall|s: &String| call_requires(*is_dir, (s,)),
                forall|k: int| 1 <= k < chain.len() ==> said(*is_dir, #[trigger] chain@[k]@, true),
                forall|k: int, j: int|
                    1 <= k < chain.len() && 0 <= j < k ==> !same_path(#[trigger] chain@[j]@, #[trigger] chain@[k]@),
                cur.len() == b,
                forall|y: int| 0 <= y < b ==> said(*is_dir, join_path(rs[a as int], ns[y]), #[trigger] cur[y]),
                string_views(chain@) == fold_names(start, rs[a as int], ns, cur),
            decreases names.len() - b,
        {
            assert(rs[a as int] == roots@[a as int]@);
            assert(ns[b as int] == names@[b as int]@);
            let p = join(roots[a].as_str(), names[b].as_str());
            assert(p@ == join_path(rs[a as int], ns[b as int]));
            let d = is_dir(&p);
            assert(said(*is_dir, join_path(rs[a as int], ns[b as int]), d));
            let present = contains_path(&chain, &p);
            let ghost before = chain@;
            proof {
                assert(cur.push(d).drop_last() =~= cur);
                assert(present == has_same_path(string_views(before), p@)) by {
                    if present {
                        let k = choose|k: int| 0 <= k < before.len() && same_path(#[trigger] before[k]@, p@);
                        assert(string_views(before)[k] == before[k]@);
                    }
                    if has_same_path(string_views(before), p@) {
                        let k = choose|k: int|
                            0 <= k < string_views(before).len() && same_path(#[trigger] string_views(before)[k], p@);
                        assert(string_views(before)[k] == before[k]@);
                    }
                }
            }
            if d && !present {
                chain.push(p);
                assert(string_views(chain@) =~= string_views(before).push(p@));
                assert forall|k: int, j: int|
                    1 <= k < chain.len() && 0 <= j < k implies !same_path(
                    #[trigger] chain@[j]@,
                    #[trigger] chain@[k]@,
                ) by {
                    if k < before.len() {
                        assert(chain@[k] == before[k]);
                        assert(chain@[j] == before[j]);
                    } else {
                        assert(chain@[j] == before[j]);
                    }
                }
                assert forall|k: int| 1 <= k < chain.len() implies said(*is_dir, #[trigger] chain@[k]@, true) by {
                    if k < before.len() {
                        assert(chain@[k] == before[k]);
                    }
                }
            }
            proof {
                cur = cur.push(d);
            }
            b += 1;
        }
        proof {
            assert(dss.push(cur).drop_last() =~= dss);
            dss = dss.push(cur);
        }
        a += 1;
    }
    proof {
        assert(read_gave(*read_text, join_path(dir@, "index.theme"@), text) && chain_roots(*is_dir, dir@, rs));
        assert(dir_answers(*is_dir, rs, ns, dss));
    }
    chain
}

pub open spec fn icon_subdirs() -> Seq<Seq<char>> {
    seq!["places"@, "apps"@, "devices"@, "actions"@, "mimetypes"@, "categories"@, "status"@, "emblems"@]
}

pub open spec fn icon_sizes() -> Seq<Seq<char>> {
    seq![
        "scalable"@, "symbolic"@, "48"@, "64"@, "32"@, "24"@, "22"@, "16"@, "128"@, "256"@,
        "16x16"@, "22x22"@, "24x24"@, "32x32"@, "48x48"@, "64x64"@, "128x128"@, "256x256"@,
        "512x512"@,
    ]
}

pub open spec fn icon_exts() -> Seq<Seq<char>> {
    seq!["png"@, "svg"@, "svgz"@]
}

pub open spec fn join3(a: Seq<char>, b: Seq<char>, c: Seq<char>, d: Seq<char>) -> Seq<char> {
    join_path(join_path(join_path(a, b), c), d)
}

/// The files looked at for one extension: `category/size/file` for every
/// category and size, then `size/category/file`.
pub open spec fn icon_layouts(theme: Seq<char>, file: Seq<char>) -> Seq<Seq<char>> {
    by_category(theme, file) + by_size(theme, file)
}

/// `category/size/file` for every category, then every size within it.
pub open spec fn by_category(theme: Seq<char>, file: Seq<char>) -> Seq<Seq<char>> {
    Seq::new(152, |r: int| join3(theme, icon_subdirs()[r / 19], icon_sizes()[r % 19], file))
}

/// `size/category/file` for every size, then every category within it.
pub open spec fn by_size(theme: Seq<char>, file: Seq<char>) -> Seq<Seq<char>> {
    Seq::new(152, |q: int| join3(theme, icon_sizes()[q / 8], icon_subdirs()[q % 8], file))
}

/// Every path where one theme directory may hold the icon `name`, in the
/// order they are tried: PNG first, then SVG, then SVGZ.
pub open spec fn icon_candidates_spec(theme: Seq<char>, name: Seq<char>) -> Seq<Seq<char>> {
    icon_layouts(theme, name + seq!['.'] + icon_exts()[0]) + icon_layouts(
        theme,
        name + seq!['.'] + icon_exts()[1],
    ) + icon_layouts(theme, name + seq!['.'] + icon_exts()[2])
}

fn join3_exec(a: &str, b: &str, c: &str, d: &str) -> (r: String)
    ensures
        r@ == join3(a@, b@, c@, d@),
{
    let x = join(a, b);
    let y = join(x.as_str(), c);
    join(y.as_str(), d)
}

fn push_layouts(out: &mut Vec<String>, theme: &str, file: &str, subs: &Vec<String>, sizes: &Vec<String>)
    requires
        string_views(subs@) == icon_subdirs(),
        string_views(sizes@) == icon_sizes(),
    ensures
        string_views(final(out)@) == string_views(old(out)@) + icon_layouts(theme@, file@),
{
    let ghost start = string_views(out@);
    let ghost l1 = by_category(theme@, file@);
    let ghost l2 = by_size(theme@, file@);
    let mut r: usize = 0;
    while r < 152
        invariant
            r <= 152,
            string_views(subs@) == icon_subdirs(),
            string_views(sizes@) == icon_sizes(),
            l1 == by_category(theme@, file@),
            string_views(out@) == start + l1.take(r as int),
        decreases 152 - r,
    {
        proof {
            let i = (r / 19) as int;
            let j = (r % 19) as int;
            assert(icon_subdirs().len() == 8 && icon_sizes().len() == 19);
            assert(subs@.len() == string_views(subs@).len() && sizes@.len() == string_views(sizes@).len());
            assert(0 <= i < 8 && 0 <= j < 19);
            assert(string_views(subs@)[i] == subs@[i]@);
            assert(string_views(sizes@)[j] == sizes@[j]@);
        }
        let ghost before = string_views(out@);
        out.push(join3_exec(theme, subs[r / 19].as_str(), sizes[r % 19].as_str(), file));
        assert(string_views(out@) =~= before.push(l1[r as int]));
        assert(l1.take(r + 1) =~= l1.take(r as int).push(l1[r as int]));
        r += 1;
    }
    assert(l1.take(152) =~= l1);
    let mut q: usize = 0;
    while q < 152
        invariant
            q <= 152,
            string_views(subs@) == icon_subdirs(),
            string_views(sizes@) == icon_sizes(),
            l1 == by_category(theme@, file@),
            l2 == by_size(theme@, file@),
            string_views(out@) == start + l1 + l2.take(q as int),
        decreases 152 - q,
    {
        proof {
            let i = (q / 8) as int;
            let j = (q % 8) as int;
            assert(icon_subdirs().len() == 8 && icon_sizes().len() == 19);
            assert(subs@.len() == string_views(subs@).len() && sizes@.len() == string_views(sizes@).len());
            assert(0 <= i < 19 && 0 <= j < 8);
            assert(string_views(sizes@)[i] == sizes@[i]@);
            assert(string_views(subs@)[j] == subs@[j]@);
        }
        let ghost before = string_views(out@);
        out.push(join3_exec(theme, sizes[q / 8].as_str(), subs[q % 8].as_str(), file));
        assert(string_views(out@) =~= before.push(l2[q as int]));
        assert(l2.take(q + 1) =~= l2.take(q as int).push(l2[q as int]));
        q += 1;
    }
    assert(l2.take(152) =~= l2);
    assert(string_views(out@) =~= start + icon_layouts(theme@, file@));
}

fn icon_file(name: &str, ext: &str) -> (r: String)
    ensures
        r@ == name@ + seq!['.'] + ext@,
{
    let mut v = chars_of(name);
    v.push('.');
    crate::text::extend_chars(&mut v, &chars_of(ext));
    string_of(&v)
}

/// Every path where the theme directory `theme` may hold the icon `name`,
/// in the order they are tried.
pub fn icon_candidates(theme: &str, name: &str) -> (r: Vec<String>)
    ensures
        string_views(r@) == icon_candidates_spec(theme@, name@),
{
    let subs = strings(&["places", "apps", "devices", "actions", "mimetypes", "categories", "status", "emblems"]);
    let sizes = strings(
        &[
            "scalable",
            "symbolic",
            "48",
            "64",
            "32",
            "24",
            "22",
            "16",
            "128",
            "256",
            "16x16",
            "22x22",
            "24x24",
            "32x32",
            "48x48",
            "64x64",
            "128x128",
            "256x256",
            "512x512",
        ],
    );
    proof {
        assert(string_views(subs@) =~= icon_subdirs());
        assert(string_views(sizes@) =~= icon_sizes());
    }
    let mut out: Vec<String> = Vec::new();
    assert(string_views(out@) =~= Seq::<Seq<char>>::empty());
    push_layouts(&mut out, theme, icon_file(name, "png").as_str(), &subs, &sizes);
    push_layouts(&mut out, theme, icon_file(name, "svg").as_str(), &subs, &sizes);
    push_layouts(&mut out, theme, icon_file(name, "svgz").as_str(), &subs, &sizes);
    assert(string_views(out@) =~= icon_candidates_spec(theme@, name@));
    out
}

/// `p` is, for some theme directory, the first of its candidate paths for
/// the icon `name` that the probe accepted, every earlier candidate refused
/// (so of one theme a PNG is taken before an SVG, an SVG before an SVGZ).
pub open spec fn icon_found<F: Fn(&String) -> bool>(f: F, name: Seq<char>, p: Seq<char>) -> bool {
    exists|t: Seq<char>| #[trigger] first_said(f, icon_candidates_spec(t, name), Some(p))
}

/// `p` is the icon `name` looked up along `chain`: the first candidate
/// accepted in the first theme of the chain that has one; `None` when no
/// theme has one.
pub open spec fn chain_lookup<F: Fn(&String) -> bool>(
    is_file: F,
    chain: Seq<Seq<char>>,
    name: Seq<char>,
    r: Option<Seq<char>>,
) -> bool {
    match r {
        Some(p) => exists|i: int|
            0 <= i < chain.len() && #[trigger] first_said(is_file, icon_candidates_spec(chain[i], name), Some(p))
                && forall|j: int|
                0 <= j < i ==> first_said(is_file, #[trigger] icon_candidates_spec(chain[j], name), None),
        None => forall|j: int|
            0 <= j < chain.len() ==> first_said(is_file, #[trigger] icon_candidates_spec(chain[j], name), None),
    }
}

/// `r` is what looking up the icon `name` for the theme `dir` gave: the
/// lookup along some chain of the theme, as the probes answered.
pub open spec fn icon_lookup<T: Fn(&String) -> Option<String>, D: Fn(&String) -> bool, F: Fn(&String) -> bool>(
    read_text: T,
    is_dir: D,
    is_file: F,
    dir: Seq<char>,
    name: Seq<char>,
    r: Option<Seq<char>>,
) -> bool {
    exists|chain: Seq<Seq<char>>|
        #[trigger] is_icon_chain(read_text, is_dir, dir, chain) && chain_lookup(is_file, chain, name, r)
}

/// One icon by name: the first candidate file of the first theme in the
/// lookup chain that has one.
pub fn find_icon<T: Fn(&String) -> Option<String>, D: Fn(&String) -> bool, F: Fn(&String) -> bool>(
    dir: &str,
    name: &str,
    read_text: &T,
    is_dir: &D,
    is_file: &F,
) -> (r: Option<String>)
    requires
        forall|s: &String| call_requires(*read_text, (s,)),
        forall|s: &String| call_requires(*is_dir, (s,)),
        forall|s: &String| call_requires(*is_file, (s,)),
    ensures
        icon_lookup(*read_text, *is_dir, *is_file, dir@, name@, opt_view(r)),
        r matches Some(p) ==> said(*is_file, p@, true) && icon_found(*is_file, name@, p@),
        r is None ==> first_said(*is_file, icon_candidates_spec(dir@, name@), None),
{
    let chain = icon_chain(dir, read_text, is_dir);
    let ghost c = string_views(chain@);
    let mut i: usize = 0;
    while i < chain.len()
        invariant
            i <= chain.len(),
            c == string_views(chain@),
            is_icon_chain(*read_text, *is_dir, dir@, c),
            chain@[0]@ == dir@,
            forall|s: &String| call_requires(*is_file, (s,)),
            forall|j: int| 0 <= j < i ==> first_said(*is_file, #[trigger] icon_candidates_spec(c[j], name@), None),
        decreases chain.len() - i,
    {
        assert(c[i as int] == chain@[i as int]@);
        let cands = icon_candidates(chain[i].as_str(), name);
        match first_accepted_path(&cands, is_file) {
            Some(p) => {
                let ghost t = chain@[i as int]@;
                assert(first_said(*is_file, icon_candidates_spec(t, name@), Some(p@)));
                let ghost k = choose|k: int|
                    0 <= k < icon_candidates_spec(t, name@).len() && p@ == icon_candidates_spec(t, name@)[k]
                        && said(*is_file, icon_candidates_spec(t, name@)[k], true) && forall|j: int|
                        0 <= j < k ==> said(*is_file, #[trigger] icon_candidates_spec(t, name@)[j], false);
                assert(said(*is_file, p@, true));
                assert(chain_lookup(*is_file, c, name@, Some(p@)));
                assert(icon_lookup(*read_text, *is_dir, *is_file, dir@, name@, Some(p@)));
                return Some(p);
            },
            None => {
                assert(first_said(*is_file, icon_candidates_spec(c[i as int], name@), None));
            },
        }
        i += 1;
    }
    assert(c[0] == dir@);
    assert(chain_lookup(*is_file, c, name@, None));
    None
}

/// The six icon slots KDE previews an icon theme with, each a list of
/// names tried in order.
pub open spec fn icon_slots() -> Seq<Seq<Seq<char>>> {
    seq![
        seq!["system-run"@, "exec"@],
        seq!["folder"@],
        seq!["document"@, "text-x-generic"@],
        seq!["user-trash"@, "user-trash-empty"@],
        seq!["help-browser"@, "system-help"@, "help-about"@, "help-contents"@],
        seq!["preferences-system"@, "systemsettings"@, "configure"@],
    ]
}

/// What the slot with `names` found for the theme `dir`: the icon of the
/// first of its names that has one, or `None` when none has.
pub open spec fn names_found<T: Fn(&String) -> Option<String>, D: Fn(&String) -> bool, F: Fn(&String) -> bool>(
    read_text: T,
    is_dir: D,
    is_file: F,
    dir: Seq<char>,
    names: Seq<Seq<char>>,
    r: Option<Seq<char>>,
) -> bool {
    match r {
        Some(p) => exists|j: int|
            0 <= j < names.len() && #[trigger] icon_lookup(read_text, is_dir, is_file, dir, names[j], Some(p))
                && forall|k: int|
                0 <= k < j ==> icon_lookup(read_text, is_dir, is_file, dir, #[trigger] names[k], None),
        None => forall|j: int|
            0 <= j < names.len() ==> icon_lookup(read_text, is_dir, is_file, dir, #[trigger] names[j], None),
    }
}

/// `t` is the preview of the icon slot `s` found.
pub open spec fn slot_icon<
    T: Fn(&String) -> Option<String>,
    D: Fn(&String) -> bool,
    F: Fn(&String) -> bool,
    R: Fn(&String) -> String,
>(read_text: T, is_dir: D, is_file: F, render: R, dir: Seq<char>, s: int, t: Seq<char>) -> bool {
    exists|p: Seq<char>|
        #[trigger] names_found(read_text, is_dir, is_file, dir, icon_slots()[s], Some(p)) && thumb_of(render, p, t)
}

/// Slot `s` shows nothing: none of its names has an icon, or the icon found
/// has no extension.
pub open spec fn slot_empty<T: Fn(&String) -> Option<String>, D: Fn(&String) -> bool, F: Fn(&String) -> bool>(
    read_text: T,
    is_dir: D,
    is_file: F,
    dir: Seq<char>,
    s: int,
) -> bool {
    ||| names_found(read_text, is_dir, is_file, dir, icon_slots()[s], None)
    ||| exists|p: Seq<char>|
        #[trigger] names_found(read_text, is_dir, is_file, dir, icon_slots()[s], Some(p)) && extension(p) is None
}

/// `v` holds, in slot order, the preview of each slot that shows one (the
/// slots `used`), the slots left out showing nothing.
pub open spec fn slot_icons<
    T: Fn(&String) -> Option<String>,
    D: Fn(&String) -> bool,
    F: Fn(&String) -> bool,
    R: Fn(&String) -> String,
>(read_text: T, is_dir: D, is_file: F, render: R, dir: Seq<char>, v: Seq<Seq<char>>, used: Seq<int>) -> bool {
    &&& used.len() == v.len()
    &&& forall|k: int|
        0 <= k < used.len() ==> 0 <= #[trigger] used[k] < 6 && slot_icon(
            read_text,
            is_dir,
            is_file,
            render,
            dir,
            used[k],
            v[k],
        )
    &&& forall|a: int, b: int| 0 <= a < b < used.len() ==> #[trigger] used[a] < #[trigger] used[b]
    &&& forall|s: int| 0 <= s < 6 && !used.contains(s) ==> #[trigger] slot_empty(read_text, is_dir, is_file, dir, s)
}

fn icon_slot_names() -> (r: Vec<Vec<String>>)
    ensures
        r.len() == 6,
        forall|s: int| 0 <= s < 6 ==> string_views(#[trigger] r@[s]@) == icon_slots()[s],
{
    let mut slots: Vec<Vec<String>> = Vec::new();
    slots.push(strings(&["system-run", "exec"]));
    slots.push(strings(&["folder"]));
    slots.push(strings(&["document", "text-x-generic"]));
    slots.push(strings(&["user-trash", "user-trash-empty"]));
    slots.push(strings(&["help-browser", "system-help", "help-about", "help-contents"]));
    slots.push(strings(&["preferences-system", "systemsettings", "configure"]));
    assert forall|s: int| 0 <= s < 6 implies string_views(#[trigger] slots@[s]@) == icon_slots()[s] by {
        if s == 0 {
            assert(string_views(slots@[0]@) =~= icon_slots()[0]);
        } else if s == 1 {
            assert(string_views(slots@[1]@) =~= icon_slots()[1]);
        } else if s == 2 {
            assert(string_views(slots@[2]@) =~= icon_slots()[2]);
        } else if s == 3 {
            assert(string_views(slots@[3]@) =~= icon_slots()[3]);
        } else if s == 4 {
            assert(string_views(slots@[4]@) =~= icon_slots()[4]);
        } else {
            assert(string_views(slots@[5]@) =~= icon_slots()[5]);
        }
    }
    slots
}

/// The icon of one slot: the first of its names that the theme has.
fn slot_icon_path<T: Fn(&String) -> Option<String>, D: Fn(&String) -> bool, F: Fn(&String) -> bool>(
    dir: &str,
    names: &Vec<String>,
    read_text: &T,
    is_dir: &D,
    is_file: &F,
) -> (r: Option<String>)
    requires
        forall|s: &String| call_requires(*read_text, (s,)),
        forall|s: &String| call_requires(*is_dir, (s,)),
        forall|s: &String| call_requires(*is_file, (s,)),
    ensures
        names_found(*read_text, *is_dir, *is_file, dir@, string_views(names@), opt_view(r)),
{
    let ghost ns = string_views(names@);
    let mut j: usize = 0;
    while j < names.len()
        invariant
            j <= names.len(),
            ns == string_views(names@),
            forall|s: &String| call_requires(*read_text, (s,)),
            forall|s: &String| call_requires(*is_dir, (s,)),
            forall|s: &String| call_requires(*is_file, (s,)),
            forall|k: int| 0 <= k < j ==> icon_lookup(*read_text, *is_dir, *is_file, dir@, #[trigger] ns[k], None),
        decreases names.len() - j,
    {
        assert(ns[j as int] == names@[j as int]@);
        match find_icon(dir, names[j].as_str(), read_text, is_dir, is_file) {
            Some(p) => {
                assert(icon_lookup(*read_text, *is_dir, *is_file, dir@, ns[j as int], Some(p@)));
                return Some(p);
            },
            None => {},
        }
        j += 1;
    }
    None
}

/// The six icons KDE previews an icon theme with, each slot taking the
/// first of its names that the theme has, as preview paths.
pub fn find_representative_icons<
    T: Fn(&String) -> Option<String>,
    D: Fn(&String) -> bool,
    F: Fn(&String) -> bool,
    R: Fn(&String) -> String,
>(dir: &str, read_text: &T, is_dir: &D, is_file: &F, render: &R) -> (r: Option<Vec<String>>)
    requires
        forall|s: &String| call_requires(*read_text, (s,)),
        forall|s: &String| call_requires(*is_dir, (s,)),
        forall|s: &String| call_requires(*is_file, (s,)),
        forall|s: &String| call_requires(*render, (s,)),
    ensures
        r matches Some(v) ==> 1 <= v.len() <= 6 && exists|used: Seq<int>|
            #[trigger] slot_icons(*read_text, *is_dir, *is_file, *render, dir@, string_views(v@), used),
        r is None ==> forall|s: int|
            0 <= s < 6 ==> #[trigger] slot_empty(*read_text, *is_dir, *is_file, dir@, s),
{
    let slots = icon_slot_names();
    let mut out: Vec<String> = Vec::new();
    let ghost mut used: Seq<int> = Seq::empty();
    let mut i: usize = 0;
    while i < slots.len()
        invariant
            i <= slots.len() == 6,
            forall|s: int| 0 <= s < 6 ==> string_views(#[trigger] slots@[s]@) == icon_slots()[s],
            out.len() <= i,
            forall|s: &String| call_requires(*read_text, (s,)),
            forall|s: &String| call_requires(*is_dir, (s,)),
            forall|s: &String| call_requires(*is_file, (s,)),
            forall|s: &String| call_requires(*render, (s,)),
            used.len() == out.len(),
            forall|k: int| 0 <= k < used.len() ==> #[trigger] used[k] < i,
            forall|k: int|
                0 <= k < used.len() ==> 0 <= #[trigger] used[k] < 6 && slot_icon(
                    *read_text,
                    *is_dir,
                    *is_file,
                    *render,
                    dir@,
                    used[k],
                    string_views(out@)[k],
                ),
            forall|a: int, b: int| 0 <= a < b < used.len() ==> #[trigger] used[a] < #[trigger] used[b],
            forall|s: int|
                0 <= s < i && !used.contains(s) ==> #[trigger] slot_empty(*read_text, *is_dir, *is_file, dir@, s),
        decreases slots.len() - i,
    {
        assert(string_views(slots@[i as int]@) == icon_slots()[i as int]);
        let found = slot_icon_path(dir, &slots[i], read_text, is_dir, is_file);
        assert(names_found(*read_text, *is_dir, *is_file, dir@, icon_slots()[i as int], opt_view(found)));
        match found {
            Some(p) => match thumb_path_for(&p, render) {
                Some(t) => {
                    assert(slot_icon(*read_text, *is_dir, *is_file, *render, dir@, i as int, t@));
                    let ghost before = string_views(out@);
                    let ghost used_before = used;
                    out.push(t);
                    proof {
                        used = used.push(i as int);
                        assert(string_views(out@) =~= before.push(t@));
                        assert forall|s: int| 0 <= s < i + 1 && !used.contains(s) implies #[trigger] slot_empty(
                            *read_text,
                            *is_dir,
                            *is_file,
                            dir@,
                            s,
                        ) by {
                            if s < i {
                                if used_before.contains(s) {
                                    let k = choose|k: int| 0 <= k < used_before.len() && used_before[k] == s;
                                    assert(used[k] == s);
                                }
                            } else {
                                assert(used[used.len() - 1] == s);
                            }
                        }
                    }
                },
                None => {
                    assert(slot_empty(*read_text, *is_dir, *is_file, dir@, i as int));
                },
            },
            None => {
                assert(slot_empty(*read_text, *is_dir, *is_file, dir@, i as int));
            },
        }
        i += 1;
    }
    if out.len() == 0 {
        assert forall|s: int| 0 <= s < 6 implies #[trigger] slot_empty(*read_text, *is_dir, *is_file, dir@, s) by {
            assert(!used.contains(s));
        }
        None
    } else {
        assert(slot_icons(*read_text, *is_dir, *is_file, *render, dir@, string_views(out@), used));
        assert(exists|u: Seq<int>| #[trigger] slot_icons(*read_text, *is_dir, *is_file, *render, dir@, string_views(out@), u));
        Some(out)
    }
}

/// The titlebar button images of an Aurorae theme, in the order tried.
pub open spec fn deco_button_files() -> Seq<Seq<char>> {
    seq!["close.svg"@, "minimize.svg"@, "maximize.svg"@, "restore.svg"@]
}

/// `v` holds the previews of the titlebar button images `used` (positions in
/// `deco_button_files`, in order), each a file; every image before the
/// third one taken that is left out is not a file (or has no extension).
pub open spec fn deco_buttons<F: Fn(&String) -> bool, R: Fn(&String) -> String>(
    is_file: F,
    render: R,
    dir: Seq<char>,
    v: Seq<Seq<char>>,
    used: Seq<int>,
) -> bool {
    &&& used.len() == v.len() <= 3
    &&& forall|k: int|
        0 <= k < used.len() ==> 0 <= #[trigger] used[k] < 4 && said(
            is_file,
            join_path(dir, deco_button_files()[used[k]]),
            true,
        ) && thumb_of(render, join_path(dir, deco_button_files()[used[k]]), v[k])
    &&& forall|a: int, b: int| 0 <= a < b < used.len() ==> #[trigger] used[a] < #[trigger] used[b]
    &&& forall|n: int|
        0 <= n < 4 && !used.contains(n) && (used.len() < 3 || n < used[2]) ==> said(
            is_file,
            join_path(dir, #[trigger] deco_button_files()[n]),
            false,
        ) || extension(join_path(dir, deco_button_files()[n])) is None
}

/// An Aurorae theme's titlebar buttons (close, minimize, maximize, restore
/// SVGs that are files), at most three, as preview paths.
pub fn find_deco_buttons<F: Fn(&String) -> bool, R: Fn(&String) -> String>(
    dir: &str,
    is_file: &F,
    render: &R,
) -> (r: Option<Vec<String>>)
    requires
        forall|s: &String| call_requires(*is_file, (s,)),
        forall|s: &String| call_requires(*render, (s,)),
    ensures
        r matches Some(v) ==> 1 <= v.len() && exists|used: Seq<int>|
            #[trigger] deco_buttons(*is_file, *render, dir@, string_views(v@), used),
        r is None ==> deco_buttons(*is_file, *render, dir@, Seq::empty(), Seq::empty()),
{
    let names = strings(&["close.svg", "minimize.svg", "maximize.svg", "restore.svg"]);
    assert(string_views(names@) =~= deco_button_files());
    let mut out: Vec<String> = Vec::new();
    let ghost mut used: Seq<int> = Seq::empty();
    let mut i: usize = 0;
    while i < names.len() && out.len() < 3
        invariant
            i <= names.len() == 4,
            string_views(names@) == deco_button_files(),
            out.len() <= 3,
            forall|s: &String| call_requires(*is_file, (s,)),
            forall|s: &String| call_requires(*render, (s,)),
            used.len() == out.len(),
            forall|k: int| 0 <= k < used.len() ==> #[trigger] used[k] < i,
            forall|k: int|
                0 <= k < used.len() ==> 0 <= #[trigger] used[k] < 4 && said(
                    *is_file,
                    join_path(dir@, deco_button_files()[used[k]]),
                    true,
                ) && thumb_of(*render, join_path(dir@, deco_button_files()[used[k]]), string_views(out@)[k]),
            forall|a: int, b: int| 0 <= a < b < used.len() ==> #[trigger] used[a] < #[trigger] used[b],
            forall|n: int|
                0 <= n < i && !used.contains(n) ==> said(
                    *is_file,
                    join_path(dir@, #[trigger] deco_button_files()[n]),
                    false,
                ) || extension(join_path(dir@, deco_button_files()[n])) is None,
        decreases names.len() - i,
    {
        assert(string_views(names@)[i as int] == names@[i as int]@);
        let p = join(dir, names[i].as_str());
        assert(p@ == join_path(dir@, deco_button_files()[i as int]));
        let f = is_file(&p);
        assert(said(*is_file, join_path(dir@, deco_button_files()[i as int]), f));
        if f {
            match thumb_path_for(&p, render) {
                Some(t) => {
                    let ghost before = string_views(out@);
                    let ghost used_before = used;
                    out.push(t);
                    proof {
                        used = used.push(i as int);
                        assert(string_views(out@) =~= before.push(t@));
                        assert forall|n: int|
                            0 <= n < i + 1 && !used.contains(n) implies said(
                            *is_file,
                            join_path(dir@, #[trigger] deco_button_files()[n]),
                            false,
                        ) || extension(join_path(dir@, deco_button_files()[n])) is None by {
                            if n < i {
                                if used_before.contains(n) {
                                    let k = choose|k: int| 0 <= k < used_before.len() && used_before[k] == n;
                                    assert(used[k] == n);
                                }
                            } else {
                                assert(used[used.len() - 1] == n);
                            }
                        }
                    }
                },
                None => {},
            }
        }
        i += 1;
    }
    proof {
        assert forall|n: int|
            0 <= n < 4 && !used.contains(n) && (used.len() < 3 || n < used[2]) implies said(
            *is_file,
            join_path(dir@, #[trigger] deco_button_files()[n]),
            false,
        ) || extension(join_path(dir@, deco_button_files()[n])) is None by {
            if used.len() == 3 {
                assert(used[2] < i);
            }
        }
    }
    if out.len() == 0 {
        assert(used =~= Seq::<int>::empty());
        assert(string_views(out@) =~= Seq::<Seq<char>>::empty());
        None
    } else {
        assert(deco_buttons(*is_file, *render, dir@, string_views(out@), used));
        assert(exists|u: Seq<int>| #[trigger] deco_buttons(*is_file, *render, dir@, string_views(out@), u));
        Some(out)
    }
}

/// The cursors KDE previews a cursor theme with, in the order tried.
pub open spec fn cursor_names() -> Seq<Seq<char>> {
    seq![
        "left_ptr"@, "left_ptr_watch"@, "wait"@, "pointer"@, "help"@, "ibeam"@, "size_all"@,
        "size_fdiag"@, "cross"@, "split_h"@, "size_ver"@, "size_hor"@, "size_bdiag"@, "split_v"@,
    ]
}

/// The file of cursor `n` of the theme `dir`.
pub open spec fn cursor_file(dir: Seq<char>, n: int) -> Seq<char> {
    join_path(join_path(dir, "cursors"@), cursor_names()[n])
}

/// `f` answered `out` for the path `p`.
pub open spec fn gave<C: Fn(&String) -> Option<String>>(f: C, p: Seq<char>, out: Option<String>) -> bool {
    exists|s: String| s@ == p && call_ensures(f, (&s,), out)
}

/// `c` is the path a cursor file `p` is told apart by: what `canonical`
/// answered for it, or `p` itself when it answered nothing.
pub open spec fn canon_of<C: Fn(&String) -> Option<String>>(canonical: C, p: Seq<char>, c: Seq<char>) -> bool {
    exists|s: String, o: Option<String>|
        #![trigger call_ensures(canonical, (&s,), o)]
        s@ == p && call_ensures(canonical, (&s,), o) && c == (match o {
            Some(x) => x@,
            None => p,
        })
}

/// The cursor samples of the theme `dir` so far, as the probes answered: the
/// cursor files `tried` (positions in `cursor_names`, in order) are files
/// whose canonical paths `canons` differ from every earlier one; each was
/// rendered, and `v` holds the renderings that succeeded (those at positions
/// `used` of `tried`), in order.
pub open spec fn cursors_tried<F: Fn(&String) -> bool, C: Fn(&String) -> Option<String>, R: Fn(&String) -> Option<String>>(
    is_file: F,
    canonical: C,
    render: R,
    dir: Seq<char>,
    v: Seq<Seq<char>>,
    tried: Seq<int>,
    canons: Seq<Seq<char>>,
    used: Seq<int>,
) -> bool {
    &&& v.len() <= 9
    &&& canons.len() == tried.len()
    &&& used.len() == v.len()
    &&& forall|k: int|
        0 <= k < tried.len() ==> 0 <= #[trigger] tried[k] < 14 && said(is_file, cursor_file(dir, tried[k]), true)
            && canon_of(canonical, cursor_file(dir, tried[k]), canons[k])
    &&& forall|a: int, b: int| 0 <= a < b < tried.len() ==> #[trigger] tried[a] < #[trigger] tried[b]
    &&& forall|a: int, b: int| 0 <= a < b < tried.len() ==> !same_path(#[trigger] canons[a], #[trigger] canons[b])
    &&& forall|m: int| 0 <= m < used.len() ==> 0 <= #[trigger] used[m] < tried.len()
    &&& forall|a: int, b: int| 0 <= a < b < used.len() ==> #[trigger] used[a] < #[trigger] used[b]
    &&& forall|m: int| 0 <= m < used.len() ==> #[trigger] rendered_at(render, dir, tried, used, v, m)
    &&& forall|k: int|
        0 <= k < tried.len() && !used.contains(k) ==> #[trigger] gave(render, cursor_file(dir, tried[k]), None)
}

/// Sample `m` of `v` is what rendering the cursor at position `used[m]` of
/// `tried` gave.
pub open spec fn rendered_at<R: Fn(&String) -> Option<String>>(
    render: R,
    dir: Seq<char>,
    tried: Seq<int>,
    used: Seq<int>,
    v: Seq<Seq<char>>,
    m: int,
) -> bool {
    exists|x: String| x@ == v[m] && #[trigger] gave(render, cursor_file(dir, tried[used[m]]), Some(x))
}

/// Cursor `n` was skipped: it is not a file, or it is an alias (by canonical
/// path) of a cursor tried before it.
pub open spec fn cursor_skipped<F: Fn(&String) -> bool, C: Fn(&String) -> Option<String>>(
    is_file: F,
    canonical: C,
    dir: Seq<char>,
    tried: Seq<int>,
    canons: Seq<Seq<char>>,
    n: int,
) -> bool {
    ||| said(is_file, cursor_file(dir, n), false)
    ||| exists|c: Seq<char>, k: int|
        #![trigger canon_of(canonical, cursor_file(dir, n), c), tried[k]]
        canon_of(canonical, cursor_file(dir, n), c) && 0 <= k < tried.len() && tried[k] < n && same_path(canons[k], c)
}

/// The cursor samples of the theme `dir`: those of `cursors_tried`, every
/// other cursor before the one that gave the ninth sample (or every other
/// cursor, with fewer samples) having been skipped.
pub open spec fn cursor_samples<F: Fn(&String) -> bool, C: Fn(&String) -> Option<String>, R: Fn(&String) -> Option<String>>(
    is_file: F,
    canonical: C,
    render: R,
    dir: Seq<char>,
    v: Seq<Seq<char>>,
    tried: Seq<int>,
    canons: Seq<Seq<char>>,
    used: Seq<int>,
) -> bool {
    &&& cursors_tried(is_file, canonical, render, dir, v, tried, canons, used)
    &&& forall|n: int|
        0 <= n < 14 && !tried.contains(n) && (v.len() < 9 || n < tried[used[8]]) ==> #[trigger] cursor_skipped(
            is_file,
            canonical,
            dir,
            tried,
            canons,
            n,
        )
}

/// Up to nine cursors of a cursor theme (KDE's preview set), aliases of an
/// already tried cursor (by `canonical` path) skipped, rendered by `render`.
pub fn find_cursor_samples<
    F: Fn(&String) -> bool,
    C: Fn(&String) -> Option<String>,
    R: Fn(&String) -> Option<String>,
>(dir: &str, is_file: &F, canonical: &C, render: &R) -> (r: Option<Vec<String>>)
    requires
        forall|s: &String| call_requires(*is_file, (s,)),
        forall|s: &String| call_requires(*canonical, (s,)),
        forall|s: &String| call_requires(*render, (s,)),
    ensures
        r matches Some(v) ==> 1 <= v.len() && exists|tried: Seq<int>, canons: Seq<Seq<char>>, used: Seq<int>|
            #[trigger] cursor_samples(*is_file, *canonical, *render, dir@, string_views(v@), tried, canons, used),
        r is None ==> exists|tried: Seq<int>, canons: Seq<Seq<char>>|
            #[trigger] cursor_samples(*is_file, *canonical, *render, dir@, Seq::empty(), tried, canons, Seq::empty()),
{
    let names = strings(
        &[
            "left_ptr",
            "left_ptr_watch",
            "wait",
            "pointer",
            "help",
            "ibeam",
            "size_all",
            "size_fdiag",
            "cross",
            "split_h",
            "size_ver",
            "size_hor",
            "size_bdiag",
            "split_v",
        ],
    );
    assert(string_views(names@) =~= cursor_names());
    let cd = join(dir, "cursors");
    let mut out: Vec<String> = Vec::new();
    let mut seen: Vec<String> = Vec::new();
    let ghost mut tried: Seq<int> = Seq::empty();
    let ghost mut used: Seq<int> = Seq::empty();
    let mut i: usize = 0;
    while i < names.len() && out.len() < 9
        invariant
            i <= names.len() == 14,
            string_views(names@) == cursor_names(),
            cd@ == join_path(dir@, "cursors"@),
            forall|s: &String| call_requires(*is_file, (s,)),
            forall|s: &String| call_requires(*canonical, (s,)),
            forall|s: &String| call_requires(*render, (s,)),
            forall|k: int| 0 <= k < tried.len() ==> #[trigger] tried[k] < i,
            out.len() == 9 ==> i == tried[used[8]] + 1,
            cursors_tried(*is_file, *canonical, *render, dir@, string_views(out@), tried, string_views(seen@), used),
            forall|n: int|
                0 <= n < i && !tried.contains(n) ==> #[trigger] cursor_skipped(
                    *is_file,
                    *canonical,
                    dir@,
                    tried,
                    string_views(seen@),
                    n,
                ),
        decreases names.len() - i,
    {
        assert(string_views(names@)[i as int] == names@[i as int]@);
        let p = join(cd.as_str(), names[i].as_str());
        assert(p@ == cursor_file(dir@, i as int));
        let f = is_file(&p);
        assert(said(*is_file, cursor_file(dir@, i as int), f));
        let ghost tried0 = tried;
        let ghost used0 = used;
        let ghost seen0 = string_views(seen@);
        let ghost out0 = string_views(out@);
        if f {
            let answer = canonical(&p);
            let canon = match answer {
                Some(c) => c,
                None => p.clone(),
            };
            assert(call_ensures(*canonical, (&p,), answer));
            assert(canon_of(*canonical, cursor_file(dir@, i as int), canon@));
            if !contains_path(&seen, &canon) {
                seen.push(canon);
                proof {
                    tried = tried.push(i as int);
                    assert(string_views(seen@) =~= seen0.push(canon@));
                }
                let rendered = render(&p);
                assert(call_ensures(*render, (&p,), rendered));
                assert(gave(*render, cursor_file(dir@, i as int), rendered));
                match rendered {
                    Some(png) => {
                        out.push(png);
                        proof {
                            used = used.push(tried.len() - 1);
                            assert(string_views(out@) =~= out0.push(png@));
                        }
                    },
                    None => {},
                }
                proof {
                    lemma_cursor_step(
                        *is_file,
                        *canonical,
                        *render,
                        dir@,
                        out0,
                        tried0,
                        seen0,
                        used0,
                        i as int,
                        canon@,
                        string_views(out@),
                        used,
                    );
                }
            } else {
                proof {
                    let k = choose|k: int| 0 <= k < seen.len() && same_path(#[trigger] seen@[k]@, canon@);
                    assert(seen0[k] == seen@[k]@);
                    assert(seen0.len() == tried.len());
                    assert(tried[k] < i);
                    assert(canon_of(*canonical, cursor_file(dir@, i as int), canon@) && 0 <= k < tried.len()
                        && tried[k] < i && same_path(seen0[k], canon@));
                    assert(cursor_skipped(*is_file, *canonical, dir@, tried, seen0, i as int));
                }
            }
        }
        proof {
            assert forall|n: int| 0 <= n < i + 1 && !tried.contains(n) implies #[trigger] cursor_skipped(
                *is_file,
                *canonical,
                dir@,
                tried,
                string_views(seen@),
                n,
            ) by {
                if n < i {
                    assert(!tried0.contains(n)) by {
                        if tried0.contains(n) {
                            let k = choose|k: int| 0 <= k < tried0.len() && tried0[k] == n;
                            assert(tried[k] == n);
                        }
                    }
                    assert(cursor_skipped(*is_file, *canonical, dir@, tried0, seen0, n));
                    lemma_skipped_grows(*is_file, *canonical, dir@, tried0, seen0, tried, string_views(seen@), n);
                } else {
                    if f && tried.len() > tried0.len() {
                        assert(tried[tried.len() - 1] == n);
                    }
                }
            }
        }
        i += 1;
    }
    proof {
        assert forall|n: int|
            0 <= n < 14 && !tried.contains(n) && (string_views(out@).len() < 9 || n < tried[used[8]]) implies #[trigger] cursor_skipped(
            *is_file,
            *canonical,
            dir@,
            tried,
            string_views(seen@),
            n,
        ) by {
        }
    }
    if out.len() == 0 {
        assert(used =~= Seq::<int>::empty());
        assert(string_views(out@) =~= Seq::<Seq<char>>::empty());
        assert(cursor_samples(*is_file, *canonical, *render, dir@, Seq::empty(), tried, string_views(seen@), Seq::empty()));
        None
    } else {
        assert(cursor_samples(*is_file, *canonical, *render, dir@, string_views(out@), tried, string_views(seen@), used));
        assert(exists|t: Seq<int>, c: Seq<Seq<char>>, u: Seq<int>|
            #[trigger] cursor_samples(*is_file, *canonical, *render, dir@, string_views(out@), t, c, u));
        Some(out)
    }
}

/// A skipped cursor stays skipped when more cursors are tried after it.
proof fn lemma_skipped_grows<F: Fn(&String) -> bool, C: Fn(&String) -> Option<String>>(
    is_file: F,
    canonical: C,
    dir: Seq<char>,
    tried0: Seq<int>,
    canons0: Seq<Seq<char>>,
    tried: Seq<int>,
    canons: Seq<Seq<char>>,
    n: int,
)
    requires
        cursor_skipped(is_file, canonical, dir, tried0, canons0, n),
        tried0.len() <= tried.len(),
        canons0.len() <= canons.len(),
        forall|k: int| 0 <= k < tried0.len() ==> tried0[k] == tried[k],
        forall|k: int| 0 <= k < canons0.len() ==> canons0[k] == canons[k],
        canons0.len() == tried0.len(),
    ensures
        cursor_skipped(is_file, canonical, dir, tried, canons, n),
{
    if !said(is_file, cursor_file(dir, n), false) {
        let (c, k) = choose|c: Seq<char>, k: int|
            #![trigger canon_of(canonical, cursor_file(dir, n), c), tried0[k]]
            canon_of(canonical, cursor_file(dir, n), c) && 0 <= k < tried0.len() && tried0[k] < n && same_path(
                canons0[k],
                c,
            );
        assert(tried[k] == tried0[k]);
        assert(canons[k] == canons0[k]);
    }
}

/// Trying cursor `i` (a file whose canonical path `canon` no earlier cursor
/// shares) keeps what `cursors_tried` says.
proof fn lemma_cursor_step<F: Fn(&String) -> bool, C: Fn(&String) -> Option<String>, R: Fn(&String) -> Option<String>>(
    is_file: F,
    canonical: C,
    render: R,
    dir: Seq<char>,
    v0: Seq<Seq<char>>,
    tried0: Seq<int>,
    canons0: Seq<Seq<char>>,
    used0: Seq<int>,
    i: int,
    canon: Seq<char>,
    v: Seq<Seq<char>>,
    used: Seq<int>,
)
    requires
        cursors_tried(is_file, canonical, render, dir, v0, tried0, canons0, used0),
        0 <= i < 14,
        forall|k: int| 0 <= k < tried0.len() ==> #[trigger] tried0[k] < i,
        said(is_file, cursor_file(dir, i), true),
        canon_of(canonical, cursor_file(dir, i), canon),
        forall|k: int| 0 <= k < canons0.len() ==> !same_path(#[trigger] canons0[k], canon),
        v0.len() < 9,
        (v == v0 && used == used0 && gave(render, cursor_file(dir, i), None)) || (exists|x: String|
            v == v0.push(x@) && used == used0.push(tried0.len() as int) && #[trigger] gave(
                render,
                cursor_file(dir, i),
                Some(x),
            )),
    ensures
        cursors_tried(is_file, canonical, render, dir, v, tried0.push(i), canons0.push(canon), used),
{
    let tried = tried0.push(i);
    let canons = canons0.push(canon);
    assert forall|k: int| 0 <= k < tried.len() implies 0 <= #[trigger] tried[k] < 14 && said(
        is_file,
        cursor_file(dir, tried[k]),
        true,
    ) && canon_of(canonical, cursor_file(dir, tried[k]), canons[k]) by {
        if k < tried0.len() {
            assert(tried[k] == tried0[k]);
            assert(canons[k] == canons0[k]);
        }
    }
    assert forall|a: int, b: int| 0 <= a < b < tried.len() implies #[trigger] tried[a] < #[trigger] tried[b] by {
        assert(tried[a] == tried0[a]);
        if b < tried0.len() {
            assert(tried[b] == tried0[b]);
        }
    }
    assert forall|a: int, b: int| 0 <= a < b < tried.len() implies !same_path(#[trigger] canons[a], #[trigger] canons[b]) by {
        assert(canons[a] == canons0[a]);
        if b < tried0.len() {
            assert(canons[b] == canons0[b]);
        }
    }
    if v == v0 && used == used0 && gave(render, cursor_file(dir, i), None) {
        assert forall|m: int| 0 <= m < used.len() implies 0 <= #[trigger] used[m] < tried.len() by {}
        assert forall|m: int| 0 <= m < used.len() implies #[trigger] rendered_at(render, dir, tried, used, v, m) by {
            assert(rendered_at(render, dir, tried0, used0, v0, m));
            assert(0 <= used0[m] < tried0.len());
            assert(tried[used0[m]] == tried0[used0[m]]);
        }
        assert forall|k: int|
            0 <= k < tried.len() && !used.contains(k) implies #[trigger] gave(render, cursor_file(dir, tried[k]), None) by {
            if k < tried0.len() {
                assert(tried[k] == tried0[k]);
            }
        }
    } else {
        let x = choose|x: String|
            v == v0.push(x@) && used == used0.push(tried0.len() as int) && #[trigger] gave(
                render,
                cursor_file(dir, i),
                Some(x),
            );
        assert forall|m: int| 0 <= m < used.len() implies 0 <= #[trigger] used[m] < tried.len() by {
            if m < used0.len() {
                assert(used[m] == used0[m]);
            }
        }
        assert forall|a: int, b: int| 0 <= a < b < used.len() implies #[trigger] used[a] < #[trigger] used[b] by {
            assert(used[a] == used0[a]);
            if b < used0.len() {
                assert(used[b] == used0[b]);
            }
        }
        assert forall|m: int| 0 <= m < used.len() implies #[trigger] rendered_at(render, dir, tried, used, v, m) by {
            if m < used0.len() {
                assert(used[m] == used0[m]);
                assert(rendered_at(render, dir, tried0, used0, v0, m));
                assert(0 <= used0[m] < tried0.len());
                assert(tried[used0[m]] == tried0[used0[m]]);
                assert(v[m] == v0[m]);
            } else {
                assert(used[m] == tried0.len());
                assert(tried[used[m]] == i);
                assert(v[m] == x@);
            }
        }
        assert forall|k: int|
            0 <= k < tried.len() && !used.contains(k) implies #[trigger] gave(render, cursor_file(dir, tried[k]), None) by {
            if k < tried0.len() {
                assert(tried[k] == tried0[k]);
                assert(!used0.contains(k)) by {
                    if used0.contains(k) {
                        let m = choose|m: int| 0 <= m < used0.len() && used0[m] == k;
                        assert(used[m] == k);
                    }
                }
            } else {
                assert(used[used.len() - 1] == k);
            }
        }
    }
}

/// The cache directory for rasterized previews.
pub fn thumb_cache_dir(home: &str) -> (r: String)
    ensures
        r@ == join_path(home@, ".cache/linuxthemer/previews"@),
{
    join(home, ".cache/linuxthemer/previews")
}

/// The cache file name of a preview whose path hashes to `hash`: sixteen
/// lowercase hex digits and `.png`.
pub fn cache_file_name(hash: u64) -> (r: String)
    ensures
        r@ == crate::num::hex_digits(hash as nat, 16) + ".png"@,
{
    let mut v = crate::num::hex_digits_exec(hash, 16);
    crate::text::extend_chars(&mut v, &chars_of(".png"));
    string_of(&v)
}

/// The directory of saved custom profiles.
pub fn custom_dir(home: &str) -> (r: String)
    ensures
        r@ == join_path(home@, ".local/share/linuxthemer/custom"@),
{
    join(home, ".local/share/linuxthemer/custom")
}
} // verus!
