//! Where each kind of theme is installed, which directories under those
//! roots are themes of the kind, and what is read from each theme found.
use vstd::prelude::*;
use crate::palette::{
    color_palette_spec, deco_color_spec, gtk_palette_spec, opt_view, opt_views, read_color_palette,
    read_deco_color, read_gtk_palette, string_views,
};
use crate::paths::{file_name, file_name_of, join};
use crate::paths::extension;
use crate::probe::{
    cursor_samples, deco_buttons, preview_spec,
    slot_empty, slot_icons, thumb_of,
    find_cursor_samples, find_deco_buttons, find_preview, find_representative_icons, has_entry,
    icon_theme_dirs, is_icon_theme, kind_has_preview, read_gave, said, thumb_path_for,
};
use crate::scan::Found;
use crate::text::{chars_of, eq_chars, join_path, owned};

verus! {

/// Which directories under a theme root are themes of the kind.
pub enum DirFilter {
    /// Every directory.
    Any,
    /// Directories with `gtk-3.0`, `gtk-4.0` or `index.theme`.
    Gtk,
    /// Icon themes (see `is_icon_theme`).
    Icons,
    /// Directories with `cursors`.
    Cursors,
}

/// Where themes of one kind are installed: directories under `roots`
/// passing `filter`, or, with `files_ext`, files with that extension.
pub struct ThemeSource {
    pub kind: String,
    pub roots: Vec<String>,
    pub filter: DirFilter,
    pub files_ext: Option<String>,
}

pub open spec fn source_view(s: ThemeSource) -> (Seq<char>, Seq<Seq<char>>, DirFilter, Option<Seq<char>>) {
    (s.kind@, string_views(s.roots@), s.filter, opt_view(s.files_ext))
}

/// Every kind the theme browser lists, in the order it lists them, with
/// where its themes are installed (KDE's Get New Stuff locations included).
pub open spec fn sources_spec(home: Seq<char>) -> Seq<(Seq<char>, Seq<Seq<char>>, DirFilter, Option<Seq<char>>)> {
    let icon_roots = seq![join_path(home, ".icons"@), join_path(home, ".local/share/icons"@), "/usr/share/icons"@];
    seq![
        ("global"@, seq![join_path(home, ".local/share/plasma/look-and-feel"@)], DirFilter::Any, None),
        ("plasma"@, seq![join_path(home, ".local/share/plasma/desktoptheme"@)], DirFilter::Any, None),
        (
            "decorations"@,
            seq![join_path(home, ".local/share/aurorae/themes"@), "/usr/share/aurorae/themes"@],
            DirFilter::Any,
            None,
        ),
        (
            "colors"@,
            seq![join_path(home, ".local/share/color-schemes"@), "/usr/share/color-schemes"@],
            DirFilter::Any,
            Some("colors"@),
        ),
        ("wallpapers"@, seq![join_path(home, ".local/share/wallpapers"@)], DirFilter::Any, None),
        ("kvantum"@, seq![join_path(home, ".config/Kvantum"@)], DirFilter::Any, None),
        ("sddm"@, seq!["/usr/share/sddm/themes"@], DirFilter::Any, None),
        ("gtk"@, seq![join_path(home, ".themes"@), "/usr/share/themes"@], DirFilter::Gtk, None),
        ("icons"@, icon_roots, DirFilter::Icons, None),
        ("cursors"@, icon_roots, DirFilter::Cursors, None),
    ]
}

fn roots(home: &str, rel: &[&str], abs: &[&str]) -> (r: Vec<String>)
    ensures
        string_views(r@) == rel@.map_values(|x: &str| join_path(home@, x@)) + abs@.map_values(|x: &str| x@),
{
    let mut r: Vec<String> = Vec::new();
    let mut i: usize = 0;
    while i < rel.len()
        invariant
            i <= rel.len(),
            string_views(r@) == rel@.map_values(|x: &str| join_path(home@, x@)).take(i as int),
        decreases rel.len() - i,
    {
        let ghost before = string_views(r@);
        r.push(join(home, rel[i]));
        assert(string_views(r@) =~= before.push(join_path(home@, rel@[i as int]@)));
        assert(rel@.map_values(|x: &str| join_path(home@, x@)).take(i + 1) =~= rel@.map_values(
            |x: &str| join_path(home@, x@),
        ).take(i as int).push(join_path(home@, rel@[i as int]@)));
        i += 1;
    }
    assert(rel@.map_values(|x: &str| join_path(home@, x@)).take(rel.len() as int) =~= rel@.map_values(
        |x: &str| join_path(home@, x@),
    ));
    let ghost first = string_views(r@);
    let mut j: usize = 0;
    while j < abs.len()
        invariant
            j <= abs.len(),
            string_views(r@) == first + abs@.map_values(|x: &str| x@).take(j as int),
        decreases abs.len() - j,
    {
        let ghost before = string_views(r@);
        r.push(owned(abs[j]));
        assert(string_views(r@) =~= before.push(abs@[j as int]@));
        assert(abs@.map_values(|x: &str| x@).take(j + 1) =~= abs@.map_values(|x: &str| x@).take(
            j as int,
        ).push(abs@[j as int]@));
        j += 1;
    }
    assert(abs@.map_values(|x: &str| x@).take(abs.len() as int) =~= abs@.map_values(|x: &str| x@));
    r
}

fn source(kind: &str, rs: Vec<String>, filter: DirFilter, ext: Option<&str>) -> (r: ThemeSource)
    ensures
        source_view(r) == (kind@, string_views(rs@), filter, match ext {
            Some(e) => Some(e@),
            None => None::<Seq<char>>,
        }),
{
    let files_ext = match ext {
        Some(e) => Some(owned(e)),
        None => None,
    };
    ThemeSource { kind: owned(kind), roots: rs, filter, files_ext }
}

/// Every kind the theme browser lists, with where its themes are installed
/// (see `sources_spec`), `home` being the user's home directory.
pub fn theme_sources(home: &str) -> (r: Vec<ThemeSource>)
    ensures
        r@.map_values(|s: ThemeSource| source_view(s)) == sources_spec(home@),
{
    let ghost want = sources_spec(home@);
    let none: [&str; 0] = [];
    let mut r: Vec<ThemeSource> = Vec::new();
    let rs = roots(home, &[".local/share/plasma/look-and-feel"], &none);
    assert(string_views(rs@) =~= want[0].1);
    r.push(source("global", rs, DirFilter::Any, None));
    let rs = roots(home, &[".local/share/plasma/desktoptheme"], &none);
    assert(string_views(rs@) =~= want[1].1);
    r.push(source("plasma", rs, DirFilter::Any, None));
    let rs = roots(home, &[".local/share/aurorae/themes"], &["/usr/share/aurorae/themes"]);
    assert(string_views(rs@) =~= want[2].1);
    r.push(source("decorations", rs, DirFilter::Any, None));
    let rs = roots(home, &[".local/share/color-schemes"], &["/usr/share/color-schemes"]);
    assert(string_views(rs@) =~= want[3].1);
    r.push(source("colors", rs, DirFilter::Any, Some("colors")));
    let rs = roots(home, &[".local/share/wallpapers"], &none);
    assert(string_views(rs@) =~= want[4].1);
    r.push(source("wallpapers", rs, DirFilter::Any, None));
    let rs = roots(home, &[".config/Kvantum"], &none);
    assert(string_views(rs@) =~= want[5].1);
    r.push(source("kvantum", rs, DirFilter::Any, None));
    let rs = roots(home, &none, &["/usr/share/sddm/themes"]);
    assert(string_views(rs@) =~= want[6].1);
    r.push(source("sddm", rs, DirFilter::Any, None));
    let rs = roots(home, &[".themes"], &["/usr/share/themes"]);
    assert(string_views(rs@) =~= want[7].1);
    r.push(source("gtk", rs, DirFilter::Gtk, None));
    let rs = roots(home, &[".icons", ".local/share/icons"], &["/usr/share/icons"]);
    assert(string_views(rs@) =~= want[8].1);
    r.push(source("icons", rs, DirFilter::Icons, None));
    let rs = roots(home, &[".icons", ".local/share/icons"], &["/usr/share/icons"]);
    assert(string_views(rs@) =~= want[9].1);
    r.push(source("cursors", rs, DirFilter::Cursors, None));
    assert(r@.map_values(|s: ThemeSource| source_view(s)) =~= want);
    r
}

/// A directory entry a theme root lists: one with a name that does not
/// start with `.`.
pub open spec fn listed(path: Seq<char>) -> bool {
    file_name(path) matches Some(n) && !(n.len() > 0 && n[0] == '.')
}

/// Whether a directory under a theme root is listed (hidden ones are not).
pub fn listed_dir(path: &str) -> (r: bool)
    ensures
        r == listed(path@),
{
    match file_name_of(path) {
        Some(n) => !(n.len() > 0 && n[0] == '.'),
        None => false,
    }
}

/// `r` is what `dir_accepted` gives for the directory `dir` under a theme
/// root and `filter`, as the probe `present` answered.
pub open spec fn accepted_by<F: Fn(&String) -> bool>(filter: DirFilter, present: F, dir: Seq<char>, r: bool) -> bool {
    &&& filter is Any ==> r
    &&& filter is Gtk ==> (r ==> said(present, join_path(dir, "gtk-3.0"@), true) || said(
        present,
        join_path(dir, "gtk-4.0"@),
        true,
    ) || said(present, join_path(dir, "index.theme"@), true))
    &&& filter is Gtk ==> (!r ==> said(present, join_path(dir, "gtk-3.0"@), false) && said(
        present,
        join_path(dir, "gtk-4.0"@),
        false,
    ) && said(present, join_path(dir, "index.theme"@), false))
    &&& filter is Icons ==> (r ==> said(present, join_path(dir, "index.theme"@), true) && exists|k: int|
        0 <= k < icon_theme_dirs().len() && said(present, join_path(dir, #[trigger] icon_theme_dirs()[k]), true))
    &&& filter is Icons ==> (!r ==> said(present, join_path(dir, "index.theme"@), false) || forall|k: int|
        0 <= k < icon_theme_dirs().len() ==> said(present, join_path(dir, #[trigger] icon_theme_dirs()[k]), false))
    &&& filter is Cursors ==> said(present, join_path(dir, "cursors"@), r)
}

/// Whether the directory `dir` under a theme root is a theme of the kind
/// that `filter` stands for, as the probe `present` (whether a path exists)
/// answers.
pub fn dir_accepted<F: Fn(&String) -> bool>(filter: &DirFilter, dir: &str, present: &F) -> (r: bool)
    requires
        forall|s: &String| call_requires(*present, (s,)),
    ensures
        accepted_by(*filter, *present, dir@, r),
{
    match filter {
        DirFilter::Any => true,
        DirFilter::Gtk => has_entry(dir, "gtk-3.0", present) || has_entry(dir, "gtk-4.0", present)
            || has_entry(dir, "index.theme", present),
        DirFilter::Icons => is_icon_theme(dir, present),
        DirFilter::Cursors => has_entry(dir, "cursors", present),
    }
}

/// What a palette reader gives for a file that may not have been read.
pub open spec fn palette_of(t: Option<String>, which: int) -> Option<Seq<Seq<char>>> {
    match t {
        Some(x) => if which == 0 {
            gtk_palette_spec(x@)
        } else if which == 1 {
            deco_color_spec(x@)
        } else {
            color_palette_spec(x@)
        },
        None => None,
    }
}

fn read_file<T: Fn(&String) -> Option<String>>(path: String, read_text: &T) -> (r: Option<String>)
    requires
        forall|s: &String| call_requires(*read_text, (s,)),
    ensures
        read_gave(*read_text, path@, r),
{
    read_text(&path)
}

fn is(s: &str, lit: &str) -> (r: bool)
    ensures
        r == (s@ == lit@),
{
    eq_chars(&chars_of(s), &chars_of(lit))
}

/// `shown` is how the preview `pv` is shown: nothing without one, else
/// (see `thumb_of`) itself or its rasterization, nothing without an extension.
pub open spec fn shown_as<R: Fn(&String) -> String>(render: R, pv: Option<Seq<char>>, shown: Option<String>) -> bool {
    match pv {
        None => shown is None,
        Some(p) => (extension(p) is None <==> shown is None) && (shown matches Some(t) ==> thumb_of(render, p, t@)),
    }
}

/// What `found_dir` gives for the theme directory `dir` of `kind`, as the
/// probes answered (see `found_dir`).
pub open spec fn dir_found<
    T: Fn(&String) -> Option<String>,
    F: Fn(&String) -> bool,
    D: Fn(&String) -> bool,
    L: Fn(&String) -> Vec<String>,
    S: Fn(&String) -> Vec<String>,
    R: Fn(&String) -> String,
    C: Fn(&String) -> Option<String>,
    X: Fn(&String) -> Option<String>,
>(
    kind: Seq<char>,
    dir: Seq<char>,
    read_text: T,
    is_file: F,
    is_dir: D,
    list_files: L,
    list_dirs: S,
    render: R,
    canonical: C,
    render_cursor: X,
    r: Found,
) -> bool {
    &&& r.path@ == dir
    &&& !kind_has_preview(kind) ==> r.preview is None
    &&& kind == "gtk"@ ==> exists|t: Option<String>|
        read_gave(read_text, join_path(dir, "gtk-3.0/gtk.css"@), t) && opt_views(r.palette)
            == palette_of(t, 0)
    &&& kind == "decorations"@ ==> exists|t: Option<String>|
        read_gave(read_text, join_path(dir, "decoration.svg"@), t) && opt_views(r.palette)
            == palette_of(t, 1)
    &&& kind != "gtk"@ && kind != "decorations"@ ==> r.palette is None
    &&& exists|pv: Option<Seq<char>>| #[trigger] preview_spec(is_file, list_files, list_dirs, dir, kind, pv) && shown_as(render, pv, r.preview)
    &&& kind == "icons"@ ==> (r.samples matches Some(v) ==> 1 <= v.len() <= 6 && exists|used: Seq<int>|
        #[trigger] slot_icons(read_text, is_dir, is_file, render, dir, string_views(v@), used))
    &&& kind == "icons"@ ==> (r.samples is None ==> forall|s: int|
        0 <= s < 6 ==> #[trigger] slot_empty(read_text, is_dir, is_file, dir, s))
    &&& kind == "cursors"@ ==> (r.samples matches Some(v) ==> 1 <= v.len() && exists|
        tried: Seq<int>,
        canons: Seq<Seq<char>>,
        used: Seq<int>,
    | #[trigger] cursor_samples(is_file, canonical, render_cursor, dir, string_views(v@), tried, canons, used))
    &&& kind == "cursors"@ ==> (r.samples is None ==> exists|tried: Seq<int>, canons: Seq<Seq<char>>|
        #[trigger] cursor_samples(is_file, canonical, render_cursor, dir, Seq::empty(), tried, canons, Seq::empty()))
    &&& kind == "decorations"@ ==> (r.samples matches Some(v) ==> 1 <= v.len() && exists|used: Seq<int>|
        #[trigger] deco_buttons(is_file, render, dir, string_views(v@), used))
    &&& kind == "decorations"@ ==> (r.samples is None ==> deco_buttons(is_file, render, dir, Seq::empty(), Seq::empty()))
    &&& kind != "icons"@ && kind != "cursors"@ && kind != "decorations"@ ==> r.samples is None
}

/// What the theme browser shows of the theme directory `dir` of `kind`:
/// its preview (see `find_preview`, rasterized by `render` where needed);
/// the palette of a GTK theme's `gtk-3.0/gtk.css` or of a decoration's
/// `decoration.svg`; sample icons of an icon theme, rendered cursors of a
/// cursor theme (`render_cursor`, aliases found by `canonical` skipped), the
/// titlebar buttons of a decoration. The disk is reached through the probes.
pub fn found_dir<
    T: Fn(&String) -> Option<String>,
    F: Fn(&String) -> bool,
    D: Fn(&String) -> bool,
    L: Fn(&String) -> Vec<String>,
    S: Fn(&String) -> Vec<String>,
    R: Fn(&String) -> String,
    C: Fn(&String) -> Option<String>,
    X: Fn(&String) -> Option<String>,
>(
    kind: &str,
    dir: &str,
    read_text: &T,
    is_file: &F,
    is_dir: &D,
    list_files: &L,
    list_dirs: &S,
    render: &R,
    canonical: &C,
    render_cursor: &X,
) -> (r: Found)
    requires
        forall|s: &String| call_requires(*read_text, (s,)),
        forall|s: &String| call_requires(*is_file, (s,)),
        forall|s: &String| call_requires(*is_dir, (s,)),
        forall|s: &String| call_requires(*list_files, (s,)),
        forall|s: &String| call_requires(*list_dirs, (s,)),
        forall|s: &String| call_requires(*render, (s,)),
        forall|s: &String| call_requires(*canonical, (s,)),
        forall|s: &String| call_requires(*render_cursor, (s,)),
    ensures
        dir_found(kind@, dir@, *read_text, *is_file, *is_dir, *list_files, *list_dirs, *render, *canonical, *render_cursor, r),
{
    proof {
        reveal_strlit("gtk");
        reveal_strlit("decorations");
        reveal_strlit("icons");
        reveal_strlit("cursors");
        assert("decorations"@.len() == 11);
        assert("cursors"@.len() == 7);
        assert("icons"@.len() == 5);
        assert("gtk"@.len() == 3);
        assert("gtk"@ != "decorations"@);
        assert("icons"@ != "decorations"@);
    }
    let pv = find_preview(dir, kind, is_file, list_files, list_dirs);
    let preview = match &pv {
        Some(p) => thumb_path_for(p, render),
        None => None,
    };
    assert(preview_spec(*is_file, *list_files, *list_dirs, dir@, kind@, opt_view(pv)) && shown_as(*render, opt_view(pv), preview));
    let ghost mut read: Option<String> = None;
    let palette = if is(kind, "gtk") {
        let t = read_file(join(dir, "gtk-3.0/gtk.css"), read_text);
        proof {
            read = t;
        }
        match &t {
            Some(x) => read_gtk_palette(x.as_str()),
            None => None,
        }
    } else if is(kind, "decorations") {
        let t = read_file(join(dir, "decoration.svg"), read_text);
        proof {
            read = t;
        }
        match &t {
            Some(x) => read_deco_color(x.as_str()),
            None => None,
        }
    } else {
        None
    };
    assert(kind@ == "gtk"@ ==> read_gave(*read_text, join_path(dir@, "gtk-3.0/gtk.css"@), read)
        && opt_views(palette) == palette_of(read, 0));
    assert(kind@ == "decorations"@ ==> read_gave(*read_text, join_path(dir@, "decoration.svg"@), read)
        && opt_views(palette) == palette_of(read, 1));
    let samples = if is(kind, "icons") {
        find_representative_icons(dir, read_text, is_dir, is_file, render)
    } else if is(kind, "cursors") {
        find_cursor_samples(dir, is_file, canonical, render_cursor)
    } else if is(kind, "decorations") {
        find_deco_buttons(dir, is_file, render)
    } else {
        None
    };
    Found { path: owned(dir), preview, palette, samples }
}

/// What `found_file` gives for the theme file `path` of `kind`, as
/// `read_text` answered.
pub open spec fn file_found<T: Fn(&String) -> Option<String>>(kind: Seq<char>, path: Seq<char>, read_text: T, r: Found) -> bool {
    &&& r.path@ == path
    &&& r.preview is None
    &&& r.samples is None
    &&& kind == "colors"@ ==> exists|t: Option<String>|
        read_gave(read_text, path, t) && opt_views(r.palette) == palette_of(t, 2)
    &&& kind != "colors"@ ==> r.palette is None
}

/// What the theme browser shows of the theme file `path` of `kind`: the
/// palette of a KDE color scheme, nothing else.
pub fn found_file<T: Fn(&String) -> Option<String>>(kind: &str, path: &str, read_text: &T) -> (r: Found)
    requires
        forall|s: &String| call_requires(*read_text, (s,)),
    ensures
        file_found(kind@, path@, *read_text, r),
{
    let ghost mut read: Option<String> = None;
    let palette = if is(kind, "colors") {
        let t = read_file(owned(path), read_text);
        proof {
            read = t;
        }
        match &t {
            Some(x) => read_color_palette(x.as_str()),
            None => None,
        }
    } else {
        None
    };
    assert(kind@ == "colors"@ ==> read_gave(*read_text, path@, read) && opt_views(palette) == palette_of(
        read,
        2,
    ));
    Found { path: owned(path), preview: None, palette, samples: None }
}


/// Cursor themes are looked for where icon themes are: in `~/.icons`, then
/// `~/.local/share/icons`, then `/usr/share/icons` (where the system cursor
/// themes such as breeze_cursors live); the icon themes in the same roots.
pub proof fn law_cursor_and_icon_roots(home: Seq<char>)
    ensures
        exists|i: int| 0 <= i < sources_spec(home).len() && (#[trigger] sources_spec(home)[i]).0 == "cursors"@,
        exists|i: int| 0 <= i < sources_spec(home).len() && (#[trigger] sources_spec(home)[i]).0 == "icons"@,
        forall|i: int|
            0 <= i < sources_spec(home).len() && (#[trigger] sources_spec(home)[i]).0 == "cursors"@ ==> sources_spec(
                home,
            )[i].1 == seq![join_path(home, ".icons"@), join_path(home, ".local/share/icons"@), "/usr/share/icons"@]
                && sources_spec(home)[i].2 is Cursors && sources_spec(home)[i].3 is None,
        forall|i: int|
            0 <= i < sources_spec(home).len() && (#[trigger] sources_spec(home)[i]).0 == "icons"@ ==> sources_spec(
                home,
            )[i].1 == seq![join_path(home, ".icons"@), join_path(home, ".local/share/icons"@), "/usr/share/icons"@]
                && sources_spec(home)[i].2 is Icons && sources_spec(home)[i].3 is None,
{
    reveal_strlit("global");
    reveal_strlit("plasma");
    reveal_strlit("decorations");
    reveal_strlit("colors");
    reveal_strlit("wallpapers");
    reveal_strlit("kvantum");
    reveal_strlit("sddm");
    reveal_strlit("gtk");
    reveal_strlit("icons");
    reveal_strlit("cursors");
    assert("global"@ != "icons"@) by {
        assert("global"@.len() != "icons"@.len());
    }
    assert("plasma"@ != "icons"@) by {
        assert("plasma"@.len() != "icons"@.len());
    }
    assert("decorations"@ != "icons"@) by {
        assert("decorations"@.len() != "icons"@.len());
    }
    assert("colors"@ != "icons"@) by {
        assert("colors"@.len() != "icons"@.len());
    }
    assert("wallpapers"@ != "icons"@) by {
        assert("wallpapers"@.len() != "icons"@.len());
    }
    assert("kvantum"@ != "icons"@) by {
        assert("kvantum"@.len() != "icons"@.len());
    }
    assert("sddm"@ != "icons"@) by {
        assert("sddm"@.len() != "icons"@.len());
    }
    assert("gtk"@ != "icons"@) by {
        assert("gtk"@.len() != "icons"@.len());
    }
    assert("cursors"@ != "icons"@) by {
        assert("cursors"@.len() != "icons"@.len());
    }
    assert("global"@ != "cursors"@) by {
        assert("global"@.len() != "cursors"@.len());
    }
    assert("plasma"@ != "cursors"@) by {
        assert("plasma"@.len() != "cursors"@.len());
    }
    assert("decorations"@ != "cursors"@) by {
        assert("decorations"@.len() != "cursors"@.len());
    }
    assert("colors"@ != "cursors"@) by {
        assert("colors"@.len() != "cursors"@.len());
    }
    assert("wallpapers"@ != "cursors"@) by {
        assert("wallpapers"@.len() != "cursors"@.len());
    }
    assert("kvantum"@ != "cursors"@) by {
        assert("kvantum"@[0] != "cursors"@[0]);
    }
    assert("sddm"@ != "cursors"@) by {
        assert("sddm"@.len() != "cursors"@.len());
    }
    assert("gtk"@ != "cursors"@) by {
        assert("gtk"@.len() != "cursors"@.len());
    }
    let t = sources_spec(home);
    assert(t[9].0 == "cursors"@);
    assert(t[8].0 == "icons"@);
}

} // verus!
