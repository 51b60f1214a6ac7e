use linux_themer::installed::{dir_accepted, found_dir, found_file, listed_dir, theme_sources, DirFilter};
use linux_themer::order::stable_sort_order;
use linux_themer::paths::{extension_of, file_name_of, file_stem_of, join};
use linux_themer::probe::{
    cache_file_name, custom_dir, find_cursor_samples, find_deco_buttons, find_icon, find_preview,
    find_representative_icons, first_media_in, has_entry, icon_candidates, icon_chain, inherits_of,
    find_media_deep, is_icon_theme, named_file, rendered_preview, thumb_cache_dir, thumb_path_for,
};
use linux_themer::scan::{custom_themes, scan, scan_files};

/// A directory tree held in memory: files and directories by full path.
struct Tree {
    files: Vec<&'static str>,
    dirs: Vec<&'static str>,
}

fn parent(p: &str) -> &str {
    match p.rfind('/') {
        Some(0) => "/",
        Some(i) => &p[..i],
        None => "",
    }
}

impl Tree {
    fn is_file(&self, p: &String) -> bool {
        self.files.contains(&p.as_str())
    }
    fn is_dir(&self, p: &String) -> bool {
        self.dirs.contains(&p.as_str())
    }
    fn has(&self, p: &String) -> bool {
        self.is_file(p) || self.is_dir(p)
    }
    fn list_files(&self, d: &String) -> Vec<String> {
        self.files.iter().filter(|f| parent(f) == d.as_str()).map(|f| f.to_string()).collect()
    }
    fn list_dirs(&self, d: &String) -> Vec<String> {
        self.dirs.iter().filter(|f| parent(f) == d.as_str()).map(|f| f.to_string()).collect()
    }
}

fn chars(s: &str) -> Vec<char> {
    s.chars().collect()
}

#[test]
fn paths_follow_std_path() {
    assert_eq!(join("/a/b", "c"), "/a/b/c");
    assert_eq!(join("/a/b/", "c/d"), "/a/b/c/d");
    assert_eq!(join("/a", "/abs"), "/abs");
    assert_eq!(join("", "x"), "x");
    assert_eq!(file_name_of("/a/b.tar.gz"), Some(chars("b.tar.gz")));
    assert_eq!(file_name_of("/a/b/"), Some(chars("b")));
    assert_eq!(file_name_of("/a/.."), None);
    assert_eq!(file_name_of("/"), None);
    assert_eq!(extension_of("/a/b.tar.gz"), Some(chars("gz")));
    assert_eq!(extension_of("/a/.hidden"), None);
    assert_eq!(extension_of("/a/noext"), None);
    assert_eq!(file_stem_of("/a/Breeze.colors"), Some(chars("Breeze")));
    assert_eq!(file_stem_of("/a/.hidden"), Some(chars(".hidden")));
}

#[test]
fn stable_sort_order_is_stable() {
    let keys = vec![chars("b"), chars("a"), chars("b"), chars("ab"), chars("")];
    assert_eq!(stable_sort_order(&keys), vec![4, 1, 3, 0, 2]);
}

fn scan_tree(
    kind: &str,
    roots: &[&str],
    filter: &DirFilter,
    t: &Tree,
    reads: &std::cell::RefCell<Vec<String>>,
) -> Vec<linux_themer::scan::InstalledTheme> {
    let roots: Vec<String> = roots.iter().map(|r| r.to_string()).collect();
    scan(
        kind,
        &roots,
        filter,
        &|p: &String| {
            reads.borrow_mut().push(p.clone());
            None
        },
        &|p: &String| t.is_file(p),
        &|p: &String| t.is_dir(p),
        &|d: &String| t.list_files(d),
        &|d: &String| t.list_dirs(d),
        &|p: &String| p.clone(),
        &|p: &String| Some(p.clone()),
        &|_p: &String| None,
        &|p: &String| t.has(p),
    )
}

#[test]
fn scan_lists_each_name_once_sorted_case_insensitively() {
    let t = Tree {
        files: vec![],
        dirs: vec![
            "/r1", "/r1/Zeta", "/r1/Zeta/gtk-3.0", "/r1/alpha", "/r1/alpha/gtk-4.0", "/r1/.hidden",
            "/r1/.hidden/gtk-3.0", "/r2", "/r2/Zeta", "/r2/Zeta/gtk-3.0", "/r2/Beta", "/r2/Beta/gtk-3.0",
            "/r2/NoGtk",
        ],
    };
    let reads = std::cell::RefCell::new(vec![]);
    let out = scan_tree("gtk", &["/r1", "/r2"], &DirFilter::Gtk, &t, &reads);
    let names: Vec<&str> = out.iter().map(|t| t.name.as_str()).collect();
    assert_eq!(names, vec!["alpha", "Beta", "Zeta"]);
    assert_eq!(out[2].path, "/r1/Zeta");
    assert_eq!(out[0].id, "gtk:alpha");
    assert_eq!(out[0].kind, "gtk");
    // only the kept directories are looked into: not the hidden one, not the
    // second Zeta, not the one without GTK files
    let reads = reads.borrow();
    assert!(reads.iter().all(|p| !p.starts_with("/r1/.hidden") && !p.starts_with("/r2/Zeta") && !p.starts_with("/r2/NoGtk")));
    assert!(reads.contains(&"/r1/Zeta/gtk-3.0/gtk.css".to_string()));
}

#[test]
fn scan_keeps_what_was_found() {
    let t = Tree { files: vec!["/r/T/preview.png"], dirs: vec!["/r", "/r/T"] };
    let reads = std::cell::RefCell::new(vec![]);
    let out = scan_tree("plasma", &["/r"], &DirFilter::Any, &t, &reads);
    assert_eq!(out.len(), 1);
    assert_eq!(out[0].path, "/r/T");
    assert_eq!(out[0].preview, Some("/r/T/preview.png".to_string()));
    assert_eq!(out[0].palette, None);
    assert_eq!(out[0].samples, None);
}

#[test]
fn scan_files_names_by_stem_and_filters_by_extension() {
    let t = Tree {
        files: vec!["/c/Breeze.colors", "/c/readme.txt", "/d/Breeze.colors", "/d/Arc.colors"],
        dirs: vec!["/c", "/d"],
    };
    let roots = vec!["/c".to_string(), "/d".to_string()];
    let out = scan_files("colors", "colors", &roots, &|d: &String| t.list_files(d), &|_p: &String| None);
    let names: Vec<&str> = out.iter().map(|t| t.name.as_str()).collect();
    assert_eq!(names, vec!["Arc", "Breeze"]);
    assert_eq!(out[1].path, "/c/Breeze.colors");
    assert_eq!(out[0].id, "colors:Arc");
}

#[test]
fn custom_themes_lists_json_profiles() {
    let paths = vec!["/x/b.json".to_string(), "/x/A.json".to_string(), "/x/notes.txt".to_string()];
    let out = custom_themes(&paths);
    let ids: Vec<&str> = out.iter().map(|t| t.id.as_str()).collect();
    assert_eq!(ids, vec!["custom:A", "custom:b"]);
    assert_eq!(out[0].kind, "custom");
    assert_eq!(out[0].path, "/x/A.json");
}

#[test]
fn has_entry_and_named_file() {
    let t = Tree { files: vec!["/t/index.theme", "/t/b.png"], dirs: vec!["/t", "/t/cursors"] };
    assert!(has_entry("/t", "cursors", &|p: &String| t.has(p)));
    assert!(!has_entry("/t", "gtk-3.0", &|p: &String| t.has(p)));
    let names = vec!["a.png".to_string(), "b.png".to_string(), "index.theme".to_string()];
    assert_eq!(named_file("/t", &names, &|p: &String| t.is_file(p)), Some("/t/b.png".to_string()));
    assert_eq!(named_file("/u", &names, &|p: &String| t.is_file(p)), None);
}

#[test]
fn first_media_prefers_raster_images() {
    let files = vec!["/d/a.mp4".to_string(), "/d/notes.txt".to_string(), "/d/b.JPG".to_string()];
    assert_eq!(first_media_in(&files), Some("/d/b.JPG".to_string()));
    let files = vec!["/d/notes.txt".to_string(), "/d/a.webm".to_string()];
    assert_eq!(first_media_in(&files), Some("/d/a.webm".to_string()));
    assert_eq!(first_media_in(&vec!["/d/x".to_string()]), None);
}

fn preview(t: &Tree, dir: &str, kind: &str) -> Option<String> {
    find_preview(dir, kind, &|p: &String| t.is_file(p), &|d: &String| t.list_files(d), &|d: &String| t.list_dirs(d))
}

#[test]
fn previews_by_kind() {
    let t = Tree {
        files: vec![
            "/g/G/contents/previews/fullscreen.mp4",
            "/g/G/contents/previews/preview.png",
            "/g/H/screenshot.png",
            "/s/S/preview.jpg",
            "/s/V/backgrounds/loop.mp4",
            "/s/W/extra/shots/one.png",
            "/w/W/contents/images/1920x1080.jpg",
            "/p/P/dialogs/background.svgz",
            "/k/K/K.svg",
            "/i/I/preview.png",
        ],
        dirs: vec!["/s/W/extra", "/s/W/extra/shots"],
    };
    assert_eq!(preview(&t, "/g/G", "global"), Some("/g/G/contents/previews/preview.png".to_string()));
    assert_eq!(preview(&t, "/g/H", "global"), Some("/g/H/screenshot.png".to_string()));
    assert_eq!(preview(&t, "/s/S", "sddm"), Some("/s/S/preview.jpg".to_string()));
    assert_eq!(preview(&t, "/s/V", "sddm"), Some("/s/V/backgrounds/loop.mp4".to_string()));
    assert_eq!(preview(&t, "/s/W", "sddm"), Some("/s/W/extra/shots/one.png".to_string()));
    assert_eq!(preview(&t, "/w/W", "wallpapers"), Some("/w/W/contents/images/1920x1080.jpg".to_string()));
    assert_eq!(preview(&t, "/p/P", "plasma"), Some("/p/P/dialogs/background.svgz".to_string()));
    assert_eq!(preview(&t, "/k/K", "kvantum"), Some("/k/K/K.svg".to_string()));
    assert_eq!(preview(&t, "/i/I", "icons"), None);
    assert_eq!(preview(&t, "/x/X", "global"), None);
}

#[test]
fn thumb_path_renders_only_what_browsers_may_not_show() {
    let render = |p: &String| format!("/cache/{}.png", p.len());
    assert_eq!(thumb_path_for(&"/a/b.PNG".to_string(), &render), Some("/a/b.PNG".to_string()));
    assert_eq!(thumb_path_for(&"/a/b.SVG".to_string(), &render), Some("/cache/8.png".to_string()));
    assert_eq!(thumb_path_for(&"/a/clip.webm".to_string(), &render), Some("/cache/12.png".to_string()));
    assert_eq!(thumb_path_for(&"/a/noext".to_string(), &render), None);
}

#[test]
fn icon_themes_need_icon_directories() {
    let t = Tree {
        files: vec!["/i/T/index.theme", "/i/C/index.theme"],
        dirs: vec!["/i/T/48x48", "/i/C/cursors", "/i/N/apps"],
    };
    assert!(is_icon_theme("/i/T", &|p: &String| t.has(p)));
    assert!(!is_icon_theme("/i/C", &|p: &String| t.has(p)));
    assert!(!is_icon_theme("/i/N", &|p: &String| t.has(p)));
}

#[test]
fn inherits_line_lists_parents() {
    let text = "[Icon Theme]\nName=X\n  Inherits= breeze, hicolor,,\nInherits=other\n";
    assert_eq!(inherits_of(text), vec!["breeze".to_string(), "hicolor".to_string()]);
    assert!(inherits_of("[Icon Theme]\nName=X\n").is_empty());
}

fn icon_tree() -> Tree {
    Tree {
        files: vec![
            "/home/u/.local/share/icons/Mine/index.theme",
            "/usr/share/icons/breeze/places/64/folder.svg",
            "/usr/share/icons/Papirus/48x48/places/folder.svg",
            "/usr/share/icons/hicolor/apps/16/system-run.png",
            "/usr/share/icons/breeze/places/64/user-trash.svg",
        ],
        dirs: vec!["/usr/share/icons", "/usr/share/icons/Papirus", "/usr/share/icons/breeze", "/usr/share/icons/hicolor"],
    }
}

fn read_index(p: &String) -> Option<String> {
    if p == "/home/u/.local/share/icons/Mine/index.theme" {
        Some("[Icon Theme]\nInherits=Papirus\n".to_string())
    } else {
        None
    }
}

#[test]
fn icon_chain_follows_inherits_then_fallbacks() {
    let t = icon_tree();
    let chain = icon_chain("/home/u/.local/share/icons/Mine", &read_index, &|p: &String| t.is_dir(p));
    assert_eq!(
        chain,
        vec![
            "/home/u/.local/share/icons/Mine".to_string(),
            "/usr/share/icons/Papirus".to_string(),
            "/usr/share/icons/hicolor".to_string(),
            "/usr/share/icons/breeze".to_string(),
        ]
    );
}

#[test]
fn icon_candidates_cover_both_layouts_and_formats() {
    let c = icon_candidates("/t", "folder");
    assert_eq!(c.len(), 3 * 2 * 8 * 19);
    assert_eq!(c[0], "/t/places/scalable/folder.png");
    assert_eq!(c[152], "/t/scalable/places/folder.png");
    assert_eq!(c[304], "/t/places/scalable/folder.svg");
    assert_eq!(c[911], "/t/512x512/emblems/folder.svgz");
}

#[test]
fn find_icon_searches_the_chain_in_order() {
    let t = icon_tree();
    let dir = "/home/u/.local/share/icons/Mine";
    let f = |name: &str| find_icon(dir, name, &read_index, &|p: &String| t.is_dir(p), &|p: &String| t.is_file(p));
    assert_eq!(f("folder"), Some("/usr/share/icons/Papirus/48x48/places/folder.svg".to_string()));
    assert_eq!(f("system-run"), Some("/usr/share/icons/hicolor/apps/16/system-run.png".to_string()));
    assert_eq!(f("missing"), None);
}

#[test]
fn representative_icons_take_one_per_slot() {
    let t = icon_tree();
    let dir = "/home/u/.local/share/icons/Mine";
    let out = find_representative_icons(
        dir,
        &read_index,
        &|p: &String| t.is_dir(p),
        &|p: &String| t.is_file(p),
        &|p: &String| format!("thumb:{p}"),
    );
    assert_eq!(
        out,
        Some(vec![
            "/usr/share/icons/hicolor/apps/16/system-run.png".to_string(),
            "thumb:/usr/share/icons/Papirus/48x48/places/folder.svg".to_string(),
            "thumb:/usr/share/icons/breeze/places/64/user-trash.svg".to_string(),
        ])
    );
    let empty = Tree { files: vec![], dirs: vec![] };
    assert_eq!(
        find_representative_icons("/x", &|_p: &String| None, &|p: &String| empty.is_dir(p), &|p: &String| empty.is_file(p), &|p: &String| p.clone()),
        None
    );
}

#[test]
fn deco_buttons_take_three() {
    let t = Tree { files: vec!["/d/close.svg", "/d/maximize.svg", "/d/restore.svg", "/d/minimize.svg"], dirs: vec![] };
    let out = find_deco_buttons("/d", &|p: &String| t.is_file(p), &|p: &String| format!("png:{p}"));
    assert_eq!(
        out,
        Some(vec!["png:/d/close.svg".to_string(), "png:/d/minimize.svg".to_string(), "png:/d/maximize.svg".to_string()])
    );
    assert_eq!(find_deco_buttons("/e", &|p: &String| t.is_file(p), &|p: &String| p.clone()), None);
}

#[test]
fn cursor_samples_skip_aliases() {
    let t = Tree { files: vec!["/c/T/cursors/left_ptr", "/c/T/cursors/wait", "/c/T/cursors/pointer"], dirs: vec![] };
    let canonical = |p: &String| {
        if p.ends_with("/wait") {
            Some("/c/T/cursors/left_ptr".to_string())
        } else {
            Some(p.clone())
        }
    };
    let out = find_cursor_samples("/c/T", &|p: &String| t.is_file(p), &canonical, &|p: &String| Some(format!("png:{p}")));
    assert_eq!(out, Some(vec!["png:/c/T/cursors/left_ptr".to_string(), "png:/c/T/cursors/pointer".to_string()]));
    let none = find_cursor_samples("/c/T", &|p: &String| t.is_file(p), &canonical, &|_p: &String| None);
    assert_eq!(none, None);
}

#[test]
fn cache_and_custom_directories() {
    assert_eq!(thumb_cache_dir("/home/u"), "/home/u/.cache/linuxthemer/previews");
    assert_eq!(custom_dir("/home/u"), "/home/u/.local/share/linuxthemer/custom");
}

#[test]
fn theme_sources_table() {
    let s = theme_sources("/home/u");
    let kinds: Vec<&str> = s.iter().map(|x| x.kind.as_str()).collect();
    assert_eq!(
        kinds,
        vec!["global", "plasma", "decorations", "colors", "wallpapers", "kvantum", "sddm", "gtk", "icons", "cursors"]
    );
    assert_eq!(s[2].roots, vec!["/home/u/.local/share/aurorae/themes".to_string(), "/usr/share/aurorae/themes".to_string()]);
    assert_eq!(s[3].files_ext, Some("colors".to_string()));
    assert_eq!(s[6].roots, vec!["/usr/share/sddm/themes".to_string()]);
    assert!(matches!(s[7].filter, DirFilter::Gtk));
    assert!(matches!(s[9].filter, DirFilter::Cursors));
    assert_eq!(
        s[8].roots,
        vec!["/home/u/.icons".to_string(), "/home/u/.local/share/icons".to_string(), "/usr/share/icons".to_string()]
    );
}

#[test]
fn hidden_directories_are_not_listed() {
    assert!(listed_dir("/r/Breeze"));
    assert!(!listed_dir("/r/.git"));
    assert!(!listed_dir("/"));
}

#[test]
fn directory_filters() {
    let t = Tree { files: vec!["/t/A/index.theme"], dirs: vec!["/t/B/gtk-4.0", "/t/C/cursors", "/t/D"] };
    let p = |x: &String| t.has(x);
    assert!(dir_accepted(&DirFilter::Any, "/t/D", &p));
    assert!(dir_accepted(&DirFilter::Gtk, "/t/A", &p));
    assert!(dir_accepted(&DirFilter::Gtk, "/t/B", &p));
    assert!(!dir_accepted(&DirFilter::Gtk, "/t/D", &p));
    assert!(dir_accepted(&DirFilter::Cursors, "/t/C", &p));
    assert!(!dir_accepted(&DirFilter::Icons, "/t/A", &p));
}

#[test]
fn found_entries_read_by_kind() {
    let t = Tree { files: vec!["/t/G/gtk-3.0/gtk.css", "/t/D/close.svg"], dirs: vec![] };
    let read = |p: &String| match p.as_str() {
        "/t/G/gtk-3.0/gtk.css" => Some("@define-color bg #112233;\n".to_string()),
        "/t/D/decoration.svg" => Some(".ColorScheme-Background { color:#445566; }".to_string()),
        "/c/X.colors" => Some("[Colors:Window]\nBackgroundNormal=1,2,3\n".to_string()),
        _ => None,
    };
    let g = found_dir(
        "gtk",
        "/t/G",
        &read,
        &|p: &String| t.is_file(p),
        &|p: &String| t.is_dir(p),
        &|d: &String| t.list_files(d),
        &|d: &String| t.list_dirs(d),
        &|p: &String| p.clone(),
        &|p: &String| Some(p.clone()),
        &|_p: &String| None,
    );
    assert_eq!(g.path, "/t/G");
    assert_eq!(g.palette, Some(vec!["#112233".to_string()]));
    assert_eq!(g.samples, None);
    assert_eq!(g.preview, None);
    let d = found_dir(
        "decorations",
        "/t/D",
        &read,
        &|p: &String| t.is_file(p),
        &|p: &String| t.is_dir(p),
        &|d: &String| t.list_files(d),
        &|d: &String| t.list_dirs(d),
        &|p: &String| format!("png:{p}"),
        &|p: &String| Some(p.clone()),
        &|_p: &String| None,
    );
    assert_eq!(d.palette, Some(vec!["#445566".to_string()]));
    assert_eq!(d.samples, Some(vec!["png:/t/D/close.svg".to_string()]));
    let c = found_file("colors", "/c/X.colors", &read);
    assert_eq!(c.palette, Some(vec!["#010203".to_string()]));
    assert_eq!(found_file("custom", "/c/X.colors", &read).palette, None);
}

#[test]
fn icon_chain_looks_next_to_the_theme_first() {
    let t = Tree {
        files: vec![],
        dirs: vec!["/home/u/.icons/hicolor", "/usr/share/icons", "/usr/share/icons/hicolor", "/usr/share/icons/breeze"],
    };
    let chain = icon_chain("/home/u/.icons/Mine", &|_p: &String| None, &|p: &String| t.is_dir(p));
    assert_eq!(
        chain,
        vec![
            "/home/u/.icons/Mine".to_string(),
            "/home/u/.icons/hicolor".to_string(),
            "/usr/share/icons/hicolor".to_string(),
            "/usr/share/icons/breeze".to_string(),
        ]
    );
    // a theme in the system root looks there once
    let chain = icon_chain("/usr/share/icons/Mine", &|_p: &String| None, &|p: &String| t.is_dir(p));
    assert_eq!(
        chain,
        vec![
            "/usr/share/icons/Mine".to_string(),
            "/usr/share/icons/hicolor".to_string(),
            "/usr/share/icons/breeze".to_string(),
        ]
    );
}

#[test]
fn cache_file_names_are_sixteen_hex_digits() {
    assert_eq!(cache_file_name(0x1f), "000000000000001f.png");
    assert_eq!(cache_file_name(u64::MAX), "ffffffffffffffff.png");
    assert_eq!(cache_file_name(0x0123_4567_89ab_cdef), format!("{:016x}.png", 0x0123_4567_89ab_cdefu64));
}

#[test]
fn find_media_deep_takes_own_media_then_subdirectories_in_name_order() {
    let t = Tree {
        files: vec!["/t/zz/b.png", "/t/aa/deep/c.jpg", "/t/aa/notes.txt"],
        dirs: vec!["/t", "/t/zz", "/t/aa", "/t/aa/deep"],
    };
    let lf = |d: &String| t.list_files(d);
    let ld = |d: &String| t.list_dirs(d);
    assert_eq!(find_media_deep(&"/t".to_string(), 3, &lf, &ld), Some("/t/aa/deep/c.jpg".to_string()));
    assert_eq!(find_media_deep(&"/t".to_string(), 1, &lf, &ld), Some("/t/zz/b.png".to_string()));
    assert_eq!(find_media_deep(&"/t".to_string(), 0, &lf, &ld), None);
    assert_eq!(find_media_deep(&"/t/zz".to_string(), 0, &lf, &ld), Some("/t/zz/b.png".to_string()));
}

#[test]
fn rendered_preview_falls_back_to_the_original() {
    let out = "/cache/1.png".to_string();
    let orig = "/t/preview.svg".to_string();
    assert_eq!(rendered_preview(&out, &orig, true), out);
    assert_eq!(rendered_preview(&out, &orig, false), orig);
}
