use linux_themer::ini::set_ini_key;
use linux_themer::installed::DirFilter;
use linux_themer::scan::{custom_themes, scan};
use linux_themer::ocs::{ocs_query_pairs, themes_url};
use linux_themer::plans::{
    apply_component, direct_removal, elevated_report, launch_report, launch_studio, removal_plan,
    DirectRemoval, IniEdit, Removal,
};
use linux_themer::profiles::{
    config_file_paths, current_theme, save_current_theme, save_global_theme, ConfigTexts, GlobalThemeSpec,
};

fn edit_tuple(e: &IniEdit) -> (&str, &str, &str, &str) {
    (e.file.as_str(), e.section.as_str(), e.key.as_str(), e.value.as_str())
}

#[test]
fn apply_gtk_sets_both_gtk_versions() {
    let p = apply_component("/home/u", "gtk", "Adwaita").unwrap();
    let edits: Vec<_> = p.edits.iter().map(edit_tuple).collect();
    assert_eq!(
        edits,
        vec![
            ("/home/u/.config/gtk-3.0/settings.ini", "Settings", "gtk-theme-name", "Adwaita"),
            ("/home/u/.config/gtk-4.0/settings.ini", "Settings", "gtk-theme-name", "Adwaita"),
        ]
    );
    assert!(p.reload.is_none());
}

#[test]
fn apply_components_with_reload_tools() {
    let p = apply_component("/home/u", "cursors", "Bibata").unwrap();
    assert_eq!(edit_tuple(&p.edits[0]), ("/home/u/.config/kcminputrc", "Mouse", "cursorTheme", "Bibata"));
    let r = p.reload.unwrap();
    assert_eq!((r.program.as_str(), r.args.clone()), ("plasma-apply-cursortheme", vec!["Bibata".to_string()]));

    let p = apply_component("/home/u", "colors", "BreezeDark").unwrap();
    assert_eq!(edit_tuple(&p.edits[0]), ("/home/u/.config/kdeglobals", "General", "ColorScheme", "BreezeDark"));
    assert_eq!(p.reload.unwrap().program, "plasma-apply-colorscheme");

    let p = apply_component("/home/u", "plasma", "default").unwrap();
    assert_eq!(edit_tuple(&p.edits[0]), ("/home/u/.config/plasmarc", "Theme", "name", "default"));
    assert_eq!(p.reload.unwrap().program, "plasma-apply-desktoptheme");
}

#[test]
fn apply_components_without_reload_tools() {
    let p = apply_component("/home/u", "icons", "Papirus").unwrap();
    assert_eq!(edit_tuple(&p.edits[0]), ("/home/u/.config/kdeglobals", "Icons", "Theme", "Papirus"));
    assert!(p.reload.is_none());
    let p = apply_component("/home/u", "qt", "kvantum").unwrap();
    assert_eq!(edit_tuple(&p.edits[0]), ("/home/u/.config/kdeglobals", "KDE", "widgetStyle", "kvantum"));
    assert_eq!(p.edits.len(), 1);
}

#[test]
fn apply_accent_converts_to_rgb() {
    let p = apply_component("/home/u", "accent", "#3daee9").unwrap();
    assert_eq!(edit_tuple(&p.edits[0]), ("/home/u/.config/kdeglobals", "General", "AccentColor", "61,174,233"));
    assert_eq!(apply_component("/home/u", "accent", "#12").err(), Some("accent color must be #RRGGBB".to_string()));
    assert_eq!(apply_component("/home/u", "accent", "#12345g").err(), Some("invalid hex".to_string()));
}

#[test]
fn apply_unknown_component() {
    assert_eq!(apply_component("/home/u", "wallpaper", "x").err(), Some("unknown component: wallpaper".to_string()));
}

#[test]
fn studio_programs() {
    let s = launch_studio("gtk").unwrap();
    assert_eq!(s.program, "oomox-gui");
    assert!(s.args.is_empty());
    assert_eq!(launch_studio("icons").unwrap().program, "oomox-gui");
    let s = launch_studio("plasma").unwrap();
    assert_eq!((s.program.as_str(), s.args.clone()), ("systemsettings", vec!["kcm_lookandfeel".to_string()]));
    assert_eq!(launch_studio("colors").unwrap().args, vec!["kcm_colors".to_string()]);
    assert_eq!(launch_studio("cursors").unwrap().args, vec!["kcm_cursortheme".to_string()]);
    assert_eq!(launch_studio("sddm").err(), Some("unknown studio kind: sddm".to_string()));
}

#[test]
fn launch_reports() {
    assert_eq!(launch_report("oomox-gui", None), Ok("launched oomox-gui".to_string()));
    assert_eq!(
        launch_report("oomox-gui", Some("No such file or directory (os error 2)".to_string())),
        Err("couldn't launch oomox-gui: No such file or directory (os error 2)".to_string())
    );
}

#[test]
fn removal_under_home_is_direct() {
    assert!(matches!(removal_plan("/home/u/.themes/X", "/home/u"), Removal::Direct));
    assert!(matches!(removal_plan("/home/u", "/home/u/"), Removal::Direct));
    match removal_plan("/usr/share/themes/X", "/home/u") {
        Removal::Elevated(s) => {
            assert_eq!(s.program, "pkexec");
            assert_eq!(s.args, vec!["rm".to_string(), "-rf".to_string(), "/usr/share/themes/X".to_string()]);
        }
        Removal::Direct => panic!("a system path needs elevation"),
    }
    // whole components only: /home/user2 is not under /home/u
    assert!(matches!(removal_plan("/home/user2/x", "/home/u"), Removal::Elevated(_)));
}

#[test]
fn removal_outcomes() {
    assert!(matches!(direct_removal(true, false), Ok(DirectRemoval::Directory)));
    assert!(matches!(direct_removal(false, true), Ok(DirectRemoval::File)));
    assert_eq!(direct_removal(false, false).err(), Some("path does not exist".to_string()));
    assert_eq!(elevated_report(None, true, "exit status: 0"), Ok(()));
    assert_eq!(
        elevated_report(None, false, "exit status: 126"),
        Err("removal failed (pkexec exited exit status: 126)".to_string())
    );
    assert_eq!(elevated_report(Some("not found".to_string()), false, ""), Err("pkexec unavailable: not found".to_string()));
}

fn texts() -> ConfigTexts {
    ConfigTexts {
        kdeglobals: Some("[General]\nAccentColor=61,174,233\n[KDE]\nwidgetStyle=Fusion\n".to_string()),
        kdeglobals_defaults: Some("[General]\nColorScheme=BreezeDark\n[Icons]\nTheme=breeze-dark\n[KDE]\nwidgetStyle=Breeze\n".to_string()),
        kcminputrc: None,
        kcminputrc_defaults: Some("[Mouse]\ncursorTheme=breeze_cursors\n".to_string()),
        gtk3_settings: Some("[Settings]\ngtk-theme-name=Breeze\n".to_string()),
        plasmarc: Some("[Theme]\nname=default\n".to_string()),
        plasmarc_defaults: None,
        kvantum_config: None,
    }
}

#[test]
fn current_theme_reads_layered_config() {
    let c = current_theme(&texts());
    assert_eq!(c.widget_style, "Fusion");
    assert_eq!(c.color_scheme, "BreezeDark");
    assert_eq!(c.icon_theme, "breeze-dark");
    assert_eq!(c.cursor_theme, "breeze_cursors");
    assert_eq!(c.gtk_theme, "Breeze");
    assert_eq!(c.plasma_theme, "default");
    assert_eq!(c.kvantum, "");
    assert_eq!(c.accent_color, "#3daee9");
}

#[test]
fn current_theme_defaults() {
    let none = ConfigTexts {
        kdeglobals: Some("[General]\nAccentColor=red\n".to_string()),
        kdeglobals_defaults: None,
        kcminputrc: None,
        kcminputrc_defaults: None,
        gtk3_settings: None,
        plasmarc: None,
        plasmarc_defaults: None,
        kvantum_config: Some("[General]\ntheme=KvArc\n".to_string()),
    };
    let c = current_theme(&none);
    assert_eq!(c.widget_style, "Breeze");
    assert_eq!(c.color_scheme, "");
    assert_eq!(c.kvantum, "KvArc");
    assert_eq!(c.accent_color, "#3daee9");
    let k = ConfigTexts { kdeglobals: Some("[General]\nAccentColor=1,2,3\n".to_string()), ..none };
    assert_eq!(current_theme(&k).accent_color, "#010203");
}

#[test]
fn config_files_in_field_order() {
    let p = config_file_paths("/home/u");
    assert_eq!(p.len(), 8);
    assert_eq!(p[1], "/home/u/.config/kdedefaults/kdeglobals");
    assert_eq!(p[4], "/home/u/.config/gtk-3.0/settings.ini");
    assert_eq!(p[7], "/home/u/.config/Kvantum/kvantum.kvconfig");
}

fn spec() -> GlobalThemeSpec {
    GlobalThemeSpec {
        gtk: "Adwaita".to_string(),
        widget_style: "Breeze".to_string(),
        kvantum: String::new(),
        icons: String::new(),
        cursors: String::new(),
        colors: "BreezeDark".to_string(),
        plasma: "default".to_string(),
    }
}

#[test]
fn global_theme_package() {
    let p = save_global_theme("/home/u", "  My Theme ", &spec()).unwrap();
    assert_eq!(p.dir, "/home/u/.local/share/plasma/look-and-feel/my-theme");
    assert_eq!(
        p.metadata,
        "[Desktop Entry]\nEncoding=UTF-8\nName=My Theme\nComment=Created with LinuxThemer\nType=Service\n\
         X-KDE-ServiceTypes=Plasma/LookAndFeel\nX-KDE-PluginInfo-Author=LinuxThemer\n\
         X-KDE-PluginInfo-Name=my-theme\nX-KDE-PluginInfo-Version=1.0\n\
         X-KDE-PluginInfo-Category=Plasma Look And Feel\nX-KDE-PluginInfo-EnabledByDefault=true\n"
    );
    assert_eq!(
        p.defaults,
        "[kdeglobals][General]\nColorScheme=BreezeDark\n\n[kdeglobals][KDE]\nwidgetStyle=Breeze\n\n[plasmarc][Theme]\nname=default\n\n"
    );
    assert_eq!(
        p.manifest,
        "{\n  \"colors\": \"BreezeDark\",\n  \"cursors\": \"\",\n  \"gtk\": \"Adwaita\",\n  \"icons\": \"\",\n  \
         \"kvantum\": \"\",\n  \"plasma\": \"default\",\n  \"widgetStyle\": \"Breeze\"\n}"
    );
}

#[test]
fn global_theme_needs_a_name() {
    assert_eq!(save_global_theme("/home/u", " \t ", &spec()).err(), Some("theme name is empty".to_string()));
}

#[test]
fn snapshot_profile() {
    let kdeglobals = Some("[KDE]\nLookAndFeelPackage=org.kde.breeze.desktop\n[General]\nColorScheme=Breeze\n".to_string());
    let p = save_current_theme("/home/u", " Snap 1 ", &kdeglobals, &None).unwrap();
    assert_eq!(p.path, "/home/u/.local/share/linuxthemer/custom/snap-1.json");
    assert_eq!(
        p.json,
        "{\n  \"colorScheme\": \"Breeze\",\n  \"cursorTheme\": null,\n  \"gtkTheme\": null,\n  \
         \"iconTheme\": null,\n  \"lookAndFeel\": \"org.kde.breeze.desktop\",\n  \"widgetStyle\": null\n}"
    );
    assert_eq!(save_current_theme("/home/u", "", &kdeglobals, &None).err(), Some("theme name is empty".to_string()));
}

#[test]
fn catalogue_query() {
    let q = ocs_query_pairs("107", 2, "  dark theme ", "new");
    let names: Vec<(&str, &str)> = q.iter().map(|(k, v)| (k.as_str(), v.as_str())).collect();
    assert_eq!(
        names,
        vec![
            ("categories", "107"),
            ("page", "2"),
            ("pagesize", "30"),
            ("sortmode", "new"),
            ("format", "json"),
            ("search", "dark theme"),
        ]
    );
    assert_eq!(ocs_query_pairs("107", 0, "   ", "high").len(), 5);
}

#[test]
fn catalogue_url() {
    assert_eq!(
        themes_url("107", 2, "  dark theme ", "new"),
        Ok("https://api.kde-look.org/ocs/v1/content/data?categories=107&page=2&pagesize=30&sortmode=new&format=json&search=dark+theme".to_string())
    );
    assert_eq!(
        themes_url("100x", 10, "", "down"),
        Ok("https://api.kde-look.org/ocs/v1/content/data?categories=100x&page=10&pagesize=30&sortmode=down&format=json".to_string())
    );
}

#[test]
fn applied_components_read_back() {
    let home = "/home/u";
    let paths = config_file_paths(home);
    for (kind, value) in [
        ("icons", "Papirus"),
        ("qt", "kvantum"),
        ("colors", "Nordic"),
        ("cursors", "Bibata"),
        ("plasma", "Sweet"),
        ("gtk", "Adwaita-dark"),
        ("accent", "#FF8800"),
    ] {
        let plan = apply_component(home, kind, value).unwrap();
        let e = &plan.edits[0];
        let idx = paths.iter().position(|p| p == &e.file).expect("the edited file is read back");
        let mut texts: Vec<Option<String>> = vec![
            Some("[General]\nColorScheme=Old\nAccentColor=1,2,3\n".to_string()),
            Some("[Icons]\nTheme=defaults\n[KDE]\nwidgetStyle=Oxygen\n".to_string()),
            None,
            Some("[Mouse]\ncursorTheme=defaults\n".to_string()),
            None,
            Some("[Theme]\nname=old\n".to_string()),
            None,
            None,
        ];
        let before = texts[idx].clone().unwrap_or_default();
        texts[idx] = Some(set_ini_key(&before, &e.section, &e.key, &e.value));
        let c = ConfigTexts {
            kdeglobals: texts[0].clone(),
            kdeglobals_defaults: texts[1].clone(),
            kcminputrc: texts[2].clone(),
            kcminputrc_defaults: texts[3].clone(),
            gtk3_settings: texts[4].clone(),
            plasmarc: texts[5].clone(),
            plasmarc_defaults: texts[6].clone(),
            kvantum_config: texts[7].clone(),
        };
        let cur = current_theme(&c);
        let shown = match kind {
            "icons" => cur.icon_theme,
            "qt" => cur.widget_style,
            "colors" => cur.color_scheme,
            "cursors" => cur.cursor_theme,
            "plasma" => cur.plasma_theme,
            "gtk" => cur.gtk_theme,
            _ => cur.accent_color,
        };
        if kind == "accent" {
            assert_eq!(shown, "#ff8800");
        } else {
            assert_eq!(shown, value);
        }
    }
}

#[test]
fn saved_profile_is_listed_as_custom() {
    let saved = save_current_theme("/home/u", "My Look", &None, &None).unwrap();
    let paths = vec!["/home/u/.local/share/linuxthemer/custom/notes.txt".to_string(), saved.path.clone()];
    let listed = custom_themes(&paths);
    assert_eq!(listed.len(), 1);
    assert_eq!(listed[0].kind, "custom");
    assert_eq!(listed[0].path, saved.path);
    assert_eq!(listed[0].name, "my-look");
    assert_eq!(listed[0].id, "custom:my-look");
    assert!(listed[0].preview.is_none() && listed[0].palette.is_none() && listed[0].samples.is_none());
}

#[test]
fn saved_global_theme_is_listed_as_global() {
    let p = save_global_theme("/home/u", "  My Theme ", &spec()).unwrap();
    let root = "/home/u/.local/share/plasma/look-and-feel".to_string();
    let dirs = vec![format!("{root}/other"), p.dir.clone()];
    let list_dirs = |d: &String| if *d == root { dirs.clone() } else { vec![] };
    let listed = scan(
        "global",
        &vec![root.clone()],
        &DirFilter::Any,
        &|_p: &String| None,
        &|_p: &String| false,
        &|_p: &String| false,
        &|_d: &String| vec![],
        &list_dirs,
        &|p: &String| p.clone(),
        &|_p: &String| None,
        &|_p: &String| None,
        &|_p: &String| false,
    );
    let e = listed.iter().find(|t| t.path == p.dir).unwrap();
    assert_eq!(e.kind, "global");
    assert_eq!(e.name, "my-theme");
    assert_eq!(e.id, "global:my-theme");
}

#[test]
fn accent_reads_back_in_lowercase() {
    let p = apply_component("/home/u", "accent", "#3DAEE9").unwrap();
    let e = &p.edits[0];
    let written = set_ini_key("[General]\nColorScheme=Breeze\n", &e.section, &e.key, &e.value);
    let k = ConfigTexts { kdeglobals: Some(written), ..texts() };
    assert_eq!(current_theme(&k).accent_color, "#3daee9");
}
