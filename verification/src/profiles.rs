//! The theme a user has applied, read from KDE's layered configuration, and
//! what is saved from it: a KDE global-theme package assembled in the Studio,
//! or a snapshot of the current settings as a custom profile.
use vstd::prelude::*;
use crate::color::{
    hex_color_text, hex_text, hex_to_rgb_spec, law_color_roundtrip, lemma_hex_color_lower, rgb_text, rgb_to_hex, rgb_to_hex_spec, strip_hashes,
};
use crate::ini::{
    file_value, ini_set_text, law_main_file_wins, law_set_then_read, lemma_plain_shape, merged_value, no_newline,
    read_ini, read_ini_merged,
};
use crate::num::{lemma_decimal_digits, parse_u8};
use crate::plans::component_plan;
use crate::palette::{opt_view, string_views};
use crate::paths::{join, lemma_join_file_name, lemma_stem_and_extension};
use crate::plans::cat;
use crate::probe::custom_dir;
use crate::scan::{admitted, clone_opt_string, custom_listing, entry_name, lemma_listing_has, listing, theme_of, Found, InstalledTheme};
use crate::slug::{lemma_slug_chars_plain, lemma_slugify_plain, slug_chars, slug_file_name, slugify, slugify_spec};
use crate::text::{
    ascii_lower_str, chars_of, decimal, is_ws, join_path, owned, plain_word, string_of, trim, trim_chars, trim_end, trim_start,
};

verus! {

/// The user's currently applied theme.
pub struct CurrentTheme {
    pub widget_style: String,
    pub color_scheme: String,
    pub icon_theme: String,
    pub cursor_theme: String,
    pub gtk_theme: String,
    pub plasma_theme: String,
    pub kvantum: String,
    pub accent_color: String,
}

/// The configuration files the current theme is read from, as far as they
/// could be read (`None` for a missing or unreadable file). KDE keeps runtime
/// values in `~/.config/<file>` and the defaults written by a global theme in
/// `~/.config/kdedefaults/<file>`.
pub struct ConfigTexts {
    pub kdeglobals: Option<String>,
    pub kdeglobals_defaults: Option<String>,
    pub kcminputrc: Option<String>,
    pub kcminputrc_defaults: Option<String>,
    pub gtk3_settings: Option<String>,
    pub plasmarc: Option<String>,
    pub plasmarc_defaults: Option<String>,
    pub kvantum_config: Option<String>,
}

/// The paths of the files of `ConfigTexts`, in the order of its fields.
pub open spec fn config_files(home: Seq<char>) -> Seq<Seq<char>> {
    seq![
        join_path(home, ".config/kdeglobals"@),
        join_path(home, ".config/kdedefaults/kdeglobals"@),
        join_path(home, ".config/kcminputrc"@),
        join_path(home, ".config/kdedefaults/kcminputrc"@),
        join_path(home, ".config/gtk-3.0/settings.ini"@),
        join_path(home, ".config/plasmarc"@),
        join_path(home, ".config/kdedefaults/plasmarc"@),
        join_path(home, ".config/Kvantum/kvantum.kvconfig"@),
    ]
}

/// The paths of the files of `ConfigTexts`, in the order of its fields.
pub fn config_file_paths(home: &str) -> (r: Vec<String>)
    ensures
        string_views(r@) == config_files(home@),
{
    let mut r: Vec<String> = Vec::new();
    r.push(join(home, ".config/kdeglobals"));
    r.push(join(home, ".config/kdedefaults/kdeglobals"));
    r.push(join(home, ".config/kcminputrc"));
    r.push(join(home, ".config/kdedefaults/kcminputrc"));
    r.push(join(home, ".config/gtk-3.0/settings.ini"));
    r.push(join(home, ".config/plasmarc"));
    r.push(join(home, ".config/kdedefaults/plasmarc"));
    r.push(join(home, ".config/Kvantum/kvantum.kvconfig"));
    assert(string_views(r@) =~= config_files(home@));
    r
}

/// `o`'s text, else `d`.
pub open spec fn or_text(o: Option<Seq<char>>, d: Seq<char>) -> Seq<char> {
    match o {
        Some(v) => v,
        None => d,
    }
}

/// The accent color: `AccentColor` of `[General]` in `kdeglobals` as
/// `#rrggbb`, else Breeze's `#3daee9`.
pub open spec fn accent_of(kdeglobals: Option<String>) -> Seq<char> {
    match file_value(kdeglobals, "General"@, "AccentColor"@) {
        Some(v) => or_text(rgb_to_hex_spec(v), "#3daee9"@),
        None => "#3daee9"@,
    }
}

proof fn lemma_merged_views(a: Seq<Option<String>>, b: Seq<Option<String>>, section: Seq<char>, key: Seq<char>)
    requires
        a.len() == b.len(),
        forall|i: int| 0 <= i < a.len() ==> opt_view(#[trigger] a[i]) == opt_view(b[i]),
    ensures
        merged_value(a, section, key) == merged_value(b, section, key),
    decreases a.len(),
{
    if a.len() > 0 {
        assert(opt_view(a[0]) == opt_view(b[0]));
        assert(file_value(a[0], section, key) == file_value(b[0], section, key));
        lemma_merged_views(a.drop_first(), b.drop_first(), section, key);
    }
}

/// The component names are distinct.
proof fn lemma_kind_names()
    ensures
        "qt"@.len() == 2,
        "colors"@.len() == 6,
        "icons"@.len() == 5,
        "cursors"@.len() == 7,
        "gtk"@.len() == 3,
        "plasma"@.len() == 6,
        "accent"@.len() == 6,
        "colors"@ != "plasma"@,
        "colors"@ != "accent"@,
        "plasma"@ != "accent"@,
{
    reveal_strlit("qt");
    reveal_strlit("colors");
    reveal_strlit("icons");
    reveal_strlit("cursors");
    reveal_strlit("gtk");
    reveal_strlit("plasma");
    reveal_strlit("accent");
    assert("colors"@[0] != "plasma"@[0]);
    assert("colors"@[0] != "accent"@[0]);
    assert("plasma"@[0] != "accent"@[0]);
}

/// `key` of `section` in the main file, else in the defaults file.
fn layered(main: &Option<String>, defaults: &Option<String>, section: &str, key: &str) -> (r: Option<String>)
    ensures
        opt_view(r) == merged_value(seq![*main, *defaults], section@, key@),
{
    let mut texts: Vec<Option<String>> = Vec::new();
    texts.push(clone_opt_string(main));
    texts.push(clone_opt_string(defaults));
    let r = read_ini_merged(&texts, section, key);
    proof {
        lemma_merged_views(texts@, seq![*main, *defaults], section@, key@);
    }
    r
}

/// `key` of `section` in a file that may not have been read.
fn file_read(text: &Option<String>, section: &str, key: &str) -> (r: Option<String>)
    ensures
        opt_view(r) == file_value(*text, section@, key@),
{
    match text {
        Some(t) => read_ini(t.as_str(), section, key),
        None => None,
    }
}

fn or_owned(o: Option<String>, d: &str) -> (r: String)
    ensures
        r@ == or_text(opt_view(o), d@),
{
    match o {
        Some(v) => v,
        None => owned(d),
    }
}

/// What the current theme shows for component `kind` (as `apply_component`
/// names the components): widget style (`qt`), color scheme and icon theme
/// from `kdeglobals`, the cursor theme from `kcminputrc`, the desktop theme
/// from `plasmarc` (each the main file first, then its `kdedefaults` layer),
/// the GTK theme from GTK 3's settings, and the accent color from
/// `kdeglobals`. A missing widget style is `Breeze`, a missing accent color
/// `#3daee9`, anything else missing empty.
pub open spec fn shown_value(c: ConfigTexts, kind: Seq<char>) -> Seq<char> {
    if kind == "qt"@ {
        or_text(merged_value(seq![c.kdeglobals, c.kdeglobals_defaults], "KDE"@, "widgetStyle"@), "Breeze"@)
    } else if kind == "colors"@ {
        or_text(merged_value(seq![c.kdeglobals, c.kdeglobals_defaults], "General"@, "ColorScheme"@), Seq::empty())
    } else if kind == "icons"@ {
        or_text(merged_value(seq![c.kdeglobals, c.kdeglobals_defaults], "Icons"@, "Theme"@), Seq::empty())
    } else if kind == "cursors"@ {
        or_text(merged_value(seq![c.kcminputrc, c.kcminputrc_defaults], "Mouse"@, "cursorTheme"@), Seq::empty())
    } else if kind == "gtk"@ {
        or_text(file_value(c.gtk3_settings, "Settings"@, "gtk-theme-name"@), Seq::empty())
    } else if kind == "plasma"@ {
        or_text(merged_value(seq![c.plasmarc, c.plasmarc_defaults], "Theme"@, "name"@), Seq::empty())
    } else if kind == "accent"@ {
        accent_of(c.kdeglobals)
    } else {
        Seq::empty()
    }
}

/// The currently applied theme: widget style, color scheme and icon theme
/// from `kdeglobals`, the cursor theme from `kcminputrc`, the desktop theme
/// from `plasmarc` (each the main file first, then its `kdedefaults`
/// layer), the GTK theme from GTK 3's settings, the Kvantum theme from its
/// config, and the accent color from `kdeglobals`. A missing widget style is
/// `Breeze`, a missing accent color `#3daee9`, anything else missing empty.
pub fn current_theme(c: &ConfigTexts) -> (r: CurrentTheme)
    ensures
        r.widget_style@ == shown_value(*c, "qt"@),
        r.color_scheme@ == shown_value(*c, "colors"@),
        r.icon_theme@ == shown_value(*c, "icons"@),
        r.cursor_theme@ == shown_value(*c, "cursors"@),
        r.gtk_theme@ == shown_value(*c, "gtk"@),
        r.plasma_theme@ == shown_value(*c, "plasma"@),
        r.kvantum@ == or_text(file_value(c.kvantum_config, "General"@, "theme"@), Seq::empty()),
        r.accent_color@ == shown_value(*c, "accent"@),
{
    proof {
        reveal_strlit("");
        lemma_kind_names();
    }
    let accent = match file_read(&c.kdeglobals, "General", "AccentColor") {
        Some(v) => or_owned(rgb_to_hex(v.as_str()), "#3daee9"),
        None => owned("#3daee9"),
    };
    CurrentTheme {
        widget_style: or_owned(layered(&c.kdeglobals, &c.kdeglobals_defaults, "KDE", "widgetStyle"), "Breeze"),
        color_scheme: or_owned(layered(&c.kdeglobals, &c.kdeglobals_defaults, "General", "ColorScheme"), ""),
        icon_theme: or_owned(layered(&c.kdeglobals, &c.kdeglobals_defaults, "Icons", "Theme"), ""),
        cursor_theme: or_owned(layered(&c.kcminputrc, &c.kcminputrc_defaults, "Mouse", "cursorTheme"), ""),
        gtk_theme: or_owned(file_read(&c.gtk3_settings, "Settings", "gtk-theme-name"), ""),
        plasma_theme: or_owned(layered(&c.plasmarc, &c.plasmarc_defaults, "Theme", "name"), ""),
        kvantum: or_owned(file_read(&c.kvantum_config, "General", "theme"), ""),
        accent_color: accent,
    }
}

// ---------------------------------------------------------------- saving

/// A result whose texts are viewed.
pub open spec fn text_result(r: Result<String, String>) -> Result<Seq<char>, Seq<char>> {
    match r {
        Ok(s) => Ok(s@),
        Err(e) => Err(e@),
    }
}

pub open spec fn opt_string_views(v: Seq<Option<String>>) -> Seq<Option<Seq<char>>> {
    v.map_values(|o: Option<String>| opt_view(o))
}

/// The text `serde_json::to_string_pretty` gives for the JSON object with
/// these keys, each mapped to its string or to `null`.
pub uninterp spec fn json_document(keys: Seq<Seq<char>>, values: Seq<Option<Seq<char>>>) -> Seq<char>;

/// `serde_json::to_string_pretty` of a `serde_json::Map` built by inserting
/// `keys[i]` with `values[i]` (a string or `null`), in order. Claims that it
/// succeeds: strings, `null` and string keys serialize without error, and
/// the writer is a `Vec`, which takes every write. The text is named
/// `json_document`; the map's key order and the pretty printer's layout are
/// not written out.
#[verifier::external_body]
fn pretty_json(keys: &Vec<String>, values: &Vec<Option<String>>) -> (r: Result<String, String>)
    ensures
        r is Ok,
        r matches Ok(s) ==> s@ == json_document(string_views(keys@), opt_string_views(values@)),
{
    let mut m = serde_json::Map::new();
    for (k, v) in keys.iter().zip(values.iter()) {
        m.insert(k.clone(), serde_json::Value::from(v.clone()));
    }
    serde_json::to_string_pretty(&m).map_err(|e| e.to_string())
}

/// The components a new global theme is assembled from in the Studio.
pub struct GlobalThemeSpec {
    pub gtk: String,
    pub widget_style: String,
    pub kvantum: String,
    pub icons: String,
    pub cursors: String,
    pub colors: String,
    pub plasma: String,
}

/// The files of a KDE look-and-feel package: `metadata.desktop`,
/// `contents/defaults`, and the `linuxthemer.json` manifest, all in `dir`.
pub struct ThemePackage {
    pub dir: String,
    pub metadata: String,
    pub defaults: String,
    pub manifest: String,
}

/// Where a global theme named by `slug` is installed for the user.
pub open spec fn package_dir(home: Seq<char>, slug: Seq<char>) -> Seq<char> {
    join_path(join_path(home, ".local/share/plasma/look-and-feel"@), slug)
}

/// The package's `metadata.desktop`.
pub open spec fn metadata_text(name: Seq<char>, slug: Seq<char>) -> Seq<char> {
    "[Desktop Entry]\nEncoding=UTF-8\nName="@ + name
        + "\nComment=Created with LinuxThemer\nType=Service\nX-KDE-ServiceTypes=Plasma/LookAndFeel\nX-KDE-PluginInfo-Author=LinuxThemer\nX-KDE-PluginInfo-Name="@
        + slug
        + "\nX-KDE-PluginInfo-Version=1.0\nX-KDE-PluginInfo-Category=Plasma Look And Feel\nX-KDE-PluginInfo-EnabledByDefault=true\n"@
}

/// One group of `contents/defaults`, left out when `value` is empty.
pub open spec fn default_entry(head: Seq<char>, value: Seq<char>) -> Seq<char> {
    if value.len() == 0 {
        Seq::empty()
    } else {
        head + value + "\n\n"@
    }
}

/// The package's `contents/defaults`: the color scheme, icons, widget style,
/// cursors and desktop theme that applying the global theme sets.
pub open spec fn defaults_text(s: GlobalThemeSpec) -> Seq<char> {
    default_entry("[kdeglobals][General]\nColorScheme="@, s.colors@) + default_entry(
        "[kdeglobals][Icons]\nTheme="@,
        s.icons@,
    ) + default_entry("[kdeglobals][KDE]\nwidgetStyle="@, s.widget_style@) + default_entry(
        "[kcminputrc][Mouse]\ncursorTheme="@,
        s.cursors@,
    ) + default_entry("[plasmarc][Theme]\nname="@, s.plasma@)
}

pub open spec fn manifest_keys() -> Seq<Seq<char>> {
    seq!["gtk"@, "kvantum"@, "widgetStyle"@, "icons"@, "cursors"@, "colors"@, "plasma"@]
}

/// The manifest's values: every component, GTK and Kvantum included (a
/// look-and-feel package cannot set those two).
pub open spec fn manifest_values(s: GlobalThemeSpec) -> Seq<Option<Seq<char>>> {
    seq![
        Some(s.gtk@),
        Some(s.kvantum@),
        Some(s.widget_style@),
        Some(s.icons@),
        Some(s.cursors@),
        Some(s.colors@),
        Some(s.plasma@),
    ]
}

pub open spec fn empty_name_message() -> Seq<char> {
    "theme name is empty"@
}

fn default_entry_exec(out: &mut Vec<char>, head: &str, value: &String)
    ensures
        final(out)@ == old(out)@ + default_entry(head@, value@),
{
    let v = chars_of(value.as_str());
    if v.len() > 0 {
        crate::text::extend_chars(out, &chars_of(head));
        crate::text::extend_chars(out, &v);
        crate::text::extend_chars(out, &chars_of("\n\n"));
    } else {
        assert(old(out)@ + default_entry(head@, value@) =~= old(out)@);
    }
}

fn strings_of(xs: &[&str]) -> (r: Vec<String>)
    ensures
        string_views(r@) == xs@.map_values(|x: &str| x@),
{
    let mut r: Vec<String> = Vec::new();
    let mut i: usize = 0;
    while i < xs.len()
        invariant
            i <= xs.len(),
            string_views(r@) == xs@.map_values(|x: &str| x@).take(i as int),
        decreases xs.len() - i,
    {
        let ghost before = string_views(r@);
        r.push(owned(xs[i]));
        assert(string_views(r@) =~= before.push(xs@[i as int]@));
        assert(xs@.map_values(|x: &str| x@).take(i + 1) =~= xs@.map_values(|x: &str| x@).take(
            i as int,
        ).push(xs@[i as int]@));
        i += 1;
    }
    assert(xs@.map_values(|x: &str| x@).take(xs.len() as int) =~= xs@.map_values(|x: &str| x@));
    r
}

/// The look-and-feel package for a global theme called `name` (trimmed)
/// with the components of `spec`, installed under `home`: refused with
/// `theme name is empty` when the trimmed name is empty, else placed in the
/// directory of the name's slug, its manifest being `spec` as a JSON object.
pub fn save_global_theme(home: &str, name: &str, spec: &GlobalThemeSpec) -> (r: Result<ThemePackage, String>)
    ensures
        trim(name@).len() == 0 ==> (r matches Err(m) && m@ == empty_name_message()),
        trim(name@).len() > 0 ==> (r matches Ok(p) && p.dir@ == package_dir(home@, slugify_spec(trim(name@)))
            && p.metadata@ == metadata_text(trim(name@), slugify_spec(trim(name@))) && p.defaults@
            == defaults_text(*spec) && p.manifest@ == json_document(manifest_keys(), manifest_values(*spec))),
{
    let t = trim_chars(&chars_of(name));
    if t.len() == 0 {
        return Err(owned("theme name is empty"));
    }
    let trimmed = string_of(&t);
    let slug = slugify(trimmed.as_str());
    let root = join(home, ".local/share/plasma/look-and-feel");
    let dir = join(root.as_str(), slug.as_str());
    let mut meta = chars_of("[Desktop Entry]\nEncoding=UTF-8\nName=");
    crate::text::extend_chars(&mut meta, &chars_of(trimmed.as_str()));
    crate::text::extend_chars(
        &mut meta,
        &chars_of(
            "\nComment=Created with LinuxThemer\nType=Service\nX-KDE-ServiceTypes=Plasma/LookAndFeel\nX-KDE-PluginInfo-Author=LinuxThemer\nX-KDE-PluginInfo-Name=",
        ),
    );
    crate::text::extend_chars(&mut meta, &chars_of(slug.as_str()));
    crate::text::extend_chars(
        &mut meta,
        &chars_of(
            "\nX-KDE-PluginInfo-Version=1.0\nX-KDE-PluginInfo-Category=Plasma Look And Feel\nX-KDE-PluginInfo-EnabledByDefault=true\n",
        ),
    );
    let mut defaults: Vec<char> = Vec::new();
    default_entry_exec(&mut defaults, "[kdeglobals][General]\nColorScheme=", &spec.colors);
    default_entry_exec(&mut defaults, "[kdeglobals][Icons]\nTheme=", &spec.icons);
    default_entry_exec(&mut defaults, "[kdeglobals][KDE]\nwidgetStyle=", &spec.widget_style);
    default_entry_exec(&mut defaults, "[kcminputrc][Mouse]\ncursorTheme=", &spec.cursors);
    default_entry_exec(&mut defaults, "[plasmarc][Theme]\nname=", &spec.plasma);
    assert(defaults@ =~= defaults_text(*spec));
    let keys = strings_of(&["gtk", "kvantum", "widgetStyle", "icons", "cursors", "colors", "plasma"]);
    let mut values: Vec<Option<String>> = Vec::new();
    values.push(Some(spec.gtk.clone()));
    values.push(Some(spec.kvantum.clone()));
    values.push(Some(spec.widget_style.clone()));
    values.push(Some(spec.icons.clone()));
    values.push(Some(spec.cursors.clone()));
    values.push(Some(spec.colors.clone()));
    values.push(Some(spec.plasma.clone()));
    assert(string_views(keys@) =~= manifest_keys());
    assert(opt_string_views(values@) =~= manifest_values(*spec));
    assert(meta@ =~= metadata_text(trim(name@), slugify_spec(trim(name@))));
    match pretty_json(&keys, &values) {
        Ok(manifest) => Ok(ThemePackage { dir, metadata: string_of(&meta), defaults: string_of(&defaults), manifest }),
        Err(e) => Err(e),
    }
}

/// A snapshot of the current settings saved as a custom profile: the JSON
/// text and the file it goes to.
pub struct SavedProfile {
    pub path: String,
    pub json: String,
}

pub open spec fn snapshot_keys() -> Seq<Seq<char>> {
    seq!["lookAndFeel"@, "colorScheme"@, "widgetStyle"@, "iconTheme"@, "gtkTheme"@, "cursorTheme"@]
}

/// The snapshot: the look-and-feel package, color scheme, widget style and
/// icon theme from `kdeglobals`, the GTK and cursor themes from GTK 3's
/// settings (`null` where missing).
pub open spec fn snapshot_values(kdeglobals: Option<String>, gtk3: Option<String>) -> Seq<Option<Seq<char>>> {
    seq![
        file_value(kdeglobals, "KDE"@, "LookAndFeelPackage"@),
        file_value(kdeglobals, "General"@, "ColorScheme"@),
        file_value(kdeglobals, "KDE"@, "widgetStyle"@),
        file_value(kdeglobals, "Icons"@, "Theme"@),
        file_value(gtk3, "Settings"@, "gtk-theme-name"@),
        file_value(gtk3, "Settings"@, "gtk-cursor-theme-name"@),
    ]
}

/// Where the snapshot of a profile called `name` (trimmed) is saved: the
/// name's characters mapped one for one to slug characters, `.json` added,
/// in the custom profile directory.
pub open spec fn profile_path(home: Seq<char>, name: Seq<char>) -> Seq<char> {
    join_path(join_path(home, ".local/share/linuxthemer/custom"@), slug_chars(name) + ".json"@)
}

/// The snapshot of the current settings as the profile `name` (trimmed):
/// refused with `theme name is empty` when the trimmed name is empty.
pub fn save_current_theme(home: &str, name: &str, kdeglobals: &Option<String>, gtk3: &Option<String>) -> (r: Result<
    SavedProfile,
    String,
>)
    ensures
        trim(name@).len() == 0 ==> (r matches Err(m) && m@ == empty_name_message()),
        trim(name@).len() > 0 ==> (r matches Ok(p) && p.path@ == profile_path(home@, trim(name@)) && p.json@
            == json_document(snapshot_keys(), snapshot_values(*kdeglobals, *gtk3))),
{
    let t = trim_chars(&chars_of(name));
    if t.len() == 0 {
        return Err(owned("theme name is empty"));
    }
    let trimmed = string_of(&t);
    let keys = strings_of(&["lookAndFeel", "colorScheme", "widgetStyle", "iconTheme", "gtkTheme", "cursorTheme"]);
    let mut values: Vec<Option<String>> = Vec::new();
    values.push(file_read(kdeglobals, "KDE", "LookAndFeelPackage"));
    values.push(file_read(kdeglobals, "General", "ColorScheme"));
    values.push(file_read(kdeglobals, "KDE", "widgetStyle"));
    values.push(file_read(kdeglobals, "Icons", "Theme"));
    values.push(file_read(gtk3, "Settings", "gtk-theme-name"));
    values.push(file_read(gtk3, "Settings", "gtk-cursor-theme-name"));
    assert(string_views(keys@) =~= snapshot_keys());
    assert(opt_string_views(values@) =~= snapshot_values(*kdeglobals, *gtk3));
    let slug = slug_file_name(trimmed.as_str());
    let file = cat(slug.as_str(), ".json");
    let path = join(custom_dir(home).as_str(), file.as_str());
    match pretty_json(&keys, &values) {
        Ok(json) => Ok(SavedProfile { path, json }),
        Err(e) => Err(e),
    }
}

// ---------------------------------------------------------------- laws

/// The text of `c` that the current theme reads component `kind` from.
pub open spec fn source_text(c: ConfigTexts, kind: Seq<char>) -> Option<String> {
    if kind == "gtk"@ {
        c.gtk3_settings
    } else if kind == "cursors"@ {
        c.kcminputrc
    } else if kind == "plasma"@ {
        c.plasmarc
    } else {
        c.kdeglobals
    }
}

/// The position of that file in `config_files`.
pub open spec fn source_index(kind: Seq<char>) -> int {
    if kind == "gtk"@ {
        4
    } else if kind == "cursors"@ {
        2
    } else if kind == "plasma"@ {
        5
    } else {
        0
    }
}

proof fn lemma_gtk_settings_path(home: Seq<char>)
    ensures
        join_path(join_path(home, ".config"@), "gtk-3.0/settings.ini"@) == join_path(
            home,
            ".config/gtk-3.0/settings.ini"@,
        ),
{
    reveal_strlit(".config");
    reveal_strlit("gtk-3.0/settings.ini");
    reveal_strlit(".config/gtk-3.0/settings.ini");
    let a = ".config"@;
    let b = "gtk-3.0/settings.ini"@;
    let ab = ".config/gtk-3.0/settings.ini"@;
    assert(ab =~= a + seq!['/'] + b);
    let d = join_path(home, a);
    if home.len() == 0 || home.last() == '/' {
        assert(d == home + a);
        assert(d[d.len() - 1] == a[a.len() - 1]);
        assert(join_path(d, b) =~= home + ab);
    } else {
        assert(d == home + seq!['/'] + a);
        assert(d[d.len() - 1] == a[a.len() - 1]);
        assert(join_path(d, b) =~= home + seq!['/'] + ab);
    }
}

proof fn lemma_rgb_text_plain(r: u8, g: u8, b: u8)
    ensures
        no_newline(rgb_text(r, g, b)),
        trim(rgb_text(r, g, b)) == rgb_text(r, g, b),
{
    let dr = decimal(r as nat);
    let dg = decimal(g as nat);
    let db = decimal(b as nat);
    lemma_decimal_digits(r as nat);
    lemma_decimal_digits(g as nat);
    lemma_decimal_digits(b as nat);
    let t = rgb_text(r, g, b);
    assert forall|i: int| 0 <= i < t.len() implies t[i] != '\n' by {
        let a = dr.len() as int;
        let m = a + 1 + dg.len();
        if i < a {
            assert(t[i] == dr[i]);
        } else if i == a {
            assert(t[i] == ',');
        } else if i < m {
            assert(t[i] == dg[i - a - 1]);
        } else if i == m {
            assert(t[i] == ',');
        } else {
            assert(t[i] == db[i - m - 1]);
        }
    }
    assert(t[0] == dr[0]);
    assert(t[t.len() - 1] == db[db.len() - 1]);
    assert(!is_ws(t[0]));
    assert(!is_ws(t.last()));
    assert(trim_start(t) == t);
    assert(trim_end(t) == t);
}

/// The section and key names the components are written under.
proof fn lemma_config_words()
    ensures
        plain_word("Settings"@) && "Settings"@.len() > 0,
        plain_word("gtk-theme-name"@) && "gtk-theme-name"@.len() > 0,
        plain_word("Icons"@) && "Icons"@.len() > 0,
        plain_word("Theme"@) && "Theme"@.len() > 0,
        plain_word("Mouse"@) && "Mouse"@.len() > 0,
        plain_word("cursorTheme"@) && "cursorTheme"@.len() > 0,
        plain_word("General"@) && "General"@.len() > 0,
        plain_word("ColorScheme"@) && "ColorScheme"@.len() > 0,
        plain_word("KDE"@) && "KDE"@.len() > 0,
        plain_word("widgetStyle"@) && "widgetStyle"@.len() > 0,
        plain_word("name"@) && "name"@.len() > 0,
        plain_word("AccentColor"@) && "AccentColor"@.len() > 0,
{
    reveal_with_fuel(plain_word, 16);
    reveal_strlit("Settings");
    reveal_strlit("gtk-theme-name");
    reveal_strlit("Icons");
    reveal_strlit("Theme");
    reveal_strlit("Mouse");
    reveal_strlit("cursorTheme");
    reveal_strlit("General");
    reveal_strlit("ColorScheme");
    reveal_strlit("KDE");
    reveal_strlit("widgetStyle");
    reveal_strlit("name");
    reveal_strlit("AccentColor");
}

/// A value set in the main file reads back, from the file and through the
/// defaults layer.
proof fn lemma_read_back(
    before: Seq<char>,
    section: Seq<char>,
    key: Seq<char>,
    value: Seq<char>,
    main: String,
    defaults: Option<String>,
)
    requires
        plain_word(section) && section.len() > 0,
        plain_word(key) && key.len() > 0,
        no_newline(value),
        main@ == ini_set_text(before, section, key, value),
    ensures
        file_value(Some(main), section, key) == Some(trim(value)),
        merged_value(seq![Some(main), defaults], section, key) == Some(trim(value)),
{
    lemma_plain_shape(section, key, value);
    law_set_then_read(before, section, key, value);
    law_main_file_wins(Some(main), defaults, section, key);
}

/// Applying a component and reading the current theme back: the first file
/// that applying component `kind` edits is the file the current theme reads
/// the component from, and once that file holds what `set_ini_key` wrote
/// there, the current theme shows the value (trimmed; for the accent color,
/// the same color, and for `#` and six hex digits the text in lowercase),
/// whatever the defaults layer and the other files hold.
pub proof fn law_apply_then_current(
    home: Seq<char>,
    kind: Seq<char>,
    value: Seq<char>,
    before: Seq<char>,
    c: ConfigTexts,
)
    requires
        component_plan(home, kind, value) is Ok,
        kind != "accent"@ ==> no_newline(value),
        source_text(c, kind) matches Some(t) && t@ == ({
            let e = component_plan(home, kind, value)->Ok_0.0[0];
            ini_set_text(before, e.1, e.2, e.3)
        }),
    ensures
        component_plan(home, kind, value)->Ok_0.0[0].0 == config_files(home)[source_index(kind)],
        kind != "accent"@ ==> shown_value(c, kind) == trim(value),
        kind == "accent"@ ==> hex_to_rgb_spec(shown_value(c, kind)) == hex_to_rgb_spec(value),
        kind == "accent"@ && hex_color_text(value) ==> shown_value(c, kind) == ascii_lower_str(value),
{
    lemma_kind_names();
    lemma_config_words();
    let t = source_text(c, kind)->Some_0;
    if kind == "gtk"@ {
        lemma_gtk_settings_path(home);
        lemma_read_back(before, "Settings"@, "gtk-theme-name"@, value, t, None);
    } else if kind == "icons"@ {
        lemma_read_back(before, "Icons"@, "Theme"@, value, t, c.kdeglobals_defaults);
    } else if kind == "cursors"@ {
        lemma_read_back(before, "Mouse"@, "cursorTheme"@, value, t, c.kcminputrc_defaults);
    } else if kind == "colors"@ {
        lemma_read_back(before, "General"@, "ColorScheme"@, value, t, c.kdeglobals_defaults);
    } else if kind == "qt"@ {
        lemma_read_back(before, "KDE"@, "widgetStyle"@, value, t, c.kdeglobals_defaults);
    } else if kind == "plasma"@ {
        lemma_read_back(before, "Theme"@, "name"@, value, t, c.plasmarc_defaults);
    } else {
        assert(kind == "accent"@);
        let h = strip_hashes(value);
        let r = parse_u8(h.subrange(0, 2), 16)->Some_0;
        let g = parse_u8(h.subrange(2, 4), 16)->Some_0;
        let b = parse_u8(h.subrange(4, 6), 16)->Some_0;
        let rgb = rgb_text(r, g, b);
        assert(hex_to_rgb_spec(value) == Ok::<Seq<char>, Seq<char>>(rgb));
        lemma_rgb_text_plain(r, g, b);
        lemma_read_back(before, "General"@, "AccentColor"@, rgb, t, None);
        law_color_roundtrip(r, g, b);
        assert(accent_of(c.kdeglobals) == hex_text(r, g, b));
        if hex_color_text(value) {
            lemma_hex_color_lower(value);
        }
    }
}


/// `t` lists the theme of kind `kind` named `name` at `path`, with the id
/// `kind:name`.
pub open spec fn saved_entry(t: InstalledTheme, kind: Seq<char>, path: Seq<char>, name: Seq<char>) -> bool {
    &&& t.kind@ == kind
    &&& t.path@ == path
    &&& t.name@ == name
    &&& t.id@ == kind + seq![':'] + name
}

/// A profile saved with `save_current_theme` shows in the list of custom
/// themes once its file is among the files of the custom directory: kind
/// `custom`, the saved path, named by the file's stem, with no preview,
/// palette or samples.
pub proof fn law_saved_profile_listed(home: Seq<char>, name: Seq<char>, paths: Seq<Seq<char>>, r: Seq<InstalledTheme>)
    requires
        trim(name).len() > 0,
        paths.contains(profile_path(home, trim(name))),
        custom_listing(paths, r),
    ensures
        exists|i: int|
            0 <= i < r.len() && saved_entry(
                #[trigger] r[i],
                "custom"@,
                profile_path(home, trim(name)),
                slug_chars(trim(name)),
            ) && r[i].preview is None && r[i].palette is None && r[i].samples is None,
{
    let path = profile_path(home, trim(name));
    let stem = slug_chars(trim(name));
    let found = choose|found: Seq<Found>|
        found.len() == paths.len() && (forall|i: int|
            0 <= i < paths.len() ==> (#[trigger] found[i]).path@ == paths[i] && found[i].preview is None
                && found[i].palette is None && found[i].samples is None) && listing(
            r,
            "custom"@,
            found,
            true,
            Some("json"@),
            false,
        );
    let q = choose|q: int| 0 <= q < paths.len() && paths[q] == path;
    assert(found[q].path@ == path);
    reveal_strlit(".json");
    reveal_strlit("json");
    lemma_slug_chars_plain(trim(name));
    let dir = join_path(home, ".local/share/linuxthemer/custom"@);
    assert(stem + ".json"@ =~= stem + seq!['.'] + "json"@);
    lemma_stem_and_extension(dir, stem, "json"@);
    assert(admitted(found, q, true, Some("json"@), false));
    lemma_listing_has(r, "custom"@, found, true, Some("json"@), false, q);
    let i = choose|i: int|
        0 <= i < r.len() && theme_of(#[trigger] r[i], "custom"@, entry_name(found[q], true), found[q]);
    assert(entry_name(found[q], true) == stem);
    assert(saved_entry(r[i], "custom"@, path, stem));
}

/// A global theme saved with `save_global_theme` shows in the list of global
/// themes once its directory is among the directories found, ahead of any
/// other directory of that name: kind `global`, the saved directory, named by
/// the slug of the name.
pub proof fn law_saved_global_listed(home: Seq<char>, name: Seq<char>, fs: Seq<Found>, q: int, r: Seq<InstalledTheme>)
    requires
        trim(name).len() > 0,
        0 <= q < fs.len(),
        fs[q].path@ == package_dir(home, slugify_spec(trim(name))),
        forall|j: int| 0 <= j < q ==> entry_name(#[trigger] fs[j], false) != slugify_spec(trim(name)),
        listing(r, "global"@, fs, false, None, true),
    ensures
        exists|i: int|
            0 <= i < r.len() && saved_entry(
                #[trigger] r[i],
                "global"@,
                package_dir(home, slugify_spec(trim(name))),
                slugify_spec(trim(name)),
            ),
{
    let slug = slugify_spec(trim(name));
    lemma_slugify_plain(trim(name));
    assert(slug != seq!['.'] && slug != seq!['.', '.']) by {
        assert(slug[0] != '.');
    }
    lemma_join_file_name(join_path(home, ".local/share/plasma/look-and-feel"@), slug);
    assert(entry_name(fs[q], false) == slug);
    assert(admitted(fs, q, false, None, true));
    lemma_listing_has(r, "global"@, fs, false, None, true, q);
}


/// `x` occurs in `t` as a contiguous block.
pub open spec fn contains_block(t: Seq<char>, x: Seq<char>) -> bool {
    exists|i: int| 0 <= i <= t.len() - x.len() && #[trigger] t.skip(i).take(x.len() as int) == x
}

proof fn lemma_block_at(pre: Seq<char>, x: Seq<char>, post: Seq<char>)
    ensures
        contains_block(pre + x + post, x),
{
    let t = pre + x + post;
    assert(t.skip(pre.len() as int).take(x.len() as int) =~= x);
}

/// Applying a saved global theme sets each component under its own group:
/// `contents/defaults` holds, for each component that is set, its group
/// header and key followed by that component's own value.
pub proof fn law_defaults_groups(s: GlobalThemeSpec)
    ensures
        s.colors@.len() > 0 ==> contains_block(
            defaults_text(s),
            "[kdeglobals][General]\nColorScheme="@ + s.colors@ + "\n\n"@,
        ),
        s.icons@.len() > 0 ==> contains_block(defaults_text(s), "[kdeglobals][Icons]\nTheme="@ + s.icons@ + "\n\n"@),
        s.widget_style@.len() > 0 ==> contains_block(
            defaults_text(s),
            "[kdeglobals][KDE]\nwidgetStyle="@ + s.widget_style@ + "\n\n"@,
        ),
        s.cursors@.len() > 0 ==> contains_block(
            defaults_text(s),
            "[kcminputrc][Mouse]\ncursorTheme="@ + s.cursors@ + "\n\n"@,
        ),
        s.plasma@.len() > 0 ==> contains_block(defaults_text(s), "[plasmarc][Theme]\nname="@ + s.plasma@ + "\n\n"@),
{
    let e0 = default_entry("[kdeglobals][General]\nColorScheme="@, s.colors@);
    let e1 = default_entry("[kdeglobals][Icons]\nTheme="@, s.icons@);
    let e2 = default_entry("[kdeglobals][KDE]\nwidgetStyle="@, s.widget_style@);
    let e3 = default_entry("[kcminputrc][Mouse]\ncursorTheme="@, s.cursors@);
    let e4 = default_entry("[plasmarc][Theme]\nname="@, s.plasma@);
    let t = defaults_text(s);
    assert(t == e0 + e1 + e2 + e3 + e4);
    if s.colors@.len() > 0 {
        lemma_block_at(Seq::empty(), e0, e1 + e2 + e3 + e4);
        assert(Seq::<char>::empty() + e0 + (e1 + e2 + e3 + e4) =~= t);
    }
    if s.icons@.len() > 0 {
        lemma_block_at(e0, e1, e2 + e3 + e4);
        assert(e0 + e1 + (e2 + e3 + e4) =~= t);
    }
    if s.widget_style@.len() > 0 {
        lemma_block_at(e0 + e1, e2, e3 + e4);
        assert(e0 + e1 + e2 + (e3 + e4) =~= t);
    }
    if s.cursors@.len() > 0 {
        lemma_block_at(e0 + e1 + e2, e3, e4);
        assert(e0 + e1 + e2 + e3 + e4 =~= t);
    }
    if s.plasma@.len() > 0 {
        lemma_block_at(e0 + e1 + e2 + e3, e4, Seq::empty());
        assert(e0 + e1 + e2 + e3 + e4 + Seq::<char>::empty() =~= t);
    }
}

/// The manifest of a saved global theme pairs each key with its own
/// component: `gtk`, `kvantum`, `widgetStyle`, `icons`, `cursors`, `colors`
/// and `plasma`, each present once.
pub proof fn law_manifest_pairs(s: GlobalThemeSpec)
    ensures
        manifest_keys().len() == manifest_values(s).len(),
        manifest_keys().no_duplicates(),
        manifest_keys().contains("gtk"@) && manifest_keys().contains("kvantum"@) && manifest_keys().contains(
            "widgetStyle"@,
        ) && manifest_keys().contains("icons"@) && manifest_keys().contains("cursors"@) && manifest_keys().contains(
            "colors"@,
        ) && manifest_keys().contains("plasma"@),
        forall|k: int|
            0 <= k < manifest_keys().len() ==> {
                let key = #[trigger] manifest_keys()[k];
                let v = manifest_values(s)[k];
                &&& key == "gtk"@ ==> v == Some(s.gtk@)
                &&& key == "kvantum"@ ==> v == Some(s.kvantum@)
                &&& key == "widgetStyle"@ ==> v == Some(s.widget_style@)
                &&& key == "icons"@ ==> v == Some(s.icons@)
                &&& key == "cursors"@ ==> v == Some(s.cursors@)
                &&& key == "colors"@ ==> v == Some(s.colors@)
                &&& key == "plasma"@ ==> v == Some(s.plasma@)
            },
{
    reveal_strlit("gtk");
    reveal_strlit("kvantum");
    reveal_strlit("widgetStyle");
    reveal_strlit("icons");
    reveal_strlit("cursors");
    reveal_strlit("colors");
    reveal_strlit("plasma");
    let ks = manifest_keys();
    assert(ks[0] == "gtk"@);
    assert(ks[1] == "kvantum"@);
    assert(ks[2] == "widgetStyle"@);
    assert(ks[3] == "icons"@);
    assert(ks[4] == "cursors"@);
    assert(ks[5] == "colors"@);
    assert(ks[6] == "plasma"@);
    assert("gtk"@ != "kvantum"@) by {
        assert("gtk"@.len() != "kvantum"@.len());
    }
    assert("gtk"@ != "widgetStyle"@) by {
        assert("gtk"@.len() != "widgetStyle"@.len());
    }
    assert("gtk"@ != "icons"@) by {
        assert("gtk"@.len() != "icons"@.len());
    }
    assert("gtk"@ != "cursors"@) by {
        assert("gtk"@.len() != "cursors"@.len());
    }
    assert("gtk"@ != "colors"@) by {
        assert("gtk"@.len() != "colors"@.len());
    }
    assert("gtk"@ != "plasma"@) by {
        assert("gtk"@.len() != "plasma"@.len());
    }
    assert("kvantum"@ != "widgetStyle"@) by {
        assert("kvantum"@.len() != "widgetStyle"@.len());
    }
    assert("kvantum"@ != "icons"@) by {
        assert("kvantum"@.len() != "icons"@.len());
    }
    assert("kvantum"@ != "cursors"@) by {
        assert("kvantum"@[0] != "cursors"@[0]);
    }
    assert("kvantum"@ != "colors"@) by {
        assert("kvantum"@.len() != "colors"@.len());
    }
    assert("kvantum"@ != "plasma"@) by {
        assert("kvantum"@.len() != "plasma"@.len());
    }
    assert("widgetStyle"@ != "icons"@) by {
        assert("widgetStyle"@.len() != "icons"@.len());
    }
    assert("widgetStyle"@ != "cursors"@) by {
        assert("widgetStyle"@.len() != "cursors"@.len());
    }
    assert("widgetStyle"@ != "colors"@) by {
        assert("widgetStyle"@.len() != "colors"@.len());
    }
    assert("widgetStyle"@ != "plasma"@) by {
        assert("widgetStyle"@.len() != "plasma"@.len());
    }
    assert("icons"@ != "cursors"@) by {
        assert("icons"@.len() != "cursors"@.len());
    }
    assert("icons"@ != "colors"@) by {
        assert("icons"@.len() != "colors"@.len());
    }
    assert("icons"@ != "plasma"@) by {
        assert("icons"@.len() != "plasma"@.len());
    }
    assert("cursors"@ != "colors"@) by {
        assert("cursors"@.len() != "colors"@.len());
    }
    assert("cursors"@ != "plasma"@) by {
        assert("cursors"@.len() != "plasma"@.len());
    }
    assert("colors"@ != "plasma"@) by {
        assert("colors"@[0] != "plasma"@[0]);
    }
    assert(ks.no_duplicates());
}

/// The snapshot of the current settings pairs each key with its own
/// setting: `lookAndFeel`, `colorScheme`, `widgetStyle` and `iconTheme` from
/// `kdeglobals` (`[KDE] LookAndFeelPackage`, `[General] ColorScheme`,
/// `[KDE] widgetStyle`, `[Icons] Theme`), `gtkTheme` and `cursorTheme` from
/// GTK 3's settings (`[Settings] gtk-theme-name`, `gtk-cursor-theme-name`),
/// each present once.
pub proof fn law_snapshot_pairs(kdeglobals: Option<String>, gtk3: Option<String>)
    ensures
        snapshot_keys().len() == snapshot_values(kdeglobals, gtk3).len(),
        snapshot_keys().no_duplicates(),
        snapshot_keys().contains("lookAndFeel"@) && snapshot_keys().contains("colorScheme"@)
            && snapshot_keys().contains("widgetStyle"@) && snapshot_keys().contains("iconTheme"@)
            && snapshot_keys().contains("gtkTheme"@) && snapshot_keys().contains("cursorTheme"@),
        forall|k: int|
            0 <= k < snapshot_keys().len() ==> {
                let key = #[trigger] snapshot_keys()[k];
                let v = snapshot_values(kdeglobals, gtk3)[k];
                &&& key == "lookAndFeel"@ ==> v == file_value(kdeglobals, "KDE"@, "LookAndFeelPackage"@)
                &&& key == "colorScheme"@ ==> v == file_value(kdeglobals, "General"@, "ColorScheme"@)
                &&& key == "widgetStyle"@ ==> v == file_value(kdeglobals, "KDE"@, "widgetStyle"@)
                &&& key == "iconTheme"@ ==> v == file_value(kdeglobals, "Icons"@, "Theme"@)
                &&& key == "gtkTheme"@ ==> v == file_value(gtk3, "Settings"@, "gtk-theme-name"@)
                &&& key == "cursorTheme"@ ==> v == file_value(gtk3, "Settings"@, "gtk-cursor-theme-name"@)
            },
{
    reveal_strlit("lookAndFeel");
    reveal_strlit("colorScheme");
    reveal_strlit("widgetStyle");
    reveal_strlit("iconTheme");
    reveal_strlit("gtkTheme");
    reveal_strlit("cursorTheme");
    let ks = snapshot_keys();
    assert(ks[0] == "lookAndFeel"@);
    assert(ks[1] == "colorScheme"@);
    assert(ks[2] == "widgetStyle"@);
    assert(ks[3] == "iconTheme"@);
    assert(ks[4] == "gtkTheme"@);
    assert(ks[5] == "cursorTheme"@);
    assert("lookAndFeel"@ != "colorScheme"@) by {
        assert("lookAndFeel"@[0] != "colorScheme"@[0]);
    }
    assert("lookAndFeel"@ != "widgetStyle"@) by {
        assert("lookAndFeel"@[0] != "widgetStyle"@[0]);
    }
    assert("lookAndFeel"@ != "iconTheme"@) by {
        assert("lookAndFeel"@.len() != "iconTheme"@.len());
    }
    assert("lookAndFeel"@ != "gtkTheme"@) by {
        assert("lookAndFeel"@.len() != "gtkTheme"@.len());
    }
    assert("lookAndFeel"@ != "cursorTheme"@) by {
        assert("lookAndFeel"@[0] != "cursorTheme"@[0]);
    }
    assert("colorScheme"@ != "widgetStyle"@) by {
        assert("colorScheme"@[0] != "widgetStyle"@[0]);
    }
    assert("colorScheme"@ != "iconTheme"@) by {
        assert("colorScheme"@.len() != "iconTheme"@.len());
    }
    assert("colorScheme"@ != "gtkTheme"@) by {
        assert("colorScheme"@.len() != "gtkTheme"@.len());
    }
    assert("colorScheme"@ != "cursorTheme"@) by {
        assert("colorScheme"@[1] != "cursorTheme"@[1]);
    }
    assert("widgetStyle"@ != "iconTheme"@) by {
        assert("widgetStyle"@.len() != "iconTheme"@.len());
    }
    assert("widgetStyle"@ != "gtkTheme"@) by {
        assert("widgetStyle"@.len() != "gtkTheme"@.len());
    }
    assert("widgetStyle"@ != "cursorTheme"@) by {
        assert("widgetStyle"@[0] != "cursorTheme"@[0]);
    }
    assert("iconTheme"@ != "gtkTheme"@) by {
        assert("iconTheme"@.len() != "gtkTheme"@.len());
    }
    assert("iconTheme"@ != "cursorTheme"@) by {
        assert("iconTheme"@.len() != "cursorTheme"@.len());
    }
    assert("gtkTheme"@ != "cursorTheme"@) by {
        assert("gtkTheme"@.len() != "cursorTheme"@.len());
    }
    assert(ks.no_duplicates());
}

} // verus!
