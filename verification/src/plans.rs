//! What applying a component, launching a theme creator and removing a
//! theme do to the system, decided from plain values: the INI keys to set
//! in which files, the program to start, and what its outcome is reported as.
use vstd::prelude::*;
use crate::color::{hex_input_ok, hex_to_rgb, hex_to_rgb_spec};
use crate::palette::string_views;
use crate::paths::join;
use crate::text::{chars_of, concat_chars, eq_chars, join_path, owned, string_of};

verus! {

/// One key to set in one INI file, every other line of the file kept.
pub struct IniEdit {
    pub file: String,
    pub section: String,
    pub key: String,
    pub value: String,
}

/// A program to start, with its arguments.
pub struct Spawn {
    pub program: String,
    pub args: Vec<String>,
}

/// Applying one component: the edits, in order, then a program that makes
/// the running desktop pick the change up, where the component has one.
pub struct ComponentPlan {
    pub edits: Vec<IniEdit>,
    pub reload: Option<Spawn>,
}

pub open spec fn edit_view(e: IniEdit) -> (Seq<char>, Seq<char>, Seq<char>, Seq<char>) {
    (e.file@, e.section@, e.key@, e.value@)
}

pub open spec fn spawn_view(s: Spawn) -> (Seq<char>, Seq<Seq<char>>) {
    (s.program@, string_views(s.args@))
}

pub open spec fn plan_view(p: ComponentPlan) -> (
    Seq<(Seq<char>, Seq<char>, Seq<char>, Seq<char>)>,
    Option<(Seq<char>, Seq<Seq<char>>)>,
) {
    (
        p.edits@.map_values(|e: IniEdit| edit_view(e)),
        match p.reload {
            Some(s) => Some(spawn_view(s)),
            None => None,
        },
    )
}

pub open spec fn plan_result(r: Result<ComponentPlan, String>) -> Result<
    (Seq<(Seq<char>, Seq<char>, Seq<char>, Seq<char>)>, Option<(Seq<char>, Seq<Seq<char>>)>),
    Seq<char>,
> {
    match r {
        Ok(p) => Ok(plan_view(p)),
        Err(e) => Err(e@),
    }
}

pub open spec fn spawn_result(r: Result<Spawn, String>) -> Result<(Seq<char>, Seq<Seq<char>>), Seq<char>> {
    match r {
        Ok(s) => Ok(spawn_view(s)),
        Err(e) => Err(e@),
    }
}

/// What applying component `kind` with `value` does, `home` being the
/// user's home directory:
/// - gtk: `gtk-theme-name` in `[Settings]` of the GTK 3 and GTK 4 settings;
/// - icons, qt, colors: `Theme` in `[Icons]`, `widgetStyle` in `[KDE]`,
///   `ColorScheme` in `[General]` of `kdeglobals`;
/// - cursors: `cursorTheme` in `[Mouse]` of `kcminputrc`;
/// - plasma: `name` in `[Theme]` of `plasmarc`;
/// - accent: `AccentColor` in `[General]` of `kdeglobals`, as `r,g,b`;
/// cursors, colors and plasma then start the matching `plasma-apply-*`
/// tool with the value. Any other kind is refused.
pub open spec fn component_plan(home: Seq<char>, kind: Seq<char>, value: Seq<char>) -> Result<
    (Seq<(Seq<char>, Seq<char>, Seq<char>, Seq<char>)>, Option<(Seq<char>, Seq<Seq<char>>)>),
    Seq<char>,
> {
    let kdeglobals = join_path(home, ".config/kdeglobals"@);
    let config = join_path(home, ".config"@);
    if kind == "gtk"@ {
        Ok(
            (
                seq![
                    (join_path(config, "gtk-3.0/settings.ini"@), "Settings"@, "gtk-theme-name"@, value),
                    (join_path(config, "gtk-4.0/settings.ini"@), "Settings"@, "gtk-theme-name"@, value),
                ],
                None,
            ),
        )
    } else if kind == "icons"@ {
        Ok((seq![(kdeglobals, "Icons"@, "Theme"@, value)], None))
    } else if kind == "cursors"@ {
        Ok(
            (
                seq![(join_path(home, ".config/kcminputrc"@), "Mouse"@, "cursorTheme"@, value)],
                Some(("plasma-apply-cursortheme"@, seq![value])),
            ),
        )
    } else if kind == "colors"@ {
        Ok(
            (
                seq![(kdeglobals, "General"@, "ColorScheme"@, value)],
                Some(("plasma-apply-colorscheme"@, seq![value])),
            ),
        )
    } else if kind == "qt"@ {
        Ok((seq![(kdeglobals, "KDE"@, "widgetStyle"@, value)], None))
    } else if kind == "plasma"@ {
        Ok(
            (
                seq![(join_path(home, ".config/plasmarc"@), "Theme"@, "name"@, value)],
                Some(("plasma-apply-desktoptheme"@, seq![value])),
            ),
        )
    } else if kind == "accent"@ {
        match hex_to_rgb_spec(value) {
            Ok(rgb) => Ok((seq![(kdeglobals, "General"@, "AccentColor"@, rgb)], None)),
            Err(e) => Err(e),
        }
    } else {
        Err("unknown component: "@ + kind)
    }
}

/// `a` followed by `b`.
pub fn cat(a: &str, b: &str) -> (r: String)
    ensures
        r@ == a@ + b@,
{
    string_of(&concat_chars(&chars_of(a), &chars_of(b)))
}

fn is(s: &str, lit: &str) -> (r: bool)
    ensures
        r == (s@ == lit@),
{
    eq_chars(&chars_of(s), &chars_of(lit))
}

fn edit(file: String, section: &str, key: &str, value: &str) -> (r: IniEdit)
    ensures
        edit_view(r) == (file@, section@, key@, value@),
{
    IniEdit { file, section: owned(section), key: owned(key), value: owned(value) }
}

fn spawn_with(program: &str, args: &[&str]) -> (r: Spawn)
    ensures
        spawn_view(r) == (program@, args@.map_values(|a: &str| a@)),
{
    let mut v: Vec<String> = Vec::new();
    let mut i: usize = 0;
    while i < args.len()
        invariant
            i <= args.len(),
            string_views(v@) == args@.map_values(|a: &str| a@).take(i as int),
        decreases args.len() - i,
    {
        let ghost before = string_views(v@);
        v.push(owned(args[i]));
        assert(string_views(v@) =~= before.push(args@[i as int]@));
        assert(args@.map_values(|a: &str| a@).take(i + 1) =~= args@.map_values(|a: &str| a@).take(
            i as int,
        ).push(args@[i as int]@));
        i += 1;
    }
    assert(args@.map_values(|a: &str| a@).take(args.len() as int) =~= args@.map_values(|a: &str| a@));
    Spawn { program: owned(program), args: v }
}

fn one_edit(e: IniEdit, reload: Option<Spawn>) -> (r: ComponentPlan)
    ensures
        plan_view(r) == (seq![edit_view(e)], match reload {
            Some(s) => Some(spawn_view(s)),
            None => None::<(Seq<char>, Seq<Seq<char>>)>,
        }),
{
    let mut edits: Vec<IniEdit> = Vec::new();
    edits.push(e);
    let r = ComponentPlan { edits, reload };
    assert(r.edits@.map_values(|e: IniEdit| edit_view(e)) =~= seq![edit_view(e)]);
    r
}

/// What applying component `kind` with `value` writes and starts (see
/// `component_plan`); the INI edits are made with `set_ini_key`.
pub fn apply_component(home: &str, kind: &str, value: &str) -> (r: Result<ComponentPlan, String>)
    requires
        kind@ == "accent"@ ==> hex_input_ok(value@),
    ensures
        plan_result(r) == component_plan(home@, kind@, value@),
{
    proof {
        reveal_strlit("gtk");
        reveal_strlit("icons");
        reveal_strlit("cursors");
        reveal_strlit("colors");
        reveal_strlit("qt");
        reveal_strlit("plasma");
        reveal_strlit("accent");
    }
    let kdeglobals = join(home, ".config/kdeglobals");
    if is(kind, "gtk") {
        let config = join(home, ".config");
        let mut edits: Vec<IniEdit> = Vec::new();
        edits.push(edit(join(config.as_str(), "gtk-3.0/settings.ini"), "Settings", "gtk-theme-name", value));
        edits.push(edit(join(config.as_str(), "gtk-4.0/settings.ini"), "Settings", "gtk-theme-name", value));
        let r = ComponentPlan { edits, reload: None };
        assert(plan_view(r).0 =~= component_plan(home@, kind@, value@)->Ok_0.0);
        Ok(r)
    } else if is(kind, "icons") {
        let r = one_edit(edit(kdeglobals, "Icons", "Theme", value), None);
        assert(plan_view(r) == component_plan(home@, kind@, value@)->Ok_0);
        Ok(r)
    } else if is(kind, "cursors") {
        let s = spawn_with("plasma-apply-cursortheme", &[value]);
        assert(seq![value].map_values(|a: &str| a@) =~= seq![value@]);
        let r = one_edit(edit(join(home, ".config/kcminputrc"), "Mouse", "cursorTheme", value), Some(s));
        assert(plan_view(r) == component_plan(home@, kind@, value@)->Ok_0);
        Ok(r)
    } else if is(kind, "colors") {
        let s = spawn_with("plasma-apply-colorscheme", &[value]);
        assert(seq![value].map_values(|a: &str| a@) =~= seq![value@]);
        let r = one_edit(edit(kdeglobals, "General", "ColorScheme", value), Some(s));
        assert(plan_view(r) == component_plan(home@, kind@, value@)->Ok_0);
        Ok(r)
    } else if is(kind, "qt") {
        let r = one_edit(edit(kdeglobals, "KDE", "widgetStyle", value), None);
        assert(plan_view(r) == component_plan(home@, kind@, value@)->Ok_0);
        Ok(r)
    } else if is(kind, "plasma") {
        let s = spawn_with("plasma-apply-desktoptheme", &[value]);
        assert(seq![value].map_values(|a: &str| a@) =~= seq![value@]);
        let r = one_edit(edit(join(home, ".config/plasmarc"), "Theme", "name", value), Some(s));
        assert(plan_view(r) == component_plan(home@, kind@, value@)->Ok_0);
        Ok(r)
    } else if is(kind, "accent") {
        match hex_to_rgb(value) {
            Ok(rgb) => Ok(one_edit(edit(kdeglobals, "General", "AccentColor", rgb.as_str()), None)),
            Err(e) => Err(e),
        }
    } else {
        Err(cat("unknown component: ", kind))
    }
}

/// The theme creator for `kind`: Oomox for GTK and icon themes, the
/// matching System Settings module for plasma, colors and cursors; any other
/// kind is refused.
pub open spec fn studio_spec(kind: Seq<char>) -> Result<(Seq<char>, Seq<Seq<char>>), Seq<char>> {
    if kind == "gtk"@ || kind == "icons"@ {
        Ok(("oomox-gui"@, Seq::empty()))
    } else if kind == "plasma"@ {
        Ok(("systemsettings"@, seq!["kcm_lookandfeel"@]))
    } else if kind == "colors"@ {
        Ok(("systemsettings"@, seq!["kcm_colors"@]))
    } else if kind == "cursors"@ {
        Ok(("systemsettings"@, seq!["kcm_cursortheme"@]))
    } else {
        Err("unknown studio kind: "@ + kind)
    }
}

/// The program that creates or edits themes of `kind` (see `studio_spec`).
pub fn launch_studio(kind: &str) -> (r: Result<Spawn, String>)
    ensures
        spawn_result(r) == studio_spec(kind@),
{
    proof {
        reveal_strlit("gtk");
        reveal_strlit("icons");
        reveal_strlit("plasma");
        reveal_strlit("colors");
        reveal_strlit("cursors");
    }
    let none: [&str; 0] = [];
    let r = if is(kind, "gtk") || is(kind, "icons") {
        let s = spawn_with("oomox-gui", &none);
        assert(none@.map_values(|a: &str| a@) =~= Seq::<Seq<char>>::empty());
        assert(spawn_view(s) == studio_spec(kind@)->Ok_0);
        s
    } else if is(kind, "plasma") {
        let s = spawn_with("systemsettings", &["kcm_lookandfeel"]);
        assert(seq!["kcm_lookandfeel"].map_values(|a: &str| a@) =~= seq!["kcm_lookandfeel"@]);
        assert(spawn_view(s) == studio_spec(kind@)->Ok_0);
        s
    } else if is(kind, "colors") {
        let s = spawn_with("systemsettings", &["kcm_colors"]);
        assert(seq!["kcm_colors"].map_values(|a: &str| a@) =~= seq!["kcm_colors"@]);
        assert(spawn_view(s) == studio_spec(kind@)->Ok_0);
        s
    } else if is(kind, "cursors") {
        let s = spawn_with("systemsettings", &["kcm_cursortheme"]);
        assert(seq!["kcm_cursortheme"].map_values(|a: &str| a@) =~= seq!["kcm_cursortheme"@]);
        assert(spawn_view(s) == studio_spec(kind@)->Ok_0);
        s
    } else {
        return Err(cat("unknown studio kind: ", kind));
    };
    Ok(r)
}

/// What starting `program` is reported as: `launched <program>`, or, when
/// it could not be started for `reason`, `couldn't launch <program>: <reason>`.
pub fn launch_report(program: &str, failure: Option<String>) -> (r: Result<String, String>)
    ensures
        failure is None ==> (r matches Ok(m) && m@ == "launched "@ + program@),
        failure matches Some(e) ==> (r matches Err(m) && m@ == "couldn't launch "@ + program@ + ": "@
            + e@),
{
    match failure {
        None => Ok(cat("launched ", program)),
        Some(e) => {
            let head = cat("couldn't launch ", program);
            let head = cat(head.as_str(), ": ");
            Err(cat(head.as_str(), e.as_str()))
        },
    }
}

// ---------------------------------------------------------------- removal

/// `Path::starts_with`: `base` is a whole-component prefix of `p`.
pub uninterp spec fn path_starts_with(p: Seq<char>, base: Seq<char>) -> bool;

/// `Path::starts_with`. Its result is named `path_starts_with`; how `Path`
/// splits and normalizes components is not written out.
#[verifier::external_body]
fn starts_with_path(p: &str, base: &str) -> (r: bool)
    ensures
        r == path_starts_with(p@, base@),
{
    std::path::Path::new(p).starts_with(base)
}

/// How a theme is removed: a path under the home directory is deleted
/// directly; any other goes through `pkexec rm -rf` so that the user is asked
/// for authorization.
pub enum Removal {
    Direct,
    Elevated(Spawn),
}

/// How the theme at `path` is removed, `home` being the home directory.
pub fn removal_plan(path: &str, home: &str) -> (r: Removal)
    ensures
        path_starts_with(path@, home@) ==> r is Direct,
        !path_starts_with(path@, home@) ==> (r matches Removal::Elevated(s) && spawn_view(s) == (
            "pkexec"@,
            seq!["rm"@, "-rf"@, path@],
        )),
{
    if starts_with_path(path, home) {
        Removal::Direct
    } else {
        let s = spawn_with("pkexec", &["rm", "-rf", path]);
        assert(seq!["rm", "-rf", path].map_values(|a: &str| a@) =~= seq!["rm"@, "-rf"@, path@]);
        Removal::Elevated(s)
    }
}

/// What a direct removal deletes.
pub enum DirectRemoval {
    Directory,
    File,
}

/// A direct removal deletes a directory tree or a file; a path that is
/// neither is reported as missing.
pub fn direct_removal(is_dir: bool, is_file: bool) -> (r: Result<DirectRemoval, String>)
    ensures
        is_dir ==> r matches Ok(DirectRemoval::Directory),
        !is_dir && is_file ==> r matches Ok(DirectRemoval::File),
        !is_dir && !is_file ==> (r matches Err(m) && m@ == "path does not exist"@),
{
    if is_dir {
        Ok(DirectRemoval::Directory)
    } else if is_file {
        Ok(DirectRemoval::File)
    } else {
        Err(owned("path does not exist"))
    }
}

/// What an elevated removal is reported as: `pkexec unavailable: <reason>`
/// when it could not be started, `removal failed (pkexec exited <status>)`
/// when it ended without success, else success.
pub fn elevated_report(failure: Option<String>, success: bool, status: &str) -> (r: Result<(), String>)
    ensures
        failure matches Some(e) ==> (r matches Err(m) && m@ == "pkexec unavailable: "@ + e@),
        failure is None && !success ==> (r matches Err(m) && m@ == "removal failed (pkexec exited "@
            + status@ + ")"@),
        failure is None && success ==> r is Ok,
{
    match failure {
        Some(e) => Err(cat("pkexec unavailable: ", e.as_str())),
        None => if success {
            Ok(())
        } else {
            let head = cat("removal failed (pkexec exited ", status);
            Err(cat(head.as_str(), ")"))
        },
    }
}

} // verus!
