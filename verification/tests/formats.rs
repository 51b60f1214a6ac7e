use linux_themer::color::{hex_input_ok_exec, hex_to_rgb, rgb_to_hex};
use linux_themer::ini::{read_ini, read_ini_merged, set_ini_key};
use linux_themer::palette::{read_color_palette, read_deco_color, read_gtk_palette};
use linux_themer::slug::{slug_file_name, slugify};

#[test]
fn rgb_to_hex_formats_kde_triplets() {
    assert_eq!(rgb_to_hex("61,174,233"), Some("#3daee9".to_string()));
    assert_eq!(rgb_to_hex(" 0 , 15 ,255 "), Some("#000fff".to_string()));
    assert_eq!(rgb_to_hex("+1,2,3"), Some("#010203".to_string()));
}

#[test]
fn rgb_to_hex_rejects_other_shapes() {
    assert_eq!(rgb_to_hex("1,2"), None);
    assert_eq!(rgb_to_hex("1,2,3,4"), None);
    assert_eq!(rgb_to_hex("256,0,0"), None);
    assert_eq!(rgb_to_hex("a,b,c"), None);
    assert_eq!(rgb_to_hex(""), None);
}

#[test]
fn hex_to_rgb_parses_accent_colors() {
    assert_eq!(hex_to_rgb("#3daee9"), Ok("61,174,233".to_string()));
    assert_eq!(hex_to_rgb("3DAEE9"), Ok("61,174,233".to_string()));
    assert_eq!(hex_to_rgb("##000000"), Ok("0,0,0".to_string()));
}

#[test]
fn hex_to_rgb_errors() {
    assert_eq!(hex_to_rgb("#3dae"), Err("accent color must be #RRGGBB".to_string()));
    assert_eq!(hex_to_rgb(""), Err("accent color must be #RRGGBB".to_string()));
    assert_eq!(hex_to_rgb("#zz0000"), Err("invalid hex".to_string()));
    assert_eq!(hex_to_rgb("#00+f00"), Ok("0,15,0".to_string()));
}

#[test]
fn color_roundtrip_on_values() {
    for (r, g, b) in [(0u8, 0u8, 0u8), (61, 174, 233), (255, 255, 255), (1, 16, 128)] {
        let hex = rgb_to_hex(&format!("{r},{g},{b}")).unwrap();
        assert_eq!(hex_to_rgb(&hex), Ok(format!("{r},{g},{b}")));
    }
}

#[test]
fn read_ini_finds_keys_by_section() {
    let text = "top=0\n[KDE]\nwidgetStyle = Breeze \n[General]\r\nColorScheme=BreezeDark\nColorScheme=Other\n";
    assert_eq!(read_ini(text, "KDE", "widgetStyle"), Some("Breeze".to_string()));
    assert_eq!(read_ini(text, "General", "ColorScheme"), Some("BreezeDark".to_string()));
    assert_eq!(read_ini(text, "", "top"), Some("0".to_string()));
    assert_eq!(read_ini(text, "KDE", "ColorScheme"), None);
    assert_eq!(read_ini(text, "Icons", "Theme"), None);
}

#[test]
fn read_ini_merged_prefers_the_main_file() {
    let main = Some("[General]\nColorScheme=Main\n".to_string());
    let defaults = Some("[General]\nColorScheme=Defaults\n[Icons]\nTheme=breeze\n".to_string());
    let files = vec![main.clone(), defaults.clone()];
    assert_eq!(read_ini_merged(&files, "General", "ColorScheme"), Some("Main".to_string()));
    assert_eq!(read_ini_merged(&files, "Icons", "Theme"), Some("breeze".to_string()));
    assert_eq!(read_ini_merged(&vec![None, defaults], "General", "ColorScheme"), Some("Defaults".to_string()));
    assert_eq!(read_ini_merged(&vec![None, None], "General", "ColorScheme"), None);
}

#[test]
fn set_ini_key_replaces_an_existing_key() {
    let text = "[General]\nColorScheme=Old\n[KDE]\nwidgetStyle=Breeze\n";
    assert_eq!(
        set_ini_key(text, "General", "ColorScheme", "New"),
        "[General]\nColorScheme=New\n[KDE]\nwidgetStyle=Breeze\n"
    );
}

#[test]
fn set_ini_key_adds_a_key_at_the_end_of_its_section() {
    assert_eq!(set_ini_key("[S]\na=1\n[T]\nb=2\n", "S", "k", "v"), "[S]\na=1\nk=v\n[T]\nb=2\n");
    assert_eq!(set_ini_key("[S]\na=1", "S", "k", "v"), "[S]\na=1\nk=v\n");
}

#[test]
fn set_ini_key_adds_a_missing_section() {
    assert_eq!(set_ini_key("[A]\nx=1\n", "S", "k", "v"), "[A]\nx=1\n[S]\nk=v\n");
    assert_eq!(set_ini_key("", "Settings", "gtk-theme-name", "Adwaita"), "[Settings]\ngtk-theme-name=Adwaita\n");
}

#[test]
fn set_then_read_gives_the_value() {
    let texts = ["", "[General]\nAccentColor=1,2,3\n", "x=1\n[Other]\nAccentColor=9\n[General]\nName=a\n"];
    for t in texts {
        let written = set_ini_key(t, "General", "AccentColor", " 61,174,233 ");
        assert_eq!(read_ini(&written, "General", "AccentColor"), Some("61,174,233".to_string()));
    }
}

#[test]
fn slugify_makes_directory_names() {
    assert_eq!(slugify("My Cool Theme!!"), "my-cool-theme");
    assert_eq!(slugify("--A__b--"), "a-b");
    assert_eq!(slugify("   "), "custom-theme");
    assert_eq!(slugify("Ünïcode Name"), "Ünïcode-name");
    assert_eq!(slugify("Dark 2"), "dark-2");
}

#[test]
fn slugify_is_idempotent_on_values() {
    for n in ["My Cool Theme!!", "a", "  x  y ", "---"] {
        let s = slugify(n);
        assert_eq!(slugify(&s), s);
    }
}

#[test]
fn slug_file_name_maps_each_character() {
    assert_eq!(slug_file_name("My Theme"), "my-theme");
    assert_eq!(slug_file_name("a b!"), "a-b-");
}

#[test]
fn color_scheme_palette_in_semantic_order() {
    let text = "[Colors:Window]\nBackgroundNormal=239,240,241\nForegroundNormal=35,38,39\n\
                [Colors:View]\nBackgroundNormal=252,252,252\nForegroundNormal=35,38,39\n\
                [Colors:Button]\nBackgroundNormal=239,240,241\nBackgroundNormal=0,0,0\n\
                [Colors:Selection]\nBackgroundNormal=61,174,233\nForegroundNormal=bad\n";
    assert_eq!(
        read_color_palette(text),
        Some(vec![
            "#eff0f1".to_string(),
            "#fcfcfc".to_string(),
            "#eff0f1".to_string(),
            "#3daee9".to_string(),
            "#232627".to_string(),
            "#232627".to_string(),
        ])
    );
    assert_eq!(read_color_palette("[General]\nName=x\n"), None);
}

#[test]
fn gtk_palette_from_define_color() {
    let css = "@define-color theme_bg_color #EFF0F1;\n  @define-color fg white;\n\
               @define-color shade rgba(1,2,3,0.5);\n@define-color dark black;\n\
               @define-color again #eff0f1;\nbody { color: red; }\n";
    assert_eq!(
        read_gtk_palette(css),
        Some(vec!["#eff0f1".to_string(), "#ffffff".to_string(), "#000000".to_string()])
    );
    assert_eq!(read_gtk_palette("window { }\n"), None);
}

#[test]
fn gtk_palette_stops_at_six() {
    let mut css = String::new();
    for i in 0..9 {
        css.push_str(&format!("@define-color c{i} #00000{i};\n"));
    }
    let p = read_gtk_palette(&css).unwrap();
    assert_eq!(p.len(), 6);
    assert_eq!(p[5], "#000005");
}

#[test]
fn deco_color_from_color_scheme_background() {
    let svg = "<style>.ColorScheme-Text { color:#fcfcfc; } .ColorScheme-Background { color:#31363B; }</style>";
    assert_eq!(read_deco_color(svg), Some(vec!["#31363b".to_string()]));
    assert_eq!(read_deco_color("<svg/>"), None);
    assert_eq!(read_deco_color(".ColorScheme-Background { fill:#31363b; }"), None);
}

#[test]
fn set_keeps_other_keys() {
    let text = "top=1\n[General]\nColorScheme=Breeze\nAccentColor=1,2,3\n[KDE]\nwidgetStyle=Fusion\n[Icons]\nTheme=breeze\n";
    let written = set_ini_key(text, "General", "AccentColor", "61,174,233");
    for (s, k) in [("", "top"), ("General", "ColorScheme"), ("KDE", "widgetStyle"), ("Icons", "Theme"), ("KDE", "AccentColor"), ("Icons", "Missing")] {
        assert_eq!(read_ini(&written, s, k), read_ini(text, s, k));
    }
    let added = set_ini_key(text, "Mouse", "cursorTheme", "Bibata");
    assert_eq!(read_ini(&added, "Mouse", "cursorTheme"), Some("Bibata".to_string()));
    assert_eq!(read_ini(&added, "Icons", "Theme"), Some("breeze".to_string()));
}

#[test]
fn slugs_are_well_formed() {
    for n in ["  Hello,  World!! ", "--x--", "ÄÖÜ über", "a_b-c d"] {
        let s = slugify(n);
        assert!(!s.is_empty());
        assert!(!s.starts_with('-') && !s.ends_with('-'));
        assert!(!s.contains("--"));
        assert_eq!(s.to_ascii_lowercase(), s);
    }
}

#[test]
fn set_ini_key_twice_gives_the_text_of_once() {
    for (t, s, k, v) in [
        ("[S]\na=1\n[T]\nb=2\n", "S", "k", "v"),
        ("[A]\nx=1", "S", "k", "v"),
        ("", "", "k", "v"),
        ("[General]\nColorScheme=Old\n\n", "General", "ColorScheme", "New"),
        ("[S]\nk=old\r\r\nx=1\n", "S", "k", "v"),
    ] {
        let once = set_ini_key(t, s, k, v);
        assert_eq!(set_ini_key(&once, s, k, v), once);
    }
}

#[test]
fn hex_input_slicing_check() {
    assert!(hex_input_ok_exec("#3daee9"));
    assert!(hex_input_ok_exec("#fff"));
    // the first pair is not hex, so byte 4 is never sliced
    assert!(hex_input_ok_exec("zza\u{e9}b"));
    assert_eq!(hex_to_rgb("zza\u{e9}b"), Err("invalid hex".to_string()));
    // byte 2 inside a character
    assert!(!hex_input_ok_exec("a\u{e9}bcd"));
    // the first pair parses, byte 4 inside a character
    assert!(!hex_input_ok_exec("12a\u{e9}b"));
}
