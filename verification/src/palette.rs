//! Representative colors of a theme, read from its files: a KDE `.colors`
//! scheme, a GTK `gtk.css`, or an Aurorae `decoration.svg`.
use vstd::prelude::*;
use crate::color::{byte_len, rgb_to_hex, rgb_to_hex_spec};
use crate::ini::{ini_scan, ini_value, section_of};
use crate::text::{
    ascii_lower_chars, ascii_lower_str, chars_of, eq_chars, find_char, find_char_exec, has_prefix,
    lines, lines_chars, matches_at, nonempty_parts_exec, second_piece, second_piece_exec,
    slice_chars, split_once, split_once_chars, split_ws_chars, string_of, strip_prefixes,
    strip_prefixes_exec, strip_suffix_chars, strip_suffix_chars_exec, trim, trim_chars, views,
    ws_tokens,
};

verus! {

// ---------------------------------------------------------------- KDE color schemes

/// The first valid `r,g,b` color given to `key` in `section`, as `#rrggbb`.
pub open spec fn color_scan(ls: Seq<Seq<char>>, cur: Seq<char>, section: Seq<char>, key: Seq<char>) -> Option<
    Seq<char>,
>
    decreases ls.len(),
{
    if ls.len() == 0 {
        None
    } else {
        let t = trim(ls[0]);
        match section_of(t) {
            Some(name) => color_scan(ls.drop_first(), name, section, key),
            None => match split_once(t, '=') {
                Some(kv) => if cur == section && trim(kv.0) == key && rgb_to_hex_spec(trim(kv.1)) is Some {
                    rgb_to_hex_spec(trim(kv.1))
                } else {
                    color_scan(ls.drop_first(), cur, section, key)
                },
                None => color_scan(ls.drop_first(), cur, section, key),
            },
        }
    }
}

/// The values present, in order.
pub open spec fn present(s: Seq<Option<Seq<char>>>) -> Seq<Seq<char>>
    decreases s.len(),
{
    if s.len() == 0 {
        Seq::empty()
    } else {
        match s.last() {
            Some(v) => present(s.drop_last()).push(v),
            None => present(s.drop_last()),
        }
    }
}

pub open spec fn scheme_color(text: Seq<char>, section: Seq<char>, key: Seq<char>) -> Option<Seq<char>> {
    color_scan(lines(text), Seq::empty(), section, key)
}

/// The colors of a scheme in KDE's mock-window order: window, view, button
/// and selection backgrounds, then window and view foregrounds.
pub open spec fn scheme_slots(text: Seq<char>) -> Seq<Option<Seq<char>>> {
    seq![
        scheme_color(text, "Colors:Window"@, "BackgroundNormal"@),
        scheme_color(text, "Colors:View"@, "BackgroundNormal"@),
        scheme_color(text, "Colors:Button"@, "BackgroundNormal"@),
        scheme_color(text, "Colors:Selection"@, "BackgroundNormal"@),
        scheme_color(text, "Colors:Window"@, "ForegroundNormal"@),
        scheme_color(text, "Colors:View"@, "ForegroundNormal"@),
    ]
}

pub open spec fn nonempty_list(s: Seq<Seq<char>>) -> Option<Seq<Seq<char>>> {
    if s.len() == 0 {
        None
    } else {
        Some(s)
    }
}

/// What `read_color_palette` returns.
pub open spec fn color_palette_spec(text: Seq<char>) -> Option<Seq<Seq<char>>> {
    nonempty_list(present(scheme_slots(text)))
}

/// The character views of a list of strings.
pub open spec fn string_views(v: Seq<String>) -> Seq<Seq<char>> {
    v.map_values(|s: String| s@)
}

/// An optional list of strings, viewed.
pub open spec fn opt_views(r: Option<Vec<String>>) -> Option<Seq<Seq<char>>> {
    match r {
        Some(v) => Some(string_views(v@)),
        None => None,
    }
}

fn scheme_color_exec(ls: &Vec<Vec<char>>, section: &str, key: &str) -> (r: Option<String>)
    ensures
        r matches Some(v) ==> color_scan(views(ls@), Seq::empty(), section@, key@) == Some(v@),
        r is None ==> color_scan(views(ls@), Seq::empty(), section@, key@) is None,
{
    let sec = chars_of(section);
    let k = chars_of(key);
    let ghost all = views(ls@);
    let mut cur: Vec<char> = Vec::new();
    let mut i: usize = 0;
    assert(all.skip(0) =~= all);
    while i < ls.len()
        invariant
            i <= ls.len(),
            all == views(ls@),
            color_scan(all, Seq::empty(), sec@, k@) == color_scan(all.skip(i as int), cur@, sec@, k@),
            sec@ == section@,
            k@ == key@,
        decreases ls.len() - i,
    {
        let ghost rest = all.skip(i as int);
        assert(rest[0] == ls@[i as int]@);
        assert(rest.drop_first() =~= all.skip(i + 1));
        let t = trim_chars(&ls[i]);
        let n = t.len();
        if n > 0 && t[0] == '[' && t[n - 1] == ']' {
            cur = slice_chars(&t, 1, n - 1);
        } else {
            match split_once_chars(&t, '=') {
                Some(kv) => {
                    if eq_chars(&cur, &sec) && eq_chars(&trim_chars(&kv.0), &k) {
                        let v = string_of(&trim_chars(&kv.1));
                        match rgb_to_hex(v.as_str()) {
                            Some(h) => {
                                return Some(h);
                            },
                            None => {},
                        }
                    }
                },
                None => {},
            }
        }
        i += 1;
    }
    None
}

/// Colors of a KDE `.colors` scheme (the file's content) for a mock window.
pub fn read_color_palette(text: &str) -> (r: Option<Vec<String>>)
    ensures
        opt_views(r) == color_palette_spec(text@),
{
    let v = chars_of(text);
    let ls = lines_chars(&v);
    let ghost slots = scheme_slots(text@);
    let mut found: Vec<Option<String>> = Vec::new();
    found.push(scheme_color_exec(&ls, "Colors:Window", "BackgroundNormal"));
    found.push(scheme_color_exec(&ls, "Colors:View", "BackgroundNormal"));
    found.push(scheme_color_exec(&ls, "Colors:Button", "BackgroundNormal"));
    found.push(scheme_color_exec(&ls, "Colors:Selection", "BackgroundNormal"));
    found.push(scheme_color_exec(&ls, "Colors:Window", "ForegroundNormal"));
    found.push(scheme_color_exec(&ls, "Colors:View", "ForegroundNormal"));
    assert(found@.len() == 6);
    let mut out: Vec<String> = Vec::new();
    let mut i: usize = 0;
    while i < found.len()
        invariant
            i <= found.len() == 6,
            slots == scheme_slots(text@),
            forall|j: int| 0 <= j < 6 ==> opt_view(#[trigger] found@[j]) == slots[j],
            string_views(out@) == present(slots.take(i as int)),
        decreases found.len() - i,
    {
        assert(slots.take(i + 1).drop_last() =~= slots.take(i as int));
        assert(slots.take(i + 1).last() == slots[i as int]);
        match &found[i] {
            Some(c) => {
                out.push(c.clone());
                assert(string_views(out@) =~= present(slots.take(i + 1)));
            },
            None => {},
        }
        i += 1;
    }
    assert(slots.take(6) =~= slots);
    if out.len() == 0 {
        None
    } else {
        Some(out)
    }
}

pub open spec fn opt_view(o: Option<String>) -> Option<Seq<char>> {
    match o {
        Some(s) => Some(s@),
        None => None,
    }
}

// ---------------------------------------------------------------- GTK css

/// The color a `@define-color name value;` line gives, normalized: a
/// `#` and six more bytes in lowercase, or `white` / `black` as hex.
pub open spec fn gtk_color(t: Seq<char>) -> Option<Seq<char>> {
    let rest = strip_prefixes(t, "@define-color"@);
    let toks = ws_tokens(rest);
    let value = strip_suffix_chars(if toks.len() > 1 { toks[1] } else { Seq::empty() }, ';');
    let v = ascii_lower_str(value);
    if v.len() > 0 && v[0] == '#' && byte_len(v) == 7 {
        Some(v)
    } else if v == "white"@ {
        Some("#ffffff"@)
    } else if v == "black"@ {
        Some("#000000"@)
    } else {
        None
    }
}

/// Colors collected from the remaining lines, at most six, without repeats.
pub open spec fn gtk_scan(ls: Seq<Seq<char>>, acc: Seq<Seq<char>>) -> Seq<Seq<char>>
    decreases ls.len(),
{
    if ls.len() == 0 || acc.len() >= 6 {
        acc
    } else {
        let t = trim(ls[0]);
        let next = if has_prefix(t, "@define-color"@) {
            match gtk_color(t) {
                Some(h) => if acc.contains(h) {
                    acc
                } else {
                    acc.push(h)
                },
                None => acc,
            }
        } else {
            acc
        };
        gtk_scan(ls.drop_first(), next)
    }
}

/// What `read_gtk_palette` returns.
pub open spec fn gtk_palette_spec(text: Seq<char>) -> Option<Seq<Seq<char>>> {
    nonempty_list(gtk_scan(lines(text), Seq::empty()))
}

fn gtk_color_exec(t: &Vec<char>) -> (r: Option<Vec<char>>)
    ensures
        r matches Some(h) ==> gtk_color(t@) == Some(h@),
        r is None ==> gtk_color(t@) is None,
{
    let prefix = chars_of("@define-color");
    proof {
        reveal_strlit("@define-color");
    }
    let k = strip_prefixes_exec(t, &prefix);
    let rest = slice_chars(t, k, t.len());
    assert(rest@ =~= t@.skip(k as int));
    let toks = nonempty_parts_exec(&split_ws_chars(&rest));
    let second: Vec<char> = if toks.len() > 1 {
        toks[1].clone()
    } else {
        Vec::new()
    };
    assert(views(toks@) == ws_tokens(rest@));
    assert(toks.len() > 1 ==> views(toks@)[1] == toks@[1]@);
    assert(second@ =~= (if ws_tokens(rest@).len() > 1 {
        ws_tokens(rest@)[1]
    } else {
        Seq::empty()
    }));
    let value = strip_suffix_chars_exec(&second, ';');
    let v = ascii_lower_chars(&value);
    if v.len() > 0 && v[0] == '#' && byte_len_is7(&v) {
        return Some(v);
    }
    let white = chars_of("white");
    let black = chars_of("black");
    if eq_chars(&v, &white) {
        Some(chars_of("#ffffff"))
    } else if eq_chars(&v, &black) {
        Some(chars_of("#000000"))
    } else {
        None
    }
}

fn byte_len_is7(v: &Vec<char>) -> (r: bool)
    ensures
        r == (byte_len(v@) == 7),
{
    let mut acc: usize = 0;
    let mut i: usize = 0;
    while i < v.len()
        invariant
            i <= v.len(),
            acc == byte_len(v@.take(i as int)),
            acc <= 7,
        decreases v.len() - i,
    {
        assert(v@.take(i + 1).drop_last() =~= v@.take(i as int));
        let c = v[i];
        let u = c as u32;
        let sz: usize = if u < 0x80 {
            1
        } else if u < 0x800 {
            2
        } else if u < 0x10000 {
            3
        } else {
            4
        };
        acc = acc + sz;
        if acc > 7 {
            proof {
                crate::color::lemma_byte_len_prefix_pub(v@, i + 1);
            }
            return false;
        }
        i += 1;
    }
    assert(v@.take(v.len() as int) =~= v@);
    acc == 7
}

fn contains_chars(acc: &Vec<Vec<char>>, h: &Vec<char>) -> (r: bool)
    ensures
        r == views(acc@).contains(h@),
{
    let mut i: usize = 0;
    while i < acc.len()
        invariant
            i <= acc.len(),
            forall|j: int| 0 <= j < i ==> views(acc@)[j] != h@,
        decreases acc.len() - i,
    {
        if eq_chars(&acc[i], h) {
            assert(views(acc@)[i as int] == h@);
            return true;
        }
        i += 1;
    }
    false
}

/// Colors defined with `@define-color` in a GTK theme's `gtk.css` (the file's content).
pub fn read_gtk_palette(text: &str) -> (r: Option<Vec<String>>)
    ensures
        opt_views(r) == gtk_palette_spec(text@),
{
    let v = chars_of(text);
    let ls = lines_chars(&v);
    let ghost all = views(ls@);
    let prefix = chars_of("@define-color");
    let mut acc: Vec<Vec<char>> = Vec::new();
    let mut i: usize = 0;
    assert(all.skip(0) =~= all);
    assert(views(acc@) =~= Seq::<Seq<char>>::empty());
    while i < ls.len() && acc.len() < 6
        invariant
            i <= ls.len(),
            all == views(ls@),
            prefix@ == "@define-color"@,
            gtk_scan(all, Seq::empty()) == gtk_scan(all.skip(i as int), views(acc@)),
        decreases ls.len() - i,
    {
        let ghost rest = all.skip(i as int);
        assert(rest[0] == ls@[i as int]@);
        assert(rest.drop_first() =~= all.skip(i + 1));
        let t = trim_chars(&ls[i]);
        if matches_at(&t, 0, &prefix) {
            assert(t@.skip(0) =~= t@);
            match gtk_color_exec(&t) {
                Some(h) => {
                    if !contains_chars(&acc, &h) {
                        let ghost before = views(acc@);
                        acc.push(h);
                        assert(views(acc@) =~= before.push(h@));
                    }
                },
                None => {},
            }
        } else {
            assert(t@.skip(0) =~= t@);
        }
        i += 1;
    }
    assert(gtk_scan(all, Seq::empty()) == views(acc@)) by {
        if i == ls.len() {
            assert(all.skip(i as int) =~= Seq::<Seq<char>>::empty());
        }
    }
    let mut out: Vec<String> = Vec::new();
    let mut j: usize = 0;
    while j < acc.len()
        invariant
            j <= acc.len(),
            string_views(out@) == views(acc@).take(j as int),
        decreases acc.len() - j,
    {
        let ghost before = string_views(out@);
        out.push(string_of(&acc[j]));
        assert(views(acc@)[j as int] == acc@[j as int]@);
        assert(string_views(out@) =~= before.push(acc@[j as int]@));
        assert(views(acc@).take(j + 1) =~= views(acc@).take(j as int).push(views(acc@)[j as int]));
        j += 1;
    }
    assert(views(acc@).take(acc.len() as int) =~= views(acc@));
    if out.len() == 0 {
        None
    } else {
        Some(out)
    }
}

// ---------------------------------------------------------------- Aurorae decorations

/// What `read_deco_color` returns: the `color:` of the
/// `.ColorScheme-Background` rule, normalized like a GTK color.
pub open spec fn deco_color_spec(text: Seq<char>) -> Option<Seq<Seq<char>>> {
    match second_piece(text, ".ColorScheme-Background"@) {
        None => None,
        Some(block) => {
            let block = match find_char(block, '}') {
                Some(e) => block.take(e),
                None => block,
            };
            match second_piece(block, "color:"@) {
                None => None,
                Some(after) => {
                    let t = trim(after);
                    let c = take_until(t);
                    let c = ascii_lower_str(trim(c));
                    if c.len() > 0 && c[0] == '#' && byte_len(c) == 7 {
                        Some(seq![c])
                    } else {
                        None
                    }
                },
            }
        },
    }
}

/// The characters before the first `;` or `}`.
pub open spec fn take_until(s: Seq<char>) -> Seq<char>
    decreases s.len(),
{
    if s.len() == 0 || s[0] == ';' || s[0] == '}' {
        Seq::empty()
    } else {
        seq![s[0]] + take_until(s.drop_first())
    }
}

fn take_until_exec(v: &Vec<char>) -> (r: Vec<char>)
    ensures
        r@ == take_until(v@),
{
    let mut i: usize = 0;
    while i < v.len() && v[i] != ';' && v[i] != '}'
        invariant
            i <= v.len(),
            forall|j: int| 0 <= j < i ==> v@[j] != ';' && v@[j] != '}',
        decreases v.len() - i,
    {
        i += 1;
    }
    proof {
        lemma_take_until(v@, i as int);
    }
    slice_chars(v, 0, i)
}

proof fn lemma_take_until(s: Seq<char>, i: int)
    requires
        0 <= i <= s.len(),
        forall|j: int| 0 <= j < i ==> s[j] != ';' && s[j] != '}',
        i == s.len() || s[i] == ';' || s[i] == '}',
    ensures
        take_until(s) == s.take(i),
    decreases i,
{
    if i == 0 {
        assert(s.take(0) =~= Seq::<char>::empty());
    } else {
        let t = s.drop_first();
        assert forall|j: int| 0 <= j < i - 1 implies t[j] != ';' && t[j] != '}' by {
            assert(t[j] == s[j + 1]);
        }
        lemma_take_until(t, i - 1);
        assert(seq![s[0]] + t.take(i - 1) =~= s.take(i));
    }
}

/// The titlebar color of an Aurorae theme's `decoration.svg` (the file's content).
pub fn read_deco_color(text: &str) -> (r: Option<Vec<String>>)
    ensures
        opt_views(r) == deco_color_spec(text@),
{
    let v = chars_of(text);
    let pat = chars_of(".ColorScheme-Background");
    let col = chars_of("color:");
    proof {
        reveal_strlit(".ColorScheme-Background");
        reveal_strlit("color:");
    }
    let block = match second_piece_exec(&v, &pat) {
        None => {
            return None;
        },
        Some(b) => b,
    };
    let block = match find_char_exec(&block, '}') {
        Some(e) => {
            proof {
                crate::text::lemma_find_char_props(block@, '}');
            }
            slice_chars(&block, 0, e)
        },
        None => block,
    };
    let after = match second_piece_exec(&block, &col) {
        None => {
            return None;
        },
        Some(a) => a,
    };
    let t = trim_chars(&after);
    let c = take_until_exec(&t);
    let c = ascii_lower_chars(&trim_chars(&c));
    if c.len() > 0 && c[0] == '#' && byte_len_is7(&c) {
        let mut out: Vec<String> = Vec::new();
        out.push(string_of(&c));
        assert(string_views(out@) =~= seq![c@]);
        Some(out)
    } else {
        None
    }
}


/// Where `read_ini` finds a value of `key` in `section` that is a valid
/// `r,g,b` color, the color read for that key is its `#rrggbb`.
proof fn lemma_color_scan_read(ls: Seq<Seq<char>>, cur: Seq<char>, section: Seq<char>, key: Seq<char>)
    requires
        ini_scan(ls, cur, section, key) matches Some(v) && rgb_to_hex_spec(v) is Some,
    ensures
        color_scan(ls, cur, section, key) == rgb_to_hex_spec(ini_scan(ls, cur, section, key)->Some_0),
    decreases ls.len(),
{
    if ls.len() > 0 {
        let t = trim(ls[0]);
        match section_of(t) {
            Some(name) => lemma_color_scan_read(ls.drop_first(), name, section, key),
            None => match split_once(t, '=') {
                Some(kv) => if !(cur == section && trim(kv.0) == key) {
                    lemma_color_scan_read(ls.drop_first(), cur, section, key);
                },
                None => lemma_color_scan_read(ls.drop_first(), cur, section, key),
            },
        }
    }
}

/// The `#rrggbb` of the value `read_ini` gives for `key` in `section`.
#[verifier::opaque]
pub open spec fn ini_hex(text: Seq<char>, section: Seq<char>, key: Seq<char>) -> Option<Seq<char>> {
    match ini_value(text, section, key) {
        Some(v) => rgb_to_hex_spec(v),
        None => None,
    }
}

proof fn lemma_ini_hex_color(text: Seq<char>, section: Seq<char>, key: Seq<char>)
    requires
        ini_hex(text, section, key) is Some,
    ensures
        scheme_color(text, section, key) == ini_hex(text, section, key),
{
    reveal(ini_hex);
    lemma_color_scan_read(lines(text), Seq::empty(), section, key);
}

/// A KDE color scheme whose six colors are all set (each first value a valid
/// `r,g,b`) gives, in this order: the window, view, button and selection
/// backgrounds, then the window and view foregrounds.
pub proof fn law_palette_slots(text: Seq<char>)
    requires
        ini_hex(text, "Colors:Window"@, "BackgroundNormal"@) is Some,
        ini_hex(text, "Colors:View"@, "BackgroundNormal"@) is Some,
        ini_hex(text, "Colors:Button"@, "BackgroundNormal"@) is Some,
        ini_hex(text, "Colors:Selection"@, "BackgroundNormal"@) is Some,
        ini_hex(text, "Colors:Window"@, "ForegroundNormal"@) is Some,
        ini_hex(text, "Colors:View"@, "ForegroundNormal"@) is Some,
    ensures
        color_palette_spec(text) == Some(
            seq![
                ini_hex(text, "Colors:Window"@, "BackgroundNormal"@)->Some_0,
                ini_hex(text, "Colors:View"@, "BackgroundNormal"@)->Some_0,
                ini_hex(text, "Colors:Button"@, "BackgroundNormal"@)->Some_0,
                ini_hex(text, "Colors:Selection"@, "BackgroundNormal"@)->Some_0,
                ini_hex(text, "Colors:Window"@, "ForegroundNormal"@)->Some_0,
                ini_hex(text, "Colors:View"@, "ForegroundNormal"@)->Some_0,
            ],
        ),
{
    lemma_ini_hex_color(text, "Colors:Window"@, "BackgroundNormal"@);
    lemma_ini_hex_color(text, "Colors:View"@, "BackgroundNormal"@);
    lemma_ini_hex_color(text, "Colors:Button"@, "BackgroundNormal"@);
    lemma_ini_hex_color(text, "Colors:Selection"@, "BackgroundNormal"@);
    lemma_ini_hex_color(text, "Colors:Window"@, "ForegroundNormal"@);
    lemma_ini_hex_color(text, "Colors:View"@, "ForegroundNormal"@);
    let sl = scheme_slots(text);
    let want = seq![
        ini_hex(text, "Colors:Window"@, "BackgroundNormal"@)->Some_0,
        ini_hex(text, "Colors:View"@, "BackgroundNormal"@)->Some_0,
        ini_hex(text, "Colors:Button"@, "BackgroundNormal"@)->Some_0,
        ini_hex(text, "Colors:Selection"@, "BackgroundNormal"@)->Some_0,
        ini_hex(text, "Colors:Window"@, "ForegroundNormal"@)->Some_0,
        ini_hex(text, "Colors:View"@, "ForegroundNormal"@)->Some_0,
    ];
    assert(sl.len() == 6);
    assert forall|i: int| 0 <= i < 6 implies #[trigger] sl[i] == Some(want[i]) by {}
    lemma_present_all(sl);
    assert(present(sl) =~= want);
}

proof fn lemma_present_all(s: Seq<Option<Seq<char>>>)
    requires
        forall|i: int| 0 <= i < s.len() ==> (#[trigger] s[i]) is Some,
    ensures
        present(s) == s.map_values(|o: Option<Seq<char>>| o->Some_0),
    decreases s.len(),
{
    if s.len() > 0 {
        lemma_present_all(s.drop_last());
        assert(s.last() == s[s.len() - 1]);
        assert(s.map_values(|o: Option<Seq<char>>| o->Some_0) =~= s.drop_last().map_values(
            |o: Option<Seq<char>>| o->Some_0,
        ).push(s.last()->Some_0));
    } else {
        assert(s.map_values(|o: Option<Seq<char>>| o->Some_0) =~= Seq::<Seq<char>>::empty());
    }
}


/// A `#rrggbb`-shaped color text: `#` and six more bytes.
pub open spec fn hex_shaped(c: Seq<char>) -> bool {
    c.len() > 0 && c[0] == '#' && byte_len(c) == 7
}

proof fn lemma_gtk_color_shaped(t: Seq<char>)
    ensures
        gtk_color(t) matches Some(c) ==> hex_shaped(c),
{
    reveal_strlit("#ffffff");
    reveal_strlit("#000000");
    reveal_with_fuel(byte_len, 8);
}

proof fn lemma_gtk_scan_shape(ls: Seq<Seq<char>>, acc: Seq<Seq<char>>)
    requires
        acc.len() <= 6,
        acc.no_duplicates(),
        forall|i: int| 0 <= i < acc.len() ==> hex_shaped(#[trigger] acc[i]),
    ensures
        acc.len() <= gtk_scan(ls, acc).len() <= 6,
        gtk_scan(ls, acc).no_duplicates(),
        forall|i: int| 0 <= i < gtk_scan(ls, acc).len() ==> hex_shaped(#[trigger] gtk_scan(ls, acc)[i]),
    decreases ls.len(),
{
    if ls.len() > 0 && acc.len() < 6 {
        let t = trim(ls[0]);
        if has_prefix(t, "@define-color"@) {
            lemma_gtk_color_shaped(t);
            match gtk_color(t) {
                Some(h) => if !acc.contains(h) {
                    let n = acc.push(h);
                    assert forall|i: int, j: int| 0 <= i < n.len() && 0 <= j < n.len() && i != j implies n[i] != n[j] by {
                        if i == acc.len() as int {
                            assert(n[j] == acc[j]);
                        } else if j == acc.len() as int {
                            assert(n[i] == acc[i]);
                        }
                    }
                    assert forall|i: int| 0 <= i < n.len() implies hex_shaped(#[trigger] n[i]) by {
                        if i < acc.len() {
                            assert(n[i] == acc[i]);
                        }
                    }
                    lemma_gtk_scan_shape(ls.drop_first(), n);
                } else {
                    lemma_gtk_scan_shape(ls.drop_first(), acc);
                },
                None => lemma_gtk_scan_shape(ls.drop_first(), acc),
            }
        } else {
            lemma_gtk_scan_shape(ls.drop_first(), acc);
        }
    }
}

/// A GTK palette holds one to six colors, no color twice, each a `#` and
/// six more bytes (`white` and `black` read as `#ffffff` and `#000000`).
pub proof fn law_gtk_palette_shape(text: Seq<char>)
    ensures
        gtk_palette_spec(text) matches Some(p) ==> 1 <= p.len() <= 6 && p.no_duplicates() && forall|i: int|
            0 <= i < p.len() ==> hex_shaped(#[trigger] p[i]),
{
    lemma_gtk_scan_shape(lines(text), Seq::empty());
}

} // verus!
