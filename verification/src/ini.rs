//! INI files as KDE and GTK write them: reading one key of one section, and
//! setting one key while keeping every other line (kwriteconfig-style).
use vstd::prelude::*;
use crate::text::{
    all_ws, lemma_plain_word, plain_word, chars_of, eq_chars, extend_chars, find_char, is_ws, lemma_find_char_at,
    lemma_find_char_none, lemma_find_char_props, lemma_split_concat, lemma_split_no_sep,
    lemma_split_on_nonempty, lemma_trim_decompose, lemma_trim_end_after, lemma_trim_ends_not_ws,
    lemma_trim_of_trim_end, lemma_trim_start_ws_prefix, lemma_trim_strip_cr, lines, lines_chars,
    split_on, split_once, split_once_chars, string_of, strip_cr, trim, trim_chars, trim_end,
    trim_start, views,
};

verus! {

/// The section named by a (trimmed) header line `[name]`.
pub open spec fn section_of(t: Seq<char>) -> Option<Seq<char>> {
    if t.len() > 0 && t[0] == '[' && t.last() == ']' {
        Some(t.subrange(1, t.len() - 1))
    } else {
        None
    }
}

/// The value of `key` in `section`, scanning `ls` while the current section is `cur`.
pub open spec fn ini_scan(ls: Seq<Seq<char>>, cur: Seq<char>, section: Seq<char>, key: Seq<char>) -> Option<
    Seq<char>,
>
    decreases ls.len(),
{
    if ls.len() == 0 {
        None
    } else {
        let t = trim(ls[0]);
        match section_of(t) {
            Some(name) => ini_scan(ls.drop_first(), name, section, key),
            None => match split_once(t, '=') {
                Some(kv) => if cur == section && trim(kv.0) == key {
                    Some(trim(kv.1))
                } else {
                    ini_scan(ls.drop_first(), cur, section, key)
                },
                None => ini_scan(ls.drop_first(), cur, section, key),
            },
        }
    }
}

/// What `read_ini` returns: the trimmed value of the first `key = value`
/// line of `section`; lines before any header belong to the section `""`.
pub open spec fn ini_value(text: Seq<char>, section: Seq<char>, key: Seq<char>) -> Option<Seq<char>> {
    ini_scan(lines(text), Seq::empty(), section, key)
}

/// The line `key=value`.
pub open spec fn kv_line(key: Seq<char>, value: Seq<char>) -> Seq<char> {
    key + seq!['='] + value
}

/// The header line `[section]`.
pub open spec fn header_line(section: Seq<char>) -> Seq<char> {
    seq!['['] + section + seq![']']
}

/// A line (untrimmed) whose part before its first `=` is `key` once trimmed.
pub open spec fn is_key_line(l: Seq<char>, key: Seq<char>) -> bool {
    match split_once(l, '=') {
        Some(kv) => trim(kv.0) == key,
        None => false,
    }
}

/// Lines emitted by `set_ini_key` for the remaining input lines `ls`, in the
/// section state `in_sec` and with `wrote` telling whether the key was written.
pub open spec fn set_scan(
    ls: Seq<Seq<char>>,
    in_sec: bool,
    wrote: bool,
    section: Seq<char>,
    key: Seq<char>,
    value: Seq<char>,
) -> Seq<Seq<char>>
    decreases ls.len(),
{
    if ls.len() == 0 {
        if wrote {
            seq![]
        } else if in_sec {
            seq![kv_line(key, value)]
        } else {
            seq![header_line(section), kv_line(key, value)]
        }
    } else {
        let l = ls[0];
        let rest = ls.drop_first();
        match section_of(trim(l)) {
            Some(name) => if in_sec && !wrote {
                seq![kv_line(key, value), l] + set_scan(rest, name == section, true, section, key, value)
            } else {
                seq![l] + set_scan(rest, name == section, wrote, section, key, value)
            },
            None => if in_sec && !wrote && is_key_line(l, key) {
                seq![kv_line(key, value)] + set_scan(rest, in_sec, true, section, key, value)
            } else {
                seq![l] + set_scan(rest, in_sec, wrote, section, key, value)
            },
        }
    }
}

/// Lines joined with `'\n'`.
pub open spec fn join_lines(ls: Seq<Seq<char>>) -> Seq<char>
    decreases ls.len(),
{
    if ls.len() == 0 {
        Seq::empty()
    } else if ls.len() == 1 {
        ls[0]
    } else {
        join_lines(ls.drop_last()) + seq!['\n'] + ls.last()
    }
}

/// Joined lines, with a final `'\n'` added unless there is one.
pub open spec fn render(ls: Seq<Seq<char>>) -> Seq<char> {
    let s = join_lines(ls);
    if s.len() > 0 && s.last() == '\n' {
        s
    } else {
        s.push('\n')
    }
}

/// What `set_ini_key` writes: `key=value` replaces the first key line of the
/// first `section`, or is added at the end of that section, or is added
/// under a new `[section]` header at the end of the file.
pub open spec fn ini_set_text(text: Seq<char>, section: Seq<char>, key: Seq<char>, value: Seq<char>) -> Seq<
    char,
> {
    render(set_scan(lines(text), false, false, section, key, value))
}

/// `section_of` on characters.
fn section_of_exec(t: &Vec<char>) -> (r: Option<Vec<char>>)
    ensures
        r matches Some(n) ==> section_of(t@) == Some(n@),
        r is None ==> section_of(t@) is None,
{
    let n = t.len();
    if n > 0 && t[0] == '[' && t[n - 1] == ']' {
        Some(crate::text::slice_chars(t, 1, n - 1))
    } else {
        None
    }
}

/// The value of `key` in `section` of INI `text` (the file's content).
pub fn read_ini(text: &str, section: &str, key: &str) -> (r: Option<String>)
    ensures
        r matches Some(v) ==> ini_value(text@, section@, key@) == Some(v@),
        r is None ==> ini_value(text@, section@, key@) is None,
{
    let v = chars_of(text);
    let sec = chars_of(section);
    let k = chars_of(key);
    let ls = lines_chars(&v);
    let ghost all = views(ls@);
    let mut cur: Vec<char> = Vec::new();
    let mut i: usize = 0;
    assert(all.skip(0) =~= all);
    while i < ls.len()
        invariant
            i <= ls.len(),
            all == views(ls@),
            all == lines(v@),
            ini_value(text@, section@, key@) == ini_scan(all.skip(i as int), cur@, sec@, k@),
            sec@ == section@,
            k@ == key@,
        decreases ls.len() - i,
    {
        let ghost rest = all.skip(i as int);
        assert(rest[0] == ls@[i as int]@);
        assert(rest.drop_first() =~= all.skip(i + 1));
        let t = trim_chars(&ls[i]);
        match section_of_exec(&t) {
            Some(name) => {
                cur = name;
            },
            None => {
                match split_once_chars(&t, '=') {
                    Some(kv) => {
                        if eq_chars(&cur, &sec) && eq_chars(&trim_chars(&kv.0), &k) {
                            let val = trim_chars(&kv.1);
                            return Some(string_of(&val));
                        }
                    },
                    None => {},
                }
            },
        }
        i += 1;
    }
    None
}

/// The value of `key` in `section` of a file that may not have been read.
pub open spec fn file_value(t: Option<String>, section: Seq<char>, key: Seq<char>) -> Option<Seq<char>> {
    match t {
        Some(x) => ini_value(x@, section, key),
        None => None,
    }
}

/// The first value found across layered files, the first file first.
pub open spec fn merged_value(ts: Seq<Option<String>>, section: Seq<char>, key: Seq<char>) -> Option<
    Seq<char>,
>
    decreases ts.len(),
{
    if ts.len() == 0 {
        None
    } else {
        match file_value(ts[0], section, key) {
            Some(v) => Some(v),
            None => merged_value(ts.drop_first(), section, key),
        }
    }
}

/// The first value found for `key` in `section` across layered INI files,
/// the main file first (`None` stands for a file that could not be read).
pub fn read_ini_merged(texts: &Vec<Option<String>>, section: &str, key: &str) -> (r: Option<String>)
    ensures
        r matches Some(v) ==> merged_value(texts@, section@, key@) == Some(v@),
        r is None ==> merged_value(texts@, section@, key@) is None,
{
    let mut i: usize = 0;
    assert(texts@.skip(0) =~= texts@);
    while i < texts.len()
        invariant
            i <= texts.len(),
            merged_value(texts@, section@, key@) == merged_value(texts@.skip(i as int), section@, key@),
        decreases texts.len() - i,
    {
        assert(texts@.skip(i as int)[0] == texts@[i as int]);
        assert(texts@.skip(i as int).drop_first() =~= texts@.skip(i + 1));
        match &texts[i] {
            Some(t) => {
                match read_ini(t.as_str(), section, key) {
                    Some(v) => {
                        return Some(v);
                    },
                    None => {},
                }
            },
            None => {},
        }
        i += 1;
    }
    None
}

fn kv_line_exec(key: &Vec<char>, value: &Vec<char>) -> (r: Vec<char>)
    ensures
        r@ == kv_line(key@, value@),
{
    let mut r = key.clone();
    assert(r@ == key@);
    r.push('=');
    extend_chars(&mut r, value);
    r
}

fn header_line_exec(section: &Vec<char>) -> (r: Vec<char>)
    ensures
        r@ == header_line(section@),
{
    let mut r: Vec<char> = Vec::new();
    r.push('[');
    extend_chars(&mut r, section);
    r.push(']');
    assert(r@ =~= header_line(section@));
    r
}

fn is_key_line_exec(l: &Vec<char>, key: &Vec<char>) -> (r: bool)
    ensures
        r == is_key_line(l@, key@),
{
    match split_once_chars(l, '=') {
        Some(kv) => eq_chars(&trim_chars(&kv.0), key),
        None => false,
    }
}

fn render_exec(ls: &Vec<Vec<char>>) -> (r: Vec<char>)
    ensures
        r@ == render(views(ls@)),
{
    let ghost all = views(ls@);
    let mut out: Vec<char> = Vec::new();
    let mut i: usize = 0;
    while i < ls.len()
        invariant
            i <= ls.len(),
            all == views(ls@),
            out@ == join_lines(all.take(i as int)),
        decreases ls.len() - i,
    {
        let ghost pre = all.take(i as int);
        assert(all.take(i + 1).drop_last() =~= pre);
        assert(all.take(i + 1).last() == ls@[i as int]@);
        if i > 0 {
            out.push('\n');
        }
        extend_chars(&mut out, &ls[i]);
        proof {
            if i == 0 {
                assert(out@ =~= join_lines(all.take(1)));
            } else {
                assert(out@ =~= join_lines(all.take(i + 1)));
            }
        }
        i += 1;
    }
    assert(all.take(ls.len() as int) =~= all);
    let n = out.len();
    if n == 0 || out[n - 1] != '\n' {
        out.push('\n');
    }
    out
}

/// The new content of an INI file after setting `key=value` in `section`.
pub fn set_ini_key(text: &str, section: &str, key: &str, value: &str) -> (r: String)
    ensures
        r@ == ini_set_text(text@, section@, key@, value@),
{
    let v = chars_of(text);
    let sec = chars_of(section);
    let k = chars_of(key);
    let val = chars_of(value);
    let kv = kv_line_exec(&k, &val);
    let ls = lines_chars(&v);
    let ghost all = views(ls@);
    let mut out: Vec<Vec<char>> = Vec::new();
    let mut in_sec = false;
    let mut wrote = false;
    let mut i: usize = 0;
    assert(all.skip(0) =~= all);
    assert(views(out@) + set_scan(all, false, false, sec@, k@, val@) =~= set_scan(
        all,
        false,
        false,
        sec@,
        k@,
        val@,
    ));
    while i < ls.len()
        invariant
            i <= ls.len(),
            all == views(ls@),
            all == lines(v@),
            kv@ == kv_line(k@, val@),
            views(out@) + set_scan(all.skip(i as int), in_sec, wrote, sec@, k@, val@) == set_scan(
                all,
                false,
                false,
                sec@,
                k@,
                val@,
            ),
        decreases ls.len() - i,
    {
        let ghost rest = all.skip(i as int);
        let ghost before = views(out@);
        let ghost in0 = in_sec;
        let ghost w0 = wrote;
        assert(rest[0] == ls@[i as int]@);
        assert(rest.drop_first() =~= all.skip(i + 1));
        let line = &ls[i];
        let t = trim_chars(line);
        match section_of_exec(&t) {
            Some(name) => {
                if in_sec && !wrote {
                    out.push(kv.clone());
                    wrote = true;
                }
                in_sec = eq_chars(&name, &sec);
                out.push(line.clone());
            },
            None => {
                if in_sec && !wrote && is_key_line_exec(line, &k) {
                    out.push(kv.clone());
                    wrote = true;
                } else {
                    out.push(line.clone());
                }
            },
        }
        proof {
            let tail = set_scan(all.skip(i + 1), in_sec, wrote, sec@, k@, val@);
            assert(views(out@) + tail =~= before + set_scan(rest, in0, w0, sec@, k@, val@));
        }
        i += 1;
    }
    assert(all.skip(ls.len() as int) =~= Seq::<Seq<char>>::empty());
    if !wrote {
        if !in_sec {
            out.push(header_line_exec(&sec));
        }
        out.push(kv);
    }
    assert(views(out@) =~= set_scan(all, false, false, sec@, k@, val@));
    let r = render_exec(&out);
    string_of(&r)
}


// ---------------------------------------------------------------- laws

pub open spec fn no_newline(s: Seq<char>) -> bool {
    forall|i: int| 0 <= i < s.len() ==> s[i] != '\n'
}

/// Before the first header line, no line sets `key`.
pub open spec fn no_key_before_header(ls: Seq<Seq<char>>, key: Seq<char>) -> bool
    decreases ls.len(),
{
    if ls.len() == 0 {
        true
    } else if section_of(trim(ls[0])) is Some {
        true
    } else {
        !is_key_line(ls[0], key) && no_key_before_header(ls.drop_first(), key)
    }
}

/// The inputs on which a value written by `set_ini_key` reads back with
/// `read_ini`: section, key and value on one line each; a key that is its
/// own trimmed form without `=`; a `key=value` line that does not look like
/// a header; and, for the section `""`, no such key above the first header.
pub open spec fn set_read_ok(text: Seq<char>, section: Seq<char>, key: Seq<char>, value: Seq<char>) -> bool {
    &&& set_shape_ok(section, key, value)
    &&& section.len() > 0 || no_key_before_header(lines(text), key)
}

/// Section, key and value that `set_ini_key` writes as the lines they are
/// read back as: each on one line, a key that is its own trimmed form
/// without `=`, and a `key=value` line that does not look like a header.
pub open spec fn set_shape_ok(section: Seq<char>, key: Seq<char>, value: Seq<char>) -> bool {
    &&& no_newline(section)
    &&& no_newline(key)
    &&& no_newline(value)
    &&& trim(key) == key
    &&& forall|i: int| 0 <= i < key.len() ==> key[i] != '='
    &&& section_of(trim(kv_line(key, value))) is None
}

proof fn lemma_eq_not_ws()
    ensures
        !is_ws('='),
        !is_ws('['),
        !is_ws(']'),
{
}

proof fn lemma_key_line_trim(l: Seq<char>, key: Seq<char>)
    ensures
        is_key_line(l, key) == is_key_line(trim(l), key),
{
    lemma_eq_not_ws();
    lemma_trim_decompose(l);
    let ts = trim_start(l);
    let t = trim(l);
    let p = l.take(l.len() - ts.len());
    let w = ts.skip(t.len() as int);
    assert(l =~= p + t + w);
    assert forall|j: int| 0 <= j < p.len() implies #[trigger] p[j] != '=' by {
        assert(is_ws(p[j]));
    }
    assert forall|j: int| 0 <= j < w.len() implies #[trigger] w[j] != '=' by {
        assert(is_ws(w[j]));
    }
    lemma_find_char_props(t, '=');
    match find_char(t, '=') {
        Some(k) => {
            let n = p.len() + k;
            assert forall|j: int| 0 <= j < n implies #[trigger] l[j] != '=' by {
                if j < p.len() {
                    assert(l[j] == p[j]);
                } else {
                    assert(l[j] == t[j - p.len()]);
                }
            }
            assert(l[n] == t[k]);
            lemma_find_char_at(l, '=', n);
            assert(l.take(n) =~= p + t.take(k));
            lemma_trim_start_ws_prefix(p, t.take(k));
        },
        None => {
            assert forall|j: int| 0 <= j < l.len() implies #[trigger] l[j] != '=' by {
                if j < p.len() {
                    assert(l[j] == p[j]);
                } else if j < p.len() + t.len() {
                    assert(l[j] == t[j - p.len()]);
                } else {
                    assert(l[j] == w[j - p.len() - t.len()]);
                }
            }
            lemma_find_char_none(l, '=');
        },
    }
}

proof fn lemma_kv_read(key: Seq<char>, value: Seq<char>)
    requires
        trim(key) == key,
        forall|i: int| 0 <= i < key.len() ==> key[i] != '=',
    ensures
        split_once(trim(kv_line(key, value)), '=') == Some((key, trim_end(value))),
        trim(trim_end(value)) == trim(value),
{
    lemma_eq_not_ws();
    let kv = kv_line(key, value);
    lemma_trim_ends_not_ws(key);
    if key.len() > 0 {
        assert(kv[0] == key[0]);
    } else {
        assert(kv[0] == '=');
    }
    assert(trim_start(kv) == kv);
    lemma_trim_end_after(key, '=', value);
    let t = key + seq!['='] + trim_end(value);
    assert(trim(kv) == t);
    assert forall|j: int| 0 <= j < key.len() implies #[trigger] t[j] != '=' by {
        assert(t[j] == key[j]);
    }
    lemma_find_char_at(t, '=', key.len() as int);
    assert(t.take(key.len() as int) =~= key);
    assert(t.skip(key.len() as int + 1) =~= trim_end(value));
    lemma_trim_of_trim_end(value);
}

proof fn lemma_header_read(section: Seq<char>)
    ensures
        trim(header_line(section)) == header_line(section),
        section_of(trim(header_line(section))) == Some(section),
{
    lemma_eq_not_ws();
    let h = header_line(section);
    assert(h[0] == '[');
    assert(h.last() == ']');
    assert(trim_start(h) == h);
    assert(trim_end(h) == h);
    assert(h.subrange(1, h.len() - 1) =~= section);
}

proof fn lemma_set_then_scan(
    ls: Seq<Seq<char>>,
    in_sec: bool,
    cur: Seq<char>,
    section: Seq<char>,
    key: Seq<char>,
    value: Seq<char>,
)
    requires
        trim(key) == key,
        forall|i: int| 0 <= i < key.len() ==> key[i] != '=',
        section_of(trim(kv_line(key, value))) is None,
        in_sec ==> cur == section,
        (!in_sec && cur == section) ==> no_key_before_header(ls, key),
    ensures
        ini_scan(set_scan(ls, in_sec, false, section, key, value), cur, section, key) == Some(
            trim(value),
        ),
    decreases ls.len(),
{
    lemma_kv_read(key, value);
    let kv = kv_line(key, value);
    if ls.len() == 0 {
        if in_sec {
            assert(seq![kv].drop_first() =~= Seq::<Seq<char>>::empty());
            assert(seq![kv][0] == kv);
            assert(ini_scan(seq![kv], cur, section, key) == Some(trim(value)));
        } else {
            let o = seq![header_line(section), kv];
            lemma_header_read(section);
            assert(o.drop_first() =~= seq![kv]);
            assert(o[0] == header_line(section));
            assert(seq![kv][0] == kv);
            assert(ini_scan(seq![kv], section, section, key) == Some(trim(value)));
            assert(ini_scan(o, cur, section, key) == Some(trim(value)));
        }
    } else {
        let l = ls[0];
        let rest = ls.drop_first();
        match section_of(trim(l)) {
            Some(name) => {
                if in_sec {
                    let o = seq![kv, l] + set_scan(rest, name == section, true, section, key, value);
                    assert(o[0] == kv);
                    assert(ini_scan(o, cur, section, key) == Some(trim(value)));
                } else {
                    let tail = set_scan(rest, name == section, false, section, key, value);
                    let o = seq![l] + tail;
                    assert(o[0] == l);
                    assert(o.drop_first() =~= tail);
                    lemma_set_then_scan(rest, name == section, name, section, key, value);
                }
            },
            None => {
                lemma_key_line_trim(l, key);
                if in_sec && is_key_line(l, key) {
                    let o = seq![kv] + set_scan(rest, in_sec, true, section, key, value);
                    assert(o[0] == kv);
                    assert(ini_scan(o, cur, section, key) == Some(trim(value)));
                } else {
                    let tail = set_scan(rest, in_sec, false, section, key, value);
                    let o = seq![l] + tail;
                    assert(o[0] == l);
                    assert(o.drop_first() =~= tail);
                    lemma_set_then_scan(rest, in_sec, cur, section, key, value);
                }
            },
        }
    }
}

proof fn lemma_scan_strip_cr(ls: Seq<Seq<char>>, cur: Seq<char>, section: Seq<char>, key: Seq<char>)
    ensures
        ini_scan(ls.map_values(|l: Seq<char>| strip_cr(l)), cur, section, key) == ini_scan(
            ls,
            cur,
            section,
            key,
        ),
    decreases ls.len(),
{
    let m = ls.map_values(|l: Seq<char>| strip_cr(l));
    if ls.len() > 0 {
        lemma_trim_strip_cr(ls[0]);
        assert(m[0] == strip_cr(ls[0]));
        assert(m.drop_first() =~= ls.drop_first().map_values(|l: Seq<char>| strip_cr(l)));
        let t = trim(ls[0]);
        match section_of(t) {
            Some(name) => lemma_scan_strip_cr(ls.drop_first(), name, section, key),
            None => lemma_scan_strip_cr(ls.drop_first(), cur, section, key),
        }
    }
}

proof fn lemma_scan_empty_last(ls: Seq<Seq<char>>, cur: Seq<char>, section: Seq<char>, key: Seq<char>)
    ensures
        ini_scan(ls.push(Seq::empty()), cur, section, key) == ini_scan(ls, cur, section, key),
    decreases ls.len(),
{
    let e = Seq::<char>::empty();
    let u = ls.push(e);
    if ls.len() == 0 {
        assert(u[0] == e);
        assert(trim_start(e) == e);
        assert(trim_end(e) == e);
        lemma_find_char_none(e, '=');
        assert(u.drop_first() =~= Seq::<Seq<char>>::empty());
    } else {
        assert(u[0] == ls[0]);
        assert(u.drop_first() =~= ls.drop_first().push(e));
        match section_of(trim(ls[0])) {
            Some(name) => lemma_scan_empty_last(ls.drop_first(), name, section, key),
            None => lemma_scan_empty_last(ls.drop_first(), cur, section, key),
        }
    }
}

proof fn lemma_split_join(ls: Seq<Seq<char>>)
    requires
        ls.len() >= 1,
        forall|i: int| 0 <= i < ls.len() ==> no_newline(#[trigger] ls[i]),
    ensures
        split_on(join_lines(ls), '\n') == ls,
    decreases ls.len(),
{
    if ls.len() == 1 {
        lemma_split_no_sep(ls[0], '\n');
        assert(seq![ls[0]] =~= ls);
    } else {
        let d = ls.drop_last();
        lemma_split_join(d);
        lemma_split_no_sep(ls.last(), '\n');
        lemma_split_concat(join_lines(d), ls.last(), '\n');
        assert(d + seq![ls.last()] =~= ls);
    }
}

proof fn lemma_join_last(ls: Seq<Seq<char>>)
    requires
        ls.len() >= 1,
        forall|i: int| 0 <= i < ls.len() ==> no_newline(#[trigger] ls[i]),
    ensures
        ls.last().len() > 0 ==> join_lines(ls).len() > 0 && join_lines(ls).last() == ls.last().last(),
        ls.len() >= 2 && ls.last().len() == 0 ==> join_lines(ls).len() > 0 && join_lines(ls).last()
            == '\n',
        ls.len() == 1 ==> join_lines(ls) == ls[0],
{
}

proof fn lemma_lines_render(ls: Seq<Seq<char>>)
    requires
        ls.len() >= 1,
        forall|i: int| 0 <= i < ls.len() ==> no_newline(#[trigger] ls[i]),
    ensures
        (ls.len() >= 2 && ls.last().len() == 0) ==> lines(render(ls)) == ls.drop_last().map_values(
            |l: Seq<char>| strip_cr(l),
        ),
        !(ls.len() >= 2 && ls.last().len() == 0) ==> lines(render(ls)) == ls.map_values(
            |l: Seq<char>| strip_cr(l),
        ),
{
    let j = join_lines(ls);
    lemma_split_join(ls);
    lemma_join_last(ls);
    let e = Seq::<char>::empty();
    if ls.len() >= 2 && ls.last().len() == 0 {
        assert(render(ls) == j);
        assert(ls.take(ls.len() - 1) =~= ls.drop_last());
    } else {
        if ls.last().len() > 0 {
            assert(ls.last()[ls.last().len() - 1] != '\n');
        }
        assert(render(ls) == j.push('\n'));
        assert(j.push('\n') =~= j + seq!['\n'] + e);
        lemma_split_concat(j, e, '\n');
        assert(split_on(e, '\n') =~= seq![e]);
        let p = ls + seq![e];
        assert(p.take(p.len() - 1) =~= ls);
        assert(p.last() == e);
    }
}

proof fn lemma_lines_no_newline(s: Seq<char>)
    ensures
        forall|i: int| 0 <= i < lines(s).len() ==> no_newline(#[trigger] lines(s)[i]),
{
    lemma_split_pieces_no_newline(s);
    lemma_split_on_nonempty(s, '\n');
    let p = split_on(s, '\n');
    assert forall|i: int| 0 <= i < lines(s).len() implies no_newline(#[trigger] lines(s)[i]) by {
        if i < p.len() - 1 {
            assert(lines(s)[i] == strip_cr(p[i]));
            assert(no_newline(p[i]));
        } else {
            assert(lines(s)[i] == p.last());
            assert(no_newline(p[p.len() - 1]));
        }
    }
}

proof fn lemma_split_pieces_no_newline(s: Seq<char>)
    ensures
        forall|i: int| 0 <= i < split_on(s, '\n').len() ==> no_newline(#[trigger] split_on(s, '\n')[i]),
    decreases s.len(),
{
    if s.len() > 0 {
        lemma_split_pieces_no_newline(s.drop_last());
        lemma_split_on_nonempty(s.drop_last(), '\n');
    }
}

proof fn lemma_set_scan_lines(
    ls: Seq<Seq<char>>,
    in_sec: bool,
    wrote: bool,
    section: Seq<char>,
    key: Seq<char>,
    value: Seq<char>,
)
    requires
        forall|i: int| 0 <= i < ls.len() ==> no_newline(#[trigger] ls[i]),
        no_newline(kv_line(key, value)),
        no_newline(header_line(section)),
    ensures
        forall|i: int|
            0 <= i < set_scan(ls, in_sec, wrote, section, key, value).len() ==> no_newline(
                #[trigger] set_scan(ls, in_sec, wrote, section, key, value)[i],
            ),
        !wrote ==> set_scan(ls, in_sec, wrote, section, key, value).len() >= 1,
    decreases ls.len(),
{
    if ls.len() > 0 {
        let rest = ls.drop_first();
        assert forall|i: int| 0 <= i < rest.len() implies no_newline(#[trigger] rest[i]) by {
            assert(rest[i] == ls[i + 1]);
        }
        lemma_set_scan_lines(rest, true, true, section, key, value);
        lemma_set_scan_lines(rest, false, true, section, key, value);
        lemma_set_scan_lines(rest, true, wrote, section, key, value);
        lemma_set_scan_lines(rest, false, wrote, section, key, value);
        let o = set_scan(ls, in_sec, wrote, section, key, value);
        assert forall|i: int| 0 <= i < o.len() implies no_newline(#[trigger] o[i]) by {
            match section_of(trim(ls[0])) {
                Some(name) => {
                    if in_sec && !wrote {
                        let t = set_scan(rest, name == section, true, section, key, value);
                        if i >= 2 {
                            assert(o[i] == t[i - 2]);
                        }
                    } else {
                        let t = set_scan(rest, name == section, wrote, section, key, value);
                        if i >= 1 {
                            assert(o[i] == t[i - 1]);
                        }
                    }
                },
                None => {
                    if in_sec && !wrote && is_key_line(ls[0], key) {
                        let t = set_scan(rest, in_sec, true, section, key, value);
                        if i >= 1 {
                            assert(o[i] == t[i - 1]);
                        }
                    } else {
                        let t = set_scan(rest, in_sec, wrote, section, key, value);
                        if i >= 1 {
                            assert(o[i] == t[i - 1]);
                        }
                    }
                },
            }
        }
    }
}

/// A key set with `set_ini_key` reads back with `read_ini`: after setting
/// `key=value` in `section`, reading `key` in `section` gives the trimmed value.
pub proof fn law_set_then_read(text: Seq<char>, section: Seq<char>, key: Seq<char>, value: Seq<char>)
    requires
        set_read_ok(text, section, key, value),
    ensures
        ini_value(ini_set_text(text, section, key, value), section, key) == Some(trim(value)),
{
    let ls = lines(text);
    let o = set_scan(ls, false, false, section, key, value);
    let e = Seq::<char>::empty();
    lemma_set_then_scan(ls, false, e, section, key, value);
    lemma_lines_no_newline(text);
    assert(no_newline(kv_line(key, value))) by {
        let kv = kv_line(key, value);
        assert forall|i: int| 0 <= i < kv.len() implies kv[i] != '\n' by {
            if i < key.len() {
                assert(kv[i] == key[i]);
            } else if i > key.len() {
                assert(kv[i] == value[i - key.len() - 1]);
            }
        }
    }
    assert(no_newline(header_line(section))) by {
        let h = header_line(section);
        assert forall|i: int| 0 <= i < h.len() implies h[i] != '\n' by {
            if 0 < i < h.len() - 1 {
                assert(h[i] == section[i - 1]);
            }
        }
    }
    lemma_set_scan_lines(ls, false, false, section, key, value);
    lemma_lines_render(o);
    if o.len() >= 2 && o.last().len() == 0 {
        lemma_scan_strip_cr(o.drop_last(), e, section, key);
        lemma_scan_empty_last(o.drop_last(), e, section, key);
        assert(o.last() =~= e);
        assert(o.drop_last().push(e) =~= o);
    } else {
        lemma_scan_strip_cr(o, e, section, key);
    }
}

proof fn lemma_set_keeps_others(
    ls: Seq<Seq<char>>,
    in_sec: bool,
    wrote: bool,
    cur: Seq<char>,
    section: Seq<char>,
    key: Seq<char>,
    value: Seq<char>,
    s2: Seq<char>,
    k2: Seq<char>,
)
    requires
        trim(key) == key,
        forall|i: int| 0 <= i < key.len() ==> key[i] != '=',
        section_of(trim(kv_line(key, value))) is None,
        in_sec ==> cur == section,
        !(s2 == section && k2 == key),
    ensures
        ini_scan(set_scan(ls, in_sec, wrote, section, key, value), cur, s2, k2) == ini_scan(ls, cur, s2, k2),
    decreases ls.len(),
{
    lemma_kv_read(key, value);
    let kv = kv_line(key, value);
    if ls.len() == 0 {
        if wrote {
        } else if in_sec {
            assert(seq![kv].drop_first() =~= Seq::<Seq<char>>::empty());
            assert(seq![kv][0] == kv);
            assert(ini_scan(Seq::<Seq<char>>::empty(), cur, s2, k2) is None);
            assert(ini_scan(seq![kv], cur, s2, k2) is None);
        } else {
            let o = seq![header_line(section), kv];
            lemma_header_read(section);
            assert(o.drop_first() =~= seq![kv]);
            assert(o[0] == header_line(section));
            assert(seq![kv].drop_first() =~= Seq::<Seq<char>>::empty());
            assert(seq![kv][0] == kv);
            assert(ini_scan(Seq::<Seq<char>>::empty(), section, s2, k2) is None);
            assert(ini_scan(seq![kv], section, s2, k2) is None);
            assert(ini_scan(o, cur, s2, k2) is None);
        }
    } else {
        let l = ls[0];
        let rest = ls.drop_first();
        match section_of(trim(l)) {
            Some(name) => {
                if in_sec && !wrote {
                    let tail = set_scan(rest, name == section, true, section, key, value);
                    let o = seq![kv, l] + tail;
                    assert(o[0] == kv);
                    assert(o.drop_first() =~= seq![l] + tail);
                    assert((seq![l] + tail)[0] == l);
                    assert((seq![l] + tail).drop_first() =~= tail);
                    lemma_set_keeps_others(rest, name == section, true, name, section, key, value, s2, k2);
                    assert(ini_scan(seq![l] + tail, cur, s2, k2) == ini_scan(ls, cur, s2, k2));
                    assert(ini_scan(o, cur, s2, k2) == ini_scan(ls, cur, s2, k2));
                } else {
                    let tail = set_scan(rest, name == section, wrote, section, key, value);
                    let o = seq![l] + tail;
                    assert(o[0] == l);
                    assert(o.drop_first() =~= tail);
                    lemma_set_keeps_others(rest, name == section, wrote, name, section, key, value, s2, k2);
                    assert(ini_scan(o, cur, s2, k2) == ini_scan(ls, cur, s2, k2));
                }
            },
            None => {
                lemma_key_line_trim(l, key);
                if in_sec && !wrote && is_key_line(l, key) {
                    let tail = set_scan(rest, in_sec, true, section, key, value);
                    let o = seq![kv] + tail;
                    assert(o[0] == kv);
                    assert(o.drop_first() =~= tail);
                    lemma_set_keeps_others(rest, in_sec, true, cur, section, key, value, s2, k2);
                    assert(is_key_line(trim(l), key));
                    assert(ini_scan(o, cur, s2, k2) == ini_scan(ls, cur, s2, k2));
                } else {
                    let tail = set_scan(rest, in_sec, wrote, section, key, value);
                    let o = seq![l] + tail;
                    assert(o[0] == l);
                    assert(o.drop_first() =~= tail);
                    lemma_set_keeps_others(rest, in_sec, wrote, cur, section, key, value, s2, k2);
                    assert(ini_scan(o, cur, s2, k2) == ini_scan(ls, cur, s2, k2));
                }
            },
        }
    }
}

/// Setting a key keeps every other key: after setting `key` in `section`,
/// reading any other key, or the same key in another section, gives what it
/// gave before.
pub proof fn law_set_keeps_others(
    text: Seq<char>,
    section: Seq<char>,
    key: Seq<char>,
    value: Seq<char>,
    other_section: Seq<char>,
    other_key: Seq<char>,
)
    requires
        set_shape_ok(section, key, value),
        !(other_section == section && other_key == key),
    ensures
        ini_value(ini_set_text(text, section, key, value), other_section, other_key) == ini_value(
            text,
            other_section,
            other_key,
        ),
{
    let ls = lines(text);
    let o = set_scan(ls, false, false, section, key, value);
    let e = Seq::<char>::empty();
    lemma_set_keeps_others(ls, false, false, e, section, key, value, other_section, other_key);
    lemma_lines_no_newline(text);
    assert(no_newline(kv_line(key, value))) by {
        let kv = kv_line(key, value);
        assert forall|i: int| 0 <= i < kv.len() implies kv[i] != '\n' by {
            if i < key.len() {
                assert(kv[i] == key[i]);
            } else if i > key.len() {
                assert(kv[i] == value[i - key.len() - 1]);
            }
        }
    }
    assert(no_newline(header_line(section))) by {
        let h = header_line(section);
        assert forall|i: int| 0 <= i < h.len() implies h[i] != '\n' by {
            if 0 < i < h.len() - 1 {
                assert(h[i] == section[i - 1]);
            }
        }
    }
    lemma_set_scan_lines(ls, false, false, section, key, value);
    lemma_lines_render(o);
    if o.len() >= 2 && o.last().len() == 0 {
        lemma_scan_strip_cr(o.drop_last(), e, other_section, other_key);
        lemma_scan_empty_last(o.drop_last(), e, other_section, other_key);
        assert(o.last() =~= e);
        assert(o.drop_last().push(e) =~= o);
    } else {
        lemma_scan_strip_cr(o, e, other_section, other_key);
    }
}

/// KDE's layered configuration: a key of the main file wins; only when the
/// main file lacks it (or could not be read) does the defaults file count.
pub proof fn law_main_file_wins(main: Option<String>, defaults: Option<String>, section: Seq<char>, key: Seq<char>)
    ensures
        file_value(main, section, key) is Some ==> merged_value(seq![main, defaults], section, key) == file_value(
            main,
            section,
            key,
        ),
        file_value(main, section, key) is None ==> merged_value(seq![main, defaults], section, key) == file_value(
            defaults,
            section,
            key,
        ),
{
    let ts = seq![main, defaults];
    assert(ts[0] == main);
    assert(ts.drop_first() =~= seq![defaults]);
    assert(seq![defaults][0] == defaults);
    assert(seq![defaults].drop_first() =~= Seq::<Option<String>>::empty());
    assert(merged_value(Seq::<Option<String>>::empty(), section, key) is None);
    assert(merged_value(seq![defaults], section, key) == file_value(defaults, section, key));
}

/// A section and a non-empty key made of ASCII letters and `-`, and a value
/// on one line, are written by `set_ini_key` as lines read back as written.
pub proof fn lemma_plain_shape(section: Seq<char>, key: Seq<char>, value: Seq<char>)
    requires
        plain_word(section),
        plain_word(key),
        key.len() > 0,
        no_newline(value),
    ensures
        set_shape_ok(section, key, value),
{
    lemma_plain_word(section);
    lemma_plain_word(key);
    assert(no_newline(section)) by {
        assert forall|i: int| 0 <= i < section.len() implies section[i] != '\n' by {
            assert('a' <= section[i] <= 'z' || 'A' <= section[i] <= 'Z' || section[i] == '-');
        }
    }
    assert(no_newline(key)) by {
        assert forall|i: int| 0 <= i < key.len() implies key[i] != '\n' by {
            assert('a' <= key[i] <= 'z' || 'A' <= key[i] <= 'Z' || key[i] == '-');
        }
    }
    assert forall|i: int| 0 <= i < key.len() implies key[i] != '=' by {
        assert('a' <= key[i] <= 'z' || 'A' <= key[i] <= 'Z' || key[i] == '-');
    }
    assert(!is_ws(key[0]));
    assert(!is_ws(key[key.len() - 1]));
    assert(trim_start(key) == key);
    assert(trim_end(key) == key);
    lemma_kv_read(key, value);
    let t = trim(kv_line(key, value));
    lemma_find_char_props(t, '=');
    let i = find_char(t, '=').unwrap();
    assert(0 <= i < t.len());
    assert(t.take(i) == key);
    assert(t.take(i)[0] == t[0]);
    assert(t[0] == key[0]);
}


/// A line ending in a carriage return.
pub open spec fn ends_cr(l: Seq<char>) -> bool {
    l.len() > 0 && l.last() == '\r'
}

/// Text ending in an empty line: two final `'\n'`.
pub open spec fn ends_blank_line(t: Seq<char>) -> bool {
    t.len() >= 2 && t[t.len() - 1] == '\n' && t[t.len() - 2] == '\n'
}

/// The lines that setting `key` in `section` copies (all but a key line it
/// replaces) do not end in a carriage return.
pub open spec fn copied_lines_plain(
    ls: Seq<Seq<char>>,
    in_sec: bool,
    wrote: bool,
    section: Seq<char>,
    key: Seq<char>,
) -> bool
    decreases ls.len(),
{
    if ls.len() == 0 {
        true
    } else {
        let l = ls[0];
        let rest = ls.drop_first();
        match section_of(trim(l)) {
            Some(name) => !ends_cr(l) && copied_lines_plain(rest, name == section, wrote || in_sec, section, key),
            None => if in_sec && !wrote && is_key_line(l, key) {
                copied_lines_plain(rest, in_sec, true, section, key)
            } else {
                !ends_cr(l) && copied_lines_plain(rest, in_sec, wrote, section, key)
            },
        }
    }
}

/// Once the key is written, every line is copied.
proof fn lemma_copied_after_write(ls: Seq<Seq<char>>, in_sec: bool, section: Seq<char>, key: Seq<char>)
    requires
        copied_lines_plain(ls, in_sec, true, section, key),
    ensures
        forall|i: int| 0 <= i < ls.len() ==> !ends_cr(#[trigger] ls[i]),
        ls.map_values(|x: Seq<char>| strip_cr(x)) == ls,
    decreases ls.len(),
{
    if ls.len() > 0 {
        let rest = ls.drop_first();
        match section_of(trim(ls[0])) {
            Some(name) => lemma_copied_after_write(rest, name == section, section, key),
            None => lemma_copied_after_write(rest, in_sec, section, key),
        }
        assert forall|i: int| 0 <= i < ls.len() implies !ends_cr(#[trigger] ls[i]) by {
            if i > 0 {
                assert(ls[i] == rest[i - 1]);
            }
        }
    }
    assert(ls.map_values(|x: Seq<char>| strip_cr(x)) =~= ls);
}

/// Once the key is written, the remaining lines are copied as they are.
proof fn lemma_set_scan_written(
    ls: Seq<Seq<char>>,
    in_sec: bool,
    section: Seq<char>,
    key: Seq<char>,
    value: Seq<char>,
)
    ensures
        set_scan(ls, in_sec, true, section, key, value) == ls,
    decreases ls.len(),
{
    if ls.len() > 0 {
        let l = ls[0];
        let rest = ls.drop_first();
        match section_of(trim(l)) {
            Some(name) => lemma_set_scan_written(rest, name == section, section, key, value),
            None => lemma_set_scan_written(rest, in_sec, section, key, value),
        }
        assert(seq![l] + rest =~= ls);
    }
}

/// The `key=value` line, read back without a final carriage return, is still
/// a line of `key` and no header.
proof fn lemma_kv_strip(key: Seq<char>, value: Seq<char>)
    requires
        trim(key) == key,
        forall|i: int| 0 <= i < key.len() ==> key[i] != '=',
        section_of(trim(kv_line(key, value))) is None,
    ensures
        is_key_line(strip_cr(kv_line(key, value)), key),
        section_of(trim(strip_cr(kv_line(key, value)))) is None,
        kv_line(key, value).len() > 0,
{
    let kv = kv_line(key, value);
    lemma_kv_read(key, value);
    lemma_trim_strip_cr(kv);
    lemma_key_line_trim(strip_cr(kv), key);
    lemma_key_line_trim(kv, key);
    assert(kv[key.len() as int] == '=');
}

/// Setting the key again in what one setting emitted, its lines read back
/// (final carriage returns removed), emits the same lines.
proof fn lemma_set_scan_again(
    ls: Seq<Seq<char>>,
    in_sec: bool,
    section: Seq<char>,
    key: Seq<char>,
    value: Seq<char>,
)
    requires
        trim(key) == key,
        forall|i: int| 0 <= i < key.len() ==> key[i] != '=',
        section_of(trim(kv_line(key, value))) is None,
        copied_lines_plain(ls, in_sec, false, section, key),
    ensures
        set_scan(
            set_scan(ls, in_sec, false, section, key, value).map_values(|l: Seq<char>| strip_cr(l)),
            in_sec,
            false,
            section,
            key,
            value,
        ) == set_scan(ls, in_sec, false, section, key, value),
    decreases ls.len(),
{
    let kv = kv_line(key, value);
    let kc = strip_cr(kv);
    let h = header_line(section);
    let e = Seq::<Seq<char>>::empty();
    lemma_kv_strip(key, value);
    lemma_header_read(section);
    assert(strip_cr(h) == h);
    let o = set_scan(ls, in_sec, false, section, key, value);
    let so = o.map_values(|l: Seq<char>| strip_cr(l));
    if ls.len() == 0 {
        if in_sec {
            assert(so =~= seq![kc]);
            assert(seq![kc].drop_first() =~= e);
            assert(seq![kc][0] == kc);
            assert(set_scan(e, true, true, section, key, value) =~= e);
            assert(set_scan(seq![kc], true, false, section, key, value) == seq![kv] + set_scan(e, true, true, section, key, value));
            assert(set_scan(seq![kc], true, false, section, key, value) =~= seq![kv]);
        } else {
            assert(so =~= seq![h, kc]);
            assert(seq![h, kc].drop_first() =~= seq![kc]);
            assert(seq![h, kc][0] == h);
            assert(seq![kc].drop_first() =~= e);
            assert(seq![kc][0] == kc);
            assert(set_scan(e, true, true, section, key, value) =~= e);
            assert(set_scan(seq![kc], true, false, section, key, value) == seq![kv] + set_scan(e, true, true, section, key, value));
            assert(set_scan(seq![kc], true, false, section, key, value) =~= seq![kv]);
            assert(set_scan(seq![h, kc], false, false, section, key, value) =~= seq![h, kv]);
        }
    } else {
        let l = ls[0];
        let rest = ls.drop_first();
        match section_of(trim(l)) {
            Some(name) => {
                if in_sec {
                    lemma_copied_after_write(rest, name == section, section, key);
                    lemma_set_scan_written(rest, name == section, section, key, value);
                    assert(o =~= seq![kv, l] + rest);
                    let x = seq![kc, l] + rest;
                    assert(so =~= x);
                    assert(x[0] == kc);
                    assert(x.drop_first() =~= seq![l] + rest);
                    lemma_set_scan_written(seq![l] + rest, true, section, key, value);
                    assert(set_scan(x, true, false, section, key, value) =~= seq![kv] + (seq![l] + rest));
                } else {
                    let tail = set_scan(rest, name == section, false, section, key, value);
                    assert(o =~= seq![l] + tail);
                    let st = tail.map_values(|x: Seq<char>| strip_cr(x));
                    let x = seq![l] + st;
                    assert(so =~= x);
                    assert(x[0] == l);
                    assert(x.drop_first() =~= st);
                    lemma_set_scan_again(rest, name == section, section, key, value);
                }
            },
            None => {
                if in_sec && is_key_line(l, key) {
                    lemma_copied_after_write(rest, true, section, key);
                    lemma_set_scan_written(rest, true, section, key, value);
                    assert(o =~= seq![kv] + rest);
                    let x = seq![kc] + rest;
                    assert(so =~= x);
                    assert(x[0] == kc);
                    assert(x.drop_first() =~= rest);
                } else {
                    let tail = set_scan(rest, in_sec, false, section, key, value);
                    assert(o =~= seq![l] + tail);
                    let st = tail.map_values(|x: Seq<char>| strip_cr(x));
                    let x = seq![l] + st;
                    assert(so =~= x);
                    assert(x[0] == l);
                    assert(x.drop_first() =~= st);
                    lemma_set_scan_again(rest, in_sec, section, key, value);
                }
            },
        }
    }
}

/// An empty last line that setting the key copied last was copied after the
/// key was written: dropping it drops it from the output.
proof fn lemma_set_scan_blank_last(
    x: Seq<Seq<char>>,
    in_sec: bool,
    wrote: bool,
    section: Seq<char>,
    key: Seq<char>,
    value: Seq<char>,
)
    requires
        kv_line(key, value).len() > 0,
        set_scan(x.push(Seq::empty()), in_sec, wrote, section, key, value).len() > 0,
        set_scan(x.push(Seq::empty()), in_sec, wrote, section, key, value).last().len() == 0,
    ensures
        set_scan(x.push(Seq::empty()), in_sec, wrote, section, key, value) == set_scan(
            x,
            in_sec,
            wrote,
            section,
            key,
            value,
        ).push(Seq::empty()),
    decreases x.len(),
{
    let e = Seq::<char>::empty();
    let u = x.push(e);
    if x.len() == 0 {
        assert(u =~= seq![e]);
        assert(u[0] == e);
        assert(trim_start(e) == e);
        assert(trim_end(e) == e);
        lemma_find_char_none(e, '=');
        assert(u.drop_first() =~= Seq::<Seq<char>>::empty());
        let o = set_scan(u, in_sec, wrote, section, key, value);
        let em = Seq::<Seq<char>>::empty();
        assert(section_of(trim(e)) is None);
        assert(!is_key_line(e, key));
        assert(o == seq![e] + set_scan(em, in_sec, wrote, section, key, value));
        if wrote {
            assert(o =~= seq![e]);
        } else if in_sec {
            assert(o =~= seq![e, kv_line(key, value)]);
        } else {
            assert(o =~= seq![e, header_line(section), kv_line(key, value)]);
        }
    } else {
        let l = x[0];
        let rest = x.drop_first();
        assert(u[0] == l);
        assert(u.drop_first() =~= rest.push(e));
        let kv = kv_line(key, value);
        match section_of(trim(l)) {
            Some(name) => {
                let w2 = wrote || in_sec;
                let t2 = set_scan(rest.push(e), name == section, w2, section, key, value);
                let pre = if in_sec && !wrote { seq![kv, l] } else { seq![l] };
                assert(set_scan(u, in_sec, wrote, section, key, value) == pre + t2);
                assert(rest.push(e).len() > 0);
                assert(rest.push(e)[0] == (if rest.len() > 0 { rest[0] } else { e }));
                assert(t2.len() > 0);
                assert((pre + t2).last() == t2.last());
                lemma_set_scan_blank_last(rest, name == section, w2, section, key, value);
                assert(set_scan(x, in_sec, wrote, section, key, value) == pre + set_scan(
                    rest,
                    name == section,
                    w2,
                    section,
                    key,
                    value,
                ));
                assert(pre + t2 =~= (pre + set_scan(rest, name == section, w2, section, key, value)).push(e));
            },
            None => {
                let hit = in_sec && !wrote && is_key_line(l, key);
                let w2 = wrote || hit;
                let t2 = set_scan(rest.push(e), in_sec, w2, section, key, value);
                let pre = if hit { seq![kv] } else { seq![l] };
                assert(set_scan(u, in_sec, wrote, section, key, value) == pre + t2);
                assert(t2.len() > 0);
                assert((pre + t2).last() == t2.last());
                lemma_set_scan_blank_last(rest, in_sec, w2, section, key, value);
                assert(set_scan(x, in_sec, wrote, section, key, value) == pre + set_scan(
                    rest,
                    in_sec,
                    w2,
                    section,
                    key,
                    value,
                ));
                assert(pre + t2 =~= (pre + set_scan(rest, in_sec, w2, section, key, value)).push(e));
            },
        }
    }
}

/// Setting the same key to the same value twice gives the text of setting it
/// once, when no line that the setting copies ends in a carriage return (one
/// left by `str::lines` would be dropped by the second reading) and the
/// result does not end in an empty line (which the second reading drops too).
pub proof fn law_set_twice(text: Seq<char>, section: Seq<char>, key: Seq<char>, value: Seq<char>)
    requires
        set_shape_ok(section, key, value),
        copied_lines_plain(lines(text), false, false, section, key),
        !ends_blank_line(ini_set_text(text, section, key, value)),
    ensures
        ini_set_text(ini_set_text(text, section, key, value), section, key, value) == ini_set_text(
            text,
            section,
            key,
            value,
        ),
{
    let ls = lines(text);
    let o = set_scan(ls, false, false, section, key, value);
    let t = render(o);
    let e = Seq::<char>::empty();
    lemma_lines_no_newline(text);
    assert(no_newline(kv_line(key, value))) by {
        let kv = kv_line(key, value);
        assert forall|i: int| 0 <= i < kv.len() implies kv[i] != '\n' by {
            if i < key.len() {
                assert(kv[i] == key[i]);
            } else if i > key.len() {
                assert(kv[i] == value[i - key.len() - 1]);
            }
        }
    }
    assert(no_newline(header_line(section))) by {
        let h = header_line(section);
        assert forall|i: int| 0 <= i < h.len() implies h[i] != '\n' by {
            if 0 < i < h.len() - 1 {
                assert(h[i] == section[i - 1]);
            }
        }
    }
    lemma_set_scan_lines(ls, false, false, section, key, value);
    lemma_kv_strip(key, value);
    if ls.len() == 0 {
        assert(o =~= seq![header_line(section), kv_line(key, value)]);
    } else {
        assert(o.len() > 0);
    }
    lemma_lines_render(o);
    lemma_set_scan_again(ls, false, section, key, value);
    let so = o.map_values(|l: Seq<char>| strip_cr(l));
    if o.len() >= 2 && o.last().len() == 0 {
        let m = lines(t);
        assert(o.last() == e);
        assert(so.len() == m.len() + 1);
        assert forall|i: int| 0 <= i < so.len() implies #[trigger] so[i] == m.push(e)[i] by {
            if i < m.len() {
                assert(m[i] == strip_cr(o.drop_last()[i]));
                assert(o.drop_last()[i] == o[i]);
            } else {
                assert(so[i] == strip_cr(o[i]));
            }
        }
        assert(so =~= m.push(e));
        lemma_set_scan_blank_last(m, false, false, section, key, value);
        let y = set_scan(m, false, false, section, key, value);
        assert(o == y.push(e));
        assert(y.push(e).drop_last() =~= y);
        assert(join_lines(o) == join_lines(y) + seq!['\n'] + e);
        assert(join_lines(o) =~= join_lines(y).push('\n'));
        assert(t == join_lines(o));
        let jy = join_lines(y);
        if jy.len() > 0 && jy.last() == '\n' {
            assert(t[t.len() - 1] == '\n');
            assert(t[t.len() - 2] == jy.last());
            assert(false);
        }
        assert(render(y) == t);
    }
}

} // verus!
