//! Character-level text handling shared by the parsers: whitespace trimming,
//! line splitting, searching for a separator, path joining and ASCII case.
use vstd::prelude::*;

verus! {

/// Unicode `White_Space` (what `char::is_whitespace` accepts).
pub open spec fn is_ws(c: char) -> bool {
    let u = c as u32;
    ||| 0x09 <= u <= 0x0D
    ||| u == 0x20
    ||| u == 0x85
    ||| u == 0xA0
    ||| u == 0x1680
    ||| 0x2000 <= u <= 0x200A
    ||| u == 0x2028
    ||| u == 0x2029
    ||| u == 0x202F
    ||| u == 0x205F
    ||| u == 0x3000
}

/// `s` without its leading whitespace.
pub open spec fn trim_start(s: Seq<char>) -> Seq<char>
    decreases s.len(),
{
    if s.len() > 0 && is_ws(s[0]) {
        trim_start(s.drop_first())
    } else {
        s
    }
}

/// `s` without its trailing whitespace.
pub open spec fn trim_end(s: Seq<char>) -> Seq<char>
    decreases s.len(),
{
    if s.len() > 0 && is_ws(s.last()) {
        trim_end(s.drop_last())
    } else {
        s
    }
}

/// `s` without leading and trailing whitespace (`str::trim`).
pub open spec fn trim(s: Seq<char>) -> Seq<char> {
    trim_end(trim_start(s))
}

/// Index of the first occurrence of `c` in `s`.
pub open spec fn find_char(s: Seq<char>, c: char) -> Option<int>
    decreases s.len(),
{
    if s.len() == 0 {
        None
    } else if s[0] == c {
        Some(0)
    } else {
        match find_char(s.drop_first(), c) {
            Some(i) => Some(i + 1),
            None => None,
        }
    }
}

/// `str::split_once` with a single-character separator.
pub open spec fn split_once(s: Seq<char>, c: char) -> Option<(Seq<char>, Seq<char>)> {
    match find_char(s, c) {
        Some(i) => Some((s.take(i), s.skip(i + 1))),
        None => None,
    }
}

/// The pieces of `s` between occurrences of `c` (`str::split(c)`).
pub open spec fn split_on(s: Seq<char>, c: char) -> Seq<Seq<char>>
    decreases s.len(),
{
    if s.len() == 0 {
        seq![Seq::<char>::empty()]
    } else {
        let pre = split_on(s.drop_last(), c);
        if s.last() == c {
            pre.push(Seq::<char>::empty())
        } else {
            pre.update(pre.len() - 1, pre.last().push(s.last()))
        }
    }
}

/// The non-empty pieces, in order.
pub open spec fn nonempty_parts(ps: Seq<Seq<char>>) -> Seq<Seq<char>>
    decreases ps.len(),
{
    if ps.len() == 0 {
        ps
    } else if ps.last().len() > 0 {
        nonempty_parts(ps.drop_last()).push(ps.last())
    } else {
        nonempty_parts(ps.drop_last())
    }
}

/// The pieces of `s` between whitespace characters (`str::split(char::is_whitespace)`).
pub open spec fn split_ws(s: Seq<char>) -> Seq<Seq<char>>
    decreases s.len(),
{
    if s.len() == 0 {
        seq![Seq::<char>::empty()]
    } else {
        let pre = split_ws(s.drop_last());
        if is_ws(s.last()) {
            pre.push(Seq::<char>::empty())
        } else {
            pre.update(pre.len() - 1, pre.last().push(s.last()))
        }
    }
}

/// `str::split_whitespace`.
pub open spec fn ws_tokens(s: Seq<char>) -> Seq<Seq<char>> {
    nonempty_parts(split_ws(s))
}

/// `s` starts with `p`.
pub open spec fn has_prefix(s: Seq<char>, p: Seq<char>) -> bool {
    s.len() >= p.len() && s.take(p.len() as int) == p
}

/// `str::trim_start_matches` with a non-empty string pattern.
pub open spec fn strip_prefixes(s: Seq<char>, p: Seq<char>) -> Seq<char>
    decreases s.len(),
{
    if p.len() > 0 && has_prefix(s, p) {
        strip_prefixes(s.skip(p.len() as int), p)
    } else {
        s
    }
}

/// `str::trim_end_matches` with a single character.
pub open spec fn strip_suffix_chars(s: Seq<char>, c: char) -> Seq<char>
    decreases s.len(),
{
    if s.len() > 0 && s.last() == c {
        strip_suffix_chars(s.drop_last(), c)
    } else {
        s
    }
}

/// Index of the first occurrence of the non-empty pattern `p` in `s`.
pub open spec fn find_sub(s: Seq<char>, p: Seq<char>) -> Option<int>
    decreases s.len(),
{
    if s.len() < p.len() {
        None
    } else if s.take(p.len() as int) == p {
        Some(0)
    } else if s.len() == 0 {
        None
    } else {
        match find_sub(s.drop_first(), p) {
            Some(i) => Some(i + 1),
            None => None,
        }
    }
}

/// `s.split(p).nth(1)`: what lies between the first and the second occurrence of `p`.
pub open spec fn second_piece(s: Seq<char>, p: Seq<char>) -> Option<Seq<char>> {
    match find_sub(s, p) {
        Some(i) => {
            let rest = s.skip(i + p.len());
            match find_sub(rest, p) {
                Some(j) => Some(rest.take(j)),
                None => Some(rest),
            }
        },
        None => None,
    }
}

/// A line that was ended by `"\r\n"` loses its `'\r'`.
pub open spec fn strip_cr(l: Seq<char>) -> Seq<char> {
    if l.len() > 0 && l.last() == '\r' {
        l.drop_last()
    } else {
        l
    }
}

/// The lines of `s` as `str::lines` yields them: split at `'\n'`, a `'\r'`
/// right before the `'\n'` removed, and no empty last line after a final `'\n'`.
pub open spec fn lines(s: Seq<char>) -> Seq<Seq<char>> {
    let p = split_on(s, '\n');
    let ended = p.take(p.len() - 1).map_values(|l: Seq<char>| strip_cr(l));
    if p.last().len() > 0 {
        ended.push(p.last())
    } else {
        ended
    }
}

/// The character sequences held by a sequence of character vectors.
pub open spec fn views(v: Seq<Vec<char>>) -> Seq<Seq<char>> {
    v.map_values(|l: Vec<char>| l@)
}

/// `Path::join` of a relative or absolute name onto a directory (Unix).
pub open spec fn join_path(dir: Seq<char>, name: Seq<char>) -> Seq<char> {
    if name.len() > 0 && name[0] == '/' {
        name
    } else if dir.len() == 0 || dir.last() == '/' {
        dir + name
    } else {
        dir + seq!['/'] + name
    }
}

/// `char::to_ascii_lowercase`.
pub open spec fn ascii_lower(c: char) -> char {
    if 'A' <= c <= 'Z' {
        ((c as u32) + 32) as char
    } else {
        c
    }
}

/// `str::to_ascii_lowercase`.
pub open spec fn ascii_lower_str(s: Seq<char>) -> Seq<char> {
    s.map_values(|c: char| ascii_lower(c))
}

/// Lowercase hexadecimal digit of a value below 16.
pub open spec fn hex_digit(d: int) -> char {
    if d < 10 {
        (('0' as u32) + d) as char
    } else {
        (('a' as u32) + d - 10) as char
    }
}

/// Two lowercase hexadecimal digits of a byte (`{:02x}`).
pub open spec fn hex2(b: u8) -> Seq<char> {
    seq![hex_digit((b / 16) as int), hex_digit((b % 16) as int)]
}

/// Decimal digits of a number, without leading zeros (`to_string`).
pub open spec fn decimal(n: nat) -> Seq<char>
    decreases n,
{
    if n < 10 {
        seq![(('0' as u32) + n) as char]
    } else {
        decimal(n / 10).push((('0' as u32) + n % 10) as char)
    }
}

// ---------------------------------------------------------------- lemmas

pub proof fn lemma_trim_start_skip(s: Seq<char>, k: int)
    requires
        0 <= k <= s.len(),
        forall|j: int| 0 <= j < k ==> is_ws(#[trigger] s[j]),
        k == s.len() || !is_ws(s[k]),
    ensures
        trim_start(s) == s.skip(k),
    decreases k,
{
    if k == 0 {
        assert(s.skip(0) =~= s);
    } else {
        let t = s.drop_first();
        assert forall|j: int| 0 <= j < k - 1 implies is_ws(#[trigger] t[j]) by {
            assert(t[j] == s[j + 1]);
        }
        lemma_trim_start_skip(t, k - 1);
        assert(t.skip(k - 1) =~= s.skip(k));
    }
}

pub proof fn lemma_trim_end_take(s: Seq<char>, m: int)
    requires
        0 <= m <= s.len(),
        forall|j: int| m <= j < s.len() ==> is_ws(#[trigger] s[j]),
        m == 0 || !is_ws(s[m - 1]),
    ensures
        trim_end(s) == s.take(m),
    decreases s.len() - m,
{
    if m == s.len() {
        assert(s.take(m) =~= s);
    } else {
        let t = s.drop_last();
        assert forall|j: int| m <= j < t.len() implies is_ws(#[trigger] t[j]) by {
            assert(t[j] == s[j]);
        }
        lemma_trim_end_take(t, m);
        assert(t.take(m) =~= s.take(m));
    }
}

pub proof fn lemma_find_char_at(s: Seq<char>, c: char, k: int)
    requires
        0 <= k < s.len(),
        s[k] == c,
        forall|j: int| 0 <= j < k ==> #[trigger] s[j] != c,
    ensures
        find_char(s, c) == Some(k),
    decreases k,
{
    if k > 0 {
        let t = s.drop_first();
        assert(s[0] != c);
        assert forall|j: int| 0 <= j < k - 1 implies #[trigger] t[j] != c by {
            assert(t[j] == s[j + 1]);
        }
        lemma_find_char_at(t, c, k - 1);
    }
}

pub proof fn lemma_find_char_none(s: Seq<char>, c: char)
    requires
        forall|j: int| 0 <= j < s.len() ==> #[trigger] s[j] != c,
    ensures
        find_char(s, c) == None::<int>,
    decreases s.len(),
{
    if s.len() > 0 {
        let t = s.drop_first();
        assert(s[0] != c);
        assert forall|j: int| 0 <= j < t.len() implies #[trigger] t[j] != c by {
            assert(t[j] == s[j + 1]);
        }
        lemma_find_char_none(t, c);
    }
}

pub proof fn lemma_find_char_props(s: Seq<char>, c: char)
    ensures
        find_char(s, c) matches Some(k) ==> 0 <= k < s.len() && s[k] == c && forall|j: int|
            0 <= j < k ==> #[trigger] s[j] != c,
        find_char(s, c) is None ==> forall|j: int| 0 <= j < s.len() ==> #[trigger] s[j] != c,
    decreases s.len(),
{
    if s.len() > 0 {
        let t = s.drop_first();
        lemma_find_char_props(t, c);
        if s[0] != c {
            assert forall|j: int| 0 < j < s.len() implies #[trigger] s[j] == t[j - 1] by {}
        }
    }
}

/// Trimming commutes with removing a trailing `'\r'`: the two lines trim alike.
pub proof fn lemma_trim_strip_cr(l: Seq<char>)
    ensures
        trim(strip_cr(l)) == trim(l),
{
    if l.len() > 0 && l.last() == '\r' {
        lemma_trim_end_drop_ws(trim_start(l.drop_last()), l);
    }
}

proof fn lemma_trim_start_push(s: Seq<char>, c: char)
    ensures
        trim_start(s.push(c)) == if trim_start(s).len() == 0 {
            trim_start(seq![c])
        } else {
            trim_start(s).push(c)
        },
    decreases s.len(),
{
    if s.len() > 0 {
        assert(s.push(c).drop_first() =~= s.drop_first().push(c));
        assert(s.push(c)[0] == s[0]);
        if is_ws(s[0]) {
            lemma_trim_start_push(s.drop_first(), c);
        }
    } else {
        assert(s.push(c) =~= seq![c]);
    }
}

proof fn lemma_trim_end_drop_ws(a: Seq<char>, l: Seq<char>)
    requires
        l.len() > 0,
        l.last() == '\r',
        a == trim_start(l.drop_last()),
    ensures
        trim(l.drop_last()) == trim(l),
{
    lemma_trim_start_push(l.drop_last(), '\r');
    assert(l.drop_last().push('\r') =~= l);
    let b = trim_start(l);
    if a.len() == 0 {
        assert(is_ws('\r'));
        assert(seq!['\r'].drop_first() =~= Seq::<char>::empty());
        assert(trim_start(seq!['\r']) == trim_start(Seq::<char>::empty()));
        assert(trim_end(b) == trim_end(Seq::<char>::empty()));
    } else {
        assert(b == a.push('\r'));
        assert(b.drop_last() =~= a);
    }
}

pub proof fn lemma_split_no_sep(s: Seq<char>, c: char)
    requires
        forall|i: int| 0 <= i < s.len() ==> s[i] != c,
    ensures
        split_on(s, c) == seq![s],
    decreases s.len(),
{
    if s.len() > 0 {
        lemma_split_no_sep(s.drop_last(), c);
        assert(s.drop_last().push(s.last()) =~= s);
        assert(seq![s.drop_last()].update(0, s.drop_last().push(s.last())) =~= seq![s]);
    } else {
        assert(s =~= Seq::<char>::empty());
    }
}

pub proof fn lemma_split_concat(a: Seq<char>, b: Seq<char>, c: char)
    ensures
        split_on(a + seq![c] + b, c) == split_on(a, c) + split_on(b, c),
    decreases b.len(),
{
    lemma_split_on_nonempty(b, c);
    if b.len() == 0 {
        assert(a + seq![c] + b =~= a.push(c));
        assert((a + seq![c] + b).drop_last() =~= a);
    } else {
        let bp = b.drop_last();
        lemma_split_concat(a, bp, c);
        lemma_split_on_nonempty(bp, c);
        lemma_split_on_nonempty(a, c);
        assert((a + seq![c] + b).drop_last() =~= a + seq![c] + bp);
        assert((a + seq![c] + b).last() == b.last());
        let x = split_on(a, c);
        let y = split_on(bp, c);
        if b.last() == c {
            assert((x + y).push(Seq::<char>::empty()) =~= x + y.push(Seq::<char>::empty()));
        } else {
            assert((x + y).update((x + y).len() - 1, (x + y).last().push(b.last())) =~= x + y.update(
                y.len() - 1,
                y.last().push(b.last()),
            ));
        }
    }
}

// ---------------------------------------------------------------- trimming facts

pub open spec fn all_ws(s: Seq<char>) -> bool {
    forall|i: int| 0 <= i < s.len() ==> is_ws(#[trigger] s[i])
}

pub proof fn lemma_trim_start_ws_prefix(w: Seq<char>, x: Seq<char>)
    requires
        all_ws(w),
    ensures
        trim_start(w + x) == trim_start(x),
    decreases w.len(),
{
    if w.len() > 0 {
        assert((w + x)[0] == w[0]);
        assert((w + x).drop_first() =~= w.drop_first() + x);
        assert(all_ws(w.drop_first())) by {
            assert forall|i: int| 0 <= i < w.drop_first().len() implies is_ws(
                #[trigger] w.drop_first()[i],
            ) by {
                assert(w.drop_first()[i] == w[i + 1]);
            }
        }
        lemma_trim_start_ws_prefix(w.drop_first(), x);
    } else {
        assert(w + x =~= x);
    }
}

/// Trimming the end of `a + [c] + v` with `c` not whitespace only trims `v`.
pub proof fn lemma_trim_end_after(a: Seq<char>, c: char, v: Seq<char>)
    requires
        !is_ws(c),
    ensures
        trim_end(a + seq![c] + v) == a + seq![c] + trim_end(v),
    decreases v.len(),
{
    let u = a + seq![c] + v;
    if v.len() == 0 {
        assert(u =~= a + seq![c] + v);
        assert(u.last() == c);
        assert(a + seq![c] + trim_end(v) =~= u);
    } else {
        assert(u.last() == v.last());
        assert(u.drop_last() =~= a + seq![c] + v.drop_last());
        lemma_trim_end_after(a, c, v.drop_last());
        if !is_ws(v.last()) {
            assert(trim_end(v) == v);
        }
    }
}

/// `trim_end` of a sequence with one more character in front.
pub proof fn lemma_trim_end_cons(c: char, w: Seq<char>)
    ensures
        trim_end(seq![c] + w) == if is_ws(c) && trim_end(w).len() == 0 {
            Seq::<char>::empty()
        } else {
            seq![c] + trim_end(w)
        },
    decreases w.len(),
{
    let u = seq![c] + w;
    if w.len() == 0 {
        assert(u =~= seq![c]);
        assert(u.drop_last() =~= Seq::<char>::empty());
        assert(trim_end(w) == w);
        assert(seq![c] + trim_end(w) =~= u);
        assert(u.last() == c);
        if is_ws(c) {
            assert(trim_end(u) == trim_end(u.drop_last()));
            assert(trim_end(Seq::<char>::empty()) =~= Seq::<char>::empty());
        }
    } else {
        assert(u.last() == w.last());
        assert(u.drop_last() =~= seq![c] + w.drop_last());
        lemma_trim_end_cons(c, w.drop_last());
        if !is_ws(w.last()) {
            assert(trim_end(w) == w);
            assert(seq![c] + trim_end(w) =~= u);
        }
    }
}

pub proof fn lemma_trim_end_idem(x: Seq<char>)
    ensures
        trim_end(x).len() == 0 || !is_ws(trim_end(x).last()),
        trim_end(trim_end(x)) == trim_end(x),
    decreases x.len(),
{
    if x.len() > 0 && is_ws(x.last()) {
        lemma_trim_end_idem(x.drop_last());
    }
}

pub proof fn lemma_trim_commute(v: Seq<char>)
    ensures
        trim_start(trim_end(v)) == trim_end(trim_start(v)),
    decreases v.len(),
{
    if v.len() > 0 {
        let v1 = v.drop_first();
        assert(seq![v[0]] + v1 =~= v);
        lemma_trim_end_cons(v[0], v1);
        if is_ws(v[0]) {
            lemma_trim_commute(v1);
            if trim_end(v1).len() > 0 {
                let y = seq![v[0]] + trim_end(v1);
                assert(y.drop_first() =~= trim_end(v1));
            }
        } else {
            let y = seq![v[0]] + trim_end(v1);
            assert(y[0] == v[0]);
        }
    }
}

/// Trimming a value whose end is already trimmed.
pub proof fn lemma_trim_of_trim_end(v: Seq<char>)
    ensures
        trim(trim_end(v)) == trim(v),
{
    lemma_trim_commute(v);
    lemma_trim_end_idem(trim_start(v));
}

/// `s` is `trim(s)` with whitespace on both sides.
pub proof fn lemma_trim_decompose(s: Seq<char>)
    ensures
        s.len() >= trim_start(s).len(),
        all_ws(s.take(s.len() - trim_start(s).len())),
        s == s.take(s.len() - trim_start(s).len()) + trim_start(s),
        trim_start(s).len() >= trim(s).len(),
        all_ws(trim_start(s).skip(trim(s).len() as int)),
        trim_start(s) == trim(s) + trim_start(s).skip(trim(s).len() as int),
{
    lemma_start_decompose(s);
    lemma_end_decompose(trim_start(s));
}

proof fn lemma_start_decompose(s: Seq<char>)
    ensures
        s.len() >= trim_start(s).len(),
        all_ws(s.take(s.len() - trim_start(s).len())),
        s == s.take(s.len() - trim_start(s).len()) + trim_start(s),
    decreases s.len(),
{
    if s.len() > 0 && is_ws(s[0]) {
        let t = s.drop_first();
        lemma_start_decompose(t);
        let n = t.len() - trim_start(t).len();
        assert(s.take(n + 1) =~= seq![s[0]] + t.take(n));
        assert forall|i: int| 0 <= i < n + 1 implies is_ws(#[trigger] s.take(n + 1)[i]) by {
            if i > 0 {
                assert(s.take(n + 1)[i] == t.take(n)[i - 1]);
            }
        }
        assert(trim_start(s) == trim_start(t));
        assert(t =~= t.take(n) + trim_start(t));
        assert(s =~= seq![s[0]] + t);
        assert(s =~= s.take(n + 1) + trim_start(s));
    } else {
        assert(s.take(0) =~= Seq::<char>::empty());
        assert(s =~= s.take(0) + s);
    }
}

proof fn lemma_end_decompose(s: Seq<char>)
    ensures
        s.len() >= trim_end(s).len(),
        all_ws(s.skip(trim_end(s).len() as int)),
        s == trim_end(s) + s.skip(trim_end(s).len() as int),
        trim_end(s) == s.take(trim_end(s).len() as int),
    decreases s.len(),
{
    if s.len() > 0 && is_ws(s.last()) {
        let t = s.drop_last();
        lemma_end_decompose(t);
        let n = trim_end(t).len();
        assert(s.skip(n as int) =~= t.skip(n as int).push(s.last()));
        assert forall|i: int| 0 <= i < s.skip(n as int).len() implies is_ws(
            #[trigger] s.skip(n as int)[i],
        ) by {
            if i < t.skip(n as int).len() {
                assert(s.skip(n as int)[i] == t.skip(n as int)[i]);
            }
        }
        assert(s =~= trim_end(s) + s.skip(n as int));
        assert(trim_end(s) =~= s.take(n as int));
    } else {
        assert(s.skip(s.len() as int) =~= Seq::<char>::empty());
        assert(s =~= s + s.skip(s.len() as int));
        assert(s.take(s.len() as int) =~= s);
    }
}

pub proof fn lemma_trim_ends_not_ws(s: Seq<char>)
    ensures
        trim(s).len() > 0 ==> !is_ws(trim(s)[0]) && !is_ws(trim(s).last()),
{
    let ts = trim_start(s);
    lemma_trim_start_first(s);
    lemma_trim_end_idem(ts);
    if trim(s).len() > 0 {
        lemma_end_decompose(ts);
        assert(trim(s)[0] == ts[0]);
    }
}

proof fn lemma_trim_start_first(s: Seq<char>)
    ensures
        trim_start(s).len() == 0 || !is_ws(trim_start(s)[0]),
    decreases s.len(),
{
    if s.len() > 0 && is_ws(s[0]) {
        lemma_trim_start_first(s.drop_first());
    }
}

// ---------------------------------------------------------------- exec

/// Appends one character to a string (std `String::push`).
#[verifier::external_body]
fn push_char(s: &mut String, c: char)
    ensures
        final(s)@ == old(s)@.push(c),
{
    s.push(c);
}

/// The characters of a string slice, in order.
pub fn chars_of(s: &str) -> (out: Vec<char>)
    ensures
        out@ == s@,
{
    let mut out: Vec<char> = Vec::new();
    for c in it: s.chars()
        invariant
            out@ == it.seq().take(it.index() as int),
            it.seq() == s@,
    {
        out.push(c);
    }
    out
}

/// A string made of the given characters.
pub fn string_of(v: &Vec<char>) -> (s: String)
    ensures
        s@ == v@,
{
    let mut s = String::new();
    let mut i: usize = 0;
    while i < v.len()
        invariant
            i <= v.len(),
            s@ == v@.take(i as int),
        decreases v.len() - i,
    {
        push_char(&mut s, v[i]);
        assert(v@.take(i as int).push(v@[i as int]) =~= v@.take(i + 1));
        i += 1;
    }
    assert(v@.take(v.len() as int) =~= v@);
    s
}

/// Appends all of `src` to `dst`.
pub fn extend_chars(dst: &mut Vec<char>, src: &Vec<char>)
    ensures
        final(dst)@ == old(dst)@ + src@,
{
    let ghost d0 = dst@;
    let mut i: usize = 0;
    while i < src.len()
        invariant
            i <= src.len(),
            dst@ == d0 + src@.take(i as int),
        decreases src.len() - i,
    {
        dst.push(src[i]);
        assert(src@.take(i as int).push(src@[i as int]) =~= src@.take(i + 1));
        i += 1;
    }
    assert(src@.take(src.len() as int) =~= src@);
}

/// Concatenation of two character vectors.
pub fn concat_chars(a: &Vec<char>, b: &Vec<char>) -> (out: Vec<char>)
    ensures
        out@ == a@ + b@,
{
    let mut out = a.clone();
    assert(out@ == a@);
    extend_chars(&mut out, b);
    out
}

/// Character subrange `[from, to)`.
pub fn slice_chars(v: &Vec<char>, from: usize, to: usize) -> (out: Vec<char>)
    requires
        from <= to <= v.len(),
    ensures
        out@ == v@.subrange(from as int, to as int),
{
    let mut out: Vec<char> = Vec::new();
    let mut i = from;
    while i < to
        invariant
            from <= i <= to <= v.len(),
            out@ == v@.subrange(from as int, i as int),
        decreases to - i,
    {
        out.push(v[i]);
        assert(v@.subrange(from as int, i as int).push(v@[i as int]) =~= v@.subrange(
            from as int,
            i + 1,
        ));
        i += 1;
    }
    out
}

/// Whether two character vectors hold the same characters.
pub fn eq_chars(a: &Vec<char>, b: &Vec<char>) -> (r: bool)
    ensures
        r == (a@ == b@),
{
    if a.len() != b.len() {
        return false;
    }
    let mut i: usize = 0;
    while i < a.len()
        invariant
            i <= a.len() == b.len(),
            forall|j: int| 0 <= j < i ==> a@[j] == b@[j],
        decreases a.len() - i,
    {
        if a[i] != b[i] {
            return false;
        }
        i += 1;
    }
    assert(a@ =~= b@);
    true
}

/// `char::is_whitespace`.
pub fn is_ws_char(c: char) -> (r: bool)
    ensures
        r == is_ws(c),
{
    let u = c as u32;
    (0x09 <= u && u <= 0x0D) || u == 0x20 || u == 0x85 || u == 0xA0 || u == 0x1680 || (0x2000
        <= u && u <= 0x200A) || u == 0x2028 || u == 0x2029 || u == 0x202F || u == 0x205F || u
        == 0x3000
}

/// `str::trim` on characters.
pub fn trim_chars(v: &Vec<char>) -> (out: Vec<char>)
    ensures
        out@ == trim(v@),
{
    let n = v.len();
    let mut k: usize = 0;
    while k < n && is_ws_char(v[k])
        invariant
            k <= n == v.len(),
            forall|j: int| 0 <= j < k ==> is_ws(#[trigger] v@[j]),
        decreases n - k,
    {
        k += 1;
    }
    proof {
        lemma_trim_start_skip(v@, k as int);
    }
    let mut m: usize = n;
    while m > k && is_ws_char(v[m - 1])
        invariant
            k <= m <= n == v.len(),
            forall|j: int| m <= j < n ==> is_ws(#[trigger] v@[j]),
        decreases m,
    {
        m -= 1;
    }
    let ghost t = v@.skip(k as int);
    proof {
        assert forall|j: int| m - k <= j < t.len() implies is_ws(#[trigger] t[j]) by {
            assert(t[j] == v@[j + k]);
        }
        if m > k {
            assert(t[m - k - 1] == v@[m - 1]);
        }
        lemma_trim_end_take(t, m - k);
        assert(t.take(m - k) =~= v@.subrange(k as int, m as int));
    }
    slice_chars(v, k, m)
}

/// First index of `c` in `v`.
pub fn find_char_exec(v: &Vec<char>, c: char) -> (r: Option<usize>)
    ensures
        r matches Some(k) ==> find_char(v@, c) == Some(k as int),
        r is None ==> find_char(v@, c) is None,
{
    let mut i: usize = 0;
    while i < v.len()
        invariant
            i <= v.len(),
            forall|j: int| 0 <= j < i ==> #[trigger] v@[j] != c,
        decreases v.len() - i,
    {
        if v[i] == c {
            proof {
                lemma_find_char_at(v@, c, i as int);
            }
            return Some(i);
        }
        i += 1;
    }
    proof {
        lemma_find_char_none(v@, c);
    }
    None
}

/// `split_once` on characters.
pub fn split_once_chars(v: &Vec<char>, c: char) -> (r: Option<(Vec<char>, Vec<char>)>)
    ensures
        r matches Some(p) ==> split_once(v@, c) == Some((p.0@, p.1@)),
        r is None ==> split_once(v@, c) is None,
{
    match find_char_exec(v, c) {
        Some(k) => {
            proof {
                lemma_find_char_props(v@, c);
            }
            let a = slice_chars(v, 0, k);
            let b = slice_chars(v, k + 1, v.len());
            assert(a@ =~= v@.take(k as int));
            assert(b@ =~= v@.skip(k + 1));
            Some((a, b))
        },
        None => None,
    }
}

/// `str::split` with a single-character separator, on characters.
pub fn split_chars(v: &Vec<char>, c: char) -> (out: Vec<Vec<char>>)
    ensures
        views(out@) == split_on(v@, c),
{
    let mut done: Vec<Vec<char>> = Vec::new();
    let mut cur: Vec<char> = Vec::new();
    let mut i: usize = 0;
    while i < v.len()
        invariant
            i <= v.len(),
            split_on(v@.take(i as int), c) == views(done@).push(cur@),
        decreases v.len() - i,
    {
        let ghost pre = v@.take(i as int);
        assert(v@.take(i + 1).drop_last() =~= pre);
        if v[i] == c {
            done.push(cur);
            cur = Vec::new();
            assert(views(done@) =~= split_on(pre, c));
        } else {
            cur.push(v[i]);
        }
        proof {
            assert(split_on(v@.take(i + 1), c) =~= views(done@).push(cur@));
        }
        i += 1;
    }
    assert(v@.take(v.len() as int) =~= v@);
    done.push(cur);
    done
}

/// `str::lines` on characters.
pub fn lines_chars(v: &Vec<char>) -> (out: Vec<Vec<char>>)
    ensures
        views(out@) == lines(v@),
{
    let pieces = split_chars(v, '\n');
    let ghost p = split_on(v@, '\n');
    proof {
        lemma_split_on_nonempty(v@, '\n');
    }
    let last = pieces.len() - 1;
    let mut out: Vec<Vec<char>> = Vec::new();
    let mut j: usize = 0;
    while j < last
        invariant
            j <= last,
            last + 1 == pieces.len(),
            p == views(pieces@),
            views(out@) == p.take(j as int).map_values(|l: Seq<char>| strip_cr(l)),
        decreases last - j,
    {
        let l = &pieces[j];
        let n = l.len();
        let s = if n > 0 && l[n - 1] == '\r' {
            slice_chars(l, 0, n - 1)
        } else {
            l.clone()
        };
        assert(s@ == strip_cr(p[j as int]));
        out.push(s);
        assert(p.take(j + 1).map_values(|l: Seq<char>| strip_cr(l)) =~= p.take(j as int).map_values(
            |l: Seq<char>| strip_cr(l),
        ).push(strip_cr(p[j as int])));
        j += 1;
    }
    if pieces[last].len() > 0 {
        out.push(pieces[last].clone());
    }
    out
}

pub proof fn lemma_split_on_nonempty(s: Seq<char>, c: char)
    ensures
        split_on(s, c).len() >= 1,
    decreases s.len(),
{
    if s.len() > 0 {
        lemma_split_on_nonempty(s.drop_last(), c);
    }
}


/// `str::split(char::is_whitespace)` on characters.
pub fn split_ws_chars(v: &Vec<char>) -> (out: Vec<Vec<char>>)
    ensures
        views(out@) == split_ws(v@),
{
    let mut done: Vec<Vec<char>> = Vec::new();
    let mut cur: Vec<char> = Vec::new();
    let mut i: usize = 0;
    while i < v.len()
        invariant
            i <= v.len(),
            split_ws(v@.take(i as int)) == views(done@).push(cur@),
        decreases v.len() - i,
    {
        let ghost pre = v@.take(i as int);
        assert(v@.take(i + 1).drop_last() =~= pre);
        if is_ws_char(v[i]) {
            done.push(cur);
            cur = Vec::new();
            assert(views(done@) =~= split_ws(pre));
        } else {
            cur.push(v[i]);
        }
        proof {
            assert(split_ws(v@.take(i + 1)) =~= views(done@).push(cur@));
        }
        i += 1;
    }
    assert(v@.take(v.len() as int) =~= v@);
    done.push(cur);
    done
}

/// The non-empty pieces, in order.
pub fn nonempty_parts_exec(ps: &Vec<Vec<char>>) -> (out: Vec<Vec<char>>)
    ensures
        views(out@) == nonempty_parts(views(ps@)),
{
    let ghost all = views(ps@);
    let mut out: Vec<Vec<char>> = Vec::new();
    let mut i: usize = 0;
    while i < ps.len()
        invariant
            i <= ps.len(),
            all == views(ps@),
            views(out@) == nonempty_parts(all.take(i as int)),
        decreases ps.len() - i,
    {
        assert(all.take(i + 1).drop_last() =~= all.take(i as int));
        assert(all.take(i + 1).last() == ps@[i as int]@);
        if ps[i].len() > 0 {
            out.push(ps[i].clone());
            assert(views(out@) =~= nonempty_parts(all.take(i + 1)));
        }
        i += 1;
    }
    assert(all.take(ps.len() as int) =~= all);
    out
}

/// Whether `v` starts with `p` at index `at`.
pub fn matches_at(v: &Vec<char>, at: usize, p: &Vec<char>) -> (r: bool)
    requires
        at <= v.len(),
    ensures
        r == has_prefix(v@.skip(at as int), p@),
{
    if v.len() - at < p.len() {
        return false;
    }
    let mut j: usize = 0;
    while j < p.len()
        invariant
            j <= p.len(),
            at + p.len() <= v.len(),
            forall|k: int| 0 <= k < j ==> v@[at + k] == p@[k],
        decreases p.len() - j,
    {
        if v[at + j] != p[j] {
            assert(v@.skip(at as int).take(p.len() as int)[j as int] == v@[at + j]);
            return false;
        }
        j += 1;
    }
    assert(v@.skip(at as int).take(p.len() as int) =~= p@);
    true
}

/// Length of the prefix removed by `strip_prefixes`.
pub fn strip_prefixes_exec(v: &Vec<char>, p: &Vec<char>) -> (k: usize)
    requires
        p.len() > 0,
    ensures
        k <= v.len(),
        strip_prefixes(v@, p@) == v@.skip(k as int),
{
    let mut k: usize = 0;
    assert(v@.skip(0) =~= v@);
    while k <= v.len() && matches_at(v, k, p)
        invariant
            k <= v.len(),
            p.len() > 0,
            strip_prefixes(v@, p@) == strip_prefixes(v@.skip(k as int), p@),
        decreases v.len() - k,
    {
        assert(v@.skip(k as int).skip(p.len() as int) =~= v@.skip(k + p.len()));
        k = k + p.len();
    }
    k
}

/// `str::trim_end_matches(c)` on characters.
pub fn strip_suffix_chars_exec(v: &Vec<char>, c: char) -> (out: Vec<char>)
    ensures
        out@ == strip_suffix_chars(v@, c),
{
    let mut m = v.len();
    assert(v@.take(m as int) =~= v@);
    while m > 0 && v[m - 1] == c
        invariant
            m <= v.len(),
            strip_suffix_chars(v@, c) == strip_suffix_chars(v@.take(m as int), c),
        decreases m,
    {
        assert(v@.take(m as int).drop_last() =~= v@.take(m - 1));
        m -= 1;
    }
    slice_chars(v, 0, m)
}

proof fn lemma_find_sub_at(s: Seq<char>, p: Seq<char>, k: int)
    requires
        p.len() > 0,
        0 <= k,
        k + p.len() <= s.len(),
        s.skip(k).take(p.len() as int) == p,
        forall|j: int| 0 <= j < k ==> !has_prefix(#[trigger] s.skip(j), p),
    ensures
        find_sub(s, p) == Some(k),
    decreases k,
{
    if k == 0 {
        assert(s.skip(0) =~= s);
    } else {
        assert(s.skip(0) =~= s);
        assert(!has_prefix(s.skip(0), p));
        let t = s.drop_first();
        assert forall|j: int| 0 <= j < k - 1 implies !has_prefix(#[trigger] t.skip(j), p) by {
            assert(t.skip(j) =~= s.skip(j + 1));
        }
        assert(t.skip(k - 1) =~= s.skip(k));
        lemma_find_sub_at(t, p, k - 1);
    }
}

proof fn lemma_find_sub_none(s: Seq<char>, p: Seq<char>)
    requires
        p.len() > 0,
        forall|j: int| 0 <= j <= s.len() ==> !has_prefix(#[trigger] s.skip(j), p),
    ensures
        find_sub(s, p) is None,
    decreases s.len(),
{
    assert(s.skip(0) =~= s);
    if s.len() >= p.len() && s.len() > 0 {
        let t = s.drop_first();
        assert forall|j: int| 0 <= j <= t.len() implies !has_prefix(#[trigger] t.skip(j), p) by {
            assert(t.skip(j) =~= s.skip(j + 1));
        }
        lemma_find_sub_none(t, p);
    }
}

/// First occurrence of the non-empty pattern `p` in `v` at or after `from`.
pub fn find_sub_exec(v: &Vec<char>, from: usize, p: &Vec<char>) -> (r: Option<usize>)
    requires
        p.len() > 0,
        from <= v.len(),
    ensures
        r matches Some(k) ==> from <= k && find_sub(v@.skip(from as int), p@) == Some(k - from),
        r is None ==> find_sub(v@.skip(from as int), p@) is None,
{
    let ghost s = v@.skip(from as int);
    let mut i = from;
    while v.len() - i >= p.len()
        invariant
            from <= i,
            i <= v.len(),
            p.len() > 0,
            s == v@.skip(from as int),
            forall|j: int| 0 <= j < i - from ==> !has_prefix(#[trigger] s.skip(j), p@),
        decreases v.len() - i,
    {
        assert(s.skip(i - from) =~= v@.skip(i as int));
        if matches_at(v, i, p) {
            proof {
                lemma_find_sub_at(s, p@, i - from);
            }
            return Some(i);
        }
        i += 1;
    }
    proof {
        assert forall|j: int| 0 <= j <= s.len() implies !has_prefix(#[trigger] s.skip(j), p@) by {
            if j >= i - from {
                assert(s.skip(j).len() < p.len());
            }
        }
        lemma_find_sub_none(s, p@);
    }
    None
}

/// `s.split(p).nth(1)` on characters.
pub fn second_piece_exec(v: &Vec<char>, p: &Vec<char>) -> (r: Option<Vec<char>>)
    requires
        p.len() > 0,
    ensures
        r matches Some(x) ==> second_piece(v@, p@) == Some(x@),
        r is None ==> second_piece(v@, p@) is None,
{
    assert(v@.skip(0) =~= v@);
    match find_sub_exec(v, 0, p) {
        None => None,
        Some(i) => {
            proof {
                assert(find_sub(v@, p@) == Some(i as int));
                lemma_find_sub_bounds(v@, p@);
            }
            let _n = v.len();
            let start = i + p.len();
            let ghost rest = v@.skip(i + p.len());
            match find_sub_exec(v, start, p) {
                Some(j) => {
                    proof {
                        assert(find_sub(rest, p@) == Some(j - start));
                        lemma_find_sub_bounds(rest, p@);
                    }
                    let _m = v.len();
                    let x = slice_chars(v, start, j);
                    assert(x@ =~= rest.take(j - start));
                    Some(x)
                },
                None => {
                    let x = slice_chars(v, start, v.len());
                    assert(x@ =~= rest);
                    Some(x)
                },
            }
        },
    }
}

pub proof fn lemma_find_sub_bounds(s: Seq<char>, p: Seq<char>)
    ensures
        find_sub(s, p) is Some ==> 0 <= find_sub(s, p).unwrap() && find_sub(s, p).unwrap() + p.len()
            <= s.len(),
    decreases s.len(),
{
    if s.len() >= p.len() && s.take(p.len() as int) != p && s.len() > 0 {
        lemma_find_sub_bounds(s.drop_first(), p);
    }
}

/// `str::to_ascii_lowercase` on characters.
pub fn ascii_lower_chars(v: &Vec<char>) -> (out: Vec<char>)
    ensures
        out@ == ascii_lower_str(v@),
{
    let mut out: Vec<char> = Vec::new();
    let mut i: usize = 0;
    while i < v.len()
        invariant
            i <= v.len(),
            out@ == ascii_lower_str(v@.take(i as int)),
        decreases v.len() - i,
    {
        let c = v[i];
        let l = if 'A' <= c && c <= 'Z' {
            ((c as u8) + 32) as char
        } else {
            c
        };
        out.push(l);
        assert(ascii_lower_str(v@.take(i + 1)) =~= ascii_lower_str(v@.take(i as int)).push(
            ascii_lower(c),
        ));
        i += 1;
    }
    assert(v@.take(v.len() as int) =~= v@);
    out
}

/// An owned copy of a string slice.
pub fn owned(s: &str) -> (r: String)
    ensures
        r@ == s@,
{
    s.to_owned()
}
/// `w` is made of ASCII letters and `-` only.
pub open spec fn plain_word(w: Seq<char>) -> bool
    decreases w.len(),
{
    if w.len() == 0 {
        true
    } else {
        ('a' <= w[0] <= 'z' || 'A' <= w[0] <= 'Z' || w[0] == '-') && plain_word(w.drop_first())
    }
}

pub proof fn lemma_plain_word(w: Seq<char>)
    requires
        plain_word(w),
    ensures
        forall|i: int| 0 <= i < w.len() ==> ('a' <= #[trigger] w[i] <= 'z' || 'A' <= w[i] <= 'Z' || w[i] == '-'),
    decreases w.len(),
{
    if w.len() > 0 {
        lemma_plain_word(w.drop_first());
        assert forall|i: int| 0 <= i < w.len() implies ('a' <= #[trigger] w[i] <= 'z' || 'A' <= w[i] <= 'Z' || w[i]
            == '-') by {
            if i > 0 {
                assert(w[i] == w.drop_first()[i - 1]);
            }
        }
    }
}

} // verus!
