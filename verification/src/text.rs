//! Character-level helpers on which the rest of the library is built.
//!
//! Strings are reasoned about through their view, the sequence of their
//! characters. Each helper states its result over a spec function on
//! `Seq<char>`.
use vstd::prelude::*;

verus! {

/// `String::push` appends one character.
pub assume_specification[ String::push ](s: &mut String, ch: char)
    ensures
        final(s)@ == old(s)@.push(ch),
;

// ---------------------------------------------------------------------------
// Specifications
// ---------------------------------------------------------------------------

/// Unicode `White_Space`, the set that `char::is_whitespace` tests.
pub open spec fn is_ws(c: char) -> bool {
    ||| ('\u{9}' <= c && c <= '\u{d}')
    ||| c == ' '
    ||| c == '\u{85}'
    ||| c == '\u{a0}'
    ||| c == '\u{1680}'
    ||| ('\u{2000}' <= c && c <= '\u{200a}')
    ||| c == '\u{2028}'
    ||| c == '\u{2029}'
    ||| c == '\u{202f}'
    ||| c == '\u{205f}'
    ||| c == '\u{3000}'
}

/// `s` without its leading whitespace.
pub open spec fn trim_start(s: Seq<char>) -> Seq<char>
    decreases s.len(),
{
    if s.len() > 0 && is_ws(s[0]) {
        trim_start(s.drop_first())
    } else {
        s
    }
}

/// `s` without its trailing whitespace.
pub open spec fn trim_end(s: Seq<char>) -> Seq<char>
    decreases s.len(),
{
    if s.len() > 0 && is_ws(s.last()) {
        trim_end(s.drop_last())
    } else {
        s
    }
}

/// `s` without leading and trailing whitespace (`str::trim`).
pub open spec fn trim(s: Seq<char>) -> Seq<char> {
    trim_end(trim_start(s))
}

/// The pieces of `s` between occurrences of `sep` (`str::split` on a char).
pub open spec fn split(s: Seq<char>, sep: char) -> Seq<Seq<char>>
    decreases s.len(),
{
    if s.len() == 0 {
        seq![Seq::<char>::empty()]
    } else {
        let r = split(s.drop_last(), sep);
        if s.last() == sep {
            r.push(Seq::<char>::empty())
        } else {
            r.update(r.len() - 1, r.last().push(s.last()))
        }
    }
}

/// `t` occurs in `s` at position `i`.
pub open spec fn occurs_at(s: Seq<char>, t: Seq<char>, i: int) -> bool {
    0 <= i && i + t.len() <= s.len() && s.subrange(i, i + t.len()) == t
}

/// `i` is the first position where `t` occurs in `s`.
pub open spec fn is_first_occurrence(s: Seq<char>, t: Seq<char>, i: int) -> bool {
    occurs_at(s, t, i) && forall|k: int| 0 <= k < i ==> !occurs_at(s, t, k)
}

/// The first position where `t` occurs in `s` (`str::find`).
pub open spec fn first_occurrence(s: Seq<char>, t: Seq<char>) -> Option<int> {
    if exists|i: int| is_first_occurrence(s, t, i) {
        Some(choose|i: int| is_first_occurrence(s, t, i))
    } else {
        None
    }
}

/// `t` occurs somewhere in `s` (`str::contains` on a pattern string).
pub open spec fn contains_seq(s: Seq<char>, t: Seq<char>) -> bool {
    exists|i: int| occurs_at(s, t, i)
}

/// `s` starts with `t`.
pub open spec fn starts_with(s: Seq<char>, t: Seq<char>) -> bool {
    t.len() <= s.len() && s.subrange(0, t.len() as int) == t
}

/// `s` ends with `t`.
pub open spec fn ends_with(s: Seq<char>, t: Seq<char>) -> bool {
    t.len() <= s.len() && s.subrange(s.len() - t.len(), s.len() as int) == t
}

/// `s` with every occurrence of `c` replaced by `r` (`str::replace` on a char).
pub open spec fn replace_char(s: Seq<char>, c: char, r: Seq<char>) -> Seq<char>
    decreases s.len(),
{
    if s.len() == 0 {
        s
    } else {
        replace_char(s.drop_last(), c, r) + if s.last() == c {
            r
        } else {
            seq![s.last()]
        }
    }
}

pub open spec fn is_ascii_lower(c: char) -> bool {
    'a' <= c && c <= 'z'
}

pub open spec fn is_ascii_upper(c: char) -> bool {
    'A' <= c && c <= 'Z'
}

pub open spec fn is_ascii_alpha(c: char) -> bool {
    is_ascii_lower(c) || is_ascii_upper(c)
}

pub open spec fn is_ascii_digit(c: char) -> bool {
    '0' <= c && c <= '9'
}

pub open spec fn is_ascii_alnum(c: char) -> bool {
    is_ascii_alpha(c) || is_ascii_digit(c)
}

/// `char::to_ascii_uppercase`.
pub open spec fn upper_char(c: char) -> char {
    if is_ascii_lower(c) {
        ((c as int) - 32) as char
    } else {
        c
    }
}

/// `char::to_ascii_lowercase`.
pub open spec fn lower_char(c: char) -> char {
    if is_ascii_upper(c) {
        ((c as int) + 32) as char
    } else {
        c
    }
}

/// `str::to_ascii_uppercase`.
pub open spec fn to_upper(s: Seq<char>) -> Seq<char> {
    s.map_values(|c: char| upper_char(c))
}

/// `str::eq_ignore_ascii_case`.
pub open spec fn eq_ignore_case(s: Seq<char>, t: Seq<char>) -> bool {
    s.len() == t.len() && forall|i: int| 0 <= i < s.len() ==> lower_char(s[i]) == lower_char(t[i])
}

/// `s` without the trailing copies of `c` (`str::trim_end_matches` on a char).
pub open spec fn trim_end_char(s: Seq<char>, c: char) -> Seq<char>
    decreases s.len(),
{
    if s.len() > 0 && s.last() == c {
        trim_end_char(s.drop_last(), c)
    } else {
        s
    }
}

/// The pieces of `parts` joined by `sep` (`[String]::join`).
pub open spec fn join(parts: Seq<Seq<char>>, sep: Seq<char>) -> Seq<char>
    decreases parts.len(),
{
    if parts.len() == 0 {
        Seq::empty()
    } else if parts.len() == 1 {
        parts[0]
    } else {
        join(parts.drop_last(), sep) + sep + parts.last()
    }
}

/// The views of a sequence of strings.
pub open spec fn views(v: Seq<String>) -> Seq<Seq<char>> {
    v.map_values(|s: String| s@)
}

// ---------------------------------------------------------------------------
// Lemmas
// ---------------------------------------------------------------------------

proof fn lemma_split_len(s: Seq<char>, sep: char)
    ensures
        split(s, sep).len() >= 1,
    decreases s.len(),
{
    if s.len() > 0 {
        lemma_split_len(s.drop_last(), sep);
    }
}

// ---------------------------------------------------------------------------
// Executable helpers
// ---------------------------------------------------------------------------

/// The characters of `s`, in order.
pub fn to_chars(s: &str) -> (v: Vec<char>)
    ensures
        v@ == s@,
{
    let n = s.unicode_len();
    let mut v: Vec<char> = Vec::new();
    let mut i: usize = 0;
    while i < n
        invariant
            n == s@.len(),
            i <= n,
            v@ == s@.subrange(0, i as int),
        decreases n - i,
    {
        v.push(s.get_char(i));
        i = i + 1;
    }
    v
}

/// The string made of the characters of `v`.
pub fn from_chars(v: &[char]) -> (s: String)
    ensures
        s@ == v@,
{
    let mut s = String::new();
    let mut i: usize = 0;
    while i < v.len()
        invariant
            i <= v.len(),
            s@ == v@.subrange(0, i as int),
        decreases v.len() - i,
    {
        s.push(v[i]);
        i = i + 1;
    }
    s
}

/// The characters `v[from..to]`.
pub fn sub_chars(v: &[char], from: usize, to: usize) -> (r: Vec<char>)
    requires
        from <= to <= v@.len(),
    ensures
        r@ == v@.subrange(from as int, to as int),
{
    let mut r: Vec<char> = Vec::new();
    let mut i: usize = from;
    while i < to
        invariant
            from <= i <= to <= v@.len(),
            r@ == v@.subrange(from as int, i as int),
        decreases to - i,
    {
        r.push(v[i]);
        i = i + 1;
    }
    r
}

/// The string `v[from..to]`.
pub fn sub_string(v: &[char], from: usize, to: usize) -> (r: String)
    requires
        from <= to <= v@.len(),
    ensures
        r@ == v@.subrange(from as int, to as int),
{
    let c = sub_chars(v, from, to);
    from_chars(c.as_slice())
}

/// Appends the string `t` to `s`.
pub fn push_str(s: &mut String, t: &str)
    ensures
        final(s)@ == old(s)@ + t@,
{
    let c = to_chars(t);
    let mut i: usize = 0;
    while i < c.len()
        invariant
            i <= c@.len(),
            c@ == t@,
            s@ == old(s)@ + t@.subrange(0, i as int),
        decreases c.len() - i,
    {
        s.push(c[i]);
        i = i + 1;
    }
    assert(t@.subrange(0, c@.len() as int) == t@);
}

/// The concatenation of `a` and `b`.
pub fn concat(a: &str, b: &str) -> (r: String)
    ensures
        r@ == a@ + b@,
{
    let mut r = String::new();
    push_str(&mut r, a);
    push_str(&mut r, b);
    assert(r@ == a@ + b@);
    r
}

/// `char::is_whitespace`.
pub fn is_whitespace(c: char) -> (b: bool)
    ensures
        b == is_ws(c),
{
    ('\u{9}' <= c && c <= '\u{d}') || c == ' ' || c == '\u{85}' || c == '\u{a0}' || c
        == '\u{1680}' || ('\u{2000}' <= c && c <= '\u{200a}') || c == '\u{2028}' || c == '\u{2029}'
        || c == '\u{202f}' || c == '\u{205f}' || c == '\u{3000}'
}

proof fn lemma_trim_start_step(s: Seq<char>, i: int)
    requires
        0 <= i < s.len(),
        is_ws(s[i]),
    ensures
        trim_start(s.subrange(i, s.len() as int)) == trim_start(s.subrange(i + 1, s.len() as int)),
{
    assert(s.subrange(i, s.len() as int).drop_first() =~= s.subrange(i + 1, s.len() as int));
}

proof fn lemma_trim_end_step(s: Seq<char>, i: int, j: int)
    requires
        0 <= i < j <= s.len(),
        is_ws(s[j - 1]),
    ensures
        trim_end(s.subrange(i, j)) == trim_end(s.subrange(i, j - 1)),
{
    assert(s.subrange(i, j).drop_last() =~= s.subrange(i, j - 1));
}

/// `s` without leading and trailing whitespace.
pub fn trim_str(s: &str) -> (r: String)
    ensures
        r@ == trim(s@),
{
    let c = to_chars(s);
    let n = c.len();
    let mut i: usize = 0;
    assert(s@.subrange(0, n as int) =~= s@);
    while i < n && is_whitespace(c[i])
        invariant
            c@ == s@,
            n == c@.len(),
            i <= n,
            trim_start(s@) == trim_start(s@.subrange(i as int, n as int)),
        decreases n - i,
    {
        proof {
            lemma_trim_start_step(s@, i as int);
        }
        i = i + 1;
    }
    assert(trim_start(s@.subrange(i as int, n as int)) == s@.subrange(i as int, n as int));
    let mut j: usize = n;
    while j > i && is_whitespace(c[j - 1])
        invariant
            c@ == s@,
            n == c@.len(),
            i <= j <= n,
            trim_end(s@.subrange(i as int, n as int)) == trim_end(s@.subrange(i as int, j as int)),
        decreases j,
    {
        proof {
            lemma_trim_end_step(s@, i as int, j as int);
        }
        j = j - 1;
    }
    assert(trim_end(s@.subrange(i as int, j as int)) == s@.subrange(i as int, j as int));
    sub_string(c.as_slice(), i, j)
}

/// `s` without trailing whitespace (`str::trim_end`).
pub fn trim_end_str(s: &str) -> (r: String)
    ensures
        r@ == trim_end(s@),
{
    let c = to_chars(s);
    let n = c.len();
    let mut j: usize = n;
    assert(s@.subrange(0, n as int) =~= s@);
    while j > 0 && is_whitespace(c[j - 1])
        invariant
            c@ == s@,
            n == c@.len(),
            j <= n,
            trim_end(s@) == trim_end(s@.subrange(0, j as int)),
        decreases j,
    {
        proof {
            lemma_trim_end_step(s@, 0, j as int);
        }
        j = j - 1;
    }
    assert(trim_end(s@.subrange(0, j as int)) == s@.subrange(0, j as int));
    sub_string(c.as_slice(), 0, j)
}

/// `s` is empty once trimmed (`s.trim().is_empty()`).
pub fn is_blank(s: &str) -> (b: bool)
    ensures
        b == (trim(s@).len() == 0),
{
    let t = trim_str(s);
    t.as_str().unicode_len() == 0
}

/// The pieces of `s` between occurrences of `sep`.
pub fn split_str(s: &str, sep: char) -> (r: Vec<String>)
    ensures
        views(r@) == split(s@, sep),
{
    let c = to_chars(s);
    let n = c.len();
    let mut pieces: Vec<String> = Vec::new();
    let mut cur: Vec<char> = Vec::new();
    let mut i: usize = 0;
    assert(s@.subrange(0, 0) =~= Seq::<char>::empty());
    assert(views(pieces@).push(cur@) =~= split(s@.subrange(0, 0), sep));
    while i < n
        invariant
            c@ == s@,
            n == c@.len(),
            i <= n,
            views(pieces@).push(cur@) == split(s@.subrange(0, i as int), sep),
        decreases n - i,
    {
        let ch = c[i];
        let ghost prev = s@.subrange(0, i as int);
        let ghost next = s@.subrange(0, i + 1);
        assert(next.drop_last() =~= prev);
        assert(next.last() == ch);
        if ch == sep {
            let piece = from_chars(cur.as_slice());
            pieces.push(piece);
            cur = Vec::new();
            assert(views(pieces@).push(cur@) =~= split(prev, sep).push(Seq::<char>::empty()));
        } else {
            cur.push(ch);
            assert(views(pieces@).push(cur@) =~= split(prev, sep).update(
                split(prev, sep).len() - 1,
                split(prev, sep).last().push(ch),
            ));
        }
        i = i + 1;
    }
    let last = from_chars(cur.as_slice());
    pieces.push(last);
    assert(s@.subrange(0, n as int) =~= s@);
    assert(views(pieces@) =~= split(s@, sep));
    pieces
}

/// `c` occurs in `s`.
pub fn contains_char(s: &str, c: char) -> (b: bool)
    ensures
        b == s@.contains(c),
{
    let v = to_chars(s);
    let mut i: usize = 0;
    while i < v.len()
        invariant
            v@ == s@,
            i <= v@.len(),
            forall|k: int| 0 <= k < i ==> v@[k] != c,
        decreases v.len() - i,
    {
        if v[i] == c {
            return true;
        }
        i = i + 1;
    }
    false
}

/// `t` occurs in `s` at position `i`.
pub fn occurs_at_exec(s: &[char], t: &[char], i: usize) -> (b: bool)
    ensures
        b == occurs_at(s@, t@, i as int),
{
    if i > s.len() || t.len() > s.len() - i {
        return false;
    }
    let mut k: usize = 0;
    let n = s.len();
    while k < t.len()
        invariant
            n == s@.len(),
            i + t@.len() <= s@.len(),
            k <= t@.len(),
            forall|m: int| 0 <= m < k ==> s@[i + m] == t@[m],
        decreases t.len() - k,
    {
        if s[i + k] != t[k] {
            assert(s@.subrange(i as int, i + t@.len())[k as int] != t@[k as int]);
            return false;
        }
        k = k + 1;
    }
    assert(s@.subrange(i as int, i + t@.len()) =~= t@);
    true
}

/// The first position at or after `from` where `t` occurs in `s`.
pub fn find_from(s: &[char], t: &[char], from: usize) -> (r: Option<usize>)
    requires
        from <= s@.len(),
    ensures
        match r {
            Some(i) => from <= i && occurs_at(s@, t@, i as int) && forall|k: int|
                from <= k < i ==> !occurs_at(s@, t@, k),
            None => forall|k: int| from <= k ==> !occurs_at(s@, t@, k),
        },
{
    let mut i: usize = from;
    loop
        invariant
            from <= i <= s@.len(),
            forall|k: int| from <= k < i ==> !occurs_at(s@, t@, k),
        decreases s@.len() - i,
    {
        if occurs_at_exec(s, t, i) {
            return Some(i);
        }
        if i == s.len() {
            assert forall|k: int| from <= k implies !occurs_at(s@, t@, k) by {
                if k > i {
                }
            }
            return None;
        }
        i = i + 1;
    }
}

/// The first position where `t` occurs in `s`.
pub fn find(s: &[char], t: &[char]) -> (r: Option<usize>)
    ensures
        match r {
            Some(i) => first_occurrence(s@, t@) == Some(i as int),
            None => first_occurrence(s@, t@) is None,
        },
{
    let r = find_from(s, t, 0);
    match r {
        Some(i) => {
            proof {
                assert(is_first_occurrence(s@, t@, i as int));
                let j = choose|j: int| is_first_occurrence(s@, t@, j);
                assert(j == i as int) by {
                    if j < i {
                    } else if j > i {
                    }
                }
            }
        },
        None => {
            assert(!exists|j: int| is_first_occurrence(s@, t@, j));
        },
    }
    r
}

/// `t` occurs in `s`.
pub fn contains_str(s: &str, t: &str) -> (b: bool)
    ensures
        b == contains_seq(s@, t@),
{
    let sv = to_chars(s);
    let tv = to_chars(t);
    let r = find_from(sv.as_slice(), tv.as_slice(), 0);
    match r {
        Some(i) => true,
        None => {
            assert forall|k: int| !occurs_at(s@, t@, k) by {
                if k < 0 {
                }
            }
            false
        },
    }
}

/// `s` starts with `t`.
pub fn starts_with_str(s: &str, t: &str) -> (b: bool)
    ensures
        b == starts_with(s@, t@),
{
    let sv = to_chars(s);
    let tv = to_chars(t);
    let b = occurs_at_exec(sv.as_slice(), tv.as_slice(), 0);
    b
}

/// `s` ends with `t`.
pub fn ends_with_str(s: &str, t: &str) -> (b: bool)
    ensures
        b == ends_with(s@, t@),
{
    let sv = to_chars(s);
    let tv = to_chars(t);
    if tv.len() > sv.len() {
        return false;
    }
    occurs_at_exec(sv.as_slice(), tv.as_slice(), sv.len() - tv.len())
}

/// `s` ends with `c`.
pub fn ends_with_char(s: &str, c: char) -> (b: bool)
    ensures
        b == (s@.len() > 0 && s@.last() == c),
{
    let n = s.unicode_len();
    n > 0 && s.get_char(n - 1) == c
}

/// `s` with every `c` replaced by `r`.
pub fn replace_char_str(s: &str, c: char, r: &str) -> (out: String)
    ensures
        out@ == replace_char(s@, c, r@),
{
    let v = to_chars(s);
    let mut out = String::new();
    let mut i: usize = 0;
    assert(s@.subrange(0, 0) =~= Seq::<char>::empty());
    while i < v.len()
        invariant
            v@ == s@,
            i <= v@.len(),
            out@ == replace_char(s@.subrange(0, i as int), c, r@),
        decreases v.len() - i,
    {
        let ghost prev = s@.subrange(0, i as int);
        assert(s@.subrange(0, i + 1).drop_last() =~= prev);
        if v[i] == c {
            push_str(&mut out, r);
        } else {
            out.push(v[i]);
            assert(out@ =~= replace_char(prev, c, r@) + seq![v@[i as int]]);
        }
        i = i + 1;
    }
    assert(s@.subrange(0, v@.len() as int) =~= s@);
    out
}

/// `char::to_ascii_uppercase`.
pub fn upper(c: char) -> (u: char)
    ensures
        u == upper_char(c),
{
    if 'a' <= c && c <= 'z' {
        let b: u8 = c as u8;
        let u: char = (b - 32) as char;
        assert(u == upper_char(c)) by {
            assert((c as int) < 256);
        }
        u
    } else {
        c
    }
}

/// `char::to_ascii_lowercase`.
pub fn lower(c: char) -> (u: char)
    ensures
        u == lower_char(c),
{
    if 'A' <= c && c <= 'Z' {
        let b: u8 = c as u8;
        let u: char = (b + 32) as char;
        assert(u == lower_char(c)) by {
            assert((c as int) < 256);
        }
        u
    } else {
        c
    }
}

/// `str::to_ascii_uppercase`.
pub fn to_upper_str(s: &str) -> (r: String)
    ensures
        r@ == to_upper(s@),
{
    let v = to_chars(s);
    let mut r = String::new();
    let mut i: usize = 0;
    while i < v.len()
        invariant
            v@ == s@,
            i <= v@.len(),
            r@ == to_upper(s@.subrange(0, i as int)),
        decreases v.len() - i,
    {
        r.push(upper(v[i]));
        assert(to_upper(s@.subrange(0, i + 1)) =~= to_upper(s@.subrange(0, i as int)).push(
            upper_char(v@[i as int]),
        ));
        i = i + 1;
    }
    assert(s@.subrange(0, v@.len() as int) =~= s@);
    r
}

/// `str::eq_ignore_ascii_case`.
pub fn eq_ignore_case_str(s: &str, t: &str) -> (b: bool)
    ensures
        b == eq_ignore_case(s@, t@),
{
    let sv = to_chars(s);
    let tv = to_chars(t);
    if sv.len() != tv.len() {
        return false;
    }
    let mut i: usize = 0;
    while i < sv.len()
        invariant
            sv@ == s@,
            tv@ == t@,
            sv@.len() == tv@.len(),
            i <= sv@.len(),
            forall|k: int| 0 <= k < i ==> lower_char(s@[k]) == lower_char(t@[k]),
        decreases sv.len() - i,
    {
        if lower(sv[i]) != lower(tv[i]) {
            return false;
        }
        i = i + 1;
    }
    true
}

/// `s` without trailing copies of `c`.
pub fn trim_end_char_str(s: &str, c: char) -> (r: String)
    ensures
        r@ == trim_end_char(s@, c),
{
    let v = to_chars(s);
    let mut j: usize = v.len();
    assert(s@.subrange(0, j as int) =~= s@);
    while j > 0 && v[j - 1] == c
        invariant
            v@ == s@,
            j <= v@.len(),
            trim_end_char(s@, c) == trim_end_char(s@.subrange(0, j as int), c),
        decreases j,
    {
        assert(s@.subrange(0, j as int).drop_last() =~= s@.subrange(0, j - 1));
        j = j - 1;
    }
    sub_string(v.as_slice(), 0, j)
}

/// The strings of `parts` joined by `sep`.
pub fn join_strs(parts: &Vec<String>, sep: &str) -> (r: String)
    ensures
        r@ == join(views(parts@), sep@),
{
    let mut r = String::new();
    let mut i: usize = 0;
    while i < parts.len()
        invariant
            i <= parts@.len(),
            r@ == join(views(parts@).subrange(0, i as int), sep@),
        decreases parts.len() - i,
    {
        let ghost prev = views(parts@).subrange(0, i as int);
        let ghost next = views(parts@).subrange(0, i + 1);
        assert(next.drop_last() =~= prev);
        if i > 0 {
            push_str(&mut r, sep);
        }
        push_str(&mut r, parts[i].as_str());
        assert(r@ =~= join(next, sep@));
        i = i + 1;
    }
    assert(views(parts@).subrange(0, parts@.len() as int) =~= views(parts@));
    r
}

/// Appends a copy of `s` to `v`.
pub fn push_clone(v: &mut Vec<String>, s: &String)
    ensures
        views(final(v)@) == views(old(v)@).push(s@),
{
    let c = s.clone();
    v.push(c);
    assert(views(v@) =~= views(old(v)@).push(s@));
}

/// `views(v)` from `a` to `j + 1` is the part up to `j` and the view of `v[j]`.
pub proof fn lemma_views_extend(v: Seq<String>, a: int, j: int)
    requires
        0 <= a <= j < v.len(),
    ensures
        views(v).subrange(a, j + 1) == views(v).subrange(a, j).push(v[j]@),
{
    assert(views(v).subrange(a, j + 1) =~= views(v).subrange(a, j).push(v[j]@));
}

/// What `std::str::from_utf8` says of bytes that are not UTF-8 (the
/// `Display` of its error).
pub uninterp spec fn utf8_error_message(bytes: Seq<u8>) -> Seq<char>;

/// `std::str::from_utf8`: the text of `bytes` when they are valid UTF-8,
/// else std's message, named `utf8_error_message`.
#[verifier::external_body]
pub(crate) fn utf8_text(bytes: &[u8]) -> (r: Result<String, String>)
    ensures
        r is Ok <==> vstd::utf8::valid_utf8(bytes@),
        r matches Ok(s) ==> vstd::utf8::encode_utf8(s@) == bytes@,
        r matches Err(e) ==> e@ == utf8_error_message(bytes@),
{
    std::str::from_utf8(bytes).map(|s| s.to_string()).map_err(|err| err.to_string())
}

/// What `String::from_utf8_lossy` makes of `bytes`: their text, with each
/// invalid sequence replaced by U+FFFD.
pub uninterp spec fn lossy_text(bytes: Seq<u8>) -> Seq<char>;

/// `String::from_utf8_lossy`: the text of `bytes`, named `lossy_text`; for
/// valid UTF-8 it is the decoded text. How invalid sequences are replaced
/// is left to the name.
#[verifier::external_body]
pub(crate) fn utf8_lossy(bytes: &[u8]) -> (r: String)
    ensures
        r@ == lossy_text(bytes@),
        vstd::utf8::valid_utf8(bytes@) ==> r@ == vstd::utf8::decode_utf8(bytes@),
{
    String::from_utf8_lossy(bytes).into_owned()
}

/// `s` is among `v`.
pub fn contains_string(v: &Vec<String>, s: &String) -> (b: bool)
    ensures
        b == v@.map_values(|x: String| x@).contains(s@),
{
    let mut i: usize = 0;
    while i < v.len()
        invariant
            i <= v@.len(),
            forall|k: int| 0 <= k < i ==> v@[k]@ != s@,
        decreases v.len() - i,
    {
        if v[i] == *s {
            assert(v@.map_values(|x: String| x@)[i as int] == s@);
            return true;
        }
        i = i + 1;
    }
    proof {
        let w = v@.map_values(|x: String| x@);
        if w.contains(s@) {
            let k = choose|k: int| 0 <= k < w.len() && w[k] == s@;
            assert(v@[k]@ == s@);
        }
    }
    false
}

// ---------------------------------------------------------------------------
// Lemmas on splitting and on UTF-8
// ---------------------------------------------------------------------------

/// `split` always gives at least one part.
pub proof fn lemma_split_nonempty(s: Seq<char>, sep: char)
    ensures
        split(s, sep).len() >= 1,
    decreases s.len(),
{
    if s.len() > 0 {
        lemma_split_nonempty(s.drop_last(), sep);
    }
}

/// A text without the separator is a single part.
pub proof fn lemma_split_whole(t: Seq<char>, sep: char)
    requires
        !t.contains(sep),
    ensures
        split(t, sep) == seq![t],
    decreases t.len(),
{
    if t.len() > 0 {
        let u = t.drop_last();
        assert(!u.contains(sep)) by {
            if u.contains(sep) {
                let k = choose|k: int| 0 <= k < u.len() && u[k] == sep;
                assert(t[k] == sep);
            }
        }
        lemma_split_whole(u, sep);
        assert(t[t.len() - 1] == t.last());
        assert(t.last() != sep);
        assert(u.push(t.last()) =~= t);
        assert(seq![u].update(0, u.push(t.last())) =~= seq![t]);
    } else {
        assert(t =~= Seq::<char>::empty());
    }
}

/// A part without the separator, followed by the separator, splits off in
/// front of the rest.
pub proof fn lemma_split_prefix(t: Seq<char>, sep: char, s: Seq<char>)
    requires
        !t.contains(sep),
    ensures
        split(t + seq![sep] + s, sep) == seq![t] + split(s, sep),
    decreases s.len(),
{
    let w = t + seq![sep] + s;
    if s.len() == 0 {
        lemma_split_whole(t, sep);
        assert(w.drop_last() =~= t);
        assert(seq![t].push(Seq::<char>::empty()) =~= seq![t] + split(s, sep));
    } else {
        assert(w.drop_last() =~= t + seq![sep] + s.drop_last());
        lemma_split_prefix(t, sep, s.drop_last());
        lemma_split_nonempty(s.drop_last(), sep);
        assert(w.last() == s.last());
        let x = split(s.drop_last(), sep);
        let y = seq![t] + x;
        if s.last() == sep {
            assert(y.push(Seq::<char>::empty()) =~= seq![t] + x.push(Seq::<char>::empty()));
        } else {
            assert(y.update(y.len() - 1, y.last().push(s.last())) =~= seq![t] + x.update(
                x.len() - 1,
                x.last().push(s.last()),
            ));
        }
    }
}

/// Replacing in two texts one after the other is replacing in each.
pub proof fn lemma_replace_char_concat(a: Seq<char>, b: Seq<char>, c: char, r: Seq<char>)
    ensures
        replace_char(a + b, c, r) == replace_char(a, c, r) + replace_char(b, c, r),
    decreases b.len(),
{
    if b.len() == 0 {
        assert(a + b =~= a);
        assert(replace_char(a, c, r) + replace_char(b, c, r) =~= replace_char(a, c, r));
    } else {
        lemma_replace_char_concat(a, b.drop_last(), c, r);
        assert((a + b).drop_last() =~= a + b.drop_last());
        assert((a + b).last() == b.last());
        let tail = if b.last() == c {
            r
        } else {
            seq![b.last()]
        };
        assert(replace_char(a + b, c, r) =~= replace_char(a, c, r) + replace_char(b.drop_last(), c, r)
            + tail);
    }
}

/// A text without the character is left as it is.
pub proof fn lemma_replace_char_absent(a: Seq<char>, c: char, r: Seq<char>)
    requires
        !a.contains(c),
    ensures
        replace_char(a, c, r) == a,
    decreases a.len(),
{
    if a.len() > 0 {
        let u = a.drop_last();
        assert(!u.contains(c)) by {
            if u.contains(c) {
                let k = choose|k: int| 0 <= k < u.len() && u[k] == c;
                assert(a[k] == c);
            }
        }
        lemma_replace_char_absent(u, c, r);
        assert(a[a.len() - 1] == a.last());
        assert(u + seq![a.last()] =~= a);
    }
}

/// The encoding of two texts one after the other is their encodings one
/// after the other.
pub proof fn lemma_encode_concat(a: Seq<char>, b: Seq<char>)
    ensures
        vstd::utf8::encode_utf8(a + b) == vstd::utf8::encode_utf8(a) + vstd::utf8::encode_utf8(b),
    decreases a.len(),
{
    if a.len() == 0 {
        assert(a + b =~= b);
        assert(vstd::utf8::encode_utf8(a) + vstd::utf8::encode_utf8(b) =~= vstd::utf8::encode_utf8(
            b,
        ));
    } else {
        lemma_encode_concat(a.drop_first(), b);
        assert((a + b).drop_first() =~= a.drop_first() + b);
        assert((a + b)[0] == a[0]);
        assert(vstd::utf8::encode_utf8(a + b) =~= vstd::utf8::encode_utf8(a) + vstd::utf8::encode_utf8(
            b,
        ));
    }
}

/// Valid UTF-8 bytes one after the other are valid, and decode to their
/// texts one after the other.
pub proof fn lemma_decode_concat(x: Seq<u8>, y: Seq<u8>)
    requires
        vstd::utf8::valid_utf8(x),
        vstd::utf8::valid_utf8(y),
    ensures
        vstd::utf8::valid_utf8(x + y),
        vstd::utf8::decode_utf8(x + y) == vstd::utf8::decode_utf8(x) + vstd::utf8::decode_utf8(y),
{
    broadcast use vstd::utf8::decode_utf8_encode_utf8, vstd::utf8::encode_utf8_decode_utf8, vstd::utf8::valid_utf8_concat;

    let cx = vstd::utf8::decode_utf8(x);
    let cy = vstd::utf8::decode_utf8(y);
    lemma_encode_concat(cx, cy);
    assert(vstd::utf8::encode_utf8(cx + cy) == x + y);
    assert(vstd::utf8::decode_utf8(vstd::utf8::encode_utf8(cx + cy)) == cx + cy);
}

} // verus!
