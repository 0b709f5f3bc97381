//! Character-level helpers for the hand-written SQL preprocessing: whitespace,
//! trimming, ASCII case-insensitive keyword matching and splitting.
//!
//! Keywords are matched ASCII case-insensitively: a character matches a keyword letter
//! when its ASCII upper case is that letter.

use vstd::prelude::*;

verus! {

/// Unicode `White_Space`, the set that `char::is_whitespace` tests for.
pub open spec fn is_ws(c: char) -> bool {
    let n = c as u32;
    (0x09 <= n && n <= 0x0D) || n == 0x20 || n == 0x85 || n == 0xA0 || n == 0x1680
        || (0x2000 <= n && n <= 0x200A) || n == 0x2028 || n == 0x2029 || n == 0x202F
        || n == 0x205F || n == 0x3000
}

/// ASCII whitespace as `u8::is_ascii_whitespace` defines it (space, tab, line feed,
/// form feed, carriage return).
pub open spec fn is_ascii_ws(c: char) -> bool {
    c == ' ' || c == '\t' || c == '\n' || c == '\x0C' || c == '\r'
}

/// An ASCII letter or digit.
pub open spec fn is_alnum(c: char) -> bool {
    ('a' <= c && c <= 'z') || ('A' <= c && c <= 'Z') || ('0' <= c && c <= '9')
}

/// A character that may continue an identifier word: an ASCII letter, digit or `_`.
pub open spec fn is_word(c: char) -> bool {
    is_alnum(c) || c == '_'
}

/// The ASCII upper case of `c`; other characters are unchanged.
pub open spec fn upper(c: char) -> char {
    if 'a' <= c && c <= 'z' {
        ((c as u32) - 32) as char
    } else {
        c
    }
}

/// The ASCII upper case of every character.
pub open spec fn upper_seq(s: Seq<char>) -> Seq<char> {
    Seq::new(s.len(), |i: int| upper(s[i]))
}

/// `s` without its leading whitespace.
pub open spec fn trim_start(s: Seq<char>) -> Seq<char>
    decreases s.len(),
{
    if s.len() > 0 && is_ws(s[0]) {
        trim_start(s.drop_first())
    } else {
        s
    }
}

/// `s` without its trailing whitespace.
pub open spec fn trim_end(s: Seq<char>) -> Seq<char>
    decreases s.len(),
{
    if s.len() > 0 && is_ws(s.last()) {
        trim_end(s.drop_last())
    } else {
        s
    }
}

/// `s` without leading and trailing whitespace.
pub open spec fn trim(s: Seq<char>) -> Seq<char> {
    trim_end(trim_start(s))
}

/// `s` begins with `kw`, compared ASCII case-insensitively (`kw` is written in upper case).
pub open spec fn starts_ci(s: Seq<char>, kw: Seq<char>) -> bool {
    kw.len() <= s.len() && forall|i: int| 0 <= i < kw.len() ==> upper(#[trigger] s[i]) == kw[i]
}

/// `s` ends with `kw`, compared ASCII case-insensitively (`kw` is written in upper case).
pub open spec fn ends_ci(s: Seq<char>, kw: Seq<char>) -> bool {
    kw.len() <= s.len() && starts_ci(s.skip(s.len() - kw.len()), kw)
}

/// `s` equals `kw` up to ASCII case (`kw` is written in upper case).
pub open spec fn eq_ci(s: Seq<char>, kw: Seq<char>) -> bool {
    s.len() == kw.len() && starts_ci(s, kw)
}

/// `s` begins with `p`.
pub open spec fn has_prefix(s: Seq<char>, p: Seq<char>) -> bool {
    p.len() <= s.len() && s.take(p.len() as int) == p
}

/// The pieces of `s` between occurrences of `sep`, as `str::split` yields them.
pub open spec fn split_on(s: Seq<char>, sep: char) -> Seq<Seq<char>>
    decreases s.len(),
{
    if s.len() == 0 {
        seq![Seq::empty()]
    } else if s.last() == sep {
        split_on(s.drop_last(), sep).push(Seq::empty())
    } else {
        let p = split_on(s.drop_last(), sep);
        p.update(p.len() - 1, p.last().push(s.last()))
    }
}

/// The views of a sequence of character vectors.
pub open spec fn texts(v: Seq<Vec<char>>) -> Seq<Seq<char>> {
    Seq::new(v.len(), |i: int| v[i]@)
}

/// The pieces joined with `sep` between consecutive pieces (`[T]::join`).
pub open spec fn join_with(parts: Seq<Seq<char>>, sep: Seq<char>) -> Seq<char>
    decreases parts.len(),
{
    if parts.len() == 0 {
        Seq::empty()
    } else if parts.len() == 1 {
        parts[0]
    } else {
        join_with(parts.drop_last(), sep) + sep + parts.last()
    }
}

/// Index of the first occurrence of `c` in `s` at or after `from`, if any.
pub open spec fn find_from(s: Seq<char>, c: char, from: int) -> Option<int>
    decreases s.len() - from,
{
    if from < 0 || from >= s.len() {
        None
    } else if s[from] == c {
        Some(from)
    } else {
        find_from(s, c, from + 1)
    }
}

/// Index of the first whitespace character of `s` at or after `from`, if any.
pub open spec fn find_ws_from(s: Seq<char>, from: int) -> Option<int>
    decreases s.len() - from,
{
    if from < 0 || from >= s.len() {
        None
    } else if is_ws(s[from]) {
        Some(from)
    } else {
        find_ws_from(s, from + 1)
    }
}

pub proof fn lemma_split_nonempty(s: Seq<char>, sep: char)
    ensures
        split_on(s, sep).len() >= 1,
    decreases s.len(),
{
    if s.len() > 0 {
        lemma_split_nonempty(s.drop_last(), sep);
    }
}

/// `trim_start(s)` is the suffix of `s` after a run of whitespace.
pub proof fn lemma_trim_start_suffix(s: Seq<char>)
    ensures
        trim_start(s).len() <= s.len(),
        trim_start(s) == s.skip(s.len() - trim_start(s).len()),
        forall|i: int| 0 <= i < s.len() - trim_start(s).len() ==> is_ws(#[trigger] s[i]),
        trim_start(s).len() > 0 ==> !is_ws(trim_start(s)[0]),
    decreases s.len(),
{
    if s.len() > 0 && is_ws(s[0]) {
        lemma_trim_start_suffix(s.drop_first());
        let t = s.drop_first();
        assert(s.skip(s.len() - trim_start(s).len()) =~= t.skip(t.len() - trim_start(t).len()));
        assert forall|i: int| 0 <= i < s.len() - trim_start(s).len() implies is_ws(#[trigger] s[i]) by {
            if i > 0 {
                assert(s[i] == t[i - 1]);
            }
        }
    } else {
        assert(s.skip(0) =~= s);
    }
}

/// `r` is a suffix of `s`.
pub open spec fn is_suffix(r: Seq<char>, s: Seq<char>) -> bool {
    r.len() <= s.len() && r == s.skip(s.len() - r.len())
}

pub proof fn lemma_suffix_trans(r: Seq<char>, s: Seq<char>, u: Seq<char>)
    requires
        is_suffix(r, s),
        is_suffix(s, u),
    ensures
        is_suffix(r, u),
{
    assert(r =~= u.skip(u.len() - r.len()));
}

pub proof fn lemma_skip_is_suffix(s: Seq<char>, k: int)
    requires
        0 <= k <= s.len(),
    ensures
        is_suffix(s.skip(k), s),
{
}

/// Where a piece of `s` holds `kw`, so does `s`.
pub proof fn lemma_contains_ci_within(s: Seq<char>, a: int, b: int, kw: Seq<char>)
    requires
        0 <= a <= b <= s.len(),
        contains_ci(s.subrange(a, b), kw),
    ensures
        contains_ci(s, kw),
{
    let sub = s.subrange(a, b);
    lemma_find_ci_from_props(sub, kw, 0);
    let f = find_ci_from(sub, kw, 0)->Some_0;
    assert forall|i: int| 0 <= i < kw.len() implies upper(#[trigger] s.skip(a + f)[i]) == kw[i] by {
        assert(s.skip(a + f)[i] == sub.skip(f)[i]);
    }
    assert(starts_ci(s.skip(a + f), kw));
    lemma_find_ci_from_props(s, kw, 0);
}

pub proof fn lemma_trim_start_is_suffix(s: Seq<char>)
    ensures
        is_suffix(trim_start(s), s),
{
    lemma_trim_start_suffix(s);
}

/// `trim_end(s)` is the prefix of `s` before a run of whitespace.
pub proof fn lemma_trim_end_prefix(s: Seq<char>)
    ensures
        trim_end(s).len() <= s.len(),
        trim_end(s) == s.take(trim_end(s).len() as int),
        forall|i: int| trim_end(s).len() <= i < s.len() ==> is_ws(#[trigger] s[i]),
        trim_end(s).len() > 0 ==> !is_ws(trim_end(s).last()),
    decreases s.len(),
{
    if s.len() > 0 && is_ws(s.last()) {
        lemma_trim_end_prefix(s.drop_last());
        let t = s.drop_last();
        assert(s.take(trim_end(s).len() as int) =~= t.take(trim_end(t).len() as int));
        assert forall|i: int| trim_end(s).len() <= i < s.len() implies is_ws(#[trigger] s[i]) by {
            if i < s.len() - 1 {
                assert(s[i] == t[i]);
            }
        }
    } else {
        assert(s.take(s.len() as int) =~= s);
    }
}

/// A whitespace character has no other ASCII upper case, and only a space has a space
/// as its upper case.
pub proof fn lemma_upper_ws(c: char)
    ensures
        is_ws(c) ==> upper(c) == c,
        upper(c) == ' ' ==> c == ' ',
{
}

/// Where `b` is `a` followed by whitespace, and `kw` ends with a character that is not
/// whitespace, the two begin with `kw` after their leading whitespace alike.
pub proof fn lemma_trim_start_starts_ci_ws_tail(a: Seq<char>, b: Seq<char>, kw: Seq<char>)
    requires
        a.len() <= b.len(),
        a == b.take(a.len() as int),
        forall|i: int| a.len() <= i < b.len() ==> is_ws(#[trigger] b[i]),
        kw.len() > 0,
        !is_ws(kw.last()),
    ensures
        starts_ci(trim_start(a), kw) == starts_ci(trim_start(b), kw),
{
    lemma_trim_start_suffix(a);
    lemma_trim_start_suffix(b);
    let da = a.len() - trim_start(a).len();
    let db = b.len() - trim_start(b).len();
    lemma_upper_ws(kw.last());
    if trim_start(a).len() > 0 {
        assert(a[da] == trim_start(a)[0]);
        assert(b[da] == a[da]);
        if db < da {
            assert(b[db] == a[db]);
            assert(trim_start(b)[0] == b[db]);
        }
        if db > da {
            assert(is_ws(b[da]));
        }
        assert(da == db);
        if trim_start(a).len() >= kw.len() {
            assert forall|i: int| 0 <= i < kw.len() implies trim_start(a)[i] == trim_start(b)[i] by {
                assert(trim_start(a)[i] == a[da + i]);
                assert(trim_start(b)[i] == b[db + i]);
            }
        } else if starts_ci(trim_start(b), kw) {
            let x = db + kw.len() - 1;
            assert(trim_start(b)[kw.len() - 1] == b[x]);
            assert(is_ws(b[x]));
            lemma_upper_ws(b[x]);
            assert(false);
        }
    } else {
        if trim_start(b).len() > 0 {
            if db < a.len() {
                assert(b[db] == a[db]);
            }
            assert(trim_start(b)[0] == b[db]);
            assert(false);
        }
    }
}

pub proof fn lemma_find_from_props(s: Seq<char>, c: char, from: int)
    requires
        0 <= from,
    ensures
        match find_from(s, c, from) {
            Some(k) => from <= k < s.len() && s[k] == c && forall|j: int| from <= j < k ==> s[j] != c,
            None => forall|j: int| from <= j < s.len() ==> s[j] != c,
        },
    decreases s.len() - from,
{
    if from < s.len() && s[from] != c {
        lemma_find_from_props(s, c, from + 1);
    }
}

pub proof fn lemma_find_ws_from_props(s: Seq<char>, from: int)
    requires
        0 <= from,
    ensures
        match find_ws_from(s, from) {
            Some(k) => from <= k < s.len() && is_ws(s[k]) && forall|j: int| from <= j < k ==> !is_ws(s[j]),
            None => forall|j: int| from <= j < s.len() ==> !is_ws(s[j]),
        },
    decreases s.len() - from,
{
    if from < s.len() && !is_ws(s[from]) {
        lemma_find_ws_from_props(s, from + 1);
    }
}

/// Tests whether `c` is Unicode whitespace (`char::is_whitespace`).
pub fn char_is_ws(c: char) -> (r: bool)
    ensures
        r == is_ws(c),
{
    let n = c as u32;
    (0x09 <= n && n <= 0x0D) || n == 0x20 || n == 0x85 || n == 0xA0 || n == 0x1680
        || (0x2000 <= n && n <= 0x200A) || n == 0x2028 || n == 0x2029 || n == 0x202F
        || n == 0x205F || n == 0x3000
}

/// Tests whether `c` is ASCII whitespace (`u8::is_ascii_whitespace`).
pub fn char_is_ascii_ws(c: char) -> (r: bool)
    ensures
        r == is_ascii_ws(c),
{
    c == ' ' || c == '\t' || c == '\n' || c == '\x0C' || c == '\r'
}

/// Tests whether `c` is an ASCII letter or digit.
pub fn char_is_alnum(c: char) -> (r: bool)
    ensures
        r == is_alnum(c),
{
    ('a' <= c && c <= 'z') || ('A' <= c && c <= 'Z') || ('0' <= c && c <= '9')
}

/// Tests whether `c` is an ASCII letter, digit or `_`.
pub fn char_is_word(c: char) -> (r: bool)
    ensures
        r == is_word(c),
{
    char_is_alnum(c) || c == '_'
}

/// The ASCII upper case of `c`.
pub fn char_upper(c: char) -> (r: char)
    ensures
        r == upper(c),
{
    if c == 'a' {
        'A'
    } else if c == 'b' {
        'B'
    } else if c == 'c' {
        'C'
    } else if c == 'd' {
        'D'
    } else if c == 'e' {
        'E'
    } else if c == 'f' {
        'F'
    } else if c == 'g' {
        'G'
    } else if c == 'h' {
        'H'
    } else if c == 'i' {
        'I'
    } else if c == 'j' {
        'J'
    } else if c == 'k' {
        'K'
    } else if c == 'l' {
        'L'
    } else if c == 'm' {
        'M'
    } else if c == 'n' {
        'N'
    } else if c == 'o' {
        'O'
    } else if c == 'p' {
        'P'
    } else if c == 'q' {
        'Q'
    } else if c == 'r' {
        'R'
    } else if c == 's' {
        'S'
    } else if c == 't' {
        'T'
    } else if c == 'u' {
        'U'
    } else if c == 'v' {
        'V'
    } else if c == 'w' {
        'W'
    } else if c == 'x' {
        'X'
    } else if c == 'y' {
        'Y'
    } else if c == 'z' {
        'Z'
    } else {
        c
    }
}

/// A copy of `s[a..b]`.
pub fn sub_chars(s: &[char], a: usize, b: usize) -> (r: Vec<char>)
    requires
        a <= b <= s@.len(),
    ensures
        r@ == s@.subrange(a as int, b as int),
{
    vstd::slice::slice_to_vec(vstd::slice::slice_subrange(s, a, b))
}

/// Appends the characters of `t` to `out`.
pub fn append_chars(out: &mut Vec<char>, t: &[char])
    ensures
        final(out)@ == old(out)@ + t@,
{
    let ghost start = out@;
    let mut i: usize = 0;
    while i < t.len()
        invariant
            i <= t@.len(),
            out@ == start + t@.take(i as int),
        decreases t@.len() - i,
    {
        out.push(t[i]);
        i = i + 1;
        assert(out@ =~= start + t@.take(i as int));
    }
    assert(t@.take(t@.len() as int) =~= t@);
}

/// Index of the first character of `s` that is not whitespace (`s.len()` if none).
pub fn trim_start_index(s: &[char]) -> (i: usize)
    ensures
        i <= s@.len(),
        s@.skip(i as int) == trim_start(s@),
        forall|j: int| 0 <= j < i ==> is_ws(s@[j]),
        i < s@.len() ==> !is_ws(s@[i as int]),
{
    let mut i: usize = 0;
    assert(s@.skip(0) =~= s@);
    while i < s.len() && char_is_ws(s[i])
        invariant
            i <= s@.len(),
            trim_start(s@.skip(i as int)) == trim_start(s@),
            forall|j: int| 0 <= j < i ==> is_ws(s@[j]),
        decreases s@.len() - i,
    {
        assert(s@.skip(i as int).drop_first() =~= s@.skip(i + 1));
        i = i + 1;
    }
    i
}

/// One past the last character of `s` that is not whitespace (`0` if none).
pub fn trim_end_index(s: &[char]) -> (j: usize)
    ensures
        j <= s@.len(),
        s@.take(j as int) == trim_end(s@),
        forall|k: int| j <= k < s@.len() ==> is_ws(s@[k]),
        j > 0 ==> !is_ws(s@[j - 1]),
{
    let mut j: usize = s.len();
    assert(s@.take(j as int) =~= s@);
    while j > 0 && char_is_ws(s[j - 1])
        invariant
            j <= s@.len(),
            trim_end(s@.take(j as int)) == trim_end(s@),
            forall|k: int| j <= k < s@.len() ==> is_ws(s@[k]),
        decreases j,
    {
        assert(s@.take(j as int).drop_last() =~= s@.take(j - 1));
        j = j - 1;
    }
    j
}

/// `s` without leading whitespace.
pub fn trim_start_chars(s: &[char]) -> (r: Vec<char>)
    ensures
        r@ == trim_start(s@),
{
    let i = trim_start_index(s);
    sub_chars(s, i, s.len())
}

/// `s` without trailing whitespace.
pub fn trim_end_chars(s: &[char]) -> (r: Vec<char>)
    ensures
        r@ == trim_end(s@),
{
    let j = trim_end_index(s);
    sub_chars(s, 0, j)
}

/// `s` without leading and trailing whitespace.
pub fn trim_chars(s: &[char]) -> (r: Vec<char>)
    ensures
        r@ == trim(s@),
{
    let t = trim_start_chars(s);
    trim_end_chars(&t)
}

/// Tests `starts_ci(s, kw)`.
pub fn starts_with_ci(s: &[char], kw: &[char]) -> (r: bool)
    ensures
        r == starts_ci(s@, kw@),
{
    if kw.len() > s.len() {
        return false;
    }
    let mut i: usize = 0;
    while i < kw.len()
        invariant
            i <= kw@.len() <= s@.len(),
            forall|j: int| 0 <= j < i ==> upper(#[trigger] s@[j]) == kw@[j],
        decreases kw@.len() - i,
    {
        if char_upper(s[i]) != kw[i] {
            return false;
        }
        i = i + 1;
    }
    true
}

/// Tests `ends_ci(s, kw)`.
pub fn ends_with_ci(s: &[char], kw: &[char]) -> (r: bool)
    ensures
        r == ends_ci(s@, kw@),
{
    if kw.len() > s.len() {
        return false;
    }
    let tail = vstd::slice::slice_subrange(s, s.len() - kw.len(), s.len());
    assert(tail@ =~= s@.skip(s@.len() - kw@.len()));
    starts_with_ci(tail, kw)
}

/// Tests `eq_ci(s, kw)`.
pub fn eq_ignore_case(s: &[char], kw: &[char]) -> (r: bool)
    ensures
        r == eq_ci(s@, kw@),
{
    s.len() == kw.len() && starts_with_ci(s, kw)
}

/// Tests whether `s` begins with `p` exactly.
pub fn starts_with_chars(s: &[char], p: &[char]) -> (r: bool)
    ensures
        r == has_prefix(s@, p@),
{
    if p.len() > s.len() {
        return false;
    }
    let mut i: usize = 0;
    while i < p.len()
        invariant
            i <= p@.len() <= s@.len(),
            forall|j: int| 0 <= j < i ==> s@[j] == p@[j],
        decreases p@.len() - i,
    {
        if s[i] != p[i] {
            assert(s@.take(p@.len() as int)[i as int] != p@[i as int]);
            return false;
        }
        i = i + 1;
    }
    assert(s@.take(p@.len() as int) =~= p@);
    true
}

/// Tests whether two character sequences are equal.
pub fn chars_eq(a: &[char], b: &[char]) -> (r: bool)
    ensures
        r == (a@ == b@),
{
    if a.len() != b.len() {
        return false;
    }
    let r = starts_with_chars(a, b);
    proof {
        if r {
            assert(a@ =~= a@.take(b@.len() as int));
        }
        if a@ == b@ {
            assert(a@.take(b@.len() as int) =~= b@);
        }
    }
    r
}

/// The first index at or after `from` holding `c`.
pub fn find_char(s: &[char], c: char, from: usize) -> (r: Option<usize>)
    ensures
        match r {
            Some(k) => find_from(s@, c, from as int) == Some(k as int),
            None => find_from(s@, c, from as int) is None,
        },
{
    let mut i = from;
    while i < s.len()
        invariant
            from <= i,
            find_from(s@, c, from as int) == find_from(s@, c, i as int),
        decreases s@.len() - i,
    {
        if s[i] == c {
            return Some(i);
        }
        i = i + 1;
    }
    None
}

/// The first index at or after `from` holding a whitespace character.
pub fn find_ws(s: &[char], from: usize) -> (r: Option<usize>)
    ensures
        match r {
            Some(k) => find_ws_from(s@, from as int) == Some(k as int),
            None => find_ws_from(s@, from as int) is None,
        },
{
    let mut i = from;
    while i < s.len()
        invariant
            from <= i,
            find_ws_from(s@, from as int) == find_ws_from(s@, i as int),
        decreases s@.len() - i,
    {
        if char_is_ws(s[i]) {
            return Some(i);
        }
        i = i + 1;
    }
    None
}

/// Splits `s` at every `sep`, as `str::split` does.
pub fn split_chars(s: &[char], sep: char) -> (r: Vec<Vec<char>>)
    ensures
        texts(r@) == split_on(s@, sep),
{
    let mut pieces: Vec<Vec<char>> = Vec::new();
    let mut current: Vec<char> = Vec::new();
    let mut i: usize = 0;
    assert(split_on(s@.take(0), sep) =~= seq![Seq::<char>::empty()]);
    while i < s.len()
        invariant
            i <= s@.len(),
            texts(pieces@).push(current@) == split_on(s@.take(i as int), sep),
        decreases s@.len() - i,
    {
        let ghost before = s@.take(i as int);
        assert(s@.take(i + 1).drop_last() =~= before);
        if s[i] == sep {
            let done = current;
            pieces.push(done);
            current = Vec::new();
            assert(texts(pieces@).push(current@) =~= split_on(before, sep).push(Seq::empty()));
        } else {
            current.push(s[i]);
            proof {
                lemma_split_nonempty(before, sep);
                let p = split_on(before, sep);
                assert(texts(pieces@).push(current@) =~= p.update(p.len() - 1, p.last().push(s@[i as int])));
            }
        }
        i = i + 1;
    }
    assert(s@.take(s@.len() as int) =~= s@);
    pieces.push(current);
    assert(texts(pieces@) =~= split_on(s@, sep));
    pieces
}

/// Index of the first position at or after `from` where `s` continues with `kw`
/// (ASCII case-insensitively), if any.
pub open spec fn find_ci_from(s: Seq<char>, kw: Seq<char>, from: int) -> Option<int>
    decreases s.len() - from,
{
    if from < 0 || from >= s.len() {
        None
    } else if starts_ci(s.skip(from), kw) {
        Some(from)
    } else {
        find_ci_from(s, kw, from + 1)
    }
}

/// `s` holds `kw` somewhere, compared ASCII case-insensitively.
pub open spec fn contains_ci(s: Seq<char>, kw: Seq<char>) -> bool {
    find_ci_from(s, kw, 0) is Some
}

/// `s` with every `'` doubled.
pub open spec fn escape_single_quotes(s: Seq<char>) -> Seq<char>
    decreases s.len(),
{
    if s.len() == 0 {
        Seq::empty()
    } else if s.last() == '\'' {
        escape_single_quotes(s.drop_last()) + seq!['\'', '\'']
    } else {
        escape_single_quotes(s.drop_last()).push(s.last())
    }
}

/// `s` without the copies of `c` at its start.
pub open spec fn strip_start_char(s: Seq<char>, c: char) -> Seq<char>
    decreases s.len(),
{
    if s.len() > 0 && s[0] == c {
        strip_start_char(s.drop_first(), c)
    } else {
        s
    }
}

/// `s` without the copies of `c` at its end.
pub open spec fn strip_end_char(s: Seq<char>, c: char) -> Seq<char>
    decreases s.len(),
{
    if s.len() > 0 && s.last() == c {
        strip_end_char(s.drop_last(), c)
    } else {
        s
    }
}

/// `s` without the copies of `c` at either end (`str::trim_matches`).
pub open spec fn strip_char(s: Seq<char>, c: char) -> Seq<char> {
    strip_end_char(strip_start_char(s, c), c)
}

pub proof fn lemma_find_ci_from_props(s: Seq<char>, kw: Seq<char>, from: int)
    requires
        0 <= from,
    ensures
        match find_ci_from(s, kw, from) {
            Some(k) => from <= k < s.len() && starts_ci(s.skip(k), kw) && forall|j: int|
                from <= j < k ==> !starts_ci(#[trigger] s.skip(j), kw),
            None => forall|j: int| from <= j < s.len() ==> !starts_ci(#[trigger] s.skip(j), kw),
        },
    decreases s.len() - from,
{
    if from < s.len() && !starts_ci(s.skip(from), kw) {
        lemma_find_ci_from_props(s, kw, from + 1);
    }
}

/// A position where `kw` begins, with no such position before it from `from` on, is
/// the one that `find_ci_from` finds.
pub proof fn lemma_find_ci_from_first(s: Seq<char>, kw: Seq<char>, from: int, j: int)
    requires
        0 <= from <= j < s.len(),
        starts_ci(s.skip(j), kw),
        forall|i: int| from <= i < j ==> !starts_ci(#[trigger] s.skip(i), kw),
    ensures
        find_ci_from(s, kw, from) == Some(j),
    decreases j - from,
{
    if from < j {
        assert(!starts_ci(s.skip(from), kw));
        lemma_find_ci_from_first(s, kw, from + 1, j);
    }
}

/// The first position at or after `from` where `s` continues with `kw`.
pub fn find_ci(s: &[char], kw: &[char], from: usize) -> (r: Option<usize>)
    ensures
        match r {
            Some(k) => find_ci_from(s@, kw@, from as int) == Some(k as int),
            None => find_ci_from(s@, kw@, from as int) is None,
        },
{
    let mut i = from;
    while i < s.len()
        invariant
            from <= i,
            find_ci_from(s@, kw@, from as int) == find_ci_from(s@, kw@, i as int),
        decreases s@.len() - i,
    {
        let tail = vstd::slice::slice_subrange(s, i, s.len());
        assert(tail@ =~= s@.skip(i as int));
        if starts_with_ci(tail, kw) {
            return Some(i);
        }
        i = i + 1;
    }
    None
}

/// Tests `contains_ci(s, kw)`.
pub fn contains_chars_ci(s: &[char], kw: &[char]) -> (r: bool)
    ensures
        r == contains_ci(s@, kw@),
{
    find_ci(s, kw, 0).is_some()
}

/// `s` with every `'` doubled.
pub fn escape_quotes(s: &[char]) -> (r: Vec<char>)
    ensures
        r@ == escape_single_quotes(s@),
{
    let mut out: Vec<char> = Vec::new();
    let mut i: usize = 0;
    while i < s.len()
        invariant
            i <= s@.len(),
            out@ == escape_single_quotes(s@.take(i as int)),
        decreases s@.len() - i,
    {
        assert(s@.take(i + 1).drop_last() =~= s@.take(i as int));
        if s[i] == '\'' {
            out.push('\'');
            out.push('\'');
        } else {
            out.push(s[i]);
        }
        i = i + 1;
        assert(out@ =~= escape_single_quotes(s@.take(i as int)));
    }
    assert(s@.take(s@.len() as int) =~= s@);
    out
}

/// `s` without the copies of `c` at either end.
pub fn strip_chars(s: &[char], c: char) -> (r: Vec<char>)
    ensures
        r@ == strip_char(s@, c),
{
    let mut i: usize = 0;
    assert(s@.skip(0) =~= s@);
    while i < s.len() && s[i] == c
        invariant
            i <= s@.len(),
            strip_start_char(s@.skip(i as int), c) == strip_start_char(s@, c),
        decreases s@.len() - i,
    {
        assert(s@.skip(i as int).drop_first() =~= s@.skip(i + 1));
        i = i + 1;
    }
    let t = sub_chars(s, i, s.len());
    assert(t@ == strip_start_char(s@, c));
    let mut j: usize = t.len();
    assert(t@.take(j as int) =~= t@);
    while j > 0 && t[j - 1] == c
        invariant
            j <= t@.len(),
            strip_end_char(t@.take(j as int), c) == strip_end_char(t@, c),
        decreases j,
    {
        assert(t@.take(j as int).drop_last() =~= t@.take(j - 1));
        j = j - 1;
    }
    sub_chars(&t, 0, j)
}

} // verus!
