//! Character-sequence helpers shared by the parsers: Unicode whitespace,
//! trimming, ASCII case folding, searching, and the conversions between
//! `str`/`String` and vectors of characters.
use vstd::prelude::*;
use vstd::utf8::{decode_utf8, valid_utf8};

verus! {

/// The Unicode `White_Space` property (the set that `char::is_whitespace` tests).
pub open spec fn is_ws(c: char) -> bool {
    let u = c as u32;
    ||| 0x09 <= u <= 0x0d
    ||| u == 0x20
    ||| u == 0x85
    ||| u == 0xa0
    ||| u == 0x1680
    ||| 0x2000 <= u <= 0x200a
    ||| u == 0x2028
    ||| u == 0x2029
    ||| u == 0x202f
    ||| u == 0x205f
    ||| u == 0x3000
}

/// Whether `c` is whitespace in the sense of `char::is_whitespace`.
pub fn is_whitespace(c: char) -> (b: bool)
    ensures
        b == is_ws(c),
{
    let u = c as u32;
    (0x09 <= u && u <= 0x0d) || u == 0x20 || u == 0x85 || u == 0xa0 || u == 0x1680 || (0x2000
        <= u && u <= 0x200a) || u == 0x2028 || u == 0x2029 || u == 0x202f || u == 0x205f || u
        == 0x3000
}

pub open spec fn is_ascii_letter(c: char) -> bool {
    ('a' <= c && c <= 'z') || ('A' <= c && c <= 'Z')
}

pub open spec fn is_ascii_digit_char(c: char) -> bool {
    '0' <= c && c <= '9'
}

/// What `char::is_alphabetic` answers for `c`.
pub uninterp spec fn alphabetic(c: char) -> bool;

/// What `char::is_alphanumeric` answers for `c`.
pub uninterp spec fn alphanumeric(c: char) -> bool;

/// What `char::is_alphanumeric` answers for `c`, as its wrapper states it: the ASCII letters
/// and digits among the ASCII characters, `alphanumeric(c)` for any other.
pub open spec fn alnum(c: char) -> bool {
    if (c as u32) < 0x80 {
        is_ascii_letter(c) || is_ascii_digit_char(c)
    } else {
        alphanumeric(c)
    }
}

/// Calls `char::is_alphabetic`. Claimed of it: the answer is `alphabetic(c)`, and on ASCII
/// characters it holds exactly of the letters `a-z`, `A-Z`. What it answers on other
/// characters (the Unicode `Alphabetic` property) is left unsaid.
#[verifier::external_body]
pub fn char_is_alphabetic(c: char) -> (b: bool)
    ensures
        b == alphabetic(c),
        (c as u32) < 0x80 ==> (b <==> is_ascii_letter(c)),
{
    c.is_alphabetic()
}

/// Calls `char::is_alphanumeric`. Claimed of it: the answer is `alphanumeric(c)`, and on
/// ASCII characters it holds exactly of the letters and the digits `0-9`. What it answers on
/// other characters (the Unicode `Alphabetic` and `Numeric` properties) is left unsaid.
#[verifier::external_body]
pub fn char_is_alphanumeric(c: char) -> (b: bool)
    ensures
        b == alphanumeric(c),
        (c as u32) < 0x80 ==> (b <==> (is_ascii_letter(c) || is_ascii_digit_char(c))),
{
    c.is_alphanumeric()
}

/// Collects the characters of a vector into a `String` (`String: FromIterator<&char>`).
/// Claimed of it: the string holds exactly those characters, in order.
#[verifier::external_body]
pub fn chars_to_string(v: &Vec<char>) -> (s: String)
    ensures
        s@ == v@,
{
    v.iter().collect()
}

/// The text that `{:?}` writes for the string `s` (`<str as Debug>::fmt`).
pub uninterp spec fn str_debug(s: Seq<char>) -> Seq<char>;

/// The text that `{:?}` writes for the character `c` (`<char as Debug>::fmt`).
pub uninterp spec fn char_debug(c: char) -> Seq<char>;

/// Formats `s` with `{:?}`. Claimed of it: the text depends on the characters of `s` alone
/// and is named `str_debug`; how it quotes and escapes them is left unsaid.
#[verifier::external_body]
pub fn str_debug_text(s: &str) -> (r: String)
    ensures
        r@ == str_debug(s@),
{
    format!("{:?}", s)
}

/// Formats `c` with `{:?}`. Claimed of it: the text depends on `c` alone and is named
/// `char_debug`; how it quotes and escapes it is left unsaid.
#[verifier::external_body]
pub fn char_debug_text(c: char) -> (r: String)
    ensures
        r@ == char_debug(c),
{
    format!("{:?}", c)
}

/// Every character is ASCII.
pub open spec fn is_ascii_text(s: Seq<char>) -> bool {
    forall|i: int| 0 <= i < s.len() ==> (#[trigger] s[i] as u32) < 0x80
}

/// Whether every character of `v` is ASCII.
pub fn all_ascii(v: &Vec<char>) -> (b: bool)
    ensures
        b == is_ascii_text(v@),
{
    let mut i: usize = 0;
    while i < v.len()
        invariant
            i <= v@.len(),
            forall|j: int| 0 <= j < i ==> (#[trigger] v@[j] as u32) < 0x80,
        decreases v@.len() - i,
    {
        if (v[i] as u32) >= 0x80 {
            return false;
        }
        i = i + 1;
    }
    true
}

/// What `str::to_uppercase` gives for the text `s`.
pub uninterp spec fn to_upper(s: Seq<char>) -> Seq<char>;

/// Calls `str::to_uppercase`. Claimed of it: the text depends on the characters of `s`
/// alone and is named `to_upper`; the Unicode case mapping itself is left unsaid.
#[verifier::external_body]
pub fn str_to_uppercase(s: &str) -> (r: String)
    ensures
        r@ == to_upper(s@),
{
    s.to_uppercase()
}

/// What `str::to_lowercase` gives for the text `s`.
pub uninterp spec fn to_lower(s: Seq<char>) -> Seq<char>;

/// Calls `str::to_lowercase`. Claimed of it: the text depends on the characters of `s`
/// alone and is named `to_lower`; the Unicode case mapping itself is left unsaid.
#[verifier::external_body]
pub fn str_to_lowercase(s: &str) -> (r: String)
    ensures
        r@ == to_lower(s@),
{
    s.to_lowercase()
}

/// The characters of `s`, in order.
pub fn str_chars(s: &str) -> (v: Vec<char>)
    ensures
        v@ == s@,
{
    let mut v: Vec<char> = Vec::new();
    for c in it: s.chars()
        invariant
            it.seq() == s@,
            v@ == it.seq().take(it.index() as int),
    {
        v.push(c);
    }
    v
}

/// `t` without its leading whitespace.
pub open spec fn trim_left(t: Seq<char>) -> Seq<char>
    decreases t.len(),
{
    if t.len() > 0 && is_ws(t[0]) {
        trim_left(t.drop_first())
    } else {
        t
    }
}

/// `t` without its trailing whitespace.
pub open spec fn trim_right(t: Seq<char>) -> Seq<char>
    decreases t.len(),
{
    if t.len() > 0 && is_ws(t.last()) {
        trim_right(t.drop_last())
    } else {
        t
    }
}

/// `t` without leading and trailing whitespace (what `str::trim` gives).
pub open spec fn trim(t: Seq<char>) -> Seq<char> {
    trim_right(trim_left(t))
}

} // verus!

verus! {

/// Whether two character vectors hold the same characters.
pub fn chars_eq(a: &Vec<char>, b: &Vec<char>) -> (r: bool)
    ensures
        r == (a@ == b@),
{
    if a.len() != b.len() {
        return false;
    }
    let mut i: usize = 0;
    while i < a.len()
        invariant
            a@.len() == b@.len(),
            i <= a@.len(),
            forall|j: int| 0 <= j < i ==> a@[j] == b@[j],
        decreases a@.len() - i,
    {
        if a[i] != b[i] {
            return false;
        }
        i = i + 1;
    }
    assert(a@ =~= b@);
    true
}

/// The index of the first non-whitespace character (or the length).
pub open spec fn lead_ws(t: Seq<char>, i: int) -> bool {
    forall|j: int| 0 <= j < i ==> is_ws(#[trigger] t[j])
}

pub proof fn lemma_trim_left(t: Seq<char>, i: int)
    requires
        0 <= i <= t.len(),
        lead_ws(t, i),
        i == t.len() || !is_ws(t[i]),
    ensures
        trim_left(t) == t.subrange(i, t.len() as int),
    decreases i,
{
    if i == 0 {
        assert(t.subrange(0, t.len() as int) =~= t);
    } else {
        assert(is_ws(t[0]));
        let u = t.drop_first();
        assert forall|j: int| 0 <= j < i - 1 implies is_ws(#[trigger] u[j]) by {
            assert(u[j] == t[j + 1]);
        }
        lemma_trim_left(u, i - 1);
        assert(u.subrange(i - 1, u.len() as int) =~= t.subrange(i, t.len() as int));
    }
}

pub proof fn lemma_trim_right(t: Seq<char>, k: int)
    requires
        0 <= k <= t.len(),
        forall|j: int| k <= j < t.len() ==> is_ws(#[trigger] t[j]),
        k == 0 || !is_ws(t[k - 1]),
    ensures
        trim_right(t) == t.subrange(0, k),
    decreases t.len() - k,
{
    if k == t.len() {
        assert(t.subrange(0, k) =~= t);
    } else {
        let u = t.drop_last();
        assert forall|j: int| k <= j < u.len() implies is_ws(#[trigger] u[j]) by {
            assert(u[j] == t[j]);
        }
        if k > 0 {
            assert(u[k - 1] == t[k - 1]);
        }
        lemma_trim_right(u, k);
        assert(u.subrange(0, k) =~= t.subrange(0, k));
    }
}

/// `t` with leading and trailing whitespace removed.
pub fn trim_chars(t: &Vec<char>) -> (r: Vec<char>)
    ensures
        r@ == trim(t@),
{
    let n = t.len();
    let mut i: usize = 0;
    while i < n && is_whitespace(t[i])
        invariant
            n == t@.len(),
            i <= n,
            lead_ws(t@, i as int),
        decreases n - i,
    {
        i = i + 1;
    }
    proof {
        lemma_trim_left(t@, i as int);
    }
    let ghost u = t@.subrange(i as int, n as int);
    let mut k: usize = n;
    while k > i && is_whitespace(t[k - 1])
        invariant
            n == t@.len(),
            i <= k <= n,
            forall|j: int| k <= j < n ==> is_ws(#[trigger] t@[j]),
        decreases k,
    {
        k = k - 1;
    }
    proof {
        assert forall|j: int| k - i <= j < u.len() implies is_ws(#[trigger] u[j]) by {
            assert(u[j] == t@[j + i]);
        }
        if k > i {
            assert(u[k - i - 1] == t@[k - 1]);
        }
        lemma_trim_right(u, k - i);
    }
    let mut r: Vec<char> = Vec::new();
    let mut j: usize = i;
    while j < k
        invariant
            n == t@.len(),
            i <= j <= k <= n,
            r@ == t@.subrange(i as int, j as int),
        decreases k - j,
    {
        r.push(t[j]);
        j = j + 1;
        assert(r@ =~= t@.subrange(i as int, j as int));
    }
    assert(r@ =~= u.subrange(0, k - i));
    r
}

/// Converts the UTF-8 bytes `src[start..end]` with `std::str::from_utf8`. Claimed of it: the
/// result is present exactly when those bytes are valid UTF-8, and it then holds the
/// characters they encode.
#[verifier::external_body]
pub fn utf8_to_string(src: &[u8], start: usize, end: usize) -> (r: Option<String>)
    requires
        start <= end <= src@.len(),
    ensures
        r is Some <==> valid_utf8(src@.subrange(start as int, end as int)),
        r matches Some(t) ==> t@ == decode_utf8(src@.subrange(start as int, end as int)),
{
    match std::str::from_utf8(&src[start..end]) {
        Ok(t) => Some(t.to_string()),
        Err(_) => None,
    }
}

} // verus!

verus! {

/// The characters `v[a..b]`.
pub fn sub_chars(v: &Vec<char>, a: usize, b: usize) -> (r: Vec<char>)
    requires
        a <= b <= v@.len(),
    ensures
        r@ == v@.subrange(a as int, b as int),
{
    let mut r: Vec<char> = Vec::new();
    let mut i = a;
    while i < b
        invariant
            a <= i <= b <= v@.len(),
            r@ == v@.subrange(a as int, i as int),
        decreases b - i,
    {
        r.push(v[i]);
        i = i + 1;
        assert(r@ =~= v@.subrange(a as int, i as int));
    }
    r
}

/// A string of the characters `v[a..b]`.
pub fn sub_string(v: &Vec<char>, a: usize, b: usize) -> (r: String)
    requires
        a <= b <= v@.len(),
    ensures
        r@ == v@.subrange(a as int, b as int),
{
    chars_to_string(&sub_chars(v, a, b))
}

/// The texts of a sequence of strings.
pub open spec fn strings_view(v: Seq<String>) -> Seq<Seq<char>> {
    v.map_values(|s: String| s@)
}

pub proof fn lemma_strings_view_push(v: Seq<String>, s: String)
    ensures
        strings_view(v.push(s)) == strings_view(v).push(s@),
{
    assert(strings_view(v.push(s)) =~= strings_view(v).push(s@));
}

} // verus!

verus! {

// ---------------------------------------------------------------------------
// ASCII case folding
// ---------------------------------------------------------------------------

pub open spec fn ascii_upper_char(c: char) -> char {
    if 'a' <= c && c <= 'z' {
        (((c as u32) - 32) as u8) as char
    } else {
        c
    }
}

pub open spec fn ascii_lower_char(c: char) -> char {
    if 'A' <= c && c <= 'Z' {
        (((c as u32) + 32) as u8) as char
    } else {
        c
    }
}

/// `t` with the ASCII letters in upper case.
pub open spec fn ascii_upper(t: Seq<char>) -> Seq<char> {
    t.map_values(|c: char| ascii_upper_char(c))
}

/// `t` with the ASCII letters in lower case.
pub open spec fn ascii_lower(t: Seq<char>) -> Seq<char> {
    t.map_values(|c: char| ascii_lower_char(c))
}

pub fn ascii_upper_vec(t: &Vec<char>) -> (r: Vec<char>)
    ensures
        r@ == ascii_upper(t@),
{
    let mut r: Vec<char> = Vec::new();
    let mut i: usize = 0;
    while i < t.len()
        invariant
            i <= t@.len(),
            r@ == ascii_upper(t@.subrange(0, i as int)),
        decreases t@.len() - i,
    {
        let c = t[i];
        let u = if 'a' <= c && c <= 'z' {
            ((c as u32 - 32) as u8) as char
        } else {
            c
        };
        r.push(u);
        i = i + 1;
        assert(r@ =~= ascii_upper(t@.subrange(0, i as int)));
    }
    assert(t@.subrange(0, t@.len() as int) =~= t@);
    r
}

pub fn ascii_lower_vec(t: &Vec<char>) -> (r: Vec<char>)
    ensures
        r@ == ascii_lower(t@),
{
    let mut r: Vec<char> = Vec::new();
    let mut i: usize = 0;
    while i < t.len()
        invariant
            i <= t@.len(),
            r@ == ascii_lower(t@.subrange(0, i as int)),
        decreases t@.len() - i,
    {
        let c = t[i];
        let u = if 'A' <= c && c <= 'Z' {
            ((c as u32 + 32) as u8) as char
        } else {
            c
        };
        r.push(u);
        i = i + 1;
        assert(r@ =~= ascii_lower(t@.subrange(0, i as int)));
    }
    assert(t@.subrange(0, t@.len() as int) =~= t@);
    r
}

/// The upper case of `t` as `str::to_uppercase` gives it: ASCII upper case for an ASCII
/// text (which is what `str::to_uppercase` gives there), `to_upper` for any other.
pub open spec fn fold_upper(t: Seq<char>) -> Seq<char> {
    if is_ascii_text(t) {
        ascii_upper(t)
    } else {
        to_upper(t)
    }
}

/// The lower case of `t` as `str::to_lowercase` gives it: ASCII lower case for an ASCII
/// text, `to_lower` for any other.
pub open spec fn fold_lower(t: Seq<char>) -> Seq<char> {
    if is_ascii_text(t) {
        ascii_lower(t)
    } else {
        to_lower(t)
    }
}

/// The upper case of `t` (see `fold_upper`).
pub fn upper_vec(t: &Vec<char>) -> (r: Vec<char>)
    ensures
        r@ == fold_upper(t@),
{
    if all_ascii(t) {
        ascii_upper_vec(t)
    } else {
        let s = chars_to_string(t);
        str_chars(str_to_uppercase(s.as_str()).as_str())
    }
}

/// The lower case of `t` (see `fold_lower`).
pub fn lower_vec(t: &Vec<char>) -> (r: Vec<char>)
    ensures
        r@ == fold_lower(t@),
{
    if all_ascii(t) {
        ascii_lower_vec(t)
    } else {
        let s = chars_to_string(t);
        str_chars(str_to_lowercase(s.as_str()).as_str())
    }
}

/// `t[a..b]`, with both ends brought within `t` (and `a` to at most `b`).
pub open spec fn part(t: Seq<char>, a: int, b: int) -> Seq<char> {
    let e = if b < 0 {
        0
    } else if b > t.len() {
        t.len() as int
    } else {
        b
    };
    let s = if a < 0 {
        0
    } else if a > e {
        e
    } else {
        a
    };
    t.subrange(s, e)
}

/// `t[a..b]`, with both ends brought within `t` (see `part`).
pub fn part_chars(t: &Vec<char>, a: usize, b: usize) -> (r: Vec<char>)
    ensures
        r@ == part(t@, a as int, b as int),
{
    let e = if b > t.len() {
        t.len()
    } else {
        b
    };
    let s = if a > e {
        e
    } else {
        a
    };
    sub_chars(t, s, e)
}

// ---------------------------------------------------------------------------
// Searching
// ---------------------------------------------------------------------------

pub open spec fn starts_with(s: Seq<char>, p: Seq<char>) -> bool {
    p.len() <= s.len() && s.subrange(0, p.len() as int) == p
}

pub open spec fn ends_with_char(s: Seq<char>, c: char) -> bool {
    s.len() > 0 && s.last() == c
}

/// The first position from `i` on where `p` occurs in `s`.
pub open spec fn find_from(s: Seq<char>, p: Seq<char>, i: nat) -> Option<nat>
    decreases s.len() + 1 - i,
{
    if i + p.len() > s.len() {
        None
    } else if s.subrange(i as int, (i + p.len()) as int) == p {
        Some(i)
    } else {
        find_from(s, p, i + 1)
    }
}

/// The first position where `p` occurs in `s` (what `str::find` gives, in characters).
pub open spec fn find_seq(s: Seq<char>, p: Seq<char>) -> Option<nat> {
    find_from(s, p, 0)
}

/// The last position of `c` in `s`.
pub open spec fn rfind_char(s: Seq<char>, c: char) -> Option<nat>
    decreases s.len(),
{
    if s.len() == 0 {
        None
    } else if s.last() == c {
        Some((s.len() - 1) as nat)
    } else {
        rfind_char(s.drop_last(), c)
    }
}

/// How often `c` occurs in `s`.
pub open spec fn count_char(s: Seq<char>, c: char) -> nat
    decreases s.len(),
{
    if s.len() == 0 {
        0
    } else {
        count_char(s.drop_last(), c) + if s.last() == c {
            1nat
        } else {
            0nat
        }
    }
}

/// `s` without its trailing copies of `c` (what `str::trim_end_matches(c)` gives).
pub open spec fn trim_end_char(s: Seq<char>, c: char) -> Seq<char>
    decreases s.len(),
{
    if s.len() > 0 && s.last() == c {
        trim_end_char(s.drop_last(), c)
    } else {
        s
    }
}

pub fn starts_with_chars(s: &Vec<char>, p: &Vec<char>) -> (b: bool)
    ensures
        b == starts_with(s@, p@),
{
    if p.len() > s.len() {
        return false;
    }
    let mut i: usize = 0;
    while i < p.len()
        invariant
            p@.len() <= s@.len(),
            i <= p@.len(),
            forall|j: int| 0 <= j < i ==> s@[j] == p@[j],
        decreases p@.len() - i,
    {
        if s[i] != p[i] {
            assert(s@.subrange(0, p@.len() as int)[i as int] != p@[i as int]);
            return false;
        }
        i = i + 1;
    }
    assert(s@.subrange(0, p@.len() as int) =~= p@);
    true
}

pub fn ends_with(s: &Vec<char>, c: char) -> (b: bool)
    ensures
        b == ends_with_char(s@, c),
{
    s.len() > 0 && s[s.len() - 1] == c
}

/// Whether `p` occurs in `s` at position `i`.
fn matches_at(s: &Vec<char>, p: &Vec<char>, i: usize) -> (b: bool)
    requires
        i + p.len() <= s.len(),
    ensures
        b == (s@.subrange(i as int, i + p@.len()) == p@),
{
    let mut j: usize = 0;
    while j < p.len()
        invariant
            i + p.len() <= s.len(),
            j <= p@.len(),
            forall|k: int| 0 <= k < j ==> s@[i + k] == p@[k],
        decreases p@.len() - j,
    {
        if s[i + j] != p[j] {
            assert(s@.subrange(i as int, i + p@.len())[j as int] != p@[j as int]);
            return false;
        }
        j = j + 1;
    }
    assert(s@.subrange(i as int, i + p@.len()) =~= p@);
    true
}

pub fn find_chars(s: &Vec<char>, p: &Vec<char>) -> (r: Option<usize>)
    ensures
        match r {
            Some(i) => find_seq(s@, p@) == Some(i as nat),
            None => find_seq(s@, p@) is None,
        },
{
    if p.len() > s.len() {
        return None;
    }
    let limit = s.len() - p.len();
    let mut i: usize = 0;
    loop
        invariant
            limit == s.len() - p.len(),
            i <= limit,
            find_from(s@, p@, i as nat) == find_seq(s@, p@),
        decreases limit - i,
    {
        if matches_at(s, p, i) {
            return Some(i);
        }
        if i == limit {
            assert(find_from(s@, p@, (i + 1) as nat) is None);
            return None;
        }
        i = i + 1;
    }
}

pub fn rfind(s: &Vec<char>, c: char) -> (r: Option<usize>)
    ensures
        match r {
            Some(i) => rfind_char(s@, c) == Some(i as nat),
            None => rfind_char(s@, c) is None,
        },
{
    let mut k: usize = s.len();
    assert(s@.subrange(0, k as int) =~= s@);
    while k > 0
        invariant
            k <= s@.len(),
            rfind_char(s@.subrange(0, k as int), c) == rfind_char(s@, c),
        decreases k,
    {
        if s[k - 1] == c {
            return Some(k - 1);
        }
        assert(s@.subrange(0, k as int).drop_last() =~= s@.subrange(0, k - 1));
        k = k - 1;
    }
    None
}

pub fn count(s: &Vec<char>, c: char) -> (n: usize)
    ensures
        n == count_char(s@, c),
{
    let mut n: usize = 0;
    let mut i: usize = 0;
    while i < s.len()
        invariant
            i <= s@.len(),
            n == count_char(s@.subrange(0, i as int), c),
            n <= i,
        decreases s@.len() - i,
    {
        assert(s@.subrange(0, i + 1).drop_last() =~= s@.subrange(0, i as int));
        if s[i] == c {
            n = n + 1;
        }
        i = i + 1;
    }
    assert(s@.subrange(0, s@.len() as int) =~= s@);
    n
}

pub fn trim_end_matches(s: &Vec<char>, c: char) -> (r: Vec<char>)
    ensures
        r@ == trim_end_char(s@, c),
{
    let mut k: usize = s.len();
    assert(s@.subrange(0, k as int) =~= s@);
    while k > 0 && s[k - 1] == c
        invariant
            k <= s@.len(),
            trim_end_char(s@.subrange(0, k as int), c) == trim_end_char(s@, c),
        decreases k,
    {
        assert(s@.subrange(0, k as int).drop_last() =~= s@.subrange(0, k - 1));
        k = k - 1;
    }
    sub_chars(s, 0, k)
}

/// `t` without its leading whitespace.
pub fn trim_start_chars(t: &Vec<char>) -> (r: Vec<char>)
    ensures
        r@ == trim_left(t@),
{
    let n = t.len();
    let mut i: usize = 0;
    while i < n && is_whitespace(t[i])
        invariant
            n == t@.len(),
            i <= n,
            lead_ws(t@, i as int),
        decreases n - i,
    {
        i = i + 1;
    }
    proof {
        lemma_trim_left(t@, i as int);
    }
    sub_chars(t, i, n)
}

// ---------------------------------------------------------------------------
// Splitting
// ---------------------------------------------------------------------------

/// The pieces of `s` between the occurrences of `c` (what `str::split(c)` gives).
pub open spec fn split_char(s: Seq<char>, c: char) -> Seq<Seq<char>>
    decreases s.len(),
{
    match rfind_char(s, c) {
        Some(k) => if k < s.len() {
            split_char(s.subrange(0, k as int), c).push(s.subrange((k + 1) as int, s.len() as int))
        } else {
            seq![s]
        },
        None => seq![s],
    }
}

pub proof fn lemma_rfind_char(s: Seq<char>, c: char)
    ensures
        match rfind_char(s, c) {
            Some(k) => k < s.len() && s[k as int] == c && forall|j: int| k < j < s.len() ==> s[j] != c,
            None => forall|j: int| 0 <= j < s.len() ==> s[j] != c,
        },
    decreases s.len(),
{
    if s.len() > 0 && s.last() != c {
        let t = s.drop_last();
        lemma_rfind_char(t, c);
        assert forall|j: int| 0 <= j < t.len() implies t[j] == s[j] by {}
    }
}

pub fn split_on(s: &Vec<char>, c: char) -> (r: Vec<Vec<char>>)
    ensures
        r@.map_values(|v: Vec<char>| v@) == split_char(s@, c),
    decreases s@.len(),
{
    proof {
        lemma_rfind_char(s@, c);
    }
    match rfind(s, c) {
        Some(k) => {
            let n = s.len();
            assert(k < n);
            let head = sub_chars(s, 0, k);
            let mut r = split_on(&head, c);
            let tail = sub_chars(s, k + 1, n);
            let ghost old_r = r@;
            r.push(tail);
            assert(r@.map_values(|v: Vec<char>| v@) =~= old_r.map_values(|v: Vec<char>| v@).push(
                tail@,
            ));
            r
        },
        None => {
            let mut r: Vec<Vec<char>> = Vec::new();
            r.push(sub_chars(s, 0, s.len()));
            assert(s@.subrange(0, s@.len() as int) =~= s@);
            assert(r@.map_values(|v: Vec<char>| v@) =~= seq![s@]);
            r
        },
    }
}

/// The first position from `i` on that holds whitespace, or the length.
pub open spec fn ws_end(s: Seq<char>, i: nat) -> nat
    decreases s.len() - i,
{
    if i < s.len() && !is_ws(s[i as int]) {
        ws_end(s, i + 1)
    } else {
        i
    }
}

/// The maximal runs of non-whitespace characters (what `str::split_whitespace` gives).
pub open spec fn split_ws(s: Seq<char>) -> Seq<Seq<char>>
    decreases s.len(),
{
    let t = trim_left(s);
    if t.len() == 0 || t.len() > s.len() {
        seq![]
    } else {
        let e = ws_end(t, 0);
        if 0 < e <= t.len() {
            seq![t.subrange(0, e as int)] + split_ws(t.subrange(e as int, t.len() as int))
        } else {
            seq![]
        }
    }
}

pub proof fn lemma_trim_left_len(t: Seq<char>)
    ensures
        trim_left(t).len() <= t.len(),
        trim_left(t).len() > 0 ==> !is_ws(trim_left(t)[0]),
    decreases t.len(),
{
    if t.len() > 0 && is_ws(t[0]) {
        lemma_trim_left_len(t.drop_first());
    }
}

pub proof fn lemma_ws_end(s: Seq<char>, i: nat)
    requires
        i <= s.len(),
    ensures
        i <= ws_end(s, i) <= s.len(),
        forall|j: int| i <= j < ws_end(s, i) ==> !is_ws(#[trigger] s[j]),
        ws_end(s, i) < s.len() ==> is_ws(s[ws_end(s, i) as int]),
    decreases s.len() - i,
{
    if i < s.len() && !is_ws(s[i as int]) {
        lemma_ws_end(s, i + 1);
    }
}

pub fn split_whitespace(s: &Vec<char>) -> (r: Vec<Vec<char>>)
    ensures
        r@.map_values(|v: Vec<char>| v@) == split_ws(s@),
    decreases s@.len(),
{
    let t = trim_start_chars(s);
    proof {
        lemma_trim_left_len(s@);
    }
    if t.len() == 0 {
        let r: Vec<Vec<char>> = Vec::new();
        assert(r@.map_values(|v: Vec<char>| v@) =~= seq![]);
        return r;
    }
    proof {
        lemma_ws_end(t@, 0);
    }
    let mut e: usize = 0;
    while e < t.len() && !is_whitespace(t[e])
        invariant
            e <= t@.len(),
            ws_end(t@, e as nat) == ws_end(t@, 0),
        decreases t@.len() - e,
    {
        e = e + 1;
    }
    let word = sub_chars(&t, 0, e);
    let rest = sub_chars(&t, e, t.len());
    let tail = split_whitespace(&rest);
    let mut r: Vec<Vec<char>> = Vec::new();
    r.push(word);
    let ghost tv = tail@;
    let mut tail = tail;
    r.append(&mut tail);
    assert(r@.map_values(|v: Vec<char>| v@) =~= seq![word@] + tv.map_values(|v: Vec<char>| v@));
    r
}

// ---------------------------------------------------------------------------
// Comments, numbers, lines
// ---------------------------------------------------------------------------

/// The first position from `i` on that holds `c`, or the length.
pub open spec fn find_char_from(s: Seq<char>, i: nat, c: char) -> nat
    decreases s.len() - i,
{
    if i < s.len() && s[i as int] != c {
        find_char_from(s, i + 1, c)
    } else {
        i
    }
}

/// Where a `#` or `//` comment starts, outside single or double quotes (or the length).
pub open spec fn comment_start(s: Seq<char>, i: nat) -> nat
    decreases s.len() - i,
{
    if i >= s.len() {
        s.len()
    } else {
        let c = s[i as int];
        if c == '"' || c == '\'' {
            let e = find_char_from(s, i + 1, c);
            if e >= s.len() {
                s.len()
            } else if e > i {
                comment_start(s, e + 1)
            } else {
                s.len()
            }
        } else if c == '#' {
            i
        } else if c == '/' && i + 1 < s.len() && s[(i + 1) as int] == '/' {
            i
        } else {
            comment_start(s, i + 1)
        }
    }
}

/// `s` without a trailing comment.
pub open spec fn strip_comment(s: Seq<char>) -> Seq<char> {
    s.subrange(0, comment_start(s, 0) as int)
}

proof fn lemma_find_char_from(s: Seq<char>, i: nat, c: char)
    requires
        i <= s.len(),
    ensures
        i <= find_char_from(s, i, c) <= s.len(),
    decreases s.len() - i,
{
    if i < s.len() && s[i as int] != c {
        lemma_find_char_from(s, i + 1, c);
    }
}

pub proof fn lemma_comment_start(s: Seq<char>, i: nat)
    requires
        i <= s.len(),
    ensures
        i <= comment_start(s, i) <= s.len(),
    decreases s.len() - i,
{
    if i < s.len() {
        let c = s[i as int];
        if c == '"' || c == '\'' {
            lemma_find_char_from(s, i + 1, c);
            let e = find_char_from(s, i + 1, c);
            if e < s.len() && e > i {
                lemma_comment_start(s, e + 1);
            }
        } else if !(c == '#') && !(c == '/' && i + 1 < s.len() && s[(i + 1) as int] == '/') {
            lemma_comment_start(s, i + 1);
        }
    }
}

proof fn lemma_find_char_take(s: Seq<char>, k: nat, j: nat, c: char)
    requires
        j <= k <= s.len(),
        find_char_from(s, j, c) < k,
    ensures
        find_char_from(s.take(k as int), j, c) == find_char_from(s, j, c),
    decreases k - j,
{
    lemma_find_char_from(s, j, c);
    if j < k {
        assert(s.take(k as int)[j as int] == s[j as int]);
        if s[j as int] != c {
            lemma_find_char_take(s, k, j + 1, c);
        }
    }
}

/// Where the comment of `s` starts, the comment of its prefix up to there starts too: at
/// its end.
proof fn lemma_comment_start_take(s: Seq<char>, k: nat, i: nat)
    requires
        i <= k <= s.len(),
        comment_start(s, i) == k,
    ensures
        comment_start(s.take(k as int), i) == k,
    decreases k - i,
{
    let t = s.take(k as int);
    if k == s.len() {
        assert(t =~= s);
    } else if i < k {
        let c = s[i as int];
        assert(t[i as int] == c);
        if c == '"' || c == '\'' {
            lemma_find_char_from(s, i + 1, c);
            let e = find_char_from(s, i + 1, c);
            if e < s.len() && e > i {
                lemma_comment_start(s, e + 1);
                lemma_find_char_take(s, k, i + 1, c);
                lemma_comment_start_take(s, k, e + 1);
            }
        } else if c != '#' && !(c == '/' && i + 1 < s.len() && s[(i + 1) as int] == '/') {
            lemma_comment_start_take(s, k, i + 1);
            if i + 1 < k {
                assert(t[(i + 1) as int] == s[(i + 1) as int]);
            }
        }
    }
}

/// A line with no `#` and no `//` has no comment.
proof fn lemma_comment_start_none(s: Seq<char>, i: nat)
    requires
        i <= s.len(),
        forall|j: int| 0 <= j < s.len() ==> s[j] != '#',
        forall|j: int| 0 <= j < s.len() - 1 ==> !(#[trigger] s[j] == '/' && s[j + 1] == '/'),
    ensures
        comment_start(s, i) == s.len(),
    decreases s.len() - i,
{
    if i < s.len() {
        let c = s[i as int];
        if c == '"' || c == '\'' {
            lemma_find_char_from(s, i + 1, c);
            let e = find_char_from(s, i + 1, c);
            if e < s.len() && e > i {
                lemma_comment_start_none(s, e + 1);
            }
        } else {
            lemma_comment_start_none(s, i + 1);
        }
    }
}

/// Stripping a line's comment leaves a prefix of the line; stripping again changes
/// nothing; a line with no `#` and no `//` is left as it is.
pub proof fn law_strip_comment(s: Seq<char>)
    ensures
        strip_comment(s).len() <= s.len(),
        strip_comment(s) == s.take(strip_comment(s).len() as int),
        strip_comment(strip_comment(s)) == strip_comment(s),
        (forall|j: int| 0 <= j < s.len() ==> s[j] != '#') && (forall|j: int|
            0 <= j < s.len() - 1 ==> !(#[trigger] s[j] == '/' && s[j + 1] == '/')) ==> strip_comment(s)
            == s,
{
    lemma_comment_start(s, 0);
    let k = comment_start(s, 0);
    lemma_comment_start_take(s, k, 0);
    assert(s.take(k as int).take(k as int) =~= s.take(k as int));
    if (forall|j: int| 0 <= j < s.len() ==> s[j] != '#') && (forall|j: int|
        0 <= j < s.len() - 1 ==> !(#[trigger] s[j] == '/' && s[j + 1] == '/')) {
        lemma_comment_start_none(s, 0);
        assert(s.take(s.len() as int) =~= s);
    }
}

/// `line` without a `#` or `//` comment that stands outside quotes.
pub fn strip_inline_comment(line: &Vec<char>) -> (r: Vec<char>)
    ensures
        r@ == strip_comment(line@),
        r@.len() <= line@.len(),
{
    let n = line.len();
    let mut i: usize = 0;
    proof {
        lemma_comment_start(line@, 0);
    }
    while i < n
        invariant
            n == line@.len(),
            i <= n,
            comment_start(line@, i as nat) == comment_start(line@, 0),
        decreases n - i,
    {
        let ch = line[i];
        if ch == '"' || ch == '\'' {
            proof {
                lemma_find_char_from(line@, (i + 1) as nat, ch);
            }
            let mut e = i + 1;
            while e < n && line[e] != ch
                invariant
                    n == line@.len(),
                    i + 1 <= e <= n,
                    find_char_from(line@, e as nat, ch) == find_char_from(line@, (i + 1) as nat, ch),
                decreases n - e,
            {
                e = e + 1;
            }
            if e >= n {
                i = n;
            } else {
                i = e + 1;
            }
        } else if ch == '#' || (ch == '/' && i + 1 < n && line[i + 1] == '/') {
            return sub_chars(line, 0, i);
        } else {
            i = i + 1;
        }
    }
    sub_chars(line, 0, n)
}

/// The value of a run of ASCII digits.
pub open spec fn digits_value_chars(d: Seq<char>) -> nat
    decreases d.len(),
{
    if d.len() == 0 {
        0
    } else {
        digits_value_chars(d.drop_last()) * 10 + ((d.last() as u32) - 48) as nat
    }
}

pub open spec fn all_digits(d: Seq<char>) -> bool {
    forall|i: int| 0 <= i < d.len() ==> is_ascii_digit_char(#[trigger] d[i])
}

/// What `str::parse::<u64>` gives: an optional `+` and at least one digit, in range.
pub open spec fn parse_u64_spec(s: Seq<char>) -> Option<u64> {
    let d = if s.len() > 0 && s[0] == '+' {
        s.drop_first()
    } else {
        s
    };
    if d.len() > 0 && all_digits(d) && digits_value_chars(d) <= u64::MAX {
        Some(digits_value_chars(d) as u64)
    } else {
        None
    }
}

pub fn parse_u64(s: &Vec<char>) -> (r: Option<u64>)
    ensures
        r == parse_u64_spec(s@),
{
    let start: usize = if s.len() > 0 && s[0] == '+' {
        1
    } else {
        0
    };
    let ghost d = if s@.len() > 0 && s@[0] == '+' {
        s@.drop_first()
    } else {
        s@
    };
    assert(d =~= s@.subrange(start as int, s@.len() as int));
    if start >= s.len() {
        return None;
    }
    let mut value: Option<u64> = Some(0);
    let mut i = start;
    while i < s.len()
        invariant
            start <= i <= s@.len(),
            d == s@.subrange(start as int, s@.len() as int),
            d == (if s@.len() > 0 && s@[0] == '+' {
                s@.drop_first()
            } else {
                s@
            }),
            all_digits(s@.subrange(start as int, i as int)),
            value matches Some(v) ==> v == digits_value_chars(s@.subrange(start as int, i as int)),
            value is None ==> digits_value_chars(s@.subrange(start as int, i as int)) > u64::MAX,
        decreases s@.len() - i,
    {
        let c = s[i];
        if !('0' <= c && c <= '9') {
            assert(d[i - start] == c);
            assert(!all_digits(d));
            return None;
        }
        let dg = (c as u32 - 48) as u64;
        assert(s@.subrange(start as int, i + 1).drop_last() =~= s@.subrange(start as int, i as int));
        value = match value {
            Some(v) => match v.checked_mul(10) {
                Some(v10) => v10.checked_add(dg),
                None => None,
            },
            None => None,
        };
        i = i + 1;
        assert forall|j: int| 0 <= j < s@.subrange(start as int, i as int).len() implies
            is_ascii_digit_char(#[trigger] s@.subrange(start as int, i as int)[j]) by {
            if j < i - 1 - start {
                assert(s@.subrange(start as int, i as int)[j] == s@.subrange(start as int, i - 1)[j]);
            }
        }
    }
    value
}

/// The lines of `s` (split at `\n`, with no empty piece after a final `\n`), each trimmed.
pub open spec fn lines_of(s: Seq<char>) -> Seq<Seq<char>> {
    let pieces = if s.len() == 0 {
        seq![]
    } else if s.last() == '\n' {
        split_char(s, '\n').drop_last()
    } else {
        split_char(s, '\n')
    };
    pieces.map_values(|l: Seq<char>| trim(l))
}

} // verus!

verus! {

// ---------------------------------------------------------------------------
// More searching and trimming
// ---------------------------------------------------------------------------

/// Whether `s` from position `i` on starts with `p`.
pub fn starts_with_at(s: &Vec<char>, p: &Vec<char>, i: usize) -> (b: bool)
    requires
        i <= s@.len(),
    ensures
        b == starts_with(s@.subrange(i as int, s@.len() as int), p@),
{
    if p.len() > s.len() - i {
        return false;
    }
    let b = matches_at(s, p, i);
    assert(s@.subrange(i as int, s@.len() as int).subrange(0, p@.len() as int) =~= s@.subrange(
        i as int,
        i + p@.len(),
    ));
    b
}

proof fn lemma_find_from(s: Seq<char>, p: Seq<char>, i: nat)
    ensures
        find_from(s, p, i) matches Some(k) ==> i <= k && k + p.len() <= s.len() && s.subrange(
            k as int,
            (k + p.len()) as int,
        ) == p,
    decreases s.len() + 1 - i,
{
    if i + p.len() <= s.len() && s.subrange(i as int, (i + p.len()) as int) != p {
        lemma_find_from(s, p, i + 1);
    }
}

/// Where `find_seq` finds `p`, `p` occurs, within `s`.
pub proof fn lemma_find_seq(s: Seq<char>, p: Seq<char>)
    ensures
        find_seq(s, p) matches Some(k) ==> k + p.len() <= s.len() && s.subrange(
            k as int,
            (k + p.len()) as int,
        ) == p,
{
    lemma_find_from(s, p, 0);
}

/// Trimming never makes a text longer.
pub proof fn lemma_trim_len(t: Seq<char>)
    ensures
        trim_left(t).len() <= t.len(),
        trim_right(t).len() <= t.len(),
        trim(t).len() <= t.len(),
    decreases t.len(),
{
    lemma_trim_left_len(t);
    lemma_trim_right_len(t);
    lemma_trim_right_len(trim_left(t));
}

proof fn lemma_trim_right_len(t: Seq<char>)
    ensures
        trim_right(t).len() <= t.len(),
    decreases t.len(),
{
    if t.len() > 0 && is_ws(t.last()) {
        lemma_trim_right_len(t.drop_last());
    }
}

/// `t` without its trailing whitespace.
pub fn trim_end_ws(t: &Vec<char>) -> (r: Vec<char>)
    ensures
        r@ == trim_right(t@),
{
    let n = t.len();
    let mut k: usize = n;
    while k > 0 && is_whitespace(t[k - 1])
        invariant
            n == t@.len(),
            k <= n,
            forall|j: int| k <= j < n ==> is_ws(#[trigger] t@[j]),
        decreases k,
    {
        k = k - 1;
    }
    proof {
        lemma_trim_right(t@, k as int);
    }
    sub_chars(t, 0, k)
}

proof fn lemma_split_nonempty(s: Seq<char>, c: char)
    ensures
        split_char(s, c).len() >= 1,
{
}

/// The lines of `s`, each trimmed (what `str::lines` gives, with `str::trim` on each).
pub fn script_lines(s: &Vec<char>) -> (r: Vec<Vec<char>>)
    ensures
        r@.map_values(|v: Vec<char>| v@) == lines_of(s@),
{
    let mut r: Vec<Vec<char>> = Vec::new();
    if s.len() == 0 {
        assert(r@.map_values(|v: Vec<char>| v@) =~= lines_of(s@));
        return r;
    }
    let pieces = split_on(s, '\n');
    let ghost pv = pieces@.map_values(|v: Vec<char>| v@);
    proof {
        lemma_split_nonempty(s@, '\n');
    }
    let n = if s[s.len() - 1] == '\n' {
        pieces.len() - 1
    } else {
        pieces.len()
    };
    let ghost kept = if s@.last() == '\n' {
        split_char(s@, '\n').drop_last()
    } else {
        split_char(s@, '\n')
    };
    assert(kept.len() == n);
    let mut i: usize = 0;
    while i < n
        invariant
            n <= pieces@.len(),
            kept.len() == n,
            pv == pieces@.map_values(|v: Vec<char>| v@),
            pv == split_char(s@, '\n'),
            forall|j: int| 0 <= j < n ==> kept[j] == pv[j],
            i <= n,
            r@.map_values(|v: Vec<char>| v@) == kept.subrange(0, i as int).map_values(
                |l: Seq<char>| trim(l),
            ),
        decreases n - i,
    {
        let t = trim_chars(&pieces[i]);
        let ghost old_r = r@;
        r.push(t);
        assert(pv[i as int] == pieces@[i as int]@);
        assert(t@ == trim(kept[i as int]));
        let ghost rv = r@.map_values(|v: Vec<char>| v@);
        let ghost kv = kept.subrange(0, i + 1).map_values(|l: Seq<char>| trim(l));
        let ghost ov = old_r.map_values(|v: Vec<char>| v@);
        let ghost okv = kept.subrange(0, i as int).map_values(|l: Seq<char>| trim(l));
        assert(r@ == old_r.push(t));
        assert(okv.len() == i);
        assert(ov.len() == old_r.len());
        assert(rv.len() == i + 1 && kv.len() == i + 1);
        assert forall|j: int| 0 <= j <= i implies #[trigger] rv[j] == kv[j] by {
            if j < i {
                assert(r@[j] == old_r[j]);
                assert(ov[j] == okv[j]);
                assert(kept.subrange(0, i as int)[j] == kept[j]);
            } else {
                assert(r@[j] == t);
            }
        }
        assert(rv =~= kv);
        i = i + 1;
    }
    assert(kept.subrange(0, n as int) =~= kept);
    r
}

} // verus!

verus! {

/// A character occurs at most as often as a text is long.
pub proof fn lemma_count_le(s: Seq<char>, c: char)
    ensures
        count_char(s, c) <= s.len(),
    decreases s.len(),
{
    if s.len() > 0 {
        lemma_count_le(s.drop_last(), c);
    }
}

/// `str::split` gives at most one piece more than the text has characters.
pub proof fn lemma_split_len(s: Seq<char>, c: char)
    ensures
        split_char(s, c).len() <= s.len() + 1,
    decreases s.len(),
{
    lemma_rfind_char(s, c);
    match rfind_char(s, c) {
        Some(k) => {
            if k < s.len() {
                lemma_split_len(s.subrange(0, k as int), c);
            }
        },
        None => {},
    }
}

/// A text has at most one line more than it has characters.
pub proof fn lemma_lines_len(s: Seq<char>)
    ensures
        lines_of(s).len() <= s.len() + 1,
{
    lemma_split_len(s, '\n');
}

/// Appends the characters of `w` to `v`.
pub fn push_all(v: &mut Vec<char>, w: &Vec<char>)
    ensures
        final(v)@ == old(v)@ + w@,
{
    let mut i: usize = 0;
    let ghost v0 = v@;
    while i < w.len()
        invariant
            i <= w@.len(),
            v@ == v0 + w@.subrange(0, i as int),
        decreases w@.len() - i,
    {
        v.push(w[i]);
        i = i + 1;
        assert(v@ =~= v0 + w@.subrange(0, i as int));
    }
    assert(w@.subrange(0, w@.len() as int) =~= w@);
}

} // verus!

verus! {

// ---------------------------------------------------------------------------
// Trimming and comments around a fixed prefix
// ---------------------------------------------------------------------------

/// Trimming on the left skips a whitespace prefix.
pub proof fn lemma_trim_left_after_ws(w: Seq<char>, u: Seq<char>)
    requires
        forall|j: int| 0 <= j < w.len() ==> is_ws(#[trigger] w[j]),
    ensures
        trim_left(w + u) == trim_left(u),
    decreases w.len(),
{
    if w.len() == 0 {
        assert(w + u =~= u);
    } else {
        assert((w + u)[0] == w[0]);
        assert((w + u).drop_first() =~= w.drop_first() + u);
        lemma_trim_left_after_ws(w.drop_first(), u);
    }
}

/// Trimming on the right keeps whatever stands before a text that does not trim away.
pub proof fn lemma_trim_right_after(a: Seq<char>, u: Seq<char>)
    requires
        trim_right(u).len() > 0,
    ensures
        trim_right(a + u) == a + trim_right(u),
    decreases u.len(),
{
    if u.len() == 0 {
    } else if is_ws(u.last()) {
        assert((a + u).last() == u.last());
        assert((a + u).drop_last() =~= a + u.drop_last());
        lemma_trim_right_after(a, u.drop_last());
    } else {
        assert((a + u).last() == u.last());
    }
}

/// What trimming on the right leaves: a prefix of the text that, if not empty, ends with a
/// character other than whitespace.
pub proof fn lemma_trim_right_shape(u: Seq<char>)
    ensures
        trim_right(u) == u.take(trim_right(u).len() as int),
        trim_right(u).len() <= u.len(),
        trim_right(u).len() > 0 ==> !is_ws(trim_right(u).last()),
    decreases u.len(),
{
    if u.len() > 0 && is_ws(u.last()) {
        lemma_trim_right_shape(u.drop_last());
        assert(u.drop_last().take(trim_right(u).len() as int) =~= u.take(trim_right(u).len() as int));
    } else {
        assert(u.take(u.len() as int) =~= u);
    }
}

/// What trimming on the left leaves: the text after a whitespace prefix, which, if not
/// empty, starts with a character other than whitespace.
pub proof fn lemma_trim_left_shape(u: Seq<char>)
    ensures
        trim_left(u).len() <= u.len(),
        trim_left(u) == u.skip(u.len() - trim_left(u).len()),
        forall|j: int| 0 <= j < u.len() - trim_left(u).len() ==> is_ws(#[trigger] u[j]),
        trim_left(u).len() > 0 ==> !is_ws(trim_left(u)[0]),
    decreases u.len(),
{
    if u.len() > 0 && is_ws(u[0]) {
        lemma_trim_left_shape(u.drop_first());
        let k = u.len() - trim_left(u).len();
        assert(u.drop_first().skip(k - 1) =~= u.skip(k));
        assert forall|j: int| 0 <= j < k implies is_ws(#[trigger] u[j]) by {
            if j > 0 {
                assert(u[j] == u.drop_first()[j - 1]);
            }
        }
    } else {
        assert(u.skip(0) =~= u);
    }
}

proof fn lemma_find_char_shift(a: Seq<char>, r: Seq<char>, j: nat, c: char)
    requires
        j <= r.len(),
    ensures
        find_char_from(a + r, a.len() + j, c) == a.len() + find_char_from(r, j, c),
    decreases r.len() - j,
{
    if j < r.len() {
        assert((a + r)[(a.len() + j) as int] == r[j as int]);
        if r[j as int] != c {
            lemma_find_char_shift(a, r, j + 1, c);
        }
    }
}

proof fn lemma_comment_start_shift(a: Seq<char>, r: Seq<char>, j: nat)
    requires
        j <= r.len(),
    ensures
        comment_start(a + r, a.len() + j) == a.len() + comment_start(r, j),
    decreases r.len() - j,
{
    let s = a + r;
    let i = a.len() + j;
    if j < r.len() {
        let c = r[j as int];
        assert(s[i as int] == c);
        if c == '"' || c == '\'' {
            lemma_find_char_shift(a, r, j + 1, c);
            lemma_find_char_from(r, j + 1, c);
            let e = find_char_from(r, j + 1, c);
            if e < r.len() && e > j {
                lemma_comment_start_shift(a, r, e + 1);
            }
        } else if c != '#' {
            if j + 1 < r.len() {
                assert(s[(i + 1) as int] == r[(j + 1) as int]);
            }
            if !(c == '/' && j + 1 < r.len() && r[(j + 1) as int] == '/') {
                lemma_comment_start_shift(a, r, j + 1);
            }
        }
    }
}

proof fn lemma_comment_start_plain_prefix(a: Seq<char>, r: Seq<char>, i: nat)
    requires
        i <= a.len(),
        forall|j: int|
            0 <= j < a.len() ==> #[trigger] a[j] != '"' && a[j] != '\'' && a[j] != '#' && a[j] != '/',
    ensures
        comment_start(a + r, i) == comment_start(a + r, a.len()),
    decreases a.len() - i,
{
    if i < a.len() {
        assert((a + r)[i as int] == a[i as int]);
        lemma_comment_start_plain_prefix(a, r, i + 1);
    }
}

/// A prefix without quotes, `#` or `/` leaves the comment of what follows it in place.
pub proof fn lemma_strip_comment_after(a: Seq<char>, r: Seq<char>)
    requires
        forall|j: int|
            0 <= j < a.len() ==> #[trigger] a[j] != '"' && a[j] != '\'' && a[j] != '#' && a[j] != '/',
    ensures
        strip_comment(a + r) == a + strip_comment(r),
{
    lemma_comment_start_plain_prefix(a, r, 0);
    lemma_comment_start_shift(a, r, 0);
    lemma_comment_start(r, 0);
    assert((a + r).subrange(0, (a.len() + comment_start(r, 0)) as int) =~= a + r.subrange(
        0,
        comment_start(r, 0) as int,
    ));
}

} // verus!
