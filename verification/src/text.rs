//! Character-level text model shared by the classifiers and formatters.
//!
//! Strings are handled as sequences of Unicode scalar values (`Seq<char>`),
//! which is exactly the view Verus gives to `str` and `String`.
use vstd::prelude::*;

verus! {

/// Unicode `White_Space` code points: the set that `char::is_whitespace`,
/// `str::trim` and `str::split_whitespace` use.
pub open spec fn is_ws(c: char) -> bool {
    let v = c as u32;
    (9 <= v && v <= 13) || v == 32 || v == 0x85 || v == 0xA0 || v == 0x1680 || (0x2000 <= v
        && v <= 0x200A) || v == 0x2028 || v == 0x2029 || v == 0x202F || v == 0x205F || v
        == 0x3000
}

pub open spec fn is_ascii_upper(c: char) -> bool {
    'A' <= c && c <= 'Z'
}

pub open spec fn is_ascii_lower(c: char) -> bool {
    'a' <= c && c <= 'z'
}

pub open spec fn is_ascii_alpha(c: char) -> bool {
    is_ascii_upper(c) || is_ascii_lower(c)
}

pub open spec fn is_ascii_alnum(c: char) -> bool {
    is_ascii_alpha(c) || ('0' <= c && c <= '9')
}

/// `char::to_ascii_lowercase`.
pub open spec fn lower_char(c: char) -> char {
    if is_ascii_upper(c) {
        ((c as u32) + 32) as char
    } else {
        c
    }
}

/// `str::to_ascii_lowercase`.
pub open spec fn lower(s: Seq<char>) -> Seq<char> {
    s.map_values(|c: char| lower_char(c))
}

/// Character classes that the trimming and splitting helpers strip.
#[derive(Clone, Copy, PartialEq, Eq, Debug)]
pub enum Strip {
    /// Unicode whitespace.
    Space,
    /// The full stop `.`.
    Dot,
    /// Anything that is not an ASCII letter.
    NonAlpha,
    /// Anything that is not an ASCII letter or digit.
    NonAlnum,
    /// Opening marks before a bare URL: `( < " '`.
    OpenMark,
    /// Closing marks after a Markdown link target: `) ] . , ; ! ? " '`.
    CloseLink,
    /// Closing marks after a bare URL: `) ] > . , ; ! ? " '`.
    CloseBare,
    /// The slash `/`.
    Slash,
    /// The hyphen `-`.
    Dash,
    /// The line feed `\n`.
    Newline,
}

pub open spec fn strip_spec(k: Strip, c: char) -> bool {
    match k {
        Strip::Space => is_ws(c),
        Strip::Dot => c == '.',
        Strip::NonAlpha => !is_ascii_alpha(c),
        Strip::NonAlnum => !is_ascii_alnum(c),
        Strip::OpenMark => c == '(' || c == '<' || c == '"' || c == '\'',
        Strip::CloseLink => c == ')' || c == ']' || c == '.' || c == ',' || c == ';' || c == '!'
            || c == '?' || c == '"' || c == '\'',
        Strip::CloseBare => c == ')' || c == ']' || c == '>' || c == '.' || c == ',' || c == ';'
            || c == '!' || c == '?' || c == '"' || c == '\'',
        Strip::Slash => c == '/',
        Strip::Dash => c == '-',
        Strip::Newline => c == '\n',
    }
}

/// First index at or after `i` whose character is not in class `k`.
pub open spec fn lead(s: Seq<char>, k: Strip, i: int) -> int
    decreases s.len() - i,
{
    if i >= s.len() {
        s.len() as int
    } else if strip_spec(k, s[i]) {
        lead(s, k, i + 1)
    } else {
        i
    }
}

/// One past the last index before `j` (and not below `lo`) whose character
/// is not in class `k`.
pub open spec fn tail(s: Seq<char>, k: Strip, j: int, lo: int) -> int
    decreases j - lo,
{
    if j <= lo {
        lo
    } else if strip_spec(k, s[j - 1]) {
        tail(s, k, j - 1, lo)
    } else {
        j
    }
}

/// First index at or after `i` whose character is in class `k`.
pub open spec fn stop(s: Seq<char>, k: Strip, i: int) -> int
    decreases s.len() - i,
{
    if i >= s.len() {
        s.len() as int
    } else if strip_spec(k, s[i]) {
        i
    } else {
        stop(s, k, i + 1)
    }
}

/// `trim_matches` with the class `k` on both ends.
pub open spec fn trim_class(s: Seq<char>, k: Strip) -> Seq<char> {
    let lo = lead(s, k, 0);
    s.subrange(lo, tail(s, k, s.len() as int, lo))
}

/// `trim_start_matches` with the class `k`.
pub open spec fn trim_front(s: Seq<char>, k: Strip) -> Seq<char> {
    s.subrange(lead(s, k, 0), s.len() as int)
}

/// `trim_end_matches` with the class `k`.
pub open spec fn trim_back(s: Seq<char>, k: Strip) -> Seq<char> {
    s.subrange(0, tail(s, k, s.len() as int, 0))
}

/// `str::trim`.
pub open spec fn trim(s: Seq<char>) -> Seq<char> {
    trim_class(s, Strip::Space)
}

/// The first word that `split_whitespace` yields (empty when there is none).
pub open spec fn first_word(s: Seq<char>) -> Seq<char> {
    let a = lead(s, Strip::Space, 0);
    s.subrange(a, stop(s, Strip::Space, a))
}

/// `t` occurs in `s` at position `i`.
pub open spec fn has_at(s: Seq<char>, t: Seq<char>, i: int) -> bool {
    0 <= i && i + t.len() <= s.len() && s.subrange(i, i + t.len()) == t
}

/// `str::contains` with a string pattern.
pub open spec fn has_sub(s: Seq<char>, t: Seq<char>) -> bool {
    exists|i: int| has_at(s, t, i)
}

pub open spec fn starts_with(s: Seq<char>, p: Seq<char>) -> bool {
    has_at(s, p, 0)
}

pub open spec fn ends_with(s: Seq<char>, p: Seq<char>) -> bool {
    has_at(s, p, s.len() - p.len())
}

/// Bytes that UTF-8 uses for one scalar value.
pub open spec fn utf8_width(c: char) -> nat {
    let v = c as u32;
    if v < 0x80 {
        1
    } else if v < 0x800 {
        2
    } else if v < 0x10000 {
        3
    } else {
        4
    }
}

/// Length in bytes of the UTF-8 encoding (`str::len`).
pub open spec fn utf8_len(s: Seq<char>) -> nat
    decreases s.len(),
{
    if s.len() == 0 {
        0
    } else {
        utf8_len(s.drop_last()) + utf8_width(s.last())
    }
}

pub proof fn lemma_lead_bounds(s: Seq<char>, k: Strip, i: int)
    requires
        0 <= i <= s.len(),
    ensures
        i <= lead(s, k, i) <= s.len(),
        forall|j: int| i <= j < lead(s, k, i) ==> strip_spec(k, #[trigger] s[j]),
        lead(s, k, i) < s.len() ==> !strip_spec(k, s[lead(s, k, i)]),
    decreases s.len() - i,
{
    if i < s.len() && strip_spec(k, s[i]) {
        lemma_lead_bounds(s, k, i + 1);
    }
}

pub proof fn lemma_tail_bounds(s: Seq<char>, k: Strip, j: int, lo: int)
    requires
        0 <= lo <= j <= s.len(),
    ensures
        lo <= tail(s, k, j, lo) <= j,
        forall|m: int| tail(s, k, j, lo) <= m < j ==> strip_spec(k, #[trigger] s[m]),
        tail(s, k, j, lo) > lo ==> !strip_spec(k, s[tail(s, k, j, lo) - 1]),
    decreases j - lo,
{
    if j > lo && strip_spec(k, s[j - 1]) {
        lemma_tail_bounds(s, k, j - 1, lo);
    }
}

pub proof fn lemma_stop_bounds(s: Seq<char>, k: Strip, i: int)
    requires
        0 <= i <= s.len(),
    ensures
        i <= stop(s, k, i) <= s.len(),
        forall|j: int| i <= j < stop(s, k, i) ==> !strip_spec(k, #[trigger] s[j]),
        stop(s, k, i) < s.len() ==> strip_spec(k, s[stop(s, k, i)]),
    decreases s.len() - i,
{
    if i < s.len() && !strip_spec(k, s[i]) {
        lemma_stop_bounds(s, k, i + 1);
    }
}

/// Trimming a trimmed string changes nothing.
pub proof fn lemma_trim_idempotent(s: Seq<char>)
    ensures
        trim(trim(s)) == trim(s),
{
    let lo = lead(s, Strip::Space, 0);
    lemma_lead_bounds(s, Strip::Space, 0);
    let hi = tail(s, Strip::Space, s.len() as int, lo);
    lemma_tail_bounds(s, Strip::Space, s.len() as int, lo);
    let t = s.subrange(lo, hi);
    if t.len() > 0 {
        assert(t[0] == s[lo]);
        assert(t[t.len() - 1] == s[hi - 1]);
    }
    assert(lead(t, Strip::Space, 0) == 0);
    assert(tail(t, Strip::Space, t.len() as int, 0) == t.len());
    assert(t.subrange(0, t.len() as int) =~= t);
}

/// A string that neither starts nor ends with whitespace is its own trim.
proof fn lemma_trim_noop(x: Seq<char>)
    requires
        x.len() > 0 ==> !is_ws(x[0]) && !is_ws(x[x.len() - 1]),
    ensures
        trim(x) == x,
{
    assert(lead(x, Strip::Space, 0) == 0);
    assert(tail(x, Strip::Space, x.len() as int, 0) == x.len());
    assert(x.subrange(0, x.len() as int) =~= x);
}

/// Trimming and ASCII-lower-casing a second time changes nothing.
pub proof fn lemma_lower_trim_idempotent(v: Seq<char>)
    ensures
        lower(trim(lower(trim(v)))) == lower(trim(v)),
{
    let lo = lead(v, Strip::Space, 0);
    lemma_lead_bounds(v, Strip::Space, 0);
    let hi = tail(v, Strip::Space, v.len() as int, lo);
    lemma_tail_bounds(v, Strip::Space, v.len() as int, lo);
    let t = trim(v);
    assert(t == v.subrange(lo, hi));
    let x = lower(t);
    if t.len() > 0 {
        assert(t[0] == v[lo]);
        assert(t[t.len() - 1] == v[hi - 1]);
        assert(x[0] == lower_char(t[0]));
        assert(x[x.len() - 1] == lower_char(t[t.len() - 1]));
    }
    lemma_trim_noop(x);
    assert(lower(x) =~= x);
}

pub proof fn lemma_utf8_len_step(s: Seq<char>, a: int, i: int)
    requires
        0 <= a <= i < s.len(),
    ensures
        utf8_len(s.subrange(a, i + 1)) == utf8_len(s.subrange(a, i)) + utf8_width(s[i]),
{
    assert(s.subrange(a, i + 1).drop_last() =~= s.subrange(a, i));
}

pub fn is_whitespace_char(c: char) -> (r: bool)
    ensures
        r == is_ws(c),
{
    let v = c as u32;
    (9 <= v && v <= 13) || v == 32 || v == 0x85 || v == 0xA0 || v == 0x1680 || (0x2000 <= v
        && v <= 0x200A) || v == 0x2028 || v == 0x2029 || v == 0x202F || v == 0x205F || v
        == 0x3000
}

pub fn is_upper_char(c: char) -> (r: bool)
    ensures
        r == is_ascii_upper(c),
{
    'A' <= c && c <= 'Z'
}

pub fn is_lower_char(c: char) -> (r: bool)
    ensures
        r == is_ascii_lower(c),
{
    'a' <= c && c <= 'z'
}

pub fn is_alpha_char(c: char) -> (r: bool)
    ensures
        r == is_ascii_alpha(c),
{
    is_upper_char(c) || is_lower_char(c)
}

pub fn is_alnum_char(c: char) -> (r: bool)
    ensures
        r == is_ascii_alnum(c),
{
    is_alpha_char(c) || ('0' <= c && c <= '9')
}

pub fn strips(k: Strip, c: char) -> (r: bool)
    ensures
        r == strip_spec(k, c),
{
    match k {
        Strip::Space => is_whitespace_char(c),
        Strip::Dot => c == '.',
        Strip::NonAlpha => !is_alpha_char(c),
        Strip::NonAlnum => !is_alnum_char(c),
        Strip::OpenMark => c == '(' || c == '<' || c == '"' || c == '\'',
        Strip::CloseLink => c == ')' || c == ']' || c == '.' || c == ',' || c == ';' || c
            == '!' || c == '?' || c == '"' || c == '\'',
        Strip::CloseBare => c == ')' || c == ']' || c == '>' || c == '.' || c == ',' || c
            == ';' || c == '!' || c == '?' || c == '"' || c == '\'',
        Strip::Slash => c == '/',
        Strip::Dash => c == '-',
        Strip::Newline => c == '\n',
    }
}

pub fn lower_char_exec(c: char) -> (r: char)
    ensures
        r == lower_char(c),
{
    if is_upper_char(c) {
        let b: u8 = c as u8;
        let r = (b + 32) as char;
        assert(r as u32 == c as u32 + 32);
        r
    } else {
        c
    }
}

/// The string that `str::to_lowercase` returns for `s` (the full Unicode
/// lower-case mapping, which can change the length of the text).
pub uninterp spec fn unicode_lower(s: Seq<char>) -> Seq<char>;

/// Calls `str::to_lowercase`; its result is named by `unicode_lower` and
/// nothing more is claimed of it.
#[verifier::external_body]
pub(crate) fn to_lowercase(s: &str) -> (r: String)
    ensures
        r@ == unicode_lower(s@),
{
    s.to_lowercase()
}

#[verifier::external_body]
/// `String::push` appends one character to the end of the string.
fn push_char(s: &mut String, c: char)
    ensures
        final(s)@ == old(s)@.push(c),
{
    s.push(c);
}

/// The characters of `s`.
pub fn chars_of(s: &str) -> (v: Vec<char>)
    ensures
        v@ == s@,
{
    let mut v: Vec<char> = Vec::new();
    for c in it: s.chars()
        invariant
            v@ == it.seq().take(it.index() as int),
            it.seq() == s@,
    {
        v.push(c);
    }
    assert(v@ =~= s@);
    v
}

/// A `String` holding exactly the characters `v`.
pub fn string_of(v: &Vec<char>) -> (s: String)
    ensures
        s@ == v@,
{
    let mut s = String::new();
    let mut i: usize = 0;
    while i < v.len()
        invariant
            i <= v.len(),
            s@ == v@.subrange(0, i as int),
        decreases v.len() - i,
    {
        push_char(&mut s, v[i]);
        i = i + 1;
        assert(s@ =~= v@.subrange(0, i as int));
    }
    assert(v@.subrange(0, v.len() as int) =~= v@);
    s
}

/// The characters `s[a..b]`.
pub fn slice_of(s: &Vec<char>, a: usize, b: usize) -> (r: Vec<char>)
    requires
        a <= b <= s.len(),
    ensures
        r@ == s@.subrange(a as int, b as int),
{
    let mut r: Vec<char> = Vec::new();
    let mut i = a;
    while i < b
        invariant
            a <= i <= b <= s.len(),
            r@ == s@.subrange(a as int, i as int),
        decreases b - i,
    {
        r.push(s[i]);
        i = i + 1;
        assert(r@ =~= s@.subrange(a as int, i as int));
    }
    r
}

/// Appends the characters of `t` to `r`.
pub fn push_all(r: &mut Vec<char>, t: &Vec<char>)
    ensures
        final(r)@ == old(r)@ + t@,
{
    let mut i: usize = 0;
    while i < t.len()
        invariant
            i <= t.len(),
            r@ == old(r)@ + t@.subrange(0, i as int),
        decreases t.len() - i,
    {
        r.push(t[i]);
        i = i + 1;
        assert(r@ =~= old(r)@ + t@.subrange(0, i as int));
    }
    assert(t@.subrange(0, t.len() as int) =~= t@);
}

pub fn lead_index(s: &Vec<char>, k: Strip, i: usize) -> (r: usize)
    requires
        i <= s.len(),
    ensures
        r == lead(s@, k, i as int),
{
    let mut j = i;
    while j < s.len() && strips(k, s[j])
        invariant
            i <= j <= s.len(),
            lead(s@, k, j as int) == lead(s@, k, i as int),
        decreases s.len() - j,
    {
        j = j + 1;
    }
    j
}

pub fn tail_index(s: &Vec<char>, k: Strip, j: usize, lo: usize) -> (r: usize)
    requires
        lo <= j <= s.len(),
    ensures
        r == tail(s@, k, j as int, lo as int),
{
    let mut m = j;
    while m > lo && strips(k, s[m - 1])
        invariant
            lo <= m <= j <= s.len(),
            tail(s@, k, m as int, lo as int) == tail(s@, k, j as int, lo as int),
        decreases m - lo,
    {
        m = m - 1;
    }
    m
}

pub fn stop_index(s: &Vec<char>, k: Strip, i: usize) -> (r: usize)
    requires
        i <= s.len(),
    ensures
        r == stop(s@, k, i as int),
{
    let mut j = i;
    while j < s.len() && !strips(k, s[j])
        invariant
            i <= j <= s.len(),
            stop(s@, k, j as int) == stop(s@, k, i as int),
        decreases s.len() - j,
    {
        j = j + 1;
    }
    j
}

/// `trim_matches` of class `k`.
pub fn trimmed(s: &Vec<char>, k: Strip) -> (r: Vec<char>)
    ensures
        r@ == trim_class(s@, k),
{
    let lo = lead_index(s, k, 0);
    proof {
        lemma_lead_bounds(s@, k, 0);
    }
    let hi = tail_index(s, k, s.len(), lo);
    proof {
        lemma_tail_bounds(s@, k, s.len() as int, lo as int);
    }
    slice_of(s, lo, hi)
}

/// `trim_start_matches` of class `k`.
pub fn trimmed_front(s: &Vec<char>, k: Strip) -> (r: Vec<char>)
    ensures
        r@ == trim_front(s@, k),
{
    let lo = lead_index(s, k, 0);
    proof {
        lemma_lead_bounds(s@, k, 0);
    }
    slice_of(s, lo, s.len())
}

/// `trim_end_matches` of class `k`.
pub fn trimmed_back(s: &Vec<char>, k: Strip) -> (r: Vec<char>)
    ensures
        r@ == trim_back(s@, k),
{
    let hi = tail_index(s, k, s.len(), 0);
    proof {
        lemma_tail_bounds(s@, k, s.len() as int, 0);
    }
    slice_of(s, 0, hi)
}

/// `str::trim`.
pub fn trim_chars(s: &Vec<char>) -> (r: Vec<char>)
    ensures
        r@ == trim(s@),
{
    trimmed(s, Strip::Space)
}

/// The first whitespace-separated word of `s`.
pub fn first_word_of(s: &Vec<char>) -> (r: Vec<char>)
    ensures
        r@ == first_word(s@),
{
    let a = lead_index(s, Strip::Space, 0);
    proof {
        lemma_lead_bounds(s@, Strip::Space, 0);
    }
    let b = stop_index(s, Strip::Space, a);
    proof {
        lemma_stop_bounds(s@, Strip::Space, a as int);
    }
    slice_of(s, a, b)
}

/// `str::to_ascii_lowercase`.
pub fn lower_chars(s: &Vec<char>) -> (r: Vec<char>)
    ensures
        r@ == lower(s@),
{
    let mut r: Vec<char> = Vec::new();
    let mut i: usize = 0;
    while i < s.len()
        invariant
            i <= s.len(),
            r@ == lower(s@.subrange(0, i as int)),
        decreases s.len() - i,
    {
        let c = lower_char_exec(s[i]);
        r.push(c);
        i = i + 1;
        assert(r@ =~= lower(s@.subrange(0, i as int)));
    }
    assert(s@.subrange(0, s.len() as int) =~= s@);
    r
}

/// Equality of two character sequences.
pub fn chars_eq(a: &Vec<char>, b: &Vec<char>) -> (r: bool)
    ensures
        r == (a@ == b@),
{
    if a.len() != b.len() {
        return false;
    }
    let mut i: usize = 0;
    while i < a.len()
        invariant
            i <= a.len() == b.len(),
            forall|j: int| 0 <= j < i ==> a@[j] == b@[j],
        decreases a.len() - i,
    {
        if a[i] != b[i] {
            return false;
        }
        i = i + 1;
    }
    assert(a@ =~= b@);
    true
}

/// Whether `t` occurs in `s` at position `i`.
pub fn matches_at(s: &Vec<char>, t: &Vec<char>, i: usize) -> (r: bool)
    ensures
        r == has_at(s@, t@, i as int),
{
    if i > s.len() || t.len() > s.len() - i {
        return false;
    }
    let mut j: usize = 0;
    while j < t.len()
        invariant
            i + t.len() <= s.len(),
            j <= t.len(),
            forall|m: int| 0 <= m < j ==> s@[i + m] == t@[m],
        decreases t.len() - j,
    {
        if s[i + j] != t[j] {
            assert(s@.subrange(i as int, i + t.len())[j as int] != t@[j as int]);
            return false;
        }
        j = j + 1;
    }
    assert(s@.subrange(i as int, i + t.len()) =~= t@);
    true
}

/// `str::contains` with a string pattern.
pub fn contains(s: &Vec<char>, t: &Vec<char>) -> (r: bool)
    ensures
        r == has_sub(s@, t@),
{
    if t.len() > s.len() {
        assert forall|i: int| !has_at(s@, t@, i) by {}
        return false;
    }
    let last = s.len() - t.len();
    let mut i: usize = 0;
    while i <= last
        invariant
            last == s.len() - t.len(),
            i <= last,
            forall|m: int| 0 <= m < i ==> !has_at(s@, t@, m),
        ensures
            forall|m: int| 0 <= m <= last ==> !has_at(s@, t@, m),
        decreases last - i,
    {
        if matches_at(s, t, i) {
            return true;
        }
        if i == last {
            break;
        }
        i = i + 1;
    }
    assert forall|m: int| !has_at(s@, t@, m) by {
        if 0 <= m && m <= last {
        }
    }
    false
}

pub fn starts_with_chars(s: &Vec<char>, p: &Vec<char>) -> (r: bool)
    ensures
        r == starts_with(s@, p@),
{
    matches_at(s, p, 0)
}

pub fn ends_with_chars(s: &Vec<char>, p: &Vec<char>) -> (r: bool)
    ensures
        r == ends_with(s@, p@),
{
    if p.len() > s.len() {
        return false;
    }
    matches_at(s, p, s.len() - p.len())
}

/// Whether the character `c` occurs in `s`.
pub fn has_char(s: &Vec<char>, c: char) -> (r: bool)
    ensures
        r == s@.contains(c),
{
    let mut i: usize = 0;
    while i < s.len()
        invariant
            i <= s.len(),
            forall|j: int| 0 <= j < i ==> s@[j] != c,
        decreases s.len() - i,
    {
        if s[i] == c {
            return true;
        }
        i = i + 1;
    }
    false
}

/// Whether the UTF-8 encoding of `s[a..b]` has at least `k` bytes.
pub fn utf8_len_at_least(s: &Vec<char>, a: usize, b: usize, k: usize) -> (r: bool)
    requires
        a <= b <= s.len(),
    ensures
        r == (utf8_len(s@.subrange(a as int, b as int)) >= k),
{
    if k == 0 {
        return true;
    }
    proof {
        assert(s@.subrange(a as int, a as int) =~= Seq::<char>::empty());
    }
    let mut acc: usize = 0;
    let mut i = a;
    while i < b
        invariant
            a <= i <= b <= s.len(),
            acc == utf8_len(s@.subrange(a as int, i as int)),
            acc < k,
        decreases b - i,
    {
        let v = s[i] as u32;
        let w: usize = if v < 0x80 {
            1
        } else if v < 0x800 {
            2
        } else if v < 0x10000 {
            3
        } else {
            4
        };
        proof {
            lemma_utf8_len_step(s@, a as int, i as int);
        }
        if w >= k - acc {
            proof {
                lemma_utf8_len_monotone(s@, a as int, i + 1, b as int);
            }
            return true;
        }
        acc = acc + w;
        i = i + 1;
    }
    false
}

pub proof fn lemma_utf8_len_monotone(s: Seq<char>, a: int, i: int, b: int)
    requires
        0 <= a <= i <= b <= s.len(),
    ensures
        utf8_len(s.subrange(a, i)) <= utf8_len(s.subrange(a, b)),
    decreases b - i,
{
    if i < b {
        lemma_utf8_len_monotone(s, a, i, b - 1);
        lemma_utf8_len_step(s, a, b - 1);
    }
}

/// The pieces `ss` joined with `sep` between neighbours (`slice::join`).
pub open spec fn join(ss: Seq<Seq<char>>, sep: Seq<char>) -> Seq<char>
    decreases ss.len(),
{
    if ss.len() == 0 {
        Seq::empty()
    } else if ss.len() == 1 {
        ss[0]
    } else {
        join(ss.drop_last(), sep) + sep + ss.last()
    }
}

pub open spec fn char_views(v: Seq<Vec<char>>) -> Seq<Seq<char>> {
    v.map_values(|x: Vec<char>| x@)
}

/// `slice::join` of character pieces.
pub fn join_chars(ss: &Vec<Vec<char>>, sep: &Vec<char>) -> (r: Vec<char>)
    ensures
        r@ == join(char_views(ss@), sep@),
{
    let mut r: Vec<char> = Vec::new();
    let mut i: usize = 0;
    while i < ss.len()
        invariant
            i <= ss.len(),
            r@ == join(char_views(ss@.subrange(0, i as int)), sep@),
        decreases ss.len() - i,
    {
        let ghost prefix = char_views(ss@.subrange(0, i as int));
        let ghost next = char_views(ss@.subrange(0, i + 1));
        if i > 0 {
            push_all(&mut r, sep);
        }
        push_all(&mut r, &ss[i]);
        proof {
            assert(next.drop_last() =~= prefix);
            assert(next.last() == ss@[i as int]@);
            if i == 0 {
                assert(r@ =~= next[0]);
            } else {
                assert(r@ =~= join(prefix, sep@) + sep@ + next.last());
            }
        }
        i = i + 1;
    }
    assert(ss@.subrange(0, ss.len() as int) =~= ss@);
    r
}

/// The characters of a string literal or slice appended to `r`.
pub fn push_str(r: &mut Vec<char>, s: &str)
    ensures
        final(r)@ == old(r)@ + s@,
{
    let c = chars_of(s);
    push_all(r, &c);
}

/// Text without whitespace or ASCII capitals is unchanged by trimming and
/// ASCII lower-casing.
pub proof fn lemma_plain_text(s: Seq<char>)
    requires
        forall|i: int| 0 <= i < s.len() ==> !is_ws(#[trigger] s[i]) && !is_ascii_upper(s[i]),
    ensures
        lower(trim(s)) == s,
{
    lemma_lead_bounds(s, Strip::Space, 0);
    lemma_tail_bounds(s, Strip::Space, s.len() as int, 0);
    if s.len() > 0 {
        assert(lead(s, Strip::Space, 0) == 0);
        assert(tail(s, Strip::Space, s.len() as int, 0) == s.len());
    }
    assert(trim(s) =~= s);
    assert(lower(s) =~= s);
}

} // verus!
