//! Character-sequence helpers shared by the parsers and normalisers.
//!
//! Text is handled as sequences of Unicode scalar values (`char`).  The
//! specifications here describe what std's string operations compute, so
//! that the callers can state their own contracts over `Seq<char>`.
use vstd::prelude::*;

verus! {

/// Unicode `White_Space` property, as used by `char::is_whitespace` and `str::trim`.
pub open spec fn is_ws(c: char) -> bool {
    let u = c as u32;
    ||| 0x9 <= u <= 0xd
    ||| u == 0x20
    ||| u == 0x85
    ||| u == 0xa0
    ||| u == 0x1680
    ||| 0x2000 <= u <= 0x200a
    ||| u == 0x2028
    ||| u == 0x2029
    ||| u == 0x202f
    ||| u == 0x205f
    ||| u == 0x3000
}

/// `s` with its leading white space removed (`str::trim_start`).
pub open spec fn trim_start_spec(s: Seq<char>) -> Seq<char>
    decreases s.len(),
{
    if s.len() > 0 && is_ws(s[0]) {
        trim_start_spec(s.drop_first())
    } else {
        s
    }
}

/// `s` with its trailing white space removed (`str::trim_end`).
pub open spec fn trim_end_spec(s: Seq<char>) -> Seq<char>
    decreases s.len(),
{
    if s.len() > 0 && is_ws(s.last()) {
        trim_end_spec(s.drop_last())
    } else {
        s
    }
}

/// `s` with leading and trailing white space removed (`str::trim`).
pub open spec fn trim_spec(s: Seq<char>) -> Seq<char> {
    trim_end_spec(trim_start_spec(s))
}

/// `needle` occurs in `hay` starting at index `i`.
pub open spec fn occurs_at(hay: Seq<char>, needle: Seq<char>, i: int) -> bool {
    &&& 0 <= i
    &&& i + needle.len() <= hay.len()
    &&& hay.subrange(i, i + needle.len()) == needle
}

/// `needle` is a substring of `hay` (`str::contains`).
pub open spec fn contains_spec(hay: Seq<char>, needle: Seq<char>) -> bool {
    exists|i: int| occurs_at(hay, needle, i)
}

/// `s` starts with `p` (`str::starts_with`).
pub open spec fn starts_with_spec(s: Seq<char>, p: Seq<char>) -> bool {
    p.len() <= s.len() && s.subrange(0, p.len() as int) == p
}

/// `s` ends with `p` (`str::ends_with`).
pub open spec fn ends_with_spec(s: Seq<char>, p: Seq<char>) -> bool {
    p.len() <= s.len() && s.subrange(s.len() - p.len(), s.len() as int) == p
}

/// Index of the first occurrence of `c` in `s`, if any.
pub open spec fn first_index_of(s: Seq<char>, c: char) -> Option<int>
    decreases s.len(),
{
    if s.len() == 0 {
        None
    } else if s[0] == c {
        Some(0)
    } else {
        match first_index_of(s.drop_first(), c) {
            Some(i) => Some(i + 1),
            None => None,
        }
    }
}

/// Index of the last occurrence of `c` in `s`, if any.
pub open spec fn last_index_of(s: Seq<char>, c: char) -> Option<int>
    decreases s.len(),
{
    if s.len() == 0 {
        None
    } else if s.last() == c {
        Some(s.len() - 1)
    } else {
        last_index_of(s.drop_last(), c)
    }
}

/// The pieces of `s` between occurrences of `d` (`str::split` with a `char`).
pub open spec fn split_spec(s: Seq<char>, d: char) -> Seq<Seq<char>>
    decreases s.len(),
{
    if s.len() == 0 {
        seq![Seq::<char>::empty()]
    } else {
        let p = split_spec(s.drop_last(), d);
        if s.last() == d {
            p.push(Seq::<char>::empty())
        } else {
            p.update(p.len() - 1, p.last().push(s.last()))
        }
    }
}

/// Number of bytes of the UTF-8 encoding of `c` (`char::len_utf8`).
pub open spec fn utf8_width(c: char) -> nat {
    let u = c as u32;
    if u < 0x80 {
        1
    } else if u < 0x800 {
        2
    } else if u < 0x10000 {
        3
    } else {
        4
    }
}

/// Number of bytes of the UTF-8 encoding of `s` (`str::len`).
pub open spec fn utf8_len(s: Seq<char>) -> nat
    decreases s.len(),
{
    if s.len() == 0 {
        0
    } else {
        utf8_len(s.drop_last()) + utf8_width(s.last())
    }
}

/// The ASCII decimal digit for `d < 10`.
pub open spec fn digit_char(d: nat) -> char {
    ((d + 48) as u32) as char
}

/// Decimal rendering of `n`, as `{}` formats an unsigned integer.
pub open spec fn decimal_spec(n: nat) -> Seq<char>
    decreases n,
{
    if n < 10 {
        seq![digit_char(n)]
    } else {
        decimal_spec(n / 10).push(digit_char(n % 10))
    }
}

pub open spec fn is_ascii_digit(c: char) -> bool {
    '0' <= c && c <= '9'
}

pub open spec fn digit_value(c: char) -> nat {
    ((c as u32) - 48) as nat
}

/// Value of a run of ASCII decimal digits.
pub open spec fn digits_value(s: Seq<char>) -> nat
    decreases s.len(),
{
    if s.len() == 0 {
        0
    } else {
        digits_value(s.drop_last()) * 10 + digit_value(s.last())
    }
}

pub open spec fn all_digits(s: Seq<char>) -> bool {
    forall|i: int| 0 <= i < s.len() ==> is_ascii_digit(#[trigger] s[i])
}

/// What `str::parse::<u32>` yields: an optional `+`, then one or more ASCII
/// digits whose value fits in a `u32`.
pub open spec fn parse_u32_spec(s: Seq<char>) -> Option<u32> {
    let d = if s.len() > 0 && s[0] == '+' {
        s.drop_first()
    } else {
        s
    };
    if d.len() > 0 && all_digits(d) && digits_value(d) <= u32::MAX {
        Some(digits_value(d) as u32)
    } else {
        None
    }
}

/// Characters of `s` that satisfy `keep`, in order.
pub open spec fn filter_chars(s: Seq<char>, keep: spec_fn(char) -> bool) -> Seq<char> {
    s.filter(keep)
}

/// The block of CJK Unified Ideographs, U+4E00 ..= U+9FFF.
pub open spec fn is_cjk(c: char) -> bool {
    0x4e00 <= (c as u32) && (c as u32) <= 0x9fff
}

// ---------------------------------------------------------------------------
// Names for what std computes with its Unicode tables.

/// What `str::to_lowercase` yields for a string with these characters.
pub uninterp spec fn lowercase_of(s: Seq<char>) -> Seq<char>;

/// What `str::to_uppercase` yields for a string with these characters.
pub uninterp spec fn uppercase_of(s: Seq<char>) -> Seq<char>;

/// Whether `char::is_alphanumeric` holds of `c` (Unicode Alphabetic or Numeric).
pub uninterp spec fn alphanumeric(c: char) -> bool;

/// Every character is ASCII (below U+0080).
pub open spec fn all_ascii(s: Seq<char>) -> bool {
    forall|i: int| #![auto] 0 <= i < s.len() ==> (s[i] as u32) < 0x80
}

/// ASCII lower-casing of one character: `A`..`Z` become `a`..`z`.
pub open spec fn ascii_lower(c: char) -> char {
    if 'A' <= c && c <= 'Z' {
        ((c as u32) + 32) as char
    } else {
        c
    }
}

/// ASCII upper-casing of one character: `a`..`z` become `A`..`Z`.
pub open spec fn ascii_upper(c: char) -> char {
    if 'a' <= c && c <= 'z' {
        ((c as u32) - 32) as char
    } else {
        c
    }
}

/// `s` upper-cased character by character with `ascii_upper`.
pub open spec fn ascii_upper_seq(s: Seq<char>) -> Seq<char> {
    s.map_values(|c: char| ascii_upper(c))
}

/// `s` lower-cased character by character with `ascii_lower`.
pub open spec fn ascii_lower_seq(s: Seq<char>) -> Seq<char> {
    s.map_values(|c: char| ascii_lower(c))
}

/// Calls `str::to_lowercase` (std) on the characters of `s`. The contract
/// names the result `lowercase_of` of them and states what the Unicode
/// lower-case mapping gives for ASCII text: each letter `A`..`Z` becomes its
/// lower-case letter and every other character stays (so empty text stays
/// empty). Nothing is stated of other characters.
#[verifier::external_body]
pub(crate) fn to_lowercase(s: &[char]) -> (r: Vec<char>)
    ensures
        r@ == lowercase_of(s@),
        all_ascii(s@) ==> r@ == ascii_lower_seq(s@),
{
    let text: String = s.iter().collect();
    text.to_lowercase().chars().collect()
}

/// Calls `str::to_uppercase` (std) on the characters of `s`. The contract
/// names the result `uppercase_of` of them and states what the Unicode
/// upper-case mapping gives for ASCII text: each letter `a`..`z` becomes its
/// upper-case letter and every other character stays (so empty text stays
/// empty). Nothing is stated of other characters.
#[verifier::external_body]
pub(crate) fn to_uppercase(s: &[char]) -> (r: Vec<char>)
    ensures
        r@ == uppercase_of(s@),
        all_ascii(s@) ==> r@ == ascii_upper_seq(s@),
{
    let text: String = s.iter().collect();
    text.to_uppercase().chars().collect()
}

/// Calls `char::is_alphanumeric` (std); the contract claims only that the
/// result is the name `alphanumeric` applied to `c`.
#[verifier::external_body]
pub(crate) fn is_alphanumeric(c: char) -> (r: bool)
    ensures
        r == alphanumeric(c),
{
    c.is_alphanumeric()
}

/// Calls `str::len` (std): the number of bytes of the UTF-8 encoding.
#[verifier::external_body]
pub(crate) fn byte_len(s: &str) -> (r: usize)
    ensures
        r == utf8_len(s@),
{
    s.len()
}

/// Calls `String::push` (std): the character is appended.
#[verifier::external_body]
fn push_char(s: &mut String, c: char)
    ensures
        final(s)@ == old(s)@.push(c),
{
    s.push(c);
}

// ---------------------------------------------------------------------------
// Executable helpers.

/// The characters of `s`.
pub fn chars_of(s: &str) -> (v: Vec<char>)
    ensures
        v@ == s@,
{
    let mut v: Vec<char> = Vec::new();
    for c in it: s.chars()
        invariant
            v@ == it.seq().take(it.index() as int),
            it.seq() == s@,
    {
        v.push(c);
    }
    v
}

/// A `String` holding the characters of `v`.
pub fn string_of(v: &[char]) -> (s: String)
    ensures
        s@ == v@,
{
    let mut s = String::new();
    let mut i: usize = 0;
    while i < v.len()
        invariant
            i <= v.len(),
            s@ == v@.take(i as int),
        decreases v.len() - i,
    {
        push_char(&mut s, v[i]);
        proof {
            assert(v@.take(i + 1) =~= v@.take(i as int).push(v@[i as int]));
        }
        i = i + 1;
    }
    proof {
        assert(v@.take(v@.len() as int) =~= v@);
    }
    s
}

/// Copy of `v[a..b]`.
pub fn sub_chars(v: &[char], a: usize, b: usize) -> (r: Vec<char>)
    requires
        a <= b <= v@.len(),
    ensures
        r@ == v@.subrange(a as int, b as int),
{
    let mut r: Vec<char> = Vec::new();
    let mut i = a;
    while i < b
        invariant
            a <= i <= b,
            b <= v@.len(),
            r@ == v@.subrange(a as int, i as int),
        decreases b - i,
    {
        r.push(v[i]);
        proof {
            assert(v@.subrange(a as int, i + 1) =~= v@.subrange(a as int, i as int).push(
                v@[i as int],
            ));
        }
        i = i + 1;
    }
    r
}

/// Concatenation of `a` and `b`.
pub fn concat_chars(a: &[char], b: &[char]) -> (r: Vec<char>)
    ensures
        r@ == a@ + b@,
{
    let mut r = sub_chars(a, 0, a.len());
    let mut i: usize = 0;
    while i < b.len()
        invariant
            i <= b.len(),
            r@ == a@ + b@.take(i as int),
        decreases b.len() - i,
    {
        r.push(b[i]);
        proof {
            assert(a@ + b@.take(i + 1) =~= (a@ + b@.take(i as int)).push(b@[i as int]));
        }
        i = i + 1;
    }
    proof {
        assert(b@.take(b@.len() as int) =~= b@);
        assert(a@.subrange(0, a@.len() as int) =~= a@);
    }
    r
}

/// Whether `c` is white space (`char::is_whitespace`).
pub fn is_whitespace(c: char) -> (r: bool)
    ensures
        r == is_ws(c),
{
    let u = c as u32;
    (0x9 <= u && u <= 0xd) || u == 0x20 || u == 0x85 || u == 0xa0 || u == 0x1680 || (0x2000 <= u
        && u <= 0x200a) || u == 0x2028 || u == 0x2029 || u == 0x202f || u == 0x205f || u == 0x3000
}

proof fn lemma_trim_start_step(s: Seq<char>, i: int)
    requires
        0 <= i < s.len(),
        is_ws(s[i]),
    ensures
        trim_start_spec(s.skip(i)) == trim_start_spec(s.skip(i + 1)),
{
    assert(s.skip(i).drop_first() =~= s.skip(i + 1));
}

proof fn lemma_trim_end_step(s: Seq<char>, j: int)
    requires
        0 < j <= s.len(),
        is_ws(s[j - 1]),
    ensures
        trim_end_spec(s.take(j)) == trim_end_spec(s.take(j - 1)),
{
    assert(s.take(j).drop_last() =~= s.take(j - 1));
}

/// Index of the first character that is not white space (or the length).
pub fn trim_start_index(v: &[char]) -> (i: usize)
    ensures
        i <= v@.len(),
        trim_start_spec(v@) == v@.skip(i as int),
{
    let mut i: usize = 0;
    proof {
        assert(v@.skip(0) =~= v@);
    }
    while i < v.len() && is_whitespace(v[i])
        invariant
            i <= v@.len(),
            trim_start_spec(v@) == trim_start_spec(v@.skip(i as int)),
        decreases v.len() - i,
    {
        proof {
            lemma_trim_start_step(v@, i as int);
        }
        i = i + 1;
    }
    proof {
        let t = v@.skip(i as int);
        if t.len() > 0 {
            assert(t[0] == v@[i as int]);
        }
    }
    i
}

/// Index just past the last character that is not white space in `v[..end]`.
pub fn trim_end_index(v: &[char], end: usize) -> (j: usize)
    requires
        end <= v@.len(),
    ensures
        j <= end,
        trim_end_spec(v@.take(end as int)) == v@.take(j as int),
{
    let mut j: usize = end;
    while j > 0 && is_whitespace(v[j - 1])
        invariant
            j <= end <= v@.len(),
            trim_end_spec(v@.take(end as int)) == trim_end_spec(v@.take(j as int)),
        decreases j,
    {
        proof {
            lemma_trim_end_step(v@, j as int);
        }
        j = j - 1;
    }
    proof {
        let t = v@.take(j as int);
        if t.len() > 0 {
            assert(t.last() == v@[j - 1]);
        }
    }
    j
}

/// `v` with leading and trailing white space removed (`str::trim`).
pub fn trim(v: &[char]) -> (r: Vec<char>)
    ensures
        r@ == trim_spec(v@),
{
    let i = trim_start_index(v);
    let tail = sub_chars(v, i, v.len());
    proof {
        assert(tail@ =~= v@.skip(i as int));
        assert(tail@.take(tail@.len() as int) =~= tail@);
    }
    let j = trim_end_index(&tail, tail.len());
    proof {
        assert(tail@.take(j as int) =~= tail@.subrange(0, j as int));
    }
    sub_chars(&tail, 0, j)
}

/// `v` with trailing white space removed (`str::trim_end`).
pub fn trim_end(v: &[char]) -> (r: Vec<char>)
    ensures
        r@ == trim_end_spec(v@),
{
    let j = trim_end_index(v, v.len());
    proof {
        assert(v@.take(v@.len() as int) =~= v@);
        assert(v@.take(j as int) =~= v@.subrange(0, j as int));
    }
    sub_chars(v, 0, j)
}

/// Whether `needle` occurs in `hay` at `i`.
pub fn matches_at(hay: &[char], needle: &[char], i: usize) -> (r: bool)
    ensures
        r == occurs_at(hay@, needle@, i as int),
{
    if i > hay.len() || needle.len() > hay.len() - i {
        return false;
    }
    let mut k: usize = 0;
    while k < needle.len()
        invariant
            k <= needle@.len(),
            i + needle@.len() <= hay@.len(),
            hay@.len() == hay.len(),
            forall|t: int| 0 <= t < k ==> hay@[i + t] == needle@[t],
        decreases needle.len() - k,
    {
        if hay[i + k] != needle[k] {
            proof {
                assert(hay@.subrange(i as int, i + needle@.len())[k as int] != needle@[k as int]);
            }
            return false;
        }
        k = k + 1;
    }
    proof {
        assert(hay@.subrange(i as int, i + needle@.len()) =~= needle@);
    }
    true
}

/// Whether `needle` occurs in `hay` (`str::contains`).
pub fn contains(hay: &[char], needle: &[char]) -> (r: bool)
    ensures
        r == contains_spec(hay@, needle@),
{
    if needle.len() > hay.len() {
        proof {
            assert forall|i: int| !occurs_at(hay@, needle@, i) by {}
        }
        return false;
    }
    let last = hay.len() - needle.len();
    let mut i: usize = 0;
    while i <= last
        invariant
            last == hay@.len() - needle@.len(),
            forall|t: int| 0 <= t < i ==> !occurs_at(hay@, needle@, t),
        decreases last + 1 - i,
    {
        if matches_at(hay, needle, i) {
            return true;
        }
        if i == last {
            proof {
                assert forall|t: int| !occurs_at(hay@, needle@, t) by {
                    if 0 <= t < i {
                    } else if t == i {
                    }
                }
            }
            return false;
        }
        i = i + 1;
    }
    false
}

/// Whether `s` starts with `p` (`str::starts_with`).
pub fn starts_with(s: &[char], p: &[char]) -> (r: bool)
    ensures
        r == starts_with_spec(s@, p@),
{
    let r = matches_at(s, p, 0);
    r
}

/// Whether `s` ends with `p` (`str::ends_with`).
pub fn ends_with(s: &[char], p: &[char]) -> (r: bool)
    ensures
        r == ends_with_spec(s@, p@),
{
    if p.len() > s.len() {
        return false;
    }
    matches_at(s, p, s.len() - p.len())
}

} // verus!

verus! {

/// The characters of each vector, in order.
pub open spec fn views(r: Seq<Vec<char>>) -> Seq<Seq<char>> {
    r.map_values(|v: Vec<char>| v@)
}

/// Whether `a` and `b` hold the same characters.
pub fn chars_eq(a: &[char], b: &[char]) -> (r: bool)
    ensures
        r == (a@ == b@),
{
    if a.len() != b.len() {
        return false;
    }
    let mut i: usize = 0;
    while i < a.len()
        invariant
            i <= a@.len(),
            a@.len() == b@.len(),
            forall|t: int| 0 <= t < i ==> a@[t] == b@[t],
        decreases a.len() - i,
    {
        if a[i] != b[i] {
            return false;
        }
        i = i + 1;
    }
    proof {
        assert(a@ =~= b@);
    }
    true
}

/// Whether `s` is one of `options`.
pub fn is_one_of(s: &[char], options: &[&str]) -> (r: bool)
    ensures
        r == exists|i: int| 0 <= i < options@.len() && options@[i]@ == s@,
{
    let mut i: usize = 0;
    while i < options.len()
        invariant
            i <= options@.len(),
            forall|t: int| 0 <= t < i ==> options@[t]@ != s@,
        decreases options.len() - i,
    {
        let o = chars_of(options[i]);
        if chars_eq(&o, s) {
            return true;
        }
        i = i + 1;
    }
    false
}

/// The pieces of `s` between occurrences of `d` (`str::split`).
pub fn split_char(s: &[char], d: char) -> (r: Vec<Vec<char>>)
    ensures
        r@.len() > 0,
        views(r@) == split_spec(s@, d),
{
    let mut r: Vec<Vec<char>> = Vec::new();
    r.push(Vec::new());
    let mut i: usize = 0;
    proof {
        assert(s@.take(0) =~= Seq::<char>::empty());
        assert(views(r@) =~= split_spec(s@.take(0), d));
    }
    while i < s.len()
        invariant
            i <= s@.len(),
            r@.len() > 0,
            views(r@) == split_spec(s@.take(i as int), d),
        decreases s.len() - i,
    {
        let c = s[i];
        proof {
            assert(s@.take(i + 1).drop_last() =~= s@.take(i as int));
            assert(s@.take(i + 1).last() == c);
        }
        if c == d {
            r.push(Vec::new());
            proof {
                assert(views(r@) =~= split_spec(s@.take(i + 1), d));
            }
        } else {
            let last = r.len() - 1;
            let mut piece = r.remove(last);
            piece.push(c);
            r.push(piece);
            proof {
                assert(views(r@) =~= split_spec(s@.take(i + 1), d));
            }
        }
        i = i + 1;
    }
    proof {
        assert(s@.take(s@.len() as int) =~= s@);
    }
    r
}

/// Index of the first occurrence of `c` in `s` (`str::find` with a `char`).
pub fn find_char(s: &[char], c: char) -> (r: Option<usize>)
    ensures
        match r {
            Some(i) => i < s@.len() && s@[i as int] == c && forall|t: int| 0 <= t < i ==> s@[t] != c,
            None => forall|t: int| 0 <= t < s@.len() ==> s@[t] != c,
        },
{
    let mut i: usize = 0;
    while i < s.len()
        invariant
            i <= s@.len(),
            forall|t: int| 0 <= t < i ==> s@[t] != c,
        decreases s.len() - i,
    {
        if s[i] == c {
            return Some(i);
        }
        i = i + 1;
    }
    None
}

/// Index of the last occurrence of `c` in `s` (`str::rfind` with a `char`).
pub fn rfind_char(s: &[char], c: char) -> (r: Option<usize>)
    ensures
        match r {
            Some(i) => i < s@.len() && s@[i as int] == c && forall|t: int|
                i < t < s@.len() ==> s@[t] != c,
            None => forall|t: int| 0 <= t < s@.len() ==> s@[t] != c,
        },
{
    let mut j: usize = s.len();
    while j > 0
        invariant
            j <= s@.len(),
            forall|t: int| j <= t < s@.len() ==> s@[t] != c,
        decreases j,
    {
        if s[j - 1] == c {
            return Some(j - 1);
        }
        j = j - 1;
    }
    None
}

fn digit_of(d: usize) -> (c: char)
    requires
        d < 10,
    ensures
        c == digit_char(d as nat),
{
    match d {
        0 => '0',
        1 => '1',
        2 => '2',
        3 => '3',
        4 => '4',
        5 => '5',
        6 => '6',
        7 => '7',
        8 => '8',
        _ => '9',
    }
}

/// Decimal rendering of `n` (what `format!("{}", n)` writes).
pub fn decimal(n: usize) -> (r: Vec<char>)
    ensures
        r@ == decimal_spec(n as nat),
    decreases n,
{
    let c = digit_of(n % 10);
    if n < 10 {
        let mut r = Vec::new();
        r.push(c);
        proof {
            assert(r@ =~= seq![digit_char(n as nat)]);
        }
        r
    } else {
        let mut r = decimal(n / 10);
        r.push(c);
        r
    }
}

proof fn lemma_digits_value_push(s: Seq<char>, c: char)
    ensures
        digits_value(s.push(c)) == digits_value(s) * 10 + digit_value(c),
{
    assert(s.push(c).drop_last() =~= s);
}

/// What `str::parse::<u32>` yields for these characters.
pub fn parse_u32(s: &[char]) -> (r: Option<u32>)
    ensures
        r == parse_u32_spec(s@),
{
    let start: usize = if s.len() > 0 && s[0] == '+' {
        1
    } else {
        0
    };
    let ghost d = if s@.len() > 0 && s@[0] == '+' {
        s@.drop_first()
    } else {
        s@
    };
    proof {
        assert(d =~= s@.skip(start as int));
    }
    if start >= s.len() {
        return None;
    }
    let mut acc: u64 = 0;
    let mut i: usize = start;
    proof {
        assert(s@.subrange(start as int, start as int) =~= Seq::<char>::empty());
    }
    while i < s.len()
        invariant
            start <= i <= s@.len(),
            d =~= s@.skip(start as int),
            d == (if s@.len() > 0 && s@[0] == '+' {
                s@.drop_first()
            } else {
                s@
            }),
            all_digits(s@.subrange(start as int, i as int)),
            acc as nat == if digits_value(s@.subrange(start as int, i as int)) <= 0x1_0000_0000 {
                digits_value(s@.subrange(start as int, i as int))
            } else {
                0x1_0000_0000nat
            },
        decreases s.len() - i,
    {
        let c = s[i];
        if !('0' <= c && c <= '9') {
            proof {
                assert(d[i - start] == c);
                assert(!is_ascii_digit(d[i - start]));
                assert(!all_digits(d));
            }
            return None;
        }
        let dv = (c as u32 - 48) as u64;
        proof {
            assert(s@.subrange(start as int, i + 1) =~= s@.subrange(start as int, i as int).push(c));
            lemma_digits_value_push(s@.subrange(start as int, i as int), c);
        }
        if acc >= 0x1_0000_0000 {
            acc = 0x1_0000_0000;
        } else {
            acc = acc * 10 + dv;
            if acc > 0x1_0000_0000 {
                acc = 0x1_0000_0000;
            }
        }
        i = i + 1;
    }
    proof {
        assert(s@.subrange(start as int, s@.len() as int) =~= d);
    }
    if acc > 0xffff_ffff {
        None
    } else {
        Some(acc as u32)
    }
}

/// Number of UTF-8 bytes of `s`, or `None` when it exceeds `limit`.
pub fn utf8_len_upto(s: &[char], limit: usize) -> (r: Option<usize>)
    ensures
        match r {
            Some(n) => n == utf8_len(s@) && n <= limit,
            None => utf8_len(s@) > limit,
        },
{
    let mut n: usize = 0;
    let mut i: usize = 0;
    proof {
        assert(s@.take(0) =~= Seq::<char>::empty());
    }
    while i < s.len()
        invariant
            i <= s@.len(),
            n <= limit,
            n == utf8_len(s@.take(i as int)),
        decreases s.len() - i,
    {
        let u = s[i] as u32;
        let w: usize = if u < 0x80 {
            1
        } else if u < 0x800 {
            2
        } else if u < 0x10000 {
            3
        } else {
            4
        };
        proof {
            assert(s@.take(i + 1).drop_last() =~= s@.take(i as int));
            assert(w == utf8_width(s@[i as int]));
        }
        if w > limit - n {
            proof {
                lemma_utf8_len_prefix_mono(s@, i + 1);
            }
            return None;
        }
        n = n + w;
        i = i + 1;
    }
    proof {
        assert(s@.take(s@.len() as int) =~= s@);
    }
    Some(n)
}

/// A prefix never has more UTF-8 bytes than the whole.
pub proof fn lemma_utf8_len_prefix_mono(s: Seq<char>, k: int)
    requires
        0 <= k <= s.len(),
    ensures
        utf8_len(s.take(k)) <= utf8_len(s),
    decreases s.len() - k,
{
    if k < s.len() {
        lemma_utf8_len_prefix_mono(s, k + 1);
        assert(s.take(k + 1).drop_last() =~= s.take(k));
    } else {
        assert(s.take(k) =~= s);
    }
}

} // verus!

verus! {

/// Whether the characters of `a` are those of `s`.
pub fn eq_str(a: &[char], s: &str) -> (r: bool)
    ensures
        r == (a@ == s@),
{
    chars_eq(a, &chars_of(s))
}

/// Whether `s` occurs in `hay`.
pub fn contains_str(hay: &[char], s: &str) -> (r: bool)
    ensures
        r == contains_spec(hay@, s@),
{
    contains(hay, &chars_of(s))
}

/// Whether `hay` starts with `s`.
pub fn starts_with_str(hay: &[char], s: &str) -> (r: bool)
    ensures
        r == starts_with_spec(hay@, s@),
{
    starts_with(hay, &chars_of(s))
}

/// Whether `hay` ends with `s`.
pub fn ends_with_str(hay: &[char], s: &str) -> (r: bool)
    ensures
        r == ends_with_spec(hay@, s@),
{
    ends_with(hay, &chars_of(s))
}

/// `first_index_of` agrees with a scan that found `c` first at `i`.
pub proof fn lemma_first_index_found(s: Seq<char>, c: char, i: int)
    requires
        0 <= i < s.len(),
        s[i] == c,
        forall|t: int| 0 <= t < i ==> s[t] != c,
    ensures
        first_index_of(s, c) == Some(i),
    decreases i,
{
    if i > 0 {
        lemma_first_index_found(s.drop_first(), c, i - 1);
    }
}

/// `first_index_of` agrees with a scan that found no `c`.
pub proof fn lemma_first_index_absent(s: Seq<char>, c: char)
    requires
        forall|t: int| 0 <= t < s.len() ==> s[t] != c,
    ensures
        first_index_of(s, c) is None,
    decreases s.len(),
{
    if s.len() > 0 {
        lemma_first_index_absent(s.drop_first(), c);
    }
}

/// `last_index_of` agrees with a scan from the end that found `c` at `i`.
pub proof fn lemma_last_index_found(s: Seq<char>, c: char, i: int)
    requires
        0 <= i < s.len(),
        s[i] == c,
        forall|t: int| i < t < s.len() ==> s[t] != c,
    ensures
        last_index_of(s, c) == Some(i),
    decreases s.len(),
{
    if i < s.len() - 1 {
        lemma_last_index_found(s.drop_last(), c, i);
    }
}

/// `last_index_of` agrees with a scan that found no `c`.
pub proof fn lemma_last_index_absent(s: Seq<char>, c: char)
    requires
        forall|t: int| 0 <= t < s.len() ==> s[t] != c,
    ensures
        last_index_of(s, c) is None,
    decreases s.len(),
{
    if s.len() > 0 {
        lemma_last_index_absent(s.drop_last(), c);
    }
}

/// Index of the first `c` in `s`, as `first_index_of` states it.
pub fn first_index(s: &[char], c: char) -> (r: Option<usize>)
    ensures
        match r {
            Some(i) => first_index_of(s@, c) == Some(i as int),
            None => first_index_of(s@, c) is None,
        },
{
    let r = find_char(s, c);
    proof {
        match r {
            Some(i) => lemma_first_index_found(s@, c, i as int),
            None => lemma_first_index_absent(s@, c),
        }
    }
    r
}

/// Index of the last `c` in `s`, as `last_index_of` states it.
pub fn last_index(s: &[char], c: char) -> (r: Option<usize>)
    ensures
        match r {
            Some(i) => last_index_of(s@, c) == Some(i as int),
            None => last_index_of(s@, c) is None,
        },
{
    let r = rfind_char(s, c);
    proof {
        match r {
            Some(i) => lemma_last_index_found(s@, c, i as int),
            None => lemma_last_index_absent(s@, c),
        }
    }
    r
}

pub proof fn lemma_first_index_bounds(s: Seq<char>, c: char)
    ensures
        match first_index_of(s, c) {
            Some(i) => 0 <= i < s.len() && s[i] == c && forall|t: int| 0 <= t < i ==> s[t] != c,
            None => forall|t: int| 0 <= t < s.len() ==> s[t] != c,
        },
    decreases s.len(),
{
    if s.len() > 0 {
        lemma_first_index_bounds(s.drop_first(), c);
        if s[0] != c {
            match first_index_of(s.drop_first(), c) {
                Some(i) => {
                    assert forall|t: int| 0 <= t < i + 1 implies s[t] != c by {
                        if t > 0 {
                            assert(s[t] == s.drop_first()[t - 1]);
                        }
                    }
                },
                None => {
                    assert forall|t: int| 0 <= t < s.len() implies s[t] != c by {
                        if t > 0 {
                            assert(s[t] == s.drop_first()[t - 1]);
                        }
                    }
                },
            }
        }
    }
}

pub proof fn lemma_last_index_bounds(s: Seq<char>, c: char)
    ensures
        match last_index_of(s, c) {
            Some(i) => 0 <= i < s.len() && s[i] == c && forall|t: int| i < t < s.len() ==> s[t] != c,
            None => forall|t: int| 0 <= t < s.len() ==> s[t] != c,
        },
    decreases s.len(),
{
    if s.len() > 0 {
        lemma_last_index_bounds(s.drop_last(), c);
        if s.last() != c {
            assert forall|t: int| 0 <= t < s.len() - 1 implies s[t] == s.drop_last()[t] by {}
        }
    }
}

} // verus!

verus! {

// ---------------------------------------------------------------------------
// Character filters and pattern removal.

/// Which characters a normaliser keeps.
#[derive(Clone, Copy, Debug, PartialEq, Eq, Structural)]
pub enum KeepClass {
    /// Alphanumeric characters and CJK ideographs.
    AlnumOrCjk,
    /// Alphanumeric characters, the space and CJK ideographs.
    AlnumSpaceOrCjk,
    /// Alphanumeric characters only.
    Alnum,
    /// Every character but white space.
    NonSpace,
}

/// Whether `class` keeps `c`.
pub open spec fn keeps(class: KeepClass, c: char) -> bool {
    match class {
        KeepClass::AlnumOrCjk => alphanumeric(c) || is_cjk(c),
        KeepClass::AlnumSpaceOrCjk => alphanumeric(c) || c == ' ' || is_cjk(c),
        KeepClass::Alnum => alphanumeric(c),
        KeepClass::NonSpace => !is_ws(c),
    }
}

/// Whether `c` lies in U+4E00 ..= U+9FFF.
pub fn cjk(c: char) -> (r: bool)
    ensures
        r == is_cjk(c),
{
    '\u{4e00}' <= c && c <= '\u{9fff}'
}

/// Whether `class` keeps `c`.
pub fn keep_char(class: KeepClass, c: char) -> (r: bool)
    ensures
        r == keeps(class, c),
{
    match class {
        KeepClass::AlnumOrCjk => is_alphanumeric(c) || cjk(c),
        KeepClass::AlnumSpaceOrCjk => is_alphanumeric(c) || c == ' ' || cjk(c),
        KeepClass::Alnum => is_alphanumeric(c),
        KeepClass::NonSpace => !is_whitespace(c),
    }
}

/// The characters of `s` that `class` keeps, in order.
pub fn retain_class(s: &[char], class: KeepClass) -> (r: Vec<char>)
    ensures
        r@ == s@.filter(|c: char| keeps(class, c)),
{
    let mut r: Vec<char> = Vec::new();
    let mut i: usize = 0;
    proof {
        assert(s@.take(0).filter(|c: char| keeps(class, c)) =~= Seq::<char>::empty());
    }
    while i < s.len()
        invariant
            i <= s@.len(),
            r@ == s@.take(i as int).filter(|c: char| keeps(class, c)),
        decreases s.len() - i,
    {
        proof {
            assert(s@.take(i + 1).drop_last() =~= s@.take(i as int));
            reveal_with_fuel(Seq::filter, 1);
        }
        if keep_char(class, s[i]) {
            r.push(s[i]);
        }
        i = i + 1;
    }
    proof {
        assert(s@.take(s@.len() as int) =~= s@);
    }
    r
}

/// `s` with every non-overlapping occurrence of `t` removed, scanning from
/// the left (`str::replace(t, "")`); `s` itself when `t` is empty.
pub open spec fn remove_all_spec(s: Seq<char>, t: Seq<char>) -> Seq<char>
    decreases s.len(),
{
    if t.len() == 0 || s.len() == 0 {
        s
    } else if starts_with_spec(s, t) {
        remove_all_spec(s.skip(t.len() as int), t)
    } else {
        seq![s[0]] + remove_all_spec(s.skip(1), t)
    }
}

/// `s` with every non-overlapping occurrence of `t` removed (`str::replace(t, "")`).
pub fn remove_all(s: &[char], t: &[char]) -> (r: Vec<char>)
    ensures
        r@ == remove_all_spec(s@, t@),
{
    let mut out: Vec<char> = Vec::new();
    if t.len() == 0 {
        let mut k: usize = 0;
        while k < s.len()
            invariant
                k <= s@.len(),
                out@ == s@.take(k as int),
            decreases s.len() - k,
        {
            proof {
                assert(s@.take(k + 1) =~= s@.take(k as int).push(s@[k as int]));
            }
            out.push(s[k]);
            k = k + 1;
        }
        proof {
            assert(s@.take(s@.len() as int) =~= s@);
        }
        return out;
    }
    let mut i: usize = 0;
    proof {
        assert(s@.skip(0) =~= s@);
        assert(out@ + remove_all_spec(s@.skip(0), t@) =~= remove_all_spec(s@, t@));
    }
    while i < s.len()
        invariant
            i <= s@.len(),
            t@.len() > 0,
            out@ + remove_all_spec(s@.skip(i as int), t@) == remove_all_spec(s@, t@),
        decreases s.len() - i,
    {
        let ghost rest = s@.skip(i as int);
        if matches_at(s, t, i) {
            proof {
                assert(rest.subrange(0, t@.len() as int) =~= s@.subrange(
                    i as int,
                    i + t@.len(),
                ));
                assert(starts_with_spec(rest, t@));
                assert(rest.skip(t@.len() as int) =~= s@.skip(i + t@.len()));
            }
            i = i + t.len();
        } else {
            proof {
                if starts_with_spec(rest, t@) {
                    assert(s@.subrange(i as int, i + t@.len()) =~= rest.subrange(
                        0,
                        t@.len() as int,
                    ));
                }
                assert(rest.skip(1) =~= s@.skip(i + 1));
                assert(rest[0] == s@[i as int]);
                assert(out@.push(s@[i as int]) + remove_all_spec(s@.skip(i + 1), t@) =~= out@ + (
                seq![rest[0]] + remove_all_spec(rest.skip(1), t@)));
            }
            out.push(s[i]);
            i = i + 1;
        }
    }
    proof {
        assert(s@.skip(i as int).len() == 0);
        assert(out@ + remove_all_spec(s@.skip(i as int), t@) =~= out@);
    }
    out
}

} // verus!

verus! {

proof fn lemma_trim_start_keeps_non_ws(s: Seq<char>, k: int)
    requires
        0 <= k < s.len(),
        !is_ws(s[k]),
    ensures
        exists|j: int| 0 <= j < trim_start_spec(s).len() && !is_ws(#[trigger] trim_start_spec(s)[j]),
    decreases s.len(),
{
    if s.len() > 0 && is_ws(s[0]) {
        assert(s.drop_first()[k - 1] == s[k]);
        lemma_trim_start_keeps_non_ws(s.drop_first(), k - 1);
        assert(trim_start_spec(s) == trim_start_spec(s.drop_first()));
        let t = trim_start_spec(s.drop_first());
        let j = choose|j: int| 0 <= j < t.len() && !is_ws(#[trigger] t[j]);
        assert(0 <= j < trim_start_spec(s).len() && !is_ws(trim_start_spec(s)[j]));
    } else {
        assert(trim_start_spec(s)[k] == s[k]);
    }
}

proof fn lemma_trim_end_keeps_non_ws(s: Seq<char>, k: int)
    requires
        0 <= k < s.len(),
        !is_ws(s[k]),
    ensures
        trim_end_spec(s).len() > 0,
    decreases s.len(),
{
    if s.len() > 0 && is_ws(s.last()) {
        assert(s.drop_last()[k] == s[k]);
        lemma_trim_end_keeps_non_ws(s.drop_last(), k);
    }
}

/// A text with a character that is not white space stays non-empty when trimmed.
pub proof fn lemma_trim_keeps_non_ws(s: Seq<char>, k: int)
    requires
        0 <= k < s.len(),
        !is_ws(s[k]),
    ensures
        trim_spec(s).len() > 0,
{
    lemma_trim_start_keeps_non_ws(s, k);
    let t = trim_start_spec(s);
    let j = choose|j: int| 0 <= j < t.len() && !is_ws(#[trigger] t[j]);
    lemma_trim_end_keeps_non_ws(t, j);
}

} // verus!

verus! {

/// Decimal rendering of `n` (what `format!("{}", n)` writes for a `u64`).
pub fn decimal_u64(n: u64) -> (r: Vec<char>)
    ensures
        r@ == decimal_spec(n as nat),
    decreases n,
{
    let c = digit_of((n % 10) as usize);
    if n < 10 {
        let mut r = Vec::new();
        r.push(c);
        proof {
            assert(r@ =~= seq![digit_char(n as nat)]);
        }
        r
    } else {
        let mut r = decimal_u64(n / 10);
        r.push(c);
        r
    }
}

/// Decimal rendering of a signed integer: a minus sign before the digits
/// of its magnitude when it is negative.
pub open spec fn signed_decimal_spec(n: int) -> Seq<char> {
    if n < 0 {
        seq!['-'] + decimal_spec((-n) as nat)
    } else {
        decimal_spec(n as nat)
    }
}

/// Decimal rendering of `n` (what `format!("{}", n)` writes for an `i64`).
pub fn decimal_i64(n: i64) -> (r: Vec<char>)
    ensures
        r@ == signed_decimal_spec(n as int),
{
    if n < 0 {
        let m: u64 = if n == i64::MIN {
            9223372036854775808u64
        } else {
            (-n) as u64
        };
        let mut r: Vec<char> = Vec::new();
        r.push('-');
        let digits = decimal_u64(m);
        let out = concat_chars(&r, &digits);
        proof {
            assert(r@ =~= seq!['-']);
        }
        out
    } else {
        decimal_u64(n as u64)
    }
}

} // verus!

verus! {

/// The pieces joined with `sep` between neighbours (`[..].join(sep)`).
pub open spec fn join_with(ls: Seq<Seq<char>>, sep: Seq<char>) -> Seq<char>
    decreases ls.len(),
{
    if ls.len() == 0 {
        Seq::empty()
    } else if ls.len() == 1 {
        ls[0]
    } else {
        join_with(ls.drop_last(), sep) + sep + ls.last()
    }
}

/// The pieces joined with `sep` between neighbours.
pub fn join_chars(ls: &Vec<Vec<char>>, sep: &str) -> (r: Vec<char>)
    ensures
        r@ == join_with(views(ls@), sep@),
{
    let ghost vs = views(ls@);
    let s = chars_of(sep);
    let mut r: Vec<char> = Vec::new();
    let mut i: usize = 0;
    proof {
        assert(vs.take(0) =~= Seq::<Seq<char>>::empty());
    }
    while i < ls.len()
        invariant
            i <= ls@.len(),
            vs == views(ls@),
            s@ == sep@,
            r@ == join_with(vs.take(i as int), sep@),
        decreases ls.len() - i,
    {
        proof {
            assert(vs.take(i + 1).drop_last() =~= vs.take(i as int));
            assert(vs[i as int] == ls@[i as int]@);
        }
        if i == 0 {
            r = concat_chars(&r, &ls[i]);
            proof {
                assert(vs.take(1) =~= seq![vs[0]]);
            }
        } else {
            r = concat_chars(&concat_chars(&r, &s), &ls[i]);
        }
        i = i + 1;
    }
    proof {
        assert(vs.take(vs.len() as int) =~= vs);
    }
    r
}

/// Whether `t` is one of `ls`.
pub fn contains_piece(ls: &Vec<Vec<char>>, t: &[char]) -> (r: bool)
    ensures
        r == views(ls@).contains(t@),
{
    let mut i: usize = 0;
    while i < ls.len()
        invariant
            i <= ls@.len(),
            forall|j: int| 0 <= j < i ==> ls@[j]@ != t@,
        decreases ls.len() - i,
    {
        if chars_eq(&ls[i], t) {
            proof {
                assert(views(ls@)[i as int] == t@);
            }
            return true;
        }
        i = i + 1;
    }
    proof {
        if views(ls@).contains(t@) {
            let j = choose|j: int| 0 <= j < views(ls@).len() && views(ls@)[j] == t@;
            assert(ls@[j]@ == t@);
        }
    }
    false
}

} // verus!

verus! {

/// The longest prefix of `s` whose UTF-8 encoding fits in `n` bytes.
pub open spec fn take_bytes(s: Seq<char>, n: nat) -> Seq<char>
    decreases s.len(),
{
    if s.len() == 0 || utf8_width(s[0]) > n {
        Seq::empty()
    } else {
        seq![s[0]] + take_bytes(s.drop_first(), (n - utf8_width(s[0])) as nat)
    }
}

/// `take_bytes` stopped inside a character that crosses the limit.
pub open spec fn cuts_a_char(s: Seq<char>, n: nat) -> bool
    decreases s.len(),
{
    if s.len() == 0 {
        false
    } else if utf8_width(s[0]) > n {
        n > 0
    } else {
        cuts_a_char(s.drop_first(), (n - utf8_width(s[0])) as nat)
    }
}

/// The longest prefix of `s` that fits in `n` UTF-8 bytes, and whether
/// the limit falls inside a character.
pub fn take_bytes_exec(s: &[char], n: usize) -> (r: (Vec<char>, bool))
    ensures
        r.0@ == take_bytes(s@, n as nat),
        r.1 == cuts_a_char(s@, n as nat),
{
    let mut out: Vec<char> = Vec::new();
    let mut left: usize = n;
    let mut i: usize = 0;
    proof {
        assert(s@.skip(0) =~= s@);
    }
    while i < s.len()
        invariant
            i <= s@.len(),
            left <= n,
            out@ + take_bytes(s@.skip(i as int), left as nat) == take_bytes(s@, n as nat),
            cuts_a_char(s@.skip(i as int), left as nat) == cuts_a_char(s@, n as nat),
        decreases s.len() - i,
    {
        let u = s[i] as u32;
        let w: usize = if u < 0x80 {
            1
        } else if u < 0x800 {
            2
        } else if u < 0x10000 {
            3
        } else {
            4
        };
        proof {
            assert(w == utf8_width(s@[i as int]));
            assert(s@.skip(i as int)[0] == s@[i as int]);
            assert(s@.skip(i as int).drop_first() =~= s@.skip(i + 1));
        }
        if w > left {
            proof {
                assert(take_bytes(s@.skip(i as int), left as nat) =~= Seq::<char>::empty());
                assert(out@ + Seq::<char>::empty() =~= out@);
            }
            return (out, left > 0);
        }
        let ghost before = out@;
        out.push(s[i]);
        proof {
            assert(before + take_bytes(s@.skip(i as int), left as nat) =~= out@ + take_bytes(
                s@.skip(i + 1),
                (left - w) as nat,
            ));
        }
        left = left - w;
        i = i + 1;
    }
    proof {
        assert(s@.skip(i as int) =~= Seq::<char>::empty());
        assert(out@ + Seq::<char>::empty() =~= out@);
    }
    (out, false)
}

} // verus!

verus! {

/// The distinct characters of `s`, in order of first appearance.
pub fn distinct_chars(s: &[char]) -> (r: Vec<char>)
    ensures
        r@.no_duplicates(),
        r@.to_set() == s@.to_set(),
        r@.len() == s@.to_set().len(),
{
    let mut r: Vec<char> = Vec::new();
    let mut i: usize = 0;
    proof {
        assert(s@.take(0) =~= Seq::<char>::empty());
        assert(r@.to_set() =~= s@.take(0).to_set());
    }
    while i < s.len()
        invariant
            i <= s@.len(),
            r@.no_duplicates(),
            r@.to_set() == s@.take(i as int).to_set(),
        decreases s.len() - i,
    {
        let c = s[i];
        proof {
            assert(s@.take(i + 1) =~= s@.take(i as int).push(c));
            s@.take(i as int).lemma_push_to_set_commute(c);
        }
        if find_char(&r, c).is_none() {
            let ghost before = r@;
            r.push(c);
            proof {
                before.lemma_push_to_set_commute(c);
                assert forall|x: int, y: int| 0 <= x < y < r@.len() implies r@[x] != r@[y] by {
                    if y == r@.len() - 1 {
                        assert(r@[x] == before[x]);
                    }
                }
            }
        } else {
            proof {
                assert(r@.contains(c));
                assert(r@.to_set().contains(c));
                assert(r@.to_set().insert(c) =~= r@.to_set());
            }
        }
        i = i + 1;
    }
    proof {
        assert(s@.take(s@.len() as int) =~= s@);
        r@.unique_seq_to_set();
    }
    r
}

/// Number of distinct characters that occur in both `a` and `b`.
pub fn shared_distinct_count(a: &[char], b: &[char]) -> (r: usize)
    ensures
        r == a@.to_set().intersect(b@.to_set()).len(),
{
    let da = distinct_chars(a);
    let mut kept: Vec<char> = Vec::new();
    let mut i: usize = 0;
    proof {
        assert(da@.take(0) =~= Seq::<char>::empty());
        assert(kept@.to_set() =~= da@.take(0).to_set().intersect(b@.to_set()));
    }
    while i < da.len()
        invariant
            i <= da@.len(),
            da@.no_duplicates(),
            kept@.no_duplicates(),
            kept@.to_set() == da@.take(i as int).to_set().intersect(b@.to_set()),
            forall|x: int| 0 <= x < kept@.len() ==> da@.take(i as int).contains(#[trigger] kept@[x]),
        decreases da.len() - i,
    {
        let c = da[i];
        proof {
            assert(da@.take(i + 1) =~= da@.take(i as int).push(c));
            da@.take(i as int).lemma_push_to_set_commute(c);
        }
        if find_char(b, c).is_some() {
            let ghost before = kept@;
            kept.push(c);
            proof {
                before.lemma_push_to_set_commute(c);
                assert(b@.contains(c));
                assert(b@.to_set().contains(c));
                assert(kept@.to_set() =~= da@.take(i + 1).to_set().intersect(b@.to_set()));
                assert forall|x: int, y: int| 0 <= x < y < kept@.len() implies kept@[x] != kept@[y] by {
                    if y == kept@.len() - 1 {
                        assert(da@.take(i as int).contains(before[x]));
                        let j = choose|j: int| 0 <= j < i && da@.take(i as int)[j] == before[x];
                        assert(da@[j] == da@[i as int] ==> j == i);
                    }
                }
                assert forall|x: int| 0 <= x < kept@.len() implies da@.take(i + 1).contains(
                    #[trigger] kept@[x],
                ) by {
                    if x < kept@.len() - 1 {
                        let j = choose|j: int| 0 <= j < i && da@.take(i as int)[j] == before[x];
                        assert(da@.take(i + 1)[j] == before[x]);
                    } else {
                        assert(da@.take(i + 1)[i as int] == c);
                    }
                }
            }
        } else {
            proof {
                assert(!b@.contains(c));
                assert(!b@.to_set().contains(c));
                assert(kept@.to_set() =~= da@.take(i + 1).to_set().intersect(b@.to_set()));
                assert forall|x: int| 0 <= x < kept@.len() implies da@.take(i + 1).contains(
                    #[trigger] kept@[x],
                ) by {
                    let j = choose|j: int| 0 <= j < i && da@.take(i as int)[j] == kept@[x];
                    assert(da@.take(i + 1)[j] == kept@[x]);
                }
            }
        }
        i = i + 1;
    }
    proof {
        assert(da@.take(da@.len() as int) =~= da@);
        kept@.unique_seq_to_set();
    }
    kept.len()
}

} // verus!

verus! {

/// `s` with each run of white space replaced by one space.
pub open spec fn collapse_ws(s: Seq<char>) -> Seq<char>
    decreases s.len(),
{
    if s.len() == 0 {
        Seq::empty()
    } else {
        let p = collapse_ws(s.drop_last());
        if is_ws(s.last()) {
            if s.len() >= 2 && is_ws(s[s.len() - 2]) {
                p
            } else {
                p.push(' ')
            }
        } else {
            p.push(s.last())
        }
    }
}

/// The words of `s` joined by single spaces (`split_whitespace().join(" ")`):
/// runs of white space become one space and none is left at either end.
pub open spec fn words_joined(s: Seq<char>) -> Seq<char> {
    trim_spec(collapse_ws(s))
}

/// The words of `s` joined by single spaces.
pub fn join_words(s: &[char]) -> (r: Vec<char>)
    ensures
        r@ == words_joined(s@),
{
    let mut out: Vec<char> = Vec::new();
    let mut i: usize = 0;
    proof {
        assert(s@.take(0) =~= Seq::<char>::empty());
    }
    while i < s.len()
        invariant
            i <= s@.len(),
            out@ == collapse_ws(s@.take(i as int)),
        decreases s.len() - i,
    {
        let c = s[i];
        let ws = is_whitespace(c);
        proof {
            let t = s@.take(i + 1);
            assert(t.drop_last() =~= s@.take(i as int));
            assert(t.last() == c);
            if i >= 1 {
                assert(t[t.len() - 2] == s@[i - 1]);
            }
        }
        if ws {
            if i == 0 || !is_whitespace(s[i - 1]) {
                out.push(' ');
            }
        } else {
            out.push(c);
        }
        i = i + 1;
    }
    proof {
        assert(s@.take(s@.len() as int) =~= s@);
    }
    trim(&out)
}

} // verus!

verus! {

/// A non-empty text has at least one UTF-8 byte.
pub proof fn lemma_utf8_len_positive(s: Seq<char>)
    requires
        s.len() > 0,
    ensures
        utf8_len(s) > 0,
{
    assert(utf8_len(s) == utf8_len(s.drop_last()) + utf8_width(s.last()));
}

} // verus!

verus! {

/// `s` with every non-overlapping occurrence of `t` replaced by `rep`,
/// scanning from the left (`str::replace(t, rep)` for a non-empty `t`).
pub open spec fn replace_all_spec(s: Seq<char>, t: Seq<char>, rep: Seq<char>) -> Seq<char>
    recommends
        t.len() > 0,
    decreases s.len(),
{
    if t.len() == 0 || s.len() == 0 {
        s
    } else if starts_with_spec(s, t) {
        rep + replace_all_spec(s.skip(t.len() as int), t, rep)
    } else {
        seq![s[0]] + replace_all_spec(s.skip(1), t, rep)
    }
}

/// `s` with every non-overlapping occurrence of the non-empty `t` replaced by `rep`.
pub fn replace_all(s: &[char], t: &[char], rep: &[char]) -> (r: Vec<char>)
    requires
        t@.len() > 0,
    ensures
        r@ == replace_all_spec(s@, t@, rep@),
{
    let mut out: Vec<char> = Vec::new();
    let mut i: usize = 0;
    proof {
        assert(s@.skip(0) =~= s@);
        assert(out@ + replace_all_spec(s@.skip(0), t@, rep@) =~= replace_all_spec(s@, t@, rep@));
    }
    while i < s.len()
        invariant
            i <= s@.len(),
            t@.len() > 0,
            out@ + replace_all_spec(s@.skip(i as int), t@, rep@) == replace_all_spec(s@, t@, rep@),
        decreases s.len() - i,
    {
        let ghost rest = s@.skip(i as int);
        if matches_at(s, t, i) {
            proof {
                assert(rest.subrange(0, t@.len() as int) =~= s@.subrange(i as int, i + t@.len()));
                assert(starts_with_spec(rest, t@));
                assert(rest.skip(t@.len() as int) =~= s@.skip(i + t@.len()));
            }
            let ghost before = out@;
            out = concat_chars(&out, rep);
            proof {
                assert(before + (rep@ + replace_all_spec(s@.skip(i + t@.len()), t@, rep@)) =~= out@
                    + replace_all_spec(s@.skip(i + t@.len()), t@, rep@));
            }
            i = i + t.len();
        } else {
            proof {
                if starts_with_spec(rest, t@) {
                    assert(s@.subrange(i as int, i + t@.len()) =~= rest.subrange(0, t@.len() as int));
                }
                assert(rest.skip(1) =~= s@.skip(i + 1));
                assert(rest[0] == s@[i as int]);
                assert(out@.push(s@[i as int]) + replace_all_spec(s@.skip(i + 1), t@, rep@) =~= out@
                    + (seq![rest[0]] + replace_all_spec(rest.skip(1), t@, rep@)));
            }
            out.push(s[i]);
            i = i + 1;
        }
    }
    proof {
        assert(s@.skip(i as int).len() == 0);
        assert(out@ + replace_all_spec(s@.skip(i as int), t@, rep@) =~= out@);
    }
    out
}

} // verus!

verus! {

/// UTF-8 byte counts add up over a concatenation.
pub proof fn lemma_utf8_len_add(a: Seq<char>, b: Seq<char>)
    ensures
        utf8_len(a + b) == utf8_len(a) + utf8_len(b),
    decreases b.len(),
{
    if b.len() == 0 {
        assert(a + b =~= a);
    } else {
        lemma_utf8_len_add(a, b.drop_last());
        assert((a + b).drop_last() =~= a + b.drop_last());
    }
}

/// Every character takes at least one byte.
pub proof fn lemma_utf8_len_at_least_chars(s: Seq<char>)
    ensures
        utf8_len(s) >= s.len(),
    decreases s.len(),
{
    if s.len() > 0 {
        lemma_utf8_len_at_least_chars(s.drop_last());
    }
}

/// An ASCII text has one byte per character.
pub proof fn lemma_utf8_len_ascii(s: Seq<char>)
    requires
        forall|i: int| 0 <= i < s.len() ==> (#[trigger] s[i] as u32) < 0x80,
    ensures
        utf8_len(s) == s.len(),
    decreases s.len(),
{
    if s.len() > 0 {
        lemma_utf8_len_ascii(s.drop_last());
    }
}


/// A digit character is its digit: it is an ASCII digit of that value.
pub proof fn lemma_digit_char(d: nat)
    requires
        d < 10,
    ensures
        is_ascii_digit(digit_char(d)),
        digit_value(digit_char(d)) == d,
        (digit_char(d) as u32) < 0x80,
{
    assert(digit_char(d) as u32 == d + 48);
}

/// The decimal rendering of `n` is a non-empty run of ASCII digits whose
/// value is `n`.
pub proof fn lemma_decimal_digits(n: nat)
    ensures
        decimal_spec(n).len() > 0,
        all_digits(decimal_spec(n)),
        digits_value(decimal_spec(n)) == n,
    decreases n,
{
    if n < 10 {
        lemma_digit_char(n);
        let s = decimal_spec(n);
        assert(s =~= seq![digit_char(n)]);
        assert(s.drop_last() =~= Seq::<char>::empty());
        assert(digits_value(s) == digits_value(s.drop_last()) * 10 + digit_value(s.last()));
    } else {
        lemma_decimal_digits(n / 10);
        lemma_digit_char(n % 10);
        lemma_digits_value_push(decimal_spec(n / 10), digit_char(n % 10));
        assert((n / 10) * 10 + n % 10 == n) by (nonlinear_arith);
        let s = decimal_spec(n);
        assert forall|i: int| 0 <= i < s.len() implies is_ascii_digit(#[trigger] s[i]) by {
            if i < s.len() - 1 {
                assert(s[i] == decimal_spec(n / 10)[i]);
            }
        }
    }
}

/// `str::parse::<u32>` reads back the decimal rendering of a `u32`.
pub proof fn lemma_parse_decimal(n: u32)
    ensures
        parse_u32_spec(decimal_spec(n as nat)) == Some(n),
{
    lemma_decimal_digits(n as nat);
    let s = decimal_spec(n as nat);
    assert(is_ascii_digit(s[0]));
}

/// Digits are ASCII and upper-casing leaves them as they are.
pub proof fn lemma_digits_ascii_upper(s: Seq<char>)
    requires
        all_digits(s),
    ensures
        all_ascii(s),
        ascii_upper_seq(s) == s,
{
    assert forall|i: int| 0 <= i < s.len() implies (s[i] as u32) < 0x80 by {
        assert(is_ascii_digit(s[i]));
    }
    assert forall|i: int| 0 <= i < s.len() implies #[trigger] ascii_upper_seq(s)[i] == s[i] by {
        assert(is_ascii_digit(s[i]));
    }
    assert(ascii_upper_seq(s) =~= s);
}

/// Upper-casing character by character distributes over concatenation.
pub proof fn lemma_map_upper_concat(a: Seq<char>, b: Seq<char>)
    ensures
        ascii_upper_seq(a + b) == ascii_upper_seq(a) + ascii_upper_seq(b),
{
    assert(ascii_upper_seq(a + b) =~= ascii_upper_seq(a) + ascii_upper_seq(b));
}


/// What `trim_start_spec` leaves is empty or starts with a non-space.
proof fn lemma_trim_start_shape(s: Seq<char>)
    ensures
        trim_start_spec(s).len() == 0 || !is_ws(trim_start_spec(s)[0]),
    decreases s.len(),
{
    if s.len() > 0 && is_ws(s[0]) {
        lemma_trim_start_shape(s.drop_first());
    }
}

/// What `trim_end_spec` leaves is a prefix of `s` that is empty or ends
/// with a non-space.
proof fn lemma_trim_end_shape(s: Seq<char>)
    ensures
        trim_end_spec(s).len() <= s.len(),
        trim_end_spec(s) == s.take(trim_end_spec(s).len() as int),
        trim_end_spec(s).len() == 0 || !is_ws(trim_end_spec(s).last()),
    decreases s.len(),
{
    if s.len() > 0 && is_ws(s.last()) {
        lemma_trim_end_shape(s.drop_last());
        assert(s.drop_last().take(trim_end_spec(s).len() as int) =~= s.take(
            trim_end_spec(s).len() as int,
        ));
    } else {
        assert(s.take(s.len() as int) =~= s);
    }
}

/// Trimming trimmed text changes nothing.
pub proof fn lemma_trim_idempotent(s: Seq<char>)
    ensures
        trim_spec(trim_spec(s)) == trim_spec(s),
{
    let x = trim_start_spec(s);
    let y = trim_end_spec(x);
    lemma_trim_start_shape(s);
    lemma_trim_end_shape(x);
    if y.len() > 0 {
        assert(y[0] == x[0]);
        assert(trim_start_spec(y) == y);
        assert(trim_end_spec(y) == y);
    }
}

} // verus!
