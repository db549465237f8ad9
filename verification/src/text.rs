//! Text primitives.
//!
//! Strings are modelled as sequences of characters. The spec functions of this module say what
//! trimming, splitting, searching, comparing and rendering mean on such sequences; the executable
//! functions beside them compute exactly that.

use vstd::prelude::*;
use vstd::string::StringExecFns;
use vstd::utf8::{decode_utf8, valid_utf8};

verus! {

// ---------------------------------------------------------------------------------------------
// Trusted items: string and character operations of std.
// ---------------------------------------------------------------------------------------------
/// `String::push` appends one character to the end of the string.
pub assume_specification[ String::push ](s: &mut String, c: char)
    ensures
        final(s)@ == old(s)@.push(c),
;

/// `str` equality: two string slices are equal exactly when they hold the same characters.
pub assume_specification[ <str as PartialEq>::eq ](a: &str, b: &str) -> (res: bool)
    ensures
        res == (a@ == b@),
;

/// What [`char::is_alphanumeric`] answers: the Unicode `Alphabetic` and `Numeric` properties.
pub uninterp spec fn unicode_alphanumeric(c: char) -> bool;

/// Calls [`char::is_alphanumeric`]; the answer is a function of the character alone.
#[verifier::external_body]
pub(crate) fn is_alphanumeric(c: char) -> (res: bool)
    ensures
        res == unicode_alphanumeric(c),
{
    c.is_alphanumeric()
}

/// What [`char::is_uppercase`] answers: the Unicode `Uppercase` property.
pub uninterp spec fn unicode_uppercase(c: char) -> bool;

/// Calls [`char::is_uppercase`]; the answer is a function of the character alone.
#[verifier::external_body]
pub(crate) fn is_uppercase(c: char) -> (res: bool)
    ensures
        res == unicode_uppercase(c),
{
    c.is_uppercase()
}

/// What [`char::is_alphabetic`] answers: the Unicode `Alphabetic` property.
pub uninterp spec fn unicode_alphabetic(c: char) -> bool;

/// Calls [`char::is_alphabetic`]; the answer is a function of the character alone.
#[verifier::external_body]
pub(crate) fn is_alphabetic(c: char) -> (res: bool)
    ensures
        res == unicode_alphabetic(c),
{
    c.is_alphabetic()
}

/// What [`char::to_lowercase`] yields: the Unicode lowercase mapping of one character.
pub uninterp spec fn unicode_lower_char(c: char) -> Seq<char>;

/// Calls [`char::to_lowercase`] and collects what it yields; the result is a function of the
/// character alone.
#[verifier::external_body]
pub(crate) fn lower_chars(c: char) -> (res: Vec<char>)
    ensures
        res@ == unicode_lower_char(c),
{
    c.to_lowercase().collect()
}

/// What [`str::to_lowercase`] returns: the Unicode lowercase mapping of a whole string.
pub uninterp spec fn unicode_lowercase(s: Seq<char>) -> Seq<char>;

/// Calls [`str::to_lowercase`]; the result is a function of the string alone.
#[verifier::external_body]
pub(crate) fn to_lowercase(s: &str) -> (res: String)
    ensures
        res@ == unicode_lowercase(s@),
{
    s.to_lowercase()
}

/// What the `Debug` form of a string is: the string in double quotes with its special characters
/// escaped.
pub uninterp spec fn debug_form(s: Seq<char>) -> Seq<char>;

/// Calls the `Debug` formatting of `str`; the result is a function of the string alone.
#[verifier::external_body]
pub(crate) fn debug_string(s: &str) -> (res: String)
    ensures
        res@ == debug_form(s@),
{
    format!("{s:?}")
}

/// Calls [`String::from_utf8`]: succeeds exactly on valid UTF-8, with the text that it encodes. The
/// wording of the error is a function of the bytes.
#[verifier::external_body]
pub(crate) fn utf8_string(bytes: &[u8]) -> (res: Result<String, String>)
    ensures
        match res {
            Ok(s) => valid_utf8(bytes@) && s@ == decode_utf8(bytes@),
            Err(e) => !valid_utf8(bytes@) && e@ == utf8_error(bytes@),
        },
{
    String::from_utf8(bytes.to_vec()).map_err(|error| error.to_string())
}

/// The wording of the error that [`String::from_utf8`] gives for bytes that are not UTF-8.
pub uninterp spec fn utf8_error(bytes: Seq<u8>) -> Seq<char>;

/// What [`String::from_utf8_lossy`] makes of a byte string.
pub uninterp spec fn utf8_lossy(bytes: Seq<u8>) -> Seq<char>;

/// Calls [`String::from_utf8_lossy`]: valid UTF-8 is the text that it encodes; of other bytes the
/// result is a function of the bytes.
#[verifier::external_body]
pub(crate) fn utf8_string_lossy(bytes: &[u8]) -> (res: String)
    ensures
        res@ == utf8_lossy(bytes@),
        valid_utf8(bytes@) ==> res@ == decode_utf8(bytes@),
{
    String::from_utf8_lossy(bytes).into_owned()
}

/// The number that a run of decimal digits denotes.
pub open spec fn digits_value(s: Seq<char>) -> nat
    decreases s.len(),
{
    if s.len() == 0 {
        0
    } else {
        10 * digits_value(s.drop_last()) + (s.last() as int - '0' as int) as nat
    }
}

/// The number that a text denotes as an unsigned integer: an optional `+` and then digits only.
pub open spec fn unsigned_value(s: Seq<char>) -> Option<nat> {
    let t = if s.len() > 0 && s[0] == '+' {
        s.skip(1)
    } else {
        s
    };
    if t.len() > 0 && (forall|i: int| 0 <= i < t.len() ==> '0' <= #[trigger] t[i] <= '9') {
        Some(digits_value(t))
    } else {
        None
    }
}

/// The wording of the error that parsing a `u64` gives.
pub uninterp spec fn unsigned_error(s: Seq<char>) -> Seq<char>;

/// Calls [`str::parse`] for a `u64`: an optional `+` followed by digits only, within the range of
/// the type. The wording of the error is a function of the text.
#[verifier::external_body]
pub(crate) fn parse_u64(s: &str) -> (res: Result<u64, String>)
    ensures
        match res {
            Ok(n) => unsigned_value(s@) == Some(n as nat),
            Err(e) => (match unsigned_value(s@) {
                Some(n) => n > u64::MAX,
                None => true,
            }) && e@ == unsigned_error(s@),
        },
{
    s.parse::<u64>().map_err(|error| error.to_string())
}

// ---------------------------------------------------------------------------------------------
// Characters.
// ---------------------------------------------------------------------------------------------
/// The Unicode `White_Space` property.
pub open spec fn is_white(c: char) -> bool {
    ||| 0x9 <= c as int <= 0xd
    ||| c as int == 0x20
    ||| c as int == 0x85
    ||| c as int == 0xa0
    ||| c as int == 0x1680
    ||| 0x2000 <= c as int <= 0x200a
    ||| c as int == 0x2028
    ||| c as int == 0x2029
    ||| c as int == 0x202f
    ||| c as int == 0x205f
    ||| c as int == 0x3000
}

/// Whether `c` is white space.
pub fn is_whitespace(c: char) -> (res: bool)
    ensures
        res == is_white(c),
{
    let n: u32 = c as u32;
    (0x9 <= n && n <= 0xd) || n == 0x20 || n == 0x85 || n == 0xa0 || n == 0x1680 || (0x2000 <= n && n
        <= 0x200a) || n == 0x2028 || n == 0x2029 || n == 0x202f || n == 0x205f || n == 0x3000
}

/// An ASCII letter or digit.
pub open spec fn is_ascii_alnum(c: char) -> bool {
    'a' <= c <= 'z' || 'A' <= c <= 'Z' || '0' <= c <= '9'
}

/// The ASCII lowercase form of a character: `A` to `Z` become `a` to `z`, all else is unchanged.
pub open spec fn lower_char(c: char) -> char {
    if 'A' <= c <= 'Z' {
        (c as u32 + 32) as char
    } else {
        c
    }
}

/// Computes [`lower_char`].
pub fn to_ascii_lower(c: char) -> (res: char)
    ensures
        res == lower_char(c),
{
    if 'A' <= c && c <= 'Z' {
        ((c as u8) + 32) as char
    } else {
        c
    }
}

/// The ASCII lowercase form of a text.
pub open spec fn lower_ascii(s: Seq<char>) -> Seq<char> {
    s.map_values(|c: char| lower_char(c))
}

// ---------------------------------------------------------------------------------------------
// Conversions between strings and character vectors.
// ---------------------------------------------------------------------------------------------
/// The texts of a sequence of strings.
pub open spec fn texts(v: Seq<String>) -> Seq<Seq<char>> {
    v.map_values(|s: String| s@)
}

/// The text of an optional string.
pub open spec fn opt_text(s: Option<String>) -> Option<Seq<char>> {
    match s {
        Some(t) => Some(t@),
        None => None,
    }
}

/// The characters of `s`.
pub fn chars_of(s: &str) -> (v: Vec<char>)
    ensures
        v@ == s@,
{
    let mut v: Vec<char> = Vec::new();
    for c in it: s.chars()
        invariant
            v@ == s@.take(it.index() as int),
            it.seq() == s@,
    {
        v.push(c);
    }
    v
}

/// The string made of the characters of `v` from `lo` up to but not at `hi`.
pub fn string_of(v: &[char], lo: usize, hi: usize) -> (s: String)
    requires
        lo <= hi <= v@.len(),
    ensures
        s@ == v@.subrange(lo as int, hi as int),
{
    let mut s = String::new();
    let mut i: usize = lo;
    while i < hi
        invariant
            lo <= i <= hi <= v@.len(),
            s@ == v@.subrange(lo as int, i as int),
        decreases hi - i,
    {
        s.push(v[i]);
        i = i + 1;
        assert(v@.subrange(lo as int, i as int) =~= v@.subrange(lo as int, i - 1).push(v@[i - 1]));
    }
    s
}

/// Whether two texts are the same.
pub fn same(a: &str, b: &str) -> (res: bool)
    ensures
        res == (a@ == b@),
{
    <str as PartialEq>::eq(a, b)
}

/// A copy of an optional string.
pub fn copy_opt(s: &Option<String>) -> (res: Option<String>)
    ensures
        opt_text(res) == opt_text(*s),
        res == *s,
{
    match s {
        Some(t) => Some(t.clone()),
        None => None,
    }
}

/// A copy of a list of strings.
pub fn copy_texts(v: &Vec<String>) -> (res: Vec<String>)
    ensures
        res@ == v@,
{
    let mut res: Vec<String> = Vec::new();
    let mut i: usize = 0;
    while i < v.len()
        invariant
            i <= v@.len(),
            res@ == v@.take(i as int),
        decreases v@.len() - i,
    {
        res.push(v[i].clone());
        i = i + 1;
    }
    assert(v@.take(v@.len() as int) =~= v@);
    res
}

/// Whether `item` is one of `items`.
pub fn contains_text(items: &Vec<String>, item: &str) -> (res: bool)
    ensures
        res == texts(items@).contains(item@),
{
    let mut i: usize = 0;
    while i < items.len()
        invariant
            i <= items@.len(),
            forall|j: int| 0 <= j < i ==> (#[trigger] items@[j])@ != item@,
        decreases items@.len() - i,
    {
        if same(items[i].as_str(), item) {
            assert(texts(items@)[i as int] == item@);
            return true;
        }
        i = i + 1;
    }
    assert forall|j: int| 0 <= j < texts(items@).len() implies texts(items@)[j] != item@ by {
        assert(texts(items@)[j] == items@[j]@);
    }
    false
}

// ---------------------------------------------------------------------------------------------
// Searching.
// ---------------------------------------------------------------------------------------------
/// The first index at which `p` holds, or the length of `s` where it holds nowhere.
pub open spec fn find_by(s: Seq<char>, p: spec_fn(char) -> bool) -> int
    decreases s.len(),
{
    if s.len() == 0 || p(s[0]) {
        0
    } else {
        1 + find_by(s.drop_first(), p)
    }
}

/// The predicate that holds of `c` alone.
pub open spec fn is_char(c: char) -> spec_fn(char) -> bool {
    |d: char| d == c
}

/// The first index of `c` in `s`, or the length of `s` where `c` does not occur.
pub open spec fn find(s: Seq<char>, c: char) -> int {
    find_by(s, is_char(c))
}

/// [`find_by`] is the only index before which `p` fails and at which it holds or the text ends.
pub proof fn lemma_find_by(s: Seq<char>, p: spec_fn(char) -> bool)
    ensures
        0 <= find_by(s, p) <= s.len(),
        forall|i: int| 0 <= i < find_by(s, p) ==> !p(#[trigger] s[i]),
        find_by(s, p) < s.len() ==> p(s[find_by(s, p)]),
    decreases s.len(),
{
    if s.len() == 0 || p(s[0]) {
    } else {
        let t = s.drop_first();
        lemma_find_by(t, p);
        assert forall|i: int| 0 <= i < find_by(s, p) implies !p(#[trigger] s[i]) by {
            if i > 0 {
                assert(s[i] == t[i - 1]);
            }
        }
        if find_by(t, p) < t.len() {
            assert(t[find_by(t, p)] == s[find_by(s, p)]);
        }
    }
}

/// An index with the properties of [`lemma_find_by`] is the one that [`find_by`] names.
pub proof fn lemma_find_by_unique(s: Seq<char>, p: spec_fn(char) -> bool, k: int)
    requires
        0 <= k <= s.len(),
        forall|i: int| 0 <= i < k ==> !p(#[trigger] s[i]),
        k < s.len() ==> p(s[k]),
    ensures
        find_by(s, p) == k,
{
    lemma_find_by(s, p);
    let f = find_by(s, p);
    if f < k {
        assert(!p(s[f]));
    } else if k < f {
        assert(!p(s[k]));
    }
}

/// Finds the first occurrence of `c` at or after `from`; answers `hi` where there is none.
pub fn find_char(v: &[char], from: usize, hi: usize, c: char) -> (res: usize)
    requires
        from <= hi <= v@.len(),
    ensures
        from <= res <= hi,
        res - from == find(v@.subrange(from as int, hi as int), c),
        forall|i: int| from <= i < res ==> v@[i] != c,
        res < hi ==> v@[res as int] == c,
{
    let mut i: usize = from;
    while i < hi && v[i] != c
        invariant
            from <= i <= hi <= v@.len(),
            forall|j: int| from <= j < i ==> v@[j] != c,
        decreases hi - i,
    {
        i = i + 1;
    }
    proof {
        lemma_find_by_unique(v@.subrange(from as int, hi as int), is_char(c), i - from);
    }
    i
}

/// Whether `pat` occurs in `s` at index `i`.
pub open spec fn occurs_at(s: Seq<char>, pat: Seq<char>, i: int) -> bool {
    &&& 0 <= i
    &&& i + pat.len() <= s.len()
    &&& s.subrange(i, i + pat.len()) == pat
}

/// Whether `pat` occurs somewhere in `s`.
pub open spec fn has_text(s: Seq<char>, pat: Seq<char>) -> bool {
    exists|i: int| #[trigger] occurs_at(s, pat, i)
}

/// Whether `s` begins with `pat`.
pub open spec fn has_prefix(s: Seq<char>, pat: Seq<char>) -> bool {
    pat.len() <= s.len() && s.take(pat.len() as int) == pat
}

/// Whether `s` ends with `pat`.
pub open spec fn has_suffix(s: Seq<char>, pat: Seq<char>) -> bool {
    pat.len() <= s.len() && s.skip(s.len() - pat.len()) == pat
}

/// Whether `pat` stands in `v` at index `i`.
pub fn matches_at(v: &[char], i: usize, pat: &[char]) -> (res: bool)
    requires
        i <= v@.len(),
    ensures
        res == occurs_at(v@, pat@, i as int),
{
    let n: usize = v.len();
    if pat.len() > n - i {
        return false;
    }
    let mut k: usize = 0;
    while k < pat.len()
        invariant
            k <= pat@.len(),
            i + pat@.len() <= n == v@.len(),
            forall|j: int| 0 <= j < k ==> v@[i + j] == pat@[j],
        decreases pat@.len() - k,
    {
        if v[i + k] != pat[k] {
            assert(v@.subrange(i as int, i + pat@.len())[k as int] != pat@[k as int]);
            return false;
        }
        k = k + 1;
    }
    assert(v@.subrange(i as int, i + pat@.len()) =~= pat@);
    true
}

/// Whether `s` contains `pat`.
pub fn contains(s: &str, pat: &str) -> (res: bool)
    ensures
        res == has_text(s@, pat@),
{
    let v = chars_of(s);
    let p = chars_of(pat);
    let mut i: usize = 0;
    while i < v.len()
        invariant
            i <= v@.len(),
            v@ == s@,
            p@ == pat@,
            forall|j: int| 0 <= j < i ==> !occurs_at(s@, pat@, j),
        decreases v@.len() - i,
    {
        if matches_at(&v, i, &p) {
            return true;
        }
        i = i + 1;
    }
    matches_at(&v, i, &p)
}

/// Whether `s` begins with `pat`.
pub fn starts_with(s: &str, pat: &str) -> (res: bool)
    ensures
        res == has_prefix(s@, pat@),
{
    let v = chars_of(s);
    let p = chars_of(pat);
    let res = matches_at(&v, 0, &p);
    proof {
        if pat@.len() <= s@.len() {
            assert(s@.take(pat@.len() as int) =~= s@.subrange(0, pat@.len() as int));
        }
    }
    res
}

/// Whether `s` ends with `pat`.
pub fn ends_with(s: &str, pat: &str) -> (res: bool)
    ensures
        res == has_suffix(s@, pat@),
{
    let v = chars_of(s);
    let p = chars_of(pat);
    if p.len() > v.len() {
        return false;
    }
    let at: usize = v.len() - p.len();
    let res = matches_at(&v, at, &p);
    assert(s@.skip(s@.len() - pat@.len()) =~= s@.subrange(at as int, at + pat@.len()));
    res
}

// ---------------------------------------------------------------------------------------------
// Trimming.
// ---------------------------------------------------------------------------------------------
/// `s` without its leading characters that satisfy `p`.
pub open spec fn trim_start_by(s: Seq<char>, p: spec_fn(char) -> bool) -> Seq<char>
    decreases s.len(),
{
    if s.len() > 0 && p(s[0]) {
        trim_start_by(s.drop_first(), p)
    } else {
        s
    }
}

/// `s` without its trailing characters that satisfy `p`.
pub open spec fn trim_end_by(s: Seq<char>, p: spec_fn(char) -> bool) -> Seq<char>
    decreases s.len(),
{
    if s.len() > 0 && p(s.last()) {
        trim_end_by(s.drop_last(), p)
    } else {
        s
    }
}

/// `s` without its leading and trailing characters that satisfy `p`.
pub open spec fn trim_by(s: Seq<char>, p: spec_fn(char) -> bool) -> Seq<char> {
    trim_end_by(trim_start_by(s, p), p)
}

/// The predicate of white space characters.
pub open spec fn white() -> spec_fn(char) -> bool {
    |c: char| is_white(c)
}

/// `s` without leading and trailing white space.
pub open spec fn trimmed(s: Seq<char>) -> Seq<char> {
    trim_by(s, white())
}

/// Dropping a prefix that satisfies `p`, up to a character that does not, is what
/// [`trim_start_by`] does.
pub proof fn lemma_trim_start_by(s: Seq<char>, p: spec_fn(char) -> bool, k: int)
    requires
        0 <= k <= s.len(),
        forall|i: int| 0 <= i < k ==> p(#[trigger] s[i]),
        k < s.len() ==> !p(s[k]),
    ensures
        trim_start_by(s, p) == s.skip(k),
    decreases k,
{
    if k > 0 {
        let t = s.drop_first();
        assert forall|i: int| 0 <= i < k - 1 implies p(#[trigger] t[i]) by {
            assert(t[i] == s[i + 1]);
        }
        assert(k < s.len() ==> t[k - 1] == s[k]);
        lemma_trim_start_by(t, p, k - 1);
        assert(p(s[0]));
        assert(t.skip(k - 1) =~= s.skip(k));
    } else {
        assert(s.skip(0) =~= s);
    }
}

/// Dropping a suffix that satisfies `p`, down to a character that does not, is what
/// [`trim_end_by`] does.
pub proof fn lemma_trim_end_by(s: Seq<char>, p: spec_fn(char) -> bool, k: int)
    requires
        0 <= k <= s.len(),
        forall|i: int| k <= i < s.len() ==> p(#[trigger] s[i]),
        k > 0 ==> !p(s[k - 1]),
    ensures
        trim_end_by(s, p) == s.take(k),
    decreases s.len() - k,
{
    if k < s.len() {
        let t = s.drop_last();
        assert forall|i: int| k <= i < t.len() implies p(#[trigger] t[i]) by {
            assert(t[i] == s[i]);
        }
        assert(k > 0 ==> t[k - 1] == s[k - 1]);
        lemma_trim_end_by(t, p, k);
        assert(p(s[s.len() - 1]));
        assert(t.take(k) =~= s.take(k));
    } else {
        assert(s.take(k) =~= s);
    }
}

pub proof fn lemma_trim_start_props(s: Seq<char>, p: spec_fn(char) -> bool)
    ensures
        trim_start_by(s, p).len() <= s.len(),
        trim_start_by(s, p).len() > 0 ==> !p(trim_start_by(s, p)[0]),
        trim_start_by(s, p) == s.skip(s.len() - trim_start_by(s, p).len()),
    decreases s.len(),
{
    if s.len() > 0 && p(s[0]) {
        lemma_trim_start_props(s.drop_first(), p);
        let t = s.drop_first();
        let r = trim_start_by(t, p);
        assert(t.skip(t.len() - r.len()) =~= s.skip(s.len() - r.len()));
    } else {
        assert(s.skip(0) =~= s);
    }
}

/// What [`trim_end_by`] leaves begins the text and does not end in a character that satisfies `p`.
pub proof fn lemma_trim_end_props(s: Seq<char>, p: spec_fn(char) -> bool)
    ensures
        trim_end_by(s, p).len() <= s.len(),
        trim_end_by(s, p).len() > 0 ==> !p(trim_end_by(s, p).last()),
        trim_end_by(s, p) == s.take(trim_end_by(s, p).len() as int),
    decreases s.len(),
{
    if s.len() > 0 && p(s.last()) {
        lemma_trim_end_props(s.drop_last(), p);
        let r = trim_end_by(s.drop_last(), p);
        assert(s.drop_last().take(r.len() as int) =~= s.take(r.len() as int));
    } else {
        assert(s.take(s.len() as int) =~= s);
    }
}

/// A trimmed text is a part of the text, and trimming it again changes nothing.
pub proof fn lemma_trimmed(s: Seq<char>) -> (from: int)
    ensures
        0 <= from,
        from + trimmed(s).len() <= s.len(),
        trimmed(s) == s.subrange(from, from + trimmed(s).len()),
        trimmed(trimmed(s)) == trimmed(s),
{
    let front = trim_start_by(s, white());
    let t = trimmed(s);
    lemma_trim_start_props(s, white());
    lemma_trim_end_props(front, white());
    let from = s.len() - front.len();
    assert(t =~= s.subrange(from, from + t.len()));
    lemma_trim_start_by(t, white(), 0);
    assert(t.skip(0) =~= t);
    lemma_trim_end_by(t, white(), t.len() as int);
    assert(t.take(t.len() as int) =~= t);
    from
}

/// The bounds within `lo` and `hi` of what remains when characters that satisfy `p` are trimmed
/// off both ends.
pub(crate) fn trim_bounds_by<F: Fn(char) -> bool>(
    v: &[char],
    lo: usize,
    hi: usize,
    f: F,
    p: Ghost<spec_fn(char) -> bool>,
) -> (res: (usize, usize))
    requires
        lo <= hi <= v@.len(),
        forall|c: char| #[trigger] call_requires(f, (c,)),
        forall|c: char, b: bool| #[trigger] call_ensures(f, (c,), b) ==> b == p@(c),
    ensures
        lo <= res.0 <= res.1 <= hi,
        v@.subrange(res.0 as int, res.1 as int) == trim_by(v@.subrange(lo as int, hi as int), p@),
{
    let mut a: usize = lo;
    while a < hi && f(v[a])
        invariant
            lo <= a <= hi <= v@.len(),
            forall|c: char| #[trigger] call_requires(f, (c,)),
            forall|c: char, b: bool| #[trigger] call_ensures(f, (c,), b) ==> b == p@(c),
            forall|i: int| lo <= i < a ==> p@(#[trigger] v@[i]),
        ensures
            lo <= a <= hi <= v@.len(),
            forall|i: int| lo <= i < a ==> p@(#[trigger] v@[i]),
            a < hi ==> !p@(v@[a as int]),
        decreases hi - a,
    {
        a = a + 1;
    }
    let mut b: usize = hi;
    while b > a && f(v[b - 1])
        invariant
            a <= b <= hi <= v@.len(),
            forall|c: char| #[trigger] call_requires(f, (c,)),
            forall|c: char, r: bool| #[trigger] call_ensures(f, (c,), r) ==> r == p@(c),
            forall|i: int| b <= i < hi ==> p@(#[trigger] v@[i]),
        ensures
            a <= b <= hi <= v@.len(),
            forall|i: int| b <= i < hi ==> p@(#[trigger] v@[i]),
            b > a ==> !p@(v@[b - 1]),
        decreases b,
    {
        b = b - 1;
    }
    proof {
        let s = v@.subrange(lo as int, hi as int);
        lemma_trim_start_by(s, p@, a - lo);
        let t = s.skip(a - lo);
        assert(t =~= v@.subrange(a as int, hi as int));
        lemma_trim_end_by(t, p@, b - a);
        assert(t.take(b - a) =~= v@.subrange(a as int, b as int));
    }
    (a, b)
}

/// The bounds within `lo` and `hi` of what remains when white space is trimmed off both ends.
pub fn trim_bounds(v: &[char], lo: usize, hi: usize) -> (res: (usize, usize))
    requires
        lo <= hi <= v@.len(),
    ensures
        lo <= res.0 <= res.1 <= hi,
        v@.subrange(res.0 as int, res.1 as int) == trimmed(v@.subrange(lo as int, hi as int)),
{
    let f = |c: char| -> (b: bool)
        ensures
            b == is_white(c),
        { is_whitespace(c) };
    trim_bounds_by(v, lo, hi, f, Ghost(white()))
}

/// A copy of `s` without leading and trailing white space.
pub fn trim(s: &str) -> (res: String)
    ensures
        res@ == trimmed(s@),
{
    let v = chars_of(s);
    let (a, b) = trim_bounds(&v, 0, v.len());
    assert(v@.subrange(0, v@.len() as int) =~= s@);
    string_of(&v, a, b)
}

/// Whether `s` holds nothing but white space.
pub fn is_blank(s: &str) -> (res: bool)
    ensures
        res == (trimmed(s@).len() == 0),
{
    let v = chars_of(s);
    let (a, b) = trim_bounds(&v, 0, v.len());
    assert(v@.subrange(0, v@.len() as int) =~= s@);
    a == b
}

/// A copy of `s` in ASCII lowercase.
pub fn lowercase_ascii(s: &str) -> (res: String)
    ensures
        res@ == lower_ascii(s@),
{
    let mut r = String::new();
    for c in it: s.chars()
        invariant
            r@ == lower_ascii(s@.take(it.index() as int)),
            it.seq() == s@,
    {
        assert(s@.take(it.index() + 1) =~= s@.take(it.index() as int).push(c));
        r.push(to_ascii_lower(c));
        assert(lower_ascii(s@.take(it.index() + 1)) =~= r@);
    }
    assert(s@.take(s@.len() as int) =~= s@);
    r
}

/// The upper-case form of an ASCII letter; any other character as it is.
pub open spec fn upper_char(c: char) -> char {
    if 'a' <= c <= 'z' {
        ((c as int) - 32) as char
    } else {
        c
    }
}

/// A text with its ASCII letters in upper case.
pub open spec fn upper_ascii(s: Seq<char>) -> Seq<char> {
    s.map_values(|c: char| upper_char(c))
}

/// A text with its ASCII letters in upper case.
pub fn uppercase_ascii(s: &str) -> (res: String)
    ensures
        res@ == upper_ascii(s@),
{
    let v = chars_of(s);
    let mut res = String::new();
    let mut i: usize = 0;
    assert(res@ =~= upper_ascii(s@).take(0));
    while i < v.len()
        invariant
            i <= v@.len(),
            v@ == s@,
            res@ =~= upper_ascii(s@).take(i as int),
        decreases v@.len() - i,
    {
        let c = v[i];
        let u = if 'a' <= c && c <= 'z' {
            let code: u8 = c as u8;
            (code - 32) as char
        } else {
            c
        };
        res.push(u);
        i = i + 1;
    }
    assert(upper_ascii(s@).take(i as int) =~= upper_ascii(s@));
    res
}

/// Whether two texts are equal but for ASCII case.
pub fn same_ignoring_ascii_case(a: &str, b: &str) -> (res: bool)
    ensures
        res == (lower_ascii(a@) == lower_ascii(b@)),
{
    let x = lowercase_ascii(a);
    let y = lowercase_ascii(b);
    same(x.as_str(), y.as_str())
}

// ---------------------------------------------------------------------------------------------
// Splitting.
// ---------------------------------------------------------------------------------------------
/// The parts of `s` before and after the first `c`, where there is one.
pub open spec fn split_once(s: Seq<char>, c: char) -> Option<(Seq<char>, Seq<char>)> {
    let i = find(s, c);
    if i < s.len() {
        Some((s.take(i), s.skip(i + 1)))
    } else {
        None
    }
}

/// The pieces of `s` between the occurrences of `c`.
pub open spec fn split(s: Seq<char>, c: char) -> Seq<Seq<char>>
    decreases s.len(),
    via split_decreases
{
    let i = find(s, c);
    if i < s.len() {
        seq![s.take(i)] + split(s.skip(i + 1), c)
    } else {
        seq![s]
    }
}

#[via_fn]
proof fn split_decreases(s: Seq<char>, c: char) {
    lemma_find_by(s, is_char(c));
}

/// `s` without one trailing carriage return.
pub open spec fn strip_cr(s: Seq<char>) -> Seq<char> {
    if s.len() > 0 && s.last() == '\r' {
        s.drop_last()
    } else {
        s
    }
}

/// The lines of `s`: pieces ended by `\n` or `\r\n`, with a last piece that may lack its ending.
pub open spec fn lines(s: Seq<char>) -> Seq<Seq<char>>
    decreases s.len(),
    via lines_decreases
{
    let i = find(s, '\n');
    if s.len() == 0 {
        seq![]
    } else if i < s.len() {
        seq![strip_cr(s.take(i))] + lines(s.skip(i + 1))
    } else {
        seq![s]
    }
}

#[via_fn]
proof fn lines_decreases(s: Seq<char>) {
    lemma_find_by(s, is_char('\n'));
}

/// The maximal runs of characters of `s` that are not white space.
pub open spec fn words(s: Seq<char>) -> Seq<Seq<char>>
    decreases s.len(),
    via words_decreases
{
    let t = trim_start_by(s, white());
    let n = find_by(t, white());
    if t.len() == 0 {
        seq![]
    } else {
        seq![t.take(n)] + words(t.skip(n))
    }
}

#[via_fn]
proof fn words_decreases(s: Seq<char>) {
    lemma_trim_start_props(s, white());
    let t = trim_start_by(s, white());
    lemma_find_by(t, white());
}

/// Splits `v` from `lo` to `hi` at each `c`.
pub fn split_at_char(s: &str, c: char) -> (res: Vec<String>)
    ensures
        texts(res@) == split(s@, c),
{
    let v = chars_of(s);
    let n: usize = v.len();
    let mut res: Vec<String> = Vec::new();
    let mut lo: usize = 0;
    assert(v@.subrange(0, n as int) =~= s@);
    assert(texts(res@) + split(s@, c) =~= split(s@, c));
    loop
        invariant
            lo <= n == v@.len(),
            texts(res@) + split(v@.subrange(lo as int, n as int), c) == split(s@, c),
        decreases n - lo,
    {
        let i = find_char(&v, lo, n, c);
        let piece = string_of(&v, lo, i);
        let ghost rest = v@.subrange(lo as int, n as int);
        let ghost before = texts(res@);
        res.push(piece);
        assert(rest.take(i - lo) =~= v@.subrange(lo as int, i as int));
        assert(texts(res@) =~= before.push(piece@));
        if i == n {
            assert(rest.take(i - lo) =~= rest);
            assert(before + seq![rest] =~= texts(res@));
            return res;
        }
        let ghost k = i - lo;
        lo = i + 1;
        proof {
            let next = v@.subrange(lo as int, n as int);
            assert(rest.skip(k + 1) =~= next);
            assert(before + (seq![rest.take(k)] + split(next, c)) =~= texts(res@) + split(next, c));
        }
    }
}

/// The lines of `s`.
pub fn lines_of(s: &str) -> (res: Vec<String>)
    ensures
        texts(res@) == lines(s@),
{
    let v = chars_of(s);
    let n: usize = v.len();
    let mut res: Vec<String> = Vec::new();
    let mut lo: usize = 0;
    assert(v@.subrange(0, n as int) =~= s@);
    assert(texts(res@) + lines(s@) =~= lines(s@));
    while lo < n
        invariant
            lo <= n == v@.len(),
            texts(res@) + lines(v@.subrange(lo as int, n as int)) == lines(s@),
        decreases n - lo,
    {
        let i = find_char(&v, lo, n, '\n');
        let ghost rest = v@.subrange(lo as int, n as int);
        let ghost before = texts(res@);
        if i == n {
            let piece = string_of(&v, lo, i);
            res.push(piece);
            assert(texts(res@) =~= before.push(piece@));
            assert(before + seq![rest] =~= texts(res@));
            lo = n;
            assert(lines(v@.subrange(lo as int, n as int)) =~= seq![]);
            assert(texts(res@) + lines(v@.subrange(lo as int, n as int)) =~= texts(res@));
        } else {
            let end: usize = if i > lo && v[i - 1] == '\r' {
                i - 1
            } else {
                i
            };
            let piece = string_of(&v, lo, end);
            assert(rest.take(i - lo) =~= v@.subrange(lo as int, i as int));
            assert(piece@ =~= strip_cr(rest.take(i - lo)));
            res.push(piece);
            assert(texts(res@) =~= before.push(piece@));
            proof {
                let next = v@.subrange(i + 1, n as int);
                assert(rest.skip(i - lo + 1) =~= next);
                assert(before + (seq![piece@] + lines(next)) =~= texts(res@) + lines(next));
            }
            lo = i + 1;
        }
    }
    assert(lines(v@.subrange(lo as int, n as int)) =~= seq![]);
    assert(texts(res@) + seq![] =~= texts(res@));
    res
}

/// The words of `s`.
pub fn words_of(s: &str) -> (res: Vec<String>)
    ensures
        texts(res@) == words(s@),
{
    let v = chars_of(s);
    let n: usize = v.len();
    let mut res: Vec<String> = Vec::new();
    let mut lo: usize = 0;
    assert(v@.subrange(0, n as int) =~= s@);
    assert(texts(res@) + words(s@) =~= words(s@));
    loop
        invariant
            lo <= n == v@.len(),
            texts(res@) + words(v@.subrange(lo as int, n as int)) == words(s@),
        decreases n - lo,
    {
        let ghost rest = v@.subrange(lo as int, n as int);
        let ghost before = texts(res@);
        let mut a: usize = lo;
        while a < n && is_whitespace(v[a])
            invariant
                lo <= a <= n == v@.len(),
                forall|i: int| lo <= i < a ==> is_white(#[trigger] v@[i]),
            decreases n - a,
        {
            a = a + 1;
        }
        proof {
            lemma_trim_start_by(rest, white(), a - lo);
            assert(rest.skip(a - lo) =~= v@.subrange(a as int, n as int));
        }
        if a == n {
            assert(words(rest) =~= seq![]);
            assert(before + seq![] =~= before);
            return res;
        }
        let mut b: usize = a;
        while b < n && !is_whitespace(v[b])
            invariant
                a <= b <= n == v@.len(),
                forall|i: int| a <= i < b ==> !is_white(#[trigger] v@[i]),
            decreases n - b,
        {
            b = b + 1;
        }
        let ghost t = v@.subrange(a as int, n as int);
        proof {
            lemma_find_by_unique(t, white(), b - a);
        }
        let piece = string_of(&v, a, b);
        res.push(piece);
        assert(texts(res@) =~= before.push(piece@));
        assert(t.take(b - a) =~= piece@);
        proof {
            let next = v@.subrange(b as int, n as int);
            assert(t.skip(b - a) =~= next);
            assert(before + (seq![piece@] + words(next)) =~= texts(res@) + words(next));
        }
        lo = b;
    }
}

/// The texts of `parts` one after another with `sep` between each two.
pub open spec fn join(parts: Seq<Seq<char>>, sep: Seq<char>) -> Seq<char>
    decreases parts.len(),
{
    if parts.len() == 0 {
        seq![]
    } else if parts.len() == 1 {
        parts[0]
    } else {
        join(parts.drop_last(), sep) + sep + parts.last()
    }
}

/// Joins the strings of `parts` from `lo` up to but not at `hi`, with `sep` between each two.
pub fn join_range(parts: &[String], lo: usize, hi: usize, sep: &str) -> (res: String)
    requires
        lo <= hi <= parts@.len(),
    ensures
        res@ == join(texts(parts@).subrange(lo as int, hi as int), sep@),
{
    let mut res = String::new();
    let mut i: usize = lo;
    while i < hi
        invariant
            lo <= i <= hi <= parts@.len(),
            res@ == join(texts(parts@).subrange(lo as int, i as int), sep@),
        decreases hi - i,
    {
        let ghost done = texts(parts@).subrange(lo as int, i as int);
        let ghost next = texts(parts@).subrange(lo as int, i + 1);
        assert(next.drop_last() =~= done);
        if i > lo {
            res.append(sep);
            res.append(parts[i].as_str());
        } else {
            res.append(parts[i].as_str());
            assert(res@ =~= parts@[i as int]@);
        }
        i = i + 1;
    }
    res
}

/// Joins the strings of `parts` with `sep` between each two.
pub fn join_strings(parts: &Vec<String>, sep: &str) -> (res: String)
    ensures
        res@ == join(texts(parts@), sep@),
{
    assert(texts(parts@).subrange(0, parts@.len() as int) =~= texts(parts@));
    join_range(parts, 0, parts.len(), sep)
}

/// The first index at or after `from` at which `pat` occurs in `s`.
pub open spec fn find_text(s: Seq<char>, pat: Seq<char>, from: int) -> Option<int>
    decreases s.len() + 1 - from,
{
    if from + pat.len() > s.len() {
        None
    } else if occurs_at(s, pat, from) {
        Some(from)
    } else {
        find_text(s, pat, from + 1)
    }
}

/// [`find_text`] names the first occurrence.
pub proof fn lemma_find_text(s: Seq<char>, pat: Seq<char>, from: int)
    requires
        0 <= from,
    ensures
        match find_text(s, pat, from) {
            Some(i) => {
                &&& from <= i
                &&& i + pat.len() <= s.len()
                &&& occurs_at(s, pat, i)
                &&& forall|j: int| from <= j < i ==> !occurs_at(s, pat, j)
            },
            None => forall|j: int| from <= j ==> !occurs_at(s, pat, j),
        },
    decreases s.len() + 1 - from,
{
    if from + pat.len() > s.len() {
    } else if occurs_at(s, pat, from) {
    } else {
        lemma_find_text(s, pat, from + 1);
    }
}

/// Finds the first occurrence of `pat` at or after `from`.
pub fn find_str(v: &[char], pat: &[char], from: usize) -> (res: Option<usize>)
    requires
        from <= v@.len(),
    ensures
        match res {
            Some(i) => find_text(v@, pat@, from as int) == Some(i as int) && from <= i && i
                + pat@.len() <= v@.len(),
            None => find_text(v@, pat@, from as int) is None,
        },
{
    let n: usize = v.len();
    let mut i: usize = from;
    while pat.len() <= n - i
        invariant
            from <= i <= n == v@.len(),
            find_text(v@, pat@, from as int) == find_text(v@, pat@, i as int),
        decreases n - i,
    {
        if matches_at(v, i, pat) {
            return Some(i);
        }
        if i == n {
            assert(v@.subrange(n as int, n as int) =~= pat@);
            return None;
        }
        i = i + 1;
    }
    None
}

// ---------------------------------------------------------------------------------------------
// Order.
// ---------------------------------------------------------------------------------------------
/// The lexicographic order of texts by character code, which is also the order of their UTF-8
/// bytes.
pub open spec fn text_less(a: Seq<char>, b: Seq<char>) -> bool
    decreases a.len(),
{
    if b.len() == 0 {
        false
    } else if a.len() == 0 {
        true
    } else if a[0] != b[0] {
        (a[0] as int) < (b[0] as int)
    } else {
        text_less(a.drop_first(), b.drop_first())
    }
}

/// [`text_less`] is a strict total order.
pub proof fn lemma_text_less_total(a: Seq<char>, b: Seq<char>)
    ensures
        text_less(a, b) || text_less(b, a) || a == b,
        !(text_less(a, b) && text_less(b, a)),
        !text_less(a, a),
    decreases a.len(),
{
    if a.len() > 0 && b.len() > 0 {
        lemma_text_less_total(a.drop_first(), b.drop_first());
        if a[0] == b[0] && a.drop_first() == b.drop_first() {
            assert(a =~= seq![a[0]] + a.drop_first());
            assert(b =~= seq![b[0]] + b.drop_first());
        }
    } else if a.len() == 0 && b.len() == 0 {
        assert(a =~= b);
    }
    if a.len() > 0 {
        lemma_text_less_total(a.drop_first(), a.drop_first());
    }
}

/// [`text_less`] is transitive.
pub proof fn lemma_text_less_trans(a: Seq<char>, b: Seq<char>, c: Seq<char>)
    requires
        text_less(a, b),
        text_less(b, c),
    ensures
        text_less(a, c),
    decreases a.len(),
{
    if a.len() > 0 && b.len() > 0 && c.len() > 0 && a[0] == b[0] && b[0] == c[0] {
        lemma_text_less_trans(a.drop_first(), b.drop_first(), c.drop_first());
    }
}

/// Whether `a` comes before `b` in the order of texts.
pub fn less(a: &str, b: &str) -> (res: bool)
    ensures
        res == text_less(a@, b@),
{
    let x = chars_of(a);
    let y = chars_of(b);
    let mut i: usize = 0;
    assert(x@.skip(0) =~= a@);
    assert(y@.skip(0) =~= b@);
    while i < x.len() && i < y.len()
        invariant
            i <= x@.len(),
            i <= y@.len(),
            text_less(x@.skip(i as int), y@.skip(i as int)) == text_less(a@, b@),
        decreases x@.len() - i,
    {
        assert(x@.skip(i as int).drop_first() =~= x@.skip(i + 1));
        assert(y@.skip(i as int).drop_first() =~= y@.skip(i + 1));
        if x[i] != y[i] {
            return x[i] < y[i];
        }
        i = i + 1;
    }
    i < y.len()
}

/// A list of texts in strictly ascending order, which holds each text at most once.
pub open spec fn ascending(s: Seq<Seq<char>>) -> bool {
    forall|i: int, j: int| 0 <= i < j < s.len() ==> text_less(#[trigger] s[i], #[trigger] s[j])
}

/// Adds `item` to an ascending list unless it is already there.
pub fn insert_ascending(items: &mut Vec<String>, item: String)
    requires
        ascending(texts(old(items)@)),
    ensures
        ascending(texts(final(items)@)),
        forall|t: Seq<char>| #[trigger]
            texts(final(items)@).contains(t) <==> texts(old(items)@).contains(t) || t == item@,
{
    let ghost before = texts(items@);
    let mut i: usize = 0;
    while i < items.len() && less(items[i].as_str(), item.as_str())
        invariant
            i <= items@.len(),
            texts(items@) == before,
            ascending(before),
            forall|j: int| 0 <= j < i ==> text_less(#[trigger] before[j], item@),
        decreases items@.len() - i,
    {
        assert(before[i as int] == items@[i as int]@);
        i = i + 1;
    }
    if i < items.len() && same(items[i].as_str(), item.as_str()) {
        assert(before[i as int] == item@);
        return ;
    }
    let ghost it = item@;
    proof {
        if i < items@.len() {
            assert(before[i as int] == items@[i as int]@);
            lemma_text_less_total(before[i as int], it);
        }
        assert forall|j: int| i <= j < before.len() implies text_less(it, #[trigger] before[j]) by {
            if j > i {
                lemma_text_less_trans(it, before[i as int], before[j]);
            }
        }
    }
    items.insert(i, item);
    proof {
        let after = texts(items@);
        assert(after =~= before.insert(i as int, it));
        assert forall|t: Seq<char>| #[trigger]
            after.contains(t) <==> before.contains(t) || t == it by {
            if before.contains(t) {
                let k = choose|k: int| 0 <= k < before.len() && before[k] == t;
                if k < i {
                    assert(after[k] == t);
                } else {
                    assert(after[k + 1] == t);
                }
            }
            if t == it {
                assert(after[i as int] == t);
            }
            if after.contains(t) {
                let k = choose|k: int| 0 <= k < after.len() && after[k] == t;
                if k < i {
                    assert(before[k] == t);
                } else if k > i {
                    assert(before[k - 1] == t);
                }
            }
        }
    }
}

/// The texts of an ascending list that differ from `item`, in ascending order.
pub fn without(items: &Vec<String>, item: &str) -> (res: Vec<String>)
    requires
        ascending(texts(items@)),
    ensures
        ascending(texts(res@)),
        forall|t: Seq<char>| #[trigger]
            texts(res@).contains(t) <==> texts(items@).contains(t) && t != item@,
{
    let ghost all = texts(items@);
    let mut res: Vec<String> = Vec::new();
    let mut i: usize = 0;
    assert(all.take(0) =~= seq![]);
    while i < items.len()
        invariant
            i <= items@.len(),
            all == texts(items@),
            ascending(all),
            ascending(texts(res@)),
            forall|t: Seq<char>| #[trigger]
                texts(res@).contains(t) <==> all.take(i as int).contains(t) && t != item@,
        decreases items@.len() - i,
    {
        let ghost before = texts(res@);
        let ghost x = items@[i as int]@;
        assert(all.take(i + 1) =~= all.take(i as int).push(x));
        assert(forall|t: Seq<char>| #[trigger]
            all.take(i + 1).contains(t) <==> all.take(i as int).contains(t) || t == x) by {
            lemma_push_contains(all.take(i as int), x);
        }
        if !same(items[i].as_str(), item) {
            res.push(items[i].clone());
            proof {
                assert(texts(res@) =~= before.push(x));
                lemma_push_contains(before, x);
                assert forall|k: int| 0 <= k < before.len() implies text_less(
                    #[trigger] before[k],
                    x,
                ) by {
                    assert(before.contains(before[k]));
                    let j = choose|j: int| 0 <= j < i && all.take(i as int)[j] == before[k];
                    assert(all[j] == before[k]);
                    assert(all[i as int] == x);
                }
            }
        }
        i = i + 1;
    }
    assert(all.take(i as int) =~= all);
    res
}

/// What a list holds once an item is appended.
pub proof fn lemma_push_contains<A>(s: Seq<A>, x: A)
    ensures
        forall|t: A| #[trigger] s.push(x).contains(t) <==> s.contains(t) || t == x,
{
    assert forall|t: A| #[trigger] s.push(x).contains(t) <==> s.contains(t) || t == x by {
        if s.contains(t) {
            let k = choose|k: int| 0 <= k < s.len() && s[k] == t;
            assert(s.push(x)[k] == t);
        }
        if t == x {
            assert(s.push(x)[s.len() as int] == t);
        }
        if s.push(x).contains(t) {
            let k = choose|k: int| 0 <= k < s.push(x).len() && s.push(x)[k] == t;
            if k < s.len() {
                assert(s[k] == t);
            }
        }
    }
}

/// The set of what a list holds once an item is appended.
pub proof fn lemma_push_to_set<A>(s: Seq<A>, x: A)
    ensures
        s.push(x).to_set() == s.to_set().insert(x),
{
    lemma_push_contains(s, x);
    assert forall|t: A| s.push(x).to_set().contains(t) <==> s.to_set().insert(x).contains(t) by {
        assert(s.push(x).contains(t) <==> s.contains(t) || t == x);
    }
    assert(s.push(x).to_set() =~= s.to_set().insert(x));
}

/// Two ascending lists that hold the same texts are the same list.
pub proof fn lemma_ascending_unique(a: Seq<Seq<char>>, b: Seq<Seq<char>>)
    requires
        ascending(a),
        ascending(b),
        forall|t: Seq<char>| #[trigger] a.contains(t) <==> b.contains(t),
    ensures
        a == b,
{
    lemma_ascending_prefix(a, b, a.len() as int);
    lemma_ascending_prefix(b, a, b.len() as int);
    assert(a =~= b);
}

proof fn lemma_ascending_prefix(a: Seq<Seq<char>>, b: Seq<Seq<char>>, n: int)
    requires
        ascending(a),
        ascending(b),
        forall|t: Seq<char>| #[trigger] a.contains(t) <==> b.contains(t),
        0 <= n <= a.len(),
    ensures
        n <= b.len(),
        forall|i: int| 0 <= i < n ==> a[i] == b[i],
    decreases n,
{
    if n > 0 {
        let i = n - 1;
        lemma_ascending_prefix(a, b, i);
        assert(a.contains(a[i]));
        let j = choose|j: int| 0 <= j < b.len() && b[j] == a[i];
        lemma_text_less_total(a[i], a[i]);
        if j < i {
            assert(a[j] == b[j]);
            assert(text_less(a[j], a[i]));
        } else if j > i {
            assert(text_less(b[i], b[j]));
            assert(b.contains(b[i]));
            assert(a.contains(b[i]));
            let k = choose|k: int| 0 <= k < a.len() && a[k] == b[i];
            lemma_text_less_total(a[k], a[i]);
            if k > i {
                assert(text_less(a[i], a[k]));
            } else if k < i {
                assert(a[k] == b[k]);
                assert(text_less(b[k], b[i]));
                lemma_text_less_total(b[i], b[i]);
            }
        }
    }
}

// ---------------------------------------------------------------------------------------------
// Rendering.
// ---------------------------------------------------------------------------------------------
/// The decimal digit `d`.
pub open spec fn digit(d: int) -> char {
    ('0' as int + d) as char
}

/// The decimal form of `n`.
pub open spec fn decimal(n: nat) -> Seq<char>
    decreases n,
{
    if n < 10 {
        seq![digit(n as int)]
    } else {
        decimal(n / 10).push(digit((n % 10) as int))
    }
}

/// The decimal form of a signed number.
pub open spec fn decimal_signed(n: int) -> Seq<char> {
    if n < 0 {
        seq!['-'] + decimal((-n) as nat)
    } else {
        decimal(n as nat)
    }
}

/// Writes `n` in decimal.
pub fn decimal_string(n: u64) -> (s: String)
    ensures
        s@ == decimal(n as nat),
    decreases n,
{
    if n < 10 {
        let mut s = String::new();
        s.push((48u8 + n as u8) as char);
        s
    } else {
        let mut s = decimal_string(n / 10);
        s.push((48u8 + (n % 10) as u8) as char);
        s
    }
}

/// Writes a signed number in decimal.
pub fn decimal_signed_string(n: i64) -> (s: String)
    ensures
        s@ == decimal_signed(n as int),
{
    if n >= 0 {
        decimal_string(n as u64)
    } else {
        let magnitude: u64 = if n == i64::MIN {
            0x8000_0000_0000_0000
        } else {
            (-n) as u64
        };
        let mut s = String::new();
        s.push('-');
        let d = decimal_string(magnitude);
        s.append(d.as_str());
        assert(s@ =~= seq!['-'] + decimal(magnitude as nat));
        s
    }
}

/// The lowercase hexadecimal digit of value `d`.
pub open spec fn hex_digit(d: int) -> char {
    if d < 10 {
        ('0' as int + d) as char
    } else {
        ('a' as int + d - 10) as char
    }
}

/// The lowercase hexadecimal form of a byte string: two digits a byte, the high one first.
pub open spec fn hex(bytes: Seq<u8>) -> Seq<char> {
    Seq::new(
        2 * bytes.len(),
        |i: int| hex_digit(if i % 2 == 0 { bytes[i / 2] as int / 16 } else { bytes[i / 2] as int % 16 }),
    )
}

fn hex_char(d: u8) -> (c: char)
    requires
        d < 16,
    ensures
        c == hex_digit(d as int),
{
    if d < 10 {
        (48u8 + d) as char
    } else {
        (97u8 + (d - 10)) as char
    }
}

/// Writes a byte string in lowercase hexadecimal.
pub fn hex_string(bytes: &[u8]) -> (s: String)
    ensures
        s@ == hex(bytes@),
{
    let mut s = String::new();
    let mut i: usize = 0;
    while i < bytes.len()
        invariant
            i <= bytes@.len(),
            s@ == hex(bytes@.take(i as int)),
        decreases bytes@.len() - i,
    {
        let b: u8 = bytes[i];
        s.push(hex_char(b / 16));
        s.push(hex_char(b % 16));
        i = i + 1;
        assert(s@ =~= hex(bytes@.take(i as int)));
    }
    assert(bytes@.take(bytes@.len() as int) =~= bytes@);
    s
}

/// Two numbers of one decimal form are one number.
pub proof fn lemma_decimal_injective(a: nat, b: nat)
    requires
        decimal(a) == decimal(b),
    ensures
        a == b,
    decreases a,
{
    let s = decimal(a);
    let t = decimal(b);
    assert(s.last() == digit((a % 10) as int));
    assert(t.last() == digit((b % 10) as int));
    assert(a % 10 == b % 10);
    if a >= 10 {
        assert(s.drop_last() =~= decimal(a / 10));
        lemma_decimal_len(a / 10);
        if b >= 10 {
            assert(t.drop_last() =~= decimal(b / 10));
            lemma_decimal_injective(a / 10, b / 10);
        }
    } else if b >= 10 {
        lemma_decimal_len(b / 10);
    }
}

proof fn lemma_decimal_len(n: nat)
    ensures
        decimal(n).len() > 0,
{
}

// ---------------------------------------------------------------------------------------------
// Bytes.
// ---------------------------------------------------------------------------------------------
/// The number of bytes of a character in UTF-8.
pub open spec fn char_width(c: char) -> nat {
    if (c as u32) < 0x80 {
        1
    } else if (c as u32) < 0x800 {
        2
    } else if (c as u32) < 0x10000 {
        3
    } else {
        4
    }
}

/// The number of bytes of a text in UTF-8.
pub open spec fn byte_len(s: Seq<char>) -> nat
    decreases s.len(),
{
    if s.len() == 0 {
        0
    } else {
        byte_len(s.drop_last()) + char_width(s.last())
    }
}

/// The number of bytes of a character in UTF-8.
pub fn width_of(c: char) -> (res: u8)
    ensures
        res == char_width(c),
{
    if (c as u32) < 0x80 {
        1
    } else if (c as u32) < 0x800 {
        2
    } else if (c as u32) < 0x10000 {
        3
    } else {
        4
    }
}

/// The number of bytes of a text in UTF-8.
pub fn utf8_len(s: &str) -> (res: u128)
    ensures
        res == byte_len(s@),
{
    let v = chars_of(s);
    let n: usize = v.len();
    let mut res: u128 = 0;
    let mut i: usize = 0;
    assert(s@.take(0) =~= seq![]);
    while i < n
        invariant
            i <= n == v@.len(),
            v@ == s@,
            res <= 4 * i,
            res == byte_len(s@.take(i as int)),
        decreases n - i,
    {
        let c = v[i];
        assert(s@.take(i + 1).drop_last() =~= s@.take(i as int));
        assert(s@.take(i + 1).last() == c);
        let width: u128 = width_of(c) as u128;
        res = res + width;
        i = i + 1;
    }
    assert(s@.take(n as int) =~= s@);
    res
}

} // verus!
