//! Character-level text helpers shared by the agent and the buddy:
//! Unicode whitespace, trimming, prefix/suffix tests, substring search,
//! byte-bounded truncation and decimal formatting.
use vstd::prelude::*;
use vstd::utf8::*;

verus! {

// --- characters ---------------------------------------------------------------

/// Unicode `White_Space` (PropList.txt): the characters `char::is_whitespace`
/// and `str::trim` / `str::split_whitespace` treat as whitespace.
pub open spec fn is_ws(c: char) -> bool {
    let u = c as u32;
    ||| 0x9 <= u <= 0xD
    ||| u == 0x20
    ||| u == 0x85
    ||| u == 0xA0
    ||| u == 0x1680
    ||| 0x2000 <= u <= 0x200A
    ||| u == 0x2028
    ||| u == 0x2029
    ||| u == 0x202F
    ||| u == 0x205F
    ||| u == 0x3000
}

/// Whether `c` is Unicode whitespace.
pub fn is_whitespace(c: char) -> (r: bool)
    ensures
        r == is_ws(c),
{
    let u = c as u32;
    (0x9 <= u && u <= 0xD) || u == 0x20 || u == 0x85 || u == 0xA0 || u == 0x1680 || (0x2000 <= u
        && u <= 0x200A) || u == 0x2028 || u == 0x2029 || u == 0x202F || u == 0x205F || u == 0x3000
}

/// A class of characters that trimming removes.
#[derive(Clone, Copy, PartialEq, Eq, Structural, Debug)]
pub enum CharClass {
    Whitespace,
    Exactly(char),
}

pub open spec fn in_class(cls: CharClass, c: char) -> bool {
    match cls {
        CharClass::Whitespace => is_ws(c),
        CharClass::Exactly(x) => c == x,
    }
}

fn class_has(cls: CharClass, c: char) -> (r: bool)
    ensures
        r == in_class(cls, c),
{
    match cls {
        CharClass::Whitespace => is_whitespace(c),
        CharClass::Exactly(x) => c == x,
    }
}

// --- conversions --------------------------------------------------------------

/// `String::push`. Its contract claims what the std documentation says: the
/// character is appended and nothing else changes.
#[verifier::external_body]
pub(crate) fn push_char(s: &mut String, c: char)
    ensures
        final(s)@ == old(s)@.push(c),
{
    s.push(c);
}

/// The characters of `s`, in order.
pub fn chars_of(s: &str) -> (v: Vec<char>)
    ensures
        v@ == s@,
{
    let mut v: Vec<char> = Vec::new();
    for c in it: s.chars()
        invariant
            v@ == it.seq().take(it.index() as int),
    {
        v.push(c);
    }
    v
}

/// The string made of `v[lo..hi]`.
pub fn string_of(v: &Vec<char>, lo: usize, hi: usize) -> (s: String)
    requires
        lo <= hi <= v.len(),
    ensures
        s@ == v@.subrange(lo as int, hi as int),
{
    let mut s = String::new();
    let mut i = lo;
    while i < hi
        invariant
            lo <= i <= hi <= v.len(),
            s@ == v@.subrange(lo as int, i as int),
        decreases hi - i,
    {
        push_char(&mut s, v[i]);
        assert(v@.subrange(lo as int, i + 1) =~= v@.subrange(lo as int, i as int).push(v@[i as int]));
        i += 1;
    }
    s
}

/// The string made of all of `v`.
pub fn string_of_all(v: &Vec<char>) -> (s: String)
    ensures
        s@ == v@,
{
    let s = string_of(v, 0, v.len());
    assert(v@.subrange(0, v@.len() as int) =~= v@);
    s
}

/// A copy of `s` as an owned `String`.
pub fn owned(s: &str) -> (r: String)
    ensures
        r@ == s@,
{
    let v = chars_of(s);
    string_of_all(&v)
}

/// `a` followed by `b`.
pub fn join_str(a: &str, b: &str) -> (r: String)
    ensures
        r@ == a@ + b@,
{
    let mut r = owned(a);
    r.append(b);
    r
}

/// Whether `a` and `b` hold the same text.
pub fn same_text(a: &str, b: &str) -> (r: bool)
    ensures
        r == (a@ == b@),
{
    let x = chars_of(a);
    let y = chars_of(b);
    if x.len() != y.len() {
        return false;
    }
    let mut i: usize = 0;
    while i < x.len()
        invariant
            i <= x.len(),
            x.len() == y.len(),
            x@ == a@,
            y@ == b@,
            forall|k: int| 0 <= k < i ==> x@[k] == y@[k],
        decreases x.len() - i,
    {
        if x[i] != y[i] {
            return false;
        }
        i += 1;
    }
    assert(x@ =~= y@);
    true
}

// --- trimming -----------------------------------------------------------------

/// Number of leading characters of `s` that belong to `cls`.
pub open spec fn lead_count(s: Seq<char>, cls: CharClass) -> nat
    decreases s.len(),
{
    if s.len() > 0 && in_class(cls, s[0]) {
        1 + lead_count(s.drop_first(), cls)
    } else {
        0
    }
}

/// Number of trailing characters of `s` that belong to `cls`.
pub open spec fn trail_count(s: Seq<char>, cls: CharClass) -> nat
    decreases s.len(),
{
    if s.len() > 0 && in_class(cls, s.last()) {
        1 + trail_count(s.drop_last(), cls)
    } else {
        0
    }
}

pub open spec fn trim_start_class(s: Seq<char>, cls: CharClass) -> Seq<char> {
    s.skip(lead_count(s, cls) as int)
}

pub open spec fn trim_end_class(s: Seq<char>, cls: CharClass) -> Seq<char> {
    s.take(s.len() - trail_count(s, cls))
}

/// `str::trim`: leading and trailing whitespace removed.
pub open spec fn trim_ws(s: Seq<char>) -> Seq<char> {
    trim_end_class(trim_start_class(s, CharClass::Whitespace), CharClass::Whitespace)
}

/// The leading run counted by `lead_count` is in the class and ends before
/// a character that is not.
pub proof fn lemma_lead_count_bound(s: Seq<char>, cls: CharClass)
    ensures
        lead_count(s, cls) <= s.len(),
        forall|j: int| 0 <= j < lead_count(s, cls) ==> in_class(cls, #[trigger] s[j]),
        lead_count(s, cls) < s.len() ==> !in_class(cls, s[lead_count(s, cls) as int]),
    decreases s.len(),
{
    if s.len() > 0 && in_class(cls, s[0]) {
        lemma_lead_count_bound(s.drop_first(), cls);
        assert forall|j: int| 0 <= j < lead_count(s, cls) implies in_class(cls, #[trigger] s[j]) by {
            if j > 0 {
                assert(s[j] == s.drop_first()[j - 1]);
            }
        }
    }
}

/// The trailing run counted by `trail_count` is in the class and starts
/// after a character that is not.
pub proof fn lemma_trail_count_bound(s: Seq<char>, cls: CharClass)
    ensures
        trail_count(s, cls) <= s.len(),
        forall|j: int|
            s.len() - trail_count(s, cls) <= j < s.len() ==> in_class(cls, #[trigger] s[j]),
        trail_count(s, cls) < s.len() ==> !in_class(cls, s[s.len() - trail_count(s, cls) - 1]),
    decreases s.len(),
{
    if s.len() > 0 && in_class(cls, s.last()) {
        lemma_trail_count_bound(s.drop_last(), cls);
        assert forall|j: int| s.len() - trail_count(s, cls) <= j < s.len() implies in_class(
            cls,
            #[trigger] s[j],
        ) by {
            if j < s.len() - 1 {
                assert(s[j] == s.drop_last()[j]);
            }
        }
    }
}

/// Index of the first character of `v[lo..hi]` outside `cls` (or `hi`).
fn skip_lead(v: &Vec<char>, lo: usize, hi: usize, cls: CharClass) -> (i: usize)
    requires
        lo <= hi <= v.len(),
    ensures
        lo <= i <= hi,
        i - lo == lead_count(v@.subrange(lo as int, hi as int), cls),
{
    let mut i = lo;
    while i < hi && class_has(cls, v[i])
        invariant
            lo <= i <= hi <= v.len(),
            lead_count(v@.subrange(lo as int, hi as int), cls) == (i - lo) + lead_count(
                v@.subrange(i as int, hi as int),
                cls,
            ),
        decreases hi - i,
    {
        assert(v@.subrange(i as int, hi as int).drop_first() =~= v@.subrange(i + 1, hi as int));
        i += 1;
    }
    i
}

/// One past the last character of `v[lo..hi]` outside `cls` (or `lo`).
fn skip_trail(v: &Vec<char>, lo: usize, hi: usize, cls: CharClass) -> (j: usize)
    requires
        lo <= hi <= v.len(),
    ensures
        lo <= j <= hi,
        hi - j == trail_count(v@.subrange(lo as int, hi as int), cls),
{
    let mut j = hi;
    while j > lo && class_has(cls, v[j - 1])
        invariant
            lo <= j <= hi <= v.len(),
            trail_count(v@.subrange(lo as int, hi as int), cls) == (hi - j) + trail_count(
                v@.subrange(lo as int, j as int),
                cls,
            ),
        decreases j - lo,
    {
        assert(v@.subrange(lo as int, j as int).drop_last() =~= v@.subrange(lo as int, j - 1));
        j -= 1;
    }
    j
}

/// Bounds `(a, b)` of `v` with leading characters in `start` and trailing
/// characters in `end` removed, as `trim_end_class(trim_start_class(..))`.
pub fn trim_bounds(v: &Vec<char>, start: CharClass, end: CharClass) -> (r: (usize, usize))
    ensures
        r.0 <= r.1 <= v.len(),
        v@.subrange(r.0 as int, r.1 as int) == trim_end_class(trim_start_class(v@, start), end),
{
    let a = skip_lead(v, 0, v.len(), start);
    assert(v@.subrange(0, v.len() as int) =~= v@);
    let b = skip_trail(v, a, v.len(), end);
    assert(trim_start_class(v@, start) =~= v@.subrange(a as int, v.len() as int));
    assert(v@.subrange(a as int, b as int) =~= v@.subrange(a as int, v.len() as int).take(
        (v.len() - a) - (v.len() - b),
    ));
    (a, b)
}

/// `str::trim`.
pub fn trim(s: &str) -> (r: String)
    ensures
        r@ == trim_ws(s@),
{
    let v = chars_of(s);
    let (a, b) = trim_bounds(&v, CharClass::Whitespace, CharClass::Whitespace);
    string_of(&v, a, b)
}

/// `str::trim_end_matches(c)` for a single character.
pub fn trim_end_char(s: &str, c: char) -> (r: String)
    ensures
        r@ == trim_end_class(s@, CharClass::Exactly(c)),
{
    let v = chars_of(s);
    let b = skip_trail(&v, 0, v.len(), CharClass::Exactly(c));
    assert(v@.subrange(0, v.len() as int) =~= v@);
    string_of(&v, 0, b)
}

/// `str::trim_start_matches(c)` for a single character.
pub fn trim_start_char(s: &str, c: char) -> (r: String)
    ensures
        r@ == trim_start_class(s@, CharClass::Exactly(c)),
{
    let v = chars_of(s);
    let a = skip_lead(&v, 0, v.len(), CharClass::Exactly(c));
    assert(v@.subrange(0, v.len() as int) =~= v@);
    string_of(&v, a, v.len())
}

/// `str::trim_end`.
pub fn trim_end(s: &str) -> (r: String)
    ensures
        r@ == trim_end_class(s@, CharClass::Whitespace),
{
    let v = chars_of(s);
    let b = skip_trail(&v, 0, v.len(), CharClass::Whitespace);
    assert(v@.subrange(0, v.len() as int) =~= v@);
    string_of(&v, 0, b)
}

// --- prefixes, suffixes, search --------------------------------------------------

pub open spec fn has_prefix(s: Seq<char>, p: Seq<char>) -> bool {
    p.len() <= s.len() && s.take(p.len() as int) == p
}

pub open spec fn has_suffix(s: Seq<char>, p: Seq<char>) -> bool {
    p.len() <= s.len() && s.skip(s.len() - p.len()) == p
}

pub open spec fn occurs_at(s: Seq<char>, p: Seq<char>, i: int) -> bool {
    0 <= i && i + p.len() <= s.len() && s.subrange(i, i + p.len()) == p
}

/// First index at which `p` occurs in `s` (the `str::find` position, in chars).
pub open spec fn first_occurrence(s: Seq<char>, p: Seq<char>) -> Option<int> {
    if exists|i: int| occurs_at(s, p, i) {
        Some(choose|i: int| occurs_at(s, p, i) && forall|j: int| 0 <= j < i ==> !occurs_at(s, p, j))
    } else {
        None
    }
}

fn matches_at(v: &Vec<char>, p: &Vec<char>, i: usize) -> (r: bool)
    requires
        i <= v.len(),
    ensures
        r == occurs_at(v@, p@, i as int),
{
    if p.len() > v.len() - i {
        return false;
    }
    let mut k: usize = 0;
    while k < p.len()
        invariant
            i + p.len() <= v.len(),
            k <= p.len(),
            forall|m: int| 0 <= m < k ==> v@[i + m] == p@[m],
        decreases p.len() - k,
    {
        if v[i + k] != p[k] {
            assert(v@.subrange(i as int, i + p.len())[k as int] != p@[k as int]);
            return false;
        }
        k += 1;
    }
    assert(v@.subrange(i as int, i + p.len()) =~= p@);
    true
}

/// Char index of the first occurrence of `p` in `v`.
pub fn find_in(v: &Vec<char>, p: &Vec<char>) -> (r: Option<usize>)
    ensures
        match r {
            Some(i) => occurs_at(v@, p@, i as int) && forall|j: int|
                0 <= j < i ==> !occurs_at(v@, p@, j),
            None => forall|j: int| !occurs_at(v@, p@, j),
        },
        r matches Some(i) ==> first_occurrence(v@, p@) == Some(i as int),
        r is None ==> first_occurrence(v@, p@) is None,
{
    let mut i: usize = 0;
    loop
        invariant
            i <= v.len(),
            forall|j: int| 0 <= j < i ==> !occurs_at(v@, p@, j),
        decreases v.len() - i,
    {
        if matches_at(v, p, i) {
            let ghost w = choose|w: int| occurs_at(v@, p@, w) && forall|j: int|
                0 <= j < w ==> !occurs_at(v@, p@, j);
            assert(occurs_at(v@, p@, i as int));
            assert(w == i as int) by {
                if w < i {
                } else if w > i {
                }
            }
            return Some(i);
        }
        if i == v.len() {
            assert forall|j: int| !occurs_at(v@, p@, j) by {
                if j > v.len() {
                }
            }
            return None;
        }
        i += 1;
    }
}

/// `s.starts_with(p)`.
pub fn starts_with(s: &str, p: &str) -> (r: bool)
    ensures
        r == has_prefix(s@, p@),
{
    let v = chars_of(s);
    let w = chars_of(p);
    let r = matches_at(&v, &w, 0);
    assert(v@.subrange(0, w@.len() as int) =~= v@.take(w@.len() as int));
    r
}

/// `s.ends_with(p)`.
pub fn ends_with(s: &str, p: &str) -> (r: bool)
    ensures
        r == has_suffix(s@, p@),
{
    let v = chars_of(s);
    let w = chars_of(p);
    if w.len() > v.len() {
        return false;
    }
    let r = matches_at(&v, &w, v.len() - w.len());
    assert(v@.subrange(v.len() - w.len(), v.len() as int) =~= v@.skip(v.len() - w.len()));
    r
}

/// `s.contains(p)`.
pub fn contains(s: &str, p: &str) -> (r: bool)
    ensures
        r == exists|i: int| occurs_at(s@, p@, i),
{
    let v = chars_of(s);
    let w = chars_of(p);
    match find_in(&v, &w) {
        Some(_) => true,
        None => false,
    }
}

/// `s.strip_prefix(p)`.
pub fn strip_prefix(s: &str, p: &str) -> (r: Option<String>)
    ensures
        match r {
            Some(t) => has_prefix(s@, p@) && t@ == s@.skip(p@.len() as int),
            None => !has_prefix(s@, p@),
        },
{
    if starts_with(s, p) {
        let v = chars_of(s);
        let n = p.unicode_len();
        Some(string_of(&v, n, v.len()))
    } else {
        None
    }
}

// --- bytes --------------------------------------------------------------------

/// Byte length of the UTF-8 encoding of `c`.
pub open spec fn char_width(c: char) -> nat {
    encode_scalar(c as u32).len()
}

/// Number of leading characters of `s` that fit in `n` bytes.
pub open spec fn chars_within(s: Seq<char>, n: int) -> nat
    decreases s.len(),
{
    if s.len() == 0 || char_width(s[0]) > n {
        0
    } else {
        1 + chars_within(s.drop_first(), n - char_width(s[0]))
    }
}

/// What `truncate(s, n)` yields: `s` when it fits in `n` bytes, else its
/// first `n` bytes followed by an ellipsis.
pub open spec fn truncated(s: Seq<char>, n: int) -> Seq<char> {
    if encode_utf8(s).len() <= n {
        s
    } else {
        s.take(chars_within(s, n) as int) + seq!['…']
    }
}

fn width_of(c: char) -> (w: usize)
    ensures
        w == char_width(c),
        1 <= w <= 4,
{
    proof {
        char_is_scalar(c);
    }
    let u = c as u32;
    if u <= 0x7F {
        1
    } else if u <= 0x7FF {
        2
    } else if u <= 0xFFFF {
        3
    } else {
        4
    }
}

/// Encoding a string with one more character appends that character's bytes.
pub proof fn lemma_encode_push(s: Seq<char>, c: char)
    ensures
        encode_utf8(s.push(c)) == encode_utf8(s) + encode_scalar(c as u32),
    decreases s.len(),
{
    let t = s.push(c);
    if s.len() == 0 {
        assert(t[0] == c);
        assert(t.drop_first() =~= Seq::<char>::empty());
        assert(encode_utf8(t) == encode_scalar(c as u32) + encode_utf8(t.drop_first()));
        assert(encode_utf8(Seq::<char>::empty()) =~= Seq::<u8>::empty());
        assert(encode_utf8(s) =~= Seq::<u8>::empty());
        assert(encode_utf8(t) =~= encode_utf8(s) + encode_scalar(c as u32));
    } else {
        lemma_encode_push(s.drop_first(), c);
        assert(s.push(c).drop_first() =~= s.drop_first().push(c));
        assert(encode_utf8(s.push(c)) =~= encode_scalar(s[0] as u32) + encode_utf8(s.drop_first().push(c)));
    }
}

/// A byte index that falls inside the encoding of `s` is a character boundary
/// exactly when the characters that fit before it fill it completely.
pub proof fn lemma_boundary(s: Seq<char>, n: int)
    requires
        0 <= n <= encode_utf8(s).len(),
    ensures
        is_char_boundary(encode_utf8(s), n) <==> encode_utf8(s.take(chars_within(s, n) as int)).len()
            == n,
        encode_utf8(s.take(chars_within(s, n) as int)).len() <= n,
        chars_within(s, n) <= s.len(),
    decreases s.len(),
{
    broadcast use encode_utf8_valid_utf8;

    let bytes = encode_utf8(s);
    if s.len() == 0 {
        assert(s.take(0) =~= s);
    } else {
        encode_utf8_first_scalar(s);
        assert(pop_first_scalar(bytes) =~= encode_utf8(s.drop_first()));
        let w = char_width(s[0]);
        if w > n {
            assert(s.take(0) =~= Seq::<char>::empty());
            assert(encode_utf8(Seq::<char>::empty()).len() == 0);
            if n > 0 {
                assert(!is_char_boundary(encode_utf8(s.drop_first()), n - w));
            }
        } else {
            lemma_boundary(s.drop_first(), n - w);
            let k = chars_within(s.drop_first(), n - w);
            assert(s.take(k as int + 1).drop_first() =~= s.drop_first().take(k as int));
            assert(s.take(k as int + 1)[0] == s[0]);
            assert(encode_utf8(s.take(k as int + 1)) == encode_scalar(s[0] as u32) + encode_utf8(
                s.take(k as int + 1).drop_first(),
            ));
            if n == 0 {
                assert(w >= 1) by {
                    char_is_scalar(s[0]);
                }
            }
        }
    }
}

/// Whether `truncate(s, n)` is defined: `s` fits in `n` bytes or byte `n`
/// starts a character (otherwise slicing at `n` would split a character).
pub open spec fn truncate_defined(s: Seq<char>, n: usize) -> bool {
    encode_utf8(s).len() <= n || is_char_boundary(encode_utf8(s), n as int)
}

/// Whether `truncate(s, n)` is defined.
pub fn can_truncate(s: &str, n: usize) -> (r: bool)
    ensures
        r == truncate_defined(s@, n),
{
    s.as_bytes().len() <= n || s.is_char_boundary(n)
}

/// `s` unchanged when its UTF-8 encoding fits in `n` bytes, else its first
/// `n` bytes and an ellipsis.
pub fn truncate(s: &str, n: usize) -> (r: String)
    requires
        truncate_defined(s@, n),
    ensures
        r@ == truncated(s@, n as int),
        encode_utf8(s@).len() > n ==> encode_utf8(s@.take(chars_within(s@, n as int) as int)).len()
            == n,
{
    let v = chars_of(s);
    if s.as_bytes().len() <= n {
        return string_of_all(&v);
    }
    proof {
        lemma_boundary(s@, n as int);
        assert(v@.skip(0) =~= v@);
        assert(v@.take(0) =~= Seq::<char>::empty());
    }
    let mut k: usize = 0;
    let mut used: usize = 0;
    while k < v.len() && width_of(v[k]) <= n - used
        invariant
            k <= v.len(),
            v@ == s@,
            used <= n,
            used == encode_utf8(v@.take(k as int)).len(),
            chars_within(v@, n as int) == k + chars_within(v@.skip(k as int), n - used),
        decreases v.len() - k,
    {
        proof {
            lemma_encode_push(v@.take(k as int), v@[k as int]);
            assert(v@.take(k + 1) =~= v@.take(k as int).push(v@[k as int]));
            assert(v@.skip(k as int).drop_first() =~= v@.skip(k + 1));
        }
        used = used + width_of(v[k]);
        k += 1;
    }
    proof {
        if k == v.len() {
            assert(v@.take(k as int) =~= v@);
        } else {
            assert(v@.skip(k as int)[0] == v@[k as int]);
        }
    }
    let mut r = string_of(&v, 0, k);
    push_char(&mut r, '…');
    assert(v@.subrange(0, k as int) =~= v@.take(k as int));
    r
}

// --- decoding ---------------------------------------------------------------

/// `String::from_utf8_lossy`: the bytes decoded as UTF-8, each invalid
/// sequence replaced by U+FFFD.
pub uninterp spec fn utf8_lossy(bytes: Seq<u8>) -> Seq<char>;

/// `String::from_utf8_lossy(bytes).into_owned()`. Its contract claims the
/// result is the named lossy decoding of the bytes and, as the std
/// documentation says, that valid UTF-8 comes back unchanged.
#[verifier::external_body]
pub(crate) fn from_utf8_lossy(bytes: &[u8]) -> (s: String)
    ensures
        s@ == utf8_lossy(bytes@),
        vstd::utf8::valid_utf8(bytes@) ==> s@ == vstd::utf8::decode_utf8(bytes@),
{
    String::from_utf8_lossy(bytes).into_owned()
}

// --- numbers ------------------------------------------------------------------

pub open spec fn is_digit(c: char) -> bool {
    48 <= (c as u32) <= 57
}

pub open spec fn all_digits(d: Seq<char>) -> bool {
    forall|i: int| 0 <= i < d.len() ==> is_digit(#[trigger] d[i])
}

/// The value of a run of decimal digits.
pub open spec fn digits_value(d: Seq<char>) -> nat
    decreases d.len(),
{
    if d.len() == 0 {
        0
    } else {
        10 * digits_value(d.drop_last()) + ((d.last() as u32) - 48) as nat
    }
}

/// `str::parse` of an integer: an optional `+` (or `-` when `signed`) and
/// at least one decimal digit, nothing else; its value before range checks.
pub open spec fn int_text(s: Seq<char>, signed: bool) -> Option<int> {
    let (neg, d) = if s.len() > 0 && s[0] == '+' {
        (false, s.skip(1))
    } else if signed && s.len() > 0 && s[0] == '-' {
        (true, s.skip(1))
    } else {
        (false, s)
    };
    if d.len() == 0 || !all_digits(d) {
        None
    } else {
        Some(
            if neg {
                -(digits_value(d) as int)
            } else {
                digits_value(d) as int
            },
        )
    }
}

/// Values at or past this are out of every range parsed here.
pub const DIGITS_CAP: u128 = 0x1_0000_0000_0000_0000u128;

/// The digits `v[lo..]`, their value capped at `DIGITS_CAP`; `None` when
/// there are none or a character is not a digit.
fn digits_capped(v: &Vec<char>, lo: usize) -> (r: Option<u128>)
    requires
        lo <= v.len(),
    ensures
        match r {
            Some(x) => v@.len() > lo && all_digits(v@.skip(lo as int)) && x == (if digits_value(
                v@.skip(lo as int),
            ) < DIGITS_CAP {
                digits_value(v@.skip(lo as int))
            } else {
                DIGITS_CAP as nat
            }),
            None => !(v@.len() > lo && all_digits(v@.skip(lo as int))),
        },
{
    if v.len() == lo {
        return None;
    }
    let mut acc: u128 = 0;
    let mut i: usize = lo;
    assert(v@.subrange(lo as int, lo as int) =~= Seq::<char>::empty());
    while i < v.len()
        invariant
            lo <= i <= v.len(),
            all_digits(v@.subrange(lo as int, i as int)),
            acc == (if digits_value(v@.subrange(lo as int, i as int)) < DIGITS_CAP {
                digits_value(v@.subrange(lo as int, i as int))
            } else {
                DIGITS_CAP as nat
            }),
        decreases v.len() - i,
    {
        let c = v[i];
        let u = c as u32;
        if u < 48 || u > 57 {
            assert(v@.skip(lo as int)[i - lo] == c);
            return None;
        }
        let ghost pre = v@.subrange(lo as int, i as int);
        let ghost nxt = v@.subrange(lo as int, i + 1);
        assert(nxt.drop_last() =~= pre);
        assert(nxt.last() == c);
        assert(all_digits(nxt)) by {
            assert forall|k: int| 0 <= k < nxt.len() implies is_digit(#[trigger] nxt[k]) by {
                if k < pre.len() {
                    assert(nxt[k] == pre[k]);
                }
            }
        }
        let d = (u - 48) as u128;
        if acc < DIGITS_CAP {
            let n = acc * 10 + d;
            acc = if n < DIGITS_CAP {
                n
            } else {
                DIGITS_CAP
            };
        }
        i += 1;
    }
    assert(v@.subrange(lo as int, v.len() as int) =~= v@.skip(lo as int));
    Some(acc)
}

/// `s.parse::<u64>()`.
pub fn parse_u64(s: &str) -> (r: Option<u64>)
    ensures
        r == match int_text(s@, false) {
            Some(v) => if 0 <= v <= u64::MAX {
                Some(v as u64)
            } else {
                None
            },
            None => None,
        },
{
    let v = chars_of(s);
    let lo: usize = if v.len() > 0 && v[0] == '+' {
        1
    } else {
        0
    };
    if lo == 1 {
        assert(v@.skip(1) == s@.skip(1));
    } else {
        assert(v@.skip(0) =~= s@);
    }
    match digits_capped(&v, lo) {
        Some(x) => if x <= 0xFFFF_FFFF_FFFF_FFFFu128 {
            Some(x as u64)
        } else {
            None
        },
        None => None,
    }
}

/// `s.parse::<i32>()`.
pub fn parse_i32(s: &str) -> (r: Option<i32>)
    ensures
        r == match int_text(s@, true) {
            Some(v) => if i32::MIN <= v <= i32::MAX {
                Some(v as i32)
            } else {
                None
            },
            None => None,
        },
{
    let v = chars_of(s);
    let (neg, lo) = if v.len() > 0 && v[0] == '+' {
        (false, 1usize)
    } else if v.len() > 0 && v[0] == '-' {
        (true, 1usize)
    } else {
        (false, 0usize)
    };
    if lo == 1 {
        assert(v@.skip(1) == s@.skip(1));
    } else {
        assert(v@.skip(0) =~= s@);
    }
    match digits_capped(&v, lo) {
        Some(x) => if neg {
            if x <= 2147483648u128 {
                Some((0i64 - x as i64) as i32)
            } else {
                None
            }
        } else {
            if x <= 2147483647u128 {
                Some(x as i32)
            } else {
                None
            }
        },
        None => None,
    }
}

pub open spec fn digit_char(d: nat) -> char {
    ((d + 48) as u8) as char
}

/// Decimal representation of `n` (no sign, no leading zeros).
pub open spec fn decimal(n: nat) -> Seq<char>
    decreases n,
{
    if n < 10 {
        seq![digit_char(n)]
    } else {
        decimal(n / 10).push(digit_char(n % 10))
    }
}

/// `n.to_string()`.
pub fn u64_to_string(n: u64) -> (s: String)
    ensures
        s@ == decimal(n as nat),
{
    let mut digits: Vec<char> = Vec::new();
    let mut m = n;
    // digits of n, least significant first
    loop
        invariant_except_break
            decimal(n as nat) == decimal(m as nat) + digits@.reverse(),
        invariant
            m <= n,
        ensures
            decimal(n as nat) == digits@.reverse(),
        decreases m,
    {
        if m < 10 {
            let ghost old_digits = digits@;
            digits.push(((m as u8) + 48) as char);
            assert(digits@.reverse() =~= seq![digit_char(m as nat)] + old_digits.reverse());
            assert(decimal(n as nat) =~= digits@.reverse());
            break;
        }
        let ghost old_digits = digits@;
        let d = (m % 10) as u8;
        digits.push((d + 48) as char);
        assert(digits@.reverse() =~= seq![digit_char((m % 10) as nat)] + old_digits.reverse());
        assert(decimal(m as nat) == decimal((m / 10) as nat).push(digit_char((m % 10) as nat)));
        assert(decimal(m as nat) + old_digits.reverse() =~= decimal((m / 10) as nat)
            + digits@.reverse());
        m = m / 10;
    }
    let mut s = String::new();
    let mut i = digits.len();
    while i > 0
        invariant
            i <= digits.len(),
            s@ == digits@.reverse().take((digits.len() - i) as int),
            decimal(n as nat) == digits@.reverse(),
        decreases i,
    {
        i -= 1;
        push_char(&mut s, digits[i]);
        assert(digits@.reverse().take((digits.len() - i) as int) =~= digits@.reverse().take(
            (digits.len() - i - 1) as int,
        ).push(digits@[i as int]));
    }
    assert(digits@.reverse().take(digits.len() as int) =~= digits@.reverse());
    s
}

} // verus!
