//! Character-level text operations.
//!
//! Every contract is stated over `Seq<char>`, the view of `str` and `String`.
use vstd::prelude::*;
use vstd::string::StringExecFns;
use vstd::utf8::{encode_utf8, is_ascii_chars};

verus! {

// ---------------------------------------------------------------------------
// Unicode properties and case mapping
// ---------------------------------------------------------------------------

/// Whether `c` has the Unicode `White_Space` property.
pub uninterp spec fn unicode_whitespace(c: char) -> bool;

/// Whether `c` is alphabetic or numeric in the sense of Unicode.
pub uninterp spec fn unicode_alphanumeric(c: char) -> bool;

/// The Unicode lowercase equivalent of `s`.
pub uninterp spec fn unicode_lowercase(s: Seq<char>) -> Seq<char>;

/// The Unicode uppercase equivalent of `s`.
pub uninterp spec fn unicode_uppercase(s: Seq<char>) -> Seq<char>;

/// An ASCII decimal digit.
pub open spec fn is_digit(c: char) -> bool {
    '0' <= c <= '9'
}

/// Whether a character is an ASCII letter.
pub open spec fn is_ascii_letter(c: char) -> bool {
    'a' <= c <= 'z' || 'A' <= c <= 'Z'
}

/// `A`..`Z` mapped to `a`..`z`, everything else unchanged.
pub open spec fn ascii_lower(c: char) -> char {
    if 'A' <= c <= 'Z' {
        ((c as u32 + 32) as u32) as char
    } else {
        c
    }
}

/// `a`..`z` mapped to `A`..`Z`, everything else unchanged.
pub open spec fn ascii_upper(c: char) -> char {
    if 'a' <= c <= 'z' {
        ((c as u32 - 32) as u32) as char
    } else {
        c
    }
}

/// A text with the ASCII letters in lower case.
pub open spec fn ascii_lowered(s: Seq<char>) -> Seq<char> {
    s.map_values(|c: char| ascii_lower(c))
}

/// A text with the ASCII letters in upper case.
pub open spec fn ascii_raised(s: Seq<char>) -> Seq<char> {
    s.map_values(|c: char| ascii_upper(c))
}

/// Raising a text's ASCII letters first makes no difference to the text with them lowered.
pub proof fn lemma_raised_lowers_alike(s: Seq<char>)
    ensures
        ascii_lowered(ascii_raised(s)) == ascii_lowered(s),
{
    assert forall|i: int| 0 <= i < s.len() implies ascii_lowered(ascii_raised(s))[i]
        == ascii_lowered(s)[i] by {
        let c = s[i];
        if 'a' <= c <= 'z' {
            assert(ascii_upper(c) as u32 == c as u32 - 32);
        }
    }
    assert(ascii_lowered(ascii_raised(s)) =~= ascii_lowered(s));
}

/// The six ASCII characters with the `White_Space` property.
pub open spec fn ascii_whitespace(c: char) -> bool {
    c == ' ' || ('\t' <= c <= '\r')
}

/// The ASCII letters and digits.
pub open spec fn ascii_alphanumeric(c: char) -> bool {
    ('a' <= c <= 'z') || ('A' <= c <= 'Z') || is_digit(c)
}

/// `char::is_whitespace`: the Unicode `White_Space` property, which among the
/// ASCII characters holds of the space and of `\t`..`\r`.
pub assume_specification[ char::is_whitespace ](c: char) -> (r: bool)
    ensures
        r == unicode_whitespace(c),
        (c as u32) < 128 ==> r == ascii_whitespace(c),
;

/// `char::is_alphanumeric`: alphabetic or numeric, which among the ASCII
/// characters holds of the letters and digits.
pub assume_specification[ char::is_alphanumeric ](c: char) -> (r: bool)
    ensures
        r == unicode_alphanumeric(c),
        (c as u32) < 128 ==> r == ascii_alphanumeric(c),
;

/// The end of the stretch of digits, or of other characters, that goes on at `i`.
pub open spec fn stretch_end(s: Seq<char>, i: int, digits: bool) -> int
    decreases s.len() - i,
{
    if 0 <= i < s.len() && is_digit(s[i]) == digits {
        stretch_end(s, i + 1, digits)
    } else {
        i
    }
}

/// Whether `lower` from `k` on is `s` from `i` on, stretch by stretch: digits as they are, and
/// each stretch of other characters in lower case, which is not empty and holds no digit.
pub open spec fn stretches_lowered(s: Seq<char>, i: int, lower: Seq<char>, k: int) -> bool
    decreases s.len() - i,
{
    if i < 0 || i >= s.len() {
        k == lower.len()
    } else {
        let digits = is_digit(s[i]);
        let e = stretch_end(s, i + 1, digits);
        let piece = if digits {
            s.subrange(i, e)
        } else {
            unicode_lowercase(s.subrange(i, e))
        };
        let n = k + piece.len();
        &&& i < e <= s.len()
        &&& k < n <= lower.len()
        &&& lower.subrange(k, n) == piece
        &&& forall|j: int| k <= j < n ==> is_digit(#[trigger] lower[j]) == digits
        &&& stretches_lowered(s, e, lower, n)
    }
}

/// `str::to_lowercase`: the Unicode lowercase mapping, which on ASCII text maps
/// the letters `A`..`Z` and leaves the rest alone. In any text the case of ASCII letters
/// makes no difference to it, and it goes stretch by stretch between ASCII digits: only a
/// sigma is mapped by what stands around it, by whether it ends a word, and a digit ends one;
/// no character is mapped to nothing, and only a digit to a digit.
pub assume_specification[ str::to_lowercase ](s: &str) -> (r: String)
    ensures
        r@ == unicode_lowercase(s@),
        is_ascii_chars(s@) ==> r@ == ascii_lowered(s@),
        r@ == unicode_lowercase(ascii_lowered(s@)),
        stretches_lowered(s@, 0, r@, 0),
;

/// `str::to_uppercase`: the Unicode uppercase mapping, which on ASCII text maps
/// the letters `a`..`z` and leaves the rest alone.
pub assume_specification[ str::to_uppercase ](s: &str) -> (r: String)
    ensures
        r@ == unicode_uppercase(s@),
        is_ascii_chars(s@) ==> r@ == ascii_raised(s@),
;

/// `String::push`: appends one character.
pub assume_specification[ String::push ](s: &mut String, c: char)
    ensures
        final(s)@ == old(s)@.push(c),
;

// ---------------------------------------------------------------------------
// Between strings and character vectors
// ---------------------------------------------------------------------------

/// The characters of `s`, in order.
pub fn chars_of(s: &str) -> (r: Vec<char>)
    ensures
        r@ == s@,
{
    let mut out: Vec<char> = Vec::new();
    for c in it: s.chars()
        invariant
            out@ == s@.take(it.index()),
            it.seq() == s@,
    {
        out.push(c);
    }
    out
}

/// The characters `v[from..to]` as a string.
pub fn string_of(v: &[char], from: usize, to: usize) -> (r: String)
    requires
        from <= to <= v@.len(),
    ensures
        r@ == v@.subrange(from as int, to as int),
{
    let mut out = String::new();
    let mut i: usize = from;
    while i < to
        invariant
            from <= i <= to <= v@.len(),
            out@ == v@.subrange(from as int, i as int),
        decreases to - i,
    {
        out.push(v[i]);
        proof {
            assert(v@.subrange(from as int, i as int + 1) =~= v@.subrange(from as int, i as int).push(
                v@[i as int],
            ));
        }
        i = i + 1;
    }
    out
}

/// All of `v` as a string.
pub fn string_of_all(v: &[char]) -> (r: String)
    ensures
        r@ == v@,
{
    let r = string_of(v, 0, v.len());
    proof {
        assert(v@.subrange(0, v@.len() as int) =~= v@);
    }
    r
}

/// Copies `v[from..to]`.
pub fn copy_chars(v: &[char], from: usize, to: usize) -> (r: Vec<char>)
    requires
        from <= to <= v@.len(),
    ensures
        r@ == v@.subrange(from as int, to as int),
{
    let mut out: Vec<char> = Vec::new();
    push_chars(&mut out, v, from, to);
    proof {
        assert(Seq::<char>::empty() + v@.subrange(from as int, to as int) =~= v@.subrange(
            from as int,
            to as int,
        ));
    }
    out
}

/// Appends `v[from..to]` to `out`.
pub fn push_chars(out: &mut Vec<char>, v: &[char], from: usize, to: usize)
    requires
        from <= to <= v@.len(),
    ensures
        final(out)@ == old(out)@ + v@.subrange(from as int, to as int),
{
    let ghost before = out@;
    let mut i: usize = from;
    proof {
        assert(before + v@.subrange(from as int, from as int) =~= before);
    }
    while i < to
        invariant
            from <= i <= to <= v@.len(),
            out@ == before + v@.subrange(from as int, i as int),
        decreases to - i,
    {
        out.push(v[i]);
        proof {
            assert(before + v@.subrange(from as int, i as int + 1) =~= (before + v@.subrange(
                from as int,
                i as int,
            )).push(v@[i as int]));
        }
        i = i + 1;
    }
}

/// Appends the characters of `s` to `out`.
pub fn push_text(out: &mut Vec<char>, s: &str)
    ensures
        final(out)@ == old(out)@ + s@,
{
    let v = chars_of(s);
    push_chars(out, v.as_slice(), 0, v.len());
    proof {
        assert(v@.subrange(0, v@.len() as int) =~= v@);
    }
}

// ---------------------------------------------------------------------------
// Comparing and searching
// ---------------------------------------------------------------------------

/// `p` stands in `s` at position `i`.
pub open spec fn occurs_at(s: Seq<char>, p: Seq<char>, i: int) -> bool {
    &&& 0 <= i
    &&& i + p.len() <= s.len()
    &&& s.subrange(i, i + p.len()) == p
}

/// `p` is a prefix of `s`.
pub open spec fn has_prefix(s: Seq<char>, p: Seq<char>) -> bool {
    occurs_at(s, p, 0)
}

/// `p` is a suffix of `s`.
pub open spec fn has_suffix(s: Seq<char>, p: Seq<char>) -> bool {
    occurs_at(s, p, s.len() - p.len())
}

/// `p` stands somewhere in `s`.
pub open spec fn has_text(s: Seq<char>, p: Seq<char>) -> bool {
    exists|i: int| occurs_at(s, p, i)
}

/// The first position, at or after `from`, at which `p` stands in `s`.
pub open spec fn find_from(s: Seq<char>, p: Seq<char>, from: int) -> Option<int>
    decreases s.len() - from,
{
    if from < 0 || from + p.len() > s.len() {
        None
    } else if occurs_at(s, p, from) {
        Some(from)
    } else if from >= s.len() {
        None
    } else {
        find_from(s, p, from + 1)
    }
}

/// The first position, at or after `from`, of the character `c` in `s`.
pub open spec fn find_char(s: Seq<char>, c: char, from: int) -> Option<int>
    decreases s.len() - from,
{
    if from < 0 || from >= s.len() {
        None
    } else if s[from] == c {
        Some(from)
    } else {
        find_char(s, c, from + 1)
    }
}

/// What [`find_from`] answers: the least position, or that there is none.
pub proof fn lemma_find_from(s: Seq<char>, p: Seq<char>, from: int)
    requires
        0 <= from,
    ensures
        match find_from(s, p, from) {
            Some(i) => from <= i && occurs_at(s, p, i) && forall|j: int|
                from <= j < i ==> !#[trigger] occurs_at(s, p, j),
            None => forall|j: int| from <= j ==> !#[trigger] occurs_at(s, p, j),
        },
    decreases s.len() - from,
{
    if from + p.len() > s.len() {
    } else if occurs_at(s, p, from) {
    } else if from < s.len() {
        lemma_find_from(s, p, from + 1);
    }
}

/// What [`find_char`] answers: the least position, or that there is none.
pub proof fn lemma_find_char(s: Seq<char>, c: char, from: int)
    requires
        0 <= from,
    ensures
        match find_char(s, c, from) {
            Some(i) => from <= i < s.len() && s[i] == c && forall|j: int|
                from <= j < i ==> #[trigger] s[j] != c,
            None => forall|j: int| from <= j < s.len() ==> #[trigger] s[j] != c,
        },
    decreases s.len() - from,
{
    if from < s.len() && s[from] != c {
        lemma_find_char(s, c, from + 1);
    }
}

/// Whether the two strings hold the same characters.
pub fn text_eq(a: &str, b: &str) -> (r: bool)
    ensures
        r == (a@ == b@),
{
    let x = a.as_bytes();
    let y = b.as_bytes();
    proof {
        vstd::utf8::encode_utf8_decode_utf8(a@);
        vstd::utf8::encode_utf8_decode_utf8(b@);
    }
    if x.len() != y.len() {
        return false;
    }
    let mut i: usize = 0;
    while i < x.len()
        invariant
            x@.len() == y@.len(),
            x@ == encode_utf8(a@),
            y@ == encode_utf8(b@),
            i <= x@.len(),
            forall|j: int| 0 <= j < i ==> x@[j] == y@[j],
        decreases x@.len() - i,
    {
        if x[i] != y[i] {
            return false;
        }
        i = i + 1;
    }
    proof {
        assert(x@ =~= y@);
    }
    true
}

/// Whether `p` stands in `s` at `at`.
pub fn occurs(s: &[char], p: &[char], at: usize) -> (r: bool)
    ensures
        r == occurs_at(s@, p@, at as int),
{
    if p.len() > s.len() || at > s.len() - p.len() {
        return false;
    }
    let mut i: usize = 0;
    while i < p.len()
        invariant
            at + p@.len() <= s@.len(),
            s@.len() <= usize::MAX,
            i <= p@.len(),
            forall|j: int| 0 <= j < i ==> s@[at + j] == p@[j],
        decreases p@.len() - i,
    {
        if s[at + i] != p[i] {
            proof {
                assert(s@.subrange(at as int, at + p@.len())[i as int] == s@[at + i]);
            }
            return false;
        }
        i = i + 1;
    }
    proof {
        assert(s@.subrange(at as int, at + p@.len()) =~= p@);
    }
    true
}

/// Whether `s` begins with `p`.
pub fn starts_with(s: &str, p: &str) -> (r: bool)
    ensures
        r == has_prefix(s@, p@),
{
    let a = chars_of(s);
    let b = chars_of(p);
    occurs(a.as_slice(), b.as_slice(), 0)
}

/// Whether `s` ends with `p`.
pub fn ends_with(s: &str, p: &str) -> (r: bool)
    ensures
        r == has_suffix(s@, p@),
{
    let a = chars_of(s);
    let b = chars_of(p);
    if b.len() > a.len() {
        return false;
    }
    occurs(a.as_slice(), b.as_slice(), a.len() - b.len())
}

/// The first position of `p` in `s` at or after `from`.
pub fn find_chars(s: &[char], p: &[char], from: usize) -> (r: Option<usize>)
    ensures
        match r {
            Some(i) => find_from(s@, p@, from as int) == Some(i as int) && i + p@.len() <= s@.len(),
            None => find_from(s@, p@, from as int) is None,
        },
{
    let mut i: usize = from;
    while p.len() <= s.len() && i <= s.len() - p.len()
        invariant
            from <= i,
            from <= s@.len() - p@.len() ==> i <= s@.len() - p@.len() + 1,
            i > from ==> p@.len() <= s@.len(),
            find_from(s@, p@, from as int) == find_from(s@, p@, i as int),
        decreases s@.len() + 1 - i,
    {
        if occurs(s, p, i) {
            return Some(i);
        }
        if i == s.len() {
            return None;
        }
        i = i + 1;
    }
    None
}

/// The first position of `c` in `s` at or after `from`.
pub fn find_in(s: &[char], c: char, from: usize) -> (r: Option<usize>)
    ensures
        match r {
            Some(i) => find_char(s@, c, from as int) == Some(i as int) && from <= i < s@.len(),
            None => find_char(s@, c, from as int) is None,
        },
{
    let mut i: usize = from;
    while i < s.len()
        invariant
            from <= i,
            find_char(s@, c, from as int) == find_char(s@, c, i as int),
        decreases s@.len() - i,
    {
        if s[i] == c {
            return Some(i);
        }
        i = i + 1;
    }
    None
}

/// Whether `p` stands anywhere in `s`.
pub fn contains(s: &str, p: &str) -> (r: bool)
    ensures
        r == has_text(s@, p@),
{
    let a = chars_of(s);
    let b = chars_of(p);
    proof {
        lemma_find_from(s@, p@, 0);
    }
    find_chars(a.as_slice(), b.as_slice(), 0).is_some()
}

// ---------------------------------------------------------------------------
// Rewriting
// ---------------------------------------------------------------------------

/// `s` with `w` before each of its characters and at its end.
pub open spec fn interspersed(s: Seq<char>, w: Seq<char>) -> Seq<char>
    decreases s.len(),
{
    if s.len() == 0 {
        w
    } else {
        interspersed(s.drop_last(), w).push(s.last()) + w
    }
}

/// `s` with every occurrence of `p`, taken from the left without overlap,
/// replaced by `w`. The empty text occurs before each character and at the end.
pub open spec fn replaced(s: Seq<char>, p: Seq<char>, w: Seq<char>) -> Seq<char>
    decreases s.len(),
{
    if p.len() == 0 {
        interspersed(s, w)
    } else {
        match find_from(s, p, 0) {
            Some(i) => if 0 <= i && i + p.len() <= s.len() {
                s.take(i) + w + replaced(s.skip(i + p.len()), p, w)
            } else {
                s
            },
            None => s,
        }
    }
}

/// Searching the tail of a text is searching the text from there on.
pub proof fn lemma_find_from_skip(s: Seq<char>, p: Seq<char>, n: int, from: int)
    requires
        0 <= n <= s.len(),
        0 <= from,
    ensures
        find_from(s.skip(n), p, from) == (match find_from(s, p, n + from) {
            Some(i) => Some(i - n),
            None => None::<int>,
        }),
    decreases s.len() - n - from,
{
    let t = s.skip(n);
    if from + p.len() <= t.len() {
        assert(t.subrange(from, from + p.len()) =~= s.subrange(n + from, n + from + p.len()));
        if !occurs_at(t, p, from) && from < t.len() {
            lemma_find_from_skip(s, p, n, from + 1);
        }
    }
}

/// Searching the tail of a text for a character is searching the text from there on.
pub proof fn lemma_find_char_skip(s: Seq<char>, c: char, n: int, from: int)
    requires
        0 <= n <= s.len(),
        0 <= from,
    ensures
        find_char(s.skip(n), c, from) == (match find_char(s, c, n + from) {
            Some(i) => Some(i - n),
            None => None::<int>,
        }),
    decreases s.len() - n - from,
{
    let t = s.skip(n);
    if from < t.len() && t[from] != c {
        lemma_find_char_skip(s, c, n, from + 1);
    }
}

/// Puts `w` before each character of `s` and at its end.
fn intersperse(s: &[char], w: &[char]) -> (r: Vec<char>)
    ensures
        r@ == interspersed(s@, w@),
{
    let mut out: Vec<char> = Vec::new();
    push_chars(&mut out, w, 0, w.len());
    proof {
        assert(out@ =~= w@);
    }
    let mut i: usize = 0;
    while i < s.len()
        invariant
            i <= s@.len(),
            out@ == interspersed(s@.take(i as int), w@),
        decreases s@.len() - i,
    {
        proof {
            assert(s@.take(i + 1).drop_last() =~= s@.take(i as int));
            assert(w@.subrange(0, w@.len() as int) =~= w@);
        }
        out.push(s[i]);
        push_chars(&mut out, w, 0, w.len());
        i = i + 1;
    }
    proof {
        assert(s@.take(s@.len() as int) =~= s@);
    }
    out
}

/// Replaces every occurrence of `p` in `s` by `w`, from the left without overlap.
pub fn replace_chars(s: &[char], p: &[char], w: &[char]) -> (r: Vec<char>)
    ensures
        r@ == replaced(s@, p@, w@),
{
    if p.len() == 0 {
        return intersperse(s, w);
    }
    let mut out: Vec<char> = Vec::new();
    let mut at: usize = 0;
    proof {
        assert(s@.skip(0) =~= s@);
        assert(out@ + replaced(s@, p@, w@) =~= replaced(s@, p@, w@));
    }
    while at <= s.len()
        invariant
            p@.len() > 0,
            at <= s@.len(),
            replaced(s@, p@, w@) == out@ + replaced(s@.skip(at as int), p@, w@),
        decreases s@.len() + 1 - at,
    {
        proof {
            lemma_find_from_skip(s@, p@, at as int, 0);
            lemma_find_from(s@, p@, at as int);
        }
        match find_chars(s, p, at) {
            Some(i) => {
                let ghost tail = s@.skip(at as int);
                let ghost before = out@;
                push_chars(&mut out, s, at, i);
                push_chars(&mut out, w, 0, w.len());
                proof {
                    assert(w@.subrange(0, w@.len() as int) =~= w@);
                    assert(tail.take(i - at) =~= s@.subrange(at as int, i as int));
                    assert(tail.skip(i - at + p@.len()) =~= s@.skip(i + p@.len()));
                    assert(out@ == before + tail.take(i - at) + w@);
                    assert(before + (tail.take(i - at) + w@ + replaced(
                        s@.skip(i + p@.len()),
                        p@,
                        w@,
                    )) =~= out@ + replaced(s@.skip(i + p@.len()), p@, w@));
                }
                at = i + p.len();
            },
            None => {
                let ghost before = out@;
                push_chars(&mut out, s, at, s.len());
                proof {
                    assert(s@.subrange(at as int, s@.len() as int) =~= s@.skip(at as int));
                }
                return out;
            },
        }
    }
    out
}

/// Replaces every occurrence of `p` in `s` by `w`, from the left without overlap.
pub fn replace(s: &str, p: &str, w: &str) -> (r: String)
    ensures
        r@ == replaced(s@, p@, w@),
{
    let a = chars_of(s);
    let b = chars_of(p);
    let c = chars_of(w);
    let v = replace_chars(a.as_slice(), b.as_slice(), c.as_slice());
    string_of_all(v.as_slice())
}

// ---------------------------------------------------------------------------
// Trimming
// ---------------------------------------------------------------------------

/// `s` without its leading white space.
pub open spec fn trimmed_start(s: Seq<char>) -> Seq<char>
    decreases s.len(),
{
    if s.len() > 0 && unicode_whitespace(s[0]) {
        trimmed_start(s.skip(1))
    } else {
        s
    }
}

/// `s` without its trailing white space.
pub open spec fn trimmed_end(s: Seq<char>) -> Seq<char>
    decreases s.len(),
{
    if s.len() > 0 && unicode_whitespace(s.last()) {
        trimmed_end(s.drop_last())
    } else {
        s
    }
}

/// `s` without white space at either end.
pub open spec fn trimmed(s: Seq<char>) -> Seq<char> {
    trimmed_end(trimmed_start(s))
}

/// `s` with as many copies of `p` as stand at its end taken away.
pub open spec fn without_suffixes(s: Seq<char>, p: Seq<char>) -> Seq<char>
    decreases s.len(),
{
    if p.len() > 0 && has_suffix(s, p) {
        without_suffixes(s.take(s.len() - p.len()), p)
    } else {
        s
    }
}

/// `s` with as many copies of `p` as stand at its beginning taken away.
pub open spec fn without_prefixes(s: Seq<char>, p: Seq<char>) -> Seq<char>
    decreases s.len(),
{
    if p.len() > 0 && has_prefix(s, p) {
        without_prefixes(s.skip(p.len() as int), p)
    } else {
        s
    }
}

/// The end of `v` once trailing white space is left out.
fn end_without_space(v: &[char], from: usize) -> (to: usize)
    requires
        from <= v@.len(),
    ensures
        from <= to <= v@.len(),
        trimmed_end(v@.skip(from as int)) == v@.subrange(from as int, to as int),
{
    let mut to: usize = v.len();
    proof {
        assert(v@.skip(from as int) =~= v@.subrange(from as int, to as int));
    }
    while to > from
        invariant
            from <= to <= v@.len(),
            trimmed_end(v@.skip(from as int)) == trimmed_end(v@.subrange(from as int, to as int)),
        decreases to,
    {
        let c = v[to - 1];
        proof {
            assert(v@.subrange(from as int, to as int).last() == c);
            assert(v@.subrange(from as int, to as int).drop_last() =~= v@.subrange(
                from as int,
                to - 1,
            ));
        }
        if !c.is_whitespace() {
            return to;
        }
        to = to - 1;
    }
    to
}

/// `str::trim`: the text without white space at either end.
pub fn trim(s: &str) -> (r: String)
    ensures
        r@ == trimmed(s@),
{
    let v = chars_of(s);
    let mut from: usize = 0;
    proof {
        assert(v@.skip(0) =~= v@);
    }
    while from < v.len()
        invariant
            from <= v@.len(),
            v@ == s@,
            trimmed_start(s@) == trimmed_start(v@.skip(from as int)),
        ensures
            from <= v@.len(),
            trimmed_start(s@) == v@.skip(from as int),
        decreases v@.len() - from,
    {
        let c = v[from];
        proof {
            assert(v@.skip(from as int)[0] == c);
            assert(v@.skip(from as int).skip(1) =~= v@.skip(from + 1));
        }
        if !c.is_whitespace() {
            break;
        }
        from = from + 1;
    }
    let to = end_without_space(v.as_slice(), from);
    string_of(v.as_slice(), from, to)
}

/// `str::trim_end`: the text without white space at its end.
pub fn trim_end(s: &str) -> (r: String)
    ensures
        r@ == trimmed_end(s@),
{
    let v = chars_of(s);
    let to = end_without_space(v.as_slice(), 0);
    proof {
        assert(v@.skip(0) =~= v@);
    }
    string_of(v.as_slice(), 0, to)
}

/// `str::trim_end_matches` for a non-empty text.
pub fn trim_end_matches(s: &str, p: &str) -> (r: String)
    requires
        p@.len() > 0,
    ensures
        r@ == without_suffixes(s@, p@),
{
    let v = chars_of(s);
    let w = chars_of(p);
    let mut to: usize = v.len();
    proof {
        assert(v@.take(to as int) =~= v@);
    }
    while to >= w.len()
        invariant
            to <= v@.len(),
            v@ == s@,
            w@ == p@,
            w@.len() > 0,
            without_suffixes(s@, p@) == without_suffixes(v@.take(to as int), p@),
        decreases to,
    {
        let at: usize = to - w.len();
        let hit = occurs(v.as_slice(), w.as_slice(), at);
        proof {
            assert(v@.take(to as int).subrange(at as int, to as int) =~= v@.subrange(
                at as int,
                to as int,
            ));
            assert(v@.take(to as int).take(at as int) =~= v@.take(at as int));
        }
        if !hit {
            return string_of(v.as_slice(), 0, to);
        }
        to = at;
    }
    string_of(v.as_slice(), 0, to)
}

/// `str::trim_start_matches` for a non-empty text.
pub fn trim_start_matches(s: &str, p: &str) -> (r: String)
    requires
        p@.len() > 0,
    ensures
        r@ == without_prefixes(s@, p@),
{
    let v = chars_of(s);
    let w = chars_of(p);
    let mut from: usize = 0;
    proof {
        assert(v@.skip(0) =~= v@);
    }
    while from <= v.len()
        invariant
            from <= v@.len(),
            v@ == s@,
            w@ == p@,
            w@.len() > 0,
            without_prefixes(s@, p@) == without_prefixes(v@.skip(from as int), p@),
        decreases v@.len() + 1 - from,
    {
        let hit = occurs(v.as_slice(), w.as_slice(), from);
        proof {
            if from + w@.len() <= v@.len() {
                assert(v@.skip(from as int).subrange(0, w@.len() as int) =~= v@.subrange(
                    from as int,
                    from + w@.len(),
                ));
                assert(v@.skip(from as int).skip(w@.len() as int) =~= v@.skip(from + w@.len()));
            }
        }
        if !hit {
            proof {
                assert(v@.skip(from as int) =~= v@.subrange(from as int, v@.len() as int));
            }
            return string_of(v.as_slice(), from, v.len());
        }
        from = from + w.len();
    }
    String::new()
}

// ---------------------------------------------------------------------------
// Taking apart and putting together
// ---------------------------------------------------------------------------

/// The contents of some strings.
pub open spec fn views(v: Seq<String>) -> Seq<Seq<char>> {
    v.map_values(|s: String| s@)
}

/// The pieces of `s` between the occurrences of `c`.
pub open spec fn split_on(s: Seq<char>, c: char) -> Seq<Seq<char>>
    decreases s.len(),
{
    match find_char(s, c, 0) {
        Some(i) => if 0 <= i < s.len() {
            seq![s.take(i)] + split_on(s.skip(i + 1), c)
        } else {
            seq![s]
        },
        None => seq![s],
    }
}

/// There is a first piece, it is no longer than the whole, and the first two with what parts
/// them are not either.
pub proof fn lemma_split_lengths(s: Seq<char>, c: char)
    ensures
        split_on(s, c).len() >= 1,
        split_on(s, c)[0].len() <= s.len(),
        split_on(s, c).len() > 1 ==> split_on(s, c)[0].len() + 1 + split_on(s, c)[1].len()
            <= s.len(),
    decreases s.len(),
{
    lemma_find_char(s, c, 0);
    if let Some(i) = find_char(s, c, 0) {
        lemma_split_lengths(s.skip(i + 1), c);
    }
}

/// The texts one after another, with `sep` between each two.
pub open spec fn joined(parts: Seq<Seq<char>>, sep: Seq<char>) -> Seq<char>
    decreases parts.len(),
{
    if parts.len() == 0 {
        seq![]
    } else if parts.len() == 1 {
        parts[0]
    } else {
        joined(parts.drop_last(), sep) + sep + parts.last()
    }
}

/// `str::split` at a character.
pub fn split(s: &str, c: char) -> (r: Vec<String>)
    ensures
        views(r@) == split_on(s@, c),
        r@.len() > 0,
{
    let v = chars_of(s);
    let mut out: Vec<String> = Vec::new();
    let mut at: usize = 0;
    proof {
        assert(v@.skip(0) =~= v@);
        assert(views(out@) + split_on(v@, c) =~= split_on(v@, c));
    }
    while at <= v.len()
        invariant
            at <= v@.len(),
            v@ == s@,
            split_on(s@, c) == views(out@) + split_on(v@.skip(at as int), c),
        decreases v@.len() + 1 - at,
    {
        let ghost tail = v@.skip(at as int);
        let ghost before = out@;
        proof {
            lemma_find_char_skip(v@, c, at as int, 0);
            lemma_find_char(v@, c, at as int);
        }
        match find_in(v.as_slice(), c, at) {
            Some(i) => {
                let piece = string_of(v.as_slice(), at, i);
                out.push(piece);
                proof {
                    assert(tail.take(i - at) =~= v@.subrange(at as int, i as int));
                    assert(tail.skip(i - at + 1) =~= v@.skip(i + 1));
                    assert(views(out@) =~= views(before).push(piece@));
                    assert(views(before) + (seq![piece@] + split_on(v@.skip(i + 1), c)) =~= views(
                        out@,
                    ) + split_on(v@.skip(i + 1), c));
                }
                at = i + 1;
            },
            None => {
                let piece = string_of(v.as_slice(), at, v.len());
                out.push(piece);
                proof {
                    assert(v@.subrange(at as int, v@.len() as int) =~= tail);
                    assert(views(out@) =~= views(before) + seq![tail]);
                }
                return out;
            },
        }
    }
    out
}

/// `[String]::join`.
pub fn join(parts: &Vec<String>, sep: &str) -> (r: String)
    ensures
        r@ == joined(views(parts@), sep@),
{
    let mut out: Vec<char> = Vec::new();
    let mut i: usize = 0;
    while i < parts.len()
        invariant
            i <= parts@.len(),
            out@ == joined(views(parts@).take(i as int), sep@),
        decreases parts@.len() - i,
    {
        let ghost w = views(parts@);
        proof {
            assert(w.take(i + 1).drop_last() =~= w.take(i as int));
            assert(w.take(i + 1).last() == parts@[i as int]@);
            assert(Seq::<char>::empty() + parts@[i as int]@ =~= parts@[i as int]@);
        }
        if i > 0 {
            push_text(&mut out, sep);
        }
        push_text(&mut out, parts[i].as_str());
        i = i + 1;
    }
    proof {
        assert(views(parts@).take(parts@.len() as int) =~= views(parts@));
    }
    string_of_all(out.as_slice())
}

/// The first place at or after `i` that is no white space.
pub open spec fn space_end(s: Seq<char>, i: int) -> int
    decreases s.len() - i,
{
    if 0 <= i < s.len() && unicode_whitespace(s[i]) {
        space_end(s, i + 1)
    } else {
        i
    }
}

/// The first place at or after `i` that is white space.
pub open spec fn word_end(s: Seq<char>, i: int) -> int
    decreases s.len() - i,
{
    if 0 <= i < s.len() && !unicode_whitespace(s[i]) {
        word_end(s, i + 1)
    } else {
        i
    }
}

/// The stretches of `s`, from `i` on, that hold no white space.
pub open spec fn words_from(s: Seq<char>, i: int) -> Seq<Seq<char>>
    decreases s.len() - i,
{
    let b = space_end(s, i);
    let e = word_end(s, b);
    if 0 <= i && i <= b < e <= s.len() {
        seq![s.subrange(b, e)] + words_from(s, e)
    } else {
        seq![]
    }
}

/// Where white space ends: not before its beginning, and within the text.
pub proof fn lemma_space_end(s: Seq<char>, i: int)
    requires
        0 <= i <= s.len(),
    ensures
        i <= space_end(s, i) <= s.len(),
        space_end(s, i) < s.len() ==> !unicode_whitespace(s[space_end(s, i)]),
    decreases s.len() - i,
{
    if i < s.len() && unicode_whitespace(s[i]) {
        lemma_space_end(s, i + 1);
    }
}

/// Where a word ends: not before its beginning, and within the text.
pub proof fn lemma_word_end(s: Seq<char>, i: int)
    requires
        0 <= i <= s.len(),
    ensures
        i <= word_end(s, i) <= s.len(),
        i < s.len() && !unicode_whitespace(s[i]) ==> i < word_end(s, i),
    decreases s.len() - i,
{
    if i < s.len() && !unicode_whitespace(s[i]) {
        lemma_word_end(s, i + 1);
    }
}

/// `str::split_whitespace`.
pub fn words(s: &str) -> (r: Vec<String>)
    ensures
        views(r@) == words_from(s@, 0),
{
    let v = chars_of(s);
    let mut out: Vec<String> = Vec::new();
    let mut at: usize = 0;
    proof {
        assert(views(out@) + words_from(s@, 0) =~= words_from(s@, 0));
    }
    while at <= v.len()
        invariant
            at <= v@.len(),
            v@ == s@,
            words_from(s@, 0) == views(out@) + words_from(s@, at as int),
        decreases v@.len() + 1 - at,
    {
        let mut b: usize = at;
        while b < v.len() && v[b].is_whitespace()
            invariant
                at <= b <= v@.len(),
                v@ == s@,
                space_end(s@, at as int) == space_end(s@, b as int),
            decreases v@.len() - b,
        {
            b = b + 1;
        }
        let mut e: usize = b;
        while e < v.len() && !v[e].is_whitespace()
            invariant
                b <= e <= v@.len(),
                v@ == s@,
                word_end(s@, b as int) == word_end(s@, e as int),
            decreases v@.len() - e,
        {
            e = e + 1;
        }
        if e == b {
            proof {
                assert(views(out@) + Seq::<Seq<char>>::empty() =~= views(out@));
            }
            return out;
        }
        let ghost before = out@;
        let word = string_of(v.as_slice(), b, e);
        out.push(word);
        proof {
            assert(views(out@) =~= views(before).push(word@));
            assert(views(before) + (seq![word@] + words_from(s@, e as int)) =~= views(out@)
                + words_from(s@, e as int));
        }
        at = e;
    }
    out
}

// ---------------------------------------------------------------------------
// Numbers
// ---------------------------------------------------------------------------

/// The decimal digit for a value below 10.
pub open spec fn digit_char(d: nat) -> char {
    (48 + d) as char
}

/// The decimal notation of `n`.
pub open spec fn decimal(n: nat) -> Seq<char>
    decreases n,
{
    if n < 10 {
        seq![digit_char(n)]
    } else {
        decimal(n / 10).push(digit_char(n % 10))
    }
}

/// Whether every character is a decimal digit.
pub open spec fn all_digits(s: Seq<char>) -> bool {
    forall|i: int| 0 <= i < s.len() ==> is_digit(#[trigger] s[i])
}

/// The number that decimal digits stand for.
pub open spec fn digits_value(s: Seq<char>) -> nat
    decreases s.len(),
{
    if s.len() == 0 {
        0
    } else {
        digits_value(s.drop_last()) * 10 + (s.last() as int - 48) as nat
    }
}

/// The number that `str::parse::<u64>` reads: digits, after at most one plus sign,
/// of a value that 64 bits hold.
pub open spec fn parsed_u64(s: Seq<char>) -> Option<u64> {
    let d = if s.len() > 0 && s[0] == '+' {
        s.skip(1)
    } else {
        s
    };
    if d.len() > 0 && all_digits(d) && digits_value(d) <= u64::MAX {
        Some(digits_value(d) as u64)
    } else {
        None
    }
}

/// Longer digit strings stand for numbers at least as large as their beginnings do.
proof fn lemma_digits_value_prefix(s: Seq<char>, n: int)
    requires
        0 <= n <= s.len(),
    ensures
        digits_value(s.take(n)) <= digits_value(s),
    decreases s.len(),
{
    if n == s.len() {
        assert(s.take(n) =~= s);
    } else {
        lemma_digits_value_prefix(s.drop_last(), n);
        assert(s.drop_last().take(n) =~= s.take(n));
    }
}

/// The decimal notation of `n`.
pub fn decimal_of(n: u64) -> (r: String)
    ensures
        r@ == decimal(n as nat),
    decreases n,
{
    let digit = ((n % 10) as u8 + 48) as char;
    if n < 10 {
        let mut s = String::new();
        s.push(digit);
        proof {
            assert(s@ =~= seq![digit]);
        }
        s
    } else {
        let mut s = decimal_of(n / 10);
        s.push(digit);
        s
    }
}

/// `str::parse::<u64>`.
pub fn parse_u64(s: &str) -> (r: Option<u64>)
    ensures
        r == parsed_u64(s@),
{
    let v = chars_of(s);
    let mut i: usize = 0;
    if v.len() > 0 && v[0] == '+' {
        i = 1;
    }
    let start: usize = i;
    let ghost d = if start == 1 {
        s@.skip(1)
    } else {
        s@
    };
    proof {
        assert(d =~= v@.skip(start as int));
    }
    if i == v.len() {
        return None;
    }
    let mut value: u64 = 0;
    while i < v.len()
        invariant
            start <= i <= v@.len(),
            v@ == s@,
            d == v@.skip(start as int),
            d == (if s@.len() > 0 && s@[0] == '+' {
                s@.skip(1)
            } else {
                s@
            }),
            all_digits(d.take(i - start)),
            value == digits_value(d.take(i - start)),
        decreases v@.len() - i,
    {
        let c = v[i];
        let ghost k = i - start;
        proof {
            assert(d[k] == c);
            assert(d.take(k + 1).drop_last() =~= d.take(k));
            assert(d.take(k + 1).last() == c);
        }
        if c < '0' || c > '9' {
            proof {
                assert(!is_digit(d[k]));
            }
            return None;
        }
        let digit: u64 = c as u64 - 48;
        proof {
            lemma_digits_value_prefix(d, k + 1);
        }
        match value.checked_mul(10) {
            None => {
                return None;
            },
            Some(tens) => match tens.checked_add(digit) {
                None => {
                    return None;
                },
                Some(sum) => {
                    value = sum;
                },
            },
        }
        proof {
            assert forall|j: int| 0 <= j < d.take(k + 1).len() implies is_digit(
                #[trigger] d.take(k + 1)[j],
            ) by {
                if j < k {
                    assert(d.take(k)[j] == d[j]);
                }
            }
        }
        i = i + 1;
    }
    proof {
        assert(d.take(d.len() as int) =~= d);
    }
    Some(value)
}

// ---------------------------------------------------------------------------
// Concatenation
// ---------------------------------------------------------------------------

/// Two texts, one after the other.
pub fn cat2(a: &str, b: &str) -> (r: String)
    ensures
        r@ == a@ + b@,
{
    let mut s = a.to_string();
    s.append(b);
    s
}

/// Three texts, one after the other.
pub fn cat3(a: &str, b: &str, c: &str) -> (r: String)
    ensures
        r@ == a@ + b@ + c@,
{
    let mut s = a.to_string();
    s.append(b);
    s.append(c);
    s
}

/// Four texts, one after the other.
pub fn cat4(a: &str, b: &str, c: &str, d: &str) -> (r: String)
    ensures
        r@ == a@ + b@ + c@ + d@,
{
    let mut s = a.to_string();
    s.append(b);
    s.append(c);
    s.append(d);
    s
}

/// Five texts, one after the other.
pub fn cat5(a: &str, b: &str, c: &str, d: &str, e: &str) -> (r: String)
    ensures
        r@ == a@ + b@ + c@ + d@ + e@,
{
    let mut s = a.to_string();
    s.append(b);
    s.append(c);
    s.append(d);
    s.append(e);
    s
}

// ---------------------------------------------------------------------------
// Bytes
// ---------------------------------------------------------------------------

/// The number of bytes that a character takes in UTF-8.
pub open spec fn char_width(c: char) -> int {
    if (c as u32) < 0x80 {
        1
    } else if (c as u32) < 0x800 {
        2
    } else if (c as u32) < 0x10000 {
        3
    } else {
        4
    }
}

/// The number of bytes that a text takes in UTF-8.
pub open spec fn byte_len(s: Seq<char>) -> int
    decreases s.len(),
{
    if s.len() == 0 {
        0
    } else {
        char_width(s[0]) + byte_len(s.skip(1))
    }
}

/// The number of bytes that a text takes is the length of its encoding.
pub proof fn lemma_byte_len(s: Seq<char>)
    ensures
        byte_len(s) == encode_utf8(s).len(),
    decreases s.len(),
{
    if s.len() > 0 {
        lemma_byte_len(s.skip(1));
        vstd::utf8::char_is_scalar(s[0]);
        assert(s.skip(1) =~= s.drop_first());
    }
}

/// Texts one after the other take their bytes one after the other.
pub proof fn lemma_byte_len_concat(a: Seq<char>, b: Seq<char>)
    ensures
        byte_len(a + b) == byte_len(a) + byte_len(b),
    decreases a.len(),
{
    if a.len() == 0 {
        assert(a + b =~= b);
    } else {
        lemma_byte_len_concat(a.skip(1), b);
        assert((a + b).skip(1) =~= a.skip(1) + b);
    }
}

/// A text takes at least one byte for each character.
pub proof fn lemma_byte_len_bound(s: Seq<char>)
    ensures
        s.len() <= byte_len(s) <= 4 * s.len(),
    decreases s.len(),
{
    if s.len() > 0 {
        lemma_byte_len_bound(s.skip(1));
    }
}

/// Texts one after the other are encoded one after the other.
pub proof fn lemma_encode_concat(a: Seq<char>, b: Seq<char>)
    ensures
        encode_utf8(a + b) == encode_utf8(a) + encode_utf8(b),
    decreases a.len(),
{
    if a.len() == 0 {
        assert(a + b =~= b);
        assert(encode_utf8(a) + encode_utf8(b) =~= encode_utf8(b));
    } else {
        lemma_encode_concat(a.drop_first(), b);
        assert((a + b).drop_first() =~= a.drop_first() + b);
        assert(encode_utf8(a + b) =~= encode_utf8(a) + encode_utf8(b));
    }
}

/// The number of bytes that a character takes in UTF-8.
pub fn width_of(c: char) -> (r: usize)
    ensures
        r == char_width(c),
{
    let n: u32 = c as u32;
    if n < 0x80 {
        1
    } else if n < 0x800 {
        2
    } else if n < 0x10000 {
        3
    } else {
        4
    }
}

} // verus!
