//! Names of models: one spelling for each, and an order that reads numbers as numbers.

use std::cmp::Ordering;
use vstd::prelude::*;
use vstd::utf8::is_ascii_chars;

use crate::state::DynamicModelInfo;
use crate::state::ModelFacts;
use crate::table;
use crate::table::entries;
use crate::table::entry_of;
use crate::text;
use crate::text::ascii_lowered;
use crate::text::ascii_raised;
use crate::text::chars_of;
use crate::text::find_char;
use crate::text::is_digit;
use crate::text::stretch_end;
use crate::text::stretches_lowered;
use crate::text::string_of;
use crate::text::string_of_all;
use crate::text::unicode_lowercase;

verus! {

// ---------------------------------------------------------------------------
// One spelling
// ---------------------------------------------------------------------------

/// Whether the segment that begins at `from` and ends before the next hyphen, or with the
/// text, is made of digits, at least one.
pub open spec fn digit_segment(s: Seq<char>, from: int) -> bool {
    exists|e: int|
        #![trigger segment_ends(s, e)]
        {
            &&& from < e <= s.len()
            &&& segment_ends(s, e)
            &&& forall|j: int| from <= j < e ==> is_digit(#[trigger] s[j])
        }
}

/// Whether a segment may end before `e`: the text ends there or a hyphen follows.
pub open spec fn segment_ends(s: Seq<char>, e: int) -> bool {
    e == s.len() || (0 <= e < s.len() && s[e] == '-')
}

/// Whether the hyphen at `i` stands for the dot of a version number: between a digit and a
/// segment made of digits.
pub open spec fn version_hyphen(s: Seq<char>, i: int) -> bool {
    0 < i < s.len() && s[i] == '-' && is_digit(s[i - 1]) && digit_segment(s, i + 1)
}

/// A name with the hyphens of its version numbers turned into dots.
pub open spec fn dotted(s: Seq<char>) -> Seq<char> {
    Seq::new(
        s.len(),
        |i: int|
            if version_hyphen(s, i) {
                '.'
            } else {
                s[i]
            },
    )
}

/// Turns hyphens into dots where they stand in a version number.
pub fn normalize_dashed_version(id: &str) -> (r: String)
    ensures
        r@ == dotted(id@),
{
    let v = chars_of(id);
    let mut out: Vec<char> = Vec::new();
    let mut i: usize = 0;
    while i < v.len()
        invariant
            v@ == id@,
            i <= v@.len(),
            out@.len() == i,
            forall|j: int| 0 <= j < i ==> #[trigger] out@[j] == dotted(id@)[j],
        decreases v@.len() - i,
    {
        let mut c = v[i];
        if c == '-' && i > 0 && '0' <= v[i - 1] && v[i - 1] <= '9' {
            let mut e: usize = i + 1;
            while e < v.len() && '0' <= v[e] && v[e] <= '9'
                invariant
                    v@ == id@,
                    i < e <= v@.len(),
                    forall|j: int| i < j < e ==> is_digit(#[trigger] id@[j]),
                decreases v@.len() - e,
            {
                e = e + 1;
            }
            let digits = e > i + 1 && (e == v.len() || v[e] == '-');
            proof {
                if digits {
                    assert(segment_ends(id@, e as int));
                } else if digit_segment(id@, i + 1) {
                    let f = choose|f: int|
                        #![trigger segment_ends(id@, f)]
                        {
                            &&& i + 1 < f <= id@.len()
                            &&& segment_ends(id@, f)
                            &&& forall|j: int| i + 1 <= j < f ==> is_digit(#[trigger] id@[j])
                        };
                    if f < e {
                        assert(is_digit(id@[f]));
                    } else if f > e {
                        assert(is_digit(id@[e as int]));
                    }
                    assert(false);
                }
                assert(digits == version_hyphen(id@, i as int));
            }
            if digits {
                c = '.';
            }
        }
        out.push(c);
        i = i + 1;
    }
    proof {
        assert(out@ =~= dotted(id@));
    }
    string_of_all(out.as_slice())
}

/// What stands behind the first slash, or all of a text without one.
pub open spec fn after_slash(s: Seq<char>) -> Seq<char> {
    match find_char(s, '/', 0) {
        Some(i) => s.skip(i + 1),
        None => s,
    }
}

/// The suffixes of formats and precisions, in the order in which they are taken off.
pub open spec fn format_suffixes() -> Seq<Seq<char>> {
    seq!["-FP8"@, "-TEE"@, "-AWQ"@, "-NVFP4"@, "-GGUF"@, "-GPTQ"@, "-INT8"@, "-INT4"@]
}

/// A name without the first `n` of the suffixes.
pub open spec fn without_formats(s: Seq<char>, suffixes: Seq<Seq<char>>) -> Seq<char>
    decreases suffixes.len(),
{
    if suffixes.len() == 0 {
        s
    } else {
        text::without_suffixes(
            without_formats(s, suffixes.drop_last()),
            suffixes.last(),
        )
    }
}

/// The name under which a model is known: without its organisation and format suffixes, in
/// lower case, with dots in its version.
pub open spec fn standard_name(id: Seq<char>) -> Seq<char> {
    dotted(unicode_lowercase(without_formats(after_slash(id), format_suffixes())))
}

/// What stands behind the first slash.
pub fn strip_organisation(id: &str) -> (r: String)
    ensures
        r@ == after_slash(id@),
{
    let v = chars_of(id);
    proof {
        text::lemma_find_char(id@, '/', 0);
    }
    match text::find_in(v.as_slice(), '/', 0) {
        Some(i) => {
            proof {
                assert(id@.subrange(i + 1, id@.len() as int) =~= id@.skip(i + 1));
            }
            let len: usize = v.len();
            string_of(v.as_slice(), i + 1, len)
        },
        None => string_of_all(v.as_slice()),
    }
}

/// Takes off as many of the given suffixes, each as often as it stands there, in their
/// order.
pub fn strip_formats(name: String, suffixes: &Vec<&'static str>) -> (r: String)
    requires
        forall|i: int| 0 <= i < suffixes@.len() ==> (#[trigger] suffixes@[i])@.len() > 0,
    ensures
        r@ == without_formats(name@, suffixes@.map_values(|s: &'static str| s@)),
{
    let ghost all = suffixes@.map_values(|s: &'static str| s@);
    let ghost start = name@;
    let mut current = name;
    let mut i: usize = 0;
    proof {
        assert(all.take(0).len() == 0);
    }
    while i < suffixes.len()
        invariant
            i <= suffixes@.len(),
            all == suffixes@.map_values(|s: &'static str| s@),
            forall|k: int| 0 <= k < suffixes@.len() ==> (#[trigger] suffixes@[k])@.len() > 0,
            current@ == without_formats(start, all.take(i as int)),
        decreases suffixes@.len() - i,
    {
        proof {
            assert(all.take(i + 1).drop_last() =~= all.take(i as int));
            assert(all.take(i + 1).last() == suffixes@[i as int]@);
        }
        current = text::trim_end_matches(current.as_str(), suffixes[i]);
        i = i + 1;
    }
    proof {
        assert(all.take(all.len() as int) =~= all);
    }
    current
}

/// The name under which a model is known.
pub fn standardize_model_name(id: &str) -> (r: String)
    ensures
        r@ == standard_name(id@),
{
    let suffixes: Vec<&'static str> = vec![
        "-FP8",
        "-TEE",
        "-AWQ",
        "-NVFP4",
        "-GGUF",
        "-GPTQ",
        "-INT8",
        "-INT4",
    ];
    proof {
        reveal_strlit("-FP8");
        reveal_strlit("-TEE");
        reveal_strlit("-AWQ");
        reveal_strlit("-NVFP4");
        reveal_strlit("-GGUF");
        reveal_strlit("-GPTQ");
        reveal_strlit("-INT8");
        reveal_strlit("-INT4");
        assert(suffixes@.map_values(|s: &'static str| s@) =~= format_suffixes());
    }
    let name = strip_formats(strip_organisation(id), &suffixes);
    let lower = name.as_str().to_lowercase();
    normalize_dashed_version(lower.as_str())
}

/// A name whose version is spelled with dots stays as it is.
pub proof fn law_dotting_twice_is_dotting_once(s: Seq<char>)
    ensures
        dotted(dotted(s)) == dotted(s),
{
    let r = dotted(s);
    assert forall|i: int| 0 <= i < r.len() implies !version_hyphen(r, i) by {
        if version_hyphen(r, i) {
            let e = choose|e: int|
                #![trigger segment_ends(r, e)]
                {
                    &&& i + 1 < e <= r.len()
                    &&& segment_ends(r, e)
                    &&& forall|j: int| i + 1 <= j < e ==> is_digit(#[trigger] r[j])
                };
            assert forall|j: int| i + 1 <= j < e implies is_digit(#[trigger] s[j]) by {
                assert(is_digit(r[j]));
            }
            assert(segment_ends(s, e));
            assert(is_digit(r[i - 1]));
            assert(version_hyphen(s, i));
        }
    }
    assert(dotted(r) =~= r);
}

// ---------------------------------------------------------------------------
// An order that reads numbers as numbers
// ---------------------------------------------------------------------------

/// A stretch of a name: a number, or text in lower case.
pub enum SortChunk {
    Num(u64),
    Text(String),
}

/// A stretch of a name.
pub enum NamePart {
    Num(u64),
    Text(Seq<char>),
}

/// The stretches of a name from `i` on. A number that 64 bits do not hold is left out.
pub open spec fn name_parts(s: Seq<char>, i: int) -> Seq<NamePart>
    decreases s.len() - i,
{
    if i < 0 || i >= s.len() {
        seq![]
    } else {
        let digits = is_digit(s[i]);
        let e = stretch_end(s, i + 1, digits);
        if e <= i || e > s.len() {
            seq![]
        } else {
            let piece = s.subrange(i, e);
            let rest = name_parts(s, e);
            if !digits {
                seq![NamePart::Text(unicode_lowercase(piece))] + rest
            } else if text::digits_value(piece) <= u64::MAX {
                seq![NamePart::Num(text::digits_value(piece) as u64)] + rest
            } else {
                rest
            }
        }
    }
}

/// The stretches of a text from `i` on, its characters as they are.
pub open spec fn plain_parts(s: Seq<char>, i: int) -> Seq<NamePart>
    decreases s.len() - i,
{
    if i < 0 || i >= s.len() {
        seq![]
    } else {
        let digits = is_digit(s[i]);
        let e = stretch_end(s, i + 1, digits);
        if e <= i || e > s.len() {
            seq![]
        } else {
            let piece = s.subrange(i, e);
            let rest = plain_parts(s, e);
            if !digits {
                seq![NamePart::Text(piece)] + rest
            } else if text::digits_value(piece) <= u64::MAX {
                seq![NamePart::Num(text::digits_value(piece) as u64)] + rest
            } else {
                rest
            }
        }
    }
}

pub proof fn lemma_stretch_runs(s: Seq<char>, i: int, n: int, digits: bool)
    requires
        0 <= i <= n <= s.len(),
        forall|j: int| i <= j < n ==> is_digit(#[trigger] s[j]) == digits,
        n < s.len() ==> is_digit(s[n]) != digits,
    ensures
        stretch_end(s, i, digits) == n,
    decreases n - i,
{
    if i < n {
        lemma_stretch_runs(s, i + 1, n, digits);
    }
}

/// The stretches of a name are those of the whole name in lower case.
proof fn lemma_parts_of_lowered(s: Seq<char>, i: int, lower: Seq<char>, k: int)
    requires
        0 <= i,
        0 <= k,
        stretches_lowered(s, i, lower, k),
    ensures
        name_parts(s, i) == plain_parts(lower, k),
    decreases s.len() - i,
{
    if i < s.len() {
        let digits = is_digit(s[i]);
        let e = stretch_end(s, i + 1, digits);
        let piece = if digits {
            s.subrange(i, e)
        } else {
            unicode_lowercase(s.subrange(i, e))
        };
        let n = k + piece.len();
        reveal_with_fuel(stretches_lowered, 2);
        lemma_stretch_end(s, i + 1, digits);
        lemma_stretch_runs(lower, k + 1, n, digits);
        lemma_parts_of_lowered(s, e, lower, n);
    }
}

/// How two texts compare, character by character: negative, zero or positive.
pub open spec fn text_order(a: Seq<char>, b: Seq<char>, i: int) -> int
    decreases a.len() - i,
{
    if i >= a.len() || i >= b.len() {
        if a.len() < b.len() {
            -1
        } else if a.len() > b.len() {
            1
        } else {
            0
        }
    } else if a[i] < b[i] {
        -1
    } else if a[i] > b[i] {
        1
    } else {
        text_order(a, b, i + 1)
    }
}

/// How two stretches compare: numbers come before text.
pub open spec fn part_order(a: NamePart, b: NamePart) -> int {
    match (a, b) {
        (NamePart::Num(x), NamePart::Num(y)) => if x < y {
            -1
        } else if x > y {
            1
        } else {
            0
        },
        (NamePart::Text(x), NamePart::Text(y)) => text_order(x, y, 0),
        (NamePart::Text(_), NamePart::Num(_)) => 1,
        (NamePart::Num(_), NamePart::Text(_)) => -1,
    }
}

/// How two lists of stretches compare from place `i` on.
pub open spec fn parts_order(a: Seq<NamePart>, b: Seq<NamePart>, i: int) -> int
    decreases a.len() - i,
{
    if i >= a.len() || i >= b.len() {
        if a.len() < b.len() {
            -1
        } else if a.len() > b.len() {
            1
        } else {
            0
        }
    } else {
        let c = part_order(a[i], b[i]);
        if c != 0 {
            c
        } else {
            parts_order(a, b, i + 1)
        }
    }
}

/// How two names compare: negative, zero or positive.
pub open spec fn name_order(a: Seq<char>, b: Seq<char>) -> int {
    parts_order(name_parts(a, 0), name_parts(b, 0), 0)
}

/// The stretches that some chunks stand for.
pub open spec fn parts_of(chunks: Seq<SortChunk>) -> Seq<NamePart> {
    chunks.map_values(
        |c: SortChunk|
            match c {
                SortChunk::Num(n) => NamePart::Num(n),
                SortChunk::Text(t) => NamePart::Text(t@),
            },
    )
}

proof fn lemma_stretch_end(s: Seq<char>, i: int, digits: bool)
    requires
        0 <= i <= s.len(),
    ensures
        i <= stretch_end(s, i, digits) <= s.len(),
        forall|j: int| i <= j < stretch_end(s, i, digits) ==> is_digit(#[trigger] s[j]) == digits,
        stretch_end(s, i, digits) < s.len() ==> is_digit(s[stretch_end(s, i, digits)]) != digits,
    decreases s.len() - i,
{
    if i < s.len() && is_digit(s[i]) == digits {
        lemma_stretch_end(s, i + 1, digits);
    }
}

/// Takes a name apart, which is lowered first: its stretches are the same.
pub fn parse_sort_chunks(s: &str) -> (r: Vec<SortChunk>)
    ensures
        parts_of(r@) == name_parts(s@, 0),
        parts_of(r@) == plain_parts(unicode_lowercase(s@), 0),
        parts_of(r@) == plain_parts(unicode_lowercase(ascii_lowered(s@)), 0),
        is_ascii_chars(s@) ==> parts_of(r@) == plain_parts(ascii_lowered(s@), 0),
{
    let lower = s.to_lowercase();
    let v = chars_of(lower.as_str());
    let ghost t = lower@;
    let mut chunks: Vec<SortChunk> = Vec::new();
    let mut i: usize = 0;
    proof {
        lemma_parts_of_lowered(s@, 0, t, 0);
        assert(parts_of(chunks@) + plain_parts(t, 0) =~= plain_parts(t, 0));
    }
    while i < v.len()
        invariant
            v@ == t,
            i <= v@.len(),
            plain_parts(t, 0) == parts_of(chunks@) + plain_parts(t, i as int),
        decreases v@.len() - i,
    {
        let digits = '0' <= v[i] && v[i] <= '9';
        let mut e: usize = i + 1;
        while e < v.len() && ('0' <= v[e] && v[e] <= '9') == digits
            invariant
                v@ == t,
                i < e <= v@.len(),
                stretch_end(t, i + 1, digits) == stretch_end(t, e as int, digits),
            decreases v@.len() - e,
        {
            e = e + 1;
        }
        let piece = string_of(v.as_slice(), i, e);
        let ghost before = chunks@;
        let ghost rest = plain_parts(t, e as int);
        proof {
            lemma_stretch_end(t, i + 1, digits);
            assert(parts_of(before) + Seq::<NamePart>::empty() + rest =~= parts_of(before) + rest);
        }
        if digits {
            proof {
                assert forall|j: int| 0 <= j < piece@.len() implies is_digit(#[trigger] piece@[j]) by {
                    assert(piece@[j] == t[i + j]);
                }
                assert(piece@[0] != '+');
            }
            if let Some(n) = text::parse_u64(piece.as_str()) {
                chunks.push(SortChunk::Num(n));
                proof {
                    assert(parts_of(chunks@) =~= parts_of(before).push(NamePart::Num(n)));
                    assert(parts_of(before) + (seq![NamePart::Num(n)] + rest) =~= parts_of(chunks@)
                        + rest);
                }
            }
        } else {
            let ghost shown = piece@;
            chunks.push(SortChunk::Text(piece));
            proof {
                assert(parts_of(chunks@) =~= parts_of(before).push(NamePart::Text(shown)));
                assert(parts_of(before) + (seq![NamePart::Text(shown)] + rest) =~= parts_of(chunks@)
                    + rest);
            }
        }
        i = e;
    }
    proof {
        assert(parts_of(chunks@) + Seq::<NamePart>::empty() =~= parts_of(chunks@));
    }
    chunks
}

/// How two texts compare: negative, zero or positive.
pub fn compare_texts(a: &str, b: &str) -> (r: i8)
    ensures
        r == text_order(a@, b@, 0),
{
    let x = chars_of(a);
    let y = chars_of(b);
    let mut i: usize = 0;
    while i < x.len() && i < y.len()
        invariant
            x@ == a@,
            y@ == b@,
            i <= x@.len(),
            i <= y@.len(),
            text_order(a@, b@, 0) == text_order(a@, b@, i as int),
        decreases x@.len() - i,
    {
        if x[i] < y[i] {
            return -1;
        }
        if x[i] > y[i] {
            return 1;
        }
        i = i + 1;
    }
    if x.len() < y.len() {
        -1
    } else if x.len() > y.len() {
        1
    } else {
        0
    }
}

/// How two lists of stretches compare: negative, zero or positive.
pub fn compare_chunks(a: &Vec<SortChunk>, b: &Vec<SortChunk>) -> (r: i8)
    ensures
        r == parts_order(parts_of(a@), parts_of(b@), 0),
{
    let ghost x = parts_of(a@);
    let ghost y = parts_of(b@);
    let mut i: usize = 0;
    while i < a.len() && i < b.len()
        invariant
            x == parts_of(a@),
            y == parts_of(b@),
            i <= a@.len(),
            i <= b@.len(),
            parts_order(x, y, 0) == parts_order(x, y, i as int),
        decreases a@.len() - i,
    {
        let c: i8 = match (&a[i], &b[i]) {
            (SortChunk::Num(m), SortChunk::Num(n)) => if *m < *n {
                -1
            } else if *m > *n {
                1
            } else {
                0
            },
            (SortChunk::Text(s), SortChunk::Text(t)) => compare_texts(s.as_str(), t.as_str()),
            (SortChunk::Text(_), SortChunk::Num(_)) => 1,
            (SortChunk::Num(_), SortChunk::Text(_)) => -1,
        };
        if c != 0 {
            return c;
        }
        i = i + 1;
    }
    if a.len() < b.len() {
        -1
    } else if a.len() > b.len() {
        1
    } else {
        0
    }
}

/// How two names compare. Their case does not count: names with the same lowercase are
/// equal, and so are names that differ only in the case of ASCII letters.
pub fn compare_model_names(a: &str, b: &str) -> (r: Ordering)
    ensures
        unicode_lowercase(a@) == unicode_lowercase(b@) ==> r == Ordering::Equal,
        ascii_lowered(a@) == ascii_lowered(b@) ==> r == Ordering::Equal,
        b@ == ascii_raised(a@) ==> r == Ordering::Equal,
        r == (if name_order(a@, b@) < 0 {
            Ordering::Less
        } else if name_order(a@, b@) > 0 {
            Ordering::Greater
        } else {
            Ordering::Equal
        }),
{
    let x = parse_sort_chunks(a);
    let y = parse_sort_chunks(b);
    let c: i8 = compare_chunks(&x, &y);
    proof {
        text::lemma_raised_lowers_alike(a@);
        lemma_parts_order(parts_of(x@), parts_of(x@), parts_of(x@), 0);
    }
    if c < 0 {
        Ordering::Less
    } else if c > 0 {
        Ordering::Greater
    } else {
        Ordering::Equal
    }
}

/// Texts compare the other way round when they change places, equal only where they are
/// the same, and "not greater" carries over.
pub proof fn lemma_text_order(a: Seq<char>, b: Seq<char>, c: Seq<char>, i: int)
    requires
        0 <= i,
    ensures
        -1 <= text_order(a, b, i) <= 1,
        text_order(a, b, i) == -text_order(b, a, i),
        text_order(a, a, i) == 0,
        text_order(a, b, i) <= 0 && text_order(b, c, i) <= 0 ==> text_order(a, c, i) <= 0,
        text_order(a, b, i) <= 0 && text_order(b, c, i) < 0 ==> text_order(a, c, i) < 0,
        text_order(a, b, i) < 0 && text_order(b, c, i) <= 0 ==> text_order(a, c, i) < 0,
    decreases a.len() + b.len() + c.len() - i,
{
    if i < a.len() || i < b.len() || i < c.len() {
        lemma_text_order(a, b, c, i + 1);
    }
}

proof fn lemma_part_order(a: NamePart, b: NamePart, c: NamePart)
    ensures
        -1 <= part_order(a, b) <= 1,
        part_order(a, b) == -part_order(b, a),
        part_order(a, a) == 0,
        part_order(a, b) <= 0 && part_order(b, c) <= 0 ==> part_order(a, c) <= 0,
        part_order(a, b) <= 0 && part_order(b, c) < 0 ==> part_order(a, c) < 0,
        part_order(a, b) < 0 && part_order(b, c) <= 0 ==> part_order(a, c) < 0,
{
    match (a, b, c) {
        (NamePart::Text(x), NamePart::Text(y), NamePart::Text(z)) => {
            lemma_text_order(x, y, z, 0);
        },
        (NamePart::Text(x), NamePart::Text(y), _) => {
            lemma_text_order(x, y, y, 0);
        },
        (NamePart::Text(x), _, NamePart::Text(z)) => {
            lemma_text_order(x, z, z, 0);
            lemma_text_order(x, x, x, 0);
        },
        (_, NamePart::Text(y), NamePart::Text(z)) => {
            lemma_text_order(y, z, z, 0);
        },
        (NamePart::Text(x), _, _) => {
            lemma_text_order(x, x, x, 0);
        },
        _ => {},
    }
}

proof fn lemma_parts_order(a: Seq<NamePart>, b: Seq<NamePart>, c: Seq<NamePart>, i: int)
    requires
        0 <= i,
    ensures
        -1 <= parts_order(a, b, i) <= 1,
        parts_order(a, b, i) == -parts_order(b, a, i),
        parts_order(a, a, i) == 0,
        parts_order(a, b, i) <= 0 && parts_order(b, c, i) <= 0 ==> parts_order(a, c, i) <= 0,
        parts_order(a, b, i) <= 0 && parts_order(b, c, i) < 0 ==> parts_order(a, c, i) < 0,
        parts_order(a, b, i) < 0 && parts_order(b, c, i) <= 0 ==> parts_order(a, c, i) < 0,
    decreases a.len() + b.len() + c.len() - i,
{
    if i < a.len() || i < b.len() || i < c.len() {
        lemma_parts_order(a, b, c, i + 1);
        lemma_part_order(a[i], b[i], c[i]);
        lemma_part_order(b[i], a[i], a[i]);
    }
}

/// Comparing names is consistent: a name equals itself, changing places turns the result
/// round, and "not greater" carries over from one name to the next.
pub proof fn law_names_are_ordered(a: Seq<char>, b: Seq<char>, c: Seq<char>)
    ensures
        name_order(a, a) == 0,
        name_order(a, b) == -name_order(b, a),
        name_order(a, b) <= 0 && name_order(b, c) <= 0 ==> name_order(a, c) <= 0,
        -1 <= name_order(a, b) <= 1,
{
    lemma_parts_order(name_parts(a, 0), name_parts(b, 0), name_parts(c, 0), 0);
}

// ---------------------------------------------------------------------------
// What a provider says of a model
// ---------------------------------------------------------------------------

/// What a provider says of a model that is asked for, or that it says nothing.
pub open spec fn model_info(
    models: Seq<(Seq<char>, ModelFacts)>,
    name: Seq<char>,
) -> Result<ModelFacts, Seq<char>> {
    match entry_of(models, name) {
        Some(facts) => Ok(facts),
        None => Err("Model "@ + name + " not dynamically configured"@),
    }
}

/// What a provider says of a model that is asked for.
pub fn get_dynamic_model_info(
    models: &Vec<(String, DynamicModelInfo)>,
    frontend_requested_model: &str,
) -> (r: Result<DynamicModelInfo, String>)
    ensures
        match r {
            Ok(info) => model_info(entries(models@), frontend_requested_model@) == Ok::<
                ModelFacts,
                Seq<char>,
            >(info.deep_view()),
            Err(e) => model_info(entries(models@), frontend_requested_model@) == Err::<
                ModelFacts,
                Seq<char>,
            >(e@),
        },
{
    match table::lookup(models, frontend_requested_model) {
        Some(info) => Ok(info.copy()),
        None => Err(text::cat3("Model ", frontend_requested_model, " not dynamically configured")),
    }
}

} // verus!
