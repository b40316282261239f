//! What holds of the one spelling of a model's name.

use vstd::prelude::*;

use crate::catalog::enclave_formats;
use crate::catalog::enclave_name;
use crate::models::after_slash;
use crate::models::dotted;
use crate::models::format_suffixes;
use crate::models::segment_ends;
use crate::models::standard_name;
use crate::models::version_hyphen;
use crate::models::without_formats;
use crate::text::find_char;
use crate::text::lemma_find_char;
use crate::text::unicode_lowercase;
use crate::text::without_suffixes;

verus! {

/// Whether a text ends in another.
pub open spec fn ends_in(s: Seq<char>, end: Seq<char>) -> bool {
    exists|head: Seq<char>| s == #[trigger] (head + end)
}

/// Whether a text is one of the endings that tell a format or a precision.
pub open spec fn is_format(x: Seq<char>) -> bool {
    ||| x == "-FP8"@
    ||| x == "-TEE"@
    ||| x == "-AWQ"@
    ||| x == "-NVFP4"@
    ||| x == "-GGUF"@
    ||| x == "-GPTQ"@
    ||| x == "-INT8"@
    ||| x == "-INT4"@
}

/// Whether a name ends in no format.
pub open spec fn is_bare(n: Seq<char>) -> bool {
    forall|x: Seq<char>| is_format(x) ==> !#[trigger] ends_in(n, x)
}

proof fn lemma_formats(x: Seq<char>, y: Seq<char>)
    requires
        is_format(x),
        is_format(y),
    ensures
        x.len() >= 4,
        forall|i: int| 0 <= i < x.len() ==> x[i] != '/',
        x != y ==> x[x.len() - 1] != y[y.len() - 1] || x[x.len() - 2] != y[y.len() - 2],
{
    reveal_strlit("-FP8");
    reveal_strlit("-TEE");
    reveal_strlit("-AWQ");
    reveal_strlit("-NVFP4");
    reveal_strlit("-GGUF");
    reveal_strlit("-GPTQ");
    reveal_strlit("-INT8");
    reveal_strlit("-INT4");
}

proof fn lemma_takes_off(n: Seq<char>, x: Seq<char>)
    requires
        x.len() > 0,
    ensures
        without_suffixes(n + x, x) == without_suffixes(n, x),
        !ends_in(n, x) ==> without_suffixes(n, x) == n,
{
    let s = n + x;
    assert(s.subrange(s.len() - x.len(), s.len() as int) =~= x);
    assert(s.take(s.len() - x.len()) =~= n);
    reveal_with_fuel(without_suffixes, 2);
    if without_suffixes(n, x) != n {
        assert(n =~= n.take(n.len() - x.len()) + x);
        assert(ends_in(n, x));
    }
}

/// The suffixes are taken off one list of eight after the other.
proof fn lemma_eight(s: Seq<char>)
    ensures
        without_formats(s, format_suffixes()) == without_suffixes(
            without_suffixes(
                without_suffixes(
                    without_suffixes(
                        without_suffixes(
                            without_suffixes(
                                without_suffixes(without_suffixes(s, "-FP8"@), "-TEE"@),
                                "-AWQ"@,
                            ),
                            "-NVFP4"@,
                        ),
                        "-GGUF"@,
                    ),
                    "-GPTQ"@,
                ),
                "-INT8"@,
            ),
            "-INT4"@,
        ),
{
    let all = format_suffixes();
    reveal_with_fuel(without_formats, 9);
    assert(all.drop_last() =~= seq![
        "-FP8"@,
        "-TEE"@,
        "-AWQ"@,
        "-NVFP4"@,
        "-GGUF"@,
        "-GPTQ"@,
        "-INT8"@,
    ]);
    assert(all.drop_last().drop_last() =~= seq![
        "-FP8"@,
        "-TEE"@,
        "-AWQ"@,
        "-NVFP4"@,
        "-GGUF"@,
        "-GPTQ"@,
    ]);
    assert(all.drop_last().drop_last().drop_last() =~= seq![
        "-FP8"@,
        "-TEE"@,
        "-AWQ"@,
        "-NVFP4"@,
        "-GGUF"@,
    ]);
    let four = seq!["-FP8"@, "-TEE"@, "-AWQ"@, "-NVFP4"@];
    assert(all.drop_last().drop_last().drop_last().drop_last() =~= four);
    assert(four.drop_last() =~= seq!["-FP8"@, "-TEE"@, "-AWQ"@]);
    assert(four.drop_last().drop_last() =~= seq!["-FP8"@, "-TEE"@]);
    assert(four.drop_last().drop_last().drop_last() =~= seq!["-FP8"@]);
    assert(four.drop_last().drop_last().drop_last().drop_last() =~= Seq::<Seq<char>>::empty());
}

/// One step of taking suffixes off: a bare name stays, and a bare name with one format keeps
/// it unless it is the one that is taken off.
proof fn lemma_step(n: Seq<char>, x: Seq<char>, y: Seq<char>)
    requires
        is_bare(n),
        is_format(x),
        is_format(y),
    ensures
        without_suffixes(n, x) == n,
        without_suffixes(n + y, x) == (if x == y {
            n
        } else {
            n + y
        }),
{
    lemma_formats(x, y);
    lemma_formats(y, x);
    assert(!ends_in(n, x));
    lemma_takes_off(n, x);
    if x != y {
        if ends_in(n + y, x) {
            let head = choose|head: Seq<char>| n + y == #[trigger] (head + x);
            let s = n + y;
            assert(s[s.len() - 1] == y[y.len() - 1]);
            assert(s[s.len() - 2] == y[y.len() - 2]);
            assert(s[s.len() - 1] == x[x.len() - 1]);
            assert(s[s.len() - 2] == x[x.len() - 2]);
        }
        lemma_takes_off(n + y, x);
    }
}

proof fn lemma_bare(n: Seq<char>, y: Seq<char>)
    requires
        is_bare(n),
        is_format(y),
    ensures
        without_formats(n, format_suffixes()) == n,
        without_formats(n + y, format_suffixes()) == n,
{
    lemma_eight(n);
    lemma_eight(n + y);
    lemma_step(n, "-FP8"@, y);
    lemma_step(n, "-TEE"@, y);
    lemma_step(n, "-AWQ"@, y);
    lemma_step(n, "-NVFP4"@, y);
    lemma_step(n, "-GGUF"@, y);
    lemma_step(n, "-GPTQ"@, y);
    lemma_step(n, "-INT8"@, y);
    lemma_step(n, "-INT4"@, y);
}

/// Whether a text holds a slash.
pub open spec fn has_slash(s: Seq<char>) -> bool {
    s.contains('/')
}

proof fn lemma_slash(s: Seq<char>, t: Seq<char>)
    requires
        !has_slash(t),
    ensures
        after_slash(s + t) == after_slash(s) + t,
        !has_slash(s) ==> after_slash(s) == s,
        exists|head: Seq<char>| s == #[trigger] (head + after_slash(s)),
{
    lemma_find_char(s, '/', 0);
    lemma_find_char(s + t, '/', 0);
    let u = s + t;
    assert forall|i: int| 0 <= i < s.len() implies u[i] == s[i] by {}
    assert forall|i: int| s.len() <= i < u.len() implies u[i] != '/' by {
        assert(u[i] == t[i - s.len()]);
        assert(t.contains(t[i - s.len()]));
    }
    match find_char(s, '/', 0) {
        Some(i) => {
            assert(u[i] == '/');
            match find_char(u, '/', 0) {
                Some(j) => {
                    if j < i {
                        assert(s[j] == '/');
                    }
                    assert(j == i);
                },
                None => {},
            }
            assert(u.skip(i + 1) =~= s.skip(i + 1) + t);
            assert(s =~= s.take(i + 1) + s.skip(i + 1));
            assert(s.contains(s[i]));
        },
        None => {
            match find_char(u, '/', 0) {
                Some(j) => {
                    if j < s.len() {
                        assert(s[j] == '/');
                    }
                },
                None => {},
            }
            assert(s =~= Seq::<char>::empty() + s);
        },
    }
}

/// The place of a format in the order in which formats are taken off.
pub open spec fn format_rank(x: Seq<char>) -> int {
    if x == "-FP8"@ {
        0
    } else if x == "-TEE"@ {
        1
    } else if x == "-AWQ"@ {
        2
    } else if x == "-NVFP4"@ {
        3
    } else if x == "-GGUF"@ {
        4
    } else if x == "-GPTQ"@ {
        5
    } else if x == "-INT8"@ {
        6
    } else {
        7
    }
}

/// Whether a name ends in no format that is taken off before another.
pub open spec fn is_bare_of_earlier(n: Seq<char>, y: Seq<char>) -> bool {
    forall|x: Seq<char>|
        is_format(x) && format_rank(x) < format_rank(y) ==> !#[trigger] ends_in(n, x)
}

proof fn lemma_ranks()
    ensures
        format_rank("-FP8"@) == 0,
        format_rank("-TEE"@) == 1,
        format_rank("-AWQ"@) == 2,
        format_rank("-NVFP4"@) == 3,
        format_rank("-GGUF"@) == 4,
        format_rank("-GPTQ"@) == 5,
        format_rank("-INT8"@) == 6,
        format_rank("-INT4"@) == 7,
{
    reveal_strlit("-FP8");
    reveal_strlit("-TEE");
    reveal_strlit("-AWQ");
    reveal_strlit("-NVFP4");
    reveal_strlit("-GGUF");
    reveal_strlit("-GPTQ");
    reveal_strlit("-INT8");
    reveal_strlit("-INT4");
    assert("-FP8"@[1] == 'F' && "-TEE"@[1] == 'T' && "-AWQ"@[1] == 'A');
    assert("-FP8"@.len() == 4 && "-TEE"@.len() == 4 && "-AWQ"@.len() == 4 && "-NVFP4"@.len() == 6);
    assert("-GGUF"@[2] == 'G' && "-GPTQ"@[2] == 'P' && "-INT8"@[2] == 'N' && "-INT4"@[2] == 'N');
    assert("-GGUF"@.len() == 5 && "-GPTQ"@.len() == 5 && "-INT8"@.len() == 5 && "-INT4"@.len() == 5);
    assert("-INT8"@[4] == '8' && "-INT4"@[4] == '4');
}

/// One step of taking suffixes off: a name that does not end in the format stays, with any
/// other format behind it or not.
proof fn lemma_keeps(n: Seq<char>, x: Seq<char>, y: Seq<char>)
    requires
        is_format(x),
        is_format(y),
        x != y,
        !ends_in(n, x),
    ensures
        without_suffixes(n, x) == n,
        without_suffixes(n + y, x) == n + y,
{
    lemma_formats(x, y);
    lemma_formats(y, x);
    lemma_takes_off(n, x);
    if ends_in(n + y, x) {
        let head = choose|head: Seq<char>| n + y == #[trigger] (head + x);
        let s = n + y;
        assert(s[s.len() - 1] == y[y.len() - 1]);
        assert(s[s.len() - 2] == y[y.len() - 2]);
        assert(s[s.len() - 1] == x[x.len() - 1]);
        assert(s[s.len() - 2] == x[x.len() - 2]);
    }
    lemma_takes_off(n + y, x);
}

/// One step of taking suffixes off, for a format that is taken off before `y`.
proof fn lemma_earlier(n: Seq<char>, x: Seq<char>, y: Seq<char>)
    requires
        is_format(x),
        is_format(y),
        is_bare_of_earlier(n, y),
    ensures
        format_rank(x) < format_rank(y) ==> without_suffixes(n, x) == n && without_suffixes(
            n + y,
            x,
        ) == n + y,
        x == y ==> without_suffixes(n + y, x) == without_suffixes(n, x),
{
    lemma_formats(x, y);
    if format_rank(x) < format_rank(y) {
        assert(!ends_in(n, x));
        lemma_keeps(n, x, y);
    }
    if x == y {
        lemma_takes_off(n, x);
    }
}

proof fn lemma_one_format(n: Seq<char>, y: Seq<char>)
    requires
        is_format(y),
        is_bare_of_earlier(n, y),
    ensures
        without_formats(n + y, format_suffixes()) == without_formats(n, format_suffixes()),
{
    lemma_ranks();
    lemma_eight(n);
    lemma_eight(n + y);
    lemma_earlier(n, "-FP8"@, y);
    lemma_earlier(n, "-TEE"@, y);
    lemma_earlier(n, "-AWQ"@, y);
    lemma_earlier(n, "-NVFP4"@, y);
    lemma_earlier(n, "-GGUF"@, y);
    lemma_earlier(n, "-GPTQ"@, y);
    lemma_earlier(n, "-INT8"@, y);
    lemma_earlier(n, "-INT4"@, y);
}

proof fn lemma_own_is_bare(n: Seq<char>, y: Seq<char>)
    requires
        is_bare_of_earlier(n, y),
    ensures
        is_bare_of_earlier(after_slash(n), y),
{
    lemma_slash(n, seq![]);
    let own = after_slash(n);
    assert forall|x: Seq<char>|
        is_format(x) && format_rank(x) < format_rank(y) implies !#[trigger] ends_in(own, x) by {
        if ends_in(own, x) {
            let head = choose|head: Seq<char>| own == #[trigger] (head + x);
            let front = choose|front: Seq<char>| n == #[trigger] (front + own);
            assert(n =~= (front + head) + x);
            assert(ends_in(n, x));
        }
    }
}

proof fn lemma_format_behind(n: Seq<char>, y: Seq<char>)
    requires
        is_format(y),
    ensures
        after_slash(n + y) == after_slash(n) + y,
{
    lemma_formats(y, y);
    assert(!has_slash(y)) by {
        if y.contains('/') {
            let i = choose|i: int| 0 <= i < y.len() && y[i] == '/';
            assert(y[i] != '/');
        }
    }
    lemma_slash(n, y);
}

/// A format at the end of a name makes no difference: a name has the same standard name with
/// any one of the eight behind it, unless it already ends in one that is taken off earlier.
pub proof fn law_formats_do_not_count(n: Seq<char>, suffix: Seq<char>)
    requires
        is_format(suffix),
        is_bare_of_earlier(n, suffix),
    ensures
        standard_name(n + suffix) == standard_name(n),
{
    lemma_format_behind(n, suffix);
    lemma_own_is_bare(n, suffix);
    lemma_one_format(after_slash(n), suffix);
}

/// A name that ends in no format of any kind has the same standard name with any one of the
/// eight behind it.
pub proof fn law_bare_names_take_any_format(n: Seq<char>, suffix: Seq<char>)
    requires
        is_bare(n),
        is_format(suffix),
    ensures
        standard_name(n + suffix) == standard_name(n),
{
    law_formats_do_not_count(n, suffix);
}

/// The name under which an enclave's model is offered: the organisation and the format do not
/// count, and the rest is put in lower case.
pub proof fn law_enclave_names_are_bare(org: Seq<char>, n: Seq<char>, suffix: Seq<char>)
    requires
        !has_slash(org),
        !has_slash(n),
        is_bare(n),
        suffix == "-FP8"@ || suffix == "-TEE"@ || suffix == "-AWQ"@ || suffix == "-NVFP4"@,
    ensures
        enclave_name(n) == unicode_lowercase(n),
        enclave_name(n + suffix) == unicode_lowercase(n),
        enclave_name(org + seq!['/'] + n) == unicode_lowercase(n),
        enclave_name(org + seq!['/'] + (n + suffix)) == unicode_lowercase(n),
{
    lemma_format_behind(n, suffix);
    lemma_slash(n, seq![]);
    let whole = n + suffix;
    assert(!has_slash(whole)) by {
        lemma_formats(suffix, suffix);
        if whole.contains('/') {
            let i = choose|i: int| 0 <= i < whole.len() && whole[i] == '/';
            if i < n.len() {
                assert(n[i] == '/');
                assert(n.contains(n[i]));
            } else {
                assert(suffix[i - n.len()] != '/');
            }
        }
    }
    lemma_org(org, n);
    lemma_org(org, whole);
    lemma_four(n);
    lemma_four(whole);
    lemma_step(n, "-FP8"@, suffix);
    lemma_step(n, "-TEE"@, suffix);
    lemma_step(n, "-AWQ"@, suffix);
    lemma_step(n, "-NVFP4"@, suffix);
}

proof fn lemma_four(s: Seq<char>)
    ensures
        without_formats(s, enclave_formats()) == without_suffixes(
            without_suffixes(without_suffixes(without_suffixes(s, "-FP8"@), "-TEE"@), "-AWQ"@),
            "-NVFP4"@,
        ),
{
    let four = enclave_formats();
    reveal_with_fuel(without_formats, 5);
    assert(four.drop_last() =~= seq!["-FP8"@, "-TEE"@, "-AWQ"@]);
    assert(four.drop_last().drop_last() =~= seq!["-FP8"@, "-TEE"@]);
    assert(four.drop_last().drop_last().drop_last() =~= seq!["-FP8"@]);
    assert(four.drop_last().drop_last().drop_last().drop_last() =~= Seq::<Seq<char>>::empty());
}

proof fn lemma_org(org: Seq<char>, n: Seq<char>)
    requires
        !has_slash(org),
    ensures
        after_slash(org + seq!['/'] + n) == n,
{
    let s = org + seq!['/'] + n;
    lemma_find_char(s, '/', 0);
    assert(s[org.len() as int] == '/');
    match find_char(s, '/', 0) {
        Some(i) => {
            if i < org.len() {
                assert(org[i] == '/');
                assert(org.contains(org[i]));
            }
            assert(i == org.len());
            assert(s.skip(i + 1) =~= n);
        },
        None => {},
    }
}

/// An organisation in front of a name makes no difference, and a name without an organisation
/// or a format is put in lower case, with dots in its version, and otherwise left as it is.
pub proof fn law_organisations_do_not_count(org: Seq<char>, n: Seq<char>)
    requires
        !has_slash(org),
        !has_slash(n),
    ensures
        standard_name(org + seq!['/'] + n) == standard_name(n),
        is_bare(n) ==> standard_name(n) == dotted(unicode_lowercase(n)),
{
    lemma_org(org, n);
    lemma_slash(n, seq![]);
    if is_bare(n) {
        lemma_bare(n, "-FP8"@);
    }
}

/// In a version number the hyphen between two numbers is read as a dot: one that stands behind
/// a digit and before a stretch of digits that ends at the next hyphen or with the name.
pub proof fn law_version_hyphens_become_dots(head: Seq<char>, digits: Seq<char>, rest: Seq<char>)
    requires
        head.len() > 0,
        '0' <= head.last() <= '9',
        digits.len() > 0,
        forall|i: int| 0 <= i < digits.len() ==> '0' <= #[trigger] digits[i] <= '9',
        rest.len() == 0 || rest[0] == '-',
    ensures
        dotted(head + seq!['-'] + digits + rest)[head.len() as int] == '.',
{
    let s = head + seq!['-'] + digits + rest;
    let i = head.len() as int;
    let e = i + 1 + digits.len();
    assert(s[i] == '-');
    assert(s[i - 1] == head.last());
    assert forall|j: int| i + 1 <= j < e implies crate::text::is_digit(#[trigger] s[j]) by {
        assert(s[j] == digits[j - i - 1]);
    }
    if rest.len() > 0 {
        assert(s[e] == rest[0]);
    }
    assert(segment_ends(s, e));
    assert(version_hyphen(s, i));
}

/// Nothing else is changed: a character that is no hyphen stays, and so does a hyphen that
/// stands at the beginning or not behind a digit, or before anything but a stretch of digits
/// that ends at the next hyphen or with the name.
pub proof fn law_other_characters_stay(s: Seq<char>, i: int, j: int)
    requires
        0 <= i < s.len(),
    ensures
        dotted(s).len() == s.len(),
        s[i] != '-' ==> dotted(s)[i] == s[i],
        i == 0 || !('0' <= s[i - 1] <= '9') ==> dotted(s)[i] == s[i],
        i + 1 == s.len() || s[i + 1] == '-' ==> dotted(s)[i] == s[i],
        i < j < s.len() && s[j] != '-' && !('0' <= s[j] <= '9') && (forall|k: int|
            i < k < j ==> #[trigger] s[k] != '-') ==> dotted(s)[i] == s[i],
{
    if version_hyphen(s, i) {
        let e = choose|e: int|
            #![trigger segment_ends(s, e)]
            {
                &&& i + 1 < e <= s.len()
                &&& segment_ends(s, e)
                &&& forall|j: int| i + 1 <= j < e ==> crate::text::is_digit(#[trigger] s[j])
            };
        assert(crate::text::is_digit(s[i + 1]));
        if i < j < s.len() && s[j] != '-' && !('0' <= s[j] <= '9') {
            if j < e {
                assert(crate::text::is_digit(s[j]));
            } else if j > e {
                assert(s[e] == '-');
            }
        }
    }
}

} // verus!
