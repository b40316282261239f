//! The query of a page: what is searched for, and what is filtered by.

use vstd::prelude::*;
use vstd::utf8::encode_utf8;

use crate::primitives::text_from_utf8_lossy;
use crate::primitives::utf8_lossy_of;
use crate::text;
use crate::text::chars_of;
use crate::text::find_char;
use crate::text::has_text;
use crate::text::split_on;
use crate::text::string_of;
use crate::text::text_eq;
use crate::text::trimmed;
use crate::text::unicode_lowercase;

verus! {

// ---------------------------------------------------------------------------
// Escapes
// ---------------------------------------------------------------------------

/// The value of a hexadecimal digit of either case.
pub open spec fn digit_value(b: u8) -> Option<u8> {
    if 48 <= b && b <= 57 {
        Some((b - 48) as u8)
    } else if 97 <= b && b <= 102 {
        Some((b - 87) as u8)
    } else if 65 <= b && b <= 70 {
        Some((b - 55) as u8)
    } else {
        None
    }
}

/// The byte that two characters behind a percent sign stand for. A plus sign may stand for the
/// first digit.
pub open spec fn escape_value(a: u8, b: u8) -> Option<u8> {
    match (digit_value(a), digit_value(b)) {
        (Some(x), Some(y)) => Some((x * 16 + y) as u8),
        (None, Some(y)) => if a == 43 {
            Some(y)
        } else {
            None
        },
        _ => None,
    }
}

/// Some bytes, from a place on, with the escapes replaced: a percent sign and two digits by a
/// byte, a plus sign by a space. What is no escape stays.
pub open spec fn unescaped(s: Seq<u8>, i: int) -> Seq<u8>
    decreases s.len() - i,
{
    if i < 0 || i >= s.len() {
        seq![]
    } else if s[i] == 37 {
        if i + 2 < s.len() {
            match escape_value(s[i + 1], s[i + 2]) {
                Some(v) => seq![v] + unescaped(s, i + 3),
                None => seq![37u8, s[i + 1], s[i + 2]] + unescaped(s, i + 3),
            }
        } else {
            s.skip(i)
        }
    } else if s[i] == 43 {
        seq![32u8] + unescaped(s, i + 1)
    } else {
        seq![s[i]] + unescaped(s, i + 1)
    }
}

/// A text with the escapes of a query replaced.
pub open spec fn url_decoded(s: Seq<char>) -> Seq<char> {
    utf8_lossy_of(unescaped(encode_utf8(s), 0))
}

fn digit(b: u8) -> (r: Option<u8>)
    ensures
        r == digit_value(b),
        r matches Some(v) ==> v < 16,
{
    if b >= 48 && b <= 57 {
        Some(b - 48)
    } else if b >= 97 && b <= 102 {
        Some(b - 87)
    } else if b >= 65 && b <= 70 {
        Some(b - 55)
    } else {
        None
    }
}

fn escape(a: u8, b: u8) -> (r: Option<u8>)
    ensures
        r == escape_value(a, b),
{
    match (digit(a), digit(b)) {
        (Some(x), Some(y)) => Some(x * 16 + y),
        (None, Some(y)) => {
            if a == 43 {
                Some(y)
            } else {
                None
            }
        },
        _ => None,
    }
}

proof fn lemma_unescaped_plain(s: Seq<u8>, i: int)
    requires
        0 <= i <= s.len(),
        forall|j: int| 0 <= j < s.len() ==> #[trigger] s[j] != 37 && s[j] != 43,
    ensures
        unescaped(s, i) == s.skip(i),
    decreases s.len() - i,
{
    if i < s.len() {
        lemma_unescaped_plain(s, i + 1);
        assert(seq![s[i]] + s.skip(i + 1) =~= s.skip(i));
    } else {
        assert(s.skip(i) =~= seq![]);
    }
}

/// Replaces the escapes of a query. A text without any stays as it is.
pub fn url_decode(s: &str) -> (r: String)
    ensures
        r@ == url_decoded(s@),
        (forall|j: int|
            0 <= j < encode_utf8(s@).len() ==> #[trigger] encode_utf8(s@)[j] != 37 && encode_utf8(
                s@,
            )[j] != 43) ==> r@ == s@,
{
    let b = s.as_bytes();
    let len: usize = b.len();
    let mut out: Vec<u8> = Vec::new();
    let mut i: usize = 0;
    proof {
        assert(out@ + unescaped(b@, 0) =~= unescaped(b@, 0));
    }
    while i < len
        invariant
            len == b@.len(),
            i <= len,
            out@ + unescaped(b@, i as int) == unescaped(b@, 0),
        decreases len - i,
    {
        let ghost before = out@;
        if b[i] == 37 {
            if len - i > 2 {
                match escape(b[i + 1], b[i + 2]) {
                    Some(v) => {
                        out.push(v);
                        proof {
                            assert(before + (seq![v] + unescaped(b@, i + 3)) =~= out@ + unescaped(
                                b@,
                                i + 3,
                            ));
                        }
                    },
                    None => {
                        out.push(37);
                        out.push(b[i + 1]);
                        out.push(b[i + 2]);
                        proof {
                            assert(before + (seq![37u8, b@[i + 1], b@[i + 2]] + unescaped(
                                b@,
                                i + 3,
                            )) =~= out@ + unescaped(b@, i + 3));
                        }
                    },
                }
                i = i + 3;
            } else {
                crate::bytes::push_bytes(&mut out, b, i, len);
                proof {
                    assert(b@.subrange(i as int, len as int) =~= b@.skip(i as int));
                    assert(out@ + unescaped(b@, len as int) =~= before + b@.skip(i as int));
                }
                i = len;
            }
        } else if b[i] == 43 {
            out.push(32);
            proof {
                assert(before + (seq![32u8] + unescaped(b@, i + 1)) =~= out@ + unescaped(
                    b@,
                    i + 1,
                ));
            }
            i = i + 1;
        } else {
            out.push(b[i]);
            proof {
                assert(before + (seq![b@[i as int]] + unescaped(b@, i + 1)) =~= out@ + unescaped(
                    b@,
                    i + 1,
                ));
            }
            i = i + 1;
        }
    }
    proof {
        assert(out@ + unescaped(b@, len as int) =~= out@);
    }
    let r = text_from_utf8_lossy(out.as_slice());
    proof {
        if forall|j: int| 0 <= j < b@.len() ==> #[trigger] b@[j] != 37 && b@[j] != 43 {
            lemma_unescaped_plain(b@, 0);
            assert(b@.skip(0) =~= b@);
            vstd::utf8::encode_utf8_valid_utf8(s@);
            vstd::utf8::encode_utf8_decode_utf8(s@);
            vstd::utf8::encode_utf8_decode_utf8(r@);
        }
    }
    r
}

// ---------------------------------------------------------------------------
// Pairs
// ---------------------------------------------------------------------------

/// A name and a value, parted by the first equals sign.
pub open spec fn pair_of(s: Seq<char>) -> Option<(Seq<char>, Seq<char>)> {
    match find_char(s, '=', 0) {
        Some(i) => Some((s.take(i), s.skip(i + 1))),
        None => None,
    }
}

/// Parts a text at its first equals sign.
pub fn split_pair(s: &str) -> (r: Option<(String, String)>)
    ensures
        match r {
            Some(p) => pair_of(s@) == Some((p.0@, p.1@)),
            None => pair_of(s@) is None,
        },
{
    let v = chars_of(s);
    let len: usize = v.len();
    match text::find_in(v.as_slice(), '=', 0) {
        Some(i) => {
            proof {
                assert(s@.subrange(0, i as int) =~= s@.take(i as int));
                assert(s@.subrange(i + 1, len as int) =~= s@.skip(i + 1));
            }
            Some((string_of(v.as_slice(), 0, i), string_of(v.as_slice(), i + 1, len)))
        },
        None => None,
    }
}

/// What a page is filtered by.
pub struct PageQuery {
    pub search: String,
    pub zdr: bool,
    pub zds: bool,
    pub tee: bool,
}

/// What a page is filtered by.
#[verifier::ext_equal]
pub struct Filter {
    pub search: Seq<char>,
    pub zdr: bool,
    pub zds: bool,
    pub tee: bool,
}

impl PageQuery {
    /// What the page is filtered by.
    pub open spec fn view(&self) -> Filter {
        Filter { search: self.search@, zdr: self.zdr, zds: self.zds, tee: self.tee }
    }
}

/// A filter once one more pair of a query is known.
pub open spec fn with_pair(f: Filter, s: Seq<char>) -> Filter {
    match pair_of(s) {
        Some((k, v)) => if k == "q"@ {
            Filter { search: unicode_lowercase(trimmed(url_decoded(v))), ..f }
        } else if k == "zdr"@ && v == "1"@ {
            Filter { zdr: true, ..f }
        } else if k == "zds"@ && v == "1"@ {
            Filter { zds: true, ..f }
        } else if k == "tee"@ && v == "1"@ {
            Filter { tee: true, ..f }
        } else {
            f
        },
        None => f,
    }
}

/// The filter of some pairs.
pub open spec fn filter_in(pairs: Seq<Seq<char>>) -> Filter
    decreases pairs.len(),
{
    if pairs.len() == 0 {
        Filter { search: ""@, zdr: false, zds: false, tee: false }
    } else {
        with_pair(filter_in(pairs.drop_last()), pairs.last())
    }
}

/// The filter of a query.
pub open spec fn filter_of(query: Option<Seq<char>>) -> Filter {
    match query {
        Some(q) => filter_in(split_on(q, '&')),
        None => filter_in(seq![]),
    }
}

/// Reads what a page is filtered by.
pub fn parse_page_query(query: Option<&str>) -> (r: PageQuery)
    ensures
        r@ == filter_of(
            match query {
                Some(q) => Some(q@),
                None => None,
            },
        ),
{
    let mut out = PageQuery { search: "".to_string(), zdr: false, zds: false, tee: false };
    let q = match query {
        Some(q) => q,
        None => {
            return out;
        },
    };
    let pairs = text::split(q, '&');
    let ghost all = text::views(pairs@);
    let mut i: usize = 0;
    proof {
        assert(all.take(0) =~= seq![]);
    }
    while i < pairs.len()
        invariant
            i <= pairs@.len(),
            all == text::views(pairs@),
            out@ == filter_in(all.take(i as int)),
        decreases pairs@.len() - i,
    {
        proof {
            assert(all.take(i + 1).drop_last() =~= all.take(i as int));
            assert(all.take(i + 1).last() == pairs@[i as int]@);
        }
        if let Some((k, v)) = split_pair(pairs[i].as_str()) {
            let on = text_eq(v.as_str(), "1");
            if text_eq(k.as_str(), "q") {
                let decoded = url_decode(v.as_str());
                let bare = text::trim(decoded.as_str());
                out.search = bare.as_str().to_lowercase();
            } else if text_eq(k.as_str(), "zdr") && on {
                out.zdr = true;
            } else if text_eq(k.as_str(), "zds") && on {
                out.zds = true;
            } else if text_eq(k.as_str(), "tee") && on {
                out.tee = true;
            }
        }
        i = i + 1;
    }
    proof {
        assert(all.take(all.len() as int) =~= all);
    }
    out
}

/// Whether something of a name, an identifier and some promises passes a filter.
pub open spec fn passes(
    f: Filter,
    name: Seq<char>,
    id: Seq<char>,
    zdr: bool,
    zds: bool,
    tee: bool,
) -> bool {
    &&& f.search.len() > 0 ==> has_text(unicode_lowercase(name), f.search) || has_text(
        unicode_lowercase(id),
        f.search,
    )
    &&& f.zdr ==> zdr
    &&& f.zds ==> zds
    &&& f.tee ==> tee
}

/// Whether something passes a filter.
pub fn passes_filter(f: &PageQuery, name: &str, id: &str, zdr: bool, zds: bool, tee: bool) -> (r: bool)
    ensures
        r == passes(f@, name@, id@, zdr, zds, tee),
{
    if !f.search.as_str().is_empty() {
        let n = name.to_lowercase();
        let i = id.to_lowercase();
        if !text::contains(n.as_str(), f.search.as_str()) && !text::contains(
            i.as_str(),
            f.search.as_str(),
        ) {
            return false;
        }
    }
    (!f.zdr || zdr) && (!f.zds || zds) && (!f.tee || tee)
}

} // verus!
