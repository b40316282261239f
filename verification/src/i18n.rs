//! Languages of the pages: Latin, which is the default and has no prefix, and English.

use vstd::prelude::*;

use crate::text::text_eq;

verus! {

/// A language of the pages.
#[derive(Debug, Clone, Copy, PartialEq, Eq, Structural)]
pub enum Locale {
    En,
    La,
}

/// The language that a code stands for: Latin, unless it is English's.
pub open spec fn locale_of(code: Seq<char>) -> Locale {
    if code == "en"@ {
        Locale::En
    } else {
        Locale::La
    }
}

/// The code of a language.
pub open spec fn code_of(l: Locale) -> Seq<char> {
    match l {
        Locale::En => "en"@,
        Locale::La => "la"@,
    }
}

impl Locale {
    /// The language that a code stands for.
    pub fn from_code(code: &str) -> (r: Self)
        ensures
            r == locale_of(code@),
    {
        if text_eq(code, "en") {
            Locale::En
        } else {
            Locale::La
        }
    }

    /// The code of the language.
    pub fn code(self) -> (r: &'static str)
        ensures
            r@ == code_of(self),
    {
        match self {
            Locale::En => "en",
            Locale::La => "la",
        }
    }

    /// What the paths of the language's pages start with.
    pub fn prefix(self) -> (r: &'static str)
        ensures
            r@ == (match self {
                Locale::En => "/en"@,
                Locale::La => ""@,
            }),
    {
        match self {
            Locale::En => "/en",
            Locale::La => "",
        }
    }

    /// Where the language's first page is.
    pub fn home_href(self) -> (r: &'static str)
        ensures
            r@ == (match self {
                Locale::En => "/en"@,
                Locale::La => "/"@,
            }),
    {
        match self {
            Locale::En => "/en",
            Locale::La => "/",
        }
    }
}

/// A language is the one that its code stands for.
pub proof fn law_code_stands_for_its_language(l: Locale)
    ensures
        locale_of(code_of(l)) == l,
{
    reveal_strlit("en");
    reveal_strlit("la");
    assert("en"@[0] != "la"@[0]);
}

/// One text of the pages: its language's code, its key, and the text.
pub struct Phrase {
    pub code: &'static str,
    pub key: &'static str,
    pub text: &'static str,
}

/// The first text, at or after `from`, of a key in a language.
pub open spec fn phrase(all: Seq<Phrase>, code: Seq<char>, key: Seq<char>, from: int) -> Option<
    Seq<char>,
>
    decreases all.len() - from,
{
    if from < 0 || from >= all.len() {
        None
    } else if all[from].code@ == code && all[from].key@ == key {
        Some(all[from].text@)
    } else {
        phrase(all, code, key, from + 1)
    }
}

/// The text of a key: in the language, else in English, else nothing.
pub open spec fn translated(all: Seq<Phrase>, locale: Locale, key: Seq<char>) -> Seq<char> {
    match phrase(all, code_of(locale), key, 0) {
        Some(t) => t,
        None => match phrase(all, "en"@, key, 0) {
            Some(t) => t,
            None => ""@,
        },
    }
}

fn t_raw(all: &Vec<Phrase>, code: &str, key: &str) -> (r: Option<&'static str>)
    ensures
        match r {
            Some(t) => phrase(all@, code@, key@, 0) == Some(t@),
            None => phrase(all@, code@, key@, 0) is None,
        },
{
    let mut i: usize = 0;
    while i < all.len()
        invariant
            i <= all@.len(),
            phrase(all@, code@, key@, 0) == phrase(all@, code@, key@, i as int),
        decreases all@.len() - i,
    {
        if text_eq(all[i].code, code) && text_eq(all[i].key, key) {
            return Some(all[i].text);
        }
        i = i + 1;
    }
    None
}

/// The text of a key in a language, out of all texts.
pub fn t(all: &Vec<Phrase>, locale: Locale, key: &str) -> (r: &'static str)
    ensures
        r@ == translated(all@, locale, key@),
{
    match t_raw(all, locale.code(), key) {
        Some(s) => s,
        None => match t_raw(all, "en", key) {
            Some(s) => s,
            None => "",
        },
    }
}

} // verus!
