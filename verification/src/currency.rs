//! Currencies in which prices are shown.

use vstd::prelude::*;
use vstd::utf8::is_ascii_chars;

use crate::text::ascii_raised;
use crate::text::text_eq;
use crate::text::unicode_uppercase;

verus! {

/// A currency in which prices are shown.
#[derive(Debug, Clone, Copy, PartialEq, Eq, Structural)]
pub enum Currency {
    USD,
    EUR,
    JPY,
    CHF,
}

impl Default for Currency {
    fn default() -> (r: Self)
        ensures
            r == Currency::USD,
    {
        Currency::USD
    }
}

/// The code of a currency.
pub open spec fn code_of(c: Currency) -> Seq<char> {
    match c {
        Currency::USD => "USD"@,
        Currency::EUR => "EUR"@,
        Currency::JPY => "JPY"@,
        Currency::CHF => "CHF"@,
    }
}

impl Currency {
    /// The currency of a code in either case.
    pub fn from_str(s: &str) -> (r: Option<Self>)
        ensures
            match r {
                Some(c) => unicode_uppercase(s@) == code_of(c),
                None => forall|c: Currency| unicode_uppercase(s@) != #[trigger] code_of(c),
            },
            is_ascii_chars(s@) ==> forall|c: Currency|
                r == Some(c) <==> ascii_raised(s@) == #[trigger] code_of(c),
    {
        let upper = s.to_uppercase();
        proof {
            assert forall|a: Currency, b: Currency|
                upper@ == #[trigger] code_of(a) && upper@ == #[trigger] code_of(b) implies a
                == b by {
                law_codes_differ(a, b);
            }
            assert(code_of(Currency::USD) == "USD"@ && code_of(Currency::EUR) == "EUR"@);
            assert(code_of(Currency::JPY) == "JPY"@ && code_of(Currency::CHF) == "CHF"@);
        }
        if text_eq(upper.as_str(), "USD") {
            Some(Currency::USD)
        } else if text_eq(upper.as_str(), "EUR") {
            Some(Currency::EUR)
        } else if text_eq(upper.as_str(), "JPY") {
            Some(Currency::JPY)
        } else if text_eq(upper.as_str(), "CHF") {
            Some(Currency::CHF)
        } else {
            None
        }
    }

    /// The code of the currency.
    pub fn to_str(&self) -> (r: &'static str)
        ensures
            r@ == code_of(*self),
    {
        match self {
            Currency::USD => "USD",
            Currency::EUR => "EUR",
            Currency::JPY => "JPY",
            Currency::CHF => "CHF",
        }
    }
}

/// No two currencies have the same code.
pub proof fn law_codes_differ(a: Currency, b: Currency)
    requires
        code_of(a) == code_of(b),
    ensures
        a == b,
{
    reveal_strlit("USD");
    reveal_strlit("EUR");
    reveal_strlit("JPY");
    reveal_strlit("CHF");
    assert("USD"@[0] == 'U' && "EUR"@[0] == 'E' && "JPY"@[0] == 'J' && "CHF"@[0] == 'C');
    assert(code_of(a)[0] == code_of(b)[0]);
}

} // verus!
