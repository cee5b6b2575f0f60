//! Display currencies: codes, symbols and selection order.

use vstd::prelude::*;
use crate::text::str_eq;

verus! {

#[derive(Debug, Clone, Copy, PartialEq, Eq, Structural, Hash)]
pub enum Currency {
    USD,
    EUR,
    GBP,
    JPY,
    INR,
    CAD,
    AUD,
    CHF,
    CNY,
    BRL,
    KRW,
    MXN,
    SEK,
    NOK,
    DKK,
    PLN,
    TRY,
    THB,
    IDR,
    PHP,
}

/// The ISO code of a currency.
pub open spec fn currency_code(c: Currency) -> Seq<char> {
    match c {
        Currency::USD => "USD"@,
        Currency::EUR => "EUR"@,
        Currency::GBP => "GBP"@,
        Currency::JPY => "JPY"@,
        Currency::INR => "INR"@,
        Currency::CAD => "CAD"@,
        Currency::AUD => "AUD"@,
        Currency::CHF => "CHF"@,
        Currency::CNY => "CNY"@,
        Currency::BRL => "BRL"@,
        Currency::KRW => "KRW"@,
        Currency::MXN => "MXN"@,
        Currency::SEK => "SEK"@,
        Currency::NOK => "NOK"@,
        Currency::DKK => "DKK"@,
        Currency::PLN => "PLN"@,
        Currency::TRY => "TRY"@,
        Currency::THB => "THB"@,
        Currency::IDR => "IDR"@,
        Currency::PHP => "PHP"@,
    }
}

/// The symbol shown before amounts; some carry a trailing space.
pub open spec fn currency_symbol(c: Currency) -> Seq<char> {
    match c {
        Currency::USD => "$"@,
        Currency::EUR => "€"@,
        Currency::GBP => "£"@,
        Currency::JPY => "¥"@,
        Currency::INR => "₹"@,
        Currency::CAD => "C$"@,
        Currency::AUD => "A$"@,
        Currency::CHF => "CHF "@,
        Currency::CNY => "¥"@,
        Currency::BRL => "R$"@,
        Currency::KRW => "₩"@,
        Currency::MXN => "MX$"@,
        Currency::SEK => "kr "@,
        Currency::NOK => "kr "@,
        Currency::DKK => "kr "@,
        Currency::PLN => "zł "@,
        Currency::TRY => "₺"@,
        Currency::THB => "฿"@,
        Currency::IDR => "Rp "@,
        Currency::PHP => "₱"@,
    }
}

/// The symbol without its trailing space.
pub open spec fn currency_symbol_compact(c: Currency) -> Seq<char> {
    match c {
        Currency::CHF => "CHF"@,
        Currency::SEK => "kr"@,
        Currency::NOK => "kr"@,
        Currency::DKK => "kr"@,
        Currency::PLN => "zł"@,
        Currency::IDR => "Rp"@,
        _ => currency_symbol(c),
    }
}

/// The selection position of a currency.
pub open spec fn spec_currency_index(c: Currency) -> int {
    match c {
        Currency::USD => 0,
        Currency::EUR => 1,
        Currency::GBP => 2,
        Currency::JPY => 3,
        Currency::INR => 4,
        Currency::CAD => 5,
        Currency::AUD => 6,
        Currency::CHF => 7,
        Currency::CNY => 8,
        Currency::BRL => 9,
        Currency::KRW => 10,
        Currency::MXN => 11,
        Currency::SEK => 12,
        Currency::NOK => 13,
        Currency::DKK => 14,
        Currency::PLN => 15,
        Currency::TRY => 16,
        Currency::THB => 17,
        Currency::IDR => 18,
        Currency::PHP => 19,
    }
}

/// The currency at a selection position; out-of-range positions give the
/// default.
pub open spec fn spec_currency_from_index(i: int) -> Currency {
    if i == 0 {
        Currency::USD
    } else if i == 1 {
        Currency::EUR
    } else if i == 2 {
        Currency::GBP
    } else if i == 3 {
        Currency::JPY
    } else if i == 4 {
        Currency::INR
    } else if i == 5 {
        Currency::CAD
    } else if i == 6 {
        Currency::AUD
    } else if i == 7 {
        Currency::CHF
    } else if i == 8 {
        Currency::CNY
    } else if i == 9 {
        Currency::BRL
    } else if i == 10 {
        Currency::KRW
    } else if i == 11 {
        Currency::MXN
    } else if i == 12 {
        Currency::SEK
    } else if i == 13 {
        Currency::NOK
    } else if i == 14 {
        Currency::DKK
    } else if i == 15 {
        Currency::PLN
    } else if i == 16 {
        Currency::TRY
    } else if i == 17 {
        Currency::THB
    } else if i == 18 {
        Currency::IDR
    } else if i == 19 {
        Currency::PHP
    } else {
        Currency::USD
    }
}

impl Currency {
    /// All currencies, in selection order.
    pub fn all() -> (r: Vec<Currency>)
        ensures
            r@.len() == 20,
            forall|i: int| 0 <= i < 20 ==> #[trigger] r@[i] == spec_currency_from_index(i),
    {
        let r = vec![
            Currency::USD,
            Currency::EUR,
            Currency::GBP,
            Currency::JPY,
            Currency::INR,
            Currency::CAD,
            Currency::AUD,
            Currency::CHF,
            Currency::CNY,
            Currency::BRL,
            Currency::KRW,
            Currency::MXN,
            Currency::SEK,
            Currency::NOK,
            Currency::DKK,
            Currency::PLN,
            Currency::TRY,
            Currency::THB,
            Currency::IDR,
            Currency::PHP,
        ];
        r
    }

    /// The symbol shown before amounts.
    pub fn symbol(&self) -> (r: &'static str)
        ensures
            r@ == currency_symbol(*self),
    {
        match self {
            Currency::USD => "$",
            Currency::EUR => "€",
            Currency::GBP => "£",
            Currency::JPY => "¥",
            Currency::INR => "₹",
            Currency::CAD => "C$",
            Currency::AUD => "A$",
            Currency::CHF => "CHF ",
            Currency::CNY => "¥",
            Currency::BRL => "R$",
            Currency::KRW => "₩",
            Currency::MXN => "MX$",
            Currency::SEK => "kr ",
            Currency::NOK => "kr ",
            Currency::DKK => "kr ",
            Currency::PLN => "zł ",
            Currency::TRY => "₺",
            Currency::THB => "฿",
            Currency::IDR => "Rp ",
            Currency::PHP => "₱",
        }
    }

    /// The ISO code.
    pub fn code(&self) -> (r: &'static str)
        ensures
            r@ == currency_code(*self),
    {
        match self {
            Currency::USD => "USD",
            Currency::EUR => "EUR",
            Currency::GBP => "GBP",
            Currency::JPY => "JPY",
            Currency::INR => "INR",
            Currency::CAD => "CAD",
            Currency::AUD => "AUD",
            Currency::CHF => "CHF",
            Currency::CNY => "CNY",
            Currency::BRL => "BRL",
            Currency::KRW => "KRW",
            Currency::MXN => "MXN",
            Currency::SEK => "SEK",
            Currency::NOK => "NOK",
            Currency::DKK => "DKK",
            Currency::PLN => "PLN",
            Currency::TRY => "TRY",
            Currency::THB => "THB",
            Currency::IDR => "IDR",
            Currency::PHP => "PHP",
        }
    }

    /// How many fraction digits the currency displays.
    pub fn decimals(&self) -> (r: usize)
        ensures
            r == (if *self == Currency::JPY || *self == Currency::KRW {
                0int
            } else {
                2
            }),
    {
        match self {
            Currency::JPY | Currency::KRW => 0,
            _ => 2,
        }
    }

    /// The code with the trimmed symbol in parentheses.
    pub fn display_name(&self) -> (r: String)
        ensures
            r@ == currency_code(*self) + " ("@ + currency_symbol_compact(*self) + ")"@,
    {
        proof {
            reveal_strlit(" (");
            reveal_strlit(")");
        }
        let mut out = String::from_str(self.code());
        out.append(" (");
        out.append(self.symbol_compact());
        out.append(")");
        proof {
            assert(out@ =~= currency_code(*self) + " ("@ + currency_symbol_compact(*self)
                + ")"@);
        }
        out
    }

    /// The symbol without its trailing space.
    pub fn symbol_compact(&self) -> (r: &'static str)
        ensures
            r@ == currency_symbol_compact(*self),
    {
        match self {
            Currency::CHF => "CHF",
            Currency::SEK => "kr",
            Currency::NOK => "kr",
            Currency::DKK => "kr",
            Currency::PLN => "zł",
            Currency::IDR => "Rp",
            _ => self.symbol(),
        }
    }

    /// The currency at a selection position; out-of-range positions give
    /// the default.
    pub fn from_index(index: usize) -> (r: Currency)
        ensures
            r == spec_currency_from_index(index as int),
    {
        match index {
            0 => Currency::USD,
            1 => Currency::EUR,
            2 => Currency::GBP,
            3 => Currency::JPY,
            4 => Currency::INR,
            5 => Currency::CAD,
            6 => Currency::AUD,
            7 => Currency::CHF,
            8 => Currency::CNY,
            9 => Currency::BRL,
            10 => Currency::KRW,
            11 => Currency::MXN,
            12 => Currency::SEK,
            13 => Currency::NOK,
            14 => Currency::DKK,
            15 => Currency::PLN,
            16 => Currency::TRY,
            17 => Currency::THB,
            18 => Currency::IDR,
            19 => Currency::PHP,
            _ => Currency::USD,
        }
    }

    /// The selection position of this currency.
    pub fn to_index(&self) -> (r: usize)
        ensures
            r == spec_currency_index(*self),
    {
        match self {
            Currency::USD => 0,
            Currency::EUR => 1,
            Currency::GBP => 2,
            Currency::JPY => 3,
            Currency::INR => 4,
            Currency::CAD => 5,
            Currency::AUD => 6,
            Currency::CHF => 7,
            Currency::CNY => 8,
            Currency::BRL => 9,
            Currency::KRW => 10,
            Currency::MXN => 11,
            Currency::SEK => 12,
            Currency::NOK => 13,
            Currency::DKK => 14,
            Currency::PLN => 15,
            Currency::TRY => 16,
            Currency::THB => 17,
            Currency::IDR => 18,
            Currency::PHP => 19,
        }
    }

    /// Look a currency up by its ISO code; only the exact codes are
    /// accepted.
    pub fn from_code(code: &str) -> (r: Option<Currency>)
        ensures
            r matches Some(c) ==> code@ == currency_code(c),
            r is None ==> forall|c: Currency| code@ != currency_code(c),
    {
        if str_eq(code, "USD") {
            Some(Currency::USD)
        } else if str_eq(code, "EUR") {
            Some(Currency::EUR)
        } else if str_eq(code, "GBP") {
            Some(Currency::GBP)
        } else if str_eq(code, "JPY") {
            Some(Currency::JPY)
        } else if str_eq(code, "INR") {
            Some(Currency::INR)
        } else if str_eq(code, "CAD") {
            Some(Currency::CAD)
        } else if str_eq(code, "AUD") {
            Some(Currency::AUD)
        } else if str_eq(code, "CHF") {
            Some(Currency::CHF)
        } else if str_eq(code, "CNY") {
            Some(Currency::CNY)
        } else if str_eq(code, "BRL") {
            Some(Currency::BRL)
        } else if str_eq(code, "KRW") {
            Some(Currency::KRW)
        } else if str_eq(code, "MXN") {
            Some(Currency::MXN)
        } else if str_eq(code, "SEK") {
            Some(Currency::SEK)
        } else if str_eq(code, "NOK") {
            Some(Currency::NOK)
        } else if str_eq(code, "DKK") {
            Some(Currency::DKK)
        } else if str_eq(code, "PLN") {
            Some(Currency::PLN)
        } else if str_eq(code, "TRY") {
            Some(Currency::TRY)
        } else if str_eq(code, "THB") {
            Some(Currency::THB)
        } else if str_eq(code, "IDR") {
            Some(Currency::IDR)
        } else if str_eq(code, "PHP") {
            Some(Currency::PHP)
        } else {
            proof {
                assert forall|c: Currency| code@ != currency_code(c) by {}
            }
            None
        }
    }

    /// How many currencies there are.
    pub fn count() -> (r: usize)
        ensures
            r == 20,
    {
        20
    }
}

impl Default for Currency {
    /// The default display currency.
    fn default() -> (r: Currency)
        ensures
            r == Currency::USD,
    {
        Currency::USD
    }
}

} // verus!
