//! A-share security codes, their exchanges and market boards.

use vstd::prelude::*;

use crate::text::chars_of;
use vstd::string::StringSliceAdditionalSpecFns;

verus! {

/// Stock exchanges of mainland China.
#[derive(Debug, Clone, Copy, PartialEq, Eq, Hash, Structural)]
pub enum Exchange {
    /// Shanghai Stock Exchange.
    Sse,
    /// Shenzhen Stock Exchange.
    Szse,
    /// Beijing Stock Exchange.
    Bse,
}

/// The two-letter suffix of an exchange in `600519.SH`-style codes.
pub open spec fn exchange_suffix(exchange: Exchange) -> Seq<char> {
    match exchange {
        Exchange::Sse => seq!['S', 'H'],
        Exchange::Szse => seq!['S', 'Z'],
        Exchange::Bse => seq!['B', 'J'],
    }
}

impl Exchange {
    /// `SH`, `SZ` or `BJ`.
    pub fn as_str(&self) -> (suffix: &'static str)
        ensures
            suffix@ == exchange_suffix(*self),
    {
        match self {
            Exchange::Sse => {
                proof {
                    reveal_strlit("SH");
                }
                "SH"
            },
            Exchange::Szse => {
                proof {
                    reveal_strlit("SZ");
                }
                "SZ"
            },
            Exchange::Bse => {
                proof {
                    reveal_strlit("BJ");
                }
                "BJ"
            },
        }
    }
}

/// Market boards.
#[derive(Debug, Clone, Copy, PartialEq, Eq, Structural)]
pub enum Market {
    /// Shanghai main board.
    MainSse,
    /// Shenzhen main board.
    MainSzse,
    /// STAR market.
    Star,
    /// ChiNext.
    ChiNext,
    /// Beijing Stock Exchange.
    Bse,
}

/// A stock code: six digits plus the exchange, written `600519.SH`.
#[derive(Debug, Clone, PartialEq, Eq, Hash)]
pub struct Symbol {
    pub code: String,
    pub exchange: Exchange,
}

/// The exchange that the first two bytes of a six-byte code point to: 60, 68 and 9
/// (but not 92) are Shanghai; 00 and 30 are Shenzhen; 43, 83, 87 and 92 are Beijing.
pub open spec fn exchange_for_code(bytes: Seq<u8>) -> Option<Exchange> {
    if bytes.len() != 6 {
        None
    } else {
        let (a, b) = (bytes[0], bytes[1]);
        if (a == 0x36u8 && (b == 0x30u8 || b == 0x38u8)) || (a == 0x39u8 && b != 0x32u8) {
            Some(Exchange::Sse)
        } else if (a == 0x30u8 || a == 0x33u8) && b == 0x30u8 {
            Some(Exchange::Szse)
        } else if (a == 0x34u8 && b == 0x33u8) || (a == 0x38u8 && (b == 0x33u8 || b
            == 0x37u8)) || (a == 0x39u8 && b == 0x32u8) {
            Some(Exchange::Bse)
        } else {
            None
        }
    }
}

/// Whether the characters `s` begin with `prefix`.
pub open spec fn starts_with(s: Seq<char>, prefix: Seq<char>) -> bool {
    prefix.len() <= s.len() && s.take(prefix.len() as int) == prefix
}

/// The board that a code of the given exchange belongs to.
pub open spec fn market_of(code: Seq<char>, exchange: Exchange) -> Market {
    match exchange {
        Exchange::Sse => if starts_with(code, seq!['6', '8', '8']) {
            Market::Star
        } else {
            Market::MainSse
        },
        Exchange::Szse => if starts_with(code, seq!['3', '0', '0']) || starts_with(
            code,
            seq!['3', '0', '1'],
        ) {
            Market::ChiNext
        } else {
            Market::MainSzse
        },
        Exchange::Bse => Market::Bse,
    }
}

/// Whether the characters of `s` begin with the three characters `a`, `b`, `c`.
fn starts_with3(s: &Vec<char>, a: char, b: char, c: char) -> (found: bool)
    ensures
        found == starts_with(s@, seq![a, b, c]),
{
    if s.len() < 3 {
        return false;
    }
    let found = s[0] == a && s[1] == b && s[2] == c;
    assert(found == (s@.take(3) =~= seq![a, b, c]));
    found
}

impl Symbol {
    pub fn new(code: &str, exchange: Exchange) -> (symbol: Symbol)
        ensures
            symbol.code@ == code@,
            symbol.exchange == exchange,
    {
        Symbol { code: code.to_string(), exchange }
    }

    /// Infers the exchange from a six-byte code by its two-byte prefix: 60, 68 and 9
    /// (but not 92) are Shanghai, 00 and 30 Shenzhen, 43, 83, 87 and 92 Beijing; any
    /// other prefix, or another length, gives `None`.
    pub fn from_code(code: &str) -> (symbol: Option<Symbol>)
        ensures
            symbol is Some <==> exchange_for_code(code.spec_bytes()) is Some,
            symbol matches Some(s) ==> s.code@ == code@ && Some(s.exchange) == exchange_for_code(
                code.spec_bytes(),
            ),
    {
        if code.len() != 6 {
            return None;
        }
        let bytes = code.as_bytes();
        let a = bytes[0];
        let b = bytes[1];
        let exchange = if (a == 0x36u8 && (b == 0x30u8 || b == 0x38u8)) || (a == 0x39u8 && b
            != 0x32u8) {
            Exchange::Sse
        } else if (a == 0x30u8 || a == 0x33u8) && b == 0x30u8 {
            Exchange::Szse
        } else if (a == 0x34u8 && b == 0x33u8) || (a == 0x38u8 && (b == 0x33u8 || b == 0x37u8))
            || (a == 0x39u8 && b == 0x32u8) {
            Exchange::Bse
        } else {
            return None;
        };
        Some(Symbol::new(code, exchange))
    }

    /// The board: `688` in Shanghai is STAR, `300`/`301` in Shenzhen is ChiNext.
    pub fn market(&self) -> (market: Market)
        ensures
            market == market_of(self.code@, self.exchange),
    {
        let code = chars_of(self.code.as_str());
        match self.exchange {
            Exchange::Sse => {
                if starts_with3(&code, '6', '8', '8') {
                    Market::Star
                } else {
                    Market::MainSse
                }
            },
            Exchange::Szse => {
                if starts_with3(&code, '3', '0', '0') || starts_with3(&code, '3', '0', '1') {
                    Market::ChiNext
                } else {
                    Market::MainSzse
                }
            },
            Exchange::Bse => Market::Bse,
        }
    }

    /// The unified code, such as `600519.SH`.
    pub fn ts_code(&self) -> (ts_code: String)
        ensures
            ts_code@ == self.code@ + seq!['.'] + exchange_suffix(self.exchange),
    {
        let mut out = self.code.clone();
        proof {
            reveal_strlit(".");
        }
        out.append(".");
        out.append(self.exchange.as_str());
        out
    }
}

} // verus!
