//! Transaction types.
use vstd::prelude::*;

verus! {

#[derive(Clone, Copy, Debug, PartialEq, Eq, Structural)]
pub enum TxType {
    Buy,
    Sell,
    Dividend,
    Split,
}

/// The text a transaction type is stored and displayed as.
pub open spec fn tx_type_text(t: TxType) -> Seq<char> {
    match t {
        TxType::Buy => "buy"@,
        TxType::Sell => "sell"@,
        TxType::Dividend => "dividend"@,
        TxType::Split => "split"@,
    }
}

/// The transaction type a text names, if any (exact match).
pub open spec fn tx_type_named(s: Seq<char>) -> Option<TxType> {
    if s == "buy"@ {
        Some(TxType::Buy)
    } else if s == "sell"@ {
        Some(TxType::Sell)
    } else if s == "dividend"@ {
        Some(TxType::Dividend)
    } else if s == "split"@ {
        Some(TxType::Split)
    } else {
        None
    }
}

impl TxType {
    /// The lower-case name (`buy`, `sell`, `dividend`, `split`).
    pub fn to_string(&self) -> (r: String)
        ensures
            r@ == tx_type_text(*self),
    {
        match self {
            TxType::Buy => String::from_str("buy"),
            TxType::Sell => String::from_str("sell"),
            TxType::Dividend => String::from_str("dividend"),
            TxType::Split => String::from_str("split"),
        }
    }

    /// Parses a stored transaction type; the error names the text.
    pub fn from_str(s: &str) -> (r: Result<TxType, String>)
        ensures
            match tx_type_named(s@) {
                Some(t) => r == Ok::<TxType, String>(t),
                None => r is Err && r->Err_0@ == "unknown transaction type: "@ + s@,
            },
    {
        if crate::text::text_eq(s, "buy") {
            Ok(TxType::Buy)
        } else if crate::text::text_eq(s, "sell") {
            Ok(TxType::Sell)
        } else if crate::text::text_eq(s, "dividend") {
            Ok(TxType::Dividend)
        } else if crate::text::text_eq(s, "split") {
            Ok(TxType::Split)
        } else {
            let mut message = String::from_str("unknown transaction type: ");
            message.append(s);
            Err(message)
        }
    }
}

/// Reading back the text of a transaction type gives the same type.
pub proof fn lemma_tx_type_text_round_trip(t: TxType)
    ensures
        tx_type_named(tx_type_text(t)) == Some(t),
{
    reveal_strlit("buy");
    reveal_strlit("sell");
    reveal_strlit("dividend");
    reveal_strlit("split");
    assert("buy"@.len() == 3 && "sell"@.len() == 4 && "dividend"@.len() == 8 && "split"@.len()
        == 5);
}

pub open spec fn or_zero(v: Option<i64>) -> i64 {
    match v {
        Some(x) => x,
        None => 0,
    }
}

/// The price column of a stored transaction, in cents: the unit price of a
/// trade, the gross amount of a dividend, nothing for a split.
pub fn display_price_cents(tx_type: TxType, unit_price_cents: Option<i64>, dividend_amount_cents: Option<i64>) -> (r: i64)
    ensures
        r == (match tx_type {
            TxType::Buy | TxType::Sell => or_zero(unit_price_cents),
            TxType::Dividend => or_zero(dividend_amount_cents),
            TxType::Split => 0,
        }),
{
    match tx_type {
        TxType::Buy | TxType::Sell => match unit_price_cents {
            Some(c) => c,
            None => 0,
        },
        TxType::Dividend => match dividend_amount_cents {
            Some(c) => c,
            None => 0,
        },
        TxType::Split => 0,
    }
}

/// The fees column of a stored transaction, in cents: the fees of a trade,
/// the deductions of a dividend, nothing for a split.
pub fn display_fees_cents(tx_type: TxType, trade_fees_cents: Option<i64>, dividend_deductions_cents: Option<i64>) -> (r: i64)
    ensures
        r == (match tx_type {
            TxType::Buy | TxType::Sell => or_zero(trade_fees_cents),
            TxType::Dividend => or_zero(dividend_deductions_cents),
            TxType::Split => 0,
        }),
{
    match tx_type {
        TxType::Buy | TxType::Sell => match trade_fees_cents {
            Some(c) => c,
            None => 0,
        },
        TxType::Dividend => match dividend_deductions_cents {
            Some(c) => c,
            None => 0,
        },
        TxType::Split => 0,
    }
}

} // verus!
