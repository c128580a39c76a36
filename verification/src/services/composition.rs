//! Portfolio composition: how each position is looked through (a direct
//! stock, an equity fund whose holdings are fetched, or neither) and how
//! holdings are keyed and labelled.  Weights are computed outside this
//! module.
use vstd::prelude::*;
use crate::models::asset::AssetType;
use crate::text::{copy_text, eq_ignore_ascii_case, text_eq_ignore_ascii_case};

verus! {

/// The market-capitalisation class of a stock.
#[derive(Clone, Copy, Debug, PartialEq, Eq, Structural)]
pub enum MarketCapCategory {
    Large,
    Mid,
    Small,
}

pub open spec fn market_cap_text(c: MarketCapCategory) -> Seq<char> {
    match c {
        MarketCapCategory::Large => "Large Cap"@,
        MarketCapCategory::Mid => "Mid Cap"@,
        MarketCapCategory::Small => "Small Cap"@,
    }
}

impl MarketCapCategory {
    /// The label the category is reported under.
    pub fn to_string(&self) -> (r: String)
        ensures
            r@ == market_cap_text(*self),
    {
        match self {
            MarketCapCategory::Large => String::from_str("Large Cap"),
            MarketCapCategory::Mid => String::from_str("Mid Cap"),
            MarketCapCategory::Small => String::from_str("Small Cap"),
        }
    }
}

/// How a position enters the composition analysis.
#[derive(Clone, Debug)]
pub enum PositionRoute {
    /// A stock, analysed through its own sector, country and size.
    DirectStock,
    /// An equity fund or ETF, analysed through its holdings.
    EquityFund { code: String },
    /// An equity fund or ETF whose holdings cannot be fetched.
    MissingCode { warning: String },
    /// A fund or ETF of another asset class: not looked through.
    NotLookedThrough,
}

pub open spec fn is_equity_class(asset_class: Option<Seq<char>>) -> bool {
    asset_class is Some && eq_ignore_ascii_case(asset_class->Some_0, "equity"@)
}

pub open spec fn opt_str_view(s: Option<&str>) -> Option<Seq<char>> {
    match s {
        Some(t) => Some(t@),
        None => None,
    }
}

pub open spec fn missing_code_warning(name: Seq<char>, ticker: Seq<char>) -> Seq<char> {
    "No morningstar_code set for "@ + name + " ("@ + ticker + "); cannot fetch holdings"@
}

pub open spec fn route_is(
    r: PositionRoute,
    asset_type: AssetType,
    asset_class: Option<Seq<char>>,
    morningstar_code: Option<Seq<char>>,
    name: Seq<char>,
    ticker: Seq<char>,
) -> bool {
    if asset_type == AssetType::Stock {
        r is DirectStock
    } else if !is_equity_class(asset_class) {
        r is NotLookedThrough
    } else {
        match morningstar_code {
            Some(code) => match r {
                PositionRoute::EquityFund { code: c } => c@ == code,
                _ => false,
            },
            None => match r {
                PositionRoute::MissingCode { warning } => warning@ == missing_code_warning(name, ticker),
                _ => false,
            },
        }
    }
}

pub fn route_position(
    asset_type: AssetType,
    asset_class: Option<&str>,
    morningstar_code: Option<&str>,
    name: &str,
    ticker: &str,
) -> (r: PositionRoute)
    ensures
        route_is(r, asset_type, opt_str_view(asset_class), opt_str_view(morningstar_code), name@, ticker@),
{
    match asset_type {
        AssetType::Stock => PositionRoute::DirectStock,
        AssetType::Fund | AssetType::Etf => {
            let is_equity = match asset_class {
                Some(ac) => text_eq_ignore_ascii_case(ac, "equity"),
                None => false,
            };
            if !is_equity {
                return PositionRoute::NotLookedThrough;
            }
            match morningstar_code {
                Some(code) => PositionRoute::EquityFund { code: copy_text(code) },
                None => {
                    let mut warning = String::from_str("No morningstar_code set for ");
                    warning.append(name);
                    warning.append(" (");
                    warning.append(ticker);
                    warning.append("); cannot fetch holdings");
                    PositionRoute::MissingCode { warning }
                },
            }
        },
    }
}

/// Holdings are merged across funds by ticker when they have one, else by
/// name.
pub fn holding_key(ticker: Option<&str>, name: &str) -> (r: String)
    ensures
        r@ == (match ticker {
            Some(t) => if t@.len() > 0 {
                t@
            } else {
                name@
            },
            None => name@,
        }),
{
    match ticker {
        Some(t) => {
            if t.unicode_len() > 0 {
                copy_text(t)
            } else {
                copy_text(name)
            }
        },
        None => copy_text(name),
    }
}

/// The asset-class label a position is counted under.
pub fn asset_class_label(asset_class: Option<&str>) -> (r: String)
    ensures
        r@ == (match asset_class {
            Some(c) => c@,
            None => "Unclassified"@,
        }),
{
    match asset_class {
        Some(c) => copy_text(c),
        None => String::from_str("Unclassified"),
    }
}

} // verus!
