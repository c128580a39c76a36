//! Assets.
use vstd::prelude::*;
use crate::text::{eq_ignore_ascii_case, text_eq, text_eq_ignore_ascii_case};

verus! {

#[derive(Clone, Copy, Debug, PartialEq, Eq, Structural)]
pub enum AssetType {
    Stock,
    Fund,
    Etf,
}

/// The lower-case name of an asset type.
pub open spec fn asset_type_text(t: AssetType) -> Seq<char> {
    match t {
        AssetType::Stock => "stock"@,
        AssetType::Fund => "fund"@,
        AssetType::Etf => "etf"@,
    }
}

/// The asset type a text names exactly, if any.
pub open spec fn asset_type_named(s: Seq<char>) -> Option<AssetType> {
    if s == "stock"@ {
        Some(AssetType::Stock)
    } else if s == "fund"@ {
        Some(AssetType::Fund)
    } else if s == "etf"@ {
        Some(AssetType::Etf)
    } else {
        None
    }
}

impl AssetType {
    pub fn to_string(&self) -> (r: String)
        ensures
            r@ == asset_type_text(*self),
    {
        match self {
            AssetType::Stock => String::from_str("stock"),
            AssetType::Fund => String::from_str("fund"),
            AssetType::Etf => String::from_str("etf"),
        }
    }

    /// Parses a stored asset type; the error names the text.
    pub fn from_str(s: &str) -> (r: Result<AssetType, String>)
        ensures
            match asset_type_named(s@) {
                Some(t) => r == Ok::<AssetType, String>(t),
                None => r is Err && r->Err_0@ == "unknown asset type: "@ + s@,
            },
    {
        if text_eq(s, "stock") {
            Ok(AssetType::Stock)
        } else if text_eq(s, "fund") {
            Ok(AssetType::Fund)
        } else if text_eq(s, "etf") {
            Ok(AssetType::Etf)
        } else {
            let mut message = String::from_str("unknown asset type: ");
            message.append(s);
            Err(message)
        }
    }

    /// Funds and ETFs are priced from Morningstar-backed sources.
    pub fn is_fund_like(&self) -> (r: bool)
        ensures
            r == (*self != AssetType::Stock),
    {
        !matches!(self, AssetType::Stock)
    }
}

/// Reading back the text of an asset type gives the same type.
pub proof fn lemma_asset_type_text_round_trip(t: AssetType)
    ensures
        asset_type_named(asset_type_text(t)) == Some(t),
{
    reveal_strlit("stock");
    reveal_strlit("fund");
    reveal_strlit("etf");
    assert("stock"@.len() == 5 && "fund"@.len() == 4 && "etf"@.len() == 3);
}

#[derive(Debug)]
pub struct AssetInfo {
    pub ticker: String,
    pub name: String,
    pub asset_type: AssetType,
    pub currency: String,
}

#[derive(Clone, Debug)]
pub struct Asset {
    pub id: i32,
    pub ticker: String,
    pub name: String,
    pub asset_type: AssetType,
    pub currency: String,
    pub morningstar_code: Option<String>,
    pub asset_class: Option<String>,
    pub equity_style: Option<String>,
    pub bond_credit: Option<String>,
    pub bond_duration: Option<String>,
    pub management: Option<String>,
}

/// An asset is monetary when its asset class is `monetary` in any ASCII
/// case.
pub open spec fn asset_is_monetary(asset: Asset) -> bool {
    match asset.asset_class {
        Some(class) => eq_ignore_ascii_case(class@, "monetary"@),
        None => false,
    }
}

impl Asset {
    pub fn is_monetary(&self) -> (r: bool)
        ensures
            r == asset_is_monetary(*self),
    {
        match &self.asset_class {
            Some(class) => text_eq_ignore_ascii_case(class.as_str(), "monetary"),
            None => false,
        }
    }
}

} // verus!
