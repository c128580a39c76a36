//! Asset classification.  Each enum is stored as its kebab-case name
//! (`fixed-income`, `investment-grade`, ...) and read back ignoring ASCII
//! case.
use vstd::prelude::*;
use crate::models::asset::AssetType;
use crate::text::{eq_ignore_ascii_case, text_eq_ignore_ascii_case, trim, trimmed};

verus! {

#[derive(Clone, Copy, Debug, PartialEq, Eq, Structural)]
pub enum AssetClass {
    Equity,
    FixedIncome,
    Monetary,
    MultiAsset,
    Alternative,
    Commodity,
    RealEstate,
}

#[derive(Clone, Copy, Debug, PartialEq, Eq, Structural)]
pub enum EquityStyle {
    Value,
    Growth,
    Blend,
    Thematic,
}

#[derive(Clone, Copy, Debug, PartialEq, Eq, Structural)]
pub enum BondCredit {
    Government,
    InvestmentGrade,
    HighYield,
    InflationLinked,
}

#[derive(Clone, Copy, Debug, PartialEq, Eq, Structural)]
pub enum BondDuration {
    Short,
    Intermediate,
    Long,
}

#[derive(Clone, Copy, Debug, PartialEq, Eq, Structural)]
pub enum Management {
    Active,
    Passive,
}

// ---------------------------------------------------------------------------
// Stored names
// ---------------------------------------------------------------------------

pub open spec fn asset_class_name(v: AssetClass) -> Seq<char> {
    match v {
        AssetClass::Equity => "equity"@,
        AssetClass::FixedIncome => "fixed-income"@,
        AssetClass::Monetary => "monetary"@,
        AssetClass::MultiAsset => "multi-asset"@,
        AssetClass::Alternative => "alternative"@,
        AssetClass::Commodity => "commodity"@,
        AssetClass::RealEstate => "real-estate"@,
    }
}

pub open spec fn asset_class_named(s: Seq<char>) -> Option<AssetClass> {
    if eq_ignore_ascii_case("equity"@, s) {
        Some(AssetClass::Equity)
    } else if eq_ignore_ascii_case("fixed-income"@, s) {
        Some(AssetClass::FixedIncome)
    } else if eq_ignore_ascii_case("monetary"@, s) {
        Some(AssetClass::Monetary)
    } else if eq_ignore_ascii_case("multi-asset"@, s) {
        Some(AssetClass::MultiAsset)
    } else if eq_ignore_ascii_case("alternative"@, s) {
        Some(AssetClass::Alternative)
    } else if eq_ignore_ascii_case("commodity"@, s) {
        Some(AssetClass::Commodity)
    } else if eq_ignore_ascii_case("real-estate"@, s) {
        Some(AssetClass::RealEstate)
    } else {
        None
    }
}

pub open spec fn equity_style_name(v: EquityStyle) -> Seq<char> {
    match v {
        EquityStyle::Value => "value"@,
        EquityStyle::Growth => "growth"@,
        EquityStyle::Blend => "blend"@,
        EquityStyle::Thematic => "thematic"@,
    }
}

pub open spec fn equity_style_named(s: Seq<char>) -> Option<EquityStyle> {
    if eq_ignore_ascii_case("value"@, s) {
        Some(EquityStyle::Value)
    } else if eq_ignore_ascii_case("growth"@, s) {
        Some(EquityStyle::Growth)
    } else if eq_ignore_ascii_case("blend"@, s) {
        Some(EquityStyle::Blend)
    } else if eq_ignore_ascii_case("thematic"@, s) {
        Some(EquityStyle::Thematic)
    } else {
        None
    }
}

pub open spec fn bond_credit_name(v: BondCredit) -> Seq<char> {
    match v {
        BondCredit::Government => "government"@,
        BondCredit::InvestmentGrade => "investment-grade"@,
        BondCredit::HighYield => "high-yield"@,
        BondCredit::InflationLinked => "inflation-linked"@,
    }
}

pub open spec fn bond_credit_named(s: Seq<char>) -> Option<BondCredit> {
    if eq_ignore_ascii_case("government"@, s) {
        Some(BondCredit::Government)
    } else if eq_ignore_ascii_case("investment-grade"@, s) {
        Some(BondCredit::InvestmentGrade)
    } else if eq_ignore_ascii_case("high-yield"@, s) {
        Some(BondCredit::HighYield)
    } else if eq_ignore_ascii_case("inflation-linked"@, s) {
        Some(BondCredit::InflationLinked)
    } else {
        None
    }
}

pub open spec fn bond_duration_name(v: BondDuration) -> Seq<char> {
    match v {
        BondDuration::Short => "short"@,
        BondDuration::Intermediate => "intermediate"@,
        BondDuration::Long => "long"@,
    }
}

pub open spec fn bond_duration_named(s: Seq<char>) -> Option<BondDuration> {
    if eq_ignore_ascii_case("short"@, s) {
        Some(BondDuration::Short)
    } else if eq_ignore_ascii_case("intermediate"@, s) {
        Some(BondDuration::Intermediate)
    } else if eq_ignore_ascii_case("long"@, s) {
        Some(BondDuration::Long)
    } else {
        None
    }
}

pub open spec fn management_name(v: Management) -> Seq<char> {
    match v {
        Management::Active => "active"@,
        Management::Passive => "passive"@,
    }
}

pub open spec fn management_named(s: Seq<char>) -> Option<Management> {
    if eq_ignore_ascii_case("active"@, s) {
        Some(Management::Active)
    } else if eq_ignore_ascii_case("passive"@, s) {
        Some(Management::Passive)
    } else {
        None
    }
}

impl AssetClass {
    /// The stored name.
    pub fn to_db(&self) -> (r: String)
        ensures
            r@ == asset_class_name(*self),
    {
        match self {
            AssetClass::Equity => String::from_str("equity"),
            AssetClass::FixedIncome => String::from_str("fixed-income"),
            AssetClass::Monetary => String::from_str("monetary"),
            AssetClass::MultiAsset => String::from_str("multi-asset"),
            AssetClass::Alternative => String::from_str("alternative"),
            AssetClass::Commodity => String::from_str("commodity"),
            AssetClass::RealEstate => String::from_str("real-estate"),
        }
    }

    /// The value a stored name denotes, ignoring ASCII case.
    pub fn from_db(s: &str) -> (r: Option<AssetClass>)
        ensures
            r == asset_class_named(s@),
    {
        if text_eq_ignore_ascii_case("equity", s) {
            Some(AssetClass::Equity)
        } else if text_eq_ignore_ascii_case("fixed-income", s) {
            Some(AssetClass::FixedIncome)
        } else if text_eq_ignore_ascii_case("monetary", s) {
            Some(AssetClass::Monetary)
        } else if text_eq_ignore_ascii_case("multi-asset", s) {
            Some(AssetClass::MultiAsset)
        } else if text_eq_ignore_ascii_case("alternative", s) {
            Some(AssetClass::Alternative)
        } else if text_eq_ignore_ascii_case("commodity", s) {
            Some(AssetClass::Commodity)
        } else if text_eq_ignore_ascii_case("real-estate", s) {
            Some(AssetClass::RealEstate)
        } else {
            None
        }
    }
}

impl EquityStyle {
    pub fn to_db(&self) -> (r: String)
        ensures
            r@ == equity_style_name(*self),
    {
        match self {
            EquityStyle::Value => String::from_str("value"),
            EquityStyle::Growth => String::from_str("growth"),
            EquityStyle::Blend => String::from_str("blend"),
            EquityStyle::Thematic => String::from_str("thematic"),
        }
    }

    pub fn from_db(s: &str) -> (r: Option<EquityStyle>)
        ensures
            r == equity_style_named(s@),
    {
        if text_eq_ignore_ascii_case("value", s) {
            Some(EquityStyle::Value)
        } else if text_eq_ignore_ascii_case("growth", s) {
            Some(EquityStyle::Growth)
        } else if text_eq_ignore_ascii_case("blend", s) {
            Some(EquityStyle::Blend)
        } else if text_eq_ignore_ascii_case("thematic", s) {
            Some(EquityStyle::Thematic)
        } else {
            None
        }
    }
}

impl BondCredit {
    pub fn to_db(&self) -> (r: String)
        ensures
            r@ == bond_credit_name(*self),
    {
        match self {
            BondCredit::Government => String::from_str("government"),
            BondCredit::InvestmentGrade => String::from_str("investment-grade"),
            BondCredit::HighYield => String::from_str("high-yield"),
            BondCredit::InflationLinked => String::from_str("inflation-linked"),
        }
    }

    pub fn from_db(s: &str) -> (r: Option<BondCredit>)
        ensures
            r == bond_credit_named(s@),
    {
        if text_eq_ignore_ascii_case("government", s) {
            Some(BondCredit::Government)
        } else if text_eq_ignore_ascii_case("investment-grade", s) {
            Some(BondCredit::InvestmentGrade)
        } else if text_eq_ignore_ascii_case("high-yield", s) {
            Some(BondCredit::HighYield)
        } else if text_eq_ignore_ascii_case("inflation-linked", s) {
            Some(BondCredit::InflationLinked)
        } else {
            None
        }
    }
}

impl BondDuration {
    pub fn to_db(&self) -> (r: String)
        ensures
            r@ == bond_duration_name(*self),
    {
        match self {
            BondDuration::Short => String::from_str("short"),
            BondDuration::Intermediate => String::from_str("intermediate"),
            BondDuration::Long => String::from_str("long"),
        }
    }

    pub fn from_db(s: &str) -> (r: Option<BondDuration>)
        ensures
            r == bond_duration_named(s@),
    {
        if text_eq_ignore_ascii_case("short", s) {
            Some(BondDuration::Short)
        } else if text_eq_ignore_ascii_case("intermediate", s) {
            Some(BondDuration::Intermediate)
        } else if text_eq_ignore_ascii_case("long", s) {
            Some(BondDuration::Long)
        } else {
            None
        }
    }
}

impl Management {
    pub fn to_db(&self) -> (r: String)
        ensures
            r@ == management_name(*self),
    {
        match self {
            Management::Active => String::from_str("active"),
            Management::Passive => String::from_str("passive"),
        }
    }

    pub fn from_db(s: &str) -> (r: Option<Management>)
        ensures
            r == management_named(s@),
    {
        if text_eq_ignore_ascii_case("active", s) {
            Some(Management::Active)
        } else if text_eq_ignore_ascii_case("passive", s) {
            Some(Management::Passive)
        } else {
            None
        }
    }
}

proof fn lemma_eq_ignore_ascii_case_refl(s: Seq<char>)
    ensures
        eq_ignore_ascii_case(s, s),
{
}

/// Reading back a stored name gives the same value, for every enum.
pub proof fn lemma_classification_names_round_trip(
    c: AssetClass,
    e: EquityStyle,
    b: BondCredit,
    d: BondDuration,
    m: Management,
)
    ensures
        asset_class_named(asset_class_name(c)) == Some(c),
        equity_style_named(equity_style_name(e)) == Some(e),
        bond_credit_named(bond_credit_name(b)) == Some(b),
        bond_duration_named(bond_duration_name(d)) == Some(d),
        management_named(management_name(m)) == Some(m),
{
    reveal_strlit("equity");
    reveal_strlit("fixed-income");
    reveal_strlit("monetary");
    reveal_strlit("multi-asset");
    reveal_strlit("alternative");
    reveal_strlit("commodity");
    reveal_strlit("real-estate");
    reveal_strlit("value");
    reveal_strlit("growth");
    reveal_strlit("blend");
    reveal_strlit("thematic");
    reveal_strlit("government");
    reveal_strlit("investment-grade");
    reveal_strlit("high-yield");
    reveal_strlit("inflation-linked");
    reveal_strlit("short");
    reveal_strlit("intermediate");
    reveal_strlit("long");
    reveal_strlit("active");
    reveal_strlit("passive");
    lemma_eq_ignore_ascii_case_refl(asset_class_name(c));
    lemma_eq_ignore_ascii_case_refl(equity_style_name(e));
    lemma_eq_ignore_ascii_case_refl(bond_credit_name(b));
    lemma_eq_ignore_ascii_case_refl(bond_duration_name(d));
    lemma_eq_ignore_ascii_case_refl(management_name(m));
    // Names of one enum differ in length or in their first character.
    assert(!eq_ignore_ascii_case("equity"@, "monetary"@));
    assert(!eq_ignore_ascii_case("fixed-income"@, "real-estate"@)) by {
        assert(eq_ignore_ascii_case("fixed-income"@, "real-estate"@) ==> false) by {
            if eq_ignore_ascii_case("fixed-income"@, "real-estate"@) {
                assert(crate::text::ascii_lower("fixed-income"@[0]) == crate::text::ascii_lower("real-estate"@[0]));
            }
        }
    }
    assert(!eq_ignore_ascii_case("fixed-income"@, "multi-asset"@)) by {
        if eq_ignore_ascii_case("fixed-income"@, "multi-asset"@) {
            assert(crate::text::ascii_lower("fixed-income"@[0]) == crate::text::ascii_lower("multi-asset"@[0]));
        }
    }
    assert(!eq_ignore_ascii_case("multi-asset"@, "real-estate"@)) by {
        if eq_ignore_ascii_case("multi-asset"@, "real-estate"@) {
            assert(crate::text::ascii_lower("multi-asset"@[0]) == crate::text::ascii_lower("real-estate"@[0]));
        }
    }
    assert(!eq_ignore_ascii_case("alternative"@, "multi-asset"@)) by {
        if eq_ignore_ascii_case("alternative"@, "multi-asset"@) {
            assert(crate::text::ascii_lower("alternative"@[0]) == crate::text::ascii_lower("multi-asset"@[0]));
        }
    }
    assert(!eq_ignore_ascii_case("alternative"@, "real-estate"@)) by {
        if eq_ignore_ascii_case("alternative"@, "real-estate"@) {
            assert(crate::text::ascii_lower("alternative"@[0]) == crate::text::ascii_lower("real-estate"@[0]));
        }
    }
    assert(!eq_ignore_ascii_case("alternative"@, "fixed-income"@)) by {
        if eq_ignore_ascii_case("alternative"@, "fixed-income"@) {
            assert(crate::text::ascii_lower("alternative"@[0]) == crate::text::ascii_lower("fixed-income"@[0]));
        }
    }
    assert(!eq_ignore_ascii_case("value"@, "blend"@)) by {
        if eq_ignore_ascii_case("value"@, "blend"@) {
            assert(crate::text::ascii_lower("value"@[0]) == crate::text::ascii_lower("blend"@[0]));
        }
    }
    assert(!eq_ignore_ascii_case("government"@, "high-yield"@)) by {
        if eq_ignore_ascii_case("government"@, "high-yield"@) {
            assert(crate::text::ascii_lower("government"@[0]) == crate::text::ascii_lower("high-yield"@[0]));
        }
    }
    assert(!eq_ignore_ascii_case("investment-grade"@, "inflation-linked"@)) by {
        if eq_ignore_ascii_case("investment-grade"@, "inflation-linked"@) {
            assert(crate::text::ascii_lower("investment-grade"@[2]) == crate::text::ascii_lower("inflation-linked"@[2]));
        }
    }
    assert(!eq_ignore_ascii_case("short"@, "blend"@));
    assert(!eq_ignore_ascii_case("active"@, "passive"@));
}

// ---------------------------------------------------------------------------
// Classification
// ---------------------------------------------------------------------------

#[derive(Clone, Debug)]
pub struct AssetClassification {
    pub asset_class: Option<AssetClass>,
    pub equity_style: Option<EquityStyle>,
    pub bond_credit: Option<BondCredit>,
    pub bond_duration: Option<BondDuration>,
    pub management: Option<Management>,
}

pub open spec fn classification_is_empty(c: AssetClassification) -> bool {
    &&& c.asset_class is None
    &&& c.equity_style is None
    &&& c.bond_credit is None
    &&& c.bond_duration is None
    &&& c.management is None
}

/// Why a classification does not fit an asset, checked in this order: an
/// asset class is required; equity style only for equity; bond credit and
/// duration only for fixed income; funds and ETFs need a non-blank
/// Morningstar code.
pub open spec fn classification_problem(
    c: AssetClassification,
    asset_type: AssetType,
    morningstar_code: Option<Seq<char>>,
) -> Option<Seq<char>> {
    if c.asset_class is None {
        Some("asset classification is required"@)
    } else if c.equity_style is Some && c.asset_class != Some(AssetClass::Equity) {
        Some("equity style is only valid for equity assets"@)
    } else if c.bond_credit is Some && c.asset_class != Some(AssetClass::FixedIncome) {
        Some("bond credit is only valid for fixed-income assets"@)
    } else if c.bond_duration is Some && c.asset_class != Some(AssetClass::FixedIncome) {
        Some("bond duration is only valid for fixed-income assets"@)
    } else if asset_type != AssetType::Stock && (match morningstar_code {
        None => true,
        Some(code) => trimmed(code).len() == 0,
    }) {
        Some("fund and ETF assets require a Morningstar code"@)
    } else {
        None
    }
}

pub open spec fn opt_text_view(s: Option<&str>) -> Option<Seq<char>> {
    match s {
        Some(t) => Some(t@),
        None => None,
    }
}

impl AssetClassification {
    /// The classification with no field set.
    pub fn empty() -> (r: AssetClassification)
        ensures
            classification_is_empty(r),
    {
        AssetClassification {
            asset_class: None,
            equity_style: None,
            bond_credit: None,
            bond_duration: None,
            management: None,
        }
    }

    pub fn is_empty(&self) -> (r: bool)
        ensures
            r == classification_is_empty(*self),
    {
        self.asset_class.is_none() && self.equity_style.is_none() && self.bond_credit.is_none()
            && self.bond_duration.is_none() && self.management.is_none()
    }

    pub fn validate_for_asset(&self, asset_type: &AssetType, morningstar_code: Option<&str>) -> (r: Result<(), String>)
        ensures
            match classification_problem(*self, *asset_type, opt_text_view(morningstar_code)) {
                None => r is Ok,
                Some(message) => r is Err && r->Err_0@ == message,
            },
    {
        if self.asset_class.is_none() {
            return Err(String::from_str("asset classification is required"));
        }
        let is_equity = match self.asset_class {
            Some(AssetClass::Equity) => true,
            _ => false,
        };
        let is_fixed_income = match self.asset_class {
            Some(AssetClass::FixedIncome) => true,
            _ => false,
        };
        if self.equity_style.is_some() && !is_equity {
            return Err(String::from_str("equity style is only valid for equity assets"));
        }
        if self.bond_credit.is_some() && !is_fixed_income {
            return Err(String::from_str("bond credit is only valid for fixed-income assets"));
        }
        if self.bond_duration.is_some() && !is_fixed_income {
            return Err(String::from_str("bond duration is only valid for fixed-income assets"));
        }
        let needs_code = match asset_type {
            AssetType::Fund | AssetType::Etf => true,
            AssetType::Stock => false,
        };
        if needs_code {
            let missing = match morningstar_code {
                None => true,
                Some(code) => trim(code).unicode_len() == 0,
            };
            if missing {
                return Err(String::from_str("fund and ETF assets require a Morningstar code"));
            }
        }
        Ok(())
    }
}

/// An empty classification never fits any asset.
pub proof fn lemma_empty_classification_is_rejected(
    c: AssetClassification,
    asset_type: AssetType,
    morningstar_code: Option<Seq<char>>,
)
    requires
        classification_is_empty(c),
    ensures
        classification_problem(c, asset_type, morningstar_code) == Some("asset classification is required"@),
{
}

} // verus!
