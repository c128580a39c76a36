//! Settings of the market-data sources, taken from environment variables.
use vstd::prelude::*;

verus! {

/// Where and how the fund data sources are reached.
#[derive(Clone, Debug)]
pub struct Settings {
    pub token_page_url: String,
    pub chartservice_url: String,
    pub holdings_url: String,
    pub quote_url: String,
    pub sal_api_key: String,
    pub user_agent: String,
    pub token_cache_path: String,
}

/// The environment variables the settings are read from, in field order.
pub open spec fn settings_variables() -> Seq<Seq<char>> {
    seq![
        "RSTOCK_SOURCE_TOKEN_PAGE_URL"@,
        "RSTOCK_SOURCE_CHARTSERVICE_URL"@,
        "RSTOCK_SOURCE_HOLDINGS_URL"@,
        "RSTOCK_SOURCE_QUOTE_URL"@,
        "RSTOCK_SOURCE_SAL_API_KEY"@,
        "RSTOCK_SOURCE_USER_AGENT"@,
        "RSTOCK_SOURCE_TOKEN_CACHE_PATH"@,
    ]
}

pub fn settings_variable_names() -> (r: Vec<&'static str>)
    ensures
        r@.len() == 7,
        forall|k: int| 0 <= k < 7 ==> (#[trigger] r@[k])@ == settings_variables()[k],
{
    vec![
        "RSTOCK_SOURCE_TOKEN_PAGE_URL",
        "RSTOCK_SOURCE_CHARTSERVICE_URL",
        "RSTOCK_SOURCE_HOLDINGS_URL",
        "RSTOCK_SOURCE_QUOTE_URL",
        "RSTOCK_SOURCE_SAL_API_KEY",
        "RSTOCK_SOURCE_USER_AGENT",
        "RSTOCK_SOURCE_TOKEN_CACHE_PATH",
    ]
}

pub open spec fn missing_variable_message(name: Seq<char>) -> Seq<char> {
    "missing required environment variable "@ + name
}

/// Index `i` is the first variable without a value.
pub open spec fn first_missing(values: Seq<Option<String>>, i: int) -> bool {
    &&& 0 <= i < values.len()
    &&& values[i] is None
    &&& forall|k: int| 0 <= k < i ==> (#[trigger] values[k]) is Some
}

pub open spec fn value_of(values: Seq<Option<String>>, k: int) -> Seq<char> {
    values[k]->Some_0@
}

fn required(values: &[Option<String>], names: &Vec<&'static str>, k: usize) -> (r: Result<String, String>)
    requires
        values@.len() == 7,
        names@.len() == 7,
        k < 7,
        forall|m: int| 0 <= m < 7 ==> (#[trigger] names@[m])@ == settings_variables()[m],
    ensures
        match values@[k as int] {
            Some(v) => r is Ok && r->Ok_0@ == v@,
            None => r is Err && r->Err_0@ == missing_variable_message(settings_variables()[k as int]),
        },
{
    match &values[k] {
        Some(v) => Ok(crate::text::copy_text(v.as_str())),
        None => {
            let mut message = String::from_str("missing required environment variable ");
            message.append(names[k]);
            Err(message)
        },
    }
}

impl Settings {
    /// Builds the settings from the values of the variables of
    /// `settings_variables`, in that order (absent when unset).  The first
    /// unset variable is reported.
    pub fn from_env(values: &[Option<String>]) -> (r: Result<Settings, String>)
        requires
            values@.len() == 7,
        ensures
            forall|i: int| #[trigger] first_missing(values@, i) ==> r is Err
                && r->Err_0@ == missing_variable_message(settings_variables()[i]),
            (forall|k: int| 0 <= k < 7 ==> (#[trigger] values@[k]) is Some) ==> r is Ok && {
                let s = r->Ok_0;
                &&& s.token_page_url@ == value_of(values@, 0)
                &&& s.chartservice_url@ == value_of(values@, 1)
                &&& s.holdings_url@ == value_of(values@, 2)
                &&& s.quote_url@ == value_of(values@, 3)
                &&& s.sal_api_key@ == value_of(values@, 4)
                &&& s.user_agent@ == value_of(values@, 5)
                &&& s.token_cache_path@ == value_of(values@, 6)
            },
    {
        let names = settings_variable_names();
        let ghost vs = values@;
        proof {
            assert forall|i: int| #[trigger] first_missing(vs, i) implies forall|k: int| 0 <= k < i ==> (#[trigger] vs[k]) is Some by {}
        }
        let token_page_url = match required(values, &names, 0) {
            Ok(v) => v,
            Err(m) => {
                assert(forall|i: int| #[trigger] first_missing(vs, i) ==> i == 0);
                return Err(m);
            },
        };
        let chartservice_url = match required(values, &names, 1) {
            Ok(v) => v,
            Err(m) => {
                assert(forall|i: int| #[trigger] first_missing(vs, i) ==> i == 1);
                return Err(m);
            },
        };
        let holdings_url = match required(values, &names, 2) {
            Ok(v) => v,
            Err(m) => {
                assert(forall|i: int| #[trigger] first_missing(vs, i) ==> i == 2);
                return Err(m);
            },
        };
        let quote_url = match required(values, &names, 3) {
            Ok(v) => v,
            Err(m) => {
                assert(forall|i: int| #[trigger] first_missing(vs, i) ==> i == 3);
                return Err(m);
            },
        };
        let sal_api_key = match required(values, &names, 4) {
            Ok(v) => v,
            Err(m) => {
                assert(forall|i: int| #[trigger] first_missing(vs, i) ==> i == 4);
                return Err(m);
            },
        };
        let user_agent = match required(values, &names, 5) {
            Ok(v) => v,
            Err(m) => {
                assert(forall|i: int| #[trigger] first_missing(vs, i) ==> i == 5);
                return Err(m);
            },
        };
        let token_cache_path = match required(values, &names, 6) {
            Ok(v) => v,
            Err(m) => {
                assert(forall|i: int| #[trigger] first_missing(vs, i) ==> i == 6);
                return Err(m);
            },
        };
        assert(forall|i: int| !#[trigger] first_missing(vs, i));
        Ok(Settings { token_page_url, chartservice_url, holdings_url, quote_url, sal_api_key, user_agent, token_cache_path })
    }
}

} // verus!
