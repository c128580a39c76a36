//! Portfolio analytics: finding the price series of an asset among the
//! prepared correlation data.  Returns and correlations are computed
//! outside this module.
use vstd::prelude::*;
use crate::text::{i32_text, int_text};

verus! {

/// A prepared series of an asset; its prices are carried, not read.
#[derive(Clone, Debug)]
pub struct AssetSeries<P> {
    pub asset_id: i32,
    pub prices: P,
}

/// Series `k` is the first of the asset's.
pub open spec fn first_series_of<P>(series: Seq<AssetSeries<P>>, asset_id: i32, k: int) -> bool {
    &&& 0 <= k < series.len()
    &&& series[k].asset_id == asset_id
    &&& forall|m: int| 0 <= m < k ==> (#[trigger] series[m]).asset_id != asset_id
}

pub open spec fn has_series_of<P>(series: Seq<AssetSeries<P>>, asset_id: i32) -> bool {
    exists|k: int| 0 <= k < series.len() && (#[trigger] series[k]).asset_id == asset_id
}

pub open spec fn missing_series_message(asset_id: i32) -> Seq<char> {
    "missing correlation market data for asset "@ + int_text(asset_id as int)
}

/// The prices of the first series of the asset, or an error naming the
/// asset when there is none.
pub fn series_prices<P>(series: &[AssetSeries<P>], asset_id: i32) -> (r: Result<&P, String>)
    ensures
        r is Ok <==> has_series_of(series@, asset_id),
        r is Ok ==> exists|k: int| first_series_of(series@, asset_id, k) && *r->Ok_0 == series@[k].prices,
        r is Err ==> r->Err_0@ == missing_series_message(asset_id),
{
    let mut k: usize = 0;
    while k < series.len()
        invariant
            k <= series@.len(),
            forall|m: int| 0 <= m < k ==> (#[trigger] series@[m]).asset_id != asset_id,
        decreases series@.len() - k,
    {
        if series[k].asset_id == asset_id {
            assert(first_series_of(series@, asset_id, k as int));
            return Ok(&series[k].prices);
        }
        k = k + 1;
    }
    let mut message = String::from_str("missing correlation market data for asset ");
    let id = i32_text(asset_id);
    message.append(id.as_str());
    Err(message)
}

} // verus!
