//! Exchange-rate naming.
use vstd::prelude::*;
use crate::constants::BASE_CURRENCY;

verus! {

/// The pair name of a currency against the base currency, e.g. `USDEUR`.
pub open spec fn pair_name(from: Seq<char>) -> Seq<char> {
    from + BASE_CURRENCY@
}

pub fn currency_pair(from: &str) -> (r: String)
    ensures
        r@ == pair_name(from@),
{
    let mut pair = String::from_str(from);
    pair.append(BASE_CURRENCY);
    pair
}

/// Different currencies give different pair names.
pub proof fn lemma_currency_pair_injective(a: Seq<char>, b: Seq<char>)
    requires
        pair_name(a) == pair_name(b),
    ensures
        a == b,
{
    let x = BASE_CURRENCY@;
    assert((a + x).len() == a.len() + x.len());
    assert((b + x).len() == b.len() + x.len());
    assert(a.len() == b.len());
    assert(a =~= pair_name(a).take(a.len() as int));
    assert(b =~= pair_name(b).take(b.len() as int));
    assert(a =~= b);
}

} // verus!
