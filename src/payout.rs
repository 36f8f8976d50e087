//! Checks the payout that the custodian reports after a transfer.
use vstd::prelude::*;
use crate::types::MarketError;

verus! {

/// At most this many payout transfers and bid refunds are issued when a
/// purchase settles.
pub const MAX_SETTLEMENT_TRANSFERS: usize = 10;

/// How far below the price a payout may add up, for rounding in its split.
pub const PAYOUT_TOLERANCE: u128 = 1;

/// The total of the amounts in a payout.
pub open spec fn payout_sum(p: Seq<(String, u128)>) -> int
    decreases p.len(),
{
    if p.len() == 0 {
        0
    } else {
        payout_sum(p.drop_last()) + p.last().1
    }
}

/// A payout that may be disbursed for a sale at `price`, while `bid_count`
/// bids wait to be refunded.
pub open spec fn payout_valid(p: Seq<(String, u128)>, bid_count: nat, price: u128) -> bool {
    &&& 0 < p.len()
    &&& p.len() + bid_count <= MAX_SETTLEMENT_TRANSFERS
    &&& price - PAYOUT_TOLERANCE <= payout_sum(p) <= price
}

proof fn lemma_payout_sum_take(p: Seq<(String, u128)>, i: int)
    requires
        0 <= i < p.len(),
    ensures
        payout_sum(p.take(i + 1)) == payout_sum(p.take(i)) + p[i].1,
{
    assert(p.take(i + 1).drop_last() =~= p.take(i));
}

proof fn lemma_payout_sum_prefix(p: Seq<(String, u128)>, i: int)
    requires
        0 <= i <= p.len(),
    ensures
        payout_sum(p.take(i)) <= payout_sum(p),
    decreases p.len() - i,
{
    if i < p.len() {
        lemma_payout_sum_take(p, i);
        lemma_payout_sum_prefix(p, i + 1);
    } else {
        assert(p.take(i) =~= p);
    }
}

/// Checks a payout against the price of the sale and the number of bids
/// that settling it will refund.
pub fn check_payout(payout: &Vec<(String, u128)>, bid_count: usize, price: u128) -> (r: Result<
    (),
    MarketError,
>)
    ensures
        (r is Ok) == payout_valid(payout@, bid_count as nat, price),
        payout@.len() + bid_count > MAX_SETTLEMENT_TRANSFERS ==> r == Err::<(), MarketError>(
            MarketError::TooManyRecipients,
        ),
        payout@.len() + bid_count <= MAX_SETTLEMENT_TRANSFERS && r is Err ==> r == Err::<
            (),
            MarketError,
        >(MarketError::InvalidPayout),
{
    if payout.len() > MAX_SETTLEMENT_TRANSFERS || bid_count > MAX_SETTLEMENT_TRANSFERS
        - payout.len() {
        return Err(MarketError::TooManyRecipients);
    }
    if payout.len() == 0 {
        return Err(MarketError::InvalidPayout);
    }
    let mut remainder: u128 = price;
    let mut i: usize = 0;
    while i < payout.len()
        invariant
            i <= payout@.len(),
            payout@.len() + bid_count <= MAX_SETTLEMENT_TRANSFERS,
            remainder == price - payout_sum(payout@.take(i as int)),
        decreases payout@.len() - i,
    {
        let value = payout[i].1;
        proof {
            lemma_payout_sum_take(payout@, i as int);
        }
        if value > remainder {
            proof {
                lemma_payout_sum_prefix(payout@, i as int + 1);
            }
            return Err(MarketError::InvalidPayout);
        }
        remainder = remainder - value;
        i = i + 1;
    }
    assert(payout@.take(payout@.len() as int) =~= payout@);
    if remainder <= PAYOUT_TOLERANCE {
        Ok(())
    } else {
        Err(MarketError::InvalidPayout)
    }
}

} // verus!
