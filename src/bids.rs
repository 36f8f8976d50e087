//! The bids held on a listing: one per currency, each replaced only by a
//! higher one, the replaced bidder refunded.
use vstd::prelude::*;
use crate::keyed::{entries_map, find_key, keys_unique, lemma_key_pos, lemma_map_push, lemma_map_update, remove_key};
use crate::types::{bids_of, sale_wf, Bid, MarketError, Sale, SaleView, Transfer};

verus! {

/// The bids of a listing by currency.
pub open spec fn view_bids(s: SaleView) -> Map<Seq<char>, Bid> {
    entries_map(s.bids)
}

/// The amount held in escrow for currency `ft` on a listing.
pub open spec fn escrow_of(s: SaleView, ft: Seq<char>) -> int {
    if view_bids(s).contains_key(ft) {
        view_bids(s)[ft].price as int
    } else {
        0
    }
}

/// The amount that an optional refund pays out.
pub open spec fn refund_amount(r: Option<Transfer>) -> int {
    match r {
        Some(t) => t.amount as int,
        None => 0,
    }
}

/// The refund of a bid held in currency `ft`.
pub open spec fn is_refund_of(t: Transfer, ft: Seq<char>, b: Bid) -> bool {
    t.receiver_id@ == b.owner_id@ && t.amount == b.price && t.ft_token_id@ == ft
}

/// One accepted bid of `amount` by `bidder` in currency `ft`: the listing
/// `after` differs from `before` in that bid alone, and the bid it replaced,
/// if any, is refunded whole.
pub open spec fn bid_step(
    before: SaleView,
    after: SaleView,
    ft: Seq<char>,
    bidder: Seq<char>,
    amount: u128,
    refund: Option<Transfer>,
) -> bool {
    &&& after == (SaleView { bids: after.bids, ..before })
    &&& keys_unique(after.bids)
    &&& view_bids(after).dom() == view_bids(before).dom().insert(ft)
    &&& forall|c: Seq<char>| c != ft && #[trigger] view_bids(before).contains_key(c) ==> view_bids(after)[c] == view_bids(before)[c]
    &&& view_bids(after)[ft].owner_id@ == bidder
    &&& view_bids(after)[ft].price == amount
    &&& match refund {
        Some(t) => view_bids(before).contains_key(ft) && is_refund_of(t, ft, view_bids(before)[ft]) && amount > t.amount,
        None => !view_bids(before).contains_key(ft),
    }
}

/// Places a bid of `amount` in currency `ft_token_id` on a listing whose
/// price in that currency is `price` (0: no fixed price). A bid that reaches
/// the price is refused, for it is a purchase. A bid already held in the
/// currency must be outbid; it is then handed back as a refund.
pub fn place_bid(sale: &mut Sale, ft_token_id: String, buyer_id: String, amount: u128, price: u128) -> (r: Result<
    Option<Transfer>,
    MarketError,
>)
    requires
        sale_wf(*old(sale)),
    ensures
        match r {
            Ok(refund) => bid_step(old(sale)@, final(sale)@, ft_token_id@, buyer_id@, amount, refund) && sale_wf(*final(sale)),
            Err(e) => final(sale)@ == old(sale)@,
        },
        r == Err::<Option<Transfer>, MarketError>(MarketError::InsufficientFunds) <==> (amount == 0
            || (!(price != 0 && amount >= price) && bids_of(*old(sale)).contains_key(ft_token_id@)
            && amount <= bids_of(*old(sale))[ft_token_id@].price)),
        r == Err::<Option<Transfer>, MarketError>(MarketError::Overpaid) <==> (amount != 0 && price
            != 0 && amount >= price),
        r is Err ==> r == Err::<Option<Transfer>, MarketError>(MarketError::InsufficientFunds) || r
            == Err::<Option<Transfer>, MarketError>(MarketError::Overpaid),
{
    if amount == 0 {
        return Err(MarketError::InsufficientFunds);
    }
    if price != 0 && amount >= price {
        return Err(MarketError::Overpaid);
    }
    let ghost before = *sale;
    let new_bid = Bid { owner_id: buyer_id, price: amount };
    match find_key(&sale.bids, &ft_token_id) {
        Some(i) => {
            proof {
                lemma_key_pos(sale.bids@, i as int);
            }
            let current_price = sale.bids[i].1.price;
            if amount <= current_price {
                return Err(MarketError::InsufficientFunds);
            }
            let refund = Transfer {
                receiver_id: sale.bids[i].1.owner_id.clone(),
                amount: current_price,
                ft_token_id: ft_token_id.clone(),
            };
            proof {
                lemma_map_update(sale.bids@, i as int, (ft_token_id, new_bid));
            }
            sale.bids.set(i, (ft_token_id, new_bid));
            assert(bids_of(*sale).dom() =~= bids_of(before).dom().insert(ft_token_id@));
            Ok(Some(refund))
        },
        None => {
            proof {
                lemma_map_push(sale.bids@, (ft_token_id, new_bid));
            }
            sale.bids.push((ft_token_id, new_bid));
            assert(bids_of(*sale).dom() =~= bids_of(before).dom().insert(ft_token_id@));
            Ok(None)
        },
    }
}

/// Takes the bid held in currency `ft_token_id` off a listing.
pub fn take_bid(sale: &mut Sale, ft_token_id: &String) -> (r: Option<Bid>)
    requires
        sale_wf(*old(sale)),
    ensures
        sale_wf(*final(sale)),
        final(sale)@ == (SaleView { bids: final(sale)@.bids, ..old(sale)@ }),
        bids_of(*final(sale)) == bids_of(*old(sale)).remove(ft_token_id@),
        r == (if bids_of(*old(sale)).contains_key(ft_token_id@) {
            Some(bids_of(*old(sale))[ft_token_id@])
        } else {
            None
        }),
{
    remove_key(&mut sale.bids, ft_token_id)
}

/// One refund for each bid of `bids`, in their order.
pub open spec fn refunds_for(bids: Seq<(String, Bid)>, t: Seq<Transfer>) -> bool {
    &&& t.len() == bids.len()
    &&& forall|i: int| 0 <= i < bids.len() ==> is_refund_of(#[trigger] t[i], bids[i].0@, bids[i].1)
}

/// The refunds of every bid in `bids`.
pub fn refund_bids(bids: &Vec<(String, Bid)>) -> (r: Vec<Transfer>)
    ensures
        refunds_for(bids@, r@),
{
    let mut r: Vec<Transfer> = Vec::new();
    let mut i: usize = 0;
    while i < bids.len()
        invariant
            i <= bids@.len(),
            refunds_for(bids@.take(i as int), r@),
        decreases bids@.len() - i,
    {
        let t = Transfer {
            receiver_id: bids[i].1.owner_id.clone(),
            amount: bids[i].1.price,
            ft_token_id: bids[i].0.clone(),
        };
        r.push(t);
        i = i + 1;
    }
    assert(bids@.take(bids@.len() as int) =~= bids@);
    r
}

/// Takes every bid off a listing and returns their refunds.
pub fn drain_bids(sale: &mut Sale) -> (r: Vec<Transfer>)
    requires
        sale_wf(*old(sale)),
    ensures
        sale_wf(*final(sale)),
        final(sale)@ == (SaleView { bids: final(sale)@.bids, ..old(sale)@ }),
        final(sale).bids@.len() == 0,
        refunds_for(old(sale).bids@, r@),
{
    let r = refund_bids(&sale.bids);
    sale.bids = Vec::new();
    r
}

} // verus!
