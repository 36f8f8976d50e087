//! Properties that hold across calls and of every state.
use vstd::prelude::*;
use crate::bids::{bid_step, escrow_of, refund_amount, view_bids};
use crate::market::{Contract, STORAGE_PER_SALE};
use crate::payout::{payout_sum, PAYOUT_TOLERANCE};
use crate::registry::{
    by_contract, by_owner, by_type, entry_key, index_consistent, index_has_key, index_holds, indexed_by, lemma_sale_pos,
    listed_in, IndexEntry, SaleRegistry,
};
use crate::settlement::{payouts_for, purchase_of, PendingPurchase, Purchase, Resolution};
use crate::types::{sale_key, Sale, SaleView, Transfer};

verus! {

/// A listing is in the registry exactly when the index by owner holds it,
/// exactly when the index by custodian holds it, and it is in the index by
/// asset type exactly when it has a type.
pub proof fn law_indexes_agree(reg: SaleRegistry, k: (Seq<char>, Seq<char>))
    requires
        reg.wf(),
    ensures
        reg@.contains_key(k) == index_has_key(reg.by_owner_id@, k),
        reg@.contains_key(k) == index_has_key(reg.by_nft_contract_id@, k),
        (reg@.contains_key(k) && reg@[k].token_type is Some) == index_has_key(reg.by_nft_token_type@, k),
{
    let sales = reg.sales@;
    if reg@.contains_key(k) {
        let i = choose|i: int| 0 <= i < sales.len() && sale_key(#[trigger] sales[i]) == k;
        lemma_sale_pos(sales, i);
        assert(listed_in(sales[i], reg.by_owner_id@, by_owner()));
        assert(listed_in(sales[i], reg.by_nft_contract_id@, by_contract()));
        if reg@[k].token_type is Some {
            assert(listed_in(sales[i], reg.by_nft_token_type@, by_type()));
        }
    }
    if index_has_key(reg.by_owner_id@, k) {
        let j = choose|j: int| 0 <= j < reg.by_owner_id@.len() && entry_key(#[trigger] reg.by_owner_id@[j]) == k;
        assert(indexed_by(reg.by_owner_id@[j], sales, by_owner()));
    }
    if index_has_key(reg.by_nft_contract_id@, k) {
        let j = choose|j: int|
            0 <= j < reg.by_nft_contract_id@.len() && entry_key(#[trigger] reg.by_nft_contract_id@[j]) == k;
        assert(indexed_by(reg.by_nft_contract_id@[j], sales, by_contract()));
    }
    if index_has_key(reg.by_nft_token_type@, k) {
        let j = choose|j: int|
            0 <= j < reg.by_nft_token_type@.len() && entry_key(#[trigger] reg.by_nft_token_type@[j]) == k;
        assert(indexed_by(reg.by_nft_token_type@[j], sales, by_type()));
        let i = choose|i: int|
            0 <= i < sales.len() && sale_key(#[trigger] sales[i]) == k && (by_type())(sales[i]) == Some(
                reg.by_nft_token_type@[j].group@,
            );
        lemma_sale_pos(sales, i);
    }
}

proof fn lemma_index_holds(
    reg: SaleRegistry,
    idx: Seq<IndexEntry>,
    g: spec_fn(Sale) -> Option<Seq<char>>,
    group: Seq<char>,
    k: (Seq<char>, Seq<char>),
)
    requires
        reg.wf(),
        index_consistent(idx, reg.sales@, g),
    ensures
        index_holds(idx, group, k) == (exists|i: int|
            0 <= i < reg.sales@.len() && sale_key(#[trigger] reg.sales@[i]) == k && g(reg.sales@[i]) == Some(group)),
{
    let sales = reg.sales@;
    if index_holds(idx, group, k) {
        let j = choose|j: int| 0 <= j < idx.len() && entry_key(#[trigger] idx[j]) == k && idx[j].group@ == group;
        assert(indexed_by(idx[j], sales, g));
    }
    if exists|i: int| 0 <= i < sales.len() && sale_key(#[trigger] sales[i]) == k && g(sales[i]) == Some(group) {
        let i = choose|i: int| 0 <= i < sales.len() && sale_key(#[trigger] sales[i]) == k && g(sales[i]) == Some(group);
        assert(listed_in(sales[i], idx, g));
    }
}

/// Each index holds a key under a group exactly when the registry holds a
/// listing under that key in that group: by owner, by custodian, and by
/// asset type for a listing that has one.
pub proof fn law_indexes_match_listings(reg: SaleRegistry, k: (Seq<char>, Seq<char>), group: Seq<char>)
    requires
        reg.wf(),
    ensures
        index_holds(reg.by_owner_id@, group, k) == (reg@.contains_key(k) && reg@[k].owner_id@ == group),
        index_holds(reg.by_nft_contract_id@, group, k) == (reg@.contains_key(k) && reg@[k].nft_contract_id@
            == group),
        index_holds(reg.by_nft_token_type@, group, k) == (reg@.contains_key(k) && reg@[k].token_type is Some
            && reg@[k].token_type.unwrap()@ == group),
{
    let sales = reg.sales@;
    lemma_index_holds(reg, reg.by_owner_id@, by_owner(), group, k);
    lemma_index_holds(reg, reg.by_nft_contract_id@, by_contract(), group, k);
    lemma_index_holds(reg, reg.by_nft_token_type@, by_type(), group, k);
    if reg@.contains_key(k) {
        let i = choose|i: int| 0 <= i < sales.len() && sale_key(#[trigger] sales[i]) == k;
        lemma_sale_pos(sales, i);
        assert(sales[i]@ == reg@[k]);
    }
    assert forall|i: int| 0 <= i < sales.len() && sale_key(#[trigger] sales[i]) == k implies reg@.contains_key(k)
        && sales[i]@ == reg@[k] by {
        lemma_sale_pos(sales, i);
    }
}

/// The total of a run of amounts.
pub open spec fn amount_total(a: Seq<u128>) -> int
    decreases a.len(),
{
    if a.len() == 0 {
        0
    } else {
        amount_total(a.drop_last()) + a.last()
    }
}

/// The total that a run of optional refunds pays out.
pub open spec fn refund_total(r: Seq<Option<Transfer>>) -> int
    decreases r.len(),
{
    if r.len() == 0 {
        0
    } else {
        refund_total(r.drop_last()) + refund_amount(r.last())
    }
}

/// Over any run of accepted bids in one currency on a listing that held no
/// bid there, nothing is lost: what was refunded and what is held now add
/// up to everything that was bid.
pub proof fn law_bids_conserve_funds(
    states: Seq<SaleView>,
    ft: Seq<char>,
    bidders: Seq<Seq<char>>,
    amounts: Seq<u128>,
    refunds: Seq<Option<Transfer>>,
)
    requires
        states.len() == amounts.len() + 1,
        bidders.len() == amounts.len(),
        refunds.len() == amounts.len(),
        !view_bids(states[0]).contains_key(ft),
        forall|i: int|
            0 <= i < amounts.len() ==> #[trigger] bid_step(
                states[i],
                states[i + 1],
                ft,
                bidders[i],
                amounts[i],
                refunds[i],
            ),
    ensures
        refund_total(refunds) + escrow_of(states[amounts.len() as int], ft) == amount_total(amounts),
    decreases amounts.len(),
{
    let n = amounts.len();
    if n > 0 {
        assert forall|i: int| 0 <= i < n - 1 implies #[trigger] bid_step(
            states.drop_last()[i],
            states.drop_last()[i + 1],
            ft,
            bidders.drop_last()[i],
            amounts.drop_last()[i],
            refunds.drop_last()[i],
        ) by {
            assert(bid_step(states[i], states[i + 1], ft, bidders[i], amounts[i], refunds[i]));
        }
        law_bids_conserve_funds(states.drop_last(), ft, bidders.drop_last(), amounts.drop_last(), refunds.drop_last());
        assert(bid_step(states[n - 1], states[n as int], ft, bidders[n - 1], amounts[n - 1], refunds[n - 1]));
        assert(states.drop_last()[n - 1] == states[n - 1]);
    }
}

/// A listing is admitted only where what its owner has paid for storage,
/// with what the approval's own deposit credits, covers all the owner's
/// listings and the new one; the owner's quota then covers its listings
/// afterwards too.
pub proof fn law_admission_within_quota(
    before: Contract,
    after: Contract,
    owner_id: Seq<char>,
    credit: u128,
    k: (Seq<char>, Seq<char>),
    sale: SaleView,
)
    requires
        Contract::admitted(before, after, owner_id, credit, k, sale),
    ensures
        before.paid_of(owner_id) + credit >= (before.listing_count(owner_id) + 1) * STORAGE_PER_SALE,
        after.paid_of(owner_id) >= after.listing_count(owner_id) * STORAGE_PER_SALE,
{
}

/// The total that a run of transfers pays out.
pub open spec fn transfer_total(t: Seq<Transfer>) -> int
    decreases t.len(),
{
    if t.len() == 0 {
        0
    } else {
        transfer_total(t.drop_last()) + t.last().amount
    }
}

proof fn lemma_payouts_total(p: Seq<(String, u128)>, ft: Seq<char>, t: Seq<Transfer>)
    requires
        payouts_for(p, ft, t),
    ensures
        transfer_total(t) == payout_sum(p),
    decreases p.len(),
{
    if p.len() > 0 {
        assert forall|i: int| 0 <= i < p.drop_last().len() implies (#[trigger] t.drop_last()[i]).receiver_id
            == p.drop_last()[i].0 && t.drop_last()[i].amount == p.drop_last()[i].1 && t.drop_last()[i].ft_token_id@
            == ft by {
            assert(t[i].receiver_id == p[i].0);
        }
        lemma_payouts_total(p.drop_last(), ft, t.drop_last());
        assert(t[t.len() - 1].amount == p[p.len() - 1].1);
    }
}

/// A purchase that begins sends along with its request everything paid
/// beyond the price, so the price and what is attached account for all that
/// was paid.
pub proof fn law_purchase_accounts_for_payment(
    p: Purchase,
    k: (Seq<char>, Seq<char>),
    sale: SaleView,
    ft: Seq<char>,
    memo: Option<String>,
    paid: u128,
    price: u128,
    buyer: Seq<char>,
)
    requires
        purchase_of(p, k, sale, ft, memo, paid, price, buyer),
        paid >= price,
    ensures
        p.request.balance == price,
        p.request.balance + p.request.deposit >= paid,
        p.request.deposit >= 1,
{
}

/// Settling a purchase is all or nothing for the buyer: either the payout
/// disbursed adds up to the price, short of it by at most the tolerance, or
/// nothing changes and the buyer gets back all it paid, directly in the
/// native currency and through the return value in any other.
pub proof fn law_settlement_all_or_nothing(
    before: Contract,
    after: Contract,
    pending: PendingPurchase,
    payout: Option<Vec<(String, u128)>>,
    r: Resolution,
)
    requires
        Contract::resolves(before, after, pending, payout, r),
    ensures
        r.settled ==> {
            let paid_out = transfer_total(r.transfers@.skip(before.held_bids(pending).len() as int));
            &&& payout is Some
            &&& pending.price - PAYOUT_TOLERANCE <= paid_out <= pending.price
        },
        !r.settled ==> {
            &&& after == before
            &&& pending.ft_token_id@ == before.near_ft@ ==> {
                &&& r.transfers@.len() == 1
                &&& r.transfers@[0].receiver_id == pending.buyer_id
                &&& r.transfers@[0].amount == pending.paid
            }
            &&& pending.ft_token_id@ != before.near_ft@ ==> r.transfers@.len() == 0 && r.returned
                == pending.paid
        },
{
    if r.settled {
        let held = before.held_bids(pending);
        lemma_payouts_total(payout.unwrap()@, pending.ft_token_id@, r.transfers@.skip(held.len() as int));
    }
}

} // verus!
