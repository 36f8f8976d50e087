//! The two-phase purchase: a listing is taken off the market and the
//! custodian is asked to transfer the asset and report its payout; when the
//! answer comes, the payout is checked and either disbursed or the buyer is
//! made whole.
use vstd::prelude::*;
use crate::bids::{bid_step, drain_bids, place_bid, refund_bids, refunds_for, take_bid, view_bids};
use crate::keyed::{entries_map, find_key, lemma_key_pos};
use crate::market::Contract;
use crate::payout::{check_payout, payout_valid};
use crate::registry::sale_admissible;
use crate::types::{sale_key, MarketError, PurchaseArgs, Sale, SaleView, Transfer};

verus! {

/// The request to the custodian: transfer the asset to `receiver_id` and
/// report how `balance` is to be paid out. `deposit` is attached to it.
pub struct TransferPayoutRequest {
    pub nft_contract_id: String,
    pub receiver_id: String,
    pub token_id: String,
    pub approval_id: u64,
    /// Passed through; a custodian may read it as an issuance request.
    pub memo: Option<String>,
    pub balance: u128,
    pub deposit: u128,
}

/// What the second phase needs when the custodian answers.
pub struct PendingPurchase {
    pub ft_token_id: String,
    pub buyer_id: String,
    /// The listing as it stood when the purchase began.
    pub sale: Sale,
    pub paid: u128,
    pub price: u128,
}

/// A purchase under way: the request to send and what to keep until the
/// answer.
pub struct Purchase {
    pub request: TransferPayoutRequest,
    pub pending: PendingPurchase,
}

/// What an offer led to.
pub enum Offer {
    /// A purchase began.
    Purchase(Purchase),
    /// The offer was recorded as a bid; the bid it replaced, if any, is
    /// refunded.
    Bid(Option<Transfer>),
}

/// How a purchase ended.
pub struct Resolution {
    /// The payout was disbursed; otherwise the buyer is made whole.
    pub settled: bool,
    /// The payments to make.
    pub transfers: Vec<Transfer>,
    /// The amount handed back to the currency's own contract.
    pub returned: u128,
}

/// What is attached to the custodian's request: what was paid beyond the
/// price, and never less than 1.
pub open spec fn surplus(paid: u128, price: u128) -> u128 {
    if paid - price > 1 {
        (paid - price) as u128
    } else {
        1
    }
}

/// `p` is the purchase of the listing `sale`, under the key `k`, by
/// `buyer`, who paid `paid` in currency `ft` against `price`.
pub open spec fn purchase_of(
    p: Purchase,
    k: (Seq<char>, Seq<char>),
    sale: SaleView,
    ft: Seq<char>,
    memo: Option<String>,
    paid: u128,
    price: u128,
    buyer: Seq<char>,
) -> bool {
    &&& p.request.nft_contract_id@ == k.0
    &&& p.request.token_id@ == k.1
    &&& p.request.receiver_id@ == buyer
    &&& p.request.approval_id == sale.approval_id
    &&& p.request.memo == memo
    &&& p.request.balance == price
    &&& p.request.deposit == surplus(paid, price)
    &&& p.pending.ft_token_id@ == ft
    &&& p.pending.buyer_id@ == buyer
    &&& p.pending.sale@ == sale
    &&& p.pending.paid == paid
    &&& p.pending.price == price
}

/// The listings once a purchase of the listing `sale` under the key `k` has
/// begun: a series listing stays.
pub open spec fn listed_after_purchase(
    sales: Map<(Seq<char>, Seq<char>), SaleView>,
    k: (Seq<char>, Seq<char>),
    sale: SaleView,
) -> Map<(Seq<char>, Seq<char>), SaleView> {
    if sale.is_series {
        sales
    } else {
        sales.remove(k)
    }
}

/// One payment of currency `ft` for each entry of the payout, in its order.
pub open spec fn payouts_for(p: Seq<(String, u128)>, ft: Seq<char>, t: Seq<Transfer>) -> bool {
    &&& t.len() == p.len()
    &&& forall|i: int|
        0 <= i < p.len() ==> (#[trigger] t[i]).receiver_id == p[i].0 && t[i].amount == p[i].1
            && t[i].ft_token_id@ == ft
}

impl Contract {
    /// The bids that settling `pending` refunds: those of the listing as it
    /// was taken off the market, or, for a series listing, those it holds
    /// now (none once it was taken down, which refunded them).
    pub open spec fn held_bids(&self, pending: PendingPurchase) -> Seq<(String, crate::types::Bid)> {
        let k = sale_key(pending.sale);
        if !pending.sale.is_series {
            pending.sale.bids@
        } else if self.sales@.contains_key(k) {
            self.sales@[k].bids
        } else {
            Seq::empty()
        }
    }

    /// `r` is how the purchase `pending` ends on the custodian's answer
    /// `payout`, the market going from `before` to `after`.
    pub open spec fn resolves(
        before: Contract,
        after: Contract,
        pending: PendingPurchase,
        payout: Option<Vec<(String, u128)>>,
        r: Resolution,
    ) -> bool {
        let held = before.held_bids(pending);
        let native = pending.ft_token_id@ == before.near_ft@;
        let valid = match payout {
            Some(p) => payout_valid(p@, held.len(), pending.price),
            None => false,
        };
        &&& r.settled == valid
        &&& !valid ==> {
            &&& after == before
            &&& r.returned == pending.paid
            &&& r.transfers@ == if native {
                seq![
                    Transfer {
                        receiver_id: pending.buyer_id,
                        amount: pending.paid,
                        ft_token_id: pending.ft_token_id,
                    },
                ]
            } else {
                Seq::<Transfer>::empty()
            }
        }
        &&& valid ==> {
            &&& r.returned == if native {
                pending.price
            } else {
                0
            }
            &&& r.transfers@.len() == held.len() + payout.unwrap()@.len()
            &&& refunds_for(held, r.transfers@.take(held.len() as int))
            &&& payouts_for(payout.unwrap()@, pending.ft_token_id@, r.transfers@.skip(held.len() as int))
            &&& after.sales@ == if pending.sale.is_series && before.sales@.contains_key(
                sale_key(pending.sale),
            ) {
                before.sales@.insert(
                    sale_key(pending.sale),
                    SaleView { bids: Seq::empty(), ..before.sales@[sale_key(pending.sale)] },
                )
            } else {
                before.sales@
            }
            &&& after.storage_deposits == before.storage_deposits
            &&& after.ft_token_ids == before.ft_token_ids
            &&& after.near_ft == before.near_ft
            &&& after.owner_id == before.owner_id
        }
    }

    /// Begins the purchase of `sale`, listed under `nft_contract_id` and
    /// `token_id`, by `buyer_id`, who paid `paid` in `ft_token_id` against
    /// `price`. A listing that is not a series leaves the market.
    pub fn process_purchase(
        &mut self,
        sale: Sale,
        nft_contract_id: String,
        token_id: String,
        ft_token_id: String,
        msg: Option<String>,
        paid: u128,
        price: u128,
        buyer_id: String,
    ) -> (r: Result<Purchase, MarketError>)
        requires
            old(self).wf(),
        ensures
            final(self).wf(),
            match r {
                Ok(p) => {
                    &&& paid >= price
                    &&& purchase_of(p, (nft_contract_id@, token_id@), sale@, ft_token_id@, msg, paid, price, buyer_id@)
                    &&& final(self).sales@ == listed_after_purchase(old(self).sales@, (nft_contract_id@, token_id@), sale@)
                    &&& final(self).storage_deposits == old(self).storage_deposits
                    &&& final(self).ft_token_ids == old(self).ft_token_ids
                    &&& final(self).near_ft == old(self).near_ft
                    &&& final(self).owner_id == old(self).owner_id
                },
                Err(e) => e == MarketError::InsufficientFunds && paid < price && *final(self) == *old(self),
            },
    {
        if paid < price {
            return Err(MarketError::InsufficientFunds);
        }
        if !sale.is_series {
            match self.sales.find(&nft_contract_id, &token_id) {
                Some(i) => {
                    self.sales.remove_at(i);
                },
                None => {
                    assert(self.sales@.remove((nft_contract_id@, token_id@)) =~= self.sales@);
                },
            }
        }
        let mut deposit = paid - price;
        if deposit < 1 {
            deposit = 1;
        }
        let request = TransferPayoutRequest {
            nft_contract_id,
            receiver_id: buyer_id.clone(),
            token_id,
            approval_id: sale.approval_id,
            memo: msg,
            balance: price,
            deposit,
        };
        let pending = PendingPurchase { ft_token_id, buyer_id, sale, paid, price };
        Ok(Purchase { request, pending })
    }

    /// Ends a purchase once the custodian has answered: `payout` is what it
    /// reported, `None` where its call failed or its answer could not be
    /// read. A payout that checks out is disbursed and the listing's other
    /// bids refunded. Otherwise the buyer is made whole: refunded directly in
    /// the native currency, or handed back through the return value in any
    /// other.
    pub fn resolve_purchase(&mut self, pending: PendingPurchase, payout: Option<Vec<(String, u128)>>) -> (r: Resolution)
        requires
            old(self).wf(),
        ensures
            final(self).wf(),
            Contract::resolves(*old(self), *final(self), pending, payout, r),
    {
        let native = pending.ft_token_id == self.near_ft;
        let found = if pending.sale.is_series {
            self.sales.find(&pending.sale.nft_contract_id, &pending.sale.token_id)
        } else {
            None
        };
        let bid_count = if pending.sale.is_series {
            match found {
                Some(i) => self.sales.sales[i].bids.len(),
                None => 0,
            }
        } else {
            pending.sale.bids.len()
        };
        let payout = match payout {
            Some(p) => {
                if check_payout(&p, bid_count, pending.price).is_ok() {
                    Some(p)
                } else {
                    None
                }
            },
            None => None,
        };
        let payout = match payout {
            Some(p) => p,
            None => {
                let mut transfers: Vec<Transfer> = Vec::new();
                if native {
                    transfers.push(
                        Transfer {
                            receiver_id: pending.buyer_id,
                            amount: pending.paid,
                            ft_token_id: pending.ft_token_id,
                        },
                    );
                }
                return Resolution { settled: false, transfers, returned: pending.paid };
            },
        };
        let ghost held = self.held_bids(pending);
        let mut transfers = if pending.sale.is_series {
            match found {
                Some(i) => {
                    let mut listing = self.sales.sales[i].copy();
                    proof {
                        assert(sale_admissible(self.sales.sales@[i as int]));
                    }
                    let refunds = drain_bids(&mut listing);
                    assert(listing.bids@ =~= Seq::<(String, crate::types::Bid)>::empty());
                    self.sales.replace_at(i, listing);
                    refunds
                },
                None => Vec::new(),
            }
        } else {
            refund_bids(&pending.sale.bids)
        };
        let n = transfers.len();
        let mut j: usize = 0;
        while j < payout.len()
            invariant
                j <= payout@.len(),
                n == held.len(),
                transfers@.len() == n + j,
                refunds_for(held, transfers@.take(n as int)),
                payouts_for(payout@.take(j as int), pending.ft_token_id@, transfers@.skip(n as int)),
            decreases payout@.len() - j,
        {
            let ghost prev = transfers@;
            transfers.push(
                Transfer {
                    receiver_id: payout[j].0.clone(),
                    amount: payout[j].1,
                    ft_token_id: pending.ft_token_id.clone(),
                },
            );
            assert(transfers@.take(n as int) =~= prev.take(n as int));
            assert(transfers@.skip(n as int) =~= prev.skip(n as int).push(transfers@[n + j]));
            j = j + 1;
            assert forall|a: int| 0 <= a < j implies (#[trigger] transfers@.skip(n as int)[a]).receiver_id
                == payout@.take(j as int)[a].0 && transfers@.skip(n as int)[a].amount == payout@.take(j as int)[a].1
                && transfers@.skip(n as int)[a].ft_token_id@ == pending.ft_token_id@ by {
                if a < j - 1 {
                    assert(payout@.take(j as int)[a] == payout@.take(j - 1)[a]);
                    assert(transfers@.skip(n as int)[a] == prev.skip(n as int)[a]);
                }
            }
        }
        assert(payout@.take(payout@.len() as int) =~= payout@);
        let returned = if native {
            pending.price
        } else {
            0
        };
        Resolution { settled: true, transfers, returned }
    }

    /// `r` is what an offer of `deposit` in currency `ft` by `buyer_id` on
    /// the listing under `k` led to, the market going from `before` to
    /// `after`: a purchase where the price is paid exactly, or more with a
    /// memo; otherwise a bid.
    pub open spec fn offered(
        before: Contract,
        after: Contract,
        k: (Seq<char>, Seq<char>),
        ft: Seq<char>,
        msg: Option<String>,
        buyer_id: Seq<char>,
        deposit: u128,
        r: Result<Offer, MarketError>,
    ) -> bool {
        match before.offer_error(k, ft, msg is Some, buyer_id, deposit) {
            Some(e) => r == Err::<Offer, MarketError>(e) && after == before,
            None => {
                let s = before.sales@[k];
                let price = entries_map(s.conditions)[ft];
                &&& after.storage_deposits == before.storage_deposits
                &&& after.ft_token_ids == before.ft_token_ids
                &&& after.near_ft == before.near_ft
                &&& after.owner_id == before.owner_id
                &&& match r {
                    Ok(Offer::Purchase(p)) => {
                        &&& (deposit == price || msg is Some)
                        &&& purchase_of(p, k, s, ft, msg, deposit, price, buyer_id)
                        &&& after.sales@ == listed_after_purchase(before.sales@, k, s)
                    },
                    Ok(Offer::Bid(refund)) => {
                        &&& !(deposit == price || msg is Some)
                        &&& after.sales@ == before.sales@.insert(k, after.sales@[k])
                        &&& bid_step(s, after.sales@[k], ft, buyer_id, deposit, refund)
                    },
                    Err(_) => false,
                }
            },
        }
    }

    /// Why an offer of `deposit` in currency `ft` by `buyer` on the listing
    /// under `k` is refused.
    pub open spec fn offer_error(
        &self,
        k: (Seq<char>, Seq<char>),
        ft: Seq<char>,
        has_memo: bool,
        buyer: Seq<char>,
        deposit: u128,
    ) -> Option<MarketError> {
        if !self.sales@.contains_key(k) {
            Some(MarketError::NotFound)
        } else {
            let s = self.sales@[k];
            let prices = entries_map(s.conditions);
            if !s.is_series && s.owner_id@ == buyer {
                Some(MarketError::Unauthorized)
            } else if !prices.contains_key(ft) {
                Some(MarketError::NotFound)
            } else if deposit == 0 {
                Some(MarketError::InsufficientFunds)
            } else {
                let price = prices[ft];
                if deposit == price || has_memo {
                    if deposit < price || (has_memo && deposit == price) {
                        Some(MarketError::InsufficientFunds)
                    } else {
                        None
                    }
                } else if price != 0 && deposit >= price {
                    Some(MarketError::Overpaid)
                } else if view_bids(s).contains_key(ft) && deposit <= view_bids(s)[ft].price {
                    Some(MarketError::InsufficientFunds)
                } else {
                    None
                }
            }
        }
    }

    fn offer_in(
        &mut self,
        nft_contract_id: String,
        token_id: String,
        ft_token_id: String,
        msg: Option<String>,
        buyer_id: String,
        deposit: u128,
    ) -> (r: Result<Offer, MarketError>)
        requires
            old(self).wf(),
        ensures
            final(self).wf(),
            Contract::offered(
                *old(self),
                *final(self),
                (nft_contract_id@, token_id@),
                ft_token_id@,
                msg,
                buyer_id@,
                deposit,
                r,
            ),
    {
        let i = match self.sales.find(&nft_contract_id, &token_id) {
            Some(i) => i,
            None => {
                return Err(MarketError::NotFound);
            },
        };
        if !self.sales.sales[i].is_series && self.sales.sales[i].owner_id == buyer_id {
            return Err(MarketError::Unauthorized);
        }
        proof {
            assert(sale_admissible(self.sales.sales@[i as int]));
        }
        let price = match find_key(&self.sales.sales[i].conditions, &ft_token_id) {
            Some(j) => {
                proof {
                    lemma_key_pos(self.sales.sales@[i as int].conditions@, j as int);
                }
                self.sales.sales[i].conditions[j].1
            },
            None => {
                return Err(MarketError::NotFound);
            },
        };
        if deposit == 0 {
            return Err(MarketError::InsufficientFunds);
        }
        let has_memo = msg.is_some();
        if deposit == price || has_memo {
            if deposit < price {
                return Err(MarketError::InsufficientFunds);
            }
            if has_memo && deposit == price {
                return Err(MarketError::InsufficientFunds);
            }
            let sale = self.sales.sales[i].copy();
            match self.process_purchase(sale, nft_contract_id, token_id, ft_token_id, msg, deposit, price, buyer_id) {
                Ok(p) => Ok(Offer::Purchase(p)),
                Err(e) => Err(e),
            }
        } else {
            match self.add_bid(nft_contract_id, token_id, price, deposit, ft_token_id, buyer_id) {
                Ok(refund) => Ok(Offer::Bid(refund)),
                Err(e) => Err(e),
            }
        }
    }

    /// An offer of `deposit` in the native currency on a listing. Paying the
    /// price exactly, or paying more along with a memo that asks the
    /// custodian to issue the asset, begins a purchase; any other amount is
    /// placed as a bid.
    pub fn offer(
        &mut self,
        nft_contract_id: String,
        token_id: String,
        msg: Option<String>,
        buyer_id: String,
        deposit: u128,
    ) -> (r: Result<Offer, MarketError>)
        requires
            old(self).wf(),
        ensures
            final(self).wf(),
            Contract::offered(
                *old(self),
                *final(self),
                (nft_contract_id@, token_id@),
                old(self).near_ft@,
                msg,
                buyer_id@,
                deposit,
                r,
            ),
    {
        let ft = self.near_ft.clone();
        self.offer_in(nft_contract_id, token_id, ft, msg, buyer_id, deposit)
    }

    /// An offer paid in the currency whose contract `predecessor_id`
    /// transferred `amount` of it from `sender_id`, on the listing that `msg`
    /// names: a purchase where it pays the price there exactly, a bid
    /// otherwise.
    pub fn ft_on_transfer(
        &mut self,
        sender_id: String,
        amount: u128,
        msg: PurchaseArgs,
        predecessor_id: String,
    ) -> (r: Result<Offer, MarketError>)
        requires
            old(self).wf(),
        ensures
            final(self).wf(),
            Contract::offered(
                *old(self),
                *final(self),
                (msg.nft_contract_id@, msg.token_id@),
                predecessor_id@,
                None,
                sender_id@,
                amount,
                r,
            ),
    {
        let PurchaseArgs { nft_contract_id, token_id } = msg;
        self.offer_in(nft_contract_id, token_id, predecessor_id, None, sender_id, amount)
    }

    /// Places a bid of `amount` in `ft_token_id` on a listing whose price
    /// there is `price` (0: none). A bid that reaches the price is refused;
    /// a bid already held in the currency must be outbid, and is refunded.
    pub fn add_bid(
        &mut self,
        nft_contract_id: String,
        token_id: String,
        price: u128,
        amount: u128,
        ft_token_id: String,
        buyer_id: String,
    ) -> (r: Result<Option<Transfer>, MarketError>)
        requires
            old(self).wf(),
        ensures
            final(self).wf(),
            ({
                let k = (nft_contract_id@, token_id@);
                match r {
                    Ok(refund) => {
                        &&& old(self).sales@.contains_key(k)
                        &&& amount != 0
                        &&& !(price != 0 && amount >= price)
                        &&& final(self).sales@ == old(self).sales@.insert(k, final(self).sales@[k])
                        &&& bid_step(old(self).sales@[k], final(self).sales@[k], ft_token_id@, buyer_id@, amount, refund)
                        &&& final(self).storage_deposits == old(self).storage_deposits
                        &&& final(self).ft_token_ids == old(self).ft_token_ids
                        &&& final(self).near_ft == old(self).near_ft
                        &&& final(self).owner_id == old(self).owner_id
                    },
                    Err(e) => *final(self) == *old(self) && if !old(self).sales@.contains_key(k) {
                        e == MarketError::NotFound
                    } else {
                        let bids = view_bids(old(self).sales@[k]);
                        if amount == 0 {
                            e == MarketError::InsufficientFunds
                        } else if price != 0 && amount >= price {
                            e == MarketError::Overpaid
                        } else {
                            e == MarketError::InsufficientFunds && bids.contains_key(ft_token_id@) && amount
                                <= bids[ft_token_id@].price
                        }
                    },
                }
            }),
            ({
                let k = (nft_contract_id@, token_id@);
                let bids = view_bids(old(self).sales@[k]);
                old(self).sales@.contains_key(k) && amount != 0 && !(price != 0 && amount >= price) && !(
                bids.contains_key(ft_token_id@) && amount <= bids[ft_token_id@].price) ==> r is Ok
            }),
    {
        let i = match self.sales.find(&nft_contract_id, &token_id) {
            Some(i) => i,
            None => {
                return Err(MarketError::NotFound);
            },
        };
        let mut sale = self.sales.sales[i].copy();
        proof {
            assert(sale_admissible(self.sales.sales@[i as int]));
        }
        let refund = match place_bid(&mut sale, ft_token_id, buyer_id, amount, price) {
            Ok(refund) => refund,
            Err(e) => {
                return Err(e);
            },
        };
        self.sales.replace_at(i, sale);
        Ok(refund)
    }

    /// The owner of a listing accepts the bid held in `ft_token_id`: the bid
    /// leaves the listing and a purchase at the bid's amount begins.
    pub fn accept_offer(
        &mut self,
        nft_contract_id: String,
        token_id: String,
        ft_token_id: String,
        predecessor_id: String,
    ) -> (r: Result<Purchase, MarketError>)
        requires
            old(self).wf(),
        ensures
            final(self).wf(),
            ({
                let k = (nft_contract_id@, token_id@);
                match r {
                    Ok(p) => {
                        let s = old(self).sales@[k];
                        let b = view_bids(s)[ft_token_id@];
                        &&& old(self).sales@.contains_key(k)
                        &&& s.owner_id@ == predecessor_id@
                        &&& view_bids(s).contains_key(ft_token_id@)
                        &&& p.pending.sale@ == (SaleView { bids: p.pending.sale@.bids, ..s })
                        &&& view_bids(p.pending.sale@) == view_bids(s).remove(ft_token_id@)
                        &&& purchase_of(p, k, p.pending.sale@, ft_token_id@, None, b.price, b.price, b.owner_id@)
                        &&& final(self).sales@ == listed_after_purchase(
                            old(self).sales@.insert(k, p.pending.sale@),
                            k,
                            p.pending.sale@,
                        )
                        &&& final(self).storage_deposits == old(self).storage_deposits
                        &&& final(self).ft_token_ids == old(self).ft_token_ids
                        &&& final(self).near_ft == old(self).near_ft
                        &&& final(self).owner_id == old(self).owner_id
                    },
                    Err(e) => *final(self) == *old(self) && if !old(self).sales@.contains_key(k) {
                        e == MarketError::NotFound
                    } else if old(self).sales@[k].owner_id@ != predecessor_id@ {
                        e == MarketError::Unauthorized
                    } else {
                        e == MarketError::NotFound && !view_bids(old(self).sales@[k]).contains_key(ft_token_id@)
                    },
                }
            }),
    {
        let i = match self.sales.find(&nft_contract_id, &token_id) {
            Some(i) => i,
            None => {
                return Err(MarketError::NotFound);
            },
        };
        if self.sales.sales[i].owner_id != predecessor_id {
            return Err(MarketError::Unauthorized);
        }
        let mut sale = self.sales.sales[i].copy();
        proof {
            assert(sale_admissible(self.sales.sales@[i as int]));
        }
        let bid = match take_bid(&mut sale, &ft_token_id) {
            Some(bid) => bid,
            None => {
                return Err(MarketError::NotFound);
            },
        };
        let snapshot = sale.copy();
        self.sales.replace_at(i, sale);
        match self.process_purchase(
            snapshot,
            nft_contract_id,
            token_id,
            ft_token_id,
            None,
            bid.price,
            bid.price,
            bid.owner_id,
        ) {
            Ok(p) => Ok(p),
            Err(e) => Err(e),
        }
    }
}

} // verus!
