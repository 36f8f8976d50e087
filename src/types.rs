//! The values that the engine stores and hands out.
use vstd::prelude::*;

verus! {

/// An outstanding bid: who placed it and the amount held in escrow.
pub struct Bid {
    pub owner_id: String,
    pub price: u128,
}

impl Bid {
    pub fn copy(&self) -> (r: Bid)
        ensures
            r == *self,
    {
        Bid { owner_id: self.owner_id.clone(), price: self.price }
    }
}

/// A listing: one asset of one custodian offered for sale.
pub struct Sale {
    pub owner_id: String,
    /// The custodian's approval, handed back to it on settlement.
    pub approval_id: u64,
    pub nft_contract_id: String,
    pub token_id: String,
    /// The asking price in each settlement currency.
    pub conditions: Vec<(String, u128)>,
    pub created_at: u64,
    /// A series listing stays listed after a purchase.
    pub is_series: bool,
    pub token_type: Option<String>,
    /// At most one outstanding bid per currency.
    pub bids: Vec<(String, Bid)>,
}

fn copy_prices(v: &Vec<(String, u128)>) -> (r: Vec<(String, u128)>)
    ensures
        r@ == v@,
{
    let mut r: Vec<(String, u128)> = Vec::new();
    let mut i: usize = 0;
    while i < v.len()
        invariant
            i <= v@.len(),
            r@ == v@.take(i as int),
        decreases v@.len() - i,
    {
        r.push((v[i].0.clone(), v[i].1));
        i = i + 1;
        assert(r@ =~= v@.take(i as int));
    }
    assert(v@.take(v@.len() as int) =~= v@);
    r
}

fn copy_bids(v: &Vec<(String, Bid)>) -> (r: Vec<(String, Bid)>)
    ensures
        r@ == v@,
{
    let mut r: Vec<(String, Bid)> = Vec::new();
    let mut i: usize = 0;
    while i < v.len()
        invariant
            i <= v@.len(),
            r@ == v@.take(i as int),
        decreases v@.len() - i,
    {
        r.push((v[i].0.clone(), v[i].1.copy()));
        i = i + 1;
        assert(r@ =~= v@.take(i as int));
    }
    assert(v@.take(v@.len() as int) =~= v@);
    r
}

impl Sale {
    pub fn copy(&self) -> (r: Sale)
        ensures
            r@ == self@,
    {
        let token_type = match &self.token_type {
            Some(t) => Some(t.clone()),
            None => None,
        };
        Sale {
            owner_id: self.owner_id.clone(),
            approval_id: self.approval_id,
            nft_contract_id: self.nft_contract_id.clone(),
            token_id: self.token_id.clone(),
            conditions: copy_prices(&self.conditions),
            created_at: self.created_at,
            is_series: self.is_series,
            token_type,
            bids: copy_bids(&self.bids),
        }
    }
}

/// What a listing holds, with its tables as sequences.
pub struct SaleView {
    pub owner_id: String,
    pub approval_id: u64,
    pub nft_contract_id: String,
    pub token_id: String,
    pub conditions: Seq<(String, u128)>,
    pub created_at: u64,
    pub is_series: bool,
    pub token_type: Option<String>,
    pub bids: Seq<(String, Bid)>,
}

impl View for Sale {
    type V = SaleView;

    open spec fn view(&self) -> SaleView {
        SaleView {
            owner_id: self.owner_id,
            approval_id: self.approval_id,
            nft_contract_id: self.nft_contract_id,
            token_id: self.token_id,
            conditions: self.conditions@,
            created_at: self.created_at,
            is_series: self.is_series,
            token_type: self.token_type,
            bids: self.bids@,
        }
    }
}

/// The key of a listing: the custodian and the asset.
pub open spec fn sale_key(s: Sale) -> (Seq<char>, Seq<char>) {
    (s.nft_contract_id@, s.token_id@)
}

/// A listing whose price and bid tables have one entry per currency.
pub open spec fn sale_wf(s: Sale) -> bool {
    crate::keyed::keys_unique(s.conditions@) && crate::keyed::keys_unique(s.bids@)
}

/// The outstanding bids of a listing by currency.
pub open spec fn bids_of(s: Sale) -> Map<Seq<char>, Bid> {
    crate::keyed::entries_map(s.bids@)
}

/// A price in one currency, where one is set.
pub struct Price {
    pub ft_token_id: String,
    pub price: Option<u128>,
}

/// What a buyer names when paying in a currency other than the native one.
pub struct PurchaseArgs {
    pub nft_contract_id: String,
    pub token_id: String,
}

/// What an owner asks for when approving the market for an asset.
pub struct SaleArgs {
    pub sale_conditions: Vec<(String, u128)>,
    pub token_type: String,
    pub is_auction: Option<bool>,
}

/// An outbound payment: `amount` of currency `ft_token_id` to `receiver_id`.
pub struct Transfer {
    pub receiver_id: String,
    pub amount: u128,
    pub ft_token_id: String,
}

#[derive(PartialEq, Eq, Structural, Clone, Copy, Debug)]
pub enum MarketError {
    /// No such listing, bid or currency.
    NotFound,
    /// The caller may not do this.
    Unauthorized,
    /// The listing's asset type or key is not acceptable.
    InvalidListing,
    /// Too little was paid or bid.
    InsufficientFunds,
    /// The owner's prepaid storage does not cover another listing.
    InsufficientQuota,
    /// The custodian's payout is empty or does not add up to the price.
    InvalidPayout,
    /// The payout and the bid refunds together need too many transfers.
    TooManyRecipients,
    /// Paid more than the price without asking for an issuance.
    Overpaid,
}

} // verus!
