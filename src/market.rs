//! The market: listings, bids and storage quotas, and the entry points that
//! the runtime calls with the caller, the deposit and the outside responses.
use vstd::prelude::*;
use crate::keyed::{entries_map, find_key, keys_unique, lemma_key_pos, upsert};
use crate::bids::{refund_bids, refunds_for};
use crate::registry::{sale_admissible, SaleRegistry};
use crate::text::{contains_str, is_substring};
use crate::types::{MarketError, Sale, SaleArgs, SaleView, Transfer};

verus! {

/// The storage that one listing takes, paid for in advance: 1000 bytes at
/// 10^19 yoctoNEAR a byte.
pub const STORAGE_PER_SALE: u128 = 10_000_000_000_000_000_000_000;

pub struct Contract {
    /// The native currency.
    pub near_ft: String,
    pub owner_id: String,
    pub sales: SaleRegistry,
    /// The settlement currencies that listings may be priced in.
    pub ft_token_ids: Vec<String>,
    /// What each account has paid for listing storage.
    pub storage_deposits: Vec<(String, u128)>,
}

/// What an approval credits to its owner's storage quota: the attached
/// deposit, up to one listing's storage.
pub open spec fn approval_credit(attached_deposit: u128) -> u128 {
    if attached_deposit < STORAGE_PER_SALE {
        attached_deposit
    } else {
        STORAGE_PER_SALE
    }
}

/// Whether `c` is among the currencies `ids`.
pub open spec fn in_ids(ids: Seq<String>, c: Seq<char>) -> bool {
    exists|i: int| 0 <= i < ids.len() && (#[trigger] ids[i])@ == c
}

proof fn lemma_in_ids_push(ids: Seq<String>, x: String, c: Seq<char>)
    ensures
        in_ids(ids.push(x), c) == (in_ids(ids, c) || x@ == c),
{
    let t = ids.push(x);
    if in_ids(ids, c) {
        let k = choose|k: int| 0 <= k < ids.len() && (#[trigger] ids[k])@ == c;
        assert(t[k] == ids[k]);
    }
    if x@ == c {
        assert(t[ids.len() as int] == x);
    }
    if in_ids(t, c) {
        let k = choose|k: int| 0 <= k < t.len() && (#[trigger] t[k])@ == c;
        if k < ids.len() {
            assert(t[k] == ids[k]);
        }
    }
}

fn contains_id(ids: &Vec<String>, c: &String) -> (r: bool)
    ensures
        r == in_ids(ids@, c@),
{
    let mut i: usize = 0;
    while i < ids.len()
        invariant
            i <= ids@.len(),
            forall|j: int| 0 <= j < i ==> (#[trigger] ids@[j])@ != c@,
        decreases ids@.len() - i,
    {
        if ids[i] == *c {
            return true;
        }
        i = i + 1;
    }
    false
}

impl Contract {
    pub open spec fn wf(&self) -> bool {
        &&& self.sales.wf()
        &&& keys_unique(self.storage_deposits@)
    }

    /// The currency is accepted for settlement.
    pub open spec fn supports(&self, c: Seq<char>) -> bool {
        in_ids(self.ft_token_ids@, c)
    }

    /// What `p` has paid for listing storage.
    pub open spec fn paid_of(&self, p: Seq<char>) -> int {
        let m = entries_map(self.storage_deposits@);
        if m.contains_key(p) {
            m[p] as int
        } else {
            0
        }
    }

    /// The number of listings that `p` holds.
    pub open spec fn listing_count(&self, p: Seq<char>) -> nat {
        self.sales.owner_count(p)
    }

    /// A market owned by `owner_id` that settles in the native currency and
    /// in `ft_token_ids`.
    pub fn new(owner_id: String, ft_token_ids: Option<Vec<String>>) -> (r: Contract)
        ensures
            r.wf(),
            r.near_ft@ == "near"@,
            r.owner_id == owner_id,
            r.sales@ == Map::<(Seq<char>, Seq<char>), crate::types::SaleView>::empty(),
            r.storage_deposits@.len() == 0,
            forall|c: Seq<char>|
                #[trigger] r.supports(c) == (c == "near"@ || match ft_token_ids {
                    Some(ids) => in_ids(ids@, c),
                    None => false,
                }),
    {
        let near_ft = "near".to_owned();
        let mut ids: Vec<String> = Vec::new();
        ids.push(near_ft.clone());
        let mut this = Contract {
            near_ft,
            owner_id,
            sales: SaleRegistry::new(),
            ft_token_ids: ids,
            storage_deposits: Vec::new(),
        };
        assert(this.ft_token_ids@[0]@ == "near"@);
        if let Some(extra) = ft_token_ids {
            this.add_ids(&extra);
        }
        this
    }

    /// Adds each currency of `ids` not yet accepted; says for each whether
    /// it was new.
    fn add_ids(&mut self, ids: &Vec<String>) -> (r: Vec<bool>)
        ensures
            final(self).sales == old(self).sales,
            final(self).storage_deposits == old(self).storage_deposits,
            final(self).near_ft == old(self).near_ft,
            final(self).owner_id == old(self).owner_id,
            forall|c: Seq<char>| #[trigger] final(self).supports(c) == (old(self).supports(c) || in_ids(ids@, c)),
            r@.len() == ids@.len(),
            forall|i: int|
                0 <= i < ids@.len() ==> #[trigger] r@[i] == !(old(self).supports(ids@[i]@) || in_ids(
                    ids@.take(i),
                    ids@[i]@,
                )),
    {
        let mut r: Vec<bool> = Vec::new();
        let mut i: usize = 0;
        while i < ids.len()
            invariant
                i <= ids@.len(),
                self.sales == old(self).sales,
                self.storage_deposits == old(self).storage_deposits,
                self.near_ft == old(self).near_ft,
                self.owner_id == old(self).owner_id,
                forall|c: Seq<char>|
                    #[trigger] self.supports(c) == (old(self).supports(c) || in_ids(ids@.take(i as int), c)),
                r@.len() == i,
                forall|j: int|
                    0 <= j < i ==> #[trigger] r@[j] == !(old(self).supports(ids@[j]@) || in_ids(
                        ids@.take(j),
                        ids@[j]@,
                    )),
            decreases ids@.len() - i,
        {
            let ghost prev = self.ft_token_ids@;
            assert(self.supports(ids@[i as int]@) == (old(self).supports(ids@[i as int]@) || in_ids(
                ids@.take(i as int),
                ids@[i as int]@,
            )));
            assert forall|c: Seq<char>|
                #[trigger] in_ids(prev, c) == (old(self).supports(c) || in_ids(ids@.take(i as int), c)) by {
                assert(self.supports(c) == in_ids(prev, c));
            }
            let is_new = !contains_id(&self.ft_token_ids, &ids[i]);
            if is_new {
                self.ft_token_ids.push(ids[i].clone());
            }
            r.push(is_new);
            proof {
                assert(ids@.take(i + 1) =~= ids@.take(i as int).push(ids@[i as int]));
                assert forall|c: Seq<char>|
                    #[trigger] self.supports(c) == (old(self).supports(c) || in_ids(ids@.take(i + 1), c)) by {
                    lemma_in_ids_push(ids@.take(i as int), ids@[i as int], c);
                    if is_new {
                        lemma_in_ids_push(prev, ids@[i as int], c);
                    }
                }
            }
            i = i + 1;
        }
        assert(ids@.take(ids@.len() as int) =~= ids@);
        r
    }

    /// Adds settlement currencies; only the market's owner may.
    pub fn add_ft_token_ids(&mut self, ft_token_ids: Vec<String>, predecessor_id: String) -> (r: Result<
        Vec<bool>,
        MarketError,
    >)
        requires
            old(self).wf(),
        ensures
            final(self).wf(),
            match r {
                Ok(added) => {
                    &&& predecessor_id@ == old(self).owner_id@
                    &&& final(self).sales == old(self).sales
                    &&& final(self).storage_deposits == old(self).storage_deposits
                    &&& forall|c: Seq<char>| #[trigger] final(self).supports(c) == (old(self).supports(c) || in_ids(ft_token_ids@, c))
                    &&& added@.len() == ft_token_ids@.len()
                    &&& forall|i: int|
                        0 <= i < ft_token_ids@.len() ==> #[trigger] added@[i] == !(old(self).supports(ft_token_ids@[i]@)
                            || in_ids(ft_token_ids@.take(i), ft_token_ids@[i]@))
                },
                Err(e) => e == MarketError::Unauthorized && predecessor_id@ != old(self).owner_id@
                    && *final(self) == *old(self),
            },
    {
        if predecessor_id != self.owner_id {
            return Err(MarketError::Unauthorized);
        }
        Ok(self.add_ids(&ft_token_ids))
    }

    /// Whether the currency is accepted for settlement.
    pub fn is_supported(&self, ft_token_id: &String) -> (r: bool)
        ensures
            r == self.supports(ft_token_id@),
    {
        contains_id(&self.ft_token_ids, ft_token_id)
    }

    /// The currencies accepted for settlement.
    pub fn supported_ft_token_ids(&self) -> (r: Vec<String>)
        ensures
            forall|c: Seq<char>| #[trigger] in_ids(r@, c) == self.supports(c),
    {
        let mut r: Vec<String> = Vec::new();
        let mut i: usize = 0;
        while i < self.ft_token_ids.len()
            invariant
                i <= self.ft_token_ids@.len(),
                r@ == self.ft_token_ids@.take(i as int),
            decreases self.ft_token_ids@.len() - i,
        {
            r.push(self.ft_token_ids[i].clone());
            i = i + 1;
            assert(r@ =~= self.ft_token_ids@.take(i as int));
        }
        assert(self.ft_token_ids@.take(self.ft_token_ids@.len() as int) =~= self.ft_token_ids@);
        r
    }

    /// The storage that one listing takes.
    pub fn storage_amount(&self) -> (r: u128)
        ensures
            r == STORAGE_PER_SALE,
    {
        STORAGE_PER_SALE
    }

    /// What `account_id` has paid for listing storage.
    pub fn storage_paid(&self, account_id: &String) -> (r: u128)
        requires
            self.wf(),
        ensures
            r == self.paid_of(account_id@),
    {
        match find_key(&self.storage_deposits, account_id) {
            Some(i) => {
                proof {
                    lemma_key_pos(self.storage_deposits@, i as int);
                }
                self.storage_deposits[i].1
            },
            None => 0,
        }
    }

    /// The number of listings that `account_id` holds.
    pub fn get_supply_by_owner_id(&self, account_id: &String) -> (r: usize)
        ensures
            r == self.listing_count(account_id@),
    {
        crate::registry::count_group(&self.sales.by_owner_id, account_id)
    }

    /// Credits the attached deposit to `account_id` (by default the caller)
    /// as payment for listing storage. A payment below the storage of one
    /// listing is refused.
    pub fn storage_deposit(
        &mut self,
        account_id: Option<String>,
        predecessor_id: String,
        attached_deposit: u128,
    ) -> (r: Result<(), MarketError>)
        requires
            old(self).wf(),
            old(self).paid_of(
                match account_id {
                    Some(a) => a@,
                    None => predecessor_id@,
                },
            ) + attached_deposit <= u128::MAX,
        ensures
            final(self).wf(),
            ({
                let acct = match account_id {
                    Some(a) => a@,
                    None => predecessor_id@,
                };
                match r {
                    Ok(()) => {
                        &&& attached_deposit >= STORAGE_PER_SALE
                        &&& final(self).paid_of(acct) == old(self).paid_of(acct) + attached_deposit
                        &&& forall|p: Seq<char>| p != acct ==> #[trigger] final(self).paid_of(p) == old(self).paid_of(p)
                        &&& final(self).sales == old(self).sales
                        &&& final(self).ft_token_ids == old(self).ft_token_ids
                        &&& final(self).owner_id == old(self).owner_id
                        &&& final(self).near_ft == old(self).near_ft
                    },
                    Err(e) => e == MarketError::InsufficientFunds && attached_deposit < STORAGE_PER_SALE
                        && *final(self) == *old(self),
                }
            }),
    {
        let storage_account_id = match account_id {
            Some(a) => a,
            None => predecessor_id,
        };
        if attached_deposit < STORAGE_PER_SALE {
            return Err(MarketError::InsufficientFunds);
        }
        let balance = self.storage_paid(&storage_account_id);
        self.credit(storage_account_id, balance + attached_deposit);
        Ok(())
    }

    /// Sets what `account_id` has paid to `balance`.
    fn credit(&mut self, account_id: String, balance: u128)
        requires
            old(self).wf(),
        ensures
            final(self).wf(),
            final(self).paid_of(account_id@) == balance,
            forall|p: Seq<char>| p != account_id@ ==> #[trigger] final(self).paid_of(p) == old(self).paid_of(p),
            final(self).sales == old(self).sales,
            final(self).ft_token_ids == old(self).ft_token_ids,
            final(self).owner_id == old(self).owner_id,
            final(self).near_ft == old(self).near_ft,
    {
        upsert(&mut self.storage_deposits, account_id, balance);
    }

    /// Hands the caller back what it paid for storage beyond what its
    /// listings take, leaving exactly that much paid. Where it has paid less
    /// than its listings take, nothing changes.
    pub fn storage_withdraw(&mut self, predecessor_id: String) -> (r: Result<u128, MarketError>)
        requires
            old(self).wf(),
        ensures
            final(self).wf(),
            ({
                let consumed = old(self).listing_count(predecessor_id@) * STORAGE_PER_SALE;
                match r {
                    Ok(amount) => {
                        &&& old(self).paid_of(predecessor_id@) >= consumed
                        &&& amount == old(self).paid_of(predecessor_id@) - consumed
                        &&& final(self).paid_of(predecessor_id@) == consumed
                        &&& forall|p: Seq<char>| p != predecessor_id@ ==> #[trigger] final(self).paid_of(p) == old(self).paid_of(p)
                        &&& final(self).sales == old(self).sales
                        &&& final(self).ft_token_ids == old(self).ft_token_ids
                    },
                    Err(e) => e == MarketError::InsufficientQuota && old(self).paid_of(predecessor_id@) < consumed
                        && *final(self) == *old(self),
                }
            }),
    {
        let paid = self.storage_paid(&predecessor_id);
        let count = self.get_supply_by_owner_id(&predecessor_id);
        let consumed = (count as u128).checked_mul(STORAGE_PER_SALE);
        match consumed {
            Some(consumed) => {
                if paid < consumed {
                    return Err(MarketError::InsufficientQuota);
                }
                self.credit(predecessor_id, consumed);
                Ok(paid - consumed)
            },
            None => Err(MarketError::InsufficientQuota),
        }
    }

    /// The listing under the given key.
    pub fn get_sale(&self, nft_contract_id: &String, token_id: &String) -> (r: Option<Sale>)
        requires
            self.wf(),
        ensures
            match r {
                Some(s) => self.sales@.contains_key((nft_contract_id@, token_id@)) && s@ == self.sales@[(
                    nft_contract_id@,
                    token_id@,
                )],
                None => !self.sales@.contains_key((nft_contract_id@, token_id@)),
            },
    {
        match self.sales.find(nft_contract_id, token_id) {
            Some(i) => Some(self.sales.sales[i].copy()),
            None => None,
        }
    }

    /// An owner may list one more asset: what it has paid, with `credit`
    /// more, covers all its listings and the new one.
    pub open spec fn quota_admits(&self, owner: Seq<char>, credit: u128) -> bool {
        self.paid_of(owner) + credit >= (self.listing_count(owner) + 1) * STORAGE_PER_SALE
    }

    /// Why an approval of the market by `owner_id`, arriving from
    /// `predecessor_id` in a transaction signed by `signer_id` with
    /// `attached_deposit` attached, is refused before anything is listed.
    pub open spec fn callback_error(
        &self,
        owner_id: Seq<char>,
        predecessor_id: Seq<char>,
        signer_id: Seq<char>,
        attached_deposit: u128,
    ) -> Option<MarketError> {
        if predecessor_id == signer_id || owner_id != signer_id {
            Some(MarketError::Unauthorized)
        } else if !self.quota_admits(owner_id, approval_credit(attached_deposit)) {
            Some(MarketError::InsufficientQuota)
        } else {
            None
        }
    }

    /// The part of the attached deposit beyond one listing's storage, handed
    /// back to the owner.
    pub open spec fn deposit_refund(&self, owner_id: String, attached_deposit: u128) -> Option<Transfer> {
        if attached_deposit > STORAGE_PER_SALE {
            Some(
                Transfer {
                    receiver_id: owner_id,
                    amount: (attached_deposit - STORAGE_PER_SALE) as u128,
                    ft_token_id: self.near_ft,
                },
            )
        } else {
            None
        }
    }

    /// Checks an approval: it must come from a custodian by a cross-contract
    /// call that `owner_id` signed, and what the owner has paid for storage,
    /// with the attached deposit credited up to one listing's storage, must
    /// cover one more listing. Returns the refund of the rest of the deposit.
    pub fn check_valid_callback(
        &self,
        owner_id: &String,
        predecessor_id: &String,
        signer_id: &String,
        attached_deposit: u128,
    ) -> (r: Result<Option<Transfer>, MarketError>)
        requires
            self.wf(),
            self.paid_of(owner_id@) + approval_credit(attached_deposit) <= u128::MAX,
        ensures
            match self.callback_error(owner_id@, predecessor_id@, signer_id@, attached_deposit) {
                Some(e) => r == Err::<Option<Transfer>, MarketError>(e),
                None => r == Ok::<Option<Transfer>, MarketError>(self.deposit_refund(*owner_id, attached_deposit)),
            },
    {
        if *predecessor_id == *signer_id {
            return Err(MarketError::Unauthorized);
        }
        if *owner_id != *signer_id {
            return Err(MarketError::Unauthorized);
        }
        let credit = if attached_deposit < STORAGE_PER_SALE {
            attached_deposit
        } else {
            STORAGE_PER_SALE
        };
        let paid = self.storage_paid(owner_id) + credit;
        let count = self.get_supply_by_owner_id(owner_id) as u128;
        let required = (count + 1).checked_mul(STORAGE_PER_SALE);
        match required {
            Some(required) => {
                if paid < required {
                    return Err(MarketError::InsufficientQuota);
                }
            },
            None => {
                return Err(MarketError::InsufficientQuota);
            },
        }
        let refund = attached_deposit - credit;
        if refund > 0 {
            Ok(Some(Transfer { receiver_id: owner_id.clone(), amount: refund, ft_token_id: self.near_ft.clone() }))
        } else {
            Ok(None)
        }
    }

    /// Every currency of a price table is accepted for settlement.
    pub open spec fn all_supported(&self, conditions: Seq<(String, u128)>) -> bool {
        forall|i: int| 0 <= i < conditions.len() ==> #[trigger] self.supports(conditions[i].0@)
    }

    fn check_supported(&self, conditions: &Vec<(String, u128)>) -> (r: bool)
        ensures
            r == self.all_supported(conditions@),
    {
        let mut i: usize = 0;
        while i < conditions.len()
            invariant
                i <= conditions@.len(),
                forall|j: int| 0 <= j < i ==> #[trigger] self.supports(conditions@[j].0@),
            decreases conditions@.len() - i,
        {
            if !self.is_supported(&conditions[i].0) {
                return false;
            }
            i = i + 1;
        }
        true
    }

    /// Why a request to list `token_id` of the custodian `predecessor_id`
    /// for `owner_id` at the prices `conditions` is refused.
    pub open spec fn listing_error(
        &self,
        token_id: Seq<char>,
        owner_id: Seq<char>,
        conditions: Seq<(String, u128)>,
        token_type: Option<String>,
        predecessor_id: Seq<char>,
        signer_id: Seq<char>,
        attached_deposit: u128,
    ) -> Option<MarketError> {
        if self.callback_error(owner_id, predecessor_id, signer_id, attached_deposit) is Some {
            self.callback_error(owner_id, predecessor_id, signer_id, attached_deposit)
        } else if !self.all_supported(conditions) {
            Some(MarketError::NotFound)
        } else if !keys_unique(conditions) || (match token_type {
            Some(t) => !is_substring(t@, token_id),
            None => false,
        }) || self.sales@.contains_key((predecessor_id, token_id)) {
            Some(MarketError::InvalidListing)
        } else {
            None
        }
    }

    /// Why an approval of the market for `token_id` is refused.
    pub open spec fn approve_error(
        &self,
        token_id: Seq<char>,
        owner_id: Seq<char>,
        msg: SaleArgs,
        predecessor_id: Seq<char>,
        signer_id: Seq<char>,
        attached_deposit: u128,
    ) -> Option<MarketError> {
        self.listing_error(
            token_id,
            owner_id,
            msg.sale_conditions@,
            Some(msg.token_type),
            predecessor_id,
            signer_id,
            attached_deposit,
        )
    }

    /// The market `after` a listing was admitted into `before`, with the
    /// owner's quota credited with `credit` out of the attached deposit.
    pub open spec fn admitted(
        before: Contract,
        after: Contract,
        owner_id: Seq<char>,
        credit: u128,
        k: (Seq<char>, Seq<char>),
        sale: SaleView,
    ) -> bool {
        &&& before.paid_of(owner_id) + credit >= (before.listing_count(owner_id) + 1) * STORAGE_PER_SALE
        &&& after.sales@ == before.sales@.insert(k, sale)
        &&& after.paid_of(owner_id) == before.paid_of(owner_id) + credit
        &&& forall|p: Seq<char>| p != owner_id ==> #[trigger] after.paid_of(p) == before.paid_of(p)
        &&& after.listing_count(owner_id) == before.listing_count(owner_id) + 1
        &&& after.ft_token_ids == before.ft_token_ids
        &&& after.near_ft == before.near_ft
        &&& after.owner_id == before.owner_id
    }

    fn list_sale(
        &mut self,
        token_id: String,
        owner_id: String,
        approval_id: u64,
        conditions: Vec<(String, u128)>,
        token_type: Option<String>,
        is_series: bool,
        predecessor_id: String,
        signer_id: String,
        attached_deposit: u128,
        block_timestamp: u64,
    ) -> (r: Result<Option<Transfer>, MarketError>)
        requires
            old(self).wf(),
            old(self).paid_of(owner_id@) + approval_credit(attached_deposit) <= u128::MAX,
        ensures
            final(self).wf(),
            match old(self).listing_error(token_id@, owner_id@, conditions@, token_type, predecessor_id@, signer_id@, attached_deposit) {
                Some(e) => r == Err::<Option<Transfer>, MarketError>(e) && *final(self) == *old(self),
                None => {
                    &&& r == Ok::<Option<Transfer>, MarketError>(old(self).deposit_refund(owner_id, attached_deposit))
                    &&& Contract::admitted(
                        *old(self),
                        *final(self),
                        owner_id@,
                        approval_credit(attached_deposit),
                        (predecessor_id@, token_id@),
                        SaleView {
                            owner_id,
                            approval_id,
                            nft_contract_id: predecessor_id,
                            token_id,
                            conditions: conditions@,
                            created_at: block_timestamp,
                            is_series,
                            token_type,
                            bids: Seq::empty(),
                        },
                    )
                },
            },
    {
        let refund = match self.check_valid_callback(&owner_id, &predecessor_id, &signer_id, attached_deposit) {
            Ok(refund) => refund,
            Err(e) => {
                return Err(e);
            },
        };
        if !self.check_supported(&conditions) {
            return Err(MarketError::NotFound);
        }
        if !crate::keyed::check_keys_unique(&conditions) {
            return Err(MarketError::InvalidListing);
        }
        if let Some(t) = &token_type {
            if !contains_str(&token_id, t) {
                return Err(MarketError::InvalidListing);
            }
        }
        if self.sales.find(&predecessor_id, &token_id).is_some() {
            return Err(MarketError::InvalidListing);
        }
        let credit = if attached_deposit < STORAGE_PER_SALE {
            attached_deposit
        } else {
            STORAGE_PER_SALE
        };
        let balance = self.storage_paid(&owner_id) + credit;
        let ghost before = *self;
        self.credit(owner_id.clone(), balance);
        let sale = Sale {
            owner_id,
            approval_id,
            nft_contract_id: predecessor_id,
            token_id,
            conditions,
            created_at: block_timestamp,
            is_series,
            token_type,
            bids: Vec::new(),
        };
        assert(sale_admissible(sale));
        let ghost credited = *self;
        self.sales.insert(sale);
        assert forall|p: Seq<char>| p != owner_id@ implies #[trigger] self.paid_of(p) == before.paid_of(p) by {
            assert(self.paid_of(p) == credited.paid_of(p));
        }
        Ok(refund)
    }

    /// Lists `token_id` of the custodian `predecessor_id` at the prices of
    /// `msg`, once its owner has approved the market on the custodian. The
    /// owner's quota is credited with the attached deposit, up to one
    /// listing's storage; the rest of the deposit is returned.
    pub fn nft_on_approve(
        &mut self,
        token_id: String,
        owner_id: String,
        approval_id: u64,
        msg: SaleArgs,
        predecessor_id: String,
        signer_id: String,
        attached_deposit: u128,
        block_timestamp: u64,
    ) -> (r: Result<Option<Transfer>, MarketError>)
        requires
            old(self).wf(),
            old(self).paid_of(owner_id@) + approval_credit(attached_deposit) <= u128::MAX,
        ensures
            final(self).wf(),
            match old(self).approve_error(token_id@, owner_id@, msg, predecessor_id@, signer_id@, attached_deposit) {
                Some(e) => r == Err::<Option<Transfer>, MarketError>(e) && *final(self) == *old(self),
                None => {
                    &&& r == Ok::<Option<Transfer>, MarketError>(old(self).deposit_refund(owner_id, attached_deposit))
                    &&& Contract::admitted(
                        *old(self),
                        *final(self),
                        owner_id@,
                        approval_credit(attached_deposit),
                        (predecessor_id@, token_id@),
                        SaleView {
                            owner_id,
                            approval_id,
                            nft_contract_id: predecessor_id,
                            token_id,
                            conditions: msg.sale_conditions@,
                            created_at: block_timestamp,
                            is_series: false,
                            token_type: Some(msg.token_type),
                            bids: Seq::empty(),
                        },
                    )
                },
            },
    {
        let SaleArgs { sale_conditions, token_type, is_auction: _ } = msg;
        self.list_sale(
            token_id,
            owner_id,
            approval_id,
            sale_conditions,
            Some(token_type),
            false,
            predecessor_id,
            signer_id,
            attached_deposit,
            block_timestamp,
        )
    }

    /// Lists a whole series `series_name` of the custodian `predecessor_id`
    /// at the prices of `msg`: a listing that stays after each purchase, for
    /// the custodian to issue a new asset of the series to each buyer.
    pub fn series_on_approve(
        &mut self,
        series_name: String,
        owner_id: String,
        msg: SaleArgs,
        predecessor_id: String,
        signer_id: String,
        attached_deposit: u128,
        block_timestamp: u64,
    ) -> (r: Result<Option<Transfer>, MarketError>)
        requires
            old(self).wf(),
            old(self).paid_of(owner_id@) + approval_credit(attached_deposit) <= u128::MAX,
        ensures
            final(self).wf(),
            match old(self).listing_error(series_name@, owner_id@, msg.sale_conditions@, None, predecessor_id@, signer_id@, attached_deposit) {
                Some(e) => r == Err::<Option<Transfer>, MarketError>(e) && *final(self) == *old(self),
                None => {
                    &&& r == Ok::<Option<Transfer>, MarketError>(old(self).deposit_refund(owner_id, attached_deposit))
                    &&& Contract::admitted(
                        *old(self),
                        *final(self),
                        owner_id@,
                        approval_credit(attached_deposit),
                        (predecessor_id@, series_name@),
                        SaleView {
                            owner_id,
                            approval_id: 0,
                            nft_contract_id: predecessor_id,
                            token_id: series_name,
                            conditions: msg.sale_conditions@,
                            created_at: block_timestamp,
                            is_series: true,
                            token_type: None,
                            bids: Seq::empty(),
                        },
                    )
                },
            },
    {
        let SaleArgs { sale_conditions, token_type: _, is_auction: _ } = msg;
        self.list_sale(
            series_name,
            owner_id,
            0,
            sale_conditions,
            None,
            true,
            predecessor_id,
            signer_id,
            attached_deposit,
            block_timestamp,
        )
    }

    /// Takes a listing down; only its owner may. Every bid on it is refunded.
    pub fn remove_sale(&mut self, nft_contract_id: String, token_id: String, predecessor_id: String) -> (r: Result<
        Vec<Transfer>,
        MarketError,
    >)
        requires
            old(self).wf(),
        ensures
            final(self).wf(),
            ({
                let k = (nft_contract_id@, token_id@);
                match r {
                    Ok(refunds) => {
                        &&& old(self).sales@.contains_key(k)
                        &&& old(self).sales@[k].owner_id@ == predecessor_id@
                        &&& final(self).sales@ == old(self).sales@.remove(k)
                        &&& refunds_for(old(self).sales@[k].bids, refunds@)
                        &&& final(self).storage_deposits == old(self).storage_deposits
                        &&& final(self).ft_token_ids == old(self).ft_token_ids
                        &&& final(self).near_ft == old(self).near_ft
                        &&& final(self).owner_id == old(self).owner_id
                    },
                    Err(e) => *final(self) == *old(self) && if !old(self).sales@.contains_key(k) {
                        e == MarketError::NotFound
                    } else {
                        e == MarketError::Unauthorized && old(self).sales@[k].owner_id@ != predecessor_id@
                    },
                }
            }),
    {
        let i = match self.sales.find(&nft_contract_id, &token_id) {
            Some(i) => i,
            None => {
                return Err(MarketError::NotFound);
            },
        };
        if self.sales.sales[i].owner_id != predecessor_id {
            return Err(MarketError::Unauthorized);
        }
        let sale = self.sales.remove_at(i);
        Ok(refund_bids(&sale.bids))
    }

    /// Sets the price of a listing in one currency; only its owner may, and
    /// only in an accepted currency.
    pub fn update_price(
        &mut self,
        nft_contract_id: String,
        token_id: String,
        ft_token_id: String,
        price: u128,
        predecessor_id: String,
    ) -> (r: Result<(), MarketError>)
        requires
            old(self).wf(),
        ensures
            final(self).wf(),
            ({
                let k = (nft_contract_id@, token_id@);
                match r {
                    Ok(()) => {
                        &&& old(self).sales@.contains_key(k)
                        &&& old(self).sales@[k].owner_id@ == predecessor_id@
                        &&& old(self).supports(ft_token_id@)
                        &&& final(self).sales@ == old(self).sales@.insert(k, final(self).sales@[k])
                        &&& final(self).sales@[k] == (SaleView {
                            conditions: final(self).sales@[k].conditions,
                            ..old(self).sales@[k]
                        })
                        &&& entries_map(final(self).sales@[k].conditions) == entries_map(
                            old(self).sales@[k].conditions,
                        ).insert(ft_token_id@, price)
                        &&& final(self).storage_deposits == old(self).storage_deposits
                        &&& final(self).ft_token_ids == old(self).ft_token_ids
                        &&& final(self).near_ft == old(self).near_ft
                        &&& final(self).owner_id == old(self).owner_id
                    },
                    Err(e) => *final(self) == *old(self) && if !old(self).sales@.contains_key(k) {
                        e == MarketError::NotFound
                    } else if old(self).sales@[k].owner_id@ != predecessor_id@ {
                        e == MarketError::Unauthorized
                    } else {
                        e == MarketError::NotFound && !old(self).supports(ft_token_id@)
                    },
                }
            }),
    {
        let i = match self.sales.find(&nft_contract_id, &token_id) {
            Some(i) => i,
            None => {
                return Err(MarketError::NotFound);
            },
        };
        if self.sales.sales[i].owner_id != predecessor_id {
            return Err(MarketError::Unauthorized);
        }
        if !self.is_supported(&ft_token_id) {
            return Err(MarketError::NotFound);
        }
        let mut sale = self.sales.sales[i].copy();
        proof {
            assert(sale_admissible(self.sales.sales@[i as int]));
        }
        upsert(&mut sale.conditions, ft_token_id, price);
        self.sales.replace_at(i, sale);
        Ok(())
    }
}

} // verus!
