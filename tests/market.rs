use market::{
    PurchaseArgs,
    check_payout, contains_str, Contract, MarketError, Offer, Resolution, SaleArgs, STORAGE_PER_SALE,
};

fn s(x: &str) -> String {
    x.to_string()
}

fn market() -> Contract {
    Contract::new(s("market.owner"), Some(vec![s("usdc.token")]))
}

fn args(prices: &[(&str, u128)], token_type: &str) -> SaleArgs {
    SaleArgs {
        sale_conditions: prices.iter().map(|(c, p)| (s(c), *p)).collect(),
        token_type: s(token_type),
        is_auction: None,
    }
}

/// Lists `token_id` of the custodian "nft.custody" for "alice" at `prices`.
fn list(m: &mut Contract, token_id: &str, prices: &[(&str, u128)]) {
    let r = m.nft_on_approve(
        s(token_id),
        s("alice"),
        7,
        args(prices, "1"),
        s("nft.custody"),
        s("alice"),
        STORAGE_PER_SALE,
        1000,
    );
    assert_eq!(r.map(|t| t.is_none()), Ok(true));
}

fn start_purchase(m: &mut Contract, token_id: &str, buyer: &str, paid: u128) -> market::Purchase {
    match m.offer(s("nft.custody"), s(token_id), None, s(buyer), paid) {
        Ok(Offer::Purchase(p)) => p,
        _ => panic!("expected a purchase"),
    }
}

fn amounts(r: &Resolution) -> Vec<(String, u128, String)> {
    r.transfers.iter().map(|t| (t.receiver_id.clone(), t.amount, t.ft_token_id.clone())).collect()
}

#[test]
fn exact_price_purchase_settles_and_pays_out() {
    let mut m = market();
    list(&mut m, "1:1", &[("near", 100)]);
    let p = start_purchase(&mut m, "1:1", "bob", 100);
    assert_eq!(p.request.deposit, 1);
    assert_eq!(p.request.balance, 100);
    assert_eq!(p.request.receiver_id, "bob");
    assert_eq!(p.request.approval_id, 7);
    assert!(m.get_sale(&s("nft.custody"), &s("1:1")).is_none());
    let payout = vec![(s("ownerA"), 97), (s("royaltyB"), 3)];
    let r = m.resolve_purchase(p.pending, Some(payout));
    assert!(r.settled);
    assert_eq!(
        amounts(&r),
        vec![(s("ownerA"), 97, s("near")), (s("royaltyB"), 3, s("near"))]
    );
    assert_eq!(r.returned, 100);
    assert!(m.get_sale(&s("nft.custody"), &s("1:1")).is_none());
}

#[test]
fn payout_over_price_refunds_buyer() {
    let mut m = market();
    list(&mut m, "1:1", &[("near", 100)]);
    let p = start_purchase(&mut m, "1:1", "bob", 100);
    let payout = vec![(s("ownerA"), 97), (s("royaltyB"), 3), (s("royaltyC"), 1)];
    let r = m.resolve_purchase(p.pending, Some(payout));
    assert!(!r.settled);
    assert_eq!(amounts(&r), vec![(s("bob"), 100, s("near"))]);
    assert_eq!(r.returned, 100);
}

#[test]
fn lower_offers_become_bids_and_are_outbid() {
    let mut m = market();
    list(&mut m, "1:1", &[("near", 100)]);
    match m.offer(s("nft.custody"), s("1:1"), None, s("bob"), 60) {
        Ok(Offer::Bid(None)) => {}
        _ => panic!("expected a first bid"),
    }
    match m.offer(s("nft.custody"), s("1:1"), None, s("carol"), 80) {
        Ok(Offer::Bid(Some(refund))) => {
            assert_eq!(refund.receiver_id, "bob");
            assert_eq!(refund.amount, 60);
            assert_eq!(refund.ft_token_id, "near");
        }
        _ => panic!("expected an outbid refund"),
    }
    let sale = m.get_sale(&s("nft.custody"), &s("1:1")).unwrap();
    assert_eq!(sale.bids.len(), 1);
    assert_eq!(sale.bids[0].0, "near");
    assert_eq!(sale.bids[0].1.owner_id, "carol");
    assert_eq!(sale.bids[0].1.price, 80);
    assert!(matches!(
        m.offer(s("nft.custody"), s("1:1"), None, s("dave"), 70),
        Err(MarketError::InsufficientFunds)
    ));
    let sale = m.get_sale(&s("nft.custody"), &s("1:1")).unwrap();
    assert_eq!(sale.bids[0].1.owner_id, "carol");
    assert_eq!(sale.bids[0].1.price, 80);
}

#[test]
fn accept_offer_without_bid_is_not_found() {
    let mut m = market();
    list(&mut m, "1:1", &[("near", 100)]);
    let r = m.accept_offer(s("nft.custody"), s("1:1"), s("near"), s("alice"));
    assert!(matches!(r, Err(MarketError::NotFound)));
    let sale = m.get_sale(&s("nft.custody"), &s("1:1")).unwrap();
    assert_eq!(sale.bids.len(), 0);
    assert_eq!(sale.conditions, vec![(s("near"), 100)]);
    assert_eq!(m.get_supply_by_owner_id(&s("alice")), 1);
}

#[test]
fn series_listing_stays_after_settlement() {
    let mut m = market();
    let r = m.series_on_approve(
        s("dragons"),
        s("alice"),
        args(&[("near", 100)], ""),
        s("nft.custody"),
        s("alice"),
        STORAGE_PER_SALE,
        1000,
    );
    assert!(r.is_ok());
    let memo = Some(s("{\"token_series_title\":\"dragons\",\"receiver_id\":\"bob\"}"));
    let p = match m.offer(s("nft.custody"), s("dragons"), memo.clone(), s("bob"), 150) {
        Ok(Offer::Purchase(p)) => p,
        _ => panic!("expected a purchase"),
    };
    assert_eq!(p.request.deposit, 50);
    assert_eq!(p.request.memo, memo);
    assert!(m.get_sale(&s("nft.custody"), &s("dragons")).is_some());
    let r = m.resolve_purchase(p.pending, Some(vec![(s("alice"), 100)]));
    assert!(r.settled);
    assert!(m.get_sale(&s("nft.custody"), &s("dragons")).unwrap().is_series);
    let again = m.offer(s("nft.custody"), s("dragons"), None, s("carol"), 100);
    assert!(matches!(again, Ok(Offer::Purchase(_))));
}

#[test]
fn indexes_follow_listing_and_removal() {
    let mut m = market();
    list(&mut m, "1:1", &[("near", 100)]);
    list(&mut m, "1:2", &[("near", 100)]);
    assert_eq!(m.sales.sales.len(), 2);
    assert_eq!(m.sales.by_owner_id.len(), 2);
    assert_eq!(m.sales.by_nft_contract_id.len(), 2);
    assert_eq!(m.sales.by_nft_token_type.len(), 2);
    assert_eq!(m.get_supply_by_owner_id(&s("alice")), 2);
    let refunds = m.remove_sale(s("nft.custody"), s("1:1"), s("alice")).unwrap();
    assert!(refunds.is_empty());
    assert_eq!(m.sales.sales.len(), 1);
    assert_eq!(m.sales.by_owner_id.len(), 1);
    assert_eq!(m.sales.by_nft_contract_id.len(), 1);
    assert_eq!(m.sales.by_nft_token_type.len(), 1);
    assert_eq!(m.sales.by_owner_id[0].token_id, "1:2");
    assert_eq!(m.sales.by_nft_contract_id[0].token_id, "1:2");
    assert_eq!(m.get_supply_by_owner_id(&s("alice")), 1);
    let p = start_purchase(&mut m, "1:2", "bob", 100);
    assert_eq!(m.sales.sales.len(), 0);
    assert_eq!(m.sales.by_owner_id.len(), 0);
    assert_eq!(m.sales.by_nft_contract_id.len(), 0);
    assert_eq!(m.sales.by_nft_token_type.len(), 0);
    assert_eq!(p.pending.paid, 100);
}

#[test]
fn refunds_and_held_bid_add_up_to_all_bids() {
    let mut m = market();
    list(&mut m, "1:1", &[("near", 100)]);
    let bids: [(&str, u128); 4] = [("b1", 10), ("b2", 20), ("b3", 35), ("b4", 50)];
    let mut refunded = 0u128;
    for (who, amount) in bids {
        match m.offer(s("nft.custody"), s("1:1"), None, s(who), amount) {
            Ok(Offer::Bid(refund)) => refunded += refund.map(|t| t.amount).unwrap_or(0),
            _ => panic!("expected a bid"),
        }
    }
    let held = m.get_sale(&s("nft.custody"), &s("1:1")).unwrap().bids[0].1.price;
    assert_eq!(refunded, 10 + 20 + 35);
    assert_eq!(refunded + held, 10 + 20 + 35 + 50);
}

#[test]
fn admission_needs_quota_for_one_more_listing() {
    let mut m = market();
    list(&mut m, "1:1", &[("near", 100)]);
    assert_eq!(m.storage_paid(&s("alice")), STORAGE_PER_SALE);
    assert_eq!(m.storage_withdraw(s("alice")), Ok(0));
    assert_eq!(m.storage_paid(&s("alice")), STORAGE_PER_SALE);
    list(&mut m, "1:2", &[("near", 100)]);
    assert_eq!(m.storage_paid(&s("alice")), 2 * STORAGE_PER_SALE);
    assert_eq!(m.get_supply_by_owner_id(&s("alice")), 2);
}

#[test]
fn admission_refused_when_quota_short() {
    let mut m = market();
    list(&mut m, "1:1", &[("near", 100)]);
    m.storage_deposits[0].1 = 0;
    let r = m.nft_on_approve(
        s("1:2"),
        s("alice"),
        8,
        args(&[("near", 100)], "1"),
        s("nft.custody"),
        s("alice"),
        STORAGE_PER_SALE,
        1000,
    );
    assert!(matches!(r, Err(MarketError::InsufficientQuota)));
    assert_eq!(m.get_supply_by_owner_id(&s("alice")), 1);
    assert_eq!(m.storage_paid(&s("alice")), 0);
    assert_eq!(m.storage_withdraw(s("alice")), Err(MarketError::InsufficientQuota));
}

#[test]
fn approval_refunds_excess_deposit() {
    let mut m = market();
    let r = m.nft_on_approve(
        s("1:1"),
        s("alice"),
        1,
        args(&[("near", 100)], "1"),
        s("nft.custody"),
        s("alice"),
        STORAGE_PER_SALE + 500,
        1000,
    );
    let refund = r.unwrap().unwrap();
    assert_eq!(refund.receiver_id, "alice");
    assert_eq!(refund.amount, 500);
    assert_eq!(refund.ft_token_id, "near");
}

#[test]
fn approval_checks_caller_and_listing() {
    let mut m = market();
    let call = |m: &mut Contract, token: &str, owner: &str, pred: &str, signer: &str, a: SaleArgs| {
        m.nft_on_approve(s(token), s(owner), 1, a, s(pred), s(signer), STORAGE_PER_SALE, 1)
    };
    let same = call(&mut m, "1:1", "alice", "alice", "alice", args(&[("near", 1)], "1"));
    assert!(matches!(same, Err(MarketError::Unauthorized)));
    let other = call(&mut m, "1:1", "alice", "nft.custody", "mallory", args(&[("near", 1)], "1"));
    assert!(matches!(other, Err(MarketError::Unauthorized)));
    let unknown = call(&mut m, "1:1", "alice", "nft.custody", "alice", args(&[("gold", 1)], "1"));
    assert!(matches!(unknown, Err(MarketError::NotFound)));
    let bad_type = call(&mut m, "1:1", "alice", "nft.custody", "alice", args(&[("near", 1)], "7"));
    assert!(matches!(bad_type, Err(MarketError::InvalidListing)));
    let dup = SaleArgs {
        sale_conditions: vec![(s("near"), 1), (s("near"), 2)],
        token_type: s("1"),
        is_auction: None,
    };
    let dup = call(&mut m, "1:1", "alice", "nft.custody", "alice", dup);
    assert!(matches!(dup, Err(MarketError::InvalidListing)));
    assert_eq!(m.sales.sales.len(), 0);
    let ok = call(&mut m, "1:1", "alice", "nft.custody", "alice", args(&[("usdc.token", 5)], "1:"));
    assert!(ok.is_ok());
    let again = call(&mut m, "1:1", "alice", "nft.custody", "alice", args(&[("near", 1)], "1"));
    assert!(matches!(again, Err(MarketError::InvalidListing)));
}

#[test]
fn offer_errors() {
    let mut m = market();
    assert!(matches!(
        m.offer(s("nft.custody"), s("1:1"), None, s("bob"), 100),
        Err(MarketError::NotFound)
    ));
    list(&mut m, "1:1", &[("near", 100)]);
    list(&mut m, "1:2", &[("usdc.token", 100)]);
    assert!(matches!(
        m.offer(s("nft.custody"), s("1:1"), None, s("alice"), 100),
        Err(MarketError::Unauthorized)
    ));
    assert!(matches!(
        m.offer(s("nft.custody"), s("1:2"), None, s("bob"), 100),
        Err(MarketError::NotFound)
    ));
    assert!(matches!(
        m.offer(s("nft.custody"), s("1:1"), None, s("bob"), 0),
        Err(MarketError::InsufficientFunds)
    ));
    assert!(matches!(
        m.offer(s("nft.custody"), s("1:1"), None, s("bob"), 101),
        Err(MarketError::Overpaid)
    ));
    assert!(matches!(
        m.offer(s("nft.custody"), s("1:1"), Some(s("mint")), s("bob"), 100),
        Err(MarketError::InsufficientFunds)
    ));
    assert!(matches!(
        m.offer(s("nft.custody"), s("1:1"), Some(s("mint")), s("bob"), 99),
        Err(MarketError::InsufficientFunds)
    ));
    assert!(m.get_sale(&s("nft.custody"), &s("1:1")).unwrap().bids.is_empty());
}

#[test]
fn accept_offer_settles_at_bid_and_refunds_other_bids() {
    let mut m = market();
    list(&mut m, "1:1", &[("near", 100)]);
    assert!(m.add_bid(s("nft.custody"), s("1:1"), 0, 40, s("usdc.token"), s("erin")).is_ok());
    assert!(matches!(m.offer(s("nft.custody"), s("1:1"), None, s("bob"), 60), Ok(Offer::Bid(None))));
    let wrong = m.accept_offer(s("nft.custody"), s("1:1"), s("near"), s("bob"));
    assert!(matches!(wrong, Err(MarketError::Unauthorized)));
    let p = m.accept_offer(s("nft.custody"), s("1:1"), s("near"), s("alice")).unwrap();
    assert_eq!(p.request.balance, 60);
    assert_eq!(p.request.deposit, 1);
    assert_eq!(p.request.receiver_id, "bob");
    assert_eq!(p.pending.paid, 60);
    assert_eq!(p.pending.sale.bids.len(), 1);
    assert!(m.get_sale(&s("nft.custody"), &s("1:1")).is_none());
    let r = m.resolve_purchase(p.pending, Some(vec![(s("alice"), 59)]));
    assert!(r.settled);
    assert_eq!(
        amounts(&r),
        vec![(s("erin"), 40, s("usdc.token")), (s("alice"), 59, s("near"))]
    );
}

#[test]
fn non_native_settlement_keeps_nothing() {
    let mut m = market();
    list(&mut m, "1:1", &[("near", 100)]);
    assert!(m.add_bid(s("nft.custody"), s("1:1"), 0, 40, s("usdc.token"), s("erin")).is_ok());
    let p = m.accept_offer(s("nft.custody"), s("1:1"), s("usdc.token"), s("alice")).unwrap();
    let r = m.resolve_purchase(p.pending, Some(vec![(s("alice"), 36), (s("roy"), 4)]));
    assert!(r.settled);
    assert_eq!(r.returned, 0);
    assert_eq!(
        amounts(&r),
        vec![(s("alice"), 36, s("usdc.token")), (s("roy"), 4, s("usdc.token"))]
    );
}

#[test]
fn failed_non_native_settlement_returns_payment() {
    let mut m = market();
    list(&mut m, "1:1", &[("near", 100)]);
    assert!(m.add_bid(s("nft.custody"), s("1:1"), 0, 40, s("usdc.token"), s("erin")).is_ok());
    let p = m.accept_offer(s("nft.custody"), s("1:1"), s("usdc.token"), s("alice")).unwrap();
    let r = m.resolve_purchase(p.pending, None);
    assert!(!r.settled);
    assert!(r.transfers.is_empty());
    assert_eq!(r.returned, 40);
}

#[test]
fn payout_checks() {
    let two = vec![(s("a"), 50), (s("b"), 49)];
    assert_eq!(check_payout(&two, 0, 100), Ok(()));
    assert_eq!(check_payout(&two, 0, 99), Ok(()));
    assert_eq!(check_payout(&two, 0, 98), Err(MarketError::InvalidPayout));
    assert_eq!(check_payout(&two, 0, 101), Err(MarketError::InvalidPayout));
    assert_eq!(check_payout(&vec![], 0, 0), Err(MarketError::InvalidPayout));
    assert_eq!(check_payout(&two, 8, 100), Ok(()));
    assert_eq!(check_payout(&two, 9, 100), Err(MarketError::TooManyRecipients));
    let many: Vec<(String, u128)> = (0..11).map(|i| (format!("r{}", i), 1)).collect();
    assert_eq!(check_payout(&many, 0, 11), Err(MarketError::TooManyRecipients));
    let over = vec![(s("a"), u128::MAX), (s("b"), 1)];
    assert_eq!(check_payout(&over, 0, u128::MAX), Err(MarketError::InvalidPayout));
}

#[test]
fn too_many_refunds_and_payouts_rejects_settlement() {
    let mut m = market();
    list(&mut m, "1:1", &[("near", 100)]);
    let p = start_purchase(&mut m, "1:1", "bob", 100);
    let payout: Vec<(String, u128)> = (0..11).map(|i| (format!("r{}", i), if i == 0 { 90 } else { 1 })).collect();
    let r = m.resolve_purchase(p.pending, Some(payout));
    assert!(!r.settled);
    assert_eq!(amounts(&r), vec![(s("bob"), 100, s("near"))]);
}

#[test]
fn update_price_and_remove_sale_rules() {
    let mut m = market();
    list(&mut m, "1:1", &[("near", 100)]);
    assert_eq!(
        m.update_price(s("nft.custody"), s("1:1"), s("near"), 80, s("bob")),
        Err(MarketError::Unauthorized)
    );
    assert_eq!(
        m.update_price(s("nft.custody"), s("1:1"), s("gold"), 80, s("alice")),
        Err(MarketError::NotFound)
    );
    assert_eq!(
        m.update_price(s("nft.custody"), s("9:9"), s("near"), 80, s("alice")),
        Err(MarketError::NotFound)
    );
    assert_eq!(m.update_price(s("nft.custody"), s("1:1"), s("near"), 80, s("alice")), Ok(()));
    assert_eq!(m.update_price(s("nft.custody"), s("1:1"), s("usdc.token"), 7, s("alice")), Ok(()));
    let sale = m.get_sale(&s("nft.custody"), &s("1:1")).unwrap();
    assert_eq!(sale.conditions, vec![(s("near"), 80), (s("usdc.token"), 7)]);
    assert!(matches!(m.offer(s("nft.custody"), s("1:1"), None, s("bob"), 50), Ok(Offer::Bid(None))));
    assert!(matches!(
        m.remove_sale(s("nft.custody"), s("1:1"), s("bob")),
        Err(MarketError::Unauthorized)
    ));
    let refunds = m.remove_sale(s("nft.custody"), s("1:1"), s("alice")).unwrap();
    assert_eq!(refunds.len(), 1);
    assert_eq!(refunds[0].receiver_id, "bob");
    assert_eq!(refunds[0].amount, 50);
    assert!(matches!(
        m.remove_sale(s("nft.custody"), s("1:1"), s("alice")),
        Err(MarketError::NotFound)
    ));
}

#[test]
fn storage_deposit_and_withdraw() {
    let mut m = market();
    assert_eq!(
        m.storage_deposit(None, s("alice"), STORAGE_PER_SALE - 1),
        Err(MarketError::InsufficientFunds)
    );
    assert_eq!(m.storage_deposit(None, s("alice"), 3 * STORAGE_PER_SALE), Ok(()));
    assert_eq!(m.storage_deposit(Some(s("bob")), s("alice"), STORAGE_PER_SALE), Ok(()));
    assert_eq!(m.storage_paid(&s("alice")), 3 * STORAGE_PER_SALE);
    assert_eq!(m.storage_paid(&s("bob")), STORAGE_PER_SALE);
    list(&mut m, "1:1", &[("near", 100)]);
    assert_eq!(m.storage_paid(&s("alice")), 4 * STORAGE_PER_SALE);
    assert_eq!(m.storage_withdraw(s("alice")), Ok(3 * STORAGE_PER_SALE));
    assert_eq!(m.storage_paid(&s("alice")), STORAGE_PER_SALE);
    assert_eq!(m.storage_amount(), 10_000_000_000_000_000_000_000);
}

#[test]
fn supported_tokens_and_owner_only_additions() {
    let mut m = market();
    assert_eq!(m.supported_ft_token_ids(), vec![s("near"), s("usdc.token")]);
    assert_eq!(
        m.add_ft_token_ids(vec![s("dai.token")], s("bob")),
        Err(MarketError::Unauthorized)
    );
    let added = m
        .add_ft_token_ids(vec![s("dai.token"), s("near"), s("dai.token")], s("market.owner"))
        .unwrap();
    assert_eq!(added, vec![true, false, false]);
    assert!(m.is_supported(&s("dai.token")));
    assert!(!m.is_supported(&s("gold")));
}

#[test]
fn substring_search() {
    assert!(contains_str(&s("42:7"), &s("42")));
    assert!(contains_str(&s("42:7"), &s(":7")));
    assert!(contains_str(&s("42:7"), &s("")));
    assert!(!contains_str(&s("42:7"), &s("7:")));
    assert!(!contains_str(&s("4"), &s("42")));
    assert!(contains_str(&s("ßü→x"), &s("ü→")));
}

fn approve_with(m: &mut Contract, token_id: &str, attached: u128) -> Result<Option<market::Transfer>, MarketError> {
    m.nft_on_approve(
        s(token_id),
        s("alice"),
        3,
        args(&[("near", 100)], "1"),
        s("nft.custody"),
        s("alice"),
        attached,
        1000,
    )
}

#[test]
fn approval_without_paid_storage_is_refused() {
    let mut m = market();
    assert!(matches!(approve_with(&mut m, "1:1", 0), Err(MarketError::InsufficientQuota)));
    assert!(matches!(
        approve_with(&mut m, "1:1", STORAGE_PER_SALE / 2),
        Err(MarketError::InsufficientQuota)
    ));
    assert_eq!(m.storage_paid(&s("alice")), 0);
    assert_eq!(m.get_supply_by_owner_id(&s("alice")), 0);
    assert!(m.get_sale(&s("nft.custody"), &s("1:1")).is_none());
    assert!(m.sales.by_owner_id.is_empty());
}

#[test]
fn approval_uses_prepaid_storage_and_partial_deposit() {
    let mut m = market();
    assert_eq!(m.storage_deposit(None, s("alice"), STORAGE_PER_SALE), Ok(()));
    let r = approve_with(&mut m, "1:1", 0);
    assert!(matches!(r, Ok(None)));
    assert_eq!(m.storage_paid(&s("alice")), STORAGE_PER_SALE);
    assert!(matches!(approve_with(&mut m, "1:2", 0), Err(MarketError::InsufficientQuota)));
    assert!(matches!(approve_with(&mut m, "1:2", STORAGE_PER_SALE - 1), Err(MarketError::InsufficientQuota)));
    assert!(matches!(approve_with(&mut m, "1:2", STORAGE_PER_SALE), Ok(None)));
    assert_eq!(m.storage_paid(&s("alice")), 2 * STORAGE_PER_SALE);
    let r = approve_with(&mut m, "1:3", STORAGE_PER_SALE + 1).unwrap().unwrap();
    assert_eq!(r.receiver_id, "alice");
    assert_eq!(r.amount, 1);
    assert_eq!(m.storage_paid(&s("alice")), 3 * STORAGE_PER_SALE);
    assert_eq!(m.get_supply_by_owner_id(&s("alice")), 3);
}

#[test]
fn token_payment_buys_or_bids() {
    let mut m = market();
    list(&mut m, "1:1", &[("usdc.token", 100)]);
    let target = || PurchaseArgs { nft_contract_id: s("nft.custody"), token_id: s("1:1") };
    assert!(matches!(
        m.ft_on_transfer(s("bob"), 40, target(), s("near")),
        Err(MarketError::NotFound)
    ));
    assert!(matches!(m.ft_on_transfer(s("bob"), 40, target(), s("usdc.token")), Ok(Offer::Bid(None))));
    let p = match m.ft_on_transfer(s("carol"), 100, target(), s("usdc.token")) {
        Ok(Offer::Purchase(p)) => p,
        _ => panic!("expected a purchase"),
    };
    assert_eq!(p.pending.ft_token_id, "usdc.token");
    assert_eq!(p.pending.buyer_id, "carol");
    assert_eq!(p.request.deposit, 1);
    let r = m.resolve_purchase(p.pending, Some(vec![(s("alice"), 100)]));
    assert!(r.settled);
    assert_eq!(r.returned, 0);
    assert_eq!(
        amounts(&r),
        vec![(s("bob"), 40, s("usdc.token")), (s("alice"), 100, s("usdc.token"))]
    );
}
