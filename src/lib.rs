//! A marketplace settlement engine: listings admitted against a prepaid
//! storage quota, per-currency bids held in escrow, and a two-phase purchase
//! whose second half checks the payout that the asset custodian reports.
//!
//! The engine works on plain values: the runtime hands it the caller, the
//! attached deposit and the custodian's response, and carries out the
//! transfers that it returns.

pub mod bids;
pub mod keyed;
pub mod laws;
pub mod market;
pub mod payout;
pub mod registry;
pub mod settlement;
pub mod text;
pub mod types;

pub use keyed::check_keys_unique;
pub use market::{Contract, STORAGE_PER_SALE};
pub use payout::{check_payout, MAX_SETTLEMENT_TRANSFERS, PAYOUT_TOLERANCE};
pub use registry::{IndexEntry, SaleRegistry};
pub use settlement::{Offer, PendingPurchase, Purchase, Resolution, TransferPayoutRequest};
pub use text::contains_str;
pub use types::{Bid, MarketError, Price, PurchaseArgs, Sale, SaleArgs, Transfer};
