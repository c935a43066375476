//! An auction house with a fixed set of participants: each pays a fee per
//! action from a balance, watches a book of ask price levels, and may claim
//! one unit at a chosen price while the level lasts.

pub mod auction;
pub mod book;
pub mod clock;
pub mod laws;
pub mod ledger;

pub use auction::{AuctionConfig, AuctionState, BidResult, BoardResult, CheckResult, ConfigError, PingResult};
pub use book::{AskBook, MatchOutcome, PriceVol};
pub use clock::{nanos_from_reading, now};
pub use ledger::{Account, AuctionError, Ledger};
