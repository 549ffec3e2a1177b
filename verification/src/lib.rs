//! Ledger-and-settlement core for a kart-racing platform.
//!
//! The crate holds a token ledger, an escrow-and-settlement engine for races
//! (entry fees and bets), a crowdfunding-campaign engine, a small NFT
//! registry, and the admin authority set.  The four stores are independent
//! values passed explicitly into each operation; every operation also takes
//! the already-authenticated caller (and, where needed, the current time) as
//! a plain argument, so the whole core is deterministic and verified.

pub mod authority;
pub mod campaign;
pub mod errors;
pub mod ledger;
pub mod nft;
pub mod payout;
pub mod race;
