//! A pooled-stake escrow for one quiz round: participants stake value into a
//! shared pot, an authority ends the round and assigns scores, and the pot is
//! split among the participants in proportion to score, with every unit of
//! value accounted for.
//!
//! The crate holds the pure core of the escrow: the pool record, its
//! lifecycle, the contribution rules, the distribution arithmetic, and the
//! wire decoding of requests.  Account storage, signature checking and the
//! actual movement of value between ledger accounts are left to the runtime
//! that drives it; every operation here is a function from one pool state and
//! explicit parameters to a new pool state plus the transfers the runtime
//! must perform.

pub mod codec;
pub mod dispatch;
pub mod distribute;
pub mod errors;
pub mod game;
pub mod identity;
pub mod laws;
