//! State machine of a confidential Texas Hold'em table: seating, betting,
//! pot and side-pot accounting, street transitions, and the bookkeeping of
//! commitments handed back by an external confidential-computation service.
pub mod state;
pub mod ledger;
pub mod betting;
pub mod phase;
pub mod dealing;
pub mod settlement;
pub mod laws;
pub mod social;
pub mod circuits;
