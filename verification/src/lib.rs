//! Reconciliation of observed token transfers against pending payment
//! obligations.
//!
//! A deployment watches one address for transfers of one token. Each
//! pending obligation expects a payment; a transfer seen on the feed
//! settles the first obligation that it answers, and an obligation is
//! settled once only.
//!
//! * [`decimal`] is the arithmetic in which amounts are spoken of;
//! * [`amount`] holds exact decimal amounts;
//! * [`transfer`] turns raw feed records into observed transfers;
//! * [`matcher`] says when a transfer answers an obligation;
//! * [`pending`] is the working set of unsettled obligations of a pass;
//! * [`cursor`] computes the window of the feed that a pass looks at;
//! * [`obligation`] holds obligations, balances and the settlement;
//! * [`pass`] scans the records of a page against the pending set;
//! * [`engine`] is the loop as a state machine.
//!
//! Reading the store, fetching pages and waiting are left to the caller,
//! who hands in what happened and is told what to do next.

pub mod amount;
pub mod cursor;
pub mod decimal;
pub mod engine;
pub mod matcher;
pub mod obligation;
pub mod pass;
pub mod pending;
pub mod transfer;
