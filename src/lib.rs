//! A pseudonymised service-delivery ledger: authorised providers record the
//! sessions they deliver to beneficiaries, who are known only by a salted
//! one-way digest of their name and pin, and the ledger keeps per-month usage
//! counters for each beneficiary and kind of service.

pub mod bytes;
pub mod ledger;
pub mod pseudonym;
