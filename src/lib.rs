//! A ledger of carbon-offset projects and the credits issued against them:
//! project registry, authorized issuance, per-holder balances, transfer and
//! permanent retirement, with the conservation law proved over every state.

mod invariants;
mod ledger;
mod sums;
mod types;

pub use invariants::{
    lemma_balances_non_negative, lemma_conservation, lemma_project_ids_dense,
    lemma_total_is_sum_of_issuances,
};
pub use ledger::{
    amounts, keys_unique, lookup, new_project, owned_by, share_of, total_of, with_total,
    CarbonCredits, LedgerModel,
};
pub use sums::seq_sum;
pub use types::{Address, CarbonCredit, CarbonProject, CreditBatch, LedgerError};
