use vstd::prelude::*;

use crate::ledger::LedgerModel;
use crate::types::Address;

verus! {

/// Every balance is non-negative in every well-formed state; every operation
/// keeps the ledger well-formed, so no sequence of operations drives a balance
/// below zero.
pub proof fn lemma_balances_non_negative(m: LedgerModel, a: Address)
    requires
        m.wf(),
    ensures
        m.balance_of(a) >= 0,
{
    if exists|i: int| 0 <= i < m.balances.len() && m.balances[i].0 == a {
        let i = choose|i: int| 0 <= i < m.balances.len() && m.balances[i].0 == a;
        assert(m.balances[i].1 >= 0);
    }
}

/// A project's running total is the sum of the amounts of the issuance records
/// made against it: one record for each successful issuance, none otherwise.
pub proof fn lemma_total_is_sum_of_issuances(m: LedgerModel, project_id: u32)
    requires
        m.wf(),
        m.has_project(project_id),
    ensures
        m.project(project_id).total_credits_issued == m.issued_for(project_id),
{
    assert(m.projects[project_id as int].total_credits_issued == m.issued_for(project_id));
}

/// Conservation: the balances and the retired credits together are exactly
/// what was issued over all projects.
pub proof fn lemma_conservation(m: LedgerModel)
    requires
        m.wf(),
    ensures
        m.circulating() + m.retired == m.total_issued(),
{
}

/// Project ids are dense: the project at each position carries that position
/// as its id, so registration hands out 0, 1, 2, ... without gap or reuse.
pub proof fn lemma_project_ids_dense(m: LedgerModel, i: int)
    requires
        m.wf(),
        0 <= i < m.projects.len(),
    ensures
        m.projects[i].id == i,
{
}

} // verus!
