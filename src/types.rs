use vstd::prelude::*;

verus! {

/// The identity of a holder or an issuer.
#[derive(Clone, Copy, Debug, PartialEq, Eq, Structural, Hash)]
pub struct Address {
    pub id: u64,
}

impl Address {
    pub fn new(id: u64) -> (r: Address)
        ensures
            r.id == id,
    {
        Address { id }
    }
}

/// A registered carbon-offset project.
#[derive(Clone, Debug)]
pub struct CarbonProject {
    pub id: u32,
    pub name: String,
    pub location: String,
    /// Free-text category, such as reforestation or renewable_energy.
    pub project_type: String,
    pub description: String,
    /// The only identity that may issue credits against this project.
    pub issuer: Address,
    pub created_at: u64,
    /// Running sum of every amount issued against this project.
    pub total_credits_issued: i128,
}

/// The record of one issuance, kept as it was at mint time.
#[derive(Clone, Copy, Debug, PartialEq, Eq, Structural)]
pub struct CarbonCredit {
    pub id: u128,
    pub project_id: u32,
    pub amount: i128,
    pub owner: Address,
    pub issued_at: u64,
    /// The year the credits originate from.
    pub vintage: u32,
    pub retired: bool,
}

/// The receipt that `issue_credits` hands back.
#[derive(Clone, Copy, Debug, PartialEq, Eq, Structural)]
pub struct CreditBatch {
    pub project_id: u32,
    pub amount: i128,
    pub vintage: u32,
    pub issued_at: u64,
}

/// Why an operation was refused; a refused operation changes nothing.
#[derive(Clone, Copy, Debug, PartialEq, Eq, Structural)]
pub enum LedgerError {
    /// No project with the given id.
    NotFound,
    /// The claimed issuer is not the project's issuer.
    Unauthorized,
    /// The amount is not strictly positive.
    InvalidAmount,
    /// The debit exceeds the holder's balance.
    InsufficientBalance,
}

/// A copy of a project whose every field equals the original's.
pub(crate) fn copy_project(p: &CarbonProject) -> (r: CarbonProject)
    ensures
        r == *p,
{
    CarbonProject {
        id: p.id,
        name: p.name.clone(),
        location: p.location.clone(),
        project_type: p.project_type.clone(),
        description: p.description.clone(),
        issuer: p.issuer,
        created_at: p.created_at,
        total_credits_issued: p.total_credits_issued,
    }
}

} // verus!
