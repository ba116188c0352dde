use vstd::prelude::*;

use crate::sums::{lemma_sum_bounds, lemma_sum_push, lemma_sum_update, lemma_sum_zeros, seq_sum};
use crate::types::{copy_project, Address, CarbonCredit, CarbonProject, CreditBatch, LedgerError};

verus! {

/// No two balance entries belong to the same holder.
pub open spec fn keys_unique(s: Seq<(Address, i128)>) -> bool {
    forall|i: int, j: int|
        0 <= i < s.len() && 0 <= j < s.len() && #[trigger] s[i].0 == #[trigger] s[j].0 ==> i == j
}

/// The balance that the entries give a holder: its entry's value, or zero without one.
pub open spec fn lookup(s: Seq<(Address, i128)>, a: Address) -> int {
    if exists|i: int| 0 <= i < s.len() && s[i].0 == a {
        s[choose|i: int| 0 <= i < s.len() && s[i].0 == a].1 as int
    } else {
        0
    }
}

/// The values of the balance entries.
pub open spec fn amounts(s: Seq<(Address, i128)>) -> Seq<int> {
    s.map_values(|e: (Address, i128)| e.1 as int)
}

/// A project with its running total replaced.
pub open spec fn with_total(p: CarbonProject, total: i128) -> CarbonProject {
    CarbonProject {
        id: p.id,
        name: p.name,
        location: p.location,
        project_type: p.project_type,
        description: p.description,
        issuer: p.issuer,
        created_at: p.created_at,
        total_credits_issued: total,
    }
}

/// What a project holds right after its registration.
pub open spec fn new_project(
    id: u32,
    issuer: Address,
    name: String,
    location: String,
    project_type: String,
    description: String,
    now: u64,
) -> CarbonProject {
    CarbonProject {
        id,
        name,
        location,
        project_type,
        description,
        issuer,
        created_at: now,
        total_credits_issued: 0,
    }
}

/// A project's running total as an integer.
pub open spec fn total_of(p: CarbonProject) -> int {
    p.total_credits_issued as int
}

/// What a credit record contributes to one project's issued amount.
pub open spec fn share_of(c: CarbonCredit, project_id: u32) -> int {
    if c.project_id == project_id {
        c.amount as int
    } else {
        0
    }
}

/// Whether a credit record was made out to a holder.
pub open spec fn owned_by(a: Address) -> spec_fn(CarbonCredit) -> bool {
    |c: CarbonCredit| c.owner == a
}

/// What the ledger holds, as mathematical values.
pub struct LedgerModel {
    /// The projects, each at the index of its id.
    pub projects: Seq<CarbonProject>,
    /// The issuance records, each at the index of its id.
    pub credits: Seq<CarbonCredit>,
    /// One entry for each holder that was ever credited.
    pub balances: Seq<(Address, i128)>,
    /// All credits ever retired.
    pub retired: int,
}

impl LedgerModel {
    pub open spec fn has_project(self, project_id: u32) -> bool {
        project_id < self.projects.len()
    }

    pub open spec fn project(self, project_id: u32) -> CarbonProject {
        self.projects[project_id as int]
    }

    /// The current balance of a holder; zero for one never credited.
    pub open spec fn balance_of(self, a: Address) -> int {
        lookup(self.balances, a)
    }

    /// The sum of all balances.
    pub open spec fn circulating(self) -> int {
        seq_sum(amounts(self.balances))
    }

    /// The sum of every project's `total_credits_issued`.
    pub open spec fn total_issued(self) -> int {
        seq_sum(self.projects.map_values(|p: CarbonProject| total_of(p)))
    }

    /// The sum of the amounts of the issuance records of one project.
    pub open spec fn issued_for(self, project_id: u32) -> int {
        seq_sum(self.credits.map_values(|c: CarbonCredit| share_of(c, project_id)))
    }

    /// The issuance records made out to a holder, in the order of issuance.
    pub open spec fn credits_of(self, a: Address) -> Seq<CarbonCredit> {
        self.credits.filter(owned_by(a))
    }

    /// No project is lost and no project's running total shrinks from `self` to `after`.
    pub open spec fn totals_grow_into(self, after: LedgerModel) -> bool {
        &&& self.projects.len() <= after.projects.len()
        &&& forall|i: int|
            0 <= i < self.projects.len() ==> (#[trigger] self.projects[i]).total_credits_issued
                <= after.projects[i].total_credits_issued
    }

    /// Ids are dense and match positions, every record is positive and names an
    /// existing project, each project's total is the sum of its records, balances
    /// are non-negative with one entry per holder, and balances plus retired
    /// credits are exactly what was issued, which fits in an `i128`.
    pub open spec fn wf(self) -> bool {
        &&& self.projects.len() <= u32::MAX
        &&& forall|i: int| 0 <= i < self.projects.len() ==> (#[trigger] self.projects[i]).id == i
        &&& forall|i: int|
            0 <= i < self.projects.len() ==> (#[trigger] self.projects[i]).total_credits_issued
                == self.issued_for(i as u32)
        &&& forall|k: int|
            0 <= k < self.credits.len() ==> {
                let c = #[trigger] self.credits[k];
                &&& c.id == k
                &&& c.amount > 0
                &&& c.project_id < self.projects.len()
            }
        &&& keys_unique(self.balances)
        &&& forall|i: int| 0 <= i < self.balances.len() ==> (#[trigger] self.balances[i]).1 >= 0
        &&& self.retired >= 0
        &&& self.circulating() + self.retired == self.total_issued()
        &&& self.total_issued() <= i128::MAX
    }
}

/// With unique holders, the entry at an index gives that holder's balance.
proof fn lemma_lookup_at(s: Seq<(Address, i128)>, i: int)
    requires
        keys_unique(s),
        0 <= i < s.len(),
    ensures
        lookup(s, s[i].0) == s[i].1,
{
    let j = choose|j: int| 0 <= j < s.len() && s[j].0 == s[i].0;
    assert(s[j].0 == s[i].0);
}

/// Non-negative entries: each balance lies between zero and the sum of all.
proof fn lemma_lookup_bounds(s: Seq<(Address, i128)>, a: Address)
    requires
        keys_unique(s),
        forall|i: int| 0 <= i < s.len() ==> (#[trigger] s[i]).1 >= 0,
    ensures
        0 <= lookup(s, a) <= seq_sum(amounts(s)),
{
    let m = amounts(s);
    assert forall|j: int| 0 <= j < m.len() implies m[j] >= 0 by {
        assert(s[j].1 >= 0);
    }
    lemma_sum_bounds(m);
    if exists|i: int| 0 <= i < s.len() && s[i].0 == a {
        let i = choose|i: int| 0 <= i < s.len() && s[i].0 == a;
        lemma_lookup_at(s, i);
        assert(m[i] == s[i].1);
    }
}

/// The index of a holder's balance entry, if it has one.
fn find_entry(v: &Vec<(Address, i128)>, a: Address) -> (r: Option<usize>)
    ensures
        match r {
            Some(i) => i < v@.len() && v@[i as int].0 == a,
            None => forall|i: int| 0 <= i < v@.len() ==> (#[trigger] v@[i]).0 != a,
        },
{
    let mut k: usize = 0;
    while k < v.len()
        invariant
            k <= v@.len(),
            forall|i: int| 0 <= i < k ==> (#[trigger] v@[i]).0 != a,
        decreases v@.len() - k,
    {
        if v[k].0 == a {
            return Some(k);
        }
        k = k + 1;
    }
    None
}

/// The balance that the entries give a holder.
fn read_balance(v: &Vec<(Address, i128)>, a: Address) -> (r: i128)
    requires
        keys_unique(v@),
    ensures
        r == lookup(v@, a),
{
    match find_entry(v, a) {
        Some(i) => {
            proof {
                lemma_lookup_at(v@, i as int);
            }
            v[i].1
        },
        None => 0,
    }
}

/// Sets a holder's balance, creating its entry where it has none.
fn write_balance(v: &mut Vec<(Address, i128)>, a: Address, value: i128)
    requires
        keys_unique(old(v)@),
    ensures
        keys_unique(final(v)@),
        lookup(final(v)@, a) == value,
        forall|b: Address| b != a ==> lookup(final(v)@, b) == lookup(old(v)@, b),
        seq_sum(amounts(final(v)@)) == seq_sum(amounts(old(v)@)) - lookup(old(v)@, a) + value,
        (forall|i: int| 0 <= i < old(v)@.len() ==> (#[trigger] old(v)@[i]).1 >= 0) && value >= 0
            ==> forall|i: int| 0 <= i < final(v)@.len() ==> (#[trigger] final(v)@[i]).1 >= 0,
{
    let ghost s = v@;
    match find_entry(v, a) {
        Some(i) => {
            proof {
                lemma_lookup_at(s, i as int);
            }
            v[i] = (a, value);
            proof {
                let t = v@;
                assert(t =~= s.update(i as int, (a, value)));
                assert(keys_unique(t)) by {
                    assert forall|x: int, y: int|
                        0 <= x < t.len() && 0 <= y < t.len() && #[trigger] t[x].0
                            == #[trigger] t[y].0 implies x == y by {
                        assert(s[x].0 == t[x].0 && s[y].0 == t[y].0);
                    }
                }
                lemma_lookup_at(t, i as int);
                assert forall|b: Address| b != a implies lookup(t, b) == lookup(s, b) by {
                    if exists|j: int| 0 <= j < s.len() && s[j].0 == b {
                        let j = choose|j: int| 0 <= j < s.len() && s[j].0 == b;
                        lemma_lookup_at(s, j);
                        lemma_lookup_at(t, j);
                    } else {
                        assert forall|j: int| 0 <= j < t.len() implies t[j].0 != b by {
                            assert(s[j].0 != b);
                        }
                    }
                }
                lemma_sum_update(amounts(s), i as int, value as int);
                assert(amounts(t) =~= amounts(s).update(i as int, value as int));
            }
        },
        None => {
            v.push((a, value));
            proof {
                let t = v@;
                assert(t =~= s.push((a, value)));
                lemma_lookup_at(t, s.len() as int);
                assert forall|b: Address| b != a implies lookup(t, b) == lookup(s, b) by {
                    if exists|j: int| 0 <= j < s.len() && s[j].0 == b {
                        let j = choose|j: int| 0 <= j < s.len() && s[j].0 == b;
                        lemma_lookup_at(s, j);
                        lemma_lookup_at(t, j);
                    } else {
                        assert forall|j: int| 0 <= j < t.len() implies t[j].0 != b by {
                            if j < s.len() {
                                assert(s[j].0 != b);
                            }
                        }
                    }
                }
                lemma_sum_push(amounts(s), value as int);
                assert(amounts(t) =~= amounts(s).push(value as int));
            }
        },
    }
}

/// A ledger of carbon-offset projects, their issuance records and the
/// balances of the holders.
pub struct CarbonCredits {
    projects: Vec<CarbonProject>,
    credits: Vec<CarbonCredit>,
    balances: Vec<(Address, i128)>,
    retired: i128,
}

impl View for CarbonCredits {
    type V = LedgerModel;

    closed spec fn view(&self) -> LedgerModel {
        LedgerModel {
            projects: self.projects@,
            credits: self.credits@,
            balances: self.balances@,
            retired: self.retired as int,
        }
    }
}

impl CarbonCredits {
    /// The ledger's invariant; every operation keeps it.
    pub open spec fn wf(&self) -> bool {
        self@.wf()
    }

    /// An empty ledger: no projects, no records, no balances, nothing retired.
    pub fn init() -> (r: CarbonCredits)
        ensures
            r.wf(),
            r@.projects.len() == 0,
            r@.credits.len() == 0,
            r@.balances.len() == 0,
            r@.retired == 0,
            r@.total_issued() == 0,
    {
        let r = CarbonCredits {
            projects: Vec::new(),
            credits: Vec::new(),
            balances: Vec::new(),
            retired: 0,
        };
        proof {
            assert(amounts(r.balances@) =~= Seq::<int>::empty());
            assert(r@.projects.map_values(|p: CarbonProject| total_of(p)) =~= Seq::<int>::empty());
        }
        r
    }

    /// Registers a project under the next id, with nothing issued yet.
    /// Registration is open: any caller may name any issuer.
    pub fn register_project(
        &mut self,
        issuer: Address,
        name: String,
        location: String,
        project_type: String,
        description: String,
        now: u64,
    ) -> (r: u32)
        requires
            old(self).wf(),
            old(self)@.projects.len() < u32::MAX,
        ensures
            final(self).wf(),
            old(self)@.totals_grow_into(final(self)@),
            r == old(self)@.projects.len(),
            final(self)@.projects == old(self)@.projects.push(
                new_project(r, issuer, name, location, project_type, description, now),
            ),
            final(self)@.credits == old(self)@.credits,
            final(self)@.balances == old(self)@.balances,
            final(self)@.retired == old(self)@.retired,
            final(self)@.total_issued() == old(self)@.total_issued(),
    {
        let ghost m = self@;
        let project_id = self.projects.len() as u32;
        let project = CarbonProject {
            id: project_id,
            name,
            location,
            project_type,
            description,
            issuer,
            created_at: now,
            total_credits_issued: 0,
        };
        self.projects.push(project);
        proof {
            let n = self@;
            let f = |p: CarbonProject| total_of(p);
            assert(n.projects.map_values(f) =~= m.projects.map_values(f).push(0));
            lemma_sum_push(m.projects.map_values(f), 0);
            assert(n.circulating() == m.circulating());
            let z = m.credits.map_values(|c: CarbonCredit| share_of(c, project_id));
            assert forall|j: int| 0 <= j < z.len() implies z[j] == 0 by {
                assert(m.credits[j].project_id < m.projects.len());
            }
            lemma_sum_zeros(z);
            assert forall|i: int| 0 <= i < n.projects.len() implies (#[trigger] n.projects[i]).total_credits_issued
                == n.issued_for(i as u32) by {
                if i < m.projects.len() {
                    assert(n.projects[i] == m.projects[i]);
                }
            }
        }
        project_id
    }

    /// Issues `amount` credits of `project_id` to `recipient`, on behalf of the
    /// project's issuer. Refused with `NotFound` for an unknown project, then with
    /// `Unauthorized` where `issuer` is not the project's issuer, then with
    /// `InvalidAmount` for an amount that is not positive. A refusal changes nothing.
    /// Every running total is an `i128`, so an issuance that is granted must keep
    /// the sum of all issued amounts within that range.
    pub fn issue_credits(
        &mut self,
        issuer: Address,
        project_id: u32,
        amount: i128,
        vintage: u32,
        recipient: Address,
        now: u64,
    ) -> (r: Result<CreditBatch, LedgerError>)
        requires
            old(self).wf(),
            old(self)@.has_project(project_id) && issuer == old(self)@.project(project_id).issuer
                && amount > 0 ==> old(self)@.total_issued() + amount <= i128::MAX,
        ensures
            final(self).wf(),
            old(self)@.totals_grow_into(final(self)@),
            !old(self)@.has_project(project_id) ==> r == Err::<CreditBatch, LedgerError>(
                LedgerError::NotFound,
            ),
            old(self)@.has_project(project_id) && issuer != old(self)@.project(project_id).issuer
                ==> r == Err::<CreditBatch, LedgerError>(LedgerError::Unauthorized),
            old(self)@.has_project(project_id) && issuer == old(self)@.project(project_id).issuer
                && amount <= 0 ==> r == Err::<CreditBatch, LedgerError>(LedgerError::InvalidAmount),
            old(self)@.has_project(project_id) && issuer == old(self)@.project(project_id).issuer
                && amount > 0 ==> r == Ok::<CreditBatch, LedgerError>(
                (CreditBatch { project_id, amount, vintage, issued_at: now }),
            ),
            r is Err ==> final(self)@ == old(self)@,
            r is Ok ==> {
                &&& final(self)@.projects == old(self)@.projects.update(
                    project_id as int,
                    with_total(
                        old(self)@.project(project_id),
                        (old(self)@.project(project_id).total_credits_issued + amount) as i128,
                    ),
                )
                &&& final(self)@.credits == old(self)@.credits.push(
                    (CarbonCredit {
                        id: old(self)@.credits.len() as u128,
                        project_id,
                        amount,
                        owner: recipient,
                        issued_at: now,
                        vintage,
                        retired: false,
                    }),
                )
                &&& forall|a: Address|
                    #[trigger] final(self)@.balance_of(a) == old(self)@.balance_of(a) + if a
                        == recipient {
                        amount as int
                    } else {
                        0
                    }
                &&& final(self)@.retired == old(self)@.retired
                &&& final(self)@.total_issued() == old(self)@.total_issued() + amount
            },
    {
        let ghost m = self@;
        if project_id as usize >= self.projects.len() {
            return Err(LedgerError::NotFound);
        }
        let i = project_id as usize;
        if self.projects[i].issuer != issuer {
            return Err(LedgerError::Unauthorized);
        }
        if amount <= 0 {
            return Err(LedgerError::InvalidAmount);
        }
        let ghost f = |p: CarbonProject| total_of(p);
        proof {
            let c = m.credits.map_values(|c: CarbonCredit| share_of(c, project_id));
            assert forall|j: int| 0 <= j < c.len() implies c[j] >= 0 by {
                assert(m.credits[j].amount > 0);
            }
            lemma_sum_bounds(c);
            let t = m.projects.map_values(f);
            assert forall|j: int| 0 <= j < t.len() implies t[j] >= 0 by {
                let q = m.credits.map_values(|c: CarbonCredit| share_of(c, j as u32));
                assert forall|k: int| 0 <= k < q.len() implies q[k] >= 0 by {
                    assert(m.credits[k].amount > 0);
                }
                lemma_sum_bounds(q);
                assert(m.projects[j].total_credits_issued == m.issued_for(j as u32));
            }
            lemma_sum_bounds(t);
            assert(t[i as int] == m.projects[i as int].total_credits_issued);
            lemma_lookup_bounds(m.balances, recipient);
        }
        let credit_id = self.credits.len() as u128;
        let mut project = copy_project(&self.projects[i]);
        project.total_credits_issued = project.total_credits_issued + amount;
        self.projects[i] = project;
        let credit = CarbonCredit {
            id: credit_id,
            project_id,
            amount,
            owner: recipient,
            issued_at: now,
            vintage,
            retired: false,
        };
        self.credits.push(credit);
        let current = read_balance(&self.balances, recipient);
        write_balance(&mut self.balances, recipient, current + amount);
        proof {
            let n = self@;
            lemma_sum_update(m.projects.map_values(f), i as int, total_of(n.projects[i as int]));
            assert(n.projects.map_values(f) =~= m.projects.map_values(f).update(
                i as int,
                total_of(n.projects[i as int]),
            ));
            assert forall|q: u32| #[trigger] n.issued_for(q) == m.issued_for(q) + share_of(credit, q) by {
                let g = |c: CarbonCredit| share_of(c, q);
                assert(n.credits.map_values(g) =~= m.credits.map_values(g).push(share_of(credit, q)));
                lemma_sum_push(m.credits.map_values(g), share_of(credit, q));
            }
            assert forall|j: int| 0 <= j < n.projects.len() implies (#[trigger] n.projects[j]).total_credits_issued
                == n.issued_for(j as u32) by {
                assert(n.issued_for(j as u32) == m.issued_for(j as u32) + share_of(credit, j as u32));
            }
            assert forall|k: int| 0 <= k < n.credits.len() implies {
                let c = #[trigger] n.credits[k];
                &&& c.id == k
                &&& c.amount > 0
                &&& c.project_id < n.projects.len()
            } by {
                if k < m.credits.len() {
                    assert(n.credits[k] == m.credits[k]);
                }
            }
            assert(n.projects =~= m.projects.update(
                project_id as int,
                with_total(m.project(project_id), (m.project(project_id).total_credits_issued + amount) as i128),
            ));
        }
        Ok(CreditBatch { project_id, amount, vintage, issued_at: now })
    }

    /// Moves `amount` credits from `from` to `to`. Refused with `InvalidAmount`
    /// for an amount that is not positive, then with `InsufficientBalance` where
    /// `from` holds less; a refusal changes nothing. A transfer to oneself
    /// leaves every balance as it was.
    pub fn transfer(&mut self, from: Address, to: Address, amount: i128) -> (r: Result<(), LedgerError>)
        requires
            old(self).wf(),
        ensures
            final(self).wf(),
            old(self)@.totals_grow_into(final(self)@),
            amount <= 0 ==> r == Err::<(), LedgerError>(LedgerError::InvalidAmount),
            amount > 0 && old(self)@.balance_of(from) < amount ==> r == Err::<(), LedgerError>(
                LedgerError::InsufficientBalance,
            ),
            amount > 0 && old(self)@.balance_of(from) >= amount ==> r == Ok::<(), LedgerError>(()),
            r is Err ==> final(self)@ == old(self)@,
            r is Ok ==> {
                &&& final(self)@.projects == old(self)@.projects
                &&& final(self)@.credits == old(self)@.credits
                &&& final(self)@.retired == old(self)@.retired
                &&& forall|a: Address|
                    #[trigger] final(self)@.balance_of(a) == old(self)@.balance_of(a) - (if a
                        == from {
                        amount as int
                    } else {
                        0
                    }) + (if a == to {
                        amount as int
                    } else {
                        0
                    })
            },
    {
        let ghost m = self@;
        if amount <= 0 {
            return Err(LedgerError::InvalidAmount);
        }
        let from_balance = read_balance(&self.balances, from);
        if from_balance < amount {
            return Err(LedgerError::InsufficientBalance);
        }
        proof {
            lemma_lookup_bounds(m.balances, from);
        }
        write_balance(&mut self.balances, from, from_balance - amount);
        let ghost mid = self.balances@;
        proof {
            lemma_lookup_bounds(mid, to);
        }
        let to_balance = read_balance(&self.balances, to);
        write_balance(&mut self.balances, to, to_balance + amount);
        Ok(())
    }

    /// Retires `amount` credits of `owner` for good and returns the new total of
    /// retired credits. Refused with `InvalidAmount` for an amount that is not
    /// positive, then with `InsufficientBalance` where `owner` holds less; a
    /// refusal changes nothing.
    pub fn retire(&mut self, owner: Address, amount: i128) -> (r: Result<i128, LedgerError>)
        requires
            old(self).wf(),
        ensures
            final(self).wf(),
            old(self)@.totals_grow_into(final(self)@),
            amount <= 0 ==> r == Err::<i128, LedgerError>(LedgerError::InvalidAmount),
            amount > 0 && old(self)@.balance_of(owner) < amount ==> r == Err::<i128, LedgerError>(
                LedgerError::InsufficientBalance,
            ),
            amount > 0 && old(self)@.balance_of(owner) >= amount ==> r == Ok::<i128, LedgerError>(
                (old(self)@.retired + amount) as i128,
            ),
            r is Err ==> final(self)@ == old(self)@,
            r is Ok ==> {
                &&& final(self)@.projects == old(self)@.projects
                &&& final(self)@.credits == old(self)@.credits
                &&& final(self)@.retired == old(self)@.retired + amount
                &&& forall|a: Address|
                    #[trigger] final(self)@.balance_of(a) == old(self)@.balance_of(a) - if a
                        == owner {
                        amount as int
                    } else {
                        0
                    }
            },
    {
        if amount <= 0 {
            return Err(LedgerError::InvalidAmount);
        }
        let balance = read_balance(&self.balances, owner);
        if balance < amount {
            return Err(LedgerError::InsufficientBalance);
        }
        proof {
            lemma_lookup_bounds(self.balances@, owner);
        }
        write_balance(&mut self.balances, owner, balance - amount);
        self.retired = self.retired + amount;
        Ok(self.retired)
    }

    /// The project with the given id; `NotFound` where there is none.
    pub fn get_project(&self, project_id: u32) -> (r: Result<CarbonProject, LedgerError>)
        requires
            self.wf(),
        ensures
            self@.has_project(project_id) ==> r == Ok::<CarbonProject, LedgerError>(
                self@.project(project_id),
            ),
            !self@.has_project(project_id) ==> r == Err::<CarbonProject, LedgerError>(
                LedgerError::NotFound,
            ),
    {
        if (project_id as usize) < self.projects.len() {
            Ok(copy_project(&self.projects[project_id as usize]))
        } else {
            Err(LedgerError::NotFound)
        }
    }

    /// Every project, in the order of their ids.
    pub fn get_all_projects(&self) -> (r: Vec<CarbonProject>)
        requires
            self.wf(),
        ensures
            r@ == self@.projects,
    {
        let mut out: Vec<CarbonProject> = Vec::new();
        let mut i: usize = 0;
        while i < self.projects.len()
            invariant
                i <= self.projects@.len(),
                out@ == self.projects@.take(i as int),
            decreases self.projects@.len() - i,
        {
            out.push(copy_project(&self.projects[i]));
            i = i + 1;
            proof {
                assert(out@ =~= self.projects@.take(i as int));
            }
        }
        proof {
            assert(self.projects@.take(i as int) =~= self.projects@);
        }
        out
    }

    /// The issuance records made out to `address`, in the order of issuance.
    /// They tell the history of issuance, not what the holder holds now.
    pub fn get_credits(&self, address: Address) -> (r: Vec<CarbonCredit>)
        requires
            self.wf(),
        ensures
            r@ == self@.credits_of(address),
    {
        let mut out: Vec<CarbonCredit> = Vec::new();
        let mut i: usize = 0;
        while i < self.credits.len()
            invariant
                i <= self.credits@.len(),
                out@ == self.credits@.take(i as int).filter(owned_by(address)),
            decreases self.credits@.len() - i,
        {
            let c = self.credits[i];
            proof {
                assert(self.credits@.take(i as int + 1) =~= self.credits@.take(i as int).push(c));
                self.credits@.take(i as int).lemma_filter_push(c, owned_by(address));
                assert(owned_by(address)(c) == (c.owner == address));
            }
            if c.owner == address {
                out.push(c);
            }
            i = i + 1;
        }
        proof {
            assert(self.credits@.take(i as int) =~= self.credits@);
        }
        out
    }

    /// The current balance of a holder; zero for one never credited.
    pub fn balance(&self, address: Address) -> (r: i128)
        requires
            self.wf(),
        ensures
            r == self@.balance_of(address),
            r >= 0,
    {
        proof {
            lemma_lookup_bounds(self.balances@, address);
        }
        read_balance(&self.balances, address)
    }

    /// All credits ever retired.
    pub fn total_retired(&self) -> (r: i128)
        ensures
            r == self@.retired,
    {
        self.retired
    }
}

} // verus!
