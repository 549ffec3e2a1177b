//! Crowdfunding campaigns: pooled investment toward a target, with a
//! one-way lifecycle `Active -> Completed` (target reached) or
//! `Active -> Failed` (deadline passed), and refunds of recorded
//! contributions once a campaign has failed.

use vstd::prelude::*;

use crate::authority::AuthorityStore;
use crate::errors::CoreError;
use crate::ledger::account_of;
use crate::ledger::Account;
use crate::ledger::Ledger;

verus! {

/// The kind of asset a campaign tokenizes.
#[derive(Clone, Copy, PartialEq, Eq, Structural, Debug)]
pub enum AssetType {
    Arena,
    Driver,
    Kart,
}

/// Lifecycle of a campaign: `Active -> Completed` or `Active -> Failed`,
/// both terminal.
#[derive(Clone, Copy, PartialEq, Eq, Structural, Debug)]
pub enum CampaignStatus {
    Active,
    Completed,
    Failed,
}

/// A crowdfunding campaign.  `investors` records each contributor's
/// accumulated amount; the entries always sum to `current_amount`.
#[derive(Clone, Debug)]
pub struct TokenizationCampaign {
    pub id: u64,
    pub name: String,
    pub description: String,
    pub target_amount: u64,
    pub current_amount: u64,
    pub asset_type: AssetType,
    pub status: CampaignStatus,
    pub investors: Vec<(u64, u64)>,
    pub end_time: u64,
}

/// Every investor appears at most once.
pub open spec fn investor_keys_distinct(s: Seq<(u64, u64)>) -> bool {
    forall|i: int, j: int| 0 <= i < j < s.len() ==> s[i].0 != s[j].0
}

/// The sum of all recorded contributions.
pub open spec fn contributions_sum(s: Seq<(u64, u64)>) -> int
    decreases s.len(),
{
    if s.len() == 0 {
        0
    } else {
        s[0].1 + contributions_sum(s.drop_first())
    }
}

/// The recorded contribution of `p`: the first entry for `p`, or 0.
pub open spec fn contribution_of(s: Seq<(u64, u64)>, p: u64) -> nat
    decreases s.len(),
{
    if s.len() == 0 {
        0
    } else if s[0].0 == p {
        s[0].1 as nat
    } else {
        contribution_of(s.drop_first(), p)
    }
}

/// The first entry for `p` gives the contribution of `p`.
proof fn lemma_contribution_first_match(s: Seq<(u64, u64)>, p: u64, i: int)
    requires
        0 <= i < s.len(),
        s[i].0 == p,
        forall|j: int| 0 <= j < i ==> s[j].0 != p,
    ensures
        contribution_of(s, p) == s[i].1 as nat,
    decreases s.len(),
{
    if i > 0 {
        lemma_contribution_first_match(s.drop_first(), p, i - 1);
    }
}

/// An investor with no entry has contribution 0.
proof fn lemma_contribution_absent(s: Seq<(u64, u64)>, p: u64)
    requires
        forall|j: int| 0 <= j < s.len() ==> s[j].0 != p,
    ensures
        contribution_of(s, p) == 0,
    decreases s.len(),
{
    if s.len() > 0 {
        lemma_contribution_absent(s.drop_first(), p);
    }
}

proof fn lemma_contributions_sum_nonneg(s: Seq<(u64, u64)>)
    ensures
        contributions_sum(s) >= 0,
    decreases s.len(),
{
    if s.len() > 0 {
        lemma_contributions_sum_nonneg(s.drop_first());
    }
}

/// No single contribution exceeds the sum of all contributions.
pub proof fn lemma_contribution_le_sum(s: Seq<(u64, u64)>, p: u64)
    ensures
        contribution_of(s, p) <= contributions_sum(s),
    decreases s.len(),
{
    if s.len() == 0 {
    } else if s[0].0 == p {
        lemma_contributions_sum_nonneg(s.drop_first());
    } else {
        lemma_contribution_le_sum(s.drop_first(), p);
    }
}

/// Updating the amount at `i` moves the sum by the difference.
proof fn lemma_contributions_sum_update(s: Seq<(u64, u64)>, i: int, e: (u64, u64))
    requires
        0 <= i < s.len(),
    ensures
        contributions_sum(s.update(i, e)) == contributions_sum(s) - s[i].1 + e.1,
    decreases s.len(),
{
    let s2 = s.update(i, e);
    if i == 0 {
        assert(s2.drop_first() =~= s.drop_first());
    } else {
        assert(s2.drop_first() =~= s.drop_first().update(i - 1, e));
        lemma_contributions_sum_update(s.drop_first(), i - 1, e);
    }
}

/// Updating entry `i` without changing its key leaves every other
/// investor's contribution as it was.
proof fn lemma_contribution_update_other(s: Seq<(u64, u64)>, i: int, e: (u64, u64), p: u64)
    requires
        0 <= i < s.len(),
        e.0 == s[i].0,
        p != e.0,
    ensures
        contribution_of(s.update(i, e), p) == contribution_of(s, p),
    decreases s.len(),
{
    let s2 = s.update(i, e);
    if i == 0 {
        assert(s2.drop_first() =~= s.drop_first());
    } else {
        assert(s2.drop_first() =~= s.drop_first().update(i - 1, e));
        lemma_contribution_update_other(s.drop_first(), i - 1, e, p);
    }
}

/// Appending an entry adds its amount to the sum.
proof fn lemma_contributions_sum_push(s: Seq<(u64, u64)>, e: (u64, u64))
    ensures
        contributions_sum(s.push(e)) == contributions_sum(s) + e.1,
    decreases s.len(),
{
    let q = s.push(e);
    assert(q[s.len() as int] == e);
    if s.len() == 0 {
        assert(q.drop_first() =~= Seq::<(u64, u64)>::empty());
        assert(contributions_sum(q.drop_first()) == 0);
    } else {
        assert(q[0] == s[0]);
        assert(q.drop_first() =~= s.drop_first().push(e));
        lemma_contributions_sum_push(s.drop_first(), e);
    }
}

/// Appending an entry leaves every other investor's contribution as it
/// was.
proof fn lemma_contribution_push_other(s: Seq<(u64, u64)>, e: (u64, u64), p: u64)
    requires
        p != e.0,
    ensures
        contribution_of(s.push(e), p) == contribution_of(s, p),
    decreases s.len(),
{
    let q = s.push(e);
    assert(q[s.len() as int] == e);
    if s.len() == 0 {
        assert(q.drop_first() =~= Seq::<(u64, u64)>::empty());
        assert(contribution_of(q.drop_first(), p) == 0);
    } else {
        assert(q[0] == s[0]);
        assert(q.drop_first() =~= s.drop_first().push(e));
        lemma_contribution_push_other(s.drop_first(), e, p);
    }
}

/// The recorded contribution of `p`, read from the investor list.
fn get_contribution(investors: &Vec<(u64, u64)>, p: u64) -> (r: u64)
    ensures
        r as nat == contribution_of(investors@, p),
{
    let mut i: usize = 0;
    while i < investors.len()
        invariant
            i <= investors@.len(),
            forall|j: int| 0 <= j < i ==> investors@[j].0 != p,
        decreases investors@.len() - i,
    {
        if investors[i].0 == p {
            proof {
                lemma_contribution_first_match(investors@, p, i as int);
            }
            return investors[i].1;
        }
        i = i + 1;
    }
    proof {
        lemma_contribution_absent(investors@, p);
    }
    0
}

/// Sets the recorded contribution of `p` to `value`, keeping keys unique
/// and moving the contribution sum by exactly the difference.
fn set_contribution(investors: &mut Vec<(u64, u64)>, p: u64, value: u64)
    requires
        investor_keys_distinct(old(investors)@),
    ensures
        investor_keys_distinct(final(investors)@),
        contribution_of(final(investors)@, p) == value,
        forall|q: u64| q != p ==> contribution_of(final(investors)@, q) == contribution_of(
            old(investors)@,
            q,
        ),
        contributions_sum(final(investors)@) == contributions_sum(old(investors)@)
            - contribution_of(old(investors)@, p) + value,
{
    let entry = (p, value);
    let ghost s = investors@;
    let mut i: usize = 0;
    while i < investors.len()
        invariant
            i <= s.len(),
            s == investors@,
            s == old(investors)@,
            entry == (p, value),
            investor_keys_distinct(s),
            forall|j: int| 0 <= j < i ==> s[j].0 != p,
        decreases s.len() - i,
    {
        if investors[i].0 == p {
            proof {
                assert(entry.0 == p);
                assert(s[i as int].0 == p);
                lemma_contribution_first_match(s, p, i as int);
                lemma_contributions_sum_update(s, i as int, entry);
                assert forall|q: u64| q != p implies contribution_of(s.update(i as int, entry), q)
                    == contribution_of(s, q) by {
                    lemma_contribution_update_other(s, i as int, entry, q);
                }
                let s2 = s.update(i as int, entry);
                assert forall|a: int, b: int| 0 <= a < b < s2.len() implies s2[a].0 != s2[b].0 by {
                    assert(s[a].0 != s[b].0);
                }
                assert(investor_keys_distinct(s2));
                lemma_contribution_first_match(s2, p, i as int);
            }
            investors.set(i, entry);
            return ;
        }
        i = i + 1;
    }
    proof {
        lemma_contribution_absent(s, p);
        lemma_contributions_sum_push(s, entry);
        assert forall|q: u64| q != p implies contribution_of(s.push(entry), q) == contribution_of(
            s,
            q,
        ) by {
            lemma_contribution_push_other(s, entry, q);
        }
        let s2 = s.push(entry);
        assert forall|a: int, b: int| 0 <= a < b < s2.len() implies s2[a].0 != s2[b].0 by {
            if b < s.len() {
                assert(s[a].0 != s[b].0);
            } else {
                assert(s2[b] == entry);
                assert(s[a].0 != p);
            }
        }
        assert(investor_keys_distinct(s2));
        lemma_contribution_first_match(s2, p, s.len() as int);
    }
    investors.push(entry);
}

/// Per-campaign invariant: unique investor keys whose contributions sum
/// to the accumulated amount.
pub open spec fn campaign_wf(c: TokenizationCampaign) -> bool {
    &&& investor_keys_distinct(c.investors@)
    &&& contributions_sum(c.investors@) == c.current_amount as int
}

/// The campaign store.  Identifiers are dense and one-based.
pub struct CampaignStore {
    pub campaigns: Vec<TokenizationCampaign>,
    pub holding: Account,
}

impl CampaignStore {
    pub open spec fn wf(self) -> bool {
        &&& forall|i: int|
            0 <= i < self.campaigns@.len() ==> #[trigger] self.campaigns@[i].id == i + 1
        &&& forall|i: int|
            0 <= i < self.campaigns@.len() ==> campaign_wf(#[trigger] self.campaigns@[i])
    }

    /// Whether a campaign with this id exists.
    pub open spec fn spec_has(self, campaign_id: u64) -> bool {
        1 <= campaign_id <= self.campaigns@.len()
    }

    /// The campaign with this id (meaningful only when `spec_has`).
    pub open spec fn spec_campaign(self, campaign_id: u64) -> TokenizationCampaign {
        self.campaigns@[campaign_id - 1]
    }

    /// An empty store whose escrow sits in `holding`.
    pub fn new(holding: Account) -> (store: CampaignStore)
        ensures
            store.wf(),
            store.campaigns@.len() == 0,
            store.holding == holding,
    {
        CampaignStore { campaigns: Vec::new(), holding }
    }

    /// The index of the campaign with this id, if it exists.
    fn index_of(&self, campaign_id: u64) -> (r: Option<usize>)
        ensures
            match r {
                Some(i) => self.spec_has(campaign_id) && i as int == campaign_id - 1 && i
                    < self.campaigns@.len() && self.campaigns@[i as int] == self.spec_campaign(
                    campaign_id,
                ),
                None => !self.spec_has(campaign_id),
            },
    {
        if campaign_id >= 1 && campaign_id <= self.campaigns.len() as u64 {
            proof {
                assert(campaign_id - 1 < self.campaigns@.len());
            }
            Some((campaign_id - 1) as usize)
        } else {
            None
        }
    }

    /// Creates a campaign in `Active` state, running until `now +
    /// duration`.  Admin-only.
    pub fn create_campaign(
        &mut self,
        authority: &AuthorityStore,
        caller: u64,
        name: String,
        description: String,
        target_amount: u64,
        asset_type: AssetType,
        duration: u64,
        now: u64,
    ) -> (r: Result<u64, CoreError>)
        requires
            old(self).wf(),
        ensures
            final(self).wf(),
            final(self).holding == old(self).holding,
            !authority.spec_is_admin(caller) ==> (r == Err::<u64, CoreError>(
                CoreError::NotAuthorized,
            ) && *final(self) == *old(self)),
            authority.spec_is_admin(caller) && now + duration > u64::MAX ==> (r == Err::<
                u64,
                CoreError,
            >(CoreError::Overflow) && *final(self) == *old(self)),
            authority.spec_is_admin(caller) && now + duration <= u64::MAX && old(
                self,
            ).campaigns@.len() + 1 > u64::MAX ==> (r == Err::<u64, CoreError>(CoreError::Overflow)
                && *final(self) == *old(self)),
            authority.spec_is_admin(caller) && now + duration <= u64::MAX && old(
                self,
            ).campaigns@.len() + 1 <= u64::MAX ==> ({
                let c = final(self).campaigns@[old(self).campaigns@.len() as int];
                &&& r == Ok::<u64, CoreError>((old(self).campaigns@.len() + 1) as u64)
                &&& final(self).campaigns@.len() == old(self).campaigns@.len() + 1
                &&& (forall|j: int|
                    0 <= j < old(self).campaigns@.len() ==> final(self).campaigns@[j] == old(
                        self,
                    ).campaigns@[j])
                &&& c.id == old(self).campaigns@.len() + 1
                &&& c.name == name
                &&& c.description == description
                &&& c.target_amount == target_amount
                &&& c.current_amount == 0
                &&& c.asset_type == asset_type
                &&& c.status == CampaignStatus::Active
                &&& c.investors@.len() == 0
                &&& c.end_time == now + duration
            }),
    {
        if !authority.is_admin(caller) {
            return Err(CoreError::NotAuthorized);
        }
        if duration > u64::MAX - now {
            return Err(CoreError::Overflow);
        }
        let count: u64 = self.campaigns.len() as u64;
        if count == u64::MAX {
            return Err(CoreError::Overflow);
        }
        let campaign_id: u64 = count + 1;
        let campaign = TokenizationCampaign {
            id: campaign_id,
            name,
            description,
            target_amount,
            current_amount: 0,
            asset_type,
            status: CampaignStatus::Active,
            investors: Vec::new(),
            end_time: now + duration,
        };
        self.campaigns.push(campaign);
        Ok(campaign_id)
    }

    /// Invests `amount` into an `Active`, unexpired campaign: the funds
    /// are escrowed into the holding account and the contribution is
    /// recorded; reaching the target flips the status to `Completed` —
    /// exactly once — and the call returns `Ok(true)` so that reward
    /// issuance can be triggered.  A call after the end time flips the
    /// status to `Failed` and fails with `CampaignExpired` (the one
    /// error that also transitions state).
    pub fn invest_in_campaign(
        &mut self,
        ledger: &mut Ledger,
        caller: u64,
        campaign_id: u64,
        amount: u64,
        now: u64,
    ) -> (r: Result<bool, CoreError>)
        requires
            old(self).wf(),
            old(ledger).wf(),
        ensures
            final(self).wf(),
            final(ledger).wf(),
            final(self).holding == old(self).holding,
            final(ledger).supply == old(ledger).supply,
            !old(self).spec_has(campaign_id) ==> (r == Err::<bool, CoreError>(CoreError::NotFound)
                && *final(self) == *old(self) && *final(ledger) == *old(ledger)),
            old(self).spec_has(campaign_id) && old(self).spec_campaign(campaign_id).status
                != CampaignStatus::Active ==> (r == Err::<bool, CoreError>(CoreError::InvalidState)
                && *final(self) == *old(self) && *final(ledger) == *old(ledger)),
            old(self).spec_has(campaign_id) && old(self).spec_campaign(campaign_id).status
                == CampaignStatus::Active && now > old(self).spec_campaign(campaign_id).end_time
                ==> ({
                let c = old(self).spec_campaign(campaign_id);
                let n = final(self).spec_campaign(campaign_id);
                &&& r == Err::<bool, CoreError>(CoreError::CampaignExpired)
                &&& *final(ledger) == *old(ledger)
                &&& final(self).campaigns@.len() == old(self).campaigns@.len()
                &&& (forall|j: int|
                    0 <= j < old(self).campaigns@.len() && j != campaign_id - 1 ==> final(self).campaigns@[j] == old(self).campaigns@[j])
                &&& n.status == CampaignStatus::Failed
                &&& n.id == c.id
                &&& n.name == c.name
                &&& n.description == c.description
                &&& n.target_amount == c.target_amount
                &&& n.current_amount == c.current_amount
                &&& n.asset_type == c.asset_type
                &&& n.investors@ == c.investors@
                &&& n.end_time == c.end_time
            }),
            old(self).spec_has(campaign_id) && old(self).spec_campaign(campaign_id).status
                == CampaignStatus::Active && now <= old(self).spec_campaign(campaign_id).end_time
                ==> ({
                let c = old(self).spec_campaign(campaign_id);
                let payer = account_of(caller, None);
                &&& (c.current_amount + amount > u64::MAX ==> (r == Err::<bool, CoreError>(
                    CoreError::Overflow,
                ) && *final(self) == *old(self) && *final(ledger) == *old(ledger)))
                &&& (c.current_amount + amount <= u64::MAX && old(ledger).spec_balance(payer)
                    < amount ==> (r == Err::<bool, CoreError>(
                    CoreError::InsufficientFunds {
                        balance: old(ledger).spec_balance(payer) as u64,
                    },
                ) && *final(self) == *old(self) && *final(ledger) == *old(ledger)))
                &&& (c.current_amount + amount <= u64::MAX && old(ledger).spec_balance(payer)
                    >= amount ==> ({
                    let n = final(self).spec_campaign(campaign_id);
                    let reached = c.current_amount + amount >= c.target_amount;
                    &&& r == Ok::<bool, CoreError>(reached)
                    &&& final(self).campaigns@.len() == old(self).campaigns@.len()
                    &&& (forall|j: int|
                        0 <= j < old(self).campaigns@.len() && j != campaign_id - 1 ==> final(self).campaigns@[j] == old(self).campaigns@[j])
                    &&& n.current_amount == c.current_amount + amount
                    &&& n.status == (if reached {
                        CampaignStatus::Completed
                    } else {
                        CampaignStatus::Active
                    })
                    &&& contribution_of(n.investors@, caller) == contribution_of(
                        c.investors@,
                        caller,
                    ) + amount
                    &&& (forall|q: u64|
                        q != caller ==> contribution_of(n.investors@, q) == contribution_of(
                            c.investors@,
                            q,
                        ))
                    &&& n.id == c.id
                    &&& n.name == c.name
                    &&& n.description == c.description
                    &&& n.target_amount == c.target_amount
                    &&& n.asset_type == c.asset_type
                    &&& n.end_time == c.end_time
                    &&& (payer == old(self).holding ==> forall|b: Account|
                        final(ledger).spec_balance(b) == old(ledger).spec_balance(b))
                    &&& (payer != old(self).holding ==> {
                        &&& final(ledger).spec_balance(payer) == old(ledger).spec_balance(payer)
                            - amount
                        &&& final(ledger).spec_balance(old(self).holding) == old(
                            ledger,
                        ).spec_balance(old(self).holding) + amount
                        &&& forall|b: Account|
                            b != payer && b != old(self).holding ==> final(ledger).spec_balance(b)
                                == old(ledger).spec_balance(b)
                    })
                }))
            }),
    {
        let i = match self.index_of(campaign_id) {
            Some(i) => i,
            None => { return Err(CoreError::NotFound) },
        };
        if self.campaigns[i].status != CampaignStatus::Active {
            return Err(CoreError::InvalidState);
        }
        if now > self.campaigns[i].end_time {
            let mut campaign = self.campaigns.remove(i);
            campaign.status = CampaignStatus::Failed;
            self.campaigns.insert(i, campaign);
            proof {
                assert(forall|j: int|
                    0 <= j < old(self).campaigns@.len() && j != i ==> self.campaigns@[j] == old(
                        self,
                    ).campaigns@[j]);
            }
            return Err(CoreError::CampaignExpired);
        }
        if amount > u64::MAX - self.campaigns[i].current_amount {
            return Err(CoreError::Overflow);
        }
        let payer = Account { owner: caller, subaccount: None };
        let balance = ledger.balance_of(&payer);
        if balance < amount {
            return Err(CoreError::InsufficientFunds { balance });
        }
        let _ = ledger.transfer_from(payer, self.holding, amount);
        let mut campaign = self.campaigns.remove(i);
        let recorded = get_contribution(&campaign.investors, caller);
        proof {
            lemma_contribution_le_sum(campaign.investors@, caller);
        }
        set_contribution(&mut campaign.investors, caller, recorded + amount);
        campaign.current_amount = campaign.current_amount + amount;
        let reached = campaign.current_amount >= campaign.target_amount;
        if reached {
            campaign.status = CampaignStatus::Completed;
        }
        self.campaigns.insert(i, campaign);
        proof {
            assert(forall|j: int|
                0 <= j < old(self).campaigns@.len() && j != i ==> self.campaigns@[j] == old(
                    self,
                ).campaigns@[j]);
        }
        Ok(reached)
    }

    /// Refunds the caller's recorded contribution of a `Failed` campaign,
    /// exactly once: the record is zeroed in the same step, so a second
    /// refund finds nothing to pay.
    pub fn refund(&mut self, ledger: &mut Ledger, caller: u64, campaign_id: u64) -> (r: Result<
        u64,
        CoreError,
    >)
        requires
            old(self).wf(),
            old(ledger).wf(),
        ensures
            final(self).wf(),
            final(ledger).wf(),
            final(self).holding == old(self).holding,
            final(ledger).supply == old(ledger).supply,
            !old(self).spec_has(campaign_id) ==> (r == Err::<u64, CoreError>(CoreError::NotFound)
                && *final(self) == *old(self) && *final(ledger) == *old(ledger)),
            old(self).spec_has(campaign_id) && old(self).spec_campaign(campaign_id).status
                != CampaignStatus::Failed ==> (r == Err::<u64, CoreError>(CoreError::InvalidState)
                && *final(self) == *old(self) && *final(ledger) == *old(ledger)),
            old(self).spec_has(campaign_id) && old(self).spec_campaign(campaign_id).status
                == CampaignStatus::Failed && contribution_of(
                old(self).spec_campaign(campaign_id).investors@,
                caller,
            ) == 0 ==> (r == Err::<u64, CoreError>(CoreError::NotFound) && *final(self) == *old(
                self,
            ) && *final(ledger) == *old(ledger)),
            old(self).spec_has(campaign_id) && old(self).spec_campaign(campaign_id).status
                == CampaignStatus::Failed && contribution_of(
                old(self).spec_campaign(campaign_id).investors@,
                caller,
            ) > 0 ==> ({
                let c = old(self).spec_campaign(campaign_id);
                let owed = contribution_of(c.investors@, caller);
                let payee = account_of(caller, None);
                &&& (old(ledger).spec_balance(old(self).holding) < owed ==> (r == Err::<
                    u64,
                    CoreError,
                >(
                    CoreError::InsufficientFunds {
                        balance: old(ledger).spec_balance(old(self).holding) as u64,
                    },
                ) && *final(self) == *old(self) && *final(ledger) == *old(ledger)))
                &&& (old(ledger).spec_balance(old(self).holding) >= owed ==> ({
                    let n = final(self).spec_campaign(campaign_id);
                    &&& r == Ok::<u64, CoreError>(owed as u64)
                    &&& final(self).campaigns@.len() == old(self).campaigns@.len()
                    &&& (forall|j: int|
                        0 <= j < old(self).campaigns@.len() && j != campaign_id - 1 ==> final(self).campaigns@[j] == old(self).campaigns@[j])
                    &&& contribution_of(n.investors@, caller) == 0
                    &&& (forall|q: u64|
                        q != caller ==> contribution_of(n.investors@, q) == contribution_of(
                            c.investors@,
                            q,
                        ))
                    &&& n.current_amount == c.current_amount - owed
                    &&& n.status == CampaignStatus::Failed
                    &&& n.id == c.id
                    &&& n.name == c.name
                    &&& n.description == c.description
                    &&& n.target_amount == c.target_amount
                    &&& n.asset_type == c.asset_type
                    &&& n.end_time == c.end_time
                    &&& (payee == old(self).holding ==> forall|b: Account|
                        final(ledger).spec_balance(b) == old(ledger).spec_balance(b))
                    &&& (payee != old(self).holding ==> {
                        &&& final(ledger).spec_balance(old(self).holding) == old(
                            ledger,
                        ).spec_balance(old(self).holding) - owed
                        &&& final(ledger).spec_balance(payee) == old(ledger).spec_balance(payee)
                            + owed
                        &&& forall|b: Account|
                            b != payee && b != old(self).holding ==> final(ledger).spec_balance(b)
                                == old(ledger).spec_balance(b)
                    })
                }))
            }),
    {
        let i = match self.index_of(campaign_id) {
            Some(i) => i,
            None => { return Err(CoreError::NotFound) },
        };
        if self.campaigns[i].status != CampaignStatus::Failed {
            return Err(CoreError::InvalidState);
        }
        let owed = get_contribution(&self.campaigns[i].investors, caller);
        if owed == 0 {
            return Err(CoreError::NotFound);
        }
        let holding_balance = ledger.balance_of(&self.holding);
        if holding_balance < owed {
            return Err(CoreError::InsufficientFunds { balance: holding_balance });
        }
        let payee = Account { owner: caller, subaccount: None };
        let _ = ledger.transfer_from(self.holding, payee, owed);
        let mut campaign = self.campaigns.remove(i);
        proof {
            lemma_contribution_le_sum(campaign.investors@, caller);
        }
        set_contribution(&mut campaign.investors, caller, 0);
        campaign.current_amount = campaign.current_amount - owed;
        self.campaigns.insert(i, campaign);
        proof {
            assert(forall|j: int|
                0 <= j < old(self).campaigns@.len() && j != i ==> self.campaigns@[j] == old(
                    self,
                ).campaigns@[j]);
        }
        Ok(owed)
    }
}

/// Campaign equality up to views.
pub open spec fn campaign_eq(a: TokenizationCampaign, b: TokenizationCampaign) -> bool {
    &&& a.id == b.id
    &&& a.name == b.name
    &&& a.description == b.description
    &&& a.target_amount == b.target_amount
    &&& a.current_amount == b.current_amount
    &&& a.asset_type == b.asset_type
    &&& a.status == b.status
    &&& a.investors@ == b.investors@
    &&& a.end_time == b.end_time
}

/// The campaigns still accepting investment, in store order.
pub open spec fn spec_active_campaigns(s: Seq<TokenizationCampaign>) -> Seq<TokenizationCampaign> {
    s.filter(|c: TokenizationCampaign| c.status == CampaignStatus::Active)
}

/// Copies an investor list, preserving its content.
fn copy_investors(v: &Vec<(u64, u64)>) -> (r: Vec<(u64, u64)>)
    ensures
        r@ == v@,
{
    let mut out: Vec<(u64, u64)> = Vec::new();
    let mut i: usize = 0;
    while i < v.len()
        invariant
            i <= v@.len(),
            out@.len() == i,
            forall|j: int| 0 <= j < i ==> out@[j] == v@[j],
        decreases v@.len() - i,
    {
        out.push(v[i]);
        i = i + 1;
    }
    proof {
        assert(out@ =~= v@);
    }
    out
}

/// Copies a campaign, preserving every field up to views.
fn duplicate_campaign(c: &TokenizationCampaign) -> (r: TokenizationCampaign)
    ensures
        campaign_eq(r, *c),
{
    TokenizationCampaign {
        id: c.id,
        name: c.name.clone(),
        description: c.description.clone(),
        target_amount: c.target_amount,
        current_amount: c.current_amount,
        asset_type: c.asset_type,
        status: c.status,
        investors: copy_investors(&c.investors),
        end_time: c.end_time,
    }
}

impl CampaignStore {
    /// A copy of the campaign with this id, or `NotFound`.
    pub fn get_campaign(&self, campaign_id: u64) -> (r: Result<TokenizationCampaign, CoreError>)
        ensures
            match r {
                Ok(c) => self.spec_has(campaign_id) && campaign_eq(
                    c,
                    self.spec_campaign(campaign_id),
                ),
                Err(e) => !self.spec_has(campaign_id) && e == CoreError::NotFound,
            },
    {
        match self.index_of(campaign_id) {
            Some(i) => Ok(duplicate_campaign(&self.campaigns[i])),
            None => Err(CoreError::NotFound),
        }
    }

    /// Copies of all campaigns still accepting investment, in store
    /// order.
    pub fn get_active_campaigns(&self) -> (r: Vec<TokenizationCampaign>)
        ensures
            r@.len() == spec_active_campaigns(self.campaigns@).len(),
            forall|k: int|
                0 <= k < r@.len() ==> campaign_eq(
                    #[trigger] r@[k],
                    spec_active_campaigns(self.campaigns@)[k],
                ),
    {
        let mut out: Vec<TokenizationCampaign> = Vec::new();
        let mut i: usize = 0;
        while i < self.campaigns.len()
            invariant
                i <= self.campaigns@.len(),
                out@.len() == spec_active_campaigns(self.campaigns@.take(i as int)).len(),
                forall|k: int|
                    0 <= k < out@.len() ==> campaign_eq(
                        #[trigger] out@[k],
                        spec_active_campaigns(self.campaigns@.take(i as int))[k],
                    ),
            decreases self.campaigns@.len() - i,
        {
            proof {
                reveal(Seq::filter);
                assert(self.campaigns@.take(i + 1).drop_last() =~= self.campaigns@.take(i as int));
                assert(self.campaigns@.take(i + 1).last() == self.campaigns@[i as int]);
            }
            if self.campaigns[i].status == CampaignStatus::Active {
                out.push(duplicate_campaign(&self.campaigns[i]));
            }
            i = i + 1;
        }
        proof {
            assert(self.campaigns@.take(i as int) =~= self.campaigns@);
        }
        out
    }
}

} // verus!
