use xkart_backend::authority::AuthorityStore;
use xkart_backend::campaign::AssetType;
use xkart_backend::campaign::CampaignStatus;
use xkart_backend::campaign::CampaignStore;
use xkart_backend::errors::CoreError;
use xkart_backend::ledger::Account;
use xkart_backend::ledger::Ledger;

const ADMIN: u64 = 1;
const HOLDING_OWNER: u64 = 88;

fn acct(owner: u64) -> Account {
    Account { owner, subaccount: None }
}

fn holding() -> Account {
    acct(HOLDING_OWNER)
}

fn setup() -> (AuthorityStore, Ledger, CampaignStore) {
    (AuthorityStore::new(ADMIN), Ledger::new(), CampaignStore::new(holding()))
}

fn make_campaign(
    campaigns: &mut CampaignStore,
    authority: &AuthorityStore,
    target: u64,
    duration: u64,
    now: u64,
) -> u64 {
    campaigns
        .create_campaign(
            authority,
            ADMIN,
            String::from("new arena"),
            String::from("fund a new arena"),
            target,
            AssetType::Arena,
            duration,
            now,
        )
        .unwrap()
}

#[test]
fn create_campaign_requires_admin() {
    let (authority, _ledger, mut campaigns) = setup();
    let r = campaigns.create_campaign(
        &authority,
        7,
        String::from("c"),
        String::from("d"),
        1000,
        AssetType::Kart,
        100,
        0,
    );
    assert_eq!(r, Err(CoreError::NotAuthorized));
    let id = make_campaign(&mut campaigns, &authority, 1000, 100, 0);
    let c = campaigns.get_campaign(id).unwrap();
    assert_eq!(c.status, CampaignStatus::Active);
    assert_eq!(c.current_amount, 0);
    assert_eq!(c.end_time, 100);
}

/// Target 1000; contributions of 400 then 700 complete the campaign on
/// the second investment, not before.
#[test]
fn campaign_completes_exactly_when_target_is_reached() {
    let (authority, mut ledger, mut campaigns) = setup();
    let id = make_campaign(&mut campaigns, &authority, 1000, 100, 0);
    ledger.mint(&authority, ADMIN, acct(30), 400).unwrap();
    ledger.mint(&authority, ADMIN, acct(31), 700).unwrap();
    let r = campaigns.invest_in_campaign(&mut ledger, 30, id, 400, 10);
    assert_eq!(r, Ok(false));
    assert_eq!(campaigns.get_campaign(id).unwrap().status, CampaignStatus::Active);
    let r = campaigns.invest_in_campaign(&mut ledger, 31, id, 700, 20);
    assert_eq!(r, Ok(true));
    let c = campaigns.get_campaign(id).unwrap();
    assert_eq!(c.status, CampaignStatus::Completed);
    assert_eq!(c.current_amount, 1100);
    assert_eq!(ledger.balance_of(&holding()), 1100);
    assert_eq!(ledger.balance_of(&acct(30)), 0);
    assert_eq!(ledger.balance_of(&acct(31)), 0);
    // a completed campaign accepts no further investment
    ledger.mint(&authority, ADMIN, acct(30), 10).unwrap();
    let r = campaigns.invest_in_campaign(&mut ledger, 30, id, 10, 30);
    assert_eq!(r, Err(CoreError::InvalidState));
}

#[test]
fn investing_after_deadline_fails_the_campaign() {
    let (authority, mut ledger, mut campaigns) = setup();
    let id = make_campaign(&mut campaigns, &authority, 1000, 50, 0);
    ledger.mint(&authority, ADMIN, acct(30), 500).unwrap();
    campaigns.invest_in_campaign(&mut ledger, 30, id, 200, 10).unwrap();
    let r = campaigns.invest_in_campaign(&mut ledger, 30, id, 200, 51);
    assert_eq!(r, Err(CoreError::CampaignExpired));
    let c = campaigns.get_campaign(id).unwrap();
    assert_eq!(c.status, CampaignStatus::Failed);
    // the failed investment moved no funds
    assert_eq!(c.current_amount, 200);
    assert_eq!(ledger.balance_of(&acct(30)), 300);
    assert_eq!(ledger.balance_of(&holding()), 200);
}

#[test]
fn failed_campaign_refunds_exact_contribution_once() {
    let (authority, mut ledger, mut campaigns) = setup();
    let id = make_campaign(&mut campaigns, &authority, 1000, 50, 0);
    ledger.mint(&authority, ADMIN, acct(30), 300).unwrap();
    ledger.mint(&authority, ADMIN, acct(31), 150).unwrap();
    // two investments by the same investor accumulate into one record
    campaigns.invest_in_campaign(&mut ledger, 30, id, 120, 9).unwrap();
    campaigns.invest_in_campaign(&mut ledger, 30, id, 80, 10).unwrap();
    campaigns.invest_in_campaign(&mut ledger, 31, id, 150, 11).unwrap();
    // refunds are only available once the campaign has failed
    assert_eq!(
        campaigns.refund(&mut ledger, 30, id),
        Err(CoreError::InvalidState)
    );
    let r = campaigns.invest_in_campaign(&mut ledger, 30, id, 100, 60);
    assert_eq!(r, Err(CoreError::CampaignExpired));
    let r = campaigns.refund(&mut ledger, 30, id);
    assert_eq!(r, Ok(200));
    assert_eq!(ledger.balance_of(&acct(30)), 300);
    assert_eq!(ledger.balance_of(&holding()), 150);
    // no more, no less: a second refund finds nothing
    assert_eq!(campaigns.refund(&mut ledger, 30, id), Err(CoreError::NotFound));
    // someone who never invested gets nothing
    assert_eq!(campaigns.refund(&mut ledger, 77, id), Err(CoreError::NotFound));
    // the other investor still gets exactly their contribution
    assert_eq!(campaigns.refund(&mut ledger, 31, id), Ok(150));
    assert_eq!(ledger.balance_of(&acct(31)), 150);
    assert_eq!(ledger.balance_of(&holding()), 0);
    assert_eq!(campaigns.get_campaign(id).unwrap().current_amount, 0);
}

#[test]
fn invest_overflow_and_insufficient_funds_are_rejected() {
    let (authority, mut ledger, mut campaigns) = setup();
    let id = make_campaign(&mut campaigns, &authority, u64::MAX, 100, 0);
    ledger.mint(&authority, ADMIN, acct(30), 100).unwrap();
    assert_eq!(
        campaigns.invest_in_campaign(&mut ledger, 30, id, 101, 1),
        Err(CoreError::InsufficientFunds { balance: 100 })
    );
    // current_amount + amount must stay representable
    ledger.mint(&authority, ADMIN, acct(31), u64::MAX - 100).unwrap();
    let r = campaigns.invest_in_campaign(&mut ledger, 31, id, u64::MAX - 100, 2);
    assert_eq!(r, Ok(false));
    assert_eq!(
        campaigns.invest_in_campaign(&mut ledger, 30, id, 200, 3),
        Err(CoreError::Overflow)
    );
    assert_eq!(
        campaigns.invest_in_campaign(&mut ledger, 30, 99, 1, 3),
        Err(CoreError::NotFound)
    );
}

#[test]
fn active_campaign_listing_filters_by_status() {
    let (authority, mut ledger, mut campaigns) = setup();
    let c1 = make_campaign(&mut campaigns, &authority, 100, 50, 0);
    let c2 = make_campaign(&mut campaigns, &authority, 1000, 50, 0);
    assert_eq!(campaigns.get_active_campaigns().len(), 2);
    ledger.mint(&authority, ADMIN, acct(30), 100).unwrap();
    campaigns.invest_in_campaign(&mut ledger, 30, c1, 100, 1).unwrap();
    let active = campaigns.get_active_campaigns();
    assert_eq!(active.len(), 1);
    assert_eq!(active[0].id, c2);
}
