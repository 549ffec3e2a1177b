//! Conservation across whole lifecycles: at every step the total supply
//! equals the sum of all balances, with the escrowed funds sitting in the
//! holding account until settlement or refund.

use xkart_backend::authority::AuthorityStore;
use xkart_backend::campaign::AssetType;
use xkart_backend::campaign::CampaignStore;
use xkart_backend::errors::CoreError;
use xkart_backend::ledger::Account;
use xkart_backend::ledger::Ledger;
use xkart_backend::nft::NFTType;
use xkart_backend::nft::NftRegistry;
use xkart_backend::nft::Rarity;
use xkart_backend::race::RaceStore;

const ADMIN: u64 = 1;
const HOLDING_OWNER: u64 = 99;

fn acct(owner: u64) -> Account {
    Account { owner, subaccount: None }
}

fn check_conservation(ledger: &Ledger, owners: &[u64]) {
    let sum: u64 = owners.iter().map(|&o| ledger.balance_of(&acct(o))).sum();
    assert_eq!(sum, ledger.total_supply());
}

#[test]
fn conservation_holds_through_race_and_campaign_lifecycles() {
    let authority = AuthorityStore::new(ADMIN);
    let mut ledger = Ledger::new();
    let mut nfts = NftRegistry::new();
    let mut races = RaceStore::new(acct(HOLDING_OWNER));
    let mut campaigns = CampaignStore::new(acct(HOLDING_OWNER));
    let owners = [ADMIN, HOLDING_OWNER, 11, 12, 20, 21, 30];

    let mut mint_asset = |nfts: &mut NftRegistry, t: NFTType| {
        nfts.mint_nft(
            &authority,
            ADMIN,
            String::from("asset"),
            String::from("d"),
            String::from("u"),
            t,
            Rarity::Common,
            Vec::new(),
            0,
        )
        .unwrap()
    };

    let arena = mint_asset(&mut nfts, NFTType::Arena);
    let race_id = races
        .create_race(&authority, &nfts, ADMIN, String::from("cup"), arena, 5)
        .unwrap();
    for &p in [11u64, 12].iter() {
        let kart = mint_asset(&mut nfts, NFTType::Kart);
        let driver = mint_asset(&mut nfts, NFTType::Driver);
        nfts.transfer_nft(ADMIN, kart, p, 0).unwrap();
        nfts.transfer_nft(ADMIN, driver, p, 0).unwrap();
        ledger.mint(&authority, ADMIN, acct(p), 5).unwrap();
        check_conservation(&ledger, &owners);
        races.join_race(&mut ledger, &nfts, p, race_id, kart, driver).unwrap();
        check_conservation(&ledger, &owners);
    }
    ledger.mint(&authority, ADMIN, acct(20), 40).unwrap();
    ledger.mint(&authority, ADMIN, acct(21), 60).unwrap();
    races.place_bet(&mut ledger, 20, race_id, 40, 11).unwrap();
    races.place_bet(&mut ledger, 21, race_id, 60, 12).unwrap();
    check_conservation(&ledger, &owners);
    assert_eq!(ledger.balance_of(&acct(HOLDING_OWNER)), 110);

    races.start_race(&authority, ADMIN, race_id, 1).unwrap();
    races
        .update_race_progress(&authority, ADMIN, race_id, vec![(11, 1), (12, 2)], vec![])
        .unwrap();
    races.end_race(&mut ledger, &authority, ADMIN, race_id, None, 2).unwrap();
    check_conservation(&ledger, &owners);
    // pool 10 split 50/30/20 over positions 1 and 2: 5 and 3, remainder
    // 2 retained; the bets settle on the position-1 winner: the 40 staked
    // on the winner takes the whole 100-unit bet pool.
    assert_eq!(ledger.balance_of(&acct(11)), 5);
    assert_eq!(ledger.balance_of(&acct(12)), 3);
    assert_eq!(ledger.balance_of(&acct(20)), 100);
    assert_eq!(ledger.balance_of(&acct(21)), 0);
    assert_eq!(ledger.balance_of(&acct(HOLDING_OWNER)), 2);

    // a campaign that fails and refunds keeps the same conservation law
    let id = campaigns
        .create_campaign(
            &authority,
            ADMIN,
            String::from("c"),
            String::from("d"),
            1000,
            AssetType::Arena,
            50,
            0,
        )
        .unwrap();
    ledger.mint(&authority, ADMIN, acct(30), 300).unwrap();
    campaigns.invest_in_campaign(&mut ledger, 30, id, 250, 10).unwrap();
    check_conservation(&ledger, &owners);
    assert_eq!(
        campaigns.invest_in_campaign(&mut ledger, 30, id, 10, 99),
        Err(CoreError::CampaignExpired)
    );
    assert_eq!(campaigns.refund(&mut ledger, 30, id), Ok(250));
    check_conservation(&ledger, &owners);
    assert_eq!(ledger.balance_of(&acct(30)), 300);
}
