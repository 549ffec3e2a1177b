use xkart_backend::authority::AuthorityStore;
use xkart_backend::errors::CoreError;
use xkart_backend::ledger::Account;
use xkart_backend::ledger::Ledger;
use xkart_backend::nft::NFTType;
use xkart_backend::nft::NftRegistry;
use xkart_backend::nft::Rarity;
use xkart_backend::race::RaceStatus;
use xkart_backend::race::RaceStore;

const ADMIN: u64 = 1;
const HOLDING_OWNER: u64 = 99;

fn acct(owner: u64) -> Account {
    Account { owner, subaccount: None }
}

fn holding() -> Account {
    acct(HOLDING_OWNER)
}

fn setup() -> (AuthorityStore, Ledger, NftRegistry, RaceStore) {
    let authority = AuthorityStore::new(ADMIN);
    let ledger = Ledger::new();
    let nfts = NftRegistry::new();
    let races = RaceStore::new(holding());
    (authority, ledger, nfts, races)
}

fn mint_asset(nfts: &mut NftRegistry, authority: &AuthorityStore, nft_type: NFTType) -> u64 {
    nfts.mint_nft(
        authority,
        ADMIN,
        String::from("asset"),
        String::from("test asset"),
        String::from("https://img.example/x"),
        nft_type,
        Rarity::Common,
        Vec::new(),
        0,
    )
    .unwrap()
}

/// Mints a kart and a driver for `player` and returns their ids.
fn give_player_assets(
    nfts: &mut NftRegistry,
    authority: &AuthorityStore,
    player: u64,
) -> (u64, u64) {
    let kart = mint_asset(nfts, authority, NFTType::Kart);
    let driver = mint_asset(nfts, authority, NFTType::Driver);
    nfts.transfer_nft(ADMIN, kart, player, 0).unwrap();
    nfts.transfer_nft(ADMIN, driver, player, 0).unwrap();
    (kart, driver)
}

fn make_race(
    races: &mut RaceStore,
    authority: &AuthorityStore,
    nfts: &mut NftRegistry,
    entry_fee: u64,
) -> u64 {
    let arena = mint_asset(nfts, authority, NFTType::Arena);
    races
        .create_race(authority, nfts, ADMIN, String::from("grand prix"), arena, entry_fee)
        .unwrap()
}

#[test]
fn create_race_requires_admin_and_arena() {
    let (authority, _ledger, mut nfts, mut races) = setup();
    let arena = mint_asset(&mut nfts, &authority, NFTType::Arena);
    let kart = mint_asset(&mut nfts, &authority, NFTType::Kart);
    let r = races.create_race(&authority, &nfts, 5, String::from("r"), arena, 10);
    assert_eq!(r, Err(CoreError::NotAuthorized));
    let r = races.create_race(&authority, &nfts, ADMIN, String::from("r"), 77, 10);
    assert_eq!(r, Err(CoreError::NotFound));
    let r = races.create_race(&authority, &nfts, ADMIN, String::from("r"), kart, 10);
    assert_eq!(r, Err(CoreError::InvalidState));
    let r = races.create_race(&authority, &nfts, ADMIN, String::from("r"), arena, 10);
    assert_eq!(r, Ok(1));
    let race = races.get_race(1).unwrap();
    assert_eq!(race.status, RaceStatus::Upcoming);
    assert_eq!(race.total_prize_pool, 0);
    assert_eq!(race.entry_fee, 10);
}

#[test]
fn join_race_checks_assets_and_escrows_fee() {
    let (authority, mut ledger, mut nfts, mut races) = setup();
    let race_id = make_race(&mut races, &authority, &mut nfts, 10);
    let player = 11;
    let (kart, driver) = give_player_assets(&mut nfts, &authority, player);
    // no funds yet: payment fails, participant is not added
    let r = races.join_race(&mut ledger, &nfts, player, race_id, kart, driver);
    assert_eq!(r, Err(CoreError::InsufficientFunds { balance: 0 }));
    assert_eq!(races.get_race(race_id).unwrap().participants.len(), 0);
    // not the asset owner
    ledger.mint(&authority, ADMIN, acct(12), 10).unwrap();
    let r = races.join_race(&mut ledger, &nfts, 12, race_id, kart, driver);
    assert_eq!(r, Err(CoreError::NotAuthorized));
    // funded owner joins; the fee moves into the holding account
    ledger.mint(&authority, ADMIN, acct(player), 10).unwrap();
    let r = races.join_race(&mut ledger, &nfts, player, race_id, kart, driver);
    assert_eq!(r, Ok(()));
    assert_eq!(ledger.balance_of(&acct(player)), 0);
    assert_eq!(ledger.balance_of(&holding()), 10);
    let race = races.get_race(race_id).unwrap();
    assert_eq!(race.participants.len(), 1);
    assert_eq!(race.participants[0].player, player);
    assert_eq!(race.total_prize_pool, 10);
    // joining twice is rejected
    ledger.mint(&authority, ADMIN, acct(player), 10).unwrap();
    let r = races.join_race(&mut ledger, &nfts, player, race_id, kart, driver);
    assert_eq!(r, Err(CoreError::AlreadyJoined));
}

#[test]
fn bets_require_enrolled_prediction_and_open_race() {
    let (authority, mut ledger, mut nfts, mut races) = setup();
    let race_id = make_race(&mut races, &authority, &mut nfts, 0);
    let w = 11;
    let (kart, driver) = give_player_assets(&mut nfts, &authority, w);
    races.join_race(&mut ledger, &nfts, w, race_id, kart, driver).unwrap();
    ledger.mint(&authority, ADMIN, acct(20), 50).unwrap();
    // predicting someone not enrolled
    assert_eq!(
        races.place_bet(&mut ledger, 20, race_id, 10, 55),
        Err(CoreError::NotFound)
    );
    assert_eq!(races.place_bet(&mut ledger, 20, race_id, 10, w), Ok(()));
    assert_eq!(ledger.balance_of(&acct(20)), 40);
    assert_eq!(ledger.balance_of(&holding()), 10);
    // once started, betting closes
    races.start_race(&authority, ADMIN, race_id, 5).unwrap();
    assert_eq!(
        races.place_bet(&mut ledger, 20, race_id, 10, w),
        Err(CoreError::InvalidState)
    );
}

/// Declared-winner scenario: a 100-unit bet pool staked 30/70 on the
/// winner is paid back 30/70 — the entire pool, nothing lost.
#[test]
fn declared_winner_pays_proportional_stakes() {
    let (authority, mut ledger, mut nfts, mut races) = setup();
    let race_id = make_race(&mut races, &authority, &mut nfts, 0);
    let w = 11;
    let (kart, driver) = give_player_assets(&mut nfts, &authority, w);
    races.join_race(&mut ledger, &nfts, w, race_id, kart, driver).unwrap();
    let a = 20;
    let b = 21;
    ledger.mint(&authority, ADMIN, acct(a), 30).unwrap();
    ledger.mint(&authority, ADMIN, acct(b), 70).unwrap();
    races.place_bet(&mut ledger, a, race_id, 30, w).unwrap();
    races.place_bet(&mut ledger, b, race_id, 70, w).unwrap();
    assert_eq!(ledger.balance_of(&holding()), 100);
    races.start_race(&authority, ADMIN, race_id, 1).unwrap();
    races.end_race(&mut ledger, &authority, ADMIN, race_id, Some(w), 2).unwrap();
    assert_eq!(ledger.balance_of(&acct(a)), 30);
    assert_eq!(ledger.balance_of(&acct(b)), 70);
    assert_eq!(ledger.balance_of(&holding()), 0);
    assert_eq!(ledger.total_supply(), 100);
    let race = races.get_race(race_id).unwrap();
    assert_eq!(race.status, RaceStatus::Completed);
    assert_eq!(race.winner, Some(w));
}

/// Position-derived scenario: entry fee 10, three participants (pool 30),
/// positions 1/2/3 -> payouts 15/9/6, sum 30, remainder 0.
#[test]
fn position_mode_splits_pool_fifty_thirty_twenty() {
    let (authority, mut ledger, mut nfts, mut races) = setup();
    let race_id = make_race(&mut races, &authority, &mut nfts, 10);
    let players = [11u64, 12, 13];
    for &p in players.iter() {
        let (kart, driver) = give_player_assets(&mut nfts, &authority, p);
        ledger.mint(&authority, ADMIN, acct(p), 10).unwrap();
        races.join_race(&mut ledger, &nfts, p, race_id, kart, driver).unwrap();
    }
    assert_eq!(ledger.balance_of(&holding()), 30);
    races.start_race(&authority, ADMIN, race_id, 1).unwrap();
    races
        .update_race_progress(
            &authority,
            ADMIN,
            race_id,
            vec![(11, 1), (12, 2), (13, 3)],
            vec![],
        )
        .unwrap();
    races.end_race(&mut ledger, &authority, ADMIN, race_id, None, 2).unwrap();
    assert_eq!(ledger.balance_of(&acct(11)), 15);
    assert_eq!(ledger.balance_of(&acct(12)), 9);
    assert_eq!(ledger.balance_of(&acct(13)), 6);
    assert_eq!(ledger.balance_of(&holding()), 0);
    assert_eq!(ledger.total_supply(), 30);
}

/// A pool that does not divide evenly: the rounding remainder stays in
/// the holding account, never lost and never duplicated.
#[test]
fn position_mode_retains_rounding_remainder() {
    let (authority, mut ledger, mut nfts, mut races) = setup();
    let race_id = make_race(&mut races, &authority, &mut nfts, 7);
    let p = 11;
    let (kart, driver) = give_player_assets(&mut nfts, &authority, p);
    ledger.mint(&authority, ADMIN, acct(p), 7).unwrap();
    races.join_race(&mut ledger, &nfts, p, race_id, kart, driver).unwrap();
    races.start_race(&authority, ADMIN, race_id, 1).unwrap();
    races
        .update_race_progress(&authority, ADMIN, race_id, vec![(p, 1)], vec![])
        .unwrap();
    races.end_race(&mut ledger, &authority, ADMIN, race_id, None, 2).unwrap();
    // 50% of 7 rounds down to 3; positions 2 and 3 are unoccupied.
    assert_eq!(ledger.balance_of(&acct(p)), 3);
    assert_eq!(ledger.balance_of(&holding()), 4);
}

/// An uneven proportional split assigns the remainder to the first
/// winning bet, so the whole bet pool is still paid out.
#[test]
fn declared_winner_remainder_goes_to_first_winning_bet() {
    let (authority, mut ledger, mut nfts, mut races) = setup();
    let race_id = make_race(&mut races, &authority, &mut nfts, 0);
    let w = 11;
    let l = 12;
    for &p in [w, l].iter() {
        let (kart, driver) = give_player_assets(&mut nfts, &authority, p);
        races.join_race(&mut ledger, &nfts, p, race_id, kart, driver).unwrap();
    }
    let (a, b, c) = (20, 21, 22);
    ledger.mint(&authority, ADMIN, acct(a), 10).unwrap();
    ledger.mint(&authority, ADMIN, acct(b), 20).unwrap();
    ledger.mint(&authority, ADMIN, acct(c), 70).unwrap();
    races.place_bet(&mut ledger, a, race_id, 10, w).unwrap();
    races.place_bet(&mut ledger, b, race_id, 20, w).unwrap();
    races.place_bet(&mut ledger, c, race_id, 70, l).unwrap();
    races.start_race(&authority, ADMIN, race_id, 1).unwrap();
    races.end_race(&mut ledger, &authority, ADMIN, race_id, Some(w), 2).unwrap();
    // total pool 100, winning stake 30: floors are 33 and 66, the
    // remainder 1 goes to the first winning bet.
    assert_eq!(ledger.balance_of(&acct(a)), 34);
    assert_eq!(ledger.balance_of(&acct(b)), 66);
    assert_eq!(ledger.balance_of(&acct(c)), 0);
    assert_eq!(ledger.balance_of(&holding()), 0);
}

/// With no bet on the declared winner every bet is refunded.
#[test]
fn declared_winner_with_no_winning_bets_refunds_all() {
    let (authority, mut ledger, mut nfts, mut races) = setup();
    let race_id = make_race(&mut races, &authority, &mut nfts, 0);
    let w = 11;
    let l = 12;
    for &p in [w, l].iter() {
        let (kart, driver) = give_player_assets(&mut nfts, &authority, p);
        races.join_race(&mut ledger, &nfts, p, race_id, kart, driver).unwrap();
    }
    ledger.mint(&authority, ADMIN, acct(20), 30).unwrap();
    races.place_bet(&mut ledger, 20, race_id, 30, l).unwrap();
    races.start_race(&authority, ADMIN, race_id, 1).unwrap();
    races.end_race(&mut ledger, &authority, ADMIN, race_id, Some(w), 2).unwrap();
    assert_eq!(ledger.balance_of(&acct(20)), 30);
    assert_eq!(ledger.balance_of(&holding()), 0);
}

/// Settlement is idempotent: a second resolution fails with
/// `InvalidState` and the balances are exactly those after the first.
#[test]
fn end_race_twice_fails_and_repays_nothing() {
    let (authority, mut ledger, mut nfts, mut races) = setup();
    let race_id = make_race(&mut races, &authority, &mut nfts, 0);
    let w = 11;
    let (kart, driver) = give_player_assets(&mut nfts, &authority, w);
    races.join_race(&mut ledger, &nfts, w, race_id, kart, driver).unwrap();
    ledger.mint(&authority, ADMIN, acct(20), 100).unwrap();
    races.place_bet(&mut ledger, 20, race_id, 100, w).unwrap();
    races.start_race(&authority, ADMIN, race_id, 1).unwrap();
    races.end_race(&mut ledger, &authority, ADMIN, race_id, Some(w), 2).unwrap();
    let after_first = ledger.balance_of(&acct(20));
    assert_eq!(after_first, 100);
    let r = races.end_race(&mut ledger, &authority, ADMIN, race_id, Some(w), 3);
    assert_eq!(r, Err(CoreError::InvalidState));
    assert_eq!(ledger.balance_of(&acct(20)), after_first);
    assert_eq!(ledger.balance_of(&holding()), 0);
    assert!(races.get_race(race_id).unwrap().settled);
}

/// Lifecycle is monotonic: a completed race accepts no further
/// transition or mutation.
#[test]
fn completed_race_rejects_every_transition() {
    let (authority, mut ledger, mut nfts, mut races) = setup();
    let race_id = make_race(&mut races, &authority, &mut nfts, 0);
    let w = 11;
    let (kart, driver) = give_player_assets(&mut nfts, &authority, w);
    races.join_race(&mut ledger, &nfts, w, race_id, kart, driver).unwrap();
    races.start_race(&authority, ADMIN, race_id, 1).unwrap();
    races
        .update_race_progress(&authority, ADMIN, race_id, vec![(w, 1)], vec![])
        .unwrap();
    races.end_race(&mut ledger, &authority, ADMIN, race_id, None, 2).unwrap();
    assert_eq!(
        races.start_race(&authority, ADMIN, race_id, 3),
        Err(CoreError::InvalidState)
    );
    assert_eq!(
        races.update_race_progress(&authority, ADMIN, race_id, vec![(w, 2)], vec![]),
        Err(CoreError::InvalidState)
    );
    let (kart2, driver2) = give_player_assets(&mut nfts, &authority, 13);
    assert_eq!(
        races.join_race(&mut ledger, &nfts, 13, race_id, kart2, driver2),
        Err(CoreError::InvalidState)
    );
    assert_eq!(
        races.place_bet(&mut ledger, 20, race_id, 1, w),
        Err(CoreError::InvalidState)
    );
    assert_eq!(races.get_race(race_id).unwrap().status, RaceStatus::Completed);
}

#[test]
fn update_progress_ignores_unknown_players_and_appends_laps() {
    let (authority, mut ledger, mut nfts, mut races) = setup();
    let race_id = make_race(&mut races, &authority, &mut nfts, 0);
    let p = 11;
    let (kart, driver) = give_player_assets(&mut nfts, &authority, p);
    races.join_race(&mut ledger, &nfts, p, race_id, kart, driver).unwrap();
    races.start_race(&authority, ADMIN, race_id, 1).unwrap();
    let r = races.update_race_progress(
        &authority,
        ADMIN,
        race_id,
        vec![(p, 2), (55, 1), (p, 1)],
        vec![(p, 90), (55, 10), (p, 80)],
    );
    assert_eq!(r, Ok(()));
    let race = races.get_race(race_id).unwrap();
    assert_eq!(race.participants[0].current_position, 1);
    assert_eq!(race.participants[0].lap_times, vec![90, 80]);
}

#[test]
fn end_race_without_position_one_fails() {
    let (authority, mut ledger, mut nfts, mut races) = setup();
    let race_id = make_race(&mut races, &authority, &mut nfts, 0);
    let p = 11;
    let (kart, driver) = give_player_assets(&mut nfts, &authority, p);
    races.join_race(&mut ledger, &nfts, p, race_id, kart, driver).unwrap();
    races.start_race(&authority, ADMIN, race_id, 1).unwrap();
    let r = races.end_race(&mut ledger, &authority, ADMIN, race_id, None, 2);
    assert_eq!(r, Err(CoreError::NotFound));
    assert_eq!(races.get_race(race_id).unwrap().status, RaceStatus::InProgress);
    // a declared winner must be enrolled
    let r = races.end_race(&mut ledger, &authority, ADMIN, race_id, Some(55), 2);
    assert_eq!(r, Err(CoreError::NotFound));
}

#[test]
fn upcoming_races_listing_filters_by_status() {
    let (authority, mut ledger, mut nfts, mut races) = setup();
    let r1 = make_race(&mut races, &authority, &mut nfts, 0);
    let r2 = make_race(&mut races, &authority, &mut nfts, 0);
    assert_eq!(races.get_upcoming_races().len(), 2);
    races.start_race(&authority, ADMIN, r1, 1).unwrap();
    let upcoming = races.get_upcoming_races();
    assert_eq!(upcoming.len(), 1);
    assert_eq!(upcoming[0].id, r2);
    let _ = ledger;
}
