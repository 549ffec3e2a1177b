use xkart_backend::authority::AuthorityStore;
use xkart_backend::errors::CoreError;
use xkart_backend::ledger::Account;
use xkart_backend::ledger::Ledger;
use xkart_backend::nft::NFTType;
use xkart_backend::nft::NftRegistry;
use xkart_backend::nft::Rarity;

const ADMIN: u64 = 1;

fn acct(owner: u64) -> Account {
    Account { owner, subaccount: None }
}

fn setup() -> (AuthorityStore, NftRegistry) {
    (AuthorityStore::new(ADMIN), NftRegistry::new())
}

fn mint(nfts: &mut NftRegistry, authority: &AuthorityStore, name: &str, t: NFTType) -> u64 {
    nfts.mint_nft(
        authority,
        ADMIN,
        String::from(name),
        String::from("desc"),
        String::from("https://img.example/x"),
        t,
        Rarity::Rare,
        vec![(String::from("speed"), String::from("9"))],
        5,
    )
    .unwrap()
}

#[test]
fn mint_nft_requires_admin_and_assigns_dense_ids() {
    let (authority, mut nfts) = setup();
    let r = nfts.mint_nft(
        &authority,
        2,
        String::from("n"),
        String::from("d"),
        String::from("u"),
        NFTType::Kart,
        Rarity::Common,
        Vec::new(),
        0,
    );
    assert_eq!(r, Err(CoreError::NotAuthorized));
    assert_eq!(mint(&mut nfts, &authority, "kart one", NFTType::Kart), 1);
    assert_eq!(mint(&mut nfts, &authority, "kart two", NFTType::Kart), 2);
    let n = nfts.get_nft(1).unwrap();
    assert_eq!(n.id, 1);
    assert_eq!(n.owner, ADMIN);
    assert_eq!(n.metadata.name, "kart one");
    assert_eq!(n.metadata.attributes[0].0, "speed");
    assert_eq!(n.creation_time, 5);
    assert!(n.listed_price.is_none());
    assert!(matches!(nfts.get_nft(3), Err(CoreError::NotFound)));
}

#[test]
fn transfer_nft_checks_owner_and_records_history() {
    let (authority, mut nfts) = setup();
    let id = mint(&mut nfts, &authority, "kart", NFTType::Kart);
    assert_eq!(nfts.transfer_nft(7, id, 8, 10), Err(CoreError::NotAuthorized));
    assert_eq!(nfts.transfer_nft(ADMIN, 99, 8, 10), Err(CoreError::NotFound));
    assert_eq!(nfts.transfer_nft(ADMIN, id, 8, 10), Ok(()));
    let n = nfts.get_nft(id).unwrap();
    assert_eq!(n.owner, 8);
    assert_eq!(n.transaction_history.len(), 1);
    assert_eq!(n.transaction_history[0].from, ADMIN);
    assert_eq!(n.transaction_history[0].to, 8);
    assert_eq!(n.transaction_history[0].timestamp, 10);
    assert_eq!(n.transaction_history[0].price, None);
}

#[test]
fn buy_nft_pays_the_seller_and_hands_over() {
    let (authority, mut nfts) = setup();
    let mut ledger = Ledger::new();
    let id = mint(&mut nfts, &authority, "kart", NFTType::Kart);
    nfts.transfer_nft(ADMIN, id, 8, 0).unwrap();
    // not listed yet
    assert_eq!(nfts.buy_nft(&mut ledger, 9, id, 1), Err(CoreError::InvalidState));
    assert_eq!(nfts.list_nft(7, id, 40), Err(CoreError::NotAuthorized));
    assert_eq!(nfts.list_nft(8, id, 40), Ok(()));
    assert_eq!(nfts.get_nft(id).unwrap().listed_price, Some(40));
    // buyer cannot pay
    assert_eq!(
        nfts.buy_nft(&mut ledger, 9, id, 2),
        Err(CoreError::InsufficientFunds { balance: 0 })
    );
    assert_eq!(nfts.get_nft(id).unwrap().owner, 8);
    ledger.mint(&authority, ADMIN, acct(9), 50).unwrap();
    assert_eq!(nfts.buy_nft(&mut ledger, 9, id, 3), Ok(()));
    let n = nfts.get_nft(id).unwrap();
    assert_eq!(n.owner, 9);
    assert_eq!(n.listed_price, None);
    assert_eq!(n.transaction_history.len(), 2);
    assert_eq!(n.transaction_history[1].price, Some(40));
    assert_eq!(ledger.balance_of(&acct(9)), 10);
    assert_eq!(ledger.balance_of(&acct(8)), 40);
}

#[test]
fn verify_nft_ownership_reports_each_failure() {
    let (authority, mut nfts) = setup();
    let kart = mint(&mut nfts, &authority, "kart", NFTType::Kart);
    assert_eq!(
        nfts.verify_nft_ownership(ADMIN, 99, NFTType::Kart),
        Err(CoreError::NotFound)
    );
    assert_eq!(
        nfts.verify_nft_ownership(7, kart, NFTType::Kart),
        Err(CoreError::NotAuthorized)
    );
    assert_eq!(
        nfts.verify_nft_ownership(ADMIN, kart, NFTType::Driver),
        Err(CoreError::InvalidState)
    );
    assert_eq!(nfts.verify_nft_ownership(ADMIN, kart, NFTType::Kart), Ok(()));
    assert_eq!(nfts.owner_of_and_type(kart), Ok((ADMIN, NFTType::Kart)));
    assert_eq!(nfts.owner_of_and_type(99), Err(CoreError::NotFound));
}

#[test]
fn nft_listings_filter_by_owner_and_sale_state() {
    let (authority, mut nfts) = setup();
    let a = mint(&mut nfts, &authority, "a", NFTType::Kart);
    let b = mint(&mut nfts, &authority, "b", NFTType::Driver);
    let c = mint(&mut nfts, &authority, "c", NFTType::Arena);
    nfts.transfer_nft(ADMIN, b, 8, 0).unwrap();
    let admins = nfts.get_user_nfts(ADMIN);
    assert_eq!(admins.len(), 2);
    assert_eq!(admins[0].id, a);
    assert_eq!(admins[1].id, c);
    assert_eq!(nfts.get_user_nfts(8).len(), 1);
    assert_eq!(nfts.get_listed_nfts().len(), 0);
    nfts.list_nft(ADMIN, a, 10).unwrap();
    let listed = nfts.get_listed_nfts();
    assert_eq!(listed.len(), 1);
    assert_eq!(listed[0].id, a);
}
