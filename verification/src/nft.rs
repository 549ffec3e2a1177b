//! The NFT registry: keyed storage of the platform's assets (karts,
//! drivers, arenas) with owner, listing and history bookkeeping.
//!
//! The settlement core consults the registry only through
//! `owner_of_and_type` / `verify_nft_ownership`; the rest is the simple
//! keyed CRUD surface of the collaborator.

use vstd::prelude::*;

use crate::authority::AuthorityStore;
use crate::errors::CoreError;
use crate::ledger::account_of;
use crate::ledger::Account;
use crate::ledger::Ledger;
use crate::errors::TransferError;

verus! {

/// The kind of asset an NFT stands for.
#[derive(Clone, Copy, PartialEq, Eq, Structural, Debug)]
pub enum NFTType {
    Driver,
    Kart,
    Arena,
}

#[derive(Clone, Copy, PartialEq, Eq, Structural, Debug)]
pub enum Rarity {
    Common,
    Rare,
    Legendary,
}

/// Descriptive metadata; the attribute list carries free-form key/value
/// pairs.
#[derive(Clone, Debug)]
pub struct NFTMetadata {
    pub name: String,
    pub description: String,
    pub image_url: String,
    pub attributes: Vec<(String, String)>,
}

/// One entry of an NFT's transaction history.
#[derive(Clone, Copy, PartialEq, Eq, Structural, Debug)]
pub struct Transaction {
    pub timestamp: u64,
    pub from: u64,
    pub to: u64,
    pub price: Option<u64>,
}

/// A registered asset.
#[derive(Clone, Debug)]
pub struct NFT {
    pub id: u64,
    pub owner: u64,
    pub nft_type: NFTType,
    pub metadata: NFTMetadata,
    pub listed_price: Option<u64>,
    pub rarity: Rarity,
    pub creation_time: u64,
    pub transaction_history: Vec<Transaction>,
}

/// Metadata equality up to views (`String` and `Vec` values are compared
/// by content).
pub open spec fn meta_eq(a: NFTMetadata, b: NFTMetadata) -> bool {
    &&& a.name == b.name
    &&& a.description == b.description
    &&& a.image_url == b.image_url
    &&& a.attributes@ == b.attributes@
}

/// NFT equality up to views.
pub open spec fn nft_eq(a: NFT, b: NFT) -> bool {
    &&& a.id == b.id
    &&& a.owner == b.owner
    &&& a.nft_type == b.nft_type
    &&& meta_eq(a.metadata, b.metadata)
    &&& a.listed_price == b.listed_price
    &&& a.rarity == b.rarity
    &&& a.creation_time == b.creation_time
    &&& a.transaction_history@ == b.transaction_history@
}

/// The NFTs owned by `user`, in registry order.
pub open spec fn spec_user_nfts(s: Seq<NFT>, user: u64) -> Seq<NFT> {
    s.filter(|n: NFT| n.owner == user)
}

/// The NFTs currently listed for sale, in registry order.
pub open spec fn spec_listed_nfts(s: Seq<NFT>) -> Seq<NFT> {
    s.filter(|n: NFT| n.listed_price is Some)
}

/// Copies an attribute list, preserving its content.
fn copy_attributes(v: &Vec<(String, String)>) -> (r: Vec<(String, String)>)
    ensures
        r@ == v@,
{
    let mut out: Vec<(String, String)> = Vec::new();
    let mut i: usize = 0;
    while i < v.len()
        invariant
            i <= v@.len(),
            out@.len() == i,
            forall|j: int| 0 <= j < i ==> out@[j] == v@[j],
        decreases v@.len() - i,
    {
        let pair = &v[i];
        out.push((pair.0.clone(), pair.1.clone()));
        i = i + 1;
    }
    proof {
        assert(out@ =~= v@);
    }
    out
}

/// Copies a transaction history, preserving its content.
fn copy_transactions(v: &Vec<Transaction>) -> (r: Vec<Transaction>)
    ensures
        r@ == v@,
{
    let mut out: Vec<Transaction> = Vec::new();
    let mut i: usize = 0;
    while i < v.len()
        invariant
            i <= v@.len(),
            out@.len() == i,
            forall|j: int| 0 <= j < i ==> out@[j] == v@[j],
        decreases v@.len() - i,
    {
        out.push(v[i]);
        i = i + 1;
    }
    proof {
        assert(out@ =~= v@);
    }
    out
}

/// Copies an NFT, preserving every field up to views.
fn duplicate_nft(n: &NFT) -> (r: NFT)
    ensures
        nft_eq(r, *n),
{
    NFT {
        id: n.id,
        owner: n.owner,
        nft_type: n.nft_type,
        metadata: NFTMetadata {
            name: n.metadata.name.clone(),
            description: n.metadata.description.clone(),
            image_url: n.metadata.image_url.clone(),
            attributes: copy_attributes(&n.metadata.attributes),
        },
        listed_price: n.listed_price,
        rarity: n.rarity,
        creation_time: n.creation_time,
        transaction_history: copy_transactions(&n.transaction_history),
    }
}

/// The NFT registry.  Identifiers are dense and one-based: the NFT with
/// id `i` sits at index `i - 1`, and a fresh mint takes id `len + 1`.
pub struct NftRegistry {
    pub nfts: Vec<NFT>,
}

impl NftRegistry {
    /// Identifiers are exactly `1 ..= len`, in order.
    pub open spec fn wf(self) -> bool {
        forall|i: int| 0 <= i < self.nfts@.len() ==> #[trigger] self.nfts@[i].id == i + 1
    }

    /// Whether an NFT with this id exists.
    pub open spec fn spec_has(self, nft_id: u64) -> bool {
        1 <= nft_id <= self.nfts@.len()
    }

    /// The NFT with this id (meaningful only when `spec_has`).
    pub open spec fn spec_nft(self, nft_id: u64) -> NFT {
        self.nfts@[nft_id - 1]
    }

    /// An empty registry.
    pub fn new() -> (registry: NftRegistry)
        ensures
            registry.wf(),
            registry.nfts@.len() == 0,
    {
        NftRegistry { nfts: Vec::new() }
    }

    /// The index of the NFT with this id, if it exists.
    fn index_of(&self, nft_id: u64) -> (r: Option<usize>)
        ensures
            match r {
                Some(i) => self.spec_has(nft_id) && i as int == nft_id - 1 && i
                    < self.nfts@.len() && self.nfts@[i as int] == self.spec_nft(nft_id),
                None => !self.spec_has(nft_id),
            },
    {
        if nft_id >= 1 && nft_id <= self.nfts.len() as u64 {
            proof {
                assert(nft_id - 1 < self.nfts@.len());
            }
            Some((nft_id - 1) as usize)
        } else {
            None
        }
    }

    /// Mints a new NFT owned by the (admin) caller and returns its id.
    pub fn mint_nft(
        &mut self,
        authority: &AuthorityStore,
        caller: u64,
        name: String,
        description: String,
        image_url: String,
        nft_type: NFTType,
        rarity: Rarity,
        attributes: Vec<(String, String)>,
        now: u64,
    ) -> (r: Result<u64, CoreError>)
        requires
            old(self).wf(),
        ensures
            final(self).wf(),
            !authority.spec_is_admin(caller) ==> (r == Err::<u64, CoreError>(
                CoreError::NotAuthorized,
            ) && *final(self) == *old(self)),
            authority.spec_is_admin(caller) && old(self).nfts@.len() + 1 > u64::MAX ==> (r
                == Err::<u64, CoreError>(CoreError::Overflow) && *final(self) == *old(self)),
            authority.spec_is_admin(caller) && old(self).nfts@.len() + 1 <= u64::MAX ==> ({
                let m = final(self).nfts@[old(self).nfts@.len() as int];
                &&& r == Ok::<u64, CoreError>((old(self).nfts@.len() + 1) as u64)
                &&& final(self).nfts@.len() == old(self).nfts@.len() + 1
                &&& (forall|j: int|
                    0 <= j < old(self).nfts@.len() ==> final(self).nfts@[j] == old(self).nfts@[j])
                &&& m.id == old(self).nfts@.len() + 1
                &&& m.owner == caller
                &&& m.nft_type == nft_type
                &&& m.rarity == rarity
                &&& m.creation_time == now
                &&& m.listed_price is None
                &&& m.transaction_history@.len() == 0
                &&& m.metadata.name == name
                &&& m.metadata.description == description
                &&& m.metadata.image_url == image_url
                &&& m.metadata.attributes == attributes
            }),
    {
        if !authority.is_admin(caller) {
            return Err(CoreError::NotAuthorized);
        }
        let count: u64 = self.nfts.len() as u64;
        if count == u64::MAX {
            return Err(CoreError::Overflow);
        }
        let nft_id: u64 = count + 1;
        let nft = NFT {
            id: nft_id,
            owner: caller,
            nft_type,
            metadata: NFTMetadata { name, description, image_url, attributes },
            listed_price: None,
            rarity,
            creation_time: now,
            transaction_history: Vec::new(),
        };
        self.nfts.push(nft);
        Ok(nft_id)
    }

    /// Hands the NFT to `to`; only its current owner may do so.  Appends
    /// a history entry recording the handover.
    pub fn transfer_nft(&mut self, caller: u64, nft_id: u64, to: u64, now: u64) -> (r: Result<
        (),
        CoreError,
    >)
        requires
            old(self).wf(),
        ensures
            final(self).wf(),
            !old(self).spec_has(nft_id) ==> (r == Err::<(), CoreError>(CoreError::NotFound)
                && *final(self) == *old(self)),
            old(self).spec_has(nft_id) && old(self).spec_nft(nft_id).owner != caller ==> (r
                == Err::<(), CoreError>(CoreError::NotAuthorized) && *final(self) == *old(self)),
            old(self).spec_has(nft_id) && old(self).spec_nft(nft_id).owner == caller ==> ({
                let n = old(self).spec_nft(nft_id);
                let m = final(self).spec_nft(nft_id);
                &&& r == Ok::<(), CoreError>(())
                &&& final(self).nfts@.len() == old(self).nfts@.len()
                &&& (forall|j: int|
                    0 <= j < old(self).nfts@.len() && j != nft_id - 1 ==> final(self).nfts@[j]
                        == old(self).nfts@[j])
                &&& m.owner == to
                &&& m.id == n.id
                &&& m.nft_type == n.nft_type
                &&& m.metadata == n.metadata
                &&& m.listed_price == n.listed_price
                &&& m.rarity == n.rarity
                &&& m.creation_time == n.creation_time
                &&& m.transaction_history@ == n.transaction_history@.push(
                    Transaction { timestamp: now, from: caller, to, price: None },
                )
            }),
    {
        let i = match self.index_of(nft_id) {
            Some(i) => i,
            None => { return Err(CoreError::NotFound) },
        };
        if self.nfts[i].owner != caller {
            return Err(CoreError::NotAuthorized);
        }
        let mut nft = self.nfts.remove(i);
        nft.transaction_history.push(Transaction { timestamp: now, from: caller, to, price: None });
        nft.owner = to;
        self.nfts.insert(i, nft);
        proof {
            assert(forall|j: int|
                0 <= j < old(self).nfts@.len() && j != i ==> self.nfts@[j] == old(self).nfts@[j]);
        }
        Ok(())
    }

    /// Puts the NFT up for sale at `price`; only its owner may list it.
    pub fn list_nft(&mut self, caller: u64, nft_id: u64, price: u64) -> (r: Result<(), CoreError>)
        requires
            old(self).wf(),
        ensures
            final(self).wf(),
            !old(self).spec_has(nft_id) ==> (r == Err::<(), CoreError>(CoreError::NotFound)
                && *final(self) == *old(self)),
            old(self).spec_has(nft_id) && old(self).spec_nft(nft_id).owner != caller ==> (r
                == Err::<(), CoreError>(CoreError::NotAuthorized) && *final(self) == *old(self)),
            old(self).spec_has(nft_id) && old(self).spec_nft(nft_id).owner == caller ==> ({
                let n = old(self).spec_nft(nft_id);
                let m = final(self).spec_nft(nft_id);
                &&& r == Ok::<(), CoreError>(())
                &&& final(self).nfts@.len() == old(self).nfts@.len()
                &&& (forall|j: int|
                    0 <= j < old(self).nfts@.len() && j != nft_id - 1 ==> final(self).nfts@[j]
                        == old(self).nfts@[j])
                &&& m.listed_price == Some(price)
                &&& m.id == n.id
                &&& m.owner == n.owner
                &&& m.nft_type == n.nft_type
                &&& m.metadata == n.metadata
                &&& m.rarity == n.rarity
                &&& m.creation_time == n.creation_time
                &&& m.transaction_history@ == n.transaction_history@
            }),
    {
        let i = match self.index_of(nft_id) {
            Some(i) => i,
            None => { return Err(CoreError::NotFound) },
        };
        if self.nfts[i].owner != caller {
            return Err(CoreError::NotAuthorized);
        }
        let mut nft = self.nfts.remove(i);
        nft.listed_price = Some(price);
        self.nfts.insert(i, nft);
        proof {
            assert(forall|j: int|
                0 <= j < old(self).nfts@.len() && j != i ==> self.nfts@[j] == old(self).nfts@[j]);
        }
        Ok(())
    }

    /// Buys a listed NFT: pays the listed price from the caller to the
    /// current owner through the ledger, then hands the NFT over and
    /// delists it.  A failed payment leaves both stores unchanged.
    pub fn buy_nft(
        &mut self,
        ledger: &mut Ledger,
        caller: u64,
        nft_id: u64,
        now: u64,
    ) -> (r: Result<(), CoreError>)
        requires
            old(self).wf(),
            old(ledger).wf(),
        ensures
            final(self).wf(),
            final(ledger).wf(),
            final(ledger).supply == old(ledger).supply,
            !old(self).spec_has(nft_id) ==> (r == Err::<(), CoreError>(CoreError::NotFound)
                && *final(self) == *old(self) && *final(ledger) == *old(ledger)),
            old(self).spec_has(nft_id) && old(self).spec_nft(nft_id).listed_price is None ==> (r
                == Err::<(), CoreError>(CoreError::InvalidState) && *final(self) == *old(self)
                && *final(ledger) == *old(ledger)),
            old(self).spec_has(nft_id) && old(self).spec_nft(nft_id).listed_price is Some ==> ({
                let n = old(self).spec_nft(nft_id);
                let price = n.listed_price->0;
                let buyer = account_of(caller, None);
                let seller = account_of(n.owner, None);
                &&& (old(ledger).spec_balance(buyer) < price ==> (r == Err::<(), CoreError>(
                    CoreError::InsufficientFunds {
                        balance: old(ledger).spec_balance(buyer) as u64,
                    },
                ) && *final(self) == *old(self) && *final(ledger) == *old(ledger)))
                &&& (old(ledger).spec_balance(buyer) >= price ==> ({
                    let m = final(self).spec_nft(nft_id);
                    &&& r == Ok::<(), CoreError>(())
                    &&& final(self).nfts@.len() == old(self).nfts@.len()
                    &&& (forall|j: int|
                        0 <= j < old(self).nfts@.len() && j != nft_id - 1 ==> final(self).nfts@[j]
                            == old(self).nfts@[j])
                    &&& m.owner == caller
                    &&& m.listed_price is None
                    &&& m.id == n.id
                    &&& m.nft_type == n.nft_type
                    &&& m.metadata == n.metadata
                    &&& m.rarity == n.rarity
                    &&& m.creation_time == n.creation_time
                    &&& m.transaction_history@ == n.transaction_history@.push(
                        Transaction { timestamp: now, from: n.owner, to: caller, price: Some(price) },
                    )
                    &&& (buyer == seller ==> forall|b: Account|
                        final(ledger).spec_balance(b) == old(ledger).spec_balance(b))
                    &&& (buyer != seller ==> {
                        &&& final(ledger).spec_balance(buyer) == old(ledger).spec_balance(buyer)
                            - price
                        &&& final(ledger).spec_balance(seller) == old(ledger).spec_balance(seller)
                            + price
                        &&& forall|b: Account|
                            b != buyer && b != seller ==> final(ledger).spec_balance(b) == old(
                                ledger,
                            ).spec_balance(b)
                    })
                }))
            }),
    {
        let i = match self.index_of(nft_id) {
            Some(i) => i,
            None => { return Err(CoreError::NotFound) },
        };
        let price = match self.nfts[i].listed_price {
            Some(p) => p,
            None => { return Err(CoreError::InvalidState) },
        };
        let seller_owner = self.nfts[i].owner;
        let buyer = Account { owner: caller, subaccount: None };
        let seller = Account { owner: seller_owner, subaccount: None };
        match ledger.transfer_from(buyer, seller, price) {
            Ok(_) => {},
            Err(TransferError::InsufficientFunds { balance }) => {
                return Err(CoreError::InsufficientFunds { balance });
            },
            Err(_) => {
                return Err(CoreError::InvalidState);
            },
        }
        let mut nft = self.nfts.remove(i);
        nft.transaction_history.push(
            Transaction { timestamp: now, from: seller_owner, to: caller, price: Some(price) },
        );
        nft.owner = caller;
        nft.listed_price = None;
        self.nfts.insert(i, nft);
        proof {
            assert(forall|j: int|
                0 <= j < old(self).nfts@.len() && j != i ==> self.nfts@[j] == old(self).nfts@[j]);
        }
        Ok(())
    }

    /// The collaborator contract consumed by the settlement core: the
    /// owner and asset type of an NFT, or `NotFound`.
    pub fn owner_of_and_type(&self, nft_id: u64) -> (r: Result<(u64, NFTType), CoreError>)
        ensures
            self.spec_has(nft_id) ==> r == Ok::<(u64, NFTType), CoreError>(
                (self.spec_nft(nft_id).owner, self.spec_nft(nft_id).nft_type),
            ),
            !self.spec_has(nft_id) ==> r == Err::<(u64, NFTType), CoreError>(CoreError::NotFound),
    {
        match self.index_of(nft_id) {
            Some(i) => Ok((self.nfts[i].owner, self.nfts[i].nft_type)),
            None => Err(CoreError::NotFound),
        }
    }

    /// Whether the NFT exists, is owned by `owner`, and has type `t`.
    pub open spec fn spec_owns(self, owner: u64, nft_id: u64, t: NFTType) -> bool {
        &&& self.spec_has(nft_id)
        &&& self.spec_nft(nft_id).owner == owner
        &&& self.spec_nft(nft_id).nft_type == t
    }

    /// The error an ownership check reports, by the first failing test.
    pub open spec fn spec_verify_err(self, owner: u64, nft_id: u64, t: NFTType) -> CoreError {
        if !self.spec_has(nft_id) {
            CoreError::NotFound
        } else if self.spec_nft(nft_id).owner != owner {
            CoreError::NotAuthorized
        } else {
            CoreError::InvalidState
        }
    }

    /// Checks that `owner` owns the NFT and that it has the expected
    /// asset type.
    pub fn verify_nft_ownership(&self, owner: u64, nft_id: u64, expected_type: NFTType) -> (r:
        Result<(), CoreError>)
        ensures
            r == (if self.spec_owns(owner, nft_id, expected_type) {
                Ok::<(), CoreError>(())
            } else {
                Err::<(), CoreError>(self.spec_verify_err(owner, nft_id, expected_type))
            }),
            !self.spec_has(nft_id) ==> r == Err::<(), CoreError>(CoreError::NotFound),
            self.spec_has(nft_id) && self.spec_nft(nft_id).owner != owner ==> r == Err::<
                (),
                CoreError,
            >(CoreError::NotAuthorized),
            self.spec_has(nft_id) && self.spec_nft(nft_id).owner == owner && self.spec_nft(
                nft_id,
            ).nft_type != expected_type ==> r == Err::<(), CoreError>(CoreError::InvalidState),
            (r == Ok::<(), CoreError>(())) == (self.spec_has(nft_id) && self.spec_nft(
                nft_id,
            ).owner == owner && self.spec_nft(nft_id).nft_type == expected_type),
    {
        let i = match self.index_of(nft_id) {
            Some(i) => i,
            None => { return Err(CoreError::NotFound) },
        };
        if self.nfts[i].owner != owner {
            return Err(CoreError::NotAuthorized);
        }
        if self.nfts[i].nft_type != expected_type {
            return Err(CoreError::InvalidState);
        }
        Ok(())
    }

    /// A copy of the NFT with this id, or `NotFound`.
    pub fn get_nft(&self, nft_id: u64) -> (r: Result<NFT, CoreError>)
        ensures
            match r {
                Ok(n) => self.spec_has(nft_id) && nft_eq(n, self.spec_nft(nft_id)),
                Err(e) => !self.spec_has(nft_id) && e == CoreError::NotFound,
            },
    {
        match self.index_of(nft_id) {
            Some(i) => Ok(duplicate_nft(&self.nfts[i])),
            None => Err(CoreError::NotFound),
        }
    }

    /// Copies of all NFTs owned by `user`, in registry order.
    pub fn get_user_nfts(&self, user: u64) -> (r: Vec<NFT>)
        ensures
            r@.len() == spec_user_nfts(self.nfts@, user).len(),
            forall|k: int|
                0 <= k < r@.len() ==> nft_eq(#[trigger] r@[k], spec_user_nfts(self.nfts@, user)[k]),
    {
        let mut out: Vec<NFT> = Vec::new();
        let mut i: usize = 0;
        while i < self.nfts.len()
            invariant
                i <= self.nfts@.len(),
                out@.len() == spec_user_nfts(self.nfts@.take(i as int), user).len(),
                forall|k: int|
                    0 <= k < out@.len() ==> nft_eq(
                        #[trigger] out@[k],
                        spec_user_nfts(self.nfts@.take(i as int), user)[k],
                    ),
            decreases self.nfts@.len() - i,
        {
            proof {
                reveal(Seq::filter);
                assert(self.nfts@.take(i + 1).drop_last() =~= self.nfts@.take(i as int));
                assert(self.nfts@.take(i + 1).last() == self.nfts@[i as int]);
            }
            if self.nfts[i].owner == user {
                out.push(duplicate_nft(&self.nfts[i]));
            }
            i = i + 1;
        }
        proof {
            assert(self.nfts@.take(i as int) =~= self.nfts@);
        }
        out
    }

    /// Copies of all NFTs currently listed for sale, in registry order.
    pub fn get_listed_nfts(&self) -> (r: Vec<NFT>)
        ensures
            r@.len() == spec_listed_nfts(self.nfts@).len(),
            forall|k: int|
                0 <= k < r@.len() ==> nft_eq(#[trigger] r@[k], spec_listed_nfts(self.nfts@)[k]),
    {
        let mut out: Vec<NFT> = Vec::new();
        let mut i: usize = 0;
        while i < self.nfts.len()
            invariant
                i <= self.nfts@.len(),
                out@.len() == spec_listed_nfts(self.nfts@.take(i as int)).len(),
                forall|k: int|
                    0 <= k < out@.len() ==> nft_eq(
                        #[trigger] out@[k],
                        spec_listed_nfts(self.nfts@.take(i as int))[k],
                    ),
            decreases self.nfts@.len() - i,
        {
            proof {
                reveal(Seq::filter);
                assert(self.nfts@.take(i + 1).drop_last() =~= self.nfts@.take(i as int));
                assert(self.nfts@.take(i + 1).last() == self.nfts@[i as int]);
            }
            if self.nfts[i].listed_price.is_some() {
                out.push(duplicate_nft(&self.nfts[i]));
            }
            i = i + 1;
        }
        proof {
            assert(self.nfts@.take(i as int) =~= self.nfts@);
        }
        out
    }
}

} // verus!
