//! Races: escrow of entry fees and bet stakes, lifecycle transitions, and
//! the one-time settlement that pays the escrowed funds out.

use vstd::prelude::*;

use crate::authority::AuthorityStore;
use crate::errors::CoreError;
use crate::ledger::account_of;
use crate::ledger::Account;
use crate::ledger::Ledger;
use crate::nft::NftRegistry;
use crate::nft::NFTType;
use crate::payout::apply_one_payout;
use crate::payout::apply_payouts;
use crate::payout::compute_bet_payouts;
use crate::payout::compute_pool_payouts;
use crate::payout::spec_bet_payouts;
use crate::payout::spec_pool_payouts;
use crate::payout::sum_stakes;
use crate::payout::Payout;

verus! {

/// Lifecycle of a race: `Upcoming -> InProgress -> Completed`, terminal.
#[derive(Clone, Copy, PartialEq, Eq, Structural, Debug)]
pub enum RaceStatus {
    Upcoming,
    InProgress,
    Completed,
}

/// An enrolled player with the karts/driver they race and their telemetry.
#[derive(Clone, Debug)]
pub struct RaceParticipant {
    pub player: u64,
    pub kart_id: u64,
    pub driver_id: u64,
    pub current_position: u32,
    pub lap_times: Vec<u64>,
}

/// A bet staked on a race while it was open: never mutated afterwards.
#[derive(Clone, Copy, PartialEq, Eq, Structural, Debug)]
pub struct Bet {
    pub race_id: u64,
    pub bettor: u64,
    pub amount: u64,
    pub prediction: u64,
}

/// A race.  `settled` is the one-time settlement marker: it is set in the
/// same atomic step that pays the escrow out, and a settled race is never
/// paid again.
#[derive(Clone, Debug)]
pub struct Race {
    pub id: u64,
    pub name: String,
    pub arena_id: u64,
    pub participants: Vec<RaceParticipant>,
    pub status: RaceStatus,
    pub winner: Option<u64>,
    pub bets: Vec<Bet>,
    pub start_time: Option<u64>,
    pub end_time: Option<u64>,
    pub entry_fee: u64,
    pub total_prize_pool: u64,
    pub settled: bool,
}

/// Whether `player` is enrolled in `ps`.
pub open spec fn is_enrolled(ps: Seq<RaceParticipant>, player: u64) -> bool {
    exists|i: int| 0 <= i < ps.len() && ps[i].player == player
}

/// The first participant currently holding `pos`, if any.
pub open spec fn find_by_position(ps: Seq<RaceParticipant>, pos: u32) -> Option<u64>
    decreases ps.len(),
{
    if ps.len() == 0 {
        None
    } else if ps[0].current_position == pos {
        Some(ps[0].player)
    } else {
        find_by_position(ps.drop_first(), pos)
    }
}

/// Finds the first participant currently holding `pos`.
pub fn find_position(participants: &Vec<RaceParticipant>, pos: u32) -> (r: Option<u64>)
    ensures
        r == find_by_position(participants@, pos),
{
    let ghost ps = participants@;
    proof {
        assert(ps.skip(0) =~= ps);
    }
    let mut i: usize = 0;
    while i < participants.len()
        invariant
            i <= ps.len(),
            ps == participants@,
            find_by_position(ps, pos) == find_by_position(ps.skip(i as int), pos),
        decreases ps.len() - i,
    {
        proof {
            assert(ps.skip(i as int)[0] == ps[i as int]);
            assert(ps.skip(i as int).drop_first() =~= ps.skip(i + 1));
        }
        if participants[i].current_position == pos {
            return Some(participants[i].player);
        }
        i = i + 1;
    }
    proof {
        assert(ps.skip(i as int) =~= Seq::<RaceParticipant>::empty());
    }
    None
}

/// The race store.  Identifiers are dense and one-based, and every race
/// keeps its bet stakes summable in 64 bits (enforced when a bet is
/// placed), so settlement arithmetic cannot overflow.
pub struct RaceStore {
    pub races: Vec<Race>,
    pub holding: Account,
}

impl RaceStore {
    /// Identifiers are exactly `1 ..= len`; stake sums fit in 64 bits;
    /// the settlement marker is set exactly on completed races.
    pub open spec fn wf(self) -> bool {
        &&& forall|i: int| 0 <= i < self.races@.len() ==> #[trigger] self.races@[i].id == i + 1
        &&& forall|i: int|
            0 <= i < self.races@.len() ==> sum_stakes(#[trigger] self.races@[i].bets@)
                <= u64::MAX
        &&& forall|i: int|
            0 <= i < self.races@.len() ==> (#[trigger] self.races@[i].settled ==> self.races@[i].status
                == RaceStatus::Completed)
    }

    /// Whether a race with this id exists.
    pub open spec fn spec_has(self, race_id: u64) -> bool {
        1 <= race_id <= self.races@.len()
    }

    /// The race with this id (meaningful only when `spec_has`).
    pub open spec fn spec_race(self, race_id: u64) -> Race {
        self.races@[race_id - 1]
    }

    /// An empty store whose escrow sits in `holding`.
    pub fn new(holding: Account) -> (store: RaceStore)
        ensures
            store.wf(),
            store.races@.len() == 0,
            store.holding == holding,
    {
        RaceStore { races: Vec::new(), holding }
    }

    /// The index of the race with this id, if it exists.
    fn index_of(&self, race_id: u64) -> (r: Option<usize>)
        ensures
            match r {
                Some(i) => self.spec_has(race_id) && i as int == race_id - 1 && i
                    < self.races@.len() && self.races@[i as int] == self.spec_race(race_id),
                None => !self.spec_has(race_id),
            },
    {
        if race_id >= 1 && race_id <= self.races.len() as u64 {
            proof {
                assert(race_id - 1 < self.races@.len());
            }
            Some((race_id - 1) as usize)
        } else {
            None
        }
    }

    /// Creates a race in `Upcoming` state.  Admin-only; the arena
    /// reference must resolve to an `Arena`-typed asset in the registry.
    pub fn create_race(
        &mut self,
        authority: &AuthorityStore,
        nfts: &NftRegistry,
        caller: u64,
        name: String,
        arena_id: u64,
        entry_fee: u64,
    ) -> (r: Result<u64, CoreError>)
        requires
            old(self).wf(),
        ensures
            final(self).wf(),
            final(self).holding == old(self).holding,
            !authority.spec_is_admin(caller) ==> (r == Err::<u64, CoreError>(
                CoreError::NotAuthorized,
            ) && *final(self) == *old(self)),
            authority.spec_is_admin(caller) && !nfts.spec_has(arena_id) ==> (r == Err::<
                u64,
                CoreError,
            >(CoreError::NotFound) && *final(self) == *old(self)),
            authority.spec_is_admin(caller) && nfts.spec_has(arena_id) && nfts.spec_nft(
                arena_id,
            ).nft_type != NFTType::Arena ==> (r == Err::<u64, CoreError>(CoreError::InvalidState)
                && *final(self) == *old(self)),
            authority.spec_is_admin(caller) && nfts.spec_has(arena_id) && nfts.spec_nft(
                arena_id,
            ).nft_type == NFTType::Arena && old(self).races@.len() + 1 > u64::MAX ==> (r == Err::<
                u64,
                CoreError,
            >(CoreError::Overflow) && *final(self) == *old(self)),
            authority.spec_is_admin(caller) && nfts.spec_has(arena_id) && nfts.spec_nft(
                arena_id,
            ).nft_type == NFTType::Arena && old(self).races@.len() + 1 <= u64::MAX ==> ({
                let race = final(self).races@[old(self).races@.len() as int];
                &&& r == Ok::<u64, CoreError>((old(self).races@.len() + 1) as u64)
                &&& final(self).races@.len() == old(self).races@.len() + 1
                &&& (forall|j: int|
                    0 <= j < old(self).races@.len() ==> final(self).races@[j] == old(
                        self,
                    ).races@[j])
                &&& race.id == old(self).races@.len() + 1
                &&& race.name == name
                &&& race.arena_id == arena_id
                &&& race.participants@.len() == 0
                &&& race.status == RaceStatus::Upcoming
                &&& race.winner is None
                &&& race.bets@.len() == 0
                &&& race.start_time is None
                &&& race.end_time is None
                &&& race.entry_fee == entry_fee
                &&& race.total_prize_pool == 0
                &&& !race.settled
            }),
    {
        if !authority.is_admin(caller) {
            return Err(CoreError::NotAuthorized);
        }
        match nfts.owner_of_and_type(arena_id) {
            Err(_) => { return Err(CoreError::NotFound) },
            Ok((_, nft_type)) => {
                if nft_type != NFTType::Arena {
                    return Err(CoreError::InvalidState);
                }
            },
        }
        let count: u64 = self.races.len() as u64;
        if count == u64::MAX {
            return Err(CoreError::Overflow);
        }
        let race_id: u64 = count + 1;
        let race = Race {
            id: race_id,
            name,
            arena_id,
            participants: Vec::new(),
            status: RaceStatus::Upcoming,
            winner: None,
            bets: Vec::new(),
            start_time: None,
            end_time: None,
            entry_fee,
            total_prize_pool: 0,
            settled: false,
        };
        self.races.push(race);
        Ok(race_id)
    }

    /// Enrolls the caller: they must own the kart and driver assets, the
    /// race must still be `Upcoming`, and the entry fee is escrowed into
    /// the holding account in the same atomic step — a failed payment
    /// adds no participant.
    pub fn join_race(
        &mut self,
        ledger: &mut Ledger,
        nfts: &NftRegistry,
        caller: u64,
        race_id: u64,
        kart_id: u64,
        driver_id: u64,
    ) -> (r: Result<(), CoreError>)
        requires
            old(self).wf(),
            old(ledger).wf(),
        ensures
            final(self).wf(),
            final(ledger).wf(),
            final(self).holding == old(self).holding,
            final(ledger).supply == old(ledger).supply,
            !nfts.spec_owns(caller, kart_id, NFTType::Kart) ==> (r == Err::<(), CoreError>(
                nfts.spec_verify_err(caller, kart_id, NFTType::Kart),
            ) && *final(self) == *old(self) && *final(ledger) == *old(ledger)),
            nfts.spec_owns(caller, kart_id, NFTType::Kart) && !nfts.spec_owns(
                caller,
                driver_id,
                NFTType::Driver,
            ) ==> (r == Err::<(), CoreError>(nfts.spec_verify_err(caller, driver_id, NFTType::Driver))
                && *final(self) == *old(self) && *final(ledger) == *old(ledger)),
            ({
                let assets_ok = nfts.spec_owns(caller, kart_id, NFTType::Kart) && nfts.spec_owns(
                    caller,
                    driver_id,
                    NFTType::Driver,
                );
                &&& (assets_ok && !old(self).spec_has(race_id) ==> (r == Err::<(), CoreError>(
                    CoreError::NotFound,
                ) && *final(self) == *old(self) && *final(ledger) == *old(ledger)))
                &&& (assets_ok && old(self).spec_has(race_id) && old(self).spec_race(race_id).status
                    != RaceStatus::Upcoming ==> (r == Err::<(), CoreError>(CoreError::InvalidState)
                    && *final(self) == *old(self) && *final(ledger) == *old(ledger)))
                &&& (assets_ok && old(self).spec_has(race_id) && old(self).spec_race(race_id).status
                    == RaceStatus::Upcoming && is_enrolled(
                    old(self).spec_race(race_id).participants@,
                    caller,
                ) ==> (r == Err::<(), CoreError>(CoreError::AlreadyJoined) && *final(self) == *old(
                    self,
                ) && *final(ledger) == *old(ledger)))
                &&& (assets_ok && old(self).spec_has(race_id) && old(self).spec_race(race_id).status
                    == RaceStatus::Upcoming && !is_enrolled(
                    old(self).spec_race(race_id).participants@,
                    caller,
                ) ==> ({
                    let race = old(self).spec_race(race_id);
                    let payer = account_of(caller, None);
                    let fee = race.entry_fee;
                    &&& (race.total_prize_pool + fee > u64::MAX ==> (r == Err::<(), CoreError>(
                        CoreError::Overflow,
                    ) && *final(self) == *old(self) && *final(ledger) == *old(ledger)))
                    &&& (race.total_prize_pool + fee <= u64::MAX && old(ledger).spec_balance(payer)
                        < fee ==> (r == Err::<(), CoreError>(
                        CoreError::InsufficientFunds {
                            balance: old(ledger).spec_balance(payer) as u64,
                        },
                    ) && *final(self) == *old(self) && *final(ledger) == *old(ledger)))
                    &&& (race.total_prize_pool + fee <= u64::MAX && old(ledger).spec_balance(payer)
                        >= fee ==> ({
                        let new_race = final(self).spec_race(race_id);
                        &&& r == Ok::<(), CoreError>(())
                        &&& final(self).races@.len() == old(self).races@.len()
                        &&& (forall|j: int|
                            0 <= j < old(self).races@.len() && j != race_id - 1 ==> final(self).races@[j] == old(self).races@[j])
                        &&& new_race.participants@.len() == race.participants@.len() + 1
                        &&& (forall|j: int|
                            0 <= j < race.participants@.len() ==> new_race.participants@[j]
                                == race.participants@[j])
                        &&& new_race.participants@.last().player == caller
                        &&& new_race.participants@.last().kart_id == kart_id
                        &&& new_race.participants@.last().driver_id == driver_id
                        &&& new_race.participants@.last().current_position == 0
                        &&& new_race.participants@.last().lap_times@ == Seq::<u64>::empty()
                        &&& new_race.total_prize_pool == race.total_prize_pool + fee
                        &&& new_race.id == race.id
                        &&& new_race.name == race.name
                        &&& new_race.arena_id == race.arena_id
                        &&& new_race.status == race.status
                        &&& new_race.winner == race.winner
                        &&& new_race.bets@ == race.bets@
                        &&& new_race.start_time == race.start_time
                        &&& new_race.end_time == race.end_time
                        &&& new_race.entry_fee == race.entry_fee
                        &&& new_race.settled == race.settled
                        &&& (payer == old(self).holding ==> forall|b: Account|
                            final(ledger).spec_balance(b) == old(ledger).spec_balance(b))
                        &&& (payer != old(self).holding ==> {
                            &&& final(ledger).spec_balance(payer) == old(ledger).spec_balance(payer)
                                - fee
                            &&& final(ledger).spec_balance(old(self).holding) == old(
                                ledger,
                            ).spec_balance(old(self).holding) + fee
                            &&& forall|b: Account|
                                b != payer && b != old(self).holding ==> final(ledger).spec_balance(
                                    b,
                                ) == old(ledger).spec_balance(b)
                        })
                    }))
                }))
            }),
    {
        match nfts.verify_nft_ownership(caller, kart_id, NFTType::Kart) {
            Ok(()) => {},
            Err(e) => { return Err(e) },
        }
        match nfts.verify_nft_ownership(caller, driver_id, NFTType::Driver) {
            Ok(()) => {},
            Err(e) => { return Err(e) },
        }
        let i = match self.index_of(race_id) {
            Some(i) => i,
            None => { return Err(CoreError::NotFound) },
        };
        if self.races[i].status != RaceStatus::Upcoming {
            return Err(CoreError::InvalidState);
        }
        if enrolled_in(&self.races[i].participants, caller) {
            return Err(CoreError::AlreadyJoined);
        }
        let fee = self.races[i].entry_fee;
        if fee > u64::MAX - self.races[i].total_prize_pool {
            return Err(CoreError::Overflow);
        }
        let payer = Account { owner: caller, subaccount: None };
        let balance = ledger.balance_of(&payer);
        if balance < fee {
            return Err(CoreError::InsufficientFunds { balance });
        }
        let _ = ledger.transfer_from(payer, self.holding, fee);
        let mut race = self.races.remove(i);
        race.total_prize_pool = race.total_prize_pool + fee;
        race.participants.push(
            RaceParticipant {
                player: caller,
                kart_id,
                driver_id,
                current_position: 0,
                lap_times: Vec::new(),
            },
        );
        self.races.insert(i, race);
        proof {
            assert(forall|j: int|
                0 <= j < old(self).races@.len() && j != i ==> self.races@[j] == old(self).races@[j]);
        }
        Ok(())
    }

    /// Stakes a bet on `prediction` (who must already be enrolled) while
    /// the race is still `Upcoming`.  The stake is escrowed before the
    /// bet is recorded — a failed payment records no bet.
    pub fn place_bet(
        &mut self,
        ledger: &mut Ledger,
        caller: u64,
        race_id: u64,
        amount: u64,
        prediction: u64,
    ) -> (r: Result<(), CoreError>)
        requires
            old(self).wf(),
            old(ledger).wf(),
        ensures
            final(self).wf(),
            final(ledger).wf(),
            final(self).holding == old(self).holding,
            final(ledger).supply == old(ledger).supply,
            !old(self).spec_has(race_id) ==> (r == Err::<(), CoreError>(CoreError::NotFound)
                && *final(self) == *old(self) && *final(ledger) == *old(ledger)),
            old(self).spec_has(race_id) && old(self).spec_race(race_id).status
                != RaceStatus::Upcoming ==> (r == Err::<(), CoreError>(CoreError::InvalidState)
                && *final(self) == *old(self) && *final(ledger) == *old(ledger)),
            old(self).spec_has(race_id) && old(self).spec_race(race_id).status
                == RaceStatus::Upcoming && !is_enrolled(
                old(self).spec_race(race_id).participants@,
                prediction,
            ) ==> (r == Err::<(), CoreError>(CoreError::NotFound) && *final(self) == *old(self)
                && *final(ledger) == *old(ledger)),
            old(self).spec_has(race_id) && old(self).spec_race(race_id).status
                == RaceStatus::Upcoming && is_enrolled(
                old(self).spec_race(race_id).participants@,
                prediction,
            ) ==> ({
                let race = old(self).spec_race(race_id);
                let payer = account_of(caller, None);
                &&& (sum_stakes(race.bets@) + amount > u64::MAX ==> (r == Err::<(), CoreError>(
                    CoreError::Overflow,
                ) && *final(self) == *old(self) && *final(ledger) == *old(ledger)))
                &&& (sum_stakes(race.bets@) + amount <= u64::MAX && old(ledger).spec_balance(payer)
                    < amount ==> (r == Err::<(), CoreError>(
                    CoreError::InsufficientFunds {
                        balance: old(ledger).spec_balance(payer) as u64,
                    },
                ) && *final(self) == *old(self) && *final(ledger) == *old(ledger)))
                &&& (sum_stakes(race.bets@) + amount <= u64::MAX && old(ledger).spec_balance(payer)
                    >= amount ==> ({
                    let new_race = final(self).spec_race(race_id);
                    &&& r == Ok::<(), CoreError>(())
                    &&& final(self).races@.len() == old(self).races@.len()
                    &&& (forall|j: int|
                        0 <= j < old(self).races@.len() && j != race_id - 1 ==> final(self).races@[j] == old(self).races@[j])
                    &&& new_race.bets@ == race.bets@.push(
                        Bet { race_id, bettor: caller, amount, prediction },
                    )
                    &&& new_race.participants@ == race.participants@
                    &&& new_race.id == race.id
                    &&& new_race.name == race.name
                    &&& new_race.arena_id == race.arena_id
                    &&& new_race.status == race.status
                    &&& new_race.winner == race.winner
                    &&& new_race.start_time == race.start_time
                    &&& new_race.end_time == race.end_time
                    &&& new_race.entry_fee == race.entry_fee
                    &&& new_race.total_prize_pool == race.total_prize_pool
                    &&& new_race.settled == race.settled
                    &&& (payer == old(self).holding ==> forall|b: Account|
                        final(ledger).spec_balance(b) == old(ledger).spec_balance(b))
                    &&& (payer != old(self).holding ==> {
                        &&& final(ledger).spec_balance(payer) == old(ledger).spec_balance(payer)
                            - amount
                        &&& final(ledger).spec_balance(old(self).holding) == old(
                            ledger,
                        ).spec_balance(old(self).holding) + amount
                        &&& forall|b: Account|
                            b != payer && b != old(self).holding ==> final(ledger).spec_balance(b)
                                == old(ledger).spec_balance(b)
                    })
                }))
            }),
    {
        let i = match self.index_of(race_id) {
            Some(i) => i,
            None => { return Err(CoreError::NotFound) },
        };
        if self.races[i].status != RaceStatus::Upcoming {
            return Err(CoreError::InvalidState);
        }
        if !enrolled_in(&self.races[i].participants, prediction) {
            return Err(CoreError::NotFound);
        }
        let staked = stakes_total(&self.races[i].bets);
        if amount > u64::MAX - staked {
            return Err(CoreError::Overflow);
        }
        let payer = Account { owner: caller, subaccount: None };
        let balance = ledger.balance_of(&payer);
        if balance < amount {
            return Err(CoreError::InsufficientFunds { balance });
        }
        let _ = ledger.transfer_from(payer, self.holding, amount);
        let mut race = self.races.remove(i);
        let ghost old_bets = race.bets@;
        race.bets.push(Bet { race_id, bettor: caller, amount, prediction });
        self.races.insert(i, race);
        proof {
            assert(forall|j: int|
                0 <= j < old(self).races@.len() && j != i ==> self.races@[j] == old(self).races@[j]);
            assert(self.races@[i as int].bets@.drop_last() =~= old_bets);
            assert(sum_stakes(self.races@[i as int].bets@) == sum_stakes(old_bets) + amount);
        }
        Ok(())
    }

    /// Starts a race: admin-only, and only `Upcoming -> InProgress`.
    pub fn start_race(&mut self, authority: &AuthorityStore, caller: u64, race_id: u64, now: u64) -> (r:
        Result<(), CoreError>)
        requires
            old(self).wf(),
        ensures
            final(self).wf(),
            final(self).holding == old(self).holding,
            !authority.spec_is_admin(caller) ==> (r == Err::<(), CoreError>(
                CoreError::NotAuthorized,
            ) && *final(self) == *old(self)),
            authority.spec_is_admin(caller) && !old(self).spec_has(race_id) ==> (r == Err::<
                (),
                CoreError,
            >(CoreError::NotFound) && *final(self) == *old(self)),
            authority.spec_is_admin(caller) && old(self).spec_has(race_id) && old(self).spec_race(
                race_id,
            ).status != RaceStatus::Upcoming ==> (r == Err::<(), CoreError>(CoreError::InvalidState)
                && *final(self) == *old(self)),
            authority.spec_is_admin(caller) && old(self).spec_has(race_id) && old(self).spec_race(
                race_id,
            ).status == RaceStatus::Upcoming ==> ({
                let race = old(self).spec_race(race_id);
                let new_race = final(self).spec_race(race_id);
                &&& r == Ok::<(), CoreError>(())
                &&& final(self).races@.len() == old(self).races@.len()
                &&& (forall|j: int|
                    0 <= j < old(self).races@.len() && j != race_id - 1 ==> final(self).races@[j]
                        == old(self).races@[j])
                &&& new_race.status == RaceStatus::InProgress
                &&& new_race.start_time == Some(now)
                &&& new_race.id == race.id
                &&& new_race.name == race.name
                &&& new_race.arena_id == race.arena_id
                &&& new_race.participants@ == race.participants@
                &&& new_race.winner == race.winner
                &&& new_race.bets@ == race.bets@
                &&& new_race.end_time == race.end_time
                &&& new_race.entry_fee == race.entry_fee
                &&& new_race.total_prize_pool == race.total_prize_pool
                &&& new_race.settled == race.settled
            }),
    {
        if !authority.is_admin(caller) {
            return Err(CoreError::NotAuthorized);
        }
        let i = match self.index_of(race_id) {
            Some(i) => i,
            None => { return Err(CoreError::NotFound) },
        };
        if self.races[i].status != RaceStatus::Upcoming {
            return Err(CoreError::InvalidState);
        }
        let mut race = self.races.remove(i);
        race.status = RaceStatus::InProgress;
        race.start_time = Some(now);
        self.races.insert(i, race);
        proof {
            assert(forall|j: int|
                0 <= j < old(self).races@.len() && j != i ==> self.races@[j] == old(self).races@[j]);
        }
        Ok(())
    }

    /// Ingests telemetry: position updates and lap-time appends, keyed by
    /// participant identity; updates for unknown players are silently
    /// ignored.  Admin-only, and only while the race is `InProgress`.
    pub fn update_race_progress(
        &mut self,
        authority: &AuthorityStore,
        caller: u64,
        race_id: u64,
        positions: Vec<(u64, u32)>,
        lap_times: Vec<(u64, u64)>,
    ) -> (r: Result<(), CoreError>)
        requires
            old(self).wf(),
        ensures
            final(self).wf(),
            final(self).holding == old(self).holding,
            !authority.spec_is_admin(caller) ==> (r == Err::<(), CoreError>(
                CoreError::NotAuthorized,
            ) && *final(self) == *old(self)),
            authority.spec_is_admin(caller) && !old(self).spec_has(race_id) ==> (r == Err::<
                (),
                CoreError,
            >(CoreError::NotFound) && *final(self) == *old(self)),
            authority.spec_is_admin(caller) && old(self).spec_has(race_id) && old(self).spec_race(
                race_id,
            ).status != RaceStatus::InProgress ==> (r == Err::<(), CoreError>(
                CoreError::InvalidState,
            ) && *final(self) == *old(self)),
            authority.spec_is_admin(caller) && old(self).spec_has(race_id) && old(self).spec_race(
                race_id,
            ).status == RaceStatus::InProgress ==> ({
                let race = old(self).spec_race(race_id);
                let new_race = final(self).spec_race(race_id);
                &&& r == Ok::<(), CoreError>(())
                &&& final(self).races@.len() == old(self).races@.len()
                &&& (forall|j: int|
                    0 <= j < old(self).races@.len() && j != race_id - 1 ==> final(self).races@[j]
                        == old(self).races@[j])
                &&& new_race.participants@.len() == race.participants@.len()
                &&& (forall|j: int|
                    0 <= j < race.participants@.len() ==> {
                        &&& (#[trigger] new_race.participants@[j]).player
                            == race.participants@[j].player
                        &&& new_race.participants@[j].kart_id == race.participants@[j].kart_id
                        &&& new_race.participants@[j].driver_id == race.participants@[j].driver_id
                        &&& new_race.participants@[j].current_position == position_after(
                            race.participants@,
                            positions@,
                            j,
                        )
                        &&& new_race.participants@[j].lap_times@ == laps_after(
                            race.participants@,
                            lap_times@,
                            j,
                        )
                    })
                &&& new_race.id == race.id
                &&& new_race.name == race.name
                &&& new_race.arena_id == race.arena_id
                &&& new_race.status == race.status
                &&& new_race.winner == race.winner
                &&& new_race.bets@ == race.bets@
                &&& new_race.start_time == race.start_time
                &&& new_race.end_time == race.end_time
                &&& new_race.entry_fee == race.entry_fee
                &&& new_race.total_prize_pool == race.total_prize_pool
                &&& new_race.settled == race.settled
            }),
    {
        if !authority.is_admin(caller) {
            return Err(CoreError::NotAuthorized);
        }
        let i = match self.index_of(race_id) {
            Some(i) => i,
            None => { return Err(CoreError::NotFound) },
        };
        if self.races[i].status != RaceStatus::InProgress {
            return Err(CoreError::InvalidState);
        }
        let mut race = self.races.remove(i);
        let ghost orig_race = race;
        let ghost orig = race.participants@;
        let mut k: usize = 0;
        while k < positions.len()
            invariant
                k <= positions@.len(),
                race.participants@.len() == orig.len(),
                forall|j: int|
                    0 <= j < orig.len() ==> {
                        &&& (#[trigger] race.participants@[j]).player == orig[j].player
                        &&& race.participants@[j].kart_id == orig[j].kart_id
                        &&& race.participants@[j].driver_id == orig[j].driver_id
                        &&& race.participants@[j].lap_times == orig[j].lap_times
                        &&& race.participants@[j].current_position == position_after(
                            orig,
                            positions@.take(k as int),
                            j,
                        )
                    },
                race.id == orig_race.id,
                race.name == orig_race.name,
                race.arena_id == orig_race.arena_id,
                race.status == orig_race.status,
                race.winner == orig_race.winner,
                race.bets == orig_race.bets,
                race.start_time == orig_race.start_time,
                race.end_time == orig_race.end_time,
                race.entry_fee == orig_race.entry_fee,
                race.total_prize_pool == orig_race.total_prize_pool,
                race.settled == orig_race.settled,
            decreases positions@.len() - k,
        {
            let ghost pre = race.participants@;
            let (player, pos) = positions[k];
            proof {
                assert(positions@.take(k + 1).drop_last() =~= positions@.take(k as int));
                assert(positions@.take(k + 1).last() == positions@[k as int]);
                lemma_index_same_players(pre, orig, player);
            }
            match find_player(&race.participants, player) {
                Some(j) => {
                    let mut p = race.participants.remove(j);
                    p.current_position = pos;
                    race.participants.insert(j, p);
                    proof {
                        assert(forall|m: int|
                            0 <= m < orig.len() && m != j ==> race.participants@[m] == pre[m]);
                    }
                },
                None => {},
            }
            k = k + 1;
        }
        proof {
            assert(positions@.take(positions@.len() as int) =~= positions@);
        }
        let ghost mid = race.participants@;
        let mut k: usize = 0;
        while k < lap_times.len()
            invariant
                k <= lap_times@.len(),
                race.participants@.len() == orig.len(),
                mid.len() == orig.len(),
                forall|j: int|
                    0 <= j < orig.len() ==> {
                        &&& (#[trigger] race.participants@[j]).player == orig[j].player
                        &&& race.participants@[j].kart_id == orig[j].kart_id
                        &&& race.participants@[j].driver_id == orig[j].driver_id
                        &&& race.participants@[j].current_position == mid[j].current_position
                        &&& mid[j].current_position == position_after(orig, positions@, j)
                        &&& race.participants@[j].lap_times@ == laps_after(
                            orig,
                            lap_times@.take(k as int),
                            j,
                        )
                    },
                race.id == orig_race.id,
                race.name == orig_race.name,
                race.arena_id == orig_race.arena_id,
                race.status == orig_race.status,
                race.winner == orig_race.winner,
                race.bets == orig_race.bets,
                race.start_time == orig_race.start_time,
                race.end_time == orig_race.end_time,
                race.entry_fee == orig_race.entry_fee,
                race.total_prize_pool == orig_race.total_prize_pool,
                race.settled == orig_race.settled,
            decreases lap_times@.len() - k,
        {
            let ghost pre = race.participants@;
            let (player, t) = lap_times[k];
            proof {
                assert(lap_times@.take(k + 1).drop_last() =~= lap_times@.take(k as int));
                assert(lap_times@.take(k + 1).last() == lap_times@[k as int]);
                lemma_index_same_players(pre, orig, player);
            }
            match find_player(&race.participants, player) {
                Some(j) => {
                    let mut p = race.participants.remove(j);
                    p.lap_times.push(t);
                    race.participants.insert(j, p);
                    proof {
                        assert(forall|m: int|
                            0 <= m < orig.len() && m != j ==> race.participants@[m] == pre[m]);
                    }
                },
                None => {},
            }
            k = k + 1;
        }
        proof {
            assert(lap_times@.take(lap_times@.len() as int) =~= lap_times@);
        }
        self.races.insert(i, race);
        proof {
            assert(forall|j: int|
                0 <= j < old(self).races@.len() && j != i ==> self.races@[j] == old(self).races@[j]);
        }
        Ok(())
    }

    /// Resolves a race: admin-only, only `InProgress -> Completed`, and
    /// exactly once — a completed (settled) race answers `InvalidState`
    /// and nothing moves, so a second resolution can never re-pay.
    ///
    /// With `declared_winner` the bets are settled on that (enrolled)
    /// winner; without it the winner is the occupant of position 1, the
    /// entry-fee pool is split 50/30/20 over the podium, and the bets are
    /// settled on that winner.  The terminal state and the settlement
    /// marker are committed before any funds move; each payout then moves
    /// only if the holding account covers it, and a failed payout skips
    /// that payment without rolling the settlement back.
    pub fn end_race(
        &mut self,
        ledger: &mut Ledger,
        authority: &AuthorityStore,
        caller: u64,
        race_id: u64,
        declared_winner: Option<u64>,
        now: u64,
    ) -> (r: Result<(), CoreError>)
        requires
            old(self).wf(),
            old(ledger).wf(),
        ensures
            final(self).wf(),
            final(ledger).wf(),
            final(self).holding == old(self).holding,
            final(ledger).supply == old(ledger).supply,
            !authority.spec_is_admin(caller) ==> (r == Err::<(), CoreError>(
                CoreError::NotAuthorized,
            ) && *final(self) == *old(self) && *final(ledger) == *old(ledger)),
            authority.spec_is_admin(caller) && !old(self).spec_has(race_id) ==> (r == Err::<
                (),
                CoreError,
            >(CoreError::NotFound) && *final(self) == *old(self) && *final(ledger) == *old(ledger)),
            authority.spec_is_admin(caller) && old(self).spec_has(race_id) && old(self).spec_race(
                race_id,
            ).status != RaceStatus::InProgress ==> (r == Err::<(), CoreError>(
                CoreError::InvalidState,
            ) && *final(self) == *old(self) && *final(ledger) == *old(ledger)),
            authority.spec_is_admin(caller) && old(self).spec_has(race_id) && old(self).spec_race(
                race_id,
            ).status == RaceStatus::InProgress && spec_winner_of(
                old(self).spec_race(race_id),
                declared_winner,
            ) is None ==> (r == Err::<(), CoreError>(CoreError::NotFound) && *final(self) == *old(
                self,
            ) && *final(ledger) == *old(ledger)),
            authority.spec_is_admin(caller) && old(self).spec_has(race_id) && old(self).spec_race(
                race_id,
            ).status == RaceStatus::InProgress && spec_winner_of(
                old(self).spec_race(race_id),
                declared_winner,
            ) is Some ==> ({
                let race = old(self).spec_race(race_id);
                let new_race = final(self).spec_race(race_id);
                let w = spec_winner_of(race, declared_winner)->0;
                &&& r == Ok::<(), CoreError>(())
                &&& final(self).races@.len() == old(self).races@.len()
                &&& (forall|j: int|
                    0 <= j < old(self).races@.len() && j != race_id - 1 ==> final(self).races@[j]
                        == old(self).races@[j])
                &&& new_race.status == RaceStatus::Completed
                &&& new_race.winner == Some(w)
                &&& new_race.settled
                &&& new_race.end_time == Some(now)
                &&& new_race.id == race.id
                &&& new_race.name == race.name
                &&& new_race.arena_id == race.arena_id
                &&& new_race.participants@ == race.participants@
                &&& new_race.bets@ == race.bets@
                &&& new_race.start_time == race.start_time
                &&& new_race.entry_fee == race.entry_fee
                &&& new_race.total_prize_pool == race.total_prize_pool
                &&& final(ledger).balances() == apply_payouts(
                    old(ledger).balances(),
                    old(self).holding,
                    settlement_payouts(race, declared_winner),
                )
            }),
    {
        if !authority.is_admin(caller) {
            return Err(CoreError::NotAuthorized);
        }
        let i = match self.index_of(race_id) {
            Some(i) => i,
            None => { return Err(CoreError::NotFound) },
        };
        if self.races[i].status != RaceStatus::InProgress {
            return Err(CoreError::InvalidState);
        }
        let winner = match declared_winner {
            Some(w) => {
                if !enrolled_in(&self.races[i].participants, w) {
                    return Err(CoreError::NotFound);
                }
                w
            },
            None => {
                match find_position(&self.races[i].participants, 1) {
                    Some(w) => w,
                    None => { return Err(CoreError::NotFound) },
                }
            },
        };
        proof {
            assert(sum_stakes(self.races@[i as int].bets@) <= u64::MAX);
        }
        let pays: Vec<Payout> = match declared_winner {
            Some(w) => compute_bet_payouts(&self.races[i].bets, w),
            None => {
                let mut pool_part = compute_pool_payouts(
                    &self.races[i].participants,
                    self.races[i].total_prize_pool,
                );
                let mut bet_part = compute_bet_payouts(&self.races[i].bets, winner);
                pool_part.append(&mut bet_part);
                pool_part
            },
        };
        proof {
            assert(pays@ == settlement_payouts(old(self).spec_race(race_id), declared_winner));
        }
        let mut race = self.races.remove(i);
        race.status = RaceStatus::Completed;
        race.winner = Some(winner);
        race.end_time = Some(now);
        race.settled = true;
        self.races.insert(i, race);
        proof {
            assert(forall|j: int|
                0 <= j < old(self).races@.len() && j != i ==> self.races@[j] == old(self).races@[j]);
        }
        let holding = self.holding;
        let ghost init = ledger.balances();
        proof {
            assert(pays@.skip(0) =~= pays@);
        }
        let mut k: usize = 0;
        while k < pays.len()
            invariant
                k <= pays@.len(),
                ledger.wf(),
                ledger.supply == old(ledger).supply,
                apply_payouts(ledger.balances(), holding, pays@.skip(k as int)) == apply_payouts(
                    init,
                    holding,
                    pays@,
                ),
            decreases pays@.len() - k,
        {
            let p = pays[k];
            let ghost m = ledger.balances();
            let ghost prev = *ledger;
            let _ = ledger.transfer_from(holding, p.to, p.amount);
            proof {
                assert forall|b: Account| ledger.balances()[b] == apply_one_payout(m, holding, p)[b]
                    by {
                    assert(m[b] == prev.spec_balance(b));
                    assert(m[holding] == prev.spec_balance(holding));
                    assert(ledger.balances()[b] == ledger.spec_balance(b));
                    if m[holding] >= p.amount {
                        let m1 = m.insert(holding, (m[holding] - p.amount) as nat);
                        let m2 = m1.insert(p.to, (m1[p.to] + p.amount) as nat);
                        if holding == p.to {
                            assert(m2[b] == m[b]);
                        } else {
                            if b == p.to {
                                assert(m2[b] == m[p.to] + p.amount);
                            } else if b == holding {
                                assert(m2[b] == m[holding] - p.amount);
                            } else {
                                assert(m2[b] == m[b]);
                            }
                        }
                    }
                }
                assert(ledger.balances() =~= apply_one_payout(m, holding, p));
                assert(pays@.skip(k as int)[0] == pays@[k as int]);
                assert(pays@.skip(k as int).drop_first() =~= pays@.skip(k as int + 1));
            }
            k = k + 1;
        }
        proof {
            assert(pays@.skip(pays@.len() as int) =~= Seq::<Payout>::empty());
        }
        Ok(())
    }
}

/// The winner a resolution call will settle on: the declared winner if
/// enrolled, or the occupant of position 1 in position-derived mode.
pub open spec fn spec_winner_of(race: Race, declared: Option<u64>) -> Option<u64> {
    match declared {
        Some(w) => if is_enrolled(race.participants@, w) {
            Some(w)
        } else {
            None
        },
        None => find_by_position(race.participants@, 1),
    }
}

/// Every payout a resolution issues, in order.  Declared-winner mode
/// settles the bets only (the entry-fee pool is retained — the documented
/// policy); position-derived mode splits the entry-fee pool 50/30/20 over
/// the podium and then settles the bets against the position-1 winner.
pub open spec fn settlement_payouts(race: Race, declared: Option<u64>) -> Seq<Payout> {
    match declared {
        Some(w) => spec_bet_payouts(race.bets@, w),
        None => spec_pool_payouts(race.participants@, race.total_prize_pool as int)
            + spec_bet_payouts(race.bets@, find_by_position(race.participants@, 1)->0),
    }
}

/// The index of the first participant entry for `player`, or -1.
pub open spec fn participant_index(ps: Seq<RaceParticipant>, player: u64) -> int
    decreases ps.len(),
{
    if ps.len() == 0 {
        -1
    } else if ps[0].player == player {
        0
    } else if participant_index(ps.drop_first(), player) == -1 {
        -1
    } else {
        participant_index(ps.drop_first(), player) + 1
    }
}

/// The position of the participant at `j` after the updates in `us` have
/// been applied in order; an update targets the first entry of its
/// player, and updates for unknown players are ignored.
pub open spec fn position_after(ps: Seq<RaceParticipant>, us: Seq<(u64, u32)>, j: int) -> u32
    decreases us.len(),
{
    if us.len() == 0 {
        ps[j].current_position
    } else if participant_index(ps, us.last().0) == j {
        us.last().1
    } else {
        position_after(ps, us.drop_last(), j)
    }
}

/// The lap times of the participant at `j` after the appends in `ts`
/// have been applied in order; appends for unknown players are ignored.
pub open spec fn laps_after(ps: Seq<RaceParticipant>, ts: Seq<(u64, u64)>, j: int) -> Seq<u64>
    decreases ts.len(),
{
    if ts.len() == 0 {
        ps[j].lap_times@
    } else if participant_index(ps, ts.last().0) == j {
        laps_after(ps, ts.drop_last(), j).push(ts.last().1)
    } else {
        laps_after(ps, ts.drop_last(), j)
    }
}

/// A first-match entry determines the participant index.
proof fn lemma_first_match_index(ps: Seq<RaceParticipant>, player: u64, j: int)
    requires
        0 <= j < ps.len(),
        ps[j].player == player,
        forall|k: int| 0 <= k < j ==> ps[k].player != player,
    ensures
        participant_index(ps, player) == j,
    decreases ps.len(),
{
    if j > 0 {
        lemma_first_match_index(ps.drop_first(), player, j - 1);
    }
}

/// No entry for `player` means index -1.
proof fn lemma_no_match_index(ps: Seq<RaceParticipant>, player: u64)
    requires
        forall|k: int| 0 <= k < ps.len() ==> ps[k].player != player,
    ensures
        participant_index(ps, player) == -1,
    decreases ps.len(),
{
    if ps.len() > 0 {
        lemma_no_match_index(ps.drop_first(), player);
    }
}

/// The participant index depends only on the players, not on the
/// telemetry fields.
proof fn lemma_index_same_players(a: Seq<RaceParticipant>, b: Seq<RaceParticipant>, player: u64)
    requires
        a.len() == b.len(),
        forall|j: int| 0 <= j < a.len() ==> a[j].player == b[j].player,
    ensures
        participant_index(a, player) == participant_index(b, player),
    decreases a.len(),
{
    if a.len() > 0 {
        assert(forall|j: int|
            0 <= j < a.drop_first().len() ==> a.drop_first()[j].player == b.drop_first()[j].player);
        lemma_index_same_players(a.drop_first(), b.drop_first(), player);
    }
}

/// The participant index is a valid first-match index when non-negative.
proof fn lemma_participant_index_bounds(ps: Seq<RaceParticipant>, player: u64)
    ensures
        -1 <= participant_index(ps, player) < ps.len(),
        participant_index(ps, player) >= 0 ==> ps[participant_index(ps, player)].player == player,
    decreases ps.len(),
{
    if ps.len() > 0 {
        lemma_participant_index_bounds(ps.drop_first(), player);
    }
}

/// Finds the first participant entry for `player`.
pub fn find_player(participants: &Vec<RaceParticipant>, player: u64) -> (r: Option<usize>)
    ensures
        match r {
            Some(j) => j < participants@.len() && participant_index(participants@, player)
                == j as int,
            None => participant_index(participants@, player) == -1,
        },
{
    let mut i: usize = 0;
    while i < participants.len()
        invariant
            i <= participants@.len(),
            forall|j: int| 0 <= j < i ==> participants@[j].player != player,
        decreases participants@.len() - i,
    {
        if participants[i].player == player {
            proof {
                lemma_first_match_index(participants@, player, i as int);
            }
            return Some(i);
        }
        i = i + 1;
    }
    proof {
        lemma_no_match_index(participants@, player);
    }
    None
}

/// Participant equality up to views.
pub open spec fn participant_eq(a: RaceParticipant, b: RaceParticipant) -> bool {
    &&& a.player == b.player
    &&& a.kart_id == b.kart_id
    &&& a.driver_id == b.driver_id
    &&& a.current_position == b.current_position
    &&& a.lap_times@ == b.lap_times@
}

/// Race equality up to views.
pub open spec fn race_eq(a: Race, b: Race) -> bool {
    &&& a.id == b.id
    &&& a.name == b.name
    &&& a.arena_id == b.arena_id
    &&& a.participants@.len() == b.participants@.len()
    &&& (forall|j: int|
        0 <= j < a.participants@.len() ==> participant_eq(
            #[trigger] a.participants@[j],
            b.participants@[j],
        ))
    &&& a.status == b.status
    &&& a.winner == b.winner
    &&& a.bets@ == b.bets@
    &&& a.start_time == b.start_time
    &&& a.end_time == b.end_time
    &&& a.entry_fee == b.entry_fee
    &&& a.total_prize_pool == b.total_prize_pool
    &&& a.settled == b.settled
}

/// The races still open for joining, in store order.
pub open spec fn spec_upcoming_races(s: Seq<Race>) -> Seq<Race> {
    s.filter(|rc: Race| rc.status == RaceStatus::Upcoming)
}

/// Copies a lap-time list, preserving its content.
fn copy_laps(v: &Vec<u64>) -> (r: Vec<u64>)
    ensures
        r@ == v@,
{
    let mut out: Vec<u64> = Vec::new();
    let mut i: usize = 0;
    while i < v.len()
        invariant
            i <= v@.len(),
            out@.len() == i,
            forall|j: int| 0 <= j < i ==> out@[j] == v@[j],
        decreases v@.len() - i,
    {
        out.push(v[i]);
        i = i + 1;
    }
    proof {
        assert(out@ =~= v@);
    }
    out
}

/// Copies a bet list, preserving its content.
fn copy_bets(v: &Vec<Bet>) -> (r: Vec<Bet>)
    ensures
        r@ == v@,
{
    let mut out: Vec<Bet> = Vec::new();
    let mut i: usize = 0;
    while i < v.len()
        invariant
            i <= v@.len(),
            out@.len() == i,
            forall|j: int| 0 <= j < i ==> out@[j] == v@[j],
        decreases v@.len() - i,
    {
        out.push(v[i]);
        i = i + 1;
    }
    proof {
        assert(out@ =~= v@);
    }
    out
}

/// Copies a participant list, preserving every entry up to views.
fn copy_participants(v: &Vec<RaceParticipant>) -> (r: Vec<RaceParticipant>)
    ensures
        r@.len() == v@.len(),
        forall|j: int| 0 <= j < v@.len() ==> participant_eq(#[trigger] r@[j], v@[j]),
{
    let mut out: Vec<RaceParticipant> = Vec::new();
    let mut i: usize = 0;
    while i < v.len()
        invariant
            i <= v@.len(),
            out@.len() == i,
            forall|j: int| 0 <= j < i ==> participant_eq(#[trigger] out@[j], v@[j]),
        decreases v@.len() - i,
    {
        let p = &v[i];
        out.push(
            RaceParticipant {
                player: p.player,
                kart_id: p.kart_id,
                driver_id: p.driver_id,
                current_position: p.current_position,
                lap_times: copy_laps(&p.lap_times),
            },
        );
        i = i + 1;
    }
    out
}

/// Copies a race, preserving every field up to views.
fn duplicate_race(rc: &Race) -> (r: Race)
    ensures
        race_eq(r, *rc),
{
    Race {
        id: rc.id,
        name: rc.name.clone(),
        arena_id: rc.arena_id,
        participants: copy_participants(&rc.participants),
        status: rc.status,
        winner: rc.winner,
        bets: copy_bets(&rc.bets),
        start_time: rc.start_time,
        end_time: rc.end_time,
        entry_fee: rc.entry_fee,
        total_prize_pool: rc.total_prize_pool,
        settled: rc.settled,
    }
}

/// Whether `player` is already enrolled.
pub fn enrolled_in(participants: &Vec<RaceParticipant>, player: u64) -> (r: bool)
    ensures
        r == is_enrolled(participants@, player),
{
    let mut i: usize = 0;
    while i < participants.len()
        invariant
            i <= participants@.len(),
            forall|j: int| 0 <= j < i ==> participants@[j].player != player,
        decreases participants@.len() - i,
    {
        if participants[i].player == player {
            return true;
        }
        i = i + 1;
    }
    proof {
        assert(!is_enrolled(participants@, player));
    }
    false
}

/// The total staked on a race, summed without overflow.
pub fn stakes_total(bets: &Vec<Bet>) -> (r: u64)
    requires
        sum_stakes(bets@) <= u64::MAX,
    ensures
        r as int == sum_stakes(bets@),
{
    let ghost bs = bets@;
    let mut total: u64 = 0;
    let mut i: usize = 0;
    while i < bets.len()
        invariant
            i <= bs.len(),
            bs == bets@,
            sum_stakes(bs) <= u64::MAX,
            total as int == sum_stakes(bs.take(i as int)),
        decreases bs.len() - i,
    {
        proof {
            assert(bs.take(i + 1).drop_last() =~= bs.take(i as int));
            assert(bs.take(i + 1).last() == bs[i as int]);
            crate::payout::lemma_sum_stakes_prefix(bs, i + 1);
        }
        total = total + bets[i].amount;
        i = i + 1;
    }
    proof {
        assert(bs.take(bs.len() as int) =~= bs);
    }
    total
}

impl RaceStore {
    /// A copy of the race with this id, or `NotFound`.
    pub fn get_race(&self, race_id: u64) -> (r: Result<Race, CoreError>)
        ensures
            match r {
                Ok(rc) => self.spec_has(race_id) && race_eq(rc, self.spec_race(race_id)),
                Err(e) => !self.spec_has(race_id) && e == CoreError::NotFound,
            },
    {
        match self.index_of(race_id) {
            Some(i) => Ok(duplicate_race(&self.races[i])),
            None => Err(CoreError::NotFound),
        }
    }

    /// Copies of all races still open for joining, in store order.
    pub fn get_upcoming_races(&self) -> (r: Vec<Race>)
        ensures
            r@.len() == spec_upcoming_races(self.races@).len(),
            forall|k: int|
                0 <= k < r@.len() ==> race_eq(#[trigger] r@[k], spec_upcoming_races(self.races@)[k]),
    {
        let mut out: Vec<Race> = Vec::new();
        let mut i: usize = 0;
        while i < self.races.len()
            invariant
                i <= self.races@.len(),
                out@.len() == spec_upcoming_races(self.races@.take(i as int)).len(),
                forall|k: int|
                    0 <= k < out@.len() ==> race_eq(
                        #[trigger] out@[k],
                        spec_upcoming_races(self.races@.take(i as int))[k],
                    ),
            decreases self.races@.len() - i,
        {
            proof {
                reveal(Seq::filter);
                assert(self.races@.take(i + 1).drop_last() =~= self.races@.take(i as int));
                assert(self.races@.take(i + 1).last() == self.races@[i as int]);
            }
            if self.races[i].status == RaceStatus::Upcoming {
                out.push(duplicate_race(&self.races[i]));
            }
            i = i + 1;
        }
        proof {
            assert(self.races@.take(i as int) =~= self.races@);
        }
        out
    }
}

} // verus!
