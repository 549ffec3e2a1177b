//! Settlement arithmetic: integer proportional division of the escrowed
//! funds, and the spec-level model of applying payouts to the ledger.
//!
//! Two payout schemes exist.  Declared-winner settlement distributes the
//! whole bet pool over the bets that predicted the winner, proportional to
//! stake, with the integer-division remainder assigned to the first winning
//! bet in bet order (a deterministic remainder rule); if no bet predicted
//! the winner, every bet is refunded.  Position-derived settlement splits
//! the entry-fee prize pool 50/30/20 over the occupants of positions 1/2/3;
//! unoccupied positions receive nothing and the rounding remainder stays in
//! the holding account (the documented retention policy).

use vstd::prelude::*;

use crate::ledger::account_of;
use crate::ledger::Account;
use crate::race::find_by_position;
use crate::race::Bet;
use crate::race::RaceParticipant;
use vstd::arithmetic::div_mod::lemma_fundamental_div_mod;
use vstd::arithmetic::div_mod::lemma_mod_bound;
use vstd::arithmetic::div_mod::lemma_div_pos_is_pos;
use vstd::arithmetic::mul::lemma_mul_inequality;
use vstd::arithmetic::mul::lemma_mul_inequality_converse;
use vstd::arithmetic::mul::lemma_mul_nonnegative;

verus! {

/// One intended payout: credit `amount` to `to` from the holding account.
#[derive(Clone, Copy, PartialEq, Eq, Structural, Debug)]
pub struct Payout {
    pub to: Account,
    pub amount: u64,
}

/// The sum of all bet stakes.
pub open spec fn sum_stakes(bets: Seq<Bet>) -> int
    decreases bets.len(),
{
    if bets.len() == 0 {
        0
    } else {
        sum_stakes(bets.drop_last()) + bets.last().amount
    }
}

/// The sum of the stakes of the bets that predicted `winner`.
pub open spec fn winning_stake(bets: Seq<Bet>, winner: u64) -> int
    decreases bets.len(),
{
    if bets.len() == 0 {
        0
    } else {
        winning_stake(bets.drop_last(), winner) + if bets.last().prediction == winner {
            bets.last().amount as int
        } else {
            0
        }
    }
}

/// The sum of the amounts of a payout list.
pub open spec fn sum_payouts(ps: Seq<Payout>) -> int
    decreases ps.len(),
{
    if ps.len() == 0 {
        0
    } else {
        sum_payouts(ps.drop_last()) + ps.last().amount
    }
}

/// Integer proportional share: `total * stake / winning`, rounded down.
pub open spec fn share_of(total: int, stake: int, winning: int) -> int {
    total * stake / winning
}

/// Every bet refunded to its bettor.
pub open spec fn refund_payouts(bets: Seq<Bet>) -> Seq<Payout>
    decreases bets.len(),
{
    if bets.len() == 0 {
        Seq::empty()
    } else {
        refund_payouts(bets.drop_last()).push(
            Payout { to: account_of(bets.last().bettor, None), amount: bets.last().amount },
        )
    }
}

/// The floor shares of the winning bets, in bet order, before the
/// remainder is assigned.
pub open spec fn base_bet_payouts(bets: Seq<Bet>, winner: u64, total: int, winning: int) -> Seq<
    Payout,
>
    decreases bets.len(),
{
    if bets.len() == 0 {
        Seq::empty()
    } else {
        let rest = base_bet_payouts(bets.drop_last(), winner, total, winning);
        if bets.last().prediction == winner {
            rest.push(
                Payout {
                    to: account_of(bets.last().bettor, None),
                    amount: share_of(total, bets.last().amount as int, winning) as u64,
                },
            )
        } else {
            rest
        }
    }
}

/// Declared-winner settlement of the bets: proportional shares of the
/// whole bet pool among the winning bets, the division remainder going to
/// the first winning bet; a full refund when no bet predicted the winner.
pub open spec fn spec_bet_payouts(bets: Seq<Bet>, winner: u64) -> Seq<Payout> {
    let total = sum_stakes(bets);
    let winning = winning_stake(bets, winner);
    if winning == 0 {
        refund_payouts(bets)
    } else {
        let base = base_bet_payouts(bets, winner, total, winning);
        let rem = total - sum_payouts(base);
        base.update(0, Payout { to: base[0].to, amount: (base[0].amount + rem) as u64 })
    }
}

/// The payout (a singleton, or nothing) of one podium position.
pub open spec fn opt_payout(occupant: Option<u64>, amount: int) -> Seq<Payout> {
    match occupant {
        Some(player) => seq![Payout { to: account_of(player, None), amount: amount as u64 }],
        None => Seq::empty(),
    }
}

/// Position-derived settlement of the prize pool: 50/30/20 of the pool to
/// the occupants of positions 1/2/3; the remainder is retained.
pub open spec fn spec_pool_payouts(ps: Seq<RaceParticipant>, pool: int) -> Seq<Payout> {
    opt_payout(find_by_position(ps, 1), share_of(pool, 50, 100)) + opt_payout(
        find_by_position(ps, 2),
        share_of(pool, 30, 100),
    ) + opt_payout(find_by_position(ps, 3), share_of(pool, 20, 100))
}

/// The effect of attempting one payout on the balance map: funds move
/// only if the holding account can cover the amount; otherwise nothing
/// moves (the per-payout partial-failure policy).
pub open spec fn apply_one_payout(m: Map<Account, nat>, holding: Account, p: Payout) -> Map<
    Account,
    nat,
> {
    if m[holding] >= p.amount {
        let m1 = m.insert(holding, (m[holding] - p.amount) as nat);
        m1.insert(p.to, (m1[p.to] + p.amount) as nat)
    } else {
        m
    }
}

/// The effect of attempting a payout list in order.
pub open spec fn apply_payouts(m: Map<Account, nat>, holding: Account, ps: Seq<Payout>) -> Map<
    Account,
    nat,
>
    decreases ps.len(),
{
    if ps.len() == 0 {
        m
    } else {
        apply_payouts(apply_one_payout(m, holding, ps[0]), holding, ps.drop_first())
    }
}

/// Stake sums are non-negative, and the winning stake never exceeds the
/// whole stake sum.
pub proof fn lemma_winning_stake_bounds(bets: Seq<Bet>, winner: u64)
    ensures
        0 <= winning_stake(bets, winner) <= sum_stakes(bets),
    decreases bets.len(),
{
    if bets.len() > 0 {
        lemma_winning_stake_bounds(bets.drop_last(), winner);
    }
}

/// A prefix never holds more stake than the whole.
pub proof fn lemma_sum_stakes_prefix(bets: Seq<Bet>, k: int)
    requires
        0 <= k <= bets.len(),
    ensures
        sum_stakes(bets.take(k)) <= sum_stakes(bets),
    decreases bets.len() - k,
{
    if k == bets.len() {
        assert(bets.take(k) =~= bets);
    } else {
        assert(bets.take(k + 1).drop_last() =~= bets.take(k));
        assert(bets.take(k + 1).last() == bets[k]);
        lemma_sum_stakes_prefix(bets, k + 1);
    }
}

/// A prefix never holds more winning stake than the whole.
pub proof fn lemma_winning_stake_prefix(bets: Seq<Bet>, winner: u64, k: int)
    requires
        0 <= k <= bets.len(),
    ensures
        winning_stake(bets.take(k), winner) <= winning_stake(bets, winner),
    decreases bets.len() - k,
{
    if k == bets.len() {
        assert(bets.take(k) =~= bets);
    } else {
        assert(bets.take(k + 1).drop_last() =~= bets.take(k));
        assert(bets.take(k + 1).last() == bets[k]);
        lemma_winning_stake_prefix(bets, winner, k + 1);
    }
}

/// Payout sums are never negative.
pub proof fn lemma_sum_payouts_nonneg(ps: Seq<Payout>)
    ensures
        sum_payouts(ps) >= 0,
    decreases ps.len(),
{
    if ps.len() > 0 {
        lemma_sum_payouts_nonneg(ps.drop_last());
    }
}

/// The sum covers the first payout.
pub proof fn lemma_sum_payouts_ge_first(ps: Seq<Payout>)
    requires
        ps.len() > 0,
    ensures
        sum_payouts(ps) >= ps[0].amount,
    decreases ps.len(),
{
    if ps.len() == 1 {
        assert(ps.drop_last() =~= Seq::<Payout>::empty());
        assert(sum_payouts(ps.drop_last()) == 0);
        assert(ps.last() == ps[0]);
    } else {
        lemma_sum_payouts_ge_first(ps.drop_last());
        assert(ps.drop_last()[0] == ps[0]);
    }
}

/// Updating one payout moves the sum by the difference.
pub proof fn lemma_sum_payouts_update(ps: Seq<Payout>, i: int, p: Payout)
    requires
        0 <= i < ps.len(),
    ensures
        sum_payouts(ps.update(i, p)) == sum_payouts(ps) - ps[i].amount + p.amount,
    decreases ps.len(),
{
    let s2 = ps.update(i, p);
    if i == ps.len() - 1 {
        assert(s2.drop_last() =~= ps.drop_last());
        assert(s2.last() == p);
    } else {
        assert(s2.drop_last() =~= ps.drop_last().update(i, p));
        assert(s2.last() == ps.last());
        lemma_sum_payouts_update(ps.drop_last(), i, p);
    }
}

/// Sums distribute over concatenation.
pub proof fn lemma_sum_payouts_concat(a: Seq<Payout>, b: Seq<Payout>)
    ensures
        sum_payouts(a + b) == sum_payouts(a) + sum_payouts(b),
    decreases b.len(),
{
    if b.len() == 0 {
        assert(a + b =~= a);
    } else {
        assert((a + b).drop_last() =~= a + b.drop_last());
        assert((a + b).last() == b.last());
        lemma_sum_payouts_concat(a, b.drop_last());
    }
}

/// Refunding returns exactly the staked sum.
pub proof fn lemma_refund_total(bets: Seq<Bet>)
    ensures
        sum_payouts(refund_payouts(bets)) == sum_stakes(bets),
        refund_payouts(bets).len() == bets.len(),
    decreases bets.len(),
{
    if bets.len() > 0 {
        lemma_refund_total(bets.drop_last());
        let r = refund_payouts(bets);
        assert(r.drop_last() =~= refund_payouts(bets.drop_last()));
    }
}

/// Bounds on the proportional share `total * stake / winning`.
pub proof fn lemma_share_bounds(total: int, stake: int, winning: int)
    requires
        0 <= total,
        0 <= stake <= winning,
        1 <= winning,
    ensures
        0 <= share_of(total, stake, winning) <= total,
        share_of(total, stake, winning) * winning <= total * stake,
{
    let x = total * stake;
    lemma_mul_nonnegative(total, stake);
    lemma_fundamental_div_mod(x, winning);
    lemma_mod_bound(x, winning);
    let q = x / winning;
    assert(q * winning <= x) by (nonlinear_arith)
        requires
            x == winning * q + x % winning,
            0 <= x % winning,
    ;
    lemma_div_pos_is_pos(x, winning);
    assert(x <= total * winning) by (nonlinear_arith)
        requires
            x == total * stake,
            stake <= winning,
            0 <= total,
    ;
    assert(q <= total) by (nonlinear_arith)
        requires
            q * winning <= total * winning,
            1 <= winning,
    ;
}

/// Properties of the floor shares: each is within the pool, and the total
/// paid, scaled by the winning stake, never exceeds the pool scaled by
/// the stake actually covered — so the floor shares sum to at most the
/// pool.
pub proof fn lemma_base_props(bets: Seq<Bet>, winner: u64, total: int, winning: int)
    requires
        1 <= winning,
        winning_stake(bets, winner) <= winning,
        0 <= total <= u64::MAX,
    ensures
        0 <= sum_payouts(base_bet_payouts(bets, winner, total, winning)) <= total,
        sum_payouts(base_bet_payouts(bets, winner, total, winning)) * winning <= total
            * winning_stake(bets, winner),
        forall|k: int|
            0 <= k < base_bet_payouts(bets, winner, total, winning).len()
                ==> #[trigger] base_bet_payouts(bets, winner, total, winning)[k].amount <= total,
    decreases bets.len(),
{
    let base = base_bet_payouts(bets, winner, total, winning);
    let ws = winning_stake(bets, winner);
    lemma_winning_stake_bounds(bets, winner);
    if bets.len() == 0 {
        lemma_mul_nonnegative(total, ws);
    } else {
        let rest = bets.drop_last();
        let rest_base = base_bet_payouts(rest, winner, total, winning);
        let rest_ws = winning_stake(rest, winner);
        lemma_winning_stake_bounds(rest, winner);
        lemma_base_props(rest, winner, total, winning);
        if bets.last().prediction == winner {
            let a = bets.last().amount as int;
            assert(ws == rest_ws + a);
            lemma_share_bounds(total, a, winning);
            let q = share_of(total, a, winning);
            assert(base =~= rest_base.push(
                Payout { to: account_of(bets.last().bettor, None), amount: q as u64 },
            ));
            assert(base.drop_last() =~= rest_base);
            assert(base.last().amount == q);
            let sb = sum_payouts(base);
            let sr = sum_payouts(rest_base);
            assert(sb == sr + q);
            assert(sb * winning == sr * winning + q * winning) by (nonlinear_arith)
                requires
                    sb == sr + q,
            ;
            assert(total * ws == total * rest_ws + total * a) by (nonlinear_arith)
                requires
                    ws == rest_ws + a,
            ;
            assert(sb * winning <= total * ws);
            assert(total * ws <= total * winning) by (nonlinear_arith)
                requires
                    ws <= winning,
                    0 <= total,
            ;
            assert(sb <= total) by (nonlinear_arith)
                requires
                    sb * winning <= total * winning,
                    1 <= winning,
            ;
            assert forall|k: int| 0 <= k < base.len() implies #[trigger] base[k].amount
                <= total by {
                if k < rest_base.len() {
                    assert(base[k] == rest_base[k]);
                }
            }
        } else {
            assert(base =~= rest_base);
            assert(ws == rest_ws);
        }
    }
}

/// Under a positive winning stake at least one bet won, so the base
/// payout list is non-empty.
pub proof fn lemma_base_len_pos(bets: Seq<Bet>, winner: u64, total: int, winning: int)
    requires
        winning_stake(bets, winner) > 0,
    ensures
        base_bet_payouts(bets, winner, total, winning).len() > 0,
    decreases bets.len(),
{
    if bets.len() > 0 {
        let rest = bets.drop_last();
        if bets.last().prediction == winner {
        } else {
            lemma_base_len_pos(rest, winner, total, winning);
        }
    }
}

/// Declared-winner settlement conserves the bet pool exactly: the
/// computed payouts always sum to the full staked amount, whether they
/// are proportional shares (with the remainder assigned to the first
/// winning bet) or refunds.
pub proof fn lemma_bet_payouts_total(bets: Seq<Bet>, winner: u64)
    requires
        sum_stakes(bets) <= u64::MAX,
    ensures
        sum_payouts(spec_bet_payouts(bets, winner)) == sum_stakes(bets),
{
    let total = sum_stakes(bets);
    let winning = winning_stake(bets, winner);
    lemma_winning_stake_bounds(bets, winner);
    if winning == 0 {
        lemma_refund_total(bets);
    } else {
        let base = base_bet_payouts(bets, winner, total, winning);
        lemma_base_props(bets, winner, total, winning);
        lemma_base_len_pos(bets, winner, total, winning);
        lemma_sum_payouts_ge_first(base);
        let rem = total - sum_payouts(base);
        lemma_sum_payouts_nonneg(base.drop_last());
        let p = Payout { to: base[0].to, amount: (base[0].amount + rem) as u64 };
        assert(base[0].amount + rem <= total);
        lemma_sum_payouts_update(base, 0, p);
    }
}

/// Position-derived settlement never pays more than the prize pool; the
/// remainder of the 50/30/20 split is retained, never duplicated.
pub proof fn lemma_pool_payouts_bound(ps: Seq<RaceParticipant>, pool: int)
    requires
        0 <= pool <= u64::MAX,
    ensures
        0 <= sum_payouts(spec_pool_payouts(ps, pool)) <= pool,
{
    let q1 = share_of(pool, 50, 100);
    let q2 = share_of(pool, 30, 100);
    let q3 = share_of(pool, 20, 100);
    lemma_share_bounds(pool, 50, 100);
    lemma_share_bounds(pool, 30, 100);
    lemma_share_bounds(pool, 20, 100);
    assert((q1 + q2 + q3) * 100 == q1 * 100 + q2 * 100 + q3 * 100) by (nonlinear_arith);
    assert(pool * 50 + pool * 30 + pool * 20 == pool * 100) by (nonlinear_arith);
    assert((q1 + q2 + q3) * 100 <= pool * 100);
    lemma_mul_inequality_converse(q1 + q2 + q3, pool, 100);
    let s1 = opt_payout(find_by_position(ps, 1), q1);
    let s2 = opt_payout(find_by_position(ps, 2), q2);
    let s3 = opt_payout(find_by_position(ps, 3), q3);
    lemma_sum_payouts_concat(s1 + s2, s3);
    lemma_sum_payouts_concat(s1, s2);
    assert(sum_payouts(s1) <= q1 && sum_payouts(s1) >= 0) by {
        if find_by_position(ps, 1) is Some {
            assert(s1.len() == 1);
            assert(s1.drop_last() =~= Seq::<Payout>::empty());
            assert(sum_payouts(s1.drop_last()) == 0);
            assert(s1.last().amount == q1 as u64);
            assert((q1 as u64) as int == q1);
        }
    }
    assert(sum_payouts(s2) <= q2 && sum_payouts(s2) >= 0) by {
        if find_by_position(ps, 2) is Some {
            assert(s2.len() == 1);
            assert(s2.drop_last() =~= Seq::<Payout>::empty());
            assert(sum_payouts(s2.drop_last()) == 0);
            assert(s2.last().amount == q2 as u64);
            assert((q2 as u64) as int == q2);
        }
    }
    assert(sum_payouts(s3) <= q3 && sum_payouts(s3) >= 0) by {
        if find_by_position(ps, 3) is Some {
            assert(s3.len() == 1);
            assert(s3.drop_last() =~= Seq::<Payout>::empty());
            assert(sum_payouts(s3.drop_last()) == 0);
            assert(s3.last().amount == q3 as u64);
            assert((q3 as u64) as int == q3);
        }
    }
}

/// A settlement never pays out more than the race escrowed.  Declared
/// mode distributes exactly the bet pool; position mode distributes at
/// most the prize pool plus exactly the bet pool — in either case the
/// holding account is never asked for more than the entry fees and
/// stakes this race brought in, so no payout is silently lost or
/// duplicated.
pub proof fn lemma_settlement_within_escrow(race: crate::race::Race, declared: Option<u64>)
    requires
        sum_stakes(race.bets@) <= u64::MAX,
    ensures
        sum_payouts(crate::race::settlement_payouts(race, declared)) <= race.total_prize_pool
            + sum_stakes(race.bets@),
        declared is Some ==> sum_payouts(crate::race::settlement_payouts(race, declared))
            == sum_stakes(race.bets@),
{
    match declared {
        Some(w) => {
            lemma_bet_payouts_total(race.bets@, w);
            lemma_winning_stake_bounds(race.bets@, w);
        },
        None => {
            let w = find_by_position(race.participants@, 1)->0;
            let pool_part = spec_pool_payouts(race.participants@, race.total_prize_pool as int);
            let bet_part = spec_bet_payouts(race.bets@, w);
            lemma_sum_payouts_concat(pool_part, bet_part);
            lemma_pool_payouts_bound(race.participants@, race.total_prize_pool as int);
            lemma_bet_payouts_total(race.bets@, w);
        },
    }
}

/// `total * stake / winning` computed without overflow through a 128-bit
/// intermediate.
fn scaled_share(total: u64, stake: u64, winning: u64) -> (r: u64)
    requires
        1 <= winning,
        stake <= winning,
    ensures
        r as int == share_of(total as int, stake as int, winning as int),
        r <= total,
        r as int * winning as int <= total as int * stake as int,
{
    proof {
        assert((total as int) * (stake as int) <= (u64::MAX as int) * (u64::MAX as int))
            by (nonlinear_arith)
            requires
                total as int <= u64::MAX as int,
                stake as int <= u64::MAX as int,
                0 <= total as int,
                0 <= stake as int,
        ;
        lemma_share_bounds(total as int, stake as int, winning as int);
    }
    let num: u128 = (total as u128) * (stake as u128);
    let q: u128 = num / (winning as u128);
    q as u64
}

/// Computes the declared-winner bet payouts of `spec_bet_payouts`.
pub fn compute_bet_payouts(bets: &Vec<Bet>, winner: u64) -> (r: Vec<Payout>)
    requires
        sum_stakes(bets@) <= u64::MAX,
    ensures
        r@ == spec_bet_payouts(bets@, winner),
{
    let ghost bs = bets@;
    let mut total: u64 = 0;
    let mut winning: u64 = 0;
    let mut i: usize = 0;
    while i < bets.len()
        invariant
            i <= bs.len(),
            bs == bets@,
            sum_stakes(bs) <= u64::MAX,
            total as int == sum_stakes(bs.take(i as int)),
            winning as int == winning_stake(bs.take(i as int), winner),
        decreases bs.len() - i,
    {
        proof {
            assert(bs.take(i + 1).drop_last() =~= bs.take(i as int));
            assert(bs.take(i + 1).last() == bs[i as int]);
            lemma_sum_stakes_prefix(bs, i + 1);
            lemma_winning_stake_bounds(bs.take(i + 1), winner);
        }
        total = total + bets[i].amount;
        if bets[i].prediction == winner {
            winning = winning + bets[i].amount;
        }
        i = i + 1;
    }
    proof {
        assert(bs.take(bs.len() as int) =~= bs);
    }
    if winning == 0 {
        let mut out: Vec<Payout> = Vec::new();
        let mut i: usize = 0;
        while i < bets.len()
            invariant
                i <= bs.len(),
                bs == bets@,
                out@ == refund_payouts(bs.take(i as int)),
            decreases bs.len() - i,
        {
            proof {
                assert(bs.take(i + 1).drop_last() =~= bs.take(i as int));
                assert(bs.take(i + 1).last() == bs[i as int]);
            }
            out.push(
                Payout {
                    to: Account { owner: bets[i].bettor, subaccount: None },
                    amount: bets[i].amount,
                },
            );
            i = i + 1;
        }
        proof {
            assert(bs.take(bs.len() as int) =~= bs);
        }
        return out;
    }
    let mut out: Vec<Payout> = Vec::new();
    let mut paid: u64 = 0;
    let mut i: usize = 0;
    while i < bets.len()
        invariant
            i <= bs.len(),
            bs == bets@,
            sum_stakes(bs) <= u64::MAX,
            total as int == sum_stakes(bs),
            winning as int == winning_stake(bs, winner),
            winning >= 1,
            out@ == base_bet_payouts(bs.take(i as int), winner, total as int, winning as int),
            paid as int == sum_payouts(out@),
            paid <= total,
        decreases bs.len() - i,
    {
        proof {
            assert(bs.take(i + 1).drop_last() =~= bs.take(i as int));
            assert(bs.take(i + 1).last() == bs[i as int]);
            lemma_winning_stake_prefix(bs, winner, i + 1);
            lemma_winning_stake_bounds(bs.take(i as int), winner);
        }
        if bets[i].prediction == winner {
            proof {
                assert(winning_stake(bs.take(i + 1), winner) == winning_stake(
                    bs.take(i as int),
                    winner,
                ) + bs[i as int].amount);
                assert(bs[i as int].amount <= winning);
            }
            let share = scaled_share(total, bets[i].amount, winning);
            proof {
                lemma_base_props(bs.take(i + 1), winner, total as int, winning as int);
                assert(base_bet_payouts(
                    bs.take(i + 1),
                    winner,
                    total as int,
                    winning as int,
                ).drop_last() =~= out@);
                assert(sum_payouts(
                    base_bet_payouts(bs.take(i + 1), winner, total as int, winning as int),
                ) == paid + share);
            }
            out.push(Payout { to: Account { owner: bets[i].bettor, subaccount: None }, amount: share });
            paid = paid + share;
        }
        i = i + 1;
    }
    proof {
        assert(bs.take(bs.len() as int) =~= bs);
        lemma_base_len_pos(bs, winner, total as int, winning as int);
    }
    let rem = total - paid;
    let first_to = out[0].to;
    let first_amount = out[0].amount;
    proof {
        lemma_sum_payouts_ge_first(out@);
    }
    out.set(0, Payout { to: first_to, amount: first_amount + rem });
    proof {
        assert(out@ =~= spec_bet_payouts(bs, winner));
    }
    out
}

/// Computes the position-derived pool payouts of `spec_pool_payouts`.
pub fn compute_pool_payouts(participants: &Vec<RaceParticipant>, pool: u64) -> (r: Vec<Payout>)
    ensures
        r@ == spec_pool_payouts(participants@, pool as int),
{
    let mut out: Vec<Payout> = Vec::new();
    let first = crate::race::find_position(participants, 1);
    let second = crate::race::find_position(participants, 2);
    let third = crate::race::find_position(participants, 3);
    if let Some(player) = first {
        let amount = scaled_share(pool, 50, 100);
        out.push(Payout { to: Account { owner: player, subaccount: None }, amount });
    }
    if let Some(player) = second {
        let amount = scaled_share(pool, 30, 100);
        out.push(Payout { to: Account { owner: player, subaccount: None }, amount });
    }
    if let Some(player) = third {
        let amount = scaled_share(pool, 20, 100);
        out.push(Payout { to: Account { owner: player, subaccount: None }, amount });
    }
    proof {
        lemma_share_bounds(pool as int, 50, 100);
        lemma_share_bounds(pool as int, 30, 100);
        lemma_share_bounds(pool as int, 20, 100);
        assert(out@ =~= spec_pool_payouts(participants@, pool as int));
    }
    out
}

} // verus!
