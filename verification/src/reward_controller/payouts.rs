//! When a claim is refused for want of anything to pay, and what a
//! settlement, a payout, a claim and the closing of a position do to the
//! books of each pool: its funding, its claimed total and what its
//! checkpoints hold accrued.

use vstd::prelude::*;
use crate::reward_controller::claim::{
    claim_pool, claim_pools, paid_out, rewards_claimed, ClaimProgress,
};
use crate::reward_controller::engine::{settled, updated_pool};
use crate::reward_controller::error::ContractError;
use crate::reward_controller::hooks::{close_pool, close_pools, on_unlock, CloseProgress};
use crate::reward_controller::laws::lemma_accumulator_monotonic;
use crate::reward_controller::settlement::{fresh_reward, user_reward_updated};
use crate::reward_controller::state::{
    pool_hit, pool_slot, pools_for_lp, referrer_of, reward_hit, reward_slot, stake_hit,
    stake_slot, staked_weight, RewardPool, StateView, UserReward, UserStake,
};
use crate::table::{
    lemma_first_match, lemma_put_found, lemma_put_keeps_others, lemma_update_keeps_match, put_at,
};

verus! {

/// Whether the position `locker_id` has nothing accrued in any of the pools
/// `pool_ids` from index `from` on: the position is settled with one pool
/// after the other, and each time its checkpoint is found empty.
pub open spec fn nothing_accrued(
    s: StateView,
    now: u64,
    locker_id: u64,
    pool_ids: Seq<u64>,
    from: int,
) -> bool
    decreases pool_ids.len() - from,
{
    if from < 0 || from >= pool_ids.len() {
        true
    } else {
        match user_reward_updated(s, now, locker_id, pool_ids[from]) {
            Err(_) => false,
            Ok(t) => match (
                reward_slot(t.user_rewards, locker_id, pool_ids[from]),
                pool_slot(t.pools, pool_ids[from]),
            ) {
                (Some(j), Some(_)) => t.user_rewards[j].rewards_accrued == 0 && nothing_accrued(
                    t,
                    now,
                    locker_id,
                    pool_ids,
                    from + 1,
                ),
                _ => false,
            },
        }
    }
}

proof fn lemma_claim_pools_pay(
    p: ClaimProgress,
    now: u64,
    sender: String,
    referrer: Option<String>,
    locker_id: u64,
    pool_ids: Seq<u64>,
    from: int,
)
    requires
        0 <= from,
    ensures
        match claim_pools(p, now, sender, referrer, locker_id, pool_ids, from) {
            Ok(q) => {
                &&& q.messages.len() >= p.messages.len()
                &&& q.messages.len() == p.messages.len() <==> nothing_accrued(
                    p.state,
                    now,
                    locker_id,
                    pool_ids,
                    from,
                )
            },
            Err(e) => e != ContractError::NoRewards && !nothing_accrued(
                p.state,
                now,
                locker_id,
                pool_ids,
                from,
            ),
        },
    decreases pool_ids.len() - from,
{
    if from < pool_ids.len() {
        match claim_pool(p, now, sender, referrer, locker_id, pool_ids[from]) {
            Ok(next) => {
                lemma_claim_pools_pay(next, now, sender, referrer, locker_id, pool_ids, from + 1);
            },
            Err(_) => {},
        }
    }
}

/// A claim is refused for want of rewards exactly where the caller owns the
/// position and none of the pools named has anything accrued for it. A claim
/// that finds something accrued and is refused is refused for another reason;
/// one that goes through made a payout, were it all commission.
pub proof fn lemma_claim_refused_for_nothing(
    s: StateView,
    now: u64,
    sender: String,
    locker_id: u64,
    pool_ids: Seq<u64>,
)
    ensures
        rewards_claimed(s, now, sender, locker_id, pool_ids) == Err::<
            (StateView, crate::host::ResponseView),
            ContractError,
        >(ContractError::NoRewards) <==> {
            &&& stake_slot(s.user_stakes, locker_id) is Some
            &&& s.user_stakes[stake_slot(s.user_stakes, locker_id).unwrap()].user@ == sender@
            &&& nothing_accrued(s, now, locker_id, pool_ids, 0)
        },
        match rewards_claimed(s, now, sender, locker_id, pool_ids) {
            Ok((_, response)) => response.messages.len() > 0,
            Err(_) => true,
        },
{
    lemma_claim_pools_pay(
        ClaimProgress { state: s, messages: Seq::empty(), total_claimed: 0 },
        now,
        sender,
        referrer_of(s.referrals, sender@),
        locker_id,
        pool_ids,
        0,
    );
}

/// The record of the pool `pool_id`, where there is one.
pub open spec fn pool_of(s: StateView, pool_id: u64) -> Option<RewardPool> {
    match pool_slot(s.pools, pool_id) {
        Some(i) => Some(s.pools[i]),
        None => None,
    }
}

/// The checkpoint of the position `locker_id` in the pool `pool_id`, where
/// there is one.
pub open spec fn checkpoint_of(s: StateView, locker_id: u64, pool_id: u64) -> Option<UserReward> {
    match reward_slot(s.user_rewards, locker_id, pool_id) {
        Some(j) => Some(s.user_rewards[j]),
        None => None,
    }
}

/// The position of the lock `locker_id`, where there is one.
pub open spec fn stake_of(s: StateView, locker_id: u64) -> Option<UserStake> {
    match stake_slot(s.user_stakes, locker_id) {
        Some(k) => Some(s.user_stakes[k]),
        None => None,
    }
}

/// A pool and a position's checkpoint in it after the position was settled
/// with the pool at the time `now`, while the positions in the pool's
/// collateral weigh `total_weight` together. A position without a checkpoint
/// starts one at the pool's accumulator.
pub open spec fn settled_books(
    pool: RewardPool,
    checkpoint: Option<UserReward>,
    stake: UserStake,
    total_weight: u128,
    now: u64,
) -> Option<(RewardPool, UserReward)> {
    match updated_pool(pool, total_weight, now) {
        Err(_) => None,
        Ok(current) => {
            let reward = match checkpoint {
                Some(reward) => reward,
                None => fresh_reward(stake.locker_id, pool.pool_id, current, now),
            };
            match settled(stake, current, reward) {
                Err(_) => None,
                Ok(reward) => Some((current, reward)),
            }
        },
    }
}

/// A pool and a position's checkpoint in it after the position claimed what
/// it had accrued there at the time `now`: the position is settled with the
/// pool; where that leaves something accrued, the pool's claimed total rises
/// by it and the checkpoint is emptied and stamped with `now`. The funding
/// stays as it was.
pub open spec fn claimed_books(
    pool: RewardPool,
    checkpoint: Option<UserReward>,
    stake: UserStake,
    total_weight: u128,
    now: u64,
) -> Option<(RewardPool, UserReward)> {
    match settled_books(pool, checkpoint, stake, total_weight, now) {
        None => None,
        Some((current, reward)) => if reward.rewards_accrued == 0 {
            Some((current, reward))
        } else {
            Some(
                (
                    RewardPool {
                        total_claimed: (current.total_claimed + reward.rewards_accrued) as u128,
                        ..current
                    },
                    UserReward { rewards_accrued: 0, last_claim_time: now, ..reward },
                ),
            )
        },
    }
}

/// The claim at the time `now` has done to the pool `pool_id` and to the
/// checkpoint of the position `locker_id` in it what `claimed_books` says,
/// going from what `before` held of them to what `after` holds, and the pool
/// was not asked for more than it was funded with.
pub open spec fn claim_booked(
    before: StateView,
    after: StateView,
    now: u64,
    locker_id: u64,
    pool_id: u64,
) -> bool {
    match (pool_of(before, pool_id), stake_of(before, locker_id)) {
        (Some(pool), Some(stake)) => {
            let total_weight = staked_weight(before.total_staked, pool.lp_token@);
            let books = settled_books(
                pool,
                checkpoint_of(before, locker_id, pool_id),
                stake,
                total_weight,
                now,
            );
            &&& books is Some
            &&& pool_of(after, pool_id) is Some
            &&& checkpoint_of(after, locker_id, pool_id) is Some
            &&& claimed_books(
                pool,
                checkpoint_of(before, locker_id, pool_id),
                stake,
                total_weight,
                now,
            ) == Some(
                (
                    pool_of(after, pool_id).unwrap(),
                    checkpoint_of(after, locker_id, pool_id).unwrap(),
                ),
            )
            &&& books.unwrap().1.rewards_accrued > 0 ==> pool.total_claimed
                + books.unwrap().1.rewards_accrued <= pool.total_deposited
        },
        _ => false,
    }
}

/// What a claim leaves alone: the positions, the totals and the settings.
pub open spec fn same_setting(before: StateView, after: StateView) -> bool {
    &&& after.user_stakes == before.user_stakes
    &&& after.total_staked == before.total_staked
    &&& after.config == before.config
}

/// Neither the pool `pool_id` nor the checkpoint of the position `locker_id`
/// in it has changed.
pub open spec fn books_kept(before: StateView, after: StateView, locker_id: u64, pool_id: u64) -> bool {
    &&& pool_of(after, pool_id) == pool_of(before, pool_id)
    &&& checkpoint_of(after, locker_id, pool_id) == checkpoint_of(before, locker_id, pool_id)
}

proof fn lemma_claim_pool_books(
    p: ClaimProgress,
    now: u64,
    sender: String,
    referrer: Option<String>,
    locker_id: u64,
    pool_id: u64,
)
    requires
        stake_slot(p.state.user_stakes, locker_id) is Some,
    ensures
        match claim_pool(p, now, sender, referrer, locker_id, pool_id) {
            Ok(next) => same_setting(p.state, next.state) && claim_booked(
                p.state,
                next.state,
                now,
                locker_id,
                pool_id,
            ),
            Err(_) => true,
        },
{
    let s0 = p.state;
    match claim_pool(p, now, sender, referrer, locker_id, pool_id) {
        Ok(next) => {
            lemma_first_match(s0.pools, pool_hit(pool_id));
            lemma_first_match(s0.user_rewards, reward_hit(locker_id, pool_id));
            lemma_first_match(s0.user_stakes, stake_hit(locker_id));
            let i = pool_slot(s0.pools, pool_id).unwrap();
            let k = stake_slot(s0.user_stakes, locker_id).unwrap();
            let total_weight = staked_weight(s0.total_staked, s0.pools[i].lp_token@);
            let pool = updated_pool(s0.pools[i], total_weight, now).unwrap();
            lemma_accumulator_monotonic(s0.pools[i], total_weight, now);
            lemma_update_keeps_match(s0.pools, i, pool, pool_hit(pool_id));
            let slot = reward_slot(s0.user_rewards, locker_id, pool_id);
            let current = match slot {
                Some(j) => s0.user_rewards[j],
                None => fresh_reward(locker_id, pool_id, pool, now),
            };
            let reward = settled(s0.user_stakes[k], pool, current).unwrap();
            lemma_put_found(s0.user_rewards, reward_hit(locker_id, pool_id), reward);
            let s = user_reward_updated(s0, now, locker_id, pool_id).unwrap();
            let j = reward_slot(s.user_rewards, locker_id, pool_id).unwrap();
            assert(s.user_rewards[j] == reward);
            assert(s.pools[i] == pool);
            assert(settled_books(s0.pools[i], checkpoint_of(s0, locker_id, pool_id), s0.user_stakes[k], total_weight, now)
                == Some((pool, reward)));
            if reward.rewards_accrued != 0 {
                let paid = UserReward { rewards_accrued: 0, last_claim_time: now, ..reward };
                let charged = RewardPool {
                    total_claimed: (pool.total_claimed + reward.rewards_accrued) as u128,
                    ..pool
                };
                lemma_update_keeps_match(s.user_rewards, j, paid, reward_hit(locker_id, pool_id));
                lemma_update_keeps_match(s.pools, i, charged, pool_hit(pool_id));
                assert(next.state.user_rewards == s.user_rewards.update(j, paid));
                assert(next.state.pools == s.pools.update(i, charged));
                assert(next.state.pools[i] == charged);
                assert(next.state.user_rewards[j] == paid);
            }
        },
        Err(_) => {},
    }
}

proof fn lemma_claim_pool_spares(
    p: ClaimProgress,
    now: u64,
    sender: String,
    referrer: Option<String>,
    locker_id: u64,
    pool_id: u64,
    other: u64,
)
    requires
        stake_slot(p.state.user_stakes, locker_id) is Some,
        other != pool_id,
    ensures
        match claim_pool(p, now, sender, referrer, locker_id, pool_id) {
            Ok(next) => books_kept(p.state, next.state, locker_id, other),
            Err(_) => true,
        },
{
    let s0 = p.state;
    match claim_pool(p, now, sender, referrer, locker_id, pool_id) {
        Ok(next) => {
            lemma_first_match(s0.pools, pool_hit(pool_id));
            lemma_first_match(s0.pools, pool_hit(other));
            lemma_first_match(s0.user_rewards, reward_hit(locker_id, pool_id));
            lemma_first_match(s0.user_rewards, reward_hit(locker_id, other));
            let i = pool_slot(s0.pools, pool_id).unwrap();
            let k = stake_slot(s0.user_stakes, locker_id).unwrap();
            let total_weight = staked_weight(s0.total_staked, s0.pools[i].lp_token@);
            let pool = updated_pool(s0.pools[i], total_weight, now).unwrap();
            lemma_accumulator_monotonic(s0.pools[i], total_weight, now);
            lemma_update_keeps_match(s0.pools, i, pool, pool_hit(pool_id));
            lemma_update_keeps_match(s0.pools, i, pool, pool_hit(other));
            let slot = reward_slot(s0.user_rewards, locker_id, pool_id);
            let current = match slot {
                Some(j) => s0.user_rewards[j],
                None => fresh_reward(locker_id, pool_id, pool, now),
            };
            let reward = settled(s0.user_stakes[k], pool, current).unwrap();
            lemma_put_found(s0.user_rewards, reward_hit(locker_id, pool_id), reward);
            lemma_put_keeps_others(
                s0.user_rewards,
                reward_hit(locker_id, pool_id),
                reward,
                reward_hit(locker_id, other),
            );
            let s = user_reward_updated(s0, now, locker_id, pool_id).unwrap();
            let j = reward_slot(s.user_rewards, locker_id, pool_id).unwrap();
            assert(s.user_rewards[j] == reward);
            assert(s.pools[i] == pool);
            assert(books_kept(s0, s, locker_id, other));
            if reward.rewards_accrued != 0 {
                let paid = UserReward { rewards_accrued: 0, last_claim_time: now, ..reward };
                let charged = RewardPool {
                    total_claimed: (pool.total_claimed + reward.rewards_accrued) as u128,
                    ..pool
                };
                lemma_update_keeps_match(s.user_rewards, j, paid, reward_hit(locker_id, other));
                lemma_update_keeps_match(s.pools, i, charged, pool_hit(other));
                lemma_first_match(s.pools, pool_hit(other));
                lemma_first_match(s.user_rewards, reward_hit(locker_id, other));
                assert(next.state.user_rewards == s.user_rewards.update(j, paid));
                assert(next.state.pools == s.pools.update(i, charged));
                assert(books_kept(s, next.state, locker_id, other));
            }
        },
        Err(_) => {},
    }
}

/// A claim from books that a claim at the same time has left changes
/// nothing in them.
proof fn lemma_claimed_books_idempotent(
    pool: RewardPool,
    checkpoint: Option<UserReward>,
    stake: UserStake,
    total_weight: u128,
    now: u64,
)
    requires
        claimed_books(pool, checkpoint, stake, total_weight, now) is Some,
    ensures
        ({
            let (charged, paid) = claimed_books(pool, checkpoint, stake, total_weight, now).unwrap();
            &&& settled_books(charged, Some(paid), stake, total_weight, now) == Some((charged, paid))
            &&& claimed_books(charged, Some(paid), stake, total_weight, now) == Some((charged, paid))
        }),
{
    lemma_accumulator_monotonic(pool, total_weight, now);
}

proof fn lemma_claim_pools_books(
    s: StateView,
    p: ClaimProgress,
    now: u64,
    sender: String,
    referrer: Option<String>,
    locker_id: u64,
    pool_ids: Seq<u64>,
    from: int,
    n: int,
)
    requires
        0 <= from,
        0 <= n < pool_ids.len(),
        stake_slot(s.user_stakes, locker_id) is Some,
        same_setting(s, p.state),
        if n < from {
            claim_booked(s, p.state, now, locker_id, pool_ids[n])
        } else {
            books_kept(s, p.state, locker_id, pool_ids[n]) || claim_booked(
                s,
                p.state,
                now,
                locker_id,
                pool_ids[n],
            )
        },
    ensures
        match claim_pools(p, now, sender, referrer, locker_id, pool_ids, from) {
            Ok(after) => same_setting(s, after.state) && claim_booked(
                s,
                after.state,
                now,
                locker_id,
                pool_ids[n],
            ),
            Err(_) => true,
        },
    decreases pool_ids.len() - from,
{
    if from < pool_ids.len() {
        let pool_id = pool_ids[from];
        let target = pool_ids[n];
        lemma_claim_pool_books(p, now, sender, referrer, locker_id, pool_id);
        match claim_pool(p, now, sender, referrer, locker_id, pool_id) {
            Ok(next) => {
                if pool_id != target {
                    lemma_claim_pool_spares(p, now, sender, referrer, locker_id, pool_id, target);
                } else if !books_kept(s, p.state, locker_id, target) {
                    lemma_first_match(s.pools, pool_hit(target));
                    lemma_first_match(s.user_rewards, reward_hit(locker_id, target));
                    lemma_first_match(p.state.user_rewards, reward_hit(locker_id, target));
                    lemma_claimed_books_idempotent(
                        pool_of(s, target).unwrap(),
                        checkpoint_of(s, locker_id, target),
                        stake_of(s, locker_id).unwrap(),
                        staked_weight(s.total_staked, pool_of(s, target).unwrap().lp_token@),
                        now,
                    );
                }
                lemma_claim_pools_books(
                    s,
                    next,
                    now,
                    sender,
                    referrer,
                    locker_id,
                    pool_ids,
                    from + 1,
                    n,
                );
            },
            Err(_) => {},
        }
    }
}

/// What a claim does to each pool it names, however many it names and
/// however often: the position is settled with the pool as of the time of
/// the claim; what has then accrued is added to the pool's claimed total,
/// which stays within the funding; the checkpoint is emptied and, where
/// something had accrued, stamped with the time of the claim; and the
/// funding is what it was.
pub proof fn lemma_claim_books_each_pool(
    s: StateView,
    now: u64,
    sender: String,
    locker_id: u64,
    pool_ids: Seq<u64>,
    n: int,
)
    requires
        0 <= n < pool_ids.len(),
        rewards_claimed(s, now, sender, locker_id, pool_ids) is Ok,
    ensures
        ({
            let after = rewards_claimed(s, now, sender, locker_id, pool_ids).unwrap().0;
            let pool_id = pool_ids[n];
            let pool = pool_of(s, pool_id).unwrap();
            let stake = stake_of(s, locker_id).unwrap();
            let books = settled_books(
                pool,
                checkpoint_of(s, locker_id, pool_id),
                stake,
                staked_weight(s.total_staked, pool.lp_token@),
                now,
            );
            let accrued = books.unwrap().1.rewards_accrued;
            let charged = pool_of(after, pool_id).unwrap();
            let paid = checkpoint_of(after, locker_id, pool_id).unwrap();
            &&& claim_booked(s, after, now, locker_id, pool_id)
            &&& charged.total_claimed == pool.total_claimed + accrued
            &&& charged.total_deposited == pool.total_deposited
            &&& accrued > 0 ==> charged.total_claimed <= charged.total_deposited
            &&& paid.rewards_accrued == 0
            &&& accrued > 0 ==> paid.last_claim_time == now
            &&& paid.reward_per_token_paid == charged.reward_per_token_stored
        }),
{
    let start = ClaimProgress { state: s, messages: Seq::empty(), total_claimed: 0 };
    lemma_claim_pools_books(
        s,
        start,
        now,
        sender,
        referrer_of(s.referrals, sender@),
        locker_id,
        pool_ids,
        0,
        n,
    );
    let pool = pool_of(s, pool_ids[n]).unwrap();
    lemma_accumulator_monotonic(pool, staked_weight(s.total_staked, pool.lp_token@), now);
}

/// The closing of a position at the time `now` has done its part to the
/// pool `pool_id` and to the checkpoint of the position `locker_id` in it,
/// going from what `before` held of them to what `after` holds: the position
/// is settled with the pool, and what had accrued is either paid out as in a
/// claim, within the funding, or passed over, the books then being those of
/// the settlement. Where the owner has no referrer, `referred` being false,
/// what the pool can pay is paid.
pub open spec fn close_booked(
    before: StateView,
    after: StateView,
    now: u64,
    locker_id: u64,
    pool_id: u64,
    referred: bool,
) -> bool {
    match (pool_of(before, pool_id), stake_of(before, locker_id)) {
        (Some(pool), Some(stake)) => {
            let total_weight = staked_weight(before.total_staked, pool.lp_token@);
            let checkpoint = checkpoint_of(before, locker_id, pool_id);
            let books = settled_books(pool, checkpoint, stake, total_weight, now);
            let held = (
                pool_of(after, pool_id).unwrap(),
                checkpoint_of(after, locker_id, pool_id).unwrap(),
            );
            &&& books is Some
            &&& pool_of(after, pool_id) is Some
            &&& checkpoint_of(after, locker_id, pool_id) is Some
            &&& {
                ||| books == Some(held)
                ||| {
                    &&& claimed_books(pool, checkpoint, stake, total_weight, now) == Some(held)
                    &&& pool.total_claimed + books.unwrap().1.rewards_accrued
                        <= pool.total_deposited
                }
            }
            &&& !referred && books.unwrap().1.rewards_accrued <= pool.available() ==> claimed_books(
                pool,
                checkpoint,
                stake,
                total_weight,
                now,
            ) == Some(held)
        },
        _ => false,
    }
}

/// Settling from books that a settlement at the same time has left changes
/// nothing in them.
proof fn lemma_settled_books_idempotent(
    pool: RewardPool,
    checkpoint: Option<UserReward>,
    stake: UserStake,
    total_weight: u128,
    now: u64,
)
    requires
        settled_books(pool, checkpoint, stake, total_weight, now) is Some,
    ensures
        ({
            let (current, reward) = settled_books(pool, checkpoint, stake, total_weight, now).unwrap();
            settled_books(current, Some(reward), stake, total_weight, now) == Some((current, reward))
        }),
{
    lemma_accumulator_monotonic(pool, total_weight, now);
}

proof fn lemma_close_pool_books(
    p: CloseProgress,
    now: u64,
    stake: UserStake,
    referrer: Option<String>,
    pool_id: u64,
)
    requires
        stake_slot(p.state.user_stakes, stake.locker_id) is Some,
    ensures
        match close_pool(p, now, stake, referrer, pool_id) {
            Ok(next) => same_setting(p.state, next.state) && close_booked(
                p.state,
                next.state,
                now,
                stake.locker_id,
                pool_id,
                referrer is Some,
            ),
            Err(_) => true,
        },
{
    let s0 = p.state;
    let locker_id = stake.locker_id;
    match close_pool(p, now, stake, referrer, pool_id) {
        Ok(next) => {
            lemma_first_match(s0.pools, pool_hit(pool_id));
            lemma_first_match(s0.user_rewards, reward_hit(locker_id, pool_id));
            lemma_first_match(s0.user_stakes, stake_hit(locker_id));
            let i = pool_slot(s0.pools, pool_id).unwrap();
            let k = stake_slot(s0.user_stakes, locker_id).unwrap();
            let total_weight = staked_weight(s0.total_staked, s0.pools[i].lp_token@);
            let pool = updated_pool(s0.pools[i], total_weight, now).unwrap();
            lemma_accumulator_monotonic(s0.pools[i], total_weight, now);
            lemma_update_keeps_match(s0.pools, i, pool, pool_hit(pool_id));
            let slot = reward_slot(s0.user_rewards, locker_id, pool_id);
            let current = match slot {
                Some(j) => s0.user_rewards[j],
                None => fresh_reward(locker_id, pool_id, pool, now),
            };
            let reward = settled(s0.user_stakes[k], pool, current).unwrap();
            lemma_put_found(s0.user_rewards, reward_hit(locker_id, pool_id), reward);
            let s = user_reward_updated(s0, now, locker_id, pool_id).unwrap();
            let j = reward_slot(s.user_rewards, locker_id, pool_id).unwrap();
            assert(s.user_rewards[j] == reward);
            assert(s.pools[i] == pool);
            assert(settled_books(
                s0.pools[i],
                checkpoint_of(s0, locker_id, pool_id),
                s0.user_stakes[k],
                total_weight,
                now,
            ) == Some((pool, reward)));
            if next.state != s {
                let paid = UserReward { rewards_accrued: 0, last_claim_time: now, ..reward };
                let charged = RewardPool {
                    total_claimed: (pool.total_claimed + reward.rewards_accrued) as u128,
                    ..pool
                };
                lemma_update_keeps_match(s.user_rewards, j, paid, reward_hit(locker_id, pool_id));
                lemma_update_keeps_match(s.pools, i, charged, pool_hit(pool_id));
                assert(next.state.user_rewards == s.user_rewards.update(j, paid));
                assert(next.state.pools == s.pools.update(i, charged));
                assert(next.state.pools[i] == charged);
                assert(next.state.user_rewards[j] == paid);
            }
        },
        Err(_) => {},
    }
}

proof fn lemma_close_pool_spares(
    p: CloseProgress,
    now: u64,
    stake: UserStake,
    referrer: Option<String>,
    pool_id: u64,
    other: u64,
)
    requires
        stake_slot(p.state.user_stakes, stake.locker_id) is Some,
        other != pool_id,
    ensures
        match close_pool(p, now, stake, referrer, pool_id) {
            Ok(next) => books_kept(p.state, next.state, stake.locker_id, other),
            Err(_) => true,
        },
{
    let s0 = p.state;
    let locker_id = stake.locker_id;
    match close_pool(p, now, stake, referrer, pool_id) {
        Ok(next) => {
            lemma_first_match(s0.pools, pool_hit(pool_id));
            lemma_first_match(s0.pools, pool_hit(other));
            lemma_first_match(s0.user_rewards, reward_hit(locker_id, pool_id));
            lemma_first_match(s0.user_rewards, reward_hit(locker_id, other));
            let i = pool_slot(s0.pools, pool_id).unwrap();
            let k = stake_slot(s0.user_stakes, locker_id).unwrap();
            let total_weight = staked_weight(s0.total_staked, s0.pools[i].lp_token@);
            let pool = updated_pool(s0.pools[i], total_weight, now).unwrap();
            lemma_accumulator_monotonic(s0.pools[i], total_weight, now);
            lemma_update_keeps_match(s0.pools, i, pool, pool_hit(pool_id));
            lemma_update_keeps_match(s0.pools, i, pool, pool_hit(other));
            let slot = reward_slot(s0.user_rewards, locker_id, pool_id);
            let current = match slot {
                Some(j) => s0.user_rewards[j],
                None => fresh_reward(locker_id, pool_id, pool, now),
            };
            let reward = settled(s0.user_stakes[k], pool, current).unwrap();
            lemma_put_found(s0.user_rewards, reward_hit(locker_id, pool_id), reward);
            lemma_put_keeps_others(
                s0.user_rewards,
                reward_hit(locker_id, pool_id),
                reward,
                reward_hit(locker_id, other),
            );
            let s = user_reward_updated(s0, now, locker_id, pool_id).unwrap();
            let j = reward_slot(s.user_rewards, locker_id, pool_id).unwrap();
            assert(s.user_rewards[j] == reward);
            assert(s.pools[i] == pool);
            assert(books_kept(s0, s, locker_id, other));
            if next.state != s {
                let paid = UserReward { rewards_accrued: 0, last_claim_time: now, ..reward };
                let charged = RewardPool {
                    total_claimed: (pool.total_claimed + reward.rewards_accrued) as u128,
                    ..pool
                };
                lemma_update_keeps_match(s.user_rewards, j, paid, reward_hit(locker_id, other));
                lemma_update_keeps_match(s.pools, i, charged, pool_hit(other));
                assert(next.state.user_rewards == s.user_rewards.update(j, paid));
                assert(next.state.pools == s.pools.update(i, charged));
                assert(books_kept(s, next.state, locker_id, other));
            }
        },
        Err(_) => {},
    }
}

proof fn lemma_close_pools_books(
    s: StateView,
    p: CloseProgress,
    now: u64,
    stake: UserStake,
    referrer: Option<String>,
    pool_ids: Seq<u64>,
    from: int,
    n: int,
)
    requires
        0 <= from,
        0 <= n < pool_ids.len(),
        stake_slot(s.user_stakes, stake.locker_id) is Some,
        same_setting(s, p.state),
        if n < from {
            close_booked(s, p.state, now, stake.locker_id, pool_ids[n], referrer is Some)
        } else {
            books_kept(s, p.state, stake.locker_id, pool_ids[n]) || close_booked(
                s,
                p.state,
                now,
                stake.locker_id,
                pool_ids[n],
                referrer is Some,
            )
        },
    ensures
        match close_pools(p, now, stake, referrer, pool_ids, from) {
            Ok(after) => same_setting(s, after.state) && close_booked(
                s,
                after.state,
                now,
                stake.locker_id,
                pool_ids[n],
                referrer is Some,
            ),
            Err(_) => true,
        },
    decreases pool_ids.len() - from,
{
    if from < pool_ids.len() {
        let pool_id = pool_ids[from];
        let target = pool_ids[n];
        let locker_id = stake.locker_id;
        lemma_close_pool_books(p, now, stake, referrer, pool_id);
        match close_pool(p, now, stake, referrer, pool_id) {
            Ok(next) => {
                if pool_id != target {
                    lemma_close_pool_spares(p, now, stake, referrer, pool_id, target);
                } else if !books_kept(s, p.state, locker_id, target) {
                    let pool = pool_of(s, target).unwrap();
                    let held = stake_of(s, locker_id).unwrap();
                    let total_weight = staked_weight(s.total_staked, pool.lp_token@);
                    let checkpoint = checkpoint_of(s, locker_id, target);
                    lemma_settled_books_idempotent(pool, checkpoint, held, total_weight, now);
                    if claimed_books(pool, checkpoint, held, total_weight, now) is Some {
                        lemma_claimed_books_idempotent(pool, checkpoint, held, total_weight, now);
                    }
                }
                lemma_close_pools_books(s, next, now, stake, referrer, pool_ids, from + 1, n);
            },
            Err(_) => {},
        }
    }
}

/// What the closing of a position does to each pool of its collateral: the
/// funding is what it was, and the claimed total has either risen by what the
/// position had accrued in the pool, settled as of the closing, and then it
/// is within the funding, or it is what it was, the pool having been passed
/// over or the position having had nothing accrued in it. Where the owner has
/// no referrer, a pool that can pay what had accrued has paid it.
pub proof fn lemma_unlock_books_each_pool(s: StateView, now: u64, locker_id: u64, n: int)
    requires
        on_unlock(s, now, locker_id) is Ok,
        stake_of(s, locker_id) is Some,
        0 <= n < pools_for_lp(s.pools, stake_of(s, locker_id).unwrap().lp_token@).len(),
    ensures
        ({
            let after = on_unlock(s, now, locker_id).unwrap().0;
            let stake = stake_of(s, locker_id).unwrap();
            let pool_id = pools_for_lp(s.pools, stake.lp_token@)[n];
            let pool = pool_of(s, pool_id).unwrap();
            let books = settled_books(
                pool,
                checkpoint_of(s, locker_id, pool_id),
                stake,
                staked_weight(s.total_staked, pool.lp_token@),
                now,
            );
            let accrued = books.unwrap().1.rewards_accrued;
            let closed = pool_of(after, pool_id).unwrap();
            &&& pool_of(s, pool_id) is Some
            &&& books is Some
            &&& pool_of(after, pool_id) is Some
            &&& closed.total_deposited == pool.total_deposited
            &&& closed.reward_per_token_stored == books.unwrap().0.reward_per_token_stored
            &&& {
                ||| closed.total_claimed == pool.total_claimed
                ||| closed.total_claimed == pool.total_claimed + accrued && closed.total_claimed
                    <= closed.total_deposited
            }
            &&& referrer_of(s.referrals, stake.user@) is None && accrued <= pool.available()
                ==> closed.total_claimed == pool.total_claimed + accrued
        }),
{
    let stake = stake_of(s, locker_id).unwrap();
    lemma_first_match(s.user_stakes, stake_hit(locker_id));
    let pool_ids = pools_for_lp(s.pools, stake.lp_token@);
    let start = CloseProgress { state: s, messages: Seq::empty() };
    lemma_close_pools_books(
        s,
        start,
        now,
        stake,
        referrer_of(s.referrals, stake.user@),
        pool_ids,
        0,
        n,
    );
    let pool = pool_of(s, pool_ids[n]).unwrap();
    lemma_accumulator_monotonic(pool, staked_weight(s.total_staked, pool.lp_token@), now);
}

/// What the checkpoints of the pool `pool_id` hold accrued, all together.
pub open spec fn accrued_in(rewards: Seq<UserReward>, pool_id: u64) -> int
    decreases rewards.len(),
{
    if rewards.len() == 0 {
        0
    } else if rewards.last().pool_id == pool_id {
        accrued_in(rewards.drop_last(), pool_id) + rewards.last().rewards_accrued
    } else {
        accrued_in(rewards.drop_last(), pool_id)
    }
}

/// What a checkpoint adds to what is accrued in the pool `pool_id`.
pub open spec fn accrued_part(reward: UserReward, pool_id: u64) -> int {
    if reward.pool_id == pool_id {
        reward.rewards_accrued as int
    } else {
        0
    }
}

proof fn lemma_accrued_update(rewards: Seq<UserReward>, j: int, reward: UserReward, pool_id: u64)
    requires
        0 <= j < rewards.len(),
    ensures
        accrued_in(rewards.update(j, reward), pool_id) == accrued_in(rewards, pool_id)
            - accrued_part(rewards[j], pool_id) + accrued_part(reward, pool_id),
    decreases rewards.len(),
{
    let after = rewards.update(j, reward);
    if j == rewards.len() - 1 {
        assert(after.drop_last() =~= rewards.drop_last());
    } else {
        assert(after.drop_last() =~= rewards.drop_last().update(j, reward));
        lemma_accrued_update(rewards.drop_last(), j, reward, pool_id);
    }
}

/// What a settlement does to the books of a pool: the funding and the
/// claimed total of every pool stay, and what is accrued in a pool, all
/// checkpoints together, grows by what the settled position has newly earned
/// in it and by nothing else. So what is accrued stays within what the pool
/// can still pay exactly where the newly earned amount still fits in.
pub proof fn lemma_settlement_books(
    s: StateView,
    now: u64,
    locker_id: u64,
    pool_id: u64,
    other: u64,
)
    requires
        user_reward_updated(s, now, locker_id, pool_id) is Ok,
        stake_of(s, locker_id) is Some,
    ensures
        ({
            let after = user_reward_updated(s, now, locker_id, pool_id).unwrap();
            let pool = pool_of(s, pool_id).unwrap();
            let books = settled_books(
                pool,
                checkpoint_of(s, locker_id, pool_id),
                stake_of(s, locker_id).unwrap(),
                staked_weight(s.total_staked, pool.lp_token@),
                now,
            );
            let had = match checkpoint_of(s, locker_id, pool_id) {
                Some(reward) => reward.rewards_accrued,
                None => 0,
            };
            let earned = books.unwrap().1.rewards_accrued - had;
            &&& pool_of(s, pool_id) is Some
            &&& books is Some
            &&& earned >= 0
            &&& after.pools.len() == s.pools.len()
            &&& forall|i: int|
                0 <= i < s.pools.len() ==> (#[trigger] after.pools[i]).total_deposited
                    == s.pools[i].total_deposited && after.pools[i].total_claimed
                    == s.pools[i].total_claimed && after.pools[i].pool_id == s.pools[i].pool_id
            &&& accrued_in(after.user_rewards, other) == accrued_in(s.user_rewards, other) + if other
                == pool_id {
                earned
            } else {
                0
            }
            &&& accrued_in(s.user_rewards, pool_id) + earned <= pool.total_deposited
                - pool.total_claimed <==> accrued_in(after.user_rewards, pool_id)
                <= pool_of(after, pool_id).unwrap().total_deposited - pool_of(
                after,
                pool_id,
            ).unwrap().total_claimed
        }),
{
    lemma_first_match(s.pools, pool_hit(pool_id));
    lemma_first_match(s.user_rewards, reward_hit(locker_id, pool_id));
    lemma_first_match(s.user_stakes, stake_hit(locker_id));
    let i = pool_slot(s.pools, pool_id).unwrap();
    let k = stake_slot(s.user_stakes, locker_id).unwrap();
    let total_weight = staked_weight(s.total_staked, s.pools[i].lp_token@);
    let pool = updated_pool(s.pools[i], total_weight, now).unwrap();
    lemma_accumulator_monotonic(s.pools[i], total_weight, now);
    lemma_update_keeps_match(s.pools, i, pool, pool_hit(pool_id));
    let slot = reward_slot(s.user_rewards, locker_id, pool_id);
    let current = match slot {
        Some(j) => s.user_rewards[j],
        None => fresh_reward(locker_id, pool_id, pool, now),
    };
    let reward = settled(s.user_stakes[k], pool, current).unwrap();
    let after = user_reward_updated(s, now, locker_id, pool_id).unwrap();
    assert(after.pools == s.pools.update(i, pool));
    assert(after.user_rewards == put_at(s.user_rewards, slot, reward));
    match slot {
        Some(j) => {
            lemma_accrued_update(s.user_rewards, j, reward, other);
            lemma_accrued_update(s.user_rewards, j, reward, pool_id);
        },
        None => {
            assert(s.user_rewards.push(reward).drop_last() =~= s.user_rewards);
        },
    }
}

/// A payout takes what it pays from what was accrued: what is accrued in
/// the pool, all checkpoints together, falls by the amount by which the
/// pool's claimed total rises, and what is accrued in other pools stays. So a
/// pool whose checkpoints together held no more than it could still pay is
/// such a pool after the payout.
pub proof fn lemma_payout_keeps_cover(
    s: StateView,
    now: u64,
    recipient: String,
    referrer: Option<String>,
    i: int,
    j: int,
    other: u64,
)
    requires
        0 <= i < s.pools.len(),
        0 <= j < s.user_rewards.len(),
        s.user_rewards[j].pool_id == s.pools[i].pool_id,
        paid_out(s, now, recipient, referrer, i, j) is Ok,
    ensures
        ({
            let after = paid_out(s, now, recipient, referrer, i, j).unwrap().0;
            let amount = s.user_rewards[j].rewards_accrued;
            let pool_id = s.pools[i].pool_id;
            &&& after.pools[i].total_claimed == s.pools[i].total_claimed + amount
            &&& after.pools[i].total_deposited == s.pools[i].total_deposited
            &&& accrued_in(after.user_rewards, other) == accrued_in(s.user_rewards, other) - if other
                == pool_id {
                amount as int
            } else {
                0
            }
            &&& accrued_in(s.user_rewards, pool_id) <= s.pools[i].total_deposited
                - s.pools[i].total_claimed <==> accrued_in(after.user_rewards, pool_id)
                <= after.pools[i].total_deposited - after.pools[i].total_claimed
        }),
{
    let paid = UserReward { rewards_accrued: 0, last_claim_time: now, ..s.user_rewards[j] };
    lemma_accrued_update(s.user_rewards, j, paid, other);
    lemma_accrued_update(s.user_rewards, j, paid, s.pools[i].pool_id);
}

} // verus!
