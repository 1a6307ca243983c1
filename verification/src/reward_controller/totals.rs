//! The totals recorded for a collateral are the sums over its open
//! positions: the amount locked is the sum of their amounts, and the total
//! weight the sum of their weights, whatever is called.

use vstd::prelude::*;
use crate::host::{Env, MessageInfo, ResponseView};
use crate::reward_controller::claim::{
    batch_claimed, claim_pool, claim_pools, paid_out, rewards_claimed, ClaimProgress,
};
use crate::reward_controller::contract::{executed, initial_state};
use crate::reward_controller::engine::{bonus_multiplier, effective_amount, lock_duration, weighed};
use crate::reward_controller::hooks::{
    checkpoint_opened, checkpoints_opened, close_pool, close_pools, extended, lock_begun,
    on_extend, on_lock, on_unlock, settled_all, CloseProgress,
};
use crate::reward_controller::keys::{keys_once, same_locker};
use crate::reward_controller::msg::{ExecuteMsg, InstantiateMsg, LockerHookMsg};
use crate::reward_controller::settlement::user_reward_updated;
use crate::reward_controller::state::{
    pool_slot, pools_for_lp, referrer_of, reward_slot, stake_hit, stake_slot, staked_amount,
    staked_hit, staked_slot, staked_weight, total_set, StakedTotal, StateView, UserStake,
};
use crate::table::{
    keyed_once, lemma_first_match, lemma_put_found, lemma_put_keeps_others, no_match, put_at,
    without,
};

verus! {

/// The sum of the amounts of the positions in the collateral `lp_token`.
pub open spec fn locked_in(stakes: Seq<UserStake>, lp_token: Seq<char>) -> int
    decreases stakes.len(),
{
    if stakes.len() == 0 {
        0
    } else if stakes.last().lp_token@ == lp_token {
        locked_in(stakes.drop_last(), lp_token) + stakes.last().lp_amount
    } else {
        locked_in(stakes.drop_last(), lp_token)
    }
}

/// The sum of the weights of the positions in the collateral `lp_token`,
/// each its amount times its lock bonus, rounded down.
pub open spec fn weighed_in(stakes: Seq<UserStake>, lp_token: Seq<char>) -> int
    decreases stakes.len(),
{
    if stakes.len() == 0 {
        0
    } else if stakes.last().lp_token@ == lp_token {
        weighed_in(stakes.drop_last(), lp_token) + effective_amount(stakes.last())
    } else {
        weighed_in(stakes.drop_last(), lp_token)
    }
}

/// What is recorded for the collateral `lp_token` is what its positions add
/// up to, in amount and in weight.
pub open spec fn balanced_for(s: StateView, lp_token: Seq<char>) -> bool {
    &&& staked_amount(s.total_staked, lp_token) == locked_in(s.user_stakes, lp_token)
    &&& staked_weight(s.total_staked, lp_token) == weighed_in(s.user_stakes, lp_token)
}

/// The totals recorded for every collateral are the sums over its
/// positions.
pub open spec fn totals_match(s: StateView) -> bool {
    forall|lp_token: Seq<char>| #[trigger] balanced_for(s, lp_token)
}

/// Neither the positions nor the totals have changed.
pub open spec fn ledger_kept(before: StateView, after: StateView) -> bool {
    after.user_stakes == before.user_stakes && after.total_staked == before.total_staked
}

/// The weight of a position is never negative.
pub proof fn lemma_weight_nonnegative(stake: UserStake)
    ensures
        0 <= effective_amount(stake),
{
    assert(0 <= effective_amount(stake)) by (nonlinear_arith)
        requires
            effective_amount(stake) == (stake.lp_amount as int) * (
            stake.bonus_multiplier.atomics as int) / 1_000_000_000_000_000_000,
    ;
}

/// What the totals say of a collateral after one of them was set: the
/// collateral that was set has the new amount and weight, every other what
/// it had.
pub proof fn lemma_total_set_reads(
    totals: Seq<StakedTotal>,
    lp_token: String,
    amount: u128,
    weight: u128,
    other: Seq<char>,
)
    ensures
        staked_amount(total_set(totals, lp_token, amount, weight), other) == if other
            == lp_token@ {
            amount
        } else {
            staked_amount(totals, other)
        },
        staked_weight(total_set(totals, lp_token, amount, weight), other) == if other
            == lp_token@ {
            weight
        } else {
            staked_weight(totals, other)
        },
{
    lemma_first_match(totals, staked_hit(lp_token@));
    let record = match staked_slot(totals, lp_token@) {
        Some(i) => StakedTotal { amount, weight, ..totals[i] },
        None => StakedTotal { lp_token, amount, weight },
    };
    assert(total_set(totals, lp_token, amount, weight) == put_at(
        totals,
        staked_slot(totals, lp_token@),
        record,
    ));
    if other == lp_token@ {
        lemma_put_found(totals, staked_hit(lp_token@), record);
    } else {
        lemma_put_keeps_others(totals, staked_hit(lp_token@), record, staked_hit(other));
    }
}

proof fn lemma_sums_update(stakes: Seq<UserStake>, k: int, stake: UserStake, lp_token: Seq<char>)
    requires
        0 <= k < stakes.len(),
    ensures
        locked_in(stakes.update(k, stake), lp_token) == locked_in(stakes, lp_token) - (if stakes[k].lp_token@
            == lp_token {
            stakes[k].lp_amount as int
        } else {
            0
        }) + (if stake.lp_token@ == lp_token {
            stake.lp_amount as int
        } else {
            0
        }),
        weighed_in(stakes.update(k, stake), lp_token) == weighed_in(stakes, lp_token) - (if stakes[k].lp_token@
            == lp_token {
            effective_amount(stakes[k])
        } else {
            0
        }) + (if stake.lp_token@ == lp_token {
            effective_amount(stake)
        } else {
            0
        }),
    decreases stakes.len(),
{
    let after = stakes.update(k, stake);
    if k == stakes.len() - 1 {
        assert(after.drop_last() =~= stakes.drop_last());
    } else {
        assert(after.drop_last() =~= stakes.drop_last().update(k, stake));
        lemma_sums_update(stakes.drop_last(), k, stake, lp_token);
    }
}

proof fn lemma_without_nothing<T>(s: Seq<T>, hit: spec_fn(T) -> bool)
    requires
        no_match(s, hit),
    ensures
        without(s, hit) == s,
    decreases s.len(),
{
    if s.len() > 0 {
        assert(s.last() == s[s.len() - 1]);
        assert forall|j: int| 0 <= j < s.drop_last().len() implies !hit(
            #[trigger] s.drop_last()[j],
        ) by {
            assert(s.drop_last()[j] == s[j]);
        }
        lemma_without_nothing(s.drop_last(), hit);
        assert(s.drop_last().push(s.last()) =~= s);
    }
}

proof fn lemma_sums_without(stakes: Seq<UserStake>, k: int, lp_token: Seq<char>)
    requires
        keyed_once(stakes, same_locker()),
        0 <= k < stakes.len(),
    ensures
        locked_in(without(stakes, stake_hit(stakes[k].locker_id)), lp_token) == locked_in(
            stakes,
            lp_token,
        ) - if stakes[k].lp_token@ == lp_token {
            stakes[k].lp_amount as int
        } else {
            0
        },
        weighed_in(without(stakes, stake_hit(stakes[k].locker_id)), lp_token) == weighed_in(
            stakes,
            lp_token,
        ) - if stakes[k].lp_token@ == lp_token {
            effective_amount(stakes[k])
        } else {
            0
        },
    decreases stakes.len(),
{
    let id = stakes[k].locker_id;
    let front = stakes.drop_last();
    let last = stakes.last();
    assert(last == stakes[stakes.len() - 1]);
    if k == stakes.len() - 1 {
        assert forall|j: int| 0 <= j < front.len() implies !stake_hit(id)(#[trigger] front[j]) by {
            assert(front[j] == stakes[j]);
            assert(!same_locker()(stakes[j], stakes[k]));
        }
        lemma_without_nothing(front, stake_hit(id));
    } else {
        assert(!same_locker()(stakes[k], last));
        assert(front[k] == stakes[k]);
        assert forall|i: int, j: int| 0 <= i < j < front.len() implies !same_locker()(
            #[trigger] front[i],
            #[trigger] front[j],
        ) by {
            assert(front[i] == stakes[i] && front[j] == stakes[j]);
        }
        lemma_sums_without(front, k, lp_token);
        assert(without(front, stake_hit(id)).push(last).drop_last() =~= without(
            front,
            stake_hit(id),
        ));
    }
}

proof fn lemma_user_reward_updated(s: StateView, now: u64, locker_id: u64, pool_id: u64)
    ensures
        match user_reward_updated(s, now, locker_id, pool_id) {
            Ok(after) => ledger_kept(s, after),
            Err(_) => true,
        },
{
}

proof fn lemma_paid_out(s: StateView, now: u64, recipient: String, referrer: Option<String>, i: int, j: int)
    ensures
        match paid_out(s, now, recipient, referrer, i, j) {
            Ok((after, _, _)) => ledger_kept(s, after),
            Err(_) => true,
        },
{
}

proof fn lemma_claim_pools(
    p: ClaimProgress,
    now: u64,
    sender: String,
    referrer: Option<String>,
    locker_id: u64,
    pool_ids: Seq<u64>,
    from: int,
)
    requires
        0 <= from,
    ensures
        match claim_pools(p, now, sender, referrer, locker_id, pool_ids, from) {
            Ok(after) => ledger_kept(p.state, after.state),
            Err(_) => true,
        },
    decreases pool_ids.len() - from,
{
    if from < pool_ids.len() {
        lemma_user_reward_updated(p.state, now, locker_id, pool_ids[from]);
        match user_reward_updated(p.state, now, locker_id, pool_ids[from]) {
            Ok(s) => {
                match (
                    reward_slot(s.user_rewards, locker_id, pool_ids[from]),
                    pool_slot(s.pools, pool_ids[from]),
                ) {
                    (Some(j), Some(i)) => {
                        lemma_paid_out(s, now, sender, referrer, i, j);
                    },
                    _ => {},
                }
            },
            Err(_) => {},
        }
        match claim_pool(p, now, sender, referrer, locker_id, pool_ids[from]) {
            Ok(next) => {
                lemma_claim_pools(next, now, sender, referrer, locker_id, pool_ids, from + 1);
            },
            Err(_) => {},
        }
    }
}

proof fn lemma_batch_claimed(
    s: StateView,
    now: u64,
    sender: String,
    locker_ids: Seq<u64>,
    pool_ids: Seq<u64>,
    from: int,
    response: ResponseView,
)
    requires
        0 <= from,
    ensures
        match batch_claimed(s, now, sender, locker_ids, pool_ids, from, response) {
            Ok((after, _)) => ledger_kept(s, after),
            Err(_) => true,
        },
    decreases locker_ids.len() - from,
{
    if from < locker_ids.len() {
        lemma_claim_pools(
            ClaimProgress { state: s, messages: Seq::empty(), total_claimed: 0 },
            now,
            sender,
            referrer_of(s.referrals, sender@),
            locker_ids[from],
            pool_ids,
            0,
        );
        match rewards_claimed(s, now, sender, locker_ids[from], pool_ids) {
            Ok((next, part)) => {
                lemma_batch_claimed(
                    next,
                    now,
                    sender,
                    locker_ids,
                    pool_ids,
                    from + 1,
                    ResponseView {
                        messages: response.messages + part.messages,
                        attributes: response.attributes + part.attributes,
                    },
                );
            },
            Err(_) => {},
        }
    }
}

proof fn lemma_checkpoints_opened(s: StateView, now: u64, locker_id: u64, pool_ids: Seq<u64>, from: int)
    requires
        0 <= from,
    ensures
        match checkpoints_opened(s, now, locker_id, pool_ids, from) {
            Ok(after) => ledger_kept(s, after),
            Err(_) => true,
        },
    decreases pool_ids.len() - from,
{
    if from < pool_ids.len() {
        match checkpoint_opened(s, now, locker_id, pool_ids[from]) {
            Ok(next) => {
                lemma_checkpoints_opened(next, now, locker_id, pool_ids, from + 1);
            },
            Err(_) => {},
        }
    }
}

proof fn lemma_settled_all(s: StateView, now: u64, locker_id: u64, pool_ids: Seq<u64>, from: int)
    requires
        0 <= from,
    ensures
        match settled_all(s, now, locker_id, pool_ids, from) {
            Ok(after) => ledger_kept(s, after),
            Err(_) => true,
        },
    decreases pool_ids.len() - from,
{
    if from < pool_ids.len() {
        match user_reward_updated(s, now, locker_id, pool_ids[from]) {
            Ok(next) => {
                lemma_settled_all(next, now, locker_id, pool_ids, from + 1);
            },
            Err(_) => {},
        }
    }
}

proof fn lemma_close_pools(
    p: CloseProgress,
    now: u64,
    stake: UserStake,
    referrer: Option<String>,
    pool_ids: Seq<u64>,
    from: int,
)
    requires
        0 <= from,
    ensures
        match close_pools(p, now, stake, referrer, pool_ids, from) {
            Ok(after) => ledger_kept(p.state, after.state),
            Err(_) => true,
        },
    decreases pool_ids.len() - from,
{
    if from < pool_ids.len() {
        let pool_id = pool_ids[from];
        match user_reward_updated(p.state, now, stake.locker_id, pool_id) {
            Ok(s) => {
                match (
                    reward_slot(s.user_rewards, stake.locker_id, pool_id),
                    pool_slot(s.pools, pool_id),
                ) {
                    (Some(j), Some(i)) => {
                        lemma_paid_out(s, now, stake.user, referrer, i, j);
                    },
                    _ => {},
                }
            },
            Err(_) => {},
        }
        match close_pool(p, now, stake, referrer, pool_id) {
            Ok(next) => {
                lemma_close_pools(next, now, stake, referrer, pool_ids, from + 1);
            },
            Err(_) => {},
        }
    }
}

/// A new controller has nothing locked and records nothing.
pub proof fn lemma_initial_state_totals_match(msg: InstantiateMsg)
    ensures
        totals_match(initial_state(msg)),
{
    assert forall|lp_token: Seq<char>| #[trigger] balanced_for(initial_state(msg), lp_token) by {
        lemma_first_match(initial_state(msg).total_staked, staked_hit(lp_token));
    }
}

/// An extension moves the total weight of the position's collateral by the
/// position's new weight less its old one, and leaves the amount locked, and
/// the totals of every other collateral, as they were.
pub proof fn lemma_extend_moves_total_weight(
    s: StateView,
    env: Env,
    info: MessageInfo,
    locker_id: u64,
    new_unlock_time: u64,
    lp_token: Seq<char>,
)
    requires
        executed(
            s,
            env,
            info,
            ExecuteMsg::LockerHook(LockerHookMsg::OnExtend { locker_id, new_unlock_time }),
        ) is Ok,
    ensures
        stake_slot(s.user_stakes, locker_id) is Some,
        ({
            let stake = s.user_stakes[stake_slot(s.user_stakes, locker_id).unwrap()];
            let after = executed(
                s,
                env,
                info,
                ExecuteMsg::LockerHook(LockerHookMsg::OnExtend { locker_id, new_unlock_time }),
            ).unwrap().0;
            &&& staked_amount(after.total_staked, lp_token) == staked_amount(
                s.total_staked,
                lp_token,
            )
            &&& staked_weight(after.total_staked, lp_token) == staked_weight(
                s.total_staked,
                lp_token,
            ) + if lp_token == stake.lp_token@ {
                effective_amount(extended(stake, new_unlock_time)) - effective_amount(stake)
            } else {
                0
            }
        }),
{
    let k = stake_slot(s.user_stakes, locker_id).unwrap();
    let stake = s.user_stakes[k];
    lemma_settled_all(s, env.block_time, locker_id, pools_for_lp(s.pools, stake.lp_token@), 0);
    lemma_weight_nonnegative(stake);
    lemma_weight_nonnegative(extended(stake, new_unlock_time));
    let old_weight = weighed(stake).unwrap();
    let new_weight = weighed(extended(stake, new_unlock_time)).unwrap();
    lemma_total_set_reads(
        s.total_staked,
        stake.lp_token,
        staked_amount(s.total_staked, stake.lp_token@),
        (staked_weight(s.total_staked, stake.lp_token@) - old_weight + new_weight) as u128,
        lp_token,
    );
}

proof fn lemma_on_lock(
    s: StateView,
    now: u64,
    locker_id: u64,
    owner: String,
    lp_token: String,
    amount: u128,
    locked_at: u64,
    unlock_time: u64,
)
    requires
        totals_match(s),
    ensures
        match on_lock(s, now, locker_id, owner, lp_token, amount, locked_at, unlock_time) {
            Ok(after) => totals_match(after),
            Err(_) => true,
        },
{
    match on_lock(s, now, locker_id, owner, lp_token, amount, locked_at, unlock_time) {
        Ok(after) => {
            let stake = UserStake {
                user: owner,
                locker_id,
                lp_token,
                lp_amount: amount,
                locked_at,
                bonus_multiplier: bonus_multiplier(lock_duration(locked_at, unlock_time)),
            };
            let s1 = lock_begun(s, stake).unwrap();
            lemma_first_match(s.user_stakes, stake_hit(locker_id));
            lemma_checkpoints_opened(s1, now, locker_id, pools_for_lp(s1.pools, lp_token@), 0);
            lemma_weight_nonnegative(stake);
            let weight = weighed(stake).unwrap();
            let s2 = checkpoints_opened(
                s1,
                now,
                locker_id,
                pools_for_lp(s1.pools, lp_token@),
                0,
            ).unwrap();
            assert(s2.user_stakes == s1.user_stakes && s2.total_staked == s1.total_staked);
            assert(after.user_stakes == s1.user_stakes);
            assert(after.total_staked == total_set(
                s1.total_staked,
                lp_token,
                (staked_amount(s1.total_staked, lp_token@) + amount) as u128,
                (staked_weight(s1.total_staked, lp_token@) + weight) as u128,
            ));
            assert forall|other: Seq<char>| #[trigger] balanced_for(after, other) by {
                assert(balanced_for(s, other));
                lemma_total_set_reads(
                    s1.total_staked,
                    lp_token,
                    (staked_amount(s1.total_staked, lp_token@) + amount) as u128,
                    (staked_weight(s1.total_staked, lp_token@) + weight) as u128,
                    other,
                );
                match stake_slot(s.user_stakes, locker_id) {
                    Some(k) => {
                        let old = s.user_stakes[k];
                        lemma_weight_nonnegative(old);
                        let old_weight = weighed(old).unwrap();
                        assert(s1.total_staked == total_set(
                            s.total_staked,
                            old.lp_token,
                            (staked_amount(s.total_staked, old.lp_token@) - old.lp_amount) as u128,
                            (staked_weight(s.total_staked, old.lp_token@) - old_weight) as u128,
                        ));
                        assert(s1.user_stakes == s.user_stakes.update(k, stake));
                        lemma_total_set_reads(
                            s.total_staked,
                            old.lp_token,
                            (staked_amount(s.total_staked, old.lp_token@) - old.lp_amount) as u128,
                            (staked_weight(s.total_staked, old.lp_token@) - old_weight) as u128,
                            other,
                        );
                        lemma_total_set_reads(
                            s.total_staked,
                            old.lp_token,
                            (staked_amount(s.total_staked, old.lp_token@) - old.lp_amount) as u128,
                            (staked_weight(s.total_staked, old.lp_token@) - old_weight) as u128,
                            lp_token@,
                        );
                        lemma_sums_update(s.user_stakes, k, stake, other);
                    },
                    None => {
                        assert(s1.total_staked == s.total_staked);
                        assert(s1.user_stakes == s.user_stakes.push(stake));
                        assert(s1.user_stakes.drop_last() =~= s.user_stakes);
                    },
                }
            }
        },
        Err(_) => {},
    }
}

proof fn lemma_on_extend(s: StateView, now: u64, locker_id: u64, new_unlock_time: u64)
    requires
        totals_match(s),
    ensures
        match on_extend(s, now, locker_id, new_unlock_time) {
            Ok(after) => totals_match(after),
            Err(_) => true,
        },
{
    match on_extend(s, now, locker_id, new_unlock_time) {
        Ok(after) => {
            lemma_first_match(s.user_stakes, stake_hit(locker_id));
            let k = stake_slot(s.user_stakes, locker_id).unwrap();
            let stake = s.user_stakes[k];
            lemma_settled_all(s, now, locker_id, pools_for_lp(s.pools, stake.lp_token@), 0);
            lemma_weight_nonnegative(stake);
            lemma_weight_nonnegative(extended(stake, new_unlock_time));
            let old_weight = weighed(stake).unwrap();
            let new_weight = weighed(extended(stake, new_unlock_time)).unwrap();
            assert(after.user_stakes == s.user_stakes.update(
                k,
                extended(stake, new_unlock_time),
            ));
            assert forall|other: Seq<char>| #[trigger] balanced_for(after, other) by {
                lemma_total_set_reads(
                    s.total_staked,
                    stake.lp_token,
                    staked_amount(s.total_staked, stake.lp_token@),
                    (staked_weight(s.total_staked, stake.lp_token@) - old_weight
                        + new_weight) as u128,
                    other,
                );
                lemma_sums_update(s.user_stakes, k, extended(stake, new_unlock_time), other);
                assert(balanced_for(s, other));
            }
        },
        Err(_) => {},
    }
}

proof fn lemma_on_unlock(s: StateView, now: u64, locker_id: u64)
    requires
        keys_once(s),
        totals_match(s),
    ensures
        match on_unlock(s, now, locker_id) {
            Ok((after, _)) => totals_match(after),
            Err(_) => true,
        },
{
    match on_unlock(s, now, locker_id) {
        Ok((after, _)) => {
            lemma_first_match(s.user_stakes, stake_hit(locker_id));
            let k = stake_slot(s.user_stakes, locker_id).unwrap();
            let stake = s.user_stakes[k];
            lemma_close_pools(
                CloseProgress { state: s, messages: Seq::empty() },
                now,
                stake,
                referrer_of(s.referrals, stake.user@),
                pools_for_lp(s.pools, stake.lp_token@),
                0,
            );
            lemma_weight_nonnegative(stake);
            let weight = weighed(stake).unwrap();
            assert(after.user_stakes == without(s.user_stakes, stake_hit(locker_id)));
            assert forall|other: Seq<char>| #[trigger] balanced_for(after, other) by {
                lemma_total_set_reads(
                    s.total_staked,
                    stake.lp_token,
                    (staked_amount(s.total_staked, stake.lp_token@) - stake.lp_amount) as u128,
                    (staked_weight(s.total_staked, stake.lp_token@) - weight) as u128,
                    other,
                );
                lemma_sums_without(s.user_stakes, k, other);
                assert(balanced_for(s, other));
            }
        },
        Err(_) => {},
    }
}

/// Whatever call is carried out, the totals recorded for every collateral
/// stay the sums over its open positions, in amount and in weight, in a
/// state in which every lock has one position.
pub proof fn lemma_execute_keeps_totals(s: StateView, env: Env, info: MessageInfo, msg: ExecuteMsg)
    requires
        keys_once(s),
        totals_match(s),
    ensures
        match executed(s, env, info, msg) {
            Ok((after, _)) => totals_match(after),
            Err(_) => true,
        },
{
    let now = env.block_time;
    match executed(s, env, info, msg) {
        Ok((after, _)) => {
            match msg {
                ExecuteMsg::LockerHook(
                    LockerHookMsg::OnLock {
                        locker_id,
                        owner,
                        lp_token,
                        amount,
                        locked_at,
                        unlock_time,
                    },
                ) => {
                    lemma_on_lock(
                        s,
                        now,
                        locker_id,
                        owner,
                        lp_token,
                        amount,
                        locked_at,
                        unlock_time,
                    );
                },
                ExecuteMsg::LockerHook(LockerHookMsg::OnExtend { locker_id, new_unlock_time }) => {
                    lemma_on_extend(s, now, locker_id, new_unlock_time);
                },
                ExecuteMsg::LockerHook(LockerHookMsg::OnUnlock { locker_id, owner }) => {
                    lemma_on_unlock(s, now, locker_id);
                },
                ExecuteMsg::ClaimRewards { locker_id, pool_ids } => {
                    lemma_claim_pools(
                        ClaimProgress { state: s, messages: Seq::empty(), total_claimed: 0 },
                        now,
                        info.sender,
                        referrer_of(s.referrals, info.sender@),
                        locker_id,
                        pool_ids@,
                        0,
                    );
                    assert forall|other: Seq<char>| #[trigger] balanced_for(after, other) by {
                        assert(balanced_for(s, other));
                    }
                },
                ExecuteMsg::BatchClaimRewards { locker_ids, pool_ids } => {
                    lemma_batch_claimed(
                        s,
                        now,
                        info.sender,
                        locker_ids@,
                        pool_ids@,
                        0,
                        ResponseView {
                            messages: Seq::empty(),
                            attributes: seq![("action"@, "batch_claim_rewards"@)],
                        },
                    );
                    assert forall|other: Seq<char>| #[trigger] balanced_for(after, other) by {
                        assert(balanced_for(s, other));
                    }
                },
                _ => {
                    assert(ledger_kept(s, after));
                    assert forall|other: Seq<char>| #[trigger] balanced_for(after, other) by {
                        assert(balanced_for(s, other));
                    }
                },
            }
        },
        Err(_) => {},
    }
}

} // verus!
