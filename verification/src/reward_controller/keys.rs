//! Every table of the controller holds each key once, whatever is called.

use vstd::prelude::*;
use crate::asset::same_asset;
use crate::host::{Env, MessageInfo, ResponseView};
use crate::reward_controller::admin::swept_hit;
use crate::reward_controller::claim::{
    batch_claimed, claim_pool, claim_pools, credited, paid_out, rewards_claimed, ClaimProgress,
};
use crate::reward_controller::contract::{executed, initial_state};
use crate::reward_controller::engine::{bonus_multiplier, lock_duration, settled};
use crate::reward_controller::hooks::{
    checkpoint_opened, checkpoints_opened, close_pool, close_pools, extended, lock_begun,
    locker_hook_handled, settled_all, CloseProgress,
};
use crate::reward_controller::msg::{ExecuteMsg, InstantiateMsg, LockerHookMsg};
use crate::reward_controller::settlement::{fresh_reward, pool_updated, user_reward_updated};
use crate::reward_controller::state::{
    balance_hit, balance_slot, locker_hit, pool_slot, pools_for_lp, referrer_of,
    reward_hit, reward_slot, stake_hit, stake_slot, staked_hit, staked_slot,
    total_set, ReferrerBalance, StakedTotal, StateView, UserReward, UserStake,
};
use crate::table::{
    finds, is_sameness, keyed_once, lemma_first_match, lemma_put_keeps_once,
    lemma_update_keeps_once, lemma_without_keeps_once,
};

verus! {

/// Two positions are the same where they stand for the same lock.
pub open spec fn same_locker() -> spec_fn(UserStake, UserStake) -> bool {
    |a: UserStake, b: UserStake| a.locker_id == b.locker_id
}

/// Two checkpoints are the same where they stand for the same lock in the
/// same pool.
pub open spec fn same_checkpoint() -> spec_fn(UserReward, UserReward) -> bool {
    |a: UserReward, b: UserReward| a.locker_id == b.locker_id && a.pool_id == b.pool_id
}

/// Two totals are the same where they count the same collateral.
pub open spec fn same_collateral() -> spec_fn(StakedTotal, StakedTotal) -> bool {
    |a: StakedTotal, b: StakedTotal| a.lp_token@ == b.lp_token@
}

/// Two balances are the same where they are owed to the same referrer in
/// the same asset.
pub open spec fn same_balance() -> spec_fn(ReferrerBalance, ReferrerBalance) -> bool {
    |a: ReferrerBalance, b: ReferrerBalance|
        a.referrer@ == b.referrer@ && same_asset(a.asset, b.asset)
}

/// Every lock has one position, every lock and pool one checkpoint, every
/// collateral one total, and every referrer one balance in each asset.
pub open spec fn keys_once(s: StateView) -> bool {
    &&& keyed_once(s.user_stakes, same_locker())
    &&& keyed_once(s.user_rewards, same_checkpoint())
    &&& keyed_once(s.total_staked, same_collateral())
    &&& keyed_once(s.referrer_balances, same_balance())
}

proof fn lemma_sameness()
    ensures
        is_sameness(same_locker()),
        is_sameness(same_checkpoint()),
        is_sameness(same_collateral()),
        is_sameness(same_balance()),
{
}

proof fn lemma_pool_updated(s: StateView, now: u64, pool_id: u64)
    ensures
        match pool_updated(s, now, pool_id) {
            Ok(after) => keys_once(s) ==> keys_once(after),
            Err(_) => true,
        },
{
}

proof fn lemma_user_reward_updated(s: StateView, now: u64, locker_id: u64, pool_id: u64)
    ensures
        match user_reward_updated(s, now, locker_id, pool_id) {
            Ok(after) => keys_once(s) ==> keys_once(after),
            Err(_) => true,
        },
{
    lemma_sameness();
    match (
        user_reward_updated(s, now, locker_id, pool_id),
        pool_updated(s, now, pool_id),
        pool_slot(s.pools, pool_id),
        stake_slot(s.user_stakes, locker_id),
    ) {
        (Ok(after), Ok(s1), Some(i), Some(k)) => {
            if keys_once(s) {
                let slot = reward_slot(s.user_rewards, locker_id, pool_id);
                lemma_first_match(s.user_rewards, reward_hit(locker_id, pool_id));
                let current = match slot {
                    Some(j) => s.user_rewards[j],
                    None => fresh_reward(locker_id, pool_id, s1.pools[i], now),
                };
                let reward = settled(s.user_stakes[k], s1.pools[i], current).unwrap();
                assert(reward.locker_id == locker_id && reward.pool_id == pool_id);
                assert(finds(reward_hit(locker_id, pool_id), same_checkpoint(), reward));
                lemma_put_keeps_once(
                    s.user_rewards,
                    same_checkpoint(),
                    reward_hit(locker_id, pool_id),
                    reward,
                );
            }
        },
        _ => {},
    }
}

proof fn lemma_credited(
    balances: Seq<ReferrerBalance>,
    referrer: String,
    asset: crate::asset::AssetInfo,
    commission: u128,
)
    requires
        keyed_once(balances, same_balance()),
    ensures
        match credited(balances, referrer, asset, commission) {
            Some(after) => keyed_once(after, same_balance()),
            None => true,
        },
{
    lemma_sameness();
    lemma_first_match(balances, balance_hit(referrer@, asset));
    match (credited(balances, referrer, asset, commission), balance_slot(balances, referrer@, asset)) {
        (Some(after), Some(i)) => {
            lemma_update_keeps_once(balances, same_balance(), i, after[i]);
        },
        (Some(after), None) => {
            let record = ReferrerBalance { referrer, asset, amount: commission };
            assert(finds(balance_hit(referrer@, asset), same_balance(), record));
            lemma_put_keeps_once(
                balances,
                same_balance(),
                balance_hit(referrer@, asset),
                record,
            );
        },
        _ => {},
    }
}

proof fn lemma_paid_out(
    s: StateView,
    now: u64,
    recipient: String,
    referrer: Option<String>,
    i: int,
    j: int,
)
    requires
        0 <= j < s.user_rewards.len(),
    ensures
        match paid_out(s, now, recipient, referrer, i, j) {
            Ok((after, _, _)) => keys_once(s) ==> keys_once(after),
            Err(_) => true,
        },
{
    lemma_sameness();
    match paid_out(s, now, recipient, referrer, i, j) {
        Ok((after, _, _)) => {
            if keys_once(s) {
                lemma_update_keeps_once(s.user_rewards, same_checkpoint(), j, after.user_rewards[j]);
                if referrer is Some {
                    let commission = crate::reward_controller::engine::split_payout(
                        s.user_rewards[j].rewards_accrued,
                        s.config.referral_commission_bps,
                        true,
                    ).unwrap().0;
                    lemma_credited(
                        s.referrer_balances,
                        referrer.unwrap(),
                        s.pools[i].reward_token,
                        commission,
                    );
                }
            }
        },
        Err(_) => {},
    }
}

proof fn lemma_claim_pool(
    p: ClaimProgress,
    now: u64,
    sender: String,
    referrer: Option<String>,
    locker_id: u64,
    pool_id: u64,
)
    ensures
        match claim_pool(p, now, sender, referrer, locker_id, pool_id) {
            Ok(after) => keys_once(p.state) ==> keys_once(after.state),
            Err(_) => true,
        },
{
    lemma_user_reward_updated(p.state, now, locker_id, pool_id);
    match user_reward_updated(p.state, now, locker_id, pool_id) {
        Ok(s) => {
            lemma_first_match(s.user_rewards, reward_hit(locker_id, pool_id));
            match (reward_slot(s.user_rewards, locker_id, pool_id), pool_slot(s.pools, pool_id)) {
                (Some(j), Some(i)) => {
                    lemma_paid_out(s, now, sender, referrer, i, j);
                },
                _ => {},
            }
        },
        Err(_) => {},
    }
}

proof fn lemma_claim_pools(
    p: ClaimProgress,
    now: u64,
    sender: String,
    referrer: Option<String>,
    locker_id: u64,
    pool_ids: Seq<u64>,
    from: int,
)
    requires
        0 <= from,
    ensures
        match claim_pools(p, now, sender, referrer, locker_id, pool_ids, from) {
            Ok(after) => keys_once(p.state) ==> keys_once(after.state),
            Err(_) => true,
        },
    decreases pool_ids.len() - from,
{
    if from < pool_ids.len() {
        lemma_claim_pool(p, now, sender, referrer, locker_id, pool_ids[from]);
        match claim_pool(p, now, sender, referrer, locker_id, pool_ids[from]) {
            Ok(next) => {
                lemma_claim_pools(next, now, sender, referrer, locker_id, pool_ids, from + 1);
            },
            Err(_) => {},
        }
    }
}

proof fn lemma_rewards_claimed(
    s: StateView,
    now: u64,
    sender: String,
    locker_id: u64,
    pool_ids: Seq<u64>,
)
    ensures
        match rewards_claimed(s, now, sender, locker_id, pool_ids) {
            Ok((after, _)) => keys_once(s) ==> keys_once(after),
            Err(_) => true,
        },
{
    lemma_claim_pools(
        ClaimProgress { state: s, messages: Seq::empty(), total_claimed: 0 },
        now,
        sender,
        referrer_of(s.referrals, sender@),
        locker_id,
        pool_ids,
        0,
    );
}

proof fn lemma_batch_claimed(
    s: StateView,
    now: u64,
    sender: String,
    locker_ids: Seq<u64>,
    pool_ids: Seq<u64>,
    from: int,
    response: ResponseView,
)
    requires
        0 <= from,
    ensures
        match batch_claimed(s, now, sender, locker_ids, pool_ids, from, response) {
            Ok((after, _)) => keys_once(s) ==> keys_once(after),
            Err(_) => true,
        },
    decreases locker_ids.len() - from,
{
    if from < locker_ids.len() {
        lemma_rewards_claimed(s, now, sender, locker_ids[from], pool_ids);
        match rewards_claimed(s, now, sender, locker_ids[from], pool_ids) {
            Ok((next, part)) => {
                lemma_batch_claimed(
                    next,
                    now,
                    sender,
                    locker_ids,
                    pool_ids,
                    from + 1,
                    ResponseView {
                        messages: response.messages + part.messages,
                        attributes: response.attributes + part.attributes,
                    },
                );
            },
            Err(_) => {},
        }
    }
}

proof fn lemma_checkpoints_opened(
    s: StateView,
    now: u64,
    locker_id: u64,
    pool_ids: Seq<u64>,
    from: int,
)
    requires
        0 <= from,
    ensures
        match checkpoints_opened(s, now, locker_id, pool_ids, from) {
            Ok(after) => keys_once(s) ==> keys_once(after),
            Err(_) => true,
        },
    decreases pool_ids.len() - from,
{
    lemma_sameness();
    if from < pool_ids.len() {
        let pool_id = pool_ids[from];
        match (
            checkpoint_opened(s, now, locker_id, pool_id),
            pool_updated(s, now, pool_id),
            pool_slot(s.pools, pool_id),
        ) {
            (Ok(next), Ok(s1), Some(i)) => {
                if keys_once(s) {
                    let reward = fresh_reward(locker_id, pool_id, s1.pools[i], now);
                    assert(finds(reward_hit(locker_id, pool_id), same_checkpoint(), reward));
                    lemma_put_keeps_once(
                        s.user_rewards,
                        same_checkpoint(),
                        reward_hit(locker_id, pool_id),
                        reward,
                    );
                }
                lemma_checkpoints_opened(next, now, locker_id, pool_ids, from + 1);
            },
            (Ok(next), _, _) => {
                lemma_checkpoints_opened(next, now, locker_id, pool_ids, from + 1);
            },
            _ => {},
        }
    }
}

proof fn lemma_total_set(totals: Seq<StakedTotal>, lp_token: String)
    requires
        keyed_once(totals, same_collateral()),
    ensures
        forall|amount: u128, weight: u128|
            keyed_once(
                #[trigger] total_set(totals, lp_token, amount, weight),
                same_collateral(),
            ),
{
    lemma_sameness();
    lemma_first_match(totals, staked_hit(lp_token@));
    assert forall|amount: u128, weight: u128|
        keyed_once(
            #[trigger] total_set(totals, lp_token, amount, weight),
            same_collateral(),
        ) by {
        match staked_slot(totals, lp_token@) {
            Some(i) => {
                lemma_update_keeps_once(
                    totals,
                    same_collateral(),
                    i,
                    StakedTotal { amount, weight, ..totals[i] },
                );
            },
            None => {
                let record = StakedTotal { lp_token, amount, weight };
                assert(finds(staked_hit(lp_token@), same_collateral(), record));
                lemma_put_keeps_once(totals, same_collateral(), staked_hit(lp_token@), record);
            },
        }
    }
}

proof fn lemma_settled_all(s: StateView, now: u64, locker_id: u64, pool_ids: Seq<u64>, from: int)
    requires
        0 <= from,
    ensures
        match settled_all(s, now, locker_id, pool_ids, from) {
            Ok(after) => (keys_once(s) ==> keys_once(after)) && after.user_stakes == s.user_stakes,
            Err(_) => true,
        },
    decreases pool_ids.len() - from,
{
    if from < pool_ids.len() {
        lemma_user_reward_updated(s, now, locker_id, pool_ids[from]);
        match user_reward_updated(s, now, locker_id, pool_ids[from]) {
            Ok(next) => {
                lemma_settled_all(next, now, locker_id, pool_ids, from + 1);
            },
            Err(_) => {},
        }
    }
}

proof fn lemma_close_pools(
    p: CloseProgress,
    now: u64,
    stake: UserStake,
    referrer: Option<String>,
    pool_ids: Seq<u64>,
    from: int,
)
    requires
        0 <= from,
    ensures
        match close_pools(p, now, stake, referrer, pool_ids, from) {
            Ok(after) => keys_once(p.state) ==> keys_once(after.state),
            Err(_) => true,
        },
    decreases pool_ids.len() - from,
{
    if from < pool_ids.len() {
        let pool_id = pool_ids[from];
        lemma_user_reward_updated(p.state, now, stake.locker_id, pool_id);
        match user_reward_updated(p.state, now, stake.locker_id, pool_id) {
            Ok(s) => {
                lemma_first_match(s.user_rewards, reward_hit(stake.locker_id, pool_id));
                match (
                    reward_slot(s.user_rewards, stake.locker_id, pool_id),
                    pool_slot(s.pools, pool_id),
                ) {
                    (Some(j), Some(i)) => {
                        lemma_paid_out(s, now, stake.user, referrer, i, j);
                    },
                    _ => {},
                }
            },
            Err(_) => {},
        }
        match close_pool(p, now, stake, referrer, pool_id) {
            Ok(next) => {
                lemma_close_pools(next, now, stake, referrer, pool_ids, from + 1);
            },
            Err(_) => {},
        }
    }
}

proof fn lemma_locker_hook(s: StateView, now: u64, sender: String, msg: LockerHookMsg)
    ensures
        match locker_hook_handled(s, now, sender, msg) {
            Ok((after, _)) => keys_once(s) ==> keys_once(after),
            Err(_) => true,
        },
{
    lemma_sameness();
    if keys_once(s) {
        match msg {
            LockerHookMsg::OnLock { locker_id, owner, lp_token, amount, locked_at, unlock_time } => {
                let stake = UserStake {
                    user: owner,
                    locker_id,
                    lp_token,
                    lp_amount: amount,
                    locked_at,
                    bonus_multiplier: bonus_multiplier(lock_duration(locked_at, unlock_time)),
                };
                assert(finds(stake_hit(locker_id), same_locker(), stake));
                lemma_put_keeps_once(s.user_stakes, same_locker(), stake_hit(locker_id), stake);
                match stake_slot(s.user_stakes, locker_id) {
                    Some(k) => {
                        lemma_total_set(s.total_staked, s.user_stakes[k].lp_token);
                    },
                    None => {},
                }
                match lock_begun(s, stake) {
                    Ok(s1) => {
                        assert(keys_once(s1));
                        lemma_checkpoints_opened(
                            s1,
                            now,
                            locker_id,
                            pools_for_lp(s1.pools, lp_token@),
                            0,
                        );
                        match checkpoints_opened(
                            s1,
                            now,
                            locker_id,
                            pools_for_lp(s1.pools, lp_token@),
                            0,
                        ) {
                            Ok(s2) => {
                                lemma_total_set(s2.total_staked, lp_token);
                            },
                            Err(_) => {},
                        }
                    },
                    Err(_) => {},
                }
            },
            LockerHookMsg::OnExtend { locker_id, new_unlock_time } => {
                lemma_first_match(s.user_stakes, stake_hit(locker_id));
                match stake_slot(s.user_stakes, locker_id) {
                    Some(k) => {
                        let stake = s.user_stakes[k];
                        lemma_settled_all(
                            s,
                            now,
                            locker_id,
                            pools_for_lp(s.pools, stake.lp_token@),
                            0,
                        );
                        lemma_update_keeps_once(
                            s.user_stakes,
                            same_locker(),
                            k,
                            extended(stake, new_unlock_time),
                        );
                        match settled_all(
                            s,
                            now,
                            locker_id,
                            pools_for_lp(s.pools, stake.lp_token@),
                            0,
                        ) {
                            Ok(s1) => {
                                lemma_total_set(s1.total_staked, stake.lp_token);
                            },
                            Err(_) => {},
                        }
                    },
                    None => {},
                }
            },
            LockerHookMsg::OnUnlock { locker_id, owner } => {
                match stake_slot(s.user_stakes, locker_id) {
                    Some(k) => {
                        let stake = s.user_stakes[k];
                        let start = CloseProgress { state: s, messages: Seq::empty() };
                        let ids = pools_for_lp(s.pools, stake.lp_token@);
                        let referrer = referrer_of(s.referrals, stake.user@);
                        lemma_close_pools(start, now, stake, referrer, ids, 0);
                        match close_pools(start, now, stake, referrer, ids, 0) {
                            Ok(p) => {
                                lemma_without_keeps_once(
                                    p.state.user_stakes,
                                    same_locker(),
                                    stake_hit(stake.locker_id),
                                );
                                lemma_without_keeps_once(
                                    p.state.user_rewards,
                                    same_checkpoint(),
                                    locker_hit(stake.locker_id),
                                );
                                lemma_total_set(p.state.total_staked, stake.lp_token);
                            },
                            Err(_) => {},
                        }
                    },
                    None => {},
                }
            },
        }
    }
}

/// A new controller holds no key twice.
pub proof fn lemma_initial_state_keys_once(msg: InstantiateMsg)
    ensures
        keys_once(initial_state(msg)),
{
}

/// Whatever call is carried out, every table goes on holding each key
/// once: the record found for a key is the only one there is.
pub proof fn lemma_execute_keeps_keys_once(
    s: StateView,
    env: Env,
    info: MessageInfo,
    msg: ExecuteMsg,
)
    requires
        keys_once(s),
    ensures
        match executed(s, env, info, msg) {
            Ok((after, _)) => keys_once(after),
            Err(_) => true,
        },
{
    match msg {
        ExecuteMsg::LockerHook(hook) => {
            lemma_locker_hook(s, env.block_time, info.sender, hook);
        },
        ExecuteMsg::ClaimRewards { locker_id, pool_ids } => {
            lemma_rewards_claimed(s, env.block_time, info.sender, locker_id, pool_ids@);
        },
        ExecuteMsg::BatchClaimRewards { locker_ids, pool_ids } => {
            lemma_batch_claimed(
                s,
                env.block_time,
                info.sender,
                locker_ids@,
                pool_ids@,
                0,
                ResponseView {
                    messages: Seq::empty(),
                    attributes: seq![("action"@, "batch_claim_rewards"@)],
                },
            );
        },
        ExecuteMsg::ClaimReferralRewards {  } => {
            lemma_without_keeps_once(s.referrer_balances, same_balance(), swept_hit(info.sender@));
        },
        _ => {},
    }
}

} // verus!
