//! Claims: payout of what a position has accrued, with the referrer's
//! commission, for one position or a batch of them.

use vstd::prelude::*;
use crate::host::{
    amount_text, decimal_text, transfer_msg, transfer_of, CosmosMsg, Env, MessageInfo, Response,
    ResponseView,
};
use crate::reward_controller::engine::{split_commission, split_payout};
use crate::reward_controller::error::{ContractError, StdError};
use crate::reward_controller::settlement::{update_user_reward, user_reward_updated};
use crate::reward_controller::state::{
    balance_slot, find_balance, find_pool, find_referral, find_reward, find_stake, pool_slot,
    referrer_of, reward_slot, stake_slot, AssetInfo, ReferrerBalance, RewardPool, State,
    StateView, UserReward,
};

verus! {

/// Seconds from `earlier` to `now`; zero where `earlier` is not in the past.
pub open spec fn seconds_since(now: u64, earlier: u64) -> u64 {
    if now >= earlier {
        (now - earlier) as u64
    } else {
        0
    }
}

/// The referrer balances after `commission` in `asset` was credited to
/// `referrer`; nothing where the balance would leave the 128-bit range.
pub open spec fn credited(
    balances: Seq<ReferrerBalance>,
    referrer: String,
    asset: AssetInfo,
    commission: u128,
) -> Option<Seq<ReferrerBalance>> {
    match balance_slot(balances, referrer@, asset) {
        Some(i) => if balances[i].amount + commission > u128::MAX {
            None
        } else {
            Some(
                balances.update(
                    i,
                    ReferrerBalance {
                        amount: (balances[i].amount + commission) as u128,
                        ..balances[i]
                    },
                ),
            )
        },
        None => Some(balances.push(ReferrerBalance { referrer, asset, amount: commission })),
    }
}

/// Credits `commission` in `asset` to `referrer`. Returns whether the
/// balance stayed in range; out of range nothing changes.
pub fn credit_referrer(
    balances: &mut Vec<ReferrerBalance>,
    referrer: &String,
    asset: &AssetInfo,
    commission: u128,
) -> (done: bool)
    ensures
        match credited(old(balances)@, *referrer, *asset, commission) {
            Some(after) => done && final(balances)@ == after,
            None => !done && final(balances)@ == old(balances)@,
        },
{
    match find_balance(balances, referrer, asset) {
        Some(i) => {
            match balances[i].amount.checked_add(commission) {
                Some(amount) => {
                    let updated = ReferrerBalance {
                        referrer: balances[i].referrer.clone(),
                        asset: balances[i].asset.clone(),
                        amount,
                    };
                    balances.set(i, updated);
                    true
                },
                None => false,
            }
        },
        None => {
            balances.push(
                ReferrerBalance {
                    referrer: referrer.clone(),
                    asset: asset.clone(),
                    amount: commission,
                },
            );
            true
        },
    }
}

/// The payout of what the checkpoint at `j` has accrued in the pool at `i`:
/// the state after it, the transfer requested for `recipient`, and the amount
/// of that transfer.
///
/// A pool that cannot pay the accrued amount out of what it was funded with
/// refuses. Else the checkpoint is emptied and stamped with `now`, the pool's
/// claimed total grows by the accrued amount, and the referrer, where there
/// is one, is credited the commission; the transfer pays the rest. The
/// transfer is requested for every payout, also where the commission takes
/// the whole amount and the transfer is of nothing.
pub open spec fn paid_out(
    s: StateView,
    now: u64,
    recipient: String,
    referrer: Option<String>,
    i: int,
    j: int,
) -> Result<(StateView, CosmosMsg, u128), ContractError> {
    let reward = s.user_rewards[j];
    let pool = s.pools[i];
    let amount = reward.rewards_accrued;
    if amount > pool.available() {
        Err(ContractError::InsufficientRewards)
    } else {
        paid_from(s, now, recipient, referrer, i, j)
    }
}

/// The payout of what the checkpoint at `j` has accrued in the pool at `i`,
/// for a pool that can pay it.
pub open spec fn paid_from(
    s: StateView,
    now: u64,
    recipient: String,
    referrer: Option<String>,
    i: int,
    j: int,
) -> Result<(StateView, CosmosMsg, u128), ContractError> {
    let reward = s.user_rewards[j];
    let pool = s.pools[i];
    let amount = reward.rewards_accrued;
    match split_payout(amount, s.config.referral_commission_bps, referrer is Some) {
        Err(e) => Err(e),
        Ok((commission, net)) => {
            let balances = if commission > 0 {
                credited(s.referrer_balances, referrer.unwrap(), pool.reward_token, commission)
            } else {
                Some(s.referrer_balances)
            };
            match balances {
                None => Err(ContractError::Overflow),
                Some(referrer_balances) => Ok(
                    (
                        StateView {
                            user_rewards: s.user_rewards.update(
                                j,
                                UserReward { rewards_accrued: 0, last_claim_time: now, ..reward },
                            ),
                            pools: s.pools.update(
                                i,
                                RewardPool {
                                    total_claimed: (pool.total_claimed + amount) as u128,
                                    ..pool
                                },
                            ),
                            referrer_balances,
                            ..s
                        },
                        transfer_of(pool.reward_token, recipient, net),
                        net,
                    ),
                ),
            }
        },
    }
}

/// Pays out what the checkpoint at `j` has accrued in the pool at `i`. A
/// payout that fails changes nothing.
pub(crate) fn pay_out(
    state: &mut State,
    env: &Env,
    recipient: &String,
    referrer: &Option<String>,
    i: usize,
    j: usize,
) -> (r: Result<(CosmosMsg, u128), ContractError>)
    requires
        i < old(state).pools.len(),
        j < old(state).user_rewards.len(),
    ensures
        match r {
            Ok((msg, net)) => paid_out(
                old(state)@,
                env.block_time,
                *recipient,
                *referrer,
                i as int,
                j as int,
            ) == Ok::<(StateView, CosmosMsg, u128), ContractError>((final(state)@, msg, net)),
            Err(e) => paid_out(
                old(state)@,
                env.block_time,
                *recipient,
                *referrer,
                i as int,
                j as int,
            ) == Err::<(StateView, CosmosMsg, u128), ContractError>(e) && final(state)@ == old(
                state,
            )@,
        },
{
    let reward = state.user_rewards[j];
    let amount = reward.rewards_accrued;
    let available: u128 = if state.pools[i].total_claimed <= state.pools[i].total_deposited {
        state.pools[i].total_deposited - state.pools[i].total_claimed
    } else {
        0
    };
    if amount > available {
        return Err(ContractError::InsufficientRewards);
    }
    let (commission, net) = match split_commission(
        amount,
        state.config.referral_commission_bps,
        referrer.is_some(),
    ) {
        Ok(parts) => parts,
        Err(e) => {
            return Err(e);
        },
    };
    if commission > 0 {
        match referrer {
            Some(referrer) => {
                if !credit_referrer(
                    &mut state.referrer_balances,
                    referrer,
                    &state.pools[i].reward_token,
                    commission,
                ) {
                    return Err(ContractError::Overflow);
                }
            },
            None => {},
        }
    }
    state.user_rewards.set(
        j,
        UserReward {
            locker_id: reward.locker_id,
            pool_id: reward.pool_id,
            reward_per_token_paid: reward.reward_per_token_paid,
            rewards_accrued: 0,
            last_claim_time: env.block_time,
        },
    );
    let mut pool = state.pools[i].clone();
    pool.total_claimed = pool.total_claimed + amount;
    let msg = transfer_msg(&pool.reward_token, recipient, net);
    state.pools.set(i, pool);
    Ok((msg, net))
}

/// How far a claim has come: the state so far, the transfers requested so
/// far, one for each payout made, and the sum of what they pay to the owner.
pub struct ClaimProgress {
    pub state: StateView,
    pub messages: Seq<CosmosMsg>,
    pub total_claimed: u128,
}

/// One pool's part of a claim by the position `locker_id` of `sender`.
///
/// The position is settled against the pool. Nothing accrued leaves the
/// claim as it is. Otherwise the claim is refused if the last payout of this
/// checkpoint is less than the claim interval ago, or if the pool cannot pay
/// the accrued amount out of what it was funded with. Else the amount is paid
/// out, the transfer is added to the claim's transfers and the owner's part
/// to the claim's total.
pub open spec fn claim_pool(
    p: ClaimProgress,
    now: u64,
    sender: String,
    referrer: Option<String>,
    locker_id: u64,
    pool_id: u64,
) -> Result<ClaimProgress, ContractError> {
    match user_reward_updated(p.state, now, locker_id, pool_id) {
        Err(e) => Err(e),
        Ok(s) => match (reward_slot(s.user_rewards, locker_id, pool_id), pool_slot(s.pools, pool_id)) {
            (Some(j), Some(i)) => {
                let reward = s.user_rewards[j];
                if reward.rewards_accrued == 0 {
                    Ok(ClaimProgress { state: s, ..p })
                } else if seconds_since(now, reward.last_claim_time) < s.config.claim_interval {
                    Err(ContractError::ClaimTooSoon)
                } else {
                    match paid_out(s, now, sender, referrer, i, j) {
                        Err(e) => Err(e),
                        Ok((after, msg, net)) => if p.total_claimed + net > u128::MAX {
                            Err(ContractError::Overflow)
                        } else {
                            Ok(
                                ClaimProgress {
                                    state: after,
                                    messages: p.messages.push(msg),
                                    total_claimed: (p.total_claimed + net) as u128,
                                },
                            )
                        },
                    }
                }
            },
            (None, _) => Err(ContractError::StakeNotFound),
            (_, None) => Err(ContractError::PoolNotFound),
        },
    }
}

/// Claims what the position `locker_id` of `sender` has accrued in one pool.
pub(crate) fn claim_from_pool(
    state: &mut State,
    env: &Env,
    sender: &String,
    referrer: &Option<String>,
    locker_id: u64,
    pool_id: u64,
    messages: &mut Vec<CosmosMsg>,
    total_claimed: &mut u128,
) -> (r: Result<(), ContractError>)
    ensures
        match r {
            Ok(()) => claim_pool(
                ClaimProgress {
                    state: old(state)@,
                    messages: old(messages)@,
                    total_claimed: *old(total_claimed),
                },
                env.block_time,
                *sender,
                *referrer,
                locker_id,
                pool_id,
            ) == Ok::<ClaimProgress, ContractError>(
                ClaimProgress {
                    state: final(state)@,
                    messages: final(messages)@,
                    total_claimed: *final(total_claimed),
                },
            ),
            Err(e) => claim_pool(
                ClaimProgress {
                    state: old(state)@,
                    messages: old(messages)@,
                    total_claimed: *old(total_claimed),
                },
                env.block_time,
                *sender,
                *referrer,
                locker_id,
                pool_id,
            ) == Err::<ClaimProgress, ContractError>(e),
        },
{
    match update_user_reward(state, env, locker_id, pool_id) {
        Ok(()) => {},
        Err(e) => {
            return Err(e);
        },
    }
    let j = match find_reward(&state.user_rewards, locker_id, pool_id) {
        Some(j) => j,
        None => {
            return Err(ContractError::StakeNotFound);
        },
    };
    let i = match find_pool(&state.pools, pool_id) {
        Some(i) => i,
        None => {
            return Err(ContractError::PoolNotFound);
        },
    };
    let reward = state.user_rewards[j];
    let amount = reward.rewards_accrued;
    if amount == 0 {
        return Ok(());
    }
    let now = env.block_time;
    let waited: u64 = if now >= reward.last_claim_time {
        now - reward.last_claim_time
    } else {
        0
    };
    if waited < state.config.claim_interval {
        return Err(ContractError::ClaimTooSoon);
    }
    let (msg, net) = match pay_out(state, env, sender, referrer, i, j) {
        Ok(paid) => paid,
        Err(e) => {
            return Err(e);
        },
    };
    match total_claimed.checked_add(net) {
        Some(total) => {
            messages.push(msg);
            *total_claimed = total;
            Ok(())
        },
        None => Err(ContractError::Overflow),
    }
}

/// A claim carried through the pools `pool_ids` from index `from` on, one
/// after the other; the first refusal ends it.
pub open spec fn claim_pools(
    p: ClaimProgress,
    now: u64,
    sender: String,
    referrer: Option<String>,
    locker_id: u64,
    pool_ids: Seq<u64>,
    from: int,
) -> Result<ClaimProgress, ContractError>
    decreases pool_ids.len() - from,
{
    if from < 0 || from >= pool_ids.len() {
        Ok(p)
    } else {
        match claim_pool(p, now, sender, referrer, locker_id, pool_ids[from]) {
            Err(e) => Err(e),
            Ok(next) => claim_pools(next, now, sender, referrer, locker_id, pool_ids, from + 1),
        }
    }
}

/// What a successful claim answers.
pub open spec fn claim_response(messages: Seq<CosmosMsg>, total_claimed: u128) -> ResponseView {
    ResponseView {
        messages,
        attributes: seq![
            ("action"@, "claim_rewards"@),
            ("total_claimed"@, decimal_text(total_claimed as nat)),
        ],
    }
}

/// How a claim that went through its pools ends: refused where no payout was
/// made, that is where none of the pools had anything accrued. A claim whose
/// payouts went to the referrer in full succeeds, with a total of zero.
pub open spec fn claim_finished(r: Result<ClaimProgress, ContractError>) -> Result<
    (StateView, ResponseView),
    ContractError,
> {
    match r {
        Err(e) => Err(e),
        Ok(p) => if p.messages.len() == 0 {
            Err(ContractError::NoRewards)
        } else {
            Ok((p.state, claim_response(p.messages, p.total_claimed)))
        },
    }
}

/// A claim by `sender` for the position `locker_id` in the pools `pool_ids`.
///
/// Only the owner of a known position may claim. The pools are gone through
/// in the order given; one with nothing accrued is passed over. A claim in
/// which every pool was passed over is refused.
pub open spec fn rewards_claimed(
    s: StateView,
    now: u64,
    sender: String,
    locker_id: u64,
    pool_ids: Seq<u64>,
) -> Result<(StateView, ResponseView), ContractError> {
    match stake_slot(s.user_stakes, locker_id) {
        None => Err(ContractError::StakeNotFound),
        Some(k) => if s.user_stakes[k].user@ != sender@ {
            Err(ContractError::Unauthorized)
        } else {
            claim_finished(
                claim_pools(
                    ClaimProgress { state: s, messages: Seq::empty(), total_claimed: 0 },
                    now,
                    sender,
                    referrer_of(s.referrals, sender@),
                    locker_id,
                    pool_ids,
                    0,
                ),
            )
        },
    }
}

/// The referrer of `referee`, if one was registered.
pub fn load_referrer(state: &State, referee: &String) -> (r: Option<String>)
    ensures
        r == referrer_of(state.referrals@, referee@),
{
    match find_referral(&state.referrals, referee) {
        Some(i) => Some(state.referrals[i].referrer.clone()),
        None => None,
    }
}

/// Claims what the caller's position `locker_id` has accrued in the pools
/// `pool_ids`. A rejected claim changes nothing.
pub fn execute_claim_rewards(
    state: &mut State,
    env: &Env,
    info: &MessageInfo,
    locker_id: u64,
    pool_ids: &Vec<u64>,
) -> (r: Result<Response, ContractError>)
    ensures
        match r {
            Ok(response) => rewards_claimed(
                old(state)@,
                env.block_time,
                info.sender,
                locker_id,
                pool_ids@,
            ) == Ok::<(StateView, ResponseView), ContractError>((final(state)@, response@)),
            Err(e) => rewards_claimed(
                old(state)@,
                env.block_time,
                info.sender,
                locker_id,
                pool_ids@,
            ) == Err::<(StateView, ResponseView), ContractError>(e) && final(state)@ == old(state)@,
        },
{
    let snapshot = state.clone();
    let r = claim_rewards(state, env, info, locker_id, pool_ids);
    if r.is_err() {
        *state = snapshot;
    }
    r
}

/// Carries out a claim on the state in place.
pub(crate) fn claim_rewards(
    state: &mut State,
    env: &Env,
    info: &MessageInfo,
    locker_id: u64,
    pool_ids: &Vec<u64>,
) -> (r: Result<Response, ContractError>)
    ensures
        match r {
            Ok(response) => rewards_claimed(
                old(state)@,
                env.block_time,
                info.sender,
                locker_id,
                pool_ids@,
            ) == Ok::<(StateView, ResponseView), ContractError>((final(state)@, response@)),
            Err(e) => rewards_claimed(
                old(state)@,
                env.block_time,
                info.sender,
                locker_id,
                pool_ids@,
            ) == Err::<(StateView, ResponseView), ContractError>(e),
        },
{
    let k = match find_stake(&state.user_stakes, locker_id) {
        Some(k) => k,
        None => {
            return Err(ContractError::StakeNotFound);
        },
    };
    if state.user_stakes[k].user != info.sender {
        return Err(ContractError::Unauthorized);
    }
    let referrer = load_referrer(state, &info.sender);
    let mut messages: Vec<CosmosMsg> = Vec::new();
    let mut total_claimed: u128 = 0;
    let ghost start = ClaimProgress { state: state@, messages: Seq::empty(), total_claimed: 0 };
    let ghost now = env.block_time;
    let ghost sender = info.sender;
    let mut n: usize = 0;
    while n < pool_ids.len()
        invariant
            n <= pool_ids.len(),
            claim_pools(start, now, sender, referrer, locker_id, pool_ids@, 0) == claim_pools(
                ClaimProgress { state: state@, messages: messages@, total_claimed },
                now,
                sender,
                referrer,
                locker_id,
                pool_ids@,
                n as int,
            ),
            rewards_claimed(old(state)@, now, sender, locker_id, pool_ids@) == claim_finished(
                claim_pools(start, now, sender, referrer, locker_id, pool_ids@, 0),
            ),
            now == env.block_time,
            sender == info.sender,
        decreases pool_ids.len() - n,
    {
        match claim_from_pool(
            state,
            env,
            &info.sender,
            &referrer,
            locker_id,
            pool_ids[n],
            &mut messages,
            &mut total_claimed,
        ) {
            Ok(()) => {},
            Err(e) => {
                return Err(e);
            },
        }
        n = n + 1;
    }
    if messages.len() == 0 {
        return Err(ContractError::NoRewards);
    }
    let response = Response::new().add_messages(messages).add_attribute_str(
        "action",
        "claim_rewards",
    ).add_attribute("total_claimed", amount_text(total_claimed));
    assert(response@.attributes =~= claim_response(messages@, total_claimed).attributes);
    assert(response@.messages =~= messages@);
    Ok(response)
}

/// A batch of claims by `sender` carried through the positions `locker_ids`
/// from index `from` on, each in the pools `pool_ids`; the first refusal ends
/// it. The answers are joined in order.
pub open spec fn batch_claimed(
    s: StateView,
    now: u64,
    sender: String,
    locker_ids: Seq<u64>,
    pool_ids: Seq<u64>,
    from: int,
    response: ResponseView,
) -> Result<(StateView, ResponseView), ContractError>
    decreases locker_ids.len() - from,
{
    if from < 0 || from >= locker_ids.len() {
        Ok((s, response))
    } else {
        match rewards_claimed(s, now, sender, locker_ids[from], pool_ids) {
            Err(e) => Err(e),
            Ok((after, part)) => batch_claimed(
                after,
                now,
                sender,
                locker_ids,
                pool_ids,
                from + 1,
                ResponseView {
                    messages: response.messages + part.messages,
                    attributes: response.attributes + part.attributes,
                },
            ),
        }
    }
}

/// A batch claim: refused beyond the batch limit, else a claim for each
/// position in turn.
pub open spec fn batch_rewards_claimed(
    s: StateView,
    now: u64,
    sender: String,
    locker_ids: Seq<u64>,
    pool_ids: Seq<u64>,
) -> Result<(StateView, ResponseView), ContractError> {
    if locker_ids.len() > s.config.batch_limit {
        Err(ContractError::Std(StdError::BatchLimitExceeded))
    } else {
        batch_claimed(
            s,
            now,
            sender,
            locker_ids,
            pool_ids,
            0,
            ResponseView {
                messages: Seq::empty(),
                attributes: seq![("action"@, "batch_claim_rewards"@)],
            },
        )
    }
}

/// Claims for each of the positions `locker_ids` in turn. One rejected claim
/// rejects the batch, and nothing changes.
pub fn execute_batch_claim_rewards(
    state: &mut State,
    env: &Env,
    info: &MessageInfo,
    locker_ids: &Vec<u64>,
    pool_ids: &Vec<u64>,
) -> (r: Result<Response, ContractError>)
    ensures
        match r {
            Ok(response) => batch_rewards_claimed(
                old(state)@,
                env.block_time,
                info.sender,
                locker_ids@,
                pool_ids@,
            ) == Ok::<(StateView, ResponseView), ContractError>((final(state)@, response@)),
            Err(e) => batch_rewards_claimed(
                old(state)@,
                env.block_time,
                info.sender,
                locker_ids@,
                pool_ids@,
            ) == Err::<(StateView, ResponseView), ContractError>(e) && final(state)@ == old(state)@,
        },
{
    let snapshot = state.clone();
    let r = batch_claim_rewards(state, env, info, locker_ids, pool_ids);
    if r.is_err() {
        *state = snapshot;
    }
    r
}

/// Carries out a batch of claims on the state in place.
pub(crate) fn batch_claim_rewards(
    state: &mut State,
    env: &Env,
    info: &MessageInfo,
    locker_ids: &Vec<u64>,
    pool_ids: &Vec<u64>,
) -> (r: Result<Response, ContractError>)
    ensures
        match r {
            Ok(response) => batch_rewards_claimed(
                old(state)@,
                env.block_time,
                info.sender,
                locker_ids@,
                pool_ids@,
            ) == Ok::<(StateView, ResponseView), ContractError>((final(state)@, response@)),
            Err(e) => batch_rewards_claimed(
                old(state)@,
                env.block_time,
                info.sender,
                locker_ids@,
                pool_ids@,
            ) == Err::<(StateView, ResponseView), ContractError>(e),
        },
{
    if locker_ids.len() > state.config.batch_limit as usize {
        return Err(ContractError::Std(StdError::BatchLimitExceeded));
    }
    let mut response = Response::new().add_attribute_str("action", "batch_claim_rewards");
    let ghost first = response@;
    assert(first.attributes =~= seq![("action"@, "batch_claim_rewards"@)]);
    let mut n: usize = 0;
    while n < locker_ids.len()
        invariant
            n <= locker_ids.len(),
            batch_rewards_claimed(old(state)@, env.block_time, info.sender, locker_ids@, pool_ids@)
                == batch_claimed(
                state@,
                env.block_time,
                info.sender,
                locker_ids@,
                pool_ids@,
                n as int,
                response@,
            ),
        decreases locker_ids.len() - n,
    {
        let part = match claim_rewards(state, env, info, locker_ids[n], pool_ids) {
            Ok(part) => part,
            Err(e) => {
                return Err(e);
            },
        };
        response = response.merge(part);
        n = n + 1;
    }
    Ok(response)
}

} // verus!
