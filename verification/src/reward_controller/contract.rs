//! The entry points of the reward controller.
//!
//! A rejected call leaves the state as it was.

use vstd::prelude::*;
use crate::host::{Env, MessageInfo, Response, ResponseView};
use crate::reward_controller::admin::{
    config_updated, cw20_received, execute_claim_referral_rewards, execute_create_pool,
    execute_deposit_rewards, execute_pause, execute_receive, execute_register_referral,
    execute_resume, execute_update_config, execute_update_pool, execute_withdraw_rewards,
    first_fund, paused_set, plain_response, pool_created, referral_registered,
    referral_rewards_claimed, reward_pool_updated, rewards_deposited, rewards_withdrawn,
};
use crate::reward_controller::claim::{
    batch_rewards_claimed, execute_batch_claim_rewards, execute_claim_rewards, rewards_claimed,
};
use crate::reward_controller::error::ContractError;
use crate::reward_controller::hooks::{execute_locker_hook, locker_hook_handled};
use crate::reward_controller::msg::{
    ExecuteMsg, InstantiateMsg, MigrateMsg, QueryMsg, QueryResponse,
};
use crate::reward_controller::query::{
    config_response, pending_queried, pool_queried, pools_after, query_all_pools, query_config,
    query_pending_rewards, query_pool, query_referrer_balances, query_user_stake,
    referrer_balances_page, stake_queried, first_page, page_size,
};
use crate::reward_controller::state::{RewardConfig, State, StateView};

verus! {

/// The claim interval of a controller that was given none: one hour.
pub const DEFAULT_CLAIM_INTERVAL: u64 = 3600;

/// The commission of a new controller: five percent.
pub const DEFAULT_COMMISSION_BPS: u16 = 500;

/// The batch limit of a new controller.
pub const DEFAULT_BATCH_LIMIT: u32 = 20;

/// The state of a controller that was just set up.
pub open spec fn initial_state(msg: InstantiateMsg) -> StateView {
    StateView {
        config: RewardConfig {
            admin: msg.admin,
            lp_locker_contract: msg.lp_locker_contract,
            paused: false,
            claim_interval: match msg.claim_interval {
                Some(interval) => interval,
                None => DEFAULT_CLAIM_INTERVAL,
            },
            next_pool_id: 0,
            referral_commission_bps: DEFAULT_COMMISSION_BPS,
            batch_limit: DEFAULT_BATCH_LIMIT,
        },
        pools: Seq::empty(),
        user_stakes: Seq::empty(),
        user_rewards: Seq::empty(),
        total_staked: Seq::empty(),
        referrals: Seq::empty(),
        referrer_balances: Seq::empty(),
    }
}

/// Sets up a controller without pools or positions.
pub fn instantiate(env: &Env, info: &MessageInfo, msg: InstantiateMsg) -> (r: (State, Response))
    ensures
        r.0@ == initial_state(msg),
        r.1@ == (ResponseView {
            messages: Seq::empty(),
            attributes: seq![
                ("method"@, "instantiate"@),
                ("admin"@, msg.admin@),
                ("lp_locker_contract"@, msg.lp_locker_contract@),
            ],
        }),
{
    let response = Response::new().add_attribute_str("method", "instantiate").add_attribute(
        "admin",
        msg.admin.clone(),
    ).add_attribute("lp_locker_contract", msg.lp_locker_contract.clone());
    assert(response@.attributes =~= seq![
        ("method"@, "instantiate"@),
        ("admin"@, msg.admin@),
        ("lp_locker_contract"@, msg.lp_locker_contract@),
    ]);
    let state = State {
        config: RewardConfig {
            admin: msg.admin,
            lp_locker_contract: msg.lp_locker_contract,
            paused: false,
            claim_interval: match msg.claim_interval {
                Some(interval) => interval,
                None => DEFAULT_CLAIM_INTERVAL,
            },
            next_pool_id: 0,
            referral_commission_bps: DEFAULT_COMMISSION_BPS,
            batch_limit: DEFAULT_BATCH_LIMIT,
        },
        pools: Vec::new(),
        user_stakes: Vec::new(),
        user_rewards: Vec::new(),
        total_staked: Vec::new(),
        referrals: Vec::new(),
        referrer_balances: Vec::new(),
    };
    (state, response)
}

/// What a call does to the state and what it answers, or why it is
/// rejected.
pub open spec fn executed(s: StateView, env: Env, info: MessageInfo, msg: ExecuteMsg) -> Result<
    (StateView, ResponseView),
    ContractError,
> {
    match msg {
        ExecuteMsg::Receive(wrapper) => cw20_received(s, info.sender, wrapper),
        ExecuteMsg::LockerHook(hook) => locker_hook_handled(s, env.block_time, info.sender, hook),
        ExecuteMsg::ClaimRewards { locker_id, pool_ids } => rewards_claimed(
            s,
            env.block_time,
            info.sender,
            locker_id,
            pool_ids@,
        ),
        ExecuteMsg::BatchClaimRewards { locker_ids, pool_ids } => batch_rewards_claimed(
            s,
            env.block_time,
            info.sender,
            locker_ids@,
            pool_ids@,
        ),
        ExecuteMsg::RegisterReferral { referrer } => referral_registered(s, info.sender, referrer),
        ExecuteMsg::ClaimReferralRewards {  } => referral_rewards_claimed(s, info.sender),
        ExecuteMsg::CreateRewardPool { lp_token, reward_token, apr, dynamic_config } => pool_created(
            s,
            env.block_time,
            info.sender,
            lp_token,
            reward_token,
            apr,
            dynamic_config,
        ),
        ExecuteMsg::UpdateRewardPool { pool_id, apr, dynamic_config, enabled } => reward_pool_updated(
            s,
            env.block_time,
            info.sender,
            pool_id,
            apr,
            dynamic_config,
            enabled,
        ),
        ExecuteMsg::DepositRewards { pool_id } => rewards_deposited(
            s,
            info.sender,
            pool_id,
            first_fund(info),
        ),
        ExecuteMsg::WithdrawRewards { pool_id, amount } => rewards_withdrawn(
            s,
            info.sender,
            pool_id,
            amount,
        ),
        ExecuteMsg::UpdateConfig {
            admin,
            lp_locker_contract,
            claim_interval,
            referral_commission_bps,
            batch_limit,
        } => config_updated(
            s,
            info.sender,
            admin,
            lp_locker_contract,
            claim_interval,
            referral_commission_bps,
            batch_limit,
        ),
        ExecuteMsg::Pause {  } => paused_set(s, info.sender, true),
        ExecuteMsg::Resume {  } => paused_set(s, info.sender, false),
    }
}

/// Carries out one call. A rejected call changes nothing.
pub fn execute(state: &mut State, env: &Env, info: &MessageInfo, msg: ExecuteMsg) -> (r: Result<
    Response,
    ContractError,
>)
    ensures
        match r {
            Ok(response) => executed(old(state)@, *env, *info, msg) == Ok::<
                (StateView, ResponseView),
                ContractError,
            >((final(state)@, response@)),
            Err(e) => executed(old(state)@, *env, *info, msg) == Err::<
                (StateView, ResponseView),
                ContractError,
            >(e) && final(state)@ == old(state)@,
        },
{
    match msg {
        ExecuteMsg::Receive(wrapper) => execute_receive(state, env, info, wrapper),
        ExecuteMsg::LockerHook(hook) => execute_locker_hook(state, env, info, hook),
        ExecuteMsg::ClaimRewards { locker_id, pool_ids } => execute_claim_rewards(
            state,
            env,
            info,
            locker_id,
            &pool_ids,
        ),
        ExecuteMsg::BatchClaimRewards { locker_ids, pool_ids } => execute_batch_claim_rewards(
            state,
            env,
            info,
            &locker_ids,
            &pool_ids,
        ),
        ExecuteMsg::RegisterReferral { referrer } => execute_register_referral(
            state,
            info,
            referrer,
        ),
        ExecuteMsg::ClaimReferralRewards {  } => execute_claim_referral_rewards(state, env, info),
        ExecuteMsg::CreateRewardPool {
            lp_token,
            reward_token,
            apr,
            dynamic_config,
        } => execute_create_pool(state, env, info, lp_token, reward_token, apr, dynamic_config),
        ExecuteMsg::UpdateRewardPool {
            pool_id,
            apr,
            dynamic_config,
            enabled,
        } => execute_update_pool(state, env, info, pool_id, apr, dynamic_config, enabled),
        ExecuteMsg::DepositRewards { pool_id } => execute_deposit_rewards(
            state,
            env,
            info,
            pool_id,
        ),
        ExecuteMsg::WithdrawRewards { pool_id, amount } => execute_withdraw_rewards(
            state,
            env,
            info,
            pool_id,
            amount,
        ),
        ExecuteMsg::UpdateConfig {
            admin,
            lp_locker_contract,
            claim_interval,
            referral_commission_bps,
            batch_limit,
        } => execute_update_config(
            state,
            info,
            admin,
            lp_locker_contract,
            claim_interval,
            referral_commission_bps,
            batch_limit,
        ),
        ExecuteMsg::Pause {  } => execute_pause(state, info),
        ExecuteMsg::Resume {  } => execute_resume(state, info),
    }
}

/// Whether `r` answers the question `msg` about the state at the block
/// time of `env`.
pub open spec fn answers(s: StateView, env: Env, msg: QueryMsg, r: Result<
    QueryResponse,
    ContractError,
>) -> bool {
    match msg {
        QueryMsg::Config {  } => r == Ok::<QueryResponse, ContractError>(
            QueryResponse::Config(config_response(s)),
        ),
        QueryMsg::RewardPool { pool_id } => match pool_queried(s, pool_id) {
            Ok(pool) => r == Ok::<QueryResponse, ContractError>(QueryResponse::RewardPool(pool)),
            Err(e) => r == Err::<QueryResponse, ContractError>(e),
        },
        QueryMsg::AllRewardPools { start_after, limit } => match r {
            Ok(QueryResponse::AllRewardPools(pools)) => pools@ == first_page(
                pools_after(s.pools, start_after),
                page_size(limit),
            ),
            _ => false,
        },
        QueryMsg::UserStake { user, locker_id } => match stake_queried(s, locker_id) {
            Ok(stake) => r == Ok::<QueryResponse, ContractError>(QueryResponse::UserStake(stake)),
            Err(e) => r == Err::<QueryResponse, ContractError>(e),
        },
        QueryMsg::PendingRewards { user, pool_id } => match pending_queried(
            s,
            env.block_time,
            user@,
            pool_id,
        ) {
            Ok(pending) => r == Ok::<QueryResponse, ContractError>(
                QueryResponse::PendingRewards(pending),
            ),
            Err(e) => r == Err::<QueryResponse, ContractError>(e),
        },
        QueryMsg::ReferrerBalances { referrer, start_after, limit } => match r {
            Ok(QueryResponse::ReferrerBalances(page)) => page.referrer == referrer
                && page.balances@ == referrer_balances_page(s, referrer@, start_after, limit),
            _ => false,
        },
    }
}

/// Answers one question. Nothing is written.
pub fn query(state: &State, env: &Env, msg: QueryMsg) -> (r: Result<QueryResponse, ContractError>)
    ensures
        answers(state@, *env, msg, r),
{
    match msg {
        QueryMsg::Config {  } => Ok(QueryResponse::Config(query_config(state))),
        QueryMsg::RewardPool { pool_id } => match query_pool(state, pool_id) {
            Ok(pool) => Ok(QueryResponse::RewardPool(pool)),
            Err(e) => Err(e),
        },
        QueryMsg::AllRewardPools { start_after, limit } => Ok(
            QueryResponse::AllRewardPools(query_all_pools(state, start_after, limit)),
        ),
        QueryMsg::UserStake { user, locker_id } => match query_user_stake(state, &user, locker_id) {
            Ok(stake) => Ok(QueryResponse::UserStake(stake)),
            Err(e) => Err(e),
        },
        QueryMsg::PendingRewards { user, pool_id } => match query_pending_rewards(
            state,
            env,
            &user,
            pool_id,
        ) {
            Ok(pending) => Ok(QueryResponse::PendingRewards(pending)),
            Err(e) => Err(e),
        },
        QueryMsg::ReferrerBalances { referrer, start_after, limit } => Ok(
            QueryResponse::ReferrerBalances(
                query_referrer_balances(state, referrer, start_after, limit),
            ),
        ),
    }
}

/// Takes over the state of an earlier version, which has the same form.
pub fn migrate(state: &mut State, env: &Env, msg: MigrateMsg) -> (r: Result<Response, ContractError>)
    ensures
        final(state)@ == old(state)@,
        r is Ok,
        r.unwrap()@ == plain_response("migrate"@),
{
    let response = Response::new().add_attribute_str("action", "migrate");
    assert(response@.attributes =~= plain_response("migrate"@).attributes);
    Ok(response)
}

/// Whether `sender` may make the call `msg` at all: a notification comes
/// from the lock registry alone, and the pools, their funding and the
/// settings are the administrator's. Tokens received are judged by who sent
/// them, when the call is carried out.
pub open spec fn caller_admitted(s: StateView, sender: String, msg: ExecuteMsg) -> bool {
    match msg {
        ExecuteMsg::LockerHook(_) => sender@ == s.config.lp_locker_contract@,
        ExecuteMsg::CreateRewardPool { .. } => sender@ == s.config.admin@,
        ExecuteMsg::UpdateRewardPool { .. } => sender@ == s.config.admin@,
        ExecuteMsg::DepositRewards { .. } => sender@ == s.config.admin@,
        ExecuteMsg::WithdrawRewards { .. } => sender@ == s.config.admin@,
        ExecuteMsg::UpdateConfig { .. } => sender@ == s.config.admin@,
        ExecuteMsg::Pause {  } => sender@ == s.config.admin@,
        ExecuteMsg::Resume {  } => sender@ == s.config.admin@,
        _ => true,
    }
}

/// A caller who may not make a call is refused as unauthorized, whatever
/// else the call holds.
pub proof fn lemma_unadmitted_caller_is_refused(
    s: StateView,
    env: Env,
    info: MessageInfo,
    msg: ExecuteMsg,
)
    requires
        !caller_admitted(s, info.sender, msg),
    ensures
        executed(s, env, info, msg) == Err::<(StateView, ResponseView), ContractError>(
            ContractError::Unauthorized,
        ),
{
}

/// Tells whether the caller may make the call at all, before anything else
/// of the call is looked at. Who is refused here is refused by `execute` too,
/// with the same error.
pub fn check_caller(state: &State, info: &MessageInfo, msg: &ExecuteMsg) -> (r: Result<
    (),
    ContractError,
>)
    ensures
        r == (if caller_admitted(state@, info.sender, *msg) {
            Ok::<(), ContractError>(())
        } else {
            Err::<(), ContractError>(ContractError::Unauthorized)
        }),
{
    let admitted = match msg {
        ExecuteMsg::LockerHook(_) => info.sender == state.config.lp_locker_contract,
        ExecuteMsg::CreateRewardPool { .. } => info.sender == state.config.admin,
        ExecuteMsg::UpdateRewardPool { .. } => info.sender == state.config.admin,
        ExecuteMsg::DepositRewards { .. } => info.sender == state.config.admin,
        ExecuteMsg::WithdrawRewards { .. } => info.sender == state.config.admin,
        ExecuteMsg::UpdateConfig { .. } => info.sender == state.config.admin,
        ExecuteMsg::Pause {  } => info.sender == state.config.admin,
        ExecuteMsg::Resume {  } => info.sender == state.config.admin,
        _ => true,
    };
    if admitted {
        Ok(())
    } else {
        Err(ContractError::Unauthorized)
    }
}

} // verus!
