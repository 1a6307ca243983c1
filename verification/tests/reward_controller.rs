use reward_engine::asset::AssetInfo;
use reward_engine::host::{Coin, CosmosMsg, Env, MessageInfo};
use reward_engine::math::Decimal;
use reward_engine::reward_controller::contract::{check_caller, execute, instantiate, query};
use reward_engine::reward_controller::error::{ContractError, StdError};
use reward_engine::reward_controller::msg::{
    Cw20HookMsg, Cw20ReceiveMsg, ExecuteMsg, InstantiateMsg, LockerHookMsg, QueryMsg,
    QueryResponse,
};
use reward_engine::reward_controller::state::{DynamicAPRConfig, State};

fn mock_env() -> Env {
    Env { block_time: 1_571_797_419 }
}

fn mock_info(sender: &str, funds: Vec<Coin>) -> MessageInfo {
    MessageInfo { sender: sender.to_string(), funds }
}

fn setup(claim_interval: Option<u64>) -> State {
    let (state, _) = instantiate(
        &mock_env(),
        &mock_info("admin", vec![]),
        InstantiateMsg {
            admin: "admin".to_string(),
            lp_locker_contract: "locker".to_string(),
            claim_interval,
        },
    );
    state
}

fn create_pool(state: &mut State, env: &Env, dynamic_config: Option<DynamicAPRConfig>) {
    execute(
        state,
        env,
        &mock_info("admin", vec![]),
        ExecuteMsg::CreateRewardPool {
            lp_token: "lp_token".to_string(),
            reward_token: AssetInfo::Native("paxi".to_string()),
            apr: Decimal::percent(10),
            dynamic_config,
        },
    )
    .unwrap();
}

fn deposit(state: &mut State, env: &Env, amount: u128) {
    execute(
        state,
        env,
        &mock_info("admin", vec![Coin { denom: "paxi".to_string(), amount }]),
        ExecuteMsg::DepositRewards { pool_id: 0 },
    )
    .unwrap();
}

fn lock(state: &mut State, env: &Env, locker_id: u64, owner: &str, amount: u128, days: u64) {
    execute(
        state,
        env,
        &mock_info("locker", vec![]),
        ExecuteMsg::LockerHook(LockerHookMsg::OnLock {
            locker_id,
            owner: owner.to_string(),
            lp_token: "lp_token".to_string(),
            amount,
            locked_at: env.block_time,
            unlock_time: env.block_time + days * 86400,
        }),
    )
    .unwrap();
}

fn pending(state: &State, env: &Env, user: &str, pool_id: u64) -> u128 {
    match query(state, env, QueryMsg::PendingRewards { user: user.to_string(), pool_id }).unwrap() {
        QueryResponse::PendingRewards(res) => res.pending_amount,
        other => panic!("unexpected answer {:?}", other),
    }
}

fn pool_apr(state: &State, env: &Env) -> Decimal {
    match query(state, env, QueryMsg::RewardPool { pool_id: 0 }).unwrap() {
        QueryResponse::RewardPool(pool) => pool.apr,
        other => panic!("unexpected answer {:?}", other),
    }
}

fn multiplier(state: &State, env: &Env, locker_id: u64) -> Decimal {
    match query(state, env, QueryMsg::UserStake { user: "user".to_string(), locker_id }).unwrap() {
        QueryResponse::UserStake(stake) => stake.bonus_multiplier,
        other => panic!("unexpected answer {:?}", other),
    }
}

#[test]
fn test_reward_accrual_flow() {
    let mut env = mock_env();
    let mut state = setup(Some(0));
    create_pool(&mut state, &env, None);
    deposit(&mut state, &env, 1000000);
    lock(&mut state, &env, 1, "user", 1000, 365);

    env.block_time += 365 * 86400;

    let pending_amount = pending(&state, &env, "user", 0);
    assert!(
        pending_amount >= 249 && pending_amount <= 251,
        "Expected ~250, got {}",
        pending_amount
    );

    let res = execute(
        &mut state,
        &env,
        &mock_info("user", vec![]),
        ExecuteMsg::ClaimRewards { locker_id: 1, pool_ids: vec![0] },
    )
    .unwrap();
    assert_eq!(res.attributes[0].value, "claim_rewards");
    assert_eq!(res.attributes[1].value, "250");

    env.block_time += 365 * 86400;

    let res = execute(
        &mut state,
        &env,
        &mock_info("locker", vec![]),
        ExecuteMsg::LockerHook(LockerHookMsg::OnUnlock { locker_id: 1, owner: "user".to_string() }),
    )
    .unwrap();
    assert_eq!(res.attributes[0].value, "locker_hook");
    assert_eq!(res.attributes[1].value, "on_unlock_auto_claim");

    let res = query(&state, &env, QueryMsg::UserStake { user: "user".to_string(), locker_id: 1 });
    assert!(res.is_err());
}

#[test]
fn test_multiplier_extension() {
    let mut env = mock_env();
    let mut state = setup(Some(0));
    create_pool(&mut state, &env, None);

    let locked_at = env.block_time;
    let unlock_time = locked_at + 40 * 86400;
    lock(&mut state, &env, 1, "user", 1000, 40);
    assert_eq!(multiplier(&state, &env, 1), Decimal::from_ratio(12u128, 10u128));

    env.block_time += 35 * 86400;

    let new_unlock_time = unlock_time + 60 * 86400;
    execute(
        &mut state,
        &env,
        &mock_info("locker", vec![]),
        ExecuteMsg::LockerHook(LockerHookMsg::OnExtend { locker_id: 1, new_unlock_time }),
    )
    .unwrap();

    assert_eq!(multiplier(&state, &env, 1), Decimal::from_ratio(15u128, 10u128));
}

#[test]
fn test_referral_system() {
    let mut env = mock_env();
    let mut state = setup(Some(0));
    create_pool(&mut state, &env, None);
    deposit(&mut state, &env, 1000000);

    execute(
        &mut state,
        &env,
        &mock_info("userb", vec![]),
        ExecuteMsg::RegisterReferral { referrer: "usera".to_string() },
    )
    .unwrap();

    lock(&mut state, &env, 1, "userb", 100000, 365);
    env.block_time += 365 * 86400;

    let res = execute(
        &mut state,
        &env,
        &mock_info("userb", vec![]),
        ExecuteMsg::ClaimRewards { locker_id: 1, pool_ids: vec![0] },
    )
    .unwrap();
    assert_eq!(
        res.messages,
        vec![CosmosMsg::BankSend {
            to_address: "userb".to_string(),
            denom: "paxi".to_string(),
            amount: 23750,
        }]
    );

    let res = query(
        &state,
        &env,
        QueryMsg::ReferrerBalances { referrer: "usera".to_string(), start_after: None, limit: None },
    )
    .unwrap();
    match res {
        QueryResponse::ReferrerBalances(res) => assert_eq!(res.balances[0].amount, 1250),
        other => panic!("unexpected answer {:?}", other),
    }

    let res = execute(
        &mut state,
        &env,
        &mock_info("usera", vec![]),
        ExecuteMsg::ClaimReferralRewards {},
    )
    .unwrap();
    assert_eq!(res.attributes[0].value, "claim_referral_rewards");
    assert_eq!(
        res.messages,
        vec![CosmosMsg::BankSend {
            to_address: "usera".to_string(),
            denom: "paxi".to_string(),
            amount: 1250,
        }]
    );

    let again = execute(
        &mut state,
        &env,
        &mock_info("usera", vec![]),
        ExecuteMsg::ClaimReferralRewards {},
    );
    assert_eq!(again, Err(ContractError::NoRewards));
}

#[test]
fn test_dynamic_apr() {
    let mut env = mock_env();
    let mut state = setup(Some(0));
    let dynamic_config = DynamicAPRConfig {
        base_apr: Decimal::percent(10),
        tvl_threshold_low: 5000,
        tvl_threshold_high: 15000,
        adjustment_factor: Decimal::percent(5),
    };
    create_pool(&mut state, &env, Some(dynamic_config));
    deposit(&mut state, &env, 1000000);

    lock(&mut state, &env, 1, "user1", 1000, 365);
    assert_eq!(pool_apr(&state, &env), Decimal::percent(15));

    lock(&mut state, &env, 2, "user2", 9000, 365);
    env.block_time += 864000;
    execute(
        &mut state,
        &env,
        &mock_info("user1", vec![]),
        ExecuteMsg::ClaimRewards { locker_id: 1, pool_ids: vec![0] },
    )
    .unwrap();
    // the thresholds are weights: 10000 locked for a year weigh 25000
    assert_eq!(state.total_staked[0].amount, 10000);
    assert_eq!(state.total_staked[0].weight, 25000);
    assert_eq!(pool_apr(&state, &env), Decimal::percent(5));

    lock(&mut state, &env, 3, "user3", 10000, 365);
    env.block_time += 864000;
    execute(
        &mut state,
        &env,
        &mock_info("user1", vec![]),
        ExecuteMsg::ClaimRewards { locker_id: 1, pool_ids: vec![0] },
    )
    .unwrap();
    assert_eq!(pool_apr(&state, &env), Decimal::percent(5));
}

#[test]
fn dynamic_apr_passes_through_all_three_bands() {
    let mut env = mock_env();
    let mut state = setup(Some(0));
    let dynamic_config = DynamicAPRConfig {
        base_apr: Decimal::percent(10),
        tvl_threshold_low: 5000,
        tvl_threshold_high: 15000,
        adjustment_factor: Decimal::percent(5),
    };
    create_pool(&mut state, &env, Some(dynamic_config));
    deposit(&mut state, &env, 1000000);
    let claim = |state: &mut State, env: &Env| {
        execute(
            state,
            env,
            &mock_info("user1", vec![]),
            ExecuteMsg::ClaimRewards { locker_id: 1, pool_ids: vec![0] },
        )
        .unwrap();
    };

    // locks of thirty days weigh what they hold
    lock(&mut state, &env, 1, "user1", 1000, 30);
    assert_eq!(pool_apr(&state, &env), Decimal::percent(15));

    lock(&mut state, &env, 2, "user2", 9000, 30);
    env.block_time += 864000;
    claim(&mut state, &env);
    assert_eq!(state.total_staked[0].weight, 10000);
    assert_eq!(pool_apr(&state, &env), Decimal::percent(10));

    lock(&mut state, &env, 3, "user3", 10000, 30);
    env.block_time += 864000;
    claim(&mut state, &env);
    assert_eq!(state.total_staked[0].weight, 20000);
    assert_eq!(pool_apr(&state, &env), Decimal::percent(5));
}

#[test]
fn extension_moves_the_total_weight_by_new_less_old() {
    let mut env = mock_env();
    let mut state = setup(Some(0));
    let dynamic_config = DynamicAPRConfig {
        base_apr: Decimal::percent(10),
        tvl_threshold_low: 2000,
        tvl_threshold_high: 2400,
        adjustment_factor: Decimal::percent(5),
    };
    create_pool(&mut state, &env, Some(dynamic_config));
    lock(&mut state, &env, 1, "user", 1000, 40);
    lock(&mut state, &env, 2, "other", 1000, 10);
    assert_eq!(state.total_staked[0].amount, 2000);
    assert_eq!(state.total_staked[0].weight, 2200);

    env.block_time += 35 * 86400;
    let locked_at = env.block_time - 35 * 86400;
    execute(
        &mut state,
        &env,
        &mock_info("locker", vec![]),
        ExecuteMsg::LockerHook(LockerHookMsg::OnExtend {
            locker_id: 1,
            new_unlock_time: locked_at + 100 * 86400,
        }),
    )
    .unwrap();
    // the settlement saw 2200, between the thresholds
    assert_eq!(pool_apr(&state, &env), Decimal::percent(10));
    assert_eq!(state.total_staked[0].amount, 2000);
    assert_eq!(state.total_staked[0].weight, 2500);

    env.block_time += 1;
    execute(
        &mut state,
        &env,
        &mock_info("locker", vec![]),
        ExecuteMsg::LockerHook(LockerHookMsg::OnUnlock { locker_id: 2, owner: "other".to_string() }),
    )
    .unwrap();
    // the close settled at 2500, above the high threshold
    assert_eq!(pool_apr(&state, &env), Decimal::percent(5));
    assert_eq!(state.total_staked[0].amount, 1000);
    assert_eq!(state.total_staked[0].weight, 1500);
}

#[test]
fn referral_balance_is_paid_to_the_referrer_alone() {
    let mut env = mock_env();
    let mut state = setup(Some(0));
    create_pool(&mut state, &env, None);
    deposit(&mut state, &env, 1000000);
    execute(
        &mut state,
        &env,
        &mock_info("userb", vec![]),
        ExecuteMsg::RegisterReferral { referrer: "usera".to_string() },
    )
    .unwrap();
    lock(&mut state, &env, 1, "userb", 100000, 365);
    env.block_time += 365 * 86400;
    execute(
        &mut state,
        &env,
        &mock_info("userb", vec![]),
        ExecuteMsg::ClaimRewards { locker_id: 1, pool_ids: vec![0] },
    )
    .unwrap();
    assert_eq!(state.pools[0].total_claimed, 25000);
    assert_eq!(state.user_rewards[0].rewards_accrued, 0);
    assert_eq!(state.user_rewards[0].last_claim_time, env.block_time);
    assert_eq!(state.referrer_balances[0].amount, 1250);

    let before = state.clone();
    let other = execute(
        &mut state,
        &env,
        &mock_info("userb", vec![]),
        ExecuteMsg::ClaimReferralRewards {},
    );
    assert_eq!(other, Err(ContractError::NoRewards));
    assert_eq!(state, before);

    let res = execute(
        &mut state,
        &env,
        &mock_info("usera", vec![]),
        ExecuteMsg::ClaimReferralRewards {},
    )
    .unwrap();
    assert_eq!(
        res.messages,
        vec![CosmosMsg::BankSend {
            to_address: "usera".to_string(),
            denom: "paxi".to_string(),
            amount: 1250,
        }]
    );
    assert!(state.referrer_balances.is_empty());
    assert_eq!(state.pools[0].total_claimed, 25000);
}

#[test]
fn rejected_call_leaves_the_state_untouched() {
    let mut env = mock_env();
    let mut state = setup(Some(3600));
    create_pool(&mut state, &env, None);
    deposit(&mut state, &env, 1_000_000);
    lock(&mut state, &env, 1, "user", 1000, 365);
    env.block_time += 1800;
    let (mut twin, _) = instantiate(
        &mock_env(),
        &mock_info("admin", vec![]),
        InstantiateMsg {
            admin: "admin".to_string(),
            lp_locker_contract: "locker".to_string(),
            claim_interval: Some(3600),
        },
    );
    create_pool(&mut twin, &mock_env(), None);
    deposit(&mut twin, &mock_env(), 1_000_000);
    lock(&mut twin, &mock_env(), 1, "user", 1000, 365);

    // half an hour at 10% on weight 2500 accrues nothing yet
    let res = execute(
        &mut state,
        &env,
        &mock_info("user", vec![]),
        ExecuteMsg::ClaimRewards { locker_id: 1, pool_ids: vec![0] },
    );
    assert_eq!(res, Err(ContractError::NoRewards));
    assert_eq!(state, twin);

    let res = execute(
        &mut state,
        &env,
        &mock_info("stranger", vec![]),
        ExecuteMsg::ClaimRewards { locker_id: 1, pool_ids: vec![0] },
    );
    assert_eq!(res, Err(ContractError::Unauthorized));
    assert_eq!(state, twin);
}

#[test]
fn claim_is_throttled_by_the_claim_interval() {
    let mut env = mock_env();
    let mut state = setup(Some(3600));
    create_pool(&mut state, &env, None);
    deposit(&mut state, &env, 1_000_000);
    lock(&mut state, &env, 1, "user", 1_000_000, 365);

    // the checkpoint is stamped at the lock; 3599 s later a claim is too soon
    env.block_time += 3599;
    let res = execute(
        &mut state,
        &env,
        &mock_info("user", vec![]),
        ExecuteMsg::ClaimRewards { locker_id: 1, pool_ids: vec![0] },
    );
    assert_eq!(res, Err(ContractError::ClaimTooSoon));

    env.block_time += 1;
    let res = execute(
        &mut state,
        &env,
        &mock_info("user", vec![]),
        ExecuteMsg::ClaimRewards { locker_id: 1, pool_ids: vec![0] },
    )
    .unwrap();
    // weight 2_500_000, rate 0.1, 3600 / 31_536_000 of a year
    assert_eq!(res.attributes[1].value, "28");
}

#[test]
fn underfunded_pool_refuses_the_claim_but_not_the_unlock() {
    let mut env = mock_env();
    let mut state = setup(Some(0));
    create_pool(&mut state, &env, None);
    deposit(&mut state, &env, 100);
    lock(&mut state, &env, 1, "user", 1000, 365);
    env.block_time += 365 * 86400;

    let res = execute(
        &mut state,
        &env,
        &mock_info("user", vec![]),
        ExecuteMsg::ClaimRewards { locker_id: 1, pool_ids: vec![0] },
    );
    assert_eq!(res, Err(ContractError::InsufficientRewards));

    let res = execute(
        &mut state,
        &env,
        &mock_info("locker", vec![]),
        ExecuteMsg::LockerHook(LockerHookMsg::OnUnlock { locker_id: 1, owner: "user".to_string() }),
    )
    .unwrap();
    assert!(res.messages.is_empty());
    assert!(state.user_stakes.is_empty());
    assert!(state.user_rewards.is_empty());
    assert_eq!(state.pools[0].total_claimed, 0);
    assert_eq!(state.total_staked[0].amount, 0);
}

#[test]
fn only_the_registry_may_send_hooks() {
    let env = mock_env();
    let mut state = setup(None);
    let res = execute(
        &mut state,
        &env,
        &mock_info("user", vec![]),
        ExecuteMsg::LockerHook(LockerHookMsg::OnUnlock { locker_id: 1, owner: "user".to_string() }),
    );
    assert_eq!(res, Err(ContractError::Unauthorized));
    let res = execute(
        &mut state,
        &env,
        &mock_info("locker", vec![]),
        ExecuteMsg::LockerHook(LockerHookMsg::OnUnlock { locker_id: 99, owner: "user".to_string() }),
    );
    assert_eq!(res, Err(ContractError::StakeNotFound));
}

#[test]
fn referral_is_set_once_and_never_to_oneself() {
    let env = mock_env();
    let mut state = setup(None);
    let own = execute(
        &mut state,
        &env,
        &mock_info("usera", vec![]),
        ExecuteMsg::RegisterReferral { referrer: "usera".to_string() },
    );
    assert_eq!(own, Err(ContractError::Std(StdError::SelfReferral)));
    execute(
        &mut state,
        &env,
        &mock_info("userb", vec![]),
        ExecuteMsg::RegisterReferral { referrer: "usera".to_string() },
    )
    .unwrap();
    let twice = execute(
        &mut state,
        &env,
        &mock_info("userb", vec![]),
        ExecuteMsg::RegisterReferral { referrer: "userc".to_string() },
    );
    assert_eq!(twice, Err(ContractError::Std(StdError::ReferralAlreadyRegistered)));
    assert_eq!(
        ContractError::Std(StdError::ReferralAlreadyRegistered).message(),
        "Referral already registered"
    );
}

#[test]
fn claim_that_is_all_commission_succeeds() {
    let mut env = mock_env();
    let mut state = setup(Some(0));
    create_pool(&mut state, &env, None);
    deposit(&mut state, &env, 1000000);
    execute(
        &mut state,
        &env,
        &mock_info("admin", vec![]),
        ExecuteMsg::UpdateConfig {
            admin: None,
            lp_locker_contract: None,
            claim_interval: None,
            referral_commission_bps: Some(10000),
            batch_limit: None,
        },
    )
    .unwrap();
    execute(
        &mut state,
        &env,
        &mock_info("userb", vec![]),
        ExecuteMsg::RegisterReferral { referrer: "usera".to_string() },
    )
    .unwrap();
    lock(&mut state, &env, 1, "userb", 100000, 365);
    env.block_time += 365 * 86400;
    assert_eq!(pending(&state, &env, "userb", 0), 25000);

    let res = execute(
        &mut state,
        &env,
        &mock_info("userb", vec![]),
        ExecuteMsg::ClaimRewards { locker_id: 1, pool_ids: vec![0] },
    )
    .unwrap();
    // the payout is made: the transfer is of nothing, the referrer has it all
    assert_eq!(
        res.messages,
        vec![CosmosMsg::BankSend {
            to_address: "userb".to_string(),
            denom: "paxi".to_string(),
            amount: 0,
        }]
    );
    assert_eq!(res.attributes[1].key, "total_claimed");
    assert_eq!(res.attributes[1].value, "0");
    assert_eq!(state.user_rewards[0].rewards_accrued, 0);
    assert_eq!(state.user_rewards[0].last_claim_time, env.block_time);
    assert_eq!(state.pools[0].total_claimed, 25000);
    assert_eq!(state.referrer_balances.len(), 1);
    assert_eq!(state.referrer_balances[0].referrer, "usera");
    assert_eq!(state.referrer_balances[0].amount, 25000);

    // nothing accrued since: now there is nothing to claim
    let before = state.clone();
    let again = execute(
        &mut state,
        &env,
        &mock_info("userb", vec![]),
        ExecuteMsg::ClaimRewards { locker_id: 1, pool_ids: vec![0] },
    );
    assert_eq!(again, Err(ContractError::NoRewards));
    assert_eq!(state, before);

    // a batch goes the same way
    env.block_time += 365 * 86400;
    let res = execute(
        &mut state,
        &env,
        &mock_info("userb", vec![]),
        ExecuteMsg::BatchClaimRewards { locker_ids: vec![1], pool_ids: vec![0, 0] },
    )
    .unwrap();
    assert_eq!(res.messages.len(), 1);
    assert_eq!(state.pools[0].total_claimed, 50000);
    assert_eq!(state.referrer_balances[0].amount, 50000);
}

#[test]
fn tokens_fund_a_pool_only_from_the_administrator() {
    let env = mock_env();
    let mut state = setup(None);
    execute(
        &mut state,
        &env,
        &mock_info("admin", vec![]),
        ExecuteMsg::CreateRewardPool {
            lp_token: "lp_token".to_string(),
            reward_token: AssetInfo::Cw20("reward".to_string()),
            apr: Decimal::percent(10),
            dynamic_config: None,
        },
    )
    .unwrap();
    let funding = |sender: &str, amount: u128| {
        ExecuteMsg::Receive(Cw20ReceiveMsg {
            sender: sender.to_string(),
            amount,
            msg: Cw20HookMsg::DepositRewards { pool_id: 0 },
        })
    };
    let before = state.clone();
    let res = execute(&mut state, &env, &mock_info("reward", vec![]), funding("user", 700));
    assert_eq!(res, Err(ContractError::Unauthorized));
    let res = execute(&mut state, &env, &mock_info("other", vec![]), funding("admin", 700));
    assert_eq!(res, Err(ContractError::Unauthorized));
    assert_eq!(state, before);

    let res = execute(&mut state, &env, &mock_info("reward", vec![]), funding("admin", 700)).unwrap();
    assert_eq!(res.attributes[1].value, "700");
    assert_eq!(state.pools[0].total_deposited, 700);
}

#[test]
fn config_and_funding_are_guarded() {
    let env = mock_env();
    let mut state = setup(None);
    create_pool(&mut state, &env, None);
    deposit(&mut state, &env, 500);

    let res = execute(
        &mut state,
        &env,
        &mock_info("admin", vec![]),
        ExecuteMsg::UpdateConfig {
            admin: None,
            lp_locker_contract: None,
            claim_interval: None,
            referral_commission_bps: Some(10001),
            batch_limit: None,
        },
    );
    assert_eq!(res, Err(ContractError::Std(StdError::InvalidCommissionBps)));

    let res = execute(
        &mut state,
        &env,
        &mock_info("admin", vec![]),
        ExecuteMsg::WithdrawRewards { pool_id: 0, amount: 501 },
    );
    assert_eq!(res, Err(ContractError::InsufficientRewards));
    execute(
        &mut state,
        &env,
        &mock_info("admin", vec![]),
        ExecuteMsg::WithdrawRewards { pool_id: 0, amount: 200 },
    )
    .unwrap();
    assert_eq!(state.pools[0].total_deposited, 300);

    let res = execute(
        &mut state,
        &env,
        &mock_info("admin", vec![]),
        ExecuteMsg::DepositRewards { pool_id: 7 },
    );
    assert_eq!(res, Err(ContractError::PoolNotFound));

    let before = state.clone();
    let res = execute(
        &mut state,
        &env,
        &mock_info("user", vec![Coin { denom: "paxi".to_string(), amount: 10 }]),
        ExecuteMsg::DepositRewards { pool_id: 0 },
    );
    assert_eq!(res, Err(ContractError::Unauthorized));
    assert_eq!(state, before);

    let res = execute(
        &mut state,
        &env,
        &mock_info("user", vec![]),
        ExecuteMsg::BatchClaimRewards { locker_ids: vec![0; 21], pool_ids: vec![0] },
    );
    assert_eq!(res, Err(ContractError::Std(StdError::BatchLimitExceeded)));
}

#[test]
fn asset_keys_tell_tokens_from_denominations() {
    assert_eq!(AssetInfo::Cw20("addr1".to_string()).to_key(), "c:addr1");
    assert_eq!(AssetInfo::Native("paxi".to_string()).to_key(), "n:paxi");
}

#[test]
fn pool_named_twice_pays_once() {
    let mut env = mock_env();
    let mut state = setup(Some(0));
    create_pool(&mut state, &env, None);
    create_pool(&mut state, &env, None);
    deposit(&mut state, &env, 1_000_000);
    lock(&mut state, &env, 1, "user1", 100_000, 365);
    env.block_time += 365 * 86400;

    // the second pool has no funding: alone it refuses, and so does any
    // claim that names it
    let res = execute(
        &mut state,
        &env,
        &mock_info("user1", vec![]),
        ExecuteMsg::ClaimRewards { locker_id: 1, pool_ids: vec![0, 1] },
    );
    assert_eq!(res, Err(ContractError::InsufficientRewards));
    assert_eq!(state.pools[0].total_claimed, 0);

    let res = execute(
        &mut state,
        &env,
        &mock_info("user1", vec![]),
        ExecuteMsg::ClaimRewards { locker_id: 1, pool_ids: vec![0, 0, 0] },
    )
    .unwrap();
    assert_eq!(
        res.messages,
        vec![CosmosMsg::BankSend {
            to_address: "user1".to_string(),
            denom: "paxi".to_string(),
            amount: 25000,
        }]
    );
    assert_eq!(res.attributes[1].value, "25000");
    assert_eq!(state.pools[0].total_claimed, 25000);
    assert_eq!(state.pools[0].total_deposited, 1_000_000);
    assert_eq!(state.pools[0].last_update, env.block_time);
    assert_eq!(state.pools[1].total_claimed, 0);
    assert_eq!(state.user_rewards[0].rewards_accrued, 0);
    assert_eq!(state.user_rewards[0].last_claim_time, env.block_time);
    assert_eq!(
        state.user_rewards[0].reward_per_token_paid,
        state.pools[0].reward_per_token_stored
    );
}

#[test]
fn unlock_pays_what_a_pool_can_pay_and_passes_over_the_rest() {
    let mut env = mock_env();
    let mut state = setup(Some(0));
    create_pool(&mut state, &env, None);
    create_pool(&mut state, &env, None);
    deposit(&mut state, &env, 1_000_000);
    lock(&mut state, &env, 1, "user1", 100_000, 365);
    env.block_time += 365 * 86400;

    let res = execute(
        &mut state,
        &env,
        &mock_info("locker", vec![]),
        ExecuteMsg::LockerHook(LockerHookMsg::OnUnlock {
            locker_id: 1,
            owner: "user1".to_string(),
        }),
    )
    .unwrap();
    assert_eq!(
        res.messages,
        vec![CosmosMsg::BankSend {
            to_address: "user1".to_string(),
            denom: "paxi".to_string(),
            amount: 25000,
        }]
    );
    assert_eq!(state.pools[0].total_claimed, 25000);
    assert_eq!(state.pools[0].total_deposited, 1_000_000);
    assert_eq!(state.pools[1].total_claimed, 0);
    assert_eq!(state.pools[1].total_deposited, 0);
    assert_eq!(state.pools[1].last_update, env.block_time);
    assert!(state.user_stakes.is_empty());
    assert!(state.user_rewards.is_empty());
    assert_eq!(state.total_staked[0].amount, 0);
    assert_eq!(state.total_staked[0].weight, 0);
}

#[test]
fn caller_is_judged_before_the_call_is_gone_into() {
    let env = mock_env();
    let mut state = setup(None);
    create_pool(&mut state, &env, None);
    let hook = || {
        ExecuteMsg::LockerHook(LockerHookMsg::OnUnlock { locker_id: 9, owner: "user".to_string() })
    };
    let privileged = || {
        vec![
            ExecuteMsg::CreateRewardPool {
                lp_token: "lp".to_string(),
                reward_token: AssetInfo::Native("paxi".to_string()),
                apr: Decimal::percent(1),
                dynamic_config: None,
            },
            ExecuteMsg::UpdateRewardPool {
                pool_id: 0,
                apr: None,
                dynamic_config: None,
                enabled: Some(false),
            },
            ExecuteMsg::DepositRewards { pool_id: 0 },
            ExecuteMsg::WithdrawRewards { pool_id: 0, amount: 0 },
            ExecuteMsg::UpdateConfig {
                admin: None,
                lp_locker_contract: None,
                claim_interval: None,
                referral_commission_bps: None,
                batch_limit: None,
            },
            ExecuteMsg::Pause {},
            ExecuteMsg::Resume {},
        ]
    };
    for msg in privileged() {
        assert_eq!(
            check_caller(&state, &mock_info("user", vec![]), &msg),
            Err(ContractError::Unauthorized)
        );
        assert_eq!(
            execute(&mut state, &env, &mock_info("user", vec![]), msg),
            Err(ContractError::Unauthorized)
        );
    }
    for msg in privileged() {
        assert_eq!(check_caller(&state, &mock_info("admin", vec![]), &msg), Ok(()));
    }
    assert_eq!(
        check_caller(&state, &mock_info("admin", vec![]), &hook()),
        Err(ContractError::Unauthorized)
    );
    assert_eq!(check_caller(&state, &mock_info("locker", vec![]), &hook()), Ok(()));
    // who is admitted may still be refused for what the call holds
    assert_eq!(
        execute(&mut state, &env, &mock_info("locker", vec![]), hook()),
        Err(ContractError::StakeNotFound)
    );
    let claim = ExecuteMsg::ClaimRewards { locker_id: 9, pool_ids: vec![0] };
    assert_eq!(check_caller(&state, &mock_info("user", vec![]), &claim), Ok(()));
}
