use reward_engine::asset::AssetInfo;
use reward_engine::host::{Coin, CosmosMsg, Env, MessageInfo};
use reward_engine::math::Decimal;
use reward_engine::prc20_staking::contract::{check_call, execute, instantiate, query};
use reward_engine::prc20_staking::error::{ContractError, StdError};
use reward_engine::prc20_staking::msg::{
    Cw20HookMsg, Cw20ReceiveMsg, ExecuteMsg, InstantiateMsg, QueryMsg, QueryResponse,
};
use reward_engine::prc20_staking::state::{
    AutoCompoundConfig, NFTConfig, NFTTierMultiplier, Room, StakeConfig, State, UserPosition,
};

fn env_at(offset: u64) -> Env {
    Env { block_time: 1_571_797_419 + offset }
}

fn staking_info(sender: &str) -> MessageInfo {
    MessageInfo { sender: sender.to_string(), funds: vec![] }
}

fn new_staking() -> State {
    let (state, res) = instantiate(
        &env_at(0),
        &staking_info("creator"),
        InstantiateMsg { admin: "admin".to_string() },
    );
    assert_eq!(0, res.messages.len());
    state
}

fn create_room(
    state: &mut State,
    name: &str,
    tokens: &[&str],
    is_and_rule: bool,
    min_stake_amount: u128,
    auto_compound_config: AutoCompoundConfig,
    early_withdraw_penalty: Decimal,
) {
    execute(
        state,
        &env_at(0),
        &staking_info("admin"),
        ExecuteMsg::CreateRoom {
            name: name.to_string(),
            stake_config: StakeConfig {
                stake_tokens: tokens.iter().map(|t| t.to_string()).collect(),
                is_and_rule,
                min_stake_amount,
            },
            nft_config: None,
            auto_compound_config,
            early_withdraw_penalty,
            cooldown_period: 0,
        },
        None,
    )
    .unwrap();
}

fn add_reward(state: &mut State, token: &str, emission_per_second: u128) {
    execute(
        state,
        &env_at(0),
        &staking_info("admin"),
        ExecuteMsg::AddRewardPool {
            room_id: 1,
            reward_token: AssetInfo::Cw20(token.to_string()),
            emission_per_second,
        },
        None,
    )
    .unwrap();
}

fn fund(state: &mut State, token: &str, amount: u128) {
    execute(
        state,
        &env_at(0),
        &staking_info(token),
        ExecuteMsg::Receive(Cw20ReceiveMsg {
            sender: "admin".to_string(),
            amount,
            msg: Cw20HookMsg::FundPool { room_id: 1 },
        }),
        None,
    )
    .unwrap();
}

fn stake(state: &mut State, env: &Env, token: &str, user: &str, amount: u128) {
    execute(
        state,
        env,
        &staking_info(token),
        ExecuteMsg::Receive(Cw20ReceiveMsg {
            sender: user.to_string(),
            amount,
            msg: Cw20HookMsg::Stake { room_id: 1 },
        }),
        None,
    )
    .unwrap();
}

fn room(state: &State) -> Room {
    match query(state, &env_at(0), QueryMsg::Room { room_id: 1 }, None).unwrap() {
        QueryResponse::Room(res) => res.room,
        other => panic!("unexpected answer {:?}", other),
    }
}

fn position(state: &State, env: &Env, user: &str) -> UserPosition {
    let msg = QueryMsg::UserPosition { room_id: 1, user: user.to_string() };
    match query(state, env, msg, None).unwrap() {
        QueryResponse::UserPosition(res) => res.position.unwrap(),
        other => panic!("unexpected answer {:?}", other),
    }
}

fn pending_rewards(state: &State, env: &Env, user: &str) -> Vec<(AssetInfo, u128)> {
    let msg = QueryMsg::PendingRewards { room_id: 1, user: user.to_string() };
    match query(state, env, msg, None).unwrap() {
        QueryResponse::PendingRewards(res) => res.rewards,
        other => panic!("unexpected answer {:?}", other),
    }
}

fn no_compound() -> AutoCompoundConfig {
    AutoCompoundConfig { enabled: false, min_stake_threshold: 0, nft_required: false }
}

#[test]
fn proper_initialization() {
    let mut state = new_staking();
    create_room(
        &mut state,
        "Room 1",
        &["token1"],
        false,
        0,
        AutoCompoundConfig { enabled: true, min_stake_threshold: 0, nft_required: false },
        Decimal::zero(),
    );
    assert_eq!(room(&state).name, "Room 1");
}

#[test]
fn test_staking_and_rewards() {
    let mut state = new_staking();
    create_room(
        &mut state,
        "Room 1",
        &["stake_token"],
        false,
        0,
        AutoCompoundConfig { enabled: true, min_stake_threshold: 0, nft_required: false },
        Decimal::zero(),
    );
    add_reward(&mut state, "reward_token", 100);
    fund(&mut state, "reward_token", 100000);
    stake(&mut state, &env_at(0), "stake_token", "user1", 1000);

    let env_after = env_at(100);
    let rewards = pending_rewards(&state, &env_after, "user1");
    assert_eq!(rewards[0].1, 10000);

    let res = execute(
        &mut state,
        &env_after,
        &staking_info("user1"),
        ExecuteMsg::ClaimRewards { room_id: 1 },
        None,
    )
    .unwrap();
    let expected_msg = CosmosMsg::Cw20Transfer {
        contract_addr: "reward_token".to_string(),
        recipient: "user1".to_string(),
        amount: 10000,
    };
    assert_eq!(res.messages[0], expected_msg);
}

#[test]
fn test_auto_compound() {
    let mut state = new_staking();
    create_room(
        &mut state,
        "Room 1",
        &["token"],
        false,
        0,
        AutoCompoundConfig { enabled: true, min_stake_threshold: 500, nft_required: false },
        Decimal::zero(),
    );
    add_reward(&mut state, "token", 10);
    fund(&mut state, "token", 100000);
    stake(&mut state, &env_at(0), "token", "user1", 1000);

    execute(
        &mut state,
        &env_at(0),
        &staking_info("user1"),
        ExecuteMsg::ToggleAutoCompound { room_id: 1, enabled: true },
        None,
    )
    .unwrap();

    let env_after = env_at(100);
    execute(
        &mut state,
        &env_after,
        &staking_info("user1"),
        ExecuteMsg::Compound { room_id: 1 },
        None,
    )
    .unwrap();

    let pos = position(&state, &env_after, "user1");
    assert_eq!(pos.staked_amounts[0].1, 2000);
}

#[test]
fn test_withdraw_penalty() {
    let mut state = new_staking();
    create_room(&mut state, "Room 1", &["token"], false, 0, no_compound(), Decimal::percent(10));
    stake(&mut state, &env_at(0), "token", "user1", 1000);

    let res = execute(
        &mut state,
        &env_at(0),
        &staking_info("user1"),
        ExecuteMsg::Unstake { room_id: 1, amount: 1000, token_address: "token".to_string() },
        None,
    )
    .unwrap();

    let penalty_attr = res.attributes.iter().find(|a| a.key == "penalty").unwrap();
    assert_eq!(penalty_attr.value, "100");

    match &res.messages[0] {
        CosmosMsg::Cw20Transfer { amount, .. } => assert_eq!(*amount, 900),
        _ => panic!("Wrong msg type"),
    }
}

#[test]
fn test_and_rule() {
    let mut state = new_staking();
    create_room(
        &mut state,
        "Partner Room",
        &["tokenA", "tokenB"],
        true,
        100,
        no_compound(),
        Decimal::zero(),
    );

    stake(&mut state, &env_at(0), "tokenA", "user1", 100);
    assert_eq!(room(&state).total_staked_weight, 0);

    stake(&mut state, &env_at(0), "tokenB", "user1", 100);
    assert_eq!(room(&state).total_staked_weight, 200);
}

#[test]
fn test_reward_solvency() {
    let mut state = new_staking();
    create_room(&mut state, "Room", &["token"], false, 0, no_compound(), Decimal::zero());
    add_reward(&mut state, "reward", 100);
    fund(&mut state, "reward", 500);
    stake(&mut state, &env_at(0), "token", "user1", 1000);

    let rewards = pending_rewards(&state, &env_at(10), "user1");
    assert_eq!(rewards[0].1, 500);
}

#[test]
fn claim_beyond_the_funding_is_refused() {
    let mut state = new_staking();
    create_room(&mut state, "Room", &["token"], false, 0, no_compound(), Decimal::zero());
    add_reward(&mut state, "reward", 100);
    fund(&mut state, "reward", 500);
    stake(&mut state, &env_at(0), "token", "user1", 1000);

    // two settlements without a claim accrue twice the capped amount
    stake(&mut state, &env_at(10), "token", "user1", 1);
    let rewards = pending_rewards(&state, &env_at(20), "user1");
    assert_eq!(rewards[0].1, 999);
    let before = position(&state, &env_at(20), "user1");

    let res = execute(
        &mut state,
        &env_at(20),
        &staking_info("user1"),
        ExecuteMsg::ClaimRewards { room_id: 1 },
        None,
    );
    assert_eq!(res, Err(ContractError::InsufficientRewards));
    assert_eq!(position(&state, &env_at(20), "user1"), before);
    assert_eq!(room(&state).reward_configs[0].total_claimed, 0);
}

#[test]
fn settling_twice_at_one_time_accrues_once() {
    let mut state = new_staking();
    create_room(&mut state, "Room", &["token"], false, 0, no_compound(), Decimal::zero());
    add_reward(&mut state, "reward", 7);
    fund(&mut state, "reward", 1_000_000);
    stake(&mut state, &env_at(0), "token", "user1", 1000);
    stake(&mut state, &env_at(50), "token", "user1", 0);
    let once = position(&state, &env_at(50), "user1").pending_rewards;
    stake(&mut state, &env_at(50), "token", "user1", 0);
    let twice = position(&state, &env_at(50), "user1").pending_rewards;
    assert_eq!(once, twice);
    assert_eq!(once[0].1, 350);
}

#[test]
fn accumulator_stands_still_without_weight() {
    let mut state = new_staking();
    create_room(&mut state, "Room", &["token"], false, 0, no_compound(), Decimal::zero());
    add_reward(&mut state, "reward", 100);
    fund(&mut state, "reward", 1_000_000);
    execute(
        &mut state,
        &env_at(1000),
        &staking_info("admin"),
        ExecuteMsg::UpdateRewardPool {
            room_id: 1,
            reward_token: AssetInfo::Cw20("reward".to_string()),
            emission_per_second: 50,
        },
        None,
    )
    .unwrap();
    let r = room(&state);
    assert_eq!(r.reward_configs[0].acc_reward_per_share, Decimal::zero());
    assert_eq!(r.last_update_time, env_at(1000).block_time);

    stake(&mut state, &env_at(1000), "token", "user1", 400);
    stake(&mut state, &env_at(1004), "token", "user1", 0);
    // 4 s at 50 per second over a weight of 400
    assert_eq!(room(&state).reward_configs[0].acc_reward_per_share, Decimal::percent(50));
}

#[test]
fn any_of_rule_counts_the_sum_against_the_minimum() {
    let mut state = new_staking();
    create_room(&mut state, "Room", &["a", "b"], false, 150, no_compound(), Decimal::zero());
    stake(&mut state, &env_at(0), "a", "user1", 100);
    assert_eq!(room(&state).total_staked_weight, 0);
    stake(&mut state, &env_at(0), "b", "user1", 50);
    assert_eq!(room(&state).total_staked_weight, 150);
}

#[test]
fn staking_errors_name_their_cause() {
    let mut state = new_staking();
    create_room(
        &mut state,
        "Room",
        &["token"],
        false,
        0,
        AutoCompoundConfig { enabled: true, min_stake_threshold: 500, nft_required: false },
        Decimal::zero(),
    );
    add_reward(&mut state, "reward", 1);

    let call = |state: &mut State, sender: &str, msg: ExecuteMsg| {
        execute(state, &env_at(0), &staking_info(sender), msg, None)
    };
    let stake_msg = |room_id: u64, amount: u128| {
        ExecuteMsg::Receive(Cw20ReceiveMsg {
            sender: "user1".to_string(),
            amount,
            msg: Cw20HookMsg::Stake { room_id },
        })
    };

    assert_eq!(call(&mut state, "token", stake_msg(9, 1)), Err(ContractError::RoomNotFound));
    assert_eq!(call(&mut state, "other", stake_msg(1, 1)), Err(ContractError::InvalidStakeToken));
    assert_eq!(
        call(&mut state, "user1", ExecuteMsg::ClaimRewards { room_id: 1 }),
        Err(ContractError::Std(StdError::PositionNotFound))
    );
    call(&mut state, "token", stake_msg(1, 100)).unwrap();
    assert_eq!(
        call(&mut state, "user1", ExecuteMsg::ClaimRewards { room_id: 1 }),
        Err(ContractError::NoRewards)
    );
    assert_eq!(
        call(
            &mut state,
            "user1",
            ExecuteMsg::Unstake { room_id: 1, amount: 101, token_address: "token".to_string() }
        ),
        Err(ContractError::InsufficientStake)
    );
    assert_eq!(
        call(
            &mut state,
            "user1",
            ExecuteMsg::Unstake { room_id: 1, amount: 1, token_address: "other".to_string() }
        ),
        Err(ContractError::InvalidStakeToken)
    );
    assert_eq!(
        call(&mut state, "user1", ExecuteMsg::ToggleAutoCompound { room_id: 1, enabled: true }),
        Err(ContractError::AutoCompoundNotAllowed)
    );
    assert_eq!(
        call(&mut state, "user1", ExecuteMsg::Compound { room_id: 1 }),
        Err(ContractError::AutoCompoundNotAllowed)
    );
    assert_eq!(
        call(
            &mut state,
            "user1",
            ExecuteMsg::AddRewardPool {
                room_id: 1,
                reward_token: AssetInfo::Cw20("x".to_string()),
                emission_per_second: 1
            }
        ),
        Err(ContractError::Unauthorized)
    );
    assert_eq!(
        call(
            &mut state,
            "admin",
            ExecuteMsg::AddRewardPool {
                room_id: 1,
                reward_token: AssetInfo::Cw20("reward".to_string()),
                emission_per_second: 1
            }
        ),
        Err(ContractError::InvalidRewardToken)
    );
    assert_eq!(
        call(&mut state, "admin", ExecuteMsg::FundRewardPool { room_id: 1 }),
        Err(ContractError::InsufficientStake)
    );
    call(
        &mut state,
        "admin",
        ExecuteMsg::UpdateRoom {
            room_id: 1,
            paused: Some(true),
            early_withdraw_penalty: None,
            cooldown_period: Some(60),
        },
    )
    .unwrap();
    assert_eq!(call(&mut state, "token", stake_msg(1, 1)), Err(ContractError::Paused));
    assert_eq!(
        call(
            &mut state,
            "user1",
            ExecuteMsg::Unstake { room_id: 1, amount: 1, token_address: "token".to_string() }
        ),
        Err(ContractError::CooldownNotElapsed)
    );
    assert_eq!(ContractError::CooldownNotElapsed.message(), "Cooldown period not elapsed");
}

#[test]
fn credential_sets_the_multiplier() {
    let mut state = new_staking();
    execute(
        &mut state,
        &env_at(0),
        &staking_info("admin"),
        ExecuteMsg::CreateRoom {
            name: "Gated".to_string(),
            stake_config: StakeConfig {
                stake_tokens: vec!["token".to_string()],
                is_and_rule: false,
                min_stake_amount: 0,
            },
            nft_config: Some(NFTConfig {
                nft_address: "nft".to_string(),
                required_for_staking: true,
                tier_multipliers: vec![
                    NFTTierMultiplier {
                        tier_name: "silver".to_string(),
                        multiplier: Decimal::percent(150),
                        auto_compound_unlocked: false,
                    },
                    NFTTierMultiplier {
                        tier_name: "gold".to_string(),
                        multiplier: Decimal::percent(300),
                        auto_compound_unlocked: true,
                    },
                ],
            }),
            auto_compound_config: AutoCompoundConfig {
                enabled: true,
                min_stake_threshold: 0,
                nft_required: true,
            },
            early_withdraw_penalty: Decimal::zero(),
            cooldown_period: 0,
        },
        None,
    )
    .unwrap();

    let stake_with = |state: &mut State, holding: Option<bool>| {
        execute(
            state,
            &env_at(0),
            &staking_info("token"),
            ExecuteMsg::Receive(Cw20ReceiveMsg {
                sender: "user1".to_string(),
                amount: 100,
                msg: Cw20HookMsg::Stake { room_id: 1 },
            }),
            holding,
        )
        .unwrap();
    };
    stake_with(&mut state, Some(true));
    assert_eq!(room(&state).total_staked_weight, 300);
    stake_with(&mut state, Some(false));
    assert_eq!(room(&state).total_staked_weight, 0);
    stake_with(&mut state, None);
    assert_eq!(room(&state).total_staked_weight, 0);

    let ask = |state: &State, holding: Option<bool>| {
        let msg = QueryMsg::Eligibility { room_id: 1, user: "user1".to_string() };
        match query(state, &env_at(0), msg, holding).unwrap() {
            QueryResponse::Eligibility(res) => res,
            other => panic!("unexpected answer {:?}", other),
        }
    };
    let held = ask(&state, Some(true));
    assert!(held.can_stake && held.can_auto_compound);
    assert_eq!(held.nft_multiplier, Decimal::percent(300));
    let not_held = ask(&state, Some(false));
    assert!(!not_held.can_stake && !not_held.can_auto_compound);
    assert_eq!(not_held.nft_multiplier, Decimal::zero());
}

#[test]
fn apr_estimate_spreads_a_year_of_emission() {
    let mut state = new_staking();
    create_room(&mut state, "Room", &["token"], false, 0, no_compound(), Decimal::zero());
    add_reward(&mut state, "reward", 2);
    let ask = |state: &State| match query(
        state,
        &env_at(0),
        QueryMsg::APREstimate { room_id: 1 },
        None,
    )
    .unwrap()
    {
        QueryResponse::APREstimate(res) => res.aprs[0].1,
        other => panic!("unexpected answer {:?}", other),
    };
    assert_eq!(ask(&state), Decimal::zero());
    stake(&mut state, &env_at(0), "token", "user1", 31_536_000);
    assert_eq!(ask(&state), Decimal::zero());
    fund(&mut state, "reward", 10);
    assert_eq!(ask(&state), Decimal::percent(200));
}

#[test]
fn total_weight_follows_a_multiplier_refreshed_by_a_claim() {
    let mut state = new_staking();
    execute(
        &mut state,
        &env_at(0),
        &staking_info("admin"),
        ExecuteMsg::CreateRoom {
            name: "Tiered".to_string(),
            stake_config: StakeConfig {
                stake_tokens: vec!["token".to_string()],
                is_and_rule: false,
                min_stake_amount: 0,
            },
            nft_config: Some(NFTConfig {
                nft_address: "nft".to_string(),
                required_for_staking: false,
                tier_multipliers: vec![NFTTierMultiplier {
                    tier_name: "gold".to_string(),
                    multiplier: Decimal::percent(300),
                    auto_compound_unlocked: true,
                }],
            }),
            auto_compound_config: no_compound(),
            early_withdraw_penalty: Decimal::zero(),
            cooldown_period: 0,
        },
        None,
    )
    .unwrap();
    add_reward(&mut state, "reward", 10);
    fund(&mut state, "reward", 1_000_000);
    execute(
        &mut state,
        &env_at(0),
        &staking_info("token"),
        ExecuteMsg::Receive(Cw20ReceiveMsg {
            sender: "user1".to_string(),
            amount: 100,
            msg: Cw20HookMsg::Stake { room_id: 1 },
        }),
        Some(false),
    )
    .unwrap();
    assert_eq!(room(&state).total_staked_weight, 100);

    let res = execute(
        &mut state,
        &env_at(10),
        &staking_info("user1"),
        ExecuteMsg::ClaimRewards { room_id: 1 },
        Some(true),
    )
    .unwrap();
    // the ten seconds were earned under the old multiplier
    assert_eq!(
        res.messages,
        vec![CosmosMsg::Cw20Transfer {
            contract_addr: "reward".to_string(),
            recipient: "user1".to_string(),
            amount: 100,
        }]
    );
    assert_eq!(room(&state).total_staked_weight, 300);
    assert_eq!(position(&state, &env_at(10), "user1").nft_multiplier, Decimal::percent(300));

    execute(
        &mut state,
        &env_at(20),
        &staking_info("user1"),
        ExecuteMsg::Unstake { room_id: 1, amount: 100, token_address: "token".to_string() },
        Some(true),
    )
    .unwrap();
    assert_eq!(room(&state).total_staked_weight, 0);
    assert_eq!(position(&state, &env_at(20), "user1").pending_rewards[0].1, 99);
}

#[test]
fn funding_is_taken_from_the_administrator_alone() {
    let mut state = new_staking();
    create_room(&mut state, "Room", &["token"], false, 0, no_compound(), Decimal::zero());
    add_reward(&mut state, "reward", 1);
    execute(
        &mut state,
        &env_at(0),
        &staking_info("admin"),
        ExecuteMsg::AddRewardPool {
            room_id: 1,
            reward_token: AssetInfo::Native("upaxi".to_string()),
            emission_per_second: 1,
        },
        None,
    )
    .unwrap();
    let before = state.clone();

    let tokens = |sender: &str| {
        ExecuteMsg::Receive(Cw20ReceiveMsg {
            sender: sender.to_string(),
            amount: 500,
            msg: Cw20HookMsg::FundPool { room_id: 1 },
        })
    };
    let coins = |sender: &str| MessageInfo {
        sender: sender.to_string(),
        funds: vec![Coin { denom: "upaxi".to_string(), amount: 300 }],
    };
    let res = execute(&mut state, &env_at(0), &staking_info("reward"), tokens("user1"), None);
    assert_eq!(res, Err(ContractError::Unauthorized));
    let fund_msg = ExecuteMsg::FundRewardPool { room_id: 1 };
    let res = execute(&mut state, &env_at(0), &coins("user1"), fund_msg, None);
    assert_eq!(res, Err(ContractError::Unauthorized));
    assert_eq!(state, before);

    execute(&mut state, &env_at(0), &staking_info("reward"), tokens("admin"), None).unwrap();
    let fund_msg = ExecuteMsg::FundRewardPool { room_id: 1 };
    let res = execute(&mut state, &env_at(0), &coins("admin"), fund_msg, None).unwrap();
    assert_eq!(res.attributes[2].value, "300");
    assert_eq!(room(&state).reward_configs[0].total_deposited, 500);
    assert_eq!(room(&state).reward_configs[1].total_deposited, 300);
}

#[test]
fn claim_lists_what_was_claimed() {
    let mut state = new_staking();
    create_room(&mut state, "Room", &["token"], false, 0, no_compound(), Decimal::zero());
    add_reward(&mut state, "reward", 100);
    execute(
        &mut state,
        &env_at(0),
        &staking_info("admin"),
        ExecuteMsg::AddRewardPool {
            room_id: 1,
            reward_token: AssetInfo::Native("u\"paxi".to_string()),
            emission_per_second: 3,
        },
        None,
    )
    .unwrap();
    fund(&mut state, "reward", 100_000);
    execute(
        &mut state,
        &env_at(0),
        &MessageInfo {
            sender: "admin".to_string(),
            funds: vec![Coin { denom: "u\"paxi".to_string(), amount: 100_000 }],
        },
        ExecuteMsg::FundRewardPool { room_id: 1 },
        None,
    )
    .unwrap();
    stake(&mut state, &env_at(0), "token", "user1", 1000);

    let res = execute(
        &mut state,
        &env_at(100),
        &staking_info("user1"),
        ExecuteMsg::ClaimRewards { room_id: 1 },
        None,
    )
    .unwrap();
    assert_eq!(res.messages.len(), 2);
    assert_eq!(res.attributes.len(), 3);
    assert_eq!(res.attributes[0].value, "claim_rewards");
    assert_eq!(res.attributes[1].value, "1");
    assert_eq!(res.attributes[2].key, "claimed");
    assert_eq!(
        res.attributes[2].value,
        "Cw20(Addr(\"reward\")):10000, Native(\"u\\\"paxi\"):300"
    );
}

#[test]
fn call_is_refused_at_once_as_it_is_when_carried_out() {
    let mut state = new_staking();
    create_room(&mut state, "Room", &["token"], false, 0, no_compound(), Decimal::zero());
    add_reward(&mut state, "reward", 1);
    let received = |hook: Cw20HookMsg, sender: &str| {
        ExecuteMsg::Receive(Cw20ReceiveMsg { sender: sender.to_string(), amount: 5, msg: hook })
    };
    let cases = || {
        vec![
            ("token", received(Cw20HookMsg::Stake { room_id: 9 }, "user1"), ContractError::RoomNotFound),
            ("reward", received(Cw20HookMsg::FundPool { room_id: 1 }, "user1"), ContractError::Unauthorized),
            (
                "user1",
                ExecuteMsg::Unstake { room_id: 9, amount: 1, token_address: "token".to_string() },
                ContractError::RoomNotFound,
            ),
            ("user1", ExecuteMsg::ClaimRewards { room_id: 9 }, ContractError::RoomNotFound),
            ("user1", ExecuteMsg::Compound { room_id: 9 }, ContractError::RoomNotFound),
            (
                "user1",
                ExecuteMsg::ToggleAutoCompound { room_id: 9, enabled: true },
                ContractError::RoomNotFound,
            ),
            ("user1", ExecuteMsg::FundRewardPool { room_id: 1 }, ContractError::Unauthorized),
            ("user1", ExecuteMsg::UpdateConfig { admin: None, paused: None }, ContractError::Unauthorized),
            (
                "user1",
                ExecuteMsg::UpdateRoom {
                    room_id: 1,
                    paused: Some(true),
                    early_withdraw_penalty: None,
                    cooldown_period: None,
                },
                ContractError::Unauthorized,
            ),
        ]
    };
    for (sender, msg, error) in cases() {
        assert_eq!(check_call(&state, &staking_info(sender), &msg), Err(error));
    }
    for (sender, msg, error) in cases() {
        assert_eq!(execute(&mut state, &env_at(0), &staking_info(sender), msg, None), Err(error));
    }

    let stake_msg = || received(Cw20HookMsg::Stake { room_id: 1 }, "user1");
    assert_eq!(check_call(&state, &staking_info("token"), &stake_msg()), Ok(()));
    // what is not refused at once may still be refused for what the call holds
    assert_eq!(check_call(&state, &staking_info("other"), &stake_msg()), Ok(()));
    assert_eq!(
        execute(&mut state, &env_at(0), &staking_info("other"), stake_msg(), None),
        Err(ContractError::InvalidStakeToken)
    );
    execute(
        &mut state,
        &env_at(0),
        &staking_info("admin"),
        ExecuteMsg::UpdateRoom {
            room_id: 1,
            paused: Some(true),
            early_withdraw_penalty: None,
            cooldown_period: None,
        },
        None,
    )
    .unwrap();
    assert_eq!(
        check_call(&state, &staking_info("token"), &stake_msg()),
        Err(ContractError::Paused)
    );
}
