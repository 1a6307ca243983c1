use reward_engine::asset::AssetInfo;
use reward_engine::host::{
    amount_text, describe_transfer, describe_transfers, join_texts, list_transfer, transfer_msg,
    Coin, CosmosMsg, Env, MessageInfo, Response,
};
use reward_engine::math::Decimal;
use reward_engine::prc20_staking::engine::{
    advance_config, calculate_user_weight, query_nft_multiplier, update_room_rewards,
    update_user_rewards,
};
use reward_engine::prc20_staking::error::ContractError as StakingError;
use reward_engine::prc20_staking::state::{
    AutoCompoundConfig, RewardConfig as RoomReward, Room, StakeConfig, UserPosition,
};
use reward_engine::reward_controller::contract::{execute, instantiate, migrate, query};
use reward_engine::reward_controller::engine::{
    adjust_apr, calculate_bonus_multiplier, calculate_pending_for_user, settle, split_commission,
};
use reward_engine::reward_controller::error::ContractError;
use reward_engine::reward_controller::msg::{
    ExecuteMsg, InstantiateMsg, LockerHookMsg, MigrateMsg, QueryMsg, QueryResponse,
};
use reward_engine::reward_controller::state::{
    DynamicAPRConfig, RewardPool, State, UserReward, UserStake,
};

const DAY: u64 = 86400;
const START: u64 = 1_571_797_419;

fn pool(apr: Decimal, dynamic_config: Option<DynamicAPRConfig>) -> RewardPool {
    RewardPool {
        pool_id: 0,
        lp_token: "lp".to_string(),
        reward_token: AssetInfo::Native("paxi".to_string()),
        total_deposited: 0,
        total_claimed: 0,
        apr,
        dynamic_config,
        last_update: START,
        reward_per_token_stored: Decimal::zero(),
        enabled: true,
    }
}

fn stake_of(amount: u128, multiplier: Decimal) -> UserStake {
    UserStake {
        user: "user".to_string(),
        locker_id: 1,
        lp_token: "lp".to_string(),
        lp_amount: amount,
        locked_at: START,
        bonus_multiplier: multiplier,
    }
}

fn checkpoint(paid: Decimal, accrued: u128) -> UserReward {
    UserReward {
        locker_id: 1,
        pool_id: 0,
        reward_per_token_paid: paid,
        rewards_accrued: accrued,
        last_claim_time: START,
    }
}

fn sender(name: &str) -> MessageInfo {
    MessageInfo { sender: name.to_string(), funds: vec![] }
}

fn controller() -> State {
    instantiate(
        &Env { block_time: START },
        &sender("admin"),
        InstantiateMsg {
            admin: "admin".to_string(),
            lp_locker_contract: "locker".to_string(),
            claim_interval: Some(0),
        },
    )
    .0
}

fn add_pool(state: &mut State, now: u64, lp_token: &str) {
    execute(
        state,
        &Env { block_time: now },
        &sender("admin"),
        ExecuteMsg::CreateRewardPool {
            lp_token: lp_token.to_string(),
            reward_token: AssetInfo::Native("paxi".to_string()),
            apr: Decimal::percent(10),
            dynamic_config: None,
        },
    )
    .unwrap();
}

fn hook(state: &mut State, now: u64, msg: LockerHookMsg) -> Result<Response, ContractError> {
    execute(state, &Env { block_time: now }, &sender("locker"), ExecuteMsg::LockerHook(msg))
}

fn open_lock(state: &mut State, now: u64, locker_id: u64, owner: &str, amount: u128, days: u64) {
    hook(
        state,
        now,
        LockerHookMsg::OnLock {
            locker_id,
            owner: owner.to_string(),
            lp_token: "lp".to_string(),
            amount,
            locked_at: now,
            unlock_time: now + days * DAY,
        },
    )
    .unwrap();
}

#[test]
fn bonus_multiplier_steps_at_the_tier_boundaries() {
    assert_eq!(calculate_bonus_multiplier(0), Decimal::one());
    assert_eq!(calculate_bonus_multiplier(31 * DAY - 1), Decimal::one());
    assert_eq!(calculate_bonus_multiplier(31 * DAY), Decimal::percent(120));
    assert_eq!(calculate_bonus_multiplier(91 * DAY - 1), Decimal::percent(120));
    assert_eq!(calculate_bonus_multiplier(91 * DAY), Decimal::percent(150));
    assert_eq!(calculate_bonus_multiplier(181 * DAY - 1), Decimal::percent(150));
    assert_eq!(calculate_bonus_multiplier(181 * DAY), Decimal::percent(200));
    assert_eq!(calculate_bonus_multiplier(365 * DAY - 1), Decimal::percent(200));
    assert_eq!(calculate_bonus_multiplier(365 * DAY), Decimal::percent(250));
    assert_eq!(calculate_bonus_multiplier(u64::MAX), Decimal::percent(250));
}

#[test]
fn dynamic_rate_follows_the_thresholds() {
    let config = DynamicAPRConfig {
        base_apr: Decimal::percent(10),
        tvl_threshold_low: 5000,
        tvl_threshold_high: 15000,
        adjustment_factor: Decimal::percent(15),
    };
    assert_eq!(adjust_apr(&config, 4999), Ok(Decimal::percent(25)));
    assert_eq!(adjust_apr(&config, 5000), Ok(Decimal::percent(10)));
    assert_eq!(adjust_apr(&config, 15000), Ok(Decimal::percent(10)));
    assert_eq!(adjust_apr(&config, 15001), Ok(Decimal::zero()));
    let wide = DynamicAPRConfig { base_apr: Decimal::raw(u128::MAX), ..config };
    assert_eq!(adjust_apr(&wide, 0), Err(ContractError::Overflow));
    assert_eq!(adjust_apr(&wide, 20000), Ok(Decimal::raw(u128::MAX - 150_000_000_000_000_000)));
}

#[test]
fn accumulator_grows_by_rate_times_the_part_of_the_year() {
    let mut p = pool(Decimal::percent(10), None);
    p.advance(1000, START + DAY).unwrap();
    assert_eq!(p.reward_per_token_stored, Decimal::raw(273_972_602_739_726));
    assert_eq!(p.last_update, START + DAY);
    p.advance(1000, START + 365 * DAY).unwrap();
    // 364 days more: 0.1 * floor(364/365 * 10^18) / 10^18
    assert_eq!(p.reward_per_token_stored, Decimal::raw(273_972_602_739_726 + 99_726_027_397_260_273));
}

#[test]
fn accumulator_never_goes_back_and_stands_still_when_it_should() {
    let mut disabled = pool(Decimal::percent(10), None);
    disabled.enabled = false;
    disabled.advance(1000, START + DAY).unwrap();
    assert_eq!(disabled.reward_per_token_stored, Decimal::zero());
    assert_eq!(disabled.last_update, START + DAY);

    let mut unstaked = pool(Decimal::percent(10), None);
    unstaked.advance(0, START + DAY).unwrap();
    assert_eq!(unstaked.reward_per_token_stored, Decimal::zero());
    assert_eq!(unstaked.last_update, START + DAY);

    let mut p = pool(Decimal::percent(10), None);
    p.advance(1, START + DAY).unwrap();
    let reached = p.reward_per_token_stored;
    p.advance(1, START + DAY).unwrap();
    assert_eq!(p.reward_per_token_stored, reached);
    p.advance(1, START).unwrap();
    assert_eq!(p.reward_per_token_stored, reached);
    assert_eq!(p.last_update, START + DAY);
    p.advance(1, START + 2 * DAY).unwrap();
    assert!(p.reward_per_token_stored.atomics > reached.atomics);

    let mut full = pool(Decimal::percent(10), None);
    full.reward_per_token_stored = Decimal::raw(u128::MAX);
    let before = full.clone();
    assert_eq!(full.advance(1, START + DAY), Err(ContractError::Overflow));
    assert_eq!(full, before);
}

#[test]
fn pending_is_weight_times_growth() {
    let mut p = pool(Decimal::percent(10), None);
    p.reward_per_token_stored = Decimal::percent(10);
    let stake = stake_of(1000, Decimal::percent(150));
    assert_eq!(calculate_pending_for_user(&stake, &p, &checkpoint(Decimal::zero(), 0)), Ok(150));
    assert_eq!(calculate_pending_for_user(&stake, &p, &checkpoint(Decimal::percent(10), 0)), Ok(0));
    assert_eq!(
        calculate_pending_for_user(&stake, &p, &checkpoint(Decimal::percent(11), 0)),
        Err(ContractError::Overflow)
    );
    let huge = stake_of(u128::MAX, Decimal::percent(150));
    assert_eq!(
        calculate_pending_for_user(&huge, &p, &checkpoint(Decimal::zero(), 0)),
        Err(ContractError::Overflow)
    );
}

#[test]
fn settlement_twice_credits_once() {
    let mut p = pool(Decimal::percent(10), None);
    p.reward_per_token_stored = Decimal::percent(10);
    let stake = stake_of(1000, Decimal::percent(250));
    let once = settle(&stake, &p, &checkpoint(Decimal::zero(), 7)).unwrap();
    assert_eq!(once.rewards_accrued, 257);
    assert_eq!(once.reward_per_token_paid, Decimal::percent(10));
    let twice = settle(&stake, &p, &once).unwrap();
    assert_eq!(twice, once);
    assert_eq!(
        settle(&stake, &p, &checkpoint(Decimal::zero(), u128::MAX)),
        Err(ContractError::Overflow)
    );
}

#[test]
fn commission_splits_without_loss() {
    assert_eq!(split_commission(25000, 500, true), Ok((1250, 23750)));
    assert_eq!(split_commission(25000, 500, false), Ok((0, 25000)));
    assert_eq!(split_commission(3, 500, true), Ok((0, 3)));
    assert_eq!(split_commission(10000, 10000, true), Ok((10000, 0)));
    assert_eq!(split_commission(10000, 20000, true), Err(ContractError::Overflow));
    assert_eq!(split_commission(u128::MAX, 65535, true), Err(ContractError::Overflow));
}

#[test]
fn settling_in_state_twice_changes_nothing_the_second_time() {
    let mut state = controller();
    add_pool(&mut state, START, "lp");
    open_lock(&mut state, START, 1, "user", 1000, 40);
    let extend = |state: &mut State, now: u64| {
        hook(state, now, LockerHookMsg::OnExtend { locker_id: 1, new_unlock_time: START + 40 * DAY })
            .unwrap();
    };
    extend(&mut state, START + 10 * DAY);
    let once = state.clone();
    extend(&mut state, START + 10 * DAY);
    assert_eq!(state, once);
    // weight 1200, 10 days at 10%: 1200 * 0.1 * floor(10/365 * 10^18) / 10^18
    assert_eq!(state.user_rewards[0].rewards_accrued, 3);
}

#[test]
fn claimed_never_exceeds_funded() {
    let mut state = controller();
    add_pool(&mut state, START, "lp");
    execute(
        &mut state,
        &Env { block_time: START },
        &MessageInfo {
            sender: "admin".to_string(),
            funds: vec![Coin { denom: "paxi".to_string(), amount: 300 }],
        },
        ExecuteMsg::DepositRewards { pool_id: 0 },
    )
    .unwrap();
    open_lock(&mut state, START, 1, "user", 1000, 365);
    let claim = |state: &mut State, now: u64| {
        execute(
            state,
            &Env { block_time: now },
            &sender("user"),
            ExecuteMsg::ClaimRewards { locker_id: 1, pool_ids: vec![0, 0] },
        )
    };
    claim(&mut state, START + 365 * DAY).unwrap();
    assert_eq!(state.pools[0].total_claimed, 250);
    assert_eq!(claim(&mut state, START + 365 * DAY), Err(ContractError::NoRewards));
    assert_eq!(claim(&mut state, START + 2 * 365 * DAY), Err(ContractError::InsufficientRewards));
    assert_eq!(state.pools[0].total_claimed, 250);
    assert!(state.pools[0].total_claimed <= state.pools[0].total_deposited);
    let res = execute(
        &mut state,
        &Env { block_time: START },
        &sender("admin"),
        ExecuteMsg::WithdrawRewards { pool_id: 0, amount: 51 },
    );
    assert_eq!(res, Err(ContractError::InsufficientRewards));
}

#[test]
fn lock_opens_checkpoints_in_every_pool_of_its_collateral() {
    let mut state = controller();
    add_pool(&mut state, START, "lp");
    add_pool(&mut state, START, "other");
    add_pool(&mut state, START, "lp");
    open_lock(&mut state, START + DAY, 7, "user", 500, 91);
    let pools: Vec<u64> = state.user_rewards.iter().map(|r| r.pool_id).collect();
    assert_eq!(pools, vec![0, 2]);
    assert!(state.user_rewards.iter().all(|r| r.locker_id == 7 && r.rewards_accrued == 0));
    assert_eq!(state.user_stakes[0].bonus_multiplier, Decimal::percent(150));
    assert_eq!(state.total_staked[0].amount, 500);
    assert_eq!(state.pools[0].last_update, START + DAY);
    assert_eq!(state.pools[1].last_update, START);
}

#[test]
fn batch_claim_joins_the_answers_and_fails_as_a_whole() {
    let mut state = controller();
    add_pool(&mut state, START, "lp");
    execute(
        &mut state,
        &Env { block_time: START },
        &MessageInfo {
            sender: "admin".to_string(),
            funds: vec![Coin { denom: "paxi".to_string(), amount: 1_000_000 }],
        },
        ExecuteMsg::DepositRewards { pool_id: 0 },
    )
    .unwrap();
    open_lock(&mut state, START, 1, "user", 1000, 365);
    open_lock(&mut state, START, 2, "user", 2000, 365);
    open_lock(&mut state, START, 3, "other", 2000, 365);
    let before = state.clone();
    let env = Env { block_time: START + 365 * DAY };
    let res = execute(
        &mut state,
        &env,
        &sender("user"),
        ExecuteMsg::BatchClaimRewards { locker_ids: vec![1, 3], pool_ids: vec![0] },
    );
    assert_eq!(res, Err(ContractError::Unauthorized));
    assert_eq!(state, before);
    let res = execute(
        &mut state,
        &env,
        &sender("user"),
        ExecuteMsg::BatchClaimRewards { locker_ids: vec![1, 2], pool_ids: vec![0] },
    )
    .unwrap();
    let amounts: Vec<u128> = res
        .messages
        .iter()
        .map(|m| match m {
            CosmosMsg::BankSend { amount, .. } => *amount,
            CosmosMsg::Cw20Transfer { amount, .. } => *amount,
        })
        .collect();
    assert_eq!(amounts, vec![250, 500]);
    let values: Vec<&str> = res.attributes.iter().map(|a| a.value.as_str()).collect();
    assert_eq!(values, vec!["batch_claim_rewards", "claim_rewards", "250", "claim_rewards", "500"]);
}

#[test]
fn pools_are_listed_in_pages() {
    let mut state = controller();
    for _ in 0..35 {
        add_pool(&mut state, START, "lp");
    }
    let page = |start_after: Option<u64>, limit: Option<u32>| -> Vec<u64> {
        let env = Env { block_time: START };
        match query(&state, &env, QueryMsg::AllRewardPools { start_after, limit }).unwrap() {
            QueryResponse::AllRewardPools(pools) => pools.iter().map(|p| p.pool_id).collect(),
            other => panic!("unexpected answer {:?}", other),
        }
    };
    assert_eq!(page(None, None), (0..10).collect::<Vec<u64>>());
    assert_eq!(page(Some(30), None), vec![31, 32, 33, 34]);
    assert_eq!(page(None, Some(50)).len(), 30);
    assert_eq!(page(Some(4), Some(2)), vec![5, 6]);
    assert_eq!(page(Some(34), None), Vec::<u64>::new());
    assert_eq!(page(None, Some(0)), Vec::<u64>::new());
}

#[test]
fn migrate_keeps_the_state() {
    let mut state = controller();
    add_pool(&mut state, START, "lp");
    let before = state.clone();
    let res = migrate(&mut state, &Env { block_time: START }, MigrateMsg {}).unwrap();
    assert_eq!(res.attributes[0].value, "migrate");
    assert_eq!(state, before);
    match query(&state, &Env { block_time: START }, QueryMsg::Config {}).unwrap() {
        QueryResponse::Config(config) => {
            assert_eq!(config.referral_commission_bps, 500);
            assert_eq!(config.batch_limit, 20);
            assert_eq!(config.claim_interval, 0);
        }
        other => panic!("unexpected answer {:?}", other),
    }
}

#[test]
fn storage_keys_are_read_back() {
    assert_eq!(AssetInfo::from_key("c:addr1".to_string()), AssetInfo::Cw20("addr1".to_string()));
    assert_eq!(AssetInfo::from_key("n:paxi".to_string()), AssetInfo::Native("paxi".to_string()));
    assert_eq!(AssetInfo::from_key("x:foo".to_string()), AssetInfo::Native("foo".to_string()));
    assert_eq!(AssetInfo::from_key("cc:foo".to_string()), AssetInfo::Native("foo".to_string()));
    assert_eq!(AssetInfo::from_key(":".to_string()), AssetInfo::Native("".to_string()));
    assert_eq!(AssetInfo::from_key("c:a:b".to_string()), AssetInfo::Cw20("a:b".to_string()));
    let asset = AssetInfo::Cw20("é:ü".to_string());
    assert_eq!(AssetInfo::from_key(asset.to_key()), asset);
}

#[test]
fn amounts_are_written_in_decimal() {
    assert_eq!(amount_text(0), "0");
    assert_eq!(amount_text(250), "250");
    assert_eq!(amount_text(u128::MAX), "340282366920938463463374607431768211455");
    assert_eq!(
        transfer_msg(&AssetInfo::Cw20("token".to_string()), &"user".to_string(), 5),
        CosmosMsg::Cw20Transfer {
            contract_addr: "token".to_string(),
            recipient: "user".to_string(),
            amount: 5
        }
    );
}

fn room(tokens: &[&str], is_and_rule: bool, min: u128, weight: u128, rewards: Vec<RoomReward>) -> Room {
    Room {
        id: 1,
        name: "Room".to_string(),
        stake_config: StakeConfig {
            stake_tokens: tokens.iter().map(|t| t.to_string()).collect(),
            is_and_rule,
            min_stake_amount: min,
        },
        reward_configs: rewards,
        nft_config: None,
        auto_compound_config: AutoCompoundConfig {
            enabled: false,
            min_stake_threshold: 0,
            nft_required: false,
        },
        total_staked_weight: weight,
        last_update_time: START,
        early_withdraw_penalty: Decimal::zero(),
        cooldown_period: 0,
        paused: false,
    }
}

fn reward(emission: u128, deposited: u128, claimed: u128) -> RoomReward {
    RoomReward {
        reward_token: AssetInfo::Cw20("reward".to_string()),
        emission_per_second: emission,
        total_deposited: deposited,
        total_claimed: claimed,
        acc_reward_per_share: Decimal::zero(),
    }
}

fn holder(stakes: &[(&str, u128)], multiplier: Decimal) -> UserPosition {
    UserPosition {
        room_id: 1,
        user: "user".to_string(),
        staked_amounts: stakes.iter().map(|(t, a)| (t.to_string(), *a)).collect(),
        last_reward_per_share: vec![],
        pending_rewards: vec![],
        staked_at: START,
        last_interaction: START,
        auto_compound_enabled: false,
        nft_multiplier: multiplier,
    }
}

#[test]
fn emission_is_capped_by_what_is_left() {
    let capped = advance_config(&reward(100, 500, 0), 1000, 10).unwrap();
    assert_eq!(capped.acc_reward_per_share, Decimal::percent(50));
    let partly_claimed = advance_config(&reward(100, 500, 400), 1000, 10).unwrap();
    assert_eq!(partly_claimed.acc_reward_per_share, Decimal::percent(10));
    let uncapped = advance_config(&reward(100, 5000, 0), 1000, 10).unwrap();
    assert_eq!(uncapped.acc_reward_per_share, Decimal::one());
    let empty = advance_config(&reward(100, 500, 500), 1000, 10).unwrap();
    assert_eq!(empty.acc_reward_per_share, Decimal::zero());
    let unweighted = advance_config(&reward(100, 500, 0), 0, 10).unwrap();
    assert_eq!(unweighted.acc_reward_per_share, Decimal::zero());
    let overflowing_emission = advance_config(&reward(u128::MAX, 500, 0), 1000, 10).unwrap();
    assert_eq!(overflowing_emission.acc_reward_per_share, Decimal::percent(50));
    assert_eq!(
        advance_config(&reward(u128::MAX, u128::MAX, 0), 1, 10),
        Err(StakingError::Overflow)
    );
    let mut full = reward(100, 500, 0);
    full.acc_reward_per_share = Decimal::raw(u128::MAX);
    assert_eq!(advance_config(&full, 1000, 10), Err(StakingError::Overflow));
    // whatever the weights, the shares together stay within what was left
    let third = advance_config(&reward(100, 500, 0), 3, 10).unwrap();
    assert_eq!(third.acc_reward_per_share, Decimal::raw(166_666_666_666_666_666_666));
}

#[test]
fn room_update_moves_time_and_accumulators_together() {
    let mut r = room(&["a"], false, 0, 1000, vec![reward(100, 500, 0)]);
    update_room_rewards(&mut r, START + 3).unwrap();
    assert_eq!(r.reward_configs[0].acc_reward_per_share, Decimal::percent(30));
    assert_eq!(r.last_update_time, START + 3);
    update_room_rewards(&mut r, START + 3).unwrap();
    assert_eq!(r.reward_configs[0].acc_reward_per_share, Decimal::percent(30));

    let mut empty = room(&["a"], false, 0, 0, vec![reward(100, 500, 0)]);
    update_room_rewards(&mut empty, START + 3).unwrap();
    assert_eq!(empty.reward_configs[0].acc_reward_per_share, Decimal::zero());
    assert_eq!(empty.last_update_time, START + 3);

    let mut broken = room(&["a"], false, 0, 1, vec![reward(1, 9, 0), reward(u128::MAX, u128::MAX, 0)]);
    let before = broken.clone();
    assert_eq!(update_room_rewards(&mut broken, START + 3), Err(StakingError::Overflow));
    assert_eq!(broken, before);
}

#[test]
fn weight_follows_the_staking_rule() {
    let both = room(&["a", "b"], true, 100, 0, vec![]);
    let any = room(&["a", "b"], false, 100, 0, vec![]);
    let one = Decimal::one();
    assert_eq!(calculate_user_weight(&holder(&[("a", 500)], one), &both), Ok(0));
    assert_eq!(calculate_user_weight(&holder(&[("a", 500), ("b", 99)], one), &both), Ok(0));
    assert_eq!(calculate_user_weight(&holder(&[("a", 500), ("b", 100)], one), &both), Ok(600));
    assert_eq!(calculate_user_weight(&holder(&[("a", 99)], one), &any), Ok(0));
    assert_eq!(calculate_user_weight(&holder(&[("a", 60), ("b", 40)], one), &any), Ok(100));
    assert_eq!(
        calculate_user_weight(&holder(&[("a", 60), ("b", 41)], Decimal::percent(150)), &any),
        Ok(151)
    );
    assert_eq!(calculate_user_weight(&holder(&[("a", 500)], Decimal::zero()), &any), Ok(0));
    assert_eq!(
        calculate_user_weight(&holder(&[("a", u128::MAX), ("b", 1)], one), &any),
        Err(StakingError::Overflow)
    );
    assert_eq!(calculate_user_weight(&holder(&[("a", u128::MAX), ("b", 1)], one), &both), Ok(0));
    assert_eq!(
        calculate_user_weight(&holder(&[("a", u128::MAX)], Decimal::percent(101)), &any),
        Err(StakingError::Overflow)
    );
}

#[test]
fn position_settles_against_every_reward_asset() {
    let mut rewards = vec![reward(0, 0, 0), reward(0, 0, 0)];
    rewards[0].acc_reward_per_share = Decimal::percent(50);
    rewards[1].reward_token = AssetInfo::Native("paxi".to_string());
    rewards[1].acc_reward_per_share = Decimal::percent(300);
    let r = room(&["a"], false, 0, 1000, rewards);
    let mut pos = holder(&[("a", 1000)], Decimal::one());
    update_user_rewards(&mut pos, &r, 1000).unwrap();
    assert_eq!(
        pos.pending_rewards,
        vec![
            (AssetInfo::Cw20("reward".to_string()), 500),
            (AssetInfo::Native("paxi".to_string()), 3000)
        ]
    );
    let once = pos.clone();
    update_user_rewards(&mut pos, &r, 77).unwrap();
    assert_eq!(pos, once);

    let mut behind = holder(&[("a", 1000)], Decimal::one());
    behind.last_reward_per_share = vec![(AssetInfo::Native("paxi".to_string()), Decimal::percent(301))];
    let before = behind.clone();
    assert_eq!(update_user_rewards(&mut behind, &r, 1000), Err(StakingError::Overflow));
    assert_eq!(behind, before);
}

#[test]
fn room_without_credential_gives_everybody_one() {
    let r = room(&["a"], false, 0, 0, vec![]);
    assert_eq!(query_nft_multiplier(&r, None), Decimal::one());
    assert_eq!(query_nft_multiplier(&r, Some(false)), Decimal::one());
    assert_eq!(query_nft_multiplier(&r, Some(true)), Decimal::one());
}

#[test]
fn total_locked_is_the_sum_of_the_open_locks() {
    let mut state = controller();
    add_pool(&mut state, START, "lp");
    open_lock(&mut state, START, 1, "user", 1000, 31);
    open_lock(&mut state, START, 2, "other", 250, 31);
    assert_eq!(state.total_staked.len(), 1);
    assert_eq!(state.total_staked[0].amount, 1250);
    assert_eq!(state.total_staked[0].weight, 1500);
    hook(&mut state, START + DAY, LockerHookMsg::OnUnlock { locker_id: 1, owner: "user".to_string() })
        .unwrap();
    assert_eq!(state.total_staked[0].amount, 250);
    assert_eq!(state.total_staked[0].weight, 300);
    assert_eq!(state.user_stakes.len(), 1);
    assert_eq!(state.user_stakes[0].locker_id, 2);
    assert!(state.user_rewards.iter().all(|r| r.locker_id == 2));
    hook(&mut state, START + DAY, LockerHookMsg::OnExtend { locker_id: 2, new_unlock_time: 0 })
        .unwrap();
    assert_eq!(state.total_staked[0].amount, 250);
    assert_eq!(state.total_staked[0].weight, 250);
    assert_eq!(state.user_stakes[0].bonus_multiplier, Decimal::one());
}

#[test]
fn reopened_lock_counts_once_in_the_totals() {
    let mut state = controller();
    add_pool(&mut state, START, "lp");
    open_lock(&mut state, START, 1, "user", 1000, 31);
    open_lock(&mut state, START, 2, "other", 250, 10);
    assert_eq!(state.total_staked[0].amount, 1250);
    assert_eq!(state.total_staked[0].weight, 1450);
    open_lock(&mut state, START + DAY, 1, "user", 400, 365);
    assert_eq!(state.user_stakes.len(), 2);
    assert_eq!(state.user_stakes[0].lp_amount, 400);
    assert_eq!(state.total_staked[0].amount, 650);
    assert_eq!(state.total_staked[0].weight, 1250);
}

#[test]
fn transfers_are_listed_by_asset_and_amount() {
    let token = CosmosMsg::Cw20Transfer {
        contract_addr: "reward".to_string(),
        recipient: "user".to_string(),
        amount: 10000,
    };
    let coin = CosmosMsg::BankSend {
        to_address: "user".to_string(),
        denom: "upaxi".to_string(),
        amount: 0,
    };
    assert_eq!(describe_transfer(&token), "Cw20(Addr(\"reward\")):10000");
    assert_eq!(describe_transfer(&coin), "Native(\"upaxi\"):0");
    assert_eq!(describe_transfers(&vec![]), "");
    assert_eq!(describe_transfers(&vec![coin]), "Native(\"upaxi\"):0");
    let both = vec![
        token,
        CosmosMsg::BankSend {
            to_address: "user".to_string(),
            denom: "a\\b".to_string(),
            amount: 7,
        },
    ];
    assert_eq!(describe_transfers(&both), "Cw20(Addr(\"reward\")):10000, Native(\"a\\\\b\"):7");
}

#[test]
fn listing_puts_the_name_under_the_tag_and_joins_with_commas() {
    let token = CosmosMsg::Cw20Transfer {
        contract_addr: "reward".to_string(),
        recipient: "user".to_string(),
        amount: 12,
    };
    let coin = CosmosMsg::BankSend {
        to_address: "user".to_string(),
        denom: "upaxi".to_string(),
        amount: 340282366920938463463374607431768211455,
    };
    assert_eq!(list_transfer(&token, &"<name>".to_string()), "Cw20(Addr(<name>)):12");
    assert_eq!(list_transfer(&token, &String::new()), "Cw20(Addr()):12");
    assert_eq!(
        list_transfer(&coin, &"'x'".to_string()),
        "Native('x'):340282366920938463463374607431768211455"
    );
    assert_eq!(join_texts(&vec![]), "");
    assert_eq!(join_texts(&vec!["one".to_string()]), "one");
    assert_eq!(
        join_texts(&vec!["one".to_string(), String::new(), "three".to_string()]),
        "one, , three"
    );
}
