//! Pool management, funding, configuration and referral registration.

use vstd::prelude::*;
use crate::host::{
    amount_text, decimal_text, transfer_msg, transfer_of, CosmosMsg, Env, MessageInfo, Response,
    ResponseView,
};
use crate::math::Decimal;
use crate::reward_controller::settlement::{pool_updated, update_pool};
use crate::reward_controller::error::{ContractError, StdError};
use crate::reward_controller::msg::Cw20ReceiveMsg;
use crate::reward_controller::msg::Cw20HookMsg;
use crate::reward_controller::state::{
    find_pool, find_referral, pool_slot, referral_slot, AssetInfo, DynamicAPRConfig, Referral,
    ReferrerBalance, RewardConfig, RewardPool, State, StateView,
};
use crate::reward_controller::query::balances_of;
use crate::table::{lemma_without_clears, lemma_without_step, no_match, without};

verus! {

/// A response that carries one attribute beside its action.
pub open spec fn action_response(action: Seq<char>, key: Seq<char>, value: Seq<char>) -> ResponseView {
    ResponseView { messages: Seq::empty(), attributes: seq![("action"@, action), (key, value)] }
}

/// A response that carries its action alone.
pub open spec fn plain_response(action: Seq<char>) -> ResponseView {
    ResponseView { messages: Seq::empty(), attributes: seq![("action"@, action)] }
}

/// The pool that a creation at `now` adds.
pub open spec fn new_pool(
    pool_id: u64,
    lp_token: String,
    reward_token: AssetInfo,
    apr: Decimal,
    dynamic_config: Option<DynamicAPRConfig>,
    now: u64,
) -> RewardPool {
    RewardPool {
        pool_id,
        lp_token,
        reward_token,
        total_deposited: 0,
        total_claimed: 0,
        apr,
        dynamic_config,
        last_update: now,
        reward_per_token_stored: Decimal { atomics: 0 },
        enabled: true,
    }
}

/// The creation of a pool by the administrator: the pool gets the next id,
/// starts enabled and empty at the time `now`, and is appended to the pools.
pub open spec fn pool_created(
    s: StateView,
    now: u64,
    sender: String,
    lp_token: String,
    reward_token: AssetInfo,
    apr: Decimal,
    dynamic_config: Option<DynamicAPRConfig>,
) -> Result<(StateView, ResponseView), ContractError> {
    if sender@ != s.config.admin@ {
        Err(ContractError::Unauthorized)
    } else if s.config.next_pool_id == u64::MAX {
        Err(ContractError::Overflow)
    } else {
        Ok(
            (
                StateView {
                    config: RewardConfig {
                        next_pool_id: (s.config.next_pool_id + 1) as u64,
                        ..s.config
                    },
                    pools: s.pools.push(
                        new_pool(
                            s.config.next_pool_id,
                            lp_token,
                            reward_token,
                            apr,
                            dynamic_config,
                            now,
                        ),
                    ),
                    ..s
                },
                action_response(
                    "create_reward_pool"@,
                    "pool_id"@,
                    decimal_text(s.config.next_pool_id as nat),
                ),
            ),
        )
    }
}

/// Creates a pool. Only the administrator may.
pub fn execute_create_pool(
    state: &mut State,
    env: &Env,
    info: &MessageInfo,
    lp_token: String,
    reward_token: AssetInfo,
    apr: Decimal,
    dynamic_config: Option<DynamicAPRConfig>,
) -> (r: Result<Response, ContractError>)
    ensures
        match r {
            Ok(response) => pool_created(
                old(state)@,
                env.block_time,
                info.sender,
                lp_token,
                reward_token,
                apr,
                dynamic_config,
            ) == Ok::<(StateView, ResponseView), ContractError>((final(state)@, response@)),
            Err(e) => pool_created(
                old(state)@,
                env.block_time,
                info.sender,
                lp_token,
                reward_token,
                apr,
                dynamic_config,
            ) == Err::<(StateView, ResponseView), ContractError>(e) && final(state)@ == old(state)@,
        },
{
    if info.sender != state.config.admin {
        return Err(ContractError::Unauthorized);
    }
    let pool_id = state.config.next_pool_id;
    if pool_id == u64::MAX {
        return Err(ContractError::Overflow);
    }
    state.config.next_pool_id = pool_id + 1;
    state.pools.push(
        RewardPool {
            pool_id,
            lp_token,
            reward_token,
            total_deposited: 0,
            total_claimed: 0,
            apr,
            dynamic_config,
            last_update: env.block_time,
            reward_per_token_stored: Decimal::zero(),
            enabled: true,
        },
    );
    let response = Response::new().add_attribute_str("action", "create_reward_pool").add_attribute(
        "pool_id",
        amount_text(pool_id as u128),
    );
    assert(response@.attributes =~= action_response(
        "create_reward_pool"@,
        "pool_id"@,
        decimal_text(pool_id as nat),
    ).attributes);
    Ok(response)
}

/// The registration of `referrer` as the referrer of `sender`: refused for
/// oneself and for a participant who has a referrer already.
pub open spec fn referral_registered(s: StateView, sender: String, referrer: String) -> Result<
    (StateView, ResponseView),
    ContractError,
> {
    if sender@ == referrer@ {
        Err(ContractError::Std(StdError::SelfReferral))
    } else if referral_slot(s.referrals, sender@) is Some {
        Err(ContractError::Std(StdError::ReferralAlreadyRegistered))
    } else {
        Ok(
            (
                StateView { referrals: s.referrals.push(Referral { referee: sender, referrer }), ..s },
                ResponseView {
                    messages: Seq::empty(),
                    attributes: seq![
                        ("action"@, "register_referral"@),
                        ("referrer"@, referrer@),
                        ("referee"@, sender@),
                    ],
                },
            ),
        )
    }
}

/// Registers `referrer` as the caller's referrer, once and for all.
pub fn execute_register_referral(state: &mut State, info: &MessageInfo, referrer: String) -> (r: Result<
    Response,
    ContractError,
>)
    ensures
        match r {
            Ok(response) => referral_registered(old(state)@, info.sender, referrer) == Ok::<
                (StateView, ResponseView),
                ContractError,
            >((final(state)@, response@)),
            Err(e) => referral_registered(old(state)@, info.sender, referrer) == Err::<
                (StateView, ResponseView),
                ContractError,
            >(e) && final(state)@ == old(state)@,
        },
{
    if info.sender == referrer {
        return Err(ContractError::Std(StdError::SelfReferral));
    }
    if find_referral(&state.referrals, &info.sender).is_some() {
        return Err(ContractError::Std(StdError::ReferralAlreadyRegistered));
    }
    let response = Response::new().add_attribute_str("action", "register_referral").add_attribute(
        "referrer",
        referrer.clone(),
    ).add_attribute("referee", info.sender.clone());
    assert(response@.attributes =~= seq![
        ("action"@, "register_referral"@),
        ("referrer"@, referrer@),
        ("referee"@, info.sender@),
    ]);
    state.referrals.push(Referral { referee: info.sender.clone(), referrer });
    Ok(response)
}

/// Whether a balance is one that a sweep by `referrer` pays out: it is
/// theirs and it is not empty.
pub open spec fn swept_hit(referrer: Seq<char>) -> spec_fn(ReferrerBalance) -> bool {
    |b: ReferrerBalance| b.referrer@ == referrer && b.amount != 0
}

/// The transfers that pay `referrer` every balance of theirs that is not
/// empty, in the order of the balances.
pub open spec fn sweep_messages(balances: Seq<ReferrerBalance>, referrer: String) -> Seq<CosmosMsg>
    decreases balances.len(),
{
    if balances.len() == 0 {
        Seq::empty()
    } else if swept_hit(referrer@)(balances.last()) {
        sweep_messages(balances.drop_last(), referrer).push(
            transfer_of(balances.last().asset, referrer, balances.last().amount),
        )
    } else {
        sweep_messages(balances.drop_last(), referrer)
    }
}

/// A referrer's claim: every balance of theirs that is not empty is removed
/// and paid to them. A referrer with nothing to be paid is refused.
pub open spec fn referral_rewards_claimed(s: StateView, sender: String) -> Result<
    (StateView, ResponseView),
    ContractError,
> {
    if sweep_messages(s.referrer_balances, sender).len() == 0 {
        Err(ContractError::NoRewards)
    } else {
        Ok(
            (
                StateView {
                    referrer_balances: without(s.referrer_balances, swept_hit(sender@)),
                    ..s
                },
                ResponseView {
                    messages: sweep_messages(s.referrer_balances, sender),
                    attributes: seq![
                        ("action"@, "claim_referral_rewards"@),
                        ("referrer"@, sender@),
                    ],
                },
            ),
        )
    }
}

proof fn lemma_sweep_is_empty(balances: Seq<ReferrerBalance>, referrer: String)
    ensures
        sweep_messages(balances, referrer).len() == 0 <==> no_match(
            balances,
            swept_hit(referrer@),
        ),
    decreases balances.len(),
{
    if balances.len() > 0 {
        let front = balances.drop_last();
        lemma_sweep_is_empty(front, referrer);
        assert(balances.last() == balances[balances.len() - 1]);
        if no_match(balances, swept_hit(referrer@)) {
            assert forall|k: int| 0 <= k < front.len() implies !swept_hit(referrer@)(
                #[trigger] front[k],
            ) by {
                assert(front[k] == balances[k]);
            }
        }
        if sweep_messages(balances, referrer).len() == 0 {
            assert forall|k: int| 0 <= k < balances.len() implies !swept_hit(referrer@)(
                #[trigger] balances[k],
            ) by {
                if k < front.len() {
                    assert(front[k] == balances[k]);
                }
            }
        }
    }
}

proof fn lemma_sweep_spares_others(balances: Seq<ReferrerBalance>, referrer: Seq<char>, other: Seq<char>)
    requires
        other != referrer,
    ensures
        balances_of(without(balances, swept_hit(referrer)), other) == balances_of(balances, other),
    decreases balances.len(),
{
    if balances.len() > 0 {
        let front = balances.drop_last();
        lemma_sweep_spares_others(front, referrer, other);
        if !swept_hit(referrer)(balances.last()) {
            let kept = without(front, swept_hit(referrer));
            assert(kept.push(balances.last()).drop_last() =~= kept);
        }
    }
}

/// A referrer's claim pays the referrer alone and pays once: it succeeds
/// exactly where the caller has a balance that is not empty, every balance of
/// another participant stays as it was, and a second claim right after it is
/// refused for want of anything to pay.
pub proof fn lemma_referral_claim_pays_once(s: StateView, sender: String, other: Seq<char>)
    requires
        other != sender@,
    ensures
        referral_rewards_claimed(s, sender) is Ok <==> !no_match(
            s.referrer_balances,
            swept_hit(sender@),
        ),
        match referral_rewards_claimed(s, sender) {
            Ok((after, response)) => {
                &&& response.messages == sweep_messages(s.referrer_balances, sender)
                &&& balances_of(after.referrer_balances, other) == balances_of(s.referrer_balances, other)
                &&& referral_rewards_claimed(after, sender) == Err::<
                    (StateView, ResponseView),
                    ContractError,
                >(ContractError::NoRewards)
                &&& after.pools == s.pools
                &&& after.user_rewards == s.user_rewards
            },
            Err(e) => e == ContractError::NoRewards,
        },
{
    lemma_sweep_is_empty(s.referrer_balances, sender);
    match referral_rewards_claimed(s, sender) {
        Ok((after, _)) => {
            lemma_sweep_spares_others(s.referrer_balances, sender@, other);
            lemma_without_clears(s.referrer_balances, swept_hit(sender@));
            lemma_sweep_is_empty(after.referrer_balances, sender);
        },
        Err(_) => {},
    }
}

/// Pays the caller every commission balance of theirs that is not empty.
pub fn execute_claim_referral_rewards(state: &mut State, env: &Env, info: &MessageInfo) -> (r: Result<
    Response,
    ContractError,
>)
    ensures
        match r {
            Ok(response) => referral_rewards_claimed(old(state)@, info.sender) == Ok::<
                (StateView, ResponseView),
                ContractError,
            >((final(state)@, response@)),
            Err(e) => referral_rewards_claimed(old(state)@, info.sender) == Err::<
                (StateView, ResponseView),
                ContractError,
            >(e) && final(state)@ == old(state)@,
        },
{
    let mut messages: Vec<CosmosMsg> = Vec::new();
    let mut kept: Vec<ReferrerBalance> = Vec::new();
    let mut i: usize = 0;
    while i < state.referrer_balances.len()
        invariant
            i <= state.referrer_balances.len(),
            *state == *old(state),
            kept@ == without(state.referrer_balances@.take(i as int), swept_hit(info.sender@)),
            messages@ == sweep_messages(state.referrer_balances@.take(i as int), info.sender),
        decreases state.referrer_balances.len() - i,
    {
        proof {
            lemma_without_step(state.referrer_balances@, swept_hit(info.sender@), i as int);
            assert(state.referrer_balances@.take(i + 1).drop_last()
                =~= state.referrer_balances@.take(i as int));
        }
        let balance = &state.referrer_balances[i];
        if balance.referrer == info.sender && balance.amount != 0 {
            messages.push(transfer_msg(&balance.asset, &info.sender, balance.amount));
        } else {
            kept.push(balance.clone());
        }
        i = i + 1;
    }
    assert(state.referrer_balances@.take(state.referrer_balances.len() as int)
        =~= state.referrer_balances@);
    if messages.len() == 0 {
        return Err(ContractError::NoRewards);
    }
    state.referrer_balances = kept;
    let response = Response::new().add_messages(messages).add_attribute_str(
        "action",
        "claim_referral_rewards",
    ).add_attribute("referrer", info.sender.clone());
    assert(response@.attributes =~= seq![
        ("action"@, "claim_referral_rewards"@),
        ("referrer"@, info.sender@),
    ]);
    assert(response@.messages =~= messages@);
    Ok(response)
}

/// A pool with the given changes applied; an absent change keeps what is.
pub open spec fn pool_changed(
    pool: RewardPool,
    apr: Option<Decimal>,
    dynamic_config: Option<Option<DynamicAPRConfig>>,
    enabled: Option<bool>,
) -> RewardPool {
    RewardPool {
        apr: match apr {
            Some(apr) => apr,
            None => pool.apr,
        },
        dynamic_config: match dynamic_config {
            Some(config) => config,
            None => pool.dynamic_config,
        },
        enabled: match enabled {
            Some(enabled) => enabled,
            None => pool.enabled,
        },
        ..pool
    }
}

/// A change of a pool's parameters by the administrator: the pool is brought
/// up to `now` under its old parameters first.
pub open spec fn reward_pool_updated(
    s: StateView,
    now: u64,
    sender: String,
    pool_id: u64,
    apr: Option<Decimal>,
    dynamic_config: Option<Option<DynamicAPRConfig>>,
    enabled: Option<bool>,
) -> Result<(StateView, ResponseView), ContractError> {
    if sender@ != s.config.admin@ {
        Err(ContractError::Unauthorized)
    } else {
        match (pool_updated(s, now, pool_id), pool_slot(s.pools, pool_id)) {
            (Ok(s1), Some(i)) => Ok(
                (
                    StateView {
                        pools: s1.pools.update(
                            i,
                            pool_changed(s1.pools[i], apr, dynamic_config, enabled),
                        ),
                        ..s1
                    },
                    action_response("update_pool"@, "pool_id"@, decimal_text(pool_id as nat)),
                ),
            ),
            (Err(e), _) => Err(e),
            (_, None) => Err(ContractError::PoolNotFound),
        }
    }
}

/// Changes the parameters of the pool `pool_id`. Only the administrator may.
pub fn execute_update_pool(
    state: &mut State,
    env: &Env,
    info: &MessageInfo,
    pool_id: u64,
    apr: Option<Decimal>,
    dynamic_config: Option<Option<DynamicAPRConfig>>,
    enabled: Option<bool>,
) -> (r: Result<Response, ContractError>)
    ensures
        match r {
            Ok(response) => reward_pool_updated(
                old(state)@,
                env.block_time,
                info.sender,
                pool_id,
                apr,
                dynamic_config,
                enabled,
            ) == Ok::<(StateView, ResponseView), ContractError>((final(state)@, response@)),
            Err(e) => reward_pool_updated(
                old(state)@,
                env.block_time,
                info.sender,
                pool_id,
                apr,
                dynamic_config,
                enabled,
            ) == Err::<(StateView, ResponseView), ContractError>(e) && final(state)@ == old(state)@,
        },
{
    if info.sender != state.config.admin {
        return Err(ContractError::Unauthorized);
    }
    let i = match update_pool(state, env, pool_id) {
        Ok(i) => i,
        Err(e) => {
            return Err(e);
        },
    };
    let mut pool = state.pools[i].clone();
    match apr {
        Some(apr) => {
            pool.apr = apr;
        },
        None => {},
    }
    match dynamic_config {
        Some(config) => {
            pool.dynamic_config = config;
        },
        None => {},
    }
    match enabled {
        Some(enabled) => {
            pool.enabled = enabled;
        },
        None => {},
    }
    state.pools.set(i, pool);
    let response = Response::new().add_attribute_str("action", "update_pool").add_attribute(
        "pool_id",
        amount_text(pool_id as u128),
    );
    assert(response@.attributes =~= action_response(
        "update_pool"@,
        "pool_id"@,
        decimal_text(pool_id as nat),
    ).attributes);
    Ok(response)
}

/// The funding of the pool `pool_id` with `amount` by `depositor`: only the
/// administrator funds a pool.
pub open spec fn rewards_deposited(
    s: StateView,
    depositor: String,
    pool_id: u64,
    amount: u128,
) -> Result<(StateView, ResponseView), ContractError> {
    if depositor@ != s.config.admin@ {
        Err(ContractError::Unauthorized)
    } else {
        match pool_slot(s.pools, pool_id) {
            None => Err(ContractError::PoolNotFound),
            Some(i) => if s.pools[i].total_deposited + amount > u128::MAX {
                Err(ContractError::Overflow)
            } else {
                Ok(
                    (
                        StateView {
                            pools: s.pools.update(
                                i,
                                RewardPool {
                                    total_deposited: (s.pools[i].total_deposited + amount) as u128,
                                    ..s.pools[i]
                                },
                            ),
                            ..s
                        },
                        action_response("deposit_rewards"@, "amount"@, decimal_text(amount as nat)),
                    ),
                )
            },
        }
    }
}

/// Adds `amount`, brought by `depositor`, to what the pool `pool_id` was
/// funded with.
pub fn deposit(state: &mut State, depositor: &String, pool_id: u64, amount: u128) -> (r: Result<
    Response,
    ContractError,
>)
    ensures
        match r {
            Ok(response) => rewards_deposited(old(state)@, *depositor, pool_id, amount) == Ok::<
                (StateView, ResponseView),
                ContractError,
            >((final(state)@, response@)),
            Err(e) => rewards_deposited(old(state)@, *depositor, pool_id, amount) == Err::<
                (StateView, ResponseView),
                ContractError,
            >(e) && final(state)@ == old(state)@,
        },
{
    if *depositor != state.config.admin {
        return Err(ContractError::Unauthorized);
    }
    let i = match find_pool(&state.pools, pool_id) {
        Some(i) => i,
        None => {
            return Err(ContractError::PoolNotFound);
        },
    };
    let total = match state.pools[i].total_deposited.checked_add(amount) {
        Some(total) => total,
        None => {
            return Err(ContractError::Overflow);
        },
    };
    let mut pool = state.pools[i].clone();
    pool.total_deposited = total;
    state.pools.set(i, pool);
    let response = Response::new().add_attribute_str("action", "deposit_rewards").add_attribute(
        "amount",
        amount_text(amount),
    );
    assert(response@.attributes =~= action_response(
        "deposit_rewards"@,
        "amount"@,
        decimal_text(amount as nat),
    ).attributes);
    Ok(response)
}

/// The amount of the first coin attached to a call; zero without one.
pub open spec fn first_fund(info: MessageInfo) -> u128 {
    if info.funds@.len() == 0 {
        0
    } else {
        info.funds@[0].amount
    }
}

/// Funds the pool `pool_id` with the first coin attached to the call, which
/// only the administrator may make.
pub fn execute_deposit_rewards(state: &mut State, env: &Env, info: &MessageInfo, pool_id: u64) -> (r:
    Result<Response, ContractError>)
    ensures
        match r {
            Ok(response) => rewards_deposited(
                old(state)@,
                info.sender,
                pool_id,
                first_fund(*info),
            ) == Ok::<(StateView, ResponseView), ContractError>((final(state)@, response@)),
            Err(e) => rewards_deposited(old(state)@, info.sender, pool_id, first_fund(*info))
                == Err::<(StateView, ResponseView), ContractError>(e) && final(state)@ == old(
                state,
            )@,
        },
{
    let amount = if info.funds.len() > 0 {
        info.funds[0].amount
    } else {
        0
    };
    deposit(state, &info.sender, pool_id, amount)
}

/// Tokens received from a token contract as funding: accepted only from the
/// token that the pool pays its rewards in, and only where the administrator
/// sent them.
pub open spec fn cw20_received(s: StateView, sender: String, wrapper: Cw20ReceiveMsg) -> Result<
    (StateView, ResponseView),
    ContractError,
> {
    match wrapper.msg {
        Cw20HookMsg::DepositRewards { pool_id } => match pool_slot(s.pools, pool_id) {
            None => Err(ContractError::PoolNotFound),
            Some(i) => match s.pools[i].reward_token {
                AssetInfo::Cw20(addr) => if addr@ != sender@ {
                    Err(ContractError::Unauthorized)
                } else {
                    rewards_deposited(s, wrapper.sender, pool_id, wrapper.amount)
                },
                AssetInfo::Native(_) => Err(ContractError::Unauthorized),
            },
        },
    }
}

/// Handles tokens received from a token contract as funding.
pub fn execute_receive(state: &mut State, env: &Env, info: &MessageInfo, wrapper: Cw20ReceiveMsg) -> (r:
    Result<Response, ContractError>)
    ensures
        match r {
            Ok(response) => cw20_received(old(state)@, info.sender, wrapper) == Ok::<
                (StateView, ResponseView),
                ContractError,
            >((final(state)@, response@)),
            Err(e) => cw20_received(old(state)@, info.sender, wrapper) == Err::<
                (StateView, ResponseView),
                ContractError,
            >(e) && final(state)@ == old(state)@,
        },
{
    match wrapper.msg {
        Cw20HookMsg::DepositRewards { pool_id } => {
            let i = match find_pool(&state.pools, pool_id) {
                Some(i) => i,
                None => {
                    return Err(ContractError::PoolNotFound);
                },
            };
            match &state.pools[i].reward_token {
                AssetInfo::Cw20(addr) => {
                    if *addr != info.sender {
                        return Err(ContractError::Unauthorized);
                    }
                },
                AssetInfo::Native(_) => {
                    return Err(ContractError::Unauthorized);
                },
            }
            deposit(state, &wrapper.sender, pool_id, wrapper.amount)
        },
    }
}

/// The withdrawal of `amount` of a pool's funding by the administrator:
/// refused beyond what the pool has not yet paid out.
pub open spec fn rewards_withdrawn(s: StateView, sender: String, pool_id: u64, amount: u128) -> Result<
    (StateView, ResponseView),
    ContractError,
> {
    if sender@ != s.config.admin@ {
        Err(ContractError::Unauthorized)
    } else {
        match pool_slot(s.pools, pool_id) {
            None => Err(ContractError::PoolNotFound),
            Some(i) => if s.pools[i].total_claimed > s.pools[i].total_deposited {
                Err(ContractError::Overflow)
            } else if amount > s.pools[i].total_deposited - s.pools[i].total_claimed {
                Err(ContractError::InsufficientRewards)
            } else {
                Ok(
                    (
                        StateView {
                            pools: s.pools.update(
                                i,
                                RewardPool {
                                    total_deposited: (s.pools[i].total_deposited - amount) as u128,
                                    ..s.pools[i]
                                },
                            ),
                            ..s
                        },
                        action_response("withdraw_rewards"@, "amount"@, decimal_text(amount as nat)),
                    ),
                )
            },
        }
    }
}

/// Takes `amount` out of the funding of the pool `pool_id`. Only the
/// administrator may.
pub fn execute_withdraw_rewards(
    state: &mut State,
    env: &Env,
    info: &MessageInfo,
    pool_id: u64,
    amount: u128,
) -> (r: Result<Response, ContractError>)
    ensures
        match r {
            Ok(response) => rewards_withdrawn(old(state)@, info.sender, pool_id, amount) == Ok::<
                (StateView, ResponseView),
                ContractError,
            >((final(state)@, response@)),
            Err(e) => rewards_withdrawn(old(state)@, info.sender, pool_id, amount) == Err::<
                (StateView, ResponseView),
                ContractError,
            >(e) && final(state)@ == old(state)@,
        },
{
    if info.sender != state.config.admin {
        return Err(ContractError::Unauthorized);
    }
    let i = match find_pool(&state.pools, pool_id) {
        Some(i) => i,
        None => {
            return Err(ContractError::PoolNotFound);
        },
    };
    let available = match state.pools[i].total_deposited.checked_sub(state.pools[i].total_claimed) {
        Some(available) => available,
        None => {
            return Err(ContractError::Overflow);
        },
    };
    if amount > available {
        return Err(ContractError::InsufficientRewards);
    }
    let mut pool = state.pools[i].clone();
    pool.total_deposited = pool.total_deposited - amount;
    state.pools.set(i, pool);
    let response = Response::new().add_attribute_str("action", "withdraw_rewards").add_attribute(
        "amount",
        amount_text(amount),
    );
    assert(response@.attributes =~= action_response(
        "withdraw_rewards"@,
        "amount"@,
        decimal_text(amount as nat),
    ).attributes);
    Ok(response)
}

/// The configuration with the given changes applied; an absent change keeps
/// what is.
pub open spec fn config_changed(
    config: RewardConfig,
    admin: Option<String>,
    lp_locker_contract: Option<String>,
    claim_interval: Option<u64>,
    referral_commission_bps: Option<u16>,
    batch_limit: Option<u32>,
) -> RewardConfig {
    RewardConfig {
        admin: match admin {
            Some(admin) => admin,
            None => config.admin,
        },
        lp_locker_contract: match lp_locker_contract {
            Some(locker) => locker,
            None => config.lp_locker_contract,
        },
        claim_interval: match claim_interval {
            Some(interval) => interval,
            None => config.claim_interval,
        },
        referral_commission_bps: match referral_commission_bps {
            Some(bps) => bps,
            None => config.referral_commission_bps,
        },
        batch_limit: match batch_limit {
            Some(limit) => limit,
            None => config.batch_limit,
        },
        ..config
    }
}

/// A change of the configuration by the administrator: a commission above
/// 10000 hundredths of a percent is refused.
pub open spec fn config_updated(
    s: StateView,
    sender: String,
    admin: Option<String>,
    lp_locker_contract: Option<String>,
    claim_interval: Option<u64>,
    referral_commission_bps: Option<u16>,
    batch_limit: Option<u32>,
) -> Result<(StateView, ResponseView), ContractError> {
    if sender@ != s.config.admin@ {
        Err(ContractError::Unauthorized)
    } else if referral_commission_bps is Some && referral_commission_bps.unwrap() > 10000 {
        Err(ContractError::Std(StdError::InvalidCommissionBps))
    } else {
        Ok(
            (
                StateView {
                    config: config_changed(
                        s.config,
                        admin,
                        lp_locker_contract,
                        claim_interval,
                        referral_commission_bps,
                        batch_limit,
                    ),
                    ..s
                },
                plain_response("update_config"@),
            ),
        )
    }
}

/// Changes the configuration. Only the administrator may.
pub fn execute_update_config(
    state: &mut State,
    info: &MessageInfo,
    admin: Option<String>,
    lp_locker_contract: Option<String>,
    claim_interval: Option<u64>,
    referral_commission_bps: Option<u16>,
    batch_limit: Option<u32>,
) -> (r: Result<Response, ContractError>)
    ensures
        match r {
            Ok(response) => config_updated(
                old(state)@,
                info.sender,
                admin,
                lp_locker_contract,
                claim_interval,
                referral_commission_bps,
                batch_limit,
            ) == Ok::<(StateView, ResponseView), ContractError>((final(state)@, response@)),
            Err(e) => config_updated(
                old(state)@,
                info.sender,
                admin,
                lp_locker_contract,
                claim_interval,
                referral_commission_bps,
                batch_limit,
            ) == Err::<(StateView, ResponseView), ContractError>(e) && final(state)@ == old(state)@,
        },
{
    if info.sender != state.config.admin {
        return Err(ContractError::Unauthorized);
    }
    match referral_commission_bps {
        Some(bps) => {
            if bps > 10000 {
                return Err(ContractError::Std(StdError::InvalidCommissionBps));
            }
            state.config.referral_commission_bps = bps;
        },
        None => {},
    }
    match admin {
        Some(admin) => {
            state.config.admin = admin;
        },
        None => {},
    }
    match lp_locker_contract {
        Some(locker) => {
            state.config.lp_locker_contract = locker;
        },
        None => {},
    }
    match claim_interval {
        Some(interval) => {
            state.config.claim_interval = interval;
        },
        None => {},
    }
    match batch_limit {
        Some(limit) => {
            state.config.batch_limit = limit;
        },
        None => {},
    }
    let response = Response::new().add_attribute_str("action", "update_config");
    assert(response@.attributes =~= plain_response("update_config"@).attributes);
    Ok(response)
}

/// The administrator sets the paused flag.
pub open spec fn paused_set(s: StateView, sender: String, paused: bool) -> Result<
    (StateView, ResponseView),
    ContractError,
> {
    if sender@ != s.config.admin@ {
        Err(ContractError::Unauthorized)
    } else {
        Ok(
            (
                StateView { config: RewardConfig { paused, ..s.config }, ..s },
                plain_response(
                    if paused {
                        "pause"@
                    } else {
                        "resume"@
                    },
                ),
            ),
        )
    }
}

/// Sets the paused flag. Only the administrator may.
pub fn execute_pause(state: &mut State, info: &MessageInfo) -> (r: Result<Response, ContractError>)
    ensures
        match r {
            Ok(response) => paused_set(old(state)@, info.sender, true) == Ok::<
                (StateView, ResponseView),
                ContractError,
            >((final(state)@, response@)),
            Err(e) => paused_set(old(state)@, info.sender, true) == Err::<
                (StateView, ResponseView),
                ContractError,
            >(e) && final(state)@ == old(state)@,
        },
{
    if info.sender != state.config.admin {
        return Err(ContractError::Unauthorized);
    }
    state.config.paused = true;
    let response = Response::new().add_attribute_str("action", "pause");
    assert(response@.attributes =~= plain_response("pause"@).attributes);
    Ok(response)
}

/// Clears the paused flag. Only the administrator may.
pub fn execute_resume(state: &mut State, info: &MessageInfo) -> (r: Result<Response, ContractError>)
    ensures
        match r {
            Ok(response) => paused_set(old(state)@, info.sender, false) == Ok::<
                (StateView, ResponseView),
                ContractError,
            >((final(state)@, response@)),
            Err(e) => paused_set(old(state)@, info.sender, false) == Err::<
                (StateView, ResponseView),
                ContractError,
            >(e) && final(state)@ == old(state)@,
        },
{
    if info.sender != state.config.admin {
        return Err(ContractError::Unauthorized);
    }
    state.config.paused = false;
    let response = Response::new().add_attribute_str("action", "resume");
    assert(response@.attributes =~= plain_response("resume"@).attributes);
    Ok(response)
}

} // verus!
