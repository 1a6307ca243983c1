//! The arithmetic of a staking room on single records: accumulator advance
//! under the solvency cap, the weight of a position, its settlement, and the
//! multiplier that a credential earns.

use vstd::prelude::*;
use crate::asset::same_asset;
use crate::math::{checked_mul_floor, checked_multiply_ratio, scaled, Decimal, DECIMAL_FRACTIONAL};
use crate::prc20_staking::error::ContractError;
use crate::prc20_staking::state::{
    clone_checkpoints, clone_pending, AssetInfo, NFTConfigView, NFTTierMultiplier, RewardConfig,
    Room, RoomView, UserPosition, UserPositionView,
};
use crate::table::{first_match, lemma_first_match_is, lemma_first_match_none, slot_of};

verus! {

impl RewardConfig {
    /// What the asset can still pay: funded less claimed.
    pub open spec fn available(self) -> int {
        if self.total_claimed <= self.total_deposited {
            self.total_deposited - self.total_claimed
        } else {
            0
        }
    }

    /// The asset was never asked to pay more than it was funded with.
    pub open spec fn solvent(self) -> bool {
        self.total_claimed <= self.total_deposited
    }
}

/// What an asset emits in `duration` seconds, cut down to what it can still
/// pay.
pub open spec fn capped_reward(config: RewardConfig, duration: u64) -> int {
    if config.emission_per_second * duration > config.available() {
        config.available()
    } else {
        config.emission_per_second * duration
    }
}

/// What `reward` adds to the accumulator of a room of the total weight
/// `weight`, in atomic units: the reward per unit of weight, rounded down.
pub open spec fn share_increase(reward: int, weight: u128) -> int {
    reward * (DECIMAL_FRACTIONAL as int) / (weight as int)
}

/// A reward asset after `duration` seconds in a room of the total weight
/// `weight`. Without weight nothing moves. Else the capped emission is spread
/// over the weight. A share that does not fit in 128 bits, and an
/// accumulator that would leave its range, are overflows.
pub open spec fn advanced_config(config: RewardConfig, weight: u128, duration: u64) -> Result<
    RewardConfig,
    ContractError,
> {
    let reward = capped_reward(config, duration);
    if weight == 0 || reward == 0 {
        Ok(config)
    } else if share_increase(reward, weight) > u128::MAX {
        Err(ContractError::Overflow)
    } else if config.acc_reward_per_share.atomics + share_increase(reward, weight) > u128::MAX {
        Err(ContractError::Overflow)
    } else {
        Ok(
            RewardConfig {
                acc_reward_per_share: Decimal {
                    atomics: (config.acc_reward_per_share.atomics + share_increase(
                        reward,
                        weight,
                    )) as u128,
                },
                ..config
            },
        )
    }
}

/// Whether every asset of `configs` can be advanced.
pub open spec fn configs_advance(configs: Seq<RewardConfig>, weight: u128, duration: u64) -> bool {
    forall|i: int|
        0 <= i < configs.len() ==> advanced_config(#[trigger] configs[i], weight, duration) is Ok
}

/// The assets of `configs`, each advanced.
pub open spec fn advanced_configs(configs: Seq<RewardConfig>, weight: u128, duration: u64) -> Seq<
    RewardConfig,
> {
    Seq::new(configs.len(), |i: int| advanced_config(configs[i], weight, duration).unwrap())
}

/// A room brought up to the time `now`. While the room has no weight, and
/// for a time that is not after the last update, only the update time is
/// set. Otherwise every reward asset is advanced by the elapsed time.
pub open spec fn rewards_updated(room: RoomView, now: u64) -> Result<RoomView, ContractError> {
    if room.total_staked_weight == 0 || now <= room.last_update_time {
        Ok(RoomView { last_update_time: now, ..room })
    } else {
        let duration = (now - room.last_update_time) as u64;
        if configs_advance(room.reward_configs, room.total_staked_weight, duration) {
            Ok(
                RoomView {
                    reward_configs: advanced_configs(
                        room.reward_configs,
                        room.total_staked_weight,
                        duration,
                    ),
                    last_update_time: now,
                    ..room
                },
            )
        } else {
            Err(ContractError::Overflow)
        }
    }
}

/// Advances one reward asset by `duration` seconds in a room of the total
/// weight `weight`.
pub fn advance_config(config: &RewardConfig, weight: u128, duration: u64) -> (r: Result<
    RewardConfig,
    ContractError,
>)
    ensures
        r == advanced_config(*config, weight, duration),
{
    if weight == 0 {
        return Ok(config.clone());
    }
    let available: u128 = if config.total_claimed <= config.total_deposited {
        config.total_deposited - config.total_claimed
    } else {
        0
    };
    let reward = match checked_multiply_ratio(config.emission_per_second, duration as u128, 1) {
        Ok(emitted) => if emitted > available {
            available
        } else {
            emitted
        },
        Err(_) => available,
    };
    if reward == 0 {
        return Ok(config.clone());
    }
    let share = match Decimal::checked_from_ratio(reward, weight) {
        Ok(share) => share,
        Err(_) => {
            return Err(ContractError::Overflow);
        },
    };
    match config.acc_reward_per_share.checked_add(share) {
        Some(acc) => {
            let mut advanced = config.clone();
            advanced.acc_reward_per_share = acc;
            Ok(advanced)
        },
        None => Err(ContractError::Overflow),
    }
}

/// Brings a room up to `current_time`. A failure changes nothing.
pub fn update_room_rewards(room: &mut Room, current_time: u64) -> (r: Result<(), ContractError>)
    ensures
        match r {
            Ok(()) => rewards_updated(old(room)@, current_time) == Ok::<RoomView, ContractError>(
                final(room)@,
            ),
            Err(e) => rewards_updated(old(room)@, current_time) == Err::<RoomView, ContractError>(e)
                && final(room)@ == old(room)@,
        },
{
    if room.total_staked_weight == 0 || current_time <= room.last_update_time {
        room.last_update_time = current_time;
        return Ok(());
    }
    let duration: u64 = current_time - room.last_update_time;
    let weight = room.total_staked_weight;
    let mut advanced: Vec<RewardConfig> = Vec::new();
    let mut i: usize = 0;
    while i < room.reward_configs.len()
        invariant
            i <= room.reward_configs.len(),
            *room == *old(room),
            weight == room.total_staked_weight,
            weight != 0,
            current_time > room.last_update_time,
            duration == current_time - room.last_update_time,
            advanced.len() == i,
            forall|j: int|
                0 <= j < i ==> advanced_config(#[trigger] room.reward_configs@[j], weight, duration)
                    == Ok::<RewardConfig, ContractError>(advanced@[j]),
        decreases room.reward_configs.len() - i,
    {
        match advance_config(&room.reward_configs[i], weight, duration) {
            Ok(config) => {
                advanced.push(config);
            },
            Err(e) => {
                assert(advanced_config(room.reward_configs@[i as int], weight, duration) is Err);
                return Err(ContractError::Overflow);
            },
        }
        i = i + 1;
    }
    assert(advanced@ =~= advanced_configs(room.reward_configs@, weight, duration));
    room.reward_configs = advanced;
    room.last_update_time = current_time;
    Ok(())
}

/// The sum of the staked amounts.
pub open spec fn staked_total(stakes: Seq<(String, u128)>) -> int
    decreases stakes.len(),
{
    if stakes.len() == 0 {
        0
    } else {
        staked_total(stakes.drop_last()) + stakes.last().1
    }
}

/// The stakes in the token `token`.
pub open spec fn token_hit(token: Seq<char>) -> spec_fn((String, u128)) -> bool {
    |e: (String, u128)| e.0@ == token
}

/// What is staked in `token`; zero where nothing is.
pub open spec fn staked_of(stakes: Seq<(String, u128)>, token: Seq<char>) -> u128 {
    match first_match(stakes, token_hit(token)) {
        Some(i) => stakes[i].1,
        None => 0,
    }
}

/// Whether every token of `tokens` is staked to at least `min`.
pub open spec fn all_staked(stakes: Seq<(String, u128)>, tokens: Seq<String>, min: u128) -> bool {
    forall|k: int| 0 <= k < tokens.len() ==> staked_of(stakes, (#[trigger] tokens[k])@) >= min
}

/// The weight of a position in a room.
///
/// Under the all-of rule a position that holds less than the minimum in any
/// of the room's tokens weighs nothing; under the any-of rule one whose
/// stakes sum to less than the minimum weighs nothing. Otherwise the weight
/// is the sum of the stakes times the position's multiplier, rounded down.
pub open spec fn user_weight(pos: UserPositionView, room: RoomView) -> Result<u128, ContractError> {
    let raw = staked_total(pos.staked_amounts);
    if room.stake_config.is_and_rule && !all_staked(
        pos.staked_amounts,
        room.stake_config.stake_tokens,
        room.stake_config.min_stake_amount,
    ) {
        Ok(0)
    } else if raw > u128::MAX {
        Err(ContractError::Overflow)
    } else if !room.stake_config.is_and_rule && raw < room.stake_config.min_stake_amount {
        Ok(0)
    } else if scaled(raw, pos.nft_multiplier.atomics as int) > u128::MAX {
        Err(ContractError::Overflow)
    } else {
        Ok(scaled(raw, pos.nft_multiplier.atomics as int) as u128)
    }
}

/// A sum of stakes never shrinks when more stakes are counted.
pub proof fn lemma_staked_total_grows(stakes: Seq<(String, u128)>, n: int)
    requires
        0 <= n <= stakes.len(),
    ensures
        0 <= staked_total(stakes.take(n)) <= staked_total(stakes),
    decreases stakes.len() - n,
{
    if n == stakes.len() {
        assert(stakes.take(n) =~= stakes);
        lemma_staked_total_nonnegative(stakes);
    } else {
        lemma_staked_total_grows(stakes, n + 1);
        assert(stakes.take(n + 1).drop_last() =~= stakes.take(n));
        lemma_staked_total_nonnegative(stakes.take(n));
    }
}

proof fn lemma_staked_total_nonnegative(stakes: Seq<(String, u128)>)
    ensures
        0 <= staked_total(stakes),
    decreases stakes.len(),
{
    if stakes.len() > 0 {
        lemma_staked_total_nonnegative(stakes.drop_last());
    }
}

/// The sum of the staked amounts, unless it leaves the 128-bit range.
pub fn total_stake(stakes: &Vec<(String, u128)>) -> (r: Option<u128>)
    ensures
        0 <= staked_total(stakes@),
        r == (if staked_total(stakes@) <= u128::MAX {
            Some(staked_total(stakes@) as u128)
        } else {
            None
        }),
{
    proof {
        lemma_staked_total_grows(stakes@, 0);
    }
    let mut total: u128 = 0;
    let mut i: usize = 0;
    while i < stakes.len()
        invariant
            i <= stakes.len(),
            total == staked_total(stakes@.take(i as int)),
        decreases stakes.len() - i,
    {
        assert(stakes@.take(i + 1).drop_last() =~= stakes@.take(i as int));
        match total.checked_add(stakes[i].1) {
            Some(sum) => {
                total = sum;
            },
            None => {
                proof {
                    lemma_staked_total_grows(stakes@, i + 1);
                }
                return None;
            },
        }
        i = i + 1;
    }
    assert(stakes@.take(stakes.len() as int) =~= stakes@);
    Some(total)
}

/// Where the stake in `token` stands.
pub fn find_stake(stakes: &Vec<(String, u128)>, token: &String) -> (found: Option<usize>)
    ensures
        slot_of(found) == first_match(stakes@, token_hit(token@)),
        found is Some ==> found.unwrap() < stakes.len(),
{
    let mut i: usize = 0;
    while i < stakes.len()
        invariant
            i <= stakes.len(),
            forall|j: int| 0 <= j < i ==> !token_hit(token@)(#[trigger] stakes@[j]),
        decreases stakes.len() - i,
    {
        if stakes[i].0 == *token {
            proof {
                lemma_first_match_is(stakes@, token_hit(token@), i as int);
            }
            return Some(i);
        }
        i = i + 1;
    }
    proof {
        lemma_first_match_none(stakes@, token_hit(token@));
    }
    None
}

/// Whether every token of `tokens` is staked to at least `min`.
pub fn meets_all(stakes: &Vec<(String, u128)>, tokens: &Vec<String>, min: u128) -> (met: bool)
    ensures
        met == all_staked(stakes@, tokens@, min),
{
    let mut k: usize = 0;
    while k < tokens.len()
        invariant
            k <= tokens.len(),
            forall|j: int| 0 <= j < k ==> staked_of(stakes@, (#[trigger] tokens@[j])@) >= min,
        decreases tokens.len() - k,
    {
        let staked = match find_stake(stakes, &tokens[k]) {
            Some(i) => stakes[i].1,
            None => 0,
        };
        if staked < min {
            assert(staked_of(stakes@, tokens@[k as int]@) < min);
            return false;
        }
        k = k + 1;
    }
    true
}

/// Computes the weight of a position in a room.
pub fn calculate_user_weight(user_pos: &UserPosition, room: &Room) -> (r: Result<u128, ContractError>)
    ensures
        r == user_weight(user_pos@, room@),
{
    if room.stake_config.is_and_rule {
        if !meets_all(
            &user_pos.staked_amounts,
            &room.stake_config.stake_tokens,
            room.stake_config.min_stake_amount,
        ) {
            return Ok(0);
        }
    }
    let raw = match total_stake(&user_pos.staked_amounts) {
        Some(raw) => raw,
        None => {
            return Err(ContractError::Overflow);
        },
    };
    if !room.stake_config.is_and_rule && raw < room.stake_config.min_stake_amount {
        return Ok(0);
    }
    match checked_mul_floor(raw, user_pos.nft_multiplier) {
        Some(weight) => Ok(weight),
        None => Err(ContractError::Overflow),
    }
}

/// The checkpoints for the asset `asset`.
pub open spec fn checkpoint_hit(asset: AssetInfo) -> spec_fn((AssetInfo, Decimal)) -> bool {
    |e: (AssetInfo, Decimal)| same_asset(e.0, asset)
}

/// The pending rewards in the asset `asset`.
pub open spec fn pending_hit(asset: AssetInfo) -> spec_fn((AssetInfo, u128)) -> bool {
    |e: (AssetInfo, u128)| same_asset(e.0, asset)
}

/// The accumulator of `asset` when the position was last settled; zero for
/// an asset that it never met.
pub open spec fn last_paid(checkpoints: Seq<(AssetInfo, Decimal)>, asset: AssetInfo) -> Decimal {
    match first_match(checkpoints, checkpoint_hit(asset)) {
        Some(i) => checkpoints[i].1,
        None => Decimal { atomics: 0 },
    }
}

/// What a position of the weight `weight` has earned in a reward asset
/// since its checkpoint: the weight times the growth of the accumulator,
/// rounded down.
pub open spec fn earned(checkpoints: Seq<(AssetInfo, Decimal)>, config: RewardConfig, weight: u128) -> Result<
    u128,
    ContractError,
> {
    let growth = config.acc_reward_per_share.atomics - last_paid(
        checkpoints,
        config.reward_token,
    ).atomics;
    if growth < 0 {
        Err(ContractError::Overflow)
    } else if scaled(weight as int, growth) > u128::MAX {
        Err(ContractError::Overflow)
    } else {
        Ok(scaled(weight as int, growth) as u128)
    }
}

/// The pending rewards with `amount` more of `asset`.
pub open spec fn pending_added(pending: Seq<(AssetInfo, u128)>, asset: AssetInfo, amount: u128) -> Option<
    Seq<(AssetInfo, u128)>,
> {
    match first_match(pending, pending_hit(asset)) {
        Some(i) => if pending[i].1 + amount > u128::MAX {
            None
        } else {
            Some(pending.update(i, (pending[i].0, (pending[i].1 + amount) as u128)))
        },
        None => Some(pending.push((asset, amount))),
    }
}

/// The checkpoints with the one of `asset` moved to `acc`.
pub open spec fn checkpoint_moved(
    checkpoints: Seq<(AssetInfo, Decimal)>,
    asset: AssetInfo,
    acc: Decimal,
) -> Seq<(AssetInfo, Decimal)> {
    match first_match(checkpoints, checkpoint_hit(asset)) {
        Some(i) => checkpoints.update(i, (checkpoints[i].0, acc)),
        None => checkpoints.push((asset, acc)),
    }
}

/// A position of the weight `weight` settled against one reward asset: what
/// it earned since its checkpoint is added to what is pending, and the
/// checkpoint moves to the asset's accumulator.
pub open spec fn reward_settled(pos: UserPositionView, config: RewardConfig, weight: u128) -> Result<
    UserPositionView,
    ContractError,
> {
    match earned(pos.last_reward_per_share, config, weight) {
        Err(e) => Err(e),
        Ok(amount) => match pending_added(pos.pending_rewards, config.reward_token, amount) {
            None => Err(ContractError::Overflow),
            Some(pending_rewards) => Ok(
                UserPositionView {
                    pending_rewards,
                    last_reward_per_share: checkpoint_moved(
                        pos.last_reward_per_share,
                        config.reward_token,
                        config.acc_reward_per_share,
                    ),
                    ..pos
                },
            ),
        },
    }
}

/// A position settled against the reward assets `configs` from index `from`
/// on.
pub open spec fn rewards_settled(
    pos: UserPositionView,
    configs: Seq<RewardConfig>,
    weight: u128,
    from: int,
) -> Result<UserPositionView, ContractError>
    decreases configs.len() - from,
{
    if from < 0 || from >= configs.len() {
        Ok(pos)
    } else {
        match reward_settled(pos, configs[from], weight) {
            Err(e) => Err(e),
            Ok(next) => rewards_settled(next, configs, weight, from + 1),
        }
    }
}

/// Where the checkpoint for `asset` stands.
pub fn find_checkpoint(checkpoints: &Vec<(AssetInfo, Decimal)>, asset: &AssetInfo) -> (found: Option<
    usize,
>)
    ensures
        slot_of(found) == first_match(checkpoints@, checkpoint_hit(*asset)),
        found is Some ==> found.unwrap() < checkpoints.len(),
{
    let mut i: usize = 0;
    while i < checkpoints.len()
        invariant
            i <= checkpoints.len(),
            forall|j: int| 0 <= j < i ==> !checkpoint_hit(*asset)(#[trigger] checkpoints@[j]),
        decreases checkpoints.len() - i,
    {
        if checkpoints[i].0.same(asset) {
            proof {
                lemma_first_match_is(checkpoints@, checkpoint_hit(*asset), i as int);
            }
            return Some(i);
        }
        i = i + 1;
    }
    proof {
        lemma_first_match_none(checkpoints@, checkpoint_hit(*asset));
    }
    None
}

/// Where the pending reward in `asset` stands.
pub fn find_pending(pending: &Vec<(AssetInfo, u128)>, asset: &AssetInfo) -> (found: Option<usize>)
    ensures
        slot_of(found) == first_match(pending@, pending_hit(*asset)),
        found is Some ==> found.unwrap() < pending.len(),
{
    let mut i: usize = 0;
    while i < pending.len()
        invariant
            i <= pending.len(),
            forall|j: int| 0 <= j < i ==> !pending_hit(*asset)(#[trigger] pending@[j]),
        decreases pending.len() - i,
    {
        if pending[i].0.same(asset) {
            proof {
                lemma_first_match_is(pending@, pending_hit(*asset), i as int);
            }
            return Some(i);
        }
        i = i + 1;
    }
    proof {
        lemma_first_match_none(pending@, pending_hit(*asset));
    }
    None
}

/// Settles pending rewards and checkpoints against one reward asset. A
/// settlement that fails changes nothing.
fn settle_reward(
    pending: &mut Vec<(AssetInfo, u128)>,
    checkpoints: &mut Vec<(AssetInfo, Decimal)>,
    config: &RewardConfig,
    weight: u128,
) -> (r: Result<(), ContractError>)
    ensures
        match r {
            Ok(()) => {
                &&& earned(old(checkpoints)@, *config, weight) is Ok
                &&& pending_added(
                    old(pending)@,
                    config.reward_token,
                    earned(old(checkpoints)@, *config, weight).unwrap(),
                ) == Some(final(pending)@)
                &&& final(checkpoints)@ == checkpoint_moved(
                    old(checkpoints)@,
                    config.reward_token,
                    config.acc_reward_per_share,
                )
            },
            Err(e) => {
                &&& e == ContractError::Overflow
                &&& final(pending)@ == old(pending)@
                &&& final(checkpoints)@ == old(checkpoints)@
                &&& match earned(old(checkpoints)@, *config, weight) {
                    Err(_) => true,
                    Ok(amount) => pending_added(old(pending)@, config.reward_token, amount) is None,
                }
            },
        },
{
    let slot = find_checkpoint(checkpoints, &config.reward_token);
    let paid = match slot {
        Some(i) => checkpoints[i].1,
        None => Decimal::zero(),
    };
    let growth = match config.acc_reward_per_share.checked_sub(paid) {
        Some(growth) => growth,
        None => {
            return Err(ContractError::Overflow);
        },
    };
    let amount = match checked_mul_floor(weight, growth) {
        Some(amount) => amount,
        None => {
            return Err(ContractError::Overflow);
        },
    };
    match find_pending(pending, &config.reward_token) {
        Some(i) => {
            match pending[i].1.checked_add(amount) {
                Some(sum) => {
                    let entry = (pending[i].0.clone(), sum);
                    pending.set(i, entry);
                },
                None => {
                    return Err(ContractError::Overflow);
                },
            }
        },
        None => {
            pending.push((config.reward_token.clone(), amount));
        },
    }
    match slot {
        Some(i) => {
            let entry = (checkpoints[i].0.clone(), config.acc_reward_per_share);
            checkpoints.set(i, entry);
        },
        None => {
            checkpoints.push((config.reward_token.clone(), config.acc_reward_per_share));
        },
    }
    Ok(())
}

/// Settles a position of the weight `weight` against every reward asset of
/// the room. A settlement that fails changes nothing.
pub fn update_user_rewards(user_pos: &mut UserPosition, room: &Room, weight: u128) -> (r: Result<
    (),
    ContractError,
>)
    ensures
        match r {
            Ok(()) => rewards_settled(old(user_pos)@, room@.reward_configs, weight, 0) == Ok::<
                UserPositionView,
                ContractError,
            >(final(user_pos)@),
            Err(e) => rewards_settled(old(user_pos)@, room@.reward_configs, weight, 0) == Err::<
                UserPositionView,
                ContractError,
            >(e) && final(user_pos)@ == old(user_pos)@,
        },
{
    let mut pending = clone_pending(&user_pos.pending_rewards);
    let mut checkpoints = clone_checkpoints(&user_pos.last_reward_per_share);
    let ghost start = user_pos@;
    let mut i: usize = 0;
    while i < room.reward_configs.len()
        invariant
            i <= room.reward_configs.len(),
            *user_pos == *old(user_pos),
            start == user_pos@,
            rewards_settled(start, room@.reward_configs, weight, 0) == rewards_settled(
                UserPositionView {
                    pending_rewards: pending@,
                    last_reward_per_share: checkpoints@,
                    ..start
                },
                room@.reward_configs,
                weight,
                i as int,
            ),
        decreases room.reward_configs.len() - i,
    {
        match settle_reward(&mut pending, &mut checkpoints, &room.reward_configs[i], weight) {
            Ok(()) => {},
            Err(e) => {
                return Err(e);
            },
        }
        i = i + 1;
    }
    user_pos.pending_rewards = pending;
    user_pos.last_reward_per_share = checkpoints;
    Ok(())
}

/// The highest multiplier among `tiers`, and at least one.
pub open spec fn highest_multiplier(tiers: Seq<NFTTierMultiplier>) -> Decimal
    decreases tiers.len(),
{
    if tiers.len() == 0 {
        Decimal { atomics: DECIMAL_FRACTIONAL }
    } else if tiers.last().multiplier.atomics > highest_multiplier(tiers.drop_last()).atomics {
        tiers.last().multiplier
    } else {
        highest_multiplier(tiers.drop_last())
    }
}

/// The multiplier that a participant's credential earns in a room.
///
/// `holding` says whether the participant was found to hold the room's
/// credential, or nothing where the holder registry could not be asked. A
/// room without a credential gives one to everybody. A holder gets the
/// highest multiplier of the room's tiers, and at least one. Who is not known
/// to hold one gets zero where the room requires the credential, else one.
pub open spec fn nft_multiplier(config: Option<NFTConfigView>, holding: Option<bool>) -> Decimal {
    match config {
        None => Decimal { atomics: DECIMAL_FRACTIONAL },
        Some(config) => if holding == Some(true) {
            highest_multiplier(config.tier_multipliers)
        } else if config.required_for_staking {
            Decimal { atomics: 0 }
        } else {
            Decimal { atomics: DECIMAL_FRACTIONAL }
        },
    }
}

/// Computes the multiplier that a participant's credential earns in a room,
/// given whether they were found to hold it.
pub fn query_nft_multiplier(room: &Room, holding: Option<bool>) -> (m: Decimal)
    ensures
        m == nft_multiplier(room@.nft_config, holding),
{
    let config = match &room.nft_config {
        Some(config) => config,
        None => {
            return Decimal::one();
        },
    };
    let holds = match holding {
        Some(holds) => holds,
        None => false,
    };
    if !holds {
        if config.required_for_staking {
            return Decimal::zero();
        }
        return Decimal::one();
    }
    let mut highest = Decimal::one();
    let mut i: usize = 0;
    while i < config.tier_multipliers.len()
        invariant
            i <= config.tier_multipliers.len(),
            highest == highest_multiplier(config.tier_multipliers@.take(i as int)),
        decreases config.tier_multipliers.len() - i,
    {
        assert(config.tier_multipliers@.take(i + 1).drop_last() =~= config.tier_multipliers@.take(
            i as int,
        ));
        if config.tier_multipliers[i].multiplier.atomics > highest.atomics {
            highest = config.tier_multipliers[i].multiplier;
        }
        i = i + 1;
    }
    assert(config.tier_multipliers@.take(config.tier_multipliers.len() as int)
        =~= config.tier_multipliers@);
    highest
}

} // verus!
