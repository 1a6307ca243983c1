//! The records of the reward controller and the tables that hold them.

use vstd::prelude::*;
use crate::math::Decimal;
use crate::table::{
    first_match, lemma_first_match_is, lemma_first_match_none, lemma_without_step, slot_of,
    without,
};

pub use crate::asset::AssetInfo;

verus! {

/// Global settings.
#[derive(Debug, PartialEq, Eq)]
pub struct RewardConfig {
    pub admin: String,
    pub lp_locker_contract: String,
    pub paused: bool,
    /// Least number of seconds between two payouts of one checkpoint.
    pub claim_interval: u64,
    pub next_pool_id: u64,
    /// The referrer's share of a payout, in hundredths of a percent.
    pub referral_commission_bps: u16,
    /// Most lockers one batch claim may name.
    pub batch_limit: u32,
}

/// How a pool's rate follows the total weight of the positions in its
/// collateral: the thresholds are weights.
#[derive(Clone, Copy, Debug, PartialEq, Eq, Structural)]
pub struct DynamicAPRConfig {
    pub base_apr: Decimal,
    pub tvl_threshold_low: u128,
    pub tvl_threshold_high: u128,
    pub adjustment_factor: Decimal,
}

/// One reward pool: its rate, its accumulator and its funding ledger.
#[derive(Debug, PartialEq, Eq)]
pub struct RewardPool {
    pub pool_id: u64,
    pub lp_token: String,
    pub reward_token: AssetInfo,
    pub total_deposited: u128,
    pub total_claimed: u128,
    /// The rate in effect, per year and unit of weight.
    pub apr: Decimal,
    pub dynamic_config: Option<DynamicAPRConfig>,
    pub last_update: u64,
    /// Reward earned so far by one unit of weight.
    pub reward_per_token_stored: Decimal,
    pub enabled: bool,
}

/// One locked position.
#[derive(Debug, PartialEq, Eq)]
pub struct UserStake {
    pub user: String,
    pub locker_id: u64,
    pub lp_token: String,
    pub lp_amount: u128,
    pub locked_at: u64,
    pub bonus_multiplier: Decimal,
}

/// The checkpoint of one position in one pool.
#[derive(Clone, Copy, Debug, PartialEq, Eq, Structural)]
pub struct UserReward {
    pub locker_id: u64,
    pub pool_id: u64,
    /// The pool's accumulator when this position was last settled.
    pub reward_per_token_paid: Decimal,
    pub rewards_accrued: u128,
    pub last_claim_time: u64,
}

/// What is locked in one collateral token over all positions: the amounts,
/// and the weights with which the positions share in rewards.
#[derive(Debug, PartialEq, Eq)]
pub struct StakedTotal {
    pub lp_token: String,
    /// The sum of the locked amounts.
    pub amount: u128,
    /// The sum of the weights, each an amount times its lock bonus.
    pub weight: u128,
}

/// Who referred a participant.
#[derive(Debug, PartialEq, Eq)]
pub struct Referral {
    pub referee: String,
    pub referrer: String,
}

/// Commission owed to a referrer in one reward asset.
#[derive(Debug, PartialEq, Eq)]
pub struct ReferrerBalance {
    pub referrer: String,
    pub asset: AssetInfo,
    pub amount: u128,
}

/// Everything the controller keeps between calls.
#[derive(Debug, PartialEq, Eq)]
pub struct State {
    pub config: RewardConfig,
    /// Pools in the order of their creation.
    pub pools: Vec<RewardPool>,
    pub user_stakes: Vec<UserStake>,
    pub user_rewards: Vec<UserReward>,
    /// Per collateral, the amount locked and the total weight of its
    /// positions. Pools advance, and adjust their rate, by the weight.
    pub total_staked: Vec<StakedTotal>,
    pub referrals: Vec<Referral>,
    pub referrer_balances: Vec<ReferrerBalance>,
}

/// The controller's state as a value.
pub struct StateView {
    pub config: RewardConfig,
    pub pools: Seq<RewardPool>,
    pub user_stakes: Seq<UserStake>,
    pub user_rewards: Seq<UserReward>,
    pub total_staked: Seq<StakedTotal>,
    pub referrals: Seq<Referral>,
    pub referrer_balances: Seq<ReferrerBalance>,
}

impl View for State {
    type V = StateView;

    open spec fn view(&self) -> StateView {
        StateView {
            config: self.config,
            pools: self.pools@,
            user_stakes: self.user_stakes@,
            user_rewards: self.user_rewards@,
            total_staked: self.total_staked@,
            referrals: self.referrals@,
            referrer_balances: self.referrer_balances@,
        }
    }
}

impl Clone for RewardConfig {
    fn clone(&self) -> (r: Self)
        ensures
            r == *self,
    {
        RewardConfig {
            admin: self.admin.clone(),
            lp_locker_contract: self.lp_locker_contract.clone(),
            paused: self.paused,
            claim_interval: self.claim_interval,
            next_pool_id: self.next_pool_id,
            referral_commission_bps: self.referral_commission_bps,
            batch_limit: self.batch_limit,
        }
    }
}

impl Clone for RewardPool {
    fn clone(&self) -> (r: Self)
        ensures
            r == *self,
    {
        RewardPool {
            pool_id: self.pool_id,
            lp_token: self.lp_token.clone(),
            reward_token: self.reward_token.clone(),
            total_deposited: self.total_deposited,
            total_claimed: self.total_claimed,
            apr: self.apr,
            dynamic_config: self.dynamic_config,
            last_update: self.last_update,
            reward_per_token_stored: self.reward_per_token_stored,
            enabled: self.enabled,
        }
    }
}

impl Clone for UserStake {
    fn clone(&self) -> (r: Self)
        ensures
            r == *self,
    {
        UserStake {
            user: self.user.clone(),
            locker_id: self.locker_id,
            lp_token: self.lp_token.clone(),
            lp_amount: self.lp_amount,
            locked_at: self.locked_at,
            bonus_multiplier: self.bonus_multiplier,
        }
    }
}

impl Clone for StakedTotal {
    fn clone(&self) -> (r: Self)
        ensures
            r == *self,
    {
        StakedTotal { lp_token: self.lp_token.clone(), amount: self.amount, weight: self.weight }
    }
}

impl Clone for Referral {
    fn clone(&self) -> (r: Self)
        ensures
            r == *self,
    {
        Referral { referee: self.referee.clone(), referrer: self.referrer.clone() }
    }
}

impl Clone for ReferrerBalance {
    fn clone(&self) -> (r: Self)
        ensures
            r == *self,
    {
        ReferrerBalance {
            referrer: self.referrer.clone(),
            asset: self.asset.clone(),
            amount: self.amount,
        }
    }
}

impl Clone for State {
    fn clone(&self) -> (r: Self)
        ensures
            r@ == self@,
    {
        let r = State {
            config: self.config.clone(),
            pools: self.pools.clone(),
            user_stakes: self.user_stakes.clone(),
            user_rewards: self.user_rewards.clone(),
            total_staked: self.total_staked.clone(),
            referrals: self.referrals.clone(),
            referrer_balances: self.referrer_balances.clone(),
        };
        assert(r.pools@ =~= self.pools@);
        assert(r.user_stakes@ =~= self.user_stakes@);
        assert(r.user_rewards@ =~= self.user_rewards@);
        assert(r.total_staked@ =~= self.total_staked@);
        assert(r.referrals@ =~= self.referrals@);
        assert(r.referrer_balances@ =~= self.referrer_balances@);
        r
    }
}

/// The pools with the id `pool_id`.
pub open spec fn pool_hit(pool_id: u64) -> spec_fn(RewardPool) -> bool {
    |p: RewardPool| p.pool_id == pool_id
}

/// The positions of the lock `locker_id`.
pub open spec fn stake_hit(locker_id: u64) -> spec_fn(UserStake) -> bool {
    |s: UserStake| s.locker_id == locker_id
}

/// The checkpoints of the lock `locker_id` in the pool `pool_id`.
pub open spec fn reward_hit(locker_id: u64, pool_id: u64) -> spec_fn(UserReward) -> bool {
    |r: UserReward| r.locker_id == locker_id && r.pool_id == pool_id
}

/// The totals of the collateral `lp_token`.
pub open spec fn staked_hit(lp_token: Seq<char>) -> spec_fn(StakedTotal) -> bool {
    |t: StakedTotal| t.lp_token@ == lp_token
}

/// The referrals of `referee`.
pub open spec fn referral_hit(referee: Seq<char>) -> spec_fn(Referral) -> bool {
    |r: Referral| r.referee@ == referee
}

/// The balances of `referrer` in `asset`.
pub open spec fn balance_hit(referrer: Seq<char>, asset: AssetInfo) -> spec_fn(
    ReferrerBalance,
) -> bool {
    |b: ReferrerBalance| b.referrer@ == referrer && crate::asset::same_asset(b.asset, asset)
}

/// Where the pool `pool_id` stands.
pub open spec fn pool_slot(pools: Seq<RewardPool>, pool_id: u64) -> Option<int> {
    first_match(pools, pool_hit(pool_id))
}

/// Where the position of `locker_id` stands.
pub open spec fn stake_slot(stakes: Seq<UserStake>, locker_id: u64) -> Option<int> {
    first_match(stakes, stake_hit(locker_id))
}

/// Where the checkpoint of `locker_id` in `pool_id` stands.
pub open spec fn reward_slot(rewards: Seq<UserReward>, locker_id: u64, pool_id: u64) -> Option<
    int,
> {
    first_match(rewards, reward_hit(locker_id, pool_id))
}

/// Where the total of `lp_token` stands.
pub open spec fn staked_slot(totals: Seq<StakedTotal>, lp_token: Seq<char>) -> Option<int> {
    first_match(totals, staked_hit(lp_token))
}

/// Where the referral of `referee` stands.
pub open spec fn referral_slot(referrals: Seq<Referral>, referee: Seq<char>) -> Option<int> {
    first_match(referrals, referral_hit(referee))
}

/// Where the balance of `referrer` in `asset` stands.
pub open spec fn balance_slot(
    balances: Seq<ReferrerBalance>,
    referrer: Seq<char>,
    asset: AssetInfo,
) -> Option<int> {
    first_match(balances, balance_hit(referrer, asset))
}

/// The amount locked in `lp_token`; zero where none was recorded.
pub open spec fn staked_amount(totals: Seq<StakedTotal>, lp_token: Seq<char>) -> u128 {
    match staked_slot(totals, lp_token) {
        Some(i) => totals[i].amount,
        None => 0,
    }
}

/// The total weight of the positions in `lp_token`; zero where none was
/// recorded.
pub open spec fn staked_weight(totals: Seq<StakedTotal>, lp_token: Seq<char>) -> u128 {
    match staked_slot(totals, lp_token) {
        Some(i) => totals[i].weight,
        None => 0,
    }
}

/// The referrer of `referee`, if one was registered.
pub open spec fn referrer_of(referrals: Seq<Referral>, referee: Seq<char>) -> Option<String> {
    match referral_slot(referrals, referee) {
        Some(i) => Some(referrals[i].referrer),
        None => None,
    }
}

/// Where the pool `pool_id` stands.
pub fn find_pool(pools: &Vec<RewardPool>, pool_id: u64) -> (found: Option<usize>)
    ensures
        slot_of(found) == pool_slot(pools@, pool_id),
        found is Some ==> found.unwrap() < pools.len(),
{
    let mut i: usize = 0;
    while i < pools.len()
        invariant
            i <= pools.len(),
            forall|j: int| 0 <= j < i ==> !pool_hit(pool_id)(#[trigger] pools@[j]),
        decreases pools.len() - i,
    {
        if pools[i].pool_id == pool_id {
            proof {
                lemma_first_match_is(pools@, pool_hit(pool_id), i as int);
            }
            return Some(i);
        }
        i = i + 1;
    }
    proof {
        lemma_first_match_none(pools@, pool_hit(pool_id));
    }
    None
}

/// Where the position of `locker_id` stands.
pub fn find_stake(stakes: &Vec<UserStake>, locker_id: u64) -> (found: Option<usize>)
    ensures
        slot_of(found) == stake_slot(stakes@, locker_id),
        found is Some ==> found.unwrap() < stakes.len(),
{
    let mut i: usize = 0;
    while i < stakes.len()
        invariant
            i <= stakes.len(),
            forall|j: int| 0 <= j < i ==> !stake_hit(locker_id)(#[trigger] stakes@[j]),
        decreases stakes.len() - i,
    {
        if stakes[i].locker_id == locker_id {
            proof {
                lemma_first_match_is(stakes@, stake_hit(locker_id), i as int);
            }
            return Some(i);
        }
        i = i + 1;
    }
    proof {
        lemma_first_match_none(stakes@, stake_hit(locker_id));
    }
    None
}

/// Where the checkpoint of `locker_id` in `pool_id` stands.
pub fn find_reward(rewards: &Vec<UserReward>, locker_id: u64, pool_id: u64) -> (found: Option<
    usize,
>)
    ensures
        slot_of(found) == reward_slot(rewards@, locker_id, pool_id),
        found is Some ==> found.unwrap() < rewards.len(),
{
    let mut i: usize = 0;
    while i < rewards.len()
        invariant
            i <= rewards.len(),
            forall|j: int| 0 <= j < i ==> !reward_hit(locker_id, pool_id)(#[trigger] rewards@[j]),
        decreases rewards.len() - i,
    {
        if rewards[i].locker_id == locker_id && rewards[i].pool_id == pool_id {
            proof {
                lemma_first_match_is(rewards@, reward_hit(locker_id, pool_id), i as int);
            }
            return Some(i);
        }
        i = i + 1;
    }
    proof {
        lemma_first_match_none(rewards@, reward_hit(locker_id, pool_id));
    }
    None
}

/// Where the total of `lp_token` stands.
pub fn find_staked(totals: &Vec<StakedTotal>, lp_token: &String) -> (found: Option<usize>)
    ensures
        slot_of(found) == staked_slot(totals@, lp_token@),
        found is Some ==> found.unwrap() < totals.len(),
{
    let mut i: usize = 0;
    while i < totals.len()
        invariant
            i <= totals.len(),
            forall|j: int| 0 <= j < i ==> !staked_hit(lp_token@)(#[trigger] totals@[j]),
        decreases totals.len() - i,
    {
        if totals[i].lp_token == *lp_token {
            proof {
                lemma_first_match_is(totals@, staked_hit(lp_token@), i as int);
            }
            return Some(i);
        }
        i = i + 1;
    }
    proof {
        lemma_first_match_none(totals@, staked_hit(lp_token@));
    }
    None
}

/// Where the referral of `referee` stands.
pub fn find_referral(referrals: &Vec<Referral>, referee: &String) -> (found: Option<usize>)
    ensures
        slot_of(found) == referral_slot(referrals@, referee@),
        found is Some ==> found.unwrap() < referrals.len(),
{
    let mut i: usize = 0;
    while i < referrals.len()
        invariant
            i <= referrals.len(),
            forall|j: int| 0 <= j < i ==> !referral_hit(referee@)(#[trigger] referrals@[j]),
        decreases referrals.len() - i,
    {
        if referrals[i].referee == *referee {
            proof {
                lemma_first_match_is(referrals@, referral_hit(referee@), i as int);
            }
            return Some(i);
        }
        i = i + 1;
    }
    proof {
        lemma_first_match_none(referrals@, referral_hit(referee@));
    }
    None
}

/// Where the balance of `referrer` in `asset` stands.
pub fn find_balance(balances: &Vec<ReferrerBalance>, referrer: &String, asset: &AssetInfo) -> (found:
    Option<usize>)
    ensures
        slot_of(found) == balance_slot(balances@, referrer@, *asset),
        found is Some ==> found.unwrap() < balances.len(),
{
    let mut i: usize = 0;
    while i < balances.len()
        invariant
            i <= balances.len(),
            forall|j: int| 0 <= j < i ==> !balance_hit(referrer@, *asset)(#[trigger] balances@[j]),
        decreases balances.len() - i,
    {
        if balances[i].referrer == *referrer && balances[i].asset.same(asset) {
            proof {
                lemma_first_match_is(balances@, balance_hit(referrer@, *asset), i as int);
            }
            return Some(i);
        }
        i = i + 1;
    }
    proof {
        lemma_first_match_none(balances@, balance_hit(referrer@, *asset));
    }
    None
}

/// The amount locked in `lp_token`; zero where none was recorded.
pub fn total_staked_in(totals: &Vec<StakedTotal>, lp_token: &String) -> (amount: u128)
    ensures
        amount == staked_amount(totals@, lp_token@),
{
    match find_staked(totals, lp_token) {
        Some(i) => totals[i].amount,
        None => 0,
    }
}

/// The total weight of the positions in `lp_token`; zero where none was
/// recorded.
pub fn total_weight_in(totals: &Vec<StakedTotal>, lp_token: &String) -> (weight: u128)
    ensures
        weight == staked_weight(totals@, lp_token@),
{
    match find_staked(totals, lp_token) {
        Some(i) => totals[i].weight,
        None => 0,
    }
}

/// The checkpoints of the lock `locker_id`, in whatever pool.
pub open spec fn locker_hit(locker_id: u64) -> spec_fn(UserReward) -> bool {
    |r: UserReward| r.locker_id == locker_id
}

/// The totals with the amount and the weight locked in `lp_token` set to
/// `amount` and `weight`.
pub open spec fn total_set(
    totals: Seq<StakedTotal>,
    lp_token: String,
    amount: u128,
    weight: u128,
) -> Seq<StakedTotal> {
    match staked_slot(totals, lp_token@) {
        Some(i) => totals.update(i, StakedTotal { amount, weight, ..totals[i] }),
        None => totals.push(StakedTotal { lp_token, amount, weight }),
    }
}

/// Sets the amount and the weight locked in `lp_token`.
pub fn set_total_staked(
    totals: &mut Vec<StakedTotal>,
    lp_token: &String,
    amount: u128,
    weight: u128,
)
    ensures
        final(totals)@ == total_set(old(totals)@, *lp_token, amount, weight),
{
    match find_staked(totals, lp_token) {
        Some(i) => {
            let updated = StakedTotal { lp_token: totals[i].lp_token.clone(), amount, weight };
            totals.set(i, updated);
        },
        None => {
            totals.push(StakedTotal { lp_token: lp_token.clone(), amount, weight });
        },
    }
}

/// The totals after a position of `amount` and `weight` came to the
/// collateral `lp_token`; nothing where a total would leave the 128-bit
/// range.
pub open spec fn totals_raised(
    totals: Seq<StakedTotal>,
    lp_token: String,
    amount: u128,
    weight: u128,
) -> Option<Seq<StakedTotal>> {
    if staked_amount(totals, lp_token@) + amount > u128::MAX || staked_weight(totals, lp_token@)
        + weight > u128::MAX {
        None
    } else {
        Some(
            total_set(
                totals,
                lp_token,
                (staked_amount(totals, lp_token@) + amount) as u128,
                (staked_weight(totals, lp_token@) + weight) as u128,
            ),
        )
    }
}

/// The totals after a position of `amount` and `weight` left the collateral
/// `lp_token`; nothing where a total would fall below zero.
pub open spec fn totals_lowered(
    totals: Seq<StakedTotal>,
    lp_token: String,
    amount: u128,
    weight: u128,
) -> Option<Seq<StakedTotal>> {
    if staked_amount(totals, lp_token@) < amount || staked_weight(totals, lp_token@) < weight {
        None
    } else {
        Some(
            total_set(
                totals,
                lp_token,
                (staked_amount(totals, lp_token@) - amount) as u128,
                (staked_weight(totals, lp_token@) - weight) as u128,
            ),
        )
    }
}

/// The totals after the weight of a position in the collateral `lp_token`
/// went from `old_weight` to `new_weight`: the total weight moves by the
/// difference and the amount stays. Nothing where the total weight would
/// leave its range.
pub open spec fn weight_moved(
    totals: Seq<StakedTotal>,
    lp_token: String,
    old_weight: u128,
    new_weight: u128,
) -> Option<Seq<StakedTotal>> {
    if staked_weight(totals, lp_token@) < old_weight || staked_weight(totals, lp_token@)
        - old_weight + new_weight > u128::MAX {
        None
    } else {
        Some(
            total_set(
                totals,
                lp_token,
                staked_amount(totals, lp_token@),
                (staked_weight(totals, lp_token@) - old_weight + new_weight) as u128,
            ),
        )
    }
}

/// Adds a position of `amount` and `weight` to the totals of `lp_token`.
/// Returns whether the totals stayed in range; out of range nothing changes.
pub fn raise_totals(totals: &mut Vec<StakedTotal>, lp_token: &String, amount: u128, weight: u128) -> (done:
    bool)
    ensures
        match totals_raised(old(totals)@, *lp_token, amount, weight) {
            Some(after) => done && final(totals)@ == after,
            None => !done && final(totals)@ == old(totals)@,
        },
{
    let new_amount = match total_staked_in(totals, lp_token).checked_add(amount) {
        Some(sum) => sum,
        None => {
            return false;
        },
    };
    let new_weight = match total_weight_in(totals, lp_token).checked_add(weight) {
        Some(sum) => sum,
        None => {
            return false;
        },
    };
    set_total_staked(totals, lp_token, new_amount, new_weight);
    true
}

/// Takes a position of `amount` and `weight` out of the totals of
/// `lp_token`. Returns whether the totals stayed in range; out of range
/// nothing changes.
pub fn lower_totals(totals: &mut Vec<StakedTotal>, lp_token: &String, amount: u128, weight: u128) -> (done:
    bool)
    ensures
        match totals_lowered(old(totals)@, *lp_token, amount, weight) {
            Some(after) => done && final(totals)@ == after,
            None => !done && final(totals)@ == old(totals)@,
        },
{
    let new_amount = match total_staked_in(totals, lp_token).checked_sub(amount) {
        Some(rest) => rest,
        None => {
            return false;
        },
    };
    let new_weight = match total_weight_in(totals, lp_token).checked_sub(weight) {
        Some(rest) => rest,
        None => {
            return false;
        },
    };
    set_total_staked(totals, lp_token, new_amount, new_weight);
    true
}

/// Moves the total weight of `lp_token` by what the weight of one of its
/// positions has moved. Returns whether the total stayed in range; out of
/// range nothing changes.
pub fn move_weight(
    totals: &mut Vec<StakedTotal>,
    lp_token: &String,
    old_weight: u128,
    new_weight: u128,
) -> (done: bool)
    ensures
        match weight_moved(old(totals)@, *lp_token, old_weight, new_weight) {
            Some(after) => done && final(totals)@ == after,
            None => !done && final(totals)@ == old(totals)@,
        },
{
    let rest = match total_weight_in(totals, lp_token).checked_sub(old_weight) {
        Some(rest) => rest,
        None => {
            return false;
        },
    };
    let weight = match rest.checked_add(new_weight) {
        Some(weight) => weight,
        None => {
            return false;
        },
    };
    let amount = total_staked_in(totals, lp_token);
    set_total_staked(totals, lp_token, amount, weight);
    true
}

/// Removes the position of `locker_id`.
pub fn remove_stake(stakes: &mut Vec<UserStake>, locker_id: u64)
    ensures
        final(stakes)@ == without(old(stakes)@, stake_hit(locker_id)),
{
    let mut kept: Vec<UserStake> = Vec::new();
    let mut i: usize = 0;
    while i < stakes.len()
        invariant
            i <= stakes.len(),
            *stakes == *old(stakes),
            kept@ == without(stakes@.take(i as int), stake_hit(locker_id)),
        decreases stakes.len() - i,
    {
        proof {
            lemma_without_step(stakes@, stake_hit(locker_id), i as int);
        }
        if stakes[i].locker_id != locker_id {
            kept.push(stakes[i].clone());
        }
        i = i + 1;
    }
    assert(stakes@.take(stakes.len() as int) =~= stakes@);
    *stakes = kept;
}

/// Removes every checkpoint of the position `locker_id`.
pub fn remove_rewards(rewards: &mut Vec<UserReward>, locker_id: u64)
    ensures
        final(rewards)@ == without(old(rewards)@, locker_hit(locker_id)),
{
    let mut kept: Vec<UserReward> = Vec::new();
    let mut i: usize = 0;
    while i < rewards.len()
        invariant
            i <= rewards.len(),
            *rewards == *old(rewards),
            kept@ == without(rewards@.take(i as int), locker_hit(locker_id)),
        decreases rewards.len() - i,
    {
        proof {
            lemma_without_step(rewards@, locker_hit(locker_id), i as int);
        }
        if rewards[i].locker_id != locker_id {
            kept.push(rewards[i]);
        }
        i = i + 1;
    }
    assert(rewards@.take(rewards.len() as int) =~= rewards@);
    *rewards = kept;
}

/// The ids of the pools that reward the collateral `lp_token`, in the order
/// of their creation.
pub open spec fn pools_for_lp(pools: Seq<RewardPool>, lp_token: Seq<char>) -> Seq<u64>
    decreases pools.len(),
{
    if pools.len() == 0 {
        Seq::empty()
    } else if pools.last().lp_token@ == lp_token {
        pools_for_lp(pools.drop_last(), lp_token).push(pools.last().pool_id)
    } else {
        pools_for_lp(pools.drop_last(), lp_token)
    }
}

} // verus!
