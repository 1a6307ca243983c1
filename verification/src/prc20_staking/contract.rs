//! The entry points of the staking rooms and the handlers behind them. A
//! rejected call leaves the state as it was.
//!
//! Whether the participant holds the room's credential is found out by the
//! caller and handed in as `holding`.

use vstd::prelude::*;
use crate::host::{
    amount_text, decimal_text, describe_transfers, transfers_text, CosmosMsg, Env, MessageInfo,
    Response, ResponseView,
};
use crate::math::Decimal;
use crate::prc20_staking::error::{ContractError, StdError};
use crate::prc20_staking::msg::{
    Cw20HookMsg, Cw20ReceiveMsg, ExecuteMsg, InstantiateMsg, QueryMsg, QueryResponse,
};
use crate::prc20_staking::query::{
    apr_queried, eligibility_queried, first_page, page_size, pending_queried, query_apr_estimate,
    query_config, query_eligibility, query_pending_rewards, query_room, query_rooms,
    query_user_position, rooms_after, rooms_shown,
};
use crate::prc20_staking::position::{
    auto_compound_toggled, claim_from, claimed, compound_in, compounded, stake_in, staked,
    toggle_auto_compound, unstake_from, unstaked,
};
use crate::prc20_staking::rooms::{
    add_reward_pool, change_emission, emission_changed, fund, funded, reward_pool_added,
};
use crate::prc20_staking::state::{
    find_position, find_room, nft_config_view, position_slot, position_views, room_slot,
    room_views, AssetInfo, AutoCompoundConfig, Config, NFTConfig, NFTConfigView, Room, RoomView,
    StakeConfig, StakeConfigView, State, StateView, UserPosition, UserPositionView,
};
use crate::table::{put, put_at, slot_of};

verus! {

/// A response that carries its action and the room it was about.
pub open spec fn room_response(action: Seq<char>, room_id: u64) -> ResponseView {
    ResponseView {
        messages: Seq::empty(),
        attributes: seq![("action"@, action), ("room_id"@, decimal_text(room_id as nat))],
    }
}

/// Builds the response that carries an action and the room it was about.
fn respond(action: &str, room_id: u64) -> (r: Response)
    ensures
        r@ == room_response(action@, room_id),
{
    let r = Response::new().add_attribute_str("action", action).add_attribute(
        "room_id",
        amount_text(room_id as u128),
    );
    assert(r@.attributes =~= room_response(action@, room_id).attributes);
    r
}

/// Writes `room` in the place `i`.
fn store_room(state: &mut State, i: usize, room: Room)
    requires
        i < old(state).rooms.len(),
    ensures
        final(state)@ == (StateView { rooms: old(state)@.rooms.update(i as int, room@), ..old(state)@ }),
{
    state.rooms.set(i, room);
    assert(room_views(state.rooms@) =~= room_views(old(state).rooms@).update(i as int, room@));
}

/// Writes `pos` in the place `slot`, or appends it.
fn store_position(state: &mut State, slot: Option<usize>, pos: UserPosition)
    requires
        slot is Some ==> slot.unwrap() < old(state).user_positions.len(),
    ensures
        final(state)@ == (StateView {
            user_positions: put_at(old(state)@.user_positions, slot_of(slot), pos@),
            ..old(state)@
        }),
{
    put(&mut state.user_positions, slot, pos);
    assert(position_views(state.user_positions@) =~= put_at(
        position_views(old(state).user_positions@),
        slot_of(slot),
        pos@,
    ));
}

/// Whether `token` is one of `tokens`.
pub open spec fn token_listed(tokens: Seq<String>, token: Seq<char>) -> bool {
    exists|k: int| 0 <= k < tokens.len() && (#[trigger] tokens[k])@ == token
}

/// Whether `token` is one of `tokens`.
pub fn contains_token(tokens: &Vec<String>, token: &String) -> (b: bool)
    ensures
        b == token_listed(tokens@, token@),
{
    let mut k: usize = 0;
    while k < tokens.len()
        invariant
            k <= tokens.len(),
            forall|j: int| 0 <= j < k ==> (#[trigger] tokens@[j])@ != token@,
        decreases tokens.len() - k,
    {
        if tokens[k] == *token {
            return true;
        }
        k = k + 1;
    }
    false
}

/// The position of a participant who enters a room at the time `now`.
pub open spec fn new_position(room_id: u64, user: String, now: u64) -> UserPositionView {
    UserPositionView {
        room_id,
        user,
        staked_amounts: Seq::empty(),
        last_reward_per_share: Seq::empty(),
        pending_rewards: Seq::empty(),
        staked_at: now,
        last_interaction: now,
        auto_compound_enabled: false,
        nft_multiplier: Decimal { atomics: crate::math::DECIMAL_FRACTIONAL },
    }
}

/// A stake of `amount` of the token `token` for `user` in the room
/// `room_id`. The room must exist, not be paused, and take the token. A
/// participant without a position gets one.
pub open spec fn stake_executed(
    s: StateView,
    now: u64,
    token: String,
    room_id: u64,
    user: String,
    amount: u128,
    holding: Option<bool>,
) -> Result<(StateView, ResponseView), ContractError> {
    match room_slot(s.rooms, room_id) {
        None => Err(ContractError::RoomNotFound),
        Some(i) => if s.rooms[i].paused {
            Err(ContractError::Paused)
        } else if !token_listed(s.rooms[i].stake_config.stake_tokens, token@) {
            Err(ContractError::InvalidStakeToken)
        } else {
            let slot = position_slot(s.user_positions, user@, room_id);
            let pos = match slot {
                Some(k) => s.user_positions[k],
                None => new_position(room_id, user, now),
            };
            match staked(s.rooms[i], pos, now, token, amount, holding) {
                Err(e) => Err(e),
                Ok((room, pos1)) => Ok(
                    (
                        StateView {
                            rooms: s.rooms.update(i, room),
                            user_positions: put_at(s.user_positions, slot, pos1),
                            ..s
                        },
                        ResponseView {
                            messages: Seq::empty(),
                            attributes: seq![
                                ("action"@, "stake"@),
                                ("room_id"@, decimal_text(room_id as nat)),
                                ("user"@, user@),
                                ("amount"@, decimal_text(amount as nat)),
                            ],
                        },
                    ),
                ),
            }
        },
    }
}

/// Stakes `amount` of the calling token contract's token for `user` in the
/// room `room_id`.
pub fn execute_stake(
    state: &mut State,
    env: &Env,
    info: &MessageInfo,
    room_id: u64,
    user: String,
    amount: u128,
    holding: Option<bool>,
) -> (r: Result<Response, ContractError>)
    ensures
        match r {
            Ok(response) => stake_executed(
                old(state)@,
                env.block_time,
                info.sender,
                room_id,
                user,
                amount,
                holding,
            ) == Ok::<(StateView, ResponseView), ContractError>((final(state)@, response@)),
            Err(e) => stake_executed(
                old(state)@,
                env.block_time,
                info.sender,
                room_id,
                user,
                amount,
                holding,
            ) == Err::<(StateView, ResponseView), ContractError>(e) && final(state)@ == old(state)@,
        },
{
    let i = match find_room(&state.rooms, room_id) {
        Some(i) => i,
        None => {
            return Err(ContractError::RoomNotFound);
        },
    };
    if state.rooms[i].paused {
        return Err(ContractError::Paused);
    }
    if !contains_token(&state.rooms[i].stake_config.stake_tokens, &info.sender) {
        return Err(ContractError::InvalidStakeToken);
    }
    let slot = find_position(&state.user_positions, &user, room_id);
    let mut pos = match slot {
        Some(k) => state.user_positions[k].clone(),
        None => UserPosition {
            room_id,
            user: user.clone(),
            staked_amounts: Vec::new(),
            last_reward_per_share: Vec::new(),
            pending_rewards: Vec::new(),
            staked_at: env.block_time,
            last_interaction: env.block_time,
            auto_compound_enabled: false,
            nft_multiplier: Decimal::one(),
        },
    };
    let mut room = state.rooms[i].clone();
    match stake_in(&mut room, &mut pos, env.block_time, &info.sender, amount, holding) {
        Ok(()) => {},
        Err(e) => {
            return Err(e);
        },
    }
    store_room(state, i, room);
    store_position(state, slot, pos);
    let response = Response::new().add_attribute_str("action", "stake").add_attribute(
        "room_id",
        amount_text(room_id as u128),
    ).add_attribute("user", user).add_attribute("amount", amount_text(amount));
    assert(response@.attributes =~= seq![
        ("action"@, "stake"@),
        ("room_id"@, decimal_text(room_id as nat)),
        ("user"@, user@),
        ("amount"@, decimal_text(amount as nat)),
    ]);
    Ok(response)
}

/// A withdrawal by `sender` of `amount` of the token `token` from the room
/// `room_id`: the stake less the penalty is sent back to `sender`.
pub open spec fn unstake_executed(
    s: StateView,
    now: u64,
    sender: String,
    room_id: u64,
    amount: u128,
    token: String,
    holding: Option<bool>,
) -> Result<(StateView, ResponseView), ContractError> {
    match (room_slot(s.rooms, room_id), position_slot(s.user_positions, sender@, room_id)) {
        (None, _) => Err(ContractError::RoomNotFound),
        (_, None) => Err(ContractError::Std(StdError::PositionNotFound)),
        (Some(i), Some(k)) => match unstaked(
            s.rooms[i],
            s.user_positions[k],
            now,
            token,
            amount,
            holding,
        ) {
            Err(e) => Err(e),
            Ok((room, pos, penalty, transfer)) => Ok(
                (
                    StateView {
                        rooms: s.rooms.update(i, room),
                        user_positions: s.user_positions.update(k, pos),
                        ..s
                    },
                    ResponseView {
                        messages: seq![
                            CosmosMsg::Cw20Transfer {
                                contract_addr: token,
                                recipient: sender,
                                amount: transfer,
                            },
                        ],
                        attributes: seq![
                            ("action"@, "unstake"@),
                            ("room_id"@, decimal_text(room_id as nat)),
                            ("amount"@, decimal_text(amount as nat)),
                            ("penalty"@, decimal_text(penalty as nat)),
                        ],
                    },
                ),
            ),
        },
    }
}

/// Withdraws `amount` of the token `token_address` from the caller's position
/// in the room `room_id`.
pub fn execute_unstake(
    state: &mut State,
    env: &Env,
    info: &MessageInfo,
    room_id: u64,
    amount: u128,
    token_address: String,
    holding: Option<bool>,
) -> (r: Result<Response, ContractError>)
    ensures
        match r {
            Ok(response) => unstake_executed(
                old(state)@,
                env.block_time,
                info.sender,
                room_id,
                amount,
                token_address,
                holding,
            ) == Ok::<(StateView, ResponseView), ContractError>((final(state)@, response@)),
            Err(e) => unstake_executed(
                old(state)@,
                env.block_time,
                info.sender,
                room_id,
                amount,
                token_address,
                holding,
            ) == Err::<(StateView, ResponseView), ContractError>(e) && final(state)@ == old(state)@,
        },
{
    let i = match find_room(&state.rooms, room_id) {
        Some(i) => i,
        None => {
            return Err(ContractError::RoomNotFound);
        },
    };
    let k = match find_position(&state.user_positions, &info.sender, room_id) {
        Some(k) => k,
        None => {
            return Err(ContractError::Std(StdError::PositionNotFound));
        },
    };
    let mut room = state.rooms[i].clone();
    let mut pos = state.user_positions[k].clone();
    let (penalty, transfer) = match unstake_from(
        &mut room,
        &mut pos,
        env.block_time,
        &token_address,
        amount,
        holding,
    ) {
        Ok(parts) => parts,
        Err(e) => {
            return Err(e);
        },
    };
    store_room(state, i, room);
    store_position(state, Some(k), pos);
    let msg = CosmosMsg::Cw20Transfer {
        contract_addr: token_address,
        recipient: info.sender.clone(),
        amount: transfer,
    };
    let response = Response::new().add_message(msg).add_attribute_str(
        "action",
        "unstake",
    ).add_attribute("room_id", amount_text(room_id as u128)).add_attribute(
        "amount",
        amount_text(amount),
    ).add_attribute("penalty", amount_text(penalty));
    assert(response@.attributes =~= seq![
        ("action"@, "unstake"@),
        ("room_id"@, decimal_text(room_id as nat)),
        ("amount"@, decimal_text(amount as nat)),
        ("penalty"@, decimal_text(penalty as nat)),
    ]);
    assert(response@.messages =~= seq![msg]);
    Ok(response)
}

/// What a successful claim answers: the transfers, the action, the room and
/// the list of what was claimed, asset by asset.
pub open spec fn claim_response(room_id: u64, messages: Seq<CosmosMsg>) -> ResponseView {
    ResponseView {
        messages,
        attributes: seq![
            ("action"@, "claim_rewards"@),
            ("room_id"@, decimal_text(room_id as nat)),
            ("claimed"@, transfers_text(messages)),
        ],
    }
}

/// A claim by `sender` of everything that is pending for their position in
/// the room `room_id`.
pub open spec fn claim_executed(
    s: StateView,
    now: u64,
    sender: String,
    room_id: u64,
    holding: Option<bool>,
) -> Result<(StateView, ResponseView), ContractError> {
    match (room_slot(s.rooms, room_id), position_slot(s.user_positions, sender@, room_id)) {
        (None, _) => Err(ContractError::RoomNotFound),
        (_, None) => Err(ContractError::Std(StdError::PositionNotFound)),
        (Some(i), Some(k)) => match claimed(s.rooms[i], s.user_positions[k], now, holding) {
            Err(e) => Err(e),
            Ok((room, pos, messages)) => Ok(
                (
                    StateView {
                        rooms: s.rooms.update(i, room),
                        user_positions: s.user_positions.update(k, pos),
                        ..s
                    },
                    claim_response(room_id, messages),
                ),
            ),
        },
    }
}

/// Pays the caller everything that is pending for their position in the room
/// `room_id`.
pub fn execute_claim_rewards(
    state: &mut State,
    env: &Env,
    info: &MessageInfo,
    room_id: u64,
    holding: Option<bool>,
) -> (r: Result<Response, ContractError>)
    ensures
        match r {
            Ok(response) => claim_executed(old(state)@, env.block_time, info.sender, room_id, holding)
                == Ok::<(StateView, ResponseView), ContractError>((final(state)@, response@)),
            Err(e) => claim_executed(old(state)@, env.block_time, info.sender, room_id, holding)
                == Err::<(StateView, ResponseView), ContractError>(e) && final(state)@ == old(
                state,
            )@,
        },
{
    let i = match find_room(&state.rooms, room_id) {
        Some(i) => i,
        None => {
            return Err(ContractError::RoomNotFound);
        },
    };
    let k = match find_position(&state.user_positions, &info.sender, room_id) {
        Some(k) => k,
        None => {
            return Err(ContractError::Std(StdError::PositionNotFound));
        },
    };
    let mut room = state.rooms[i].clone();
    let mut pos = state.user_positions[k].clone();
    let messages = match claim_from(&mut room, &mut pos, env.block_time, holding) {
        Ok(messages) => messages,
        Err(e) => {
            return Err(e);
        },
    };
    store_room(state, i, room);
    store_position(state, Some(k), pos);
    let listed = describe_transfers(&messages);
    let response = respond("claim_rewards", room_id).add_attribute("claimed", listed).add_messages(
        messages,
    );
    assert(response@.messages =~= messages@);
    assert(response@.attributes =~= claim_response(room_id, messages@).attributes);
    Ok(response)
}

/// The text of a flag.
pub open spec fn flag_text(flag: bool) -> Seq<char> {
    if flag {
        "true"@
    } else {
        "false"@
    }
}

/// `sender` opts their position in the room `room_id` in to, or out of,
/// compounding. A room that does not offer compounding refuses both.
pub open spec fn toggle_executed(
    s: StateView,
    now: u64,
    sender: String,
    room_id: u64,
    enabled: bool,
    holding: Option<bool>,
) -> Result<(StateView, ResponseView), ContractError> {
    match room_slot(s.rooms, room_id) {
        None => Err(ContractError::RoomNotFound),
        Some(i) => if !s.rooms[i].auto_compound_config.enabled {
            Err(ContractError::AutoCompoundNotAllowed)
        } else {
            match position_slot(s.user_positions, sender@, room_id) {
                None => Err(ContractError::Std(StdError::PositionNotFound)),
                Some(k) => match auto_compound_toggled(
                    s.rooms[i],
                    s.user_positions[k],
                    now,
                    enabled,
                    holding,
                ) {
                    Err(e) => Err(e),
                    Ok(pos) => Ok(
                        (
                            StateView { user_positions: s.user_positions.update(k, pos), ..s },
                            ResponseView {
                                messages: Seq::empty(),
                                attributes: seq![
                                    ("action"@, "toggle_auto_compound"@),
                                    ("enabled"@, flag_text(enabled)),
                                ],
                            },
                        ),
                    ),
                },
            }
        },
    }
}

/// Opts the caller's position in the room `room_id` in to, or out of,
/// compounding.
pub fn execute_toggle_auto_compound(
    state: &mut State,
    env: &Env,
    info: &MessageInfo,
    room_id: u64,
    enabled: bool,
    holding: Option<bool>,
) -> (r: Result<Response, ContractError>)
    ensures
        match r {
            Ok(response) => toggle_executed(
                old(state)@,
                env.block_time,
                info.sender,
                room_id,
                enabled,
                holding,
            ) == Ok::<(StateView, ResponseView), ContractError>((final(state)@, response@)),
            Err(e) => toggle_executed(
                old(state)@,
                env.block_time,
                info.sender,
                room_id,
                enabled,
                holding,
            ) == Err::<(StateView, ResponseView), ContractError>(e) && final(state)@ == old(state)@,
        },
{
    let i = match find_room(&state.rooms, room_id) {
        Some(i) => i,
        None => {
            return Err(ContractError::RoomNotFound);
        },
    };
    if !state.rooms[i].auto_compound_config.enabled {
        return Err(ContractError::AutoCompoundNotAllowed);
    }
    let k = match find_position(&state.user_positions, &info.sender, room_id) {
        Some(k) => k,
        None => {
            return Err(ContractError::Std(StdError::PositionNotFound));
        },
    };
    let mut pos = state.user_positions[k].clone();
    match toggle_auto_compound(&state.rooms[i], &mut pos, env.block_time, enabled, holding) {
        Ok(()) => {},
        Err(e) => {
            return Err(e);
        },
    }
    store_position(state, Some(k), pos);
    let response = Response::new().add_attribute_str(
        "action",
        "toggle_auto_compound",
    ).add_attribute_str(
        "enabled",
        if enabled {
            "true"
        } else {
            "false"
        },
    );
    assert(response@.attributes =~= seq![
        ("action"@, "toggle_auto_compound"@),
        ("enabled"@, flag_text(enabled)),
    ]);
    Ok(response)
}

/// `sender` compounds their position in the room `room_id`.
pub open spec fn compound_executed(
    s: StateView,
    now: u64,
    sender: String,
    room_id: u64,
    holding: Option<bool>,
) -> Result<(StateView, ResponseView), ContractError> {
    match (room_slot(s.rooms, room_id), position_slot(s.user_positions, sender@, room_id)) {
        (None, _) => Err(ContractError::RoomNotFound),
        (_, None) => Err(ContractError::Std(StdError::PositionNotFound)),
        (Some(i), Some(k)) => match compounded(s.rooms[i], s.user_positions[k], now, holding) {
            Err(e) => Err(e),
            Ok((room, pos, amount)) => Ok(
                (
                    StateView {
                        rooms: s.rooms.update(i, room),
                        user_positions: s.user_positions.update(k, pos),
                        ..s
                    },
                    ResponseView {
                        messages: Seq::empty(),
                        attributes: seq![
                            ("action"@, "compound"@),
                            ("room_id"@, decimal_text(room_id as nat)),
                            ("amount"@, decimal_text(amount as nat)),
                        ],
                    },
                ),
            ),
        },
    }
}

/// Moves the caller's pending rewards in staked tokens into their stake in the
/// room `room_id`.
pub fn execute_compound(
    state: &mut State,
    env: &Env,
    info: &MessageInfo,
    room_id: u64,
    holding: Option<bool>,
) -> (r: Result<Response, ContractError>)
    ensures
        match r {
            Ok(response) => compound_executed(
                old(state)@,
                env.block_time,
                info.sender,
                room_id,
                holding,
            ) == Ok::<(StateView, ResponseView), ContractError>((final(state)@, response@)),
            Err(e) => compound_executed(old(state)@, env.block_time, info.sender, room_id, holding)
                == Err::<(StateView, ResponseView), ContractError>(e) && final(state)@ == old(
                state,
            )@,
        },
{
    let i = match find_room(&state.rooms, room_id) {
        Some(i) => i,
        None => {
            return Err(ContractError::RoomNotFound);
        },
    };
    let k = match find_position(&state.user_positions, &info.sender, room_id) {
        Some(k) => k,
        None => {
            return Err(ContractError::Std(StdError::PositionNotFound));
        },
    };
    let mut room = state.rooms[i].clone();
    let mut pos = state.user_positions[k].clone();
    let amount = match compound_in(&mut room, &mut pos, env.block_time, holding) {
        Ok(amount) => amount,
        Err(e) => {
            return Err(e);
        },
    };
    store_room(state, i, room);
    store_position(state, Some(k), pos);
    let response = Response::new().add_attribute_str("action", "compound").add_attribute(
        "room_id",
        amount_text(room_id as u128),
    ).add_attribute("amount", amount_text(amount));
    assert(response@.attributes =~= seq![
        ("action"@, "compound"@),
        ("room_id"@, decimal_text(room_id as nat)),
        ("amount"@, decimal_text(amount as nat)),
    ]);
    Ok(response)
}

/// The room that a creation at `now` adds.
pub open spec fn new_room(
    id: u64,
    name: String,
    stake_config: StakeConfigView,
    nft_config: Option<NFTConfigView>,
    auto_compound_config: AutoCompoundConfig,
    early_withdraw_penalty: Decimal,
    cooldown_period: u64,
    now: u64,
) -> RoomView {
    RoomView {
        id,
        name,
        stake_config,
        reward_configs: Seq::empty(),
        nft_config,
        auto_compound_config,
        total_staked_weight: 0,
        last_update_time: now,
        early_withdraw_penalty,
        cooldown_period,
        paused: false,
    }
}

/// The creation of a room by the administrator: the room gets the next id
/// and starts without reward assets and without weight.
pub open spec fn room_created(
    s: StateView,
    now: u64,
    sender: String,
    name: String,
    stake_config: StakeConfigView,
    nft_config: Option<NFTConfigView>,
    auto_compound_config: AutoCompoundConfig,
    early_withdraw_penalty: Decimal,
    cooldown_period: u64,
) -> Result<(StateView, ResponseView), ContractError> {
    if sender@ != s.config.admin@ {
        Err(ContractError::Unauthorized)
    } else if s.config.next_room_id == u64::MAX {
        Err(ContractError::Overflow)
    } else {
        Ok(
            (
                StateView {
                    config: Config { next_room_id: (s.config.next_room_id + 1) as u64, ..s.config },
                    rooms: s.rooms.push(
                        new_room(
                            s.config.next_room_id,
                            name,
                            stake_config,
                            nft_config,
                            auto_compound_config,
                            early_withdraw_penalty,
                            cooldown_period,
                            now,
                        ),
                    ),
                    ..s
                },
                room_response("create_room"@, s.config.next_room_id),
            ),
        )
    }
}

/// Creates a room. Only the administrator may.
pub fn execute_create_room(
    state: &mut State,
    env: &Env,
    info: &MessageInfo,
    name: String,
    stake_config: StakeConfig,
    nft_config: Option<NFTConfig>,
    auto_compound_config: AutoCompoundConfig,
    early_withdraw_penalty: Decimal,
    cooldown_period: u64,
) -> (r: Result<Response, ContractError>)
    ensures
        match r {
            Ok(response) => room_created(
                old(state)@,
                env.block_time,
                info.sender,
                name,
                stake_config@,
                nft_config_view(nft_config),
                auto_compound_config,
                early_withdraw_penalty,
                cooldown_period,
            ) == Ok::<(StateView, ResponseView), ContractError>((final(state)@, response@)),
            Err(e) => room_created(
                old(state)@,
                env.block_time,
                info.sender,
                name,
                stake_config@,
                nft_config_view(nft_config),
                auto_compound_config,
                early_withdraw_penalty,
                cooldown_period,
            ) == Err::<(StateView, ResponseView), ContractError>(e) && final(state)@ == old(state)@,
        },
{
    if info.sender != state.config.admin {
        return Err(ContractError::Unauthorized);
    }
    let room_id = state.config.next_room_id;
    if room_id == u64::MAX {
        return Err(ContractError::Overflow);
    }
    state.config.next_room_id = room_id + 1;
    let room = Room {
        id: room_id,
        name,
        stake_config,
        reward_configs: Vec::new(),
        nft_config,
        auto_compound_config,
        total_staked_weight: 0,
        last_update_time: env.block_time,
        early_withdraw_penalty,
        cooldown_period,
        paused: false,
    };
    let ghost view = room@;
    state.rooms.push(room);
    assert(room_views(state.rooms@) =~= room_views(old(state).rooms@).push(view));
    Ok(respond("create_room", room_id))
}

/// A room with the given changes applied; an absent change keeps what is.
pub open spec fn room_changed(
    room: RoomView,
    paused: Option<bool>,
    early_withdraw_penalty: Option<Decimal>,
    cooldown_period: Option<u64>,
) -> RoomView {
    RoomView {
        paused: match paused {
            Some(paused) => paused,
            None => room.paused,
        },
        early_withdraw_penalty: match early_withdraw_penalty {
            Some(penalty) => penalty,
            None => room.early_withdraw_penalty,
        },
        cooldown_period: match cooldown_period {
            Some(period) => period,
            None => room.cooldown_period,
        },
        ..room
    }
}

/// A change of a room's settings by the administrator.
pub open spec fn room_updated(
    s: StateView,
    sender: String,
    room_id: u64,
    paused: Option<bool>,
    early_withdraw_penalty: Option<Decimal>,
    cooldown_period: Option<u64>,
) -> Result<(StateView, ResponseView), ContractError> {
    if sender@ != s.config.admin@ {
        Err(ContractError::Unauthorized)
    } else {
        match room_slot(s.rooms, room_id) {
            None => Err(ContractError::RoomNotFound),
            Some(i) => Ok(
                (
                    StateView {
                        rooms: s.rooms.update(
                            i,
                            room_changed(s.rooms[i], paused, early_withdraw_penalty, cooldown_period),
                        ),
                        ..s
                    },
                    room_response("update_room"@, room_id),
                ),
            ),
        }
    }
}

/// Changes the settings of the room `room_id`. Only the administrator may.
pub fn execute_update_room(
    state: &mut State,
    info: &MessageInfo,
    room_id: u64,
    paused: Option<bool>,
    early_withdraw_penalty: Option<Decimal>,
    cooldown_period: Option<u64>,
) -> (r: Result<Response, ContractError>)
    ensures
        match r {
            Ok(response) => room_updated(
                old(state)@,
                info.sender,
                room_id,
                paused,
                early_withdraw_penalty,
                cooldown_period,
            ) == Ok::<(StateView, ResponseView), ContractError>((final(state)@, response@)),
            Err(e) => room_updated(
                old(state)@,
                info.sender,
                room_id,
                paused,
                early_withdraw_penalty,
                cooldown_period,
            ) == Err::<(StateView, ResponseView), ContractError>(e) && final(state)@ == old(state)@,
        },
{
    if info.sender != state.config.admin {
        return Err(ContractError::Unauthorized);
    }
    let i = match find_room(&state.rooms, room_id) {
        Some(i) => i,
        None => {
            return Err(ContractError::RoomNotFound);
        },
    };
    let mut room = state.rooms[i].clone();
    match paused {
        Some(paused) => {
            room.paused = paused;
        },
        None => {},
    }
    match early_withdraw_penalty {
        Some(penalty) => {
            room.early_withdraw_penalty = penalty;
        },
        None => {},
    }
    match cooldown_period {
        Some(period) => {
            room.cooldown_period = period;
        },
        None => {},
    }
    store_room(state, i, room);
    Ok(respond("update_room", room_id))
}

/// What a change to one room by the administrator does to the state.
pub open spec fn room_managed(
    s: StateView,
    sender: String,
    room_id: u64,
    change: Result<RoomView, ContractError>,
    action: Seq<char>,
) -> Result<(StateView, ResponseView), ContractError> {
    match room_slot(s.rooms, room_id) {
        None => Err(ContractError::RoomNotFound),
        Some(i) => match change {
            Err(e) => Err(e),
            Ok(room) => Ok(
                (StateView { rooms: s.rooms.update(i, room), ..s }, room_response(action, room_id)),
            ),
        },
    }
}

/// The addition of a reward asset to the room `room_id` by the
/// administrator.
pub open spec fn reward_pool_add_executed(
    s: StateView,
    now: u64,
    sender: String,
    room_id: u64,
    reward_token: AssetInfo,
    emission_per_second: u128,
) -> Result<(StateView, ResponseView), ContractError> {
    if sender@ != s.config.admin@ {
        Err(ContractError::Unauthorized)
    } else {
        match room_slot(s.rooms, room_id) {
            None => Err(ContractError::RoomNotFound),
            Some(i) => room_managed(
                s,
                sender,
                room_id,
                reward_pool_added(s.rooms[i], now, reward_token, emission_per_second),
                "add_reward_pool"@,
            ),
        }
    }
}

/// Adds a reward asset to the room `room_id`. Only the administrator may.
pub fn execute_add_reward_pool(
    state: &mut State,
    env: &Env,
    info: &MessageInfo,
    room_id: u64,
    reward_token: AssetInfo,
    emission_per_second: u128,
) -> (r: Result<Response, ContractError>)
    ensures
        match r {
            Ok(response) => reward_pool_add_executed(
                old(state)@,
                env.block_time,
                info.sender,
                room_id,
                reward_token,
                emission_per_second,
            ) == Ok::<(StateView, ResponseView), ContractError>((final(state)@, response@)),
            Err(e) => reward_pool_add_executed(
                old(state)@,
                env.block_time,
                info.sender,
                room_id,
                reward_token,
                emission_per_second,
            ) == Err::<(StateView, ResponseView), ContractError>(e) && final(state)@ == old(state)@,
        },
{
    if info.sender != state.config.admin {
        return Err(ContractError::Unauthorized);
    }
    let i = match find_room(&state.rooms, room_id) {
        Some(i) => i,
        None => {
            return Err(ContractError::RoomNotFound);
        },
    };
    let mut room = state.rooms[i].clone();
    match add_reward_pool(&mut room, env.block_time, reward_token, emission_per_second) {
        Ok(()) => {},
        Err(e) => {
            return Err(e);
        },
    }
    store_room(state, i, room);
    Ok(respond("add_reward_pool", room_id))
}

/// A change of the emission of a reward asset of the room `room_id` by the
/// administrator.
pub open spec fn reward_pool_update_executed(
    s: StateView,
    now: u64,
    sender: String,
    room_id: u64,
    reward_token: AssetInfo,
    emission_per_second: u128,
) -> Result<(StateView, ResponseView), ContractError> {
    if sender@ != s.config.admin@ {
        Err(ContractError::Unauthorized)
    } else {
        match room_slot(s.rooms, room_id) {
            None => Err(ContractError::RoomNotFound),
            Some(i) => room_managed(
                s,
                sender,
                room_id,
                emission_changed(s.rooms[i], now, reward_token, emission_per_second),
                "update_reward_pool"@,
            ),
        }
    }
}

/// Changes the emission of a reward asset of the room `room_id`. Only the
/// administrator may.
pub fn execute_update_reward_pool(
    state: &mut State,
    env: &Env,
    info: &MessageInfo,
    room_id: u64,
    reward_token: AssetInfo,
    emission_per_second: u128,
) -> (r: Result<Response, ContractError>)
    ensures
        match r {
            Ok(response) => reward_pool_update_executed(
                old(state)@,
                env.block_time,
                info.sender,
                room_id,
                reward_token,
                emission_per_second,
            ) == Ok::<(StateView, ResponseView), ContractError>((final(state)@, response@)),
            Err(e) => reward_pool_update_executed(
                old(state)@,
                env.block_time,
                info.sender,
                room_id,
                reward_token,
                emission_per_second,
            ) == Err::<(StateView, ResponseView), ContractError>(e) && final(state)@ == old(state)@,
        },
{
    if info.sender != state.config.admin {
        return Err(ContractError::Unauthorized);
    }
    let i = match find_room(&state.rooms, room_id) {
        Some(i) => i,
        None => {
            return Err(ContractError::RoomNotFound);
        },
    };
    let mut room = state.rooms[i].clone();
    match change_emission(&mut room, env.block_time, &reward_token, emission_per_second) {
        Ok(()) => {},
        Err(e) => {
            return Err(e);
        },
    }
    store_room(state, i, room);
    Ok(respond("update_reward_pool", room_id))
}

/// A response to a funding: its action, the room and the amount.
pub open spec fn funding_response(action: Seq<char>, room_id: u64, amount: u128) -> ResponseView {
    ResponseView {
        messages: Seq::empty(),
        attributes: seq![
            ("action"@, action),
            ("room_id"@, decimal_text(room_id as nat)),
            ("amount"@, decimal_text(amount as nat)),
        ],
    }
}

/// The funding of the reward asset `asset` of the room `room_id` with
/// `amount` by `depositor`: only the administrator funds a room.
pub open spec fn pool_funded(
    s: StateView,
    depositor: String,
    room_id: u64,
    asset: AssetInfo,
    amount: u128,
    action: Seq<char>,
) -> Result<(StateView, ResponseView), ContractError> {
    if depositor@ != s.config.admin@ {
        Err(ContractError::Unauthorized)
    } else {
        match room_slot(s.rooms, room_id) {
            None => Err(ContractError::RoomNotFound),
            Some(i) => match funded(s.rooms[i], asset, amount) {
                Err(e) => Err(e),
                Ok(room) => Ok(
                    (
                        StateView { rooms: s.rooms.update(i, room), ..s },
                        funding_response(action, room_id, amount),
                    ),
                ),
            },
        }
    }
}

/// Funds a reward asset of the room `room_id`.
fn fund_pool(
    state: &mut State,
    depositor: &String,
    room_id: u64,
    asset: &AssetInfo,
    amount: u128,
    action: &str,
) -> (r: Result<Response, ContractError>)
    ensures
        match r {
            Ok(response) => pool_funded(old(state)@, *depositor, room_id, *asset, amount, action@)
                == Ok::<(StateView, ResponseView), ContractError>((final(state)@, response@)),
            Err(e) => pool_funded(old(state)@, *depositor, room_id, *asset, amount, action@)
                == Err::<(StateView, ResponseView), ContractError>(e) && final(state)@ == old(
                state,
            )@,
        },
{
    if *depositor != state.config.admin {
        return Err(ContractError::Unauthorized);
    }
    let i = match find_room(&state.rooms, room_id) {
        Some(i) => i,
        None => {
            return Err(ContractError::RoomNotFound);
        },
    };
    let mut room = state.rooms[i].clone();
    match fund(&mut room, asset, amount) {
        Ok(()) => {},
        Err(e) => {
            return Err(e);
        },
    }
    store_room(state, i, room);
    let response = Response::new().add_attribute_str("action", action).add_attribute(
        "room_id",
        amount_text(room_id as u128),
    ).add_attribute("amount", amount_text(amount));
    assert(response@.attributes =~= funding_response(action@, room_id, amount).attributes);
    Ok(response)
}

/// The funding of a reward asset in a native denomination with the first
/// coin attached to the call, which only the administrator may make. A call
/// without funds is refused.
pub open spec fn native_funded(s: StateView, info: MessageInfo, room_id: u64) -> Result<
    (StateView, ResponseView),
    ContractError,
> {
    if info.sender@ != s.config.admin@ {
        Err(ContractError::Unauthorized)
    } else if room_slot(s.rooms, room_id) is None {
        Err(ContractError::RoomNotFound)
    } else if info.funds@.len() == 0 {
        Err(ContractError::InsufficientStake)
    } else {
        pool_funded(
            s,
            info.sender,
            room_id,
            AssetInfo::Native(info.funds@[0].denom),
            info.funds@[0].amount,
            "fund_reward_pool"@,
        )
    }
}

/// Funds a reward asset of the room `room_id` with the first coin attached to
/// the call.
pub fn execute_fund_reward_pool(state: &mut State, env: &Env, info: &MessageInfo, room_id: u64) -> (r:
    Result<Response, ContractError>)
    ensures
        match r {
            Ok(response) => native_funded(old(state)@, *info, room_id) == Ok::<
                (StateView, ResponseView),
                ContractError,
            >((final(state)@, response@)),
            Err(e) => native_funded(old(state)@, *info, room_id) == Err::<
                (StateView, ResponseView),
                ContractError,
            >(e) && final(state)@ == old(state)@,
        },
{
    if info.sender != state.config.admin {
        return Err(ContractError::Unauthorized);
    }
    if find_room(&state.rooms, room_id).is_none() {
        return Err(ContractError::RoomNotFound);
    }
    if info.funds.len() == 0 {
        return Err(ContractError::InsufficientStake);
    }
    let asset = AssetInfo::Native(info.funds[0].denom.clone());
    fund_pool(state, &info.sender, room_id, &asset, info.funds[0].amount, "fund_reward_pool")
}

/// The funding of the reward asset that the calling token contract stands
/// for, with the tokens that `depositor` sent to it.
pub fn execute_fund_pool_cw20(
    state: &mut State,
    info: &MessageInfo,
    depositor: &String,
    room_id: u64,
    amount: u128,
) -> (r: Result<Response, ContractError>)
    ensures
        match r {
            Ok(response) => pool_funded(
                old(state)@,
                *depositor,
                room_id,
                AssetInfo::Cw20(info.sender),
                amount,
                "fund_reward_pool_cw20"@,
            ) == Ok::<(StateView, ResponseView), ContractError>((final(state)@, response@)),
            Err(e) => pool_funded(
                old(state)@,
                *depositor,
                room_id,
                AssetInfo::Cw20(info.sender),
                amount,
                "fund_reward_pool_cw20"@,
            ) == Err::<(StateView, ResponseView), ContractError>(e) && final(state)@ == old(state)@,
        },
{
    let asset = AssetInfo::Cw20(info.sender.clone());
    fund_pool(state, depositor, room_id, &asset, amount, "fund_reward_pool_cw20")
}

/// A change of the global settings by the administrator.
pub open spec fn config_updated(
    s: StateView,
    sender: String,
    admin: Option<String>,
    paused: Option<bool>,
) -> Result<(StateView, ResponseView), ContractError> {
    if sender@ != s.config.admin@ {
        Err(ContractError::Unauthorized)
    } else {
        Ok(
            (
                StateView {
                    config: Config {
                        admin: match admin {
                            Some(admin) => admin,
                            None => s.config.admin,
                        },
                        paused: match paused {
                            Some(paused) => paused,
                            None => s.config.paused,
                        },
                        ..s.config
                    },
                    ..s
                },
                ResponseView {
                    messages: Seq::empty(),
                    attributes: seq![("action"@, "update_config"@)],
                },
            ),
        )
    }
}

/// Changes the global settings. Only the administrator may.
pub fn execute_update_config(
    state: &mut State,
    info: &MessageInfo,
    admin: Option<String>,
    paused: Option<bool>,
) -> (r: Result<Response, ContractError>)
    ensures
        match r {
            Ok(response) => config_updated(old(state)@, info.sender, admin, paused) == Ok::<
                (StateView, ResponseView),
                ContractError,
            >((final(state)@, response@)),
            Err(e) => config_updated(old(state)@, info.sender, admin, paused) == Err::<
                (StateView, ResponseView),
                ContractError,
            >(e) && final(state)@ == old(state)@,
        },
{
    if info.sender != state.config.admin {
        return Err(ContractError::Unauthorized);
    }
    match admin {
        Some(admin) => {
            state.config.admin = admin;
        },
        None => {},
    }
    match paused {
        Some(paused) => {
            state.config.paused = paused;
        },
        None => {},
    }
    let response = Response::new().add_attribute_str("action", "update_config");
    assert(response@.attributes =~= seq![("action"@, "update_config"@)]);
    Ok(response)
}

/// Tokens received from a token contract: a stake for the one who sent
/// them, or funding for the reward asset that the contract stands for, which
/// is taken from the administrator alone.
pub open spec fn cw20_received(
    s: StateView,
    now: u64,
    sender: String,
    msg: Cw20ReceiveMsg,
    holding: Option<bool>,
) -> Result<(StateView, ResponseView), ContractError> {
    match msg.msg {
        Cw20HookMsg::Stake { room_id } => stake_executed(
            s,
            now,
            sender,
            room_id,
            msg.sender,
            msg.amount,
            holding,
        ),
        Cw20HookMsg::FundPool { room_id } => pool_funded(
            s,
            msg.sender,
            room_id,
            AssetInfo::Cw20(sender),
            msg.amount,
            "fund_reward_pool_cw20"@,
        ),
    }
}

/// Handles tokens received from a token contract.
pub fn execute_receive(
    state: &mut State,
    env: &Env,
    info: &MessageInfo,
    msg: Cw20ReceiveMsg,
    holding: Option<bool>,
) -> (r: Result<Response, ContractError>)
    ensures
        match r {
            Ok(response) => cw20_received(old(state)@, env.block_time, info.sender, msg, holding)
                == Ok::<(StateView, ResponseView), ContractError>((final(state)@, response@)),
            Err(e) => cw20_received(old(state)@, env.block_time, info.sender, msg, holding) == Err::<
                (StateView, ResponseView),
                ContractError,
            >(e) && final(state)@ == old(state)@,
        },
{
    match msg.msg {
        Cw20HookMsg::Stake { room_id } => execute_stake(
            state,
            env,
            info,
            room_id,
            msg.sender,
            msg.amount,
            holding,
        ),
        Cw20HookMsg::FundPool { room_id } => execute_fund_pool_cw20(
            state,
            info,
            &msg.sender,
            room_id,
            msg.amount,
        ),
    }
}

/// The state of staking rooms that were just set up: the first room will
/// get the id one.
pub open spec fn initial_state(msg: InstantiateMsg) -> StateView {
    StateView {
        config: Config { admin: msg.admin, paused: false, next_room_id: 1 },
        rooms: Seq::empty(),
        user_positions: Seq::empty(),
    }
}

/// Sets up staking without rooms or positions.
pub fn instantiate(env: &Env, info: &MessageInfo, msg: InstantiateMsg) -> (r: (State, Response))
    ensures
        r.0@ == initial_state(msg),
        r.1@ == (ResponseView {
            messages: Seq::empty(),
            attributes: seq![("method"@, "instantiate"@), ("admin"@, msg.admin@)],
        }),
{
    let response = Response::new().add_attribute_str("method", "instantiate").add_attribute(
        "admin",
        msg.admin.clone(),
    );
    assert(response@.attributes =~= seq![("method"@, "instantiate"@), ("admin"@, msg.admin@)]);
    let state = State {
        config: Config { admin: msg.admin, paused: false, next_room_id: 1 },
        rooms: Vec::new(),
        user_positions: Vec::new(),
    };
    assert(room_views(state.rooms@) =~= Seq::<RoomView>::empty());
    assert(position_views(state.user_positions@) =~= Seq::<UserPositionView>::empty());
    (state, response)
}

/// What a call does to the state and what it answers, or why it is
/// rejected. `holding` says whether the participant whose position the call
/// touches holds the room's credential.
pub open spec fn executed(
    s: StateView,
    env: Env,
    info: MessageInfo,
    msg: ExecuteMsg,
    holding: Option<bool>,
) -> Result<(StateView, ResponseView), ContractError> {
    match msg {
        ExecuteMsg::Receive(wrapper) => cw20_received(
            s,
            env.block_time,
            info.sender,
            wrapper,
            holding,
        ),
        ExecuteMsg::Unstake { room_id, amount, token_address } => unstake_executed(
            s,
            env.block_time,
            info.sender,
            room_id,
            amount,
            token_address,
            holding,
        ),
        ExecuteMsg::ClaimRewards { room_id } => claim_executed(
            s,
            env.block_time,
            info.sender,
            room_id,
            holding,
        ),
        ExecuteMsg::ToggleAutoCompound { room_id, enabled } => toggle_executed(
            s,
            env.block_time,
            info.sender,
            room_id,
            enabled,
            holding,
        ),
        ExecuteMsg::Compound { room_id } => compound_executed(
            s,
            env.block_time,
            info.sender,
            room_id,
            holding,
        ),
        ExecuteMsg::CreateRoom {
            name,
            stake_config,
            nft_config,
            auto_compound_config,
            early_withdraw_penalty,
            cooldown_period,
        } => room_created(
            s,
            env.block_time,
            info.sender,
            name,
            stake_config@,
            nft_config_view(nft_config),
            auto_compound_config,
            early_withdraw_penalty,
            cooldown_period,
        ),
        ExecuteMsg::UpdateRoom {
            room_id,
            paused,
            early_withdraw_penalty,
            cooldown_period,
        } => room_updated(s, info.sender, room_id, paused, early_withdraw_penalty, cooldown_period),
        ExecuteMsg::AddRewardPool {
            room_id,
            reward_token,
            emission_per_second,
        } => reward_pool_add_executed(
            s,
            env.block_time,
            info.sender,
            room_id,
            reward_token,
            emission_per_second,
        ),
        ExecuteMsg::UpdateRewardPool {
            room_id,
            reward_token,
            emission_per_second,
        } => reward_pool_update_executed(
            s,
            env.block_time,
            info.sender,
            room_id,
            reward_token,
            emission_per_second,
        ),
        ExecuteMsg::FundRewardPool { room_id } => native_funded(s, info, room_id),
        ExecuteMsg::UpdateConfig { admin, paused } => config_updated(
            s,
            info.sender,
            admin,
            paused,
        ),
    }
}

/// Carries out one call. A rejected call changes nothing.
pub fn execute(
    state: &mut State,
    env: &Env,
    info: &MessageInfo,
    msg: ExecuteMsg,
    holding: Option<bool>,
) -> (r: Result<Response, ContractError>)
    ensures
        match r {
            Ok(response) => executed(old(state)@, *env, *info, msg, holding) == Ok::<
                (StateView, ResponseView),
                ContractError,
            >((final(state)@, response@)),
            Err(e) => executed(old(state)@, *env, *info, msg, holding) == Err::<
                (StateView, ResponseView),
                ContractError,
            >(e) && final(state)@ == old(state)@,
        },
{
    match msg {
        ExecuteMsg::Receive(wrapper) => execute_receive(state, env, info, wrapper, holding),
        ExecuteMsg::Unstake { room_id, amount, token_address } => execute_unstake(
            state,
            env,
            info,
            room_id,
            amount,
            token_address,
            holding,
        ),
        ExecuteMsg::ClaimRewards { room_id } => execute_claim_rewards(
            state,
            env,
            info,
            room_id,
            holding,
        ),
        ExecuteMsg::ToggleAutoCompound { room_id, enabled } => execute_toggle_auto_compound(
            state,
            env,
            info,
            room_id,
            enabled,
            holding,
        ),
        ExecuteMsg::Compound { room_id } => execute_compound(state, env, info, room_id, holding),
        ExecuteMsg::CreateRoom {
            name,
            stake_config,
            nft_config,
            auto_compound_config,
            early_withdraw_penalty,
            cooldown_period,
        } => execute_create_room(
            state,
            env,
            info,
            name,
            stake_config,
            nft_config,
            auto_compound_config,
            early_withdraw_penalty,
            cooldown_period,
        ),
        ExecuteMsg::UpdateRoom {
            room_id,
            paused,
            early_withdraw_penalty,
            cooldown_period,
        } => execute_update_room(
            state,
            info,
            room_id,
            paused,
            early_withdraw_penalty,
            cooldown_period,
        ),
        ExecuteMsg::AddRewardPool {
            room_id,
            reward_token,
            emission_per_second,
        } => execute_add_reward_pool(state, env, info, room_id, reward_token, emission_per_second),
        ExecuteMsg::UpdateRewardPool {
            room_id,
            reward_token,
            emission_per_second,
        } => execute_update_reward_pool(
            state,
            env,
            info,
            room_id,
            reward_token,
            emission_per_second,
        ),
        ExecuteMsg::FundRewardPool { room_id } => execute_fund_reward_pool(
            state,
            env,
            info,
            room_id,
        ),
        ExecuteMsg::UpdateConfig { admin, paused } => execute_update_config(
            state,
            info,
            admin,
            paused,
        ),
    }
}

/// Whether `r` answers the question `msg` about the state at the block
/// time of `env`.
pub open spec fn answers(
    s: StateView,
    env: Env,
    msg: QueryMsg,
    holding: Option<bool>,
    r: Result<QueryResponse, ContractError>,
) -> bool {
    match msg {
        QueryMsg::Config {  } => match r {
            Ok(QueryResponse::Config(config)) => config.admin == s.config.admin && config.paused
                == s.config.paused,
            _ => false,
        },
        QueryMsg::Room { room_id } => match (r, room_slot(s.rooms, room_id)) {
            (Ok(QueryResponse::Room(response)), Some(i)) => response.room@ == s.rooms[i],
            (Err(e), None) => e == ContractError::RoomNotFound,
            _ => false,
        },
        QueryMsg::Rooms { start_after, limit } => match r {
            Ok(QueryResponse::Rooms(rooms)) => rooms_shown(rooms@) == first_page(
                rooms_after(s.rooms, start_after),
                page_size(limit),
            ),
            _ => false,
        },
        QueryMsg::UserPosition { room_id, user } => match (
            r,
            position_slot(s.user_positions, user@, room_id),
        ) {
            (Ok(QueryResponse::UserPosition(response)), Some(k)) => response.position is Some
                && response.position.unwrap()@ == s.user_positions[k],
            (Ok(QueryResponse::UserPosition(response)), None) => response.position is None,
            _ => false,
        },
        QueryMsg::PendingRewards { room_id, user } => match (
            r,
            pending_queried(s, env.block_time, room_id, user@),
        ) {
            (Ok(QueryResponse::PendingRewards(response)), Ok(pending)) => response.rewards@
                == pending,
            (Err(e), Err(expected)) => e == expected,
            _ => false,
        },
        QueryMsg::APREstimate { room_id } => match (r, apr_queried(s, room_id)) {
            (Ok(QueryResponse::APREstimate(response)), Ok(aprs)) => response.aprs@ == aprs,
            (Err(e), Err(expected)) => e == expected,
            _ => false,
        },
        QueryMsg::Eligibility { room_id, user } => match (
            r,
            eligibility_queried(s, room_id, user@, holding),
        ) {
            (Ok(QueryResponse::Eligibility(response)), Ok(expected)) => response == expected,
            (Err(e), Err(expected)) => e == expected,
            _ => false,
        },
    }
}

/// Answers one question. Nothing is written. `holding` says whether the
/// participant asked about holds the room's credential.
pub fn query(state: &State, env: &Env, msg: QueryMsg, holding: Option<bool>) -> (r: Result<
    QueryResponse,
    ContractError,
>)
    ensures
        answers(state@, *env, msg, holding, r),
{
    match msg {
        QueryMsg::Config {  } => Ok(QueryResponse::Config(query_config(state))),
        QueryMsg::Room { room_id } => match query_room(state, room_id) {
            Ok(room) => Ok(QueryResponse::Room(room)),
            Err(e) => Err(e),
        },
        QueryMsg::Rooms { start_after, limit } => Ok(
            QueryResponse::Rooms(query_rooms(state, start_after, limit)),
        ),
        QueryMsg::UserPosition { room_id, user } => Ok(
            QueryResponse::UserPosition(query_user_position(state, room_id, &user)),
        ),
        QueryMsg::PendingRewards { room_id, user } => match query_pending_rewards(
            state,
            env,
            room_id,
            &user,
        ) {
            Ok(pending) => Ok(QueryResponse::PendingRewards(pending)),
            Err(e) => Err(e),
        },
        QueryMsg::APREstimate { room_id } => match query_apr_estimate(state, room_id) {
            Ok(aprs) => Ok(QueryResponse::APREstimate(aprs)),
            Err(e) => Err(e),
        },
        QueryMsg::Eligibility { room_id, user } => match query_eligibility(
            state,
            room_id,
            &user,
            holding,
        ) {
            Ok(eligibility) => Ok(QueryResponse::Eligibility(eligibility)),
            Err(e) => Err(e),
        },
    }
}

/// Why a call is refused before anything else of it is looked at: a room
/// that does not exist or, for a stake, is paused, and a caller other than
/// the administrator for what is the administrator's, the funding of a room
/// included. Nothing where the call has to be gone into.
pub open spec fn refused_at_once(s: StateView, sender: String, msg: ExecuteMsg) -> Option<
    ContractError,
> {
    match msg {
        ExecuteMsg::Receive(wrapper) => match wrapper.msg {
            Cw20HookMsg::Stake { room_id } => match room_slot(s.rooms, room_id) {
                None => Some(ContractError::RoomNotFound),
                Some(i) => if s.rooms[i].paused {
                    Some(ContractError::Paused)
                } else {
                    None
                },
            },
            Cw20HookMsg::FundPool { room_id } => not_administrator(s, wrapper.sender),
        },
        ExecuteMsg::Unstake { room_id, .. } => no_room(s, room_id),
        ExecuteMsg::ClaimRewards { room_id } => no_room(s, room_id),
        ExecuteMsg::ToggleAutoCompound { room_id, .. } => no_room(s, room_id),
        ExecuteMsg::Compound { room_id } => no_room(s, room_id),
        _ => not_administrator(s, sender),
    }
}

/// The refusal of a room that does not exist.
pub open spec fn no_room(s: StateView, room_id: u64) -> Option<ContractError> {
    if room_slot(s.rooms, room_id) is None {
        Some(ContractError::RoomNotFound)
    } else {
        None
    }
}

/// The refusal of anyone but the administrator.
pub open spec fn not_administrator(s: StateView, sender: String) -> Option<ContractError> {
    if sender@ != s.config.admin@ {
        Some(ContractError::Unauthorized)
    } else {
        None
    }
}

/// A call that is refused at once is refused when it is carried out, for the
/// same reason, whatever else it holds.
pub proof fn lemma_refused_at_once_is_refused(
    s: StateView,
    env: Env,
    info: MessageInfo,
    msg: ExecuteMsg,
    holding: Option<bool>,
)
    requires
        refused_at_once(s, info.sender, msg) is Some,
    ensures
        executed(s, env, info, msg, holding) == Err::<(StateView, ResponseView), ContractError>(
            refused_at_once(s, info.sender, msg).unwrap(),
        ),
{
}

/// Tells why a call is refused before anything else of it is looked at, if
/// it is. What is refused here is refused by `execute` too, with the same
/// error.
pub fn check_call(state: &State, info: &MessageInfo, msg: &ExecuteMsg) -> (r: Result<
    (),
    ContractError,
>)
    ensures
        r == (match refused_at_once(state@, info.sender, *msg) {
            Some(e) => Err::<(), ContractError>(e),
            None => Ok::<(), ContractError>(()),
        }),
{
    let room_id = match msg {
        ExecuteMsg::Receive(wrapper) => match wrapper.msg {
            Cw20HookMsg::Stake { room_id } => {
                return match find_room(&state.rooms, room_id) {
                    None => Err(ContractError::RoomNotFound),
                    Some(i) => if state.rooms[i].paused {
                        Err(ContractError::Paused)
                    } else {
                        Ok(())
                    },
                };
            },
            Cw20HookMsg::FundPool { room_id } => {
                return if wrapper.sender != state.config.admin {
                    Err(ContractError::Unauthorized)
                } else {
                    Ok(())
                };
            },
        },
        ExecuteMsg::Unstake { room_id, .. } => *room_id,
        ExecuteMsg::ClaimRewards { room_id } => *room_id,
        ExecuteMsg::ToggleAutoCompound { room_id, .. } => *room_id,
        ExecuteMsg::Compound { room_id } => *room_id,
        _ => {
            return if info.sender != state.config.admin {
                Err(ContractError::Unauthorized)
            } else {
                Ok(())
            };
        },
    };
    if find_room(&state.rooms, room_id).is_none() {
        Err(ContractError::RoomNotFound)
    } else {
        Ok(())
    }
}

} // verus!
