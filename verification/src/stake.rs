//! A staking program: lamports move into an escrow derived from the user's
//! key, and unstaking returns them with a reward proportional to the time
//! staked.
use vstd::prelude::*;
use crate::onchain::{check_pda, key_eq, pda_of, two_seeds, AccountMeta, Key, ProgError, Transfer};

verus! {

/// A user's stake: the amount, when it (last) started, the reward rate in
/// millionths of a lamport per lamport and second, and whether it is live.
#[derive(Clone, Copy, Debug)]
pub struct StakeState {
    pub user: Key,
    pub amount: u64,
    pub start_time: i64,
    pub reward_rate: u64,
    pub active: bool,
}

/// The instructions of the program.
#[derive(Clone, Copy, Debug)]
pub enum StakeInstruction {
    Stake { amount: u64 },
    Unstake,
}

/// The reward rate a new stake starts with.
pub const DEFAULT_REWARD_RATE: u64 = 1_000;

/// The scale of the reward rate.
pub const RATE_SCALE: u64 = 1_000_000;

/// The seed tag of stake escrow addresses: `stake`.
pub open spec fn stake_tag() -> Seq<u8> {
    seq![0x73u8, 0x74u8, 0x61u8, 0x6bu8, 0x65u8]
}

fn stake_tag_bytes() -> (t: [u8; 5])
    ensures
        t@ == stake_tag(),
{
    let t = [0x73u8, 0x74u8, 0x61u8, 0x6bu8, 0x65u8];
    assert(t@ =~= stake_tag());
    t
}

/// The escrow checks both instructions share, on accounts `[user, stake
/// account, escrow, system program, clock]`: the user signed, the stake
/// account belongs to the program, and the escrow is derived from `stake`
/// and the user's key. The error is the first failed check.
pub open spec fn escrow_checks(program_id: Key, accounts: Seq<AccountMeta>) -> Result<(), ProgError> {
    if accounts.len() < 5 {
        Err(ProgError::NotEnoughAccountKeys)
    } else if !accounts[0].is_signer {
        Err(ProgError::MissingRequiredSignature)
    } else if accounts[1].owner != program_id {
        Err(ProgError::IncorrectProgramId)
    } else {
        match pda_of(seq![stake_tag(), accounts[0].key@], program_id) {
            Err(e) => Err(e),
            Ok(k) => if k != accounts[2].key@ {
                Err(ProgError::InvalidAccountData)
            } else {
                Ok(())
            },
        }
    }
}

fn check_escrow(program_id: &Key, accounts: &Vec<AccountMeta>) -> (r: Result<(), ProgError>)
    ensures
        r == escrow_checks(*program_id, accounts@),
{
    if accounts.len() < 5 {
        return Err(ProgError::NotEnoughAccountKeys);
    }
    let user = accounts[0];
    let stake_account = accounts[1];
    let pda = accounts[2];
    if !user.is_signer {
        return Err(ProgError::MissingRequiredSignature);
    }
    if !key_eq(&stake_account.owner, program_id) {
        return Err(ProgError::IncorrectProgramId);
    }
    let tag = stake_tag_bytes();
    let seeds = two_seeds(tag.as_slice(), user.key.as_slice());
    check_pda(&seeds, program_id, &pda.key)
}

/// The checks of `Stake { amount }`: the escrow checks, the stake account
/// is rent exempt (`rent_exempt` is that check or the error reading the
/// rent gave), and the user holds `amount`. Yields the deposit into the
/// escrow.
pub fn stake(
    program_id: &Key,
    accounts: &Vec<AccountMeta>,
    rent_exempt: Result<bool, ProgError>,
    amount: u64,
) -> (r: Result<Transfer, ProgError>)
    ensures
        match escrow_checks(*program_id, accounts@) {
            Err(e) => r == Err::<Transfer, ProgError>(e),
            Ok(()) => match rent_exempt {
                Err(e) => r == Err::<Transfer, ProgError>(e),
                Ok(x) => if !x {
                    r == Err::<Transfer, ProgError>(ProgError::AccountNotRentExempt)
                } else if accounts@[0].lamports < amount {
                    r == Err::<Transfer, ProgError>(ProgError::InsufficientFunds)
                } else {
                    r == Ok::<Transfer, ProgError>(
                        Transfer { from: accounts@[0].key, to: accounts@[2].key, amount },
                    )
                },
            },
        },
{
    match check_escrow(program_id, accounts) {
        Ok(()) => {},
        Err(e) => return Err(e),
    }
    match rent_exempt {
        Err(e) => return Err(e),
        Ok(exempt) => {
            if !exempt {
                return Err(ProgError::AccountNotRentExempt);
            }
        },
    }
    let user = accounts[0];
    if user.lamports < amount {
        return Err(ProgError::InsufficientFunds);
    }
    Ok(Transfer { from: user.key, to: accounts[2].key, amount })
}

/// The last step of `Stake { amount }`, once the deposit went through:
/// the stake account's state (`None` when its data is empty, else the
/// decoded state or its error) grows by `amount`, restarts at `now` and is
/// live. A fresh state is the user's, with the default rate. A sum past
/// `u64::MAX` is an `ArithmeticOverflow`.
pub fn record_stake(
    existing: Option<Result<StakeState, ProgError>>,
    user: Key,
    amount: u64,
    now: Result<i64, ProgError>,
) -> (r: Result<StakeState, ProgError>)
    ensures
        ({
            let base = match existing {
                None => Ok::<StakeState, ProgError>(StakeState {
                    user,
                    amount: 0,
                    start_time: 0,
                    reward_rate: DEFAULT_REWARD_RATE,
                    active: false,
                }),
                Some(res) => res,
            };
            match base {
                Err(e) => r == Err::<StakeState, ProgError>(e),
                Ok(s) => if s.amount + amount > u64::MAX {
                    r == Err::<StakeState, ProgError>(ProgError::ArithmeticOverflow)
                } else {
                    match now {
                        Err(e) => r == Err::<StakeState, ProgError>(e),
                        Ok(t) => r == Ok::<StakeState, ProgError>(StakeState {
                            amount: (s.amount + amount) as u64,
                            start_time: t,
                            active: true,
                            ..s
                        }),
                    }
                },
            }
        }),
{
    let mut stake_state = match existing {
        None => StakeState {
            user,
            amount: 0,
            start_time: 0,
            reward_rate: DEFAULT_REWARD_RATE,
            active: false,
        },
        Some(res) => match res {
            Ok(s) => s,
            Err(e) => return Err(e),
        },
    };
    stake_state.amount = match stake_state.amount.checked_add(amount) {
        Some(v) => v,
        None => return Err(ProgError::ArithmeticOverflow),
    };
    stake_state.start_time = match now {
        Ok(t) => t,
        Err(e) => return Err(e),
    };
    stake_state.active = true;
    Ok(stake_state)
}

/// The seconds staked: from the start to `now`, and never negative.
pub open spec fn staked_seconds(start_time: i64, now: i64) -> int {
    if now - start_time > 0 { now - start_time } else { 0 }
}

/// The reward for `amount` lamports staked `seconds` seconds at `rate`
/// millionths per lamport and second, rounded down.
pub open spec fn reward_of(seconds: int, amount: int, rate: int) -> int {
    (seconds * amount * rate) / (RATE_SCALE as int)
}

/// `Unstake` reaches the reward computation: the escrow checks pass, the
/// stake decodes, is live, is the user's and is not empty, and the clock
/// could be read.
pub open spec fn unstake_reaches_reward(
    program_id: Key,
    accounts: Seq<AccountMeta>,
    state: Result<StakeState, ProgError>,
    now: Result<i64, ProgError>,
) -> bool {
    &&& escrow_checks(program_id, accounts) is Ok
    &&& state is Ok && state->Ok_0.active && state->Ok_0.user == accounts[0].key && state->Ok_0.amount != 0
    &&& now is Ok
}

/// `Unstake`: after the escrow checks, the decoded stake must be live, the
/// user's and not empty; the amount plus the reward for the time staked
/// must fit in `u64` (else `ArithmeticOverflow`) and be held by the escrow.
/// Yields the payout from the escrow to the user and the emptied, closed
/// stake. The time difference and the products `seconds * amount` and
/// `seconds * amount * rate` must fit in their integer types.
pub fn unstake(
    program_id: &Key,
    accounts: &Vec<AccountMeta>,
    state: Result<StakeState, ProgError>,
    now: Result<i64, ProgError>,
) -> (r: Result<(Transfer, StakeState), ProgError>)
    requires
        unstake_reaches_reward(*program_id, accounts@, state, now) ==> {
            &&& i64::MIN <= now->Ok_0 - state->Ok_0.start_time <= i64::MAX
            &&& staked_seconds(state->Ok_0.start_time, now->Ok_0) * state->Ok_0.amount <= u64::MAX
            &&& staked_seconds(state->Ok_0.start_time, now->Ok_0) * state->Ok_0.amount * state->Ok_0.reward_rate
                <= u64::MAX
        },
    ensures
        match escrow_checks(*program_id, accounts@) {
            Err(e) => r == Err::<(Transfer, StakeState), ProgError>(e),
            Ok(()) => match state {
                Err(e) => r == Err::<(Transfer, StakeState), ProgError>(e),
                Ok(s) => if !s.active || s.user != accounts@[0].key || s.amount == 0 {
                    r == Err::<(Transfer, StakeState), ProgError>(ProgError::InvalidAccountData)
                } else {
                    match now {
                        Err(e) => r == Err::<(Transfer, StakeState), ProgError>(e),
                        Ok(t) => {
                            let total = s.amount + reward_of(
                                staked_seconds(s.start_time, t),
                                s.amount as int,
                                s.reward_rate as int,
                            );
                            if total > u64::MAX {
                                r == Err::<(Transfer, StakeState), ProgError>(ProgError::ArithmeticOverflow)
                            } else if accounts@[2].lamports < total {
                                r == Err::<(Transfer, StakeState), ProgError>(ProgError::InsufficientFunds)
                            } else {
                                r == Ok::<(Transfer, StakeState), ProgError>((
                                    Transfer { from: accounts@[2].key, to: accounts@[0].key, amount: total as u64 },
                                    StakeState { amount: 0, active: false, ..s },
                                ))
                            }
                        },
                    }
                },
            },
        },
{
    match check_escrow(program_id, accounts) {
        Ok(()) => {},
        Err(e) => return Err(e),
    }
    let user = accounts[0];
    let pda = accounts[2];
    let mut stake_state = match state {
        Ok(s) => s,
        Err(e) => return Err(e),
    };
    if !stake_state.active || !key_eq(&stake_state.user, &user.key) || stake_state.amount == 0 {
        return Err(ProgError::InvalidAccountData);
    }
    let amount = stake_state.amount;
    let current_time = match now {
        Ok(t) => t,
        Err(e) => return Err(e),
    };
    let diff = current_time - stake_state.start_time;
    let duration: u64 = if diff > 0 { diff as u64 } else { 0 };
    let reward = (duration * amount * stake_state.reward_rate) / RATE_SCALE;
    let total_amount = match amount.checked_add(reward) {
        Some(v) => v,
        None => return Err(ProgError::ArithmeticOverflow),
    };
    if pda.lamports < total_amount {
        return Err(ProgError::InsufficientFunds);
    }
    let payout = Transfer { from: pda.key, to: user.key, amount: total_amount };
    stake_state.amount = 0;
    stake_state.active = false;
    Ok((payout, stake_state))
}

} // verus!
