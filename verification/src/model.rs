//! The mathematical model of the contract state, and the transition
//! functions that every operation's contract is stated against.
//!
//! `DaoModel` is the abstract value of a [`crate::dao::CollaborativeDao`]:
//! finite maps from team name to team, from prediction id to prediction,
//! from user to cumulative stake, and from user to most recently joined
//! team, together with the two configured collaborator addresses. Each
//! operation of the executable state machine promises that its result and
//! its new abstract state equal the ones computed here.

use vstd::prelude::*;

use crate::errors::Error;
use crate::reflector::PriceData;

verus! {

/// Abstract value of a stored team: its name, its ordered members, and the
/// total amount staked into its pool so far.
pub ghost struct TeamModel {
    pub name: Seq<char>,
    pub members: Seq<u64>,
    pub total_stake: i128,
}

/// Abstract value of a stored prediction.
pub ghost struct PredictionModel {
    pub team_name: Seq<char>,
    pub asset: Seq<char>,
    pub prediction: bool,
    pub stake_amount: i128,
    pub stake_percentage: u32,
    pub predictor: u64,
    pub timestamp: u64,
    pub resolved: bool,
    pub outcome: Option<bool>,
}

/// Abstract state of the whole contract.
pub ghost struct DaoModel {
    pub teams: Map<Seq<char>, TeamModel>,
    pub predictions: Map<Seq<char>, PredictionModel>,
    pub user_stakes: Map<u64, i128>,
    pub user_teams: Map<u64, Seq<char>>,
    pub kale_token: Option<u64>,
    pub reflector_oracle: Option<u64>,
    pub prediction_counter: u64,
}

/// A user's cumulative stake defaults to zero before the first contribution.
pub open spec fn user_stake_of(m: DaoModel, user: u64) -> i128 {
    if m.user_stakes.contains_key(user) {
        m.user_stakes[user]
    } else {
        0
    }
}

/// The stake contribution computed from a balance and a percentage:
/// `floor(balance * percentage / 100)`.
pub open spec fn stake_amount_of(balance: i128, percentage: u32) -> int {
    (balance * percentage) / 100
}

/// The divisor of the hash-difficulty check: the stake percentage, but at
/// least one.
pub open spec fn difficulty_target_of(stake_percentage: u32) -> u32 {
    if stake_percentage > 0 {
        stake_percentage
    } else {
        1u32
    }
}

/// Sum of the first four bytes of a digest.
pub open spec fn hash_sum_of(digest: Seq<u8>) -> u32
    recommends
        digest.len() >= 4,
{
    (digest[0] + digest[1] + digest[2] + digest[3]) as u32
}

/// State invariant, preserved by every operation:
/// - a stored team carries its own key as its name, has at least one
///   member, and a non-negative pool;
/// - a stored prediction carries an outcome exactly when it is resolved,
///   and a stake amount within the range the settlement arithmetic admits;
/// - cumulative user stakes are non-negative.
pub open spec fn inv(m: DaoModel) -> bool {
    &&& forall|name: Seq<char>| #[trigger] m.teams.contains_key(name) ==> {
        &&& m.teams[name].name == name
        &&& m.teams[name].members.len() >= 1
        &&& m.teams[name].total_stake >= 0
    }
    &&& forall|id: Seq<char>| #[trigger] m.predictions.contains_key(id) ==> {
        &&& (m.predictions[id].outcome is Some <==> m.predictions[id].resolved)
        &&& 0 <= m.predictions[id].stake_amount <= MAX_STAKE_AMOUNT
    }
    &&& forall|user: u64| #[trigger] m.user_stakes.contains_key(user) ==> m.user_stakes[user] >= 0
}

/// The largest balance a stake computation accepts: the largest signed
/// 128-bit value divided by one hundred, so that `balance * percentage`
/// stays within the machine integer range.
pub const MAX_BALANCE: i128 = 1701411834604692317316873037158841057i128;

/// The largest stake amount a prediction may declare: half the largest
/// signed 128-bit value, so that the settlement arithmetic
/// `stake_amount + stake_amount / 10` stays within the machine integer
/// range.
pub const MAX_STAKE_AMOUNT: i128 = 85070591730234615865843651857942052863i128;

/// Holds when a stake contribution computed from `balance` cannot push the
/// team's pool or the user's cumulative stake past the machine integer
/// range. The hosting environment checks this before it forwards a call.
pub open spec fn stake_fits(m: DaoModel, team_name: Seq<char>, user: u64, balance: i128) -> bool {
    &&& (m.teams.contains_key(team_name) ==> m.teams[team_name].total_stake + balance
        <= i128::MAX)
    &&& user_stake_of(m, user) + balance <= i128::MAX
}

/// The state of a fresh contract: nothing stored, nothing configured.
pub open spec fn init_model() -> DaoModel {
    DaoModel {
        teams: Map::empty(),
        predictions: Map::empty(),
        user_stakes: Map::empty(),
        user_teams: Map::empty(),
        kale_token: None,
        reflector_oracle: None,
        prediction_counter: 0,
    }
}

/// Result of forming a team: fails exactly when the name is taken.
pub open spec fn form_team_result(m: DaoModel, name: Seq<char>, members: Seq<u64>) -> Result<
    (),
    Error,
> {
    if m.teams.contains_key(name) {
        Err(Error::PredictionExists)
    } else {
        Ok(())
    }
}

/// State after forming a team: on success the team is stored with an empty
/// pool and every member's team index is overwritten to the new name; on
/// failure nothing changes.
pub open spec fn form_team_state(m: DaoModel, name: Seq<char>, members: Seq<u64>) -> DaoModel {
    if m.teams.contains_key(name) {
        m
    } else {
        DaoModel {
            teams: m.teams.insert(
                name,
                TeamModel { name: name, members: members, total_stake: 0 },
            ),
            user_teams: overwrite_teams(m.user_teams, members, name),
            ..m
        }
    }
}

/// Every user among `users` is (re)indexed to `name`; everyone else keeps
/// their previous index.
pub open spec fn overwrite_teams(
    ut: Map<u64, Seq<char>>,
    users: Seq<u64>,
    name: Seq<char>,
) -> Map<u64, Seq<char>> {
    Map::new(
        |u: u64| ut.contains_key(u) || users.contains(u),
        |u: u64| if users.contains(u) {
            name
        } else {
            ut[u]
        },
    )
}

/// Result of a stake contribution: the amount transferred into escrow, or
/// the error. Checks run in this order: percentage bound, team existence,
/// membership, computed amount.
pub open spec fn stake_result(
    m: DaoModel,
    team_name: Seq<char>,
    user: u64,
    stake_percentage: u32,
    balance: i128,
) -> Result<i128, Error> {
    if stake_percentage > 100 {
        Err(Error::InvalidStakePercentage)
    } else if !m.teams.contains_key(team_name) {
        Err(Error::TeamNotFound)
    } else if !m.teams[team_name].members.contains(user) {
        Err(Error::Unauthorized)
    } else if stake_amount_of(balance, stake_percentage) <= 0 {
        Err(Error::LowBalance)
    } else {
        Ok(stake_amount_of(balance, stake_percentage) as i128)
    }
}

/// State after a stake contribution: on success the team's pool and the
/// user's cumulative stake each grow by the computed amount; on failure
/// nothing changes.
pub open spec fn stake_state(
    m: DaoModel,
    team_name: Seq<char>,
    user: u64,
    stake_percentage: u32,
    balance: i128,
) -> DaoModel {
    if stake_result(m, team_name, user, stake_percentage, balance) is Ok {
        let amount = stake_amount_of(balance, stake_percentage);
        let team = m.teams[team_name];
        DaoModel {
            teams: m.teams.insert(
                team_name,
                TeamModel { total_stake: (team.total_stake + amount) as i128, ..team },
            ),
            user_stakes: m.user_stakes.insert(user, (user_stake_of(m, user) + amount) as i128),
            ..m
        }
    } else {
        m
    }
}

/// Result of submitting a prediction: fails on a duplicate id, then on a
/// missing team.
pub open spec fn make_prediction_result(
    m: DaoModel,
    prediction_id: Seq<char>,
    team_name: Seq<char>,
) -> Result<(), Error> {
    if m.predictions.contains_key(prediction_id) {
        Err(Error::PredictionExists)
    } else if !m.teams.contains_key(team_name) {
        Err(Error::TeamNotFound)
    } else {
        Ok(())
    }
}

/// State after submitting a prediction: on success the prediction is stored
/// unresolved, with no outcome, under the caller-supplied id and with the
/// caller-declared amounts; on failure nothing changes.
pub open spec fn make_prediction_state(
    m: DaoModel,
    prediction_id: Seq<char>,
    team_name: Seq<char>,
    asset: Seq<char>,
    prediction: bool,
    stake_amount: i128,
    stake_percentage: u32,
    predictor: u64,
    timestamp: u64,
) -> DaoModel {
    if make_prediction_result(m, prediction_id, team_name) is Ok {
        DaoModel {
            predictions: m.predictions.insert(
                prediction_id,
                PredictionModel {
                    team_name,
                    asset,
                    prediction,
                    stake_amount,
                    stake_percentage,
                    predictor,
                    timestamp,
                    resolved: false,
                    outcome: None,
                },
            ),
            ..m
        }
    } else {
        m
    }
}

/// Result of a resolution attempt, given the two oracle answers and the sum
/// of the first four digest bytes. The guards run in this order: prediction
/// present, not yet resolved, oracle configured, both prices present, the
/// hash-difficulty check, the oracle-consistency check. When every guard
/// passes the result says whether the stored direction matched the price
/// movement.
pub open spec fn resolve_result(
    m: DaoModel,
    prediction_id: Seq<char>,
    current: Option<PriceData>,
    historical: Option<PriceData>,
    hash_sum: u32,
) -> Result<bool, Error> {
    if !m.predictions.contains_key(prediction_id) {
        Err(Error::PredictionNotFound)
    } else if m.predictions[prediction_id].resolved {
        Err(Error::AlreadyResolved)
    } else if m.reflector_oracle is None {
        Err(Error::OracleDataUnavailable)
    } else if current is None {
        Err(Error::OracleDataUnavailable)
    } else if historical is None {
        Err(Error::OracleDataUnavailable)
    } else {
        let p = m.predictions[prediction_id];
        let cur = current->0.price;
        let hist = historical->0.price;
        if hash_sum % difficulty_target_of(p.stake_percentage) != 0 {
            Err(Error::HashVerificationFailed)
        } else if !(cur != hist && cur > 0 && hist > 0) {
            Err(Error::OracleDataUnavailable)
        } else {
            Ok(p.prediction == (cur > hist))
        }
    }
}

/// State after a resolution attempt: on success the prediction is marked
/// resolved and its outcome committed, exactly once; on any error nothing
/// changes.
pub open spec fn resolve_state(
    m: DaoModel,
    prediction_id: Seq<char>,
    current: Option<PriceData>,
    historical: Option<PriceData>,
    hash_sum: u32,
) -> DaoModel {
    match resolve_result(m, prediction_id, current, historical, hash_sum) {
        Ok(correct) => {
            let p = m.predictions[prediction_id];
            DaoModel {
                predictions: m.predictions.insert(
                    prediction_id,
                    PredictionModel { resolved: true, outcome: Some(correct), ..p },
                ),
                ..m
            }
        },
        Err(_) => m,
    }
}

/// Result of a distribution request: the transfer the ledger must perform
/// (predictor and reward for a correct outcome, none for an incorrect
/// one), or `PredictionNotFound` when the prediction is absent or not yet
/// resolved. The reward is the stake plus a ten percent bonus. The state
/// never changes.
pub open spec fn distribute_result(m: DaoModel, prediction_id: Seq<char>) -> Result<
    Option<(u64, i128)>,
    Error,
> {
    if !m.predictions.contains_key(prediction_id) {
        Err(Error::PredictionNotFound)
    } else if !m.predictions[prediction_id].resolved {
        Err(Error::PredictionNotFound)
    } else {
        let p = m.predictions[prediction_id];
        if p.outcome == Some(true) {
            Ok(Some((p.predictor, (p.stake_amount + p.stake_amount / 10) as i128)))
        } else {
            Ok(None)
        }
    }
}

/// State after initialization: both collaborator addresses are stored,
/// unconditionally replacing any earlier configuration.
pub open spec fn initialize_state(m: DaoModel, kale_token: u64, reflector_oracle: u64) -> DaoModel {
    DaoModel { kale_token: Some(kale_token), reflector_oracle: Some(reflector_oracle), ..m }
}

} // verus!
