//! The stated laws of the state machine, proved once and for all over the
//! abstract model of [`crate::model`]. Each executable operation's
//! contract equates it with the transition functions these laws speak of,
//! so each law carries over to the operations themselves.

use vstd::prelude::*;

use crate::errors::Error;
use crate::model::{
    difficulty_target_of, distribute_result, form_team_result, form_team_state, resolve_result,
    resolve_state, stake_amount_of, stake_result, stake_state, DaoModel,
};
use crate::reflector::PriceData;

verus! {

/// Team names are unique: forming a team under a name that is already
/// stored fails with the team-exists error, and the stored record — and
/// everything else — is left unchanged.
pub proof fn lemma_team_names_unique(m: DaoModel, name: Seq<char>, members: Seq<u64>)
    requires
        m.teams.contains_key(name),
    ensures
        form_team_result(m, name, members) == Err::<(), Error>(Error::PredictionExists),
        form_team_state(m, name, members) == m,
        form_team_state(m, name, members).teams[name] == m.teams[name],
{
}

/// Non-members cannot stake: a user outside the team's member list is
/// turned away as unauthorized, whatever the percentage within bounds and
/// whatever the balance, and nothing changes.
pub proof fn lemma_nonmember_cannot_stake(
    m: DaoModel,
    team_name: Seq<char>,
    user: u64,
    stake_percentage: u32,
    balance: i128,
)
    requires
        m.teams.contains_key(team_name),
        !m.teams[team_name].members.contains(user),
        stake_percentage <= 100,
    ensures
        stake_result(m, team_name, user, stake_percentage, balance) == Err::<i128, Error>(
            Error::Unauthorized,
        ),
        stake_state(m, team_name, user, stake_percentage, balance) == m,
{
}

/// The percentage bound: a percentage above one hundred is rejected
/// outright, and a computed contribution of zero or less is rejected as a
/// low balance; neither changes anything.
pub proof fn lemma_stake_percentage_bound(
    m: DaoModel,
    team_name: Seq<char>,
    user: u64,
    stake_percentage: u32,
    balance: i128,
)
    ensures
        stake_percentage > 100 ==> stake_result(m, team_name, user, stake_percentage, balance)
            == Err::<i128, Error>(Error::InvalidStakePercentage),
        (stake_percentage <= 100 && m.teams.contains_key(team_name)
            && m.teams[team_name].members.contains(user) && stake_amount_of(
            balance,
            stake_percentage,
        ) <= 0) ==> stake_result(m, team_name, user, stake_percentage, balance) == Err::<
            i128,
            Error,
        >(Error::LowBalance),
        stake_result(m, team_name, user, stake_percentage, balance) is Err ==> stake_state(
            m,
            team_name,
            user,
            stake_percentage,
            balance,
        ) == m,
{
}

/// Resolution is exactly-once: when a resolve attempt succeeds, the
/// prediction is stored resolved with the returned outcome committed, and
/// every later attempt on the same id — with whatever oracle answers and
/// digest — fails as already-resolved and changes nothing, so the stored
/// outcome stands.
pub proof fn lemma_resolve_exactly_once(
    m: DaoModel,
    prediction_id: Seq<char>,
    current: Option<PriceData>,
    historical: Option<PriceData>,
    hash_sum: u32,
    current2: Option<PriceData>,
    historical2: Option<PriceData>,
    hash_sum2: u32,
)
    requires
        resolve_result(m, prediction_id, current, historical, hash_sum) is Ok,
    ensures
        ({
            let m1 = resolve_state(m, prediction_id, current, historical, hash_sum);
            &&& m1.predictions.contains_key(prediction_id)
            &&& m1.predictions[prediction_id].resolved
            &&& m1.predictions[prediction_id].outcome == Some(
                resolve_result(m, prediction_id, current, historical, hash_sum)->Ok_0,
            )
            &&& resolve_result(m1, prediction_id, current2, historical2, hash_sum2) == Err::<
                bool,
                Error,
            >(Error::AlreadyResolved)
            &&& resolve_state(m1, prediction_id, current2, historical2, hash_sum2) == m1
        }),
{
}

/// Reward arithmetic: settling a resolved-correct prediction owes the
/// predictor exactly its stake plus a ten percent bonus; settling a
/// resolved-incorrect one owes no transfer. Neither changes the state,
/// which also means nothing marks the prediction as paid.
pub proof fn lemma_reward_arithmetic(m: DaoModel, prediction_id: Seq<char>)
    requires
        m.predictions.contains_key(prediction_id),
        m.predictions[prediction_id].resolved,
    ensures
        m.predictions[prediction_id].outcome == Some(true) ==> ({
            let p = m.predictions[prediction_id];
            distribute_result(m, prediction_id) == Ok::<Option<(u64, i128)>, Error>(
                Some((p.predictor, (p.stake_amount + p.stake_amount / 10) as i128)),
            )
        }),
        m.predictions[prediction_id].outcome != Some(true) ==> distribute_result(m, prediction_id)
            == Ok::<Option<(u64, i128)>, Error>(None),
{
}

/// Error precedence: on an unresolved, present prediction with the oracle
/// configured and both answers present, when the hash-difficulty check and
/// the oracle-consistency check would both fail, resolution reports the
/// hash failure — not the oracle failure — and changes nothing.
pub proof fn lemma_error_precedence(
    m: DaoModel,
    prediction_id: Seq<char>,
    current: Option<PriceData>,
    historical: Option<PriceData>,
    hash_sum: u32,
)
    requires
        m.predictions.contains_key(prediction_id),
        !m.predictions[prediction_id].resolved,
        m.reflector_oracle is Some,
        current is Some,
        historical is Some,
        hash_sum % difficulty_target_of(m.predictions[prediction_id].stake_percentage) != 0,
        !(current->0.price != historical->0.price && current->0.price > 0 && historical->0.price
            > 0),
    ensures
        resolve_result(m, prediction_id, current, historical, hash_sum) == Err::<bool, Error>(
            Error::HashVerificationFailed,
        ),
        resolve_state(m, prediction_id, current, historical, hash_sum) == m,
{
}

} // verus!
