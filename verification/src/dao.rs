//! The team/stake/prediction state machine and its
//! resolution-and-settlement engine.
//!
//! `CollaborativeDao` owns every stored entity. The hosting environment
//! drives it: it authenticates the caller of each mutating operation
//! before forwarding the call, supplies token balances, timestamps,
//! digests and oracle answers, and performs the transfers and event
//! publication that the results here ask for. Each operation's contract
//! equates its result and its new abstract state with the transition
//! functions of [`crate::model`].

use vstd::prelude::*;

use crate::alist::{
    lemma_push_smodel, lemma_push_umodel, lemma_smodel_at, lemma_smodel_pairwise, lemma_umodel_at,
    lemma_update_smodel, lemma_update_umodel, shas, sidx, skeys_unique, smodel, uhas, uidx,
    ukeys_unique, umodel,
};
use crate::errors::Error;
use crate::model::{
    difficulty_target_of, distribute_result, form_team_result, form_team_state, hash_sum_of,
    init_model, initialize_state, inv, make_prediction_result, make_prediction_state,
    overwrite_teams, resolve_result, resolve_state, stake_amount_of, stake_fits, stake_result,
    stake_state, user_stake_of, DaoModel, PredictionModel, TeamModel, MAX_BALANCE,
    MAX_STAKE_AMOUNT,
};
use crate::reflector::PriceData;

verus! {

broadcast use vstd::string::group_string_axioms;

/// A named group of member identities sharing a pooled stake.
pub struct Team {
    pub name: String,
    pub members: Vec<u64>,
    pub total_stake: i128,
}

impl View for Team {
    type V = TeamModel;

    open spec fn view(&self) -> TeamModel {
        TeamModel { name: self.name@, members: self.members@, total_stake: self.total_stake }
    }
}

/// A directional price claim on an asset, tied to a team and predictor.
pub struct Prediction {
    pub team_name: String,
    pub asset: String,
    /// True claims the price will rise, false that it will fall.
    pub prediction: bool,
    pub stake_amount: i128,
    /// Declared percentage, also the difficulty divisor at resolution.
    pub stake_percentage: u32,
    pub predictor: u64,
    pub timestamp: u64,
    pub resolved: bool,
    pub outcome: Option<bool>,
}

impl View for Prediction {
    type V = PredictionModel;

    open spec fn view(&self) -> PredictionModel {
        PredictionModel {
            team_name: self.team_name@,
            asset: self.asset@,
            prediction: self.prediction,
            stake_amount: self.stake_amount,
            stake_percentage: self.stake_percentage,
            predictor: self.predictor,
            timestamp: self.timestamp,
            resolved: self.resolved,
            outcome: self.outcome,
        }
    }
}

/// The value abstraction used for stored teams.
pub open spec fn team_vf() -> spec_fn(Team) -> TeamModel {
    |t: Team| t@
}

/// The value abstraction used for stored predictions.
pub open spec fn pred_vf() -> spec_fn(Prediction) -> PredictionModel {
    |p: Prediction| p@
}

/// The value abstraction used for cumulative stakes.
pub open spec fn stake_vf() -> spec_fn(i128) -> i128 {
    |x: i128| x
}

/// The value abstraction used for team-name indices.
pub open spec fn name_vf() -> spec_fn(String) -> Seq<char> {
    |s: String| s@
}

/// The whole contract state: teams by name, predictions by id, cumulative
/// stakes and team indices by user, and the configured collaborator
/// addresses.
pub struct CollaborativeDao {
    teams: Vec<(String, Team)>,
    predictions: Vec<(String, Prediction)>,
    user_stakes: Vec<(u64, i128)>,
    user_teams: Vec<(u64, String)>,
    kale_token: Option<u64>,
    reflector_oracle: Option<u64>,
    prediction_counter: u64,
}

impl View for CollaborativeDao {
    type V = DaoModel;

    closed spec fn view(&self) -> DaoModel {
        DaoModel {
            teams: smodel(self.teams@, team_vf()),
            predictions: smodel(self.predictions@, pred_vf()),
            user_stakes: umodel(self.user_stakes@, stake_vf()),
            user_teams: umodel(self.user_teams@, name_vf()),
            kale_token: self.kale_token,
            reflector_oracle: self.reflector_oracle,
            prediction_counter: self.prediction_counter,
        }
    }
}

/// The index of the entry carrying `key`, if any.
fn find_skey<V>(v: &Vec<(String, V)>, key: &String) -> (r: Option<usize>)
    ensures
        match r {
            Some(i) => i < v@.len() && v@[i as int].0@ == key@,
            None => !shas(v@, key@),
        },
{
    let mut i: usize = 0;
    while i < v.len()
        invariant
            i <= v@.len(),
            forall|j: int| 0 <= j < i ==> (#[trigger] v@[j]).0@ != key@,
        decreases v@.len() - i,
    {
        if v[i].0 == *key {
            return Some(i);
        }
        i = i + 1;
    }
    None
}

/// The index of the entry carrying `key`, if any.
fn find_ukey<V>(v: &Vec<(u64, V)>, key: u64) -> (r: Option<usize>)
    ensures
        match r {
            Some(i) => i < v@.len() && v@[i as int].0 == key,
            None => !uhas(v@, key),
        },
{
    let mut i: usize = 0;
    while i < v.len()
        invariant
            i <= v@.len(),
            forall|j: int| 0 <= j < i ==> (#[trigger] v@[j]).0 != key,
        decreases v@.len() - i,
    {
        if v[i].0 == key {
            return Some(i);
        }
        i = i + 1;
    }
    None
}

/// A fresh vector with the same identities.
fn copy_ids(v: &Vec<u64>) -> (r: Vec<u64>)
    ensures
        r@ == v@,
{
    let mut r: Vec<u64> = Vec::new();
    let mut i: usize = 0;
    while i < v.len()
        invariant
            i <= v@.len(),
            r@ == v@.take(i as int),
        decreases v@.len() - i,
    {
        r.push(v[i]);
        proof {
            assert(v@.take(i + 1 as int) =~= v@.take(i as int).push(v@[i as int]));
        }
        i = i + 1;
    }
    proof {
        assert(v@.take(v@.len() as int) =~= v@);
    }
    r
}

/// Whether `x` occurs among the identities.
fn contains_id(v: &Vec<u64>, x: u64) -> (r: bool)
    ensures
        r == v@.contains(x),
{
    let mut i: usize = 0;
    while i < v.len()
        invariant
            i <= v@.len(),
            forall|j: int| 0 <= j < i ==> v@[j] != x,
        decreases v@.len() - i,
    {
        if v[i] == x {
            return true;
        }
        i = i + 1;
    }
    false
}

/// Sum of the first four bytes of a digest: the quantity the
/// hash-difficulty check divides.
pub fn hash_sum(digest: &Vec<u8>) -> (r: u32)
    requires
        digest@.len() >= 4,
    ensures
        r == hash_sum_of(digest@),
{
    (digest[0] as u32) + (digest[1] as u32) + (digest[2] as u32) + (digest[3] as u32)
}

/// The symbol actually sent to the oracle: a currency pair against the
/// fixed quote currency maps to its base currency; every other symbol is
/// queried as given. The table is fixed, not general parsing.
pub open spec fn normalize_symbol(asset: Seq<char>) -> Seq<char> {
    if asset == "EUR/USD"@ {
        "EUR"@
    } else {
        asset
    }
}

/// The oracle query symbol for a stored asset symbol.
pub fn normalize_asset(asset: &String) -> (r: String)
    ensures
        r@ == normalize_symbol(asset@),
{
    let eur_usd = "EUR/USD".to_owned();
    if *asset == eur_usd {
        "EUR".to_owned()
    } else {
        asset.clone()
    }
}

impl CollaborativeDao {
    /// Well-formedness: each store keys its entries uniquely, and the
    /// abstract state satisfies the state invariant. Established by
    /// [`CollaborativeDao::new`] and preserved by every operation.
    pub closed spec fn wf(self) -> bool {
        &&& skeys_unique(self.teams@)
        &&& skeys_unique(self.predictions@)
        &&& ukeys_unique(self.user_stakes@)
        &&& ukeys_unique(self.user_teams@)
        &&& inv(self@)
    }

    /// Well-formedness implies the abstract state invariant.
    pub proof fn lemma_wf_inv(self)
        requires
            self.wf(),
        ensures
            inv(self@),
    {
    }

    /// A fresh contract: nothing stored, nothing configured.
    pub fn new() -> (s: Self)
        ensures
            s.wf(),
            s@ == init_model(),
    {
        let s = CollaborativeDao {
            teams: Vec::new(),
            predictions: Vec::new(),
            user_stakes: Vec::new(),
            user_teams: Vec::new(),
            kale_token: None,
            reflector_oracle: None,
            prediction_counter: 0,
        };
        proof {
            assert(s@.teams =~= init_model().teams);
            assert(s@.predictions =~= init_model().predictions);
            assert(s@.user_stakes =~= init_model().user_stakes);
            assert(s@.user_teams =~= init_model().user_teams);
        }
        s
    }

    /// Store both collaborator addresses, unconditionally replacing any
    /// earlier configuration. The hosting environment authenticates
    /// `admin` before forwarding the call.
    pub fn initialize(&mut self, admin: u64, kale_token: u64, reflector_oracle: u64) -> (r: Result<
        (),
        Error,
    >)
        requires
            old(self).wf(),
        ensures
            final(self).wf(),
            r is Ok,
            final(self)@ == initialize_state(old(self)@, kale_token, reflector_oracle),
    {
        let _ = admin;
        self.kale_token = Some(kale_token);
        self.reflector_oracle = Some(reflector_oracle);
        Ok(())
    }

    /// Form a new team. The hosting environment authenticates the first
    /// listed member — the creator — before forwarding the call, which is
    /// why at least one member is required. Fails exactly when the name
    /// is taken; on success every member's team index is overwritten to
    /// the new name, the latest formation winning.
    pub fn form_team(&mut self, team_name: String, members: Vec<u64>) -> (r: Result<(), Error>)
        requires
            old(self).wf(),
            members@.len() >= 1,
        ensures
            final(self).wf(),
            r == form_team_result(old(self)@, team_name@, members@),
            final(self)@ == form_team_state(old(self)@, team_name@, members@),
    {
        let ghost m0 = old(self)@;
        let ghost name_v = team_name@;
        let ghost members_v = members@;
        if let Some(_) = find_skey(&self.teams, &team_name) {
            proof {
                assert(m0.teams.contains_key(name_v));
            }
            return Err(Error::PredictionExists);
        }
        proof {
            assert(!m0.teams.contains_key(name_v));
        }
        let member_ids = copy_ids(&members);
        let name_for_index = team_name.clone();
        let team = Team { name: team_name.clone(), members: members, total_stake: 0 };
        proof {
            lemma_push_smodel(self.teams@, team_name, team, team_vf());
        }
        self.teams.push((team_name, team));
        let ghost teams_after = self.teams@;
        let mut i: usize = 0;
        while i < member_ids.len()
            invariant
                i <= member_ids@.len(),
                member_ids@ == members_v,
                self.teams@ == teams_after,
                self.predictions@ == old(self).predictions@,
                self.user_stakes@ == old(self).user_stakes@,
                self.kale_token == old(self).kale_token,
                self.reflector_oracle == old(self).reflector_oracle,
                self.prediction_counter == old(self).prediction_counter,
                name_for_index@ == name_v,
                ukeys_unique(self.user_teams@),
                umodel(self.user_teams@, name_vf()) == overwrite_teams(
                    m0.user_teams,
                    members_v.take(i as int),
                    name_v,
                ),
            decreases member_ids@.len() - i,
        {
            let u = member_ids[i];
            let ghost ut_before = self.user_teams@;
            match find_ukey(&self.user_teams, u) {
                Some(j) => {
                    proof {
                        lemma_update_umodel(
                            ut_before,
                            j as int,
                            (ut_before[j as int].0, name_for_index),
                            name_vf(),
                        );
                    }
                    self.user_teams[j].1 = name_for_index.clone();
                },
                None => {
                    proof {
                        lemma_push_umodel(ut_before, u, name_for_index, name_vf());
                    }
                    self.user_teams.push((u, name_for_index.clone()));
                },
            }
            proof {
                lemma_overwrite_step(m0.user_teams, members_v, i as int, name_v);
                assert(umodel(self.user_teams@, name_vf()) =~= overwrite_teams(
                    m0.user_teams,
                    members_v.take(i + 1 as int),
                    name_v,
                ));
            }
            i = i + 1;
        }
        proof {
            assert(members_v.take(members_v.len() as int) =~= members_v);
            assert(self@.teams =~= form_team_state(m0, name_v, members_v).teams);
            assert(self@.user_teams =~= form_team_state(m0, name_v, members_v).user_teams);
            assert(self@ == form_team_state(m0, name_v, members_v));
        }
        Ok(())
    }

    /// The membership gate for staking: the team must exist and `user`
    /// must be among its members.
    fn validate_team_member(&self, team_name: &String, user: u64) -> (r: Result<(), Error>)
        requires
            self.wf(),
        ensures
            r == (if !self@.teams.contains_key(team_name@) {
                Err::<(), Error>(Error::TeamNotFound)
            } else if !self@.teams[team_name@].members.contains(user) {
                Err::<(), Error>(Error::Unauthorized)
            } else {
                Ok::<(), Error>(())
            }),
    {
        match find_skey(&self.teams, team_name) {
            None => Err(Error::TeamNotFound),
            Some(i) => {
                proof {
                    lemma_smodel_at(self.teams@, i as int, team_vf());
                }
                if contains_id(&self.teams[i].1.members, user) {
                    Ok(())
                } else {
                    Err(Error::Unauthorized)
                }
            },
        }
    }

    /// Contribute a percentage of the user's token balance to the team's
    /// pool. The hosting environment authenticates `user`, reads
    /// `balance` from the token ledger before the call, and transfers the
    /// returned amount from `user` into escrow after it; that transfer
    /// and these mutations commit atomically or not at all.
    pub fn stake_kale(
        &mut self,
        team_name: &String,
        user: u64,
        stake_percentage: u32,
        balance: i128,
    ) -> (r: Result<i128, Error>)
        requires
            old(self).wf(),
            balance <= MAX_BALANCE,
            stake_fits(old(self)@, team_name@, user, balance),
        ensures
            final(self).wf(),
            r == stake_result(old(self)@, team_name@, user, stake_percentage, balance),
            final(self)@ == stake_state(old(self)@, team_name@, user, stake_percentage, balance),
    {
        let ghost m0 = old(self)@;
        if stake_percentage > 100 {
            return Err(Error::InvalidStakePercentage);
        }
        if let Err(e) = self.validate_team_member(team_name, user) {
            return Err(e);
        }
        let i = match find_skey(&self.teams, team_name) {
            Some(i) => i,
            None => {
                proof {
                    assert(false);
                }
                return Err(Error::TeamNotFound);
            },
        };
        proof {
            lemma_smodel_at(self.teams@, i as int, team_vf());
        }
        if balance <= 0 {
            proof {
                lemma_amount_nonpos(balance, stake_percentage);
            }
            return Err(Error::LowBalance);
        }
        proof {
            lemma_amount_le_balance(balance, stake_percentage);
        }
        let wide: u128 = (balance as u128) * (stake_percentage as u128);
        let amount: i128 = (wide / 100) as i128;
        if amount <= 0 {
            return Err(Error::LowBalance);
        }
        let ghost teams0 = self.teams@;
        let old_total = self.teams[i].1.total_stake;
        proof {
            lemma_update_smodel(
                teams0,
                i as int,
                (
                    teams0[i as int].0,
                    Team {
                        total_stake: (old_total + amount) as i128,
                        ..teams0[i as int].1
                    },
                ),
                team_vf(),
            );
        }
        self.teams[i].1.total_stake = old_total + amount;
        let ghost stakes0 = self.user_stakes@;
        match find_ukey(&self.user_stakes, user) {
            Some(j) => {
                proof {
                    lemma_umodel_at(stakes0, j as int, stake_vf());
                    lemma_update_umodel(
                        stakes0,
                        j as int,
                        (stakes0[j as int].0, (stakes0[j as int].1 + amount) as i128),
                        stake_vf(),
                    );
                }
                let old_stake = self.user_stakes[j].1;
                self.user_stakes[j].1 = old_stake + amount;
            },
            None => {
                proof {
                    lemma_push_umodel(stakes0, user, amount, stake_vf());
                }
                self.user_stakes.push((user, amount));
            },
        }
        proof {
            assert(self@.teams =~= stake_state(m0, team_name@, user, stake_percentage, balance)
                .teams);
            assert(self@.user_stakes =~= stake_state(
                m0,
                team_name@,
                user,
                stake_percentage,
                balance,
            ).user_stakes);
            assert(self@ == stake_state(m0, team_name@, user, stake_percentage, balance));
        }
        Ok(amount)
    }

    /// Submit a price prediction for an asset. The hosting environment
    /// authenticates `predictor` and supplies the current `timestamp`.
    /// The amounts are recorded as declared by the caller; they are what
    /// the difficulty gate and the settlement later use.
    pub fn make_prediction(
        &mut self,
        prediction_id: String,
        team_name: String,
        asset: String,
        prediction: bool,
        stake_amount: i128,
        stake_percentage: u32,
        predictor: u64,
        timestamp: u64,
    ) -> (r: Result<(), Error>)
        requires
            old(self).wf(),
            0 <= stake_amount <= MAX_STAKE_AMOUNT,
        ensures
            final(self).wf(),
            r == make_prediction_result(old(self)@, prediction_id@, team_name@),
            final(self)@ == make_prediction_state(
                old(self)@,
                prediction_id@,
                team_name@,
                asset@,
                prediction,
                stake_amount,
                stake_percentage,
                predictor,
                timestamp,
            ),
    {
        let ghost m0 = old(self)@;
        if let Some(_) = find_skey(&self.predictions, &prediction_id) {
            proof {
                assert(m0.predictions.contains_key(prediction_id@));
            }
            return Err(Error::PredictionExists);
        }
        if let None = find_skey(&self.teams, &team_name) {
            return Err(Error::TeamNotFound);
        }
        let record = Prediction {
            team_name: team_name,
            asset: asset,
            prediction: prediction,
            stake_amount: stake_amount,
            stake_percentage: stake_percentage,
            predictor: predictor,
            timestamp: timestamp,
            resolved: false,
            outcome: None,
        };
        proof {
            lemma_push_smodel(self.predictions@, prediction_id, record, pred_vf());
        }
        self.predictions.push((prediction_id, record));
        Ok(())
    }

    /// Resolve a prediction against the two oracle answers and the
    /// digest of the verification payload, all supplied by the hosting
    /// environment (the oracle is queried for the normalized symbol, at
    /// the latest time and at the prediction's timestamp). The
    /// hash-difficulty gate runs before the oracle-consistency gate; on
    /// any failure nothing changes and the prediction stays unresolved.
    /// On success the outcome — whether the stored direction matched the
    /// price movement — is committed exactly once and returned.
    pub fn resolve_prediction(
        &mut self,
        prediction_id: &String,
        current: Option<PriceData>,
        historical: Option<PriceData>,
        digest: &Vec<u8>,
    ) -> (r: Result<bool, Error>)
        requires
            old(self).wf(),
            digest@.len() >= 4,
        ensures
            final(self).wf(),
            r == resolve_result(
                old(self)@,
                prediction_id@,
                current,
                historical,
                hash_sum_of(digest@),
            ),
            final(self)@ == resolve_state(
                old(self)@,
                prediction_id@,
                current,
                historical,
                hash_sum_of(digest@),
            ),
    {
        let ghost m0 = old(self)@;
        let i = match find_skey(&self.predictions, prediction_id) {
            Some(i) => i,
            None => {
                return Err(Error::PredictionNotFound);
            },
        };
        proof {
            lemma_smodel_at(self.predictions@, i as int, pred_vf());
        }
        if self.predictions[i].1.resolved {
            return Err(Error::AlreadyResolved);
        }
        if self.reflector_oracle.is_none() {
            return Err(Error::OracleDataUnavailable);
        }
        let current_data = match current {
            Some(d) => d,
            None => {
                return Err(Error::OracleDataUnavailable);
            },
        };
        let historical_data = match historical {
            Some(d) => d,
            None => {
                return Err(Error::OracleDataUnavailable);
            },
        };
        let sum = hash_sum(digest);
        let pct = self.predictions[i].1.stake_percentage;
        let difficulty_target = if pct > 0 {
            pct
        } else {
            1
        };
        if sum % difficulty_target != 0 {
            return Err(Error::HashVerificationFailed);
        }
        let oracle_data_valid = current_data.price != historical_data.price
            && current_data.price > 0 && historical_data.price > 0;
        if !oracle_data_valid {
            return Err(Error::OracleDataUnavailable);
        }
        let price_increased = current_data.price > historical_data.price;
        let prediction_correct = self.predictions[i].1.prediction == price_increased;
        let ghost preds0 = self.predictions@;
        proof {
            lemma_update_smodel(
                preds0,
                i as int,
                (
                    preds0[i as int].0,
                    Prediction {
                        resolved: true,
                        outcome: Some(prediction_correct),
                        ..preds0[i as int].1
                    },
                ),
                pred_vf(),
            );
        }
        self.predictions[i].1.resolved = true;
        self.predictions[i].1.outcome = Some(prediction_correct);
        proof {
            assert(self.predictions@ =~= preds0.update(
                i as int,
                (
                    preds0[i as int].0,
                    Prediction {
                        resolved: true,
                        outcome: Some(prediction_correct),
                        ..preds0[i as int].1
                    },
                ),
            ));
            assert(self@.predictions =~= resolve_state(
                m0,
                prediction_id@,
                current,
                historical,
                hash_sum_of(digest@),
            ).predictions);
            assert(self@ == resolve_state(
                m0,
                prediction_id@,
                current,
                historical,
                hash_sum_of(digest@),
            ));
        }
        Ok(prediction_correct)
    }

    /// What settlement owes for a prediction: for a correct outcome, a
    /// transfer of the stake plus a ten percent bonus from escrow to the
    /// predictor, which the hosting environment performs; for an
    /// incorrect one, no transfer — the stake stays in escrow as the
    /// penalty. Fails as not-found while the prediction is absent or not
    /// yet resolved, since nothing is payable either way. Nothing marks a
    /// prediction as paid; the caller sees the same answer again.
    pub fn distribute_rewards(&self, prediction_id: &String) -> (r: Result<
        Option<(u64, i128)>,
        Error,
    >)
        requires
            self.wf(),
        ensures
            r == distribute_result(self@, prediction_id@),
    {
        let i = match find_skey(&self.predictions, prediction_id) {
            Some(i) => i,
            None => {
                return Err(Error::PredictionNotFound);
            },
        };
        proof {
            lemma_smodel_at(self.predictions@, i as int, pred_vf());
        }
        let p = &self.predictions[i].1;
        if !p.resolved {
            return Err(Error::PredictionNotFound);
        }
        let prediction_correct = match p.outcome {
            Some(b) => b,
            None => false,
        };
        if prediction_correct {
            let stake = p.stake_amount;
            proof {
                assert(0 <= stake <= MAX_STAKE_AMOUNT);
                vstd::arithmetic::div_mod::lemma_div_nonincreasing(stake as int, 10);
                vstd::arithmetic::div_mod::lemma_div_pos_is_pos(stake as int, 10);
            }
            let bonus: i128 = ((stake as u128) / 10) as i128;
            Ok(Some((p.predictor, stake + bonus)))
        } else {
            Ok(None)
        }
    }

    /// The stored team of the given name, if any.
    pub fn get_team(&self, team_name: &String) -> (r: Option<Team>)
        requires
            self.wf(),
        ensures
            match r {
                Some(t) => self@.teams.contains_key(team_name@) && t@ == self@.teams[team_name@],
                None => !self@.teams.contains_key(team_name@),
            },
    {
        match find_skey(&self.teams, team_name) {
            Some(i) => {
                proof {
                    lemma_smodel_at(self.teams@, i as int, team_vf());
                }
                let t = &self.teams[i].1;
                Some(
                    Team {
                        name: t.name.clone(),
                        members: copy_ids(&t.members),
                        total_stake: t.total_stake,
                    },
                )
            },
            None => None,
        }
    }

    /// The stored prediction of the given id, if any.
    pub fn get_prediction(&self, prediction_id: &String) -> (r: Option<Prediction>)
        requires
            self.wf(),
        ensures
            match r {
                Some(p) => self@.predictions.contains_key(prediction_id@) && p@
                    == self@.predictions[prediction_id@],
                None => !self@.predictions.contains_key(prediction_id@),
            },
    {
        match find_skey(&self.predictions, prediction_id) {
            Some(i) => {
                proof {
                    lemma_smodel_at(self.predictions@, i as int, pred_vf());
                }
                let p = &self.predictions[i].1;
                Some(
                    Prediction {
                        team_name: p.team_name.clone(),
                        asset: p.asset.clone(),
                        prediction: p.prediction,
                        stake_amount: p.stake_amount,
                        stake_percentage: p.stake_percentage,
                        predictor: p.predictor,
                        timestamp: p.timestamp,
                        resolved: p.resolved,
                        outcome: p.outcome,
                    },
                )
            },
            None => None,
        }
    }

    /// The user's cumulative staked amount; zero before any contribution.
    pub fn get_user_stake(&self, user: u64) -> (r: i128)
        requires
            self.wf(),
        ensures
            r == user_stake_of(self@, user),
    {
        match find_ukey(&self.user_stakes, user) {
            Some(i) => {
                proof {
                    lemma_umodel_at(self.user_stakes@, i as int, stake_vf());
                }
                self.user_stakes[i].1
            },
            None => 0,
        }
    }

    /// The team the user joined most recently, if any.
    pub fn get_user_team(&self, user: u64) -> (r: Option<String>)
        requires
            self.wf(),
        ensures
            match r {
                Some(n) => self@.user_teams.contains_key(user) && n@ == self@.user_teams[user],
                None => !self@.user_teams.contains_key(user),
            },
    {
        match find_ukey(&self.user_teams, user) {
            Some(i) => {
                proof {
                    lemma_umodel_at(self.user_teams@, i as int, name_vf());
                }
                Some(self.user_teams[i].1.clone())
            },
            None => None,
        }
    }

    /// Team enumeration is an acknowledged stub: it would need a separate
    /// ordered index maintained alongside team formation, which the core
    /// does not keep. The answer is always empty.
    pub fn list_teams(&self) -> (r: Vec<String>)
        ensures
            r@.len() == 0,
    {
        Vec::new()
    }

    /// The configured token-ledger and oracle addresses, if set.
    pub fn get_config(&self) -> (r: (Option<u64>, Option<u64>))
        ensures
            r.0 == self@.kale_token,
            r.1 == self@.reflector_oracle,
    {
        (self.kale_token, self.reflector_oracle)
    }

    /// Draw the next value of the prediction counter. The id scheme is a
    /// placeholder: the counter advances, the returned text is fixed.
    #[allow(dead_code)]
    fn generate_prediction_id(&mut self) -> (r: String)
        requires
            old(self).wf(),
            old(self)@.prediction_counter < u64::MAX,
        ensures
            final(self).wf(),
            final(self)@ == (DaoModel {
                prediction_counter: (old(self)@.prediction_counter + 1) as u64,
                ..old(self)@
            }),
            r@ == "prediction"@,
    {
        let counter = self.prediction_counter;
        self.prediction_counter = counter + 1;
        "prediction".to_owned()
    }

    /// Rebuild a contract state from stored entities. The persistent
    /// store owns every entity; the hosting environment reads them all,
    /// hands them over as plain values, and this validates them: `Some`
    /// exactly when every store keys its entries uniquely and every entry
    /// is internally consistent, and then the abstract state is precisely
    /// the stored one.
    pub fn from_parts(parts: StateParts) -> (r: Option<CollaborativeDao>)
        ensures
            r is Some <==> parts_ok(parts),
            r is Some ==> r->0.wf() && r->0@ == parts_model(parts),
    {
        if !check_team_entries(&parts.teams) {
            return None;
        }
        if !check_pred_entries(&parts.predictions) {
            return None;
        }
        if !check_stake_entries(&parts.user_stakes) {
            return None;
        }
        if !check_name_keys(&parts.user_teams) {
            return None;
        }
        proof {
            lemma_inv_from_lists(parts);
        }
        Some(
            CollaborativeDao {
                teams: parts.teams,
                predictions: parts.predictions,
                user_stakes: parts.user_stakes,
                user_teams: parts.user_teams,
                kale_token: parts.kale_token,
                reflector_oracle: parts.reflector_oracle,
                prediction_counter: parts.prediction_counter,
            },
        )
    }

    /// Hand the stored entities back to the hosting environment for the
    /// persistent store, as plain values carrying exactly the abstract
    /// state.
    pub fn to_parts(&self) -> (r: StateParts)
        requires
            self.wf(),
        ensures
            parts_ok(r),
            parts_model(r) == self@,
    {
        let mut teams: Vec<(String, Team)> = Vec::new();
        let mut i: usize = 0;
        while i < self.teams.len()
            invariant
                i <= self.teams@.len(),
                teams@.len() == i,
                forall|a: int| 0 <= a < i ==> (#[trigger] teams@[a]).0@ == self.teams@[a].0@
                    && teams@[a].1@ == self.teams@[a].1@,
            decreases self.teams@.len() - i,
        {
            let e = &self.teams[i];
            teams.push(
                (
                    e.0.clone(),
                    Team {
                        name: e.1.name.clone(),
                        members: copy_ids(&e.1.members),
                        total_stake: e.1.total_stake,
                    },
                ),
            );
            i = i + 1;
        }
        proof {
            lemma_smodel_pairwise(self.teams@, teams@, team_vf());
        }
        let mut predictions: Vec<(String, Prediction)> = Vec::new();
        let mut i: usize = 0;
        while i < self.predictions.len()
            invariant
                i <= self.predictions@.len(),
                predictions@ == self.predictions@.take(i as int),
            decreases self.predictions@.len() - i,
        {
            let e = &self.predictions[i];
            predictions.push(
                (
                    e.0.clone(),
                    Prediction {
                        team_name: e.1.team_name.clone(),
                        asset: e.1.asset.clone(),
                        prediction: e.1.prediction,
                        stake_amount: e.1.stake_amount,
                        stake_percentage: e.1.stake_percentage,
                        predictor: e.1.predictor,
                        timestamp: e.1.timestamp,
                        resolved: e.1.resolved,
                        outcome: e.1.outcome,
                    },
                ),
            );
            proof {
                assert(self.predictions@.take(i + 1 as int) =~= self.predictions@.take(
                    i as int,
                ).push(self.predictions@[i as int]));
            }
            i = i + 1;
        }
        proof {
            assert(self.predictions@.take(self.predictions@.len() as int) =~= self.predictions@);
        }
        let mut user_stakes: Vec<(u64, i128)> = Vec::new();
        let mut i: usize = 0;
        while i < self.user_stakes.len()
            invariant
                i <= self.user_stakes@.len(),
                user_stakes@ == self.user_stakes@.take(i as int),
            decreases self.user_stakes@.len() - i,
        {
            user_stakes.push(self.user_stakes[i]);
            proof {
                assert(self.user_stakes@.take(i + 1 as int) =~= self.user_stakes@.take(
                    i as int,
                ).push(self.user_stakes@[i as int]));
            }
            i = i + 1;
        }
        proof {
            assert(self.user_stakes@.take(self.user_stakes@.len() as int) =~= self.user_stakes@);
        }
        let mut user_teams: Vec<(u64, String)> = Vec::new();
        let mut i: usize = 0;
        while i < self.user_teams.len()
            invariant
                i <= self.user_teams@.len(),
                user_teams@ == self.user_teams@.take(i as int),
            decreases self.user_teams@.len() - i,
        {
            let e = &self.user_teams[i];
            user_teams.push((e.0, e.1.clone()));
            proof {
                assert(self.user_teams@.take(i + 1 as int) =~= self.user_teams@.take(
                    i as int,
                ).push(self.user_teams@[i as int]));
            }
            i = i + 1;
        }
        proof {
            assert(self.user_teams@.take(self.user_teams@.len() as int) =~= self.user_teams@);
        }
        let r = StateParts {
            teams,
            predictions,
            user_stakes,
            user_teams,
            kale_token: self.kale_token,
            reflector_oracle: self.reflector_oracle,
            prediction_counter: self.prediction_counter,
        };
        proof {
            lemma_inv_from_lists(r);
        }
        r
    }
}

/// The stored entities of a contract state, as the persistent store holds
/// them: each entity kind as a list of key/value pairs, plus the
/// configuration.
pub struct StateParts {
    pub teams: Vec<(String, Team)>,
    pub predictions: Vec<(String, Prediction)>,
    pub user_stakes: Vec<(u64, i128)>,
    pub user_teams: Vec<(u64, String)>,
    pub kale_token: Option<u64>,
    pub reflector_oracle: Option<u64>,
    pub prediction_counter: u64,
}

/// The abstract state that stored entities describe.
pub open spec fn parts_model(parts: StateParts) -> DaoModel {
    DaoModel {
        teams: smodel(parts.teams@, team_vf()),
        predictions: smodel(parts.predictions@, pred_vf()),
        user_stakes: umodel(parts.user_stakes@, stake_vf()),
        user_teams: umodel(parts.user_teams@, name_vf()),
        kale_token: parts.kale_token,
        reflector_oracle: parts.reflector_oracle,
        prediction_counter: parts.prediction_counter,
    }
}

/// Every stored team entry carries its key as its name, at least one
/// member, and a non-negative pool.
pub open spec fn team_entries_ok(s: Seq<(String, Team)>) -> bool {
    forall|i: int| 0 <= i < s.len() ==> {
        &&& (#[trigger] s[i]).1.name@ == s[i].0@
        &&& s[i].1.members@.len() >= 1
        &&& s[i].1.total_stake >= 0
    }
}

/// Every stored prediction entry carries an outcome exactly when it is
/// resolved, and a stake amount within the settlement range.
pub open spec fn pred_entries_ok(s: Seq<(String, Prediction)>) -> bool {
    forall|i: int| 0 <= i < s.len() ==> {
        &&& ((#[trigger] s[i]).1.outcome is Some <==> s[i].1.resolved)
        &&& 0 <= s[i].1.stake_amount <= MAX_STAKE_AMOUNT
    }
}

/// Every stored cumulative stake is non-negative.
pub open spec fn stake_entries_ok(s: Seq<(u64, i128)>) -> bool {
    forall|i: int| 0 <= i < s.len() ==> (#[trigger] s[i]).1 >= 0
}

/// Stored entities are acceptable: uniquely keyed and internally
/// consistent.
pub open spec fn parts_ok(parts: StateParts) -> bool {
    &&& skeys_unique(parts.teams@)
    &&& team_entries_ok(parts.teams@)
    &&& skeys_unique(parts.predictions@)
    &&& pred_entries_ok(parts.predictions@)
    &&& ukeys_unique(parts.user_stakes@)
    &&& stake_entries_ok(parts.user_stakes@)
    &&& ukeys_unique(parts.user_teams@)
}

/// Over uniquely keyed lists, the state invariant of the abstract state is
/// exactly the internal consistency of the entries.
proof fn lemma_inv_from_lists(parts: StateParts)
    requires
        skeys_unique(parts.teams@),
        skeys_unique(parts.predictions@),
        ukeys_unique(parts.user_stakes@),
    ensures
        inv(parts_model(parts)) <==> (team_entries_ok(parts.teams@) && pred_entries_ok(
            parts.predictions@,
        ) && stake_entries_ok(parts.user_stakes@)),
{
    let m = parts_model(parts);
    let t = parts.teams@;
    let p = parts.predictions@;
    let us = parts.user_stakes@;
    if team_entries_ok(t) && pred_entries_ok(p) && stake_entries_ok(us) {
        assert forall|name: Seq<char>| #[trigger] m.teams.contains_key(name) implies {
            &&& m.teams[name].name == name
            &&& m.teams[name].members.len() >= 1
            &&& m.teams[name].total_stake >= 0
        } by {
            let i = sidx(t, name);
            assert(0 <= i < t.len() && t[i].0@ == name);
            assert(t[i].1.name@ == t[i].0@);
        }
        assert forall|id: Seq<char>| #[trigger] m.predictions.contains_key(id) implies {
            &&& (m.predictions[id].outcome is Some <==> m.predictions[id].resolved)
            &&& 0 <= m.predictions[id].stake_amount <= MAX_STAKE_AMOUNT
        } by {
            let i = sidx(p, id);
            assert(0 <= i < p.len() && p[i].0@ == id);
            assert((p[i].1.outcome is Some <==> p[i].1.resolved));
        }
        assert forall|user: u64| #[trigger] m.user_stakes.contains_key(user) implies
            m.user_stakes[user] >= 0 by {
            let i = uidx(us, user);
            assert(0 <= i < us.len() && us[i].0 == user);
            assert(us[i].1 >= 0);
        }
        assert(inv(m));
    }
    if inv(m) {
        assert forall|i: int| 0 <= i < t.len() implies {
            &&& (#[trigger] t[i]).1.name@ == t[i].0@
            &&& t[i].1.members@.len() >= 1
            &&& t[i].1.total_stake >= 0
        } by {
            lemma_smodel_at(t, i, team_vf());
            assert(m.teams.contains_key(t[i].0@));
            assert(m.teams[t[i].0@] == t[i].1@);
        }
        assert forall|i: int| 0 <= i < p.len() implies {
            &&& ((#[trigger] p[i]).1.outcome is Some <==> p[i].1.resolved)
            &&& 0 <= p[i].1.stake_amount <= MAX_STAKE_AMOUNT
        } by {
            lemma_smodel_at(p, i, pred_vf());
            assert(m.predictions.contains_key(p[i].0@));
            assert(m.predictions[p[i].0@] == p[i].1@);
        }
        assert forall|i: int| 0 <= i < us.len() implies (#[trigger] us[i]).1 >= 0 by {
            lemma_umodel_at(us, i, stake_vf());
            assert(m.user_stakes.contains_key(us[i].0));
            assert(m.user_stakes[us[i].0] == us[i].1);
        }
    }
}

/// Checks a stored team list: unique names, consistent entries.
fn check_team_entries(v: &Vec<(String, Team)>) -> (r: bool)
    ensures
        r == (skeys_unique(v@) && team_entries_ok(v@)),
{
    let mut i: usize = 0;
    while i < v.len()
        invariant
            i <= v@.len(),
            forall|a: int, b: int| 0 <= a < b < v@.len() && a < i ==> (#[trigger] v@[a]).0@ != (
            #[trigger] v@[b]).0@,
            forall|a: int| 0 <= a < i ==> {
                &&& (#[trigger] v@[a]).1.name@ == v@[a].0@
                &&& v@[a].1.members@.len() >= 1
                &&& v@[a].1.total_stake >= 0
            },
        decreases v@.len() - i,
    {
        if !(v[i].1.name == v[i].0) {
            return false;
        }
        if v[i].1.members.len() < 1 {
            return false;
        }
        if v[i].1.total_stake < 0 {
            return false;
        }
        let mut j: usize = i + 1;
        while j < v.len()
            invariant
                i < v@.len(),
                i + 1 <= j <= v@.len(),
                forall|b: int| i < b < j ==> (#[trigger] v@[b]).0@ != v@[i as int].0@,
            decreases v@.len() - j,
        {
            if v[j].0 == v[i].0 {
                return false;
            }
            j = j + 1;
        }
        i = i + 1;
    }
    true
}

/// Checks a stored prediction list: unique ids, consistent entries.
fn check_pred_entries(v: &Vec<(String, Prediction)>) -> (r: bool)
    ensures
        r == (skeys_unique(v@) && pred_entries_ok(v@)),
{
    let mut i: usize = 0;
    while i < v.len()
        invariant
            i <= v@.len(),
            forall|a: int, b: int| 0 <= a < b < v@.len() && a < i ==> (#[trigger] v@[a]).0@ != (
            #[trigger] v@[b]).0@,
            forall|a: int| 0 <= a < i ==> {
                &&& ((#[trigger] v@[a]).1.outcome is Some <==> v@[a].1.resolved)
                &&& 0 <= v@[a].1.stake_amount <= MAX_STAKE_AMOUNT
            },
        decreases v@.len() - i,
    {
        let has_outcome = v[i].1.outcome.is_some();
        if has_outcome != v[i].1.resolved {
            return false;
        }
        if v[i].1.stake_amount < 0 {
            return false;
        }
        if v[i].1.stake_amount > MAX_STAKE_AMOUNT {
            return false;
        }
        let mut j: usize = i + 1;
        while j < v.len()
            invariant
                i < v@.len(),
                i + 1 <= j <= v@.len(),
                forall|b: int| i < b < j ==> (#[trigger] v@[b]).0@ != v@[i as int].0@,
            decreases v@.len() - j,
        {
            if v[j].0 == v[i].0 {
                return false;
            }
            j = j + 1;
        }
        i = i + 1;
    }
    true
}

/// Checks a stored stake list: unique users, non-negative amounts.
fn check_stake_entries(v: &Vec<(u64, i128)>) -> (r: bool)
    ensures
        r == (ukeys_unique(v@) && stake_entries_ok(v@)),
{
    let mut i: usize = 0;
    while i < v.len()
        invariant
            i <= v@.len(),
            forall|a: int, b: int| 0 <= a < b < v@.len() && a < i ==> (#[trigger] v@[a]).0 != (
            #[trigger] v@[b]).0,
            forall|a: int| 0 <= a < i ==> (#[trigger] v@[a]).1 >= 0,
        decreases v@.len() - i,
    {
        if v[i].1 < 0 {
            return false;
        }
        let mut j: usize = i + 1;
        while j < v.len()
            invariant
                i < v@.len(),
                i + 1 <= j <= v@.len(),
                forall|b: int| i < b < j ==> (#[trigger] v@[b]).0 != v@[i as int].0,
            decreases v@.len() - j,
        {
            if v[j].0 == v[i].0 {
                return false;
            }
            j = j + 1;
        }
        i = i + 1;
    }
    true
}

/// Checks a stored team-index list: unique users.
fn check_name_keys(v: &Vec<(u64, String)>) -> (r: bool)
    ensures
        r == ukeys_unique(v@),
{
    let mut i: usize = 0;
    while i < v.len()
        invariant
            i <= v@.len(),
            forall|a: int, b: int| 0 <= a < b < v@.len() && a < i ==> (#[trigger] v@[a]).0 != (
            #[trigger] v@[b]).0,
        decreases v@.len() - i,
    {
        let mut j: usize = i + 1;
        while j < v.len()
            invariant
                i < v@.len(),
                i + 1 <= j <= v@.len(),
                forall|b: int| i < b < j ==> (#[trigger] v@[b]).0 != v@[i as int].0,
            decreases v@.len() - j,
        {
            if v[j].0 == v[i].0 {
                return false;
            }
            j = j + 1;
        }
        i = i + 1;
    }
    true
}

/// A stake computed from a non-positive balance is non-positive.
proof fn lemma_amount_nonpos(balance: i128, percentage: u32)
    requires
        balance <= 0,
    ensures
        stake_amount_of(balance, percentage) <= 0,
{
    assert(balance * percentage <= 0) by (nonlinear_arith)
        requires
            balance <= 0,
            percentage >= 0,
    ;
    vstd::arithmetic::div_mod::lemma_div_is_ordered(balance * percentage, 0, 100);
}

/// A stake computed from a positive balance at a percentage of at most
/// one hundred lies between zero and the balance, and the product the
/// computation forms stays within the machine integer range.
proof fn lemma_amount_le_balance(balance: i128, percentage: u32)
    requires
        0 < balance <= MAX_BALANCE,
        percentage <= 100,
    ensures
        0 <= stake_amount_of(balance, percentage) <= balance,
        0 <= balance * percentage <= i128::MAX,
{
    assert(0 <= balance * percentage <= balance * 100) by (nonlinear_arith)
        requires
            balance > 0,
            0 <= percentage <= 100,
    ;
    assert(balance * 100 <= (i128::MAX / 100) * 100) by (nonlinear_arith)
        requires
            balance <= i128::MAX / 100,
    ;
    assert((i128::MAX / 100) * 100 <= i128::MAX) by {
        vstd::arithmetic::div_mod::lemma_fundamental_div_mod(i128::MAX as int, 100);
    };
    vstd::arithmetic::div_mod::lemma_div_is_ordered(0, balance * percentage, 100);
    vstd::arithmetic::div_mod::lemma_div_is_ordered(balance * percentage, balance * 100, 100);
    vstd::arithmetic::div_mod::lemma_div_multiples_vanish(balance as int, 100);
}

/// Overwriting one more member's index is one more map insertion.
proof fn lemma_overwrite_step(m0: Map<u64, Seq<char>>, users: Seq<u64>, i: int, name: Seq<char>)
    requires
        0 <= i < users.len(),
    ensures
        overwrite_teams(m0, users.take(i + 1), name) == overwrite_teams(
            m0,
            users.take(i),
            name,
        ).insert(users[i], name),
{
    let t1 = users.take(i + 1);
    let t0 = users.take(i);
    assert forall|u: u64| #[trigger] t1.contains(u) implies t0.contains(u) || u == users[i] by {
        let j = choose|j: int| 0 <= j < t1.len() && t1[j] == u;
        if j < i {
            assert(t0[j] == u);
        }
    }
    assert forall|u: u64| #[trigger] t0.contains(u) implies t1.contains(u) by {
        let j = choose|j: int| 0 <= j < t0.len() && t0[j] == u;
        assert(t1[j] == u);
    }
    assert(t1[i] == users[i]);
    assert(t1.contains(users[i]));
    assert(overwrite_teams(m0, t1, name) =~= overwrite_teams(m0, t0, name).insert(users[i], name));
}

} // verus!
