// Staking arithmetic, the resolution gate, settlement, and the oracle
// stand-in.

use collaborative_dao::dao::hash_sum;
use collaborative_dao::dao::normalize_asset;
use collaborative_dao::CollaborativeDao;
use collaborative_dao::StateParts;
use collaborative_dao::Error;
use collaborative_dao::PriceData;
use collaborative_dao::ReflectorClient;

fn setup_contract() -> CollaborativeDao {
    let mut dao = CollaborativeDao::new();
    dao.initialize(1, 2, 3).unwrap();
    dao
}

fn price(p: i128) -> Option<PriceData> {
    Some(PriceData { price: p, timestamp: 7 })
}

// A digest whose first four bytes sum to 50: passes the difficulty gate
// of a 50 percent stake.
fn passing_digest() -> Vec<u8> {
    vec![25, 25, 0, 0]
}

// A digest whose first four bytes sum to 7: fails the difficulty gate of
// a 50 percent stake.
fn failing_digest() -> Vec<u8> {
    vec![1, 2, 3, 1]
}

#[test]
fn test_stake_success_amounts() {
    let mut dao = setup_contract();
    dao.form_team("Alpha".to_string(), vec![10, 11]).unwrap();

    // 50 percent of a balance of 2000 transfers exactly 1000.
    let r = dao.stake_kale(&"Alpha".to_string(), 10, 50, 2000);
    assert_eq!(r, Ok(1000));
    assert_eq!(dao.get_team(&"Alpha".to_string()).unwrap().total_stake, 1000);
    assert_eq!(dao.get_user_stake(10), 1000);

    // A second contribution accumulates: 25 percent of 1000 is 250.
    let r = dao.stake_kale(&"Alpha".to_string(), 10, 25, 1000);
    assert_eq!(r, Ok(250));
    assert_eq!(dao.get_team(&"Alpha".to_string()).unwrap().total_stake, 1250);
    assert_eq!(dao.get_user_stake(10), 1250);

    // Flooring: 33 percent of 10 is 3.
    let r = dao.stake_kale(&"Alpha".to_string(), 11, 33, 10);
    assert_eq!(r, Ok(3));
    assert_eq!(dao.get_team(&"Alpha".to_string()).unwrap().total_stake, 1253);
    assert_eq!(dao.get_user_stake(11), 3);
}

#[test]
fn test_stake_low_balance_and_not_found() {
    let mut dao = setup_contract();
    dao.form_team("Alpha".to_string(), vec![10]).unwrap();

    // Percentage 101 is out of bounds.
    assert_eq!(dao.stake_kale(&"Alpha".to_string(), 10, 101, 2000), Err(Error::InvalidStakePercentage));
    // Zero percent of a positive balance computes to zero.
    assert_eq!(dao.stake_kale(&"Alpha".to_string(), 10, 0, 2000), Err(Error::LowBalance));
    // Fifty percent of a zero balance computes to zero.
    assert_eq!(dao.stake_kale(&"Alpha".to_string(), 10, 50, 0), Err(Error::LowBalance));
    // One percent of a tiny balance floors to zero.
    assert_eq!(dao.stake_kale(&"Alpha".to_string(), 10, 1, 99), Err(Error::LowBalance));
    // Unknown team.
    assert_eq!(dao.stake_kale(&"Beta".to_string(), 10, 50, 2000), Err(Error::TeamNotFound));

    // Nothing was recorded by the failures.
    assert_eq!(dao.get_team(&"Alpha".to_string()).unwrap().total_stake, 0);
    assert_eq!(dao.get_user_stake(10), 0);
}

#[test]
fn test_form_team_duplicate_keeps_record() {
    let mut dao = setup_contract();
    dao.form_team("Alpha".to_string(), vec![10, 11]).unwrap();

    let r = dao.form_team("Alpha".to_string(), vec![12]);
    assert_eq!(r, Err(Error::PredictionExists));

    // The stored record is unchanged.
    let team = dao.get_team(&"Alpha".to_string()).unwrap();
    assert_eq!(team.members, vec![10, 11]);
    // The losing formation indexed nobody.
    assert_eq!(dao.get_user_team(12), None);
}

#[test]
fn test_make_prediction_team_not_found() {
    let mut dao = setup_contract();
    let r = dao.make_prediction(
        "p1".to_string(),
        "Ghost".to_string(),
        "EUR/USD".to_string(),
        true,
        1000,
        50,
        10,
        0,
    );
    assert_eq!(r, Err(Error::TeamNotFound));
    assert!(dao.get_prediction(&"p1".to_string()).is_none());
}

fn setup_with_prediction(direction: bool, stake_amount: i128, stake_percentage: u32) -> CollaborativeDao {
    let mut dao = setup_contract();
    dao.form_team("Alpha".to_string(), vec![10, 11]).unwrap();
    dao.make_prediction(
        "p1".to_string(),
        "Alpha".to_string(),
        "EUR/USD".to_string(),
        direction,
        stake_amount,
        stake_percentage,
        10,
        0,
    )
    .unwrap();
    dao
}

#[test]
fn test_resolve_commits_outcome_once() {
    let mut dao = setup_with_prediction(true, 1000, 50);

    // Rising price, direction "rise": the outcome is correct.
    let r = dao.resolve_prediction(&"p1".to_string(), price(110), price(100), &passing_digest());
    assert_eq!(r, Ok(true));

    let p = dao.get_prediction(&"p1".to_string()).unwrap();
    assert_eq!(p.resolved, true);
    assert_eq!(p.outcome, Some(true));

    // A second attempt fails and the stored outcome stands, even with
    // prices that would have flipped it.
    let r = dao.resolve_prediction(&"p1".to_string(), price(90), price(100), &passing_digest());
    assert_eq!(r, Err(Error::AlreadyResolved));
    let p = dao.get_prediction(&"p1".to_string()).unwrap();
    assert_eq!(p.outcome, Some(true));
}

#[test]
fn test_resolve_incorrect_direction() {
    let mut dao = setup_with_prediction(false, 1000, 50);

    // Rising price, direction "fall": the outcome is incorrect.
    let r = dao.resolve_prediction(&"p1".to_string(), price(110), price(100), &passing_digest());
    assert_eq!(r, Ok(false));
    let p = dao.get_prediction(&"p1".to_string()).unwrap();
    assert_eq!(p.outcome, Some(false));
}

#[test]
fn test_resolve_error_cases() {
    let mut dao = setup_with_prediction(true, 1000, 50);

    // Unknown id.
    assert_eq!(
        dao.resolve_prediction(&"nope".to_string(), price(110), price(100), &passing_digest()),
        Err(Error::PredictionNotFound)
    );
    // Missing current price.
    assert_eq!(
        dao.resolve_prediction(&"p1".to_string(), None, price(100), &passing_digest()),
        Err(Error::OracleDataUnavailable)
    );
    // Missing historical price.
    assert_eq!(
        dao.resolve_prediction(&"p1".to_string(), price(110), None, &passing_digest()),
        Err(Error::OracleDataUnavailable)
    );
    // Failing difficulty gate.
    assert_eq!(
        dao.resolve_prediction(&"p1".to_string(), price(110), price(100), &failing_digest()),
        Err(Error::HashVerificationFailed)
    );
    // Equal prices fail the consistency gate.
    assert_eq!(
        dao.resolve_prediction(&"p1".to_string(), price(100), price(100), &passing_digest()),
        Err(Error::OracleDataUnavailable)
    );
    // Non-positive prices fail the consistency gate.
    assert_eq!(
        dao.resolve_prediction(&"p1".to_string(), price(0), price(100), &passing_digest()),
        Err(Error::OracleDataUnavailable)
    );
    // Nothing was committed by the failures.
    let p = dao.get_prediction(&"p1".to_string()).unwrap();
    assert_eq!(p.resolved, false);
    assert_eq!(p.outcome, None);
}

#[test]
fn test_resolve_unconfigured_oracle() {
    let mut dao = CollaborativeDao::new();
    dao.form_team("Alpha".to_string(), vec![10]).unwrap();
    dao.make_prediction(
        "p1".to_string(),
        "Alpha".to_string(),
        "EUR/USD".to_string(),
        true,
        1000,
        50,
        10,
        0,
    )
    .unwrap();
    assert_eq!(
        dao.resolve_prediction(&"p1".to_string(), price(110), price(100), &passing_digest()),
        Err(Error::OracleDataUnavailable)
    );
}

#[test]
fn test_hash_failure_precedes_oracle_failure() {
    let mut dao = setup_with_prediction(true, 1000, 50);
    // Both gates would fail: the digest is off target and the prices are
    // equal. The hash failure is reported.
    assert_eq!(
        dao.resolve_prediction(&"p1".to_string(), price(100), price(100), &failing_digest()),
        Err(Error::HashVerificationFailed)
    );
}

#[test]
fn test_zero_percentage_difficulty_is_one() {
    // A zero stake percentage gives difficulty one: every digest passes.
    let mut dao = setup_with_prediction(true, 1000, 0);
    let r = dao.resolve_prediction(&"p1".to_string(), price(110), price(100), &failing_digest());
    assert_eq!(r, Ok(true));
}

#[test]
fn test_distribute_pays_stake_plus_ten_percent() {
    let mut dao = setup_with_prediction(true, 1000, 50);
    dao.resolve_prediction(&"p1".to_string(), price(110), price(100), &passing_digest())
        .unwrap();

    // A resolved-correct prediction with stake 1000 pays exactly 1100 to
    // the predictor.
    let r = dao.distribute_rewards(&"p1".to_string());
    assert_eq!(r, Ok(Some((10, 1100))));

    // Nothing marks it as paid: the same answer comes again.
    let r = dao.distribute_rewards(&"p1".to_string());
    assert_eq!(r, Ok(Some((10, 1100))));
}

#[test]
fn test_distribute_withholds_on_incorrect_outcome() {
    let mut dao = setup_with_prediction(false, 1000, 50);
    dao.resolve_prediction(&"p1".to_string(), price(110), price(100), &passing_digest())
        .unwrap();

    let r = dao.distribute_rewards(&"p1".to_string());
    assert_eq!(r, Ok(None));
}

#[test]
fn test_distribute_requires_resolution() {
    let dao = setup_contract();
    assert_eq!(dao.distribute_rewards(&"p1".to_string()), Err(Error::PredictionNotFound));

    let mut dao = setup_with_prediction(true, 1000, 50);
    // Present but unresolved: the same not-found answer.
    assert_eq!(dao.distribute_rewards(&"p1".to_string()), Err(Error::PredictionNotFound));
    dao.resolve_prediction(&"p1".to_string(), price(110), price(100), &passing_digest())
        .unwrap();
    assert_eq!(dao.distribute_rewards(&"p1".to_string()), Ok(Some((10, 1100))));
}

#[test]
fn test_end_to_end_scenario() {
    let mut dao = setup_contract();

    dao.form_team("Alpha".to_string(), vec![10, 11]).unwrap();
    let team = dao.get_team(&"Alpha".to_string()).unwrap();
    assert_eq!(team.members.len(), 2);
    assert_eq!(team.total_stake, 0);

    // A's balance is 2000; staking 50 percent transfers 1000.
    assert_eq!(dao.stake_kale(&"Alpha".to_string(), 10, 50, 2000), Ok(1000));
    assert_eq!(dao.get_team(&"Alpha".to_string()).unwrap().total_stake, 1000);
    assert_eq!(dao.get_user_stake(10), 1000);

    dao.make_prediction(
        "p1".to_string(),
        "Alpha".to_string(),
        "EUR/USD".to_string(),
        true,
        1000,
        50,
        10,
        0,
    )
    .unwrap();
    assert_eq!(dao.get_prediction(&"p1".to_string()).unwrap().resolved, false);

    // Current price 110, historical 100: the price rose, the stored
    // direction said rise, so the outcome is correct.
    let r = dao.resolve_prediction(&"p1".to_string(), price(110), price(100), &passing_digest());
    assert_eq!(r, Ok(true));

    // Settlement transfers 1100 to A.
    assert_eq!(dao.distribute_rewards(&"p1".to_string()), Ok(Some((10, 1100))));
}

#[test]
fn test_hash_sum_adds_first_four_bytes() {
    assert_eq!(hash_sum(&vec![1, 2, 3, 4]), 10);
    assert_eq!(hash_sum(&vec![255, 255, 255, 255, 9, 9]), 1020);
}

#[test]
fn test_normalize_asset_table() {
    assert_eq!(normalize_asset(&"EUR/USD".to_string()), "EUR".to_string());
    assert_eq!(normalize_asset(&"BTC".to_string()), "BTC".to_string());
    assert_eq!(normalize_asset(&"ETH/USD".to_string()), "ETH/USD".to_string());
}

#[test]
fn test_reflector_mock_prices() {
    let client = ReflectorClient::new(3);
    assert_eq!(client.address, 3);
    assert_eq!(client.get_decimals(), 14);

    let eur = client.get_last_price(&"EUR".to_string(), 42).unwrap();
    assert_eq!(eur.price, 1_085_600_000_000_000);
    assert_eq!(eur.timestamp, 42);

    let usd = client.get_last_price(&"USD".to_string(), 42).unwrap();
    assert_eq!(usd.price, 1_000_000_000_000_000);

    let btc = client.get_last_price(&"BTC".to_string(), 42).unwrap();
    assert_eq!(btc.price, 43_250_750_000_000_000_000);

    let other = client.get_last_price(&"DOGE".to_string(), 42).unwrap();
    assert_eq!(other.price, 1_000_000_000_000_000);

    // The historical answer is ninety-nine and a half percent of the
    // latest, stamped with the requested timestamp.
    let hist = client.get_price(&"EUR".to_string(), 7).unwrap();
    assert_eq!(hist.price, 1_080_172_000_000_000);
    assert_eq!(hist.timestamp, 7);

    let hist_btc = client.get_price(&"BTC".to_string(), 7).unwrap();
    assert_eq!(hist_btc.price, 43_034_496_250_000_000_000);
}

#[test]
fn test_list_teams_is_stub() {
    let mut dao = setup_contract();
    dao.form_team("Alpha".to_string(), vec![10]).unwrap();
    assert_eq!(dao.list_teams().len(), 0);
}

#[test]
fn test_state_round_trip() {
    let mut dao = setup_with_prediction(true, 1000, 50);
    dao.stake_kale(&"Alpha".to_string(), 10, 50, 2000).unwrap();

    // Exporting and re-importing the stored entities rebuilds a state
    // that answers every query the same way.
    let parts = dao.to_parts();
    let rebuilt = CollaborativeDao::from_parts(parts).unwrap();
    let team = rebuilt.get_team(&"Alpha".to_string()).unwrap();
    assert_eq!(team.total_stake, 1000);
    assert_eq!(team.members, vec![10, 11]);
    assert_eq!(rebuilt.get_user_stake(10), 1000);
    assert_eq!(rebuilt.get_user_team(10), Some("Alpha".to_string()));
    let p = rebuilt.get_prediction(&"p1".to_string()).unwrap();
    assert_eq!(p.asset, "EUR/USD".to_string());
    assert_eq!(rebuilt.get_config(), (Some(2), Some(3)));
}

#[test]
fn test_from_parts_rejects_duplicate_keys() {
    let dao = setup_contract();
    let mut parts = dao.to_parts();
    parts.user_stakes.push((10, 5));
    parts.user_stakes.push((10, 7));
    assert!(CollaborativeDao::from_parts(parts).is_none());
}

#[test]
fn test_from_parts_rejects_inconsistent_entries() {
    let mut dao = setup_contract();
    dao.form_team("Alpha".to_string(), vec![10]).unwrap();
    let mut parts = dao.to_parts();
    // A resolved prediction without an outcome is inconsistent.
    parts.predictions.push((
        "bad".to_string(),
        collaborative_dao::Prediction {
            team_name: "Alpha".to_string(),
            asset: "EUR/USD".to_string(),
            prediction: true,
            stake_amount: 1,
            stake_percentage: 1,
            predictor: 10,
            timestamp: 0,
            resolved: true,
            outcome: None,
        },
    ));
    assert!(CollaborativeDao::from_parts(parts).is_none());
}
