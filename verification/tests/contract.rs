// The contract surface: team formation, predictions, staking checks,
// queries and configuration.

use collaborative_dao::CollaborativeDao;
use collaborative_dao::Error;

/// Helper to initialize a contract with basic setup: admin 1, token
/// ledger address 2, oracle address 3.
fn setup_contract() -> CollaborativeDao {
    let mut dao = CollaborativeDao::new();
    let r = dao.initialize(1, 2, 3);
    assert!(r.is_ok());
    dao
}

#[test]
fn test_form_team_success() {
    let mut dao = setup_contract();

    let team_name = "TestTeam".to_string();
    let user1: u64 = 10;
    let user2: u64 = 11;
    let members = vec![user1, user2];

    dao.form_team(team_name.clone(), members).unwrap();

    let team = dao.get_team(&team_name).unwrap();
    assert_eq!(team.name, team_name);
    assert_eq!(team.members.len(), 2);
    assert_eq!(team.total_stake, 0);

    let user1_team = dao.get_user_team(user1);
    assert_eq!(user1_team, Some(team_name.clone()));

    let user2_team = dao.get_user_team(user2);
    assert_eq!(user2_team, Some(team_name));
}

#[test]
fn test_make_prediction_success() {
    let mut dao = setup_contract();

    let team_name = "TestTeam".to_string();
    let user1: u64 = 10;
    dao.form_team(team_name.clone(), vec![user1]).unwrap();

    let prediction_id = "pred1".to_string();
    let asset = "EUR/USD".to_string();

    dao.make_prediction(
        prediction_id.clone(),
        team_name.clone(),
        asset.clone(),
        true, // prediction: price will rise
        1000, // stake amount
        50,   // stake percentage
        user1,
        0,
    )
    .unwrap();

    let prediction = dao.get_prediction(&prediction_id).unwrap();
    assert_eq!(prediction.team_name, team_name);
    assert_eq!(prediction.asset, asset);
    assert_eq!(prediction.prediction, true);
    assert_eq!(prediction.stake_amount, 1000);
    assert_eq!(prediction.stake_percentage, 50);
    assert_eq!(prediction.resolved, false);
    assert!(prediction.outcome.is_none());
}

#[test]
fn test_prediction_duplicate_fails() {
    let mut dao = setup_contract();

    let team_name = "TestTeam".to_string();
    let user1: u64 = 10;
    dao.form_team(team_name.clone(), vec![user1]).unwrap();

    let prediction_id = "pred1".to_string();
    let asset = "EUR/USD".to_string();

    dao.make_prediction(
        prediction_id.clone(),
        team_name.clone(),
        asset.clone(),
        true,
        1000,
        50,
        user1,
        0,
    )
    .unwrap();

    let result = dao.make_prediction(
        prediction_id.clone(),
        team_name.clone(),
        asset.clone(),
        false,
        2000,
        75,
        user1,
        0,
    );

    assert_eq!(result, Err(Error::PredictionExists));
}

#[test]
fn test_stake_validation() {
    let mut dao = setup_contract();

    let team_name = "TestTeam".to_string();
    let user1: u64 = 10;
    let user2: u64 = 11; // Not a team member
    dao.form_team(team_name.clone(), vec![user1]).unwrap();

    // Invalid stake percentage.
    let result = dao.stake_kale(&team_name, user1, 150, 0);
    assert_eq!(result, Err(Error::InvalidStakePercentage));

    // Unauthorized user.
    let result = dao.stake_kale(&team_name, user2, 50, 0);
    assert_eq!(result, Err(Error::Unauthorized));
}

#[test]
fn test_error_cases() {
    let dao = setup_contract();

    let user1: u64 = 10;
    let team_name = "NonExistentTeam".to_string();

    let team = dao.get_team(&team_name);
    assert!(team.is_none());

    let prediction_id = "nonexistent".to_string();
    let prediction = dao.get_prediction(&prediction_id);
    assert!(prediction.is_none());

    let user_team = dao.get_user_team(user1);
    assert!(user_team.is_none());

    let user_stake = dao.get_user_stake(user1);
    assert_eq!(user_stake, 0);
}

#[test]
fn test_configuration() {
    let dao = setup_contract();

    let (stored_kale, stored_reflector) = dao.get_config();
    assert!(stored_kale.is_some());
    assert!(stored_reflector.is_some());
}

#[test]
fn test_team_membership_tracking() {
    let mut dao = setup_contract();

    let team_name1 = "Team1".to_string();
    let team_name2 = "Team2".to_string();
    let user1: u64 = 10;
    let user2: u64 = 11;
    let user3: u64 = 12;

    dao.form_team(team_name1.clone(), vec![user1, user2]).unwrap();
    dao.form_team(team_name2.clone(), vec![user2, user3]).unwrap();

    assert_eq!(dao.get_user_team(user1), Some(team_name1.clone()));
    assert_eq!(dao.get_user_team(user2), Some(team_name2.clone())); // Latest team
    assert_eq!(dao.get_user_team(user3), Some(team_name2));
}

#[test]
fn test_multiple_predictions_workflow() {
    let mut dao = setup_contract();

    let team_name = "TestTeam".to_string();
    let user1: u64 = 10;
    let user2: u64 = 11;
    dao.form_team(team_name.clone(), vec![user1, user2]).unwrap();

    let predictions = [
        ("pred1", "EUR/USD", true, 1000i128),
        ("pred2", "BTC/USD", false, 2000i128),
        ("pred3", "ETH/USD", true, 1500i128),
    ];

    for (id, asset, prediction, amount) in predictions.iter() {
        let prediction_id = id.to_string();
        let asset_str = asset.to_string();

        dao.make_prediction(
            prediction_id.clone(),
            team_name.clone(),
            asset_str.clone(),
            *prediction,
            *amount,
            50,
            user1,
            0,
        )
        .unwrap();

        let stored_prediction = dao.get_prediction(&prediction_id).unwrap();
        assert_eq!(stored_prediction.asset, asset_str);
        assert_eq!(stored_prediction.prediction, *prediction);
        assert_eq!(stored_prediction.stake_amount, *amount);
    }
}

#[test]
fn test_contract_initialization() {
    let mut dao = CollaborativeDao::new();

    let admin: u64 = 1;
    let kale_token: u64 = 2;
    let reflector_oracle: u64 = 3;

    dao.initialize(admin, kale_token, reflector_oracle).unwrap();

    let (stored_kale, stored_reflector) = dao.get_config();
    assert_eq!(stored_kale, Some(kale_token));
    assert_eq!(stored_reflector, Some(reflector_oracle));
}
