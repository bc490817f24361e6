//! A ledger-backed economic game: teams pool a staking token, submit
//! directional price predictions on assets, and settle rewards once an
//! oracle confirms or refutes the prediction.
//!
//! The crate holds the team/stake/prediction state machine and its
//! resolution-and-settlement engine. The hosting environment (persistent
//! store, token ledger, oracle service, authentication, event sink) is an
//! external collaborator: it authenticates callers, supplies balances,
//! prices, timestamps and digests, and performs the transfers that the
//! functions here decide on.

pub mod alist;
pub mod dao;
pub mod errors;
pub mod laws;
pub mod model;
pub mod reflector;

pub use dao::CollaborativeDao;
pub use dao::StateParts;
pub use dao::Prediction;
pub use dao::Team;
pub use errors::Error;
pub use reflector::PriceData;
pub use reflector::ReflectorClient;
