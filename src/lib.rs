pub mod types;
pub mod ledger;
pub mod laws;
pub mod query;
pub mod params;
pub mod submit;
