//! A record-lookup and reporting library for vehicle sightings keyed by
//! license plate.  The library holds the three pieces of logic worth
//! verifying: the plate normalizer, the two-way text codec for vehicle
//! records, and the per-conversation session machine that gates access by
//! verified phone number.  The chat transport and the key-value store are
//! external collaborators; the session machine tells the caller which store
//! question a turn needs and what to do with the answer.
pub mod codec;
pub mod plate;
pub mod record;
pub mod session;
pub mod text;

pub use plate::normalize_license_plate;
pub use record::CarInfo;
pub use record::PartialLicensePlatesCarInfo;
pub use session::State;
