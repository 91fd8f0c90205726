//! A small weather relay service, verified with Verus.
//!
//! The library holds the service's core: the record type that is cached and
//! served, the wire-format codec for those records, the shared cache with its
//! replace/snapshot contract, the provider capability, and the per-request
//! endpoint logic. Network transport and server wiring live outside, in the
//! unverified application shell.

pub mod cache;
pub mod encode;
pub mod endpoint;
pub mod provider;
pub mod parse;
pub mod record;
pub mod roundtrip;
pub mod wire;

pub use cache::WeatherCache;
pub use encode::encode_records;
pub use endpoint::WeatherResponse;
pub use endpoint::get_weather;
pub use endpoint::respond_with;
pub use parse::parse_records;
pub use provider::FailingProvider;
pub use provider::FetchError;
pub use provider::FixedProvider;
pub use provider::WeatherProvider;
pub use record::RecordView;
pub use record::WeatherRecord;
