use vstd::prelude::*;

use crate::record::WeatherRecord;

verus! {

/// The single failure signal of a fetch: transport failure, an undecodable
/// response body, and a non-success upstream status all collapse into it,
/// since the endpoint only needs to know that no usable data arrived.
#[derive(Clone, Copy, Debug, PartialEq, Eq, Structural)]
pub struct FetchError;

/// The capability "fetch current weather records from the upstream source".
///
/// The endpoint reaches the upstream only through this trait, so a
/// deterministic stand-in can take the place of the real source without any
/// other component changing. Nothing is promised about which outcome a fetch
/// takes; the endpoint states what holds for every outcome.
pub trait WeatherProvider {
    /// Performs one best-effort fetch of the current records.
    fn fetch(&self) -> (r: Result<Vec<WeatherRecord>, FetchError>);
}

/// A provider that always returns the same fixed records.
pub struct FixedProvider {
    pub records: Vec<WeatherRecord>,
}

impl WeatherProvider for FixedProvider {
    fn fetch(&self) -> (r: Result<Vec<WeatherRecord>, FetchError>)
        ensures
            r matches Ok(s) && s.deep_view() == self.records.deep_view(),
    {
        Ok(crate::record::clone_records(&self.records))
    }
}

/// A provider whose every fetch fails.
pub struct FailingProvider;

impl WeatherProvider for FailingProvider {
    fn fetch(&self) -> (r: Result<Vec<WeatherRecord>, FetchError>)
        ensures
            r is Err,
    {
        Err(FetchError)
    }
}

} // verus!
