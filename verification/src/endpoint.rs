use vstd::prelude::*;

use crate::cache::WeatherCache;
use crate::encode::encode_records;
use crate::encode::spec_encode_records;
use crate::provider::FetchError;
use crate::provider::WeatherProvider;
use crate::record::WeatherRecord;

verus! {

/// The status code of a successful response.
pub const STATUS_OK: u16 = 200;

/// The status code of the response to a failed fetch.
pub const STATUS_SERVER_ERROR: u16 = 500;

/// What one invocation of the endpoint hands back to the transport layer:
/// a status code and the response body's bytes.
pub struct WeatherResponse {
    pub status: u16,
    pub body: Vec<u8>,
}

/// Commits the outcome of one fetch and builds the response.
///
/// A successful fetch replaces the cache contents as a whole and answers
/// with the encoding of a fresh snapshot — so the body reflects the
/// authoritative cache state, not merely the fetched value. A failed fetch
/// leaves the cache exactly as it was and answers with a server error and
/// an empty body.
pub fn respond_with(
    cache: &mut WeatherCache,
    fetched: Result<Vec<WeatherRecord>, FetchError>,
) -> (r: WeatherResponse)
    ensures
        fetched matches Ok(s) ==> final(cache)@ == s.deep_view() && r.status == STATUS_OK
            && r.body@ == spec_encode_records(s.deep_view()),
        fetched is Err ==> final(cache)@ == old(cache)@ && r.status == STATUS_SERVER_ERROR
            && r.body@ == Seq::<u8>::empty(),
{
    match fetched {
        Ok(records) => {
            cache.replace(records);
            let snapshot_records = cache.snapshot();
            let body = encode_records(&snapshot_records);
            WeatherResponse { status: STATUS_OK, body }
        },
        Err(_) => WeatherResponse { status: STATUS_SERVER_ERROR, body: Vec::new() },
    }
}

/// Handles one inbound request: fetches from the provider, and on success
/// commits the result to the cache and serves the cache's new contents; on
/// failure serves a server error and leaves the cache untouched.
pub fn get_weather<P: WeatherProvider>(
    provider: &P,
    cache: &mut WeatherCache,
) -> (r: WeatherResponse)
    ensures
        r.status == STATUS_OK || r.status == STATUS_SERVER_ERROR,
        r.status == STATUS_OK ==> r.body@ == spec_encode_records(final(cache)@),
        r.status == STATUS_SERVER_ERROR ==> final(cache)@ == old(cache)@ && r.body@ == Seq::<
            u8,
        >::empty(),
{
    let fetched = provider.fetch();
    respond_with(cache, fetched)
}

} // verus!
