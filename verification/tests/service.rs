use weather_service::encode_records;
use weather_service::get_weather;
use weather_service::respond_with;
use weather_service::FailingProvider;
use weather_service::FetchError;
use weather_service::FixedProvider;
use weather_service::WeatherCache;
use weather_service::WeatherRecord;

fn record(id: u64, description: &str, temperature: &str) -> WeatherRecord {
    WeatherRecord {
        id,
        description: description.as_bytes().to_vec(),
        temperature: temperature.as_bytes().to_vec(),
    }
}

fn assert_same_records(a: &[WeatherRecord], b: &[WeatherRecord]) {
    assert_eq!(a.len(), b.len());
    for (x, y) in a.iter().zip(b.iter()) {
        assert_eq!(x.id, y.id);
        assert_eq!(x.description, y.description);
        assert_eq!(x.temperature, y.temperature);
    }
}

#[test]
fn successful_fetch_updates_cache() {
    let provider = FixedProvider {
        records: vec![record(1, "Clear", "295.2")],
    };
    let mut cache = WeatherCache::new();
    let response = get_weather(&provider, &mut cache);
    assert_eq!(response.status, 200);
    assert_eq!(
        response.body,
        b"[{\"id\":1,\"description\":\"Clear\",\"temperature\":295.2}]".to_vec()
    );
    let snapshot = cache.snapshot();
    assert_same_records(&snapshot, &provider.records);
}

#[test]
fn failure_response_leaves_cache_empty() {
    let provider = FailingProvider;
    let mut cache = WeatherCache::new();
    let response = get_weather(&provider, &mut cache);
    assert_eq!(response.status, 500);
    assert!(response.body.is_empty());
    assert!(cache.snapshot().is_empty());
}

#[test]
fn fetch_failure_leaves_cache_untouched() {
    let mut cache = WeatherCache::new();
    cache.replace(vec![record(7, "Cloudy", "280.0")]);
    let provider = FailingProvider;
    let response = get_weather(&provider, &mut cache);
    assert_eq!(response.status, 500);
    assert!(response.body.is_empty());
    let snapshot = cache.snapshot();
    assert_eq!(snapshot.len(), 1);
    assert_eq!(snapshot[0].id, 7);
    assert_eq!(snapshot[0].description, b"Cloudy".to_vec());
    assert_eq!(snapshot[0].temperature, b"280.0".to_vec());
}

#[test]
fn respond_with_commits_only_on_success() {
    let mut cache = WeatherCache::new();
    let response = respond_with(&mut cache, Ok(vec![record(3, "Haze", "301.4")]));
    assert_eq!(response.status, 200);
    assert_eq!(cache.snapshot().len(), 1);
    let response = respond_with(&mut cache, Err(FetchError));
    assert_eq!(response.status, 500);
    assert!(response.body.is_empty());
    assert_eq!(cache.snapshot().len(), 1);
    assert_eq!(cache.snapshot()[0].id, 3);
}

#[test]
fn snapshot_is_idempotent() {
    let mut cache = WeatherCache::new();
    cache.replace(vec![record(1, "Mist", "270.5"), record(2, "Rain", "271.0")]);
    let first = cache.snapshot();
    let second = cache.snapshot();
    assert_same_records(&first, &second);
}

#[test]
fn snapshot_returns_whole_replace() {
    let mut cache = WeatherCache::new();
    assert!(cache.snapshot().is_empty());
    let first_batch = vec![record(1, "Clear", "295.2")];
    let second_batch = vec![record(2, "Rain", "280.1"), record(3, "Snow", "260.0")];
    cache.replace(first_batch.clone());
    assert_same_records(&cache.snapshot(), &first_batch);
    cache.replace(second_batch.clone());
    let observed = cache.snapshot();
    assert_same_records(&observed, &second_batch);
    assert_ne!(observed.len(), first_batch.len());
}

#[test]
fn concurrent_requests_see_whole_outputs() {
    let s1 = vec![record(1, "Clear", "295.2")];
    let s2 = vec![record(2, "Rain", "280.1")];
    let first_provider = FixedProvider { records: s1.clone() };
    let second_provider = FixedProvider { records: s2.clone() };
    let mut cache = WeatherCache::new();
    let r1 = get_weather(&first_provider, &mut cache);
    let r2 = get_weather(&second_provider, &mut cache);
    let e1 = encode_records(&s1);
    let e2 = encode_records(&s2);
    assert!(r1.body == e1 || r1.body == e2);
    assert!(r2.body == e1 || r2.body == e2);
    assert_eq!(r1.body, e1);
    assert_eq!(r2.body, e2);
    assert_same_records(&cache.snapshot(), &s2);
}
